//! Communities: how one is created, who may see, manage and delete it.

use vstd::prelude::*;

use crate::codes::{alphanumeric, dashed, generate_unique_code};
use crate::stats::{tally, CommunityStats};
use crate::text::str_equal;

verus! {

#[verifier::external_type_specification]
#[verifier::external_body]
pub struct ExNaiveDate(chrono::NaiveDate);

/// Whether `year` is a leap year of the proleptic Gregorian calendar.
pub open spec fn leap_year(year: int) -> bool {
    year % 4 == 0 && (year % 100 != 0 || year % 400 == 0)
}

/// The number of days of `month` (1 to 12) in `year`.
pub open spec fn days_in_month(year: int, month: int) -> int {
    if month == 2 {
        if leap_year(year) { 29 } else { 28 }
    } else if month == 4 || month == 6 || month == 9 || month == 11 {
        30
    } else {
        31
    }
}

/// Names the calendar date that chrono's `NaiveDate::from_ymd` makes of a year, month
/// and day.
pub uninterp spec fn calendar_day(year: i32, month: u32, day: u32) -> chrono::NaiveDate;

/// Names the date and time that chrono's `NaiveDate::and_hms` makes of a date and an
/// hour, minute and second.
pub uninterp spec fn day_at(date: chrono::NaiveDate, hour: u32, min: u32, sec: u32) -> chrono::NaiveDateTime;

/// chrono's `NaiveDate::from_ymd`: the date `day`.`month`.`year`, named
/// [`calendar_day`]. The source panics on a day that does not exist or a year outside
/// -262143 to 262142, which `requires` leaves out.
#[verifier::external_body]
#[allow(deprecated)]
fn date_of(year: i32, month: u32, day: u32) -> (r: chrono::NaiveDate)
    requires
        -262143 <= year <= 262142,
        1 <= month <= 12,
        1 <= day <= days_in_month(year as int, month as int),
    ensures
        r == calendar_day(year, month, day),
{
    chrono::NaiveDate::from_ymd(year, month, day)
}

/// chrono's `NaiveDate::and_hms`: `date` at `hour`:`min`:`sec`, named [`day_at`]. The
/// source panics on an hour, minute or second out of range, which `requires` leaves
/// out.
#[verifier::external_body]
#[allow(deprecated)]
fn at_time(date: &chrono::NaiveDate, hour: u32, min: u32, sec: u32) -> (r: chrono::NaiveDateTime)
    requires
        hour < 24,
        min < 60,
        sec < 60,
    ensures
        r == day_at(*date, hour, min, sec),
{
    date.and_hms(hour, min, sec)
}

/// The creation date that new communities and people are given: 6 June 2020, 03:03:03.
pub open spec fn creation_date() -> chrono::NaiveDateTime {
    day_at(calendar_day(2020, 6, 6), 3, 3, 3)
}

/// [`creation_date`].
fn fixed_creation_date() -> (d: chrono::NaiveDateTime)
    ensures
        d == creation_date(),
{
    let day = date_of(2020, 6, 6);
    at_time(&day, 3, 3, 3)
}

/// A community to be stored, with its creation date and its statistics.
pub struct NewCommunity {
    pub tag: i32,
    pub description: i32,
    pub data_use_case: i32,
    pub contact_email: String,
    pub open: bool,
    pub code: String,
    pub slug: String,
    pub user_id: i32,
    pub date_created: chrono::NaiveDateTime,
    pub data: CommunityStats,
    pub test: bool,
}

/// A person to be stored, in a community, with its creation date.
pub struct NewPerson {
    pub code: String,
    pub related_codes: Vec<String>,
    pub community_id: i32,
    pub date_created: chrono::NaiveDateTime,
}

/// Whether `code` is a fresh access code: 24 letters and digits grouped by dashes.
pub open spec fn access_code(code: Seq<char>) -> bool {
    exists|raw: Seq<char>|
        {
            &&& raw.len() == 24
            &&& forall|i: int| 0 <= i < raw.len() ==> alphanumeric(#[trigger] raw[i])
            &&& code == dashed(raw)
        }
}

impl NewCommunity {
    /// A community with the given phrases and settings and a fresh access code.
    pub fn new(
        tag: i32,
        description: i32,
        data_use_case: i32,
        contact_email: String,
        open: bool,
        slug: String,
        user_id: i32,
        test: bool,
    ) -> (c: NewCommunity)
        ensures
            c.tag == tag,
            c.description == description,
            c.data_use_case == data_use_case,
            c.contact_email@ == contact_email@,
            c.open == open,
            c.slug@ == slug@,
            c.user_id == user_id,
            c.test == test,
            c.date_created == creation_date(),
            tally(c.data) == (0int, 0int, Map::<i32, i64>::empty()),
            c.data.tags@.len() == 0,
            c.data.invitations == 0,
            access_code(c.code@),
    {
        NewCommunity {
            tag,
            description,
            data_use_case,
            contact_email,
            open,
            code: generate_unique_code(24, true),
            slug,
            user_id,
            date_created: fixed_creation_date(),
            data: CommunityStats::new(),
            test,
        }
    }
}

impl NewPerson {
    /// A person of `community_id` with a fresh access code and no related people.
    pub fn new(community_id: i32) -> (p: NewPerson)
        ensures
            p.community_id == community_id,
            p.related_codes@.len() == 0,
            p.date_created == creation_date(),
            access_code(p.code@),
    {
        NewPerson {
            code: generate_unique_code(24, true),
            related_codes: Vec::new(),
            community_id,
            date_created: fixed_creation_date(),
        }
    }
}

/// What a visitor of a community's page gets.
pub enum CommunityView {
    /// The page, telling whether the visitor owns the community.
    Show { owner: bool },
    /// A closed community seen by a signed-in visitor who does not own it: back to the
    /// start page.
    Redirect,
    /// A closed community seen by someone not signed in: refused.
    NotAuthorized,
}

/// What the visitor `viewer` (the account's identifier, if signed in) gets on the page
/// of a community owned by `owner_id`: an open community is shown to all, a closed one
/// only to its owner.
pub fn community_view(open: bool, owner_id: i32, viewer: Option<i32>) -> (v: CommunityView)
    ensures
        v == (match viewer {
            Some(u) => if open || owner_id == u { CommunityView::Show { owner: owner_id == u } } else { CommunityView::Redirect },
            None => if open { CommunityView::Show { owner: false } } else { CommunityView::NotAuthorized },
        }),
{
    match viewer {
        Some(u) => {
            let owner = owner_id == u;
            if !open && !owner {
                CommunityView::Redirect
            } else {
                CommunityView::Show { owner }
            }
        },
        None => {
            if !open {
                CommunityView::NotAuthorized
            } else {
                CommunityView::Show { owner: false }
            }
        },
    }
}

/// Whether the account `user_id` may edit a community owned by `owner_id`: only the
/// owner may.
pub fn may_edit_community(owner_id: i32, user_id: i32) -> (r: bool)
    ensures
        r == (owner_id == user_id),
{
    owner_id == user_id
}

/// Whether the account `user_id` with `role` may open the deletion page of a community
/// owned by `owner_id`: administrators and the owner may.
pub fn may_manage_community(role: &str, owner_id: i32, user_id: i32) -> (r: bool)
    ensures
        r == (role@ == "admin"@ || owner_id == user_id),
{
    str_equal(role, "admin") || owner_id == user_id
}

/// Whether the account `user_id` with `role` may delete the community `slug` owned by
/// `owner_id`: administrators, the owner, and anyone for the community `global`.
pub fn may_delete_community(role: &str, owner_id: i32, user_id: i32, slug: &str) -> (r: bool)
    ensures
        r == (role@ == "admin"@ || owner_id == user_id || slug@ == "global"@),
{
    str_equal(role, "admin") || owner_id == user_id || str_equal(slug, "global")
}

/// Whether a visitor with `role` may see the index of all communities: only
/// administrators may.
pub fn may_list_communities(role: &str) -> (r: bool)
    ensures
        r == (role@ == "admin"@),
{
    str_equal(role, "admin")
}

/// What a visitor of a node's page within a community gets: an open community's page
/// is shown to all, a closed one's only to its owner; everyone else is sent back to
/// the start page.
pub fn community_node_page_view(open: bool, owner_id: i32, viewer: Option<i32>) -> (v: CommunityView)
    ensures
        v == (match viewer {
            Some(u) => if open || owner_id == u { CommunityView::Show { owner: owner_id == u } } else { CommunityView::Redirect },
            None => if open { CommunityView::Show { owner: false } } else { CommunityView::Redirect },
        }),
{
    match viewer {
        Some(u) => {
            let owner = owner_id == u;
            if !open && !owner {
                CommunityView::Redirect
            } else {
                CommunityView::Show { owner }
            }
        },
        None => {
            if !open {
                CommunityView::Redirect
            } else {
                CommunityView::Show { owner: false }
            }
        },
    }
}

/// What a visitor of a node's graph within a community gets: an open community's graph
/// is shown to all, a closed one's only to its owner; everyone else is refused.
pub fn community_node_graph_view(open: bool, owner_id: i32, viewer: Option<i32>) -> (v: CommunityView)
    ensures
        v == (match viewer {
            Some(u) => if open || owner_id == u { CommunityView::Show { owner: owner_id == u } } else { CommunityView::NotAuthorized },
            None => if open { CommunityView::Show { owner: false } } else { CommunityView::NotAuthorized },
        }),
{
    match viewer {
        Some(u) => {
            let owner = owner_id == u;
            if !open && !owner {
                CommunityView::NotAuthorized
            } else {
                CommunityView::Show { owner }
            }
        },
        None => {
            if !open {
                CommunityView::NotAuthorized
            } else {
                CommunityView::Show { owner: false }
            }
        },
    }
}

/// The account identifier that stands for a visitor whose account is not found.
pub open spec fn unknown_viewer() -> i32 {
    9999
}

/// Whether the full graph of a community is shown to `viewer` (the identifier of the
/// signed-in account, if it is found): an open community's to all, a closed one's to
/// its owner, where a visitor without a found account counts as account 9999.
pub fn full_community_graph_visible(open: bool, owner_id: i32, viewer: Option<i32>) -> (r: bool)
    ensures
        r == (open || owner_id == (match viewer {
            Some(u) => u,
            None => unknown_viewer(),
        })),
{
    let id = match viewer {
        Some(u) => u,
        None => 9999,
    };
    open || id == owner_id
}

} // verus!
