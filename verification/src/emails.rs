//! Finding email addresses in free text, as invitations are addressed: the matches of
//! the address pattern `[a-zA-Z0-9+._-]+@[a-zA-Z0-9._-]+\.[a-zA-Z0-9_-]+`, found by the
//! regex crate.

use vstd::prelude::*;

use crate::codes::alphanumeric;
use crate::forms::EmailsForm;

verus! {

/// Whether `c` belongs to the character class `kind`: the part before the `@` (0),
/// the host with its dots (1), or the last label after the final dot (2).
pub open spec fn in_class(kind: int, c: char) -> bool {
    if kind == 0 {
        alphanumeric(c) || c == '+' || c == '.' || c == '_' || c == '-'
    } else if kind == 1 {
        alphanumeric(c) || c == '.' || c == '_' || c == '-'
    } else {
        alphanumeric(c) || c == '_' || c == '-'
    }
}

/// Whether `m` is an address whose `@` is at `at` and whose last dot is at `d`: one or
/// more local characters, the `@`, one or more host characters, the dot, and one or
/// more label characters.
pub open spec fn address_split_at(m: Seq<char>, at: int, d: int) -> bool {
    &&& 0 < at
    &&& at + 1 < d
    &&& d + 1 < m.len()
    &&& m[at] == '@'
    &&& m[d] == '.'
    &&& forall|j: int| 0 <= j < at ==> in_class(0, #[trigger] m[j])
    &&& forall|j: int| at < j < d ==> in_class(1, #[trigger] m[j])
    &&& forall|j: int| d < j < m.len() ==> in_class(2, #[trigger] m[j])
}

/// Whether `m` has the shape of an address: it is in the language of the pattern.
pub open spec fn is_address(m: Seq<char>) -> bool {
    exists|at: int, d: int| #[trigger] address_split_at(m, at, d)
}

/// The texts of a list of strings.
pub open spec fn address_texts(v: Seq<String>) -> Seq<Seq<char>> {
    v.map_values(|s: String| s@)
}

/// Whether `m` stands in `t` at position `i`.
pub open spec fn occurs_at(m: Seq<char>, t: Seq<char>, i: int) -> bool {
    0 <= i && i + m.len() <= t.len() && t.subrange(i, i + m.len()) == m
}

/// Whether the texts `ms` stand in `t` one after another, none overlapping the next.
pub open spec fn found_in_order(ms: Seq<Seq<char>>, t: Seq<char>) -> bool {
    exists|pos: Seq<int>|
        {
            &&& pos.len() == ms.len()
            &&& forall|k: int| 0 <= k < ms.len() ==> occurs_at(ms[k], t, #[trigger] pos[k])
            &&& forall|k: int| 0 <= k < ms.len() - 1 ==> #[trigger] pos[k] + ms[k].len() <= pos[k + 1]
        }
}

/// Names the whole matches, in order, that the regex crate finds of the address
/// pattern in a text.
pub uninterp spec fn email_pattern_matches(text: Seq<char>) -> Seq<Seq<char>>;

/// The regex crate's `Regex::new` on the address pattern (a valid pattern, so the
/// compilation succeeds) and `captures_iter` over `text`, each capture's whole match:
/// the matches are named [`email_pattern_matches`]; each is in the pattern's language
/// and the matches stand in the text one after another without overlapping, as the
/// crate's documentation promises of successive matches. Which of the possible matches
/// are taken (leftmost first, each as long as the pattern's greedy repetitions make
/// it) is left unsaid.
#[verifier::external_body]
fn pattern_matches(text: &str) -> (r: Vec<String>)
    ensures
        address_texts(r@) == email_pattern_matches(text@),
        forall|k: int| 0 <= k < r.len() ==> is_address(#[trigger] r@[k]@),
        found_in_order(address_texts(r@), text@),
{
    let re = regex::Regex::new(r"([a-zA-Z0-9+._-]+@[a-zA-Z0-9._-]+\.[a-zA-Z0-9_-]+)").unwrap();
    re.captures_iter(text).map(|m| m[0].to_owned()).collect()
}

/// The email addresses in `text`, in the order they are written; each has the shape of
/// an address and is written in the text, after the one before it.
pub fn extract_emails(text: &str) -> (r: Vec<String>)
    ensures
        address_texts(r@) == email_pattern_matches(text@),
        forall|k: int| 0 <= k < r.len() ==> is_address(#[trigger] r@[k]@),
        found_in_order(address_texts(r@), text@),
{
    pattern_matches(text)
}

impl EmailsForm {
    /// The addresses written in the form, in order.
    pub fn addresses(&self) -> (r: Vec<String>)
        ensures
            address_texts(r@) == email_pattern_matches(self.emails@),
            forall|k: int| 0 <= k < r.len() ==> is_address(#[trigger] r@[k]@),
            found_in_order(address_texts(r@), self.emails@),
    {
        extract_emails(self.emails.as_str())
    }
}

} // verus!
