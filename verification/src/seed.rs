//! Filling a fresh database: choosing the administrator of the demonstration
//! community and making the nodes offered to participants.

use vstd::prelude::*;

use crate::graph::{snake_case, snake_cased};
use crate::numbers::{parse_trimmed_i32, parsed_i32};
use crate::forms::Registration;
use crate::stats::{inclusivity_hundredths, integer_part, pow10};
use crate::survey::RawExperience;
use crate::text::{answer_form, lowercase, lowercased, normalize_answer, trim_str, trimmed};

verus! {

/// A node to be stored: its name phrase, domain and slug.
pub struct Node {
    pub node_name: i32,
    pub domain_token: String,
    pub slug: String,
}

impl Node {
    /// The node named by the phrase `node_name`, entered as `entry_name`, in `domain`;
    /// its slug is the snake case of the entry.
    pub fn new(node_name: i32, entry_name: String, domain: String) -> (n: Node)
        ensures
            n.node_name == node_name,
            n.domain_token@ == domain@,
            n.slug@ == snake_cased(entry_name@),
    {
        Node { node_name, domain_token: domain, slug: snake_case(entry_name.as_str()) }
    }
}

/// The node of an imported demonstration experience: named by the phrase `name_id`,
/// entered as the experience's `node_name`, in the trimmed `domain`.
pub fn demo_node(name_id: i32, node_name: &str, domain: &str) -> (n: Node)
    ensures
        n.node_name == name_id,
        n.domain_token@ == trimmed(domain@),
        n.slug@ == snake_cased(node_name@),
{
    Node::new(name_id, node_name.to_string(), trim_str(domain))
}

/// The node offered for the base entry `name` of `domain`, whose phrase is
/// `phrase_id`: entered as the lowercased, trimmed name.
pub fn base_node(phrase_id: i32, name: &str, domain: &str) -> (n: Node)
    ensures
        n.node_name == phrase_id,
        n.domain_token@ == domain@,
        n.slug@ == snake_cased(trimmed(lowercased(name@))),
{
    let entry = trim_str(lowercase(name).as_str());
    Node::new(phrase_id, entry, domain.to_string())
}

/// The base nodes offered to participants before anyone has named a node: each
/// entry's name and domain.
pub const BASE_NODES: [(&'static str, &'static str); 151] = [
    ("father", "relationship_caregiving"),
    ("manager", "organizational_role"),
    ("gen x", "age"),
    ("mother", "relationship_caregiving"),
    ("white", "race_culture"),
    ("black", "race_culture"),
    ("executive", "organizational_role"),
    ("innovator", "organizational_role"),
    ("caucasian", "race_culture"),
    ("african american", "race_culture"),
    ("african", "race_culture"),
    ("african canadian", "race_culture"),
    ("indigenous", "race_culture"),
    ("eastern european", "race_culture"),
    ("western european", "race_culture"),
    ("mixed", "race_culture"),
    ("latino", "race_culture"),
    ("hispanic", "race_culture"),
    ("metis", "race_culture"),
    ("inuit", "race_culture"),
    ("native", "race_culture"),
    ("asian", "race_culture"),
    ("japanese", "race_culture"),
    ("korean", "race_culture"),
    ("chinese", "race_culture"),
    ("cambodian", "race_culture"),
    ("arab", "race_culture"),
    ("jewish", "race_culture"),
    ("irish", "race_culture"),
    ("han chinese", "race_culture"),
    ("french", "race_culture"),
    ("italian", "race_culture"),
    ("russian", "race_culture"),
    ("dutch", "race_culture"),
    ("swedish", "race_culture"),
    ("greek", "race_culture"),
    ("carribean", "race_culture"),
    ("parent", "relationship_caregiving"),
    ("grandparent", "relationship_caregiving"),
    ("caregiver to parents", "relationship_caregiving"),
    ("caregiver to children", "relationship_caregiving"),
    ("caregiver to family", "relationship_caregiving"),
    ("volunteer", "other"),
    ("citizen", "other"),
    ("landed immigrant", "other"),
    ("work permit", "other"),
    ("study permit", "other"),
    ("undocumented", "other"),
    ("able-bodied", "ability_disability"),
    ("some physical disability", "ability_disability"),
    ("significant physical disability", "ability_disability"),
    ("vision impairment", "ability_disability"),
    ("hearing impairment", "ability_disability"),
    ("speech impairment", "ability_disability"),
    ("slim body type", "body_image"),
    ("average body type", "body_image"),
    ("large body type", "body_image"),
    ("property owner", "other"),
    ("renter", "other"),
    ("shelter user", "other"),
    ("homeless", "other"),
    ("neuro-typical", "mental_health"),
    ("some neuro-divergent", "mental_health"),
    ("significant neuro-divergent", "mental_health"),
    ("anxiety disorder", "mental_health"),
    ("mood disorder", "mental_health"),
    ("psychotic disorder", "mental_health"),
    ("eating disorder", "mental_health"),
    ("impulse control", "mental_health"),
    ("addiction disorder", "mental_health"),
    ("personality disorder", "mental_health"),
    ("obsessive-compulsive disorder", "mental_health"),
    ("post-traumatic stress disorder", "mental_health"),
    ("stress response syndrome", "mental_health"),
    ("dissociative disorder", "mental_health"),
    ("factitious disorder", "mental_health"),
    ("sexual or gender disorder", "mental_health"),
    ("somatic symptom disorder", "mental_health"),
    ("tic disorder", "mental_health"),
    ("struggling financial situation", "socio_economic"),
    ("comfortable financial situation", "socio_economic"),
    ("surplus financial situation", "socio_economic"),
    ("low socioeconomic upbringing", "socio_economic"),
    ("middle socioeconomic upbringing", "socio_economic"),
    ("upper socioeconomic upbringing", "socio_economic"),
    ("primary school education", "education"),
    ("high school education", "education"),
    ("trade school education", "education"),
    ("college education", "education"),
    ("university education", "education"),
    ("masters level education", "education"),
    ("doctorate level education", "education"),
    ("anglophone", "language"),
    ("francophone", "language"),
    ("unilingual", "language"),
    ("bilingual", "language"),
    ("non-native english speaker", "language"),
    ("non-native french speaker", "language"),
    ("cisgender", "gender"),
    ("he/him", "gender"),
    ("she/her", "gender"),
    ("they/them", "gender"),
    ("transgender", "gender"),
    ("transexual", "gender"),
    ("gender fluid", "gender"),
    ("non-binary", "gender"),
    ("genderqueer", "gender"),
    ("two spirit", "gender"),
    ("male", "gender"),
    ("female", "gender"),
    ("heterosexual", "sexuality"),
    ("homosexual", "sexuality"),
    ("lesbian", "sexuality"),
    ("gay", "sexuality"),
    ("bisexual", "sexuality"),
    ("pansexual", "sexuality"),
    ("bicurious", "sexuality"),
    ("questioning", "sexuality"),
    ("millenial", "person"),
    ("gen y", "age"),
    ("boomer", "age"),
    ("young", "age"),
    ("middle-aged", "age"),
    ("old", "age"),
    ("nearing retirement", "age"),
    ("analyst", "organizational_role"),
    ("program officer", "organizational_role"),
    ("operations", "organizational_role"),
    ("communications", "organizational_role"),
    ("law enforcement", "organizational_role"),
    ("correctional officer", "organizational_role"),
    ("marketing professional", "organizational_role"),
    ("scientist", "organizational_role"),
    ("researcher", "organizational_role"),
    ("security", "organizational_role"),
    ("computer scientist", "organizational_role"),
    ("lawyer", "organizational_role"),
    ("auditor", "organizational_role"),
    ("procurement officer", "organizational_role"),
    ("human resources officer", "organizational_role"),
    ("executive", "organizational_role"),
    ("finance officer", "organizational_role"),
    ("supervisor", "organizational_role"),
    ("psychologist", "organizational_role"),
    ("teacher", "organizational_role"),
    ("educator", "organizational_role"),
    ("developer", "organizational_role"),
    ("leader", "organizational_role"),
    ("networker", "organizational_role"),
    ("entrepreneur", "organizational_role"),
    ("policy analyst", "organizational_role"),
];

/// The demonstration experiences: node name, domain, person, node, three statements, and
/// the inclusivity score in hundredths as it is written.
pub const BASE_EXPERIENCES: [(&'static str, &'static str, i32, i32, &'static str, &'static str, &'static str, i64); 10] = [
    ("father", "relationship_caregiving", 1, 1, "tired", "not doing enough", "joyful", -18),
    ("manager", "organizational_role", 1, 2, "pulled many directions", "influential", "stressed", -25),
    ("gen x", "age", 1, 3, "experienced", "overlooked", "depended upon", 23),
    ("mother", "relationship_caregiving", 2, 4, "tired", "guilty", "excluded", -45),
    ("white", "race_culture", 2, 5, "normal", "just a person", "listened to", 30),
    ("black", "race_culture", 3, 6, "ignored", "suffer microagressions", "proud", -30),
    ("mother", "relationship_caregiving", 3, 4, "balanced", "responsible", "capable", 29),
    ("executive", "organizational_role", 3, 7, "powerful", "overwhelmed", "stifled", -10),
    ("innovator", "organizational_role", 3, 8, "respected", "sidelined", "not recognized by system", 20),
    ("white", "race_culture", 4, 5, "listened to", "persecuted by diversity iniatives", "comfortable", 9),
];

/// The nodes made of the base entries, the `i`-th named by the phrase `phrase_ids[i]`
/// (the phrase stored for its name).
pub fn base_nodes(phrase_ids: &Vec<i32>) -> (v: Vec<Node>)
    requires
        phrase_ids.len() == BASE_NODES@.len(),
    ensures
        v.len() == BASE_NODES@.len(),
        forall|i: int| 0 <= i < v.len() ==> (#[trigger] v@[i]).node_name == phrase_ids@[i]
            && v@[i].domain_token@ == BASE_NODES@[i].1@
            && v@[i].slug@ == snake_cased(trimmed(lowercased(BASE_NODES@[i].0@))),
{
    let mut v: Vec<Node> = Vec::new();
    let mut i: usize = 0;
    while i < BASE_NODES.len()
        invariant
            i <= BASE_NODES@.len(),
            phrase_ids.len() == BASE_NODES@.len(),
            v.len() == i,
            forall|j: int| 0 <= j < i ==> (#[trigger] v@[j]).node_name == phrase_ids@[j]
                && v@[j].domain_token@ == BASE_NODES@[j].1@
                && v@[j].slug@ == snake_cased(trimmed(lowercased(BASE_NODES@[j].0@))),
        decreases BASE_NODES@.len() - i,
    {
        let (name, domain) = BASE_NODES[i];
        v.push(base_node(phrase_ids[i], name, domain));
        i = i + 1;
    }
    v
}

/// The demonstration experiences as raw text, ready for their phrases to be made: each
/// one's node name and its three statements.
pub fn base_raw_experiences() -> (v: Vec<RawExperience>)
    ensures
        v.len() == BASE_EXPERIENCES@.len(),
        forall|i: int| 0 <= i < v.len() ==> {
            let e = BASE_EXPERIENCES@[i];
            &&& (#[trigger] v@[i]).node_name@ == e.0@
            &&& v@[i].statements@.len() == 3
            &&& v@[i].statements@[0]@ == e.4@
            &&& v@[i].statements@[1]@ == e.5@
            &&& v@[i].statements@[2]@ == e.6@
            &&& v@[i].name_id == 0
            &&& v@[i].phrase_ids@.len() == 0
        },
{
    let mut v: Vec<RawExperience> = Vec::new();
    let mut i: usize = 0;
    while i < BASE_EXPERIENCES.len()
        invariant
            i <= BASE_EXPERIENCES@.len(),
            v.len() == i,
            forall|j: int| 0 <= j < i ==> {
                let e = BASE_EXPERIENCES@[j];
                &&& (#[trigger] v@[j]).node_name@ == e.0@
                &&& v@[j].statements@.len() == 3
                &&& v@[j].statements@[0]@ == e.4@
                &&& v@[j].statements@[1]@ == e.5@
                &&& v@[j].statements@[2]@ == e.6@
                &&& v@[j].name_id == 0
                &&& v@[j].phrase_ids@.len() == 0
            },
        decreases BASE_EXPERIENCES@.len() - i,
    {
        let e = BASE_EXPERIENCES[i];
        let mut statements: Vec<String> = Vec::new();
        statements.push(e.4.to_string());
        statements.push(e.5.to_string());
        statements.push(e.6.to_string());
        v.push(RawExperience::new(e.0.to_string(), statements));
        i = i + 1;
    }
    v
}

/// The inclusivity score, in hundredths, that the `i`-th demonstration experience is
/// stored with: the integer part of its written score taken as hundredths, which is 0
/// for every written score between -1 and 1.
pub fn base_experience_inclusivity(i: usize) -> (h: i64)
    requires
        i < BASE_EXPERIENCES@.len(),
    ensures
        h == integer_part(BASE_EXPERIENCES@[i as int].7 as int, 2),
{
    let written = BASE_EXPERIENCES[i].7;
    match inclusivity_hundredths(written, 2) {
        Some(h) => h,
        None => {
            proof {
                assert(pow10(2) == 100) by {
                    assert(pow10(0) == 1);
                    assert(pow10(1) == 10);
                }
                assert(written >= 0 ==> integer_part(written as int, 2) == written / 100);
            }
            0
        },
    }
}

/// The identifier that is never an administrator's: choosing it ends the set-up.
pub open spec fn no_admin() -> i32 {
    99999
}

/// The administrator chosen by the typed `response` among `admin_ids`: the trimmed
/// response read as a number, if it is one of them; never the reserved identifier.
pub fn choose_admin(response: &str, admin_ids: &Vec<i32>) -> (r: Option<i32>)
    ensures
        r == (match parsed_i32(trimmed(response@)) {
            Some(i) => if admin_ids@.contains(i) && i != no_admin() { Some(i) } else { None },
            None => None,
        }),
{
    match parse_trimmed_i32(response) {
        Some(i) => {
            let mut k: usize = 0;
            while k < admin_ids.len()
                invariant
                    k <= admin_ids.len(),
                    parsed_i32(trimmed(response@)) == Some(i),
                    forall|j: int| 0 <= j < k ==> admin_ids@[j] != i,
                decreases admin_ids.len() - k,
            {
                if admin_ids[k] == i {
                    assert(admin_ids@.contains(i));
                    if i == 99999 {
                        return None;
                    }
                    return Some(i);
                }
                k = k + 1;
            }
            None
        },
        None => None,
    }
}

/// What the administration menu does for a typed answer.
pub enum MenuCommand {
    CreateTestAdmin,
    CreateProductionAdmin,
    CreateUser,
    PrepopulateTestData,
    PrepopulateDemoData,
    Quit,
    /// A number that is not an option: ask again.
    Unrecognized,
    /// Not a number: ask again.
    NotANumber,
}

/// The menu command for the typed `response`: the trimmed response read as a number,
/// options 1 to 6.
pub fn menu_command(response: &str) -> (c: MenuCommand)
    ensures
        c == (match parsed_i32(trimmed(response@)) {
            Some(i) => if i == 1 {
                MenuCommand::CreateTestAdmin
            } else if i == 2 {
                MenuCommand::CreateProductionAdmin
            } else if i == 3 {
                MenuCommand::CreateUser
            } else if i == 4 {
                MenuCommand::PrepopulateTestData
            } else if i == 5 {
                MenuCommand::PrepopulateDemoData
            } else if i == 6 {
                MenuCommand::Quit
            } else {
                MenuCommand::Unrecognized
            },
            None => MenuCommand::NotANumber,
        }),
{
    match parse_trimmed_i32(response) {
        Some(i) => {
            if i == 1 {
                MenuCommand::CreateTestAdmin
            } else if i == 2 {
                MenuCommand::CreateProductionAdmin
            } else if i == 3 {
                MenuCommand::CreateUser
            } else if i == 4 {
                MenuCommand::PrepopulateTestData
            } else if i == 5 {
                MenuCommand::PrepopulateDemoData
            } else if i == 6 {
                MenuCommand::Quit
            } else {
                MenuCommand::Unrecognized
            }
        },
        None => MenuCommand::NotANumber,
    }
}

/// The account that the administration tool creates from typed lines: user name and
/// password trimmed, email lowercased and trimmed, with `role`, already validated.
pub fn typed_registration(user_name: &str, email: &str, password: &str, role: &str) -> (r: Registration)
    ensures
        r.user_name@ == trimmed(user_name@),
        r.email@ == answer_form(email@),
        r.password@ == trimmed(password@),
        r.role@ == role@,
        r.validated,
{
    Registration {
        user_name: trim_str(user_name),
        email: normalize_answer(email),
        password: trim_str(password),
        role: role.to_string(),
        validated: true,
    }
}

} // verus!
