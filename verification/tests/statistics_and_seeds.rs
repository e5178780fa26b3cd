use intersections::accounts::{may_delete_account, may_open_account_deletion};
use intersections::community::{may_edit_community, NewCommunity, NewPerson};
use intersections::emails::extract_emails;
use intersections::seed::{base_experience_inclusivity, base_nodes, base_raw_experiences, BASE_EXPERIENCES, BASE_NODES};
use intersections::stats::{answer_fits, inclusivity_hundredths, CommunityStats};
use intersections::survey::RawExperience;

fn strings(v: &[&str]) -> Vec<String> {
    v.iter().map(|s| s.to_string()).collect()
}

fn scores(s: &CommunityStats) -> Vec<(i32, i64)> {
    s.inclusivity_map.iter().map(|(k, v)| (*k, *v)).collect()
}

#[test]
fn only_owners_edit_communities() {
    assert!(may_edit_community(7, 7));
    assert!(!may_edit_community(7, 8));
}

#[test]
fn new_communities_and_people_are_dated_and_empty() {
    let when = chrono::NaiveDate::from_ymd_opt(2020, 6, 6).unwrap().and_hms_opt(3, 3, 3).unwrap();
    let c = NewCommunity::new(1, 2, 3, "o@x.org".to_string(), false, "demo".to_string(), 9, true);
    assert_eq!(c.date_created, when);
    assert_eq!(c.data.members, 0);
    assert_eq!(c.data.experiences, 0);
    assert!(c.data.inclusivity_map.is_empty());
    assert!(c.data.tags.is_empty());
    assert_eq!(c.data.invitations, 0);
    let p = NewPerson::new(4);
    assert_eq!(p.date_created, when);
}

#[test]
fn recording_experiences_updates_the_statistics() {
    let mut s = CommunityStats::new();
    s.record_experience(10, -180, true);
    s.record_experience(11, 250, false);
    s.record_experience(3, 90, true);
    assert_eq!(s.members, 2);
    assert_eq!(s.experiences, 3);
    assert_eq!(scores(&s), vec![(3, 90), (10, -180), (11, 250)]);
    s.record_experience(10, 40, false);
    assert_eq!(s.experiences, 4);
    assert_eq!(scores(&s), vec![(3, 90), (10, 40), (11, 250)]);
}

#[test]
fn removing_a_person_takes_back_their_experiences() {
    let mut s = CommunityStats::new();
    s.record_experience(1, 100, true);
    s.record_experience(2, 200, true);
    s.record_experience(3, 300, false);
    s.remove_person(&vec![2, 3]);
    assert_eq!(s.members, 1);
    assert_eq!(s.experiences, 1);
    assert_eq!(scores(&s), vec![(1, 100)]);
}

#[test]
fn record_then_remove_gives_the_statistics_back() {
    let mut s = CommunityStats::new();
    s.record_experience(5, 10, true);
    s.tags.push("demo".to_string());
    s.invitations = 3;
    let before = (s.members, s.experiences, scores(&s));
    s.record_experience(8, -20, true);
    s.record_experience(9, 30, false);
    s.remove_person(&vec![8, 9]);
    assert_eq!((s.members, s.experiences, scores(&s)), before);
    assert_eq!(s.tags, vec!["demo".to_string()]);
    assert_eq!(s.invitations, 3);
}

#[test]
fn received_people_are_counted_and_scored() {
    let mut s = CommunityStats::new();
    s.record_experience(1, 100, true);
    s.receive_people(&vec![vec![(4, 400), (2, 200)], vec![], vec![(1, 150)]]);
    assert_eq!(s.members, 4);
    assert_eq!(s.experiences, 4);
    assert_eq!(scores(&s), vec![(1, 150), (2, 200), (4, 400)]);
}

#[test]
fn inclusivity_answers_become_hundredths() {
    assert_eq!(inclusivity_hundredths(42, 0), Some(42));
    assert_eq!(inclusivity_hundredths(427, 1), Some(42));
    assert_eq!(inclusivity_hundredths(-427, 1), Some(-42));
    assert_eq!(inclusivity_hundredths(-18, 2), Some(0));
    assert_eq!(inclusivity_hundredths(5, -2), Some(500));
    assert_eq!(inclusivity_hundredths(0, -40), Some(0));
    assert_eq!(inclusivity_hundredths(7, 30), Some(0));
    assert_eq!(inclusivity_hundredths(i64::MIN, 0), Some(i64::MIN));
    assert_eq!(inclusivity_hundredths(i64::MAX, -1), None);
    assert_eq!(inclusivity_hundredths(-1, -19), None);
}

#[test]
fn base_node_table_is_complete() {
    assert_eq!(BASE_NODES.len(), 151);
    assert_eq!(BASE_NODES[0], ("father", "relationship_caregiving"));
    assert_eq!(BASE_NODES[150], ("policy analyst", "organizational_role"));
    let ids: Vec<i32> = (0..151).collect();
    let nodes = base_nodes(&ids);
    assert_eq!(nodes.len(), 151);
    assert_eq!(nodes[2].node_name, 2);
    assert_eq!(nodes[2].slug, "gen_x");
    assert_eq!(nodes[2].domain_token, "age");
    assert_eq!(nodes[150].slug, "policy_analyst");
}

#[test]
fn demonstration_experiences_are_raw_text() {
    assert_eq!(BASE_EXPERIENCES.len(), 10);
    let v = base_raw_experiences();
    assert_eq!(v.len(), 10);
    assert_eq!(v[1].node_name, "manager");
    assert_eq!(v[1].statements, strings(&["pulled many directions", "influential", "stressed"]));
    assert_eq!(v[9].statements[1], "persecuted by diversity iniatives");
    assert_eq!(BASE_EXPERIENCES[0].7, -18);
    for i in 0..10 {
        assert_eq!(base_experience_inclusivity(i), 0);
    }
}

#[test]
fn demo_entries_are_normalised() {
    let r = RawExperience::from_demo_entry("  Gen X ", &strings(&[" tired ", "Proud"]));
    assert_eq!(r.node_name, "gen x");
    assert_eq!(r.statements, strings(&["tired", "Proud"]));
    assert_eq!(r.name_id, 0);
    assert!(r.phrase_ids.is_empty());
}

#[test]
fn found_emails_stand_in_the_text_in_order() {
    let text = "write to a@b.cd or to x.y@z.org, please";
    let found = extract_emails(text);
    assert_eq!(found, strings(&["a@b.cd", "x.y@z.org"]));
    let first = text.find(&found[0]).unwrap();
    let second = text[first + found[0].len()..].find(&found[1]).unwrap();
    assert!(second > 0);
}

#[test]
fn node_graph_of_a_connection_map() {
    use_node_graph_of_map();
}

fn use_node_graph_of_map() {
    let mut pc = std::collections::HashMap::new();
    pc.insert(1, strings(&["a", "b"]));
    let agg = intersections::experience::AggregateExperience {
        name: "a".to_string(),
        domain: "age".to_string(),
        count: 1,
        mean_inclusivity_bits: 0,
        mean_importance_bits: 0,
        frequency_distribution: vec![],
        slug: "a".to_string(),
    };
    let (g, visits, kept) = intersections::graph::node_cyto_graph_of_map(&vec![agg], &pc, &None).unwrap();
    assert_eq!(kept, vec![0]);
    assert_eq!(g.nodes.len(), 1);
    let ids: Vec<&str> = g.edges.iter().map(|e| e.data.id.as_str()).collect();
    assert_eq!(ids, vec!["a-b"]);
    assert_eq!(visits, vec![2]);
}

#[test]
fn account_deletion_rights() {
    assert!(may_open_account_deletion("admin", "bob", "ann"));
    assert!(may_open_account_deletion("user", "ann", "ann"));
    assert!(!may_open_account_deletion("user", "bob", "ann"));
    assert!(may_delete_account("admin"));
    assert!(!may_delete_account("user"));
}

#[test]
fn translated_rows_are_stored_by_language() {
    let mut a = RawExperience::new("mother".to_string(), strings(&["tired", "proud"]));
    a.set_phrases(1, vec![2, 3]);
    let mut b = RawExperience::new("father".to_string(), strings(&["busy"]));
    b.set_phrases(4, vec![5]);
    let es = vec![a, b];
    assert_eq!(
        intersections::translate::translation_row_languages(&es, "fr"),
        strings(&["en", "fr", "fr", "en", "fr"])
    );
    assert_eq!(
        intersections::translate::translation_row_languages(&es, "en"),
        strings(&["fr", "fr", "fr", "fr", "fr"])
    );
}

#[test]
fn survey_answers_are_recorded_as_stored() {
    let mut s = CommunityStats::new();
    assert!(answer_fits(42, 0));
    s.record_answer(7, 42, 0, true);
    s.record_answer(8, -187, 1, false);
    assert_eq!(s.members, 1);
    assert_eq!(s.experiences, 2);
    assert_eq!(scores(&s), vec![(7, 420), (8, -180)]);
    assert!(!answer_fits(i64::MAX, 0));
    assert!(!answer_fits(1, -19));
    assert!(answer_fits(-18, 2));
}

#[test]
fn phrases_are_added_after_those_recorded() {
    let mut r = RawExperience::new("mother".to_string(), strings(&["tired", "proud"]));
    r.set_phrases(1, vec![2]);
    r.set_phrases(5, vec![3]);
    assert_eq!(r.name_id, 5);
    assert_eq!(r.phrase_ids, vec![2, 3]);
}

#[test]
fn salts_spell_their_draws() {
    let s = intersections::codes::salt_from_draws(&vec![0, 25, 26, 51, 61, 62, 72]);
    assert_eq!(s, "AZaz9)~");
}

#[test]
fn demo_nodes_trim_their_domain() {
    let n = intersections::seed::demo_node(12, "gen x", " age ");
    assert_eq!(n.node_name, 12);
    assert_eq!(n.domain_token, "age");
    assert_eq!(n.slug, "gen_x");
}
