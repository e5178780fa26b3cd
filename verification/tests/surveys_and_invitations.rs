use intersections::community::{
    community_view, may_delete_community, may_list_communities, may_manage_community, CommunityView, NewCommunity,
    NewPerson,
};
use intersections::emails::extract_emails;
use intersections::forms::EmailsForm;
use intersections::seed::{base_node, choose_admin, menu_command, typed_registration, MenuCommand, Node};
use intersections::survey::{collect_statements, helper_text_index, related_codes, ExperienceAnswers, RawExperience, TranslateJob};
use intersections::translate::{translation_batch, translation_rows};

fn regex_emails(text: &str) -> Vec<String> {
    let re = regex::Regex::new(r"([a-zA-Z0-9+._-]+@[a-zA-Z0-9._-]+\.[a-zA-Z0-9_-]+)").unwrap();
    re.captures_iter(text).map(|m| m[0].to_owned()).collect()
}

fn strings(v: &[&str]) -> Vec<String> {
    v.iter().map(|s| s.to_string()).collect()
}

#[test]
fn emails_are_found_in_free_text() {
    assert_eq!(
        extract_emails("ann@x.org, bob.smith+tag@mail.example.co; nobody@home"),
        strings(&["ann@x.org", "bob.smith+tag@mail.example.co"])
    );
    assert!(extract_emails("no addresses here").is_empty());
    let form = EmailsForm { emails: "a@b.c d@e.f".to_string() };
    assert_eq!(form.addresses(), strings(&["a@b.c", "d@e.f"]));
}

#[test]
fn emails_are_found_as_the_pattern_finds_them() {
    let cases = [
        "ann@x.org",
        "a@b.c.d",
        "a@b..c",
        "a@b.c.",
        "x a@@b.c a@b.c@d.e",
        "first.last@sub.domain.com,second@x.y",
        "@b.c a@.c a@b. a@b.c",
        "weird+._-@a-b_c.d-e_f.g",
        "a@b.c-d.e!",
        "émile@x.fr",
        "ab@cd",
        "..@..",
        "u@v.w.x.y z@q.r",
    ];
    for c in cases {
        assert_eq!(extract_emails(c), regex_emails(c), "input {:?}", c);
    }
}

#[test]
fn experience_answers_are_read() {
    let a = ExperienceAnswers {
        name: " Gen X ".to_string(),
        domain: " Age".to_string(),
        response_1: "Tired ".to_string(),
        response_2: "".to_string(),
        response_3: " JOYFUL".to_string(),
    };
    let e = a.read().unwrap();
    assert_eq!(e.node_name, "gen x");
    assert_eq!(e.statements, strings(&["tired", "joyful"]));
    assert_eq!(e.domain, "age");
    assert_eq!(e.slug, "gen_x");
    let missing = ExperienceAnswers { response_1: "".to_string(), ..a };
    assert!(missing.read().is_none());
}

#[test]
fn statements_keep_whitespace_answers() {
    assert_eq!(collect_statements("A", " ", "C"), strings(&["a", "", "c"]));
    assert_eq!(collect_statements("", "", ""), Vec::<String>::new());
}

#[test]
fn related_codes_and_helper_texts() {
    assert_eq!(related_codes(" abcd-efg "), strings(&["abcd-efg"]));
    assert!(related_codes("").is_empty());
    assert_eq!(helper_text_index(1), 0);
    assert_eq!(helper_text_index(3), 2);
    assert_eq!(helper_text_index(8), 7);
    assert_eq!(helper_text_index(40), 7);
}

#[test]
fn raw_experiences_store_normalised_phrases() {
    let mut r = RawExperience::new(" He/Him ".to_string(), strings(&[" Seen ", "HEARD"]));
    assert_eq!(r.name_id, 0);
    assert!(r.phrase_ids.is_empty());
    assert_eq!(r.phrase_texts(), strings(&["hehim", "seen", "heard"]));
    r.set_phrases(5, vec![6, 7]);
    assert_eq!((r.name_id, r.phrase_ids.clone()), (5, vec![6, 7]));
}

#[test]
fn translation_batches_line_up_with_rows() {
    let mut a = RawExperience::new("father".to_string(), strings(&["tired", "", "joyful"]));
    a.set_phrases(1, vec![2, 3]);
    let mut b = RawExperience::new("mother".to_string(), strings(&["guilty"]));
    b.set_phrases(4, vec![5]);
    let es = vec![a, b];
    assert_eq!(translation_batch(&es), strings(&["father", "tired", "joyful", "mother", "guilty"]));
    assert_eq!(translation_rows(&es), vec![(1, 0), (2, 1), (3, 2), (4, 3), (5, 4)]);
}

#[test]
fn translation_rows_drift_after_an_empty_statement() {
    let mut a = RawExperience::new("n".to_string(), strings(&["", "s"]));
    a.set_phrases(1, vec![2, 3]);
    let es = vec![a];
    assert_eq!(translation_batch(&es), strings(&["n", "s"]));
    assert_eq!(translation_rows(&es), vec![(1, 0), (2, 1), (3, 2)]);
}

#[test]
fn new_communities_and_people_get_codes() {
    let c = NewCommunity::new(1, 2, 3, "o@x.org".to_string(), true, "demo".to_string(), 9, false);
    assert_eq!((c.tag, c.description, c.data_use_case, c.user_id), (1, 2, 3, 9));
    assert!(c.open && !c.test);
    assert_eq!(c.slug, "demo");
    assert_eq!(c.code.chars().count(), 31);
    let p = NewPerson::new(4);
    assert_eq!(p.community_id, 4);
    assert!(p.related_codes.is_empty());
    assert_eq!(p.code.replace('-', "").len(), 24);
}

#[test]
fn community_pages_are_shown_to_the_right_people() {
    assert!(matches!(community_view(true, 1, None), CommunityView::Show { owner: false }));
    assert!(matches!(community_view(false, 1, None), CommunityView::NotAuthorized));
    assert!(matches!(community_view(false, 1, Some(2)), CommunityView::Redirect));
    assert!(matches!(community_view(false, 1, Some(1)), CommunityView::Show { owner: true }));
    assert!(matches!(community_view(true, 1, Some(2)), CommunityView::Show { owner: false }));
}

#[test]
fn community_management_rights() {
    assert!(may_manage_community("admin", 1, 2));
    assert!(may_manage_community("user", 2, 2));
    assert!(!may_manage_community("user", 1, 2));
    assert!(may_delete_community("user", 1, 2, "global"));
    assert!(!may_delete_community("user", 1, 2, "demo"));
    assert!(may_list_communities("admin"));
    assert!(!may_list_communities("user"));
}

#[test]
fn admins_are_chosen_by_number() {
    let ids = vec![3, 7, 99999];
    assert_eq!(choose_admin(" 7\n", &ids), Some(7));
    assert_eq!(choose_admin("8", &ids), None);
    assert_eq!(choose_admin("seven", &ids), None);
    assert_eq!(choose_admin("99999", &ids), None);
}

#[test]
fn base_nodes_are_slugged() {
    let n = base_node(12, " African Canadian ", "race_culture");
    assert_eq!(n.node_name, 12);
    assert_eq!(n.domain_token, "race_culture");
    assert_eq!(n.slug, "african_canadian");
    let m = Node::new(1, "gen x".to_string(), "age".to_string());
    assert_eq!(m.slug, "gen_x");
}

#[test]
fn menu_answers_pick_commands() {
    use_menu();
}

fn use_menu() {
    assert!(matches!(menu_command("1\n"), MenuCommand::CreateTestAdmin));
    assert!(matches!(menu_command(" 2 "), MenuCommand::CreateProductionAdmin));
    assert!(matches!(menu_command("3"), MenuCommand::CreateUser));
    assert!(matches!(menu_command("4"), MenuCommand::PrepopulateTestData));
    assert!(matches!(menu_command("5"), MenuCommand::PrepopulateDemoData));
    assert!(matches!(menu_command("6"), MenuCommand::Quit));
    assert!(matches!(menu_command("7"), MenuCommand::Unrecognized));
    assert!(matches!(menu_command("quit"), MenuCommand::NotANumber));
    let r = typed_registration(" admin\n", " Admin@Email.com\n", " ChumbaWumba11\n", "admin");
    assert_eq!((r.user_name.as_str(), r.email.as_str(), r.password.as_str(), r.role.as_str()), ("admin", "admin@email.com", "ChumbaWumba11", "admin"));
    assert!(r.validated);
}

#[test]
fn translate_jobs_copy_the_experience() {
    let mut r = RawExperience::new("mother".to_string(), strings(&["tired"]));
    r.set_phrases(3, vec![4]);
    let job = TranslateJob::new(&r, "fr");
    assert_eq!(job.lang, "fr");
    assert_eq!(job.experience.node_name, "mother");
    assert_eq!(job.experience.name_id, 3);
    assert_eq!(job.experience.statements, strings(&["tired"]));
    assert_eq!(job.experience.phrase_ids, vec![4]);
}
