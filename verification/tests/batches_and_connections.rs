use intersections::experience::{group_by_node_except, AggregateLens, ExperienceRecord};
use intersections::community::{community_node_graph_view, community_node_page_view, full_community_graph_visible, CommunityView};
use intersections::forms::may_see_verification;
use intersections::graph::{order_by_count, CytoGraph, GEdge, GNode, NodeRecord, PersonRecord};
use intersections::links::{connections_by_person, walk_connections};
use intersections::survey::RawExperience;
use intersections::translate::{dotted_translation_batch, fixed_rows, joined_translation_input, split_translation, translated_pairs};

fn strings(v: &[&str]) -> Vec<String> {
    v.iter().map(|s| s.to_string()).collect()
}

fn lens(person_id: i32, node_id: i32, name: &str, domain: &str) -> ExperienceRecord {
    ExperienceRecord {
        id: node_id,
        person_id,
        node_id,
        importance: 0,
        name_id: 0,
        node_name: name.to_string(),
        node_domain: domain.to_string(),
        statements: vec![],
        statement_texts: strings(&["seen"]),
        slug: String::new(),
    }
}

#[test]
fn one_piece_input_joins_statements() {
    let raw = RawExperience::new("mother".to_string(), strings(&["tired", "guilty"]));
    assert_eq!(joined_translation_input(&raw), "mothertired.\nguilty.\n");
}

#[test]
fn splitting_follows_str_split() {
    for text in ["a.\nb", "a.\n", "", ".\n.\n", "a..\nb", "no separator", "x.\n\ny.\n", "..\n."] {
        let expected: Vec<String> = text.split(".\n").map(|s| s.to_string()).collect();
        assert_eq!(split_translation(text), expected, "input {:?}", text);
    }
}

#[test]
fn split_of_terminated_statements_gives_them_back() {
    assert_eq!(split_translation("tired.\nguilty.\n"), strings(&["tired", "guilty", ""]));
}

#[test]
fn translated_pairs_follow_the_pieces() {
    let raw = RawExperience::new("Mother".to_string(), strings(&["Tired", "He/Him"]));
    let input = joined_translation_input(&raw);
    let pairs = translated_pairs(&input, "Mère fatiguée.\nIl/Lui.\n");
    assert_eq!(
        pairs,
        vec![
            ("mothertired".to_string(), "mère fatiguée".to_string()),
            ("hehim".to_string(), "illui".to_string()),
            ("".to_string(), "".to_string()),
        ]
    );
    assert_eq!(translated_pairs("a.\nb", "x"), vec![("a".to_string(), "x".to_string())]);
}

#[test]
fn other_nodes_leave_out_the_page_node() {
    let es = vec![lens(1, 5, "a", "age"), lens(2, 3, "b", "age"), lens(1, 5, "a", "age"), lens(3, 9, "c", "age")];
    assert_eq!(group_by_node_except(&es, 5), vec![(3, vec![1]), (9, vec![3])]);
    assert_eq!(group_by_node_except(&es, 4), vec![(3, vec![1]), (5, vec![0, 2]), (9, vec![3])]);
}

#[test]
fn connections_gather_each_persons_nodes() {
    let records = vec![
        (2, "b".to_string()),
        (1, "a".to_string()),
        (2, "c".to_string()),
        (3, "d".to_string()),
    ];
    let all = connections_by_person(&records, &None);
    assert_eq!(all.len(), 3);
    assert_eq!(all[&2], strings(&["b", "c"]));
    assert_eq!(all[&1], strings(&["a"]));
    assert_eq!(all[&3], strings(&["d"]));
    let members = connections_by_person(&records, &Some(vec![3, 2]));
    assert_eq!(members.len(), 2);
    assert!(!members.contains_key(&1));
    let mut walked = walk_connections(&members);
    walked.sort();
    assert_eq!(walked, vec![(2, strings(&["b", "c"])), (3, strings(&["d"]))]);
}

#[test]
fn lens_graph_nodes_and_edges() {
    let p = CytoGraph::add_person(&PersonRecord { id: 3, date_created: "d".to_string() });
    assert_eq!(p.id, "P-3");
    let n = CytoGraph::add_node(&NodeRecord { node_name: " x ".to_string(), domain_token: "person".to_string(), slug: "x".to_string() });
    assert_eq!(n.id, " x ");
    assert_eq!((n.color.as_str(), n.shape.as_str()), ("green", "rectangle"));
    assert_eq!(n.href, "/node/ x ");
    let l = lens(4, 1, " gen x ", "age");
    let e = CytoGraph::add_lens_edge(&l);
    assert_eq!((e.id.as_str(), e.source.as_str(), e.target.as_str()), ("P4- gen x ", "P-4", " gen x "));
    let g = GNode::from_lens(&l, &Some("c".to_string()));
    assert_eq!(g.id, "gen x");
    assert_eq!((g.color.as_str(), g.shape.as_str()), ("blue", "triangle"));
    assert_eq!(g.href, "/node/c/gen x");
    let e = GEdge::from_lens(&l);
    assert_eq!(e.id, "P4-gen x");
}

#[test]
fn count_order_is_the_stable_sort() {
    let counts = vec![2, 5, 2, 7, 5, 1, 2];
    let mut expected: Vec<usize> = (0..counts.len()).collect();
    expected.sort_by(|a, b| counts[*b].cmp(&counts[*a]));
    assert_eq!(order_by_count(&counts), expected);
}

#[test]
fn verification_page_access() {
    assert!(may_see_verification("ann", "user"));
    assert!(may_see_verification("", "admin"));
    assert!(!may_see_verification("", "user"));
}

#[test]
fn aggregate_lens_counts_all_statements() {
    let mut a = lens(1, 2, "mother", "relationship");
    a.statement_texts = strings(&["tired", "guilty"]);
    let mut b = lens(2, 2, "mother", "relationship");
    b.statement_texts = strings(&["tired"]);
    let agg = AggregateLens::from(&vec![a, b], 0.5f32.to_bits());
    assert_eq!(f32::from_bits(agg.mean_inclusivity_bits), 0.5);
    assert_eq!(agg.name, "mother");
    assert_eq!(agg.domain, "relationship");
    assert_eq!(agg.count, 2);
    assert_eq!(agg.frequency_distribution, vec![("tired".to_string(), 2), ("guilty".to_string(), 1)]);
}

#[test]
fn lens_forms_keep_statements_as_given() {
    use_lens_helpers();
}

fn use_lens_helpers() {
    let v = intersections::survey::lens_statements(&" A ".to_string(), &String::new(), &"b".to_string());
    assert_eq!(v, strings(&[" A ", "b"]));
    let nodes = vec![(4, "x".to_string()), (7, "y".to_string()), (9, "y".to_string())];
    assert_eq!(intersections::survey::find_node_id(&nodes, "y"), Some(7));
    assert_eq!(intersections::survey::find_node_id(&nodes, "z"), None);
}

#[test]
fn demonstration_batches_have_four_rows_each() {
    let a = RawExperience::new("father".to_string(), strings(&["tired", "not doing enough", "joyful"]));
    let b = RawExperience::new("gen x".to_string(), strings(&["experienced", "overlooked", "depended upon"]));
    let batch = dotted_translation_batch(&vec![a, b]);
    assert_eq!(
        batch,
        strings(&["father.\n", "tired", "not doing enough", "joyful", "gen x.\n", "experienced", "overlooked", "depended upon"])
    );
    let rows = fixed_rows(2);
    assert_eq!(rows.len(), 8);
    assert_eq!(rows[0], (0, 0, None));
    assert_eq!(rows[3], (0, 3, Some(2)));
    assert_eq!(rows[4], (1, 4, None));
    assert_eq!(rows[6], (1, 6, Some(1)));
}

#[test]
fn node_graph_edges_depend_only_on_connections() {
    use_edges_law();
}

fn use_edges_law() {
    let conns = vec![(1, strings(&["a", "b", "c"])), (2, strings(&["c", "a"]))];
    let agg = |name: &str, count: u32| intersections::experience::AggregateExperience {
        name: name.to_string(),
        domain: "age".to_string(),
        count,
        mean_inclusivity_bits: 0,
        mean_importance_bits: 0,
        frequency_distribution: vec![],
        slug: name.to_string(),
    };
    let (g1, v1, _) = intersections::graph::generate_node_cyto_graph(&vec![agg("a", 1)], &conns, &None);
    let (g2, v2, _) =
        intersections::graph::generate_node_cyto_graph(&vec![agg("x", 3), agg("y", 2)], &conns, &Some("c1".to_string()));
    assert_eq!(v1, v2);
    let e1: Vec<(String, String, String)> = g1.edges.iter().map(|e| (e.data.id.clone(), e.data.source.clone(), e.data.target.clone())).collect();
    let e2: Vec<(String, String, String)> = g2.edges.iter().map(|e| (e.data.id.clone(), e.data.source.clone(), e.data.target.clone())).collect();
    assert_eq!(e1, e2);
    assert_eq!(v1, vec![2, 4, 2]);
}

#[test]
fn community_node_pages_and_graphs_are_guarded() {
    assert!(matches!(community_node_page_view(false, 1, None), CommunityView::Redirect));
    assert!(matches!(community_node_page_view(false, 1, Some(2)), CommunityView::Redirect));
    assert!(matches!(community_node_page_view(false, 1, Some(1)), CommunityView::Show { owner: true }));
    assert!(matches!(community_node_page_view(true, 1, None), CommunityView::Show { owner: false }));
    assert!(matches!(community_node_graph_view(false, 1, None), CommunityView::NotAuthorized));
    assert!(matches!(community_node_graph_view(false, 1, Some(2)), CommunityView::NotAuthorized));
    assert!(matches!(community_node_graph_view(true, 1, Some(2)), CommunityView::Show { owner: false }));
    assert!(full_community_graph_visible(true, 1, None));
    assert!(!full_community_graph_visible(false, 1, None));
    assert!(full_community_graph_visible(false, 9999, None));
    assert!(full_community_graph_visible(false, 4, Some(4)));
    assert!(!full_community_graph_visible(false, 4, Some(5)));
}
