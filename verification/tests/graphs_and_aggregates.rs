use intersections::aggregate::{frequency_distribution, sorted_unique};
use intersections::experience::{group_by_node, statement_phrase_ids, AggregateExperience, ExperienceRecord};
use intersections::graph::{
    aggregates_equal, generate_cyto_graph, generate_node_cyto_graph, order_by_count, GEdge, GNode, NodeRecord, PersonRecord,
};
use intersections::links::node_links;

fn strings(v: &[&str]) -> Vec<String> {
    v.iter().map(|s| s.to_string()).collect()
}

fn record(id: i32, person_id: i32, node_id: i32, name: &str, domain: &str, statements: &[&str]) -> ExperienceRecord {
    ExperienceRecord {
        id,
        person_id,
        node_id,
        importance: 1,
        name_id: node_id * 10,
        node_name: name.to_string(),
        node_domain: domain.to_string(),
        statements: (0..statements.len() as i32).map(|k| id * 100 + k).collect(),
        statement_texts: strings(statements),
        slug: name.trim().to_lowercase().replace(' ', "_"),
    }
}

fn aggregate(name: &str, count: u32) -> AggregateExperience {
    AggregateExperience {
        name: name.to_string(),
        domain: "age".to_string(),
        count,
        mean_inclusivity_bits: 0.5f32.to_bits(),
        mean_importance_bits: 3.0f32.to_bits(),
        frequency_distribution: Vec::new(),
        slug: name.to_string(),
    }
}

#[test]
fn sorted_unique_sorts_and_dedups() {
    assert_eq!(sorted_unique(&vec![3, 1, 3, 2, 1]), vec![1, 2, 3]);
    assert_eq!(sorted_unique(&vec![]), Vec::<i32>::new());
    assert_eq!(sorted_unique(&vec![-5, 7, -5]), vec![-5, 7]);
}

#[test]
fn frequency_distribution_ranks_statements() {
    let r = frequency_distribution(&strings(&["tired", "joyful", "tired", "able", "joyful", "tired"]));
    assert_eq!(
        r,
        vec![("tired".to_string(), 3), ("joyful".to_string(), 2), ("able".to_string(), 1)]
    );
    let ties = frequency_distribution(&strings(&["b", "c", "a"]));
    assert_eq!(ties, vec![("a".to_string(), 1), ("b".to_string(), 1), ("c".to_string(), 1)]);
    assert!(frequency_distribution(&Vec::new()).is_empty());
}

#[test]
fn frequency_counts_add_up_to_the_statements() {
    let texts = strings(&["x", "y", "x", "z", "x", "y"]);
    let r = frequency_distribution(&texts);
    let total: u32 = r.iter().map(|e| e.1).sum();
    assert_eq!(total as usize, texts.len());
}

#[test]
fn experiences_group_by_node_in_order() {
    let es = vec![
        record(1, 1, 30, "mother", "relationship", &["tired"]),
        record(2, 2, 10, "father", "relationship", &["tired", "joyful"]),
        record(3, 3, 30, "mother", "relationship", &["capable"]),
    ];
    let groups = group_by_node(&es);
    assert_eq!(groups, vec![(10, vec![1]), (30, vec![0, 2])]);
    assert_eq!(statement_phrase_ids(&es), vec![100, 200, 201, 300]);
}

#[test]
fn aggregate_experience_counts_statements() {
    let es = vec![
        record(1, 1, 30, "Mother", "relationship", &["tired"]),
        record(3, 3, 30, "mother", "relationship", &["capable"]),
    ];
    let a = AggregateExperience::from(&es, &strings(&["tired", "capable", "tired"]), 0.25f32.to_bits(), 2.0f32.to_bits());
    assert_eq!(a.name, "Mother");
    assert_eq!(a.domain, "relationship");
    assert_eq!(a.slug, "mother");
    assert_eq!(a.count, 2);
    assert_eq!(
        a.frequency_distribution,
        vec![("tired".to_string(), 2), ("capable".to_string(), 1)]
    );
}

#[test]
fn person_nodes_link_to_their_graph() {
    let g = GNode::from_person(&PersonRecord { id: 12, date_created: "2020-06-06 03:03:03".to_string() });
    assert_eq!(g.id, "P-12");
    assert_eq!(g.node_type, "Person");
    assert_eq!(g.text, vec!["2020-06-06 03:03:03".to_string()]);
    assert_eq!(g.shape, "ellipse");
    assert_eq!(g.size, 25);
    assert_eq!(g.color, "orange");
    assert_eq!(g.href, "/person_network_graph/12");
}

#[test]
fn domain_nodes_are_coloured_by_domain() {
    let person_like = NodeRecord {
        node_name: " millenial ".to_string(),
        domain_token: "person".to_string(),
        slug: "millenial".to_string(),
    };
    let g = GNode::from_node(&person_like, &None);
    assert_eq!(g.id, "millenial");
    assert_eq!((g.color.as_str(), g.shape.as_str()), ("green", "ellipse"));
    assert_eq!(g.href, "/node/millenial");
    let other = NodeRecord { node_name: "gen x".to_string(), domain_token: "age".to_string(), slug: "gen_x".to_string() };
    let g = GNode::from_node(&other, &Some("demo".to_string()));
    assert_eq!((g.color.as_str(), g.shape.as_str()), ("blue", "rectangle"));
    assert_eq!(g.href, "/community_node/demo/gen_x");
    assert_eq!(g.text, vec!["age".to_string()]);
}

#[test]
fn experience_nodes_and_edges() {
    let l = record(5, 7, 2, " Gen X ", "age", &["overlooked", "experienced"]);
    let n = GNode::from_experience(&l, &Some("c1".to_string()));
    assert_eq!(n.id, "Gen X");
    assert_eq!(n.node_type, "Node");
    assert_eq!(n.href, "/community_node/c1/gen_x");
    let e = GEdge::from_experience(&l);
    assert_eq!(e.id, "P7-Gen X");
    assert_eq!(e.source, "P-7");
    assert_eq!(e.target, "Gen X");
    assert_eq!(e.text, strings(&["overlooked", "experienced"]));
    let a = GNode::from_agg_experience(&aggregate("Gen X", 3), &None);
    assert_eq!(a.href, "/node/gen_x");
}

#[test]
fn cyto_graph_lists_people_then_nodes() {
    let people = vec![
        PersonRecord { id: 1, date_created: "d1".to_string() },
        PersonRecord { id: 2, date_created: "d2".to_string() },
    ];
    let nodes = vec![NodeRecord { node_name: "white".to_string(), domain_token: "race_culture".to_string(), slug: "white".to_string() }];
    let es = vec![record(9, 2, 1, "white", "race_culture", &["normal"])];
    let g = generate_cyto_graph(&people, &nodes, &es, &None);
    let ids: Vec<&str> = g.nodes.iter().map(|n| n.data.id.as_str()).collect();
    assert_eq!(ids, vec!["P-1", "P-2", "white"]);
    assert_eq!(g.edges.len(), 1);
    assert_eq!(g.edges[0].data.id, "P2-white");
}

#[test]
fn order_by_count_is_stable() {
    assert_eq!(order_by_count(&vec![1, 3, 2, 3, 1]), vec![1, 3, 2, 0, 4]);
    assert_eq!(order_by_count(&vec![]), Vec::<usize>::new());
}

#[test]
fn node_links_count_each_side() {
    let conns = vec![(1, strings(&["a", "b"])), (2, strings(&["b ", "a"]))];
    let links = node_links(&conns);
    assert_eq!(links.len(), 1);
    assert_eq!(links[0].id, "a-b");
    assert_eq!(links[0].source, "a");
    assert_eq!(links[0].target, "b");
    assert_eq!(links[0].visits, 4);
    assert_eq!(links[0].text, vec![String::new()]);
}

#[test]
fn node_links_come_in_identifier_order() {
    let conns = vec![(1, strings(&["c", "a", "b"]))];
    let links = node_links(&conns);
    let ids: Vec<&str> = links.iter().map(|l| l.id.as_str()).collect();
    assert_eq!(ids, vec!["a-b", "c-a", "c-b"]);
    assert!(links.iter().all(|l| l.visits == 2));
}

#[test]
fn node_links_merge_colliding_identifiers() {
    let conns = vec![(1, strings(&["x-y", "z"])), (2, strings(&["x", "y-z"]))];
    let links = node_links(&conns);
    assert_eq!(links.len(), 1);
    assert_eq!(links[0].id, "x-y-z");
    assert_eq!(links[0].visits, 4);
}

#[test]
fn node_graph_ranks_nodes_and_links_them() {
    let aggregates = vec![aggregate("a", 1), aggregate("b", 2), aggregate("c", 1)];
    let conns = vec![(1, strings(&["a", "b"])), (2, strings(&["a", "c"]))];
    let (g, visits, kept) = generate_node_cyto_graph(&aggregates, &conns, &None);
    assert_eq!(kept, vec![1, 0, 2]);
    let ids: Vec<&str> = g.nodes.iter().map(|n| n.data.id.as_str()).collect();
    assert_eq!(ids, vec!["b", "a", "c"]);
    let edges: Vec<&str> = g.edges.iter().map(|e| e.data.id.as_str()).collect();
    assert_eq!(edges, vec!["a-b", "a-c"]);
    assert_eq!(visits, vec![2, 2]);
}

#[test]
fn dashed_names_can_make_reverse_identifiers() {
    let conns = vec![(1, strings(&["p", "q-r"])), (2, strings(&["q", "r-p"]))];
    let links = node_links(&conns);
    let ids: Vec<&str> = links.iter().map(|l| l.id.as_str()).collect();
    assert_eq!(ids, vec!["p-q-r", "q-r-p"]);
    assert_eq!((links[0].source.as_str(), links[0].target.as_str()), ("p", "q-r"));
    assert_eq!((links[1].source.as_str(), links[1].target.as_str()), ("q", "r-p"));
}

#[test]
fn node_graph_drops_repeated_aggregates() {
    let mut other = aggregate("a", 1);
    other.mean_inclusivity_bits = 0.75f32.to_bits();
    let aggregates = vec![aggregate("a", 1), aggregate("b", 2), aggregate("a", 1), other, aggregate("b", 2)];
    let (g, _, kept) = generate_node_cyto_graph(&aggregates, &vec![], &None);
    assert_eq!(kept, vec![1, 0, 3]);
    let ids: Vec<&str> = g.nodes.iter().map(|n| n.data.id.as_str()).collect();
    assert_eq!(ids, vec!["b", "a", "a"]);
    assert!(g.edges.is_empty());
}

#[test]
fn only_neighbouring_repeats_are_dropped() {
    let aggregates = vec![aggregate("a", 2), aggregate("b", 2), aggregate("a", 2)];
    let (g, _, kept) = generate_node_cyto_graph(&aggregates, &vec![], &None);
    assert_eq!(kept, vec![0, 1, 2]);
    assert_eq!(g.nodes.len(), 3);
}

#[test]
fn aggregates_compare_field_by_field() {
    let a = aggregate("a", 1);
    assert!(aggregates_equal(&a, &aggregate("a", 1)));
    assert!(!aggregates_equal(&a, &aggregate("a", 2)));
    let mut b = aggregate("a", 1);
    b.frequency_distribution = vec![("x".to_string(), 1)];
    assert!(!aggregates_equal(&a, &b));
    let mut c = aggregate("a", 1);
    c.mean_importance_bits = 4.0f32.to_bits();
    assert!(!aggregates_equal(&a, &c));
}
