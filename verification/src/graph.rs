//! The network graphs shown to participants, in the shape Cytoscape.js reads: people
//! and nodes as graph nodes, experiences and shared experiences as edges.
//!
//! Inclusivity scores and edge weights are decimal fractions; they are attached to
//! these values by the caller, which keeps the graph elements in the order given here.

use std::collections::HashMap;

use vstd::prelude::*;

use crate::experience::{AggregateExperience, ExperienceRecord};
use crate::links::{lists_connections, names_within_limit, node_graph_links, node_links, total_names, walk_connections, LinkModel};
use crate::order::seq_less;
use crate::numbers::{decimal, decimal_string};
use crate::text::{concatenate, str_equal, trim_str, trimmed};

verus! {

/// Names what Inflector's `to_snake_case` makes of a string.
pub uninterp spec fn snake_cased(s: Seq<char>) -> Seq<char>;

/// Inflector's `to_snake_case`: the words of `s`, lowercased and joined by `_`. The
/// contract names the result [`snake_cased`] without stating how words are found.
#[verifier::external_body]
pub(crate) fn snake_case(s: &str) -> (r: String)
    ensures
        r@ == snake_cased(s@),
{
    inflector::cases::snakecase::to_snake_case(s)
}

/// A person as the graph records it: identifier and creation date, already written.
pub struct PersonRecord {
    pub id: i32,
    pub date_created: String,
}

/// A node as the graph records it: its name text, domain and slug.
pub struct NodeRecord {
    pub node_name: String,
    pub domain_token: String,
    pub slug: String,
}

/// A graph node.
pub struct GNode {
    pub id: String,
    pub node_type: String,
    pub text: Vec<String>,
    pub shape: String,
    pub size: i32,
    pub color: String,
    pub href: String,
}

/// A graph edge.
pub struct GEdge {
    pub id: String,
    pub source: String,
    pub target: String,
    pub text: Vec<String>,
}

/// A graph node wrapped as Cytoscape.js expects it.
pub struct CytoNode {
    pub data: GNode,
}

/// A graph edge wrapped as Cytoscape.js expects it.
pub struct CytoEdge {
    pub data: GEdge,
}

/// A whole graph.
pub struct CytoGraph {
    pub nodes: Vec<CytoNode>,
    pub edges: Vec<CytoEdge>,
}

/// The contents of a graph node.
pub struct GNodeView {
    pub id: Seq<char>,
    pub node_type: Seq<char>,
    pub text: Seq<Seq<char>>,
    pub shape: Seq<char>,
    pub size: int,
    pub color: Seq<char>,
    pub href: Seq<char>,
}

/// The contents of a graph edge.
pub struct GEdgeView {
    pub id: Seq<char>,
    pub source: Seq<char>,
    pub target: Seq<char>,
    pub text: Seq<Seq<char>>,
}

/// The texts of a list of strings.
pub open spec fn texts_of(v: Seq<String>) -> Seq<Seq<char>> {
    v.map_values(|s: String| s@)
}

impl View for GNode {
    type V = GNodeView;

    open spec fn view(&self) -> GNodeView {
        GNodeView {
            id: self.id@,
            node_type: self.node_type@,
            text: texts_of(self.text@),
            shape: self.shape@,
            size: self.size as int,
            color: self.color@,
            href: self.href@,
        }
    }
}

impl View for GEdge {
    type V = GEdgeView;

    open spec fn view(&self) -> GEdgeView {
        GEdgeView { id: self.id@, source: self.source@, target: self.target@, text: texts_of(self.text@) }
    }
}

/// The colour and shape of a node of `domain`: people-like domains are green
/// ellipses, all others blue rectangles.
pub open spec fn look(domain: Seq<char>) -> (Seq<char>, Seq<char>) {
    if domain == "person"@ {
        ("green"@, "ellipse"@)
    } else {
        ("blue"@, "rectangle"@)
    }
}

/// Where a node's page is: under the community if there is one.
pub open spec fn node_href(community: Option<String>, slug: Seq<char>) -> Seq<char> {
    match community {
        Some(c) => "/community_node/"@ + c@ + "/"@ + slug,
        None => "/node/"@ + slug,
    }
}

/// The graph node of a person.
pub open spec fn person_node(id: i32, date: Seq<char>) -> GNodeView {
    GNodeView {
        id: "P-"@ + decimal(id as int),
        node_type: "Person"@,
        text: seq![date],
        shape: "ellipse"@,
        size: 25,
        color: "orange"@,
        href: "/person_network_graph/"@ + decimal(id as int),
    }
}

/// The graph node of a node named `name` (trimmed) of `domain`, whose page is `href`.
pub open spec fn domain_node(name: Seq<char>, domain: Seq<char>, href: Seq<char>) -> GNodeView {
    GNodeView {
        id: trimmed(name),
        node_type: "Node"@,
        text: seq![domain],
        shape: look(domain).1,
        size: 25,
        color: look(domain).0,
        href,
    }
}

/// The graph edge from a person to the node of one of their experiences.
pub open spec fn experience_edge(person_id: i32, name: Seq<char>, statements: Seq<Seq<char>>) -> GEdgeView {
    GEdgeView {
        id: "P"@ + decimal(person_id as int) + "-"@ + trimmed(name),
        source: "P-"@ + decimal(person_id as int),
        target: trimmed(name),
        text: statements,
    }
}

/// The graph node of an experience's node.
pub open spec fn experience_node(l: ExperienceRecord, community: Option<String>) -> GNodeView {
    domain_node(l.node_name@, l.node_domain@, node_href(community, snake_cased(trimmed(l.node_name@))))
}

/// The graph node of an aggregate.
pub open spec fn aggregate_node(a: AggregateExperience, community: Option<String>) -> GNodeView {
    domain_node(a.name@, a.domain@, node_href(community, snake_cased(trimmed(a.name@))))
}

/// `[s]`.
fn one_text(s: String) -> (v: Vec<String>)
    ensures
        texts_of(v@) == seq![s@],
{
    let mut v: Vec<String> = Vec::new();
    v.push(s);
    assert(texts_of(v@) =~= seq![s@]);
    v
}

/// Copies a list of strings.
fn copy_texts(v: &Vec<String>) -> (r: Vec<String>)
    ensures
        texts_of(r@) == texts_of(v@),
{
    let mut r: Vec<String> = Vec::new();
    let mut i: usize = 0;
    while i < v.len()
        invariant
            i <= v.len(),
            texts_of(r@) == texts_of(v@.subrange(0, i as int)),
        decreases v.len() - i,
    {
        r.push(v[i].clone());
        i = i + 1;
        assert(texts_of(v@.subrange(0, i as int)) =~= texts_of(v@.subrange(0, i - 1)).push(v@[i - 1]@));
        assert(texts_of(r@) =~= texts_of(r@.drop_last()).push(r@.last()@));
    }
    assert(v@.subrange(0, i as int) =~= v@);
    r
}

/// The colour and shape of a node of `domain`.
fn look_of(domain: &str) -> (r: (String, String))
    ensures
        r.0@ == look(domain@).0,
        r.1@ == look(domain@).1,
{
    if str_equal(domain, "person") {
        ("green".to_string(), "ellipse".to_string())
    } else {
        ("blue".to_string(), "rectangle".to_string())
    }
}

/// Where the page of the node `slug` is.
fn href_of(community: &Option<String>, slug: &str) -> (r: String)
    ensures
        r@ == node_href(*community, slug@),
{
    match community {
        Some(c) => {
            let a = concatenate("/community_node/", c.as_str());
            let b = concatenate(a.as_str(), "/");
            concatenate(b.as_str(), slug)
        },
        None => concatenate("/node/", slug),
    }
}

/// The graph node of the node named `name` of `domain`, whose page is `href`.
fn make_domain_node(name: &str, domain: &str, href: String) -> (g: GNode)
    ensures
        g@ == domain_node(name@, domain@, href@),
{
    let (color, shape) = look_of(domain);
    GNode {
        id: trim_str(name),
        node_type: "Node".to_string(),
        text: one_text(domain.to_string()),
        shape,
        size: 25,
        color,
        href,
    }
}

impl GNode {
    /// The graph node of a person: `P-{id}`, an orange ellipse linking to the person's
    /// graph, with the creation date as text.
    pub fn from_person(p: &PersonRecord) -> (g: GNode)
        ensures
            g@ == person_node(p.id, p.date_created@),
            g.id@ == "P-"@ + decimal(p.id as int),
            g.node_type@ == "Person"@,
            texts_of(g.text@) == seq![p.date_created@],
            g.shape@ == "ellipse"@,
            g.size == 25,
            g.color@ == "orange"@,
            g.href@ == "/person_network_graph/"@ + decimal(p.id as int),
    {
        let id = decimal_string(p.id);
        GNode {
            id: concatenate("P-", id.as_str()),
            node_type: "Person".to_string(),
            text: one_text(p.date_created.clone()),
            shape: "ellipse".to_string(),
            size: 25,
            color: "orange".to_string(),
            href: concatenate("/person_network_graph/", id.as_str()),
        }
    }

    /// The graph node of a node, linking to its page (in the community, if any).
    pub fn from_node(n: &NodeRecord, community: &Option<String>) -> (g: GNode)
        ensures
            g@ == domain_node(n.node_name@, n.domain_token@, node_href(*community, n.slug@)),
            g.id@ == trimmed(n.node_name@),
            g.node_type@ == "Node"@,
            texts_of(g.text@) == seq![n.domain_token@],
            g.size == 25,
            g.color@ == (if n.domain_token@ == "person"@ { "green"@ } else { "blue"@ }),
            g.shape@ == (if n.domain_token@ == "person"@ { "ellipse"@ } else { "rectangle"@ }),
            g.href@ == (match *community {
                Some(c) => "/community_node/"@ + c@ + "/"@ + n.slug@,
                None => "/node/"@ + n.slug@,
            }),
    {
        make_domain_node(n.node_name.as_str(), n.domain_token.as_str(), href_of(community, n.slug.as_str()))
    }

    /// The graph node of an experience's node; its page is found by the snake-case
    /// form of the trimmed node name.
    pub fn from_experience(l: &ExperienceRecord, community: &Option<String>) -> (g: GNode)
        ensures
            g@ == experience_node(*l, *community),
            g.id@ == trimmed(l.node_name@),
            g.node_type@ == "Node"@,
            texts_of(g.text@) == seq![l.node_domain@],
            g.size == 25,
            g.color@ == (if l.node_domain@ == "person"@ { "green"@ } else { "blue"@ }),
            g.shape@ == (if l.node_domain@ == "person"@ { "ellipse"@ } else { "rectangle"@ }),
            g.href@ == (match *community {
                Some(c) => "/community_node/"@ + c@ + "/"@ + snake_cased(trimmed(l.node_name@)),
                None => "/node/"@ + snake_cased(trimmed(l.node_name@)),
            }),
    {
        let slug = snake_case(trim_str(l.node_name.as_str()).as_str());
        make_domain_node(l.node_name.as_str(), l.node_domain.as_str(), href_of(community, slug.as_str()))
    }

    /// The graph node of an aggregate; its page is found by the snake-case form of the
    /// trimmed name.
    pub fn from_agg_experience(a: &AggregateExperience, community: &Option<String>) -> (g: GNode)
        ensures
            g@ == aggregate_node(*a, *community),
            g.id@ == trimmed(a.name@),
            g.node_type@ == "Node"@,
            texts_of(g.text@) == seq![a.domain@],
            g.size == 25,
            g.color@ == (if a.domain@ == "person"@ { "green"@ } else { "blue"@ }),
            g.shape@ == (if a.domain@ == "person"@ { "ellipse"@ } else { "rectangle"@ }),
            g.href@ == (match *community {
                Some(c) => "/community_node/"@ + c@ + "/"@ + snake_cased(trimmed(a.name@)),
                None => "/node/"@ + snake_cased(trimmed(a.name@)),
            }),
    {
        let slug = snake_case(trim_str(a.name.as_str()).as_str());
        make_domain_node(a.name.as_str(), a.domain.as_str(), href_of(community, slug.as_str()))
    }
}

impl GEdge {
    /// The edge from a person (`P-{id}`) to the node of their experience, identified
    /// as `P{id}-{name}` and labelled with the experience's statements.
    pub fn from_experience(l: &ExperienceRecord) -> (e: GEdge)
        ensures
            e@ == experience_edge(l.person_id, l.node_name@, texts_of(l.statement_texts@)),
            e.id@ == "P"@ + decimal(l.person_id as int) + "-"@ + trimmed(l.node_name@),
            e.source@ == "P-"@ + decimal(l.person_id as int),
            e.target@ == trimmed(l.node_name@),
            texts_of(e.text@) == texts_of(l.statement_texts@),
    {
        let id = decimal_string(l.person_id);
        let name = trim_str(l.node_name.as_str());
        let head = concatenate("P", id.as_str());
        let head = concatenate(head.as_str(), "-");
        GEdge {
            id: concatenate(head.as_str(), name.as_str()),
            source: concatenate("P-", id.as_str()),
            target: name,
            text: copy_texts(&l.statement_texts),
        }
    }
}

/// The graph of people, nodes and experiences: a node per person, then a node per
/// node, and an edge per experience, each in the order given.
pub fn generate_cyto_graph(
    people_vec: &Vec<PersonRecord>,
    node_vec: &Vec<NodeRecord>,
    experience_vec: &Vec<ExperienceRecord>,
    community: &Option<String>,
) -> (g: CytoGraph)
    ensures
        g.nodes.len() == people_vec.len() + node_vec.len(),
        forall|i: int| 0 <= i < people_vec.len() ==> (#[trigger] g.nodes@[i]).data@ == person_node(
            people_vec@[i].id,
            people_vec@[i].date_created@,
        ),
        forall|i: int| 0 <= i < node_vec.len() ==> (#[trigger] g.nodes@[people_vec.len() + i]).data@ == domain_node(
            node_vec@[i].node_name@,
            node_vec@[i].domain_token@,
            node_href(*community, node_vec@[i].slug@),
        ),
        g.edges.len() == experience_vec.len(),
        forall|i: int| 0 <= i < experience_vec.len() ==> (#[trigger] g.edges@[i]).data@ == experience_edge(
            experience_vec@[i].person_id,
            experience_vec@[i].node_name@,
            texts_of(experience_vec@[i].statement_texts@),
        ),
{
    let mut nodes: Vec<CytoNode> = Vec::new();
    let mut i: usize = 0;
    while i < people_vec.len()
        invariant
            i <= people_vec.len(),
            nodes.len() == i,
            forall|k: int| 0 <= k < i ==> (#[trigger] nodes@[k]).data@ == person_node(people_vec@[k].id, people_vec@[k].date_created@),
        decreases people_vec.len() - i,
    {
        nodes.push(CytoNode { data: GNode::from_person(&people_vec[i]) });
        i = i + 1;
    }
    let mut j: usize = 0;
    while j < node_vec.len()
        invariant
            j <= node_vec.len(),
            nodes.len() == people_vec.len() + j,
            forall|k: int| 0 <= k < people_vec.len() ==> (#[trigger] nodes@[k]).data@ == person_node(people_vec@[k].id, people_vec@[k].date_created@),
            forall|k: int| 0 <= k < j ==> (#[trigger] nodes@[people_vec.len() + k]).data@ == domain_node(
                node_vec@[k].node_name@,
                node_vec@[k].domain_token@,
                node_href(*community, node_vec@[k].slug@),
            ),
        decreases node_vec.len() - j,
    {
        nodes.push(CytoNode { data: GNode::from_node(&node_vec[j], community) });
        j = j + 1;
    }
    let mut edges: Vec<CytoEdge> = Vec::new();
    let mut k: usize = 0;
    while k < experience_vec.len()
        invariant
            k <= experience_vec.len(),
            edges.len() == k,
            forall|m: int| 0 <= m < k ==> (#[trigger] edges@[m]).data@ == experience_edge(
                experience_vec@[m].person_id,
                experience_vec@[m].node_name@,
                texts_of(experience_vec@[m].statement_texts@),
            ),
        decreases experience_vec.len() - k,
    {
        edges.push(CytoEdge { data: GEdge::from_experience(&experience_vec[k]) });
        k = k + 1;
    }
    CytoGraph { nodes, edges }
}

/// Whether the entry `x` comes before `y` when ranking by count: the larger count
/// first, and among equal counts the earlier entry first.
pub open spec fn count_before(counts: Seq<u32>, x: int, y: int) -> bool {
    counts[x] > counts[y] || (counts[x] == counts[y] && x < y)
}

/// Whether `x` is one of the entries of `order`.
pub open spec fn lists(order: Seq<usize>, x: int) -> bool {
    exists|k: int| 0 <= k < order.len() && order[k] == x
}

/// Whether `order` lists every index of `counts` once, ranked by count (the order a
/// stable sort by decreasing count gives).
pub open spec fn is_count_order(order: Seq<usize>, counts: Seq<u32>) -> bool {
    &&& order.len() == counts.len()
    &&& forall|k: int| 0 <= k < order.len() ==> #[trigger] order[k] < counts.len()
    &&& forall|x: int| 0 <= x < counts.len() ==> #[trigger] lists(order, x)
    &&& forall|a: int, b: int| 0 <= a < b < order.len() ==> count_before(counts, #[trigger] order[a] as int, #[trigger] order[b] as int)
}

/// Two count orders agree on their first `k` places, and then on all places.
proof fn lemma_count_orders_agree(o1: Seq<usize>, o2: Seq<usize>, counts: Seq<u32>, k: int)
    requires
        is_count_order(o1, counts),
        is_count_order(o2, counts),
        0 <= k <= o1.len(),
        forall|j: int| 0 <= j < k ==> o1[j] == o2[j],
    ensures
        o1 == o2,
    decreases o1.len() - k,
{
    if k == o1.len() {
        assert(o1 =~= o2);
    } else {
        let x = o1[k];
        let y = o2[k];
        if x != y {
            assert(lists(o1, y as int));
            let j1 = choose|j: int| 0 <= j < o1.len() && o1[j] == y;
            assert(lists(o2, x as int));
            let j2 = choose|j: int| 0 <= j < o2.len() && o2[j] == x;
            if j1 < k {
                assert(o2[j1] == y);
                assert(count_before(counts, o2[j1] as int, o2[k] as int));
            }
            if j2 < k {
                assert(o1[j2] == x);
                assert(count_before(counts, o1[j2] as int, o1[k] as int));
            }
            assert(count_before(counts, o1[k] as int, o1[j1] as int));
            assert(count_before(counts, o2[k] as int, o2[j2] as int));
        }
        lemma_count_orders_agree(o1, o2, counts, k + 1);
    }
}

/// There is only one count order of a list of counts: the stable ranking by
/// decreasing count.
pub proof fn lemma_count_order_unique(o1: Seq<usize>, o2: Seq<usize>, counts: Seq<u32>)
    requires
        is_count_order(o1, counts),
        is_count_order(o2, counts),
    ensures
        o1 == o2,
{
    lemma_count_orders_agree(o1, o2, counts, 0);
}

/// The indices of `counts`, larger counts first and equal counts in their given order.
pub fn order_by_count(counts: &Vec<u32>) -> (order: Vec<usize>)
    ensures
        is_count_order(order@, counts@),
{
    let mut order: Vec<usize> = Vec::new();
    let ghost mut pos: Seq<int> = Seq::empty();
    let mut i: usize = 0;
    while i < counts.len()
        invariant
            i <= counts.len(),
            order.len() == i,
            pos.len() == i,
            forall|k: int| 0 <= k < order.len() ==> #[trigger] order@[k] < i,
            forall|x: int| 0 <= x < i ==> 0 <= #[trigger] pos[x] < order.len() && order@[pos[x]] == x,
            forall|a: int, b: int| 0 <= a < b < order.len() ==> count_before(counts@, #[trigger] order@[a] as int, #[trigger] order@[b] as int),
        decreases counts.len() - i,
    {
        let c = counts[i];
        let mut p: usize = 0;
        while p < order.len() && counts[order[p]] >= c
            invariant
                i < counts.len(),
                c == counts@[i as int],
                p <= order.len(),
                forall|k: int| 0 <= k < order.len() ==> #[trigger] order@[k] < i,
                forall|m: int| 0 <= m < p ==> counts@[#[trigger] order@[m] as int] >= c,
            decreases order.len() - p,
        {
            p = p + 1;
        }
        let ghost old_order = order@;
        order.insert(p, i);
        proof {
            assert forall|k: int| 0 <= k < order.len() implies #[trigger] order@[k] < i + 1 by {
                if k < p {
                    assert(order@[k] == old_order[k]);
                } else if k > p {
                    assert(order@[k] == old_order[k - 1]);
                }
            }
            assert forall|a: int, b: int| 0 <= a < b < order.len() implies count_before(counts@, #[trigger] order@[a] as int, #[trigger] order@[b] as int) by {
                if b < p {
                    assert(order@[a] == old_order[a] && order@[b] == old_order[b]);
                } else if b == p {
                    assert(order@[a] == old_order[a]);
                    assert(counts@[old_order[a] as int] >= c);
                } else if a == p {
                    assert(order@[b] == old_order[b - 1]);
                    assert(counts@[old_order[p as int] as int] < c);
                    if b - 1 > p {
                        assert(count_before(counts@, old_order[p as int] as int, old_order[b - 1] as int));
                    }
                } else if a < p {
                    assert(order@[a] == old_order[a] && order@[b] == old_order[b - 1]);
                } else {
                    assert(order@[a] == old_order[a - 1] && order@[b] == old_order[b - 1]);
                }
            }
            let new_pos = Seq::new(i as nat + 1, |x: int| if x == i { p as int } else if pos[x] >= p { pos[x] + 1 } else { pos[x] });
            assert forall|x: int| 0 <= x < i + 1 implies 0 <= #[trigger] new_pos[x] < order.len() && order@[new_pos[x]] == x by {
                if x < i {
                    if pos[x] >= p {
                        assert(order@[pos[x] + 1] == old_order[pos[x]]);
                    } else {
                        assert(order@[pos[x]] == old_order[pos[x]]);
                    }
                }
            }
            pos = new_pos;
        }
        i = i + 1;
    }
    proof {
        assert forall|x: int| 0 <= x < counts.len() implies #[trigger] lists(order@, x) by {
            assert(order@[pos[x]] == x);
        }
    }
    order
}

/// Whether the edge `e`, seen `visits` times, is the link of `m` under its identifier,
/// with one empty line of text.
pub open spec fn shows_edge(m: Map<Seq<char>, LinkModel>, e: GEdge, visits: u64) -> bool {
    &&& m.contains_key(e.id@)
    &&& m[e.id@] == (LinkModel { source: e.source@, target: e.target@, visits: visits as nat })
    &&& texts_of(e.text@) == seq![Seq::<char>::empty()]
}

/// Whether `edges`, seen `visits` times each, are the links that the people's node
/// lists `conns` make: each edge is such a link, every link is an edge, and the edges
/// come in increasing order of identifier.
pub open spec fn node_graph_edges(edges: Seq<CytoEdge>, visits: Seq<u64>, conns: Seq<(i32, Vec<String>)>) -> bool {
    &&& edges.len() == visits.len()
    &&& forall|i: int| 0 <= i < visits.len() ==> shows_edge(node_graph_links(conns), (#[trigger] edges[i]).data, visits[i])
    &&& forall|k: Seq<char>| #[trigger] node_graph_links(conns).contains_key(k) ==> exists|i: int|
        0 <= i < edges.len() && edges[i].data.id@ == k
    &&& forall|a: int, b: int| 0 <= a < b < edges.len() ==> seq_less(edges[a].data.id@, edges[b].data.id@)
}

/// Two lists of edges that both are the links of `conns` agree on their first `k`
/// identifiers, and then on all of them.
proof fn lemma_edge_ids_agree(
    e1: Seq<CytoEdge>,
    v1: Seq<u64>,
    e2: Seq<CytoEdge>,
    v2: Seq<u64>,
    conns: Seq<(i32, Vec<String>)>,
    k: int,
)
    requires
        node_graph_edges(e1, v1, conns),
        node_graph_edges(e2, v2, conns),
        0 <= k,
        k <= e1.len(),
        k <= e2.len(),
        forall|j: int| 0 <= j < k ==> e1[j].data.id@ == e2[j].data.id@,
    ensures
        e1.len() == e2.len(),
        forall|j: int| 0 <= j < e1.len() ==> e1[j].data.id@ == e2[j].data.id@,
    decreases e1.len() + e2.len() - 2 * k,
{
    let m = node_graph_links(conns);
    if k < e1.len() && k < e2.len() {
        let x = e1[k].data.id@;
        let y = e2[k].data.id@;
        if x != y {
            assert(shows_edge(m, e1[k].data, v1[k]));
            assert(shows_edge(m, e2[k].data, v2[k]));
            assert(m.contains_key(y));
            let j1 = choose|i: int| 0 <= i < e1.len() && e1[i].data.id@ == y;
            assert(m.contains_key(x));
            let j2 = choose|i: int| 0 <= i < e2.len() && e2[i].data.id@ == x;
            if j1 < k {
                assert(seq_less(e2[j1].data.id@, e2[k].data.id@));
                crate::order::lemma_less_irreflexive(y);
            } else if j2 < k {
                assert(seq_less(e1[j2].data.id@, e1[k].data.id@));
                crate::order::lemma_less_irreflexive(x);
            } else {
                assert(seq_less(x, y));
                assert(seq_less(y, x));
                crate::order::lemma_less_transitive(x, y, x);
                crate::order::lemma_less_irreflexive(x);
            }
        }
        lemma_edge_ids_agree(e1, v1, e2, v2, conns, k + 1);
    } else if k < e1.len() {
        let x = e1[k].data.id@;
        assert(shows_edge(m, e1[k].data, v1[k]));
        let j = choose|i: int| 0 <= i < e2.len() && e2[i].data.id@ == x;
        assert(e1[j].data.id@ == x);
        assert(seq_less(e1[j].data.id@, e1[k].data.id@));
        crate::order::lemma_less_irreflexive(x);
    } else if k < e2.len() {
        let y = e2[k].data.id@;
        assert(shows_edge(m, e2[k].data, v2[k]));
        let j = choose|i: int| 0 <= i < e1.len() && e1[i].data.id@ == y;
        assert(e2[j].data.id@ == y);
        assert(seq_less(e2[j].data.id@, e2[k].data.id@));
        crate::order::lemma_less_irreflexive(y);
    }
}

/// The edges of the node graph depend on the people's node lists alone: two results
/// for the same lists, whatever the aggregates and the community, have the same edges,
/// seen the same number of times.
pub proof fn lemma_edges_depend_on_connections(
    e1: Seq<CytoEdge>,
    v1: Seq<u64>,
    e2: Seq<CytoEdge>,
    v2: Seq<u64>,
    conns: Seq<(i32, Vec<String>)>,
)
    requires
        node_graph_edges(e1, v1, conns),
        node_graph_edges(e2, v2, conns),
    ensures
        e1.len() == e2.len(),
        forall|i: int| 0 <= i < e1.len() ==> (#[trigger] e1[i]).data@ == e2[i].data@ && v1[i] == v2[i],
{
    lemma_edge_ids_agree(e1, v1, e2, v2, conns, 0);
    let m = node_graph_links(conns);
    assert forall|i: int| 0 <= i < e1.len() implies (#[trigger] e1[i]).data@ == e2[i].data@ && v1[i] == v2[i] by {
        assert(shows_edge(m, e1[i].data, v1[i]));
        assert(shows_edge(m, e2[i].data, v2[i]));
        assert(e1[i].data.id@ == e2[i].data.id@);
    }
}

/// The counts of a list of aggregates.
pub open spec fn counts_of(v: Seq<AggregateExperience>) -> Seq<u32> {
    v.map_values(|a: AggregateExperience| a.count)
}

/// The statement counts of a frequency distribution, with the statements as texts.
pub open spec fn frequencies_view(f: Seq<(String, u32)>) -> Seq<(Seq<char>, u32)> {
    f.map_values(|p: (String, u32)| (p.0@, p.1))
}

/// Whether two aggregates are equal field by field (the means by their bit patterns).
pub open spec fn same_aggregate(a: AggregateExperience, b: AggregateExperience) -> bool {
    &&& a.name@ == b.name@
    &&& a.domain@ == b.domain@
    &&& a.count == b.count
    &&& a.mean_inclusivity_bits == b.mean_inclusivity_bits
    &&& a.mean_importance_bits == b.mean_importance_bits
    &&& frequencies_view(a.frequency_distribution@) == frequencies_view(b.frequency_distribution@)
    &&& a.slug@ == b.slug@
}

/// Whether two frequency distributions list the same statements with the same counts.
fn same_frequencies(a: &Vec<(String, u32)>, b: &Vec<(String, u32)>) -> (r: bool)
    ensures
        r == (frequencies_view(a@) == frequencies_view(b@)),
{
    if a.len() != b.len() {
        proof {
            if frequencies_view(a@) == frequencies_view(b@) {
                assert(frequencies_view(a@).len() == frequencies_view(b@).len());
            }
        }
        return false;
    }
    let mut i: usize = 0;
    while i < a.len()
        invariant
            a.len() == b.len(),
            i <= a.len(),
            forall|j: int| 0 <= j < i ==> (#[trigger] frequencies_view(a@)[j]) == frequencies_view(b@)[j],
        decreases a.len() - i,
    {
        if !str_equal(a[i].0.as_str(), b[i].0.as_str()) || a[i].1 != b[i].1 {
            proof {
                if frequencies_view(a@) == frequencies_view(b@) {
                    assert(frequencies_view(a@)[i as int] == frequencies_view(b@)[i as int]);
                }
            }
            return false;
        }
        assert(frequencies_view(a@)[i as int] == frequencies_view(b@)[i as int]);
        i = i + 1;
    }
    assert(frequencies_view(a@) =~= frequencies_view(b@));
    true
}

/// Whether two aggregates are equal field by field: the comparison that the node graph
/// removes repeated aggregates by.
pub fn aggregates_equal(a: &AggregateExperience, b: &AggregateExperience) -> (r: bool)
    ensures
        r == same_aggregate(*a, *b),
{
    str_equal(a.name.as_str(), b.name.as_str())
        && str_equal(a.domain.as_str(), b.domain.as_str())
        && a.count == b.count
        && a.mean_inclusivity_bits == b.mean_inclusivity_bits
        && a.mean_importance_bits == b.mean_importance_bits
        && same_frequencies(&a.frequency_distribution, &b.frequency_distribution)
        && str_equal(a.slug.as_str(), b.slug.as_str())
}

/// The entries of `order` that remain when, among the aggregates listed in that order,
/// each one equal to the one listed just before it is removed. Since equality of
/// aggregates is an equivalence, this is what `Vec::dedup` keeps of the list, which
/// compares each element with the last one it kept.
pub open spec fn deduplicated(order: Seq<usize>, aggregates: Seq<AggregateExperience>) -> Seq<usize>
    decreases order.len(),
{
    if order.len() == 0 {
        Seq::empty()
    } else {
        let kept = deduplicated(order.drop_last(), aggregates);
        let n = order.len() as int;
        if n >= 2 && same_aggregate(aggregates[order[n - 2] as int], aggregates[order[n - 1] as int]) {
            kept
        } else {
            kept.push(order[n - 1])
        }
    }
}

/// The last entry kept of a non-empty list is equal to the list's last aggregate.
proof fn lemma_deduplicated_last(order: Seq<usize>, aggregates: Seq<AggregateExperience>)
    requires
        order.len() >= 1,
    ensures
        deduplicated(order, aggregates).len() >= 1,
        same_aggregate(aggregates[deduplicated(order, aggregates).last() as int], aggregates[order.last() as int]),
    decreases order.len(),
{
    let n = order.len() as int;
    let init = order.drop_last();
    if n >= 2 && same_aggregate(aggregates[order[n - 2] as int], aggregates[order[n - 1] as int]) {
        lemma_deduplicated_last(init, aggregates);
        assert(init.last() == order[n - 2]);
    }
}

/// No two neighbouring entries kept of a list of aggregates are equal: what remains
/// has no repeated neighbours.
pub proof fn lemma_no_repeated_neighbours(order: Seq<usize>, aggregates: Seq<AggregateExperience>)
    ensures
        forall|j: int| 0 <= j < deduplicated(order, aggregates).len() - 1 ==> !same_aggregate(
            aggregates[#[trigger] deduplicated(order, aggregates)[j] as int],
            aggregates[deduplicated(order, aggregates)[j + 1] as int],
        ),
    decreases order.len(),
{
    if order.len() > 0 {
        let n = order.len() as int;
        let init = order.drop_last();
        lemma_no_repeated_neighbours(init, aggregates);
        let kept = deduplicated(init, aggregates);
        if !(n >= 2 && same_aggregate(aggregates[order[n - 2] as int], aggregates[order[n - 1] as int])) && n >= 2 {
            lemma_deduplicated_last(init, aggregates);
            assert(init.last() == order[n - 2]);
            let d = deduplicated(order, aggregates);
            assert(d == kept.push(order[n - 1]));
            assert forall|j: int| 0 <= j < d.len() - 1 implies !same_aggregate(aggregates[#[trigger] d[j] as int], aggregates[d[j + 1] as int]) by {
                if j < kept.len() - 1 {
                    assert(d[j] == kept[j] && d[j + 1] == kept[j + 1]);
                } else {
                    assert(d[j] == kept.last());
                }
            }
        }
    }
}

/// Whether `r` is the node graph of the aggregates and the people's node lists
/// `conns`: the third part lists, node by node, the index of its aggregate, which are
/// the aggregates ranked by count with each one equal to the one ranked just before it
/// left out; the nodes show those aggregates; and the edges with their visit counts
/// (the second part) are those of the people's pairs of nodes.
pub open spec fn is_node_graph(
    aggregates: Seq<AggregateExperience>,
    conns: Seq<(i32, Vec<String>)>,
    community: Option<String>,
    r: (CytoGraph, Vec<u64>, Vec<usize>),
) -> bool {
    &&& exists|order: Seq<usize>| #[trigger] is_count_order(order, counts_of(aggregates)) && r.2@ == deduplicated(order, aggregates)
    &&& r.0.nodes.len() == r.2.len()
    &&& forall|k: int| 0 <= k < r.2.len() ==> r.2@[k] < aggregates.len() && (#[trigger] r.0.nodes@[k]).data@ == aggregate_node(aggregates[r.2@[k] as int], community)
    &&& node_graph_edges(r.0.edges@, r.1@, conns)
}

/// The graph of nodes linked by the people who share them: the aggregates ranked by
/// count (more frequent first, equally frequent ones in the order given), with each one
/// equal to the one ranked just before it removed, and a node for each that remains;
/// and an edge per pair of nodes that some person both has, in order of edge
/// identifier. The second result gives, edge by edge, how many times the pair was seen
/// from either end; the third gives, node by node, the index of its aggregate.
///
/// The visit counts are exact 64-bit counters. A person with `n` names makes up to
/// `n * n` sightings, so the lists may hold at most `u32::MAX` names in all, which
/// keeps every count below 2^64; [`node_cyto_graph_of_map`] tests that bound and
/// answers `None` beyond it.
pub fn generate_node_cyto_graph(
    aggregates: &Vec<AggregateExperience>,
    people_connections: &Vec<(i32, Vec<String>)>,
    community: &Option<String>,
) -> (r: (CytoGraph, Vec<u64>, Vec<usize>))
    requires
        total_names(people_connections@) <= u32::MAX,
    ensures
        is_node_graph(aggregates@, people_connections@, *community, r),
        forall|k: int| 0 <= k < r.2.len() ==> {
            let a = aggregates@[r.2@[k] as int];
            &&& (#[trigger] r.0.nodes@[k]).data.id@ == trimmed(a.name@)
            &&& r.0.nodes@[k].data.href@ == match *community {
                Some(c) => "/community_node/"@ + c@ + "/"@ + snake_cased(trimmed(a.name@)),
                None => "/node/"@ + snake_cased(trimmed(a.name@)),
            }
        },
{
    let mut counts: Vec<u32> = Vec::new();
    let mut i: usize = 0;
    while i < aggregates.len()
        invariant
            i <= aggregates.len(),
            counts@ == counts_of(aggregates@).subrange(0, i as int),
        decreases aggregates.len() - i,
    {
        counts.push(aggregates[i].count);
        i = i + 1;
        assert(counts_of(aggregates@).subrange(0, i as int) =~= counts_of(aggregates@).subrange(0, i - 1).push(aggregates@[i - 1].count));
    }
    assert(counts_of(aggregates@).subrange(0, i as int) =~= counts_of(aggregates@));
    let order = order_by_count(&counts);
    let mut kept: Vec<usize> = Vec::new();
    let mut j: usize = 0;
    while j < order.len()
        invariant
            is_count_order(order@, counts_of(aggregates@)),
            counts_of(aggregates@).len() == aggregates.len(),
            j <= order.len(),
            kept@ == deduplicated(order@.subrange(0, j as int), aggregates@),
            forall|m: int| 0 <= m < kept.len() ==> (#[trigger] kept@[m]) < aggregates.len(),
        decreases order.len() - j,
    {
        let idx = order[j];
        let keep = if j == 0 {
            true
        } else {
            !aggregates_equal(&aggregates[order[j - 1]], &aggregates[idx])
        };
        let ghost prefix = order@.subrange(0, j + 1);
        assert(prefix.drop_last() =~= order@.subrange(0, j as int));
        if keep {
            kept.push(idx);
        }
        j = j + 1;
    }
    assert(order@.subrange(0, j as int) =~= order@);
    let mut nodes: Vec<CytoNode> = Vec::new();
    let mut k: usize = 0;
    while k < kept.len()
        invariant
            forall|m: int| 0 <= m < kept.len() ==> (#[trigger] kept@[m]) < aggregates.len(),
            k <= kept.len(),
            nodes.len() == k,
            forall|m: int| 0 <= m < k ==> (#[trigger] nodes@[m]).data@ == aggregate_node(aggregates@[kept@[m] as int], *community),
        decreases kept.len() - k,
    {
        let idx = kept[k];
        nodes.push(CytoNode { data: GNode::from_agg_experience(&aggregates[idx], community) });
        k = k + 1;
    }
    let links = node_links(people_connections);
    let mut edges: Vec<CytoEdge> = Vec::new();
    let mut visits: Vec<u64> = Vec::new();
    let ghost m = node_graph_links(people_connections@);
    let mut e: usize = 0;
    while e < links.len()
        invariant
            m == node_graph_links(people_connections@),
            forall|q: int| 0 <= q < links.len() ==> crate::links::shows_link(m, #[trigger] links@[q]),
            forall|q: int| 0 <= q < links.len() ==> crate::links::blank_text(#[trigger] links@[q]),
            e <= links.len(),
            edges.len() == e,
            visits.len() == e,
            forall|q: int| 0 <= q < e ==> (#[trigger] edges@[q]).data.id@ == links@[q].id@ && shows_edge(m, edges@[q].data, visits@[q]),
        decreases links.len() - e,
    {
        let l = &links[e];
        let edge = GEdge { id: l.id.clone(), source: l.source.clone(), target: l.target.clone(), text: copy_texts(&l.text) };
        assert(texts_of(l.text@) =~= seq![Seq::<char>::empty()]) by {
            assert(crate::links::blank_text(links@[e as int]));
            assert(l.text@[0]@ =~= Seq::<char>::empty());
        }
        edges.push(CytoEdge { data: edge });
        visits.push(l.visits);
        e = e + 1;
    }
    proof {
        assert forall|k: Seq<char>| #[trigger] m.contains_key(k) implies exists|i: int| 0 <= i < edges.len() && edges@[i].data.id@ == k by {
            let i = choose|i: int| 0 <= i < links.len() && links@[i].id@ == k;
            assert(edges@[i].data.id@ == links@[i].id@);
        }
        assert forall|a: int, b: int| 0 <= a < b < edges.len() implies seq_less(edges@[a].data.id@, edges@[b].data.id@) by {
            assert(edges@[a].data.id@ == links@[a].id@ && edges@[b].data.id@ == links@[b].id@);
        }
    }
    (CytoGraph { nodes, edges }, visits, kept)
}

/// Every node of a node graph is its aggregate's trimmed name, and links to the page of
/// the snake case of that name: the community's node page under
/// `/community_node/{community}/` when there is a community, the global node page under
/// `/node/` when there is none.
pub proof fn lemma_node_graph_pages(
    aggregates: Seq<AggregateExperience>,
    conns: Seq<(i32, Vec<String>)>,
    community: Option<String>,
    r: (CytoGraph, Vec<u64>, Vec<usize>),
)
    requires
        is_node_graph(aggregates, conns, community, r),
    ensures
        forall|k: int| 0 <= k < r.2.len() ==> {
            let a = aggregates[r.2@[k] as int];
            &&& (#[trigger] r.0.nodes@[k]).data.id@ == trimmed(a.name@)
            &&& (community matches Some(c) ==> r.0.nodes@[k].data.href@ == "/community_node/"@ + c@ + "/"@ + snake_cased(trimmed(a.name@)))
            &&& (community is None ==> r.0.nodes@[k].data.href@ == "/node/"@ + snake_cased(trimmed(a.name@)))
        },
{
    assert forall|k: int| 0 <= k < r.2.len() implies {
        let a = aggregates[r.2@[k] as int];
        &&& (#[trigger] r.0.nodes@[k]).data.id@ == trimmed(a.name@)
        &&& (community matches Some(c) ==> r.0.nodes@[k].data.href@ == "/community_node/"@ + c@ + "/"@ + snake_cased(trimmed(a.name@)))
        &&& (community is None ==> r.0.nodes@[k].data.href@ == "/node/"@ + snake_cased(trimmed(a.name@)))
    } by {
        assert(r.0.nodes@[k].data@ == aggregate_node(aggregates[r.2@[k] as int], community));
    }
}

/// The node graph of a community and the global node graph of the same aggregates
/// list the same aggregates in the same order, with the same node identifiers, and each
/// node of the community graph links to `/community_node/{community}/` followed by what
/// follows `/node/` in the global graph's link.
pub proof fn lemma_community_and_global_pages(
    aggregates: Seq<AggregateExperience>,
    conns1: Seq<(i32, Vec<String>)>,
    conns2: Seq<(i32, Vec<String>)>,
    c: String,
    r1: (CytoGraph, Vec<u64>, Vec<usize>),
    r2: (CytoGraph, Vec<u64>, Vec<usize>),
)
    requires
        is_node_graph(aggregates, conns1, Some(c), r1),
        is_node_graph(aggregates, conns2, None, r2),
    ensures
        r1.2@ == r2.2@,
        r1.0.nodes.len() == r2.0.nodes.len(),
        forall|k: int| 0 <= k < r1.0.nodes.len() ==> {
            &&& (#[trigger] r1.0.nodes@[k]).data.id@ == r2.0.nodes@[k].data.id@
            &&& r2.0.nodes@[k].data.href@.subrange(0, 6) == "/node/"@
            &&& r1.0.nodes@[k].data.href@ == "/community_node/"@ + c@ + "/"@ + r2.0.nodes@[k].data.href@.subrange(6, r2.0.nodes@[k].data.href@.len() as int)
        },
{
    let o1 = choose|order: Seq<usize>| #[trigger] is_count_order(order, counts_of(aggregates)) && r1.2@ == deduplicated(order, aggregates);
    let o2 = choose|order: Seq<usize>| #[trigger] is_count_order(order, counts_of(aggregates)) && r2.2@ == deduplicated(order, aggregates);
    lemma_count_order_unique(o1, o2, counts_of(aggregates));
    lemma_node_graph_pages(aggregates, conns1, Some(c), r1);
    lemma_node_graph_pages(aggregates, conns2, None, r2);
    reveal_strlit("/node/");
    assert forall|k: int| 0 <= k < r1.0.nodes.len() implies {
        &&& (#[trigger] r1.0.nodes@[k]).data.id@ == r2.0.nodes@[k].data.id@
        &&& r2.0.nodes@[k].data.href@.subrange(0, 6) == "/node/"@
        &&& r1.0.nodes@[k].data.href@ == "/community_node/"@ + c@ + "/"@ + r2.0.nodes@[k].data.href@.subrange(6, r2.0.nodes@[k].data.href@.len() as int)
    } by {
        let slug = snake_cased(trimmed(aggregates[r1.2@[k] as int].name@));
        assert(r2.0.nodes@[k].data.href@ == "/node/"@ + slug);
        assert(("/node/"@ + slug).subrange(0, 6) =~= "/node/"@);
        assert(("/node/"@ + slug).subrange(6, ("/node/"@ + slug).len() as int) =~= slug);
    }
}

/// A lens node is the trimmed name of its node, and links to the page of that name:
/// under `/node/{community}/` when there is a community, under `/node/` when there is
/// none.
pub proof fn lemma_lens_node_page(l: ExperienceRecord, community: Option<String>, g: GNodeView)
    requires
        g == lens_node(trimmed(l.node_name@), l.node_domain@, lens_href(community, trimmed(l.node_name@))),
    ensures
        g.id == trimmed(l.node_name@),
        community matches Some(c) ==> g.href == "/node/"@ + c@ + "/"@ + trimmed(l.node_name@),
        community is None ==> g.href == "/node/"@ + trimmed(l.node_name@),
{
}

/// The node graph of the aggregates and of the people's node lists held by person, as
/// [`generate_node_cyto_graph`] makes it of the lists in the order the map is walked
/// (which std leaves open). `None` when the lists hold more than `u32::MAX` names.
pub fn node_cyto_graph_of_map(
    aggregates: &Vec<AggregateExperience>,
    people_connections: &HashMap<i32, Vec<String>>,
    community: &Option<String>,
) -> (r: Option<(CytoGraph, Vec<u64>, Vec<usize>)>)
    ensures
        exists|walk: Seq<(i32, Vec<String>)>| #[trigger] lists_connections(walk, people_connections@) && match r {
            Some(g) => is_node_graph(aggregates@, walk, *community, g),
            None => total_names(walk) > u32::MAX,
        },
        r matches Some(g) ==> forall|k: int| 0 <= k < g.2.len() ==> {
            let a = aggregates@[g.2@[k] as int];
            &&& (#[trigger] g.0.nodes@[k]).data.id@ == trimmed(a.name@)
            &&& g.0.nodes@[k].data.href@ == match *community {
                Some(c) => "/community_node/"@ + c@ + "/"@ + snake_cased(trimmed(a.name@)),
                None => "/node/"@ + snake_cased(trimmed(a.name@)),
            }
        },
{
    let walk = walk_connections(people_connections);
    if !names_within_limit(&walk) {
        assert(lists_connections(walk@, people_connections@));
        return None;
    }
    let (graph, visits, kept) = generate_node_cyto_graph(aggregates, &walk, community);
    assert(lists_connections(walk@, people_connections@));
    Some((graph, visits, kept))
}

/// The colour and shape of a node of `domain` in the lens graphs: people-like domains
/// are green rectangles, all others blue triangles.
pub open spec fn lens_look(domain: Seq<char>) -> (Seq<char>, Seq<char>) {
    if domain == "person"@ {
        ("green"@, "rectangle"@)
    } else {
        ("blue"@, "triangle"@)
    }
}

/// The graph node of a node in the lens graphs, identified by `id`, of `domain`, whose
/// page is `href`.
pub open spec fn lens_node(id: Seq<char>, domain: Seq<char>, href: Seq<char>) -> GNodeView {
    GNodeView {
        id,
        node_type: "Node"@,
        text: seq![domain],
        shape: lens_look(domain).1,
        size: 25,
        color: lens_look(domain).0,
        href,
    }
}

/// Where a node's page is in the lens graphs: under the community's name if there is
/// one.
pub open spec fn lens_href(community: Option<String>, name: Seq<char>) -> Seq<char> {
    match community {
        Some(c) => "/node/"@ + c@ + "/"@ + name,
        None => "/node/"@ + name,
    }
}

/// The edge from a person to a node in the lens graphs, with the node name as given.
pub open spec fn lens_edge(person_id: i32, name: Seq<char>, statements: Seq<Seq<char>>) -> GEdgeView {
    GEdgeView {
        id: "P"@ + decimal(person_id as int) + "-"@ + name,
        source: "P-"@ + decimal(person_id as int),
        target: name,
        text: statements,
    }
}

fn lens_look_of(domain: &str) -> (r: (String, String))
    ensures
        r.0@ == lens_look(domain@).0,
        r.1@ == lens_look(domain@).1,
{
    if str_equal(domain, "person") {
        ("green".to_string(), "rectangle".to_string())
    } else {
        ("blue".to_string(), "triangle".to_string())
    }
}

fn make_lens_node(id: String, domain: &str, href: String) -> (g: GNode)
    ensures
        g@ == lens_node(id@, domain@, href@),
{
    let (color, shape) = lens_look_of(domain);
    GNode { id, node_type: "Node".to_string(), text: one_text(domain.to_string()), shape, size: 25, color, href }
}

fn make_lens_edge(person_id: i32, name: String, statements: &Vec<String>) -> (e: GEdge)
    ensures
        e@ == lens_edge(person_id, name@, texts_of(statements@)),
{
    let id = decimal_string(person_id);
    let head = concatenate("P", id.as_str());
    let head = concatenate(head.as_str(), "-");
    GEdge {
        id: concatenate(head.as_str(), name.as_str()),
        source: concatenate("P-", id.as_str()),
        target: name,
        text: copy_texts(statements),
    }
}

impl CytoGraph {
    /// The graph node of a person in the lens graphs (as [`GNode::from_person`]).
    pub fn add_person(p: &PersonRecord) -> (g: GNode)
        ensures
            g@ == person_node(p.id, p.date_created@),
    {
        GNode::from_person(p)
    }

    /// The graph node of a node in the lens graphs: identified by its name as given,
    /// linking to the page of that name.
    pub fn add_node(n: &NodeRecord) -> (g: GNode)
        ensures
            g@ == lens_node(n.node_name@, n.domain_token@, "/node/"@ + n.node_name@),
    {
        make_lens_node(n.node_name.clone(), n.domain_token.as_str(), concatenate("/node/", n.node_name.as_str()))
    }

    /// The edge from a person to the node of a lens, with the node name as given.
    pub fn add_lens_edge(l: &ExperienceRecord) -> (e: GEdge)
        ensures
            e@ == lens_edge(l.person_id, l.node_name@, texts_of(l.statement_texts@)),
            e.id@ == "P"@ + decimal(l.person_id as int) + "-"@ + l.node_name@,
            e.source@ == "P-"@ + decimal(l.person_id as int),
            e.target@ == l.node_name@,
            texts_of(e.text@) == texts_of(l.statement_texts@),
    {
        make_lens_edge(l.person_id, l.node_name.clone(), &l.statement_texts)
    }
}

impl GNode {
    /// The graph node of a lens's node: identified by the trimmed name, linking to the
    /// page of that name (under the community, if any).
    pub fn from_lens(l: &ExperienceRecord, community: &Option<String>) -> (g: GNode)
        ensures
            g@ == lens_node(trimmed(l.node_name@), l.node_domain@, lens_href(*community, trimmed(l.node_name@))),
            g.id@ == trimmed(l.node_name@),
            g.node_type@ == "Node"@,
            texts_of(g.text@) == seq![l.node_domain@],
            g.size == 25,
            g.color@ == (if l.node_domain@ == "person"@ { "green"@ } else { "blue"@ }),
            g.shape@ == (if l.node_domain@ == "person"@ { "rectangle"@ } else { "triangle"@ }),
            g.href@ == (match *community {
                Some(c) => "/node/"@ + c@ + "/"@ + trimmed(l.node_name@),
                None => "/node/"@ + trimmed(l.node_name@),
            }),
    {
        let name = trim_str(l.node_name.as_str());
        let href = match community {
            Some(c) => {
                let a = concatenate("/node/", c.as_str());
                let b = concatenate(a.as_str(), "/");
                concatenate(b.as_str(), name.as_str())
            },
            None => concatenate("/node/", name.as_str()),
        };
        make_lens_node(name, l.node_domain.as_str(), href)
    }
}

impl GEdge {
    /// The edge from a person to the node of a lens, identified by the trimmed name (as
    /// [`GEdge::from_experience`]).
    pub fn from_lens(l: &ExperienceRecord) -> (e: GEdge)
        ensures
            e@ == experience_edge(l.person_id, l.node_name@, texts_of(l.statement_texts@)),
    {
        GEdge::from_experience(l)
    }
}

} // verus!
