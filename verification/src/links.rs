//! Links between nodes of the network graph: two nodes are linked when one person has
//! an experience at both.

use vstd::prelude::*;
use std::collections::HashMap;

use crate::order::{chars_equal, chars_less, copy_chars, lemma_less_total, lemma_less_transitive, seq_less};
use crate::text::{chars_of, string_of, trim_str, trimmed};

verus! {

/// A link between two nodes: where it was first seen from, and how many times it was
/// seen from either side.
pub struct LinkModel {
    pub source: Seq<char>,
    pub target: Seq<char>,
    pub visits: nat,
}

/// The identifier of the link from `a` to `b`: `a-b`.
pub open spec fn link_id(a: Seq<char>, b: Seq<char>) -> Seq<char> {
    a + seq!['-'] + b
}

/// The ordered pairs `(n, c)` with `c` taken from `all`, in order, and different from `n`.
pub open spec fn row(n: Seq<char>, all: Seq<Seq<char>>) -> Seq<(Seq<char>, Seq<char>)>
    decreases all.len(),
{
    if all.len() == 0 {
        Seq::empty()
    } else {
        row(n, all.drop_last()) + (if all.last() != n {
            seq![(n, all.last())]
        } else {
            Seq::empty()
        })
    }
}

/// The ordered pairs of different names of one person: for each name in turn, its row.
pub open spec fn pairs_of(ns: Seq<Seq<char>>, all: Seq<Seq<char>>) -> Seq<(Seq<char>, Seq<char>)>
    decreases ns.len(),
{
    if ns.len() == 0 {
        Seq::empty()
    } else {
        pairs_of(ns.drop_last(), all) + row(ns.last(), all)
    }
}

/// A person's node names, trimmed.
pub open spec fn trimmed_names(v: Seq<String>) -> Seq<Seq<char>> {
    v.map_values(|s: String| trimmed(s@))
}

/// The ordered pairs of all people, person after person.
pub open spec fn all_pairs(conns: Seq<(i32, Vec<String>)>) -> Seq<(Seq<char>, Seq<char>)>
    decreases conns.len(),
{
    if conns.len() == 0 {
        Seq::empty()
    } else {
        let t = trimmed_names(conns.last().1@);
        all_pairs(conns.drop_last()) + pairs_of(t, t)
    }
}

/// The links after one more sighting of the pair `(n, c)`: it counts for the link
/// `c-n` if there is one, else for `n-c`, which is made if it is not there yet.
pub open spec fn sighting(m: Map<Seq<char>, LinkModel>, p: (Seq<char>, Seq<char>)) -> Map<Seq<char>, LinkModel> {
    let id = link_id(p.0, p.1);
    let inv = link_id(p.1, p.0);
    if m.contains_key(inv) {
        m.insert(inv, LinkModel { visits: m[inv].visits + 1, ..m[inv] })
    } else if m.contains_key(id) {
        m.insert(id, LinkModel { visits: m[id].visits + 1, ..m[id] })
    } else {
        m.insert(id, LinkModel { source: p.0, target: p.1, visits: 1 })
    }
}

/// The links made by the sightings `ps`, in order.
pub open spec fn links_after(ps: Seq<(Seq<char>, Seq<char>)>) -> Map<Seq<char>, LinkModel>
    decreases ps.len(),
{
    if ps.len() == 0 {
        Map::empty()
    } else {
        sighting(links_after(ps.drop_last()), ps.last())
    }
}

/// How many names the people have between them.
pub open spec fn total_names(conns: Seq<(i32, Vec<String>)>) -> nat
    decreases conns.len(),
{
    if conns.len() == 0 {
        0
    } else {
        total_names(conns.drop_last()) + conns.last().1@.len()
    }
}

/// A link of the node graph: its identifier, ends and text, and how many times it was
/// seen (each person's pair of nodes is seen from both ends).
pub struct NodeLink {
    pub id: String,
    pub source: String,
    pub target: String,
    pub text: Vec<String>,
    pub visits: u64,
}

/// Whether the lists `ids`, `sources`, `targets` and `visits` hold the links `m`.
pub open spec fn represents(
    ids: Seq<Vec<char>>,
    sources: Seq<Vec<char>>,
    targets: Seq<Vec<char>>,
    visits: Seq<u64>,
    m: Map<Seq<char>, LinkModel>,
) -> bool {
    &&& ids.len() == sources.len() == targets.len() == visits.len()
    &&& forall|a: int, b: int| 0 <= a < b < ids.len() ==> ids[a]@ != ids[b]@
    &&& forall|i: int|
        0 <= i < ids.len() ==> #[trigger] m.contains_key(ids[i]@) && m[ids[i]@] == LinkModel {
            source: sources[i]@,
            target: targets[i]@,
            visits: visits[i] as nat,
        }
    &&& forall|k: Seq<char>| #[trigger] m.contains_key(k) ==> exists|i: int| 0 <= i < ids.len() && ids[i]@ == k
}

/// No link has been seen more often than there were sightings.
proof fn lemma_visits_bound(ps: Seq<(Seq<char>, Seq<char>)>)
    ensures
        forall|k: Seq<char>| #[trigger] links_after(ps).contains_key(k) ==> links_after(ps)[k].visits <= ps.len(),
    decreases ps.len(),
{
    if ps.len() > 0 {
        lemma_visits_bound(ps.drop_last());
        let m = links_after(ps.drop_last());
        assert forall|k: Seq<char>| #[trigger] links_after(ps).contains_key(k) implies links_after(ps)[k].visits <= ps.len() by {
            if m.contains_key(k) {
                assert(m[k].visits <= ps.len() - 1);
            }
        }
    }
}

/// Index of the link `id` in `ids`, if it is there.
fn find_link(ids: &Vec<Vec<char>>, id: &Vec<char>) -> (r: Option<usize>)
    ensures
        r matches Some(i) ==> i < ids.len() && ids@[i as int]@ == id@,
        r is None ==> forall|i: int| 0 <= i < ids.len() ==> ids@[i]@ != id@,
{
    let mut i: usize = 0;
    while i < ids.len()
        invariant
            i <= ids.len(),
            forall|j: int| 0 <= j < i ==> ids@[j]@ != id@,
        decreases ids.len() - i,
    {
        if chars_equal(&ids[i], id) {
            return Some(i);
        }
        i = i + 1;
    }
    None
}

/// `a-b`.
fn make_link_id(a: &Vec<char>, b: &Vec<char>) -> (r: Vec<char>)
    ensures
        r@ == link_id(a@, b@),
{
    let mut r = copy_chars(a);
    r.push('-');
    let mut i: usize = 0;
    while i < b.len()
        invariant
            i <= b.len(),
            r@ == a@ + seq!['-'] + b@.subrange(0, i as int),
        decreases b.len() - i,
    {
        r.push(b[i]);
        i = i + 1;
        assert(a@ + seq!['-'] + b@.subrange(0, i as int) =~= (a@ + seq!['-'] + b@.subrange(0, i - 1)).push(b@[i - 1]));
    }
    assert(b@.subrange(0, b.len() as int) =~= b@);
    r
}

/// Records one sighting of the pair `(n, c)`.
#[verifier::spinoff_prover]
fn see(
    ids: &mut Vec<Vec<char>>,
    sources: &mut Vec<Vec<char>>,
    targets: &mut Vec<Vec<char>>,
    visits: &mut Vec<u64>,
    n: &Vec<char>,
    c: &Vec<char>,
    Ghost(ps): Ghost<Seq<(Seq<char>, Seq<char>)>>,
)
    requires
        represents(old(ids)@, old(sources)@, old(targets)@, old(visits)@, links_after(ps)),
        ps.len() < u64::MAX,
    ensures
        represents(final(ids)@, final(sources)@, final(targets)@, final(visits)@, links_after(ps.push((n@, c@)))),
{
    let ghost m = links_after(ps);
    proof {
        lemma_visits_bound(ps);
        assert(ps.push((n@, c@)).drop_last() =~= ps);
    }
    let ghost m2 = sighting(m, (n@, c@));
    assert(links_after(ps.push((n@, c@))) == m2);
    let id = make_link_id(n, c);
    let inv = make_link_id(c, n);
    let ghost old_ids = ids@;
    let ghost old_sources = sources@;
    let ghost old_targets = targets@;
    let ghost old_visits = visits@;
    let found_inv = find_link(ids, &inv);
    let found_id = find_link(ids, &id);
    match found_inv {
        Some(i) => {
            assert(m.contains_key(inv@));
            let v = visits[i];
            assert(v <= ps.len());
            visits.set(i, v + 1);
            proof {
                assert(ids@ == old_ids && sources@ == old_sources && targets@ == old_targets);
                assert(visits@.len() == old_visits.len());
                assert forall|j: int| 0 <= j < ids.len() implies #[trigger] m2.contains_key(ids@[j]@) && m2[ids@[j]@] == LinkModel {
                    source: sources@[j]@,
                    target: targets@[j]@,
                    visits: visits@[j] as nat,
                } by {
                    if j != i {
                        assert(ids@[j]@ != ids@[i as int]@);
                        assert(visits@[j] == old_visits[j]);
                    } else {
                        assert(m[old_ids[j]@] == LinkModel { source: old_sources[j]@, target: old_targets[j]@, visits: old_visits[j] as nat });
                    }
                }
                assert forall|k: Seq<char>| #[trigger] m2.contains_key(k) implies exists|j: int| 0 <= j < ids.len() && ids@[j]@ == k by {
                    if k != inv@ {
                        assert(m.contains_key(k));
                    } else {
                        assert(ids@[i as int]@ == k);
                    }
                }
            }
        },
        None => {
            assert(!m.contains_key(inv@)) by {
                if m.contains_key(inv@) {
                    let j = choose|j: int| 0 <= j < ids.len() && ids@[j]@ == inv@;
                }
            }
            match found_id {
                Some(i) => {
                    assert(m.contains_key(id@));
                    let v = visits[i];
                    assert(v <= ps.len());
                    visits.set(i, v + 1);
                    proof {
                        assert(ids@ == old_ids && sources@ == old_sources && targets@ == old_targets);
                        assert(visits@.len() == old_visits.len());
                        assert forall|j: int| 0 <= j < ids.len() implies #[trigger] m2.contains_key(ids@[j]@) && m2[ids@[j]@] == LinkModel {
                            source: sources@[j]@,
                            target: targets@[j]@,
                            visits: visits@[j] as nat,
                        } by {
                            if j != i {
                                assert(ids@[j]@ != ids@[i as int]@);
                                assert(visits@[j] == old_visits[j]);
                            } else {
                                assert(m[old_ids[j]@] == LinkModel { source: old_sources[j]@, target: old_targets[j]@, visits: old_visits[j] as nat });
                            }
                        }
                        assert forall|k: Seq<char>| #[trigger] m2.contains_key(k) implies exists|j: int| 0 <= j < ids.len() && ids@[j]@ == k by {
                            if k != id@ {
                                assert(m.contains_key(k));
                            } else {
                                assert(ids@[i as int]@ == k);
                            }
                        }
                    }
                },
                None => {
                    assert(!m.contains_key(id@)) by {
                        if m.contains_key(id@) {
                            let j = choose|j: int| 0 <= j < ids.len() && ids@[j]@ == id@;
                        }
                    }
                    ids.push(id);
                    sources.push(copy_chars(n));
                    targets.push(copy_chars(c));
                    visits.push(1);
                    proof {
                        let last = ids.len() - 1;
                        assert forall|a: int, b: int| 0 <= a < b < ids.len() implies ids@[a]@ != ids@[b]@ by {
                            if b == last {
                                assert(ids@[a] == old_ids[a]);
                            } else {
                                assert(ids@[a] == old_ids[a] && ids@[b] == old_ids[b]);
                            }
                        }
                        assert forall|j: int| 0 <= j < ids.len() implies #[trigger] m2.contains_key(ids@[j]@) && m2[ids@[j]@] == LinkModel {
                            source: sources@[j]@,
                            target: targets@[j]@,
                            visits: visits@[j] as nat,
                        } by {
                            if j < last {
                                assert(ids@[j] == old_ids[j] && sources@[j] == old_sources[j]);
                                assert(targets@[j] == old_targets[j] && visits@[j] == old_visits[j]);
                                assert(old_ids[j]@ != id@);
                            }
                        }
                        assert forall|k: Seq<char>| #[trigger] m2.contains_key(k) implies exists|j: int| 0 <= j < ids.len() && ids@[j]@ == k by {
                            if k != id@ {
                                assert(m.contains_key(k));
                                let j = choose|j: int| 0 <= j < old_ids.len() && old_ids[j]@ == k;
                                assert(ids@[j] == old_ids[j]);
                            } else {
                                assert(ids@[last]@ == k);
                            }
                        }
                    }
                },
            }
        },
    }
}


proof fn lemma_total_prefix(conns: Seq<(i32, Vec<String>)>, i: int)
    requires
        0 <= i <= conns.len(),
    ensures
        total_names(conns.subrange(0, i)) <= total_names(conns),
    decreases conns.len() - i,
{
    if i < conns.len() {
        lemma_total_prefix(conns, i + 1);
        assert(conns.subrange(0, i + 1).drop_last() =~= conns.subrange(0, i));
    } else {
        assert(conns.subrange(0, i) =~= conns);
    }
}

/// Whether the people's node lists hold at most `u32::MAX` names in all.
pub fn names_within_limit(conns: &Vec<(i32, Vec<String>)>) -> (b: bool)
    ensures
        b == (total_names(conns@) <= u32::MAX),
{
    let mut total: u64 = 0;
    let mut i: usize = 0;
    while i < conns.len()
        invariant
            i <= conns.len(),
            total == total_names(conns@.subrange(0, i as int)),
            total <= u32::MAX,
        decreases conns.len() - i,
    {
        let len = conns[i].1.len() as u64;
        proof {
            assert(conns@.subrange(0, i + 1).drop_last() =~= conns@.subrange(0, i as int));
            lemma_total_prefix(conns@, i + 1);
        }
        if len > u32::MAX as u64 - total {
            return false;
        }
        total = total + len;
        i = i + 1;
    }
    assert(conns@.subrange(0, i as int) =~= conns@);
    true
}

/// Trims every name of one person.
fn trimmed_list(names: &Vec<String>) -> (t: Vec<Vec<char>>)
    ensures
        t.len() == names.len(),
        forall|i: int| 0 <= i < t.len() ==> #[trigger] t@[i]@ == trimmed_names(names@)[i],
{
    let mut t: Vec<Vec<char>> = Vec::new();
    let mut i: usize = 0;
    while i < names.len()
        invariant
            i <= names.len(),
            t.len() == i,
            forall|j: int| 0 <= j < i ==> #[trigger] t@[j]@ == trimmed_names(names@)[j],
        decreases names.len() - i,
    {
        let s = trim_str(names[i].as_str());
        t.push(chars_of(s.as_str()));
        i = i + 1;
    }
    t
}

/// All sightings of all people, recorded in the order the people and their names come.
fn tally_links(conns: &Vec<(i32, Vec<String>)>) -> (res: (Vec<Vec<char>>, Vec<Vec<char>>, Vec<Vec<char>>, Vec<u64>))
    requires
        total_names(conns@) <= u32::MAX,
    ensures
        represents(res.0@, res.1@, res.2@, res.3@, links_after(all_pairs(conns@))),
{
    let mut ids: Vec<Vec<char>> = Vec::new();
    let mut sources: Vec<Vec<char>> = Vec::new();
    let mut targets: Vec<Vec<char>> = Vec::new();
    let mut visits: Vec<u64> = Vec::new();
    let ghost mut ps: Seq<(Seq<char>, Seq<char>)> = Seq::empty();
    assert(links_after(ps) =~= Map::<Seq<char>, LinkModel>::empty());
    let mut pi: usize = 0;
    while pi < conns.len()
        invariant
            pi <= conns.len(),
            total_names(conns@) <= u32::MAX,
            ps == all_pairs(conns@.subrange(0, pi as int)),
            ps.len() <= total_names(conns@.subrange(0, pi as int)) * total_names(conns@.subrange(0, pi as int)),
            represents(ids@, sources@, targets@, visits@, links_after(ps)),
        decreases conns.len() - pi,
    {
        let t = trimmed_list(&conns[pi].1);
        let ghost tv = trimmed_names(conns@[pi as int].1@);
        let ghost base = ps;
        let ghost tp = total_names(conns@.subrange(0, pi as int));
        let ghost len = t.len() as int;
        proof {
            lemma_total_prefix(conns@, pi + 1);
            assert(conns@.subrange(0, pi + 1).drop_last() =~= conns@.subrange(0, pi as int));
            assert(total_names(conns@.subrange(0, pi + 1)) == tp + len);
            assert(tp * tp + len * len <= (tp + len) * (tp + len)) by (nonlinear_arith)
                requires tp >= 0, len >= 0;
            assert((tp + len) * (tp + len) <= 0xFFFF_FFFFint * 0xFFFF_FFFFint) by (nonlinear_arith)
                requires 0 <= tp + len <= 0xFFFF_FFFF;
            assert(tv.subrange(0, 0) =~= Seq::<Seq<char>>::empty());
            assert(ps =~= base + pairs_of(tv.subrange(0, 0), tv));
        }
        let mut a: usize = 0;
        while a < t.len()
            invariant
                t.len() == len,
                forall|i: int| 0 <= i < t.len() ==> #[trigger] t@[i]@ == tv[i],
                tv.len() == len,
                a <= t.len(),
                ps == base + pairs_of(tv.subrange(0, a as int), tv),
                base.len() <= tp * tp,
                tp * tp + len * len < u64::MAX,
                pairs_of(tv.subrange(0, a as int), tv).len() <= a * len,
                represents(ids@, sources@, targets@, visits@, links_after(ps)),
            decreases t.len() - a,
        {
            let ghost mid = ps;
            proof {
                assert(tv.subrange(0, 0) =~= Seq::<Seq<char>>::empty());
                assert(ps =~= mid + row(tv[a as int], tv.subrange(0, 0)));
            }
            let mut b: usize = 0;
            while b < t.len()
                invariant
                    t.len() == len,
                    forall|i: int| 0 <= i < t.len() ==> #[trigger] t@[i]@ == tv[i],
                    tv.len() == len,
                    a < t.len(),
                    b <= t.len(),
                    ps == mid + row(tv[a as int], tv.subrange(0, b as int)),
                    mid.len() <= tp * tp + a * len,
                    tp * tp + len * len < u64::MAX,
                    row(tv[a as int], tv.subrange(0, b as int)).len() <= b,
                    represents(ids@, sources@, targets@, visits@, links_after(ps)),
                decreases t.len() - b,
            {
                let ghost r0 = row(tv[a as int], tv.subrange(0, b as int));
                proof {
                    assert(tv.subrange(0, b + 1).drop_last() =~= tv.subrange(0, b as int));
                    assert((a + 1) * len == a * len + len) by (nonlinear_arith);
                    assert(a * len + len <= len * len) by (nonlinear_arith)
                        requires a < len;
                }
                if !chars_equal(&t[a], &t[b]) {
                    see(&mut ids, &mut sources, &mut targets, &mut visits, &t[a], &t[b], Ghost(ps));
                    proof {
                        assert(mid + r0.push((tv[a as int], tv[b as int])) =~= ps.push((t@[a as int]@, t@[b as int]@)));
                        ps = ps.push((t@[a as int]@, t@[b as int]@));
                    }
                } else {
                    assert(r0 + Seq::<(Seq<char>, Seq<char>)>::empty() =~= r0);
                }
                b = b + 1;
            }
            proof {
                assert(tv.subrange(0, len) =~= tv);
                assert(tv.subrange(0, a + 1).drop_last() =~= tv.subrange(0, a as int));
                assert(ps =~= base + pairs_of(tv.subrange(0, a + 1), tv));
                assert(a * len + len == (a + 1) * len) by (nonlinear_arith);
            }
            a = a + 1;
        }
        proof {
            assert(tv.subrange(0, len) =~= tv);
            assert(conns@.subrange(0, pi + 1).last() == conns@[pi as int]);
            assert(ps =~= all_pairs(conns@.subrange(0, pi + 1)));
            assert(len * len <= len * len);
            assert(pairs_of(tv, tv).len() <= len * len) by {
                assert(a * len <= len * len) by (nonlinear_arith) requires a <= len;
            }
        }
        pi = pi + 1;
    }
    assert(conns@.subrange(0, conns.len() as int) =~= conns@);
    (ids, sources, targets, visits)
}


/// Whether `ids` is in strictly increasing text order.
pub open spec fn ids_sorted(ids: Seq<Vec<char>>) -> bool {
    forall|a: int, b: int| 0 <= a < b < ids.len() ==> seq_less(ids[a]@, ids[b]@)
}

/// Inserts `id` into the sorted `ids` at its place; returns the place.
fn sorted_insert_place(ids: &Vec<Vec<char>>, id: &Vec<char>) -> (p: usize)
    requires
        ids_sorted(ids@),
        forall|m: int| 0 <= m < ids.len() ==> ids@[m]@ != id@,
    ensures
        p <= ids.len(),
        ids_sorted(ids@.insert(p as int, *id)),
{
    let mut p: usize = 0;
    while p < ids.len() && chars_less(&ids[p], id)
        invariant
            p <= ids.len(),
            forall|m: int| 0 <= m < p ==> seq_less(ids@[m]@, id@),
        decreases ids.len() - p,
    {
        p = p + 1;
    }
    proof {
        if p < ids.len() {
            lemma_less_total(ids@[p as int]@, id@);
        }
        let n = ids@.insert(p as int, *id);
        assert forall|a: int, b: int| 0 <= a < b < n.len() implies seq_less(n[a]@, n[b]@) by {
            if b < p {
            } else if b == p {
            } else if a == p {
                if b - 1 > p {
                    lemma_less_transitive(id@, ids@[p as int]@, ids@[b - 1]@);
                }
            } else if a < p {
                if b - 1 > p {
                    lemma_less_transitive(id@, ids@[p as int]@, ids@[b - 1]@);
                }
                lemma_less_transitive(ids@[a]@, id@, ids@[b - 1]@);
            } else {
            }
        }
    }
    p
}

/// The links in order of their identifiers.
#[verifier::rlimit(60)]
#[verifier::spinoff_prover]
fn order_links(
    ids: &Vec<Vec<char>>,
    sources: &Vec<Vec<char>>,
    targets: &Vec<Vec<char>>,
    visits: &Vec<u64>,
    Ghost(m): Ghost<Map<Seq<char>, LinkModel>>,
) -> (res: (Vec<Vec<char>>, Vec<Vec<char>>, Vec<Vec<char>>, Vec<u64>))
    requires
        represents(ids@, sources@, targets@, visits@, m),
    ensures
        represents(res.0@, res.1@, res.2@, res.3@, m),
        ids_sorted(res.0@),
{
    let mut o_ids: Vec<Vec<char>> = Vec::new();
    let mut o_sources: Vec<Vec<char>> = Vec::new();
    let mut o_targets: Vec<Vec<char>> = Vec::new();
    let mut o_visits: Vec<u64> = Vec::new();
    let ghost mut pos: Seq<int> = Seq::empty();
    let mut n: usize = 0;
    while n < ids.len()
        invariant
            represents(ids@, sources@, targets@, visits@, m),
            n <= ids.len(),
            o_ids.len() == o_sources.len() == o_targets.len() == o_visits.len(),
            forall|a: int, b: int| 0 <= a < b < o_ids.len() ==> o_ids@[a]@ != o_ids@[b]@,
            forall|i: int|
                0 <= i < o_ids.len() ==> #[trigger] m.contains_key(o_ids@[i]@) && m[o_ids@[i]@] == (LinkModel {
                    source: o_sources@[i]@,
                    target: o_targets@[i]@,
                    visits: o_visits@[i] as nat,
                }),
            pos.len() == n,
            forall|k: int| 0 <= k < n ==> 0 <= #[trigger] pos[k] < o_ids.len() && o_ids@[pos[k]]@ == ids@[k]@,
            forall|i: int| #![trigger o_ids@[i]] 0 <= i < o_ids.len() ==> exists|k: int| 0 <= k < n && #[trigger] ids@[k]@ == o_ids@[i]@,
            ids_sorted(o_ids@),
        decreases ids.len() - n,
    {
        let id = copy_chars(&ids[n]);
        let ghost oi = o_ids@;
        let ghost os = o_sources@;
        let ghost ot = o_targets@;
        let ghost ov = o_visits@;
        proof {
            assert forall|q: int| 0 <= q < oi.len() implies oi[q]@ != id@ by {
                let k = choose|k: int| 0 <= k < n && #[trigger] ids@[k]@ == oi[q]@;
            }
        }
        let p = sorted_insert_place(&o_ids, &id);
        o_ids.insert(p, id);
        o_sources.insert(p, copy_chars(&sources[n]));
        o_targets.insert(p, copy_chars(&targets[n]));
        o_visits.insert(p, visits[n]);
        proof {
            assert(m.contains_key(ids@[n as int]@));
            assert forall|a: int, b: int| 0 <= a < b < o_ids.len() implies o_ids@[a]@ != o_ids@[b]@ by {
                lemma_less_total(o_ids@[a]@, o_ids@[b]@);
            }
            assert forall|i: int| 0 <= i < o_ids.len() implies #[trigger] m.contains_key(o_ids@[i]@) && m[o_ids@[i]@] == LinkModel {
                source: o_sources@[i]@,
                target: o_targets@[i]@,
                visits: o_visits@[i] as nat,
            } by {
                if i < p {
                    assert(o_ids@[i] == oi[i] && o_sources@[i] == os[i] && o_targets@[i] == ot[i] && o_visits@[i] == ov[i]);
                } else if i > p {
                    assert(o_ids@[i] == oi[i - 1] && o_sources@[i] == os[i - 1] && o_targets@[i] == ot[i - 1] && o_visits@[i] == ov[i - 1]);
                }
            }
            let new_pos = Seq::new(n as nat + 1, |k: int| if k == n { p as int } else if pos[k] >= p { pos[k] + 1 } else { pos[k] });
            assert forall|k: int| 0 <= k < n + 1 implies 0 <= #[trigger] new_pos[k] < o_ids.len() && o_ids@[new_pos[k]]@ == ids@[k]@ by {
                if k < n {
                    if pos[k] >= p {
                        assert(o_ids@[pos[k] + 1] == oi[pos[k]]);
                    } else {
                        assert(o_ids@[pos[k]] == oi[pos[k]]);
                    }
                }
            }
            assert forall|i: int| #![trigger o_ids@[i]] 0 <= i < o_ids.len() implies exists|k: int| 0 <= k < n + 1 && #[trigger] ids@[k]@ == o_ids@[i]@ by {
                if i < p {
                    assert(o_ids@[i] == oi[i]);
                } else if i == p {
                    assert(ids@[n as int]@ == o_ids@[i]@);
                } else {
                    assert(o_ids@[i] == oi[i - 1]);
                }
            }
            pos = new_pos;
        }
        n = n + 1;
    }
    proof {
        assert forall|k: Seq<char>| #[trigger] m.contains_key(k) implies exists|i: int| 0 <= i < o_ids.len() && o_ids@[i]@ == k by {
            let j = choose|j: int| 0 <= j < ids.len() && ids@[j]@ == k;
            assert(o_ids@[pos[j]]@ == k);
        }
    }
    (o_ids, o_sources, o_targets, o_visits)
}

/// The links that the people's node lists make.
pub open spec fn node_graph_links(conns: Seq<(i32, Vec<String>)>) -> Map<Seq<char>, LinkModel> {
    links_after(all_pairs(conns))
}

/// Whether `l` is the link of `m` under its identifier.
pub open spec fn shows_link(m: Map<Seq<char>, LinkModel>, l: NodeLink) -> bool {
    &&& m.contains_key(l.id@)
    &&& m[l.id@] == LinkModel { source: l.source@, target: l.target@, visits: l.visits as nat }
}

/// Whether the text of `l` is one empty line.
pub open spec fn blank_text(l: NodeLink) -> bool {
    l.text@.len() == 1 && l.text@[0]@.len() == 0
}

/// The links of the node graph drawn from `people_connections`, each person's list of
/// node names: every two different (trimmed) names of one person are linked. A link
/// counts every sighting from either end, and the links come in order of identifier.
/// The counts are exact 64-bit counters; at most `u32::MAX` names in all keep the
/// sightings, up to the square of each person's names, below 2^64
/// ([`names_within_limit`] tests the bound).
pub fn node_links(people_connections: &Vec<(i32, Vec<String>)>) -> (r: Vec<NodeLink>)
    requires
        total_names(people_connections@) <= u32::MAX,
    ensures
        forall|i: int| 0 <= i < r.len() ==> shows_link(node_graph_links(people_connections@), #[trigger] r@[i]),
        forall|k: Seq<char>| #[trigger] node_graph_links(people_connections@).contains_key(k) ==> exists|i: int|
            0 <= i < r.len() && r@[i].id@ == k,
        forall|a: int, b: int| 0 <= a < b < r.len() ==> seq_less(r@[a].id@, r@[b].id@),
        forall|i: int| 0 <= i < r.len() ==> blank_text(#[trigger] r@[i]),
{
    let ghost m = links_after(all_pairs(people_connections@));
    let (ids, sources, targets, visits) = tally_links(people_connections);
    let (ids, sources, targets, visits) = order_links(&ids, &sources, &targets, &visits, Ghost(m));
    let mut r: Vec<NodeLink> = Vec::new();
    let mut i: usize = 0;
    while i < ids.len()
        invariant
            represents(ids@, sources@, targets@, visits@, m),
            ids_sorted(ids@),
            i <= ids.len(),
            r.len() == i,
            forall|q: int| 0 <= q < i ==> #[trigger] r@[q].id@ == ids@[q]@ && r@[q].source@ == sources@[q]@
                && r@[q].target@ == targets@[q]@ && r@[q].visits == visits@[q]
                && r@[q].text@.len() == 1 && r@[q].text@[0]@ == Seq::<char>::empty(),
        decreases ids.len() - i,
    {
        let mut text: Vec<String> = Vec::new();
        text.push(String::new());
        let ghost before = r@;
        r.push(NodeLink {
            id: string_of(&ids[i]),
            source: string_of(&sources[i]),
            target: string_of(&targets[i]),
            text,
            visits: visits[i],
        });
        assert forall|q: int| 0 <= q < i + 1 implies #[trigger] r@[q].id@ == ids@[q]@ && r@[q].source@ == sources@[q]@
            && r@[q].target@ == targets@[q]@ && r@[q].visits == visits@[q]
            && r@[q].text@.len() == 1 && r@[q].text@[0]@ == Seq::<char>::empty() by {
            if q < i {
                assert(r@[q] == before[q]);
            }
        }
        i = i + 1;
    }
    proof {
        assert forall|i: int| 0 <= i < r.len() implies shows_link(m, #[trigger] r@[i]) by {
            assert(r@[i].id@ == ids@[i]@);
        }
        assert forall|i: int| 0 <= i < r.len() implies blank_text(#[trigger] r@[i]) by {}
        assert forall|k: Seq<char>| #[trigger] m.contains_key(k) implies exists|i: int| 0 <= i < r.len() && r@[i].id@ == k by {
            let j = choose|j: int| 0 <= j < ids.len() && ids@[j]@ == k;
            assert(r@[j].id@ == ids@[j]@);
        }
        assert forall|a: int, b: int| 0 <= a < b < r.len() implies seq_less(r@[a].id@, r@[b].id@) by {
            assert(r@[a].id@ == ids@[a]@ && r@[b].id@ == ids@[b]@);
        }
    }
    r
}

/// Whether `s` has no dash, so that a link identifier shows where its ends meet.
pub open spec fn dash_free(s: Seq<char>) -> bool {
    !s.contains('-')
}

/// Whether the sighting `p` is of the two nodes `a` and `b`, in either order.
pub open spec fn same_pair(p: (Seq<char>, Seq<char>), a: Seq<char>, b: Seq<char>) -> bool {
    (p.0 == a && p.1 == b) || (p.0 == b && p.1 == a)
}

/// How many of the sightings `ps` are of `a` and `b`, in either order.
pub open spec fn sightings(ps: Seq<(Seq<char>, Seq<char>)>, a: Seq<char>, b: Seq<char>) -> nat
    decreases ps.len(),
{
    if ps.len() == 0 {
        0
    } else {
        sightings(ps.drop_last(), a, b) + (if same_pair(ps.last(), a, b) { 1nat } else { 0nat })
    }
}

/// Whether every sighting of `ps` is of two different, dash-free names.
pub open spec fn clean_pairs(ps: Seq<(Seq<char>, Seq<char>)>) -> bool {
    forall|i: int| 0 <= i < ps.len() ==> {
        &&& dash_free((#[trigger] ps[i]).0)
        &&& dash_free(ps[i].1)
        &&& ps[i].0 != ps[i].1
    }
}

/// Whether the links `m` account for the sightings `ps`: each link is identified by
/// its ends, there is one link per pair of nodes, whichever way round, it counts every
/// sighting of its pair, and pairs without a link were never seen.
pub open spec fn accounts_for(m: Map<Seq<char>, LinkModel>, ps: Seq<(Seq<char>, Seq<char>)>) -> bool {
    &&& forall|k: Seq<char>| #[trigger] m.contains_key(k) ==> {
        &&& k == link_id(m[k].source, m[k].target)
        &&& dash_free(m[k].source)
        &&& dash_free(m[k].target)
        &&& m[k].source != m[k].target
        &&& !m.contains_key(link_id(m[k].target, m[k].source))
        &&& m[k].visits == sightings(ps, m[k].source, m[k].target)
    }
    &&& forall|a: Seq<char>, b: Seq<char>|
        dash_free(a) && dash_free(b) && !m.contains_key(link_id(a, b)) && !m.contains_key(link_id(b, a))
            ==> #[trigger] sightings(ps, a, b) == 0
}

/// Between dash-free names, a link identifier determines its two ends.
pub proof fn lemma_link_id_injective(a: Seq<char>, b: Seq<char>, c: Seq<char>, d: Seq<char>)
    requires
        dash_free(a),
        dash_free(c),
        link_id(a, b) == link_id(c, d),
    ensures
        a == c,
        b == d,
{
    let x = link_id(a, b);
    assert(x[a.len() as int] == '-');
    assert(x == link_id(c, d));
    if a.len() < c.len() {
        assert(link_id(c, d)[a.len() as int] == c[a.len() as int]);
        assert(c.contains('-'));
    } else if c.len() < a.len() {
        assert(link_id(a, b)[c.len() as int] == a[c.len() as int]);
        assert(link_id(c, d)[c.len() as int] == '-');
        assert(a.contains('-'));
    }
    assert(a =~= x.subrange(0, a.len() as int));
    assert(c =~= link_id(c, d).subrange(0, c.len() as int));
    assert(b =~= x.subrange(a.len() as int + 1, x.len() as int));
    assert(d =~= link_id(c, d).subrange(c.len() as int + 1, x.len() as int));
}

/// One more sighting counts once more for its own pair and for no other.
proof fn lemma_sightings_push(ps: Seq<(Seq<char>, Seq<char>)>, p: (Seq<char>, Seq<char>), a: Seq<char>, b: Seq<char>)
    ensures
        sightings(ps.push(p), a, b) == sightings(ps, a, b) + (if same_pair(p, a, b) { 1nat } else { 0nat }),
{
    assert(ps.push(p).drop_last() =~= ps);
}

/// One sighting keeps the links accounting for the sightings.
proof fn lemma_sighting_step(m: Map<Seq<char>, LinkModel>, ps: Seq<(Seq<char>, Seq<char>)>, p: (Seq<char>, Seq<char>))
    requires
        accounts_for(m, ps),
        dash_free(p.0),
        dash_free(p.1),
        p.0 != p.1,
    ensures
        accounts_for(sighting(m, p), ps.push(p)),
{
    let n = p.0;
    let c = p.1;
    let id = link_id(n, c);
    let inv = link_id(c, n);
    let m2 = sighting(m, p);
    let ps2 = ps.push(p);
    assert(id != inv) by {
        if id == inv {
            lemma_link_id_injective(n, c, c, n);
        }
    }
    if m.contains_key(inv) {
        lemma_link_id_injective(m[inv].source, m[inv].target, c, n);
    }
    if !m.contains_key(inv) && m.contains_key(id) {
        lemma_link_id_injective(m[id].source, m[id].target, n, c);
    }
    // A link of `m` whose pair is the sighted one is under `id` or `inv`.
    assert forall|k: Seq<char>| #[trigger] m.contains_key(k) && same_pair(p, m[k].source, m[k].target) implies k == id || k == inv by {
    }
    assert forall|k: Seq<char>| #[trigger] m2.contains_key(k) implies {
        &&& k == link_id(m2[k].source, m2[k].target)
        &&& dash_free(m2[k].source)
        &&& dash_free(m2[k].target)
        &&& m2[k].source != m2[k].target
        &&& !m2.contains_key(link_id(m2[k].target, m2[k].source))
        &&& m2[k].visits == sightings(ps2, m2[k].source, m2[k].target)
    } by {
        lemma_sightings_push(ps, p, m2[k].source, m2[k].target);
        if m.contains_key(k) {
            let s0 = m[k].source;
            let t0 = m[k].target;
            if m2.contains_key(link_id(t0, s0)) && !m.contains_key(link_id(t0, s0)) {
                // only a new link can be the reverse one: it is `id`
                lemma_link_id_injective(t0, s0, n, c);
            }
        } else {
            lemma_sightings_push(ps, p, n, c);
        }
    }
    assert forall|a: Seq<char>, b: Seq<char>|
        dash_free(a) && dash_free(b) && !m2.contains_key(link_id(a, b)) && !m2.contains_key(link_id(b, a))
            implies #[trigger] sightings(ps2, a, b) == 0 by {
        lemma_sightings_push(ps, p, a, b);
        assert(!m.contains_key(link_id(a, b)) && !m.contains_key(link_id(b, a)));
    }
}

/// The links made by clean sightings account for them: between two dash-free nodes,
/// the link counts every time one was seen with the other, from either side.
pub proof fn lemma_links_account(ps: Seq<(Seq<char>, Seq<char>)>)
    requires
        clean_pairs(ps),
    ensures
        accounts_for(links_after(ps), ps),
    decreases ps.len(),
{
    if ps.len() == 0 {
        assert(links_after(ps) =~= Map::<Seq<char>, LinkModel>::empty());
    } else {
        let init = ps.drop_last();
        assert forall|i: int| 0 <= i < init.len() implies {
            &&& dash_free((#[trigger] init[i]).0)
            &&& dash_free(init[i].1)
            &&& init[i].0 != init[i].1
        } by {
            assert(init[i] == ps[i]);
        }
        lemma_links_account(init);
        assert(ps[ps.len() - 1] == ps.last());
        lemma_sighting_step(links_after(init), init, ps.last());
        assert(init.push(ps.last()) =~= ps);
    }
}

/// Whether every name of `ns` is dash-free.
pub open spec fn all_dash_free(ns: Seq<Seq<char>>) -> bool {
    forall|i: int| 0 <= i < ns.len() ==> dash_free(#[trigger] ns[i])
}

proof fn lemma_clean_concat(a: Seq<(Seq<char>, Seq<char>)>, b: Seq<(Seq<char>, Seq<char>)>)
    requires
        clean_pairs(a),
        clean_pairs(b),
    ensures
        clean_pairs(a + b),
{
    assert forall|i: int| 0 <= i < (a + b).len() implies {
        &&& dash_free((#[trigger] (a + b)[i]).0)
        &&& dash_free((a + b)[i].1)
        &&& (a + b)[i].0 != (a + b)[i].1
    } by {
        if i < a.len() {
            assert((a + b)[i] == a[i]);
        } else {
            assert((a + b)[i] == b[i - a.len()]);
        }
    }
}

proof fn lemma_row_clean(n: Seq<char>, all: Seq<Seq<char>>)
    requires
        dash_free(n),
        all_dash_free(all),
    ensures
        clean_pairs(row(n, all)),
    decreases all.len(),
{
    if all.len() > 0 {
        let init = all.drop_last();
        assert forall|i: int| 0 <= i < init.len() implies dash_free(#[trigger] init[i]) by {
            assert(init[i] == all[i]);
        }
        lemma_row_clean(n, init);
        assert(dash_free(all[all.len() - 1]));
        let tail: Seq<(Seq<char>, Seq<char>)> = if all.last() != n { seq![(n, all.last())] } else { Seq::empty() };
        assert(clean_pairs(tail));
        lemma_clean_concat(row(n, init), tail);
    }
}

proof fn lemma_pairs_clean(ns: Seq<Seq<char>>, all: Seq<Seq<char>>)
    requires
        all_dash_free(ns),
        all_dash_free(all),
    ensures
        clean_pairs(pairs_of(ns, all)),
    decreases ns.len(),
{
    if ns.len() > 0 {
        let init = ns.drop_last();
        assert forall|i: int| 0 <= i < init.len() implies dash_free(#[trigger] init[i]) by {
            assert(init[i] == ns[i]);
        }
        lemma_pairs_clean(init, all);
        assert(dash_free(ns[ns.len() - 1]));
        lemma_row_clean(ns.last(), all);
        lemma_clean_concat(pairs_of(init, all), row(ns.last(), all));
    }
}

/// Whether every node name of every person, trimmed, is dash-free.
pub open spec fn names_dash_free(conns: Seq<(i32, Vec<String>)>) -> bool {
    forall|i: int| 0 <= i < conns.len() ==> all_dash_free(trimmed_names(#[trigger] conns[i].1@))
}

proof fn lemma_all_pairs_clean(conns: Seq<(i32, Vec<String>)>)
    requires
        names_dash_free(conns),
    ensures
        clean_pairs(all_pairs(conns)),
    decreases conns.len(),
{
    if conns.len() > 0 {
        let init = conns.drop_last();
        assert forall|i: int| 0 <= i < init.len() implies all_dash_free(trimmed_names(#[trigger] init[i].1@)) by {
            assert(init[i] == conns[i]);
        }
        lemma_all_pairs_clean(init);
        assert(all_dash_free(trimmed_names(conns[conns.len() - 1].1@)));
        let t = trimmed_names(conns.last().1@);
        lemma_pairs_clean(t, t);
        lemma_clean_concat(all_pairs(init), pairs_of(t, t));
    }
}

/// The weights of the node graph: when no node name holds a dash, each pair of nodes
/// that people share has one link, whichever way round, and it counts every time a
/// person has both, once from each side; pairs that nobody shares have no link.
pub proof fn lemma_node_links_account(conns: Seq<(i32, Vec<String>)>)
    requires
        names_dash_free(conns),
    ensures
        accounts_for(node_graph_links(conns), all_pairs(conns)),
{
    lemma_all_pairs_clean(conns);
    lemma_links_account(all_pairs(conns));
}

/// Whether every sighting of `ps` is of two different names.
pub open spec fn distinct_pairs(ps: Seq<(Seq<char>, Seq<char>)>) -> bool {
    forall|i: int| 0 <= i < ps.len() ==> (#[trigger] ps[i]).0 != ps[i].1
}

/// Whether every link of `m` is stored under the identifier of its ends, joins two
/// different nodes, and was seen at least once.
pub open spec fn well_formed_links(m: Map<Seq<char>, LinkModel>) -> bool {
    forall|k: Seq<char>| #[trigger] m.contains_key(k) ==> {
        &&& k == link_id(m[k].source, m[k].target)
        &&& m[k].source != m[k].target
        &&& m[k].visits >= 1
    }
}

proof fn lemma_distinct_concat(a: Seq<(Seq<char>, Seq<char>)>, b: Seq<(Seq<char>, Seq<char>)>)
    requires
        distinct_pairs(a),
        distinct_pairs(b),
    ensures
        distinct_pairs(a + b),
{
    assert forall|i: int| 0 <= i < (a + b).len() implies (#[trigger] (a + b)[i]).0 != (a + b)[i].1 by {
        if i < a.len() {
            assert((a + b)[i] == a[i]);
        } else {
            assert((a + b)[i] == b[i - a.len()]);
        }
    }
}

proof fn lemma_row_distinct(n: Seq<char>, all: Seq<Seq<char>>)
    ensures
        distinct_pairs(row(n, all)),
    decreases all.len(),
{
    if all.len() > 0 {
        lemma_row_distinct(n, all.drop_last());
        let tail: Seq<(Seq<char>, Seq<char>)> = if all.last() != n { seq![(n, all.last())] } else { Seq::empty() };
        assert(distinct_pairs(tail));
        lemma_distinct_concat(row(n, all.drop_last()), tail);
    }
}

proof fn lemma_pairs_distinct(ns: Seq<Seq<char>>, all: Seq<Seq<char>>)
    ensures
        distinct_pairs(pairs_of(ns, all)),
    decreases ns.len(),
{
    if ns.len() > 0 {
        lemma_pairs_distinct(ns.drop_last(), all);
        lemma_row_distinct(ns.last(), all);
        lemma_distinct_concat(pairs_of(ns.drop_last(), all), row(ns.last(), all));
    }
}

proof fn lemma_all_pairs_distinct(conns: Seq<(i32, Vec<String>)>)
    ensures
        distinct_pairs(all_pairs(conns)),
    decreases conns.len(),
{
    if conns.len() > 0 {
        lemma_all_pairs_distinct(conns.drop_last());
        let t = trimmed_names(conns.last().1@);
        lemma_pairs_distinct(t, t);
        lemma_distinct_concat(all_pairs(conns.drop_last()), pairs_of(t, t));
    }
}

/// Sightings of different names make well-formed links.
pub proof fn lemma_links_well_formed(ps: Seq<(Seq<char>, Seq<char>)>)
    requires
        distinct_pairs(ps),
    ensures
        well_formed_links(links_after(ps)),
    decreases ps.len(),
{
    if ps.len() == 0 {
        assert(links_after(ps) =~= Map::<Seq<char>, LinkModel>::empty());
    } else {
        let init = ps.drop_last();
        assert forall|i: int| 0 <= i < init.len() implies (#[trigger] init[i]).0 != init[i].1 by {
            assert(init[i] == ps[i]);
        }
        lemma_links_well_formed(init);
        assert(ps[ps.len() - 1] == ps.last());
    }
}

/// Whatever the node names, every link of the node graph is identified by its two ends
/// joined by a dash, joins two different nodes, and was seen at least once.
pub proof fn lemma_node_links_well_formed(conns: Seq<(i32, Vec<String>)>)
    ensures
        well_formed_links(node_graph_links(conns)),
{
    lemma_all_pairs_distinct(conns);
    lemma_links_well_formed(all_pairs(conns));
}

/// Whether the person `p` is counted: everyone, or only the members when given.
pub open spec fn counted(members: Option<Vec<i32>>, p: i32) -> bool {
    match members {
        Some(m) => m@.contains(p),
        None => true,
    }
}

/// The node names that the (person, node name) pairs `rs` give the person `p`, in order.
pub open spec fn names_of(rs: Seq<(i32, String)>, p: i32) -> Seq<Seq<char>>
    decreases rs.len(),
{
    if rs.len() == 0 {
        Seq::empty()
    } else {
        names_of(rs.drop_last(), p) + (if rs.last().0 == p { seq![rs.last().1@] } else { Seq::empty() })
    }
}

/// The texts of a list of strings.
pub open spec fn name_texts(v: Seq<String>) -> Seq<Seq<char>> {
    v.map_values(|s: String| s@)
}

fn copy_names(v: &Vec<String>) -> (r: Vec<String>)
    ensures
        name_texts(r@) == name_texts(v@),
{
    let mut r: Vec<String> = Vec::new();
    let mut i: usize = 0;
    while i < v.len()
        invariant
            i <= v.len(),
            name_texts(r@) == name_texts(v@.subrange(0, i as int)),
        decreases v.len() - i,
    {
        let ghost before = r@;
        r.push(v[i].clone());
        assert(name_texts(r@) =~= name_texts(before).push(v@[i as int]@));
        i = i + 1;
        assert(name_texts(v@.subrange(0, i as int)) =~= name_texts(v@.subrange(0, i - 1)).push(v@[i - 1]@));
    }
    assert(v@.subrange(0, i as int) =~= v@);
    r
}

/// The node names of each person, from the (person, node name) pairs `records`: a
/// person is a key when counted (with `members`, only the members are) and seen at
/// least once, and their names come in the order they were given.
pub fn connections_by_person(records: &Vec<(i32, String)>, members: &Option<Vec<i32>>) -> (r: HashMap<i32, Vec<String>>)
    ensures
        forall|p: i32| #[trigger] r@.contains_key(p) <==> counted(*members, p) && names_of(records@, p).len() > 0,
        forall|p: i32| #[trigger] r@.contains_key(p) ==> name_texts(r@[p]@) == names_of(records@, p),
{
    broadcast use vstd::std_specs::hash::group_hash_axioms;
    let mut m: HashMap<i32, Vec<String>> = HashMap::new();
    let mut i: usize = 0;
    while i < records.len()
        invariant
            i <= records.len(),
            forall|p: i32| #[trigger] m@.contains_key(p) <==> counted(*members, p) && names_of(records@.subrange(0, i as int), p).len() > 0,
            forall|p: i32| #[trigger] m@.contains_key(p) ==> name_texts(m@[p]@) == names_of(records@.subrange(0, i as int), p),
        decreases records.len() - i,
    {
        let p = records[i].0;
        let ghost pre = records@.subrange(0, i as int);
        let ghost post = records@.subrange(0, i + 1);
        assert(post.drop_last() =~= pre);
        assert(post.last() == records@[i as int]);
        let is_counted = match members {
            Some(ms) => {
                let mut found = false;
                let mut j: usize = 0;
                while j < ms.len()
                    invariant
                        j <= ms.len(),
                        found == exists|q: int| 0 <= q < j && ms@[q] == p,
                    decreases ms.len() - j,
                {
                    if ms[j] == p {
                        found = true;
                    }
                    j = j + 1;
                }
                found
            },
            None => true,
        };
        assert(is_counted == counted(*members, p));
        if is_counted {
            let mut names: Vec<String> = match m.get(&p) {
                Some(v) => copy_names(v),
                None => Vec::new(),
            };
            assert(name_texts(names@) == names_of(pre, p)) by {
                if !m@.contains_key(p) {
                    assert(name_texts(names@) =~= Seq::<Seq<char>>::empty());
                }
            }
            let ghost before = names@;
            names.push(records[i].1.clone());
            assert(name_texts(names@) =~= name_texts(before).push(records@[i as int].1@));
            assert(name_texts(names@) =~= names_of(post, p));
            m.insert(p, names);
        }
        assert forall|q: i32| #[trigger] m@.contains_key(q) <==> counted(*members, q) && names_of(post, q).len() > 0 by {
            if q != p {
                assert(names_of(post, q) =~= names_of(pre, q));
            }
        }
        assert forall|q: i32| #[trigger] m@.contains_key(q) implies name_texts(m@[q]@) == names_of(post, q) by {
            if q != p {
                assert(names_of(post, q) =~= names_of(pre, q));
            }
        }
        i = i + 1;
    }
    assert(records@.subrange(0, i as int) =~= records@);
    m
}

/// Whether `r` lists the people's node lists `m`: every person once, with their names.
pub open spec fn lists_connections(r: Seq<(i32, Vec<String>)>, m: Map<i32, Vec<String>>) -> bool {
    &&& r.len() == m.dom().len()
    &&& forall|i: int| 0 <= i < r.len() ==> m.contains_key((#[trigger] r[i]).0) && name_texts(r[i].1@) == name_texts(m[r[i].0]@)
    &&& forall|i: int, j: int| 0 <= i < j < r.len() ==> r[i].0 != r[j].0
    &&& forall|p: i32| #[trigger] m.contains_key(p) ==> exists|i: int| 0 <= i < r.len() && r[i].0 == p
}

/// The people's node lists in the order the map is walked, which std leaves open:
/// every person once, with their names.
pub fn walk_connections(pc: &HashMap<i32, Vec<String>>) -> (r: Vec<(i32, Vec<String>)>)
    ensures
        lists_connections(r@, pc@),
{
    broadcast use vstd::std_specs::hash::group_hash_axioms;
    let mut r: Vec<(i32, Vec<String>)> = Vec::new();
    for e in it: pc.iter()
        invariant
            r.len() == it.index(),
            it.seq().len() == pc@.dom().len(),
            forall|i: int| 0 <= i < it.seq().len() ==> pc@.contains_key(*(#[trigger] it.seq()[i]).0) && pc@[*it.seq()[i].0] == *it.seq()[i].1,
            forall|p: i32| #[trigger] pc@.contains_key(p) ==> it.seq().contains((&p, &pc@[p])),
            it.seq().no_duplicates(),
            forall|j: int| 0 <= j < r.len() ==> (#[trigger] r@[j]).0 == *it.seq()[j].0 && name_texts(r@[j].1@) == name_texts((*it.seq()[j].1)@),
            forall|j: int| 0 <= j < r.len() ==> pc@.contains_key((#[trigger] r@[j]).0) && name_texts(r@[j].1@) == name_texts(pc@[r@[j].0]@),
            forall|i: int, j: int| 0 <= i < j < r.len() ==> r@[i].0 != r@[j].0,
            forall|p: i32| #[trigger] pc@.contains_key(p) && r.len() == it.seq().len() ==> exists|j: int| 0 <= j < r.len() && r@[j].0 == p,
        ensures
            r.len() == pc@.dom().len(),
            forall|j: int| 0 <= j < r.len() ==> pc@.contains_key((#[trigger] r@[j]).0) && name_texts(r@[j].1@) == name_texts(pc@[r@[j].0]@),
            forall|i: int, j: int| 0 <= i < j < r.len() ==> r@[i].0 != r@[j].0,
            forall|p: i32| #[trigger] pc@.contains_key(p) ==> exists|j: int| 0 <= j < r.len() && r@[j].0 == p,
    {
        let names = copy_names(e.1);
        let ghost before = r@;
        let ghost k = r.len() as int;
        proof {
            assert(e == it.seq()[k]);
            assert forall|i: int| 0 <= i < k implies before[i].0 != *e.0 by {
                assert(before[i].0 == *it.seq()[i].0);
                if before[i].0 == *e.0 {
                    assert(*it.seq()[i].1 == pc@[*e.0]);
                    assert(*it.seq()[k].1 == pc@[*e.0]);
                    assert(it.seq()[i] == it.seq()[k]);
                }
            }
        }
        r.push((*e.0, names));
        proof {
            assert forall|p: i32| #[trigger] pc@.contains_key(p) && r.len() == it.seq().len() implies exists|j: int| 0 <= j < r.len() && r@[j].0 == p by {
                let q = choose|q: int| 0 <= q < it.seq().len() && it.seq()[q] == (&p, &pc@[p]);
                assert(r@[q].0 == *it.seq()[q].0);
            }
        }
    }
    r
}

} // verus!
