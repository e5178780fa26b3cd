//! Participants' experiences as the graphs and summaries read them, and their
//! aggregation per node.

use vstd::prelude::*;

use crate::aggregate::{frequency_distribution, occurrences, ranks_before, sorted_unique, statements_of, strictly_increasing, texts_view, total_count};

verus! {

/// One recorded experience of one person at one node, with the texts of its node
/// name and statements looked up in the reader's language.
pub struct ExperienceRecord {
    pub id: i32,
    pub person_id: i32,
    pub node_id: i32,
    pub importance: i32,
    /// Phrase identifier of the node name.
    pub name_id: i32,
    /// Text of the node name.
    pub node_name: String,
    pub node_domain: String,
    /// Phrase identifiers of the statements.
    pub statements: Vec<i32>,
    /// Texts of the statements.
    pub statement_texts: Vec<String>,
    pub slug: String,
}

/// What many people's experiences at one node come to: how many there are, their mean
/// scores, and how often each statement was given.
///
/// The mean inclusivity and importance are single-precision floating-point numbers,
/// which the library holds by their bit patterns (`f32::to_bits`): the library compares
/// them and carries them through, and the caller computes and reads them.
pub struct AggregateExperience {
    pub name: String,
    pub domain: String,
    pub count: u32,
    pub mean_inclusivity_bits: u32,
    pub mean_importance_bits: u32,
    pub frequency_distribution: Vec<(String, u32)>,
    pub slug: String,
}

/// The node identifiers of a list of experiences.
pub open spec fn node_ids(es: Seq<ExperienceRecord>) -> Seq<i32> {
    es.map_values(|e: ExperienceRecord| e.node_id)
}

/// The indices of the experiences below `n` at the node `id`, in order.
pub open spec fn indices_at(es: Seq<ExperienceRecord>, id: i32, n: int) -> Seq<usize>
    decreases n,
{
    if n <= 0 {
        Seq::empty()
    } else {
        indices_at(es, id, n - 1) + (if es[n - 1].node_id == id {
            seq![(n - 1) as usize]
        } else {
            Seq::empty()
        })
    }
}

/// The phrase identifiers of all statements of `es`, experience after experience.
pub open spec fn all_statements(es: Seq<ExperienceRecord>) -> Seq<i32>
    decreases es.len(),
{
    if es.len() == 0 {
        Seq::empty()
    } else {
        all_statements(es.drop_last()) + es.last().statements@
    }
}

/// The experiences grouped by node: each node identifier once, in increasing order,
/// with the indices of its experiences in the order they come.
pub fn group_by_node(experiences: &Vec<ExperienceRecord>) -> (groups: Vec<(i32, Vec<usize>)>)
    ensures
        strictly_increasing(groups@.map_values(|g: (i32, Vec<usize>)| g.0)),
        groups@.map_values(|g: (i32, Vec<usize>)| g.0).to_set() == node_ids(experiences@).to_set(),
        forall|k: int| 0 <= k < groups.len() ==> (#[trigger] groups@[k]).1@ == indices_at(experiences@, groups@[k].0, experiences.len() as int),
{
    let mut ids: Vec<i32> = Vec::new();
    let mut i: usize = 0;
    while i < experiences.len()
        invariant
            i <= experiences.len(),
            ids@ == node_ids(experiences@).subrange(0, i as int),
        decreases experiences.len() - i,
    {
        ids.push(experiences[i].node_id);
        i = i + 1;
        assert(node_ids(experiences@).subrange(0, i as int) =~= node_ids(experiences@).subrange(0, i - 1).push(experiences@[i - 1].node_id));
    }
    assert(node_ids(experiences@).subrange(0, i as int) =~= node_ids(experiences@));
    let unique = sorted_unique(&ids);
    let mut groups: Vec<(i32, Vec<usize>)> = Vec::new();
    let mut g: usize = 0;
    while g < unique.len()
        invariant
            g <= unique.len(),
            groups.len() == g,
            forall|k: int| 0 <= k < g ==> (#[trigger] groups@[k]).0 == unique@[k],
            forall|k: int| 0 <= k < g ==> (#[trigger] groups@[k]).1@ == indices_at(experiences@, groups@[k].0, experiences.len() as int),
        decreases unique.len() - g,
    {
        let id = unique[g];
        let mut members: Vec<usize> = Vec::new();
        let mut j: usize = 0;
        while j < experiences.len()
            invariant
                j <= experiences.len(),
                members@ == indices_at(experiences@, id, j as int),
            decreases experiences.len() - j,
        {
            if experiences[j].node_id == id {
                members.push(j);
            }
            j = j + 1;
        }
        let ghost before = groups@;
        groups.push((id, members));
        assert forall|k: int| 0 <= k < g + 1 implies (#[trigger] groups@[k]).0 == unique@[k] by {
            if k < g {
                assert(groups@[k] == before[k]);
            }
        }
        assert forall|k: int| 0 <= k < g + 1 implies (#[trigger] groups@[k]).1@ == indices_at(experiences@, groups@[k].0, experiences.len() as int) by {
            if k < g {
                assert(groups@[k] == before[k]);
            }
        }
        g = g + 1;
    }
    assert(groups@.map_values(|g: (i32, Vec<usize>)| g.0) =~= unique@);
    groups
}

/// The phrase identifiers of all statements of `experiences`, in order (what the
/// statement texts of an aggregate are looked up by).
pub fn statement_phrase_ids(experiences: &Vec<ExperienceRecord>) -> (ids: Vec<i32>)
    ensures
        ids@ == all_statements(experiences@),
{
    let mut ids: Vec<i32> = Vec::new();
    let mut i: usize = 0;
    while i < experiences.len()
        invariant
            i <= experiences.len(),
            ids@ == all_statements(experiences@.subrange(0, i as int)),
        decreases experiences.len() - i,
    {
        let ghost prefix = ids@;
        let st = &experiences[i].statements;
        let mut j: usize = 0;
        while j < st.len()
            invariant
                j <= st.len(),
                ids@ == prefix + st@.subrange(0, j as int),
            decreases st.len() - j,
        {
            ids.push(st[j]);
            j = j + 1;
            assert(prefix + st@.subrange(0, j as int) =~= (prefix + st@.subrange(0, j - 1)).push(st@[j - 1]));
        }
        assert(st@.subrange(0, st.len() as int) =~= st@);
        assert(experiences@.subrange(0, i + 1).drop_last() =~= experiences@.subrange(0, i as int));
        i = i + 1;
    }
    assert(experiences@.subrange(0, i as int) =~= experiences@);
    ids
}

impl AggregateExperience {
    /// Aggregates the experiences of one node: its name, domain and slug are those of
    /// the first experience, the count is how many experiences there are, and the
    /// frequency distribution is over `statement_phrases`, the statement texts that the
    /// lookup of [`statement_phrase_ids`] returned. The means are those the caller
    /// computed of the experiences' scores, given by their bit patterns.
    pub fn from(
        experience_vec: &Vec<ExperienceRecord>,
        statement_phrases: &Vec<String>,
        mean_inclusivity_bits: u32,
        mean_importance_bits: u32,
    ) -> (a: AggregateExperience)
        requires
            experience_vec.len() >= 1,
            experience_vec.len() <= u32::MAX,
            statement_phrases.len() <= u32::MAX,
        ensures
            a.name@ == experience_vec@[0].node_name@,
            a.domain@ == experience_vec@[0].node_domain@,
            a.slug@ == experience_vec@[0].slug@,
            a.count == experience_vec.len(),
            a.mean_inclusivity_bits == mean_inclusivity_bits,
            a.mean_importance_bits == mean_importance_bits,
            statements_of(a.frequency_distribution@).to_set() == texts_view(statement_phrases@).to_set(),
            forall|i: int| 0 <= i < a.frequency_distribution.len() ==> (#[trigger] a.frequency_distribution@[i]).1
                == occurrences(texts_view(statement_phrases@), a.frequency_distribution@[i].0@),
            forall|i: int, j: int| 0 <= i < j < a.frequency_distribution.len() ==> ranks_before(
                a.frequency_distribution@[i].0@,
                a.frequency_distribution@[i].1 as int,
                a.frequency_distribution@[j].0@,
                a.frequency_distribution@[j].1 as int,
            ),
            total_count(a.frequency_distribution@) == statement_phrases.len(),
    {
        let first = &experience_vec[0];
        AggregateExperience {
            name: first.node_name.clone(),
            domain: first.node_domain.clone(),
            count: experience_vec.len() as u32,
            mean_inclusivity_bits,
            mean_importance_bits,
            frequency_distribution: frequency_distribution(statement_phrases),
            slug: first.slug.clone(),
        }
    }
}

/// The experiences grouped by node as [`group_by_node`] groups them, leaving out the
/// node `excluded` (the node a page is about, among the nodes connected to it).
pub fn group_by_node_except(experiences: &Vec<ExperienceRecord>, excluded: i32) -> (groups: Vec<(i32, Vec<usize>)>)
    ensures
        strictly_increasing(groups@.map_values(|g: (i32, Vec<usize>)| g.0)),
        groups@.map_values(|g: (i32, Vec<usize>)| g.0).to_set() == node_ids(experiences@).to_set().remove(excluded),
        forall|k: int| 0 <= k < groups.len() ==> (#[trigger] groups@[k]).1@ == indices_at(experiences@, groups@[k].0, experiences.len() as int),
{
    let mut all = group_by_node(experiences);
    let ghost orig = all@;
    let ghost ids = orig.map_values(|g: (i32, Vec<usize>)| g.0);
    let n = all.len();
    let mut groups: Vec<(i32, Vec<usize>)> = Vec::new();
    let ghost mut pos: Seq<int> = Seq::empty();
    let mut i: usize = 0;
    while i < n
        invariant
            n == orig.len(),
            ids == orig.map_values(|g: (i32, Vec<usize>)| g.0),
            strictly_increasing(ids),
            forall|k: int| 0 <= k < orig.len() ==> (#[trigger] orig[k]).1@ == indices_at(experiences@, orig[k].0, experiences.len() as int),
            i <= n,
            all@ == orig.subrange(i as int, n as int),
            pos.len() == groups.len(),
            forall|k: int| 0 <= k < groups.len() ==> 0 <= #[trigger] pos[k] < i && groups@[k] == orig[pos[k]] && orig[pos[k]].0 != excluded,
            forall|a: int, b: int| 0 <= a < b < groups.len() ==> pos[a] < pos[b],
            forall|j: int| 0 <= j < i && (#[trigger] orig[j]).0 != excluded ==> exists|k: int| 0 <= k < groups.len() && pos[k] == j,
        decreases n - i,
    {
        let g = all.remove(0);
        assert(g == orig[i as int]);
        if g.0 != excluded {
            let ghost before = groups@;
            let ghost old_pos = pos;
            groups.push(g);
            proof {
                pos = pos.push(i as int);
            }
            assert forall|k: int| 0 <= k < groups.len() implies 0 <= #[trigger] pos[k] < i + 1 && groups@[k] == orig[pos[k]] && orig[pos[k]].0 != excluded by {
                if k < before.len() {
                    assert(groups@[k] == before[k]);
                }
            }
            assert forall|j: int| 0 <= j < i + 1 && (#[trigger] orig[j]).0 != excluded implies exists|k: int| 0 <= k < groups.len() && pos[k] == j by {
                if j == i {
                    assert(pos[before.len() as int] == j);
                } else {
                    assert(orig[j].0 != excluded);
                    let k = choose|k: int| 0 <= k < before.len() && old_pos[k] == j;
                    assert(pos[k] == old_pos[k]);
                }
            }
        }
        i = i + 1;
    }
    proof {
        let gi = groups@.map_values(|g: (i32, Vec<usize>)| g.0);
        assert forall|k: int| 0 <= k < groups.len() implies (#[trigger] groups@[k]).1@ == indices_at(experiences@, groups@[k].0, experiences.len() as int) by {
            assert(groups@[k] == orig[pos[k]]);
        }
        assert forall|a: int, b: int| 0 <= a < b < gi.len() implies gi[a] < gi[b] by {
            assert(gi[a] == orig[pos[a]].0 && gi[b] == orig[pos[b]].0);
            assert(ids[pos[a]] == orig[pos[a]].0 && ids[pos[b]] == orig[pos[b]].0);
        }
        assert forall|x: i32| gi.to_set().contains(x) implies node_ids(experiences@).to_set().remove(excluded).contains(x) by {
            let k = choose|k: int| 0 <= k < gi.len() && gi[k] == x;
            assert(ids[pos[k]] == x);
            assert(ids.to_set().contains(x));
        }
        assert forall|x: i32| node_ids(experiences@).to_set().remove(excluded).contains(x) implies gi.to_set().contains(x) by {
            assert(ids.to_set().contains(x));
            let j = choose|j: int| 0 <= j < ids.len() && ids[j] == x;
            assert(orig[j].0 == x);
            let k = choose|k: int| 0 <= k < groups.len() && pos[k] == j;
            assert(gi[k] == x);
        }
        assert(gi.to_set() =~= node_ids(experiences@).to_set().remove(excluded));
    }
    groups
}

/// What many people's lenses on one node come to: how many there are, their mean
/// inclusivity (by its `f32` bit pattern, as in [`AggregateExperience`]) and how often
/// each statement was given.
pub struct AggregateLens {
    pub name: String,
    pub domain: String,
    pub count: u32,
    pub mean_inclusivity_bits: u32,
    pub frequency_distribution: Vec<(String, u32)>,
}

/// The statement texts of all of `es`, experience after experience.
pub open spec fn all_statement_texts(es: Seq<ExperienceRecord>) -> Seq<Seq<char>>
    decreases es.len(),
{
    if es.len() == 0 {
        Seq::empty()
    } else {
        all_statement_texts(es.drop_last()) + texts_view(es.last().statement_texts@)
    }
}

/// The statement texts of all of `es`, in order.
pub fn statement_texts_of(es: &Vec<ExperienceRecord>) -> (v: Vec<String>)
    ensures
        texts_view(v@) == all_statement_texts(es@),
{
    let mut v: Vec<String> = Vec::new();
    let mut i: usize = 0;
    while i < es.len()
        invariant
            i <= es.len(),
            texts_view(v@) == all_statement_texts(es@.subrange(0, i as int)),
        decreases es.len() - i,
    {
        let ghost prefix = texts_view(v@);
        let st = &es[i].statement_texts;
        let mut j: usize = 0;
        while j < st.len()
            invariant
                j <= st.len(),
                texts_view(v@) == prefix + texts_view(st@.subrange(0, j as int)),
            decreases st.len() - j,
        {
            let ghost before = v@;
            v.push(st[j].clone());
            assert(texts_view(v@) =~= texts_view(before).push(st@[j as int]@));
            j = j + 1;
            assert(texts_view(st@.subrange(0, j as int)) =~= texts_view(st@.subrange(0, j - 1)).push(st@[j - 1]@));
        }
        assert(st@.subrange(0, st.len() as int) =~= st@);
        assert(es@.subrange(0, i + 1).drop_last() =~= es@.subrange(0, i as int));
        i = i + 1;
    }
    assert(es@.subrange(0, i as int) =~= es@);
    v
}

impl AggregateLens {
    /// Aggregates the lenses of one node: name and domain of the first, how many there
    /// are, the mean inclusivity the caller computed of them, and how often each
    /// statement was given across them.
    pub fn from(lenses: &Vec<ExperienceRecord>, mean_inclusivity_bits: u32) -> (a: AggregateLens)
        requires
            lenses.len() >= 1,
            lenses.len() <= u32::MAX,
            all_statement_texts(lenses@).len() <= u32::MAX,
        ensures
            a.name@ == lenses@[0].node_name@,
            a.domain@ == lenses@[0].node_domain@,
            a.count == lenses.len(),
            a.mean_inclusivity_bits == mean_inclusivity_bits,
            statements_of(a.frequency_distribution@).to_set() == all_statement_texts(lenses@).to_set(),
            forall|i: int| 0 <= i < a.frequency_distribution.len() ==> (#[trigger] a.frequency_distribution@[i]).1
                == occurrences(all_statement_texts(lenses@), a.frequency_distribution@[i].0@),
            forall|i: int, j: int| 0 <= i < j < a.frequency_distribution.len() ==> ranks_before(
                a.frequency_distribution@[i].0@,
                a.frequency_distribution@[i].1 as int,
                a.frequency_distribution@[j].0@,
                a.frequency_distribution@[j].1 as int,
            ),
            total_count(a.frequency_distribution@) == all_statement_texts(lenses@).len(),
    {
        let texts = statement_texts_of(lenses);
        let first = &lenses[0];
        AggregateLens {
            name: first.node_name.clone(),
            domain: first.node_domain.clone(),
            count: lenses.len() as u32,
            mean_inclusivity_bits,
            frequency_distribution: frequency_distribution(&texts),
        }
    }
}

} // verus!
