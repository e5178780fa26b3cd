//! The statistics a community keeps of its participants: how many members and
//! experiences it has, and the inclusivity score of each experience, from which its
//! page shows the mean.

use std::collections::BTreeMap;

use vstd::prelude::*;

verus! {

broadcast use {vstd::laws_cmp::group_laws_cmp, vstd::std_specs::btree::group_btree_axioms};

/// A community's statistics. Each experience's inclusivity score is a decimal with at
/// most three places, held in thousandths under the experience's identifier; the mean
/// score is computed from these by the caller.
pub struct CommunityStats {
    pub members: i32,
    pub experiences: i32,
    pub inclusivity_map: BTreeMap<i32, i64>,
    pub tags: Vec<String>,
    pub invitations: i32,
}

/// The counts of members and experiences and the scores of a community's statistics.
pub open spec fn tally(s: CommunityStats) -> (int, int, Map<i32, i64>) {
    (s.members as int, s.experiences as int, s.inclusivity_map@)
}

/// A tally after recording the experience `id` with `score`, by a new member or by one
/// already counted.
pub open spec fn recorded(t: (int, int, Map<i32, i64>), id: i32, score: i64, new_member: bool) -> (int, int, Map<i32, i64>) {
    (t.0 + if new_member { 1int } else { 0int }, t.1 + 1, t.2.insert(id, score))
}

/// A tally after removing a member whose experiences are `ids`.
pub open spec fn removed(t: (int, int, Map<i32, i64>), ids: Seq<i32>) -> (int, int, Map<i32, i64>) {
    (t.0 - 1, t.1 - ids.len(), t.2.remove_keys(ids.to_set()))
}

/// A tally after one new member's experiences `entries` (identifier and score) are
/// recorded one after another, the first as the new member's.
pub open spec fn recorded_person(t: (int, int, Map<i32, i64>), entries: Seq<(i32, i64)>) -> (int, int, Map<i32, i64>)
    decreases entries.len(),
{
    if entries.len() == 0 {
        t
    } else {
        recorded(recorded_person(t, entries.drop_last()), entries.last().0, entries.last().1, entries.len() == 1)
    }
}

/// The identifiers of experience entries.
pub open spec fn entry_ids(entries: Seq<(i32, i64)>) -> Seq<i32> {
    entries.map_values(|e: (i32, i64)| e.0)
}

/// The scores `m` after the entries are recorded in order, a later score of an
/// experience replacing an earlier one.
pub open spec fn with_scores(m: Map<i32, i64>, entries: Seq<(i32, i64)>) -> Map<i32, i64>
    decreases entries.len(),
{
    if entries.len() == 0 {
        m
    } else {
        with_scores(m, entries.drop_last()).insert(entries.last().0, entries.last().1)
    }
}

/// The experience entries of several people, person after person.
pub open spec fn all_entries(people: Seq<Vec<(i32, i64)>>) -> Seq<(i32, i64)>
    decreases people.len(),
{
    if people.len() == 0 {
        Seq::empty()
    } else {
        all_entries(people.drop_last()) + people.last()@
    }
}

/// Recording a new member's entries adds one member, as many experiences as there are
/// entries, and their scores.
proof fn lemma_recorded_person(t: (int, int, Map<i32, i64>), entries: Seq<(i32, i64)>)
    requires
        entries.len() >= 1,
    ensures
        recorded_person(t, entries) == (t.0 + 1, t.1 + entries.len(), with_scores(t.2, entries)),
    decreases entries.len(),
{
    let init = entries.drop_last();
    if entries.len() > 1 {
        lemma_recorded_person(t, init);
        assert(recorded_person(t, init) == (t.0 + 1, t.1 + init.len(), with_scores(t.2, init)));
    } else {
        assert(init.len() == 0);
        assert(recorded_person(t, init) == t);
        assert(with_scores(t.2, init) == t.2);
    }
    assert(recorded_person(t, entries) == recorded(recorded_person(t, init), entries.last().0, entries.last().1, entries.len() == 1));
    assert(with_scores(t.2, entries) == with_scores(t.2, init).insert(entries.last().0, entries.last().1));
}

/// The scores after recording entries are those given, with each entry's experience
/// holding the last score given to it.
proof fn lemma_with_scores(m: Map<i32, i64>, entries: Seq<(i32, i64)>)
    ensures
        with_scores(m, entries).dom() == m.dom() + entry_ids(entries).to_set(),
        forall|k: i32| !entry_ids(entries).contains(k) && m.contains_key(k) ==> #[trigger] with_scores(m, entries)[k] == m[k],
    decreases entries.len(),
{
    if entries.len() > 0 {
        let init = entries.drop_last();
        lemma_with_scores(m, init);
        assert(entry_ids(entries) =~= entry_ids(init).push(entries.last().0));
        assert(entry_ids(entries).to_set() =~= entry_ids(init).to_set().insert(entries.last().0)) by {
            assert forall|k: i32| entry_ids(entries).to_set().contains(k) <==> entry_ids(init).to_set().insert(entries.last().0).contains(k) by {
                if entry_ids(entries).contains(k) {
                    let i = choose|i: int| 0 <= i < entry_ids(entries).len() && entry_ids(entries)[i] == k;
                    if i < init.len() {
                        assert(entry_ids(init)[i] == k);
                    }
                }
                if entry_ids(init).contains(k) {
                    let i = choose|i: int| 0 <= i < entry_ids(init).len() && entry_ids(init)[i] == k;
                    assert(entry_ids(entries)[i] == k);
                }
                if k == entries.last().0 {
                    assert(entry_ids(entries)[entries.len() - 1] == k);
                }
            }
        }
        assert(with_scores(m, entries).dom() =~= m.dom() + entry_ids(entries).to_set());
        assert forall|k: i32| !entry_ids(entries).contains(k) && m.contains_key(k) implies #[trigger] with_scores(m, entries)[k] == m[k] by {
            assert(k != entries.last().0) by {
                assert(entry_ids(entries)[entries.len() - 1] == entries.last().0);
            }
            assert(!entry_ids(init).contains(k)) by {
                if entry_ids(init).contains(k) {
                    let i = choose|i: int| 0 <= i < entry_ids(init).len() && entry_ids(init)[i] == k;
                    assert(entry_ids(entries)[i] == k);
                }
            }
        }
    }
}

/// Recording a new member's experiences and then removing that member gives back the
/// tally as it was, when none of the experiences had a score before.
pub proof fn lemma_record_then_remove(t: (int, int, Map<i32, i64>), entries: Seq<(i32, i64)>)
    requires
        entries.len() >= 1,
        forall|i: int| 0 <= i < entries.len() ==> !t.2.contains_key(#[trigger] entries[i].0),
    ensures
        removed(recorded_person(t, entries), entry_ids(entries)) == t,
{
    lemma_recorded_person(t, entries);
    lemma_with_scores(t.2, entries);
    let after = with_scores(t.2, entries);
    let ids = entry_ids(entries);
    assert(after.remove_keys(ids.to_set()) =~= t.2) by {
        assert forall|k: i32| t.2.contains_key(k) implies !ids.to_set().contains(k) by {
            if ids.contains(k) {
                let i = choose|i: int| 0 <= i < ids.len() && ids[i] == k;
                assert(entries[i].0 == k);
            }
        }
        assert forall|k: i32| #[trigger] after.remove_keys(ids.to_set()).contains_key(k) implies t.2.contains_key(k) && after[k] == t.2[k] by {
            assert(!ids.to_set().contains(k));
            assert(!ids.contains(k));
        }
    }
}

/// The entries of the first `i` people and the `i`-th person's come to no more than all
/// entries.
proof fn lemma_all_entries_prefix(people: Seq<Vec<(i32, i64)>>, i: int)
    requires
        0 <= i < people.len(),
    ensures
        all_entries(people.subrange(0, i)).len() + people[i]@.len() <= all_entries(people).len(),
        all_entries(people.subrange(0, i + 1)) == all_entries(people.subrange(0, i)) + people[i]@,
    decreases people.len(),
{
    assert(people.subrange(0, i + 1).drop_last() =~= people.subrange(0, i));
    if i < people.len() - 1 {
        lemma_all_entries_prefix(people.drop_last(), i);
        assert(people.drop_last().subrange(0, i) =~= people.subrange(0, i));
        assert(people.drop_last().subrange(0, i + 1) =~= people.subrange(0, i + 1));
    } else {
        assert(people.drop_last() =~= people.subrange(0, i));
    }
}

/// 10 to the power `n`.
pub open spec fn pow10(n: nat) -> int
    decreases n,
{
    if n == 0 {
        1
    } else {
        10 * pow10((n - 1) as nat)
    }
}

/// The integer part of the decimal `mantissa` × 10^(-`scale`), rounded toward zero.
pub open spec fn integer_part(mantissa: int, scale: int) -> int {
    if scale < 0 {
        mantissa * pow10((-scale) as nat)
    } else if mantissa >= 0 {
        mantissa / pow10(scale as nat)
    } else {
        -((-mantissa) / pow10(scale as nat))
    }
}

/// Powers of ten are positive.
proof fn lemma_pow10_positive(a: nat)
    ensures
        pow10(a) >= 1,
    decreases a,
{
    if a > 0 {
        lemma_pow10_positive((a - 1) as nat);
    }
}

/// Powers of ten are positive, grow with the exponent, and multiply by adding exponents.
proof fn lemma_pow10(a: nat, b: nat)
    ensures
        pow10(a) >= 1,
        a <= b ==> pow10(a) <= pow10(b),
        pow10(a + b) == pow10(a) * pow10(b),
    decreases b,
{
    lemma_pow10_positive(a);
    lemma_pow10_positive(b);
    if b > 0 {
        lemma_pow10(a, (b - 1) as nat);
        assert(pow10(a + b) == 10 * pow10((a + b - 1) as nat));
        assert(pow10(a) * pow10(b) == pow10(a) * (10 * pow10((b - 1) as nat)));
        assert(pow10(a) * (10 * pow10((b - 1) as nat)) == 10 * (pow10(a) * pow10((b - 1) as nat))) by (nonlinear_arith);
        if a <= b && a != b {
            lemma_pow10(a, (b - 1) as nat);
        }
    } else {
        assert(a + b == a);
    }
}

/// The inclusivity score that a survey answer `mantissa` × 10^(-`scale`) is stored as,
/// in hundredths: the answer's integer part, rounded toward zero (an answer of 42.7 is
/// stored as 0.42). `None` where that integer does not fit in 64 bits.
pub fn inclusivity_hundredths(mantissa: i64, scale: i64) -> (r: Option<i64>)
    ensures
        match r {
            Some(h) => h == integer_part(mantissa as int, scale as int),
            None => integer_part(mantissa as int, scale as int) < i64::MIN || integer_part(mantissa as int, scale as int) > i64::MAX,
        },
{
    if scale < 0 {
        let target: i128 = -(scale as i128);
        let mut v: i128 = mantissa as i128;
        let mut k: i128 = 0;
        assert(pow10(0) == 1);
        assert(mantissa * pow10(0) == mantissa) by (nonlinear_arith)
            requires
                pow10(0) == 1;
        assert(v == mantissa * pow10(k as nat));
        while k < target
            invariant
                target == -scale,
                0 <= k <= target,
                v == mantissa * pow10(k as nat),
                i64::MIN <= v <= i64::MAX,
            decreases target - k,
        {
            if v == 0 {
                proof {
                    lemma_pow10(k as nat, (target - k) as nat);
                    assert(mantissa * pow10(target as nat) == (mantissa * pow10(k as nat)) * pow10((target - k) as nat)) by (nonlinear_arith)
                        requires
                            pow10(target as nat) == pow10(k as nat) * pow10((target - k) as nat);
                }
                return Some(0);
            }
            let next: i128 = v * 10;
            proof {
                assert(pow10((k + 1) as nat) == 10 * pow10(k as nat));
                assert(next == mantissa * pow10((k + 1) as nat)) by (nonlinear_arith)
                    requires
                        next == v * 10,
                        v == mantissa * pow10(k as nat),
                        pow10((k + 1) as nat) == 10 * pow10(k as nat);
            }
            if next < i64::MIN as i128 || next > i64::MAX as i128 {
                proof {
                    let rest = (target - k - 1) as nat;
                    lemma_pow10((k + 1) as nat, rest);
                    lemma_pow10(rest, rest);
                    assert(mantissa * pow10(target as nat) == next * pow10(rest)) by (nonlinear_arith)
                        requires
                            next == mantissa * pow10((k + 1) as nat),
                            pow10(target as nat) == pow10((k + 1) as nat) * pow10(rest);
                    let p = pow10(rest);
                    if next > i64::MAX {
                        assert(next * p >= next) by (nonlinear_arith)
                            requires
                                next > 0,
                                p >= 1;
                    } else {
                        assert(next * p <= next) by (nonlinear_arith)
                            requires
                                next < 0,
                                p >= 1;
                    }
                }
                return None;
            }
            v = next;
            k = k + 1;
        }
        Some(v as i64)
    } else {
        let magnitude: u64 = if mantissa < 0 {
            (-(mantissa as i128)) as u64
        } else {
            mantissa as u64
        };
        let ghost whole = magnitude as int;
        let mut m: u64 = magnitude;
        let mut k: i64 = 0;
        proof {
            assert(pow10(0) == 1);
            assert(whole / pow10(0) == whole);
        }
        while k < scale && m != 0
            invariant
                0 <= k <= scale,
                whole >= 0,
                whole == if mantissa < 0 { -mantissa } else { mantissa as int },
                m <= whole,
                m == whole / pow10(k as nat),
            decreases scale - k,
        {
            proof {
                lemma_pow10(k as nat, 1);
                vstd::arithmetic::div_mod::lemma_div_denominator(whole, pow10(k as nat), 10);
                assert(pow10((k + 1) as nat) == pow10(k as nat) * 10);
            }
            m = m / 10;
            k = k + 1;
        }
        proof {
            if k < scale {
                lemma_pow10(k as nat, scale as nat);
                lemma_pow10(0, k as nat);
                vstd::arithmetic::div_mod::lemma_div_is_ordered_by_denominator(whole, pow10(k as nat), pow10(scale as nat));
            }
        }
        if mantissa < 0 {
            Some((-(m as i128)) as i64)
        } else {
            Some(m as i64)
        }
    }
}

/// Whether the score stored for the survey answer `mantissa` × 10^(-`scale`), in
/// thousandths, fits in 64 bits.
pub fn answer_fits(mantissa: i64, scale: i64) -> (b: bool)
    ensures
        b == (i64::MIN <= 10 * integer_part(mantissa as int, scale as int) <= i64::MAX),
{
    match inclusivity_hundredths(mantissa, scale) {
        Some(h) => h.checked_mul(10).is_some(),
        None => false,
    }
}

/// Recording an experience under an identifier that has no score yet keeps the number
/// of experiences equal to the number of scores, when it was before.
pub proof fn lemma_fresh_record_keeps_count(t: (int, int, Map<i32, i64>), id: i32, score: i64, new_member: bool)
    requires
        t.2.dom().finite(),
        t.1 == t.2.len(),
        !t.2.contains_key(id),
    ensures
        recorded(t, id, score, new_member).1 == recorded(t, id, score, new_member).2.len(),
{
}

/// Removing a member whose experiences all have scores, each listed once, keeps the
/// number of experiences equal to the number of scores, when it was before.
pub proof fn lemma_removal_keeps_count(t: (int, int, Map<i32, i64>), ids: Seq<i32>)
    requires
        t.2.dom().finite(),
        t.1 == t.2.len(),
        ids.no_duplicates(),
        forall|i: int| 0 <= i < ids.len() ==> t.2.contains_key(#[trigger] ids[i]),
    ensures
        removed(t, ids).1 == removed(t, ids).2.len(),
    decreases ids.len(),
{
    if ids.len() > 0 {
        let init = ids.drop_last();
        let k = ids.last();
        assert forall|i: int| 0 <= i < init.len() implies t.2.contains_key(#[trigger] init[i]) by {
            assert(init[i] == ids[i]);
        }
        assert(init.no_duplicates()) by {
            assert forall|i: int, j: int| 0 <= i < init.len() && 0 <= j < init.len() && i != j implies init[i] != init[j] by {
                assert(init[i] == ids[i] && init[j] == ids[j]);
            }
        }
        lemma_removal_keeps_count(t, init);
        let m0 = t.2.remove_keys(init.to_set());
        assert(!init.contains(k)) by {
            if init.contains(k) {
                let i = choose|i: int| 0 <= i < init.len() && init[i] == k;
                assert(ids[i] == ids[ids.len() - 1]);
            }
        }
        assert(t.2.contains_key(ids[ids.len() - 1]));
        assert(m0.contains_key(k));
        assert(ids.to_set() =~= init.to_set().insert(k)) by {
            assert(ids =~= init.push(k));
            assert forall|x: i32| ids.to_set().contains(x) <==> init.to_set().insert(k).contains(x) by {
                if ids.contains(x) {
                    let i = choose|i: int| 0 <= i < ids.len() && ids[i] == x;
                    if i < init.len() {
                        assert(init[i] == x);
                    }
                }
                if init.contains(x) {
                    let i = choose|i: int| 0 <= i < init.len() && init[i] == x;
                    assert(ids[i] == x);
                }
                if x == k {
                    assert(ids[ids.len() - 1] == x);
                }
            }
        }
        assert(t.2.remove_keys(ids.to_set()) =~= m0.remove(k));
        assert(m0.dom().subset_of(t.2.dom()));
        vstd::set_lib::lemma_len_subset(m0.dom(), t.2.dom());
        assert(m0.remove(k).dom() =~= m0.dom().remove(k));
    } else {
        assert(t.2.remove_keys(ids.to_set()) =~= t.2);
    }
}

impl CommunityStats {
    /// The statistics of a new community: no members, experiences, scores, tags or
    /// invitations.
    pub fn new() -> (s: CommunityStats)
        ensures
            tally(s) == (0int, 0int, Map::<i32, i64>::empty()),
            s.tags@.len() == 0,
            s.invitations == 0,
    {
        CommunityStats { members: 0, experiences: 0, inclusivity_map: BTreeMap::new(), tags: Vec::new(), invitations: 0 }
    }

    /// Records the experience `experience_id` with its inclusivity score, in
    /// thousandths: one more experience, and one more member if it is a new member's.
    pub fn record_experience(&mut self, experience_id: i32, inclusivity_thousandths: i64, new_member: bool)
        requires
            old(self).experiences < i32::MAX,
            new_member ==> old(self).members < i32::MAX,
        ensures
            tally(*final(self)) == recorded(tally(*old(self)), experience_id, inclusivity_thousandths, new_member),
            !old(self).inclusivity_map@.contains_key(experience_id) ==> final(self).inclusivity_map@.len()
                == old(self).inclusivity_map@.len() + 1,
            final(self).tags@ == old(self).tags@,
            final(self).invitations == old(self).invitations,
    {
        if new_member {
            self.members = self.members + 1;
        }
        self.experiences = self.experiences + 1;
        self.inclusivity_map.insert(experience_id, inclusivity_thousandths);
    }

    /// Records the experience `experience_id` from its survey answer
    /// `mantissa` × 10^(-`scale`): the score stored is the answer's integer part taken
    /// as hundredths ([`inclusivity_hundredths`]), kept here in thousandths, which must
    /// fit in 64 bits ([`answer_fits`] tells).
    pub fn record_answer(&mut self, experience_id: i32, mantissa: i64, scale: i64, new_member: bool)
        requires
            old(self).experiences < i32::MAX,
            new_member ==> old(self).members < i32::MAX,
            i64::MIN <= 10 * integer_part(mantissa as int, scale as int) <= i64::MAX,
        ensures
            tally(*final(self)) == recorded(
                tally(*old(self)),
                experience_id,
                (10 * integer_part(mantissa as int, scale as int)) as i64,
                new_member,
            ),
            !old(self).inclusivity_map@.contains_key(experience_id) ==> final(self).inclusivity_map@.len()
                == old(self).inclusivity_map@.len() + 1,
            final(self).tags@ == old(self).tags@,
            final(self).invitations == old(self).invitations,
    {
        let h = match inclusivity_hundredths(mantissa, scale) {
            Some(h) => h,
            None => 0,
        };
        self.record_experience(experience_id, h * 10, new_member);
    }

    /// Removes a member whose experiences are `experience_ids`: one member fewer, one
    /// experience fewer per identifier, and their scores gone.
    pub fn remove_person(&mut self, experience_ids: &Vec<i32>)
        requires
            old(self).members > i32::MIN,
            old(self).experiences - experience_ids.len() >= i32::MIN,
        ensures
            tally(*final(self)) == removed(tally(*old(self)), experience_ids@),
            final(self).tags@ == old(self).tags@,
            final(self).invitations == old(self).invitations,
    {
        self.members = self.members - 1;
        let ghost m0 = self.inclusivity_map@;
        let ghost e0 = self.experiences as int;
        let ghost tags0 = self.tags@;
        let ghost members1 = self.members;
        let ghost invitations0 = self.invitations;
        let mut i: usize = 0;
        while i < experience_ids.len()
            invariant
                i <= experience_ids.len(),
                self.tags@ == tags0,
                self.members == members1,
                self.invitations == invitations0,
                e0 - experience_ids.len() >= i32::MIN,
                self.experiences == e0 - i,
                self.inclusivity_map@ == m0.remove_keys(experience_ids@.subrange(0, i as int).to_set()),
            decreases experience_ids.len() - i,
        {
            let id = experience_ids[i];
            self.experiences = self.experiences - 1;
            self.inclusivity_map.remove(&id);
            assert(experience_ids@.subrange(0, i + 1).to_set() =~= experience_ids@.subrange(0, i as int).to_set().insert(id)) by {
                assert(experience_ids@.subrange(0, i + 1) =~= experience_ids@.subrange(0, i as int).push(id));
                assert forall|k: i32| experience_ids@.subrange(0, i + 1).to_set().contains(k) <==> experience_ids@.subrange(0, i as int).to_set().insert(id).contains(k) by {
                    let s1 = experience_ids@.subrange(0, i + 1);
                    let s0 = experience_ids@.subrange(0, i as int);
                    if s1.contains(k) {
                        let j = choose|j: int| 0 <= j < s1.len() && s1[j] == k;
                        if j < i {
                            assert(s0[j] == k);
                        }
                    }
                    if s0.contains(k) {
                        let j = choose|j: int| 0 <= j < s0.len() && s0[j] == k;
                        assert(s1[j] == k);
                    }
                    if k == id {
                        assert(s1[i as int] == k);
                    }
                }
            }
            assert(self.inclusivity_map@ =~= m0.remove_keys(experience_ids@.subrange(0, i + 1).to_set()));
            i = i + 1;
        }
        assert(experience_ids@.subrange(0, i as int) =~= experience_ids@);
    }

    /// Takes in people moved from another community, each given by the identifiers and
    /// scores of their experiences: one member per person, one experience per entry, and
    /// their scores recorded in order.
    pub fn receive_people(&mut self, people: &Vec<Vec<(i32, i64)>>)
        requires
            old(self).members + people.len() <= i32::MAX,
            old(self).experiences + all_entries(people@).len() <= i32::MAX,
        ensures
            tally(*final(self)) == (
                old(self).members + people.len(),
                old(self).experiences + all_entries(people@).len(),
                with_scores(old(self).inclusivity_map@, all_entries(people@)),
            ),
            final(self).tags@ == old(self).tags@,
            final(self).invitations == old(self).invitations,
    {
        let ghost m0 = self.inclusivity_map@;
        let ghost e0 = self.experiences as int;
        let ghost p0 = self.members as int;
        let ghost tags0 = self.tags@;
        let ghost invitations0 = self.invitations;
        let mut i: usize = 0;
        while i < people.len()
            invariant
                i <= people.len(),
                self.tags@ == tags0,
                self.invitations == invitations0,
                p0 + people.len() <= i32::MAX,
                e0 + all_entries(people@).len() <= i32::MAX,
                self.members == p0 + i,
                self.experiences == e0 + all_entries(people@.subrange(0, i as int)).len(),
                self.inclusivity_map@ == with_scores(m0, all_entries(people@.subrange(0, i as int))),
            decreases people.len() - i,
        {
            proof {
                lemma_all_entries_prefix(people@, i as int);
            }
            let ghost done = all_entries(people@.subrange(0, i as int));
            self.members = self.members + 1;
            let person = &people[i];
            let mut j: usize = 0;
            while j < person.len()
                invariant
                    j <= person.len(),
                    i < people.len(),
                    person@ == people@[i as int]@,
                    self.tags@ == tags0,
                    self.invitations == invitations0,
                    self.members == p0 + i + 1,
                    e0 + done.len() + person.len() <= i32::MAX,
                    self.experiences == e0 + done.len() + j,
                    self.inclusivity_map@ == with_scores(m0, done + person@.subrange(0, j as int)),
                decreases person.len() - j,
            {
                let (id, score) = person[j];
                self.experiences = self.experiences + 1;
                self.inclusivity_map.insert(id, score);
                assert((done + person@.subrange(0, j + 1)).drop_last() =~= done + person@.subrange(0, j as int));
                j = j + 1;
            }
            assert(person@.subrange(0, j as int) =~= person@);
            i = i + 1;
        }
        assert(people@.subrange(0, i as int) =~= people@);
    }
}

} // verus!
