//! Aggregation of participants' experiences: distinct identifiers and how often each
//! statement was given.

use vstd::prelude::*;

use crate::order::{chars_equal, chars_less, copy_chars, lemma_less_total, lemma_less_transitive, seq_less};
use crate::text::{chars_of, string_of};

verus! {

/// Whether `v` is strictly increasing.
pub open spec fn strictly_increasing(v: Seq<i32>) -> bool {
    forall|i: int, j: int| 0 <= i < j < v.len() ==> v[i] < v[j]
}

/// The values of `v`, each once, in increasing order (`sort` then `dedup`).
pub fn sorted_unique(v: &Vec<i32>) -> (r: Vec<i32>)
    ensures
        strictly_increasing(r@),
        r@.to_set() == v@.to_set(),
{
    let mut r: Vec<i32> = Vec::new();
    let mut i: usize = 0;
    while i < v.len()
        invariant
            i <= v.len(),
            strictly_increasing(r@),
            forall|k: int| 0 <= k < r.len() ==> exists|j: int| 0 <= j < i && v@[j] == #[trigger] r@[k],
            forall|j: int| 0 <= j < i ==> r@.contains(#[trigger] v@[j]),
        decreases v.len() - i,
    {
        let x = v[i];
        let mut p: usize = 0;
        while p < r.len() && r[p] < x
            invariant
                p <= r.len(),
                forall|k: int| 0 <= k < p ==> r@[k] < x,
            decreases r.len() - p,
        {
            p = p + 1;
        }
        if p < r.len() && r[p] == x {
            assert(r@.contains(v@[i as int]));
        } else {
            let ghost old_r = r@;
            r.insert(p, x);
            assert forall|a: int, b: int| 0 <= a < b < r.len() implies r@[a] < r@[b] by {
                if b < p {
                } else if a < p && b == p {
                } else if a < p {
                    assert(old_r[a] < x);
                    assert(x < old_r[p as int] || p == old_r.len());
                } else if a == p {
                    assert(r@[b] == old_r[b - 1]);
                    if b - 1 > p {
                        assert(old_r[p as int] < old_r[b - 1]);
                    }
                } else {
                    assert(r@[a] == old_r[a - 1] && r@[b] == old_r[b - 1]);
                }
            }
            assert forall|k: int| 0 <= k < r.len() implies exists|j: int|
                0 <= j < i + 1 && v@[j] == #[trigger] r@[k] by {
                if k < p {
                    assert(r@[k] == old_r[k]);
                } else if k == p {
                    assert(v@[i as int] == r@[k]);
                } else {
                    assert(r@[k] == old_r[k - 1]);
                }
            }
            assert forall|j: int| 0 <= j < i implies r@.contains(#[trigger] v@[j]) by {
                let k = choose|k: int| 0 <= k < old_r.len() && old_r[k] == v@[j];
                if k < p {
                    assert(r@[k] == v@[j]);
                } else {
                    assert(r@[k + 1] == v@[j]);
                }
            }
            assert(r@[p as int] == x);
        }
        i = i + 1;
    }
    assert(r@.to_set() =~= v@.to_set()) by {
        assert forall|x: i32| r@.to_set().contains(x) implies v@.to_set().contains(x) by {
            let k = choose|k: int| 0 <= k < r.len() && r@[k] == x;
            let j = choose|j: int| 0 <= j < v.len() && v@[j] == r@[k];
        }
        assert forall|x: i32| v@.to_set().contains(x) implies r@.to_set().contains(x) by {
            let j = choose|j: int| 0 <= j < v.len() && v@[j] == x;
        }
    }
    r
}

/// How many entries of `s` equal `x`.
pub open spec fn occurrences(s: Seq<Seq<char>>, x: Seq<char>) -> nat
    decreases s.len(),
{
    if s.len() == 0 {
        0
    } else {
        occurrences(s.drop_last(), x) + (if s.last() == x {
            1nat
        } else {
            0nat
        })
    }
}

/// The character sequences of a list of strings.
pub open spec fn texts_view(v: Seq<String>) -> Seq<Seq<char>> {
    v.map_values(|s: String| s@)
}

/// Whether statement `a` with `ca` mentions ranks before `b` with `cb`: more mentions
/// first, and among equally many, in text order.
pub open spec fn ranks_before(a: Seq<char>, ca: int, b: Seq<char>, cb: int) -> bool {
    ca > cb || (ca == cb && seq_less(a, b))
}

proof fn lemma_occurrences_bound(s: Seq<Seq<char>>, x: Seq<char>)
    ensures
        occurrences(s, x) <= s.len(),
        occurrences(s, x) > 0 <==> s.contains(x),
    decreases s.len(),
{
    if s.len() > 0 {
        lemma_occurrences_bound(s.drop_last(), x);
        if s.drop_last().contains(x) {
            let k = choose|k: int| 0 <= k < s.drop_last().len() && s.drop_last()[k] == x;
            assert(s[k] == x);
        }
        if s.contains(x) && s.last() != x {
            let k = choose|k: int| 0 <= k < s.len() && s[k] == x;
            assert(s.drop_last()[k] == x);
        }
    }
}

/// Whether the statements `keys`, mentioned `counts` times, are listed in rank order.
pub open spec fn ranked(keys: Seq<Vec<char>>, counts: Seq<u32>) -> bool {
    forall|a: int, b: int| 0 <= a < b < keys.len() ==> ranks_before(keys[a]@, counts[a] as int, keys[b]@, counts[b] as int)
}

/// Inserts `key` with `c` mentions into the ranked lists at its place; returns the place.
fn rank_insert(out_keys: &mut Vec<Vec<char>>, out_counts: &mut Vec<u32>, key: Vec<char>, c: u32) -> (p: usize)
    requires
        old(out_keys).len() == old(out_counts).len(),
        ranked(old(out_keys)@, old(out_counts)@),
        forall|m: int| 0 <= m < old(out_keys).len() ==> old(out_keys)@[m]@ != key@,
    ensures
        p <= old(out_keys).len(),
        final(out_keys)@ == old(out_keys)@.insert(p as int, key),
        final(out_counts)@ == old(out_counts)@.insert(p as int, c),
        ranked(final(out_keys)@, final(out_counts)@),
{
    let ghost ok = out_keys@;
    let ghost oc = out_counts@;
    let ghost kv = key@;
    let mut p: usize = 0;
    while p < out_keys.len() && (out_counts[p] > c || (out_counts[p] == c && chars_less(&out_keys[p], &key)))
        invariant
            out_keys@ == ok,
            out_counts@ == oc,
            key@ == kv,
            p <= out_keys.len(),
            out_keys.len() == out_counts.len(),
            forall|m: int| 0 <= m < p ==> ranks_before(ok[m]@, oc[m] as int, kv, c as int),
        decreases out_keys.len() - p,
    {
        p = p + 1;
    }
    proof {
        if p < ok.len() {
            lemma_less_total(ok[p as int]@, kv);
            assert(ranks_before(kv, c as int, ok[p as int]@, oc[p as int] as int));
        }
    }
    out_keys.insert(p, key);
    out_counts.insert(p, c);
    proof {
        assert forall|a: int, b: int| 0 <= a < b < out_keys.len() implies ranks_before(
            out_keys@[a]@,
            out_counts@[a] as int,
            out_keys@[b]@,
            out_counts@[b] as int,
        ) by {
            if b < p {
                assert(out_keys@[a] == ok[a] && out_keys@[b] == ok[b]);
            } else if b == p {
                assert(out_keys@[a] == ok[a]);
            } else if a == p {
                assert(out_keys@[b] == ok[b - 1] && out_counts@[b] == oc[b - 1]);
                if b - 1 > p {
                    assert(ranks_before(ok[p as int]@, oc[p as int] as int, ok[b - 1]@, oc[b - 1] as int));
                    if c as int == oc[p as int] && oc[p as int] == oc[b - 1] {
                        lemma_less_transitive(kv, ok[p as int]@, ok[b - 1]@);
                    }
                }
            } else if a < p {
                assert(out_keys@[a] == ok[a] && out_keys@[b] == ok[b - 1] && out_counts@[b] == oc[b - 1]);
                assert(ranks_before(ok[a]@, oc[a] as int, kv, c as int));
                assert(ranks_before(kv, c as int, ok[p as int]@, oc[p as int] as int));
                if b - 1 > p {
                    assert(ranks_before(ok[p as int]@, oc[p as int] as int, ok[b - 1]@, oc[b - 1] as int));
                    if c as int == oc[p as int] && oc[p as int] == oc[b - 1] {
                        lemma_less_transitive(kv, ok[p as int]@, ok[b - 1]@);
                    }
                }
                if oc[a] == c && c == oc[b - 1] {
                    lemma_less_transitive(ok[a]@, kv, ok[b - 1]@);
                }
            } else {
                assert(out_keys@[a] == ok[a - 1] && out_keys@[b] == ok[b - 1]);
                assert(out_counts@[a] == oc[a - 1] && out_counts@[b] == oc[b - 1]);
            }
        }
    }
    p
}

/// The distinct texts of `texts` in order of first occurrence, with how often each
/// occurs; with, as a ghost value, which distinct text each entry of `texts` is.
fn tally(texts: &Vec<String>) -> (res: (Vec<Vec<char>>, Vec<u32>, Ghost<Seq<int>>))
    requires
        texts.len() <= u32::MAX,
    ensures
        res.0.len() == res.1.len(),
        forall|k: int| 0 <= k < res.0.len() ==> res.1@[k] == occurrences(texts_view(texts@), #[trigger] res.0@[k]@),
        forall|k: int| 0 <= k < res.0.len() ==> texts_view(texts@).contains(#[trigger] res.0@[k]@),
        forall|a: int, b: int| 0 <= a < b < res.0.len() ==> res.0@[a]@ != res.0@[b]@,
        res.2@.len() == texts.len(),
        forall|j: int| 0 <= j < texts.len() ==> 0 <= #[trigger] res.2@[j] < res.0.len() && res.0@[res.2@[j]]@ == texts_view(texts@)[j],
{
    let ghost tv = texts_view(texts@);
    let mut keys: Vec<Vec<char>> = Vec::new();
    let mut counts: Vec<u32> = Vec::new();
    let ghost mut wh: Seq<int> = Seq::empty();
    let mut i: usize = 0;
    while i < texts.len()
        invariant
            tv == texts_view(texts@),
            texts.len() <= u32::MAX,
            i <= texts.len(),
            keys.len() == counts.len(),
            forall|k: int| 0 <= k < keys.len() ==> counts@[k] == occurrences(tv.subrange(0, i as int), #[trigger] keys@[k]@),
            forall|k: int| 0 <= k < keys.len() ==> tv.subrange(0, i as int).contains(#[trigger] keys@[k]@),
            forall|a: int, b: int| 0 <= a < b < keys.len() ==> keys@[a]@ != keys@[b]@,
            wh.len() == i,
            forall|j: int| 0 <= j < i ==> 0 <= #[trigger] wh[j] < keys.len() && keys@[wh[j]]@ == tv[j],
        decreases texts.len() - i,
    {
        let t = chars_of(texts[i].as_str());
        let ghost pre = tv.subrange(0, i as int);
        let ghost post = tv.subrange(0, i + 1);
        assert(post.drop_last() =~= pre);
        assert(post.last() == t@);
        let ghost keys_before = keys@;
        let mut k: usize = 0;
        let mut found = false;
        while k < keys.len() && !found
            invariant
                k <= keys.len(),
                !found ==> forall|m: int| 0 <= m < k ==> keys@[m]@ != t@,
                found ==> k < keys.len() && keys@[k as int]@ == t@,
            decreases keys.len() - k + (if found { 0int } else { 1int }),
        {
            if chars_equal(&keys[k], &t) {
                found = true;
            } else {
                k = k + 1;
            }
        }
        proof {
            assert forall|m: int| 0 <= m < keys.len() && keys@[m]@ != t@ implies occurrences(
                post,
                #[trigger] keys@[m]@,
            ) == occurrences(pre, keys@[m]@) by {}
            lemma_occurrences_bound(pre, t@);
            lemma_occurrences_bound(post, t@);
        }
        if found {
            let c = counts[k];
            assert(c == occurrences(pre, t@));
            counts.set(k, c + 1);
            assert forall|m: int| 0 <= m < keys.len() implies post.contains(#[trigger] keys@[m]@) by {
                let w = choose|w: int| 0 <= w < pre.len() && pre[w] == keys@[m]@;
                assert(post[w] == keys@[m]@);
            }
            proof {
                wh = wh.push(k as int);
            }
        } else {
            assert(!pre.contains(t@)) by {
                if pre.contains(t@) {
                    let w = choose|w: int| 0 <= w < pre.len() && pre[w] == t@;
                    assert(keys@[wh[w]]@ == tv[w]);
                }
            }
            keys.push(t);
            counts.push(1);
            assert forall|m: int| 0 <= m < keys.len() implies post.contains(#[trigger] keys@[m]@) by {
                if m < keys_before.len() {
                    let w = choose|w: int| 0 <= w < pre.len() && pre[w] == keys@[m]@;
                    assert(post[w] == keys@[m]@);
                } else {
                    assert(post[i as int] == keys@[m]@);
                }
            }
            proof {
                wh = wh.push(keys.len() - 1);
            }
        }
        assert forall|j: int| 0 <= j < i + 1 implies 0 <= #[trigger] wh[j] < keys.len() && keys@[wh[j]]@ == tv[j] by {
            if j < i {
                assert(keys@[wh[j]] == keys_before[wh[j]]);
            }
        }
        i = i + 1;
    }
    assert(tv.subrange(0, texts.len() as int) =~= tv);
    (keys, counts, Ghost(wh))
}

/// `keys` (all different), with their `counts`, listed in rank order; with, as ghost
/// values, where each output entry comes from and where each input entry went.
#[verifier::rlimit(60)]
fn rank(keys: &Vec<Vec<char>>, counts: &Vec<u32>) -> (res: (Vec<Vec<char>>, Vec<u32>, Ghost<Seq<int>>, Ghost<Seq<int>>))
    requires
        keys.len() == counts.len(),
        forall|a: int, b: int| 0 <= a < b < keys.len() ==> keys@[a]@ != keys@[b]@,
    ensures
        res.0.len() == res.1.len(),
        ranked(res.0@, res.1@),
        res.2@.len() == res.0.len(),
        forall|m: int| 0 <= m < res.0.len() ==> 0 <= #[trigger] res.2@[m] < keys.len() && keys@[res.2@[m]]@ == res.0@[m]@ && counts@[res.2@[m]] == res.1@[m],
        res.3@.len() == keys.len(),
        forall|k: int| 0 <= k < keys.len() ==> 0 <= #[trigger] res.3@[k] < res.0.len() && res.0@[res.3@[k]]@ == keys@[k]@,
{
    let mut out_keys: Vec<Vec<char>> = Vec::new();
    let mut out_counts: Vec<u32> = Vec::new();
    let ghost mut origin: Seq<int> = Seq::empty();
    let ghost mut pos: Seq<int> = Seq::empty();
    let mut n: usize = 0;
    while n < keys.len()
        invariant
            keys.len() == counts.len(),
            n <= keys.len(),
            out_keys.len() == out_counts.len(),
            forall|a: int, b: int| 0 <= a < b < keys.len() ==> keys@[a]@ != keys@[b]@,
            origin.len() == out_keys.len(),
            forall|m: int| 0 <= m < out_keys.len() ==> 0 <= #[trigger] origin[m] < n && keys@[origin[m]]@ == out_keys@[m]@ && counts@[origin[m]] == out_counts@[m],
            pos.len() == n,
            forall|k: int| 0 <= k < n ==> 0 <= #[trigger] pos[k] < out_keys.len() && out_keys@[pos[k]]@ == keys@[k]@,
            ranked(out_keys@, out_counts@),
        decreases keys.len() - n,
    {
        let key = copy_chars(&keys[n]);
        let c = counts[n];
        let ghost ok = out_keys@;
        let ghost oc = out_counts@;
        proof {
            assert forall|m: int| 0 <= m < ok.len() implies ok[m]@ != key@ by {
                assert(keys@[origin[m]]@ != keys@[n as int]@);
            }
        }
        let p = rank_insert(&mut out_keys, &mut out_counts, key, c);
        proof {
            let new_origin = origin.insert(p as int, n as int);
            let new_pos = Seq::new(n as nat + 1, |k: int| if k == n { p as int } else if pos[k] >= p { pos[k] + 1 } else { pos[k] });
            assert forall|m: int| 0 <= m < out_keys.len() implies 0 <= #[trigger] new_origin[m] < n + 1 && keys@[new_origin[m]]@ == out_keys@[m]@ && counts@[new_origin[m]] == out_counts@[m] by {
                if m < p {
                    assert(new_origin[m] == origin[m] && out_keys@[m] == ok[m] && out_counts@[m] == oc[m]);
                } else if m > p {
                    assert(new_origin[m] == origin[m - 1] && out_keys@[m] == ok[m - 1] && out_counts@[m] == oc[m - 1]);
                }
            }
            assert forall|k: int| 0 <= k < n + 1 implies 0 <= #[trigger] new_pos[k] < out_keys.len() && out_keys@[new_pos[k]]@ == keys@[k]@ by {
                if k < n {
                    if pos[k] >= p {
                        assert(out_keys@[pos[k] + 1] == ok[pos[k]]);
                    } else {
                        assert(out_keys@[pos[k]] == ok[pos[k]]);
                    }
                }
            }
            origin = new_origin;
            pos = new_pos;
        }
        n = n + 1;
    }
    (out_keys, out_counts, Ghost(origin), Ghost(pos))
}

/// The statement texts of a frequency distribution.
pub open spec fn statements_of(r: Seq<(String, u32)>) -> Seq<Seq<char>> {
    r.map_values(|e: (String, u32)| e.0@)
}

/// The sum of the counts of a frequency distribution.
pub open spec fn total_count(r: Seq<(String, u32)>) -> int
    decreases r.len(),
{
    if r.len() == 0 {
        0
    } else {
        total_count(r.drop_last()) + r.last().1
    }
}

/// How many entries of `s` are counted when counting, for each of `keys`, its
/// occurrences in `s`.
spec fn sum_occurrences(keys: Seq<Seq<char>>, s: Seq<Seq<char>>) -> nat
    decreases keys.len(),
{
    if keys.len() == 0 {
        0
    } else {
        sum_occurrences(keys.drop_last(), s) + occurrences(s, keys.last())
    }
}

proof fn lemma_sum_occurrences_push(keys: Seq<Seq<char>>, s: Seq<Seq<char>>, x: Seq<char>)
    ensures
        sum_occurrences(keys, s.push(x)) == sum_occurrences(keys, s) + occurrences(keys, x),
    decreases keys.len(),
{
    if keys.len() > 0 {
        lemma_sum_occurrences_push(keys.drop_last(), s, x);
        assert(s.push(x).drop_last() =~= s);
    }
}

proof fn lemma_sum_occurrences_empty(keys: Seq<Seq<char>>)
    ensures
        sum_occurrences(keys, Seq::empty()) == 0,
    decreases keys.len(),
{
    if keys.len() > 0 {
        lemma_sum_occurrences_empty(keys.drop_last());
    }
}

/// Counting by keys that each entry of `s` matches exactly once counts all of `s`.
proof fn lemma_sum_occurrences_total(keys: Seq<Seq<char>>, s: Seq<Seq<char>>)
    requires
        forall|i: int| 0 <= i < s.len() ==> occurrences(keys, #[trigger] s[i]) == 1,
    ensures
        sum_occurrences(keys, s) == s.len(),
    decreases s.len(),
{
    if s.len() == 0 {
        lemma_sum_occurrences_empty(keys);
        assert(s =~= Seq::<Seq<char>>::empty());
    } else {
        let init = s.drop_last();
        assert forall|i: int| 0 <= i < init.len() implies occurrences(keys, #[trigger] init[i]) == 1 by {
            assert(init[i] == s[i]);
        }
        lemma_sum_occurrences_total(keys, init);
        assert(occurrences(keys, s[s.len() - 1]) == 1);
        lemma_sum_occurrences_push(keys, init, s.last());
        assert(init.push(s.last()) =~= s);
    }
}

/// A key that is listed once and only once occurs once.
proof fn lemma_occurrences_distinct(keys: Seq<Seq<char>>, x: Seq<char>)
    requires
        forall|i: int, j: int| 0 <= i < j < keys.len() ==> keys[i] != keys[j],
        keys.contains(x),
    ensures
        occurrences(keys, x) == 1,
    decreases keys.len(),
{
    let init = keys.drop_last();
    if keys.last() == x {
        if init.contains(x) {
            let k = choose|k: int| 0 <= k < init.len() && init[k] == x;
            assert(keys[k] == keys[keys.len() - 1]);
        }
        lemma_occurrences_bound(init, x);
    } else {
        let k = choose|k: int| 0 <= k < keys.len() && keys[k] == x;
        assert(init[k] == x);
        lemma_occurrences_distinct(init, x);
    }
}

/// The total of a distribution whose counts are occurrences in `s`.
proof fn lemma_total_is_sum(r: Seq<(String, u32)>, s: Seq<Seq<char>>)
    requires
        forall|i: int| 0 <= i < r.len() ==> (#[trigger] r[i]).1 == occurrences(s, r[i].0@),
    ensures
        total_count(r) == sum_occurrences(statements_of(r), s),
    decreases r.len(),
{
    if r.len() > 0 {
        let init = r.drop_last();
        assert forall|i: int| 0 <= i < init.len() implies (#[trigger] init[i]).1 == occurrences(s, init[i].0@) by {
            assert(init[i] == r[i]);
        }
        lemma_total_is_sum(init, s);
        assert(statements_of(r).drop_last() =~= statements_of(init));
        assert(r[r.len() - 1] == r.last());
    }
}

/// A distribution that lists each distinct text of `s` once, with its occurrences,
/// counts every entry of `s`.
proof fn lemma_distribution_total(r: Seq<(String, u32)>, s: Seq<Seq<char>>)
    requires
        statements_of(r).to_set() == s.to_set(),
        forall|i: int| 0 <= i < r.len() ==> (#[trigger] r[i]).1 == occurrences(s, r[i].0@),
        forall|i: int, j: int| 0 <= i < j < r.len() ==> ranks_before(r[i].0@, r[i].1 as int, r[j].0@, r[j].1 as int),
    ensures
        total_count(r) == s.len(),
{
    let keys = statements_of(r);
    assert forall|i: int, j: int| 0 <= i < j < keys.len() implies keys[i] != keys[j] by {
        assert(keys[i] == r[i].0@ && keys[j] == r[j].0@);
        if keys[i] == keys[j] {
            assert(r[i].1 == occurrences(s, r[i].0@));
            assert(r[j].1 == occurrences(s, r[j].0@));
            assert(ranks_before(r[i].0@, r[i].1 as int, r[j].0@, r[j].1 as int));
            crate::order::lemma_less_irreflexive(keys[i]);
        }
    }
    assert forall|i: int| 0 <= i < s.len() implies occurrences(keys, #[trigger] s[i]) == 1 by {
        assert(s.to_set().contains(s[i]));
        assert(keys.to_set().contains(s[i]));
        lemma_occurrences_distinct(keys, s[i]);
    }
    lemma_sum_occurrences_total(keys, s);
    lemma_total_is_sum(r, s);
}

/// How often each distinct statement text occurs in `texts`, most frequent first and,
/// among equally frequent ones, in text order.
pub fn frequency_distribution(texts: &Vec<String>) -> (r: Vec<(String, u32)>)
    requires
        texts.len() <= u32::MAX,
    ensures
        statements_of(r@).to_set() == texts_view(texts@).to_set(),
        forall|i: int| 0 <= i < r.len() ==> r@[i].1 == occurrences(texts_view(texts@), #[trigger] r@[i].0@),
        forall|i: int, j: int| 0 <= i < j < r.len() ==> ranks_before(r@[i].0@, r@[i].1 as int, r@[j].0@, r@[j].1 as int),
        total_count(r@) == texts.len(),
{
    let ghost tv = texts_view(texts@);
    let (keys, counts, Ghost(wh)) = tally(texts);
    let (out_keys, out_counts, Ghost(origin), Ghost(pos)) = rank(&keys, &counts);
    let mut r: Vec<(String, u32)> = Vec::new();
    let mut m: usize = 0;
    while m < out_keys.len()
        invariant
            out_keys.len() == out_counts.len(),
            m <= out_keys.len(),
            r.len() == m,
            forall|q: int| 0 <= q < m ==> #[trigger] r@[q].0@ == out_keys@[q]@ && r@[q].1 == out_counts@[q],
        decreases out_keys.len() - m,
    {
        let ghost before = r@;
        r.push((string_of(&out_keys[m]), out_counts[m]));
        assert forall|q: int| 0 <= q < m + 1 implies #[trigger] r@[q].0@ == out_keys@[q]@ && r@[q].1 == out_counts@[q] by {
            if q < m {
                assert(r@[q] == before[q]);
            }
        }
        m = m + 1;
    }
    proof {
        let sv = statements_of(r@);
        assert forall|i: int| 0 <= i < r.len() implies r@[i].1 == occurrences(tv, #[trigger] r@[i].0@) by {
            assert(r@[i].0@ == out_keys@[i]@);
            assert(keys@[origin[i]]@ == out_keys@[i]@);
        }
        assert forall|x: Seq<char>| sv.to_set().contains(x) implies tv.to_set().contains(x) by {
            let i = choose|i: int| 0 <= i < sv.len() && sv[i] == x;
            assert(sv[i] == r@[i].0@);
            assert(keys@[origin[i]]@ == out_keys@[i]@);
            assert(tv.contains(keys@[origin[i]]@));
        }
        assert forall|x: Seq<char>| tv.to_set().contains(x) implies sv.to_set().contains(x) by {
            let j = choose|j: int| 0 <= j < tv.len() && tv[j] == x;
            assert(0 <= wh[j] < keys.len());
            let k = wh[j];
            assert(keys@[k]@ == tv[j]);
            let mm = pos[k];
            assert(out_keys@[mm]@ == keys@[k]@);
            assert(sv[mm] == r@[mm].0@);
        }
        assert(sv.to_set() =~= tv.to_set());
        assert forall|i: int, j: int| 0 <= i < j < r.len() implies ranks_before(r@[i].0@, r@[i].1 as int, r@[j].0@, r@[j].1 as int) by {
            assert(r@[i].0@ == out_keys@[i]@ && r@[j].0@ == out_keys@[j]@);
        }
        lemma_distribution_total(r@, tv);
    }
    r
}

} // verus!
