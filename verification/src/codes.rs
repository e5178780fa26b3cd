//! Access codes handed to participants and communities, and password salts.

use vstd::prelude::*;

use crate::text::{chars_of, string_of};
use rand::Rng;

verus! {

/// Whether `c` is an ASCII letter or digit.
pub open spec fn alphanumeric(c: char) -> bool {
    ('a' <= c && c <= 'z') || ('A' <= c && c <= 'Z') || ('0' <= c && c <= '9')
}

/// rand's `Alphanumeric` distribution, `n` samples from `thread_rng`: each character is
/// drawn from the ASCII letters and digits. Which ones come out is left open.
#[verifier::external_body]
fn random_alphanumeric(n: usize) -> (r: String)
    ensures
        r@.len() == n,
        forall|i: int| 0 <= i < n ==> alphanumeric(#[trigger] r@[i]),
{
    rand::thread_rng().sample_iter(&rand::distributions::Alphanumeric).take(n).collect()
}

/// rand's `Rng::gen_range(0, bound)` on `thread_rng`: some index below `bound`.
#[verifier::external_body]
fn random_below(bound: usize) -> (r: usize)
    requires
        bound > 0,
    ensures
        r < bound,
{
    rand::thread_rng().gen_range(0, bound)
}

/// The number of dashes that grouping puts into a code of `len` characters.
pub open spec fn dash_count(len: nat) -> nat {
    if len == 0 {
        0
    } else {
        ((len + len / 4 - 1) / 4) as nat
    }
}

/// Whether output position `j` holds one of the `d` dashes: every fourth position
/// from the fourth on.
pub open spec fn is_dash_slot(j: int, d: nat) -> bool {
    j % 4 == 0 && 1 <= j / 4 <= d
}

/// The smaller of `a` and `b`.
pub open spec fn min_int(a: int, b: int) -> int {
    if a <= b {
        a
    } else {
        b
    }
}

/// `s` with dashes put in for readability: a first group of four characters, then
/// groups of three, the dashes standing at positions 4, 8, 12, ... of the result.
pub open spec fn dashed(s: Seq<char>) -> Seq<char> {
    let d = dash_count(s.len());
    Seq::new(
        s.len() + d,
        |j: int|
            if is_dash_slot(j, d) {
                '-'
            } else {
                s[j - min_int(d as int, j / 4)]
            },
    )
}

/// Whether `c` is not a dash.
pub open spec fn not_dash(c: char) -> bool {
    c != '-'
}

/// `s` with every `-` taken out.
pub open spec fn without_dashes(s: Seq<char>) -> Seq<char> {
    s.filter(|c: char| not_dash(c))
}

proof fn lemma_dash_bounds(len: nat)
    ensures
        len >= 1 ==> 3 * dash_count(len) <= len - 1,
        len == 0 ==> dash_count(len) == 0,
{
    if len >= 1 {
        let q = len / 4;
        assert(4 * q <= len) by (nonlinear_arith)
            requires
                q == len / 4,
        ;
        let d = dash_count(len);
        assert(4 * d <= len + q - 1) by (nonlinear_arith)
            requires
                d == (len + q - 1) / 4,
                len + q - 1 >= 0,
        ;
    }
}

/// Inserts the readability dashes into a code (see [`dashed`]).
pub fn insert_dashes(s: &Vec<char>) -> (r: Vec<char>)
    requires
        s.len() + s.len() / 4 <= usize::MAX,
        s.len() + dash_count(s.len() as nat) <= usize::MAX,
    ensures
        r@ == dashed(s@),
{
    let len = s.len();
    let d: usize = if len == 0 { 0 } else { (len + len / 4 - 1) / 4 };
    proof {
        lemma_dash_bounds(len as nat);
    }
    assert(d == dash_count(len as nat));
    let total = len + d;
    let mut r: Vec<char> = Vec::new();
    let mut j: usize = 0;
    while j < total
        invariant
            len == s.len(),
            d == dash_count(len as nat),
            len >= 1 ==> 3 * d <= len - 1,
            total == len + d,
            j <= total,
            r@ =~= dashed(s@).subrange(0, j as int),
        decreases total - j,
    {
        if j % 4 == 0 && 1 <= j / 4 && j / 4 <= d {
            r.push('-');
        } else {
            let before: usize = if d <= j / 4 { d } else { j / 4 };
            assert(j - before < len) by {
                if d <= j / 4 {
                } else {
                    assert(j / 4 < d);
                    assert(j % 4 != 0 || j / 4 == 0);
                }
            }
            r.push(s[j - before]);
        }
        j = j + 1;
    }
    r
}

/// The dashes removed from the first `j` positions of a dashed code.
proof fn lemma_dashed_prefix(s: Seq<char>, j: int)
    requires
        0 <= j <= dashed(s).len(),
        forall|i: int| 0 <= i < s.len() ==> #[trigger] s[i] != '-',
    ensures
        j == 0 ==> without_dashes(dashed(s).subrange(0, j)) == s.subrange(0, 0),
        j >= 1 ==> without_dashes(dashed(s).subrange(0, j)) == s.subrange(
            0,
            j - min_int(dash_count(s.len()) as int, (j - 1) / 4),
        ),
    decreases j,
{
    let r = dashed(s);
    let d = dash_count(s.len());
    lemma_dash_bounds(s.len());
    reveal_with_fuel(Seq::filter, 1);
    if j == 0 {
        assert(without_dashes(r.subrange(0, 0)) =~= Seq::<char>::empty());
        assert(s.subrange(0, 0) =~= Seq::<char>::empty());
    } else {
        let k = j - 1;
        lemma_dashed_prefix(s, k);
        let t = r.subrange(0, j);
        assert(t.drop_last() =~= r.subrange(0, k));
        if is_dash_slot(k, d) {
            assert(t.last() == '-');
            if k >= 1 {
                assert(min_int(d as int, (k - 1) / 4) + 1 == min_int(d as int, k / 4));
            }
        } else {
            assert(k - min_int(d as int, k / 4) < s.len());
            assert(t.last() == s[k - min_int(d as int, k / 4)]);
            if k >= 1 {
                assert(min_int(d as int, (k - 1) / 4) == min_int(d as int, k / 4));
            }
            assert(s.subrange(0, k - min_int(d as int, k / 4)).push(
                s[k - min_int(d as int, k / 4)],
            ) =~= s.subrange(0, k + 1 - min_int(d as int, k / 4)));
        }
    }
}

/// Removing the dashes from a dashed code gives the code back.
pub proof fn lemma_dashes_removed(s: Seq<char>)
    requires
        forall|i: int| 0 <= i < s.len() ==> #[trigger] s[i] != '-',
    ensures
        without_dashes(dashed(s)) == s,
{
    let r = dashed(s);
    let d = dash_count(s.len());
    lemma_dash_bounds(s.len());
    lemma_dashed_prefix(s, r.len() as int);
    assert(r.subrange(0, r.len() as int) =~= r);
    if r.len() >= 1 {
        assert(min_int(d as int, (r.len() - 1) / 4) == d);
    }
    assert(s.subrange(0, s.len() as int) =~= s);
}

/// A text without dashes is its own text without dashes.
proof fn lemma_without_dashes_of_plain(s: Seq<char>)
    requires
        forall|i: int| 0 <= i < s.len() ==> #[trigger] s[i] != '-',
    ensures
        without_dashes(s) == s,
    decreases s.len(),
{
    reveal(Seq::filter);
    if s.len() > 0 {
        let init = s.drop_last();
        assert forall|i: int| 0 <= i < init.len() implies #[trigger] init[i] != '-' by {
            assert(init[i] == s[i]);
        }
        lemma_without_dashes_of_plain(init);
        assert(s.last() != '-');
        assert(init.push(s.last()) =~= s);
    }
}

/// Codes made of two different draws of letters and digits are different: a code
/// tells which draw it was made of, dashed or not.
pub proof fn lemma_different_draws_different_codes(s1: Seq<char>, s2: Seq<char>, dashes: bool)
    requires
        forall|i: int| 0 <= i < s1.len() ==> alphanumeric(#[trigger] s1[i]),
        forall|i: int| 0 <= i < s2.len() ==> alphanumeric(#[trigger] s2[i]),
        s1 != s2,
    ensures
        (if dashes { dashed(s1) } else { s1 }) != (if dashes { dashed(s2) } else { s2 }),
{
    assert forall|i: int| 0 <= i < s1.len() implies #[trigger] s1[i] != '-' by {
        assert(alphanumeric(s1[i]));
    }
    assert forall|i: int| 0 <= i < s2.len() implies #[trigger] s2[i] != '-' by {
        assert(alphanumeric(s2[i]));
    }
    lemma_dashes_removed(s1);
    lemma_dashes_removed(s2);
    lemma_without_dashes_of_plain(s1);
    lemma_without_dashes_of_plain(s2);
}

/// A fresh random access code of `characters` letters and digits (at most 64),
/// grouped with dashes when `dashes` is set.
pub fn generate_unique_code(characters: usize, dashes: bool) -> (r: String)
    ensures
        exists|raw: Seq<char>|
            {
                &&& raw.len() == (if characters > 64 { 64 } else { characters })
                &&& forall|i: int| 0 <= i < raw.len() ==> alphanumeric(#[trigger] raw[i])
                &&& r@ == (if dashes { dashed(raw) } else { raw })
                &&& without_dashes(r@) == raw
            },
{
    let mut characters = characters;
    if characters > 64 {
        characters = 64;
    }
    let raw = random_alphanumeric(characters);
    proof {
        assert forall|i: int| 0 <= i < raw@.len() implies #[trigger] raw@[i] != '-' by {
            assert(alphanumeric(raw@[i]));
        }
        lemma_dashes_removed(raw@);
        lemma_without_dashes_of_plain(raw@);
    }
    if dashes {
        let v = insert_dashes(&chars_of(raw.as_str()));
        string_of(&v)
    } else {
        raw
    }
}

/// The characters a password salt is drawn from.
pub open spec fn salt_alphabet() -> Seq<char> {
    "ABCDEFGHIJKLMNOPQRSTUVWXYZabcdefghijklmnopqrstuvwxyz0123456789)(*&^%$#@!~"@
}

/// The salt spelled by `draws`: the character of [`salt_alphabet`] at each drawn index.
pub open spec fn salt_of(draws: Seq<usize>) -> Seq<char> {
    draws.map_values(|d: usize| salt_alphabet()[d as int])
}

/// The salt spelled by the drawn indices: for each, the character of
/// [`salt_alphabet`] at that index, in order.
pub fn salt_from_draws(draws: &Vec<usize>) -> (r: String)
    requires
        forall|i: int| 0 <= i < draws.len() ==> #[trigger] draws@[i] < salt_alphabet().len(),
    ensures
        r@ == salt_of(draws@),
        r@.len() == draws.len(),
        forall|i: int| 0 <= i < r@.len() ==> #[trigger] r@[i] == salt_alphabet()[draws@[i] as int],
{
    let alphabet_str = "ABCDEFGHIJKLMNOPQRSTUVWXYZabcdefghijklmnopqrstuvwxyz0123456789)(*&^%$#@!~";
    let alphabet = chars_of(alphabet_str);
    let mut v: Vec<char> = Vec::new();
    let mut i: usize = 0;
    while i < draws.len()
        invariant
            alphabet@ == salt_alphabet(),
            forall|j: int| 0 <= j < draws.len() ==> #[trigger] draws@[j] < salt_alphabet().len(),
            i <= draws.len(),
            v@ == salt_of(draws@.subrange(0, i as int)),
        decreases draws.len() - i,
    {
        let c = alphabet[draws[i]];
        v.push(c);
        i = i + 1;
        assert(salt_of(draws@.subrange(0, i as int)) =~= salt_of(draws@.subrange(0, i - 1)).push(c));
    }
    assert(draws@.subrange(0, i as int) =~= draws@);
    string_of(&v)
}

/// A fresh random password salt: 128 indices drawn at random below the length of
/// [`salt_alphabet`], and the salt they spell.
pub fn make_salt() -> (r: String)
    ensures
        exists|draws: Seq<usize>|
            {
                &&& draws.len() == 128
                &&& forall|i: int| 0 <= i < 128 ==> #[trigger] draws[i] < salt_alphabet().len()
                &&& r@ == salt_of(draws)
            },
        r@.len() == 128,
        forall|i: int| 0 <= i < 128 ==> salt_alphabet().contains(#[trigger] r@[i]),
{
    proof {
        reveal_strlit("ABCDEFGHIJKLMNOPQRSTUVWXYZabcdefghijklmnopqrstuvwxyz0123456789)(*&^%$#@!~");
    }
    let alphabet = chars_of("ABCDEFGHIJKLMNOPQRSTUVWXYZabcdefghijklmnopqrstuvwxyz0123456789)(*&^%$#@!~");
    let bound: usize = alphabet.len();
    let mut draws: Vec<usize> = Vec::new();
    let mut i: usize = 0;
    while i < 128
        invariant
            bound == salt_alphabet().len(),
            bound > 0,
            i <= 128,
            draws@.len() == i,
            forall|k: int| 0 <= k < i ==> #[trigger] draws@[k] < salt_alphabet().len(),
        decreases 128 - i,
    {
        draws.push(random_below(bound));
        i = i + 1;
    }
    let r = salt_from_draws(&draws);
    assert forall|i: int| 0 <= i < 128 implies salt_alphabet().contains(#[trigger] r@[i]) by {
        assert(r@[i] == salt_alphabet()[draws@[i] as int]);
    }
    r
}

} // verus!
