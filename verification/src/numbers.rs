//! Decimal text of 32-bit integers: writing (as `{}` formats them) and reading (as
//! `str::parse::<i32>` reads them).

use vstd::prelude::*;

use crate::text::{chars_of, string_of, trim, trimmed};

verus! {

/// The character of the decimal digit `d`.
pub open spec fn digit_char(d: int) -> char {
    if d == 0 {
        '0'
    } else if d == 1 {
        '1'
    } else if d == 2 {
        '2'
    } else if d == 3 {
        '3'
    } else if d == 4 {
        '4'
    } else if d == 5 {
        '5'
    } else if d == 6 {
        '6'
    } else if d == 7 {
        '7'
    } else if d == 8 {
        '8'
    } else {
        '9'
    }
}

/// Whether `c` is one of `0` to `9`.
pub open spec fn is_digit(c: char) -> bool {
    '0' <= c <= '9'
}

/// The value of the digit `c`.
pub open spec fn digit_value(c: char) -> int {
    c as int - '0' as int
}

/// The decimal digits of `n`, most significant first, without leading zeros.
pub open spec fn digits(n: nat) -> Seq<char>
    decreases n,
{
    if n < 10 {
        seq![digit_char(n as int)]
    } else {
        digits(n / 10).push(digit_char((n % 10) as int))
    }
}

/// The decimal text of `n`: a `-` before the digits of a negative number.
pub open spec fn decimal(n: int) -> Seq<char> {
    if n < 0 {
        seq!['-'] + digits((-n) as nat)
    } else {
        digits(n as nat)
    }
}

/// Whether every character of `s` is a digit.
pub open spec fn all_digits(s: Seq<char>) -> bool {
    forall|i: int| 0 <= i < s.len() ==> is_digit(#[trigger] s[i])
}

/// The number that the digits `s` spell.
pub open spec fn digits_value(s: Seq<char>) -> int
    decreases s.len(),
{
    if s.len() == 0 {
        0
    } else {
        digits_value(s.drop_last()) * 10 + digit_value(s.last())
    }
}

/// Whether `s` starts with the sign `c`.
pub open spec fn signed_with(s: Seq<char>, c: char) -> bool {
    s.len() > 0 && s[0] == c
}

/// The digits of `s` after an optional sign.
pub open spec fn unsigned_part(s: Seq<char>) -> Seq<char> {
    if signed_with(s, '-') || signed_with(s, '+') {
        s.drop_first()
    } else {
        s
    }
}

/// What `s` reads as: an optional `+` or `-`, then one or more digits, and a value
/// that fits in an `i32`; anything else reads as nothing.
pub open spec fn parsed_i32(s: Seq<char>) -> Option<i32> {
    let body = unsigned_part(s);
    let magnitude = digits_value(body);
    let v = if signed_with(s, '-') { -magnitude } else { magnitude };
    if body.len() == 0 || !all_digits(body) || v < i32::MIN || v > i32::MAX {
        None
    } else {
        Some(v as i32)
    }
}

/// The digit character of `d` and its value agree.
proof fn lemma_digit_char(d: int)
    requires
        0 <= d < 10,
    ensures
        is_digit(digit_char(d)),
        digit_value(digit_char(d)) == d,
{
}

/// The digits of `n` are digits, there is at least one, and they spell `n`.
pub proof fn lemma_digits(n: nat)
    ensures
        digits(n).len() >= 1,
        all_digits(digits(n)),
        digits_value(digits(n)) == n,
    decreases n,
{
    if n < 10 {
        lemma_digit_char(n as int);
        assert(digits(n).drop_last() =~= Seq::<char>::empty());
        assert(digits_value(Seq::<char>::empty()) == 0);
        assert(digits_value(digits(n)) == digits_value(digits(n).drop_last()) * 10 + digit_value(digits(n).last()));
    } else {
        lemma_digits(n / 10);
        lemma_digit_char((n % 10) as int);
        let d = digits(n);
        assert(d.drop_last() =~= digits(n / 10));
        assert(n == (n / 10) * 10 + n % 10);
        assert forall|i: int| 0 <= i < d.len() implies is_digit(#[trigger] d[i]) by {
            if i < d.len() - 1 {
                assert(d[i] == digits(n / 10)[i]);
            }
        }
    }
}

/// A number spelled by digits is never smaller than the number spelled by a prefix of
/// them.
proof fn lemma_value_grows(s: Seq<char>, i: int)
    requires
        all_digits(s),
        0 <= i <= s.len(),
    ensures
        digits_value(s.subrange(0, i)) <= digits_value(s),
        digits_value(s) >= 0,
    decreases s.len(),
{
    if s.len() > 0 {
        let t = s.drop_last();
        assert forall|j: int| 0 <= j < t.len() implies is_digit(#[trigger] t[j]) by {
            assert(t[j] == s[j]);
        }
        assert(is_digit(s[s.len() - 1]));
        if i < s.len() {
            lemma_value_grows(t, i);
            assert(t.subrange(0, i) =~= s.subrange(0, i));
        } else {
            lemma_value_grows(t, 0);
            assert(s.subrange(0, i) =~= s);
        }
    } else {
        assert(s.subrange(0, i) =~= s);
    }
}

/// Appends the digits of `m` to `out`.
fn push_digits(m: u64, out: &mut Vec<char>)
    ensures
        final(out)@ == old(out)@ + digits(m as nat),
    decreases m,
{
    if m >= 10 {
        push_digits(m / 10, out);
    }
    let d = m % 10;
    let c = if d == 0 {
        '0'
    } else if d == 1 {
        '1'
    } else if d == 2 {
        '2'
    } else if d == 3 {
        '3'
    } else if d == 4 {
        '4'
    } else if d == 5 {
        '5'
    } else if d == 6 {
        '6'
    } else if d == 7 {
        '7'
    } else if d == 8 {
        '8'
    } else {
        '9'
    };
    out.push(c);
    proof {
        if m < 10 {
            assert(m % 10 == m);
        }
    }
}

/// The decimal text of `n` (what `format!("{}", n)` gives).
pub fn decimal_string(n: i32) -> (s: String)
    ensures
        s@ == decimal(n as int),
{
    let mut out: Vec<char> = Vec::new();
    let wide: i64 = n as i64;
    if wide < 0 {
        out.push('-');
        let magnitude: u64 = (-wide) as u64;
        push_digits(magnitude, &mut out);
    } else {
        push_digits(wide as u64, &mut out);
    }
    string_of(&out)
}

/// Reads `s` as an `i32` (what `str::parse::<i32>` does): `None` unless `s` is an
/// optional sign and one or more digits of a value in range.
pub fn parse_i32(s: &str) -> (r: Option<i32>)
    ensures
        r == parsed_i32(s@),
{
    let cs = chars_of(s);
    let n = cs.len();
    let neg = n > 0 && cs[0] == '-';
    let start: usize = if n > 0 && (cs[0] == '-' || cs[0] == '+') { 1 } else { 0 };
    let ghost body = unsigned_part(s@);
    assert(body =~= s@.subrange(start as int, n as int));
    if start == n {
        return None;
    }
    let mut acc: i64 = 0;
    let mut big = false;
    let mut i: usize = start;
    while i < n
        invariant
            cs@ == s@,
            n == cs.len(),
            start <= i <= n,
            body == s@.subrange(start as int, n as int),
            body == unsigned_part(s@),
            neg == signed_with(s@, '-'),
            all_digits(body.subrange(0, i - start)),
            !big ==> acc == digits_value(body.subrange(0, i - start)) && 0 <= acc <= 0x8000_0000,
            big ==> digits_value(body.subrange(0, i - start)) > 0x8000_0000,
        decreases n - i,
    {
        let c = cs[i];
        let ghost pre = body.subrange(0, i - start);
        let ghost next = body.subrange(0, i + 1 - start);
        assert(next.drop_last() =~= pre);
        assert(next.last() == c);
        if !('0' <= c && c <= '9') {
            assert(!all_digits(body)) by {
                assert(body[i - start] == c);
            }
            return None;
        }
        let d: i64 = (c as u32 - '0' as u32) as i64;
        assert(d == digit_value(c));
        assert forall|j: int| 0 <= j < next.len() implies is_digit(#[trigger] next[j]) by {
            if j < pre.len() {
                assert(next[j] == pre[j]);
            }
        }
        if !big {
            let v = acc * 10 + d;
            if v > 0x8000_0000 {
                big = true;
            } else {
                acc = v;
            }
        } else {
            proof {
                lemma_value_grows(pre, 0);
            }
        }
        i = i + 1;
    }
    assert(body.subrange(0, n - start) =~= body);
    if big {
        return None;
    }
    if neg {
        Some((-acc) as i32)
    } else if acc <= 0x7FFF_FFFF {
        Some(acc as i32)
    } else {
        None
    }
}

/// Writing a number and reading the text back gives the number again.
pub proof fn lemma_decimal_round_trip(n: i32)
    ensures
        parsed_i32(decimal(n as int)) == Some(n),
{
    let t = decimal(n as int);
    if n < 0 {
        let m = (-(n as int)) as nat;
        lemma_digits(m);
        assert(t.drop_first() =~= digits(m));
        assert(is_digit(digits(m)[0]));
    } else {
        lemma_digits(n as nat);
        assert(is_digit(t[0]));
    }
}

/// Reads the trimmed `response` as an `i32` (`response.trim().parse::<i32>()`).
pub fn parse_trimmed_i32(response: &str) -> (r: Option<i32>)
    ensures
        r == parsed_i32(trimmed(response@)),
{
    let t = string_of(&trim(&chars_of(response)));
    parse_i32(t.as_str())
}

} // verus!
