//! Decimal text of unsigned numbers, both ways.

use vstd::prelude::*;
use crate::text::push_char;

verus! {

pub open spec fn is_digit(c: char) -> bool {
    '0' <= c && c <= '9'
}

pub open spec fn digit_value(c: char) -> int {
    (c as int) - ('0' as int)
}

/// The value of a string of decimal digits.
pub open spec fn digits_value(s: Seq<char>) -> int
    decreases s.len(),
{
    if s.len() == 0 {
        0
    } else {
        digits_value(s.drop_last()) * 10 + digit_value(s.last())
    }
}

pub open spec fn all_digits(s: Seq<char>) -> bool {
    forall|i: int| 0 <= i < s.len() ==> is_digit(#[trigger] s[i])
}

/// `u64::from_str`: an optional `+`, then one or more digits whose value fits.
pub open spec fn parsed_u64(s: Seq<char>) -> Option<u64> {
    let body = if s.len() > 0 && s[0] == '+' { s.skip(1) } else { s };
    if body.len() > 0 && all_digits(body) && digits_value(body) <= u64::MAX {
        Some(digits_value(body) as u64)
    } else {
        None
    }
}

/// The shortest decimal text of `n`.
pub open spec fn decimal_text(n: nat) -> Seq<char>
    decreases n,
{
    if n < 10 {
        seq![((n + ('0' as int)) as char)]
    } else {
        decimal_text(n / 10).push(((n % 10) + ('0' as int)) as char)
    }
}

pub proof fn lemma_digits_value_nonneg(s: Seq<char>)
    requires
        all_digits(s),
    ensures
        digits_value(s) >= 0,
    decreases s.len(),
{
    if s.len() > 0 {
        assert(all_digits(s.drop_last()));
        lemma_digits_value_nonneg(s.drop_last());
        assert(is_digit(s[s.len() - 1]));
    }
}

/// Parse `s` as `u64::from_str` does.
pub fn parse_u64(s: &Vec<char>) -> (r: Option<u64>)
    ensures
        r == parsed_u64(s@),
{
    let start: usize = if s.len() > 0 && s[0] == '+' { 1 } else { 0 };
    let ghost body = if s@.len() > 0 && s@[0] == '+' { s@.skip(1) } else { s@ };
    assert(body =~= s@.skip(start as int));
    if start >= s.len() {
        return None;
    }
    let mut v: u64 = 0;
    let mut i: usize = start;
    while i < s.len()
        invariant
            start <= i <= s@.len(),
            start < s@.len(),
            body =~= s@.skip(start as int),
            body == (if s@.len() > 0 && s@[0] == '+' { s@.skip(1) } else { s@ }),
            all_digits(body.take(i - start)),
            v == digits_value(body.take(i - start)),
        decreases s@.len() - i,
    {
        let c = s[i];
        let ghost pre = body.take(i - start);
        assert(body.take(i - start + 1) =~= pre.push(c));
        if !('0' <= c && c <= '9') {
            assert(!all_digits(body)) by {
                assert(body[i - start] == c);
            }
            return None;
        }
        let d = (c as u32 - '0' as u32) as u64;
        if v > 1844674407370955161 || (v == 1844674407370955161 && d > 5) {
            proof {
                assert(pre.push(c).drop_last() =~= pre);
                assert(digits_value(pre.push(c)) > u64::MAX);
                lemma_prefix_bound(body, (i - start + 1) as int);
            }
            return None;
        }
        v = v * 10 + d;
        assert(pre.push(c).drop_last() =~= pre);
        i += 1;
    }
    assert(body.take(i - start) =~= body);
    Some(v)
}

/// A longer all-digit prefix never has a smaller value.
pub proof fn lemma_prefix_bound(s: Seq<char>, k: int)
    requires
        0 <= k <= s.len(),
        all_digits(s.take(k)),
    ensures
        all_digits(s) ==> digits_value(s) >= digits_value(s.take(k)),
    decreases s.len() - k,
{
    if k < s.len() && all_digits(s) {
        assert(s.take(k + 1).drop_last() =~= s.take(k));
        assert(all_digits(s.take(k + 1)));
        lemma_digits_value_nonneg(s.take(k));
        assert(is_digit(s[k]));
        lemma_prefix_bound(s, k + 1);
    }
    if k == s.len() {
        assert(s.take(k) =~= s);
    }
}

/// Append the decimal text of `n` to `out`.
pub fn push_decimal(out: &mut String, n: u64)
    ensures
        final(out)@ == old(out)@ + decimal_text(n as nat),
    decreases n,
{
    if n >= 10 {
        push_decimal(out, n / 10);
    }
    let c = digit_char(n % 10);
    push_char(out, c);
}

fn digit_char(d: u64) -> (c: char)
    requires
        d < 10,
    ensures
        c == ((d + ('0' as int)) as char),
{
    if d == 0 {
        '0'
    } else if d == 1 {
        '1'
    } else if d == 2 {
        '2'
    } else if d == 3 {
        '3'
    } else if d == 4 {
        '4'
    } else if d == 5 {
        '5'
    } else if d == 6 {
        '6'
    } else if d == 7 {
        '7'
    } else if d == 8 {
        '8'
    } else {
        '9'
    }
}

/// The decimal text of `n` is one or more digits, not starting with `+`,
/// whose value is `n`.
pub proof fn lemma_decimal_text(n: nat)
    ensures
        decimal_text(n).len() > 0,
        all_digits(decimal_text(n)),
        digits_value(decimal_text(n)) == n,
    decreases n,
{
    if n < 10 {
        let t = decimal_text(n);
        assert(t.drop_last() =~= Seq::<char>::empty());
        assert((((n + ('0' as int)) as char) as int) == n + ('0' as int));
        assert(digits_value(Seq::<char>::empty()) == 0);
        assert(digits_value(t) == digits_value(t.drop_last()) * 10 + digit_value(t.last()));
        assert(t.last() == ((n + ('0' as int)) as char));
    } else {
        lemma_decimal_text(n / 10);
        let p = decimal_text(n / 10);
        let c = ((n % 10) + ('0' as int)) as char;
        assert(p.push(c).drop_last() =~= p);
        assert(all_digits(p.push(c))) by {
            assert forall|i: int| 0 <= i < p.push(c).len() implies is_digit(#[trigger] p.push(c)[i]) by {
                if i < p.len() {
                    assert(p.push(c)[i] == p[i]);
                }
            }
        }
        assert(n == (n / 10) * 10 + n % 10) by (nonlinear_arith);
        assert((c as int) == (n % 10) + ('0' as int));
        assert(digit_value(c) == n % 10);
        assert(digits_value(p.push(c)) == digits_value(p) * 10 + digit_value(c));
    }
}

/// Reading back the decimal text of a number gives the number.
pub proof fn law_decimal_roundtrip(n: u64)
    ensures
        parsed_u64(decimal_text(n as nat)) == Some(n),
{
    lemma_decimal_text(n as nat);
    let t = decimal_text(n as nat);
    assert(is_digit(t[0]));
}

} // verus!
