//! Whole numbers in decimal notation.

use crate::text::chars_of;
use vstd::prelude::*;

verus! {

/// The value of a decimal digit.
pub open spec fn digit(c: char) -> Option<nat> {
    if '0' <= c <= '9' {
        Some((c as u32 - '0' as u32) as nat)
    } else {
        None
    }
}

/// The number that `s` denotes, if `s` is one or more decimal digits.
pub open spec fn decimal(s: Seq<char>) -> Option<nat>
    decreases s.len(),
{
    if s.len() == 0 {
        None
    } else {
        match (digit(s.last()), decimal(s.drop_last())) {
            (Some(d), Some(v)) => Some(10 * v + d),
            (Some(d), None) => if s.len() == 1 {
                Some(d)
            } else {
                None
            },
            _ => None,
        }
    }
}

/// The number up to `max` that `s` denotes: decimal digits, which a `+`
/// may precede. Nothing else may stand in `s`, not even a space.
pub open spec fn unsigned(s: Seq<char>, max: nat) -> Option<nat> {
    let digits = if s.len() > 0 && s[0] == '+' {
        s.drop_first()
    } else {
        s
    };
    match decimal(digits) {
        Some(v) if v <= max => Some(v),
        _ => None,
    }
}

/// The digit that stands for `d`.
pub open spec fn digit_char(d: nat) -> char {
    if d == 0 {
        '0'
    } else if d == 1 {
        '1'
    } else if d == 2 {
        '2'
    } else if d == 3 {
        '3'
    } else if d == 4 {
        '4'
    } else if d == 5 {
        '5'
    } else if d == 6 {
        '6'
    } else if d == 7 {
        '7'
    } else if d == 8 {
        '8'
    } else {
        '9'
    }
}

/// The decimal digits of `n`, without leading zeros.
pub open spec fn digits_of(n: nat) -> Seq<char>
    decreases n,
{
    if n < 10 {
        seq![digit_char(n)]
    } else {
        digits_of(n / 10).push(digit_char(n % 10))
    }
}

/// The decimal notation of `n`, with a `-` before a negative number.
pub open spec fn signed_digits_of(n: int) -> Seq<char> {
    if n < 0 {
        seq!['-'] + digits_of((-n) as nat)
    } else {
        digits_of(n as nat)
    }
}

/// What the first digits of a number denote is at most the number.
pub proof fn lemma_decimal_prefix(s: Seq<char>, k: int)
    requires
        1 <= k <= s.len(),
        decimal(s) is Some,
    ensures
        decimal(s.take(k)) is Some,
        decimal(s.take(k))->0 <= decimal(s)->0,
    decreases s.len(),
{
    if k == s.len() {
        assert(s.take(k) =~= s);
    } else {
        assert(s.drop_last().take(k) =~= s.take(k));
        lemma_decimal_prefix(s.drop_last(), k);
    }
}

/// The digits of a number denote the number.
pub proof fn lemma_digits_denote(n: nat)
    ensures
        decimal(digits_of(n)) == Some(n),
        digits_of(n).len() > 0,
        digits_of(n)[0] != '+',
    decreases n,
{
    reveal_with_fuel(decimal, 2);
    assert(digit(digit_char(n % 10)) == Some(n % 10));
    if n < 10 {
        assert(digits_of(n).drop_last() =~= Seq::<char>::empty());
    } else {
        lemma_digits_denote(n / 10);
        assert(digits_of(n).drop_last() =~= digits_of(n / 10));
    }
}

/// Writing a number and reading it again gives the number.
pub proof fn lemma_unsigned_of_digits(n: nat, max: nat)
    requires
        n <= max,
    ensures
        unsigned(digits_of(n), max) == Some(n),
{
    lemma_digits_denote(n);
}

/// The number up to `max` that `s` denotes in decimal notation.
pub fn parse_unsigned(s: &str, max: u64) -> (r: Option<u64>)
    ensures
        match r {
            Some(v) => unsigned(s@, max as nat) == Some(v as nat),
            None => unsigned(s@, max as nat) is None,
        },
{
    let v = chars_of(s);
    let n = v.len();
    let start: usize = if n > 0 && v[0] == '+' {
        1
    } else {
        0
    };
    let ghost digits = v@.skip(start as int);
    assert(start == 1 ==> digits =~= v@.drop_first());
    assert(start == 0 ==> digits =~= v@);
    if start == n {
        return None;
    }
    let mut acc: u64 = 0;
    let mut i: usize = start;
    while i < n
        invariant
            start <= i <= n == v.len(),
            start < n,
            digits == v@.skip(start as int),
            unsigned(s@, max as nat) == match decimal(digits) {
                Some(x) if x <= max => Some(x),
                _ => None,
            },
            i == start ==> acc == 0,
            i > start ==> decimal(digits.take(i - start)) == Some(acc as nat),
            acc <= max,
        decreases n - i,
    {
        let c = v[i];
        let ghost head = digits.take(i - start + 1);
        proof {
            reveal_with_fuel(decimal, 2);
            assert(head.last() == c);
            assert(head.drop_last() =~= digits.take(i - start));
            if i == start {
                assert(head.drop_last().len() == 0);
            }
            if decimal(digits) is Some {
                lemma_decimal_prefix(digits, i - start + 1);
            }
        }
        if !('0' <= c && c <= '9') {
            return None;
        }
        let d: u64 = (c as u32 - '0' as u32) as u64;
        if d > max || acc > (max - d) / 10 {
            return None;
        }
        acc = acc * 10 + d;
        i += 1;
    }
    assert(digits.take(n - start) =~= digits);
    Some(acc)
}

/// Adds the decimal digits of `n` to the end of `out`.
pub fn push_digits(out: &mut String, n: u64)
    ensures
        final(out)@ == old(out)@ + digits_of(n as nat),
    decreases n,
{
    if n >= 10 {
        push_digits(out, n / 10);
    }
    let d = n % 10;
    let c = if d == 0 {
        '0'
    } else if d == 1 {
        '1'
    } else if d == 2 {
        '2'
    } else if d == 3 {
        '3'
    } else if d == 4 {
        '4'
    } else if d == 5 {
        '5'
    } else if d == 6 {
        '6'
    } else if d == 7 {
        '7'
    } else if d == 8 {
        '8'
    } else {
        '9'
    };
    out.push(c);
    assert(out@ =~= old(out)@ + digits_of(n as nat));
}

/// The decimal digits of `n`.
pub fn decimal_string(n: u64) -> (s: String)
    ensures
        s@ == digits_of(n as nat),
{
    let mut s = String::new();
    push_digits(&mut s, n);
    assert(Seq::<char>::empty() + digits_of(n as nat) =~= digits_of(n as nat));
    s
}

/// The decimal notation of `n`, with a `-` before a negative number.
pub fn signed_decimal_string(n: i64) -> (s: String)
    ensures
        s@ == signed_digits_of(n as int),
{
    let mut s = String::new();
    if n < 0 {
        s.push('-');
        let m: u64 = (-(n + 1)) as u64 + 1;
        push_digits(&mut s, m);
    } else {
        push_digits(&mut s, n as u64);
    }
    assert(s@ =~= signed_digits_of(n as int));
    s
}

} // verus!
