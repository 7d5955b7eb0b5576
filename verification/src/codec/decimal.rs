//! Unsigned decimal fields, as they appear in chunk file names and in
//! protocol headers.

use vstd::prelude::*;

verus! {

/// ASCII code of `'0'`.
pub const ZERO: u8 = 48;

/// ASCII code of `'+'`.
pub const PLUS: u8 = 43;

/// Whether `b` is an ASCII decimal digit.
pub open spec fn is_digit(b: u8) -> bool {
    48 <= b <= 57
}

/// Whether every byte of `s` is an ASCII decimal digit.
pub open spec fn all_digits(s: Seq<u8>) -> bool {
    forall|i: int| 0 <= i < s.len() ==> is_digit(#[trigger] s[i])
}

/// The number written by a run of decimal digits, most significant first.
pub open spec fn digits_value(s: Seq<u8>) -> nat
    decreases s.len(),
{
    if s.len() == 0 {
        0
    } else {
        digits_value(s.drop_last()) * 10 + (s.last() - 48) as nat
    }
}

/// The digits of a decimal field once an optional leading `+` is removed.
pub open spec fn unsigned_part(s: Seq<u8>) -> Seq<u8> {
    if s.len() > 0 && s[0] == 43 {
        s.skip(1)
    } else {
        s
    }
}

/// What a decimal field denotes: an optional `+`, then at least one digit,
/// the whole not exceeding `usize::MAX`. Anything else denotes nothing.
pub open spec fn decimal_value(s: Seq<u8>) -> Option<usize> {
    let body = unsigned_part(s);
    if body.len() > 0 && all_digits(body) && digits_value(body) <= usize::MAX {
        Some(digits_value(body) as usize)
    } else {
        None
    }
}

/// The canonical digits of `n`: no sign, no leading zero except for zero
/// itself.
pub open spec fn decimal_digits(n: nat) -> Seq<u8>
    decreases n,
{
    if n < 10 {
        seq![(48 + n) as u8]
    } else {
        decimal_digits(n / 10).push((48 + n % 10) as u8)
    }
}

/// A run of digits is worth at least as much as any of its prefixes.
pub proof fn lemma_digits_value_prefix(s: Seq<u8>, k: int)
    requires
        0 <= k <= s.len(),
    ensures
        digits_value(s.subrange(0, k)) <= digits_value(s),
    decreases s.len() - k,
{
    if k == s.len() {
        assert(s.subrange(0, k) =~= s);
    } else {
        let longer = s.subrange(0, k + 1);
        assert(longer.drop_last() =~= s.subrange(0, k));
        lemma_digits_value_prefix(s, k + 1);
    }
}

/// Canonical digits are digits, and there is at least one of them.
pub proof fn lemma_decimal_digits_shape(n: nat)
    ensures
        decimal_digits(n).len() >= 1,
        all_digits(decimal_digits(n)),
        digits_value(decimal_digits(n)) == n,
        decimal_digits(n)[0] != 43,
    decreases n,
{
    if n < 10 {
        let s = decimal_digits(n);
        assert(s.drop_last() =~= Seq::<u8>::empty());
        assert(digits_value(s.drop_last()) == 0);
    } else {
        lemma_decimal_digits_shape(n / 10);
        let shorter = decimal_digits(n / 10);
        let s = decimal_digits(n);
        assert(s.drop_last() =~= shorter);
        assert forall|i: int| 0 <= i < s.len() implies is_digit(#[trigger] s[i]) by {
            if i < shorter.len() {
                assert(s[i] == shorter[i]);
            }
        }
    }
}

/// Reading back the canonical digits of a number gives that number.
pub proof fn lemma_decimal_round_trip(n: usize)
    ensures
        decimal_value(decimal_digits(n as nat)) == Some(n),
{
    lemma_decimal_digits_shape(n as nat);
}

/// Reads a decimal field.
pub fn parse_decimal(s: &[u8]) -> (r: Option<usize>)
    ensures
        r == decimal_value(s@),
{
    let n: usize = s.len();
    let start: usize = if n > 0 && s[0] == PLUS { 1 } else { 0 };
    if start == n {
        return None;
    }
    let ghost body = unsigned_part(s@);
    assert(body =~= s@.subrange(start as int, n as int));
    let mut acc: usize = 0;
    let mut i: usize = start;
    while i < n
        invariant
            start <= i <= n,
            n == s@.len(),
            body == s@.subrange(start as int, n as int),
            body == unsigned_part(s@),
            body.len() > 0,
            all_digits(body.subrange(0, i - start)),
            acc == digits_value(body.subrange(0, i - start)),
        decreases n - i,
    {
        let b: u8 = s[i];
        let ghost next = body.subrange(0, i - start + 1);
        assert(next.drop_last() =~= body.subrange(0, i - start));
        assert(next.last() == b);
        if b < ZERO || b > 57 {
            assert(!is_digit(body[i - start]));
            return None;
        }
        let d: usize = (b - ZERO) as usize;
        let grown: Option<usize> = match acc.checked_mul(10) {
            Some(t) => t.checked_add(d),
            None => None,
        };
        match grown {
            Some(v) => {
                acc = v;
            },
            None => {
                proof {
                    assert(digits_value(next) == acc * 10 + d);
                    lemma_digits_value_prefix(body, i - start + 1);
                }
                return None;
            },
        }
        assert forall|j: int| 0 <= j < next.len() implies is_digit(#[trigger] next[j]) by {
            if j < i - start {
                assert(next[j] == body.subrange(0, i - start)[j]);
            }
        }
        i += 1;
    }
    assert(body.subrange(0, n - start) =~= body);
    Some(acc)
}

/// Writes `n` in canonical decimal.
pub fn render_decimal(n: usize) -> (r: Vec<u8>)
    ensures
        r@ == decimal_digits(n as nat),
    decreases n,
{
    if n < 10 {
        let mut out: Vec<u8> = Vec::new();
        out.push(ZERO + (n as u8));
        assert(out@ =~= decimal_digits(n as nat));
        out
    } else {
        let mut out: Vec<u8> = render_decimal(n / 10);
        out.push(ZERO + ((n % 10) as u8));
        out
    }
}

} // verus!
