//! Searching, trimming and splitting byte strings.

use vstd::prelude::*;
use vstd::slice::slice_subrange;

verus! {

/// Position of the first `b` in `s` at or after `from`, or `s.len()` when
/// there is none.
pub open spec fn first_from(s: Seq<u8>, b: u8, from: int) -> int
    decreases s.len() - from,
{
    if from < 0 || from >= s.len() {
        s.len() as int
    } else if s[from] == b {
        from
    } else {
        first_from(s, b, from + 1)
    }
}

/// Position of the first `b` in `s`, or `s.len()` when there is none.
pub open spec fn first_index(s: Seq<u8>, b: u8) -> int {
    first_from(s, b, 0)
}

/// Whether `s` begins with `prefix`.
pub open spec fn has_prefix(s: Seq<u8>, prefix: Seq<u8>) -> bool {
    prefix.len() <= s.len() && s.subrange(0, prefix.len() as int) == prefix
}

/// Whether `b` is ASCII white space: tab, line feed, vertical tab, form
/// feed, carriage return or space.
pub open spec fn is_space(b: u8) -> bool {
    (9 <= b <= 13) || b == 32
}

/// Position of the first byte of `s` at or after `from` that is not white
/// space, or `s.len()` when there is none.
pub open spec fn content_start(s: Seq<u8>, from: int) -> int
    decreases s.len() - from,
{
    if from < 0 || from >= s.len() {
        s.len() as int
    } else if !is_space(s[from]) {
        from
    } else {
        content_start(s, from + 1)
    }
}

/// One past the last byte of `s` before `end` that is not white space, or
/// `0` when there is none.
pub open spec fn content_end(s: Seq<u8>, end: int) -> int
    decreases end,
{
    if end <= 0 || end > s.len() {
        0
    } else if !is_space(s[end - 1]) {
        end
    } else {
        content_end(s, end - 1)
    }
}

/// `s` without its leading and trailing white space.
pub open spec fn trimmed(s: Seq<u8>) -> Seq<u8> {
    let a = content_start(s, 0);
    let b = content_end(s, s.len() as int);
    if a < b {
        s.subrange(a, b)
    } else {
        Seq::empty()
    }
}

/// The pieces of `s` between occurrences of `sep`. There is always at least
/// one piece; `n` separators give `n + 1` pieces, empty ones included.
pub open spec fn fields(s: Seq<u8>, sep: u8) -> Seq<Seq<u8>>
    decreases s.len(),
{
    let k = first_index(s, sep);
    if 0 <= k < s.len() {
        seq![s.subrange(0, k)] + fields(s.skip(k + 1), sep)
    } else {
        seq![s]
    }
}

/// Where `first_from` lands: nothing before it matches, and it matches
/// unless it is the end.
pub proof fn lemma_first_from(s: Seq<u8>, b: u8, from: int)
    requires
        0 <= from <= s.len(),
    ensures
        from <= first_from(s, b, from) <= s.len(),
        forall|i: int| from <= i < first_from(s, b, from) ==> s[i] != b,
        first_from(s, b, from) < s.len() ==> s[first_from(s, b, from)] == b,
    decreases s.len() - from,
{
    if from < s.len() && s[from] != b {
        lemma_first_from(s, b, from + 1);
    }
}

/// A position that matches, with no match between `from` and it, is where
/// `first_from` lands.
pub proof fn lemma_first_from_is(s: Seq<u8>, b: u8, from: int, k: int)
    requires
        0 <= from <= k <= s.len(),
        forall|i: int| from <= i < k ==> s[i] != b,
        k < s.len() ==> s[k] == b,
    ensures
        first_from(s, b, from) == k,
    decreases k - from,
{
    if from < k {
        lemma_first_from_is(s, b, from + 1, k);
    }
}

/// Searching a suffix is searching the whole from its start.
pub proof fn lemma_first_from_skip(s: Seq<u8>, b: u8, from: int)
    requires
        0 <= from <= s.len(),
    ensures
        first_index(s.skip(from), b) + from == first_from(s, b, from),
{
    lemma_first_from(s, b, from);
    let k = first_from(s, b, from);
    let t = s.skip(from);
    assert forall|i: int| 0 <= i < k - from implies t[i] != b by {
        assert(t[i] == s[i + from]);
    }
    lemma_first_from_is(t, b, 0, k - from);
}

/// A byte string that neither starts nor ends with white space is its own
/// trimmed form.
pub proof fn lemma_trimmed_fixed(s: Seq<u8>)
    requires
        s.len() > 0 ==> !is_space(s[0]) && !is_space(s.last()),
    ensures
        trimmed(s) == s,
{
    if s.len() > 0 {
        assert(s.subrange(0, s.len() as int) =~= s);
    } else {
        assert(s =~= Seq::empty());
    }
}

/// Finds the first `b` in `s` at or after `from`.
pub fn find_byte(s: &[u8], b: u8, from: usize) -> (r: usize)
    requires
        from <= s@.len(),
    ensures
        r == first_from(s@, b, from as int),
        from <= r <= s@.len(),
{
    let n: usize = s.len();
    let mut i: usize = from;
    while i < n && s[i] != b
        invariant
            from <= i <= n,
            n == s@.len(),
            forall|j: int| from <= j < i ==> s@[j] != b,
        decreases n - i,
    {
        i += 1;
    }
    proof {
        lemma_first_from_is(s@, b, from as int, i as int);
    }
    i
}

/// Tells whether `s` begins with `prefix`.
pub fn starts_with(s: &[u8], prefix: &[u8]) -> (r: bool)
    ensures
        r == has_prefix(s@, prefix@),
{
    let n: usize = prefix.len();
    if n > s.len() {
        return false;
    }
    let mut i: usize = 0;
    while i < n
        invariant
            i <= n,
            n == prefix@.len(),
            n <= s@.len(),
            forall|j: int| 0 <= j < i ==> s@[j] == prefix@[j],
        decreases n - i,
    {
        if s[i] != prefix[i] {
            assert(s@.subrange(0, n as int)[i as int] != prefix@[i as int]);
            return false;
        }
        i += 1;
    }
    assert(s@.subrange(0, n as int) =~= prefix@);
    true
}

/// Tells whether two byte strings are equal.
pub fn same_bytes(a: &[u8], b: &[u8]) -> (r: bool)
    ensures
        r == (a@ == b@),
{
    if a.len() != b.len() {
        return false;
    }
    let r = starts_with(a, b);
    proof {
        if r {
            assert(a@.subrange(0, b@.len() as int) =~= a@);
        } else if a@ == b@ {
            assert(a@.subrange(0, b@.len() as int) =~= a@);
        }
    }
    r
}

/// Tells whether `b` is ASCII white space.
pub fn byte_is_space(b: u8) -> (r: bool)
    ensures
        r == is_space(b),
{
    (9 <= b && b <= 13) || b == 32
}

/// Strips leading and trailing white space.
pub fn trim(s: &[u8]) -> (r: &[u8])
    ensures
        r@ == trimmed(s@),
{
    let n: usize = s.len();
    let mut a: usize = 0;
    while a < n && byte_is_space(s[a])
        invariant
            a <= n,
            n == s@.len(),
            content_start(s@, 0) == content_start(s@, a as int),
        decreases n - a,
    {
        a += 1;
    }
    let mut b: usize = n;
    while b > 0 && byte_is_space(s[b - 1])
        invariant
            b <= n,
            n == s@.len(),
            content_end(s@, n as int) == content_end(s@, b as int),
        decreases b,
    {
        b -= 1;
    }
    if a < b {
        slice_subrange(s, a, b)
    } else {
        assert(s@.subrange(0, 0) =~= Seq::<u8>::empty());
        slice_subrange(s, 0, 0)
    }
}

/// Copies `s` onto the end of `out`.
pub fn push_all(out: &mut Vec<u8>, s: &[u8])
    ensures
        final(out)@ == old(out)@ + s@,
{
    let n: usize = s.len();
    let mut i: usize = 0;
    while i < n
        invariant
            i <= n,
            n == s@.len(),
            out@ == old(out)@ + s@.subrange(0, i as int),
        decreases n - i,
    {
        out.push(s[i]);
        assert(out@ =~= old(out)@ + s@.subrange(0, i + 1));
        i += 1;
    }
    assert(s@.subrange(0, n as int) =~= s@);
}

/// Copies the bytes of `s` from `from` up to `to`.
pub fn copy_range(s: &[u8], from: usize, to: usize) -> (r: Vec<u8>)
    requires
        from <= to <= s@.len(),
    ensures
        r@ == s@.subrange(from as int, to as int),
{
    let mut out: Vec<u8> = Vec::new();
    push_all(&mut out, slice_subrange(s, from, to));
    assert(out@ =~= s@.subrange(from as int, to as int));
    out
}

/// Splits `s` at every `sep`.
pub fn split_fields(s: &[u8], sep: u8) -> (r: Vec<Vec<u8>>)
    ensures
        r@.len() == fields(s@, sep).len(),
        forall|i: int| 0 <= i < r@.len() ==> (#[trigger] r@[i])@ == fields(s@, sep)[i],
{
    let n: usize = s.len();
    let mut out: Vec<Vec<u8>> = Vec::new();
    let mut start: usize = 0;
    let ghost mut done: Seq<Seq<u8>> = Seq::empty();
    proof {
        assert(s@.skip(0) =~= s@);
        assert(done + fields(s@, sep) =~= fields(s@, sep));
    }
    loop
        invariant
            start <= n,
            n == s@.len(),
            out@.len() == done.len(),
            forall|i: int| 0 <= i < out@.len() ==> (#[trigger] out@[i])@ == done[i],
            fields(s@, sep) == done + fields(s@.skip(start as int), sep),
        decreases n - start,
    {
        let k: usize = find_byte(s, sep, start);
        proof {
            lemma_first_from_skip(s@, sep, start as int);
        }
        let ghost rest = s@.skip(start as int);
        let piece: Vec<u8> = copy_range(s, start, k);
        assert(piece@ =~= rest.subrange(0, k - start));
        if k < n {
            proof {
                assert(rest.skip(k - start + 1) =~= s@.skip(k + 1));
                assert(done + (seq![piece@] + fields(s@.skip(k + 1), sep)) =~= done.push(piece@)
                    + fields(s@.skip(k + 1), sep));
                done = done.push(piece@);
            }
            out.push(piece);
            start = k + 1;
        } else {
            proof {
                assert(rest.subrange(0, k - start) =~= rest);
                assert(done + seq![piece@] =~= done.push(piece@));
                done = done.push(piece@);
            }
            out.push(piece);
            return out;
        }
    }
}

} // verus!
