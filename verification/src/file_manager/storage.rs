//! How stored chunks are named, and how a directory listing is read back
//! into chunk indices.
//!
//! A file's chunks live in one directory named after the file identifier;
//! chunk `N` is the file `chunk_N.bin`. Reading and writing those files is
//! the caller's business.

use crate::codec::bytes::{has_prefix, push_all, starts_with};
use crate::codec::decimal::{
    decimal_digits, decimal_value, lemma_decimal_digits_shape, parse_decimal, render_decimal,
};
use crate::codec::text::{ascii_text, is_ascii_bytes};
use crate::file_id::FileId;
use vstd::prelude::*;
use vstd::slice::slice_subrange;
use vstd::utf8::encode_utf8;

verus! {

/// Why a storage operation failed.
#[derive(Debug)]
pub enum StorageError {
    /// The file system refused, with its message.
    IoError(String),
    /// A path that cannot be used, with the path.
    InvalidPath(String),
}

/// The bytes of `chunk_`.
pub open spec fn name_prefix() -> Seq<u8> {
    seq![99u8, 104u8, 117u8, 110u8, 107u8, 95u8]
}

/// The bytes of `.bin`.
pub open spec fn name_suffix() -> Seq<u8> {
    seq![46u8, 98u8, 105u8, 110u8]
}

/// The name of the file that holds chunk `index`.
pub open spec fn chunk_name(index: nat) -> Seq<u8> {
    name_prefix() + decimal_digits(index) + name_suffix()
}

/// Whether `s` ends with `suffix`.
pub open spec fn has_suffix(s: Seq<u8>, suffix: Seq<u8>) -> bool {
    suffix.len() <= s.len() && s.subrange(s.len() - suffix.len(), s.len() as int) == suffix
}

/// The chunk index that a file name denotes: the name is `chunk_`, a decimal
/// field and `.bin`. Any other name denotes no chunk.
pub open spec fn chunk_index_of(name: Seq<u8>) -> Option<usize> {
    if name.len() >= 10 && has_prefix(name, name_prefix()) && has_suffix(name, name_suffix()) {
        decimal_value(name.subrange(6, name.len() - 4))
    } else {
        None
    }
}

/// Whether `indices` is strictly ascending.
pub open spec fn strictly_ascending(indices: Seq<usize>) -> bool {
    forall|i: int, j: int| 0 <= i < j < indices.len() ==> indices[i] < indices[j]
}

/// Whether some name in `names` denotes chunk `index`.
pub open spec fn names_hold(names: Seq<String>, index: usize) -> bool {
    exists|n: int|
        0 <= n < names.len() && chunk_index_of(encode_utf8(#[trigger] names[n]@)) == Some(index)
}

/// A strictly ascending list is determined by what it holds.
pub proof fn lemma_ascending_determined(a: Seq<usize>, b: Seq<usize>)
    requires
        strictly_ascending(a),
        strictly_ascending(b),
        forall|k: usize| a.contains(k) <==> b.contains(k),
    ensures
        a == b,
    decreases a.len(),
{
    if a.len() == 0 {
        if b.len() > 0 {
            assert(b.contains(b[0]));
        }
        assert(a =~= b);
    } else {
        assert(a.contains(a[0]));
        assert(b.len() > 0) by {
            let j = choose|j: int| 0 <= j < b.len() && b[j] == a[0];
        }
        let top_a = a.last();
        let top_b = b.last();
        assert(a.contains(top_a)) by {
            assert(a[a.len() - 1] == top_a);
        }
        assert(b.contains(top_b)) by {
            assert(b[b.len() - 1] == top_b);
        }
        let ia = choose|i: int| 0 <= i < a.len() && a[i] == top_b;
        let ib = choose|i: int| 0 <= i < b.len() && b[i] == top_a;
        assert(top_a == top_b);
        let shorter_a = a.drop_last();
        let shorter_b = b.drop_last();
        assert forall|k: usize| shorter_a.contains(k) <==> shorter_b.contains(k) by {
            if shorter_a.contains(k) {
                let i = choose|i: int| 0 <= i < shorter_a.len() && shorter_a[i] == k;
                assert(a[i] == k);
                assert(a.contains(k));
                let j = choose|j: int| 0 <= j < b.len() && b[j] == k;
                assert(k < top_a);
                assert(shorter_b[j] == k);
            }
            if shorter_b.contains(k) {
                let i = choose|i: int| 0 <= i < shorter_b.len() && shorter_b[i] == k;
                assert(b[i] == k);
                assert(b.contains(k));
                let j = choose|j: int| 0 <= j < a.len() && a[j] == k;
                assert(k < top_b);
                assert(shorter_a[j] == k);
            }
        }
        lemma_ascending_determined(shorter_a, shorter_b);
        assert(a =~= shorter_a.push(top_a));
        assert(b =~= shorter_b.push(top_b));
    }
}

/// Two directory listings that hold the same names, in whatever order and
/// however often, give the same chunk indices.
pub proof fn lemma_listing_ignores_order(
    first: Seq<String>,
    second: Seq<String>,
    from_first: Seq<usize>,
    from_second: Seq<usize>,
)
    requires
        forall|name: String| first.contains(name) <==> second.contains(name),
        strictly_ascending(from_first),
        strictly_ascending(from_second),
        forall|k: usize| from_first.contains(k) <==> names_hold(first, k),
        forall|k: usize| from_second.contains(k) <==> names_hold(second, k),
    ensures
        from_first == from_second,
{
    assert forall|k: usize| names_hold(first, k) <==> names_hold(second, k) by {
        if names_hold(first, k) {
            let n = choose|n: int|
                0 <= n < first.len() && chunk_index_of(encode_utf8(#[trigger] first[n]@)) == Some(
                    k,
                );
            assert(first.contains(first[n]));
            let m = choose|m: int| 0 <= m < second.len() && second[m] == first[n];
            assert(chunk_index_of(encode_utf8(second[m]@)) == Some(k));
        }
        if names_hold(second, k) {
            let n = choose|n: int|
                0 <= n < second.len() && chunk_index_of(encode_utf8(#[trigger] second[n]@))
                    == Some(k);
            assert(second.contains(second[n]));
            let m = choose|m: int| 0 <= m < first.len() && first[m] == second[n];
            assert(chunk_index_of(encode_utf8(first[m]@)) == Some(k));
        }
    }
    lemma_ascending_determined(from_first, from_second);
}

/// The name of a chunk denotes that chunk, so one index always names the
/// same file and two indices never share one.
pub proof fn lemma_chunk_name_round_trip(index: usize)
    ensures
        chunk_index_of(chunk_name(index as nat)) == Some(index),
        is_ascii_bytes(chunk_name(index as nat)),
{
    let digits = decimal_digits(index as nat);
    let name = chunk_name(index as nat);
    lemma_decimal_digits_shape(index as nat);
    assert(name.subrange(0, 6) =~= name_prefix());
    assert(name.subrange(name.len() - 4, name.len() as int) =~= name_suffix());
    assert(name.subrange(6, name.len() - 4) =~= digits);
    assert forall|i: int| 0 <= i < name.len() implies #[trigger] name[i] < 128 by {
        if 6 <= i < 6 + digits.len() {
            assert(name[i] == digits[i - 6]);
        }
    }
}

/// Different chunks have different file names.
pub proof fn lemma_chunk_names_differ(a: usize, b: usize)
    requires
        a != b,
    ensures
        chunk_name(a as nat) != chunk_name(b as nat),
{
    lemma_chunk_name_round_trip(a);
    lemma_chunk_name_round_trip(b);
}

/// The name of the file that holds chunk `index`, as bytes.
pub fn chunk_name_bytes(index: usize) -> (r: Vec<u8>)
    ensures
        r@ == chunk_name(index as nat),
{
    let mut out: Vec<u8> = vec![99u8, 104u8, 117u8, 110u8, 107u8, 95u8];
    assert(out@ =~= name_prefix());
    let digits = render_decimal(index);
    push_all(&mut out, digits.as_slice());
    let tail: Vec<u8> = vec![46u8, 98u8, 105u8, 110u8];
    assert(tail@ =~= name_suffix());
    push_all(&mut out, tail.as_slice());
    out
}

/// The name of the file that holds chunk `index`: `chunk_<index>.bin`.
pub fn chunk_file_name(index: usize) -> (r: String)
    ensures
        encode_utf8(r@) == chunk_name(index as nat),
        chunk_index_of(encode_utf8(r@)) == Some(index),
{
    let bytes = chunk_name_bytes(index);
    proof {
        lemma_chunk_name_round_trip(index);
    }
    ascii_text(bytes)
}

/// The name of the directory that holds the chunks of `file_id`: the
/// identifier in hyphenated form.
pub fn storage_dir_name(file_id: FileId) -> (r: String)
    ensures
        encode_utf8(r@) == crate::file_id::hyphenated(file_id.bits),
{
    file_id.to_text()
}

/// Reads the chunk index out of a file name given as bytes.
pub fn chunk_index_from_bytes(name: &[u8]) -> (r: Option<usize>)
    ensures
        r == chunk_index_of(name@),
{
    let n: usize = name.len();
    if n < 10 {
        return None;
    }
    let head: Vec<u8> = vec![99u8, 104u8, 117u8, 110u8, 107u8, 95u8];
    assert(head@ =~= name_prefix());
    if !starts_with(name, head.as_slice()) {
        return None;
    }
    let tail: Vec<u8> = vec![46u8, 98u8, 105u8, 110u8];
    assert(tail@ =~= name_suffix());
    let end = slice_subrange(name, n - 4, n);
    if !crate::codec::bytes::same_bytes(end, tail.as_slice()) {
        return None;
    }
    parse_decimal(slice_subrange(name, 6, n - 4))
}

/// Reads the chunk index out of a file name. Names that are not of the form
/// `chunk_<index>.bin` give `None`.
pub fn parse_chunk_file_name(name: &str) -> (r: Option<usize>)
    ensures
        r == chunk_index_of(encode_utf8(name@)),
{
    chunk_index_from_bytes(name.as_bytes())
}

/// Puts `x` into the strictly ascending `v`, unless it is there already.
pub fn insert_ascending(v: &mut Vec<usize>, x: usize)
    requires
        strictly_ascending(old(v)@),
    ensures
        strictly_ascending(final(v)@),
        forall|k: usize| final(v)@.contains(k) <==> (old(v)@.contains(k) || k == x),
{
    let n: usize = v.len();
    let mut i: usize = 0;
    while i < n && v[i] < x
        invariant
            i <= n,
            n == v@.len(),
            v@ == old(v)@,
            forall|j: int| 0 <= j < i ==> v@[j] < x,
        decreases n - i,
    {
        i += 1;
    }
    if i < n && v[i] == x {
        assert(v@.contains(x));
        return ;
    }
    let ghost before = v@;
    v.insert(i, x);
    proof {
        let after = v@;
        assert(after.len() == before.len() + 1);
        assert forall|j: int| 0 <= j < after.len() implies after[j] == (if j < i {
            before[j]
        } else if j == i {
            x
        } else {
            before[j - 1]
        }) by {}
        assert forall|a: int, b: int| 0 <= a < b < after.len() implies after[a] < after[b] by {
            if b > i && a < i {
                assert(before[a] < x);
                assert(x < before[i as int] || i == before.len());
            }
        }
        assert forall|k: usize| after.contains(k) <==> (before.contains(k) || k == x) by {
            if after.contains(k) {
                let j = choose|j: int| 0 <= j < after.len() && after[j] == k;
                if j < i {
                    assert(before[j] == k);
                } else if j > i {
                    assert(before[j - 1] == k);
                }
            }
            if before.contains(k) {
                let j = choose|j: int| 0 <= j < before.len() && before[j] == k;
                if j < i {
                    assert(after[j] == k);
                } else {
                    assert(after[j + 1] == k);
                }
            }
            if k == x {
                assert(after[i as int] == k);
            }
        }
    }
}

/// The chunk indices present in a directory, given the names of its files.
///
/// Names that denote no chunk are ignored. The indices come back in
/// ascending order, each once, whatever the order of the names.
pub fn list_chunks(names: &Vec<String>) -> (r: Vec<usize>)
    ensures
        strictly_ascending(r@),
        forall|k: usize| r@.contains(k) <==> names_hold(names@, k),
{
    let mut out: Vec<usize> = Vec::new();
    let mut i: usize = 0;
    while i < names.len()
        invariant
            i <= names@.len(),
            strictly_ascending(out@),
            forall|k: usize| out@.contains(k) <==> names_hold(names@.subrange(0, i as int), k),
        decreases names@.len() - i,
    {
        let ghost seen = names@.subrange(0, i as int);
        let ghost grown = names@.subrange(0, i + 1);
        let ghost before = out@;
        let found = parse_chunk_file_name(names[i].as_str());
        match found {
            Some(index) => {
                insert_ascending(&mut out, index);
            },
            None => {},
        }
        proof {
            assert forall|k: usize| out@.contains(k) <==> names_hold(grown, k) by {
                if names_hold(grown, k) {
                    let n = choose|n: int|
                        0 <= n < grown.len() && chunk_index_of(encode_utf8(#[trigger] grown[n]@))
                            == Some(k);
                    if n < i {
                        assert(seen[n] == grown[n]);
                        assert(names_hold(seen, k));
                    }
                }
                if names_hold(seen, k) {
                    let n = choose|n: int|
                        0 <= n < seen.len() && chunk_index_of(encode_utf8(#[trigger] seen[n]@))
                            == Some(k);
                    assert(grown[n] == seen[n]);
                }
                if found == Some(k) {
                    assert(grown[i as int] == names@[i as int]);
                }
            }
        }
        i += 1;
    }
    assert(names@.subrange(0, names@.len() as int) =~= names@);
    out
}

} // verus!
