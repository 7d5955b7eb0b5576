//! Writer and reader agree: what one node writes, another reads as the
//! same frame, whatever follows it on the stream.

use crate::codec::bytes::{
    fields, first_from, first_index, has_prefix, is_space, lemma_first_from, lemma_first_from_is,
    lemma_trimmed_fixed, trimmed,
};
use crate::codec::decimal::{
    decimal_digits, is_digit, lemma_decimal_digits_shape, lemma_decimal_round_trip,
};
use crate::file_id::{hyphenated, lemma_hyphenated_shape, reads_back, FileId};
use crate::peer::frame::{
    chunk_request_word, chunk_response_word, dht_request_word, dht_response_word, first_frame,
    first_line, header_at, line_frame, transfer, FrameModel, Header, COLON, LINE_FEED,
};
use crate::codec::hex::{hex_text, lemma_hex_digit_value};
use crate::peer::message::{
    chunk_push_frame, chunk_request_line, chunk_response_frame, dht_request_line, encrypted_line,
    transfer_header,
};
use vstd::prelude::*;

verus! {

/// Whether `s` can stand as a field of a line: it holds no colon, no line
/// feed and no white space.
pub open spec fn plain(s: Seq<u8>) -> bool {
    forall|i: int| 0 <= i < s.len() ==> (#[trigger] s[i]) != COLON && !is_space(s[i])
}

/// Decimal digits and the hyphenated form of an identifier are plain.
pub proof fn lemma_plain_fields(id: FileId, n: nat)
    ensures
        plain(hyphenated(id.bits)),
        plain(decimal_digits(n)),
        hyphenated(id.bits).len() == 36,
        decimal_digits(n).len() >= 1,
{
    lemma_hyphenated_shape(id.bits);
    lemma_decimal_digits_shape(n);
    let d = decimal_digits(n);
    assert forall|i: int| 0 <= i < d.len() implies (#[trigger] d[i]) != COLON && !is_space(
        d[i],
    ) by {
        assert(is_digit(d[i]));
    }
}

/// In `front + field + [b] + back`, where `field` holds no `b`, the first `b`
/// after `front` is the one that ends `field`.
pub proof fn lemma_field_end(front: Seq<u8>, field: Seq<u8>, b: u8, back: Seq<u8>)
    requires
        forall|i: int| 0 <= i < field.len() ==> field[i] != b,
    ensures
        first_from(front + field.push(b) + back, b, front.len() as int) == front.len()
            + field.len(),
        (front + field.push(b) + back).subrange(
            front.len() as int,
            (front.len() + field.len()) as int,
        ) == field,
{
    let buf = front + field.push(b) + back;
    let s = front.len() as int;
    assert forall|i: int| s <= i < s + field.len() implies buf[i] != b by {
        assert(buf[i] == field[i - s]);
    }
    assert(buf[s + field.len()] == b);
    lemma_first_from_is(buf, b, s, s + field.len());
    assert(buf.subrange(s, s + field.len()) =~= field);
}

/// A transfer header reads back as what it was written from.
pub proof fn lemma_header_reads_back(
    front: Seq<u8>,
    id: FileId,
    chunk_index: usize,
    size: usize,
    back: Seq<u8>,
)
    requires
        reads_back(id),
        front.len() + transfer_header(id, chunk_index, size as nat).len() <= usize::MAX,
    ensures
        header_at(
            front + transfer_header(id, chunk_index, size as nat) + back,
            front.len() as int,
        ) == Some(
            Header {
                file_id: id,
                chunk_index,
                size,
                end: (front.len() + transfer_header(id, chunk_index, size as nat).len()) as usize,
            },
        ),
{
    let h = hyphenated(id.bits);
    let d1 = decimal_digits(chunk_index as nat);
    let d2 = decimal_digits(size as nat);
    let head = transfer_header(id, chunk_index, size as nat);
    let buf = front + head + back;
    let s = front.len() as int;
    lemma_plain_fields(id, chunk_index as nat);
    lemma_plain_fields(id, size as nat);
    lemma_decimal_round_trip(chunk_index);
    lemma_decimal_round_trip(size);
    let c1 = s + 36;
    let c2 = c1 + 1 + d1.len();
    let c3 = c2 + 1 + d2.len();
    let front1 = front + h.push(COLON);
    let front2 = front1 + d1.push(COLON);
    assert(buf =~= front + h.push(COLON) + (d1.push(COLON) + d2.push(COLON) + back));
    lemma_field_end(front, h, COLON, d1.push(COLON) + d2.push(COLON) + back);
    assert(buf =~= front1 + d1.push(COLON) + (d2.push(COLON) + back));
    lemma_field_end(front1, d1, COLON, d2.push(COLON) + back);
    assert(buf =~= front2 + d2.push(COLON) + back);
    lemma_field_end(front2, d2, COLON, back);
    assert(first_from(buf, COLON, s) == c1);
    assert(first_from(buf, COLON, c1 + 1) == c2);
    assert(first_from(buf, COLON, c2 + 1) == c3);
    lemma_first_from(buf, LINE_FEED, s);
    let nl = first_from(buf, LINE_FEED, s);
    assert(nl > c3) by {
        if nl <= c3 {
            assert(buf[nl] == LINE_FEED);
            if nl < c1 {
                assert(buf[nl] == h[nl - s]);
            } else if nl == c1 {
            } else if nl < c2 {
                assert(buf[nl] == d1[nl - c1 - 1]);
            } else if nl == c2 {
            } else if nl < c3 {
                assert(buf[nl] == d2[nl - c2 - 1]);
            } else {
            }
        }
    }
    assert(buf[c1] == COLON && buf[c2] == COLON && buf[c3] == COLON);
}

/// A pushed chunk reads back as the same chunk, whatever follows it.
pub proof fn lemma_push_reads_back(id: FileId, chunk_index: usize, data: Seq<u8>, rest: Seq<u8>)
    requires
        reads_back(id),
        chunk_push_frame(id, chunk_index, data).len() <= usize::MAX,
    ensures
        first_frame(chunk_push_frame(id, chunk_index, data) + rest) == Some(
            (
                FrameModel::ChunkPush { file_id: id, chunk_index, data },
                chunk_push_frame(id, chunk_index, data).len() as int,
            ),
        ),
{
    let head = transfer_header(id, chunk_index, data.len());
    let frame = chunk_push_frame(id, chunk_index, data);
    let buf = frame + rest;
    let word = chunk_response_word();
    lemma_plain_fields(id, chunk_index as nat);
    assert(buf[0] == hyphenated(id.bits)[0]);
    assert(buf[0] != word[0]);
    assert(!has_prefix(buf, word)) by {
        if has_prefix(buf, word) {
            assert(buf.subrange(0, word.len() as int)[0] == word[0]);
        }
    }
    lemma_header_reads_back(Seq::empty(), id, chunk_index, data.len() as usize, data + rest);
    assert(buf =~= Seq::<u8>::empty() + head + (data + rest));
    let end = head.len() as int;
    assert(buf.subrange(end, end + data.len()) =~= data);
}

/// A chunk sent in answer to a request reads back as the same chunk,
/// whatever follows it.
pub proof fn lemma_response_reads_back(id: FileId, chunk_index: usize, data: Seq<u8>, rest: Seq<u8>)
    requires
        reads_back(id),
        chunk_response_frame(id, chunk_index, data).len() <= usize::MAX,
    ensures
        first_frame(chunk_response_frame(id, chunk_index, data) + rest) == Some(
            (
                FrameModel::ChunkResponse { file_id: id, chunk_index, data },
                chunk_response_frame(id, chunk_index, data).len() as int,
            ),
        ),
{
    let head = transfer_header(id, chunk_index, data.len());
    let frame = chunk_response_frame(id, chunk_index, data);
    let buf = frame + rest;
    let word = chunk_response_word();
    assert(buf.subrange(0, word.len() as int) =~= word);
    lemma_header_reads_back(word, id, chunk_index, data.len() as usize, data + rest);
    assert(buf =~= word + head + (data + rest));
    let end = (word.len() + head.len()) as int;
    assert(buf.subrange(end, end + data.len()) =~= data);
}

/// Searching within a line is not disturbed by what follows the line.
pub proof fn lemma_first_from_in_line(line: Seq<u8>, tail: Seq<u8>, b: u8, from: int)
    requires
        0 <= from,
    ensures
        first_from(line, b, from) < line.len() ==> first_from(line + tail, b, from) == first_from(
            line,
            b,
            from,
        ),
        first_from(line, b, from) >= line.len() && from <= line.len() ==> first_from(
            line + tail,
            b,
            from,
        ) >= line.len(),
{
    let buf = line + tail;
    if from <= line.len() {
        lemma_first_from(line, b, from);
        lemma_first_from(buf, b, from);
        let k = first_from(line, b, from);
        assert forall|i: int| from <= i < k implies buf[i] != b by {
            assert(buf[i] == line[i]);
        }
        if k < line.len() {
            assert(buf[k] == line[k]);
            lemma_first_from_is(buf, b, from, k);
        } else {
            let j = first_from(buf, b, from);
            if j < line.len() {
                assert(buf[j] == line[j]);
            }
        }
    }
}

/// A line that holds no line feed and neither starts nor ends with white
/// space is read back as it is, whatever follows it.
pub proof fn lemma_line_reads_back(line: Seq<u8>, rest: Seq<u8>)
    requires
        forall|i: int| 0 <= i < line.len() ==> line[i] != LINE_FEED,
        line.len() > 0 ==> !is_space(line[0]) && !is_space(line.last()),
    ensures
        first_line(line.push(LINE_FEED) + rest) == Some((line, (line.len() + 1) as int)),
{
    let buf = line.push(LINE_FEED) + rest;
    assert forall|i: int| 0 <= i < line.len() implies buf[i] != LINE_FEED by {
        assert(buf[i] == line[i]);
    }
    assert(buf[line.len() as int] == LINE_FEED);
    lemma_first_from_is(buf, LINE_FEED, 0, line.len() as int);
    assert(buf.subrange(0, line.len() as int) =~= line);
    lemma_trimmed_fixed(line);
}

/// A line with fewer than three colons after `start` is no chunk header,
/// whatever follows it.
pub proof fn lemma_line_is_no_header(line: Seq<u8>, rest: Seq<u8>, start: int)
    requires
        0 <= start <= line.len(),
        forall|i: int| 0 <= i < line.len() ==> line[i] != LINE_FEED,
        first_from(
            line,
            COLON,
            first_from(line, COLON, first_from(line, COLON, start) + 1) + 1,
        ) >= line.len(),
    ensures
        header_at(line.push(LINE_FEED) + rest, start) is None,
{
    let buf = line.push(LINE_FEED) + rest;
    let tail = seq![LINE_FEED] + rest;
    assert(buf =~= line + tail);
    assert forall|i: int| start <= i < line.len() implies buf[i] != LINE_FEED by {
        assert(buf[i] == line[i]);
    }
    assert(buf[line.len() as int] == LINE_FEED);
    lemma_first_from_is(buf, LINE_FEED, start, line.len() as int);
    lemma_first_from(line, COLON, start);
    let c1 = first_from(line, COLON, start);
    lemma_first_from_in_line(line, tail, COLON, start);
    if c1 < line.len() {
        lemma_first_from(line, COLON, c1 + 1);
        let c2 = first_from(line, COLON, c1 + 1);
        lemma_first_from_in_line(line, tail, COLON, c1 + 1);
        if c2 < line.len() {
            lemma_first_from_in_line(line, tail, COLON, c2 + 1);
        } else {
            lemma_first_from(buf, COLON, c1 + 1);
            let b2 = first_from(buf, COLON, c1 + 1);
            if b2 + 1 <= buf.len() {
                lemma_first_from(buf, COLON, b2 + 1);
            }
        }
    } else {
        lemma_first_from(buf, COLON, start);
        let b1 = first_from(buf, COLON, start);
        if b1 + 1 <= buf.len() {
            lemma_first_from(buf, COLON, b1 + 1);
            let b2 = first_from(buf, COLON, b1 + 1);
            if b2 + 1 <= buf.len() {
                lemma_first_from(buf, COLON, b2 + 1);
            }
        }
    }
}

/// A byte string without a colon is one field.
pub proof fn lemma_fields_single(a: Seq<u8>)
    requires
        forall|i: int| 0 <= i < a.len() ==> a[i] != COLON,
    ensures
        fields(a, COLON) == seq![a],
        first_index(a, COLON) == a.len(),
{
    lemma_first_from_is(a, COLON, 0, a.len() as int);
}

/// A field, a colon and more is that field and then the fields of the rest.
pub proof fn lemma_fields_first(a: Seq<u8>, rest: Seq<u8>)
    requires
        forall|i: int| 0 <= i < a.len() ==> a[i] != COLON,
    ensures
        fields(a.push(COLON) + rest, COLON) == seq![a] + fields(rest, COLON),
        first_index(a.push(COLON) + rest, COLON) == a.len(),
{
    let s = a.push(COLON) + rest;
    assert(s =~= Seq::<u8>::empty() + a.push(COLON) + rest);
    lemma_field_end(Seq::empty(), a, COLON, rest);
    assert(s.subrange(0, a.len() as int) =~= a);
    assert(s.skip((a.len() + 1) as int) =~= rest);
}

/// The first line of an index listing: `DHT_RESPONSE:<count>` and a line
/// feed.
pub open spec fn listing_head(count: usize) -> Seq<u8> {
    dht_response_word() + decimal_digits(count as nat).push(LINE_FEED)
}

/// A request for the index reads back as one, whatever follows it.
pub proof fn lemma_index_request_reads_back(rest: Seq<u8>)
    ensures
        first_frame(dht_request_line() + rest) == Some((FrameModel::DhtRequest, 12int)),
{
    let word = dht_request_word();
    let buf = dht_request_line() + rest;
    assert(buf =~= word.push(LINE_FEED) + rest);
    assert(buf[0] == word[0]);
    assert(!has_prefix(buf, chunk_response_word())) by {
        if has_prefix(buf, chunk_response_word()) {
            assert(buf.subrange(0, 15)[0] == chunk_response_word()[0]);
        }
    }
    lemma_first_from_is(word, COLON, 0, 11);
    lemma_line_is_no_header(word, rest, 0);
    lemma_line_reads_back(word, rest);
}

/// A request for a chunk reads back as the same request, whatever follows
/// it.
pub proof fn lemma_chunk_request_reads_back(id: FileId, chunk_index: usize, rest: Seq<u8>)
    requires
        reads_back(id),
    ensures
        first_frame(chunk_request_line(id, chunk_index) + rest) == Some(
            (
                FrameModel::ChunkRequest { file_id: id, chunk_index },
                chunk_request_line(id, chunk_index).len() as int,
            ),
        ),
{
    let word = chunk_request_word();
    let name = word.subrange(0, 13);
    let h = hyphenated(id.bits);
    let d = decimal_digits(chunk_index as nat);
    let line = word + h.push(COLON) + d;
    let buf = chunk_request_line(id, chunk_index) + rest;
    lemma_plain_fields(id, chunk_index as nat);
    lemma_decimal_round_trip(chunk_index);
    assert(word =~= name.push(COLON));
    assert(buf =~= line.push(LINE_FEED) + rest);
    assert(chunk_request_line(id, chunk_index).len() == line.len() + 1);
    assert(buf[7] == word[7]);
    assert(!has_prefix(buf, chunk_response_word())) by {
        if has_prefix(buf, chunk_response_word()) {
            assert(buf.subrange(0, 15)[7] == chunk_response_word()[7]);
        }
    }
    assert forall|i: int| 0 <= i < line.len() implies line[i] != LINE_FEED by {
        if i < 14 {
            assert(line[i] == word[i]);
        } else if i < 50 {
            assert(line[i] == h[i - 14]);
        } else if i > 50 {
            assert(line[i] == d[i - 51]);
        }
    }
    assert(line =~= Seq::<u8>::empty() + name.push(COLON) + (h.push(COLON) + d));
    lemma_field_end(Seq::empty(), name, COLON, h.push(COLON) + d);
    lemma_field_end(word, h, COLON, d);
    assert forall|i: int| 51 <= i < line.len() implies line[i] != COLON by {
        assert(line[i] == d[i - 51]);
    }
    lemma_first_from_is(line, COLON, 51, line.len() as int);
    lemma_line_is_no_header(line, rest, 0);
    assert(line[0] == word[0]);
    assert(line.last() == d.last());
    assert(is_digit(d[d.len() - 1]));
    lemma_line_reads_back(line, rest);
    assert(line =~= name.push(COLON) + (h.push(COLON) + d));
    lemma_fields_first(name, h.push(COLON) + d);
    lemma_fields_first(h, d);
    lemma_fields_single(d);
    let parts = fields(line, COLON);
    assert(parts =~= seq![name, h, d]);
    assert(line.subrange(0, 14) =~= word);
    assert(!has_prefix(line, dht_response_word())) by {
        if has_prefix(line, dht_response_word()) {
            assert(line.subrange(0, 13)[0] == dht_response_word()[0]);
        }
    }
    assert(line != dht_request_word());
}

/// The first line of an index listing reads back as the announcement of as
/// many entries, whatever follows it.
pub proof fn lemma_listing_head_reads_back(count: usize, rest: Seq<u8>)
    ensures
        first_frame(listing_head(count) + rest) == Some(
            (FrameModel::DhtResponse { count }, listing_head(count).len() as int),
        ),
{
    let word = dht_response_word();
    let name = word.subrange(0, 12);
    let d = decimal_digits(count as nat);
    let line = word + d;
    let buf = listing_head(count) + rest;
    lemma_decimal_digits_shape(count as nat);
    lemma_decimal_round_trip(count);
    assert(word =~= name.push(COLON));
    assert(buf =~= line.push(LINE_FEED) + rest);
    assert(listing_head(count).len() == line.len() + 1);
    assert(buf[0] == word[0]);
    assert(!has_prefix(buf, chunk_response_word())) by {
        if has_prefix(buf, chunk_response_word()) {
            assert(buf.subrange(0, 15)[0] == chunk_response_word()[0]);
        }
    }
    assert forall|i: int| 0 <= i < line.len() implies line[i] != LINE_FEED && (i >= 13
        ==> line[i] != COLON) by {
        if i < 13 {
            assert(line[i] == word[i]);
        } else {
            assert(line[i] == d[i - 13]);
            assert(is_digit(d[i - 13]));
        }
    }
    assert(line =~= Seq::<u8>::empty() + name.push(COLON) + d);
    lemma_field_end(Seq::empty(), name, COLON, d);
    lemma_first_from_is(line, COLON, 13, line.len() as int);
    lemma_line_is_no_header(line, rest, 0);
    assert(line[0] == word[0]);
    assert(line.last() == d.last());
    assert(is_digit(d[d.len() - 1]));
    lemma_line_reads_back(line, rest);
    assert(line =~= name.push(COLON) + d);
    assert forall|i: int| 0 <= i < d.len() implies d[i] != COLON by {
        assert(is_digit(d[i]));
    }
    lemma_fields_first(name, d);
    lemma_fields_single(d);
    let parts = fields(line, COLON);
    assert(parts =~= seq![name, d]);
    assert(line.subrange(0, 13) =~= word);
    assert(line != dht_request_word()) by {
        if line.len() >= 7 {
            assert(line[6] == word[6]);
        }
    }
}

/// Hexadecimal text is plain.
pub proof fn lemma_hex_text_plain(data: Seq<u8>)
    ensures
        plain(hex_text(data)),
        forall|i: int|
            0 <= i < hex_text(data).len() ==> (#[trigger] hex_text(data)[i]) != LINE_FEED && (48
                <= hex_text(data)[i] <= 57 || 97 <= hex_text(data)[i] <= 102),
{
    let text = hex_text(data);
    assert forall|i: int| 0 <= i < text.len() implies (#[trigger] text[i]) != COLON && !is_space(
        text[i],
    ) && text[i] != LINE_FEED && (48 <= text[i] <= 57 || 97 <= text[i] <= 102) by {
        lemma_hex_digit_value(data[i / 2] / 16);
        lemma_hex_digit_value(data[i / 2] % 16);
    }
}

/// Whether `s` is made of digits and lower-case letters `a` to `f` only.
pub open spec fn lower_hex(s: Seq<u8>) -> bool {
    forall|i: int| 0 <= i < s.len() ==> (48 <= #[trigger] s[i] <= 57 || 97 <= s[i] <= 102)
}

/// A line of two lower-case hexadecimal fields reads back as an encrypted
/// message with those fields, whatever follows it.
pub proof fn lemma_hex_line_reads_back(n: Seq<u8>, c: Seq<u8>, rest: Seq<u8>)
    requires
        lower_hex(n),
        lower_hex(c),
    ensures
        first_frame(encrypted_line(n, c) + rest) == Some(
            (
                FrameModel::EncryptedText { nonce: n, ciphertext: c },
                encrypted_line(n, c).len() as int,
            ),
        ),
{
    let line = n.push(COLON) + c;
    let buf = encrypted_line(n, c) + rest;
    assert(buf =~= line.push(LINE_FEED) + rest);
    assert(encrypted_line(n, c).len() == line.len() + 1);
    assert forall|i: int| 0 <= i < line.len() implies line[i] != LINE_FEED && !is_space(
        line[i],
    ) && line[i] != 67 && line[i] != 68 && (i > n.len() ==> line[i] != COLON) by {
        if i < n.len() {
            assert(line[i] == n[i]);
        } else if i > n.len() {
            assert(line[i] == c[i - n.len() - 1]);
        }
    }
    assert(buf[0] == line[0]);
    assert(!has_prefix(buf, chunk_response_word())) by {
        if has_prefix(buf, chunk_response_word()) {
            assert(buf.subrange(0, 15)[0] == chunk_response_word()[0]);
        }
    }
    assert(line =~= Seq::<u8>::empty() + n.push(COLON) + c);
    assert forall|i: int| 0 <= i < n.len() implies n[i] != COLON by {}
    assert forall|i: int| 0 <= i < c.len() implies c[i] != COLON by {}
    lemma_field_end(Seq::empty(), n, COLON, c);
    lemma_first_from_is(line, COLON, (n.len() + 1) as int, line.len() as int);
    lemma_line_is_no_header(line, rest, 0);
    lemma_line_reads_back(line, rest);
    lemma_hex_line_is_a_message(n, c);
}

/// A trimmed line of two lower-case hexadecimal fields is an encrypted
/// message.
proof fn lemma_hex_line_is_a_message(n: Seq<u8>, c: Seq<u8>)
    requires
        lower_hex(n),
        lower_hex(c),
    ensures
        line_frame(n.push(COLON) + c) == (FrameModel::EncryptedText { nonce: n, ciphertext: c }),
{
    let line = n.push(COLON) + c;
    assert forall|i: int| 0 <= i < n.len() implies n[i] != COLON by {}
    assert forall|i: int| 0 <= i < c.len() implies c[i] != COLON by {}
    lemma_fields_first(n, c);
    lemma_fields_single(c);
    let parts = fields(line, COLON);
    assert(parts =~= seq![n, c]);
    assert(line[0] != 67 && line[0] != 68) by {
        if n.len() > 0 {
            assert(line[0] == n[0]);
        }
    }
    assert(line != dht_request_word()) by {
        if line == dht_request_word() {
            assert(line[0] == dht_request_word()[0]);
        }
    }
    assert(!has_prefix(line, dht_response_word())) by {
        if has_prefix(line, dht_response_word()) {
            assert(line.subrange(0, 13)[0] == dht_response_word()[0]);
        }
    }
    assert(!has_prefix(line, chunk_request_word())) by {
        if has_prefix(line, chunk_request_word()) {
            assert(line.subrange(0, 14)[0] == chunk_request_word()[0]);
        }
    }
    assert(!has_prefix(line, chunk_response_word())) by {
        if has_prefix(line, chunk_response_word()) {
            assert(line.subrange(0, 15)[0] == chunk_response_word()[0]);
        }
    }
}

/// An encrypted message reads back as the same nonce and ciphertext,
/// whatever follows it.
pub proof fn lemma_encrypted_line_reads_back(nonce: Seq<u8>, ciphertext: Seq<u8>, rest: Seq<u8>)
    ensures
        first_frame(encrypted_line(hex_text(nonce), hex_text(ciphertext)) + rest) == Some(
            (
                FrameModel::EncryptedText {
                    nonce: hex_text(nonce),
                    ciphertext: hex_text(ciphertext),
                },
                encrypted_line(hex_text(nonce), hex_text(ciphertext)).len() as int,
            ),
        ),
{
    lemma_hex_text_plain(nonce);
    lemma_hex_text_plain(ciphertext);
    lemma_hex_line_reads_back(hex_text(nonce), hex_text(ciphertext), rest);
}

} // verus!
