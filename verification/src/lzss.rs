//! The deterministic LZSS codec for embedded text resources.
//!
//! A stream is a sequence of tokens. A header byte below 0x80 starts a literal
//! run of `header + 1` bytes; a header byte with the high bit set is a match of
//! `(header & 0x7f) + 4` bytes copied from `distance` bytes back, the distance
//! following as two little-endian bytes. Decoding fails closed on a malformed
//! stream and on any output that differs from the declared length.

use vstd::prelude::*;
use vstd::utf8::{decode_utf8, encode_utf8, encode_utf8_decode_utf8, encode_utf8_valid_utf8, valid_utf8};
use crate::text::{decimal, push_str, usize_to_decimal};

verus! {

pub const LZSS_HASH_SLOTS: usize = 4096;
pub const LZSS_MAX_DISTANCE: usize = 65535;
pub const LZSS_MIN_MATCH: usize = 4;
pub const LZSS_MAX_MATCH: usize = 131;
pub const LZSS_LITERAL_CHUNK: usize = 128;

/// Hash of the three bytes at `p`.
pub open spec fn spec_hash(input: Seq<u8>, p: int) -> usize {
    let sequence: usize = (input[p] as int + input[p + 1] as int * 256 + input[p + 2] as int
        * 65536) as usize;
    (sequence.wrapping_mul(2654435761usize) >> 16usize) & 4095usize
}

/// Length of the common run of `input[cand..]` and `input[p..]`, from `k`, capped at `limit`.
pub open spec fn common_from(input: Seq<u8>, cand: int, p: int, limit: int, k: int) -> int
    decreases limit - k,
{
    if k < limit && input[cand + k] == input[p + k] {
        common_from(input, cand, p, limit, k + 1)
    } else {
        k
    }
}

/// The match found at `p` (`(length, distance)`, or `(0, 0)` for none) and the
/// hash table after `p` is recorded in it.
pub open spec fn spec_match(input: Seq<u8>, ps: Seq<usize>, p: int) -> (int, int, Seq<usize>) {
    if p + 4 > input.len() {
        (0, 0, ps)
    } else {
        let h = spec_hash(input, p) as int;
        let cand = ps[h];
        let ps2 = ps.update(h, p as usize);
        if cand == usize::MAX || cand >= p || p - cand > 65535 {
            (0, 0, ps2)
        } else {
            let available = input.len() - p;
            let limit = if available < 131 { available } else { 131 };
            let length = common_from(input, cand as int, p, limit, 0);
            if length < 4 {
                (0, 0, ps2)
            } else {
                (length, p - cand, ps2)
            }
        }
    }
}

/// The hash table after the positions inside a match, from `cursor` up to `end`, are recorded.
pub open spec fn record_from(input: Seq<u8>, ps: Seq<usize>, cursor: int, end: int) -> Seq<usize>
    decreases end - cursor,
{
    if cursor >= end {
        ps
    } else if cursor + 4 <= input.len() {
        record_from(input, ps.update(spec_hash(input, cursor) as int, cursor as usize), cursor + 1, end)
    } else {
        record_from(input, ps, cursor + 1, end)
    }
}

/// The well-formed hash table: one slot per hash value.
pub open spec fn table_ok(ps: Seq<usize>) -> bool {
    ps.len() == 4096
}

proof fn lemma_hash_bound(input: Seq<u8>, p: int)
    ensures
        spec_hash(input, p) < 4096,
{
    let s: usize = (input[p] as int + input[p + 1] as int * 256 + input[p + 2] as int * 65536) as usize;
    let m = s.wrapping_mul(2654435761usize) >> 16usize;
    assert(m & 4095usize < 4096usize) by (bit_vector);
}

proof fn lemma_record_table(input: Seq<u8>, ps: Seq<usize>, cursor: int, end: int)
    requires
        table_ok(ps),
    ensures
        table_ok(record_from(input, ps, cursor, end)),
    decreases end - cursor,
{
    if cursor < end {
        if cursor + 4 <= input.len() {
            lemma_hash_bound(input, cursor);
            lemma_record_table(input, ps.update(spec_hash(input, cursor) as int, cursor as usize), cursor + 1, end);
        } else {
            lemma_record_table(input, ps, cursor + 1, end);
        }
    }
}

proof fn lemma_common_bounds(input: Seq<u8>, cand: int, p: int, limit: int, k: int)
    requires
        0 <= k <= limit,
        0 <= cand < p,
        p + limit <= input.len(),
        forall|j: int| 0 <= j < k ==> input[cand + j] == #[trigger] input[p + j],
    ensures
        k <= common_from(input, cand, p, limit, k) <= limit,
        forall|j: int| 0 <= j < common_from(input, cand, p, limit, k) ==> input[cand + j] == #[trigger] input[p + j],
    decreases limit - k,
{
    if k < limit && input[cand + k] == input[p + k] {
        lemma_common_bounds(input, cand, p, limit, k + 1);
    }
}

/// What a match promises: in bounds, and the copied bytes equal the bytes at `p`.
pub open spec fn match_ok(input: Seq<u8>, p: int, length: int, distance: int) -> bool {
    length == 0 && distance == 0 || (4 <= length <= 131 && 1 <= distance <= 65535 && distance <= p
        && p + length <= input.len() && forall|j: int| 0 <= j < length ==> input[p - distance + j]
        == #[trigger] input[p + j])
}

proof fn lemma_match_ok(input: Seq<u8>, ps: Seq<usize>, p: int)
    requires
        table_ok(ps),
        0 <= p,
    ensures
        match_ok(input, p, spec_match(input, ps, p).0, spec_match(input, ps, p).1),
        table_ok(spec_match(input, ps, p).2),
{
    if p + 4 <= input.len() {
        lemma_hash_bound(input, p);
        let h = spec_hash(input, p) as int;
        let cand = ps[h];
        if !(cand == usize::MAX || cand >= p || p - cand > 65535) {
            let available = input.len() - p;
            let limit = if available < 131 { available } else { 131 };
            lemma_common_bounds(input, cand as int, p, limit, 0);
        }
    }
}

/// Hash of the three bytes at `position`.
pub fn lzss_hash(input: &[u8], position: usize) -> (r: usize)
    requires
        position + 2 < input@.len(),
    ensures
        r == spec_hash(input@, position as int),
        r < LZSS_HASH_SLOTS,
{
    let sequence: usize = input[position] as usize + (input[position + 1] as usize) * 256
        + (input[position + 2] as usize) * 65536;
    proof {
        lemma_hash_bound(input@, position as int);
    }
    (sequence.wrapping_mul(2654435761usize) >> 16usize) & 4095usize
}

/// Look up a match at `position` and record `position` in the hash table.
pub fn lzss_match(input: &[u8], positions: &mut Vec<usize>, position: usize) -> (r: (usize, usize))
    requires
        table_ok(old(positions)@),
    ensures
        table_ok(final(positions)@),
        r.0 as int == spec_match(input@, old(positions)@, position as int).0,
        r.1 as int == spec_match(input@, old(positions)@, position as int).1,
        final(positions)@ == spec_match(input@, old(positions)@, position as int).2,
        match_ok(input@, position as int, r.0 as int, r.1 as int),
{
    proof {
        lemma_match_ok(input@, positions@, position as int);
    }
    if input.len() < 4 || position > input.len() - 4 {
        return (0, 0);
    }
    let hash = lzss_hash(input, position);
    let candidate = positions[hash];
    positions.set(hash, position);
    if candidate == usize::MAX || candidate >= position || position - candidate > LZSS_MAX_DISTANCE {
        return (0, 0);
    }
    let available = input.len() - position;
    let limit = if available < LZSS_MAX_MATCH { available } else { LZSS_MAX_MATCH };
    let mut length: usize = 0;
    while length < limit
        invariant
            length <= limit,
            limit <= 131,
            candidate < position,
            position + limit <= input.len(),
            common_from(input@, candidate as int, position as int, limit as int, 0)
                == common_from(input@, candidate as int, position as int, limit as int, length as int),
        ensures
            common_from(input@, candidate as int, position as int, limit as int, 0) == length,
        decreases limit - length,
    {
        if input[candidate + length] != input[position + length] {
            break;
        }
        length += 1;
    }
    if length < LZSS_MIN_MATCH {
        (0, 0)
    } else {
        (length, position - candidate)
    }
}

/// Record every position inside a match, after the first, in the hash table.
pub fn lzss_record_match_positions(
    input: &[u8],
    positions: &mut Vec<usize>,
    position: usize,
    match_length: usize,
)
    requires
        table_ok(old(positions)@),
        position + match_length <= input.len(),
        position < input.len(),
    ensures
        table_ok(final(positions)@),
        final(positions)@ == record_from(
            input@,
            old(positions)@,
            position + 1,
            position + match_length,
        ),
{
    let mut cursor = position + 1;
    let end = position + match_length;
    proof {
        lemma_record_table(input@, positions@, cursor as int, end as int);
    }
    while cursor < end
        invariant
            table_ok(positions@),
            end <= input@.len(),
            record_from(input@, old(positions)@, position + 1, end as int) == record_from(
                input@,
                positions@,
                cursor as int,
                end as int,
            ),
        decreases end - cursor,
    {
        if input.len() >= 4 && cursor <= input.len() - 4 {
            let h = lzss_hash(input, cursor);
            positions.set(h, cursor);
        }
        cursor += 1;
    }
}

/// Size of a literal run once split into chunks of at most 128 bytes, each with a header.
pub open spec fn literal_len(n: int) -> int {
    n + (n + 127) / 128
}

pub fn lzss_literal_encoded_len(length: usize) -> (r: usize)
    requires
        length <= usize::MAX / 2,
    ensures
        r as int == literal_len(length as int),
{
    length + (length / 128 + if length % 128 == 0 { 0 } else { 1 })
}

/// A literal run split into chunks of at most 128 bytes, each after a header `len - 1`.
pub open spec fn literal_chunks(x: Seq<u8>) -> Seq<u8>
    decreases x.len(),
{
    if x.len() == 0 {
        seq![]
    } else {
        let n = if x.len() < 128 { x.len() as int } else { 128 };
        seq![(n - 1) as u8] + x.take(n) + literal_chunks(x.skip(n))
    }
}

/// A match token: header `0x80 | (length - 4)`, then the distance, little-endian.
pub open spec fn match_token(length: int, distance: int) -> Seq<u8> {
    seq![(128 + length - 4) as u8, (distance % 256) as u8, (distance / 256) as u8]
}

/// The hash table the codec starts from: every slot empty.
pub open spec fn empty_table() -> Seq<usize> {
    Seq::new(4096, |i: int| usize::MAX)
}

/// The encoding of `input[literal_start..]`, scanning from `position` with table `ps`.
pub open spec fn encode_from(input: Seq<u8>, ps: Seq<usize>, position: int, literal_start: int) -> Seq<u8>
    decreases input.len() - position,
{
    if position >= input.len() {
        literal_chunks(input.subrange(literal_start, input.len() as int))
    } else {
        let (l, d, ps2) = spec_match(input, ps, position);
        if l <= 0 || position + l > input.len() {
            encode_from(input, ps2, position + 1, literal_start)
        } else {
            literal_chunks(input.subrange(literal_start, position)) + match_token(l, d) + encode_from(
                input,
                record_from(input, ps2, position + 1, position + l),
                position + l,
                position + l,
            )
        }
    }
}

/// The size of `encode_from`, computed the way `lzss_compressed_len` counts it.
pub open spec fn len_from(input: Seq<u8>, ps: Seq<usize>, position: int, literal_start: int) -> int
    decreases input.len() - position,
{
    if position >= input.len() {
        literal_len(input.len() - literal_start)
    } else {
        let (l, d, ps2) = spec_match(input, ps, position);
        if l <= 0 || position + l > input.len() {
            len_from(input, ps2, position + 1, literal_start)
        } else {
            literal_len(position - literal_start) + 3 + len_from(
                input,
                record_from(input, ps2, position + 1, position + l),
                position + l,
                position + l,
            )
        }
    }
}

/// The deterministic LZSS encoding of `input`.
pub open spec fn lzss_encode(input: Seq<u8>) -> Seq<u8> {
    encode_from(input, empty_table(), 0, 0)
}

/// The encoded size `lzss_compressed_len` reports for `input`.
pub open spec fn lzss_encoded_len(input: Seq<u8>) -> int {
    len_from(input, empty_table(), 0, 0)
}

/// Why a stream does not decode.
#[derive(Debug, Clone, Copy, PartialEq, Eq, Structural)]
pub enum LzssFault {
    TruncatedLiteral,
    OutputOverflow,
    TruncatedDistance,
    InvalidDistance,
    LengthMismatch { decoded: usize },
}

/// `out` extended by `length` bytes, each copied from `distance` bytes back.
pub open spec fn copy_match(out: Seq<u8>, distance: int, length: int) -> Seq<u8>
    decreases length,
{
    if length <= 0 {
        out
    } else {
        copy_match(out.push(out[out.len() - distance]), distance, length - 1)
    }
}

/// Decoding of `input` from `pos` onwards, with `out` decoded so far.
pub open spec fn decode_from(input: Seq<u8>, pos: int, out: Seq<u8>, expected: int) -> Result<Seq<u8>, LzssFault>
    decreases input.len() - pos,
{
    if pos >= input.len() {
        if out.len() == expected {
            Ok(out)
        } else {
            Err(LzssFault::LengthMismatch { decoded: out.len() as usize })
        }
    } else {
        let header = input[pos];
        if header < 128 {
            let length = header + 1;
            let end = pos + 1 + length;
            if end > input.len() {
                Err(LzssFault::TruncatedLiteral)
            } else if out.len() + length > expected {
                Err(LzssFault::OutputOverflow)
            } else {
                decode_from(input, end, out + input.subrange(pos + 1, end), expected)
            }
        } else if pos + 3 > input.len() {
            Err(LzssFault::TruncatedDistance)
        } else {
            let distance = input[pos + 1] + input[pos + 2] * 256;
            if distance == 0 || distance > out.len() {
                Err(LzssFault::InvalidDistance)
            } else {
                let length = header - 128 + 4;
                if out.len() + length > expected {
                    Err(LzssFault::OutputOverflow)
                } else {
                    decode_from(input, pos + 3, copy_match(out, distance, length), expected)
                }
            }
        }
    }
}

/// Decoding of a whole stream declared to hold `expected` bytes.
pub open spec fn lzss_decode(input: Seq<u8>, expected: int) -> Result<Seq<u8>, LzssFault> {
    decode_from(input, 0, Seq::empty(), expected)
}

proof fn lemma_literal_chunks_len(x: Seq<u8>)
    ensures
        literal_chunks(x).len() == literal_len(x.len() as int),
    decreases x.len(),
{
    if x.len() > 0 {
        let n = if x.len() < 128 { x.len() as int } else { 128 };
        lemma_literal_chunks_len(x.skip(n));
    }
}

proof fn lemma_decode_literals(pre: Seq<u8>, x: Seq<u8>, rest: Seq<u8>, out: Seq<u8>, expected: int)
    requires
        out.len() + x.len() <= expected,
    ensures
        decode_from(pre + literal_chunks(x) + rest, pre.len() as int, out, expected) == decode_from(
            pre + literal_chunks(x) + rest,
            pre.len() + literal_chunks(x).len() as int,
            out + x,
            expected,
        ),
    decreases x.len(),
{
    if x.len() == 0 {
        assert(out + x =~= out);
    } else {
        let n = if x.len() < 128 { x.len() as int } else { 128 };
        let h = seq![(n - 1) as u8];
        let s = pre + literal_chunks(x) + rest;
        let pre2 = pre + h + x.take(n);
        let x2 = x.skip(n);
        assert(literal_chunks(x) == h + x.take(n) + literal_chunks(x2));
        assert(s =~= pre2 + literal_chunks(x2) + rest);
        assert(s[pre.len() as int] == (n - 1) as u8);
        assert(s.subrange(pre.len() + 1int, pre.len() + 1 + n) =~= x.take(n));
        lemma_decode_literals(pre2, x2, rest, out + x.take(n), expected);
        assert(out + x.take(n) + x2 =~= out + x);
    }
}

proof fn lemma_decode_match(pre: Seq<u8>, rest: Seq<u8>, out: Seq<u8>, expected: int, length: int, distance: int)
    requires
        4 <= length <= 131,
        1 <= distance <= 65535,
        distance <= out.len(),
        out.len() + length <= expected,
    ensures
        decode_from(pre + match_token(length, distance) + rest, pre.len() as int, out, expected)
            == decode_from(
            pre + match_token(length, distance) + rest,
            pre.len() + 3int,
            copy_match(out, distance, length),
            expected,
        ),
{
    let s = pre + match_token(length, distance) + rest;
    let p = pre.len() as int;
    assert(s[p] == (128 + length - 4) as u8);
    assert(s[p + 1] == (distance % 256) as u8);
    assert(s[p + 2] == (distance / 256) as u8);
    assert(s[p + 1] + s[p + 2] * 256 == distance);
}

proof fn lemma_copy_match(input: Seq<u8>, p: int, distance: int, length: int)
    requires
        0 <= length,
        1 <= distance <= p,
        p + length <= input.len(),
        forall|j: int| 0 <= j < length ==> input[p - distance + j] == #[trigger] input[p + j],
    ensures
        copy_match(input.take(p), distance, length) == input.take(p + length),
    decreases length,
{
    if length > 0 {
        let out = input.take(p);
        assert(out[out.len() - distance] == input[p - distance + 0]);
        assert(input[p - distance + 0] == input[p + 0]);
        assert(out.push(out[out.len() - distance]) =~= input.take(p + 1));
        assert forall|j: int| 0 <= j < length - 1 implies input[(p + 1) - distance + j] == #[trigger] input[(p + 1) + j] by {
            assert(input[p - distance + (j + 1)] == input[p + (j + 1)]);
        }
        lemma_copy_match(input, p + 1, distance, length - 1);
    }
}

proof fn lemma_encode_roundtrip(input: Seq<u8>, ps: Seq<usize>, position: int, literal_start: int, pre: Seq<u8>)
    requires
        table_ok(ps),
        0 <= literal_start <= position <= input.len(),
    ensures
        decode_from(
            pre + encode_from(input, ps, position, literal_start),
            pre.len() as int,
            input.take(literal_start),
            input.len() as int,
        ) == Ok::<Seq<u8>, LzssFault>(input),
    decreases input.len() - position,
{
    let n = input.len() as int;
    if position >= n {
        let x = input.subrange(literal_start, n);
        let s = pre + encode_from(input, ps, position, literal_start);
        assert(s =~= pre + literal_chunks(x) + Seq::<u8>::empty());
        lemma_decode_literals(pre, x, Seq::<u8>::empty(), input.take(literal_start), n);
        assert(input.take(literal_start) + x =~= input);
    } else {
        lemma_match_ok(input, ps, position);
        let (l, d, ps2) = spec_match(input, ps, position);
        if l <= 0 || position + l > input.len() {
            lemma_encode_roundtrip(input, ps2, position + 1, literal_start, pre);
        } else {
            let x = input.subrange(literal_start, position);
            let tok = match_token(l, d);
            let ps3 = record_from(input, ps2, position + 1, position + l);
            lemma_record_table(input, ps2, position + 1, position + l);
            let tail = encode_from(input, ps3, position + l, position + l);
            let s = pre + encode_from(input, ps, position, literal_start);
            assert(s =~= pre + literal_chunks(x) + (tok + tail));
            lemma_decode_literals(pre, x, tok + tail, input.take(literal_start), n);
            assert(input.take(literal_start) + x =~= input.take(position));
            let pre2 = pre + literal_chunks(x);
            assert(s =~= pre2 + tok + tail);
            lemma_decode_match(pre2, tail, input.take(position), n, l, d);
            lemma_copy_match(input, position, d, l);
            let pre3 = pre2 + tok;
            assert(s =~= pre3 + tail);
            lemma_encode_roundtrip(input, ps3, position + l, position + l, pre3);
        }
    }
}

/// Decoding the encoding of any input gives the input back.
pub proof fn law_decode_inverts_encode(input: Seq<u8>)
    ensures
        lzss_decode(lzss_encode(input), input.len() as int) == Ok::<Seq<u8>, LzssFault>(input),
{
    lemma_encode_roundtrip(input, empty_table(), 0, 0, Seq::<u8>::empty());
    assert(Seq::<u8>::empty() + lzss_encode(input) =~= lzss_encode(input));
    assert(input.take(0) =~= Seq::<u8>::empty());
}

proof fn lemma_len_from(input: Seq<u8>, ps: Seq<usize>, position: int, literal_start: int)
    requires
        table_ok(ps),
        0 <= literal_start <= position <= input.len(),
    ensures
        len_from(input, ps, position, literal_start) == encode_from(input, ps, position, literal_start).len(),
        len_from(input, ps, position, literal_start) <= 2 * (input.len() - literal_start),
    decreases input.len() - position,
{
    let n = input.len() as int;
    if position >= n {
        lemma_literal_chunks_len(input.subrange(literal_start, n));
    } else {
        lemma_match_ok(input, ps, position);
        let (l, d, ps2) = spec_match(input, ps, position);
        if l <= 0 || position + l > input.len() {
            lemma_len_from(input, ps2, position + 1, literal_start);
        } else {
            lemma_literal_chunks_len(input.subrange(literal_start, position));
            lemma_record_table(input, ps2, position + 1, position + l);
            lemma_len_from(input, record_from(input, ps2, position + 1, position + l), position + l, position + l);
        }
    }
}

/// Literal headers of two runs cost at most one more than those of the runs
/// joined, and more literals never need fewer headers.
proof fn lemma_headers_split(a: int, b: int, c: int)
    requires
        0 <= a,
        0 <= b,
        a + b <= c,
    ensures
        (a + 127) / 128 + (b + 127) / 128 <= (c + 127) / 128 + 1,
{
    assert((a + 127) / 128 + (b + 127) / 128 <= (a + b + 127) / 128 + 1) by (nonlinear_arith)
        requires
            0 <= a,
            0 <= b,
    ;
    assert((a + b + 127) / 128 <= (c + 127) / 128) by (nonlinear_arith)
        requires
            0 <= a + b <= c,
    ;
}

proof fn lemma_len_from_tight(input: Seq<u8>, ps: Seq<usize>, position: int, literal_start: int)
    requires
        table_ok(ps),
        0 <= literal_start <= position <= input.len(),
    ensures
        len_from(input, ps, position, literal_start) <= literal_len(input.len() - literal_start),
    decreases input.len() - position,
{
    let n = input.len() as int;
    if position < n {
        lemma_match_ok(input, ps, position);
        let (l, d, ps2) = spec_match(input, ps, position);
        if l <= 0 || position + l > input.len() {
            lemma_len_from_tight(input, ps2, position + 1, literal_start);
        } else {
            lemma_record_table(input, ps2, position + 1, position + l);
            lemma_len_from_tight(input, record_from(input, ps2, position + 1, position + l), position + l, position + l);
            lemma_headers_split(position - literal_start, n - (position + l), n - literal_start);
        }
    }
}

/// The size `lzss_compressed_len` reports is the size of the encoding, and
/// it never exceeds the input's length plus one header byte for every 128
/// bytes: a match costs three bytes for at least four it replaces, which
/// pays for the header of the literal run after it.
pub proof fn law_encoded_len(input: Seq<u8>)
    ensures
        lzss_encoded_len(input) == lzss_encode(input).len(),
        lzss_encoded_len(input) <= 2 * input.len(),
        lzss_encoded_len(input) <= input.len() + (input.len() + 127) / 128,
{
    lemma_len_from(input, empty_table(), 0, 0);
    lemma_len_from_tight(input, empty_table(), 0, 0);
}

/// Size of the LZSS encoding of `input` (the length of `lzss_compress(input)`).
pub fn lzss_compressed_len(input: &[u8]) -> (r: usize)
    requires
        input@.len() <= isize::MAX,
    ensures
        r as int == lzss_encoded_len(input@),
        r <= input@.len() + (input@.len() + 127) / 128,
{
    proof {
        law_encoded_len(input@);
    }
    let mut positions = empty_positions();
    let mut position: usize = 0;
    let mut literal_start: usize = 0;
    let mut encoded_len: usize = 0;
    while position < input.len()
        invariant
            table_ok(positions@),
            literal_start <= position <= input@.len(),
            input@.len() <= isize::MAX,
            lzss_encoded_len(input@) == encoded_len + len_from(input@, positions@, position as int, literal_start as int),
            encoded_len <= 2 * literal_start,
        decreases input@.len() - position,
    {
        proof {
            lemma_len_from(input@, positions@, position as int, literal_start as int);
        }
        let (match_length, _) = lzss_match(input, &mut positions, position);
        if match_length == 0 {
            position += 1;
            continue;
        }
        encoded_len += lzss_literal_encoded_len(position - literal_start) + 3;
        lzss_record_match_positions(input, &mut positions, position, match_length);
        position += match_length;
        literal_start = position;
    }
    proof {
        lemma_len_from(input@, positions@, position as int, literal_start as int);
    }
    encoded_len + lzss_literal_encoded_len(input.len() - literal_start)
}

/// A fresh hash table with every slot empty.
fn empty_positions() -> (v: Vec<usize>)
    ensures
        v@ == empty_table(),
{
    let mut v: Vec<usize> = Vec::new();
    while v.len() < LZSS_HASH_SLOTS
        invariant
            v@.len() <= 4096,
            forall|i: int| 0 <= i < v@.len() ==> v@[i] == usize::MAX,
        decreases 4096 - v@.len(),
    {
        v.push(usize::MAX);
    }
    assert(v@ =~= empty_table());
    v
}

/// Append the literal chunks of `input[from..to]`.
fn push_literals(output: &mut Vec<u8>, input: &[u8], from: usize, to: usize)
    requires
        from <= to <= input@.len(),
    ensures
        final(output)@ == old(output)@ + literal_chunks(input@.subrange(from as int, to as int)),
{
    let mut literal_position = from;
    while literal_position < to
        invariant
            from <= literal_position <= to,
            to <= input@.len(),
            old(output)@ + literal_chunks(input@.subrange(from as int, to as int)) == output@
                + literal_chunks(input@.subrange(literal_position as int, to as int)),
        decreases to - literal_position,
    {
        let remaining = to - literal_position;
        let chunk_len = if remaining < LZSS_LITERAL_CHUNK { remaining } else { LZSS_LITERAL_CHUNK };
        let ghost before = output@;
        let ghost x = input@.subrange(literal_position as int, to as int);
        output.push((chunk_len - 1) as u8);
        let literal_end = literal_position + chunk_len;
        let ghost start = literal_position as int;
        while literal_position < literal_end
            invariant
                literal_position <= literal_end <= to,
                1 <= chunk_len <= 128,
                start == literal_end - chunk_len,
                0 <= start,
                start <= literal_position,
                to <= input@.len(),
                output@ == before + seq![(chunk_len - 1) as u8] + input@.subrange(
                    start,
                    literal_position as int,
                ),
            decreases literal_end - literal_position,
        {
            output.push(input[literal_position]);
            assert(input@.subrange(start, literal_position as int).push(
                input@[literal_position as int],
            ) =~= input@.subrange(start, literal_position + 1));
            literal_position += 1;
        }
        proof {
            assert(x.take(chunk_len as int) =~= input@.subrange(literal_end - chunk_len, literal_end as int));
            assert(x.skip(chunk_len as int) =~= input@.subrange(literal_end as int, to as int));
            assert(literal_chunks(x) == seq![(chunk_len - 1) as u8] + x.take(chunk_len as int)
                + literal_chunks(x.skip(chunk_len as int)));
            assert(before + literal_chunks(x) =~= output@ + literal_chunks(
                input@.subrange(literal_end as int, to as int),
            ));
        }
    }
}

/// Encode `input` into the deterministic LZSS representation.
pub fn lzss_compress(input: &[u8]) -> (output: Vec<u8>)
    ensures
        output@ == lzss_encode(input@),
        output@.len() <= input@.len() + (input@.len() + 127) / 128,
{
    proof {
        law_encoded_len(input@);
    }
    let mut positions = empty_positions();
    let mut output: Vec<u8> = Vec::new();
    let mut position: usize = 0;
    let mut literal_start: usize = 0;
    while position < input.len()
        invariant
            table_ok(positions@),
            literal_start <= position <= input@.len(),
            lzss_encode(input@) == output@ + encode_from(input@, positions@, position as int, literal_start as int),
        decreases input@.len() - position,
    {
        let (match_length, match_distance) = lzss_match(input, &mut positions, position);
        if match_length == 0 {
            position += 1;
            continue;
        }
        let ghost ps2 = positions@;
        let ghost before = output@;
        push_literals(&mut output, input, literal_start, position);
        output.push((128 + (match_length - 4)) as u8);
        output.push((match_distance % 256) as u8);
        output.push((match_distance / 256) as u8);
        lzss_record_match_positions(input, &mut positions, position, match_length);
        proof {
            assert(output@ =~= before + literal_chunks(input@.subrange(literal_start as int, position as int))
                + match_token(match_length as int, match_distance as int));
        }
        position += match_length;
        literal_start = position;
    }
    push_literals(&mut output, input, literal_start, input.len());
    proof {
        assert(input@.subrange(literal_start as int, input@.len() as int) =~= input@.subrange(
            literal_start as int,
            input@.len() as int,
        ));
    }
    output
}

/// The message a decoding fault is reported with.
pub open spec fn fault_message(fault: LzssFault, expected: usize) -> Seq<char> {
    match fault {
        LzssFault::TruncatedLiteral => "truncated LZSS literal run"@,
        LzssFault::OutputOverflow => "LZSS output exceeds declared length"@,
        LzssFault::TruncatedDistance => "truncated LZSS match distance"@,
        LzssFault::InvalidDistance => "invalid LZSS match distance"@,
        LzssFault::LengthMismatch { decoded } => "LZSS output length mismatch: expected "@ + decimal(
            expected as nat,
        ) + ", decoded "@ + decimal(decoded as nat),
    }
}

/// `String::from_utf8`, with the error rendered by its `Display`.
#[verifier::external_body]
fn string_from_utf8(bytes: Vec<u8>) -> (r: Result<String, String>)
    ensures
        r is Ok <==> valid_utf8(bytes@),
        r matches Ok(s) ==> s@ == decode_utf8(bytes@),
{
    String::from_utf8(bytes).map_err(|error| error.to_string())
}

fn fault_string(fault: LzssFault, expected: usize) -> (r: String)
    ensures
        r@ == fault_message(fault, expected),
{
    match fault {
        LzssFault::TruncatedLiteral => "truncated LZSS literal run".to_owned(),
        LzssFault::OutputOverflow => "LZSS output exceeds declared length".to_owned(),
        LzssFault::TruncatedDistance => "truncated LZSS match distance".to_owned(),
        LzssFault::InvalidDistance => "invalid LZSS match distance".to_owned(),
        LzssFault::LengthMismatch { decoded } => {
            let mut r = "LZSS output length mismatch: expected ".to_owned();
            let e = usize_to_decimal(expected);
            push_str(&mut r, e.as_str());
            push_str(&mut r, ", decoded ");
            let d = usize_to_decimal(decoded);
            push_str(&mut r, d.as_str());
            r
        },
    }
}

proof fn lemma_header_bits(header: u8)
    ensures
        (header & 0x80u8 == 0u8) == (header < 128),
        header >= 128 ==> (header & 0x7fu8) == header - 128,
{
    assert((header & 0x80u8 == 0u8) == (header < 128)) by (bit_vector);
    assert(header >= 128 ==> (header & 0x7fu8) == header - 128) by (bit_vector);
}

/// Decode an LZSS stream declared to hold `expected_len` bytes of UTF-8 text;
/// any malformed stream or length mismatch fails closed.
pub fn lzss_decompress(input: &[u8], expected_len: usize) -> (r: Result<String, String>)
    ensures
        match lzss_decode(input@, expected_len as int) {
            Ok(bytes) => (valid_utf8(bytes) ==> (r matches Ok(s) && s@ == decode_utf8(bytes))) && (
            !valid_utf8(bytes) ==> (r matches Err(e) && "LZSS output is not UTF-8: "@.is_prefix_of(
                e@,
            ))),
            Err(fault) => r matches Err(e) && e@ == fault_message(fault, expected_len),
        },
{
    let mut output: Vec<u8> = Vec::new();
    let mut position: usize = 0;
    while position < input.len()
        invariant
            position <= input@.len(),
            output@.len() <= expected_len,
            lzss_decode(input@, expected_len as int) == decode_from(
                input@,
                position as int,
                output@,
                expected_len as int,
            ),
        decreases input@.len() - position,
    {
        let ghost p0 = position as int;
        let header = input[position];
        proof {
            lemma_header_bits(header);
        }
        position += 1;
        if header & 0x80 == 0 {
            let length = header as usize + 1;
            if length > input.len() - position {
                return Err(fault_string(LzssFault::TruncatedLiteral, expected_len));
            }
            if length > expected_len - output.len() {
                return Err(fault_string(LzssFault::OutputOverflow, expected_len));
            }
            let end = position + length;
            let ghost before = output@;
            while position < end
                invariant
                    0 <= p0,
                    p0 + 1 <= position <= end,
                    end <= input@.len(),
                    output@ == before + input@.subrange(p0 + 1, position as int),
                decreases end - position,
            {
                output.push(input[position]);
                assert(input@.subrange(p0 + 1, position as int).push(input@[position as int])
                    =~= input@.subrange(p0 + 1, position + 1));
                position += 1;
            }
        } else {
            if input.len() - position < 2 {
                return Err(fault_string(LzssFault::TruncatedDistance, expected_len));
            }
            let distance = input[position] as usize + (input[position + 1] as usize) * 256;
            position += 2;
            if distance == 0 || distance > output.len() {
                return Err(fault_string(LzssFault::InvalidDistance, expected_len));
            }
            let length = (header & 0x7f) as usize + LZSS_MIN_MATCH;
            if length > expected_len - output.len() {
                return Err(fault_string(LzssFault::OutputOverflow, expected_len));
            }
            let ghost out0 = output@;
            let mut k: usize = 0;
            while k < length
                invariant
                    k <= length,
                    1 <= distance <= out0.len(),
                    out0.len() + k == output@.len(),
                    copy_match(out0, distance as int, length as int) == copy_match(
                        output@,
                        distance as int,
                        length - k,
                    ),
                decreases length - k,
            {
                let b = output[output.len() - distance];
                output.push(b);
                k += 1;
            }
        }
    }
    if output.len() != expected_len {
        return Err(fault_string(LzssFault::LengthMismatch { decoded: output.len() }, expected_len));
    }
    match string_from_utf8(output) {
        Ok(text) => Ok(text),
        Err(error) => {
            let mut message = "LZSS output is not UTF-8: ".to_owned();
            push_str(&mut message, error.as_str());
            Err(message)
        },
    }
}

/// Text compressed from its UTF-8 bytes decompresses to the same text: the
/// decoder accepts the stream, finds the declared length, and the bytes are
/// valid UTF-8 that decode to the original characters.
pub proof fn law_decompress_inverts_compress(text: Seq<char>)
    ensures
        lzss_decode(lzss_encode(encode_utf8(text)), encode_utf8(text).len() as int) == Ok::<
            Seq<u8>,
            LzssFault,
        >(encode_utf8(text)),
        valid_utf8(encode_utf8(text)),
        decode_utf8(encode_utf8(text)) == text,
{
    law_decode_inverts_encode(encode_utf8(text));
    encode_utf8_valid_utf8(text);
    encode_utf8_decode_utf8(text);
}

} // verus!
