//! The part of HTTP/2 that routing needs: frames up to the first HEADERS frame, and the literal
//! header fields of its HPACK block.
use vstd::arithmetic::power2::{lemma2_to64, lemma_pow2_pos, lemma_pow2_strictly_increases, pow2};
use vstd::bits::{lemma_u32_low_bits_mask_is_mod, lemma_u32_shl_is_mul, low_bits_mask};
use vstd::prelude::*;
use vstd::slice::slice_subrange;
use vstd::string::*;
use vstd::utf8::*;

use crate::text::{opt_text, same_text, utf8_chars, utf8_text};

verus! {

/// Upper bound on the bytes read while looking for the first HEADERS frame.
pub const MAX_H2_SNIFF: usize = 32768;

/// The octets of the client connection preface of HTTP/2, `PRI * HTTP/2.0`, an empty line, `SM`
/// and another empty line.
pub open spec fn h2_preface() -> Seq<u8> {
    seq![
        80u8, 82, 73, 32, 42, 32, 72, 84, 84, 80, 47, 50, 46, 48, 13, 10, 13, 10, 83, 77, 13, 10,
        13, 10,
    ]
}

/// The client connection preface of HTTP/2.
pub fn preface() -> (r: Vec<u8>)
    ensures
        r@ == h2_preface(),
        r@.len() == 24,
{
    vec![
        80, 82, 73, 32, 42, 32, 72, 84, 84, 80, 47, 50, 46, 48, 13, 10, 13, 10, 83, 77, 13, 10, 13,
        10,
    ]
}

// ── HPACK integers ────────────────────────────────────────────────────────────

/// The continuation octets of an HPACK integer: the octet at `i` has the weight `weight`, and
/// `acc` has been read so far. Five octets at most belong to an integer, and its value must fit 32
/// bits.
pub open spec fn int_tail(buf: Seq<u8>, i: int, weight: nat, acc: nat) -> Option<(nat, int)>
    decreases buf.len() - i,
{
    if i < 0 || i >= buf.len() {
        None
    } else {
        let sum = acc + (buf[i] % 128) * weight;
        if sum > u32::MAX {
            None
        } else if buf[i] < 128 {
            Some((sum as nat, i + 1))
        } else if weight >= 0x1000_0000 {
            None
        } else {
            int_tail(buf, i + 1, weight * 128, sum as nat)
        }
    }
}

/// The HPACK integer with a `prefix`-bit prefix at `pos`, and the position behind it.
pub open spec fn hpack_int(buf: Seq<u8>, pos: int, prefix: nat) -> Option<(nat, int)> {
    if pos < 0 || pos >= buf.len() {
        None
    } else {
        let low = (buf[pos] as nat) % pow2(prefix);
        if low < pow2(prefix) - 1 {
            Some((low, pos + 1))
        } else {
            int_tail(buf, pos + 1, 1, low)
        }
    }
}

proof fn lemma_int_tail_bounds(buf: Seq<u8>, i: int, weight: nat, acc: nat)
    requires
        i >= 0,
    ensures
        int_tail(buf, i, weight, acc) matches Some((v, j)) ==> v <= u32::MAX && i < j <= buf.len(),
    decreases buf.len() - i,
{
    if i < buf.len() {
        let sum = acc + (buf[i] % 128) * weight;
        if sum <= u32::MAX && buf[i] >= 128 && weight < 0x1000_0000 {
            lemma_int_tail_bounds(buf, i + 1, weight * 128, sum as nat);
        }
    }
}

/// An HPACK integer ends behind where it starts, within the buffer.
proof fn lemma_int_bounds(buf: Seq<u8>, pos: int, prefix: nat)
    requires
        pos >= 0,
    ensures
        hpack_int(buf, pos, prefix) matches Some((v, j)) ==> v <= u32::MAX && pos < j <= buf.len(),
{
    if pos < buf.len() {
        lemma_pow2_pos(prefix);
        vstd::arithmetic::div_mod::lemma_mod_bound(buf[pos] as int, pow2(prefix) as int);
        vstd::arithmetic::div_mod::lemma_mod_decreases(buf[pos] as nat, pow2(prefix));
        lemma_int_tail_bounds(buf, pos + 1, 1, (buf[pos] as nat) % pow2(prefix));
    }
}

/// Decode the HPACK integer with a `prefix`-bit prefix at `pos`: its value, and the position
/// behind it.
pub fn decode_int(buf: &[u8], pos: usize, prefix: u32) -> (r: Option<(usize, usize)>)
    requires
        prefix < 32,
    ensures
        match hpack_int(buf@, pos as int, prefix as nat) {
            Some((v, j)) => r == Some((v as usize, j as usize)) && v <= u32::MAX && pos < j
                <= buf@.len(),
            None => r is None,
        },
{
    proof {
        lemma_int_bounds(buf@, pos as int, prefix as nat);
    }
    if pos >= buf.len() {
        return None;
    }
    proof {
        lemma2_to64();
        lemma_pow2_pos(prefix as nat);
        lemma_pow2_strictly_increases(prefix as nat, 32);
        lemma_u32_shl_is_mul(1, prefix);
        lemma_u32_low_bits_mask_is_mod(buf@[pos as int] as u32, prefix as nat);
        reveal(low_bits_mask);
    }
    let mask: u32 = (1u32 << prefix) - 1;
    let low: u32 = (buf[pos] as u32) & mask;
    assert(low == (buf@[pos as int] as nat) % pow2(prefix as nat));
    if low < mask {
        return Some((low as usize, pos + 1));
    }
    let mut value: u64 = low as u64;
    let mut weight: u64 = 1;
    let mut i: usize = pos + 1;
    while i < buf.len()
        invariant
            pos < i <= buf@.len(),
            value <= u32::MAX,
            weight == 1 || weight == 0x80 || weight == 0x4000 || weight == 0x20_0000 || weight
                == 0x1000_0000,
            hpack_int(buf@, pos as int, prefix as nat) == int_tail(
                buf@,
                i as int,
                weight as nat,
                value as nat,
            ),
            hpack_int(buf@, pos as int, prefix as nat) matches Some((v, j)) ==> v <= u32::MAX && pos
                < j <= buf@.len(),
        decreases buf@.len() - i,
    {
        let b: u8 = buf[i];
        assert((b % 128) * weight <= 127 * 0x1000_0000) by (nonlinear_arith)
            requires
                b % 128 <= 127,
                weight <= 0x1000_0000,
        ;
        let sum: u64 = value + ((b % 128) as u64) * weight;
        i = i + 1;
        if sum > u32::MAX as u64 {
            return None;
        }
        if b < 128 {
            return Some((sum as usize, i));
        }
        if weight >= 0x1000_0000 {
            return None;
        }
        value = sum;
        weight = weight * 128;
    }
    None
}

// ── HPACK strings and fields ──────────────────────────────────────────────────

/// The HPACK string literal at `pos`, and the position behind it. A Huffman-coded string is not
/// decoded.
pub open spec fn hpack_str(buf: Seq<u8>, pos: int) -> Option<(Seq<char>, int)> {
    match hpack_int(buf, pos, 7) {
        Some((len, i)) => if buf[pos] < 128 && i + len <= buf.len() {
            match utf8_chars(buf.subrange(i, i + len)) {
                Some(text) => Some((text, i + len)),
                None => None,
            }
        } else {
            None
        },
        None => None,
    }
}

/// Decode the HPACK string literal at `pos`: its text, and the position behind it.
pub fn decode_str(buf: &[u8], pos: usize) -> (r: Option<(String, usize)>)
    ensures
        match r {
            Some((s, j)) => hpack_str(buf@, pos as int) == Some((s@, j as int)) && pos < j
                <= buf@.len(),
            None => hpack_str(buf@, pos as int) is None,
        },
{
    if pos >= buf.len() {
        return None;
    }
    let huffman: bool = buf[pos] >= 128;
    match decode_int(buf, pos, 7) {
        None => None,
        Some((len, i)) => {
            if len > buf.len() - i {
                return None;
            }
            if huffman {
                return None;
            }
            let bytes = slice_subrange(buf, i, i + len);
            match utf8_text(bytes) {
                Err(_) => None,
                Ok(text) => {
                    proof {
                        encode_utf8_decode_utf8(text@);
                    }
                    Some((text.to_string(), i + len))
                },
            }
        },
    }
}

/// One representation in an HPACK header block.
pub enum HpackField {
    /// An indexed field or a table size update: nothing literal.
    Opaque,
    /// A literal value under a name that the tables hold.
    IndexedName,
    /// A literal name and a literal value.
    Literal(Seq<char>, Seq<char>),
}

/// The representation at `i` and the position behind it, by its leading bits: `1` indexed, `01`
/// literal with incremental indexing, `001` table size update, `000` literal without indexing.
pub open spec fn hpack_field(block: Seq<u8>, i: int) -> Option<(HpackField, int)> {
    let b = block[i];
    if b >= 128 {
        match hpack_int(block, i, 7) {
            Some((_, j)) => Some((HpackField::Opaque, j)),
            None => None,
        }
    } else if 32 <= b < 64 {
        match hpack_int(block, i, 5) {
            Some((_, j)) => Some((HpackField::Opaque, j)),
            None => None,
        }
    } else {
        match hpack_int(block, i, if b >= 64 { 6 } else { 4 }) {
            Some((index, j)) => match hpack_str(block, j) {
                Some((first, k)) => if index != 0 {
                    Some((HpackField::IndexedName, k))
                } else {
                    match hpack_str(block, k) {
                        Some((value, l)) => Some((HpackField::Literal(first, value), l)),
                        None => None,
                    }
                },
                None => None,
            },
            None => None,
        }
    }
}

/// The value of the first literal field named `target` at or behind `i`. What stands behind a
/// field that cannot be decoded is not found.
pub open spec fn hpack_value(block: Seq<u8>, i: int, target: Seq<char>) -> Option<Seq<char>>
    decreases block.len() - i,
{
    if i < 0 || i >= block.len() {
        None
    } else {
        match hpack_field(block, i) {
            None => None,
            Some((field, j)) => if field is Literal && field->Literal_0 == target {
                Some(field->Literal_1)
            } else if i < j <= block.len() {
                hpack_value(block, j, target)
            } else {
                None
            },
        }
    }
}

/// Find the literal header field named `target` in an HPACK block. Indexed fields and table size
/// updates are passed over; a Huffman-coded string ends the search.
pub fn hpack_find(block: &[u8], target: &str) -> (r: Option<String>)
    ensures
        match hpack_value(block@, 0, target@) {
            Some(value) => r is Some && r->0@ == value,
            None => r is None,
        },
{
    let mut i: usize = 0;
    while i < block.len()
        invariant
            i <= block@.len(),
            hpack_value(block@, 0, target@) == hpack_value(block@, i as int, target@),
        decreases block@.len() - i,
    {
        let b: u8 = block[i];
        if b >= 128 {
            match decode_int(block, i, 7) {
                Some((_, j)) => {
                    i = j;
                },
                None => {
                    return None;
                },
            }
        } else if 32 <= b && b < 64 {
            match decode_int(block, i, 5) {
                Some((_, j)) => {
                    i = j;
                },
                None => {
                    return None;
                },
            }
        } else {
            let prefix: u32 = if b >= 64 { 6 } else { 4 };
            match decode_int(block, i, prefix) {
                None => {
                    return None;
                },
                Some((name_idx, after_idx)) => {
                    let (name, after_name): (Option<String>, usize) = if name_idx == 0 {
                        match decode_str(block, after_idx) {
                            None => {
                                return None;
                            },
                            Some((name, after_name)) => (Some(name), after_name),
                        }
                    } else {
                        (None, after_idx)
                    };
                    match decode_str(block, after_name) {
                        None => {
                            return None;
                        },
                        Some((value, after_value)) => {
                            if let Some(name) = name {
                                if same_text(name.as_str(), target) {
                                    return Some(value);
                                }
                            }
                            i = after_value;
                        },
                    }
                },
            }
        }
    }
    None
}

// ── Frames ────────────────────────────────────────────────────────────────────

/// The header block fragment in the payload of a HEADERS frame: without the padding that the flag
/// 0x8 announces and the five octets of priority that the flag 0x20 announces.
pub open spec fn header_fragment(payload: Seq<u8>, flags: u8) -> Option<Seq<u8>> {
    let unpadded = if flags & 8 == 0 {
        Some(payload)
    } else if payload.len() == 0 || payload[0] > payload.len() - 1 {
        None
    } else {
        Some(payload.subrange(1, payload.len() - payload[0]))
    };
    match unpadded {
        None => None,
        Some(p) => if flags & 32 == 0 {
            Some(p)
        } else if p.len() < 5 {
            None
        } else {
            Some(p.skip(5))
        },
    }
}

/// The number of octets that the frame at the start of `buf` takes: nine of header, and the
/// payload whose length the first three of them hold.
pub open spec fn frame_size(buf: Seq<u8>) -> int {
    9 + buf[0] * 65536 + buf[1] * 256 + buf[2]
}

/// The header block fragment of the first HEADERS frame (type 0x1) among the frames in `buf`, once
/// that frame is complete.
pub open spec fn headers_block(buf: Seq<u8>) -> Option<Seq<u8>>
    decreases buf.len(),
{
    if buf.len() < 9 || frame_size(buf) > buf.len() {
        None
    } else if buf[3] == 1 {
        header_fragment(buf.subrange(9, frame_size(buf)), buf[4])
    } else {
        headers_block(buf.skip(frame_size(buf)))
    }
}

/// Take padding and priority off the payload of a HEADERS frame.
fn fragment_of(payload: &[u8], flags: u8) -> (r: Option<&[u8]>)
    ensures
        match header_fragment(payload@, flags) {
            Some(fragment) => r is Some && r->0@ == fragment,
            None => r is None,
        },
{
    let mut p: &[u8] = payload;
    if flags & 8 != 0 {
        if p.len() == 0 {
            return None;
        }
        let pad: usize = p[0] as usize;
        if pad > p.len() - 1 {
            return None;
        }
        p = slice_subrange(p, 1, p.len() - pad);
    }
    if flags & 32 != 0 {
        if p.len() < 5 {
            return None;
        }
        p = slice_subrange(p, 5, p.len());
    }
    Some(p)
}

/// Walk HTTP/2 frames to the first HEADERS frame and give its header block fragment; `None` while
/// no complete HEADERS frame is there.
pub fn first_headers_block(buf: &[u8]) -> (r: Option<&[u8]>)
    ensures
        match headers_block(buf@) {
            Some(block) => r is Some && r->0@ == block,
            None => r is None,
        },
{
    let mut i: usize = 0;
    assert(buf@.skip(0) =~= buf@);
    while buf.len() - i >= 9
        invariant
            i <= buf@.len(),
            headers_block(buf@) == headers_block(buf@.skip(i as int)),
        decreases buf@.len() - i,
    {
        let ghost rest = buf@.skip(i as int);
        let len: u32 = (buf[i] as u32) * 65536 + (buf[i + 1] as u32) * 256 + buf[i + 2] as u32;
        assert(frame_size(rest) == 9 + len);
        if (len as usize) > buf.len() - i - 9 {
            return None;
        }
        let start: usize = i + 9;
        let end: usize = start + len as usize;
        if buf[i + 3] == 1 {
            assert(rest.subrange(9, frame_size(rest)) =~= buf@.subrange(start as int, end as int));
            return fragment_of(slice_subrange(buf, start, end), buf[i + 4]);
        }
        assert(rest.skip(frame_size(rest)) =~= buf@.skip(end as int));
        i = end;
    }
    None
}

// ── The route of a connection ─────────────────────────────────────────────────

/// Where the search for the route of an HTTP/2 connection stands. Either way `buffered` is every
/// byte read so far, to be replayed verbatim.
pub enum H2Route {
    /// The first HEADERS frame is not complete: read more.
    More { buffered: Vec<u8> },
    /// The search is over.
    Done { route: Option<String>, buffered: Vec<u8> },
}

/// What the bytes of an HTTP/2 connection, preface included, tell of its route: nothing yet, or
/// the value of its `x-route-to` header if the first HEADERS frame holds one that is not
/// Huffman-coded. A connection without a HEADERS frame among its first 32768 bytes has no route.
pub open spec fn h2_route(buffered: Seq<u8>) -> Option<Option<Seq<char>>> {
    match headers_block(buffered.skip(24)) {
        Some(block) => Some(hpack_value(block, 0, "x-route-to"@)),
        None => if buffered.len() >= MAX_H2_SNIFF {
            Some(None)
        } else {
            None
        },
    }
}

/// Look for the route of an HTTP/2 connection in the bytes read so far, which start with the
/// preface. `eof` says that no more bytes will come.
pub fn read_h2_route(buffered: Vec<u8>, eof: bool) -> (r: H2Route)
    requires
        buffered@.len() >= 24,
    ensures
        match r {
            H2Route::More { buffered: bytes } => bytes@ == buffered@ && !eof && h2_route(
                buffered@,
            ) is None,
            H2Route::Done { route, buffered: bytes } => bytes@ == buffered@ && match h2_route(
                buffered@,
            ) {
                Some(found) => opt_text(route) == found,
                None => eof && route is None,
            },
        },
{
    match first_headers_block(slice_subrange(buffered.as_slice(), 24, buffered.len())) {
        Some(block) => {
            let route = hpack_find(block, "x-route-to");
            H2Route::Done { route, buffered }
        },
        None => {
            if buffered.len() >= MAX_H2_SNIFF || eof {
                H2Route::Done { route: None, buffered }
            } else {
                H2Route::More { buffered }
            }
        },
    }
}

/// How many bytes may be read next while looking for the first HEADERS frame.
pub open spec fn h2_room(buffered: Seq<u8>) -> nat {
    if buffered.len() < MAX_H2_SNIFF {
        (MAX_H2_SNIFF - buffered.len()) as nat
    } else {
        0
    }
}

/// Say how many bytes may be read next while looking for the first HEADERS frame.
pub fn h2_room_left(buffered: &[u8]) -> (r: usize)
    ensures
        r == h2_room(buffered@),
{
    if buffered.len() < MAX_H2_SNIFF {
        MAX_H2_SNIFF - buffered.len()
    } else {
        0
    }
}

// ── Laws ──────────────────────────────────────────────────────────────────────

/// The search for the route of an HTTP/2 connection takes no more than 32768 bytes off it, if each
/// read keeps to the room that is left: there is room while it goes on, and it is over when there
/// is none.
pub proof fn h2_search_is_bounded(read: Seq<u8>, more: Seq<u8>)
    requires
        h2_route(read) is None,
        more.len() <= h2_room(read),
    ensures
        h2_room(read) > 0,
        (read + more).len() <= MAX_H2_SNIFF,
        (read + more).len() == MAX_H2_SNIFF ==> h2_route(read + more) is Some,
{
}

/// The continuation octets of a number: seven bits each, the lowest first.
pub open spec fn tail_octets(n: nat) -> Seq<u8>
    decreases n,
{
    if n < 128 {
        seq![n as u8]
    } else {
        seq![(128 + n % 128) as u8] + tail_octets(n / 128)
    }
}

proof fn lemma_tail_reads_back(buf: Seq<u8>, i: int, weight: nat, acc: nat, n: nat)
    requires
        0 <= i,
        weight >= 1,
        i + tail_octets(n).len() <= buf.len(),
        buf.subrange(i, i + tail_octets(n).len()) == tail_octets(n),
        acc + n * weight <= u32::MAX,
    ensures
        int_tail(buf, i, weight, acc) == Some((acc + n * weight, i + tail_octets(n).len())),
    decreases n,
{
    let octets = tail_octets(n);
    assert(octets.len() >= 1);
    assert(buf.subrange(i, i + octets.len())[0] == buf[i]);
    if n >= 128 {
        let sum = acc + (n % 128) * weight;
        assert(sum + (n / 128) * (weight * 128) == acc + n * weight) by (nonlinear_arith)
            requires
                sum == acc + (n % 128) * weight,
        ;
        assert((n / 128) * (weight * 128) >= 0) by (nonlinear_arith);
        assert(128 * weight <= n * weight) by (nonlinear_arith)
            requires
                n >= 128,
        ;
        let rest = tail_octets(n / 128);
        assert(octets.skip(1) =~= rest);
        assert(buf.subrange(i + 1, i + 1 + rest.len()) =~= buf.subrange(i, i + octets.len()).skip(
            1,
        ));
        lemma_tail_reads_back(buf, i + 1, weight * 128, sum as nat, n / 128);
    }
}

/// A number of at most 32 bits is read back from its encoding, whatever stands in the bits before
/// the prefix and in the octets behind it.
pub proof fn integer_reads_back(first: u8, prefix: nat, n: nat, rest: Seq<u8>)
    requires
        1 <= prefix <= 7,
        n <= u32::MAX,
    ensures
        n < pow2(prefix) - 1 && (first as nat) % pow2(prefix) == n ==> hpack_int(
            seq![first] + rest,
            0,
            prefix,
        ) == Some((n, 1int)),
        n >= pow2(prefix) - 1 && (first as nat) % pow2(prefix) == pow2(prefix) - 1 ==> ({
            let tail = tail_octets((n - (pow2(prefix) - 1)) as nat);
            hpack_int(seq![first] + tail + rest, 0, prefix) == Some((n, 1 + tail.len() as int))
        }),
{
    lemma_pow2_pos(prefix);
    assert((seq![first] + rest)[0] == first);
    if n >= pow2(prefix) - 1 && (first as nat) % pow2(prefix) == pow2(prefix) - 1 {
        let low = (pow2(prefix) - 1) as nat;
        let tail = tail_octets((n - low) as nat);
        let buf = seq![first] + tail + rest;
        assert(buf[0] == first);
        assert(buf.subrange(1, 1 + tail.len() as int) =~= tail);
        lemma_tail_reads_back(buf, 1, 1, low, (n - low) as nat);
    }
}

/// Bytes that arrive behind a complete HEADERS frame do not change what was found in it.
pub proof fn headers_block_is_stable(read: Seq<u8>, more: Seq<u8>)
    requires
        headers_block(read) is Some,
    ensures
        headers_block(read + more) == headers_block(read),
    decreases read.len(),
{
    let all = read + more;
    let size = frame_size(read);
    assert(frame_size(all) == size);
    if read[3] == 1 {
        assert(all.subrange(9, size) =~= read.subrange(9, size));
    } else {
        headers_block_is_stable(read.skip(size), more);
        assert(all.skip(size) =~= read.skip(size) + more);
    }
}

/// The route of a connection is the same whether its bytes arrive at once or in pieces.
pub proof fn h2_route_is_stable(read: Seq<u8>, more: Seq<u8>)
    requires
        read.len() >= 24,
        headers_block(read.skip(24)) is Some,
    ensures
        h2_route(read + more) == h2_route(read),
{
    assert((read + more).skip(24) =~= read.skip(24) + more);
    headers_block_is_stable(read.skip(24), more);
}

/// A frame that is not a HEADERS frame does not hide the HEADERS frame behind it.
pub proof fn other_frames_are_passed_over(frame: Seq<u8>, rest: Seq<u8>)
    requires
        frame.len() >= 9,
        frame_size(frame) == frame.len(),
        frame[3] != 1,
    ensures
        headers_block(frame + rest) == headers_block(rest),
{
    let all = frame + rest;
    assert(frame_size(all) == frame.len());
    assert(all.skip(frame.len() as int) =~= rest);
}

/// An HPACK string literal of at most 126 octets.
pub open spec fn short_str(text: Seq<char>) -> Seq<u8> {
    seq![encode_utf8(text).len() as u8] + encode_utf8(text)
}

/// A literal field without indexing, with its name and value as short string literals.
pub open spec fn literal_field(name: Seq<char>, value: Seq<char>) -> Seq<u8> {
    seq![0u8] + short_str(name) + short_str(value)
}

proof fn lemma_small_int(buf: Seq<u8>, pos: int, prefix: nat)
    requires
        0 <= pos < buf.len(),
        1 <= prefix <= 7,
        (buf[pos] as nat) % pow2(prefix) < pow2(prefix) - 1,
    ensures
        hpack_int(buf, pos, prefix) == Some(((buf[pos] as nat) % pow2(prefix), pos + 1)),
{
}

proof fn lemma_short_str(buf: Seq<u8>, pos: int, text: Seq<char>)
    requires
        0 <= pos,
        encode_utf8(text).len() < 127,
        pos + 1 + encode_utf8(text).len() <= buf.len(),
        buf.subrange(pos, pos + 1 + encode_utf8(text).len()) == short_str(text),
    ensures
        hpack_str(buf, pos) == Some((text, pos + 1 + encode_utf8(text).len())),
{
    let bytes = encode_utf8(text);
    let part = buf.subrange(pos, pos + 1 + bytes.len());
    lemma2_to64();
    assert(part[0] == bytes.len() as u8);
    assert(buf[pos] == part[0]);
    lemma_small_int(buf, pos, 7);
    assert(buf.subrange(pos + 1, pos + 1 + bytes.len()) =~= bytes) by {
        assert forall|k: int| 0 <= k < bytes.len() implies buf[pos + 1 + k] == bytes[k] by {
            assert(part[k + 1] == short_str(text)[k + 1]);
        }
    }
    encode_utf8_valid_utf8(text);
    encode_utf8_decode_utf8(text);
}

/// A literal field is read back: a block that starts with it gives its value under its name, and
/// is searched on behind it for any other name.
#[verifier::spinoff_prover]
#[verifier::rlimit(40)]
pub proof fn literal_field_is_found(
    name: Seq<char>,
    value: Seq<char>,
    rest: Seq<u8>,
    target: Seq<char>,
)
    requires
        encode_utf8(name).len() < 127,
        encode_utf8(value).len() < 127,
    ensures
        hpack_value(literal_field(name, value) + rest, 0, name) == Some(value),
        target != name ==> hpack_value(literal_field(name, value) + rest, 0, target) == hpack_value(
            literal_field(name, value) + rest,
            literal_field(name, value).len() as int,
            target,
        ),
{
    let block = literal_field(name, value) + rest;
    let n = encode_utf8(name).len() as int;
    let v = encode_utf8(value).len() as int;
    lemma2_to64();
    assert(block[0] == 0);
    lemma_small_int(block, 0, 4);
    assert(block.subrange(1, 2 + n) =~= short_str(name));
    lemma_short_str(block, 1, name);
    assert(block.subrange(2 + n, 3 + n + v) =~= short_str(value));
    lemma_short_str(block, 2 + n, value);
    assert(hpack_field(block, 0) == Some((HpackField::Literal(name, value), 3 + n + v)));
    if target != name && rest.len() == 0 {
        assert(block.len() == 3 + n + v);
    }
}

/// A field that the static table holds whole does not hide the fields behind it.
pub proof fn indexed_field_is_passed_over(block: Seq<u8>, i: int, target: Seq<char>)
    requires
        0 <= i < block.len(),
        128 <= block[i] < 255,
    ensures
        hpack_value(block, i, target) == hpack_value(block, i + 1, target),
{
    lemma2_to64();
    lemma_small_int(block, i, 7);
}

/// A Huffman-coded value under a literal name is not found, so that the connection is not
/// misrouted.
#[verifier::spinoff_prover]
#[verifier::rlimit(40)]
pub proof fn huffman_value_is_not_found(name: Seq<char>, rest: Seq<u8>)
    requires
        encode_utf8(name).len() < 127,
        rest.len() > 0,
        rest[0] >= 128,
    ensures
        hpack_value(seq![0u8] + short_str(name) + rest, 0, name) is None,
{
    let block = seq![0u8] + short_str(name) + rest;
    let n = encode_utf8(name).len() as int;
    lemma2_to64();
    lemma_small_int(block, 0, 4);
    assert(block.subrange(1, 2 + n) =~= short_str(name));
    lemma_short_str(block, 1, name);
    assert(block[2 + n] == rest[0]);
}

/// A frame as it is written: the length of its payload in three octets, the most significant one
/// first, its type, its flags, the four octets of a stream, and the payload.
pub open spec fn written_frame(kind: u8, flags: u8, stream: Seq<u8>, payload: Seq<u8>) -> Seq<u8> {
    let n = payload.len();
    seq![(n / 65536) as u8, (n / 256 % 256) as u8, (n % 256) as u8, kind, flags] + stream + payload
}

proof fn lemma_written_frame(
    kind: u8,
    flags: u8,
    stream: Seq<u8>,
    payload: Seq<u8>,
    rest: Seq<u8>,
)
    requires
        payload.len() < 0x100_0000,
        stream.len() == 4,
    ensures
        ({
            let frame = written_frame(kind, flags, stream, payload);
            let all = frame + rest;
            &&& frame.len() == 9 + payload.len()
            &&& frame_size(all) == frame.len()
            &&& all[3] == kind
            &&& all[4] == flags
            &&& all.subrange(9, frame.len() as int) == payload
            &&& all.skip(frame.len() as int) == rest
        }),
{
    let frame = written_frame(kind, flags, stream, payload);
    let all = frame + rest;
    let n = payload.len();
    assert(n == n / 65536 * 65536 + n / 256 % 256 * 256 + n % 256);
    assert(n / 65536 < 256);
    assert(all[0] == (n / 65536) as u8);
    assert(all[1] == (n / 256 % 256) as u8);
    assert(all[2] == (n % 256) as u8);
    assert(all.subrange(9, frame.len() as int) =~= payload);
    assert(all.skip(frame.len() as int) =~= rest);
}

/// The payload of a HEADERS frame is its header block, whatever its length and whatever follows it;
/// and every other frame is passed over whole.
#[verifier::spinoff_prover]
#[verifier::rlimit(40)]
pub proof fn frames_are_read_whole(
    kind: u8,
    flags: u8,
    stream: Seq<u8>,
    payload: Seq<u8>,
    rest: Seq<u8>,
)
    requires
        payload.len() < 0x100_0000,
        stream.len() == 4,
    ensures
        kind == 1 && flags & 8 == 0 && flags & 32 == 0 ==> headers_block(
            written_frame(kind, flags, stream, payload) + rest,
        ) == Some(payload),
        kind != 1 ==> headers_block(written_frame(kind, flags, stream, payload) + rest)
            == headers_block(rest),
{
    lemma_written_frame(kind, flags, stream, payload, rest);
}

/// A frame that has not arrived whole tells nothing.
#[verifier::spinoff_prover]
#[verifier::rlimit(40)]
pub proof fn incomplete_frame_tells_nothing(
    kind: u8,
    flags: u8,
    stream: Seq<u8>,
    payload: Seq<u8>,
    n: int,
)
    requires
        payload.len() < 0x100_0000,
        stream.len() == 4,
        0 <= n < 9 + payload.len(),
    ensures
        headers_block(written_frame(kind, flags, stream, payload).take(n)) is None,
{
    let frame = written_frame(kind, flags, stream, payload);
    lemma_written_frame(kind, flags, stream, payload, Seq::empty());
    assert(frame + Seq::<u8>::empty() =~= frame);
    if n >= 9 {
        assert(frame_size(frame.take(n)) == frame_size(frame));
    }
}

/// Padding and priority are taken off a header block: the octet that counts the padding, the
/// padding, and five octets of priority.
#[verifier::spinoff_prover]
#[verifier::rlimit(40)]
pub proof fn padding_and_priority_are_taken_off(
    flags: u8,
    stream: Seq<u8>,
    block: Seq<u8>,
    priority: Seq<u8>,
    padding: Seq<u8>,
    rest: Seq<u8>,
)
    requires
        stream.len() == 4,
        priority.len() == 5,
        padding.len() < 256,
        block.len() + 262 < 0x100_0000,
    ensures
        flags & 8 != 0 && flags & 32 == 0 ==> headers_block(
            written_frame(1, flags, stream, seq![padding.len() as u8] + block + padding) + rest,
        ) == Some(block),
        flags & 8 == 0 && flags & 32 != 0 ==> headers_block(
            written_frame(1, flags, stream, priority + block) + rest,
        ) == Some(block),
        flags & 8 != 0 && flags & 32 != 0 ==> headers_block(
            written_frame(1, flags, stream, seq![padding.len() as u8] + priority + block + padding)
                + rest,
        ) == Some(block),
{
    let n = padding.len() as u8;
    let padded = seq![n] + block + padding;
    let prioritised = priority + block;
    let both = seq![n] + priority + block + padding;
    lemma_written_frame(1, flags, stream, padded, rest);
    lemma_written_frame(1, flags, stream, prioritised, rest);
    lemma_written_frame(1, flags, stream, both, rest);
    assert(padded.subrange(1, padded.len() - n) =~= block);
    assert(prioritised.skip(5) =~= block);
    assert(both.subrange(1, both.len() - n) =~= priority + block);
    assert((priority + block).skip(5) =~= block);
}

/// A number in HPACK: in a prefix that follows the bits `high`, or with continuation octets.
pub open spec fn int_octets(high: u8, prefix: nat, n: nat) -> Seq<u8> {
    if n < pow2(prefix) - 1 {
        seq![(high + n) as u8]
    } else {
        seq![(high + pow2(prefix) - 1) as u8] + tail_octets((n - (pow2(prefix) - 1)) as nat)
    }
}

/// A string literal of any length, not Huffman-coded.
pub open spec fn str_octets(text: Seq<char>) -> Seq<u8> {
    int_octets(0, 7, encode_utf8(text).len()) + encode_utf8(text)
}

proof fn lemma_int_tail_shift(a: Seq<u8>, b: Seq<u8>, i: int, weight: nat, acc: nat)
    requires
        i >= 0,
    ensures
        int_tail(a + b, a.len() + i, weight, acc) == match int_tail(b, i, weight, acc) {
            Some((v, j)) => Some((v, a.len() + j)),
            None => None,
        },
    decreases b.len() - i,
{
    if i < b.len() {
        assert((a + b)[a.len() + i] == b[i]);
        let sum = acc + (b[i] % 128) * weight;
        if sum <= u32::MAX && b[i] >= 128 && weight < 0x1000_0000 {
            lemma_int_tail_shift(a, b, i + 1, weight * 128, sum as nat);
        }
    }
}

proof fn lemma_int_shift(a: Seq<u8>, b: Seq<u8>, i: int, prefix: nat)
    requires
        i >= 0,
    ensures
        hpack_int(a + b, a.len() + i, prefix) == match hpack_int(b, i, prefix) {
            Some((v, j)) => Some((v, a.len() + j)),
            None => None,
        },
{
    if i < b.len() {
        assert((a + b)[a.len() + i] == b[i]);
        lemma_int_tail_shift(a, b, i + 1, 1, (b[i] as nat) % pow2(prefix));
    }
}

proof fn lemma_str_shift(a: Seq<u8>, b: Seq<u8>, i: int)
    requires
        i >= 0,
    ensures
        hpack_str(a + b, a.len() + i) == match hpack_str(b, i) {
            Some((v, j)) => Some((v, a.len() + j)),
            None => None,
        },
{
    lemma_int_shift(a, b, i, 7);
    lemma_int_bounds(b, i, 7);
    if let Some((len, j)) = hpack_int(b, i, 7) {
        assert((a + b)[a.len() + i] == b[i]);
        if j + len <= b.len() {
            assert((a + b).subrange(a.len() + j, a.len() + j + len) =~= b.subrange(j, j + len));
        }
    }
}

proof fn lemma_str_bounds(b: Seq<u8>, i: int)
    requires
        i >= 0,
    ensures
        hpack_str(b, i) matches Some((v, j)) ==> i < j <= b.len(),
{
    lemma_int_bounds(b, i, 7);
}

proof fn lemma_field_shift(a: Seq<u8>, b: Seq<u8>, i: int)
    requires
        0 <= i < b.len(),
    ensures
        hpack_field(a + b, a.len() + i) == match hpack_field(b, i) {
            Some((v, j)) => Some((v, a.len() + j)),
            None => None,
        },
        hpack_field(b, i) matches Some((v, j)) ==> i < j <= b.len(),
{
    let first = b[i];
    assert((a + b)[a.len() + i] == first);
    let prefix: nat = if first >= 128 {
        7
    } else if 32 <= first < 64 {
        5
    } else if first >= 64 {
        6
    } else {
        4
    };
    lemma_int_shift(a, b, i, prefix);
    lemma_int_bounds(b, i, prefix);
    if let Some((index, j)) = hpack_int(b, i, prefix) {
        lemma_str_shift(a, b, j);
        lemma_str_bounds(b, j);
        if let Some((name, k)) = hpack_str(b, j) {
            lemma_str_shift(a, b, k);
            lemma_str_bounds(b, k);
        }
    }
}

proof fn lemma_value_shift(a: Seq<u8>, b: Seq<u8>, i: int, target: Seq<char>)
    requires
        i >= 0,
    ensures
        hpack_value(a + b, a.len() + i, target) == hpack_value(b, i, target),
    decreases b.len() - i,
{
    if i < b.len() {
        lemma_field_shift(a, b, i);
        if let Some((field, j)) = hpack_field(b, i) {
            if !(field is Literal && field->Literal_0 == target) {
                lemma_value_shift(a, b, j, target);
            }
        }
    }
}

proof fn lemma_int_octets(high: u8, prefix: nat, n: nat, rest: Seq<u8>)
    requires
        1 <= prefix <= 7,
        high as nat % pow2(prefix) == 0,
        high + pow2(prefix) <= 256,
        n <= u32::MAX,
    ensures
        hpack_int(int_octets(high, prefix, n) + rest, 0, prefix) == Some(
            (n, int_octets(high, prefix, n).len() as int),
        ),
        high <= int_octets(high, prefix, n)[0] < high + pow2(prefix),
        int_octets(high, prefix, n).len() >= 1,
{
    lemma_pow2_pos(prefix);
    let low = if n < pow2(prefix) - 1 {
        n
    } else {
        (pow2(prefix) - 1) as nat
    };
    let first = (high + low) as u8;
    assert((first as nat) % pow2(prefix) == low) by {
        vstd::arithmetic::div_mod::lemma_add_mod_noop(
            high as int,
            low as int,
            pow2(prefix) as int,
        );
        vstd::arithmetic::div_mod::lemma_small_mod(low, pow2(prefix));
    }
    integer_reads_back(first, prefix, n, rest);
    if n >= pow2(prefix) - 1 {
        let tail = tail_octets((n - (pow2(prefix) - 1)) as nat);
        assert(int_octets(high, prefix, n) + rest =~= seq![first] + tail + rest);
    }
}

proof fn lemma_str_octets(text: Seq<char>, rest: Seq<u8>)
    requires
        encode_utf8(text).len() <= u32::MAX,
    ensures
        hpack_str(str_octets(text) + rest, 0) == Some((text, str_octets(text).len() as int)),
        str_octets(text).len() >= 1,
{
    lemma2_to64();
    let bytes = encode_utf8(text);
    let head = int_octets(0, 7, bytes.len());
    let buf = str_octets(text) + rest;
    assert(buf =~= head + (bytes + rest));
    lemma_int_octets(0, 7, bytes.len(), bytes + rest);
    assert(buf[0] == head[0]);
    assert(buf.subrange(head.len() as int, (head.len() + bytes.len()) as int) =~= bytes);
    encode_utf8_valid_utf8(text);
    encode_utf8_decode_utf8(text);
}

#[verifier::spinoff_prover]
#[verifier::rlimit(40)]
proof fn lemma_str_at(a: Seq<u8>, text: Seq<char>, rest: Seq<u8>)
    requires
        encode_utf8(text).len() <= u32::MAX,
    ensures
        hpack_str(a + (str_octets(text) + rest), a.len() as int) == Some(
            (text, (a.len() + str_octets(text).len()) as int),
        ),
{
    lemma_str_octets(text, rest);
    lemma_str_shift(a, str_octets(text) + rest, 0);
}

#[verifier::spinoff_prover]
#[verifier::rlimit(40)]
proof fn lemma_literal_start(first: u8, rest: Seq<u8>)
    requires
        first == 0 || first == 0x10 || first == 0x40,
    ensures
        hpack_int(seq![first] + rest, 0, if first == 0x40 { 6 } else { 4 }) == Some((0nat, 1int)),
{
    lemma2_to64();
    let block = seq![first] + rest;
    assert(block[0] == first);
    if first == 0x40 {
        assert(64nat % pow2(6) == 0);
        lemma_small_int(block, 0, 6);
    } else {
        assert(first as nat % pow2(4) == 0);
        lemma_small_int(block, 0, 4);
    }
}

#[verifier::spinoff_prover]
#[verifier::rlimit(40)]
proof fn lemma_field_of_parts(
    block: Seq<u8>,
    name: Seq<char>,
    k: int,
    value: Seq<char>,
    l: int,
)
    requires
        block.len() > 0,
        block[0] == 0 || block[0] == 0x10 || block[0] == 0x40,
        hpack_int(block, 0, if block[0] == 0x40 { 6 } else { 4 }) == Some((0nat, 1int)),
        hpack_str(block, 1) == Some((name, k)),
        hpack_str(block, k) == Some((value, l)),
    ensures
        hpack_field(block, 0) == Some((HpackField::Literal(name, value), l)),
{
}

#[verifier::spinoff_prover]
#[verifier::rlimit(40)]
proof fn lemma_literal_field(
    first: u8,
    n: Seq<u8>,
    v: Seq<u8>,
    name: Seq<char>,
    value: Seq<char>,
    rest: Seq<u8>,
)
    requires
        first == 0 || first == 0x10 || first == 0x40,
        encode_utf8(name).len() <= u32::MAX,
        encode_utf8(value).len() <= u32::MAX,
        n == str_octets(name),
        v == str_octets(value),
    ensures
        hpack_field(seq![first] + n + v + rest, 0) == Some(
            (HpackField::Literal(name, value), (1 + n.len() + v.len()) as int),
        ),
{
    let block = seq![first] + n + v + rest;
    assert(block =~= seq![first] + (n + (v + rest)));
    assert(block =~= (seq![first] + n) + (v + rest));
    lemma_literal_start(first, n + (v + rest));
    lemma_str_at(seq![first], name, v + rest);
    lemma_str_at(seq![first] + n, value, rest);
    lemma_field_of_parts(
        block,
        name,
        (1 + n.len()) as int,
        value,
        (1 + n.len() + v.len()) as int,
    );
}

/// A literal field is found by its name, whatever the lengths of name and value and whichever of
/// the three literal representations it has; for any other name the search goes on behind it.
#[verifier::spinoff_prover]
#[verifier::rlimit(40)]
pub proof fn literal_fields_are_searched(
    first: u8,
    name: Seq<char>,
    value: Seq<char>,
    rest: Seq<u8>,
    target: Seq<char>,
)
    requires
        first == 0 || first == 0x10 || first == 0x40,
        encode_utf8(name).len() <= u32::MAX,
        encode_utf8(value).len() <= u32::MAX,
    ensures
        hpack_value(seq![first] + str_octets(name) + str_octets(value) + rest, 0, target) == if name
            == target {
            Some(value)
        } else {
            hpack_value(rest, 0, target)
        },
{
    let field = seq![first] + str_octets(name) + str_octets(value);
    let block = field + rest;
    lemma_literal_field(first, str_octets(name), str_octets(value), name, value, rest);
    lemma_value_shift(field, rest, 0, target);
    assert(block.len() >= field.len() > 0);
    if name != target {
        assert(hpack_value(block, 0, target) == hpack_value(block, field.len() as int, target));
    }
}

/// A field under a name that the tables hold, an indexed field and a table size update do not hide
/// what stands behind them, whatever the numbers in them.
#[verifier::spinoff_prover]
#[verifier::rlimit(40)]
pub proof fn other_fields_are_passed_over(
    first: u8,
    index: nat,
    value: Seq<char>,
    rest: Seq<u8>,
    target: Seq<char>,
)
    requires
        0 < index <= u32::MAX,
        encode_utf8(value).len() <= u32::MAX,
    ensures
        first == 0 || first == 0x10 ==> hpack_value(
            int_octets(first, 4, index) + str_octets(value) + rest,
            0,
            target,
        ) == hpack_value(rest, 0, target),
        hpack_value(int_octets(0x40, 6, index) + str_octets(value) + rest, 0, target)
            == hpack_value(rest, 0, target),
        hpack_value(int_octets(0x80, 7, index) + rest, 0, target) == hpack_value(rest, 0, target),
        hpack_value(int_octets(0x20, 5, index) + rest, 0, target) == hpack_value(rest, 0, target),
{
    lemma2_to64();
    let v = str_octets(value);
    if first == 0 || first == 0x10 {
        lemma_indexed_name(first, 4, index, value, rest, target);
    }
    lemma_indexed_name(0x40, 6, index, value, rest, target);
    lemma_int_octets(0x80, 7, index, rest);
    lemma_value_shift(int_octets(0x80, 7, index), rest, 0, target);
    assert((int_octets(0x80, 7, index) + rest)[0] == int_octets(0x80, 7, index)[0]);
    lemma_int_octets(0x20, 5, index, rest);
    lemma_value_shift(int_octets(0x20, 5, index), rest, 0, target);
    assert((int_octets(0x20, 5, index) + rest)[0] == int_octets(0x20, 5, index)[0]);
}

proof fn lemma_indexed_name(
    first: u8,
    prefix: nat,
    index: nat,
    value: Seq<char>,
    rest: Seq<u8>,
    target: Seq<char>,
)
    requires
        0 < index <= u32::MAX,
        encode_utf8(value).len() <= u32::MAX,
        (first == 0 || first == 0x10) && prefix == 4 || first == 0x40 && prefix == 6,
    ensures
        hpack_value(int_octets(first, prefix, index) + str_octets(value) + rest, 0, target)
            == hpack_value(rest, 0, target),
{
    lemma2_to64();
    let head = int_octets(first, prefix, index);
    let v = str_octets(value);
    let field = head + v;
    let block = field + rest;
    assert(block =~= head + (v + rest));
    lemma_int_octets(first, prefix, index, v + rest);
    assert(block[0] == head[0]);
    lemma_str_octets(value, rest);
    lemma_str_shift(head, v + rest, 0);
    assert(hpack_field(block, 0) == Some((HpackField::IndexedName, field.len() as int)));
    lemma_value_shift(field, rest, 0, target);
}

/// The route of an HTTP/2 connection is the value of the field `x-route-to` in its first HEADERS
/// frame, whatever stands before that frame, before that field and behind it.
#[verifier::spinoff_prover]
#[verifier::rlimit(40)]
pub proof fn routed_h2_connection_has_its_route(
    flags: u8,
    stream: Seq<u8>,
    before: Seq<u8>,
    route: Seq<char>,
    behind: Seq<u8>,
    rest: Seq<u8>,
)
    requires
        stream.len() == 4,
        flags & 8 == 0,
        flags & 32 == 0,
        encode_utf8(route).len() <= u32::MAX,
        before.len() + (seq![0u8] + str_octets("x-route-to"@) + str_octets(route) + behind).len()
            < 0x100_0000,
        hpack_value(
            before + (seq![0u8] + str_octets("x-route-to"@) + str_octets(route) + behind),
            0,
            "x-route-to"@,
        ) == hpack_value(
            seq![0u8] + str_octets("x-route-to"@) + str_octets(route) + behind,
            0,
            "x-route-to"@,
        ),
    ensures
        h2_route(
            h2_preface() + (written_frame(
                1,
                flags,
                stream,
                before + (seq![0u8] + str_octets("x-route-to"@) + str_octets(route) + behind),
            ) + rest),
        ) == Some(Some(route)),
{
    reveal_strlit("x-route-to");
    is_ascii_chars_encode_utf8("x-route-to"@);
    let block = before + (seq![0u8] + str_octets("x-route-to"@) + str_octets(route) + behind);
    let frames = written_frame(1, flags, stream, block) + rest;
    assert((h2_preface() + frames).skip(24) =~= frames);
    frames_are_read_whole(1, flags, stream, block, rest);
    literal_fields_are_searched(0, "x-route-to"@, route, behind, "x-route-to"@);
}

/// An HTTP/2 connection whose first HEADERS frame holds no field `x-route-to` has no route.
#[verifier::spinoff_prover]
#[verifier::rlimit(40)]
pub proof fn unrouted_h2_connection_has_none(
    flags: u8,
    stream: Seq<u8>,
    block: Seq<u8>,
    rest: Seq<u8>,
)
    requires
        stream.len() == 4,
        flags & 8 == 0,
        flags & 32 == 0,
        block.len() < 0x100_0000,
        hpack_value(block, 0, "x-route-to"@) is None,
    ensures
        h2_route(h2_preface() + (written_frame(1, flags, stream, block) + rest)) == Some(
            None::<Seq<char>>,
        ),
{
    let frames = written_frame(1, flags, stream, block) + rest;
    assert((h2_preface() + frames).skip(24) =~= frames);
    frames_are_read_whole(1, flags, stream, block, rest);
}

/// The search for a route goes on up to 32768 bytes, preface included, and then ends without one.
pub proof fn h2_search_has_its_bound(buffered: Seq<u8>)
    requires
        headers_block(buffered.skip(24)) is None,
    ensures
        buffered.len() < 32768 ==> h2_route(buffered) is None && h2_room(buffered) == 32768
            - buffered.len(),
        buffered.len() >= 32768 ==> h2_route(buffered) == Some(None::<Seq<char>>) && h2_room(buffered)
            == 0,
{
}

} // verus!
