//! Sniffing the start of a connection, just far enough to find its route.
//!
//! Nothing behind the request head is parsed, so that upgraded and streaming connections pass
//! through unchanged.
use http::header::{HeaderMap, HeaderValue};
use vstd::prelude::*;
use vstd::slice::slice_subrange;
use vstd::string::*;
use vstd::utf8::*;

use crate::headers::{
    append_header, appended, empty_headers, first_value, get_text, header_lists, header_name,
    header_text, header_value, map_room, name_is_lowered, no_headers, normal_name, normalised,
    token_byte, valid_name, valid_value, visible,
};
use crate::model::frames::{carried, connection_is_transparent, frames_of, joined};
use crate::model::wire::{RawConnFrame, RawConnFrameView};
use crate::sidecar::h2::{h2_preface, preface};
use crate::text::{
    after_first_word, begins_with, bytes_begin_with, bytes_between, chars_of, ends_of_a_text, find,
    find_char, find_subsequence, first_index, first_index_is, first_occurs_at, first_word,
    first_word_is_the_first, lemma_find_is, lemma_first_index_is, lines_are_taken_in_order,
    lines_of, lower, lower_text, occurs_at, pieces_are_taken_in_order, same_chars_ignore_case,
    split_chars, split_lines, split_on, split_word, string_of, trim, trim_chars, trim_end_char,
    trim_end_char_of, trim_start, trim_start_text, trim_start_text_of, trimming_takes_the_character,
    trimming_takes_the_text, utf8_chars, utf8_text, views, whitespace,
};

verus! {

/// Upper bound on the bytes read while sniffing the request head.
pub const MAX_HEAD: usize = 65536;

/// The octets that end a request head: an empty line.
pub open spec fn head_end() -> Seq<u8> {
    seq![13u8, 10, 13, 10]
}

/// The sniffed start of an HTTP/1.x connection. `raw` is the head verbatim, from the request line
/// to the empty line.
pub struct Head {
    pub raw: Vec<u8>,
    pub method: String,
    pub path: String,
    pub headers: HeaderMap<HeaderValue>,
}

/// The outcome of sniffing the start of a connection. Every variant carries the bytes already
/// read.
pub enum Sniff {
    /// A request whose head was parsed; `rest` is what followed the head.
    Http1 { head: Head, rest: Vec<u8> },
    /// An HTTP/2 connection.
    Http2 { buffered: Vec<u8> },
    /// Not recognisably HTTP.
    Raw { buffered: Vec<u8> },
}

// ── The request head ──────────────────────────────────────────────────────────

/// The name and value of a header line, if it has a colon and what stands on either side of the
/// first one is, without the white space around it, a header name and a header value.
pub open spec fn header_field(line: Seq<char>) -> Option<(Seq<char>, Seq<u8>)> {
    match first_index(line, ':') {
        None => None,
        Some(i) => {
            let name = encode_utf8(trim(line.take(i)));
            let value = encode_utf8(trim(line.skip(i + 1)));
            if valid_name(name) && valid_value(value) {
                Some((normal_name(name), value))
            } else {
                None
            }
        },
    }
}

/// The number of lines before the first empty one.
pub open spec fn block_len(lines: Seq<Seq<char>>) -> nat
    decreases lines.len(),
{
    if lines.len() == 0 || lines[0].len() == 0 {
        0
    } else {
        1 + block_len(lines.skip(1))
    }
}

/// The header lists that the first `n` lines make. Lines that are no header field are passed over.
pub open spec fn lists_of(lines: Seq<Seq<char>>, n: nat) -> Map<Seq<char>, Seq<Seq<u8>>>
    decreases n,
{
    if n == 0 {
        no_headers()
    } else {
        let before = lists_of(lines, (n - 1) as nat);
        match header_field(lines[n - 1]) {
            Some((name, value)) => appended(before, name, value),
            None => before,
        }
    }
}

/// What a request head says.
pub struct HeadView {
    pub method: Seq<char>,
    pub path: Seq<char>,
    pub headers: Map<Seq<char>, Seq<Seq<u8>>>,
}

/// The lines behind the request line of a head text.
pub open spec fn lines_behind(text: Seq<char>) -> Seq<Seq<char>> {
    split_lines(text).skip(1)
}

/// What the head `raw` says, if it is a text whose first line holds two words or more: the method
/// and the path.
pub open spec fn head_view(raw: Seq<u8>) -> Option<HeadView> {
    match utf8_chars(raw) {
        None => None,
        Some(text) => {
            let line = split_lines(text)[0];
            let method = first_word(line);
            let path = first_word(after_first_word(line));
            if method.len() == 0 || path.len() == 0 {
                None
            } else {
                Some(
                    HeadView {
                        method,
                        path,
                        headers: lists_of(lines_behind(text), block_len(lines_behind(text))),
                    },
                )
            }
        },
    }
}

/// `raw` has as many header names before its last header line as a header map is sure to have room
/// for.
pub open spec fn crowded(raw: Seq<u8>) -> bool {
    &&& utf8_chars(raw) matches Some(text)
    &&& block_len(lines_behind(text)) > 0
    &&& lists_of(lines_behind(text), (block_len(lines_behind(text)) - 1) as nat).dom().len()
        >= map_room()
}

impl Head {
    /// What the head says.
    pub open spec fn says(&self) -> HeadView {
        HeadView {
            method: self.method@,
            path: self.path@,
            headers: header_lists(self.headers),
        }
    }
}

proof fn lemma_block_len(lines: Seq<Seq<char>>, n: int)
    requires
        0 <= n <= lines.len(),
        forall|i: int| 0 <= i < n ==> (#[trigger] lines[i]).len() > 0,
        n < lines.len() ==> lines[n].len() == 0,
    ensures
        block_len(lines) == n,
    decreases n,
{
    if n > 0 {
        assert forall|i: int| 0 <= i < n - 1 implies (#[trigger] lines.skip(1)[i]).len() > 0 by {
            assert(lines.skip(1)[i] == lines[i + 1]);
        }
        lemma_block_len(lines.skip(1), n - 1);
    }
}

proof fn lemma_block_len_at_least(lines: Seq<Seq<char>>, n: int)
    requires
        0 <= n <= lines.len(),
        forall|i: int| 0 <= i < n ==> (#[trigger] lines[i]).len() > 0,
    ensures
        block_len(lines) >= n,
    decreases n,
{
    if n > 0 {
        assert forall|i: int| 0 <= i < n - 1 implies (#[trigger] lines.skip(1)[i]).len() > 0 by {
            assert(lines.skip(1)[i] == lines[i + 1]);
        }
        lemma_block_len_at_least(lines.skip(1), n - 1);
    }
}

proof fn lemma_lists_of_size(lines: Seq<Seq<char>>, n: nat)
    ensures
        lists_of(lines, n).dom().finite(),
        lists_of(lines, n).dom().len() <= n,
    decreases n,
{
    if n > 0 {
        let before = lists_of(lines, (n - 1) as nat);
        lemma_lists_of_size(lines, (n - 1) as nat);
        if let Some((name, value)) = header_field(lines[n - 1]) {
            let after = appended(before, name, value);
            assert(after.dom() =~= before.dom().insert(name));
        }
    }
}

proof fn lemma_lists_grow(lines: Seq<Seq<char>>, k: nat, n: nat)
    requires
        k <= n,
    ensures
        lists_of(lines, k).dom().len() <= lists_of(lines, n).dom().len(),
    decreases n - k,
{
    if k < n {
        lemma_lists_grow(lines, k, (n - 1) as nat);
        let before = lists_of(lines, (n - 1) as nat);
        lemma_lists_of_size(lines, (n - 1) as nat);
        if let Some((name, value)) = header_field(lines[n - 1]) {
            assert(lists_of(lines, n).dom() =~= before.dom().insert(name));
        }
    }
}

/// Add the field of one header line to `headers`; `false` if the map could not take it.
fn add_header_line(headers: &mut HeaderMap<HeaderValue>, line: &[char]) -> (r: bool)
    ensures
        header_lists(*old(headers)).dom().finite() && header_lists(*old(headers)).dom().len()
            < map_room() ==> r,
        r ==> header_lists(*final(headers)) == match header_field(line@) {
            Some((name, value)) => appended(header_lists(*old(headers)), name, value),
            None => header_lists(*old(headers)),
        },
{
    let len: usize = line.len();
    match find_char(line, ':') {
        None => true,
        Some(i) => {
            let name = string_of(trim_chars(slice_subrange(line, 0, i)));
            let value = string_of(trim_chars(slice_subrange(line, i + 1, len)));
            proof {
                assert(line@.subrange(0, i as int) =~= line@.take(i as int));
                assert(line@.subrange(i + 1, line@.len() as int) =~= line@.skip(i + 1));
            }
            match (header_name(name.as_str().as_bytes()), header_value(value.as_str())) {
                (Some(n), Some(v)) => append_header(headers, n, v),
                _ => true,
            }
        },
    }
}

/// Parse a request head. Nothing is given for a head that is no text, or whose first line does not
/// hold a method and a path; nothing may be given for one with 6554 different header names or more
/// before its last header line, where a header map may run out of room.
pub fn parse_head(raw: &[u8]) -> (r: Option<Head>)
    ensures
        match r {
            Some(head) => head.raw@ == raw@ && head_view(raw@) == Some(head.says()),
            None => head_view(raw@) is None || crowded(raw@),
        },
{
    let text = match utf8_text(raw) {
        Err(_) => {
            return None;
        },
        Ok(text) => text,
    };
    proof {
        encode_utf8_decode_utf8(text@);
    }
    let chars = chars_of(text);
    let lines = lines_of(chars.as_slice());
    assert(views(lines@).len() == lines@.len());
    assert(split_lines(text@).len() > 0);
    assert(views(lines@)[0] == lines@[0]@);
    let (method, behind) = split_word(lines[0].as_slice());
    if method.len() == 0 {
        return None;
    }
    let (path, _) = split_word(behind.as_slice());
    if path.len() == 0 {
        return None;
    }
    let ghost after = lines_behind(text@);
    let mut headers = empty_headers();
    let mut i: usize = 1;
    while i < lines.len() && lines[i].len() > 0
        invariant
            1 <= i <= lines@.len(),
            after == views(lines@).skip(1),
            header_lists(headers) == lists_of(after, (i - 1) as nat),
            forall|k: int| 0 <= k < i - 1 ==> (#[trigger] after[k]).len() > 0,
            after == lines_behind(text@),
            utf8_chars(raw@) == Some(text@),
        decreases lines@.len() - i,
    {
        assert(after[i - 1] == lines@[i as int]@);
        proof {
            lemma_lists_of_size(after, (i - 1) as nat);
        }
        let added = add_header_line(&mut headers, lines[i].as_slice());
        i = i + 1;
        if !added {
            proof {
                lemma_block_len_at_least(after, i - 1);
                lemma_lists_grow(after, (i - 2) as nat, (block_len(after) - 1) as nat);
            }
            return None;
        }
    }
    proof {
        if i < lines@.len() {
            assert(after[i - 1] == lines@[i as int]@);
        }
        lemma_block_len(after, i - 1);
    }
    Some(
        Head {
            raw: bytes_between(raw, 0, raw.len()),
            method: string_of(method.as_slice()),
            path: string_of(path.as_slice()),
            headers,
        },
    )
}

/// A header name as it may be written: token characters in any case.
pub open spec fn written_name(name: Seq<char>) -> bool {
    normalised(lower_text(name)) && is_ascii_chars(name)
}

proof fn lemma_trim_plain(s: Seq<char>)
    requires
        s.len() > 0,
        !whitespace(s[0]),
        !whitespace(s.last()),
    ensures
        trim(s) == s,
{
}

/// A header line is read back: the name in lower case, whatever the case it was written in, and
/// the value without the blank before it.
pub proof fn header_line_reads_back(name: Seq<char>, value: Seq<char>)
    requires
        written_name(name),
        valid_value(encode_utf8(value)),
        trim(value) == value,
    ensures
        header_field(name + seq![':', ' '] + value) == Some(
            (lower_text(name), encode_utf8(value)),
        ),
{
    let line = name + seq![':', ' '] + value;
    let n = name.len() as int;
    let low = lower_text(name);
    assert forall|i: int| 0 <= i < n implies name[i] != ':' && !whitespace(name[i])
        && token_byte(name[i] as u8) by {
        assert(low[i] == lower(name[i]));
        assert(token_byte(low[i] as u8));
    }
    assert(first_index_is(line, ':', n)) by {
        assert forall|j: int| 0 <= j < n implies line[j] != ':' by {
            assert(line[j] == name[j]);
        }
    }
    lemma_first_index_is(line, ':', n);
    assert(line.take(n) =~= name);
    lemma_trim_plain(name);
    is_ascii_chars_encode_utf8(name);
    let bytes = encode_utf8(name);
    assert forall|i: int| 0 <= i < bytes.len() implies token_byte(#[trigger] bytes[i])
        && normal_name(bytes)[i] == low[i] by {
        assert(name[i] as u8 == bytes[i]);
        assert((name[i] as u8) as char == name[i]);
    }
    assert(normal_name(bytes) =~= low);
    let tail = line.skip(n + 1);
    assert(tail[0] == ' ');
    assert(tail.skip(1) =~= value);
    assert(trim_start(tail) == trim_start(value));
}

/// When a head holds a header more than once, the first one decides.
pub proof fn first_header_decides(lines: Seq<Seq<char>>, k: nat, n: nat, name: Seq<char>)
    requires
        k <= n,
        lists_of(lines, k).contains_key(name),
        lists_of(lines, k)[name].len() > 0,
    ensures
        lists_of(lines, n).contains_key(name),
        lists_of(lines, n)[name].len() > 0,
        lists_of(lines, n)[name][0] == lists_of(lines, k)[name][0],
    decreases n - k,
{
    if k < n {
        first_header_decides(lines, k, (n - 1) as nat, name);
    }
}

// ── Sniffing ──────────────────────────────────────────────────────────────────

/// What the bytes at the start of a connection show.
pub enum Kind {
    /// Not enough to tell.
    More,
    /// A request with a head that can be parsed.
    Http1,
    /// HTTP/2.
    Http2,
    /// Anything else.
    Raw,
}

/// What `buf`, the bytes read so far, shows; `eof` says that no more will come. The preface of
/// HTTP/2 holds an empty line itself, so it is ruled out before the end of a head is looked for.
pub open spec fn sniff_kind(buf: Seq<u8>, eof: bool) -> Kind {
    if begins_with(buf, h2_preface()) {
        Kind::Http2
    } else if 0 < buf.len() < h2_preface().len() && begins_with(h2_preface(), buf) {
        if eof {
            Kind::Raw
        } else {
            Kind::More
        }
    } else {
        match find(buf, head_end()) {
            Some(pos) => if head_view(buf.take(pos + 4)) is Some {
                Kind::Http1
            } else {
                Kind::Raw
            },
            None => if buf.len() >= MAX_HEAD || eof {
                Kind::Raw
            } else {
                Kind::More
            },
        }
    }
}

impl Sniff {
    /// Every byte that was read while sniffing, in order.
    pub open spec fn consumed(&self) -> Seq<u8> {
        match self {
            Sniff::Http1 { head, rest } => head.raw@ + rest@,
            Sniff::Http2 { buffered } => buffered@,
            Sniff::Raw { buffered } => buffered@,
        }
    }
}

/// Sniff the bytes read so far from the start of a connection: detect the preface of HTTP/2, or
/// else parse the request head once it is complete. `None` asks for more bytes. A stream that ends
/// early, a head without an end among the first 65536 bytes and a head that cannot be parsed are
/// left raw.
pub fn sniff_head(buf: &[u8], eof: bool) -> (r: Option<Sniff>)
    ensures
        r is None <==> sniff_kind(buf@, eof) is More,
        r is None ==> buf@.len() < MAX_HEAD,
        r matches Some(sniff) ==> sniff.consumed() == buf@,
        match r {
            None => true,
            Some(Sniff::Http2 { buffered }) => sniff_kind(buf@, eof) is Http2,
            Some(Sniff::Http1 { head, rest }) => {
                &&& sniff_kind(buf@, eof) is Http1
                &&& head.raw@ == buf@.take(find(buf@, head_end())->0 + 4)
                &&& head_view(head.raw@) == Some(head.says())
            },
            Some(Sniff::Raw { buffered }) => sniff_kind(buf@, eof) is Raw || (sniff_kind(buf@, eof)
                is Http1 && crowded(buf@.take(find(buf@, head_end())->0 + 4))),
        },
{
    let start = preface();
    if bytes_begin_with(buf, start.as_slice()) {
        return Some(Sniff::Http2 { buffered: bytes_between(buf, 0, buf.len()) });
    }
    if buf.len() < 24 && buf.len() > 0 && bytes_begin_with(start.as_slice(), buf) {
        if eof {
            return Some(Sniff::Raw { buffered: bytes_between(buf, 0, buf.len()) });
        }
        return None;
    }
    let end: [u8; 4] = [13, 10, 13, 10];
    assert(end@ =~= head_end());
    match find_subsequence(buf, &end) {
        Some(pos) => {
            let head_len: usize = pos + 4;
            let raw = slice_subrange(buf, 0, head_len);
            assert(raw@ =~= buf@.take(pos + 4));
            match parse_head(raw) {
                Some(head) => {
                    let rest = bytes_between(buf, head_len, buf.len());
                    Some(Sniff::Http1 { head, rest })
                },
                None => Some(Sniff::Raw { buffered: bytes_between(buf, 0, buf.len()) }),
            }
        },
        None => {
            if buf.len() >= MAX_HEAD || eof {
                Some(Sniff::Raw { buffered: bytes_between(buf, 0, buf.len()) })
            } else {
                None
            }
        },
    }
}

/// How many bytes may be read next while sniffing.
pub open spec fn sniff_room(buf: Seq<u8>) -> nat {
    if buf.len() < MAX_HEAD {
        (MAX_HEAD - buf.len()) as nat
    } else {
        0
    }
}

/// Say how many bytes may be read next while sniffing.
pub fn sniff_room_left(buf: &[u8]) -> (r: usize)
    ensures
        r == sniff_room(buf@),
{
    if buf.len() < MAX_HEAD {
        MAX_HEAD - buf.len()
    } else {
        0
    }
}

/// The reads from a connection that is being sniffed: each is made only while more bytes are asked
/// for, and takes no more than the room that is left.
pub open spec fn sniff_reads(reads: Seq<Seq<u8>>) -> bool {
    forall|k: int|
        0 <= k < reads.len() ==> sniff_kind(joined(#[trigger] reads.take(k)), false) is More
            && reads[k].len() <= sniff_room(joined(reads.take(k)))
}

/// Sniffing takes no more than 65536 bytes off a connection, whatever the connection holds: there
/// is room while it asks for more, and it is over when there is none.
pub proof fn sniffing_is_bounded(reads: Seq<Seq<u8>>)
    requires
        sniff_reads(reads),
    ensures
        joined(reads).len() <= MAX_HEAD,
        sniff_kind(joined(reads), false) is More ==> sniff_room(joined(reads)) > 0,
{
    if reads.len() > 0 {
        let k = reads.len() - 1;
        assert(reads.take(k) =~= reads.drop_last());
        assert(sniff_kind(joined(reads.take(k)), false) is More);
    }
}

/// What a connection turned out to be does not change with the bytes that arrive later, nor does
/// the place where its head ends.
pub proof fn sniff_is_stable(read: Seq<u8>, more: Seq<u8>, eof: bool)
    requires
        sniff_kind(read, false) is Http1 || sniff_kind(read, false) is Http2,
    ensures
        sniff_kind(read + more, eof) == sniff_kind(read, false),
        sniff_kind(read, false) is Http1 ==> find(read + more, head_end()) == find(
            read,
            head_end(),
        ) && (read + more).take(find(read, head_end())->0 + 4) == read.take(
            find(read, head_end())->0 + 4,
        ),
{
    let all = read + more;
    let p = h2_preface();
    if sniff_kind(read, false) is Http2 {
        assert(all.take(24) =~= read.take(24));
    } else {
        let pos = find(read, head_end())->0;
        assert(first_occurs_at(read, head_end(), pos));
        assert(all.subrange(pos, pos + 4) =~= read.subrange(pos, pos + 4));
        assert forall|j: int| 0 <= j < pos implies !occurs_at(all, head_end(), j) by {
            assert(all.subrange(j, j + 4) =~= read.subrange(j, j + 4));
            assert(!occurs_at(read, head_end(), j));
        }
        assert(first_occurs_at(all, head_end(), pos));
        lemma_find_is(all, head_end(), pos);
        assert(all.take(pos + 4) =~= read.take(pos + 4));
        if begins_with(all, p) {
            if read.len() >= 24 {
                assert(read.take(24) =~= all.take(24));
            } else {
                assert(p.take(read.len() as int) =~= read);
            }
        }
        if 0 < all.len() < 24 && begins_with(p, all) {
            assert(p.take(read.len() as int) =~= read) by {
                assert(p.take(all.len() as int) == all);
            }
        }
    }
}

// ── Upgrades ──────────────────────────────────────────────────────────────────

/// One of the comma-separated tokens of `text` is `token`, in any case and with any white space
/// around it.
pub open spec fn lists_token(text: Seq<char>, token: Seq<char>) -> bool {
    exists|i: int|
        0 <= i < split_on(text, ',').len() && lower_text(trim(#[trigger] split_on(text, ',')[i]))
            == lower_text(token)
}

fn has_token(text: &str, token: &str) -> (r: bool)
    ensures
        r == lists_token(text@, token@),
{
    let wanted = chars_of(token);
    let parts = split_chars(chars_of(text).as_slice(), ',');
    let mut i: usize = 0;
    while i < parts.len()
        invariant
            i <= parts@.len(),
            views(parts@) == split_on(text@, ','),
            wanted@ == token@,
            forall|k: int|
                0 <= k < i ==> lower_text(trim(#[trigger] split_on(text@, ',')[k])) != lower_text(
                    token@,
                ),
        decreases parts@.len() - i,
    {
        assert(views(parts@)[i as int] == parts@[i as int]@);
        if same_chars_ignore_case(trim_chars(parts[i].as_slice()), wanted.as_slice()) {
            return true;
        }
        i = i + 1;
    }
    false
}

/// A head asks to change the protocol: its `Connection` header lists `upgrade` and it has an
/// `Upgrade` header.
pub open spec fn upgrade(headers: Map<Seq<char>, Seq<Seq<u8>>>) -> bool {
    &&& header_text(headers, "connection"@) matches Some(text)
    &&& lists_token(text, "upgrade"@)
    &&& headers.contains_key("upgrade"@)
}

/// Whether a head asks to change the protocol. Behind its head such a connection is an opaque
/// stream of bytes.
pub fn is_upgrade(headers: &HeaderMap<HeaderValue>) -> (r: bool)
    ensures
        r == upgrade(header_lists(*headers)),
{
    proof {
        reveal_strlit("connection");
        reveal_strlit("upgrade");
    }
    let listed = match get_text(headers, "connection") {
        Some(text) => has_token(text.as_str(), "upgrade"),
        None => false,
    };
    listed && first_value(headers, "upgrade").is_some()
}

// ── Relaying ──────────────────────────────────────────────────────────────────

/// Where the half of a routed connection that leads back to the client stands.
pub enum RelayState {
    /// Waiting for a frame.
    Receiving,
    /// The payload of a frame is being written; `is_eof` says whether the frame ends the half.
    Writing { is_eof: bool },
    /// Over.
    Closed,
}

/// What happens on that half.
pub enum RelayEvent {
    /// A frame came.
    Frame(RawConnFrame),
    /// No more frames come: the stream ended or broke.
    NoMoreFrames,
    /// Bytes were written to the client, or could not be.
    Written(bool),
}

/// What to do about that half.
pub enum RelayAction {
    /// Receive the next frame.
    Receive,
    /// Write to the client and say whether it went.
    Write(Vec<u8>),
    /// Shut the half towards the client, and stop.
    ShutDown,
    /// Stop.
    Stop,
}

/// What comes once the payload of a frame has been written.
pub open spec fn relay_continued(is_eof: bool) -> (RelayState, RelayAction) {
    if is_eof {
        (RelayState::Closed, RelayAction::ShutDown)
    } else {
        (RelayState::Receiving, RelayAction::Receive)
    }
}

/// What an event does on the half that leads back to the client.
pub open spec fn relay_step(state: RelayState, event: RelayEvent) -> (RelayState, RelayAction) {
    match (state, event) {
        (RelayState::Receiving, RelayEvent::Frame(frame)) => if frame.payload@.len() > 0 {
            (RelayState::Writing { is_eof: frame.is_eof }, RelayAction::Write(frame.payload))
        } else {
            relay_continued(frame.is_eof)
        },
        (RelayState::Writing { is_eof }, RelayEvent::Written(true)) => relay_continued(is_eof),
        _ => (RelayState::Closed, RelayAction::Stop),
    }
}

/// Take the next step on the half of a routed connection that leads back to the client.
pub fn relay_raw(state: RelayState, event: RelayEvent) -> (r: (RelayState, RelayAction))
    ensures
        r == relay_step(state, event),
{
    let is_eof: bool = match (state, event) {
        (RelayState::Receiving, RelayEvent::Frame(frame)) => {
            if frame.payload.len() > 0 {
                return (
                    RelayState::Writing { is_eof: frame.is_eof },
                    RelayAction::Write(frame.payload),
                );
            }
            frame.is_eof
        },
        (RelayState::Writing { is_eof }, RelayEvent::Written(true)) => is_eof,
        _ => {
            return (RelayState::Closed, RelayAction::Stop);
        },
    };
    if is_eof {
        (RelayState::Closed, RelayAction::ShutDown)
    } else {
        (RelayState::Receiving, RelayAction::Receive)
    }
}

/// What is written to a client that takes everything, when these frames arrive.
pub open spec fn relayed(frames: Seq<RawConnFrame>) -> Seq<u8>
    decreases frames.len(),
{
    if frames.len() == 0 {
        Seq::empty()
    } else {
        let (state, action) = relay_step(RelayState::Receiving, RelayEvent::Frame(frames[0]));
        let (written, next) = match action {
            RelayAction::Write(bytes) => (
                bytes@,
                relay_step(state, RelayEvent::Written(true)).0,
            ),
            _ => (Seq::empty(), state),
        };
        if next is Receiving {
            written + relayed(frames.skip(1))
        } else {
            written
        }
    }
}

/// The views of frames.
pub open spec fn frames_view(frames: Seq<RawConnFrame>) -> Seq<RawConnFrameView> {
    frames.map_values(|f: RawConnFrame| f@)
}

proof fn lemma_relayed_prefix(frames: Seq<RawConnFrame>, n: int)
    requires
        0 <= n <= frames.len(),
        forall|i: int| 0 <= i < n ==> !(#[trigger] frames[i]).is_eof,
    ensures
        relayed(frames) == carried(frames_view(frames.take(n))) + relayed(frames.skip(n)),
    decreases n,
{
    if n == 0 {
        assert(frames.skip(0) =~= frames);
    } else {
        lemma_relayed_prefix(frames, n - 1);
        let rest = frames.skip(n - 1);
        assert(frames_view(frames.take(n)).drop_last() =~= frames_view(frames.take(n - 1)));
        assert(rest.skip(1) =~= frames.skip(n));
        assert(!frames[n - 1].is_eof);
        assert(relayed(rest) =~= rest[0].payload@ + relayed(rest.skip(1)));
        assert(frames_view(frames.take(n)).last().payload == rest[0].payload@);
    }
}

/// A client that takes everything is sent exactly the bytes that were read on the other side, in
/// order and once.
pub proof fn relay_is_transparent(
    frames: Seq<RawConnFrame>,
    connection_id: Seq<char>,
    reads: Seq<Seq<u8>>,
)
    requires
        frames_view(frames) == frames_of(connection_id, reads),
    ensures
        relayed(frames) == joined(reads),
{
    let n = reads.len() as int;
    let views = frames_of(connection_id, reads);
    connection_is_transparent(connection_id, reads);
    assert(frames.len() == n + 1);
    assert forall|i: int| 0 <= i < n implies !(#[trigger] frames[i]).is_eof by {
        assert(frames_view(frames)[i] == frames[i]@);
        assert(!views[i].is_eof);
    }
    lemma_relayed_prefix(frames, n);
    assert(frames_view(frames.take(n)) =~= views.drop_last());
    let last = frames.skip(n);
    assert(frames_view(frames)[n] == frames[n]@);
    assert(views[n].payload =~= Seq::empty());
    assert(last[0].payload@.len() == 0 && last[0].is_eof);
    assert(relayed(last) =~= Seq::empty());
    assert(carried(views) =~= carried(views.drop_last()) + Seq::empty());
}

// ── Upstream ──────────────────────────────────────────────────────────────────

/// An upstream address without its scheme and without slashes at its end.
pub open spec fn upstream_address(upstream: Seq<char>) -> Seq<char> {
    trim_end_char(
        trim_start_text(trim_start_text(upstream, "http://"@), "https://"@),
        '/',
    )
}

/// Strip scheme and trailing slashes, so that `http://host:port` and `host:port` are the same.
pub fn normalize_upstream(upstream: &str) -> (r: String)
    ensures
        r@ == upstream_address(upstream@),
{
    let chars = chars_of(upstream);
    let http = chars_of("http://");
    let https = chars_of("https://");
    let bare = trim_start_text_of(
        trim_start_text_of(chars.as_slice(), http.as_slice()),
        https.as_slice(),
    );
    string_of(trim_end_char_of(bare, '/'))
}

// ── Laws ──────────────────────────────────────────────────────────────────────

/// A header line is parted at its first colon. What stands on either side is taken without the
/// blanks around it, whatever colons stand in the value; without a colon there is no header.
pub proof fn header_line_is_parted_at_its_colon(a: Seq<char>, b: Seq<char>)
    requires
        !a.contains(':'),
    ensures
        header_field(a) is None,
        header_field(a + seq![':'] + b) is Some <==> valid_name(encode_utf8(trim(a))) && valid_value(
            encode_utf8(trim(b)),
        ),
        header_field(a + seq![':'] + b) matches Some((name, value)) ==> name == lower_text(trim(a))
            && value == encode_utf8(trim(b)),
{
    if let Some(i) = first_index(a, ':') {
        assert(first_index_is(a, ':', i));
        assert(a.contains(a[i]));
    }
    let line = a + seq![':'] + b;
    let n = a.len() as int;
    assert(first_index_is(line, ':', n)) by {
        assert forall|j: int| 0 <= j < n implies line[j] != ':' by {
            assert(a.contains(a[j]));
        }
    }
    lemma_first_index_is(line, ':', n);
    assert(line.take(n) =~= a);
    assert(line.skip(n + 1) =~= b);
    if valid_name(encode_utf8(trim(a))) {
        name_is_lowered(trim(a));
    }
}

/// The line is a header of this name.
pub open spec fn is_header(line: Seq<char>, name: Seq<char>) -> bool {
    header_field(line) matches Some((n, value)) && n == name
}

/// The value of a header line.
pub open spec fn value_of(line: Seq<char>) -> Seq<u8> {
    match header_field(line) {
        Some((name, value)) => value,
        None => Seq::empty(),
    }
}

/// The header lines of a head are filed under their own names: the values of a name are those of the
/// lines that have it, in their order, and a name that no line has is not there.
pub proof fn header_lines_are_filed_by_name(lines: Seq<Seq<char>>, n: nat, name: Seq<char>)
    requires
        n <= lines.len(),
    ensures
        ({
            let named = lines.take(n as int).filter(|line: Seq<char>| is_header(line, name));
            &&& lists_of(lines, n).contains_key(name) <==> named.len() > 0
            &&& named.len() > 0 ==> lists_of(lines, n)[name] == named.map_values(
                |line: Seq<char>| value_of(line),
            )
        }),
    decreases n,
{
    reveal(Seq::filter);
    let pred = |line: Seq<char>| is_header(line, name);
    let value = |line: Seq<char>| value_of(line);
    let all = lines.take(n as int);
    if n > 0 {
        let front = lines.take(n - 1);
        assert(all.drop_last() =~= front);
        assert(all.last() == lines[n - 1]);
        header_lines_are_filed_by_name(lines, (n - 1) as nat, name);
        let before = front.filter(pred);
        let named = all.filter(pred);
        if pred(lines[n - 1]) {
            assert(named == before.push(lines[n - 1]));
            assert(named.map_values(value) =~= before.map_values(value).push(value(lines[n - 1])));
        }
    }
}

/// The header lines of a head end before the first empty line, and nothing behind that counts.
pub proof fn head_ends_at_the_first_empty_line(
    block: Seq<Seq<char>>,
    behind: Seq<Seq<char>>,
)
    requires
        forall|i: int| 0 <= i < block.len() ==> (#[trigger] block[i]).len() > 0,
    ensures
        block_len(block) == block.len(),
        block_len(block + seq![Seq::empty()] + behind) == block.len(),
{
    lemma_block_len(block, block.len() as int);
    let lines = block + seq![Seq::<char>::empty()] + behind;
    assert forall|i: int| 0 <= i < block.len() implies (#[trigger] lines[i]).len() > 0 by {
        assert(lines[i] == block[i]);
    }
    lemma_block_len(lines, block.len() as int);
}

/// The first line of a head names the method and the path, one behind the other with blanks
/// between, whatever stands behind them; the headers are those of the lines behind it.
pub proof fn head_is_read_line_by_line(
    method: Seq<char>,
    path: Seq<char>,
    version: Seq<char>,
    rest: Seq<char>,
)
    requires
        method.len() > 0,
        forall|i: int| 0 <= i < method.len() ==> !whitespace(#[trigger] method[i]),
        path.len() > 0,
        forall|i: int| 0 <= i < path.len() ==> !whitespace(#[trigger] path[i]),
        !version.contains('\r'),
    ensures
        head_view(
            encode_utf8(
                method + seq![' '] + path + seq![' '] + version + seq!['\r', '\n'] + rest,
            ),
        ) matches Some(head) && head.method == method && head.path == path && head.headers
            == lists_of(split_lines(rest), block_len(split_lines(rest))),
{
    let line = method + seq![' '] + path + seq![' '] + version;
    let text = line + seq!['\r', '\n'] + rest;
    encode_utf8_valid_utf8(text);
    encode_utf8_decode_utf8(text);
    assert(!line.contains('\r')) by {
        if line.contains('\r') {
            let i = choose|i: int| 0 <= i < line.len() && line[i] == '\r';
            let m = method.len() as int;
            let p = path.len() as int;
            if i < m {
                assert(whitespace(method[i]));
            } else if m < i < m + 1 + p {
                assert(whitespace(path[i - m - 1]));
            } else if i > m + p + 1 {
                assert(version[i - m - p - 2] == '\r');
                assert(version.contains('\r'));
            }
        }
    }
    lines_are_taken_in_order(line, rest);
    assert(lines_behind(text) =~= split_lines(rest));
    assert(split_lines(text)[0] == line);
    let behind = seq![' '] + path + seq![' '] + version;
    assert(Seq::<char>::empty() + method + behind =~= line);
    first_word_is_the_first(Seq::empty(), method, behind);
    let tail = seq![' '] + version;
    assert(seq![' '] + path + tail =~= behind);
    first_word_is_the_first(seq![' '], path, tail);
}

/// What is no text, and what has fewer than two words on its first line, is no head.
pub proof fn short_heads_are_no_heads(raw: Seq<u8>, word: Seq<char>, rest: Seq<char>)
    requires
        word.len() > 0,
        forall|i: int| 0 <= i < word.len() ==> !whitespace(#[trigger] word[i]),
    ensures
        !valid_utf8(raw) ==> head_view(raw) is None,
        head_view(encode_utf8(seq!['\r', '\n'] + rest)) is None,
        head_view(encode_utf8(word + seq!['\r', '\n'] + rest)) is None,
{
    let nothing = Seq::<char>::empty();
    let a = seq!['\r', '\n'] + rest;
    let b = word + seq!['\r', '\n'] + rest;
    encode_utf8_valid_utf8(a);
    encode_utf8_decode_utf8(a);
    encode_utf8_valid_utf8(b);
    encode_utf8_decode_utf8(b);
    assert(nothing + seq!['\r', '\n'] + rest =~= a);
    lines_are_taken_in_order(nothing, rest);
    assert(split_lines(a)[0] == nothing);
    assert(!word.contains('\r')) by {
        if word.contains('\r') {
            let i = choose|i: int| 0 <= i < word.len() && word[i] == '\r';
            assert(whitespace(word[i]));
        }
    }
    lines_are_taken_in_order(word, rest);
    assert(split_lines(b)[0] == word);
    assert(nothing + word + nothing =~= word);
    first_word_is_the_first(nothing, word, nothing);
    assert(first_word(nothing).len() == 0);
}

/// How a connection is told: by the preface of HTTP/2, or else by a head that ends in an empty line
/// and can be read. While it may still become either, more is read, unless no more comes or 65536
/// bytes were read.
pub proof fn connections_are_told_by_their_start(rest: Seq<u8>, buf: Seq<u8>, n: int, eof: bool)
    requires
        find(buf, seq![13u8, 10, 13, 10]) is None,
        !begins_with(h2_preface(), buf),
        !begins_with(buf, h2_preface()),
        0 < n < 24,
    ensures
        sniff_kind(h2_preface() + rest, eof) is Http2,
        sniff_kind(h2_preface().take(n), false) is More,
        sniff_kind(h2_preface().take(n), true) is Raw,
        sniff_kind(buf, true) is Raw,
        buf.len() >= 65536 ==> sniff_kind(buf, eof) is Raw,
        buf.len() < 65536 ==> sniff_kind(buf, false) is More,
{
    ends_of_a_text(h2_preface() + rest, h2_preface(), rest);
    let start = h2_preface().take(n);
    assert(h2_preface().take(start.len() as int) =~= start);
}

/// A request is told once its head is there, whatever comes behind it.
pub proof fn requests_are_told_by_their_head(head: Seq<u8>, rest: Seq<u8>, eof: bool)
    requires
        head.len() >= 4,
        find(head, seq![13u8, 10, 13, 10]) == Some(head.len() - 4),
        !begins_with(head + rest, h2_preface()),
        !begins_with(h2_preface(), head + rest),
    ensures
        head_view(head) is Some ==> sniff_kind(head + rest, eof) is Http1,
        head_view(head) is None ==> sniff_kind(head + rest, eof) is Raw,
{
    let all = head + rest;
    let pos = head.len() - 4;
    assert(first_occurs_at(head, head_end(), pos));
    assert(all.subrange(pos, pos + 4) =~= head.subrange(pos, pos + 4));
    assert forall|j: int| 0 <= j < pos implies !occurs_at(all, head_end(), j) by {
        assert(all.subrange(j, j + 4) =~= head.subrange(j, j + 4));
        assert(!occurs_at(head, head_end(), j));
    }
    lemma_find_is(all, head_end(), pos);
    assert(all.take(pos + 4) =~= head);
}

/// A token is listed in a text of one piece if it is that piece, in any case and with any blanks
/// around it, and in a longer one if it is listed on either side of a comma.
pub proof fn tokens_are_listed_between_commas(
    piece: Seq<char>,
    rest: Seq<char>,
    token: Seq<char>,
)
    requires
        !piece.contains(','),
    ensures
        lists_token(piece, token) <==> lower_text(trim(piece)) == lower_text(token),
        lists_token(piece + seq![','] + rest, token) <==> lists_token(piece, token) || lists_token(
            rest,
            token,
        ),
{
    pieces_are_taken_in_order(piece, rest, ',');
    let one = split_on(piece, ',');
    let behind = split_on(rest, ',');
    let all = split_on(piece + seq![','] + rest, ',');
    assert(one[0] == piece);
    assert(all[0] == piece);
    if lists_token(piece + seq![','] + rest, token) {
        let i = choose|i: int|
            0 <= i < all.len() && lower_text(trim(#[trigger] all[i])) == lower_text(token);
        if i > 0 {
            assert(behind[i - 1] == all[i]);
        }
    }
    if lists_token(rest, token) {
        let i = choose|i: int|
            0 <= i < behind.len() && lower_text(trim(#[trigger] behind[i])) == lower_text(token);
        assert(all[i + 1] == behind[i]);
    }
}

/// A head asks for another protocol only with both headers: `Connection`, with `upgrade` among its
/// tokens, and `Upgrade`.
pub proof fn upgrades_need_both_headers(
    headers: Map<Seq<char>, Seq<Seq<u8>>>,
    text: Seq<char>,
    asked: Seq<u8>,
)
    requires
        visible(encode_utf8(text)),
    ensures
        !headers.contains_key("connection"@) ==> !upgrade(headers),
        !headers.contains_key("upgrade"@) ==> !upgrade(headers),
        upgrade(
            headers.insert("connection"@, seq![encode_utf8(text)]).insert("upgrade"@, seq![asked]),
        ) <==> lists_token(text, "upgrade"@),
{
    reveal_strlit("connection");
    reveal_strlit("upgrade");
    assert("connection"@.len() == 10 && "upgrade"@.len() == 7);
    encode_utf8_decode_utf8(text);
}

/// A client that is gone is left, and so is one whose frames stop.
pub proof fn lost_clients_are_left(is_eof: bool)
    ensures
        relay_step(RelayState::Writing { is_eof }, RelayEvent::Written(false)) == (
            RelayState::Closed,
            RelayAction::Stop,
        ),
        relay_step(RelayState::Receiving, RelayEvent::NoMoreFrames) == (
            RelayState::Closed,
            RelayAction::Stop,
        ),
        relay_step(RelayState::Writing { is_eof: true }, RelayEvent::Written(true)) == (
            RelayState::Closed,
            RelayAction::ShutDown,
        ),
        relay_step(RelayState::Writing { is_eof: false }, RelayEvent::Written(true)) == (
            RelayState::Receiving,
            RelayAction::Receive,
        ),
{
}

/// An upstream is a host and its port, with a scheme in front or none, and any number of slashes
/// behind it.
pub proof fn upstream_is_its_host(host: Seq<char>, slashes: Seq<char>)
    requires
        host.len() > 0,
        host.last() != '/',
        !begins_with(host + slashes, "http://"@),
        !begins_with(host + slashes, "https://"@),
        forall|i: int| 0 <= i < slashes.len() ==> #[trigger] slashes[i] == '/',
    ensures
        upstream_address(host) == host,
        upstream_address(host + slashes) == host,
        upstream_address("http://"@ + (host + slashes)) == host,
        upstream_address("https://"@ + (host + slashes)) == host,
{
    reveal_strlit("http://");
    reveal_strlit("https://");
    let http = "http://"@;
    let https = "https://"@;
    let all = host + slashes;
    assert(!begins_with(host, http)) by {
        if begins_with(host, http) {
            assert(all.take(7) =~= host.take(7));
        }
    }
    assert(!begins_with(host, https)) by {
        if begins_with(host, https) {
            assert(all.take(8) =~= host.take(8));
        }
    }
    trimming_takes_the_text(host, http);
    trimming_takes_the_text(host, https);
    trimming_takes_the_text(all, http);
    trimming_takes_the_text(all, https);
    let safe = https + all;
    assert(!begins_with(safe, http)) by {
        if begins_with(safe, http) {
            assert(safe.take(7)[4] == http[4]);
            assert(safe[4] == https[4]);
        }
    }
    trimming_takes_the_text(safe, http);
    trimming_takes_the_character(host, '/');
    lemma_slashes(host, slashes);
}

proof fn lemma_slashes(host: Seq<char>, slashes: Seq<char>)
    requires
        host.len() > 0,
        host.last() != '/',
        forall|i: int| 0 <= i < slashes.len() ==> #[trigger] slashes[i] == '/',
    ensures
        trim_end_char(host + slashes, '/') == host,
    decreases slashes.len(),
{
    if slashes.len() == 0 {
        assert(host + slashes =~= host);
        trimming_takes_the_character(host, '/');
    } else {
        let fewer = slashes.drop_last();
        assert((host + fewer).push('/') =~= host + slashes) by {
            assert(slashes[slashes.len() - 1] == '/');
        }
        trimming_takes_the_character(host + fewer, '/');
        lemma_slashes(host, fewer);
    }
}

/// Only a head with more than 6554 header lines, and as many different names, may be left unread for
/// want of room, and the start of a connection is read up to 65536 bytes.
pub proof fn heads_have_room(raw: Seq<u8>, buf: Seq<u8>)
    ensures
        crowded(raw) ==> (utf8_chars(raw) matches Some(text) && ({
            let lines = split_lines(text).skip(1);
            &&& block_len(lines) > 6554
            &&& lists_of(lines, block_len(lines)).dom().len() >= 6554
        })),
        buf.len() <= 65536 ==> sniff_room(buf) == 65536 - buf.len(),
        buf.len() > 65536 ==> sniff_room(buf) == 0,
{
    if crowded(raw) {
        let lines = lines_behind(utf8_chars(raw)->0);
        let n = block_len(lines);
        lemma_lists_of_size(lines, (n - 1) as nat);
        lemma_lists_grow(lines, (n - 1) as nat, n);
    }
}

} // verus!
