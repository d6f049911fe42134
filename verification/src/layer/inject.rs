//! Chained detours: requests that leave through the tunnel carry the route on.
use std::collections::HashMap;

use vstd::prelude::*;
use vstd::slice::slice_subrange;
use vstd::string::*;
use vstd::utf8::*;

use crate::headers::valid_value;
use crate::sidecar::raw::{head_end, header_field, header_line_reads_back};
use crate::text::{
    begins_with, bytes_finish_with, chars_of, ends_of_a_text, find, find_byte, find_subsequence,
    finishes_with, first_index, first_index_is, first_occurs_at, lemma_find_is,
    lemma_first_index_is, line_end, lower_text, occurs_at, octet_lines,
    octet_lines_are_taken_in_order, octet_lines_of, octet_views, opt_str, opt_text, push_bytes,
    same_chars_ignore_case, trim, trim_chars, trimming_takes_the_blanks, utf8_chars, utf8_text,
    whitespace,
};

verus! {

broadcast use vstd::std_specs::hash::group_hash_axioms;

// ── Requests ──────────────────────────────────────────────────────────────────

/// The length of the first line of a head.
pub open spec fn first_line_len(head: Seq<u8>) -> int {
    match find(head, line_end()) {
        Some(i) => i,
        None => head.len() as int,
    }
}

/// A line ends like a request line of HTTP/1.x.
pub open spec fn request_line(line: Seq<u8>) -> bool {
    finishes_with(line, encode_utf8(" HTTP/1.1"@)) || finishes_with(
        line,
        encode_utf8(" HTTP/1.0"@),
    )
}

/// A header line names the route, in any case, in what stands before its first colon.
pub open spec fn names_route(line: Seq<u8>) -> bool {
    match first_index(line, 58u8) {
        Some(i) => match utf8_chars(line.take(i)) {
            Some(name) => lower_text(trim(name)) == "x-route-to"@,
            None => false,
        },
        None => false,
    }
}

/// One of the lines behind the first one of a head names the route: the head carries a route
/// already.
pub open spec fn carries_route(head: Seq<u8>) -> bool {
    exists|i: int| 1 <= i < octet_lines(head).len() && names_route(#[trigger] octet_lines(head)[i])
}

/// The header line for a route.
pub open spec fn route_line(route: Seq<char>) -> Seq<u8> {
    encode_utf8("X-Route-To: "@) + encode_utf8(route) + line_end()
}

/// A request with a header line for the route right behind its request line. Bytes that do not
/// begin with a complete head of HTTP/1.x, and a head that carries a route, are left as they are.
pub open spec fn injected(buf: Seq<u8>, route: Seq<char>) -> Option<Seq<u8>> {
    match find(buf, head_end()) {
        None => None,
        Some(end) => {
            let head = buf.take(end);
            let len = first_line_len(head);
            if !request_line(head.take(len)) || carries_route(head) {
                None
            } else {
                Some(buf.take(len + 2) + route_line(route) + buf.skip(len + 2))
            }
        },
    }
}

/// Whether a line ends like a request line of HTTP/1.x.
pub fn is_http_request_line(line: &[u8]) -> (r: bool)
    ensures
        r == request_line(line@),
{
    let one = " HTTP/1.1";
    let zero = " HTTP/1.0";
    bytes_finish_with(line, one.as_bytes()) || bytes_finish_with(line, zero.as_bytes())
}

/// Whether a header line names the route.
fn line_names_route(line: &[u8]) -> (r: bool)
    ensures
        r == names_route(line@),
{
    let colon: usize = match find_byte(line, 58) {
        None => {
            return false;
        },
        Some(colon) => colon,
    };
    let before = slice_subrange(line, 0, colon);
    assert(before@ =~= line@.take(colon as int));
    match utf8_text(before) {
        Err(_) => false,
        Ok(name) => {
            proof {
                encode_utf8_decode_utf8(name@);
                reveal_strlit("x-route-to");
                assert(lower_text("x-route-to"@) =~= "x-route-to"@);
            }
            same_chars_ignore_case(
                trim_chars(chars_of(name).as_slice()),
                chars_of("x-route-to").as_slice(),
            )
        },
    }
}

/// Whether a head carries a route already.
pub fn head_has_route_header(head: &[u8]) -> (r: bool)
    ensures
        r == carries_route(head@),
{
    let lines = octet_lines_of(head);
    let ghost all = octet_lines(head@);
    let mut i: usize = 1;
    while i < lines.len()
        invariant
            1 <= i,
            all == octet_lines(head@),
            octet_views(lines@) == all,
            forall|k: int| 1 <= k < i && k < all.len() ==> !names_route(#[trigger] all[k]),
        decreases lines@.len() - i,
    {
        assert(octet_views(lines@)[i as int] == lines@[i as int]@);
        if line_names_route(lines[i].as_slice()) {
            assert(names_route(all[i as int]));
            return true;
        }
        i = i + 1;
    }
    false
}

/// Put a header line for the route into a request. `None` leaves it as it is.
pub fn inject_route_header(buf: &[u8], route: &str) -> (r: Option<Vec<u8>>)
    ensures
        match injected(buf@, route@) {
            Some(bytes) => r is Some && r->0@ == bytes,
            None => r is None,
        },
{
    let blank: [u8; 4] = [13, 10, 13, 10];
    let eol: [u8; 2] = [13, 10];
    assert(blank@ =~= head_end());
    assert(eol@ =~= line_end());
    let total: usize = buf.len();
    let end: usize = match find_subsequence(buf, &blank) {
        None => {
            return None;
        },
        Some(end) => end,
    };
    let head = slice_subrange(buf, 0, end);
    assert(head@ =~= buf@.take(end as int));
    let len: usize = match find_subsequence(head, &eol) {
        Some(len) => len,
        None => head.len(),
    };
    let first = slice_subrange(head, 0, len);
    assert(first@ =~= head@.take(len as int));
    if !is_http_request_line(first) {
        return None;
    }
    if head_has_route_header(head) {
        return None;
    }
    let at: usize = len + 2;
    let name = "X-Route-To: ";
    let mut out: Vec<u8> = Vec::new();
    push_bytes(&mut out, slice_subrange(buf, 0, at));
    push_bytes(&mut out, name.as_bytes());
    push_bytes(&mut out, route.as_bytes());
    push_bytes(&mut out, &eol);
    push_bytes(&mut out, slice_subrange(buf, at, total));
    assert(out@ =~= buf@.take(at as int) + route_line(route@) + buf@.skip(at as int));
    Some(out)
}

// ── Which requests ────────────────────────────────────────────────────────────

/// The route that is configured: the setting, unless it is blank.
pub open spec fn route_setting(setting: Option<Seq<char>>) -> Option<Seq<char>> {
    match setting {
        Some(value) => if trim(value).len() > 0 {
            Some(value)
        } else {
            None
        },
        None => None,
    }
}

/// The route that is configured.
pub fn configured_route(setting: Option<&str>) -> (r: Option<String>)
    ensures
        opt_text(r) == route_setting(opt_str(setting)),
{
    match setting {
        Some(value) => if trim_chars(chars_of(value).as_slice()).len() > 0 {
            Some(value.to_string())
        } else {
            None
        },
        None => None,
    }
}

/// The descriptors of tunneled connections. Each carries whether its head has been handled.
pub struct RoutedFds {
    fds: HashMap<i32, bool>,
}

impl View for RoutedFds {
    type V = Map<i32, bool>;

    closed spec fn view(&self) -> Map<i32, bool> {
        self.fds@
    }
}

/// A descriptor whose head is still to be handled.
pub open spec fn fresh_fd(fds: Map<i32, bool>, fd: i32) -> bool {
    fds.contains_key(fd) && !fds[fd]
}

/// The route for what is sent on a descriptor: the one that is configured, if the head is still to
/// be handled.
pub open spec fn route_for(fds: Map<i32, bool>, fd: i32, setting: Option<Seq<char>>) -> Option<
    Seq<char>,
> {
    if fresh_fd(fds, fd) {
        route_setting(setting)
    } else {
        None
    }
}

/// The descriptors once something was sent on `fd`.
pub open spec fn after_take(fds: Map<i32, bool>, fd: i32, setting: Option<Seq<char>>) -> Map<
    i32,
    bool,
> {
    if route_for(fds, fd, setting) is Some {
        fds.insert(fd, true)
    } else {
        fds
    }
}

impl RoutedFds {
    /// No descriptors.
    pub fn new() -> (r: Self)
        ensures
            r@ == Map::<i32, bool>::empty(),
    {
        RoutedFds { fds: HashMap::new() }
    }

    /// Note a tunneled connection.
    pub fn track(&mut self, fd: i32)
        ensures
            final(self)@ == old(self)@.insert(fd, false),
    {
        self.fds.insert(fd, false);
    }

    /// Forget a descriptor.
    pub fn untrack(&mut self, fd: i32)
        ensures
            final(self)@ == old(self)@.remove(fd),
    {
        self.fds.remove(&fd);
    }

    /// The route for what is sent on a descriptor, once.
    pub fn take_route_for_fd(&mut self, fd: i32, setting: Option<&str>) -> (r: Option<String>)
        ensures
            opt_text(r) == route_for(old(self)@, fd, opt_str(setting)),
            final(self)@ == after_take(old(self)@, fd, opt_str(setting)),
    {
        let route = match configured_route(setting) {
            None => {
                return None;
            },
            Some(route) => route,
        };
        let fresh = match self.fds.get(&fd) {
            Some(handled) => !*handled,
            None => false,
        };
        if fresh {
            self.fds.insert(fd, true);
            Some(route)
        } else {
            None
        }
    }

    /// What to send on a descriptor in place of `buf`; `None` leaves it as it is.
    pub fn rewrite(&mut self, fd: i32, buf: &[u8], setting: Option<&str>) -> (r: Option<Vec<u8>>)
        ensures
            final(self)@ == if buf@.len() > 0 {
                after_take(old(self)@, fd, opt_str(setting))
            } else {
                old(self)@
            },
            match route_for(old(self)@, fd, opt_str(setting)) {
                Some(route) => if buf@.len() > 0 && injected(buf@, route) is Some {
                    r is Some && r->0@ == injected(buf@, route)->0
                } else {
                    r is None
                },
                None => r is None,
            },
    {
        if buf.len() == 0 {
            return None;
        }
        match self.take_route_for_fd(fd, setting) {
            Some(route) => inject_route_header(buf, route.as_str()),
            None => None,
        }
    }
}

/// How far a buffer has been sent.
pub enum SendProgress {
    /// Send the rest, from here.
    Rest(usize),
    /// All of it is sent.
    All,
    /// It cannot be sent.
    Failed,
}

/// Decide how to go on once `sent` bytes of the rest behind `offset` were accepted; none, or an
/// error, ends it.
pub fn send_all(offset: usize, len: usize, sent: i64) -> (r: SendProgress)
    requires
        offset < len,
        sent <= len - offset,
    ensures
        r == if sent <= 0 {
            SendProgress::Failed
        } else if offset + sent == len {
            SendProgress::All
        } else {
            SendProgress::Rest((offset + sent) as usize)
        },
{
    if sent <= 0 {
        SendProgress::Failed
    } else if offset + sent as usize == len {
        SendProgress::All
    } else {
        SendProgress::Rest(offset + sent as usize)
    }
}

// ── Laws ──────────────────────────────────────────────────────────────────────

/// The route fires once for each tunneled connection, and never for others.
pub proof fn route_fires_once(fds: Map<i32, bool>, fd: i32, setting: Option<Seq<char>>)
    ensures
        route_for(after_take(fds, fd, setting), fd, setting) is None,
        !fds.contains_key(fd) ==> route_for(fds, fd, setting) is None,
        route_for(fds.insert(fd, false), fd, setting) == route_setting(setting),
        route_for(fds.remove(fd), fd, setting) is None,
{
}

/// Injection adds one header line right behind the request line and keeps every other byte, the
/// body included.
pub proof fn injection_keeps_the_request(buf: Seq<u8>, route: Seq<char>)
    requires
        injected(buf, route) is Some,
    ensures
        ({
            let k = first_line_len(buf.take(find(buf, head_end())->0)) + 2;
            let out = injected(buf, route)->0;
            let n = route_line(route).len() as int;
            &&& 2 <= k <= buf.len()
            &&& buf.subrange(k - 2, k) == line_end()
            &&& out.len() == buf.len() + n
            &&& out.take(k) == buf.take(k)
            &&& out.subrange(k, k + n) == route_line(route)
            &&& out.skip(k + n) == buf.skip(k)
        }),
{
    let end = find(buf, head_end())->0;
    assert(first_occurs_at(buf, head_end(), end));
    let head = buf.take(end);
    let len = first_line_len(head);
    if find(head, line_end()) is Some {
        assert(first_occurs_at(head, line_end(), len));
        assert(buf.subrange(len, len + 2) =~= head.subrange(len, len + 2));
    } else {
        assert(buf.subrange(len, len + 2) =~= head_end().subrange(0, 2)) by {
            assert(buf.subrange(end, end + 4) == head_end());
            assert(buf.subrange(end, end + 4).subrange(0, 2) =~= buf.subrange(end, end + 2));
        }
        assert(head_end().subrange(0, 2) =~= line_end());
    }
    let k = len + 2;
    let n = route_line(route).len() as int;
    let out = injected(buf, route)->0;
    assert(out.take(k) =~= buf.take(k));
    assert(out.subrange(k, k + n) =~= route_line(route));
    assert(out.skip(k + n) =~= buf.skip(k));
}

/// A request that carries a route is left as it is, whatever route is configured.
pub proof fn existing_route_is_kept(buf: Seq<u8>, route: Seq<char>)
    requires
        find(buf, head_end()) matches Some(end) && carries_route(buf.take(end)),
    ensures
        injected(buf, route) is None,
{
}

/// What begins like the line that is injected names the route, whatever the route is.
pub proof fn injected_line_names_the_route(line: Seq<u8>)
    requires
        begins_with(line, encode_utf8("X-Route-To: "@)),
    ensures
        names_route(line),
{
    reveal_strlit("X-Route-To: ");
    reveal_strlit("x-route-to");
    let start = "X-Route-To: "@;
    let name = seq!['X', '-', 'R', 'o', 'u', 't', 'e', '-', 'T', 'o'];
    assert(is_ascii_chars(start));
    is_ascii_chars_encode_utf8(start);
    let bytes = encode_utf8(start);
    assert forall|j: int| 0 <= j < 12 implies line[j] == start[j] as u8 by {
        assert(line.take(12)[j] == bytes[j]);
        assert(start[j] as u8 == bytes[j]);
    }
    assert(first_index_is(line, 58u8, 10));
    lemma_first_index_is(line, 58u8, 10);
    is_ascii_chars_encode_utf8(name);
    assert(line.take(10) =~= encode_utf8(name)) by {
        assert forall|j: int| 0 <= j < 10 implies line[j] == encode_utf8(name)[j] by {
            assert(name[j] == start[j]);
            assert(name[j] as u8 == encode_utf8(name)[j]);
        }
    }
    encode_utf8_valid_utf8(name);
    encode_utf8_decode_utf8(name);
    assert(trim(name) == name);
    assert(lower_text(name) =~= "x-route-to"@);
}

/// The line that is injected is what a sidecar reads the route from.
pub proof fn injected_line_is_understood(route: Seq<char>)
    requires
        valid_value(encode_utf8(route)),
        trim(route) == route,
    ensures
        header_field("X-Route-To: "@ + route) == Some(("x-route-to"@, encode_utf8(route))),
{
    reveal_strlit("X-Route-To: ");
    reveal_strlit("x-route-to");
    let name = seq!['X', '-', 'R', 'o', 'u', 't', 'e', '-', 'T', 'o'];
    assert(lower_text(name) =~= "x-route-to"@);
    header_line_reads_back(name, route);
    assert("X-Route-To: "@ + route =~= name + seq![':', ' '] + route);
}

/// A request line ends in the version of the protocol, whatever stands before that.
pub proof fn request_lines_end_in_their_version(start: Seq<u8>, line: Seq<u8>)
    ensures
        request_line(start + encode_utf8(" HTTP/1.1"@)),
        request_line(start + encode_utf8(" HTTP/1.0"@)),
        request_line(line) ==> exists|front: Seq<u8>|
            line == front + encode_utf8(" HTTP/1.1"@) || line == front + encode_utf8(" HTTP/1.0"@),
{
    let one = encode_utf8(" HTTP/1.1"@);
    let zero = encode_utf8(" HTTP/1.0"@);
    ends_of_a_text(line, one, start);
    ends_of_a_text(line, zero, start);
    if finishes_with(line, one) {
        let front = line.take(line.len() - one.len());
        assert(line == front + one);
    } else if finishes_with(line, zero) {
        let front = line.take(line.len() - zero.len());
        assert(line == front + zero);
    }
}

/// The route goes in right behind the request line, and everything else stays where it is: here the
/// request line is `first`, and behind it come the other lines of the head and the body.
pub proof fn route_goes_behind_the_request_line(first: Seq<u8>, rest: Seq<u8>, route: Seq<char>)
    requires
        forall|j: int| 0 <= j < first.len() ==> #[trigger] first[j] != 13,
        injected(first + line_end() + rest, route) is Some,
    ensures
        injected(first + line_end() + rest, route) == Some(
            first + seq![13u8, 10] + encode_utf8("X-Route-To: "@) + encode_utf8(route) + seq![13u8, 10]
                + rest,
        ),
{
    let buf = first + line_end() + rest;
    let n = first.len() as int;
    let end = find(buf, head_end())->0;
    assert(first_occurs_at(buf, head_end(), end));
    let head = buf.take(end);
    assert(end >= n) by {
        if end < n {
            assert(buf.subrange(end, end + 4)[0] == buf[end]);
            assert(buf[end] == first[end]);
        }
    }
    let len = first_line_len(head);
    assert(len == n) by {
        if end >= n + 2 {
            assert(head.subrange(n, n + 2) =~= line_end());
            assert forall|j: int| 0 <= j < n implies !occurs_at(head, line_end(), j) by {
                if occurs_at(head, line_end(), j) {
                    assert(head.subrange(j, j + 2)[0] == head[j]);
                    assert(head[j] == first[j]);
                }
            }
            lemma_find_is(head, line_end(), n);
        } else {
            if end == n + 1 {
                assert(buf.subrange(end, end + 4)[0] == buf[end]);
                assert(buf[end] == line_end()[1]);
            }
            if let Some(i) = find(head, line_end()) {
                assert(first_occurs_at(head, line_end(), i));
                assert(head.subrange(i, i + 2)[0] == head[i]);
                assert(head[i] == first[i]);
            }
        }
    }
    assert(buf.take(n + 2) =~= first + seq![13u8, 10]);
    assert(buf.skip(n + 2) =~= rest);
    assert(injected(buf, route)->0 =~= first + seq![13u8, 10] + encode_utf8("X-Route-To: "@)
        + encode_utf8(route) + seq![13u8, 10] + rest);
}

/// A route is put into every request of HTTP/1.x whose head is complete and carries none, and into
/// nothing else.
pub proof fn requests_without_a_route_get_it(buf: Seq<u8>, route: Seq<char>)
    ensures
        injected(buf, route) is Some <==> (find(buf, head_end()) matches Some(end) && request_line(
            buf.take(end).take(first_line_len(buf.take(end))),
        ) && !carries_route(buf.take(end))),
        injected(buf, route) is Some ==> injected(buf, route)->0.len() == buf.len() + 14
            + encode_utf8(route).len(),
{
    reveal_strlit("X-Route-To: ");
    assert(is_ascii_chars("X-Route-To: "@));
    is_ascii_chars_encode_utf8("X-Route-To: "@);
    if injected(buf, route) is Some {
        injection_keeps_the_request(buf, route);
    }
}

/// A setting is a route unless it is blank, and it is kept as it is.
pub proof fn blank_settings_are_no_route(blank: Seq<char>, value: Seq<char>)
    requires
        forall|i: int| 0 <= i < blank.len() ==> whitespace(#[trigger] blank[i]),
        value.len() > 0,
        !whitespace(value[0]),
        !whitespace(value.last()),
    ensures
        route_setting(None) is None,
        route_setting(Some(blank)) is None,
        route_setting(Some(blank + value + blank)) == Some(blank + value + blank),
{
    trimming_takes_the_blanks(blank, value, blank);
    trimming_takes_the_blanks(blank, Seq::empty(), Seq::empty());
    assert(blank + Seq::<char>::empty() + Seq::<char>::empty() =~= blank);
}

/// A line names the route if what stands before its first colon is `x-route-to`, in any case and
/// with any blanks around it; what stands behind the colon does not matter.
pub proof fn route_is_named_before_the_colon(
    blank: Seq<char>,
    name: Seq<char>,
    behind: Seq<u8>,
    line: Seq<u8>,
)
    requires
        forall|i: int| 0 <= i < blank.len() ==> whitespace(#[trigger] blank[i]),
        name.len() > 0,
        !whitespace(name[0]),
        !whitespace(name.last()),
        !encode_utf8(blank + name + blank).contains(58u8),
        !line.contains(58u8),
    ensures
        names_route(encode_utf8(blank + name + blank) + seq![58u8] + behind) <==> lower_text(name)
            == "x-route-to"@,
        !names_route(line),
{
    let before = encode_utf8(blank + name + blank);
    let whole = before + seq![58u8] + behind;
    let n = before.len() as int;
    assert(first_index_is(whole, 58u8, n)) by {
        assert forall|j: int| 0 <= j < n implies whole[j] != 58 by {
            assert(before.contains(before[j]));
        }
    }
    lemma_first_index_is(whole, 58u8, n);
    assert(whole.take(n) =~= before);
    encode_utf8_valid_utf8(blank + name + blank);
    encode_utf8_decode_utf8(blank + name + blank);
    trimming_takes_the_blanks(blank, name, blank);
    if let Some(i) = first_index(line, 58u8) {
        assert(first_index_is(line, 58u8, i));
        assert(line.contains(line[i]));
    }
}

/// A descriptor stays tracked once its head has been handled, and what is sent on it does not touch
/// the others.
pub proof fn other_descriptors_keep_their_route(
    fds: Map<i32, bool>,
    fd: i32,
    other: i32,
    setting: Option<Seq<char>>,
)
    requires
        other != fd,
    ensures
        after_take(fds, fd, setting).contains_key(fd) <==> fds.contains_key(fd),
        fresh_fd(fds, fd) && route_setting(setting) is Some ==> after_take(fds, fd, setting)[fd],
        route_setting(setting) is None ==> after_take(fds, fd, setting) == fds,
        route_for(after_take(fds, fd, setting), other, setting) == route_for(fds, other, setting),
        route_for(fds.insert(fd, false), other, setting) == route_for(fds, other, setting),
        route_for(fds.remove(fd), other, setting) == route_for(fds, other, setting),
{
}

/// Only the lines behind the request line can carry a route: the request line itself does not, and
/// behind it each line counts.
pub proof fn request_line_carries_no_route(first: Seq<u8>, rest: Seq<u8>)
    requires
        !first.contains(13u8),
    ensures
        !carries_route(first),
        carries_route(first + seq![13u8, 10] + rest) <==> exists|i: int|
            0 <= i < octet_lines(rest).len() && names_route(#[trigger] octet_lines(rest)[i]),
{
    octet_lines_are_taken_in_order(first, rest);
    let all = octet_lines(first + seq![13u8, 10] + rest);
    let behind = octet_lines(rest);
    assert(all == seq![first] + behind);
    if exists|i: int| 1 <= i < all.len() && names_route(#[trigger] all[i]) {
        let i = choose|i: int| 1 <= i < all.len() && names_route(#[trigger] all[i]);
        assert(behind[i - 1] == all[i]);
    }
    if exists|i: int| 0 <= i < behind.len() && names_route(#[trigger] behind[i]) {
        let i = choose|i: int| 0 <= i < behind.len() && names_route(#[trigger] behind[i]);
        assert(all[i + 1] == behind[i]);
    }
}

} // verus!
