//! A route that the layer puts into a request is the one that a sidecar reads from it.
use vstd::prelude::*;
use vstd::string::*;
use vstd::utf8::*;

use crate::headers::{lemma_ascii_octets, no_headers, valid_value, value_byte};
use crate::layer::inject::{
    carries_route, first_line_len, injected, injected_line_is_understood,
    injected_line_names_the_route, injection_keeps_the_request, names_route, request_line,
    route_line,
};
use crate::model::session::{lemma_uuid_is_visible, uuid_text};
use crate::sidecar::h2::h2_preface;
use crate::sidecar::inspector::{lemma_requested, requested_session};
use crate::sidecar::raw::{
    block_len, first_header_decides, head_end, head_view, header_field, lines_behind, lists_of,
    sniff_kind,
};
use crate::text::{
    begins_with, crlf, find, first_index, first_index_is, first_occurs_at, lemma_encode_concat,
    lemma_find_is, lemma_first_index_is, lemma_first_line, lemma_first_octets, line_end, lower_text,
    occurs_at, octet_lines, split_lines, trim, utf8_chars,
};

verus! {

/// A route that can stand in a header line: a header value without blanks around it.
pub open spec fn plain_route(route: Seq<char>) -> bool {
    valid_value(encode_utf8(route)) && trim(route) == route
}

proof fn lemma_occurs_bytes(hay: Seq<u8>, j: int)
    requires
        0 <= j,
    ensures
        occurs_at(hay, head_end(), j) <==> j + 4 <= hay.len() && hay[j] == 13 && hay[j + 1] == 10
            && hay[j + 2] == 13 && hay[j + 3] == 10,
        occurs_at(hay, line_end(), j) <==> j + 2 <= hay.len() && hay[j] == 13 && hay[j + 1] == 10,
{
    if j + 4 <= hay.len() {
        let part = hay.subrange(j, j + 4);
        assert(part[0] == hay[j] && part[1] == hay[j + 1] && part[2] == hay[j + 2] && part[3]
            == hay[j + 3]);
        if hay[j] == 13 && hay[j + 1] == 10 && hay[j + 2] == 13 && hay[j + 3] == 10 {
            assert(part =~= head_end());
        }
    }
    if j + 2 <= hay.len() {
        let part = hay.subrange(j, j + 2);
        assert(part[0] == hay[j] && part[1] == hay[j + 1]);
        if hay[j] == 13 && hay[j + 1] == 10 {
            assert(part =~= line_end());
        }
    }
}

proof fn lemma_route_line_bytes(route: Seq<char>)
    requires
        valid_value(encode_utf8(route)),
    ensures
        ({
            let line = route_line(route);
            let n = line.len() as int;
            &&& n >= 14
            &&& line[0] == 88
            &&& line[n - 2] == 13 && line[n - 1] == 10
            &&& forall|j: int| 0 <= j < n - 2 ==> #[trigger] line[j] != 13 && line[j] != 10
            &&& line == encode_utf8("X-Route-To: "@ + route + crlf())
        }),
{
    reveal_strlit("X-Route-To: ");
    let name = "X-Route-To: "@;
    assert(is_ascii_chars(name));
    is_ascii_chars_encode_utf8(name);
    let line = route_line(route);
    let n = line.len() as int;
    let bytes = encode_utf8(name);
    assert(name[0] as u8 == bytes[0]);
    assert forall|j: int| 0 <= j < n - 2 implies #[trigger] line[j] != 13 && line[j] != 10 by {
        if j < 12 {
            assert(line[j] == bytes[j]);
            assert(name[j] as u8 == bytes[j]);
        } else {
            assert(line[j] == encode_utf8(route)[j - 12]);
        }
    }
    lemma_encode_concat(name, route);
    lemma_encode_concat(name + route, crlf());
    is_ascii_chars_encode_utf8(crlf());
    assert(encode_utf8(crlf()) =~= line_end()) by {
        assert(crlf()[0] as u8 == encode_utf8(crlf())[0]);
        assert(crlf()[1] as u8 == encode_utf8(crlf())[1]);
    }
}

/// `out` is `buf` with `line` put in at position `k`.
spec fn put_in(buf: Seq<u8>, k: int, line: Seq<u8>, out: Seq<u8>) -> bool {
    &&& 0 <= k <= buf.len()
    &&& out.len() == buf.len() + line.len()
    &&& forall|j: int| 0 <= j < k ==> #[trigger] out[j] == buf[j]
    &&& forall|j: int| k <= j < k + line.len() ==> #[trigger] out[j] == line[j - k]
    &&& forall|j: int| k + line.len() <= j < out.len() ==> #[trigger] out[j] == buf[j - line.len()]
}

/// `line` starts with twelve octets that end no line, and ends with a line end.
spec fn ended_line(line: Seq<u8>) -> bool {
    &&& line.len() >= 14
    &&& line[line.len() - 2] == 13 && line.last() == 10
    &&& forall|j: int| 0 <= j < 12 ==> #[trigger] line[j] != 13 && line[j] != 10
}

/// `line` is one line with its end.
spec fn one_line(line: Seq<u8>) -> bool {
    &&& ended_line(line)
    &&& forall|j: int| 0 <= j < line.len() - 2 ==> #[trigger] line[j] != 13
}

/// Where the head of a request ends with another line in it.
proof fn lemma_end_moves(buf: Seq<u8>, end: int, k: int, line: Seq<u8>, out: Seq<u8>)
    requires
        first_occurs_at(buf, head_end(), end),
        2 <= k <= end || k == end + 2,
        buf[k - 2] == 13 && buf[k - 1] == 10,
        put_in(buf, k, line, out),
        ended_line(line),
    ensures
        occurs_at(out, head_end(), end + line.len()),
{
    let n = line.len() as int;
    lemma_occurs_bytes(buf, end);
    lemma_occurs_bytes(out, end + n);
    if k == end + 2 {
        assert(out[end + n] == line[n - 2]);
        assert(out[end + n + 1] == line[n - 1]);
    }
    assert(out[end + n + 2] == buf[end + 2]);
    assert(out[end + n + 3] == buf[end + 3]);
}

/// The head does not end earlier.
proof fn lemma_no_earlier_end(
    buf: Seq<u8>,
    end: int,
    k: int,
    line: Seq<u8>,
    out: Seq<u8>,
    j: int,
)
    requires
        first_occurs_at(buf, head_end(), end),
        2 <= k <= end || k == end + 2,
        buf[k - 2] == 13 && buf[k - 1] == 10,
        put_in(buf, k, line, out),
        one_line(line),
        0 <= j < end + line.len(),
    ensures
        !occurs_at(out, head_end(), j),
{
    let n = line.len() as int;
    lemma_occurs_bytes(out, j);
    if occurs_at(out, head_end(), j) {
        if j + 3 < k {
            lemma_occurs_bytes(buf, j);
            assert(!occurs_at(buf, head_end(), j));
        } else if j < k {
            assert(out[k] == line[0]);
        } else if j < k + n - 2 {
            assert(out[j] == line[j - k]);
        } else if j == k + n - 2 {
            assert(out[k + n] == buf[k]);
            assert(out[k + n + 1] == buf[k + 1]);
            lemma_occurs_bytes(buf, k - 2);
            assert(!occurs_at(buf, head_end(), k - 2));
        } else if j == k + n - 1 {
            assert(out[j] == line[n - 1]);
        } else {
            lemma_occurs_bytes(buf, j - n);
            assert(!occurs_at(buf, head_end(), j - n));
        }
    }
}

/// The head does not end before the route.
proof fn lemma_no_end_in_start(
    buf: Seq<u8>,
    end: int,
    k: int,
    line: Seq<u8>,
    out: Seq<u8>,
    j: int,
)
    requires
        first_occurs_at(buf, head_end(), end),
        2 <= k <= end || k == end + 2,
        buf[k - 2] == 13 && buf[k - 1] == 10,
        put_in(buf, k, line, out),
        ended_line(line),
        0 <= j < k + 12,
    ensures
        !occurs_at(out, head_end(), j),
{
    lemma_occurs_bytes(out, j);
    if occurs_at(out, head_end(), j) {
        if j + 3 < k {
            lemma_occurs_bytes(buf, j);
            assert(!occurs_at(buf, head_end(), j));
        } else if j < k {
            assert(out[k] == line[0]);
        } else {
            assert(out[j] == line[j - k]);
        }
    }
}

/// The second line of a head that `line` was put into begins like `line`.
proof fn lemma_second_octet_line(
    buf: Seq<u8>,
    end: int,
    len: int,
    line: Seq<u8>,
    out: Seq<u8>,
    to: int,
)
    requires
        first_occurs_at(buf, head_end(), end),
        len == first_line_len(buf.take(end)),
        put_in(buf, len + 2, line, out),
        ended_line(line),
        len + 14 <= to <= out.len(),
    ensures
        octet_lines(out.take(to)).len() >= 2,
        begins_with(octet_lines(out.take(to))[1], line.take(12)),
{
    reveal_with_fuel(octet_lines, 1);
    lemma_first_line_of_head(buf, end);
    let whole = buf.take(end + 4);
    let head = out.take(to);
    let k = len + 2;
    lemma_occurs_bytes(whole, len);
    lemma_occurs_bytes(head, len);
    assert(head[len] == out[len] && head[len + 1] == out[len + 1]);
    assert forall|j: int| 0 <= j < len implies !occurs_at(head, line_end(), j) by {
        lemma_occurs_bytes(head, j);
        lemma_occurs_bytes(whole, j);
        assert(!occurs_at(whole, line_end(), j));
        assert(head[j] == out[j] && head[j + 1] == out[j + 1]);
        assert(out[j] == buf[j] && out[j + 1] == buf[j + 1]);
    }
    lemma_find_is(head, line_end(), len);
    let rest = head.skip(k);
    assert forall|j: int| 0 <= j < 12 implies rest[j] == line[j] by {
        assert(rest[j] == out[k + j]);
        assert(out[k + j] == line[k + j - k]);
    }
    let second = octet_lines(rest)[0];
    match find(rest, line_end()) {
        Some(p) => {
            assert(first_occurs_at(rest, line_end(), p));
            lemma_occurs_bytes(rest, p);
            assert(p >= 12) by {
                if p < 12 {
                    assert(rest[p] == line[p]);
                }
            }
            assert(second == rest.take(p));
            assert(second.take(12) =~= line.take(12));
        },
        None => {
            assert(second == rest);
            assert(second.take(12) =~= line.take(12));
        },
    }
    assert(octet_lines(head) == seq![head.take(len)] + octet_lines(rest));
}

/// The octets that the line for a route starts with, and its end.
proof fn lemma_route_line_start(route: Seq<char>)
    ensures
        ended_line(route_line(route)),
        route_line(route).take(12) == encode_utf8("X-Route-To: "@),
{
    reveal_strlit("X-Route-To: ");
    let name = "X-Route-To: "@;
    assert(is_ascii_chars(name));
    is_ascii_chars_encode_utf8(name);
    let line = route_line(route);
    let bytes = encode_utf8(name);
    assert forall|j: int| 0 <= j < 12 implies #[trigger] line[j] != 13 && line[j] != 10 by {
        assert(line[j] == bytes[j]);
        assert(name[j] as u8 == bytes[j]);
    }
    assert(line.take(12) =~= bytes);
}

/// The head of a request ends behind the injected line where it ended before.
proof fn lemma_head_end_moves(buf: Seq<u8>, route: Seq<char>)
    requires
        injected(buf, route) is Some,
        valid_value(encode_utf8(route)),
    ensures
        find(injected(buf, route)->0, head_end()) == Some(
            find(buf, head_end())->0 + route_line(route).len(),
        ),
{
    injection_keeps_the_request(buf, route);
    lemma_route_line_bytes(route);
    let end = find(buf, head_end())->0;
    assert(first_occurs_at(buf, head_end(), end));
    lemma_first_line_of_head(buf, end);
    let len = first_line_len(buf.take(end));
    let k = len + 2;
    let line = route_line(route);
    let n = line.len() as int;
    let out = injected(buf, route)->0;
    assert(len == end || len + 2 <= end);
    assert(put_in(buf, k, line, out));
    assert(buf.subrange(k - 2, k)[0] == buf[k - 2]);
    assert(buf.subrange(k - 2, k)[1] == buf[k - 1]);
    lemma_end_moves(buf, end, k, line, out);
    assert forall|j: int| 0 <= j < end + n implies !occurs_at(out, head_end(), j) by {
        lemma_no_earlier_end(buf, end, k, line, out, j);
    }
    lemma_find_is(out, head_end(), end + n);
}

/// The first line of a whole head is the first line of the head without the empty line.
proof fn lemma_first_line_of_head(buf: Seq<u8>, end: int)
    requires
        first_occurs_at(buf, head_end(), end),
    ensures
        first_occurs_at(buf.take(end + 4), line_end(), first_line_len(buf.take(end))),
        0 <= first_line_len(buf.take(end)) <= end,
        first_line_len(buf.take(end)) == end || first_line_len(buf.take(end)) + 2 <= end,
{
    let head = buf.take(end);
    let whole = buf.take(end + 4);
    let len = first_line_len(head);
    lemma_occurs_bytes(buf, end);
    lemma_occurs_bytes(whole, end);
    if find(head, line_end()) is Some {
        assert(first_occurs_at(head, line_end(), len));
        lemma_occurs_bytes(head, len);
    }
    lemma_occurs_bytes(whole, len);
    assert forall|j: int| 0 <= j < len implies !occurs_at(whole, line_end(), j) by {
        lemma_occurs_bytes(whole, j);
        lemma_occurs_bytes(head, j);
        if occurs_at(whole, line_end(), j) {
            assert(j + 2 <= end);
            assert(occurs_at(head, line_end(), j));
            lemma_has_first(head, line_end(), j);
            assert(find(head, line_end()) is Some);
            assert(!occurs_at(head, line_end(), j));
        }
    }
}

/// What stands somewhere stands somewhere first.
proof fn lemma_has_first<T>(hay: Seq<T>, needle: Seq<T>, j: int)
    requires
        occurs_at(hay, needle, j),
    ensures
        find(hay, needle) is Some,
    decreases j,
{
    if exists|i: int| 0 <= i < j && occurs_at(hay, needle, i) {
        let i = choose|i: int| 0 <= i < j && occurs_at(hay, needle, i);
        lemma_has_first(hay, needle, i);
    } else {
        assert(first_occurs_at(hay, needle, j));
        lemma_find_is(hay, needle, j);
    }
}

/// A text of valid header octets has no line end in it.
proof fn lemma_no_return(s: Seq<char>)
    requires
        valid_value(encode_utf8(s)),
    ensures
        forall|j: int| 0 <= j < s.len() ==> #[trigger] s[j] != '\r',
    decreases s.len(),
{
    if s.len() > 0 {
        let rest = s.drop_first();
        lemma_first_octets(s);
        let bytes = encode_utf8(s);
        let n = encode_scalar(s[0] as u32).len() as int;
        assert forall|j: int| 0 <= j < encode_utf8(rest).len() implies value_byte(
            #[trigger] encode_utf8(rest)[j],
        ) by {
            assert(encode_utf8(rest)[j] == bytes[j + n]);
        }
        lemma_no_return(rest);
        assert(value_byte(bytes[0]));
        assert forall|j: int| 0 <= j < s.len() implies #[trigger] s[j] != '\r' by {
            if j > 0 {
                assert(rest[j - 1] == s[j]);
            }
        }
    }
}

/// A line in front of a text is its first line.
#[verifier::spinoff_prover]
proof fn lemma_line_in_front(line: Seq<char>, rest: Seq<char>)
    requires
        forall|j: int| 0 <= j < line.len() ==> #[trigger] line[j] != '\r',
    ensures
        split_lines(line + crlf() + rest) == seq![line] + split_lines(rest),
{
    let all = line + crlf() + rest;
    let n = line.len() as int;
    assert(all.subrange(n, n + 2) =~= crlf());
    assert forall|j: int| 0 <= j < n implies !occurs_at(all, crlf(), j) by {
        if occurs_at(all, crlf(), j) {
            assert(all.subrange(j, j + 2)[0] == all[j]);
            assert(all[j] == line[j]);
        }
    }
    lemma_find_is(all, crlf(), n);
    assert(all.take(n) =~= line);
    assert(all.skip(n + 2) =~= rest);
}

/// The lines of a text with another line put behind its first line.
#[verifier::spinoff_prover]
proof fn lemma_line_behind_first(text: Seq<char>, i: int, line: Seq<char>)
    requires
        first_occurs_at(text, crlf(), i),
        forall|j: int| 0 <= j < line.len() ==> #[trigger] line[j] != '\r',
    ensures
        ({
            let with = text.take(i + 2) + (line + crlf()) + text.skip(i + 2);
            &&& split_lines(with)[0] == split_lines(text)[0]
            &&& lines_behind(with) == seq![line] + lines_behind(text)
        }),
{
    let rest = text.skip(i + 2);
    let with = text.take(i + 2) + (line + crlf()) + rest;
    lemma_find_is(text, crlf(), i);
    assert(with.subrange(i, i + 2) =~= text.subrange(i, i + 2));
    assert forall|j: int| 0 <= j < i implies !occurs_at(with, crlf(), j) by {
        assert(with.subrange(j, j + 2) =~= text.subrange(j, j + 2));
        assert(!occurs_at(text, crlf(), j));
    }
    lemma_find_is(with, crlf(), i);
    assert(with.take(i) =~= text.take(i));
    assert(with.skip(i + 2) =~= line + crlf() + rest);
    lemma_line_in_front(line, rest);
    assert(split_lines(text) == seq![text.take(i)] + split_lines(rest));
    assert(split_lines(with) == seq![text.take(i)] + split_lines(line + crlf() + rest));
    assert(lines_behind(text) =~= split_lines(rest));
    assert(lines_behind(with) =~= seq![line] + split_lines(rest));
}

/// The text of a head with the route in it.
proof fn lemma_text_with_route(buf: Seq<u8>, route: Seq<char>, end: int) -> (r: (Seq<char>, int))
    requires
        first_occurs_at(buf, head_end(), end),
        injected(buf, route) is Some,
        valid_value(encode_utf8(route)),
        utf8_chars(buf.take(end + 4)) is Some,
    ensures
        ({
            let text = utf8_chars(buf.take(end + 4))->0;
            let (with, i) = r;
            &&& first_occurs_at(text, crlf(), i)
            &&& with == text.take(i + 2) + ("X-Route-To: "@ + route + crlf()) + text.skip(i + 2)
            &&& utf8_chars(injected(buf, route)->0.take(end + 4 + route_line(route).len())) == Some(
                with,
            )
        }),
{
    lemma_find_is(buf, head_end(), end);
    lemma_first_line_of_head(buf, end);
    lemma_route_line_bytes(route);
    injection_keeps_the_request(buf, route);
    let bytes = buf.take(end + 4);
    let len = first_line_len(buf.take(end));
    let n = route_line(route).len() as int;
    let text = decode_utf8(bytes);
    decode_utf8_encode_utf8(bytes);
    let i = lemma_first_line(text, len);
    let line = "X-Route-To: "@ + route + crlf();
    let with = text.take(i + 2) + line + text.skip(i + 2);
    assert(text =~= text.take(i + 2) + text.skip(i + 2));
    lemma_encode_concat(text.take(i + 2), text.skip(i + 2));
    assert(text.take(i + 2) =~= text.take(i) + crlf()) by {
        assert(text.subrange(i, i + 2) == crlf());
    }
    lemma_encode_concat(text.take(i), crlf());
    is_ascii_chars_encode_utf8(crlf());
    assert(encode_utf8(text.take(i + 2)).len() == len + 2);
    assert(encode_utf8(text.take(i + 2)) =~= bytes.take(len + 2));
    assert(encode_utf8(text.skip(i + 2)) =~= bytes.skip(len + 2));
    lemma_encode_concat(text.take(i + 2), line);
    lemma_encode_concat(text.take(i + 2) + line, text.skip(i + 2));
    let out = injected(buf, route)->0;
    assert(out.take(end + 4 + n) =~= encode_utf8(with)) by {
        assert(bytes.take(len + 2) =~= buf.take(len + 2));
        assert(out.take(end + 4 + n) =~= buf.take(len + 2) + route_line(route) + bytes.skip(len + 2));
    }
    encode_utf8_valid_utf8(with);
    encode_utf8_decode_utf8(with);
    (with, i)
}

/// What begins with a request line of HTTP/1.x does not begin with the preface of HTTP/2.
proof fn lemma_no_preface(buf: Seq<u8>, end: int, out: Seq<u8>)
    requires
        first_occurs_at(buf, head_end(), end),
        request_line(buf.take(end).take(first_line_len(buf.take(end)))),
        out.len() >= buf.len(),
        out.take(first_line_len(buf.take(end)) + 2) == buf.take(first_line_len(buf.take(end)) + 2),
    ensures
        !begins_with(out, h2_preface()),
{
    let len = first_line_len(buf.take(end));
    lemma_first_line_of_head(buf, end);
    let whole = buf.take(end + 4);
    lemma_occurs_bytes(whole, len);
    let first = buf.take(end).take(len);
    reveal_strlit(" HTTP/1.1");
    reveal_strlit(" HTTP/1.0");
    is_ascii_chars_encode_utf8(" HTTP/1.1"@);
    is_ascii_chars_encode_utf8(" HTTP/1.0"@);
    let p = h2_preface();
    if begins_with(out, p) {
        assert forall|j: int| 0 <= j < 24 implies out[j] == p[j] by {
            assert(out.take(24)[j] == p[j]);
        }
        assert forall|j: int| 0 <= j < len + 2 implies out[j] == buf[j] by {
            assert(out.take(len + 2)[j] == buf.take(len + 2)[j]);
        }
        assert(len == 14) by {
            if len > 14 {
                lemma_occurs_bytes(whole, 14);
                assert(occurs_at(whole, line_end(), 14));
            }
        }
        let tail = first.skip(len - 9);
        assert(tail[6] == first[11]);
        assert(" HTTP/1.1"@[6] as u8 == encode_utf8(" HTTP/1.1"@)[6]);
        assert(" HTTP/1.0"@[6] as u8 == encode_utf8(" HTTP/1.0"@)[6]);
    }
}

/// The line that was put into a request is its second line.
proof fn lemma_second_line(text: Seq<char>, i: int, route: Seq<char>, with: Seq<char>)
    requires
        first_occurs_at(text, crlf(), i),
        plain_route(route),
        with == text.take(i + 2) + ("X-Route-To: "@ + route + crlf()) + text.skip(i + 2),
    ensures
        split_lines(with)[0] == split_lines(text)[0],
        lines_behind(with) == seq!["X-Route-To: "@ + route] + lines_behind(text),
        split_lines(with).len() == split_lines(text).len() + 1,
{
    let line = "X-Route-To: "@ + route;
    lemma_no_return(route);
    reveal_strlit("X-Route-To: ");
    assert forall|j: int| 0 <= j < line.len() implies #[trigger] line[j] != '\r' by {
        if j >= 12 {
            assert(line[j] == route[j - 12]);
        }
    }
    lemma_line_behind_first(text, i, line);
    lemma_find_is(text, crlf(), i);
    assert(split_lines(text).len() >= 1);
    assert(split_lines(with).len() >= 1);
    assert(lines_behind(with).len() == split_lines(with).len() - 1);
    assert(lines_behind(text).len() == split_lines(text).len() - 1);
}

/// What the route was put into neither is the preface of HTTP/2 nor may become it.
proof fn lemma_injected_is_http1(buf: Seq<u8>, route: Seq<char>)
    requires
        injected(buf, route) is Some,
    ensures
        !begins_with(injected(buf, route)->0, h2_preface()),
        injected(buf, route)->0.len() >= h2_preface().len(),
{
    injection_keeps_the_request(buf, route);
    lemma_route_line_start(route);
    let end = find(buf, head_end())->0;
    assert(first_occurs_at(buf, head_end(), end));
    lemma_first_line_of_head(buf, end);
    let out = injected(buf, route)->0;
    lemma_no_preface(buf, end, out);
    reveal_strlit(" HTTP/1.1");
    reveal_strlit(" HTTP/1.0");
    is_ascii_chars_encode_utf8(" HTTP/1.1"@);
    is_ascii_chars_encode_utf8(" HTTP/1.0"@);
}

/// A line end stands in the octets of a text where it stands in the text.
proof fn lemma_line_end_encodes(text: Seq<char>, i: int)
    requires
        occurs_at(text, crlf(), i),
    ensures
        occurs_at(encode_utf8(text), line_end(), encode_utf8(text.take(i)).len() as int),
        encode_utf8(text) == encode_utf8(text.take(i)) + line_end() + encode_utf8(
            text.skip(i + 2),
        ),
{
    let a = text.take(i);
    let b = text.skip(i + 2);
    assert(text =~= a + crlf() + b) by {
        assert(text.subrange(i, i + 2) == crlf());
    }
    lemma_encode_concat(a, crlf());
    lemma_encode_concat(a + crlf(), b);
    is_ascii_chars_encode_utf8(crlf());
    assert(encode_utf8(crlf()) =~= line_end()) by {
        assert(crlf()[0] as u8 == encode_utf8(crlf())[0]);
        assert(crlf()[1] as u8 == encode_utf8(crlf())[1]);
    }
    lemma_occurs_bytes(encode_utf8(text), encode_utf8(a).len() as int);
}

/// The lines of the octets of a text are the octets of its lines.
#[verifier::spinoff_prover]
proof fn lemma_lines_encode(text: Seq<char>)
    ensures
        octet_lines(encode_utf8(text)) == split_lines(text).map_values(
            |line: Seq<char>| encode_utf8(line),
        ),
    decreases text.len(),
{
    reveal_with_fuel(octet_lines, 1);
    let bytes = encode_utf8(text);
    match find(bytes, line_end()) {
        Some(p) => {
            assert(first_occurs_at(bytes, line_end(), p));
            let i = lemma_first_line(text, p);
            lemma_find_is(text, crlf(), i);
            lemma_line_end_encodes(text, i);
            assert(bytes.take(p) =~= encode_utf8(text.take(i)));
            assert(bytes.skip(p + 2) =~= encode_utf8(text.skip(i + 2)));
            lemma_lines_encode(text.skip(i + 2));
            assert(split_lines(text) == seq![text.take(i)] + split_lines(text.skip(i + 2)));
            assert(octet_lines(bytes) == seq![bytes.take(p)] + octet_lines(bytes.skip(p + 2)));
            assert(octet_lines(bytes) =~= split_lines(text).map_values(
                |line: Seq<char>| encode_utf8(line),
            ));
        },
        None => {
            if let Some(i) = find(text, crlf()) {
                assert(first_occurs_at(text, crlf(), i));
                lemma_line_end_encodes(text, i);
                lemma_has_first(bytes, line_end(), encode_utf8(text.take(i)).len() as int);
            }
            assert(octet_lines(bytes) =~= split_lines(text).map_values(
                |line: Seq<char>| encode_utf8(line),
            ));
        },
    }
}

/// The lines of two byte strings with a line end between them are the lines of the one and of the
/// other.
#[verifier::spinoff_prover]
proof fn lemma_octet_lines_concat(a: Seq<u8>, b: Seq<u8>)
    ensures
        octet_lines(a + line_end() + b) == octet_lines(a) + octet_lines(b),
    decreases a.len(),
{
    reveal_with_fuel(octet_lines, 1);
    let all = a + line_end() + b;
    match find(a, line_end()) {
        Some(i) => {
            assert(first_occurs_at(a, line_end(), i));
            lemma_occurs_bytes(a, i);
            lemma_occurs_bytes(all, i);
            assert forall|j: int| 0 <= j < i implies !occurs_at(all, line_end(), j) by {
                lemma_occurs_bytes(a, j);
                lemma_occurs_bytes(all, j);
                assert(!occurs_at(a, line_end(), j));
            }
            lemma_find_is(all, line_end(), i);
            assert(all.take(i) =~= a.take(i));
            assert(all.skip(i + 2) =~= a.skip(i + 2) + line_end() + b);
            lemma_octet_lines_concat(a.skip(i + 2), b);
            assert(seq![a.take(i)] + (octet_lines(a.skip(i + 2)) + octet_lines(b)) =~= (seq![
                a.take(i),
            ] + octet_lines(a.skip(i + 2))) + octet_lines(b));
        },
        None => {
            let n = a.len() as int;
            lemma_occurs_bytes(all, n);
            assert forall|j: int| 0 <= j < n implies !occurs_at(all, line_end(), j) by {
                lemma_occurs_bytes(all, j);
                lemma_occurs_bytes(a, j);
                if occurs_at(all, line_end(), j) && j + 2 <= n {
                    lemma_has_first(a, line_end(), j);
                }
            }
            lemma_find_is(all, line_end(), n);
            assert(all.take(n) =~= a);
            assert(all.skip(n + 2) =~= b);
            assert(octet_lines(a) == seq![a]);
        },
    }
}

/// A line end at the end of a byte string adds an empty line.
proof fn lemma_line_end_adds_a_line(a: Seq<u8>)
    ensures
        octet_lines(a + line_end()) == octet_lines(a).push(Seq::<u8>::empty()),
{
    let nothing = Seq::<u8>::empty();
    assert(octet_lines(nothing) == seq![nothing]) by {
        reveal_with_fuel(octet_lines, 1);
        if find(nothing, line_end()) is Some {
            assert(first_occurs_at(nothing, line_end(), find(nothing, line_end())->0));
        }
    }
    lemma_octet_lines_concat(a, nothing);
    assert(a + line_end() + nothing =~= a + line_end());
    assert(octet_lines(a) + seq![nothing] =~= octet_lines(a).push(nothing));
}

/// The lines of a whole head are those of the head without the empty line, and two empty ones.
proof fn lemma_whole_head_lines(head: Seq<u8>)
    ensures
        octet_lines(head + head_end()) == octet_lines(head).push(Seq::<u8>::empty()).push(
            Seq::<u8>::empty(),
        ),
{
    lemma_line_end_adds_a_line(head);
    lemma_line_end_adds_a_line(head + line_end());
    assert(head + line_end() + line_end() =~= head + head_end());
}

/// A text without a colon has none among its octets.
proof fn lemma_no_colon(s: Seq<char>)
    requires
        forall|j: int| 0 <= j < s.len() ==> #[trigger] s[j] != ':',
    ensures
        forall|j: int| 0 <= j < encode_utf8(s).len() ==> #[trigger] encode_utf8(s)[j] != 58,
    decreases s.len(),
{
    if s.len() > 0 {
        let rest = s.drop_first();
        let bytes = encode_utf8(s);
        let n = encode_scalar(s[0] as u32).len() as int;
        lemma_first_octets(s);
        assert forall|j: int| 0 <= j < rest.len() implies #[trigger] rest[j] != ':' by {
            assert(rest[j] == s[j + 1]);
        }
        lemma_no_colon(rest);
        assert forall|j: int| 0 <= j < bytes.len() implies #[trigger] bytes[j] != 58 by {
            if j < n {
                if bytes[j] == 58 {
                    assert(s[0] as u32 == 58);
                    char_u32_cast(s[0], 58);
                    assert(s[0] != ':');
                }
            } else {
                assert(bytes[j] == bytes.skip(n)[j - n]);
            }
        }
    }
}

/// A line that a sidecar reads the route from names the route.
proof fn lemma_route_field_names_route(line: Seq<char>)
    requires
        header_field(line) matches Some((name, value)) && name == "x-route-to"@,
    ensures
        names_route(encode_utf8(line)),
{
    let i = first_index(line, ':')->0;
    assert(first_index_is(line, ':', i));
    let before = line.take(i);
    let bytes = encode_utf8(line);
    let head = encode_utf8(before);
    let n = head.len() as int;
    assert(line =~= before + line.skip(i));
    lemma_encode_concat(before, line.skip(i));
    lemma_first_octets(line.skip(i));
    lemma_no_colon(before);
    assert(bytes[n] == 58);
    assert forall|j: int| 0 <= j < n implies bytes[j] != 58 by {
        assert(bytes[j] == head[j]);
    }
    lemma_first_index_is(bytes, 58u8, n);
    assert(bytes.take(n) =~= head);
    encode_utf8_valid_utf8(before);
    encode_utf8_decode_utf8(before);
    lemma_ascii_octets(trim(before));
}

/// A name that is listed stands on one of the lines.
proof fn lemma_listed_line(lines: Seq<Seq<char>>, n: nat, wanted: Seq<char>) -> (k: int)
    requires
        lists_of(lines, n).contains_key(wanted),
    ensures
        0 <= k < n,
        header_field(lines[k]) matches Some((name, value)) && name == wanted,
    decreases n,
{
    if header_field(lines[n - 1]) matches Some((name, value)) && name == wanted {
        n - 1
    } else {
        lemma_listed_line(lines, (n - 1) as nat, wanted)
    }
}

/// The lines before the first empty one are not empty.
proof fn lemma_block_lines(lines: Seq<Seq<char>>, k: int)
    requires
        0 <= k < block_len(lines),
    ensures
        k < lines.len(),
        lines[k].len() > 0,
    decreases lines.len(),
{
    if k > 0 {
        lemma_block_lines(lines.skip(1), k - 1);
    }
}

// ── Laws ──────────────────────────────────────────────────────────────────────

/// A line that names the route is seen wherever it stands behind the first line of a head, whatever
/// the other lines hold, text or not.
pub proof fn route_line_is_seen(before: Seq<u8>, line: Seq<u8>, behind: Seq<u8>)
    requires
        names_route(line),
        find(line, line_end()) is None,
    ensures
        carries_route(before + line_end() + line),
        carries_route(before + line_end() + (line + line_end() + behind)),
{
    let rest = line + line_end() + behind;
    lemma_octet_lines_concat(before, line);
    lemma_octet_lines_concat(before, rest);
    lemma_octet_lines_concat(line, behind);
    assert(octet_lines(line) == seq![line] && octet_lines(before).len() >= 1) by {
        reveal_with_fuel(octet_lines, 1);
    }
    let n = octet_lines(before).len() as int;
    assert(octet_lines(before + line_end() + line)[n] == line);
    assert(octet_lines(before + line_end() + rest)[n] == line);
}

/// A request that a sidecar reads a route header from is left as it is, whatever route is
/// configured.
pub proof fn routed_request_is_left_alone(buf: Seq<u8>, route: Seq<char>)
    requires
        find(buf, head_end()) is Some,
        head_view(buf.take(find(buf, head_end())->0 + 4)) matches Some(head)
            && head.headers.contains_key("x-route-to"@),
    ensures
        injected(buf, route) is None,
{
    let end = find(buf, head_end())->0;
    assert(first_occurs_at(buf, head_end(), end));
    let whole = buf.take(end + 4);
    let head = buf.take(end);
    let text = utf8_chars(whole)->0;
    decode_utf8_encode_utf8(whole);
    let behind = lines_behind(text);
    let k = lemma_listed_line(behind, block_len(behind), "x-route-to"@);
    lemma_block_lines(behind, k);
    lemma_lines_encode(text);
    let lines = split_lines(text);
    assert(behind[k] == lines[k + 1]);
    assert(whole =~= head + head_end()) by {
        assert(buf.subrange(end, end + 4) == head_end());
    }
    lemma_whole_head_lines(head);
    let octets = octet_lines(whole);
    let n = octet_lines(head).len() as int;
    assert(behind.len() == lines.len() - 1);
    assert(octets.len() == lines.len());
    assert(octets[k + 1] == encode_utf8(lines[k + 1]));
    lemma_first_octets(lines[k + 1]);
    assert(k + 1 < n) by {
        if k + 1 >= n {
            assert(octets[k + 1].len() == 0);
        }
    }
    assert(octet_lines(head)[k + 1] == octets[k + 1]);
    lemma_route_field_names_route(behind[k]);
    assert(carries_route(head));
}

/// A request that the route was put into carries it: its head ends behind the new line where it
/// ended before, says what it said, and the first value of its `x-route-to` header is the route.
pub proof fn injected_route_is_carried(buf: Seq<u8>, route: Seq<char>)
    requires
        injected(buf, route) is Some,
        plain_route(route),
        head_view(buf.take(find(buf, head_end())->0 + 4)) is Some,
    ensures
        ({
            let end = find(buf, head_end())->0;
            let n = route_line(route).len();
            let out = injected(buf, route)->0;
            let before = head_view(buf.take(end + 4))->0;
            &&& find(out, head_end()) == Some(end + n)
            &&& head_view(out.take(end + n + 4)) matches Some(after)
            &&& after.method == before.method
            &&& after.path == before.path
            &&& after.headers.contains_key("x-route-to"@)
            &&& after.headers["x-route-to"@].len() > 0
            &&& after.headers["x-route-to"@][0] == encode_utf8(route)
        }),
{
    let end = find(buf, head_end())->0;
    assert(first_occurs_at(buf, head_end(), end));
    lemma_head_end_moves(buf, route);
    let text = utf8_chars(buf.take(end + 4))->0;
    let (with, i) = lemma_text_with_route(buf, route, end);
    let line = "X-Route-To: "@ + route;
    lemma_second_line(text, i, route, with);
    let lines = lines_behind(with);
    reveal_strlit("X-Route-To: ");
    injected_line_is_understood(route);
    assert(lines[0] == line);
    assert(lines.skip(1) =~= lines_behind(text));
    assert(block_len(lines) == 1 + block_len(lines.skip(1)));
    assert(lists_of(lines, 0) == no_headers());
    assert(header_field(lines[0]) == Some(("x-route-to"@, encode_utf8(route))));
    assert(lists_of(lines, 1).contains_key("x-route-to"@));
    first_header_decides(lines, 1, block_len(lines), "x-route-to"@);
}

/// A request that the route of a session was put into is taken for HTTP/1.x by a sidecar, and asks
/// for that session.
pub proof fn chained_request_asks_for_its_session(buf: Seq<u8>, route: Seq<char>, eof: bool)
    requires
        injected(buf, route) is Some,
        uuid_text(route),
        head_view(buf.take(find(buf, head_end())->0 + 4)) is Some,
    ensures
        ({
            let out = injected(buf, route)->0;
            let head = head_view(out.take(find(out, head_end())->0 + 4));
            &&& sniff_kind(out, eof) is Http1
            &&& requested_session(head->0.headers) == Some(lower_text(route))
        }),
{
    lemma_uuid_is_visible(route);
    assert(plain_route(route));
    injected_route_is_carried(buf, route);
    let out = injected(buf, route)->0;
    let head = head_view(out.take(find(out, head_end())->0 + 4))->0;
    lemma_requested(head.headers, route);
    lemma_injected_is_http1(buf, route);
}

/// A request that the route was put into is left as it is from then on, whatever that route was and
/// whatever route is configured.
pub proof fn injection_is_not_repeated(buf: Seq<u8>, route: Seq<char>, other: Seq<char>)
    requires
        injected(buf, route) is Some,
    ensures
        injected(injected(buf, route)->0, other) is None,
{
    let out = injected(buf, route)->0;
    let end = find(buf, head_end())->0;
    assert(first_occurs_at(buf, head_end(), end));
    lemma_first_line_of_head(buf, end);
    injection_keeps_the_request(buf, route);
    let len = first_line_len(buf.take(end));
    let k = len + 2;
    let line = route_line(route);
    lemma_route_line_start(route);
    assert(put_in(buf, k, line, out));
    assert(buf.subrange(k - 2, k)[0] == buf[k - 2]);
    assert(buf.subrange(k - 2, k)[1] == buf[k - 1]);
    lemma_end_moves(buf, end, k, line, out);
    lemma_has_first(out, head_end(), end + line.len());
    let to = find(out, head_end())->0;
    assert(first_occurs_at(out, head_end(), to));
    assert(to >= k + 12) by {
        if to < k + 12 {
            lemma_no_end_in_start(buf, end, k, line, out, to);
        }
    }
    let head = out.take(to);
    lemma_second_octet_line(buf, end, len, line, out, to);
    injected_line_names_the_route(octet_lines(head)[1]);
    assert(carries_route(head));
}

} // verus!
