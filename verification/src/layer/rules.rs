//! What the layer leaves alone, and what it maps elsewhere.
//!
//! The rules come from environment variables, whose values are passed in.
use vstd::prelude::*;
use vstd::slice::slice_subrange;
use vstd::string::*;
use vstd::utf8::*;

use crate::text::{
    all_digits, begins_with, chars_begin_with, chars_finish_with, chars_of, concat,
    decimal_round_trip, decimal_text, digit, find_char, finishes_with, first_index, first_index_is,
    last_index, last_index_is, lemma_first_index_is, lemma_first_octets, lemma_last_index_is,
    number_reads_back, opt_str, opt_text, parse_decimal, parse_number, rfind_char, same_chars,
    split_chars, split_on, string_of, trim, trim_chars, trimming_takes_the_blanks, utf8_chars,
    utf8_text, views, whitespace,
};

verus! {

// ── Hosts and ports that are bypassed ─────────────────────────────────────────

/// A pattern covers a host: the same name, or with `*.` in front a name and everything below it.
pub open spec fn covers(pattern: Seq<char>, host: Seq<char>) -> bool {
    &&& pattern.len() > 0
    &&& if begins_with(pattern, "*."@) {
        host == pattern.skip(2) || finishes_with(host, "."@ + pattern.skip(2))
    } else {
        host == pattern
    }
}

/// One of some patterns covers the host.
pub open spec fn any_covers(patterns: Seq<Seq<char>>, host: Seq<char>) -> bool {
    exists|i: int| 0 <= i < patterns.len() && covers(trim(#[trigger] patterns[i]), host)
}

/// One of the comma-separated patterns covers the host.
pub open spec fn host_bypassed(patterns: Option<Seq<char>>, host: Seq<char>) -> bool {
    match patterns {
        Some(list) => any_covers(split_on(list, ','), host),
        None => false,
    }
}

fn pattern_covers(pattern: &[char], host: &[char]) -> (r: bool)
    ensures
        r == covers(pattern@, host@),
{
    if pattern.len() == 0 {
        return false;
    }
    proof {
        reveal_strlit("*.");
        reveal_strlit(".");
    }
    let star = chars_of("*.");
    if chars_begin_with(pattern, star.as_slice()) {
        let name = slice_subrange(pattern, 2, pattern.len());
        assert(name@ =~= pattern@.skip(2));
        if same_chars(host, name) {
            return true;
        }
        let below = concat(".", string_of(name).as_str());
        chars_finish_with(host, chars_of(below.as_str()).as_slice())
    } else {
        same_chars(host, pattern)
    }
}

/// Whether the comma-separated patterns cover a host.
pub fn bypassed_host(host: &str, patterns: Option<&str>) -> (r: bool)
    ensures
        r == host_bypassed(opt_str(patterns), host@),
{
    let list = match patterns {
        None => {
            return false;
        },
        Some(list) => list,
    };
    let wanted = chars_of(host);
    let parts = split_chars(chars_of(list).as_slice(), ',');
    let mut i: usize = 0;
    while i < parts.len()
        invariant
            i <= parts@.len(),
            patterns == Some(list),
            views(parts@) == split_on(list@, ','),
            wanted@ == host@,
            forall|k: int| 0 <= k < i ==> !covers(trim(#[trigger] split_on(list@, ',')[k]), host@),
        decreases parts@.len() - i,
    {
        assert(views(parts@)[i as int] == parts@[i as int]@);
        if pattern_covers(trim_chars(parts[i].as_slice()), wanted.as_slice()) {
            return true;
        }
        i = i + 1;
    }
    false
}

/// One of the comma-separated numbers is the port.
pub open spec fn port_bypassed(ports: Option<Seq<char>>, port: u16) -> bool {
    ports matches Some(list) && exists|i: int|
        0 <= i < split_on(list, ',').len() && parse_decimal(
            trim(#[trigger] split_on(list, ',')[i]),
            u16::MAX as nat,
        ) == Some(port as nat)
}

/// Whether the comma-separated numbers hold a port.
pub fn bypassed_port(port: u16, ports: Option<&str>) -> (r: bool)
    ensures
        r == port_bypassed(opt_str(ports), port),
{
    let list = match ports {
        None => {
            return false;
        },
        Some(list) => list,
    };
    let parts = split_chars(chars_of(list).as_slice(), ',');
    let mut i: usize = 0;
    while i < parts.len()
        invariant
            i <= parts@.len(),
            ports == Some(list),
            views(parts@) == split_on(list@, ','),
            forall|k: int|
                0 <= k < i ==> parse_decimal(
                    trim(#[trigger] split_on(list@, ',')[k]),
                    u16::MAX as nat,
                ) != Some(port as nat),
        decreases parts@.len() - i,
    {
        assert(views(parts@)[i as int] == parts@[i as int]@);
        if let Some(n) = parse_number(trim_chars(parts[i].as_slice()), u16::MAX as u64) {
            if n == port as u64 {
                return true;
            }
        }
        i = i + 1;
    }
    false
}

/// A host name that is left to the system: none at all, this machine, one that is bypassed, or the
/// literal of an address.
pub open spec fn left_alone(host: Seq<char>, patterns: Option<Seq<char>>, literal: bool) -> bool {
    ||| host.len() == 0
    ||| host == "localhost"@
    ||| begins_with(host, "127."@)
    ||| host == "::1"@
    ||| host_bypassed(patterns, host)
    ||| literal
}

/// Whether a host name is left to the system. `literal` says whether it spells an IP address.
pub fn should_passthrough_hostname(hostname: &str, patterns: Option<&str>, literal: bool) -> (r:
    bool)
    ensures
        r == left_alone(hostname@, opt_str(patterns), literal),
{
    let host = chars_of(hostname);
    host.len() == 0 || same_chars(host.as_slice(), chars_of("localhost").as_slice())
        || chars_begin_with(host.as_slice(), chars_of("127.").as_slice()) || same_chars(
        host.as_slice(),
        chars_of("::1").as_slice(),
    ) || bypassed_host(hostname, patterns) || literal
}

// ── Sockets that stand for a remote target ────────────────────────────────────

/// The host and port that a target names: `host:port`, or `[address]:port`. Around an unbracketed
/// host and its port white space does not count.
pub open spec fn target_of(value: Seq<char>) -> Option<(Seq<char>, u16)> {
    if value.len() > 0 && value[0] == '[' {
        let rest = value.skip(1);
        match first_index(rest, ']') {
            None => None,
            Some(end) => {
                let behind = rest.skip(end + 1);
                if behind.len() > 0 && behind[0] == ':' {
                    match parse_decimal(behind.skip(1), u16::MAX as nat) {
                        Some(port) => Some((rest.take(end), port as u16)),
                        None => None,
                    }
                } else {
                    None
                }
            },
        }
    } else {
        match last_index(value, ':') {
            None => None,
            Some(colon) => {
                let host = trim(value.take(colon));
                match parse_decimal(trim(value.skip(colon + 1)), u16::MAX as nat) {
                    Some(port) => if host.len() == 0 {
                        None
                    } else {
                        Some((host, port as u16))
                    },
                    None => None,
                }
            },
        }
    }
}

/// The view of an optional target.
pub open spec fn opt_target(t: Option<(String, u16)>) -> Option<(Seq<char>, u16)> {
    match t {
        Some((host, port)) => Some((host@, port)),
        None => None,
    }
}

fn target_in(value: &[char]) -> (r: Option<(String, u16)>)
    ensures
        opt_target(r) == target_of(value@),
{
    let len: usize = value.len();
    if len > 0 && value[0] == '[' {
        let rest = slice_subrange(value, 1, len);
        assert(rest@ =~= value@.skip(1));
        let end = match find_char(rest, ']') {
            None => {
                return None;
            },
            Some(end) => end,
        };
        let rest_len: usize = rest.len();
        let behind = slice_subrange(rest, end + 1, rest_len);
        assert(behind@ =~= rest@.skip(end + 1));
        if behind.len() == 0 || behind[0] != ':' {
            return None;
        }
        let digits = slice_subrange(behind, 1, behind.len());
        assert(digits@ =~= behind@.skip(1));
        match parse_number(digits, u16::MAX as u64) {
            None => None,
            Some(port) => {
                let host = slice_subrange(rest, 0, end);
                assert(host@ =~= rest@.take(end as int));
                Some((string_of(host), port as u16))
            },
        }
    } else {
        let colon = match rfind_char(value, ':') {
            None => {
                return None;
            },
            Some(colon) => colon,
        };
        let before = slice_subrange(value, 0, colon);
        let after = slice_subrange(value, colon + 1, len);
        assert(before@ =~= value@.take(colon as int));
        assert(after@ =~= value@.skip(colon + 1));
        let host = trim_chars(before);
        match parse_number(trim_chars(after), u16::MAX as u64) {
            None => None,
            Some(port) => if host.len() == 0 {
                None
            } else {
                Some((string_of(host), port as u16))
            },
        }
    }
}

/// Read the host and port that a target names.
pub fn parse_target_host_port(value: &str) -> (r: Option<(String, u16)>)
    ensures
        opt_target(r) == target_of(value@),
{
    target_in(chars_of(value).as_slice())
}

/// The target that one mapping `prefix=target` gives a path: the path is the prefix, or lies below
/// it.
pub open spec fn mapped(entry: Seq<char>, path: Seq<char>) -> Option<(Seq<char>, u16)> {
    match first_index(entry, '=') {
        None => None,
        Some(equals) => {
            let prefix = trim(entry.take(equals));
            if prefix.len() > 0 && begins_with(path, prefix) && (path.len() == prefix.len()
                || path[prefix.len() as int] == '/') {
                target_of(trim(entry.skip(equals + 1)))
            } else {
                None
            }
        },
    }
}

/// The target that the first fitting one of some mappings gives a path.
pub open spec fn first_mapped(entries: Seq<Seq<char>>, path: Seq<char>) -> Option<(Seq<char>, u16)>
    decreases entries.len(),
{
    if entries.len() == 0 {
        None
    } else {
        match mapped(trim(entries[0]), path) {
            Some(target) => Some(target),
            None => first_mapped(entries.skip(1), path),
        }
    }
}

fn mapping_target(entry: &[char], path: &[char]) -> (r: Option<(String, u16)>)
    ensures
        opt_target(r) == mapped(entry@, path@),
{
    let len: usize = entry.len();
    let equals = match find_char(entry, '=') {
        None => {
            return None;
        },
        Some(equals) => equals,
    };
    let left = slice_subrange(entry, 0, equals);
    let right = slice_subrange(entry, equals + 1, len);
    assert(left@ =~= entry@.take(equals as int));
    assert(right@ =~= entry@.skip(equals + 1));
    let prefix = trim_chars(left);
    if prefix.len() > 0 && chars_begin_with(path, prefix) && (path.len() == prefix.len()
        || path[prefix.len()] == '/') {
        target_in(trim_chars(right))
    } else {
        None
    }
}

/// The target that the semicolon-separated mappings give the path of a socket.
pub fn unix_socket_target(path: &str, maps: Option<&str>) -> (r: Option<(String, u16)>)
    ensures
        opt_target(r) == match opt_str(maps) {
            Some(list) => first_mapped(split_on(list, ';'), path@),
            None => None,
        },
{
    let list = match maps {
        None => {
            return None;
        },
        Some(list) => list,
    };
    let wanted = chars_of(path);
    let parts = split_chars(chars_of(list).as_slice(), ';');
    let ghost all = split_on(list@, ';');
    let mut i: usize = 0;
    assert(all.skip(0) =~= all);
    while i < parts.len()
        invariant
            i <= parts@.len(),
            maps == Some(list),
            all == split_on(list@, ';'),
            views(parts@) == all,
            wanted@ == path@,
            first_mapped(all, path@) == first_mapped(all.skip(i as int), path@),
        decreases parts@.len() - i,
    {
        assert(views(parts@)[i as int] == parts@[i as int]@);
        assert(all.skip(i as int)[0] == parts@[i as int]@);
        match mapping_target(trim_chars(parts[i].as_slice()), wanted.as_slice()) {
            Some(target) => {
                return Some(target);
            },
            None => {},
        }
        assert(all.skip(i as int).skip(1) =~= all.skip(i + 1));
        i = i + 1;
    }
    None
}

/// The path in a Unix socket address: none if the address is no longer than its family, if it
/// starts with a zero byte, or if the bytes up to the first zero byte are no text.
pub open spec fn socket_path(address_len: nat, family_len: nat, bytes: Seq<u8>) -> Option<
    Seq<char>,
> {
    if address_len <= family_len || (bytes.len() > 0 && bytes[0] == 0) {
        None
    } else {
        match first_index(bytes, 0) {
            Some(end) => utf8_chars(bytes.take(end)),
            None => utf8_chars(bytes),
        }
    }
}

fn zero_position(bytes: &[u8]) -> (r: Option<usize>)
    ensures
        match r {
            Some(i) => first_index(bytes@, 0) == Some(i as int) && i < bytes@.len(),
            None => first_index(bytes@, 0) is None,
        },
{
    let mut i: usize = 0;
    while i < bytes.len()
        invariant
            i <= bytes@.len(),
            forall|k: int| 0 <= k < i ==> bytes@[k] != 0,
        decreases bytes@.len() - i,
    {
        if bytes[i] == 0 {
            proof {
                lemma_first_index_is(bytes@, 0, i as int);
            }
            return Some(i);
        }
        i = i + 1;
    }
    None
}

/// Read the path in a Unix socket address.
pub fn unix_socket_path(address_len: usize, family_len: usize, bytes: &[u8]) -> (r: Option<String>)
    ensures
        opt_text(r) == socket_path(address_len as nat, family_len as nat, bytes@),
{
    if address_len <= family_len || (bytes.len() > 0 && bytes[0] == 0) {
        return None;
    }
    let end: usize = match zero_position(bytes) {
        Some(end) => end,
        None => bytes.len(),
    };
    let path = slice_subrange(bytes, 0, end);
    proof {
        assert(path@ =~= bytes@.take(end as int));
        assert(bytes@.take(bytes@.len() as int) =~= bytes@);
    }
    match utf8_text(path) {
        Ok(text) => {
            proof {
                encode_utf8_decode_utf8(text@);
            }
            Some(text.to_string())
        },
        Err(_) => None,
    }
}

// ── Laws ──────────────────────────────────────────────────────────────────────

/// A pattern bypasses the host of its name; with a star it also bypasses every host below that
/// name, and with or without one no other host.
pub proof fn patterns_cover_their_hosts(name: Seq<char>, host: Seq<char>, label: Seq<char>)
    requires
        name.len() > 0,
        !begins_with(name, "*."@),
    ensures
        covers(name, host) <==> host == name,
        covers("*."@ + name, name),
        covers("*."@ + name, label + "."@ + name),
        covers("*."@ + name, host) ==> host == name || exists|front: Seq<char>|
            host == front + "."@ + name,
{
    reveal_strlit("*.");
    reveal_strlit(".");
    let star = "*."@ + name;
    assert(star.take(2) =~= "*."@);
    assert(star.skip(2) =~= name);
    let tail = "."@ + name;
    let below = label + "."@ + name;
    assert(below.skip(below.len() - tail.len()) =~= tail);
    if covers(star, host) && host != name {
        let front = host.take(host.len() - tail.len());
        let rest = host.skip(host.len() - tail.len());
        assert(rest == tail);
        assert forall|k: int| 0 <= k < tail.len() implies host[front.len() + k] == tail[k] by {
            assert(rest[k] == host[front.len() + k]);
        }
        let whole = front + "."@ + name;
        assert(whole =~= front + tail);
        assert(host =~= front + rest);
    }
}

/// A host is bypassed exactly if one of the patterns in the list covers it, wherever in the list
/// that stands and whatever blanks stand around it.
pub proof fn every_pattern_counts(list: Seq<char>, host: Seq<char>)
    ensures
        host_bypassed(Some(list), host) <==> exists|i: int|
            0 <= i < split_on(list, ',').len() && covers(trim(#[trigger] split_on(list, ',')[i]), host),
        !host_bypassed(None, host),
        !covers(Seq::empty(), host),
{
}

/// A port is bypassed exactly if one of the numbers in the list is that port.
pub proof fn every_port_counts(list: Seq<char>, port: u16, i: int)
    requires
        0 <= i < split_on(list, ',').len(),
    ensures
        trim(split_on(list, ',')[i]) == decimal_text(port as nat) ==> port_bypassed(
            Some(list),
            port,
        ),
        port_bypassed(Some(list), port) ==> exists|k: int|
            0 <= k < split_on(list, ',').len() && parse_decimal(
                trim(#[trigger] split_on(list, ',')[k]),
                65535,
            ) == Some(port as nat),
        !port_bypassed(None, port),
{
    number_reads_back(port as nat, 65535);
}

/// A target is read back: a host and its port, or an address in brackets and its port, whatever
/// colons stand in it.
pub proof fn target_reads_back(host: Seq<char>, port: u16)
    ensures
        host.len() > 0 && host[0] != '[' && trim(host) == host ==> target_of(
            host + seq![':'] + decimal_text(port as nat),
        ) == Some((host, port)),
        !host.contains(']') ==> target_of(
            seq!['['] + host + seq![']', ':'] + decimal_text(port as nat),
        ) == Some((host, port)),
        target_of(seq![':'] + decimal_text(port as nat)) is None,
        !host.contains(':') && (host.len() == 0 || host[0] != '[') ==> target_of(host) is None,
{
    let digits = decimal_text(port as nat);
    number_reads_back(port as nat, 65535);
    decimal_round_trip(port as nat);
    assert(digit(digits[0]));
    assert(digit(digits.last()));
    assert(trim(digits) == digits);
    lemma_last_colon(host, digits);
    let value = host + seq![':'] + digits;
    let n = host.len() as int;
    assert(value.take(n) =~= host);
    assert(value.skip(n + 1) =~= digits);
    if !host.contains(']') {
        let bracketed = seq!['['] + host + seq![']', ':'] + digits;
        let rest = bracketed.skip(1);
        assert(rest =~= host + seq![']', ':'] + digits);
        assert(first_index_is(rest, ']', n)) by {
            assert forall|j: int| 0 <= j < n implies rest[j] != ']' by {
                assert(rest[j] == host[j]);
                assert(host.contains(host[j]));
            }
        }
        lemma_first_index_is(rest, ']', n);
        assert(rest.take(n) =~= host);
        let behind = rest.skip(n + 1);
        assert(behind =~= seq![':'] + digits);
        assert(behind.skip(1) =~= digits);
    }
    lemma_last_colon(Seq::empty(), digits);
    let bare = seq![':'] + digits;
    assert(bare =~= Seq::<char>::empty() + seq![':'] + digits);
    assert(bare.take(0) =~= Seq::empty());
    assert(trim(Seq::<char>::empty()).len() == 0);
    if !host.contains(':') {
        if let Some(i) = last_index(host, ':') {
            assert(last_index_is(host, ':', i));
            assert(host.contains(host[i]));
        }
    }
}

proof fn lemma_last_colon(host: Seq<char>, digits: Seq<char>)
    requires
        all_digits(digits),
    ensures
        last_index(host + seq![':'] + digits, ':') == Some(host.len() as int),
{
    let value = host + seq![':'] + digits;
    let n = host.len() as int;
    assert(last_index_is(value, ':', n)) by {
        assert forall|j: int| n < j < value.len() implies value[j] != ':' by {
            assert(digit(digits[j - n - 1]));
        }
    }
    lemma_last_index_is(value, ':', n);
}

/// A mapping leads the path that it names, and what lies below it, to its target; and no other
/// path.
pub proof fn mapping_leads_to_its_target(
    prefix: Seq<char>,
    target: Seq<char>,
    path: Seq<char>,
    below: Seq<char>,
)
    requires
        prefix.len() > 0,
        trim(prefix) == prefix,
        !prefix.contains('='),
        trim(target) == target,
    ensures
        mapped(prefix + seq!['='] + target, prefix) == target_of(target),
        mapped(prefix + seq!['='] + target, prefix + seq!['/'] + below) == target_of(target),
        mapped(prefix + seq!['='] + target, path) is Some ==> path == prefix || exists|rest: Seq<char>|
            path == prefix + seq!['/'] + rest,
        mapped(prefix, path) is None,
{
    let entry = prefix + seq!['='] + target;
    let n = prefix.len() as int;
    assert(first_index_is(entry, '=', n)) by {
        assert forall|j: int| 0 <= j < n implies entry[j] != '=' by {
            assert(prefix.contains(prefix[j]));
        }
    }
    lemma_first_index_is(entry, '=', n);
    assert(entry.take(n) =~= prefix);
    assert(entry.skip(n + 1) =~= target);
    assert(prefix.take(n) =~= prefix);
    let deeper = prefix + seq!['/'] + below;
    assert(deeper.take(n) =~= prefix);
    assert(deeper[n] == '/');
    if mapped(entry, path) is Some && path != prefix {
        assert(path.take(n) == prefix);
        if path.len() == n {
            assert(path.take(n) =~= path);
        }
        let rest = path.skip(n + 1);
        assert(path =~= prefix + seq!['/'] + rest);
    }
    if let Some(i) = first_index(prefix, '=') {
        assert(first_index_is(prefix, '=', i));
        assert(prefix.contains(prefix[i]));
    }
}

/// Of several mappings the first that leads the path anywhere decides.
pub proof fn first_mapping_decides(entries: Seq<Seq<char>>, path: Seq<char>, i: int)
    requires
        0 <= i < entries.len(),
        mapped(trim(entries[i]), path) is Some,
        forall|j: int| 0 <= j < i ==> mapped(trim(#[trigger] entries[j]), path) is None,
    ensures
        first_mapped(entries, path) == mapped(trim(entries[i]), path),
    decreases i,
{
    if i > 0 {
        let rest = entries.skip(1);
        assert forall|j: int| 0 <= j < i - 1 implies mapped(trim(#[trigger] rest[j]), path) is None by {
            assert(rest[j] == entries[j + 1]);
        }
        first_mapping_decides(rest, path, i - 1);
    }
}

/// A path that no mapping leads anywhere is left alone.
pub proof fn unmapped_path_is_left_alone(entries: Seq<Seq<char>>, path: Seq<char>)
    requires
        forall|j: int| 0 <= j < entries.len() ==> mapped(trim(#[trigger] entries[j]), path) is None,
    ensures
        first_mapped(entries, path) is None,
    decreases entries.len(),
{
    if entries.len() > 0 {
        let rest = entries.skip(1);
        assert forall|j: int| 0 <= j < rest.len() implies mapped(
            trim(#[trigger] rest[j]),
            path,
        ) is None by {
            assert(rest[j] == entries[j + 1]);
        }
        unmapped_path_is_left_alone(rest, path);
    }
}

/// The path of a socket is read up to the first zero byte, or to the end.
pub proof fn socket_path_reads_back(
    path: Seq<char>,
    rest: Seq<u8>,
    address_len: nat,
    family_len: nat,
)
    requires
        address_len > family_len,
        path.len() > 0,
        forall|i: int| 0 <= i < encode_utf8(path).len() ==> #[trigger] encode_utf8(path)[i] != 0,
    ensures
        socket_path(address_len, family_len, encode_utf8(path)) == Some(path),
        socket_path(address_len, family_len, encode_utf8(path) + seq![0u8] + rest) == Some(path),
        socket_path(address_len, family_len, seq![0u8] + rest) is None,
        socket_path(family_len, family_len, encode_utf8(path)) is None,
{
    let bytes = encode_utf8(path);
    lemma_first_octets(path);
    encode_utf8_valid_utf8(path);
    encode_utf8_decode_utf8(path);
    if let Some(i) = first_index(bytes, 0u8) {
        assert(first_index_is(bytes, 0u8, i));
    }
    let ended = bytes + seq![0u8] + rest;
    let n = bytes.len() as int;
    assert(first_index_is(ended, 0u8, n)) by {
        assert forall|j: int| 0 <= j < n implies ended[j] != 0 by {
            assert(ended[j] == bytes[j]);
        }
    }
    lemma_first_index_is(ended, 0u8, n);
    assert(ended.take(n) =~= bytes);
    assert(ended[0] == bytes[0]);
    assert((seq![0u8] + rest)[0] == 0);
}

/// A name is left to the system only if it is empty, means this machine, is an address or is
/// bypassed.
pub proof fn other_names_are_answered(host: Seq<char>, patterns: Option<Seq<char>>)
    ensures
        left_alone(host, patterns, false) <==> host.len() == 0 || host == "localhost"@ || host
            == "::1"@ || (host.len() >= 4 && host[0] == '1' && host[1] == '2' && host[2] == '7'
            && host[3] == '.') || host_bypassed(patterns, host),
        left_alone(host, patterns, true),
{
    reveal_strlit("127.");
    if host.len() >= 4 {
        let start = host.take(4);
        assert(start[0] == host[0] && start[1] == host[1] && start[2] == host[2] && start[3]
            == host[3]);
        if host[0] == '1' && host[1] == '2' && host[2] == '7' && host[3] == '.' {
            assert(start =~= "127."@);
        }
    }
}

/// Blanks around the host and the port of a target do not count, nor those around the two sides of a
/// mapping.
pub proof fn blanks_in_targets_do_not_count(
    blank: Seq<char>,
    host: Seq<char>,
    port: u16,
    prefix: Seq<char>,
    path: Seq<char>,
)
    requires
        forall|i: int| 0 <= i < blank.len() ==> whitespace(#[trigger] blank[i]),
        host.len() > 0,
        !whitespace(host[0]),
        !whitespace(host.last()),
        host[0] != '[',
        prefix.len() > 0,
        !whitespace(prefix[0]),
        !whitespace(prefix.last()),
        !prefix.contains('='),
    ensures
        target_of(
            (blank + host + blank) + seq![':'] + (blank + decimal_text(port as nat) + blank),
        ) == Some((host, port)),
        mapped(
            (blank + prefix + blank) + seq!['='] + (blank + (host + seq![':'] + decimal_text(
                port as nat,
            )) + blank),
            prefix,
        ) == Some((host, port)),
{
    let digits = decimal_text(port as nat);
    number_reads_back(port as nat, 65535);
    decimal_round_trip(port as nat);
    assert(digit(digits[0]));
    assert(digit(digits.last()));
    let before = blank + host + blank;
    let behind = blank + digits + blank;
    let value = before + seq![':'] + behind;
    let n = before.len() as int;
    assert(last_index_is(value, ':', n)) by {
        assert forall|j: int| n < j < value.len() implies value[j] != ':' by {
            assert(value[j] == behind[j - n - 1]);
            let k = j - n - 1;
            if k < blank.len() {
                assert(whitespace(blank[k]));
            } else if k < blank.len() + digits.len() {
                assert(digit(digits[k - blank.len()]));
            } else {
                assert(whitespace(blank[k - blank.len() - digits.len()]));
            }
        }
    }
    lemma_last_index_is(value, ':', n);
    assert(value.take(n) =~= before);
    assert(value.skip(n + 1) =~= behind);
    trimming_takes_the_blanks(blank, host, blank);
    trimming_takes_the_blanks(blank, digits, blank);
    assert(value[0] != '[') by {
        if blank.len() > 0 {
            assert(value[0] == blank[0]);
            assert(whitespace(blank[0]));
        } else {
            assert(value[0] == host[0]);
        }
    }
    let nothing = Seq::<char>::empty();
    assert(nothing + host + nothing =~= host);
    trimming_takes_the_blanks(nothing, host, nothing);
    target_reads_back(host, port);
    let target = host + seq![':'] + digits;
    let left = blank + prefix + blank;
    let right = blank + target + blank;
    let entry = left + seq!['='] + right;
    let m = left.len() as int;
    assert(first_index_is(entry, '=', m)) by {
        assert forall|j: int| 0 <= j < m implies entry[j] != '=' by {
            assert(entry[j] == left[j]);
            if j < blank.len() {
                assert(whitespace(blank[j]));
            } else if j < blank.len() + prefix.len() {
                assert(prefix.contains(prefix[j - blank.len()]));
            } else {
                assert(whitespace(blank[j - blank.len() - prefix.len()]));
            }
        }
    }
    lemma_first_index_is(entry, '=', m);
    assert(entry.take(m) =~= left);
    assert(entry.skip(m + 1) =~= right);
    trimming_takes_the_blanks(blank, prefix, blank);
    assert(target.last() == digits.last());
    trimming_takes_the_blanks(blank, target, blank);
    assert(prefix.take(prefix.len() as int) =~= prefix);
}

/// A target whose port is no number up to 65535 is none, and neither is one with anything but a colon
/// behind its brackets.
pub proof fn bad_targets_are_none(host: Seq<char>, port: Seq<char>)
    requires
        !host.contains(']'),
        !port.contains(':'),
    ensures
        parse_decimal(port, 65535) is None ==> target_of(
            seq!['['] + host + seq![']', ':'] + port,
        ) is None,
        parse_decimal(trim(port), 65535) is None && host.len() > 0 && host[0] != '[' ==> target_of(
            host + seq![':'] + port,
        ) is None,
        (port.len() == 0 || port[0] != ':') ==> target_of(seq!['['] + host + seq![']'] + port) is None,
        target_of(seq!['['] + host) is None,
{
    let n = host.len() as int;
    let a = seq!['['] + host + seq![']', ':'] + port;
    let b = seq!['['] + host + seq![']'] + port;
    let ra = a.skip(1);
    let rb = b.skip(1);
    assert(ra =~= host + seq![']', ':'] + port);
    assert(rb =~= host + seq![']'] + port);
    assert forall|j: int| 0 <= j < n implies ra[j] != ']' && rb[j] != ']' by {
        assert(ra[j] == host[j] && rb[j] == host[j]);
        assert(host.contains(host[j]));
    }
    lemma_first_index_is(ra, ']', n);
    lemma_first_index_is(rb, ']', n);
    assert(ra.skip(n + 1) =~= seq![':'] + port);
    assert(ra.skip(n + 1).skip(1) =~= port);
    assert(rb.skip(n + 1) =~= port);
    let open = seq!['['] + host;
    assert(open.skip(1) =~= host);
    if let Some(i) = first_index(host, ']') {
        assert(first_index_is(host, ']', i));
        assert(host.contains(host[i]));
    }
    let value = host + seq![':'] + port;
    assert(last_index_is(value, ':', n)) by {
        assert forall|j: int| n < j < value.len() implies value[j] != ':' by {
            assert(port.contains(port[j - n - 1]));
        }
    }
    lemma_last_index_is(value, ':', n);
    assert(value.skip(n + 1) =~= port);
    if host.len() > 0 {
        assert(value[0] == host[0]);
    }
}

} // verus!
