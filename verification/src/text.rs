//! Text and byte-sequence primitives.
//!
//! Every text function of the crate is stated over `Seq<char>`, every wire format over
//! `Seq<u8>`. The executable helpers below walk plain slices, so that their results are
//! proved against those sequences.
use vstd::prelude::*;
use vstd::slice::{slice_subrange, slice_to_vec};
use vstd::string::*;
use vstd::utf8::*;

verus! {

/// `String::push` appends one character.
pub assume_specification[ String::push ](s: &mut String, c: char)
    ensures
        final(s)@ == old(s)@.push(c),
;

/// What is wrong with bytes that are not valid UTF-8, in words.
pub uninterp spec fn utf8_error(bytes: Seq<u8>) -> Seq<char>;

/// `str::from_utf8` accepts exactly the byte strings that are valid UTF-8, and gives them back as
/// text without changing a byte. What it says of others is determined by the bytes.
#[verifier::external_body]
pub(crate) fn utf8_text(bytes: &[u8]) -> (r: Result<&str, String>)
    ensures
        r is Ok <==> valid_utf8(bytes@),
        r matches Ok(s) ==> encode_utf8(s@) == bytes@,
        r matches Err(message) ==> message@ == utf8_error(bytes@),
{
    core::str::from_utf8(bytes).map_err(|e| e.to_string())
}

/// The text of an optional string.
pub open spec fn opt_text(s: Option<String>) -> Option<Seq<char>> {
    match s {
        Some(s) => Some(s@),
        None => None,
    }
}

/// The text behind an optional reference.
pub open spec fn opt_str(s: Option<&str>) -> Option<Seq<char>> {
    match s {
        Some(s) => Some(s@),
        None => None,
    }
}

/// The characters that a byte string spells, if it is valid UTF-8.
pub open spec fn utf8_chars(bytes: Seq<u8>) -> Option<Seq<char>> {
    if valid_utf8(bytes) {
        Some(decode_utf8(bytes))
    } else {
        None
    }
}

// ── Characters ────────────────────────────────────────────────────────────────

/// The characters with the Unicode property `White_Space`.
pub open spec fn whitespace(c: char) -> bool {
    let n = c as u32;
    ||| 0x9 <= n <= 0xd
    ||| n == 0x20
    ||| n == 0x85
    ||| n == 0xa0
    ||| n == 0x1680
    ||| 0x2000 <= n <= 0x200a
    ||| n == 0x2028
    ||| n == 0x2029
    ||| n == 0x202f
    ||| n == 0x205f
    ||| n == 0x3000
}

/// Whether `c` is white space.
pub fn is_whitespace(c: char) -> (r: bool)
    ensures
        r == whitespace(c),
{
    let n: u32 = c as u32;
    (0x9 <= n && n <= 0xd) || n == 0x20 || n == 0x85 || n == 0xa0 || n == 0x1680 || (0x2000 <= n
        && n <= 0x200a) || n == 0x2028 || n == 0x2029 || n == 0x202f || n == 0x205f || n == 0x3000
}

/// The ASCII lower-case form of a character.
pub open spec fn lower(c: char) -> char {
    if 'A' as u32 <= c as u32 <= 'Z' as u32 {
        (c as u32 + 32) as char
    } else {
        c
    }
}

/// The ASCII lower-case form of a text.
pub open spec fn lower_text(s: Seq<char>) -> Seq<char> {
    s.map_values(|c: char| lower(c))
}

/// ASCII lower case, one character.
pub fn to_lower(c: char) -> (r: char)
    ensures
        r == lower(c),
{
    if 'A' <= c && c <= 'Z' {
        ((c as u8) + 32) as char
    } else {
        c
    }
}

// ── Conversions ───────────────────────────────────────────────────────────────

/// The characters of a text.
pub fn chars_of(s: &str) -> (r: Vec<char>)
    ensures
        r@ == s@,
{
    let mut out: Vec<char> = Vec::new();
    for c in it: s.chars()
        invariant
            it.seq() == s@,
            out@ == s@.take(it.index() as int),
    {
        proof {
            assert(s@.take(it.index() as int + 1) =~= s@.take(it.index() as int).push(c));
        }
        out.push(c);
    }
    proof {
        assert(s@.take(s@.len() as int) =~= s@);
    }
    out
}

/// The text that a sequence of characters spells.
pub fn string_of(chars: &[char]) -> (r: String)
    ensures
        r@ == chars@,
{
    let mut out = String::new();
    let mut i: usize = 0;
    while i < chars.len()
        invariant
            i <= chars.len(),
            out@ == chars@.take(i as int),
        decreases chars.len() - i,
    {
        proof {
            assert(chars@.take(i as int + 1) =~= chars@.take(i as int).push(chars@[i as int]));
        }
        out.push(chars[i]);
        i += 1;
    }
    proof {
        assert(chars@.take(i as int) =~= chars@);
    }
    out
}

/// One text behind another.
pub fn concat(a: &str, b: &str) -> (r: String)
    ensures
        r@ == a@ + b@,
{
    let mut out = a.to_string();
    out.append(b);
    out
}

/// A copy of a list of strings.
pub fn clone_strings(list: &[String]) -> (r: Vec<String>)
    ensures
        r@ == list@,
{
    let mut out: Vec<String> = Vec::new();
    let mut i: usize = 0;
    while i < list.len()
        invariant
            i <= list@.len(),
            out@ == list@.take(i as int),
        decreases list@.len() - i,
    {
        out.push(list[i].clone());
        assert(out@ =~= list@.take(i + 1));
        i = i + 1;
    }
    assert(list@.take(i as int) =~= list@);
    out
}

/// Whether two byte strings are equal.
pub fn same_bytes(a: &[u8], b: &[u8]) -> (r: bool)
    ensures
        r == (a@ == b@),
{
    if a.len() != b.len() {
        return false;
    }
    let mut i: usize = 0;
    while i < a.len()
        invariant
            i <= a.len(),
            a.len() == b.len(),
            forall|j: int| 0 <= j < i ==> a@[j] == b@[j],
        decreases a.len() - i,
    {
        if a[i] != b[i] {
            return false;
        }
        i += 1;
    }
    proof {
        assert(a@ =~= b@);
    }
    true
}

/// Whether two texts are equal.
pub fn same_text(a: &str, b: &str) -> (r: bool)
    ensures
        r == (a@ == b@),
{
    proof {
        encode_utf8_decode_utf8(a@);
        encode_utf8_decode_utf8(b@);
    }
    same_bytes(a.as_bytes(), b.as_bytes())
}

/// Whether two character sequences are equal.
pub fn same_chars(a: &[char], b: &[char]) -> (r: bool)
    ensures
        r == (a@ == b@),
{
    if a.len() != b.len() {
        return false;
    }
    let mut i: usize = 0;
    while i < a.len()
        invariant
            i <= a.len(),
            a.len() == b.len(),
            forall|j: int| 0 <= j < i ==> a@[j] == b@[j],
        decreases a.len() - i,
    {
        if a[i] != b[i] {
            return false;
        }
        i += 1;
    }
    proof {
        assert(a@ =~= b@);
    }
    true
}

/// Whether two character sequences are equal up to ASCII case.
pub fn same_chars_ignore_case(a: &[char], b: &[char]) -> (r: bool)
    ensures
        r == (lower_text(a@) == lower_text(b@)),
{
    if a.len() != b.len() {
        proof {
            assert(lower_text(a@).len() != lower_text(b@).len());
        }
        return false;
    }
    let mut i: usize = 0;
    while i < a.len()
        invariant
            i <= a.len(),
            a.len() == b.len(),
            forall|j: int| 0 <= j < i ==> lower(a@[j]) == lower(b@[j]),
        decreases a.len() - i,
    {
        if to_lower(a[i]) != to_lower(b[i]) {
            proof {
                assert(lower_text(a@)[i as int] != lower_text(b@)[i as int]);
            }
            return false;
        }
        i += 1;
    }
    proof {
        assert(lower_text(a@) =~= lower_text(b@));
    }
    true
}

/// The ASCII lower-case form of a character sequence.
pub fn lower_chars(a: &[char]) -> (r: Vec<char>)
    ensures
        r@ == lower_text(a@),
{
    let mut out: Vec<char> = Vec::new();
    let mut i: usize = 0;
    while i < a.len()
        invariant
            i <= a.len(),
            out@.len() == i,
            forall|j: int| 0 <= j < i ==> out@[j] == lower(a@[j]),
        decreases a.len() - i,
    {
        out.push(to_lower(a[i]));
        i += 1;
    }
    proof {
        assert(out@ =~= lower_text(a@));
    }
    out
}

// ── Searching ─────────────────────────────────────────────────────────────────

/// `needle` stands in `hay` at position `i`.
pub open spec fn occurs_at<T>(hay: Seq<T>, needle: Seq<T>, i: int) -> bool {
    &&& 0 <= i
    &&& i + needle.len() <= hay.len()
    &&& hay.subrange(i, i + needle.len()) == needle
}

/// Position `i` is the first at which `needle` stands in `hay`.
pub open spec fn first_occurs_at<T>(hay: Seq<T>, needle: Seq<T>, i: int) -> bool {
    &&& occurs_at(hay, needle, i)
    &&& forall|j: int| 0 <= j < i ==> !occurs_at(hay, needle, j)
}

/// The first position of `needle` in `hay`, if there is one.
pub open spec fn find<T>(hay: Seq<T>, needle: Seq<T>) -> Option<int> {
    if exists|i: int| first_occurs_at(hay, needle, i) {
        Some(choose|i: int| first_occurs_at(hay, needle, i))
    } else {
        None
    }
}

/// Two first positions are the same position.
pub proof fn lemma_find_is<T>(hay: Seq<T>, needle: Seq<T>, i: int)
    requires
        first_occurs_at(hay, needle, i),
    ensures
        find(hay, needle) == Some(i),
{
    let k = choose|k: int| first_occurs_at(hay, needle, k);
    assert(first_occurs_at(hay, needle, k));
    if k < i {
        assert(!occurs_at(hay, needle, k));
    }
    if i < k {
        assert(!occurs_at(hay, needle, i));
    }
}

/// The first position of `needle` in `haystack`.
pub fn find_subsequence(haystack: &[u8], needle: &[u8]) -> (r: Option<usize>)
    requires
        needle@.len() > 0,
    ensures
        match r {
            Some(i) => find(haystack@, needle@) == Some(i as int) && first_occurs_at(
                haystack@,
                needle@,
                i as int,
            ),
            None => find(haystack@, needle@) is None && forall|j: int|
                !occurs_at(haystack@, needle@, j),
        },
{
    if haystack.len() < needle.len() {
        return None;
    }
    let last: usize = haystack.len() - needle.len();
    let mut i: usize = 0;
    while i <= last
        invariant
            i <= last + 1,
            last == haystack.len() - needle.len(),
            needle@.len() > 0,
            haystack.len() >= needle.len(),
            forall|j: int| 0 <= j < i ==> !occurs_at(haystack@, needle@, j),
        decreases last + 1 - i,
    {
        if same_bytes(slice_subrange(haystack, i, i + needle.len()), needle) {
            proof {
                lemma_find_is(haystack@, needle@, i as int);
            }
            return Some(i);
        }
        i += 1;
    }
    None
}

/// Position `i` holds the first `x` of `s`.
pub open spec fn first_index_is<T>(s: Seq<T>, x: T, i: int) -> bool {
    &&& 0 <= i < s.len()
    &&& s[i] == x
    &&& forall|j: int| 0 <= j < i ==> s[j] != x
}

/// Position `i` holds the last `x` of `s`.
pub open spec fn last_index_is<T>(s: Seq<T>, x: T, i: int) -> bool {
    &&& 0 <= i < s.len()
    &&& s[i] == x
    &&& forall|j: int| i < j < s.len() ==> s[j] != x
}

/// The position of the first `x` in `s`.
pub open spec fn first_index<T>(s: Seq<T>, x: T) -> Option<int> {
    if exists|i: int| first_index_is(s, x, i) {
        Some(choose|i: int| first_index_is(s, x, i))
    } else {
        None
    }
}

/// The position of the last `x` in `s`.
pub open spec fn last_index<T>(s: Seq<T>, x: T) -> Option<int> {
    if exists|i: int| last_index_is(s, x, i) {
        Some(choose|i: int| last_index_is(s, x, i))
    } else {
        None
    }
}

/// A first position is the one that `first_index` names.
pub proof fn lemma_first_index_is<T>(s: Seq<T>, x: T, i: int)
    requires
        first_index_is(s, x, i),
    ensures
        first_index(s, x) == Some(i),
{
    let k = choose|k: int| first_index_is(s, x, k);
    assert(first_index_is(s, x, k));
    if k < i {
        assert(s[k] != x);
    }
    if i < k {
        assert(s[i] != x);
    }
}

/// A last position is the one that `last_index` names.
pub proof fn lemma_last_index_is<T>(s: Seq<T>, x: T, i: int)
    requires
        last_index_is(s, x, i),
    ensures
        last_index(s, x) == Some(i),
{
    let k = choose|k: int| last_index_is(s, x, k);
    assert(last_index_is(s, x, k));
    if k < i {
        assert(s[i] != x);
    }
    if i < k {
        assert(s[k] != x);
    }
}

/// The position of the first `x`.
pub fn find_char(s: &[char], x: char) -> (r: Option<usize>)
    ensures
        match r {
            Some(i) => first_index(s@, x) == Some(i as int) && first_index_is(s@, x, i as int),
            None => first_index(s@, x) is None && forall|j: int|
                0 <= j < s@.len() ==> s@[j] != x,
        },
{
    let mut i: usize = 0;
    while i < s.len()
        invariant
            i <= s.len(),
            forall|j: int| 0 <= j < i ==> s@[j] != x,
        decreases s.len() - i,
    {
        if s[i] == x {
            proof {
                lemma_first_index_is(s@, x, i as int);
            }
            return Some(i);
        }
        i += 1;
    }
    None
}

/// The position of the first octet `x`.
pub fn find_byte(s: &[u8], x: u8) -> (r: Option<usize>)
    ensures
        match r {
            Some(i) => first_index(s@, x) == Some(i as int) && first_index_is(s@, x, i as int),
            None => first_index(s@, x) is None && forall|j: int|
                0 <= j < s@.len() ==> s@[j] != x,
        },
{
    let mut i: usize = 0;
    while i < s.len()
        invariant
            i <= s.len(),
            forall|j: int| 0 <= j < i ==> s@[j] != x,
        decreases s.len() - i,
    {
        if s[i] == x {
            proof {
                lemma_first_index_is(s@, x, i as int);
            }
            return Some(i);
        }
        i += 1;
    }
    None
}

/// The position of the last `x`.
pub fn rfind_char(s: &[char], x: char) -> (r: Option<usize>)
    ensures
        match r {
            Some(i) => last_index(s@, x) == Some(i as int) && last_index_is(s@, x, i as int),
            None => last_index(s@, x) is None && forall|j: int| 0 <= j < s@.len() ==> s@[j] != x,
        },
{
    let mut i: usize = s.len();
    while i > 0
        invariant
            i <= s.len(),
            forall|j: int| i <= j < s@.len() ==> s@[j] != x,
        decreases i,
    {
        i -= 1;
        if s[i] == x {
            proof {
                lemma_last_index_is(s@, x, i as int);
            }
            return Some(i);
        }
    }
    None
}

/// `s` begins with `prefix`.
pub open spec fn begins_with<T>(s: Seq<T>, prefix: Seq<T>) -> bool {
    prefix.len() <= s.len() && s.take(prefix.len() as int) == prefix
}

/// `s` ends with `suffix`.
pub open spec fn finishes_with<T>(s: Seq<T>, suffix: Seq<T>) -> bool {
    suffix.len() <= s.len() && s.skip(s.len() - suffix.len()) == suffix
}

/// Whether a character sequence begins with `prefix`.
pub fn chars_begin_with(s: &[char], prefix: &[char]) -> (r: bool)
    ensures
        r == begins_with(s@, prefix@),
{
    if prefix.len() > s.len() {
        return false;
    }
    proof {
        assert(s@.take(prefix@.len() as int) =~= s@.subrange(0, prefix@.len() as int));
    }
    same_chars(slice_subrange(s, 0, prefix.len()), prefix)
}

/// Whether a character sequence ends with `suffix`.
pub fn chars_finish_with(s: &[char], suffix: &[char]) -> (r: bool)
    ensures
        r == finishes_with(s@, suffix@),
{
    if suffix.len() > s.len() {
        return false;
    }
    let at: usize = s.len() - suffix.len();
    proof {
        assert(s@.skip(at as int) =~= s@.subrange(at as int, s@.len() as int));
    }
    same_chars(slice_subrange(s, at, s.len()), suffix)
}

/// Whether a byte string begins with `prefix`.
pub fn bytes_begin_with(s: &[u8], prefix: &[u8]) -> (r: bool)
    ensures
        r == begins_with(s@, prefix@),
{
    if prefix.len() > s.len() {
        return false;
    }
    proof {
        assert(s@.take(prefix@.len() as int) =~= s@.subrange(0, prefix@.len() as int));
    }
    same_bytes(slice_subrange(s, 0, prefix.len()), prefix)
}

/// Whether a byte string ends with `suffix`.
pub fn bytes_finish_with(s: &[u8], suffix: &[u8]) -> (r: bool)
    ensures
        r == finishes_with(s@, suffix@),
{
    if suffix.len() > s.len() {
        return false;
    }
    let at: usize = s.len() - suffix.len();
    proof {
        assert(s@.skip(at as int) =~= s@.subrange(at as int, s@.len() as int));
    }
    same_bytes(slice_subrange(s, at, s.len()), suffix)
}

/// A copy of the bytes from `from` up to `to`.
pub fn bytes_between(s: &[u8], from: usize, to: usize) -> (r: Vec<u8>)
    requires
        from <= to <= s@.len(),
    ensures
        r@ == s@.subrange(from as int, to as int),
{
    slice_to_vec(slice_subrange(s, from, to))
}

/// Appends bytes to a buffer.
pub fn push_bytes(out: &mut Vec<u8>, more: &[u8])
    ensures
        final(out)@ == old(out)@ + more@,
{
    out.extend_from_slice(more);
    proof {
        assert(out@ =~= old(out)@ + more@);
    }
}

// ── Text and bytes ────────────────────────────────────────────────────────────

/// The octets that end a line on the wire.
pub open spec fn line_end() -> Seq<u8> {
    seq![13u8, 10]
}

/// The octets of a text are those of its parts.
pub proof fn lemma_encode_concat(a: Seq<char>, b: Seq<char>)
    ensures
        encode_utf8(a + b) == encode_utf8(a) + encode_utf8(b),
    decreases a.len(),
{
    if a.len() == 0 {
        assert(a + b =~= b);
    } else {
        assert((a + b).drop_first() =~= a.drop_first() + b);
        lemma_encode_concat(a.drop_first(), b);
    }
}

/// The first character of a text is its first octet if either of them is ASCII; an octet of
/// another character is never ASCII.
pub proof fn lemma_first_octets(s: Seq<char>)
    requires
        s.len() > 0,
    ensures
        ({
            let n = encode_scalar(s[0] as u32).len();
            let bytes = encode_utf8(s);
            &&& 1 <= n <= bytes.len()
            &&& bytes.skip(n as int) == encode_utf8(s.drop_first())
            &&& forall|j: int| 0 <= j < n && #[trigger] bytes[j] < 128 ==> n == 1
            &&& n == 1 <==> (s[0] as u32) < 128
            &&& n == 1 ==> bytes[0] == s[0] as u32
        }),
{
    let bytes = encode_utf8(s);
    let n = encode_scalar(s[0] as u32).len();
    encode_utf8_first_scalar(s);
    assert(bytes.skip(n as int) =~= encode_utf8(s.drop_first()));
    let b = bytes[0];
    assert(b <= 0x7f ==> b & 0x7f == b) by (bit_vector);
}

/// The first line of a text ends where the first line of its octets ends.
pub proof fn lemma_first_line(s: Seq<char>, p: int) -> (i: int)
    requires
        first_occurs_at(encode_utf8(s), line_end(), p),
    ensures
        first_occurs_at(s, crlf(), i),
        encode_utf8(s.take(i)).len() == p,
    decreases s.len(),
{
    let bytes = encode_utf8(s);
    lemma_first_octets(s);
    let n = encode_scalar(s[0] as u32).len() as int;
    let rest = s.drop_first();
    assert(bytes.subrange(p, p + 2)[0] == bytes[p]);
    assert(bytes.subrange(p, p + 2)[1] == bytes[p + 1]);
    if rest.len() > 0 {
        lemma_first_octets(rest);
        assert(bytes[n] == encode_utf8(rest)[0]);
    }
    if s[0] == '\r' && rest.len() > 0 && rest[0] == '\n' {
        assert(bytes.subrange(0, 2) =~= line_end());
        assert(occurs_at(bytes, line_end(), 0));
        assert(s.subrange(0, 2) =~= crlf());
        assert(s.take(0) =~= Seq::<char>::empty());
        0
    } else {
        assert(p >= n) by {
            if p < n {
                assert(bytes[p] == 13);
                assert(n == 1 && p == 0);
                assert(s[0] as u32 == 13);
                assert(encode_utf8(rest).len() >= 1);
                assert(encode_utf8(rest)[0] == 10);
                assert(rest[0] as u32 == 10);
                char_u32_cast(s[0], 13);
                char_u32_cast(rest[0], 10);
            }
        }
        let tail = encode_utf8(rest);
        assert(tail.subrange(p - n, p - n + 2) =~= bytes.subrange(p, p + 2));
        assert forall|j: int| 0 <= j < p - n implies !occurs_at(tail, line_end(), j) by {
            assert(bytes.subrange(j + n, j + n + 2) =~= tail.subrange(j, j + 2));
            assert(!occurs_at(bytes, line_end(), j + n));
        }
        let k = lemma_first_line(rest, p - n);
        assert(s.subrange(k + 1, k + 3) =~= rest.subrange(k, k + 2));
        assert forall|j: int| 0 <= j < k + 1 implies !occurs_at(s, crlf(), j) by {
            if occurs_at(s, crlf(), j) {
                assert(s.subrange(j, j + 2)[0] == s[j]);
                assert(s.subrange(j, j + 2)[1] == s[j + 1]);
                if j > 0 {
                    assert(rest.subrange(j - 1, j + 1) =~= s.subrange(j, j + 2));
                    assert(!occurs_at(rest, crlf(), j - 1));
                }
            }
        }
        assert(s.take(k + 1).drop_first() =~= rest.take(k));
        k + 1
    }
}

// ── Trimming ──────────────────────────────────────────────────────────────────

/// `s` without its leading white space.
pub open spec fn trim_start(s: Seq<char>) -> Seq<char>
    decreases s.len(),
{
    if s.len() > 0 && whitespace(s[0]) {
        trim_start(s.drop_first())
    } else {
        s
    }
}

/// `s` without its trailing white space.
pub open spec fn trim_end(s: Seq<char>) -> Seq<char>
    decreases s.len(),
{
    if s.len() > 0 && whitespace(s.last()) {
        trim_end(s.drop_last())
    } else {
        s
    }
}

/// `s` without white space at either end.
pub open spec fn trim(s: Seq<char>) -> Seq<char> {
    trim_end(trim_start(s))
}

/// `s` without white space at either end.
pub fn trim_chars(s: &[char]) -> (r: &[char])
    ensures
        r@ == trim(s@),
{
    let mut from: usize = 0;
    proof {
        assert(s@.skip(0) =~= s@);
    }
    while from < s.len() && is_whitespace(s[from])
        invariant
            from <= s.len(),
            trim_start(s@) == trim_start(s@.skip(from as int)),
        decreases s.len() - from,
    {
        proof {
            assert(s@.skip(from as int).drop_first() =~= s@.skip(from as int + 1));
        }
        from += 1;
    }
    let ghost rest = s@.skip(from as int);
    let mut to: usize = s.len();
    proof {
        assert(rest =~= s@.subrange(from as int, to as int));
    }
    while to > from && is_whitespace(s[to - 1])
        invariant
            from <= to <= s.len(),
            trim_end(rest) == trim_end(s@.subrange(from as int, to as int)),
        decreases to - from,
    {
        proof {
            assert(s@.subrange(from as int, to as int).drop_last() =~= s@.subrange(
                from as int,
                to - 1,
            ));
        }
        to -= 1;
    }
    slice_subrange(s, from, to)
}

/// `s` without the characters `c` that it begins with.
pub open spec fn trim_start_char(s: Seq<char>, c: char) -> Seq<char>
    decreases s.len(),
{
    if s.len() > 0 && s[0] == c {
        trim_start_char(s.drop_first(), c)
    } else {
        s
    }
}

/// `s` without the characters `c` that it ends with.
pub open spec fn trim_end_char(s: Seq<char>, c: char) -> Seq<char>
    decreases s.len(),
{
    if s.len() > 0 && s.last() == c {
        trim_end_char(s.drop_last(), c)
    } else {
        s
    }
}

/// `s` without any number of repetitions of `prefix` at its start.
pub open spec fn trim_start_text(s: Seq<char>, prefix: Seq<char>) -> Seq<char>
    decreases s.len(),
{
    if prefix.len() > 0 && begins_with(s, prefix) {
        trim_start_text(s.skip(prefix.len() as int), prefix)
    } else {
        s
    }
}

/// `s` without the characters `c` that it begins with.
pub fn trim_start_char_of(s: &[char], c: char) -> (r: &[char])
    ensures
        r@ == trim_start_char(s@, c),
{
    let mut from: usize = 0;
    proof {
        assert(s@.skip(0) =~= s@);
    }
    while from < s.len() && s[from] == c
        invariant
            from <= s.len(),
            trim_start_char(s@, c) == trim_start_char(s@.skip(from as int), c),
        decreases s.len() - from,
    {
        proof {
            assert(s@.skip(from as int).drop_first() =~= s@.skip(from as int + 1));
        }
        from += 1;
    }
    proof {
        assert(s@.skip(from as int) =~= s@.subrange(from as int, s@.len() as int));
    }
    slice_subrange(s, from, s.len())
}

/// `s` without the characters `c` that it ends with.
pub fn trim_end_char_of(s: &[char], c: char) -> (r: &[char])
    ensures
        r@ == trim_end_char(s@, c),
{
    let mut to: usize = s.len();
    proof {
        assert(s@.take(to as int) =~= s@);
    }
    while to > 0 && s[to - 1] == c
        invariant
            to <= s.len(),
            trim_end_char(s@, c) == trim_end_char(s@.take(to as int), c),
        decreases to,
    {
        proof {
            assert(s@.take(to as int).drop_last() =~= s@.take(to - 1));
        }
        to -= 1;
    }
    proof {
        assert(s@.take(to as int) =~= s@.subrange(0, to as int));
    }
    slice_subrange(s, 0, to)
}

/// `s` without any number of repetitions of `prefix` at its start.
pub fn trim_start_text_of<'a>(s: &'a [char], prefix: &[char]) -> (r: &'a [char])
    ensures
        r@ == trim_start_text(s@, prefix@),
{
    let mut from: usize = 0;
    proof {
        assert(s@.skip(0) =~= s@);
    }
    let n: usize = prefix.len();
    while n > 0 && n <= s.len() - from && same_chars(slice_subrange(s, from, from + n), prefix)
        invariant
            from <= s.len(),
            n == prefix@.len(),
            trim_start_text(s@, prefix@) == trim_start_text(s@.skip(from as int), prefix@),
        decreases s.len() - from,
    {
        proof {
            let rest = s@.skip(from as int);
            assert(rest.take(n as int) =~= s@.subrange(from as int, from + n));
            assert(rest.skip(n as int) =~= s@.skip(from + n));
        }
        from += n;
    }
    proof {
        let rest = s@.skip(from as int);
        assert(rest =~= s@.subrange(from as int, s@.len() as int));
        if n > 0 && n <= s.len() - from {
            assert(rest.take(n as int) =~= s@.subrange(from as int, from + n));
        }
    }
    slice_subrange(s, from, s.len())
}

// ── Splitting and joining ─────────────────────────────────────────────────────

/// The views of a list of character sequences.
pub open spec fn views(v: Seq<Vec<char>>) -> Seq<Seq<char>> {
    v.map_values(|x: Vec<char>| x@)
}

/// The texts of a list of strings.
pub open spec fn texts(v: Seq<String>) -> Seq<Seq<char>> {
    v.map_values(|x: String| x@)
}

/// The pieces of `s` between the occurrences of `sep`. There is always at least one piece.
pub open spec fn split_on(s: Seq<char>, sep: char) -> Seq<Seq<char>>
    decreases s.len(),
    when s.len() >= 0
{
    match first_index(s, sep) {
        Some(i) => if 0 <= i < s.len() {
            seq![s.take(i)] + split_on(s.skip(i + 1), sep)
        } else {
            seq![s]
        },
        None => seq![s],
    }
}

/// The carriage return and line feed that end a line on the wire.
pub open spec fn crlf() -> Seq<char> {
    seq!['\r', '\n']
}

/// The lines of `s`, each ended by CRLF, with what follows the last CRLF as the last line.
pub open spec fn split_lines(s: Seq<char>) -> Seq<Seq<char>>
    decreases s.len(),
    when s.len() >= 0
{
    match find(s, crlf()) {
        Some(i) => if 0 <= i && i + 2 <= s.len() {
            seq![s.take(i)] + split_lines(s.skip(i + 2))
        } else {
            seq![s]
        },
        None => seq![s],
    }
}

/// The lines of a byte string, each ended by CRLF, with what follows the last CRLF as the last
/// line.
#[verifier::opaque]
pub open spec fn octet_lines(s: Seq<u8>) -> Seq<Seq<u8>>
    decreases s.len(),
    when s.len() >= 0
{
    match find(s, line_end()) {
        Some(i) => if 0 <= i && i + 2 <= s.len() {
            seq![s.take(i)] + octet_lines(s.skip(i + 2))
        } else {
            seq![s]
        },
        None => seq![s],
    }
}

/// The views of a list of byte strings.
pub open spec fn octet_views(v: Seq<Vec<u8>>) -> Seq<Seq<u8>> {
    v.map_values(|x: Vec<u8>| x@)
}

/// The lines of a byte string.
pub fn octet_lines_of(s: &[u8]) -> (r: Vec<Vec<u8>>)
    ensures
        octet_views(r@) == octet_lines(s@),
{
    let eol: [u8; 2] = [13, 10];
    let mut out: Vec<Vec<u8>> = Vec::new();
    let mut from: usize = 0;
    proof {
        reveal_with_fuel(octet_lines, 1);
        assert(eol@ =~= line_end());
        assert(s@.skip(0) =~= s@);
        assert(octet_views(out@) + octet_lines(s@) =~= octet_lines(s@));
    }
    loop
        invariant
            from <= s.len(),
            eol@ == line_end(),
            octet_views(out@) + octet_lines(s@.skip(from as int)) == octet_lines(s@),
        decreases s.len() - from,
    {
        let rest = slice_subrange(s, from, s.len());
        let ghost before = out@;
        proof {
            reveal_with_fuel(octet_lines, 1);
            assert(rest@ =~= s@.skip(from as int));
        }
        match find_subsequence(rest, &eol) {
            Some(i) => {
                out.push(slice_to_vec(slice_subrange(rest, 0, i)));
                proof {
                    assert(rest@.take(i as int) =~= rest@.subrange(0, i as int));
                    assert(rest@.skip(i + 2) =~= s@.skip(from + i + 2));
                    assert(octet_views(out@) =~= octet_views(before).push(rest@.take(i as int)));
                    assert(octet_views(out@) + octet_lines(s@.skip(from + i + 2)) =~= octet_views(
                        before,
                    ) + (seq![rest@.take(i as int)] + octet_lines(s@.skip(from + i + 2))));
                }
                from = from + i + 2;
            },
            None => {
                out.push(slice_to_vec(rest));
                proof {
                    assert(octet_views(out@) =~= octet_views(before) + seq![rest@]);
                }
                return out;
            },
        }
    }
}

/// The pieces between the occurrences of `sep`.
pub fn split_chars(s: &[char], sep: char) -> (r: Vec<Vec<char>>)
    ensures
        views(r@) == split_on(s@, sep),
{
    let mut out: Vec<Vec<char>> = Vec::new();
    let mut from: usize = 0;
    proof {
        assert(s@.skip(0) =~= s@);
        assert(views(out@) + split_on(s@, sep) =~= split_on(s@, sep));
    }
    loop
        invariant
            from <= s.len(),
            views(out@) + split_on(s@.skip(from as int), sep) == split_on(s@, sep),
        decreases s.len() - from,
    {
        let rest = slice_subrange(s, from, s.len());
        let ghost before = out@;
        proof {
            assert(rest@ =~= s@.skip(from as int));
        }
        match find_char(rest, sep) {
            Some(i) => {
                out.push(slice_to_vec(slice_subrange(rest, 0, i)));
                proof {
                    assert(rest@.take(i as int) =~= rest@.subrange(0, i as int));
                    assert(rest@.skip(i + 1) =~= s@.skip(from + i + 1));
                    assert(views(out@) =~= views(before).push(rest@.take(i as int)));
                    assert(views(out@) + split_on(s@.skip(from + i + 1), sep) =~= views(before) + (
                    seq![rest@.take(i as int)] + split_on(s@.skip(from + i + 1), sep)));
                }
                from = from + i + 1;
            },
            None => {
                out.push(slice_to_vec(rest));
                proof {
                    assert(views(out@) =~= views(before) + seq![rest@]);
                }
                return out;
            },
        }
    }
}

/// The lines between the occurrences of CRLF.
pub fn lines_of(s: &[char]) -> (r: Vec<Vec<char>>)
    ensures
        views(r@) == split_lines(s@),
{
    let mut out: Vec<Vec<char>> = Vec::new();
    let mut from: usize = 0;
    proof {
        assert(s@.skip(0) =~= s@);
        assert(views(out@) + split_lines(s@) =~= split_lines(s@));
    }
    loop
        invariant
            from <= s.len(),
            views(out@) + split_lines(s@.skip(from as int)) == split_lines(s@),
        decreases s.len() - from,
    {
        let rest = slice_subrange(s, from, s.len());
        let ghost before = out@;
        proof {
            assert(rest@ =~= s@.skip(from as int));
        }
        match find_line_end(rest) {
            Some(i) => {
                out.push(slice_to_vec(slice_subrange(rest, 0, i)));
                proof {
                    assert(rest@.take(i as int) =~= rest@.subrange(0, i as int));
                    assert(rest@.skip(i + 2) =~= s@.skip(from + i + 2));
                    assert(views(out@) =~= views(before).push(rest@.take(i as int)));
                    assert(views(out@) + split_lines(s@.skip(from + i + 2)) =~= views(before) + (
                    seq![rest@.take(i as int)] + split_lines(s@.skip(from + i + 2))));
                }
                from = from + i + 2;
            },
            None => {
                out.push(slice_to_vec(rest));
                proof {
                    assert(views(out@) =~= views(before) + seq![rest@]);
                }
                return out;
            },
        }
    }
}

/// The position of the first CRLF.
fn find_line_end(s: &[char]) -> (r: Option<usize>)
    ensures
        match r {
            Some(i) => find(s@, crlf()) == Some(i as int) && first_occurs_at(s@, crlf(), i as int),
            None => find(s@, crlf()) is None,
        },
{
    if s.len() < 2 {
        return None;
    }
    let last: usize = s.len() - 2;
    let mut i: usize = 0;
    while i <= last
        invariant
            i <= last + 1,
            last == s.len() - 2,
            s.len() >= 2,
            forall|j: int| 0 <= j < i ==> !occurs_at(s@, crlf(), j),
        decreases last + 1 - i,
    {
        if s[i] == '\r' && s[i + 1] == '\n' {
            proof {
                assert(s@.subrange(i as int, i + 2) =~= crlf());
                lemma_find_is(s@, crlf(), i as int);
            }
            return Some(i);
        }
        proof {
            if occurs_at(s@, crlf(), i as int) {
                assert(s@.subrange(i as int, i + 2)[0] == s@[i as int]);
                assert(s@.subrange(i as int, i + 2)[1] == s@[i + 1]);
            }
        }
        i += 1;
    }
    None
}

/// The number of characters before the first white space.
pub open spec fn word_len(s: Seq<char>) -> nat
    decreases s.len(),
{
    if s.len() == 0 || whitespace(s[0]) {
        0
    } else {
        1 + word_len(s.skip(1))
    }
}

proof fn lemma_word_len(s: Seq<char>, n: int)
    requires
        0 <= n <= s.len(),
        forall|i: int| 0 <= i < n ==> !whitespace(#[trigger] s[i]),
        n < s.len() ==> whitespace(s[n]),
    ensures
        word_len(s) == n,
    decreases n,
{
    if n > 0 {
        assert forall|i: int| 0 <= i < n - 1 implies !whitespace(#[trigger] s.skip(1)[i]) by {
            assert(s.skip(1)[i] == s[i + 1]);
        }
        lemma_word_len(s.skip(1), n - 1);
    }
}

/// The first run of characters that are not white space; empty if there is none.
pub open spec fn first_word(s: Seq<char>) -> Seq<char> {
    trim_start(s).take(word_len(trim_start(s)) as int)
}

/// What stands behind the first run of characters that are not white space.
pub open spec fn after_first_word(s: Seq<char>) -> Seq<char> {
    trim_start(s).skip(word_len(trim_start(s)) as int)
}

/// Split the first word off a text.
pub fn split_word(s: &[char]) -> (r: (Vec<char>, Vec<char>))
    ensures
        r.0@ == first_word(s@),
        r.1@ == after_first_word(s@),
{
    let mut start: usize = 0;
    assert(s@.skip(0) =~= s@);
    while start < s.len() && is_whitespace(s[start])
        invariant
            start <= s@.len(),
            trim_start(s@.skip(start as int)) == trim_start(s@),
        decreases s@.len() - start,
    {
        assert(s@.skip(start as int).skip(1) =~= s@.skip(start as int + 1));
        start = start + 1;
    }
    let ghost t = s@.skip(start as int);
    assert(trim_start(s@) == t);
    let mut end: usize = start;
    while end < s.len() && !is_whitespace(s[end])
        invariant
            start <= end <= s@.len(),
            t == s@.skip(start as int),
            forall|i: int| 0 <= i < end - start ==> !whitespace(#[trigger] t[i]),
        decreases s@.len() - end,
    {
        assert(t[end - start] == s@[end as int]);
        end = end + 1;
    }
    proof {
        assert(end < s@.len() ==> t[end - start] == s@[end as int]);
        lemma_word_len(t, end - start);
        assert(t.take(end - start) =~= s@.subrange(start as int, end as int));
        assert(t.skip(end - start) =~= s@.subrange(end as int, s@.len() as int));
    }
    (slice_to_vec(slice_subrange(s, start, end)), slice_to_vec(slice_subrange(s, end, s.len())))
}

/// The pieces in order, with `sep` between neighbours.
pub open spec fn join(parts: Seq<Seq<char>>, sep: Seq<char>) -> Seq<char>
    decreases parts.len(),
{
    if parts.len() == 0 {
        seq![]
    } else if parts.len() == 1 {
        parts[0]
    } else {
        parts[0] + sep + join(parts.drop_first(), sep)
    }
}

/// Joining one piece more at the end.
proof fn lemma_join_push(parts: Seq<Seq<char>>, sep: Seq<char>, last: Seq<char>)
    ensures
        join(parts.push(last), sep) == if parts.len() == 0 {
            last
        } else {
            join(parts, sep) + sep + last
        },
    decreases parts.len(),
{
    let all = parts.push(last);
    if parts.len() == 0 {
    } else {
        assert(all.drop_first() =~= parts.drop_first().push(last));
        lemma_join_push(parts.drop_first(), sep, last);
        assert(join(all, sep) == parts[0] + sep + join(parts.drop_first().push(last), sep));
        if parts.len() == 1 {
            assert(parts.drop_first().len() == 0);
        } else {
            assert(join(parts, sep) == parts[0] + sep + join(parts.drop_first(), sep));
            assert(parts[0] + sep + (join(parts.drop_first(), sep) + sep + last) =~= (parts[0] + sep
                + join(parts.drop_first(), sep)) + sep + last);
        }
    }
}

/// Joins strings, with `sep` between neighbours.
pub fn join_strings(parts: &[String], sep: &str) -> (r: String)
    ensures
        r@ == join(texts(parts@), sep@),
{
    let mut out = String::new();
    let mut i: usize = 0;
    while i < parts.len()
        invariant
            i <= parts.len(),
            out@ == join(texts(parts@).take(i as int), sep@),
        decreases parts.len() - i,
    {
        proof {
            lemma_join_push(texts(parts@).take(i as int), sep@, parts@[i as int]@);
            assert(texts(parts@).take(i as int + 1) =~= texts(parts@).take(i as int).push(
                parts@[i as int]@,
            ));
        }
        if i > 0 {
            out.append(sep);
        }
        out.append(parts[i].as_str());
        i += 1;
    }
    proof {
        assert(texts(parts@).take(i as int) =~= texts(parts@));
    }
    out
}

/// Texts without the separator are read back from their join.
pub proof fn join_then_split(parts: Seq<Seq<char>>, sep: char)
    requires
        parts.len() > 0,
        forall|i: int| 0 <= i < parts.len() ==> !(#[trigger] parts[i]).contains(sep),
    ensures
        split_on(join(parts, seq![sep]), sep) == parts,
    decreases parts.len(),
{
    let joined = join(parts, seq![sep]);
    if parts.len() == 1 {
        if exists|i: int| first_index_is(joined, sep, i) {
            let i = choose|i: int| first_index_is(joined, sep, i);
            assert(parts[0].contains(joined[i]));
        }
        assert(split_on(joined, sep) =~= parts);
    } else {
        let rest = parts.drop_first();
        let n = parts[0].len() as int;
        assert(joined == parts[0] + seq![sep] + join(rest, seq![sep]));
        assert(first_index_is(joined, sep, n)) by {
            assert forall|j: int| 0 <= j < n implies joined[j] != sep by {
                assert(joined[j] == parts[0][j]);
                assert(parts[0].contains(parts[0][j]));
            }
        }
        lemma_first_index_is(joined, sep, n);
        assert(joined.take(n) =~= parts[0]);
        assert(joined.skip(n + 1) =~= join(rest, seq![sep]));
        assert forall|i: int| 0 <= i < rest.len() implies !(#[trigger] rest[i]).contains(sep) by {
            assert(rest[i] == parts[i + 1]);
        }
        join_then_split(rest, sep);
        assert(seq![parts[0]] + rest =~= parts);
    }
}

// ── Numbers ───────────────────────────────────────────────────────────────────

/// `c` is an ASCII digit.
pub open spec fn digit(c: char) -> bool {
    '0' as u32 <= c as u32 <= '9' as u32
}

/// Whether `c` is an ASCII digit.
pub fn is_digit(c: char) -> (r: bool)
    ensures
        r == digit(c),
{
    let n: u32 = c as u32;
    48 <= n && n <= 57
}

/// The value of an ASCII digit.
pub open spec fn digit_value(c: char) -> nat {
    (c as u32 - '0' as u32) as nat
}

/// The ASCII digit of a value below ten.
pub open spec fn digit_char(n: nat) -> char {
    ('0' as u32 + n) as char
}

/// Every character is an ASCII digit.
pub open spec fn all_digits(s: Seq<char>) -> bool {
    forall|i: int| 0 <= i < s.len() ==> digit(#[trigger] s[i])
}

/// The number that a sequence of decimal digits spells.
pub open spec fn decimal(s: Seq<char>) -> nat
    decreases s.len(),
{
    if s.len() == 0 {
        0
    } else {
        decimal(s.drop_last()) * 10 + digit_value(s.last())
    }
}

/// The decimal digits of a number, without leading zeros.
pub open spec fn decimal_text(n: nat) -> Seq<char>
    decreases n,
{
    if n < 10 {
        seq![digit_char(n)]
    } else {
        decimal_text(n / 10).push(digit_char(n % 10))
    }
}

/// An unsigned decimal number of at most `max`: an optional `+`, then one digit or more.
pub open spec fn parse_decimal(s: Seq<char>, max: nat) -> Option<nat> {
    let digits = if s.len() > 0 && s[0] == '+' {
        s.drop_first()
    } else {
        s
    };
    if digits.len() > 0 && all_digits(digits) && decimal(digits) <= max {
        Some(decimal(digits))
    } else {
        None
    }
}

/// A longer run of digits spells no smaller number.
proof fn lemma_decimal_grows(s: Seq<char>, i: int)
    requires
        0 <= i <= s.len(),
    ensures
        decimal(s.take(i)) <= decimal(s),
    decreases s.len() - i,
{
    if i == s.len() {
        assert(s.take(i) =~= s);
    } else {
        lemma_decimal_grows(s, i + 1);
        assert(s.take(i + 1).drop_last() =~= s.take(i));
    }
}

/// An unsigned decimal number of at most `max`.
pub fn parse_number(s: &[char], max: u64) -> (r: Option<u64>)
    ensures
        match r {
            Some(n) => parse_decimal(s@, max as nat) == Some(n as nat),
            None => parse_decimal(s@, max as nat) is None,
        },
{
    let from: usize = if s.len() > 0 && s[0] == '+' {
        1
    } else {
        0
    };
    let digits = slice_subrange(s, from, s.len());
    proof {
        if from == 1 {
            assert(digits@ =~= s@.drop_first());
        } else {
            assert(digits@ =~= s@);
        }
    }
    if digits.len() == 0 {
        return None;
    }
    let mut n: u64 = 0;
    let mut i: usize = 0;
    while i < digits.len()
        invariant
            i <= digits.len(),
            n <= max,
            n as nat == decimal(digits@.take(i as int)),
            forall|j: int| 0 <= j < i ==> digit(#[trigger] digits@[j]),
            parse_decimal(s@, max as nat) == (if digits@.len() > 0 && all_digits(digits@)
                && decimal(digits@) <= max {
                Some(decimal(digits@))
            } else {
                None
            }),
        decreases digits.len() - i,
    {
        let c: char = digits[i];
        if !is_digit(c) {
            return None;
        }
        let d: u64 = ((c as u32) - 48) as u64;
        proof {
            assert(digits@.take(i as int + 1).drop_last() =~= digits@.take(i as int));
            lemma_decimal_grows(digits@, i as int + 1);
        }
        let wide: u128 = (n as u128) * 10 + (d as u128);
        if wide > max as u128 {
            return None;
        }
        n = wide as u64;
        i += 1;
    }
    proof {
        assert(digits@.take(i as int) =~= digits@);
    }
    Some(n)
}

/// The decimal digits of a number.
pub fn number_text(n: u64) -> (r: String)
    ensures
        r@ == decimal_text(n as nat),
    decreases n,
{
    let d: u8 = (n % 10) as u8;
    let c: char = (48 + d) as char;
    if n < 10 {
        let mut out = String::new();
        out.push(c);
        proof {
            assert(out@ =~= seq![digit_char(n as nat)]);
        }
        out
    } else {
        let mut out = number_text(n / 10);
        out.push(c);
        out
    }
}

/// Reading back the decimal digits of a number gives the number.
pub proof fn decimal_round_trip(n: nat)
    ensures
        decimal(decimal_text(n)) == n,
        all_digits(decimal_text(n)),
        decimal_text(n).len() > 0,
    decreases n,
{
    let s = decimal_text(n);
    if n < 10 {
        assert(s.drop_last() =~= seq![]);
        assert(decimal(seq![]) == 0);
    } else {
        decimal_round_trip(n / 10);
        assert(s.drop_last() =~= decimal_text(n / 10));
    }
}

/// A number is read back from its decimal text, if it is within the bound.
pub proof fn number_reads_back(n: nat, max: nat)
    requires
        n <= max,
    ensures
        parse_decimal(decimal_text(n), max) == Some(n),
{
    decimal_round_trip(n);
    let s = decimal_text(n);
    assert(digit(s[0]));
    assert(s[0] != '+');
}

// ── Laws ──────────────────────────────────────────────────────────────────────

/// Every item of `needle` stands in `hay`, from position `j` on.
pub open spec fn stands_at<T>(hay: Seq<T>, needle: Seq<T>, j: int) -> bool {
    forall|k: int| 0 <= k < needle.len() ==> hay[j + k] == #[trigger] needle[k]
}

/// What is found stands there, item by item, and nowhere before; what is not found stands nowhere.
pub proof fn found_is_the_first<T>(hay: Seq<T>, needle: Seq<T>)
    ensures
        match find(hay, needle) {
            Some(i) => 0 <= i && i + needle.len() <= hay.len() && stands_at(hay, needle, i) && (
            forall|j: int| 0 <= j < i ==> !(#[trigger] stands_at(hay, needle, j))),
            None => forall|j: int|
                0 <= j && j + needle.len() <= hay.len() ==> !(#[trigger] stands_at(hay, needle, j)),
        },
{
    match find(hay, needle) {
        Some(i) => {
            assert(first_occurs_at(hay, needle, i));
            assert forall|k: int| 0 <= k < needle.len() implies hay[i + k]
                == #[trigger] needle[k] by {
                assert(hay.subrange(i, i + needle.len())[k] == hay[i + k]);
            }
            assert forall|j: int| 0 <= j < i implies !(#[trigger] stands_at(hay, needle, j)) by {
                assert(!occurs_at(hay, needle, j));
                lemma_differs(hay, needle, j);
            }
        },
        None => {
            assert forall|j: int| 0 <= j && j + needle.len() <= hay.len() implies !(
            #[trigger] stands_at(hay, needle, j)) by {
                if occurs_at(hay, needle, j) {
                    lemma_found(hay, needle, j);
                }
                lemma_differs(hay, needle, j);
            }
        },
    }
}

proof fn lemma_differs<T>(hay: Seq<T>, needle: Seq<T>, j: int)
    requires
        0 <= j,
        j + needle.len() <= hay.len(),
        !occurs_at(hay, needle, j),
    ensures
        !stands_at(hay, needle, j),
{
    if stands_at(hay, needle, j) {
        assert(hay.subrange(j, j + needle.len()) =~= needle);
    }
}

proof fn lemma_found<T>(hay: Seq<T>, needle: Seq<T>, j: int)
    requires
        occurs_at(hay, needle, j),
    ensures
        find(hay, needle) is Some,
    decreases j,
{
    if exists|i: int| 0 <= i < j && occurs_at(hay, needle, i) {
        let i = choose|i: int| 0 <= i < j && occurs_at(hay, needle, i);
        lemma_found(hay, needle, i);
    } else {
        assert(first_occurs_at(hay, needle, j));
    }
}

/// Only the letters from A to Z change their case, each into the small letter of its place in the
/// alphabet.
pub proof fn only_capitals_are_lowered(c: char)
    ensures
        65 <= c as u32 <= 90 ==> lower(c) as u32 == c as u32 + 32,
        !(65 <= c as u32 <= 90) ==> lower(c) == c,
{
}

/// Trimming takes white space, all of it and nothing else, off both ends of a text.
pub proof fn trimming_takes_the_blanks(a: Seq<char>, s: Seq<char>, b: Seq<char>)
    requires
        forall|i: int| 0 <= i < a.len() ==> whitespace(#[trigger] a[i]),
        forall|i: int| 0 <= i < b.len() ==> whitespace(#[trigger] b[i]),
        s.len() > 0 ==> !whitespace(s[0]) && !whitespace(s.last()),
    ensures
        trim(a + s + b) == s,
{
    lemma_trim_start(a, s + b);
    assert(a + s + b =~= a + (s + b));
    if s.len() > 0 {
        assert(trim_start(s + b) == s + b);
        lemma_trim_end(s, b);
    } else {
        lemma_trim_start(b, Seq::empty());
        assert(s + b =~= b);
        assert(b + Seq::<char>::empty() =~= b);
        assert(trim_start(b) =~= Seq::empty());
        assert(s =~= Seq::empty());
    }
}

proof fn lemma_trim_start(a: Seq<char>, s: Seq<char>)
    requires
        forall|i: int| 0 <= i < a.len() ==> whitespace(#[trigger] a[i]),
    ensures
        trim_start(a + s) == trim_start(s),
    decreases a.len(),
{
    if a.len() == 0 {
        assert(a + s =~= s);
    } else {
        assert((a + s)[0] == a[0]);
        assert((a + s).drop_first() =~= a.drop_first() + s);
        lemma_trim_start(a.drop_first(), s);
    }
}

proof fn lemma_trim_end(s: Seq<char>, b: Seq<char>)
    requires
        forall|i: int| 0 <= i < b.len() ==> whitespace(#[trigger] b[i]),
    ensures
        trim_end(s + b) == trim_end(s),
    decreases b.len(),
{
    if b.len() == 0 {
        assert(s + b =~= s);
    } else {
        assert((s + b).last() == b.last());
        assert((s + b).drop_last() =~= s + b.drop_last());
        lemma_trim_end(s, b.drop_last());
    }
}

/// The characters that are taken off the ends of a text one by one.
pub proof fn trimming_takes_the_character(s: Seq<char>, c: char)
    ensures
        s.len() > 0 && s[0] != c ==> trim_start_char(s, c) == s,
        trim_start_char(seq![c] + s, c) == trim_start_char(s, c),
        s.len() > 0 && s.last() != c ==> trim_end_char(s, c) == s,
        trim_end_char(s.push(c), c) == trim_end_char(s, c),
        trim_start_char(Seq::empty(), c).len() == 0,
        trim_end_char(Seq::empty(), c).len() == 0,
{
    assert((seq![c] + s).drop_first() =~= s);
    assert(s.push(c).drop_last() =~= s);
}

/// A text is taken off the start of another as often as it stands there.
pub proof fn trimming_takes_the_text(s: Seq<char>, prefix: Seq<char>)
    requires
        prefix.len() > 0,
    ensures
        trim_start_text(prefix + s, prefix) == trim_start_text(s, prefix),
        !begins_with(s, prefix) ==> trim_start_text(s, prefix) == s,
{
    assert((prefix + s).take(prefix.len() as int) =~= prefix);
    assert((prefix + s).skip(prefix.len() as int) =~= s);
}

/// A text begins, and ends, with another exactly if it is that one with something behind it, or in
/// front of it.
pub proof fn ends_of_a_text<T>(s: Seq<T>, part: Seq<T>, rest: Seq<T>)
    ensures
        begins_with(part + rest, part),
        finishes_with(rest + part, part),
        begins_with(s, part) ==> s == part + s.skip(part.len() as int),
        finishes_with(s, part) ==> s == s.take(s.len() - part.len()) + part,
{
    assert((part + rest).take(part.len() as int) =~= part);
    assert((rest + part).skip((rest + part).len() - part.len()) =~= part);
    if begins_with(s, part) {
        assert(s =~= part + s.skip(part.len() as int));
    }
    if finishes_with(s, part) {
        assert(s =~= s.take(s.len() - part.len()) + part);
    }
}

/// The pieces of a text are what stands before the first separator, and the pieces of what stands
/// behind it.
pub proof fn pieces_are_taken_in_order(a: Seq<char>, b: Seq<char>, sep: char)
    requires
        !a.contains(sep),
    ensures
        split_on(a, sep) == seq![a],
        split_on(a + seq![sep] + b, sep) == seq![a] + split_on(b, sep),
{
    if exists|i: int| first_index_is(a, sep, i) {
        let i = choose|i: int| first_index_is(a, sep, i);
        assert(a.contains(a[i]));
    }
    let all = a + seq![sep] + b;
    let n = a.len() as int;
    assert(first_index_is(all, sep, n)) by {
        assert forall|j: int| 0 <= j < n implies all[j] != sep by {
            assert(a.contains(a[j]));
        }
    }
    lemma_first_index_is(all, sep, n);
    assert(all.take(n) =~= a);
    assert(all.skip(n + 1) =~= b);
}

/// The lines of a text are what stands before the first line end, and the lines of what stands
/// behind it.
pub proof fn lines_are_taken_in_order(a: Seq<char>, b: Seq<char>)
    requires
        !a.contains('\r'),
    ensures
        split_lines(a) == seq![a],
        split_lines(a + seq!['\r', '\n'] + b) == seq![a] + split_lines(b),
{
    if let Some(i) = find(a, crlf()) {
        assert(first_occurs_at(a, crlf(), i));
        assert(a.subrange(i, i + 2)[0] == a[i]);
        assert(a.contains(a[i]));
    }
    let all = a + seq!['\r', '\n'] + b;
    let n = a.len() as int;
    assert(all.subrange(n, n + 2) =~= crlf());
    assert forall|j: int| 0 <= j < n implies !occurs_at(all, crlf(), j) by {
        if occurs_at(all, crlf(), j) {
            assert(all.subrange(j, j + 2)[0] == all[j]);
            assert(all[j] == a[j]);
            assert(a.contains(a[j]));
        }
    }
    lemma_find_is(all, crlf(), n);
    assert(all.take(n) =~= a);
    assert(all.skip(n + 2) =~= b);
}

/// The first word of a text stands behind the blanks in front of it and ends before the next one.
pub proof fn first_word_is_the_first(blanks: Seq<char>, word: Seq<char>, rest: Seq<char>)
    requires
        forall|i: int| 0 <= i < blanks.len() ==> whitespace(#[trigger] blanks[i]),
        word.len() > 0,
        forall|i: int| 0 <= i < word.len() ==> !whitespace(#[trigger] word[i]),
        rest.len() > 0 ==> whitespace(rest[0]),
    ensures
        first_word(blanks + word + rest) == word,
        after_first_word(blanks + word + rest) == rest,
{
    let s = blanks + word + rest;
    let t = word + rest;
    assert(s =~= blanks + t);
    lemma_trim_start(blanks, t);
    assert(t[0] == word[0]);
    assert(trim_start(s) == t);
    assert forall|i: int| 0 <= i < word.len() implies !whitespace(#[trigger] t[i]) by {
        assert(t[i] == word[i]);
    }
    if rest.len() > 0 {
        assert(t[word.len() as int] == rest[0]);
    }
    lemma_word_len(t, word.len() as int);
    assert(t.take(word.len() as int) =~= word);
    assert(t.skip(word.len() as int) =~= rest);
}

/// Joining sets the separator between neighbours, and nothing else.
pub proof fn joining_sets_the_separator(
    first: Seq<char>,
    rest: Seq<Seq<char>>,
    sep: Seq<char>,
)
    ensures
        join(seq![first], sep) == first,
        rest.len() > 0 ==> join(seq![first] + rest, sep) == first + sep + join(rest, sep),
{
    assert((seq![first] + rest).drop_first() =~= rest);
}

/// Digits count by their place: each counts ten times what the same digit counts behind it.
pub proof fn digits_count_by_their_place(front: Seq<char>, c: char)
    requires
        48 <= c as u32 <= 57,
    ensures
        decimal(front.push(c)) == 10 * decimal(front) + (c as u32 - 48),
        decimal(Seq::empty()) == 0,
{
    assert(front.push(c).drop_last() =~= front);
}

/// A number is written with the digits from 0 to 9, the last of which is its remainder by ten, and
/// without a zero in front.
pub proof fn numbers_are_written_in_decimal(n: nat)
    ensures
        n < 10 ==> decimal_text(n).len() == 1 && decimal_text(n)[0] as u32 == 48 + n,
        n >= 10 ==> decimal_text(n).drop_last() == decimal_text(n / 10) && decimal_text(n).last() as u32
            == 48 + n % 10,
        n > 0 ==> decimal_text(n)[0] as u32 != 48,
    decreases n,
{
    if n >= 10 {
        numbers_are_written_in_decimal(n / 10);
        assert(decimal_text(n).drop_last() =~= decimal_text(n / 10));
        decimal_round_trip(n / 10);
        assert(decimal_text(n)[0] == decimal_text(n / 10)[0]);
    }
}

/// What is read as a number is digits, with a plus in front or none, and its value is within the
/// bound; digits within the bound are always read.
pub proof fn only_digits_are_read(s: Seq<char>, max: nat)
    ensures
        parse_decimal(s, max) matches Some(n) ==> n <= max,
        parse_decimal(s, max) is Some ==> s.len() > 0 && forall|i: int|
            0 <= i < s.len() ==> 48 <= (#[trigger] s[i]) as u32 <= 57 || (i == 0 && s[i] == '+'
                && s.len() > 1),
        s.len() > 0 && (forall|i: int| 0 <= i < s.len() ==> 48 <= (#[trigger] s[i]) as u32 <= 57)
            ==> parse_decimal(s, max) == (if decimal(s) <= max {
            Some(decimal(s))
        } else {
            None
        }) && parse_decimal(seq!['+'] + s, max) == parse_decimal(s, max),
{
    if parse_decimal(s, max) is Some {
        assert forall|i: int| 0 <= i < s.len() implies 48 <= (#[trigger] s[i]) as u32 <= 57 || (i
            == 0 && s[i] == '+' && s.len() > 1) by {
            if s[0] == '+' {
                if i > 0 {
                    assert(digit(s.drop_first()[i - 1]));
                }
            } else {
                assert(digit(s[i]));
            }
        }
    }
    if s.len() > 0 && (forall|i: int| 0 <= i < s.len() ==> 48 <= (#[trigger] s[i]) as u32 <= 57) {
        assert(48 <= s[0] as u32 <= 57);
        assert(s[0] != '+');
        assert((seq!['+'] + s).drop_first() =~= s);
    }
}

/// The lines of octets are what stands before the first line end, and the lines of what stands
/// behind it.
pub proof fn octet_lines_are_taken_in_order(a: Seq<u8>, b: Seq<u8>)
    requires
        !a.contains(13u8),
    ensures
        octet_lines(a) == seq![a],
        octet_lines(a + seq![13u8, 10] + b) == seq![a] + octet_lines(b),
{
    reveal_with_fuel(octet_lines, 1);
    if let Some(i) = find(a, line_end()) {
        assert(first_occurs_at(a, line_end(), i));
        assert(a.subrange(i, i + 2)[0] == a[i]);
        assert(a.contains(a[i]));
    }
    let all = a + seq![13u8, 10] + b;
    let n = a.len() as int;
    assert(all.subrange(n, n + 2) =~= line_end());
    assert forall|j: int| 0 <= j < n implies !occurs_at(all, line_end(), j) by {
        if occurs_at(all, line_end(), j) {
            assert(all.subrange(j, j + 2)[0] == all[j]);
            assert(all[j] == a[j]);
            assert(a.contains(a[j]));
        }
    }
    lemma_find_is(all, line_end(), n);
    assert(all.take(n) =~= a);
    assert(all.skip(n + 2) =~= b);
}

/// A text is lowered character by character.
pub proof fn every_character_is_lowered(s: Seq<char>, i: int)
    requires
        0 <= i < s.len(),
    ensures
        lower_text(s).len() == s.len(),
        65 <= s[i] as u32 <= 90 ==> lower_text(s)[i] as u32 == s[i] as u32 + 32,
        !(65 <= s[i] as u32 <= 90) ==> lower_text(s)[i] == s[i],
{
    only_capitals_are_lowered(s[i]);
}

} // verus!
