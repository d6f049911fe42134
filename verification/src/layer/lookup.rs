//! What the layer answers to host name lookups.
use vstd::prelude::*;
use vstd::string::*;
use vstd::utf8::*;

use crate::layer::fake_ip::{
    addresses_are_in_their_ranges, after_assign, be_bytes, big_endian, bytes_count_by_their_place,
    fake_ipv4, fake_ipv6, number_of, v4_of, v6_of, FakeIpTable,
};
use crate::layer::rules::{left_alone, should_passthrough_hostname};
use crate::text::{
    chars_of, decimal_text, number_reads_back, only_digits_are_read, opt_str, parse_decimal,
    parse_number,
};

verus! {

/// An address family.
#[derive(Debug, Clone, Copy, PartialEq, Eq, Structural)]
pub enum Family {
    /// None in particular.
    Any,
    V4,
    V6,
    /// One that the layer has no addresses for.
    Other,
}

// ── Which lookups are answered ────────────────────────────────────────────────

/// A lookup is answered by the layer: it names a host that is not left to the system, and asks for
/// addresses that the layer has.
pub open spec fn answered(
    hostname: Option<Seq<char>>,
    family: Family,
    patterns: Option<Seq<char>>,
    literal: bool,
) -> bool {
    match hostname {
        Some(host) => family != Family::Other && !left_alone(host, patterns, literal),
        None => false,
    }
}

/// Whether a lookup is answered by the layer. `hostname` is the name if it is given and is text;
/// `literal` says whether it spells an IP address.
pub fn answers_lookup(
    hostname: Option<&str>,
    family: Family,
    patterns: Option<&str>,
    literal: bool,
) -> (r: bool)
    ensures
        r == answered(opt_str(hostname), family, opt_str(patterns), literal),
{
    match hostname {
        None => false,
        Some(host) => family != Family::Other && !should_passthrough_hostname(
            host,
            patterns,
            literal,
        ),
    }
}

/// The address of a number in a family: four bytes or sixteen.
pub open spec fn fake_address(id: u32, family: Family) -> Option<Seq<u8>> {
    match family {
        Family::V4 => Some(big_endian(v4_of(id))),
        Family::V6 => Some(v6_of(id)),
        _ => None,
    }
}

/// Make the address of a number in a family.
pub fn populate(id: u32, family: Family) -> (r: Option<Vec<u8>>)
    ensures
        match fake_address(id, family) {
            Some(bytes) => r is Some && r->0@ == bytes,
            None => r is None,
        },
{
    match family {
        Family::V4 => Some(be_bytes(fake_ipv4(id))),
        Family::V6 => Some(fake_ipv6(id)),
        _ => None,
    }
}

// ── Answers in a buffer of the caller ─────────────────────────────────────────

/// Where the parts of an answer lie in the buffer of the caller: the name, the zero byte behind
/// it, the address, the empty list of aliases and the list of addresses.
pub struct Layout {
    pub name: usize,
    pub nul: usize,
    pub address: usize,
    pub aliases: usize,
    pub list: usize,
    pub end: usize,
}

/// The first multiple of `align` at or behind `offset`.
pub open spec fn aligned(offset: int, align: int) -> int {
    (offset + align - 1) / align * align
}

/// The layout of a name of `name_len` bytes with an address of `address_len` bytes, one part right
/// behind the other, pointers at multiples of their size.
pub open spec fn is_layout(
    layout: Layout,
    name_len: int,
    address_len: int,
    pointer: int,
) -> bool {
    &&& layout.name == 0
    &&& layout.nul == name_len
    &&& layout.address == name_len + 1
    &&& layout.aliases == aligned(name_len + 1 + address_len, pointer)
    &&& layout.list == layout.aliases + pointer
    &&& layout.end == layout.list + 2 * pointer
}

/// The number of bytes that an answer takes.
pub open spec fn answer_size(name_len: int, address_len: int, pointer: int) -> int {
    aligned(name_len + 1 + address_len, pointer) + 3 * pointer
}

/// Why there is no answer.
#[derive(Debug, Clone, Copy, PartialEq, Eq, Structural)]
pub enum LookupError {
    /// The call makes no sense: `EINVAL`.
    Invalid,
    /// The buffer is too small: `ERANGE`.
    Range,
}

/// The code of a failure that asking again does not mend.
pub const H_NO_RECOVERY: i32 = 3;

/// The code of a failure that asking again may mend.
pub const H_TRY_AGAIN: i32 = 2;

/// The answer to a lookup, or why there is none.
pub enum HostentAnswer {
    /// The name and the address, and where they go in the buffer.
    Found { layout: Layout, address: Vec<u8> },
    /// An error and the code that goes with it.
    Failed { error: LookupError, h_errno: i32 },
}

/// An answer with an address for a name of `name_len` bytes in a buffer of `buflen`.
pub open spec fn is_answer(
    r: HostentAnswer,
    address: Seq<u8>,
    name_len: int,
    buflen: int,
    pointer: int,
) -> bool {
    if answer_size(name_len, address.len() as int, pointer) <= buflen {
        &&& r matches HostentAnswer::Found { layout, address: bytes }
        &&& bytes@ == address
        &&& is_layout(layout, name_len, address.len() as int, pointer)
    } else {
        r == (HostentAnswer::Failed { error: LookupError::Range, h_errno: H_TRY_AGAIN })
    }
}

/// The offset of a part of `size` bytes that is to start at a multiple of `align`, behind
/// `offset`; none if it does not fit a buffer of `buflen` bytes.
pub open spec fn part_at(offset: int, align: int, size: int, buflen: int) -> Option<int> {
    if aligned(offset, align) + size <= buflen {
        Some(aligned(offset, align))
    } else {
        None
    }
}

proof fn lemma_aligned(offset: int, align: int)
    requires
        offset >= 0,
        align == 1 || align == 4 || align == 8,
    ensures
        offset <= aligned(offset, align) < offset + align,
        align == 1 ==> aligned(offset, align) == offset,
        aligned(offset, align) % align == 0,
        aligned(aligned(offset, align), align) == aligned(offset, align),
        aligned(aligned(offset, align) + align, align) == aligned(offset, align) + align,
{
}

/// Reserve a part in a buffer: its offset, and the offset behind it.
pub fn reserve(offset: usize, align: usize, size: usize, buflen: usize) -> (r: Option<
    (usize, usize),
>)
    requires
        offset <= buflen <= isize::MAX,
        align == 1 || align == 4 || align == 8,
    ensures
        match part_at(offset as int, align as int, size as int, buflen as int) {
            Some(start) => r is Some && r->0 == (start as usize, (start + size) as usize),
            None => r is None,
        },
        r matches Some((start, end)) ==> offset <= start && end == start + size && end <= buflen,
{
    proof {
        lemma_aligned(offset as int, align as int);
    }
    let start: usize = (offset + (align - 1)) / align * align;
    if start > buflen || size > buflen - start {
        return None;
    }
    Some((start, start + size))
}

/// Lay an answer out in a buffer of `buflen` bytes.
pub fn lay_out(name_len: usize, address_len: usize, buflen: usize, pointer: usize) -> (r: Option<
    Layout,
>)
    requires
        buflen <= isize::MAX,
        pointer == 4 || pointer == 8,
    ensures
        r is Some <==> answer_size(name_len as int, address_len as int, pointer as int) <= buflen,
        r matches Some(layout) ==> is_layout(
            layout,
            name_len as int,
            address_len as int,
            pointer as int,
        ) && layout.end <= buflen,
{
    proof {
        lemma_aligned(0, 1);
        lemma_aligned(name_len as int, 1);
        lemma_aligned(name_len + 1, 1);
        lemma_aligned(name_len + 1 + address_len, pointer as int);
    }
    let (name, behind_name) = match reserve(0, 1, name_len, buflen) {
        None => {
            return None;
        },
        Some(part) => part,
    };
    let (nul, behind_nul) = match reserve(behind_name, 1, 1, buflen) {
        None => {
            return None;
        },
        Some(part) => part,
    };
    let (address, behind_address) = match reserve(behind_nul, 1, address_len, buflen) {
        None => {
            return None;
        },
        Some(part) => part,
    };
    let (aliases, behind_aliases) = match reserve(behind_address, pointer, pointer, buflen) {
        None => {
            return None;
        },
        Some(part) => part,
    };
    let (list, end) = match reserve(behind_aliases, pointer, 2 * pointer, buflen) {
        None => {
            return None;
        },
        Some(part) => part,
    };
    Some(Layout { name, nul, address, aliases, list, end })
}

/// Answer a lookup in a buffer of the caller. `pointers` says that the caller gave a place for the
/// answer and a buffer; `pointer` is the size of a pointer. A host that is asked for gets a
/// number, unless the call makes no sense from the start.
pub fn fill_fake_hostent_result(
    table: &mut FakeIpTable,
    hostname: &str,
    family: Family,
    pointers: bool,
    buflen: usize,
    pointer: usize,
) -> (r: HostentAnswer)
    requires
        buflen <= isize::MAX,
        pointer == 4 || pointer == 8,
    ensures
        if !pointers {
            &&& r == (HostentAnswer::Failed {
                error: LookupError::Invalid,
                h_errno: H_NO_RECOVERY,
            })
            &&& final(table)@ == old(table)@
        } else {
            &&& final(table)@ == after_assign(old(table)@, hostname@)
            &&& match fake_address(number_of(old(table)@, hostname@), family) {
                Some(address) => is_answer(
                    r,
                    address,
                    encode_utf8(hostname@).len() as int,
                    buflen as int,
                    pointer as int,
                ),
                None => r == (HostentAnswer::Failed {
                    error: LookupError::Invalid,
                    h_errno: H_NO_RECOVERY,
                }),
            }
        },
{
    if !pointers {
        return HostentAnswer::Failed { error: LookupError::Invalid, h_errno: H_NO_RECOVERY };
    }
    let id = table.assign(hostname);
    let address = match populate(id, family) {
        None => {
            return HostentAnswer::Failed { error: LookupError::Invalid, h_errno: H_NO_RECOVERY };
        },
        Some(address) => address,
    };
    match lay_out(hostname.as_bytes().len(), address.len(), buflen, pointer) {
        Some(layout) => HostentAnswer::Found { layout, address },
        None => HostentAnswer::Failed { error: LookupError::Range, h_errno: H_TRY_AGAIN },
    }
}

/// The parts of an answer lie one behind the other in the buffer, and pointers lie at multiples of
/// their size.
pub proof fn layout_parts_do_not_overlap(
    layout: Layout,
    name_len: int,
    address_len: int,
    pointer: int,
)
    requires
        is_layout(layout, name_len, address_len, pointer),
        name_len >= 0,
        address_len >= 0,
        pointer == 4 || pointer == 8,
    ensures
        layout.name + name_len <= layout.nul,
        layout.nul + 1 <= layout.address,
        layout.address + address_len <= layout.aliases,
        layout.aliases + pointer <= layout.list,
        layout.list + 2 * pointer <= layout.end,
        layout.aliases as int % pointer == 0,
        layout.list as int % pointer == 0,
{
    lemma_aligned(name_len + 1 + address_len, pointer);
}

// ── Lists of addresses ────────────────────────────────────────────────────────

/// The families of the addresses that are made up for a lookup that failed: the one that was asked
/// for, or else both, IPv6 first.
pub open spec fn made_up(family: Family) -> Seq<Family> {
    match family {
        Family::V4 => seq![Family::V4],
        Family::V6 => seq![Family::V6],
        _ => seq![Family::V6, Family::V4],
    }
}

/// Decide which addresses to make up.
pub fn make_fake_addrinfo_list(family: Family) -> (r: Vec<Family>)
    ensures
        r@ == made_up(family),
{
    let r = match family {
        Family::V4 => vec![Family::V4],
        Family::V6 => vec![Family::V6],
        _ => vec![Family::V6, Family::V4],
    };
    assert(r@ =~= made_up(family));
    r
}

/// A hint that was given and is not zero, or else the default.
pub fn hinted(hint: Option<i32>, default: i32) -> (r: i32)
    ensures
        r == if hint is Some && hint->0 != 0 {
            hint->0
        } else {
            default
        },
{
    match hint {
        Some(hint) => if hint != 0 {
            hint
        } else {
            default
        },
        None => default,
    }
}

/// The port of a service.
#[derive(Debug, Clone, Copy, PartialEq, Eq, Structural)]
pub enum ServicePort {
    Port(u16),
    /// The system is to be asked for the service by its name.
    ByName,
}

/// What the name of a service says about its port: none or no text is port zero, a number is the
/// port itself.
pub open spec fn named_port(service: Option<Seq<char>>) -> ServicePort {
    match service {
        None => ServicePort::Port(0),
        Some(name) => match parse_decimal(name, u16::MAX as nat) {
            Some(port) => ServicePort::Port(port as u16),
            None => ServicePort::ByName,
        },
    }
}

/// Find the port of a service by its name, if it is given and is text.
pub fn service_port(service: Option<&str>) -> (r: ServicePort)
    ensures
        r == named_port(opt_str(service)),
{
    match service {
        None => ServicePort::Port(0),
        Some(name) => match parse_number(chars_of(name).as_slice(), u16::MAX as u64) {
            Some(port) => ServicePort::Port(port as u16),
            None => ServicePort::ByName,
        },
    }
}

// ── Laws ──────────────────────────────────────────────────────────────────────

/// The pointers of an answer stand at the next multiple of their size behind the address: there is
/// no earlier place for them, and nothing behind them is taken.
pub proof fn layout_is_tight(layout: Layout, name_len: int, address_len: int, pointer: int)
    requires
        is_layout(layout, name_len, address_len, pointer),
        name_len >= 0,
        address_len >= 0,
        pointer == 4 || pointer == 8,
    ensures
        layout.aliases < name_len + 1 + address_len + pointer,
        layout.aliases >= name_len + 1 + address_len,
        layout.end == layout.aliases + 3 * pointer,
        layout.end == answer_size(name_len, address_len, pointer),
{
    lemma_aligned(name_len + 1 + address_len, pointer);
}

/// A buffer for an answer is large enough exactly if the parts fit one behind the other, with the
/// bytes that are left out before the pointers.
pub proof fn answers_fit_their_buffer(name_len: int, address_len: int, gap: int, pointer: int)
    requires
        name_len >= 0,
        address_len >= 0,
        pointer == 4 || pointer == 8,
        0 <= gap < pointer,
        (name_len + 1 + address_len + gap) % pointer == 0,
    ensures
        answer_size(name_len, address_len, pointer) == name_len + 1 + address_len + gap + 3 * pointer,
{
    let offset = name_len + 1 + address_len;
    lemma_aligned(offset, pointer);
    if pointer == 4 {
        assert(aligned(offset, 4) == offset + gap);
    } else {
        assert(aligned(offset, 8) == offset + gap);
    }
}

/// A part is put at the first place behind the ones before it where it may start, if it fits there.
pub proof fn parts_are_put_at_the_first_place(offset: int, align: int, size: int, buflen: int)
    requires
        offset >= 0,
        align == 1 || align == 4 || align == 8,
    ensures
        match part_at(offset, align, size, buflen) {
            Some(start) => offset <= start < offset + align && start % align == 0 && start + size
                <= buflen,
            None => forall|start: int|
                offset <= start && #[trigger] (start % align) == 0 ==> start + size > buflen,
        },
{
    lemma_aligned(offset, align);
    assert forall|start: int| offset <= start && #[trigger] (start % align) == 0 implies start
        >= aligned(offset, align) by {
        if start < aligned(offset, align) {
            if align == 4 {
                assert(start % 4 == 0 && aligned(offset, 4) % 4 == 0);
            } else if align == 8 {
                assert(start % 8 == 0 && aligned(offset, 8) % 8 == 0);
            }
        }
    }
}

/// A lookup is answered with an address of the family that was asked for: four bytes that count to
/// an address of the reserved range, or sixteen. Nothing else is made up.
pub proof fn answers_are_of_their_family(id: u32, family: Family)
    ensures
        fake_address(id, Family::V4) matches Some(ip) && ip.len() == 4 && ip[0] == 198 && (ip[1] == 18
            || ip[1] == 19),
        fake_address(id, Family::V6) == Some(v6_of(id)),
        fake_address(id, family) is Some <==> family == Family::V4 || family == Family::V6,
        made_up(family).contains(Family::V4) <==> family != Family::V6,
        made_up(family).contains(Family::V6) <==> family != Family::V4,
        made_up(Family::Any).len() == 2 && made_up(Family::Any)[0] == Family::V6,
        family == Family::V4 || family == Family::V6 ==> made_up(family).len() == 1,
{
    addresses_are_in_their_ranges(id);
    bytes_count_by_their_place(v4_of(id));
    assert(made_up(Family::Any)[0] == Family::V6 && made_up(Family::Any)[1] == Family::V4);
    assert(made_up(Family::Other)[0] == Family::V6 && made_up(Family::Other)[1] == Family::V4);
    assert(made_up(Family::V4)[0] == Family::V4);
    assert(made_up(Family::V6)[0] == Family::V6);
}

/// A service that is a number is that port; no service is port zero; any other is asked for.
pub proof fn numbered_services_are_ports(port: u16, name: Seq<char>)
    ensures
        named_port(Some(decimal_text(port as nat))) == ServicePort::Port(port),
        named_port(None) == ServicePort::Port(0),
        (name.len() == 0 || (name[0] != '+' && !(48 <= name[0] as u32 <= 57))) ==> named_port(
            Some(name),
        ) == ServicePort::ByName,
{
    number_reads_back(port as nat, 65535);
    only_digits_are_read(name, 65535);
}

/// A lookup without a name, or in a family that the layer does not know, is left to the system.
pub proof fn only_known_lookups_are_answered(
    host: Seq<char>,
    family: Family,
    patterns: Option<Seq<char>>,
    literal: bool,
)
    ensures
        !answered(None, family, patterns, literal),
        !answered(Some(host), Family::Other, patterns, literal),
        !answered(Some(host), family, patterns, true),
        family != Family::Other ==> (answered(Some(host), family, patterns, false)
            <==> !left_alone(host, patterns, false)),
{
}

/// An answer that fits its buffer holds the address; one that does not says that the buffer is too
/// small.
pub proof fn answers_hold_the_address(
    answer: HostentAnswer,
    address: Seq<u8>,
    name_len: int,
    buflen: int,
    pointer: int,
)
    requires
        is_answer(answer, address, name_len, buflen, pointer),
    ensures
        answer_size(name_len, address.len() as int, pointer) <= buflen ==> (answer matches
            HostentAnswer::Found { layout, address: bytes } && bytes@ == address && layout.end
            <= buflen && layout.address == name_len + 1 && layout.nul == name_len),
        answer_size(name_len, address.len() as int, pointer) > buflen ==> (answer matches
            HostentAnswer::Failed { error, h_errno } && error == LookupError::Range && h_errno == 2),
{
}

} // verus!
