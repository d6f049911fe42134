//! Host names behind addresses that are never routed.
//!
//! 198.18.0.0/15 and 2001:db8:de70::/96 are reserved for benchmarks and documentation. A name that
//! is looked up gets a number, and the number an address in both ranges, so that the name can be
//! told from the address when a connection is made.
use std::collections::HashMap;

use vstd::hash_map::StringHashMap;
use vstd::prelude::*;
use vstd::string::*;

use crate::text::opt_text;

verus! {

broadcast use vstd::std_specs::hash::group_hash_axioms;

/// The first address of 198.18.0.0/15, as a number.
pub const FAKE_V4_BASE: u32 = 3323068416;

/// The number of addresses in a /15.
pub const FAKE_V4_COUNT: u32 = 131072;

/// The first twelve bytes of the addresses in 2001:db8:de70::/96.
pub open spec fn fake_v6_prefix() -> Seq<u8> {
    seq![0x20u8, 0x01, 0x0d, 0xb8, 0xde, 0x70, 0, 0, 0, 0, 0, 0]
}

/// The bytes of a number, the most significant one first.
pub open spec fn big_endian(n: u32) -> Seq<u8> {
    seq![
        (n / 0x100_0000) as u8,
        (n / 0x1_0000 % 0x100) as u8,
        (n / 0x100 % 0x100) as u8,
        (n % 0x100) as u8,
    ]
}

/// The number that four bytes make, the most significant one first.
pub open spec fn from_big_endian(b: Seq<u8>) -> u32 {
    (b[0] * 0x100_0000 + b[1] * 0x1_0000 + b[2] * 0x100 + b[3]) as u32
}

/// The IPv4 address of a number: of a number the lower 17 bits count.
pub open spec fn v4_of(id: u32) -> u32 {
    (FAKE_V4_BASE + id % FAKE_V4_COUNT) as u32
}

/// The IPv6 address of a number.
pub open spec fn v6_of(id: u32) -> Seq<u8> {
    fake_v6_prefix() + big_endian(id)
}

/// The bytes of a number.
pub fn be_bytes(n: u32) -> (r: Vec<u8>)
    ensures
        r@ == big_endian(n),
{
    let r: Vec<u8> = vec![
        (n / 0x100_0000) as u8,
        (n / 0x1_0000 % 0x100) as u8,
        (n / 0x100 % 0x100) as u8,
        (n % 0x100) as u8,
    ];
    assert(r@ =~= big_endian(n));
    r
}

/// The IPv4 address of a number.
pub fn fake_ipv4(id: u32) -> (r: u32)
    ensures
        r == v4_of(id),
{
    FAKE_V4_BASE + id % FAKE_V4_COUNT
}

/// The IPv6 address of a number.
pub fn fake_ipv6(id: u32) -> (r: Vec<u8>)
    ensures
        r@ == v6_of(id),
        r@.len() == 16,
{
    let mut ip: Vec<u8> = vec![0x20, 0x01, 0x0d, 0xb8, 0xde, 0x70, 0, 0, 0, 0, 0, 0];
    assert(ip@ =~= fake_v6_prefix());
    let mut tail = be_bytes(id);
    ip.append(&mut tail);
    ip
}

/// The numbers of host names.
pub struct FakeIpTable {
    next: u32,
    host_to_id: StringHashMap<u32>,
    id_to_host: HashMap<u32, String>,
}

/// What a [`FakeIpTable`] holds.
pub struct TableView {
    pub next: u32,
    pub host_to_id: Map<Seq<char>, u32>,
    pub id_to_host: Map<u32, Seq<char>>,
}

impl View for FakeIpTable {
    type V = TableView;

    closed spec fn view(&self) -> TableView {
        TableView {
            next: self.next,
            host_to_id: self.host_to_id@,
            id_to_host: self.id_to_host@.map_values(|s: String| s@),
        }
    }
}

/// The number of a host: the one that it has, or else the next one.
pub open spec fn number_of(table: TableView, host: Seq<char>) -> u32 {
    if table.host_to_id.contains_key(host) {
        table.host_to_id[host]
    } else {
        table.next
    }
}

/// A table once a host has been given a number.
pub open spec fn after_assign(table: TableView, host: Seq<char>) -> TableView {
    if table.host_to_id.contains_key(host) {
        table
    } else {
        TableView {
            next: if table.next == u32::MAX {
                0
            } else {
                (table.next + 1) as u32
            },
            host_to_id: table.host_to_id.insert(host, table.next),
            id_to_host: table.id_to_host.insert(table.next, host),
        }
    }
}

/// The host of a number.
pub open spec fn host_of(table: TableView, id: u32) -> Option<Seq<char>> {
    if table.id_to_host.contains_key(id) {
        Some(table.id_to_host[id])
    } else {
        None
    }
}

/// The host behind an IPv4 address.
pub open spec fn host_behind_v4(table: TableView, ip: u32) -> Option<Seq<char>> {
    if FAKE_V4_BASE <= ip < FAKE_V4_BASE + FAKE_V4_COUNT {
        host_of(table, (ip - FAKE_V4_BASE) as u32)
    } else {
        None
    }
}

/// The host behind an IPv6 address.
pub open spec fn host_behind_v6(table: TableView, ip: Seq<u8>) -> Option<Seq<char>> {
    if ip.take(12) == fake_v6_prefix() {
        host_of(table, from_big_endian(ip.skip(12)))
    } else {
        None
    }
}

impl FakeIpTable {
    /// A table without hosts.
    pub fn new() -> (r: Self)
        ensures
            r@ == (TableView { next: 1, host_to_id: Map::empty(), id_to_host: Map::empty() }),
    {
        let r = FakeIpTable {
            next: 1,
            host_to_id: StringHashMap::new(),
            id_to_host: HashMap::new(),
        };
        assert(r@.id_to_host =~= Map::empty());
        r
    }

    /// The number of a host, which gets one if it has none.
    pub fn assign(&mut self, host: &str) -> (r: u32)
        ensures
            r == number_of(old(self)@, host@),
            final(self)@ == after_assign(old(self)@, host@),
    {
        if let Some(id) = self.host_to_id.get(host) {
            return *id;
        }
        let id: u32 = self.next;
        self.next = self.next.wrapping_add(1);
        self.host_to_id.insert(host.to_string(), id);
        self.id_to_host.insert(id, host.to_string());
        assert(self@.id_to_host =~= after_assign(old(self)@, host@).id_to_host);
        assert(self@.host_to_id =~= after_assign(old(self)@, host@).host_to_id);
        id
    }

    fn host(&self, id: u32) -> (r: Option<String>)
        ensures
            opt_text(r) == host_of(self@, id),
    {
        match self.id_to_host.get(&id) {
            Some(host) => Some(host.clone()),
            None => None,
        }
    }

    /// The host behind an IPv4 address.
    pub fn lookup_v4(&self, ip: u32) -> (r: Option<String>)
        ensures
            opt_text(r) == host_behind_v4(self@, ip),
    {
        if FAKE_V4_BASE <= ip && ip - FAKE_V4_BASE < FAKE_V4_COUNT {
            self.host(ip - FAKE_V4_BASE)
        } else {
            None
        }
    }

    /// The host behind an IPv6 address.
    pub fn lookup_v6(&self, ip: &[u8]) -> (r: Option<String>)
        requires
            ip@.len() == 16,
        ensures
            opt_text(r) == host_behind_v6(self@, ip@),
    {
        let fake = ip[0] == 0x20 && ip[1] == 0x01 && ip[2] == 0x0d && ip[3] == 0xb8 && ip[4] == 0xde
            && ip[5] == 0x70 && ip[6] == 0 && ip[7] == 0 && ip[8] == 0 && ip[9] == 0 && ip[10] == 0
            && ip[11] == 0;
        proof {
            let front = ip@.take(12);
            assert forall|i: int| 0 <= i < 12 implies front[i] == ip@[i] by {
            }
            if fake {
                assert(front =~= fake_v6_prefix());
            }
            if front == fake_v6_prefix() {
                assert(front[0] == 0x20 && front[1] == 0x01 && front[2] == 0x0d && front[3] == 0xb8
                    && front[4] == 0xde && front[5] == 0x70 && front[6] == 0 && front[7] == 0
                    && front[8] == 0 && front[9] == 0 && front[10] == 0 && front[11] == 0);
            }
        }
        if fake {
            let id: u32 = (ip[12] as u32) * 0x100_0000 + (ip[13] as u32) * 0x1_0000 + (
            ip[14] as u32) * 0x100 + ip[15] as u32;
            self.host(id)
        } else {
            None
        }
    }
}

// ── Laws ──────────────────────────────────────────────────────────────────────

/// The number of every host leads back to it.
pub open spec fn leads_back(table: TableView) -> bool {
    forall|host: Seq<char>| #[trigger]
        table.host_to_id.contains_key(host) ==> host_of(table, table.host_to_id[host]) == Some(host)
}

/// A number that was given out before `next`. Numbers are given out from one on; behind the largest
/// one comes zero.
pub open spec fn given_before(id: u32, next: u32) -> bool {
    0 < id && (next == 0 || id < next)
}

/// Every number in a table was given out before the next one, and leads back to its host.
pub open spec fn consistent(table: TableView) -> bool {
    &&& leads_back(table)
    &&& forall|host: Seq<char>| #[trigger]
        table.host_to_id.contains_key(host) ==> given_before(table.host_to_id[host], table.next)
    &&& forall|id: u32| #[trigger]
        table.id_to_host.contains_key(id) ==> given_before(id, table.next)
}

/// A table is consistent from the start and stays so up to the largest number; the host that gets
/// zero, the last number of all, still takes none away from another.
pub proof fn table_stays_consistent(table: TableView, host: Seq<char>)
    ensures
        consistent(TableView { next: 1, host_to_id: Map::empty(), id_to_host: Map::empty() }),
        consistent(table) && table.next != 0 ==> consistent(after_assign(table, host)),
        consistent(table) ==> leads_back(after_assign(table, host)),
{
    let after = after_assign(table, host);
    if consistent(table) && !table.host_to_id.contains_key(host) {
        assert forall|h: Seq<char>| #[trigger] after.host_to_id.contains_key(h) implies host_of(
            after,
            after.host_to_id[h],
        ) == Some(h) by {
            if h != host {
                assert(table.host_to_id.contains_key(h));
                assert(host_of(table, table.host_to_id[h]) == Some(h));
            }
        }
        if table.next != 0 {
            assert forall|h: Seq<char>| #[trigger] after.host_to_id.contains_key(h) implies
                given_before(after.host_to_id[h], after.next) by {
                if h != host {
                    assert(table.host_to_id.contains_key(h));
                }
            }
            assert forall|id: u32| #[trigger] after.id_to_host.contains_key(id) implies
                given_before(id, after.next) by {
                if id != table.next {
                    assert(table.id_to_host.contains_key(id));
                }
            }
        }
    }
}

proof fn lemma_big_endian(n: u32)
    ensures
        from_big_endian(big_endian(n)) == n,
{
    let a = n as int / 0x100_0000;
    let b = n as int / 0x1_0000 % 0x100;
    let c = n as int / 0x100 % 0x100;
    let d = n as int % 0x100;
    assert(0 <= a < 0x100);
    assert(n as int == a * 0x100_0000 + b * 0x1_0000 + c * 0x100 + d);
}

/// A host is told from the addresses that were made up for it: from the IPv6 address always, from
/// the IPv4 address while its number fits the range.
pub proof fn fake_addresses_lead_back(table: TableView, host: Seq<char>)
    requires
        consistent(table),
    ensures
        host_behind_v6(after_assign(table, host), v6_of(number_of(table, host))) == Some(host),
        number_of(table, host) < FAKE_V4_COUNT ==> host_behind_v4(
            after_assign(table, host),
            v4_of(number_of(table, host)),
        ) == Some(host),
{
    let id = number_of(table, host);
    let after = after_assign(table, host);
    assert(host_of(after, id) == Some(host)) by {
        if table.host_to_id.contains_key(host) {
            assert(host_of(table, table.host_to_id[host]) == Some(host));
        }
    }
    lemma_big_endian(id);
    assert(v6_of(id).take(12) =~= fake_v6_prefix());
    assert(v6_of(id).skip(12) =~= big_endian(id));
}

/// A host keeps its number, and no other host has it.
pub proof fn numbers_are_kept_and_distinct(table: TableView, a: Seq<char>, b: Seq<char>)
    requires
        consistent(table),
        table.host_to_id.contains_key(a),
        a != b,
    ensures
        number_of(after_assign(table, b), a) == number_of(table, a),
        number_of(table, b) != number_of(table, a),
{
    assert(host_of(table, table.host_to_id[a]) == Some(a));
    if table.host_to_id.contains_key(b) {
        assert(host_of(table, table.host_to_id[b]) == Some(b));
    }
}

/// What has an address outside the two ranges is no host of the table.
pub proof fn real_addresses_are_not_fake(table: TableView, ip: u32)
    requires
        ip < FAKE_V4_BASE || ip >= FAKE_V4_BASE + FAKE_V4_COUNT,
    ensures
        host_behind_v4(table, ip) is None,
{
}

/// The bytes of a number count by their place, the first one most.
pub proof fn bytes_count_by_their_place(n: u32)
    ensures
        big_endian(n).len() == 4,
        n == big_endian(n)[0] * 16777216 + big_endian(n)[1] * 65536 + big_endian(n)[2] * 256
            + big_endian(n)[3],
{
    lemma_big_endian(n);
    let a = n as int / 0x100_0000;
    let b = n as int / 0x1_0000 % 0x100;
    let c = n as int / 0x100 % 0x100;
    let d = n as int % 0x100;
    assert(0 <= a < 0x100);
    assert(n as int == a * 0x100_0000 + b * 0x1_0000 + c * 0x100 + d);
}

/// Every number has its addresses in the two ranges: an IPv4 address that begins with 198.18 or
/// 198.19, and an IPv6 address that begins with 2001:db8:de70 and six zero bytes. The number is
/// what stands behind that, as far as there is room.
pub proof fn addresses_are_in_their_ranges(id: u32)
    ensures
        v4_of(id) / 65536 == 198 * 256 + 18 || v4_of(id) / 65536 == 198 * 256 + 19,
        id < 131072 ==> v4_of(id) == (198 * 256 + 18) * 65536 + id,
        v6_of(id).len() == 16,
        v6_of(id)[0] == 0x20 && v6_of(id)[1] == 0x01 && v6_of(id)[2] == 0x0d && v6_of(id)[3] == 0xb8
            && v6_of(id)[4] == 0xde && v6_of(id)[5] == 0x70,
        forall|i: int| 6 <= i < 12 ==> #[trigger] v6_of(id)[i] == 0,
        id == v6_of(id)[12] * 16777216 + v6_of(id)[13] * 65536 + v6_of(id)[14] * 256 + v6_of(id)[15],
{
    bytes_count_by_their_place(id);
    let tail = big_endian(id);
    assert(v6_of(id)[12] == tail[0] && v6_of(id)[13] == tail[1] && v6_of(id)[14] == tail[2]
        && v6_of(id)[15] == tail[3]);
}

/// Hosts are numbered from one on, each with the number behind the last one.
pub proof fn hosts_are_numbered_in_order(table: TableView, a: Seq<char>, b: Seq<char>)
    requires
        !table.host_to_id.contains_key(a),
        !table.host_to_id.contains_key(b),
        a != b,
        table.next < u32::MAX,
    ensures
        number_of(after_assign(table, a), a) == number_of(table, a),
        number_of(after_assign(table, a), b) == number_of(table, a) + 1,
        host_of(after_assign(table, a), number_of(table, a)) == Some(a),
        host_of(after_assign(after_assign(table, a), b), (number_of(table, a) + 1) as u32) == Some(
            b,
        ),
{
}

/// An IPv6 address outside the range leads to no host, and one inside leads to the host of the
/// number that its last four bytes make.
pub proof fn v6_addresses_lead_by_their_number(table: TableView, ip: Seq<u8>, id: u32)
    requires
        ip.len() == 16,
    ensures
        host_behind_v6(table, v6_of(id)) == (if table.id_to_host.contains_key(id) {
            Some(table.id_to_host[id])
        } else {
            None
        }),
        (exists|i: int| 0 <= i < 12 && #[trigger] ip[i] != v6_of(id)[i]) ==> host_behind_v6(
            table,
            ip,
        ) is None,
        id < 131072 ==> host_behind_v4(table, ((198 * 256 + 18) * 65536 + id) as u32) == (
        if table.id_to_host.contains_key(id) {
            Some(table.id_to_host[id])
        } else {
            None
        }),
{
    lemma_big_endian(id);
    assert(v6_of(id).take(12) =~= fake_v6_prefix());
    assert(v6_of(id).skip(12) =~= big_endian(id));
    if exists|i: int| 0 <= i < 12 && #[trigger] ip[i] != v6_of(id)[i] {
        let i = choose|i: int| 0 <= i < 12 && #[trigger] ip[i] != v6_of(id)[i];
        assert(ip.take(12)[i] == ip[i]);
        assert(fake_v6_prefix()[i] == v6_of(id)[i]);
    }
}

/// Numbers that differ by the size of the IPv4 range share their IPv4 address, and behind the largest
/// number comes zero.
pub proof fn numbers_wrap_around(id: u32, table: TableView, host: Seq<char>)
    requires
        id <= u32::MAX - 131072,
        !table.host_to_id.contains_key(host),
    ensures
        v4_of((id + 131072) as u32) == v4_of(id),
        table.next == u32::MAX ==> after_assign(table, host).next == 0,
        table.next < u32::MAX ==> after_assign(table, host).next == table.next + 1,
{
}

} // verus!
