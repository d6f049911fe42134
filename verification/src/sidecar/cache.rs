//! Sessions that a sidecar has looked up lately.
use vstd::hash_map::StringHashMap;
use vstd::prelude::*;
use vstd::string::*;

use crate::model::session::{opt_session, ServiceSession, ServiceSessionView, SessionId};

verus! {

/// A session and the moment it was looked up, in nanoseconds of a monotonic clock. Its identity is
/// the one that it lies under.
struct Entry {
    record: ServiceSession,
    inserted: u128,
}

/// The nanoseconds from `inserted` to `now`; none if the clock did not move on.
pub open spec fn elapsed(inserted: u128, now: u128) -> int {
    if now >= inserted {
        now - inserted
    } else {
        0
    }
}

/// What was looked up at `inserted` still holds at `now` if less than `ttl_secs` seconds went by.
pub open spec fn fresh(inserted: u128, now: u128, ttl_secs: u64) -> bool {
    elapsed(inserted, now) < ttl_secs * 1_000_000_000
}

/// Sessions that were looked up, by their identity. Each holds for as long as `ttl_secs` says.
pub struct SessionCache {
    inner: StringHashMap<Entry>,
    ttl_secs: u64,
}

/// What a cache holds: the sessions with the moment each was looked up.
pub struct CacheView {
    pub entries: Map<Seq<char>, (ServiceSessionView, u128)>,
    pub ttl_secs: u64,
}

/// Every session lies under its own identity.
pub open spec fn well_kept(cache: CacheView) -> bool {
    forall|id: Seq<char>| #[trigger]
        cache.entries.contains_key(id) ==> cache.entries[id].0.session_id == id
}

/// The session that a cache gives for `id` at `now`.
pub open spec fn cached(cache: CacheView, id: Seq<char>, now: u128) -> Option<ServiceSessionView> {
    if cache.entries.contains_key(id) && fresh(cache.entries[id].1, now, cache.ttl_secs) {
        Some(cache.entries[id].0)
    } else {
        None
    }
}

impl View for SessionCache {
    type V = CacheView;

    closed spec fn view(&self) -> CacheView {
        CacheView {
            entries: Map::new(
                |id: Seq<char>| self.inner@.contains_key(id),
                |id: Seq<char>|
                    (
                        ServiceSessionView { session_id: id, ..self.inner@[id].record@ },
                        self.inner@[id].inserted,
                    ),
            ),
            ttl_secs: self.ttl_secs,
        }
    }
}

impl SessionCache {
    /// In every cache every session lies under its own identity.
    pub proof fn is_well_kept(&self)
        ensures
            well_kept(self@),
    {
    }

    /// A cache that holds nothing.
    pub fn new(ttl_secs: u64) -> (r: Self)
        ensures
            r@.entries == Map::<Seq<char>, (ServiceSessionView, u128)>::empty(),
            r@.ttl_secs == ttl_secs,
    {
        let r = SessionCache { inner: StringHashMap::new(), ttl_secs };
        assert(r@.entries =~= Map::<Seq<char>, (ServiceSessionView, u128)>::empty());
        r
    }

    /// Look up a session at `now`. One that has gone stale is dropped.
    pub fn get(&mut self, id: &SessionId, now: u128) -> (r: Option<ServiceSession>)
        ensures
            opt_session(r) == cached(old(self)@, id@, now),
            r matches Some(record) ==> record@.session_id == id@,
            final(self)@ == (CacheView {
                entries: if r is None {
                    old(self)@.entries.remove(id@)
                } else {
                    old(self)@.entries
                },
                ttl_secs: old(self)@.ttl_secs,
            }),
    {
        let mut stale = false;
        match self.inner.get(id.as_str()) {
            Some(e) => {
                let age: u128 = if now >= e.inserted {
                    now - e.inserted
                } else {
                    0
                };
                if age < (self.ttl_secs as u128) * 1_000_000_000 {
                    let mut record = e.record.clone();
                    record.session_id = id.clone();
                    return Some(record);
                }
                stale = true;
            },
            None => {
                assert(self@.entries =~= self@.entries.remove(id@));
            },
        }
        if stale {
            self.inner.remove(id.as_str());
            assert(self@.entries =~= old(self)@.entries.remove(id@));
        }
        None
    }

    /// Keep a session that was looked up at `now`.
    pub fn insert(&mut self, record: ServiceSession, now: u128)
        ensures
            final(self)@ == (CacheView {
                entries: old(self)@.entries.insert(record@.session_id, (record@, now)),
                ttl_secs: old(self)@.ttl_secs,
            }),
    {
        let key = record.session_id.to_string();
        self.inner.insert(key, Entry { record, inserted: now });
        assert(self@.entries =~= old(self)@.entries.insert(record@.session_id, (record@, now)));
    }
}

/// What was inserted is found until its time is up, and not after it.
pub proof fn insert_is_found_until_stale(
    before: CacheView,
    after: CacheView,
    record: ServiceSessionView,
    inserted: u128,
    now: u128,
)
    requires
        after.ttl_secs == before.ttl_secs,
        after.entries == before.entries.insert(record.session_id, (record, inserted)),
    ensures
        cached(after, record.session_id, now) == if fresh(inserted, now, before.ttl_secs) {
            Some(record)
        } else {
            None
        },
        forall|id: Seq<char>|
            id != record.session_id ==> #[trigger] cached(after, id, now) == cached(
                before,
                id,
                now,
            ),
{
}

/// A session that has gone stale stays so.
pub proof fn staleness_lasts(cache: CacheView, id: Seq<char>, now: u128, later: u128)
    requires
        now <= later,
        cached(cache, id, now) is None,
    ensures
        cached(cache, id, later) is None,
{
}

/// A session is given for as many whole seconds as the cache keeps sessions, and from then on not,
/// to the nanosecond.
pub proof fn session_is_kept_for_its_seconds(
    cache: CacheView,
    id: Seq<char>,
    waited: u128,
)
    requires
        cache.entries.contains_key(id),
        cache.entries[id].1 + waited <= u128::MAX,
    ensures
        cached(cache, id, (cache.entries[id].1 + waited) as u128) == (if waited < cache.ttl_secs
            * 1_000_000_000 {
            Some(cache.entries[id].0)
        } else {
            None
        }),
        cache.ttl_secs > 0 ==> cached(cache, id, cache.entries[id].1) == Some(cache.entries[id].0),
        cache.ttl_secs == 0 ==> cached(cache, id, cache.entries[id].1) is None,
{
}

} // verus!
