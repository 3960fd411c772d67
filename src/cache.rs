//! A short-lived store of ETAs keyed by (stop, route).
//!
//! An entry is stamped with the time at which it was stored and is served
//! only while its age is under the time-to-live. Stale entries are ignored,
//! not removed; storing a key again replaces its entry.
use vstd::prelude::*;

verus! {

/// Time-to-live of a cached ETA, in milliseconds.
pub const CACHE_TTL_MS: u64 = 1000;

/// An ETA with the time, in milliseconds since the epoch, at which it was stored.
#[derive(Clone, Copy, Debug, PartialEq, Eq, Structural)]
pub struct CacheItem {
    pub eta: i32,
    pub timestamp: u64,
}

impl CacheItem {
    /// An item for `eta`, stamped with the time `now`.
    pub fn new(eta: i32, now: u64) -> (r: CacheItem)
        ensures
            r == (CacheItem { eta, timestamp: now }),
    {
        CacheItem { eta, timestamp: now }
    }
}

/// What identifies a cached ETA: the stop and the route.
#[derive(Clone, Debug)]
pub struct CacheKey {
    pub stop: String,
    pub route: String,
}

impl View for CacheKey {
    type V = (Seq<char>, Seq<char>);

    open spec fn view(&self) -> Self::V {
        (self.stop@, self.route@)
    }
}

/// The key of the ETA of `route` at `stop`.
pub fn cache_key(stop: &str, route: &str) -> (k: CacheKey)
    ensures
        k@ == (stop@, route@),
{
    CacheKey { stop: String::from_str(stop), route: String::from_str(route) }
}

fn same_key(a: &CacheKey, b: &CacheKey) -> (r: bool)
    ensures
        r == (a@ == b@),
{
    a.stop == b.stop && a.route == b.route
}

/// An item is fresh at `now` while its age is under `ttl`.
pub open spec fn fresh(item: CacheItem, now: int, ttl: int) -> bool {
    now - item.timestamp < ttl
}

/// ETAs by (stop, route), each with the time at which it was stored.
pub struct EtaCache {
    entries: Vec<(CacheKey, CacheItem)>,
    cache_ttl: u64,
    model: Ghost<Map<(Seq<char>, Seq<char>), CacheItem>>,
}

impl View for EtaCache {
    type V = Map<(Seq<char>, Seq<char>), CacheItem>;

    closed spec fn view(&self) -> Self::V {
        self.model@
    }
}

impl EtaCache {
    /// The time-to-live of the cache's entries.
    pub closed spec fn ttl(&self) -> u64 {
        self.cache_ttl
    }

    closed spec fn key_at(&self, i: int) -> (Seq<char>, Seq<char>) {
        self.entries@[i].0@
    }

    /// One entry per key, and the entries are exactly the view's pairs.
    pub closed spec fn wf(&self) -> bool {
        &&& forall|i: int, j: int|
            0 <= i < j < self.entries@.len() ==> #[trigger] self.key_at(i) != #[trigger] self.key_at(j)
        &&& forall|i: int|
            0 <= i < self.entries@.len() ==> self.model@.contains_key(#[trigger] self.key_at(i))
                && self.model@[self.key_at(i)] == self.entries@[i].1
        &&& forall|k: (Seq<char>, Seq<char>)|
            #[trigger] self.model@.contains_key(k) ==> exists|i: int|
                0 <= i < self.entries@.len() && #[trigger] self.key_at(i) == k
    }

    /// What a lookup of `k` at `now` returns: the stored ETA while it is fresh.
    pub open spec fn lookup_spec(&self, k: (Seq<char>, Seq<char>), now: int) -> Option<i32> {
        if self@.contains_key(k) && fresh(self@[k], now, self.ttl() as int) {
            Some(self@[k].eta)
        } else {
            None
        }
    }

    /// An empty cache whose entries live `CACHE_TTL_MS` milliseconds.
    pub fn new() -> (r: EtaCache)
        ensures
            r.wf(),
            r@ == Map::<(Seq<char>, Seq<char>), CacheItem>::empty(),
            r.ttl() == CACHE_TTL_MS,
    {
        EtaCache { entries: Vec::new(), cache_ttl: CACHE_TTL_MS, model: Ghost(Map::empty()) }
    }

    fn position(&self, key: &CacheKey) -> (r: Option<usize>)
        requires
            self.wf(),
        ensures
            match r {
                Some(i) => i < self.entries@.len() && self.key_at(i as int) == key@,
                None => !self@.contains_key(key@),
            },
    {
        let mut i: usize = 0;
        while i < self.entries.len()
            invariant
                self.wf(),
                i <= self.entries@.len(),
                forall|j: int| 0 <= j < i ==> #[trigger] self.key_at(j) != key@,
            decreases self.entries.len() - i,
        {
            if same_key(&self.entries[i].0, key) {
                return Some(i);
            }
            i += 1;
        }
        None
    }

    /// The item stored under `key`, fresh or not.
    pub fn get(&self, key: &CacheKey) -> (r: Option<CacheItem>)
        requires
            self.wf(),
        ensures
            r == (if self@.contains_key(key@) {
                Some(self@[key@])
            } else {
                None::<CacheItem>
            }),
    {
        match self.position(key) {
            Some(i) => Some(self.entries[i].1),
            None => None,
        }
    }

    /// Stores `eta` under `key`, stamped `now`, replacing any earlier entry.
    pub fn set(&mut self, key: CacheKey, eta: i32, now: u64)
        requires
            old(self).wf(),
        ensures
            final(self).wf(),
            final(self)@ == old(self)@.insert(key@, CacheItem { eta, timestamp: now }),
            final(self).ttl() == old(self).ttl(),
    {
        let item = CacheItem::new(eta, now);
        let ghost k = key@;
        match self.position(&key) {
            Some(i) => {
                self.entries.set(i, (key, item));
                self.model = Ghost(self.model@.insert(k, item));
                assert forall|j: int| 0 <= j < self.entries@.len() implies #[trigger] self.key_at(j)
                    == old(self).key_at(j) by {
                    if j == i {
                        assert(self.key_at(j) == k);
                    } else {
                        assert(self.entries@[j] == old(self).entries@[j]);
                    }
                }
                assert forall|j: int| 0 <= j < self.entries@.len() implies self.model@.contains_key(
                    #[trigger] self.key_at(j),
                ) && self.model@[self.key_at(j)] == self.entries@[j].1 by {
                    if j != i {
                        assert(old(self).key_at(j) != old(self).key_at(i as int));
                    }
                }
                assert forall|kk: (Seq<char>, Seq<char>)| #[trigger]
                    self.model@.contains_key(kk) implies exists|j: int|
                    0 <= j < self.entries@.len() && #[trigger] self.key_at(j) == kk by {
                    if kk == k {
                        assert(self.key_at(i as int) == kk);
                    } else {
                        let j = choose|j: int|
                            0 <= j < old(self).entries@.len() && #[trigger] old(self).key_at(j) == kk;
                        assert(self.key_at(j) == kk);
                    }
                }
            },
            None => {
                self.entries.push((key, item));
                self.model = Ghost(self.model@.insert(k, item));
                let ghost n = self.entries@.len() - 1;
                assert(self.key_at(n) == k);
                assert forall|j: int| 0 <= j < n implies #[trigger] self.key_at(j) == old(
                    self,
                ).key_at(j) by {
                    assert(self.entries@[j] == old(self).entries@[j]);
                }
                assert forall|a: int, b: int|
                    0 <= a < b < self.entries@.len() implies #[trigger] self.key_at(a)
                    != #[trigger] self.key_at(b) by {
                    assert(self.key_at(a) == old(self).key_at(a));
                    if b == n {
                        assert(old(self).model@.contains_key(old(self).key_at(a)));
                    } else {
                        assert(self.key_at(b) == old(self).key_at(b));
                    }
                }
                assert forall|kk: (Seq<char>, Seq<char>)| #[trigger]
                    self.model@.contains_key(kk) implies exists|j: int|
                    0 <= j < self.entries@.len() && #[trigger] self.key_at(j) == kk by {
                    if kk == k {
                        assert(self.key_at(n) == kk);
                    } else {
                        let j = choose|j: int|
                            0 <= j < old(self).entries@.len() && #[trigger] old(self).key_at(j) == kk;
                        assert(self.key_at(j) == kk);
                    }
                }
            },
        }
    }

    /// Whether `item` is still fresh at `now`.
    pub fn is_valid(&self, item: &CacheItem, now: u64) -> (r: bool)
        ensures
            r == fresh(*item, now as int, self.ttl() as int),
    {
        now < item.timestamp || now - item.timestamp < self.cache_ttl
    }

    /// The ETA stored under `key`, if it is still fresh at `now`.
    pub fn lookup(&self, key: &CacheKey, now: u64) -> (r: Option<i32>)
        requires
            self.wf(),
        ensures
            r == self.lookup_spec(key@, now as int),
    {
        match self.get(key) {
            Some(item) => {
                if self.is_valid(&item, now) {
                    Some(item.eta)
                } else {
                    None
                }
            },
            None => None,
        }
    }
}

/// An ETA stored at `stored_at` is served by every lookup of its key while
/// its age is under the time-to-live, so a repeated query in that window is
/// answered without a fetch.
pub proof fn lemma_served_within_ttl(
    before: EtaCache,
    after: EtaCache,
    k: (Seq<char>, Seq<char>),
    eta: i32,
    stored_at: u64,
    now: int,
)
    requires
        after@ == before@.insert(k, CacheItem { eta, timestamp: stored_at }),
        now - stored_at < after.ttl(),
    ensures
        after.lookup_spec(k, now) == Some(eta),
{
}

/// Once the time-to-live has elapsed, the same lookup misses, so the next
/// query fetches again.
pub proof fn lemma_stale_after_ttl(
    before: EtaCache,
    after: EtaCache,
    k: (Seq<char>, Seq<char>),
    eta: i32,
    stored_at: u64,
    now: int,
)
    requires
        after@ == before@.insert(k, CacheItem { eta, timestamp: stored_at }),
        now - stored_at >= after.ttl(),
    ensures
        after.lookup_spec(k, now) == None::<i32>,
{
}

/// Two stores of one key leave one entry for it, holding the later store;
/// the other keys are as before both.
pub proof fn lemma_last_store_wins(
    start: EtaCache,
    middle: EtaCache,
    end: EtaCache,
    k: (Seq<char>, Seq<char>),
    first: CacheItem,
    second: CacheItem,
)
    requires
        middle@ == start@.insert(k, first),
        end@ == middle@.insert(k, second),
    ensures
        end@ == start@.insert(k, second),
        end@[k] == second,
{
    assert(end@ =~= start@.insert(k, second));
}

} // verus!
