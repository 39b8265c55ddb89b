//! A keyed store of values that expire a fixed time after they were stored.
//!
//! Time is counted in milliseconds on the cache's own clock. Expired entries are
//! never removed; they only stop being returned. The store can be written out as
//! a snapshot that records each entry's age in whole seconds, and read back so
//! that an entry keeps its age across a restart.
use crate::table::{map_of, KeyedTable};
use std::path::PathBuf;
use std::time::{Duration, Instant};
use vstd::prelude::*;

verus! {

#[verifier::external_type_specification]
#[verifier::external_body]
pub struct ExPathBuf(PathBuf);

#[verifier::external_type_specification]
#[verifier::external_body]
pub struct ExInstant(Instant);

/// Relies on `Instant::now`: a reading of the monotonic clock; nothing is known of its value.
pub assume_specification[ Instant::now ]() -> Instant;

/// Relies on `Instant::elapsed`: the time since the reading; nothing is known of its value.
pub assume_specification[ Instant::elapsed ](i: &Instant) -> Duration;

/// Relies on `Duration::as_millis`: the whole milliseconds of a duration.
pub assume_specification[ Duration::as_millis ](d: &Duration) -> u128;

/// A stored value and the time at which it was stored.
pub struct CacheEntry<T> {
    pub value: T,
    pub inserted_at: u64,
}

/// One entry of a snapshot: a key, its value and its age in whole seconds.
#[derive(Debug, PartialEq, Eq)]
pub struct SnapshotEntry<T> {
    pub key: String,
    pub value: T,
    pub age_secs: u64,
}

/// An entry stored at `inserted_at` is still valid at `now` while less than `ttl` has passed.
pub open spec fn is_fresh(inserted_at: int, ttl: int, now: int) -> bool {
    now < inserted_at + ttl
}

/// The age in whole seconds of an entry stored at `inserted_at`, seen at `now`.
pub open spec fn age_secs_of(inserted_at: int, now: int) -> int {
    if now <= inserted_at {
        0
    } else {
        (now - inserted_at) / 1000
    }
}

/// The time at which an entry of the given age in seconds was stored, seen at `now`;
/// an age that reaches back before the clock's start is clamped to it.
pub open spec fn restored_stamp(age_secs: int, now: int) -> int {
    if age_secs * 1000 <= now {
        now - age_secs * 1000
    } else {
        0
    }
}

/// The entries that `snap` denotes, read back at `now`, on top of `base`.
pub open spec fn restored<T>(base: Map<Seq<char>, CacheEntry<T>>, snap: Seq<SnapshotEntry<T>>, now: int) -> Map<
    Seq<char>,
    CacheEntry<T>,
>
    decreases snap.len(),
{
    if snap.len() == 0 {
        base
    } else {
        let e = snap.last();
        restored(base, snap.drop_last(), now).insert(
            e.key@,
            CacheEntry { value: e.value, inserted_at: restored_stamp(e.age_secs as int, now) as u64 },
        )
    }
}

/// `back` is what `e` becomes when it is written to a snapshot at `taken` and
/// read back at `now`: a clone of the value, stamped with the age in whole seconds.
pub open spec fn restores_to<T: Clone>(e: CacheEntry<T>, back: CacheEntry<T>, taken: int, now: int) -> bool {
    &&& cloned(e.value, back.value)
    &&& back.inserted_at == restored_stamp(age_secs_of(e.inserted_at as int, taken), now) as u64
}

proof fn lemma_restore_prefix<T: Clone>(
    s: Seq<(String, CacheEntry<T>)>,
    snap: Seq<SnapshotEntry<T>>,
    taken: int,
    now: int,
    n: int,
)
    requires
        0 <= n <= s.len(),
        snap.len() == s.len(),
        forall|i: int|
            #![trigger snap[i]]
            0 <= i < snap.len() ==> {
                &&& snap[i].key == s[i].0
                &&& cloned(s[i].1.value, snap[i].value)
                &&& snap[i].age_secs == age_secs_of(s[i].1.inserted_at as int, taken)
            },
    ensures
        restored(Map::empty(), snap.take(n), now).dom() == map_of(s.take(n)).dom(),
        forall|k: Seq<char>|
            #[trigger] map_of(s.take(n)).contains_key(k) ==> restores_to(
                map_of(s.take(n))[k],
                restored(Map::empty(), snap.take(n), now)[k],
                taken,
                now,
            ),
    decreases n,
{
    if n == 0 {
        assert(restored(Map::<Seq<char>, CacheEntry<T>>::empty(), snap.take(0), now).dom() =~= map_of(s.take(0)).dom());
    } else {
        lemma_restore_prefix(s, snap, taken, now, n - 1);
        assert(snap.take(n).drop_last() =~= snap.take(n - 1));
        assert(s.take(n).drop_last() =~= s.take(n - 1));
        assert(snap.take(n).last() == snap[n - 1]);
        assert(s.take(n).last() == s[n - 1]);
        assert(restored(Map::empty(), snap.take(n), now).dom() =~= map_of(s.take(n)).dom());
    }
}

/// Just after a value is stored under a key at time `t`, a lookup of that key
/// yields the value at every time from `t` until `t` plus the time to live, and
/// nothing from then on.
pub proof fn lemma_ttl_expiry<T>(before: Cache<T>, after: Cache<T>, key: Seq<char>, value: T, t: u64, now: int)
    requires
        after@ == before@.insert(key, CacheEntry { value, inserted_at: t }),
        after.ttl() == before.ttl(),
    ensures
        t <= now < t + after.ttl() ==> after.lookup(key, now) == Some(value),
        now >= t + after.ttl() ==> after.lookup(key, now) is None,
{
}

/// A snapshot taken of a cache, read back into an empty cache, gives the same
/// keys, each with a clone of its value and the age it had in whole seconds.
pub proof fn lemma_snapshot_round_trip<T: Clone>(
    c: Cache<T>,
    snap: Seq<SnapshotEntry<T>>,
    taken: int,
    back: Cache<T>,
    now: int,
)
    requires
        c.wf(),
        c.is_snapshot_of(snap, taken),
        back@ == restored(Map::empty(), snap, now),
    ensures
        back@.dom() == c@.dom(),
        forall|k: Seq<char>| #[trigger]
            c@.contains_key(k) ==> restores_to(c@[k], back@[k], taken, now),
{
    c.lemma_view();
    let s = c.entries();
    lemma_restore_prefix(s, snap, taken, now, s.len() as int);
    assert(s.take(s.len() as int) =~= s);
    assert(snap.take(s.len() as int) =~= snap);
}

/// A keyed store of values with a fixed time to live.
pub struct Cache<T> {
    entries: KeyedTable<CacheEntry<T>>,
    cache_file: PathBuf,
    ttl_ms: u64,
    origin: Instant,
}

impl<T> View for Cache<T> {
    type V = Map<Seq<char>, CacheEntry<T>>;

    closed spec fn view(&self) -> Map<Seq<char>, CacheEntry<T>> {
        self.entries@
    }
}

impl<T> Cache<T> {
    /// The time to live, in milliseconds.
    pub closed spec fn ttl(&self) -> u64 {
        self.ttl_ms
    }

    /// The file that snapshots of this cache are written to.
    pub closed spec fn file(&self) -> PathBuf {
        self.cache_file
    }

    /// The entries in the order in which their keys were first stored.
    pub closed spec fn entries(&self) -> Seq<(String, CacheEntry<T>)> {
        self.entries.entries()
    }

    pub closed spec fn wf(&self) -> bool {
        self.entries.wf()
    }

    /// What a lookup of `key` at `now` yields.
    pub open spec fn lookup(&self, key: Seq<char>, now: int) -> Option<T> {
        if self@.contains_key(key) && is_fresh(self@[key].inserted_at as int, self.ttl() as int, now) {
            Some(self@[key].value)
        } else {
            None
        }
    }

    /// `snap` lists the entries of this cache in order, with their ages at `now`.
    pub open spec fn is_snapshot_of(&self, snap: Seq<SnapshotEntry<T>>, now: int) -> bool
        where T: Clone
    {
        &&& snap.len() == self.entries().len()
        &&& forall|i: int|
            #![trigger snap[i]]
            0 <= i < snap.len() ==> {
                &&& snap[i].key == self.entries()[i].0
                &&& cloned(self.entries()[i].1.value, snap[i].value)
                &&& snap[i].age_secs == age_secs_of(self.entries()[i].1.inserted_at as int, now)
            }
    }

    /// The view of a cache is the map that its entries denote, with one entry per key.
    pub proof fn lemma_view(&self)
        requires
            self.wf(),
        ensures
            self@ == map_of(self.entries()),
            crate::table::keys_unique(self.entries()),
    {
        self.entries.lemma_view();
    }

    /// An empty cache with the given time to live, in milliseconds.
    pub fn with_ttl_millis(cache_file: PathBuf, ttl_ms: u64) -> (c: Self)
        ensures
            c.wf(),
            c@ == Map::<Seq<char>, CacheEntry<T>>::empty(),
            c.ttl() == ttl_ms,
            c.file() == cache_file,
    {
        Cache { entries: KeyedTable::new(), cache_file, ttl_ms, origin: Instant::now() }
    }

    /// An empty cache with the given time to live; a duration beyond `u64::MAX`
    /// milliseconds is taken as `u64::MAX` milliseconds.
    pub fn new(cache_file: PathBuf, ttl: Duration) -> (c: Self)
        ensures
            c.wf(),
            c@ == Map::<Seq<char>, CacheEntry<T>>::empty(),
            c.file() == cache_file,
    {
        let ms = ttl.as_millis();
        let ttl_ms: u64 = if ms > u64::MAX as u128 {
            u64::MAX
        } else {
            ms as u64
        };
        Self::with_ttl_millis(cache_file, ttl_ms)
    }

    pub fn ttl_millis(&self) -> (r: u64)
        ensures
            r == self.ttl(),
    {
        self.ttl_ms
    }

    pub fn cache_file(&self) -> (r: &PathBuf)
        ensures
            *r == self.file(),
    {
        &self.cache_file
    }

    /// The current time on this cache's clock. The clock starts at the time to
    /// live, so that every entry restored with an age below it keeps that age.
    pub fn now_millis(&self) -> (r: u64)
        ensures
            r >= self.ttl(),
    {
        let ms = self.origin.elapsed().as_millis();
        let room = (u64::MAX - self.ttl_ms) as u128;
        if ms > room {
            u64::MAX
        } else {
            self.ttl_ms + ms as u64
        }
    }

    /// Stores `value` under `key` as of time `now`, replacing any earlier entry.
    pub fn set_at(&mut self, key: String, value: T, now: u64)
        requires
            old(self).wf(),
        ensures
            final(self).wf(),
            final(self)@ == old(self)@.insert(key@, CacheEntry { value, inserted_at: now }),
            final(self).ttl() == old(self).ttl(),
            final(self).file() == old(self).file(),
    {
        self.entries.insert(key, CacheEntry { value, inserted_at: now });
    }

    /// Stores `value` under `key` as of the current time on the cache's clock.
    pub fn set(&mut self, key: String, value: T)
        requires
            old(self).wf(),
        ensures
            final(self).wf(),
            final(self)@ == old(self)@.insert(
                key@,
                CacheEntry { value, inserted_at: final(self)@[key@].inserted_at },
            ),
            final(self)@[key@].inserted_at >= final(self).ttl(),
            final(self).ttl() == old(self).ttl(),
            final(self).file() == old(self).file(),
    {
        let now = self.now_millis();
        self.set_at(key, value, now);
        assert(self@[key@].inserted_at == now);
    }

    /// Removes every entry.
    pub fn clear(&mut self)
        requires
            old(self).wf(),
        ensures
            final(self).wf(),
            final(self)@ == Map::<Seq<char>, CacheEntry<T>>::empty(),
            final(self).ttl() == old(self).ttl(),
            final(self).file() == old(self).file(),
    {
        self.entries.clear();
    }

    /// Reads back the entries of a snapshot as of time `now`: an entry of age `a`
    /// seconds is stamped `a` seconds before `now`, and a later entry for a key
    /// replaces an earlier one.
    pub fn load_at(&mut self, snapshot: Vec<SnapshotEntry<T>>, now: u64)
        requires
            old(self).wf(),
        ensures
            final(self).wf(),
            final(self)@ == restored(old(self)@, snapshot@, now as int),
            final(self).ttl() == old(self).ttl(),
            final(self).file() == old(self).file(),
    {
        let ghost base = self@;
        let ghost snap = snapshot@;
        let n = snapshot.len();
        for e in it: snapshot
            invariant
                self.wf(),
                n == snap.len(),
                it.seq() == snap,
                self.ttl() == old(self).ttl(),
                self.file() == old(self).file(),
                self@ == restored(base, snap.take(it.index() as int), now as int),
        {
            let ghost k = it.index();
            let stamp: u64 = if e.age_secs <= now / 1000 {
                now - e.age_secs * 1000
            } else {
                0
            };
            proof {
                assert(snap.take(k + 1).drop_last() =~= snap.take(k));
                assert(snap.take(k + 1).last() == e);
                assert(e.age_secs * 1000 <= now <==> e.age_secs <= now / 1000) by (nonlinear_arith);
            }
            self.entries.insert(e.key, CacheEntry { value: e.value, inserted_at: stamp });
        }
        proof {
            assert(snap.take(n as int) =~= snap);
        }
    }
}

impl<T: Clone> Cache<T> {
    /// The value stored under `key`, if it is still valid at time `now`.
    pub fn get_at(&self, key: &str, now: u64) -> (r: Option<T>)
        requires
            self.wf(),
        ensures
            match (r, self.lookup(key@, now as int)) {
                (Some(v), Some(w)) => cloned(w, v),
                (None, None) => true,
                _ => false,
            },
    {
        let k = key.to_owned();
        match self.entries.get(&k) {
            Some(e) => {
                if now < e.inserted_at || now - e.inserted_at < self.ttl_ms {
                    Some(e.value.clone())
                } else {
                    None
                }
            },
            None => None,
        }
    }

    /// The value stored under `key`, if it is still valid at the current time on
    /// the cache's clock.
    pub fn get(&self, key: &str) -> (r: Option<T>)
        requires
            self.wf(),
        ensures
            !self@.contains_key(key@) ==> r is None,
            r matches Some(v) ==> self@.contains_key(key@) && cloned(self@[key@].value, v),
            r matches Some(v) ==> exists|now: u64|
                now >= self.ttl() && is_fresh(self@[key@].inserted_at as int, self.ttl() as int, now as int),
    {
        let now = self.now_millis();
        self.get_at(key, now)
    }

    /// Every entry with its age in whole seconds at time `now`, in the order in
    /// which the keys were first stored.
    pub fn snapshot_at(&self, now: u64) -> (r: Vec<SnapshotEntry<T>>)
        requires
            self.wf(),
        ensures
            self.is_snapshot_of(r@, now as int),
    {
        let n = self.entries.len();
        let mut out: Vec<SnapshotEntry<T>> = Vec::new();
        let mut i: usize = 0;
        while i < n
            invariant
                n == self.entries().len(),
                0 <= i <= n,
                out@.len() == i,
                forall|j: int|
                    #![trigger out@[j]]
                    0 <= j < i ==> {
                        &&& out@[j].key == self.entries()[j].0
                        &&& cloned(self.entries()[j].1.value, out@[j].value)
                        &&& out@[j].age_secs == age_secs_of(self.entries()[j].1.inserted_at as int, now as int)
                    },
            decreases n - i,
        {
            let (k, e) = self.entries.entry_at(i);
            let age: u64 = if now <= e.inserted_at {
                0
            } else {
                (now - e.inserted_at) / 1000
            };
            out.push(SnapshotEntry { key: k.clone(), value: e.value.clone(), age_secs: age });
            i = i + 1;
        }
        out
    }

    /// Every entry with its age in whole seconds at the current time on the cache's clock.
    pub fn snapshot(&self) -> (r: Vec<SnapshotEntry<T>>)
        requires
            self.wf(),
        ensures
            exists|now: u64| self.is_snapshot_of(r@, now as int),
    {
        let now = self.now_millis();
        self.snapshot_at(now)
    }
}

} // verus!
