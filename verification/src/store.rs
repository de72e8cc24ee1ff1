//! The concurrency-safe expiring store: a `dashmap::DashMap` from byte-string
//! keys to entries, modelled in specifications as a `Map<Seq<u8>, EntryModel>`.

use vstd::prelude::*;
use dashmap::DashMap;

verus! {

/// The mathematical model of one stored entry: its value bytes and its
/// absolute expiry time in milliseconds (`None` means it never expires).
pub type EntryModel = (Seq<u8>, Option<u64>);

/// One stored value together with its absolute expiry time, in milliseconds
/// on the caller's clock. `expires_at == None` means the entry never expires.
#[derive(Clone)]
pub struct CacheEntry {
    pub value: Vec<u8>,
    pub expires_at: Option<u64>,
}

impl View for CacheEntry {
    type V = EntryModel;

    open spec fn view(&self) -> EntryModel {
        (self.value@, self.expires_at)
    }
}

/// Declares `dashmap::DashMap` so it can stand in signatures and fields.
/// The type is opaque here: everything known about a map's contents comes
/// from the contracts of the trusted wrappers below.
#[verifier::external_type_specification]
#[verifier::external_body]
#[verifier::reject_recursive_types(K)]
#[verifier::reject_recursive_types(V)]
#[verifier::reject_recursive_types(S)]
pub struct ExDashMap<K, V, S>(DashMap<K, V, S>);

/// The pairs a `DashMap` holds, as a mathematical map.
pub uninterp spec fn dash_contents(m: DashMap<Vec<u8>, CacheEntry>) -> Map<Seq<u8>, EntryModel>;

/// The model of a store that holds nothing.
pub open spec fn empty_model() -> Map<Seq<u8>, EntryModel> {
    Map::empty()
}

/// Relies on `dashmap::DashMap::new`: the fresh map holds nothing.
#[verifier::external_body]
fn dm_new() -> (r: DashMap<Vec<u8>, CacheEntry>)
    ensures
        dash_contents(r) == empty_model(),
{
    DashMap::new()
}

/// Relies on `dashmap::DashMap::insert`: maps `key` to `entry`, replacing
/// whatever entry the key had before.
#[verifier::external_body]
fn dm_insert(m: &mut DashMap<Vec<u8>, CacheEntry>, key: Vec<u8>, entry: CacheEntry)
    ensures
        dash_contents(*final(m)) == dash_contents(*old(m)).insert(key@, entry@),
{
    m.insert(key, entry);
}

/// Relies on `dashmap::DashMap::get`: returns a copy of the entry under
/// `key`, or `None` if the key is absent.
#[verifier::external_body]
fn dm_get(m: &DashMap<Vec<u8>, CacheEntry>, key: &[u8]) -> (r: Option<CacheEntry>)
    ensures
        (r is Some) == dash_contents(*m).dom().contains(key@),
        r is Some ==> r.unwrap()@ == dash_contents(*m)[key@],
{
    m.get(key).map(|e| e.value().clone())
}

/// Relies on `dashmap::DashMap::remove`: afterwards the map no longer holds
/// the key; every other pair is untouched.
#[verifier::external_body]
fn dm_remove(m: &mut DashMap<Vec<u8>, CacheEntry>, key: &[u8])
    ensures
        dash_contents(*final(m)) == dash_contents(*old(m)).remove(key@),
{
    m.remove(key);
}

/// Relies on `dashmap::DashMap::len`: the number of stored pairs.
#[verifier::external_body]
fn dm_len(m: &DashMap<Vec<u8>, CacheEntry>) -> (n: usize)
    ensures
        dash_contents(*m).dom().finite() ==> n == dash_contents(*m).dom().len(),
{
    m.len()
}

/// Relies on `dashmap::DashMap::iter`: yields a copy of every stored pair,
/// each key exactly once, in no particular order.
#[verifier::external_body]
fn dm_entries(m: &DashMap<Vec<u8>, CacheEntry>) -> (r: Vec<(Vec<u8>, CacheEntry)>)
    ensures
        forall|i: int, j: int| 0 <= i < j < r@.len() ==> (#[trigger] r@[i]).0@ != (#[trigger] r@[j]).0@,
        forall|i: int|
            0 <= i < r@.len() ==> dash_contents(*m).dom().contains((#[trigger] r@[i]).0@)
                && dash_contents(*m)[r@[i].0@] == r@[i].1@,
        forall|k: Seq<u8>|
            #[trigger] dash_contents(*m).dom().contains(k) ==> exists|i: int|
                0 <= i < r@.len() && (#[trigger] r@[i]).0@ == k,
{
    m.iter().map(|e| (e.key().clone(), e.value().clone())).collect()
}

/// The running total of value lengths, used to fold byte counts over a store's
/// key set.
pub open spec fn add_entry_bytes(m: Map<Seq<u8>, EntryModel>) -> spec_fn(int, Seq<u8>) -> int {
    |acc: int, k: Seq<u8>| acc + m[k].0.len()
}

/// The sum of the value lengths of every entry of `m`.
pub open spec fn spec_total_bytes(m: Map<Seq<u8>, EntryModel>) -> int {
    m.dom().fold(0, add_entry_bytes(m))
}

/// A sum reported in a `usize` field: anything above `usize::MAX` sticks there.
pub open spec fn clip_to_usize(n: int) -> int {
    if n > usize::MAX as int {
        usize::MAX as int
    } else {
        n
    }
}

/// Whether a read at time `now` may still return the entry: a read treats an
/// entry as stale only strictly after its expiry time has passed.
pub open spec fn live_for_read(e: EntryModel, now: u64) -> bool {
    match e.1 {
        Option::None => true,
        Option::Some(t) => now <= t,
    }
}

/// Whether the periodic sweep keeps an entry at time `now`: the sweep drops
/// an entry whose expiry time is at or before `now`.
pub open spec fn kept_by_sweep(e: EntryModel, now: u64) -> bool {
    match e.1 {
        Option::None => true,
        Option::Some(t) => now < t,
    }
}

/// The keys of `m` whose entries a sweep at time `now` keeps.
pub open spec fn swept_keys(m: Map<Seq<u8>, EntryModel>, now: u64) -> Set<Seq<u8>> {
    Set::new(|k: Seq<u8>| m.dom().contains(k) && kept_by_sweep(m[k], now))
}

/// What a read of `key` at time `now` returns from a store modelled by `m`.
pub open spec fn spec_read(m: Map<Seq<u8>, EntryModel>, key: Seq<u8>, now: u64) -> Option<Seq<u8>> {
    if m.dom().contains(key) && live_for_read(m[key], now) {
        Option::Some(m[key].0)
    } else {
        Option::None
    }
}

/// The store left behind by a read of `key` at time `now`: a read that finds
/// a stale entry removes it, every other read leaves the store unchanged.
pub open spec fn spec_read_map(
    m: Map<Seq<u8>, EntryModel>,
    key: Seq<u8>,
    now: u64,
) -> Map<Seq<u8>, EntryModel> {
    if m.dom().contains(key) && !live_for_read(m[key], now) {
        m.remove(key)
    } else {
        m
    }
}

/// Executable twin of `kept_by_sweep`; the sweep's closure calls it.
fn entry_live(e: &CacheEntry, now: u64) -> (r: bool)
    ensures
        r == kept_by_sweep(e@, now),
{
    match e.expires_at {
        Option::None => true,
        Option::Some(t) => now < t,
    }
}

/// Relies on `dashmap::DashMap::retain`: keeps exactly the pairs for which
/// the given closure returns true; the closure here calls `entry_live`.
#[verifier::external_body]
fn dm_retain_live(m: &mut DashMap<Vec<u8>, CacheEntry>, now: u64)
    ensures
        dash_contents(*final(m)) == dash_contents(*old(m)).restrict(
            swept_keys(dash_contents(*old(m)), now),
        ),
{
    m.retain(|_, e| entry_live(e, now));
}

/// Aggregate statistics over a snapshot of the store.
pub struct CacheStats {
    pub item_count: usize,
    pub total_bytes: usize,
}

/// A concurrency-safe mapping from key to entry with lazy expiry on reads.
/// Its specification view (`self@`) is the mathematical map of its contents.
pub struct SharedCache {
    pub store: DashMap<Vec<u8>, CacheEntry>,
}

impl View for SharedCache {
    type V = Map<Seq<u8>, EntryModel>;

    open spec fn view(&self) -> Map<Seq<u8>, EntryModel> {
        dash_contents(self.store)
    }
}

/// The expiry time an entry gets when stored at `now` with the given
/// time-to-live in milliseconds.
pub open spec fn spec_expiry(now: u64, ttl: Option<u64>) -> Option<u64> {
    match ttl {
        Option::None => Option::None,
        Option::Some(t) => Option::Some((now + t) as u64),
    }
}

impl SharedCache {
    /// Every reachable cache has finitely many entries.
    pub open spec fn wf(&self) -> bool {
        self@.dom().finite()
    }

    pub fn new() -> (r: Self)
        ensures
            r.wf(),
            r@ == empty_model(),
    {
        SharedCache { store: dm_new() }
    }

    /// Inserts or replaces the entry for `key`. A present `ttl` (milliseconds)
    /// makes the entry expire at `now + ttl`; an absent one makes it eternal.
    pub fn set(&mut self, key: Vec<u8>, value: Vec<u8>, ttl: Option<u64>, now: u64)
        requires
            old(self).wf(),
            ttl is Some ==> now + ttl.unwrap() <= u64::MAX,
        ensures
            final(self).wf(),
            final(self)@ == old(self)@.insert(key@, (value@, spec_expiry(now, ttl))),
    {
        let expires_at = match ttl {
            Option::None => Option::None,
            Option::Some(t) => Option::Some(now + t),
        };
        dm_insert(&mut self.store, key, CacheEntry { value, expires_at });
    }

    /// Returns the current value for `key` unless the key is absent or its
    /// entry has expired; a read that finds an expired entry removes it.
    pub fn get(&mut self, key: &[u8], now: u64) -> (r: Option<Vec<u8>>)
        requires
            old(self).wf(),
        ensures
            final(self).wf(),
            final(self)@ == spec_read_map(old(self)@, key@, now),
            (r is Some) == (spec_read(old(self)@, key@, now) is Some),
            r is Some ==> r.unwrap()@ == spec_read(old(self)@, key@, now).unwrap(),
    {
        match dm_get(&self.store, key) {
            Option::None => Option::None,
            Option::Some(entry) => {
                let expired = match entry.expires_at {
                    Option::None => false,
                    Option::Some(t) => now > t,
                };
                if expired {
                    dm_remove(&mut self.store, key);
                    Option::None
                } else {
                    Option::Some(entry.value)
                }
            },
        }
    }

    /// True exactly when a `get` of `key` at `now` would find a value, with
    /// the same lazy removal of an expired entry.
    pub fn has(&mut self, key: &[u8], now: u64) -> (r: bool)
        requires
            old(self).wf(),
        ensures
            final(self).wf(),
            final(self)@ == spec_read_map(old(self)@, key@, now),
            r == (spec_read(old(self)@, key@, now) is Some),
    {
        self.get(key, now).is_some()
    }

    /// Reports the entry count and total value bytes of the store as it
    /// stands, counting entries that have expired but are not yet removed.
    /// A byte total beyond `usize::MAX` is reported as `usize::MAX`.
    #[verifier::loop_isolation(false)]
    pub fn stats(&self) -> (r: CacheStats)
        requires
            self.wf(),
        ensures
            r.item_count == self@.dom().len(),
            r.total_bytes == clip_to_usize(spec_total_bytes(self@)),
    {
        let item_count = dm_len(&self.store);
        let entries = dm_entries(&self.store);
        let ghost m = self@;
        let ghost f = add_entry_bytes(m);
        let mut total: usize = 0;
        let ghost mut processed: Set<Seq<u8>> = Set::empty();
        proof {
            vstd::set::fold::lemma_fold_empty(0int, f);
        }
        let mut i: usize = 0;
        while i < entries.len()
            invariant
                i <= entries@.len(),
                processed.finite(),
                forall|k: Seq<u8>| #[trigger]
                    processed.contains(k) <==> exists|j: int|
                        0 <= j < i && (#[trigger] entries@[j]).0@ == k,
                total as int == clip_to_usize(processed.fold(0, f)),
                0 <= processed.fold(0, f),
            decreases entries@.len() - i,
        {
            let entry_len = entries[i].1.value.len();
            proof {
                let k = entries@[i as int].0@;
                assert(!processed.contains(k));
                assert(vstd::set::fold::is_fun_commutative(f));
                vstd::set::fold::lemma_fold_insert(processed, 0int, f, k);
                assert(f(processed.fold(0, f), k) == processed.fold(0, f) + m[k].0.len());
                assert(m[k].0.len() == entry_len as int);
                processed = processed.insert(k);
            }
            if total > usize::MAX - entry_len {
                total = usize::MAX;
            } else {
                total = total + entry_len;
            }
            i += 1;
        }
        proof {
            assert(processed =~= m.dom());
        }
        CacheStats { item_count, total_bytes: total }
    }

    /// Removes every entry whose expiry time is at or before `now`.
    pub fn sweep(&mut self, now: u64)
        requires
            old(self).wf(),
        ensures
            final(self).wf(),
            final(self)@ == old(self)@.restrict(swept_keys(old(self)@, now)),
    {
        dm_retain_live(&mut self.store, now);
        proof {
            let m = old(self)@;
            assert(self@.dom() =~= m.dom().intersect(swept_keys(m, now)));
        }
    }
}

} // verus!
