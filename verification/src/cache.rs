//! A TTL+LRU response cache: byte blobs keyed by request path, observable
//! until their expiry, evicted least-recently-used first when the capacity
//! would be exceeded. The clock is passed in explicitly as milliseconds.

use vstd::prelude::*;

use crate::key_table::{lemma_key_index, KeyTable};

verus! {

/// One cached response: the bytes, the absolute time they expire, and the
/// absolute time they were last written or read.
pub struct CacheEntry {
    value: Vec<u8>,
    expiry: u64,
    last_accessed: u64,
}

impl CacheEntry {
    pub closed spec fn spec_value(&self) -> Seq<u8> {
        self.value@
    }

    pub closed spec fn spec_expiry(&self) -> u64 {
        self.expiry
    }

    pub closed spec fn spec_last_accessed(&self) -> u64 {
        self.last_accessed
    }

    pub fn new(value: Vec<u8>, ttl_millis: u64, now_millis: u64) -> (r: Self)
        requires
            now_millis + ttl_millis <= u64::MAX,
        ensures
            r.spec_value() == value@,
            r.spec_expiry() == now_millis + ttl_millis,
            r.spec_last_accessed() == now_millis,
    {
        CacheEntry { value, expiry: now_millis + ttl_millis, last_accessed: now_millis }
    }

    /// An entry is expired strictly after its expiry time.
    pub fn is_expired(&self, now_millis: u64) -> (r: bool)
        ensures
            r == (now_millis > self.spec_expiry()),
    {
        now_millis > self.expiry
    }

    pub fn update_last_accessed(&mut self, now_millis: u64)
        ensures
            final(self).spec_value() == old(self).spec_value(),
            final(self).spec_expiry() == old(self).spec_expiry(),
            final(self).spec_last_accessed() == now_millis,
    {
        self.last_accessed = now_millis;
    }
}

/// Copies a byte vector.
fn copy_bytes(v: &Vec<u8>) -> (r: Vec<u8>)
    ensures
        r@ == v@,
{
    let r = v.clone();
    proof {
        assert(r@ =~= v@);
    }
    r
}

/// The keyed store of entries, with a route-global time-to-live and a
/// capacity that the size never exceeds.
pub struct Cache {
    entries: KeyTable<CacheEntry>,
    ttl_millis: u64,
    capacity: usize,
}

impl Cache {
    pub closed spec fn spec_ttl_millis(&self) -> u64 {
        self.ttl_millis
    }

    pub closed spec fn spec_capacity(&self) -> usize {
        self.capacity
    }

    /// The size bound the cache maintains: its capacity, read as one when
    /// the configured capacity is zero (an insertion must fit somewhere).
    pub open spec fn spec_cap_limit(&self) -> int {
        if self.spec_capacity() == 0 {
            1
        } else {
            self.spec_capacity() as int
        }
    }

    pub closed spec fn spec_len(&self) -> nat {
        self.entries.spec_len()
    }

    pub closed spec fn spec_contains(&self, key: Seq<char>) -> bool {
        self.entries.spec_contains(key)
    }

    pub closed spec fn spec_entry(&self, key: Seq<char>) -> CacheEntry {
        self.entries.spec_at(key)
    }

    /// The store is well formed and never larger than its size bound.
    pub closed spec fn wf(&self) -> bool {
        &&& self.entries.wf()
        &&& self.entries.spec_len() <= self.spec_cap_limit()
    }

    pub fn new(ttl_millis: u64, capacity: usize) -> (r: Self)
        ensures
            r.wf(),
            r.spec_ttl_millis() == ttl_millis,
            r.spec_capacity() == capacity,
            r.spec_len() == 0,
            forall|k: Seq<char>| !r.spec_contains(k),
    {
        Cache { entries: KeyTable::new(), ttl_millis, capacity }
    }

    /// The time-to-live entries are stored with, in milliseconds.
    pub fn ttl_millis(&self) -> (r: u64)
        ensures
            r == self.spec_ttl_millis(),
    {
        self.ttl_millis
    }

    /// The number of entries held.
    pub fn len(&self) -> (n: usize)
        requires
            self.wf(),
        ensures
            n == self.spec_len(),
    {
        self.entries.len()
    }

    /// Looks `key` up at time `now_millis`. An absent key misses; an
    /// expired entry is removed and misses; a live entry is returned and
    /// its last-accessed time becomes `now_millis`.
    pub fn get(&mut self, key: &str, now_millis: u64) -> (r: Option<Vec<u8>>)
        requires
            old(self).wf(),
        ensures
            final(self).wf(),
            final(self).spec_ttl_millis() == old(self).spec_ttl_millis(),
            final(self).spec_capacity() == old(self).spec_capacity(),
            !old(self).spec_contains(key@) ==> r == None::<Vec<u8>> && *final(self) == *old(self),
            old(self).spec_contains(key@) && now_millis > old(self).spec_entry(key@).spec_expiry()
                ==> r == None::<Vec<u8>> && !final(self).spec_contains(key@),
            old(self).spec_contains(key@) && now_millis <= old(self).spec_entry(key@).spec_expiry()
                ==> (r matches Some(v) && v@ == old(self).spec_entry(key@).spec_value() && final(self).spec_contains(key@) && final(self).spec_entry(key@).spec_value() == old(self).spec_entry(key@).spec_value() && final(self).spec_entry(key@).spec_expiry() == old(self).spec_entry(key@).spec_expiry() && final(self).spec_entry(key@).spec_last_accessed()
                == now_millis),
            forall|k: Seq<char>|
                k !== key@ ==> final(self).spec_contains(k) == old(self).spec_contains(k) && (old(self).spec_contains(k) ==> final(self).spec_entry(k) == old(self).spec_entry(k)),
    {
        let k = key.to_owned();
        match self.entries.find(&k) {
            None => None,
            Some(i) => {
                if self.entries.val_at(i).is_expired(now_millis) {
                    self.entries.remove_at(i);
                    None
                } else {
                    let mut e = self.entries.remove_at(i);
                    e.update_last_accessed(now_millis);
                    let out = copy_bytes(&e.value);
                    self.entries.insert_new(k, e);
                    Some(out)
                }
            },
        }
    }

    /// Stores `value` under `key` at time `now_millis`: expired entries are
    /// purged, an existing key is overwritten, and when a new key would
    /// exceed the capacity the least-recently-accessed live entry is
    /// evicted first. The size stays within the bound.
    pub fn put(&mut self, key: String, value: Vec<u8>, now_millis: u64)
        requires
            old(self).wf(),
            now_millis + old(self).spec_ttl_millis() <= u64::MAX,
        ensures
            final(self).wf(),
            final(self).spec_ttl_millis() == old(self).spec_ttl_millis(),
            final(self).spec_capacity() == old(self).spec_capacity(),
            final(self).spec_len() <= final(self).spec_cap_limit(),
            final(self).spec_contains(key@),
            final(self).spec_entry(key@).spec_value() == value@,
            final(self).spec_entry(key@).spec_expiry() == now_millis + old(self).spec_ttl_millis(),
            final(self).spec_entry(key@).spec_last_accessed() == now_millis,
            forall|k: Seq<char>|
                k !== key@ && final(self).spec_contains(k) ==> old(self).spec_contains(k) && final(self).spec_entry(k) == old(self).spec_entry(k) && now_millis <= old(self).spec_entry(
                    k,
                ).spec_expiry(),
            forall|k: Seq<char>|
                k !== key@ && old(self).spec_contains(k) && now_millis <= old(self).spec_entry(
                    k,
                ).spec_expiry() && !final(self).spec_contains(k) ==> !(old(self).spec_contains(
                    key@,
                ) && now_millis <= old(self).spec_entry(key@).spec_expiry()) && final(self).spec_len() == final(self).spec_cap_limit() && (forall|k2: Seq<char>|
                    k2 !== key@ && old(self).spec_contains(k2) && now_millis <= old(self).spec_entry(k2).spec_expiry() ==> old(self).spec_entry(
                        k,
                    ).spec_last_accessed() <= old(self).spec_entry(k2).spec_last_accessed()),
            !old(self).spec_contains(key@) && old(self).spec_len() < old(self).spec_cap_limit()
                ==> (forall|k: Seq<char>|
                k !== key@ && old(self).spec_contains(k) && now_millis <= old(self).spec_entry(
                    k,
                ).spec_expiry() ==> final(self).spec_contains(k)),
            (!old(self).spec_contains(key@) && (forall|k: Seq<char>|
                old(self).spec_contains(k) ==> now_millis <= old(self).spec_entry(
                    k,
                ).spec_expiry()) && old(self).spec_len() == old(self).spec_cap_limit()) ==> (exists|
                k: Seq<char>,
            |
                k !== key@ && old(self).spec_contains(k) && !final(self).spec_contains(k)),
    {
        self.purge_expired(now_millis);
        let ghost purged = *self;
        let entry = CacheEntry::new(value, self.ttl_millis, now_millis);
        let ghost keyv = key@;
        match self.entries.find(&key) {
            Some(i) => {
                proof {
                    assert(purged.spec_contains(keyv));
                    assert(purged.entries.spec_keys()[i as int] == keyv);
                }
                self.entries.set_at(i, entry);
                proof {
                    assert(self.spec_contains(keyv));
                    assert(self.spec_entry(keyv) == entry);
                    assert forall|k: Seq<char>| k !== keyv implies self.spec_contains(k)
                        == purged.spec_contains(k) && (purged.spec_contains(k)
                        ==> self.spec_entry(k) == purged.spec_entry(k)) by {}
                }
            },
            None => {
                proof {
                    assert(!purged.spec_contains(keyv));
                }
                if self.entries.len() >= self.capacity {
                    self.evict_least_recent();
                    proof {
                        assert(!self.spec_contains(keyv));
                        assert(self.spec_len() == if purged.spec_len() > 0 {
                            purged.spec_len() - 1
                        } else {
                            0
                        });
                    }
                }
                let ghost evicted = *self;
                self.entries.insert_new(key, entry);
                proof {
                    assert(self.spec_contains(keyv));
                    assert(self.spec_entry(keyv) == entry);
                    assert forall|k: Seq<char>| k !== keyv implies self.spec_contains(k)
                        == evicted.spec_contains(k) && (evicted.spec_contains(k)
                        ==> self.spec_entry(k) == evicted.spec_entry(k)) by {}
                    if !old(self).spec_contains(keyv) && (forall|k: Seq<char>|
                        old(self).spec_contains(k) ==> now_millis <= old(self).spec_entry(
                            k,
                        ).spec_expiry()) && old(self).spec_len() == old(self).spec_cap_limit() {
                        assert(purged == *old(self));
                        let k0 = choose|k: Seq<char>|
                            purged.spec_contains(k) && !evicted.spec_contains(k);
                        assert(k0 !== keyv && old(self).spec_contains(k0) && !self.spec_contains(
                            k0,
                        ));
                    }
                }
            },
        }
    }

    /// Removes every expired entry.
    fn purge_expired(&mut self, now_millis: u64)
        requires
            old(self).wf(),
        ensures
            final(self).wf(),
            final(self).spec_ttl_millis() == old(self).spec_ttl_millis(),
            final(self).spec_capacity() == old(self).spec_capacity(),
            final(self).spec_len() <= old(self).spec_len(),
            forall|k: Seq<char>|
                final(self).spec_contains(k) ==> old(self).spec_contains(k) && final(self).spec_entry(k) == old(self).spec_entry(k),
            forall|k: Seq<char>|
                old(self).spec_contains(k) ==> if now_millis <= old(self).spec_entry(
                    k,
                ).spec_expiry() {
                    final(self).spec_contains(k)
                } else {
                    !final(self).spec_contains(k)
                },
            forall|i: int|
                0 <= i < final(self).spec_len() ==> now_millis <= (
                #[trigger] final(self).spec_entry_at(i)).spec_expiry(),
            (forall|k: Seq<char>|
                old(self).spec_contains(k) ==> now_millis <= old(self).spec_entry(
                    k,
                ).spec_expiry()) ==> *final(self) == *old(self),
    {
        let mut i: usize = 0;
        while i < self.entries.len()
            invariant
                self.wf(),
                i <= self.entries.spec_len(),
                (forall|k: Seq<char>|
                    old(self).spec_contains(k) ==> now_millis <= old(self).spec_entry(
                        k,
                    ).spec_expiry()) ==> *self == *old(self),
                self.spec_ttl_millis() == old(self).spec_ttl_millis(),
                self.spec_capacity() == old(self).spec_capacity(),
                self.entries.spec_len() <= old(self).spec_len(),
                forall|k: Seq<char>|
                    self.entries.spec_contains(k) ==> old(self).spec_contains(k)
                        && self.entries.spec_at(k) == old(self).spec_entry(k),
                forall|k: Seq<char>|
                    old(self).spec_contains(k) && now_millis <= old(self).spec_entry(
                        k,
                    ).spec_expiry() ==> self.entries.spec_contains(k),
                forall|j: int|
                    0 <= j < i ==> now_millis <= (
                    #[trigger] self.entries.spec_vals()[j]).spec_expiry(),
            decreases self.entries.spec_len() - i,
        {
            let expired = self.entries.val_at(i).is_expired(now_millis);
            if expired {
                let ghost removed_key = self.entries.spec_keys()[i as int];
                proof {
                    crate::key_table::lemma_key_index_of_position(
                        self.entries.spec_keys(),
                        removed_key,
                        i as int,
                    );
                    assert(self.entries.spec_contains(removed_key));
                    assert(self.entries.spec_at(removed_key) == self.entries.spec_vals()[i as int]);
                    if forall|k: Seq<char>|
                        old(self).spec_contains(k) ==> now_millis <= old(self).spec_entry(
                            k,
                        ).spec_expiry() {
                        assert(*self == *old(self));
                        assert(old(self).spec_contains(removed_key));
                        assert(old(self).spec_entry(removed_key)
                            == self.entries.spec_vals()[i as int]);
                        assert(false);
                    }
                }
                self.entries.remove_at(i);
            } else {
                i += 1;
            }
        }
        proof {
            assert forall|k: Seq<char>|
                old(self).spec_contains(k) && now_millis > old(self).spec_entry(
                    k,
                ).spec_expiry() implies !self.entries.spec_contains(k) by {
                lemma_key_index(self.entries.spec_keys(), k);
            }
        }
    }

    /// The entry at position `i`, for stating that purged stores hold only
    /// live entries.
    pub closed spec fn spec_entry_at(&self, i: int) -> CacheEntry {
        self.entries.spec_vals()[i]
    }

    /// Removes the entry with the smallest last-accessed time, if any;
    /// earliest-inserted wins a tie.
    fn evict_least_recent(&mut self)
        requires
            old(self).wf(),
        ensures
            final(self).wf(),
            final(self).spec_ttl_millis() == old(self).spec_ttl_millis(),
            final(self).spec_capacity() == old(self).spec_capacity(),
            old(self).spec_len() == 0 ==> *final(self) == *old(self),
            old(self).spec_len() > 0 ==> final(self).spec_len() == old(self).spec_len() - 1,
            forall|k: Seq<char>|
                final(self).spec_contains(k) ==> old(self).spec_contains(k) && final(self).spec_entry(k) == old(self).spec_entry(k),
            forall|k: Seq<char>|
                old(self).spec_contains(k) && !final(self).spec_contains(k) ==> forall|
                    k2: Seq<char>,
                |
                    old(self).spec_contains(k2) ==> old(self).spec_entry(
                        k,
                    ).spec_last_accessed() <= old(self).spec_entry(k2).spec_last_accessed(),
            old(self).spec_len() > 0 ==> exists|k: Seq<char>|
                old(self).spec_contains(k) && !final(self).spec_contains(k),
    {
        let n = self.entries.len();
        if n == 0 {
            return ;
        }
        let mut m: usize = 0;
        let mut j: usize = 1;
        while j < n
            invariant
                self.wf(),
                n == self.entries.spec_len(),
                m < j <= n,
                forall|jj: int|
                    0 <= jj < j ==> (#[trigger] self.entries.spec_vals()[jj]).spec_last_accessed()
                        >= self.entries.spec_vals()[m as int].spec_last_accessed(),
            decreases n - j,
        {
            if self.entries.val_at(j).last_accessed < self.entries.val_at(m).last_accessed {
                m = j;
            }
            j += 1;
        }
        let ghost evicted_key = self.entries.spec_keys()[m as int];
        proof {
            crate::key_table::lemma_key_index_of_position(
                self.entries.spec_keys(),
                evicted_key,
                m as int,
            );
            assert forall|k2: Seq<char>| self.entries.spec_contains(k2) implies self.entries.spec_at(
                evicted_key,
            ).spec_last_accessed() <= self.entries.spec_at(k2).spec_last_accessed() by {
                lemma_key_index(self.entries.spec_keys(), k2);
            }
        }
        self.entries.remove_at(m);
        proof {
            assert(old(self).spec_contains(evicted_key) && !self.spec_contains(evicted_key));
        }
    }
}

/// The set of keys a cache currently holds.
pub open spec fn spec_cache_key_set(c: Cache) -> Set<Seq<char>> {
    Set::new(|k: Seq<char>| c.spec_contains(k))
}

/// The cache's size is exactly the number of distinct keys it holds: the
/// key set is finite and its cardinality equals `spec_len`. This ties the
/// opaque length to `spec_contains`, so call sites can count.
pub proof fn lemma_cache_len_is_key_count(c: Cache)
    requires
        c.wf(),
    ensures
        spec_cache_key_set(c).finite(),
        spec_cache_key_set(c).len() == c.spec_len(),
{
    let keys = c.entries_keys_for_proof();
    assert(keys.no_duplicates()) by {
        assert forall|i: int, j: int|
            0 <= i < keys.len() && 0 <= j < keys.len() && i != j implies keys[i] !== keys[j] by {
            if i < j {
                assert(keys[i] !== keys[j]);
            } else {
                assert(keys[j] !== keys[i]);
            }
        }
    }
    keys.unique_seq_to_set();
    assert(spec_cache_key_set(c) =~= keys.to_set()) by {
        assert forall|k: Seq<char>| #[trigger] keys.to_set().contains(k) implies c.spec_contains(
            k,
        ) by {
            let i = choose|i: int| 0 <= i < keys.len() && keys[i] == k;
            crate::key_table::lemma_key_index_of_position(keys, k, i);
        }
        assert forall|k: Seq<char>| c.spec_contains(k) implies keys.to_set().contains(k) by {
            lemma_key_index(keys, k);
            assert(keys[crate::key_table::key_index(keys, k)] == k);
        }
    }
}

impl Cache {
    /// The key sequence of the underlying table, for proofs about it.
    pub closed spec fn entries_keys_for_proof(&self) -> Seq<Seq<char>> {
        self.entries.spec_keys()
    }
}

/// With a zero time-to-live an entry expires the moment it is stored: its
/// expiry equals its insertion time, so by `get`'s contract every lookup
/// strictly after the put misses and removes the entry.
pub proof fn lemma_zero_ttl_get_misses(c: Cache, key: Seq<char>, put_time: u64, get_time: u64)
    requires
        c.spec_ttl_millis() == 0,
        c.spec_contains(key),
        c.spec_entry(key).spec_expiry() == put_time + c.spec_ttl_millis(),
        get_time > put_time,
    ensures
        get_time > c.spec_entry(key).spec_expiry(),
{
}

} // verus!
