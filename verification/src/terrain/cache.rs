use bevy::utils::{HashMap, HashSet};
use vstd::prelude::*;

use super::chunk_hash::ChunkHash;

verus! {

/// The chunks that exist in the scene: for the identity of each, as a
/// number, the handle of the object that stands for it.
///
/// The entries are kept in a hash map of `bevy`, which is not verified:
/// what is known of it is what the contracts of the private functions below
/// say about `cache_entries`.
#[verifier::external_body]
pub struct ChunkCache {
    map: HashMap<u32, u64>,
}

/// A set of chunk identities, as numbers, kept in a hash set of `bevy`.
#[verifier::external_body]
pub struct ChunkSet {
    set: HashSet<u32>,
}

/// The largest capacity that a new map or set is asked for at the start.
/// Both grow as entries come.
pub const MAX_INITIAL_CAPACITY: usize = 65536;

/// The entries that a cache holds.
pub uninterp spec fn cache_entries(cache: ChunkCache) -> Map<u32, u64>;

/// The numbers that a set holds.
pub uninterp spec fn set_members(set: ChunkSet) -> Set<u32>;

/// `hashbrown::HashMap::with_capacity_and_hasher`, with the default hasher:
/// the new map holds nothing. The capacity is a hint and is not recorded;
/// it is kept small, since the call does not return for a capacity that no
/// table can have.
#[verifier::external_body]
fn map_with_capacity(capacity: usize) -> (cache: ChunkCache)
    requires
        capacity <= MAX_INITIAL_CAPACITY,
    ensures
        cache_entries(cache).dom() == Set::<u32>::empty(),
{
    ChunkCache { map: HashMap::with_capacity_and_hasher(capacity, Default::default()) }
}

/// `hashbrown::HashMap::insert`: the entry for `key` is added or replaced,
/// every other entry stays, and the value that was held for `key` before,
/// if any, is returned.
#[verifier::external_body]
fn map_insert(cache: &mut ChunkCache, key: u32, handle: u64) -> (previous: Option<u64>)
    ensures
        cache_entries(*final(cache)) == cache_entries(*old(cache)).insert(key, handle),
        previous == (if cache_entries(*old(cache)).contains_key(key) {
            Some(cache_entries(*old(cache))[key])
        } else {
            None
        }),
{
    cache.map.insert(key, handle)
}

/// `hashbrown::HashMap::contains_key`: whether the map holds an entry for
/// `key`.
#[verifier::external_body]
fn map_contains_key(cache: &ChunkCache, key: u32) -> (found: bool)
    ensures
        found == cache_entries(*cache).contains_key(key),
{
    cache.map.contains_key(&key)
}

/// `hashbrown::HashMap::get`: the value held for `key`, if any.
#[verifier::external_body]
fn map_get(cache: &ChunkCache, key: u32) -> (handle: Option<u64>)
    ensures
        handle == (if cache_entries(*cache).contains_key(key) {
            Some(cache_entries(*cache)[key])
        } else {
            None
        }),
{
    cache.map.get(&key).copied()
}

/// `hashbrown::HashMap::remove`: the entry for `key` is taken out, every
/// other entry stays, and the value that was held for `key`, if any, is
/// returned.
#[verifier::external_body]
fn map_remove(cache: &mut ChunkCache, key: u32) -> (removed: Option<u64>)
    ensures
        cache_entries(*final(cache)) == cache_entries(*old(cache)).remove(key),
        removed == (if cache_entries(*old(cache)).contains_key(key) {
            Some(cache_entries(*old(cache))[key])
        } else {
            None
        }),
{
    cache.map.remove(&key)
}

/// `hashbrown::HashMap::keys`, collected: every key of the map once, in an
/// order that nothing is said about.
#[verifier::external_body]
fn map_keys(cache: &ChunkCache) -> (keys: Vec<u32>)
    ensures
        keys@.no_duplicates(),
        forall|k: u32| keys@.contains(k) <==> cache_entries(*cache).contains_key(k),
{
    cache.map.keys().copied().collect()
}

/// `hashbrown::HashSet::with_capacity_and_hasher`, with the default hasher:
/// the new set holds nothing.
#[verifier::external_body]
fn set_with_capacity(capacity: usize) -> (set: ChunkSet)
    requires
        capacity <= MAX_INITIAL_CAPACITY,
    ensures
        set_members(set) == Set::<u32>::empty(),
{
    ChunkSet { set: HashSet::with_capacity_and_hasher(capacity, Default::default()) }
}

/// `hashbrown::HashSet::insert`: `key` is added to the set, and the answer
/// is whether it was new to it.
#[verifier::external_body]
fn set_insert(set: &mut ChunkSet, key: u32) -> (fresh: bool)
    ensures
        set_members(*final(set)) == set_members(*old(set)).insert(key),
        fresh == !set_members(*old(set)).contains(key),
{
    set.set.insert(key)
}

/// `hashbrown::HashSet::contains`: whether the set holds `key`.
#[verifier::external_body]
fn set_contains(set: &ChunkSet, key: u32) -> (found: bool)
    ensures
        found == set_members(*set).contains(key),
{
    set.set.contains(&key)
}

/// The numbers of a list of identities, as a set.
pub open spec fn keys_of(hashes: Seq<ChunkHash>) -> Set<u32> {
    Set::new(|k: u32| exists|i: int| 0 <= i < hashes.len() && #[trigger] hashes[i].bits() == k)
}

/// `create` lists the places in `required` of the identities that `entries`
/// has no entry for: each such identity once, at the first place where it
/// stands, in order.
pub open spec fn is_missing_list(
    entries: Map<u32, u64>,
    required: Seq<ChunkHash>,
    create: Seq<usize>,
) -> bool {
    &&& forall|j: int| 0 <= j < create.len() ==> create[j] < required.len()
    &&& forall|j: int|
        0 <= j < create.len() ==> !entries.contains_key(
            (#[trigger] required[create[j] as int]).bits(),
        )
    &&& forall|a: int, b: int|
        0 <= a < b < create.len() ==> create[a] < create[b] && required[create[a] as int].bits()
            != required[create[b] as int].bits()
    &&& forall|i: int|
        0 <= i < required.len() && !entries.contains_key((#[trigger] required[i]).bits())
            ==> exists|j: int|
            0 <= j < create.len() && create[j] <= i && required[create[j] as int].bits()
                == required[i].bits()
}

/// The entries after the first `n` of the new chunks have been recorded:
/// the chunk for the leaf at `create[j]` under the handle `handles[j]`.
pub open spec fn installed(
    entries: Map<u32, u64>,
    required: Seq<ChunkHash>,
    create: Seq<usize>,
    handles: Seq<u64>,
    n: nat,
) -> Map<u32, u64>
    decreases n,
{
    if n == 0 {
        entries
    } else {
        installed(entries, required, create, handles, (n - 1) as nat).insert(
            required[create[n - 1] as int].bits(),
            handles[n - 1],
        )
    }
}

/// The keys after the first `n` new chunks have been recorded are the keys
/// from before and the identities of those chunks.
pub proof fn lemma_installed_keys(
    entries: Map<u32, u64>,
    required: Seq<ChunkHash>,
    create: Seq<usize>,
    handles: Seq<u64>,
    n: nat,
)
    ensures
        forall|k: u32| #[trigger]
            installed(entries, required, create, handles, n).contains_key(k) <==> (
            entries.contains_key(k) || exists|j: int|
                0 <= j < n && (#[trigger] required[create[j] as int]).bits() == k),
    decreases n,
{
    if n > 0 {
        lemma_installed_keys(entries, required, create, handles, (n - 1) as nat);
        let prev = installed(entries, required, create, handles, (n - 1) as nat);
        let key = required[create[n - 1] as int].bits();
        assert forall|k: u32| #[trigger]
            installed(entries, required, create, handles, n).contains_key(k) <==> (
            entries.contains_key(k) || exists|j: int|
                0 <= j < n && (#[trigger] required[create[j] as int]).bits() == k) by {
            let now = installed(entries, required, create, handles, n);
            assert(now == prev.insert(key, handles[n - 1]));
            assert(now.contains_key(k) <==> (k == key || prev.contains_key(k)));
            assert(prev.contains_key(k) <==> (entries.contains_key(k) || exists|j: int|
                0 <= j < n - 1 && (#[trigger] required[create[j] as int]).bits() == k));
            if k == key {
                assert(required[create[n - 1] as int].bits() == k);
            }
            if exists|j: int| 0 <= j < n && (#[trigger] required[create[j] as int]).bits() == k {
                let j = choose|j: int|
                    0 <= j < n && (#[trigger] required[create[j] as int]).bits() == k;
                if j < n - 1 {
                    assert(required[create[j] as int].bits() == k);
                }
            }
            if prev.contains_key(k) && !entries.contains_key(k) {
                let j = choose|j: int|
                    0 <= j < n - 1 && (#[trigger] required[create[j] as int]).bits() == k;
                assert(required[create[j] as int].bits() == k);
            }
        }
    }
}

/// After a pass the cache holds a chunk for exactly the required
/// identities: where the cache has been cut down to its required entries
/// and a chunk has been recorded for every leaf of the list of missing
/// ones, the keys of the cache are the identities of the required leaves.
pub proof fn lemma_pass_keys(
    before: Map<u32, u64>,
    required: Seq<ChunkHash>,
    create: Seq<usize>,
    handles: Seq<u64>,
)
    requires
        is_missing_list(before.restrict(keys_of(required)), required, create),
        handles.len() == create.len(),
    ensures
        installed(
            before.restrict(keys_of(required)),
            required,
            create,
            handles,
            create.len(),
        ).dom() == keys_of(required),
{
    let cut = before.restrict(keys_of(required));
    let after = installed(cut, required, create, handles, create.len());
    lemma_installed_keys(cut, required, create, handles, create.len());
    assert forall|k: u32| after.dom().contains(k) <==> keys_of(required).contains(k) by {
        if after.dom().contains(k) && !cut.contains_key(k) {
            let j = choose|j: int|
                0 <= j < create.len() && (#[trigger] required[create[j] as int]).bits() == k;
            assert(required[create[j] as int].bits() == k);
        }
        if keys_of(required).contains(k) && !cut.contains_key(k) {
            let i = choose|i: int| 0 <= i < required.len() && #[trigger] required[i].bits() == k;
            assert(!cut.contains_key(required[i].bits()));
            let j = choose|j: int|
                0 <= j < create.len() && create[j] <= i && required[create[j] as int].bits()
                    == required[i].bits();
            assert(required[create[j] as int].bits() == k);
        }
    }
    assert(after.dom() =~= keys_of(required));
}

/// The numbers of a list of identities, in the order of the list.
pub open spec fn bits_of(hashes: Seq<ChunkHash>) -> Seq<u32> {
    hashes.map_values(|h: ChunkHash| h.bits())
}

/// No two entries hold the same handle.
pub open spec fn handles_differ(entries: Map<u32, u64>) -> bool {
    forall|k1: u32, k2: u32|
        entries.contains_key(k1) && entries.contains_key(k2) && k1 != k2 ==> #[trigger] entries[k1]
            != #[trigger] entries[k2]
}

/// Every entry after the first `n` new chunks have been recorded is an
/// entry from before or holds the handle that was given for its identity.
pub proof fn lemma_installed_values(
    entries: Map<u32, u64>,
    required: Seq<ChunkHash>,
    create: Seq<usize>,
    handles: Seq<u64>,
    n: nat,
)
    requires
        is_missing_list(entries, required, create),
        n <= create.len(),
    ensures
        forall|k: u32| #[trigger]
            installed(entries, required, create, handles, n).contains_key(k) ==> {
                ||| (entries.contains_key(k) && installed(entries, required, create, handles, n)[k]
                    == entries[k])
                ||| exists|j: int|
                    0 <= j < n && (#[trigger] required[create[j] as int]).bits() == k && installed(
                        entries,
                        required,
                        create,
                        handles,
                        n,
                    )[k] == handles[j]
            },
    decreases n,
{
    if n > 0 {
        lemma_installed_values(entries, required, create, handles, (n - 1) as nat);
        let prev = installed(entries, required, create, handles, (n - 1) as nat);
        let now = installed(entries, required, create, handles, n);
        let key = required[create[n - 1] as int].bits();
        assert forall|k: u32| #[trigger] now.contains_key(k) implies {
            ||| (entries.contains_key(k) && now[k] == entries[k])
            ||| exists|j: int|
                0 <= j < n && (#[trigger] required[create[j] as int]).bits() == k && now[k]
                    == handles[j]
        } by {
            if k == key {
                assert(required[create[n - 1] as int].bits() == k && now[k] == handles[n - 1]);
            } else {
                assert(prev.contains_key(k) && now[k] == prev[k]);
                if !(entries.contains_key(k) && prev[k] == entries[k]) {
                    let j = choose|j: int|
                        0 <= j < n - 1 && (#[trigger] required[create[j] as int]).bits() == k
                            && prev[k] == handles[j];
                    assert(required[create[j] as int].bits() == k && now[k] == handles[j]);
                }
            }
        }
    }
}

/// After a pass the cache holds one chunk for each required leaf. Where the
/// required leaves have different identities, the chunks in the cache had
/// different handles before the pass, and the handles given for the new
/// chunks differ from each other and from every handle in the cache, the
/// cache holds as many entries as there are required leaves, under
/// different handles.
pub proof fn lemma_pass_entries(
    before: Map<u32, u64>,
    required: Seq<ChunkHash>,
    create: Seq<usize>,
    handles: Seq<u64>,
)
    requires
        is_missing_list(before.restrict(keys_of(required)), required, create),
        handles.len() == create.len(),
        bits_of(required).no_duplicates(),
        handles_differ(before),
        handles.no_duplicates(),
        forall|k: u32| before.contains_key(k) ==> !handles.contains(#[trigger] before[k]),
    ensures
        ({
            let after = installed(
                before.restrict(keys_of(required)),
                required,
                create,
                handles,
                create.len(),
            );
            &&& after.dom().finite()
            &&& after.dom().len() == required.len()
            &&& handles_differ(after)
        }),
{
    let cut = before.restrict(keys_of(required));
    let after = installed(cut, required, create, handles, create.len());
    lemma_pass_keys(before, required, create, handles);
    let bits = bits_of(required);
    assert(keys_of(required) =~= bits.to_set()) by {
        assert forall|k: u32| keys_of(required).contains(k) <==> bits.to_set().contains(k) by {
            if keys_of(required).contains(k) {
                let i = choose|i: int| 0 <= i < required.len() && #[trigger] required[i].bits() == k;
                assert(bits[i] == k);
            }
            if bits.to_set().contains(k) {
                let i = choose|i: int| 0 <= i < bits.len() && bits[i] == k;
                assert(required[i].bits() == k);
            }
        }
    }
    bits.unique_seq_to_set();
    vstd::seq_lib::seq_to_set_is_finite(bits);
    lemma_installed_values(cut, required, create, handles, create.len());
    assert forall|k1: u32, k2: u32|
        after.contains_key(k1) && after.contains_key(k2) && k1 != k2 implies #[trigger] after[k1]
        != #[trigger] after[k2] by {
        let old1 = cut.contains_key(k1) && after[k1] == cut[k1];
        let old2 = cut.contains_key(k2) && after[k2] == cut[k2];
        if old1 && old2 {
            assert(before.contains_key(k1) && before.contains_key(k2));
        } else if old1 {
            let j = choose|j: int|
                0 <= j < create.len() && (#[trigger] required[create[j] as int]).bits() == k2
                    && after[k2] == handles[j];
            assert(handles.contains(handles[j]));
            assert(before.contains_key(k1));
        } else if old2 {
            let j = choose|j: int|
                0 <= j < create.len() && (#[trigger] required[create[j] as int]).bits() == k1
                    && after[k1] == handles[j];
            assert(handles.contains(handles[j]));
            assert(before.contains_key(k2));
        } else {
            let j1 = choose|j: int|
                0 <= j < create.len() && (#[trigger] required[create[j] as int]).bits() == k1
                    && after[k1] == handles[j];
            let j2 = choose|j: int|
                0 <= j < create.len() && (#[trigger] required[create[j] as int]).bits() == k2
                    && after[k2] == handles[j];
            assert(j1 != j2);
        }
    }
}

/// What one pass asks of the scene: the chunks to tear down, which have
/// left the cache already, and the leaves that need a chunk. The chunks to
/// tear down come first.
#[derive(Debug)]
pub struct ReconcilePlan {
    /// The entries that were taken out of the cache, identity and handle:
    /// the chunks that are no longer required.
    pub destroy: Vec<(u32, u64)>,
    /// The places, in the list of required leaves, of the leaves that have
    /// no chunk yet: each missing identity once, at its first place.
    pub create: Vec<usize>,
}

/// The capacity to start with for `len` entries.
fn capacity_for(len: usize) -> (capacity: usize)
    ensures
        capacity <= MAX_INITIAL_CAPACITY,
        capacity == if len <= MAX_INITIAL_CAPACITY { len } else { MAX_INITIAL_CAPACITY },
{
    if len <= MAX_INITIAL_CAPACITY {
        len
    } else {
        MAX_INITIAL_CAPACITY
    }
}

impl ChunkSet {
    /// The set of the identities in a list.
    pub fn from_hashes(hashes: &Vec<ChunkHash>) -> (set: ChunkSet)
        ensures
            set_members(set) == keys_of(hashes@),
    {
        let mut set = set_with_capacity(capacity_for(hashes.len()));
        let mut i: usize = 0;
        while i < hashes.len()
            invariant
                0 <= i <= hashes.len(),
                set_members(set) == keys_of(hashes@.subrange(0, i as int)),
            decreases hashes.len() - i,
        {
            let key = hashes[i].to_bits();
            set_insert(&mut set, key);
            proof {
                let before = hashes@.subrange(0, i as int);
                let after = hashes@.subrange(0, i + 1);
                assert forall|k: u32| keys_of(after).contains(k) <==> keys_of(before).insert(
                    key,
                ).contains(k) by {
                    if keys_of(after).contains(k) {
                        let j = choose|j: int| 0 <= j < after.len() && #[trigger] after[j].bits() == k;
                        if j < i {
                            assert(before[j].bits() == k);
                        }
                    }
                    if keys_of(before).contains(k) {
                        let j = choose|j: int|
                            0 <= j < before.len() && #[trigger] before[j].bits() == k;
                        assert(after[j].bits() == k);
                    }
                    if k == key {
                        assert(after[i as int].bits() == k);
                    }
                }
                assert(keys_of(after) =~= keys_of(before).insert(key));
            }
            i += 1;
        }
        assert(hashes@.subrange(0, hashes.len() as int) =~= hashes@);
        set
    }

    /// Whether the set holds this identity.
    pub fn contains(&self, hash: &ChunkHash) -> (found: bool)
        ensures
            found == set_members(*self).contains(hash.bits()),
    {
        set_contains(self, hash.to_bits())
    }
}

impl View for ChunkCache {
    type V = Map<u32, u64>;

    open spec fn view(&self) -> Map<u32, u64> {
        cache_entries(*self)
    }
}

impl Default for ChunkCache {
    /// A cache without entries, with room for 512.
    fn default() -> (cache: Self)
        ensures
            cache@.dom() == Set::<u32>::empty(),
    {
        map_with_capacity(512)
    }
}

impl ChunkCache {
    /// Whether a chunk exists for this identity.
    pub fn contains_key(&self, hash: &ChunkHash) -> (found: bool)
        ensures
            found == self@.contains_key(hash.bits()),
    {
        map_contains_key(self, hash.to_bits())
    }

    /// The handle of the chunk with this identity, if there is one.
    pub fn get(&self, hash: &ChunkHash) -> (handle: Option<u64>)
        ensures
            handle == (if self@.contains_key(hash.bits()) {
                Some(self@[hash.bits()])
            } else {
                None
            }),
    {
        map_get(self, hash.to_bits())
    }

    /// Records the chunk with this identity. A chunk recorded for the same
    /// identity before is forgotten, and its handle is returned.
    pub fn insert(&mut self, hash: ChunkHash, handle: u64) -> (previous: Option<u64>)
        ensures
            final(self)@ == old(self)@.insert(hash.bits(), handle),
            previous == (if old(self)@.contains_key(hash.bits()) {
                Some(old(self)@[hash.bits()])
            } else {
                None
            }),
    {
        map_insert(self, hash.to_bits(), handle)
    }

    /// Forgets the chunk with this identity and returns its handle, if
    /// there was one.
    pub fn remove(&mut self, hash: &ChunkHash) -> (removed: Option<u64>)
        ensures
            final(self)@ == old(self)@.remove(hash.bits()),
            removed == (if old(self)@.contains_key(hash.bits()) {
                Some(old(self)@[hash.bits()])
            } else {
                None
            }),
    {
        map_remove(self, hash.to_bits())
    }

    /// The identities that chunks exist for, each once, in no particular
    /// order.
    pub fn keys(&self) -> (keys: Vec<u32>)
        ensures
            keys@.no_duplicates(),
            forall|k: u32| keys@.contains(k) <==> self@.contains_key(k),
    {
        map_keys(self)
    }

    /// Takes out of the cache every entry whose identity is not in
    /// `required`, and returns the entries taken out, each once.
    #[verifier::rlimit(50)]
    pub fn remove_unrequired(&mut self, required: &ChunkSet) -> (removed: Vec<(u32, u64)>)
        ensures
            final(self)@ == old(self)@.restrict(set_members(*required)),
            forall|k: u32, h: u64|
                removed@.contains((k, h)) <==> (old(self)@.contains_key(k) && old(self)@[k] == h
                    && !set_members(*required).contains(k)),
            removed@.no_duplicates(),
    {
        let keys = map_keys(self);
        let mut removed: Vec<(u32, u64)> = Vec::new();
        let mut i: usize = 0;
        while i < keys.len()
            invariant
                0 <= i <= keys.len(),
                keys@.no_duplicates(),
                forall|k: u32| keys@.contains(k) <==> old(self)@.contains_key(k),
                self@.dom() =~= old(self)@.dom().filter(
                    |k: u32|
                        set_members(*required).contains(k) || !keys@.subrange(0, i as int).contains(
                            k,
                        ),
                ),
                forall|k: u32| self@.contains_key(k) ==> self@[k] == old(self)@[k],
                forall|k: u32, h: u64|
                    removed@.contains((k, h)) <==> (keys@.subrange(0, i as int).contains(k) && old(
                        self,
                    )@[k] == h && !set_members(*required).contains(k)),
                removed@.no_duplicates(),
            decreases keys.len() - i,
        {
            let key = keys[i];
            let ghost seen = keys@.subrange(0, i as int);
            let ghost seen_next = keys@.subrange(0, i + 1);
            let ghost removed_before = removed@;
            proof {
                assert(seen_next =~= seen.push(key));
                assert(keys@.contains(key));
                assert(!seen.contains(key)) by {
                    if seen.contains(key) {
                        let j = choose|j: int| 0 <= j < seen.len() && seen[j] == key;
                        assert(keys@[j] == keys@[i as int]);
                    }
                }
                assert forall|k: u32| seen_next.contains(k) <==> (seen.contains(k) || k == key) by {
                    if seen.contains(k) {
                        let j = choose|j: int| 0 <= j < seen.len() && seen[j] == k;
                        assert(seen_next[j] == k);
                    }
                    if k == key {
                        assert(seen_next[i as int] == k);
                    }
                }
            }
            if !set_contains(required, key) {
                let taken = map_remove(self, key);
                match taken {
                    Some(handle) => {
                        removed.push((key, handle));
                        proof {
                            assert forall|k: u32, h: u64|
                                removed@.contains((k, h)) <==> (seen_next.contains(k) && old(
                                    self,
                                )@[k] == h && !set_members(*required).contains(k)) by {
                                if removed@.contains((k, h)) {
                                    let j = choose|j: int|
                                        0 <= j < removed@.len() && removed@[j] == (k, h);
                                    if j < removed_before.len() {
                                        assert(removed_before[j] == (k, h));
                                        assert(removed_before.contains((k, h)));
                                    }
                                }
                                if seen_next.contains(k) && old(self)@[k] == h && !set_members(
                                    *required,
                                ).contains(k) {
                                    if k == key {
                                        assert(removed@[removed_before.len() as int] == (k, h));
                                    } else {
                                        assert(removed_before.contains((k, h)));
                                        let j = choose|j: int|
                                            0 <= j < removed_before.len() && removed_before[j] == (
                                                k,
                                                h,
                                            );
                                        assert(removed@[j] == (k, h));
                                    }
                                }
                            }
                            assert(removed@.no_duplicates()) by {
                                assert forall|a: int, b: int|
                                    0 <= a < removed@.len() && 0 <= b < removed@.len() && a
                                        != b implies removed@[a] != removed@[b] by {
                                    if a == removed_before.len() && b < removed_before.len() {
                                        assert(removed_before.contains(removed_before[b]));
                                    }
                                    if b == removed_before.len() && a < removed_before.len() {
                                        assert(removed_before.contains(removed_before[a]));
                                    }
                                }
                            }
                        }
                    },
                    None => {},
                }
            }
            i += 1;
        }
        proof {
            assert(keys@.subrange(0, keys.len() as int) =~= keys@);
            assert(self@ =~= old(self)@.restrict(set_members(*required)));
        }
        removed
    }

    /// The places in `required` of the identities that no chunk exists for:
    /// each such identity once, at the first place where it stands, in
    /// order.
    #[verifier::rlimit(50)]
    pub fn missing(&self, required: &Vec<ChunkHash>) -> (create: Vec<usize>)
        ensures
            is_missing_list(self@, required@, create@),
    {
        let mut create: Vec<usize> = Vec::new();
        let mut planned = set_with_capacity(capacity_for(required.len()));
        let mut i: usize = 0;
        while i < required.len()
            invariant
                0 <= i <= required.len(),
                forall|j: int| 0 <= j < create@.len() ==> create@[j] < i,
                forall|j: int|
                    0 <= j < create@.len() ==> !self@.contains_key(
                        (#[trigger] required@[create@[j] as int]).bits(),
                    ),
                forall|a: int, b: int|
                    0 <= a < b < create@.len() ==> create@[a] < create@[b] && required@[create@[a] as int].bits()
                        != required@[create@[b] as int].bits(),
                forall|k: u32|
                    set_members(planned).contains(k) <==> exists|j: int|
                        0 <= j < create@.len() && (#[trigger] required@[create@[j] as int]).bits()
                            == k,
                forall|m: int|
                    0 <= m < i && !self@.contains_key((#[trigger] required@[m]).bits())
                        ==> exists|j: int|
                        0 <= j < create@.len() && create@[j] <= m && required@[create@[j] as int].bits()
                            == required@[m].bits(),
            decreases required.len() - i,
        {
            let key = required[i].to_bits();
            let ghost create_before = create@;
            if !map_contains_key(self, key) {
                if !set_contains(&planned, key) {
                    set_insert(&mut planned, key);
                    create.push(i);
                    proof {
                        let last = create_before.len() as int;
                        assert(create@[last] == i);
                        assert forall|k: u32|
                            set_members(planned).contains(k) <==> exists|j: int|
                                0 <= j < create@.len() && (#[trigger] required@[create@[j] as int]).bits()
                                    == k by {
                            if exists|j: int|
                                0 <= j < create@.len() && (#[trigger] required@[create@[j] as int]).bits()
                                    == k {
                                let j = choose|j: int|
                                    0 <= j < create@.len() && (#[trigger] required@[create@[j] as int]).bits()
                                        == k;
                                if j < last {
                                    assert(required@[create_before[j] as int].bits() == k);
                                }
                            }
                            if set_members(planned).contains(k) {
                                if k == key {
                                    assert(required@[create@[last] as int].bits() == k);
                                } else {
                                    let j = choose|j: int|
                                        0 <= j < create_before.len() && (#[trigger] required@[create_before[j] as int]).bits()
                                            == k;
                                    assert(required@[create@[j] as int].bits() == k);
                                }
                            }
                        }
                        assert forall|a: int, b: int| 0 <= a < b < create@.len() implies create@[a]
                            < create@[b] && required@[create@[a] as int].bits()
                            != required@[create@[b] as int].bits() by {
                            if b == last {
                                assert(create@[a] == create_before[a]);
                                if required@[create_before[a] as int].bits() == key {
                                }
                            }
                        }
                        assert forall|m: int|
                            0 <= m < i + 1 && !self@.contains_key(
                                (#[trigger] required@[m]).bits(),
                            ) implies exists|j: int|
                            0 <= j < create@.len() && create@[j] <= m && required@[create@[j] as int].bits()
                                == required@[m].bits() by {
                            if m == i {
                                assert(create@[last] <= m && required@[create@[last] as int].bits()
                                    == required@[m].bits());
                            } else {
                                let j = choose|j: int|
                                    0 <= j < create_before.len() && create_before[j] <= m
                                        && required@[create_before[j] as int].bits()
                                        == required@[m].bits();
                                assert(create@[j] == create_before[j]);
                            }
                        }
                    }
                } else {
                    proof {
                        let j = choose|j: int|
                            0 <= j < create@.len() && (#[trigger] required@[create@[j] as int]).bits()
                                == key;
                        assert(create@[j] <= i && required@[create@[j] as int].bits()
                            == required@[i as int].bits());
                    }
                }
            }
            i += 1;
        }
        create
    }
}

/// The first half of a pass. Every chunk whose identity is not among the
/// required ones leaves the cache at once and is listed for teardown, and
/// the required leaves that no chunk exists for are listed for creation.
pub fn reconcile(cache: &mut ChunkCache, required: &Vec<ChunkHash>) -> (plan: ReconcilePlan)
    ensures
        final(cache)@ == old(cache)@.restrict(keys_of(required@)),
        forall|k: u32, h: u64|
            plan.destroy@.contains((k, h)) <==> (old(cache)@.contains_key(k) && old(cache)@[k]
                == h && !keys_of(required@).contains(k)),
        plan.destroy@.no_duplicates(),
        is_missing_list(final(cache)@, required@, plan.create@),
{
    let wanted = ChunkSet::from_hashes(required);
    let destroy = cache.remove_unrequired(&wanted);
    let create = cache.missing(required);
    ReconcilePlan { destroy, create }
}

/// The second half of a pass. Records the new chunks: for the leaf at
/// `create[j]` the chunk with the handle `handles[j]`. With the list that
/// `reconcile` gave for the same leaves, the cache then holds a chunk for
/// exactly the required identities.
pub fn install(
    cache: &mut ChunkCache,
    required: &Vec<ChunkHash>,
    create: &Vec<usize>,
    handles: &Vec<u64>,
)
    requires
        create@.len() == handles@.len(),
        forall|j: int| 0 <= j < create@.len() ==> create@[j] < required@.len(),
    ensures
        final(cache)@ == installed(old(cache)@, required@, create@, handles@, create@.len()),
        (old(cache)@.dom().subset_of(keys_of(required@)) && is_missing_list(
            old(cache)@,
            required@,
            create@,
        )) ==> final(cache)@.dom() == keys_of(required@),
{
    let mut j: usize = 0;
    while j < create.len()
        invariant
            0 <= j <= create.len(),
            create@.len() == handles@.len(),
            forall|j: int| 0 <= j < create@.len() ==> create@[j] < required@.len(),
            cache@ == installed(old(cache)@, required@, create@, handles@, j as nat),
        decreases create.len() - j,
    {
        map_insert(cache, required[create[j]].to_bits(), handles[j]);
        j += 1;
    }
    proof {
        if old(cache)@.dom().subset_of(keys_of(required@)) && is_missing_list(
            old(cache)@,
            required@,
            create@,
        ) {
            assert(old(cache)@.restrict(keys_of(required@)) =~= old(cache)@);
            lemma_pass_keys(old(cache)@, required@, create@, handles@);
        }
    }
}

} // verus!
