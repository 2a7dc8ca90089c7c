//! Snapshot transport: a fixed-footprint client-side module that holds the
//! current authoritative snapshot, predicts action results from a small
//! round-robin cache keyed by (state fingerprint, action fingerprint),
//! deduplicates repeated snapshots, and accumulates stream deltas in a ring
//! for one display frame.

use vstd::prelude::*;

verus! {

/// Size of the shared input staging buffer in bytes.
pub const INPUT_CAP: usize = 16384;
/// Size of one snapshot slot in bytes.
pub const SLOT_CAP: usize = 16384;
/// Number of prediction cache entries.
pub const CACHE_N: usize = 4;
/// Maximum number of pending deltas in the ring.
pub const DELTA_RING_CAP: usize = 256;
/// Contiguous byte storage for pending deltas.
pub const DELTA_BUF_CAP: usize = 65536;

/// One step of the 32-bit FNV-1a hash.
pub open spec fn spec_fnv_step(h: u32, b: u8) -> u32 {
    ((((h ^ (b as u32)) as nat) * 0x01000193nat) % 0x100000000nat) as u32
}

/// FNV-1a folded over `s` starting from accumulator `h`.
pub open spec fn spec_fnv_acc(s: Seq<u8>, h: u32) -> u32
    decreases s.len(),
{
    if s.len() <= 0 {
        h
    } else {
        spec_fnv_acc(s.drop_first(), spec_fnv_step(h, s[0]))
    }
}

/// The 32-bit FNV-1a fingerprint of a byte sequence.
pub open spec fn spec_fnv(s: Seq<u8>) -> u32 {
    spec_fnv_acc(s, 0x811c9dc5u32)
}

/// Cache key: state fingerprint XOR action fingerprint times the golden-ratio
/// odd multiplier.
pub open spec fn spec_make_key(state_hash: u32, action_hash: u32) -> u32 {
    state_hash ^ ((((action_hash as nat) * 0x9e3779b9nat) % 0x100000000nat) as u32)
}

/// 32-bit FNV-1a of `data`; the fingerprint used for deduplication and
/// cache keys.
pub fn fnv(data: &[u8]) -> (h: u32)
    ensures
        h == spec_fnv(data@),
{
    let mut h: u32 = 0x811c9dc5;
    let mut i: usize = 0;
    proof {
        assert(data@.skip(0) =~= data@);
    }
    while i < data.len()
        invariant
            i <= data.len(),
            spec_fnv(data@) == spec_fnv_acc(data@.skip(i as int), h),
        decreases data.len() - i,
    {
        proof {
            assert(data@.skip(i as int).drop_first() =~= data@.skip(i + 1 as int));
            assert(data@.skip(i as int)[0] == data@[i as int]);
        }
        let m: u64 = ((h ^ (data[i] as u32)) as u64) * 0x01000193u64;
        h = (m % 0x100000000u64) as u32;
        i = i + 1;
    }
    proof {
        assert(data@.skip(data@.len() as int) =~= Seq::<u8>::empty());
    }
    h
}

/// Combine a state fingerprint and an action fingerprint into a cache key.
pub fn make_key(state_hash: u32, action_hash: u32) -> (k: u32)
    ensures
        k == spec_make_key(state_hash, action_hash),
{
    let m: u64 = (action_hash as u64) * 0x9e3779b9u64;
    state_hash ^ ((m % 0x100000000u64) as u32)
}

/// A fixed buffer holding one snapshot together with its length and
/// fingerprint.
pub struct Slot {
    pub data: Vec<u8>,
    pub len: u32,
    pub hash: u32,
}

impl Slot {
    /// The bytes currently held by the slot.
    pub open spec fn bytes(&self) -> Seq<u8> {
        self.data@.take(self.len as int)
    }

    pub open spec fn wf(&self) -> bool {
        &&& self.data@.len() == SLOT_CAP
        &&& self.len <= SLOT_CAP
        &&& (self.len > 0 ==> self.hash == spec_fnv(self.bytes()))
    }

    pub fn new() -> (s: Slot)
        ensures
            s.wf(),
            s.len == 0,
            s.hash == 0,
            s.bytes() =~= Seq::<u8>::empty(),
    {
        let mut data: Vec<u8> = Vec::new();
        let mut i: usize = 0;
        while i < SLOT_CAP
            invariant
                data@.len() == i,
                i <= SLOT_CAP,
            decreases SLOT_CAP - i,
        {
            data.push(0u8);
            i = i + 1;
        }
        Slot { data, len: 0, hash: 0 }
    }

    /// Copy `src` into the slot, truncating at the slot capacity, and record
    /// the length and fingerprint of what was written.
    pub fn write(&mut self, src: &[u8])
        requires
            old(self).wf(),
        ensures
            final(self).wf(),
            final(self).bytes() == src@.take(vstd::math::min(src@.len() as int, SLOT_CAP as int)),
            final(self).len == vstd::math::min(src@.len() as int, SLOT_CAP as int),
            final(self).hash == spec_fnv(final(self).bytes()),
    {
        let n: usize = if src.len() < SLOT_CAP {
            src.len()
        } else {
            SLOT_CAP
        };
        let mut i: usize = 0;
        while i < n
            invariant
                old(self).wf(),
                n <= SLOT_CAP,
                n <= src@.len(),
                i <= n,
                self.data@.len() == SLOT_CAP,
                self.data@.take(i as int) =~= src@.take(i as int),
                self.len == old(self).len,
                self.hash == old(self).hash,
            decreases n - i,
        {
            self.data.set(i, src[i]);
            proof {
                assert(self.data@.take(i + 1 as int) =~= src@.take(i + 1 as int));
            }
            i = i + 1;
        }
        self.len = n as u32;
        let prefix = slice_take(src, n);
        self.hash = fnv(prefix.as_slice());
        proof {
            assert(self.bytes() =~= src@.take(n as int));
        }
    }

    /// Whether the slot holds no snapshot yet.
    pub fn is_empty(&self) -> (r: bool)
        ensures
            r == (self.len == 0),
    {
        self.len == 0
    }
}

/// Copy the first `n` bytes of a slice into a fresh vector.
pub fn slice_take(src: &[u8], n: usize) -> (r: Vec<u8>)
    requires
        n <= src@.len(),
    ensures
        r@ == src@.take(n as int),
{
    let mut r: Vec<u8> = Vec::new();
    let mut i: usize = 0;
    while i < n
        invariant
            i <= n,
            n <= src@.len(),
            r@ =~= src@.take(i as int),
        decreases n - i,
    {
        r.push(src[i]);
        proof {
            assert(r@ =~= src@.take(i + 1 as int));
        }
        i = i + 1;
    }
    r
}

/// One prediction cache entry: a key and the predicted snapshot.
pub struct CacheEntry {
    pub key: u32,
    pub slot: Slot,
    pub valid: bool,
}

impl CacheEntry {
    pub open spec fn wf(&self) -> bool {
        self.slot.wf()
    }

    pub fn new() -> (e: CacheEntry)
        ensures
            e.wf(),
            !e.valid,
    {
        CacheEntry { key: 0, slot: Slot::new(), valid: false }
    }
}

/// Index of the first valid cache entry whose key equals `key`, if any.
pub open spec fn spec_cache_lookup(cache: Seq<CacheEntry>, key: u32) -> Option<int>
    decreases cache.len(),
{
    if cache.len() <= 0 {
        None
    } else if cache[0].valid && cache[0].key == key {
        Some(0int)
    } else {
        match spec_cache_lookup(cache.drop_first(), key) {
            Some(i) => Some(i + 1),
            None => None,
        }
    }
}

proof fn lemma_cache_lookup_prefix(cache: Seq<CacheEntry>, key: u32, i: int)
    requires
        0 <= i <= cache.len(),
        forall|j: int| 0 <= j < i ==> !(#[trigger] cache[j].valid && cache[j].key == key),
    ensures
        spec_cache_lookup(cache, key) == match spec_cache_lookup(cache.skip(i), key) {
            Some(k) => Some(k + i),
            None => None::<int>,
        },
    decreases i,
{
    if i > 0 {
        assert(!(cache[0].valid && cache[0].key == key));
        lemma_cache_lookup_prefix(cache.drop_first(), key, i - 1);
        assert(cache.drop_first().skip(i - 1) =~= cache.skip(i));
    } else {
        assert(cache.skip(0) =~= cache);
    }
}

/// Ring of pending deltas: contiguous byte storage plus per-entry offsets and
/// lengths, reset as a whole after each paint-frame flush.
pub struct DeltaRing {
    pub buf: Vec<u8>,
    pub offsets: Vec<u32>,
    pub lengths: Vec<u16>,
    pub count: u32,
    pub cursor: u32,
}

impl DeltaRing {
    /// The pending delta messages, oldest first.
    pub open spec fn entries(&self) -> Seq<Seq<u8>> {
        Seq::new(
            self.count as nat,
            |i: int| self.buf@.subrange(
                self.offsets@[i] as int,
                self.offsets@[i] + self.lengths@[i],
            ),
        )
    }

    pub open spec fn wf(&self) -> bool {
        &&& self.buf@.len() == DELTA_BUF_CAP
        &&& self.offsets@.len() == DELTA_RING_CAP
        &&& self.lengths@.len() == DELTA_RING_CAP
        &&& self.count <= DELTA_RING_CAP
        &&& self.cursor <= DELTA_BUF_CAP
        &&& forall|i: int| 0 <= i < self.count
            ==> #[trigger] self.offsets@[i] + self.lengths@[i] <= self.cursor
    }

    pub fn new() -> (r: DeltaRing)
        ensures
            r.wf(),
            r.count == 0,
            r.cursor == 0,
            r.entries() =~= Seq::<Seq<u8>>::empty(),
    {
        let mut buf: Vec<u8> = Vec::new();
        let mut i: usize = 0;
        while i < DELTA_BUF_CAP
            invariant
                buf@.len() == i,
                i <= DELTA_BUF_CAP,
            decreases DELTA_BUF_CAP - i,
        {
            buf.push(0u8);
            i = i + 1;
        }
        let mut offsets: Vec<u32> = Vec::new();
        let mut j: usize = 0;
        while j < DELTA_RING_CAP
            invariant
                offsets@.len() == j,
                j <= DELTA_RING_CAP,
            decreases DELTA_RING_CAP - j,
        {
            offsets.push(0u32);
            j = j + 1;
        }
        let mut lengths: Vec<u16> = Vec::new();
        let mut k: usize = 0;
        while k < DELTA_RING_CAP
            invariant
                lengths@.len() == k,
                k <= DELTA_RING_CAP,
            decreases DELTA_RING_CAP - k,
        {
            lengths.push(0u16);
            k = k + 1;
        }
        DeltaRing { buf, offsets, lengths, count: 0, cursor: 0 }
    }

    /// Append one delta to the ring. Returns false when the ring is full, in
    /// which case nothing changes.
    pub fn push(&mut self, data: &[u8]) -> (ok: bool)
        requires
            old(self).wf(),
            data@.len() <= INPUT_CAP,
        ensures
            final(self).wf(),
            ok == !(old(self).count >= DELTA_RING_CAP
                || old(self).cursor + data@.len() > DELTA_BUF_CAP),
            ok ==> final(self).entries() =~= old(self).entries().push(data@)
                && final(self).count == old(self).count + 1,
            !ok ==> *final(self) == *old(self),
    {
        let n: usize = self.count as usize;
        let c: usize = self.cursor as usize;
        if n >= DELTA_RING_CAP || c + data.len() > DELTA_BUF_CAP {
            return false;
        }
        let mut i: usize = 0;
        while i < data.len()
            invariant
                old(self).wf(),
                i <= data@.len(),
                c == old(self).cursor,
                c + data@.len() <= DELTA_BUF_CAP,
                self.buf@.len() == DELTA_BUF_CAP,
                self.buf@.subrange(c as int, c + i) =~= data@.take(i as int),
                self.buf@.take(c as int) =~= old(self).buf@.take(c as int),
                self.offsets == old(self).offsets,
                self.lengths == old(self).lengths,
                self.count == old(self).count,
                self.cursor == old(self).cursor,
            decreases data@.len() - i,
        {
            self.buf.set(c + i, data[i]);
            proof {
                assert(self.buf@.subrange(c as int, c + i + 1) =~= data@.take(i + 1 as int));
                assert(self.buf@.take(c as int) =~= old(self).buf@.take(c as int));
            }
            i = i + 1;
        }
        self.offsets.set(n, c as u32);
        self.lengths.set(n, data.len() as u16);
        self.count = (n + 1) as u32;
        self.cursor = (c + data.len()) as u32;
        proof {
            assert forall|j: int| 0 <= j < old(self).count
                implies self.entries()[j] == old(self).entries()[j] by {
                assert(old(self).offsets@[j] + old(self).lengths@[j] <= c);
                assert(self.offsets@[j] == old(self).offsets@[j]);
                assert(self.lengths@[j] == old(self).lengths@[j]);
                let a = old(self).offsets@[j] as int;
                let b = a + old(self).lengths@[j];
                assert forall|k: int| a <= k < b
                    implies self.buf@[k] == old(self).buf@[k] by {
                    assert(self.buf@.take(c as int)[k] == old(self).buf@.take(c as int)[k]);
                }
                assert(self.buf@.subrange(a, b) =~= old(self).buf@.subrange(a, b));
            }
            assert(self.buf@.subrange(c as int, c + data@.len()) =~= data@);
            assert(self.entries()[old(self).count as int] =~= data@);
            assert(self.entries() =~= old(self).entries().push(data@));
        }
        true
    }

    /// Forget all pending deltas.
    pub fn clear(&mut self)
        requires
            old(self).wf(),
        ensures
            final(self).wf(),
            final(self).count == 0,
            final(self).cursor == 0,
            final(self).entries() =~= Seq::<Seq<u8>>::empty(),
    {
        self.count = 0;
        self.cursor = 0;
    }
}

/// The whole transport state: input staging buffer, current snapshot,
/// prediction cache, pending-prediction bookkeeping, and the delta ring.
pub struct Transport {
    pub input: Vec<u8>,
    pub current: Slot,
    pub cache: Vec<CacheEntry>,
    pub cache_cursor: usize,
    pub result_len: u32,
    pub predicted_hash: u32,
    pub pending_action_hash: u32,
    pub pending_pre_hash: u32,
    pub has_pending: bool,
    pub deltas: DeltaRing,
}

impl Transport {
    pub open spec fn wf(&self) -> bool {
        &&& self.input@.len() == INPUT_CAP
        &&& self.current.wf()
        &&& self.deltas.wf()
        &&& self.cache@.len() == CACHE_N
        &&& forall|i: int| 0 <= i < CACHE_N ==> (#[trigger] self.cache@[i]).wf()
        &&& forall|i: int| 0 <= i < CACHE_N
            ==> ((#[trigger] self.cache@[i]).valid
                ==> self.cache@[i].slot.hash == spec_fnv(self.cache@[i].slot.bytes()))
    }

    pub fn new() -> (t: Transport)
        ensures
            t.wf(),
            t.current.len == 0,
            t.current.hash == 0,
            t.result_len == 0,
            t.predicted_hash == 0,
            !t.has_pending,
            t.cache_cursor == 0,
            t.deltas.count == 0,
            forall|i: int| 0 <= i < CACHE_N ==> !(#[trigger] t.cache@[i]).valid,
    {
        let mut input: Vec<u8> = Vec::new();
        let mut i: usize = 0;
        while i < INPUT_CAP
            invariant
                input@.len() == i,
                i <= INPUT_CAP,
            decreases INPUT_CAP - i,
        {
            input.push(0u8);
            i = i + 1;
        }
        let mut cache: Vec<CacheEntry> = Vec::new();
        let mut j: usize = 0;
        while j < CACHE_N
            invariant
                cache@.len() == j,
                j <= CACHE_N,
                forall|k: int| 0 <= k < j ==> (#[trigger] cache@[k]).wf(),
                forall|k: int| 0 <= k < j ==> !(#[trigger] cache@[k]).valid,
            decreases CACHE_N - j,
        {
            cache.push(CacheEntry::new());
            j = j + 1;
        }
        Transport {
            input,
            current: Slot::new(),
            cache,
            cache_cursor: 0,
            result_len: 0,
            predicted_hash: 0,
            pending_action_hash: 0,
            pending_pre_hash: 0,
            has_pending: false,
            deltas: DeltaRing::new(),
        }
    }

    /// Write `data` to the front of the input staging buffer; this stands for
    /// the caller filling the shared buffer before an operation.
    pub fn set_input(&mut self, data: &[u8])
        requires
            old(self).wf(),
            data@.len() <= INPUT_CAP,
        ensures
            final(self).wf(),
            final(self).input@.take(data@.len() as int) == data@,
            final(self).input@.skip(data@.len() as int)
                == old(self).input@.skip(data@.len() as int),
            final(self).current == old(self).current,
            final(self).cache == old(self).cache,
            final(self).cache_cursor == old(self).cache_cursor,
            final(self).result_len == old(self).result_len,
            final(self).predicted_hash == old(self).predicted_hash,
            final(self).pending_action_hash == old(self).pending_action_hash,
            final(self).pending_pre_hash == old(self).pending_pre_hash,
            final(self).has_pending == old(self).has_pending,
            final(self).deltas == old(self).deltas,
    {
        let mut i: usize = 0;
        while i < data.len()
            invariant
                old(self).wf(),
                i <= data@.len(),
                data@.len() <= INPUT_CAP,
                self.input@.len() == INPUT_CAP,
                self.input@.take(i as int) =~= data@.take(i as int),
                self.input@.skip(data@.len() as int)
                    =~= old(self).input@.skip(data@.len() as int),
                self.current == old(self).current,
                self.cache == old(self).cache,
                self.cache_cursor == old(self).cache_cursor,
                self.result_len == old(self).result_len,
                self.predicted_hash == old(self).predicted_hash,
                self.pending_action_hash == old(self).pending_action_hash,
                self.pending_pre_hash == old(self).pending_pre_hash,
                self.has_pending == old(self).has_pending,
                self.deltas == old(self).deltas,
            decreases data@.len() - i,
        {
            self.input.set(i, data[i]);
            proof {
                assert(self.input@.take(i + 1 as int) =~= data@.take(i + 1 as int));
                assert(self.input@.skip(data@.len() as int)
                    =~= old(self).input@.skip(data@.len() as int));
            }
            i = i + 1;
        }
        proof {
            assert(self.input@.take(data@.len() as int) =~= data@);
        }
    }

    /// The current authoritative snapshot; empty after boot.
    pub fn init(&self) -> (r: Vec<u8>)
        requires
            self.wf(),
        ensures
            r@ == self.current.bytes(),
    {
        let n: usize = self.current.len as usize;
        slice_take(self.current.data.as_slice(), n)
    }

    /// Length of the last `reduce` result: zero on a cache miss, the
    /// predicted snapshot's byte length on a hit.
    pub fn snapshot_len(&self) -> (r: u32)
        ensures
            r == self.result_len,
    {
        self.result_len
    }

    /// Predict the result of the action held in the first `action_len` bytes
    /// of the input buffer: record the pending (state, action) pair so that
    /// `store` can learn, then search the cache. On a hit the predicted
    /// snapshot is returned and `snapshot_len` is its length; on a miss the
    /// current snapshot is returned and `snapshot_len` is zero.
    #[verifier::rlimit(50)]
    pub fn reduce(&mut self, action_len: u32) -> (r: Vec<u8>)
        requires
            old(self).wf(),
            action_len <= INPUT_CAP,
        ensures
            final(self).wf(),
            final(self).pending_action_hash
                == spec_fnv(old(self).input@.take(action_len as int)),
            final(self).pending_pre_hash == old(self).current.hash,
            final(self).has_pending,
            final(self).current == old(self).current,
            final(self).cache == old(self).cache,
            final(self).cache_cursor == old(self).cache_cursor,
            final(self).input == old(self).input,
            final(self).deltas == old(self).deltas,
            match spec_cache_lookup(
                old(self).cache@,
                spec_make_key(
                    old(self).current.hash,
                    spec_fnv(old(self).input@.take(action_len as int)),
                ),
            ) {
                Some(i) => {
                    &&& r@ == old(self).cache@[i].slot.bytes()
                    &&& final(self).result_len == old(self).cache@[i].slot.len
                    &&& final(self).predicted_hash == old(self).cache@[i].slot.hash
                },
                None => {
                    &&& r@ == old(self).current.bytes()
                    &&& final(self).result_len == 0
                    &&& final(self).predicted_hash == 0
                },
            },
    {
        let action = slice_take(self.input.as_slice(), action_len as usize);
        let action_hash = fnv(action.as_slice());
        let key = make_key(self.current.hash, action_hash);

        self.pending_action_hash = action_hash;
        self.pending_pre_hash = self.current.hash;
        self.has_pending = true;

        let mut i: usize = 0;
        #[verifier::loop_isolation(false)]
        while i < CACHE_N
            invariant
                *self == old(self).with_pending(action_hash),
                i <= CACHE_N,
                forall|j: int| 0 <= j < i
                    ==> !(#[trigger] self.cache@[j].valid && self.cache@[j].key == key),
            decreases CACHE_N - i,
        {
            if self.cache[i].valid && self.cache[i].key == key {
                proof {
                    lemma_cache_lookup_prefix(self.cache@, key, i as int);
                    assert(spec_cache_lookup(self.cache@.skip(i as int), key) == Some(0int));
                }
                self.result_len = self.cache[i].slot.len;
                self.predicted_hash = self.cache[i].slot.hash;
                let n: usize = self.cache[i].slot.len as usize;
                let r = slice_take(self.cache[i].slot.data.as_slice(), n);
                return r;
            }
            i = i + 1;
        }
        proof {
            lemma_cache_lookup_prefix(self.cache@, key, CACHE_N as int);
            assert(self.cache@.skip(CACHE_N as int) =~= Seq::<CacheEntry>::empty());
        }
        self.result_len = 0;
        self.predicted_hash = 0;
        let n: usize = self.current.len as usize;
        slice_take(self.current.data.as_slice(), n)
    }

    /// Ghost helper: this transport with only the pending-prediction fields
    /// rewritten, as `reduce` leaves it before searching the cache.
    pub open spec fn with_pending(self, action_hash: u32) -> Transport {
        Transport {
            pending_action_hash: action_hash,
            pending_pre_hash: self.current.hash,
            has_pending: true,
            ..self
        }
    }

    /// Store the authoritative snapshot held in the first `snap_len` bytes of
    /// the input buffer. If a prediction was pending, the snapshot is learned
    /// into the cache at the round-robin cursor. Returns 0 when no re-render
    /// is needed (the prediction was confirmed, or the snapshot duplicates
    /// the current one) and 1 when the current snapshot changed.
    pub fn store(&mut self, snap_len: u32) -> (r: u32)
        requires
            old(self).wf(),
        ensures
            final(self).wf(),
            snap_len == 0 || snap_len > INPUT_CAP ==> r == 0 && *final(self) == *old(self),
            1 <= snap_len <= INPUT_CAP ==> {
                let snap = old(self).input@.take(snap_len as int);
                let h = spec_fnv(snap);
                // The snapshot that duplicates the current one is dropped.
                &&& (old(self).current.len > 0 && h == old(self).current.hash
                    && !(old(self).predicted_hash != 0 && h == old(self).predicted_hash)
                    ==> r == 0 && final(self).current == old(self).current)
                // A confirmed prediction or a duplicate returns 0.
                &&& (r == 0 <==> ((old(self).predicted_hash != 0
                        && h == old(self).predicted_hash)
                    || (old(self).current.len > 0 && h == old(self).current.hash)))
                // After a 1, the current snapshot is the stored bytes.
                &&& (r == 1 ==> final(self).current.bytes() == snap
                    && final(self).current.hash == h
                    && final(self).result_len == snap_len)
                // A confirmed prediction still updates the current snapshot.
                &&& (old(self).predicted_hash != 0 && h == old(self).predicted_hash
                    ==> final(self).current.bytes() == snap && final(self).result_len == 0)
                &&& final(self).predicted_hash == 0
                &&& !final(self).has_pending
                // Learning: a pending prediction inserts the snapshot at the
                // round-robin cursor and advances it.
                &&& (old(self).has_pending && snap_len <= SLOT_CAP ==> {
                    let idx = old(self).cache_cursor % (CACHE_N as usize);
                    &&& final(self).cache@ == old(self).cache@.update(
                        idx as int,
                        final(self).cache@[idx as int],
                    )
                    &&& final(self).cache@[idx as int].valid
                    &&& final(self).cache@[idx as int].key == spec_make_key(
                        old(self).pending_pre_hash,
                        old(self).pending_action_hash,
                    )
                    &&& final(self).cache@[idx as int].slot.bytes() == snap
                    &&& final(self).cache_cursor == if old(self).cache_cursor == usize::MAX {
                        0usize
                    } else {
                        (old(self).cache_cursor + 1) as usize
                    }
                })
                &&& (!old(self).has_pending ==> final(self).cache == old(self).cache
                    && final(self).cache_cursor == old(self).cache_cursor)
                &&& final(self).input == old(self).input
                &&& final(self).deltas == old(self).deltas
            },
            r == 0 || r == 1,
    {
        if snap_len == 0 || snap_len as usize > INPUT_CAP {
            return 0;
        }

        let snap = slice_take(self.input.as_slice(), snap_len as usize);
        let snap_hash = fnv(snap.as_slice());

        if self.has_pending {
            let key = make_key(self.pending_pre_hash, self.pending_action_hash);
            if snap_len as usize <= SLOT_CAP {
                let idx: usize = self.cache_cursor % CACHE_N;
                let mut entry = CacheEntry::new();
                entry.key = key;
                entry.slot.write(snap.as_slice());
                entry.valid = true;
                proof {
                    assert(entry.slot.bytes() =~= snap@);
                }
                self.cache.set(idx, entry);
                self.cache_cursor = self.cache_cursor.wrapping_add(1);
                proof {
                    assert forall|i: int| 0 <= i < CACHE_N
                        implies (#[trigger] self.cache@[i]).wf() by {
                        if i != idx {
                            assert(self.cache@[i] == old(self).cache@[i]);
                        }
                    }
                }
            }
            self.has_pending = false;
        }

        if self.predicted_hash != 0 && snap_hash == self.predicted_hash {
            self.current.write(snap.as_slice());
            self.predicted_hash = 0;
            self.result_len = 0;
            proof {
                assert(self.current.bytes() =~= snap@);
            }
            return 0;
        }
        self.predicted_hash = 0;

        if !self.current.is_empty() && snap_hash == self.current.hash {
            return 0;
        }

        self.current.write(snap.as_slice());
        self.result_len = self.current.len;
        proof {
            assert(self.current.bytes() =~= snap@);
        }
        1
    }

    /// Append the first `len` input bytes to the delta ring. Returns the new
    /// count of pending deltas, or 0 when the ring is full or `len` is out of
    /// range (the caller then processes the delta without the transport).
    pub fn delta_push(&mut self, len: u32) -> (r: u32)
        requires
            old(self).wf(),
        ensures
            final(self).wf(),
            len == 0 || len > INPUT_CAP ==> r == 0 && *final(self) == *old(self),
            1 <= len <= INPUT_CAP ==> {
                let data = old(self).input@.take(len as int);
                // the push lands exactly when the ring has room
                &&& (r > 0 <==> (old(self).deltas.count < DELTA_RING_CAP
                    && old(self).deltas.cursor + len <= DELTA_BUF_CAP))
                &&& (r > 0 ==> final(self).deltas.entries()
                        == old(self).deltas.entries().push(data)
                    && r == final(self).deltas.count
                    && final(self).deltas.count == old(self).deltas.count + 1)
                &&& (r == 0 ==> final(self).deltas == old(self).deltas)
                &&& final(self).current == old(self).current
                &&& final(self).cache == old(self).cache
                &&& final(self).input == old(self).input
            },
    {
        if len == 0 || len as usize > INPUT_CAP {
            return 0;
        }
        let data = slice_take(self.input.as_slice(), len as usize);
        if self.deltas.push(data.as_slice()) {
            self.deltas.count
        } else {
            0
        }
    }

    /// Number of pending deltas in the ring.
    pub fn delta_count(&self) -> (r: u32)
        ensures
            r == self.deltas.count,
    {
        self.deltas.count
    }

    /// Byte length of the pending delta at `idx`, or 0 when out of range.
    pub fn delta_len(&self, idx: u32) -> (r: u32)
        requires
            self.wf(),
        ensures
            idx < self.deltas.count ==> r == self.deltas.entries()[idx as int].len(),
            idx >= self.deltas.count ==> r == 0,
    {
        if idx >= self.deltas.count {
            return 0;
        }
        self.deltas.lengths[idx as usize] as u32
    }

    /// The bytes of the pending delta at `idx`; empty when out of range.
    pub fn delta_at(&self, idx: u32) -> (r: Vec<u8>)
        requires
            self.wf(),
        ensures
            idx < self.deltas.count ==> r@ == self.deltas.entries()[idx as int],
            idx >= self.deltas.count ==> r@ =~= Seq::<u8>::empty(),
    {
        if idx >= self.deltas.count {
            return Vec::new();
        }
        let off: usize = self.deltas.offsets[idx as usize] as usize;
        let len: usize = self.deltas.lengths[idx as usize] as usize;
        let mut r: Vec<u8> = Vec::new();
        let mut i: usize = 0;
        while i < len
            invariant
                self.wf(),
                idx < self.deltas.count,
                off == self.deltas.offsets@[idx as int],
                len == self.deltas.lengths@[idx as int],
                off + len <= self.deltas.buf@.len(),
                i <= len,
                r@ =~= self.deltas.buf@.subrange(off as int, off + i),
            decreases len - i,
        {
            r.push(self.deltas.buf[off + i]);
            proof {
                assert(r@ =~= self.deltas.buf@.subrange(off as int, off + i + 1));
            }
            i = i + 1;
        }
        proof {
            assert(r@ =~= self.deltas.entries()[idx as int]);
        }
        r
    }

    /// Reset the delta ring; called after a paint-frame flush.
    pub fn delta_clear(&mut self)
        requires
            old(self).wf(),
        ensures
            final(self).wf(),
            final(self).deltas.count == 0,
            final(self).deltas.entries() =~= Seq::<Seq<u8>>::empty(),
            final(self).current == old(self).current,
            final(self).cache == old(self).cache,
            final(self).input == old(self).input,
    {
        self.deltas.clear();
    }
}

} // verus!
