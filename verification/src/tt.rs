//! The transposition table: entries packed into one 64-bit word, checked
//! against the position key by an exclusive-or, with a depth- and
//! age-preferring replacement rule.
use vstd::prelude::*;
use vstd::arithmetic::power2::pow2;

verus! {

/// Mate score; scores beyond `MATE_TB` in absolute value are mate scores.
pub const MATE_VALUE: i32 = 30_000;
pub const MATE_TB: i32 = 29_000;
pub const TT_ENTRY_BYTES: usize = 16;
pub const DEFAULT_TT_POW2: u32 = 22;
pub const TRANSPOSITION_TABLE_ENABLED: bool = true;

pub const SCORE_OFFSET: i32 = 8_388_608;
pub const DEPTH_OFFSET: i16 = 128;

#[derive(Debug, Clone, Copy, PartialEq, Eq, Structural)]
pub enum Bound {
    Exact,
    Lower,
    Upper,
}

/// A table entry as returned by a probe.
#[derive(Debug, Clone, Copy, PartialEq, Eq, Structural)]
pub struct Entry {
    pub key: u64,
    pub score: i32,
    pub depth: i16,
    pub bound: Bound,
    pub best_from: u8,
    pub best_to: u8,
    pub age: u8,
}

impl Entry {
    /// The empty entry: depth -1 marks an unused slot.
    pub fn default_entry() -> (e: Entry)
        ensures
            e == (Entry { key: 0, score: 0, depth: -1i16, bound: Bound::Exact, best_from: 0, best_to: 0, age: 0 }),
    {
        Entry { key: 0, score: 0, depth: -1, bound: Bound::Exact, best_from: 0, best_to: 0, age: 0 }
    }
}

pub open spec fn bound_bits(b: Bound) -> u64 {
    match b {
        Bound::Exact => 0,
        Bound::Lower => 1,
        Bound::Upper => 2,
    }
}

pub open spec fn bits_bound(x: u64) -> Bound {
    if x == 0 { Bound::Exact } else if x == 1 { Bound::Lower } else { Bound::Upper }
}

/// The word holding the given fields: score+2^23 in bits 0-23, depth+128 in
/// bits 24-31, the bound in bits 32-33, the move squares in bits 34-39 and
/// 40-45, the age in bits 46-53; each field is cut to its width.
pub open spec fn spec_pack(score: i32, depth: i16, bound: Bound, best_from: u8, best_to: u8, age: u8) -> u64 {
    let sp = ((score as i64 + SCORE_OFFSET as i64) as u64) & 0xFF_FFFF;
    let dp = ((depth as i32 + DEPTH_OFFSET as i32) as u64) & 0xFF;
    let bp = bound_bits(bound) & 0x3;
    let fp = (best_from as u64) & 0x3F;
    let tp = (best_to as u64) & 0x3F;
    let ap = (age as u64) & 0xFF;
    sp | (dp << 24) | (bp << 32) | (fp << 34) | (tp << 40) | (ap << 46)
}

/// The fields read back from a word.
pub open spec fn spec_unpack(data: u64) -> (i32, i16, Bound, u8, u8, u8) {
    (
        ((data & 0xFF_FFFF) as i32 - SCORE_OFFSET) as i32,
        (((data >> 24) & 0xFF) as i16 - DEPTH_OFFSET) as i16,
        bits_bound((data >> 32) & 0x3),
        ((data >> 34) & 0x3F) as u8,
        ((data >> 40) & 0x3F) as u8,
        ((data >> 46) & 0xFF) as u8,
    )
}

fn bound_to_bits(b: Bound) -> (x: u64)
    ensures
        x == bound_bits(b),
{
    match b {
        Bound::Exact => 0,
        Bound::Lower => 1,
        Bound::Upper => 2,
    }
}

pub fn pack_data(score: i32, depth: i16, bound: Bound, best_from: u8, best_to: u8, age: u8) -> (d: u64)
    ensures
        d == spec_pack(score, depth, bound, best_from, best_to, age),
{
    let score_i64 = (score as i64) + (SCORE_OFFSET as i64);
    let score_packed = (score_i64 as u64) & 0xFF_FFFF;
    let depth_i32 = (depth as i32) + (DEPTH_OFFSET as i32);
    let depth_packed = (depth_i32 as u64) & 0xFF;
    let bound_packed = bound_to_bits(bound) & 0x3;
    let from_packed = (best_from as u64) & 0x3F;
    let to_packed = (best_to as u64) & 0x3F;
    let age_packed = (age as u64) & 0xFF;
    score_packed | (depth_packed << 24) | (bound_packed << 32) | (from_packed << 34) | (to_packed << 40) | (age_packed << 46)
}

pub fn unpack_data(data: u64) -> (r: (i32, i16, Bound, u8, u8, u8))
    ensures
        r == spec_unpack(data),
{
    proof {
        assert(data & 0xFF_FFFF <= 0xFF_FFFF) by (bit_vector);
        assert((data >> 24) & 0xFF <= 0xFF) by (bit_vector);
        assert((data >> 34) & 0x3F <= 0x3F) by (bit_vector);
        assert((data >> 40) & 0x3F <= 0x3F) by (bit_vector);
        assert((data >> 46) & 0xFF <= 0xFF) by (bit_vector);
    }
    let score_packed = (data & 0xFF_FFFF) as i32;
    let score = score_packed - SCORE_OFFSET;
    let depth_packed = ((data >> 24) & 0xFF) as i16;
    let depth = depth_packed - DEPTH_OFFSET;
    let bound_packed = (data >> 32) & 0x3;
    let bound = if bound_packed == 0 { Bound::Exact } else if bound_packed == 1 { Bound::Lower } else { Bound::Upper };
    let best_from = ((data >> 34) & 0x3F) as u8;
    let best_to = ((data >> 40) & 0x3F) as u8;
    let age = ((data >> 46) & 0xFF) as u8;
    (score, depth, bound, best_from, best_to, age)
}

proof fn lemma_fields(sp: u64, dp: u64, bp: u64, fp: u64, tp: u64, ap: u64)
    by (bit_vector)
    requires
        sp < 0x100_0000,
        dp < 0x100,
        bp < 4,
        fp < 0x40,
        tp < 0x40,
        ap < 0x100,
    ensures
        (sp | (dp << 24) | (bp << 32) | (fp << 34) | (tp << 40) | (ap << 46)) & 0xFF_FFFF == sp,
        ((sp | (dp << 24) | (bp << 32) | (fp << 34) | (tp << 40) | (ap << 46)) >> 24) & 0xFF == dp,
        ((sp | (dp << 24) | (bp << 32) | (fp << 34) | (tp << 40) | (ap << 46)) >> 32) & 0x3 == bp,
        ((sp | (dp << 24) | (bp << 32) | (fp << 34) | (tp << 40) | (ap << 46)) >> 34) & 0x3F == fp,
        ((sp | (dp << 24) | (bp << 32) | (fp << 34) | (tp << 40) | (ap << 46)) >> 40) & 0x3F == tp,
        ((sp | (dp << 24) | (bp << 32) | (fp << 34) | (tp << 40) | (ap << 46)) >> 46) & 0xFF == ap,
{
}

proof fn lemma_mask_small(x: u64, m: u64)
    by (bit_vector)
    requires
        x <= m,
        m == 0xFF_FFFF || m == 0xFF || m == 0x3 || m == 0x3F,
    ensures
        x & m == x,
{
}

/// Packing and unpacking give back the fields, for scores within 2^23 of
/// zero, depths from -128 to 127 and move squares below 64.
pub proof fn lemma_pack_unpack_roundtrip(score: i32, depth: i16, bound: Bound, best_from: u8, best_to: u8, age: u8)
    requires
        -8_388_608 <= score < 8_388_608,
        -128 <= depth <= 127,
        best_from < 64,
        best_to < 64,
    ensures
        spec_unpack(spec_pack(score, depth, bound, best_from, best_to, age)) == (score, depth, bound, best_from, best_to, age),
{
    let sp = ((score as i64 + SCORE_OFFSET as i64) as u64);
    let dp = ((depth as i32 + DEPTH_OFFSET as i32) as u64);
    let bp = bound_bits(bound);
    let fp = best_from as u64;
    let tp = best_to as u64;
    let ap = age as u64;
    assert(sp == score + 8_388_608);
    assert(dp == depth + 128);
    lemma_mask_small(sp, 0xFF_FFFF);
    lemma_mask_small(dp, 0xFF);
    lemma_mask_small(bp, 0x3);
    lemma_mask_small(fp, 0x3F);
    lemma_mask_small(tp, 0x3F);
    lemma_mask_small(ap, 0xFF);
    lemma_fields(sp, dp, bp, fp, tp, ap);
}


/// The word stored in an unused slot.
pub open spec fn empty_data() -> u64 {
    spec_pack(0i32, -1i16, Bound::Exact, 0u8, 0u8, 0u8)
}

/// A fixed-size table of `(key ^ data, data)` slots, indexed by the low
/// bits of the position key.
pub struct AtomicTranspositionTable {
    entries: Vec<(u64, u64)>,
    mask: usize,
    age: u64,
    used_slots: usize,
}

pub type TranspositionTable = AtomicTranspositionTable;

impl AtomicTranspositionTable {
    pub closed spec fn wf(self) -> bool {
        self.entries@.len() == self.mask + 1
    }

    pub closed spec fn slots(self) -> Seq<(u64, u64)> {
        self.entries@
    }

    pub closed spec fn spec_mask(self) -> usize {
        self.mask
    }

    pub closed spec fn spec_age(self) -> u64 {
        self.age
    }

    pub closed spec fn inv(self) -> bool {
        self.wf()
    }

    /// Every slot holds the unused word (as a fresh or cleared table does).
    pub open spec fn all_empty(self) -> bool {
        forall|i: int| 0 <= i < self.slots().len() ==> #[trigger] self.slots()[i] == (empty_data(), empty_data())
    }

    /// The slot a key falls into.
    pub open spec fn slot(self, key: u64) -> int {
        ((key as usize) & self.spec_mask()) as int
    }

    pub open spec fn current_age_spec(self) -> u8 {
        (self.spec_age() & 0xFF) as u8
    }

    /// What a probe for `key` finds: the slot's entry when its stored key is
    /// `key` and its depth is not negative.
    pub open spec fn spec_probe(self, key: u64) -> Option<Entry> {
        let (kx, data) = self.slots()[self.slot(key)];
        let (score, depth, bound, best_from, best_to, age) = spec_unpack(data);
        if !TRANSPOSITION_TABLE_ENABLED || kx ^ data != key || depth < 0 {
            None
        } else {
            Some(Entry { key, score, depth, bound, best_from, best_to, age })
        }
    }

    /// Whether a store of depth `depth` for `key` replaces the slot's entry:
    /// the slot is unused, or the new depth is greater, or equal with the old
    /// entry more than 8 ages old.
    pub open spec fn spec_replaces(self, key: u64, depth: i16) -> bool {
        let (_, data) = self.slots()[self.slot(key)];
        let (_, old_depth, _, _, _, old_age) = spec_unpack(data);
        old_depth < 0 || depth > old_depth
            || (depth == old_depth && vstd::wrapping::u8_specs::wrapping_sub(self.current_age_spec(), old_age) > 8)
    }

    /// The slot contents after a store that replaces: the given best move, or
    /// when none is given the old one if the old entry had the same key.
    pub open spec fn spec_stored_slot(self, key: u64, depth: i16, bound: Bound, score: i32, best_from: Option<u8>, best_to: Option<u8>) -> (u64, u64) {
        let (kx, old_data) = self.slots()[self.slot(key)];
        let (_, _, _, old_from, old_to, _) = spec_unpack(old_data);
        let old_key = kx ^ old_data;
        let (bf, bt) = match (best_from, best_to) {
            (Some(f), Some(t)) => (f, t),
            _ => if old_key == key { (old_from, old_to) } else { (0u8, 0u8) },
        };
        let data = spec_pack(score, depth, bound, bf, bt, self.current_age_spec());
        (key ^ data, data)
    }

    /// A table of 2^pow2 unused slots.
    pub fn with_capacity_pow2(pow2: u32) -> (t: Self)
        requires
            pow2 < 32,
        ensures
            t.inv(),
            t.slots().len() == vstd::arithmetic::power2::pow2(pow2 as nat),
            forall|i: int| 0 <= i < t.slots().len() ==> #[trigger] t.slots()[i] == (0u64 ^ empty_data(), empty_data()),
            t.all_empty(),
            forall|key: u64| #[trigger] t.spec_probe(key) is None,
            t.spec_age() == 0,
    {
        let size: usize = 1usize << pow2;
        proof {
            vstd::arithmetic::power2::lemma2_to64();
            if pow2 < 31 {
                vstd::arithmetic::power2::lemma_pow2_strictly_increases(pow2 as nat, 31);
            }
            vstd::bits::lemma_usize_shl_is_mul(1, pow2 as usize);
        }
        let default_data = pack_data(0, -1, Bound::Exact, 0, 0, 0);
        let mut entries: Vec<(u64, u64)> = Vec::with_capacity(size);
        let mut i: usize = 0;
        while i < size
            invariant
                i <= size,
                entries@.len() == i,
                default_data == empty_data(),
                forall|k: int| 0 <= k < i ==> #[trigger] entries@[k] == (0u64 ^ empty_data(), empty_data()),
            decreases size - i,
        {
            entries.push((0u64 ^ default_data, default_data));
            i = i + 1;
        }
        let t = AtomicTranspositionTable { entries, mask: size - 1, age: 0, used_slots: 0 };
        proof {
            let x = empty_data();
            assert(0u64 ^ x == x) by (bit_vector);
            assert forall|key: u64| #[trigger] t.spec_probe(key) is None by {
                let m = t.mask;
                let k = key as usize;
                assert(k & m <= m) by (bit_vector);
                lemma_pack_unpack_roundtrip(0i32, -1i16, Bound::Exact, 0u8, 0u8, 0u8);
            }
        }
        t
    }

    pub fn new_with_default_size() -> (t: Self)
        ensures
            t.inv(),
            t.slots().len() == vstd::arithmetic::power2::pow2(DEFAULT_TT_POW2 as nat),
            t.all_empty(),
            forall|key: u64| #[trigger] t.spec_probe(key) is None,
            t.spec_age() == 0,
    {
        Self::with_capacity_pow2(DEFAULT_TT_POW2)
    }

    fn index(&self, key: u64) -> (i: usize)
        requires
            self.inv(),
        ensures
            i == self.slot(key),
            i < self.slots().len(),
    {
        let i = (key as usize) & self.mask;
        proof {
            let m = self.mask;
            let k = key as usize;
            assert(k & m <= m) by (bit_vector);
        }
        i
    }

    /// Starts a new search generation.
    pub fn next_age(&mut self)
        ensures
            final(self).inv() == old(self).inv(),
            final(self).slots() == old(self).slots(),
            final(self).spec_mask() == old(self).spec_mask(),
            final(self).spec_age() == vstd::wrapping::u64_specs::wrapping_add(old(self).spec_age(), 1),
    {
        self.age = self.age.wrapping_add(1);
    }

    fn current_age(&self) -> (a: u8)
        ensures
            a == self.current_age_spec(),
    {
        proof {
            let x = self.age;
            assert(x & 0xFF <= 0xFF) by (bit_vector);
        }
        (self.age & 0xFF) as u8
    }

    /// Empties every slot and resets the generation.
    pub fn clear(&mut self)
        requires
            old(self).inv(),
        ensures
            final(self).inv(),
            final(self).slots().len() == old(self).slots().len(),
            final(self).spec_mask() == old(self).spec_mask(),
            final(self).all_empty(),
            forall|key: u64| #[trigger] final(self).spec_probe(key) is None,
            final(self).spec_age() == 0,
    {
        let default_data = pack_data(0, -1, Bound::Exact, 0, 0, 0);
        let mut i: usize = 0;
        let n = self.entries.len();
        while i < n
            invariant
                i <= n,
                n == self.entries@.len(),
                self.entries@.len() == self.mask + 1,
                self.mask == old(self).mask,
                default_data == empty_data(),
                forall|k: int| 0 <= k < i ==> #[trigger] self.entries@[k] == (default_data, default_data),
            decreases n - i,
        {
            self.entries.set(i, (default_data, default_data));
            i = i + 1;
        }
        self.age = 0;
        self.used_slots = 0;
        proof {
            assert forall|key: u64| #[trigger] self.spec_probe(key) is None by {
                let m = self.mask;
                let k = key as usize;
                assert(k & m <= m) by (bit_vector);
                lemma_pack_unpack_roundtrip(0i32, -1i16, Bound::Exact, 0u8, 0u8, 0u8);
            }
        }
    }

    /// The entry for `key`, when its slot holds one for that key.
    pub fn probe(&self, key: u64) -> (e: Option<Entry>)
        requires
            self.inv(),
        ensures
            e == self.spec_probe(key),
    {
        if !TRANSPOSITION_TABLE_ENABLED {
            return None;
        }
        let idx = self.index(key);
        let (key_xor, data) = self.entries[idx];
        let stored_key = key_xor ^ data;
        if stored_key != key {
            return None;
        }
        let (score, depth, bound, best_from, best_to, age) = unpack_data(data);
        if depth < 0 {
            return None;
        }
        Some(Entry { key, score, depth, bound, best_from, best_to, age })
    }

    /// Stores an entry when the replacement rule allows it.
    pub fn store(&mut self, key: u64, depth: i16, bound: Bound, score: i32, best_from: Option<u8>, best_to: Option<u8>)
        requires
            old(self).inv(),
        ensures
            final(self).inv(),
            final(self).spec_mask() == old(self).spec_mask(),
            final(self).spec_age() == old(self).spec_age(),
            final(self).slots() == (if TRANSPOSITION_TABLE_ENABLED && old(self).spec_replaces(key, depth) {
                old(self).slots().update(old(self).slot(key),
                    old(self).spec_stored_slot(key, depth, bound, score, best_from, best_to))
            } else {
                old(self).slots()
            }),
            TRANSPOSITION_TABLE_ENABLED && old(self).spec_replaces(key, depth) && 0 <= depth <= 127
                && -8_388_608 <= score < 8_388_608 && best_from is Some && best_to is Some
                && best_from.unwrap() < 64 && best_to.unwrap() < 64
                ==> final(self).spec_probe(key) == Some(Entry { key, score, depth, bound, best_from: best_from.unwrap(),
                    best_to: best_to.unwrap(), age: old(self).current_age_spec() }),
            TRANSPOSITION_TABLE_ENABLED && old(self).spec_replaces(key, depth) ==>
                forall|k2: u64| #[trigger] final(self).slot(k2) == old(self).slot(key) && k2 != key ==> final(self).spec_probe(k2) is None,
            forall|k2: u64| #[trigger] old(self).slot(k2) != old(self).slot(key) ==> final(self).spec_probe(k2) == old(self).spec_probe(k2),
    {
        let ghost old_t = *self;
        proof {
            assert forall|k2: u64| #[trigger] old_t.slot(k2) != old_t.slot(key) implies
                (if TRANSPOSITION_TABLE_ENABLED && old_t.spec_replaces(key, depth) {
                    old_t.slots().update(old_t.slot(key), old_t.spec_stored_slot(key, depth, bound, score, best_from, best_to))
                } else { old_t.slots() })[old_t.slot(k2)] == old_t.slots()[old_t.slot(k2)] by {
                let m = old_t.spec_mask();
                let k = k2 as usize;
                let kk = key as usize;
                assert(k & m <= m) by (bit_vector);
                assert(kk & m <= m) by (bit_vector);
            }
        }
        if !TRANSPOSITION_TABLE_ENABLED {
            return;
        }
        let idx = self.index(key);
        let (old_key_xor, old_data) = self.entries[idx];
        let (_, old_depth, _, old_best_from, old_best_to, old_age) = unpack_data(old_data);
        let old_key = old_key_xor ^ old_data;
        let current_age = self.current_age();
        let should_replace = old_depth < 0 || depth > old_depth
            || (depth == old_depth && current_age.wrapping_sub(old_age) > 8);
        if !should_replace {
            return;
        }
        let (bf, bt) = match (best_from, best_to) {
            (Some(f), Some(t)) => (f, t),
            _ => if old_key == key { (old_best_from, old_best_to) } else { (0u8, 0u8) },
        };
        let was_empty = old_depth < 0;
        let data = pack_data(score, depth, bound, bf, bt, current_age);
        let key_xor = key ^ data;
        self.entries.set(idx, (key_xor, data));
        proof {
            assert((key ^ data) ^ data == key) by (bit_vector);
            if 0 <= depth <= 127 && -8_388_608 <= score < 8_388_608 && best_from is Some && best_to is Some
                && best_from.unwrap() < 64 && best_to.unwrap() < 64 {
                lemma_store_then_probe(old_t, *self, key, depth, bound, score, best_from.unwrap(), best_to.unwrap());
            }
        }
        if was_empty && self.used_slots < usize::MAX {
            self.used_slots = self.used_slots + 1;
        }
    }
}

/// A probe right after a store that replaced gives back the stored entry
/// (for scores within 2^23 of zero, depths 0 to 127 and move squares below 64).
pub proof fn lemma_store_then_probe(t: AtomicTranspositionTable, t2: AtomicTranspositionTable, key: u64, depth: i16, bound: Bound, score: i32, f: u8, to: u8)
    requires
        t.inv(),
        t.spec_replaces(key, depth),
        t2.inv(),
        t2.spec_mask() == t.spec_mask(),
        t2.slots() == t.slots().update(t.slot(key), t.spec_stored_slot(key, depth, bound, score, Some(f), Some(to))),
        0 <= depth <= 127,
        -8_388_608 <= score < 8_388_608,
        f < 64,
        to < 64,
    ensures
        t2.spec_probe(key) == Some(Entry { key, score, depth, bound, best_from: f, best_to: to, age: t.current_age_spec() }),
{
    let m = t.spec_mask();
    let k = key as usize;
    assert(k & m <= m) by (bit_vector);
    lemma_pack_unpack_roundtrip(score, depth, bound, f, to, t.current_age_spec());
    let data = spec_pack(score, depth, bound, f, to, t.current_age_spec());
    assert((key ^ data) ^ data == key) by (bit_vector);
}

/// A probe gives a score within 2^23 of zero and a depth from 0 to 127.
pub proof fn lemma_probe_bounds(t: AtomicTranspositionTable, key: u64)
    requires
        t.inv(),
        t.spec_probe(key) is Some,
    ensures
        -8_388_608 <= t.spec_probe(key).unwrap().score < 8_388_608,
        0 <= t.spec_probe(key).unwrap().depth <= 127,
{
    lemma_slot_in_table(t, key);
    let data: u64 = t.slots()[t.slot(key)].1;
    assert(data & 0xFF_FFFF <= 0xFF_FFFF) by (bit_vector);
    assert((data >> 24) & 0xFF <= 0xFF) by (bit_vector);
}

/// A key's slot lies inside the table.
pub proof fn lemma_slot_in_table(t: AtomicTranspositionTable, key: u64)
    requires
        t.inv(),
    ensures
        0 <= t.slot(key) < t.slots().len(),
{
    let m = t.spec_mask();
    let k = key as usize;
    assert(k & m <= m) by (bit_vector);
}

/// On a table whose slots are all unused (fresh or cleared), every store
/// is taken and no probe finds anything.
pub proof fn lemma_empty_table_accepts(t: AtomicTranspositionTable, key: u64, depth: i16)
    requires
        t.inv(),
        t.all_empty(),
    ensures
        t.spec_replaces(key, depth),
        t.spec_probe(key) is None,
{
    lemma_slot_in_table(t, key);
    lemma_pack_unpack_roundtrip(0i32, -1i16, Bound::Exact, 0u8, 0u8, 0u8);
}

proof fn lemma_sample_slot_bound(t: AtomicTranspositionTable, start: usize, stride: usize, i: nat)
    requires
        start <= t.spec_mask(),
    ensures
        t.sample_slot(start, stride, i) <= t.spec_mask(),
    decreases i,
{
    if i > 0 {
        let x = vstd::wrapping::usize_specs::wrapping_add(t.sample_slot(start, stride, (i - 1) as nat), stride);
        let m = t.spec_mask();
        assert(x & m <= m) by (bit_vector);
    }
}

proof fn lemma_sampled_used_empty(t: AtomicTranspositionTable, start: usize, stride: usize, n: nat)
    requires
        t.inv(),
        t.all_empty(),
        start <= t.spec_mask(),
    ensures
        t.sampled_used(start, stride, n) == 0,
    decreases n,
{
    if n > 0 {
        lemma_sampled_used_empty(t, start, stride, (n - 1) as nat);
        lemma_sample_slot_bound(t, start, stride, (n - 1) as nat);
        lemma_pack_unpack_roundtrip(0i32, -1i16, Bound::Exact, 0u8, 0u8, 0u8);
    }
}

/// A table whose slots are all unused (fresh or cleared) reports 0 permille.
pub proof fn lemma_hashfull_empty(t: AtomicTranspositionTable)
    requires
        t.inv(),
        t.all_empty(),
    ensures
        t.spec_hashfull() == 0,
{
    let m = t.spec_mask();
    let a = t.spec_age() as usize;
    assert(a & m <= m) by (bit_vector);
    let len = t.slots().len() as int;
    if TRANSPOSITION_TABLE_ENABLED && len != 0 {
        let samples: int = if len < 1024 { len } else { 1024 };
        let stride0 = len / samples;
        let stride: int = if stride0 > 1 { stride0 } else { 1 };
        lemma_sampled_used_empty(t, a & m, stride as usize, samples as nat);
    }
}

/// A store leaves the probe of every key in another slot unchanged.
pub proof fn lemma_store_other_slot(t: AtomicTranspositionTable, t2: AtomicTranspositionTable, key: u64, other: u64, v: (u64, u64))
    requires
        t.inv(),
        t2.inv(),
        t2.spec_mask() == t.spec_mask(),
        t2.slots() == t.slots().update(t.slot(key), v),
        t.slot(other) != t.slot(key),
    ensures
        t2.spec_probe(other) == t.spec_probe(other),
{
    let m = t.spec_mask();
    let k = key as usize;
    let o = other as usize;
    assert(k & m <= m) by (bit_vector);
    assert(o & m <= m) by (bit_vector);
}


impl AtomicTranspositionTable {
    /// The `i`-th sampled slot: the first is `start`, and each next one lies
    /// `stride` slots further on, wrapping around the table.
    pub open spec fn sample_slot(self, start: usize, stride: usize, i: nat) -> usize
        decreases i,
    {
        if i == 0 {
            start
        } else {
            vstd::wrapping::usize_specs::wrapping_add(self.sample_slot(start, stride, (i - 1) as nat), stride) & self.spec_mask()
        }
    }

    /// Number of slots in use (depth not negative) among the first `n`
    /// sampled slots.
    pub open spec fn sampled_used(self, start: usize, stride: usize, n: nat) -> int
        decreases n,
    {
        if n == 0 {
            0
        } else {
            self.sampled_used(start, stride, (n - 1) as nat)
                + (if spec_unpack(self.slots()[self.sample_slot(start, stride, (n - 1) as nat) as int].1).1 >= 0 { 1int } else { 0int })
        }
    }

    /// Occupancy in permille: the share of used slots among up to 1024
    /// slots sampled at an even stride from the slot of the current age.
    pub open spec fn spec_hashfull(self) -> int {
        let len = self.slots().len() as int;
        if !TRANSPOSITION_TABLE_ENABLED || len == 0 {
            0
        } else {
            let samples: int = if len < 1024 { len } else { 1024 };
            let stride0 = len / samples;
            let stride: int = if stride0 > 1 { stride0 } else { 1 };
            let v = self.sampled_used((self.spec_age() as usize) & self.spec_mask(), stride as usize, samples as nat) * 1000 / samples;
            if v > 1000 { 1000 } else { v }
        }
    }

    /// Occupancy in permille, estimated from up to 1024 slots sampled at an
    /// even stride starting from the slot of the current age.
    pub fn hashfull_permille(&self) -> (h: u16)
        requires
            self.inv(),
        ensures
            h <= 1000,
            h == self.spec_hashfull(),
    {
        if !TRANSPOSITION_TABLE_ENABLED {
            return 0;
        }
        let len = self.entries.len();
        if len == 0 {
            return 0;
        }
        let samples = if len < 1024 { len } else { 1024 };
        let stride0 = len / samples;
        let stride = if stride0 > 1 { stride0 } else { 1 };
        let mut used: usize = 0;
        let m = self.mask;
        let a = self.age as usize;
        let mut idx = a & m;
        proof {
            assert(a & m <= m) by (bit_vector);
        }
        let mut i: usize = 0;
        while i < samples
            invariant
                i <= samples,
                samples <= 1024,
                used <= i,
                idx <= m,
                m == self.mask,
                self.inv(),
                len == self.entries@.len(),
                idx == self.sample_slot(a & m, stride, i as nat),
                used == self.sampled_used(a & m, stride, i as nat),
            decreases samples - i,
        {
            let data = self.entries[idx].1;
            let (_, depth, _, _, _, _) = unpack_data(data);
            if depth >= 0 {
                used = used + 1;
            }
            let nx = idx.wrapping_add(stride);
            idx = nx & m;
            proof {
                assert(nx & m <= m) by (bit_vector);
            }
            i = i + 1;
        }
        let v: u64 = (used as u64) * 1000 / (samples as u64);
        if v > 1000 { 1000 } else { v as u16 }
    }
}

/// The largest power of two below the word size fits in a `usize`, and a
/// sixteenth of the word range lies below the second largest one times two.
proof fn lemma_top_pow2_fits()
    ensures
        usize::BITS >= 32,
        pow2((usize::BITS - 1) as nat) <= usize::MAX,
        usize::MAX / 16 < pow2((usize::BITS - 2) as nat),
{
    vstd::layout::unsigned_int_max_values();
    vstd::layout::usize_size_pow2();
    vstd::arithmetic::power2::lemma2_to64();
    vstd::arithmetic::power2::lemma2_to64_rest();
    assert(usize::BITS == 32 || usize::BITS == 64);
    if usize::BITS == 32 {
        assert(usize::MAX == 0xffff_ffff);
        assert(pow2(31) == 0x8000_0000);
        assert(pow2(30) == 0x4000_0000);
    } else {
        assert(usize::MAX == 0xffff_ffff_ffff_ffff);
        assert(pow2(63) == 0x8000_0000_0000_0000);
        assert(pow2(62) == 0x4000_0000_0000_0000);
    }
}

/// Table size exponent for a hash size in megabytes: the largest p with
/// 2^p entries of 16 bytes fitting, clamped to 4..=30.
pub fn pow2_for_hash_mb(mb: usize) -> (p: u32)
    requires
        mb <= usize::MAX / 1048576usize,
    ensures
        4 <= p <= 30,
        ({
            let entries = (if mb > 1 { mb } else { 1 }) * 1024 * 1024 / 16;
            &&& (p > 4 ==> pow2(p as nat) <= entries)
            &&& (p < 30 ==> entries < pow2((p + 1) as nat))
        }),
{
    let m = if mb > 1 { mb } else { 1 };
    let bytes = m * 1024 * 1024;
    let entries = bytes / TT_ENTRY_BYTES;
    let mut p: u32 = 0;
    let max_pow2: u32 = usize::BITS - 1;
    proof {
        vstd::arithmetic::power2::lemma2_to64();
    }
    while p < max_pow2 && (1usize << p) <= entries
        invariant
            p <= max_pow2,
            max_pow2 == usize::BITS - 1,
            entries == m * 1024 * 1024 / 16,
            entries >= 65536,
            entries <= usize::MAX / 16,
            forall|q: nat| q < p ==> #[trigger] pow2(q) <= entries,
        decreases max_pow2 - p,
    {
        proof {
            vstd::arithmetic::power2::lemma_pow2_strictly_increases(p as nat, (usize::BITS - 1) as nat);
            vstd::arithmetic::power2::lemma2_to64();
            lemma_top_pow2_fits();
            vstd::bits::lemma_usize_shl_is_mul(1, p as usize);
        }
        let ghost pp = p;
        p = p + 1;
        proof {
            assert forall|q: nat| q < p implies #[trigger] pow2(q) <= entries by {
                if q < pp {
                } else {
                    assert(q == pp);
                }
            }
        }
    }
    proof {
        if p < max_pow2 {
            vstd::arithmetic::power2::lemma_pow2_strictly_increases(p as nat, (usize::BITS - 1) as nat);
            lemma_top_pow2_fits();
            vstd::bits::lemma_usize_shl_is_mul(1, p as usize);
            assert(entries < pow2(p as nat));
        } else {
            // the loop ran out of exponents: entries >= 2^(BITS-2) contradicts entries <= MAX/16
            vstd::arithmetic::power2::lemma2_to64();
            assert(pow2((usize::BITS - 2) as nat) <= entries);
            lemma_top_pow2_fits();
            assert(false);
        }
        assert(p >= 17) by {
            assert(pow2(16) <= entries);
            if p <= 16 {
                vstd::arithmetic::power2::lemma_pow2_strictly_increases(p as nat, 16);
            }
        }
    }
    let r = p - 1;
    let c = if r < 4 { 4 } else if r > 30 { 30 } else { r };
    proof {
        if c > 4 && c < 30 {
            assert(pow2(r as nat) <= entries);
        }
        if c == 30 {
            assert(pow2(30) <= pow2(r as nat)) by {
                if r > 30 {
                    vstd::arithmetic::power2::lemma_pow2_strictly_increases(30, r as nat);
                }
            }
        }
    }
    c
}

/// Square numbers 0..63 of a move's from and to squares.
pub fn encode_move(from: (usize, usize), to: (usize, usize)) -> (r: (u8, u8))
    requires
        from.0 < 8,
        from.1 < 8,
        to.0 < 8,
        to.1 < 8,
    ensures
        r.0 == from.0 * 8 + from.1,
        r.1 == to.0 * 8 + to.1,
{
    let f = (from.0 as u8) * 8 + (from.1 as u8);
    let t = (to.0 as u8) * 8 + (to.1 as u8);
    (f, t)
}

/// The squares of a move from its two square numbers.
pub open spec fn spec_decode_move(f: u8, t: u8) -> ((usize, usize), (usize, usize)) {
    (((f / 8) as usize, (f % 8) as usize), ((t / 8) as usize, (t % 8) as usize))
}

pub fn decode_move(f: u8, t: u8) -> (r: ((usize, usize), (usize, usize)))
    ensures
        r == spec_decode_move(f, t),
{
    let fr = (f / 8) as usize;
    let fc = (f % 8) as usize;
    let tr = (t / 8) as usize;
    let tc = (t % 8) as usize;
    ((fr, fc), (tr, tc))
}

/// Decoding an encoded move gives the move back.
pub proof fn lemma_encode_decode(from: (usize, usize), to: (usize, usize))
    requires
        from.0 < 8,
        from.1 < 8,
        to.0 < 8,
        to.1 < 8,
    ensures
        ({
            let f = (from.0 * 8 + from.1) as u8;
            let t = (to.0 * 8 + to.1) as u8;
            (((f / 8) as usize, (f % 8) as usize), ((t / 8) as usize, (t % 8) as usize)) == (from, to)
        }),
{
}

pub open spec fn spec_to_tt_score(score: int, ply: int) -> int {
    if score > MATE_TB { score + ply } else if score < -MATE_TB { score - ply } else { score }
}

pub open spec fn spec_from_tt_score(score: int, ply: int) -> int {
    if score > MATE_TB { score - ply } else if score < -MATE_TB { score + ply } else { score }
}

/// Stores mate scores relative to the node rather than the root.
pub fn to_tt_score(score: i32, ply: i32) -> (r: i32)
    requires
        i32::MIN <= spec_to_tt_score(score as int, ply as int) <= i32::MAX,
    ensures
        r == spec_to_tt_score(score as int, ply as int),
{
    if score > MATE_TB {
        return score + ply;
    }
    if score < -MATE_TB {
        return score - ply;
    }
    score
}

pub fn from_tt_score(score: i32, ply: i32) -> (r: i32)
    requires
        i32::MIN <= spec_from_tt_score(score as int, ply as int) <= i32::MAX,
    ensures
        r == spec_from_tt_score(score as int, ply as int),
{
    if score > MATE_TB {
        return score - ply;
    }
    if score < -MATE_TB {
        return score + ply;
    }
    score
}

/// Reading back a stored score at the same ply gives the score.
pub proof fn lemma_tt_score_roundtrip(score: int, ply: int)
    requires
        ply >= 0,
    ensures
        spec_from_tt_score(spec_to_tt_score(score, ply), ply) == score,
{
}

} // verus!
