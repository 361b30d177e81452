//! A perfect-hash table from integer keys to index ranges.
//!
//! The table is built once from a complete set of keys and queried many
//! times. A query hashes the key, reduces the hash modulo the table's
//! length, and unpacks the range stored there. It is exact for the keys
//! the table was built from; any other key may land on a slot of one of
//! them.

use std::ops::Range;
use vstd::prelude::*;

verus! {

/// `ahash::RandomState`: the keys of a hasher. Nothing of its content is
/// visible here.
#[verifier::external_type_specification]
#[verifier::external_body]
pub struct ExRandomState(ahash::RandomState);

/// What `RandomState::hash_one` returns for a `u64` value `key`, as a
/// function of the hasher's own keys, which `state` holds and never
/// changes, and of `key`.
pub uninterp spec fn hash_one_value(state: ahash::RandomState, key: u64) -> u64;

/// `RandomState::with_seed`: a hasher keyed by `seed` and by keys that the
/// process draws once from the system. Nothing is claimed of the hasher.
#[verifier::external_body]
fn random_state_with_seed(seed: usize) -> (state: ahash::RandomState) {
    ahash::RandomState::with_seed(seed)
}

/// `RandomState::hash_one` on a `u64`: the hash that this hasher gives
/// this value, the same at every call.
#[verifier::external_body]
fn random_state_hash_one(state: &ahash::RandomState, key: u64) -> (hash: u64)
    ensures
        hash == hash_one_value(*state, key),
{
    state.hash_one(key)
}

/// `Rng::gen` on `thread_rng()`: a random `u64`, drawn from a generator
/// that the system seeds. Nothing is claimed of it.
#[verifier::external_body]
fn random_seed() -> (seed: u64) {
    rand::Rng::gen(&mut rand::thread_rng())
}

/// The longest table that a build may grow to.
pub const MAX_TABLE_LEN: usize = 0x10_0000;

/// Why a table could not be built.
#[derive(Clone, Copy, Debug, PartialEq, Eq, Structural)]
pub enum PhfError {
    /// A range that is not empty ends above `u32::MAX` and cannot be
    /// packed.
    RangeTooLarge,
    /// No seed placed every key without conflict before the table reached
    /// `MAX_TABLE_LEN`.
    Exhausted,
}

/// A seeded hash function on keys.
pub struct Hasher {
    hasher: ahash::RandomState,
}

impl Hasher {
    /// The hash of `key`.
    pub closed spec fn spec_hash(&self, key: u32) -> usize {
        hash_one_value(self.hasher, key as u64) as usize
    }

    /// A hasher for `seed`. The same seed gives the same hasher within a
    /// process, but not from one process to another.
    pub fn from_seed(seed: u64) -> (hasher: Hasher) {
        Hasher { hasher: random_state_with_seed(#[verifier::truncate] (seed as usize)) }
    }

    /// The hash of `key`: the same whenever this hasher is asked.
    pub fn hash(&self, key: u32) -> (hash: usize)
        ensures
            hash == self.spec_hash(key),
    {
        #[verifier::truncate]
        (random_state_hash_one(&self.hasher, key as u64) as usize)
    }
}

/// Whether a range holds no index.
pub open spec fn range_is_empty(range: Range<usize>) -> bool {
    range.start >= range.end
}

/// Two ranges count as equal when both are empty or when they are the
/// same range.
pub open spec fn spec_range_eq(a: Range<usize>, b: Range<usize>) -> bool {
    (range_is_empty(a) && range_is_empty(b)) || a == b
}

/// Whether two ranges are equal, all empty ranges counting as equal.
pub fn range_eq(a: &Range<usize>, b: &Range<usize>) -> (equal: bool)
    ensures
        equal == spec_range_eq(*a, *b),
{
    if a.start >= a.end && b.start >= b.end {
        true
    } else if a.start == b.start && a.end == b.end {
        true
    } else {
        false
    }
}

/// The packed form of a range: zero for every empty range, else the start
/// in the lower and the end in the upper 32 bits.
pub open spec fn packed(range: Range<usize>) -> u64 {
    if range_is_empty(range) {
        0
    } else {
        (range.start as u64) | ((range.end as u64) << 32u64)
    }
}

/// Start of a packed range: its lower 32 bits.
pub open spec fn packed_start(value: u64) -> int {
    (value & 0xFFFF_FFFF) as int
}

/// End of a packed range: its upper 32 bits.
pub open spec fn packed_end(value: u64) -> int {
    (value >> 32u64) as int
}

/// The range that a packed value stands for.
pub open spec fn unpacked(value: u64) -> Range<usize> {
    Range { start: packed_start(value) as usize, end: packed_end(value) as usize }
}

/// What a query returns for a key that was built with `range`: the range
/// itself, or `0..0` where it is empty.
pub open spec fn stored(range: Range<usize>) -> Range<usize> {
    if range_is_empty(range) {
        Range { start: 0, end: 0 }
    } else {
        range
    }
}

/// Whether every range that is not empty can be packed.
pub open spec fn ranges_fit(values: Seq<(u32, Range<usize>)>) -> bool {
    forall|i: int|
        0 <= i < values.len() ==> range_is_empty((#[trigger] values[i]).1) || values[i].1.end
            <= u32::MAX
}

/// Whether two pairs of a key and its range may share a slot: both ranges
/// are empty, or the two are one and the same pair.
pub open spec fn may_share(a: (u32, Range<usize>), b: (u32, Range<usize>)) -> bool {
    (range_is_empty(a.1) && range_is_empty(b.1)) || a == b
}

/// Whether any two pairs of `values` may share a slot, so that no hash
/// can bring them into conflict.
pub open spec fn pairs_agree(values: Seq<(u32, Range<usize>)>) -> bool {
    forall|i: int, j: int|
        0 <= i < values.len() && 0 <= j < values.len() ==> may_share(
            #[trigger] values[i],
            #[trigger] values[j],
        )
}

/// The number of ranges that are not empty.
pub open spec fn count_nonempty(values: Seq<(u32, Range<usize>)>) -> nat
    decreases values.len(),
{
    if values.len() == 0 {
        0
    } else {
        count_nonempty(values.drop_last()) + if range_is_empty(values.last().1) {
            0nat
        } else {
            1nat
        }
    }
}

/// Whether `n` is a power of two.
pub open spec fn is_power_of_two(n: int) -> bool
    decreases n,
{
    n == 1 || (n > 1 && n % 2 == 0 && is_power_of_two(n / 2))
}

/// The slot of `key` in a table of `len` slots under `hasher`.
pub open spec fn slot_of(hasher: Hasher, len: int, key: u32) -> int {
    hasher.spec_hash(key) as int % len
}

/// Whether `hasher` places every key of `values` in a table of `len`
/// slots without conflict: two keys share a slot only where both of their
/// ranges are empty. A pair that is listed twice is one key, and in
/// conflict with nothing but a different range for that key.
pub open spec fn conflict_free(values: Seq<(u32, Range<usize>)>, hasher: Hasher, len: int) -> bool {
    forall|i: int, j: int|
        0 <= i < values.len() && 0 <= j < values.len() && slot_of(
            hasher,
            len,
            (#[trigger] values[i]).0,
        ) == slot_of(hasher, len, (#[trigger] values[j]).0) ==> may_share(values[i], values[j])
}

/// Packing loses nothing: a packed range unpacks to what is stored for
/// it, and two ranges pack alike exactly when they are equal.
pub proof fn lemma_packed(a: Range<usize>, b: Range<usize>)
    requires
        range_is_empty(a) || a.end <= u32::MAX,
        range_is_empty(b) || b.end <= u32::MAX,
    ensures
        unpacked(packed(a)) == stored(a),
        packed(a) == packed(b) <==> spec_range_eq(a, b),
        packed(a) == 0 <==> range_is_empty(a),
        packed(a) != u64::MAX,
{
    let s1 = a.start as u64;
    let e1 = a.end as u64;
    let s2 = b.start as u64;
    let e2 = b.end as u64;
    assert((0u64 & 0xFFFF_FFFF) == 0 && (0u64 >> 32u64) == 0) by (bit_vector);
    if !range_is_empty(a) {
        assert(((s1 | (e1 << 32u64)) & 0xFFFF_FFFF) == s1 && ((s1 | (e1 << 32u64)) >> 32u64) == e1
            && (s1 | (e1 << 32u64)) != 0 && (s1 | (e1 << 32u64)) != 0xFFFF_FFFF_FFFF_FFFFu64)
            by (bit_vector)
            requires
                s1 < e1,
                e1 <= 0xFFFF_FFFF,
        ;
    }
    if !range_is_empty(b) {
        assert(((s2 | (e2 << 32u64)) & 0xFFFF_FFFF) == s2 && ((s2 | (e2 << 32u64)) >> 32u64) == e2
            && (s2 | (e2 << 32u64)) != 0) by (bit_vector)
            requires
                s2 < e2,
                e2 <= 0xFFFF_FFFF,
        ;
    }
}

/// The marker of a slot that no key has taken yet, while a table is being
/// built. No range packs to it.
const FREE: u64 = 0xFFFF_FFFF_FFFF_FFFF;

/// Of two powers of two, the smaller is at most half of the larger.
proof fn lemma_power_of_two_gap(p: int, m: int)
    requires
        is_power_of_two(p),
        is_power_of_two(m),
        p < m,
    ensures
        2 * p <= m,
        is_power_of_two(2 * p),
    decreases m,
{
    if p > 1 {
        lemma_power_of_two_gap(p / 2, m / 2);
    }
    assert((2 * p) / 2 == p);
}

/// Pairs that agree never conflict, whatever the hash.
proof fn lemma_agree_conflict_free(values: Seq<(u32, Range<usize>)>, hasher: Hasher, len: int)
    requires
        pairs_agree(values),
    ensures
        conflict_free(values, hasher, len),
{
}

/// Counting one more value.
proof fn lemma_count_step(values: Seq<(u32, Range<usize>)>, i: int)
    requires
        0 <= i < values.len(),
    ensures
        count_nonempty(values.take(i + 1)) == count_nonempty(values.take(i)) + if range_is_empty(
            values[i].1,
        ) {
            0nat
        } else {
            1nat
        },
        count_nonempty(values.take(i + 1)) <= i + 1,
    decreases i,
{
    assert(values.take(i + 1).drop_last() =~= values.take(i));
    if i > 0 {
        lemma_count_step(values, i - 1);
    } else {
        assert(values.take(0).len() == 0);
    }
}

/// The least power of two that is not below `n`.
fn power_of_two_from(n: usize) -> (p: usize)
    requires
        1 <= n <= MAX_TABLE_LEN,
    ensures
        is_power_of_two(p as int),
        n <= p <= MAX_TABLE_LEN,
        p == 1 || p / 2 < n,
{
    let mut p: usize = 1;
    proof {
        reveal_with_fuel(is_power_of_two, 22);
        assert(is_power_of_two(0x10_0000));
    }
    while p < n
        invariant
            is_power_of_two(p as int),
            is_power_of_two(MAX_TABLE_LEN as int),
            1 <= p <= MAX_TABLE_LEN,
            n <= MAX_TABLE_LEN,
            p == 1 || p / 2 < n,
        decreases MAX_TABLE_LEN - p,
    {
        proof {
            lemma_power_of_two_gap(p as int, MAX_TABLE_LEN as int);
        }
        p = p * 2;
    }
    p
}

/// A table that holds a set of keys answers each of them with a range
/// that is equal to the range it was built with, and with that very range
/// where it is not empty.
pub proof fn lemma_fidelity(table: PhfRange, values: Seq<(u32, Range<usize>)>, i: int)
    requires
        table.holds(values),
        0 <= i < values.len(),
    ensures
        spec_range_eq(table.spec_get(values[i].0), values[i].1),
        !range_is_empty(values[i].1) ==> table.spec_get(values[i].0) == values[i].1,
{
}

/// A perfect-hash table from keys to ranges.
pub struct PhfRange {
    hasher: Hasher,
    table: Vec<u64>,
}

impl PhfRange {
    /// The packed ranges, slot by slot.
    pub closed spec fn table(&self) -> Seq<u64> {
        self.table@
    }

    /// The hash function of the table.
    pub closed spec fn hasher(&self) -> Hasher {
        self.hasher
    }

    /// A table has at least one slot.
    #[verifier::type_invariant]
    spec fn wf(&self) -> bool {
        self.table@.len() > 0
    }

    /// What a query for `key` returns.
    pub open spec fn spec_get(&self, key: u32) -> Range<usize> {
        unpacked(self.table()[slot_of(self.hasher(), self.table().len() as int, key)])
    }

    /// Whether the table answers every key of `values` with what is
    /// stored for its range.
    pub open spec fn holds(&self, values: Seq<(u32, Range<usize>)>) -> bool {
        forall|i: int|
            0 <= i < values.len() ==> self.spec_get((#[trigger] values[i]).0) == stored(values[i].1)
    }

    /// Whether every slot that no key of `values` selects holds the empty
    /// range.
    pub open spec fn empty_elsewhere(&self, values: Seq<(u32, Range<usize>)>) -> bool {
        forall|s: int|
            0 <= s < self.table().len() && (forall|i: int|
                0 <= i < values.len() ==> slot_of(
                    self.hasher(),
                    self.table().len() as int,
                    (#[trigger] values[i]).0,
                ) != s) ==> #[trigger] self.table()[s] == 0
    }

    /// The range stored for `key`: the range it was built with, where the
    /// table was built from `key`.
    pub fn get(&self, key: u32) -> (range: Range<usize>)
        ensures
            range == self.spec_get(key),
    {
        proof {
            use_type_invariant(self);
        }
        let idx = self.hasher.hash(key) % self.table.len();
        let value: u64 = self.table[idx];
        let start64: u64 = value & 0xFFFF_FFFF;
        let end64: u64 = value >> 32u64;
        assert(start64 <= 0xFFFF_FFFF && end64 <= 0xFFFF_FFFF) by (bit_vector)
            requires
                start64 == value & 0xFFFF_FFFF,
                end64 == value >> 32u64,
        ;
        (start64 as usize)..(end64 as usize)
    }

    /// Places every key of `values` in a table of `table_len` slots under
    /// `hasher`, if that can be done without conflict.
    ///
    /// Each key goes to the slot that its hash selects. Keys with empty
    /// ranges share a slot with one another. A key with a range that is
    /// not empty needs a slot of its own: it is in conflict with any other
    /// key it finds there, and with another range listed for itself, and
    /// then no table is made. A slot that no key takes reads as the empty
    /// range.
    pub fn try_build(values: &[(u32, Range<usize>)], hasher: Hasher, table_len: usize) -> (built:
        Option<PhfRange>)
        ensures
            built is Some <==> table_len > 0 && ranges_fit(values@) && conflict_free(
                values@,
                hasher,
                table_len as int,
            ),
            built matches Some(phf) ==> {
                &&& phf.hasher() == hasher
                &&& phf.table().len() == table_len
                &&& phf.holds(values@)
                &&& phf.empty_elsewhere(values@)
            },
    {
        if table_len == 0 {
            return None;
        }
        let mut table: Vec<u64> = vec![FREE; table_len];
        let mut keys: Vec<u32> = vec![0u32; table_len];
        let ghost len = table_len as int;
        let ghost mut owner: Seq<int> = Seq::new(table_len as nat, |s: int| -1);
        let mut i: usize = 0;
        while i < values.len()
            invariant
                table_len > 0,
                len == table_len,
                i <= values@.len(),
                table@.len() == table_len,
                keys@.len() == table_len,
                owner.len() == table_len,
                forall|j: int|
                    0 <= j < i ==> range_is_empty((#[trigger] values@[j]).1) || values@[j].1.end
                        <= u32::MAX,
                forall|j: int|
                    0 <= j < i ==> table@[slot_of(hasher, len, (#[trigger] values@[j]).0)]
                        == packed(values@[j].1),
                forall|j: int|
                    0 <= j < i && !range_is_empty((#[trigger] values@[j]).1) ==> keys@[slot_of(
                        hasher,
                        len,
                        values@[j].0,
                    )] == values@[j].0,
                forall|s: int|
                    0 <= s < table_len && #[trigger] table@[s] != FREE ==> 0 <= owner[s] < i
                        && slot_of(hasher, len, values@[owner[s]].0) == s && keys@[s]
                        == values@[owner[s]].0,
            decreases values@.len() - i,
        {
            let key: u32 = values[i].0;
            let start: usize = values[i].1.start;
            let end: usize = values[i].1.end;
            let value: u64 = if start >= end {
                0
            } else {
                if end > 0xFFFF_FFFF {
                    return None;
                }
                (start as u64) | ((end as u64) << 32u64)
            };
            let idx = hasher.hash(key) % table_len;
            let current: u64 = table[idx];
            proof {
                lemma_packed(values@[i as int].1, values@[i as int].1);
                assert(idx == slot_of(hasher, len, values@[i as int].0));
            }
            if current == FREE {
                proof {
                    assert forall|j: int| 0 <= j < i implies slot_of(
                        hasher,
                        len,
                        (#[trigger] values@[j]).0,
                    ) != idx by {
                        lemma_packed(values@[j].1, values@[j].1);
                    }
                    owner = owner.update(idx as int, i as int);
                }
                table[idx] = value;
                keys[idx] = key;
            } else if !(current == 0 && value == 0) && !(current == value && keys[idx] == key) {
                proof {
                    let j = owner[idx as int];
                    lemma_packed(values@[j].1, values@[i as int].1);
                    assert(slot_of(hasher, len, values@[j].0) == slot_of(
                        hasher,
                        len,
                        values@[i as int].0,
                    ));
                    assert(!may_share(values@[j], values@[i as int]));
                }
                return None;
            }
            i = i + 1;
        }
        proof {
            assert forall|a: int, b: int|
                0 <= a < values@.len() && 0 <= b < values@.len() && slot_of(
                    hasher,
                    len,
                    (#[trigger] values@[a]).0,
                ) == slot_of(hasher, len, (#[trigger] values@[b]).0) implies may_share(
                values@[a],
                values@[b],
            ) by {
                lemma_packed(values@[a].1, values@[b].1);
                lemma_packed(values@[b].1, values@[a].1);
            }
        }
        let mut s: usize = 0;
        while s < table_len
            invariant
                s <= table_len,
                len == table_len,
                i == values@.len(),
                table@.len() == table_len,
                conflict_free(values@, hasher, len),
                forall|j: int|
                    0 <= j < i ==> range_is_empty((#[trigger] values@[j]).1) || values@[j].1.end
                        <= u32::MAX,
                forall|j: int|
                    0 <= j < i ==> table@[slot_of(hasher, len, (#[trigger] values@[j]).0)]
                        == packed(values@[j].1),
                forall|t: int| 0 <= t < s ==> #[trigger] table@[t] != FREE,
                forall|t: int|
                    0 <= t < table_len && (forall|j: int|
                        0 <= j < i ==> slot_of(hasher, len, (#[trigger] values@[j]).0) != t)
                        ==> #[trigger] table@[t] == FREE || table@[t] == 0,
            decreases table_len - s,
        {
            if table[s] == FREE {
                proof {
                    assert forall|j: int| 0 <= j < i implies table@.update(s as int, 0u64)[slot_of(
                        hasher,
                        len,
                        (#[trigger] values@[j]).0,
                    )] == packed(values@[j].1) by {
                        lemma_packed(values@[j].1, values@[j].1);
                    }
                }
                table[s] = 0;
            }
            s = s + 1;
        }
        let phf = PhfRange { hasher, table };
        proof {
            assert forall|j: int| 0 <= j < values@.len() implies phf.spec_get(
                (#[trigger] values@[j]).0,
            ) == stored(values@[j].1) by {
                lemma_packed(values@[j].1, values@[j].1);
            }
        }
        Some(phf)
    }

    /// Builds a table for `values`, a complete set of keys with their
    /// ranges.
    ///
    /// The table starts at the least power of two above the number of
    /// ranges that are not empty. Seeds are drawn at random, and each is
    /// tried as by `try_build`. After `max_iter + 1` seeds have failed at
    /// one length, the length doubles; when that would pass
    /// `MAX_TABLE_LEN`, the build ends as `Exhausted`. Where no two keys
    /// can be in conflict, as where every range is empty, the first seed
    /// places them.
    pub fn new(values: &[(u32, Range<usize>)], max_iter: usize) -> (built: Result<
        PhfRange,
        PhfError,
    >)
        ensures
            match built {
                Ok(phf) => {
                    &&& ranges_fit(values@)
                    &&& phf.holds(values@)
                    &&& phf.empty_elsewhere(values@)
                    &&& conflict_free(values@, phf.hasher(), phf.table().len() as int)
                    &&& is_power_of_two(phf.table().len() as int)
                    &&& count_nonempty(values@) < phf.table().len() <= MAX_TABLE_LEN
                },
                Err(PhfError::RangeTooLarge) => !ranges_fit(values@),
                Err(PhfError::Exhausted) => ranges_fit(values@) && !(pairs_agree(values@)
                    && count_nonempty(values@) < MAX_TABLE_LEN),
            },
    {
        let mut count: usize = 0;
        let mut i: usize = 0;
        while i < values.len()
            invariant
                i <= values@.len(),
                count == count_nonempty(values@.take(i as int)),
                count <= i,
                forall|j: int|
                    0 <= j < i ==> range_is_empty((#[trigger] values@[j]).1) || values@[j].1.end
                        <= u32::MAX,
            decreases values@.len() - i,
        {
            proof {
                lemma_count_step(values@, i as int);
            }
            if values[i].1.start < values[i].1.end {
                if values[i].1.end > 0xFFFF_FFFF {
                    return Err(PhfError::RangeTooLarge);
                }
                count = count + 1;
            }
            i = i + 1;
        }
        assert(values@.take(values@.len() as int) =~= values@);
        if count >= MAX_TABLE_LEN {
            return Err(PhfError::Exhausted);
        }
        let mut table_len: usize = power_of_two_from(count + 1);
        proof {
            reveal_with_fuel(is_power_of_two, 22);
            assert(is_power_of_two(0x10_0000));
        }
        loop
            invariant
                ranges_fit(values@),
                count == count_nonempty(values@),
                count < table_len <= MAX_TABLE_LEN,
                is_power_of_two(table_len as int),
                is_power_of_two(MAX_TABLE_LEN as int),
            decreases MAX_TABLE_LEN - table_len,
        {
            let mut iter: usize = 0;
            loop
                invariant
                    ranges_fit(values@),
                    count == count_nonempty(values@),
                    count < table_len <= MAX_TABLE_LEN,
                    is_power_of_two(table_len as int),
                    iter <= max_iter,
                ensures
                    !pairs_agree(values@),
                decreases max_iter - iter,
            {
                let hasher = Hasher::from_seed(random_seed());
                proof {
                    if pairs_agree(values@) {
                        lemma_agree_conflict_free(values@, hasher, table_len as int);
                    }
                }
                match PhfRange::try_build(values, hasher, table_len) {
                    Some(phf) => {
                        return Ok(phf);
                    },
                    None => {},
                }
                if iter == max_iter {
                    break;
                }
                iter = iter + 1;
            }
            if table_len >= MAX_TABLE_LEN {
                return Err(PhfError::Exhausted);
            }
            proof {
                lemma_power_of_two_gap(table_len as int, MAX_TABLE_LEN as int);
            }
            table_len = table_len * 2;
        }
    }
}

} // verus!
