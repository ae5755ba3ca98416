//! The identity memo table: an open-addressing hash map from the identity of an
//! original object to the identity of its clone.
//!
//! Slots are probed linearly from `hash & (size - 1)`; the slot count is always a
//! power of two; deleted slots hold a tombstone, which insertion may reuse but
//! which never ends a probe sequence. The table grows by doubling when
//! `filled / size` reaches 70%.

use vstd::prelude::*;
use vstd::arithmetic::power2::{pow2, lemma_pow2_pos, lemma_pow2_unfold, lemma2_to64};
use vstd::arithmetic::div_mod::{lemma_small_mod, lemma_mod_self_0};
use vstd::bits::lemma_u64_low_bits_mask_is_mod;
use crate::error::CopyError;
use crate::hash::{hash_pointer, spec_hash_pointer};

verus! {

/// Slot count of a table on its first insertion.
pub const INITIAL_SLOTS: usize = 16;

/// Above this slot count a table is shrunk when it is returned for reuse.
pub const RETAIN_MAX_SLOTS: usize = 131072;

/// The slot count that a large table is shrunk to.
pub const RETAIN_SHRINK_TO: usize = 8192;

/// The largest slot count a table may grow to.
pub const MAX_TABLE_SLOTS: usize = 67108864;

/// One slot of the table.
#[derive(Clone, Copy, Debug)]
pub enum Slot {
    Empty,
    Tombstone,
    Full(u64, u64),
}

/// Number of slots that hold an entry.
pub open spec fn count_full(s: Seq<Slot>) -> nat
    decreases s.len(),
{
    if s.len() == 0 {
        0
    } else {
        count_full(s.drop_last()) + if s.last() is Full { 1nat } else { 0nat }
    }
}

/// Number of slots that hold an entry or a tombstone.
pub open spec fn count_nonempty(s: Seq<Slot>) -> nat
    decreases s.len(),
{
    if s.len() == 0 {
        0
    } else {
        count_nonempty(s.drop_last()) + if s.last() is Empty { 0nat } else { 1nat }
    }
}

/// The slot reached `t` steps after slot `s` in a table of `n` slots.
pub open spec fn wrap(s: int, t: int, n: int) -> int {
    if s + t < n {
        s + t
    } else {
        s + t - n
    }
}

/// The number of steps from slot `s` to slot `i` in a table of `n` slots.
pub open spec fn offset(s: int, i: int, n: int) -> int {
    if i >= s {
        i - s
    } else {
        i + n - s
    }
}

/// The slot where the probe sequence of `key` starts.
pub open spec fn home(key: u64, n: int) -> int {
    (spec_hash_pointer(key) as int) % n
}

/// Every slot on the probe sequence of `key` before slot `i` is occupied.
pub open spec fn path_clear(slots: Seq<Slot>, n: int, key: u64, i: int) -> bool {
    forall|t: int|
        0 <= t < offset(home(key, n), i, n) ==> !(#[trigger] slots[wrap(home(key, n), t, n)] is Empty)
}

proof fn lemma_count_bounds(s: Seq<Slot>)
    ensures
        count_full(s) <= count_nonempty(s) <= s.len(),
    decreases s.len(),
{
    if s.len() > 0 {
        lemma_count_bounds(s.drop_last());
    }
}

proof fn lemma_count_update(s: Seq<Slot>, i: int, v: Slot)
    requires
        0 <= i < s.len(),
    ensures
        count_full(s.update(i, v)) + (if s[i] is Full { 1int } else { 0int }) == count_full(s) + (
        if v is Full { 1int } else { 0int }),
        count_nonempty(s.update(i, v)) + (if s[i] is Empty { 0int } else { 1int }) == count_nonempty(s)
            + (if v is Empty { 0int } else { 1int }),
    decreases s.len(),
{
    let u = s.update(i, v);
    if i == s.len() - 1 {
        assert(u.drop_last() =~= s.drop_last());
    } else {
        lemma_count_update(s.drop_last(), i, v);
        assert(u.drop_last() =~= s.drop_last().update(i, v));
    }
}

proof fn lemma_exists_empty(s: Seq<Slot>) -> (e: int)
    requires
        count_nonempty(s) < s.len(),
    ensures
        0 <= e < s.len(),
        s[e] is Empty,
    decreases s.len(),
{
    if s.last() is Empty {
        (s.len() - 1) as int
    } else {
        let e = lemma_exists_empty(s.drop_last());
        e
    }
}

proof fn lemma_all_empty(s: Seq<Slot>)
    requires
        forall|i: int| 0 <= i < s.len() ==> #[trigger] s[i] is Empty,
    ensures
        count_full(s) == 0,
        count_nonempty(s) == 0,
    decreases s.len(),
{
    if s.len() > 0 {
        lemma_all_empty(s.drop_last());
    }
}

proof fn lemma_mask(x: u64, n: nat, size: int)
    requires
        size == pow2(n),
        n < 64,
    ensures
        size > 0,
        x & ((size - 1) as u64) == x % (size as u64),
{
    lemma_pow2_pos(n);
    lemma_u64_low_bits_mask_is_mod(x, n);
}

proof fn lemma_next(idx: int, size: int)
    requires
        0 <= idx < size,
    ensures
        (idx + 1) % size == if idx + 1 < size { idx + 1 } else { 0 },
{
    if idx + 1 < size {
        lemma_small_mod((idx + 1) as nat, size as nat);
    } else {
        lemma_mod_self_0(size);
    }
}

/// The open-addressing memo table.
pub struct MemoTable {
    slots: Vec<Slot>,
    size: usize,
    used: usize,
    filled: usize,
    log2: Ghost<nat>,
    contents: Ghost<Map<u64, u64>>,
}

impl View for MemoTable {
    type V = Map<u64, u64>;

    closed spec fn view(&self) -> Map<u64, u64> {
        self.contents@
    }
}

impl MemoTable {
    /// The number of slots.
    pub closed spec fn capacity(&self) -> nat {
        self.size as nat
    }

    /// The number of slots holding an entry or a tombstone.
    pub closed spec fn occupied(&self) -> nat {
        self.filled as nat
    }

    /// Whether the next insertion must first grow the table.
    pub closed spec fn must_grow(&self) -> bool {
        self.size > 0 && self.filled * 10 >= self.size * 7
    }

    pub closed spec fn wf(&self) -> bool {
        &&& self.slots@.len() == self.size
        &&& self.contents@.dom().finite()
        &&& self.contents@.len() == self.used
        &&& self.used == count_full(self.slots@)
        &&& self.filled == count_nonempty(self.slots@)
        &&& self.size <= MAX_TABLE_SLOTS
        &&& self.size > 0 ==> {
            &&& self.size == pow2(self.log2@)
            &&& 4 <= self.log2@ <= 26
            &&& self.filled < self.size
        }
        &&& forall|i: int|
            0 <= i < self.size && #[trigger] self.slots@[i] is Full ==> {
                &&& self.contents@.contains_key(self.slots@[i]->Full_0)
                &&& self.contents@[self.slots@[i]->Full_0] == self.slots@[i]->Full_1
                &&& path_clear(self.slots@, self.size as int, self.slots@[i]->Full_0, i)
            }
        &&& forall|k: u64|
            #[trigger] self.contents@.contains_key(k) ==> exists|i: int|
                0 <= i < self.size && self.slots@[i] == Slot::Full(k, self.contents@[k])
        &&& forall|i: int, j: int|
            0 <= i < self.size && 0 <= j < self.size && #[trigger] self.slots@[i] is Full
                && #[trigger] self.slots@[j] is Full && self.slots@[i]->Full_0
                == self.slots@[j]->Full_0 ==> i == j
    }

    /// An empty table; no slot is allocated until the first insertion.
    pub fn new() -> (r: Self)
        ensures
            r.wf(),
            r@ == Map::<u64, u64>::empty(),
            r.capacity() == 0,
            r.occupied() == 0,
    {
        let r = MemoTable {
            slots: Vec::new(),
            size: 0,
            used: 0,
            filled: 0,
            log2: Ghost(0),
            contents: Ghost(Map::empty()),
        };
        proof {
            assert(r.slots@.len() == 0);
        }
        r
    }

    /// Slot count, live entries, and live entries plus tombstones.
    pub fn stats(&self) -> (r: (usize, usize, usize))
        requires
            self.wf(),
        ensures
            r.0 == self.capacity(),
            r.1 == self@.len(),
            r.2 == self.occupied(),
            r.1 <= r.2,
            r.0 > 0 ==> r.2 < r.0,
    {
        proof {
            lemma_count_bounds(self.slots@);
        }
        (self.size, self.used, self.filled)
    }

    /// The clone registered for `key`, if any; `hash` is the hash of `key`.
    pub fn lookup(&self, key: u64, hash: u64) -> (r: Option<u64>)
        requires
            self.wf(),
            hash == spec_hash_pointer(key),
        ensures
            r == if self@.contains_key(key) {
                Some(self@[key])
            } else {
                None::<u64>
            },
    {
        if self.size == 0 {
            return None;
        }
        let ghost n = self.size as int;
        let mask: u64 = (self.size - 1) as u64;
        proof {
            lemma_mask(hash, self.log2@, n);
        }
        let mut idx: usize = (hash & mask) as usize;
        let ghost s = home(key, n);
        let ghost mut t: int = 0;
        loop
            invariant
                self.wf(),
                n == self.size,
                n > 0,
                mask == n - 1,
                n == pow2(self.log2@),
                0 <= s < n,
                s == home(key, n),
                0 <= t < n,
                idx == wrap(s, t, n),
                forall|u: int|
                    0 <= u < t ==> !(#[trigger] self.slots@[wrap(s, u, n)] is Empty) && !(
                    self.slots@[wrap(s, u, n)] is Full && self.slots@[wrap(s, u, n)]->Full_0 == key),
            decreases n - t,
        {
            let slot = self.slots[idx];
            match slot {
                Slot::Empty => {
                    proof {
                        if self@.contains_key(key) {
                            let i = choose|i: int|
                                0 <= i < n && self.slots@[i] == Slot::Full(key, self@[key]);
                            let d = offset(s, i, n);
                            assert(wrap(s, d, n) == i);
                            if d > t {
                                assert(path_clear(self.slots@, n, key, i));
                                assert(!(self.slots@[wrap(s, t, n)] is Empty));
                            }
                        }
                    }
                    return None;
                },
                Slot::Full(k, v) => {
                    if k == key {
                        return Some(v);
                    }
                },
                Slot::Tombstone => {},
            }
            proof {
                let e = lemma_exists_empty(self.slots@);
                let d = offset(s, e, n);
                assert(wrap(s, d, n) == e);
                if d <= t {
                    assert(!(self.slots@[wrap(s, d, n)] is Empty));
                }
                lemma_next(idx as int, n);
                lemma_mask((idx + 1) as u64, self.log2@, n);
            }
            idx = ((idx as u64 + 1) & mask) as usize;
            proof {
                t = t + 1;
            }
        }
    }
    /// Registers `value` for `key` in a table with room for one more entry.
    fn insert_unchecked(&mut self, key: u64, value: u64, hash: u64) -> (fresh: bool)
        requires
            old(self).wf(),
            old(self).size > 0,
            old(self).filled + 1 < old(self).size,
            hash == spec_hash_pointer(key),
        ensures
            final(self).wf(),
            final(self)@ == old(self)@.insert(key, value),
            final(self).size == old(self).size,
            final(self).log2 == old(self).log2,
            fresh == !old(self)@.contains_key(key),
            fresh ==> final(self).used == old(self).used + 1 && final(self).filled <= old(self).filled + 1,
            !fresh ==> final(self).used == old(self).used && final(self).filled == old(self).filled,
    {
        let ghost n = self.size as int;
        let mask: u64 = (self.size - 1) as u64;
        proof {
            lemma_mask(hash, self.log2@, n);
        }
        let mut idx: usize = (hash & mask) as usize;
        let ghost s = home(key, n);
        let ghost mut t: int = 0;
        let mut first_tomb: Option<usize> = None;
        let ghost mut tomb_t: int = 0;
        loop
            invariant
                old(self).wf(),
                *self == *old(self),
                n == self.size,
                n > 0,
                mask == n - 1,
                n == pow2(self.log2@),
                self.filled + 1 < n,
                0 <= s < n,
                s == home(key, n),
                0 <= t < n,
                idx == wrap(s, t, n),
                forall|u: int|
                    0 <= u < t ==> !(#[trigger] self.slots@[wrap(s, u, n)] is Empty) && !(
                    self.slots@[wrap(s, u, n)] is Full && self.slots@[wrap(s, u, n)]->Full_0 == key),
                first_tomb matches Some(ft) ==> {
                    &&& 0 <= tomb_t < t
                    &&& ft == wrap(s, tomb_t, n)
                    &&& self.slots@[ft as int] is Tombstone
                },
            decreases n - t,
        {
            let slot = self.slots[idx];
            match slot {
                Slot::Empty => {
                    let target: usize = match first_tomb {
                        Some(ft) => ft,
                        None => idx,
                    };
                    let ghost target_t: int = match first_tomb {
                        Some(_) => tomb_t,
                        None => t,
                    };
                    let ghost old_slots = self.slots@;
                    let ghost m = self.contents@;
                    proof {
                        if m.contains_key(key) {
                            let i = choose|i: int| 0 <= i < n && old_slots[i] == Slot::Full(key, m[key]);
                            let d = offset(s, i, n);
                            assert(wrap(s, d, n) == i);
                            if d > t {
                                assert(path_clear(old_slots, n, key, i));
                                assert(!(old_slots[wrap(s, t, n)] is Empty));
                            }
                        }
                        assert(!m.contains_key(key));
                        lemma_count_bounds(old_slots);
                        lemma_count_update(old_slots, target as int, Slot::Full(key, value));
                        assert(wrap(s, target_t, n) == target);
                    }
                    self.slots.set(target, Slot::Full(key, value));
                    self.used = self.used + 1;
                    if first_tomb.is_none() {
                        self.filled = self.filled + 1;
                    }
                    self.contents = Ghost(m.insert(key, value));
                    proof {
                        let ns = self.slots@;
                        assert(ns == old_slots.update(target as int, Slot::Full(key, value)));
                        assert(offset(s, target as int, n) == target_t);
                        assert forall|u: int| 0 <= u < offset(home(key, n), target as int, n) implies !(
                        #[trigger] ns[wrap(home(key, n), u, n)] is Empty) by {
                            assert(!(old_slots[wrap(s, u, n)] is Empty));
                        }
                        assert forall|i: int| 0 <= i < n && #[trigger] ns[i] is Full implies {
                            &&& self.contents@.contains_key(ns[i]->Full_0)
                            &&& self.contents@[ns[i]->Full_0] == ns[i]->Full_1
                            &&& path_clear(ns, n, ns[i]->Full_0, i)
                        } by {
                            if i != target {
                                let k2 = ns[i]->Full_0;
                                assert(old_slots[i] is Full);
                                assert(path_clear(old_slots, n, k2, i));
                                assert forall|u: int| 0 <= u < offset(home(k2, n), i, n) implies !(
                                #[trigger] ns[wrap(home(k2, n), u, n)] is Empty) by {
                                    assert(!(old_slots[wrap(home(k2, n), u, n)] is Empty));
                                }
                            }
                        }
                        assert forall|k: u64| #[trigger] self.contents@.contains_key(k) implies exists|i: int|
                            0 <= i < n && ns[i] == Slot::Full(k, self.contents@[k]) by {
                            if k == key {
                                assert(ns[target as int] == Slot::Full(k, self.contents@[k]));
                            } else {
                                let i = choose|i: int| 0 <= i < n && old_slots[i] == Slot::Full(k, m[k]);
                                assert(ns[i] == Slot::Full(k, self.contents@[k]));
                            }
                        }
                        assert forall|i: int, j: int|
                            0 <= i < n && 0 <= j < n && #[trigger] ns[i] is Full && #[trigger] ns[j] is Full
                                && ns[i]->Full_0 == ns[j]->Full_0 implies i == j by {
                            if i != target && j != target {
                                assert(old_slots[i] is Full && old_slots[j] is Full);
                            } else if i != target {
                                assert(old_slots[i] is Full);
                                assert(m.contains_key(old_slots[i]->Full_0));
                            } else if j != target {
                                assert(old_slots[j] is Full);
                                assert(m.contains_key(old_slots[j]->Full_0));
                            }
                        }
                        lemma_count_bounds(ns);
                    }
                    return true;
                },
                Slot::Full(k, _) => {
                    if k == key {
                        let ghost old_slots = self.slots@;
                        let ghost m = self.contents@;
                        proof {
                            lemma_count_update(old_slots, idx as int, Slot::Full(key, value));
                        }
                        self.slots.set(idx, Slot::Full(key, value));
                        self.contents = Ghost(m.insert(key, value));
                        proof {
                            let ns = self.slots@;
                            assert(m.insert(key, value).dom() =~= m.dom());
                            assert forall|i: int| 0 <= i < n && #[trigger] ns[i] is Full implies {
                                &&& self.contents@.contains_key(ns[i]->Full_0)
                                &&& self.contents@[ns[i]->Full_0] == ns[i]->Full_1
                                &&& path_clear(ns, n, ns[i]->Full_0, i)
                            } by {
                                let k2 = ns[i]->Full_0;
                                assert(old_slots[i] is Full);
                                assert(path_clear(old_slots, n, k2, i));
                                assert forall|u: int| 0 <= u < offset(home(k2, n), i, n) implies !(
                                #[trigger] ns[wrap(home(k2, n), u, n)] is Empty) by {
                                    assert(!(old_slots[wrap(home(k2, n), u, n)] is Empty));
                                }
                                if i != idx {
                                    assert(old_slots[i]->Full_0 != key);
                                }
                            }
                            assert forall|k: u64| #[trigger] self.contents@.contains_key(k) implies exists|i: int|
                                0 <= i < n && ns[i] == Slot::Full(k, self.contents@[k]) by {
                                if k == key {
                                    assert(ns[idx as int] == Slot::Full(k, self.contents@[k]));
                                } else {
                                    let i = choose|i: int| 0 <= i < n && old_slots[i] == Slot::Full(k, m[k]);
                                    assert(ns[i] == Slot::Full(k, self.contents@[k]));
                                }
                            }
                            assert forall|i: int, j: int|
                                0 <= i < n && 0 <= j < n && #[trigger] ns[i] is Full && #[trigger] ns[j] is Full
                                    && ns[i]->Full_0 == ns[j]->Full_0 implies i == j by {
                                assert(old_slots[i] is Full && old_slots[j] is Full);
                            }
                        }
                        return false;
                    }
                },
                Slot::Tombstone => {
                    if first_tomb.is_none() {
                        first_tomb = Some(idx);
                        proof {
                            tomb_t = t;
                        }
                    }
                },
            }
            proof {
                let e = lemma_exists_empty(self.slots@);
                let d = offset(s, e, n);
                assert(wrap(s, d, n) == e);
                if d <= t {
                    assert(!(self.slots@[wrap(s, d, n)] is Empty));
                }
                lemma_next(idx as int, n);
                lemma_mask((idx + 1) as u64, self.log2@, n);
            }
            idx = ((idx as u64 + 1) & mask) as usize;
            proof {
                t = t + 1;
            }
        }
    }
    /// Rebuilds the table with `new_size` slots, rehashing the live entries only.
    fn resize(&mut self, new_size: usize, Ghost(new_log): Ghost<nat>)
        requires
            old(self).wf(),
            new_size == pow2(new_log),
            4 <= new_log <= 26,
            old(self).used + 1 < new_size,
        ensures
            final(self).wf(),
            final(self)@ == old(self)@,
            final(self).size == new_size,
            final(self).used == old(self).used,
            final(self).filled == old(self).used,
    {
        proof {
            lemma2_to64();
            if new_log < 26 {
                vstd::arithmetic::power2::lemma_pow2_strictly_increases(new_log, 26);
            }
        }
        let mut slots: Vec<Slot> = Vec::new();
        let mut i: usize = 0;
        while i < new_size
            invariant
                i <= new_size,
                slots@.len() == i,
                forall|j: int| 0 <= j < i ==> #[trigger] slots@[j] is Empty,
            decreases new_size - i,
        {
            slots.push(Slot::Empty);
            i = i + 1;
        }
        proof {
            lemma_all_empty(slots@);
        }
        let mut fresh = MemoTable {
            slots,
            size: new_size,
            used: 0,
            filled: 0,
            log2: Ghost(new_log),
            contents: Ghost(Map::empty()),
        };
        let mut j: usize = 0;
        while j < self.size
            invariant
                self.wf(),
                *self == *old(self),
                fresh.wf(),
                fresh.size == new_size,
                fresh.log2@ == new_log,
                fresh.used == fresh.filled,
                old(self).used + 1 < new_size,
                j <= self.size,
                forall|k: u64|
                    #[trigger] fresh@.contains_key(k) <==> exists|jj: int|
                        0 <= jj < j && #[trigger] self.slots@[jj] is Full && self.slots@[jj]->Full_0 == k,
                forall|k: u64| #[trigger] fresh@.contains_key(k) ==> self@.contains_key(k) && fresh@[k] == self@[k],
            decreases self.size - j,
        {
            let slot = self.slots[j];
            match slot {
                Slot::Full(k, v) => {
                    proof {
                        assert(self.slots@[j as int] is Full);
                        if fresh@.contains_key(k) {
                            let jj = choose|jj: int|
                                0 <= jj < j && #[trigger] self.slots@[jj] is Full && self.slots@[jj]->Full_0 == k;
                        }
                        assert(!fresh@.contains_key(k));
                        assert(fresh@.dom().subset_of(self@.dom().remove(k)));
                        vstd::set_lib::lemma_len_subset(fresh@.dom(), self@.dom().remove(k));
                    }
                    let h = hash_pointer(k);
                    let ghost before = fresh@;
                    fresh.insert_unchecked(k, v, h);
                    proof {
                        lemma_count_bounds(fresh.slots@);
                        assert forall|kk: u64| #[trigger] fresh@.contains_key(kk) <==> exists|jj: int|
                            0 <= jj < j + 1 && #[trigger] self.slots@[jj] is Full && self.slots@[jj]->Full_0 == kk by {
                            if kk != k && fresh@.contains_key(kk) {
                                assert(before.contains_key(kk));
                            }
                            if kk == k {
                                assert(self.slots@[j as int] is Full && self.slots@[j as int]->Full_0 == kk);
                            }
                        }
                    }
                },
                _ => {
                    proof {
                        assert forall|kk: u64| #[trigger] fresh@.contains_key(kk) <==> exists|jj: int|
                            0 <= jj < j + 1 && #[trigger] self.slots@[jj] is Full && self.slots@[jj]->Full_0 == kk by {
                            if exists|jj: int|
                                0 <= jj < j + 1 && #[trigger] self.slots@[jj] is Full && self.slots@[jj]->Full_0 == kk {
                                let jj = choose|jj: int|
                                    0 <= jj < j + 1 && #[trigger] self.slots@[jj] is Full && self.slots@[jj]->Full_0 == kk;
                                assert(jj != j);
                            }
                        }
                    }
                },
            }
            j = j + 1;
        }
        proof {
            assert forall|k: u64| #[trigger] self@.contains_key(k) implies fresh@.contains_key(k) by {
                let i = choose|i: int| 0 <= i < self.size && self.slots@[i] == Slot::Full(k, self@[k]);
                assert(self.slots@[i] is Full);
            }
            assert(fresh@ =~= self@);
        }
        *self = fresh;
    }

    /// Registers `value` as the clone of `key`, replacing an earlier registration;
    /// `hash` is the hash of `key`. Fails only when the table would have to grow
    /// past its largest size.
    pub fn insert(&mut self, key: u64, value: u64, hash: u64) -> (r: Result<(), CopyError>)
        requires
            old(self).wf(),
            hash == spec_hash_pointer(key),
        ensures
            final(self).wf(),
            r is Ok ==> final(self)@ == old(self)@.insert(key, value),
            r is Err ==> final(self)@ == old(self)@ && r == Err::<(), CopyError>(CopyError::AllocationFailure),
            r is Err <==> old(self).must_grow() && old(self).capacity() * 2 > MAX_TABLE_SLOTS,
            r is Err ==> *final(self) == *old(self),
            final(self)@.dom().finite(),
            r is Ok ==> final(self)@.len() == old(self)@.len() + if old(self)@.contains_key(key) {
                0int
            } else {
                1int
            },
            r is Ok ==> final(self).capacity() == if old(self).capacity() == 0 {
                INITIAL_SLOTS as nat
            } else if old(self).must_grow() {
                old(self).capacity() * 2
            } else {
                old(self).capacity()
            },
    {
        proof {
            lemma_count_bounds(self.slots@);
            lemma2_to64();
        }
        if self.size == 0 {
            self.resize(INITIAL_SLOTS, Ghost(4));
        } else if self.filled * 10 >= self.size * 7 {
            if self.size > MAX_TABLE_SLOTS / 2 {
                return Err(CopyError::AllocationFailure);
            }
            proof {
                lemma_pow2_unfold(self.log2@ + 1);
                if self.log2@ == 26 {
                    assert(self.size == 67108864);
                }
            }
            let new_size = self.size * 2;
            self.resize(new_size, Ghost(self.log2@ + 1));
        }
        proof {
            lemma_count_bounds(self.slots@);
        }
        self.insert_unchecked(key, value, hash);
        Ok(())
    }

    /// Drops every entry but keeps the slot count for reuse.
    pub fn clear(&mut self)
        requires
            old(self).wf(),
        ensures
            final(self).wf(),
            final(self)@ == Map::<u64, u64>::empty(),
            final(self).capacity() == old(self).capacity(),
            final(self).occupied() == 0,
    {
        let mut i: usize = 0;
        while i < self.size
            invariant
                self.slots@.len() == self.size,
                self.size == old(self).size,
                self.log2 == old(self).log2,
                old(self).wf(),
                i <= self.size,
                forall|j: int| 0 <= j < i ==> #[trigger] self.slots@[j] is Empty,
            decreases self.size - i,
        {
            self.slots.set(i, Slot::Empty);
            i = i + 1;
        }
        proof {
            lemma_all_empty(self.slots@);
        }
        self.used = 0;
        self.filled = 0;
        self.contents = Ghost(Map::empty());
        proof {
            assert(self.contents@.dom() =~= Set::empty());
        }
    }

    /// Shrinks a table whose slot count exceeds `RETAIN_MAX_SLOTS` to
    /// `RETAIN_SHRINK_TO` slots, when its entries fit there.
    pub fn shrink_if_large(&mut self)
        requires
            old(self).wf(),
        ensures
            final(self).wf(),
            final(self)@ == old(self)@,
            if old(self).capacity() > RETAIN_MAX_SLOTS && old(self)@.len() + 1 < RETAIN_SHRINK_TO {
                final(self).capacity() == RETAIN_SHRINK_TO && final(self).occupied() == old(self)@.len()
            } else {
                final(self).capacity() == old(self).capacity() && final(self).occupied() == old(self).occupied()
            },
    {
        proof {
            lemma_count_bounds(self.slots@);
        }
        if self.size > RETAIN_MAX_SLOTS && self.used + 1 < RETAIN_SHRINK_TO {
            proof {
                lemma2_to64();
            }
            self.resize(RETAIN_SHRINK_TO, Ghost(13));
        }
    }

    /// A table holds fewer entries than it has slots, unless it has none.
    pub proof fn lemma_len_below_capacity(&self)
        requires
            self.wf(),
        ensures
            self@.len() <= self.capacity(),
            self.capacity() > 0 ==> self@.len() < self.capacity(),
    {
        lemma_count_bounds(self.slots@);
    }
}

} // verus!
