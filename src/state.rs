//! The internal memo (memo table and retention buffer) and the pool that keeps
//! one of them for reuse between operations.

use vstd::prelude::*;
use crate::error::CopyError;

use crate::keepalive::{KeepAlive, MAX_CAPACITY, RETAIN_MAX, RETAIN_TARGET};
use crate::memo::{MemoTable, MAX_TABLE_SLOTS, RETAIN_MAX_SLOTS, RETAIN_SHRINK_TO};
use crate::memo_trait::Memo;

verus! {

/// The internal memo: the engine's own table and retention buffer.
pub struct ThreadLocalMemo {
    table: MemoTable,
    keepalive: KeepAlive,
    exposed: bool,
}

impl ThreadLocalMemo {
    pub closed spec fn spec_exposed(&self) -> bool {
        self.exposed
    }

    /// The slot count of the memo table.
    pub closed spec fn table_capacity(&self) -> nat {
        self.table.capacity()
    }

    /// The slots of the memo table holding an entry or a tombstone.
    pub closed spec fn table_occupied(&self) -> nat {
        self.table.occupied()
    }

    /// The capacity of the retention buffer.
    pub closed spec fn keep_capacity(&self) -> nat {
        self.keepalive.spec_capacity()
    }

    /// Slot count, live entries and occupied slots of the memo table, and the
    /// capacity of the retention buffer.
    pub fn stats(&self) -> (r: (usize, usize, usize, usize))
        requires
            self.inv(),
        ensures
            r.0 == self.table_capacity(),
            r.1 == self.entries().len(),
            r.2 == self.table_occupied(),
            r.3 == self.keep_capacity(),
    {
        let (size, used, filled) = self.table.stats();
        (size, used, filled, self.keepalive.capacity())
    }

    /// A fresh memo with an unallocated table and an empty buffer.
    pub fn new() -> (r: Self)
        ensures
            r.inv(),
            r.entries() == Map::<u64, u64>::empty(),
            r.retained() == Seq::<u64>::empty(),
            !r.spec_exposed(),
            r.table_capacity() == 0,
            r.table_occupied() == 0,
    {
        ThreadLocalMemo { table: MemoTable::new(), keepalive: KeepAlive::new(), exposed: false }
    }

    /// Whether the memo was handed out for inspection during the operation.
    pub fn is_exposed(&self) -> (r: bool)
        ensures
            r == self.spec_exposed(),
    {
        self.exposed
    }

    /// Marks the memo as handed out for inspection: it will not be reused.
    pub fn expose(&mut self)
        ensures
            final(self).spec_exposed(),
            final(self).inv() == old(self).inv(),
            final(self).entries() == old(self).entries(),
            final(self).retained() == old(self).retained(),
            final(self).table_capacity() == old(self).table_capacity(),
            final(self).keep_capacity() == old(self).keep_capacity(),
    {
        self.exposed = true;
    }

    /// Releases every registration and hold, keeping capacity.
    pub fn clear_internal(&mut self)
        requires
            old(self).inv(),
        ensures
            final(self).inv(),
            final(self).entries() == Map::<u64, u64>::empty(),
            final(self).retained() == Seq::<u64>::empty(),
            final(self).table_capacity() == old(self).table_capacity(),
            final(self).keep_capacity() == old(self).keep_capacity(),
            final(self).spec_exposed() == old(self).spec_exposed(),
            final(self).table_occupied() == 0,
    {
        self.table.clear();
        self.keepalive.clear();
    }

    /// Clears the memo and shrinks what ballooned past its ceiling.
    pub fn cleanup_internal(&mut self)
        requires
            old(self).inv(),
        ensures
            final(self).inv(),
            final(self).entries() == Map::<u64, u64>::empty(),
            final(self).retained() == Seq::<u64>::empty(),
            final(self).table_capacity() == if old(self).table_capacity() > RETAIN_MAX_SLOTS {
                RETAIN_SHRINK_TO as nat
            } else {
                old(self).table_capacity()
            },
            final(self).keep_capacity() == if old(self).keep_capacity() > RETAIN_MAX {
                RETAIN_TARGET as nat
            } else {
                old(self).keep_capacity()
            },
            final(self).spec_exposed() == old(self).spec_exposed(),
            final(self).table_occupied() == 0,
    {
        self.clear_internal();
        self.table.shrink_if_large();
        self.keepalive.shrink_if_large();
    }
}

impl ThreadLocalMemo {
    /// The memo table holds fewer entries than it has slots, unless it has none.
    pub proof fn lemma_entries_below_capacity(&self)
        requires
            self.inv(),
        ensures
            self.entries().len() <= self.table_capacity(),
            self.table_capacity() > 0 ==> self.entries().len() < self.table_capacity(),
    {
        self.table.lemma_len_below_capacity();
    }
}

impl Memo for ThreadLocalMemo {
    closed spec fn entries(&self) -> Map<u64, u64> {
        self.table@
    }

    closed spec fn retained(&self) -> Seq<u64> {
        self.keepalive@
    }

    closed spec fn inv(&self) -> bool {
        self.table.wf() && self.keepalive.wf()
    }

    closed spec fn table_full(&self) -> bool {
        self.table.must_grow() && self.table.capacity() * 2 > MAX_TABLE_SLOTS
    }

    closed spec fn buffer_full(&self) -> bool {
        self.keepalive@.len() == self.keepalive.spec_capacity() && self.keepalive.spec_capacity() * 2 > MAX_CAPACITY
    }

    open spec fn keeps_on_insert(&self) -> bool {
        false
    }

    fn lookup(&self, key: u64, hash: u64) -> (r: Option<u64>) {
        self.table.lookup(key, hash)
    }

    fn insert(&mut self, key: u64, value: u64, hash: u64) -> (r: Result<(), CopyError>) {
        self.table.insert(key, value, hash)
    }

    fn keepalive(&mut self, obj: u64) -> (r: Result<(), CopyError>) {
        self.keepalive.append(obj)
    }

    open spec fn spec_user_provided(&self) -> bool {
        false
    }

    fn is_user_provided(&self) -> (r: bool) {
        false
    }
}

/// Keeps one internal memo between operations of one execution context.
pub struct MemoPool {
    slot: Option<ThreadLocalMemo>,
}

impl MemoPool {
    /// The memo kept for reuse, if any.
    pub closed spec fn pooled(&self) -> Option<ThreadLocalMemo> {
        self.slot
    }

    pub open spec fn wf(&self) -> bool {
        self.pooled() matches Some(m) ==> m.inv()
    }

    /// An empty pool.
    pub fn new() -> (r: Self)
        ensures
            r.wf(),
            r.pooled() is None,
    {
        MemoPool { slot: None }
    }
}

/// `r` is what taking from a pool holding `pooled` yields: an empty,
/// unexposed memo, with the capacity of the pooled one when that one was
/// not exposed.
pub open spec fn taken_from(pooled: Option<ThreadLocalMemo>, r: ThreadLocalMemo) -> bool {
    &&& r.inv()
    &&& r.entries() == Map::<u64, u64>::empty()
    &&& r.retained() == Seq::<u64>::empty()
    &&& r.table_occupied() == 0
    &&& !r.spec_exposed()
    &&& match pooled {
        Some(m) => !m.spec_exposed() ==> r.table_capacity() == m.table_capacity() && r.keep_capacity()
            == m.keep_capacity(),
        None => true,
    }
}

/// `pooled` is what returning `memo` leaves in the pool: nothing when it was
/// exposed, else the memo emptied, with what ballooned shrunk.
pub open spec fn returned_to(memo: ThreadLocalMemo, pooled: Option<ThreadLocalMemo>) -> bool {
    &&& memo.spec_exposed() ==> pooled is None
    &&& !memo.spec_exposed() ==> (pooled matches Some(m) && {
        &&& m.inv()
        &&& m.entries() == Map::<u64, u64>::empty()
        &&& m.retained() == Seq::<u64>::empty()
        &&& m.table_occupied() == 0
        &&& !m.spec_exposed()
        &&& m.table_capacity() == if memo.table_capacity() > RETAIN_MAX_SLOTS {
            RETAIN_SHRINK_TO as nat
        } else {
            memo.table_capacity()
        }
        &&& m.keep_capacity() == if memo.keep_capacity() > RETAIN_MAX {
            RETAIN_TARGET as nat
        } else {
            memo.keep_capacity()
        }
    })
}

/// Takes the pooled memo, cleared, or makes a fresh one when the pool is empty
/// or its memo was exposed.
pub fn get_thread_local_memo(pool: &mut MemoPool) -> (r: ThreadLocalMemo)
    requires
        old(pool).wf(),
    ensures
        final(pool).wf(),
        final(pool).pooled() is None,
        taken_from(old(pool).pooled(), r),
{
    match pool.slot.take() {
        Some(mut existing) => {
            if existing.is_exposed() {
                ThreadLocalMemo::new()
            } else {
                existing.clear_internal();
                existing
            }
        },
        None => ThreadLocalMemo::new(),
    }
}

/// Cleans up `memo` (clears it and shrinks what ballooned) and keeps it for the
/// next operation, unless it was exposed: then it is abandoned.
pub fn return_thread_local_memo(pool: &mut MemoPool, memo: ThreadLocalMemo)
    requires
        memo.inv(),
    ensures
        final(pool).wf(),
        returned_to(memo, final(pool).pooled()),
{
    if memo.is_exposed() {
        pool.slot = None;
    } else {
        let mut memo = memo;
        memo.cleanup_internal();
        pool.slot = Some(memo);
    }
}

} // verus!
