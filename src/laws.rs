//! Properties of the copy engine that relate several states or operations,
//! proved from the contracts of the functions they speak of.

use vstd::prelude::*;
use crate::dispatch::{clean, exhausted, ok_or_exhausted, clone_ok, elem_ok, pair_ok, pairs_ok};
use crate::error::CopyError;
use crate::graph::{heap_extends, dict_set_all, is_atomic, is_stable, Object, Reduction};
use crate::memo::{RETAIN_MAX_SLOTS, RETAIN_SHRINK_TO};
use crate::memo_trait::Memo;

use crate::state::{returned_to, taken_from, ThreadLocalMemo};
use crate::types::{hook_of, reduction_of};

verus! {

/// Copying an atomic object (a marker, a scalar, a type object) yields the
/// object itself and changes nothing.
pub proof fn atomic_objects_are_shared(
    h0: Seq<Object>,
    h1: Seq<Object>,
    m0: Map<u64, u64>,
    m1: Map<u64, u64>,
    x: u64,
    depth: u64,
    r: Result<u64, CopyError>,
)
    requires
        x < h0.len(),
        is_atomic(h0[x as int]),
        clone_ok(h0, h1, m0, m1, x, depth, r),
    ensures
        r == Ok::<u64, CopyError>(x),
        h1 == h0,
        m1 == m0,
{
}

/// The clone of a sequence is a new object, so writing any of its slots
/// leaves every original object as it was; it has the source's length, and
/// each slot stands for the source's element in the same place (atomic
/// elements are the very same objects).
pub proof fn sequence_clone_is_independent<M: Memo>(
    h0: Seq<Object>,
    h1: Seq<Object>,
    m0: Map<u64, u64>,
    m1: Map<u64, u64>,
    x: u64,
    depth: u64,
    r: Result<u64, CopyError>,
    mem1: M,
    replacement: Object,
)
    requires
        x < h0.len(),
        h0[x as int] is List,
        !m0.contains_key(x),
        depth > 0,
        clone_ok(h0, h1, m0, m1, x, depth, r),
        heap_extends(h0, h1),
        m1 == mem1.entries(),
        clean(h0, m0.dom(), x, depth as nat) ==> ok_or_exhausted(r, h1, mem1),
        !exhausted(h1, mem1),
        clean(h0, m0.dom(), x, depth as nat),
        r is Ok ==> r->Ok_0 < h1.len(),
    ensures
        r is Ok,
        r->Ok_0 != x,
        r->Ok_0 >= h0.len(),
        h1[r->Ok_0 as int] is List,
        h1[r->Ok_0 as int]->List_0@.len() == h0[x as int]->List_0@.len(),
        forall|j: int|
            0 <= j < h0[x as int]->List_0@.len() ==> #[trigger] elem_ok(
                h0,
                m1,
                h0[x as int]->List_0@[j],
                h1[r->Ok_0 as int]->List_0@[j],
            ),
        forall|i: int| 0 <= i < h0.len() ==> #[trigger] h1.update(r->Ok_0 as int, replacement)[i] == h0[i],
{
    let src = h0[x as int]->List_0@;
    let dst = h1[r->Ok_0 as int]->List_0@;
    assert forall|j: int| 0 <= j < src.len() implies #[trigger] elem_ok(h0, m1, src[j], dst[j]) by {
    }
    assert forall|i: int| 0 <= i < h0.len() implies #[trigger] h1.update(r->Ok_0 as int, replacement)[i] == h0[i] by {
        assert(h1[i] == h0[i]);
    }
}

/// The clone of a mapping is a new object, so writing any of its slots leaves
/// every original object as it was; its pairs are the source's pairs, each
/// standing for the source's key and value, assigned in source order.
pub proof fn mapping_clone_is_independent<M: Memo>(
    h0: Seq<Object>,
    h1: Seq<Object>,
    m0: Map<u64, u64>,
    m1: Map<u64, u64>,
    x: u64,
    depth: u64,
    r: Result<u64, CopyError>,
    mem1: M,
    replacement: Object,
)
    requires
        x < h0.len(),
        h0[x as int] is Dict,
        !m0.contains_key(x),
        depth > 0,
        clone_ok(h0, h1, m0, m1, x, depth, r),
        heap_extends(h0, h1),
        m1 == mem1.entries(),
        clean(h0, m0.dom(), x, depth as nat) ==> ok_or_exhausted(r, h1, mem1),
        !exhausted(h1, mem1),
        clean(h0, m0.dom(), x, depth as nat),
        r is Ok ==> r->Ok_0 < h1.len(),
    ensures
        r is Ok,
        r->Ok_0 != x,
        r->Ok_0 >= h0.len(),
        h1[r->Ok_0 as int] is Dict,
        exists|ps: Seq<(u64, u64)>|
            #[trigger] pairs_ok(h0, m1, h0[x as int]->Dict_0@, ps) && h1[r->Ok_0 as int]->Dict_0@
                == dict_set_all(Seq::empty(), ps),
        forall|i: int| 0 <= i < h0.len() ==> #[trigger] h1.update(r->Ok_0 as int, replacement)[i] == h0[i],
{
    assert forall|i: int| 0 <= i < h0.len() implies #[trigger] h1.update(r->Ok_0 as int, replacement)[i] == h0[i] by {
        assert(h1[i] == h0[i]);
    }
}

/// A sequence whose only element is itself clones into a sequence whose only
/// element is the clone itself, not the original.
pub proof fn self_containing_sequence_clones_to_itself<M: Memo>(
    h0: Seq<Object>,
    h1: Seq<Object>,
    m0: Map<u64, u64>,
    m1: Map<u64, u64>,
    x: u64,
    depth: u64,
    r: Result<u64, CopyError>,
    mem1: M,
)
    requires
        x < h0.len(),
        h0[x as int] is List,
        h0[x as int]->List_0@ == seq![x],
        !m0.contains_key(x),
        depth > 0,
        clone_ok(h0, h1, m0, m1, x, depth, r),
        m1 == mem1.entries(),
        clean(h0, m0.dom(), x, depth as nat) ==> ok_or_exhausted(r, h1, mem1),
        !exhausted(h1, mem1),
    ensures
        r is Ok,
        h1[r->Ok_0 as int] is List,
        h1[r->Ok_0 as int]->List_0@ == seq![r->Ok_0],
        r->Ok_0 != x,
{
    assert(h0[x as int]->List_0@[0] == x);
    assert(m0.dom().insert(x).contains(x));
    assert(clean(h0, m0.dom().insert(x), x, (depth - 1) as nat));
    assert(clean(h0, m0.dom(), x, depth as nat));
    let dst = h1[r->Ok_0 as int]->List_0@;
    assert(elem_ok(h0, m1, h0[x as int]->List_0@[0], dst[0]));
    assert(dst =~= seq![r->Ok_0]);
}

/// When two slots of a mapping hold the same atomic or mutable-container
/// object, the clone assigns one and the same object to both slots.
pub proof fn shared_children_stay_shared<M: Memo>(
    h0: Seq<Object>,
    h1: Seq<Object>,
    m0: Map<u64, u64>,
    m1: Map<u64, u64>,
    x: u64,
    depth: u64,
    r: Result<u64, CopyError>,
    mem1: M,
    a: int,
    b: int,
)
    requires
        x < h0.len(),
        h0[x as int] is Dict,
        0 <= a < h0[x as int]->Dict_0@.len(),
        0 <= b < h0[x as int]->Dict_0@.len(),
        h0[x as int]->Dict_0@[a].1 == h0[x as int]->Dict_0@[b].1,
        is_atomic(h0[h0[x as int]->Dict_0@[a].1 as int]) || is_stable(h0[h0[x as int]->Dict_0@[a].1 as int]),
        !m0.contains_key(x),
        depth > 0,
        clone_ok(h0, h1, m0, m1, x, depth, r),
        m1 == mem1.entries(),
        clean(h0, m0.dom(), x, depth as nat) ==> ok_or_exhausted(r, h1, mem1),
        !exhausted(h1, mem1),
        clean(h0, m0.dom(), x, depth as nat),
    ensures
        r is Ok,
        exists|ps: Seq<(u64, u64)>|
            #[trigger] pairs_ok(h0, m1, h0[x as int]->Dict_0@, ps) && h1[r->Ok_0 as int]->Dict_0@
                == dict_set_all(Seq::empty(), ps) && ps[a].1 == ps[b].1,
{
    let src = h0[x as int]->Dict_0@;
    let ps = choose|ps: Seq<(u64, u64)>|
        #[trigger] pairs_ok(h0, m1, src, ps) && h1[r->Ok_0 as int]->Dict_0@ == dict_set_all(Seq::empty(), ps);
    assert(pair_ok(h0, m1, src[a], ps[a]));
    assert(pair_ok(h0, m1, src[b], ps[b]));
    assert(ps[a].1 == ps[b].1);
}

/// A fixed sequence of atomic elements is its own clone: nothing is built
/// and nothing is registered.
pub proof fn atomic_tuple_is_its_own_clone(
    h0: Seq<Object>,
    h1: Seq<Object>,
    m0: Map<u64, u64>,
    m1: Map<u64, u64>,
    x: u64,
    depth: u64,
    r: Result<u64, CopyError>,
)
    requires
        x < h0.len(),
        h0[x as int] is Tuple,
        forall|j: int|
            0 <= j < h0[x as int]->Tuple_0@.len() ==> #[trigger] is_atomic(
                h0[h0[x as int]->Tuple_0@[j] as int],
            ),
        !m0.contains_key(x),
        depth > 0,
        clone_ok(h0, h1, m0, m1, x, depth, r),
    ensures
        r == Ok::<u64, CopyError>(x),
        h1 == h0,
        m1 == m0,
{
}

/// A decomposition of more than five elements is a protocol violation,
/// reported before anything is built or registered.
pub proof fn oversized_decomposition_is_rejected(
    h0: Seq<Object>,
    h1: Seq<Object>,
    m0: Map<u64, u64>,
    m1: Map<u64, u64>,
    x: u64,
    depth: u64,
    r: Result<u64, CopyError>,
)
    requires
        x < h0.len(),
        h0[x as int] is Instance,
        hook_of(h0, h0[x as int]->Instance_0.class) is Absent,
        reduction_of(h0, h0[x as int]->Instance_0.class) matches Reduction::Tuple(es) && es@.len() > 5,
        !m0.contains_key(x),
        depth > 0,
        clone_ok(h0, h1, m0, m1, x, depth, r),
    ensures
        r == Err::<u64, CopyError>(CopyError::ProtocolViolation),
        h1 == h0,
        m1 == m0,
{
}

/// After an operation that registered more than `RETAIN_MAX_SLOTS` distinct
/// identities, returning its memo to the pool shrinks the table: the next
/// operation starts with an empty memo whose table has `RETAIN_SHRINK_TO`
/// slots.
pub proof fn pool_shrinks_large_tables(
    memo: ThreadLocalMemo,
    pooled: Option<ThreadLocalMemo>,
    next: ThreadLocalMemo,
)
    requires
        memo.inv(),
        !memo.spec_exposed(),
        memo.entries().len() > RETAIN_MAX_SLOTS,
        returned_to(memo, pooled),
        taken_from(pooled, next),
    ensures
        next.table_capacity() == RETAIN_SHRINK_TO,
        next.table_capacity() <= RETAIN_MAX_SLOTS,
        next.table_occupied() == 0,
        next.entries() == Map::<u64, u64>::empty(),
        next.retained() == Seq::<u64>::empty(),
{
    memo.lemma_entries_below_capacity();
}

/// Copying a non-atomic object already registered in the caller's memo
/// returns its registered clone and changes nothing, so a second copy with the
/// same memo returns the same clone again.
pub proof fn registered_objects_pass_through(
    h0: Seq<Object>,
    h1: Seq<Object>,
    h2: Seq<Object>,
    m0: Map<u64, u64>,
    m1: Map<u64, u64>,
    m2: Map<u64, u64>,
    x: u64,
    depth: u64,
    r1: Result<u64, CopyError>,
    r2: Result<u64, CopyError>,
)
    requires
        x < h0.len(),
        !is_atomic(h0[x as int]),
        m0.contains_key(x),
        clone_ok(h0, h1, m0, m1, x, depth, r1),
        clone_ok(h1, h2, m1, m2, x, depth, r2),
    ensures
        r1 == Ok::<u64, CopyError>(m0[x]),
        r2 == Ok::<u64, CopyError>(m0[x]),
        h2 == h0,
        m2 == m0,
{
}

} // verus!
