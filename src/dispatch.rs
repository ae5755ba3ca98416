//! What a clone is, stated over the heap and the memo, and the recursive
//! dispatch that produces it.

use vstd::prelude::*;
use crate::containers::{deepcopy_bytearray, deepcopy_dict, deepcopy_frozenset, deepcopy_list, deepcopy_set, deepcopy_tuple};
use crate::error::CopyError;
use crate::graph::{HEAP_LIMIT, CopyHook, Heap, Instance, Object, Reduction, dict_set_all, heap_extends, heap_ok, is_atomic, is_stable, object_ok, set_add_all};
use crate::hash::{hash_pointer, spec_hash_pointer};
use crate::memo_trait::Memo;
use crate::reduce::deepcopy_via_reduce;
use crate::types::{TypeClass, classify_type, constructible, copy_hook, hook_of, reduction_of, restores, spec_classify};

verus! {

/// Every registered clone is an object of a heap of `n` objects.
pub open spec fn memo_ok(m: Map<u64, u64>, n: nat) -> bool {
    forall|k: u64| #[trigger] m.contains_key(k) ==> m[k] < n
}

/// Every registration of `m0` is still in `m1`, unchanged.
pub open spec fn memo_extends(m0: Map<u64, u64>, m1: Map<u64, u64>) -> bool {
    forall|k: u64| #[trigger] m0.contains_key(k) ==> m1.contains_key(k) && m1[k] == m0[k]
}

/// What every step of a copy preserves: existing objects are untouched, the
/// heap stays well formed, registrations are kept and name objects of the heap.
pub open spec fn frame(h0: Seq<Object>, h1: Seq<Object>, m0: Map<u64, u64>, m1: Map<u64, u64>) -> bool {
    &&& heap_extends(h0, h1)
    &&& heap_ok(h1)
    &&& memo_extends(m0, m1)
    &&& memo_ok(m1, h1.len())
}

/// `z` stands for the original child `y` in a clone: an atomic child is shared,
/// a mutable container child is replaced by its registered clone, any other
/// child is shared or replaced by its registered clone.
pub open spec fn elem_ok(h0: Seq<Object>, m: Map<u64, u64>, y: u64, z: u64) -> bool {
    &&& (is_atomic(h0[y as int]) ==> z == y)
    &&& (is_stable(h0[y as int]) ==> m.contains_key(y) && m[y] == z)
    &&& (z == y || (m.contains_key(y) && m[y] == z))
}

/// `dst` stands for `src` element by element.
pub open spec fn elems_ok(h0: Seq<Object>, m: Map<u64, u64>, src: Seq<u64>, dst: Seq<u64>) -> bool {
    &&& dst.len() == src.len()
    &&& forall|j: int| 0 <= j < src.len() ==> #[trigger] elem_ok(h0, m, src[j], dst[j])
}

/// `dst` stands for `src` pair by pair, keys and values alike.
pub open spec fn pairs_ok(
    h0: Seq<Object>,
    m: Map<u64, u64>,
    src: Seq<(u64, u64)>,
    dst: Seq<(u64, u64)>,
) -> bool {
    &&& dst.len() == src.len()
    &&& forall|j: int| 0 <= j < src.len() ==> #[trigger] pair_ok(h0, m, src[j], dst[j])
}

/// `q` stands for the original pair `p`, key and value alike.
pub open spec fn pair_ok(h0: Seq<Object>, m: Map<u64, u64>, p: (u64, u64), q: (u64, u64)) -> bool {
    elem_ok(h0, m, p.0, q.0) && elem_ok(h0, m, p.1, q.1)
}

/// Like `elems_ok`, for the elements other than `x` itself.
pub open spec fn elems_ok_except(h0: Seq<Object>, m: Map<u64, u64>, src: Seq<u64>, dst: Seq<u64>, x: u64) -> bool {
    &&& dst.len() == src.len()
    &&& forall|j: int| 0 <= j < src.len() && src[j] != x ==> #[trigger] elem_ok(h0, m, src[j], dst[j])
}

/// Transitivity of `frame`.
pub proof fn lemma_frame_trans(
    h0: Seq<Object>,
    h1: Seq<Object>,
    h2: Seq<Object>,
    m0: Map<u64, u64>,
    m1: Map<u64, u64>,
    m2: Map<u64, u64>,
)
    requires
        frame(h0, h1, m0, m1),
        frame(h1, h2, m1, m2),
    ensures
        frame(h0, h2, m0, m2),
{
    assert forall|i: int| 0 <= i < h0.len() implies #[trigger] h2[i] == h0[i] by {
        assert(h1[i] == h0[i]);
    }
    assert forall|k: u64| #[trigger] m0.contains_key(k) implies m2.contains_key(k) && m2[k] == m0[k] by {
        assert(m1.contains_key(k));
    }
}

/// The clone `r` of mapping `x` is registered, and holds the cloned pairs
/// assigned in source order.
pub open spec fn dict_ok(
    h0: Seq<Object>,
    h1: Seq<Object>,
    m1: Map<u64, u64>,
    x: u64,
    src: Seq<(u64, u64)>,
    r: u64,
) -> bool {
    &&& r == h0.len()
    &&& m1.contains_key(x) && m1[x] == r
    &&& h1[r as int] is Dict
    &&& exists|ps: Seq<(u64, u64)>| #[trigger] pairs_ok(h0, m1, src, ps) && h1[r as int]->Dict_0@
        == dict_set_all(Seq::empty(), ps)
}

/// The clone `r` of sequence `x` is registered and holds the cloned elements.
pub open spec fn list_ok(
    h0: Seq<Object>,
    h1: Seq<Object>,
    m1: Map<u64, u64>,
    x: u64,
    src: Seq<u64>,
    r: u64,
) -> bool {
    &&& r == h0.len()
    &&& m1.contains_key(x) && m1[x] == r
    &&& h1[r as int] is List
    &&& elems_ok(h0, m1, src, h1[r as int]->List_0@)
}

/// The clone `r` of set `x` is registered and holds the cloned elements,
/// added in snapshot order.
pub open spec fn set_ok(
    h0: Seq<Object>,
    h1: Seq<Object>,
    m1: Map<u64, u64>,
    x: u64,
    src: Seq<u64>,
    r: u64,
) -> bool {
    &&& r == h0.len()
    &&& m1.contains_key(x) && m1[x] == r
    &&& h1[r as int] is MutableSet
    &&& exists|xs: Seq<u64>| #[trigger] elems_ok(h0, m1, src, xs) && h1[r as int]->MutableSet_0@
        == set_add_all(Seq::empty(), xs)
}

/// The clone `r` of frozen set `x` is new, registered, and holds the cloned
/// elements, added in snapshot order (an element that is `x` itself is
/// cloned before `x` is registered, so its stand-in is left open here).
pub open spec fn frozenset_ok(
    h0: Seq<Object>,
    h1: Seq<Object>,
    m1: Map<u64, u64>,
    x: u64,
    src: Seq<u64>,
    r: u64,
) -> bool {
    &&& r >= h0.len()
    &&& m1.contains_key(x) && m1[x] == r
    &&& h1[r as int] is FrozenSet
    &&& exists|xs: Seq<u64>| #[trigger] elems_ok_except(h0, m1, src, xs, x) && h1[r as int]->FrozenSet_0@
        == set_add_all(Seq::empty(), xs)
}

/// The clone `r` of byte buffer `x` is new, registered and holds the same bytes.
pub open spec fn bytearray_ok(
    h0: Seq<Object>,
    h1: Seq<Object>,
    m1: Map<u64, u64>,
    x: u64,
    bytes: Seq<u8>,
    r: u64,
) -> bool {
    &&& r == h0.len()
    &&& m1.contains_key(x) && m1[x] == r
    &&& h1[r as int] is ByteArray
    &&& h1[r as int]->ByteArray_0@ == bytes
}

/// A fixed sequence of atomic elements is its own clone; the original is
/// returned unregistered only when every element stands for itself (so a
/// mutable container element forbids it, unless registered as its own clone);
/// any other clone of it is the one registered for it.
pub open spec fn tuple_ok(
    h0: Seq<Object>,
    h1: Seq<Object>,
    m0: Map<u64, u64>,
    m1: Map<u64, u64>,
    x: u64,
    src: Seq<u64>,
    r: Result<u64, CopyError>,
) -> bool {
    &&& (forall|j: int| 0 <= j < src.len() ==> #[trigger] is_atomic(h0[src[j] as int])) ==> r == Ok::<
        u64,
        CopyError,
    >(x) && h1 == h0 && m1 == m0
    &&& r is Ok ==> r->Ok_0 == x || (m1.contains_key(x) && m1[x] == r->Ok_0)
    &&& r == Ok::<u64, CopyError>(x) && !m1.contains_key(x) ==> forall|j: int|
        0 <= j < src.len() ==> #[trigger] elem_ok(h0, m1, src[j], src[j])
}

/// The object rebuilt from constructor `ctor` and arguments `args` is new,
/// registered for `x`, of type `ctor`, and built from the clone of `args`; when
/// its type has a restore-state hook and there is a `state`, the hook received
/// the clone of that state. A constructor that cannot be called fails the
/// operation.
pub open spec fn rebuilt_ok(
    h0: Seq<Object>,
    h1: Seq<Object>,
    m1: Map<u64, u64>,
    x: u64,
    ctor: u64,
    args: u64,
    state: Option<u64>,
    r: Result<u64, CopyError>,
) -> bool {
    &&& !constructible(h0, ctor) ==> r is Err
    &&& r is Ok ==> {
        let inst = h1[r->Ok_0 as int]->Instance_0;
        &&& r->Ok_0 >= h0.len()
        &&& m1.contains_key(x) && m1[x] == r->Ok_0
        &&& h1[r->Ok_0 as int] is Instance
        &&& inst.class == ctor
        &&& args != x ==> elem_ok(h0, m1, args, inst.args)
        &&& if restores(h0, ctor) && state is Some {
            inst.restored is Some && elem_ok(h0, m1, state->Some_0, inst.restored->Some_0)
        } else {
            inst.restored is None
        }
    }
}

/// The state part of a decomposition tuple: its third element, unless that is
/// absent or the empty marker.
pub open spec fn state_part(h0: Seq<Object>, es: Seq<u64>) -> Option<u64> {
    if es.len() > 2 && !(h0[es[2] as int] is Nothing) {
        Some(es[2])
    } else {
        None
    }
}

/// Copying instance `x` through the reduce protocol: the extended hook is
/// used unless it is missing; a text result or a tuple of fewer than two
/// elements shares `x`; more than five elements is a protocol violation.
/// Without any decomposition hook, an instance of a constructible type is
/// rebuilt from its type, arguments and attribute mapping; otherwise it
/// cannot be copied.
pub open spec fn reduce_ok(
    h0: Seq<Object>,
    h1: Seq<Object>,
    m0: Map<u64, u64>,
    m1: Map<u64, u64>,
    x: u64,
    inst: Instance,
    r: Result<u64, CopyError>,
) -> bool {
    match reduction_of(h0, inst.class) {
        Reduction::Missing => if constructible(h0, inst.class) {
            rebuilt_ok(h0, h1, m1, x, inst.class, inst.args, inst.dict, r)
        } else {
            r == Err::<u64, CopyError>(CopyError::Uncopyable) && h1 == h0 && m1 == m0
        },
        Reduction::Raises => r == Err::<u64, CopyError>(CopyError::HookFailed) && h1 == h0 && m1 == m0,
        Reduction::Text => r == Ok::<u64, CopyError>(x) && h1 == h0 && m1 == m0,
        Reduction::Standard => rebuilt_ok(h0, h1, m1, x, inst.class, inst.args, inst.dict, r),
        Reduction::Tuple(es) => if es@.len() < 2 {
            r == Ok::<u64, CopyError>(x) && h1 == h0 && m1 == m0
        } else if es@.len() > 5 {
            r == Err::<u64, CopyError>(CopyError::ProtocolViolation) && h1 == h0 && m1 == m0
        } else {
            rebuilt_ok(h0, h1, m1, x, es@[0], es@[1], state_part(h0, es@), r)
        },
    }
}

/// Copying instance `x`: its type's override hook decides when there is one,
/// and its result is registered; otherwise the reduce protocol applies.
pub open spec fn instance_ok(
    h0: Seq<Object>,
    h1: Seq<Object>,
    m0: Map<u64, u64>,
    m1: Map<u64, u64>,
    x: u64,
    inst: Instance,
    r: Result<u64, CopyError>,
) -> bool {
    match hook_of(h0, inst.class) {
        CopyHook::Raises => r == Err::<u64, CopyError>(CopyError::HookFailed) && h1 == h0 && m1 == m0,
        CopyHook::ReturnsSelf => {
            &&& h1 == h0
            &&& r is Ok ==> r == Ok::<u64, CopyError>(x) && m1 == m0.insert(x, x)
            &&& r is Err ==> r == Err::<u64, CopyError>(CopyError::AllocationFailure)
        },
        CopyHook::Returns(v) => {
            &&& h1 == h0
            &&& r is Ok ==> r == Ok::<u64, CopyError>(v) && m1 == m0.insert(x, v)
            &&& r is Err ==> r == Err::<u64, CopyError>(CopyError::AllocationFailure)
        },
        CopyHook::Absent => reduce_ok(h0, h1, m0, m1, x, inst, r),
    }
}

/// The result of handling a non-atomic object `x` that is not yet registered.
pub open spec fn dispatched_ok(
    h0: Seq<Object>,
    h1: Seq<Object>,
    m0: Map<u64, u64>,
    m1: Map<u64, u64>,
    x: u64,
    r: Result<u64, CopyError>,
) -> bool {
    match h0[x as int] {
        Object::Dict(es) => r is Ok ==> dict_ok(h0, h1, m1, x, es@, r->Ok_0),
        Object::List(es) => r is Ok ==> list_ok(h0, h1, m1, x, es@, r->Ok_0),
        Object::Tuple(es) => tuple_ok(h0, h1, m0, m1, x, es@, r),
        Object::MutableSet(es) => r is Ok ==> set_ok(h0, h1, m1, x, es@, r->Ok_0),
        Object::FrozenSet(es) => r is Ok ==> frozenset_ok(h0, h1, m1, x, es@, r->Ok_0),
        Object::ByteArray(bs) => r is Ok ==> bytearray_ok(h0, h1, m1, x, bs@, r->Ok_0),
        Object::Instance(inst) => instance_ok(h0, h1, m0, m1, x, inst, r),
        _ => r == Ok::<u64, CopyError>(x) && h1 == h0 && m1 == m0,
    }
}

/// The result of copying `x` with `depth` levels of recursion left: an atomic
/// object is shared, a registered object resolves to its clone, and otherwise
/// the object's kind decides.
pub open spec fn clone_ok(
    h0: Seq<Object>,
    h1: Seq<Object>,
    m0: Map<u64, u64>,
    m1: Map<u64, u64>,
    x: u64,
    depth: u64,
    r: Result<u64, CopyError>,
) -> bool {
    if is_atomic(h0[x as int]) {
        r == Ok::<u64, CopyError>(x) && h1 == h0 && m1 == m0
    } else if m0.contains_key(x) {
        r == Ok::<u64, CopyError>(m0[x]) && h1 == h0 && m1 == m0
    } else if depth == 0 {
        r == Err::<u64, CopyError>(CopyError::DepthExceeded) && h1 == h0 && m1 == m0
    } else {
        dispatched_ok(h0, h1, m0, m1, x, r)
    }
}

/// Every object that copying `x` reaches within `depth` levels can be copied,
/// where identities in `k` are already registered and resolve at once: no
/// hook raises, no decomposition is missing without a constructible type or
/// is longer than five, every constructor can be called, and no chain of
/// unregistered objects is longer than `depth`. Containers registered before
/// their children (mappings, sequences, sets) and an instance before its
/// state count as registered below themselves. Such a copy can only fail for
/// lack of room.
pub open spec fn clean(h: Seq<Object>, k: Set<u64>, x: u64, depth: nat) -> bool
    decreases depth,
{
    if x >= h.len() {
        false
    } else if is_atomic(h[x as int]) || k.contains(x) {
        true
    } else if depth == 0 {
        false
    } else {
        let d = (depth - 1) as nat;
        let kx = k.insert(x);
        match h[x as int] {
            Object::Tuple(es) => forall|j: int| 0 <= j < es@.len() ==> clean(h, k, #[trigger] es@[j], d),
            Object::MutableSet(es) => forall|j: int| 0 <= j < es@.len() ==> clean(h, kx, #[trigger] es@[j], d),
            Object::FrozenSet(es) => forall|j: int| 0 <= j < es@.len() ==> clean(h, k, #[trigger] es@[j], d),
            Object::List(es) => forall|j: int| 0 <= j < es@.len() ==> clean(h, kx, #[trigger] es@[j], d),
            Object::Dict(es) => forall|j: int|
                0 <= j < es@.len() ==> clean(h, kx, (#[trigger] es@[j]).0, d) && clean(h, kx, es@[j].1, d),
            Object::Instance(inst) => match hook_of(h, inst.class) {
                CopyHook::Raises => false,
                CopyHook::Absent => match reduction_of(h, inst.class) {
                    Reduction::Missing => constructible(h, inst.class) && clean(h, k, inst.args, d) && match inst.dict {
                        Some(s) => clean(h, kx, s, d),
                        None => true,
                    },
                    Reduction::Raises => false,
                    Reduction::Text => true,
                    Reduction::Standard => constructible(h, inst.class) && clean(h, k, inst.args, d) && match inst.dict {
                        Some(s) => clean(h, kx, s, d),
                        None => true,
                    },
                    Reduction::Tuple(es) => if es@.len() < 2 {
                        true
                    } else if es@.len() > 5 {
                        false
                    } else {
                        constructible(h, es@[0]) && clean(h, k, es@[1], d) && match state_part(h, es@) {
                            Some(s) => clean(h, kx, s, d),
                            None => true,
                        }
                    },
                },
                _ => true,
            },
            _ => true,
        }
    }
}

/// No room is left: the heap is at its limit, or the memo cannot take
/// another registration or hold.
pub open spec fn exhausted<M: Memo>(h: Seq<Object>, m: M) -> bool {
    h.len() >= HEAP_LIMIT || m.table_full() || m.buffer_full()
}

/// The copy succeeded, or failed for lack of room.
pub open spec fn ok_or_exhausted<M: Memo>(r: Result<u64, CopyError>, h: Seq<Object>, m: M) -> bool {
    r is Ok || (r == Err::<u64, CopyError>(CopyError::AllocationFailure) && exhausted(h, m))
}

/// A memo that was full stays full.
pub open spec fn full_kept<M: Memo>(m0: M, m1: M) -> bool {
    &&& m0.table_full() ==> m1.table_full()
    &&& m0.buffer_full() ==> m1.buffer_full()
}

/// The children of a copyable container are copyable one level down.
pub proof fn lemma_clean_children(h: Seq<Object>, k: Set<u64>, y: u64, d: nat)
    requires
        y < h.len(),
        !is_atomic(h[y as int]),
        !k.contains(y),
        d > 0,
        clean(h, k, y, d),
    ensures
        h[y as int] matches Object::Dict(es) ==> forall|j: int|
            0 <= j < es@.len() ==> clean(h, k.insert(y), (#[trigger] es@[j]).0, (d - 1) as nat) && clean(
                h,
                k.insert(y),
                es@[j].1,
                (d - 1) as nat,
            ),
        h[y as int] matches Object::List(es) ==> forall|j: int|
            0 <= j < es@.len() ==> clean(h, k.insert(y), #[trigger] es@[j], (d - 1) as nat),
        h[y as int] matches Object::Tuple(es) ==> forall|j: int|
            0 <= j < es@.len() ==> clean(h, k, #[trigger] es@[j], (d - 1) as nat),
        h[y as int] matches Object::MutableSet(es) ==> forall|j: int|
            0 <= j < es@.len() ==> clean(h, k.insert(y), #[trigger] es@[j], (d - 1) as nat),
        h[y as int] matches Object::FrozenSet(es) ==> forall|j: int|
            0 <= j < es@.len() ==> clean(h, k, #[trigger] es@[j], (d - 1) as nat),
{
}

/// Whether `x` is copyable depends only on objects that existed already, and
/// more registered identities only help.
pub proof fn lemma_clean_extends(h0: Seq<Object>, h1: Seq<Object>, k0: Set<u64>, k1: Set<u64>, y: u64, d: nat)
    requires
        heap_ok(h0),
        heap_extends(h0, h1),
        k0.subset_of(k1),
        y < h0.len(),
        clean(h0, k0, y, d),
    ensures
        clean(h1, k1, y, d),
    decreases d,
{
    assert(h1[y as int] == h0[y as int]);
    assert(object_ok(h0[y as int], h0.len()));
    if d > 0 && !is_atomic(h0[y as int]) && !k1.contains(y) {
        let e = (d - 1) as nat;
        let kx0 = k0.insert(y);
        let kx1 = k1.insert(y);
        assert(kx0.subset_of(kx1));
        lemma_clean_children(h0, k0, y, d);
        match h0[y as int] {
            Object::Dict(es) => {
                assert(forall|j: int|
                    0 <= j < es@.len() ==> clean(h0, kx0, (#[trigger] es@[j]).0, e) && clean(h0, kx0, es@[j].1, e));
                assert forall|j: int| 0 <= j < es@.len() implies clean(h1, kx1, (#[trigger] es@[j]).0, e) && clean(
                    h1,
                    kx1,
                    es@[j].1,
                    e,
                ) by {
                    lemma_clean_extends(h0, h1, kx0, kx1, es@[j].0, e);
                    lemma_clean_extends(h0, h1, kx0, kx1, es@[j].1, e);
                }
            },
            Object::List(es) => {
                assert(forall|j: int| 0 <= j < es@.len() ==> clean(h0, kx0, #[trigger] es@[j], e));
                assert forall|j: int| 0 <= j < es@.len() implies clean(h1, kx1, #[trigger] es@[j], e) by {
                    lemma_clean_extends(h0, h1, kx0, kx1, es@[j], e);
                }
            },
            Object::Tuple(es) => {
                assert(forall|j: int| 0 <= j < es@.len() ==> clean(h0, k0, #[trigger] es@[j], e));
                assert forall|j: int| 0 <= j < es@.len() implies clean(h1, k1, #[trigger] es@[j], e) by {
                    lemma_clean_extends(h0, h1, k0, k1, es@[j], e);
                }
            },
            Object::MutableSet(es) => {
                assert(forall|j: int| 0 <= j < es@.len() ==> clean(h0, kx0, #[trigger] es@[j], e));
                assert forall|j: int| 0 <= j < es@.len() implies clean(h1, kx1, #[trigger] es@[j], e) by {
                    lemma_clean_extends(h0, h1, kx0, kx1, es@[j], e);
                }
            },
            Object::FrozenSet(es) => {
                assert(forall|j: int| 0 <= j < es@.len() ==> clean(h0, k0, #[trigger] es@[j], e));
                assert forall|j: int| 0 <= j < es@.len() implies clean(h1, k1, #[trigger] es@[j], e) by {
                    lemma_clean_extends(h0, h1, k0, k1, es@[j], e);
                }
            },
            Object::Instance(inst) => {
                assert(h1[inst.class as int] == h0[inst.class as int]);
                assert(object_ok(h0[inst.class as int], h0.len()));
                assert(hook_of(h1, inst.class) == hook_of(h0, inst.class));
                assert(reduction_of(h1, inst.class) == reduction_of(h0, inst.class));
                assert(constructible(h1, inst.class) == constructible(h0, inst.class));
                if hook_of(h0, inst.class) is Absent {
                    match reduction_of(h0, inst.class) {
                        Reduction::Missing => {
                            lemma_clean_extends(h0, h1, k0, k1, inst.args, e);
                            if let Some(s) = inst.dict {
                                lemma_clean_extends(h0, h1, kx0, kx1, s, e);
                            }
                        },
                        Reduction::Standard => {
                            lemma_clean_extends(h0, h1, k0, k1, inst.args, e);
                            if let Some(s) = inst.dict {
                                lemma_clean_extends(h0, h1, kx0, kx1, s, e);
                            }
                        },
                        Reduction::Tuple(es) => {
                            if 2 <= es@.len() <= 5 {
                                assert(h1[es@[0] as int] == h0[es@[0] as int]);
                                assert(constructible(h1, es@[0]) == constructible(h0, es@[0]));
                                lemma_clean_extends(h0, h1, k0, k1, es@[1], e);
                                if es@.len() > 2 {
                                    assert(h1[es@[2] as int] == h0[es@[2] as int]);
                                }
                                assert(state_part(h1, es@) == state_part(h0, es@));
                                if let Some(s) = state_part(h0, es@) {
                                    lemma_clean_extends(h0, h1, kx0, kx1, s, e);
                                }
                            }
                        },
                        _ => {},
                    }
                }
            },
            _ => {},
        }
    }
}

/// Registrations only grow.
pub proof fn lemma_keys_grow(m0: Map<u64, u64>, m1: Map<u64, u64>)
    requires
        memo_extends(m0, m1),
    ensures
        m0.dom().subset_of(m1.dom()),
{
}

/// A successful copy of a child `y` of an object of `h0` stands for `y`.
pub proof fn lemma_clone_elem(
    h0: Seq<Object>,
    hb: Seq<Object>,
    ha: Seq<Object>,
    mb: Map<u64, u64>,
    ma: Map<u64, u64>,
    y: u64,
    depth: u64,
    r: Result<u64, CopyError>,
)
    requires
        heap_extends(h0, hb),
        y < h0.len(),
        r is Ok,
        clone_ok(hb, ha, mb, ma, y, depth, r),
    ensures
        elem_ok(h0, ma, y, r->Ok_0),
{
    assert(hb[y as int] == h0[y as int]);
}

/// Whether `x` is shared by any clone: a marker, a scalar or a type object.
pub fn is_immutable_literal(heap: &Heap, x: u64) -> (r: bool)
    requires
        heap.wf(),
        x < heap@.len(),
    ensures
        r == is_atomic(heap@[x as int]),
{
    match heap.get(x) {
        Object::Nothing => true,
        Object::Scalar(_) => true,
        Object::Type(_) => true,
        _ => false,
    }
}

/// Copies `x`: atomic objects are shared, registered ones resolve to their
/// clone, and anything else is classified once and dispatched.
pub fn deepcopy_recursive<M: Memo>(heap: &mut Heap, memo: &mut M, x: u64, depth: u64) -> (r: Result<
    u64,
    CopyError,
>)
    requires
        old(heap).wf(),
        old(memo).inv(),
        x < old(heap)@.len(),
        memo_ok(old(memo).entries(), old(heap)@.len()),
    ensures
        final(memo).inv(),
        frame(old(heap)@, final(heap)@, old(memo).entries(), final(memo).entries()),
        r is Ok ==> r->Ok_0 < final(heap)@.len(),
        clone_ok(old(heap)@, final(heap)@, old(memo).entries(), final(memo).entries(), x, depth, r),
        full_kept(*old(memo), *final(memo)),
        clean(old(heap)@, old(memo).entries().dom(), x, depth as nat) ==> ok_or_exhausted(r, final(heap)@, *final(memo)),
    decreases depth, 4u64,
{
    if is_immutable_literal(heap, x) {
        return Ok(x);
    }
    let hash = hash_pointer(x);
    match memo.lookup(x, hash) {
        Some(c) => {
            return Ok(c);
        },
        None => {},
    }
    if depth == 0 {
        return Err(CopyError::DepthExceeded);
    }
    let class = classify_type(heap, x);
    dispatch_deepcopy(heap, memo, x, class, hash, depth)
}

/// Hands `x` to the cloner of its class.
pub fn dispatch_deepcopy<M: Memo>(
    heap: &mut Heap,
    memo: &mut M,
    x: u64,
    class: TypeClass,
    hash: u64,
    depth: u64,
) -> (r: Result<u64, CopyError>)
    requires
        old(heap).wf(),
        old(memo).inv(),
        x < old(heap)@.len(),
        memo_ok(old(memo).entries(), old(heap)@.len()),
        !old(memo).entries().contains_key(x),
        class == spec_classify(old(heap)@, x),
        hash == spec_hash_pointer(x),
        depth > 0,
    ensures
        final(memo).inv(),
        frame(old(heap)@, final(heap)@, old(memo).entries(), final(memo).entries()),
        r is Ok ==> r->Ok_0 < final(heap)@.len(),
        dispatched_ok(old(heap)@, final(heap)@, old(memo).entries(), final(memo).entries(), x, r),
        full_kept(*old(memo), *final(memo)),
        clean(old(heap)@, old(memo).entries().dom(), x, depth as nat) ==> ok_or_exhausted(r, final(heap)@, *final(memo)),
    decreases depth, 3u64,
{
    match class {
        TypeClass::ImmutableLiteral => Ok(x),
        TypeClass::Dict => deepcopy_dict(heap, memo, x, hash, depth),
        TypeClass::List => deepcopy_list(heap, memo, x, hash, depth),
        TypeClass::Tuple => deepcopy_tuple(heap, memo, x, hash, depth),
        TypeClass::MutableSet => deepcopy_set(heap, memo, x, hash, depth),
        TypeClass::FrozenSet => deepcopy_frozenset(heap, memo, x, hash, depth),
        TypeClass::ByteArray => deepcopy_bytearray(heap, memo, x, hash),
        TypeClass::CustomDeepCopy => call_custom_deepcopy(heap, memo, x, hash),
        TypeClass::RequiresReduce => deepcopy_via_reduce(heap, memo, x, hash, depth),
    }
}

/// Calls the copy-override hook of instance `x` and registers its result,
/// holding `x` alive.
fn call_custom_deepcopy<M: Memo>(heap: &Heap, memo: &mut M, x: u64, hash: u64) -> (r: Result<
    u64,
    CopyError,
>)
    requires
        heap.wf(),
        old(memo).inv(),
        x < heap@.len(),
        heap@[x as int] is Instance,
        !(hook_of(heap@, heap@[x as int]->Instance_0.class) is Absent),
        memo_ok(old(memo).entries(), heap@.len()),
        !old(memo).entries().contains_key(x),
        hash == spec_hash_pointer(x),
    ensures
        final(memo).inv(),
        frame(heap@, heap@, old(memo).entries(), final(memo).entries()),
        r is Ok ==> r->Ok_0 < heap@.len(),
        instance_ok(heap@, heap@, old(memo).entries(), final(memo).entries(), x, heap@[x as int]->Instance_0, r),
        full_kept(*old(memo), *final(memo)),
        !(hook_of(heap@, heap@[x as int]->Instance_0.class) is Raises) ==> ok_or_exhausted(r, heap@, *final(memo)),
{
    let hook = copy_hook(heap, x);
    let result = match hook {
        CopyHook::Raises => {
            return Err(CopyError::HookFailed);
        },
        CopyHook::ReturnsSelf => x,
        CopyHook::Returns(v) => v,
        CopyHook::Absent => {
            return Err(CopyError::Uncopyable);
        },
    };
    proof {
        let class = heap@[x as int]->Instance_0.class;
        assert(object_ok(heap@[class as int], heap@.len()));
    }
    match memo.insert(x, result, hash) {
        Ok(()) => {},
        Err(e) => {
            return Err(e);
        },
    }
    match memo.keepalive(x) {
        Ok(()) => {},
        Err(e) => {
            return Err(e);
        },
    }
    Ok(result)
}

} // verus!
