//! Entry points: deep copy with the pooled internal memo or a caller's memo,
//! repeated deep copies, and shallow copy.

use vstd::prelude::*;
use crate::dispatch::{lemma_clean_extends, clean, full_kept, ok_or_exhausted, clone_ok, deepcopy_recursive, frame, memo_ok};
use crate::error::CopyError;
use crate::graph::{keys_unique, heap_ok, HEAP_LIMIT, dict_set_all, pairs_below, pairs_set_all, copy_bytes, copy_ids, copy_pairs, heap_extends, ids_below, is_atomic, object_ok, Heap, Object};
use crate::memo_trait::Memo;
use crate::reduce::{lemma_prefix_kept, 
    decomposition_of, header_same, is_constructible, items_of, iterable_items, pair_in, pair_of, same_except,
    set_object_state, DecompositionKind,
};
use crate::state::{get_thread_local_memo, return_thread_local_memo, MemoPool};
use crate::types::{constructible, reduction_of};
use crate::graph::{Instance, Reduction};
use crate::user_memo::UserProvidedMemo;

verus! {

/// The longest reference chain a copy follows.
pub const MAX_DEPTH: u64 = 1000;

/// Copies `x` with `memo`, following reference chains up to `MAX_DEPTH` long.
pub fn deepcopy_internal<M: Memo>(heap: &mut Heap, memo: &mut M, x: u64) -> (r: Result<u64, CopyError>)
    requires
        old(heap).wf(),
        old(memo).inv(),
        x < old(heap)@.len(),
        memo_ok(old(memo).entries(), old(heap)@.len()),
    ensures
        final(memo).inv(),
        frame(old(heap)@, final(heap)@, old(memo).entries(), final(memo).entries()),
        r is Ok ==> r->Ok_0 < final(heap)@.len(),
        clone_ok(old(heap)@, final(heap)@, old(memo).entries(), final(memo).entries(), x, MAX_DEPTH, r),
        full_kept(*old(memo), *final(memo)),
        clean(old(heap)@, old(memo).entries().dom(), x, MAX_DEPTH as nat) ==> ok_or_exhausted(
            r,
            final(heap)@,
            *final(memo),
        ),
{
    deepcopy_recursive(heap, memo, x, MAX_DEPTH)
}

/// Deep-copies `x` with the pooled internal memo, which starts empty and is
/// cleaned up and returned to `pool` afterwards.
pub fn deepcopy_impl(heap: &mut Heap, pool: &mut MemoPool, x: u64) -> (r: Result<u64, CopyError>)
    requires
        old(heap).wf(),
        old(pool).wf(),
        x < old(heap)@.len(),
    ensures
        final(heap).wf(),
        final(pool).wf(),
        heap_extends(old(heap)@, final(heap)@),
        r is Ok ==> r->Ok_0 < final(heap)@.len(),
        exists|m1: Map<u64, u64>|
            #[trigger] clone_ok(old(heap)@, final(heap)@, Map::<u64, u64>::empty(), m1, x, MAX_DEPTH, r),
        final(pool).pooled() matches Some(m) ==> m.entries() == Map::<u64, u64>::empty(),
        clean(old(heap)@, Set::<u64>::empty(), x, MAX_DEPTH as nat) ==> r is Ok || r == Err::<u64, CopyError>(CopyError::AllocationFailure),
{
    let mut memo = get_thread_local_memo(pool);
    let ghost m0 = memo.entries();
    let r = deepcopy_internal(heap, &mut memo, x);
    let ghost m1 = memo.entries();
    proof {
        assert(m0 == Map::<u64, u64>::empty());
        assert(m0.dom() =~= Set::<u64>::empty());
        assert(clone_ok(old(heap)@, heap@, Map::<u64, u64>::empty(), m1, x, MAX_DEPTH, r));
    }
    return_thread_local_memo(pool, memo);
    r
}

/// Deep-copies `x` with the caller's memo: registered originals resolve to
/// their registered clone, and every new registration stays for inspection.
pub fn deepcopy_impl_with_memo(heap: &mut Heap, memo: &mut UserProvidedMemo, x: u64) -> (r: Result<
    u64,
    CopyError,
>)
    requires
        old(heap).wf(),
        x < old(heap)@.len(),
        memo_ok(old(memo).entries(), old(heap)@.len()),
    ensures
        frame(old(heap)@, final(heap)@, old(memo).entries(), final(memo).entries()),
        r is Ok ==> r->Ok_0 < final(heap)@.len(),
        clone_ok(old(heap)@, final(heap)@, old(memo).entries(), final(memo).entries(), x, MAX_DEPTH, r),
        clean(old(heap)@, old(memo).entries().dom(), x, MAX_DEPTH as nat) ==> r is Ok || (r == Err::<u64, CopyError>(
            CopyError::AllocationFailure)
            && final(heap)@.len() >= HEAP_LIMIT),
{
    deepcopy_internal(heap, memo, x)
}

/// `n` independent deep copies of `x`, each with a fresh memo.
pub fn replicate_impl(heap: &mut Heap, pool: &mut MemoPool, x: u64, n: usize) -> (r: Result<Vec<u64>, CopyError>)
    requires
        old(heap).wf(),
        old(pool).wf(),
        x < old(heap)@.len(),
    ensures
        final(heap).wf(),
        final(pool).wf(),
        heap_extends(old(heap)@, final(heap)@),
        r is Ok ==> r->Ok_0@.len() == n && ids_below(r->Ok_0@, final(heap)@.len()),
        r is Ok && is_atomic(old(heap)@[x as int]) ==> forall|i: int|
            0 <= i < n ==> #[trigger] r->Ok_0@[i] == x,
        clean(old(heap)@, Set::<u64>::empty(), x, MAX_DEPTH as nat) ==> r is Ok || r->Err_0 == CopyError::AllocationFailure,
{
    let mut out: Vec<u64> = Vec::with_capacity(n);
    let mut i: usize = 0;
    while i < n
        invariant
            heap.wf(),
            pool.wf(),
            heap_extends(old(heap)@, heap@),
            heap_ok(old(heap)@),
            x < old(heap)@.len(),
            i <= n,
            out@.len() == i,
            ids_below(out@, heap@.len()),
            is_atomic(old(heap)@[x as int]) ==> heap@ == old(heap)@ && forall|j: int|
                0 <= j < i ==> #[trigger] out@[j] == x,
        decreases n - i,
    {
        let ghost hb = heap@;
        proof {
            if clean(old(heap)@, Set::<u64>::empty(), x, MAX_DEPTH as nat) {
                lemma_clean_extends(old(heap)@, hb, Set::<u64>::empty(), Set::<u64>::empty(), x, MAX_DEPTH as nat);
            }
        }
        let c = match deepcopy_impl(heap, pool, x) {
            Ok(c) => c,
            Err(e) => {
                return Err(e);
            },
        };
        proof {
            assert(hb[x as int] == old(heap)@[x as int]);
            assert forall|j: int| 0 <= j < heap@.len() && j < old(heap)@.len() implies #[trigger] heap@[j] == old(
                heap,
            )@[j] by {
                assert(hb[j] == old(heap)@[j]);
            }
        }
        let ghost o0 = out@;
        out.push(c);
        proof {
            assert forall|j: int| 0 <= j < out@.len() implies #[trigger] out@[j] < heap@.len() by {
                if j < o0.len() {
                    assert(o0[j] < hb.len());
                }
            }
        }
        i = i + 1;
    }
    Ok(out)
}

/// What a shallow copy of `x` is: atomic objects and fixed kinds are shared,
/// mutable containers are copied with the same children, instances are rebuilt
/// from their decomposition without copying its parts.
pub open spec fn shallow_ok(h0: Seq<Object>, h1: Seq<Object>, x: u64, r: Result<u64, CopyError>) -> bool {
    match h0[x as int] {
        Object::Dict(es) => fresh_ok(h0, r) && (r is Ok ==> h1[r->Ok_0 as int] is Dict
            && h1[r->Ok_0 as int]->Dict_0@ == es@),
        Object::List(es) => fresh_ok(h0, r) && (r is Ok ==> h1[r->Ok_0 as int] is List
            && h1[r->Ok_0 as int]->List_0@ == es@),
        Object::MutableSet(es) => fresh_ok(h0, r) && (r is Ok ==> h1[r->Ok_0 as int] is MutableSet
            && h1[r->Ok_0 as int]->MutableSet_0@ == es@),
        Object::ByteArray(bs) => fresh_ok(h0, r) && (r is Ok ==> h1[r->Ok_0 as int] is ByteArray
            && h1[r->Ok_0 as int]->ByteArray_0@ == bs@),
        Object::Instance(inst) => match reduction_of(h0, inst.class) {
            Reduction::Missing => if constructible(h0, inst.class) {
                fields_copied(h0, h1, inst, r)
            } else {
                r == Err::<u64, CopyError>(CopyError::Uncopyable) && h1 == h0
            },
            Reduction::Raises => r == Err::<u64, CopyError>(CopyError::HookFailed) && h1 == h0,
            Reduction::Text => r == Ok::<u64, CopyError>(x) && h1 == h0,
            Reduction::Standard => shallow_rebuilt(h0, h1, inst.class, inst.args, r),
            Reduction::Tuple(es) => if es@.len() < 2 {
                r == Ok::<u64, CopyError>(x) && h1 == h0
            } else if es@.len() > 5 {
                r == Err::<u64, CopyError>(CopyError::ProtocolViolation) && h1 == h0
            } else {
                shallow_rebuilt(h0, h1, es@[0], es@[1], r)
            },
        },
        _ => r == Ok::<u64, CopyError>(x) && h1 == h0,
    }
}

/// The field-by-field shallow copy of instance `inst`: a new instance of its
/// type, built from the same arguments, holding the same named fields and a
/// new attribute mapping with the same pairs.
pub open spec fn fields_copied(h0: Seq<Object>, h1: Seq<Object>, inst: Instance, r: Result<u64, CopyError>) -> bool {
    &&& h0.len() + 2 <= HEAP_LIMIT ==> r is Ok
    &&& r is Ok ==> {
        let c = h1[r->Ok_0 as int]->Instance_0;
        &&& r->Ok_0 >= h0.len()
        &&& h1[r->Ok_0 as int] is Instance
        &&& c.class == inst.class
        &&& c.args == inst.args
        &&& c.fields@ == inst.fields@
        &&& match inst.dict {
            Some(d) => h0[d as int] is Dict ==> (c.dict matches Some(cd) && cd >= h0.len() && h1[cd as int] is Dict
                && h1[cd as int]->Dict_0@ == h0[d as int]->Dict_0@),
            None => c.dict is None,
        }
    }
}

/// A new object is added exactly when the heap has room for it.
pub open spec fn fresh_ok(h0: Seq<Object>, r: Result<u64, CopyError>) -> bool {
    &&& r is Ok <==> h0.len() < HEAP_LIMIT
    &&& r is Ok ==> r->Ok_0 == h0.len()
    &&& r is Err ==> r == Err::<u64, CopyError>(CopyError::AllocationFailure)
}

/// The shallow rebuild of an instance: a new instance of `ctor` built from the
/// very arguments `args`; a constructor that cannot be called fails.
pub open spec fn shallow_rebuilt(h0: Seq<Object>, h1: Seq<Object>, ctor: u64, args: u64, r: Result<u64, CopyError>) -> bool {
    &&& !constructible(h0, ctor) ==> r == Err::<u64, CopyError>(CopyError::ReconstructionFailure)
    &&& constructible(h0, ctor) && h0.len() + 2 <= HEAP_LIMIT ==> r is Ok
    &&& r is Ok ==> {
        &&& r->Ok_0 >= h0.len()
        &&& h1[r->Ok_0 as int] is Instance
        &&& h1[r->Ok_0 as int]->Instance_0.class == ctor
        &&& h1[r->Ok_0 as int]->Instance_0.args == args
    }
}

/// Shallow-copies `x`: the copy holds the same children as `x`.
pub fn copy_impl(heap: &mut Heap, x: u64) -> (r: Result<u64, CopyError>)
    requires
        old(heap).wf(),
        x < old(heap)@.len(),
    ensures
        final(heap).wf(),
        heap_extends(old(heap)@, final(heap)@),
        r is Ok ==> r->Ok_0 < final(heap)@.len(),
        shallow_ok(old(heap)@, final(heap)@, x, r),
{
    let ghost h0 = heap@;
    proof {
        assert(object_ok(h0[x as int], h0.len()));
    }
    let fresh = match heap.get(x) {
        Object::Dict(es) => Object::Dict(copy_pairs(es)),
        Object::List(es) => Object::List(copy_ids(es)),
        Object::MutableSet(es) => Object::MutableSet(copy_ids(es)),
        Object::ByteArray(bs) => Object::ByteArray(copy_bytes(bs)),
        Object::Instance(inst) => {
            let (class, args, dict) = (inst.class, inst.args, inst.dict);
            return copy_via_reduce(heap, x, class, args, dict);
        },
        _ => {
            return Ok(x);
        },
    };
    heap.add(fresh)
}

/// Shallow-copies instance `x` through the reduce protocol: the parts of the
/// decomposition are used as they are.
fn copy_via_reduce(heap: &mut Heap, x: u64, class: u64, args: u64, dict: Option<u64>) -> (r: Result<
    u64,
    CopyError,
>)
    requires
        old(heap).wf(),
        x < old(heap)@.len(),
        old(heap)@[x as int] is Instance,
        old(heap)@[x as int]->Instance_0.class == class,
        old(heap)@[x as int]->Instance_0.args == args,
        old(heap)@[x as int]->Instance_0.dict == dict,
    ensures
        final(heap).wf(),
        heap_extends(old(heap)@, final(heap)@),
        r is Ok ==> r->Ok_0 < final(heap)@.len(),
        shallow_ok(old(heap)@, final(heap)@, x, r),
{
    let ghost h0 = heap@;
    proof {
        assert(object_ok(h0[x as int], h0.len()));
        if class < h0.len() && h0[class as int] is Type {
            assert(object_ok(h0[class as int], h0.len()));
        }
    }
    let (kind, elems) = decomposition_of(heap, class);
    match kind {
        DecompositionKind::Missing => {
            if is_constructible(heap, class) {
                copy_slots_object(heap, x)
            } else {
                Err(CopyError::Uncopyable)
            }
        },
        DecompositionKind::Raises => Err(CopyError::HookFailed),
        DecompositionKind::Text => Ok(x),
        DecompositionKind::Standard => reconstruct_shallow(heap, class, args, dict, None, None),
        DecompositionKind::Tuple => {
            if elems.len() < 2 {
                return Ok(x);
            }
            if elems.len() > 5 {
                return Err(CopyError::ProtocolViolation);
            }
            let state = if elems.len() > 2 && !matches!(heap.get(elems[2]), Object::Nothing) {
                Some(elems[2])
            } else {
                None
            };
            let seq_items = if elems.len() > 3 && !matches!(heap.get(elems[3]), Object::Nothing) {
                Some(elems[3])
            } else {
                None
            };
            let map_items = if elems.len() > 4 && !matches!(heap.get(elems[4]), Object::Nothing) {
                Some(elems[4])
            } else {
                None
            };
            reconstruct_shallow(heap, elems[0], elems[1], state, seq_items, map_items)
        },
    }
}

/// Calls constructor `ctor` with `args`, then applies `state` and the items as
/// they are.
fn reconstruct_shallow(
    heap: &mut Heap,
    ctor: u64,
    args: u64,
    state: Option<u64>,
    seq_items: Option<u64>,
    map_items: Option<u64>,
) -> (r: Result<u64, CopyError>)
    requires
        old(heap).wf(),
        ctor < old(heap)@.len(),
        args < old(heap)@.len(),
        state matches Some(s) ==> s < old(heap)@.len(),
        seq_items matches Some(s) ==> s < old(heap)@.len(),
        map_items matches Some(s) ==> s < old(heap)@.len(),
    ensures
        final(heap).wf(),
        heap_extends(old(heap)@, final(heap)@),
        r is Ok ==> r->Ok_0 < final(heap)@.len(),
        shallow_rebuilt(old(heap)@, final(heap)@, ctor, args, r),
        constructible(old(heap)@, ctor) && old(heap)@.len() + 2 <= HEAP_LIMIT ==> r is Ok,
{
    let ghost h0 = heap@;
    if !is_constructible(heap, ctor) {
        return Err(CopyError::ReconstructionFailure);
    }
    let d = match heap.add(Object::Dict(Vec::new())) {
        Ok(d) => d,
        Err(e) => {
            return Err(e);
        },
    };
    let inst = Instance {
        class: ctor,
        args,
        dict: Some(d),
        fields: Vec::new(),
        items: Vec::new(),
        entries: Vec::new(),
        restored: None,
    };
    let obj = match heap.add(Object::Instance(inst)) {
        Ok(o) => o,
        Err(e) => {
            return Err(e);
        },
    };
    if let Some(s) = state {
        let ghost hc = heap@;
        set_object_state(heap, obj, s);
        proof {
            lemma_prefix_kept(h0, hc, heap@, obj as int, d as int);
        }
    }
    if let Some(it) = seq_items {
        let ghost hc = heap@;
        populate_list_items_shallow(heap, obj, it);
        proof {
            lemma_prefix_kept(h0, hc, heap@, obj as int, obj as int);
        }
    }
    if let Some(it) = map_items {
        let ghost hc = heap@;
        populate_dict_items_shallow(heap, obj, it);
        proof {
            lemma_prefix_kept(h0, hc, heap@, obj as int, obj as int);
        }
    }
    Ok(obj)
}

/// The (key, value) pairs held among the elements of `src`, in order.
pub open spec fn pairs_among(h: Seq<Object>, src: Seq<u64>) -> Seq<(u64, u64)>
    decreases src.len(),
{
    if src.len() == 0 {
        Seq::empty()
    } else {
        let rest = pairs_among(h, src.drop_last());
        match pair_in(h, src.last()) {
            Some(p) => rest.push(p),
            None => rest,
        }
    }
}

/// Appends the items of the sequence-like `it` to instance `obj`, uncopied.
fn populate_list_items_shallow(heap: &mut Heap, obj: u64, it: u64)
    requires
        old(heap).wf(),
        obj < old(heap)@.len(),
        it < old(heap)@.len(),
        old(heap)@[obj as int] is Instance,
    ensures
        final(heap).wf(),
        final(heap)@.len() == old(heap)@.len(),
        same_except(old(heap)@, final(heap)@, obj as int, obj as int),
        header_same(old(heap)@[obj as int], final(heap)@[obj as int]),
        final(heap)@[obj as int]->Instance_0.items@ == old(heap)@[obj as int]->Instance_0.items@ + items_of(
            old(heap)@[it as int],
        ),
        final(heap)@[obj as int]->Instance_0.entries@ == old(heap)@[obj as int]->Instance_0.entries@,
{
    let ghost h0 = heap@;
    proof {
        assert(object_ok(h0[obj as int], h0.len()));
    }
    let src = iterable_items(heap, it);
    let o = heap.take(obj);
    match o {
        Object::Instance(mut inst) => {
            let ghost i0 = inst;
            let mut k: usize = 0;
            while k < src.len()
                invariant
                    inst.class == i0.class,
                    inst.args == i0.args,
                    inst.dict == i0.dict,
                    inst.restored == i0.restored,
                    inst.fields == i0.fields,
                    inst.entries == i0.entries,
                    k <= src@.len(),
                    ids_below(src@, h0.len()),
                    ids_below(i0.items@, h0.len()),
                    inst.items@ == i0.items@ + src@.subrange(0, k as int),
                decreases src@.len() - k,
            {
                inst.items.push(src[k]);
                proof {
                    assert(src@.subrange(0, k + 1) =~= src@.subrange(0, k as int).push(src@[k as int]));
                }
                k = k + 1;
            }
            proof {
                assert(src@.subrange(0, src@.len() as int) =~= src@);
                assert forall|j: int| 0 <= j < inst.items@.len() implies #[trigger] inst.items@[j] < h0.len() by {
                    if j >= i0.items@.len() {
                        assert(inst.items@[j] == src@[j - i0.items@.len()]);
                    }
                }
            }
            heap.replace(obj, Object::Instance(inst));
            proof {
                assert(heap@ =~= h0.update(obj as int, Object::Instance(inst)));
            }
        },
        other => {
            heap.replace(obj, other);
        },
    }
}

/// Assigns in instance `obj` each (key, value) pair held among the items of
/// the sequence-like `it`, uncopied; other items are skipped.
fn populate_dict_items_shallow(heap: &mut Heap, obj: u64, it: u64)
    requires
        old(heap).wf(),
        obj < old(heap)@.len(),
        it < old(heap)@.len(),
        old(heap)@[obj as int] is Instance,
    ensures
        final(heap).wf(),
        final(heap)@.len() == old(heap)@.len(),
        same_except(old(heap)@, final(heap)@, obj as int, obj as int),
        header_same(old(heap)@[obj as int], final(heap)@[obj as int]),
        final(heap)@[obj as int]->Instance_0.items@ == old(heap)@[obj as int]->Instance_0.items@,
        final(heap)@[obj as int]->Instance_0.entries@ == dict_set_all(
            old(heap)@[obj as int]->Instance_0.entries@,
            pairs_among(old(heap)@, items_of(old(heap)@[it as int])),
        ),
{
    let ghost h0 = heap@;
    proof {
        assert(object_ok(h0[obj as int], h0.len()));
    }
    let src = iterable_items(heap, it);
    let mut out: Vec<(u64, u64)> = Vec::new();
    let mut i: usize = 0;
    while i < src.len()
        invariant
            heap@ == h0,
            heap.wf(),
            i <= src@.len(),
            src@ == items_of(h0[it as int]),
            ids_below(src@, h0.len()),
            out@ == pairs_among(h0, src@.subrange(0, i as int)),
            pairs_below(out@, h0.len()),
        decreases src@.len() - i,
    {
        let ghost o0 = out@;
        match pair_of(heap, src[i]) {
            Some(p) => {
                out.push(p);
            },
            None => {},
        }
        proof {
            let sub = src@.subrange(0, i + 1);
            assert(sub.drop_last() =~= src@.subrange(0, i as int));
            assert(sub.last() == src@[i as int]);
            assert forall|j: int| 0 <= j < out@.len() implies #[trigger] out@[j].0 < h0.len() && out@[j].1
                < h0.len() by {
                if j < o0.len() {
                    assert(o0[j].0 < h0.len() && o0[j].1 < h0.len());
                }
            }
        }
        i = i + 1;
    }
    proof {
        assert(src@.subrange(0, src@.len() as int) =~= src@);
    }
    let o = heap.take(obj);
    match o {
        Object::Instance(mut inst) => {
            let ghost i0 = inst;
            pairs_set_all(&mut inst.entries, &out, Ghost(h0.len()));
            heap.replace(obj, Object::Instance(inst));
            proof {
                assert(heap@ =~= h0.update(obj as int, Object::Instance(inst)));
            }
        },
        other => {
            heap.replace(obj, other);
        },
    }
}

/// Copies instance `x` field by field: a new instance of its type, built from
/// the same arguments, with the same named fields and a new attribute mapping
/// holding the same pairs.
fn copy_slots_object(heap: &mut Heap, x: u64) -> (r: Result<u64, CopyError>)
    requires
        old(heap).wf(),
        x < old(heap)@.len(),
        old(heap)@[x as int] is Instance,
    ensures
        final(heap).wf(),
        heap_extends(old(heap)@, final(heap)@),
        r is Ok ==> r->Ok_0 < final(heap)@.len(),
        fields_copied(old(heap)@, final(heap)@, old(heap)@[x as int]->Instance_0, r),
{
    let ghost h0 = heap@;
    proof {
        assert(object_ok(h0[x as int], h0.len()));
    }
    let (class, args, dict, fields) = match heap.get(x) {
        Object::Instance(inst) => (inst.class, inst.args, inst.dict, copy_pairs(&inst.fields)),
        _ => (0, 0, None, Vec::new()),
    };
    let new_dict = match dict {
        Some(d) => {
            proof {
                assert(object_ok(h0[d as int], h0.len()));
            }
            let pairs = match heap.get(d) {
                Object::Dict(es) => Some(copy_pairs(es)),
                _ => None,
            };
            match pairs {
                Some(ps) => match heap.add(Object::Dict(ps)) {
                    Ok(nd) => Some(nd),
                    Err(e) => {
                        return Err(e);
                    },
                },
                None => Some(d),
            }
        },
        None => None,
    };
    let inst = Instance {
        class,
        args,
        dict: new_dict,
        fields,
        items: Vec::new(),
        entries: Vec::new(),
        restored: None,
    };
    proof {
        let o = h0[x as int]->Instance_0;
        assert(keys_unique(o.fields@) && pairs_below(o.fields@, h0.len()));
        assert(heap@.len() >= h0.len());
        assert(inst.fields@ == o.fields@);
        assert forall|j: int| 0 <= j < inst.fields@.len() implies #[trigger] inst.fields@[j].0 < heap@.len() + 1
            && inst.fields@[j].1 < heap@.len() + 1 by {
            assert(o.fields@[j].0 < h0.len() && o.fields@[j].1 < h0.len());
        }
        assert(inst.class < heap@.len() + 1 && inst.args < heap@.len() + 1);
    }
    heap.add(Object::Instance(inst))
}

} // verus!
