//! The reduce protocol: decompose an instance, clone the pieces, rebuild it,
//! register it, then apply state and items as far as possible.

use vstd::prelude::*;
use crate::dispatch::{lemma_keys_grow, clean, ok_or_exhausted, exhausted, full_kept, lemma_clean_extends, lemma_frame_trans, pair_ok, deepcopy_recursive, elem_ok, frame, lemma_clone_elem, memo_extends, memo_ok, rebuilt_ok, reduce_ok};
use crate::error::CopyError;
use crate::graph::{heap_extends, heap_ok, is_atomic, Heap, Instance, Object, Reduction, copy_ids, copy_pairs, dict_set_all, ids_below, keys_unique, object_ok, pairs_below, pairs_set_all};
use crate::hash::spec_hash_pointer;
use crate::memo_trait::Memo;
use crate::types::{constructible, hook_of, reduction_of, restores};

verus! {

/// The shape of a decomposition, without its elements.
#[derive(Clone, Copy, Debug, PartialEq, Eq, Structural)]
pub enum DecompositionKind {
    Missing,
    Raises,
    Text,
    Standard,
    Tuple,
}

pub open spec fn kind_of(r: Reduction) -> DecompositionKind {
    match r {
        Reduction::Missing => DecompositionKind::Missing,
        Reduction::Raises => DecompositionKind::Raises,
        Reduction::Text => DecompositionKind::Text,
        Reduction::Standard => DecompositionKind::Standard,
        Reduction::Tuple(_) => DecompositionKind::Tuple,
    }
}

/// The attribute-mapping part of a state: the state itself when it is a
/// mapping, the first of a pair when that is a mapping.
pub open spec fn attrs_part(h: Seq<Object>, s: u64) -> Option<u64> {
    match h[s as int] {
        Object::Dict(_) => Some(s),
        Object::Tuple(ts) => if ts@.len() == 2 && h[ts@[0] as int] is Dict {
            Some(ts@[0])
        } else {
            None
        },
        _ => None,
    }
}

/// The named-field part of a state: the second of a pair, when that is a mapping.
pub open spec fn slots_part(h: Seq<Object>, s: u64) -> Option<u64> {
    match h[s as int] {
        Object::Tuple(ts) => if ts@.len() == 2 && h[ts@[1] as int] is Dict {
            Some(ts@[1])
        } else {
            None
        },
        _ => None,
    }
}

/// `h1` equals `h0` on every index below `h0.len()` but `a` and `b`.
pub open spec fn same_except(h0: Seq<Object>, h1: Seq<Object>, a: int, b: int) -> bool {
    &&& h0.len() <= h1.len()
    &&& forall|i: int| 0 <= i < h0.len() && i != a && i != b ==> #[trigger] h1[i] == h0[i]
}

/// Objects below `h0.len()` that one step kept and a second step did not touch
/// are kept by both.
pub proof fn lemma_prefix_kept(h0: Seq<Object>, hc: Seq<Object>, h: Seq<Object>, a: int, b: int)
    requires
        heap_extends(h0, hc),
        same_except(hc, h, a, b),
        a >= h0.len(),
        b >= h0.len(),
    ensures
        heap_extends(h0, h),
{
    assert forall|i: int| 0 <= i < h0.len() implies #[trigger] h[i] == h0[i] by {
        assert(hc[i] == h0[i]);
    }
}

/// Both are instances with the same type, arguments, attribute mapping and
/// restored state.
pub open spec fn header_same(o0: Object, o1: Object) -> bool {
    &&& o0 is Instance
    &&& o1 is Instance
    &&& o1->Instance_0.class == o0->Instance_0.class
    &&& o1->Instance_0.args == o0->Instance_0.args
    &&& o1->Instance_0.dict == o0->Instance_0.dict
    &&& o1->Instance_0.restored == o0->Instance_0.restored
}

/// The effect of applying state `s` to instance `obj`: a restore-state hook
/// receives it; otherwise its mapping part updates the attribute mapping and
/// its field part sets named fields.
pub open spec fn state_applied(h0: Seq<Object>, h1: Seq<Object>, obj: u64, s: u64) -> bool {
    let inst = h0[obj as int]->Instance_0;
    if restores(h0, inst.class) {
        h1 == h0.update(obj as int, Object::Instance(Instance { restored: Some(s), ..inst }))
    } else {
        let d = match inst.dict {
            Some(d) => d,
            None => obj,
        };
        &&& h1.len() == h0.len()
        &&& same_except(h0, h1, obj as int, d as int)
        &&& header_same(h0[obj as int], h1[obj as int])
        &&& h1[obj as int]->Instance_0.items@ == inst.items@
        &&& h1[obj as int]->Instance_0.entries@ == inst.entries@
        &&& h1[obj as int]->Instance_0.fields@ == match slots_part(h0, s) {
            Some(p) => dict_set_all(inst.fields@, h0[p as int]->Dict_0@),
            None => inst.fields@,
        }
        &&& (d != obj && h0[d as int] is Dict) ==> h1[d as int] is Dict && h1[d as int]->Dict_0@ == match attrs_part(
            h0,
            s,
        ) {
            Some(p) => dict_set_all(h0[d as int]->Dict_0@, h0[p as int]->Dict_0@),
            None => h0[d as int]->Dict_0@,
        }
        &&& (d != obj && !(h0[d as int] is Dict)) ==> h1[d as int] == h0[d as int]
    }
}

/// Which decomposition applies to instances of `class`, with its elements
/// when it is a tuple.
pub(crate) fn decomposition_of(heap: &Heap, class: u64) -> (r: (DecompositionKind, Vec<u64>))
    requires
        heap.wf(),
    ensures
        r.0 == kind_of(reduction_of(heap@, class)),
        reduction_of(heap@, class) matches Reduction::Tuple(es) ==> r.1@ == es@,
{
    if class >= heap.len() as u64 {
        return (DecompositionKind::Missing, Vec::new());
    }
    match heap.get(class) {
        Object::Type(t) => {
            let red = if matches!(t.reduce_ex, Reduction::Missing) {
                &t.reduce
            } else {
                &t.reduce_ex
            };
            match red {
                Reduction::Missing => (DecompositionKind::Missing, Vec::new()),
                Reduction::Raises => (DecompositionKind::Raises, Vec::new()),
                Reduction::Text => (DecompositionKind::Text, Vec::new()),
                Reduction::Standard => (DecompositionKind::Standard, Vec::new()),
                Reduction::Tuple(es) => (DecompositionKind::Tuple, copy_ids(es)),
            }
        },
        _ => (DecompositionKind::Missing, Vec::new()),
    }
}

/// Whether calling `ctor` as a constructor succeeds.
pub(crate) fn is_constructible(heap: &Heap, ctor: u64) -> (r: bool)
    requires
        heap.wf(),
    ensures
        r == constructible(heap@, ctor),
{
    if ctor >= heap.len() as u64 {
        return false;
    }
    match heap.get(ctor) {
        Object::Type(t) => t.constructible,
        _ => false,
    }
}

/// Whether instances of `class` take their state through a restore-state hook.
fn has_restore_hook(heap: &Heap, class: u64) -> (r: bool)
    requires
        heap.wf(),
    ensures
        r == restores(heap@, class),
{
    if class >= heap.len() as u64 {
        return false;
    }
    match heap.get(class) {
        Object::Type(t) => t.restore_hook,
        _ => false,
    }
}

/// The elements of a sequence-like object; nothing for any other object.
pub open spec fn items_of(o: Object) -> Seq<u64> {
    match o {
        Object::List(es) => es@,
        Object::Tuple(es) => es@,
        _ => Seq::empty(),
    }
}

/// `js` picks, in increasing order, the positions of `src` that the elements
/// of `out` stand for.
pub open spec fn picks(h0: Seq<Object>, m: Map<u64, u64>, src: Seq<u64>, out: Seq<u64>, js: Seq<int>) -> bool {
    &&& js.len() == out.len()
    &&& forall|k: int| 0 <= k < js.len() ==> 0 <= #[trigger] js[k] < src.len() && elem_ok(h0, m, src[js[k]], out[k])
    &&& forall|k: int, l: int| 0 <= k < l < js.len() ==> js[k] < js[l]
}

/// The (key, value) pair that object `e` holds, when it is a fixed sequence of two.
pub open spec fn pair_in(h0: Seq<Object>, e: u64) -> Option<(u64, u64)> {
    match h0[e as int] {
        Object::Tuple(ts) => if ts@.len() == 2 {
            Some((ts@[0], ts@[1]))
        } else {
            None
        },
        _ => None,
    }
}

/// `js` picks, in increasing order, the positions of `src` holding the pairs
/// that the pairs of `out` stand for.
pub open spec fn pair_picks(
    h0: Seq<Object>,
    m: Map<u64, u64>,
    src: Seq<u64>,
    out: Seq<(u64, u64)>,
    js: Seq<int>,
) -> bool {
    &&& js.len() == out.len()
    &&& forall|k: int|
        0 <= k < js.len() ==> 0 <= #[trigger] js[k] < src.len() && pair_in(h0, src[js[k]]) is Some && pair_ok(
            h0,
            m,
            pair_in(h0, src[js[k]])->Some_0,
            out[k],
        )
    &&& forall|k: int, l: int| 0 <= k < l < js.len() ==> js[k] < js[l]
}

proof fn lemma_pair_picks_mono(
    h0: Seq<Object>,
    m: Map<u64, u64>,
    m2: Map<u64, u64>,
    src: Seq<u64>,
    out: Seq<(u64, u64)>,
    js: Seq<int>,
)
    requires
        pair_picks(h0, m, src, out, js),
        memo_extends(m, m2),
    ensures
        pair_picks(h0, m2, src, out, js),
{
    assert forall|k: int| 0 <= k < js.len() implies 0 <= #[trigger] js[k] < src.len() && pair_in(h0, src[js[k]]) is Some
        && pair_ok(h0, m2, pair_in(h0, src[js[k]])->Some_0, out[k]) by {
        assert(pair_ok(h0, m, pair_in(h0, src[js[k]])->Some_0, out[k]));
    }
}

/// `out` stands for some of the pairs held among the elements of `src`, in
/// their order.
pub open spec fn pairs_picked_ok(h0: Seq<Object>, m: Map<u64, u64>, src: Seq<u64>, out: Seq<(u64, u64)>) -> bool {
    exists|js: Seq<int>| #[trigger] pair_picks(h0, m, src, out, js) && covers_atomic_pairs(h0, src, js, src.len() as int)
}

/// `out` stands for some of the elements of `src`, in their order.
pub open spec fn picked_ok(h0: Seq<Object>, m: Map<u64, u64>, src: Seq<u64>, out: Seq<u64>) -> bool {
    exists|js: Seq<int>| #[trigger] picks(h0, m, src, out, js) && covers_atomic(h0, src, js, src.len() as int)
}

/// Every position of `src` below `n` holding an atomic object is among the
/// picked positions `js`: such an item is never skipped.
pub open spec fn covers_atomic(h0: Seq<Object>, src: Seq<u64>, js: Seq<int>, n: int) -> bool {
    forall|j: int| 0 <= j < n && is_atomic(h0[src[j] as int]) ==> #[trigger] js.contains(j)
}

/// Every position of `src` below `n` holding a pair of atomic objects is
/// among the picked positions `js`: such a pair is never skipped.
pub open spec fn covers_atomic_pairs(h0: Seq<Object>, src: Seq<u64>, js: Seq<int>, n: int) -> bool {
    forall|j: int|
        0 <= j < n && pair_in(h0, src[j]) is Some && is_atomic(h0[pair_in(h0, src[j])->Some_0.0 as int])
            && is_atomic(h0[pair_in(h0, src[j])->Some_0.1 as int]) ==> #[trigger] js.contains(j)
}

pub(crate) fn iterable_items(heap: &Heap, it: u64) -> (r: Vec<u64>)
    requires
        heap.wf(),
        it < heap@.len(),
    ensures
        ids_below(r@, heap@.len()),
        r@ == items_of(heap@[it as int]),
{
    proof {
        assert(object_ok(heap@[it as int], heap@.len()));
    }
    match heap.get(it) {
        Object::List(es) => copy_ids(es),
        Object::Tuple(es) => copy_ids(es),
        _ => Vec::new(),
    }
}

/// Copies instance `x` through the reduce protocol.
pub fn deepcopy_via_reduce<M: Memo>(heap: &mut Heap, memo: &mut M, x: u64, hash: u64, depth: u64) -> (r: Result<
    u64,
    CopyError,
>)
    requires
        old(heap).wf(),
        old(memo).inv(),
        x < old(heap)@.len(),
        old(heap)@[x as int] is Instance,
        hook_of(old(heap)@, old(heap)@[x as int]->Instance_0.class) is Absent,
        memo_ok(old(memo).entries(), old(heap)@.len()),
        !old(memo).entries().contains_key(x),
        hash == spec_hash_pointer(x),
        depth > 0,
    ensures
        final(memo).inv(),
        frame(old(heap)@, final(heap)@, old(memo).entries(), final(memo).entries()),
        r is Ok ==> r->Ok_0 < final(heap)@.len(),
        reduce_ok(
            old(heap)@,
            final(heap)@,
            old(memo).entries(),
            final(memo).entries(),
            x,
            old(heap)@[x as int]->Instance_0,
            r,
        ),
        full_kept(*old(memo), *final(memo)),
        clean(old(heap)@, old(memo).entries().dom(), x, depth as nat) ==> ok_or_exhausted(r, final(heap)@, *final(memo)),
    decreases depth, 2u64,
{
    let ghost h0 = heap@;
    proof {
        assert(object_ok(h0[x as int], h0.len()));
    }
    let (class, args, dict) = match heap.get(x) {
        Object::Instance(inst) => (inst.class, inst.args, inst.dict),
        _ => (0, 0, None),
    };
    let (kind, elems) = decomposition_of(heap, class);
    proof {
        if class < h0.len() && h0[class as int] is Type {
            assert(object_ok(h0[class as int], h0.len()));
        }
    }
    match kind {
        DecompositionKind::Missing => {
            if is_constructible(heap, class) {
                reconstruct_from_reduce(heap, memo, x, hash, class, args, dict, None, None, depth)
            } else {
                Err(CopyError::Uncopyable)
            }
        },
        DecompositionKind::Raises => Err(CopyError::HookFailed),
        DecompositionKind::Text => Ok(x),
        DecompositionKind::Standard => {
            reconstruct_from_reduce(heap, memo, x, hash, class, args, dict, None, None, depth)
        },
        DecompositionKind::Tuple => {
            if elems.len() < 2 {
                return Ok(x);
            }
            if elems.len() > 5 {
                return Err(CopyError::ProtocolViolation);
            }
            let state = if elems.len() > 2 && !matches!(heap.get(elems[2]), Object::Nothing) {
                Some(elems[2])
            } else {
                None
            };
            let seq_items = if elems.len() > 3 && !matches!(heap.get(elems[3]), Object::Nothing) {
                Some(elems[3])
            } else {
                None
            };
            let map_items = if elems.len() > 4 && !matches!(heap.get(elems[4]), Object::Nothing) {
                Some(elems[4])
            } else {
                None
            };
            reconstruct_from_reduce(heap, memo, x, hash, elems[0], elems[1], state, seq_items, map_items, depth)
        },
    }
}

/// Rebuilds `x` from a decomposition: clones the arguments, calls the
/// constructor, registers and holds the result, then clones and applies the
/// state and the items.
pub fn reconstruct_from_reduce<M: Memo>(
    heap: &mut Heap,
    memo: &mut M,
    x: u64,
    hash: u64,
    ctor: u64,
    args: u64,
    state: Option<u64>,
    seq_items: Option<u64>,
    map_items: Option<u64>,
    depth: u64,
) -> (r: Result<u64, CopyError>)
    requires
        old(heap).wf(),
        old(memo).inv(),
        x < old(heap)@.len(),
        ctor < old(heap)@.len(),
        args < old(heap)@.len(),
        state matches Some(s) ==> s < old(heap)@.len(),
        seq_items matches Some(s) ==> s < old(heap)@.len(),
        map_items matches Some(s) ==> s < old(heap)@.len(),
        memo_ok(old(memo).entries(), old(heap)@.len()),
        !old(memo).entries().contains_key(x),
        hash == spec_hash_pointer(x),
        depth > 0,
    ensures
        final(memo).inv(),
        frame(old(heap)@, final(heap)@, old(memo).entries(), final(memo).entries()),
        r is Ok ==> r->Ok_0 < final(heap)@.len(),
        rebuilt_ok(old(heap)@, final(heap)@, final(memo).entries(), x, ctor, args, state, r),
        full_kept(*old(memo), *final(memo)),
        constructible(old(heap)@, ctor) && clean(old(heap)@, old(memo).entries().dom(), args, (depth - 1) as nat)
            && match state {
            Some(s) => clean(old(heap)@, old(memo).entries().dom().insert(x), s, (depth - 1) as nat),
            None => true,
        } ==> ok_or_exhausted(r, final(heap)@, *final(memo)),
        !constructible(old(heap)@, ctor) ==> r is Err,
        !constructible(old(heap)@, ctor) && clean(old(heap)@, old(memo).entries().dom(), args, (depth - 1) as nat)
            ==> r == Err::<u64, CopyError>(CopyError::ReconstructionFailure) || ok_or_exhausted(
            r,
            final(heap)@,
            *final(memo),
        ),
    decreases depth, 1u64,
{
    let ghost h0 = heap@;
    let ghost m0 = memo.entries();
    let ar = deepcopy_recursive(heap, memo, args, depth - 1);
    let new_args = match ar {
        Ok(a) => a,
        Err(e) => {
            return Err(e);
        },
    };
    proof {
        lemma_clone_elem(h0, h0, heap@, m0, memo.entries(), args, (depth - 1) as u64, ar);
        assert(heap@[ctor as int] == h0[ctor as int]);
    }
    if !is_constructible(heap, ctor) {
        return Err(CopyError::ReconstructionFailure);
    }
    let d = match heap.add(Object::Dict(Vec::new())) {
        Ok(d) => d,
        Err(e) => {
            return Err(e);
        },
    };
    let inst = Instance {
        class: ctor,
        args: new_args,
        dict: Some(d),
        fields: Vec::new(),
        items: Vec::new(),
        entries: Vec::new(),
        restored: None,
    };
    let ghost mut rs: Option<u64> = None;
    let obj = match heap.add(Object::Instance(inst)) {
        Ok(o) => o,
        Err(e) => {
            return Err(e);
        },
    };
    match memo.insert(x, obj, hash) {
        Ok(()) => {},
        Err(e) => {
            return Err(e);
        },
    }
    match memo.keepalive(obj) {
        Ok(()) => {},
        Err(e) => {
            return Err(e);
        },
    }

    proof {
        assert(heap@[obj as int] is Instance && heap@[obj as int]->Instance_0.class == ctor && heap@[obj as int]->Instance_0.args == new_args);
        assert(memo.entries().contains_key(x) && memo.entries()[x] == obj);
        assert(obj >= h0.len());
        assert(heap@[obj as int]->Instance_0.restored == rs);
    }
    proof {
        assert(frame(h0, heap@, m0, memo.entries()));
        if args != x {
            assert(elem_ok(h0, memo.entries(), args, new_args));
        }
    }
    if let Some(s) = state {
        let ghost hb = heap@;
        let ghost mb = memo.entries();
        proof {
            if clean(h0, m0.dom().insert(x), s, (depth - 1) as nat) {
                lemma_keys_grow(m0, mb);
                assert(m0.dom().insert(x).subset_of(mb.dom()));
                lemma_clean_extends(h0, hb, m0.dom().insert(x), mb.dom(), s, (depth - 1) as nat);
            }
        }
        let sr = deepcopy_recursive(heap, memo, s, depth - 1);
        proof {
            lemma_frame_trans(h0, hb, heap@, m0, mb, memo.entries());
            if args != x {
                assert(elem_ok(h0, mb, args, new_args));
            }
        }
        let new_state = match sr {
            Ok(ns) => ns,
            Err(e) => {
                return Err(e);
            },
        };
        let ghost hc = heap@;
        proof {
            assert(hc[obj as int] == hb[obj as int]);
        }
        proof {
            lemma_clone_elem(h0, hb, heap@, mb, memo.entries(), s, (depth - 1) as u64, sr);
            assert(heap@[ctor as int] == h0[ctor as int]);
            if restores(h0, ctor) {
                rs = Some(new_state);
            }
        }
        set_object_state(heap, obj, new_state);
        proof {
            assert forall|i: int| 0 <= i < h0.len() implies #[trigger] heap@[i] == h0[i] by {
                assert(hc[i] == h0[i]);
            }
        }
    }

    proof {
        assert(heap@[obj as int] is Instance && heap@[obj as int]->Instance_0.class == ctor && heap@[obj as int]->Instance_0.args == new_args);
        assert(memo.entries().contains_key(x) && memo.entries()[x] == obj);
        assert(obj >= h0.len());
        assert(heap@[obj as int]->Instance_0.restored == rs);
        if let Some(z) = rs {
            assert(restores(h0, ctor) && state is Some);
            assert(elem_ok(h0, memo.entries(), state->Some_0, z));
        } else {
            assert(!(restores(h0, ctor) && state is Some));
        }
    }
    if let Some(it) = seq_items {
        let ghost hb = heap@;
        let ghost mb = memo.entries();
        populate_list_items(heap, memo, obj, it, depth);
        proof {
            assert forall|i: int| 0 <= i < h0.len() implies #[trigger] heap@[i] == h0[i] by {
                assert(hb[i] == h0[i]);
            }
            if args != x {
                assert(elem_ok(h0, mb, args, new_args));
            }
        }
    }

    proof {
        assert(heap@[obj as int] is Instance && heap@[obj as int]->Instance_0.class == ctor && heap@[obj as int]->Instance_0.args == new_args);
        assert(memo.entries().contains_key(x) && memo.entries()[x] == obj);
        assert(obj >= h0.len());
        assert(heap@[obj as int]->Instance_0.restored == rs);
        if let Some(z) = rs {
            assert(restores(h0, ctor) && state is Some);
            assert(elem_ok(h0, memo.entries(), state->Some_0, z));
        } else {
            assert(!(restores(h0, ctor) && state is Some));
        }
    }
    if let Some(it) = map_items {
        let ghost hb = heap@;
        let ghost mb = memo.entries();
        populate_dict_items(heap, memo, obj, it, depth);
        proof {
            assert forall|i: int| 0 <= i < h0.len() implies #[trigger] heap@[i] == h0[i] by {
                assert(hb[i] == h0[i]);
            }
            if args != x {
                assert(elem_ok(h0, mb, args, new_args));
            }
        }
    }

    proof {
        assert(heap@[obj as int] is Instance && heap@[obj as int]->Instance_0.class == ctor && heap@[obj as int]->Instance_0.args == new_args);
        assert(memo.entries().contains_key(x) && memo.entries()[x] == obj);
        assert(obj >= h0.len());
        assert(heap@[obj as int]->Instance_0.restored == rs);
        if let Some(z) = rs {
            assert(restores(h0, ctor) && state is Some);
            assert(elem_ok(h0, memo.entries(), state->Some_0, z));
        } else {
            assert(!(restores(h0, ctor) && state is Some));
        }
    }
    Ok(obj)
}

/// Whether object `x` is an ordered mapping.
fn is_dict(heap: &Heap, x: u64) -> (r: bool)
    requires
        heap.wf(),
        x < heap@.len(),
    ensures
        r == (heap@[x as int] is Dict),
{
    matches!(heap.get(x), Object::Dict(_))
}

/// The pairs of mapping `x`.
fn dict_pairs(heap: &Heap, x: u64) -> (r: Vec<(u64, u64)>)
    requires
        heap.wf(),
        x < heap@.len(),
        heap@[x as int] is Dict,
    ensures
        r@ == heap@[x as int]->Dict_0@,
        pairs_below(r@, heap@.len()),
        keys_unique(r@),
{
    proof {
        assert(object_ok(heap@[x as int], heap@.len()));
    }
    match heap.get(x) {
        Object::Dict(es) => copy_pairs(es),
        _ => Vec::new(),
    }
}

/// The two elements of `x` when it is a fixed sequence of two.
pub(crate) fn pair_of(heap: &Heap, x: u64) -> (r: Option<(u64, u64)>)
    requires
        heap.wf(),
        x < heap@.len(),
    ensures
        r == pair_in(heap@, x),
        r matches Some(p) ==> p.0 < heap@.len() && p.1 < heap@.len(),
{
    proof {
        assert(object_ok(heap@[x as int], heap@.len()));
    }
    match heap.get(x) {
        Object::Tuple(ts) => {
            if ts.len() == 2 {
                Some((ts[0], ts[1]))
            } else {
                None
            }
        },
        _ => None,
    }
}

/// Applies the cloned state `s` to the rebuilt instance `obj`, as far as the
/// state's shape allows.
pub fn set_object_state(heap: &mut Heap, obj: u64, s: u64)
    requires
        old(heap).wf(),
        obj < old(heap)@.len(),
        s < old(heap)@.len(),
        old(heap)@[obj as int] is Instance,
    ensures
        final(heap).wf(),
        state_applied(old(heap)@, final(heap)@, obj, s),
        final(heap)@.len() == old(heap)@.len(),
        same_except(
            old(heap)@,
            final(heap)@,
            obj as int,
            match old(heap)@[obj as int]->Instance_0.dict {
                Some(d) => d as int,
                None => obj as int,
            },
        ),
{
    let ghost h0 = heap@;
    proof {
        assert(object_ok(h0[obj as int], h0.len()));
        assert(object_ok(h0[s as int], h0.len()));
    }
    let (class, dict) = match heap.get(obj) {
        Object::Instance(inst) => (inst.class, inst.dict),
        _ => (0, None),
    };
    if has_restore_hook(heap, class) {
        let o = heap.take(obj);
        match o {
            Object::Instance(mut inst) => {
                let ghost i0 = inst;
                inst.restored = Some(s);
                heap.replace(obj, Object::Instance(inst));
                proof {
                    assert(inst == Instance { restored: Some(s), ..i0 });
                    assert(heap@ =~= h0.update(obj as int, Object::Instance(Instance { restored: Some(s), ..i0 })));
                }
            },
            other => {
                heap.replace(obj, other);
            },
        }
        return;
    }
    let (attrs, slots): (Option<u64>, Option<u64>) = match heap.get(s) {
        Object::Dict(_) => (Some(s), None),
        Object::Tuple(ts) => {
            if ts.len() == 2 {
                let a = if is_dict(heap, ts[0]) {
                    Some(ts[0])
                } else {
                    None
                };
                let b = if is_dict(heap, ts[1]) {
                    Some(ts[1])
                } else {
                    None
                };
                (a, b)
            } else {
                (None, None)
            }
        },
        _ => (None, None),
    };
    assert(attrs == attrs_part(h0, s));
    assert(slots == slots_part(h0, s));
    let attr_pairs: Vec<(u64, u64)> = match attrs {
        Some(p) => dict_pairs(heap, p),
        None => Vec::new(),
    };
    let slot_pairs: Vec<(u64, u64)> = match slots {
        Some(p) => dict_pairs(heap, p),
        None => Vec::new(),
    };
    let ghost n = h0.len();
    if let Some(d) = dict {
        if attrs.is_some() && is_dict(heap, d) {
            let o = heap.take(d);
            match o {
                Object::Dict(mut des) => {
                    proof {
                        assert(object_ok(h0[d as int], n));
                    }
                    pairs_set_all(&mut des, &attr_pairs, Ghost(n));
                    heap.replace(d, Object::Dict(des));
                    proof {
                        assert(heap@ =~= h0.update(d as int, Object::Dict(des)));
                    }
                },
                other => {
                    heap.replace(d, other);
                },
            }
        }
    }
    let ghost h1 = heap@;
    assert(h1[obj as int] == h0[obj as int]);
    assert(h1.len() == n);
    assert(forall|i: int| 0 <= i < n && i != dict.unwrap_or(obj) ==> #[trigger] h1[i] == h0[i]);
    if slots.is_some() {
        let o = heap.take(obj);
        match o {
            Object::Instance(mut inst) => {
                let ghost i0 = inst;
                pairs_set_all(&mut inst.fields, &slot_pairs, Ghost(n));
                heap.replace(obj, Object::Instance(inst));
                proof {
                    assert(inst.class == i0.class && inst.args == i0.args && inst.dict == i0.dict);
                    assert(heap@ =~= h1.update(obj as int, Object::Instance(inst)));
                }
            },
            other => {
                heap.replace(obj, other);
            },
        }
    }
}

/// Clones each item of the sequence-like `it` and appends it to instance
/// `obj`; an item whose clone fails is skipped.
pub fn populate_list_items<M: Memo>(heap: &mut Heap, memo: &mut M, obj: u64, it: u64, depth: u64)
    requires
        old(heap).wf(),
        old(memo).inv(),
        obj < old(heap)@.len(),
        it < old(heap)@.len(),
        old(heap)@[obj as int] is Instance,
        memo_ok(old(memo).entries(), old(heap)@.len()),
        depth > 0,
    ensures
        final(heap).wf(),
        final(memo).inv(),
        memo_extends(old(memo).entries(), final(memo).entries()),
        memo_ok(final(memo).entries(), final(heap)@.len()),
        full_kept(*old(memo), *final(memo)),
        same_except(old(heap)@, final(heap)@, obj as int, obj as int),
        header_same(old(heap)@[obj as int], final(heap)@[obj as int]),
        ({
            let before = old(heap)@[obj as int]->Instance_0;
            let after = final(heap)@[obj as int]->Instance_0;
            &&& after.fields@ == before.fields@
            &&& after.entries@ == before.entries@
            &&& after.items@.len() >= before.items@.len()
            &&& after.items@.subrange(0, before.items@.len() as int) == before.items@
            &&& picked_ok(
                old(heap)@,
                final(memo).entries(),
                items_of(old(heap)@[it as int]),
                after.items@.subrange(before.items@.len() as int, after.items@.len() as int),
            )
        }),
    decreases depth, 0u64,
{
    let ghost h0 = heap@;
    let ghost m0 = memo.entries();
    let src = iterable_items(heap, it);
    let mut out: Vec<u64> = Vec::new();
    let ghost mut js: Seq<int> = Seq::empty();
    let mut i: usize = 0;
    while i < src.len()
        invariant
            heap.wf(),
            memo.inv(),
            frame(h0, heap@, m0, memo.entries()),
            h0 == old(heap)@,
            m0 == old(memo).entries(),
            full_kept(*old(memo), *memo),
            src@ == items_of(h0[it as int]),
            ids_below(src@, h0.len()),
            ids_below(out@, heap@.len()),
            obj < h0.len(),
            depth > 0,
            i <= src@.len(),
            picks(h0, memo.entries(), src@, out@, js),
            forall|k: int| 0 <= k < js.len() ==> #[trigger] js[k] < i,
            covers_atomic(h0, src@, js, i as int),
            heap_ok(h0),
        decreases src@.len() - i,
    {
        let ghost hb = heap@;
        let ghost mb = memo.entries();
        let ghost o0 = out@;
        let ghost j0 = js;
        let cr = deepcopy_recursive(heap, memo, src[i], depth - 1);
        proof {
            lemma_frame_trans(h0, hb, heap@, m0, mb, memo.entries());
            assert forall|k: int| 0 <= k < j0.len() implies 0 <= #[trigger] j0[k] < src@.len() && elem_ok(
                h0,
                memo.entries(),
                src@[j0[k]],
                o0[k],
            ) by {
                assert(elem_ok(h0, mb, src@[j0[k]], o0[k]));
            }
        }
        match cr {
            Ok(z) => {
                proof {
                    lemma_clone_elem(h0, hb, heap@, mb, memo.entries(), src@[i as int], (depth - 1) as u64, cr);
                }
                out.push(z);
                proof {
                    js = js.push(i as int);
                    assert forall|k: int| 0 <= k < js.len() implies 0 <= #[trigger] js[k] < src@.len() && elem_ok(
                        h0,
                        memo.entries(),
                        src@[js[k]],
                        out@[k],
                    ) by {
                        if k < j0.len() {
                            assert(js[k] == j0[k] && out@[k] == o0[k]);
                        }
                    }
                    assert forall|k: int, l: int| 0 <= k < l < js.len() implies js[k] < js[l] by {
                        if l < j0.len() {
                            assert(j0[k] < j0[l]);
                        } else {
                            assert(j0[k] < i);
                        }
                    }
                    assert forall|j: int|
                        0 <= j < i + 1 && is_atomic(h0[src@[j] as int]) implies #[trigger] js.contains(j) by {
                        if j < i {
                            assert(j0.contains(j));
                            let k = choose|k: int| 0 <= k < j0.len() && j0[k] == j;
                            assert(js[k] == j);
                        } else {
                            assert(js[j0.len() as int] == j);
                        }
                    }
                    assert forall|k: int| 0 <= k < js.len() implies #[trigger] js[k] < i + 1 by {
                        if k < j0.len() {
                            assert(j0[k] < i);
                        }
                    }
                }
            },
            Err(_) => {
                proof {
                    assert(hb[src@[i as int] as int] == h0[src@[i as int] as int]);
                    assert(!is_atomic(h0[src@[i as int] as int]));
                }
            },
        }
        i = i + 1;
    }
    let ghost m1 = memo.entries();
    proof {
        assert(picks(h0, m1, src@, out@, js) && covers_atomic(h0, src@, js, src@.len() as int));
    }
    let ghost hf = heap@;
    proof {
        assert(hf[obj as int] == h0[obj as int]);
        assert(object_ok(hf[obj as int], hf.len()));
    }
    let o = heap.take(obj);
    match o {
        Object::Instance(mut inst) => {
            let ghost i0 = inst;
            let mut k: usize = 0;
            while k < out.len()
                invariant
                    inst.class == i0.class,
                    inst.args == i0.args,
                    inst.dict == i0.dict,
                    inst.restored == i0.restored,
                    inst.fields == i0.fields,
                    inst.entries == i0.entries,
                    k <= out@.len(),
                    ids_below(out@, hf.len()),
                    ids_below(inst.items@, hf.len()),
                    inst.items@ == i0.items@ + out@.subrange(0, k as int),
                decreases out@.len() - k,
            {
                inst.items.push(out[k]);
                proof {
                    assert(out@.subrange(0, k + 1) =~= out@.subrange(0, k as int).push(out@[k as int]));
                }
                k = k + 1;
            }
            proof {
                assert(out@.subrange(0, out@.len() as int) =~= out@);
                let after = inst.items@;
                assert(after.subrange(0, i0.items@.len() as int) =~= i0.items@);
                assert(after.subrange(i0.items@.len() as int, after.len() as int) =~= out@);
            }
            heap.replace(obj, Object::Instance(inst));
        },
        other => {
            heap.replace(obj, other);
        },
    }
}

/// Clones each (key, value) pair among the items of the sequence-like `it`
/// and assigns it in instance `obj`; other items, and pairs whose clone
/// fails, are skipped.
pub fn populate_dict_items<M: Memo>(heap: &mut Heap, memo: &mut M, obj: u64, it: u64, depth: u64)
    requires
        old(heap).wf(),
        old(memo).inv(),
        obj < old(heap)@.len(),
        it < old(heap)@.len(),
        old(heap)@[obj as int] is Instance,
        memo_ok(old(memo).entries(), old(heap)@.len()),
        depth > 0,
    ensures
        final(heap).wf(),
        final(memo).inv(),
        memo_extends(old(memo).entries(), final(memo).entries()),
        memo_ok(final(memo).entries(), final(heap)@.len()),
        full_kept(*old(memo), *final(memo)),
        same_except(old(heap)@, final(heap)@, obj as int, obj as int),
        header_same(old(heap)@[obj as int], final(heap)@[obj as int]),
        ({
            let before = old(heap)@[obj as int]->Instance_0;
            let after = final(heap)@[obj as int]->Instance_0;
            &&& after.fields@ == before.fields@
            &&& after.items@ == before.items@
            &&& exists|out: Seq<(u64, u64)>|
                #[trigger] pairs_picked_ok(old(heap)@, final(memo).entries(), items_of(old(heap)@[it as int]), out)
                    && after.entries@ == dict_set_all(before.entries@, out)
        }),
    decreases depth, 0u64,
{
    let ghost h0 = heap@;
    let ghost m0 = memo.entries();
    let src = iterable_items(heap, it);
    let mut out: Vec<(u64, u64)> = Vec::new();
    let ghost mut js: Seq<int> = Seq::empty();
    let mut i: usize = 0;
    while i < src.len()
        invariant
            heap.wf(),
            memo.inv(),
            frame(h0, heap@, m0, memo.entries()),
            h0 == old(heap)@,
            m0 == old(memo).entries(),
            full_kept(*old(memo), *memo),
            ids_below(src@, h0.len()),
            pairs_below(out@, heap@.len()),
            obj < h0.len(),
            depth > 0,
            i <= src@.len(),
            heap_ok(h0),
            src@ == items_of(h0[it as int]),
            pair_picks(h0, memo.entries(), src@, out@, js),
            forall|k: int| 0 <= k < js.len() ==> #[trigger] js[k] < i,
            covers_atomic_pairs(h0, src@, js, i as int),
        decreases src@.len() - i,
    {
        let ghost hs = heap@;
        let ghost ms = memo.entries();
        let ghost o0 = out@;
        let ghost j0 = js;
        proof {
            assert(hs[src@[i as int] as int] == h0[src@[i as int] as int]);
            assert(object_ok(h0[src@[i as int] as int], h0.len()));
        }
        let ghost ap = pair_in(h0, src@[i as int]) is Some && is_atomic(
            h0[pair_in(h0, src@[i as int])->Some_0.0 as int],
        ) && is_atomic(h0[pair_in(h0, src@[i as int])->Some_0.1 as int]);
        match pair_of(heap, src[i]) {
            Some((k, v)) => {
                let ghost hb = heap@;
                let ghost mb = memo.entries();
                let kr = deepcopy_recursive(heap, memo, k, depth - 1);
                proof {
                    lemma_frame_trans(h0, hb, heap@, m0, mb, memo.entries());
                    assert(hb[k as int] == h0[k as int]);
                    assert(ap ==> kr is Ok);
                }
                if let Ok(nk) = kr {
                    let ghost hk = heap@;
                    let ghost mk = memo.entries();
                    let vr = deepcopy_recursive(heap, memo, v, depth - 1);
                    proof {
                        lemma_frame_trans(h0, hk, heap@, m0, mk, memo.entries());
                        assert(hk[v as int] == h0[v as int]);
                        assert(ap ==> vr is Ok);
                    }
                    if let Ok(nv) = vr {
                        proof {
                            lemma_clone_elem(h0, hb, hk, mb, mk, k, (depth - 1) as u64, kr);
                            lemma_clone_elem(h0, hk, heap@, mk, memo.entries(), v, (depth - 1) as u64, vr);
                            assert(elem_ok(h0, memo.entries(), k, nk));
                        }
                        out.push((nk, nv));
                        proof {
                            assert forall|j: int| 0 <= j < out@.len() implies #[trigger] out@[j].0 < heap@.len()
                                && out@[j].1 < heap@.len() by {
                                if j < o0.len() {
                                    assert(o0[j].0 < hb.len() && o0[j].1 < hb.len());
                                }
                            }
                            js = js.push(i as int);
                            assert forall|q: int| 0 <= q < js.len() implies 0 <= #[trigger] js[q] < src@.len()
                                && pair_in(h0, src@[js[q]]) is Some && pair_ok(
                                h0,
                                memo.entries(),
                                pair_in(h0, src@[js[q]])->Some_0,
                                out@[q],
                            ) by {
                                if q < j0.len() {
                                    assert(js[q] == j0[q] && out@[q] == o0[q]);
                                    assert(pair_ok(h0, ms, pair_in(h0, src@[j0[q]])->Some_0, o0[q]));
                                }
                            }
                            assert forall|q: int, l: int| 0 <= q < l < js.len() implies js[q] < js[l] by {
                                if l < j0.len() {
                                    assert(j0[q] < j0[l]);
                                } else {
                                    assert(j0[q] < i);
                                }
                            }
                            assert forall|q: int| 0 <= q < js.len() implies #[trigger] js[q] < i + 1 by {
                                if q < j0.len() {
                                    assert(j0[q] < i);
                                }
                            }
                        }
                    }
                }
            },
            None => {},
        }
        proof {
            if out@ == o0 {
                assert(js == j0);
                assert(!ap);
                lemma_pair_picks_mono(h0, ms, memo.entries(), src@, out@, js);
            } else {
                assert(js == j0.push(i as int));
            }
            assert forall|j: int|
                0 <= j < i + 1 && pair_in(h0, src@[j]) is Some && is_atomic(h0[pair_in(h0, src@[j])->Some_0.0 as int])
                    && is_atomic(h0[pair_in(h0, src@[j])->Some_0.1 as int]) implies #[trigger] js.contains(j) by {
                if j < i {
                    assert(j0.contains(j));
                    let q = choose|q: int| 0 <= q < j0.len() && j0[q] == j;
                    assert(js[q] == j);
                } else {
                    assert(out@ != o0);
                    assert(js[j0.len() as int] == j);
                }
            }
        }
        i = i + 1;
    }
    let ghost hf = heap@;
    proof {
        assert(hf[obj as int] == h0[obj as int]);
        assert(object_ok(hf[obj as int], hf.len()));
    }
    let o = heap.take(obj);
    match o {
        Object::Instance(mut inst) => {
            let ghost i0 = inst;
            pairs_set_all(&mut inst.entries, &out, Ghost(hf.len()));
            assert(inst.class == i0.class && inst.fields == i0.fields && inst.items == i0.items);
            assert(object_ok(Object::Instance(i0), hf.len()));
            proof {
                assert(pair_picks(h0, memo.entries(), src@, out@, js) && covers_atomic_pairs(
                    h0,
                    src@,
                    js,
                    src@.len() as int,
                ));
                assert(pairs_picked_ok(h0, memo.entries(), src@, out@));
            }
            heap.replace(obj, Object::Instance(inst));
        },
        other => {
            heap.replace(obj, other);
        },
    }
}

} // verus!
