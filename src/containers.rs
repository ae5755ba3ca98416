//! Cloners for the built-in aggregate kinds. Each registers its clone before it
//! recurses into children, except the fixed sequence, whose size must be known
//! first.

use vstd::prelude::*;
use crate::dispatch::{lemma_keys_grow, clean, ok_or_exhausted, exhausted, full_kept, lemma_clean_children, lemma_clean_extends, elems_ok_except, lemma_frame_trans, pair_ok, bytearray_ok, deepcopy_recursive, dict_ok, elem_ok, elems_ok, frame, frozenset_ok, lemma_clone_elem, list_ok, memo_ok, pairs_ok, set_ok, tuple_ok};
use crate::error::CopyError;
use crate::graph::{heap_ok, Heap, Object, copy_bytes, copy_ids, copy_pairs, dict_set, dict_set_all, elems_add, elems_unique, ids_below, is_atomic, keys_unique, object_ok, pairs_below, pairs_set, set_add, set_add_all};
use crate::hash::spec_hash_pointer;
use crate::memo_trait::Memo;

verus! {

proof fn lemma_dict_set_below(es: Seq<(u64, u64)>, k: u64, v: u64, n: nat)
    requires
        pairs_below(es, n),
        k < n,
        v < n,
    ensures
        pairs_below(dict_set(es, k, v), n),
{
}

proof fn lemma_set_add_below(es: Seq<u64>, x: u64, n: nat)
    requires
        ids_below(es, n),
        x < n,
    ensures
        ids_below(set_add(es, x), n),
{
}

/// Clones an ordered mapping: registers an empty clone, then clones each key
/// and value in source order and assigns them.
pub fn deepcopy_dict<M: Memo>(heap: &mut Heap, memo: &mut M, x: u64, hash: u64, depth: u64) -> (r: Result<
    u64,
    CopyError,
>)
    requires
        old(heap).wf(),
        old(memo).inv(),
        x < old(heap)@.len(),
        old(heap)@[x as int] is Dict,
        memo_ok(old(memo).entries(), old(heap)@.len()),
        !old(memo).entries().contains_key(x),
        hash == spec_hash_pointer(x),
        depth > 0,
    ensures
        final(memo).inv(),
        frame(old(heap)@, final(heap)@, old(memo).entries(), final(memo).entries()),
        full_kept(*old(memo), *final(memo)),
        r is Ok ==> r->Ok_0 < final(heap)@.len(),
        r is Ok ==> dict_ok(
            old(heap)@,
            final(heap)@,
            final(memo).entries(),
            x,
            old(heap)@[x as int]->Dict_0@,
            r->Ok_0,
        ),
        clean(old(heap)@, old(memo).entries().dom(), x, depth as nat) ==> ok_or_exhausted(r, final(heap)@, *final(memo)),
    decreases depth, 0u64,
{
    let ghost h0 = heap@;
    let ghost m0 = memo.entries();
    let src: Vec<(u64, u64)> = match heap.get(x) {
        Object::Dict(es) => copy_pairs(es),
        _ => Vec::new(),
    };
    proof {
        assert(object_ok(h0[x as int], h0.len()));
    }
    let r = match heap.add(Object::Dict(Vec::new())) {
        Ok(r) => r,
        Err(e) => {
            return Err(e);
        },
    };
    match memo.insert(x, r, hash) {
        Ok(()) => {},
        Err(e) => {
            return Err(e);
        },
    }
    let mut es: Vec<(u64, u64)> = Vec::new();
    let ghost mut ps: Seq<(u64, u64)> = Seq::empty();
    let mut i: usize = 0;
    while i < src.len()
        invariant
            heap.wf(),
            memo.inv(),
            frame(h0, heap@, m0, memo.entries()),
            full_kept(*old(memo), *memo),
            heap_ok(h0),
            !m0.contains_key(x),
            x < h0.len(),
            !is_atomic(h0[x as int]),
            h0[x as int] is Dict,
            h0 == old(heap)@,
            m0 == old(memo).entries(),
            memo.entries().contains_key(x) && memo.entries()[x] == r,
            r == h0.len(),
            r < heap@.len(),
            src@ == h0[x as int]->Dict_0@,
            pairs_below(src@, h0.len()),
            depth > 0,
            i <= src@.len(),
            ps.len() == i,
            forall|j: int| 0 <= j < i ==> #[trigger] pair_ok(h0, memo.entries(), src@[j], ps[j]),
            es@ == dict_set_all(Seq::empty(), ps),
            keys_unique(es@),
            pairs_below(es@, heap@.len()),
        decreases src@.len() - i,
    {
        let (k, v) = src[i];
        let ghost hb = heap@;
        let ghost mb = memo.entries();
        let kr = deepcopy_recursive(heap, memo, k, depth - 1);
        proof {
            lemma_frame_trans(h0, hb, heap@, m0, mb, memo.entries());
                if clean(h0, m0.dom(), x, depth as nat) {
                    lemma_clean_children(h0, m0.dom(), x, depth as nat);
                    lemma_keys_grow(m0, mb);
                    assert(src@[i as int] == h0[x as int]->Dict_0@[i as int]);
                    assert(m0.dom().insert(x).subset_of(mb.dom()));
                    lemma_clean_extends(h0, hb, m0.dom().insert(x), mb.dom(), k, (depth - 1) as nat);
                }
        }
        let nk = match kr {
            Ok(nk) => nk,
            Err(e) => {
                return Err(e);
            },
        };
        proof {
            lemma_clone_elem(h0, hb, heap@, mb, memo.entries(), k, (depth - 1) as u64, kr);
        }
        let ghost hk = heap@;
        let ghost mk = memo.entries();
        let vr = deepcopy_recursive(heap, memo, v, depth - 1);
        proof {
            lemma_frame_trans(h0, hk, heap@, m0, mk, memo.entries());
                if clean(h0, m0.dom(), x, depth as nat) {
                    lemma_clean_children(h0, m0.dom(), x, depth as nat);
                    lemma_keys_grow(m0, mk);
                    assert(src@[i as int] == h0[x as int]->Dict_0@[i as int]);
                    assert(m0.dom().insert(x).subset_of(mk.dom()));
                    lemma_clean_extends(h0, hk, m0.dom().insert(x), mk.dom(), v, (depth - 1) as nat);
                }
        }
        let nv = match vr {
            Ok(nv) => nv,
            Err(e) => {
                return Err(e);
            },
        };
        proof {
            lemma_clone_elem(h0, hk, heap@, mk, memo.entries(), v, (depth - 1) as u64, vr);
            lemma_dict_set_below(es@, nk, nv, heap@.len());
        }
        pairs_set(&mut es, nk, nv);
        proof {
            let ps0 = ps;
            ps = ps.push((nk, nv));
            assert(ps.drop_last() =~= ps0);
            assert forall|j: int| 0 <= j < i + 1 implies #[trigger] pair_ok(
                h0,
                memo.entries(),
                src@[j],
                ps[j],
            ) by {
                if j < i {
                    assert(pair_ok(h0, mb, src@[j], ps0[j]));
                }
            }
        }
        i = i + 1;
    }
    proof {
        assert(pairs_ok(h0, memo.entries(), src@, ps));
    }
    heap.replace(r, Object::Dict(es));
    Ok(r)
}

/// Clones a growable sequence: registers an empty clone, then clones the
/// elements index by index.
pub fn deepcopy_list<M: Memo>(heap: &mut Heap, memo: &mut M, x: u64, hash: u64, depth: u64) -> (r: Result<
    u64,
    CopyError,
>)
    requires
        old(heap).wf(),
        old(memo).inv(),
        x < old(heap)@.len(),
        old(heap)@[x as int] is List,
        memo_ok(old(memo).entries(), old(heap)@.len()),
        !old(memo).entries().contains_key(x),
        hash == spec_hash_pointer(x),
        depth > 0,
    ensures
        final(memo).inv(),
        frame(old(heap)@, final(heap)@, old(memo).entries(), final(memo).entries()),
        full_kept(*old(memo), *final(memo)),
        r is Ok ==> r->Ok_0 < final(heap)@.len(),
        r is Ok ==> list_ok(
            old(heap)@,
            final(heap)@,
            final(memo).entries(),
            x,
            old(heap)@[x as int]->List_0@,
            r->Ok_0,
        ),
        clean(old(heap)@, old(memo).entries().dom(), x, depth as nat) ==> ok_or_exhausted(r, final(heap)@, *final(memo)),
    decreases depth, 0u64,
{
    let ghost h0 = heap@;
    let ghost m0 = memo.entries();
    let src: Vec<u64> = match heap.get(x) {
        Object::List(es) => copy_ids(es),
        _ => Vec::new(),
    };
    proof {
        assert(object_ok(h0[x as int], h0.len()));
    }
    let r = match heap.add(Object::List(Vec::new())) {
        Ok(r) => r,
        Err(e) => {
            return Err(e);
        },
    };
    match memo.insert(x, r, hash) {
        Ok(()) => {},
        Err(e) => {
            return Err(e);
        },
    }
    match memo.keepalive(x) {
        Ok(()) => {},
        Err(e) => {
            return Err(e);
        },
    }
    let mut dst: Vec<u64> = Vec::with_capacity(src.len());
    let mut i: usize = 0;
    while i < src.len()
        invariant
            heap.wf(),
            memo.inv(),
            frame(h0, heap@, m0, memo.entries()),
            full_kept(*old(memo), *memo),
            heap_ok(h0),
            !m0.contains_key(x),
            x < h0.len(),
            !is_atomic(h0[x as int]),
            h0[x as int] is List,
            h0 == old(heap)@,
            m0 == old(memo).entries(),
            memo.entries().contains_key(x) && memo.entries()[x] == r,
            r == h0.len(),
            r < heap@.len(),
            src@ == h0[x as int]->List_0@,
            ids_below(src@, h0.len()),
            depth > 0,
            i <= src@.len(),
            dst@.len() == i,
            forall|j: int| 0 <= j < i ==> #[trigger] elem_ok(h0, memo.entries(), src@[j], dst@[j]),
            ids_below(dst@, heap@.len()),
        decreases src@.len() - i,
    {
        let ghost hb = heap@;
        let ghost mb = memo.entries();
        let cr = deepcopy_recursive(heap, memo, src[i], depth - 1);
        proof {
            lemma_frame_trans(h0, hb, heap@, m0, mb, memo.entries());
                if clean(h0, m0.dom(), x, depth as nat) {
                    lemma_clean_children(h0, m0.dom(), x, depth as nat);
                    lemma_keys_grow(m0, mb);
                    assert(src@[i as int] == h0[x as int]->List_0@[i as int]);
                    assert(m0.dom().insert(x).subset_of(mb.dom()));
                    lemma_clean_extends(h0, hb, m0.dom().insert(x), mb.dom(), src@[i as int], (depth - 1) as nat);
                }
        }
        let z = match cr {
            Ok(z) => z,
            Err(e) => {
                return Err(e);
            },
        };
        proof {
            lemma_clone_elem(h0, hb, heap@, mb, memo.entries(), src@[i as int], (depth - 1) as u64, cr);
        }
        let ghost d0 = dst@;
        dst.push(z);
        proof {
            assert forall|j: int| 0 <= j < i + 1 implies #[trigger] elem_ok(
                h0,
                memo.entries(),
                src@[j],
                dst@[j],
            ) by {
                if j < i {
                    assert(elem_ok(h0, mb, src@[j], d0[j]));
                }
            }
        }
        i = i + 1;
    }
    heap.replace(r, Object::List(dst));
    Ok(r)
}

/// Clones a fixed sequence. When every element clones to itself the original
/// is returned unregistered; otherwise a clone registered during the walk (a
/// cycle through the sequence) wins over the one just built.
pub fn deepcopy_tuple<M: Memo>(heap: &mut Heap, memo: &mut M, x: u64, hash: u64, depth: u64) -> (r: Result<
    u64,
    CopyError,
>)
    requires
        old(heap).wf(),
        old(memo).inv(),
        x < old(heap)@.len(),
        old(heap)@[x as int] is Tuple,
        memo_ok(old(memo).entries(), old(heap)@.len()),
        !old(memo).entries().contains_key(x),
        hash == spec_hash_pointer(x),
        depth > 0,
    ensures
        final(memo).inv(),
        frame(old(heap)@, final(heap)@, old(memo).entries(), final(memo).entries()),
        full_kept(*old(memo), *final(memo)),
        r is Ok ==> r->Ok_0 < final(heap)@.len(),
        tuple_ok(
            old(heap)@,
            final(heap)@,
            old(memo).entries(),
            final(memo).entries(),
            x,
            old(heap)@[x as int]->Tuple_0@,
            r,
        ),
        clean(old(heap)@, old(memo).entries().dom(), x, depth as nat) ==> ok_or_exhausted(r, final(heap)@, *final(memo)),
    decreases depth, 0u64,
{
    let ghost h0 = heap@;
    let ghost m0 = memo.entries();
    let src: Vec<u64> = match heap.get(x) {
        Object::Tuple(es) => copy_ids(es),
        _ => Vec::new(),
    };
    proof {
        assert(object_ok(h0[x as int], h0.len()));
    }
    let mut dst: Vec<u64> = Vec::with_capacity(src.len());
    let mut all_identical = true;
    let mut i: usize = 0;
    while i < src.len()
        invariant
            heap.wf(),
            memo.inv(),
            frame(h0, heap@, m0, memo.entries()),
            full_kept(*old(memo), *memo),
            heap_ok(h0),
            x < h0.len(),
            !is_atomic(h0[x as int]),
            h0[x as int] is Tuple,
            h0 == old(heap)@,
            m0 == old(memo).entries(),
            !m0.contains_key(x),
            src@ == h0[x as int]->Tuple_0@,
            ids_below(src@, h0.len()),
            depth > 0,
            i <= src@.len(),
            dst@.len() == i,
            ids_below(dst@, heap@.len()),
            all_identical == (forall|j: int| 0 <= j < i ==> #[trigger] dst@[j] == src@[j]),
            forall|j: int| 0 <= j < i ==> #[trigger] elem_ok(h0, memo.entries(), src@[j], dst@[j]),
            (forall|j: int| 0 <= j < i ==> #[trigger] is_atomic(h0[src@[j] as int])) ==> heap@ == h0
                && memo.entries() == m0 && all_identical,
        decreases src@.len() - i,
    {
        let ghost hb = heap@;
        let ghost mb = memo.entries();
        let cr = deepcopy_recursive(heap, memo, src[i], depth - 1);
        proof {
            lemma_frame_trans(h0, hb, heap@, m0, mb, memo.entries());
                if clean(h0, m0.dom(), x, depth as nat) {
                    lemma_clean_children(h0, m0.dom(), x, depth as nat);
                    lemma_keys_grow(m0, mb);
                    assert(src@[i as int] == h0[x as int]->Tuple_0@[i as int]);
                    lemma_clean_extends(h0, hb, m0.dom(), mb.dom(), src@[i as int], (depth - 1) as nat);
                }
        }
        let z = match cr {
            Ok(z) => z,
            Err(e) => {
                proof {
                    assert(hb[src@[i as int] as int] == h0[src@[i as int] as int]);
                    assert(!is_atomic(h0[src@[i as int] as int]));
                }
                return Err(e);
            },
        };
        proof {
            assert(hb[src@[i as int] as int] == h0[src@[i as int] as int]);
            lemma_clone_elem(h0, hb, heap@, mb, memo.entries(), src@[i as int], (depth - 1) as u64, cr);
        }
        if z != src[i] {
            all_identical = false;
        }
        proof {
            if z != src@[i as int] {
                assert(dst@.push(z)[i as int] != src@[i as int]);
            }
        }
        let ghost d0 = dst@;
        dst.push(z);
        proof {
            assert forall|j: int| 0 <= j < i + 1 implies #[trigger] elem_ok(
                h0,
                memo.entries(),
                src@[j],
                dst@[j],
            ) by {
                if j < i {
                    assert(elem_ok(h0, mb, src@[j], d0[j]));
                }
            }
            if all_identical {
                assert forall|j: int| 0 <= j < i + 1 implies #[trigger] dst@[j] == src@[j] by {
                    if j < i {
                        assert(d0[j] == src@[j]);
                    }
                }
            } else if z == src@[i as int] {
                let j = choose|j: int| 0 <= j < i && #[trigger] d0[j] != src@[j];
                assert(dst@[j] != src@[j]);
            }
            if forall|j: int| 0 <= j < i + 1 ==> #[trigger] is_atomic(h0[src@[j] as int]) {
                assert forall|j: int| 0 <= j < i implies #[trigger] is_atomic(h0[src@[j] as int]) by {
                    assert(is_atomic(h0[src@[j] as int]));
                }
                assert(is_atomic(h0[src@[i as int] as int]));
            }
        }
        i = i + 1;
    }
    if all_identical {
        proof {
            assert forall|j: int| 0 <= j < src@.len() implies #[trigger] elem_ok(
                h0,
                memo.entries(),
                src@[j],
                src@[j],
            ) by {
                assert(elem_ok(h0, memo.entries(), src@[j], dst@[j]));
            }
        }
        return Ok(x);
    }
    match memo.lookup(x, hash) {
        Some(found) => {
            return Ok(found);
        },
        None => {},
    }
    let r = match heap.add(Object::Tuple(dst)) {
        Ok(r) => r,
        Err(e) => {
            return Err(e);
        },
    };
    match memo.insert(x, r, hash) {
        Ok(()) => {},
        Err(e) => {
            return Err(e);
        },
    }
    Ok(r)
}

/// Clones a set from a snapshot of its elements: registers an empty clone,
/// then adds the clone of each snapshotted element.
pub fn deepcopy_set<M: Memo>(heap: &mut Heap, memo: &mut M, x: u64, hash: u64, depth: u64) -> (r: Result<
    u64,
    CopyError,
>)
    requires
        old(heap).wf(),
        old(memo).inv(),
        x < old(heap)@.len(),
        old(heap)@[x as int] is MutableSet,
        memo_ok(old(memo).entries(), old(heap)@.len()),
        !old(memo).entries().contains_key(x),
        hash == spec_hash_pointer(x),
        depth > 0,
    ensures
        final(memo).inv(),
        frame(old(heap)@, final(heap)@, old(memo).entries(), final(memo).entries()),
        full_kept(*old(memo), *final(memo)),
        r is Ok ==> r->Ok_0 < final(heap)@.len(),
        r is Ok ==> set_ok(
            old(heap)@,
            final(heap)@,
            final(memo).entries(),
            x,
            old(heap)@[x as int]->MutableSet_0@,
            r->Ok_0,
        ),
        clean(old(heap)@, old(memo).entries().dom(), x, depth as nat) ==> ok_or_exhausted(r, final(heap)@, *final(memo)),
    decreases depth, 0u64,
{
    let ghost h0 = heap@;
    let ghost m0 = memo.entries();
    let snapshot: Vec<u64> = match heap.get(x) {
        Object::MutableSet(es) => copy_ids(es),
        _ => Vec::new(),
    };
    proof {
        assert(object_ok(h0[x as int], h0.len()));
    }
    let r = match heap.add(Object::MutableSet(Vec::new())) {
        Ok(r) => r,
        Err(e) => {
            return Err(e);
        },
    };
    match memo.insert(x, r, hash) {
        Ok(()) => {},
        Err(e) => {
            return Err(e);
        },
    }
    let mut es: Vec<u64> = Vec::new();
    let ghost mut xs: Seq<u64> = Seq::empty();
    let mut i: usize = 0;
    while i < snapshot.len()
        invariant
            heap.wf(),
            memo.inv(),
            frame(h0, heap@, m0, memo.entries()),
            full_kept(*old(memo), *memo),
            heap_ok(h0),
            !m0.contains_key(x),
            x < h0.len(),
            !is_atomic(h0[x as int]),
            h0[x as int] is MutableSet,
            h0 == old(heap)@,
            m0 == old(memo).entries(),
            memo.entries().contains_key(x) && memo.entries()[x] == r,
            r == h0.len(),
            r < heap@.len(),
            snapshot@ == h0[x as int]->MutableSet_0@,
            ids_below(snapshot@, h0.len()),
            depth > 0,
            i <= snapshot@.len(),
            xs.len() == i,
            forall|j: int| 0 <= j < i ==> #[trigger] elem_ok(h0, memo.entries(), snapshot@[j], xs[j]),
            es@ == set_add_all(Seq::empty(), xs),
            elems_unique(es@),
            ids_below(es@, heap@.len()),
        decreases snapshot@.len() - i,
    {
        let ghost hb = heap@;
        let ghost mb = memo.entries();
        let cr = deepcopy_recursive(heap, memo, snapshot[i], depth - 1);
        proof {
            lemma_frame_trans(h0, hb, heap@, m0, mb, memo.entries());
                if clean(h0, m0.dom(), x, depth as nat) {
                    lemma_clean_children(h0, m0.dom(), x, depth as nat);
                    lemma_keys_grow(m0, mb);
                    assert(snapshot@[i as int] == h0[x as int]->MutableSet_0@[i as int]);
                    assert(m0.dom().insert(x).subset_of(mb.dom()));
                    lemma_clean_extends(h0, hb, m0.dom().insert(x), mb.dom(), snapshot@[i as int], (depth - 1) as nat);
                }
        }
        let z = match cr {
            Ok(z) => z,
            Err(e) => {
                return Err(e);
            },
        };
        proof {
            lemma_clone_elem(h0, hb, heap@, mb, memo.entries(), snapshot@[i as int], (depth - 1) as u64, cr);
            lemma_set_add_below(es@, z, heap@.len());
        }
        elems_add(&mut es, z);
        proof {
            let xs0 = xs;
            xs = xs.push(z);
            assert(xs.drop_last() =~= xs0);
            assert forall|j: int| 0 <= j < i + 1 implies #[trigger] elem_ok(
                h0,
                memo.entries(),
                snapshot@[j],
                xs[j],
            ) by {
                if j < i {
                    assert(elem_ok(h0, mb, snapshot@[j], xs0[j]));
                }
            }
        }
        i = i + 1;
    }
    proof {
        assert(elems_ok(h0, memo.entries(), snapshot@, xs));
    }
    heap.replace(r, Object::MutableSet(es));
    Ok(r)
}

/// Clones an immutable set: clones the snapshotted elements into a staging
/// list, builds the set from it, then registers the result.
pub fn deepcopy_frozenset<M: Memo>(heap: &mut Heap, memo: &mut M, x: u64, hash: u64, depth: u64) -> (r: Result<
    u64,
    CopyError,
>)
    requires
        old(heap).wf(),
        old(memo).inv(),
        x < old(heap)@.len(),
        old(heap)@[x as int] is FrozenSet,
        memo_ok(old(memo).entries(), old(heap)@.len()),
        !old(memo).entries().contains_key(x),
        hash == spec_hash_pointer(x),
        depth > 0,
    ensures
        final(memo).inv(),
        frame(old(heap)@, final(heap)@, old(memo).entries(), final(memo).entries()),
        full_kept(*old(memo), *final(memo)),
        r is Ok ==> r->Ok_0 < final(heap)@.len(),
        r is Ok ==> frozenset_ok(
            old(heap)@,
            final(heap)@,
            final(memo).entries(),
            x,
            old(heap)@[x as int]->FrozenSet_0@,
            r->Ok_0,
        ),
        clean(old(heap)@, old(memo).entries().dom(), x, depth as nat) ==> ok_or_exhausted(r, final(heap)@, *final(memo)),
    decreases depth, 0u64,
{
    let ghost h0 = heap@;
    let ghost m0 = memo.entries();
    let snapshot: Vec<u64> = match heap.get(x) {
        Object::FrozenSet(es) => copy_ids(es),
        _ => Vec::new(),
    };
    proof {
        assert(object_ok(h0[x as int], h0.len()));
    }
    let mut staging: Vec<u64> = Vec::with_capacity(snapshot.len());
    let mut i: usize = 0;
    while i < snapshot.len()
        invariant
            heap.wf(),
            memo.inv(),
            frame(h0, heap@, m0, memo.entries()),
            full_kept(*old(memo), *memo),
            heap_ok(h0),
            x < h0.len(),
            !is_atomic(h0[x as int]),
            h0[x as int] is FrozenSet,
            h0 == old(heap)@,
            m0 == old(memo).entries(),
            !m0.contains_key(x),
            snapshot@ == h0[x as int]->FrozenSet_0@,
            ids_below(snapshot@, h0.len()),
            depth > 0,
            i <= snapshot@.len(),
            staging@.len() == i,
            forall|j: int| 0 <= j < i ==> #[trigger] elem_ok(h0, memo.entries(), snapshot@[j], staging@[j]),
            ids_below(staging@, heap@.len()),
        decreases snapshot@.len() - i,
    {
        let ghost hb = heap@;
        let ghost mb = memo.entries();
        let cr = deepcopy_recursive(heap, memo, snapshot[i], depth - 1);
        proof {
            lemma_frame_trans(h0, hb, heap@, m0, mb, memo.entries());
                if clean(h0, m0.dom(), x, depth as nat) {
                    lemma_clean_children(h0, m0.dom(), x, depth as nat);
                    lemma_keys_grow(m0, mb);
                    assert(snapshot@[i as int] == h0[x as int]->FrozenSet_0@[i as int]);
                    lemma_clean_extends(h0, hb, m0.dom(), mb.dom(), snapshot@[i as int], (depth - 1) as nat);
                }
        }
        let z = match cr {
            Ok(z) => z,
            Err(e) => {
                return Err(e);
            },
        };
        proof {
            lemma_clone_elem(h0, hb, heap@, mb, memo.entries(), snapshot@[i as int], (depth - 1) as u64, cr);
        }
        let ghost s0 = staging@;
        staging.push(z);
        proof {
            assert forall|j: int| 0 <= j < i + 1 implies #[trigger] elem_ok(
                h0,
                memo.entries(),
                snapshot@[j],
                staging@[j],
            ) by {
                if j < i {
                    assert(elem_ok(h0, mb, snapshot@[j], s0[j]));
                }
            }
        }
        i = i + 1;
    }
    let mut es: Vec<u64> = Vec::new();
    let mut k: usize = 0;
    let ghost hs = heap@;
    let ghost ms = memo.entries();
    while k < staging.len()
        invariant
            heap@ == hs,
            memo.entries() == ms,
            full_kept(*old(memo), *memo),
            h0 == old(heap)@,
            m0 == old(memo).entries(),
            heap.wf(),
            memo.inv(),
            frame(h0, heap@, m0, memo.entries()),
            staging@.len() == snapshot@.len(),
            forall|j: int| 0 <= j < snapshot@.len() ==> #[trigger] elem_ok(h0, memo.entries(), snapshot@[j], staging@[j]),
            k <= staging@.len(),
            es@ == set_add_all(Seq::empty(), staging@.subrange(0, k as int)),
            elems_unique(es@),
            ids_below(es@, heap@.len()),
            ids_below(staging@, heap@.len()),
        decreases staging@.len() - k,
    {
        proof {
            lemma_set_add_below(es@, staging@[k as int], heap@.len());
        }
        elems_add(&mut es, staging[k]);
        proof {
            assert(staging@.subrange(0, k + 1).drop_last() =~= staging@.subrange(0, k as int));
        }
        k = k + 1;
    }
    proof {
        assert(staging@.subrange(0, staging@.len() as int) =~= staging@);
    }
    let r = match heap.add(Object::FrozenSet(es)) {
        Ok(r) => r,
        Err(e) => {
            return Err(e);
        },
    };
    let ghost mi = memo.entries();
    match memo.insert(x, r, hash) {
        Ok(()) => {},
        Err(e) => {
            return Err(e);
        },
    }
    proof {
        assert forall|j: int| 0 <= j < snapshot@.len() && snapshot@[j] != x implies #[trigger] elem_ok(
            h0,
            memo.entries(),
            snapshot@[j],
            staging@[j],
        ) by {
            assert(elem_ok(h0, mi, snapshot@[j], staging@[j]));
        }
        assert(elems_ok_except(h0, memo.entries(), snapshot@, staging@, x));
    }
    Ok(r)
}

/// Clones a mutable byte buffer: the same bytes in a new, registered buffer.
pub fn deepcopy_bytearray<M: Memo>(heap: &mut Heap, memo: &mut M, x: u64, hash: u64) -> (r: Result<
    u64,
    CopyError,
>)
    requires
        old(heap).wf(),
        old(memo).inv(),
        x < old(heap)@.len(),
        old(heap)@[x as int] is ByteArray,
        memo_ok(old(memo).entries(), old(heap)@.len()),
        !old(memo).entries().contains_key(x),
        hash == spec_hash_pointer(x),
    ensures
        final(memo).inv(),
        frame(old(heap)@, final(heap)@, old(memo).entries(), final(memo).entries()),
        full_kept(*old(memo), *final(memo)),
        r is Ok ==> r->Ok_0 < final(heap)@.len(),
        r is Ok ==> bytearray_ok(
            old(heap)@,
            final(heap)@,
            final(memo).entries(),
            x,
            old(heap)@[x as int]->ByteArray_0@,
            r->Ok_0,
        ),
        ok_or_exhausted(r, final(heap)@, *final(memo)),
{
    let bytes: Vec<u8> = match heap.get(x) {
        Object::ByteArray(bs) => copy_bytes(bs),
        _ => Vec::new(),
    };
    let r = match heap.add(Object::ByteArray(bytes)) {
        Ok(r) => r,
        Err(e) => {
            return Err(e);
        },
    };
    match memo.insert(x, r, hash) {
        Ok(()) => {},
        Err(e) => {
            return Err(e);
        },
    }
    Ok(r)
}

} // verus!
