use std::collections::HashMap;

use copium::deepcopy_impl::{copy_impl, deepcopy_impl, deepcopy_impl_with_memo, replicate_impl, MAX_DEPTH};
use copium::error::CopyError;
use copium::graph::{CopyHook, Heap, Instance, Object, Reduction, TypeSpec};
use copium::memo::{RETAIN_MAX_SLOTS, RETAIN_SHRINK_TO};
use copium::reduce::set_object_state;
use copium::state::{get_thread_local_memo, return_thread_local_memo, MemoPool};
use copium::memo_trait::Memo;
use copium::user_memo::UserProvidedMemo;

fn add(heap: &mut Heap, o: Object) -> u64 {
    heap.add(o).unwrap()
}

fn list_items(heap: &Heap, id: u64) -> Vec<u64> {
    match heap.get(id) {
        Object::List(v) => v.clone(),
        _ => panic!("not a list"),
    }
}

fn tuple_items(heap: &Heap, id: u64) -> Vec<u64> {
    match heap.get(id) {
        Object::Tuple(v) => v.clone(),
        _ => panic!("not a tuple"),
    }
}

fn dict_pairs(heap: &Heap, id: u64) -> Vec<(u64, u64)> {
    match heap.get(id) {
        Object::Dict(v) => v.clone(),
        _ => panic!("not a dict"),
    }
}

fn instance(heap: &Heap, id: u64) -> Instance {
    match heap.get(id) {
        Object::Instance(i) => i.clone(),
        _ => panic!("not an instance"),
    }
}

fn type_spec(copy_hook: CopyHook, reduce_ex: Reduction, reduce: Reduction, restore_hook: bool, constructible: bool) -> Object {
    Object::Type(TypeSpec { copy_hook, reduce_ex, reduce, restore_hook, constructible })
}

fn plain_instance(class: u64, args: u64, dict: Option<u64>) -> Object {
    Object::Instance(Instance {
        class,
        args,
        dict,
        fields: Vec::new(),
        items: Vec::new(),
        entries: Vec::new(),
        restored: None,
    })
}

fn clone(heap: &mut Heap, x: u64) -> Result<u64, CopyError> {
    let mut pool = MemoPool::new();
    deepcopy_impl(heap, &mut pool, x)
}

#[test]
fn atomic_values_are_shared() {
    let mut heap = Heap::new();
    let none = add(&mut heap, Object::Nothing);
    let num = add(&mut heap, Object::Scalar(42));
    let ty = add(&mut heap, type_spec(CopyHook::Absent, Reduction::Missing, Reduction::Missing, false, true));
    let before = heap.len();
    for x in [none, num, ty] {
        assert_eq!(clone(&mut heap, x), Ok(x));
    }
    assert_eq!(heap.len(), before);
}

#[test]
fn list_clone_is_equal_and_independent() {
    let mut heap = Heap::new();
    let a = add(&mut heap, Object::Scalar(1));
    let b = add(&mut heap, Object::Scalar(2));
    let inner = add(&mut heap, Object::List(vec![a]));
    let x = add(&mut heap, Object::List(vec![a, b, inner]));
    let r = clone(&mut heap, x).unwrap();
    assert_ne!(r, x);
    let items = list_items(&heap, r);
    assert_eq!(items.len(), 3);
    assert_eq!(items[0], a);
    assert_eq!(items[1], b);
    assert_ne!(items[2], inner);
    assert_eq!(list_items(&heap, items[2]), vec![a]);
    heap.replace(r, Object::List(vec![b]));
    assert_eq!(list_items(&heap, x), vec![a, b, inner]);
}

#[test]
fn dict_clone_is_equal_and_independent() {
    let mut heap = Heap::new();
    let k1 = add(&mut heap, Object::Scalar(10));
    let k2 = add(&mut heap, Object::Scalar(11));
    let v = add(&mut heap, Object::List(vec![]));
    let x = add(&mut heap, Object::Dict(vec![(k1, v), (k2, k1)]));
    let r = clone(&mut heap, x).unwrap();
    assert_ne!(r, x);
    let pairs = dict_pairs(&heap, r);
    assert_eq!(pairs.len(), 2);
    assert_eq!(pairs[0].0, k1);
    assert_ne!(pairs[0].1, v);
    assert_eq!(pairs[1], (k2, k1));
    heap.replace(r, Object::Dict(vec![]));
    assert_eq!(dict_pairs(&heap, x), vec![(k1, v), (k2, k1)]);
}

#[test]
fn self_containing_list_clones_to_itself() {
    let mut heap = Heap::new();
    let x = add(&mut heap, Object::List(vec![]));
    heap.replace(x, Object::List(vec![x]));
    let r = clone(&mut heap, x).unwrap();
    assert_ne!(r, x);
    assert_eq!(list_items(&heap, r), vec![r]);
}

#[test]
fn shared_child_in_a_mapping_stays_shared() {
    let mut heap = Heap::new();
    let k1 = add(&mut heap, Object::Scalar(1));
    let k2 = add(&mut heap, Object::Scalar(2));
    let shared = add(&mut heap, Object::List(vec![k1]));
    let x = add(&mut heap, Object::Dict(vec![(k1, shared), (k2, shared)]));
    let r = clone(&mut heap, x).unwrap();
    let pairs = dict_pairs(&heap, r);
    assert_eq!(pairs[0].1, pairs[1].1);
    assert_ne!(pairs[0].1, shared);
}

#[test]
fn tuple_of_atomics_is_its_own_clone() {
    let mut heap = Heap::new();
    let a = add(&mut heap, Object::Scalar(1));
    let b = add(&mut heap, Object::Nothing);
    let x = add(&mut heap, Object::Tuple(vec![a, b]));
    let before = heap.len();
    assert_eq!(clone(&mut heap, x), Ok(x));
    assert_eq!(heap.len(), before);
    let nested = add(&mut heap, Object::Tuple(vec![x, a]));
    assert_eq!(clone(&mut heap, nested), Ok(nested));
}

#[test]
fn tuple_holding_a_list_is_copied() {
    let mut heap = Heap::new();
    let l = add(&mut heap, Object::List(vec![]));
    let x = add(&mut heap, Object::Tuple(vec![l]));
    let r = clone(&mut heap, x).unwrap();
    assert_ne!(r, x);
    let items = tuple_items(&heap, r);
    assert_eq!(items.len(), 1);
    assert_ne!(items[0], l);
}

#[test]
fn tuple_cycle_through_a_list_resolves_to_one_clone() {
    let mut heap = Heap::new();
    let l = add(&mut heap, Object::List(vec![]));
    let t = add(&mut heap, Object::Tuple(vec![l]));
    heap.replace(l, Object::List(vec![t]));
    let mut memo = UserProvidedMemo::new(HashMap::new());
    let r = deepcopy_impl_with_memo(&mut heap, &mut memo, t).unwrap();
    let l2 = tuple_items(&heap, r)[0];
    assert_eq!(list_items(&heap, l2), vec![r]);
    assert_eq!(memo.get(t), Some(r));
    assert_eq!(memo.get(l), Some(l2));
}

#[test]
fn sets_and_frozensets_are_copied() {
    let mut heap = Heap::new();
    let a = add(&mut heap, Object::Scalar(1));
    let b = add(&mut heap, Object::Scalar(2));
    let s = add(&mut heap, Object::MutableSet(vec![a, b]));
    let f = add(&mut heap, Object::FrozenSet(vec![b, a]));
    let rs = clone(&mut heap, s).unwrap();
    assert_ne!(rs, s);
    match heap.get(rs) {
        Object::MutableSet(v) => assert_eq!(v, &vec![a, b]),
        _ => panic!("not a set"),
    }
    let rf = clone(&mut heap, f).unwrap();
    assert_ne!(rf, f);
    match heap.get(rf) {
        Object::FrozenSet(v) => assert_eq!(v, &vec![b, a]),
        _ => panic!("not a frozen set"),
    }
}

#[test]
fn bytearray_is_copied_byte_for_byte() {
    let mut heap = Heap::new();
    let x = add(&mut heap, Object::ByteArray(vec![1, 2, 3]));
    let r = clone(&mut heap, x).unwrap();
    assert_ne!(r, x);
    match heap.get(r) {
        Object::ByteArray(v) => assert_eq!(v, &vec![1, 2, 3]),
        _ => panic!("not a byte array"),
    }
}

#[test]
fn six_element_decomposition_is_a_protocol_violation() {
    let mut heap = Heap::new();
    let none = add(&mut heap, Object::Nothing);
    let args = add(&mut heap, Object::Tuple(vec![]));
    let ty = add(&mut heap, Object::Nothing);
    let parts = vec![ty, args, none, none, none, none];
    heap.replace(ty, type_spec(CopyHook::Absent, Reduction::Tuple(parts), Reduction::Missing, false, true));
    let x = add(&mut heap, plain_instance(ty, args, None));
    let before = heap.len();
    assert_eq!(clone(&mut heap, x), Err(CopyError::ProtocolViolation));
    assert_eq!(heap.len(), before);
}

#[test]
fn five_element_decomposition_is_accepted() {
    let mut heap = Heap::new();
    let none = add(&mut heap, Object::Nothing);
    let args = add(&mut heap, Object::Tuple(vec![]));
    let ty = add(&mut heap, Object::Nothing);
    let parts = vec![ty, args, none, none, none];
    heap.replace(ty, type_spec(CopyHook::Absent, Reduction::Tuple(parts), Reduction::Missing, false, true));
    let x = add(&mut heap, plain_instance(ty, args, None));
    let r = clone(&mut heap, x).unwrap();
    assert_ne!(r, x);
    assert_eq!(instance(&heap, r).class, ty);
}

#[test]
fn short_decompositions_and_text_share_the_original() {
    let mut heap = Heap::new();
    let args = add(&mut heap, Object::Tuple(vec![]));
    let short = add(&mut heap, Object::Nothing);
    heap.replace(short, type_spec(CopyHook::Absent, Reduction::Tuple(vec![short]), Reduction::Missing, false, true));
    let text = add(&mut heap, type_spec(CopyHook::Absent, Reduction::Text, Reduction::Missing, false, true));
    let x = add(&mut heap, plain_instance(short, args, None));
    let y = add(&mut heap, plain_instance(text, args, None));
    assert_eq!(clone(&mut heap, x), Ok(x));
    assert_eq!(clone(&mut heap, y), Ok(y));
}

#[test]
fn missing_decomposition_falls_back_then_fails() {
    let mut heap = Heap::new();
    let args = add(&mut heap, Object::Tuple(vec![]));
    let none_at_all = add(&mut heap, type_spec(CopyHook::Absent, Reduction::Missing, Reduction::Missing, false, false));
    let basic_only = add(&mut heap, type_spec(CopyHook::Absent, Reduction::Missing, Reduction::Text, false, true));
    let raising = add(&mut heap, type_spec(CopyHook::Absent, Reduction::Raises, Reduction::Text, false, true));
    let x = add(&mut heap, plain_instance(none_at_all, args, None));
    let y = add(&mut heap, plain_instance(basic_only, args, None));
    let z = add(&mut heap, plain_instance(raising, args, None));
    assert_eq!(clone(&mut heap, x), Err(CopyError::Uncopyable));
    assert_eq!(clone(&mut heap, y), Ok(y));
    assert_eq!(clone(&mut heap, z), Err(CopyError::HookFailed));
}

#[test]
fn unconstructible_type_fails_reconstruction() {
    let mut heap = Heap::new();
    let args = add(&mut heap, Object::Tuple(vec![]));
    let ty = add(&mut heap, type_spec(CopyHook::Absent, Reduction::Standard, Reduction::Missing, false, false));
    let x = add(&mut heap, plain_instance(ty, args, None));
    assert_eq!(clone(&mut heap, x), Err(CopyError::ReconstructionFailure));
}

#[test]
fn standard_decomposition_copies_the_attribute_mapping() {
    let mut heap = Heap::new();
    let name = add(&mut heap, Object::Scalar(7));
    let val = add(&mut heap, Object::List(vec![]));
    let attrs = add(&mut heap, Object::Dict(vec![(name, val)]));
    let args = add(&mut heap, Object::Tuple(vec![]));
    let ty = add(&mut heap, type_spec(CopyHook::Absent, Reduction::Standard, Reduction::Missing, false, true));
    let x = add(&mut heap, plain_instance(ty, args, Some(attrs)));
    let r = clone(&mut heap, x).unwrap();
    let inst = instance(&heap, r);
    assert_eq!(inst.class, ty);
    assert_eq!(inst.args, args);
    let d = inst.dict.unwrap();
    assert_ne!(d, attrs);
    let pairs = dict_pairs(&heap, d);
    assert_eq!(pairs.len(), 1);
    assert_eq!(pairs[0].0, name);
    assert_ne!(pairs[0].1, val);
    // a clone of the clone works the same way
    let r2 = clone(&mut heap, r).unwrap();
    assert_eq!(instance(&heap, r2).class, ty);
}

#[test]
fn restore_hook_receives_the_cloned_state() {
    let mut heap = Heap::new();
    let state = add(&mut heap, Object::List(vec![]));
    let args = add(&mut heap, Object::Tuple(vec![]));
    let ty = add(&mut heap, Object::Nothing);
    heap.replace(ty, type_spec(CopyHook::Absent, Reduction::Tuple(vec![ty, args, state]), Reduction::Missing, true, true));
    let x = add(&mut heap, plain_instance(ty, args, None));
    let r = clone(&mut heap, x).unwrap();
    let restored = instance(&heap, r).restored.unwrap();
    assert_ne!(restored, state);
    assert_eq!(list_items(&heap, restored), Vec::<u64>::new());
}

#[test]
fn slot_pair_state_sets_fields_and_attributes() {
    let mut heap = Heap::new();
    let fname = add(&mut heap, Object::Scalar(1));
    let aname = add(&mut heap, Object::Scalar(2));
    let fval = add(&mut heap, Object::Scalar(3));
    let attrs = add(&mut heap, Object::Dict(vec![(aname, fval)]));
    let slots = add(&mut heap, Object::Dict(vec![(fname, fval)]));
    let state = add(&mut heap, Object::Tuple(vec![attrs, slots]));
    let args = add(&mut heap, Object::Tuple(vec![]));
    let ty = add(&mut heap, Object::Nothing);
    heap.replace(ty, type_spec(CopyHook::Absent, Reduction::Tuple(vec![ty, args, state]), Reduction::Missing, false, true));
    let x = add(&mut heap, plain_instance(ty, args, None));
    let r = clone(&mut heap, x).unwrap();
    let inst = instance(&heap, r);
    assert_eq!(inst.fields, vec![(fname, fval)]);
    assert_eq!(dict_pairs(&heap, inst.dict.unwrap()), vec![(aname, fval)]);
}

#[test]
fn sequence_and_mapping_items_are_inserted_one_by_one() {
    let mut heap = Heap::new();
    let none = add(&mut heap, Object::Nothing);
    let a = add(&mut heap, Object::Scalar(1));
    let l = add(&mut heap, Object::List(vec![]));
    let seq_items = add(&mut heap, Object::List(vec![a, l]));
    let pair = add(&mut heap, Object::Tuple(vec![a, l]));
    let map_items = add(&mut heap, Object::List(vec![pair, a]));
    let args = add(&mut heap, Object::Tuple(vec![]));
    let ty = add(&mut heap, Object::Nothing);
    heap.replace(
        ty,
        type_spec(CopyHook::Absent, Reduction::Tuple(vec![ty, args, none, seq_items, map_items]), Reduction::Missing, false, true),
    );
    let x = add(&mut heap, plain_instance(ty, args, None));
    let r = clone(&mut heap, x).unwrap();
    let inst = instance(&heap, r);
    assert_eq!(inst.items.len(), 2);
    assert_eq!(inst.items[0], a);
    assert_ne!(inst.items[1], l);
    assert_eq!(inst.entries.len(), 1);
    assert_eq!(inst.entries[0].0, a);
    assert_eq!(inst.entries[0].1, inst.items[1]);
}

#[test]
fn copy_hook_result_is_registered() {
    let mut heap = Heap::new();
    let args = add(&mut heap, Object::Tuple(vec![]));
    let target = add(&mut heap, Object::Scalar(99));
    let selfish = add(&mut heap, type_spec(CopyHook::ReturnsSelf, Reduction::Missing, Reduction::Missing, false, true));
    let fixed = add(&mut heap, type_spec(CopyHook::Returns(target), Reduction::Missing, Reduction::Missing, false, true));
    let raising = add(&mut heap, type_spec(CopyHook::Raises, Reduction::Standard, Reduction::Missing, false, true));
    let x = add(&mut heap, plain_instance(selfish, args, None));
    let y = add(&mut heap, plain_instance(fixed, args, None));
    let z = add(&mut heap, plain_instance(raising, args, None));
    let mut memo = UserProvidedMemo::new(HashMap::new());
    assert_eq!(deepcopy_impl_with_memo(&mut heap, &mut memo, x), Ok(x));
    assert_eq!(memo.get(x), Some(x));
    assert_eq!(deepcopy_impl_with_memo(&mut heap, &mut memo, y), Ok(target));
    assert_eq!(memo.get(y), Some(target));
    assert_eq!(deepcopy_impl_with_memo(&mut heap, &mut memo, z), Err(CopyError::HookFailed));
}

#[test]
fn external_memo_entry_is_returned_without_copying() {
    let mut heap = Heap::new();
    let x = add(&mut heap, Object::List(vec![]));
    let prior = add(&mut heap, Object::Scalar(5));
    let mut dict = HashMap::new();
    dict.insert(x, prior);
    let mut memo = UserProvidedMemo::new(dict);
    let before = heap.len();
    assert_eq!(deepcopy_impl_with_memo(&mut heap, &mut memo, x), Ok(prior));
    assert_eq!(deepcopy_impl_with_memo(&mut heap, &mut memo, x), Ok(prior));
    assert_eq!(heap.len(), before);
    assert_eq!(memo.as_dict().len(), 1);
}

#[test]
fn external_memo_keeps_new_registrations() {
    let mut heap = Heap::new();
    let inner = add(&mut heap, Object::List(vec![]));
    let x = add(&mut heap, Object::List(vec![inner]));
    let mut memo = UserProvidedMemo::new(HashMap::new());
    let r = deepcopy_impl_with_memo(&mut heap, &mut memo, x).unwrap();
    assert_eq!(memo.get(x), Some(r));
    let inner_clone = list_items(&heap, r)[0];
    assert_eq!(memo.get(inner), Some(inner_clone));
    assert!(memo.kept().contains(&x));
    assert_eq!(deepcopy_impl_with_memo(&mut heap, &mut memo, x), Ok(r));
}

#[test]
fn pool_shrinks_after_a_large_copy() {
    let mut heap = Heap::new();
    let mut children = Vec::new();
    for _ in 0..100_000u64 {
        children.push(add(&mut heap, Object::List(vec![])));
    }
    let x = add(&mut heap, Object::List(children));
    let mut pool = MemoPool::new();
    let memo = get_thread_local_memo(&mut pool);
    return_thread_local_memo(&mut pool, memo);
    let r = deepcopy_impl(&mut heap, &mut pool, x).unwrap();
    assert_eq!(list_items(&heap, r).len(), 100_000);
    let next = get_thread_local_memo(&mut pool);
    let (size, used, _, _) = next.stats();
    assert!(size <= RETAIN_SHRINK_TO);
    assert_eq!(used, 0);
    return_thread_local_memo(&mut pool, next);
    let small = add(&mut heap, Object::List(vec![x]));
    let r2 = deepcopy_impl(&mut heap, &mut pool, small).unwrap();
    let copied = list_items(&heap, r2)[0];
    assert_ne!(copied, x);
    assert_eq!(list_items(&heap, copied).len(), 100_000);
}

#[test]
fn large_table_is_shrunk_on_return() {
    let mut pool = MemoPool::new();
    let mut heap = Heap::new();
    let mut children = Vec::new();
    for _ in 0..100_000u64 {
        children.push(add(&mut heap, Object::List(vec![])));
    }
    let x = add(&mut heap, Object::List(children));
    let mut memo = get_thread_local_memo(&mut pool);
    let r = copium::deepcopy_impl::deepcopy_internal(&mut heap, &mut memo, x);
    assert!(r.is_ok());
    assert!(memo.stats().0 > RETAIN_MAX_SLOTS);
    return_thread_local_memo(&mut pool, memo);
    let next = get_thread_local_memo(&mut pool);
    assert_eq!(next.stats().0, RETAIN_SHRINK_TO);
}

#[test]
fn exposed_memo_is_not_reused() {
    let mut pool = MemoPool::new();
    let mut memo = get_thread_local_memo(&mut pool);
    memo.expose();
    assert!(memo.is_exposed());
    return_thread_local_memo(&mut pool, memo);
    let next = get_thread_local_memo(&mut pool);
    assert!(!next.is_exposed());
    assert_eq!(next.stats().0, 0);
}

#[test]
fn deep_chain_exceeds_the_depth_limit() {
    let mut heap = Heap::new();
    let mut cur = add(&mut heap, Object::List(vec![]));
    for _ in 0..(MAX_DEPTH + 5) {
        cur = add(&mut heap, Object::List(vec![cur]));
    }
    assert_eq!(clone(&mut heap, cur), Err(CopyError::DepthExceeded));
    let mut short = add(&mut heap, Object::List(vec![]));
    for _ in 0..50 {
        short = add(&mut heap, Object::List(vec![short]));
    }
    assert!(clone(&mut heap, short).is_ok());
}

#[test]
fn replicate_makes_independent_copies() {
    let mut heap = Heap::new();
    let x = add(&mut heap, Object::List(vec![]));
    let mut pool = MemoPool::new();
    let copies = replicate_impl(&mut heap, &mut pool, x, 3).unwrap();
    assert_eq!(copies.len(), 3);
    assert_ne!(copies[0], copies[1]);
    assert_ne!(copies[1], copies[2]);
    assert!(copies.iter().all(|c| *c != x));
    let s = add(&mut heap, Object::Scalar(1));
    assert_eq!(replicate_impl(&mut heap, &mut pool, s, 2).unwrap(), vec![s, s]);
}

#[test]
fn shallow_copy_keeps_children() {
    let mut heap = Heap::new();
    let inner = add(&mut heap, Object::List(vec![]));
    let x = add(&mut heap, Object::List(vec![inner]));
    let r = copy_impl(&mut heap, x).unwrap();
    assert_ne!(r, x);
    assert_eq!(list_items(&heap, r), vec![inner]);
    let t = add(&mut heap, Object::Tuple(vec![inner]));
    assert_eq!(copy_impl(&mut heap, t), Ok(t));
    let args = add(&mut heap, Object::Tuple(vec![inner]));
    let ty = add(&mut heap, type_spec(CopyHook::Absent, Reduction::Standard, Reduction::Missing, false, true));
    let obj = add(&mut heap, plain_instance(ty, args, None));
    let c = copy_impl(&mut heap, obj).unwrap();
    assert_ne!(c, obj);
    assert_eq!(instance(&heap, c).args, args);
}

#[test]
fn error_messages_name_the_failure() {
    assert_eq!(CopyError::ProtocolViolation.message(), "decomposition exceeds maximum supported arity");
    assert_eq!(CopyError::Uncopyable.message(), "un(deep)copyable object");
}

#[test]
fn state_mapping_updates_the_attribute_mapping() {
    let mut heap = Heap::new();
    let k = add(&mut heap, Object::Scalar(1));
    let v1 = add(&mut heap, Object::Scalar(2));
    let v2 = add(&mut heap, Object::Scalar(3));
    let attrs = add(&mut heap, Object::Dict(vec![(k, v1)]));
    let state = add(&mut heap, Object::Dict(vec![(k, v2), (v1, v1)]));
    let ty = add(&mut heap, type_spec(CopyHook::Absent, Reduction::Standard, Reduction::Missing, false, true));
    let args = add(&mut heap, Object::Tuple(vec![]));
    let obj = add(&mut heap, plain_instance(ty, args, Some(attrs)));
    set_object_state(&mut heap, obj, state);
    assert_eq!(dict_pairs(&heap, attrs), vec![(k, v2), (v1, v1)]);
    assert_eq!(instance(&heap, obj).restored, None);
}

#[test]
fn restore_hook_takes_the_state_as_it_is() {
    let mut heap = Heap::new();
    let attrs = add(&mut heap, Object::Dict(vec![]));
    let state = add(&mut heap, Object::Dict(vec![]));
    let ty = add(&mut heap, type_spec(CopyHook::Absent, Reduction::Standard, Reduction::Missing, true, true));
    let args = add(&mut heap, Object::Tuple(vec![]));
    let obj = add(&mut heap, plain_instance(ty, args, Some(attrs)));
    set_object_state(&mut heap, obj, state);
    assert_eq!(instance(&heap, obj).restored, Some(state));
    assert_eq!(dict_pairs(&heap, attrs), vec![]);
}

#[test]
fn caller_memo_holds_registered_originals() {
    let mut heap = Heap::new();
    let x = add(&mut heap, Object::ByteArray(vec![9]));
    let mut memo = UserProvidedMemo::new(HashMap::new());
    let r = deepcopy_impl_with_memo(&mut heap, &mut memo, x).unwrap();
    assert_eq!(memo.get(x), Some(r));
    assert_eq!(memo.kept(), &vec![x]);
}

#[test]
fn memos_report_who_supplied_them() {
    let user = UserProvidedMemo::new(HashMap::new());
    assert!(user.is_user_provided());
    let mut pool = MemoPool::new();
    let internal = get_thread_local_memo(&mut pool);
    assert!(!internal.is_user_provided());
}

#[test]
fn constructible_type_without_hooks_is_copied_field_by_field() {
    let mut heap = Heap::new();
    let name = add(&mut heap, Object::Scalar(1));
    let val = add(&mut heap, Object::List(vec![]));
    let attrs = add(&mut heap, Object::Dict(vec![(name, val)]));
    let args = add(&mut heap, Object::Tuple(vec![]));
    let ty = add(&mut heap, type_spec(CopyHook::Absent, Reduction::Missing, Reduction::Missing, false, true));
    let x = add(
        &mut heap,
        Object::Instance(Instance {
            class: ty,
            args,
            dict: Some(attrs),
            fields: vec![(name, val)],
            items: vec![],
            entries: vec![],
            restored: None,
        }),
    );
    let deep = clone(&mut heap, x).unwrap();
    let d = instance(&heap, deep).dict.unwrap();
    assert_ne!(d, attrs);
    let pairs = dict_pairs(&heap, d);
    assert_eq!(pairs[0].0, name);
    assert_ne!(pairs[0].1, val);

    let shallow = copy_impl(&mut heap, x).unwrap();
    let inst = instance(&heap, shallow);
    assert_eq!(inst.class, ty);
    assert_eq!(inst.fields, vec![(name, val)]);
    let sd = inst.dict.unwrap();
    assert_ne!(sd, attrs);
    assert_eq!(dict_pairs(&heap, sd), vec![(name, val)]);
}

#[test]
fn shallow_copy_hands_items_over_uncopied() {
    let mut heap = Heap::new();
    let none = add(&mut heap, Object::Nothing);
    let a = add(&mut heap, Object::Scalar(1));
    let l = add(&mut heap, Object::List(vec![]));
    let seq_items = add(&mut heap, Object::List(vec![a, l]));
    let pair = add(&mut heap, Object::Tuple(vec![a, l]));
    let map_items = add(&mut heap, Object::Tuple(vec![pair, a]));
    let args = add(&mut heap, Object::Tuple(vec![]));
    let ty = add(&mut heap, Object::Nothing);
    heap.replace(
        ty,
        type_spec(CopyHook::Absent, Reduction::Tuple(vec![ty, args, none, seq_items, map_items]), Reduction::Missing, false, true),
    );
    let x = add(&mut heap, plain_instance(ty, args, None));
    let r = copy_impl(&mut heap, x).unwrap();
    let inst = instance(&heap, r);
    assert_eq!(inst.items, vec![a, l]);
    assert_eq!(inst.entries, vec![(a, l)]);
    assert_eq!(inst.args, args);
}
