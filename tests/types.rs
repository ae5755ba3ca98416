use copium::graph::{CopyHook, Heap, Instance, Object, Reduction, TypeSpec};
use copium::types::{classify_type, CopyContext, CopyResult, HasHash, HashValue, NoHash, ObjectType, TypeClass};

#[test]
fn classification_checks_exact_kinds_first() {
    let mut heap = Heap::new();
    let hooked = heap
        .add(Object::Type(TypeSpec {
            copy_hook: CopyHook::ReturnsSelf,
            reduce_ex: Reduction::Missing,
            reduce: Reduction::Missing,
            restore_hook: false,
            constructible: true,
        }))
        .unwrap();
    let plain = heap
        .add(Object::Type(TypeSpec {
            copy_hook: CopyHook::Absent,
            reduce_ex: Reduction::Standard,
            reduce: Reduction::Missing,
            restore_hook: false,
            constructible: true,
        }))
        .unwrap();
    let args = heap.add(Object::Tuple(vec![])).unwrap();
    let mk = |class: u64| {
        Object::Instance(Instance {
            class,
            args,
            dict: None,
            fields: vec![],
            items: vec![],
            entries: vec![],
            restored: None,
        })
    };
    let a = heap.add(mk(hooked)).unwrap();
    let b = heap.add(mk(plain)).unwrap();
    let l = heap.add(Object::List(vec![])).unwrap();
    let s = heap.add(Object::Scalar(3)).unwrap();
    assert_eq!(classify_type(&heap, a), TypeClass::CustomDeepCopy);
    assert_eq!(classify_type(&heap, b), TypeClass::RequiresReduce);
    assert_eq!(classify_type(&heap, l), TypeClass::List);
    assert_eq!(classify_type(&heap, s), TypeClass::ImmutableLiteral);
    assert_eq!(classify_type(&heap, hooked), TypeClass::ImmutableLiteral);
}

#[test]
fn copy_result_accessors() {
    assert_eq!(CopyResult::Immutable(3).as_ptr(), Some(3));
    assert_eq!(CopyResult::Mutable(4).as_ptr(), Some(4));
    assert_eq!(CopyResult::FromMemo(5).as_ptr(), Some(5));
    assert_eq!(CopyResult::Error.as_ptr(), None);
    assert!(CopyResult::Error.is_error());
    assert!(!CopyResult::Mutable(1).is_error());
    assert!(CopyResult::Immutable(1).is_immutable());
    assert!(!CopyResult::FromMemo(1).is_immutable());
}

#[test]
fn object_type_matches_only_itself() {
    let t = ObjectType::new(12);
    assert!(t.matches(12));
    assert!(!t.matches(13));
}

#[test]
fn copy_context_carries_the_computed_hash() {
    let ctx = CopyContext::new();
    assert_eq!(ctx.get_hash(), None);
    let user = CopyContext::new().with_user_memo();
    assert!(!user.check_user_memo());
    assert_eq!(user.get_hash(), None);
    let init = ctx.initialize_memo();
    assert_eq!(init.get_hash(), None);
    let hashed = init.with_hash(77);
    assert_eq!(hashed.get_hash(), Some(77));
    assert_eq!(HasHash(5).value(), Some(5));
    assert_eq!(NoHash.value(), None);
    let done = hashed.needs_cleanup();
    assert_eq!(done.get_hash(), Some(77));
}
