//! Classification of objects into handling strategies, and the small typed
//! markers that track the state of a copy operation.

use vstd::prelude::*;
use std::marker::PhantomData;
use crate::graph::{CopyHook, Heap, Object, Reduction, TypeSpec};

verus! {

/// How the engine handles an object.
#[derive(Clone, Copy, Debug, PartialEq, Eq, Structural)]
pub enum TypeClass {
    /// Shared unchanged: markers, scalars, type objects.
    ImmutableLiteral,
    Dict,
    List,
    Tuple,
    MutableSet,
    FrozenSet,
    ByteArray,
    /// The type defines a copy-override hook.
    CustomDeepCopy,
    /// Reconstructed through the reduce protocol.
    RequiresReduce,
}

/// The type object named by `class`, if `class` is one.
pub open spec fn type_spec_of(h: Seq<Object>, class: u64) -> Option<TypeSpec> {
    if class < h.len() && h[class as int] is Type {
        Some(h[class as int]->Type_0)
    } else {
        None
    }
}

/// The copy-override hook of instances of `class`.
pub open spec fn hook_of(h: Seq<Object>, class: u64) -> CopyHook {
    match type_spec_of(h, class) {
        Some(t) => t.copy_hook,
        None => CopyHook::Absent,
    }
}

/// The decomposition that applies to instances of `class`: the extended
/// protocol's, unless that hook is missing.
pub open spec fn reduction_of(h: Seq<Object>, class: u64) -> Reduction {
    match type_spec_of(h, class) {
        Some(t) => if t.reduce_ex is Missing {
            t.reduce
        } else {
            t.reduce_ex
        },
        None => Reduction::Missing,
    }
}

/// Calling `ctor` as a constructor succeeds.
pub open spec fn constructible(h: Seq<Object>, ctor: u64) -> bool {
    match type_spec_of(h, ctor) {
        Some(t) => t.constructible,
        None => false,
    }
}

/// Instances of `class` take their state through a restore-state hook.
pub open spec fn restores(h: Seq<Object>, class: u64) -> bool {
    match type_spec_of(h, class) {
        Some(t) => t.restore_hook,
        None => false,
    }
}

/// The class of object `x`.
pub open spec fn spec_classify(h: Seq<Object>, x: u64) -> TypeClass {
    match h[x as int] {
        Object::Dict(_) => TypeClass::Dict,
        Object::List(_) => TypeClass::List,
        Object::Tuple(_) => TypeClass::Tuple,
        Object::MutableSet(_) => TypeClass::MutableSet,
        Object::FrozenSet(_) => TypeClass::FrozenSet,
        Object::ByteArray(_) => TypeClass::ByteArray,
        Object::Instance(inst) => if hook_of(h, inst.class) is Absent {
            TypeClass::RequiresReduce
        } else {
            TypeClass::CustomDeepCopy
        },
        _ => TypeClass::ImmutableLiteral,
    }
}

/// Whether the type of instance `x` defines a copy-override hook.
pub fn has_deepcopy(heap: &Heap, x: u64) -> (r: bool)
    requires
        heap.wf(),
        x < heap@.len(),
        heap@[x as int] is Instance,
    ensures
        r == !(hook_of(heap@, heap@[x as int]->Instance_0.class) is Absent),
{
    let hook = copy_hook(heap, x);
    !matches!(hook, CopyHook::Absent)
}

/// The copy-override hook of the type of instance `x`.
pub fn copy_hook(heap: &Heap, x: u64) -> (r: CopyHook)
    requires
        heap.wf(),
        x < heap@.len(),
        heap@[x as int] is Instance,
    ensures
        r == hook_of(heap@, heap@[x as int]->Instance_0.class),
{
    let class = match heap.get(x) {
        Object::Instance(inst) => inst.class,
        _ => 0,
    };
    if class >= heap.len() as u64 {
        return CopyHook::Absent;
    }
    match heap.get(class) {
        Object::Type(t) => t.copy_hook,
        _ => CopyHook::Absent,
    }
}

/// Classifies object `x` once, exact kinds first.
pub fn classify_type(heap: &Heap, x: u64) -> (r: TypeClass)
    requires
        heap.wf(),
        x < heap@.len(),
    ensures
        r == spec_classify(heap@, x),
{
    match heap.get(x) {
        Object::Dict(_) => TypeClass::Dict,
        Object::List(_) => TypeClass::List,
        Object::Tuple(_) => TypeClass::Tuple,
        Object::MutableSet(_) => TypeClass::MutableSet,
        Object::FrozenSet(_) => TypeClass::FrozenSet,
        Object::ByteArray(_) => TypeClass::ByteArray,
        Object::Instance(_) => {
            if has_deepcopy(heap, x) {
                TypeClass::CustomDeepCopy
            } else {
                TypeClass::RequiresReduce
            }
        },
        _ => TypeClass::ImmutableLiteral,
    }
}

/// Memo state: no memo yet.
pub struct Uninitialized;

/// Memo state: the caller supplied the memo.
pub struct FromUser;

/// Memo state: the engine set up its own memo.
pub struct Initialized;

/// Memo state: the operation is over and the memo must be cleaned up.
pub struct NeedsCleanup;

/// Hash state: not computed.
pub struct NoHash;

/// Hash state: computed.
pub struct HasHash(pub u64);

/// The identity of a type object.
pub struct ObjectType {
    pub type_id: u64,
}

impl ObjectType {
    pub fn new(type_id: u64) -> (r: Self)
        ensures
            r.type_id == type_id,
    {
        ObjectType { type_id }
    }

    /// Whether `other` is this very type (not a subtype).
    pub fn matches(&self, other: u64) -> (r: bool)
        ensures
            r == (self.type_id == other),
    {
        self.type_id == other
    }
}

/// The state of a copy operation, tracked in its type: `S` is the memo state
/// and `H` the hash state, which carries the hash once it is computed.
pub struct CopyContext<S, H> {
    state: PhantomData<S>,
    hash: H,
}

impl<S, H: HashValue> CopyContext<S, H> {
    /// The hash the context carries, if it carries one.
    pub closed spec fn spec_hash(&self) -> Option<u64> {
        self.hash.spec_value()
    }
}

impl CopyContext<Uninitialized, NoHash> {
    pub fn new() -> (r: Self)
        ensures
            r.spec_hash() is None,
    {
        CopyContext { state: PhantomData, hash: NoHash }
    }

    /// The caller supplied the memo.
    pub fn with_user_memo(self) -> (r: CopyContext<FromUser, NoHash>)
        ensures
            r.spec_hash() is None,
    {
        CopyContext { state: PhantomData, hash: NoHash }
    }

    /// The engine sets up its own memo.
    pub fn initialize_memo(self) -> (r: CopyContext<Initialized, NoHash>)
        ensures
            r.spec_hash() is None,
    {
        CopyContext { state: PhantomData, hash: NoHash }
    }
}

impl<H> CopyContext<FromUser, H> {
    /// Whether the context itself finds the object in the caller's memo: it
    /// holds no memo, so never; the memo is consulted through `Memo::lookup`.
    pub fn check_user_memo(&self) -> (r: bool)
        ensures
            !r,
    {
        false
    }
}

impl<H: HashValue> CopyContext<Initialized, H> {
    /// Records the hash of the current identity, computed once.
    pub fn with_hash(self, hash: u64) -> (r: CopyContext<Initialized, HasHash>)
        ensures
            r.spec_hash() == Some(hash),
    {
        CopyContext { state: PhantomData, hash: HasHash(hash) }
    }

    /// The operation is over; the hash state is kept.
    pub fn needs_cleanup(self) -> (r: CopyContext<NeedsCleanup, H>)
        ensures
            r.spec_hash() == self.spec_hash(),
    {
        CopyContext { state: PhantomData, hash: self.hash }
    }
}

impl<S, H: HashValue> CopyContext<S, H> {
    /// The hash the context carries: none before it is computed.
    pub fn get_hash(&self) -> (r: Option<u64>)
        ensures
            r == self.spec_hash(),
    {
        self.hash.value()
    }
}

/// A hash state: either no hash yet, or the computed one.
pub trait HashValue {
    spec fn spec_value(&self) -> Option<u64>;

    fn value(&self) -> (r: Option<u64>)
        ensures
            r == self.spec_value(),
    ;
}

impl HashValue for NoHash {
    open spec fn spec_value(&self) -> Option<u64> {
        None
    }

    fn value(&self) -> (r: Option<u64>) {
        None
    }
}

impl HashValue for HasHash {
    open spec fn spec_value(&self) -> Option<u64> {
        Some(self.0)
    }

    fn value(&self) -> (r: Option<u64>) {
        Some(self.0)
    }
}

/// Memo states in which the memo may be consulted.
pub trait CanLookup {}

impl CanLookup for FromUser {}

impl CanLookup for Initialized {}

/// Memo states in which the memo may be written.
pub trait CanInsert {}

impl CanInsert for Initialized {}

/// The outcome of copying one object.
#[derive(Clone, Copy, Debug, PartialEq, Eq, Structural)]
pub enum CopyResult {
    /// The object itself, shared.
    Immutable(u64),
    /// A new copy.
    Mutable(u64),
    /// The clone already registered in the memo.
    FromMemo(u64),
    /// The copy failed.
    Error,
}

impl CopyResult {
    /// The identity carried, if any.
    pub fn as_ptr(&self) -> (r: Option<u64>)
        ensures
            r == match *self {
                CopyResult::Immutable(p) => Some(p),
                CopyResult::Mutable(p) => Some(p),
                CopyResult::FromMemo(p) => Some(p),
                CopyResult::Error => None::<u64>,
            },
    {
        match self {
            CopyResult::Immutable(p) => Some(*p),
            CopyResult::Mutable(p) => Some(*p),
            CopyResult::FromMemo(p) => Some(*p),
            CopyResult::Error => None,
        }
    }

    pub fn is_error(&self) -> (r: bool)
        ensures
            r == (*self is Error),
    {
        matches!(self, CopyResult::Error)
    }

    pub fn is_immutable(&self) -> (r: bool)
        ensures
            r == (*self is Immutable),
    {
        matches!(self, CopyResult::Immutable(_))
    }
}

} // verus!
