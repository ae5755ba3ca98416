//! The object graph: an arena of objects whose index is their identity.

use vstd::prelude::*;

verus! {

/// The largest number of objects a heap may hold.
pub const HEAP_LIMIT: usize = 4294967295;

/// What a decomposition hook of a type returns.
#[derive(Clone, Debug)]
pub enum Reduction {
    /// The type has no such hook (attribute not found).
    Missing,
    /// The hook raises an error of its own.
    Raises,
    /// The hook returns a plain text value: the object is shared unchanged.
    Text,
    /// The hook returns `(type, args, attribute mapping)` taken from the object itself.
    Standard,
    /// The hook returns this tuple of objects:
    /// `(constructor, args, state?, sequence items?, mapping items?)`.
    Tuple(Vec<u64>),
}

/// What the copy-override hook of a type does.
#[derive(Clone, Copy, Debug, PartialEq, Eq, Structural)]
pub enum CopyHook {
    /// The type has no override hook.
    Absent,
    /// The hook raises an error of its own.
    Raises,
    /// The hook returns the object itself.
    ReturnsSelf,
    /// The hook returns this object.
    Returns(u64),
}

/// A type object: how its instances are copied and constructed.
#[derive(Clone, Debug)]
pub struct TypeSpec {
    pub copy_hook: CopyHook,
    /// The extended-protocol decomposition hook, tried first.
    pub reduce_ex: Reduction,
    /// The basic-protocol decomposition hook, tried when the first is missing.
    pub reduce: Reduction,
    /// Instances take their state through a restore-state hook.
    pub restore_hook: bool,
    /// Calling the type as a constructor succeeds.
    pub constructible: bool,
}

/// An instance of a user-defined type.
#[derive(Clone, Debug)]
pub struct Instance {
    /// The identity of its type object.
    pub class: u64,
    /// The identity of the argument tuple it was constructed with.
    pub args: u64,
    /// The identity of its attribute mapping, if it has one.
    pub dict: Option<u64>,
    /// Named fields (slots), by the identity of their name.
    pub fields: Vec<(u64, u64)>,
    /// Items appended through its sequence interface.
    pub items: Vec<u64>,
    /// Entries assigned through its mapping interface.
    pub entries: Vec<(u64, u64)>,
    /// The state last handed to its restore-state hook.
    pub restored: Option<u64>,
}

/// One object of the graph.
#[derive(Clone, Debug)]
pub enum Object {
    /// The empty marker.
    Nothing,
    /// An immutable scalar: a number, a text or a byte string.
    Scalar(u64),
    /// A type object.
    Type(TypeSpec),
    /// An ordered mapping, as (key, value) pairs in insertion order.
    Dict(Vec<(u64, u64)>),
    /// A growable sequence.
    List(Vec<u64>),
    /// A fixed sequence.
    Tuple(Vec<u64>),
    /// A mutable set, in insertion order.
    MutableSet(Vec<u64>),
    /// An immutable set, in insertion order.
    FrozenSet(Vec<u64>),
    /// A mutable byte buffer.
    ByteArray(Vec<u8>),
    /// An instance of a user-defined type.
    Instance(Instance),
}

/// Every identity in `s` is below `n`.
pub open spec fn ids_below(s: Seq<u64>, n: nat) -> bool {
    forall|i: int| 0 <= i < s.len() ==> #[trigger] s[i] < n
}

/// Every key and value in `s` is below `n`.
pub open spec fn pairs_below(s: Seq<(u64, u64)>, n: nat) -> bool {
    forall|i: int| 0 <= i < s.len() ==> #[trigger] s[i].0 < n && s[i].1 < n
}

pub open spec fn reduction_below(r: Reduction, n: nat) -> bool {
    r matches Reduction::Tuple(es) ==> ids_below(es@, n)
}

/// Every identity that `o` refers to is below `n`.
pub open spec fn refs_below(o: Object, n: nat) -> bool {
    match o {
        Object::Type(t) => {
            &&& (t.copy_hook matches CopyHook::Returns(v) ==> v < n)
            &&& reduction_below(t.reduce_ex, n)
            &&& reduction_below(t.reduce, n)
        },
        Object::Dict(es) => pairs_below(es@, n),
        Object::List(es) => ids_below(es@, n),
        Object::Tuple(es) => ids_below(es@, n),
        Object::MutableSet(es) => ids_below(es@, n),
        Object::FrozenSet(es) => ids_below(es@, n),
        Object::Instance(inst) => {
            &&& inst.class < n
            &&& inst.args < n
            &&& (inst.dict matches Some(d) ==> d < n)
            &&& pairs_below(inst.fields@, n)
            &&& ids_below(inst.items@, n)
            &&& pairs_below(inst.entries@, n)
            &&& (inst.restored matches Some(s) ==> s < n)
        },
        _ => true,
    }
}

/// Objects whose identity is shared by a clone: markers, scalars and types.
pub open spec fn is_atomic(o: Object) -> bool {
    o is Nothing || o is Scalar || o is Type
}

/// Kinds whose clone is always a fresh object registered before any child is cloned.
pub open spec fn is_stable(o: Object) -> bool {
    o is Dict || o is List || o is MutableSet || o is ByteArray
}

/// A mapping after assigning `v` to key `k`: an existing key keeps its place.
pub open spec fn dict_set(es: Seq<(u64, u64)>, k: u64, v: u64) -> Seq<(u64, u64)> {
    if exists|i: int| 0 <= i < es.len() && es[i].0 == k {
        let i = choose|i: int| 0 <= i < es.len() && es[i].0 == k;
        es.update(i, (k, v))
    } else {
        es.push((k, v))
    }
}

/// A mapping after assigning each pair of `ps` in order.
pub open spec fn dict_set_all(es: Seq<(u64, u64)>, ps: Seq<(u64, u64)>) -> Seq<(u64, u64)>
    decreases ps.len(),
{
    if ps.len() == 0 {
        es
    } else {
        dict_set(dict_set_all(es, ps.drop_last()), ps.last().0, ps.last().1)
    }
}

/// A set after adding `x`: nothing changes when it is already there.
pub open spec fn set_add(es: Seq<u64>, x: u64) -> Seq<u64> {
    if es.contains(x) {
        es
    } else {
        es.push(x)
    }
}

/// A set after adding each element of `xs` in order.
pub open spec fn set_add_all(es: Seq<u64>, xs: Seq<u64>) -> Seq<u64>
    decreases xs.len(),
{
    if xs.len() == 0 {
        es
    } else {
        set_add(set_add_all(es, xs.drop_last()), xs.last())
    }
}

/// No key occurs twice in `es`.
pub open spec fn keys_unique(es: Seq<(u64, u64)>) -> bool {
    forall|i: int, j: int| 0 <= i < es.len() && 0 <= j < es.len() && i != j ==> #[trigger] es[i].0 != #[trigger] es[j].0
}

/// No element occurs twice in `es`.
pub open spec fn elems_unique(es: Seq<u64>) -> bool {
    forall|i: int, j: int| 0 <= i < es.len() && 0 <= j < es.len() && i != j ==> #[trigger] es[i] != #[trigger] es[j]
}

/// Assigns `v` to key `k` in the pairs `es`.
pub fn pairs_set(es: &mut Vec<(u64, u64)>, k: u64, v: u64)
    requires
        keys_unique(old(es)@),
    ensures
        final(es)@ == dict_set(old(es)@, k, v),
        keys_unique(final(es)@),
{
    let mut i: usize = 0;
    while i < es.len()
        invariant
            *es == *old(es),
            keys_unique(es@),
            i <= es@.len(),
            forall|j: int| 0 <= j < i ==> (#[trigger] es@[j]).0 != k,
        decreases es@.len() - i,
    {
        if es[i].0 == k {
            proof {
                let c = choose|c: int| 0 <= c < es@.len() && es@[c].0 == k;
                assert(c == i);
            }
            es.set(i, (k, v));
            proof {
                let ns = es@;
                assert forall|a: int, b: int| 0 <= a < ns.len() && 0 <= b < ns.len() && a != b implies #[trigger] ns[a].0
                    != #[trigger] ns[b].0 by {
                    assert(old(es)@[a].0 != old(es)@[b].0);
                }
            }
            return;
        }
        i = i + 1;
    }
    es.push((k, v));
    proof {
        let ns = es@;
        assert forall|a: int, b: int| 0 <= a < ns.len() && 0 <= b < ns.len() && a != b implies #[trigger] ns[a].0
            != #[trigger] ns[b].0 by {
            if a < old(es)@.len() && b < old(es)@.len() {
                assert(old(es)@[a].0 != old(es)@[b].0);
            }
        }
    }
}

/// Adds `x` to the elements `es` unless it is there already.
pub fn elems_add(es: &mut Vec<u64>, x: u64)
    requires
        elems_unique(old(es)@),
    ensures
        final(es)@ == set_add(old(es)@, x),
        elems_unique(final(es)@),
{
    let mut i: usize = 0;
    while i < es.len()
        invariant
            *es == *old(es),
            elems_unique(es@),
            i <= es@.len(),
            forall|j: int| 0 <= j < i ==> #[trigger] es@[j] != x,
        decreases es@.len() - i,
    {
        if es[i] == x {
            proof {
                assert(es@.contains(x));
            }
            return;
        }
        i = i + 1;
    }
    es.push(x);
    proof {
        assert(!old(es)@.contains(x));
        let ns = es@;
        assert forall|a: int, b: int| 0 <= a < ns.len() && 0 <= b < ns.len() && a != b implies #[trigger] ns[a]
            != #[trigger] ns[b] by {
            if a < old(es)@.len() && b < old(es)@.len() {
                assert(old(es)@[a] != old(es)@[b]);
            } else if a < old(es)@.len() {
                assert(old(es)@[a] != x);
            } else if b < old(es)@.len() {
                assert(old(es)@[b] != x);
            }
        }
    }
}

/// `o` refers only to identities below `n`, and its mappings and sets hold no
/// key or element twice.
pub open spec fn object_ok(o: Object, n: nat) -> bool {
    &&& refs_below(o, n)
    &&& (o matches Object::Dict(es) ==> keys_unique(es@))
    &&& (o matches Object::MutableSet(es) ==> elems_unique(es@))
    &&& (o matches Object::FrozenSet(es) ==> elems_unique(es@))
    &&& (o matches Object::Instance(inst) ==> keys_unique(inst.fields@) && keys_unique(inst.entries@))
}

/// The objects of `h` refer only to objects of `h`.
pub open spec fn heap_ok(h: Seq<Object>) -> bool {
    &&& h.len() <= HEAP_LIMIT
    &&& forall|i: int| 0 <= i < h.len() ==> object_ok(#[trigger] h[i], h.len())
}

/// `h1` holds every object of `h0` unchanged, and possibly more after them.
pub open spec fn heap_extends(h0: Seq<Object>, h1: Seq<Object>) -> bool {
    &&& h0.len() <= h1.len()
    &&& forall|i: int| 0 <= i < h0.len() ==> #[trigger] h1[i] == h0[i]
}

pub proof fn lemma_object_ok_grows(o: Object, n: nat, m: nat)
    requires
        object_ok(o, n),
        n <= m,
    ensures
        object_ok(o, m),
{
}

/// A copy of a list of identities.
pub fn copy_ids(v: &Vec<u64>) -> (r: Vec<u64>)
    ensures
        r@ == v@,
{
    let mut r: Vec<u64> = Vec::with_capacity(v.len());
    let mut i: usize = 0;
    while i < v.len()
        invariant
            i <= v@.len(),
            r@ == v@.subrange(0, i as int),
        decreases v@.len() - i,
    {
        r.push(v[i]);
        i = i + 1;
    }
    proof {
        assert(r@ =~= v@);
    }
    r
}

/// A copy of a list of identity pairs.
pub fn copy_pairs(v: &Vec<(u64, u64)>) -> (r: Vec<(u64, u64)>)
    ensures
        r@ == v@,
{
    let mut r: Vec<(u64, u64)> = Vec::with_capacity(v.len());
    let mut i: usize = 0;
    while i < v.len()
        invariant
            i <= v@.len(),
            r@ == v@.subrange(0, i as int),
        decreases v@.len() - i,
    {
        r.push(v[i]);
        i = i + 1;
    }
    proof {
        assert(r@ =~= v@);
    }
    r
}

/// A copy of a byte string.
pub fn copy_bytes(v: &Vec<u8>) -> (r: Vec<u8>)
    ensures
        r@ == v@,
{
    let mut r: Vec<u8> = Vec::with_capacity(v.len());
    let mut i: usize = 0;
    while i < v.len()
        invariant
            i <= v@.len(),
            r@ == v@.subrange(0, i as int),
        decreases v@.len() - i,
    {
        r.push(v[i]);
        i = i + 1;
    }
    proof {
        assert(r@ =~= v@);
    }
    r
}

/// The arena of objects; an object's identity is its index.
pub struct Heap {
    objects: Vec<Object>,
}

impl View for Heap {
    type V = Seq<Object>;

    closed spec fn view(&self) -> Seq<Object> {
        self.objects@
    }
}

impl Heap {
    pub open spec fn wf(&self) -> bool {
        heap_ok(self@)
    }

    /// An empty heap.
    pub fn new() -> (r: Self)
        ensures
            r.wf(),
            r@ == Seq::<Object>::empty(),
    {
        Heap { objects: Vec::new() }
    }

    /// The number of objects.
    pub fn len(&self) -> (r: usize)
        ensures
            r == self@.len(),
    {
        self.objects.len()
    }

    /// Adds `o`, which may refer to itself, and returns its identity. Fails when
    /// the heap already holds `HEAP_LIMIT` objects.
    pub fn add(&mut self, o: Object) -> (r: Result<u64, crate::error::CopyError>)
        requires
            old(self).wf(),
            object_ok(o, old(self)@.len() + 1),
        ensures
            final(self).wf(),
            r is Ok <==> old(self)@.len() < HEAP_LIMIT,
            r is Ok ==> r->Ok_0 == old(self)@.len() && final(self)@ == old(self)@.push(o),
            r is Err ==> final(self)@ == old(self)@ && r->Err_0 == crate::error::CopyError::AllocationFailure,
    {
        if self.objects.len() >= HEAP_LIMIT {
            return Err(crate::error::CopyError::AllocationFailure);
        }
        let id = self.objects.len() as u64;
        self.objects.push(o);
        proof {
            let h = self@;
            assert forall|i: int| 0 <= i < h.len() implies object_ok(#[trigger] h[i], h.len()) by {
                if i < h.len() - 1 {
                    lemma_object_ok_grows(old(self)@[i], old(self)@.len(), h.len());
                }
            }
        }
        Ok(id)
    }

    /// The object with identity `id`.
    pub fn get(&self, id: u64) -> (r: &Object)
        requires
            self.wf(),
            id < self@.len(),
        ensures
            *r == self@[id as int],
    {
        &self.objects[id as usize]
    }

    /// Replaces the object with identity `id` by `o`.
    pub fn replace(&mut self, id: u64, o: Object)
        requires
            old(self).wf(),
            id < old(self)@.len(),
            object_ok(o, old(self)@.len()),
        ensures
            final(self).wf(),
            final(self)@ == old(self)@.update(id as int, o),
    {
        self.objects.set(id as usize, o);
    }

    /// Takes the object with identity `id` out, leaving the empty marker in its place.
    pub fn take(&mut self, id: u64) -> (r: Object)
        requires
            old(self).wf(),
            id < old(self)@.len(),
        ensures
            final(self).wf(),
            r == old(self)@[id as int],
            final(self)@ == old(self)@.update(id as int, Object::Nothing),
    {
        let mut o = Object::Nothing;
        self.objects.set_and_swap(id as usize, &mut o);
        o
    }
}

proof fn lemma_dict_set_all_below(es: Seq<(u64, u64)>, ps: Seq<(u64, u64)>, n: nat)
    requires
        pairs_below(es, n),
        pairs_below(ps, n),
    ensures
        pairs_below(dict_set_all(es, ps), n),
    decreases ps.len(),
{
    if ps.len() > 0 {
        lemma_dict_set_all_below(es, ps.drop_last(), n);
        let q = dict_set_all(es, ps.drop_last());
        let k = ps.last().0;
        if exists|i: int| 0 <= i < q.len() && q[i].0 == k {
            let i = choose|i: int| 0 <= i < q.len() && q[i].0 == k;
            assert(ps.last() == ps[ps.len() - 1]);
        }
    }
}

/// Assigns each pair of `ps` in order to the pairs `es`.
pub fn pairs_set_all(es: &mut Vec<(u64, u64)>, ps: &Vec<(u64, u64)>, Ghost(n): Ghost<nat>)
    requires
        keys_unique(old(es)@),
        pairs_below(old(es)@, n),
        pairs_below(ps@, n),
    ensures
        final(es)@ == dict_set_all(old(es)@, ps@),
        keys_unique(final(es)@),
        pairs_below(final(es)@, n),
{
    let mut i: usize = 0;
    while i < ps.len()
        invariant
            i <= ps@.len(),
            es@ == dict_set_all(old(es)@, ps@.subrange(0, i as int)),
            keys_unique(es@),
            pairs_below(old(es)@, n),
            pairs_below(ps@, n),
        decreases ps@.len() - i,
    {
        let (k, v) = ps[i];
        pairs_set(es, k, v);
        proof {
            assert(ps@.subrange(0, i + 1).drop_last() =~= ps@.subrange(0, i as int));
            assert(ps@.subrange(0, i + 1).last() == ps@[i as int]);
        }
        i = i + 1;
    }
    proof {
        assert(ps@.subrange(0, ps@.len() as int) =~= ps@);
        lemma_dict_set_all_below(old(es)@, ps@, n);
    }
}

} // verus!
