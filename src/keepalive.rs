//! The retention buffer: an append-only list of the identities that must outlive
//! the copy operation in flight.

use vstd::prelude::*;
use crate::error::CopyError;

verus! {

/// Capacity of a new buffer.
pub const INITIAL_CAPACITY: usize = 16;

/// Above this capacity a buffer is shrunk when it is returned for reuse.
pub const RETAIN_MAX: usize = 8192;

/// The capacity that a large buffer is shrunk back to, at least.
pub const RETAIN_TARGET: usize = 1024;

/// The largest capacity a buffer may grow to.
pub const MAX_CAPACITY: usize = 1073741824;

/// Relies on `Vec::shrink_to`: the contents are unchanged.
#[verifier::external_body]
fn shrink_items(v: &mut Vec<u64>, min_capacity: usize)
    ensures
        final(v)@ == old(v)@,
{
    v.shrink_to(min_capacity)
}

/// The retention buffer.
pub struct KeepAlive {
    items: Vec<u64>,
    capacity: usize,
}

impl View for KeepAlive {
    type V = Seq<u64>;

    closed spec fn view(&self) -> Seq<u64> {
        self.items@
    }
}

impl KeepAlive {
    /// The number of identities the buffer holds room for.
    pub closed spec fn spec_capacity(&self) -> nat {
        self.capacity as nat
    }

    pub closed spec fn wf(&self) -> bool {
        &&& self.items@.len() <= self.capacity
        &&& INITIAL_CAPACITY <= self.capacity <= MAX_CAPACITY
    }

    /// An empty buffer with the initial capacity.
    pub fn new() -> (r: Self)
        ensures
            r.wf(),
            r@ == Seq::<u64>::empty(),
            r.spec_capacity() == INITIAL_CAPACITY,
    {
        KeepAlive { items: Vec::with_capacity(INITIAL_CAPACITY), capacity: INITIAL_CAPACITY }
    }

    /// Takes a hold on `obj`, doubling the capacity when the buffer is full.
    pub fn append(&mut self, obj: u64) -> (r: Result<(), CopyError>)
        requires
            old(self).wf(),
        ensures
            final(self).wf(),
            r is Ok ==> final(self)@ == old(self)@.push(obj),
            r is Err ==> final(self)@ == old(self)@ && final(self).spec_capacity() == old(self).spec_capacity() && r
                == Err::<(), CopyError>(CopyError::AllocationFailure),
            r is Err <==> old(self)@.len() == old(self).spec_capacity() && old(self).spec_capacity() * 2
                > MAX_CAPACITY,
            final(self).spec_capacity() >= old(self).spec_capacity(),
    {
        if self.items.len() >= self.capacity {
            if self.capacity > MAX_CAPACITY / 2 {
                return Err(CopyError::AllocationFailure);
            }
            let new_capacity = self.capacity * 2;
            let additional = new_capacity - self.items.len();
            self.items.reserve(additional);
            self.capacity = new_capacity;
        }
        self.items.push(obj);
        Ok(())
    }

    /// Releases every hold but keeps the capacity.
    pub fn clear(&mut self)
        requires
            old(self).wf(),
        ensures
            final(self).wf(),
            final(self)@ == Seq::<u64>::empty(),
            final(self).spec_capacity() == old(self).spec_capacity(),
    {
        self.items.clear();
    }

    /// Shrinks a buffer whose capacity exceeds `RETAIN_MAX` back to
    /// `RETAIN_TARGET`, or to its length if that is larger.
    pub fn shrink_if_large(&mut self)
        requires
            old(self).wf(),
        ensures
            final(self).wf(),
            final(self)@ == old(self)@,
            if old(self).spec_capacity() > RETAIN_MAX {
                final(self).spec_capacity() == if old(self)@.len() > RETAIN_TARGET {
                    old(self)@.len()
                } else {
                    RETAIN_TARGET as nat
                }
            } else {
                final(self).spec_capacity() == old(self).spec_capacity()
            },
    {
        if self.capacity > RETAIN_MAX {
            let target = if self.items.len() > RETAIN_TARGET {
                self.items.len()
            } else {
                RETAIN_TARGET
            };
            shrink_items(&mut self.items, target);
            self.capacity = target;
        }
    }

    /// The identity at `index`, if the buffer holds that many.
    pub fn get(&self, index: usize) -> (r: Option<u64>)
        ensures
            r == if index < self@.len() {
                Some(self@[index as int])
            } else {
                None::<u64>
            },
    {
        if index < self.items.len() {
            Some(self.items[index])
        } else {
            None
        }
    }

    /// The number of identities held.
    pub fn len(&self) -> (r: usize)
        ensures
            r == self@.len(),
    {
        self.items.len()
    }

    /// Whether no identity is held.
    pub fn is_empty(&self) -> (r: bool)
        ensures
            r == (self@.len() == 0),
    {
        self.items.len() == 0
    }

    /// The number of identities the buffer holds room for.
    pub fn capacity(&self) -> (r: usize)
        ensures
            r == self.spec_capacity(),
    {
        self.capacity
    }

    /// The identities held, in the order they were appended.
    pub fn as_slice(&self) -> (r: &[u64])
        ensures
            r@ == self@,
    {
        self.items.as_slice()
    }
}

/// Another name for the retention buffer.
pub type KeepVector = KeepAlive;

} // verus!
