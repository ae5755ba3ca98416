//! The memo interface that the copy engine is generic over.

use vstd::prelude::*;
use crate::error::CopyError;
use crate::hash::spec_hash_pointer;

verus! {

/// A memo: the map from the identity of an original to the identity of its
/// clone, and the list of identities held alive for the operation.
pub trait Memo {
    /// The registered clones.
    spec fn entries(&self) -> Map<u64, u64>;

    /// The identities held alive.
    spec fn retained(&self) -> Seq<u64>;

    spec fn inv(&self) -> bool;

    /// No further registration fits: every insertion fails.
    spec fn table_full(&self) -> bool;

    /// No further identity can be held: every hold fails.
    spec fn buffer_full(&self) -> bool;

    /// Registering a clone also holds the original alive.
    spec fn keeps_on_insert(&self) -> bool;

    /// The caller supplied this memo.
    spec fn spec_user_provided(&self) -> bool;

    /// The clone registered for `key`; `hash` is the hash of `key`.
    fn lookup(&self, key: u64, hash: u64) -> (r: Option<u64>)
        requires
            self.inv(),
            hash == spec_hash_pointer(key),
        ensures
            r == if self.entries().contains_key(key) {
                Some(self.entries()[key])
            } else {
                None::<u64>
            },
    ;

    /// Registers `value` as the clone of `key`; `hash` is the hash of `key`.
    fn insert(&mut self, key: u64, value: u64, hash: u64) -> (r: Result<(), CopyError>)
        requires
            old(self).inv(),
            hash == spec_hash_pointer(key),
        ensures
            final(self).inv(),
            r is Ok ==> final(self).entries() == old(self).entries().insert(key, value),
            r is Err ==> final(self).entries() == old(self).entries() && r == Err::<(), CopyError>(
                CopyError::AllocationFailure),
            r is Err <==> old(self).table_full(),
            old(self).table_full() ==> final(self).table_full(),
            final(self).buffer_full() == old(self).buffer_full(),
            final(self).keeps_on_insert() == old(self).keeps_on_insert(),
            r is Ok ==> final(self).retained() == if old(self).keeps_on_insert() {
                old(self).retained().push(key)
            } else {
                old(self).retained()
            },
            r is Err ==> final(self).retained() == old(self).retained(),
    ;

    /// Holds `obj` alive until the memo is cleaned up.
    fn keepalive(&mut self, obj: u64) -> (r: Result<(), CopyError>)
        requires
            old(self).inv(),
        ensures
            final(self).inv(),
            final(self).entries() == old(self).entries(),
            r is Ok ==> final(self).retained() == old(self).retained().push(obj),
            r is Err ==> final(self).retained() == old(self).retained() && r == Err::<(), CopyError>(
                CopyError::AllocationFailure),
            r is Err <==> old(self).buffer_full(),
            old(self).buffer_full() ==> final(self).buffer_full(),
            final(self).table_full() == old(self).table_full(),
            final(self).keeps_on_insert() == old(self).keeps_on_insert(),
    ;

    /// Whether the caller supplied this memo and may inspect it afterwards.
    fn is_user_provided(&self) -> (r: bool)
        ensures
            r == self.spec_user_provided(),
    ;
}

} // verus!
