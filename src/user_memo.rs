//! A memo supplied by the caller, who may inspect it after the operation.

use vstd::prelude::*;
use std::collections::HashMap;
use crate::error::CopyError;

use crate::memo_trait::Memo;

verus! {

broadcast use vstd::std_specs::hash::group_hash_axioms;

/// A caller-visible memo: a map from original to clone, and the list of
/// identities held alive. Registering a clone also holds its original.
pub struct UserProvidedMemo {
    dict: HashMap<u64, u64>,
    keepalive_list: Vec<u64>,
}

impl UserProvidedMemo {
    /// A memo that starts with the registrations of `dict`.
    pub fn new(dict: HashMap<u64, u64>) -> (r: Self)
        ensures
            r.inv(),
            r.entries() == dict@,
            r.retained() == Seq::<u64>::empty(),
    {
        UserProvidedMemo { dict, keepalive_list: Vec::new() }
    }

    /// The registrations, for inspection.
    pub fn as_dict(&self) -> (r: &HashMap<u64, u64>)
        ensures
            r@ == self.entries(),
    {
        &self.dict
    }

    /// The identities held alive, in the order they were taken.
    pub fn kept(&self) -> (r: &Vec<u64>)
        ensures
            r@ == self.retained(),
    {
        &self.keepalive_list
    }

    /// The clone registered for `key`, if any.
    pub fn get(&self, key: u64) -> (r: Option<u64>)
        ensures
            r == if self.entries().contains_key(key) {
                Some(self.entries()[key])
            } else {
                None::<u64>
            },
    {
        match self.dict.get(&key) {
            Some(v) => Some(*v),
            None => None,
        }
    }
}

impl Memo for UserProvidedMemo {
    closed spec fn entries(&self) -> Map<u64, u64> {
        self.dict@
    }

    closed spec fn retained(&self) -> Seq<u64> {
        self.keepalive_list@
    }

    open spec fn inv(&self) -> bool {
        true
    }

    open spec fn table_full(&self) -> bool {
        false
    }

    open spec fn buffer_full(&self) -> bool {
        false
    }

    open spec fn keeps_on_insert(&self) -> bool {
        true
    }

    fn lookup(&self, key: u64, hash: u64) -> (r: Option<u64>) {
        match self.dict.get(&key) {
            Some(v) => Some(*v),
            None => None,
        }
    }

    fn insert(&mut self, key: u64, value: u64, hash: u64) -> (r: Result<(), CopyError>) {
        self.dict.insert(key, value);
        self.keepalive_list.push(key);
        Ok(())
    }

    fn keepalive(&mut self, obj: u64) -> (r: Result<(), CopyError>) {
        self.keepalive_list.push(obj);
        Ok(())
    }

    open spec fn spec_user_provided(&self) -> bool {
        true
    }

    fn is_user_provided(&self) -> (r: bool) {
        true
    }
}

} // verus!
