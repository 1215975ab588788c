//! The registry of live connections, by key.
//!
//! The table is the sole authority on which connections exist: a connection
//! is live exactly while its key is in the table.

use std::collections::HashMap;
use vstd::prelude::*;
use vstd::std_specs::hash::group_hash_axioms;
use crate::connection::{ConnectionView, RequestContext};

verus! {

broadcast use group_hash_axioms;

/// Why the table refused an entry.
#[derive(Clone, Copy, Debug, PartialEq, Eq, Structural)]
pub enum TableError {
    /// The key names a live connection already.
    KeyPresent,
}

/// Live connections by key.
pub struct ConnectionTable {
    map: HashMap<u64, RequestContext>,
}

impl View for ConnectionTable {
    type V = Map<u64, ConnectionView>;

    closed spec fn view(&self) -> Map<u64, ConnectionView> {
        self.map@.map_values(|c: RequestContext| c@)
    }
}

/// `HashMap::get_mut`: the value under `key` for changing it in place, if
/// the map has the key. Whatever the value is when the caller lets go of it
/// is what the map holds under `key` from then on; nothing else in the map
/// changes.
#[verifier::external_body]
fn value_mut<'a>(map: &'a mut HashMap<u64, RequestContext>, key: u64) -> (found: Option<
    &'a mut RequestContext,
>)
    ensures
        match found {
            Some(context) => {
                &&& old(map)@.contains_key(key)
                &&& *context == old(map)@[key]
                &&& final(map)@ == old(map)@.insert(key, *final(context))
            },
            None => !old(map)@.contains_key(key) && final(map)@ == old(map)@,
        },
{
    map.get_mut(&key)
}

impl ConnectionTable {
    /// A table without connections.
    pub fn new() -> (table: ConnectionTable)
        ensures
            table@ == Map::<u64, ConnectionView>::empty(),
    {
        let table = ConnectionTable { map: HashMap::new() };
        assert(table@ =~= Map::<u64, ConnectionView>::empty());
        table
    }

    /// The number of live connections.
    pub fn len(&self) -> (n: usize)
        ensures
            n == self@.len(),
    {
        assert(self@.dom() =~= self.map@.dom());
        self.map.len()
    }

    /// Whether `key` names a live connection.
    pub fn contains_key(&self, key: u64) -> (live: bool)
        ensures
            live == self@.contains_key(key),
    {
        self.map.contains_key(&key)
    }

    /// Enters `context` under `key`, unless the key is taken: then the
    /// table stays as it is.
    pub fn insert(&mut self, key: u64, context: RequestContext) -> (res: Result<(), TableError>)
        ensures
            old(self)@.contains_key(key) ==> res == Err::<(), TableError>(TableError::KeyPresent)
                && final(self)@ == old(self)@,
            !old(self)@.contains_key(key) ==> res == Ok::<(), TableError>(()) && final(self)@
                == old(self)@.insert(key, context@),
    {
        if self.map.contains_key(&key) {
            return Err(TableError::KeyPresent);
        }
        let ghost before = self@;
        self.map.insert(key, context);
        assert(self@ =~= before.insert(key, context@));
        Ok(())
    }

    /// The connection that `key` names, if it is live. A key without a
    /// connection is stale, which is no error.
    pub fn get(&self, key: u64) -> (found: Option<&RequestContext>)
        ensures
            match found {
                Some(context) => self@.contains_key(key) && context@ == self@[key],
                None => !self@.contains_key(key),
            },
    {
        self.map.get(&key)
    }

    /// The connection that `key` names, for changing it in place, if it is
    /// live. A key without a connection is stale, which is no error.
    pub fn get_mut(&mut self, key: u64) -> (found: Option<&mut RequestContext>)
        ensures
            match found {
                Some(context) => {
                    &&& old(self)@.contains_key(key)
                    &&& context@ == old(self)@[key]
                    &&& final(self)@ == old(self)@.insert(key, final(context)@)
                },
                None => !old(self)@.contains_key(key) && final(self)@ == old(self)@,
            },
    {
        value_mut(&mut self.map, key)
    }

    /// Takes the connection that `key` names out of the table and hands it
    /// over. Removing a key that names none changes nothing.
    pub fn remove(&mut self, key: u64) -> (removed: Option<RequestContext>)
        ensures
            final(self)@ == old(self)@.remove(key),
            match removed {
                Some(context) => old(self)@.contains_key(key) && context@ == old(self)@[key],
                None => !old(self)@.contains_key(key),
            },
    {
        let ghost before = self@;
        let removed = self.map.remove(&key);
        assert(self@ =~= before.remove(key));
        removed
    }
}

} // verus!
