//! The escrow registry: a unique-key, insert-once mapping from a node
//! identifier to its owning principal. Insertion fails if the key already
//! exists; lookup fails if it is absent; keys are immutable once set.

use vstd::prelude::*;
use crate::store::KeyedStore;

verus! {

/// The mapping from node identifiers to escrow principals.
#[derive(Debug)]
pub struct EscrowStore {
    pub entries: KeyedStore<String>,
}

impl EscrowStore {
    pub open spec fn wf(self) -> bool {
        self.entries.wf()
    }

    /// The principal stored under an identifier, if any.
    pub open spec fn spec_escrow(self, id: Seq<char>) -> Option<String> {
        self.entries.spec_value(id)
    }

    pub fn new() -> (r: EscrowStore)
        ensures
            r.wf(),
            r.entries.entries@.len() == 0,
    {
        EscrowStore { entries: KeyedStore::new() }
    }

    /// Look up the escrow principal of a node. Fails exactly when the
    /// identifier was never registered.
    pub fn get_node_escrow(&self, id: &String) -> (r: Result<String, ()>)
        requires
            self.wf(),
        ensures
            match r {
                Ok(p) => self.spec_escrow(id@) == Some(p),
                Err(()) => self.spec_escrow(id@) is None,
            },
    {
        match self.entries.get(id) {
            Some(p) => Ok(p.clone()),
            None => Err(()),
        }
    }

    /// Register the escrow principal of a node, once. A second insert for
    /// the same identifier fails and mutates nothing: the stored principal,
    /// and every other entry, keep their values.
    pub fn add_node_escrow(&mut self, id: String, escrow: String) -> (r: Result<(), ()>)
        requires
            old(self).wf(),
        ensures
            final(self).wf(),
            old(self).spec_escrow(id@) is Some ==> r is Err && *final(self) == *old(self),
            old(self).spec_escrow(id@) is None ==> r is Ok && final(self).spec_escrow(id@)
                == Some(escrow) && (forall|k2: Seq<char>| k2 != id@
                ==> #[trigger] final(self).spec_escrow(k2) == old(self).spec_escrow(k2)),
    {
        self.entries.insert_new(id, escrow)
    }
}

} // verus!
