//! The persistent node registry.
//!
//! Allocation results for named nodes are merged into this registry
//! (update-in-place by name, insert if absent), so that later point queries
//! by node name or by client-name prefix retrieve current balances.

use vstd::prelude::*;
use crate::node::{Node, clone_node, all_wf};
use crate::text::{spec_starts_with, starts_with_prefix};

verus! {

/// Some entry of the sequence bears this name.
pub open spec fn has_name(s: Seq<Node>, name: Seq<char>) -> bool {
    exists|i: int| 0 <= i < s.len() && s[i].name@ == name
}

/// The index of the entry bearing this name (unique when names are unique).
pub open spec fn name_index(s: Seq<Node>, name: Seq<char>) -> int {
    choose|i: int| 0 <= i < s.len() && s[i].name@ == name
}

/// No two entries share a name.
pub open spec fn unique_names(s: Seq<Node>) -> bool {
    forall|i: int, j: int|
        0 <= i < j < s.len() ==> #[trigger] s[i].name@ != #[trigger] s[j].name@
}

/// Merge one node into the sequence: replace the entry of the same name, or
/// append the node when none exists.
pub open spec fn spec_upsert(s: Seq<Node>, n: Node) -> Seq<Node> {
    if has_name(s, n.name@) {
        s.update(name_index(s, n.name@), n)
    } else {
        s.push(n)
    }
}

/// The nodes whose names start with the given prefix.
pub open spec fn prefixed(prefix: Seq<char>) -> spec_fn(Node) -> bool {
    |n: Node| spec_starts_with(n.name@, prefix)
}

/// The registry of node balances, keyed by node name.
#[derive(Debug)]
pub struct NodeRegistry {
    pub nodes: Vec<Node>,
}

impl NodeRegistry {
    pub open spec fn wf(self) -> bool {
        unique_names(self.nodes@) && all_wf(self.nodes@)
    }

    pub fn new() -> (r: NodeRegistry)
        ensures
            r.wf(),
            r.nodes@.len() == 0,
    {
        NodeRegistry { nodes: Vec::new() }
    }

    /// The index of the registered node with this name, if any.
    pub fn find_index(&self, name: &String) -> (r: Option<usize>)
        requires
            self.wf(),
        ensures
            match r {
                Some(i) => i < self.nodes@.len() && self.nodes@[i as int].name@ == name@
                    && has_name(self.nodes@, name@) && name_index(self.nodes@, name@) == i,
                None => !has_name(self.nodes@, name@),
            },
    {
        let mut i: usize = 0;
        while i < self.nodes.len()
            invariant
                self.wf(),
                i <= self.nodes@.len(),
                forall|k: int| 0 <= k < i ==> #[trigger] self.nodes@[k].name@ != name@,
            decreases self.nodes@.len() - i,
        {
            if self.nodes[i].name == *name {
                proof {
                    let j = name_index(self.nodes@, name@);
                    assert(0 <= j < self.nodes@.len() && self.nodes@[j].name@ == name@);
                    if j != i {
                        assert(self.nodes@[i as int].name@ != self.nodes@[j].name@);
                    }
                }
                return Some(i);
            }
            i = i + 1;
        }
        None
    }

    /// Merge a node into the registry: update the entry of the same name in
    /// place, insert the node when absent.
    pub fn upsert(&mut self, n: &Node)
        requires
            old(self).wf(),
            n.wf(),
        ensures
            final(self).wf(),
            final(self).nodes@ == spec_upsert(old(self).nodes@, *n),
    {
        let found = self.find_index(&n.name);
        match found {
            Some(i) => {
                self.nodes[i] = clone_node(n);
                proof {
                    assert(self.nodes@ =~= spec_upsert(old(self).nodes@, *n));
                }
            }
            None => {
                self.nodes.push(clone_node(n));
            }
        }
    }

    /// Current balances of the named node, if it is registered.
    pub fn get_node_offset_emissions(&self, node_name: &String) -> (r: Option<&Node>)
        requires
            self.wf(),
        ensures
            match r {
                Some(n) => has_name(self.nodes@, node_name@)
                    && *n == self.nodes@[name_index(self.nodes@, node_name@)],
                None => !has_name(self.nodes@, node_name@),
            },
    {
        match self.find_index(node_name) {
            Some(i) => Some(&self.nodes[i]),
            None => None,
        }
    }

    /// Current balances of every node whose name starts with the client's
    /// name, in registry order.
    pub fn get_client_offset_emissions(&self, client_name: &String) -> (r: Vec<Node>)
        ensures
            r@ == self.nodes@.filter(prefixed(client_name@)),
    {
        let mut out: Vec<Node> = Vec::new();
        let mut i: usize = 0;
        while i < self.nodes.len()
            invariant
                i <= self.nodes@.len(),
                out@ == self.nodes@.subrange(0, i as int).filter(prefixed(client_name@)),
            decreases self.nodes@.len() - i,
        {
            let ghost pre = self.nodes@.subrange(0, i as int);
            if starts_with_prefix(&self.nodes[i].name, client_name) {
                out.push(clone_node(&self.nodes[i]));
            }
            proof {
                reveal(Seq::filter);
                assert(self.nodes@.subrange(0, i + 1).drop_last() =~= pre);
                assert(self.nodes@.subrange(0, i + 1).last() == self.nodes@[i as int]);
            }
            i = i + 1;
        }
        proof {
            assert(self.nodes@.subrange(0, self.nodes@.len() as int) =~= self.nodes@);
        }
        out
    }
}

} // verus!
