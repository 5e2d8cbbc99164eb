//! Nodes and clients of the offset allocator.
//!
//! A node carries an outstanding emissions balance and an offset balance,
//! both as integer counts of the engine's emission unit. Offsetting moves
//! mass from the outstanding side to the offset side and never creates or
//! destroys it.

use vstd::prelude::*;

verus! {

/// A node with its outstanding (`total_emissions`) and already-offset
/// (`offset_emissions`) carbon balances.
#[derive(Debug)]
pub struct Node {
    pub name: String,
    pub total_emissions: u64,
    pub offset_emissions: u64,
}

/// A client: a named grouping of nodes.
#[derive(Debug)]
pub struct Client {
    pub client: String,
    pub nodes: Vec<Node>,
}

impl Node {
    /// The two balances together must fit the machine word, so that moving
    /// mass between them can never overflow.
    pub open spec fn wf(self) -> bool {
        self.total_emissions + self.offset_emissions <= u64::MAX
    }

    /// The conserved quantity of an allocation pass.
    pub open spec fn mass(self) -> int {
        self.total_emissions + self.offset_emissions
    }
}

/// What a budget can consume at one node: the smaller of the budget and the
/// node's outstanding balance.
pub open spec fn spec_applied(n: Node, budget: u64) -> int {
    if budget <= n.total_emissions {
        budget as int
    } else {
        n.total_emissions as int
    }
}

/// One min-consume step: move `spec_applied` from outstanding to offset.
pub open spec fn spec_offset_node(n: Node, budget: u64) -> Node {
    Node {
        name: n.name,
        total_emissions: (n.total_emissions - spec_applied(n, budget)) as u64,
        offset_emissions: (n.offset_emissions + spec_applied(n, budget)) as u64,
    }
}

/// The min-consume step conserves a node's mass.
pub proof fn lemma_offset_node_conserves_mass(n: Node, budget: u64)
    requires
        n.wf(),
    ensures
        spec_offset_node(n, budget).mass() == n.mass(),
        spec_offset_node(n, budget).wf(),
{
}

/// Apply `budget` to one node and report how much was consumed.
pub fn apply_offset(node: &mut Node, budget: u64) -> (applied: u64)
    requires
        old(node).wf(),
    ensures
        *final(node) == spec_offset_node(*old(node), budget),
        applied == spec_applied(*old(node), budget),
        final(node).wf(),
        final(node).mass() == old(node).mass(),
{
    let applied = if budget <= node.total_emissions {
        budget
    } else {
        node.total_emissions
    };
    node.total_emissions = node.total_emissions - applied;
    node.offset_emissions = node.offset_emissions + applied;
    applied
}

/// An exact copy of a node.
pub fn clone_node(n: &Node) -> (r: Node)
    ensures
        r == *n,
{
    Node {
        name: n.name.clone(),
        total_emissions: n.total_emissions,
        offset_emissions: n.offset_emissions,
    }
}

/// Every node of the sequence is well formed.
pub open spec fn all_wf(s: Seq<Node>) -> bool {
    forall|i: int| 0 <= i < s.len() ==> #[trigger] s[i].wf()
}

/// The sequence is sorted by outstanding emissions, highest first.
pub open spec fn sorted_desc(s: Seq<Node>) -> bool {
    forall|i: int, j: int|
        0 <= i <= j < s.len() ==> #[trigger] s[i].total_emissions >= #[trigger] s[j].total_emissions
}

/// Inserting an element anywhere adds exactly it to the multiset.
proof fn lemma_insert_to_multiset<A>(s: Seq<A>, i: int, x: A)
    requires
        0 <= i <= s.len(),
    ensures
        s.insert(i, x).to_multiset() =~= s.to_multiset().insert(x),
{
    broadcast use vstd::seq_lib::group_to_multiset_ensures;

    let t = s.insert(i, x);
    assert(t.remove(i) =~= s);
    assert(t[i] == x);
    assert(t.to_multiset().remove(x) =~= s.to_multiset());
    assert(t.to_multiset().count(x) > 0);
    assert forall|y: A| t.to_multiset().count(y) == s.to_multiset().insert(x).count(y) by {
        if y == x {
            assert(t.to_multiset().remove(x).count(x) == t.to_multiset().count(x) - 1);
        } else {
            assert(t.to_multiset().remove(x).count(y) == t.to_multiset().count(y));
        }
    }
}

/// Sort nodes by outstanding emissions, highest first. The result holds
/// exactly the given nodes.
pub fn sorted_nodes_desc(nodes: Vec<Node>) -> (r: Vec<Node>)
    ensures
        sorted_desc(r@),
        r@.to_multiset() == nodes@.to_multiset(),
        all_wf(nodes@) ==> all_wf(r@),
{
    broadcast use vstd::seq_lib::group_to_multiset_ensures;

    let ghost orig = nodes@;
    let mut input = nodes;
    let mut out: Vec<Node> = Vec::new();
    while input.len() > 0
        invariant
            sorted_desc(out@),
            out@.to_multiset().add(input@.to_multiset()) =~= orig.to_multiset(),
            all_wf(orig) ==> all_wf(out@) && all_wf(input@),
        decreases input@.len(),
    {
        let ghost pre_input = input@;
        let x = input.pop().unwrap();
        proof {
            broadcast use vstd::multiset::group_multiset_axioms;
            broadcast use vstd::seq_lib::group_to_multiset_ensures;

            assert(pre_input.remove(pre_input.len() - 1) =~= input@);
            assert(pre_input.remove(pre_input.len() - 1).to_multiset()
                =~= pre_input.to_multiset().remove(x));
            assert(forall|i: int| 0 <= i < input@.len() ==> input@[i] == pre_input[i]);
        }
        let mut j: usize = 0;
        while j < out.len() && out[j].total_emissions >= x.total_emissions
            invariant
                j <= out@.len(),
                forall|k: int| 0 <= k < j ==> #[trigger] out@[k].total_emissions >= x.total_emissions,
            decreases out@.len() - j,
        {
            j = j + 1;
        }
        let ghost pre_out = out@;
        out.insert(j, x);
        proof {
            broadcast use vstd::multiset::group_multiset_axioms;
            broadcast use vstd::seq_lib::group_to_multiset_ensures;

            lemma_insert_to_multiset(pre_out, j as int, x);
            assert(sorted_desc(out@)) by {
                assert(forall|k: int| 0 <= k < j ==> out@[k] == pre_out[k]);
                assert(forall|k: int| j < k < out@.len() ==> out@[k] == pre_out[k - 1]);
                assert(out@[j as int] == x);
            }
            assert(pre_input.to_multiset().count(x) > 0) by {
                assert(pre_input[pre_input.len() - 1] == x);
                assert(pre_input.contains(x));
            }
            assert(out@.to_multiset().add(input@.to_multiset()) =~= orig.to_multiset()) by {
                assert(forall|y: Node|
                    #[trigger] out@.to_multiset().add(input@.to_multiset()).count(y)
                        == pre_out.to_multiset().add(pre_input.to_multiset()).count(y));
            }
        }
    }
    proof {
        assert(input@.to_multiset().len() == 0);
        assert(out@.to_multiset().add(input@.to_multiset()) =~= out@.to_multiset());
    }
    out
}

} // verus!
