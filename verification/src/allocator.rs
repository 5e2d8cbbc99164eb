//! Offset allocation across nodes.
//!
//! An offset budget is spent against nodes' outstanding balances under three
//! mutually exclusive policies:
//!
//! - **Targeted**: the caller names one node; it absorbs at most the budget,
//!   and any excess is dropped, not redistributed.
//! - **Client-scoped**: the client's own nodes are walked in their given
//!   order and each absorbs up to the *full* budget independently; the
//!   budget is not decremented across nodes. This mirrors the source policy
//!   literally; see the design notes in the crate documentation.
//! - **Unscoped**: with no client nodes, the whole network's list is
//!   filtered to positive outstanding balances, ranked by outstanding
//!   balance descending, and consumed greedily, decrementing the budget
//!   until it is exhausted.
//!
//! Every pass conserves each node's mass (outstanding plus offset).

use vstd::prelude::*;
use crate::node::{
    Node, Client, all_wf, sorted_desc, sorted_nodes_desc, spec_applied, spec_offset_node,
    apply_offset, clone_node,
};
use crate::registry::{NodeRegistry, spec_upsert, has_name};
use crate::text::{seq_has_string, vec_contains_string};

verus! {

/// How an allocation call ended.
#[derive(Clone, Copy, Debug, PartialEq, Eq, Structural)]
pub enum OffsetOutcome {
    /// The budget was zero: nothing was touched.
    ZeroBudget,
    /// A node was targeted but every client node has zero outstanding
    /// emissions: nothing was touched.
    AllZeroOutstanding,
    /// A targeted or client-scoped pass ran.
    Applied,
    /// The client owns no nodes: the caller must fetch the network's node
    /// list and run the unscoped pass.
    NoNodes,
}

/// Every node of the sequence has zero outstanding emissions.
pub open spec fn all_zero_outstanding(s: Seq<Node>) -> bool {
    forall|i: int| 0 <= i < s.len() ==> #[trigger] s[i].total_emissions == 0
}

/// The least index bearing this name (meaningful when `has_name` holds).
pub open spec fn first_name_index(s: Seq<Node>, name: Seq<char>) -> int {
    choose|i: int|
        0 <= i < s.len() && s[i].name@ == name && (forall|k: int|
            0 <= k < i ==> #[trigger] s[k].name@ != name)
}

/// The client-scoped pass: every node absorbs up to the full budget,
/// independently of the others.
pub open spec fn client_pass(s: Seq<Node>, budget: u64) -> Seq<Node> {
    Seq::new(s.len(), |i: int| spec_offset_node(s[i], budget))
}

/// The greedy unscoped pass: walk the list in order, consume the smaller of
/// the remaining budget and the node's outstanding balance, and decrement
/// the budget by what was consumed.
pub open spec fn greedy_pass(s: Seq<Node>, budget: u64) -> Seq<Node>
    decreases s.len(),
{
    if s.len() == 0 {
        s
    } else {
        seq![spec_offset_node(s[0], budget)]
            + greedy_pass(s.drop_first(), (budget - spec_applied(s[0], budget)) as u64)
    }
}

/// Merge a whole sequence of nodes into a registry, first one first.
pub open spec fn upsert_all(reg: Seq<Node>, ns: Seq<Node>) -> Seq<Node>
    decreases ns.len(),
{
    if ns.len() == 0 {
        reg
    } else {
        upsert_all(spec_upsert(reg, ns[0]), ns.drop_first())
    }
}

pub proof fn lemma_upsert_all_push(reg: Seq<Node>, ns: Seq<Node>, n: Node)
    ensures
        upsert_all(reg, ns.push(n)) == spec_upsert(upsert_all(reg, ns), n),
    decreases ns.len(),
{
    if ns.len() == 0 {
        assert(ns.push(n).drop_first() =~= ns);
        assert(ns.push(n)[0] == n);
        assert(upsert_all(reg, ns.push(n)) == upsert_all(spec_upsert(reg, n), ns));
        assert(upsert_all(spec_upsert(reg, n), ns) == spec_upsert(reg, n));
        assert(upsert_all(reg, ns) == reg);
    } else {
        assert(ns.push(n).drop_first() =~= ns.drop_first().push(n));
        assert(ns.push(n)[0] == ns[0]);
        assert(upsert_all(reg, ns.push(n)) == upsert_all(
            spec_upsert(reg, ns[0]),
            ns.drop_first().push(n),
        ));
        lemma_upsert_all_push(spec_upsert(reg, ns[0]), ns.drop_first(), n);
        assert(upsert_all(reg, ns) == upsert_all(spec_upsert(reg, ns[0]), ns.drop_first()));
    }
}

/// The sum of outstanding balances.
pub open spec fn sum_outstanding(s: Seq<Node>) -> int
    decreases s.len(),
{
    if s.len() == 0 {
        0
    } else {
        s[0].total_emissions + sum_outstanding(s.drop_first())
    }
}

/// The sum of node masses (outstanding plus offset).
pub open spec fn sum_mass(s: Seq<Node>) -> int
    decreases s.len(),
{
    if s.len() == 0 {
        0
    } else {
        s[0].mass() + sum_mass(s.drop_first())
    }
}

pub proof fn lemma_sum_outstanding_nonneg(s: Seq<Node>)
    ensures
        sum_outstanding(s) >= 0,
    decreases s.len(),
{
    if s.len() > 0 {
        lemma_sum_outstanding_nonneg(s.drop_first());
    }
}

/// A zero budget leaves every node of a greedy pass unchanged.
pub proof fn lemma_greedy_zero(s: Seq<Node>)
    ensures
        greedy_pass(s, 0) =~= s,
    decreases s.len(),
{
    if s.len() > 0 {
        lemma_greedy_zero(s.drop_first());
    }
}

/// Law of the greedy pass: mass is conserved node for node, and the total
/// outstanding balance falls by exactly the smaller of the budget and the
/// total outstanding balance — nothing is created, destroyed, or left
/// unspent while a node could still absorb it.
pub proof fn lemma_greedy_pass_conserves(s: Seq<Node>, budget: u64)
    requires
        all_wf(s),
    ensures
        greedy_pass(s, budget).len() == s.len(),
        all_wf(greedy_pass(s, budget)),
        forall|i: int| 0 <= i < s.len()
            ==> #[trigger] greedy_pass(s, budget)[i].mass() == s[i].mass()
                && greedy_pass(s, budget)[i].name@ == s[i].name@,
        sum_mass(greedy_pass(s, budget)) == sum_mass(s),
        sum_outstanding(greedy_pass(s, budget)) == sum_outstanding(s) - (
            if budget <= sum_outstanding(s) { budget as int } else { sum_outstanding(s) }
        ),
    decreases s.len(),
{
    lemma_sum_outstanding_nonneg(s);
    if s.len() > 0 {
        let rest = s.drop_first();
        let left = (budget - spec_applied(s[0], budget)) as u64;
        assert forall|i: int| 0 <= i < rest.len() implies #[trigger] rest[i].wf() by {
            assert(rest[i] == s[i + 1]);
            assert(s[i + 1].wf());
        }
        lemma_greedy_pass_conserves(rest, left);
        lemma_sum_outstanding_nonneg(rest);
        let g = greedy_pass(s, budget);
        let gr = greedy_pass(rest, left);
        assert(g == seq![spec_offset_node(s[0], budget)] + gr);
        assert(g[0] == spec_offset_node(s[0], budget));
        assert(g.drop_first() =~= gr);
        assert forall|i: int| 0 <= i < s.len() implies #[trigger] g[i].mass() == s[i].mass()
            && g[i].name@ == s[i].name@ by {
            if i == 0 {
                assert(s[0].wf());
                assert(g[0] == spec_offset_node(s[0], budget));
            } else {
                assert(g[i] == gr[i - 1]);
                assert(rest[i - 1] == s[i]);
                assert(0 <= i - 1 < rest.len());
                assert(greedy_pass(rest, left)[i - 1].mass() == rest[i - 1].mass()
                    && greedy_pass(rest, left)[i - 1].name@ == rest[i - 1].name@);
            }
        }
        assert forall|i: int| 0 <= i < g.len() implies #[trigger] g[i].wf() by {
            if i == 0 {
                assert(s[0].wf());
            } else {
                assert(g[i] == gr[i - 1]);
                assert(gr[i - 1].wf());
            }
        }
        assert(sum_mass(g) == g[0].mass() + sum_mass(g.drop_first()));
        assert(sum_mass(g.drop_first()) == sum_mass(gr));
        assert(sum_mass(s) == s[0].mass() + sum_mass(rest));
        assert(sum_outstanding(g) == g[0].total_emissions + sum_outstanding(g.drop_first()));
        assert(sum_outstanding(g.drop_first()) == sum_outstanding(gr));
        assert(sum_outstanding(s) == s[0].total_emissions + sum_outstanding(rest));
    }
}

/// Law of the client-scoped pass: mass is conserved node for node, and each
/// node's new outstanding balance is its old balance less the smaller of the
/// budget and that balance.
pub proof fn lemma_client_pass_conserves(s: Seq<Node>, budget: u64)
    requires
        all_wf(s),
    ensures
        client_pass(s, budget).len() == s.len(),
        all_wf(client_pass(s, budget)),
        forall|i: int| 0 <= i < s.len()
            ==> #[trigger] client_pass(s, budget)[i].mass() == s[i].mass()
                && client_pass(s, budget)[i].name@ == s[i].name@
                && client_pass(s, budget)[i].total_emissions
                    == s[i].total_emissions - spec_applied(s[i], budget),
        sum_mass(client_pass(s, budget)) == sum_mass(s),
    decreases s.len(),
{
    let cp = client_pass(s, budget);
    assert forall|i: int| 0 <= i < s.len() implies #[trigger] cp[i].mass() == s[i].mass()
        && cp[i].name@ == s[i].name@
        && cp[i].total_emissions == s[i].total_emissions - spec_applied(s[i], budget) by {
        assert(cp[i] == spec_offset_node(s[i], budget));
        assert(s[i].wf());
    }
    assert forall|i: int| 0 <= i < cp.len() implies #[trigger] cp[i].wf() by {
        assert(cp[i] == spec_offset_node(s[i], budget));
        assert(s[i].wf());
    }
    if s.len() > 0 {
        let rest = s.drop_first();
        assert forall|i: int| 0 <= i < rest.len() implies #[trigger] rest[i].wf() by {
            assert(rest[i] == s[i + 1]);
            assert(s[i + 1].wf());
        }
        lemma_client_pass_conserves(rest, budget);
        assert(cp.drop_first() =~= client_pass(rest, budget));
        assert(sum_mass(cp) == cp[0].mass() + sum_mass(cp.drop_first()));
        assert(sum_mass(cp.drop_first()) == sum_mass(client_pass(rest, budget)));
        assert(sum_mass(s) == s[0].mass() + sum_mass(rest));
    }
}

/// Whether every node of the client has a zero outstanding balance.
fn all_outstanding_zero(nodes: &Vec<Node>) -> (r: bool)
    ensures
        r == all_zero_outstanding(nodes@),
{
    let mut i: usize = 0;
    while i < nodes.len()
        invariant
            i <= nodes@.len(),
            forall|k: int| 0 <= k < i ==> #[trigger] nodes@[k].total_emissions == 0,
        decreases nodes@.len() - i,
    {
        if nodes[i].total_emissions != 0 {
            return false;
        }
        i = i + 1;
    }
    true
}

/// The least index of a client node with this name, if any.
fn find_first_named(nodes: &Vec<Node>, name: &String) -> (r: Option<usize>)
    ensures
        match r {
            Some(i) => i < nodes@.len() && nodes@[i as int].name@ == name@
                && has_name(nodes@, name@) && first_name_index(nodes@, name@) == i,
            None => !has_name(nodes@, name@),
        },
{
    let mut i: usize = 0;
    while i < nodes.len()
        invariant
            i <= nodes@.len(),
            forall|k: int| 0 <= k < i ==> #[trigger] nodes@[k].name@ != name@,
        decreases nodes@.len() - i,
    {
        if nodes[i].name == *name {
            proof {
                let c = first_name_index(nodes@, name@);
                assert(0 <= c < nodes@.len() && nodes@[c].name@ == name@ && (forall|k: int|
                    0 <= k < c ==> #[trigger] nodes@[k].name@ != name@));
                if c < i {
                    assert(nodes@[c].name@ != name@);
                }
                if c > i {
                    assert(nodes@[i as int].name@ != name@);
                }
            }
            return Some(i);
        }
        i = i + 1;
    }
    None
}

/// Offset emissions for a client under the targeted or client-scoped policy.
///
/// With a zero budget nothing is touched. With a target name, the first
/// client node of that name absorbs at most the budget and the rest of the
/// budget is dropped; with no target the client's nodes each absorb up to
/// the full budget independently. Every mutated node is merged into the
/// registry. With no target and no client nodes, nothing is touched and the
/// caller is told to run the unscoped pass instead.
pub fn offset_emissions(
    client: &mut Client,
    registry: &mut NodeRegistry,
    offset: u64,
    node_name: Option<String>,
) -> (outcome: OffsetOutcome)
    requires
        all_wf(old(client).nodes@),
        old(registry).wf(),
    ensures
        all_wf(final(client).nodes@),
        final(registry).wf(),
        final(client).client@ == old(client).client@,
        offset == 0 ==> *final(client) == *old(client) && *final(registry) == *old(registry)
            && outcome == OffsetOutcome::ZeroBudget,
        offset != 0 && node_name is Some ==> {
            let name = node_name->0@;
            if all_zero_outstanding(old(client).nodes@) {
                *final(client) == *old(client) && *final(registry) == *old(registry)
                    && outcome == OffsetOutcome::AllZeroOutstanding
            } else if has_name(old(client).nodes@, name) {
                let i = first_name_index(old(client).nodes@, name);
                let changed = spec_offset_node(old(client).nodes@[i], offset);
                final(client).nodes@ == old(client).nodes@.update(i, changed)
                    && final(registry).nodes@ == spec_upsert(old(registry).nodes@, changed)
                    && outcome == OffsetOutcome::Applied
            } else {
                *final(client) == *old(client) && *final(registry) == *old(registry)
                    && outcome == OffsetOutcome::Applied
            }
        },
        offset != 0 && node_name is None && old(client).nodes@.len() > 0 ==> {
            final(client).nodes@ == client_pass(old(client).nodes@, offset)
                && final(registry).nodes@ == upsert_all(
                old(registry).nodes@,
                client_pass(old(client).nodes@, offset),
            ) && outcome == OffsetOutcome::Applied
        },
        offset != 0 && node_name is None && old(client).nodes@.len() == 0 ==> {
            *final(client) == *old(client) && *final(registry) == *old(registry)
                && outcome == OffsetOutcome::NoNodes
        },
{
    if offset == 0 {
        return OffsetOutcome::ZeroBudget;
    }
    match node_name {
        Some(name) => {
            if all_outstanding_zero(&client.nodes) {
                return OffsetOutcome::AllZeroOutstanding;
            }
            match find_first_named(&client.nodes, &name) {
                Some(i) => {
                    apply_offset(&mut client.nodes[i], offset);
                    registry.upsert(&client.nodes[i]);
                    proof {
                        let ii = i as int;
                        let changed = spec_offset_node(old(client).nodes@[ii], offset);
                        assert(client.nodes@ == old(client).nodes@.update(ii, changed));
                        assert forall|k: int| 0 <= k < client.nodes@.len()
                            implies #[trigger] client.nodes@[k].wf() by {
                            if k != ii {
                                assert(client.nodes@[k] == old(client).nodes@[k]);
                                assert(old(client).nodes@[k].wf());
                            }
                        }
                        assert(client.client == old(client).client);
                    }
                }
                None => {}
            }
            proof {
                assert(client.client@ == old(client).client@);
            }
            OffsetOutcome::Applied
        }
        None => {
            if client.nodes.len() == 0 {
                return OffsetOutcome::NoNodes;
            }
            let ghost orig = client.nodes@;
            let ghost reg0 = registry.nodes@;
            let mut i: usize = 0;
            while i < client.nodes.len()
                invariant
                    client.client == old(client).client,
                    i <= client.nodes@.len(),
                    client.nodes@.len() == orig.len(),
                    all_wf(orig),
                    registry.wf(),
                    forall|k: int| 0 <= k < i
                        ==> client.nodes@[k] == #[trigger] client_pass(orig, offset)[k],
                    forall|k: int| i <= k < orig.len() ==> #[trigger] client.nodes@[k] == orig[k],
                    registry.nodes@ == upsert_all(reg0, client_pass(orig, offset).subrange(0, i as int)),
                decreases orig.len() - i,
            {
                let ghost pre = client.nodes@;
                apply_offset(&mut client.nodes[i], offset);
                registry.upsert(&client.nodes[i]);
                proof {
                    let pass = client_pass(orig, offset);
                    assert(client.nodes@[i as int] == pass[i as int]);
                    assert(pass.subrange(0, i + 1) =~= pass.subrange(0, i as int).push(pass[i as int]));
                    lemma_upsert_all_push(reg0, pass.subrange(0, i as int), pass[i as int]);
                }
                i = i + 1;
            }
            proof {
                assert(client.nodes@ =~= client_pass(orig, offset));
                assert(client_pass(orig, offset).subrange(0, orig.len() as int)
                    =~= client_pass(orig, offset));
                lemma_client_pass_conserves(orig, offset);
            }
            OffsetOutcome::Applied
        }
    }
}

/// The nodes whose names are among the client's listed node identifiers.
pub open spec fn named_in(node_ids: Seq<String>) -> spec_fn(Node) -> bool {
    |n: Node| seq_has_string(node_ids, n.name@)
}

/// Keep only the network nodes that belong to the client: those whose names
/// are among its listed node identifiers, in network order.
pub fn filter_client_nodes(all_nodes: Vec<Node>, node_ids: &Vec<String>) -> (r: Vec<Node>)
    requires
        all_wf(all_nodes@),
    ensures
        r@ == all_nodes@.filter(named_in(node_ids@)),
        all_wf(r@),
{
    let mut out: Vec<Node> = Vec::new();
    let mut i: usize = 0;
    while i < all_nodes.len()
        invariant
            i <= all_nodes@.len(),
            all_wf(all_nodes@),
            all_wf(out@),
            out@ == all_nodes@.subrange(0, i as int).filter(named_in(node_ids@)),
        decreases all_nodes@.len() - i,
    {
        let ghost pre = all_nodes@.subrange(0, i as int);
        let ghost pre_out = out@;
        if vec_contains_string(node_ids, &all_nodes[i].name) {
            out.push(clone_node(&all_nodes[i]));
            proof {
                assert forall|k: int| 0 <= k < out@.len() implies #[trigger] out@[k].wf() by {
                    if k < pre_out.len() {
                        assert(out@[k] == pre_out[k]);
                        assert(pre_out[k].wf());
                    } else {
                        assert(out@[k] == all_nodes@[i as int]);
                    }
                }
            }
        }
        proof {
            reveal(Seq::filter);
            assert(all_nodes@.subrange(0, i + 1).drop_last() =~= pre);
            assert(all_nodes@.subrange(0, i + 1).last() == all_nodes@[i as int]);
        }
        i = i + 1;
    }
    proof {
        assert(all_nodes@.subrange(0, all_nodes@.len() as int) =~= all_nodes@);
    }
    out
}

/// Filter the network's nodes to those with a positive outstanding balance
/// and rank them by outstanding balance, highest first.
pub fn select_random_nodes(all_nodes: Vec<Node>) -> (r: Vec<Node>)
    requires
        all_wf(all_nodes@),
    ensures
        sorted_desc(r@),
        r@.to_multiset() == all_nodes@.filter(|n: Node| n.total_emissions > 0).to_multiset(),
        all_wf(r@),
{
    let mut kept: Vec<Node> = Vec::new();
    let mut i: usize = 0;
    while i < all_nodes.len()
        invariant
            i <= all_nodes@.len(),
            all_wf(all_nodes@),
            all_wf(kept@),
            kept@ == all_nodes@.subrange(0, i as int).filter(|n: Node| n.total_emissions > 0),
        decreases all_nodes@.len() - i,
    {
        let ghost pre = all_nodes@.subrange(0, i as int);
        let ghost pre_kept = kept@;
        if all_nodes[i].total_emissions > 0 {
            kept.push(clone_node(&all_nodes[i]));
            proof {
                assert forall|k: int| 0 <= k < kept@.len() implies #[trigger] kept@[k].wf() by {
                    if k < pre_kept.len() {
                        assert(kept@[k] == pre_kept[k]);
                        assert(pre_kept[k].wf());
                    } else {
                        assert(kept@[k] == all_nodes@[i as int]);
                    }
                }
            }
        }
        proof {
            reveal(Seq::filter);
            assert(all_nodes@.subrange(0, i + 1).drop_last() =~= pre);
            assert(all_nodes@.subrange(0, i + 1).last() == all_nodes@[i as int]);
        }
        i = i + 1;
    }
    proof {
        assert(all_nodes@.subrange(0, all_nodes@.len() as int) =~= all_nodes@);
    }
    sorted_nodes_desc(kept)
}

/// Consume the budget greedily along the given node order, in place.
pub fn offset_nodes_greedy(nodes: &mut Vec<Node>, offset: u64)
    requires
        all_wf(old(nodes)@),
    ensures
        final(nodes)@ == greedy_pass(old(nodes)@, offset),
        all_wf(final(nodes)@),
{
    let ghost orig = nodes@;
    let mut remaining = offset;
    let mut i: usize = 0;
    proof {
        assert(nodes@.subrange(0, 0) =~= Seq::<Node>::empty());
        assert(orig.subrange(0, orig.len() as int) =~= orig);
        assert(Seq::<Node>::empty() + greedy_pass(orig, offset) =~= greedy_pass(orig, offset));
    }
    while i < nodes.len()
        invariant
            orig == old(nodes)@,
            i <= nodes@.len(),
            nodes@.len() == orig.len(),
            all_wf(nodes@),
            forall|k: int| i <= k < orig.len() ==> #[trigger] nodes@[k] == orig[k],
            greedy_pass(orig, offset) == nodes@.subrange(0, i as int)
                + greedy_pass(orig.subrange(i as int, orig.len() as int), remaining),
        decreases orig.len() - i,
    {
        if remaining == 0 {
            proof {
                lemma_greedy_zero(orig.subrange(i as int, orig.len() as int));
                assert(nodes@.subrange(0, i as int)
                    + orig.subrange(i as int, orig.len() as int) =~= nodes@);
            }
            return;
        }
        let ghost pre = nodes@;
        let ghost suffix = orig.subrange(i as int, orig.len() as int);
        let applied = apply_offset(&mut nodes[i], remaining);
        proof {
            assert(suffix[0] == orig[i as int]);
            assert(suffix.drop_first() =~= orig.subrange(i + 1, orig.len() as int));
            assert(greedy_pass(suffix, remaining) == seq![spec_offset_node(orig[i as int], remaining)]
                + greedy_pass(orig.subrange(i + 1, orig.len() as int), (remaining - spec_applied(
                orig[i as int],
                remaining,
            )) as u64));
            assert(nodes@.subrange(0, i + 1) =~= pre.subrange(0, i as int).push(
                spec_offset_node(orig[i as int], remaining),
            ));
            assert(nodes@.subrange(0, i as int) =~= pre.subrange(0, i as int));
            assert(nodes@.subrange(0, i + 1)
                + greedy_pass(orig.subrange(i + 1, orig.len() as int), (remaining - applied) as u64)
                =~= pre.subrange(0, i as int) + greedy_pass(suffix, remaining));
        }
        remaining = remaining - applied;
        i = i + 1;
    }
    proof {
        lemma_greedy_zero(orig.subrange(orig.len() as int, orig.len() as int));
        assert(orig.subrange(orig.len() as int, orig.len() as int).len() == 0);
        assert(nodes@.subrange(0, orig.len() as int) =~= nodes@);
        assert(nodes@ + greedy_pass(orig.subrange(orig.len() as int, orig.len() as int), remaining)
            =~= nodes@);
    }
}

/// Rank the given nodes by outstanding balance, highest first, then consume
/// the budget greedily along that order. The result holds the same nodes:
/// mass is conserved and the total outstanding balance falls by exactly the
/// smaller of the budget and the total outstanding balance.
pub fn offset_from_nodes(nodes: Vec<Node>, offset: u64) -> (r: Vec<Node>)
    requires
        all_wf(nodes@),
    ensures
        all_wf(r@),
        exists|s: Seq<Node>|
            sorted_desc(s) && s.to_multiset() == nodes@.to_multiset() && r@ == #[trigger] greedy_pass(
                s,
                offset,
            ),
{
    let mut sorted = sorted_nodes_desc(nodes);
    let ghost s = sorted@;
    offset_nodes_greedy(&mut sorted, offset);
    proof {
        assert(sorted_desc(s) && s.to_multiset() == nodes@.to_multiset() && sorted@
            == greedy_pass(s, offset));
    }
    sorted
}

/// The unscoped, network-wide pass: filter and rank the network's nodes,
/// consume the budget greedily, and merge every ranked node's new balances
/// into the registry.
pub fn offset_unscoped(
    all_nodes: Vec<Node>,
    registry: &mut NodeRegistry,
    offset: u64,
) -> (r: Vec<Node>)
    requires
        all_wf(all_nodes@),
        old(registry).wf(),
    ensures
        all_wf(r@),
        final(registry).wf(),
        exists|s: Seq<Node>|
            sorted_desc(s) && s.to_multiset() == all_nodes@.filter(
                |n: Node| n.total_emissions > 0,
            ).to_multiset() && r@ == #[trigger] greedy_pass(s, offset) && final(registry).nodes@
                == upsert_all(old(registry).nodes@, greedy_pass(s, offset)),
{
    let mut ranked = select_random_nodes(all_nodes);
    let ghost s = ranked@;
    offset_nodes_greedy(&mut ranked, offset);
    let ghost reg0 = registry.nodes@;
    let mut i: usize = 0;
    while i < ranked.len()
        invariant
            i <= ranked@.len(),
            all_wf(ranked@),
            registry.wf(),
            registry.nodes@ == upsert_all(reg0, ranked@.subrange(0, i as int)),
        decreases ranked@.len() - i,
    {
        registry.upsert(&ranked[i]);
        proof {
            assert(ranked@.subrange(0, i + 1) =~= ranked@.subrange(0, i as int).push(
                ranked@[i as int],
            ));
            lemma_upsert_all_push(reg0, ranked@.subrange(0, i as int), ranked@[i as int]);
        }
        i = i + 1;
    }
    proof {
        assert(ranked@.subrange(0, ranked@.len() as int) =~= ranked@);
        assert(sorted_desc(s) && s.to_multiset() == all_nodes@.filter(
            |n: Node| n.total_emissions > 0,
        ).to_multiset() && ranked@ == greedy_pass(s, offset));
    }
    ranked
}

} // verus!
