use emissions_engine::allocator::{
    filter_client_nodes, offset_emissions, offset_from_nodes, offset_unscoped,
    select_random_nodes, OffsetOutcome,
};
use emissions_engine::node::{Client, Node};
use emissions_engine::registry::NodeRegistry;

fn node(name: &str, total: u64, offset: u64) -> Node {
    Node { name: name.to_string(), total_emissions: total, offset_emissions: offset }
}

#[test]
fn targeted_allocation_drops_the_excess() {
    let mut client = Client { client: "acme".to_string(), nodes: vec![node("n1", 100, 0)] };
    let mut registry = NodeRegistry::new();
    let outcome = offset_emissions(&mut client, &mut registry, 150, Some("n1".to_string()));
    assert_eq!(outcome, OffsetOutcome::Applied);
    assert_eq!(client.nodes[0].total_emissions, 0);
    assert_eq!(client.nodes[0].offset_emissions, 100);
    // the remaining 50 went nowhere
    assert_eq!(registry.nodes.len(), 1);
    assert_eq!(registry.nodes[0].total_emissions, 0);
    assert_eq!(registry.nodes[0].offset_emissions, 100);
}

#[test]
fn targeted_allocation_with_all_zero_outstanding_is_a_no_op() {
    let mut client = Client {
        client: "acme".to_string(),
        nodes: vec![node("n1", 0, 5), node("n2", 0, 0)],
    };
    let mut registry = NodeRegistry::new();
    let outcome = offset_emissions(&mut client, &mut registry, 10, Some("n1".to_string()));
    assert_eq!(outcome, OffsetOutcome::AllZeroOutstanding);
    assert_eq!(client.nodes[0].offset_emissions, 5);
    assert_eq!(registry.nodes.len(), 0);
}

#[test]
fn zero_budget_is_a_no_op() {
    let mut client = Client { client: "acme".to_string(), nodes: vec![node("n1", 100, 0)] };
    let mut registry = NodeRegistry::new();
    let outcome = offset_emissions(&mut client, &mut registry, 0, None);
    assert_eq!(outcome, OffsetOutcome::ZeroBudget);
    assert_eq!(client.nodes[0].total_emissions, 100);
}

#[test]
fn client_scoped_pass_applies_the_full_budget_to_each_node() {
    let mut client = Client {
        client: "acme".to_string(),
        nodes: vec![node("n1", 100, 0), node("n2", 30, 0)],
    };
    let mut registry = NodeRegistry::new();
    let outcome = offset_emissions(&mut client, &mut registry, 40, None);
    assert_eq!(outcome, OffsetOutcome::Applied);
    // each node absorbed up to the full 40, independently
    assert_eq!(client.nodes[0].total_emissions, 60);
    assert_eq!(client.nodes[0].offset_emissions, 40);
    assert_eq!(client.nodes[1].total_emissions, 0);
    assert_eq!(client.nodes[1].offset_emissions, 30);
    assert_eq!(registry.nodes.len(), 2);
}

#[test]
fn client_without_nodes_is_sent_to_the_unscoped_pass() {
    let mut client = Client { client: "acme".to_string(), nodes: vec![] };
    let mut registry = NodeRegistry::new();
    let outcome = offset_emissions(&mut client, &mut registry, 40, None);
    assert_eq!(outcome, OffsetOutcome::NoNodes);
}

#[test]
fn network_wide_allocation_is_greedy_and_consumes_the_budget() {
    let nodes = vec![node("A", 50, 0), node("B", 30, 0), node("C", 10, 0)];
    let r = offset_from_nodes(nodes, 60);
    assert_eq!(r.len(), 3);
    assert_eq!(r[0].name, "A");
    assert_eq!(r[0].total_emissions, 0);
    assert_eq!(r[0].offset_emissions, 50);
    assert_eq!(r[1].name, "B");
    assert_eq!(r[1].total_emissions, 20);
    assert_eq!(r[1].offset_emissions, 10);
    assert_eq!(r[2].name, "C");
    assert_eq!(r[2].total_emissions, 10);
    assert_eq!(r[2].offset_emissions, 0);
    let consumed: u64 = r.iter().map(|n| n.offset_emissions).sum();
    assert_eq!(consumed, 60);
    let mass: u64 = r.iter().map(|n| n.total_emissions + n.offset_emissions).sum();
    assert_eq!(mass, 90);
}

#[test]
fn offset_from_nodes_sorts_descending_before_consuming() {
    // given out of order, the largest node is still served first
    let nodes = vec![node("C", 10, 0), node("A", 50, 0), node("B", 30, 0)];
    let r = offset_from_nodes(nodes, 55);
    assert_eq!(r[0].name, "A");
    assert_eq!(r[0].total_emissions, 0);
    assert_eq!(r[1].name, "B");
    assert_eq!(r[1].total_emissions, 25);
    assert_eq!(r[2].name, "C");
    assert_eq!(r[2].total_emissions, 10);
}

#[test]
fn select_random_nodes_filters_and_ranks() {
    let nodes = vec![node("a", 0, 3), node("b", 7, 0), node("c", 12, 0), node("d", 0, 0)];
    let r = select_random_nodes(nodes);
    assert_eq!(r.len(), 2);
    assert_eq!(r[0].name, "c");
    assert_eq!(r[1].name, "b");
}

#[test]
fn unscoped_pass_persists_every_ranked_node() {
    let nodes = vec![node("A", 50, 0), node("B", 30, 0), node("C", 10, 0), node("zero", 0, 0)];
    let mut registry = NodeRegistry::new();
    let r = offset_unscoped(nodes, &mut registry, 60);
    assert_eq!(r.len(), 3);
    assert_eq!(registry.nodes.len(), 3);
    let a = registry.get_node_offset_emissions(&"A".to_string()).unwrap();
    assert_eq!(a.offset_emissions, 50);
    let c = registry.get_node_offset_emissions(&"C".to_string()).unwrap();
    assert_eq!(c.total_emissions, 10);
    assert_eq!(c.offset_emissions, 0);
    assert!(registry.get_node_offset_emissions(&"zero".to_string()).is_none());
}

#[test]
fn registry_upserts_update_in_place_and_insert_when_absent() {
    let mut registry = NodeRegistry::new();
    registry.upsert(&node("n1", 10, 0));
    registry.upsert(&node("n2", 20, 0));
    registry.upsert(&node("n1", 3, 7));
    assert_eq!(registry.nodes.len(), 2);
    let n1 = registry.get_node_offset_emissions(&"n1".to_string()).unwrap();
    assert_eq!(n1.total_emissions, 3);
    assert_eq!(n1.offset_emissions, 7);
}

#[test]
fn client_prefix_query_returns_matching_nodes_in_order() {
    let mut registry = NodeRegistry::new();
    registry.upsert(&node("acme-1", 1, 0));
    registry.upsert(&node("other", 2, 0));
    registry.upsert(&node("acme-2", 3, 0));
    let acme = registry.get_client_offset_emissions(&"acme".to_string());
    assert_eq!(acme.len(), 2);
    assert_eq!(acme[0].name, "acme-1");
    assert_eq!(acme[1].name, "acme-2");
    let all = registry.get_client_offset_emissions(&"".to_string());
    assert_eq!(all.len(), 3);
}

#[test]
fn filter_client_nodes_keeps_only_listed_names() {
    let nodes = vec![node("a", 1, 0), node("b", 2, 0), node("c", 3, 0)];
    let ids = vec!["c".to_string(), "a".to_string()];
    let r = filter_client_nodes(nodes, &ids);
    assert_eq!(r.len(), 2);
    assert_eq!(r[0].name, "a");
    assert_eq!(r[1].name, "c");
}

#[test]
fn targeted_allocation_serves_the_first_node_of_the_name() {
    let mut client = Client {
        client: "acme".to_string(),
        nodes: vec![node("n1", 10, 0), node("n1", 30, 0)],
    };
    let mut registry = NodeRegistry::new();
    let outcome = offset_emissions(&mut client, &mut registry, 25, Some("n1".to_string()));
    assert_eq!(outcome, OffsetOutcome::Applied);
    assert_eq!(client.nodes[0].total_emissions, 0);
    assert_eq!(client.nodes[0].offset_emissions, 10);
    assert_eq!(client.nodes[1].total_emissions, 30);
    assert_eq!(client.nodes[1].offset_emissions, 0);
}

#[test]
fn targeting_an_unknown_node_changes_nothing() {
    let mut client = Client { client: "acme".to_string(), nodes: vec![node("n1", 10, 0)] };
    let mut registry = NodeRegistry::new();
    let outcome = offset_emissions(&mut client, &mut registry, 25, Some("absent".to_string()));
    assert_eq!(outcome, OffsetOutcome::Applied);
    assert_eq!(client.nodes[0].total_emissions, 10);
    assert_eq!(registry.nodes.len(), 0);
}
