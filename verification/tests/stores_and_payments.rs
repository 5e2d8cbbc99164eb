use emissions_engine::auth::AuthSet;
use emissions_engine::escrow::EscrowStore;
use emissions_engine::payments::{
    contribution_target, get_price, validate_ticket_count, Payment, PaymentError, PaymentLedger,
    MAX_TICKET_COUNT,
};
use emissions_engine::store::KeyedStore;

#[test]
fn escrow_insert_once_first_succeeds_second_fails_unchanged() {
    let mut store = EscrowStore::new();
    assert!(store.add_node_escrow("node-1".to_string(), "alice".to_string()).is_ok());
    assert_eq!(store.get_node_escrow(&"node-1".to_string()), Ok("alice".to_string()));

    // the second insert for the same key fails and the stored value stays
    assert!(store.add_node_escrow("node-1".to_string(), "mallory".to_string()).is_err());
    assert_eq!(store.get_node_escrow(&"node-1".to_string()), Ok("alice".to_string()));

    assert_eq!(store.get_node_escrow(&"node-2".to_string()), Err(()));
    assert!(store.add_node_escrow("node-2".to_string(), "bob".to_string()).is_ok());
    assert_eq!(store.get_node_escrow(&"node-2".to_string()), Ok("bob".to_string()));
}

#[test]
fn keyed_store_insert_overwrites_and_keeps_other_keys() {
    let mut store: KeyedStore<u64> = KeyedStore::new();
    store.insert("a".to_string(), 1);
    store.insert("b".to_string(), 2);
    store.insert("a".to_string(), 10);
    assert_eq!(store.get(&"a".to_string()), Some(&10));
    assert_eq!(store.get(&"b".to_string()), Some(&2));
    assert_eq!(store.get(&"c".to_string()), None);
    assert_eq!(store.entries.len(), 2);
}

#[test]
fn empty_auth_set_admits_anyone_and_members_gate_afterwards() {
    let mut auth = AuthSet::new();
    let alice = "alice".to_string();
    let bob = "bob".to_string();
    let eve = "eve".to_string();
    assert!(auth.is_authorized(&eve));
    assert!(auth.authorize(&alice, alice.clone()).is_ok());
    assert!(auth.is_authorized(&alice));
    assert!(!auth.is_authorized(&eve));
    assert!(auth.authorize(&eve, eve.clone()).is_err());
    assert!(auth.authorize(&alice, bob.clone()).is_ok());
    assert!(auth.is_authorized(&bob));
    assert!(auth.deauthorize(&alice, &bob).is_ok());
    assert!(!auth.is_authorized(&bob));
    assert!(auth.deauthorize(&eve, &alice).is_err());
}

#[test]
fn ticket_count_validation_rejects_zero_and_oversized() {
    assert_eq!(validate_ticket_count(0), Err(PaymentError::InvalidTicketCount));
    assert_eq!(validate_ticket_count(MAX_TICKET_COUNT + 1), Err(PaymentError::TicketCountTooBig));
    assert!(validate_ticket_count(1).is_ok());
    assert!(validate_ticket_count(MAX_TICKET_COUNT).is_ok());
}

#[test]
fn price_is_count_times_ticket_price() {
    assert_eq!(get_price(3, 25), 75);
    assert_eq!(get_price(0, 25), 0);
}

fn payment(node_id: Option<&str>, count: u64) -> Payment {
    Payment {
        block_height: 1,
        payer: "payer".to_string(),
        ticket_count: count,
        ticket_price: 10,
        node_id: node_id.map(|s| s.to_string()),
        cawa_url: "url".to_string(),
    }
}

#[test]
fn payment_ledger_ids_grow_by_one() {
    let mut ledger = PaymentLedger::new();
    let id1 = ledger.record_payment(payment(None, 1));
    let id2 = ledger.record_payment(payment(Some("n1"), 2));
    let id3 = ledger.record_payment(payment(Some("n1"), 3));
    assert_eq!((id1, id2, id3), (1, 2, 3));

    let all = ledger.get_purchases();
    assert_eq!(all.len(), 3);
    assert_eq!(all[0].ticket_count, 1);
    assert_eq!(all[2].ticket_count, 3);

    let for_n1 = ledger.get_purchases_by_node_id(&"n1".to_string());
    assert_eq!(for_n1.len(), 2);
    assert_eq!(for_n1[0].ticket_count, 2);
    assert_eq!(for_n1[1].ticket_count, 3);
    assert!(ledger.get_purchases_by_node_id(&"other".to_string()).is_empty());
}

#[test]
fn contribution_target_follows_the_node_attribution_rules() {
    let client = "OpenChat".to_string();
    let member = "member-node".to_string();
    let fallback = "escrow-client".to_string();
    let ids = vec!["n1".to_string(), "n2".to_string()];

    // no node named: the standing client contributes
    assert_eq!(contribution_target(&None, &client, &ids, &member, &fallback), Some(client.clone()));
    // the designated member node and listed nodes send nothing
    assert_eq!(contribution_target(&Some(member.clone()), &client, &ids, &member, &fallback), None);
    assert_eq!(contribution_target(&Some("n2".to_string()), &client, &ids, &member, &fallback), None);
    // an outside node contributes under the fallback client
    assert_eq!(
        contribution_target(&Some("stranger".to_string()), &client, &ids, &member, &fallback),
        Some(fallback.clone())
    );
}
