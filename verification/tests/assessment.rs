use emissions_engine::assessment::{
    calculate_canister_emission_rate, canister_ids_of, rewrite_status_error, SnsCanisters,
    SnsData, SnsMetadata, NANOS_PER_HOUR,
};

#[test]
fn zero_network_burn_rate_yields_zero() {
    assert_eq!(calculate_canister_emission_rate(0, 123, 456), 0);
    assert_eq!(calculate_canister_emission_rate(0, 0, 0), 0);
    assert_eq!(calculate_canister_emission_rate(0, u64::MAX, u64::MAX), 0);
}

#[test]
fn emission_rate_is_the_exact_proportion() {
    // 6 * 10 / 3 == 20
    assert_eq!(calculate_canister_emission_rate(3, 10, 6), 20);
    // truncating division: 7 * 3 / 2 == 10
    assert_eq!(calculate_canister_emission_rate(2, 3, 7), 10);
}

#[test]
fn accumulate_recomputes_only_past_the_24h_gate() {
    let mut data = SnsData::new();
    let root = "root-1".to_string();
    let day = 24 * NANOS_PER_HOUR;

    // first call: the window is zeroed, so it recomputes at once
    let t1 = day + 5;
    let r1 = data.get_cumulative_sns_emissions(&root, 4, 10, 8, t1);
    assert_eq!(r1, 20); // 8 * 10 / 4

    // a second and third call within 24 hours return the cached value
    let r2 = data.get_cumulative_sns_emissions(&root, 400, 999, 777, t1 + NANOS_PER_HOUR);
    assert_eq!(r2, 20);
    let r3 = data.get_cumulative_sns_emissions(&root, 1, 1, 1, t1 + 23 * NANOS_PER_HOUR);
    assert_eq!(r3, 20);
    let w = data.get_emission_window(&root);
    assert_eq!(w.last_calculation_time, t1);
    assert_eq!(w.cumulative_emissions, 20);

    // after a full day the daily emission is folded in
    let t2 = t1 + day;
    let r4 = data.get_cumulative_sns_emissions(&root, 4, 10, 8, t2);
    assert_eq!(r4, 40);
    let w2 = data.get_emission_window(&root);
    assert_eq!(w2.last_calculation_time, t2);
    assert_eq!(w2.cumulative_emissions, 40);
}

#[test]
fn accumulate_tracks_entities_independently() {
    let mut data = SnsData::new();
    let day = 24 * NANOS_PER_HOUR;
    let r_a = data.get_cumulative_sns_emissions(&"a".to_string(), 2, 10, 4, day);
    let r_b = data.get_cumulative_sns_emissions(&"b".to_string(), 2, 10, 6, day);
    assert_eq!(r_a, 20);
    assert_eq!(r_b, 30);
    assert_eq!(data.get_emission_window(&"a".to_string()).cumulative_emissions, 20);
    assert_eq!(data.get_emission_window(&"b".to_string()).cumulative_emissions, 30);
}

#[test]
fn burn_rate_is_the_sum_of_fetched_digits() {
    let mut data = SnsData::new();
    let digits = vec![5, 70, 300];
    let rate = data.record_burn_rate("canister-1".to_string(), &digits);
    assert_eq!(rate, 375);
    assert_eq!(data.get_cycle_burn_rate(&"canister-1".to_string()), Some(375));
    assert_eq!(data.get_cycle_burn_rate(&"other".to_string()), None);
}

#[test]
fn assessment_stores_keep_fetched_state() {
    let mut data = SnsData::new();
    data.set_root_canisters(vec!["r1".to_string(), "r2".to_string()]);
    assert_eq!(data.get_root_canisters().len(), 2);

    let canisters = SnsCanisters {
        root: Some("r1".to_string()),
        swap: None,
        ledger: Some("l1".to_string()),
        index: None,
        governance: Some("g1".to_string()),
        dapps: vec!["d1".to_string(), "d2".to_string()],
        archives: vec!["arch".to_string()],
    };
    data.insert_canisters("r1".to_string(), canisters);
    let got = data.get_sns_canisters(&"r1".to_string()).unwrap();
    assert_eq!(got.ledger.as_deref(), Some("l1"));

    // archive canisters are not part of the burn-rate candidates
    let ids = canister_ids_of(data.get_sns_canisters(&"r1".to_string()).unwrap());
    assert_eq!(ids, vec!["r1", "l1", "g1", "d1", "d2"]);

    data.insert_metadata(
        "r1".to_string(),
        SnsMetadata { url: None, logo: None, name: Some("One".to_string()), description: None },
    );
    assert_eq!(data.get_metadata(&"r1".to_string()).unwrap().name.as_deref(), Some("One"));
    assert!(data.get_metadata(&"r2".to_string()).is_none());
    assert!(data.get_sns_emissions(&"r1".to_string()).is_none());
}

#[test]
fn status_errors_about_invalid_responses_are_rewritten() {
    let marker = "InvalidResponse".to_string();
    let replacement = "Received an invalid response from the blackhole canister".to_string();
    let hit = "candid: InvalidResponse at byte 3".to_string();
    let miss = "canister rejected the call".to_string();
    assert_eq!(rewrite_status_error(&hit, &marker, &replacement), replacement);
    assert_eq!(rewrite_status_error(&miss, &marker, &replacement), miss);
}
