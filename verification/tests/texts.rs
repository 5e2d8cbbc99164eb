use emissions_engine::cawa::{
    contribution_request_body, contribution_url_by_entity, contribution_url_by_id,
    extract_contribution_id, get_proof, on_behalf_of,
};
use emissions_engine::render::{generate_uuid, u64_to_string};
use emissions_engine::text::{contains_substring, starts_with_prefix, vec_contains_string};
use emissions_engine::decimal::{parse_decimal_units, UNITS_PER_WHOLE};
use emissions_engine::listing::parse_node_emissions;

#[test]
fn decimal_rendering_is_exact() {
    assert_eq!(u64_to_string(0), "0");
    assert_eq!(u64_to_string(7), "7");
    assert_eq!(u64_to_string(1234), "1234");
    assert_eq!(u64_to_string(u64::MAX), "18446744073709551615");
}

#[test]
fn uuid_format_groups_the_32_hex_characters() {
    assert_eq!(
        generate_uuid(0xdead_beef_1234_5678, 0),
        "00000000-0000-0000-dead-beef12345678"
    );
    assert_eq!(generate_uuid(0, 0), "00000000-0000-0000-0000-000000000000");
    // the two sources are combined by exclusive-or
    assert_eq!(generate_uuid(0xff00, 0x00ff), "00000000-0000-0000-0000-00000000ffff");
}

#[test]
fn contribution_texts_are_laid_out_exactly() {
    assert_eq!(on_behalf_of(&"OpenChat".to_string()), "cawa+OpenChat@carboncrowd.io");
    let base = "https://api.example.test/api/v1/contribution".to_string();
    assert_eq!(
        contribution_url_by_id(&base, &"abc-123".to_string()),
        "https://api.example.test/api/v1/contribution?id=abc-123"
    );
    assert_eq!(
        contribution_url_by_entity(&base, &"node-9".to_string()),
        "https://api.example.test/api/v1/contribution?entity=cawa%2Bnode-9@carboncrowd.io"
    );
    let body = contribution_request_body(
        42,
        &"cawa+OpenChat@carboncrowd.io".to_string(),
        &"kilos".to_string(),
        &"EUR".to_string(),
        &"project-1".to_string(),
    );
    assert_eq!(
        body,
        "{\"amount\":42,\"on_behalf_of\":\"cawa+OpenChat@carboncrowd.io\",\"unit\":\"kilos\",\"currency\":\"EUR\",\"project\":\"project-1\"}"
    );
    // the hand-laid body is what the JSON parser reads back
    assert!(serde_json::from_str::<serde_json::Value>(&body).is_ok());
}

#[test]
fn get_proof_reads_the_first_proof_field() {
    let body = "[{\"entity\":\"x\",\"proof\":\"https://proof.example/1\"},{\"proof\":\"other\"}]";
    assert_eq!(get_proof(body), "https://proof.example/1");
}

#[test]
fn get_proof_falls_back_on_any_other_shape() {
    assert_eq!(get_proof("not json at all"), "Proof URL does not exist");
    assert_eq!(get_proof("[]"), "Proof URL does not exist");
    assert_eq!(get_proof("{\"proof\":\"x\"}"), "Proof URL does not exist");
    assert_eq!(get_proof("[{\"proof\":17}]"), "Proof URL does not exist");
}

#[test]
fn contribution_id_is_the_first_element_of_the_id_array() {
    assert_eq!(
        extract_contribution_id("{\"id\":[\"abc-1\",\"def-2\"]}"),
        Some("abc-1".to_string())
    );
    assert_eq!(extract_contribution_id("{\"id\":[]}"), None);
    assert_eq!(extract_contribution_id("{\"id\":\"abc\"}"), None);
    assert_eq!(extract_contribution_id("broken"), None);
    assert_eq!(extract_contribution_id("{\"id\":[17]}"), None);
}

#[test]
fn substring_and_prefix_tests_work_by_characters() {
    let hay = "candid: InvalidResponse at byte 3".to_string();
    assert!(contains_substring(&hay, &"InvalidResponse".to_string()));
    assert!(!contains_substring(&hay, &"Timeout".to_string()));
    assert!(contains_substring(&hay, &"".to_string()));
    assert!(starts_with_prefix(&"acme-node-1".to_string(), &"acme".to_string()));
    assert!(!starts_with_prefix(&"acme".to_string(), &"acme-node".to_string()));
    let ids = vec!["a".to_string(), "b".to_string()];
    assert!(vec_contains_string(&ids, &"b".to_string()));
    assert!(!vec_contains_string(&ids, &"c".to_string()));
}

#[test]
fn decimal_figures_become_exact_units() {
    assert_eq!(UNITS_PER_WHOLE, 1_000_000);
    assert_eq!(parse_decimal_units(&"0".to_string()), Some(0));
    assert_eq!(parse_decimal_units(&"12".to_string()), Some(12_000_000));
    assert_eq!(parse_decimal_units(&"12.5".to_string()), Some(12_500_000));
    assert_eq!(parse_decimal_units(&"0.000001".to_string()), Some(1));
    // fraction digits past the sixth are dropped
    assert_eq!(parse_decimal_units(&"1.2345678".to_string()), Some(1_234_567));
    // malformed figures have no value
    assert_eq!(parse_decimal_units(&"".to_string()), None);
    assert_eq!(parse_decimal_units(&"1e30".to_string()), None);
    assert_eq!(parse_decimal_units(&"-3".to_string()), None);
    assert_eq!(parse_decimal_units(&".5".to_string()), None);
    assert_eq!(parse_decimal_units(&"5.".to_string()), None);
    assert_eq!(parse_decimal_units(&"1.2.3".to_string()), None);
    // a figure past the machine word has no value either
    assert_eq!(parse_decimal_units(&"99999999999999999999".to_string()), None);
}

#[test]
fn node_listings_normalize_to_nodes() {
    let body = "[{\"name\":\"A\",\"totalEmissions\":50},{\"name\":\"B\",\"totalEmissions\":2.25}]";
    let nodes = parse_node_emissions(body).unwrap();
    assert_eq!(nodes.len(), 2);
    assert_eq!(nodes[0].name, "A");
    assert_eq!(nodes[0].total_emissions, 50_000_000);
    assert_eq!(nodes[0].offset_emissions, 0);
    assert_eq!(nodes[1].name, "B");
    assert_eq!(nodes[1].total_emissions, 2_250_000);
}

#[test]
fn malformed_node_listings_are_a_hard_failure() {
    assert!(parse_node_emissions("not json").is_err());
    assert!(parse_node_emissions("{\"name\":\"A\"}").is_err());
    // a missing or wrongly typed field spoils the whole listing
    assert!(parse_node_emissions("[{\"totalEmissions\":5}]").is_err());
    assert!(parse_node_emissions("[{\"name\":\"A\",\"totalEmissions\":\"5\"}]").is_err());
    assert!(parse_node_emissions(
        "[{\"name\":\"A\",\"totalEmissions\":1},{\"name\":7,\"totalEmissions\":2}]"
    )
    .is_err());
    // the empty listing is well formed
    assert_eq!(parse_node_emissions("[]").unwrap().len(), 0);
}
