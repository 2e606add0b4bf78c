use data_breaker::beenverified::{
    bv_record_to_found_records, BeenVerifiedBroker, BvFetch, BvFirstAttempt, BvRecord,
    BvSearchResponse,
};
use data_breaker::connector::{build_connector_registry, PersonQuery};
use data_breaker::country::CountryCode;
use data_breaker::dummy::DummyBroker;
use data_breaker::error::ConnectorError;

fn query(first: &str, last: &str) -> PersonQuery {
    PersonQuery {
        first_name: first.to_string(),
        last_name: last.to_string(),
        email: None,
        phone: None,
        city: None,
        state: None,
        country: None,
    }
}

#[test]
fn test_build_connector_registry() {
    let reg = build_connector_registry();
    assert!(reg.get("dummy-broker").is_some());
    let dummy = reg.get("dummy-broker").unwrap();
    assert_eq!(dummy.name, "Dummy Broker");
    assert!(dummy.capabilities.can_scan);
    assert!(dummy.capabilities.can_delete);
    assert!(dummy.capabilities.can_check_status);
}

#[test]
fn test_dummy_scan() {
    let dummy = DummyBroker;
    let mut q = query("John", "Doe");
    q.email = Some("john@example.com".to_string());
    let results = dummy.scan(&q).unwrap();
    assert!(!results.is_empty());
}

#[test]
fn test_registry_contains_beenverified() {
    let reg = build_connector_registry();
    assert!(reg.get("beenverified").is_some());
    let bv = reg.get("beenverified").unwrap();
    assert_eq!(bv.name, "BeenVerified");
    assert!(bv.capabilities.can_scan);
    assert!(!bv.capabilities.can_delete);
    assert!(!bv.capabilities.can_check_status);
}

#[test]
fn test_beenverified_requires_state() {
    let bv = BeenVerifiedBroker;
    let q = query("John", "Doe");
    let result = bv.required_state(&q);
    assert!(result.is_err());
    assert!(
        result.unwrap_err().message().contains("state"),
        "error should mention state requirement"
    );
}

#[test]
fn test_beenverified_deletion_not_supported() {
    let bv = BeenVerifiedBroker;
    let q = query("John", "Doe");
    assert!(bv.request_deletion(&q, &Vec::new()).is_err());
    assert!(bv.check_deletion_status("ref-123").is_err());
}

#[test]
fn test_beenverified_refusals_are_capability_errors() {
    let bv = BeenVerifiedBroker;
    let q = query("John", "Doe");
    assert!(matches!(
        bv.request_deletion(&q, &Vec::new()),
        Err(ConnectorError::UnsupportedCapability(_))
    ));
    assert!(matches!(
        bv.required_state(&q),
        Err(ConnectorError::MissingQueryField(_))
    ));
}

#[test]
fn test_dummy_deletion() {
    let dummy = DummyBroker;
    let q = query("John", "Doe");
    let records = dummy.scan(&q).unwrap();
    let submission = dummy.request_deletion(&q, &records).unwrap();
    assert!(!submission.external_ref.is_empty());

    let status = dummy
        .check_deletion_status(&submission.external_ref)
        .unwrap();
    assert_eq!(status.status, "in_progress");
}

#[test]
fn test_dummy_deletion_reference_is_fresh() {
    let dummy = DummyBroker;
    let q = query("John", "Doe");
    let submission = dummy.request_deletion(&q, &Vec::new()).unwrap();
    // "DUMMY-" plus a 36-character identifier
    assert_eq!(submission.external_ref.chars().count(), 42);
    assert!(submission.external_ref.starts_with("DUMMY-"));
    let again = dummy.request_deletion(&q, &Vec::new()).unwrap();
    assert_ne!(submission.external_ref, again.external_ref);
}

#[test]
fn test_country_code_valid() {
    assert!(CountryCode::new("US").is_ok());
    assert!(CountryCode::new("us").is_ok()); // auto-uppercased
    assert!(CountryCode::new("De").is_ok());
    assert_eq!(CountryCode::new("us").unwrap().as_str(), "US");
}

#[test]
fn test_country_code_invalid() {
    assert!(CountryCode::new("").is_err());
    assert!(CountryCode::new("A").is_err());
    assert!(CountryCode::new("USA").is_err());
    assert!(CountryCode::new("12").is_err());
    assert!(CountryCode::new("U ").is_err());
}

#[test]
fn test_country_code_trims_whitespace() {
    assert_eq!(CountryCode::new("  de\t").unwrap().as_str(), "DE");
}

#[test]
fn test_beenverified_country_methods() {
    let bv = BeenVerifiedBroker;
    assert_eq!(bv.home_country(), Some("US"));
    assert!(bv.data_countries().iter().any(|c| c == "US"));
}

#[test]
fn test_dummy_country_defaults() {
    let dummy = DummyBroker;
    assert_eq!(dummy.home_country(), None);
    assert!(dummy.data_countries().is_empty());
}

fn full_record() -> BvRecord {
    BvRecord {
        first_name: Some("Jane".to_string()),
        last_name: Some("Smith".to_string()),
        age: Some(34),
        city: Some("Brooklyn".to_string()),
        state: Some("NY".to_string()),
        addresses: vec!["123 Main St, Brooklyn, NY 11201".to_string()],
        relatives: vec!["John Smith".to_string(), "Mary Smith".to_string()],
        profile_url: Some("https://www.beenverified.com/people/jane-smith/".to_string()),
    }
}

#[test]
fn test_parse_full_record() {
    let found = bv_record_to_found_records(&full_record());
    assert_eq!(found.len(), 4); // name, age, address, relatives
    assert_eq!(found[0].data_type, "name");
    assert_eq!(found[0].data_value, "Jane Smith");
    assert_eq!(found[1].data_type, "age");
    assert_eq!(found[1].data_value, "34");
    assert_eq!(found[2].data_type, "address");
    assert!(found[2].data_value.contains("Brooklyn"));
    assert_eq!(found[3].data_type, "relatives");
    assert!(found[3].data_value.contains("John Smith"));
}

#[test]
fn test_parse_minimal_record() {
    let rec = BvRecord {
        first_name: Some("Bob".to_string()),
        ..Default::default()
    };
    let found = bv_record_to_found_records(&rec);
    assert_eq!(found.len(), 1);
    assert_eq!(found[0].data_type, "name");
    assert_eq!(found[0].data_value, "Bob");
}

#[test]
fn test_city_state_fallback_address() {
    let rec = BvRecord {
        first_name: Some("Test".to_string()),
        city: Some("Austin".to_string()),
        state: Some("TX".to_string()),
        ..Default::default()
    };
    let found = bv_record_to_found_records(&rec);
    assert_eq!(found.len(), 2); // name + address
    assert_eq!(found[1].data_type, "address");
    assert_eq!(found[1].data_value, "Austin, TX");
}

#[test]
fn test_registry_rejects_duplicate_identifier() {
    let mut reg = build_connector_registry();
    let dup = DummyBroker.info();
    assert!(reg.register(dup).is_err());
    assert_eq!(reg.len(), 2);
}

#[test]
fn test_into_records_prefers_records_field() {
    let resp = BvSearchResponse {
        records: vec![BvRecord {
            first_name: Some("Alice".to_string()),
            last_name: Some("Jones".to_string()),
            ..Default::default()
        }],
        results: Vec::new(),
    };
    let recs = resp.into_records();
    assert_eq!(recs.len(), 1);
    assert_eq!(recs[0].first_name.as_deref(), Some("Alice"));
}

#[test]
fn test_into_records_falls_back_to_results_field() {
    let resp = BvSearchResponse {
        records: Vec::new(),
        results: vec![BvRecord {
            first_name: Some("Bob".to_string()),
            last_name: Some("Lee".to_string()),
            ..Default::default()
        }],
    };
    let recs = resp.into_records();
    assert_eq!(recs.len(), 1);
    assert_eq!(recs[0].first_name.as_deref(), Some("Bob"));
}

#[test]
fn test_empty_record_converts_to_nothing() {
    // a record with every field absent yields no found records at all
    let found = bv_record_to_found_records(&BvRecord::default());
    assert!(found.is_empty());
}

#[test]
fn test_first_attempt_decision() {
    let bv = BeenVerifiedBroker;
    // a parsed body with records finishes the scan
    let content = BvFetch::Content(BvSearchResponse {
        records: vec![BvRecord {
            first_name: Some("Jane".to_string()),
            ..Default::default()
        }],
        results: Vec::new(),
    });
    match bv.first_attempt_decision(content) {
        BvFirstAttempt::Done(records) => {
            assert_eq!(records.len(), 1);
            assert_eq!(records[0].data_value, "Jane");
        }
        BvFirstAttempt::TryFallback(_) => panic!("records should finish the scan"),
    }
    // a parsed but empty body moves on to the fallback
    let empty = BvFetch::Content(BvSearchResponse { records: Vec::new(), results: Vec::new() });
    assert!(matches!(
        bv.first_attempt_decision(empty),
        BvFirstAttempt::TryFallback(None)
    ));
    // a transport failure moves on, remembering its text
    match bv.first_attempt_decision(BvFetch::Failed("connection reset".to_string())) {
        BvFirstAttempt::TryFallback(Some(m)) => assert_eq!(m, "connection reset"),
        _ => panic!("a transport failure should carry its text to the fallback"),
    }
    // a non-success status moves on without one
    assert!(matches!(
        bv.first_attempt_decision(BvFetch::Status(503)),
        BvFirstAttempt::TryFallback(None)
    ));
}

#[test]
fn test_fallback_decision() {
    let bv = BeenVerifiedBroker;
    // both attempts failing in transport is a network failure of the scan
    let err = match bv.fallback_decision(
        Some("connection reset".to_string()),
        BvFetch::Failed("timed out".to_string()),
    ) {
        Err(e) => e,
        Ok(_) => panic!("two transport failures should fail the scan"),
    };
    assert!(matches!(
        &err,
        data_breaker::error::ConnectorError::Transport(m) if m == "timed out"
    ));
    // anything else is an empty result, not an error
    let ok = bv
        .fallback_decision(None, BvFetch::Failed("timed out".to_string()))
        .unwrap();
    assert!(ok.is_empty());
    let ok2 = bv
        .fallback_decision(Some("connection reset".to_string()), BvFetch::Status(500))
        .unwrap();
    assert!(ok2.is_empty());
    let ok3 = bv.fallback_decision(None, BvFetch::Unusable).unwrap();
    assert!(ok3.is_empty());
}
