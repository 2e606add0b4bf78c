use data_breaker::beenverified::BeenVerifiedBroker;
use data_breaker::connector::{
    build_connector_registry, ConnectorCapabilities, ConnectorInfo, DeletionStatusCheck,
    PersonQuery,
};
use data_breaker::delete::{
    apply_deletion_refusal, apply_submission_success, deletion_supported, group_by_broker,
    resolve_records, DeletionReport,
};
use data_breaker::dummy::DummyBroker;
use data_breaker::error::AppError;
use data_breaker::models::Broker;
use data_breaker::scan::{apply_scan_outcome, ensure_broker, select_connectors, should_scan, ScanReport};
use data_breaker::status::{
    apply_status_check, filter_requests_by_status, reconcile_decision, ReconcileAction,
};
use data_breaker::storage::Storage;

const NOW: &str = "2024-01-01T00:00:00+00:00";
const LATER: &str = "2024-06-01T00:00:00+00:00";

fn query(first: &str, last: &str, state: Option<&str>, country: Option<&str>) -> PersonQuery {
    PersonQuery {
        first_name: first.to_string(),
        last_name: last.to_string(),
        email: None,
        phone: None,
        city: None,
        state: state.map(|s| s.to_string()),
        country: country.map(|s| s.to_string()),
    }
}

fn broker_row(id: &str) -> Broker {
    Broker {
        id: id.to_string(),
        name: id.to_string(),
        website: None,
        description: None,
        category: None,
        connector: Some(id.to_string()),
        country: None,
        data_countries: None,
        registry_updated_at: None,
        created_at: NOW.to_string(),
        updated_at: NOW.to_string(),
    }
}

/// Scanning the same connector and query twice against fresh storage keeps
/// exactly one personal record per unique (kind, value), even though the
/// dummy connector reports the same facts both times.
#[test]
fn scan_twice_stores_each_fact_once() {
    let dummy = DummyBroker;
    let info = dummy.info();
    let q = query("Jane", "Smith", Some("NY"), None);
    let mut storage = Storage::new();
    let mut report = ScanReport::new();

    ensure_broker(&mut storage, &info, NOW).unwrap();
    let first = dummy.scan(&q);
    apply_scan_outcome(&mut storage, &mut report, &info, &first, NOW).unwrap();
    let after_first = storage.list_personal_records(None).len();

    let second = dummy.scan(&q);
    apply_scan_outcome(&mut storage, &mut report, &info, &second, LATER).unwrap();
    let records = storage.list_personal_records(None);

    assert_eq!(records.len(), after_first);
    assert_eq!(records.len(), 2); // name + address for a query without email/phone
    for a in 0..records.len() {
        for b in (a + 1)..records.len() {
            assert!(
                records[a].data_type != records[b].data_type
                    || records[a].data_value != records[b].data_value
            );
        }
    }
    // the count reports what each call found, not the stored total
    assert_eq!(report.records_found, 4);
    assert!(report.failures.is_empty());
}

/// A connector requiring a state, absent from the allow-list, is not
/// selected at all; one present in the allow-list but given no state fails
/// with a "missing required field" error that mentions the state.
#[test]
fn allow_list_and_missing_state() {
    let registry = build_connector_registry();
    let allow = vec!["beenverified".to_string()];
    let selected = select_connectors(&registry, &allow, &None);
    assert_eq!(selected.len(), 1);
    assert_eq!(selected[0].id, "beenverified");

    // the state-requiring connector filtered out by the allow-list is never
    // consulted; the one in the allow-list, given no state, refuses
    let q = query("Jane", "Smith", None, None);
    let err = BeenVerifiedBroker.required_state(&q).unwrap_err();
    assert!(err.message().contains("state"));
}

/// A country filter of "DE" excludes a connector whose data countries are
/// exactly {"US"} and keeps a connector with no declared data countries.
#[test]
fn country_filter_excludes_and_includes() {
    let registry = build_connector_registry();
    let selected = select_connectors(&registry, &Vec::new(), &Some("DE".to_string()));
    assert_eq!(selected.len(), 1);
    assert_eq!(selected[0].id, "dummy-broker");

    // case-insensitive inclusion
    let selected_us = select_connectors(&registry, &Vec::new(), &Some("us".to_string()));
    assert_eq!(selected_us.len(), 2);
}

/// A broker with canDelete=false increases the failed counter by exactly the
/// partition's size and creates zero deletion request rows.
#[test]
fn refused_partition_counts_failed_and_writes_nothing() {
    let registry = build_connector_registry();
    assert!(!deletion_supported(&registry, "beenverified"));
    assert!(deletion_supported(&registry, "dummy-broker"));

    let mut storage = Storage::new();
    storage.upsert_broker(&broker_row("beenverified")).unwrap();
    seed_record(&mut storage, "r1", "beenverified", "name", "Jane Smith");
    seed_record(&mut storage, "r2", "beenverified", "age", "34");

    let records = storage.list_personal_records(Some("beenverified"));
    assert_eq!(records.len(), 2);
    let mut report = DeletionReport::new();
    apply_deletion_refusal(&mut storage, &mut report, &records).unwrap();
    assert_eq!(report.failed, 2);
    assert_eq!(report.submitted, 0);
    assert!(storage.list_deletion_requests(None).is_empty());
}

fn seed_record(storage: &mut Storage, id: &str, broker: &str, kind: &str, value: &str) {
    let record = data_breaker::models::PersonalRecord {
        id: id.to_string(),
        broker_id: broker.to_string(),
        data_type: kind.to_string(),
        data_value: value.to_string(),
        profile_url: None,
        raw_json: None,
        found_at: NOW.to_string(),
    };
    storage.upsert_personal_record(&record).unwrap();
}

/// Deleting by broker id with two stored records produces one deletion
/// request per record, all sharing one external reference, after a single
/// successful submission.
#[test]
fn one_submission_two_rows_one_reference() {
    let mut storage = Storage::new();
    storage.upsert_broker(&broker_row("dummy-broker")).unwrap();
    seed_record(&mut storage, "r1", "dummy-broker", "name", "Jane Smith");
    seed_record(&mut storage, "r2", "dummy-broker", "email", "jane@example.com");

    let records = resolve_records(&storage, false, Some("dummy-broker"), None).unwrap();
    assert_eq!(records.len(), 2);
    let groups = group_by_broker(&records);
    assert_eq!(groups.len(), 1);
    assert_eq!(groups[0].broker_id, "dummy-broker");

    let q = query("", "", None, None);
    let found = data_breaker::delete::records_to_found(&groups[0].records);
    let submission = DummyBroker.request_deletion(&q, &found).unwrap();
    let mut report = DeletionReport::new();
    apply_submission_success(
        &mut storage,
        &mut report,
        "dummy-broker",
        &groups[0].records,
        &submission,
        NOW,
    )
    .unwrap();

    let rows = storage.list_deletion_requests(None);
    assert_eq!(rows.len(), 2);
    assert_eq!(rows[0].external_ref, rows[1].external_ref);
    assert_eq!(rows[0].external_ref.as_deref(), Some(submission.external_ref.as_str()));
    assert_eq!(rows[0].status, "submitted");
    assert_eq!(rows[1].status, "submitted");
    assert_ne!(rows[0].id, rows[1].id);
    assert_eq!(report.submitted, 2);
    assert_eq!(report.failed, 0);
}

#[test]
fn resolve_records_errors() {
    let storage = Storage::new();
    assert!(matches!(
        resolve_records(&storage, false, None, Some("nope")),
        Err(AppError::RecordNotFound(_))
    ));
    assert!(matches!(
        resolve_records(&storage, false, Some("nobody"), None),
        Err(AppError::NoRecordsToDelete)
    ));
    assert!(matches!(
        resolve_records(&storage, true, None, None),
        Err(AppError::NoRecordsToDelete)
    ));
    assert!(matches!(
        resolve_records(&storage, false, None, None),
        Err(AppError::Config(_))
    ));
}

fn seed_request(storage: &mut Storage, id: &str, broker: &str, status: &str, ext: Option<&str>) {
    let req = data_breaker::models::DeletionRequest {
        id: id.to_string(),
        broker_id: broker.to_string(),
        personal_record_id: None,
        status: status.to_string(),
        submitted_at: Some(NOW.to_string()),
        completed_at: None,
        error_message: None,
        external_ref: ext.map(|e| e.to_string()),
        created_at: NOW.to_string(),
        updated_at: NOW.to_string(),
    };
    storage.insert_deletion_request(&req).unwrap();
}

/// A poll that reports the stored status changes nothing — the updated
/// timestamp included.
#[test]
fn reconcile_same_status_is_a_noop() {
    let mut storage = Storage::new();
    storage.upsert_broker(&broker_row("dummy-broker")).unwrap();
    seed_request(&mut storage, "del-1", "dummy-broker", "in_progress", Some("X-1"));

    let check = DeletionStatusCheck {
        status: "in_progress".to_string(),
        completed_at: None,
        message: Some("still going".to_string()),
    };
    let changed = apply_status_check(&mut storage, "del-1", &check, LATER).unwrap();
    assert!(!changed);
    let stored = storage.get_deletion_request("del-1").unwrap();
    assert_eq!(stored.updated_at, NOW);
    assert_eq!(stored.error_message, None);
}

#[test]
fn reconcile_new_status_updates_fields() {
    let mut storage = Storage::new();
    storage.upsert_broker(&broker_row("dummy-broker")).unwrap();
    seed_request(&mut storage, "del-1", "dummy-broker", "submitted", Some("X-1"));

    let check = DeletionStatusCheck {
        status: "completed".to_string(),
        completed_at: Some(LATER.to_string()),
        message: None,
    };
    let changed = apply_status_check(&mut storage, "del-1", &check, LATER).unwrap();
    assert!(changed);
    let stored = storage.get_deletion_request("del-1").unwrap();
    assert_eq!(stored.status, "completed");
    assert_eq!(stored.completed_at.as_deref(), Some(LATER));
    assert_eq!(stored.updated_at, LATER);
    // identity and submission facts survive
    assert_eq!(stored.external_ref.as_deref(), Some("X-1"));
    assert_eq!(stored.created_at, NOW);
}

/// A request whose broker has no registered connector is never polled and
/// stays untouched; the pass reports no error for it.
#[test]
fn reconcile_skips_unknown_connector() {
    let registry = build_connector_registry();
    let mut storage = Storage::new();
    storage.upsert_broker(&broker_row("gone-broker")).unwrap();
    seed_request(&mut storage, "del-1", "gone-broker", "submitted", Some("X-1"));

    let requests = storage.list_deletion_requests(None);
    let mut polled = 0;
    for req in &requests {
        match reconcile_decision(&registry, req) {
            ReconcileAction::Poll(_) => polled += 1,
            ReconcileAction::Skip => {}
        }
    }
    assert_eq!(polled, 0);
    let stored = storage.get_deletion_request("del-1").unwrap();
    assert_eq!(stored.status, "submitted");
    assert_eq!(stored.updated_at, NOW);
}

#[test]
fn reconcile_decision_guards() {
    let registry = build_connector_registry();
    let base = data_breaker::models::DeletionRequest {
        id: "d".to_string(),
        broker_id: "dummy-broker".to_string(),
        personal_record_id: None,
        status: "submitted".to_string(),
        submitted_at: None,
        completed_at: None,
        error_message: None,
        external_ref: Some("X".to_string()),
        created_at: NOW.to_string(),
        updated_at: NOW.to_string(),
    };
    assert!(matches!(reconcile_decision(&registry, &base), ReconcileAction::Poll(_)));

    let mut terminal = base.clone();
    terminal.status = "completed".to_string();
    assert!(matches!(reconcile_decision(&registry, &terminal), ReconcileAction::Skip));

    let mut no_ref = base.clone();
    no_ref.external_ref = None;
    assert!(matches!(reconcile_decision(&registry, &no_ref), ReconcileAction::Skip));

    // a connector without the status capability is not polled
    let mut no_cap = base.clone();
    no_cap.broker_id = "beenverified".to_string();
    assert!(matches!(reconcile_decision(&registry, &no_cap), ReconcileAction::Skip));
}

#[test]
fn status_filter_applies_to_current_status() {
    let mut storage = Storage::new();
    storage.upsert_broker(&broker_row("dummy-broker")).unwrap();
    seed_request(&mut storage, "d1", "dummy-broker", "submitted", Some("X-1"));
    seed_request(&mut storage, "d2", "dummy-broker", "completed", None);

    let all = storage.list_deletion_requests(None);
    let completed = filter_requests_by_status(&all, Some("completed"));
    assert_eq!(completed.len(), 1);
    assert_eq!(completed[0].id, "d2");
    let everything = filter_requests_by_status(&all, None);
    assert_eq!(everything.len(), 2);
}

/// A failed scan is recorded against its connector and never aborts the rest
/// of the pass.
#[test]
fn scan_failure_is_isolated() {
    let mut storage = Storage::new();
    let mut report = ScanReport::new();
    let bv_info = BeenVerifiedBroker.info();
    ensure_broker(&mut storage, &bv_info, NOW).unwrap();
    let q = query("Jane", "Smith", None, None);
    let outcome = match BeenVerifiedBroker.required_state(&q) {
        Ok(_) => unreachable!(),
        Err(e) => Err(e),
    };
    apply_scan_outcome(&mut storage, &mut report, &bv_info, &outcome, NOW).unwrap();
    assert_eq!(report.records_found, 0);
    assert_eq!(report.failures.len(), 1);
    assert_eq!(report.failures[0].connector_id, "beenverified");
    assert!(report.failures[0].message.contains("state"));

    // the dummy connector still scans fine afterwards
    let dummy = DummyBroker;
    let info = dummy.info();
    ensure_broker(&mut storage, &info, NOW).unwrap();
    let ok = dummy.scan(&q);
    apply_scan_outcome(&mut storage, &mut report, &info, &ok, NOW).unwrap();
    assert_eq!(report.records_found, 2);
}

#[test]
fn ensure_broker_creates_minimal_metadata() {
    let mut storage = Storage::new();
    let info = ConnectorInfo {
        id: "x-broker".to_string(),
        name: "X Broker".to_string(),
        capabilities: ConnectorCapabilities { can_scan: true, can_delete: false, can_check_status: false },
        home_country: Some("US".to_string()),
        data_countries: vec!["US".to_string(), "GB".to_string()],
    };
    ensure_broker(&mut storage, &info, NOW).unwrap();
    let b = storage.get_broker("x-broker").unwrap();
    assert_eq!(b.name, "X Broker");
    assert_eq!(b.connector.as_deref(), Some("x-broker"));
    assert_eq!(b.country.as_deref(), Some("US"));
    assert_eq!(b.data_countries.as_deref(), Some("US,GB"));
    assert_eq!(b.created_at, NOW);

    // a second scan leaves the stored row alone
    ensure_broker(&mut storage, &info, LATER).unwrap();
    let again = storage.get_broker("x-broker").unwrap();
    assert_eq!(again.created_at, NOW);
    assert_eq!(again.updated_at, NOW);
}

/// Fresh row identifiers must be distinct and unused; a repeated identifier
/// is rejected before anything is written.
#[test]
fn repeated_scan_row_ids_are_rejected() {
    let mut storage = Storage::new();
    storage.upsert_broker(&broker_row("dummy-broker")).unwrap();
    let found = DummyBroker.scan(&query("Jane", "Smith", None, None)).unwrap();
    assert_eq!(found.len(), 2);
    let ids = vec!["same-id".to_string(), "same-id".to_string()];
    let err = data_breaker::scan::store_found_records(
        &mut storage,
        "dummy-broker",
        &found,
        &ids,
        NOW,
    );
    assert!(err.is_err());
    assert!(storage.list_personal_records(None).is_empty());

    let distinct = vec!["id-1".to_string(), "id-2".to_string()];
    let stored = data_breaker::scan::store_found_records(
        &mut storage,
        "dummy-broker",
        &found,
        &distinct,
        NOW,
    )
    .unwrap();
    assert_eq!(stored, 2);
    assert_eq!(storage.list_personal_records(None).len(), 2);
}

#[test]
fn scan_capability_gates_scanning() {
    let registry = build_connector_registry();
    let bv = registry.get("beenverified").unwrap();
    assert!(should_scan(bv));
    let info = ConnectorInfo {
        id: "mute".to_string(),
        name: "Mute".to_string(),
        capabilities: ConnectorCapabilities {
            can_scan: false,
            can_delete: true,
            can_check_status: true,
        },
        home_country: None,
        data_countries: Vec::new(),
    };
    assert!(!should_scan(&info));
}
