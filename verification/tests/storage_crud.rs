use data_breaker::models::{Broker, DeletionRequest, PersonalRecord};
use data_breaker::storage::Storage;

fn test_db() -> Storage {
    Storage::new()
}

fn broker(id: &str, name: &str, now: &str) -> Broker {
    Broker {
        id: id.to_string(),
        name: name.to_string(),
        website: None,
        description: None,
        category: None,
        connector: None,
        country: None,
        data_countries: None,
        registry_updated_at: None,
        created_at: now.to_string(),
        updated_at: now.to_string(),
    }
}

#[test]
fn test_broker_crud() {
    let mut db = test_db();
    let now = chrono::Utc::now().to_rfc3339();
    let broker = Broker {
        id: "test-broker".to_string(),
        name: "Test Broker".to_string(),
        website: Some("https://example.com".to_string()),
        description: Some("A test broker".to_string()),
        category: Some("people-search".to_string()),
        connector: None,
        country: Some("US".to_string()),
        data_countries: Some("US,GB".to_string()),
        registry_updated_at: None,
        created_at: now.clone(),
        updated_at: now,
    };

    db.upsert_broker(&broker).unwrap();

    let fetched = db.get_broker("test-broker").unwrap();
    assert_eq!(fetched.name, "Test Broker");
    assert_eq!(fetched.country.as_deref(), Some("US"));
    assert_eq!(fetched.data_countries.as_deref(), Some("US,GB"));

    let all = db.list_brokers(None, None, None);
    assert_eq!(all.len(), 1);

    let filtered = db.list_brokers(Some("people-search"), None, None);
    assert_eq!(filtered.len(), 1);

    let empty = db.list_brokers(Some("nonexistent"), None, None);
    assert!(empty.is_empty());

    // Filter by country
    let by_country = db.list_brokers(None, Some("US"), None);
    assert_eq!(by_country.len(), 1);

    let no_country = db.list_brokers(None, Some("DE"), None);
    assert!(no_country.is_empty());

    // Filter by data_country
    let by_data = db.list_brokers(None, None, Some("GB"));
    assert_eq!(by_data.len(), 1);

    let no_data = db.list_brokers(None, None, Some("FR"));
    assert!(no_data.is_empty());
}

#[test]
fn test_personal_record_crud() {
    let mut db = test_db();
    let now = chrono::Utc::now().to_rfc3339();

    // Need a broker first (FK)
    db.upsert_broker(&broker("test-broker", "Test", &now)).unwrap();

    let record = PersonalRecord {
        id: "rec-1".to_string(),
        broker_id: "test-broker".to_string(),
        data_type: "name".to_string(),
        data_value: "John Doe".to_string(),
        profile_url: Some("https://example.com/john".to_string()),
        raw_json: None,
        found_at: now,
    };
    db.upsert_personal_record(&record).unwrap();

    let fetched = db.get_personal_record("rec-1").unwrap();
    assert_eq!(fetched.data_value, "John Doe");

    let all = db.list_personal_records(None);
    assert_eq!(all.len(), 1);

    let by_broker = db.list_personal_records(Some("test-broker"));
    assert_eq!(by_broker.len(), 1);
}

#[test]
fn test_deletion_request_crud() {
    let mut db = test_db();
    let now = chrono::Utc::now().to_rfc3339();

    db.upsert_broker(&broker("test-broker", "Test", &now)).unwrap();

    let req = DeletionRequest {
        id: "del-1".to_string(),
        broker_id: "test-broker".to_string(),
        personal_record_id: None,
        status: "submitted".to_string(),
        submitted_at: Some(now.clone()),
        completed_at: None,
        error_message: None,
        external_ref: Some("ref-123".to_string()),
        created_at: now.clone(),
        updated_at: now.clone(),
    };
    db.insert_deletion_request(&req).unwrap();

    let all = db.list_deletion_requests(None);
    assert_eq!(all.len(), 1);
    assert_eq!(all[0].status, "submitted");
}

#[test]
fn test_registry_meta() {
    let mut db = test_db();
    assert!(db.get_registry_meta("last_fetched_at").is_none());

    db.set_registry_meta("last_fetched_at", "2024-01-01T00:00:00Z")
        .unwrap();
    let val = db.get_registry_meta("last_fetched_at").unwrap();
    assert_eq!(val, "2024-01-01T00:00:00Z");

    // Update
    db.set_registry_meta("last_fetched_at", "2024-06-01T00:00:00Z")
        .unwrap();
    let val = db.get_registry_meta("last_fetched_at").unwrap();
    assert_eq!(val, "2024-06-01T00:00:00Z");
}

#[test]
fn test_record_upsert_rejects_unknown_broker() {
    let mut db = test_db();
    let record = PersonalRecord {
        id: "rec-1".to_string(),
        broker_id: "missing".to_string(),
        data_type: "name".to_string(),
        data_value: "John Doe".to_string(),
        profile_url: None,
        raw_json: None,
        found_at: "2024-01-01T00:00:00Z".to_string(),
    };
    let err = db.upsert_personal_record(&record).unwrap_err();
    assert!(matches!(err, data_breaker::error::AppError::Database(_)));
    assert!(err.message().contains("missing"));
    assert!(db.list_personal_records(None).is_empty());
}

#[test]
fn test_broker_upsert_keeps_created_at() {
    let mut db = test_db();
    let mut b = broker("b1", "First Name", "2024-01-01T00:00:00Z");
    db.upsert_broker(&b).unwrap();
    b.name = "Second Name".to_string();
    b.created_at = "2024-06-01T00:00:00Z".to_string();
    b.updated_at = "2024-06-01T00:00:00Z".to_string();
    db.upsert_broker(&b).unwrap();
    let fetched = db.get_broker("b1").unwrap();
    assert_eq!(fetched.name, "Second Name");
    assert_eq!(fetched.created_at, "2024-01-01T00:00:00Z");
    assert_eq!(fetched.updated_at, "2024-06-01T00:00:00Z");
    assert_eq!(db.list_brokers(None, None, None).len(), 1);
}

#[test]
fn test_record_upsert_is_keyed_by_fact() {
    let mut db = test_db();
    let now = "2024-01-01T00:00:00Z";
    db.upsert_broker(&broker("b1", "Test", now)).unwrap();
    let mut record = PersonalRecord {
        id: "rec-1".to_string(),
        broker_id: "b1".to_string(),
        data_type: "name".to_string(),
        data_value: "John Doe".to_string(),
        profile_url: None,
        raw_json: None,
        found_at: now.to_string(),
    };
    db.upsert_personal_record(&record).unwrap();
    record.id = "rec-2".to_string();
    record.profile_url = Some("https://example.com/p".to_string());
    record.found_at = "2024-06-01T00:00:00Z".to_string();
    db.upsert_personal_record(&record).unwrap();

    let all = db.list_personal_records(None);
    assert_eq!(all.len(), 1);
    // the stored identity survives, the rediscovered details win
    assert_eq!(all[0].id, "rec-1");
    assert_eq!(all[0].profile_url.as_deref(), Some("https://example.com/p"));
    assert_eq!(all[0].found_at, "2024-06-01T00:00:00Z");
}

#[test]
fn test_duplicate_request_id_rejected() {
    let mut db = test_db();
    let now = "2024-01-01T00:00:00Z";
    db.upsert_broker(&broker("b1", "Test", now)).unwrap();
    let req = DeletionRequest {
        id: "del-1".to_string(),
        broker_id: "b1".to_string(),
        personal_record_id: None,
        status: "submitted".to_string(),
        submitted_at: None,
        completed_at: None,
        error_message: None,
        external_ref: None,
        created_at: now.to_string(),
        updated_at: now.to_string(),
    };
    db.insert_deletion_request(&req).unwrap();
    assert!(db.insert_deletion_request(&req).is_err());
    assert_eq!(db.list_deletion_requests(None).len(), 1);
}

#[test]
fn test_update_deletion_request_missing_is_noop() {
    let mut db = test_db();
    let req = DeletionRequest {
        id: "ghost".to_string(),
        broker_id: "b1".to_string(),
        personal_record_id: None,
        status: "completed".to_string(),
        submitted_at: None,
        completed_at: None,
        error_message: None,
        external_ref: None,
        created_at: "2024-01-01T00:00:00Z".to_string(),
        updated_at: "2024-01-01T00:00:00Z".to_string(),
    };
    db.update_deletion_request(&req).unwrap();
    assert!(db.list_deletion_requests(None).is_empty());
}

#[test]
fn test_brokers_list_sorted_by_name() {
    let mut db = test_db();
    db.upsert_broker(&broker("b1", "ZZ Broker", "2024-01-01T00:00:00Z")).unwrap();
    db.upsert_broker(&broker("b2", "AA Broker", "2024-01-01T00:00:00Z")).unwrap();
    db.upsert_broker(&broker("b3", "MM Broker", "2024-01-01T00:00:00Z")).unwrap();
    let names: Vec<String> = db
        .list_brokers(None, None, None)
        .into_iter()
        .map(|b| b.name)
        .collect();
    assert_eq!(names, vec!["AA Broker", "MM Broker", "ZZ Broker"]);
}

#[test]
fn test_records_list_newest_first() {
    let mut db = test_db();
    db.upsert_broker(&broker("b1", "Test", "2024-01-01T00:00:00Z")).unwrap();
    for (id, value, found_at) in [
        ("r1", "old", "2024-01-01T00:00:00Z"),
        ("r2", "new", "2024-06-01T00:00:00Z"),
        ("r3", "mid", "2024-03-01T00:00:00Z"),
    ] {
        db.upsert_personal_record(&PersonalRecord {
            id: id.to_string(),
            broker_id: "b1".to_string(),
            data_type: "name".to_string(),
            data_value: value.to_string(),
            profile_url: None,
            raw_json: None,
            found_at: found_at.to_string(),
        })
        .unwrap();
    }
    let values: Vec<String> = db
        .list_personal_records(None)
        .into_iter()
        .map(|r| r.data_value)
        .collect();
    assert_eq!(values, vec!["new", "mid", "old"]);
}

#[test]
fn test_requests_list_newest_first() {
    let mut db = test_db();
    db.upsert_broker(&broker("b1", "Test", "2024-01-01T00:00:00Z")).unwrap();
    for (id, created_at) in [
        ("d-old", "2024-01-01T00:00:00Z"),
        ("d-new", "2024-06-01T00:00:00Z"),
        ("d-mid", "2024-03-01T00:00:00Z"),
    ] {
        db.insert_deletion_request(&DeletionRequest {
            id: id.to_string(),
            broker_id: "b1".to_string(),
            personal_record_id: None,
            status: "submitted".to_string(),
            submitted_at: None,
            completed_at: None,
            error_message: None,
            external_ref: None,
            created_at: created_at.to_string(),
            updated_at: created_at.to_string(),
        })
        .unwrap();
    }
    let ids: Vec<String> = db
        .list_deletion_requests(None)
        .into_iter()
        .map(|q| q.id)
        .collect();
    assert_eq!(ids, vec!["d-new", "d-mid", "d-old"]);
}
