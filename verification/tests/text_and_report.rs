use data_breaker::error::AppError;
use data_breaker::html;
use data_breaker::models::{Broker, DeletionRequest, PersonalRecord};
use data_breaker::registry_sync::{apply_registry_sync, registry_entries_to_brokers, RegistryEntry};
use data_breaker::report::{Report, ReportFormat};
use data_breaker::storage::Storage;
use data_breaker::text::{contains_csv, escape_html, join_with, str_eq, trim, u64_to_string};

const NOW: &str = "2024-01-01T00:00:00+00:00";

#[test]
fn escape_html_rewrites_special_characters() {
    assert_eq!(escape_html("a<b>&\"c\""), "a&lt;b&gt;&amp;&quot;c&quot;");
    assert_eq!(escape_html("plain text"), "plain text");
    assert_eq!(escape_html(""), "");
}

#[test]
fn decimal_rendering_is_exact() {
    assert_eq!(u64_to_string(0), "0");
    assert_eq!(u64_to_string(7), "7");
    assert_eq!(u64_to_string(1234), "1234");
    assert_eq!(u64_to_string(u64::MAX), "18446744073709551615");
}

#[test]
fn csv_membership_is_exact_per_segment() {
    assert!(contains_csv("US,GB", "GB"));
    assert!(contains_csv("US,GB", "US"));
    assert!(!contains_csv("US,GB", "FR"));
    assert!(!contains_csv("US,GB", "G"));
    assert!(!contains_csv("USGB", "US"));
    assert!(contains_csv("", ""));
    assert!(contains_csv("a,,b", ""));
}

#[test]
fn trim_and_eq_helpers() {
    assert_eq!(trim("  hello\t "), "hello");
    assert_eq!(trim(""), "");
    assert_eq!(trim(" \n "), "");
    assert!(str_eq("abc", "abc"));
    assert!(!str_eq("abc", "abd"));
    assert!(!str_eq("abc", "ab"));
}

#[test]
fn join_with_separates_items() {
    let items = vec!["a".to_string(), "b".to_string(), "c".to_string()];
    assert_eq!(join_with(&items, ", "), "a, b, c");
    assert_eq!(join_with(&items, ","), "a,b,c");
    assert_eq!(join_with(&Vec::new(), ", "), "");
    assert_eq!(join_with(&vec!["x".to_string()], ", "), "x");
}

#[test]
fn error_messages_name_their_cause() {
    assert_eq!(
        AppError::BrokerNotFound("b1".to_string()).message(),
        "Broker 'b1' not found"
    );
    assert_eq!(
        AppError::RecordNotFound("r1".to_string()).message(),
        "Record 'r1' not found"
    );
    assert_eq!(AppError::NoRecordsToDelete.message(), "No records to delete");
    assert_eq!(
        AppError::Registry("bad feed".to_string()).message(),
        "Registry error: bad feed"
    );
    assert_eq!(
        AppError::Config("bad flag".to_string()).message(),
        "Configuration error: bad flag"
    );
    assert_eq!(
        AppError::Database("boom".to_string()).message(),
        "Database error: boom"
    );
    assert_eq!(
        AppError::Network("down".to_string()).message(),
        "Network error: down"
    );
    assert_eq!(AppError::Io("gone".to_string()).message(), "IO error: gone");
    assert_eq!(
        AppError::Json("eof".to_string()).message(),
        "JSON error: eof"
    );
    assert!(AppError::InvalidCountryCode("USA".to_string())
        .message()
        .contains("'USA'"));
}

#[test]
fn report_format_names() {
    assert!(matches!(ReportFormat::from_name("json"), ReportFormat::Json));
    assert!(matches!(ReportFormat::from_name("html"), ReportFormat::Html));
    assert!(matches!(ReportFormat::from_name("terminal"), ReportFormat::Terminal));
    assert!(matches!(ReportFormat::from_name("anything"), ReportFormat::Terminal));
}

fn seeded_storage() -> Storage {
    let mut storage = Storage::new();
    storage
        .upsert_broker(&Broker {
            id: "b1".to_string(),
            name: "Broker One".to_string(),
            website: None,
            description: None,
            category: None,
            connector: None,
            country: None,
            data_countries: None,
            registry_updated_at: None,
            created_at: NOW.to_string(),
            updated_at: NOW.to_string(),
        })
        .unwrap();
    storage
        .upsert_personal_record(&PersonalRecord {
            id: "r1".to_string(),
            broker_id: "b1".to_string(),
            data_type: "name".to_string(),
            data_value: "Jane <Smith>".to_string(),
            profile_url: None,
            raw_json: None,
            found_at: NOW.to_string(),
        })
        .unwrap();
    for (id, status) in [
        ("11111111-aaaa", "submitted"),
        ("22222222-bbbb", "completed"),
        ("33333333-cccc", "failed"),
        ("44444444-dddd", "rejected"),
        ("55555555-eeee", "pending"),
    ] {
        storage
            .insert_deletion_request(&DeletionRequest {
                id: id.to_string(),
                broker_id: "b1".to_string(),
                personal_record_id: Some("r1".to_string()),
                status: status.to_string(),
                submitted_at: Some(NOW.to_string()),
                completed_at: None,
                error_message: None,
                external_ref: None,
                created_at: NOW.to_string(),
                updated_at: NOW.to_string(),
            })
            .unwrap();
    }
    storage
}

#[test]
fn report_counts_by_status() {
    let storage = seeded_storage();
    let report = Report::build(&storage);
    assert_eq!(report.summary.total_brokers, 1);
    assert_eq!(report.summary.total_records, 1);
    assert_eq!(report.summary.total_deletions, 5);
    assert_eq!(report.summary.deletions_pending, 1);
    assert_eq!(report.summary.deletions_submitted, 1);
    assert_eq!(report.summary.deletions_completed, 1);
    assert_eq!(report.summary.deletions_failed, 2);
    assert!(report.generated_at.len() >= 19);
}

#[test]
fn html_render_escapes_and_shortens() {
    let storage = seeded_storage();
    let report = Report::build(&storage);
    let page = html::render(&report);
    assert!(page.starts_with("<!DOCTYPE html>"));
    assert!(page.ends_with("</body>\n</html>\n"));
    // escaped record value, never the raw one
    assert!(page.contains("Jane &lt;Smith&gt;"));
    assert!(!page.contains("Jane <Smith>"));
    // request identifiers are shortened to eight characters
    assert!(page.contains("<tr><td>11111111</td>"));
    assert!(!page.contains("11111111-aaaa"));
    // summary cards carry the derived counts
    assert!(page.contains("<div class=\"value\">2</div><div class=\"label\">Deletions Failed</div>"));
}

#[test]
fn html_render_omits_empty_sections() {
    let storage = Storage::new();
    let report = Report::build(&storage);
    let page = html::render(&report);
    assert!(!page.contains("<h2>Personal Records Found</h2>"));
    assert!(!page.contains("<h2>Deletion Requests</h2>"));
}

#[test]
fn registry_sync_upserts_and_bookkeeps() {
    let entries = vec![
        RegistryEntry {
            id: "b1".to_string(),
            name: "Broker One".to_string(),
            website: Some("https://one.example".to_string()),
            description: None,
            category: Some("people-search".to_string()),
            connector: None,
        },
        RegistryEntry {
            id: "b2".to_string(),
            name: "Broker Two".to_string(),
            website: None,
            description: None,
            category: None,
            connector: Some("dummy-broker".to_string()),
        },
    ];
    let brokers = registry_entries_to_brokers(&entries, NOW);
    assert_eq!(brokers.len(), 2);
    assert_eq!(brokers[0].registry_updated_at.as_deref(), Some(NOW));

    let mut storage = Storage::new();
    let count = apply_registry_sync(&mut storage, &brokers, NOW).unwrap();
    assert_eq!(count, 2);
    assert_eq!(storage.list_brokers(None, None, None).len(), 2);
    assert_eq!(storage.get_registry_meta("last_fetched_at").as_deref(), Some(NOW));

    // a second sync overwrites rather than duplicates
    let count2 = apply_registry_sync(&mut storage, &brokers, "2024-06-01T00:00:00+00:00").unwrap();
    assert_eq!(count2, 2);
    assert_eq!(storage.list_brokers(None, None, None).len(), 2);
    assert_eq!(
        storage.get_registry_meta("last_fetched_at").as_deref(),
        Some("2024-06-01T00:00:00+00:00")
    );
}

#[test]
fn log_filter_levels() {
    assert_eq!(data_breaker::cli::log_filter(0), "warn");
    assert_eq!(data_breaker::cli::log_filter(1), "info");
    assert_eq!(data_breaker::cli::log_filter(2), "debug");
    assert_eq!(data_breaker::cli::log_filter(7), "trace");
}
