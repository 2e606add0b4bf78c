//! Reporting: a snapshot of everything stored — brokers, personal records,
//! deletion requests — together with derived counts by deletion status.

use vstd::prelude::*;

use crate::clock::now_rfc3339;
use crate::models::{Broker, DeletionRequest, DeletionRequestView, PersonalRecord};
use crate::storage::{
    lemma_filtered_brokers_all, lemma_records_for_all, lemma_requests_for_all, Storage,
};
use crate::text::{lex_le, str_eq};

verus! {

/// How a report is rendered.
pub enum ReportFormat {
    Terminal,
    Json,
    Html,
}

impl ReportFormat {
    /// The format a name picks: "json" and "html" pick theirs, anything else
    /// is rendered for the terminal.
    pub fn from_name(name: &str) -> (r: ReportFormat)
        ensures
            name@ == "json"@ ==> r is Json,
            name@ == "html"@ ==> r is Html,
            name@ != "json"@ && name@ != "html"@ ==> r is Terminal,
    {
        proof {
            reveal_strlit("json");
            reveal_strlit("html");
            assert("json"@ != "html"@) by {
                assert("json"@[0] == 'j');
                assert("html"@[0] == 'h');
            }
        }
        if str_eq(name, "json") {
            ReportFormat::Json
        } else if str_eq(name, "html") {
            ReportFormat::Html
        } else {
            ReportFormat::Terminal
        }
    }
}

/// How many requests carry exactly this status.
pub open spec fn count_with_status(qs: Seq<DeletionRequestView>, s: Seq<char>) -> int
    decreases qs.len(),
{
    if qs.len() == 0 {
        0
    } else {
        count_with_status(qs.drop_last(), s) + if qs.last().status == s {
            1int
        } else {
            0int
        }
    }
}

/// How many requests ended in failure: status "failed" or "rejected".
pub open spec fn count_failed(qs: Seq<DeletionRequestView>) -> int
    decreases qs.len(),
{
    if qs.len() == 0 {
        0
    } else {
        count_failed(qs.drop_last()) + if qs.last().status == "failed"@ || qs.last().status
            == "rejected"@ {
            1int
        } else {
            0int
        }
    }
}

/// The derived counts of a report.
pub struct ReportSummary {
    pub total_brokers: usize,
    pub total_records: usize,
    pub total_deletions: usize,
    pub deletions_pending: usize,
    pub deletions_submitted: usize,
    pub deletions_completed: usize,
    pub deletions_failed: usize,
}

/// A full snapshot of the stored data with its summary.
pub struct Report {
    pub generated_at: String,
    pub brokers: Vec<Broker>,
    pub records: Vec<PersonalRecord>,
    pub deletion_requests: Vec<DeletionRequest>,
    pub summary: ReportSummary,
}

/// Counts the stored requests carrying exactly this status.
fn count_status_exec(storage: &Storage, s: &str) -> (r: usize)
    ensures
        r == count_with_status(storage.requests_view(), s@),
{
    let n = storage.requests_len();
    let mut count: usize = 0;
    let mut i: usize = 0;
    while i < n
        invariant
            i <= n,
            count <= i,
            storage.requests_view().len() == n,
            count == count_with_status(storage.requests_view().take(i as int), s@),
        decreases n - i,
    {
        proof {
            assert(storage.requests_view().take(i as int + 1).drop_last() =~= storage
                .requests_view()
                .take(i as int));
            assert(storage.requests_view().take(i as int + 1).last() == storage
                .requests_view()[i as int]);
        }
        if str_eq(storage.request_at(i).status.as_str(), s) {
            count = count + 1;
        }
        i = i + 1;
    }
    proof {
        assert(storage.requests_view().take(n as int) =~= storage.requests_view());
    }
    count
}

/// Counts the stored requests that ended in failure.
fn count_failed_exec(storage: &Storage) -> (r: usize)
    ensures
        r == count_failed(storage.requests_view()),
{
    let n = storage.requests_len();
    let mut count: usize = 0;
    let mut i: usize = 0;
    while i < n
        invariant
            i <= n,
            count <= i,
            storage.requests_view().len() == n,
            count == count_failed(storage.requests_view().take(i as int)),
        decreases n - i,
    {
        proof {
            assert(storage.requests_view().take(i as int + 1).drop_last() =~= storage
                .requests_view()
                .take(i as int));
            assert(storage.requests_view().take(i as int + 1).last() == storage
                .requests_view()[i as int]);
        }
        if str_eq(storage.request_at(i).status.as_str(), "failed") || str_eq(
            storage.request_at(i).status.as_str(),
            "rejected",
        ) {
            count = count + 1;
        }
        i = i + 1;
    }
    proof {
        assert(storage.requests_view().take(n as int) =~= storage.requests_view());
    }
    count
}

impl Report {
    /// Snapshots the whole store and derives the summary counts. The
    /// generation time comes from the wall clock.
    pub fn build(storage: &Storage) -> (r: Report)
        ensures
            r.brokers.deep_view().to_multiset() == storage.brokers_view().to_multiset(),
            forall|i: int, j: int|
                0 <= i < j < r.brokers.deep_view().len() ==> crate::text::lex_le(
                    (#[trigger] r.brokers.deep_view()[i]).name,
                    (#[trigger] r.brokers.deep_view()[j]).name,
                ),
            r.records.deep_view().to_multiset() == storage.records_view().to_multiset(),
            forall|i: int, j: int|
                0 <= i < j < r.records.deep_view().len() ==> lex_le(
                    (#[trigger] r.records.deep_view()[j]).found_at,
                    (#[trigger] r.records.deep_view()[i]).found_at,
                ),
            r.deletion_requests.deep_view().to_multiset() == storage.requests_view().to_multiset(),
            forall|i: int, j: int|
                0 <= i < j < r.deletion_requests.deep_view().len() ==> lex_le(
                    (#[trigger] r.deletion_requests.deep_view()[j]).created_at,
                    (#[trigger] r.deletion_requests.deep_view()[i]).created_at,
                ),
            r.summary.total_brokers == storage.brokers_view().len(),
            r.summary.total_records == storage.records_view().len(),
            r.summary.total_deletions == storage.requests_view().len(),
            r.summary.deletions_pending == count_with_status(storage.requests_view(), "pending"@),
            r.summary.deletions_submitted == count_with_status(
                storage.requests_view(),
                "submitted"@,
            ),
            r.summary.deletions_completed == count_with_status(
                storage.requests_view(),
                "completed"@,
            ),
            r.summary.deletions_failed == count_failed(storage.requests_view()),
            vstd::utf8::is_ascii_chars(r.generated_at@),
            r.generated_at@.len() >= 19,
    {
        let brokers = storage.list_brokers(None, None, None);
        let records = storage.list_personal_records(None);
        let deletion_requests = storage.list_deletion_requests(None);
        proof {
            lemma_filtered_brokers_all(storage.brokers_view());
            lemma_records_for_all(storage.records_view());
            lemma_requests_for_all(storage.requests_view());
            vstd::seq_lib::to_multiset_len(brokers.deep_view());
            vstd::seq_lib::to_multiset_len(storage.brokers_view());
            vstd::seq_lib::to_multiset_len(records.deep_view());
            vstd::seq_lib::to_multiset_len(storage.records_view());
            vstd::seq_lib::to_multiset_len(deletion_requests.deep_view());
            vstd::seq_lib::to_multiset_len(storage.requests_view());
            assert(brokers.deep_view().len() == brokers@.len());
            assert(records.deep_view().len() == records@.len());
            assert(deletion_requests.deep_view().len() == deletion_requests@.len());
        }
        let summary = ReportSummary {
            total_brokers: brokers.len(),
            total_records: records.len(),
            total_deletions: deletion_requests.len(),
            deletions_pending: count_status_exec(storage, "pending"),
            deletions_submitted: count_status_exec(storage, "submitted"),
            deletions_completed: count_status_exec(storage, "completed"),
            deletions_failed: count_failed_exec(storage),
        };
        Report { generated_at: now_rfc3339(), brokers, records, deletion_requests, summary }
    }
}

} // verus!
