//! The deletion orchestrator: resolves a record selector to a concrete
//! record set, partitions it by broker, decides which partitions can be
//! submitted, and persists submission outcomes. Deletion is requested once
//! per broker per pass, covering all its selected records; a partition whose
//! broker cannot delete counts every record as failed and writes nothing.

use vstd::prelude::*;

use crate::connector::{ConnectorRegistry, DeletionSubmission, lookup_entries};
use crate::error::AppError;
use crate::ids::fresh_id;
use crate::models::{DeletionRequest, DeletionRequestView, PersonalRecord, PersonalRecordView};
use crate::storage::{find_seq, has_broker, has_record, has_request, records_for, Storage};
use crate::text::{lex_le, str_eq};

verus! {

/// The records a selector resolved: exactly the selected rows, sorted by
/// found-at time descending as `Storage::list_personal_records` lists them.
pub open spec fn resolved_set_ok(
    v: Seq<PersonalRecordView>,
    rs: Seq<PersonalRecordView>,
    broker_id: Option<Seq<char>>,
) -> bool {
    &&& v.to_multiset() == records_for(rs, broker_id).to_multiset()
    &&& v.len() > 0
    &&& (forall|i: int, j: int|
        0 <= i < j < v.len() ==> lex_le((#[trigger] v[j]).found_at, (#[trigger] v[i]).found_at))
}

/// Resolves the record selector of a deletion pass: one record by
/// identifier, one broker's records, or all stored records — in that order
/// of precedence. An empty result set is a failure, never an empty pass.
pub fn resolve_records(
    storage: &Storage,
    all: bool,
    broker_id: Option<&str>,
    record_id: Option<&str>,
) -> (r: Result<Vec<PersonalRecord>, AppError>)
    ensures
        match record_id.deep_view() {
            Some(rid) => match r {
                Ok(v) => find_seq(storage.records_view(), |x: PersonalRecordView| x.id == rid)
                    matches Some(p) && v.deep_view() =~= seq![p],
                Err(e) => find_seq(storage.records_view(), |x: PersonalRecordView| x.id == rid)
                    is None && (e matches AppError::RecordNotFound(m) && m@ == rid),
            },
            None => match broker_id.deep_view() {
                Some(bid) => match r {
                    Ok(v) => resolved_set_ok(v.deep_view(), storage.records_view(), Some(bid)),
                    Err(e) => records_for(storage.records_view(), Some(bid)).len() == 0 && (
                    e matches AppError::NoRecordsToDelete),
                },
                None => if all {
                    match r {
                        Ok(v) => resolved_set_ok(v.deep_view(), storage.records_view(), None),
                        Err(e) => records_for(storage.records_view(), None).len() == 0 && (
                        e matches AppError::NoRecordsToDelete),
                    }
                } else {
                    r matches Err(e) && e matches AppError::Config(_)
                },
            },
        },
{
    if let Some(rid) = record_id {
        match storage.get_personal_record(rid) {
            Some(p) => {
                let mut v: Vec<PersonalRecord> = Vec::new();
                let ghost pv = p@;
                v.push(p);
                proof {
                    assert(v.deep_view() =~= seq![pv]);
                }
                Ok(v)
            },
            None => Err(AppError::RecordNotFound(String::from_str(rid))),
        }
    } else if let Some(bid) = broker_id {
        let v = storage.list_personal_records(Some(bid));
        proof {
            vstd::seq_lib::to_multiset_len(v.deep_view());
            vstd::seq_lib::to_multiset_len(records_for(storage.records_view(), Some(bid@)));
        }
        if v.len() == 0 {
            Err(AppError::NoRecordsToDelete)
        } else {
            Ok(v)
        }
    } else if all {
        let v = storage.list_personal_records(None);
        proof {
            vstd::seq_lib::to_multiset_len(v.deep_view());
            vstd::seq_lib::to_multiset_len(records_for(storage.records_view(), None));
        }
        if v.len() == 0 {
            Err(AppError::NoRecordsToDelete)
        } else {
            Ok(v)
        }
    } else {
        Err(AppError::Config(String::from_str("Specify --all, --broker <id>, or --record <id>")))
    }
}

/// The distinct broker identifiers of a record set, in first-use order.
pub open spec fn distinct_brokers(rs: Seq<PersonalRecordView>) -> Seq<Seq<char>>
    decreases rs.len(),
{
    if rs.len() == 0 {
        Seq::empty()
    } else {
        let sub = distinct_brokers(rs.drop_last());
        if sub.contains(rs.last().broker_id) {
            sub
        } else {
            sub.push(rs.last().broker_id)
        }
    }
}

/// The records of `rs` that belong to broker `bid`, in order.
pub open spec fn partition_of(rs: Seq<PersonalRecordView>, bid: Seq<char>) -> Seq<
    PersonalRecordView,
> {
    records_for(rs, Some(bid))
}

/// One per-broker partition of a deletion pass.
pub struct BrokerGroup {
    pub broker_id: String,
    pub records: Vec<PersonalRecord>,
}

/// Whether `v` holds a string whose characters are `s`.
fn contains_string(v: &Vec<String>, s: &str) -> (r: bool)
    ensures
        r == v.deep_view().contains(s@),
{
    let mut i: usize = 0;
    while i < v.len()
        invariant
            i <= v.len(),
            v.deep_view().len() == v.len(),
            forall|j: int| 0 <= j < i ==> #[trigger] v.deep_view()[j] != s@,
        decreases v.len() - i,
    {
        proof {
            assert(v.deep_view()[i as int] == v@[i as int]@);
        }
        if str_eq(v[i].as_str(), s) {
            return true;
        }
        i = i + 1;
    }
    proof {
        assert(!v.deep_view().contains(s@));
    }
    false
}

/// The records of `records` that belong to broker `bid`, in order.
fn filter_records_by_broker(records: &Vec<PersonalRecord>, bid: &str) -> (r: Vec<PersonalRecord>)
    ensures
        r.deep_view() == partition_of(records.deep_view(), bid@),
{
    let mut out: Vec<PersonalRecord> = Vec::new();
    let mut i: usize = 0;
    while i < records.len()
        invariant
            i <= records.len(),
            records.deep_view().len() == records.len(),
            out.deep_view() =~= records_for(records.deep_view().take(i as int), Some(bid@)),
        decreases records.len() - i,
    {
        proof {
            assert(records.deep_view()[i as int] == records@[i as int]@);
        }
        if str_eq(records[i].broker_id.as_str(), bid) {
            out.push(records[i].clone());
        }
        proof {
            assert(records.deep_view().take(i as int + 1).drop_last() =~= records.deep_view().take(
                i as int,
            ));
            assert(records.deep_view().take(i as int + 1).last() == records.deep_view()[i as int]);
        }
        i = i + 1;
    }
    proof {
        assert(records.deep_view().take(records.len() as int) =~= records.deep_view());
    }
    out
}

/// Step two of a deletion pass: partition the record set by broker. Group
/// order follows the brokers' first use; each group holds its broker's
/// records in order.
pub fn group_by_broker(records: &Vec<PersonalRecord>) -> (groups: Vec<BrokerGroup>)
    ensures
        ({
            let keys = distinct_brokers(records.deep_view());
            &&& groups@.len() == keys.len()
            &&& forall|g: int|
                0 <= g < keys.len() ==> (#[trigger] groups@[g]).broker_id@ == keys[g]
                    && groups@[g].records.deep_view() == partition_of(
                    records.deep_view(),
                    keys[g],
                )
        }),
{
    let mut keys: Vec<String> = Vec::new();
    let mut i: usize = 0;
    while i < records.len()
        invariant
            i <= records.len(),
            records.deep_view().len() == records.len(),
            keys.deep_view() =~= distinct_brokers(records.deep_view().take(i as int)),
        decreases records.len() - i,
    {
        proof {
            assert(records.deep_view()[i as int] == records@[i as int]@);
        }
        if !contains_string(&keys, records[i].broker_id.as_str()) {
            keys.push(records[i].broker_id.clone());
        }
        proof {
            assert(records.deep_view().take(i as int + 1).drop_last() =~= records.deep_view().take(
                i as int,
            ));
            assert(records.deep_view().take(i as int + 1).last() == records.deep_view()[i as int]);
        }
        i = i + 1;
    }
    proof {
        assert(records.deep_view().take(records.len() as int) =~= records.deep_view());
    }
    let mut groups: Vec<BrokerGroup> = Vec::new();
    let mut g: usize = 0;
    while g < keys.len()
        invariant
            g <= keys.len(),
            keys.deep_view() == distinct_brokers(records.deep_view()),
            keys.deep_view().len() == keys.len(),
            groups@.len() == g,
            forall|k: int|
                0 <= k < g ==> (#[trigger] groups@[k]).broker_id@ == keys.deep_view()[k]
                    && groups@[k].records.deep_view() == partition_of(
                    records.deep_view(),
                    keys.deep_view()[k],
                ),
        decreases keys.len() - g,
    {
        proof {
            assert(keys.deep_view()[g as int] == keys@[g as int]@);
        }
        let part = filter_records_by_broker(records, keys[g].as_str());
        groups.push(BrokerGroup { broker_id: keys[g].clone(), records: part });
        g = g + 1;
    }
    groups
}

/// The fact a stored record reports, as a connector takes it: same kind,
/// value and profile link, without storage identity or raw payload.
pub open spec fn record_to_found_view(r: PersonalRecordView) -> crate::connector::FoundRecordView {
    crate::connector::FoundRecordView {
        data_type: r.data_type,
        data_value: r.data_value,
        profile_url: r.profile_url,
        metadata: None,
    }
}

/// The facts of a partition, as `requestDeletion` takes them.
pub fn records_to_found(records: &Vec<PersonalRecord>) -> (r: Vec<crate::connector::FoundRecord>)
    ensures
        r.deep_view() =~= Seq::new(
            records.deep_view().len(),
            |k: int| record_to_found_view(records.deep_view()[k]),
        ),
{
    let mut out: Vec<crate::connector::FoundRecord> = Vec::new();
    let mut i: usize = 0;
    while i < records.len()
        invariant
            i <= records.len(),
            records.deep_view().len() == records.len(),
            out.deep_view().len() == i,
            forall|k: int|
                0 <= k < i ==> #[trigger] out.deep_view()[k] == record_to_found_view(
                    records.deep_view()[k],
                ),
        decreases records.len() - i,
    {
        let rec = &records[i];
        let f = crate::connector::FoundRecord {
            data_type: rec.data_type.clone(),
            data_value: rec.data_value.clone(),
            profile_url: crate::text::clone_opt_string(&rec.profile_url),
            metadata: None,
        };
        proof {
            assert(records.deep_view()[i as int] == records@[i as int]@);
            assert(f@ == record_to_found_view(records.deep_view()[i as int]));
        }
        let ghost pre = out.deep_view();
        out.push(f);
        proof {
            assert(out.deep_view() =~= pre.push(
                record_to_found_view(records.deep_view()[i as int]),
            ));
        }
        i = i + 1;
    }
    out
}

/// What one deletion pass reports: how many records were submitted for
/// deletion and how many failed. Never a silent partial success.
pub struct DeletionReport {
    pub submitted: usize,
    pub failed: usize,
}

impl DeletionReport {
    pub fn new() -> (r: DeletionReport)
        ensures
            r.submitted == 0,
            r.failed == 0,
    {
        DeletionReport { submitted: 0, failed: 0 }
    }
}

/// Step three of a deletion pass, per broker: whether the broker has a
/// registered connector that supports deletion. Capability comes from the
/// live connector, never from stored metadata.
pub fn deletion_supported(registry: &ConnectorRegistry, broker_id: &str) -> (r: bool)
    ensures
        r == (lookup_entries(registry@, broker_id@) matches Some(c) && c.capabilities.can_delete),
{
    match registry.get(broker_id) {
        Some(info) => info.capabilities.can_delete,
        None => false,
    }
}

/// A partition that cannot be submitted — its broker has no connector, the
/// connector cannot delete, or the submission failed: every record in it
/// counts as failed, and no deletion request row is created (storage is
/// untouched).
pub fn apply_deletion_refusal(
    storage: &mut Storage,
    report: &mut DeletionReport,
    group: &Vec<PersonalRecord>,
) -> (r: Result<(), AppError>)
    requires
        old(report).failed + group@.len() <= usize::MAX,
    ensures
        *final(storage) == *old(storage),
        final(report).failed == old(report).failed + group@.len(),
        final(report).submitted == old(report).submitted,
        r is Ok,
{
    report.failed = report.failed + group.len();
    Ok(())
}

/// The deletion-request row recorded for one record of an accepted
/// partition.
pub open spec fn submission_row(
    broker_id: Seq<char>,
    record_id: Seq<char>,
    row_id: Seq<char>,
    external_ref: Seq<char>,
    now: Seq<char>,
) -> DeletionRequestView {
    DeletionRequestView {
        id: row_id,
        broker_id: broker_id,
        personal_record_id: Some(record_id),
        status: "submitted"@,
        submitted_at: Some(now),
        completed_at: None,
        error_message: None,
        external_ref: Some(external_ref),
        created_at: now,
        updated_at: now,
    }
}

/// The rows recorded for a whole accepted partition: one per record, all
/// sharing the submission's external reference and timestamp.
pub open spec fn submission_rows(
    group: Seq<PersonalRecordView>,
    broker_id: Seq<char>,
    ids: Seq<Seq<char>>,
    external_ref: Seq<char>,
    now: Seq<char>,
) -> Seq<DeletionRequestView> {
    Seq::new(group.len(), |k: int| submission_row(broker_id, group[k].id, ids[k], external_ref, now))
}

/// Records an accepted submission: one deletion request per record of the
/// partition, all sharing the same external reference, `submitted` status
/// and submission timestamp, under the given fresh row identifiers.
/// Succeeds exactly where the broker and every record are stored and the
/// identifiers are distinct and unused; it fails before writing anything.
pub fn record_submission_rows(
    storage: &mut Storage,
    broker_id: &str,
    group: &Vec<PersonalRecord>,
    ids: &Vec<String>,
    external_ref: &str,
    now: &str,
) -> (r: Result<(), AppError>)
    requires
        old(storage).wf(),
        ids.len() == group.len(),
    ensures
        final(storage).wf(),
        final(storage).brokers_view() == old(storage).brokers_view(),
        final(storage).records_view() == old(storage).records_view(),
        final(storage).meta_view() == old(storage).meta_view(),
        ({
            let ok = has_broker(old(storage).brokers_view(), broker_id@) && (forall|k: int|
                0 <= k < group.deep_view().len() ==> has_record(
                    old(storage).records_view(),
                    (#[trigger] group.deep_view()[k]).id,
                )) && (forall|k: int|
                0 <= k < ids.deep_view().len() ==> !has_request(
                    old(storage).requests_view(),
                    #[trigger] ids.deep_view()[k],
                )) && (forall|k: int, l: int|
                0 <= k < l < ids.deep_view().len() ==> ids.deep_view()[k] != ids.deep_view()[l]);
            if ok {
                r is Ok && final(storage).requests_view() == old(storage).requests_view()
                    + submission_rows(
                    group.deep_view(),
                    broker_id@,
                    ids.deep_view(),
                    external_ref@,
                    now@,
                )
            } else {
                r is Err && final(storage).requests_view() == old(storage).requests_view()
            }
        }),
{
    let ghost qs0 = old(storage).requests_view();
    let ghost gv = group.deep_view();
    let ghost idsv = ids.deep_view();
    let ghost rows = submission_rows(gv, broker_id@, idsv, external_ref@, now@);
    if !storage.has_broker_id(broker_id) {
        let mut m = String::from_str("unknown broker '");
        m.append(broker_id);
        m.append("' for deletion request");
        return Err(AppError::Database(m));
    }
    let mut k: usize = 0;
    while k < group.len()
        invariant
            old(storage).wf(),
            *storage == *old(storage),
            k <= group.len(),
            gv == group.deep_view(),
            gv.len() == group.len(),
            forall|j: int| 0 <= j < k ==> has_record(
                old(storage).records_view(),
                (#[trigger] gv[j]).id,
            ),
        decreases group.len() - k,
    {
        proof {
            assert(gv[k as int] == group@[k as int]@);
        }
        if !storage.has_record_id(group[k].id.as_str()) {
            let mut m = String::from_str("unknown personal record '");
            m.append(group[k].id.as_str());
            m.append("' for deletion request");
            return Err(AppError::Database(m));
        }
        k = k + 1;
    }
    let mut k2: usize = 0;
    while k2 < ids.len()
        invariant
            old(storage).wf(),
            *storage == *old(storage),
            k2 <= ids.len(),
            idsv == ids.deep_view(),
            idsv.len() == ids.len(),
            forall|j: int| 0 <= j < k2 ==> !has_request(
                old(storage).requests_view(),
                #[trigger] idsv[j],
            ),
        decreases ids.len() - k2,
    {
        proof {
            assert(idsv[k2 as int] == ids@[k2 as int]@);
        }
        if storage.has_request_id(ids[k2].as_str()) {
            let mut m = String::from_str("deletion request identifier '");
            m.append(ids[k2].as_str());
            m.append("' is already taken");
            return Err(AppError::Database(m));
        }
        k2 = k2 + 1;
    }
    let mut a: usize = 0;
    while a < ids.len()
        invariant
            old(storage).wf(),
            *storage == *old(storage),
            a <= ids.len(),
            idsv == ids.deep_view(),
            idsv.len() == ids.len(),
            forall|j: int, l: int| 0 <= j < l < idsv.len() && j < a ==> #[trigger] idsv[j]
                != #[trigger] idsv[l],
        decreases ids.len() - a,
    {
        let mut b: usize = a + 1;
        while b < ids.len()
            invariant
                old(storage).wf(),
                *storage == *old(storage),
                a < ids.len(),
                a < b <= ids.len(),
                idsv == ids.deep_view(),
                idsv.len() == ids.len(),
                forall|l: int| a < l < b ==> idsv[a as int] != #[trigger] idsv[l],
            decreases ids.len() - b,
        {
            proof {
                assert(idsv[a as int] == ids@[a as int]@);
                assert(idsv[b as int] == ids@[b as int]@);
            }
            if str_eq(ids[a].as_str(), ids[b].as_str()) {
                let mut m = String::from_str("deletion request identifier '");
                m.append(ids[a].as_str());
                m.append("' is repeated");
                return Err(AppError::Database(m));
            }
            b = b + 1;
        }
        a = a + 1;
    }
    let mut i: usize = 0;
    while i < group.len()
        invariant
            storage.wf(),
            i <= group.len(),
            ids.len() == group.len(),
            gv == group.deep_view(),
            idsv == ids.deep_view(),
            gv.len() == group.len(),
            idsv.len() == ids.len(),
            qs0 == old(storage).requests_view(),
            rows == submission_rows(gv, broker_id@, idsv, external_ref@, now@),
            rows.len() == group.len(),
            storage.brokers_view() == old(storage).brokers_view(),
            storage.records_view() == old(storage).records_view(),
            storage.meta_view() == old(storage).meta_view(),
            has_broker(storage.brokers_view(), broker_id@),
            forall|j: int| 0 <= j < gv.len() ==> has_record(
                storage.records_view(),
                (#[trigger] gv[j]).id,
            ),
            forall|j: int| i <= j < idsv.len() ==> !has_request(
                old(storage).requests_view(),
                #[trigger] idsv[j],
            ),
            forall|j: int, l: int| 0 <= j < l < idsv.len() ==> #[trigger] idsv[j]
                != #[trigger] idsv[l],
            storage.requests_view() =~= qs0 + rows.take(i as int),
        decreases group.len() - i,
    {
        let row = DeletionRequest {
            id: ids[i].clone(),
            broker_id: String::from_str(broker_id),
            personal_record_id: Some(group[i].id.clone()),
            status: String::from_str("submitted"),
            submitted_at: Some(String::from_str(now)),
            completed_at: None,
            error_message: None,
            external_ref: Some(String::from_str(external_ref)),
            created_at: String::from_str(now),
            updated_at: String::from_str(now),
        };
        proof {
            assert(gv[i as int] == group@[i as int]@);
            assert(idsv[i as int] == ids@[i as int]@);
            assert(row@ == submission_row(broker_id@, gv[i as int].id, idsv[i as int], external_ref@, now@));
            assert(row@ == rows[i as int]);
            assert forall|j: int| 0 <= j < storage.requests_view().len() implies (
            #[trigger] storage.requests_view()[j]).id != row@.id by {
                if j < qs0.len() {
                    assert(storage.requests_view()[j] == qs0[j]);
                    assert(!has_request(qs0, idsv[i as int]));
                } else {
                    assert(storage.requests_view()[j] == rows[j - qs0.len()]);
                    assert(idsv[j - qs0.len()] != idsv[i as int]);
                }
            }
            assert(!has_request(storage.requests_view(), row@.id));
        }
        let ghost qs_cur = storage.requests_view();
        let res = storage.insert_deletion_request(&row);
        if let Err(e) = res {
            proof {
                assert(false);
            }
            return Err(e);
        }
        proof {
            assert(storage.requests_view() =~= qs0 + rows.take(i as int + 1));
        }
        i = i + 1;
    }
    proof {
        assert(rows.take(group.len() as int) =~= rows);
    }
    Ok(())
}

/// Step four of a deletion pass, per broker, on a successful submission:
/// record one deletion request per record of the partition — all sharing the
/// submission's external reference — under fresh identifiers, and count the
/// whole partition as submitted.
pub fn apply_submission_success(
    storage: &mut Storage,
    report: &mut DeletionReport,
    broker_id: &str,
    group: &Vec<PersonalRecord>,
    submission: &DeletionSubmission,
    now: &str,
) -> (r: Result<(), AppError>)
    requires
        old(storage).wf(),
        old(report).submitted + group@.len() <= usize::MAX,
    ensures
        final(storage).wf(),
        final(storage).brokers_view() == old(storage).brokers_view(),
        final(storage).records_view() == old(storage).records_view(),
        final(storage).meta_view() == old(storage).meta_view(),
        final(report).failed == old(report).failed,
        match r {
            Ok(()) => {
                &&& final(report).submitted == old(report).submitted + group@.len()
                &&& (exists|ids: Seq<Seq<char>>|
                    ids.len() == group.deep_view().len() && final(storage).requests_view() == old(
                        storage,
                    ).requests_view() + submission_rows(
                        group.deep_view(),
                        broker_id@,
                        ids,
                        submission@.external_ref,
                        now@,
                    ))
            },
            Err(_) => final(storage).requests_view() == old(storage).requests_view()
                && final(report).submitted == old(report).submitted,
        },
{
    let mut ids: Vec<String> = Vec::new();
    let mut k: usize = 0;
    while k < group.len()
        invariant
            k <= group.len(),
            ids@.len() == k,
        decreases group.len() - k,
    {
        ids.push(fresh_id());
        k = k + 1;
    }
    proof {
        assert(ids.deep_view().len() == group.len());
    }
    match record_submission_rows(
        storage,
        broker_id,
        group,
        &ids,
        submission.external_ref.as_str(),
        now,
    ) {
        Ok(()) => {
            proof {
                assert(storage.requests_view() == old(storage).requests_view() + submission_rows(
                    group.deep_view(),
                    broker_id@,
                    ids.deep_view(),
                    submission@.external_ref,
                    now@,
                ));
            }
            report.submitted = report.submitted + group.len();
            Ok(())
        },
        Err(e) => Err(e),
    }
}

} // verus!
