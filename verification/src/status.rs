//! The status reconciler: decides which in-flight deletion requests to poll
//! and applies each poll's answer idempotently. Only `submitted` and
//! `in_progress` requests with an external reference and a status-capable
//! connector are polled, so terminal states are stable by construction; a
//! poll that reports the stored status changes nothing, timestamps included.

use vstd::prelude::*;

use crate::connector::{ConnectorRegistry, DeletionStatusCheck, lookup_entries};
use crate::error::AppError;
use crate::models::{DeletionRequest, DeletionRequestView};
use crate::storage::{apply_request_update, find_seq, update_request_model, Storage};
use crate::text::str_eq;

verus! {

/// A stored status that reconciliation may still move: `submitted` or
/// `in_progress`. The terminal states are never re-polled.
pub open spec fn status_in_flight(status: Seq<char>) -> bool {
    status == "submitted"@ || status == "in_progress"@
}

/// What the reconciler does with one request: poll the connector with the
/// request's external reference, or leave the request alone.
pub enum ReconcileAction {
    Poll(String),
    Skip,
}

/// Whether one request is due a poll: its stored status is in flight, it
/// carries an external reference, and its broker has a registered connector
/// that can check status. A request whose broker has no connector is left
/// untouched and reports no error.
pub open spec fn poll_due(req: DeletionRequestView, registry: Seq<crate::connector::ConnectorInfoView>) -> bool {
    &&& status_in_flight(req.status)
    &&& req.external_ref is Some
    &&& (lookup_entries(registry, req.broker_id) matches Some(c) && c.capabilities.can_check_status)
}

/// Step two of a reconciliation pass, for one request: decide whether to
/// poll it, and with which external reference.
pub fn reconcile_decision(registry: &ConnectorRegistry, req: &DeletionRequest) -> (r:
    ReconcileAction)
    ensures
        match r {
            ReconcileAction::Poll(ext) => poll_due(req@, registry@) && req@.external_ref == Some(
                ext@,
            ),
            ReconcileAction::Skip => !poll_due(req@, registry@),
        },
{
    let in_flight = str_eq(req.status.as_str(), "submitted") || str_eq(
        req.status.as_str(),
        "in_progress",
    );
    if !in_flight {
        return ReconcileAction::Skip;
    }
    let ext = match &req.external_ref {
        Some(e) => e.clone(),
        None => {
            return ReconcileAction::Skip;
        },
    };
    match registry.get(req.broker_id.as_str()) {
        Some(info) => {
            if info.capabilities.can_check_status {
                ReconcileAction::Poll(ext)
            } else {
                ReconcileAction::Skip
            }
        },
        None => ReconcileAction::Skip,
    }
}

/// Step three of a reconciliation pass, for one polled request: where the
/// connector reports a status other than the stored one, overwrite status,
/// completion time and error message and bump the updated timestamp; where
/// it reports the stored status, change nothing at all — re-running
/// reconciliation when nothing changed remotely is a no-op, timestamps
/// included. Returns whether the request changed.
pub fn apply_status_check(
    storage: &mut Storage,
    request_id: &str,
    check: &DeletionStatusCheck,
    now: &str,
) -> (r: Result<bool, AppError>)
    requires
        old(storage).wf(),
    ensures
        final(storage).wf(),
        r is Ok,
        final(storage).brokers_view() == old(storage).brokers_view(),
        final(storage).records_view() == old(storage).records_view(),
        final(storage).meta_view() == old(storage).meta_view(),
        ({
            let stored = find_seq(
                old(storage).requests_view(),
                |x: DeletionRequestView| x.id == request_id@,
            );
            match stored {
                Some(req) => {
                    if check@.status == req.status {
                        r == Ok::<bool, AppError>(false) && final(storage).requests_view() == old(
                            storage,
                        ).requests_view()
                    } else {
                        r == Ok::<bool, AppError>(true) && final(storage).requests_view()
                            == update_request_model(
                            old(storage).requests_view(),
                            DeletionRequestView {
                                status: check@.status,
                                completed_at: check@.completed_at,
                                error_message: check@.message,
                                updated_at: now@,
                                ..req
                            },
                        )
                    }
                },
                None => r == Ok::<bool, AppError>(false) && final(storage).requests_view() == old(
                    storage,
                ).requests_view(),
            }
        }),
{
    let existing = match storage.get_deletion_request(request_id) {
        Some(q) => q,
        None => {
            return Ok(false);
        },
    };
    if str_eq(existing.status.as_str(), check.status.as_str()) {
        return Ok(false);
    }
    let updated = DeletionRequest {
        id: existing.id.clone(),
        broker_id: existing.broker_id.clone(),
        personal_record_id: crate::text::clone_opt_string(&existing.personal_record_id),
        status: check.status.clone(),
        submitted_at: crate::text::clone_opt_string(&existing.submitted_at),
        completed_at: crate::text::clone_opt_string(&check.completed_at),
        error_message: crate::text::clone_opt_string(&check.message),
        external_ref: crate::text::clone_opt_string(&existing.external_ref),
        created_at: existing.created_at.clone(),
        updated_at: String::from_str(now),
    };
    let ghost target = DeletionRequestView {
        status: check@.status,
        completed_at: check@.completed_at,
        error_message: check@.message,
        updated_at: now@,
        ..existing@
    };
    proof {
        assert(updated@.id == target.id);
        lemma_request_update_same(old(storage).requests_view(), updated@, target);
    }
    let res = storage.update_deletion_request(&updated);
    match res {
        Ok(()) => Ok(true),
        Err(e) => Err(e),
    }
}

/// Two update rows that agree on the identifier and on every overwritten
/// field drive the requests table to the same place.
proof fn lemma_request_update_same(
    qs: Seq<DeletionRequestView>,
    a: DeletionRequestView,
    b: DeletionRequestView,
)
    requires
        a.id == b.id,
        a.status == b.status,
        a.completed_at == b.completed_at,
        a.error_message == b.error_message,
        a.updated_at == b.updated_at,
    ensures
        update_request_model(qs, a) == update_request_model(qs, b),
    decreases qs.len(),
{
    if qs.len() > 0 {
        lemma_request_update_same(qs.drop_first(), a, b);
        assert(apply_request_update(qs[0], a) == apply_request_update(qs[0], b));
    }
}

/// The requests whose current stored status is the given one — or all of
/// them. The filter reads the status after reconciliation, not before.
pub fn filter_requests_by_status(
    requests: &Vec<DeletionRequest>,
    status: Option<&str>,
) -> (r: Vec<DeletionRequest>)
    ensures
        r.deep_view() == requests_with_status(requests.deep_view(), status.deep_view()),
{
    let mut out: Vec<DeletionRequest> = Vec::new();
    let mut i: usize = 0;
    while i < requests.len()
        invariant
            i <= requests.len(),
            requests.deep_view().len() == requests.len(),
            out.deep_view() =~= requests_with_status(
                requests.deep_view().take(i as int),
                status.deep_view(),
            ),
        decreases requests.len() - i,
    {
        let keep = match status {
            Some(s) => str_eq(requests[i].status.as_str(), s),
            None => true,
        };
        proof {
            assert(requests.deep_view()[i as int] == requests@[i as int]@);
        }
        if keep {
            out.push(requests[i].clone());
        }
        proof {
            assert(requests.deep_view().take(i as int + 1).drop_last() =~= requests.deep_view()
                .take(i as int));
            assert(requests.deep_view().take(i as int + 1).last() == requests.deep_view()[i as int]);
        }
        i = i + 1;
    }
    proof {
        assert(requests.deep_view().take(requests.len() as int) =~= requests.deep_view());
    }
    out
}

/// The requests carrying the given status — or all of them, where no status
/// is asked for.
pub open spec fn requests_with_status(
    qs: Seq<DeletionRequestView>,
    status: Option<Seq<char>>,
) -> Seq<DeletionRequestView>
    decreases qs.len(),
{
    if qs.len() == 0 {
        Seq::empty()
    } else {
        let sub = requests_with_status(qs.drop_last(), status);
        if match status {
            Some(s) => qs.last().status == s,
            None => true,
        } {
            sub.push(qs.last())
        } else {
            sub
        }
    }
}

} // verus!
