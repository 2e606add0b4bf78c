//! The in-memory storage model the engine runs against: brokers, personal
//! records, deletion requests and a flat key/value metadata store, with the
//! uniqueness and foreign-key invariants the persisted data must satisfy.
//!
//! Uniqueness: brokers and deletion requests on their id, personal records on
//! their id and on the triple (broker, kind, value), metadata on its key.
//! Foreign keys: every record and request names a stored broker; a request
//! that names a personal record names a stored one.

use vstd::prelude::*;

use crate::error::AppError;
use crate::models::{
    Broker, BrokerView, DeletionRequest, DeletionRequestView, PersonalRecord, PersonalRecordView,
};
use crate::text::{clone_opt_string, contains_csv, csv_has, lemma_lex_le_total, lemma_lex_le_trans, lex_le, str_eq, str_le};

verus! {

/// First element of `s` satisfying `pred`, if any.
pub open spec fn find_seq<T>(s: Seq<T>, pred: spec_fn(T) -> bool) -> Option<T>
    decreases s.len(),
{
    if s.len() == 0 {
        None
    } else if pred(s[0]) {
        Some(s[0])
    } else {
        find_seq(s.drop_first(), pred)
    }
}

pub proof fn lemma_find_seq_none<T>(s: Seq<T>, pred: spec_fn(T) -> bool)
    ensures
        (find_seq(s, pred) is None) <==> (forall|i: int| 0 <= i < s.len() ==> !pred(#[trigger] s[i])),
    decreases s.len(),
{
    if s.len() > 0 {
        let rest = s.drop_first();
        lemma_find_seq_none(rest, pred);
        if find_seq(s, pred) is None {
            assert forall|i: int| 0 <= i < s.len() implies !pred(#[trigger] s[i]) by {
                if i > 0 {
                    assert(rest[i - 1] == s[i]);
                }
            }
        } else {
            if !pred(s[0]) {
                let w = choose|i: int| 0 <= i < rest.len() && pred(#[trigger] rest[i]);
                assert(s[w + 1] == rest[w]);
            }
        }
    }
}

pub proof fn lemma_find_seq_some<T>(s: Seq<T>, pred: spec_fn(T) -> bool)
    requires
        find_seq(s, pred) is Some,
    ensures
        exists|i: int|
            0 <= i < s.len() && #[trigger] s[i] == find_seq(s, pred)->0 && pred(s[i]) && (forall|
                j: int,
            | 0 <= j < i ==> !pred(#[trigger] s[j])),
    decreases s.len(),
{
    if pred(s[0]) {
        assert(s[0] == find_seq(s, pred)->0 && pred(s[0]) && (forall|j: int|
            0 <= j < 0 ==> !pred(#[trigger] s[j])));
    } else {
        let rest = s.drop_first();
        lemma_find_seq_some(rest, pred);
        let w = choose|i: int|
            0 <= i < rest.len() && #[trigger] rest[i] == find_seq(rest, pred)->0 && pred(rest[i])
                && (forall|j: int| 0 <= j < i ==> !pred(#[trigger] rest[j]));
        assert(s[w + 1] == rest[w]);
        assert forall|j: int| 0 <= j < w + 1 implies !pred(#[trigger] s[j]) by {
            if j > 0 {
                assert(rest[j - 1] == s[j]);
            }
        }
        assert(s[w + 1] == find_seq(s, pred)->0 && pred(s[w + 1]) && (forall|j: int|
            0 <= j < w + 1 ==> !pred(#[trigger] s[j])));
    }
}

pub proof fn lemma_find_seq_at<T>(s: Seq<T>, pred: spec_fn(T) -> bool, i: int)
    requires
        0 <= i < s.len(),
        pred(s[i]),
        forall|j: int| 0 <= j < i ==> !pred(#[trigger] s[j]),
    ensures
        find_seq(s, pred) == Some(s[i]),
    decreases i,
{
    if i > 0 {
        let rest = s.drop_first();
        assert(forall|j: int| 0 <= j < i - 1 ==> rest[j] == #[trigger] s[j + 1]);
        lemma_find_seq_at(rest, pred, i - 1);
    }
}

/// `s` with `x` merged onto its first element of the same key, or appended
/// where no element has that key.
pub open spec fn upsert_seq<T>(
    s: Seq<T>,
    x: T,
    key_eq: spec_fn(T, T) -> bool,
    merge: spec_fn(T, T) -> T,
) -> Seq<T>
    decreases s.len(),
{
    if s.len() == 0 {
        seq![x]
    } else if key_eq(s[0], x) {
        seq![merge(s[0], x)] + s.drop_first()
    } else {
        seq![s[0]] + upsert_seq(s.drop_first(), x, key_eq, merge)
    }
}

pub proof fn lemma_upsert_seq_at<T>(
    s: Seq<T>,
    x: T,
    key_eq: spec_fn(T, T) -> bool,
    merge: spec_fn(T, T) -> T,
    i: int,
)
    requires
        0 <= i < s.len(),
        key_eq(s[i], x),
        forall|j: int| 0 <= j < i ==> !key_eq(#[trigger] s[j], x),
    ensures
        upsert_seq(s, x, key_eq, merge) =~= s.update(i, merge(s[i], x)),
    decreases i,
{
    if i == 0 {
        assert(seq![merge(s[0], x)] + s.drop_first() =~= s.update(0, merge(s[0], x)));
    } else {
        let rest = s.drop_first();
        assert(forall|j: int| 0 <= j < i - 1 ==> rest[j] == #[trigger] s[j + 1]);
        lemma_upsert_seq_at(rest, x, key_eq, merge, i - 1);
        assert(seq![s[0]] + rest.update(i - 1, merge(rest[i - 1], x)) =~= s.update(
            i,
            merge(s[i], x),
        ));
    }
}

pub proof fn lemma_upsert_seq_none<T>(
    s: Seq<T>,
    x: T,
    key_eq: spec_fn(T, T) -> bool,
    merge: spec_fn(T, T) -> T,
)
    requires
        forall|j: int| 0 <= j < s.len() ==> !key_eq(#[trigger] s[j], x),
    ensures
        upsert_seq(s, x, key_eq, merge) =~= s.push(x),
    decreases s.len(),
{
    if s.len() > 0 {
        let rest = s.drop_first();
        assert(forall|j: int| 0 <= j < rest.len() ==> rest[j] == #[trigger] s[j + 1]);
        lemma_upsert_seq_none(rest, x, key_eq, merge);
        assert(seq![s[0]] + rest.push(x) =~= s.push(x));
    }
}

/// `s` with `x` applied onto its first element of the same key; unchanged
/// where no element has that key.
pub open spec fn update_seq<T>(
    s: Seq<T>,
    x: T,
    key_eq: spec_fn(T, T) -> bool,
    apply: spec_fn(T, T) -> T,
) -> Seq<T>
    decreases s.len(),
{
    if s.len() == 0 {
        s
    } else if key_eq(s[0], x) {
        seq![apply(s[0], x)] + s.drop_first()
    } else {
        seq![s[0]] + update_seq(s.drop_first(), x, key_eq, apply)
    }
}

pub proof fn lemma_update_seq_at<T>(
    s: Seq<T>,
    x: T,
    key_eq: spec_fn(T, T) -> bool,
    apply: spec_fn(T, T) -> T,
    i: int,
)
    requires
        0 <= i < s.len(),
        key_eq(s[i], x),
        forall|j: int| 0 <= j < i ==> !key_eq(#[trigger] s[j], x),
    ensures
        update_seq(s, x, key_eq, apply) =~= s.update(i, apply(s[i], x)),
    decreases i,
{
    if i == 0 {
        assert(seq![apply(s[0], x)] + s.drop_first() =~= s.update(0, apply(s[0], x)));
    } else {
        let rest = s.drop_first();
        assert(forall|j: int| 0 <= j < i - 1 ==> rest[j] == #[trigger] s[j + 1]);
        lemma_update_seq_at(rest, x, key_eq, apply, i - 1);
        assert(seq![s[0]] + rest.update(i - 1, apply(rest[i - 1], x)) =~= s.update(
            i,
            apply(s[i], x),
        ));
    }
}

pub proof fn lemma_update_seq_none<T>(
    s: Seq<T>,
    x: T,
    key_eq: spec_fn(T, T) -> bool,
    apply: spec_fn(T, T) -> T,
)
    requires
        forall|j: int| 0 <= j < s.len() ==> !key_eq(#[trigger] s[j], x),
    ensures
        update_seq(s, x, key_eq, apply) =~= s,
    decreases s.len(),
{
    if s.len() > 0 {
        let rest = s.drop_first();
        assert(forall|j: int| 0 <= j < rest.len() ==> rest[j] == #[trigger] s[j + 1]);
        lemma_update_seq_none(rest, x, key_eq, apply);
        assert(seq![s[0]] + rest =~= s);
    }
}

/// One entry of the flat key/value metadata store.
pub struct MetaEntry {
    pub key: String,
    pub value: String,
}

pub ghost struct MetaEntryView {
    pub key: Seq<char>,
    pub value: Seq<char>,
}

impl View for MetaEntry {
    type V = MetaEntryView;

    open spec fn view(&self) -> MetaEntryView {
        MetaEntryView { key: self.key@, value: self.value@ }
    }
}

impl DeepView for MetaEntry {
    type V = MetaEntryView;

    open spec fn deep_view(&self) -> MetaEntryView {
        self.view()
    }
}

/// Some stored broker carries the identifier `id`.
pub open spec fn has_broker(brokers: Seq<BrokerView>, id: Seq<char>) -> bool {
    exists|i: int| 0 <= i < brokers.len() && (#[trigger] brokers[i]).id == id
}

/// Some stored personal record carries the identifier `id`.
pub open spec fn has_record(records: Seq<PersonalRecordView>, id: Seq<char>) -> bool {
    exists|i: int| 0 <= i < records.len() && (#[trigger] records[i]).id == id
}

/// Some stored deletion request carries the identifier `id`.
pub open spec fn has_request(requests: Seq<DeletionRequestView>, id: Seq<char>) -> bool {
    exists|i: int| 0 <= i < requests.len() && (#[trigger] requests[i]).id == id
}

/// Two personal records report the same fact: same broker, kind and value.
pub open spec fn record_key_eq(a: PersonalRecordView, b: PersonalRecordView) -> bool {
    a.broker_id == b.broker_id && a.data_type == b.data_type && a.data_value == b.data_value
}

/// What a broker upsert keeps of the stored row: only its creation time.
pub open spec fn merge_broker(old: BrokerView, new: BrokerView) -> BrokerView {
    BrokerView { created_at: old.created_at, ..new }
}

/// What a record upsert takes from the rediscovered fact: the profile link,
/// the raw payload and the found-at time; identity and key stay.
pub open spec fn merge_record(
    old: PersonalRecordView,
    new: PersonalRecordView,
) -> PersonalRecordView {
    PersonalRecordView {
        profile_url: new.profile_url,
        raw_json: new.raw_json,
        found_at: new.found_at,
        ..old
    }
}

/// What a deletion-request update overwrites: status, completion time,
/// error message and the updated-at time.
pub open spec fn apply_request_update(
    old: DeletionRequestView,
    new: DeletionRequestView,
) -> DeletionRequestView {
    DeletionRequestView {
        status: new.status,
        completed_at: new.completed_at,
        error_message: new.error_message,
        updated_at: new.updated_at,
        ..old
    }
}

pub open spec fn upsert_broker_model(bs: Seq<BrokerView>, b: BrokerView) -> Seq<BrokerView> {
    upsert_seq(
        bs,
        b,
        |x: BrokerView, y: BrokerView| x.id == y.id,
        |x: BrokerView, y: BrokerView| merge_broker(x, y),
    )
}

pub open spec fn upsert_record_model(
    rs: Seq<PersonalRecordView>,
    r: PersonalRecordView,
) -> Seq<PersonalRecordView> {
    upsert_seq(
        rs,
        r,
        |x: PersonalRecordView, y: PersonalRecordView| record_key_eq(x, y),
        |x: PersonalRecordView, y: PersonalRecordView| merge_record(x, y),
    )
}

pub open spec fn update_request_model(
    rs: Seq<DeletionRequestView>,
    r: DeletionRequestView,
) -> Seq<DeletionRequestView> {
    update_seq(
        rs,
        r,
        |x: DeletionRequestView, y: DeletionRequestView| x.id == y.id,
        |x: DeletionRequestView, y: DeletionRequestView| apply_request_update(x, y),
    )
}

pub open spec fn set_meta_model(ms: Seq<MetaEntryView>, m: MetaEntryView) -> Seq<MetaEntryView> {
    upsert_seq(
        ms,
        m,
        |x: MetaEntryView, y: MetaEntryView| x.key == y.key,
        |x: MetaEntryView, y: MetaEntryView| y,
    )
}

/// The storage invariants over the four tables: row uniqueness and
/// foreign keys.
pub open spec fn storage_wf(
    bs: Seq<BrokerView>,
    rs: Seq<PersonalRecordView>,
    qs: Seq<DeletionRequestView>,
    ms: Seq<MetaEntryView>,
) -> bool {
    &&& (forall|i: int, j: int| #![trigger bs[i], bs[j]] 0 <= i < j < bs.len() ==> bs[i].id != bs[j].id)
    &&& (forall|i: int, j: int| #![trigger rs[i], rs[j]] 0 <= i < j < rs.len() ==> rs[i].id != rs[j].id)
    &&& (forall|i: int, j: int|
        #![trigger rs[i], rs[j]]
        0 <= i < j < rs.len() ==> !record_key_eq(rs[i], rs[j]))
    &&& (forall|i: int| 0 <= i < rs.len() ==> has_broker(bs, (#[trigger] rs[i]).broker_id))
    &&& (forall|i: int, j: int| #![trigger qs[i], qs[j]] 0 <= i < j < qs.len() ==> qs[i].id != qs[j].id)
    &&& (forall|i: int| 0 <= i < qs.len() ==> has_broker(bs, (#[trigger] qs[i]).broker_id))
    &&& (forall|i: int|
        0 <= i < qs.len() ==> match (#[trigger] qs[i]).personal_record_id {
            Some(rid) => has_record(rs, rid),
            None => true,
        })
    &&& (forall|i: int, j: int|
        #![trigger ms[i], ms[j]]
        0 <= i < j < ms.len() ==> ms[i].key != ms[j].key)
}

proof fn lemma_wf_broker_update(
    bs: Seq<BrokerView>,
    rs: Seq<PersonalRecordView>,
    qs: Seq<DeletionRequestView>,
    ms: Seq<MetaEntryView>,
    i: int,
    b: BrokerView,
)
    requires
        storage_wf(bs, rs, qs, ms),
        0 <= i < bs.len(),
        b.id == bs[i].id,
    ensures
        storage_wf(bs.update(i, b), rs, qs, ms),
{
    let nbs = bs.update(i, b);
    assert forall|a: int, c: int| #![trigger nbs[a], nbs[c]] 0 <= a < c < nbs.len() implies nbs[a].id
        != nbs[c].id by {
        assert(bs[a].id != bs[c].id);
    }
    assert forall|a: int| 0 <= a < rs.len() implies has_broker(
        nbs,
        (#[trigger] rs[a]).broker_id,
    ) by {
        let w = choose|k: int| 0 <= k < bs.len() && (#[trigger] bs[k]).id == rs[a].broker_id;
        assert(nbs[w].id == rs[a].broker_id);
    }
    assert forall|a: int| 0 <= a < qs.len() implies has_broker(
        nbs,
        (#[trigger] qs[a]).broker_id,
    ) by {
        let w = choose|k: int| 0 <= k < bs.len() && (#[trigger] bs[k]).id == qs[a].broker_id;
        assert(nbs[w].id == qs[a].broker_id);
    }
}

proof fn lemma_wf_broker_push(
    bs: Seq<BrokerView>,
    rs: Seq<PersonalRecordView>,
    qs: Seq<DeletionRequestView>,
    ms: Seq<MetaEntryView>,
    b: BrokerView,
)
    requires
        storage_wf(bs, rs, qs, ms),
        forall|k: int| 0 <= k < bs.len() ==> (#[trigger] bs[k]).id != b.id,
    ensures
        storage_wf(bs.push(b), rs, qs, ms),
{
    let nbs = bs.push(b);
    assert forall|a: int, c: int| #![trigger nbs[a], nbs[c]] 0 <= a < c < nbs.len() implies nbs[a].id
        != nbs[c].id by {
        if c < bs.len() {
            assert(bs[a].id != bs[c].id);
        } else {
            assert(nbs[c] == b);
            assert(bs[a].id != b.id);
        }
    }
    assert forall|a: int| 0 <= a < rs.len() implies has_broker(
        nbs,
        (#[trigger] rs[a]).broker_id,
    ) by {
        let w = choose|k: int| 0 <= k < bs.len() && (#[trigger] bs[k]).id == rs[a].broker_id;
        assert(nbs[w].id == rs[a].broker_id);
    }
    assert forall|a: int| 0 <= a < qs.len() implies has_broker(
        nbs,
        (#[trigger] qs[a]).broker_id,
    ) by {
        let w = choose|k: int| 0 <= k < bs.len() && (#[trigger] bs[k]).id == qs[a].broker_id;
        assert(nbs[w].id == qs[a].broker_id);
    }
}

proof fn lemma_wf_record_update(
    bs: Seq<BrokerView>,
    rs: Seq<PersonalRecordView>,
    qs: Seq<DeletionRequestView>,
    ms: Seq<MetaEntryView>,
    i: int,
    x: PersonalRecordView,
)
    requires
        storage_wf(bs, rs, qs, ms),
        0 <= i < rs.len(),
        x.id == rs[i].id,
        record_key_eq(x, rs[i]),
    ensures
        storage_wf(bs, rs.update(i, x), qs, ms),
{
    let nrs = rs.update(i, x);
    assert forall|a: int, c: int|
        #![trigger nrs[a], nrs[c]]
        0 <= a < c < nrs.len() implies nrs[a].id != nrs[c].id && !record_key_eq(
        nrs[a],
        nrs[c],
    ) by {
        assert(rs[a].id != rs[c].id);
        assert(!record_key_eq(rs[a], rs[c]));
    }
    assert forall|a: int| 0 <= a < nrs.len() implies has_broker(
        bs,
        (#[trigger] nrs[a]).broker_id,
    ) by {
        assert(has_broker(bs, rs[a].broker_id));
    }
    assert forall|a: int| 0 <= a < qs.len() implies match (#[trigger] qs[a]).personal_record_id {
        Some(rid) => has_record(nrs, rid),
        None => true,
    } by {
        if qs[a].personal_record_id is Some {
            let rid = qs[a].personal_record_id->0;
            let w = choose|k: int| 0 <= k < rs.len() && (#[trigger] rs[k]).id == rid;
            assert(nrs[w].id == rid);
        }
    }
}

proof fn lemma_wf_record_push(
    bs: Seq<BrokerView>,
    rs: Seq<PersonalRecordView>,
    qs: Seq<DeletionRequestView>,
    ms: Seq<MetaEntryView>,
    x: PersonalRecordView,
)
    requires
        storage_wf(bs, rs, qs, ms),
        forall|k: int| 0 <= k < rs.len() ==> (#[trigger] rs[k]).id != x.id,
        forall|k: int| 0 <= k < rs.len() ==> !record_key_eq(#[trigger] rs[k], x),
        has_broker(bs, x.broker_id),
    ensures
        storage_wf(bs, rs.push(x), qs, ms),
{
    let nrs = rs.push(x);
    assert forall|a: int, c: int|
        #![trigger nrs[a], nrs[c]]
        0 <= a < c < nrs.len() implies nrs[a].id != nrs[c].id && !record_key_eq(
        nrs[a],
        nrs[c],
    ) by {
        if c < rs.len() {
            assert(rs[a].id != rs[c].id);
            assert(!record_key_eq(rs[a], rs[c]));
        } else {
            assert(nrs[c] == x);
            assert(rs[a].id != x.id);
            assert(!record_key_eq(rs[a], x));
        }
    }
    assert forall|a: int| 0 <= a < nrs.len() implies has_broker(
        bs,
        (#[trigger] nrs[a]).broker_id,
    ) by {
        if a < rs.len() {
            assert(has_broker(bs, rs[a].broker_id));
        } else {
            assert(nrs[a] == x);
        }
    }
    assert forall|a: int| 0 <= a < qs.len() implies match (#[trigger] qs[a]).personal_record_id {
        Some(rid) => has_record(nrs, rid),
        None => true,
    } by {
        if qs[a].personal_record_id is Some {
            let rid = qs[a].personal_record_id->0;
            let w = choose|k: int| 0 <= k < rs.len() && (#[trigger] rs[k]).id == rid;
            assert(nrs[w].id == rid);
        }
    }
}

proof fn lemma_wf_request_push(
    bs: Seq<BrokerView>,
    rs: Seq<PersonalRecordView>,
    qs: Seq<DeletionRequestView>,
    ms: Seq<MetaEntryView>,
    x: DeletionRequestView,
)
    requires
        storage_wf(bs, rs, qs, ms),
        forall|k: int| 0 <= k < qs.len() ==> (#[trigger] qs[k]).id != x.id,
        has_broker(bs, x.broker_id),
        match x.personal_record_id {
            Some(rid) => has_record(rs, rid),
            None => true,
        },
    ensures
        storage_wf(bs, rs, qs.push(x), ms),
{
    let nqs = qs.push(x);
    assert forall|a: int, c: int| #![trigger nqs[a], nqs[c]] 0 <= a < c < nqs.len() implies nqs[a].id
        != nqs[c].id by {
        if c < qs.len() {
            assert(qs[a].id != qs[c].id);
        } else {
            assert(nqs[c] == x);
            assert(qs[a].id != x.id);
        }
    }
    assert forall|a: int|
        0 <= a < nqs.len() implies has_broker(bs, (#[trigger] nqs[a]).broker_id) && match nqs[a].personal_record_id {
        Some(rid) => has_record(rs, rid),
        None => true,
    } by {
        if a < qs.len() {
            assert(has_broker(bs, qs[a].broker_id));
            assert(match qs[a].personal_record_id {
                Some(rid) => has_record(rs, rid),
                None => true,
            });
        } else {
            assert(nqs[a] == x);
        }
    }
}

proof fn lemma_wf_request_update(
    bs: Seq<BrokerView>,
    rs: Seq<PersonalRecordView>,
    qs: Seq<DeletionRequestView>,
    ms: Seq<MetaEntryView>,
    i: int,
    x: DeletionRequestView,
)
    requires
        storage_wf(bs, rs, qs, ms),
        0 <= i < qs.len(),
        x.id == qs[i].id,
        x.broker_id == qs[i].broker_id,
        x.personal_record_id == qs[i].personal_record_id,
    ensures
        storage_wf(bs, rs, qs.update(i, x), ms),
{
    let nqs = qs.update(i, x);
    assert forall|a: int, c: int| #![trigger nqs[a], nqs[c]] 0 <= a < c < nqs.len() implies nqs[a].id
        != nqs[c].id by {
        assert(qs[a].id != qs[c].id);
    }
    assert forall|a: int|
        0 <= a < nqs.len() implies has_broker(bs, (#[trigger] nqs[a]).broker_id) && match nqs[a].personal_record_id {
        Some(rid) => has_record(rs, rid),
        None => true,
    } by {
        assert(has_broker(bs, qs[a].broker_id));
        assert(match qs[a].personal_record_id {
            Some(rid) => has_record(rs, rid),
            None => true,
        });
    }
}

proof fn lemma_wf_meta_update(
    bs: Seq<BrokerView>,
    rs: Seq<PersonalRecordView>,
    qs: Seq<DeletionRequestView>,
    ms: Seq<MetaEntryView>,
    i: int,
    m: MetaEntryView,
)
    requires
        storage_wf(bs, rs, qs, ms),
        0 <= i < ms.len(),
        m.key == ms[i].key,
    ensures
        storage_wf(bs, rs, qs, ms.update(i, m)),
{
    let nms = ms.update(i, m);
    assert forall|a: int, c: int|
        #![trigger nms[a], nms[c]]
        0 <= a < c < nms.len() implies nms[a].key != nms[c].key by {
        assert(ms[a].key != ms[c].key);
    }
}

proof fn lemma_wf_meta_push(
    bs: Seq<BrokerView>,
    rs: Seq<PersonalRecordView>,
    qs: Seq<DeletionRequestView>,
    ms: Seq<MetaEntryView>,
    m: MetaEntryView,
)
    requires
        storage_wf(bs, rs, qs, ms),
        forall|k: int| 0 <= k < ms.len() ==> (#[trigger] ms[k]).key != m.key,
    ensures
        storage_wf(bs, rs, qs, ms.push(m)),
{
    let nms = ms.push(m);
    assert forall|a: int, c: int|
        #![trigger nms[a], nms[c]]
        0 <= a < c < nms.len() implies nms[a].key != nms[c].key by {
        if c < ms.len() {
            assert(ms[a].key != ms[c].key);
        } else {
            assert(nms[c] == m);
            assert(ms[a].key != m.key);
        }
    }
}

/// Whether one broker row passes the list filters: an exact category, an
/// exact home country, and membership of a country in the broker's
/// comma-separated data-country list.
pub open spec fn broker_matches(
    b: BrokerView,
    category: Option<Seq<char>>,
    country: Option<Seq<char>>,
    data_country: Option<Seq<char>>,
) -> bool {
    &&& (match category {
        Some(c) => b.category == Some(c),
        None => true,
    })
    &&& (match country {
        Some(c) => b.country == Some(c),
        None => true,
    })
    &&& (match data_country {
        Some(c) => match b.data_countries {
            Some(dc) => csv_has(dc, c),
            None => false,
        },
        None => true,
    })
}

/// The broker rows passing the list filters, in storage order.
pub open spec fn filtered_brokers(
    bs: Seq<BrokerView>,
    category: Option<Seq<char>>,
    country: Option<Seq<char>>,
    data_country: Option<Seq<char>>,
) -> Seq<BrokerView>
    decreases bs.len(),
{
    if bs.len() == 0 {
        Seq::empty()
    } else {
        let sub = filtered_brokers(bs.drop_last(), category, country, data_country);
        if broker_matches(bs.last(), category, country, data_country) {
            sub.push(bs.last())
        } else {
            sub
        }
    }
}

/// The personal records for one broker — or all of them, in storage order.
pub open spec fn records_for(
    rs: Seq<PersonalRecordView>,
    broker_id: Option<Seq<char>>,
) -> Seq<PersonalRecordView>
    decreases rs.len(),
{
    if rs.len() == 0 {
        Seq::empty()
    } else {
        let sub = records_for(rs.drop_last(), broker_id);
        if match broker_id {
            Some(b) => rs.last().broker_id == b,
            None => true,
        } {
            sub.push(rs.last())
        } else {
            sub
        }
    }
}

/// The deletion requests for one broker — or all of them, in storage order.
pub open spec fn requests_for(
    qs: Seq<DeletionRequestView>,
    broker_id: Option<Seq<char>>,
) -> Seq<DeletionRequestView>
    decreases qs.len(),
{
    if qs.len() == 0 {
        Seq::empty()
    } else {
        let sub = requests_for(qs.drop_last(), broker_id);
        if match broker_id {
            Some(b) => qs.last().broker_id == b,
            None => true,
        } {
            sub.push(qs.last())
        } else {
            sub
        }
    }
}

/// With no filters, the broker listing is the whole table.
pub proof fn lemma_filtered_brokers_all(bs: Seq<BrokerView>)
    ensures
        filtered_brokers(bs, None, None, None) =~= bs,
    decreases bs.len(),
{
    if bs.len() > 0 {
        lemma_filtered_brokers_all(bs.drop_last());
    }
}

/// With no broker filter, the record listing is the whole table.
pub proof fn lemma_records_for_all(rs: Seq<PersonalRecordView>)
    ensures
        records_for(rs, None) =~= rs,
    decreases rs.len(),
{
    if rs.len() > 0 {
        lemma_records_for_all(rs.drop_last());
    }
}

/// With no broker filter, the request listing is the whole table.
pub proof fn lemma_requests_for_all(qs: Seq<DeletionRequestView>)
    ensures
        requests_for(qs, None) =~= qs,
    decreases qs.len(),
{
    if qs.len() > 0 {
        lemma_requests_for_all(qs.drop_last());
    }
}

/// The order is reflexive.
pub proof fn lemma_lex_le_refl(a: Seq<char>)
    ensures
        lex_le(a, a),
    decreases a.len(),
{
    if a.len() > 0 {
        lemma_lex_le_refl(a.drop_first());
    }
}

/// Sorts broker rows ascending, in code-point order on the name.
/// Rows with equal keys keep no fixed order; the contents are untouched.
fn sort_brokers_by_name(input: Vec<Broker>) -> (r: Vec<Broker>)
    ensures
        r.deep_view().to_multiset() == input.deep_view().to_multiset(),
        forall|i: int, j: int|
            0 <= i < j < r.deep_view().len() ==> lex_le(
                (#[trigger] r.deep_view()[i]).name,
                (#[trigger] r.deep_view()[j]).name,
            ),
{
    broadcast use vstd::seq_lib::group_to_multiset_ensures;
    broadcast use vstd::multiset::group_multiset_axioms;

    let ghost orig = input.deep_view();
    let mut src = input;
    let mut out: Vec<Broker> = Vec::new();
    proof {
        assert(out.deep_view() =~= Seq::<BrokerView>::empty());
        assert(out.deep_view().to_multiset().add(src.deep_view().to_multiset())
            =~= orig.to_multiset());
    }
    while src.len() > 0
        invariant
            src.deep_view().len() == src.len(),
            out.deep_view().to_multiset().add(src.deep_view().to_multiset())
                == orig.to_multiset(),
            forall|i: int, j: int|
                0 <= i < j < out.deep_view().len() ==> lex_le(
                    (#[trigger] out.deep_view()[i]).name,
                    (#[trigger] out.deep_view()[j]).name,
                ),
            forall|a: int, s: int|
                0 <= a < out.deep_view().len() && 0 <= s < src.deep_view().len() ==> lex_le(
                    (#[trigger] out.deep_view()[a]).name,
                    (#[trigger] src.deep_view()[s]).name,
                ),
        decreases src.len(),
    {
        let mut m: usize = 0;
        let mut k: usize = 1;
        proof {
            assert(src.deep_view()[0] == src@[0]@);
            lemma_lex_le_refl(src.deep_view()[0].name);
        }
        while k < src.len()
            invariant
                m < k,
                k <= src.len(),
                src.deep_view().len() == src.len(),
                forall|j: int|
                    0 <= j < k ==> lex_le(
                        src.deep_view()[m as int].name,
                        (#[trigger] src.deep_view()[j]).name,
                    ),
            decreases src.len() - k,
        {
            proof {
                assert(src.deep_view()[m as int] == src@[m as int]@);
                assert(src.deep_view()[k as int] == src@[k as int]@);
            }
            if !str_le(src[m].name.as_str(), src[k].name.as_str()) {
                proof {
                    lemma_lex_le_total(
                        src.deep_view()[m as int].name,
                        src.deep_view()[k as int].name,
                    );
                    lemma_lex_le_refl(src.deep_view()[k as int].name);
                    assert forall|j: int| 0 <= j < k + 1 implies lex_le(
                        src.deep_view()[k as int].name,
                        (#[trigger] src.deep_view()[j]).name,
                    ) by {
                        if j < k {
                            lemma_lex_le_trans(src.deep_view()[k as int].name, src.deep_view()[m as int].name, src.deep_view()[j].name);
                        }
                    }
                }
                m = k;
            } else {
                proof {
                    assert forall|j: int| 0 <= j < k + 1 implies lex_le(
                        src.deep_view()[m as int].name,
                        (#[trigger] src.deep_view()[j]).name,
                    ) by {
                        if j == k {
                            
                        }
                    }
                }
            }
            k = k + 1;
        }
        let ghost src_dv = src.deep_view();
        let ghost xv = src_dv[m as int];
        let x = src.remove(m);
        proof {
            assert(x@ == xv);
            assert(src.deep_view() =~= src_dv.remove(m as int));
        }
        let ghost out_dv = out.deep_view();
        out.push(x);
        proof {
            assert(out.deep_view() =~= out_dv.push(xv));
            vstd::seq_lib::to_multiset_build(out_dv, xv);
            vstd::seq_lib::to_multiset_remove(src_dv, m as int);
            vstd::seq_lib::to_multiset_contains(src_dv, xv);
            assert(out.deep_view().to_multiset() =~= out_dv.to_multiset().insert(xv));
            assert((src_dv.remove(m as int)).to_multiset() =~= src_dv.to_multiset().remove(xv));
            assert(src_dv[m as int] == xv);
            assert(src_dv.contains(xv));
            assert(src_dv.to_multiset().count(xv) > 0);
            assert(out.deep_view().to_multiset().add(src.deep_view().to_multiset())
                =~= out_dv.to_multiset().add(src_dv.to_multiset()));
            assert forall|i: int, j: int|
                0 <= i < j < out.deep_view().len() implies lex_le(
                (#[trigger] out.deep_view()[i]).name,
                (#[trigger] out.deep_view()[j]).name,
            ) by {
                if j == out_dv.len() {
                    assert(out.deep_view()[j] == xv);
                    assert(out.deep_view()[i] == out_dv[i]);
                    assert(lex_le(out_dv[i].name, src_dv[m as int].name));
                } else {
                    assert(out.deep_view()[i] == out_dv[i]);
                    assert(out.deep_view()[j] == out_dv[j]);
                }
            }
            assert forall|a: int, s: int|
                0 <= a < out.deep_view().len() && 0 <= s < src.deep_view().len() implies lex_le(
                (#[trigger] out.deep_view()[a]).name,
                (#[trigger] src.deep_view()[s]).name,
            ) by {
                if a < out_dv.len() {
                    if s < m {
                        assert(src.deep_view()[s] == src_dv[s]);
                    } else {
                        assert(src.deep_view()[s] == src_dv[s + 1]);
                    }
                } else {
                    assert(out.deep_view()[a] == xv);
                    if s < m {
                        assert(src.deep_view()[s] == src_dv[s]);
                    } else {
                        assert(src.deep_view()[s] == src_dv[s + 1]);
                    }
                }
            }
        }
    }
    proof {
        assert(src.deep_view() =~= Seq::<BrokerView>::empty());
        assert(out.deep_view().to_multiset() =~= orig.to_multiset());
    }
    out
}

/// Sorts personal-record rows descending, in code-point order on the found-at time.
/// Rows with equal keys keep no fixed order; the contents are untouched.
fn sort_records_by_found_desc(input: Vec<PersonalRecord>) -> (r: Vec<PersonalRecord>)
    ensures
        r.deep_view().to_multiset() == input.deep_view().to_multiset(),
        forall|i: int, j: int|
            0 <= i < j < r.deep_view().len() ==> lex_le(
                (#[trigger] r.deep_view()[j]).found_at,
                (#[trigger] r.deep_view()[i]).found_at,
            ),
{
    broadcast use vstd::seq_lib::group_to_multiset_ensures;
    broadcast use vstd::multiset::group_multiset_axioms;

    let ghost orig = input.deep_view();
    let mut src = input;
    let mut out: Vec<PersonalRecord> = Vec::new();
    proof {
        assert(out.deep_view() =~= Seq::<PersonalRecordView>::empty());
        assert(out.deep_view().to_multiset().add(src.deep_view().to_multiset())
            =~= orig.to_multiset());
    }
    while src.len() > 0
        invariant
            src.deep_view().len() == src.len(),
            out.deep_view().to_multiset().add(src.deep_view().to_multiset())
                == orig.to_multiset(),
            forall|i: int, j: int|
                0 <= i < j < out.deep_view().len() ==> lex_le(
                    (#[trigger] out.deep_view()[j]).found_at,
                    (#[trigger] out.deep_view()[i]).found_at,
                ),
            forall|a: int, s: int|
                0 <= a < out.deep_view().len() && 0 <= s < src.deep_view().len() ==> lex_le(
                    (#[trigger] src.deep_view()[s]).found_at,
                    (#[trigger] out.deep_view()[a]).found_at,
                ),
        decreases src.len(),
    {
        let mut m: usize = 0;
        let mut k: usize = 1;
        proof {
            assert(src.deep_view()[0] == src@[0]@);
            lemma_lex_le_refl(src.deep_view()[0].found_at);
        }
        while k < src.len()
            invariant
                m < k,
                k <= src.len(),
                src.deep_view().len() == src.len(),
                forall|j: int|
                    0 <= j < k ==> lex_le(
                        (#[trigger] src.deep_view()[j]).found_at,
                        src.deep_view()[m as int].found_at,
                    ),
            decreases src.len() - k,
        {
            proof {
                assert(src.deep_view()[m as int] == src@[m as int]@);
                assert(src.deep_view()[k as int] == src@[k as int]@);
            }
            if !str_le(src[k].found_at.as_str(), src[m].found_at.as_str()) {
                proof {
                    lemma_lex_le_total(
                        src.deep_view()[k as int].found_at,
                        src.deep_view()[m as int].found_at,
                    );
                    lemma_lex_le_refl(src.deep_view()[k as int].found_at);
                    assert forall|j: int| 0 <= j < k + 1 implies lex_le(
                        (#[trigger] src.deep_view()[j]).found_at,
                        src.deep_view()[k as int].found_at,
                    ) by {
                        if j < k {
                            lemma_lex_le_trans(src.deep_view()[j].found_at, src.deep_view()[m as int].found_at, src.deep_view()[k as int].found_at);
                        }
                    }
                }
                m = k;
            } else {
                proof {
                    assert forall|j: int| 0 <= j < k + 1 implies lex_le(
                        (#[trigger] src.deep_view()[j]).found_at,
                        src.deep_view()[m as int].found_at,
                    ) by {
                        if j == k {
                            
                        }
                    }
                }
            }
            k = k + 1;
        }
        let ghost src_dv = src.deep_view();
        let ghost xv = src_dv[m as int];
        let x = src.remove(m);
        proof {
            assert(x@ == xv);
            assert(src.deep_view() =~= src_dv.remove(m as int));
        }
        let ghost out_dv = out.deep_view();
        out.push(x);
        proof {
            assert(out.deep_view() =~= out_dv.push(xv));
            vstd::seq_lib::to_multiset_build(out_dv, xv);
            vstd::seq_lib::to_multiset_remove(src_dv, m as int);
            vstd::seq_lib::to_multiset_contains(src_dv, xv);
            assert(out.deep_view().to_multiset() =~= out_dv.to_multiset().insert(xv));
            assert((src_dv.remove(m as int)).to_multiset() =~= src_dv.to_multiset().remove(xv));
            assert(src_dv[m as int] == xv);
            assert(src_dv.contains(xv));
            assert(src_dv.to_multiset().count(xv) > 0);
            assert(out.deep_view().to_multiset().add(src.deep_view().to_multiset())
                =~= out_dv.to_multiset().add(src_dv.to_multiset()));
            assert forall|i: int, j: int|
                0 <= i < j < out.deep_view().len() implies lex_le(
                (#[trigger] out.deep_view()[j]).found_at,
                (#[trigger] out.deep_view()[i]).found_at,
            ) by {
                if j == out_dv.len() {
                    assert(out.deep_view()[j] == xv);
                    assert(out.deep_view()[i] == out_dv[i]);
                    assert(lex_le(src_dv[m as int].found_at, out_dv[i].found_at));
                } else {
                    assert(out.deep_view()[i] == out_dv[i]);
                    assert(out.deep_view()[j] == out_dv[j]);
                }
            }
            assert forall|a: int, s: int|
                0 <= a < out.deep_view().len() && 0 <= s < src.deep_view().len() implies lex_le(
                (#[trigger] src.deep_view()[s]).found_at,
                (#[trigger] out.deep_view()[a]).found_at,
            ) by {
                if a < out_dv.len() {
                    if s < m {
                        assert(src.deep_view()[s] == src_dv[s]);
                    } else {
                        assert(src.deep_view()[s] == src_dv[s + 1]);
                    }
                } else {
                    assert(out.deep_view()[a] == xv);
                    if s < m {
                        assert(src.deep_view()[s] == src_dv[s]);
                    } else {
                        assert(src.deep_view()[s] == src_dv[s + 1]);
                    }
                }
            }
        }
    }
    proof {
        assert(src.deep_view() =~= Seq::<PersonalRecordView>::empty());
        assert(out.deep_view().to_multiset() =~= orig.to_multiset());
    }
    out
}

/// Sorts deletion-request rows descending, in code-point order on the creation time.
/// Rows with equal keys keep no fixed order; the contents are untouched.
fn sort_requests_by_created_desc(input: Vec<DeletionRequest>) -> (r: Vec<DeletionRequest>)
    ensures
        r.deep_view().to_multiset() == input.deep_view().to_multiset(),
        forall|i: int, j: int|
            0 <= i < j < r.deep_view().len() ==> lex_le(
                (#[trigger] r.deep_view()[j]).created_at,
                (#[trigger] r.deep_view()[i]).created_at,
            ),
{
    broadcast use vstd::seq_lib::group_to_multiset_ensures;
    broadcast use vstd::multiset::group_multiset_axioms;

    let ghost orig = input.deep_view();
    let mut src = input;
    let mut out: Vec<DeletionRequest> = Vec::new();
    proof {
        assert(out.deep_view() =~= Seq::<DeletionRequestView>::empty());
        assert(out.deep_view().to_multiset().add(src.deep_view().to_multiset())
            =~= orig.to_multiset());
    }
    while src.len() > 0
        invariant
            src.deep_view().len() == src.len(),
            out.deep_view().to_multiset().add(src.deep_view().to_multiset())
                == orig.to_multiset(),
            forall|i: int, j: int|
                0 <= i < j < out.deep_view().len() ==> lex_le(
                    (#[trigger] out.deep_view()[j]).created_at,
                    (#[trigger] out.deep_view()[i]).created_at,
                ),
            forall|a: int, s: int|
                0 <= a < out.deep_view().len() && 0 <= s < src.deep_view().len() ==> lex_le(
                    (#[trigger] src.deep_view()[s]).created_at,
                    (#[trigger] out.deep_view()[a]).created_at,
                ),
        decreases src.len(),
    {
        let mut m: usize = 0;
        let mut k: usize = 1;
        proof {
            assert(src.deep_view()[0] == src@[0]@);
            lemma_lex_le_refl(src.deep_view()[0].created_at);
        }
        while k < src.len()
            invariant
                m < k,
                k <= src.len(),
                src.deep_view().len() == src.len(),
                forall|j: int|
                    0 <= j < k ==> lex_le(
                        (#[trigger] src.deep_view()[j]).created_at,
                        src.deep_view()[m as int].created_at,
                    ),
            decreases src.len() - k,
        {
            proof {
                assert(src.deep_view()[m as int] == src@[m as int]@);
                assert(src.deep_view()[k as int] == src@[k as int]@);
            }
            if !str_le(src[k].created_at.as_str(), src[m].created_at.as_str()) {
                proof {
                    lemma_lex_le_total(
                        src.deep_view()[k as int].created_at,
                        src.deep_view()[m as int].created_at,
                    );
                    lemma_lex_le_refl(src.deep_view()[k as int].created_at);
                    assert forall|j: int| 0 <= j < k + 1 implies lex_le(
                        (#[trigger] src.deep_view()[j]).created_at,
                        src.deep_view()[k as int].created_at,
                    ) by {
                        if j < k {
                            lemma_lex_le_trans(src.deep_view()[j].created_at, src.deep_view()[m as int].created_at, src.deep_view()[k as int].created_at);
                        }
                    }
                }
                m = k;
            } else {
                proof {
                    assert forall|j: int| 0 <= j < k + 1 implies lex_le(
                        (#[trigger] src.deep_view()[j]).created_at,
                        src.deep_view()[m as int].created_at,
                    ) by {
                        if j == k {
                            
                        }
                    }
                }
            }
            k = k + 1;
        }
        let ghost src_dv = src.deep_view();
        let ghost xv = src_dv[m as int];
        let x = src.remove(m);
        proof {
            assert(x@ == xv);
            assert(src.deep_view() =~= src_dv.remove(m as int));
        }
        let ghost out_dv = out.deep_view();
        out.push(x);
        proof {
            assert(out.deep_view() =~= out_dv.push(xv));
            vstd::seq_lib::to_multiset_build(out_dv, xv);
            vstd::seq_lib::to_multiset_remove(src_dv, m as int);
            vstd::seq_lib::to_multiset_contains(src_dv, xv);
            assert(out.deep_view().to_multiset() =~= out_dv.to_multiset().insert(xv));
            assert((src_dv.remove(m as int)).to_multiset() =~= src_dv.to_multiset().remove(xv));
            assert(src_dv[m as int] == xv);
            assert(src_dv.contains(xv));
            assert(src_dv.to_multiset().count(xv) > 0);
            assert(out.deep_view().to_multiset().add(src.deep_view().to_multiset())
                =~= out_dv.to_multiset().add(src_dv.to_multiset()));
            assert forall|i: int, j: int|
                0 <= i < j < out.deep_view().len() implies lex_le(
                (#[trigger] out.deep_view()[j]).created_at,
                (#[trigger] out.deep_view()[i]).created_at,
            ) by {
                if j == out_dv.len() {
                    assert(out.deep_view()[j] == xv);
                    assert(out.deep_view()[i] == out_dv[i]);
                    assert(lex_le(src_dv[m as int].created_at, out_dv[i].created_at));
                } else {
                    assert(out.deep_view()[i] == out_dv[i]);
                    assert(out.deep_view()[j] == out_dv[j]);
                }
            }
            assert forall|a: int, s: int|
                0 <= a < out.deep_view().len() && 0 <= s < src.deep_view().len() implies lex_le(
                (#[trigger] src.deep_view()[s]).created_at,
                (#[trigger] out.deep_view()[a]).created_at,
            ) by {
                if a < out_dv.len() {
                    if s < m {
                        assert(src.deep_view()[s] == src_dv[s]);
                    } else {
                        assert(src.deep_view()[s] == src_dv[s + 1]);
                    }
                } else {
                    assert(out.deep_view()[a] == xv);
                    if s < m {
                        assert(src.deep_view()[s] == src_dv[s]);
                    } else {
                        assert(src.deep_view()[s] == src_dv[s + 1]);
                    }
                }
            }
        }
    }
    proof {
        assert(src.deep_view() =~= Seq::<DeletionRequestView>::empty());
        assert(out.deep_view().to_multiset() =~= orig.to_multiset());
    }
    out
}

/// The shared store of brokers, personal records, deletion requests and
/// registry metadata.
pub struct Storage {
    brokers: Vec<Broker>,
    records: Vec<PersonalRecord>,
    requests: Vec<DeletionRequest>,
    meta: Vec<MetaEntry>,
}

impl Storage {
    pub closed spec fn brokers_view(&self) -> Seq<BrokerView> {
        self.brokers.deep_view()
    }

    pub closed spec fn records_view(&self) -> Seq<PersonalRecordView> {
        self.records.deep_view()
    }

    pub closed spec fn requests_view(&self) -> Seq<DeletionRequestView> {
        self.requests.deep_view()
    }

    pub closed spec fn meta_view(&self) -> Seq<MetaEntryView> {
        self.meta.deep_view()
    }

    /// The storage invariants: row uniqueness and foreign keys.
    pub open spec fn wf(&self) -> bool {
        storage_wf(self.brokers_view(), self.records_view(), self.requests_view(), self.meta_view())
    }

    /// An empty store.
    pub fn new() -> (r: Storage)
        ensures
            r.wf(),
            r.brokers_view() =~= Seq::<BrokerView>::empty(),
            r.records_view() =~= Seq::<PersonalRecordView>::empty(),
            r.requests_view() =~= Seq::<DeletionRequestView>::empty(),
            r.meta_view() =~= Seq::<MetaEntryView>::empty(),
    {
        let r = Storage {
            brokers: Vec::new(),
            records: Vec::new(),
            requests: Vec::new(),
            meta: Vec::new(),
        };
        proof {
            assert(r.brokers_view() =~= Seq::<BrokerView>::empty());
            assert(r.records_view() =~= Seq::<PersonalRecordView>::empty());
            assert(r.requests_view() =~= Seq::<DeletionRequestView>::empty());
            assert(r.meta_view() =~= Seq::<MetaEntryView>::empty());
        }
        r
    }

    /// Index of the stored broker with identifier `id`, if any.
    fn find_broker_idx(&self, id: &str) -> (r: Option<usize>)
        ensures
            match r {
                Some(i) => i < self.brokers_view().len() && self.brokers_view()[i as int].id == id@
                    && (forall|j: int|
                    0 <= j < i ==> (#[trigger] self.brokers_view()[j]).id != id@),
                None => forall|j: int|
                    0 <= j < self.brokers_view().len() ==> (#[trigger] self.brokers_view()[j]).id
                        != id@,
            },
    {
        let mut i: usize = 0;
        while i < self.brokers.len()
            invariant
                i <= self.brokers.len(),
                self.brokers_view().len() == self.brokers.len(),
                forall|j: int| 0 <= j < i ==> (#[trigger] self.brokers_view()[j]).id != id@,
            decreases self.brokers.len() - i,
        {
            if str_eq(self.brokers[i].id.as_str(), id) {
                return Some(i);
            }
            i = i + 1;
        }
        None
    }

    /// Index of the stored personal record with identifier `id`, if any.
    fn find_record_idx_by_id(&self, id: &str) -> (r: Option<usize>)
        ensures
            match r {
                Some(i) => i < self.records_view().len() && self.records_view()[i as int].id == id@
                    && (forall|j: int|
                    0 <= j < i ==> (#[trigger] self.records_view()[j]).id != id@),
                None => forall|j: int|
                    0 <= j < self.records_view().len() ==> (#[trigger] self.records_view()[j]).id
                        != id@,
            },
    {
        let mut i: usize = 0;
        while i < self.records.len()
            invariant
                i <= self.records.len(),
                self.records_view().len() == self.records.len(),
                forall|j: int| 0 <= j < i ==> (#[trigger] self.records_view()[j]).id != id@,
            decreases self.records.len() - i,
        {
            if str_eq(self.records[i].id.as_str(), id) {
                return Some(i);
            }
            i = i + 1;
        }
        None
    }

    /// Index of the stored record reporting the same fact as `record`, if any.
    fn find_record_idx_by_key(&self, record: &PersonalRecord) -> (r: Option<usize>)
        ensures
            match r {
                Some(i) => i < self.records_view().len() && record_key_eq(
                    self.records_view()[i as int],
                    record@,
                ) && (forall|j: int|
                    0 <= j < i ==> !record_key_eq(#[trigger] self.records_view()[j], record@)),
                None => forall|j: int|
                    0 <= j < self.records_view().len() ==> !record_key_eq(
                        #[trigger] self.records_view()[j],
                        record@,
                    ),
            },
    {
        let mut i: usize = 0;
        while i < self.records.len()
            invariant
                i <= self.records.len(),
                self.records_view().len() == self.records.len(),
                forall|j: int|
                    0 <= j < i ==> !record_key_eq(#[trigger] self.records_view()[j], record@),
            decreases self.records.len() - i,
        {
            if str_eq(self.records[i].broker_id.as_str(), record.broker_id.as_str()) && str_eq(
                self.records[i].data_type.as_str(),
                record.data_type.as_str(),
            ) && str_eq(self.records[i].data_value.as_str(), record.data_value.as_str()) {
                return Some(i);
            }
            i = i + 1;
        }
        None
    }

    /// Index of the stored deletion request with identifier `id`, if any.
    fn find_request_idx(&self, id: &str) -> (r: Option<usize>)
        ensures
            match r {
                Some(i) => i < self.requests_view().len() && self.requests_view()[i as int].id
                    == id@ && (forall|j: int|
                    0 <= j < i ==> (#[trigger] self.requests_view()[j]).id != id@),
                None => forall|j: int|
                    0 <= j < self.requests_view().len() ==> (#[trigger] self.requests_view()[j]).id
                        != id@,
            },
    {
        let mut i: usize = 0;
        while i < self.requests.len()
            invariant
                i <= self.requests.len(),
                self.requests_view().len() == self.requests.len(),
                forall|j: int| 0 <= j < i ==> (#[trigger] self.requests_view()[j]).id != id@,
            decreases self.requests.len() - i,
        {
            if str_eq(self.requests[i].id.as_str(), id) {
                return Some(i);
            }
            i = i + 1;
        }
        None
    }

    /// Index of the metadata entry with key `key`, if any.
    fn find_meta_idx(&self, key: &str) -> (r: Option<usize>)
        ensures
            match r {
                Some(i) => i < self.meta_view().len() && self.meta_view()[i as int].key == key@ && (
                forall|j: int| 0 <= j < i ==> (#[trigger] self.meta_view()[j]).key != key@),
                None => forall|j: int|
                    0 <= j < self.meta_view().len() ==> (#[trigger] self.meta_view()[j]).key
                        != key@,
            },
    {
        let mut i: usize = 0;
        while i < self.meta.len()
            invariant
                i <= self.meta.len(),
                self.meta_view().len() == self.meta.len(),
                forall|j: int| 0 <= j < i ==> (#[trigger] self.meta_view()[j]).key != key@,
            decreases self.meta.len() - i,
        {
            if str_eq(self.meta[i].key.as_str(), key) {
                return Some(i);
            }
            i = i + 1;
        }
        None
    }

    /// Whether some stored broker carries the identifier `id`.
    pub fn has_broker_id(&self, id: &str) -> (r: bool)
        ensures
            r == has_broker(self.brokers_view(), id@),
    {
        match self.find_broker_idx(id) {
            Some(i) => {
                proof {
                    assert(self.brokers_view()[i as int].id == id@);
                }
                true
            },
            None => false,
        }
    }

    /// Whether some stored personal record carries the identifier `id`.
    pub fn has_record_id(&self, id: &str) -> (r: bool)
        ensures
            r == has_record(self.records_view(), id@),
    {
        match self.find_record_idx_by_id(id) {
            Some(i) => {
                proof {
                    assert(self.records_view()[i as int].id == id@);
                }
                true
            },
            None => false,
        }
    }

    /// Whether some stored deletion request carries the identifier `id`.
    pub fn has_request_id(&self, id: &str) -> (r: bool)
        ensures
            r == has_request(self.requests_view(), id@),
    {
        match self.find_request_idx(id) {
            Some(i) => {
                proof {
                    assert(self.requests_view()[i as int].id == id@);
                }
                true
            },
            None => false,
        }
    }

    /// Inserts a broker or overwrites the stored row with the same id;
    /// an overwrite keeps the stored creation time.
    pub fn upsert_broker(&mut self, broker: &Broker) -> (r: Result<(), AppError>)
        requires
            old(self).wf(),
        ensures
            final(self).wf(),
            r is Ok,
            final(self).brokers_view() == upsert_broker_model(old(self).brokers_view(), broker@),
            final(self).records_view() == old(self).records_view(),
            final(self).requests_view() == old(self).requests_view(),
            final(self).meta_view() == old(self).meta_view(),
    {
        let ghost pre = old(self).brokers_view();
        match self.find_broker_idx(broker.id.as_str()) {
            Some(i) => {
                proof {
                    assert(self.brokers@[i as int]@ == pre[i as int]);
                }
                let merged = Broker {
                    id: broker.id.clone(),
                    name: broker.name.clone(),
                    website: clone_opt_string(&broker.website),
                    description: clone_opt_string(&broker.description),
                    category: clone_opt_string(&broker.category),
                    connector: clone_opt_string(&broker.connector),
                    country: clone_opt_string(&broker.country),
                    data_countries: clone_opt_string(&broker.data_countries),
                    registry_updated_at: clone_opt_string(&broker.registry_updated_at),
                    created_at: self.brokers[i].created_at.clone(),
                    updated_at: broker.updated_at.clone(),
                };
                proof {
                    assert(merged@ == merge_broker(pre[i as int], broker@));
                }
                self.brokers.set(i, merged);
                proof {
                    assert(self.brokers_view() =~= pre.update(
                        i as int,
                        merge_broker(pre[i as int], broker@),
                    ));
                    lemma_upsert_seq_at(
                        pre,
                        broker@,
                        |x: BrokerView, y: BrokerView| x.id == y.id,
                        |x: BrokerView, y: BrokerView| merge_broker(x, y),
                        i as int,
                    );
                    lemma_wf_broker_update(
                        pre,
                        old(self).records_view(),
                        old(self).requests_view(),
                        old(self).meta_view(),
                        i as int,
                        merge_broker(pre[i as int], broker@),
                    );
                }
                Ok(())
            },
            None => {
                self.brokers.push(broker.clone());
                proof {
                    assert(self.brokers_view() =~= pre.push(broker@));
                    lemma_upsert_seq_none(
                        pre,
                        broker@,
                        |x: BrokerView, y: BrokerView| x.id == y.id,
                        |x: BrokerView, y: BrokerView| merge_broker(x, y),
                    );
                    lemma_wf_broker_push(
                        pre,
                        old(self).records_view(),
                        old(self).requests_view(),
                        old(self).meta_view(),
                        broker@,
                    );
                }
                Ok(())
            },
        }
    }

    /// The stored broker with identifier `id`, if any.
    pub fn get_broker(&self, id: &str) -> (r: Option<Broker>)
        ensures
            match r {
                Some(b) => find_seq(self.brokers_view(), |x: BrokerView| x.id == id@) == Some(b@),
                None => find_seq(self.brokers_view(), |x: BrokerView| x.id == id@) is None,
            },
    {
        match self.find_broker_idx(id) {
            Some(i) => {
                let found = self.brokers[i].clone();
                proof {
                    lemma_find_seq_at(self.brokers_view(), |x: BrokerView| x.id == id@, i as int);
                }
                Some(found)
            },
            None => {
                proof {
                    lemma_find_seq_none(self.brokers_view(), |x: BrokerView| x.id == id@);
                }
                None
            },
        }
    }

    /// The stored brokers passing the given filters, sorted ascending by
    /// name in code-point order; rows with equal names in no fixed order.
    pub fn list_brokers(
        &self,
        category: Option<&str>,
        country: Option<&str>,
        data_country: Option<&str>,
    ) -> (r: Vec<Broker>)
        ensures
            r.deep_view().to_multiset() == filtered_brokers(
                self.brokers_view(),
                category.deep_view(),
                country.deep_view(),
                data_country.deep_view(),
            ).to_multiset(),
            forall|i: int, j: int|
                0 <= i < j < r.deep_view().len() ==> lex_le(
                    (#[trigger] r.deep_view()[i]).name,
                    (#[trigger] r.deep_view()[j]).name,
                ),
    {
        let mut out: Vec<Broker> = Vec::new();
        let mut i: usize = 0;
        while i < self.brokers.len()
            invariant
                i <= self.brokers.len(),
                self.brokers_view().len() == self.brokers.len(),
                out.deep_view() =~= filtered_brokers(
                    self.brokers_view().take(i as int),
                    category.deep_view(),
                    country.deep_view(),
                    data_country.deep_view(),
                ),
            decreases self.brokers.len() - i,
        {
            let b = &self.brokers[i];
            let cat_ok = match category {
                Some(c) => match &b.category {
                    Some(x) => str_eq(x.as_str(), c),
                    None => false,
                },
                None => true,
            };
            let country_ok = match country {
                Some(c) => match &b.country {
                    Some(x) => str_eq(x.as_str(), c),
                    None => false,
                },
                None => true,
            };
            let data_ok = match data_country {
                Some(c) => match &b.data_countries {
                    Some(x) => contains_csv(x.as_str(), c),
                    None => false,
                },
                None => true,
            };
            proof {
                assert(self.brokers_view()[i as int] == self.brokers@[i as int]@);
                assert((cat_ok && country_ok && data_ok) == broker_matches(
                    self.brokers_view()[i as int],
                    category.deep_view(),
                    country.deep_view(),
                    data_country.deep_view(),
                ));
            }
            if cat_ok && country_ok && data_ok {
                out.push(b.clone());
            }
            proof {
                assert(self.brokers_view().take(i as int + 1).drop_last() =~= self.brokers_view()
                    .take(i as int));
                assert(self.brokers_view().take(i as int + 1).last() == self.brokers_view()[i as int]);
            }
            i = i + 1;
        }
        proof {
            assert(self.brokers_view().take(self.brokers_view().len() as int) =~= self.brokers_view());
        }
        sort_brokers_by_name(out)
    }

    /// Inserts a personal record, or — where the same fact is already stored
    /// for the broker — overwrites the stored row's profile link, raw payload
    /// and found-at time, keeping the stored identity. Rejects a record whose
    /// broker is unknown, and a new fact whose identifier is already taken.
    pub fn upsert_personal_record(&mut self, record: &PersonalRecord) -> (r: Result<(), AppError>)
        requires
            old(self).wf(),
        ensures
            final(self).wf(),
            final(self).brokers_view() == old(self).brokers_view(),
            final(self).requests_view() == old(self).requests_view(),
            final(self).meta_view() == old(self).meta_view(),
            ({
                let rs = old(self).records_view();
                if !has_broker(old(self).brokers_view(), record@.broker_id) {
                    r is Err && final(self).records_view() == rs
                } else if find_seq(rs, |x: PersonalRecordView| record_key_eq(x, record@)) is None
                    && has_record(rs, record@.id) {
                    r is Err && final(self).records_view() == rs
                } else {
                    r is Ok && final(self).records_view() == upsert_record_model(rs, record@)
                }
            }),
    {
        let ghost rs = old(self).records_view();
        if self.find_broker_idx(record.broker_id.as_str()).is_none() {
            let mut m = String::from_str("unknown broker '");
            m.append(record.broker_id.as_str());
            m.append("' for personal record");
            return Err(AppError::Database(m));
        }
        match self.find_record_idx_by_key(record) {
            Some(i) => {
                proof {
                    assert(self.records@[i as int]@ == rs[i as int]);
                    lemma_find_seq_at(
                        rs,
                        |x: PersonalRecordView| record_key_eq(x, record@),
                        i as int,
                    );
                }
                let merged = PersonalRecord {
                    id: self.records[i].id.clone(),
                    broker_id: self.records[i].broker_id.clone(),
                    data_type: self.records[i].data_type.clone(),
                    data_value: self.records[i].data_value.clone(),
                    profile_url: clone_opt_string(&record.profile_url),
                    raw_json: clone_opt_string(&record.raw_json),
                    found_at: record.found_at.clone(),
                };
                proof {
                    assert(merged@ == merge_record(rs[i as int], record@));
                }
                self.records.set(i, merged);
                proof {
                    assert(self.records_view() =~= rs.update(
                        i as int,
                        merge_record(rs[i as int], record@),
                    ));
                    lemma_upsert_seq_at(
                        rs,
                        record@,
                        |x: PersonalRecordView, y: PersonalRecordView| record_key_eq(x, y),
                        |x: PersonalRecordView, y: PersonalRecordView| merge_record(x, y),
                        i as int,
                    );
                    lemma_wf_record_update(
                        old(self).brokers_view(),
                        rs,
                        old(self).requests_view(),
                        old(self).meta_view(),
                        i as int,
                        merge_record(rs[i as int], record@),
                    );
                }
                Ok(())
            },
            None => {
                proof {
                    lemma_find_seq_none(rs, |x: PersonalRecordView| record_key_eq(x, record@));
                }
                if self.find_record_idx_by_id(record.id.as_str()).is_some() {
                    let mut m = String::from_str("duplicate record identifier '");
                    m.append(record.id.as_str());
                    m.append("'");
                    return Err(AppError::Database(m));
                }
                self.records.push(record.clone());
                proof {
                    assert(self.records_view() =~= rs.push(record@));
                    lemma_upsert_seq_none(
                        rs,
                        record@,
                        |x: PersonalRecordView, y: PersonalRecordView| record_key_eq(x, y),
                        |x: PersonalRecordView, y: PersonalRecordView| merge_record(x, y),
                    );
                    lemma_wf_record_push(
                        old(self).brokers_view(),
                        rs,
                        old(self).requests_view(),
                        old(self).meta_view(),
                        record@,
                    );
                }
                Ok(())
            },
        }
    }

    /// The stored personal record with identifier `id`, if any.
    pub fn get_personal_record(&self, id: &str) -> (r: Option<PersonalRecord>)
        ensures
            match r {
                Some(p) => find_seq(self.records_view(), |x: PersonalRecordView| x.id == id@)
                    == Some(p@),
                None => find_seq(self.records_view(), |x: PersonalRecordView| x.id == id@) is None,
            },
    {
        match self.find_record_idx_by_id(id) {
            Some(i) => {
                let found = self.records[i].clone();
                proof {
                    lemma_find_seq_at(
                        self.records_view(),
                        |x: PersonalRecordView| x.id == id@,
                        i as int,
                    );
                }
                Some(found)
            },
            None => {
                proof {
                    lemma_find_seq_none(self.records_view(), |x: PersonalRecordView| x.id == id@);
                }
                None
            },
        }
    }

    /// The stored personal records, optionally only one broker's, sorted by
    /// found-at time descending in code-point order; rows with equal times
    /// in no fixed order.
    pub fn list_personal_records(&self, broker_id: Option<&str>) -> (r: Vec<PersonalRecord>)
        ensures
            r.deep_view().to_multiset() == records_for(
                self.records_view(),
                broker_id.deep_view(),
            ).to_multiset(),
            forall|i: int, j: int|
                0 <= i < j < r.deep_view().len() ==> lex_le(
                    (#[trigger] r.deep_view()[j]).found_at,
                    (#[trigger] r.deep_view()[i]).found_at,
                ),
    {
        let mut out: Vec<PersonalRecord> = Vec::new();
        let mut i: usize = 0;
        while i < self.records.len()
            invariant
                i <= self.records.len(),
                self.records_view().len() == self.records.len(),
                out.deep_view() =~= records_for(
                    self.records_view().take(i as int),
                    broker_id.deep_view(),
                ),
            decreases self.records.len() - i,
        {
            let keep = match broker_id {
                Some(b) => str_eq(self.records[i].broker_id.as_str(), b),
                None => true,
            };
            proof {
                assert(self.records_view()[i as int] == self.records@[i as int]@);
            }
            if keep {
                out.push(self.records[i].clone());
            }
            proof {
                assert(self.records_view().take(i as int + 1).drop_last() =~= self.records_view()
                    .take(i as int));
                assert(self.records_view().take(i as int + 1).last() == self.records_view()[i as int]);
            }
            i = i + 1;
        }
        proof {
            assert(self.records_view().take(self.records_view().len() as int) =~= self.records_view());
        }
        sort_records_by_found_desc(out)
    }

    /// Inserts a deletion request. Rejects a request whose identifier is
    /// already taken, whose broker is unknown, or whose personal record —
    /// where it names one — is unknown.
    pub fn insert_deletion_request(&mut self, req: &DeletionRequest) -> (r: Result<(), AppError>)
        requires
            old(self).wf(),
        ensures
            final(self).wf(),
            final(self).brokers_view() == old(self).brokers_view(),
            final(self).records_view() == old(self).records_view(),
            final(self).meta_view() == old(self).meta_view(),
            ({
                let qs = old(self).requests_view();
                let ok = !has_request(qs, req@.id) && has_broker(
                    old(self).brokers_view(),
                    req@.broker_id,
                ) && match req@.personal_record_id {
                    Some(rid) => has_record(old(self).records_view(), rid),
                    None => true,
                };
                if ok {
                    r is Ok && final(self).requests_view() == qs.push(req@)
                } else {
                    r is Err && final(self).requests_view() == qs
                }
            }),
    {
        let ghost qs = old(self).requests_view();
        if self.find_request_idx(req.id.as_str()).is_some() {
            let mut m = String::from_str("duplicate deletion request identifier '");
            m.append(req.id.as_str());
            m.append("'");
            return Err(AppError::Database(m));
        }
        if self.find_broker_idx(req.broker_id.as_str()).is_none() {
            proof {
                lemma_find_seq_none(
                    self.brokers_view(),
                    |x: BrokerView| x.id == req@.broker_id,
                );
            }
            let mut m = String::from_str("unknown broker '");
            m.append(req.broker_id.as_str());
            m.append("' for deletion request");
            return Err(AppError::Database(m));
        }
        if let Some(rid) = &req.personal_record_id {
            if self.find_record_idx_by_id(rid.as_str()).is_none() {
                let mut m = String::from_str("unknown personal record '");
                m.append(rid.as_str());
                m.append("' for deletion request");
                return Err(AppError::Database(m));
            }
        }
        self.requests.push(req.clone());
        proof {
            assert(self.requests_view() =~= qs.push(req@));
            lemma_wf_request_push(
                old(self).brokers_view(),
                old(self).records_view(),
                qs,
                old(self).meta_view(),
                req@,
            );
        }
        Ok(())
    }

    /// Overwrites the status, completion time, error message and updated-at
    /// time of the stored request with `req`'s identifier; a no-op where no
    /// request carries it.
    pub fn update_deletion_request(&mut self, req: &DeletionRequest) -> (r: Result<(), AppError>)
        requires
            old(self).wf(),
        ensures
            final(self).wf(),
            r is Ok,
            final(self).brokers_view() == old(self).brokers_view(),
            final(self).records_view() == old(self).records_view(),
            final(self).meta_view() == old(self).meta_view(),
            final(self).requests_view() == update_request_model(old(self).requests_view(), req@),
    {
        let ghost qs = old(self).requests_view();
        match self.find_request_idx(req.id.as_str()) {
            Some(i) => {
                proof {
                    assert(self.requests@[i as int]@ == qs[i as int]);
                }
                let updated = DeletionRequest {
                    id: self.requests[i].id.clone(),
                    broker_id: self.requests[i].broker_id.clone(),
                    personal_record_id: clone_opt_string(&self.requests[i].personal_record_id),
                    status: req.status.clone(),
                    submitted_at: clone_opt_string(&self.requests[i].submitted_at),
                    completed_at: clone_opt_string(&req.completed_at),
                    error_message: clone_opt_string(&req.error_message),
                    external_ref: clone_opt_string(&self.requests[i].external_ref),
                    created_at: self.requests[i].created_at.clone(),
                    updated_at: req.updated_at.clone(),
                };
                proof {
                    assert(updated@ == apply_request_update(qs[i as int], req@));
                }
                self.requests.set(i, updated);
                proof {
                    assert(self.requests_view() =~= qs.update(
                        i as int,
                        apply_request_update(qs[i as int], req@),
                    ));
                    lemma_update_seq_at(
                        qs,
                        req@,
                        |x: DeletionRequestView, y: DeletionRequestView| x.id == y.id,
                        |x: DeletionRequestView, y: DeletionRequestView| apply_request_update(x, y),
                        i as int,
                    );
                    lemma_wf_request_update(
                        old(self).brokers_view(),
                        old(self).records_view(),
                        qs,
                        old(self).meta_view(),
                        i as int,
                        apply_request_update(qs[i as int], req@),
                    );
                }
                Ok(())
            },
            None => {
                proof {
                    lemma_update_seq_none(
                        qs,
                        req@,
                        |x: DeletionRequestView, y: DeletionRequestView| x.id == y.id,
                        |x: DeletionRequestView, y: DeletionRequestView| apply_request_update(x, y),
                    );
                }
                Ok(())
            },
        }
    }

    /// How many deletion requests are stored.
    pub fn requests_len(&self) -> (r: usize)
        ensures
            r == self.requests_view().len(),
    {
        self.requests.len()
    }

    /// The stored deletion request at one storage position.
    pub fn request_at(&self, i: usize) -> (r: &DeletionRequest)
        requires
            i < self.requests_view().len(),
        ensures
            r@ == self.requests_view()[i as int],
    {
        proof {
            assert(self.requests_view()[i as int] == self.requests@[i as int]@);
        }
        &self.requests[i]
    }

    /// The stored deletion request with identifier `id`, if any.
    pub fn get_deletion_request(&self, id: &str) -> (r: Option<DeletionRequest>)
        ensures
            match r {
                Some(q) => find_seq(self.requests_view(), |x: DeletionRequestView| x.id == id@)
                    == Some(q@),
                None => find_seq(self.requests_view(), |x: DeletionRequestView| x.id == id@)
                    is None,
            },
    {
        match self.find_request_idx(id) {
            Some(i) => {
                let found = self.requests[i].clone();
                proof {
                    lemma_find_seq_at(
                        self.requests_view(),
                        |x: DeletionRequestView| x.id == id@,
                        i as int,
                    );
                }
                Some(found)
            },
            None => {
                proof {
                    lemma_find_seq_none(
                        self.requests_view(),
                        |x: DeletionRequestView| x.id == id@,
                    );
                }
                None
            },
        }
    }

    /// The stored deletion requests, optionally only one broker's, sorted by
    /// creation time descending in code-point order; rows with equal times
    /// in no fixed order.
    pub fn list_deletion_requests(&self, broker_id: Option<&str>) -> (r: Vec<DeletionRequest>)
        ensures
            r.deep_view().to_multiset() == requests_for(
                self.requests_view(),
                broker_id.deep_view(),
            ).to_multiset(),
            forall|i: int, j: int|
                0 <= i < j < r.deep_view().len() ==> lex_le(
                    (#[trigger] r.deep_view()[j]).created_at,
                    (#[trigger] r.deep_view()[i]).created_at,
                ),
    {
        let mut out: Vec<DeletionRequest> = Vec::new();
        let mut i: usize = 0;
        while i < self.requests.len()
            invariant
                i <= self.requests.len(),
                self.requests_view().len() == self.requests.len(),
                out.deep_view() =~= requests_for(
                    self.requests_view().take(i as int),
                    broker_id.deep_view(),
                ),
            decreases self.requests.len() - i,
        {
            let keep = match broker_id {
                Some(b) => str_eq(self.requests[i].broker_id.as_str(), b),
                None => true,
            };
            proof {
                assert(self.requests_view()[i as int] == self.requests@[i as int]@);
            }
            if keep {
                out.push(self.requests[i].clone());
            }
            proof {
                assert(self.requests_view().take(i as int + 1).drop_last() =~= self.requests_view()
                    .take(i as int));
                assert(self.requests_view().take(i as int + 1).last() == self.requests_view()[i as int]);
            }
            i = i + 1;
        }
        proof {
            assert(self.requests_view().take(self.requests_view().len() as int) =~= self.requests_view());
        }
        sort_requests_by_created_desc(out)
    }

    /// Sets one key of the flat metadata store, overwriting a stored value.
    pub fn set_registry_meta(&mut self, key: &str, value: &str) -> (r: Result<(), AppError>)
        requires
            old(self).wf(),
        ensures
            final(self).wf(),
            r is Ok,
            final(self).brokers_view() == old(self).brokers_view(),
            final(self).records_view() == old(self).records_view(),
            final(self).requests_view() == old(self).requests_view(),
            final(self).meta_view() == set_meta_model(
                old(self).meta_view(),
                MetaEntryView { key: key@, value: value@ },
            ),
    {
        let ghost ms = old(self).meta_view();
        let ghost m = MetaEntryView { key: key@, value: value@ };
        let entry = MetaEntry { key: String::from_str(key), value: String::from_str(value) };
        match self.find_meta_idx(key) {
            Some(i) => {
                self.meta.set(i, entry);
                proof {
                    assert(self.meta_view() =~= ms.update(i as int, m));
                    lemma_upsert_seq_at(
                        ms,
                        m,
                        |x: MetaEntryView, y: MetaEntryView| x.key == y.key,
                        |x: MetaEntryView, y: MetaEntryView| y,
                        i as int,
                    );
                    lemma_wf_meta_update(
                        old(self).brokers_view(),
                        old(self).records_view(),
                        old(self).requests_view(),
                        ms,
                        i as int,
                        m,
                    );
                }
                Ok(())
            },
            None => {
                self.meta.push(entry);
                proof {
                    assert(self.meta_view() =~= ms.push(m));
                    lemma_upsert_seq_none(
                        ms,
                        m,
                        |x: MetaEntryView, y: MetaEntryView| x.key == y.key,
                        |x: MetaEntryView, y: MetaEntryView| y,
                    );
                    lemma_wf_meta_push(
                        old(self).brokers_view(),
                        old(self).records_view(),
                        old(self).requests_view(),
                        ms,
                        m,
                    );
                }
                Ok(())
            },
        }
    }

    /// The stored value of one metadata key, if any.
    pub fn get_registry_meta(&self, key: &str) -> (r: Option<String>)
        ensures
            match r {
                Some(v) => find_seq(self.meta_view(), |x: MetaEntryView| x.key == key@) matches Some(
                    m,
                ) && m.value == v@,
                None => find_seq(self.meta_view(), |x: MetaEntryView| x.key == key@) is None,
            },
    {
        match self.find_meta_idx(key) {
            Some(i) => {
                let v = self.meta[i].value.clone();
                proof {
                    lemma_find_seq_at(self.meta_view(), |x: MetaEntryView| x.key == key@, i as int);
                }
                Some(v)
            },
            None => {
                proof {
                    lemma_find_seq_none(self.meta_view(), |x: MetaEntryView| x.key == key@);
                }
                None
            },
        }
    }
}

} // verus!
