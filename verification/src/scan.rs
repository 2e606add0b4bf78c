//! The scan orchestrator: selects the connectors that apply to a query,
//! makes sure each scanned broker exists in storage, persists discovered
//! records idempotently, and accumulates per-connector failures without ever
//! letting one connector's failure abort the scan of others.
//!
//! The network calls themselves happen at the caller's side; this module
//! holds every decision and every storage write of a scan pass.

use vstd::prelude::*;

use crate::connector::{ConnectorInfo, ConnectorInfoView, FoundRecord, FoundRecordView};
use crate::error::{AppError, ConnectorError};
use crate::ids::fresh_id;
use crate::models::{Broker, BrokerView, PersonalRecordView};
use crate::storage::{
    find_seq, has_broker, has_record, lemma_find_seq_none, lemma_find_seq_some,
    lemma_upsert_seq_at, lemma_upsert_seq_none, merge_record, record_key_eq, upsert_record_model,
    Storage,
};
use crate::text::{ascii_upper, joined, join_with, str_eq, to_ascii_upper_string};

verus! {

/// Whether the allow-list admits a connector: an empty list admits all.
pub open spec fn allow_listed(id: Seq<char>, filter: Seq<Seq<char>>) -> bool {
    filter.len() == 0 || filter.contains(id)
}

/// Whether a connector processes data of the given country: no declared
/// data countries means unrestricted, and the comparison ignores ASCII case.
pub open spec fn country_allowed(c: ConnectorInfoView, country: Option<Seq<char>>) -> bool {
    match country {
        Some(uc) => c.data_countries.len() == 0 || (exists|i: int|
            0 <= i < c.data_countries.len() && ascii_upper(#[trigger] c.data_countries[i])
                == ascii_upper(uc)),
        None => true,
    }
}

/// The connectors a scan pass considers: those in the allow-list (all, where
/// it is empty) whose declared data countries admit the query's country.
pub open spec fn selected_connectors(
    entries: Seq<ConnectorInfoView>,
    filter: Seq<Seq<char>>,
    country: Option<Seq<char>>,
) -> Seq<ConnectorInfoView>
    decreases entries.len(),
{
    if entries.len() == 0 {
        Seq::empty()
    } else {
        let sub = selected_connectors(entries.drop_last(), filter, country);
        if allow_listed(entries.last().id, filter) && country_allowed(entries.last(), country) {
            sub.push(entries.last())
        } else {
            sub
        }
    }
}

/// Whether the allow-list admits this identifier.
fn allow_listed_exec(id: &String, filter: &Vec<String>) -> (r: bool)
    ensures
        r == allow_listed(id@, filter.deep_view()),
{
    if filter.len() == 0 {
        return true;
    }
    let mut i: usize = 0;
    while i < filter.len()
        invariant
            i <= filter.len(),
            filter.deep_view().len() == filter.len(),
            forall|j: int| 0 <= j < i ==> #[trigger] filter.deep_view()[j] != id@,
        decreases filter.len() - i,
    {
        if str_eq(filter[i].as_str(), id.as_str()) {
            proof {
                assert(filter.deep_view()[i as int] == id@);
            }
            return true;
        }
        proof {
            assert(filter.deep_view()[i as int] == filter@[i as int]@);
        }
        i = i + 1;
    }
    proof {
        assert(!filter.deep_view().contains(id@));
    }
    false
}

/// Whether this connector's data countries admit the given country.
fn country_allowed_exec(info: &ConnectorInfo, country: &Option<String>) -> (r: bool)
    ensures
        r == country_allowed(info@, country.deep_view()),
{
    match country {
        None => true,
        Some(c) => {
            proof {
                assert(country.deep_view() == Some(c@));
            }
            if info.data_countries.len() == 0 {
                return true;
            }
            let uc = to_ascii_upper_string(c.as_str());
            let mut i: usize = 0;
            while i < info.data_countries.len()
                invariant
                    i <= info.data_countries.len(),
                    uc@ == ascii_upper(c@),
                    country.deep_view() == Some(c@),
                    info@.data_countries.len() == info.data_countries.len(),
                    forall|j: int|
                        0 <= j < i ==> ascii_upper(#[trigger] info@.data_countries[j])
                            != ascii_upper(c@),
                decreases info.data_countries.len() - i,
            {
                let dc_up = to_ascii_upper_string(info.data_countries[i].as_str());
                proof {
                    assert(info@.data_countries[i as int] == info.data_countries@[i as int]@);
                }
                if str_eq(dc_up.as_str(), uc.as_str()) {
                    proof {
                        assert(ascii_upper(info@.data_countries[i as int]) == ascii_upper(c@));
                    }
                    return true;
                }
                i = i + 1;
            }
            false
        },
    }
}

/// Step one and two of a scan pass: the candidate connectors for this
/// allow-list and country filter, in registry order.
pub fn select_connectors(
    registry: &crate::connector::ConnectorRegistry,
    filter: &Vec<String>,
    country: &Option<String>,
) -> (r: Vec<ConnectorInfo>)
    ensures
        r.deep_view() == selected_connectors(registry@, filter.deep_view(), country.deep_view()),
{
    let entries = registry.entries();
    let mut out: Vec<ConnectorInfo> = Vec::new();
    let mut i: usize = 0;
    while i < entries.len()
        invariant
            i <= entries.len(),
            entries.deep_view() == registry@,
            registry@.len() == entries.len(),
            out.deep_view() =~= selected_connectors(
                registry@.take(i as int),
                filter.deep_view(),
                country.deep_view(),
            ),
        decreases entries.len() - i,
    {
        proof {
            assert(registry@[i as int] == entries@[i as int]@);
        }
        if allow_listed_exec(&entries[i].id, filter) && country_allowed_exec(&entries[i], country) {
            out.push(entries[i].clone());
        }
        proof {
            assert(registry@.take(i as int + 1).drop_last() =~= registry@.take(i as int));
            assert(registry@.take(i as int + 1).last() == registry@[i as int]);
        }
        i = i + 1;
    }
    proof {
        assert(registry@.take(registry@.len() as int) =~= registry@);
    }
    out
}

/// Step three of a scan pass, for one candidate: whether it is scanned at
/// all. A connector without the scan capability is skipped (logged by the
/// caller), never treated as an error.
pub fn should_scan(info: &ConnectorInfo) -> (r: bool)
    ensures
        r == info@.capabilities.can_scan,
{
    info.capabilities.can_scan
}

/// The minimal broker row auto-created for a connector on first scan.
pub open spec fn minimal_broker_view(c: ConnectorInfoView, now: Seq<char>) -> BrokerView {
    BrokerView {
        id: c.id,
        name: c.name,
        website: None,
        description: None,
        category: None,
        connector: Some(c.id),
        country: c.home_country,
        data_countries: if c.data_countries.len() == 0 {
            None
        } else {
            Some(joined(c.data_countries, ","@))
        },
        registry_updated_at: None,
        created_at: now,
        updated_at: now,
    }
}

/// Step four of a scan pass: make sure the scanned broker exists in storage,
/// auto-creating minimal metadata from the connector where it is missing.
pub fn ensure_broker(storage: &mut Storage, info: &ConnectorInfo, now: &str) -> (r: Result<
    (),
    AppError,
>)
    requires
        old(storage).wf(),
    ensures
        final(storage).wf(),
        r is Ok,
        final(storage).records_view() == old(storage).records_view(),
        final(storage).requests_view() == old(storage).requests_view(),
        final(storage).meta_view() == old(storage).meta_view(),
        has_broker(old(storage).brokers_view(), info@.id) ==> final(storage).brokers_view() == old(
            storage,
        ).brokers_view(),
        !has_broker(old(storage).brokers_view(), info@.id) ==> final(storage).brokers_view() == old(
            storage,
        ).brokers_view().push(minimal_broker_view(info@, now@)),
        has_broker(final(storage).brokers_view(), info@.id),
    {
        let existing = storage.get_broker(info.id.as_str());
        proof {
            lemma_find_seq_none(storage.brokers_view(), |x: BrokerView| x.id == info@.id);
        }
        match existing {
            Some(_) => Ok(()),
            None => {
                let dc = if info.data_countries.len() == 0 {
                    None
                } else {
                    Some(join_with(&info.data_countries, ","))
                };
                let broker = Broker {
                    id: info.id.clone(),
                    name: info.name.clone(),
                    website: None,
                    description: None,
                    category: None,
                    connector: Some(info.id.clone()),
                    country: crate::text::clone_opt_string(&info.home_country),
                    data_countries: dc,
                    registry_updated_at: None,
                    created_at: String::from_str(now),
                    updated_at: String::from_str(now),
                };
                proof {
                    assert(broker@ == minimal_broker_view(info@, now@));
                }
                let ghost pre = storage.brokers_view();
                let res = storage.upsert_broker(&broker);
                proof {
                    lemma_upsert_seq_none(
                        pre,
                        broker@,
                        |x: BrokerView, y: BrokerView| x.id == y.id,
                        |x: BrokerView, y: BrokerView| crate::storage::merge_broker(x, y),
                    );
                    assert(storage.brokers_view() =~= pre.push(broker@));
                    assert(storage.brokers_view()[pre.len() as int].id == info@.id);
                }
                res
            },
        }
    }

/// A record carries exactly this broker, kind and value.
pub open spec fn record_is_fact(
    r: PersonalRecordView,
    bid: Seq<char>,
    t: Seq<char>,
    v: Seq<char>,
) -> bool {
    r.broker_id == bid && r.data_type == t && r.data_value == v
}

/// Some stored record carries this broker, kind and value.
pub open spec fn has_fact(
    rs: Seq<PersonalRecordView>,
    bid: Seq<char>,
    t: Seq<char>,
    v: Seq<char>,
) -> bool {
    exists|i: int| 0 <= i < rs.len() && record_is_fact(#[trigger] rs[i], bid, t, v)
}

/// Some scan finding carries this kind and value.
pub open spec fn found_has_pair(fs: Seq<FoundRecordView>, t: Seq<char>, v: Seq<char>) -> bool {
    exists|k: int|
        0 <= k < fs.len() && (#[trigger] fs[k]).data_type == t && fs[k].data_value == v
}

/// No two stored records report the same fact.
pub open spec fn records_unique_facts(rs: Seq<PersonalRecordView>) -> bool {
    forall|i: int, j: int|
        #![trigger rs[i], rs[j]]
        0 <= i < j < rs.len() ==> !record_key_eq(rs[i], rs[j])
}

/// The personal record one scan finding becomes.
pub open spec fn found_to_record(
    bid: Seq<char>,
    f: FoundRecordView,
    id: Seq<char>,
    now: Seq<char>,
) -> PersonalRecordView {
    PersonalRecordView {
        id: id,
        broker_id: bid,
        data_type: f.data_type,
        data_value: f.data_value,
        profile_url: f.profile_url,
        raw_json: f.metadata,
        found_at: now,
    }
}

/// The records table after upserting every scan finding in order, keyed by
/// (broker, kind, value).
pub open spec fn store_found_model(
    rs: Seq<PersonalRecordView>,
    bid: Seq<char>,
    fs: Seq<FoundRecordView>,
    ids: Seq<Seq<char>>,
    now: Seq<char>,
) -> Seq<PersonalRecordView>
    decreases fs.len(),
{
    if fs.len() == 0 {
        rs
    } else {
        store_found_model(
            upsert_record_model(rs, found_to_record(bid, fs[0], ids[0], now)),
            bid,
            fs.drop_first(),
            ids.drop_first(),
            now,
        )
    }
}

/// One keyed upsert changes which facts are stored by at most the upserted
/// fact, keeps facts unique, and introduces no identifier but the given one.
pub proof fn lemma_upsert_record_model_facts(rs: Seq<PersonalRecordView>, r: PersonalRecordView)
    ensures
        forall|bid: Seq<char>, t: Seq<char>, v: Seq<char>|
            has_fact(#[trigger] upsert_record_model(rs, r), bid, t, v) <==> (has_fact(rs, bid, t, v)
                || record_is_fact(r, bid, t, v)),
        records_unique_facts(rs) ==> records_unique_facts(upsert_record_model(rs, r)),
        forall|id: Seq<char>|
            has_record(#[trigger] upsert_record_model(rs, r), id) ==> has_record(rs, id) || id
                == r.id,
{
    let key_pred = |x: PersonalRecordView| record_key_eq(x, r);
    let nrs = upsert_record_model(rs, r);
    lemma_find_seq_none(rs, key_pred);
    if find_seq(rs, key_pred) is Some {
        lemma_find_seq_some(rs, key_pred);
        let i = choose|i: int|
            0 <= i < rs.len() && #[trigger] rs[i] == find_seq(rs, key_pred)->0 && key_pred(rs[i])
                && (forall|j: int| 0 <= j < i ==> !key_pred(#[trigger] rs[j]));
        lemma_upsert_seq_at(
            rs,
            r,
            |x: PersonalRecordView, y: PersonalRecordView| record_key_eq(x, y),
            |x: PersonalRecordView, y: PersonalRecordView| merge_record(x, y),
            i,
        );
        assert(nrs =~= rs.update(i, merge_record(rs[i], r)));
        assert forall|bid: Seq<char>, t: Seq<char>, v: Seq<char>|
            has_fact(#[trigger] upsert_record_model(rs, r), bid, t, v) <==> (has_fact(
            rs,
            bid,
            t,
            v,
        ) || record_is_fact(r, bid, t, v)) by {
            if has_fact(nrs, bid, t, v) {
                let k = choose|k: int| 0 <= k < nrs.len() && record_is_fact(#[trigger] nrs[k], bid, t, v);
                if k == i {
                    assert(record_is_fact(rs[i], bid, t, v));
                } else {
                    assert(record_is_fact(rs[k], bid, t, v));
                }
            }
            if has_fact(rs, bid, t, v) {
                let k = choose|k: int| 0 <= k < rs.len() && record_is_fact(#[trigger] rs[k], bid, t, v);
                if k == i {
                    assert(record_is_fact(nrs[i], bid, t, v));
                } else {
                    assert(record_is_fact(nrs[k], bid, t, v));
                }
            }
            if record_is_fact(r, bid, t, v) {
                assert(record_is_fact(nrs[i], bid, t, v));
            }
        }
        if records_unique_facts(rs) {
            assert forall|a: int, c: int|
                #![trigger nrs[a], nrs[c]]
                0 <= a < c < nrs.len() implies !record_key_eq(nrs[a], nrs[c]) by {
                assert(!record_key_eq(rs[a], rs[c]));
            }
        }
        assert forall|id: Seq<char>|
            has_record(#[trigger] upsert_record_model(rs, r), id) implies has_record(rs, id) || id
            == r.id by {
            if has_record(nrs, id) {
                let k = choose|k: int| 0 <= k < nrs.len() && (#[trigger] nrs[k]).id == id;
                assert(rs[k].id == id);
            }
        }
    } else {
        lemma_upsert_seq_none(
            rs,
            r,
            |x: PersonalRecordView, y: PersonalRecordView| record_key_eq(x, y),
            |x: PersonalRecordView, y: PersonalRecordView| merge_record(x, y),
        );
        assert(nrs =~= rs.push(r));
        assert forall|bid: Seq<char>, t: Seq<char>, v: Seq<char>|
            has_fact(#[trigger] upsert_record_model(rs, r), bid, t, v) <==> (has_fact(
            rs,
            bid,
            t,
            v,
        ) || record_is_fact(r, bid, t, v)) by {
            if has_fact(nrs, bid, t, v) {
                let k = choose|k: int| 0 <= k < nrs.len() && record_is_fact(#[trigger] nrs[k], bid, t, v);
                if k < rs.len() {
                    assert(record_is_fact(rs[k], bid, t, v));
                } else {
                    assert(nrs[k] == r);
                }
            }
            if has_fact(rs, bid, t, v) {
                let k = choose|k: int| 0 <= k < rs.len() && record_is_fact(#[trigger] rs[k], bid, t, v);
                assert(record_is_fact(nrs[k], bid, t, v));
            }
            if record_is_fact(r, bid, t, v) {
                assert(record_is_fact(nrs[rs.len() as int], bid, t, v));
            }
        }
        if records_unique_facts(rs) {
            assert forall|a: int, c: int|
                #![trigger nrs[a], nrs[c]]
                0 <= a < c < nrs.len() implies !record_key_eq(nrs[a], nrs[c]) by {
                if c < rs.len() {
                    assert(!record_key_eq(rs[a], rs[c]));
                } else {
                    assert(nrs[c] == r);
                    assert(!record_key_eq(rs[a], r));
                }
            }
        }
        assert forall|id: Seq<char>|
            has_record(#[trigger] upsert_record_model(rs, r), id) implies has_record(rs, id) || id
            == r.id by {
            if has_record(nrs, id) {
                let k = choose|k: int| 0 <= k < nrs.len() && (#[trigger] nrs[k]).id == id;
                if k < rs.len() {
                    assert(rs[k].id == id);
                } else {
                    assert(nrs[k] == r);
                }
            }
        }
    }
}

/// Storing a whole scan's findings changes which facts are stored by exactly
/// the findings' (kind, value) pairs under the scanned broker, and keeps
/// facts unique.
pub proof fn lemma_store_found_model_facts(
    rs: Seq<PersonalRecordView>,
    bid: Seq<char>,
    fs: Seq<FoundRecordView>,
    ids: Seq<Seq<char>>,
    now: Seq<char>,
)
    ensures
        forall|b2: Seq<char>, t: Seq<char>, v: Seq<char>|
            has_fact(#[trigger] store_found_model(rs, bid, fs, ids, now), b2, t, v) <==> (has_fact(
                rs,
                b2,
                t,
                v,
            ) || (b2 == bid && found_has_pair(fs, t, v))),
        records_unique_facts(rs) ==> records_unique_facts(store_found_model(rs, bid, fs, ids, now)),
    decreases fs.len(),
{
    if fs.len() > 0 {
        let r0 = found_to_record(bid, fs[0], ids[0], now);
        let mid = upsert_record_model(rs, r0);
        lemma_upsert_record_model_facts(rs, r0);
        lemma_store_found_model_facts(mid, bid, fs.drop_first(), ids.drop_first(), now);
        assert forall|t: Seq<char>, v: Seq<char>|
            #![trigger found_has_pair(fs, t, v)]
            found_has_pair(fs, t, v) <==> ((fs[0].data_type == t && fs[0].data_value == v)
                || found_has_pair(fs.drop_first(), t, v)) by {
            if found_has_pair(fs, t, v) {
                let k = choose|k: int|
                    0 <= k < fs.len() && (#[trigger] fs[k]).data_type == t && fs[k].data_value
                        == v;
                if k > 0 {
                    assert(fs.drop_first()[k - 1] == fs[k]);
                    assert(found_has_pair(fs.drop_first(), t, v));
                }
            }
            if found_has_pair(fs.drop_first(), t, v) {
                let k = choose|k: int|
                    0 <= k < fs.drop_first().len() && (#[trigger] fs.drop_first()[k]).data_type
                        == t && fs.drop_first()[k].data_value == v;
                assert(fs[k + 1] == fs.drop_first()[k]);
            }
        }
    }
}

/// Upserts every scan finding as a personal record keyed by (broker, kind,
/// value), with the given fresh row identifiers. Succeeds exactly where the
/// broker is stored and the identifiers are distinct and unused; it fails
/// before writing anything.
pub fn store_found_records(
    storage: &mut Storage,
    broker_id: &str,
    found: &Vec<FoundRecord>,
    ids: &Vec<String>,
    now: &str,
) -> (r: Result<usize, AppError>)
    requires
        old(storage).wf(),
        ids.len() == found.len(),
    ensures
        final(storage).wf(),
        final(storage).brokers_view() == old(storage).brokers_view(),
        final(storage).requests_view() == old(storage).requests_view(),
        final(storage).meta_view() == old(storage).meta_view(),
        ({
            let ok = has_broker(old(storage).brokers_view(), broker_id@) && (forall|k: int|
                0 <= k < ids.deep_view().len() ==> !has_record(
                    old(storage).records_view(),
                    #[trigger] ids.deep_view()[k],
                )) && (forall|k: int, l: int|
                0 <= k < l < ids.deep_view().len() ==> ids.deep_view()[k] != ids.deep_view()[l]);
            if ok {
                r matches Ok(n) && n == found.len() && final(storage).records_view()
                    == store_found_model(
                    old(storage).records_view(),
                    broker_id@,
                    found.deep_view(),
                    ids.deep_view(),
                    now@,
                )
            } else {
                r is Err && final(storage).records_view() == old(storage).records_view()
            }
        }),
{
    let ghost rs0 = old(storage).records_view();
    let ghost fsv = found.deep_view();
    let ghost idsv = ids.deep_view();
    if !storage.has_broker_id(broker_id) {
        let mut m = String::from_str("unknown broker '");
        m.append(broker_id);
        m.append("' for scan results");
        return Err(AppError::Database(m));
    }
    let mut k: usize = 0;
    while k < ids.len()
        invariant
            old(storage).wf(),
            *storage == *old(storage),
            k <= ids.len(),
            idsv == ids.deep_view(),
            idsv.len() == ids.len(),
            forall|j: int| 0 <= j < k ==> !has_record(old(storage).records_view(), #[trigger] idsv[j]),
        decreases ids.len() - k,
    {
        proof {
            assert(idsv[k as int] == ids@[k as int]@);
        }
        if storage.has_record_id(ids[k].as_str()) {
            let mut m = String::from_str("record identifier '");
            m.append(ids[k].as_str());
            m.append("' is already taken");
            return Err(AppError::Database(m));
        }
        k = k + 1;
    }
    let mut a: usize = 0;
    while a < ids.len()
        invariant
            old(storage).wf(),
            *storage == *old(storage),
            a <= ids.len(),
            idsv == ids.deep_view(),
            idsv.len() == ids.len(),
            forall|j: int, l: int| 0 <= j < l < idsv.len() && j < a ==> #[trigger] idsv[j]
                != #[trigger] idsv[l],
        decreases ids.len() - a,
    {
        let mut b: usize = a + 1;
        while b < ids.len()
            invariant
                old(storage).wf(),
                *storage == *old(storage),
                a < b || a + 1 == b,
                a < ids.len(),
                a < b <= ids.len(),
                idsv == ids.deep_view(),
                idsv.len() == ids.len(),
                forall|l: int| a < l < b ==> idsv[a as int] != #[trigger] idsv[l],
            decreases ids.len() - b,
        {
            proof {
                assert(idsv[a as int] == ids@[a as int]@);
                assert(idsv[b as int] == ids@[b as int]@);
            }
            if str_eq(ids[a].as_str(), ids[b].as_str()) {
                let mut m = String::from_str("record identifier '");
                m.append(ids[a].as_str());
                m.append("' is repeated");
                return Err(AppError::Database(m));
            }
            b = b + 1;
        }
        a = a + 1;
    }
    proof {
        assert(fsv.skip(0) =~= fsv);
        assert(idsv.skip(0) =~= idsv);
    }
    let mut i: usize = 0;
    while i < found.len()
        invariant
            storage.wf(),
            i <= found.len(),
            ids.len() == found.len(),
            fsv == found.deep_view(),
            idsv == ids.deep_view(),
            fsv.len() == found.len(),
            idsv.len() == ids.len(),
            storage.brokers_view() == old(storage).brokers_view(),
            storage.requests_view() == old(storage).requests_view(),
            storage.meta_view() == old(storage).meta_view(),
            has_broker(storage.brokers_view(), broker_id@),
            forall|k2: int, l: int| 0 <= k2 < l < idsv.len() ==> #[trigger] idsv[k2]
                != #[trigger] idsv[l],
            forall|k2: int| i <= k2 < idsv.len() ==> !has_record(
                storage.records_view(),
                #[trigger] idsv[k2],
            ),
            store_found_model(rs0, broker_id@, fsv, idsv, now@) == store_found_model(
                storage.records_view(),
                broker_id@,
                fsv.skip(i as int),
                idsv.skip(i as int),
                now@,
            ),
        decreases found.len() - i,
    {
        let record = crate::models::PersonalRecord {
            id: ids[i].clone(),
            broker_id: String::from_str(broker_id),
            data_type: found[i].data_type.clone(),
            data_value: found[i].data_value.clone(),
            profile_url: crate::text::clone_opt_string(&found[i].profile_url),
            raw_json: crate::text::clone_opt_string(&found[i].metadata),
            found_at: String::from_str(now),
        };
        proof {
            assert(fsv[i as int] == found@[i as int]@);
            assert(idsv[i as int] == ids@[i as int]@);
            assert(record@ == found_to_record(broker_id@, fsv[i as int], idsv[i as int], now@));
        }
        let ghost cur = storage.records_view();
        let res = storage.upsert_personal_record(&record);
        if let Err(e) = res {
            proof {
                lemma_find_seq_none(cur, |x: PersonalRecordView| record_key_eq(x, record@));
                assert(false);
            }
            return Err(e);
        }
        proof {
            lemma_upsert_record_model_facts(cur, record@);
            assert forall|k2: int| i + 1 <= k2 < idsv.len() implies !has_record(
                storage.records_view(),
                #[trigger] idsv[k2],
            ) by {
                if has_record(storage.records_view(), idsv[k2]) {
                    assert(has_record(cur, idsv[k2]) || idsv[k2] == record@.id);
                }
            }
            assert(fsv.skip(i as int)[0] == fsv[i as int]);
            assert(idsv.skip(i as int)[0] == idsv[i as int]);
            assert(fsv.skip(i as int).drop_first() =~= fsv.skip(i as int + 1));
            assert(idsv.skip(i as int).drop_first() =~= idsv.skip(i as int + 1));
        }
        i = i + 1;
    }
    proof {
        assert(fsv.skip(found.len() as int) =~= Seq::<FoundRecordView>::empty());
        assert(store_found_model(rs0, broker_id@, fsv, idsv, now@) == storage.records_view());
    }
    Ok(found.len())
}

/// One connector's failure during a scan pass.
pub struct ScanFailure {
    pub connector_id: String,
    pub message: String,
}

pub ghost struct ScanFailureView {
    pub connector_id: Seq<char>,
    pub message: Seq<char>,
}

impl View for ScanFailure {
    type V = ScanFailureView;

    open spec fn view(&self) -> ScanFailureView {
        ScanFailureView { connector_id: self.connector_id@, message: self.message@ }
    }
}

impl DeepView for ScanFailure {
    type V = ScanFailureView;

    open spec fn deep_view(&self) -> ScanFailureView {
        self.view()
    }
}

/// What one scan pass reports: how many records this call found (not the
/// cumulative stored count) and each connector's failure.
pub struct ScanReport {
    pub records_found: usize,
    pub failures: Vec<ScanFailure>,
}

impl ScanReport {
    pub fn new() -> (r: ScanReport)
        ensures
            r.records_found == 0,
            r.failures.deep_view() =~= Seq::<ScanFailureView>::empty(),
    {
        let r = ScanReport { records_found: 0, failures: Vec::new() };
        proof {
            assert(r.failures.deep_view() =~= Seq::<ScanFailureView>::empty());
        }
        r
    }
}

/// Step five of a scan pass, for one connector: on a successful scan, upsert
/// every returned record under fresh identifiers and count them; on a failed
/// scan, record the error against the connector and leave storage alone — a
/// connector's failure never aborts the scan of others.
pub fn apply_scan_outcome(
    storage: &mut Storage,
    report: &mut ScanReport,
    info: &ConnectorInfo,
    outcome: &Result<Vec<FoundRecord>, ConnectorError>,
    now: &str,
) -> (r: Result<(), AppError>)
    requires
        old(storage).wf(),
        (outcome matches Ok(recs) ==> old(report).records_found + recs.len() <= usize::MAX),
    ensures
        final(storage).wf(),
        final(storage).brokers_view() == old(storage).brokers_view(),
        final(storage).requests_view() == old(storage).requests_view(),
        final(storage).meta_view() == old(storage).meta_view(),
        match outcome {
            Ok(recs) => final(report).failures == old(report).failures && match r {
                Ok(()) => {
                    &&& final(report).records_found == old(report).records_found + recs.len()
                    &&& has_broker(old(storage).brokers_view(), info@.id)
                    &&& (exists|ids: Seq<Seq<char>>|
                        ids.len() == recs.deep_view().len() && final(storage).records_view()
                            == store_found_model(
                            old(storage).records_view(),
                            info@.id,
                            recs.deep_view(),
                            ids,
                            now@,
                        ))
                    &&& (forall|b2: Seq<char>, t: Seq<char>, v: Seq<char>|
                        has_fact(#[trigger] final(storage).records_view(), b2, t, v) <==> (
                        has_fact(old(storage).records_view(), b2, t, v) || (b2 == info@.id
                            && found_has_pair(recs.deep_view(), t, v))))
                },
                Err(_) => final(storage).records_view() == old(storage).records_view()
                    && final(report).records_found == old(report).records_found,
            },
            Err(e) => {
                &&& r is Ok
                &&& final(storage).records_view() == old(storage).records_view()
                &&& final(report).records_found == old(report).records_found
                &&& final(report).failures.deep_view() == old(report).failures.deep_view().push(
                    ScanFailureView {
                        connector_id: info@.id,
                        message: match e {
                            ConnectorError::UnsupportedCapability(m) => m@,
                            ConnectorError::Transport(m) => "Network error: "@ + m@,
                            ConnectorError::Data(m) => "Unusable response: "@ + m@,
                            ConnectorError::MissingQueryField(m) => m@,
                        },
                    },
                )
            },
        },
{
    match outcome {
        Ok(recs) => {
            let mut ids: Vec<String> = Vec::new();
            let mut k: usize = 0;
            while k < recs.len()
                invariant
                    k <= recs.len(),
                    ids@.len() == k,
                decreases recs.len() - k,
            {
                ids.push(fresh_id());
                k = k + 1;
            }
            proof {
                assert(ids.deep_view().len() == recs.len());
            }
            match store_found_records(storage, info.id.as_str(), recs, &ids, now) {
                Ok(n) => {
                    proof {
                        lemma_store_found_model_facts(
                            old(storage).records_view(),
                            info@.id,
                            recs.deep_view(),
                            ids.deep_view(),
                            now@,
                        );
                    }
                    report.records_found = report.records_found + n;
                    Ok(())
                },
                Err(e) => Err(e),
            }
        },
        Err(e) => {
            let failure = ScanFailure { connector_id: info.id.clone(), message: e.message() };
            let ghost pre = report.failures.deep_view();
            report.failures.push(failure);
            proof {
                assert(report.failures.deep_view() =~= pre.push(failure@));
            }
            Ok(())
        },
    }
}

/// Law: scanning the same connector and query twice against fresh storage
/// yields exactly one personal record per unique (kind, value) pair of the
/// scan's findings — whatever identifiers and timestamps the two passes
/// used, and however often a pair repeats across the two scans.
pub proof fn lemma_scan_idempotent(
    bid: Seq<char>,
    fs: Seq<FoundRecordView>,
    ids1: Seq<Seq<char>>,
    ids2: Seq<Seq<char>>,
    now1: Seq<char>,
    now2: Seq<char>,
)
    ensures
        ({
            let once = store_found_model(Seq::empty(), bid, fs, ids1, now1);
            let twice = store_found_model(once, bid, fs, ids2, now2);
            &&& forall|t: Seq<char>, v: Seq<char>|
                has_fact(twice, bid, t, v) <==> #[trigger] found_has_pair(fs, t, v)
            &&& records_unique_facts(twice)
        }),
{
    let empty = Seq::<PersonalRecordView>::empty();
    lemma_store_found_model_facts(empty, bid, fs, ids1, now1);
    let once = store_found_model(empty, bid, fs, ids1, now1);
    let twice = store_found_model(once, bid, fs, ids2, now2);
    lemma_store_found_model_facts(once, bid, fs, ids2, now2);
    assert(records_unique_facts(empty));
    assert forall|t: Seq<char>, v: Seq<char>|
        has_fact(twice, bid, t, v) <==> #[trigger] found_has_pair(fs, t, v) by {
        assert(!has_fact(empty, bid, t, v));
        assert(has_fact(once, bid, t, v) <==> found_has_pair(fs, t, v));
    }
}

} // verus!
