//! Broker-registry synchronization: turning the registry feed's entries into
//! broker rows and upserting them wholesale, with the sync time bookkept in
//! the metadata store. Absence of a feed field means "unknown", not
//! "cleared"; fetching the feed itself is the caller's business.

use vstd::prelude::*;

use crate::error::AppError;
use crate::models::{Broker, BrokerView};
use crate::storage::{set_meta_model, upsert_broker_model, MetaEntryView, Storage};

verus! {

/// One broker of the registry feed.
pub struct RegistryEntry {
    pub id: String,
    pub name: String,
    pub website: Option<String>,
    pub description: Option<String>,
    pub category: Option<String>,
    pub connector: Option<String>,
}

pub ghost struct RegistryEntryView {
    pub id: Seq<char>,
    pub name: Seq<char>,
    pub website: Option<Seq<char>>,
    pub description: Option<Seq<char>>,
    pub category: Option<Seq<char>>,
    pub connector: Option<Seq<char>>,
}

impl View for RegistryEntry {
    type V = RegistryEntryView;

    open spec fn view(&self) -> RegistryEntryView {
        RegistryEntryView {
            id: self.id@,
            name: self.name@,
            website: self.website.deep_view(),
            description: self.description.deep_view(),
            category: self.category.deep_view(),
            connector: self.connector.deep_view(),
        }
    }
}

impl DeepView for RegistryEntry {
    type V = RegistryEntryView;

    open spec fn deep_view(&self) -> RegistryEntryView {
        self.view()
    }
}

/// The broker row one feed entry becomes at sync time `now`.
pub open spec fn entry_to_broker(e: RegistryEntryView, now: Seq<char>) -> BrokerView {
    BrokerView {
        id: e.id,
        name: e.name,
        website: e.website,
        description: e.description,
        category: e.category,
        connector: e.connector,
        country: None,
        data_countries: None,
        registry_updated_at: Some(now),
        created_at: now,
        updated_at: now,
    }
}

/// Turns the registry feed's entries into broker rows stamped with the sync
/// time.
pub fn registry_entries_to_brokers(entries: &Vec<RegistryEntry>, now: &str) -> (r: Vec<Broker>)
    ensures
        r.deep_view() =~= Seq::new(
            entries.deep_view().len(),
            |i: int| entry_to_broker(entries.deep_view()[i], now@),
        ),
{
    let mut out: Vec<Broker> = Vec::new();
    let mut i: usize = 0;
    while i < entries.len()
        invariant
            i <= entries.len(),
            entries.deep_view().len() == entries.len(),
            out.deep_view().len() == i,
            forall|j: int|
                0 <= j < i ==> #[trigger] out.deep_view()[j] == entry_to_broker(
                    entries.deep_view()[j],
                    now@,
                ),
        decreases entries.len() - i,
    {
        let e = &entries[i];
        let b = Broker {
            id: e.id.clone(),
            name: e.name.clone(),
            website: crate::text::clone_opt_string(&e.website),
            description: crate::text::clone_opt_string(&e.description),
            category: crate::text::clone_opt_string(&e.category),
            connector: crate::text::clone_opt_string(&e.connector),
            country: None,
            data_countries: None,
            registry_updated_at: Some(String::from_str(now)),
            created_at: String::from_str(now),
            updated_at: String::from_str(now),
        };
        proof {
            assert(entries.deep_view()[i as int] == entries@[i as int]@);
            assert(b@ == entry_to_broker(entries.deep_view()[i as int], now@));
        }
        let ghost pre = out.deep_view();
        out.push(b);
        proof {
            assert(out.deep_view() =~= pre.push(entry_to_broker(entries.deep_view()[i as int], now@)));
        }
        i = i + 1;
    }
    out
}

/// The broker table after upserting every synced row in order.
pub open spec fn sync_brokers_model(bs: Seq<BrokerView>, synced: Seq<BrokerView>) -> Seq<BrokerView>
    decreases synced.len(),
{
    if synced.len() == 0 {
        bs
    } else {
        sync_brokers_model(upsert_broker_model(bs, synced[0]), synced.drop_first())
    }
}

/// Upserts every synced broker row and bookkeeps the sync time under the
/// "last_fetched_at" metadata key. Returns how many rows were synced.
pub fn apply_registry_sync(storage: &mut Storage, brokers: &Vec<Broker>, now: &str) -> (r: Result<
    usize,
    AppError,
>)
    requires
        old(storage).wf(),
    ensures
        final(storage).wf(),
        r matches Ok(n) && n == brokers@.len(),
        final(storage).brokers_view() == sync_brokers_model(
            old(storage).brokers_view(),
            brokers.deep_view(),
        ),
        final(storage).records_view() == old(storage).records_view(),
        final(storage).requests_view() == old(storage).requests_view(),
        final(storage).meta_view() == set_meta_model(
            old(storage).meta_view(),
            MetaEntryView { key: "last_fetched_at"@, value: now@ },
        ),
{
    let ghost bsv = brokers.deep_view();
    let mut i: usize = 0;
    proof {
        assert(bsv.skip(0) =~= bsv);
    }
    while i < brokers.len()
        invariant
            storage.wf(),
            i <= brokers.len(),
            bsv == brokers.deep_view(),
            bsv.len() == brokers.len(),
            storage.records_view() == old(storage).records_view(),
            storage.requests_view() == old(storage).requests_view(),
            storage.meta_view() == old(storage).meta_view(),
            sync_brokers_model(old(storage).brokers_view(), bsv) == sync_brokers_model(
                storage.brokers_view(),
                bsv.skip(i as int),
            ),
        decreases brokers.len() - i,
    {
        proof {
            assert(bsv[i as int] == brokers@[i as int]@);
            assert(bsv.skip(i as int)[0] == bsv[i as int]);
            assert(bsv.skip(i as int).drop_first() =~= bsv.skip(i as int + 1));
        }
        let res = storage.upsert_broker(&brokers[i]);
        if let Err(e) = res {
            proof {
                assert(false);
            }
            return Err(e);
        }
        i = i + 1;
    }
    proof {
        assert(bsv.skip(brokers.len() as int) =~= Seq::<BrokerView>::empty());
    }
    let res = storage.set_registry_meta("last_fetched_at", now);
    if let Err(e) = res {
        proof {
            assert(false);
        }
        return Err(e);
    }
    Ok(brokers.len())
}

} // verus!
