//! The connector contract: the data a broker connector declares about itself
//! (identity, capabilities, country metadata), the value types that flow
//! between a connector and the orchestration engine, and the registry of
//! compiled-in connectors.

use vstd::prelude::*;

use crate::error::AppError;
use crate::text::clone_opt_string;

verus! {

/// What a connector supports. Queried before every operation, never assumed.
#[derive(Clone, Copy, Debug, PartialEq, Eq, Structural)]
pub struct ConnectorCapabilities {
    pub can_scan: bool,
    pub can_delete: bool,
    pub can_check_status: bool,
}

/// Identity attributes used to search for a person. Immutable per invocation.
pub struct PersonQuery {
    pub first_name: String,
    pub last_name: String,
    pub email: Option<String>,
    pub phone: Option<String>,
    pub city: Option<String>,
    pub state: Option<String>,
    pub country: Option<String>,
}

pub ghost struct PersonQueryView {
    pub first_name: Seq<char>,
    pub last_name: Seq<char>,
    pub email: Option<Seq<char>>,
    pub phone: Option<Seq<char>>,
    pub city: Option<Seq<char>>,
    pub state: Option<Seq<char>>,
    pub country: Option<Seq<char>>,
}

impl View for PersonQuery {
    type V = PersonQueryView;

    open spec fn view(&self) -> PersonQueryView {
        PersonQueryView {
            first_name: self.first_name@,
            last_name: self.last_name@,
            email: self.email.deep_view(),
            phone: self.phone.deep_view(),
            city: self.city.deep_view(),
            state: self.state.deep_view(),
            country: self.country.deep_view(),
        }
    }
}

impl Clone for PersonQuery {
    fn clone(&self) -> (r: Self)
        ensures
            r@ == self@,
    {
        PersonQuery {
            first_name: self.first_name.clone(),
            last_name: self.last_name.clone(),
            email: clone_opt_string(&self.email),
            phone: clone_opt_string(&self.phone),
            city: clone_opt_string(&self.city),
            state: clone_opt_string(&self.state),
            country: clone_opt_string(&self.country),
        }
    }
}

/// A fact about the person discovered during a scan, not yet persisted.
/// The opaque connector metadata travels as its raw JSON text.
pub struct FoundRecord {
    pub data_type: String,
    pub data_value: String,
    pub profile_url: Option<String>,
    pub metadata: Option<String>,
}

pub ghost struct FoundRecordView {
    pub data_type: Seq<char>,
    pub data_value: Seq<char>,
    pub profile_url: Option<Seq<char>>,
    pub metadata: Option<Seq<char>>,
}

impl View for FoundRecord {
    type V = FoundRecordView;

    open spec fn view(&self) -> FoundRecordView {
        FoundRecordView {
            data_type: self.data_type@,
            data_value: self.data_value@,
            profile_url: self.profile_url.deep_view(),
            metadata: self.metadata.deep_view(),
        }
    }
}

impl DeepView for FoundRecord {
    type V = FoundRecordView;

    open spec fn deep_view(&self) -> FoundRecordView {
        self.view()
    }
}

impl Clone for FoundRecord {
    fn clone(&self) -> (r: Self)
        ensures
            r@ == self@,
    {
        FoundRecord {
            data_type: self.data_type.clone(),
            data_value: self.data_value.clone(),
            profile_url: clone_opt_string(&self.profile_url),
            metadata: clone_opt_string(&self.metadata),
        }
    }
}

/// What a connector reports after accepting a deletion request.
pub struct DeletionSubmission {
    pub external_ref: String,
    pub message: Option<String>,
}

pub ghost struct DeletionSubmissionView {
    pub external_ref: Seq<char>,
    pub message: Option<Seq<char>>,
}

impl View for DeletionSubmission {
    type V = DeletionSubmissionView;

    open spec fn view(&self) -> DeletionSubmissionView {
        DeletionSubmissionView {
            external_ref: self.external_ref@,
            message: self.message.deep_view(),
        }
    }
}

impl Clone for DeletionSubmission {
    fn clone(&self) -> (r: Self)
        ensures
            r@ == self@,
    {
        DeletionSubmission {
            external_ref: self.external_ref.clone(),
            message: clone_opt_string(&self.message),
        }
    }
}

/// What a connector reports when polled for the state of a deletion request.
pub struct DeletionStatusCheck {
    pub status: String,
    pub completed_at: Option<String>,
    pub message: Option<String>,
}

pub ghost struct DeletionStatusCheckView {
    pub status: Seq<char>,
    pub completed_at: Option<Seq<char>>,
    pub message: Option<Seq<char>>,
}

impl View for DeletionStatusCheck {
    type V = DeletionStatusCheckView;

    open spec fn view(&self) -> DeletionStatusCheckView {
        DeletionStatusCheckView {
            status: self.status@,
            completed_at: self.completed_at.deep_view(),
            message: self.message.deep_view(),
        }
    }
}

impl Clone for DeletionStatusCheck {
    fn clone(&self) -> (r: Self)
        ensures
            r@ == self@,
    {
        DeletionStatusCheck {
            status: self.status.clone(),
            completed_at: clone_opt_string(&self.completed_at),
            message: clone_opt_string(&self.message),
        }
    }
}

/// What a connector declares about itself. Capability always comes from the
/// live connector, never from stored broker metadata.
pub struct ConnectorInfo {
    pub id: String,
    pub name: String,
    pub capabilities: ConnectorCapabilities,
    pub home_country: Option<String>,
    pub data_countries: Vec<String>,
}

pub ghost struct ConnectorInfoView {
    pub id: Seq<char>,
    pub name: Seq<char>,
    pub capabilities: ConnectorCapabilities,
    pub home_country: Option<Seq<char>>,
    pub data_countries: Seq<Seq<char>>,
}

impl View for ConnectorInfo {
    type V = ConnectorInfoView;

    open spec fn view(&self) -> ConnectorInfoView {
        ConnectorInfoView {
            id: self.id@,
            name: self.name@,
            capabilities: self.capabilities,
            home_country: self.home_country.deep_view(),
            data_countries: self.data_countries.deep_view(),
        }
    }
}

impl DeepView for ConnectorInfo {
    type V = ConnectorInfoView;

    open spec fn deep_view(&self) -> ConnectorInfoView {
        self.view()
    }
}

impl Clone for ConnectorInfo {
    fn clone(&self) -> (r: Self)
        ensures
            r@ == self@,
    {
        let r = ConnectorInfo {
            id: self.id.clone(),
            name: self.name.clone(),
            capabilities: self.capabilities,
            home_country: clone_opt_string(&self.home_country),
            data_countries: clone_string_vec(&self.data_countries),
        };
        r
    }
}

/// Clones a vector of strings, keeping its contents.
pub fn clone_string_vec(v: &Vec<String>) -> (r: Vec<String>)
    ensures
        r.deep_view() == v.deep_view(),
{
    let mut r: Vec<String> = Vec::new();
    let mut i: usize = 0;
    while i < v.len()
        invariant
            i <= v.len(),
            r@.len() == i,
            forall|j: int| 0 <= j < i ==> r.deep_view()[j] == #[trigger] v.deep_view()[j],
        decreases v.len() - i,
    {
        r.push(v[i].clone());
        i = i + 1;
    }
    proof {
        assert(r.deep_view() =~= v.deep_view());
    }
    r
}

/// First entry whose identifier is `id`, if any.
pub open spec fn lookup_entries(entries: Seq<ConnectorInfoView>, id: Seq<char>) -> Option<
    ConnectorInfoView,
>
    decreases entries.len(),
{
    if entries.len() == 0 {
        None
    } else if entries[0].id == id {
        Some(entries[0])
    } else {
        lookup_entries(entries.drop_first(), id)
    }
}

/// A process-wide, read-only-after-init mapping from connector identifier to
/// connector metadata, built once at startup. Registration rejects duplicate
/// identifiers.
pub struct ConnectorRegistry {
    entries: Vec<ConnectorInfo>,
}

impl View for ConnectorRegistry {
    type V = Seq<ConnectorInfoView>;

    closed spec fn view(&self) -> Seq<ConnectorInfoView> {
        self.entries.deep_view()
    }
}

impl ConnectorRegistry {
    /// No two registered connectors share an identifier.
    pub open spec fn wf(&self) -> bool {
        forall|i: int, j: int| 0 <= i < j < self@.len() ==> self@[i].id != self@[j].id
    }

    pub fn new() -> (r: ConnectorRegistry)
        ensures
            r@ =~= Seq::<ConnectorInfoView>::empty(),
            r.wf(),
    {
        let r = ConnectorRegistry { entries: Vec::new() };
        proof {
            assert(r@ =~= Seq::<ConnectorInfoView>::empty());
        }
        r
    }

    /// Registers a connector; a duplicate identifier is rejected and leaves
    /// the registry unchanged.
    pub fn register(&mut self, info: ConnectorInfo) -> (r: Result<(), AppError>)
        requires
            old(self).wf(),
        ensures
            final(self).wf(),
            match r {
                Ok(()) => lookup_entries(old(self)@, info@.id) is None && final(self)@ =~= old(
                    self,
                )@.push(info@),
                Err(e) => lookup_entries(old(self)@, info@.id) is Some && final(self)@ == old(
                    self,
                )@ && (e matches AppError::Config(_)),
            },
    {
        if self.get(info.id.as_str()).is_some() {
            let mut m = String::from_str("duplicate connector identifier '");
            m.append(info.id.as_str());
            m.append("'");
            return Err(AppError::Config(m));
        }
        let ghost pre = self@;
        self.entries.push(info);
        proof {
            assert(self@ =~= pre.push(info@));
            lemma_lookup_entries_none(pre, info@.id);
            assert forall|i: int, j: int| 0 <= i < j < self@.len() implies self@[i].id
                != self@[j].id by {
                if j == self@.len() - 1 {
                    assert(lookup_entries(pre, info@.id) is None);
                }
            }
        }
        Ok(())
    }

    /// Looks a connector up by identifier.
    pub fn get(&self, id: &str) -> (r: Option<&ConnectorInfo>)
        ensures
            match r {
                Some(info) => lookup_entries(self@, id@) == Some(info@),
                None => lookup_entries(self@, id@) is None,
            },
    {
        proof {
            assert(self@.skip(0) =~= self@);
        }
        let mut i: usize = 0;
        while i < self.entries.len()
            invariant
                i <= self.entries.len(),
                self@.len() == self.entries.len(),
                forall|j: int| 0 <= j < self.entries.len() ==> self@[j] == #[trigger] self
                    .entries@[j]@,
                lookup_entries(self@, id@) == lookup_entries(self@.skip(i as int), id@),
            decreases self.entries.len() - i,
        {
            if crate::text::str_eq(self.entries[i].id.as_str(), id) {
                proof {
                    assert(self@.skip(i as int)[0] == self@[i as int]);
                }
                return Some(&self.entries[i]);
            }
            proof {
                assert(self@.skip(i as int).drop_first() =~= self@.skip(i as int + 1));
                assert(self@.skip(i as int)[0] == self@[i as int]);
            }
            i = i + 1;
        }
        proof {
            assert(self@.skip(self.entries.len() as int) =~= Seq::<ConnectorInfoView>::empty());
        }
        None
    }

    /// All registered connectors, in registration order.
    pub fn entries(&self) -> (r: &Vec<ConnectorInfo>)
        ensures
            r.deep_view() == self@,
    {
        &self.entries
    }

    pub fn len(&self) -> (r: usize)
        ensures
            r == self@.len(),
    {
        self.entries.len()
    }
}

/// Build the registry of all compiled-in connectors.
/// Contributors: add your connector here.
pub fn build_connector_registry() -> (r: ConnectorRegistry)
    ensures
        r.wf(),
        r@ =~= seq![
            crate::dummy::dummy_info_view(),
            crate::beenverified::beenverified_info_view(),
        ],
{
    let mut reg = ConnectorRegistry::new();
    let res = reg.register(crate::dummy::DummyBroker.info());
    proof {
        if res is Err {
            assert(false);
        }
    }
    let ghost after_dummy = reg@;
    proof {
        reveal_strlit("dummy-broker");
        reveal_strlit("beenverified");
        assert("dummy-broker"@.len() == 12);
        assert("beenverified"@.len() == 12);
        assert("dummy-broker"@[0] == 'd');
        assert("beenverified"@[0] == 'b');
        assert("dummy-broker"@ != "beenverified"@);
        assert(after_dummy =~= seq![crate::dummy::dummy_info_view()]);
        assert(after_dummy.drop_first() =~= Seq::<ConnectorInfoView>::empty());
        assert(after_dummy[0].id == "dummy-broker"@);
        assert(lookup_entries(after_dummy.drop_first(), "beenverified"@) is None);
        assert(lookup_entries(after_dummy, "beenverified"@) is None);
    }
    let res2 = reg.register(crate::beenverified::BeenVerifiedBroker.info());
    proof {
        if res2 is Err {
            assert(false);
        }
    }
    reg
}

/// If no entry of `entries` has the identifier `id`, the lookup misses.
pub proof fn lemma_lookup_entries_none(entries: Seq<ConnectorInfoView>, id: Seq<char>)
    ensures
        (lookup_entries(entries, id) is None) <==> (forall|i: int|
            0 <= i < entries.len() ==> entries[i].id != id),
    decreases entries.len(),
{
    if entries.len() > 0 {
        let rest = entries.drop_first();
        lemma_lookup_entries_none(rest, id);
        if lookup_entries(entries, id) is None {
            assert(entries[0].id != id);
            assert forall|i: int| 0 <= i < entries.len() implies entries[i].id != id by {
                if i > 0 {
                    assert(rest[i - 1] == entries[i]);
                }
            }
        } else {
            if entries[0].id != id {
                assert(lookup_entries(rest, id) is Some);
                let w = choose|i: int| 0 <= i < rest.len() && rest[i].id == id;
                assert(entries[w + 1].id == id);
            }
        }
    }
}

} // verus!
