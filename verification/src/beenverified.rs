//! BeenVerified opt-out search connector (scan-only): the query
//! prerequisites and the conversion of search responses into found records.
//! The network transfer itself lives with the caller; deletion is not
//! supported — the opt-out form requires CAPTCHA interaction.

use vstd::prelude::*;

use crate::connector::{
    ConnectorCapabilities, ConnectorInfo, ConnectorInfoView, DeletionStatusCheck,
    DeletionSubmission, FoundRecord, FoundRecordView, PersonQuery,
};
use crate::error::ConnectorError;
use crate::text::{dec_str_of, joined, join_with, u64_to_string};

verus! {

/// One record of a BeenVerified search response, with every field optional.
pub struct BvRecord {
    pub first_name: Option<String>,
    pub last_name: Option<String>,
    pub age: Option<u32>,
    pub city: Option<String>,
    pub state: Option<String>,
    pub addresses: Vec<String>,
    pub relatives: Vec<String>,
    pub profile_url: Option<String>,
}

pub ghost struct BvRecordView {
    pub first_name: Option<Seq<char>>,
    pub last_name: Option<Seq<char>>,
    pub age: Option<u32>,
    pub city: Option<Seq<char>>,
    pub state: Option<Seq<char>>,
    pub addresses: Seq<Seq<char>>,
    pub relatives: Seq<Seq<char>>,
    pub profile_url: Option<Seq<char>>,
}

impl View for BvRecord {
    type V = BvRecordView;

    open spec fn view(&self) -> BvRecordView {
        BvRecordView {
            first_name: self.first_name.deep_view(),
            last_name: self.last_name.deep_view(),
            age: self.age,
            city: self.city.deep_view(),
            state: self.state.deep_view(),
            addresses: self.addresses.deep_view(),
            relatives: self.relatives.deep_view(),
            profile_url: self.profile_url.deep_view(),
        }
    }
}

impl DeepView for BvRecord {
    type V = BvRecordView;

    open spec fn deep_view(&self) -> BvRecordView {
        self.view()
    }
}

impl Default for BvRecord {
    /// A record with nothing filled in.
    fn default() -> (r: Self)
        ensures
            r@.first_name is None,
            r@.last_name is None,
            r@.age is None,
            r@.city is None,
            r@.state is None,
            r@.addresses =~= Seq::<Seq<char>>::empty(),
            r@.relatives =~= Seq::<Seq<char>>::empty(),
            r@.profile_url is None,
    {
        BvRecord {
            first_name: None,
            last_name: None,
            age: None,
            city: None,
            state: None,
            addresses: Vec::new(),
            relatives: Vec::new(),
            profile_url: None,
        }
    }
}

/// A BeenVerified search response. Some API revisions use "results" instead
/// of "records".
pub struct BvSearchResponse {
    pub records: Vec<BvRecord>,
    pub results: Vec<BvRecord>,
}

impl BvSearchResponse {
    /// The populated list: "records" where it holds anything, else "results".
    pub fn into_records(self) -> (r: Vec<BvRecord>)
        ensures
            r.deep_view() == (if self.records.deep_view().len() > 0 {
                self.records.deep_view()
            } else {
                self.results.deep_view()
            }),
    {
        if !self.records.is_empty() {
            self.records
        } else {
            self.results
        }
    }
}

/// The name entry of a converted record, present where a first or last name
/// is.
pub open spec fn bv_name_part(rec: BvRecordView) -> Seq<FoundRecordView> {
    if rec.first_name is Some && rec.last_name is Some {
        seq![bv_item("name"@, rec.first_name->0 + " "@ + rec.last_name->0, rec.profile_url)]
    } else if rec.first_name is Some {
        seq![bv_item("name"@, rec.first_name->0, rec.profile_url)]
    } else if rec.last_name is Some {
        seq![bv_item("name"@, rec.last_name->0, rec.profile_url)]
    } else {
        Seq::empty()
    }
}

/// The age entry of a converted record, where an age is reported.
pub open spec fn bv_age_part(rec: BvRecordView) -> Seq<FoundRecordView> {
    if rec.age is Some {
        seq![bv_item("age"@, dec_str_of(rec.age->0 as nat), rec.profile_url)]
    } else {
        Seq::empty()
    }
}

/// One address entry per structured address.
pub open spec fn bv_addr_part(rec: BvRecordView) -> Seq<FoundRecordView> {
    Seq::new(rec.addresses.len(), |i: int| bv_item("address"@, rec.addresses[i], rec.profile_url))
}

/// The city/state fallback address, where no structured address is present.
pub open spec fn bv_fallback_part(rec: BvRecordView) -> Seq<FoundRecordView> {
    if rec.addresses.len() == 0 && rec.city is Some && rec.state is Some {
        seq![bv_item("address"@, rec.city->0 + ", "@ + rec.state->0, rec.profile_url)]
    } else {
        Seq::empty()
    }
}

/// The joined relatives entry, where any relative is reported.
pub open spec fn bv_rel_part(rec: BvRecordView) -> Seq<FoundRecordView> {
    if rec.relatives.len() > 0 {
        seq![bv_item("relatives"@, joined(rec.relatives, ", "@), rec.profile_url)]
    } else {
        Seq::empty()
    }
}

/// The found records one `BvRecord` yields: a name where a first or last name
/// is present, an age, each structured address (or the city/state fallback
/// where none is structured), and the joined relatives.
pub open spec fn bv_found_of(rec: BvRecordView) -> Seq<FoundRecordView> {
    bv_name_part(rec) + bv_age_part(rec) + bv_addr_part(rec) + bv_fallback_part(rec) + bv_rel_part(
        rec,
    )
}

pub open spec fn bv_item(
    data_type: Seq<char>,
    data_value: Seq<char>,
    profile: Option<Seq<char>>,
) -> FoundRecordView {
    FoundRecordView { data_type, data_value, profile_url: profile, metadata: None }
}

/// Convert a single `BvRecord` into zero or more `FoundRecord` entries.
pub fn bv_record_to_found_records(rec: &BvRecord) -> (out: Vec<FoundRecord>)
    ensures
        out.deep_view() == bv_found_of(rec@),
{
    let mut out: Vec<FoundRecord> = Vec::new();

    match (&rec.first_name, &rec.last_name) {
        (Some(f), Some(l)) => {
            let mut name = f.clone();
            name.append(" ");
            name.append(l.as_str());
            out.push(found(String::from_str("name"), name, &rec.profile_url));
        },
        (Some(f), None) => {
            out.push(found(String::from_str("name"), f.clone(), &rec.profile_url));
        },
        (None, Some(l)) => {
            out.push(found(String::from_str("name"), l.clone(), &rec.profile_url));
        },
        (None, None) => {},
    }
    proof {
        assert(out.deep_view() =~= bv_name_part(rec@));
    }

    if let Some(age) = rec.age {
        out.push(found(String::from_str("age"), u64_to_string(age as u64), &rec.profile_url));
    }
    proof {
        assert(out.deep_view() =~= bv_name_part(rec@) + bv_age_part(rec@));
    }

    let ghost pre_addr = out.deep_view();
    let mut i: usize = 0;
    while i < rec.addresses.len()
        invariant
            i <= rec.addresses.len(),
            rec@.addresses.len() == rec.addresses.len(),
            forall|j: int| 0 <= j < rec.addresses.len() ==> rec@.addresses[j] == #[trigger] rec
                .addresses@[j]@,
            out.deep_view() =~= pre_addr + Seq::new(
                i as nat,
                |j: int| bv_item("address"@, rec@.addresses[j], rec@.profile_url),
            ),
        decreases rec.addresses.len() - i,
    {
        let ghost before = out.deep_view();
        out.push(found(String::from_str("address"), rec.addresses[i].clone(), &rec.profile_url));
        proof {
            assert(out.deep_view() =~= before.push(
                bv_item("address"@, rec@.addresses[i as int], rec@.profile_url),
            ));
            assert(out.deep_view() =~= pre_addr + Seq::new(
                i as nat + 1,
                |j: int| bv_item("address"@, rec@.addresses[j], rec@.profile_url),
            ));
        }
        i = i + 1;
    }

    proof {
        assert(out.deep_view() =~= bv_name_part(rec@) + bv_age_part(rec@) + bv_addr_part(rec@));
    }

    if rec.addresses.is_empty() {
        if let (Some(city), Some(state)) = (&rec.city, &rec.state) {
            let mut addr = city.clone();
            addr.append(", ");
            addr.append(state.as_str());
            out.push(found(String::from_str("address"), addr, &rec.profile_url));
        }
    }
    proof {
        assert(out.deep_view() =~= bv_name_part(rec@) + bv_age_part(rec@) + bv_addr_part(rec@)
            + bv_fallback_part(rec@));
    }

    if !rec.relatives.is_empty() {
        let rels = join_with(&rec.relatives, ", ");
        out.push(found(String::from_str("relatives"), rels, &rec.profile_url));
        proof {
            assert(rec@.relatives =~= rec.relatives.deep_view());
        }
    }

    proof {
        assert(out.deep_view() =~= bv_found_of(rec@));
    }
    out
}

/// Builds one found record; the profile link is shared by every entry of a
/// converted record.
fn found(data_type: String, data_value: String, profile_url: &Option<String>) -> (r: FoundRecord)
    ensures
        r@ == bv_item(data_type@, data_value@, profile_url.deep_view()),
{
    FoundRecord {
        data_type,
        data_value,
        profile_url: crate::text::clone_opt_string(profile_url),
        metadata: None,
    }
}

pub struct BeenVerifiedBroker;

/// What the BeenVerified connector declares about itself.
pub open spec fn beenverified_info_view() -> ConnectorInfoView {
    ConnectorInfoView {
        id: "beenverified"@,
        name: "BeenVerified"@,
        capabilities: ConnectorCapabilities {
            can_scan: true,
            can_delete: false,
            can_check_status: false,
        },
        home_country: Some("US"@),
        data_countries: seq!["US"@],
    }
}

impl BeenVerifiedBroker {
    pub fn id(&self) -> (r: &'static str)
        ensures
            r@ == "beenverified"@,
    {
        "beenverified"
    }

    pub fn name(&self) -> (r: &'static str)
        ensures
            r@ == "BeenVerified"@,
    {
        "BeenVerified"
    }

    pub fn capabilities(&self) -> (c: ConnectorCapabilities)
        ensures
            c.can_scan && !c.can_delete && !c.can_check_status,
    {
        ConnectorCapabilities { can_scan: true, can_delete: false, can_check_status: false }
    }

    pub fn home_country(&self) -> (r: Option<&'static str>)
        ensures
            r is Some && r->0@ == "US"@,
    {
        Some("US")
    }

    pub fn data_countries(&self) -> (r: Vec<String>)
        ensures
            r.deep_view() =~= seq!["US"@],
    {
        let mut v: Vec<String> = Vec::new();
        v.push(String::from_str("US"));
        v
    }

    /// This connector's registry entry.
    pub fn info(&self) -> (r: ConnectorInfo)
        ensures
            r@ == beenverified_info_view(),
    {
        let r = ConnectorInfo {
            id: String::from_str("beenverified"),
            name: String::from_str("BeenVerified"),
            capabilities: self.capabilities(),
            home_country: Some(String::from_str("US")),
            data_countries: self.data_countries(),
        };
        proof {
            assert(r@.data_countries =~= seq!["US"@]);
        }
        r
    }

    /// The state abbreviation a scan needs, or the "missing required field"
    /// error where the query lacks one.
    pub fn required_state<'a>(&self, query: &'a PersonQuery) -> (r: Result<&'a str, ConnectorError>)
        ensures
            match r {
                Ok(s) => query@.state == Some(s@) && s@.len() > 0,
                Err(e) => (query@.state is None || query@.state->0.len() == 0) && (e matches
                    ConnectorError::MissingQueryField(m) && m@
                    == "BeenVerified requires a state abbreviation (e.g. --state NY)"@),
            },
    {
        match &query.state {
            Some(s) if s.as_str().unicode_len() > 0 => Ok(s.as_str()),
            _ => Err(
                ConnectorError::MissingQueryField(
                    String::from_str("BeenVerified requires a state abbreviation (e.g. --state NY)"),
                ),
            ),
        }
    }

    /// The found records of a whole parsed search response.
    pub fn records_from_response(&self, resp: BvSearchResponse) -> (out: Vec<FoundRecord>)
        ensures
            out.deep_view() == bv_found_of_all(
                if resp.records.deep_view().len() > 0 {
                    resp.records.deep_view()
                } else {
                    resp.results.deep_view()
                },
            ),
    {
        let records = resp.into_records();
        let mut out: Vec<FoundRecord> = Vec::new();
        let mut i: usize = 0;
        while i < records.len()
            invariant
                i <= records.len(),
                records@.len() == records.len(),
                out.deep_view() =~= bv_found_of_all(records.deep_view().take(i as int)),
            decreases records.len() - i,
        {
            let mut converted = bv_record_to_found_records(&records[i]);
            let ghost pre = out.deep_view();
            let ghost converted_dv = converted.deep_view();
            out.append(&mut converted);
            proof {
                assert(records.deep_view().len() == records@.len());
                assert(records.deep_view()[i as int] == records@[i as int]@);
                lemma_bv_found_of_all_step(records.deep_view(), i as int);
                assert(out.deep_view() =~= pre + converted_dv);
            }
            i = i + 1;
        }
        proof {
            assert(records.deep_view().take(records.len() as int) =~= records.deep_view());
        }
        out
    }

    /// Deletion is not supported: the connector refuses defensively.
    pub fn request_deletion(&self, query: &PersonQuery, records: &Vec<FoundRecord>) -> (r: Result<
        DeletionSubmission,
        ConnectorError,
    >)
        ensures
            r is Err,
            r->Err_0 matches ConnectorError::UnsupportedCapability(m) && m@
                == "BeenVerified deletion is not yet supported — the opt-out form requires CAPTCHA interaction that cannot be automated without browser automation"@,
    {
        Err(
            ConnectorError::UnsupportedCapability(
                String::from_str(
                    "BeenVerified deletion is not yet supported — the opt-out form requires CAPTCHA interaction that cannot be automated without browser automation",
                ),
            ),
        )
    }

    /// Status checking is not supported: the connector refuses defensively.
    pub fn check_deletion_status(&self, external_ref: &str) -> (r: Result<
        DeletionStatusCheck,
        ConnectorError,
    >)
        ensures
            r is Err,
            r->Err_0 matches ConnectorError::UnsupportedCapability(m) && m@
                == "BeenVerified deletion status checking is not yet supported — deletion must be implemented first"@,
    {
        Err(
            ConnectorError::UnsupportedCapability(
                String::from_str(
                    "BeenVerified deletion status checking is not yet supported — deletion must be implemented first",
                ),
            ),
        )
    }
}

/// What one HTTP attempt of a scan yielded, as the caller observed it.
pub enum BvFetch {
    /// The transfer itself failed; carries the transport error's text.
    Failed(String),
    /// A response arrived with a non-success HTTP status code.
    Status(u16),
    /// A successful response whose body parsed as a search response.
    Content(BvSearchResponse),
    /// A successful response whose body did not parse.
    Unusable,
}

/// What to do after the first (JSON) scan attempt.
pub enum BvFirstAttempt {
    /// The attempt yielded records: the scan is done.
    Done(Vec<FoundRecord>),
    /// Try the HTML fallback; carries the first attempt's transport
    /// failure text, where a transport failure is what sent us there.
    TryFallback(Option<String>),
}

impl BeenVerifiedBroker {
    /// Decides the first (JSON) scan attempt: a parsed response with any
    /// convertible records finishes the scan; everything else — a transport
    /// failure, a non-success status, an unparsable or empty body — moves on
    /// to the HTML fallback, remembering a transport failure's text.
    pub fn first_attempt_decision(&self, fetch: BvFetch) -> (r: BvFirstAttempt)
        ensures
            match fetch {
                BvFetch::Content(resp) => {
                    let found = bv_found_of_all(
                        if resp.records.deep_view().len() > 0 {
                            resp.records.deep_view()
                        } else {
                            resp.results.deep_view()
                        },
                    );
                    if found.len() > 0 {
                        r matches BvFirstAttempt::Done(v) && v.deep_view() == found
                    } else {
                        r matches BvFirstAttempt::TryFallback(f) && f is None
                    }
                },
                BvFetch::Failed(m) => r matches BvFirstAttempt::TryFallback(f) && (f matches Some(
                    mm,
                ) && mm@ == m@),
                _ => r matches BvFirstAttempt::TryFallback(f) && f is None,
            },
    {
        match fetch {
            BvFetch::Content(resp) => {
                let records = self.records_from_response(resp);
                if records.len() > 0 {
                    proof {
                        assert(records.deep_view().len() == records@.len());
                    }
                    BvFirstAttempt::Done(records)
                } else {
                    proof {
                        assert(records.deep_view().len() == records@.len());
                    }
                    BvFirstAttempt::TryFallback(None)
                }
            },
            BvFetch::Failed(m) => BvFirstAttempt::TryFallback(Some(m)),
            _ => BvFirstAttempt::TryFallback(None),
        }
    }

    /// Decides the scan once the HTML fallback ran. The fallback yields no
    /// structured records, so the scan reports an empty result — except
    /// where both attempts failed in transport, which is a network failure
    /// of the whole scan and is reported as one.
    pub fn fallback_decision(&self, first_failure: Option<String>, second: BvFetch) -> (r: Result<
        Vec<FoundRecord>,
        ConnectorError,
    >)
        ensures
            match (first_failure, second) {
                (Some(_), BvFetch::Failed(m)) => r matches Err(e) && (e matches
                    ConnectorError::Transport(mm) && mm@ == m@),
                _ => r matches Ok(v) && v.deep_view() =~= Seq::<FoundRecordView>::empty(),
            },
    {
        match (first_failure, second) {
            (Some(_), BvFetch::Failed(m)) => Err(ConnectorError::Transport(m)),
            _ => {
                let v: Vec<FoundRecord> = Vec::new();
                proof {
                    assert(v.deep_view() =~= Seq::<FoundRecordView>::empty());
                }
                Ok(v)
            },
        }
    }
}

/// The concatenated found records of a sequence of parsed records.
pub open spec fn bv_found_of_all(records: Seq<BvRecordView>) -> Seq<FoundRecordView>
    decreases records.len(),
{
    if records.len() == 0 {
        Seq::empty()
    } else {
        bv_found_of_all(records.drop_last()) + bv_found_of(records.last())
    }
}

proof fn lemma_bv_found_of_all_step(records: Seq<BvRecordView>, i: int)
    requires
        0 <= i < records.len(),
    ensures
        bv_found_of_all(records.take(i + 1)) == bv_found_of_all(records.take(i)) + bv_found_of(
            records[i],
        ),
{
    assert(records.take(i + 1).drop_last() =~= records.take(i));
    assert(records.take(i + 1).last() == records[i]);
}

} // verus!
