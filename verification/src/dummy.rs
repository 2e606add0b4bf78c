//! A dummy broker connector for testing and demonstration.
//! Returns fake data — useful for exercising the pipeline end-to-end.

use vstd::prelude::*;

use crate::connector::{
    ConnectorCapabilities, ConnectorInfo, ConnectorInfoView, DeletionStatusCheck,
    DeletionSubmission, FoundRecord, FoundRecordView, PersonQuery, PersonQueryView,
};
use crate::error::ConnectorError;
use crate::ids::fresh_id;

verus! {

pub struct DummyBroker;

/// What the dummy connector declares about itself.
pub open spec fn dummy_info_view() -> ConnectorInfoView {
    ConnectorInfoView {
        id: "dummy-broker"@,
        name: "Dummy Broker"@,
        capabilities: ConnectorCapabilities {
            can_scan: true,
            can_delete: true,
            can_check_status: true,
        },
        home_country: None,
        data_countries: Seq::empty(),
    }
}

/// The records a dummy scan reports for a query: a name, an address, and the
/// email and phone attributes where the query carries them.
pub open spec fn dummy_scan_records(q: PersonQueryView) -> Seq<FoundRecordView> {
    let profile = "https://dummy-broker.example.com/profile/12345"@;
    let name_rec = FoundRecordView {
        data_type: "name"@,
        data_value: q.first_name + " "@ + q.last_name,
        profile_url: Some(profile),
        metadata: None,
    };
    let addr_rec = FoundRecordView {
        data_type: "address"@,
        data_value: "123 Main St, "@ + (if q.city is Some {
            q.city->0
        } else {
            "Anytown"@
        }) + ", "@ + (if q.state is Some {
            q.state->0
        } else {
            "CA"@
        }),
        profile_url: Some(profile),
        metadata: None,
    };
    let with_email = if q.email is Some {
        seq![
            FoundRecordView {
                data_type: "email"@,
                data_value: q.email->0,
                profile_url: None,
                metadata: None,
            },
        ]
    } else {
        Seq::empty()
    };
    let with_phone = if q.phone is Some {
        seq![
            FoundRecordView {
                data_type: "phone"@,
                data_value: q.phone->0,
                profile_url: None,
                metadata: None,
            },
        ]
    } else {
        Seq::empty()
    };
    seq![name_rec, addr_rec] + with_email + with_phone
}

impl DummyBroker {
    pub fn id(&self) -> (r: &'static str)
        ensures
            r@ == "dummy-broker"@,
    {
        "dummy-broker"
    }

    pub fn name(&self) -> (r: &'static str)
        ensures
            r@ == "Dummy Broker"@,
    {
        "Dummy Broker"
    }

    pub fn capabilities(&self) -> (c: ConnectorCapabilities)
        ensures
            c.can_scan && c.can_delete && c.can_check_status,
    {
        ConnectorCapabilities { can_scan: true, can_delete: true, can_check_status: true }
    }

    pub fn home_country(&self) -> (r: Option<&'static str>)
        ensures
            r is None,
    {
        None
    }

    pub fn data_countries(&self) -> (r: Vec<String>)
        ensures
            r.deep_view() =~= Seq::<Seq<char>>::empty(),
    {
        Vec::new()
    }

    /// This connector's registry entry.
    pub fn info(&self) -> (r: ConnectorInfo)
        ensures
            r@ == dummy_info_view(),
    {
        let r = ConnectorInfo {
            id: String::from_str("dummy-broker"),
            name: String::from_str("Dummy Broker"),
            capabilities: self.capabilities(),
            home_country: None,
            data_countries: Vec::new(),
        };
        proof {
            assert(r@.data_countries =~= Seq::<Seq<char>>::empty());
        }
        r
    }

    /// Always succeeds and reports the records `dummy_scan_records` describes.
    pub fn scan(&self, query: &PersonQuery) -> (r: Result<Vec<FoundRecord>, ConnectorError>)
        ensures
            r is Ok,
            r->Ok_0.deep_view() == dummy_scan_records(query@),
    {
        let mut full_name = query.first_name.clone();
        full_name.append(" ");
        full_name.append(query.last_name.as_str());

        let mut address = String::from_str("123 Main St, ");
        match &query.city {
            Some(c) => address.append(c.as_str()),
            None => address.append("Anytown"),
        }
        address.append(", ");
        match &query.state {
            Some(s) => address.append(s.as_str()),
            None => address.append("CA"),
        }

        let mut records: Vec<FoundRecord> = Vec::new();
        records.push(
            FoundRecord {
                data_type: String::from_str("name"),
                data_value: full_name,
                profile_url: Some(
                    String::from_str("https://dummy-broker.example.com/profile/12345"),
                ),
                metadata: None,
            },
        );
        records.push(
            FoundRecord {
                data_type: String::from_str("address"),
                data_value: address,
                profile_url: Some(
                    String::from_str("https://dummy-broker.example.com/profile/12345"),
                ),
                metadata: None,
            },
        );
        if let Some(email) = &query.email {
            records.push(
                FoundRecord {
                    data_type: String::from_str("email"),
                    data_value: email.clone(),
                    profile_url: None,
                    metadata: None,
                },
            );
        }
        if let Some(phone) = &query.phone {
            records.push(
                FoundRecord {
                    data_type: String::from_str("phone"),
                    data_value: phone.clone(),
                    profile_url: None,
                    metadata: None,
                },
            );
        }
        proof {
            assert(records.deep_view() =~= dummy_scan_records(query@));
        }
        Ok(records)
    }

    /// Always accepts; the external reference is "DUMMY-" followed by a fresh
    /// 36-character identifier.
    pub fn request_deletion(&self, query: &PersonQuery, records: &Vec<FoundRecord>) -> (r: Result<
        DeletionSubmission,
        ConnectorError,
    >)
        ensures
            r is Ok,
            r->Ok_0@.external_ref.len() == 42,
            r->Ok_0@.external_ref.subrange(0, 6) == "DUMMY-"@,
            r->Ok_0@.message == Some("Deletion request submitted to Dummy Broker"@),
    {
        let mut external_ref = String::from_str("DUMMY-");
        proof {
            reveal_strlit("DUMMY-");
        }
        external_ref.append(fresh_id().as_str());
        proof {
            assert(external_ref@.subrange(0, 6) =~= "DUMMY-"@);
        }
        Ok(
            DeletionSubmission {
                external_ref,
                message: Some(String::from_str("Deletion request submitted to Dummy Broker")),
            },
        )
    }

    /// Always reports that the request is still being processed.
    pub fn check_deletion_status(&self, external_ref: &str) -> (r: Result<
        DeletionStatusCheck,
        ConnectorError,
    >)
        ensures
            r is Ok,
            r->Ok_0@.status == "in_progress"@,
            r->Ok_0@.completed_at is None,
            r->Ok_0@.message == Some("Request "@ + external_ref@ + " is being processed"@),
    {
        let mut message = String::from_str("Request ");
        message.append(external_ref);
        message.append(" is being processed");
        Ok(
            DeletionStatusCheck {
                status: String::from_str("in_progress"),
                completed_at: None,
                message: Some(message),
            },
        )
    }
}

} // verus!
