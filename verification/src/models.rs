//! The persisted data model: brokers, personal records and deletion
//! requests, with their mathematical views.

use vstd::prelude::*;

use crate::text::clone_opt_string;

verus! {

/// Registry metadata about one data broker. Not authoritative for
/// capability — capability always comes from the live connector.
pub struct Broker {
    pub id: String,
    pub name: String,
    pub website: Option<String>,
    pub description: Option<String>,
    pub category: Option<String>,
    pub connector: Option<String>,
    pub country: Option<String>,
    pub data_countries: Option<String>,
    pub registry_updated_at: Option<String>,
    pub created_at: String,
    pub updated_at: String,
}

pub ghost struct BrokerView {
    pub id: Seq<char>,
    pub name: Seq<char>,
    pub website: Option<Seq<char>>,
    pub description: Option<Seq<char>>,
    pub category: Option<Seq<char>>,
    pub connector: Option<Seq<char>>,
    pub country: Option<Seq<char>>,
    pub data_countries: Option<Seq<char>>,
    pub registry_updated_at: Option<Seq<char>>,
    pub created_at: Seq<char>,
    pub updated_at: Seq<char>,
}

impl View for Broker {
    type V = BrokerView;

    open spec fn view(&self) -> BrokerView {
        BrokerView {
            id: self.id@,
            name: self.name@,
            website: self.website.deep_view(),
            description: self.description.deep_view(),
            category: self.category.deep_view(),
            connector: self.connector.deep_view(),
            country: self.country.deep_view(),
            data_countries: self.data_countries.deep_view(),
            registry_updated_at: self.registry_updated_at.deep_view(),
            created_at: self.created_at@,
            updated_at: self.updated_at@,
        }
    }
}

impl DeepView for Broker {
    type V = BrokerView;

    open spec fn deep_view(&self) -> BrokerView {
        self.view()
    }
}

impl Clone for Broker {
    fn clone(&self) -> (r: Self)
        ensures
            r@ == self@,
    {
        Broker {
            id: self.id.clone(),
            name: self.name.clone(),
            website: clone_opt_string(&self.website),
            description: clone_opt_string(&self.description),
            category: clone_opt_string(&self.category),
            connector: clone_opt_string(&self.connector),
            country: clone_opt_string(&self.country),
            data_countries: clone_opt_string(&self.data_countries),
            registry_updated_at: clone_opt_string(&self.registry_updated_at),
            created_at: self.created_at.clone(),
            updated_at: self.updated_at.clone(),
        }
    }
}

/// A persisted, deduplicated found record tied to a broker.
/// The triple (broker, kind, value) identifies the fact.
pub struct PersonalRecord {
    pub id: String,
    pub broker_id: String,
    pub data_type: String,
    pub data_value: String,
    pub profile_url: Option<String>,
    pub raw_json: Option<String>,
    pub found_at: String,
}

pub ghost struct PersonalRecordView {
    pub id: Seq<char>,
    pub broker_id: Seq<char>,
    pub data_type: Seq<char>,
    pub data_value: Seq<char>,
    pub profile_url: Option<Seq<char>>,
    pub raw_json: Option<Seq<char>>,
    pub found_at: Seq<char>,
}

impl View for PersonalRecord {
    type V = PersonalRecordView;

    open spec fn view(&self) -> PersonalRecordView {
        PersonalRecordView {
            id: self.id@,
            broker_id: self.broker_id@,
            data_type: self.data_type@,
            data_value: self.data_value@,
            profile_url: self.profile_url.deep_view(),
            raw_json: self.raw_json.deep_view(),
            found_at: self.found_at@,
        }
    }
}

impl DeepView for PersonalRecord {
    type V = PersonalRecordView;

    open spec fn deep_view(&self) -> PersonalRecordView {
        self.view()
    }
}

impl Clone for PersonalRecord {
    fn clone(&self) -> (r: Self)
        ensures
            r@ == self@,
    {
        PersonalRecord {
            id: self.id.clone(),
            broker_id: self.broker_id.clone(),
            data_type: self.data_type.clone(),
            data_value: self.data_value.clone(),
            profile_url: clone_opt_string(&self.profile_url),
            raw_json: clone_opt_string(&self.raw_json),
            found_at: self.found_at.clone(),
        }
    }
}

/// A persisted tracking row for one deletion attempt against one broker.
pub struct DeletionRequest {
    pub id: String,
    pub broker_id: String,
    pub personal_record_id: Option<String>,
    pub status: String,
    pub submitted_at: Option<String>,
    pub completed_at: Option<String>,
    pub error_message: Option<String>,
    pub external_ref: Option<String>,
    pub created_at: String,
    pub updated_at: String,
}

pub ghost struct DeletionRequestView {
    pub id: Seq<char>,
    pub broker_id: Seq<char>,
    pub personal_record_id: Option<Seq<char>>,
    pub status: Seq<char>,
    pub submitted_at: Option<Seq<char>>,
    pub completed_at: Option<Seq<char>>,
    pub error_message: Option<Seq<char>>,
    pub external_ref: Option<Seq<char>>,
    pub created_at: Seq<char>,
    pub updated_at: Seq<char>,
}

impl View for DeletionRequest {
    type V = DeletionRequestView;

    open spec fn view(&self) -> DeletionRequestView {
        DeletionRequestView {
            id: self.id@,
            broker_id: self.broker_id@,
            personal_record_id: self.personal_record_id.deep_view(),
            status: self.status@,
            submitted_at: self.submitted_at.deep_view(),
            completed_at: self.completed_at.deep_view(),
            error_message: self.error_message.deep_view(),
            external_ref: self.external_ref.deep_view(),
            created_at: self.created_at@,
            updated_at: self.updated_at@,
        }
    }
}

impl DeepView for DeletionRequest {
    type V = DeletionRequestView;

    open spec fn deep_view(&self) -> DeletionRequestView {
        self.view()
    }
}

impl Clone for DeletionRequest {
    fn clone(&self) -> (r: Self)
        ensures
            r@ == self@,
    {
        DeletionRequest {
            id: self.id.clone(),
            broker_id: self.broker_id.clone(),
            personal_record_id: clone_opt_string(&self.personal_record_id),
            status: self.status.clone(),
            submitted_at: clone_opt_string(&self.submitted_at),
            completed_at: clone_opt_string(&self.completed_at),
            error_message: clone_opt_string(&self.error_message),
            external_ref: clone_opt_string(&self.external_ref),
            created_at: self.created_at.clone(),
            updated_at: self.updated_at.clone(),
        }
    }
}

} // verus!
