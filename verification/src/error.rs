//! Error taxonomy of the engine. Per-connector and per-broker failures during
//! fan-out are caught and aggregated into a pass's summary; storage failures
//! propagate to the caller of the current orchestration call.

use vstd::prelude::*;

verus! {

/// An engine-level failure.
#[derive(Clone, Debug)]
pub enum AppError {
    /// The backing store reported a failure or an invariant was violated.
    Database(String),
    /// A network transfer failed.
    Network(String),
    /// A file operation failed.
    Io(String),
    /// A document could not be parsed.
    Json(String),
    /// No broker with the given identifier is known.
    BrokerNotFound(String),
    /// No stored record carries the given identifier.
    RecordNotFound(String),
    /// A deletion selector resolved to an empty record set.
    NoRecordsToDelete,
    /// The registry feed could not be used.
    Registry(String),
    /// The caller supplied unusable settings or arguments.
    Config(String),
    /// A country code was not two ASCII letters; carries the normalized input.
    InvalidCountryCode(String),
}

impl AppError {
    /// A human-readable description of the failure.
    pub fn message(&self) -> (r: String)
        ensures
            r@ == match self {
                AppError::Database(m) => "Database error: "@ + m@,
                AppError::Network(m) => "Network error: "@ + m@,
                AppError::Io(m) => "IO error: "@ + m@,
                AppError::Json(m) => "JSON error: "@ + m@,
                AppError::BrokerNotFound(id) => "Broker '"@ + id@ + "' not found"@,
                AppError::RecordNotFound(id) => "Record '"@ + id@ + "' not found"@,
                AppError::NoRecordsToDelete => "No records to delete"@,
                AppError::Registry(m) => "Registry error: "@ + m@,
                AppError::Config(m) => "Configuration error: "@ + m@,
                AppError::InvalidCountryCode(c) => "Invalid country code '"@ + c@
                    + "': must be exactly 2 uppercase ASCII letters (ISO 3166-1 alpha-2)"@,
            },
    {
        match self {
            AppError::Database(m) => {
                let mut s = String::from_str("Database error: ");
                s.append(m.as_str());
                s
            },
            AppError::Network(m) => {
                let mut s = String::from_str("Network error: ");
                s.append(m.as_str());
                s
            },
            AppError::Io(m) => {
                let mut s = String::from_str("IO error: ");
                s.append(m.as_str());
                s
            },
            AppError::Json(m) => {
                let mut s = String::from_str("JSON error: ");
                s.append(m.as_str());
                s
            },
            AppError::BrokerNotFound(id) => {
                let mut s = String::from_str("Broker '");
                s.append(id.as_str());
                s.append("' not found");
                s
            },
            AppError::RecordNotFound(id) => {
                let mut s = String::from_str("Record '");
                s.append(id.as_str());
                s.append("' not found");
                s
            },
            AppError::NoRecordsToDelete => String::from_str("No records to delete"),
            AppError::Registry(m) => {
                let mut s = String::from_str("Registry error: ");
                s.append(m.as_str());
                s
            },
            AppError::Config(m) => {
                let mut s = String::from_str("Configuration error: ");
                s.append(m.as_str());
                s
            },
            AppError::InvalidCountryCode(c) => {
                let mut s = String::from_str("Invalid country code '");
                s.append(c.as_str());
                s.append("': must be exactly 2 uppercase ASCII letters (ISO 3166-1 alpha-2)");
                s
            },
        }
    }
}

/// A failure of one connector operation.
#[derive(Clone, Debug)]
pub enum ConnectorError {
    /// The operation is not supported by this connector; carries the
    /// connector's own description of the refusal.
    UnsupportedCapability(String),
    /// The network call failed or timed out.
    Transport(String),
    /// The remote response could not be used.
    Data(String),
    /// The query lacks a field this connector requires; carries the
    /// connector's own description, which names the field.
    MissingQueryField(String),
}

impl ConnectorError {
    /// A human-readable description of the failure.
    pub fn message(&self) -> (r: String)
        ensures
            r@ == match self {
                ConnectorError::UnsupportedCapability(m) => m@,
                ConnectorError::Transport(m) => "Network error: "@ + m@,
                ConnectorError::Data(m) => "Unusable response: "@ + m@,
                ConnectorError::MissingQueryField(m) => m@,
            },
    {
        match self {
            ConnectorError::UnsupportedCapability(m) => m.clone(),
            ConnectorError::Transport(m) => {
                let mut s = String::from_str("Network error: ");
                s.append(m.as_str());
                s
            },
            ConnectorError::Data(m) => {
                let mut s = String::from_str("Unusable response: ");
                s.append(m.as_str());
                s
            },
            ConnectorError::MissingQueryField(m) => m.clone(),
        }
    }
}

} // verus!
