//! The command surface, as plain data: what a caller can ask the engine to
//! do. Argument parsing lives with the caller; the engine only sees these
//! values.

use vstd::prelude::*;

verus! {

/// One invocation: a command and the logging verbosity.
pub struct Cli {
    pub command: Command,
    pub verbose: u8,
}

/// What one invocation asks for.
pub enum Command {
    /// Manage the broker registry.
    Registry { command: RegistryCommand },
    /// List and inspect known data brokers.
    Broker { command: BrokerCommand },
    /// Scan data brokers for a person's information.
    Scan {
        first_name: String,
        last_name: String,
        email: Option<String>,
        phone: Option<String>,
        city: Option<String>,
        state: Option<String>,
        country: Option<String>,
        brokers: Vec<String>,
    },
    /// Request deletion of found records.
    Delete { all: bool, broker: Option<String>, record: Option<String> },
    /// Check the status of deletion requests.
    Status { broker: Option<String>, filter: Option<String> },
    /// Generate a report of findings and deletion status.
    Report { format: String, output: Option<String> },
}

pub enum RegistryCommand {
    /// Fetch the latest broker registry.
    Update,
    /// Show registry metadata.
    Info,
}

pub enum BrokerCommand {
    /// List known data brokers.
    List { category: Option<String>, country: Option<String> },
    /// Show details about a specific broker.
    Info { id: String },
}

/// The log level one `-v` count picks: warnings by default, then info,
/// debug, and trace.
pub fn log_filter(verbose: u8) -> (r: &'static str)
    ensures
        verbose == 0 ==> r@ == "warn"@,
        verbose == 1 ==> r@ == "info"@,
        verbose == 2 ==> r@ == "debug"@,
        verbose >= 3 ==> r@ == "trace"@,
{
    if verbose == 0 {
        "warn"
    } else if verbose == 1 {
        "info"
    } else if verbose == 2 {
        "debug"
    } else {
        "trace"
    }
}

} // verus!
