//! The failures that an operation on the hosts table can report.
use vstd::prelude::*;
use vstd::string::*;
use crate::paths::{hosts_path, table_path};
use crate::text::occurs_at;

verus! {

/// Why the document could not be persisted.
#[derive(Clone, Copy, Debug, PartialEq, Eq, Structural)]
pub enum WriteFailureReason {
    /// The caller lacks the privilege to write the table.
    Permission,
    /// Any other failure of the write.
    Io,
}

/// A failure of an apply, revert or reset operation.
#[derive(Clone, Debug, PartialEq, Eq)]
pub enum HostsError {
    /// No region was selected.
    EmptySelection,
    /// The selection does not hold exactly one region, as a redirect needs.
    InvalidSelection,
    /// The selected region is not in the catalog.
    RegionNotFound,
    /// The lookup of `hostname` failed or gave no address.
    ResolutionFailure { hostname: String },
    /// The new document could not be written.
    WriteFailure { reason: WriteFailureReason },
}

/// The hint that a failed write gives: how to elevate privileges.
pub open spec fn elevation_hint() -> Seq<char> {
    "Please run this function with sudo."@
}

/// The message of a failed write, whatever its reason: it names the table's
/// path and ends in the hint to elevate privileges.
pub open spec fn write_failure_text() -> Seq<char> {
    "Failed to write to "@ + table_path() + ". "@ + elevation_hint()
}

impl HostsError {
    /// The message that tells the operator what went wrong.
    pub open spec fn message_text(self) -> Seq<char> {
        match self {
            HostsError::EmptySelection => "Please select at least one server to allow."@,
            HostsError::InvalidSelection => "Please select only one server when using Universal Redirect mode."@,
            HostsError::RegionNotFound => "Selected region not found"@,
            HostsError::ResolutionFailure { hostname } => "Failed to resolve hostname: "@
                + hostname@,
            HostsError::WriteFailure { .. } => write_failure_text(),
        }
    }

    /// Renders the message for the operator.
    pub fn message(&self) -> (text: String)
        ensures
            text@ == self.message_text(),
    {
        match self {
            HostsError::EmptySelection => String::from_str(
                "Please select at least one server to allow.",
            ),
            HostsError::InvalidSelection => String::from_str(
                "Please select only one server when using Universal Redirect mode.",
            ),
            HostsError::RegionNotFound => String::from_str("Selected region not found"),
            HostsError::ResolutionFailure { hostname } => {
                let mut text: String = String::from_str("Failed to resolve hostname: ");
                text.append(hostname.as_str());
                text
            },
            HostsError::WriteFailure { .. } => {
                let mut text: String = String::from_str("Failed to write to ");
                text.append(hosts_path());
                text.append(". ");
                text.append("Please run this function with sudo.");
                text
            },
        }
    }
}

/// The message of a failed write names the table's path and gives the hint
/// to elevate privileges, for either reason of the failure.
pub proof fn law_write_failure_names_path_and_hint(reason: WriteFailureReason)
    ensures
        ({
            let text = (HostsError::WriteFailure { reason }).message_text();
            &&& exists|at: int| occurs_at(text, table_path(), at)
            &&& exists|at: int| occurs_at(text, elevation_hint(), at)
            &&& exists|at: int| occurs_at(text, "sudo"@, at)
        }),
{
    let text = (HostsError::WriteFailure { reason }).message_text();
    let head = "Failed to write to "@;
    let path = table_path();
    let hint = elevation_hint();
    let a = head.len() as int;
    let b = a + path.len() + ". "@.len();
    assert(text.subrange(a, a + path.len()) =~= path);
    assert(occurs_at(text, path, a));
    assert(text.subrange(b, b + hint.len()) =~= hint);
    assert(occurs_at(text, hint, b));
    reveal_strlit("Please run this function with sudo.");
    reveal_strlit("sudo");
    assert(hint.subrange(30, 34) =~= "sudo"@);
    assert(text.subrange(b + 30, b + 30 + 4) =~= "sudo"@);
    assert(occurs_at(text, "sudo"@, b + 30));
}

} // verus!
