//! Section manager and redirect-policy engine for a hosts table.
//!
//! The library owns one marker-delimited section of a hosts document. It
//! computes the content of that section under the gatekeep and the universal
//! redirect policy, and splices it into the document without touching the
//! text around it. Every function is a function of its arguments: reading
//! and writing the table, and resolving hostnames, are the caller's part.
pub mod catalog;
pub mod error;
pub mod hosts;
pub mod paths;
pub mod policy;
pub mod policy_laws;
pub mod region;
pub mod section;
pub mod section_laws;
pub mod text;
pub mod writer;

pub use catalog::{Catalog, Selection};
pub use error::{HostsError, WriteFailureReason};
pub use hosts::HostsManager;
pub use policy::RedirectTargets;
pub use region::{BlockMode, Region};
pub use writer::{Outcome, WriteStep};
