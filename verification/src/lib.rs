//! Verified core of a minimal process-listing utility.
//!
//! The library enumerates the entries of a process-information root
//! (one directory per live process, named by its decimal process id),
//! parses each process's status record into a field map, decodes the
//! user and group credential fields, and resolves numeric ids to
//! display names through a cached identity lookup.
//!
//! All filesystem and identity-database reads happen outside the
//! library; callers hand in the directory listing, the status texts
//! and an identity table, and get back fully decoded process records.

pub mod cred;
pub mod enumerate;
pub mod identity;
pub mod numeric;
pub mod status;
pub mod text;

use vstd::prelude::*;

verus! {

/// The conditions an enumeration pass can signal. Per-entry trouble —
/// a process that vanished between listing and reading, a credential
/// field with missing or unparsable tokens — is absorbed where it
/// arises (the entry is skipped, or default ids substituted) and never
/// surfaces here.
#[derive(Clone, Copy, PartialEq, Eq, Structural, Debug)]
pub enum ProcError {
    /// The process-information root itself could not be listed;
    /// nothing can proceed.
    RootUnreadable,
    /// An id has no entry in the system identity database.
    UnknownIdentity,
}

} // verus!
