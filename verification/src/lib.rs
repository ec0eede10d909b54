//! A local, password-protected secret store.
//!
//! Secrets are encrypted at rest under a key derived from a master
//! password; each secret may carry a time-bounded lease after which it is
//! treated as deleted. The vault itself is a single in-memory aggregate;
//! reading and writing the persisted file is left to the embedding
//! program, which hands plain values in and out.
//!
//! Concurrent invocations against the same persisted file are a known
//! hazard: the last writer wins and updates may be lost. Within one
//! process the crypto engine holds only an immutable key and may be
//! shared across threads.

pub mod crypto;
pub mod errors;
pub mod identity;
pub mod lease;
pub mod namemap;
pub mod utils;
pub mod vault;

use vstd::prelude::*;

verus! {

/// The schema version written into every persisted vault aggregate.
pub open spec fn schema_version() -> Seq<char> {
    "0.1.0"@
}

} // verus!
