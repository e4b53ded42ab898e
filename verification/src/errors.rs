//! The error taxonomy of the storage core.

use vstd::prelude::*;
use vstd::string::*;

verus! {

/// The error taxonomy of the storage core.
///
/// `NotFound` is an absent result, not a failure. `ProvisionFailed`,
/// `WriteFailed` and `SearchFailed` carry a description of the underlying
/// cause together with enough context to diagnose it. `LockFailed` means the
/// guard of the shared handle is unrecoverable and should be treated as fatal
/// to the process instance.
#[derive(Debug, PartialEq, Eq)]
pub enum KvError {
    NotInitialized,
    NotFound,
    ProvisionFailed(String),
    WriteFailed(String),
    SearchFailed(String),
    LockFailed,
}

/// The description of an error, as a caller would display it.
pub open spec fn spec_describe(e: KvError) -> Seq<char> {
    match e {
        KvError::NotInitialized => "store not initialized"@,
        KvError::NotFound => "not found"@,
        KvError::ProvisionFailed(c) => "provisioning failed: "@ + c@,
        KvError::WriteFailed(c) => "write failed: "@ + c@,
        KvError::SearchFailed(c) => "search failed: "@ + c@,
        KvError::LockFailed => "store lock poisoned"@,
    }
}

impl KvError {
    /// A descriptive string for the surrounding application; engine internals
    /// appear only inside the carried cause.
    pub fn describe(&self) -> (r: String)
        ensures
            r@ == spec_describe(*self),
    {
        match self {
            KvError::NotInitialized => String::from_str("store not initialized"),
            KvError::NotFound => String::from_str("not found"),
            KvError::ProvisionFailed(c) => {
                let mut s = String::from_str("provisioning failed: ");
                s.append(c.as_str());
                s
            },
            KvError::WriteFailed(c) => {
                let mut s = String::from_str("write failed: ");
                s.append(c.as_str());
                s
            },
            KvError::SearchFailed(c) => {
                let mut s = String::from_str("search failed: ");
                s.append(c.as_str());
                s
            },
            KvError::LockFailed => String::from_str("store lock poisoned"),
        }
    }
}

} // verus!
