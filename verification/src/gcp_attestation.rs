//! The GCP attestation native of the older execution layers.  The Move
//! module is part of the compiled framework, so every layer registers the
//! native; none of these layers supports the feature, so the native never
//! verifies anything.  Each layer decides the outcome differently.

use vstd::prelude::*;

pub mod v0;
pub mod v2;
pub mod v3;

verus! {

/// The Move abort code that reports an unsupported native.
pub const NOT_SUPPORTED_ERROR: u64 = 0;

/// A native call that completes by aborting: the gas it charges and the
/// abort code it raises.
#[derive(Debug, Clone, Copy, PartialEq, Eq, Structural)]
pub struct NativeAbort {
    pub cost: u64,
    pub abort_code: u64,
}

/// The VM status codes these natives report.
#[derive(Debug, Clone, Copy, PartialEq, Eq, Structural)]
pub enum StatusCode {
    FeatureNotEnabled,
}

/// A VM error raised by a native: its status code and message.
#[derive(Debug)]
pub struct NativeVmError {
    pub status: StatusCode,
    pub message: String,
}

} // verus!
