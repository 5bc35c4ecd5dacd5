//! Execution layer v2: the feature exists only in the latest execution
//! layer, so the native always reports that the feature is not enabled.

use vstd::prelude::*;
use crate::gcp_attestation::{NativeVmError, StatusCode};

verus! {

/// The error the attestation native always fails with: `FEATURE_NOT_ENABLED`,
/// saying that the layer does not support GCP attestation.
pub fn verify_gcp_attestation_internal() -> (e: NativeVmError)
    ensures
        e.status == StatusCode::FeatureNotEnabled,
        e.message@ == "GCP attestation is not supported in this execution layer"@,
{
    let message = "GCP attestation is not supported in this execution layer".to_owned();
    NativeVmError { status: StatusCode::FeatureNotEnabled, message }
}

} // verus!
