//! Execution layer v0: the feature flag is never set here, so the native
//! always aborts with [`NOT_SUPPORTED_ERROR`].

use vstd::prelude::*;
use crate::gcp_attestation::{NativeAbort, NOT_SUPPORTED_ERROR};

verus! {

/// The outcome of the attestation native, given the gas used so far: an
/// abort with [`NOT_SUPPORTED_ERROR`] that charges exactly that gas.
pub fn verify_gcp_attestation_internal(gas_used: u64) -> (r: NativeAbort)
    ensures
        r == (NativeAbort { cost: gas_used, abort_code: NOT_SUPPORTED_ERROR }),
{
    NativeAbort { cost: gas_used, abort_code: NOT_SUPPORTED_ERROR }
}

} // verus!
