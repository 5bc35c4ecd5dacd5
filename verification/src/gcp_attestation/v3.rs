//! Execution layer v3: the native first reads the `enable_gcp_attestation`
//! protocol flag; that flag is never set in this layer, and the native
//! aborts with [`NOT_SUPPORTED_ERROR`] either way.

use vstd::prelude::*;
use crate::gcp_attestation::{NativeAbort, NOT_SUPPORTED_ERROR};

verus! {

/// The outcome of the attestation native, given the gas used so far and the
/// protocol flag as read from the object runtime: an abort with
/// [`NOT_SUPPORTED_ERROR`] that charges exactly the gas used, whatever the
/// flag says.
pub fn verify_gcp_attestation_internal(gas_used: u64, gcp_attestation_enabled: bool) -> (r: NativeAbort)
    ensures
        r == (NativeAbort { cost: gas_used, abort_code: NOT_SUPPORTED_ERROR }),
{
    let cost = gas_used;
    if !gcp_attestation_enabled {
        return NativeAbort { cost, abort_code: NOT_SUPPORTED_ERROR };
    }
    NativeAbort { cost, abort_code: NOT_SUPPORTED_ERROR }
}

} // verus!
