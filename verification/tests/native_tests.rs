use compressed_layout::gcp_attestation::{v0, v2, v3, NativeAbort, StatusCode, NOT_SUPPORTED_ERROR};
use compressed_layout::signature_verify::{IntentScope, SignatureVerifyResult};

#[test]
fn v0_aborts_charging_the_gas_used() {
    assert_eq!(v0::verify_gcp_attestation_internal(123), NativeAbort { cost: 123, abort_code: NOT_SUPPORTED_ERROR });
}

#[test]
fn v2_reports_feature_not_enabled() {
    let e = v2::verify_gcp_attestation_internal();
    assert_eq!(e.status, StatusCode::FeatureNotEnabled);
    assert_eq!(e.message, "GCP attestation is not supported in this execution layer");
}

#[test]
fn v3_aborts_whatever_the_flag_says() {
    let expected = NativeAbort { cost: 7, abort_code: 0 };
    assert_eq!(v3::verify_gcp_attestation_internal(7, false), expected);
    assert_eq!(v3::verify_gcp_attestation_internal(7, true), expected);
}

#[test]
fn signature_verify_values() {
    assert_ne!(IntentScope::TransactionData, IntentScope::PersonalMessage);
    let r = SignatureVerifyResult { success: Some(true) };
    assert_eq!(r.success, Some(true));
}
