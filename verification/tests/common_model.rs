use lfs_core::model::CommonResult;
use lfs_core::text::u64_to_string;
use lfs_core::types::LfsError;

#[test]
fn success_wraps_payload_without_message() {
    let r: CommonResult<u32> = CommonResult::success(Some(7));
    assert!(r.req_result);
    assert_eq!(r.data, Some(7));
    assert_eq!(r.err_message, "");

    let empty: CommonResult<u32> = CommonResult::success(None);
    assert!(empty.req_result);
    assert!(empty.data.is_none());
}

#[test]
fn failed_carries_message_without_payload() {
    let r: CommonResult<u32> = CommonResult::failed("lookup failed");
    assert!(!r.req_result);
    assert!(r.data.is_none());
    assert_eq!(r.err_message, "lookup failed");
}

#[test]
fn error_kinds_map_to_codes_and_messages() {
    assert_eq!(LfsError::Conflict.code(), 409);
    assert_eq!(LfsError::NotFound.code(), 404);
    assert_eq!(LfsError::Forbidden.code(), 403);
    assert_eq!(LfsError::InvalidCursor.code(), 400);
    assert_eq!(LfsError::GeneralError.code(), 500);
    assert_eq!(LfsError::Conflict.message(), "Lock already exist");
    assert_eq!(LfsError::NotFound.message(), "Not found");
}

#[test]
fn decimal_rendering_is_exact() {
    assert_eq!(u64_to_string(0), "0");
    assert_eq!(u64_to_string(8000), "8000");
    assert_eq!(u64_to_string(18446744073709551615), "18446744073709551615");
}
