//! Decoding of the status word every host call returns.

use space_lib::common::extract;
use space_lib::error::HostError;

#[test]
fn success_yields_low_half() {
    assert_eq!(extract(0), Ok(0));
    assert_eq!(extract(42), Ok(42));
    assert_eq!(extract(0xffff_ffff), Ok(0xffff_ffff));
}

#[test]
fn every_known_category_maps_to_its_kind() {
    let kinds = [
        HostError::ReadRawBytes,
        HostError::DeserializeBytes,
        HostError::CallHttpRequest,
        HostError::ReadResponse,
        HostError::MemoryAccess,
        HostError::SendHttpRequest,
        HostError::SerializeData,
        HostError::GrowingMemory,
        HostError::WritingMemory,
    ];
    for (i, kind) in kinds.iter().enumerate() {
        let c = (i + 1) as u64;
        // The payload must not matter for a failure category.
        for p in [0u64, 1, 16, 0xffff_ffff] {
            assert_eq!(extract((c << 32) | p), Err(*kind));
        }
    }
}

#[test]
fn http_failure_scenario() {
    // Category 3, payload 16: the HTTP-call failure, whatever the payload.
    assert_eq!(extract(0x0000_0003_0000_0010), Err(HostError::CallHttpRequest));
}

#[test]
fn unknown_categories_never_mean_success() {
    assert_eq!(extract(10 << 32), Err(HostError::CallHttpRequest));
    assert_eq!(extract((0xdead << 32) | 7), Err(HostError::CallHttpRequest));
    assert_eq!(extract(u64::MAX), Err(HostError::CallHttpRequest));
}

#[test]
fn library_error_keeps_its_message() {
    let e = space_lib::error::Error::new("something went sideways");
    assert_eq!(e.description(), "something went sideways");
}
