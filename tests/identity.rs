use sha2::Digest;
use solo2::error::Error;
use solo2::firmware::{Firmware, Version};
use solo2::uuid::Uuid;

#[test]
fn uuid_bytes_round_trip() {
    let uuid = Uuid(0x0011_2233_4455_6677_8899_AABB_CCDD_EEFF);
    let bytes = uuid.bytes();
    assert_eq!(bytes[0], 0x00);
    assert_eq!(bytes[15], 0xFF);
    assert_eq!(Uuid::from_bytes(&bytes), Ok(uuid));
    assert_eq!(uuid.u128(), 0x0011_2233_4455_6677_8899_AABB_CCDD_EEFF);
    assert_eq!(Uuid::from_bytes(&bytes[..15]), Err(Error::InvalidInput));
}

#[test]
fn uuid_hex_text() {
    let uuid = Uuid(0x0123_4567_89AB_CDEF_0123_4567_89AB_CDEF);
    assert_eq!(uuid.hex(), "0123456789ABCDEF0123456789ABCDEF");
    assert_eq!(Uuid::from_hex("0123456789abcdef0123456789ABCDEF"), Ok(uuid));
    assert_eq!(Uuid::from_hex("0123"), Err(Error::InvalidInput));
    assert_eq!(Uuid::from_hex("zz23456789abcdef0123456789ABCDEF"), Err(Error::InvalidInput));
}

#[test]
fn firmware_needs_a_header() {
    let version = Version { major: 2, minor: 964, patch: 0 };
    assert_eq!(Firmware::new(vec![0u8; 95], version), Err(Error::InvalidInput));
    let firmware = Firmware::new(vec![0u8; 96], version).unwrap();
    assert_eq!(firmware.version(), version);
    assert_eq!(firmware.len(), 96);
    assert!(!firmware.is_empty());
}

#[test]
fn firmware_hash_check() {
    let mut content = b"abc".to_vec();
    content.resize(96, 0);
    let firmware = Firmware::new(content.clone(), Version { major: 1, minor: 0, patch: 0 }).unwrap();
    // the digest as the sha2 crate computes it, in lower-case hex
    let good = hex_sha256(&content);
    assert_eq!(firmware.verify_hexhash(&good), Ok(()));
    assert_eq!(firmware.verify_hexhash(&good.to_uppercase()), Err(Error::InvalidInput));
    assert_eq!(firmware.verify_hexhash("00"), Err(Error::InvalidInput));
}

fn hex_sha256(data: &[u8]) -> String {
    hex::encode(sha2::Sha256::digest(data))
}
