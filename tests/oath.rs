use solo2::apps::oath::{
    calculate_payload, code_from_response, names_from_response, register_payload, Credential, Digest, Hotp,
    Instruction, Kind, Secret, Tag, Totp,
};
use sha1::Digest as _;
use solo2::error::{Error, ProtocolError};

#[test]
fn short_secret_is_padded() {
    // "JBSWY3DP" is base32 for "Hello"
    let secret = Secret::from_base32("JBSWY3DP", Digest::Sha1).unwrap();
    let mut expected = b"Hello".to_vec();
    expected.resize(14, 0);
    assert_eq!(secret.as_bytes(), &expected[..]);
}

#[test]
fn long_secret_is_hashed() {
    let raw = vec![0x42u8; 65];
    let encoded = data_encoding::BASE32.encode(&raw);
    let secret = Secret::from_base32(&encoded, Digest::Sha1).unwrap();
    assert_eq!(secret.as_bytes(), &sha1::Sha1::digest(&raw)[..]);
    let secret = Secret::from_base32(&encoded, Digest::Sha256).unwrap();
    assert_eq!(secret.as_bytes().len(), 32);
    let exact = vec![0x42u8; 64];
    let secret = Secret::from_base32(&data_encoding::BASE32.encode(&exact), Digest::Sha1).unwrap();
    assert_eq!(secret.as_bytes(), &exact[..]);
}

#[test]
fn invalid_base32_is_refused() {
    assert_eq!(Secret::from_base32("not base32!", Digest::Sha1), Err(Error::InvalidInput));
}

#[test]
fn default_totp_credential() {
    let credential = Credential::default_totp("alice", "jbswy3dp").unwrap();
    assert_eq!(credential.label, "alice");
    assert_eq!(credential.kind, Kind::Totp(Totp { period: 30 }));
    assert_eq!(credential.digits, 6);
    assert_eq!(credential.algorithm, Digest::Sha1);
    assert_eq!(credential.id(), "alice");
    let key = credential.key();
    assert_eq!(&key[..2], &[0x21, 6]);
    assert_eq!(&key[2..7], b"Hello");
    assert_eq!(key.len(), 2 + 14);
}

#[test]
fn credential_id_with_period_and_issuer() {
    let mut credential = Credential::default_totp("alice", "JBSWY3DP").unwrap();
    credential.issuer = Some("example".to_string());
    credential.kind = Kind::Totp(Totp { period: 60 });
    credential.algorithm = Digest::Sha256;
    credential.digits = 8;
    assert_eq!(credential.id(), "60/example:alice");
    assert_eq!(&credential.key()[..2], &[0x22, 8]);
}

#[test]
fn digest_names() {
    assert_eq!(Digest::from_name("sha1"), Ok(Digest::Sha1));
    assert_eq!(Digest::from_name("SHA256"), Ok(Digest::Sha256));
    assert_eq!(Digest::from_name("md5"), Err(Error::InvalidInput));
}

#[test]
fn tags_and_instructions() {
    assert_eq!(Tag::try_from_byte(0x7A), Ok(Tag::InitialCounter));
    assert!(Tag::try_from_byte(0x70).is_err());
    assert_eq!(Tag::Key.to_byte(), 0x73);
    assert_eq!(Instruction::Calculate.to_byte(), 0xA2);
}

#[test]
fn register_payload_records() {
    let credential = Credential::default_totp("alice", "JBSWY3DP").unwrap();
    let data = register_payload(&credential).unwrap();
    let key = credential.key();
    let mut expected = vec![0x71, 5];
    expected.extend_from_slice(b"alice");
    expected.extend_from_slice(&[0x73, key.len() as u8]);
    expected.extend_from_slice(&key);
    assert_eq!(data, expected);

    let mut hotp = credential.clone();
    hotp.kind = Kind::Hotp(Hotp { initial_counter: 0x0102_0304 });
    let data = register_payload(&hotp).unwrap();
    assert_eq!(&data[data.len() - 6..], &[0x7A, 4, 1, 2, 3, 4]);
}

#[test]
fn long_labels_use_long_length_forms() {
    let label = "x".repeat(200);
    let credential = Credential::default_totp(&label, "JBSWY3DP").unwrap();
    let data = register_payload(&credential).unwrap();
    assert_eq!(&data[..3], &[0x71, 0x81, 200]);
    let label = "y".repeat(300);
    let data = calculate_payload(&label, 0).unwrap();
    assert_eq!(&data[..4], &[0x71, 0x82, 0x01, 0x2C]);
}

#[test]
fn calculate_payload_records() {
    let data = calculate_payload("alice", 95).unwrap();
    let mut expected = vec![0x71, 5];
    expected.extend_from_slice(b"alice");
    expected.extend_from_slice(&[0x74, 8, 0, 0, 0, 0, 0, 0, 0, 3]);
    assert_eq!(data, expected);
}

#[test]
fn codes_are_truncated_and_padded() {
    assert_eq!(code_from_response(&[0x76, 5, 6, 0x12, 0x34, 0x56, 0x78]), Ok("419896".to_string()));
    assert_eq!(code_from_response(&[0x76, 5, 8, 0, 0, 0, 42]), Ok("00000042".to_string()));
    assert_eq!(code_from_response(&[0x76, 5, 6, 0x80, 0, 0, 7]), Ok("000007".to_string()));
    assert_eq!(
        code_from_response(&[0x76, 5, 6, 0, 0]),
        Err(Error::Protocol(ProtocolError::UnexpectedLength))
    );
    assert_eq!(code_from_response(&[0x76, 5, 10, 0, 0, 0, 1]), Err(Error::InvalidInput));
}

#[test]
fn name_lists() {
    let mut response = vec![0x72, 6, 0x21];
    response.extend_from_slice(b"alice");
    response.extend_from_slice(&[0x72, 4, 0x11]);
    response.extend_from_slice(b"bob");
    assert_eq!(names_from_response(&response), Ok(vec!["alice".to_string(), "bob".to_string()]));
    assert_eq!(names_from_response(&[]), Ok(vec![]));
    assert_eq!(names_from_response(&[0x71, 2, 0x21, b'a']), Err(Error::InvalidInput));
    assert_eq!(names_from_response(&[0x72, 3, 0x21, b'a']), Err(Error::InvalidInput));
    assert_eq!(names_from_response(&[0x72, 2, 0x21, 0xFF]), Err(Error::InvalidInput));
}
