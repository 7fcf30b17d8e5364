use solo2::pki::{authority_information_access, Authority, Certificate};

#[test]
fn urls() {
    assert_eq!(
        authority_information_access(Authority::R1),
        "http://i.s2pki.net/r1/"
    );
}

#[test]
fn authority_urls_are_lower_case() {
    assert_eq!(
        authority_information_access(Authority::B4),
        "http://i.s2pki.net/b4/"
    );
    assert_eq!(Authority::T2.name(), "T2");
}

#[test]
fn garbage_is_no_certificate() {
    assert!(Certificate::try_from_der(&[0x01, 0x02, 0x03]).is_err());
}

#[test]
fn authority_names_ignore_case() {
    assert_eq!(Authority::from_name("r1"), Ok(Authority::R1));
    assert_eq!(Authority::from_name("B4"), Ok(Authority::B4));
    assert_eq!(Authority::from_name("s3"), Ok(Authority::S3));
    assert!(Authority::from_name("T3").is_err());
    assert!(Authority::from_name("R11").is_err());
    assert!(Authority::from_name("").is_err());
}
