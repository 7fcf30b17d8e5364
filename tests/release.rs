use solo2::firmware::github::{is_complete_download, AssetSpec, Release};

fn asset(name: &str, len: usize) -> AssetSpec {
    AssetSpec { name: name.to_string(), url: format!("https://example.invalid/{}", name), len }
}

fn release() -> Release {
    Release {
        tag: "2.964.0".to_string(),
        assets: vec![
            asset("solo2-firmware-2.964.0.sha2", 80),
            asset("solo2-firmware-2.964.0.sb2", 300000),
            asset("solo2-firmware-2.963.0.sb2", 1),
        ],
    }
}

#[test]
fn asset_names_follow_the_tag() {
    assert_eq!(release().asset_name("sb2"), "solo2-firmware-2.964.0.sb2");
}

#[test]
fn image_and_digest_assets() {
    let release = release();
    assert_eq!(release.image_asset().unwrap().len, 300000);
    assert_eq!(release.digest_asset().unwrap().len, 80);
    assert!(release.find_asset("solo2-firmware-2.965.0.sb2").is_none());
    let empty = Release { tag: "1".to_string(), assets: vec![] };
    assert!(empty.image_asset().is_none());
}

#[test]
fn truncated_downloads_are_detected() {
    let a = asset("x", 3);
    assert!(is_complete_download(&a, &[1, 2, 3]));
    assert!(!is_complete_download(&a, &[1, 2]));
}
