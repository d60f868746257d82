use nyarix::errors::PackageError;
use nyarix::package::{validate_layout, PackageMember, NYP_FORMAT_VERSION};

#[test]
fn manifest_is_the_only_required_member() {
    assert!(PackageMember::Manifest.required());
    assert!(!PackageMember::Payload.required());
    assert!(!PackageMember::Assets.required());
    assert!(!PackageMember::Signatures.required());
}

#[test]
fn member_paths_match_the_spec() {
    assert_eq!(PackageMember::Manifest.path(), "manifest.toml");
    assert_eq!(PackageMember::Payload.path(), "payload/");
    assert_eq!(PackageMember::Assets.path(), "assets/");
    assert_eq!(PackageMember::Signatures.path(), "signatures/");
}

#[test]
fn validate_layout_accepts_manifest_only() {
    assert!(validate_layout(&["manifest.toml"]).is_ok());
}

#[test]
fn validate_layout_accepts_a_full_archive() {
    assert!(validate_layout(&["manifest.toml", "payload/", "assets/", "signatures/",]).is_ok());
}

#[test]
fn validate_layout_rejects_a_missing_manifest() {
    let err = validate_layout(&["payload/", "assets/"]).unwrap_err();
    assert!(matches!(
        err,
        PackageError::MissingMember { path } if path == "manifest.toml"
    ));
}

#[test]
fn validate_layout_rejects_an_empty_archive() {
    assert!(validate_layout::<&str>(&[]).is_err());
}

#[test]
fn format_version_is_a_plain_integer() {
    assert_eq!(NYP_FORMAT_VERSION, 1);
}
