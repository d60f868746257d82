use nyarix::errors::PackageError;
use nyarix::module_api::metadata::ModuleType;
use nyarix::module_api::versioning::ApiVersion;
use nyarix::package::archive::{unpack, PackageBuilder, PackageReader, SignatureStatus};
use nyarix::package::manifest::{PackageInfo, PackageManifest};
use nyarix::package::signing::{
    generate_keypair, sign, signable_bytes, verify, Signature, VerifyingKey, PUBLIC_KEY_MEMBER_PATH,
    SIGNATURE_MEMBER_PATH,
};
use nyarix::package::trust::{classify, TrustLevel, TrustStore};
use nyarix::versions::Version;

const MANIFEST: &str = r#"
[package]
name = "nyarix-transport-udp"
version = "0.1.0"
module_type = "transport"
api_version = "1.0"
author = "Nyarix"
description = "UDP transport"
"#;

fn udp_manifest() -> PackageManifest {
    PackageManifest::new(
        PackageInfo {
            name: "nyarix-transport-udp".to_string(),
            version: Version::new(0, 1, 0),
            module_type: ModuleType::Transport,
            api_version: ApiVersion::new(1, 0),
            author: "Nyarix".to_string(),
            description: "UDP transport".to_string(),
        },
        Vec::new(),
    )
}

fn open(data: &[u8]) -> PackageReader {
    let unpacked = unpack(data).unwrap();
    assert_eq!(unpacked.manifest_text, MANIFEST);
    PackageReader::from_parts(unpacked, udp_manifest())
}

fn entries() -> Vec<(String, Vec<u8>)> {
    vec![
        ("manifest.toml".to_string(), b"package data".to_vec()),
        ("payload/module.wasm".to_string(), b"fake wasm".to_vec()),
    ]
}

#[test]
fn builds_and_reopens_a_minimal_package() {
    let data = PackageBuilder::new().add_file("manifest.toml", MANIFEST.as_bytes()).build().unwrap();
    let reader = open(&data);
    assert_eq!(reader.manifest().package.name, "nyarix-transport-udp");
}

#[test]
fn reads_a_non_manifest_entry_on_demand() {
    let data = PackageBuilder::new()
        .add_file("manifest.toml", MANIFEST.as_bytes())
        .add_file("payload/module.wasm", b"fake wasm bytes")
        .build()
        .unwrap();
    let reader = open(&data);
    let payload = reader.read_entry("payload/module.wasm").unwrap().unwrap();
    assert_eq!(payload, b"fake wasm bytes");
}

#[test]
fn read_entry_returns_none_for_a_missing_path() {
    let data = PackageBuilder::new().add_file("manifest.toml", MANIFEST.as_bytes()).build().unwrap();
    let reader = open(&data);
    assert!(reader.read_entry("assets/missing.png").unwrap().is_none());
}

#[test]
fn open_rejects_an_archive_without_a_manifest() {
    let data = PackageBuilder::new().add_file("payload/module.wasm", b"fake wasm bytes").build().unwrap();
    let err = unpack(&data).unwrap_err();
    assert!(matches!(
        err,
        PackageError::MissingMember { path } if path == "manifest.toml"
    ));
}

#[test]
fn open_rejects_not_actually_zstd_compressed_data() {
    let err = unpack(b"not a zstd stream").unwrap_err();
    assert!(matches!(err, PackageError::Io { .. }));
}

#[test]
fn round_trips_multiple_files_in_insertion_order() {
    let data = PackageBuilder::new()
        .add_file("manifest.toml", MANIFEST.as_bytes())
        .add_file("assets/logo.png", b"pretend-png")
        .add_file("signatures/manifest.sig", b"pretend-signature")
        .build()
        .unwrap();
    let reader = open(&data);
    assert_eq!(reader.read_entry("assets/logo.png").unwrap().unwrap(), b"pretend-png");
    assert_eq!(reader.read_entry("signatures/manifest.sig").unwrap().unwrap(), b"pretend-signature");
    let listed: Vec<String> = reader.entries().unwrap().into_iter().map(|(path, _)| path).collect();
    assert_eq!(listed, vec!["manifest.toml", "assets/logo.png", "signatures/manifest.sig"]);
}

#[test]
fn a_signed_package_embeds_a_verifiable_signature_and_public_key() {
    let signing_key = generate_keypair();
    let data = PackageBuilder::new()
        .add_file("manifest.toml", MANIFEST.as_bytes())
        .add_file("payload/module.wasm", b"fake wasm")
        .sign(&signing_key)
        .build()
        .unwrap();
    let reader = open(&data);
    let signature_bytes = reader.read_entry(SIGNATURE_MEMBER_PATH).unwrap().unwrap();
    let public_key_bytes = reader.read_entry(PUBLIC_KEY_MEMBER_PATH).unwrap().unwrap();
    let signature = Signature::from_bytes(&signature_bytes.try_into().unwrap());
    let public_key = VerifyingKey::from_bytes(&public_key_bytes.try_into().unwrap()).unwrap();
    let manifest_bytes = reader.read_entry("manifest.toml").unwrap().unwrap();
    let payload_bytes = reader.read_entry("payload/module.wasm").unwrap().unwrap();
    let entries = vec![
        ("manifest.toml".to_string(), manifest_bytes),
        ("payload/module.wasm".to_string(), payload_bytes),
    ];
    assert!(verify(&entries, &signature, &public_key).is_ok());
}

#[test]
fn an_unsigned_package_reports_unsigned() {
    let data = PackageBuilder::new().add_file("manifest.toml", MANIFEST.as_bytes()).build().unwrap();
    let reader = open(&data);
    assert_eq!(reader.signature_status().unwrap(), SignatureStatus::Unsigned);
    assert!(reader.require_valid_signature().is_err());
}

#[test]
fn a_validly_signed_package_reports_verified() {
    let signing_key = generate_keypair();
    let data = PackageBuilder::new()
        .add_file("manifest.toml", MANIFEST.as_bytes())
        .add_file("payload/module.wasm", b"fake wasm")
        .sign(&signing_key)
        .build()
        .unwrap();
    let reader = open(&data);
    assert_eq!(reader.signature_status().unwrap(), SignatureStatus::Verified);
    assert!(reader.require_valid_signature().is_ok());
}

#[test]
fn a_package_signed_by_a_different_key_reports_invalid() {
    let signing_key = generate_keypair();
    let other_key = generate_keypair();
    let signature = sign(
        &[
            ("manifest.toml".to_string(), MANIFEST.as_bytes().to_vec()),
            ("payload/module.wasm".to_string(), b"fake wasm".to_vec()),
        ],
        &signing_key,
    );
    let data = PackageBuilder::new()
        .add_file("manifest.toml", MANIFEST.as_bytes())
        .add_file("payload/module.wasm", b"fake wasm")
        .add_file(SIGNATURE_MEMBER_PATH, &signature.to_bytes())
        .add_file(PUBLIC_KEY_MEMBER_PATH, &other_key.verifying_key().to_bytes())
        .build()
        .unwrap();
    let reader = open(&data);
    assert_eq!(reader.signature_status().unwrap(), SignatureStatus::Invalid);
    match reader.require_valid_signature() {
        Err(PackageError::SignatureFailure { package }) => assert_eq!(package, "nyarix-transport-udp"),
        other => panic!("expected SignatureFailure, got {other:?}"),
    }
}

#[test]
fn a_tampered_package_reports_invalid() {
    let signing_key = generate_keypair();
    let data = PackageBuilder::new()
        .add_file("manifest.toml", MANIFEST.as_bytes())
        .add_file("payload/module.wasm", b"original wasm")
        .sign(&signing_key)
        .build()
        .unwrap();
    let reader = open(&data);
    let signature_bytes = reader.read_entry(SIGNATURE_MEMBER_PATH).unwrap().unwrap();
    let public_key_bytes = reader.read_entry(PUBLIC_KEY_MEMBER_PATH).unwrap().unwrap();
    let tampered = PackageBuilder::new()
        .add_file("manifest.toml", MANIFEST.as_bytes())
        .add_file("payload/module.wasm", b"tampered wasm")
        .add_file(SIGNATURE_MEMBER_PATH, &signature_bytes)
        .add_file(PUBLIC_KEY_MEMBER_PATH, &public_key_bytes)
        .build()
        .unwrap();
    let reader = open(&tampered);
    assert_eq!(reader.signature_status().unwrap(), SignatureStatus::Invalid);
}

#[test]
fn a_valid_signature_verifies() {
    let key = generate_keypair();
    let entries = entries();
    let signature = sign(&entries, &key);
    assert!(verify(&entries, &signature, &key.verifying_key()).is_ok());
}

#[test]
fn a_signature_from_a_different_key_does_not_verify() {
    let key = generate_keypair();
    let other_key = generate_keypair();
    let entries = entries();
    let signature = sign(&entries, &key);
    assert!(verify(&entries, &signature, &other_key.verifying_key()).is_err());
}

#[test]
fn tampering_with_an_entry_invalidates_the_signature() {
    let key = generate_keypair();
    let entries = entries();
    let signature = sign(&entries, &key);
    let mut tampered = entries;
    tampered[0].1 = b"tampered data".to_vec();
    assert!(verify(&tampered, &signature, &key.verifying_key()).is_err());
}

#[test]
fn signable_bytes_is_independent_of_entry_order() {
    let a = entries();
    let mut b = entries();
    b.reverse();
    assert_ne!(a, b, "test setup should actually reorder entries");
    assert_eq!(signable_bytes(&a), signable_bytes(&b));
}

#[test]
fn signable_bytes_excludes_existing_signature_entries() {
    let base = entries();
    let mut with_signature = base.clone();
    with_signature.push((SIGNATURE_MEMBER_PATH.to_string(), b"some-signature".to_vec()));
    assert_eq!(signable_bytes(&base), signable_bytes(&with_signature));
}

#[test]
fn keypair_generation_produces_a_usable_verifying_key() {
    let key = generate_keypair();
    let message = b"hello";
    let signature = key.sign_bytes(message);
    assert!(key.verifying_key().verify_bytes(message, &signature));
}

fn build_signed(key: &nyarix::package::signing::SigningKey) -> Vec<u8> {
    PackageBuilder::new().add_file("manifest.toml", MANIFEST.as_bytes()).sign(key).build().unwrap()
}

#[test]
fn an_unsigned_package_is_unknown() {
    let data = PackageBuilder::new().add_file("manifest.toml", MANIFEST.as_bytes()).build().unwrap();
    let reader = open(&data);
    assert_eq!(classify(&reader, &TrustStore::new()).unwrap(), TrustLevel::Unknown);
}

#[test]
fn a_signed_package_from_an_unrecognized_key_is_unknown() {
    let key = generate_keypair();
    let reader = open(&build_signed(&key));
    assert_eq!(classify(&reader, &TrustStore::new()).unwrap(), TrustLevel::Unknown);
}

#[test]
fn a_signed_package_from_an_official_key_is_official() {
    let key = generate_keypair();
    let reader = open(&build_signed(&key));
    let mut store = TrustStore::new();
    store.trust(key.verifying_key(), TrustLevel::Official);
    assert_eq!(classify(&reader, &store).unwrap(), TrustLevel::Official);
}

#[test]
fn a_signed_package_from_a_community_key_is_community() {
    let key = generate_keypair();
    let reader = open(&build_signed(&key));
    let mut store = TrustStore::new();
    store.trust(key.verifying_key(), TrustLevel::Community);
    assert_eq!(classify(&reader, &store).unwrap(), TrustLevel::Community);
}

#[test]
fn a_package_signed_by_a_different_key_than_registered_is_unknown() {
    let signer = generate_keypair();
    let registered = generate_keypair();
    let reader = open(&build_signed(&signer));
    let mut store = TrustStore::new();
    store.trust(registered.verifying_key(), TrustLevel::Official);
    assert_eq!(classify(&reader, &store).unwrap(), TrustLevel::Unknown);
}

#[test]
fn re_registering_a_key_replaces_its_level() {
    let key = generate_keypair();
    let mut store = TrustStore::new();
    assert_eq!(store.level_for(&key.verifying_key()), None);
    store.trust(key.verifying_key(), TrustLevel::Community);
    store.trust(key.verifying_key(), TrustLevel::Official);
    assert_eq!(store.level_for(&key.verifying_key()), Some(TrustLevel::Official));
}
