use bpm_core::archive_url::ArchiveUrl;
use bpm_core::package::{Package, PackageBuilder};
use bpm_core::package_status::PackageStatus;
use bpm_core::signatures::{derive_verifying_key, sign_package, verify_package};
use sha2::{Digest, Sha256};

fn sample_hash() -> Vec<u8> {
    let mut hasher = Sha256::new();
    hasher.update("foo");
    hasher.finalize().to_vec()
}

fn create_package_without_sig(maintainer: &Vec<u8>) -> Package {
    let mut builder = Package::builder();
    builder.set_name(&"foo".to_string());
    builder.set_version(&"1.2.3".to_string());
    builder.set_status(&PackageStatus::Fine);
    builder.set_maintainer(maintainer);
    let url = ArchiveUrl::parse(
        &"https://archive.archlinux.org/packages/f/foo/foo-1.2.3-1-x86_64.pkg.tar.zst".to_string(),
    )
    .unwrap();
    builder.set_archive_url(&url);
    builder.set_integrity(&"SHA256".to_string(), &sample_hash());
    builder.build()
}

fn create_package_with_sig() -> Package {
    let signing_key = vec![7u8; 32];
    let maintainer = derive_verifying_key(&signing_key);
    let unsigned = create_package_without_sig(&maintainer);
    let sig = sign_package(&unsigned, &signing_key);
    let mut builder = PackageBuilder::from_package(&unsigned);
    builder.set_signature(&sig);
    builder.build()
}

#[test]
fn test_verify_package() {
    let package = create_package_with_sig();

    let verified_package = verify_package(&package);

    assert_eq!(verified_package.is_some(), true);
}

#[test]
fn test_should_not_verify_package() {
    let base_package = create_package_with_sig();

    // Sign with another key than the one in the package's maintainer field.
    let other_key = vec![9u8; 32];

    let unknown_sig = sign_package(&base_package, &other_key);
    let mut builder = PackageBuilder::from_package(&base_package);
    builder.set_signature(&unknown_sig);
    let forged_package = builder.build();

    let verified_package = verify_package(&forged_package);

    assert_eq!(verified_package.is_none(), true);
}

#[test]
fn test_digest_is_32_bytes() {
    let package = create_package_with_sig();
    assert_eq!(package.compute_data_integrity().len(), 32);
}

#[test]
fn test_tampered_name_fails_verification() {
    let package = create_package_with_sig();

    let mut builder = PackageBuilder::from_package(&package);
    builder.set_name(&"bar".to_string());
    let tampered = builder.build();

    assert!(verify_package(&tampered).is_none());
}

#[test]
fn test_signature_is_deterministic() {
    let signing_key = vec![7u8; 32];
    let maintainer = derive_verifying_key(&signing_key);
    let unsigned = create_package_without_sig(&maintainer);

    let sig_one = sign_package(&unsigned, &signing_key);
    let sig_two = sign_package(&unsigned, &signing_key);

    assert_eq!(sig_one, sig_two);
    assert_eq!(sig_one.len(), 64);
}

#[test]
fn test_verify_package_without_signature_is_none() {
    let signing_key = vec![7u8; 32];
    let maintainer = derive_verifying_key(&signing_key);
    let unsigned = create_package_without_sig(&maintainer);

    assert!(verify_package(&unsigned).is_none());
}
