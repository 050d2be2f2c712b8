use bpm_core::archive_url::ArchiveUrl;
use bpm_core::documents::PackageDocumentBuilder;
use bpm_core::package::{Package, PackageBuilder};
use bpm_core::package_status::PackageStatus;
use bpm_core::services::PackagesService;
use bpm_core::signatures::{derive_verifying_key, sign_package};
use sha2::{Digest, Sha256};

fn sample_hash() -> Vec<u8> {
    let mut hasher = Sha256::new();
    hasher.update("foo");
    hasher.finalize().to_vec()
}

fn create_package_without_sig(maintainer: &Vec<u8>) -> Package {
    let mut builder = Package::builder();
    builder.set_name(&"foo".to_string());
    builder.set_version(&"1.2.3".to_string());
    builder.set_status(&PackageStatus::Fine);
    builder.set_maintainer(maintainer);
    let url = ArchiveUrl::parse(
        &"https://archive.archlinux.org/packages/f/foo/foo-1.2.3-1-x86_64.pkg.tar.zst".to_string(),
    )
    .unwrap();
    builder.set_archive_url(&url);
    builder.set_integrity(&"SHA256".to_string(), &sample_hash());
    builder.build()
}

fn create_package_with_key(signing_key: &Vec<u8>) -> Package {
    let maintainer = derive_verifying_key(signing_key);
    let unsigned = create_package_without_sig(&maintainer);
    let sig = sign_package(&unsigned, signing_key);
    let mut builder = PackageBuilder::from_package(&unsigned);
    builder.set_signature(&sig);
    builder.build()
}

#[test]
fn test_should_add_package() {
    let mut packages_service = PackagesService::new();

    let label = "MockBlockchain".to_string();
    let expected_package = create_package_with_key(&vec![7u8; 32]);

    packages_service.add(&expected_package, &label);

    let db_packages = packages_service.get_by_release(
        &expected_package.name,
        &expected_package.version,
        &label,
    );
    assert_eq!(expected_package, db_packages[0]);
}

#[test]
fn test_should_get_all_packages() {
    let mut packages_service = PackagesService::new();

    let label = "MockBlockchain".to_string();
    let package_one = create_package_with_key(&vec![7u8; 32]);
    packages_service.add(&package_one, &label);

    let package_two = create_package_with_key(&vec![9u8; 32]);
    packages_service.add(&package_two, &label);

    let db_packages = packages_service.get_all();

    assert_eq!(db_packages.len(), 2);
}

#[test]
fn test_should_get_package_by_maintainer() {
    let mut packages_service = PackagesService::new();

    let label = "MockBlockchain".to_string();
    let signing_key = vec![7u8; 32];
    let signed_package = create_package_with_key(&signing_key);

    packages_service.add(&signed_package, &label);

    let db_packages =
        packages_service.get_by_maintainer(&signed_package.maintainer, &label);

    assert_eq!(db_packages.len(), 1);
    assert_eq!(db_packages[0], signed_package);
}

#[test]
fn test_has_package_tracks_store() {
    let mut packages_service = PackagesService::new();

    let label = "hedera".to_string();
    let package = create_package_with_key(&vec![7u8; 32]);

    assert!(!packages_service.has_package(&package, &label));
    packages_service.add(&package, &label);
    assert!(packages_service.has_package(&package, &label));
    // The same release under another ledger is a different row.
    assert!(!packages_service.has_package(&package, &"iota".to_string()));
}

#[test]
fn test_update_package_replaces_row() {
    let mut packages_service = PackagesService::new();

    let label = "hedera".to_string();
    let signing_key = vec![7u8; 32];
    let fine = create_package_with_key(&signing_key);
    packages_service.add(&fine, &label);

    let maintainer = derive_verifying_key(&signing_key);
    let mut builder = PackageBuilder::from_package(&create_package_without_sig(&maintainer));
    builder.set_status(&PackageStatus::Outdated);
    let unsigned = builder.build();
    let sig = sign_package(&unsigned, &signing_key);
    let mut signed_builder = PackageBuilder::from_package(&unsigned);
    signed_builder.set_signature(&sig);
    let outdated = signed_builder.build();

    packages_service.update_package(&outdated, &label);

    let rows = packages_service.get_by_release(&outdated.name, &outdated.version, &label);
    assert_eq!(rows.len(), 1);
    assert_eq!(rows[0].status, PackageStatus::Outdated);
}

#[test]
fn test_from_document_rejects_corrupt_hex() {
    let package = create_package_with_key(&vec![7u8; 32]);
    let mut doc = PackageDocumentBuilder::from_package(&package, &"hedera".to_string()).build();
    doc.maintainer = "zz".to_string();

    assert!(PackageBuilder::from_document(&doc).is_err());
}
