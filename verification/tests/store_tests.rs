use bpm_core::archive_url::ArchiveUrl;
use bpm_core::documents::{BlockchainDocumentBuilder, PackageDocumentBuilder};
use bpm_core::package::{Package, PackageBuilder};
use bpm_core::package_status::PackageStatus;
use bpm_core::repositories::{BlockchainsRepository, PackagesRepository};
use bpm_core::signatures::{derive_verifying_key, sign_package};
use sha2::{Digest, Sha256};

fn sample_hash() -> Vec<u8> {
    let mut hasher = Sha256::new();
    hasher.update("foo");
    hasher.finalize().to_vec()
}

fn create_package_with_sig() -> Package {
    let signing_key = vec![7u8; 32];
    let maintainer = derive_verifying_key(&signing_key);
    let mut builder = Package::builder();
    builder.set_name(&"foo".to_string());
    builder.set_version(&"1.2.3".to_string());
    builder.set_status(&PackageStatus::Fine);
    builder.set_maintainer(&maintainer);
    let url = ArchiveUrl::parse(
        &"https://archive.archlinux.org/packages/f/foo/foo-1.2.3-1-x86_64.pkg.tar.zst".to_string(),
    )
    .unwrap();
    builder.set_archive_url(&url);
    builder.set_integrity(&"SHA256".to_string(), &sample_hash());
    let unsigned = builder.build();
    let sig = sign_package(&unsigned, &signing_key);
    let mut signed_builder = PackageBuilder::from_package(&unsigned);
    signed_builder.set_signature(&sig);
    signed_builder.build()
}

#[test]
fn test_create_package_entry() {
    let package = create_package_with_sig();

    let mut packages_repo = PackagesRepository::new();

    let expected_package_doc =
        PackageDocumentBuilder::from_package(&package, &"hedera".to_string()).build();

    packages_repo.create(&expected_package_doc);

    let expected_package_doc_key = packages_repo.get_composite_key(&expected_package_doc);

    let actual_package_doc = packages_repo.read_by_key(&expected_package_doc_key).unwrap();

    assert_eq!(actual_package_doc, expected_package_doc);
}

#[test]
fn test_package_not_found_by_key() {
    let package = create_package_with_sig();

    let packages_repo = PackagesRepository::new();

    // Do not insert it in the store.
    let package_doc =
        PackageDocumentBuilder::from_package(&package, &"hedera".to_string()).build();

    let key = packages_repo.get_composite_key(&package_doc);

    let package_doc_opt = packages_repo.read_by_key(&key);

    assert_eq!(package_doc_opt.is_none(), true);
}

#[test]
fn test_read_by_release_entry() {
    let package = create_package_with_sig();

    let mut packages_repo = PackagesRepository::new();

    let expected_package_doc =
        PackageDocumentBuilder::from_package(&package, &"hedera".to_string()).build();

    packages_repo.create(&expected_package_doc);

    let packages_docs =
        packages_repo.read_by_release(&package.name, &package.version, &"hedera".to_string());

    assert_eq!(packages_docs[0], expected_package_doc);
}

#[test]
fn test_read_by_maintainer_entry() {
    let package = create_package_with_sig();

    let mut packages_repo = PackagesRepository::new();

    let expected_package_doc =
        PackageDocumentBuilder::from_package(&package, &"hedera".to_string()).build();

    packages_repo.create(&expected_package_doc);

    let packages_docs = packages_repo
        .read_by_maintainer(&expected_package_doc.maintainer, &"hedera".to_string());

    assert_eq!(packages_docs[0], expected_package_doc);
}

#[test]
fn test_read_all_packages_entries() {
    let package = create_package_with_sig();

    let mut packages_repo = PackagesRepository::new();

    let expected_package_doc_one =
        PackageDocumentBuilder::from_package(&package, &"hedera".to_string()).build();

    let expected_package_doc_two_mock = "bar".to_string();
    let mut builder = PackageDocumentBuilder::from_package(&package, &"hedera".to_string());
    builder.set_name(&expected_package_doc_two_mock);
    let expected_package_doc_two = builder.build();

    packages_repo.create(&expected_package_doc_one);
    packages_repo.create(&expected_package_doc_two);

    let expected_packages_docs = vec![expected_package_doc_one, expected_package_doc_two];

    let packages_docs = packages_repo.read_all();

    assert_eq!(packages_docs, expected_packages_docs);
}

#[test]
fn test_update_package_entry() {
    let package = create_package_with_sig();

    let mut packages_repo = PackagesRepository::new();

    let package_doc_mock =
        PackageDocumentBuilder::from_package(&package, &"hedera".to_string()).build();

    packages_repo.create(&package_doc_mock);

    let package_doc_mock_key = packages_repo.get_composite_key(&package_doc_mock);

    let expected_status = PackageStatus::Outdated;
    let mut builder = PackageDocumentBuilder::from_document(&package_doc_mock).unwrap();
    builder.set_status(&expected_status);
    let expected_package_doc = builder.build();

    packages_repo.update(&package_doc_mock_key, &expected_package_doc);

    let expected_package_doc_key = packages_repo.get_composite_key(&expected_package_doc);

    let actual_package_doc = packages_repo.read_by_key(&expected_package_doc_key).unwrap();

    assert_eq!(actual_package_doc.status, i32::from(expected_status.to_byte()));
}

#[test]
fn test_should_exist_by_composite_key() {
    let package = create_package_with_sig();

    let mut packages_repo = PackagesRepository::new();

    let package_doc =
        PackageDocumentBuilder::from_package(&package, &"hedera".to_string()).build();

    packages_repo.create(&package_doc);

    let expected_package_doc_key = packages_repo.get_composite_key(&package_doc);

    let exists = packages_repo.exists_by_key(&expected_package_doc_key);

    assert_eq!(exists, true);
}

#[test]
fn test_should_not_exist_by_composite_key() {
    let package = create_package_with_sig();

    let packages_repo = PackagesRepository::new();

    // Do not insert the document.
    let package_doc =
        PackageDocumentBuilder::from_package(&package, &"hedera".to_string()).build();

    let expected_package_doc_key = packages_repo.get_composite_key(&package_doc);

    let exists = packages_repo.exists_by_key(&expected_package_doc_key);

    assert_eq!(exists, false);
}

#[test]
fn test_upsert_twice_leaves_one_row() {
    let package = create_package_with_sig();

    let mut packages_repo = PackagesRepository::new();

    let package_doc =
        PackageDocumentBuilder::from_package(&package, &"hedera".to_string()).build();

    packages_repo.upsert(&package_doc);
    packages_repo.upsert(&package_doc);

    let all = packages_repo.read_all();
    assert_eq!(all.len(), 1);
    assert_eq!(all[0], package_doc);
}

#[test]
fn test_create_blockchain_entry() {
    let expected_blockchain_label = "hedera".to_string();
    let expected_sync_time = "0".to_string();

    let mut builder = BlockchainDocumentBuilder::default();
    builder.set_label(&expected_blockchain_label);
    builder.set_last_synchronization(&expected_sync_time);
    let expected_blockchain_doc = builder.build();

    let mut blockchain_repo = BlockchainsRepository::new();

    blockchain_repo.create(&expected_blockchain_doc);

    let actual_blockchain_doc = blockchain_repo
        .read_by_key(&expected_blockchain_doc.label)
        .unwrap();

    assert_eq!(actual_blockchain_doc, expected_blockchain_doc);
}

#[test]
fn test_read_all_entries() {
    let mut blockchain_repo = BlockchainsRepository::new();

    let blockchain_label_one_mock = "hedera".to_string();
    let sync_time_one_mock = "0".to_string();

    let mut builder = BlockchainDocumentBuilder::default();
    builder.set_label(&blockchain_label_one_mock);
    builder.set_last_synchronization(&sync_time_one_mock);
    let expected_blockchain_doc_one = builder.build();

    blockchain_repo.create(&expected_blockchain_doc_one);

    let blockchain_label_two_mock = "iota".to_string();
    let mut builder_two = BlockchainDocumentBuilder::from_document(&expected_blockchain_doc_one);
    builder_two.set_label(&blockchain_label_two_mock);
    let expected_blockchain_doc_two = builder_two.build();

    blockchain_repo.create(&expected_blockchain_doc_two);

    let expected_blockchains = vec![expected_blockchain_doc_one, expected_blockchain_doc_two];

    let blockchains_docs = blockchain_repo.read_all();

    assert_eq!(blockchains_docs, expected_blockchains);
}

#[test]
fn test_read_by_key_wrong_key() {
    let blockchain_label_mock = "foo".to_string();

    let blockchain_repo = BlockchainsRepository::new();

    let blockchain_doc_option = blockchain_repo.read_by_key(&blockchain_label_mock);

    assert_eq!(blockchain_doc_option.is_none(), true);
}

#[test]
fn test_update_blockchain_entry() {
    let expected_sync_time = "123".to_string();

    let mock_blockchain_label = "foo".to_string();
    let mock_sync_time = "0".to_string();

    let mut builder = BlockchainDocumentBuilder::default();
    builder.set_label(&mock_blockchain_label);
    builder.set_last_synchronization(&mock_sync_time);
    let mock_blockchain_doc = builder.build();

    let mut blockchain_repo = BlockchainsRepository::new();

    blockchain_repo.create(&mock_blockchain_doc);

    let mut updated_builder = BlockchainDocumentBuilder::from_document(&mock_blockchain_doc);
    updated_builder.set_last_synchronization(&expected_sync_time);
    let updated_blockchain_doc = updated_builder.build();

    blockchain_repo.update(&mock_blockchain_label, &updated_blockchain_doc);

    let actual_blockchain_doc = blockchain_repo
        .read_by_key(&mock_blockchain_doc.label)
        .unwrap();

    assert_eq!(actual_blockchain_doc, updated_blockchain_doc);
}

#[test]
fn test_exists_by_key_entry() {
    let blockchain_label_mock = "hedera".to_string();
    let sync_time_mock = "0".to_string();

    let mut builder = BlockchainDocumentBuilder::default();
    builder.set_label(&blockchain_label_mock);
    builder.set_last_synchronization(&sync_time_mock);
    let expected_blockchain_doc = builder.build();

    let mut blockchain_repo = BlockchainsRepository::new();

    blockchain_repo.create(&expected_blockchain_doc);

    let blockchain_doc_exists = blockchain_repo.exists_by_key(&expected_blockchain_doc.label);

    assert_eq!(blockchain_doc_exists, true);
}

#[test]
fn test_does_not_exist_by_key_entry() {
    let blockchain_label_mock = "foobar".to_string();

    let blockchain_repo = BlockchainsRepository::new();

    let blockchain_doc_exists = blockchain_repo.exists_by_key(&blockchain_label_mock);

    assert_eq!(blockchain_doc_exists, false);
}
