use bpm_core::documents::{
    BlockchainDocument, BlockchainDocumentBuilder, PackageDocumentBuilder,
    PackageIntegrityDocumentBuilder,
};
use bpm_core::archive_url::ArchiveUrl;
use bpm_core::package::{Package, PackageBuilder};
use bpm_core::package_status::PackageStatus;
use bpm_core::signatures::{derive_verifying_key, sign_package};
use sha2::{Digest, Sha256};

fn sample_hash() -> Vec<u8> {
    let mut hasher = Sha256::new();
    hasher.update("foo");
    hasher.finalize().to_vec()
}

fn sample_url() -> ArchiveUrl {
    ArchiveUrl::parse(
        &"https://archive.archlinux.org/packages/f/foo/foo-1.2.3-1-x86_64.pkg.tar.zst".to_string(),
    )
    .unwrap()
}

fn create_package_with_sig() -> Package {
    let signing_key = vec![7u8; 32];
    let maintainer = derive_verifying_key(&signing_key);
    let mut builder = Package::builder();
    builder.set_name(&"foo".to_string());
    builder.set_version(&"1.2.3".to_string());
    builder.set_status(&PackageStatus::Fine);
    builder.set_maintainer(&maintainer);
    builder.set_archive_url(&sample_url());
    builder.set_integrity(&"SHA256".to_string(), &sample_hash());
    let unsigned = builder.build();
    let sig = sign_package(&unsigned, &signing_key);
    let mut signed_builder = PackageBuilder::from_package(&unsigned);
    signed_builder.set_signature(&sig);
    signed_builder.build()
}

#[test]
fn test_should_return_builder() {
    let builder = BlockchainDocument::builder();

    assert_eq!(builder.label, None);
    assert_eq!(builder.last_synchronization, None);
}

#[test]
fn test_blockchain_build() {
    let mut builder = BlockchainDocumentBuilder::default();

    let expected_label = "hedera";
    let expected_last_synchronization = "1704067200";

    let doc = builder
        .set_label(&expected_label.to_string())
        .set_last_synchronization(&expected_last_synchronization.to_string())
        .build();

    assert_eq!(doc.label, expected_label);
    assert_eq!(doc.last_synchronization, expected_last_synchronization);
}

#[test]
fn test_blockchain_reset() {
    let mut builder = BlockchainDocumentBuilder::default();

    let expected_label = "hedera";
    let expected_last_synchronization = "1704067200";

    let doc = builder
        .set_label(&expected_label.to_string())
        .set_last_synchronization(&expected_last_synchronization.to_string())
        .reset();

    assert_eq!(doc.label, None);
    assert_eq!(doc.last_synchronization, None);
}

#[test]
fn test_blockchain_build_from_document() {
    let mut builder = BlockchainDocumentBuilder::default();

    let label_mock = "hedera";
    let last_sync_mock = "1704067200";

    let doc = builder
        .set_label(&label_mock.to_string())
        .set_last_synchronization(&last_sync_mock.to_string())
        .build();

    let new_doc = BlockchainDocumentBuilder::from_document(&doc).build();

    assert_eq!(new_doc.label, doc.label);
    assert_eq!(new_doc.last_synchronization, doc.last_synchronization);
}

#[test]
fn package_integrity_document_builder_test_package_integrity_build() {
    let mut builder = PackageIntegrityDocumentBuilder::default();

    let expected_algorithm = "SHA256";
    let expected_archive_hash = sample_hash();

    let doc = builder
        .set_algorithm(&expected_algorithm.to_string())
        .set_archive_hash(&expected_archive_hash)
        .build();

    assert_eq!(doc.algorithm, expected_algorithm);
    assert_eq!(doc.archive_hash, hex::encode(&expected_archive_hash));
}

#[test]
fn package_integrity_document_builder_test_package_integrity_reset() {
    let mut builder = PackageIntegrityDocumentBuilder::default();

    let expected_algorithm = "SHA256";
    let expected_archive_hash = sample_hash();

    let doc = builder
        .set_algorithm(&expected_algorithm.to_string())
        .set_archive_hash(&expected_archive_hash)
        .reset();

    assert_eq!(doc.algorithm, None);
    assert_eq!(doc.archive_hash, None);
}

#[test]
fn package_integrity_document_builder_test_package_integrity_build_from_package_integrity() {
    let expected_algorithm = "SHA256";
    let expected_archive_hash = sample_hash();

    let package = create_package_with_sig();
    let package_integrity = package.integrity;

    let mut builder = PackageIntegrityDocumentBuilder::from_package_integrity(&package_integrity);

    let doc = builder.build();
    assert_eq!(doc.algorithm, expected_algorithm);
    assert_eq!(doc.archive_hash, hex::encode(&expected_archive_hash));
}

#[test]
fn test_package_document_build() {
    let package = create_package_with_sig();

    let mut integrity_builder =
        PackageIntegrityDocumentBuilder::from_package_integrity(&package.integrity);
    let integrity_doc = integrity_builder.build();

    let mut doc_builder = PackageDocumentBuilder::default();
    let doc = doc_builder
        .set_name(&package.name)
        .set_version(&package.version)
        .set_status(&package.status)
        .set_maintainer(&package.maintainer)
        .set_archive_url(&package.archive_url)
        .set_blockchain(&"hedera".to_string())
        .set_integrity(&integrity_doc)
        .set_signature(package.sig.as_ref().unwrap())
        .build();

    assert_eq!(doc.name, package.name);
    assert_eq!(doc.version, package.version);
    assert_eq!(doc.status, 3);
    assert_eq!(doc.maintainer, hex::encode(&package.maintainer));
    assert_eq!(doc.archive_url, *package.archive_url.as_string());
    assert_eq!(doc.sig, hex::encode(package.sig.as_ref().unwrap()));
    assert_eq!(doc.blockchain_label, "hedera");
}

#[test]
fn test_package_build_from_package_doc() {
    let package = create_package_with_sig();

    let doc = PackageDocumentBuilder::from_package(&package, &"hedera".to_string()).build();

    let rebuilt = PackageBuilder::from_document(&doc).unwrap().build();

    assert_eq!(rebuilt.name, doc.name);
    assert_eq!(rebuilt.version, doc.version);
    assert_eq!(rebuilt.status, PackageStatus::try_from(doc.status as u8).unwrap());
    assert_eq!(hex::encode(&rebuilt.maintainer), doc.maintainer);
    assert_eq!(*rebuilt.archive_url.as_string(), doc.archive_url);
    assert_eq!(hex::encode(rebuilt.sig.as_ref().unwrap()), doc.sig);
    assert_eq!(rebuilt, package);
}
