use bpm_core::documents::PackageIntegrityDocumentBuilder;
use bpm_core::package_integrity::PackageIntegrityBuilder;
use sha2::{Digest, Sha256};

fn sample_hash() -> Vec<u8> {
    let mut hasher = Sha256::new();
    hasher.update("foo");
    hasher.finalize().to_vec()
}

#[test]
fn package_integrity_builder_test_package_integrity_build() {
    let expected_algorithm = "SHA256".to_string();
    let expected_archive_hash = sample_hash();

    let package_integrity = PackageIntegrityBuilder::default()
        .set_algorithm(&expected_algorithm)
        .set_archive_hash(&expected_archive_hash)
        .build();

    assert_eq!(package_integrity.algorithm, expected_algorithm);
    assert_eq!(package_integrity.archive_hash, expected_archive_hash);
}

#[test]
fn package_integrity_builder_test_package_integrity_reset() {
    let expected_algorithm = "SHA256".to_string();

    let mut builder = PackageIntegrityBuilder::default();
    let package_integrity = builder.set_algorithm(&expected_algorithm).reset();

    assert_eq!(package_integrity.algorithm, None);
    assert_eq!(package_integrity.archive_hash, None);
}

#[test]
fn package_integrity_builder_test_package_integrity_build_from_package_integrity() {
    let expected_algorithm = "SHA256".to_string();
    let expected_archive_hash = sample_hash();

    let package_integrity = PackageIntegrityBuilder::default()
        .set_algorithm(&expected_algorithm)
        .set_archive_hash(&expected_archive_hash)
        .build();

    assert_eq!(package_integrity.algorithm, expected_algorithm);
    assert_eq!(package_integrity.archive_hash, expected_archive_hash);

    let copied_package_integrity =
        PackageIntegrityBuilder::from_package_integrity(&package_integrity).build();
    assert_eq!(
        copied_package_integrity.algorithm,
        package_integrity.algorithm
    );
    assert_eq!(
        copied_package_integrity.archive_hash,
        package_integrity.archive_hash
    );
}

#[test]
fn test_package_integrity_build_from_package_integrity_doc() {
    let expected_algorithm = "SHA256";
    let expected_archive_hash = sample_hash();

    let mut doc_builder = PackageIntegrityDocumentBuilder::default();
    let doc = doc_builder
        .set_algorithm(&expected_algorithm.to_string())
        .set_archive_hash(&expected_archive_hash)
        .build();

    let package_integrity = PackageIntegrityBuilder::from_document(&doc).unwrap().build();

    assert_eq!(doc.algorithm, package_integrity.algorithm);
    assert_eq!(doc.archive_hash, hex::encode(package_integrity.archive_hash));
}

#[test]
fn test_package_integrity_build_from_rlp() {
    let expected_algorithm = "SHA256".to_string();
    let expected_archive_hash = sample_hash();

    let package_integrity = PackageIntegrityBuilder::default()
        .set_algorithm(&expected_algorithm)
        .set_archive_hash(&expected_archive_hash)
        .build();

    let encoded_package_integrity = bpm_core::wire::encode_integrity(&package_integrity);

    let decoded_package_integrity =
        PackageIntegrityBuilder::from_rlp(&encoded_package_integrity)
            .unwrap()
            .build();

    assert_eq!(
        decoded_package_integrity.algorithm,
        package_integrity.algorithm
    );
    assert_eq!(
        decoded_package_integrity.archive_hash,
        package_integrity.archive_hash
    );
}

#[test]
fn test_integrity_wire_bytes_match_reference_encoder() {
    let package_integrity = PackageIntegrityBuilder::default()
        .set_algorithm(&"SHA256".to_string())
        .set_archive_hash(&sample_hash())
        .build();

    let ours = bpm_core::wire::encode_integrity(&package_integrity);

    let mut stream = rlp::RlpStream::new();
    stream
        .begin_unbounded_list()
        .append(&package_integrity.algorithm)
        .append(&package_integrity.archive_hash);
    stream.finalize_unbounded_list();

    assert_eq!(ours, stream.out().to_vec());
}
