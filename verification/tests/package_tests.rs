use bpm_core::archive_url::ArchiveUrl;
use bpm_core::package::{Package, PackageBuilder};
use bpm_core::package_status::PackageStatus;
use bpm_core::signatures::{derive_verifying_key, sign_package};
use sha2::{Digest, Sha256};

fn sample_hash() -> Vec<u8> {
    let mut hasher = Sha256::new();
    hasher.update("foo");
    hasher.finalize().to_vec()
}

fn sample_url() -> ArchiveUrl {
    ArchiveUrl::parse(
        &"https://archive.archlinux.org/packages/f/foo/foo-1.2.3-1-x86_64.pkg.tar.zst".to_string(),
    )
    .unwrap()
}

fn create_package_without_sig(maintainer: &Vec<u8>) -> Package {
    let mut builder = Package::builder();
    builder.set_name(&"foo".to_string());
    builder.set_version(&"1.2.3".to_string());
    builder.set_status(&PackageStatus::Fine);
    builder.set_maintainer(maintainer);
    builder.set_archive_url(&sample_url());
    builder.set_integrity(&"SHA256".to_string(), &sample_hash());
    builder.build()
}

#[test]
fn test_try_from() {
    let mut expected_status = PackageStatus::NA;
    assert_eq!(PackageStatus::try_from(0 as u8).unwrap(), expected_status);

    expected_status = PackageStatus::Prohibited;
    assert_eq!(PackageStatus::try_from(1 as u8).unwrap(), expected_status);

    expected_status = PackageStatus::Outdated;
    assert_eq!(PackageStatus::try_from(2 as u8).unwrap(), expected_status);

    expected_status = PackageStatus::Fine;
    assert_eq!(PackageStatus::try_from(3 as u8).unwrap(), expected_status);

    expected_status = PackageStatus::Recommended;
    assert_eq!(PackageStatus::try_from(4 as u8).unwrap(), expected_status);

    expected_status = PackageStatus::HighlyRecommended;
    assert_eq!(PackageStatus::try_from(5 as u8).unwrap(), expected_status);
}

#[test]
fn test_try_from_rejects_high_bytes() {
    let wrong_status: u8 = 255;
    assert!(PackageStatus::try_from(wrong_status).is_err());
    assert_eq!(
        PackageStatus::try_from(6).unwrap_err(),
        bpm_core::errors::CodecError::UnknownStatus
    );
}

#[test]
fn test_package_build() {
    let mut builder = PackageBuilder::default();

    let expected_name = "foo".to_string();
    let expected_version = "1.2.3".to_string();
    let expected_status = PackageStatus::Fine;

    let signing_key = vec![7u8; 32];
    let expected_maintainer = derive_verifying_key(&signing_key);

    let expected_archive_url = sample_url();
    let expected_integrity_algorithm = "SHA256";
    let expected_archive_hash = sample_hash();

    builder.set_name(&expected_name);
    builder.set_version(&expected_version);
    builder.set_status(&expected_status);
    builder.set_maintainer(&expected_maintainer);
    builder.set_archive_url(&expected_archive_url);
    builder.set_integrity(&expected_integrity_algorithm.to_string(), &expected_archive_hash);
    let unsigned = builder.build();

    let expected_sig = sign_package(&unsigned, &signing_key);

    let mut signed_builder = PackageBuilder::from_package(&unsigned);
    signed_builder.set_signature(&expected_sig);
    let package = signed_builder.build();

    assert_eq!(package.name, expected_name);
    assert_eq!(package.version, expected_version);
    assert_eq!(package.status, expected_status);
    assert_eq!(package.maintainer, expected_maintainer);
    assert_eq!(package.archive_url, expected_archive_url);
    assert_eq!(package.sig.unwrap(), expected_sig);
}

#[test]
fn test_package_build_from_package() {
    let signing_key = vec![7u8; 32];
    let maintainer = derive_verifying_key(&signing_key);
    let unsigned = create_package_without_sig(&maintainer);
    let sig = sign_package(&unsigned, &signing_key);
    let mut signed_builder = PackageBuilder::from_package(&unsigned);
    signed_builder.set_signature(&sig);
    let package = signed_builder.build();

    let copied_package = PackageBuilder::from_package(&package).build();

    assert_eq!(copied_package.name, package.name);
    assert_eq!(copied_package.version, package.version);
    assert_eq!(copied_package.status, package.status);
    assert_eq!(copied_package.maintainer, package.maintainer);
    assert_eq!(copied_package.archive_url, package.archive_url);
    assert_eq!(copied_package.sig.unwrap(), package.sig.unwrap());
}

#[test]
fn test_package_reset() {
    let signing_key = vec![7u8; 32];
    let maintainer = derive_verifying_key(&signing_key);
    let unsigned = create_package_without_sig(&maintainer);
    let sig = sign_package(&unsigned, &signing_key);

    let mut builder = PackageBuilder::from_package(&unsigned);
    builder.set_signature(&sig);
    let _ = builder.build();

    assert_eq!(builder.name, None);
    assert_eq!(builder.version, None);
    assert_eq!(builder.status, None);
    assert_eq!(builder.maintainer, None);
    assert_eq!(builder.archive_url, None);
    assert_eq!(builder.sig, None);
}

#[test]
fn test_return_package_builder() {
    let package_builder = Package::builder();

    assert!(package_builder.name.is_none());
    assert!(package_builder.version.is_none());
    assert!(package_builder.status.is_none());
    assert!(package_builder.maintainer.is_none());
    assert!(package_builder.archive_url.is_none());
    assert!(package_builder.integrity.is_none());
    assert!(package_builder.sig.is_none());
}

#[test]
fn test_package_display() {
    let signing_key = vec![7u8; 32];
    let maintainer = derive_verifying_key(&signing_key);
    let unsigned = create_package_without_sig(&maintainer);
    let sig = sign_package(&unsigned, &signing_key);
    let mut builder = PackageBuilder::from_package(&unsigned);
    builder.set_signature(&sig);
    let package = builder.build();

    let expected_output = format!(
        "{}:{} ( Status : {}, Maintainer : {} )",
        package.name,
        package.version,
        "Fine",
        hex::encode_upper(&package.maintainer)
    );

    let package_display = package.display_string();

    assert_eq!(package_display, expected_output);
}

#[test]
fn test_status_display_names() {
    assert_eq!(PackageStatus::NA.display_string(), "NA");
    assert_eq!(PackageStatus::Prohibited.display_string(), "Prohibited");
    assert_eq!(PackageStatus::Outdated.display_string(), "Outdated");
    assert_eq!(PackageStatus::Fine.display_string(), "Fine");
    assert_eq!(PackageStatus::Recommended.display_string(), "Recommended");
    assert_eq!(
        PackageStatus::HighlyRecommended.display_string(),
        "Highly recommended"
    );
}
