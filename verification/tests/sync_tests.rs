use bpm_core::archive_url::ArchiveUrl;
use bpm_core::errors::BlockchainError;
use bpm_core::package::{Package, PackageBuilder};
use bpm_core::package_status::PackageStatus;
use bpm_core::repositories::BlockchainsRepository;
use bpm_core::services::{BlockchainClientState, BlockchainsService, PackagesService};
use bpm_core::signatures::{derive_verifying_key, sign_package};
use bpm_core::documents::BlockchainDocumentBuilder;
use bpm_core::wire::encode_wire;
use sha2::{Digest, Sha256};

fn sample_hash() -> Vec<u8> {
    let mut hasher = Sha256::new();
    hasher.update("foo");
    hasher.finalize().to_vec()
}

fn make_package(name: &str, version: &str, status: PackageStatus, signing_key: &Vec<u8>) -> Package {
    let maintainer = derive_verifying_key(signing_key);
    let mut builder = Package::builder();
    builder.set_name(&name.to_string());
    builder.set_version(&version.to_string());
    builder.set_status(&status);
    builder.set_maintainer(&maintainer);
    let url = ArchiveUrl::parse(&"https://example.com/f/foo-1.2.3.pkg".to_string()).unwrap();
    builder.set_archive_url(&url);
    builder.set_integrity(&"SHA256".to_string(), &sample_hash());
    let unsigned = builder.build();
    let sig = sign_package(&unsigned, signing_key);
    let mut signed_builder = PackageBuilder::from_package(&unsigned);
    signed_builder.set_signature(&sig);
    signed_builder.build()
}

fn make_service() -> BlockchainsService {
    let clients = vec![BlockchainClientState { label: "hedera".to_string(), last_sync: 0 }];
    let mut service =
        BlockchainsService::new(clients, BlockchainsRepository::new(), PackagesService::new());
    service.init_blockchains();
    service.set_client(0);
    service
}

#[test]
fn test_get_clients() {
    let service = make_service();

    let clients = service.get_clients();

    assert_eq!(clients.len(), 1);
    assert_eq!(clients[0].label, "hedera");
}

#[test]
fn test_should_get_label() {
    let service = make_service();
    let client = service.get_selected_client().unwrap();

    assert_eq!(client.label, "hedera");
}

#[test]
fn test_should_set_last_sync() {
    let mut service = make_service();

    let expected_last_sync = 123;
    let messages: Vec<Result<Vec<u8>, BlockchainError>> = Vec::new();
    service.update(&messages, expected_last_sync).unwrap();

    let current_last_sync = service.get_selected_client().unwrap().last_sync;
    assert_eq!(current_last_sync, expected_last_sync);
}

#[test]
fn test_init_blockchains() {
    let mut service = make_service();

    // One ledger row exists after initialization.
    let mut blockchains_docs_count = service.read_ledgers().len();
    assert_eq!(blockchains_docs_count, 1);

    // Initializing again does not add it twice.
    service.init_blockchains();
    blockchains_docs_count = service.read_ledgers().len();
    assert_eq!(blockchains_docs_count, 1);
}

#[test]
fn test_update_blockchain() {
    let mut service = make_service();

    let signing_key = vec![7u8; 32];
    let expected_package = make_package("foo", "1.2.3", PackageStatus::Fine, &signing_key);
    let frame = encode_wire(&expected_package).unwrap();

    let messages = vec![Ok(frame.clone())];
    let out = service.update(&messages, 10).unwrap();
    assert_eq!(out.len(), 1);
    assert_eq!(out[0], expected_package);

    // Only one row exists now.
    let packages = service.find_package(&"foo".to_string(), &"1.2.3".to_string()).unwrap();
    assert_eq!(packages.len(), 1);

    // Running the same pass again leaves one row: reprocessing is safe.
    let out_two = service.update(&messages, 11).unwrap();
    assert_eq!(out_two.len(), 1);
    let packages_again = service.find_package(&"foo".to_string(), &"1.2.3".to_string()).unwrap();
    assert_eq!(packages_again.len(), 1);
}

#[test]
fn test_update_blockchain_error() {
    let mut service = make_service();

    let messages: Vec<Result<Vec<u8>, BlockchainError>> =
        vec![Err(BlockchainError::NoPackagesData)];
    let res = service.update(&messages, 10);

    assert_eq!(res.unwrap_err(), BlockchainError::NoPackagesData);
}

#[test]
fn test_should_find_package_by_release() {
    let mut service = make_service();

    let signing_key = vec![7u8; 32];
    let package = make_package("foo", "1.2.3", PackageStatus::Fine, &signing_key);
    let frame = encode_wire(&package).unwrap();

    service.update(&vec![Ok(frame)], 10).unwrap();

    let found_packages = service.find_package(&package.name, &package.version).unwrap();

    assert_eq!(package, found_packages[0]);
}

#[test]
fn test_submit_package() {
    let service = make_service();

    let signing_key = vec![7u8; 32];
    let package = make_package("foo", "1.2.3", PackageStatus::Fine, &signing_key);

    let frame = service.submit_package(&package).unwrap();
    assert_eq!(frame, encode_wire(&package).unwrap());
}

#[test]
fn test_should_get_packages() {
    let mut service = make_service();

    let signing_key = vec![7u8; 32];
    let expected_package = make_package("foo", "1.2.3", PackageStatus::Fine, &signing_key);
    let frame = encode_wire(&expected_package).unwrap();

    let out = service.update(&vec![Ok(frame)], 10).unwrap();

    assert_eq!(out.len(), 1);
    assert_eq!(out[0], expected_package);
}

#[test]
fn test_should_skip_not_parseable_packages() {
    let mut service = make_service();

    let signing_key = vec![7u8; 32];
    let expected_package = make_package("foo", "1.2.3", PackageStatus::Fine, &signing_key);
    let frame = encode_wire(&expected_package).unwrap();

    let messages = vec![Ok(Vec::from("foobar".as_bytes())), Ok(frame)];
    let out = service.update(&messages, 10).unwrap();

    assert_eq!(out.len(), 1);
    assert_eq!(out[0], expected_package);
}

#[test]
fn test_should_skip_forged_packages() {
    let mut service = make_service();

    let signing_key = vec![7u8; 32];
    let base = make_package("foo", "1.2.3", PackageStatus::Fine, &signing_key);

    // Keep the original signature but change the name: the signature now
    // covers the wrong digest.
    let mut forged_builder = PackageBuilder::from_package(&base);
    forged_builder.set_name(&"baz".to_string());
    let forged_package = forged_builder.build();

    let expected_package = base;

    let messages = vec![
        Ok(encode_wire(&forged_package).unwrap()),
        Ok(encode_wire(&expected_package).unwrap()),
    ];
    let out = service.update(&messages, 10).unwrap();

    assert_eq!(out.len(), 1);
    assert_eq!(out[0], expected_package);

    // The store holds only the legitimate package.
    let found = service.find_package(&"foo".to_string(), &"1.2.3".to_string()).unwrap();
    assert_eq!(found.len(), 1);
    let forged_found = service.find_package(&"baz".to_string(), &"1.2.3".to_string()).unwrap();
    assert_eq!(forged_found.len(), 0);
}

#[test]
fn test_should_write_package() {
    let service = make_service();

    let signing_key = vec![7u8; 32];
    let expected_package = make_package("foo", "1.2.3", PackageStatus::Fine, &signing_key);

    let written_bytes = service.submit_package(&expected_package).unwrap();

    let actual_written_package = PackageBuilder::from_rlp(&written_bytes).unwrap().build();

    assert_eq!(expected_package, actual_written_package);
}

#[test]
fn test_empty_subscription_is_clean() {
    let mut service = make_service();

    let messages: Vec<Result<Vec<u8>, BlockchainError>> = Vec::new();
    let out = service.update(&messages, 42).unwrap();

    assert_eq!(out.len(), 0);
    let found = service.find_package(&"foo".to_string(), &"1.2.3".to_string()).unwrap();
    assert_eq!(found.len(), 0);
    // Only the watermark moved.
    assert_eq!(service.get_selected_client().unwrap().last_sync, 42);
}

#[test]
fn test_watermark_never_goes_backwards() {
    let mut service = make_service();

    let messages: Vec<Result<Vec<u8>, BlockchainError>> = Vec::new();
    service.update(&messages, 100).unwrap();
    assert_eq!(service.get_selected_client().unwrap().last_sync, 100);

    // A pass with an earlier clock leaves the watermark where it was.
    service.update(&messages, 50).unwrap();
    assert_eq!(service.get_selected_client().unwrap().last_sync, 100);

    service.update(&messages, 200).unwrap();
    assert_eq!(service.get_selected_client().unwrap().last_sync, 200);
}

#[test]
fn test_failed_pass_leaves_watermark() {
    let mut service = make_service();

    let messages: Vec<Result<Vec<u8>, BlockchainError>> =
        vec![Err(BlockchainError::ConnectionFailure)];
    let res = service.update(&messages, 77);

    assert_eq!(res.unwrap_err(), BlockchainError::ConnectionFailure);
    assert_eq!(service.get_selected_client().unwrap().last_sync, 0);
}

#[test]
fn test_status_mutation_last_write_wins() {
    let mut service = make_service();

    let signing_key = vec![7u8; 32];
    let fine = make_package("foo", "1.2.3", PackageStatus::Fine, &signing_key);
    let outdated = make_package("foo", "1.2.3", PackageStatus::Outdated, &signing_key);

    let messages = vec![
        Ok(encode_wire(&fine).unwrap()),
        Ok(encode_wire(&outdated).unwrap()),
    ];
    service.update(&messages, 10).unwrap();

    let found = service.find_package(&"foo".to_string(), &"1.2.3".to_string()).unwrap();
    assert_eq!(found.len(), 1);
    assert_eq!(found[0].status, PackageStatus::Outdated);
}

#[test]
fn test_multiple_maintainers_same_release() {
    let mut service = make_service();

    let key_one = vec![7u8; 32];
    let key_two = vec![9u8; 32];
    let p = make_package("foo", "1.2.3", PackageStatus::Fine, &key_one);
    let q = make_package("foo", "1.2.3", PackageStatus::Fine, &key_two);

    let messages = vec![Ok(encode_wire(&p).unwrap()), Ok(encode_wire(&q).unwrap())];
    service.update(&messages, 10).unwrap();

    let found = service.find_package(&"foo".to_string(), &"1.2.3".to_string()).unwrap();
    assert_eq!(found.len(), 2);
}

#[test]
fn test_resumable_sync_reprocesses_cleanly() {
    let signing_key = vec![7u8; 32];
    let mut frames: Vec<Result<Vec<u8>, BlockchainError>> = Vec::new();
    for i in 0..10 {
        let p = make_package(&format!("pkg{}", i), "1.0.0", PackageStatus::Fine, &signing_key);
        frames.push(Ok(encode_wire(&p).unwrap()));
    }

    // A pass that saw only the first five frames, then the full stream.
    let mut interrupted = make_service();
    let first_half: Vec<Result<Vec<u8>, BlockchainError>> = frames[0..5].to_vec();
    interrupted.update(&first_half, 10).unwrap();
    interrupted.update(&frames, 20).unwrap();

    // A single uninterrupted pass.
    let mut single = make_service();
    single.update(&frames, 20).unwrap();

    for i in 0..10 {
        let name = format!("pkg{}", i);
        let a = interrupted.find_package(&name, &"1.0.0".to_string()).unwrap();
        let b = single.find_package(&name, &"1.0.0".to_string()).unwrap();
        assert_eq!(a, b);
        assert_eq!(a.len(), 1);
    }
}

#[test]
fn test_init_blockchains_loads_stored_watermark() {
    let mut repo = BlockchainsRepository::new();
    let mut builder = BlockchainDocumentBuilder::default();
    builder.set_label(&"hedera".to_string());
    builder.set_last_synchronization(&"1704067200".to_string());
    let doc = builder.build();
    repo.create(&doc);

    let clients = vec![
        BlockchainClientState { label: "hedera".to_string(), last_sync: 0 },
        BlockchainClientState { label: "iota".to_string(), last_sync: 7 },
    ];
    let mut service = BlockchainsService::new(clients, repo, PackagesService::new());
    service.init_blockchains();

    // The stored watermark was loaded into the configured client.
    assert_eq!(service.get_clients()[0].last_sync, 1704067200);
    // The ledger seen for the first time kept its client untouched and
    // got a fresh zero-watermark row.
    assert_eq!(service.get_clients()[1].last_sync, 7);
    let ledgers = service.read_ledgers();
    assert_eq!(ledgers.len(), 2);
    assert_eq!(ledgers[0].label, "hedera");
    assert_eq!(ledgers[0].last_synchronization, "1704067200");
    assert_eq!(ledgers[1].label, "iota");
    assert_eq!(ledgers[1].last_synchronization, "0");
}
