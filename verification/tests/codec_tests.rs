use bpm_core::archive_url::ArchiveUrl;
use bpm_core::errors::CodecError;
use bpm_core::json::{decode_json_fields, encode_json_fields, JsonField, JsonValue};
use bpm_core::package::{Package, PackageBuilder};
use bpm_core::package_status::PackageStatus;
use bpm_core::signatures::{derive_verifying_key, sign_package};
use bpm_core::wire::{decode_wire, encode_wire, encode_wire_data};
use sha2::{Digest, Sha256};

fn sample_hash() -> Vec<u8> {
    let mut hasher = Sha256::new();
    hasher.update("foo");
    hasher.finalize().to_vec()
}

fn sample_url_text() -> String {
    "https://archive.archlinux.org/packages/f/foo/foo-1.2.3-1-x86_64.pkg.tar.zst".to_string()
}

fn create_package_without_sig(maintainer: &Vec<u8>) -> Package {
    let mut builder = Package::builder();
    builder.set_name(&"foo".to_string());
    builder.set_version(&"1.2.3".to_string());
    builder.set_status(&PackageStatus::Fine);
    builder.set_maintainer(maintainer);
    let url = ArchiveUrl::parse(&sample_url_text()).unwrap();
    builder.set_archive_url(&url);
    builder.set_integrity(&"SHA256".to_string(), &sample_hash());
    builder.build()
}

fn create_package_with_sig() -> Package {
    let signing_key = vec![7u8; 32];
    let maintainer = derive_verifying_key(&signing_key);
    let unsigned = create_package_without_sig(&maintainer);
    let sig = sign_package(&unsigned, &signing_key);
    let mut builder = PackageBuilder::from_package(&unsigned);
    builder.set_signature(&sig);
    builder.build()
}

/// The reference wire bytes, built with the rlp crate exactly as another
/// implementation would.
fn reference_wire_bytes(package: &Package) -> Vec<u8> {
    let mut integrity_stream = rlp::RlpStream::new();
    integrity_stream
        .begin_unbounded_list()
        .append(&package.integrity.algorithm)
        .append(&package.integrity.archive_hash);
    integrity_stream.finalize_unbounded_list();
    let encoded_integrity = integrity_stream.out().to_vec();

    let mut data_stream = rlp::RlpStream::new();
    let encoded_status = package.status.to_byte();
    data_stream
        .append(&package.name)
        .append(&package.version)
        .append(&encoded_status)
        .append(&package.maintainer.as_slice())
        .append(&package.archive_url.as_string().as_str())
        .append_list(&encoded_integrity);

    let mut stream = rlp::RlpStream::new();
    stream.begin_unbounded_list();
    stream.append_raw(data_stream.as_raw(), data_stream.len());
    stream.append(&package.sig.as_ref().unwrap().as_slice());
    stream.finalize_unbounded_list();
    stream.out().to_vec()
}

#[test]
fn test_package_rlp_encode_decode() {
    let package = create_package_with_sig();

    let encoded_package = encode_wire(&package).unwrap();

    let decoded_package = PackageBuilder::from_rlp(&encoded_package).unwrap().build();

    assert_eq!(decoded_package, package);
}

#[test]
fn test_package_build_from_rlp() {
    let package = create_package_with_sig();

    let encoded_package = encode_wire(&package).unwrap();

    let decoded_package = PackageBuilder::from_rlp(&encoded_package).unwrap().build();

    assert_eq!(decoded_package.name, package.name);
    assert_eq!(decoded_package.version, package.version);
    assert_eq!(decoded_package.status, package.status);
    assert_eq!(decoded_package.maintainer, package.maintainer);
    assert_eq!(decoded_package.archive_url, package.archive_url);
    assert_eq!(decoded_package.sig.unwrap(), package.sig.unwrap());
}

#[test]
fn test_wire_bytes_match_reference_encoder() {
    let package = create_package_with_sig();

    let ours = encode_wire(&package).unwrap();
    let reference = reference_wire_bytes(&package);

    assert_eq!(ours, reference);
}

#[test]
fn test_rlp_data_integrity() {
    let package = create_package_with_sig();

    let mut integrity_stream = rlp::RlpStream::new();
    integrity_stream
        .begin_unbounded_list()
        .append(&package.integrity.algorithm)
        .append(&package.integrity.archive_hash);
    integrity_stream.finalize_unbounded_list();
    let encoded_package_integrity = integrity_stream.out().to_vec();

    let mut stream = rlp::RlpStream::new();
    let encoded_status = package.status.to_byte();
    stream
        .append(&package.name)
        .append(&package.version)
        .append(&encoded_status)
        .append(&package.maintainer.as_slice())
        .append(&package.archive_url.as_string().as_str())
        .append_list(&encoded_package_integrity);

    assert_eq!(encode_wire_data(&package), stream.as_raw().to_vec());

    let mut hasher = Sha256::new();
    hasher.update(stream.as_raw().to_vec());
    let expected_hash = hasher.finalize().to_vec();

    let data_integrity = package.compute_data_integrity();

    assert_eq!(expected_hash, data_integrity);
}

#[test]
fn test_encode_wire_missing_signature() {
    let signing_key = vec![7u8; 32];
    let maintainer = derive_verifying_key(&signing_key);
    let package = create_package_without_sig(&maintainer);

    assert_eq!(encode_wire(&package).unwrap_err(), CodecError::MissingSignature);
}

#[test]
fn test_decode_wire_malformed() {
    let raw = vec![0x66u8, 0x6f, 0x6f];
    assert_eq!(decode_wire(&raw).unwrap_err(), CodecError::MalformedStructure);
}

#[test]
fn test_decode_wire_unknown_status() {
    let package = create_package_with_sig();
    let mut forged = PackageBuilder::from_package(&package).build();
    forged.status = PackageStatus::Fine;
    // Re-encode by hand with a status byte of 9.
    let mut integrity_stream = rlp::RlpStream::new();
    integrity_stream
        .begin_unbounded_list()
        .append(&forged.integrity.algorithm)
        .append(&forged.integrity.archive_hash);
    integrity_stream.finalize_unbounded_list();
    let encoded_integrity = integrity_stream.out().to_vec();
    let bad_status: u8 = 9;
    let mut data_stream = rlp::RlpStream::new();
    data_stream
        .append(&forged.name)
        .append(&forged.version)
        .append(&bad_status)
        .append(&forged.maintainer.as_slice())
        .append(&forged.archive_url.as_string().as_str())
        .append_list(&encoded_integrity);
    let mut stream = rlp::RlpStream::new();
    stream.begin_unbounded_list();
    stream.append_raw(data_stream.as_raw(), data_stream.len());
    stream.append(&forged.sig.as_ref().unwrap().as_slice());
    stream.finalize_unbounded_list();
    let raw = stream.out().to_vec();

    assert_eq!(decode_wire(&raw).unwrap_err(), CodecError::UnknownStatus);
}

#[test]
fn test_decode_wire_bad_key_length() {
    let package = create_package_with_sig();
    let short_key = vec![1u8; 16];
    let mut integrity_stream = rlp::RlpStream::new();
    integrity_stream
        .begin_unbounded_list()
        .append(&package.integrity.algorithm)
        .append(&package.integrity.archive_hash);
    integrity_stream.finalize_unbounded_list();
    let encoded_integrity = integrity_stream.out().to_vec();
    let status = package.status.to_byte();
    let mut data_stream = rlp::RlpStream::new();
    data_stream
        .append(&package.name)
        .append(&package.version)
        .append(&status)
        .append(&short_key.as_slice())
        .append(&package.archive_url.as_string().as_str())
        .append_list(&encoded_integrity);
    let mut stream = rlp::RlpStream::new();
    stream.begin_unbounded_list();
    stream.append_raw(data_stream.as_raw(), data_stream.len());
    stream.append(&package.sig.as_ref().unwrap().as_slice());
    stream.finalize_unbounded_list();
    let raw = stream.out().to_vec();

    assert_eq!(decode_wire(&raw).unwrap_err(), CodecError::BadKeyLength);
}

#[test]
fn test_decode_wire_bad_url() {
    let package = create_package_with_sig();
    let mut integrity_stream = rlp::RlpStream::new();
    integrity_stream
        .begin_unbounded_list()
        .append(&package.integrity.algorithm)
        .append(&package.integrity.archive_hash);
    integrity_stream.finalize_unbounded_list();
    let encoded_integrity = integrity_stream.out().to_vec();
    let status = package.status.to_byte();
    let mut data_stream = rlp::RlpStream::new();
    data_stream
        .append(&package.name)
        .append(&package.version)
        .append(&status)
        .append(&package.maintainer.as_slice())
        .append(&"not an absolute url")
        .append_list(&encoded_integrity);
    let mut stream = rlp::RlpStream::new();
    stream.begin_unbounded_list();
    stream.append_raw(data_stream.as_raw(), data_stream.len());
    stream.append(&package.sig.as_ref().unwrap().as_slice());
    stream.finalize_unbounded_list();
    let raw = stream.out().to_vec();

    assert_eq!(decode_wire(&raw).unwrap_err(), CodecError::BadUrl);
}

#[test]
fn test_package_serialization() {
    let package = create_package_with_sig();

    let json_fields = encode_json_fields(&package).unwrap();

    let decoded_package = decode_json_fields(&json_fields).unwrap();

    assert_eq!(decoded_package, package);
}

#[test]
fn test_package_serialization_sig_missing() {
    let signing_key = vec![7u8; 32];
    let maintainer = derive_verifying_key(&signing_key);
    let package = create_package_without_sig(&maintainer);

    let json_encoded_package_result = encode_json_fields(&package);

    assert_eq!(
        json_encoded_package_result.unwrap_err(),
        CodecError::MissingSignature
    );
}

#[test]
fn test_json_fields_any_order() {
    let package = create_package_with_sig();

    let mut fields = encode_json_fields(&package).unwrap();
    fields.reverse();

    let decoded_package = decode_json_fields(&fields).unwrap();
    assert_eq!(decoded_package, package);
}

#[test]
fn test_json_duplicate_field_rejected() {
    let package = create_package_with_sig();

    let mut fields = encode_json_fields(&package).unwrap();
    fields.push(JsonField {
        key: "name".to_string(),
        value: JsonValue::Text("bar".to_string()),
    });

    assert_eq!(
        decode_json_fields(&fields).unwrap_err(),
        CodecError::DuplicateField
    );
}

#[test]
fn test_json_missing_signature_rejected() {
    let package = create_package_with_sig();

    let mut fields = encode_json_fields(&package).unwrap();
    fields.retain(|f| f.key != "sig");

    assert_eq!(
        decode_json_fields(&fields).unwrap_err(),
        CodecError::MissingSignature
    );
}

#[test]
fn test_json_text_round_trip_through_serde() {
    let package = create_package_with_sig();
    let fields = encode_json_fields(&package).unwrap();

    // Render the field list as JSON text and parse it back, as external
    // tooling would.
    let mut obj = serde_json::Map::new();
    for f in &fields {
        let v = match &f.value {
            JsonValue::Text(t) => serde_json::Value::String(t.clone()),
            JsonValue::Number(n) => serde_json::Value::Number((*n).into()),
            JsonValue::Bytes(b) => serde_json::Value::Array(
                b.iter().map(|x| serde_json::Value::Number((*x as u64).into())).collect(),
            ),
            JsonValue::Object(ms) => {
                let mut inner = serde_json::Map::new();
                for m in ms {
                    let lv = match &m.value {
                        bpm_core::json::JsonLeaf::Text(t) => serde_json::Value::String(t.clone()),
                        bpm_core::json::JsonLeaf::Number(n) => {
                            serde_json::Value::Number((*n).into())
                        }
                        bpm_core::json::JsonLeaf::Bytes(b) => serde_json::Value::Array(
                            b.iter()
                                .map(|x| serde_json::Value::Number((*x as u64).into()))
                                .collect(),
                        ),
                    };
                    inner.insert(m.key.clone(), lv);
                }
                serde_json::Value::Object(inner)
            }
        };
        obj.insert(f.key.clone(), v);
    }
    let text = serde_json::Value::Object(obj).to_string();

    let parsed: serde_json::Value = serde_json::from_str(&text).unwrap();
    let mut round_fields = Vec::new();
    for (k, v) in parsed.as_object().unwrap() {
        let value = match v {
            serde_json::Value::String(t) => JsonValue::Text(t.clone()),
            serde_json::Value::Number(n) => JsonValue::Number(n.as_u64().unwrap()),
            serde_json::Value::Array(xs) => JsonValue::Bytes(
                xs.iter().map(|x| x.as_u64().unwrap() as u8).collect(),
            ),
            serde_json::Value::Object(inner) => {
                let mut ms = Vec::new();
                for (ik, iv) in inner {
                    let leaf = match iv {
                        serde_json::Value::String(t) => {
                            bpm_core::json::JsonLeaf::Text(t.clone())
                        }
                        serde_json::Value::Array(xs) => bpm_core::json::JsonLeaf::Bytes(
                            xs.iter().map(|x| x.as_u64().unwrap() as u8).collect(),
                        ),
                        _ => panic!("unexpected integrity value"),
                    };
                    ms.push(bpm_core::json::JsonObjMember { key: ik.clone(), value: leaf });
                }
                JsonValue::Object(ms)
            }
            _ => panic!("unexpected field value"),
        };
        round_fields.push(JsonField { key: k.clone(), value });
    }

    let decoded_package = decode_json_fields(&round_fields).unwrap();
    assert_eq!(decoded_package, package);
}
