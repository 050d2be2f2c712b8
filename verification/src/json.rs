use vstd::prelude::*;

verus! {

use crate::archive_url::{ArchiveUrl, url_parse_of};
use crate::errors::CodecError;
use crate::package::{Package, PackageModel};
use crate::package_integrity::{PackageIntegrity, PackageIntegrityModel};
use crate::package_status::PackageStatus;

// ---------------------------------------------------------------------------
// The external JSON format, at the level of a tagged field list: a package
// is a map with lowercase keys whose values are text, numbers, byte
// arrays, and one nested map for the integrity record. Reading accepts
// the fields in any order and rejects duplicates with their own error;
// the text syntax itself is the business of whatever JSON library carries
// the fields.
// ---------------------------------------------------------------------------
/// Mathematical value of a [`JsonLeaf`].
pub ghost enum JsonLeafModel {
    Text(Seq<char>),
    Number(u64),
    Bytes(Seq<u8>),
}

/// A scalar JSON value inside the integrity map.
#[derive(Debug, PartialEq, Eq)]
pub enum JsonLeaf {
    Text(String),
    Number(u64),
    Bytes(Vec<u8>),
}

impl View for JsonLeaf {
    type V = JsonLeafModel;

    open spec fn view(&self) -> JsonLeafModel {
        match self {
            JsonLeaf::Text(t) => JsonLeafModel::Text(t@),
            JsonLeaf::Number(n) => JsonLeafModel::Number(*n),
            JsonLeaf::Bytes(b) => JsonLeafModel::Bytes(b@),
        }
    }
}

/// Mathematical value of a [`JsonObjMember`].
pub ghost struct JsonObjMemberModel {
    pub key: Seq<char>,
    pub value: JsonLeafModel,
}

/// One key-value pair of the nested integrity map.
#[derive(Debug, PartialEq, Eq)]
pub struct JsonObjMember {
    pub key: String,
    pub value: JsonLeaf,
}

impl View for JsonObjMember {
    type V = JsonObjMemberModel;

    open spec fn view(&self) -> JsonObjMemberModel {
        JsonObjMemberModel { key: self.key@, value: self.value@ }
    }
}

/// Mathematical value of a [`JsonValue`].
pub ghost enum JsonValueModel {
    Text(Seq<char>),
    Number(u64),
    Bytes(Seq<u8>),
    Object(Seq<JsonObjMemberModel>),
}

/// A JSON value of a top-level package field.
#[derive(Debug, PartialEq, Eq)]
pub enum JsonValue {
    Text(String),
    Number(u64),
    Bytes(Vec<u8>),
    Object(Vec<JsonObjMember>),
}

impl View for JsonValue {
    type V = JsonValueModel;

    open spec fn view(&self) -> JsonValueModel {
        match self {
            JsonValue::Text(t) => JsonValueModel::Text(t@),
            JsonValue::Number(n) => JsonValueModel::Number(*n),
            JsonValue::Bytes(b) => JsonValueModel::Bytes(b@),
            JsonValue::Object(ms) => JsonValueModel::Object(
                ms@.map_values(|m: JsonObjMember| m@),
            ),
        }
    }
}

/// Mathematical value of a [`JsonField`].
pub ghost struct JsonFieldModel {
    pub key: Seq<char>,
    pub value: JsonValueModel,
}

/// One key-value pair of the package map.
#[derive(Debug, PartialEq, Eq)]
pub struct JsonField {
    pub key: String,
    pub value: JsonValue,
}

impl View for JsonField {
    type V = JsonFieldModel;

    open spec fn view(&self) -> JsonFieldModel {
        JsonFieldModel { key: self.key@, value: self.value@ }
    }
}

/// The field list a signed package serializes to, in writing order.
pub open spec fn spec_json_fields_of(p: PackageModel) -> Seq<JsonFieldModel>
    recommends
        p.sig is Some,
{
    seq![
        JsonFieldModel { key: "name"@, value: JsonValueModel::Text(p.name) },
        JsonFieldModel { key: "version"@, value: JsonValueModel::Text(p.version) },
        JsonFieldModel {
            key: "status"@,
            value: JsonValueModel::Number(p.status.spec_byte() as u64),
        },
        JsonFieldModel { key: "maintainer"@, value: JsonValueModel::Bytes(p.maintainer) },
        JsonFieldModel { key: "archive_url"@, value: JsonValueModel::Text(p.archive_url) },
        JsonFieldModel {
            key: "integrity"@,
            value: JsonValueModel::Object(
                seq![
                    JsonObjMemberModel {
                        key: "algorithm"@,
                        value: JsonLeafModel::Text(p.integrity.algorithm),
                    },
                    JsonObjMemberModel {
                        key: "archive_hash"@,
                        value: JsonLeafModel::Bytes(p.integrity.archive_hash),
                    },
                ],
            ),
        },
        JsonFieldModel { key: "sig"@, value: JsonValueModel::Bytes(p.sig->Some_0) },
    ]
}

/// Serialize a package to its JSON field list. A package without a
/// signature is never serialized: the attempt fails with
/// `MissingSignature`.
pub fn encode_json_fields(package: &Package) -> (r: Result<Vec<JsonField>, CodecError>)
    ensures
        match r {
            Ok(fs) => package@.sig is Some && fs@.map_values(|f: JsonField| f@)
                == spec_json_fields_of(package@),
            Err(e) => package@.sig is None && e == CodecError::MissingSignature,
        },
{
    let sig = match &package.sig {
        Some(s) => s.clone(),
        None => {
            return Err(CodecError::MissingSignature);
        },
    };
    let mut integrity_members: Vec<JsonObjMember> = Vec::new();
    integrity_members.push(
        JsonObjMember {
            key: String::from_str("algorithm"),
            value: JsonLeaf::Text(package.integrity.algorithm.clone()),
        },
    );
    integrity_members.push(
        JsonObjMember {
            key: String::from_str("archive_hash"),
            value: JsonLeaf::Bytes(package.integrity.archive_hash.clone()),
        },
    );
    proof {
        assert(integrity_members@.map_values(|m: JsonObjMember| m@) =~= seq![
            JsonObjMemberModel {
                key: "algorithm"@,
                value: JsonLeafModel::Text(package@.integrity.algorithm),
            },
            JsonObjMemberModel {
                key: "archive_hash"@,
                value: JsonLeafModel::Bytes(package@.integrity.archive_hash),
            },
        ]);
    }
    let mut fields: Vec<JsonField> = Vec::new();
    fields.push(
        JsonField {
            key: String::from_str("name"),
            value: JsonValue::Text(package.name.clone()),
        },
    );
    fields.push(
        JsonField {
            key: String::from_str("version"),
            value: JsonValue::Text(package.version.clone()),
        },
    );
    fields.push(
        JsonField {
            key: String::from_str("status"),
            value: JsonValue::Number(package.status.to_byte() as u64),
        },
    );
    fields.push(
        JsonField {
            key: String::from_str("maintainer"),
            value: JsonValue::Bytes(package.maintainer.clone()),
        },
    );
    fields.push(
        JsonField {
            key: String::from_str("archive_url"),
            value: JsonValue::Text(package.archive_url.as_string().clone()),
        },
    );
    fields.push(
        JsonField { key: String::from_str("integrity"), value: JsonValue::Object(
            integrity_members,
        ) },
    );
    fields.push(JsonField { key: String::from_str("sig"), value: JsonValue::Bytes(sig) });
    proof {
        assert(fields@.map_values(|f: JsonField| f@) =~~= spec_json_fields_of(package@));
    }
    Ok(fields)
}

/// What reading one integrity member does to the partial record: fill a
/// slot, or fail on a duplicate, an unknown key, or a wrong shape.
pub open spec fn spec_apply_integrity_member(
    acc: (Option<Seq<char>>, Option<Seq<u8>>),
    m: JsonObjMemberModel,
) -> Result<(Option<Seq<char>>, Option<Seq<u8>>), CodecError> {
    if m.key == "algorithm"@ {
        match m.value {
            JsonLeafModel::Text(t) => if acc.0 is Some {
                Err(CodecError::DuplicateField)
            } else {
                Ok((Some(t), acc.1))
            },
            _ => Err(CodecError::MalformedStructure),
        }
    } else if m.key == "archive_hash"@ {
        match m.value {
            JsonLeafModel::Bytes(b) => if acc.1 is Some {
                Err(CodecError::DuplicateField)
            } else {
                Ok((acc.0, Some(b)))
            },
            _ => Err(CodecError::MalformedStructure),
        }
    } else {
        Err(CodecError::MalformedStructure)
    }
}

/// Fold the integrity members over the partial record.
pub open spec fn spec_fold_integrity(
    ms: Seq<JsonObjMemberModel>,
    acc: (Option<Seq<char>>, Option<Seq<u8>>),
) -> Result<(Option<Seq<char>>, Option<Seq<u8>>), CodecError>
    decreases ms.len(),
{
    if ms.len() == 0 {
        Ok(acc)
    } else {
        match spec_apply_integrity_member(acc, ms[0]) {
            Ok(acc2) => spec_fold_integrity(ms.drop_first(), acc2),
            Err(e) => Err(e),
        }
    }
}

/// Read the nested integrity map: both members, in any order, exactly
/// once each.
pub open spec fn spec_integrity_from_members(ms: Seq<JsonObjMemberModel>) -> Result<
    PackageIntegrityModel,
    CodecError,
> {
    match spec_fold_integrity(ms, (None, None)) {
        Ok(acc) => match acc {
            (Some(algorithm), Some(archive_hash)) => Ok(
                PackageIntegrityModel { algorithm, archive_hash },
            ),
            _ => Err(CodecError::MalformedStructure),
        },
        Err(e) => Err(e),
    }
}

/// The partial package built while reading the field list.
pub ghost struct JsonAcc {
    pub name: Option<Seq<char>>,
    pub version: Option<Seq<char>>,
    pub status: Option<PackageStatus>,
    pub maintainer: Option<Seq<u8>>,
    pub archive_url: Option<Seq<char>>,
    pub integrity: Option<PackageIntegrityModel>,
    pub sig: Option<Seq<u8>>,
}

/// The empty partial package.
pub open spec fn spec_json_acc_empty() -> JsonAcc {
    JsonAcc {
        name: None,
        version: None,
        status: None,
        maintainer: None,
        archive_url: None,
        integrity: None,
        sig: None,
    }
}

/// What reading one field does to the partial package: fill a slot after
/// checking its value, or fail. Every check fails with its own error:
/// a second occurrence of a key with `DuplicateField`, a status byte
/// outside the range with `UnknownStatus`, a key of the wrong length with
/// `BadKeyLength`, text that is no absolute URL with `BadUrl`, a
/// signature of the wrong length with `BadSigLength`, and every unknown
/// key or wrongly shaped value with `MalformedStructure`.
pub open spec fn spec_apply_json_field(acc: JsonAcc, f: JsonFieldModel) -> Result<
    JsonAcc,
    CodecError,
> {
    if f.key == "name"@ {
        match f.value {
            JsonValueModel::Text(t) => if acc.name is Some {
                Err(CodecError::DuplicateField)
            } else if t.len() == 0 {
                Err(CodecError::MalformedStructure)
            } else {
                Ok(JsonAcc { name: Some(t), ..acc })
            },
            _ => Err(CodecError::MalformedStructure),
        }
    } else if f.key == "version"@ {
        match f.value {
            JsonValueModel::Text(t) => if acc.version is Some {
                Err(CodecError::DuplicateField)
            } else if t.len() == 0 {
                Err(CodecError::MalformedStructure)
            } else {
                Ok(JsonAcc { version: Some(t), ..acc })
            },
            _ => Err(CodecError::MalformedStructure),
        }
    } else if f.key == "status"@ {
        match f.value {
            JsonValueModel::Number(n) => if acc.status is Some {
                Err(CodecError::DuplicateField)
            } else if n > 255 {
                Err(CodecError::MalformedStructure)
            } else {
                match PackageStatus::spec_from_byte(n as u8) {
                    Some(st) => Ok(JsonAcc { status: Some(st), ..acc }),
                    None => Err(CodecError::UnknownStatus),
                }
            },
            _ => Err(CodecError::MalformedStructure),
        }
    } else if f.key == "maintainer"@ {
        match f.value {
            JsonValueModel::Bytes(b) => if acc.maintainer is Some {
                Err(CodecError::DuplicateField)
            } else if b.len() != 32 {
                Err(CodecError::BadKeyLength)
            } else {
                Ok(JsonAcc { maintainer: Some(b), ..acc })
            },
            _ => Err(CodecError::MalformedStructure),
        }
    } else if f.key == "archive_url"@ {
        match f.value {
            JsonValueModel::Text(t) => if acc.archive_url is Some {
                Err(CodecError::DuplicateField)
            } else {
                match url_parse_of(t) {
                    Some(u) => Ok(JsonAcc { archive_url: Some(u), ..acc }),
                    None => Err(CodecError::BadUrl),
                }
            },
            _ => Err(CodecError::MalformedStructure),
        }
    } else if f.key == "integrity"@ {
        match f.value {
            JsonValueModel::Object(ms) => if acc.integrity is Some {
                Err(CodecError::DuplicateField)
            } else {
                match spec_integrity_from_members(ms) {
                    Ok(integrity) => Ok(JsonAcc { integrity: Some(integrity), ..acc }),
                    Err(e) => Err(e),
                }
            },
            _ => Err(CodecError::MalformedStructure),
        }
    } else if f.key == "sig"@ {
        match f.value {
            JsonValueModel::Bytes(b) => if acc.sig is Some {
                Err(CodecError::DuplicateField)
            } else if b.len() != 64 {
                Err(CodecError::BadSigLength)
            } else {
                Ok(JsonAcc { sig: Some(b), ..acc })
            },
            _ => Err(CodecError::MalformedStructure),
        }
    } else {
        Err(CodecError::MalformedStructure)
    }
}

/// Fold the fields over the partial package.
pub open spec fn spec_fold_json(fs: Seq<JsonFieldModel>, acc: JsonAcc) -> Result<
    JsonAcc,
    CodecError,
>
    decreases fs.len(),
{
    if fs.len() == 0 {
        Ok(acc)
    } else {
        match spec_apply_json_field(acc, fs[0]) {
            Ok(acc2) => spec_fold_json(fs.drop_first(), acc2),
            Err(e) => Err(e),
        }
    }
}

/// What reading a field list yields: the package, or the first error.
/// A missing signature has its own error; any other missing field is a
/// malformed package.
pub open spec fn spec_package_from_json(fs: Seq<JsonFieldModel>) -> Result<
    PackageModel,
    CodecError,
> {
    match spec_fold_json(fs, spec_json_acc_empty()) {
        Ok(acc) => if acc.sig is None {
            Err(CodecError::MissingSignature)
        } else if acc.name is None || acc.version is None || acc.status is None || acc.maintainer
            is None || acc.archive_url is None || acc.integrity is None {
            Err(CodecError::MalformedStructure)
        } else {
            Ok(
                PackageModel {
                    name: acc.name->Some_0,
                    version: acc.version->Some_0,
                    status: acc.status->Some_0,
                    maintainer: acc.maintainer->Some_0,
                    archive_url: acc.archive_url->Some_0,
                    integrity: acc.integrity->Some_0,
                    sig: Some(acc.sig->Some_0),
                },
            )
        },
        Err(e) => Err(e),
    }
}

/// The value a possibly absent text field stands for.
pub open spec fn spec_opt_text(o: Option<String>) -> Option<Seq<char>> {
    match o {
        Some(s) => Some(s@),
        None => None,
    }
}

/// The value a possibly absent byte field stands for.
pub open spec fn spec_opt_bytes(o: Option<Vec<u8>>) -> Option<Seq<u8>> {
    match o {
        Some(b) => Some(b@),
        None => None,
    }
}

/// One step of [`spec_fold_integrity`] at the end of a prefix.
proof fn lemma_fold_integrity_snoc(
    ms: Seq<JsonObjMemberModel>,
    i: int,
    acc0: (Option<Seq<char>>, Option<Seq<u8>>),
)
    requires
        0 <= i < ms.len(),
    ensures
        spec_fold_integrity(ms.take(i + 1), acc0) == (match spec_fold_integrity(ms.take(i), acc0) {
            Ok(a) => spec_apply_integrity_member(a, ms[i]),
            Err(e) => Err(e),
        }),
    decreases i,
{
    if i == 0 {
        assert(ms.take(1) =~= seq![ms[0]]);
        assert(ms.take(0) =~= Seq::<JsonObjMemberModel>::empty());
        assert(ms.take(1).drop_first() =~= Seq::<JsonObjMemberModel>::empty());
        match spec_apply_integrity_member(acc0, ms[0]) {
            Ok(a1) => {
                assert(spec_fold_integrity(Seq::<JsonObjMemberModel>::empty(), a1) == Ok::<
                    (Option<Seq<char>>, Option<Seq<u8>>),
                    CodecError,
                >(a1));
            },
            Err(_) => {},
        }
    } else {
        assert(ms.take(i + 1)[0] == ms[0]);
        assert(ms.take(i + 1).drop_first() =~= ms.drop_first().take(i));
        assert(ms.take(i)[0] == ms[0]);
        assert(ms.take(i).drop_first() =~= ms.drop_first().take(i - 1));
        assert(ms.drop_first()[i - 1] == ms[i]);
        match spec_apply_integrity_member(acc0, ms[0]) {
            Ok(a1) => {
                lemma_fold_integrity_snoc(ms.drop_first(), i - 1, a1);
            },
            Err(_) => {},
        }
    }
}

/// One step of [`spec_fold_json`] at the end of a prefix.
proof fn lemma_fold_json_snoc(fs: Seq<JsonFieldModel>, i: int, acc0: JsonAcc)
    requires
        0 <= i < fs.len(),
    ensures
        spec_fold_json(fs.take(i + 1), acc0) == (match spec_fold_json(fs.take(i), acc0) {
            Ok(a) => spec_apply_json_field(a, fs[i]),
            Err(e) => Err(e),
        }),
    decreases i,
{
    if i == 0 {
        assert(fs.take(1) =~= seq![fs[0]]);
        assert(fs.take(0) =~= Seq::<JsonFieldModel>::empty());
        assert(fs.take(1).drop_first() =~= Seq::<JsonFieldModel>::empty());
        match spec_apply_json_field(acc0, fs[0]) {
            Ok(a1) => {
                assert(spec_fold_json(Seq::<JsonFieldModel>::empty(), a1) == Ok::<
                    JsonAcc,
                    CodecError,
                >(a1));
            },
            Err(_) => {},
        }
    } else {
        assert(fs.take(i + 1)[0] == fs[0]);
        assert(fs.take(i + 1).drop_first() =~= fs.drop_first().take(i));
        assert(fs.take(i)[0] == fs[0]);
        assert(fs.take(i).drop_first() =~= fs.drop_first().take(i - 1));
        assert(fs.drop_first()[i - 1] == fs[i]);
        match spec_apply_json_field(acc0, fs[0]) {
            Ok(a1) => {
                lemma_fold_json_snoc(fs.drop_first(), i - 1, a1);
            },
            Err(_) => {},
        }
    }
}

/// A fold that fails on a prefix fails the same way on the whole list.
proof fn lemma_fold_integrity_prefix_err(
    ms: Seq<JsonObjMemberModel>,
    j: int,
    acc0: (Option<Seq<char>>, Option<Seq<u8>>),
)
    requires
        0 <= j <= ms.len(),
        spec_fold_integrity(ms.take(j), acc0) is Err,
    ensures
        spec_fold_integrity(ms, acc0) == spec_fold_integrity(ms.take(j), acc0),
    decreases ms.len(),
{
    assert(j != 0) by {
        if j == 0 {
            assert(ms.take(0).len() == 0);
        }
    }
    assert(ms.take(j)[0] == ms[0]);
    match spec_apply_integrity_member(acc0, ms[0]) {
        Ok(a1) => {
            assert(ms.take(j).drop_first() =~= ms.drop_first().take(j - 1));
            lemma_fold_integrity_prefix_err(ms.drop_first(), j - 1, a1);
        },
        Err(_) => {},
    }
}

/// A fold that fails on a prefix fails the same way on the whole list.
proof fn lemma_fold_json_prefix_err(fs: Seq<JsonFieldModel>, j: int, acc0: JsonAcc)
    requires
        0 <= j <= fs.len(),
        spec_fold_json(fs.take(j), acc0) is Err,
    ensures
        spec_fold_json(fs, acc0) == spec_fold_json(fs.take(j), acc0),
    decreases fs.len(),
{
    assert(j != 0) by {
        if j == 0 {
            assert(fs.take(0).len() == 0);
        }
    }
    assert(fs.take(j)[0] == fs[0]);
    match spec_apply_json_field(acc0, fs[0]) {
        Ok(a1) => {
            assert(fs.take(j).drop_first() =~= fs.drop_first().take(j - 1));
            lemma_fold_json_prefix_err(fs.drop_first(), j - 1, a1);
        },
        Err(_) => {},
    }
}

/// Read the nested integrity map.
fn decode_integrity_members(ms: &Vec<JsonObjMember>) -> (r: Result<PackageIntegrity, CodecError>)
    ensures
        match r {
            Ok(integrity) => spec_integrity_from_members(
                ms@.map_values(|m: JsonObjMember| m@),
            ) == Ok::<PackageIntegrityModel, CodecError>(integrity@),
            Err(e) => spec_integrity_from_members(ms@.map_values(|m: JsonObjMember| m@)) == Err::<
                PackageIntegrityModel,
                CodecError,
            >(e),
        },
{
    let ghost gms = ms@.map_values(|m: JsonObjMember| m@);
    let algorithm_key = String::from_str("algorithm");
    let archive_hash_key = String::from_str("archive_hash");
    let mut algorithm: Option<String> = None;
    let mut archive_hash: Option<Vec<u8>> = None;
    let mut i: usize = 0;
    proof {
        assert(gms.take(0) =~= Seq::<JsonObjMemberModel>::empty());
    }
    while i < ms.len()
        invariant
            i <= ms@.len(),
            gms == ms@.map_values(|m: JsonObjMember| m@),
            gms.len() == ms@.len(),
            algorithm_key@ == "algorithm"@,
            archive_hash_key@ == "archive_hash"@,
            spec_fold_integrity(gms.take(i as int), (None, None)) == Ok::<
                (Option<Seq<char>>, Option<Seq<u8>>),
                CodecError,
            >((spec_opt_text(algorithm), spec_opt_bytes(archive_hash))),
        decreases ms@.len() - i,
    {
        proof {
            lemma_fold_integrity_snoc(gms, i as int, (None, None));
            if spec_fold_integrity(gms.take(i as int + 1), (None, None)) is Err {
                lemma_fold_integrity_prefix_err(gms, i as int + 1, (None, None));
            }
        }
        let m = &ms[i];
        if m.key.eq(&algorithm_key) {
            match &m.value {
                JsonLeaf::Text(t) => {
                    if algorithm.is_some() {
                        return Err(CodecError::DuplicateField);
                    }
                    algorithm = Some(t.clone());
                },
                _ => {
                    return Err(CodecError::MalformedStructure);
                },
            }
        } else if m.key.eq(&archive_hash_key) {
            match &m.value {
                JsonLeaf::Bytes(b) => {
                    if archive_hash.is_some() {
                        return Err(CodecError::DuplicateField);
                    }
                    archive_hash = Some(b.clone());
                },
                _ => {
                    return Err(CodecError::MalformedStructure);
                },
            }
        } else {
            return Err(CodecError::MalformedStructure);
        }
        i += 1;
    }
    proof {
        assert(gms.take(gms.len() as int) =~= gms);
    }
    let algorithm = match algorithm {
        Some(a) => a,
        None => {
            return Err(CodecError::MalformedStructure);
        },
    };
    let archive_hash = match archive_hash {
        Some(h) => h,
        None => {
            return Err(CodecError::MalformedStructure);
        },
    };
    Ok(PackageIntegrity { algorithm, archive_hash })
}

/// Read a package from its JSON field list: the fields in any order,
/// each exactly once, every value checked. The inverse of
/// [`encode_json_fields`].
#[verifier::rlimit(100)]
pub fn decode_json_fields(fields: &Vec<JsonField>) -> (r: Result<Package, CodecError>)
    ensures
        match r {
            Ok(p) => spec_package_from_json(fields@.map_values(|f: JsonField| f@)) == Ok::<
                PackageModel,
                CodecError,
            >(p@) && p@.wf() && p@.sig is Some,
            Err(e) => spec_package_from_json(fields@.map_values(|f: JsonField| f@)) == Err::<
                PackageModel,
                CodecError,
            >(e),
        },
{
    let ghost gfs = fields@.map_values(|f: JsonField| f@);
    let name_key = String::from_str("name");
    let version_key = String::from_str("version");
    let status_key = String::from_str("status");
    let maintainer_key = String::from_str("maintainer");
    let archive_url_key = String::from_str("archive_url");
    let integrity_key = String::from_str("integrity");
    let sig_key = String::from_str("sig");
    let mut name: Option<String> = None;
    let mut version: Option<String> = None;
    let mut status: Option<PackageStatus> = None;
    let mut maintainer: Option<Vec<u8>> = None;
    let mut archive_url: Option<ArchiveUrl> = None;
    let mut integrity: Option<PackageIntegrity> = None;
    let mut sig: Option<Vec<u8>> = None;
    let mut i: usize = 0;
    proof {
        assert(gfs.take(0) =~= Seq::<JsonFieldModel>::empty());
    }
    while i < fields.len()
        invariant
            i <= fields@.len(),
            gfs == fields@.map_values(|f: JsonField| f@),
            gfs.len() == fields@.len(),
            name_key@ == "name"@,
            version_key@ == "version"@,
            status_key@ == "status"@,
            maintainer_key@ == "maintainer"@,
            archive_url_key@ == "archive_url"@,
            integrity_key@ == "integrity"@,
            sig_key@ == "sig"@,
            status matches Some(st) ==> PackageStatus::spec_from_byte(st.spec_byte()) == Some(st),
            archive_url matches Some(u) ==> crate::archive_url::spec_url_normalized(u@),
            name matches Some(t) ==> t@.len() > 0,
            version matches Some(t) ==> t@.len() > 0,
            maintainer matches Some(m) ==> m@.len() == 32,
            sig matches Some(s0) ==> s0@.len() == 64,
            spec_fold_json(gfs.take(i as int), spec_json_acc_empty()) == Ok::<
                JsonAcc,
                CodecError,
            >(
                JsonAcc {
                    name: spec_opt_text(name),
                    version: spec_opt_text(version),
                    status: status,
                    maintainer: spec_opt_bytes(maintainer),
                    archive_url: match archive_url {
                        Some(ref u) => Some(u@),
                        None => None,
                    },
                    integrity: match integrity {
                        Some(ref g) => Some(g@),
                        None => None,
                    },
                    sig: spec_opt_bytes(sig),
                },
            ),
        decreases fields@.len() - i,
    {
        proof {
            lemma_fold_json_snoc(gfs, i as int, spec_json_acc_empty());
            if spec_fold_json(gfs.take(i as int + 1), spec_json_acc_empty()) is Err {
                lemma_fold_json_prefix_err(gfs, i as int + 1, spec_json_acc_empty());
            }
        }
        let f = &fields[i];
        if f.key.eq(&name_key) {
            match &f.value {
                JsonValue::Text(t) => {
                    if name.is_some() {
                        return Err(CodecError::DuplicateField);
                    }
                    if t.as_str().unicode_len() == 0 {
                        return Err(CodecError::MalformedStructure);
                    }
                    name = Some(t.clone());
                },
                _ => {
                    return Err(CodecError::MalformedStructure);
                },
            }
        } else if f.key.eq(&version_key) {
            match &f.value {
                JsonValue::Text(t) => {
                    if version.is_some() {
                        return Err(CodecError::DuplicateField);
                    }
                    if t.as_str().unicode_len() == 0 {
                        return Err(CodecError::MalformedStructure);
                    }
                    version = Some(t.clone());
                },
                _ => {
                    return Err(CodecError::MalformedStructure);
                },
            }
        } else if f.key.eq(&status_key) {
            match &f.value {
                JsonValue::Number(n) => {
                    if status.is_some() {
                        return Err(CodecError::DuplicateField);
                    }
                    if *n > 255 {
                        return Err(CodecError::MalformedStructure);
                    }
                    let st = match PackageStatus::try_from(*n as u8) {
                        Ok(st) => st,
                        Err(e) => {
                            return Err(e);
                        },
                    };
                    status = Some(st);
                },
                _ => {
                    return Err(CodecError::MalformedStructure);
                },
            }
        } else if f.key.eq(&maintainer_key) {
            match &f.value {
                JsonValue::Bytes(b) => {
                    if maintainer.is_some() {
                        return Err(CodecError::DuplicateField);
                    }
                    if b.len() != 32 {
                        return Err(CodecError::BadKeyLength);
                    }
                    maintainer = Some(b.clone());
                },
                _ => {
                    return Err(CodecError::MalformedStructure);
                },
            }
        } else if f.key.eq(&archive_url_key) {
            match &f.value {
                JsonValue::Text(t) => {
                    if archive_url.is_some() {
                        return Err(CodecError::DuplicateField);
                    }
                    let u = match ArchiveUrl::parse(t) {
                        Ok(u) => u,
                        Err(e) => {
                            return Err(e);
                        },
                    };
                    archive_url = Some(u);
                },
                _ => {
                    return Err(CodecError::MalformedStructure);
                },
            }
        } else if f.key.eq(&integrity_key) {
            match &f.value {
                JsonValue::Object(ms) => {
                    if integrity.is_some() {
                        return Err(CodecError::DuplicateField);
                    }
                    let g = match decode_integrity_members(ms) {
                        Ok(g) => g,
                        Err(e) => {
                            return Err(e);
                        },
                    };
                    integrity = Some(g);
                },
                _ => {
                    return Err(CodecError::MalformedStructure);
                },
            }
        } else if f.key.eq(&sig_key) {
            match &f.value {
                JsonValue::Bytes(b) => {
                    if sig.is_some() {
                        return Err(CodecError::DuplicateField);
                    }
                    if b.len() != 64 {
                        return Err(CodecError::BadSigLength);
                    }
                    sig = Some(b.clone());
                },
                _ => {
                    return Err(CodecError::MalformedStructure);
                },
            }
        } else {
            return Err(CodecError::MalformedStructure);
        }
        i += 1;
    }
    proof {
        assert(gfs.take(gfs.len() as int) =~= gfs);
    }
    let sig = match sig {
        Some(s) => s,
        None => {
            return Err(CodecError::MissingSignature);
        },
    };
    let name = match name {
        Some(x) => x,
        None => {
            return Err(CodecError::MalformedStructure);
        },
    };
    let version = match version {
        Some(x) => x,
        None => {
            return Err(CodecError::MalformedStructure);
        },
    };
    let status = match status {
        Some(x) => x,
        None => {
            return Err(CodecError::MalformedStructure);
        },
    };
    let maintainer = match maintainer {
        Some(x) => x,
        None => {
            return Err(CodecError::MalformedStructure);
        },
    };
    let archive_url = match archive_url {
        Some(x) => x,
        None => {
            return Err(CodecError::MalformedStructure);
        },
    };
    let integrity = match integrity {
        Some(x) => x,
        None => {
            return Err(CodecError::MalformedStructure);
        },
    };
    let package = Package { name, version, status, maintainer, archive_url, integrity, sig: Some(
        sig,
    ) };
    Ok(package)
}

/// Serializing a well-formed signed package to its JSON field list and
/// reading the list back gives the package: the JSON codec loses nothing.
pub proof fn lemma_json_round_trip(p: PackageModel)
    requires
        p.wf(),
        p.sig is Some,
    ensures
        spec_package_from_json(spec_json_fields_of(p)) == Ok::<PackageModel, CodecError>(p),
{
    broadcast use vstd::string::group_string_axioms;

    reveal_strlit("name");
    reveal_strlit("version");
    reveal_strlit("status");
    reveal_strlit("maintainer");
    reveal_strlit("archive_url");
    reveal_strlit("integrity");
    reveal_strlit("sig");
    reveal_strlit("algorithm");
    reveal_strlit("archive_hash");
    assert("name"@.len() == 4);
    assert("version"@.len() == 7);
    assert("status"@.len() == 6);
    assert("maintainer"@.len() == 10);
    assert("archive_url"@.len() == 11);
    assert("integrity"@.len() == 9);
    assert("sig"@.len() == 3);
    assert("algorithm"@.len() == 9);
    assert("archive_hash"@.len() == 12);
    let fs = spec_json_fields_of(p);
    assert(fs.len() == 7);
    let a0 = spec_json_acc_empty();
    assert(fs.take(0) =~= Seq::<JsonFieldModel>::empty());
    assert(spec_fold_json(fs.take(0), a0) == Ok::<JsonAcc, CodecError>(a0));
    lemma_fold_json_snoc(fs, 0, a0);
    let a1 = JsonAcc { name: Some(p.name), ..a0 };
    assert(spec_apply_json_field(a0, fs[0]) == Ok::<JsonAcc, CodecError>(a1));
    assert(spec_fold_json(fs.take(1), a0) == Ok::<JsonAcc, CodecError>(a1));
    lemma_fold_json_snoc(fs, 1, a0);
    let a2 = JsonAcc { version: Some(p.version), ..a1 };
    assert(spec_apply_json_field(a1, fs[1]) == Ok::<JsonAcc, CodecError>(a2));
    assert(spec_fold_json(fs.take(2), a0) == Ok::<JsonAcc, CodecError>(a2));
    lemma_fold_json_snoc(fs, 2, a0);
    crate::package_status::lemma_status_byte_round_trip(p.status);
    let a3 = JsonAcc { status: Some(p.status), ..a2 };
    assert(spec_apply_json_field(a2, fs[2]) == Ok::<JsonAcc, CodecError>(a3));
    assert(spec_fold_json(fs.take(3), a0) == Ok::<JsonAcc, CodecError>(a3));
    lemma_fold_json_snoc(fs, 3, a0);
    let a4 = JsonAcc { maintainer: Some(p.maintainer), ..a3 };
    assert(spec_apply_json_field(a3, fs[3]) == Ok::<JsonAcc, CodecError>(a4));
    assert(spec_fold_json(fs.take(4), a0) == Ok::<JsonAcc, CodecError>(a4));
    lemma_fold_json_snoc(fs, 4, a0);
    crate::archive_url::lemma_normalized_parse(p.archive_url);
    let a5 = JsonAcc { archive_url: Some(p.archive_url), ..a4 };
    assert(spec_apply_json_field(a4, fs[4]) == Ok::<JsonAcc, CodecError>(a5));
    assert(spec_fold_json(fs.take(5), a0) == Ok::<JsonAcc, CodecError>(a5));
    lemma_fold_json_snoc(fs, 5, a0);
    let inner = seq![
        JsonObjMemberModel {
            key: "algorithm"@,
            value: JsonLeafModel::Text(p.integrity.algorithm),
        },
        JsonObjMemberModel {
            key: "archive_hash"@,
            value: JsonLeafModel::Bytes(p.integrity.archive_hash),
        },
    ];
    let b0: (Option<Seq<char>>, Option<Seq<u8>>) = (None, None);
    let b1: (Option<Seq<char>>, Option<Seq<u8>>) = (Some(p.integrity.algorithm), None);
    let b2: (Option<Seq<char>>, Option<Seq<u8>>) = (
        Some(p.integrity.algorithm),
        Some(p.integrity.archive_hash),
    );
    assert(spec_apply_integrity_member(b0, inner[0]) == Ok::<
        (Option<Seq<char>>, Option<Seq<u8>>),
        CodecError,
    >(b1));
    assert(spec_apply_integrity_member(b1, inner[1]) == Ok::<
        (Option<Seq<char>>, Option<Seq<u8>>),
        CodecError,
    >(b2));
    assert(inner.drop_first() =~= seq![inner[1]]);
    assert(seq![inner[1]].drop_first() =~= Seq::<JsonObjMemberModel>::empty());
    assert(spec_fold_integrity(Seq::<JsonObjMemberModel>::empty(), b2) == Ok::<
        (Option<Seq<char>>, Option<Seq<u8>>),
        CodecError,
    >(b2));
    assert(spec_fold_integrity(seq![inner[1]], b1) == Ok::<
        (Option<Seq<char>>, Option<Seq<u8>>),
        CodecError,
    >(b2));
    assert(spec_fold_integrity(inner, b0) == Ok::<
        (Option<Seq<char>>, Option<Seq<u8>>),
        CodecError,
    >(b2));
    assert(spec_integrity_from_members(inner) == Ok::<PackageIntegrityModel, CodecError>(
        p.integrity,
    ));
    let a6 = JsonAcc { integrity: Some(p.integrity), ..a5 };
    assert(spec_apply_json_field(a5, fs[5]) == Ok::<JsonAcc, CodecError>(a6));
    assert(spec_fold_json(fs.take(6), a0) == Ok::<JsonAcc, CodecError>(a6));
    lemma_fold_json_snoc(fs, 6, a0);
    let a7 = JsonAcc { sig: Some(p.sig->Some_0), ..a6 };
    assert(spec_apply_json_field(a6, fs[6]) == Ok::<JsonAcc, CodecError>(a7));
    assert(spec_fold_json(fs.take(7), a0) == Ok::<JsonAcc, CodecError>(a7));
    assert(fs.take(7) =~= fs);
    let m = spec_package_from_json(fs)->Ok_0;
    assert(m == p);
}

} // verus!
