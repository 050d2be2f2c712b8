use vstd::prelude::*;

verus! {

use crate::archive_url::{ArchiveUrl, url_parse_of, spec_url_normalized};
use crate::errors::CodecError;
use crate::hexutil::{
    encode_hex,
    decode_hex,
    spec_hex_lower,
    spec_hex_decode,
    lemma_hex_round_trip,
};
use crate::package::{Package, PackageBuilder, PackageModel};
use crate::package_integrity::{PackageIntegrity, PackageIntegrityModel};
use crate::package_status::PackageStatus;

// ---------------------------------------------------------------------------
// Documents: how packages and ledgers are stored. Binary fields travel as
// lowercase hex text, so that a document holds nothing but plain text and
// numbers.
// ---------------------------------------------------------------------------
/// Mathematical value of a [`PackageIntegrityDocument`].
pub ghost struct PackageIntegrityDocumentModel {
    pub algorithm: Seq<char>,
    pub archive_hash: Seq<char>,
}

/// How a package's integrity record is stored: the hash in hex text.
#[derive(Debug, PartialEq, Eq)]
pub struct PackageIntegrityDocument {
    pub algorithm: String,
    pub archive_hash: String,
}

impl View for PackageIntegrityDocument {
    type V = PackageIntegrityDocumentModel;

    open spec fn view(&self) -> PackageIntegrityDocumentModel {
        PackageIntegrityDocumentModel {
            algorithm: self.algorithm@,
            archive_hash: self.archive_hash@,
        }
    }
}

impl Clone for PackageIntegrityDocument {
    fn clone(&self) -> (r: Self)
        ensures
            r@ == self@,
    {
        PackageIntegrityDocument {
            algorithm: self.algorithm.clone(),
            archive_hash: self.archive_hash.clone(),
        }
    }
}

/// Step-by-step constructor for [`PackageIntegrityDocument`].
pub struct PackageIntegrityDocumentBuilder {
    pub algorithm: Option<String>,
    pub archive_hash: Option<Vec<u8>>,
}

impl PackageIntegrityDocumentBuilder {
    /// Start from an integrity record.
    pub fn from_package_integrity(package_integrity: &PackageIntegrity) -> (r: Self)
        ensures
            r.algorithm matches Some(a) && a@ == package_integrity@.algorithm,
            r.archive_hash matches Some(h) && h@ == package_integrity@.archive_hash,
    {
        Self {
            algorithm: Some(package_integrity.algorithm.clone()),
            archive_hash: Some(package_integrity.archive_hash.clone()),
        }
    }

    /// Set the algorithm name.
    pub fn set_algorithm(&mut self, algorithm: &String) -> (r: &mut Self)
        ensures
            (*r).algorithm matches Some(a) && a@ == algorithm@,
            (*r).archive_hash == old(self).archive_hash,
            *final(self) == *final(r),
    {
        self.algorithm = Some(algorithm.clone());
        self
    }

    /// Set the archive hash from its raw bytes.
    pub fn set_archive_hash(&mut self, archive_hash: &Vec<u8>) -> (r: &mut Self)
        ensures
            (*r).algorithm == old(self).algorithm,
            (*r).archive_hash matches Some(h) && h@ == archive_hash@,
            *final(self) == *final(r),
    {
        self.archive_hash = Some(archive_hash.clone());
        self
    }

    /// Clear both fields.
    pub fn reset(&mut self) -> (r: &mut Self)
        ensures
            (*r).algorithm is None,
            (*r).archive_hash is None,
            *final(self) == *final(r),
    {
        self.algorithm = None;
        self.archive_hash = None;
        self
    }

    /// Build the document: the hash is written as lowercase hex text. The
    /// builder is reset afterwards.
    pub fn build(&mut self) -> (r: PackageIntegrityDocument)
        requires
            old(self).algorithm is Some,
            old(self).archive_hash is Some,
        ensures
            r@.algorithm == old(self).algorithm->Some_0@,
            r@.archive_hash == spec_hex_lower(old(self).archive_hash->Some_0@),
            final(self).algorithm is None,
            final(self).archive_hash is None,
    {
        let algorithm = match &self.algorithm {
            Some(a) => a.clone(),
            None => vstd::pervasive::unreached(),
        };
        let raw_hash = match &self.archive_hash {
            Some(h) => h.clone(),
            None => vstd::pervasive::unreached(),
        };
        let encoded_archive_hash = encode_hex(&raw_hash);
        let doc = PackageIntegrityDocument { algorithm, archive_hash: encoded_archive_hash };
        self.reset();
        doc
    }
}

impl Default for PackageIntegrityDocumentBuilder {
    fn default() -> (r: Self)
        ensures
            r.algorithm is None,
            r.archive_hash is None,
    {
        Self { algorithm: None, archive_hash: None }
    }
}

/// Mathematical value of a [`PackageDocument`].
pub ghost struct PackageDocumentModel {
    pub name: Seq<char>,
    pub version: Seq<char>,
    pub status: int,
    pub maintainer: Seq<char>,
    pub archive_url: Seq<char>,
    pub integrity: PackageIntegrityDocumentModel,
    pub sig: Seq<char>,
    pub blockchain_label: Seq<char>,
}

/// How a package is stored: one row of the packages collection. The
/// maintainer key and the signature are lowercase hex text.
#[derive(Debug, PartialEq, Eq)]
pub struct PackageDocument {
    pub name: String,
    pub version: String,
    pub status: i32,
    pub maintainer: String,
    pub archive_url: String,
    pub integrity: PackageIntegrityDocument,
    pub sig: String,
    pub blockchain_label: String,
}

impl View for PackageDocument {
    type V = PackageDocumentModel;

    open spec fn view(&self) -> PackageDocumentModel {
        PackageDocumentModel {
            name: self.name@,
            version: self.version@,
            status: self.status as int,
            maintainer: self.maintainer@,
            archive_url: self.archive_url@,
            integrity: self.integrity@,
            sig: self.sig@,
            blockchain_label: self.blockchain_label@,
        }
    }
}

impl Clone for PackageDocument {
    fn clone(&self) -> (r: Self)
        ensures
            r@ == self@,
    {
        PackageDocument {
            name: self.name.clone(),
            version: self.version.clone(),
            status: self.status,
            maintainer: self.maintainer.clone(),
            archive_url: self.archive_url.clone(),
            integrity: self.integrity.clone(),
            sig: self.sig.clone(),
            blockchain_label: self.blockchain_label.clone(),
        }
    }
}

/// The document a package is stored as, under a ledger label.
pub open spec fn spec_document_of_package(p: PackageModel, label: Seq<char>) -> PackageDocumentModel
    recommends
        p.sig is Some,
{
    PackageDocumentModel {
        name: p.name,
        version: p.version,
        status: p.status.spec_byte() as int,
        maintainer: spec_hex_lower(p.maintainer),
        archive_url: p.archive_url,
        integrity: PackageIntegrityDocumentModel {
            algorithm: p.integrity.algorithm,
            archive_hash: spec_hex_lower(p.integrity.archive_hash),
        },
        sig: spec_hex_lower(p.sig->Some_0),
        blockchain_label: label,
    }
}

/// Step-by-step constructor for [`PackageDocument`].
pub struct PackageDocumentBuilder {
    pub name: Option<String>,
    pub version: Option<String>,
    pub status: Option<i32>,
    pub maintainer: Option<String>,
    pub archive_url: Option<String>,
    pub integrity: Option<PackageIntegrityDocument>,
    pub sig: Option<Vec<u8>>,
    pub blockchain_label: Option<String>,
}

impl PackageDocumentBuilder {
    /// Whether every field was set.
    pub open spec fn complete(&self) -> bool {
        &&& self.name is Some
        &&& self.version is Some
        &&& self.status is Some
        &&& self.maintainer is Some
        &&& self.archive_url is Some
        &&& self.integrity is Some
        &&& self.sig is Some
        &&& self.blockchain_label is Some
    }

    /// Start from a signed package bound for the ledger with the given
    /// label.
    pub fn from_package(package: &Package, blockchain_label: &String) -> (r: Self)
        requires
            package@.sig is Some,
        ensures
            r.complete(),
            r.name matches Some(n) && n@ == package@.name,
            r.version matches Some(v) && v@ == package@.version,
            r.status matches Some(s) && s as int == package@.status.spec_byte() as int,
            r.maintainer matches Some(m) && m@ == spec_hex_lower(package@.maintainer),
            r.archive_url matches Some(u) && u@ == package@.archive_url,
            r.integrity matches Some(i) && i@.algorithm == package@.integrity.algorithm
                && i@.archive_hash == spec_hex_lower(package@.integrity.archive_hash),
            r.sig matches Some(s) && s@ == package@.sig->Some_0,
            r.blockchain_label matches Some(l) && l@ == blockchain_label@,
    {
        let maintainer = encode_hex(&package.maintainer);
        let status = package.status.to_byte();
        let mut integrity_builder = PackageIntegrityDocumentBuilder::from_package_integrity(
            &package.integrity,
        );
        let integrity = integrity_builder.build();
        let sig = match &package.sig {
            Some(s) => s.clone(),
            None => vstd::pervasive::unreached(),
        };
        Self {
            name: Some(package.name.clone()),
            version: Some(package.version.clone()),
            status: Some(status as i32),
            maintainer: Some(maintainer),
            archive_url: Some(package.archive_url.as_string().clone()),
            integrity: Some(integrity),
            sig: Some(sig),
            blockchain_label: Some(blockchain_label.clone()),
        }
    }

    /// Set the package name.
    pub fn set_name(&mut self, name: &String) -> (r: &mut Self)
        ensures
            (*r) == (PackageDocumentBuilder { name: Some(*name), ..*old(self) }),
            *final(self) == *final(r),
    {
        self.name = Some(name.clone());
        self
    }

    /// Set the package version.
    pub fn set_version(&mut self, version: &String) -> (r: &mut Self)
        ensures
            (*r) == (PackageDocumentBuilder { version: Some(*version), ..*old(self) }),
            *final(self) == *final(r),
    {
        self.version = Some(version.clone());
        self
    }

    /// Set the package status.
    pub fn set_status(&mut self, status: &PackageStatus) -> (r: &mut Self)
        ensures
            (*r).status matches Some(s) && s as int == status.spec_byte() as int,
            (*r).name == old(self).name,
            (*r).version == old(self).version,
            (*r).maintainer == old(self).maintainer,
            (*r).archive_url == old(self).archive_url,
            (*r).integrity == old(self).integrity,
            (*r).sig == old(self).sig,
            (*r).blockchain_label == old(self).blockchain_label,
            *final(self) == *final(r),
    {
        let b = status.to_byte();
        self.status = Some(b as i32);
        self
    }

    /// Set the maintainer from the raw 32 key bytes; stored as hex.
    pub fn set_maintainer(&mut self, maintainer: &Vec<u8>) -> (r: &mut Self)
        ensures
            (*r).maintainer matches Some(m) && m@ == spec_hex_lower(maintainer@),
            (*r).name == old(self).name,
            (*r).version == old(self).version,
            (*r).status == old(self).status,
            (*r).archive_url == old(self).archive_url,
            (*r).integrity == old(self).integrity,
            (*r).sig == old(self).sig,
            (*r).blockchain_label == old(self).blockchain_label,
            *final(self) == *final(r),
    {
        let encoded_maintainer = encode_hex(maintainer);
        self.maintainer = Some(encoded_maintainer);
        self
    }

    /// Set the archive URL.
    pub fn set_archive_url(&mut self, archive_url: &ArchiveUrl) -> (r: &mut Self)
        ensures
            (*r).archive_url matches Some(u) && u@ == archive_url@,
            (*r).name == old(self).name,
            (*r).version == old(self).version,
            (*r).status == old(self).status,
            (*r).maintainer == old(self).maintainer,
            (*r).integrity == old(self).integrity,
            (*r).sig == old(self).sig,
            (*r).blockchain_label == old(self).blockchain_label,
            *final(self) == *final(r),
    {
        self.archive_url = Some(archive_url.as_string().clone());
        self
    }

    /// Set the integrity document.
    pub fn set_integrity(&mut self, integrity: &PackageIntegrityDocument) -> (r: &mut Self)
        ensures
            (*r).integrity matches Some(i) && i@ == integrity@,
            (*r).name == old(self).name,
            (*r).version == old(self).version,
            (*r).status == old(self).status,
            (*r).maintainer == old(self).maintainer,
            (*r).archive_url == old(self).archive_url,
            (*r).sig == old(self).sig,
            (*r).blockchain_label == old(self).blockchain_label,
            *final(self) == *final(r),
    {
        self.integrity = Some(integrity.clone());
        self
    }

    /// Set the signature from its raw 64 bytes; stored as hex.
    pub fn set_signature(&mut self, signature: &Vec<u8>) -> (r: &mut Self)
        ensures
            (*r).sig matches Some(s) && s@ == signature@,
            (*r).name == old(self).name,
            (*r).version == old(self).version,
            (*r).status == old(self).status,
            (*r).maintainer == old(self).maintainer,
            (*r).archive_url == old(self).archive_url,
            (*r).integrity == old(self).integrity,
            (*r).blockchain_label == old(self).blockchain_label,
            *final(self) == *final(r),
    {
        self.sig = Some(signature.clone());
        self
    }

    /// Set the ledger label this document belongs to.
    pub fn set_blockchain(&mut self, blockchain_label: &String) -> (r: &mut Self)
        ensures
            (*r) == (PackageDocumentBuilder {
                blockchain_label: Some(*blockchain_label),
                ..*old(self)
            }),
            *final(self) == *final(r),
    {
        self.blockchain_label = Some(blockchain_label.clone());
        self
    }

    /// Clear every field.
    pub fn reset(&mut self) -> (r: &mut Self)
        ensures
            !(*r).complete(),
            (*r).name is None,
            (*r).version is None,
            (*r).status is None,
            (*r).maintainer is None,
            (*r).archive_url is None,
            (*r).integrity is None,
            (*r).sig is None,
            (*r).blockchain_label is None,
            *final(self) == *final(r),
    {
        self.name = None;
        self.version = None;
        self.status = None;
        self.maintainer = None;
        self.archive_url = None;
        self.integrity = None;
        self.sig = None;
        self.blockchain_label = None;
        self
    }

    /// Start from an existing document.
    pub fn from_document(doc: &PackageDocument) -> (r: Result<Self, CodecError>)
        ensures
            match r {
                Ok(b) => ({
                    &&& spec_hex_decode(doc@.sig) is Some
                    &&& b.complete()
                    &&& b.name matches Some(n) && n@ == doc@.name
                    &&& b.version matches Some(v) && v@ == doc@.version
                    &&& b.status matches Some(s) && s as int == doc@.status
                    &&& b.maintainer matches Some(m) && m@ == doc@.maintainer
                    &&& b.archive_url matches Some(u) && u@ == doc@.archive_url
                    &&& b.integrity matches Some(i) && i@ == doc@.integrity
                    &&& b.sig matches Some(s) && s@ == spec_hex_decode(doc@.sig)->Some_0
                    &&& b.blockchain_label matches Some(l) && l@ == doc@.blockchain_label
                }),
                Err(e) => spec_hex_decode(doc@.sig) is None && e == CodecError::MalformedStructure,
            },
    {
        let sig = match decode_hex(&doc.sig) {
            Some(s) => s,
            None => {
                return Err(CodecError::MalformedStructure);
            },
        };
        Ok(
            Self {
                name: Some(doc.name.clone()),
                version: Some(doc.version.clone()),
                status: Some(doc.status),
                maintainer: Some(doc.maintainer.clone()),
                archive_url: Some(doc.archive_url.clone()),
                integrity: Some(doc.integrity.clone()),
                sig: Some(sig),
                blockchain_label: Some(doc.blockchain_label.clone()),
            },
        )
    }

    /// Build the document; every field must have been set. The builder is
    /// reset afterwards.
    pub fn build(&mut self) -> (r: PackageDocument)
        requires
            old(self).complete(),
        ensures
            r@.name == old(self).name->Some_0@,
            r@.version == old(self).version->Some_0@,
            r@.status == old(self).status->Some_0 as int,
            r@.maintainer == old(self).maintainer->Some_0@,
            r@.archive_url == old(self).archive_url->Some_0@,
            r@.integrity == old(self).integrity->Some_0@,
            r@.sig == spec_hex_lower(old(self).sig->Some_0@),
            r@.blockchain_label == old(self).blockchain_label->Some_0@,
            !final(self).complete(),
    {
        let raw_sig = match &self.sig {
            Some(s) => s.clone(),
            None => vstd::pervasive::unreached(),
        };
        let encoded_sig = encode_hex(&raw_sig);
        let name = match &self.name {
            Some(x) => x.clone(),
            None => vstd::pervasive::unreached(),
        };
        let version = match &self.version {
            Some(x) => x.clone(),
            None => vstd::pervasive::unreached(),
        };
        let status = match &self.status {
            Some(x) => *x,
            None => vstd::pervasive::unreached(),
        };
        let maintainer = match &self.maintainer {
            Some(x) => x.clone(),
            None => vstd::pervasive::unreached(),
        };
        let archive_url = match &self.archive_url {
            Some(x) => x.clone(),
            None => vstd::pervasive::unreached(),
        };
        let integrity = match &self.integrity {
            Some(x) => x.clone(),
            None => vstd::pervasive::unreached(),
        };
        let blockchain_label = match &self.blockchain_label {
            Some(x) => x.clone(),
            None => vstd::pervasive::unreached(),
        };
        let doc = PackageDocument {
            name,
            version,
            status,
            maintainer,
            archive_url,
            integrity,
            sig: encoded_sig,
            blockchain_label,
        };
        self.reset();
        doc
    }
}

impl Default for PackageDocumentBuilder {
    fn default() -> (r: Self)
        ensures
            r.name is None,
            r.version is None,
            r.status is None,
            r.maintainer is None,
            r.archive_url is None,
            r.integrity is None,
            r.sig is None,
            r.blockchain_label is None,
    {
        Self {
            name: None,
            version: None,
            status: None,
            maintainer: None,
            archive_url: None,
            integrity: None,
            sig: None,
            blockchain_label: None,
        }
    }
}

/// Mathematical value of a [`BlockchainDocument`].
pub ghost struct BlockchainDocumentModel {
    pub label: Seq<char>,
    pub last_synchronization: Seq<char>,
}

/// How a configured ledger is stored: its label and its watermark, the
/// seconds of its last successful synchronization, as decimal text.
#[derive(Debug, PartialEq, Eq)]
pub struct BlockchainDocument {
    pub label: String,
    pub last_synchronization: String,
}

impl View for BlockchainDocument {
    type V = BlockchainDocumentModel;

    open spec fn view(&self) -> BlockchainDocumentModel {
        BlockchainDocumentModel {
            label: self.label@,
            last_synchronization: self.last_synchronization@,
        }
    }
}

impl Clone for BlockchainDocument {
    fn clone(&self) -> (r: Self)
        ensures
            r@ == self@,
    {
        BlockchainDocument {
            label: self.label.clone(),
            last_synchronization: self.last_synchronization.clone(),
        }
    }
}

impl BlockchainDocument {
    /// A fresh builder with no fields set.
    pub fn builder() -> (r: BlockchainDocumentBuilder)
        ensures
            r.label is None,
            r.last_synchronization is None,
    {
        BlockchainDocumentBuilder::default()
    }
}

/// Step-by-step constructor for [`BlockchainDocument`].
#[derive(Debug)]
pub struct BlockchainDocumentBuilder {
    pub label: Option<String>,
    pub last_synchronization: Option<String>,
}

impl BlockchainDocumentBuilder {
    /// Set the ledger label.
    pub fn set_label(&mut self, label: &String) -> (r: &mut Self)
        ensures
            (*r) == (BlockchainDocumentBuilder { label: Some(*label), ..*old(self) }),
            *final(self) == *final(r),
    {
        self.label = Some(label.clone());
        self
    }

    /// Set the watermark text.
    pub fn set_last_synchronization(&mut self, timestamp: &String) -> (r: &mut Self)
        ensures
            (*r) == (BlockchainDocumentBuilder {
                last_synchronization: Some(*timestamp),
                ..*old(self)
            }),
            *final(self) == *final(r),
    {
        self.last_synchronization = Some(timestamp.clone());
        self
    }

    /// Clear both fields.
    pub fn reset(&mut self) -> (r: &mut Self)
        ensures
            (*r).label is None,
            (*r).last_synchronization is None,
            *final(self) == *final(r),
    {
        self.label = None;
        self.last_synchronization = None;
        self
    }

    /// Start from an existing document.
    pub fn from_document(doc: &BlockchainDocument) -> (r: Self)
        ensures
            r.label matches Some(l) && l@ == doc@.label,
            r.last_synchronization matches Some(t) && t@ == doc@.last_synchronization,
    {
        Self {
            label: Some(doc.label.clone()),
            last_synchronization: Some(doc.last_synchronization.clone()),
        }
    }

    /// Build the document; both fields must have been set. The builder is
    /// reset afterwards.
    pub fn build(&mut self) -> (r: BlockchainDocument)
        requires
            old(self).label is Some,
            old(self).last_synchronization is Some,
        ensures
            r@.label == old(self).label->Some_0@,
            r@.last_synchronization == old(self).last_synchronization->Some_0@,
            final(self).label is None,
            final(self).last_synchronization is None,
    {
        let label = match &self.label {
            Some(l) => l.clone(),
            None => vstd::pervasive::unreached(),
        };
        let last_synchronization = match &self.last_synchronization {
            Some(t) => t.clone(),
            None => vstd::pervasive::unreached(),
        };
        let doc = BlockchainDocument { label, last_synchronization };
        self.reset();
        doc
    }
}

impl Default for BlockchainDocumentBuilder {
    fn default() -> (r: Self)
        ensures
            r.label is None,
            r.last_synchronization is None,
    {
        Self { label: None, last_synchronization: None }
    }
}

// ---------------------------------------------------------------------------
// From documents back to packages.
// ---------------------------------------------------------------------------
/// What rebuilding a package from a stored document yields: the package,
/// or the error raised by the first failing check.
pub open spec fn spec_package_from_document(d: PackageDocumentModel) -> Result<
    PackageModel,
    CodecError,
> {
    if d.name.len() == 0 {
        Err(CodecError::MalformedStructure)
    } else if d.version.len() == 0 {
        Err(CodecError::MalformedStructure)
    } else if !(0 <= d.status <= 5) {
        Err(CodecError::UnknownStatus)
    } else if spec_hex_decode(d.maintainer) is None {
        Err(CodecError::MalformedStructure)
    } else if spec_hex_decode(d.maintainer)->Some_0.len() != 32 {
        Err(CodecError::BadKeyLength)
    } else if url_parse_of(d.archive_url) is None {
        Err(CodecError::BadUrl)
    } else if spec_hex_decode(d.integrity.archive_hash) is None {
        Err(CodecError::MalformedStructure)
    } else if spec_hex_decode(d.sig) is None {
        Err(CodecError::MalformedStructure)
    } else if spec_hex_decode(d.sig)->Some_0.len() != 64 {
        Err(CodecError::BadSigLength)
    } else {
        Ok(
            PackageModel {
                name: d.name,
                version: d.version,
                status: PackageStatus::spec_from_byte(d.status as u8)->Some_0,
                maintainer: spec_hex_decode(d.maintainer)->Some_0,
                archive_url: url_parse_of(d.archive_url)->Some_0,
                integrity: PackageIntegrityModel {
                    algorithm: d.integrity.algorithm,
                    archive_hash: spec_hex_decode(d.integrity.archive_hash)->Some_0,
                },
                sig: Some(spec_hex_decode(d.sig)->Some_0),
            },
        )
    }
}

impl PackageBuilder {
    /// Rebuild a package from a stored document: hex fields are decoded,
    /// the status byte and the URL are checked. A corrupt document is
    /// rejected rather than trusted.
    pub fn from_document(document: &PackageDocument) -> (r: Result<PackageBuilder, CodecError>)
        ensures
            match r {
                Ok(b) => ({
                    &&& spec_package_from_document(document@) matches Ok(m)
                    &&& b.complete()
                    &&& b.spec_package() == m
                }),
                Err(e) => spec_package_from_document(document@) == Err::<PackageModel, CodecError>(
                    e,
                ),
            },
    {
        if document.name.as_str().unicode_len() == 0 {
            return Err(CodecError::MalformedStructure);
        }
        if document.version.as_str().unicode_len() == 0 {
            return Err(CodecError::MalformedStructure);
        }
        if document.status < 0 || document.status > 5 {
            return Err(CodecError::UnknownStatus);
        }
        let status_byte = document.status as u8;
        let package_status = match PackageStatus::try_from(status_byte) {
            Ok(s) => s,
            Err(_) => vstd::pervasive::unreached(),
        };
        let package_maintainer = match decode_hex(&document.maintainer) {
            Some(m) => m,
            None => {
                return Err(CodecError::MalformedStructure);
            },
        };
        if package_maintainer.len() != 32 {
            return Err(CodecError::BadKeyLength);
        }
        let archive_url = match ArchiveUrl::parse(&document.archive_url) {
            Ok(u) => u,
            Err(e) => {
                return Err(e);
            },
        };
        let archive_hash = match decode_hex(&document.integrity.archive_hash) {
            Some(h) => h,
            None => {
                return Err(CodecError::MalformedStructure);
            },
        };
        let package_signature = match decode_hex(&document.sig) {
            Some(s) => s,
            None => {
                return Err(CodecError::MalformedStructure);
            },
        };
        if package_signature.len() != 64 {
            return Err(CodecError::BadSigLength);
        }
        let package_integrity = PackageIntegrity {
            algorithm: document.integrity.algorithm.clone(),
            archive_hash,
        };
        Ok(
            Self {
                name: Some(document.name.clone()),
                version: Some(document.version.clone()),
                status: Some(package_status),
                maintainer: Some(package_maintainer),
                archive_url: Some(archive_url),
                integrity: Some(package_integrity),
                sig: Some(package_signature),
            },
        )
    }
}

/// Storing a well-formed signed package as a document and rebuilding it
/// gives the package back: hex text, status byte and URL all survive the
/// store.
pub proof fn lemma_document_round_trip(p: PackageModel, label: Seq<char>)
    requires
        p.wf(),
        p.sig is Some,
    ensures
        spec_package_from_document(spec_document_of_package(p, label)) == Ok::<
            PackageModel,
            CodecError,
        >(p),
{
    let d = spec_document_of_package(p, label);
    lemma_hex_round_trip(p.maintainer);
    lemma_hex_round_trip(p.integrity.archive_hash);
    lemma_hex_round_trip(p.sig->Some_0);
    crate::package_status::lemma_status_byte_round_trip(p.status);
    crate::archive_url::lemma_normalized_parse(p.archive_url);
    let m = spec_package_from_document(d)->Ok_0;
    assert(m == p);
}

} // verus!
