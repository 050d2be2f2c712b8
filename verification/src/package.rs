use vstd::prelude::*;

verus! {

use crate::archive_url::{ArchiveUrl, spec_url_normalized};
use crate::errors::CodecError;
use crate::hexutil::{encode_hex_upper, spec_hex_upper};
use crate::package_integrity::{PackageIntegrity, PackageIntegrityModel};
use crate::package_status::PackageStatus;

/// Number of bytes in an Ed25519 public key.
pub const PUBLIC_KEY_LENGTH: usize = 32;

/// Number of bytes in an Ed25519 signature.
pub const SIGNATURE_LENGTH: usize = 64;

/// Mathematical value of a [`Package`].
pub ghost struct PackageModel {
    pub name: Seq<char>,
    pub version: Seq<char>,
    pub status: PackageStatus,
    pub maintainer: Seq<u8>,
    pub archive_url: Seq<char>,
    pub integrity: PackageIntegrityModel,
    pub sig: Option<Seq<u8>>,
}

impl PackageModel {
    /// A well-formed package: non-empty name and version, a 32-byte
    /// maintainer key, a normalized absolute archive URL, and a 64-byte
    /// signature where one is attached.
    pub open spec fn wf(self) -> bool {
        &&& self.name.len() > 0
        &&& self.version.len() > 0
        &&& self.maintainer.len() == 32
        &&& spec_url_normalized(self.archive_url)
        &&& match self.sig {
            Some(s) => s.len() == 64,
            None => true,
        }
    }

    /// The same descriptor with a different signature attached.
    pub open spec fn with_sig(self, sig: Seq<u8>) -> PackageModel {
        PackageModel { sig: Some(sig), ..self }
    }
}

/// The replicated unit: a signed package descriptor.
///
/// The maintainer is identified by the 32 bytes of an Ed25519 public key;
/// the signature, where attached, is the 64-byte Ed25519 signature over the
/// package's canonical digest.
#[derive(Debug, PartialEq, Eq)]
pub struct Package {
    pub name: String,
    pub version: String,
    pub status: PackageStatus,
    pub maintainer: Vec<u8>,
    pub archive_url: ArchiveUrl,
    pub integrity: PackageIntegrity,
    pub sig: Option<Vec<u8>>,
}

impl View for Package {
    type V = PackageModel;

    open spec fn view(&self) -> PackageModel {
        PackageModel {
            name: self.name@,
            version: self.version@,
            status: self.status,
            maintainer: self.maintainer@,
            archive_url: self.archive_url@,
            integrity: self.integrity@,
            sig: match self.sig {
                Some(ref s) => Some(s@),
                None => None,
            },
        }
    }
}

impl Clone for Package {
    fn clone(&self) -> (r: Self)
        ensures
            r@ == self@,
    {
        Package {
            name: self.name.clone(),
            version: self.version.clone(),
            status: self.status,
            maintainer: self.maintainer.clone(),
            archive_url: self.archive_url.clone(),
            integrity: self.integrity.clone(),
            sig: match &self.sig {
                Some(s) => Some(s.clone()),
                None => None,
            },
        }
    }
}

impl Package {
    /// A fresh builder with no fields set.
    pub fn builder() -> (r: PackageBuilder)
        ensures
            r.name is None,
            r.version is None,
            r.status is None,
            r.maintainer is None,
            r.archive_url is None,
            r.integrity is None,
            r.sig is None,
    {
        PackageBuilder::default()
    }

    /// One line of text naming this package, its version, its status and
    /// its maintainer in uppercase hex.
    pub fn display_string(&self) -> (r: String)
        ensures
            r@ == self@.name + ":"@ + self@.version + " ( Status : "@ + self.status.spec_display()
                + ", Maintainer : "@ + spec_hex_upper(self@.maintainer) + " )"@,
    {
        let mut out = self.name.clone();
        out.append(":");
        out.append(self.version.as_str());
        out.append(" ( Status : ");
        let status_text = self.status.display_string();
        out.append(status_text.as_str());
        out.append(", Maintainer : ");
        let maintainer_hex = encode_hex_upper(&self.maintainer);
        out.append(maintainer_hex.as_str());
        out.append(" )");
        out
    }
}

/// Step-by-step constructor for [`Package`].
pub struct PackageBuilder {
    pub name: Option<String>,
    pub version: Option<String>,
    pub status: Option<PackageStatus>,
    pub maintainer: Option<Vec<u8>>,
    pub archive_url: Option<ArchiveUrl>,
    pub integrity: Option<PackageIntegrity>,
    pub sig: Option<Vec<u8>>,
}

impl PackageBuilder {
    /// Whether every required field was set, with valid lengths, so that
    /// [`PackageBuilder::build`] yields a well-formed package.
    pub open spec fn complete(&self) -> bool {
        &&& self.name matches Some(n) && n@.len() > 0
        &&& self.version matches Some(v) && v@.len() > 0
        &&& self.status is Some
        &&& self.maintainer matches Some(m) && m@.len() == 32
        &&& self.archive_url is Some
        &&& self.integrity is Some
        &&& match self.sig {
            Some(s) => s@.len() == 64,
            None => true,
        }
    }

    /// The package this builder would build.
    pub open spec fn spec_package(&self) -> PackageModel
        recommends
            self.complete(),
    {
        PackageModel {
            name: self.name->Some_0@,
            version: self.version->Some_0@,
            status: self.status->Some_0,
            maintainer: self.maintainer->Some_0@,
            archive_url: self.archive_url->Some_0@,
            integrity: self.integrity->Some_0@,
            sig: match self.sig {
                Some(ref s) => Some(s@),
                None => None,
            },
        }
    }

    /// Clear every field.
    pub fn reset(&mut self) -> (r: &Self)
        ensures
            final(self).name is None,
            final(self).version is None,
            final(self).status is None,
            final(self).maintainer is None,
            final(self).archive_url is None,
            final(self).integrity is None,
            final(self).sig is None,
            *r == *final(self),
    {
        self.name = None;
        self.version = None;
        self.status = None;
        self.maintainer = None;
        self.archive_url = None;
        self.integrity = None;
        self.sig = None;
        self
    }

    /// Start from the fields of an existing package.
    pub fn from_package(package: &Package) -> (r: Self)
        ensures
            package@.wf() ==> r.complete(),
            r.name matches Some(n) && n@ == package@.name,
            r.version matches Some(v) && v@ == package@.version,
            r.status == Some(package@.status),
            r.maintainer matches Some(m) && m@ == package@.maintainer,
            r.archive_url matches Some(u) && u@ == package@.archive_url,
            r.integrity matches Some(i) && i@ == package@.integrity,
            match package@.sig {
                Some(s) => r.sig matches Some(rs) && rs@ == s,
                None => r.sig is None,
            },
    {
        Self {
            name: Some(package.name.clone()),
            version: Some(package.version.clone()),
            status: Some(package.status),
            maintainer: Some(package.maintainer.clone()),
            archive_url: Some(package.archive_url.clone()),
            integrity: Some(package.integrity.clone()),
            sig: match &package.sig {
                Some(s) => Some(s.clone()),
                None => None,
            },
        }
    }

    /// Set the package name; names are non-empty text.
    pub fn set_name(&mut self, name: &String) -> (r: &mut Self)
        requires
            name@.len() > 0,
        ensures
            *r == (PackageBuilder { name: Some(*name), ..*old(self) }),
            *final(self) == *final(r),
    {
        self.name = Some(name.clone());
        self
    }

    /// Set the package version; versions are non-empty text.
    pub fn set_version(&mut self, version: &String) -> (r: &mut Self)
        requires
            version@.len() > 0,
        ensures
            *r == (PackageBuilder { version: Some(*version), ..*old(self) }),
            *final(self) == *final(r),
    {
        self.version = Some(version.clone());
        self
    }

    /// Set the package status.
    pub fn set_status(&mut self, status: &PackageStatus) -> (r: &mut Self)
        ensures
            *r == (PackageBuilder { status: Some(*status), ..*old(self) }),
            *final(self) == *final(r),
    {
        self.status = Some(*status);
        self
    }

    /// Set the maintainer's 32-byte public key.
    pub fn set_maintainer(&mut self, maintainer: &Vec<u8>) -> (r: &mut Self)
        requires
            maintainer@.len() == 32,
        ensures
            (*r).maintainer matches Some(m) && m@ == maintainer@,
            (*r).name == old(self).name,
            (*r).version == old(self).version,
            (*r).status == old(self).status,
            (*r).archive_url == old(self).archive_url,
            (*r).integrity == old(self).integrity,
            (*r).sig == old(self).sig,
            *final(self) == *final(r),
    {
        self.maintainer = Some(maintainer.clone());
        self
    }

    /// Set the archive URL.
    pub fn set_archive_url(&mut self, archive_url: &ArchiveUrl) -> (r: &mut Self)
        ensures
            (*r).archive_url matches Some(u) && u@ == archive_url@,
            (*r).name == old(self).name,
            (*r).version == old(self).version,
            (*r).status == old(self).status,
            (*r).maintainer == old(self).maintainer,
            (*r).integrity == old(self).integrity,
            (*r).sig == old(self).sig,
            *final(self) == *final(r),
    {
        self.archive_url = Some(archive_url.clone());
        self
    }

    /// Set the integrity record from an algorithm name and an archive hash.
    pub fn set_integrity(&mut self, integrity_alg: &String, archive_hash: &Vec<u8>) -> (r:
        &mut Self)
        ensures
            (*r).integrity matches Some(i) && i@ == (PackageIntegrityModel {
                algorithm: integrity_alg@,
                archive_hash: archive_hash@,
            }),
            (*r).name == old(self).name,
            (*r).version == old(self).version,
            (*r).status == old(self).status,
            (*r).maintainer == old(self).maintainer,
            (*r).archive_url == old(self).archive_url,
            (*r).sig == old(self).sig,
            *final(self) == *final(r),
    {
        let integrity = PackageIntegrity {
            algorithm: integrity_alg.clone(),
            archive_hash: archive_hash.clone(),
        };
        self.integrity = Some(integrity);
        self
    }

    /// Attach a 64-byte signature.
    pub fn set_signature(&mut self, sig: &Vec<u8>) -> (r: &mut Self)
        requires
            sig@.len() == 64,
        ensures
            (*r).sig matches Some(s) && s@ == sig@,
            (*r).name == old(self).name,
            (*r).version == old(self).version,
            (*r).status == old(self).status,
            (*r).maintainer == old(self).maintainer,
            (*r).archive_url == old(self).archive_url,
            (*r).integrity == old(self).integrity,
            *final(self) == *final(r),
    {
        self.sig = Some(sig.clone());
        self
    }

    /// Build the package; every required field must have been set. The
    /// builder is reset afterwards.
    pub fn build(&mut self) -> (r: Package)
        requires
            old(self).complete(),
        ensures
            r@ == old(self).spec_package(),
            r@.wf(),
            final(self).name is None,
            final(self).version is None,
            final(self).status is None,
            final(self).maintainer is None,
            final(self).archive_url is None,
            final(self).integrity is None,
            final(self).sig is None,
    {
        let name = match &self.name {
            Some(n) => n.clone(),
            None => vstd::pervasive::unreached(),
        };
        let version = match &self.version {
            Some(v) => v.clone(),
            None => vstd::pervasive::unreached(),
        };
        let status = match &self.status {
            Some(s) => *s,
            None => vstd::pervasive::unreached(),
        };
        let maintainer = match &self.maintainer {
            Some(m) => m.clone(),
            None => vstd::pervasive::unreached(),
        };
        let archive_url = match &self.archive_url {
            Some(u) => u.clone(),
            None => vstd::pervasive::unreached(),
        };
        let integrity = match &self.integrity {
            Some(i) => i.clone(),
            None => vstd::pervasive::unreached(),
        };
        let sig = match &self.sig {
            Some(s) => Some(s.clone()),
            None => None,
        };
        proof {
            use_type_invariant(&archive_url);
            ArchiveUrl::lemma_inv_normalized(&archive_url);
        }
        let package = Package { name, version, status, maintainer, archive_url, integrity, sig };
        self.reset();
        package
    }
}

impl Default for PackageBuilder {
    fn default() -> (r: Self)
        ensures
            r.name is None,
            r.version is None,
            r.status is None,
            r.maintainer is None,
            r.archive_url is None,
            r.integrity is None,
            r.sig is None,
    {
        Self {
            name: None,
            version: None,
            status: None,
            maintainer: None,
            archive_url: None,
            integrity: None,
            sig: None,
        }
    }
}

} // verus!
