use vstd::prelude::*;

verus! {

/// Mathematical value of a [`PackageIntegrity`].
pub ghost struct PackageIntegrityModel {
    pub algorithm: Seq<char>,
    pub archive_hash: Seq<u8>,
}

/// How the archive behind a package's URL can be checked: the name of a
/// hash algorithm and the expected hash of the archive.
#[derive(Debug, PartialEq, Eq)]
pub struct PackageIntegrity {
    pub algorithm: String,
    pub archive_hash: Vec<u8>,
}

impl View for PackageIntegrity {
    type V = PackageIntegrityModel;

    open spec fn view(&self) -> PackageIntegrityModel {
        PackageIntegrityModel { algorithm: self.algorithm@, archive_hash: self.archive_hash@ }
    }
}

impl Clone for PackageIntegrity {
    fn clone(&self) -> (r: Self)
        ensures
            r@ == self@,
    {
        PackageIntegrity {
            algorithm: self.algorithm.clone(),
            archive_hash: self.archive_hash.clone(),
        }
    }
}

/// Step-by-step constructor for [`PackageIntegrity`].
pub struct PackageIntegrityBuilder {
    pub algorithm: Option<String>,
    pub archive_hash: Option<Vec<u8>>,
}

impl PackageIntegrityBuilder {
    /// Clear both fields.
    pub fn reset(&mut self) -> (r: &Self)
        ensures
            final(self).algorithm is None,
            final(self).archive_hash is None,
            *r == *final(self),
    {
        self.algorithm = None;
        self.archive_hash = None;
        self
    }

    /// Start from a stored integrity document: the hash text is decoded
    /// from hex. A corrupt document is rejected rather than trusted.
    pub fn from_document(document: &crate::documents::PackageIntegrityDocument) -> (r: Result<
        PackageIntegrityBuilder,
        crate::errors::CodecError,
    >)
        ensures
            match r {
                Ok(b) => ({
                    &&& crate::hexutil::spec_hex_decode(document@.archive_hash) is Some
                    &&& b.algorithm matches Some(a) && a@ == document@.algorithm
                    &&& b.archive_hash matches Some(h) && Some(h@) == crate::hexutil::spec_hex_decode(
                        document@.archive_hash,
                    )
                }),
                Err(e) => crate::hexutil::spec_hex_decode(document@.archive_hash) is None && e
                    == crate::errors::CodecError::MalformedStructure,
            },
    {
        let decoded_archive_hash = match crate::hexutil::decode_hex(&document.archive_hash) {
            Some(h) => h,
            None => {
                return Err(crate::errors::CodecError::MalformedStructure);
            },
        };
        Ok(
            Self {
                algorithm: Some(document.algorithm.clone()),
                archive_hash: Some(decoded_archive_hash),
            },
        )
    }

    /// Start from the fields of an existing integrity record.
    pub fn from_package_integrity(package_integrity: &PackageIntegrity) -> (r: Self)
        ensures
            r.algorithm matches Some(a) && a@ == package_integrity@.algorithm,
            r.archive_hash matches Some(h) && h@ == package_integrity@.archive_hash,
    {
        Self {
            algorithm: Some(package_integrity.algorithm.clone()),
            archive_hash: Some(package_integrity.archive_hash.clone()),
        }
    }

    /// Set the algorithm name.
    pub fn set_algorithm(&mut self, algorithm: &String) -> (r: &mut Self)
        ensures
            (*r).algorithm matches Some(a) && a@ == algorithm@,
            (*r).archive_hash == old(self).archive_hash,
            *final(self) == *final(r),
    {
        self.algorithm = Some(algorithm.clone());
        self
    }

    /// Set the archive hash.
    pub fn set_archive_hash(&mut self, archive_hash: &Vec<u8>) -> (r: &mut Self)
        ensures
            (*r).algorithm == old(self).algorithm,
            (*r).archive_hash matches Some(h) && h@ == archive_hash@,
            *final(self) == *final(r),
    {
        self.archive_hash = Some(archive_hash.clone());
        self
    }

    /// Build the record; both fields must have been set. The builder is
    /// reset afterwards.
    pub fn build(&mut self) -> (r: PackageIntegrity)
        requires
            old(self).algorithm is Some,
            old(self).archive_hash is Some,
        ensures
            r@.algorithm == old(self).algorithm->Some_0@,
            r@.archive_hash == old(self).archive_hash->Some_0@,
            final(self).algorithm is None,
            final(self).archive_hash is None,
    {
        let algorithm = match &self.algorithm {
            Some(a) => a.clone(),
            None => vstd::pervasive::unreached(),
        };
        let archive_hash = match &self.archive_hash {
            Some(h) => h.clone(),
            None => vstd::pervasive::unreached(),
        };
        let package_integrity = PackageIntegrity { algorithm, archive_hash };
        self.reset();
        package_integrity
    }
}

impl Default for PackageIntegrityBuilder {
    fn default() -> (r: Self)
        ensures
            r.algorithm is None,
            r.archive_hash is None,
    {
        Self { algorithm: None, archive_hash: None }
    }
}

} // verus!
