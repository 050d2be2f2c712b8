use vstd::prelude::*;

verus! {

use crate::package::{Package, PackageModel};
use crate::wire::{encode_wire_data, spec_wire_data};

/// What SHA-256 makes of a byte sequence: a function of the bytes alone.
pub uninterp spec fn sha256_of(data: Seq<u8>) -> Seq<u8>;

/// The Ed25519 verifying key derived from 32 secret key bytes.
pub uninterp spec fn ed25519_pubkey_of(sk: Seq<u8>) -> Seq<u8>;

/// The Ed25519 signature of a message under 32 secret key bytes.
pub uninterp spec fn ed25519_sign_of(sk: Seq<u8>, msg: Seq<u8>) -> Seq<u8>;

/// Whether strict Ed25519 verification accepts a signature over a message
/// under the given public key bytes.
pub uninterp spec fn ed25519_verifies(pk: Seq<u8>, msg: Seq<u8>, sig: Seq<u8>) -> bool;

/// Relies on `sha2::Sha256`: the 32-byte hash depends on the input bytes
/// alone.
#[verifier::external_body]
pub fn sha256(data: &Vec<u8>) -> (r: Vec<u8>)
    ensures
        r@ == sha256_of(data@),
        r@.len() == 32,
{
    let mut hasher = <sha2::Sha256 as sha2::Digest>::new();
    sha2::Digest::update(&mut hasher, data.as_slice());
    sha2::Digest::finalize(hasher).to_vec()
}

/// Relies on `ed25519_dalek::SigningKey::from_bytes` and `verifying_key`:
/// the verifying key depends on the 32 secret key bytes alone and is 32
/// bytes long.
#[verifier::external_body]
pub fn derive_verifying_key(sk: &Vec<u8>) -> (r: Vec<u8>)
    requires
        sk@.len() == 32,
    ensures
        r@ == ed25519_pubkey_of(sk@),
        r@.len() == 32,
{
    let mut buf = [0u8; 32];
    buf.copy_from_slice(sk.as_slice());
    let key = ed25519_dalek::SigningKey::from_bytes(&buf);
    key.verifying_key().to_bytes().to_vec()
}

/// Relies on `ed25519_dalek::SigningKey::sign`: Ed25519 signing is
/// deterministic, so the 64-byte signature depends on the secret key bytes
/// and the message alone, and `verify_strict` accepts it under the key
/// derived from those secret bytes.
#[verifier::external_body]
pub fn ed25519_sign(sk: &Vec<u8>, msg: &Vec<u8>) -> (r: Vec<u8>)
    requires
        sk@.len() == 32,
    ensures
        r@ == ed25519_sign_of(sk@, msg@),
        r@.len() == 64,
        ed25519_verifies(ed25519_pubkey_of(sk@), msg@, r@),
{
    let mut buf = [0u8; 32];
    buf.copy_from_slice(sk.as_slice());
    let key = ed25519_dalek::SigningKey::from_bytes(&buf);
    ed25519_dalek::Signer::sign(&key, msg.as_slice()).to_bytes().to_vec()
}

/// Relies on `ed25519_dalek::VerifyingKey::from_bytes` and `verify_strict`:
/// acceptance depends on the key bytes, the message and the signature
/// alone. Key bytes that are not 32 bytes long or parse to no valid key,
/// and signatures that are not 64 bytes long, verify nothing.
#[verifier::external_body]
pub fn ed25519_verify(pk: &Vec<u8>, msg: &Vec<u8>, sig: &Vec<u8>) -> (r: bool)
    ensures
        r == ed25519_verifies(pk@, msg@, sig@),
{
    let kbuf: [u8; 32] = match pk.as_slice().try_into() { Ok(b) => b, Err(_) => return false };
    let key = match ed25519_dalek::VerifyingKey::from_bytes(&kbuf) { Ok(k) => k, Err(_) => return false };
    let sbuf: [u8; 64] = match sig.as_slice().try_into() { Ok(b) => b, Err(_) => return false };
    let s = ed25519_dalek::Signature::from_bytes(&sbuf);
    key.verify_strict(msg.as_slice(), &s).is_ok()
}

/// The canonical digest of a package: SHA-256 over the six data elements
/// in wire form, without the signature.
pub open spec fn spec_digest(p: PackageModel) -> Seq<u8> {
    sha256_of(spec_wire_data(p))
}

/// Whether a package carries a signature that verifies over its canonical
/// digest under its own maintainer key.
pub open spec fn spec_verify(p: PackageModel) -> bool {
    p.sig matches Some(s) && ed25519_verifies(p.maintainer, spec_digest(p), s)
}

impl Package {
    /// The canonical digest of this package.
    pub fn compute_data_integrity(&self) -> (r: Vec<u8>)
        ensures
            r@ == spec_digest(self@),
            r@.len() == 32,
    {
        let data = encode_wire_data(self);
        sha256(&data)
    }
}

/// Sign a package: the detached 64-byte signature over its canonical
/// digest. A package signed with the key matching its own maintainer field
/// verifies.
pub fn sign_package(package: &Package, signing_key: &Vec<u8>) -> (r: Vec<u8>)
    requires
        signing_key@.len() == 32,
    ensures
        r@ == ed25519_sign_of(signing_key@, spec_digest(package@)),
        r@.len() == 64,
        ed25519_pubkey_of(signing_key@) == package@.maintainer ==> spec_verify(
            package@.with_sig(r@),
        ),
{
    let digest = package.compute_data_integrity();
    let sig = ed25519_sign(signing_key, &digest);
    proof {
        assert(spec_wire_data(package@.with_sig(sig@)) == spec_wire_data(package@));
    }
    sig
}

/// Verify a package's signature. Returns the package itself when the
/// signature verifies over the canonical digest under the embedded
/// maintainer key, and nothing otherwise: a missing signature, a
/// malformed key and a forged signature all yield nothing, never a panic.
pub fn verify_package<'a>(untrusted_package: &'a Package) -> (r: Option<&'a Package>)
    ensures
        match r {
            Some(p) => p == untrusted_package && spec_verify(untrusted_package@),
            None => !spec_verify(untrusted_package@),
        },
{
    let sig = match &untrusted_package.sig {
        Some(s) => s,
        None => {
            return None;
        },
    };
    let data_integrity = untrusted_package.compute_data_integrity();
    let passes = ed25519_verify(&untrusted_package.maintainer, &data_integrity, sig);
    if passes {
        Some(untrusted_package)
    } else {
        None
    }
}

} // verus!
