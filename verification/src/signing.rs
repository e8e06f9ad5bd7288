//! The CA's signing key: ECDSA over P-256 or P-384 (RFC 6979 nonces, DER
//! signatures), or RSA PKCS#1 v1.5 with SHA-256. Key parsing and signing are
//! the `p256`, `p384` and `rsa` crates' work; which key a PEM text yields, and
//! how a key is named on the wire, is the library's.
use crate::der::{der_sequence, spec_der_tlv};
use p256::ecdsa::signature::{SignatureEncoding, Signer};
use pkcs8::{DecodePrivateKey, EncodePrivateKey};
use vstd::prelude::*;

verus! {

pub open spec fn opt_bytes(o: Option<Vec<u8>>) -> Option<Seq<u8>> {
    match o {
        Some(v) => Some(v@),
        None => None,
    }
}

/// Name for the secret scalar of a P-384 key in PKCS#8 PEM, if it parses.
pub uninterp spec fn p384_pkcs8_scalar(pem: Seq<char>) -> Option<Seq<u8>>;

/// Name for the secret scalar of a P-256 key in PKCS#8 PEM, if it parses.
pub uninterp spec fn p256_pkcs8_scalar(pem: Seq<char>) -> Option<Seq<u8>>;

/// Name for the PKCS#8 DER of an RSA key in PKCS#8 PEM, if it parses.
pub uninterp spec fn rsa_pkcs8_document(pem: Seq<char>) -> Option<Seq<u8>>;

/// Name for the secret scalar of a P-384 key in SEC1 PEM, if it parses.
pub uninterp spec fn p384_sec1_scalar(pem: Seq<char>) -> Option<Seq<u8>>;

/// Name for the secret scalar of a P-256 key in SEC1 PEM, if it parses.
pub uninterp spec fn p256_sec1_scalar(pem: Seq<char>) -> Option<Seq<u8>>;

/// Name for the DER ECDSA-P-256 signature (RFC 6979) of `data` under a scalar.
pub uninterp spec fn p256_signature(scalar: Seq<u8>, data: Seq<u8>) -> Option<Seq<u8>>;

/// Name for the DER ECDSA-P-384 signature (RFC 6979) of `data` under a scalar.
pub uninterp spec fn p384_signature(scalar: Seq<u8>, data: Seq<u8>) -> Option<Seq<u8>>;

/// Name for the PKCS#1 v1.5 SHA-256 signature of `data` under an RSA key (PKCS#8 DER).
pub uninterp spec fn rsa_signature(document: Seq<u8>, data: Seq<u8>) -> Option<Seq<u8>>;

/// `p384::SecretKey::from_pkcs8_pem(..)`, then `to_bytes()`.
#[verifier::external_body]
fn p384_from_pkcs8(pem: &str) -> (res: Option<Vec<u8>>)
    ensures
        opt_bytes(res) == p384_pkcs8_scalar(pem@),
{
    p384::SecretKey::from_pkcs8_pem(pem).ok().map(|k| k.to_bytes().to_vec())
}

/// `p256::SecretKey::from_pkcs8_pem(..)`, then `to_bytes()`.
#[verifier::external_body]
fn p256_from_pkcs8(pem: &str) -> (res: Option<Vec<u8>>)
    ensures
        opt_bytes(res) == p256_pkcs8_scalar(pem@),
{
    p256::SecretKey::from_pkcs8_pem(pem).ok().map(|k| k.to_bytes().to_vec())
}

/// `rsa::RsaPrivateKey::from_pkcs8_pem(..)`, then `to_pkcs8_der()`.
#[verifier::external_body]
fn rsa_from_pkcs8(pem: &str) -> (res: Option<Vec<u8>>)
    ensures
        opt_bytes(res) == rsa_pkcs8_document(pem@),
{
    let key = rsa::RsaPrivateKey::from_pkcs8_pem(pem).ok()?;
    key.to_pkcs8_der().ok().map(|d| d.as_bytes().to_vec())
}

/// `p384::SecretKey::from_sec1_pem(..)`, then `to_bytes()`.
#[verifier::external_body]
fn p384_from_sec1(pem: &str) -> (res: Option<Vec<u8>>)
    ensures
        opt_bytes(res) == p384_sec1_scalar(pem@),
{
    p384::SecretKey::from_sec1_pem(pem).ok().map(|k| k.to_bytes().to_vec())
}

/// `p256::SecretKey::from_sec1_pem(..)`, then `to_bytes()`.
#[verifier::external_body]
fn p256_from_sec1(pem: &str) -> (res: Option<Vec<u8>>)
    ensures
        opt_bytes(res) == p256_sec1_scalar(pem@),
{
    p256::SecretKey::from_sec1_pem(pem).ok().map(|k| k.to_bytes().to_vec())
}

/// `p256::ecdsa::SigningKey::from_slice(scalar)`, then `try_sign` into a `DerSignature`.
#[verifier::external_body]
fn p256_sign(scalar: &[u8], data: &[u8]) -> (res: Option<Vec<u8>>)
    ensures
        opt_bytes(res) == p256_signature(scalar@, data@),
{
    let key = p256::ecdsa::SigningKey::from_slice(scalar).ok()?;
    let sig: p256::ecdsa::DerSignature = key.try_sign(data).ok()?;
    Some(sig.as_bytes().to_vec())
}

/// `p384::ecdsa::SigningKey::from_slice(scalar)`, then `try_sign` into a `DerSignature`.
#[verifier::external_body]
fn p384_sign(scalar: &[u8], data: &[u8]) -> (res: Option<Vec<u8>>)
    ensures
        opt_bytes(res) == p384_signature(scalar@, data@),
{
    let key = p384::ecdsa::SigningKey::from_slice(scalar).ok()?;
    let sig: p384::ecdsa::DerSignature = key.try_sign(data).ok()?;
    Some(sig.as_bytes().to_vec())
}

/// `rsa::RsaPrivateKey::from_pkcs8_der(..)` into a `pkcs1v15::SigningKey<Sha256>`,
/// then `try_sign` and `to_bytes()`.
#[verifier::external_body]
fn rsa_sign(document: &[u8], data: &[u8]) -> (res: Option<Vec<u8>>)
    ensures
        opt_bytes(res) == rsa_signature(document@, data@),
{
    let key = rsa::RsaPrivateKey::from_pkcs8_der(document).ok()?;
    let signer = rsa::pkcs1v15::SigningKey::<sha2::Sha256>::new(key);
    let sig = signer.try_sign(data).ok()?;
    Some(sig.to_bytes().to_vec())
}

#[derive(Debug, Clone, Copy, PartialEq, Eq, Structural)]
pub enum KeyAlgorithm {
    EcdsaP256,
    EcdsaP384,
    Rsa,
}

/// A CA signing key: its algorithm and key material (the secret scalar for
/// ECDSA, the PKCS#8 DER for RSA).
pub struct CaSigningKey {
    pub algorithm: KeyAlgorithm,
    pub material: Vec<u8>,
}

/// Why a key could not be loaded or could not sign.
#[derive(Debug, Clone, Copy, PartialEq, Eq, Structural)]
pub enum SigningError {
    UnsupportedKey,
    SigningFailed,
}

impl SigningError {
    pub fn message(&self) -> (s: String)
        ensures
            s@ == (match self {
                SigningError::UnsupportedKey => "Failed to load CA signing key from PEM \u{2014} supported types: ECDSA P-256/P-384, RSA"@,
                SigningError::SigningFailed => "Signing failed"@,
            }),
    {
        match self {
            SigningError::UnsupportedKey => String::from_str(
                "Failed to load CA signing key from PEM \u{2014} supported types: ECDSA P-256/P-384, RSA",
            ),
            SigningError::SigningFailed => String::from_str("Signing failed"),
        }
    }
}

/// The key a PEM text yields: PKCS#8 P-384 first, then PKCS#8 P-256, PKCS#8
/// RSA, SEC1 P-384, SEC1 P-256.
pub open spec fn loaded_key(pem: Seq<char>) -> Option<(KeyAlgorithm, Seq<u8>)> {
    if p384_pkcs8_scalar(pem) is Some {
        Some((KeyAlgorithm::EcdsaP384, p384_pkcs8_scalar(pem)->0))
    } else if p256_pkcs8_scalar(pem) is Some {
        Some((KeyAlgorithm::EcdsaP256, p256_pkcs8_scalar(pem)->0))
    } else if rsa_pkcs8_document(pem) is Some {
        Some((KeyAlgorithm::Rsa, rsa_pkcs8_document(pem)->0))
    } else if p384_sec1_scalar(pem) is Some {
        Some((KeyAlgorithm::EcdsaP384, p384_sec1_scalar(pem)->0))
    } else if p256_sec1_scalar(pem) is Some {
        Some((KeyAlgorithm::EcdsaP256, p256_sec1_scalar(pem)->0))
    } else {
        None
    }
}

/// The signature a key gives `data`, if signing succeeds.
pub open spec fn key_signature(algorithm: KeyAlgorithm, material: Seq<u8>, data: Seq<u8>) -> Option<Seq<u8>> {
    match algorithm {
        KeyAlgorithm::EcdsaP256 => p256_signature(material, data),
        KeyAlgorithm::EcdsaP384 => p384_signature(material, data),
        KeyAlgorithm::Rsa => rsa_signature(material, data),
    }
}

/// The dotted OID of each algorithm's signature scheme.
pub open spec fn spec_sig_alg_oid(algorithm: KeyAlgorithm) -> Seq<char> {
    match algorithm {
        KeyAlgorithm::EcdsaP256 => "1.2.840.10045.4.3.2"@,
        KeyAlgorithm::EcdsaP384 => "1.2.840.10045.4.3.3"@,
        KeyAlgorithm::Rsa => "1.2.840.113549.1.1.11"@,
    }
}

/// The AlgorithmIdentifier DER of each scheme: the OID alone for ECDSA, the OID
/// and NULL for RSA.
pub open spec fn spec_sig_alg_identifier(algorithm: KeyAlgorithm) -> Seq<u8> {
    match algorithm {
        KeyAlgorithm::EcdsaP256 => spec_der_tlv(
            0x30,
            seq![0x06u8, 0x08, 0x2a, 0x86, 0x48, 0xce, 0x3d, 0x04, 0x03, 0x02],
        ),
        KeyAlgorithm::EcdsaP384 => spec_der_tlv(
            0x30,
            seq![0x06u8, 0x08, 0x2a, 0x86, 0x48, 0xce, 0x3d, 0x04, 0x03, 0x03],
        ),
        KeyAlgorithm::Rsa => spec_der_tlv(
            0x30,
            seq![0x06u8, 0x09, 0x2a, 0x86, 0x48, 0x86, 0xf7, 0x0d, 0x01, 0x01, 0x0b, 0x05, 0x00],
        ),
    }
}

impl CaSigningKey {
    pub fn sig_alg_oid(&self) -> (s: &'static str)
        ensures
            s@ == spec_sig_alg_oid(self.algorithm),
    {
        match self.algorithm {
            KeyAlgorithm::EcdsaP256 => "1.2.840.10045.4.3.2",
            KeyAlgorithm::EcdsaP384 => "1.2.840.10045.4.3.3",
            KeyAlgorithm::Rsa => "1.2.840.113549.1.1.11",
        }
    }

    pub fn sig_alg_identifier_der(&self) -> (out: Vec<u8>)
        ensures
            out@ == spec_sig_alg_identifier(self.algorithm),
    {
        let content: Vec<u8> = match self.algorithm {
            KeyAlgorithm::EcdsaP256 => vec![0x06, 0x08, 0x2a, 0x86, 0x48, 0xce, 0x3d, 0x04, 0x03, 0x02],
            KeyAlgorithm::EcdsaP384 => vec![0x06, 0x08, 0x2a, 0x86, 0x48, 0xce, 0x3d, 0x04, 0x03, 0x03],
            KeyAlgorithm::Rsa => vec![0x06, 0x09, 0x2a, 0x86, 0x48, 0x86, 0xf7, 0x0d, 0x01, 0x01, 0x0b, 0x05, 0x00],
        };
        proof {
            match self.algorithm {
                KeyAlgorithm::EcdsaP256 => assert(content@ =~= seq![0x06u8, 0x08, 0x2a, 0x86, 0x48, 0xce, 0x3d, 0x04, 0x03, 0x02]),
                KeyAlgorithm::EcdsaP384 => assert(content@ =~= seq![0x06u8, 0x08, 0x2a, 0x86, 0x48, 0xce, 0x3d, 0x04, 0x03, 0x03]),
                KeyAlgorithm::Rsa => assert(content@ =~= seq![0x06u8, 0x09, 0x2a, 0x86, 0x48, 0x86, 0xf7, 0x0d, 0x01, 0x01, 0x0b, 0x05, 0x00]),
            }
        }
        der_sequence(content.as_slice())
    }

    /// The signature of `data` under this key.
    pub fn sign(&self, data: &[u8]) -> (res: Result<Vec<u8>, SigningError>)
        ensures
            match res {
                Ok(sig) => key_signature(self.algorithm, self.material@, data@) == Some(sig@),
                Err(e) => key_signature(self.algorithm, self.material@, data@) is None && e
                    == SigningError::SigningFailed,
            },
    {
        let sig = match self.algorithm {
            KeyAlgorithm::EcdsaP256 => p256_sign(self.material.as_slice(), data),
            KeyAlgorithm::EcdsaP384 => p384_sign(self.material.as_slice(), data),
            KeyAlgorithm::Rsa => rsa_sign(self.material.as_slice(), data),
        };
        match sig {
            Some(s) => Ok(s),
            None => Err(SigningError::SigningFailed),
        }
    }
}

/// Loads the CA signing key from PEM, trying the formats in the order of `loaded_key`.
pub fn load_signing_key(pem: &str) -> (res: Result<CaSigningKey, SigningError>)
    ensures
        match res {
            Ok(k) => loaded_key(pem@) == Some((k.algorithm, k.material@)),
            Err(e) => loaded_key(pem@) is None && e == SigningError::UnsupportedKey,
        },
{
    if let Some(m) = p384_from_pkcs8(pem) {
        return Ok(CaSigningKey { algorithm: KeyAlgorithm::EcdsaP384, material: m });
    }
    if let Some(m) = p256_from_pkcs8(pem) {
        return Ok(CaSigningKey { algorithm: KeyAlgorithm::EcdsaP256, material: m });
    }
    if let Some(m) = rsa_from_pkcs8(pem) {
        return Ok(CaSigningKey { algorithm: KeyAlgorithm::Rsa, material: m });
    }
    if let Some(m) = p384_from_sec1(pem) {
        return Ok(CaSigningKey { algorithm: KeyAlgorithm::EcdsaP384, material: m });
    }
    if let Some(m) = p256_from_sec1(pem) {
        return Ok(CaSigningKey { algorithm: KeyAlgorithm::EcdsaP256, material: m });
    }
    Err(SigningError::UnsupportedKey)
}

} // verus!
