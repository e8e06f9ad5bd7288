//! Shepherd's side of an ACME account: the key its cached account is found
//! under, the contact a new account registers, the external-account-binding
//! key, and which client identity the connection to the CA presents.
use crate::codec::{base64_std_decode, base64_std_decode_bytes, base64_url_decode, base64_url_decode_bytes};
use vstd::prelude::*;

verus! {

/// The key an account is cached under: the CA's name and directory URL.
pub fn account_cache_key(ca_name: &str, directory_url: &str) -> (k: String)
    ensures
        k@ == ca_name@ + "|"@ + directory_url@,
{
    let mut k = String::new();
    k.append(ca_name);
    k.append("|");
    k.append(directory_url);
    k
}

/// The contact a new account registers (`mailto:` and the configured
/// e-mail address), which is required.
pub fn account_contact(ca_name: &str, email: Option<&str>) -> (r: Result<String, String>)
    ensures
        match email {
            Some(e) => r matches Ok(c) && c@ == "mailto:"@ + e@,
            None => r matches Err(m) && m@ == "CA '"@ + ca_name@ + "': accountEmail is required"@,
        },
{
    match email {
        Some(e) => {
            let mut c = String::new();
            c.append("mailto:");
            c.append(e);
            Ok(c)
        },
        None => {
            let mut m = String::new();
            m.append("CA '");
            m.append(ca_name);
            m.append("': accountEmail is required");
            Err(m)
        },
    }
}

/// The external-account-binding HMAC key: its text as unpadded URL-safe
/// Base64, else as standard Base64.
pub fn eab_key_bytes(hmac_key: &str) -> (r: Result<Vec<u8>, String>)
    ensures
        match base64_url_decode(hmac_key@) {
            Some(b) => r matches Ok(v) && v@ == b,
            None => match base64_std_decode(hmac_key@) {
                Some(b) => r matches Ok(v) && v@ == b,
                None => r matches Err(m) && m@ == "Decoding EAB HMAC key (expected base64url)"@,
            },
        },
{
    match base64_url_decode_bytes(hmac_key) {
        Some(v) => Ok(v),
        None => match base64_std_decode_bytes(hmac_key) {
            Some(v) => Ok(v),
            None => Err("Decoding EAB HMAC key (expected base64url)".to_owned()),
        },
    }
}

/// What reading a file gave: its bytes, no such file, or another failure
/// (each failure with the error's text).
pub enum FileRead {
    Read(Vec<u8>),
    Missing(String),
    Failed(String),
}

/// A client certificate chain and key, as PEM bytes.
pub struct ClientIdentity {
    pub cert_pem: Vec<u8>,
    pub key_pem: Vec<u8>,
}

/// The identity the connection to an ACME CA presents. Where the CA entry
/// names both a client certificate and a key (`files`, with what reading each
/// gave), they are used once both were read; a certificate not on disk yet
/// falls back to the identity Shepherd bootstrapped with (if any); any other
/// failure to read is an error naming the file. Where the entry names no such
/// pair, the bootstrap identity (if any) is used.
pub fn client_identity(
    files: Option<(&str, FileRead, &str, FileRead)>,
    fallback: Option<ClientIdentity>,
) -> (r: Result<Option<ClientIdentity>, String>)
    ensures
        match files {
            None => r == Ok::<Option<ClientIdentity>, String>(fallback),
            Some((cert_path, cert, key_path, key)) => match (cert, key) {
                (FileRead::Read(c), FileRead::Read(k)) => r matches Ok(Some(id)) && id.cert_pem@ == c@ && id.key_pem@ == k@,
                (FileRead::Missing(_), _) => r == Ok::<Option<ClientIdentity>, String>(fallback),
                (FileRead::Failed(e), _) => r matches Err(m) && m@ == "Reading ACME client cert "@ + cert_path@ + ": "@ + e@,
                (FileRead::Read(_), FileRead::Missing(e)) => r matches Err(m) && m@ == "Reading ACME client key "@ + key_path@ + ": "@ + e@,
                (FileRead::Read(_), FileRead::Failed(e)) => r matches Err(m) && m@ == "Reading ACME client key "@ + key_path@ + ": "@ + e@,
            },
        },
{
    match files {
        None => Ok(fallback),
        Some((cert_path, cert, key_path, key)) => match cert {
            FileRead::Missing(_) => Ok(fallback),
            FileRead::Failed(e) => {
                let mut m = String::new();
                m.append("Reading ACME client cert ");
                m.append(cert_path);
                m.append(": ");
                m.append(e.as_str());
                Err(m)
            },
            FileRead::Read(c) => match key {
                FileRead::Read(k) => Ok(Some(ClientIdentity { cert_pem: c, key_pem: k })),
                FileRead::Missing(e) | FileRead::Failed(e) => {
                    let mut m = String::new();
                    m.append("Reading ACME client key ");
                    m.append(key_path);
                    m.append(": ");
                    m.append(e.as_str());
                    Err(m)
                },
            },
        },
    }
}

} // verus!
