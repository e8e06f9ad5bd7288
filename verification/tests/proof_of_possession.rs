use base64::Engine;
use credo::cert_store::{leaf_fingerprint, stored_fingerprint};
use credo::pop::{pop_pem_to_der, verify_pop_cert, verify_pop_signature};
use credo::shepherd_auth::{csr_has_no_dns_sans, ApiError, IdentityCsrError};
use p256::ecdsa::signature::Signer;
use p256::pkcs8::DecodePrivateKey;
use sha2::Digest;

fn ca(name: &str) -> rcgen::Certificate {
    let mut params = rcgen::CertificateParams::new(Vec::new());
    let mut dn = rcgen::DistinguishedName::new();
    dn.push(rcgen::DnType::CommonName, name);
    params.distinguished_name = dn;
    params.is_ca = rcgen::IsCa::Ca(rcgen::BasicConstraints::Unconstrained);
    rcgen::Certificate::from_params(params).unwrap()
}

fn leaf(uri: &str) -> rcgen::Certificate {
    let mut params = rcgen::CertificateParams::new(Vec::new());
    let mut dn = rcgen::DistinguishedName::new();
    dn.push(rcgen::DnType::CommonName, "alice");
    params.distinguished_name = dn;
    params.subject_alt_names.push(rcgen::SanType::URI(uri.to_string()));
    rcgen::Certificate::from_params(params).unwrap()
}

fn der_of(pem_text: &str) -> Vec<u8> {
    pem::parse(pem_text).unwrap().into_contents()
}

#[test]
fn pop_chain_is_anchored_in_the_bundle() {
    let root = ca("Root");
    let inter1 = ca("Intermediate One");
    let inter2 = ca("Intermediate Two");
    let user = leaf("vigil://credo/admin/alice");
    let root_pem = root.serialize_pem().unwrap();
    let inter1_pem = inter1.serialize_pem_with_signer(&root).unwrap();
    let inter2_pem = inter2.serialize_pem_with_signer(&inter1).unwrap();
    let leaf_pem = user.serialize_pem_with_signer(&inter2).unwrap();
    let chain = format!("{leaf_pem}{inter2_pem}{inter1_pem}");
    assert_eq!(verify_pop_cert(&chain, &root_pem), Ok(()), "intermediates in any order are promoted");
    let short = format!("{leaf_pem}{inter2_pem}");
    assert_eq!(verify_pop_cert(&short, &root_pem), Err("Certificate not signed by any cert in client CA bundle".to_string()));
    assert_eq!(verify_pop_cert(&short, &format!("{root_pem}{inter1_pem}")), Ok(()));
    assert_eq!(verify_pop_cert("not pem", &root_pem), Err("pop.cert contains no parseable certificates".to_string()));
    let other = ca("Other Root");
    assert_eq!(
        verify_pop_cert(&chain, &other.serialize_pem().unwrap()),
        Err("Certificate not signed by any cert in client CA bundle".to_string())
    );
}

fn refusal(r: Result<(), ApiError>) -> String {
    match r {
        Err(ApiError::Unauthorized(m)) => m,
        Err(ApiError::BadRequest(m)) => panic!("expected unauthorized, got bad request {m}"),
        Ok(()) => panic!("expected a refusal"),
    }
}

#[test]
fn pop_signature_is_checked_with_the_certificate_key() {
    let root = ca("Root");
    let user = leaf("vigil://credo/admin/alice");
    let cert_pem = user.serialize_pem_with_signer(&root).unwrap();
    let cert_der = pop_pem_to_der(&cert_pem).unwrap();
    assert_eq!(cert_der, der_of(&cert_pem));
    let key = p256::ecdsa::SigningKey::from_pkcs8_pem(&user.serialize_private_key_pem()).unwrap();
    let uri = "vigil://credo/admin/alice";
    let at = "2030-01-01T00:00:00Z";
    let mut msg = vec![0x00u8, 0xff];
    msg.extend_from_slice(uri.as_bytes());
    msg.extend_from_slice(at.as_bytes());
    let sig: p256::ecdsa::Signature = key.sign(&msg);
    let sig_b64 = base64::engine::general_purpose::URL_SAFE_NO_PAD.encode(sig.to_der().as_bytes());
    assert!(verify_pop_signature(&cert_der, "00ff", uri, at, &sig_b64).is_ok());
    let sig_std = base64::engine::general_purpose::STANDARD.encode(sig.to_der().as_bytes());
    assert!(verify_pop_signature(&cert_der, "00ff", uri, at, &sig_std).is_ok());
    assert_eq!(
        refusal(verify_pop_signature(&cert_der, "00ff", "vigil://credo/admin/bob", at, &sig_b64)),
        "PoP signature verification failed: EC P-256 PoP signature mismatch"
    );
    assert_eq!(refusal(verify_pop_signature(&cert_der, "zz", uri, at, &sig_b64)), "PoP signature verification failed: Decoding PoP challenge hex");
    assert_eq!(refusal(verify_pop_signature(&cert_der, "00ff", uri, at, "!!")), "PoP signature verification failed: Decoding PoP signature base64");
    assert_eq!(
        refusal(verify_pop_signature(&cert_der, "00ff", uri, at, "AQID")),
        "PoP signature verification failed: Parsing DER-encoded PoP signature"
    );
    assert_eq!(refusal(verify_pop_signature(&[1, 2, 3], "00ff", uri, at, &sig_b64)), "PoP signature verification failed: Parsing cert DER");
}

#[test]
fn pop_certificate_must_be_the_first_section() {
    let root = ca("Root");
    let csr = leaf("vigil://credo/admin/alice").serialize_request_pem().unwrap();
    assert!(pop_pem_to_der(&csr).is_none());
    assert!(pop_pem_to_der("no pem here").is_none());
    assert!(pop_pem_to_der(&root.serialize_pem().unwrap()).is_some());
}

#[test]
fn identity_csrs_carry_no_dns_names() {
    let uri_only = leaf("vigil://credo/admin/alice").serialize_request_pem().unwrap();
    assert_eq!(csr_has_no_dns_sans(&uri_only), Ok(()));
    let mut params = rcgen::CertificateParams::new(vec!["host.credo.test".to_string()]);
    params.distinguished_name = rcgen::DistinguishedName::new();
    let with_dns = rcgen::Certificate::from_params(params).unwrap().serialize_request_pem().unwrap();
    let e = csr_has_no_dns_sans(&with_dns).unwrap_err();
    assert_eq!(e, IdentityCsrError::DnsSan);
    assert_eq!(
        e.message(),
        "CSR rejected: identity certs must not contain DNS SANs; use URI SANs (e.g. vigil://credo/admin/<name>) instead"
    );
    assert_eq!(csr_has_no_dns_sans("nothing"), Err(IdentityCsrError::NoCsr));
    assert_eq!(csr_has_no_dns_sans(&ca("Root").serialize_pem().unwrap()), Err(IdentityCsrError::NoCsr));
    let broken = "-----BEGIN CERTIFICATE REQUEST-----\n!!!!\n-----END CERTIFICATE REQUEST-----\n";
    assert_eq!(csr_has_no_dns_sans(broken).unwrap_err().message(), "CSR rejected: Reading CSR PEM");
    let junk = "-----BEGIN CERTIFICATE REQUEST-----\nAQID\n-----END CERTIFICATE REQUEST-----\n";
    assert_eq!(csr_has_no_dns_sans(junk), Err(IdentityCsrError::Unparsable));
}

#[test]
fn store_and_leaf_fingerprints() {
    let cert_pem = ca("Root").serialize_pem().unwrap();
    let digest = sha2::Sha256::digest(der_of(&cert_pem));
    let colon: Vec<String> = digest.iter().map(|b| format!("{b:02X}")).collect();
    assert_eq!(leaf_fingerprint(&cert_pem), Ok(colon.join(":")));
    assert_eq!(stored_fingerprint(&cert_pem), Some(hex::encode(digest).to_uppercase()));
    assert_eq!(leaf_fingerprint("nope"), Err("Could not parse cert PEM for fingerprint".to_string()));
    assert_eq!(stored_fingerprint("nope"), None);
}
