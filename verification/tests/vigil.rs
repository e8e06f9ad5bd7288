use base64::Engine;
use credo::dns_checks::{dns01_lookup_name, dns01_value, dns01_verdict, propagation_step, zones_to_ask, PropagationStep};
use credo::acme::{
    absolute, account_counter_from_id, base36, base_url, jwk_thumbprint, plan_new_order,
    validate_jws, JwsBody, JwsSigner, NonceStore, ProtectedHeader, RequestedIdentifier,
};
use credo::cert::{build_san_list, pem_armor_text, sign_csr};
use credo::openssl_db::{
    advance_serial, index_has_serial, mark_revoked_in_index, normalize_serial, serial_path,
    text_lines_of, to_openssl_subject,
};
use credo::policy::{
    extract_identifiers_from_csr, is_allowed_dns, is_ip_address, is_uri, normalize_dns,
    validate_issuance_policy, IssuancePolicyConfig, PolicyError,
};
use credo::responder::build_signed_crl_der;
use credo::revocation::{generate_crl, get_ocsp_status_by_cert_id, get_ocsp_status_by_serial};
use credo::signing::{load_signing_key, KeyAlgorithm};
use credo::storage;
use credo::types::{AcmeAccountRecord, AcmeRsaJwk, CertificateRecord, CertificatesDb, RootCAMetadata};

fn make_ca() -> (String, String) {
    let mut params = rcgen::CertificateParams::new(Vec::new());
    let mut dn = rcgen::DistinguishedName::new();
    dn.push(rcgen::DnType::CommonName, "Credo Test Intermediate CA");
    params.distinguished_name = dn;
    params.is_ca = rcgen::IsCa::Ca(rcgen::BasicConstraints::Unconstrained);
    let cert = rcgen::Certificate::from_params(params).unwrap();
    (cert.serialize_private_key_pem(), cert.serialize_pem().unwrap())
}

fn make_csr(cn: &str, dns: &[&str], uris: &[&str]) -> String {
    let mut params = rcgen::CertificateParams::new(dns.iter().map(|s| s.to_string()).collect::<Vec<_>>());
    let mut dn = rcgen::DistinguishedName::new();
    dn.push(rcgen::DnType::CommonName, cn);
    params.distinguished_name = dn;
    for u in uris {
        params.subject_alt_names.push(rcgen::SanType::URI(u.to_string()));
    }
    let cert = rcgen::Certificate::from_params(params).unwrap();
    cert.serialize_request_pem().unwrap()
}

fn policy() -> IssuancePolicyConfig {
    IssuancePolicyConfig {
        allowed_dns_suffixes: vec!["credo.test".to_string()],
        allow_subdomains: true,
        allow_bare_suffix: true,
        allowed_identity_uri_prefixes: vec!["vigil://credo/".to_string()],
        allow_ip_sans: false,
    }
}

fn cert_der(pem_text: &str) -> Vec<u8> {
    pem::parse(pem_text).unwrap().into_contents()
}

fn dummy_record(id: &str, serial: &str) -> CertificateRecord {
    CertificateRecord {
        id: id.to_string(),
        serial_number: serial.to_string(),
        subject: format!("CN={id}"),
        fingerprint256: format!("sha256:{id}"),
        valid_from: "2026-01-01T00:00:00Z".to_string(),
        valid_to: "2027-01-01T00:00:00Z".to_string(),
        cert_path: String::new(),
        issued_at: "2026-01-01T00:00:00Z".to_string(),
        issued_by: "test".to_string(),
        owner_vigil_user_id: "test".to_string(),
        issuing_acme_account_id: None,
        revoked: false,
        revoked_at: None,
        revoked_by: None,
        revoked_by_vigil_user_id: None,
        revoked_by_acme_account_id: None,
        revoked_via: None,
        revoke_reason: None,
    }
}

fn test_root() -> RootCAMetadata {
    RootCAMetadata {
        subject: "CN=Credo Test Intermediate CA".to_string(),
        serial_number: "01".to_string(),
        valid_from: "2026-01-01T00:00:00Z".to_string(),
        valid_to: "2036-01-01T00:00:00Z".to_string(),
        fingerprint256: "SHA256:00".to_string(),
        key_path: "intermediate-ca.key".to_string(),
        cert_path: "intermediate-ca.pem".to_string(),
    }
}

#[test]
fn sign_csr_rejects_policy_violation() {
    let csr = make_csr("attacker.evil.com", &["attacker.evil.com"], &[]);
    let result = validate_issuance_policy(&csr, &[], &policy());
    assert!(result.is_err(), "policy violation must return an error");
    let msg = result.unwrap_err().message();
    assert!(msg.contains("evil.com"), "error must mention the disallowed name");
}

#[test]
fn policy_accepts_names_under_allowed_suffixes() {
    let csr = make_csr("shepherd.credo.test", &["shepherd.credo.test"], &["vigil://credo/service/shepherd"]);
    assert!(validate_issuance_policy(&csr, &[], &policy()).is_ok());
}

#[test]
fn policy_lists_offending_names_sorted() {
    let csr = make_csr("b.evil.com", &["b.evil.com", "a.evil.com", "ok.credo.test"], &[]);
    match validate_issuance_policy(&csr, &[], &policy()) {
        Err(PolicyError::DnsOutsideSuffixes(names)) => assert_eq!(names, vec!["a.evil.com", "b.evil.com"]),
        _ => panic!("expected a DNS refusal"),
    }
}

#[test]
fn policy_refuses_ip_sans_first() {
    let csr = make_csr("x.evil.com", &["x.evil.com"], &[]);
    match validate_issuance_policy(&csr, &["10.0.0.1".to_string()], &policy()) {
        Err(e) => assert_eq!(e.message(), "IP SANs are not allowed by issuance policy: 10.0.0.1"),
        Ok(()) => panic!("expected an IP refusal"),
    }
}

#[test]
fn policy_refuses_foreign_identity_uri() {
    let csr = make_csr("a.credo.test", &["a.credo.test"], &["spiffe://other/x"]);
    match validate_issuance_policy(&csr, &[], &policy()) {
        Err(PolicyError::UrisOutsidePrefixes(uris)) => assert_eq!(uris, vec!["spiffe://other/x"]),
        _ => panic!("expected a URI refusal"),
    }
}

#[test]
fn unparseable_csr_carries_no_identifiers() {
    let ids = extract_identifiers_from_csr("not a csr");
    assert!(ids.dns_names.is_empty() && ids.uri_names.is_empty() && ids.ip_names.is_empty());
}

#[test]
fn policy_helpers_classify_names() {
    assert!(is_ip_address("192.168.1.1"));
    assert!(is_ip_address("::1"));
    assert!(!is_ip_address("1.2.3"));
    assert!(!is_ip_address("http://x"));
    assert!(is_uri("vigil://credo/x"));
    assert_eq!(normalize_dns("  WWW.Example.COM.. "), "www.example.com");
    let suffixes = vec!["credo.test".to_string()];
    assert!(is_allowed_dns("a.credo.test", &suffixes, true, false));
    assert!(!is_allowed_dns("credo.test", &suffixes, true, false));
    assert!(is_allowed_dns("credo.test", &suffixes, false, true));
    assert!(!is_allowed_dns("xcredo.test", &suffixes, true, true));
    assert!(is_allowed_dns("anything", &[], false, false));
}

#[test]
fn signed_cert_validates_against_test_ca() {
    let (key, ca) = make_ca();
    let csr = make_csr("shepherd.credo.test", &["shepherd.credo.test"], &["vigil://credo/service/shepherd"]);
    let signed = sign_csr(&csr, 30, None, &key, &ca, None).unwrap();
    assert!(signed.cert_pem.contains("BEGIN CERTIFICATE"));
    let der = cert_der(&signed.cert_pem);
    let (_, cert) = x509_parser::parse_x509_certificate(&der).unwrap();
    let issuer = cert.issuer().to_string();
    assert!(issuer.contains("Credo Test Intermediate CA"), "issuer must be test intermediate CA, got: {issuer}");
    assert!(signed.fullchain_pem.starts_with(&signed.cert_pem));
    assert_eq!(signed.id, signed.serial_number.to_lowercase());
    assert!(signed.fingerprint256.starts_with("SHA256:"));
}

#[test]
fn signed_cert_preserves_dns_sans() {
    let (key, ca) = make_ca();
    let csr = make_csr("sub.credo.test", &["sub.credo.test", "alt.credo.test"], &[]);
    let signed = sign_csr(&csr, 1, None, &key, &ca, None).unwrap();
    let der = cert_der(&signed.cert_pem);
    let (_, cert) = x509_parser::parse_x509_certificate(&der).unwrap();
    let san = cert.subject_alternative_name().unwrap().unwrap();
    let mut dns: Vec<String> = Vec::new();
    for n in &san.value.general_names {
        if let x509_parser::extensions::GeneralName::DNSName(d) = n {
            dns.push(d.to_string());
        }
    }
    assert!(dns.contains(&"sub.credo.test".to_string()));
    assert!(dns.contains(&"alt.credo.test".to_string()));
}

#[test]
fn signed_cert_preserves_uri_sans() {
    let (key, ca) = make_ca();
    let csr = make_csr("corgi-01.credo.test", &["corgi-01.credo.test"], &["vigil://credo/node/corgi-01"]);
    let signed = sign_csr(&csr, 1, None, &key, &ca, None).unwrap();
    let der = cert_der(&signed.cert_pem);
    let (_, cert) = x509_parser::parse_x509_certificate(&der).unwrap();
    let san = cert.subject_alternative_name().unwrap().unwrap();
    let mut found = false;
    for n in &san.value.general_names {
        if let x509_parser::extensions::GeneralName::URI(u) = n {
            found = found || *u == "vigil://credo/node/corgi-01";
        }
    }
    assert!(found, "signed cert must carry identity URI SAN");
}

#[test]
fn serial_numbers_are_unique_across_calls() {
    let (key, ca) = make_ca();
    let csr = make_csr("a.credo.test", &["a.credo.test"], &[]);
    let s1 = sign_csr(&csr, 1, None, &key, &ca, None).unwrap();
    let s2 = sign_csr(&csr, 1, None, &key, &ca, None).unwrap();
    assert_ne!(s1.serial_number, s2.serial_number);
}

#[test]
fn signed_cert_validity_matches_requested_days() {
    let (key, ca) = make_ca();
    let csr = make_csr("v.credo.test", &["v.credo.test"], &[]);
    let short = sign_csr(&csr, 1, None, &key, &ca, None).unwrap();
    let long_ = sign_csr(&csr, 90, None, &key, &ca, None).unwrap();
    let not_after = |pem_text: &str| {
        let der = cert_der(pem_text);
        let (_, c) = x509_parser::parse_x509_certificate(&der).unwrap();
        c.validity().not_after.timestamp()
    };
    assert!(not_after(&long_.cert_pem) > not_after(&short.cert_pem));
}

#[test]
fn sign_csr_uses_given_serial_and_extra_sans() {
    let (key, ca) = make_ca();
    let csr = make_csr("e.credo.test", &["e.credo.test"], &[]);
    let extras = vec![" extra.credo.test ".to_string(), "e.credo.test".to_string()];
    let signed = sign_csr(&csr, 5, Some(extras.as_slice()), &key, &ca, Some("0abc12".to_string())).unwrap();
    assert_eq!(signed.serial_number, "ABC12");
    let der = cert_der(&signed.cert_pem);
    let (_, cert) = x509_parser::parse_x509_certificate(&der).unwrap();
    let san = cert.subject_alternative_name().unwrap().unwrap();
    let mut dns: Vec<String> = Vec::new();
    for n in &san.value.general_names {
        if let x509_parser::extensions::GeneralName::DNSName(d) = n {
            dns.push(d.to_string());
        }
    }
    assert_eq!(dns, vec!["e.credo.test", "extra.credo.test"]);
}

#[test]
fn sign_csr_reports_bad_inputs() {
    let (key, ca) = make_ca();
    assert!(sign_csr("garbage", 1, None, &key, &ca, None).is_err());
    let csr = make_csr("a.credo.test", &["a.credo.test"], &[]);
    assert!(sign_csr(&csr, 1, None, "not a key", &ca, None).is_err());
    assert!(sign_csr(&csr, 1, None, &key, "not a cert", None).is_err());
}

#[test]
fn san_list_adds_common_name_and_extras_once() {
    let csr_sans = vec!["a.test".to_string(), "a.test".to_string()];
    let extras = vec![" b.test ".to_string(), "".to_string(), "a.test".to_string()];
    let list = build_san_list(&csr_sans, &Some(" c.test".to_string()), Some(extras.as_slice()));
    assert_eq!(list, vec!["a.test", "a.test", "c.test", "b.test"]);
}

#[test]
fn pem_armor_wraps_at_64_characters() {
    let der = vec![0u8; 60];
    let text = pem_armor_text("TEST", &der);
    let lines: Vec<&str> = text.lines().collect();
    assert_eq!(lines[0], "-----BEGIN TEST-----");
    assert_eq!(lines[1].len(), 64);
    assert_eq!(lines[2].len(), 16);
    assert_eq!(lines[3], "-----END TEST-----");
}

#[test]
fn signing_key_loads_p256_pkcs8() {
    let (key, _) = make_ca();
    let k = load_signing_key(&key).unwrap();
    assert_eq!(k.algorithm, KeyAlgorithm::EcdsaP256);
    assert_eq!(k.sig_alg_oid(), "1.2.840.10045.4.3.2");
    let oid = credo::der::encode_oid(k.sig_alg_oid());
    assert_eq!(k.sig_alg_identifier_der(), credo::der::der_sequence(&oid));
    assert!(load_signing_key("nope").is_err());
}

#[test]
fn signed_crl_lists_revoked_serials() {
    let (key, ca) = make_ca();
    let mut db = CertificatesDb { certificates: Vec::new() };
    storage::issue_certificate_record(&mut db, dummy_record("a", "0a"), String::new());
    storage::issue_certificate_record(&mut db, dummy_record("b", "0b"), String::new());
    storage::revoke_certificate(&mut db, "b", "admin", "keyCompromise", None, None, None);
    let der = build_signed_crl_der(24, &db, &key, &ca).unwrap();
    let (_, crl) = x509_parser::parse_x509_crl(&der).unwrap();
    let serials: Vec<String> = crl.iter_revoked_certificates().map(|r| r.raw_serial_as_string()).collect();
    assert_eq!(serials, vec!["0b"]);
}

#[test]
fn ocsp_good_status_for_active_cert() {
    let mut db = CertificatesDb { certificates: Vec::new() };
    storage::issue_certificate_record(&mut db, dummy_record("c1", "ff10"), String::new());
    let by_id = get_ocsp_status_by_cert_id(&db, "c1", 60);
    assert_eq!(by_id.status, "good");
    assert!(by_id.next_update > by_id.this_update, "nextUpdate must be after thisUpdate");
    let by_serial = get_ocsp_status_by_serial(&db, "ff10", 60);
    assert_eq!(by_serial.status, "good");
}

#[test]
fn ocsp_revoked_status_after_revocation() {
    let mut db = CertificatesDb { certificates: Vec::new() };
    storage::issue_certificate_record(&mut db, dummy_record("c2", "aa01"), String::new());
    storage::revoke_certificate(&mut db, "c2", "admin", "superseded", Some("admin".to_string()), None, Some("api".to_string()));
    let ocsp = get_ocsp_status_by_cert_id(&db, "c2", 60);
    assert_eq!(ocsp.status, "revoked");
    assert!(ocsp.revoked_at.is_some(), "revokedAt must be populated");
    assert_eq!(ocsp.revoke_reason.as_deref(), Some("superseded"));
}

#[test]
fn crl_contains_only_revoked_certs() {
    let mut db = CertificatesDb { certificates: Vec::new() };
    storage::issue_certificate_record(&mut db, dummy_record("active", "0001"), String::new());
    storage::issue_certificate_record(&mut db, dummy_record("revoked", "0002"), String::new());
    storage::revoke_certificate(&mut db, "revoked", "admin", "keyCompromise", None, None, None);
    let crl = generate_crl(&db, &test_root(), 24);
    assert_eq!(crl.revoked_certificates.len(), 1);
    assert_eq!(crl.revoked_certificates[0].certificate_id, "revoked");
}

#[test]
fn crl_is_empty_when_nothing_revoked() {
    let mut db = CertificatesDb { certificates: Vec::new() };
    storage::issue_certificate_record(&mut db, dummy_record("active", "0001"), String::new());
    let crl = generate_crl(&db, &test_root(), 24);
    assert!(crl.revoked_certificates.is_empty());
}

#[test]
fn issue_and_retrieve_cert_record() {
    let mut db = CertificatesDb { certificates: Vec::new() };
    let stored = storage::issue_certificate_record(&mut db, dummy_record("cert-a", "AABB"), "certs/cert-a.pem".to_string());
    assert_eq!(stored.id, "cert-a");
    assert!(!stored.cert_path.is_empty(), "cert_path must be populated");
    let fetched = storage::get_certificate_record(&db, "cert-a");
    assert!(fetched.is_some(), "must be retrievable by ID");
    assert_eq!(fetched.unwrap().serial_number, "AABB");
}

#[test]
fn find_cert_by_serial_normalizes_hex() {
    let mut db = CertificatesDb { certificates: Vec::new() };
    storage::issue_certificate_record(&mut db, dummy_record("cert-b", "00abcd"), String::new());
    let r1 = storage::find_certificate_by_serial(&db, "00abcd");
    assert!(r1.is_some());
    let r2 = storage::find_certificate_by_serial(&db, "00AbCd");
    assert!(r2.is_some());
    assert_eq!(r1.unwrap().id, r2.unwrap().id);
    assert!(storage::find_certificate_by_serial(&db, "abcd").is_some());
}

#[test]
fn revoke_cert_updates_stats() {
    let mut db = CertificatesDb { certificates: Vec::new() };
    storage::issue_certificate_record(&mut db, dummy_record("c1", "01"), String::new());
    storage::issue_certificate_record(&mut db, dummy_record("c2", "02"), String::new());
    assert_eq!(storage::certificate_stats(&db), (2, 0, 2));
    let updated = storage::revoke_certificate(&mut db, "c1", "tester", "keyCompromise", Some("tester".to_string()), None, Some("api".to_string()));
    let updated = updated.unwrap();
    assert!(updated.revoked);
    assert_eq!(updated.revoke_reason.as_deref(), Some("keyCompromise"));
    assert!(updated.revoked_at.is_some());
    assert_eq!(storage::certificate_stats(&db), (2, 1, 1));
}

#[test]
fn list_certificate_records_returns_all() {
    let mut db = CertificatesDb { certificates: Vec::new() };
    for i in 1u8..=3 {
        storage::issue_certificate_record(&mut db, dummy_record(&format!("cert-{i}"), &format!("{i:02x}")), String::new());
    }
    let records = storage::list_certificate_records(&db);
    assert_eq!(records.len(), 3);
    assert_eq!(records[0].id, "cert-1");
    assert_eq!(records[2].id, "cert-3");
}

#[test]
fn base36_counts_in_lowercase_digits() {
    assert_eq!(base36(0), "0");
    assert_eq!(base36(35), "z");
    assert_eq!(base36(36), "10");
    assert_eq!(base36(u64::MAX), "3w5e11264sgsf");
}

#[test]
fn account_counter_reads_back_base36() {
    for n in [0u64, 1, 35, 36, 123_456_789, u64::MAX] {
        assert_eq!(account_counter_from_id(&format!("acct-{}", base36(n))), n);
    }
    assert_eq!(account_counter_from_id("acct-ZZ"), 35 * 36 + 35);
    assert_eq!(account_counter_from_id("order-1"), 0);
    assert_eq!(account_counter_from_id("acct-!"), 0);
}

#[test]
fn urls_join_scheme_host_and_path() {
    assert_eq!(base_url("vigil.test", "https"), "https://vigil.test");
    assert_eq!(absolute("vigil.test", "https", "/acme/order/1"), "https://vigil.test/acme/order/1");
}

#[test]
fn jwk_thumbprint_matches_rfc7638_example() {
    let jwk = AcmeRsaJwk {
        kty: "RSA".into(),
        n: "0vx7agoebGcQSuuPiLJXZptN9nndrQmbXEps2aiAFbWhM78LhWx4cbbfAAtVT86zwu1RK7aPFFxuhDR1L6tSoc_BJECPebWKRXjBZCiFV4n3oknjhMstn64tZ_2W-5JsGY4Hc5n9yBXArwl93lqt7_RN5w6Cf0h4QyQ5v-65YGjQR0_FDW2QvzqY368QQMicAtaSqzs8KJZgnYb9c7d0zgdAZHzu6qMQvRL5hajrn1n91CbOpbISD08qNLyrdkt-bFTWhAI4vMQFh6WeZu0fM4lFd2NcRwr3XPksINHaQ-G_xBniIqbw0Ls1jF44-csFCur-kEgU8awapJzKnqDKgw".into(),
        e: "AQAB".into(),
        crv: String::new(),
        x: String::new(),
        y: String::new(),
    };
    assert_eq!(jwk_thumbprint(&jwk), "NzbLsXh8uDCcd-6MNwXF4W_7noWXFZAfHkxZsRGC9Xs");
}

fn header(nonce: &str, alg: &str, kid: Option<&str>, jwk: Option<AcmeRsaJwk>) -> ProtectedHeader {
    ProtectedHeader { nonce: nonce.into(), alg: alg.into(), kid: kid.map(String::from), jwk }
}

fn body() -> JwsBody {
    JwsBody { protected_b64: "e30".into(), payload_b64: "".into(), signature_b64: "AAAA".into() }
}

#[test]
fn jws_checks_nonce_before_anything_else() {
    let mut nonces = NonceStore { nonces: vec!["n1".to_string()] };
    let accounts: Vec<AcmeAccountRecord> = Vec::new();
    let r = validate_jws(&mut nonces, &accounts, Some(body()), Some(header("n2", "ES256", Some("acct-1"), None)), true, true, false, None);
    match r {
        Err(p) => {
            assert_eq!(p.status, 400);
            assert_eq!(p.kind, "badNonce");
            let fresh = p.replay_nonce.expect("a bad nonce is answered with a fresh one");
            assert_eq!(nonces.nonces, vec!["n1".to_string(), fresh.clone()], "the fresh nonce is handed out");
            assert_eq!(base64::engine::general_purpose::URL_SAFE_NO_PAD.decode(&fresh).unwrap().len(), 16);
        },
        Ok(_) => panic!("unknown nonce must be refused"),
    }
    nonces.nonces.truncate(1);
    let r = validate_jws(&mut nonces, &accounts, Some(body()), Some(header("n1", "ES256", Some("https://v/acme/acct/acct-9"), None)), true, true, false, None);
    match r {
        Err(p) => assert_eq!(p.kind, "accountDoesNotExist"),
        Ok(_) => panic!("unknown account must be refused"),
    }
    assert!(nonces.nonces.is_empty(), "the nonce is used up");
}

#[test]
fn jws_nonce_is_refused_on_replay() {
    let mut nonces = NonceStore { nonces: vec!["n1".to_string(), "n2".to_string()] };
    let accounts: Vec<AcmeAccountRecord> = Vec::new();
    let first = validate_jws(&mut nonces, &accounts, Some(body()), Some(header("n1", "ES256", Some("https://v/acme/acct/acct-9"), None)), true, true, false, None);
    match first {
        Err(p) => assert_eq!(p.kind, "accountDoesNotExist"),
        Ok(_) => panic!("unknown account must be refused"),
    }
    assert_eq!(nonces.nonces, vec!["n2".to_string()]);
    let again = validate_jws(&mut nonces, &accounts, Some(body()), Some(header("n1", "ES256", Some("acct-1"), None)), true, true, false, None);
    match again {
        Err(p) => assert_eq!(p.kind, "badNonce"),
        Ok(_) => panic!("a used nonce must be refused"),
    }
}

#[test]
fn jws_refuses_both_kid_and_jwk() {
    let mut nonces = NonceStore { nonces: vec!["n".to_string()] };
    let accounts: Vec<AcmeAccountRecord> = Vec::new();
    let jwk = AcmeRsaJwk { kty: "RSA".into(), n: "AQAB".into(), e: "AQAB".into(), crv: String::new(), x: String::new(), y: String::new() };
    let r = validate_jws(&mut nonces, &accounts, Some(body()), Some(header("n", "RS256", Some("acct-1"), Some(jwk))), true, false, false, None);
    match r {
        Err(p) => assert_eq!(p.detail, "protected header must contain either kid or jwk, not both"),
        Ok(JwsSigner::Jwk(..)) | Ok(JwsSigner::Account(..)) => panic!("must be refused"),
    }
}

#[test]
fn new_order_plans_ids_and_statuses() {
    let raw = vec![
        RequestedIdentifier { id_type: "dns".into(), value: " a.credo.test ".into() },
        RequestedIdentifier { id_type: "ip".into(), value: "10.0.0.1".into() },
        RequestedIdentifier { id_type: "dns".into(), value: "b.credo.test".into() },
    ];
    let tokens = vec!["t1".to_string(), "t2".to_string(), "t3".to_string()];
    let plan = plan_new_order(&raw, Some(" HTTP-01 ".to_string()), None, false, &vec![80], 35, &tokens, &"thumb".to_string(), &"acct-1".to_string(), &"later".to_string()).unwrap();
    assert_eq!(plan.order.id, "order-10");
    assert_eq!(plan.order.status, "pending");
    assert_eq!(plan.order.authz_ids, vec!["authz-11", "authz-13"]);
    assert_eq!(plan.order.finalize_path, "/acme/order/order-10/finalize");
    assert_eq!(plan.challenges[1].id, "chall-14");
    assert_eq!(plan.challenges[0].key_authorization, "t1.thumb");
    assert_eq!(plan.authzs[1].identifier.value, "b.credo.test");
    assert_eq!(plan.counter, 40);
    let refused = plan_new_order(&raw, Some("none-01".to_string()), None, false, &vec![80], 0, &tokens, &"t".to_string(), &"a".to_string(), &"e".to_string());
    match refused {
        Err(p) => assert_eq!(p.detail, "none-01 validation is not permitted"),
        Ok(_) => panic!("none-01 must be refused"),
    }
    let port = plan_new_order(&raw, Some("dns-01".to_string()), Some(7080), false, &vec![80], 0, &tokens, &"t".to_string(), &"a".to_string(), &"e".to_string());
    match port {
        Err(p) => assert_eq!(p.kind, "unauthorized"),
        Ok(_) => panic!("port must be refused"),
    }
}

#[test]
fn openssl_serials_normalize_and_advance() {
    assert_eq!(normalize_serial(" ab c "), "0ABC");
    assert_eq!(normalize_serial("1F"), "1F");
    assert_eq!(advance_serial("0FFF\n").unwrap(), ("0FFF".to_string(), "1000".to_string()));
    assert_eq!(advance_serial("09").unwrap(), ("09".to_string(), "0A".to_string()));
    assert!(advance_serial("zz").is_err());
    assert_eq!(serial_path("/ca"), "/ca/serial");
    assert_eq!(serial_path("/ca/"), "/ca/serial");
}

#[test]
fn openssl_index_marks_revoked() {
    let content = "V\t2501\t\t0A\tunknown\t/CN=x\nV\t2501\t\t0B\tunknown\t/CN=y\n";
    let (updated, found) = mark_revoked_in_index(content, "a", "250101000000Z");
    assert!(found);
    assert_eq!(updated, "R\t2501\t250101000000Z\t0A\tunknown\t/CN=x\nV\t2501\t\t0B\tunknown\t/CN=y");
    let (same, none) = mark_revoked_in_index(content, "0c", "250101000000Z");
    assert!(!none);
    assert_eq!(same, "V\t2501\t\t0A\tunknown\t/CN=x\nV\t2501\t\t0B\tunknown\t/CN=y");
    assert!(index_has_serial(content, "b"));
    assert!(!index_has_serial(content, "c"));
    assert_eq!(text_lines_of("a\r\nb\n\nc\r"), vec!["a", "b", "", "c\r"]);
    assert_eq!(to_openssl_subject("CN=a\n O=b \n\n"), "/CN=a/O=b");
}

#[test]
fn der_encodings_match_known_bytes() {
    assert_eq!(credo::ocsp::build_ocsp_error_response(1), vec![0x30, 0x03, 0x0a, 0x01, 0x01]);
    assert_eq!(credo::der::der_integer_hex("0x00ff"), vec![0x02, 0x02, 0x00, 0xff]);
    assert_eq!(credo::der::der_integer_bytes(&[0, 0, 1]), vec![0x02, 0x01, 0x01]);
    assert_eq!(credo::der::encode_oid("1.2.840.113549.1.1.11"), vec![0x06, 0x09, 0x2a, 0x86, 0x48, 0x86, 0xf7, 0x0d, 0x01, 0x01, 0x0b]);
    assert_eq!(credo::der::der_sequence(&[0u8; 200]).len(), 203);
}

#[test]
fn api_signing_checks_request_then_policy() {
    let (key, ca) = make_ca();
    let csr = make_csr("a.credo.test", &["a.credo.test"], &[]);
    let refused = |r: Result<credo::issuance::SignedForUser, String>| r.err().unwrap();
    assert_eq!(refused(credo::issuance::sign_certificate(None, None, 30, None, &policy(), &key, &ca, None, "u1")), "csrPem is required.");
    assert_eq!(refused(credo::issuance::sign_certificate(Some("  ".into()), None, 30, None, &policy(), &key, &ca, None, "u1")), "csrPem is required.");
    assert_eq!(refused(credo::issuance::sign_certificate(Some(csr.clone()), Some(0), 30, None, &policy(), &key, &ca, None, "u1")), "days must be a positive number.");
    assert_eq!(
        refused(credo::issuance::sign_certificate(Some(csr.clone()), None, 30, Some(vec!["evil.example".into()]), &policy(), &key, &ca, None, "u1")),
        "DNS names are outside allowed issuance policy suffixes: evil.example"
    );
    let done = credo::issuance::sign_certificate(Some(csr), None, 30, Some(vec![" ".into(), "b.credo.test".into()]), &policy(), &key, &ca, Some("0A".into()), "u1")
        .unwrap();
    assert_eq!(done.signed.id, "a");
    assert_eq!(done.record.issued_by, "u1");
    assert_eq!(done.record.owner_vigil_user_id, "u1");
    let der = cert_der(&done.signed.cert_pem);
    let (_, parsed) = x509_parser::parse_x509_certificate(&der).unwrap();
    let mut names: Vec<String> = Vec::new();
    for n in &parsed.subject_alternative_name().unwrap().unwrap().value.general_names {
        if let x509_parser::extensions::GeneralName::DNSName(d) = n {
            names.push(d.to_string());
        }
    }
    assert!(names.contains(&"b.credo.test".to_string()));
    assert!(names.contains(&"a.credo.test".to_string()));
}

#[test]
fn dns_checks_pick_zones_and_values() {
    assert_eq!(zones_to_ask("_acme-challenge.a.credo.test.", false), vec!["_acme-challenge.a.credo.test", "a.credo.test", "credo.test"]);
    assert_eq!(zones_to_ask("a.credo.test", true), vec!["a.credo.test.", "credo.test."]);
    assert!(zones_to_ask("localhost", true).is_empty());
    assert_eq!(dns01_lookup_name("a.credo.test.."), "_acme-challenge.a.credo.test.");
    // SHA-256("abc") in URL-safe Base64 without padding
    assert_eq!(dns01_value("abc"), "ungWv48Bz-pBQUDeXa4iI7ADYaOWF3qctBD_YfIAFa0");
    assert!(dns01_verdict(&vec![false, true]));
    assert!(!dns01_verdict(&vec![]));
    assert!(matches!(propagation_step(1, &vec![true, true]), PropagationStep::Propagated));
    assert!(matches!(propagation_step(1, &vec![true, false]), PropagationStep::WaitAndRetry));
    assert!(matches!(propagation_step(100, &vec![false]), PropagationStep::TimedOut));
}

#[test]
fn api_revocation_checks_ownership() {
    let mut db = CertificatesDb { certificates: vec![dummy_record("c1", "0A"), dummy_record("c2", "0B")] };
    db.certificates[1].owner_vigil_user_id = "alice".into();
    match credo::issuance::revoke_for_user(&mut db, "c9", "alice", credo::types::Role::Readonly, None) {
        Err(credo::issuance::RevokeRefusal::NotFound(m)) => assert_eq!(m, "Certificate not found."),
        _ => panic!("unexpected outcome"),
    }
    match credo::issuance::revoke_for_user(&mut db, "c1", "alice", credo::types::Role::Readonly, None) {
        Err(credo::issuance::RevokeRefusal::Forbidden(m)) => assert_eq!(m, "Certificate does not belong to authenticated user."),
        _ => panic!("unexpected outcome"),
    }
    let mine = credo::issuance::revoke_for_user(&mut db, "c2", "alice", credo::types::Role::Readonly, Some(" ".into())).unwrap();
    assert_eq!(mine.revoke_reason.as_deref(), Some("unspecified"));
    assert_eq!(mine.revoked_via.as_deref(), Some("api-user"));
    assert_eq!(mine.revoked_by_vigil_user_id.as_deref(), Some("alice"));
    let admin = credo::issuance::revoke_for_user(&mut db, "c1", "root", credo::types::Role::Admin, Some("keyCompromise".into())).unwrap();
    assert_eq!(admin.revoked_by.as_deref(), Some("root"));
    assert!(db.certificates.iter().all(|c| c.revoked));
}

#[test]
fn vigil_settings_defaults() {
    let ca = credo::settings::ca_settings(None, Some(90), None, None);
    assert_eq!((ca.curve.as_str(), ca.cert_default_days, ca.crl_next_update_hours, ca.ocsp_max_age_seconds), ("P-384", 90, 24, 60));
    let p = credo::settings::issuance_policy_from(Some(vec!["credo.test".into()]), None, Some(false), None, None);
    assert_eq!(p.allowed_dns_suffixes, vec!["credo.test".to_string()]);
    assert!(p.allow_subdomains && !p.allow_bare_suffix && !p.allow_ip_sans);
    let c = credo::settings::challenge_settings(None, None, None, Some(5));
    assert_eq!((c.allow_none_validation, c.allowed_http_challenge_ports.clone(), c.challenge_check_count, c.challenge_check_interval_secs), (false, vec![80], 5, 5));
    let id = credo::settings::rbac_identity(3, Some("  vigil://credo/a ".into()), credo::types::Role::Readonly, Some(" ".into())).ok().unwrap();
    assert_eq!(id.uri, "vigil://credo/a");
    assert!(id.name.is_none());
    assert_eq!(
        credo::settings::rbac_identity(12, Some(" ".into()), credo::types::Role::Admin, None).err().unwrap(),
        "rbacIdentities[12].uri must be a non-empty string"
    );
    assert_eq!(credo::settings::decimal(0), "0");
    assert_eq!(credo::settings::decimal(40960), "40960");
}
