use base64::Engine;
use credo::acme_flow::{
    check_finalize, complete_order, download_cert, finalize_order, get_account, get_authz, mark_challenge,
    new_account, order_response, respond_challenge, revoke_cert, settle_finalized, ChallengeAnswer, ValidationAction,
    ValidationEvent, ValidationRun,
};
use credo::policy::IssuancePolicyConfig;
use credo::types::{
    AcmeAccountRecord, AcmeAuthz, AcmeChallenge, AcmeIdentifier, AcmeOrder, AcmeRsaJwk, CertificateRecord,
    CertificatesDb,
};

fn flow_ca() -> (String, String) {
    let mut params = rcgen::CertificateParams::new(Vec::new());
    let mut dn = rcgen::DistinguishedName::new();
    dn.push(rcgen::DnType::CommonName, "Credo Flow Test CA");
    params.distinguished_name = dn;
    params.is_ca = rcgen::IsCa::Ca(rcgen::BasicConstraints::Unconstrained);
    let cert = rcgen::Certificate::from_params(params).unwrap();
    (cert.serialize_private_key_pem(), cert.serialize_pem().unwrap())
}

fn flow_csr_der(dns: &[&str]) -> Vec<u8> {
    let mut params = rcgen::CertificateParams::new(dns.iter().map(|s| s.to_string()).collect::<Vec<_>>());
    let mut dn = rcgen::DistinguishedName::new();
    dn.push(rcgen::DnType::CommonName, dns[0]);
    params.distinguished_name = dn;
    let cert = rcgen::Certificate::from_params(params).unwrap();
    cert.serialize_request_der().unwrap()
}

fn b64url(bytes: &[u8]) -> String {
    base64::engine::general_purpose::URL_SAFE_NO_PAD.encode(bytes)
}

fn flow_policy() -> IssuancePolicyConfig {
    IssuancePolicyConfig {
        allowed_dns_suffixes: vec!["credo.test".to_string()],
        allow_subdomains: true,
        allow_bare_suffix: true,
        allowed_identity_uri_prefixes: Vec::new(),
        allow_ip_sans: false,
    }
}

fn ident(v: &str) -> AcmeIdentifier {
    AcmeIdentifier { id_type: "dns".to_string(), value: v.to_string() }
}

fn flow_order(id: &str, account: &str, status: &str, authz_ids: &[&str], values: &[&str]) -> AcmeOrder {
    AcmeOrder {
        id: id.to_string(),
        account_id: account.to_string(),
        status: status.to_string(),
        expires: "2030-01-01T00:00:00Z".to_string(),
        identifiers: values.iter().map(|v| ident(v)).collect(),
        authz_ids: authz_ids.iter().map(|s| s.to_string()).collect(),
        finalize_path: format!("/acme/order/{id}/finalize"),
        certificate_path: None,
    }
}

fn flow_authz(id: &str, order: &str, value: &str, status: &str) -> AcmeAuthz {
    AcmeAuthz {
        id: id.to_string(),
        order_id: order.to_string(),
        identifier: ident(value),
        status: status.to_string(),
        challenge_ids: Vec::new(),
    }
}

fn flow_challenge(id: &str, authz: &str, order: &str, method: &str, status: &str) -> AcmeChallenge {
    AcmeChallenge {
        id: id.to_string(),
        authz_id: authz.to_string(),
        order_id: order.to_string(),
        challenge_type: method.to_string(),
        validation_method: method.to_string(),
        status: status.to_string(),
        token: format!("tok-{id}"),
        key_authorization: format!("tok-{id}.thumb"),
        http_challenge_port: 80,
    }
}

fn flow_record(id: &str, serial: &str, acme_account: Option<&str>, issued_by: &str) -> CertificateRecord {
    CertificateRecord {
        id: id.to_string(),
        serial_number: serial.to_string(),
        subject: format!("CN={id}"),
        fingerprint256: format!("sha256:{id}"),
        valid_from: "2026-01-01T00:00:00Z".to_string(),
        valid_to: "2027-01-01T00:00:00Z".to_string(),
        cert_path: String::new(),
        issued_at: "2026-01-01T00:00:00Z".to_string(),
        issued_by: issued_by.to_string(),
        owner_vigil_user_id: "u1".to_string(),
        issuing_acme_account_id: acme_account.map(|s| s.to_string()),
        revoked: false,
        revoked_at: None,
        revoked_by: None,
        revoked_by_vigil_user_id: None,
        revoked_by_acme_account_id: None,
        revoked_via: None,
        revoke_reason: None,
    }
}

fn flow_tables(method: &str, status: &str) -> (Vec<AcmeChallenge>, Vec<AcmeAuthz>, Vec<AcmeOrder>) {
    (
        vec![flow_challenge("chall-1", "authz-1", "order-1", method, status)],
        vec![flow_authz("authz-1", "order-1", "a.credo.test", "pending")],
        vec![flow_order("order-1", "acct-1", "pending", &["authz-1"], &["a.credo.test"])],
    )
}

fn refused_detail(a: ChallengeAnswer) -> (u16, String) {
    match a {
        ChallengeAnswer::Refused(p) => (p.status, p.detail),
        ChallengeAnswer::Replied(..) => panic!("expected a refusal"),
    }
}

#[test]
fn challenge_response_refuses_unknown_and_foreign() {
    let (mut c, mut a, mut o) = flow_tables("http-01", "pending");
    let r = respond_challenge(&mut c, &mut a, &mut o, "chall-9", Some("acct-1".into()), false, "h", "https");
    assert_eq!(refused_detail(r), (404, "challenge not found".to_string()));
    let r = respond_challenge(&mut c, &mut a, &mut o, "chall-1", Some("acct-2".into()), false, "h", "https");
    assert_eq!(refused_detail(r), (403, "challenge does not belong to account".to_string()));
    let r = respond_challenge(&mut c, &mut a, &mut o, "chall-1", None, false, "h", "https");
    assert_eq!(refused_detail(r), (403, "challenge does not belong to account".to_string()));
    assert_eq!(c[0].status, "pending");
}

#[test]
fn none_validation_needs_permission_and_readies_order() {
    let (mut c, mut a, mut o) = flow_tables("none-01", "pending");
    let r = respond_challenge(&mut c, &mut a, &mut o, "chall-1", Some("acct-1".into()), false, "h", "https");
    assert_eq!(refused_detail(r), (403, "none-01 validation is not permitted".to_string()));
    let r = respond_challenge(&mut c, &mut a, &mut o, "chall-1", Some("acct-1".into()), true, "ca.test", "https");
    match r {
        ChallengeAnswer::Replied(reply, job) => {
            assert_eq!(reply.status, "valid");
            assert_eq!(reply.url, "https://ca.test/acme/challenge/chall-1");
            assert_eq!(reply.token, "tok-chall-1");
            assert!(job.is_none());
        },
        ChallengeAnswer::Refused(p) => panic!("refused: {}", p.detail),
    }
    assert_eq!(c[0].status, "valid");
    assert_eq!(a[0].status, "valid");
    assert_eq!(o[0].status, "ready");
}

#[test]
fn http_challenge_starts_processing_once() {
    let (mut c, mut a, mut o) = flow_tables("http-01", "pending");
    match respond_challenge(&mut c, &mut a, &mut o, "chall-1", Some("acct-1".into()), false, "h", "http") {
        ChallengeAnswer::Replied(reply, Some(job)) => {
            assert_eq!(reply.status, "processing");
            assert_eq!(job.domain, "a.credo.test");
            assert_eq!(job.challenge.status, "pending");
            assert_eq!(job.challenge.key_authorization, "tok-chall-1.thumb");
        },
        _ => panic!("a validation must start"),
    }
    assert_eq!(c[0].status, "processing");
    match respond_challenge(&mut c, &mut a, &mut o, "chall-1", Some("acct-1".into()), false, "h", "http") {
        ChallengeAnswer::Replied(reply, None) => assert_eq!(reply.status, "processing"),
        _ => panic!("a settled challenge is only reported"),
    }
}

#[test]
fn failed_validation_invalidates_order() {
    let (mut c, mut a, mut o) = flow_tables("dns-01", "processing");
    mark_challenge(&mut c, &mut a, &mut o, "chall-1", "authz-1", "order-1", false);
    assert_eq!(c[0].status, "invalid");
    assert_eq!(a[0].status, "invalid");
    assert_eq!(o[0].status, "invalid");
}

#[test]
fn validation_run_polls_checks_and_gives_up() {
    let (run, act) = ValidationRun::start(0);
    assert_eq!(run.attempt, 0);
    assert!(matches!(act, ValidationAction::Finish(Some(false))));
    let (run, act) = ValidationRun::start(2);
    assert!(matches!(act, ValidationAction::Poll));
    let (run, act) = run.step(ValidationEvent::Status(Some("processing".to_string())));
    assert!(matches!(act, ValidationAction::Check));
    let (run, act) = run.step(ValidationEvent::Checked(false));
    assert_eq!(run.attempt, 1);
    assert!(matches!(act, ValidationAction::WaitThenPoll));
    let (_, act) = run.step(ValidationEvent::Status(Some("valid".to_string())));
    assert!(matches!(act, ValidationAction::Finish(None)));
    let (_, act) = run.step(ValidationEvent::Status(None));
    assert!(matches!(act, ValidationAction::Finish(None)));
    let (_, act) = run.step(ValidationEvent::Checked(true));
    assert!(matches!(act, ValidationAction::Finish(Some(true))));
    let (last, act) = run.step(ValidationEvent::Checked(false));
    assert_eq!(last.attempt, 2);
    assert!(matches!(act, ValidationAction::Finish(Some(false))));
}

#[test]
fn finalize_checks_come_in_order() {
    let orders = vec![
        flow_order("order-1", "acct-1", "pending", &["authz-1"], &["a.credo.test"]),
        flow_order("order-2", "acct-1", "ready", &["authz-2"], &["b.credo.test"]),
    ];
    let detail = |r: Result<credo::acme_flow::FinalizeRequest, credo::acme::AcmeProblem>| match r {
        Err(p) => (p.status, p.kind, p.detail),
        Ok(_) => panic!("expected a refusal"),
    };
    let acct = Some("acct-1".to_string());
    assert_eq!(detail(check_finalize(&orders, "order-9", &acct, "x")), (404, "malformed".into(), "order not found".into()));
    assert_eq!(detail(check_finalize(&orders, "order-2", &None, "x")).0, 403);
    assert_eq!(detail(check_finalize(&orders, "order-1", &acct, "x")), (400, "orderNotReady".into(), "order is not ready for finalize".into()));
    assert_eq!(detail(check_finalize(&orders, "order-2", &acct, "")), (400, "malformed".into(), "csr is required".into()));
    assert_eq!(detail(check_finalize(&orders, "order-2", &acct, "***")), (400, "badCSR".into(), "invalid CSR base64url".into()));
    let ok = check_finalize(&orders, "order-2", &acct, &b64url(&[1, 2, 3])).unwrap();
    assert_eq!(ok.index, 1);
    assert_eq!(ok.sans, vec!["b.credo.test".to_string()]);
    assert_eq!(ok.csr_pem, "-----BEGIN CERTIFICATE REQUEST-----\nAQID\n-----END CERTIFICATE REQUEST-----\n");
}

#[test]
fn finalize_signs_and_completes_order() {
    let (key, ca) = flow_ca();
    let mut orders = vec![flow_order("order-1", "acct-1", "ready", &["authz-1"], &["a.credo.test"])];
    let jwk = AcmeRsaJwk { kty: "EC".into(), n: String::new(), e: String::new(), crv: "P-256".into(), x: "x".into(), y: "y".into() };
    let accounts = vec![AcmeAccountRecord {
        id: "acct-1".into(),
        status: "valid".into(),
        vigil_user_id: "user-7".into(),
        contact: Vec::new(),
        orders: Vec::new(),
        jwk_thumbprint: "t".into(),
        public_jwk: jwk,
    }];
    let csr = b64url(&flow_csr_der(&["a.credo.test"]));
    let acct = Some("acct-1".to_string());
    let done = finalize_order(&orders, &accounts, "order-1", &acct, &csr, Some(30), 365, &flow_policy(), &key, &ca, Some("1F".into()))
        .unwrap_or_else(|p| panic!("{}", p.detail));
    assert_eq!(done.signed.id, "1f");
    assert_eq!(done.record.issued_by, "acme:acct-1");
    assert_eq!(done.record.owner_vigil_user_id, "user-7");
    assert_eq!(done.record.issuing_acme_account_id.as_deref(), Some("acct-1"));
    assert!(!done.record.revoked);
    let mut unstored = vec![flow_order("order-1", "acct-1", "ready", &["authz-1"], &["a.credo.test"])];
    match settle_finalized(&mut unstored, "order-1", &done, false) {
        Err(p) => assert_eq!((p.status, p.kind.as_str(), p.detail.as_str()), (500, "badCSR", "failed to store certificate")),
        Ok(()) => panic!("a record that was not stored fails the request"),
    }
    assert_eq!(unstored[0].status, "ready");
    assert!(settle_finalized(&mut orders, "order-1", &done, true).is_ok());
    assert_eq!(orders[0].status, "valid");
    assert_eq!(orders[0].certificate_path.as_deref(), Some("/acme/cert/1f"));
    let reply = order_response(&orders[0], "ca.test", "https");
    assert_eq!(reply.authorizations, vec!["https://ca.test/acme/authz/authz-1".to_string()]);
    assert_eq!(reply.finalize, "https://ca.test/acme/order/order-1/finalize");
    assert_eq!(reply.certificate.as_deref(), Some("https://ca.test/acme/cert/1f"));
}

#[test]
fn finalize_refuses_names_outside_policy() {
    let (key, ca) = flow_ca();
    let orders = vec![flow_order("order-1", "acct-1", "valid", &["authz-1"], &["evil.example"])];
    let csr = b64url(&flow_csr_der(&["evil.example"]));
    let acct = Some("acct-1".to_string());
    match finalize_order(&orders, &Vec::new(), "order-1", &acct, &csr, None, 30, &flow_policy(), &key, &ca, None) {
        Err(p) => {
            assert_eq!((p.status, p.kind.as_str()), (400, "badCSR"));
            assert_eq!(p.detail, "DNS names are outside allowed issuance policy suffixes: evil.example");
        },
        Ok(_) => panic!("policy must refuse"),
    }
    let bad = b64url(b"not a csr");
    match finalize_order(&orders, &Vec::new(), "order-1", &acct, &bad, Some((1u64 << 32) + 30), 365, &IssuancePolicyConfig {
        allowed_dns_suffixes: Vec::new(),
        allow_subdomains: true,
        allow_bare_suffix: true,
        allowed_identity_uri_prefixes: Vec::new(),
        allow_ip_sans: true,
    }, &key, &ca, None) {
        Err(p) => assert_eq!(p.detail, "Extracting CSR fields"),
        Ok(_) => panic!("garbage must not sign"),
    }
}

#[test]
fn acme_revoke_checks_owner_and_records_who() {
    let mut db = CertificatesDb {
        certificates: vec![
            flow_record("c1", "0A", Some("acct-1"), "acme:acct-1"),
            flow_record("c2", "0B", None, "acme:acct-2"),
        ],
    };
    match revoke_cert(&mut db, Some(" c2 ".into()), None, None, Some("acct-1".into())) {
        Err(p) => assert_eq!((p.status, p.detail.as_str()), (403, "certificate does not belong to acme account")),
        Ok(_) => panic!("foreign certificate"),
    }
    let done = revoke_cert(&mut db, Some("c2".into()), None, Some("  ".into()), Some("acct-2".into())).unwrap();
    assert_eq!(done.certificate_id, "c2");
    assert!(done.revoked_at.is_some());
    let rec = &db.certificates[1];
    assert!(rec.revoked);
    assert_eq!(rec.revoked_by.as_deref(), Some("acme:acct-2"));
    assert_eq!(rec.revoke_reason.as_deref(), Some("acme-revoke-cert"));
    assert_eq!(rec.revoked_via.as_deref(), Some("acme-account-key"));
    assert_eq!(rec.revoked_by_acme_account_id.as_deref(), Some("acct-2"));
    let by_key = revoke_cert(&mut db, Some("c1".into()), None, Some("keyCompromise".into()), None).unwrap();
    assert_eq!(by_key.certificate_id, "c1");
    assert_eq!(db.certificates[0].revoked_by.as_deref(), Some("acme-cert-key"));
    assert_eq!(db.certificates[0].revoke_reason.as_deref(), Some("keyCompromise"));
}

#[test]
fn acme_revoke_refuses_bad_requests() {
    let mut db = CertificatesDb { certificates: vec![flow_record("c1", "0A", None, "admin")] };
    match revoke_cert(&mut db, None, Some("***".into()), None, None) {
        Err(p) => assert_eq!(p.detail, "invalid certificate base64url"),
        Ok(_) => panic!("bad base64"),
    }
    match revoke_cert(&mut db, None, None, None, None) {
        Err(p) => assert_eq!(p.detail, "certificateId or certificate is required and must reference an issued certificate"),
        Ok(_) => panic!("nothing named"),
    }
    match revoke_cert(&mut db, Some("c9".into()), None, None, None) {
        Err(p) => assert_eq!(p.status, 400),
        Ok(_) => panic!("unknown id"),
    }
    assert!(!db.certificates[0].revoked);
}

#[test]
fn acme_revoke_finds_certificate_by_serial() {
    let (key, ca) = flow_ca();
    let csr_pem = pem::encode(&pem::Pem::new("CERTIFICATE REQUEST", flow_csr_der(&["a.credo.test"])));
    let signed = credo::cert::sign_csr(&csr_pem, 5, None, &key, &ca, Some("2B".into())).unwrap();
    let mut db = CertificatesDb { certificates: vec![flow_record(&signed.id, &signed.serial_number, None, "admin")] };
    let der = pem::parse(&signed.cert_pem).unwrap().into_contents();
    let done = revoke_cert(&mut db, None, Some(b64url(&der)), None, None).unwrap();
    assert_eq!(done.certificate_id, "2b");
    assert_eq!(db.certificates[0].revoked_via.as_deref(), Some("acme-cert-key"));
}

fn flow_jwk() -> AcmeRsaJwk {
    AcmeRsaJwk { kty: "EC".into(), n: String::new(), e: String::new(), crv: "P-256".into(), x: "x".into(), y: "y".into() }
}

#[test]
fn new_account_registers_and_binds_keys() {
    let mut accounts: Vec<AcmeAccountRecord> = Vec::new();
    let mut counter = 35u64;
    match new_account(&mut accounts, &mut counter, "thumb-1", flow_jwk(), "user-1", true, Vec::new()) {
        Err(p) => assert_eq!((p.status, p.kind.as_str()), (400, "accountDoesNotExist")),
        Ok(_) => panic!("only existing accounts were asked for"),
    }
    let made = new_account(&mut accounts, &mut counter, "thumb-1", flow_jwk(), "user-1", false, vec!["mailto:a@credo.test".into()])
        .unwrap_or_else(|p| panic!("{}", p.detail));
    assert!(made.created);
    assert_eq!(counter, 36);
    assert_eq!(accounts[0].id, "acct-10");
    assert_eq!(accounts[0].status, "valid");
    let again = new_account(&mut accounts, &mut counter, "thumb-1", flow_jwk(), "user-1", false, Vec::new()).ok().unwrap();
    assert!(!again.created);
    assert_eq!(again.index, 0);
    assert_eq!(accounts.len(), 1);
    match new_account(&mut accounts, &mut counter, "thumb-1", flow_jwk(), "user-2", false, Vec::new()) {
        Err(p) => assert_eq!(p.detail, "account key is already bound to a different vigil user"),
        Ok(_) => panic!("key bound to another user"),
    }
    accounts[0].vigil_user_id = String::new();
    assert!(new_account(&mut accounts, &mut counter, "thumb-1", flow_jwk(), "user-2", false, Vec::new()).is_ok());
    assert_eq!(accounts[0].vigil_user_id, "user-2");
    let reply = get_account(&accounts, &Some("acct-10".into()), "acct-10", "ca.test", "https").ok().unwrap();
    assert_eq!(reply.orders, "https://ca.test/acme/account/acct-10/orders");
    assert_eq!(reply.contact, vec!["mailto:a@credo.test".to_string()]);
    match get_account(&accounts, &Some("acct-10".into()), "acct-11", "h", "https") {
        Err(p) => assert_eq!(p.status, 403),
        Ok(_) => panic!("kid mismatch"),
    }
}

#[test]
fn authz_lists_existing_challenges_for_owner() {
    let (c, mut a, o) = flow_tables("http-01", "pending");
    a[0].challenge_ids = vec!["chall-1".into(), "chall-9".into()];
    let reply = get_authz(&c, &a, &o, "authz-1", &Some("acct-1".into()), "ca.test", "https").ok().unwrap();
    assert_eq!(reply.status, "pending");
    assert_eq!(reply.identifier.value, "a.credo.test");
    assert_eq!(reply.challenges.len(), 1);
    assert_eq!(reply.challenges[0].url, "https://ca.test/acme/challenge/chall-1");
    match get_authz(&c, &a, &o, "authz-1", &Some("acct-2".into()), "h", "https") {
        Err(p) => assert_eq!(p.detail, "authorization does not belong to account"),
        Ok(_) => panic!("foreign authorization"),
    }
    match get_authz(&c, &a, &o, "authz-2", &Some("acct-1".into()), "h", "https") {
        Err(p) => assert_eq!(p.status, 404),
        Ok(_) => panic!("unknown authorization"),
    }
}

#[test]
fn download_needs_the_issuing_order() {
    let db = CertificatesDb { certificates: vec![flow_record("1f", "1F", Some("acct-1"), "acme:acct-1")] };
    let mut orders = vec![flow_order("order-1", "acct-1", "valid", &["authz-1"], &["a.credo.test"])];
    match download_cert(&db, &orders, "1f", &Some("acct-1".into())) {
        Err(p) => assert_eq!(p.status, 403),
        Ok(_) => panic!("no order issued it yet"),
    }
    complete_order(&mut orders, "order-1", "1f");
    assert_eq!(download_cert(&db, &orders, "1f", &Some("acct-1".into())).ok().unwrap().id, "1f");
    match download_cert(&db, &orders, "1f", &Some("acct-2".into())) {
        Err(p) => assert_eq!(p.detail, "certificate does not belong to account"),
        Ok(_) => panic!("foreign certificate"),
    }
    match download_cert(&db, &orders, "2a", &Some("acct-1".into())) {
        Err(p) => assert_eq!(p.detail, "certificate not found"),
        Ok(_) => panic!("unknown certificate"),
    }
}
