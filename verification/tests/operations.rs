use credo::acme_account::{account_cache_key, account_contact, client_identity, eab_key_bytes, ClientIdentity, FileRead};
use credo::agent_api::{
    check_hooks, CorgiHooksResponse, build_domains as agent_domains, check_agent_identity, find_assignment, job_status, phase_name, renew_start, renew_status_job,
    RenewStart,
};
use credo::node_config::{
    parse_ca_entry, ExternalAccountBinding, RawAcmeConfig,
    acme_tls_config, check_ca_protocol, corgi_node_config, corgi_node_configs, validation_methods, RawCorgi, RawCorgiDefaults,
    RawMtls, RawTlsBlock,
};
use credo::fleet::RenewalPhase;
use credo::renewal::JobStore;
use credo::bootstrap::{bootstrap_enroll, BootstrapRefusal, BootstrapRequest};
use credo::cert_store::{archive_file_name, cert_material, issuance_preflight, issuance_result, issued_files, next_ordinal, store_fingerprint};
use credo::dns_provider::{
    create_provider, dns01_provider_name, resolve_dns_validation_config, update_result, DnsProviderContext, DnsProviderError,
    HeProvider, ValidationMethodConfig,
};
use credo::fleet::{check_pinned_certificate, pinned_fingerprint, ManagedAssignment};
use credo::flock::{assignments_for_node, CorgiFlockEntry, CorgiStates, CorgiStatus, Observation};
use credo::policy::IssuancePolicyConfig;
use credo::shepherd_auth::{bootstrap_admin_account, default_identity_cert_days, AdminCertRequest};
use credo::settings::{vigil_listen, vigil_tls_config};
use credo::acme::JwsBody;
use credo::fleet::BootstrapCorgiRequest;
use credo::types::Role;

const ABC_SHA256: &str = "ba7816bf8f01cfea414140de5dae2223b00361a396177a9cb410ff61f20015ad";

fn make_ca() -> (String, String) {
    let mut params = rcgen::CertificateParams::new(Vec::new());
    let mut dn = rcgen::DistinguishedName::new();
    dn.push(rcgen::DnType::CommonName, "Credo Bootstrap Test CA");
    params.distinguished_name = dn;
    params.is_ca = rcgen::IsCa::Ca(rcgen::BasicConstraints::Unconstrained);
    let cert = rcgen::Certificate::from_params(params).unwrap();
    (cert.serialize_private_key_pem(), cert.serialize_pem().unwrap())
}

fn make_csr(dns: &[&str]) -> String {
    let mut params = rcgen::CertificateParams::new(dns.iter().map(|s| s.to_string()).collect::<Vec<_>>());
    let mut dn = rcgen::DistinguishedName::new();
    dn.push(rcgen::DnType::CommonName, dns[0]);
    params.distinguished_name = dn;
    let cert = rcgen::Certificate::from_params(params).unwrap();
    cert.serialize_request_pem().unwrap()
}

fn policy() -> IssuancePolicyConfig {
    IssuancePolicyConfig {
        allowed_dns_suffixes: vec!["credo.test".to_string()],
        allow_subdomains: true,
        allow_bare_suffix: true,
        allowed_identity_uri_prefixes: vec!["vigil://credo/".to_string()],
        allow_ip_sans: false,
    }
}

fn request(secret: &str, csr: &str, sans: Option<Vec<String>>) -> BootstrapRequest {
    BootstrapRequest { secret: secret.to_string(), csr: csr.to_string(), sans }
}

#[test]
fn bootstrap_needs_a_held_secret() {
    let (key, ca) = make_ca();
    let mut slot: Option<String> = None;
    let r = bootstrap_enroll(&mut slot, request("00ff", &make_csr(&["a.credo.test"]), None), &policy(), &key, &ca, None);
    match r {
        Err(e) => {
            assert_eq!(e.status(), 404);
            assert_eq!(e.message(), "Bootstrap endpoint is not available.");
        },
        Ok(_) => panic!("no secret is held"),
    }
}

#[test]
fn bootstrap_refuses_a_wrong_secret() {
    let (key, ca) = make_ca();
    let mut slot = Some("00ff".to_string());
    let r = bootstrap_enroll(&mut slot, request("0001", &make_csr(&["a.credo.test"]), None), &policy(), &key, &ca, None);
    match r {
        Err(e) => {
            assert_eq!(e.status(), 403);
            assert_eq!(e.message(), "Invalid secret.");
        },
        Ok(_) => panic!("wrong secret"),
    }
    assert_eq!(slot, Some("00ff".to_string()));
}

#[test]
fn bootstrap_holds_requests_to_the_policy() {
    let (key, ca) = make_ca();
    let mut slot = Some("00ff".to_string());
    let csr = make_csr(&["a.credo.test"]);
    let r = bootstrap_enroll(&mut slot, request("00ff", &csr, Some(vec!["evil.example".into()])), &policy(), &key, &ca, None);
    match r {
        Err(BootstrapRefusal::BadRequest(m)) => {
            assert_eq!(m, "DNS names are outside allowed issuance policy suffixes: evil.example")
        },
        _ => panic!("policy must refuse"),
    }
    assert_eq!(slot, Some("00ff".to_string()), "a refused request keeps the secret");
}

#[test]
fn bootstrap_issues_once_then_closes() {
    let (key, ca) = make_ca();
    let mut slot = Some("00ff".to_string());
    let csr = make_csr(&["a.credo.test"]);
    let sans = Some(vec!["  ".to_string(), " b.credo.test ".to_string()]);
    let done = bootstrap_enroll(&mut slot, request(" 00FF \n", &format!("\n{csr}\n"), sans), &policy(), &key, &ca, Some("1F".into()))
        .unwrap();
    assert!(slot.is_none(), "the secret is discarded after use");
    assert!(done.chain.contains("BEGIN CERTIFICATE"));
    let der = pem::parse(&done.cert).unwrap().into_contents();
    let (_, parsed) = x509_parser::parse_x509_certificate(&der).unwrap();
    let mut names: Vec<String> = Vec::new();
    for n in &parsed.subject_alternative_name().unwrap().unwrap().value.general_names {
        if let x509_parser::extensions::GeneralName::DNSName(d) = n {
            names.push(d.to_string());
        }
    }
    assert!(names.contains(&"a.credo.test".to_string()));
    assert!(names.contains(&"b.credo.test".to_string()));
    let lifetime = parsed.validity().not_after.timestamp() - parsed.validity().not_before.timestamp();
    assert_eq!(lifetime, 86_400);
    let again = bootstrap_enroll(&mut slot, request("00ff", &csr, None), &policy(), &key, &ca, None);
    assert!(matches!(again, Err(BootstrapRefusal::NotAvailable)));
}

#[test]
fn dns_provider_is_chosen_by_name() {
    let p = create_provider("he", Some("  secret-key ")).unwrap();
    let ctx = DnsProviderContext {
        record_name: "_acme-challenge.a.credo.test".into(),
        txt_value: "token-value".into(),
        identifier: "a.credo.test".into(),
    };
    let up = p.create_request(&ctx);
    assert_eq!(up.hostname, "_acme-challenge.a.credo.test");
    assert_eq!(up.password, "secret-key");
    assert_eq!(up.txt, "token-value");
    let down = p.cleanup_request(&ctx);
    assert_eq!(down.txt, "empty");
    assert_eq!(down.password, "secret-key");
    match create_provider("route53", Some("k")) {
        Err(e) => {
            assert_eq!(e, DnsProviderError::UnknownProvider("route53".into()));
            assert_eq!(e.message(), "Unknown DNS provider: route53");
        },
        Ok(_) => panic!("unknown provider"),
    }
}

#[test]
fn dns_provider_needs_a_key() {
    for key in [None, Some(""), Some("   ")] {
        match HeProvider::new(key) {
            Err(e) => assert_eq!(e.message(), "DNS provider 'he' requires a non-empty 'ddnsKey' in providerConfig"),
            Ok(_) => panic!("a blank key must be refused"),
        }
    }
}

#[test]
fn dns_provider_judges_replies() {
    assert_eq!(update_result(200, "200 OK", "rec", " GOOD 203.0.113.5\n"), Ok(()));
    assert_eq!(update_result(204, "204 No Content", "rec", "nochg"), Ok(()));
    assert_eq!(update_result(200, "200 OK", "rec", "badauth"), Err("dns.he.net update rejected for rec: badauth".to_string()));
    assert_eq!(
        update_result(500, "500 Internal Server Error", "rec", "good"),
        Err("dns.he.net update failed with HTTP 500 Internal Server Error: good".to_string())
    );
}

fn entry(name: &str, fp: Option<&str>, key_exists: Option<bool>) -> CorgiFlockEntry {
    CorgiFlockEntry {
        name: name.into(),
        fingerprint256: fp.map(String::from),
        valid_to: None,
        status: None,
        san_names: Vec::new(),
        key_exists,
    }
}

#[test]
fn corgi_status_follows_observations() {
    let mut states = CorgiStates::new();
    assert_eq!(states.status_name("n1"), "unknown");
    assert!(!states.is_reachable("n1"));
    states.record("n1", Observation::Healthy, 100);
    assert!(states.is_reachable("n1"));
    assert_eq!(states.status_name("n1"), "reachable");
    assert_eq!(states.nodes[0].state.last_health_check, Some(100));
    states.record("n2", Observation::Failed("connection refused".into()), 110);
    assert!(!states.is_reachable("n2"));
    assert_eq!(states.status_name("n2"), "unreachable");
    assert_eq!(states.nodes[1].state.error, Some("connection refused".to_string()));
    assert_eq!(states.nodes[1].state.last_health_check, None);
    states.record("n1", Observation::Failed("timeout".into()), 120);
    assert!(!states.is_reachable("n1"));
    assert_eq!(states.nodes[0].state.last_health_check, Some(100), "a failure keeps the last good check");
    assert!(!states.is_reachable("n2") && states.nodes.len() == 2);
    states.record("n1", Observation::Flock(vec![entry("web", Some("ab:cd"), Some(true))]), 130);
    assert!(states.is_reachable("n1"));
    assert_eq!(states.nodes[0].state.error, None);
    assert_eq!(states.nodes[0].state.flock.len(), 1);
    assert_eq!(CorgiStatus::Unreachable.name(), "unreachable");
}

#[test]
fn corgi_missing_key_and_refresh() {
    let mut states = CorgiStates::new();
    states.record(
        "n1",
        Observation::Flock(vec![entry("web", Some("ab:cd"), Some(false)), entry("api", None, None), entry("db", Some("11:22"), Some(true))]),
        10,
    );
    assert!(states.missing_key("n1", "web"));
    assert!(!states.missing_key("n1", "api"));
    assert!(!states.missing_key("n1", "db"));
    assert!(!states.missing_key("n2", "web"));
    let same = vec![("web".to_string(), Some("AB:CD".to_string())), ("api".to_string(), Some("FF".to_string()))];
    assert!(!states.needs_refresh("n1", &same), "matching fingerprints and uninstalled certs need no refresh");
    let stale = vec![("web".to_string(), Some("AB:CD".to_string())), ("db".to_string(), Some("33:44".to_string()))];
    assert!(states.needs_refresh("n1", &stale));
    let unknown = vec![("db".to_string(), None)];
    assert!(!states.needs_refresh("n1", &unknown));
    states.record("n1", Observation::Failed("down".into()), 20);
    assert!(!states.needs_refresh("n1", &stale), "an unreachable node is not asked to refresh");
}

fn assignment(name: &str, corgi: Option<&str>) -> ManagedAssignment {
    ManagedAssignment {
        cert_name: name.into(),
        corgi: corgi.map(String::from),
        ca: "vigil".into(),
        domain: None,
        sans: Vec::new(),
        renew_before_days: None,
        days: None,
        identity_uri: None,
        validation: None,
        cert_mode: None,
        key_mode: None,
        cert_owner: None,
        cert_group: None,
        key_owner: None,
        key_group: None,
        key_algorithm: None,
    }
}

#[test]
fn assignments_are_grouped_by_node() {
    let all = vec![assignment("a", Some("n1")), assignment("b", None), assignment("c", Some("n2")), assignment("d", Some("n1"))];
    assert_eq!(assignments_for_node(&all, "n1"), vec![0, 3]);
    assert_eq!(assignments_for_node(&all, "n2"), vec![2]);
    assert!(assignments_for_node(&all, "n3").is_empty());
}

#[test]
fn archive_numbering() {
    assert_eq!(next_ordinal(&Vec::new()), 1);
    let names: Vec<String> = ["cert-0001.pem", "chain-0009.pem", "cert-0002.pem", "cert-x.pem", "privkey-0003.pem", "cert-.pem"]
        .iter()
        .map(|s| s.to_string())
        .collect();
    assert_eq!(next_ordinal(&names), 3);
    assert_eq!(next_ordinal(&vec!["cert-+7.pem".to_string()]), 8);
    assert_eq!(archive_file_name("cert", 12), "cert-0012.pem");
    assert_eq!(archive_file_name("fullchain", 12345), "fullchain-12345.pem");
    let mut grown = names.clone();
    let n = next_ordinal(&names);
    grown.push(archive_file_name("cert", n));
    assert_eq!(next_ordinal(&grown), n + 1);
}

#[test]
fn issued_files_and_links() {
    let files = issued_files(2, true);
    let pairs: Vec<(String, String)> = files.into_iter().map(|f| (f.archive_name, f.live_name)).collect();
    assert_eq!(
        pairs,
        vec![
            ("cert-0002.pem".to_string(), "cert.pem".to_string()),
            ("chain-0002.pem".to_string(), "chain.pem".to_string()),
            ("fullchain-0002.pem".to_string(), "fullchain.pem".to_string()),
            ("privkey-0002.pem".to_string(), "privkey.pem".to_string()),
        ]
    );
    assert_eq!(issued_files(1, false).len(), 3);
}

#[test]
fn store_fingerprint_is_upper_hex_sha256() {
    assert_eq!(store_fingerprint(b"abc"), ABC_SHA256.to_uppercase());
}

#[test]
fn corgi_certificate_is_pinned_by_fingerprint() {
    assert_eq!(pinned_fingerprint("AB:cd:Ef:01"), "abcdef01");
    assert_eq!(check_pinned_certificate(ABC_SHA256, b"abc"), Ok(()));
    assert_eq!(
        check_pinned_certificate("00", b"abc"),
        Err(format!("Bootstrap fingerprint mismatch: expected 00, got {ABC_SHA256}"))
    );
}

#[test]
fn bootstrap_admin_account_is_named_after_the_identity() {
    let a = bootstrap_admin_account("id-1".into(), None, "vigil://credo/admin/alice/", "2024-01-01T00:00:00Z".into());
    assert_eq!(a.name, "alice");
    assert_eq!(a.display_name, "alice");
    assert_eq!(a.role, Role::Admin);
    assert!(a.active);
    assert_eq!(a.identities, vec!["vigil://credo/admin/alice/".to_string()]);
    let b = bootstrap_admin_account("id-2".into(), Some("ops".into()), "vigil://credo/admin/x", "t".into());
    assert_eq!(b.name, "ops");
}

fn mtls(cert: Option<&str>, key: Option<&str>) -> RawMtls {
    RawMtls {
        cert_path: cert.map(String::from),
        key_path: key.map(String::from),
        ca_path: None,
        bootstrap_cert_path: None,
        bootstrap_key_path: None,
    }
}

fn raw_corgi(name: &str, m: RawMtls, insecure: Option<bool>) -> RawCorgi {
    RawCorgi {
        name: name.into(),
        url: format!("https://{name}:8443"),
        identity_uri: None,
        mtls: m,
        insecure_skip_verify: insecure,
        http_challenge_port: Some(8080),
    }
}

#[test]
fn corgi_nodes_fall_back_to_defaults() {
    let defaults = Some(RawCorgiDefaults {
        mtls: RawMtls {
            cert_path: Some("certs/shepherd.pem".into()),
            key_path: Some("certs/shepherd.key".into()),
            ca_path: Some("certs/ca.pem".into()),
            bootstrap_cert_path: None,
            bootstrap_key_path: None,
        },
        insecure_skip_verify: Some(true),
    });
    let own = raw_corgi("n1", mtls(Some("own.pem"), None), Some(false));
    let c = corgi_node_config(&own, &defaults).unwrap();
    assert_eq!(c.mtls.cert_path, "own.pem");
    assert_eq!(c.mtls.key_path, "certs/shepherd.key");
    assert_eq!(c.mtls.ca_path, Some("certs/ca.pem".to_string()));
    assert!(!c.insecure_skip_verify);
    assert_eq!(c.http_challenge_port, Some(8080));
    let plain = raw_corgi("n2", mtls(None, None), None);
    assert!(corgi_node_config(&plain, &defaults).unwrap().insecure_skip_verify);
    match corgi_node_config(&plain, &None) {
        Err(m) => assert_eq!(m, "Corgi 'n2': missing mtls.certPath"),
        Ok(_) => panic!("no certificate named"),
    }
    match corgi_node_config(&raw_corgi("n3", mtls(Some("c.pem"), None), None), &None) {
        Err(m) => assert_eq!(m, "Corgi 'n3': missing mtls.keyPath"),
        Ok(_) => panic!("no key named"),
    }
    let all = vec![raw_corgi("a", mtls(Some("c"), Some("k")), None), raw_corgi("b", mtls(None, Some("k")), None)];
    assert_eq!(corgi_node_configs(&all, &None).err(), Some("Corgi 'b': missing mtls.certPath".to_string()));
    assert_eq!(corgi_node_configs(&all[..1].iter().map(|r| raw_corgi(&r.name, mtls(Some("c"), Some("k")), None)).collect(), &None).unwrap().len(), 1);
}

#[test]
fn acme_ca_tls_and_validation_settings() {
    let nested = Some(RawTlsBlock { cert_path: Some("n.pem".into()), key_path: None, ca_path: None });
    let t = acme_tls_config(&nested, &Some("flat.pem".into()), &Some("flat.key".into()), &Some("ca".into()), &Some("ca-path".into())).unwrap();
    assert_eq!(t.cert_path, Some("n.pem".to_string()));
    assert_eq!(t.key_path, Some("flat.key".to_string()));
    assert_eq!(t.ca_path, Some("ca-path".to_string()));
    let only_ca = acme_tls_config(&None, &None, &None, &Some("ca".into()), &None).unwrap();
    assert_eq!(only_ca.ca_path, Some("ca".to_string()));
    assert!(acme_tls_config(&None, &None, &None, &None, &None).is_none());
    let (list, chosen) = validation_methods(None, None);
    assert_eq!(list, vec!["none-01", "dns-01", "http-01"]);
    assert_eq!(chosen, "none-01");
    let (list, chosen) = validation_methods(Some(vec!["http-01".into()]), None);
    assert_eq!(list, vec!["http-01"]);
    assert_eq!(chosen, "http-01");
    assert_eq!(validation_methods(Some(Vec::new()), None).1, "dns-01");
    assert_eq!(validation_methods(None, Some("dns-01".into())).1, "dns-01");
    assert_eq!(check_ca_protocol("le", "acme"), Ok(()));
    assert_eq!(check_ca_protocol("le", "est"), Err("CA 'le' uses unsupported protocol 'est'".to_string()));
}

#[test]
fn acme_account_details() {
    assert_eq!(account_cache_key("le", "https://acme.example/dir"), "le|https://acme.example/dir");
    assert_eq!(account_contact("le", Some("ops@credo.test")), Ok("mailto:ops@credo.test".to_string()));
    assert_eq!(account_contact("le", None), Err("CA 'le': accountEmail is required".to_string()));
    assert_eq!(eab_key_bytes("_-8"), Ok(vec![0xff, 0xef]));
    assert_eq!(eab_key_bytes("+/8="), Ok(vec![0xfb, 0xff]));
    assert_eq!(eab_key_bytes("!!"), Err("Decoding EAB HMAC key (expected base64url)".to_string()));
}

fn ident(c: &str, k: &str) -> ClientIdentity {
    ClientIdentity { cert_pem: c.as_bytes().to_vec(), key_pem: k.as_bytes().to_vec() }
}

#[test]
fn acme_client_identity_choice() {
    let got = client_identity(Some(("c.pem", FileRead::Read(b"C".to_vec()), "k.pem", FileRead::Read(b"K".to_vec()))), Some(ident("B", "b")))
        .unwrap()
        .unwrap();
    assert_eq!(got.cert_pem, b"C".to_vec());
    let fell_back = client_identity(Some(("c.pem", FileRead::Missing("gone".into()), "k.pem", FileRead::Read(b"K".to_vec()))), Some(ident("B", "b")))
        .unwrap()
        .unwrap();
    assert_eq!(fell_back.key_pem, b"b".to_vec());
    assert!(client_identity(None, None).unwrap().is_none());
    match client_identity(Some(("c.pem", FileRead::Failed("denied".into()), "k.pem", FileRead::Missing("x".into()))), None) {
        Err(m) => assert_eq!(m, "Reading ACME client cert c.pem: denied"),
        Ok(_) => panic!("unreadable certificate"),
    }
    match client_identity(Some(("c.pem", FileRead::Read(b"C".to_vec()), "k.pem", FileRead::Missing("gone".into()))), Some(ident("B", "b"))) {
        Err(m) => assert_eq!(m, "Reading ACME client key k.pem: gone"),
        Ok(_) => panic!("a missing key is an error"),
    }
}

#[test]
fn agent_requests_find_their_assignment() {
    let mut own = assignment("web", Some("n1"));
    own.sans = vec!["web.credo.test".into(), "www.credo.test".into()];
    own.domain = Some("web.credo.test".into());
    let all = vec![assignment("web", Some("n2")), own, assignment("api", Some("n1"))];
    assert_eq!(find_assignment(&all, "n1", "web"), Ok(1));
    assert_eq!(find_assignment(&all, "n3", "web"), Err("No assignment for n3/web".to_string()));
    assert_eq!(agent_domains(&all[1]), vec!["web.credo.test", "www.credo.test"]);
    let mut bare = assignment("x", None);
    bare.domain = Some("x.credo.test".into());
    assert_eq!(agent_domains(&bare), vec!["x.credo.test"]);
    assert!(agent_domains(&assignment("y", None)).is_empty());
    assert_eq!(check_agent_identity("n1", "n1"), Ok(()));
    assert_eq!(check_agent_identity("n1", "n2"), Err("Authenticated as 'n1' but requested assignments for 'n2'".to_string()));
}

#[test]
fn agent_renewal_jobs_are_reported() {
    let mut store = JobStore { jobs: Vec::new() };
    assert_eq!(renew_status_job(&store.jobs, "web"), Err("No renewal job for web".to_string()));
    assert_eq!(renew_start(&store.jobs, "web", "  "), RenewStart::MissingCsr);
    assert_eq!(renew_start(&store.jobs, "web", "CSR"), RenewStart::New);
    store.create_job(1, "web", Vec::new(), "le", 100);
    store.complete_job(1, "AA".into(), 200);
    store.create_job(2, "web", Vec::new(), "le", 150);
    store.fail_job(2, "boom".into(), 250);
    store.create_job(3, "api", Vec::new(), "le", 300);
    assert_eq!(renew_status_job(&store.jobs, "web"), Ok(1), "the job updated last");
    store.create_job(4, "web", Vec::new(), "le", 400);
    assert_eq!(renew_status_job(&store.jobs, "web"), Ok(3), "a job under way comes first");
    assert_eq!(renew_start(&store.jobs, "web", "CSR"), RenewStart::Existing(3));
    assert_eq!(phase_name(RenewalPhase::SubmittingOrder), "submittingorder");
    assert_eq!(phase_name(RenewalPhase::RateLimited), "ratelimited");
    assert_eq!(job_status(RenewalPhase::Completed), "completed");
    assert_eq!(job_status(RenewalPhase::Cancelled), "failed");
    assert_eq!(job_status(RenewalPhase::Validating), "pending");
}

#[test]
fn stored_material_reports_fingerprint_and_days_left() {
    let mut params = rcgen::CertificateParams::new(vec!["web.credo.test".to_string()]);
    params.not_after = rcgen::date_time_ymd(2031, 1, 1);
    let cert = rcgen::Certificate::from_params(params).unwrap();
    let pem_text = cert.serialize_pem().unwrap();
    let der = pem::parse(&pem_text).unwrap().into_contents();
    let end = 1_924_992_000i64; // 2031-01-01T00:00:00Z
    let m = cert_material(pem_text.clone(), Some("chain".into()), None, None, end - 10 * 86_400 - 5).unwrap();
    assert_eq!(m.expires_in_days, 10);
    assert_eq!(m.fingerprint256, store_fingerprint(&der));
    assert_eq!(m.chain_pem, Some("chain".to_string()));
    assert!(m.ca.is_none());
    let late = cert_material(pem_text.clone(), None, None, None, end + 86_400 + 7).unwrap();
    assert_eq!(late.expires_in_days, -1, "days are rounded towards zero");
    assert!(cert_material("junk".into(), None, None, None, end).is_none());
}

#[test]
fn issuance_checks_and_result() {
    let csr = make_csr(&["a.credo.test"]);
    assert_eq!(
        issuance_preflight("web", &Vec::new(), &csr),
        Err("at least one domain is required for ACME issuance of 'web'".to_string())
    );
    assert_eq!(issuance_preflight("web", &vec!["a.credo.test".into()], "junk"), Err("Could not parse CSR PEM for 'web'".to_string()));
    assert!(issuance_preflight("web", &vec!["a.credo.test".into()], &csr).is_ok());
    let (_, ca_pem) = make_ca();
    let chain = format!("{ca_pem}{ca_pem}");
    let first = issuance_result(&chain, None).unwrap();
    assert!(first.issued && first.changed);
    assert!(first.fingerprint256.contains(':'));
    let again = issuance_result(&chain, Some(first.fingerprint256.clone())).unwrap();
    assert!(!again.changed);
    assert_eq!(again.fullchain_pem, first.fullchain_pem);
    assert!(issuance_result("no certificates", None).is_err());
}

#[test]
fn vigil_tls_defaults() {
    let t = vigil_tls_config(None, Some("/etc/vigil/cert.pem".into()), None);
    assert_eq!(t.key_path, "./certs/privkey.pem");
    assert_eq!(t.cert_path, "/etc/vigil/cert.pem");
    assert_eq!(t.client_ca_path, "./certs/root-ca.cert.pem");
}

fn raw_acme() -> RawAcmeConfig {
    RawAcmeConfig {
        directory_url: "https://acme.credo.test/directory".into(),
        account_email: Some("ops@credo.test".into()),
        account_key_path: "keys/account.pem".into(),
        days: Some(30),
        external_account_binding: Some(ExternalAccountBinding { kid: "kid-1".into(), hmac_key: "_-8".into() }),
        supported_validations: None,
        default_validation: None,
        tls: None,
        tls_cert: None,
        tls_key: None,
        ca: Some("ca.pem".into()),
        ca_path: None,
        insecure_skip_verify: None,
    }
}

#[test]
fn ca_entries_are_acme_only() {
    let c = parse_ca_entry("vigil", "acme", "vigil".into(), raw_acme()).unwrap();
    assert_eq!(c.protocol, "acme");
    assert_eq!(c.config.default_validation, "none-01");
    assert_eq!(c.config.tls.as_ref().unwrap().ca_path, Some("ca.pem".to_string()));
    assert_eq!(c.config.eab.as_ref().unwrap().kid, "kid-1");
    assert!(!c.config.insecure_skip_verify);
    match parse_ca_entry("x", "est", "".into(), raw_acme()) {
        Err(m) => assert_eq!(m, "CA 'x' uses unsupported protocol 'est'"),
        Ok(_) => panic!("only acme"),
    }
}

#[test]
fn admin_and_corgi_requests() {
    let req = AdminCertRequest { csr_pem: "csr".into(), days: None, identity_uri: "vigil://credo/admin/carol".into(), name: None };
    assert_eq!(req.days_or_default(), 365);
    let acct = req.account("id".into(), "t".into());
    assert_eq!(acct.name, "carol");
    assert_eq!(acct.role, Role::Admin);
    assert_eq!(default_identity_cert_days(), 365);
    let enroll = BootstrapCorgiRequest {
        name: "n1".into(),
        token: "tok".into(),
        fingerprint: "AA:BB".into(),
        identity_uri: "vigil://credo/corgi/n1".into(),
        corgi_url: "https://n1:8443".into(),
        ca: None,
    };
    let a = enroll.own_assignment("n1.credo.test");
    assert_eq!(a.cert_name, "n1.credo.test");
    assert_eq!(a.ca, "vigil");
    assert_eq!(a.corgi, Some("n1".to_string()));
    assert_eq!(a.sans, vec!["n1.credo.test"]);
}

#[test]
fn hooks_must_be_offered_by_the_node() {
    let offered = CorgiHooksResponse { available_hooks: vec!["restart-nginx".into(), "reload".into()], default_hooks: Vec::new() };
    assert_eq!(check_hooks(&vec!["reload".into()], "n1", &offered), Ok(()));
    assert_eq!(check_hooks(&Vec::new(), "n1", &offered), Ok(()));
    assert_eq!(
        check_hooks(&vec!["reload".into(), "wipe".into(), "other".into()], "n1", &offered),
        Err("Hook 'wipe' is not available on corgi 'n1'. Available: [\"restart-nginx\", \"reload\"]".to_string())
    );
}

fn method(provider: Option<&str>, config: Option<&str>, delay: Option<u64>) -> ValidationMethodConfig {
    ValidationMethodConfig { provider: provider.map(String::from), provider_config: config.map(String::from), propagation_delay_seconds: delay }
}

#[test]
fn dns_validation_settings_override_the_ca() {
    assert!(resolve_dns_validation_config(&None, &None).is_none());
    let ca = Some(method(Some("he"), Some("{\"ddnsKey\":\"k\"}"), Some(30)));
    let own = Some(method(None, Some("{}"), None));
    let merged = resolve_dns_validation_config(&ca, &own).unwrap();
    assert_eq!(merged.provider, Some("he".to_string()));
    assert_eq!(merged.provider_config, Some("{}".to_string()));
    assert_eq!(merged.propagation_delay_seconds, Some(30));
    let only_own = resolve_dns_validation_config(&None, &Some(method(Some("route53"), None, Some(5)))).unwrap();
    assert_eq!(only_own.provider, Some("route53".to_string()));
    assert_eq!(dns01_provider_name("web", "a.credo.test", &Some(merged)), Ok("he".to_string()));
    assert_eq!(
        dns01_provider_name("web", "a.credo.test", &None),
        Err("dns-01 for 'web/a.credo.test': missing validation.dns-01.provider in CA config".to_string())
    );
}

#[test]
fn vigil_listens_on_7020_by_default() {
    assert_eq!(vigil_listen(None, None), (7020, "127.0.0.1".to_string()));
    assert_eq!(vigil_listen(Some(8443), Some("0.0.0.0".into())), (8443, "0.0.0.0".to_string()));
}

#[test]
fn jws_parts_decode_from_base64url() {
    let body = JwsBody { protected_b64: "eyJub25jZSI6Im4xIn0".into(), payload_b64: String::new(), signature_b64: "AA".into() };
    assert_eq!(body.protected_bytes(), Some(br#"{"nonce":"n1"}"#.to_vec()));
    assert_eq!(body.payload_bytes(), Ok(None));
    let with_payload = JwsBody { protected_b64: "!!".into(), payload_b64: "e30".into(), signature_b64: "AA".into() };
    assert_eq!(with_payload.protected_bytes(), None);
    assert_eq!(with_payload.payload_bytes(), Ok(Some(b"{}".to_vec())));
    let bad = JwsBody { protected_b64: "e30".into(), payload_b64: "e30=".into(), signature_b64: "AA".into() };
    assert_eq!(bad.payload_bytes(), Err(()));
}
