use credo::fleet::{
    add_assignment, build_domains, canonical_sans, corgi_assignment, corgi_csr_reply, derive_name_from_uri,
    register_assignment, remove_assignment, replace_assignment, split_cert_chain, url_hostname, urlencoded,
    validation_method, AssignmentValidation, LogLevel, ManagedAssignment, RenewalJobsQuery, RenewalPhase,
};
use credo::ledger::{extract_registered_domain, CaRateLimit, CaRateLimits, IssuanceEvent, IssuanceLedger};
use credo::renewal::{JobStore, TraceEntry};

const NOW: i64 = 1_800_000_000;
const DAY: i64 = 86_400;

fn assignment(domain: Option<&str>, sans: &[&str]) -> ManagedAssignment {
    ManagedAssignment {
        cert_name: "test".into(),
        corgi: None,
        ca: "letsencrypt".into(),
        domain: domain.map(String::from),
        sans: sans.iter().map(|s| s.to_string()).collect(),
        renew_before_days: None,
        days: None,
        identity_uri: None,
        validation: None,
        cert_mode: None,
        key_mode: None,
        cert_owner: None,
        cert_group: None,
        key_owner: None,
        key_group: None,
        key_algorithm: None,
    }
}

fn make_event(cert_name: &str, registered_domain: &str, sans: Vec<String>, ca: &str, days_ago: i64) -> IssuanceEvent {
    IssuanceEvent {
        cert_name: cert_name.to_string(),
        ca: ca.to_string(),
        registered_domain: registered_domain.to_string(),
        sans,
        issued_at: NOW - days_ago * DAY,
        fingerprint256: format!("FP:{cert_name}:{days_ago}"),
    }
}

fn le_limits() -> CaRateLimits {
    CaRateLimits {
        certificates_per_domain: Some(CaRateLimit { count: 50, window_days: 7 }),
        duplicate_certificates: Some(CaRateLimit { count: 5, window_days: 7 }),
    }
}

fn empty_ledger() -> IssuanceLedger {
    IssuanceLedger::new("ledger.json".to_string(), 7, Vec::new(), NOW)
}

#[test]
fn renewal_jobs_query_active_excludes_terminal() {
    assert!(RenewalPhase::Completed.is_terminal());
    assert!(RenewalPhase::Failed.is_terminal());
    assert!(RenewalPhase::Cancelled.is_terminal());
    assert!(!RenewalPhase::Validating.is_terminal());
    assert!(!RenewalPhase::RateLimited.is_terminal());
    assert!(!RenewalPhase::Installing.is_terminal());
}

#[test]
fn renewal_jobs_query_struct_has_cert_name() {
    let q = RenewalJobsQuery { active: Some("true".into()), cert_name: Some("foo.com".into()) };
    assert_eq!(q.cert_name.as_deref(), Some("foo.com"));
    assert_eq!(q.active.as_deref(), Some("true"));
}

#[test]
fn renewal_jobs_query_filters_active_and_name() {
    let q = RenewalJobsQuery { active: Some("true".into()), cert_name: Some("foo.com".into()) };
    assert!(q.lists(RenewalPhase::Validating, &"foo.com".to_string()));
    assert!(!q.lists(RenewalPhase::Completed, &"foo.com".to_string()));
    assert!(!q.lists(RenewalPhase::Validating, &"bar.com".to_string()));
    let all = RenewalJobsQuery { active: Some("false".into()), cert_name: None };
    assert!(all.lists(RenewalPhase::Failed, &"bar.com".to_string()));
}

#[test]
fn domain_only_returns_domain() {
    let a = assignment(Some("origin.ludin.org"), &[]);
    assert_eq!(build_domains(&a), vec!["origin.ludin.org"]);
}

#[test]
fn sans_only_returns_sans() {
    let a = assignment(None, &["www.ludin.org", "api.ludin.org"]);
    assert_eq!(build_domains(&a), vec!["www.ludin.org", "api.ludin.org"]);
}

#[test]
fn domain_and_sans_includes_domain_at_front() {
    let a = assignment(Some("origin.ludin.org"), &["www.ludin.org"]);
    assert_eq!(build_domains(&a), vec!["origin.ludin.org", "www.ludin.org"]);
}

#[test]
fn domain_already_in_sans_not_duplicated() {
    let a = assignment(Some("origin.ludin.org"), &["origin.ludin.org", "www.ludin.org"]);
    assert_eq!(build_domains(&a), vec!["origin.ludin.org", "www.ludin.org"]);
}

#[test]
fn no_domain_no_sans_returns_empty() {
    let a = assignment(None, &[]);
    assert!(build_domains(&a).is_empty());
}

#[test]
fn canonical_sans_includes_domain_and_sorts() {
    let mut a = assignment(Some("www.example.com"), &["api.example.com"]);
    a.ca = "le".into();
    assert_eq!(canonical_sans(&a), vec!["api.example.com", "www.example.com"]);
}

#[test]
fn canonical_sans_deduplicates() {
    let mut a = assignment(Some("api.example.com"), &["api.example.com"]);
    a.ca = "le".into();
    assert_eq!(canonical_sans(&a), vec!["api.example.com"]);
}

#[test]
fn registered_domain_from_subdomain() {
    assert_eq!(extract_registered_domain("api.example.com"), Some("example.com".to_string()));
}

#[test]
fn registered_domain_strips_wildcard() {
    assert_eq!(extract_registered_domain("*.example.com"), Some("example.com".to_string()));
}

#[test]
fn registered_domain_handles_co_uk() {
    assert_eq!(extract_registered_domain("api.example.co.uk"), Some("example.co.uk".to_string()));
}

#[test]
fn domain_count_within_window() {
    let mut ledger = empty_ledger();
    ledger.events.push(make_event("c1", "example.com", vec!["a.example.com".into()], "le", 1));
    ledger.events.push(make_event("c2", "example.com", vec!["b.example.com".into()], "le", 6));
    ledger.events.push(make_event("c3", "example.com", vec!["c.example.com".into()], "le", 8));
    assert_eq!(ledger.domain_count_window("example.com", "le", 7, NOW), 2);
}

#[test]
fn domain_count_excludes_different_ca() {
    let mut ledger = empty_ledger();
    ledger.events.push(make_event("c1", "example.com", vec!["a.example.com".into()], "le", 1));
    ledger.events.push(make_event("c2", "example.com", vec!["b.example.com".into()], "vigil", 1));
    assert_eq!(ledger.domain_count_window("example.com", "le", 7, NOW), 1);
}

#[test]
fn domain_count_excludes_different_domain() {
    let mut ledger = empty_ledger();
    ledger.events.push(make_event("c1", "example.com", vec!["a.example.com".into()], "le", 1));
    ledger.events.push(make_event("c2", "other.com", vec!["b.other.com".into()], "le", 1));
    assert_eq!(ledger.domain_count_window("example.com", "le", 7, NOW), 1);
}

#[test]
fn identifier_count_requires_exact_san_match() {
    let mut ledger = empty_ledger();
    let sans = vec!["api.example.com".to_string(), "www.example.com".to_string()];
    ledger.events.push(make_event("c1", "example.com", sans.clone(), "le", 1));
    ledger.events.push(make_event("c2", "example.com", vec!["api.example.com".into()], "le", 1));
    assert_eq!(ledger.identifier_count_window(&sans, "le", 7, NOW), 1);
}

#[test]
fn identifier_count_within_window() {
    let mut ledger = empty_ledger();
    let sans = vec!["api.example.com".to_string()];
    ledger.events.push(make_event("c1", "example.com", sans.clone(), "le", 1));
    ledger.events.push(make_event("c2", "example.com", sans.clone(), "le", 6));
    ledger.events.push(make_event("c3", "example.com", sans.clone(), "le", 8));
    assert_eq!(ledger.identifier_count_window(&sans, "le", 7, NOW), 2);
}

#[test]
fn pruning_removes_events_older_than_7_days() {
    let mut ledger = empty_ledger();
    ledger.events.push(make_event("old", "example.com", vec!["a.example.com".into()], "le", 8));
    ledger.events.push(make_event("new", "example.com", vec!["b.example.com".into()], "le", 1));
    ledger.prune(NOW);
    assert_eq!(ledger.events.len(), 1);
    assert_eq!(ledger.events[0].cert_name, "new");
}

#[test]
fn load_from_missing_file_starts_empty() {
    let ledger = IssuanceLedger::new("nonexistent.json".to_string(), 7, Vec::new(), NOW);
    assert!(ledger.events.is_empty());
}

#[test]
fn load_prunes_stale_events() {
    let old_event = make_event("old", "example.com", vec!["a.example.com".into()], "le", 8);
    let ledger = IssuanceLedger::new("ledger.json".to_string(), 7, vec![old_event], NOW);
    assert!(ledger.events.is_empty());
}

#[test]
fn round_trip_persist_and_reload() {
    let sans = vec!["api.example.com".to_string()];
    let mut ledger = empty_ledger();
    ledger.append(make_event("api-cert", "example.com", sans.clone(), "le", 1), NOW);
    let reloaded = IssuanceLedger::new(ledger.path.clone(), 7, ledger.events, NOW);
    assert_eq!(reloaded.domain_count_window("example.com", "le", 7, NOW), 1);
    assert_eq!(reloaded.identifier_count_window(&sans, "le", 7, NOW), 1);
}

#[test]
fn domain_gate_blocks_at_50() {
    let mut ledger = empty_ledger();
    for i in 0..50u32 {
        ledger.events.push(make_event(&format!("c{i}"), "example.com", vec![format!("sub{i}.example.com")], "le", 1));
    }
    let sans = vec!["new.example.com".to_string()];
    assert!(ledger.rate_limit_check(&sans, "le", Some(&le_limits()), NOW).is_some());
}

#[test]
fn domain_gate_allows_at_49() {
    let mut ledger = empty_ledger();
    for i in 0..49u32 {
        ledger.events.push(make_event(&format!("c{i}"), "example.com", vec![format!("sub{i}.example.com")], "le", 1));
    }
    let sans = vec!["new.example.com".to_string()];
    assert!(ledger.rate_limit_check(&sans, "le", Some(&le_limits()), NOW).is_none());
}

#[test]
fn identifier_gate_blocks_at_5() {
    let mut ledger = empty_ledger();
    let sans = vec!["api.example.com".to_string()];
    for i in 0..5u32 {
        ledger.events.push(make_event(&format!("c{i}"), "example.com", sans.clone(), "le", 1));
    }
    assert!(ledger.rate_limit_check(&sans, "le", Some(&le_limits()), NOW).is_some());
}

#[test]
fn identifier_gate_allows_at_4() {
    let mut ledger = empty_ledger();
    let sans = vec!["api.example.com".to_string()];
    for i in 0..4u32 {
        ledger.events.push(make_event(&format!("c{i}"), "example.com", sans.clone(), "le", 1));
    }
    assert!(ledger.rate_limit_check(&sans, "le", Some(&le_limits()), NOW).is_none());
}

#[test]
fn retry_after_is_oldest_event_plus_7_days() {
    let mut ledger = empty_ledger();
    let sans = vec!["api.example.com".to_string()];
    let oldest_issued_at = NOW - 3 * DAY;
    ledger.events.push(IssuanceEvent {
        cert_name: "c0".into(),
        ca: "le".into(),
        registered_domain: "example.com".into(),
        sans: sans.clone(),
        issued_at: oldest_issued_at,
        fingerprint256: "FP:0".into(),
    });
    for i in 1..5u32 {
        ledger.events.push(make_event(&format!("c{i}"), "example.com", sans.clone(), "le", 1));
    }
    let retry = ledger.rate_limit_check(&sans, "le", Some(&le_limits()), NOW).unwrap();
    let expected = oldest_issued_at + 7 * DAY;
    let diff = (retry - expected).abs();
    assert!(diff <= 1, "retry_after should be oldest_issued_at + 7 days, got diff {diff}s");
}

#[test]
fn unlimited_ca_never_blocked() {
    let mut ledger = empty_ledger();
    let sans = vec!["api.example.com".to_string()];
    for i in 0..100u32 {
        ledger.events.push(make_event(&format!("c{i}"), "example.com", sans.clone(), "vigil", 1));
    }
    assert!(ledger.rate_limit_check(&sans, "vigil", None, NOW).is_none());
    assert!(ledger.rate_limit_check(&sans, "vigil", None, i64::MAX).is_none(), "at any time");
    assert!(ledger.rate_limit_check(&sans, "vigil", None, i64::MIN).is_none());
    assert_eq!(ledger.events.len(), 100);
}

#[test]
fn custom_window_uses_configured_days() {
    let mut ledger = empty_ledger();
    let sans = vec!["api.example.com".to_string()];
    for i in 0..3u32 {
        ledger.events.push(make_event(&format!("c{i}"), "example.com", sans.clone(), "myca", 1));
    }
    let limits = CaRateLimits {
        certificates_per_domain: None,
        duplicate_certificates: Some(CaRateLimit { count: 3, window_days: 5 }),
    };
    assert!(ledger.rate_limit_check(&sans, "myca", Some(&limits), NOW).is_some());
}

#[test]
fn custom_window_outside_window_not_blocked() {
    let mut ledger = IssuanceLedger::new("ledger.json".to_string(), 30, Vec::new(), NOW);
    let sans = vec!["api.example.com".to_string()];
    for i in 0..3u32 {
        ledger.events.push(make_event(&format!("c{i}"), "example.com", sans.clone(), "myca", 11));
    }
    let limits = CaRateLimits {
        certificates_per_domain: None,
        duplicate_certificates: Some(CaRateLimit { count: 3, window_days: 5 }),
    };
    assert!(ledger.rate_limit_check(&sans, "myca", Some(&limits), NOW).is_none());
}

#[test]
fn retry_after_takes_the_later_gate() {
    let mut ledger = empty_ledger();
    let sans = vec!["api.example.com".to_string()];
    ledger.events.push(make_event("d", "example.com", vec!["x.example.com".into()], "le", 2));
    ledger.events.push(make_event("i", "example.com", sans.clone(), "le", 1));
    let limits = CaRateLimits {
        certificates_per_domain: Some(CaRateLimit { count: 2, window_days: 7 }),
        duplicate_certificates: Some(CaRateLimit { count: 1, window_days: 10 }),
    };
    assert_eq!(ledger.rate_limit_check(&sans, "le", Some(&limits), NOW), Some(NOW - DAY + 10 * DAY));
}

#[test]
fn urlencoded_escapes_slashes() {
    assert_eq!(urlencoded("a/b/c"), "a%2Fb%2Fc");
    assert_eq!(urlencoded("plain"), "plain");
}

#[test]
fn split_cert_chain_separates_leaf_and_chain() {
    let pem = "junk\n-----BEGIN CERTIFICATE-----\nAAA\n-----END CERTIFICATE-----\n  -----BEGIN CERTIFICATE-----\nBBB\n-----END CERTIFICATE-----\ntrailer";
    let (leaf, chain, full) = split_cert_chain(pem);
    assert_eq!(leaf, "junk\n-----BEGIN CERTIFICATE-----\nAAA\n-----END CERTIFICATE-----\n");
    assert_eq!(chain, "-----BEGIN CERTIFICATE-----\nBBB\n-----END CERTIFICATE-----\n");
    assert_eq!(full, format!("{leaf}{chain}"));
}

#[test]
fn split_cert_chain_without_certificates_returns_input() {
    let (leaf, chain, full) = split_cert_chain("not a certificate");
    assert_eq!(leaf, "not a certificate");
    assert_eq!(chain, "");
    assert_eq!(full, "not a certificate");
}

#[test]
fn log_levels_map_to_tracing_filters() {
    assert_eq!(LogLevel::Fatal.as_tracing_filter(), "error");
    assert_eq!(LogLevel::Warn.as_tracing_filter(), "warn");
    assert_eq!(LogLevel::Info.as_tracing_filter(), "info");
    assert_eq!(LogLevel::Debug.as_tracing_filter(), "debug");
}

#[test]
fn domain_quotas_only_shows_cas_with_limits() {
    let mut ledger = empty_ledger();
    ledger.events.push(make_event("c1", "example.com", vec!["a.example.com".into()], "le", 1));
    ledger.events.push(make_event("c2", "example.com", vec!["b.example.com".into()], "vigil", 1));

    let ca_limits = vec![(
        "le".to_string(),
        CaRateLimits {
            certificates_per_domain: Some(CaRateLimit { count: 50, window_days: 7 }),
            duplicate_certificates: None,
        },
    )];
    // vigil not in the list → unlimited → should not appear in quotas

    let quotas = ledger.domain_quotas(&ca_limits, NOW);
    assert_eq!(quotas.len(), 1);
    assert_eq!(quotas[0].ca, "le");
    assert_eq!(quotas[0].limit, 50);
    assert_eq!(quotas[0].window_days, 7);
    assert_eq!(quotas[0].issued, 1);
}

#[test]
fn domain_quotas_sort_and_date_the_next_slot() {
    let mut ledger = IssuanceLedger::new("ledger.json".to_string(), 30, Vec::new(), NOW);
    ledger.events.push(make_event("c1", "zeta.org", vec![], "le", 2));
    ledger.events.push(make_event("c2", "alpha.org", vec![], "le", 3));
    ledger.events.push(make_event("c3", "alpha.org", vec![], "le", 1));
    ledger.events.push(make_event("c4", "alpha.org", vec![], "le", 20));
    let limits = vec![(
        "le".to_string(),
        CaRateLimits { certificates_per_domain: Some(CaRateLimit { count: 2, window_days: 7 }), duplicate_certificates: None },
    )];
    let q = ledger.domain_quotas(&limits, NOW);
    assert_eq!(q.len(), 2);
    assert_eq!(q[0].registered_domain, "alpha.org");
    assert_eq!(q[0].issued, 2);
    assert_eq!(q[0].next_slot_at, Some(NOW - 3 * DAY + 7 * DAY));
    assert_eq!(q[1].registered_domain, "zeta.org");
    assert_eq!(q[1].issued, 1);
    assert_eq!(q[1].next_slot_at, None);
}

#[test]
fn identifier_quotas_follow_assignments_with_limits() {
    let mut ledger = empty_ledger();
    let a = assignment(Some("www.example.com"), &["api.example.com"]);
    let sans = canonical_sans(&a);
    ledger.events.push(make_event("c1", "example.com", sans.clone(), "letsencrypt", 1));
    ledger.events.push(make_event("c2", "example.com", vec!["api.example.com".into()], "letsencrypt", 1));
    let mut other = assignment(None, &["x.example.org"]);
    other.ca = "vigil".into();
    let limits = vec![("letsencrypt".to_string(), le_limits())];
    let q = ledger.identifier_set_quotas(&vec![other, a], &limits, NOW);
    assert_eq!(q.len(), 1);
    assert_eq!(q[0].cert_name, "test");
    assert_eq!(q[0].sans, vec!["api.example.com".to_string(), "www.example.com".to_string()]);
    assert_eq!(q[0].issued, 1);
    assert_eq!((q[0].limit, q[0].window_days), (5, 7));
    assert_eq!(q[0].next_slot_at, None);
}

#[test]
fn corgi_enrollment_reads_csr_reply() {
    let ok = corgi_csr_reply(Some("PEM".into()), None, "{}", Some(8080), Some("node.credo.test".into())).unwrap();
    assert_eq!(ok.csr_pem, "PEM");
    assert_eq!(ok.http_challenge_port, Some(8080));
    assert_eq!(ok.common_name.as_deref(), Some("node.credo.test"));
    assert_eq!(corgi_csr_reply(Some("PEM".into()), None, "{}", Some(70000), None).unwrap().http_challenge_port, None);
    assert_eq!(corgi_csr_reply(None, Some("busy".into()), "{}", None, None).err().unwrap(), "Corgi /bootstrap/csr failed: busy");
    assert_eq!(
        corgi_csr_reply(None, None, "{\"x\":1}", None, None).err().unwrap(),
        "Missing csrPem in corgi response: {\"x\":1}"
    );
}

#[test]
fn corgi_enrollment_registers_its_own_certificate() {
    let a = corgi_assignment("node.credo.test", "node-1", None, "vigil://credo/corgi/node-1");
    assert_eq!(a.ca, "vigil");
    assert_eq!(a.sans, vec!["node.credo.test".to_string()]);
    assert_eq!(a.domain.as_deref(), Some("node.credo.test"));
    assert_eq!(a.validation.as_ref().unwrap().validation_type.as_deref(), Some("http-01"));
    let mut list = vec![assignment(None, &["x"]), corgi_assignment("node.credo.test", "old", Some("le"), "u")];
    list[0].cert_name = "other".into();
    register_assignment(&mut list, a);
    assert_eq!(list.len(), 2);
    assert_eq!(list[0].cert_name, "other");
    assert_eq!(list[1].corgi.as_deref(), Some("node-1"));
    assert_eq!(list[1].ca, "vigil");
}

#[test]
fn assignment_api_adds_replaces_and_removes() {
    let mut list: Vec<ManagedAssignment> = Vec::new();
    let mut a = assignment(Some("www.example.com"), &[]);
    a.cert_name = String::new();
    add_assignment(&mut list, a).unwrap();
    assert_eq!(list[0].cert_name, "www.example.com");
    let mut dup = assignment(None, &[]);
    dup.cert_name = "www.example.com".into();
    assert_eq!(add_assignment(&mut list, dup).err().unwrap(), "Assignment 'www.example.com' already exists");
    let mut nameless = assignment(None, &[]);
    nameless.cert_name = String::new();
    assert_eq!(add_assignment(&mut list, nameless).err().unwrap(), "Assignment must have certName or domain");
    let mut upd = assignment(None, &["x.example.com"]);
    upd.cert_name = "ignored".into();
    replace_assignment(&mut list, "www.example.com", upd).unwrap();
    assert_eq!(list[0].cert_name, "www.example.com");
    assert_eq!(list[0].sans, vec!["x.example.com".to_string()]);
    assert_eq!(replace_assignment(&mut list, "nope", assignment(None, &[])).err().unwrap(), "No assignment for 'nope'");
    assert_eq!(remove_assignment(&mut list, "nope").err().unwrap(), "No assignment for 'nope'");
    remove_assignment(&mut list, "www.example.com").unwrap();
    assert!(list.is_empty());
}

#[test]
fn small_text_helpers() {
    let mut a = assignment(None, &[]);
    assert_eq!(validation_method(&a, "http-01"), "http-01");
    a.validation = Some(AssignmentValidation { validation_type: Some("auto".into()), force_revalidate: false, methods: None });
    assert_eq!(validation_method(&a, "dns-01"), "dns-01");
    a.validation = Some(AssignmentValidation { validation_type: Some("dns-01".into()), force_revalidate: false, methods: None });
    assert_eq!(validation_method(&a, "http-01"), "dns-01");
    assert_eq!(url_hostname("https://node.credo.test:8443/path"), "node.credo.test");
    assert_eq!(url_hostname("https://node.credo.test/x"), "node.credo.test");
    assert_eq!(url_hostname("node.credo.test"), "-");
    assert_eq!(derive_name_from_uri("vigil://credo/admin/alice/"), "alice");
    assert_eq!(derive_name_from_uri("vigil://credo/admin/bob"), "bob");
    assert_eq!(derive_name_from_uri("///"), "admin");
}

#[test]
fn shepherd_settings_fallbacks() {
    let tls = Some(credo::settings::ShepherdRawTls {
        cert_path: None,
        key_path: Some("k.pem".into()),
        client_ca_path: None,
        ca: Some("ca.pem".into()),
        ca_path: None,
        bootstrap_cert_path: Some("b.pem".into()),
        bootstrap_key_path: None,
    });
    let p = credo::settings::shepherd_tls_paths(&tls, &Some("top-cert.pem".into()), &Some("top-key.pem".into()), &Some("top-ca.pem".into()), &None).ok().unwrap();
    assert_eq!((p.cert_path.as_str(), p.key_path.as_str(), p.client_ca_path.as_str()), ("top-cert.pem", "k.pem", "ca.pem"));
    assert_eq!(p.bootstrap_cert_path.as_deref(), Some("b.pem"));
    assert_eq!(
        credo::settings::shepherd_tls_paths(&None, &Some("c".into()), &Some("k".into()), &None, &None).err().unwrap(),
        "Config missing tls.clientCaPath (required \u{2014} mTLS client CA must be configured)"
    );
    assert_eq!(credo::settings::shepherd_tls_paths(&None, &None, &None, &None, &None).err().unwrap(), "Config missing tls.certPath");
    assert_eq!(credo::settings::jwt_signing_key_path(None).err().unwrap(), "Config missing auth.jwtSigningKeyPath");
    assert!(credo::settings::log_level_named(Some("debug")) == LogLevel::Debug);
    assert!(credo::settings::log_level_named(Some("verbose")) == LogLevel::Info);
    assert!(credo::settings::log_level_named(None) == LogLevel::Info);
}

#[test]
fn appended_issuance_is_counted() {
    let mut ledger = empty_ledger();
    ledger.events.push(make_event("c1", "example.com", vec!["a.example.com".into()], "le", 2));
    let before = ledger.domain_count_window("example.com", "le", 7, NOW);
    ledger.append(make_event("c2", "example.com", vec!["b.example.com".into()], "le", 0), NOW);
    assert_eq!(ledger.domain_count_window("example.com", "le", 7, NOW), before + 1);
    assert_eq!(ledger.identifier_count_window(&vec!["b.example.com".to_string()], "le", 7, NOW), 1);
}

#[test]
fn completed_job_releases_certificate() {
    let mut store = JobStore { jobs: Vec::new() };
    let id = store.create_job(7, "web", vec!["web.example.com".into()], "le", NOW);
    assert_eq!(id, 7);
    assert!(store.in_flight("web"));
    assert!(!store.in_flight("other"));
    store.complete_job(7, "AA:BB".into(), NOW + 60);
    assert!(!store.in_flight("web"));
    assert_eq!(store.jobs[0].fingerprint256, Some("AA:BB".to_string()));
    assert_eq!(store.jobs[0].updated_at, NOW + 60);
}

fn trace(step: &str, detail: Option<&str>, identifier: Option<&str>, status: Option<&str>) -> TraceEntry {
    TraceEntry {
        at: "2030-01-15T12:00:00+00:00".to_string(),
        step: step.to_string(),
        detail: detail.map(String::from),
        identifier: identifier.map(String::from),
        status: status.map(String::from),
    }
}

#[test]
fn append_trace_adds_structured_entry() {
    let mut store = JobStore { jobs: Vec::new() };
    let id = store.create_job(11, "example.com", vec!["example.com".into()], "letsencrypt", NOW);
    store.append_trace(id, trace("order-submitted", Some("vigil"), None, None));
    let job = &store.jobs[0];
    assert_eq!(job.trace.len(), 1);
    assert_eq!(job.trace[0].step, "order-submitted");
    assert_eq!(job.trace[0].detail.as_deref(), Some("vigil"));
    assert!(job.trace[0].identifier.is_none());
    chrono::DateTime::parse_from_rfc3339(&job.trace[0].at).unwrap();
}

#[test]
fn append_trace_with_identifier_and_status() {
    let mut store = JobStore { jobs: Vec::new() };
    let id = store.create_job(12, "example.com", vec!["example.com".into()], "letsencrypt", NOW);
    store.append_trace(id, trace("dns-challenge", Some("TXT set"), Some("example.com"), Some("waiting")));
    let entry = &store.jobs[0].trace[0];
    assert_eq!(entry.identifier.as_deref(), Some("example.com"));
    assert_eq!(entry.status.as_deref(), Some("waiting"));
}

#[test]
fn append_trace_noop_for_missing_job() {
    let mut store = JobStore { jobs: Vec::new() };
    store.append_trace(99, trace("step", None, None, None));
    assert!(store.jobs.is_empty());
}
