use credo::shepherd_auth::{
    check_bootstrap_token, check_pop, create_account, delete_account, pop_account, update_account, Account, ApiError, PopFields, RefreshTokenEntry, RefreshTokenStore,
};
use credo::types::Role;

fn make_account(id: &str, name: &str, role: Role) -> Account {
    Account {
        id: id.to_string(),
        name: name.to_string(),
        display_name: format!("{name} Display"),
        role,
        active: true,
        identities: vec![format!("vigil://credo/test/{name}")],
        notes: String::new(),
        created_at: None,
    }
}

/// `find_by_identity_uri` finds an active account by URI; returns None for unknown URI.
#[test]
fn find_by_identity_uri() {
    let accts = vec![
        make_account("a1", "alice", Role::Admin),
        make_account("a2", "bob", Role::Readonly),
    ];

    let found = credo::shepherd_auth::find_by_identity_uri(&accts, "vigil://credo/test/alice");
    assert!(found.is_some());
    assert_eq!(found.unwrap().id, "a1");

    let not_found = credo::shepherd_auth::find_by_identity_uri(&accts, "vigil://credo/test/unknown");
    assert!(not_found.is_none());
}

/// `find_by_id` locates an account by its ID.
#[test]
fn find_by_id() {
    let accts = vec![make_account("x1", "xray", Role::Admin)];
    assert!(credo::shepherd_auth::find_by_id(&accts, "x1").is_some());
    assert!(credo::shepherd_auth::find_by_id(&accts, "nope").is_none());
}

/// `create_account` appends the account to the vec.
#[test]
fn create_account_appends() {
    let mut accts: Vec<Account> = vec![];
    create_account(&mut accts, make_account("new1", "newuser", Role::Admin));
    assert_eq!(accts.len(), 1);
    assert_eq!(accts[0].id, "new1");
}

/// `update_account` changes the matching account; returns false for unknown IDs.
#[test]
fn update_account_mutates() {
    let mut accts = vec![make_account("u1", "user1", Role::Readonly)];

    let updated = update_account(&mut accts, "u1", |mut a| {
        a.active = false;
        a
    });
    assert!(updated, "update must return true for known ID");
    assert!(!accts[0].active, "account must be deactivated");

    let not_found = update_account(&mut accts, "unknown", |mut a| {
        a.active = true;
        a
    });
    assert!(!not_found, "update must return false for unknown ID");
}

/// `delete_account` removes the account; returns false for unknown IDs.
#[test]
fn delete_account_removes() {
    let mut accts = vec![
        make_account("d1", "del1", Role::Admin),
        make_account("d2", "del2", Role::Admin),
    ];

    let removed = delete_account(&mut accts, "d1");
    assert!(removed, "delete must return true for known ID");
    assert_eq!(accts.len(), 1);
    assert_eq!(accts[0].id, "d2");

    let not_found = delete_account(&mut accts, "d1");
    assert!(!not_found, "delete must return false for already-removed ID");
}

#[test]
fn inactive_accounts_hold_no_identity() {
    let mut accts = vec![make_account("a1", "alice", Role::Admin), make_account("a2", "alice", Role::Readonly)];
    accts[0].active = false;
    assert_eq!(credo::shepherd_auth::find_by_identity_uri(&accts, "vigil://credo/test/alice").unwrap().id, "a2");
    assert_eq!(credo::shepherd_auth::find_by_id(&accts, "a1").unwrap().name, "alice");
}

fn entry(uri: &str, expires_at: i64) -> RefreshTokenEntry {
    RefreshTokenEntry { identity_uri: uri.to_string(), role: "admin".to_string(), account_name: None, expires_at, created_at: 0 }
}

#[test]
fn refresh_tokens_issue_validate_and_revoke() {
    let mut store = RefreshTokenStore::load(vec![("old".to_string(), entry("u0", 5)), ("live".to_string(), entry("u1", 500))], 100);
    assert_eq!(store.tokens.len(), 1);
    assert!(store.validate_token("old", 100).is_none());
    let t = store.issue_token("vigil://credo/x", Role::Readonly, Some("xray"), 1000, 200);
    assert_eq!(t.len(), 48);
    assert!(t.chars().all(|c| c.is_ascii_alphanumeric()));
    let e = store.validate_token(&t, 999).unwrap();
    assert_eq!(e.identity_uri, "vigil://credo/x");
    assert_eq!(e.role, "readonly");
    assert_eq!(e.account_name.as_deref(), Some("xray"));
    assert_eq!(e.created_at, 200);
    assert!(store.validate_token(&t, 1001).is_none());
    assert!(store.validate_token(&t, 1000).is_some());
    store.revoke_token(&t);
    assert!(store.validate_token(&t, 999).is_none());
    assert_eq!(store.validate_token("live", 100).unwrap().identity_uri, "u1");
}

#[test]
fn bootstrap_token_needs_exact_bearer() {
    assert!(check_bootstrap_token(Some("Bearer s3cret"), Some("s3cret")));
    assert!(!check_bootstrap_token(Some("Bearer s3cres"), Some("s3cret")));
    assert!(!check_bootstrap_token(Some("bearer s3cret"), Some("s3cret")));
    assert!(!check_bootstrap_token(Some("Bearer s3cret "), Some("s3cret")));
    assert!(!check_bootstrap_token(None, Some("s3cret")));
    assert!(!check_bootstrap_token(Some("Bearer "), None));
}

fn pop(issued_at: &str) -> PopFields {
    PopFields {
        cert: Some("PEM".into()),
        identity_uri: Some("vigil://credo/test/alice".into()),
        issued_at: Some(issued_at.into()),
        challenge: Some("00ff".into()),
        signature: Some("sig".into()),
    }
}

fn message(e: ApiError) -> (bool, String) {
    match e {
        ApiError::BadRequest(m) => (false, m),
        ApiError::Unauthorized(m) => (true, m),
    }
}

#[test]
fn pop_checks_fields_then_freshness() {
    let now = 1_767_225_600; // 2026-01-01T00:00:00Z
    assert_eq!(message(check_pop(None, now).err().unwrap()), (false, "Missing pop field".into()));
    let mut p = pop("2026-01-01T00:00:00Z");
    p.challenge = None;
    assert_eq!(message(check_pop(Some(p), now).err().unwrap()), (false, "Missing pop.challenge".into()));
    assert_eq!(message(check_pop(Some(pop("yesterday")), now).err().unwrap()), (false, "Invalid issuedAt format".into()));
    assert!(check_pop(Some(pop("2025-12-31T23:54:01Z")), now).is_ok());
    assert_eq!(message(check_pop(Some(pop("2025-12-31T23:54:00Z")), now).err().unwrap()), (true, "PoP token has expired".into()));
    let ok = check_pop(Some(pop("2026-01-01T00:10:00Z")), now).unwrap();
    assert_eq!(ok.identity_uri, "vigil://credo/test/alice");
}

#[test]
fn pop_identity_must_match_an_account() {
    let accts = vec![make_account("a1", "alice", Role::Admin)];
    let uri = "vigil://credo/test/alice";
    assert_eq!(message(pop_account(None, uri, &accts).err().unwrap()).1, "Could not parse cert identity");
    assert_eq!(message(pop_account(Some(vec!["https://x".into()]), uri, &accts).err().unwrap()).1, "Certificate has no vigil:// URI SAN");
    assert_eq!(
        message(pop_account(Some(vec!["vigil://credo/test/bob".into(), uri.into()]), uri, &accts).err().unwrap()).1,
        "pop.identityUri does not match certificate URI SAN"
    );
    assert_eq!(pop_account(Some(vec!["spiffe://x".into(), uri.into()]), uri, &accts).ok(), Some(0));
    assert_eq!(
        message(pop_account(Some(vec!["vigil://credo/test/carol".into()]), "vigil://credo/test/carol", &accts).err().unwrap()),
        (true, "Identity not found in accounts".into())
    );
}
