//! Shepherd's accounts and the credentials it hands out: the account list,
//! refresh tokens, the bootstrap token check, and the decisions of the
//! proof-of-possession token exchange.
use crate::codec::{pem_first_section, read_first_pem, PemSection, PemSectionView};
use crate::text::chars_of;
use crate::types::{copy_string, Role};
use crate::x509::{csr_names_of, parse_csr_names, CsrName, CsrNameView};
use vstd::prelude::*;

verus! {

/// An operator or service account of Shepherd, known by its identity URIs.
pub struct Account {
    pub id: String,
    pub name: String,
    pub display_name: String,
    pub role: Role,
    pub active: bool,
    pub identities: Vec<String>,
    pub notes: String,
    /// RFC 3339 time of creation, where known.
    pub created_at: Option<String>,
}

/// The account holds the identity.
pub open spec fn holds_identity(a: Account, uri: Seq<char>) -> bool {
    exists|k: int| 0 <= k < a.identities@.len() && (#[trigger] a.identities@[k])@ == uri
}

/// The index of the first active account holding an identity URI.
pub open spec fn identity_index(accounts: Seq<Account>, uri: Seq<char>) -> Option<int> {
    if exists|i: int| 0 <= i < accounts.len() && (#[trigger] accounts[i]).active && holds_identity(accounts[i], uri) {
        Some(
            choose|i: int|
                0 <= i < accounts.len() && (#[trigger] accounts[i]).active && holds_identity(accounts[i], uri) && forall|j: int|
                    0 <= j < i ==> !(accounts[j].active && holds_identity(accounts[j], uri)),
        )
    } else {
        None
    }
}

/// The index of the first account with an id.
pub open spec fn account_id_index(accounts: Seq<Account>, id: Seq<char>) -> Option<int> {
    if exists|i: int| 0 <= i < accounts.len() && (#[trigger] accounts[i]).id@ == id {
        Some(
            choose|i: int|
                0 <= i < accounts.len() && (#[trigger] accounts[i]).id@ == id && forall|j: int|
                    0 <= j < i ==> accounts[j].id@ != id,
        )
    } else {
        None
    }
}

fn holds(a: &Account, uri: &str) -> (b: bool)
    ensures
        b == holds_identity(*a, uri@),
{
    let wanted = uri.to_owned();
    let mut k: usize = 0;
    while k < a.identities.len()
        invariant
            k <= a.identities@.len(),
            wanted@ == uri@,
            forall|j: int| 0 <= j < k ==> (#[trigger] a.identities@[j])@ != uri@,
        decreases a.identities@.len() - k,
    {
        if a.identities[k] == wanted {
            return true;
        }
        k = k + 1;
    }
    false
}

fn find_identity_index(accounts: &[Account], uri: &str) -> (r: Option<usize>)
    ensures
        r matches Some(i) ==> identity_index(accounts@, uri@) == Some(i as int) && i < accounts@.len(),
        r is None ==> identity_index(accounts@, uri@) is None,
{
    let mut i: usize = 0;
    while i < accounts.len()
        invariant
            i <= accounts@.len(),
            forall|j: int| 0 <= j < i ==> !((#[trigger] accounts@[j]).active && holds_identity(accounts@[j], uri@)),
        decreases accounts@.len() - i,
    {
        if accounts[i].active && holds(&accounts[i], uri) {
            proof {
                let c = choose|c: int|
                    0 <= c < accounts@.len() && (#[trigger] accounts@[c]).active && holds_identity(accounts@[c], uri@)
                        && forall|j: int| 0 <= j < c ==> !(accounts@[j].active && holds_identity(accounts@[j], uri@));
                assert(accounts@[i as int].active && holds_identity(accounts@[i as int], uri@));
                if c < i {
                } else if c > i {
                }
            }
            return Some(i);
        }
        i = i + 1;
    }
    None
}

/// The first active account holding an identity URI.
pub fn find_by_identity_uri<'a>(accounts: &'a [Account], uri: &str) -> (r: Option<&'a Account>)
    ensures
        match identity_index(accounts@, uri@) {
            Some(i) => r == Some(&accounts@[i]),
            None => r is None,
        },
{
    match find_identity_index(accounts, uri) {
        Some(i) => Some(&accounts[i]),
        None => None,
    }
}

fn find_id_index(accounts: &[Account], id: &str) -> (r: Option<usize>)
    ensures
        r matches Some(i) ==> account_id_index(accounts@, id@) == Some(i as int) && i < accounts@.len(),
        r is None ==> account_id_index(accounts@, id@) is None,
{
    let wanted = id.to_owned();
    let mut i: usize = 0;
    while i < accounts.len()
        invariant
            i <= accounts@.len(),
            wanted@ == id@,
            forall|j: int| 0 <= j < i ==> (#[trigger] accounts@[j]).id@ != id@,
        decreases accounts@.len() - i,
    {
        if accounts[i].id == wanted {
            proof {
                let c = choose|c: int|
                    0 <= c < accounts@.len() && (#[trigger] accounts@[c]).id@ == id@ && forall|j: int|
                        0 <= j < c ==> accounts@[j].id@ != id@;
                assert(accounts@[i as int].id@ == id@);
                if c < i {
                } else if c > i {
                }
            }
            return Some(i);
        }
        i = i + 1;
    }
    None
}

/// The first account with an id.
pub fn find_by_id<'a>(accounts: &'a [Account], id: &str) -> (r: Option<&'a Account>)
    ensures
        match account_id_index(accounts@, id@) {
            Some(i) => r == Some(&accounts@[i]),
            None => r is None,
        },
{
    match find_id_index(accounts, id) {
        Some(i) => Some(&accounts[i]),
        None => None,
    }
}

/// The admin account the bootstrap admin-certificate request registers: named
/// as asked, else after the identity URI's last path segment; the display name
/// is the name; active, with that one identity and no notes.
pub fn bootstrap_admin_account(id: String, name: Option<String>, identity_uri: &str, created_at: String) -> (a: Account)
    ensures
        a.id == id,
        a.name@ == (match name {
            Some(n) => n@,
            None => crate::fleet::spec_name_from_uri(identity_uri@),
        }),
        a.display_name@ == a.name@,
        a.role == Role::Admin,
        a.active,
        a.identities@.len() == 1 && a.identities@[0]@ == identity_uri@,
        a.notes@.len() == 0,
        a.created_at == Some(created_at),
{
    let n = match name {
        Some(n) => n,
        None => crate::fleet::derive_name_from_uri(identity_uri),
    };
    let display = copy_string(&n);
    let mut identities: Vec<String> = Vec::new();
    identities.push(identity_uri.to_owned());
    Account {
        id,
        name: n,
        display_name: display,
        role: Role::Admin,
        active: true,
        identities,
        notes: String::new(),
        created_at: Some(created_at),
    }
}

/// The bootstrap admin-certificate request: the admin's CSR, the days it
/// asks for, its identity URI and, optionally, its account name.
pub struct AdminCertRequest {
    pub csr_pem: String,
    pub days: Option<u32>,
    pub identity_uri: String,
    pub name: Option<String>,
}

impl AdminCertRequest {
    /// The validity asked of Vigil: the days given, else 365.
    pub fn days_or_default(&self) -> (d: u32)
        ensures
            d == (match self.days {
                Some(n) => n,
                None => 365u32,
            }),
    {
        match self.days {
            Some(n) => n,
            None => 365,
        }
    }

    /// The admin account the request registers (see `bootstrap_admin_account`).
    pub fn account(&self, id: String, created_at: String) -> (a: Account)
        ensures
            a.id == id,
            a.name@ == (match self.name {
                Some(n) => n@,
                None => crate::fleet::spec_name_from_uri(self.identity_uri@),
            }),
            a.display_name@ == a.name@,
            a.role == Role::Admin,
            a.active,
            a.identities@.len() == 1 && a.identities@[0]@ == self.identity_uri@,
            a.notes@.len() == 0,
            a.created_at == Some(created_at),
    {
        bootstrap_admin_account(id, crate::types::copy_opt_string(&self.name), self.identity_uri.as_str(), created_at)
    }
}

/// An admin's request for an identity certificate.
pub struct IdentityCertRequest {
    pub csr_pem: String,
    pub days: u32,
}

/// The validity of an identity certificate where the request names none.
pub fn default_identity_cert_days() -> (d: u32)
    ensures
        d == 365,
{
    365
}

/// Adds an account at the end.
pub fn create_account(accounts: &mut Vec<Account>, account: Account)
    ensures
        final(accounts)@ == old(accounts)@.push(account),
{
    accounts.push(account);
}

/// Replaces the first account with an id by what `update` makes of it;
/// false, and nothing changed, where there is none.
#[verifier::rlimit(40)]
pub fn update_account(accounts: &mut Vec<Account>, id: &str, update: impl Fn(Account) -> Account) -> (found: bool)
    requires
        forall|a: Account| update.requires((a,)),
    ensures
        found == account_id_index(old(accounts)@, id@) is Some,
        match account_id_index(old(accounts)@, id@) {
            None => final(accounts)@ == old(accounts)@,
            Some(i) => final(accounts)@.len() == old(accounts)@.len() && update.ensures((old(accounts)@[i],), final(accounts)@[i])
                && final(accounts)@ == old(accounts)@.update(i, final(accounts)@[i]),
        },
{
    match find_id_index(accounts.as_slice(), id) {
        None => false,
        Some(i) => {
            let a = accounts.remove(i);
            let ghost before = a;
            let b = update(a);
            accounts.insert(i, b);
            assert(accounts@ =~= old(accounts)@.update(i as int, b));
            true
        },
    }
}

/// Removes every account with an id; true where one was removed.
pub fn delete_account(accounts: &mut Vec<Account>, id: &str) -> (removed: bool)
    ensures
        final(accounts)@ == old(accounts)@.filter(|a: Account| a.id@ != id@),
        removed == (final(accounts)@.len() < old(accounts)@.len()),
{
    let wanted = id.to_owned();
    let before_len = accounts.len();
    let ghost pred = |a: Account| a.id@ != id@;
    let mut kept: Vec<Account> = Vec::new();
    let mut rest: Vec<Account> = Vec::new();
    std::mem::swap(&mut rest, accounts);
    let ghost all = rest@;
    let mut k: usize = 0;
    proof {
        reveal_with_fuel(Seq::<_>::filter, 1);
        assert(all.subrange(0, 0).filter(pred) =~= Seq::<Account>::empty());
        assert(rest@ =~= all.subrange(0, all.len() as int));
    }
    while rest.len() > 0
        invariant
            k <= all.len(),
            all.len() <= usize::MAX,
            wanted@ == id@,
            pred == (|a: Account| a.id@ != id@),
            rest@ == all.subrange(k as int, all.len() as int),
            kept@ == all.subrange(0, k as int).filter(pred),
        decreases rest@.len(),
    {
        let a = rest.remove(0);
        proof {
            assert(all.subrange(0, k + 1).drop_last() =~= all.subrange(0, k as int));
            assert(all.subrange(0, k + 1).last() == a);
            assert(rest@ =~= all.subrange(k + 1, all.len() as int));
            reveal_with_fuel(Seq::<_>::filter, 1);
        }
        if a.id != wanted {
            kept.push(a);
        }
        k = k + 1;
    }
    assert(all.subrange(0, all.len() as int) =~= all);
    proof {
        lemma_filter_len(all, pred);
    }
    let removed = kept.len() < before_len;
    *accounts = kept;
    removed
}

proof fn lemma_filter_len(s: Seq<Account>, p: spec_fn(Account) -> bool)
    ensures
        s.filter(p).len() <= s.len(),
    decreases s.len(),
{
    reveal_with_fuel(Seq::<_>::filter, 1);
    if s.len() > 0 {
        lemma_filter_len(s.drop_last(), p);
    }
}

/// The role's name as tokens record it.
pub open spec fn role_name(r: Role) -> Seq<char> {
    match r {
        Role::Admin => "admin"@,
        Role::Readonly => "readonly"@,
    }
}

/// What a refresh token stands for.
pub struct RefreshTokenEntry {
    pub identity_uri: String,
    pub role: String,
    pub account_name: Option<String>,
    pub expires_at: i64,
    pub created_at: i64,
}

/// The refresh tokens handed out, each held once.
pub struct RefreshTokenStore {
    pub tokens: Vec<(String, RefreshTokenEntry)>,
}

/// The entry filed under a token, if any (the first).
pub open spec fn token_entry(tokens: Seq<(String, RefreshTokenEntry)>, t: Seq<char>) -> Option<RefreshTokenEntry>
    decreases tokens.len(),
{
    if tokens.len() == 0 {
        None
    } else if tokens[0].0@ == t {
        Some(tokens[0].1)
    } else {
        token_entry(tokens.drop_first(), t)
    }
}

/// `tokens` without the entries filed under `t`.
pub open spec fn without_token(tokens: Seq<(String, RefreshTokenEntry)>, t: Seq<char>) -> Seq<(String, RefreshTokenEntry)> {
    tokens.filter(other_token(t))
}

/// An entry filed under another token than `t`.
pub open spec fn other_token(t: Seq<char>) -> spec_fn((String, RefreshTokenEntry)) -> bool {
    |e: (String, RefreshTokenEntry)| e.0@ != t
}

/// `rand::thread_rng().sample_iter(&Alphanumeric).take(48)`: 48 random ASCII
/// letters and digits; nothing else is stated of them.
#[verifier::external_body]
fn random_alphanumeric_48() -> (s: String)
    ensures
        s@.len() == 48,
{
    rand::Rng::sample_iter(rand::thread_rng(), &rand::distributions::Alphanumeric).take(48).map(char::from).collect()
}

proof fn lemma_entry_without(tokens: Seq<(String, RefreshTokenEntry)>, t: Seq<char>, u: Seq<char>)
    ensures
        token_entry(without_token(tokens, t), u) == if u == t {
            None
        } else {
            token_entry(tokens, u)
        },
    decreases tokens.len(),
{
    let p = other_token(t);
    if tokens.len() == 0 {
        assert(without_token(tokens, t) =~= Seq::<(String, RefreshTokenEntry)>::empty());
    } else {
        let rest = tokens.drop_first();
        lemma_entry_without(rest, t, u);
        assert(tokens =~= seq![tokens[0]] + rest);
        rest.lemma_filter_prepend(tokens[0], p);
        assert(without_token(tokens, t) == (if p(tokens[0]) {
            seq![tokens[0]]
        } else {
            Seq::empty()
        }) + without_token(rest, t));
        if tokens[0].0@ != t {
            let w = seq![tokens[0]] + without_token(rest, t);
            assert(w.drop_first() =~= without_token(rest, t));
            assert(w[0] == tokens[0]);
        } else {
            assert(Seq::<(String, RefreshTokenEntry)>::empty() + without_token(rest, t) =~= without_token(rest, t));
        }
    }
}

fn remove_token(tokens: &mut Vec<(String, RefreshTokenEntry)>, t: &str)
    ensures
        final(tokens)@ == without_token(old(tokens)@, t@),
{
    let wanted = t.to_owned();
    let ghost pred = other_token(t@);
    let mut kept: Vec<(String, RefreshTokenEntry)> = Vec::new();
    let mut rest: Vec<(String, RefreshTokenEntry)> = Vec::new();
    std::mem::swap(&mut rest, tokens);
    let ghost all = rest@;
    let n0 = rest.len();
    assert(all.len() == n0);
    let mut k: usize = 0;
    proof {
        reveal_with_fuel(Seq::<_>::filter, 1);
        assert(all.subrange(0, 0).filter(pred) =~= Seq::<(String, RefreshTokenEntry)>::empty());
        assert(rest@ =~= all.subrange(0, all.len() as int));
    }
    while rest.len() > 0
        invariant
            k <= all.len(),
            all.len() <= usize::MAX,
            wanted@ == t@,
            pred == other_token(t@),
            rest@ == all.subrange(k as int, all.len() as int),
            kept@ == all.subrange(0, k as int).filter(pred),
        decreases rest@.len(),
    {
        let e = rest.remove(0);
        proof {
            assert(all.subrange(0, k + 1).drop_last() =~= all.subrange(0, k as int));
            assert(all.subrange(0, k + 1).last() == e);
            assert(rest@ =~= all.subrange(k + 1, all.len() as int));
            reveal_with_fuel(Seq::<_>::filter, 1);
        }
        if e.0 != wanted {
            kept.push(e);
        }
        k = k + 1;
    }
    assert(all.subrange(0, all.len() as int) =~= all);
    *tokens = kept;
}

proof fn lemma_entry_push(tokens: Seq<(String, RefreshTokenEntry)>, e: (String, RefreshTokenEntry), u: Seq<char>)
    ensures
        token_entry(tokens.push(e), u) == match token_entry(tokens, u) {
            Some(x) => Some(x),
            None => if e.0@ == u {
                Some(e.1)
            } else {
                None
            },
        },
    decreases tokens.len(),
{
    let s = tokens.push(e);
    assert(s[0] == if tokens.len() == 0 { e } else { tokens[0] });
    if tokens.len() == 0 {
        assert(s.drop_first() =~= Seq::<(String, RefreshTokenEntry)>::empty());
        assert(token_entry(s.drop_first(), u) is None);
    } else {
        assert(s.drop_first() =~= tokens.drop_first().push(e));
        lemma_entry_push(tokens.drop_first(), e, u);
    }
}

fn lookup_token(tokens: &Vec<(String, RefreshTokenEntry)>, t: &str) -> (r: Option<usize>)
    ensures
        match r {
            Some(i) => i < tokens@.len() && token_entry(tokens@, t@) == Some(tokens@[i as int].1),
            None => token_entry(tokens@, t@) is None,
        },
{
    let wanted = t.to_owned();
    let n = tokens.len();
    let mut i: usize = 0;
    assert(tokens@.subrange(0, n as int) =~= tokens@);
    while i < n
        invariant
            n == tokens@.len(),
            wanted@ == t@,
            i <= n,
            token_entry(tokens@, t@) == token_entry(tokens@.subrange(i as int, n as int), t@),
        decreases n - i,
    {
        proof {
            let r = tokens@.subrange(i as int, n as int);
            assert(r.drop_first() =~= tokens@.subrange(i + 1, n as int));
            assert(r[0] == tokens@[i as int]);
        }
        if tokens[i].0 == wanted {
            return Some(i);
        }
        i = i + 1;
    }
    None
}

fn copy_entry(e: &RefreshTokenEntry) -> (r: RefreshTokenEntry)
    ensures
        r == *e,
{
    RefreshTokenEntry {
        identity_uri: copy_string(&e.identity_uri),
        role: copy_string(&e.role),
        account_name: crate::types::copy_opt_string(&e.account_name),
        expires_at: e.expires_at,
        created_at: e.created_at,
    }
}

impl RefreshTokenStore {
    /// The store read back from disk, without the tokens that expired by `now`.
    pub fn load(entries: Vec<(String, RefreshTokenEntry)>, now: i64) -> (store: Self)
        ensures
            store.tokens@ == entries@.filter(|e: (String, RefreshTokenEntry)| e.1.expires_at > now),
    {
        let ghost pred = |e: (String, RefreshTokenEntry)| e.1.expires_at > now;
        let mut kept: Vec<(String, RefreshTokenEntry)> = Vec::new();
        let mut rest = entries;
        let ghost all = rest@;
        let n0 = rest.len();
        assert(all.len() == n0);
        let mut k: usize = 0;
        proof {
            reveal_with_fuel(Seq::<_>::filter, 1);
            assert(all.subrange(0, 0).filter(pred) =~= Seq::<(String, RefreshTokenEntry)>::empty());
            assert(rest@ =~= all.subrange(0, all.len() as int));
        }
        while rest.len() > 0
            invariant
                k <= all.len(),
                all.len() <= usize::MAX,
                pred == (|e: (String, RefreshTokenEntry)| e.1.expires_at > now),
                rest@ == all.subrange(k as int, all.len() as int),
                kept@ == all.subrange(0, k as int).filter(pred),
            decreases rest@.len(),
        {
            let e = rest.remove(0);
            proof {
                assert(all.subrange(0, k + 1).drop_last() =~= all.subrange(0, k as int));
                assert(all.subrange(0, k + 1).last() == e);
                assert(rest@ =~= all.subrange(k + 1, all.len() as int));
                reveal_with_fuel(Seq::<_>::filter, 1);
            }
            if e.1.expires_at > now {
                kept.push(e);
            }
            k = k + 1;
        }
        assert(all.subrange(0, all.len() as int) =~= all);
        RefreshTokenStore { tokens: kept }
    }

    /// Files an entry under a token, replacing what was filed under it.
    pub fn file_token(&mut self, token: String, entry: RefreshTokenEntry)
        ensures
            final(self).tokens@ == without_token(old(self).tokens@, token@).push((token, entry)),
    {
        remove_token(&mut self.tokens, token.as_str());
        self.tokens.push((token, entry));
    }

    /// Issues a refresh token for an identity: 48 random letters and digits,
    /// filed with the role's name, the account's name, the expiry, and the
    /// time of issue.
    pub fn issue_token(&mut self, identity_uri: &str, role: Role, account_name: Option<&str>, expires_at: i64, now: i64) -> (token: String)
        ensures
            token@.len() == 48,
            final(self).tokens@ == without_token(old(self).tokens@, token@).push(
                (token, final(self).tokens@.last().1),
            ),
            ({
                let e = final(self).tokens@.last().1;
                &&& e.identity_uri@ == identity_uri@
                &&& e.role@ == role_name(role)
                &&& match account_name {
                    Some(n) => e.account_name matches Some(m) && m@ == n@,
                    None => e.account_name is None,
                }
                &&& e.expires_at == expires_at
                &&& e.created_at == now
            }),
    {
        let token = random_alphanumeric_48();
        let role_text = match role {
            Role::Admin => String::from_str("admin"),
            Role::Readonly => String::from_str("readonly"),
        };
        proof {
            reveal_strlit("admin");
            reveal_strlit("readonly");
        }
        let entry = RefreshTokenEntry {
            identity_uri: identity_uri.to_owned(),
            role: role_text,
            account_name: match account_name {
                Some(n) => Some(n.to_owned()),
                None => None,
            },
            expires_at,
            created_at: now,
        };
        let copy = copy_string(&token);
        self.file_token(copy, entry);
        token
    }

    /// The entry of a token that has not expired by `now`.
    pub fn validate_token(&self, token: &str, now: i64) -> (r: Option<RefreshTokenEntry>)
        ensures
            r == match token_entry(self.tokens@, token@) {
                Some(e) => if e.expires_at < now {
                    None
                } else {
                    Some(e)
                },
                None => None,
            },
    {
        match lookup_token(&self.tokens, token) {
            None => None,
            Some(i) => {
                if self.tokens[i].1.expires_at < now {
                    None
                } else {
                    Some(copy_entry(&self.tokens[i].1))
                }
            },
        }
    }

    /// Withdraws a token.
    pub fn revoke_token(&mut self, token: &str)
        ensures
            final(self).tokens@ == without_token(old(self).tokens@, token@),
    {
        remove_token(&mut self.tokens, token);
    }
}

/// What is filed under a token is what reads back: after filing `e` under
/// `t`, `t` finds `e` and every other token finds what it found before;
/// after withdrawing `t`, `t` finds nothing and the others are unchanged.
pub proof fn law_token_reads_back(tokens: Seq<(String, RefreshTokenEntry)>, t: String, e: RefreshTokenEntry, u: Seq<char>)
    ensures
        token_entry(without_token(tokens, t@).push((t, e)), t@) == Some(e),
        u != t@ ==> token_entry(without_token(tokens, t@).push((t, e)), u) == token_entry(tokens, u),
        token_entry(without_token(tokens, t@), t@) is None,
        u != t@ ==> token_entry(without_token(tokens, t@), u) == token_entry(tokens, u),
{
    lemma_entry_without(tokens, t@, t@);
    lemma_entry_without(tokens, t@, u);
    lemma_entry_push(without_token(tokens, t@), (t, e), t@);
    lemma_entry_push(without_token(tokens, t@), (t, e), u);
}

/// The bootstrap token check: the header is exactly `Bearer <token>`
/// (an absent header reads as empty); never, where no token is set.
pub open spec fn bearer_matches(header: Option<Seq<char>>, expected: Option<Seq<char>>) -> bool {
    match expected {
        None => false,
        Some(e) => (match header {
            Some(h) => h,
            None => ""@,
        }) == "Bearer "@ + e,
    }
}

/// Checks an `Authorization` header against the bootstrap token (see
/// `bearer_matches`), looking at every character whatever the first
/// difference.
pub fn check_bootstrap_token(header: Option<&str>, expected: Option<&str>) -> (b: bool)
    ensures
        b == bearer_matches(crate::acme::opt_str(header), crate::acme::opt_str(expected)),
{
    let e = match expected {
        Some(e) => e,
        None => return false,
    };
    let auth = match header {
        Some(h) => chars_of(h),
        None => Vec::new(),
    };
    let mut full = String::from_str("Bearer ");
    full.append(e);
    let want = chars_of(full.as_str());
    proof {
        reveal_strlit("");
        reveal_strlit("Bearer ");
    }
    if auth.len() != want.len() {
        return false;
    }
    let mut acc: u8 = 0;
    let mut i: usize = 0;
    while i < auth.len()
        invariant
            i <= auth@.len(),
            auth@.len() == want@.len(),
            (acc == 0) == (forall|j: int| 0 <= j < i ==> auth@[j] == want@[j]),
        decreases auth@.len() - i,
    {
        let d: u8 = if auth[i] == want[i] { 0 } else { 1 };
        let next: u8 = acc | d;
        proof {
            assert((acc | d) == 0u8 <==> (acc == 0u8 && d == 0u8)) by (bit_vector);
        }
        acc = next;
        i = i + 1;
    }
    proof {
        assert((acc == 0) <==> auth@ =~= want@);
    }
    acc == 0
}

/// Why Shepherd refuses an API request: a malformed request, or one that is
/// not allowed.
#[derive(Debug)]
pub enum ApiError {
    BadRequest(String),
    Unauthorized(String),
}

pub open spec fn api_error_is(e: ApiError, unauthorized: bool, msg: Seq<char>) -> bool {
    match e {
        ApiError::BadRequest(m) => !unauthorized && m@ == msg,
        ApiError::Unauthorized(m) => unauthorized && m@ == msg,
    }
}

/// The `pop` member of a token request, each field where it is a string.
pub struct PopFields {
    pub cert: Option<String>,
    pub identity_uri: Option<String>,
    pub issued_at: Option<String>,
    pub challenge: Option<String>,
    pub signature: Option<String>,
}

/// A proof of possession whose fields are all present and which is fresh.
pub struct PopRequest {
    pub cert: String,
    pub identity_uri: String,
    pub issued_at: String,
    pub challenge: String,
    pub signature: String,
}

/// A proof of possession is stale once five whole minutes have passed
/// since it was made.
pub open spec fn pop_expired(issued_at: int, now: int) -> bool {
    now - issued_at >= 360
}

/// The first checks of a token exchange, in order: the `pop` member and
/// each of its fields are present (400, naming the first missing one), its
/// time parses (400), and it is fresh at `now` (401).
pub open spec fn spec_pop_check(pop: Option<PopFields>, now: int) -> Result<(), (bool, Seq<char>)> {
    match pop {
        None => Err((false, "Missing pop field"@)),
        Some(p) => if p.cert is None {
            Err((false, "Missing pop.cert"@))
        } else if p.identity_uri is None {
            Err((false, "Missing pop.identityUri"@))
        } else if p.issued_at is None {
            Err((false, "Missing pop.issuedAt"@))
        } else if p.challenge is None {
            Err((false, "Missing pop.challenge"@))
        } else if p.signature is None {
            Err((false, "Missing pop.signature"@))
        } else {
            match crate::clock::rfc3339_seconds(p.issued_at->Some_0@) {
                None => Err((false, "Invalid issuedAt format"@)),
                Some(t) => if pop_expired(t, now) {
                    Err((true, "PoP token has expired"@))
                } else {
                    Ok(())
                },
            }
        },
    }
}

fn bad_request(msg: &str) -> (e: ApiError)
    ensures
        api_error_is(e, false, msg@),
{
    ApiError::BadRequest(msg.to_owned())
}

fn unauthorized(msg: &str) -> (e: ApiError)
    ensures
        api_error_is(e, true, msg@),
{
    ApiError::Unauthorized(msg.to_owned())
}

/// Runs the first checks of a token exchange (see `spec_pop_check`) at `now`.
pub fn check_pop(pop: Option<PopFields>, now: i64) -> (res: Result<PopRequest, ApiError>)
    ensures
        match spec_pop_check(pop, now as int) {
            Err((u, m)) => res matches Err(e) && api_error_is(e, u, m),
            Ok(()) => res matches Ok(r) && pop matches Some(p) && p.cert == Some(r.cert) && p.identity_uri == Some(
                r.identity_uri,
            ) && p.issued_at == Some(r.issued_at) && p.challenge == Some(r.challenge) && p.signature == Some(r.signature),
        },
{
    let p = match pop {
        Some(p) => p,
        None => return Err(bad_request("Missing pop field")),
    };
    let cert = match p.cert {
        Some(c) => c,
        None => return Err(bad_request("Missing pop.cert")),
    };
    let identity_uri = match p.identity_uri {
        Some(c) => c,
        None => return Err(bad_request("Missing pop.identityUri")),
    };
    let issued_at = match p.issued_at {
        Some(c) => c,
        None => return Err(bad_request("Missing pop.issuedAt")),
    };
    let challenge = match p.challenge {
        Some(c) => c,
        None => return Err(bad_request("Missing pop.challenge")),
    };
    let signature = match p.signature {
        Some(c) => c,
        None => return Err(bad_request("Missing pop.signature")),
    };
    let t = match crate::clock::parse_rfc3339_seconds(issued_at.as_str()) {
        Some(t) => t,
        None => return Err(bad_request("Invalid issuedAt format")),
    };
    if now as i128 - t as i128 >= 360 {
        return Err(unauthorized("PoP token has expired"));
    }
    Ok(PopRequest { cert, identity_uri, issued_at, challenge, signature })
}

/// The first URI that names a Vigil identity.
pub open spec fn first_vigil_uri(uris: Seq<String>) -> Option<Seq<char>>
    decreases uris.len(),
{
    if uris.len() == 0 {
        None
    } else if crate::text::starts_with(uris[0]@, "vigil://"@) {
        Some(uris[0]@)
    } else {
        first_vigil_uri(uris.drop_first())
    }
}

fn first_vigil_index(uris: &Vec<String>) -> (found: Option<usize>)
    ensures
        match found {
            Some(j) => j < uris@.len() && first_vigil_uri(uris@) == Some(uris@[j as int]@),
            None => first_vigil_uri(uris@) is None,
        },
{
    let prefix: Vec<char> = vec!['v', 'i', 'g', 'i', 'l', ':', '/', '/'];
    proof {
        reveal_strlit("vigil://");
        assert(prefix@ =~= "vigil://"@);
    }
    let mut i: usize = 0;
    let n = uris.len();
    assert(uris@.subrange(0, n as int) =~= uris@);
    while i < n
        invariant
            n == uris@.len(),
            i <= n,
            prefix@ == "vigil://"@,
            first_vigil_uri(uris@) == first_vigil_uri(uris@.subrange(i as int, n as int)),
        decreases n - i,
    {
        proof {
            let r = uris@.subrange(i as int, n as int);
            assert(r.drop_first() =~= uris@.subrange(i + 1, n as int));
            assert(r[0] == uris@[i as int]);
        }
        let c = chars_of(uris[i].as_str());
        if crate::text::starts_with_chars(c.as_slice(), prefix.as_slice()) {
            return Some(i);
        }
        i = i + 1;
    }
    None
}

/// The last checks of a token exchange, on the URIs the certificate names
/// (`None` where its identity could not be read, 400): one must name a Vigil
/// identity (401), the first such must be the identity claimed (401), and an
/// active account must hold it (401). On success, that account's index.
pub fn pop_account(cert_uris: Option<Vec<String>>, identity_uri: &str, accounts: &[Account]) -> (res: Result<usize, ApiError>)
    ensures
        match cert_uris {
            None => res matches Err(e) && api_error_is(e, false, "Could not parse cert identity"@),
            Some(u) => match first_vigil_uri(u@) {
                None => res matches Err(e) && api_error_is(e, true, "Certificate has no vigil:// URI SAN"@),
                Some(v) => if v != identity_uri@ {
                    res matches Err(e) && api_error_is(e, true, "pop.identityUri does not match certificate URI SAN"@)
                } else {
                    match identity_index(accounts@, identity_uri@) {
                        None => res matches Err(e) && api_error_is(e, true, "Identity not found in accounts"@),
                        Some(k) => res == Ok::<usize, ApiError>(k as usize),
                    }
                },
            },
        },
{
    let uris = match cert_uris {
        Some(u) => u,
        None => return Err(bad_request("Could not parse cert identity")),
    };
    let found = first_vigil_index(&uris);
    let j = match found {
        Some(j) => j,
        None => return Err(unauthorized("Certificate has no vigil:// URI SAN")),
    };
    if uris[j].as_str().to_owned() != identity_uri.to_owned() {
        return Err(unauthorized("pop.identityUri does not match certificate URI SAN"));
    }
    match find_identity_index(accounts, identity_uri) {
        Some(k) => Ok(k),
        None => Err(unauthorized("Identity not found in accounts")),
    }
}

/// Why a CSR may not become an identity certificate.
#[derive(Debug, Clone, Copy, PartialEq, Eq, Structural)]
pub enum IdentityCsrError {
    /// The PEM text cannot be read.
    Unreadable,
    /// Its first section is no CSR.
    NoCsr,
    /// The block is no CSR.
    Unparsable,
    /// The CSR asks for a DNS name.
    DnsSan,
}

impl IdentityCsrError {
    /// The refusal as the API words it.
    pub fn message(&self) -> (m: String)
        ensures
            m@ == (match *self {
                IdentityCsrError::Unreadable => "CSR rejected: Reading CSR PEM"@,
                IdentityCsrError::NoCsr => "CSR rejected: No CSR found in PEM input"@,
                IdentityCsrError::Unparsable => "CSR rejected: Could not parse CSR DER"@,
                IdentityCsrError::DnsSan => "CSR rejected: identity certs must not contain DNS SANs; use URI SANs (e.g. vigil://credo/admin/<name>) instead"@,
            }),
    {
        match self {
            IdentityCsrError::Unreadable => "CSR rejected: Reading CSR PEM".to_owned(),
            IdentityCsrError::NoCsr => "CSR rejected: No CSR found in PEM input".to_owned(),
            IdentityCsrError::Unparsable => "CSR rejected: Could not parse CSR DER".to_owned(),
            IdentityCsrError::DnsSan => "CSR rejected: identity certs must not contain DNS SANs; use URI SANs (e.g. vigil://credo/admin/<name>) instead".to_owned(),
        }
    }
}

/// Identity certificates name their holder by URI: the first PEM section
/// must be a CSR that reads as one and asks for no DNS name.
pub fn csr_has_no_dns_sans(csr_pem: &str) -> (r: Result<(), IdentityCsrError>)
    ensures
        r == (match pem_first_section(csr_pem@) {
            None => Err(IdentityCsrError::Unreadable),
            Some(Some(PemSectionView::Csr(der))) => match csr_names_of(der) {
                None => Err(IdentityCsrError::Unparsable),
                Some(names) => if exists|i: int| 0 <= i < names.len() && (#[trigger] names[i]) is Dns {
                    Err(IdentityCsrError::DnsSan)
                } else {
                    Ok(())
                },
            },
            Some(_) => Err(IdentityCsrError::NoCsr),
        }),
{
    let der = match read_first_pem(csr_pem) {
        None => return Err(IdentityCsrError::Unreadable),
        Some(Some(PemSection::Csr(d))) => d,
        Some(_) => return Err(IdentityCsrError::NoCsr),
    };
    let names = match parse_csr_names(der.as_slice()) {
        Some(n) => n,
        None => return Err(IdentityCsrError::Unparsable),
    };
    let ghost views = csr_names_of(der@)->Some_0;
    assert(views == crate::x509::name_views(names@));
    let mut i: usize = 0;
    while i < names.len()
        invariant
            i <= names@.len(),
            pem_first_section(csr_pem@) == Some(Some(PemSectionView::Csr(der@))),
            csr_names_of(der@) == Some(views),
            views == crate::x509::name_views(names@),
            forall|j: int| 0 <= j < i ==> !((#[trigger] views[j]) is Dns),
        decreases names@.len() - i,
    {
        match &names[i] {
            CsrName::Dns(_) => {
                assert(views[i as int] is Dns);
                return Err(IdentityCsrError::DnsSan);
            },
            _ => {},
        }
        i = i + 1;
    }
    Ok(())
}

} // verus!
