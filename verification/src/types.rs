//! Records kept by the Vigil certificate authority.
use vstd::prelude::*;

verus! {

/// Role of an identity.
#[derive(Debug, Clone, Copy, PartialEq, Eq, Structural)]
pub enum Role {
    Admin,
    Readonly,
}

pub fn copy_string(s: &String) -> (r: String)
    ensures
        r == *s,
{
    s.clone()
}

pub fn copy_opt_string(o: &Option<String>) -> (r: Option<String>)
    ensures
        r == *o,
{
    match o {
        Some(s) => Some(s.clone()),
        None => None,
    }
}

pub fn copy_strings(v: &Vec<String>) -> (r: Vec<String>)
    ensures
        r@ == v@,
{
    let mut out: Vec<String> = Vec::new();
    let mut i: usize = 0;
    while i < v.len()
        invariant
            i <= v@.len(),
            out@ == v@.subrange(0, i as int),
        decreases v@.len() - i,
    {
        out.push(v[i].clone());
        i = i + 1;
        assert(out@ =~= v@.subrange(0, i as int));
    }
    assert(out@ =~= v@);
    out
}

pub struct VigilUser {
    pub id: String,
    pub name: String,
    pub role: Role,
    pub active: bool,
    pub public_key_pem: String,
    pub public_key_fingerprint256: String,
}

impl VigilUser {
    pub fn duplicate(&self) -> (r: Self)
        ensures
            r == *self,
    {
        VigilUser {
            id: copy_string(&self.id),
            name: copy_string(&self.name),
            role: self.role,
            active: self.active,
            public_key_pem: copy_string(&self.public_key_pem),
            public_key_fingerprint256: copy_string(&self.public_key_fingerprint256),
        }
    }
}

pub struct CertificateRecord {
    pub id: String,
    pub serial_number: String,
    pub subject: String,
    pub fingerprint256: String,
    pub valid_from: String,
    pub valid_to: String,
    pub cert_path: String,
    pub issued_at: String,
    pub issued_by: String,
    pub owner_vigil_user_id: String,
    pub issuing_acme_account_id: Option<String>,
    pub revoked: bool,
    pub revoked_at: Option<String>,
    pub revoked_by: Option<String>,
    pub revoked_by_vigil_user_id: Option<String>,
    pub revoked_by_acme_account_id: Option<String>,
    pub revoked_via: Option<String>,
    pub revoke_reason: Option<String>,
}

impl CertificateRecord {
    pub fn duplicate(&self) -> (r: Self)
        ensures
            r == *self,
    {
        CertificateRecord {
            id: copy_string(&self.id),
            serial_number: copy_string(&self.serial_number),
            subject: copy_string(&self.subject),
            fingerprint256: copy_string(&self.fingerprint256),
            valid_from: copy_string(&self.valid_from),
            valid_to: copy_string(&self.valid_to),
            cert_path: copy_string(&self.cert_path),
            issued_at: copy_string(&self.issued_at),
            issued_by: copy_string(&self.issued_by),
            owner_vigil_user_id: copy_string(&self.owner_vigil_user_id),
            issuing_acme_account_id: copy_opt_string(&self.issuing_acme_account_id),
            revoked: self.revoked,
            revoked_at: copy_opt_string(&self.revoked_at),
            revoked_by: copy_opt_string(&self.revoked_by),
            revoked_by_vigil_user_id: copy_opt_string(&self.revoked_by_vigil_user_id),
            revoked_by_acme_account_id: copy_opt_string(&self.revoked_by_acme_account_id),
            revoked_via: copy_opt_string(&self.revoked_via),
            revoke_reason: copy_opt_string(&self.revoke_reason),
        }
    }
}

/// An account public key in JWK form (RSA uses `n`/`e`, EC uses `crv`/`x`/`y`).
pub struct AcmeRsaJwk {
    pub kty: String,
    pub n: String,
    pub e: String,
    pub crv: String,
    pub x: String,
    pub y: String,
}

pub struct AcmeAccountRecord {
    pub id: String,
    pub status: String,
    pub vigil_user_id: String,
    pub contact: Vec<String>,
    pub orders: Vec<String>,
    pub jwk_thumbprint: String,
    pub public_jwk: AcmeRsaJwk,
}

pub struct AcmeIdentifier {
    pub id_type: String,
    pub value: String,
}

pub struct AcmeOrder {
    pub id: String,
    pub account_id: String,
    pub status: String,
    pub expires: String,
    pub identifiers: Vec<AcmeIdentifier>,
    pub authz_ids: Vec<String>,
    pub finalize_path: String,
    pub certificate_path: Option<String>,
}

pub struct AcmeAuthz {
    pub id: String,
    pub order_id: String,
    pub identifier: AcmeIdentifier,
    pub status: String,
    pub challenge_ids: Vec<String>,
}

pub struct AcmeChallenge {
    pub id: String,
    pub authz_id: String,
    pub order_id: String,
    pub challenge_type: String,
    pub validation_method: String,
    pub status: String,
    pub token: String,
    pub key_authorization: String,
    pub http_challenge_port: u16,
}

pub struct RootCAMetadata {
    pub subject: String,
    pub serial_number: String,
    pub valid_from: String,
    pub valid_to: String,
    pub fingerprint256: String,
    pub key_path: String,
    pub cert_path: String,
}

pub struct SignedCertificate {
    pub id: String,
    pub serial_number: String,
    pub subject: String,
    pub valid_from: String,
    pub valid_to: String,
    pub fingerprint256: String,
    pub cert_pem: String,
    pub chain_pem: String,
    pub fullchain_pem: String,
}

pub struct OcspStatusResponse {
    pub status: String,
    pub certificate_id: Option<String>,
    pub serial_number: Option<String>,
    pub this_update: String,
    pub next_update: String,
    pub produced_at: String,
    pub revoked_at: Option<String>,
    pub revoke_reason: Option<String>,
}

pub struct CrlEntry {
    pub certificate_id: String,
    pub serial_number: String,
    pub subject: String,
    pub revoked_at: String,
    pub revoke_reason: String,
}

impl CrlEntry {
    pub fn duplicate(&self) -> (r: Self)
        ensures
            r == *self,
    {
        CrlEntry {
            certificate_id: copy_string(&self.certificate_id),
            serial_number: copy_string(&self.serial_number),
            subject: copy_string(&self.subject),
            revoked_at: copy_string(&self.revoked_at),
            revoke_reason: copy_string(&self.revoke_reason),
        }
    }
}

pub struct CrlIssuer {
    pub subject: String,
    pub serial_number: String,
    pub fingerprint256: String,
}

pub struct CrlResponse {
    pub issuer: CrlIssuer,
    pub generated_at: String,
    pub this_update: String,
    pub next_update: String,
    pub revoked_certificates: Vec<CrlEntry>,
}

/// The users database file: `{ "users": [...] }`.
pub struct UsersDb {
    pub users: Vec<VigilUser>,
}

/// The certificates database file: `{ "certificates": [...] }`.
pub struct CertificatesDb {
    pub certificates: Vec<CertificateRecord>,
}

/// The ACME accounts database file: `{ "accounts": [...] }`.
pub struct AcmeAccountsDb {
    pub accounts: Vec<AcmeAccountRecord>,
}

impl AcmeRsaJwk {
    pub fn duplicate(&self) -> (r: Self)
        ensures
            r == *self,
    {
        AcmeRsaJwk {
            kty: copy_string(&self.kty),
            n: copy_string(&self.n),
            e: copy_string(&self.e),
            crv: copy_string(&self.crv),
            x: copy_string(&self.x),
            y: copy_string(&self.y),
        }
    }
}

impl AcmeIdentifier {
    pub fn duplicate(&self) -> (r: Self)
        ensures
            r == *self,
    {
        AcmeIdentifier { id_type: copy_string(&self.id_type), value: copy_string(&self.value) }
    }
}

pub fn copy_identifiers(v: &Vec<AcmeIdentifier>) -> (r: Vec<AcmeIdentifier>)
    ensures
        r@ == v@,
{
    let mut out: Vec<AcmeIdentifier> = Vec::new();
    let mut i: usize = 0;
    while i < v.len()
        invariant
            i <= v@.len(),
            out@ == v@.subrange(0, i as int),
        decreases v@.len() - i,
    {
        out.push(v[i].duplicate());
        i = i + 1;
        assert(out@ =~= v@.subrange(0, i as int));
    }
    assert(out@ =~= v@);
    out
}

/// Two orders hold the same values.
pub open spec fn same_order(a: AcmeOrder, b: AcmeOrder) -> bool {
    a.id == b.id && a.account_id == b.account_id && a.status == b.status && a.expires == b.expires
        && a.identifiers@ == b.identifiers@ && a.authz_ids@ == b.authz_ids@ && a.finalize_path
        == b.finalize_path && a.certificate_path == b.certificate_path
}

pub open spec fn same_authz(a: AcmeAuthz, b: AcmeAuthz) -> bool {
    a.id == b.id && a.order_id == b.order_id && a.identifier == b.identifier && a.status == b.status
        && a.challenge_ids@ == b.challenge_ids@
}

pub open spec fn same_account(a: AcmeAccountRecord, b: AcmeAccountRecord) -> bool {
    a.id == b.id && a.status == b.status && a.vigil_user_id == b.vigil_user_id && a.contact@
        == b.contact@ && a.orders@ == b.orders@ && a.jwk_thumbprint == b.jwk_thumbprint
        && a.public_jwk == b.public_jwk
}

impl AcmeOrder {
    pub fn duplicate(&self) -> (r: Self)
        ensures
            same_order(r, *self),
    {
        AcmeOrder {
            id: copy_string(&self.id),
            account_id: copy_string(&self.account_id),
            status: copy_string(&self.status),
            expires: copy_string(&self.expires),
            identifiers: copy_identifiers(&self.identifiers),
            authz_ids: copy_strings(&self.authz_ids),
            finalize_path: copy_string(&self.finalize_path),
            certificate_path: copy_opt_string(&self.certificate_path),
        }
    }
}

impl AcmeAuthz {
    pub fn duplicate(&self) -> (r: Self)
        ensures
            same_authz(r, *self),
    {
        AcmeAuthz {
            id: copy_string(&self.id),
            order_id: copy_string(&self.order_id),
            identifier: self.identifier.duplicate(),
            status: copy_string(&self.status),
            challenge_ids: copy_strings(&self.challenge_ids),
        }
    }
}

impl AcmeChallenge {
    pub fn duplicate(&self) -> (r: Self)
        ensures
            r == *self,
    {
        AcmeChallenge {
            id: copy_string(&self.id),
            authz_id: copy_string(&self.authz_id),
            order_id: copy_string(&self.order_id),
            challenge_type: copy_string(&self.challenge_type),
            validation_method: copy_string(&self.validation_method),
            status: copy_string(&self.status),
            token: copy_string(&self.token),
            key_authorization: copy_string(&self.key_authorization),
            http_challenge_port: self.http_challenge_port,
        }
    }
}

impl AcmeAccountRecord {
    pub fn duplicate(&self) -> (r: Self)
        ensures
            same_account(r, *self),
    {
        AcmeAccountRecord {
            id: copy_string(&self.id),
            status: copy_string(&self.status),
            vigil_user_id: copy_string(&self.vigil_user_id),
            contact: copy_strings(&self.contact),
            orders: copy_strings(&self.orders),
            jwk_thumbprint: copy_string(&self.jwk_thumbprint),
            public_jwk: self.public_jwk.duplicate(),
        }
    }
}

} // verus!
