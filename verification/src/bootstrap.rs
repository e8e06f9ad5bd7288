//! Vigil's one-shot bootstrap enrollment. In bootstrap mode Vigil holds a
//! secret (hex text); the first request that presents it, with a CSR and
//! optional extra SANs, gets a certificate valid for one day, and the secret
//! is then discarded so that the endpoint answers no more.
use crate::acme_flow::requested;
use crate::cert::{cert_error_message, serial_choice, sign_csr, signed_result, spec_sign_csr};
use crate::codec::{hex_decode, spec_hex_decode};
use crate::issuance::extras_opt;
use crate::policy::{policy_message, policy_verdict, validate_issuance_policy, IdKind, IssuancePolicyConfig, PolicyError};
use crate::text::{trim, trim_str, views};
use vstd::prelude::*;

verus! {

/// What the enrolling party sends.
pub struct BootstrapRequest {
    pub secret: String,
    pub csr: String,
    pub sans: Option<Vec<String>>,
}

/// The certificate issued, with its chain.
pub struct BootstrapResponse {
    pub cert: String,
    pub chain: String,
}

/// Why a bootstrap request is refused.
#[derive(Debug)]
pub enum BootstrapRefusal {
    /// Vigil holds no secret (not in bootstrap mode, or already used).
    NotAvailable,
    /// The secret does not match.
    InvalidSecret,
    /// The CSR or the SANs break the issuance policy; the policy's text.
    BadRequest(String),
    /// Signing failed; the signer's text.
    Internal(String),
}

impl BootstrapRefusal {
    /// The HTTP status of the refusal.
    pub fn status(&self) -> (s: u16)
        ensures
            s == (match *self {
                BootstrapRefusal::NotAvailable => 404u16,
                BootstrapRefusal::InvalidSecret => 403u16,
                BootstrapRefusal::BadRequest(_) => 400u16,
                BootstrapRefusal::Internal(_) => 500u16,
            }),
    {
        match self {
            BootstrapRefusal::NotAvailable => 404,
            BootstrapRefusal::InvalidSecret => 403,
            BootstrapRefusal::BadRequest(_) => 400,
            BootstrapRefusal::Internal(_) => 500,
        }
    }

    /// The text of the refusal.
    pub fn message(&self) -> (m: String)
        ensures
            m@ == (match *self {
                BootstrapRefusal::NotAvailable => "Bootstrap endpoint is not available."@,
                BootstrapRefusal::InvalidSecret => "Invalid secret."@,
                BootstrapRefusal::BadRequest(t) => t@,
                BootstrapRefusal::Internal(t) => t@,
            }),
    {
        match self {
            BootstrapRefusal::NotAvailable => "Bootstrap endpoint is not available.".to_owned(),
            BootstrapRefusal::InvalidSecret => "Invalid secret.".to_owned(),
            BootstrapRefusal::BadRequest(t) => t.clone(),
            BootstrapRefusal::Internal(t) => t.clone(),
        }
    }
}

/// The bytes a secret's hex text stands for; none where it is not hex.
pub open spec fn secret_bytes(s: Seq<char>) -> Seq<u8> {
    match spec_hex_decode(s) {
        Some(b) => b,
        None => Seq::empty(),
    }
}

/// Whether the presented secret (trimmed) stands for the same bytes as the one held.
pub open spec fn secret_matches(given: Seq<char>, held: Seq<char>) -> bool {
    secret_bytes(trim(given)) == secret_bytes(held)
}

/// The extra SANs a request names: each trimmed, the blank ones dropped.
pub open spec fn clean_sans(v: Seq<Seq<char>>) -> Seq<Seq<char>>
    decreases v.len(),
{
    if v.len() == 0 {
        Seq::empty()
    } else {
        let rest = clean_sans(v.drop_last());
        if trim(v.last()).len() > 0 {
            rest.push(trim(v.last()))
        } else {
            rest
        }
    }
}

fn decoded_or_empty(s: &str) -> (b: Vec<u8>)
    ensures
        b@ == secret_bytes(s@),
{
    match hex_decode(s) {
        Some(v) => v,
        None => Vec::new(),
    }
}

/// `subtle::ConstantTimeEq::ct_eq` on byte slices, as a `bool`: true exactly
/// when the slices are equal (unequal lengths answer at once; otherwise every
/// byte is examined).
#[verifier::external_body]
fn same_bytes(a: &[u8], b: &[u8]) -> (r: bool)
    ensures
        r == (a@ == b@),
{
    subtle::ConstantTimeEq::ct_eq(a, b).into()
}

fn clean_san_list(v: &Vec<String>) -> (r: Vec<String>)
    ensures
        views(r@) == clean_sans(views(v@)),
{
    let mut out: Vec<String> = Vec::new();
    let mut i: usize = 0;
    while i < v.len()
        invariant
            i <= v@.len(),
            views(out@) == clean_sans(views(v@).subrange(0, i as int)),
        decreases v@.len() - i,
    {
        proof {
            let nxt = views(v@).subrange(0, i + 1);
            assert(nxt.drop_last() =~= views(v@).subrange(0, i as int));
            assert(nxt.last() == v@[i as int]@);
        }
        let t = trim_str(v[i].as_str());
        if t.as_str().unicode_len() > 0 {
            out.push(t);
            assert(views(out@) =~= clean_sans(views(v@).subrange(0, i as int)).push(trim(v@[i as int]@)));
        }
        i = i + 1;
    }
    assert(views(v@).subrange(0, v@.len() as int) =~= views(v@));
    out
}

/// What a request with the right secret yields: the policy's verdict on the
/// CSR and the extra SANs, then a one-day certificate for some serial the
/// issuance may use and the time of issue; each failure with its text.
pub open spec fn enrollment_outcome(
    csr_pem: Seq<char>,
    extras: Seq<Seq<char>>,
    policy: &IssuancePolicyConfig,
    key_pem: Seq<char>,
    ca_cert_pem: Seq<char>,
    db_serial: Option<String>,
    r: Result<BootstrapResponse, BootstrapRefusal>,
) -> bool {
    exists|pv: Result<(), PolicyError>|
        #[trigger] policy_verdict(
            requested(csr_pem, extras, IdKind::Dns),
            requested(csr_pem, extras, IdKind::Uri),
            requested(csr_pem, extras, IdKind::Ip),
            policy,
            pv,
        ) && match pv {
            Err(pe) => r matches Err(BootstrapRefusal::BadRequest(m)) && m@ == policy_message(&pe),
            Ok(_) => exists|serial: Seq<char>, now: int|
                #![trigger spec_sign_csr(csr_pem, 1, extras_opt(extras), key_pem, ca_cert_pem, serial, now)]
                serial_choice(db_serial, serial) && match spec_sign_csr(
                    csr_pem,
                    1,
                    extras_opt(extras),
                    key_pem,
                    ca_cert_pem,
                    serial,
                    now,
                ) {
                    Err(ce) => r matches Err(BootstrapRefusal::Internal(m)) && m@ == cert_error_message(ce),
                    Ok(sv) => r matches Ok(resp) && resp.cert@ == sv.cert_pem && resp.chain@ == sv.chain_pem,
                },
        }
}

/// One bootstrap request, from the secret held before (`before`) to the
/// answer and the secret held after: no secret, not available; a secret that
/// does not match, refused; otherwise the outcome of enrolling, the secret
/// discarded exactly when a certificate was issued. A refusal keeps the secret.
pub open spec fn bootstrap_step(
    before: Option<String>,
    req: BootstrapRequest,
    policy: &IssuancePolicyConfig,
    key_pem: Seq<char>,
    ca_cert_pem: Seq<char>,
    db_serial: Option<String>,
    r: Result<BootstrapResponse, BootstrapRefusal>,
    after: Option<String>,
) -> bool {
    match before {
        None => r matches Err(BootstrapRefusal::NotAvailable) && after == before,
        Some(held) => if !secret_matches(req.secret@, held@) {
            r matches Err(BootstrapRefusal::InvalidSecret) && after == before
        } else {
            &&& enrollment_outcome(
                trim(req.csr@),
                clean_sans(views(match req.sans {
                    Some(v) => v@,
                    None => Seq::empty(),
                })),
                policy,
                key_pem,
                ca_cert_pem,
                db_serial,
                r,
            )
            &&& r is Ok ==> after is None
            &&& r is Err ==> after == before
        },
    }
}

/// Handles a bootstrap request against the secret Vigil holds (`slot`). No
/// secret: not available. A secret that does not match: refused. Otherwise
/// the trimmed CSR and the cleaned extra SANs go to the policy and the signer
/// (see `enrollment_outcome`), and the secret is discarded exactly when a
/// certificate was issued.
pub fn bootstrap_enroll(
    slot: &mut Option<String>,
    req: BootstrapRequest,
    policy: &IssuancePolicyConfig,
    key_pem: &str,
    ca_cert_pem: &str,
    db_serial: Option<String>,
) -> (r: Result<BootstrapResponse, BootstrapRefusal>)
    requires
        db_serial matches Some(h) ==> crate::der::strip_0x(trim(h@)).len() > 0,
    ensures
        bootstrap_step(*old(slot), req, policy, key_pem@, ca_cert_pem@, db_serial, r, *final(slot)),
{
    let held = match slot {
        Some(s) => s.clone(),
        None => return Err(BootstrapRefusal::NotAvailable),
    };
    let given = trim_str(req.secret.as_str());
    let provided = decoded_or_empty(given.as_str());
    let expected = decoded_or_empty(held.as_str());
    if !same_bytes(provided.as_slice(), expected.as_slice()) {
        return Err(BootstrapRefusal::InvalidSecret);
    }
    let csr = trim_str(req.csr.as_str());
    let all = match req.sans {
        Some(v) => v,
        None => Vec::new(),
    };
    proof {
        if req.sans is None {
            assert(all@ =~= Seq::<String>::empty());
        }
    }
    let extra = clean_san_list(&all);
    let ghost ev = views(extra@);
    let verdict = validate_issuance_policy(csr.as_str(), extra.as_slice(), policy);
    assert(policy_verdict(
        requested(csr@, ev, IdKind::Dns),
        requested(csr@, ev, IdKind::Uri),
        requested(csr@, ev, IdKind::Ip),
        policy,
        verdict,
    ));
    match verdict {
        Err(pe) => return Err(BootstrapRefusal::BadRequest(pe.message())),
        Ok(()) => {},
    }
    let opt: Option<&[String]> = if extra.len() == 0 { None } else { Some(extra.as_slice()) };
    assert(crate::cert::opt_views(opt) == extras_opt(ev));
    let signed = sign_csr(csr.as_str(), 1, opt, key_pem, ca_cert_pem, db_serial);
    let ghost (serial, now) = choose|serial: Seq<char>, now: int|
        serial_choice(db_serial, serial) && signed_result(signed) == spec_sign_csr(
            csr@,
            1,
            extras_opt(ev),
            key_pem@,
            ca_cert_pem@,
            serial,
            now,
        );
    match signed {
        Err(ce) => Err(BootstrapRefusal::Internal(ce.message())),
        Ok(sc) => {
            *slot = None;
            Ok(BootstrapResponse { cert: sc.cert_pem, chain: sc.chain_pem })
        },
    }
}

/// The bootstrap endpoint serves once: after a request that was issued a
/// certificate, every later request is answered "not available" and leaves
/// the endpoint closed.
pub proof fn law_bootstrap_serves_once(
    s0: Option<String>,
    req1: BootstrapRequest,
    r1: Result<BootstrapResponse, BootstrapRefusal>,
    s1: Option<String>,
    req2: BootstrapRequest,
    r2: Result<BootstrapResponse, BootstrapRefusal>,
    s2: Option<String>,
    policy: &IssuancePolicyConfig,
    key_pem: Seq<char>,
    ca_cert_pem: Seq<char>,
    db_serial: Option<String>,
)
    requires
        bootstrap_step(s0, req1, policy, key_pem, ca_cert_pem, db_serial, r1, s1),
        r1 is Ok,
        bootstrap_step(s1, req2, policy, key_pem, ca_cert_pem, db_serial, r2, s2),
    ensures
        r2 matches Err(BootstrapRefusal::NotAvailable),
        s2 is None,
{
}

/// A refused bootstrap request leaves the secret as it was, so the rightful
/// holder can still enroll.
pub proof fn law_refusal_keeps_secret(
    s0: Option<String>,
    req: BootstrapRequest,
    r: Result<BootstrapResponse, BootstrapRefusal>,
    s1: Option<String>,
    policy: &IssuancePolicyConfig,
    key_pem: Seq<char>,
    ca_cert_pem: Seq<char>,
    db_serial: Option<String>,
)
    requires
        bootstrap_step(s0, req, policy, key_pem, ca_cert_pem, db_serial, r, s1),
        r is Err,
    ensures
        s1 == s0,
{
}

} // verus!
