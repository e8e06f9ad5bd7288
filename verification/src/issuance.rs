//! Vigil's certificate-signing API: a signed-in user sends a CSR, the days
//! of validity and extra SANs; the request is checked, held to the issuance
//! policy, and signed.
use crate::acme_flow::requested;
use crate::cert::{cert_error_message, serial_choice, sign_csr, signed_view, spec_sign_csr};
use crate::policy::{policy_message, policy_verdict, validate_issuance_policy, IdKind, IssuancePolicyConfig, PolicyError};
use crate::text::{trim, trim_str, views};
use crate::types::{copy_string, CertificateRecord, SignedCertificate};
use vstd::prelude::*;

verus! {

/// The SANs of a request that are not blank, in order.
pub open spec fn nonblank(v: Seq<String>) -> Seq<String> {
    v.filter(|s: String| trim(s@).len() > 0)
}

fn nonblank_list(v: &Vec<String>) -> (r: Vec<String>)
    ensures
        r@ == nonblank(v@),
{
    let ghost pred = |s: String| trim(s@).len() > 0;
    let mut out: Vec<String> = Vec::new();
    let mut i: usize = 0;
    proof {
        reveal_with_fuel(Seq::<_>::filter, 1);
        assert(v@.subrange(0, 0).filter(pred) =~= Seq::<String>::empty());
    }
    while i < v.len()
        invariant
            i <= v@.len(),
            pred == (|s: String| trim(s@).len() > 0),
            out@ == v@.subrange(0, i as int).filter(pred),
        decreases v@.len() - i,
    {
        proof {
            assert(v@.subrange(0, i + 1).drop_last() =~= v@.subrange(0, i as int));
            assert(v@.subrange(0, i + 1).last() == v@[i as int]);
            reveal_with_fuel(Seq::<_>::filter, 1);
        }
        let t = trim_str(v[i].as_str());
        if t.unicode_len() > 0 {
            out.push(copy_string(&v[i]));
        }
        i = i + 1;
    }
    assert(v@.subrange(0, v@.len() as int) =~= v@);
    out
}

/// The record kept of a certificate signed for a user: the certificate's
/// report, issued by and owned by the user, not revoked, no file path yet.
pub open spec fn user_record_for(r: CertificateRecord, s: SignedCertificate, user_id: Seq<char>) -> bool {
    &&& r.id == s.id
    &&& r.serial_number == s.serial_number
    &&& r.subject == s.subject
    &&& r.fingerprint256 == s.fingerprint256
    &&& r.valid_from == s.valid_from
    &&& r.valid_to == s.valid_to
    &&& r.cert_path@.len() == 0
    &&& r.issued_by@ == user_id
    &&& r.owner_vigil_user_id@ == user_id
    &&& r.issuing_acme_account_id is None
    &&& !r.revoked
    &&& r.revoked_at is None
    &&& r.revoked_by is None
    &&& r.revoked_by_vigil_user_id is None
    &&& r.revoked_by_acme_account_id is None
    &&& r.revoked_via is None
    &&& r.revoke_reason is None
}

/// Extra SANs as signing takes them: none where the list is empty.
pub open spec fn extras_opt(extras: Seq<Seq<char>>) -> Option<Seq<Seq<char>>> {
    if extras.len() == 0 {
        None
    } else {
        Some(extras)
    }
}

/// A certificate signed on request, with the record to keep of it.
pub struct SignedForUser {
    pub signed: SignedCertificate,
    pub record: CertificateRecord,
}

/// What signing for a user yields after the request's checks: the policy on
/// the CSR and the extra SANs, then the signature, for some serial the
/// issuance may use and the time of issue; each failure's text.
pub open spec fn user_sign_outcome(
    csr_pem: Seq<char>,
    days: u32,
    extras: Seq<Seq<char>>,
    policy: &IssuancePolicyConfig,
    key_pem: Seq<char>,
    ca_cert_pem: Seq<char>,
    db_serial: Option<String>,
    user_id: Seq<char>,
    res: Result<SignedForUser, String>,
) -> bool {
    exists|pv: Result<(), PolicyError>|
        #[trigger] policy_verdict(
            requested(csr_pem, extras, IdKind::Dns),
            requested(csr_pem, extras, IdKind::Uri),
            requested(csr_pem, extras, IdKind::Ip),
            policy,
            pv,
        ) && match pv {
            Err(pe) => res matches Err(m) && m@ == policy_message(&pe),
            Ok(_) => exists|serial: Seq<char>, now: int|
                #![trigger spec_sign_csr(csr_pem, days as nat, extras_opt(extras), key_pem, ca_cert_pem, serial, now)]
                serial_choice(db_serial, serial) && match spec_sign_csr(
                    csr_pem,
                    days as nat,
                    extras_opt(extras),
                    key_pem,
                    ca_cert_pem,
                    serial,
                    now,
                ) {
                    Err(ce) => res matches Err(m) && m@ == cert_error_message(ce),
                    Ok(sv) => res matches Ok(f) && signed_view(f.signed) == sv && user_record_for(f.record, f.signed, user_id),
                },
        }
}

/// Signs a certificate for a user (Vigil's signing API). In order: a blank
/// or absent CSR is refused, as is a validity of zero days (`default_days`
/// where none is asked); blank extra SANs are dropped; then the policy and
/// the signature decide (see `user_sign_outcome`). Each refusal is a bad
/// request with the text given.
pub fn sign_certificate(
    csr_pem: Option<String>,
    days: Option<u32>,
    default_days: u32,
    sans: Option<Vec<String>>,
    policy: &IssuancePolicyConfig,
    key_pem: &str,
    ca_cert_pem: &str,
    db_serial: Option<String>,
    user_id: &str,
) -> (res: Result<SignedForUser, String>)
    requires
        db_serial matches Some(h) ==> crate::der::strip_0x(trim(h@)).len() > 0,
    ensures
        ({
            let d = match days {
                Some(v) => v,
                None => default_days,
            };
            let extras = views(nonblank(match sans {
                Some(v) => v@,
                None => Seq::empty(),
            }));
            if !(csr_pem matches Some(c) && trim(c@).len() > 0) {
                res matches Err(m) && m@ == "csrPem is required."@
            } else if d == 0 {
                res matches Err(m) && m@ == "days must be a positive number."@
            } else {
                user_sign_outcome(
                    csr_pem->Some_0@,
                    d,
                    extras,
                    policy,
                    key_pem@,
                    ca_cert_pem@,
                    db_serial,
                    user_id@,
                    res,
                )
            }
        }),
{
    let csr = match csr_pem {
        Some(c) => c,
        None => return Err(String::from_str("csrPem is required.")),
    };
    if trim_str(csr.as_str()).unicode_len() == 0 {
        return Err(String::from_str("csrPem is required."));
    }
    let d = match days {
        Some(v) => v,
        None => default_days,
    };
    if d == 0 {
        return Err(String::from_str("days must be a positive number."));
    }
    let all = match sans {
        Some(v) => v,
        None => Vec::new(),
    };
    let extra = nonblank_list(&all);
    proof {
        reveal_strlit("csrPem is required.");
        reveal_strlit("days must be a positive number.");
        if sans is None {
            assert(all@ =~= Seq::<String>::empty());
        }
    }
    let ghost ev = views(extra@);
    let verdict = validate_issuance_policy(csr.as_str(), extra.as_slice(), policy);
    assert(policy_verdict(
        requested(csr@, ev, IdKind::Dns),
        requested(csr@, ev, IdKind::Uri),
        requested(csr@, ev, IdKind::Ip),
        policy,
        verdict,
    ));
    match verdict {
        Err(pe) => return Err(pe.message()),
        Ok(()) => {},
    }
    sign_for_user(&csr, d, &extra, key_pem, ca_cert_pem, db_serial, user_id)
}

fn sign_for_user(
    csr: &String,
    d: u32,
    extra: &Vec<String>,
    key_pem: &str,
    ca_cert_pem: &str,
    db_serial: Option<String>,
    user_id: &str,
) -> (res: Result<SignedForUser, String>)
    requires
        db_serial matches Some(h) ==> crate::der::strip_0x(trim(h@)).len() > 0,
    ensures
        exists|serial: Seq<char>, now: int|
            #![trigger spec_sign_csr(csr@, d as nat, extras_opt(views(extra@)), key_pem@, ca_cert_pem@, serial, now)]
            serial_choice(db_serial, serial) && match spec_sign_csr(
                csr@,
                d as nat,
                extras_opt(views(extra@)),
                key_pem@,
                ca_cert_pem@,
                serial,
                now,
            ) {
                Err(ce) => res matches Err(m) && m@ == cert_error_message(ce),
                Ok(sv) => res matches Ok(f) && signed_view(f.signed) == sv && user_record_for(f.record, f.signed, user_id@),
            },
{
    let opt: Option<&[String]> = if extra.len() == 0 { None } else { Some(extra.as_slice()) };
    assert(crate::cert::opt_views(opt) == extras_opt(views(extra@)));
    let ghost ex = extras_opt(views(extra@));
    let signed = sign_csr(csr.as_str(), d, opt, key_pem, ca_cert_pem, db_serial);
    let ghost (serial, now) = choose|serial: Seq<char>, now: int|
        serial_choice(db_serial, serial) && crate::cert::signed_result(signed) == spec_sign_csr(
            csr@,
            d as nat,
            ex,
            key_pem@,
            ca_cert_pem@,
            serial,
            now,
        );
    match signed {
        Err(ce) => Err(ce.message()),
        Ok(sc) => {
            let record = CertificateRecord {
                id: copy_string(&sc.id),
                serial_number: copy_string(&sc.serial_number),
                subject: copy_string(&sc.subject),
                fingerprint256: copy_string(&sc.fingerprint256),
                valid_from: copy_string(&sc.valid_from),
                valid_to: copy_string(&sc.valid_to),
                cert_path: String::new(),
                issued_at: crate::clock::now_rfc3339(),
                issued_by: user_id.to_owned(),
                owner_vigil_user_id: user_id.to_owned(),
                issuing_acme_account_id: None,
                revoked: false,
                revoked_at: None,
                revoked_by: None,
                revoked_by_vigil_user_id: None,
                revoked_by_acme_account_id: None,
                revoked_via: None,
                revoke_reason: None,
            };
            Ok(SignedForUser { signed: sc, record })
        },
    }
}

/// Why Vigil's API refuses to revoke: no such certificate, or not the
/// caller's.
#[derive(Debug)]
pub enum RevokeRefusal {
    NotFound(String),
    Forbidden(String),
}

/// The reason recorded for a revocation through the API: the caller's where
/// not blank, else `unspecified`.
pub open spec fn api_reason(reason: Option<String>) -> Seq<char> {
    match reason {
        Some(r) => if trim(r@).len() > 0 {
            r@
        } else {
            "unspecified"@
        },
        None => "unspecified"@,
    }
}

/// Revokes a certificate for a signed-in user (Vigil's API): an unknown id
/// is refused, as is, for a user who is not an administrator, a certificate
/// the user neither owns nor issued; then the record is revoked now by the
/// user (see `revocation_outcome`), through `api-user`.
pub fn revoke_for_user(
    db: &mut crate::types::CertificatesDb,
    id: &str,
    user_id: &str,
    role: crate::types::Role,
    reason: Option<String>,
) -> (res: Result<CertificateRecord, RevokeRefusal>)
    ensures
        match crate::storage::first_with_id(old(db).certificates@, id@) {
            None => res matches Err(RevokeRefusal::NotFound(m)) && m@ == "Certificate not found."@ && final(db).certificates@
                == old(db).certificates@,
            Some(rec) => if role != crate::types::Role::Admin && rec.owner_vigil_user_id@ != user_id@ && rec.issued_by@
                != user_id@ {
                res matches Err(RevokeRefusal::Forbidden(m)) && m@ == "Certificate does not belong to authenticated user."@
                    && final(db).certificates@ == old(db).certificates@
            } else {
                exists|now: String, by_user: Option<String>, via: Option<String>, out: Option<CertificateRecord>|
                    #![trigger crate::storage::revocation_outcome(old(db).certificates@, final(db).certificates@, out, id@, user_id@, api_reason(reason), by_user, None, via, now)]
                    (by_user matches Some(u) && u@ == user_id@) && (via matches Some(v) && v@ == "api-user"@)
                        && crate::storage::revocation_outcome(
                        old(db).certificates@,
                        final(db).certificates@,
                        out,
                        id@,
                        user_id@,
                        api_reason(reason),
                        by_user,
                        None,
                        via,
                        now,
                    ) && match out {
                        None => res matches Err(RevokeRefusal::NotFound(m)) && m@ == "Certificate not found."@,
                        Some(u) => res == Ok::<CertificateRecord, RevokeRefusal>(u),
                    }
            },
        },
{
    proof {
        reveal_strlit("Certificate not found.");
        reveal_strlit("Certificate does not belong to authenticated user.");
        reveal_strlit("unspecified");
        reveal_strlit("api-user");
    }
    let existing = match crate::storage::get_certificate_record(db, id) {
        Some(r) => r,
        None => return Err(RevokeRefusal::NotFound(String::from_str("Certificate not found."))),
    };
    let is_admin = match role {
        crate::types::Role::Admin => true,
        _ => false,
    };
    if !is_admin {
        let me = user_id.to_owned();
        if existing.owner_vigil_user_id != me && existing.issued_by != me {
            return Err(RevokeRefusal::Forbidden(String::from_str("Certificate does not belong to authenticated user.")));
        }
    }
    let why = match &reason {
        Some(r) => if trim_str(r.as_str()).unicode_len() > 0 {
            copy_string(r)
        } else {
            String::from_str("unspecified")
        },
        None => String::from_str("unspecified"),
    };
    let by_user = Some(user_id.to_owned());
    let via = Some(String::from_str("api-user"));
    let ghost (bu, vi) = (by_user, via);
    let ghost before = db.certificates@;
    let out = crate::storage::revoke_certificate(db, id, user_id, why.as_str(), by_user, None, via);
    proof {
        let now = choose|now: String|
            crate::storage::revocation_outcome(before, db.certificates@, out, id@, user_id@, why@, bu, None, vi, now);
        assert(crate::storage::revocation_outcome(old(db).certificates@, db.certificates@, out, id@, user_id@, api_reason(reason), bu, None, vi, now));
    }
    match out {
        None => Err(RevokeRefusal::NotFound(String::from_str("Certificate not found."))),
        Some(u) => Ok(u),
    }
}

} // verus!
