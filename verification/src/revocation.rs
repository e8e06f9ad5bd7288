//! OCSP status answers and the JSON CRL, computed from the certificate records.
use crate::clock::{now_rfc3339, rfc3339_after_hours, rfc3339_after_seconds};
use crate::storage::{find_certificate_by_serial, first_with_id, first_with_serial, get_certificate_record};
use crate::text::{lemma_str_lt_irrefl, lemma_str_lt_total, lemma_str_lt_trans, str_lt, string_lt};
use crate::types::{copy_opt_string, copy_string, CertificateRecord, CertificatesDb, CrlEntry, CrlIssuer, CrlResponse, OcspStatusResponse, RootCAMetadata};
use vstd::prelude::*;

verus! {

/// Insert `e` after every entry whose revocation time is not later than its own.
pub open spec fn crl_insert(s: Seq<CrlEntry>, e: CrlEntry) -> Seq<CrlEntry>
    decreases s.len(),
{
    if s.len() == 0 || !str_lt(e.revoked_at@, s.last().revoked_at@) {
        s.push(e)
    } else {
        crl_insert(s.drop_last(), e).push(s.last())
    }
}

/// Entries ordered by revocation time, equal times keeping their order
/// (the stable sort `sort_by` performs).
pub open spec fn crl_sort(s: Seq<CrlEntry>) -> Seq<CrlEntry>
    decreases s.len(),
{
    if s.len() == 0 {
        s
    } else {
        crl_insert(crl_sort(s.drop_last()), s.last())
    }
}

proof fn lemma_crl_insert_at(s: Seq<CrlEntry>, e: CrlEntry, j: int)
    requires
        0 <= j <= s.len(),
        forall|k: int| j <= k < s.len() ==> str_lt(e.revoked_at@, (#[trigger] s[k]).revoked_at@),
        j == 0 || !str_lt(e.revoked_at@, s[j - 1].revoked_at@),
    ensures
        crl_insert(s, e) == s.subrange(0, j) + seq![e] + s.subrange(j, s.len() as int),
    decreases s.len(),
{
    if j == s.len() {
        assert(s.subrange(0, j) =~= s);
        assert(s.subrange(j, s.len() as int) =~= Seq::<CrlEntry>::empty());
        assert(s.subrange(0, j) + seq![e] + s.subrange(j, s.len() as int) =~= s.push(e));
    } else {
        let t = s.drop_last();
        assert forall|k: int| j <= k < t.len() implies str_lt(e.revoked_at@, (#[trigger] t[k]).revoked_at@) by {
            assert(t[k] == s[k]);
        }
        if j > 0 {
            assert(t[j - 1] == s[j - 1]);
        }
        lemma_crl_insert_at(t, e, j);
        assert(t.subrange(0, j) + seq![e] + t.subrange(j, t.len() as int) + seq![s.last()] =~= s.subrange(
            0,
            j,
        ) + seq![e] + s.subrange(j, s.len() as int));
    }
}

fn crl_sort_exec(v: &Vec<CrlEntry>) -> (res: Vec<CrlEntry>)
    ensures
        res@ == crl_sort(v@),
{
    let mut out: Vec<CrlEntry> = Vec::new();
    let n = v.len();
    let mut i: usize = 0;
    assert(v@.subrange(0, 0) =~= Seq::<CrlEntry>::empty());
    while i < n
        invariant
            n == v@.len(),
            i <= n,
            out@ == crl_sort(v@.subrange(0, i as int)),
        decreases n - i,
    {
        let e = v[i].duplicate();
        let mut j = out.len();
        while j > 0 && string_lt(&e.revoked_at, &out[j - 1].revoked_at)
            invariant
                j <= out@.len(),
                forall|k: int| j <= k < out@.len() ==> str_lt(e.revoked_at@, (#[trigger] out@[k]).revoked_at@),
            decreases j,
        {
            j = j - 1;
        }
        proof {
            lemma_crl_insert_at(out@, e, j as int);
            let s1 = v@.subrange(0, i + 1);
            assert(s1.drop_last() =~= v@.subrange(0, i as int));
            assert(s1.last() == e);
        }
        let ghost before = out@;
        out.insert(j, e);
        assert(out@ =~= before.subrange(0, j as int) + seq![e] + before.subrange(j as int, before.len() as int));
        i = i + 1;
    }
    assert(v@.subrange(0, n as int) =~= v@);
    out
}


/// The OCSP answer for a record (or its absence) at the given times:
/// `unknown` without a record, `revoked` with its revocation data, else `good`.
pub open spec fn ocsp_answer(res: OcspStatusResponse, record: Option<CertificateRecord>, produced_at: String, next_update: String) -> bool {
    &&& res.this_update == produced_at
    &&& res.produced_at == produced_at
    &&& res.next_update == next_update
    &&& match record {
        None => {
            &&& res.status@ == "unknown"@
            &&& res.certificate_id is None
            &&& res.serial_number is None
            &&& res.revoked_at is None
            &&& res.revoke_reason is None
        },
        Some(r) => {
            &&& res.certificate_id == Some(r.id)
            &&& res.serial_number == Some(r.serial_number)
            &&& if r.revoked {
                &&& res.status@ == "revoked"@
                &&& res.revoked_at == r.revoked_at
                &&& res.revoke_reason == r.revoke_reason
            } else {
                &&& res.status@ == "good"@
                &&& res.revoked_at is None
                &&& res.revoke_reason is None
            }
        },
    }
}

pub open spec fn opt_record(record: Option<&CertificateRecord>) -> Option<CertificateRecord> {
    match record {
        Some(r) => Some(*r),
        None => None,
    }
}

pub fn map_ocsp_at(record: Option<&CertificateRecord>, produced_at: String, next_update: String) -> (res: OcspStatusResponse)
    ensures
        ocsp_answer(res, opt_record(record), produced_at, next_update),
{
    let this_update = copy_string(&produced_at);
    match record {
        None => OcspStatusResponse {
            status: "unknown".to_owned(),
            certificate_id: None,
            serial_number: None,
            this_update,
            next_update,
            produced_at,
            revoked_at: None,
            revoke_reason: None,
        },
        Some(r) => {
            if r.revoked {
                OcspStatusResponse {
                    status: "revoked".to_owned(),
                    certificate_id: Some(copy_string(&r.id)),
                    serial_number: Some(copy_string(&r.serial_number)),
                    this_update,
                    next_update,
                    produced_at,
                    revoked_at: copy_opt_string(&r.revoked_at),
                    revoke_reason: copy_opt_string(&r.revoke_reason),
                }
            } else {
                OcspStatusResponse {
                    status: "good".to_owned(),
                    certificate_id: Some(copy_string(&r.id)),
                    serial_number: Some(copy_string(&r.serial_number)),
                    this_update,
                    next_update,
                    produced_at,
                    revoked_at: None,
                    revoke_reason: None,
                }
            }
        },
    }
}

/// The OCSP answer for `record`, produced now and valid for `max_age_seconds`.
pub fn map_ocsp(record: Option<&CertificateRecord>, max_age_seconds: u32) -> (res: OcspStatusResponse)
    ensures
        exists|p: String, n: String| #[trigger] ocsp_answer(res, opt_record(record), p, n),
{
    let produced_at = now_rfc3339();
    let next_update = rfc3339_after_seconds(max_age_seconds);
    let ghost (p, n) = (produced_at, next_update);
    let res = map_ocsp_at(record, produced_at, next_update);
    assert(ocsp_answer(res, opt_record(record), p, n));
    res
}

/// OCSP status of the certificate with this id.
pub fn get_ocsp_status_by_cert_id(db: &CertificatesDb, cert_id: &str, max_age_seconds: u32) -> (res: OcspStatusResponse)
    ensures
        exists|p: String, n: String| #[trigger] ocsp_answer(res, first_with_id(db.certificates@, cert_id@), p, n),
{
    let record = get_certificate_record(db, cert_id);
    match &record {
        Some(r) => map_ocsp(Some(r), max_age_seconds),
        None => map_ocsp(None, max_age_seconds),
    }
}

/// OCSP status of the certificate with this serial number (compared normalized).
pub fn get_ocsp_status_by_serial(db: &CertificatesDb, serial: &str, max_age_seconds: u32) -> (res: OcspStatusResponse)
    ensures
        exists|p: String, n: String| #[trigger] ocsp_answer(res, first_with_serial(db.certificates@, serial@), p, n),
{
    let record = find_certificate_by_serial(db, serial);
    match &record {
        Some(r) => map_ocsp(Some(r), max_age_seconds),
        None => map_ocsp(None, max_age_seconds),
    }
}

/// The CRL entry of a revoked record: its revocation time (or the CRL's
/// generation time) and reason (or `unspecified`).
pub open spec fn crl_entry_of(e: CrlEntry, r: CertificateRecord, generated_at: String) -> bool {
    &&& e.certificate_id == r.id
    &&& e.serial_number == r.serial_number
    &&& e.subject == r.subject
    &&& e.revoked_at == match r.revoked_at { Some(t) => t, None => generated_at }
    &&& match r.revoke_reason {
        Some(t) => e.revoke_reason == t,
        None => e.revoke_reason@ == "unspecified"@,
    }
}

pub open spec fn revoked_only(s: Seq<CertificateRecord>) -> Seq<CertificateRecord> {
    s.filter(|r: CertificateRecord| r.revoked)
}

/// The JSON CRL at the given times: one entry per revoked record, in order of
/// revocation time.
pub open spec fn crl_at(res: CrlResponse, recs: Seq<CertificateRecord>, root: RootCAMetadata, generated_at: String, next_update: String) -> bool {
    &&& res.issuer.subject == root.subject
    &&& res.issuer.serial_number == root.serial_number
    &&& res.issuer.fingerprint256 == root.fingerprint256
    &&& res.generated_at == generated_at
    &&& res.this_update == generated_at
    &&& res.next_update == next_update
    &&& exists|u: Seq<CrlEntry>|
        #![trigger crl_sort(u)]
        u.len() == revoked_only(recs).len() && (forall|k: int|
            0 <= k < u.len() ==> crl_entry_of(#[trigger] u[k], revoked_only(recs)[k], generated_at))
            && res.revoked_certificates@ == crl_sort(u)
}

pub fn generate_crl_at(db: &CertificatesDb, root_ca: &RootCAMetadata, generated_at: String, next_update: String) -> (res: CrlResponse)
    ensures
        crl_at(res, db.certificates@, *root_ca, generated_at, next_update),
{
    let ghost recs = db.certificates@;
    let ghost pred = |r: CertificateRecord| r.revoked;
    let mut entries: Vec<CrlEntry> = Vec::new();
    let mut i: usize = 0;
    proof {
        reveal_with_fuel(Seq::<_>::filter, 1);
        assert(recs.subrange(0, 0).filter(pred) =~= Seq::<CertificateRecord>::empty());
    }
    while i < db.certificates.len()
        invariant
            recs == db.certificates@,
            pred == (|r: CertificateRecord| r.revoked),
            i <= recs.len(),
            entries@.len() == recs.subrange(0, i as int).filter(pred).len(),
            forall|k: int|
                0 <= k < entries@.len() ==> crl_entry_of(
                    #[trigger] entries@[k],
                    recs.subrange(0, i as int).filter(pred)[k],
                    generated_at,
                ),
        decreases recs.len() - i,
    {
        let r = &db.certificates[i];
        proof {
            reveal_with_fuel(Seq::<_>::filter, 1);
            let s1 = recs.subrange(0, i + 1);
            assert(s1.drop_last() =~= recs.subrange(0, i as int));
        }
        if r.revoked {
            let revoked_at = match &r.revoked_at {
                Some(t) => copy_string(t),
                None => copy_string(&generated_at),
            };
            let revoke_reason = match &r.revoke_reason {
                Some(t) => copy_string(t),
                None => "unspecified".to_owned(),
            };
            entries.push(
                CrlEntry {
                    certificate_id: copy_string(&r.id),
                    serial_number: copy_string(&r.serial_number),
                    subject: copy_string(&r.subject),
                    revoked_at,
                    revoke_reason,
                },
            );
        }
        i = i + 1;
    }
    assert(recs.subrange(0, recs.len() as int) =~= recs);
    let sorted = crl_sort_exec(&entries);
    let res = CrlResponse {
        issuer: CrlIssuer {
            subject: copy_string(&root_ca.subject),
            serial_number: copy_string(&root_ca.serial_number),
            fingerprint256: copy_string(&root_ca.fingerprint256),
        },
        generated_at: copy_string(&generated_at),
        this_update: generated_at,
        next_update,
        revoked_certificates: sorted,
    };
    assert(crl_sort(entries@) == res.revoked_certificates@);
    res
}

/// The JSON CRL generated now, valid for `next_update_hours`.
pub fn generate_crl(db: &CertificatesDb, root_ca: &RootCAMetadata, next_update_hours: u32) -> (res: CrlResponse)
    requires
        next_update_hours <= crate::clock::MAX_AHEAD_HOURS,
    ensures
        exists|g: String, n: String| #[trigger] crl_at(res, db.certificates@, *root_ca, g, n),
{
    let generated_at = now_rfc3339();
    let next_update = rfc3339_after_hours(next_update_hours);
    let ghost (g, n) = (generated_at, next_update);
    let res = generate_crl_at(db, root_ca, generated_at, next_update);
    assert(crl_at(res, db.certificates@, *root_ca, g, n));
    res
}

proof fn lemma_first_with_id_at(s: Seq<CertificateRecord>, id: Seq<char>, i: int)
    requires
        0 <= i < s.len(),
        s[i].id@ == id,
        forall|j: int| 0 <= j < i ==> (#[trigger] s[j]).id@ != id,
    ensures
        first_with_id(s, id) == Some(s[i]),
    decreases i,
{
    if i > 0 {
        assert(s[0].id@ != id);
        let t = s.drop_first();
        assert forall|j: int| 0 <= j < i - 1 implies (#[trigger] t[j]).id@ != id by {
            assert(t[j] == s[j + 1]);
        }
        lemma_first_with_id_at(t, id, i - 1);
        assert(t[i - 1] == s[i]);
    }
}

/// A revocation is what OCSP then serves: once revoking a certificate id has
/// found its record, the OCSP answer for that id says `revoked`, with the
/// record's revocation time and reason.
pub proof fn law_revocation_reported_by_ocsp(
    old_certs: Seq<CertificateRecord>,
    new_certs: Seq<CertificateRecord>,
    res: Option<CertificateRecord>,
    cert_id: Seq<char>,
    revoked_by: Seq<char>,
    revoke_reason: Seq<char>,
    revoked_by_vigil_user_id: Option<String>,
    revoked_by_acme_account_id: Option<String>,
    revoked_via: Option<String>,
    revoked_at: String,
    answer: OcspStatusResponse,
    produced_at: String,
    next_update: String,
)
    requires
        crate::storage::revocation_outcome(
            old_certs,
            new_certs,
            res,
            cert_id,
            revoked_by,
            revoke_reason,
            revoked_by_vigil_user_id,
            revoked_by_acme_account_id,
            revoked_via,
            revoked_at,
        ),
        res is Some,
        ocsp_answer(answer, first_with_id(new_certs, cert_id), produced_at, next_update),
    ensures
        answer.status@ == "revoked"@,
        res matches Some(r) && r.revoked && answer.revoked_at == r.revoked_at && answer.revoke_reason == r.revoke_reason,
{
    let r = res->Some_0;
    let i = choose|i: int|
        0 <= i < old_certs.len() && (#[trigger] old_certs[i]).id@ == cert_id && (forall|j: int|
            0 <= j < i ==> (#[trigger] old_certs[j]).id@ != cert_id) && if old_certs[i].revoked {
            r == old_certs[i] && new_certs == old_certs
        } else {
            &&& r.revoked
            &&& r.revoked_at == Some(revoked_at)
            &&& r.revoked_by matches Some(b) && b@ == revoked_by
            &&& r.revoke_reason matches Some(b) && b@ == revoke_reason
            &&& r.revoked_by_vigil_user_id == revoked_by_vigil_user_id
            &&& r.revoked_by_acme_account_id == revoked_by_acme_account_id
            &&& r.revoked_via == revoked_via
            &&& r.id == old_certs[i].id
            &&& r.serial_number == old_certs[i].serial_number
            &&& r.subject == old_certs[i].subject
            &&& r.fingerprint256 == old_certs[i].fingerprint256
            &&& r.valid_from == old_certs[i].valid_from
            &&& r.valid_to == old_certs[i].valid_to
            &&& r.cert_path == old_certs[i].cert_path
            &&& r.issued_at == old_certs[i].issued_at
            &&& r.issued_by == old_certs[i].issued_by
            &&& r.owner_vigil_user_id == old_certs[i].owner_vigil_user_id
            &&& r.issuing_acme_account_id == old_certs[i].issuing_acme_account_id
            &&& new_certs == old_certs.update(i, r)
        };
    assert(new_certs[i] == r);
    assert forall|j: int| 0 <= j < i implies (#[trigger] new_certs[j]).id@ != cert_id by {
        assert(new_certs[j] == old_certs[j]);
    }
    lemma_first_with_id_at(new_certs, cert_id, i);
}

proof fn lemma_crl_insert_keeps(s: Seq<CrlEntry>, e: CrlEntry)
    ensures
        crl_insert(s, e).contains(e),
        forall|x: CrlEntry| s.contains(x) ==> #[trigger] crl_insert(s, e).contains(x),
    decreases s.len(),
{
    if s.len() == 0 || !str_lt(e.revoked_at@, s.last().revoked_at@) {
        assert(crl_insert(s, e) == s.push(e));
        assert(s.push(e)[s.len() as int] == e);
        assert forall|x: CrlEntry| s.contains(x) implies #[trigger] crl_insert(s, e).contains(x) by {
            let k = choose|k: int| 0 <= k < s.len() && s[k] == x;
            assert(s.push(e)[k] == x);
        }
    } else {
        let t = s.drop_last();
        lemma_crl_insert_keeps(t, e);
        let r = crl_insert(t, e);
        assert(crl_insert(s, e) == r.push(s.last()));
        assert(r.contains(e));
        let k0 = choose|k: int| 0 <= k < r.len() && r[k] == e;
        assert(r.push(s.last())[k0] == e);
        assert forall|x: CrlEntry| s.contains(x) implies #[trigger] crl_insert(s, e).contains(x) by {
            let k = choose|k: int| 0 <= k < s.len() && s[k] == x;
            if k == s.len() - 1 {
                assert(r.push(s.last())[r.len() as int] == x);
            } else {
                assert(t[k] == x);
                assert(t.contains(x));
                assert(crl_insert(t, e).contains(x));
                let j = choose|j: int| 0 <= j < r.len() && r[j] == x;
                assert(r.push(s.last())[j] == x);
            }
        }
    }
}

proof fn lemma_crl_sort_keeps(s: Seq<CrlEntry>)
    ensures
        forall|x: CrlEntry| s.contains(x) ==> #[trigger] crl_sort(s).contains(x),
    decreases s.len(),
{
    if s.len() > 0 {
        let t = s.drop_last();
        lemma_crl_sort_keeps(t);
        lemma_crl_insert_keeps(crl_sort(t), s.last());
        assert forall|x: CrlEntry| s.contains(x) implies #[trigger] crl_sort(s).contains(x) by {
            let k = choose|k: int| 0 <= k < s.len() && s[k] == x;
            if k < s.len() - 1 {
                assert(t[k] == x);
                assert(t.contains(x));
                assert(crl_sort(t).contains(x));
            }
        }
    }
}

/// A revocation is what the CRL then lists: once revoking a certificate id
/// has found its record, the CRL built from the records lists an entry for
/// that certificate, with its serial.
pub proof fn law_revocation_listed_in_crl(
    old_certs: Seq<CertificateRecord>,
    new_certs: Seq<CertificateRecord>,
    res: Option<CertificateRecord>,
    cert_id: Seq<char>,
    revoked_by: Seq<char>,
    revoke_reason: Seq<char>,
    revoked_by_vigil_user_id: Option<String>,
    revoked_by_acme_account_id: Option<String>,
    revoked_via: Option<String>,
    revoked_at: String,
    crl: CrlResponse,
    root: RootCAMetadata,
    generated_at: String,
    next_update: String,
)
    requires
        crate::storage::revocation_outcome(
            old_certs,
            new_certs,
            res,
            cert_id,
            revoked_by,
            revoke_reason,
            revoked_by_vigil_user_id,
            revoked_by_acme_account_id,
            revoked_via,
            revoked_at,
        ),
        res is Some,
        crl_at(crl, new_certs, root, generated_at, next_update),
    ensures
        exists|k: int|
            0 <= k < crl.revoked_certificates@.len() && (#[trigger] crl.revoked_certificates@[k]).certificate_id@ == cert_id
                && crl.revoked_certificates@[k].serial_number == res->Some_0.serial_number,
{
    let r = res->Some_0;
    let i = choose|i: int|
        0 <= i < old_certs.len() && (#[trigger] old_certs[i]).id@ == cert_id && (forall|j: int|
            0 <= j < i ==> (#[trigger] old_certs[j]).id@ != cert_id) && if old_certs[i].revoked {
            r == old_certs[i] && new_certs == old_certs
        } else {
            &&& r.revoked
            &&& r.revoked_at == Some(revoked_at)
            &&& r.revoked_by matches Some(b) && b@ == revoked_by
            &&& r.revoke_reason matches Some(b) && b@ == revoke_reason
            &&& r.revoked_by_vigil_user_id == revoked_by_vigil_user_id
            &&& r.revoked_by_acme_account_id == revoked_by_acme_account_id
            &&& r.revoked_via == revoked_via
            &&& r.id == old_certs[i].id
            &&& r.serial_number == old_certs[i].serial_number
            &&& r.subject == old_certs[i].subject
            &&& r.fingerprint256 == old_certs[i].fingerprint256
            &&& r.valid_from == old_certs[i].valid_from
            &&& r.valid_to == old_certs[i].valid_to
            &&& r.cert_path == old_certs[i].cert_path
            &&& r.issued_at == old_certs[i].issued_at
            &&& r.issued_by == old_certs[i].issued_by
            &&& r.owner_vigil_user_id == old_certs[i].owner_vigil_user_id
            &&& r.issuing_acme_account_id == old_certs[i].issuing_acme_account_id
            &&& new_certs == old_certs.update(i, r)
        };
    assert(new_certs[i] == r);
    assert(r.revoked);
    let pred = |x: CertificateRecord| x.revoked;
    new_certs.lemma_filter_contains(pred, i);
    let ro = revoked_only(new_certs);
    assert(ro.contains(r));
    let q = choose|q: int| 0 <= q < ro.len() && ro[q] == r;
    let u = choose|u: Seq<CrlEntry>|
        #![trigger crl_sort(u)]
        u.len() == revoked_only(new_certs).len() && (forall|k: int|
            0 <= k < u.len() ==> crl_entry_of(#[trigger] u[k], revoked_only(new_certs)[k], generated_at))
            && crl.revoked_certificates@ == crl_sort(u);
    assert(crl_entry_of(u[q], ro[q], generated_at));
    assert(u.contains(u[q]));
    lemma_crl_sort_keeps(u);
    assert(crl_sort(u).contains(u[q]));
    let k = choose|k: int| 0 <= k < crl_sort(u).len() && crl_sort(u)[k] == u[q];
    assert(crl.revoked_certificates@[k] == u[q]);
}

/// No two records share an id.
pub open spec fn distinct_ids(s: Seq<CertificateRecord>) -> bool {
    forall|i: int, j: int| 0 <= i < j < s.len() ==> (#[trigger] s[i]).id@ != (#[trigger] s[j]).id@
}

proof fn lemma_first_with_serial_member(s: Seq<CertificateRecord>, serial: Seq<char>)
    ensures
        first_with_serial(s, serial) matches Some(r) ==> exists|i: int| 0 <= i < s.len() && s[i] == r,
    decreases s.len(),
{
    if s.len() > 0 {
        lemma_first_with_serial_member(s.drop_first(), serial);
        if let Some(r) = first_with_serial(s.drop_first(), serial) {
            if first_with_serial(s, serial) == Some(r) && s[0] != r {
                let i = choose|i: int| 0 <= i < s.drop_first().len() && s.drop_first()[i] == r;
                assert(s[i + 1] == r);
            }
        }
        if first_with_serial(s, serial) == Some(s[0]) {
            assert(s[0] == s[0]);
        }
    }
}

/// OCSP by serial agrees with OCSP by id: where the serial finds a record,
/// asking by that record's id answers the same status, certificate id and
/// serial (record ids being distinct); where it finds none, the answer is
/// `unknown`.
pub proof fn law_ocsp_by_serial_matches_by_id(
    certs: Seq<CertificateRecord>,
    serial: Seq<char>,
    by_serial: OcspStatusResponse,
    p1: String,
    n1: String,
    by_id: OcspStatusResponse,
    p2: String,
    n2: String,
)
    requires
        distinct_ids(certs),
        ocsp_answer(by_serial, first_with_serial(certs, serial), p1, n1),
        first_with_serial(certs, serial) matches Some(r) ==> ocsp_answer(by_id, first_with_id(certs, r.id@), p2, n2),
    ensures
        first_with_serial(certs, serial) is None ==> by_serial.status@ == "unknown"@,
        first_with_serial(certs, serial) is Some ==> by_serial.status@ == by_id.status@ && by_serial.certificate_id
            == by_id.certificate_id && by_serial.serial_number == by_id.serial_number,
{
    lemma_first_with_serial_member(certs, serial);
    if let Some(r) = first_with_serial(certs, serial) {
        let i = choose|i: int| 0 <= i < certs.len() && certs[i] == r;
        assert forall|j: int| 0 <= j < i implies (#[trigger] certs[j]).id@ != r.id@ by {
            assert(certs[j].id@ != certs[i].id@);
        }
        lemma_first_with_id_at(certs, r.id@, i);
    }
}

/// Entries in order of revocation time: none revoked before one listed earlier.
pub open spec fn crl_ordered(s: Seq<CrlEntry>) -> bool {
    forall|i: int, j: int| 0 <= i < j < s.len() ==> !str_lt((#[trigger] s[j]).revoked_at@, (#[trigger] s[i]).revoked_at@)
}

proof fn lemma_crl_insert_perm(s: Seq<CrlEntry>, e: CrlEntry)
    ensures
        crl_insert(s, e).to_multiset() == s.to_multiset().insert(e),
    decreases s.len(),
{
    broadcast use vstd::seq_lib::group_to_multiset_ensures;

    if s.len() == 0 || !str_lt(e.revoked_at@, s.last().revoked_at@) {
    } else {
        let t = s.drop_last();
        lemma_crl_insert_perm(t, e);
        assert(s =~= t.push(s.last()));
        assert(crl_insert(s, e).to_multiset() =~= s.to_multiset().insert(e));
    }
}

proof fn lemma_crl_sort_perm(s: Seq<CrlEntry>)
    ensures
        crl_sort(s).to_multiset() == s.to_multiset(),
    decreases s.len(),
{
    broadcast use vstd::seq_lib::group_to_multiset_ensures;

    if s.len() > 0 {
        let t = s.drop_last();
        lemma_crl_sort_perm(t);
        lemma_crl_insert_perm(crl_sort(t), s.last());
        assert(s =~= t.push(s.last()));
    }
}

proof fn lemma_crl_insert_ordered(s: Seq<CrlEntry>, e: CrlEntry)
    requires
        crl_ordered(s),
    ensures
        crl_ordered(crl_insert(s, e)),
    decreases s.len(),
{
    broadcast use vstd::seq_lib::group_to_multiset_ensures;

    if s.len() == 0 || !str_lt(e.revoked_at@, s.last().revoked_at@) {
        let r = s.push(e);
        assert forall|i: int, j: int| 0 <= i < j < r.len() implies !str_lt((#[trigger] r[j]).revoked_at@, (#[trigger] r[i]).revoked_at@) by {
            if j == s.len() {
                let a = s[i].revoked_at@;
                let l = s.last().revoked_at@;
                let x = e.revoked_at@;
                if str_lt(x, a) {
                    if a == l {
                    } else {
                        if i < s.len() - 1 {
                            assert(!str_lt(l, a));
                        }
                        lemma_str_lt_total(a, l);
                        if str_lt(a, l) {
                            lemma_str_lt_trans(x, a, l);
                        }
                    }
                }
            } else {
                assert(r[i] == s[i] && r[j] == s[j]);
            }
        }
    } else {
        let t = s.drop_last();
        let last = s.last();
        assert forall|i: int, j: int| 0 <= i < j < t.len() implies !str_lt((#[trigger] t[j]).revoked_at@, (#[trigger] t[i]).revoked_at@) by {
            assert(t[i] == s[i] && t[j] == s[j]);
        }
        lemma_crl_insert_ordered(t, e);
        lemma_crl_insert_perm(t, e);
        let r = crl_insert(t, e);
        let q = r.push(last);
        assert forall|i: int, j: int| 0 <= i < j < q.len() implies !str_lt((#[trigger] q[j]).revoked_at@, (#[trigger] q[i]).revoked_at@) by {
            if j == r.len() {
                let x = r[i];
                assert(r.contains(x));
                assert(r.to_multiset().count(x) > 0);
                if x == e {
                    if str_lt(last.revoked_at@, e.revoked_at@) {
                        lemma_str_lt_trans(e.revoked_at@, last.revoked_at@, e.revoked_at@);
                        lemma_str_lt_irrefl(e.revoked_at@);
                    }
                } else {
                    assert(t.to_multiset().count(x) > 0);
                    assert(t.contains(x));
                    let k = choose|k: int| 0 <= k < t.len() && t[k] == x;
                    assert(s[k] == x);
                    assert(s[s.len() - 1] == last);
                }
            } else {
                assert(q[i] == r[i] && q[j] == r[j]);
            }
        }
    }
}

proof fn lemma_crl_sort_ordered(s: Seq<CrlEntry>)
    ensures
        crl_ordered(crl_sort(s)),
    decreases s.len(),
{
    if s.len() > 0 {
        lemma_crl_sort_ordered(s.drop_last());
        lemma_crl_insert_ordered(crl_sort(s.drop_last()), s.last());
    }
}

/// The CRL lists exactly the revoked records' entries, each once, in order
/// of revocation time.
pub proof fn law_crl_lists_revoked_in_order(
    res: CrlResponse,
    recs: Seq<CertificateRecord>,
    root: RootCAMetadata,
    generated_at: String,
    next_update: String,
)
    requires
        crl_at(res, recs, root, generated_at, next_update),
    ensures
        crl_ordered(res.revoked_certificates@),
        exists|u: Seq<CrlEntry>|
            #![trigger u.to_multiset()]
            u.len() == revoked_only(recs).len() && (forall|k: int|
                0 <= k < u.len() ==> crl_entry_of(#[trigger] u[k], revoked_only(recs)[k], generated_at))
                && res.revoked_certificates@.to_multiset() == u.to_multiset(),
{
    let u = choose|u: Seq<CrlEntry>|
        #![trigger crl_sort(u)]
        u.len() == revoked_only(recs).len() && (forall|k: int|
            0 <= k < u.len() ==> crl_entry_of(#[trigger] u[k], revoked_only(recs)[k], generated_at))
            && res.revoked_certificates@ == crl_sort(u);
    lemma_crl_sort_perm(u);
    lemma_crl_sort_ordered(u);
}

} // verus!
