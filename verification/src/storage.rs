//! The Vigil databases: users, issued certificates and ACME accounts, as the
//! records they hold. Reading and writing the files is left to the caller.
use crate::codec::{hex_encode, sha256, sha256_digest, spec_hex_encode};
use crate::text::{chars_of, is_ascii_seq, string_from_chars, to_lowercase, trim, trim_chars, unicode_lower};
use crate::types::{CertificateRecord, CertificatesDb, UsersDb, VigilUser};
use vstd::prelude::*;

verus! {

/// `s` without any occurrence of `c`.
pub open spec fn remove_char(s: Seq<char>, c: char) -> Seq<char>
    decreases s.len(),
{
    if s.len() == 0 {
        s
    } else {
        let r = remove_char(s.drop_last(), c);
        if s.last() == c {
            r
        } else {
            r.push(s.last())
        }
    }
}

pub fn remove_char_chars(v: &[char], c: char) -> (res: Vec<char>)
    ensures
        res@ == remove_char(v@, c),
{
    let mut out: Vec<char> = Vec::new();
    let mut i: usize = 0;
    assert(v@.subrange(0, 0) =~= Seq::<char>::empty());
    while i < v.len()
        invariant
            i <= v@.len(),
            out@ == remove_char(v@.subrange(0, i as int), c),
        decreases v@.len() - i,
    {
        proof {
            let s1 = v@.subrange(0, i + 1);
            assert(s1.drop_last() =~= v@.subrange(0, i as int));
        }
        if v[i] != c {
            out.push(v[i]);
        }
        i = i + 1;
    }
    assert(v@.subrange(0, v@.len() as int) =~= v@);
    out
}

pub open spec fn strip_zeros_text(s: Seq<char>) -> Seq<char>
    decreases s.len(),
{
    if s.len() > 0 && s[0] == '0' {
        strip_zeros_text(s.drop_first())
    } else {
        s
    }
}

/// The form serial numbers are compared in: trimmed, leading `0`s removed,
/// lower-cased, `"0"` when nothing is left.
pub open spec fn spec_normalize_serial(s: Seq<char>) -> Seq<char> {
    let n = unicode_lower(strip_zeros_text(trim(s)));
    if n.len() == 0 {
        seq!['0']
    } else {
        n
    }
}

fn strip_zeros_chars(v: &[char]) -> (res: Vec<char>)
    ensures
        res@ == strip_zeros_text(v@),
{
    let n = v.len();
    let mut i: usize = 0;
    assert(v@.subrange(0, n as int) =~= v@);
    while i < n && v[i] == '0'
        invariant
            n == v@.len(),
            i <= n,
            strip_zeros_text(v@) == strip_zeros_text(v@.subrange(i as int, n as int)),
        decreases n - i,
    {
        proof {
            let r = v@.subrange(i as int, n as int);
            assert(r.drop_first() =~= v@.subrange(i + 1, n as int));
        }
        i = i + 1;
    }
    proof {
        let r = v@.subrange(i as int, n as int);
        if r.len() > 0 {
            assert(r[0] == v@[i as int]);
        }
    }
    vstd::slice::slice_to_vec(&v[i..n])
}

pub fn normalize_serial(s: &str) -> (res: String)
    ensures
        res@ == spec_normalize_serial(s@),
{
    let raw = chars_of(s);
    let t = trim_chars(raw.as_slice());
    let z = strip_zeros_chars(t.as_slice());
    let zs = string_from_chars(z.as_slice());
    let lower = to_lowercase(zs.as_str());
    if lower.as_str().is_empty() {
        let zero: Vec<char> = vec!['0'];
        assert(zero@ =~= seq!['0']);
        string_from_chars(zero.as_slice())
    } else {
        lower
    }
}

/// A PEM text with carriage returns removed, trimmed, ending in one newline.
pub open spec fn spec_normalize_pem(pem: Seq<char>) -> Seq<char> {
    trim(remove_char(pem, '\r')).push('\n')
}

pub fn normalize_pem(pem: &str) -> (res: String)
    ensures
        res@ == spec_normalize_pem(pem@),
{
    let raw = chars_of(pem);
    let no_cr = remove_char_chars(raw.as_slice(), '\r');
    let mut t = trim_chars(no_cr.as_slice());
    t.push('\n');
    string_from_chars(t.as_slice())
}

/// Lower-case hex of the SHA-256 of the normalized PEM's UTF-8 bytes.
pub fn fingerprint_public_key_pem(pem: &str) -> (res: String)
    ensures
        res@ == spec_hex_encode(sha256(vstd::utf8::encode_utf8(spec_normalize_pem(pem@)))),
{
    let normalized = normalize_pem(pem);
    let hash = sha256_digest(normalized.as_str().as_bytes());
    hex_encode(hash.as_slice())
}

// ---------------------------------------------------------------------------
// Users
// ---------------------------------------------------------------------------

/// Why a database change was refused.
#[derive(Debug)]
pub enum StorageError {
    /// A user with this id already exists.
    DuplicateUser(String),
}

pub fn list_users(db: &UsersDb) -> (res: Vec<VigilUser>)
    ensures
        res@ == db.users@,
{
    let mut out: Vec<VigilUser> = Vec::new();
    let mut i: usize = 0;
    while i < db.users.len()
        invariant
            i <= db.users@.len(),
            out@ == db.users@.subrange(0, i as int),
        decreases db.users@.len() - i,
    {
        out.push(db.users[i].duplicate());
        i = i + 1;
        assert(out@ =~= db.users@.subrange(0, i as int));
    }
    assert(out@ =~= db.users@);
    out
}

pub fn add_user(db: &mut UsersDb, user: VigilUser) -> (res: Result<VigilUser, StorageError>)
    ensures
        (exists|i: int| 0 <= i < old(db).users@.len() && (#[trigger] old(db).users@[i]).id@ == user.id@) ==> (
        res == Err::<VigilUser, StorageError>(StorageError::DuplicateUser(user.id)) && final(db).users@
            == old(db).users@),
        (forall|i: int| 0 <= i < old(db).users@.len() ==> (#[trigger] old(db).users@[i]).id@ != user.id@)
            ==> (res matches Ok(c) && c.id == user.id && c.name == user.name && c.role == user.role
            && c.active == user.active && c.public_key_pem@ == spec_normalize_pem(user.public_key_pem@)
            && c.public_key_fingerprint256@ == unicode_lower(trim(user.public_key_fingerprint256@))
            && final(db).users@ == old(db).users@.push(c)),
{
    let mut i: usize = 0;
    while i < db.users.len()
        invariant
            db.users@ == old(db).users@,
            i <= db.users@.len(),
            forall|k: int| 0 <= k < i ==> (#[trigger] db.users@[k]).id@ != user.id@,
        decreases db.users@.len() - i,
    {
        if db.users[i].id == user.id {
            return Err(StorageError::DuplicateUser(user.id));
        }
        i = i + 1;
    }
    let pem = normalize_pem(user.public_key_pem.as_str());
    let fp_raw = chars_of(user.public_key_fingerprint256.as_str());
    let fp_trim = trim_chars(fp_raw.as_slice());
    let fp_trim_s = string_from_chars(fp_trim.as_slice());
    let fp = to_lowercase(fp_trim_s.as_str());
    let created = VigilUser {
        id: user.id,
        name: user.name,
        role: user.role,
        active: user.active,
        public_key_pem: pem,
        public_key_fingerprint256: fp,
    };
    db.users.push(created.duplicate());
    Ok(created)
}

/// The first active user whose stored fingerprint equals `fingerprint`.
pub fn find_active_user_by_fingerprint(db: &UsersDb, fingerprint: &str) -> (res: Option<VigilUser>)
    ensures
        match res {
            Some(u) => exists|i: int|
                0 <= i < db.users@.len() && u == db.users@[i] && u.active
                    && u.public_key_fingerprint256@ == fingerprint@ && (forall|j: int|
                    0 <= j < i ==> !((#[trigger] db.users@[j]).active
                        && db.users@[j].public_key_fingerprint256@ == fingerprint@)),
            None => forall|j: int|
                0 <= j < db.users@.len() ==> !((#[trigger] db.users@[j]).active
                    && db.users@[j].public_key_fingerprint256@ == fingerprint@),
        },
{
    let wanted = fingerprint.to_owned();
    let mut i: usize = 0;
    while i < db.users.len()
        invariant
            wanted@ == fingerprint@,
            i <= db.users@.len(),
            forall|j: int|
                0 <= j < i ==> !((#[trigger] db.users@[j]).active
                    && db.users@[j].public_key_fingerprint256@ == fingerprint@),
        decreases db.users@.len() - i,
    {
        let u = &db.users[i];
        if u.active && u.public_key_fingerprint256 == wanted {
            return Some(u.duplicate());
        }
        i = i + 1;
    }
    None
}

// ---------------------------------------------------------------------------
// Certificates
// ---------------------------------------------------------------------------

pub fn list_certificate_records(db: &CertificatesDb) -> (res: Vec<CertificateRecord>)
    ensures
        res@ == db.certificates@,
{
    let mut out: Vec<CertificateRecord> = Vec::new();
    let mut i: usize = 0;
    while i < db.certificates.len()
        invariant
            i <= db.certificates@.len(),
            out@ == db.certificates@.subrange(0, i as int),
        decreases db.certificates@.len() - i,
    {
        out.push(db.certificates[i].duplicate());
        i = i + 1;
        assert(out@ =~= db.certificates@.subrange(0, i as int));
    }
    assert(out@ =~= db.certificates@);
    out
}

/// The first record with this id.
pub open spec fn first_with_id(s: Seq<CertificateRecord>, id: Seq<char>) -> Option<CertificateRecord>
    decreases s.len(),
{
    if s.len() == 0 {
        None
    } else if s[0].id@ == id {
        Some(s[0])
    } else {
        first_with_id(s.drop_first(), id)
    }
}

/// The first record whose serial, normalized, equals `serial` normalized.
pub open spec fn first_with_serial(s: Seq<CertificateRecord>, serial: Seq<char>) -> Option<CertificateRecord>
    decreases s.len(),
{
    if s.len() == 0 {
        None
    } else if spec_normalize_serial(s[0].serial_number@) == spec_normalize_serial(serial) {
        Some(s[0])
    } else {
        first_with_serial(s.drop_first(), serial)
    }
}

pub fn get_certificate_record(db: &CertificatesDb, cert_id: &str) -> (res: Option<CertificateRecord>)
    ensures
        res == first_with_id(db.certificates@, cert_id@),
{
    let wanted = cert_id.to_owned();
    let n = db.certificates.len();
    let mut i: usize = 0;
    assert(db.certificates@.subrange(0, n as int) =~= db.certificates@);
    while i < n
        invariant
            n == db.certificates@.len(),
            wanted@ == cert_id@,
            i <= n,
            first_with_id(db.certificates@, cert_id@) == first_with_id(
                db.certificates@.subrange(i as int, n as int),
                cert_id@,
            ),
        decreases n - i,
    {
        proof {
            let r = db.certificates@.subrange(i as int, n as int);
            assert(r.drop_first() =~= db.certificates@.subrange(i + 1, n as int));
            assert(r[0] == db.certificates@[i as int]);
        }
        if db.certificates[i].id == wanted {
            return Some(db.certificates[i].duplicate());
        }
        i = i + 1;
    }
    None
}

pub fn find_certificate_by_serial(db: &CertificatesDb, serial: &str) -> (res: Option<CertificateRecord>)
    ensures
        res == first_with_serial(db.certificates@, serial@),
{
    let wanted = normalize_serial(serial);
    let n = db.certificates.len();
    let mut i: usize = 0;
    assert(db.certificates@.subrange(0, n as int) =~= db.certificates@);
    while i < n
        invariant
            n == db.certificates@.len(),
            wanted@ == spec_normalize_serial(serial@),
            i <= n,
            first_with_serial(db.certificates@, serial@) == first_with_serial(
                db.certificates@.subrange(i as int, n as int),
                serial@,
            ),
        decreases n - i,
    {
        proof {
            let r = db.certificates@.subrange(i as int, n as int);
            assert(r.drop_first() =~= db.certificates@.subrange(i + 1, n as int));
            assert(r[0] == db.certificates@[i as int]);
        }
        let k = normalize_serial(db.certificates[i].serial_number.as_str());
        if k == wanted {
            return Some(db.certificates[i].duplicate());
        }
        i = i + 1;
    }
    None
}

pub open spec fn count_revoked(s: Seq<CertificateRecord>) -> nat
    decreases s.len(),
{
    if s.len() == 0 {
        0
    } else {
        count_revoked(s.drop_last()) + if s.last().revoked {
            1nat
        } else {
            0nat
        }
    }
}

proof fn lemma_count_revoked_le(s: Seq<CertificateRecord>)
    ensures
        count_revoked(s) <= s.len(),
    decreases s.len(),
{
    if s.len() > 0 {
        lemma_count_revoked_le(s.drop_last());
    }
}

/// (total, revoked, active) record counts.
pub fn certificate_stats(db: &CertificatesDb) -> (res: (usize, usize, usize))
    ensures
        res.0 == db.certificates@.len(),
        res.1 == count_revoked(db.certificates@),
        res.2 == res.0 - res.1,
{
    let total = db.certificates.len();
    let mut revoked: usize = 0;
    let mut i: usize = 0;
    assert(db.certificates@.subrange(0, 0) =~= Seq::<CertificateRecord>::empty());
    while i < total
        invariant
            total == db.certificates@.len(),
            i <= total,
            revoked as nat == count_revoked(db.certificates@.subrange(0, i as int)),
            revoked <= i,
        decreases total - i,
    {
        proof {
            let s1 = db.certificates@.subrange(0, i + 1);
            assert(s1.drop_last() =~= db.certificates@.subrange(0, i as int));
        }
        if db.certificates[i].revoked {
            revoked = revoked + 1;
        }
        i = i + 1;
    }
    assert(db.certificates@.subrange(0, total as int) =~= db.certificates@);
    (total, revoked, total - revoked)
}

/// Store a freshly issued record under `cert_path`, replacing any record with the same id.
pub fn issue_certificate_record(db: &mut CertificatesDb, record: CertificateRecord, cert_path: String) -> (res: CertificateRecord)
    ensures
        res == (CertificateRecord { cert_path: cert_path, ..record }),
        final(db).certificates@ == old(db).certificates@.filter(
            |c: CertificateRecord| c.id@ != record.id@,
        ).push(res),
{
    let full = CertificateRecord { cert_path: cert_path, ..record };
    let mut kept: Vec<CertificateRecord> = Vec::new();
    let mut i: usize = 0;
    let ghost pred = |c: CertificateRecord| c.id@ != record.id@;
    proof {
        reveal_with_fuel(Seq::<_>::filter, 1);
        assert(old(db).certificates@.subrange(0, 0).filter(pred) =~= Seq::<CertificateRecord>::empty());
    }
    while i < db.certificates.len()
        invariant
            db.certificates@ == old(db).certificates@,
            pred == (|c: CertificateRecord| c.id@ != record.id@),
            full.id == record.id,
            i <= db.certificates@.len(),
            kept@ == db.certificates@.subrange(0, i as int).filter(pred),
        decreases db.certificates@.len() - i,
    {
        proof {
            let s1 = db.certificates@.subrange(0, i + 1);
            assert(s1.drop_last() =~= db.certificates@.subrange(0, i as int));
            reveal_with_fuel(Seq::<_>::filter, 1);
        }
        if db.certificates[i].id != full.id {
            kept.push(db.certificates[i].duplicate());
        }
        i = i + 1;
    }
    assert(db.certificates@.subrange(0, db.certificates@.len() as int) =~= db.certificates@);
    kept.push(full.duplicate());
    db.certificates = kept;
    full
}

/// The outcome of revoking `cert_id` at `revoked_at`: `None` and nothing
/// changed where no record has that id; the first such record unchanged where
/// it was already revoked; else that record marked revoked (by, why, when and
/// how), in place.
pub open spec fn revocation_outcome(
    old_certs: Seq<CertificateRecord>,
    new_certs: Seq<CertificateRecord>,
    res: Option<CertificateRecord>,
    cert_id: Seq<char>,
    revoked_by: Seq<char>,
    revoke_reason: Seq<char>,
    revoked_by_vigil_user_id: Option<String>,
    revoked_by_acme_account_id: Option<String>,
    revoked_via: Option<String>,
    revoked_at: String,
) -> bool {
    match res {
        None => (forall|j: int|
            0 <= j < old_certs.len() ==> (#[trigger] old_certs[j]).id@
                != cert_id) && new_certs == old_certs,
        Some(r) => exists|i: int|
            0 <= i < old_certs.len() && (#[trigger] old_certs[i]).id@
                == cert_id && (forall|j: int|
                0 <= j < i ==> (#[trigger] old_certs[j]).id@ != cert_id) && if old_certs[i].revoked {
                r == old_certs[i] && new_certs == old_certs
            } else {
                &&& r.revoked
                &&& r.revoked_at == Some(revoked_at)
                &&& r.revoked_by matches Some(b) && b@ == revoked_by
                &&& r.revoke_reason matches Some(b) && b@ == revoke_reason
                &&& r.revoked_by_vigil_user_id == revoked_by_vigil_user_id
                &&& r.revoked_by_acme_account_id == revoked_by_acme_account_id
                &&& r.revoked_via == revoked_via
                &&& r.id == old_certs[i].id
                &&& r.serial_number == old_certs[i].serial_number
                &&& r.subject == old_certs[i].subject
                &&& r.fingerprint256 == old_certs[i].fingerprint256
                &&& r.valid_from == old_certs[i].valid_from
                &&& r.valid_to == old_certs[i].valid_to
                &&& r.cert_path == old_certs[i].cert_path
                &&& r.issued_at == old_certs[i].issued_at
                &&& r.issued_by == old_certs[i].issued_by
                &&& r.owner_vigil_user_id == old_certs[i].owner_vigil_user_id
                &&& r.issuing_acme_account_id == old_certs[i].issuing_acme_account_id
                &&& new_certs == old_certs.update(i, r)
            },
    }
}

/// Revoke the first record with id `cert_id` at time `revoked_at`. `None` when
/// there is no such record; an already revoked record is returned unchanged.
pub fn revoke_certificate_at(
    db: &mut CertificatesDb,
    cert_id: &str,
    revoked_by: &str,
    revoke_reason: &str,
    revoked_by_vigil_user_id: Option<String>,
    revoked_by_acme_account_id: Option<String>,
    revoked_via: Option<String>,
    revoked_at: String,
) -> (res: Option<CertificateRecord>)
    ensures
        revocation_outcome(
            old(db).certificates@,
            final(db).certificates@,
            res,
            cert_id@,
            revoked_by@,
            revoke_reason@,
            revoked_by_vigil_user_id,
            revoked_by_acme_account_id,
            revoked_via,
            revoked_at,
        ),
{
    let wanted = cert_id.to_owned();
    let mut i: usize = 0;
    while i < db.certificates.len()
        invariant
            wanted@ == cert_id@,
            db.certificates@ == old(db).certificates@,
            i <= db.certificates@.len(),
            forall|j: int| 0 <= j < i ==> (#[trigger] db.certificates@[j]).id@ != cert_id@,
        ensures
            i <= db.certificates@.len(),
            i < db.certificates@.len() ==> db.certificates@[i as int].id@ == cert_id@,
            forall|j: int| 0 <= j < i ==> (#[trigger] db.certificates@[j]).id@ != cert_id@,
        decreases db.certificates@.len() - i,
    {
        if db.certificates[i].id == wanted {
            break;
        }
        i = i + 1;
    }
    if i == db.certificates.len() {
        return None;
    }
    assert(old(db).certificates@[i as int].id@ == cert_id@);
    if db.certificates[i].revoked {
        return Some(db.certificates[i].duplicate());
    }
    let existing = db.certificates[i].duplicate();
    let updated = CertificateRecord {
        revoked: true,
        revoked_at: Some(revoked_at),
        revoked_by: Some(revoked_by.to_owned()),
        revoked_by_vigil_user_id,
        revoked_by_acme_account_id,
        revoked_via,
        revoke_reason: Some(revoke_reason.to_owned()),
        ..existing
    };
    let copy = updated.duplicate();
    db.certificates.set(i, copy);
    assert(db.certificates@ == old(db).certificates@.update(i as int, updated));
    Some(updated)
}

/// Revokes the first record with id `cert_id` now (see `revocation_outcome`).
pub fn revoke_certificate(
    db: &mut CertificatesDb,
    cert_id: &str,
    revoked_by: &str,
    revoke_reason: &str,
    revoked_by_vigil_user_id: Option<String>,
    revoked_by_acme_account_id: Option<String>,
    revoked_via: Option<String>,
) -> (res: Option<CertificateRecord>)
    ensures
        exists|now: String|
            #![trigger revocation_outcome(old(db).certificates@, final(db).certificates@, res, cert_id@, revoked_by@, revoke_reason@, revoked_by_vigil_user_id, revoked_by_acme_account_id, revoked_via, now)]
            revocation_outcome(
                old(db).certificates@,
                final(db).certificates@,
                res,
                cert_id@,
                revoked_by@,
                revoke_reason@,
                revoked_by_vigil_user_id,
                revoked_by_acme_account_id,
                revoked_via,
                now,
            ),
{
    let now = crate::clock::now_rfc3339();
    let ghost t = now;
    let res = revoke_certificate_at(
        db,
        cert_id,
        revoked_by,
        revoke_reason,
        revoked_by_vigil_user_id,
        revoked_by_acme_account_id,
        revoked_via,
        now,
    );
    assert(revocation_outcome(old(db).certificates@, db.certificates@, res, cert_id@, revoked_by@, revoke_reason@, revoked_by_vigil_user_id, revoked_by_acme_account_id, revoked_via, t));
    res
}

} // verus!
