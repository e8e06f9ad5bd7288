//! Shepherd's certificate store. Each certificate has a directory under
//! `archive/` whose files are numbered (`cert-0001.pem`, `chain-0001.pem`,
//! `fullchain-0001.pem`, `privkey-0001.pem`, then `-0002`, ...), and one under
//! `live/` whose links point at the newest of them. Here stand the numbering,
//! the names of the files each issuance writes, and the fingerprint the store
//! reports; reading directories and writing files are the caller's.
use crate::codec::{hex_encode, pem_first_section, sha256, sha256_digest, spec_hex_encode, PemSectionView};
use crate::codec::read_first_pem;
use crate::codec::PemSection;
use crate::fleet::{spec_split_cert_chain, split_cert_chain};
use crate::pop::pop_pem_to_der;
use crate::x509::{cert_not_after, parse_cert_not_after};
use crate::settings::{decimal, spec_decimal};
use crate::text::{
    all_digits, chars_of, digit_val, digits_value, ends_with, ends_with_chars, is_digit, parse_unsigned,
    parse_unsigned_chars, starts_with, starts_with_chars, to_uppercase, unicode_upper, views,
};
use vstd::prelude::*;

verus! {

/// The number of an archived certificate file named `cert-<n>.pem`, where `n`
/// reads as a `u32`.
pub open spec fn archive_number(name: Seq<char>) -> Option<nat> {
    let p = "cert-"@;
    let s = ".pem"@;
    if starts_with(name, p) && ends_with(name.subrange(p.len() as int, name.len() as int), s) {
        parse_unsigned(name.subrange(p.len() as int, name.len() - s.len()), 4294967295)
    } else {
        None
    }
}

/// The highest number among archived certificate files, if any.
pub open spec fn max_number(names: Seq<Seq<char>>) -> Option<nat>
    decreases names.len(),
{
    if names.len() == 0 {
        None
    } else {
        let rest = max_number(names.drop_last());
        match archive_number(names.last()) {
            None => rest,
            Some(n) => match rest {
                None => Some(n),
                Some(m) => Some(if n > m { n } else { m }),
            },
        }
    }
}

/// The number the next issuance archives under: one past the highest, or 1.
pub open spec fn spec_next_ordinal(names: Seq<Seq<char>>) -> nat {
    match max_number(names) {
        Some(m) => m + 1,
        None => 1,
    }
}

/// `k` zeros.
pub open spec fn zeros(k: nat) -> Seq<char> {
    Seq::new(k, |i: int| '0')
}

/// Decimal text padded with zeros to four characters (`{:04}`).
pub open spec fn padded4(d: Seq<char>) -> Seq<char> {
    if d.len() >= 4 {
        d
    } else {
        zeros((4 - d.len()) as nat) + d
    }
}

/// The name of archived file `kind` number `n`: `<kind>-<n:04>.pem`.
pub open spec fn archive_text(kind: Seq<char>, n: nat) -> Seq<char> {
    kind + "-"@ + padded4(spec_decimal(n)) + ".pem"@
}

fn archive_number_of(name: &str) -> (r: Option<u32>)
    ensures
        match r {
            Some(v) => archive_number(name@) == Some(v as nat),
            None => archive_number(name@) is None,
        },
{
    let n = chars_of(name);
    let p = chars_of("cert-");
    let s = chars_of(".pem");
    if !starts_with_chars(n.as_slice(), p.as_slice()) {
        return None;
    }
    let rest = vstd::slice::slice_to_vec(&n.as_slice()[p.len()..n.len()]);
    assert(rest@ =~= name@.subrange(p@.len() as int, name@.len() as int));
    if !ends_with_chars(rest.as_slice(), s.as_slice()) {
        return None;
    }
    let stem = &n.as_slice()[p.len()..n.len() - s.len()];
    assert(stem@ =~= name@.subrange(p@.len() as int, name@.len() - s@.len()));
    match parse_unsigned_chars(stem, 4294967295) {
        Some(v) => Some(v as u32),
        None => None,
    }
}

/// The number the next issuance of a certificate archives under, given the
/// names of the files in its archive directory.
pub fn next_ordinal(names: &Vec<String>) -> (r: u32)
    requires
        max_number(views(names@)) != Some(4294967295nat),
    ensures
        r == spec_next_ordinal(views(names@)),
{
    let mut best: Option<u32> = None;
    let mut i: usize = 0;
    while i < names.len()
        invariant
            i <= names@.len(),
            match best {
                Some(b) => max_number(views(names@).subrange(0, i as int)) == Some(b as nat),
                None => max_number(views(names@).subrange(0, i as int)) is None,
            },
        decreases names@.len() - i,
    {
        proof {
            let nxt = views(names@).subrange(0, i + 1);
            assert(nxt.drop_last() =~= views(names@).subrange(0, i as int));
            assert(nxt.last() == names@[i as int]@);
        }
        match archive_number_of(names[i].as_str()) {
            Some(n) => {
                best = match best {
                    None => Some(n),
                    Some(m) => Some(if n > m { n } else { m }),
                };
            },
            None => {},
        }
        i = i + 1;
    }
    assert(views(names@).subrange(0, names@.len() as int) =~= views(names@));
    match best {
        Some(m) => m + 1,
        None => 1,
    }
}

/// The name of archived file `kind` (`cert`, `chain`, `fullchain` or
/// `privkey`) number `ordinal`.
pub fn archive_file_name(kind: &str, ordinal: u32) -> (r: String)
    ensures
        r@ == archive_text(kind@, ordinal as nat),
{
    let d = decimal(ordinal as u64);
    let dl = d.as_str().unicode_len();
    let mut out = String::new();
    out.append(kind);
    out.append("-");
    proof {
        reveal_strlit("0");
    }
    let mut z: usize = dl;
    while z < 4
        invariant
            dl == spec_decimal(ordinal as nat).len(),
            dl <= z <= (if dl < 4 { 4 } else { dl }),
            out@ == kind@ + "-"@ + zeros((z - dl) as nat),
        decreases 4 - z,
    {
        let ghost before = out@;
        out.append("0");
        proof {
            reveal_strlit("0");
            assert(zeros((z + 1 - dl) as nat) =~= zeros((z - dl) as nat).push('0'));
            assert(out@ =~= kind@ + "-"@ + zeros((z + 1 - dl) as nat));
        }
        z = z + 1;
    }
    proof {
        if dl >= 4 {
            assert(zeros(0) =~= Seq::<char>::empty());
        }
    }
    out.append(d.as_str());
    out.append(".pem");
    assert(out@ =~= archive_text(kind@, ordinal as nat));
    out
}

/// An archived file and the live link that points at it.
pub struct StoreFile {
    pub archive_name: String,
    pub live_name: String,
}

/// The files an issuance archived under `ordinal` writes, with their live
/// links: certificate, chain and full chain, then the key where there is one.
pub fn issued_files(ordinal: u32, with_key: bool) -> (v: Vec<StoreFile>)
    ensures
        v@.len() == (if with_key { 4nat } else { 3nat }),
        v@[0].archive_name@ == archive_text("cert"@, ordinal as nat) && v@[0].live_name@ == "cert.pem"@,
        v@[1].archive_name@ == archive_text("chain"@, ordinal as nat) && v@[1].live_name@ == "chain.pem"@,
        v@[2].archive_name@ == archive_text("fullchain"@, ordinal as nat) && v@[2].live_name@ == "fullchain.pem"@,
        with_key ==> v@[3].archive_name@ == archive_text("privkey"@, ordinal as nat) && v@[3].live_name@ == "privkey.pem"@,
{
    let mut v: Vec<StoreFile> = Vec::new();
    v.push(StoreFile { archive_name: archive_file_name("cert", ordinal), live_name: "cert.pem".to_owned() });
    v.push(StoreFile { archive_name: archive_file_name("chain", ordinal), live_name: "chain.pem".to_owned() });
    v.push(StoreFile { archive_name: archive_file_name("fullchain", ordinal), live_name: "fullchain.pem".to_owned() });
    if with_key {
        v.push(StoreFile { archive_name: archive_file_name("privkey", ordinal), live_name: "privkey.pem".to_owned() });
    }
    v
}

/// The fingerprint the store reports for a certificate: the SHA-256 digest
/// of its DER in upper-case hex.
pub fn store_fingerprint(cert_der: &[u8]) -> (r: String)
    ensures
        r@ == unicode_upper(spec_hex_encode(sha256(cert_der@))),
{
    let digest = sha256_digest(cert_der);
    let hex = hex_encode(digest.as_slice());
    to_uppercase(hex.as_str())
}

/// The fingerprint the store reports for a certificate file: that of the
/// first PEM section, where it is a certificate.
pub fn stored_fingerprint(cert_pem: &str) -> (r: Option<String>)
    ensures
        match pem_first_section(cert_pem@) {
            Some(Some(PemSectionView::Certificate(der))) => r matches Some(f) && f@ == unicode_upper(spec_hex_encode(sha256(der))),
            _ => r is None,
        },
{
    match pop_pem_to_der(cert_pem) {
        Some(der) => Some(store_fingerprint(der.as_slice())),
        None => None,
    }
}

/// Upper-case hex digit of a nibble.
pub open spec fn upper_hex_digit(n: nat) -> char {
    if n < 10 {
        (48 + n) as char
    } else {
        (55 + n) as char
    }
}

/// Bytes as upper-case hex pairs separated by colons (`AB:CD:..`).
pub open spec fn colon_hex(b: Seq<u8>) -> Seq<char>
    decreases b.len(),
{
    if b.len() == 0 {
        Seq::empty()
    } else {
        let pair = seq![upper_hex_digit((b.last() / 16) as nat), upper_hex_digit((b.last() % 16) as nat)];
        if b.len() == 1 {
            pair
        } else {
            colon_hex(b.drop_last()) + seq![':'] + pair
        }
    }
}

fn upper_hex_char(n: u8) -> (c: char)
    requires
        n < 16,
    ensures
        c == upper_hex_digit(n as nat),
{
    if n < 10 {
        ((48 + n) as u8) as char
    } else {
        ((55 + n) as u8) as char
    }
}

/// The fingerprint of an issued certificate (the first PEM section of its
/// text): its SHA-256 digest as upper-case hex pairs separated by colons.
pub fn leaf_fingerprint(cert_pem: &str) -> (r: Result<String, String>)
    ensures
        match pem_first_section(cert_pem@) {
            Some(Some(PemSectionView::Certificate(der))) => r matches Ok(f) && f@ == colon_hex(sha256(der)),
            _ => r matches Err(m) && m@ == "Could not parse cert PEM for fingerprint"@,
        },
{
    let der = match pop_pem_to_der(cert_pem) {
        Some(d) => d,
        None => return Err("Could not parse cert PEM for fingerprint".to_owned()),
    };
    let digest = sha256_digest(der.as_slice());
    let mut out: Vec<char> = Vec::new();
    let mut i: usize = 0;
    while i < digest.len()
        invariant
            i <= digest@.len(),
            out@ == colon_hex(digest@.subrange(0, i as int)),
        decreases digest@.len() - i,
    {
        let b = digest[i];
        let ghost pre = digest@.subrange(0, i as int);
        let ghost nxt = digest@.subrange(0, i + 1);
        assert(nxt.drop_last() =~= pre);
        assert(nxt.last() == b);
        if i > 0 {
            out.push(':');
        }
        out.push(upper_hex_char(b / 16));
        out.push(upper_hex_char(b % 16));
        proof {
            if i == 0 {
                assert(pre =~= Seq::<u8>::empty());
            }
            assert(out@ =~= colon_hex(nxt));
        }
        i = i + 1;
    }
    assert(digest@.subrange(0, digest@.len() as int) =~= digest@);
    Ok(crate::text::string_from_chars(out.as_slice()))
}

/// What an issuance through an ACME CA yields: the certificate, its chain
/// and full chain, its fingerprint, and whether it differs from what the
/// store held.
pub struct IssuanceResult {
    pub cert_pem: String,
    pub chain_pem: String,
    pub fullchain_pem: String,
    pub fingerprint256: String,
    pub issued: bool,
    pub changed: bool,
}

/// The checks before an ACME issuance of `cert_name`: at least one name is
/// asked for, and the CSR text's first PEM section is a CSR (its DER given back).
pub fn issuance_preflight(cert_name: &str, domains: &Vec<String>, csr_pem: &str) -> (r: Result<Vec<u8>, String>)
    ensures
        domains@.len() == 0 ==> (r matches Err(m) && m@ == "at least one domain is required for ACME issuance of '"@ + cert_name@ + "'"@),
        domains@.len() > 0 ==> match pem_first_section(csr_pem@) {
            Some(Some(PemSectionView::Csr(der))) => r matches Ok(d) && d@ == der,
            _ => r matches Err(m) && m@ == "Could not parse CSR PEM for '"@ + cert_name@ + "'"@,
        },
{
    if domains.len() == 0 {
        let mut m = String::new();
        m.append("at least one domain is required for ACME issuance of '");
        m.append(cert_name);
        m.append("'");
        return Err(m);
    }
    match read_first_pem(csr_pem) {
        Some(Some(PemSection::Csr(d))) => Ok(d),
        _ => {
            let mut m = String::new();
            m.append("Could not parse CSR PEM for '");
            m.append(cert_name);
            m.append("'");
            Err(m)
        },
    }
}

/// Assembles the result of an issuance from the chain the CA returned and
/// the fingerprint the store held before (if any): the chain cut into leaf,
/// chain and full chain, the leaf's colon-separated fingerprint, and
/// `changed` exactly when that differs from the stored text.
pub fn issuance_result(cert_chain: &str, stored: Option<String>) -> (r: Result<IssuanceResult, String>)
    ensures
        ({
            let (leaf, chain, full) = spec_split_cert_chain(cert_chain@);
            match pem_first_section(leaf) {
                Some(Some(PemSectionView::Certificate(der))) => r matches Ok(res) && res.cert_pem@ == leaf && res.chain_pem@ == chain
                    && res.fullchain_pem@ == full && res.fingerprint256@ == colon_hex(sha256(der)) && res.issued
                    && res.changed == !(stored matches Some(f) && f@ == colon_hex(sha256(der))),
                _ => r matches Err(m) && m@ == "Could not parse cert PEM for fingerprint"@,
            }
        }),
{
    let (cert_pem, chain_pem, fullchain_pem) = split_cert_chain(cert_chain);
    let fingerprint = match leaf_fingerprint(cert_pem.as_str()) {
        Ok(f) => f,
        Err(e) => return Err(e),
    };
    let changed = match &stored {
        Some(f) => !(*f == fingerprint),
        None => true,
    };
    Ok(IssuanceResult { cert_pem, chain_pem, fullchain_pem, fingerprint256: fingerprint, issued: true, changed })
}

/// Whole days from `now` to `end` (Unix seconds), rounded towards zero.
pub open spec fn days_until(end: int, now: int) -> int {
    if end - now >= 0 {
        (end - now) / 86400
    } else {
        -((now - end) / 86400)
    }
}

/// A certificate of the store with what a node needs to install it.
pub struct CertMaterial {
    pub cert_pem: String,
    pub chain_pem: Option<String>,
    pub fullchain_pem: Option<String>,
    pub key_pem: Option<String>,
    pub fingerprint256: String,
    pub expires_in_days: i64,
    pub ca: Option<String>,
}

/// The material of a stored certificate, given its files' texts (the
/// certificate's is required) and the time: the certificate must be the first
/// PEM section and read as a certificate; its fingerprint is the store's, and
/// the days left run to the end of its validity.
pub fn cert_material(
    cert_pem: String,
    chain_pem: Option<String>,
    fullchain_pem: Option<String>,
    key_pem: Option<String>,
    now: i64,
) -> (r: Option<CertMaterial>)
    requires
        -4611686018427387904 <= now <= 4611686018427387904,
    ensures
        match pem_first_section(cert_pem@) {
            Some(Some(PemSectionView::Certificate(der))) => match cert_not_after(der) {
                Some(end) => r matches Some(m) && m.cert_pem == cert_pem && m.chain_pem == chain_pem && m.fullchain_pem
                    == fullchain_pem && m.key_pem == key_pem && m.fingerprint256@ == unicode_upper(spec_hex_encode(sha256(der)))
                    && m.expires_in_days == days_until(end, now as int) && m.ca is None,
                None => r is None,
            },
            _ => r is None,
        },
{
    let der = match pop_pem_to_der(cert_pem.as_str()) {
        Some(d) => d,
        None => return None,
    };
    let fingerprint256 = store_fingerprint(der.as_slice());
    let end = match parse_cert_not_after(der.as_slice()) {
        Some(t) => t,
        None => return None,
    };
    let d: i128 = end as i128 - now as i128;
    let days: i128 = if d >= 0 {
        ((d as u128) / 86400) as i128
    } else {
        -((((-d) as u128) / 86400) as i128)
    };
    Some(CertMaterial { cert_pem, chain_pem, fullchain_pem, key_pem, fingerprint256, expires_in_days: days as i64, ca: None })
}

proof fn lemma_decimal_digits(n: nat)
    ensures
        spec_decimal(n).len() >= 1,
        all_digits(spec_decimal(n)),
        digits_value(spec_decimal(n)) == n,
    decreases n,
{
    let d = spec_decimal(n);
    assert(digits_value(d) == digits_value(d.drop_last()) * 10 + digit_val(d.last()));
    if n < 10 {
        assert(d.drop_last() =~= Seq::<char>::empty());
        assert(digits_value(Seq::<char>::empty()) == 0);
        assert(digit_val(d.last()) == n);
    } else {
        lemma_decimal_digits(n / 10);
        let r = spec_decimal(n / 10);
        assert(d.drop_last() =~= r);
        assert(digit_val(d.last()) == n % 10);
        assert(n == (n / 10) * 10 + n % 10) by (nonlinear_arith);
        assert forall|i: int| 0 <= i < d.len() implies is_digit(#[trigger] d[i]) by {
            if i < r.len() {
                assert(d[i] == r[i]);
            }
        }
    }
}

proof fn lemma_zeros_value(k: nat)
    ensures
        all_digits(zeros(k)),
        digits_value(zeros(k)) == 0,
    decreases k,
{
    if k > 0 {
        lemma_zeros_value((k - 1) as nat);
        assert(zeros(k).drop_last() =~= zeros((k - 1) as nat));
    }
}

proof fn lemma_leading_zeros(k: nat, d: Seq<char>)
    requires
        all_digits(d),
    ensures
        all_digits(zeros(k) + d),
        digits_value(zeros(k) + d) == digits_value(d),
    decreases d.len(),
{
    lemma_zeros_value(k);
    let s = zeros(k) + d;
    if d.len() == 0 {
        assert(s =~= zeros(k));
    } else {
        lemma_leading_zeros(k, d.drop_last());
        assert(s.drop_last() =~= zeros(k) + d.drop_last());
        assert(s.last() == d.last());
        assert forall|i: int| 0 <= i < s.len() implies is_digit(#[trigger] s[i]) by {
            if i >= k {
                assert(s[i] == d[i - k]);
            }
        }
    }
}

/// Archived certificate files read back as the number they were written
/// under: the name of file `cert` number `n` has number `n`.
pub proof fn law_archive_name_reads_back(n: nat)
    requires
        n <= 4294967295,
    ensures
        archive_number(archive_text("cert"@, n)) == Some(n),
{
    reveal_strlit("cert-");
    reveal_strlit("cert");
    reveal_strlit("-");
    reveal_strlit(".pem");
    lemma_decimal_digits(n);
    let d = spec_decimal(n);
    let pd = padded4(d);
    if d.len() < 4 {
        lemma_leading_zeros((4 - d.len()) as nat, d);
    }
    assert(all_digits(pd) && digits_value(pd) == n && pd.len() >= 1);
    let name = archive_text("cert"@, n);
    assert(name.subrange(0, 5) =~= "cert-"@);
    let rest = name.subrange(5, name.len() as int);
    assert(rest =~= pd + ".pem"@);
    assert(rest.subrange(rest.len() - 4, rest.len() as int) =~= ".pem"@);
    assert(name.subrange(5, name.len() - 4) =~= pd);
    assert(is_digit(pd[0]));
}

/// Each issuance archives under the next number: once the certificate file
/// of the number `next_ordinal` gives is in the archive, the next number is
/// one higher.
pub proof fn law_ordinal_advances(names: Seq<Seq<char>>)
    requires
        max_number(names) != Some(4294967295nat),
    ensures
        spec_next_ordinal(names.push(archive_text("cert"@, spec_next_ordinal(names)))) == spec_next_ordinal(names) + 1,
{
    let n = spec_next_ordinal(names);
    if let Some(m) = max_number(names) {
        lemma_max_bounded(names);
        assert(m < 4294967295);
    }
    law_archive_name_reads_back(n);
    let grown = names.push(archive_text("cert"@, n));
    assert(grown.drop_last() =~= names);
}

proof fn lemma_max_bounded(names: Seq<Seq<char>>)
    ensures
        max_number(names) matches Some(m) ==> m <= 4294967295,
    decreases names.len(),
{
    if names.len() > 0 {
        lemma_max_bounded(names.drop_last());
    }
}

} // verus!
