//! Issuing certificates: what is read from a CSR, the TBSCertificate built
//! from it and the CA, its signature, and the PEM and summary handed back.
use crate::codec::{base64_std, base64_std_encode, hex_encode, pem_contents, pem_decode, sha256, sha256_digest, spec_hex_encode};
use crate::der::{
    build_basic_constraints_ext, build_key_usage_ext, build_san_extension, der_bit_string_der_sig,
    der_context_constructed, der_integer_bytes, der_integer_hex, der_sequence, der_tlv,
    extract_spki_der, extract_subject_der, hex_integer_bytes, spec_basic_constraints_ext,
    spec_der_tlv, spec_extract_spki, spec_extract_subject, spec_integer_content,
    spec_key_usage_ext, spec_san_extension, strings_view, strip_0x, DerPathError,
};
use crate::policy::{dotted_quad, dotted_quad_text};
use crate::signing::{key_signature, loaded_key, load_signing_key, spec_sig_alg_identifier, CaSigningKey, KeyAlgorithm, SigningError};
use crate::text::{chars_of, joined, string_from_chars, to_lowercase, to_uppercase, trim, trim_str, unicode_lower, unicode_upper, views};
use crate::types::SignedCertificate;
use crate::x509::{
    cert_summary_of, csr_names_of, csr_subject_of, format_utc_time, name_views, opt_text,
    parse_cert_summary, parse_csr_names, parse_csr_subject, subject_values, utc_time_text,
    CertSummaryView, CsrName, CsrNameView,
};
use vstd::prelude::*;

verus! {

/// What certificate issuance reads from a CSR.
pub struct CsrFields {
    pub subject_der: Vec<u8>,
    pub spki_der: Vec<u8>,
    pub san_names: Vec<String>,
    pub cn: Option<String>,
}

/// Why a certificate could not be issued.
#[derive(Debug, Clone, Copy, PartialEq, Eq, Structural)]
pub enum CertError {
    CsrPem,
    CsrParse,
    CsrSpki(DerPathError),
    Key(SigningError),
    CaCertPem,
    CaSubject(DerPathError),
    TimeRange,
    Signing,
    IssuedParse,
}

/// The text an issuance failure is reported with: the step that failed.
pub open spec fn cert_error_message(e: CertError) -> Seq<char> {
    match e {
        CertError::CsrPem => "Parsing CSR PEM"@,
        CertError::CsrParse => "Extracting CSR fields"@,
        CertError::CsrSpki(_) => "Extracting CSR fields"@,
        CertError::Key(_) => "Loading CA signing key"@,
        CertError::CaCertPem => "Parsing CA cert PEM"@,
        CertError::CaSubject(d) => ca_walk_message(d),
        CertError::TimeRange => "Validity period out of range"@,
        CertError::Signing => "Signing TBS certificate"@,
        CertError::IssuedParse => "Parsing issued cert"@,
    }
}

/// The step of the walk through the CA certificate that failed.
pub open spec fn ca_walk_message(d: DerPathError) -> Seq<char> {
    match d {
        DerPathError::OuterSequence => "Cert: outer SEQUENCE parse failed"@,
        DerPathError::InnerSequence => "Cert: TBS SEQUENCE parse failed"@,
        DerPathError::SkipVersion => "Cert: skip version failed"@,
        DerPathError::SkipSerial => "Cert: skip serial failed"@,
        DerPathError::SkipAlgorithm => "Cert: skip algorithm failed"@,
        DerPathError::SkipIssuer => "Cert: skip issuer failed"@,
        DerPathError::SkipValidity => "Cert: skip validity failed"@,
        _ => "Cert: subject TLV parse failed"@,
    }
}

impl CertError {
    /// The text an issuance failure is reported with.
    pub fn message(&self) -> (s: String)
        ensures
            s@ == cert_error_message(*self),
    {
        match self {
            CertError::CsrPem => String::from_str("Parsing CSR PEM"),
            CertError::CsrParse => String::from_str("Extracting CSR fields"),
            CertError::CsrSpki(_) => String::from_str("Extracting CSR fields"),
            CertError::Key(_) => String::from_str("Loading CA signing key"),
            CertError::CaCertPem => String::from_str("Parsing CA cert PEM"),
            CertError::CaSubject(d) => match d {
                DerPathError::OuterSequence => String::from_str("Cert: outer SEQUENCE parse failed"),
                DerPathError::InnerSequence => String::from_str("Cert: TBS SEQUENCE parse failed"),
                DerPathError::SkipVersion => String::from_str("Cert: skip version failed"),
                DerPathError::SkipSerial => String::from_str("Cert: skip serial failed"),
                DerPathError::SkipAlgorithm => String::from_str("Cert: skip algorithm failed"),
                DerPathError::SkipIssuer => String::from_str("Cert: skip issuer failed"),
                DerPathError::SkipValidity => String::from_str("Cert: skip validity failed"),
                _ => String::from_str("Cert: subject TLV parse failed"),
            },
            CertError::TimeRange => String::from_str("Validity period out of range"),
            CertError::Signing => String::from_str("Signing TBS certificate"),
            CertError::IssuedParse => String::from_str("Parsing issued cert"),
        }
    }
}

/// The first attribute value of a subject that is a string.
pub open spec fn first_text(values: Seq<Option<Seq<char>>>) -> Option<Seq<char>>
    decreases values.len(),
{
    if values.len() == 0 {
        None
    } else if values[0] is Some {
        values[0]
    } else {
        first_text(values.drop_first())
    }
}

/// The SAN texts issuance copies from a CSR: DNS names and URIs trimmed, IPv4
/// addresses as dotted quads; other entries are dropped.
pub open spec fn csr_san_texts(names: Seq<CsrNameView>) -> Seq<Seq<char>>
    decreases names.len(),
{
    if names.len() == 0 {
        Seq::empty()
    } else {
        let r = csr_san_texts(names.drop_last());
        match names.last() {
            CsrNameView::Dns(s) => r.push(trim(s)),
            CsrNameView::Uri(s) => r.push(trim(s)),
            CsrNameView::Ip(b) => if b.len() == 4 {
                r.push(dotted_quad(b))
            } else {
                r
            },
            CsrNameView::Other => r,
        }
    }
}

/// What `extract_csr_fields` yields for CSR bytes.
pub open spec fn spec_csr_fields(der: Seq<u8>) -> Result<(Seq<u8>, Seq<u8>, Seq<Seq<char>>, Option<Seq<char>>), CertError> {
    match (csr_subject_of(der), csr_names_of(der)) {
        (Some(subject), Some(names)) => match spec_extract_spki(der) {
            Ok(spki) => Ok((subject.0, spki, csr_san_texts(names), first_text(subject.1))),
            Err(e) => Err(CertError::CsrSpki(e)),
        },
        _ => Err(CertError::CsrParse),
    }
}

pub open spec fn fields_view(f: CsrFields) -> (Seq<u8>, Seq<u8>, Seq<Seq<char>>, Option<Seq<char>>) {
    (f.subject_der@, f.spki_der@, views(f.san_names@), opt_text(f.cn))
}

fn first_subject_text(values: &[Option<String>]) -> (r: Option<String>)
    ensures
        opt_text(r) == first_text(values@.map_values(|o: Option<String>| opt_text(o))),
{
    let ghost vs = values@.map_values(|o: Option<String>| opt_text(o));
    let mut i: usize = 0;
    assert(vs.subrange(0, vs.len() as int) =~= vs);
    while i < values.len()
        invariant
            i <= values@.len(),
            vs == values@.map_values(|o: Option<String>| opt_text(o)),
            first_text(vs) == first_text(vs.subrange(i as int, vs.len() as int)),
        decreases values@.len() - i,
    {
        let ghost rest = vs.subrange(i as int, vs.len() as int);
        assert(rest[0] == opt_text(values@[i as int]));
        assert(rest.drop_first() =~= vs.subrange(i + 1, vs.len() as int));
        match &values[i] {
            Some(s) => {
                return Some(s.clone());
            },
            None => {},
        }
        i = i + 1;
    }
    None
}

fn csr_san_list(names: &[CsrName]) -> (v: Vec<String>)
    ensures
        views(v@) == csr_san_texts(name_views(names@)),
{
    let ghost ns = name_views(names@);
    let mut v: Vec<String> = Vec::new();
    let mut i: usize = 0;
    assert(views(v@) =~= csr_san_texts(ns.subrange(0, 0)));
    while i < names.len()
        invariant
            i <= names@.len(),
            ns == name_views(names@),
            views(v@) == csr_san_texts(ns.subrange(0, i as int)),
        decreases names@.len() - i,
    {
        assert(ns.subrange(0, i + 1).drop_last() =~= ns.subrange(0, i as int));
        assert(ns.subrange(0, i + 1).last() == names@[i as int]@);
        let ghost before = v@;
        match &names[i] {
            CsrName::Dns(s) => {
                v.push(trim_str(s.as_str()));
            },
            CsrName::Uri(s) => {
                v.push(trim_str(s.as_str()));
            },
            CsrName::Ip(b) => {
                if b.len() == 4 {
                    v.push(dotted_quad_text(b.as_slice()));
                }
            },
            CsrName::Other => {},
        }
        assert(views(v@) =~= csr_san_texts(ns.subrange(0, i + 1)));
        i = i + 1;
    }
    assert(ns.subrange(0, names@.len() as int) =~= ns);
    v
}

/// Reads subject, public key, requested SANs and first subject text from CSR bytes.
pub fn extract_csr_fields(csr_der: &[u8]) -> (res: Result<CsrFields, CertError>)
    ensures
        match res {
            Ok(f) => spec_csr_fields(csr_der@) == Ok::<_, CertError>(fields_view(f)),
            Err(e) => spec_csr_fields(csr_der@) == Err::<(Seq<u8>, Seq<u8>, Seq<Seq<char>>, Option<Seq<char>>), _>(e),
        },
{
    let subject = match parse_csr_subject(csr_der) {
        Some(s) => s,
        None => return Err(CertError::CsrParse),
    };
    let names = match parse_csr_names(csr_der) {
        Some(n) => n,
        None => return Err(CertError::CsrParse),
    };
    let spki_der = match extract_spki_der(csr_der) {
        Ok(s) => s,
        Err(e) => return Err(CertError::CsrSpki(e)),
    };
    let cn = first_subject_text(subject.values.as_slice());
    let san_names = csr_san_list(names.as_slice());
    assert(subject.values@.map_values(|o: Option<String>| opt_text(o)) =~= subject_values(subject));
    Ok(CsrFields { subject_der: subject.subject_der, spki_der, san_names, cn })
}

/// `list` with `t` appended, unless `t` is empty or already there.
pub open spec fn add_san(list: Seq<Seq<char>>, t: Seq<char>) -> Seq<Seq<char>> {
    if t.len() > 0 && !list.contains(t) {
        list.push(t)
    } else {
        list
    }
}

pub open spec fn add_sans(list: Seq<Seq<char>>, extras: Seq<Seq<char>>) -> Seq<Seq<char>>
    decreases extras.len(),
{
    if extras.len() == 0 {
        list
    } else {
        add_san(add_sans(list, extras.drop_last()), trim(extras.last()))
    }
}

/// The SANs an issued certificate carries: the CSR's, then its trimmed common
/// name, then each trimmed extra SAN, skipping empty texts and repeats of the
/// ones added.
pub open spec fn san_list(csr_sans: Seq<Seq<char>>, cn: Option<Seq<char>>, extras: Option<Seq<Seq<char>>>) -> Seq<Seq<char>> {
    let with_cn = match cn {
        Some(c) => add_san(csr_sans, trim(c)),
        None => csr_sans,
    };
    match extras {
        Some(e) => add_sans(with_cn, e),
        None => with_cn,
    }
}

pub open spec fn opt_views(o: Option<&[String]>) -> Option<Seq<Seq<char>>> {
    match o {
        Some(v) => Some(views(v@)),
        None => None,
    }
}

fn list_contains(list: &Vec<String>, t: &String) -> (b: bool)
    ensures
        b == views(list@).contains(t@),
{
    let mut i: usize = 0;
    while i < list.len()
        invariant
            i <= list@.len(),
            forall|k: int| 0 <= k < i ==> (#[trigger] list@[k])@ != t@,
        decreases list@.len() - i,
    {
        if list[i] == *t {
            assert(views(list@)[i as int] == t@);
            return true;
        }
        i = i + 1;
    }
    assert forall|k: int| 0 <= k < views(list@).len() implies views(list@)[k] != t@ by {
        assert(views(list@)[k] == list@[k]@);
    }
    false
}

fn push_san(list: &mut Vec<String>, raw: &String)
    ensures
        views(final(list)@) == add_san(views(old(list)@), trim(raw@)),
{
    let t = trim_str(raw.as_str());
    if t.as_str().unicode_len() > 0 && !list_contains(list, &t) {
        let ghost before = list@;
        list.push(t);
        assert(views(list@) =~= views(before).push(trim(raw@)));
    }
}

/// The SAN list of an issued certificate (see `san_list`).
pub fn build_san_list(csr_sans: &Vec<String>, cn: &Option<String>, extra_sans: Option<&[String]>) -> (v: Vec<String>)
    ensures
        views(v@) == san_list(views(csr_sans@), opt_text(*cn), opt_views(extra_sans)),
{
    let mut list: Vec<String> = Vec::new();
    let mut i: usize = 0;
    while i < csr_sans.len()
        invariant
            i <= csr_sans@.len(),
            views(list@) == views(csr_sans@).subrange(0, i as int),
        decreases csr_sans@.len() - i,
    {
        let ghost before = list@;
        list.push(csr_sans[i].clone());
        assert(list@ =~= before.push(csr_sans@[i as int]));
        assert(views(list@) =~= views(before).push(csr_sans@[i as int]@));
        assert(views(list@) =~= views(csr_sans@).subrange(0, i + 1));
        i = i + 1;
    }
    assert(views(csr_sans@).subrange(0, csr_sans@.len() as int) =~= views(csr_sans@));
    match cn {
        Some(c) => push_san(&mut list, c),
        None => {},
    }
    let ghost with_cn = views(list@);
    match extra_sans {
        Some(extras) => {
            let ghost ev = views(extras@);
            let mut j: usize = 0;
            assert(ev.subrange(0, 0) =~= Seq::<Seq<char>>::empty());
            while j < extras.len()
                invariant
                    j <= extras@.len(),
                    ev == views(extras@),
                    views(list@) == add_sans(with_cn, ev.subrange(0, j as int)),
                decreases extras@.len() - j,
            {
                assert(ev.subrange(0, j + 1).drop_last() =~= ev.subrange(0, j as int));
                assert(ev.subrange(0, j + 1).last() == extras@[j as int]@);
                push_san(&mut list, &extras[j]);
                j = j + 1;
            }
            assert(ev.subrange(0, extras@.len() as int) =~= ev);
        },
        None => {},
    }
    list
}

/// Base64 text cut into lines of 64 characters (the last may be shorter).
pub open spec fn chunks64(s: Seq<char>) -> Seq<Seq<char>> {
    Seq::new(
        ((s.len() + 63) / 64) as nat,
        |k: int| s.subrange(64 * k, if 64 * k + 64 <= s.len() { 64 * k + 64 } else { s.len() as int }),
    )
}

/// PEM armor around DER: standard Base64 in lines of 64 characters.
pub open spec fn pem_armor(label: Seq<char>, der: Seq<u8>) -> Seq<char> {
    "-----BEGIN "@ + label + "-----\n"@ + joined(chunks64(base64_std(der)), "\n"@) + "\n-----END "@
        + label + "-----\n"@
}

/// Wraps DER in PEM armor with the given label.
pub fn pem_armor_text(label: &str, der: &[u8]) -> (res: String)
    ensures
        res@ == pem_armor(label@, der@),
{
    let b64 = base64_std_encode(der);
    let chars = chars_of(b64.as_str());
    let n = chars.len();
    let ghost parts = chunks64(chars@);
    let mut body = String::new();
    let mut start: usize = 0;
    let ghost mut k: int = 0;
    assert(parts.subrange(0, 0) =~= Seq::<Seq<char>>::empty());
    while start < n
        invariant
            n == chars@.len(),
            chars@ == base64_std(der@),
            parts == chunks64(chars@),
            k < parts.len() ==> start == 64 * k,
            k == parts.len() ==> start == n,
            0 <= k <= parts.len(),
            k == parts.len() <==> start >= n,
            start <= n,
            body@ == joined(parts.subrange(0, k), "\n"@),
        decreases n - start,
    {
        let end = if n - start >= 64 { start + 64 } else { n };
        let line = string_from_chars(&chars.as_slice()[start..end]);
        proof {
            assert(parts.subrange(0, k + 1).drop_last() =~= parts.subrange(0, k));
            assert(parts[k] =~= chars@.subrange(start as int, end as int));
            if k == 0 {
                assert(parts.subrange(0, 1)[0] == parts[0]);
            }
        }
        if start > 0 {
            body.append("\n");
        }
        body.append(line.as_str());
        start = end;
        proof {
            k = k + 1;
        }
    }
    assert(parts.subrange(0, parts.len() as int) =~= parts);
    let mut out = String::from_str("-----BEGIN ");
    out.append(label);
    out.append("-----\n");
    out.append(body.as_str());
    out.append("\n-----END ");
    out.append(label);
    out.append("-----\n");
    out
}

/// UTCTime DER of a time text.
pub open spec fn spec_utc_der(t: Seq<char>) -> Seq<u8> {
    spec_der_tlv(0x17, vstd::utf8::encode_utf8(t))
}

/// The TBSCertificate of an issued certificate: version 3, the serial, the
/// signature algorithm, issuer, validity, subject and key of the CSR, and the
/// extensions (basic constraints, key usage, and the SANs where there are any).
pub open spec fn spec_tbs_certificate(
    serial_hex: Seq<char>,
    alg: KeyAlgorithm,
    issuer: Seq<u8>,
    not_before: Seq<char>,
    not_after: Seq<char>,
    subject: Seq<u8>,
    spki: Seq<u8>,
    sans: Seq<Seq<char>>,
) -> Seq<u8> {
    let version = spec_der_tlv(0xa0, spec_der_tlv(0x02, seq![0x02u8]));
    let serial = spec_der_tlv(0x02, spec_integer_content(hex_integer_bytes(serial_hex)));
    let validity = spec_der_tlv(0x30, spec_utc_der(not_before) + spec_utc_der(not_after));
    let ext_list = spec_basic_constraints_ext() + spec_key_usage_ext() + spec_san_extension(sans);
    let extensions = spec_der_tlv(0xa3, spec_der_tlv(0x30, ext_list));
    spec_der_tlv(
        0x30,
        version + serial + spec_sig_alg_identifier(alg) + issuer + validity + subject + spki
            + extensions,
    )
}

/// A certificate: TBS, algorithm, and the signature as a BIT STRING.
pub open spec fn spec_certificate(tbs: Seq<u8>, alg: KeyAlgorithm, sig: Seq<u8>) -> Seq<u8> {
    spec_der_tlv(0x30, tbs + spec_sig_alg_identifier(alg) + spec_der_tlv(0x03, seq![0u8] + sig))
}

fn concat_into(out: &mut Vec<u8>, part: &Vec<u8>)
    ensures
        final(out)@ == old(out)@ + part@,
{
    let mut p = part.clone();
    out.append(&mut p);
}

/// Builds and signs the certificate for CSR fields and a SAN list.
pub fn build_certificate(
    fields: &CsrFields,
    sans: &Vec<String>,
    key: &CaSigningKey,
    issuer_der: &[u8],
    serial_hex: &str,
    not_before: &str,
    not_after: &str,
) -> (res: Result<Vec<u8>, CertError>)
    requires
        strip_0x(trim(serial_hex@)).len() > 0,
    ensures
        ({
            let tbs = spec_tbs_certificate(
                serial_hex@,
                key.algorithm,
                issuer_der@,
                not_before@,
                not_after@,
                fields.subject_der@,
                fields.spki_der@,
                views(sans@),
            );
            match res {
                Ok(der) => key_signature(key.algorithm, key.material@, tbs) is Some && der@
                    == spec_certificate(tbs, key.algorithm, key_signature(key.algorithm, key.material@, tbs)->0),
                Err(e) => key_signature(key.algorithm, key.material@, tbs) is None && e == CertError::Signing,
            }
        }),
{
    let bc = build_basic_constraints_ext();
    let ku = build_key_usage_ext();
    let san = build_san_extension(sans.as_slice());
    assert(strings_view(sans@) == views(sans@));
    let mut ext_list: Vec<u8> = Vec::new();
    concat_into(&mut ext_list, &bc);
    concat_into(&mut ext_list, &ku);
    concat_into(&mut ext_list, &san);
    let ext_seq = der_sequence(ext_list.as_slice());
    let extensions = der_context_constructed(3, ext_seq.as_slice());
    let two: Vec<u8> = vec![0x02];
    let int_two = der_integer_bytes(two.as_slice());
    let version = der_context_constructed(0, int_two.as_slice());
    proof {
        assert((0xa0u8 | 3u8) == 0xa3u8) by (bit_vector);
        assert((0xa0u8 | 0u8) == 0xa0u8) by (bit_vector);
        assert(two@ =~= seq![0x02u8]);
        assert(crate::der::strip_zeros(two@) =~= two@);
        assert(spec_integer_content(two@) =~= seq![0x02u8]);
    }
    let serial = der_integer_hex(serial_hex);
    let sig_alg = key.sig_alg_identifier_der();
    let nb = der_tlv(0x17, not_before.as_bytes());
    let na = der_tlv(0x17, not_after.as_bytes());
    let mut validity_content: Vec<u8> = Vec::new();
    concat_into(&mut validity_content, &nb);
    concat_into(&mut validity_content, &na);
    let validity = der_sequence(validity_content.as_slice());
    let mut tbs_content: Vec<u8> = Vec::new();
    concat_into(&mut tbs_content, &version);
    concat_into(&mut tbs_content, &serial);
    concat_into(&mut tbs_content, &sig_alg);
    tbs_content.extend_from_slice(issuer_der);
    concat_into(&mut tbs_content, &validity);
    concat_into(&mut tbs_content, &fields.subject_der);
    concat_into(&mut tbs_content, &fields.spki_der);
    concat_into(&mut tbs_content, &extensions);
    let tbs = der_sequence(tbs_content.as_slice());
    proof {
        let tbs_spec = spec_tbs_certificate(
            serial_hex@,
            key.algorithm,
            issuer_der@,
            not_before@,
            not_after@,
            fields.subject_der@,
            fields.spki_der@,
            views(sans@),
        );
        assert(tbs@ =~= tbs_spec);
    }
    let sig = match key.sign(tbs.as_slice()) {
        Ok(s) => s,
        Err(_) => return Err(CertError::Signing),
    };
    let sig_bits = der_bit_string_der_sig(sig.as_slice());
    let mut cert_content: Vec<u8> = Vec::new();
    concat_into(&mut cert_content, &tbs);
    concat_into(&mut cert_content, &sig_alg);
    concat_into(&mut cert_content, &sig_bits);
    Ok(der_sequence(cert_content.as_slice()))
}

/// What an issued certificate is reported as.
pub struct SignedCertificateView {
    pub id: Seq<char>,
    pub serial_number: Seq<char>,
    pub subject: Seq<char>,
    pub valid_from: Seq<char>,
    pub valid_to: Seq<char>,
    pub fingerprint256: Seq<char>,
    pub cert_pem: Seq<char>,
    pub chain_pem: Seq<char>,
    pub fullchain_pem: Seq<char>,
}

pub open spec fn signed_view(c: SignedCertificate) -> SignedCertificateView {
    SignedCertificateView {
        id: c.id@,
        serial_number: c.serial_number@,
        subject: c.subject@,
        valid_from: c.valid_from@,
        valid_to: c.valid_to@,
        fingerprint256: c.fingerprint256@,
        cert_pem: c.cert_pem@,
        chain_pem: c.chain_pem@,
        fullchain_pem: c.fullchain_pem@,
    }
}

/// The report on issued certificate DER, with the CA certificate as chain.
pub open spec fn spec_finish(cert_der: Seq<u8>, ca_cert_pem: Seq<char>) -> Result<SignedCertificateView, CertError> {
    match cert_summary_of(cert_der) {
        None => Err(CertError::IssuedParse),
        Some(s) => Ok(
            SignedCertificateView {
                id: unicode_lower(unicode_upper(s.serial_radix16)),
                serial_number: unicode_upper(s.serial_radix16),
                subject: s.subject,
                valid_from: s.not_before,
                valid_to: s.not_after,
                fingerprint256: "SHA256:"@ + spec_hex_encode(sha256(cert_der)),
                cert_pem: pem_armor("CERTIFICATE"@, cert_der),
                chain_pem: trim(ca_cert_pem) + "\n"@,
                fullchain_pem: pem_armor("CERTIFICATE"@, cert_der) + trim(ca_cert_pem) + "\n"@,
            },
        ),
    }
}

pub open spec fn signed_result(r: Result<SignedCertificate, CertError>) -> Result<SignedCertificateView, CertError> {
    match r {
        Ok(c) => Ok(signed_view(c)),
        Err(e) => Err(e),
    }
}

/// Reports on issued certificate DER: its PEM, serial, subject, validity,
/// SHA-256 fingerprint, and the chain (the trimmed CA certificate PEM).
pub fn finish_certificate(cert_der: &[u8], ca_cert_pem: &str) -> (res: Result<SignedCertificate, CertError>)
    ensures
        signed_result(res) == spec_finish(cert_der@, ca_cert_pem@),
{
    let cert_pem = pem_armor_text("CERTIFICATE", cert_der);
    let summary = match parse_cert_summary(cert_der) {
        Some(s) => s,
        None => return Err(CertError::IssuedParse),
    };
    let digest = sha256_digest(cert_der);
    let mut fingerprint = String::from_str("SHA256:");
    fingerprint.append(hex_encode(digest.as_slice()).as_str());
    let mut chain_pem = trim_str(ca_cert_pem);
    chain_pem.append("\n");
    let mut fullchain_pem = cert_pem.clone();
    fullchain_pem.append(chain_pem.as_str());
    let serial_number = to_uppercase(summary.serial_radix16.as_str());
    let id = to_lowercase(serial_number.as_str());
    assert(fullchain_pem@ =~= pem_armor("CERTIFICATE"@, cert_der@) + trim(ca_cert_pem@) + "\n"@);
    Ok(SignedCertificate {
        id,
        serial_number,
        subject: summary.subject,
        valid_from: summary.not_before,
        valid_to: summary.not_after,
        fingerprint256: fingerprint,
        cert_pem,
        chain_pem,
        fullchain_pem,
    })
}

/// What issuing a certificate for a CSR yields, given the serial and the
/// time of issue (Unix seconds): each step's error in the order the steps are
/// taken, else the report on the signed certificate, valid for `days` days.
pub open spec fn spec_sign_csr(
    csr_pem: Seq<char>,
    days: nat,
    extras: Option<Seq<Seq<char>>>,
    key_pem: Seq<char>,
    ca_cert_pem: Seq<char>,
    serial: Seq<char>,
    now: int,
) -> Result<SignedCertificateView, CertError> {
    match pem_contents(trim(csr_pem)) {
        None => Err(CertError::CsrPem),
        Some(csr_der) => match spec_csr_fields(csr_der) {
            Err(e) => Err(e),
            Ok(f) => match loaded_key(key_pem) {
                None => Err(CertError::Key(SigningError::UnsupportedKey)),
                Some(key) => match pem_contents(trim(ca_cert_pem)) {
                    None => Err(CertError::CaCertPem),
                    Some(ca_der) => match spec_extract_subject(ca_der) {
                        Err(e) => Err(CertError::CaSubject(e)),
                        Ok(issuer) => {
                            let end = now + days * 86400;
                            if end > i64::MAX {
                                Err(CertError::TimeRange)
                            } else {
                                match (utc_time_text(now), utc_time_text(end)) {
                                    (Some(nb), Some(na)) => {
                                        let sans = san_list(f.2, f.3, extras);
                                        let tbs = spec_tbs_certificate(serial, key.0, issuer, nb, na, f.0, f.1, sans);
                                        match key_signature(key.0, key.1, tbs) {
                                            None => Err(CertError::Signing),
                                            Some(sig) => spec_finish(spec_certificate(tbs, key.0, sig), ca_cert_pem),
                                        }
                                    },
                                    _ => Err(CertError::TimeRange),
                                }
                            }
                        },
                    },
                },
            },
        },
    }
}

/// An issued certificate's full chain is its own PEM followed by the chain,
/// and the chain is the CA certificate PEM (trimmed, with a closing newline).
pub proof fn law_fullchain_is_leaf_then_ca(cert_der: Seq<u8>, ca_cert_pem: Seq<char>)
    ensures
        spec_finish(cert_der, ca_cert_pem) matches Ok(v) ==> {
            &&& v.cert_pem == pem_armor("CERTIFICATE"@, cert_der)
            &&& v.chain_pem == trim(ca_cert_pem) + "\n"@
            &&& v.fullchain_pem == v.cert_pem + v.chain_pem
        },
{
    assert(pem_armor("CERTIFICATE"@, cert_der) + trim(ca_cert_pem) + "\n"@
        =~= pem_armor("CERTIFICATE"@, cert_der) + (trim(ca_cert_pem) + "\n"@));
}

/// Whatever serial and time of issue a CSR is signed with, the issued
/// certificate's full chain is its PEM followed by the CA certificate PEM
/// (trimmed, with a closing newline).
#[verifier::rlimit(50)]
pub proof fn law_issued_fullchain_is_leaf_then_ca(
    csr_pem: Seq<char>,
    days: nat,
    extras: Option<Seq<Seq<char>>>,
    key_pem: Seq<char>,
    ca_cert_pem: Seq<char>,
    serial: Seq<char>,
    now: int,
)
    ensures
        spec_sign_csr(csr_pem, days, extras, key_pem, ca_cert_pem, serial, now) matches Ok(v) ==> {
            &&& v.chain_pem == trim(ca_cert_pem) + "\n"@
            &&& v.fullchain_pem == v.cert_pem + v.chain_pem
        },
{
    match pem_contents(trim(csr_pem)) {
        None => {},
        Some(csr_der) => match spec_csr_fields(csr_der) {
            Err(_) => {},
            Ok(f) => match loaded_key(key_pem) {
                None => {},
                Some(key) => match pem_contents(trim(ca_cert_pem)) {
                    None => {},
                    Some(ca_der) => match spec_extract_subject(ca_der) {
                        Err(_) => {},
                        Ok(issuer) => {
                            let end = now + days * 86400;
                            if end <= i64::MAX {
                                match (utc_time_text(now), utc_time_text(end)) {
                                    (Some(nb), Some(na)) => {
                                        let tbs = spec_tbs_certificate(
                                            serial, key.0, issuer, nb, na, f.0, f.1, san_list(f.2, f.3, extras));
                                        match key_signature(key.0, key.1, tbs) {
                                            None => {},
                                            Some(sig) => {
                                                law_fullchain_is_leaf_then_ca(
                                                    spec_certificate(tbs, key.0, sig), ca_cert_pem);
                                            },
                                        }
                                    },
                                    _ => {},
                                }
                            }
                        },
                    },
                },
            },
        },
    }
}

/// The serials issuance may use: the one the caller gives, else the hex text
/// of sixteen random bytes.
pub open spec fn serial_choice(given: Option<String>, serial: Seq<char>) -> bool {
    match given {
        Some(h) => serial == h@,
        None => exists|b: Seq<u8>| b.len() == 16 && serial == spec_hex_encode(b),
    }
}

proof fn some_serial(given: Option<String>) -> (s: Seq<char>)
    ensures
        serial_choice(given, s),
{
    match given {
        Some(h) => h@,
        None => {
            let b = Seq::new(16, |i: int| 0u8);
            assert(b.len() == 16 && spec_hex_encode(b) == spec_hex_encode(b));
            spec_hex_encode(b)
        },
    }
}

proof fn lemma_hex_serial_usable(b: Seq<u8>)
    requires
        b.len() > 0,
    ensures
        strip_0x(trim(spec_hex_encode(b))).len() > 0,
{
    let h = spec_hex_encode(b);
    let d0 = (b[0] / 16) as nat;
    let d1 = (b[0] % 16) as nat;
    let dl = (b[b.len() - 1] % 16) as nat;
    assert(h[0] == crate::codec::hex_char(d0));
    assert(h[1] == crate::codec::hex_char(d1));
    assert(h[h.len() - 1] == crate::codec::hex_char(dl));
    lemma_hex_char_plain(d0);
    lemma_hex_char_plain(d1);
    lemma_hex_char_plain(dl);
    assert(crate::text::trim_start(h) == h);
    assert(crate::text::trim_end(h) == h);
    assert(strip_0x(h) == h);
}

proof fn lemma_hex_char_plain(n: nat)
    requires
        n < 16,
    ensures
        !crate::text::is_ws(crate::codec::hex_char(n)),
        crate::codec::hex_char(n) != 'x',
{
    let c = crate::codec::hex_char(n);
    if n < 10 {
        vstd::utf8::char_u32_cast(c, (n + 48) as u32);
    } else {
        vstd::utf8::char_u32_cast(c, (n - 10 + 97) as u32);
    }
}

/// `rand::random::<u8>()`, sixteen times. Nothing is stated of the bytes but
/// their number.
#[verifier::external_body]
fn random_serial_bytes() -> (b: Vec<u8>)
    ensures
        b@.len() == 16,
{
    (0..16).map(|_| rand::random::<u8>()).collect()
}

/// Issues a certificate for a CSR in PEM, valid for `days` days from now,
/// signed by the CA key (`key_pem`) under the CA certificate (`ca_cert_pem`).
/// The serial is `db_serial` where given, else sixteen random bytes in hex.
/// The result is `spec_sign_csr` for that serial and the time of issue.
pub fn sign_csr(
    csr_pem: &str,
    days: u32,
    extra_sans: Option<&[String]>,
    key_pem: &str,
    ca_cert_pem: &str,
    db_serial: Option<String>,
) -> (res: Result<SignedCertificate, CertError>)
    requires
        db_serial matches Some(h) ==> strip_0x(trim(h@)).len() > 0,
    ensures
        exists|serial: Seq<char>, now: int|
            #![trigger spec_sign_csr(csr_pem@, days as nat, opt_views(extra_sans), key_pem@, ca_cert_pem@, serial, now)]
            serial_choice(db_serial, serial) && signed_result(res) == spec_sign_csr(
                csr_pem@,
                days as nat,
                opt_views(extra_sans),
                key_pem@,
                ca_cert_pem@,
                serial,
                now,
            ),
{
    let ghost w = some_serial(db_serial);
    let trimmed = trim_str(csr_pem);
    let csr_der = match pem_decode(trimmed.as_str()) {
        Some(d) => d,
        None => {
            assert(signed_result(Err(CertError::CsrPem)) == spec_sign_csr(csr_pem@, days as nat, opt_views(extra_sans), key_pem@, ca_cert_pem@, w, 0));
            return Err(CertError::CsrPem);
        },
    };
    let fields = match extract_csr_fields(csr_der.as_slice()) {
        Ok(f) => f,
        Err(e) => {
            assert(signed_result(Err(e)) == spec_sign_csr(csr_pem@, days as nat, opt_views(extra_sans), key_pem@, ca_cert_pem@, w, 0));
            return Err(e);
        },
    };
    let key = match load_signing_key(key_pem) {
        Ok(k) => k,
        Err(e) => {
            assert(signed_result(Err(CertError::Key(e))) == spec_sign_csr(csr_pem@, days as nat, opt_views(extra_sans), key_pem@, ca_cert_pem@, w, 0));
            return Err(CertError::Key(e));
        },
    };
    let ca_trimmed = trim_str(ca_cert_pem);
    let ca_der = match pem_decode(ca_trimmed.as_str()) {
        Some(d) => d,
        None => {
            assert(signed_result(Err(CertError::CaCertPem)) == spec_sign_csr(csr_pem@, days as nat, opt_views(extra_sans), key_pem@, ca_cert_pem@, w, 0));
            return Err(CertError::CaCertPem);
        },
    };
    let issuer = match extract_subject_der(ca_der.as_slice()) {
        Ok(i) => i,
        Err(e) => {
            assert(signed_result(Err(CertError::CaSubject(e))) == spec_sign_csr(csr_pem@, days as nat, opt_views(extra_sans), key_pem@, ca_cert_pem@, w, 0));
            return Err(CertError::CaSubject(e));
        },
    };
    let serial_hex = match db_serial {
        Some(h) => h,
        None => {
            let bytes = random_serial_bytes();
            proof {
                lemma_hex_serial_usable(bytes@);
            }
            hex_encode(bytes.as_slice())
        },
    };
    let ghost serial = serial_hex@;
    assert(serial_choice(db_serial, serial));
    let sans = build_san_list(&fields.san_names, &fields.cn, extra_sans);
    let now = crate::clock::now_unix();
    let span: i64 = days as i64 * 86400;
    let end = match now.checked_add(span) {
        Some(e) => e,
        None => {
            assert(signed_result(Err(CertError::TimeRange)) == spec_sign_csr(csr_pem@, days as nat, opt_views(extra_sans), key_pem@, ca_cert_pem@, serial, now as int));
            return Err(CertError::TimeRange);
        },
    };
    let (not_before, not_after) = match (format_utc_time(now), format_utc_time(end)) {
        (Some(a), Some(b)) => (a, b),
        _ => {
            assert(signed_result(Err(CertError::TimeRange)) == spec_sign_csr(csr_pem@, days as nat, opt_views(extra_sans), key_pem@, ca_cert_pem@, serial, now as int));
            return Err(CertError::TimeRange);
        },
    };
    let cert_der = match build_certificate(&fields, &sans, &key, issuer.as_slice(), serial_hex.as_str(), not_before.as_str(), not_after.as_str()) {
        Ok(d) => d,
        Err(e) => {
            assert(signed_result(Err(e)) == spec_sign_csr(csr_pem@, days as nat, opt_views(extra_sans), key_pem@, ca_cert_pem@, serial, now as int));
            return Err(e);
        },
    };
    let res = finish_certificate(cert_der.as_slice(), ca_cert_pem);
    assert(signed_result(res) == spec_sign_csr(csr_pem@, days as nat, opt_views(extra_sans), key_pem@, ca_cert_pem@, serial, now as int));
    res
}

} // verus!
