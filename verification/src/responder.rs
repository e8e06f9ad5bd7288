//! Signed OCSP responses and signed CRLs (RFC 6960, RFC 5280), built from the
//! certificate records, the CA key and the CA certificate.
use crate::cert::{pem_armor, pem_armor_text};
use crate::codec::{pem_contents, pem_decode};
use crate::der::{
    der_context_constructed, der_integer_hex, der_octet_string, der_sequence, hex_integer_bytes,
    spec_der_tlv, spec_integer_content, strip_0x,
};
use crate::ocsp::{
    der_bit_string_raw, der_enumerated, ocsp_request_readable, parse_ocsp_request,
    spec_bit_string_raw, spec_parse_ocsp_request, OcspError,
};
use crate::signing::{key_signature, load_signing_key, loaded_key, spec_sig_alg_identifier, CaSigningKey, KeyAlgorithm, SigningError};
use crate::storage::{find_certificate_by_serial, first_with_serial};
use crate::text::{trim, trim_str};
use crate::types::{CertificateRecord, CertificatesDb};
use crate::x509::{cert_subject_of, format_generalized_time, generalized_time_text, now_generalized_time, parse_cert_subject};
use vstd::prelude::*;

verus! {

/// Why an OCSP response or a CRL could not be built.
#[derive(Debug, Clone, Copy, PartialEq, Eq, Structural)]
pub enum ResponderError {
    Request(OcspError),
    Key(SigningError),
    CaCertPem,
    CaCert,
    Signing,
}

/// GeneralizedTime DER as the responder writes it: tag, the text's byte
/// length in one octet, the text.
pub open spec fn spec_gen_time(t: Seq<char>) -> Seq<u8> {
    let b = vstd::utf8::encode_utf8(t);
    seq![0x18u8, (b.len() % 256) as u8] + b
}

fn gen_time_der(t: &String) -> (out: Vec<u8>)
    ensures
        out@ == spec_gen_time(t@),
{
    let bytes = t.as_str().as_bytes();
    let n = bytes.len();
    let mut out: Vec<u8> = vec![0x18u8, (n % 256) as u8];
    out.extend_from_slice(bytes);
    assert(out@ =~= spec_gen_time(t@));
    out
}

/// GeneralizedTime DER of an RFC 3339 time; the current time where the text
/// does not parse.
pub fn der_generalized_time(iso: &str) -> (out: Vec<u8>)
    ensures
        generalized_time_text(iso@) matches Some(t) ==> out@ == spec_gen_time(t),
        exists|t: Seq<char>| out@ == spec_gen_time(t),
{
    let t = match format_generalized_time(iso) {
        Some(t) => t,
        None => now_generalized_time(),
    };
    gen_time_der(&t)
}

/// The GeneralizedTime text of an RFC 3339 time, or `fallback` where it does not parse.
pub open spec fn gen_text_or(iso: Seq<char>, fallback: Seq<char>) -> Seq<char> {
    match generalized_time_text(iso) {
        Some(t) => t,
        None => fallback,
    }
}

fn gen_text_or_exec(iso: &str, fallback: &String) -> (t: String)
    ensures
        t@ == gen_text_or(iso@, fallback@),
{
    match format_generalized_time(iso) {
        Some(t) => t,
        None => fallback.clone(),
    }
}

/// The certStatus of a SingleResponse: good, revoked at a time, or unknown.
pub open spec fn spec_cert_status(status: Seq<char>, revoked_time: Seq<char>) -> Seq<u8> {
    if status == "good"@ {
        seq![0x80u8, 0x00]
    } else if status == "revoked"@ {
        spec_der_tlv(0xa1, spec_der_tlv(0x30, spec_gen_time(revoked_time)))
    } else {
        seq![0x82u8, 0x00]
    }
}

/// ResponseData: responder by name (the CA subject), producedAt, and one
/// SingleResponse (CertID, status, thisUpdate, nextUpdate).
pub open spec fn spec_response_data(
    cert_id: Seq<u8>,
    status: Seq<char>,
    revoked_time: Seq<char>,
    this_update: Seq<char>,
    next_update: Seq<char>,
    issuer_subject: Seq<u8>,
) -> Seq<u8> {
    let single = spec_der_tlv(
        0x30,
        cert_id + spec_cert_status(status, revoked_time) + spec_gen_time(this_update) + spec_der_tlv(
            0xa0,
            spec_gen_time(next_update),
        ),
    );
    spec_der_tlv(
        0x30,
        spec_der_tlv(0xa1, issuer_subject) + spec_gen_time(this_update) + spec_der_tlv(0x30, single),
    )
}

/// The OID id-pkix-ocsp-basic (1.3.6.1.5.5.7.48.1.1), as a TLV.
pub open spec fn oid_ocsp_basic() -> Seq<u8> {
    seq![0x06u8, 0x09, 0x2b, 0x06, 0x01, 0x05, 0x05, 0x07, 0x30, 0x01, 0x01]
}

/// A successful OCSPResponse around a BasicOCSPResponse: the signed data, the
/// algorithm, the signature, and the CA certificate.
pub open spec fn spec_ocsp_response(data: Seq<u8>, alg: KeyAlgorithm, sig: Seq<u8>, ca_der: Seq<u8>) -> Seq<u8> {
    let basic = spec_der_tlv(
        0x30,
        data + spec_sig_alg_identifier(alg) + spec_bit_string_raw(sig) + spec_der_tlv(
            0xa0,
            spec_der_tlv(0x30, ca_der),
        ),
    );
    let response_bytes = spec_der_tlv(0x30, oid_ocsp_basic() + spec_der_tlv(0x04, basic));
    spec_der_tlv(0x30, seq![0x0au8, 0x01, 0x00] + spec_der_tlv(0xa0, response_bytes))
}

fn concat_into(out: &mut Vec<u8>, part: &Vec<u8>)
    ensures
        final(out)@ == old(out)@ + part@,
{
    let mut p = part.clone();
    out.append(&mut p);
}

fn text_is(s: &str, lit: &str) -> (b: bool)
    ensures
        b == (s@ == lit@),
{
    s.to_owned() == lit.to_owned()
}

/// The signed OCSP response for one CertID, given the status text
/// (`good`, `revoked`, anything else meaning unknown) and the time texts.
pub fn ocsp_success_response(
    cert_id_der: &[u8],
    status: &str,
    revoked_time: &String,
    this_update: &String,
    next_update: &String,
    key: &CaSigningKey,
    ca_der: &[u8],
    issuer_subject: &[u8],
) -> (res: Result<Vec<u8>, ResponderError>)
    ensures
        ({
            let data = spec_response_data(cert_id_der@, status@, revoked_time@, this_update@, next_update@, issuer_subject@);
            match res {
                Ok(out) => key_signature(key.algorithm, key.material@, data) is Some && out@ == spec_ocsp_response(
                    data,
                    key.algorithm,
                    key_signature(key.algorithm, key.material@, data)->0,
                    ca_der@,
                ),
                Err(e) => key_signature(key.algorithm, key.material@, data) is None && e == ResponderError::Signing,
            }
        }),
{
    let cert_status: Vec<u8> = if text_is(status, "good") {
        let v: Vec<u8> = vec![0x80, 0x00];
        assert(v@ =~= seq![0x80u8, 0x00]);
        v
    } else if text_is(status, "revoked") {
        let t = gen_time_der(revoked_time);
        let inner = der_sequence(t.as_slice());
        assert((0xa0u8 | 1u8) == 0xa1u8) by (bit_vector);
        der_context_constructed(1, inner.as_slice())
    } else {
        let v: Vec<u8> = vec![0x82, 0x00];
        assert(v@ =~= seq![0x82u8, 0x00]);
        v
    };
    proof {
        assert((0xa0u8 | 0u8) == 0xa0u8) by (bit_vector);
        assert((0xa0u8 | 1u8) == 0xa1u8) by (bit_vector);
    }
    let this_der = gen_time_der(this_update);
    let next_der = gen_time_der(next_update);
    let next_field = der_context_constructed(0, next_der.as_slice());
    let mut single_content: Vec<u8> = Vec::new();
    single_content.extend_from_slice(cert_id_der);
    concat_into(&mut single_content, &cert_status);
    concat_into(&mut single_content, &this_der);
    concat_into(&mut single_content, &next_field);
    let single = der_sequence(single_content.as_slice());
    let responder_id = der_context_constructed(1, issuer_subject);
    let responses = der_sequence(single.as_slice());
    let mut data_content: Vec<u8> = Vec::new();
    concat_into(&mut data_content, &responder_id);
    concat_into(&mut data_content, &this_der);
    concat_into(&mut data_content, &responses);
    let data = der_sequence(data_content.as_slice());
    assert(data@ =~= spec_response_data(cert_id_der@, status@, revoked_time@, this_update@, next_update@, issuer_subject@));
    let sig = match key.sign(data.as_slice()) {
        Ok(s) => s,
        Err(_) => return Err(ResponderError::Signing),
    };
    let sig_bits = der_bit_string_raw(sig.as_slice());
    let ca_seq = der_sequence(ca_der);
    let certs_field = der_context_constructed(0, ca_seq.as_slice());
    let mut basic_content: Vec<u8> = Vec::new();
    concat_into(&mut basic_content, &data);
    let alg = key.sig_alg_identifier_der();
    concat_into(&mut basic_content, &alg);
    concat_into(&mut basic_content, &sig_bits);
    concat_into(&mut basic_content, &certs_field);
    let basic = der_sequence(basic_content.as_slice());
    let octets = der_octet_string(basic.as_slice());
    let mut rb_content: Vec<u8> = vec![0x06, 0x09, 0x2b, 0x06, 0x01, 0x05, 0x05, 0x07, 0x30, 0x01, 0x01];
    assert(rb_content@ =~= oid_ocsp_basic());
    concat_into(&mut rb_content, &octets);
    let response_bytes = der_sequence(rb_content.as_slice());
    let explicit = der_context_constructed(0, response_bytes.as_slice());
    let mut outer: Vec<u8> = der_enumerated(0);
    concat_into(&mut outer, &explicit);
    let out = der_sequence(outer.as_slice());
    assert(out@ =~= spec_ocsp_response(data@, key.algorithm, sig@, ca_der@));
    Ok(out)
}

/// The status the responder reports for a record: unknown where there is
/// none, revoked (at its revocation time, else now) where it is revoked, else good.
pub open spec fn record_status(rec: Option<CertificateRecord>, now_iso: Seq<char>) -> (Seq<char>, Seq<char>) {
    match rec {
        None => ("unknown"@, now_iso),
        Some(r) => if r.revoked {
            (
                "revoked"@,
                match r.revoked_at {
                    Some(t) => t@,
                    None => now_iso,
                },
            )
        } else {
            ("good"@, now_iso)
        },
    }
}

/// The OCSP response to a DER request, given the times (RFC 3339 texts) and
/// the GeneralizedTime text used where one does not parse.
pub open spec fn spec_ocsp_answer(
    request: Seq<u8>,
    records: Seq<CertificateRecord>,
    key_pem: Seq<char>,
    ca_cert_pem: Seq<char>,
    now_iso: Seq<char>,
    next_iso: Seq<char>,
    fallback: Seq<char>,
) -> Result<Seq<u8>, ResponderError> {
    match spec_parse_ocsp_request(request) {
        Err(e) => Err(ResponderError::Request(e)),
        Ok((cert_id, serial)) => match loaded_key(key_pem) {
            None => Err(ResponderError::Key(SigningError::UnsupportedKey)),
            Some(key) => match pem_contents(trim(ca_cert_pem)) {
                None => Err(ResponderError::CaCertPem),
                Some(ca_der) => match cert_subject_of(ca_der) {
                    None => Err(ResponderError::CaCert),
                    Some(issuer) => {
                        let st = record_status(first_with_serial(records, serial), now_iso);
                        let data = spec_response_data(
                            cert_id,
                            st.0,
                            gen_text_or(st.1, fallback),
                            gen_text_or(now_iso, fallback),
                            gen_text_or(next_iso, fallback),
                            issuer,
                        );
                        match key_signature(key.0, key.1, data) {
                            None => Err(ResponderError::Signing),
                            Some(sig) => Ok(spec_ocsp_response(data, key.0, sig, ca_der)),
                        }
                    },
                },
            },
        },
    }
}

/// The certStatus the responder gives for a certificate: for a revoked record
/// the revoked CHOICE ([1]) carrying the record's revocation time (the time of
/// answering where the record has none); good ([0] NULL) only for a record
/// that is not revoked; unknown ([2] NULL) where no record has the serial.
/// Written out as DER, independently of how the responder names the status.
pub open spec fn expected_cert_status_der(
    rec: Option<CertificateRecord>,
    now_iso: Seq<char>,
    fallback: Seq<char>,
) -> Seq<u8> {
    match rec {
        None => seq![0x82u8, 0x00],
        Some(r) => if r.revoked {
            let at = match r.revoked_at {
                Some(t) => t@,
                None => now_iso,
            };
            spec_der_tlv(0xa1, spec_der_tlv(0x30, spec_gen_time(gen_text_or(at, fallback))))
        } else {
            seq![0x80u8, 0x00]
        },
    }
}

/// The OCSP answer to a readable request, under a usable CA key and CA
/// certificate, is the signed BasicOCSPResponse whose single response holds
/// the request's CertID, the certStatus of the first record with the
/// request's serial (revoked with its revocation time, good only where it is
/// not revoked, unknown where there is none), this update and next update.
pub proof fn law_ocsp_answer_reports_record_status(
    request: Seq<u8>,
    records: Seq<CertificateRecord>,
    key_pem: Seq<char>,
    ca_cert_pem: Seq<char>,
    now_iso: Seq<char>,
    next_iso: Seq<char>,
    fallback: Seq<char>,
)
    ensures
        ({
            &&& spec_parse_ocsp_request(request) is Ok
            &&& loaded_key(key_pem) is Some
            &&& pem_contents(trim(ca_cert_pem)) is Some
            &&& cert_subject_of(pem_contents(trim(ca_cert_pem))->0) is Some
        }) ==> {
            let (cert_id, serial) = spec_parse_ocsp_request(request)->Ok_0;
            let key = loaded_key(key_pem)->0;
            let ca_der = pem_contents(trim(ca_cert_pem))->0;
            let issuer = cert_subject_of(ca_der)->0;
            let this_update = gen_text_or(now_iso, fallback);
            let next_update = gen_text_or(next_iso, fallback);
            let single = spec_der_tlv(
                0x30,
                cert_id + expected_cert_status_der(first_with_serial(records, serial), now_iso, fallback)
                    + spec_gen_time(this_update) + spec_der_tlv(0xa0, spec_gen_time(next_update)),
            );
            let data = spec_der_tlv(
                0x30,
                spec_der_tlv(0xa1, issuer) + spec_gen_time(this_update) + spec_der_tlv(0x30, single),
            );
            spec_ocsp_answer(request, records, key_pem, ca_cert_pem, now_iso, next_iso, fallback) == match key_signature(
                key.0,
                key.1,
                data,
            ) {
                None => Err(ResponderError::Signing),
                Some(sig) => Ok(spec_ocsp_response(data, key.0, sig, ca_der)),
            }
        },
{
    reveal_strlit("good");
    reveal_strlit("revoked");
    reveal_strlit("unknown");
    assert("revoked"@[0] != "good"@[0]);
    assert("unknown"@[0] != "good"@[0]);
    assert("unknown"@[0] != "revoked"@[0]);
    match spec_parse_ocsp_request(request) {
        Ok((cert_id, serial)) => {
            let rec = first_with_serial(records, serial);
            let st = record_status(rec, now_iso);
            assert(spec_cert_status(st.0, gen_text_or(st.1, fallback)) == expected_cert_status_der(
                rec,
                now_iso,
                fallback,
            ));
            let this_update = gen_text_or(now_iso, fallback);
            let next_update = gen_text_or(next_iso, fallback);
            match pem_contents(trim(ca_cert_pem)) {
                Some(ca_der) => match cert_subject_of(ca_der) {
                    Some(issuer) => {
                        let single = spec_der_tlv(
                            0x30,
                            cert_id + expected_cert_status_der(rec, now_iso, fallback) + spec_gen_time(this_update)
                                + spec_der_tlv(0xa0, spec_gen_time(next_update)),
                        );
                        let data = spec_der_tlv(
                            0x30,
                            spec_der_tlv(0xa1, issuer) + spec_gen_time(this_update) + spec_der_tlv(0x30, single),
                        );
                        assert(spec_response_data(
                            cert_id,
                            st.0,
                            gen_text_or(st.1, fallback),
                            this_update,
                            next_update,
                            issuer,
                        ) == data);
                    },
                    None => {},
                },
                None => {},
            }
        },
        Err(_) => {},
    }
}

pub open spec fn bytes_result<E>(r: Result<Vec<u8>, E>) -> Result<Seq<u8>, E> {
    match r {
        Ok(v) => Ok(v@),
        Err(e) => Err(e),
    }
}

/// `res` is the answer `expected`; where the request is unreadable, some
/// request error.
pub open spec fn ocsp_answered(res: Result<Vec<u8>, ResponderError>, expected: Result<Seq<u8>, ResponderError>) -> bool {
    match expected {
        Err(ResponderError::Request(_)) => res matches Err(ResponderError::Request(_)),
        _ => bytes_result(res) == expected,
    }
}

/// The OCSP response to a DER request, at the given times.
pub fn ocsp_answer_at(
    der_request: &[u8],
    db: &CertificatesDb,
    key_pem: &str,
    ca_cert_pem: &str,
    now_iso: &String,
    next_iso: &String,
    fallback: &String,
) -> (res: Result<Vec<u8>, ResponderError>)
    requires
        ocsp_request_readable(der_request@),
    ensures
        ocsp_answered(res, spec_ocsp_answer(der_request@, db.certificates@, key_pem@, ca_cert_pem@, now_iso@, next_iso@, fallback@)),
{
    let parsed = match parse_ocsp_request(der_request) {
        Ok(p) => p,
        Err(e) => return Err(ResponderError::Request(e)),
    };
    let key = match load_signing_key(key_pem) {
        Ok(k) => k,
        Err(e) => return Err(ResponderError::Key(e)),
    };
    let ca_trimmed = trim_str(ca_cert_pem);
    let ca_der = match pem_decode(ca_trimmed.as_str()) {
        Some(d) => d,
        None => return Err(ResponderError::CaCertPem),
    };
    let issuer = match parse_cert_subject(ca_der.as_slice()) {
        Some(s) => s,
        None => return Err(ResponderError::CaCert),
    };
    let record = find_certificate_by_serial(db, parsed.serial_number.as_str());
    let (status, revoked_iso): (&str, String) = match &record {
        None => ("unknown", now_iso.clone()),
        Some(r) => if r.revoked {
            (
                "revoked",
                match &r.revoked_at {
                    Some(t) => t.clone(),
                    None => now_iso.clone(),
                },
            )
        } else {
            ("good", now_iso.clone())
        },
    };
    let revoked_text = gen_text_or_exec(revoked_iso.as_str(), fallback);
    let this_text = gen_text_or_exec(now_iso.as_str(), fallback);
    let next_text = gen_text_or_exec(next_iso.as_str(), fallback);
    ocsp_success_response(
        parsed.cert_id_der.as_slice(),
        status,
        &revoked_text,
        &this_text,
        &next_text,
        &key,
        ca_der.as_slice(),
        issuer.as_slice(),
    )
}

/// The OCSP response to a DER request, now: `spec_ocsp_answer` at the
/// current time and `max_age_seconds` later.
pub fn build_ocsp_response_from_request(
    der_request: &[u8],
    max_age_seconds: u32,
    db: &CertificatesDb,
    key_pem: &str,
    ca_cert_pem: &str,
) -> (res: Result<Vec<u8>, ResponderError>)
    requires
        ocsp_request_readable(der_request@),
    ensures
        exists|now_iso: Seq<char>, next_iso: Seq<char>, fallback: Seq<char>|
            #![trigger spec_ocsp_answer(der_request@, db.certificates@, key_pem@, ca_cert_pem@, now_iso, next_iso, fallback)]
            ocsp_answered(res, spec_ocsp_answer(der_request@, db.certificates@, key_pem@, ca_cert_pem@, now_iso, next_iso, fallback)),
{
    let now_iso = crate::clock::now_rfc3339();
    let next_iso = crate::clock::rfc3339_after_seconds(max_age_seconds);
    let fallback = now_generalized_time();
    ocsp_answer_at(der_request, db, key_pem, ca_cert_pem, &now_iso, &next_iso, &fallback)
}

/// One revokedCertificates entry: the serial as INTEGER and the revocation time.
pub open spec fn spec_crl_entry(r: CertificateRecord, now_iso: Seq<char>, fallback: Seq<char>) -> Seq<u8> {
    let t = match r.revoked_at {
        Some(t) => t@,
        None => now_iso,
    };
    spec_der_tlv(
        0x30,
        spec_der_tlv(0x02, spec_integer_content(hex_integer_bytes(r.serial_number@))) + spec_gen_time(
            gen_text_or(t, fallback),
        ),
    )
}

/// The entries of the revoked records, in order.
pub open spec fn spec_crl_entries(recs: Seq<CertificateRecord>, now_iso: Seq<char>, fallback: Seq<char>) -> Seq<u8>
    decreases recs.len(),
{
    if recs.len() == 0 {
        Seq::empty()
    } else {
        let rest = spec_crl_entries(recs.drop_last(), now_iso, fallback);
        if recs.last().revoked {
            rest + spec_crl_entry(recs.last(), now_iso, fallback)
        } else {
            rest
        }
    }
}

/// Every revoked record has a serial the INTEGER encoder accepts.
pub open spec fn revoked_serials_usable(recs: Seq<CertificateRecord>) -> bool {
    forall|i: int|
        0 <= i < recs.len() && (#[trigger] recs[i]).revoked ==> strip_0x(trim(recs[i].serial_number@)).len()
            > 0
}

/// Whether every revoked record's serial has digits (see
/// `revoked_serials_usable`); callers test it before building a CRL.
pub fn revoked_serials_are_usable(db: &CertificatesDb) -> (b: bool)
    ensures
        b == revoked_serials_usable(db.certificates@),
{
    let mut i: usize = 0;
    while i < db.certificates.len()
        invariant
            i <= db.certificates@.len(),
            forall|j: int|
                0 <= j < i && (#[trigger] db.certificates@[j]).revoked ==> strip_0x(trim(db.certificates@[j].serial_number@)).len() > 0,
        decreases db.certificates@.len() - i,
    {
        if db.certificates[i].revoked && !crate::der::hex_text_has_digits(db.certificates[i].serial_number.as_str()) {
            return false;
        }
        i = i + 1;
    }
    true
}

/// TBSCertList: version 2, algorithm, issuer, thisUpdate, nextUpdate, and the
/// revoked certificates where there are any.
pub open spec fn spec_tbs_cert_list(alg: KeyAlgorithm, issuer: Seq<u8>, this_update: Seq<char>, next_update: Seq<char>, entries: Seq<u8>) -> Seq<u8> {
    spec_der_tlv(
        0x30,
        seq![0x02u8, 0x01, 0x01] + spec_sig_alg_identifier(alg) + issuer + spec_gen_time(this_update)
            + spec_gen_time(next_update) + (if entries.len() > 0 {
            spec_der_tlv(0x30, entries)
        } else {
            Seq::empty()
        }),
    )
}

/// The signed CRL DER, given the times (RFC 3339) and the fallback GeneralizedTime text.
pub open spec fn spec_signed_crl(
    records: Seq<CertificateRecord>,
    key_pem: Seq<char>,
    ca_cert_pem: Seq<char>,
    now_iso: Seq<char>,
    next_iso: Seq<char>,
    fallback: Seq<char>,
) -> Result<Seq<u8>, ResponderError> {
    match loaded_key(key_pem) {
        None => Err(ResponderError::Key(SigningError::UnsupportedKey)),
        Some(key) => match pem_contents(trim(ca_cert_pem)) {
            None => Err(ResponderError::CaCertPem),
            Some(ca_der) => match cert_subject_of(ca_der) {
                None => Err(ResponderError::CaCert),
                Some(issuer) => {
                    let tbs = spec_tbs_cert_list(
                        key.0,
                        issuer,
                        gen_text_or(now_iso, fallback),
                        gen_text_or(next_iso, fallback),
                        spec_crl_entries(records, now_iso, fallback),
                    );
                    match key_signature(key.0, key.1, tbs) {
                        None => Err(ResponderError::Signing),
                        Some(sig) => Ok(
                            spec_der_tlv(0x30, tbs + spec_sig_alg_identifier(key.0) + spec_bit_string_raw(sig)),
                        ),
                    }
                },
            },
        },
    }
}

fn crl_entries(recs: &Vec<CertificateRecord>, now_iso: &String, fallback: &String) -> (out: Vec<u8>)
    requires
        revoked_serials_usable(recs@),
    ensures
        out@ == spec_crl_entries(recs@, now_iso@, fallback@),
{
    let mut out: Vec<u8> = Vec::new();
    let mut i: usize = 0;
    while i < recs.len()
        invariant
            i <= recs@.len(),
            revoked_serials_usable(recs@),
            out@ == spec_crl_entries(recs@.subrange(0, i as int), now_iso@, fallback@),
        decreases recs@.len() - i,
    {
        assert(recs@.subrange(0, i + 1).drop_last() =~= recs@.subrange(0, i as int));
        assert(recs@.subrange(0, i + 1).last() == recs@[i as int]);
        let r = &recs[i];
        if r.revoked {
            let serial = der_integer_hex(r.serial_number.as_str());
            let t = match &r.revoked_at {
                Some(t) => gen_text_or_exec(t.as_str(), fallback),
                None => gen_text_or_exec(now_iso.as_str(), fallback),
            };
            let time = gen_time_der(&t);
            let mut content: Vec<u8> = Vec::new();
            concat_into(&mut content, &serial);
            concat_into(&mut content, &time);
            let entry = der_sequence(content.as_slice());
            concat_into(&mut out, &entry);
        }
        i = i + 1;
    }
    assert(recs@.subrange(0, recs@.len() as int) =~= recs@);
    out
}

/// The signed CRL DER at the given times.
pub fn signed_crl_der_at(
    db: &CertificatesDb,
    key_pem: &str,
    ca_cert_pem: &str,
    now_iso: &String,
    next_iso: &String,
    fallback: &String,
) -> (res: Result<Vec<u8>, ResponderError>)
    requires
        revoked_serials_usable(db.certificates@),
    ensures
        bytes_result(res) == spec_signed_crl(db.certificates@, key_pem@, ca_cert_pem@, now_iso@, next_iso@, fallback@),
{
    let key = match load_signing_key(key_pem) {
        Ok(k) => k,
        Err(e) => return Err(ResponderError::Key(e)),
    };
    let ca_trimmed = trim_str(ca_cert_pem);
    let ca_der = match pem_decode(ca_trimmed.as_str()) {
        Some(d) => d,
        None => return Err(ResponderError::CaCertPem),
    };
    let issuer = match parse_cert_subject(ca_der.as_slice()) {
        Some(s) => s,
        None => return Err(ResponderError::CaCert),
    };
    let entries = crl_entries(&db.certificates, now_iso, fallback);
    let alg = key.sig_alg_identifier_der();
    let this_text = gen_text_or_exec(now_iso.as_str(), fallback);
    let next_text = gen_text_or_exec(next_iso.as_str(), fallback);
    let mut tbs_content: Vec<u8> = vec![0x02, 0x01, 0x01];
    concat_into(&mut tbs_content, &alg);
    concat_into(&mut tbs_content, &issuer);
    let this_der = gen_time_der(&this_text);
    let next_der = gen_time_der(&next_text);
    concat_into(&mut tbs_content, &this_der);
    concat_into(&mut tbs_content, &next_der);
    if entries.len() > 0 {
        let seq = der_sequence(entries.as_slice());
        concat_into(&mut tbs_content, &seq);
    }
    let tbs = der_sequence(tbs_content.as_slice());
    assert(tbs@ =~= spec_tbs_cert_list(
        key.algorithm,
        issuer@,
        this_text@,
        next_text@,
        spec_crl_entries(db.certificates@, now_iso@, fallback@),
    ));
    let sig = match key.sign(tbs.as_slice()) {
        Ok(s) => s,
        Err(_) => return Err(ResponderError::Signing),
    };
    let sig_bits = der_bit_string_raw(sig.as_slice());
    let mut content: Vec<u8> = Vec::new();
    concat_into(&mut content, &tbs);
    concat_into(&mut content, &alg);
    concat_into(&mut content, &sig_bits);
    Ok(der_sequence(content.as_slice()))
}

/// The signed CRL DER, now, with the next update `next_update_hours` later.
pub fn build_signed_crl_der(
    next_update_hours: u32,
    db: &CertificatesDb,
    key_pem: &str,
    ca_cert_pem: &str,
) -> (res: Result<Vec<u8>, ResponderError>)
    requires
        revoked_serials_usable(db.certificates@),
        next_update_hours <= crate::clock::MAX_AHEAD_HOURS,
    ensures
        exists|now_iso: Seq<char>, next_iso: Seq<char>, fallback: Seq<char>|
            #![trigger spec_signed_crl(db.certificates@, key_pem@, ca_cert_pem@, now_iso, next_iso, fallback)]
            bytes_result(res) == spec_signed_crl(db.certificates@, key_pem@, ca_cert_pem@, now_iso, next_iso, fallback),
{
    let now_iso = crate::clock::now_rfc3339();
    let next_iso = crate::clock::rfc3339_after_hours(next_update_hours);
    let fallback = now_generalized_time();
    signed_crl_der_at(db, key_pem, ca_cert_pem, &now_iso, &next_iso, &fallback)
}

/// The signed CRL in PEM (`X509 CRL`), now.
pub fn build_signed_crl_pem(
    next_update_hours: u32,
    db: &CertificatesDb,
    key_pem: &str,
    ca_cert_pem: &str,
) -> (res: Result<String, ResponderError>)
    requires
        revoked_serials_usable(db.certificates@),
        next_update_hours <= crate::clock::MAX_AHEAD_HOURS,
    ensures
        exists|now_iso: Seq<char>, next_iso: Seq<char>, fallback: Seq<char>|
            #![trigger spec_signed_crl(db.certificates@, key_pem@, ca_cert_pem@, now_iso, next_iso, fallback)]
            match spec_signed_crl(db.certificates@, key_pem@, ca_cert_pem@, now_iso, next_iso, fallback) {
                Ok(der) => res matches Ok(s) && s@ == pem_armor("X509 CRL"@, der),
                Err(e) => res == Err::<String, ResponderError>(e),
            },
{
    let der = build_signed_crl_der(next_update_hours, db, key_pem, ca_cert_pem)?;
    Ok(pem_armor_text("X509 CRL", der.as_slice()))
}

} // verus!
