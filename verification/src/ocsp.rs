//! OCSP request parsing and the DER pieces of OCSP responses and CRLs.
use crate::codec::{hex_encode, spec_hex_encode};
use crate::der::{decode_der_length_pub, der_sequence, spec_decode_len, spec_der_tlv};
use crate::text::string_from_chars;
use vstd::prelude::*;

verus! {

/// Why an OCSP request could not be read.
#[derive(Debug, Clone, Copy, PartialEq, Eq, Structural)]
pub enum OcspError {
    CertIdNotFound,
    NotSequence,
    CertIdLength,
    OutOfBounds,
    InvalidLength,
    ExpectedInteger,
    SerialLength,
}

pub fn der_enumerated(v: u8) -> (out: Vec<u8>)
    ensures
        out@ == seq![0x0au8, 0x01u8, v],
{
    let out = vec![0x0a, 0x01, v];
    assert(out@ =~= seq![0x0au8, 0x01u8, v]);
    out
}

/// Length octets of `der_bit_string_raw`: short form, `0x81`, or `0x82` with
/// the two low-order bytes of the length.
pub open spec fn bit_string_length(len: nat) -> Seq<u8> {
    if len < 0x80 {
        seq![len as u8]
    } else if len < 0x100 {
        seq![0x81u8, len as u8]
    } else {
        seq![0x82u8, ((len / 0x100) % 0x100) as u8, (len % 0x100) as u8]
    }
}

/// BIT STRING (no unused bits) around a signature.
pub open spec fn spec_bit_string_raw(sig: Seq<u8>) -> Seq<u8> {
    seq![0x03u8] + bit_string_length(sig.len() + 1) + (seq![0u8] + sig)
}

pub fn der_bit_string_raw(sig_der: &[u8]) -> (out: Vec<u8>)
    ensures
        out@ == spec_bit_string_raw(sig_der@),
{
    let mut content: Vec<u8> = vec![0x00];
    content.extend_from_slice(sig_der);
    let mut out: Vec<u8> = vec![0x03];
    let len = content.len();
    if len < 0x80 {
        out.push(len as u8);
    } else if len < 0x100 {
        out.push(0x81);
        out.push(len as u8);
    } else {
        out.push(0x82);
        out.push(((len / 0x100) % 0x100) as u8);
        out.push((len % 0x100) as u8);
    }
    out.append(&mut content);
    assert(out@ =~= spec_bit_string_raw(sig_der@));
    out
}

/// OCSPResponse carrying only an error status (e.g. malformedRequest = 1).
pub fn build_ocsp_error_response(status_code: u8) -> (out: Vec<u8>)
    ensures
        out@ == spec_der_tlv(0x30, seq![0x0au8, 0x01u8, status_code]),
{
    let e = der_enumerated(status_code);
    der_sequence(e.as_slice())
}

/// The tag expected at position `k` of a CertID: SEQUENCE (AlgorithmIdentifier),
/// OCTET STRING, OCTET STRING, INTEGER.
pub open spec fn cert_id_tag(k: nat) -> u8 {
    if k == 0 {
        0x30
    } else if k == 1 {
        0x04
    } else if k == 2 {
        0x04
    } else {
        0x02
    }
}

/// Whether the elements from `pos` on carry the CertID tags `k..4` in order.
pub open spec fn cert_id_tags_from(content: Seq<u8>, pos: int, k: nat) -> bool
    decreases 4 - k,
{
    if k >= 4 {
        true
    } else if pos < 0 || pos >= content.len() || content[pos] != cert_id_tag(k) {
        false
    } else {
        match spec_decode_len(content.subrange(pos + 1, content.len() as int)) {
            None => false,
            Some((ls, l)) => cert_id_tags_from(content, pos + 1 + ls + l, k + 1),
        }
    }
}

/// Content that looks like a CertID:
/// SEQUENCE { SEQUENCE(AlgId), OCTET STRING, OCTET STRING, INTEGER }.
pub open spec fn spec_looks_like_cert_id(content: Seq<u8>) -> bool {
    cert_id_tags_from(content, 0, 0)
}

fn looks_like_cert_id(content: &[u8]) -> (b: bool)
    ensures
        b == spec_looks_like_cert_id(content@),
{
    let n = content.len();
    let mut pos: usize = 0;
    let mut k: usize = 0;
    while k < 4
        invariant
            n == content@.len(),
            k <= 4,
            pos <= n,
            spec_looks_like_cert_id(content@) == cert_id_tags_from(content@, pos as int, k as nat),
        decreases 4 - k,
    {
        let expected: u8 = if k == 0 {
            0x30
        } else if k == 1 {
            0x04
        } else if k == 2 {
            0x04
        } else {
            0x02
        };
        if pos >= n || content[pos] != expected {
            return false;
        }
        let rest = &content[pos + 1..n];
        let (ls, l) = match decode_der_length_pub(rest) {
            Some(x) => x,
            None => return false,
        };
        if ls > n - (pos + 1) || l > n - (pos + 1) - ls {
            proof {
                let p2 = pos + 1 + ls + l;
                if k + 1 < 4 {
                    assert(p2 >= n);
                    assert(!cert_id_tags_from(content@, p2, (k + 1) as nat));
                } else {
                    assert(cert_id_tags_from(content@, p2, (k + 1) as nat));
                }
            }
            return k + 1 >= 4;
        }
        pos = pos + 1 + ls + l;
        k = k + 1;
    }
    true
}

/// What `find_first_cert_id` returns for the elements of `data` from `pos` on:
/// in pre-order, the first SEQUENCE whose content looks like a CertID, looking
/// inside SEQUENCEs and context-specific constructed elements; `None` at the
/// first element whose length cannot be read or runs past the end.
pub open spec fn find_cert_id_from(data: Seq<u8>, pos: int) -> Option<Seq<u8>>
    decreases data.len(), data.len() - pos,
{
    if pos < 0 || pos >= data.len() {
        None
    } else {
        match spec_decode_len(data.subrange(pos + 1, data.len() as int)) {
            None => None,
            Some((ls, l)) => {
                let cs = pos + 1 + ls;
                let ce = cs + l;
                if ce > data.len() {
                    None
                } else {
                    let content = data.subrange(cs, ce);
                    let tag = data[pos];
                    if tag == 0x30 {
                        if spec_looks_like_cert_id(content) {
                            Some(data.subrange(pos, ce))
                        } else {
                            match find_cert_id_from(content, 0) {
                                Some(f) => Some(f),
                                None => find_cert_id_from(data, ce),
                            }
                        }
                    } else if tag & 0xe0 == 0xa0 {
                        match find_cert_id_from(content, 0) {
                            Some(f) => Some(f),
                            None => find_cert_id_from(data, ce),
                        }
                    } else {
                        find_cert_id_from(data, ce)
                    }
                }
            },
        }
    }
}

pub open spec fn spec_find_first_cert_id(data: Seq<u8>) -> Option<Seq<u8>> {
    find_cert_id_from(data, 0)
}

/// Walk the DER tree to find the first SEQUENCE that looks like a CertID.
fn find_first_cert_id(data: &[u8]) -> (res: Option<Vec<u8>>)
    ensures
        match res {
            Some(v) => spec_find_first_cert_id(data@) == Some(v@),
            None => spec_find_first_cert_id(data@) is None,
        },
    decreases data@.len(),
{
    let n = data.len();
    let mut pos: usize = 0;
    while pos < n
        invariant
            n == data@.len(),
            pos <= n,
            spec_find_first_cert_id(data@) == find_cert_id_from(data@, pos as int),
        decreases n - pos,
    {
        let tag = data[pos];
        let rest = &data[pos + 1..n];
        let (len_size, len) = match decode_der_length_pub(rest) {
            Some(x) => x,
            None => return None,
        };
        if len_size > n - (pos + 1) || len > n - (pos + 1) - len_size {
            return None;
        }
        let content_start = pos + 1 + len_size;
        let content_end = content_start + len;
        let content = &data[content_start..content_end];
        if tag == 0x30 {
            if looks_like_cert_id(content) {
                return Some(vstd::slice::slice_to_vec(&data[pos..content_end]));
            }
            match find_first_cert_id(content) {
                Some(found) => return Some(found),
                None => {},
            }
        } else if tag & 0xe0 == 0xa0 {
            match find_first_cert_id(content) {
                Some(found) => return Some(found),
                None => {},
            }
        }
        pos = content_end;
    }
    None
}

/// One step of `skip_tlv`: the position after the element at `pos`.
pub open spec fn spec_skip_tlv(data: Seq<u8>, pos: int) -> Result<int, OcspError> {
    if pos < 0 || pos >= data.len() {
        Err(OcspError::OutOfBounds)
    } else {
        match spec_decode_len(data.subrange(pos + 1, data.len() as int)) {
            None => Err(OcspError::InvalidLength),
            Some((ls, l)) => Ok(pos + 1 + ls + l),
        }
    }
}

/// Where the serialNumber content of a CertID lies: (start, end) positions.
pub open spec fn serial_span(c: Seq<u8>) -> Result<(int, int), OcspError> {
    if c.len() == 0 || c[0] != 0x30 {
        Err(OcspError::NotSequence)
    } else {
        match spec_decode_len(c.subrange(1, c.len() as int)) {
            None => Err(OcspError::CertIdLength),
            Some((ols, _)) => match spec_skip_tlv(c, (1 + ols) as int) {
                Err(e) => Err(e),
                Ok(p1) => match spec_skip_tlv(c, p1) {
                    Err(e) => Err(e),
                    Ok(p2) => match spec_skip_tlv(c, p2) {
                        Err(e) => Err(e),
                        Ok(p3) => if p3 >= c.len() || c[p3] != 0x02 {
                            Err(OcspError::ExpectedInteger)
                        } else {
                            match spec_decode_len(c.subrange(p3 + 1, c.len() as int)) {
                                None => Err(OcspError::SerialLength),
                                Some((ls, l)) => Ok((p3 + 1 + ls, p3 + 1 + ls + l)),
                            }
                        },
                    },
                },
            },
        }
    }
}

/// Whether the serialNumber of a CertID lies inside it (the original slices
/// it out and panics otherwise).
pub open spec fn serial_fits(c: Seq<u8>) -> bool {
    serial_span(c) matches Ok((s, e)) ==> e <= c.len()
}

pub open spec fn strip_leading_zero_chars(s: Seq<char>) -> Seq<char>
    decreases s.len(),
{
    if s.len() > 0 && s[0] == '0' {
        strip_leading_zero_chars(s.drop_first())
    } else {
        s
    }
}

/// The serial number text of a CertID: lower-case hex of the serial bytes
/// (one leading zero byte dropped), leading `0` digits removed, `0` if nothing is left.
pub open spec fn spec_extract_serial(c: Seq<u8>) -> Result<Seq<char>, OcspError> {
    match serial_span(c) {
        Err(e) => Err(e),
        Ok((s, e)) => {
            let bytes = c.subrange(s, e);
            let trimmed = if bytes.len() > 0 && bytes[0] == 0 {
                bytes.drop_first()
            } else {
                bytes
            };
            let h = strip_leading_zero_chars(spec_hex_encode(trimmed));
            Ok(
                if h.len() == 0 {
                    seq!['0']
                } else {
                    h
                },
            )
        },
    }
}

fn skip_tlv(data: &[u8], pos: usize) -> (res: Result<usize, OcspError>)
    ensures
        match res {
            Ok(p) => spec_skip_tlv(data@, pos as int) == Ok::<int, OcspError>(p as int),
            Err(e) => spec_skip_tlv(data@, pos as int) == Err::<int, OcspError>(e) || (
            spec_skip_tlv(data@, pos as int) matches Ok(q) && q > data@.len() && e
                == OcspError::OutOfBounds),
        },
{
    let n = data.len();
    if pos >= n {
        return Err(OcspError::OutOfBounds);
    }
    let rest = &data[pos + 1..n];
    match decode_der_length_pub(rest) {
        None => Err(OcspError::InvalidLength),
        Some((ls, l)) => {
            if ls > n || l > n - ls || pos + 1 > n - ls - l {
                return Err(OcspError::OutOfBounds);
            }
            Ok(pos + 1 + ls + l)
        },
    }
}

fn strip_zero_digits(v: &[char]) -> (res: Vec<char>)
    ensures
        res@ == strip_leading_zero_chars(v@),
{
    let n = v.len();
    let mut i: usize = 0;
    assert(v@.subrange(0, n as int) =~= v@);
    while i < n && v[i] == '0'
        invariant
            n == v@.len(),
            i <= n,
            strip_leading_zero_chars(v@) == strip_leading_zero_chars(v@.subrange(i as int, n as int)),
        decreases n - i,
    {
        proof {
            let r = v@.subrange(i as int, n as int);
            assert(r.drop_first() =~= v@.subrange(i + 1, n as int));
        }
        i = i + 1;
    }
    proof {
        let r = v@.subrange(i as int, n as int);
        if r.len() > 0 {
            assert(r[0] == v@[i as int]);
        }
    }
    vstd::slice::slice_to_vec(&v[i..n])
}

fn extract_serial_from_cert_id(cert_id_der: &[u8]) -> (res: Result<String, OcspError>)
    requires
        serial_fits(cert_id_der@),
    ensures
        match res {
            Ok(s) => spec_extract_serial(cert_id_der@) == Ok::<Seq<char>, OcspError>(s@),
            Err(e) => spec_extract_serial(cert_id_der@) is Err,
        },
{
    let n = cert_id_der.len();
    if n == 0 || cert_id_der[0] != 0x30 {
        return Err(OcspError::NotSequence);
    }
    let (outer_ls, _) = match decode_der_length_pub(&cert_id_der[1..n]) {
        Some(x) => x,
        None => return Err(OcspError::CertIdLength),
    };
    if outer_ls > n - 1 {
        return Err(OcspError::OutOfBounds);
    }
    let mut pos = 1 + outer_ls;
    pos = skip_tlv(cert_id_der, pos)?;
    pos = skip_tlv(cert_id_der, pos)?;
    pos = skip_tlv(cert_id_der, pos)?;
    if pos >= n || cert_id_der[pos] != 0x02 {
        return Err(OcspError::ExpectedInteger);
    }
    let (ls, l) = match decode_der_length_pub(&cert_id_der[pos + 1..n]) {
        Some(x) => x,
        None => return Err(OcspError::SerialLength),
    };
    let start = pos + 1 + ls;
    let end = start + l;
    let serial_bytes = &cert_id_der[start..end];
    let trimmed: &[u8] = if serial_bytes.len() > 0 && serial_bytes[0] == 0x00 {
        &serial_bytes[1..serial_bytes.len()]
    } else {
        serial_bytes
    };
    proof {
        if serial_bytes@.len() > 0 && serial_bytes@[0] == 0 {
            assert(trimmed@ =~= serial_bytes@.drop_first());
        }
    }
    let hex = hex_encode(trimmed);
    let hex_chars = crate::text::chars_of(hex.as_str());
    let digits = strip_zero_digits(hex_chars.as_slice());
    if digits.len() == 0 {
        let zero: Vec<char> = vec!['0'];
        assert(zero@ =~= seq!['0']);
        Ok(string_from_chars(zero.as_slice()))
    } else {
        Ok(string_from_chars(digits.as_slice()))
    }
}

/// The first CertID of an OCSP request and its serial number.
pub struct ParsedOcspRequest {
    pub cert_id_der: Vec<u8>,
    pub serial_number: String,
}

/// What `parse_ocsp_request` reads from a request: (CertID bytes, serial text).
pub open spec fn spec_parse_ocsp_request(req: Seq<u8>) -> Result<(Seq<u8>, Seq<char>), OcspError> {
    match spec_find_first_cert_id(req) {
        None => Err(OcspError::CertIdNotFound),
        Some(c) => match spec_extract_serial(c) {
            Ok(s) => Ok((c, s)),
            Err(e) => Err(e),
        },
    }
}

/// Whether the original reads `req` without panicking: the first CertID's
/// serialNumber lies inside it.
pub open spec fn ocsp_request_readable(req: Seq<u8>) -> bool {
    spec_find_first_cert_id(req) matches Some(c) ==> serial_fits(c)
}

fn serial_inside(c: &[u8]) -> (b: bool)
    ensures
        b == serial_fits(c@),
{
    let n = c.len();
    if n == 0 || c[0] != 0x30 {
        return true;
    }
    let (outer_ls, _) = match decode_der_length_pub(&c[1..n]) {
        Some(x) => x,
        None => return true,
    };
    assert(c@.subrange(1, n as int) == c@.subrange(1, c@.len() as int));
    if outer_ls > n - 1 {
        return true;
    }
    let p1 = match skip_tlv(c, 1 + outer_ls) {
        Ok(p) => p,
        Err(_) => return true,
    };
    let p2 = match skip_tlv(c, p1) {
        Ok(p) => p,
        Err(_) => return true,
    };
    let p3 = match skip_tlv(c, p2) {
        Ok(p) => p,
        Err(_) => return true,
    };
    if p3 >= n || c[p3] != 0x02 {
        return true;
    }
    let (ls, l) = match decode_der_length_pub(&c[p3 + 1..n]) {
        Some(x) => x,
        None => return true,
    };
    assert(c@.subrange(p3 + 1, n as int) == c@.subrange(p3 + 1, c@.len() as int));
    ls <= n - (p3 + 1) && l <= n - (p3 + 1) - ls
}

/// Whether a request can be read without a fault (see
/// `ocsp_request_readable`); callers test it before answering the request.
pub fn ocsp_request_is_readable(der_request: &[u8]) -> (b: bool)
    ensures
        b == ocsp_request_readable(der_request@),
{
    match find_first_cert_id(der_request) {
        None => true,
        Some(c) => serial_inside(c.as_slice()),
    }
}

/// Parse a DER OCSPRequest; extract the first CertID and its serial number.
pub fn parse_ocsp_request(der_request: &[u8]) -> (res: Result<ParsedOcspRequest, OcspError>)
    requires
        ocsp_request_readable(der_request@),
    ensures
        match res {
            Ok(p) => spec_parse_ocsp_request(der_request@) == Ok::<(Seq<u8>, Seq<char>), OcspError>(
                (p.cert_id_der@, p.serial_number@),
            ),
            Err(_) => spec_parse_ocsp_request(der_request@) is Err,
        },
{
    let cert_id_der = match find_first_cert_id(der_request) {
        Some(c) => c,
        None => return Err(OcspError::CertIdNotFound),
    };
    let serial_number = extract_serial_from_cert_id(cert_id_der.as_slice())?;
    Ok(ParsedOcspRequest { cert_id_der, serial_number })
}

} // verus!
