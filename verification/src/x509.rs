//! What the library reads of certification requests and certificates, through
//! `x509-parser`, and the time texts it writes, through `chrono`.
//!
//! Each parse is named: the name stands for what the crate finds in the given
//! bytes, and the verified code around it is stated over that name.
use vstd::prelude::*;
use x509_parser::prelude::FromDer;
use x509_parser::extensions::GeneralName;

verus! {

/// One entry of a subjectAltName extension that a CSR requests.
pub enum CsrName {
    Dns(String),
    Uri(String),
    Ip(Vec<u8>),
    Other,
}

pub enum CsrNameView {
    Dns(Seq<char>),
    Uri(Seq<char>),
    Ip(Seq<u8>),
    Other,
}

impl View for CsrName {
    type V = CsrNameView;

    open spec fn view(&self) -> CsrNameView {
        match self {
            CsrName::Dns(s) => CsrNameView::Dns(s@),
            CsrName::Uri(s) => CsrNameView::Uri(s@),
            CsrName::Ip(b) => CsrNameView::Ip(b@),
            CsrName::Other => CsrNameView::Other,
        }
    }
}

pub open spec fn opt_text(o: Option<String>) -> Option<Seq<char>> {
    match o {
        Some(s) => Some(s@),
        None => None,
    }
}

/// The subject of a CSR: its raw DER, and for each attribute in order its
/// value as text where it is a string type.
pub struct CsrSubject {
    pub subject_der: Vec<u8>,
    pub values: Vec<Option<String>>,
}

pub open spec fn subject_values(s: CsrSubject) -> Seq<Option<Seq<char>>> {
    s.values@.map_values(|o: Option<String>| opt_text(o))
}

pub open spec fn name_views(v: Seq<CsrName>) -> Seq<CsrNameView> {
    v.map_values(|n: CsrName| n@)
}

/// Name for the subject that `x509-parser` reads from CSR bytes: raw DER and
/// attribute values; `None` where the bytes are no CSR.
pub uninterp spec fn csr_subject_of(der: Seq<u8>) -> Option<(Seq<u8>, Seq<Option<Seq<char>>>)>;

/// Name for the subjectAltName entries a CSR requests, in order; `None`
/// where the bytes are no CSR.
pub uninterp spec fn csr_names_of(der: Seq<u8>) -> Option<Seq<CsrNameView>>;

/// `X509CertificationRequest::from_der`, then the subject's `as_raw` and, for
/// each attribute, `attr_value().as_str()`. The claim: the result is the name
/// `csr_subject_of` of the bytes.
#[verifier::external_body]
pub(crate) fn parse_csr_subject(der: &[u8]) -> (res: Option<CsrSubject>)
    ensures
        match res {
            Some(s) => csr_subject_of(der@) == Some((s.subject_der@, subject_values(s))),
            None => csr_subject_of(der@) is None,
        },
{
    let (_, csr) = x509_parser::certification_request::X509CertificationRequest::from_der(der).ok()?;
    let subject = &csr.certification_request_info.subject;
    let values = subject.iter_attributes().map(|a| a.attr_value().as_str().ok().map(|s| s.to_string())).collect();
    Some(CsrSubject { subject_der: subject.as_raw().to_vec(), values })
}

/// `X509CertificationRequest::from_der`, then `requested_extensions()`: every
/// GeneralName of every subjectAltName extension, in order. The claim: the
/// result is the name `csr_names_of` of the bytes.
#[verifier::external_body]
pub(crate) fn parse_csr_names(der: &[u8]) -> (res: Option<Vec<CsrName>>)
    ensures
        match res {
            Some(v) => csr_names_of(der@) == Some(name_views(v@)),
            None => csr_names_of(der@) is None,
        },
{
    let (_, csr) = x509_parser::certification_request::X509CertificationRequest::from_der(der).ok()?;
    let mut out = Vec::new();
    for ext in csr.requested_extensions().into_iter().flatten() {
        if let x509_parser::extensions::ParsedExtension::SubjectAlternativeName(san) = ext {
            for n in &san.general_names {
                out.push(match n {
                    GeneralName::DNSName(s) => CsrName::Dns(s.to_string()),
                    GeneralName::URI(s) => CsrName::Uri(s.to_string()),
                    GeneralName::IPAddress(b) => CsrName::Ip(b.to_vec()),
                    _ => CsrName::Other,
                });
            }
        }
    }
    Some(out)
}

/// Name for the raw subject DER that `parse_x509_certificate` reads from
/// certificate bytes; `None` where they are no certificate.
pub uninterp spec fn cert_subject_of(der: Seq<u8>) -> Option<Seq<u8>>;

/// `x509_parser::parse_x509_certificate(..)`, then `subject().as_raw()`.
#[verifier::external_body]
pub(crate) fn parse_cert_subject(der: &[u8]) -> (res: Option<Vec<u8>>)
    ensures
        match res {
            Some(v) => cert_subject_of(der@) == Some(v@),
            None => cert_subject_of(der@) is None,
        },
{
    let (_, cert) = x509_parser::parse_x509_certificate(der).ok()?;
    Some(cert.subject().as_raw().to_vec())
}

/// What the library reports of an issued certificate.
pub struct CertSummary {
    /// The serial in base 16 as `BigUint::to_str_radix(16)` writes it.
    pub serial_radix16: String,
    pub subject: String,
    pub not_before: String,
    pub not_after: String,
}

pub struct CertSummaryView {
    pub serial_radix16: Seq<char>,
    pub subject: Seq<char>,
    pub not_before: Seq<char>,
    pub not_after: Seq<char>,
}

impl View for CertSummary {
    type V = CertSummaryView;

    open spec fn view(&self) -> CertSummaryView {
        CertSummaryView {
            serial_radix16: self.serial_radix16@,
            subject: self.subject@,
            not_before: self.not_before@,
            not_after: self.not_after@,
        }
    }
}

/// Name for what `parse_x509_certificate` reports of certificate bytes: the
/// serial in base 16 (`to_str_radix(16)`), the subject's text and the validity
/// bounds in RFC 2822; `None` where the bytes are no certificate.
pub uninterp spec fn cert_summary_of(der: Seq<u8>) -> Option<CertSummaryView>;

/// `x509_parser::parse_x509_certificate(..)`: `serial.to_str_radix(16)`,
/// `subject().to_string()`, and `validity()` bounds by `to_rfc2822`
/// (their `to_string` where that fails).
#[verifier::external_body]
pub(crate) fn parse_cert_summary(der: &[u8]) -> (res: Option<CertSummary>)
    ensures
        match res {
            Some(s) => cert_summary_of(der@) == Some(s@),
            None => cert_summary_of(der@) is None,
        },
{
    let (_, cert) = x509_parser::parse_x509_certificate(der).ok()?;
    let v = cert.validity();
    Some(CertSummary {
        serial_radix16: cert.serial.to_str_radix(16),
        subject: cert.subject().to_string(),
        not_before: v.not_before.to_rfc2822().unwrap_or_else(|_| v.not_before.to_string()),
        not_after: v.not_after.to_rfc2822().unwrap_or_else(|_| v.not_after.to_string()),
    })
}

/// Name for the end of a certificate's validity, in Unix seconds, as
/// `parse_x509_certificate` reads it; `None` where the bytes are no certificate.
pub uninterp spec fn cert_not_after(der: Seq<u8>) -> Option<int>;

/// `x509_parser::parse_x509_certificate(..)`, then `validity().not_after.timestamp()`.
/// The claim: the result is the name `cert_not_after` of the bytes.
#[verifier::external_body]
pub(crate) fn parse_cert_not_after(der: &[u8]) -> (res: Option<i64>)
    ensures
        match res {
            Some(t) => cert_not_after(der@) == Some(t as int),
            None => cert_not_after(der@) is None,
        },
{
    let (_, cert) = x509_parser::parse_x509_certificate(der).ok()?;
    Some(cert.validity().not_after.timestamp())
}

/// Name for the UTCTime text (`%y%m%d%H%M%SZ`) of a Unix time in seconds;
/// `None` where chrono holds no such time.
pub uninterp spec fn utc_time_text(secs: int) -> Option<Seq<char>>;

/// `chrono::DateTime::from_timestamp(secs, 0)` formatted `%y%m%d%H%M%SZ`.
#[verifier::external_body]
pub(crate) fn format_utc_time(secs: i64) -> (res: Option<String>)
    ensures
        match res {
            Some(s) => utc_time_text(secs as int) == Some(s@),
            None => utc_time_text(secs as int) is None,
        },
{
    chrono::DateTime::from_timestamp(secs, 0).map(|d| d.format("%y%m%d%H%M%SZ").to_string())
}

/// Name for the GeneralizedTime text (`%Y%m%d%H%M%SZ`, in UTC) of an RFC 3339
/// time; `None` where the text does not parse.
pub uninterp spec fn generalized_time_text(rfc3339: Seq<char>) -> Option<Seq<char>>;

/// `chrono::DateTime::parse_from_rfc3339`, moved to UTC, formatted `%Y%m%d%H%M%SZ`.
#[verifier::external_body]
pub(crate) fn format_generalized_time(rfc3339: &str) -> (res: Option<String>)
    ensures
        match res {
            Some(s) => generalized_time_text(rfc3339@) == Some(s@),
            None => generalized_time_text(rfc3339@) is None,
        },
{
    chrono::DateTime::parse_from_rfc3339(rfc3339)
        .ok()
        .map(|d| d.with_timezone(&chrono::Utc).format("%Y%m%d%H%M%SZ").to_string())
}

/// `chrono::Utc::now()` formatted `%Y%m%d%H%M%SZ`: the current time, of which
/// nothing is stated.
#[verifier::external_body]
pub(crate) fn now_generalized_time() -> String {
    chrono::Utc::now().format("%Y%m%d%H%M%SZ").to_string()
}

} // verus!
