//! Hex, Base64, SHA-256 and PEM, reached through the outside crates that
//! implement them.
use base64::Engine;
use sha2::Digest;
use vstd::prelude::*;

verus! {

/// Value of one hexadecimal digit, either case.
pub open spec fn hex_digit_val(c: char) -> Option<nat> {
    if '0' <= c && c <= '9' {
        Some((c as u32 - '0' as u32) as nat)
    } else if 'a' <= c && c <= 'f' {
        Some((c as u32 - 'a' as u32 + 10) as nat)
    } else if 'A' <= c && c <= 'F' {
        Some((c as u32 - 'A' as u32 + 10) as nat)
    } else {
        None
    }
}

pub open spec fn all_hex(s: Seq<char>) -> bool {
    forall|i: int| 0 <= i < s.len() ==> (#[trigger] hex_digit_val(s[i])) is Some
}

/// What `hex::decode` accepts and returns: an even number of hex digits,
/// two digits per byte, high nibble first.
pub open spec fn spec_hex_decode(s: Seq<char>) -> Option<Seq<u8>> {
    if s.len() % 2 == 0 && all_hex(s) {
        Some(
            Seq::new(
                s.len() / 2,
                |i: int|
                    (hex_digit_val(s[2 * i]).unwrap() * 16 + hex_digit_val(
                        s[2 * i + 1],
                    ).unwrap()) as u8,
            ),
        )
    } else {
        None
    }
}

/// Lower-case hex digit for a nibble.
pub open spec fn hex_char(n: nat) -> char {
    if n < 10 {
        ((n + '0' as u32) as u32) as char
    } else {
        ((n - 10 + 'a' as u32) as u32) as char
    }
}

/// What `hex::encode` returns: two lower-case digits per byte.
pub open spec fn spec_hex_encode(b: Seq<u8>) -> Seq<char> {
    Seq::new(
        b.len() * 2,
        |i: int|
            if i % 2 == 0 {
                hex_char((b[i / 2] / 16) as nat)
            } else {
                hex_char((b[i / 2] % 16) as nat)
            },
    )
}

/// `hex::decode`: `Some` with the decoded bytes exactly when the input is an
/// even number of hex digits.
#[verifier::external_body]
pub(crate) fn hex_decode(s: &str) -> (res: Option<Vec<u8>>)
    ensures
        match res {
            Some(v) => spec_hex_decode(s@) == Some(v@),
            None => spec_hex_decode(s@) is None,
        },
{
    hex::decode(s).ok()
}

/// `hex::encode`: two lower-case hex digits per byte.
#[verifier::external_body]
pub(crate) fn hex_encode(b: &[u8]) -> (res: String)
    ensures
        res@ == spec_hex_encode(b@),
{
    hex::encode(b)
}

/// Name for the SHA-256 digest of a byte string.
pub uninterp spec fn sha256(data: Seq<u8>) -> Seq<u8>;

/// `sha2::Sha256::digest`: the 32-byte SHA-256 digest of `data`.
#[verifier::external_body]
pub(crate) fn sha256_digest(data: &[u8]) -> (res: Vec<u8>)
    ensures
        res@ == sha256(data@),
        res@.len() == 32,
{
    sha2::Sha256::digest(data).to_vec()
}

/// Name for the standard (padded) Base64 text of a byte string.
pub uninterp spec fn base64_std(data: Seq<u8>) -> Seq<char>;

/// Name for the URL-safe, unpadded Base64 text of a byte string.
pub uninterp spec fn base64_url(data: Seq<u8>) -> Seq<char>;

/// Name for the bytes that URL-safe, unpadded Base64 text decodes to, if it decodes.
pub uninterp spec fn base64_url_decode(text: Seq<char>) -> Option<Seq<u8>>;

/// `base64::engine::general_purpose::STANDARD.encode`: padded standard Base64.
/// The text holds only ASCII characters.
#[verifier::external_body]
pub(crate) fn base64_std_encode(data: &[u8]) -> (res: String)
    ensures
        res@ == base64_std(data@),
        forall|i: int| 0 <= i < res@.len() ==> (#[trigger] res@[i] as u32) < 128,
{
    base64::engine::general_purpose::STANDARD.encode(data)
}

/// `base64::engine::general_purpose::URL_SAFE_NO_PAD.encode`.
#[verifier::external_body]
pub(crate) fn base64_url_encode(data: &[u8]) -> (res: String)
    ensures
        res@ == base64_url(data@),
{
    base64::engine::general_purpose::URL_SAFE_NO_PAD.encode(data)
}

/// `base64::engine::general_purpose::URL_SAFE_NO_PAD.decode`: the decoded
/// bytes, or `None` where the text is not valid unpadded URL-safe Base64.
#[verifier::external_body]
pub(crate) fn base64_url_decode_bytes(text: &str) -> (res: Option<Vec<u8>>)
    ensures
        match res {
            Some(v) => base64_url_decode(text@) == Some(v@),
            None => base64_url_decode(text@) is None,
        },
{
    base64::engine::general_purpose::URL_SAFE_NO_PAD.decode(text).ok()
}

/// Name for the bytes that standard (padded) Base64 text decodes to, if it decodes.
pub uninterp spec fn base64_std_decode(text: Seq<char>) -> Option<Seq<u8>>;

/// `base64::engine::general_purpose::STANDARD.decode`: the decoded bytes, or
/// `None` where the text is not valid padded standard Base64.
#[verifier::external_body]
pub(crate) fn base64_std_decode_bytes(text: &str) -> (res: Option<Vec<u8>>)
    ensures
        match res {
            Some(v) => base64_std_decode(text@) == Some(v@),
            None => base64_std_decode(text@) is None,
        },
{
    base64::engine::general_purpose::STANDARD.decode(text).ok()
}

/// Name for the contents that `pem::parse` finds in a PEM text, if it parses.
pub uninterp spec fn pem_contents(text: Seq<char>) -> Option<Seq<u8>>;

/// `pem::parse(..).into_contents()`: the DER bytes of the first PEM block, or
/// `None` where the text holds no well-formed block.
#[verifier::external_body]
pub(crate) fn pem_decode(text: &str) -> (res: Option<Vec<u8>>)
    ensures
        match res {
            Some(v) => pem_contents(text@) == Some(v@),
            None => pem_contents(text@) is None,
        },
{
    match pem::parse(text) {
        Ok(p) => Some(p.into_contents()),
        Err(_) => None,
    }
}

/// A PEM section as `rustls-pemfile` reads it: a certificate, a CSR, or
/// another supported kind.
pub enum PemSection {
    Certificate(Vec<u8>),
    Csr(Vec<u8>),
    Other,
}

/// A PEM section with its DER as a sequence.
pub enum PemSectionView {
    Certificate(Seq<u8>),
    Csr(Seq<u8>),
    Other,
}

impl View for PemSection {
    type V = PemSectionView;

    open spec fn view(&self) -> PemSectionView {
        match self {
            PemSection::Certificate(d) => PemSectionView::Certificate(d@),
            PemSection::Csr(d) => PemSectionView::Csr(d@),
            PemSection::Other => PemSectionView::Other,
        }
    }
}

/// Name for what `rustls_pemfile::read_one` gives on a text: `None` where
/// reading fails, `Some(None)` where there is no supported section, else the
/// first one.
pub uninterp spec fn pem_first_section(text: Seq<char>) -> Option<Option<PemSectionView>>;

/// `rustls_pemfile::read_one` over the text's bytes. The claim: the result is
/// the name `pem_first_section` of the text.
#[verifier::external_body]
pub(crate) fn read_first_pem(text: &str) -> (r: Option<Option<PemSection>>)
    ensures
        match r {
            None => pem_first_section(text@) is None,
            Some(None) => pem_first_section(text@) == Some(Option::<PemSectionView>::None),
            Some(Some(p)) => pem_first_section(text@) == Some(Some(p@)),
        },
{
    match rustls_pemfile::read_one(&mut std::io::BufReader::new(text.as_bytes())) {
        Err(_) => None,
        Ok(None) => Some(None),
        Ok(Some(rustls_pemfile::Item::X509Certificate(d))) => Some(Some(PemSection::Certificate(d.to_vec()))),
        Ok(Some(rustls_pemfile::Item::Csr(d))) => Some(Some(PemSection::Csr(d.to_vec()))),
        Ok(Some(_)) => Some(Some(PemSection::Other)),
    }
}

/// Name for the certificates `rustls_pemfile::certs` yields from a text, in
/// order, the sections it cannot read left out.
pub uninterp spec fn pem_certificates(text: Seq<char>) -> Seq<Seq<u8>>;

/// `rustls_pemfile::certs` over the text's bytes, errors skipped. The claim:
/// the result is the name `pem_certificates` of the text.
#[verifier::external_body]
pub(crate) fn read_pem_certificates(text: &str) -> (r: Vec<Vec<u8>>)
    ensures
        r@.map_values(|d: Vec<u8>| d@) == pem_certificates(text@),
{
    rustls_pemfile::certs(&mut std::io::BufReader::new(text.as_bytes())).flatten().map(|d| d.to_vec()).collect()
}

} // verus!
