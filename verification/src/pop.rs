//! The cryptographic half of Shepherd's proof-of-possession token exchange:
//! the signature a client makes over the challenge, its identity URI and the
//! time, checked with the public key of the certificate it presents.
use crate::codec::{
    base64_std_decode, base64_std_decode_bytes, base64_url_decode, base64_url_decode_bytes, hex_decode, pem_certificates,
    pem_first_section, read_first_pem, read_pem_certificates, spec_hex_decode, PemSection, PemSectionView,
};
use crate::shepherd_auth::{api_error_is, ApiError};
use p256::ecdsa::signature::Verifier;
use x509_parser::prelude::FromDer;
use vstd::prelude::*;

verus! {

/// Name for the public-key bits `x509-parser` reads from certificate DER
/// (`subject_public_key.data`); `None` where the bytes are no certificate.
pub uninterp spec fn cert_key_bits(der: Seq<u8>) -> Option<Seq<u8>>;

/// `X509Certificate::from_der`, then `public_key().subject_public_key.data`.
/// The claim: the result is the name `cert_key_bits` of the bytes.
#[verifier::external_body]
fn cert_public_key_bits(der: &[u8]) -> (r: Option<Vec<u8>>)
    ensures
        match r {
            Some(b) => cert_key_bits(der@) == Some(b@),
            None => cert_key_bits(der@) is None,
        },
{
    let (_, cert) = x509_parser::certificate::X509Certificate::from_der(der).ok()?;
    Some(cert.public_key().subject_public_key.data.to_vec())
}

/// Name for whether `p256::ecdsa::VerifyingKey::from_sec1_bytes` accepts the bytes.
pub uninterp spec fn p256_sec1_key_ok(key: Seq<u8>) -> bool;

/// Name for whether `p256::ecdsa::Signature::from_der` accepts the bytes.
pub uninterp spec fn p256_der_signature_ok(sig: Seq<u8>) -> bool;

/// Name for whether `VerifyingKey::verify` accepts the DER signature of the
/// message under the SEC1 key (SHA-256 ECDSA on P-256).
pub uninterp spec fn p256_der_signature_valid(key: Seq<u8>, msg: Seq<u8>, sig: Seq<u8>) -> bool;

/// What checking a P-256 signature gave.
#[derive(Debug, Clone, Copy, PartialEq, Eq, Structural)]
pub enum SignatureCheck {
    BadKey,
    BadSignature,
    Mismatch,
    Valid,
}

/// `VerifyingKey::from_sec1_bytes`, `Signature::from_der` and `verify`, in
/// that order; each step's failure is told apart.
#[verifier::external_body]
fn p256_check_der(key: &[u8], msg: &[u8], sig: &[u8]) -> (r: SignatureCheck)
    ensures
        r == (if !p256_sec1_key_ok(key@) {
            SignatureCheck::BadKey
        } else if !p256_der_signature_ok(sig@) {
            SignatureCheck::BadSignature
        } else if p256_der_signature_valid(key@, msg@, sig@) {
            SignatureCheck::Valid
        } else {
            SignatureCheck::Mismatch
        }),
{
    let vk = match p256::ecdsa::VerifyingKey::from_sec1_bytes(key) {
        Ok(k) => k,
        Err(_) => return SignatureCheck::BadKey,
    };
    match p256::ecdsa::Signature::from_der(sig) {
        Ok(s) => if vk.verify(msg, &s).is_ok() { SignatureCheck::Valid } else { SignatureCheck::Mismatch },
        Err(_) => SignatureCheck::BadSignature,
    }
}

/// The signature bytes of a proof of possession: unpadded URL-safe Base64,
/// else standard Base64.
pub open spec fn pop_signature_bytes(text: Seq<char>) -> Option<Seq<u8>> {
    match base64_url_decode(text) {
        Some(b) => Some(b),
        None => base64_std_decode(text),
    }
}

/// Why the signature of a proof of possession fails, in the order of the
/// checks; `None` where it holds. The signed message is the challenge's
/// bytes, then the identity URI and the time in UTF-8.
pub open spec fn pop_signature_fault(
    cert_der: Seq<u8>,
    challenge_hex: Seq<char>,
    identity_uri: Seq<char>,
    issued_at: Seq<char>,
    signature: Seq<char>,
) -> Option<Seq<char>> {
    match spec_hex_decode(challenge_hex) {
        None => Some("Decoding PoP challenge hex"@),
        Some(challenge) => match pop_signature_bytes(signature) {
            None => Some("Decoding PoP signature base64"@),
            Some(sig) => match cert_key_bits(cert_der) {
                None => Some("Parsing cert DER"@),
                Some(key) => {
                    let msg = challenge + vstd::utf8::encode_utf8(identity_uri) + vstd::utf8::encode_utf8(issued_at);
                    if !p256_sec1_key_ok(key) {
                        Some("Parsing EC P-256 public key from cert"@)
                    } else if !p256_der_signature_ok(sig) {
                        Some("Parsing DER-encoded PoP signature"@)
                    } else if !p256_der_signature_valid(key, msg, sig) {
                        Some("EC P-256 PoP signature mismatch"@)
                    } else {
                        None
                    }
                },
            },
        },
    }
}

/// Checks the signature of a proof of possession (see `pop_signature_fault`);
/// a failure is unauthorized, its text after "PoP signature verification failed: ".
pub fn verify_pop_signature(
    cert_der: &[u8],
    challenge_hex: &str,
    identity_uri: &str,
    issued_at: &str,
    signature_b64: &str,
) -> (r: Result<(), ApiError>)
    ensures
        match pop_signature_fault(cert_der@, challenge_hex@, identity_uri@, issued_at@, signature_b64@) {
            None => r is Ok,
            Some(f) => r matches Err(e) && api_error_is(e, true, "PoP signature verification failed: "@ + f),
        },
{
    let challenge = match hex_decode(challenge_hex) {
        Some(c) => c,
        None => return Err(pop_failure("Decoding PoP challenge hex")),
    };
    let mut message = challenge;
    let uri_bytes = identity_uri.as_bytes();
    let at_bytes = issued_at.as_bytes();
    let ghost before = message@;
    let mut i: usize = 0;
    while i < uri_bytes.len()
        invariant
            i <= uri_bytes@.len(),
            message@ == before + uri_bytes@.subrange(0, i as int),
        decreases uri_bytes@.len() - i,
    {
        message.push(uri_bytes[i]);
        assert(message@ =~= before + uri_bytes@.subrange(0, i + 1));
        i = i + 1;
    }
    assert(uri_bytes@.subrange(0, uri_bytes@.len() as int) =~= uri_bytes@);
    let ghost mid = message@;
    let mut j: usize = 0;
    while j < at_bytes.len()
        invariant
            j <= at_bytes@.len(),
            message@ == mid + at_bytes@.subrange(0, j as int),
        decreases at_bytes@.len() - j,
    {
        message.push(at_bytes[j]);
        assert(message@ =~= mid + at_bytes@.subrange(0, j + 1));
        j = j + 1;
    }
    assert(at_bytes@.subrange(0, at_bytes@.len() as int) =~= at_bytes@);
    let sig = match base64_url_decode_bytes(signature_b64) {
        Some(s) => s,
        None => match base64_std_decode_bytes(signature_b64) {
            Some(s) => s,
            None => return Err(pop_failure("Decoding PoP signature base64")),
        },
    };
    let key = match cert_public_key_bits(cert_der) {
        Some(k) => k,
        None => return Err(pop_failure("Parsing cert DER")),
    };
    match p256_check_der(key.as_slice(), message.as_slice(), sig.as_slice()) {
        SignatureCheck::BadKey => Err(pop_failure("Parsing EC P-256 public key from cert")),
        SignatureCheck::BadSignature => Err(pop_failure("Parsing DER-encoded PoP signature")),
        SignatureCheck::Mismatch => Err(pop_failure("EC P-256 PoP signature mismatch")),
        SignatureCheck::Valid => Ok(()),
    }
}

fn pop_failure(why: &str) -> (e: ApiError)
    ensures
        api_error_is(e, true, "PoP signature verification failed: "@ + why@),
{
    let mut m = String::new();
    m.append("PoP signature verification failed: ");
    m.append(why);
    ApiError::Unauthorized(m)
}

/// The certificate of a proof of possession: the DER of the first PEM
/// section, where that is a certificate.
pub fn pop_pem_to_der(pem: &str) -> (r: Option<Vec<u8>>)
    ensures
        match pem_first_section(pem@) {
            Some(Some(PemSectionView::Certificate(der))) => r matches Some(d) && d@ == der,
            _ => r is None,
        },
{
    match read_first_pem(pem) {
        Some(Some(PemSection::Certificate(d))) => Some(d),
        _ => None,
    }
}

/// Name for whether `x509-parser` verifies `cert`'s signature with `issuer`'s
/// public key (false where either is no certificate).
pub uninterp spec fn signed_by(cert: Seq<u8>, issuer: Seq<u8>) -> bool;

/// `X509Certificate::from_der` on both, then `verify_signature` with the
/// issuer's public key. The claim: the result is the name `signed_by`.
#[verifier::external_body]
fn is_signed_by(cert_der: &[u8], issuer_der: &[u8]) -> (r: bool)
    ensures
        r == signed_by(cert_der@, issuer_der@),
{
    let Ok((_, cert)) = x509_parser::certificate::X509Certificate::from_der(cert_der) else {
        return false;
    };
    let Ok((_, issuer)) = x509_parser::certificate::X509Certificate::from_der(issuer_der) else {
        return false;
    };
    cert.verify_signature(Some(issuer.public_key())).is_ok()
}

/// The DER of each certificate.
pub open spec fn ders(v: Seq<Vec<u8>>) -> Seq<Seq<u8>> {
    v.map_values(|d: Vec<u8>| d@)
}

/// A path of intermediates from the bundle: each one of the chain's
/// intermediates, the first signed by a bundle certificate, each next one
/// signed by the one before.
pub open spec fn signs_path(bundle: Seq<Seq<u8>>, inter: Seq<Seq<u8>>, path: Seq<Seq<u8>>) -> bool {
    &&& path.len() > 0
    &&& forall|k: int| 0 <= k < path.len() ==> inter.contains(#[trigger] path[k])
    &&& exists|t: Seq<u8>| bundle.contains(t) && #[trigger] signed_by(path[0], t)
    &&& forall|k: int| 0 < k < path.len() ==> #[trigger] signed_by(path[k], path[k - 1])
}

/// A certificate the proof may be anchored in: one of the bundle, or an
/// intermediate at the end of a path from it.
pub open spec fn trusted_member(bundle: Seq<Seq<u8>>, inter: Seq<Seq<u8>>, c: Seq<u8>) -> bool {
    bundle.contains(c) || exists|path: Seq<Seq<u8>>| #[trigger] signs_path(bundle, inter, path) && path.last() == c
}

/// Why the certificate chain of a proof of possession fails against the
/// client CA bundle; `None` where its leaf (the first certificate) is signed
/// by a certificate the bundle anchors, through the chain's other
/// certificates.
pub open spec fn pop_cert_fault(bundle: Seq<Seq<u8>>, chain: Seq<Seq<u8>>) -> Option<Seq<char>> {
    if chain.len() == 0 {
        Some("pop.cert contains no parseable certificates"@)
    } else if exists|t: Seq<u8>| trusted_member(bundle, chain.drop_first(), t) && #[trigger] signed_by(chain[0], t) {
        None
    } else {
        Some("Certificate not signed by any cert in client CA bundle"@)
    }
}

/// The number of intermediates not (yet) among the trusted.
pub open spec fn count_out(s: Seq<Seq<u8>>, trusted: Seq<Seq<u8>>) -> nat
    decreases s.len(),
{
    if s.len() == 0 {
        0
    } else {
        count_out(s.drop_last(), trusted) + (if trusted.contains(s.last()) { 0nat } else { 1nat })
    }
}

/// Every intermediate is trusted, or signed by none of the trusted.
pub open spec fn closed(trusted: Seq<Seq<u8>>, inter: Seq<Seq<u8>>) -> bool {
    forall|c: Seq<u8>| #[trigger] inter.contains(c) ==> trusted.contains(c) || forall|t: Seq<u8>| trusted.contains(t) ==> !#[trigger] signed_by(c, t)
}

proof fn lemma_count_mono(s: Seq<Seq<u8>>, a: Seq<Seq<u8>>, b: Seq<Seq<u8>>)
    requires
        forall|x: Seq<u8>| a.contains(x) ==> b.contains(x),
    ensures
        count_out(s, b) <= count_out(s, a),
    decreases s.len(),
{
    if s.len() > 0 {
        lemma_count_mono(s.drop_last(), a, b);
    }
}

proof fn lemma_count_strict(s: Seq<Seq<u8>>, a: Seq<Seq<u8>>, b: Seq<Seq<u8>>, i: int)
    requires
        forall|x: Seq<u8>| a.contains(x) ==> b.contains(x),
        0 <= i < s.len(),
        !a.contains(s[i]),
        b.contains(s[i]),
    ensures
        count_out(s, b) < count_out(s, a),
    decreases s.len(),
{
    if i == s.len() - 1 {
        lemma_count_mono(s.drop_last(), a, b);
    } else {
        assert(s.drop_last()[i] == s[i]);
        lemma_count_strict(s.drop_last(), a, b, i);
    }
}

proof fn lemma_path_trusted(bundle: Seq<Seq<u8>>, inter: Seq<Seq<u8>>, trusted: Seq<Seq<u8>>, path: Seq<Seq<u8>>)
    requires
        forall|x: Seq<u8>| bundle.contains(x) ==> trusted.contains(x),
        closed(trusted, inter),
        signs_path(bundle, inter, path),
    ensures
        trusted.contains(path.last()),
    decreases path.len(),
{
    if path.len() == 1 {
        let t = choose|t: Seq<u8>| bundle.contains(t) && #[trigger] signed_by(path[0], t);
        assert(inter.contains(path[0]));
        assert(trusted.contains(t));
    } else {
        let front = path.drop_last();
        assert forall|k: int| 0 <= k < front.len() implies inter.contains(#[trigger] front[k]) by {
            assert(front[k] == path[k]);
            assert(inter.contains(path[k]));
        }
        assert forall|k: int| 0 < k < front.len() implies #[trigger] signed_by(front[k], front[k - 1]) by {
            assert(front[k] == path[k] && front[k - 1] == path[k - 1]);
            assert(signed_by(path[k], path[k - 1]));
        }
        let t0 = choose|t: Seq<u8>| bundle.contains(t) && #[trigger] signed_by(path[0], t);
        assert(front[0] == path[0]);
        assert(bundle.contains(t0) && signed_by(front[0], t0));
        lemma_path_trusted(bundle, inter, trusted, front);
        let last = path.len() - 1;
        assert(front.last() == path[last - 1]);
        assert(signed_by(path[last], path[last - 1]));
        assert(inter.contains(path[last]));
    }
}

proof fn lemma_extend_member(bundle: Seq<Seq<u8>>, inter: Seq<Seq<u8>>, t: Seq<u8>, c: Seq<u8>)
    requires
        trusted_member(bundle, inter, t),
        inter.contains(c),
        signed_by(c, t),
    ensures
        trusted_member(bundle, inter, c),
{
    if bundle.contains(t) {
        let p = seq![c];
        assert(p[0] == c);
        assert(signs_path(bundle, inter, p));
    } else {
        let p = choose|path: Seq<Seq<u8>>| #[trigger] signs_path(bundle, inter, path) && path.last() == t;
        let q = p.push(c);
        assert forall|k: int| 0 <= k < q.len() implies inter.contains(#[trigger] q[k]) by {
            if k < p.len() {
                assert(q[k] == p[k]);
                assert(inter.contains(p[k]));
            }
        }
        assert forall|k: int| 0 < k < q.len() implies #[trigger] signed_by(q[k], q[k - 1]) by {
            if k < p.len() {
                assert(q[k] == p[k] && q[k - 1] == p[k - 1]);
                assert(signed_by(p[k], p[k - 1]));
            } else {
                assert(q[k - 1] == p.last());
            }
        }
        let t0 = choose|t: Seq<u8>| bundle.contains(t) && #[trigger] signed_by(p[0], t);
        assert(q[0] == p[0]);
        assert(bundle.contains(t0) && signed_by(q[0], t0));
        assert(signs_path(bundle, inter, q));
        assert(q.last() == c);
    }
}

fn bytes_equal(a: &[u8], b: &[u8]) -> (r: bool)
    ensures
        r == (a@ == b@),
{
    if a.len() != b.len() {
        return false;
    }
    let mut i: usize = 0;
    while i < a.len()
        invariant
            a@.len() == b@.len(),
            i <= a@.len(),
            forall|k: int| 0 <= k < i ==> a@[k] == b@[k],
        decreases a@.len() - i,
    {
        if a[i] != b[i] {
            return false;
        }
        i = i + 1;
    }
    assert(a@ =~= b@);
    true
}

fn holds_der(trusted: &Vec<Vec<u8>>, c: &Vec<u8>) -> (r: bool)
    ensures
        r == ders(trusted@).contains(c@),
{
    let mut j: usize = 0;
    while j < trusted.len()
        invariant
            j <= trusted@.len(),
            forall|k: int| 0 <= k < j ==> trusted@[k]@ != c@,
        decreases trusted@.len() - j,
    {
        if bytes_equal(trusted[j].as_slice(), c.as_slice()) {
            assert(ders(trusted@)[j as int] == c@);
            return true;
        }
        j = j + 1;
    }
    proof {
        if ders(trusted@).contains(c@) {
            let k = choose|k: int| 0 <= k < ders(trusted@).len() && ders(trusted@)[k] == c@;
            assert(trusted@[k]@ == c@);
        }
    }
    false
}

fn find_signer(trusted: &Vec<Vec<u8>>, c: &Vec<u8>) -> (r: Option<usize>)
    ensures
        match r {
            Some(j) => j < trusted@.len() && signed_by(c@, trusted@[j as int]@),
            None => forall|t: Seq<u8>| ders(trusted@).contains(t) ==> !#[trigger] signed_by(c@, t),
        },
{
    let mut j: usize = 0;
    while j < trusted.len()
        invariant
            j <= trusted@.len(),
            forall|k: int| 0 <= k < j ==> !signed_by(c@, #[trigger] trusted@[k]@),
        decreases trusted@.len() - j,
    {
        if is_signed_by(c.as_slice(), trusted[j].as_slice()) {
            return Some(j);
        }
        j = j + 1;
    }
    proof {
        assert forall|t: Seq<u8>| ders(trusted@).contains(t) implies !#[trigger] signed_by(c@, t) by {
            let k = choose|k: int| 0 <= k < ders(trusted@).len() && ders(trusted@)[k] == t;
            assert(trusted@[k]@ == t);
        }
    }
    None
}

/// Checks the certificate chain of a proof of possession (PEM, leaf first)
/// against the client CA bundle (PEM): the bundle's certificates are trusted,
/// and any other certificate of the chain signed by a trusted one becomes
/// trusted, until none is added; the leaf must be signed by a trusted one.
pub fn verify_pop_cert(chain_pem: &str, ca_pem: &str) -> (r: Result<(), String>)
    ensures
        match pop_cert_fault(pem_certificates(ca_pem@), pem_certificates(chain_pem@)) {
            None => r is Ok,
            Some(m) => r matches Err(e) && e@ == m,
        },
{
    let bundle_v = read_pem_certificates(ca_pem);
    let chain = read_pem_certificates(chain_pem);
    let ghost bundle = ders(bundle_v@);
    let ghost chain_s = ders(chain@);
    assert(bundle == pem_certificates(ca_pem@));
    assert(chain_s == pem_certificates(chain_pem@));
    if chain.len() == 0 {
        return Err("pop.cert contains no parseable certificates".to_owned());
    }
    let ghost inter = chain_s.drop_first();
    let n = chain.len();
    let mut trusted = bundle_v;
    proof {
        assert forall|i: int| 0 <= i < trusted@.len() implies trusted_member(bundle, inter, #[trigger] trusted@[i]@) by {
            assert(bundle[i] == trusted@[i]@);
        }
    }
    let mut changed = true;
    while changed
        invariant
            n == chain@.len(),
            n > 0,
            chain_s == ders(chain@),
            inter == chain_s.drop_first(),
            forall|x: Seq<u8>| bundle.contains(x) ==> ders(trusted@).contains(x),
            forall|i: int| 0 <= i < trusted@.len() ==> trusted_member(bundle, inter, #[trigger] trusted@[i]@),
            !changed ==> closed(ders(trusted@), inter),
        decreases 2 * count_out(inter, ders(trusted@)) + (if changed { 1int } else { 0int }),
    {
        changed = false;
        let ghost start = ders(trusted@);
        let mut k: usize = 1;
        while k < n
            invariant
                n == chain@.len(),
                n > 0,
                1 <= k <= n,
                chain_s == ders(chain@),
                inter == chain_s.drop_first(),
                forall|x: Seq<u8>| bundle.contains(x) ==> ders(trusted@).contains(x),
                forall|i: int| 0 <= i < trusted@.len() ==> trusted_member(bundle, inter, #[trigger] trusted@[i]@),
                forall|x: Seq<u8>| start.contains(x) ==> ders(trusted@).contains(x),
                !changed ==> ders(trusted@) == start,
                changed ==> count_out(inter, ders(trusted@)) < count_out(inter, start),
                !changed ==> forall|j: int|
                    1 <= j < k ==> start.contains(#[trigger] chain_s[j]) || forall|t: Seq<u8>| start.contains(t) ==> !#[trigger] signed_by(chain_s[j], t),
            decreases n - k,
        {
            let cand = &chain[k];
            assert(chain_s[k as int] == cand@);
            assert(inter[k - 1] == cand@);
            assert(inter.contains(cand@));
            if !holds_der(&trusted, cand) {
                match find_signer(&trusted, cand) {
                    Some(s) => {
                        let ghost before = ders(trusted@);
                        let ghost tv = trusted@;
                        proof {
                            lemma_extend_member(bundle, inter, trusted@[s as int]@, cand@);
                            assert(!start.contains(cand@));
                        }
                        let copy = vstd::slice::slice_to_vec(cand.as_slice());
                        trusted.push(copy);
                        proof {
                            let after = ders(trusted@);
                            assert(after =~= before.push(cand@));
                            assert forall|x: Seq<u8>| before.contains(x) implies after.contains(x) by {
                                let w = choose|w: int| 0 <= w < before.len() && before[w] == x;
                                assert(after[w] == x);
                            }
                            assert(after[after.len() - 1] == cand@);
                            assert(after.contains(cand@));
                            lemma_count_strict(inter, start, after, k - 1);
                            if changed {
                                lemma_count_mono(inter, before, after);
                            }
                            assert forall|i: int| 0 <= i < trusted@.len() implies trusted_member(bundle, inter, #[trigger] trusted@[i]@) by {
                                if i < trusted@.len() - 1 {
                                    assert(trusted@[i] == tv[i]);
                                } else {
                                    assert(trusted@[i]@ == cand@);
                                }
                            }
                        }
                        changed = true;
                    },
                    None => {},
                }
            }
            k = k + 1;
        }
        proof {
            if !changed {
                assert forall|c: Seq<u8>| #[trigger] inter.contains(c) implies ders(trusted@).contains(c) || forall|t: Seq<u8>|
                    ders(trusted@).contains(t) ==> !#[trigger] signed_by(c, t) by {
                    let w = choose|w: int| 0 <= w < inter.len() && inter[w] == c;
                    assert(chain_s[w + 1] == c);
                }
            }
        }
    }
    let leaf = &chain[0];
    assert(chain_s[0] == leaf@);
    match find_signer(&trusted, leaf) {
        Some(s) => {
            assert(trusted_member(bundle, inter, trusted@[s as int]@));
            assert(signed_by(chain_s[0], trusted@[s as int]@));
            Ok(())
        },
        None => {
            proof {
                if exists|t: Seq<u8>| trusted_member(bundle, inter, t) && #[trigger] signed_by(chain_s[0], t) {
                    let t = choose|t: Seq<u8>| trusted_member(bundle, inter, t) && #[trigger] signed_by(chain_s[0], t);
                    if !bundle.contains(t) {
                        let p = choose|path: Seq<Seq<u8>>| #[trigger] signs_path(bundle, inter, path) && path.last() == t;
                        lemma_path_trusted(bundle, inter, ders(trusted@), p);
                    }
                    assert(ders(trusted@).contains(t));
                }
            }
            Err("Certificate not signed by any cert in client CA bundle".to_owned())
        },
    }
}

} // verus!
