//! Vigil's ACME server logic (RFC 8555): identifiers in base 36, URLs, JWK
//! thumbprints (RFC 7638), JWS signature checks, the JWS validation
//! decisions, new-order planning and order status.
use crate::codec::{base64_url, base64_url_decode, base64_url_decode_bytes, base64_url_encode, sha256, sha256_digest};
use crate::text::{chars_of, starts_with, starts_with_chars, string_from_chars};
use crate::types::{AcmeAccountRecord, AcmeRsaJwk};
use p256::ecdsa::signature::Verifier;
use p256::elliptic_curve::sec1::FromEncodedPoint;
use vstd::prelude::*;

verus! {

/// Base-36 digit: `0`-`9`, then `a`-`z`.
pub open spec fn b36_digit(d: nat) -> char {
    if d < 10 {
        (48 + d) as char
    } else {
        (87 + d) as char
    }
}

/// Lower-case base-36 text of `n`, without leading zeros (`0` for zero).
pub open spec fn spec_base36(n: nat) -> Seq<char>
    decreases n,
{
    if n < 36 {
        seq![b36_digit(n)]
    } else {
        spec_base36(n / 36).push(b36_digit(n % 36))
    }
}

pub fn base36(n: u64) -> (res: String)
    ensures
        res@ == spec_base36(n as nat),
    decreases n,
{
    let d = n % 36;
    let c: char = if d < 10 { ((48 + d) as u8) as char } else { ((87 + d) as u8) as char };
    assert(c == b36_digit(d as nat));
    let one: Vec<char> = vec![c];
    assert(one@ =~= seq![c]);
    if n < 36 {
        string_from_chars(one.as_slice())
    } else {
        let mut out = base36(n / 36);
        out.append(string_from_chars(one.as_slice()).as_str());
        out
    }
}

/// Value of a base-36 digit, either case (what `char::to_digit(36)` gives).
pub open spec fn b36_val(c: char) -> Option<nat> {
    if '0' <= c && c <= '9' {
        Some((c as u32 - 48) as nat)
    } else if 'a' <= c && c <= 'z' {
        Some((c as u32 - 87) as nat)
    } else if 'A' <= c && c <= 'Z' {
        Some((c as u32 - 55) as nat)
    } else {
        None
    }
}

pub open spec fn all_b36(s: Seq<char>) -> bool {
    forall|i: int| 0 <= i < s.len() ==> (#[trigger] b36_val(s[i])) is Some
}

pub open spec fn b36_value(s: Seq<char>) -> nat
    decreases s.len(),
{
    if s.len() == 0 {
        0
    } else {
        b36_value(s.drop_last()) * 36 + b36_val(s.last()).unwrap_or(0)
    }
}

/// What `u64::from_str_radix(s, 36)` accepts: an optional `+`, then one or
/// more base-36 digits whose value fits in 64 bits.
pub open spec fn parse_b36_u64(s: Seq<char>) -> Option<nat> {
    let body = if s.len() > 0 && s[0] == '+' {
        s.drop_first()
    } else {
        s
    };
    if body.len() > 0 && all_b36(body) && b36_value(body) <= u64::MAX {
        Some(b36_value(body))
    } else {
        None
    }
}

/// The counter an account id carries: `acct-` and a base-36 number; 0 otherwise.
pub open spec fn spec_account_counter(id: Seq<char>) -> nat {
    if starts_with(id, "acct-"@) {
        match parse_b36_u64(id.subrange(5, id.len() as int)) {
            Some(v) => v,
            None => 0,
        }
    } else {
        0
    }
}

fn b36_digit_value(c: char) -> (r: Option<u64>)
    ensures
        match r {
            Some(v) => b36_val(c) == Some(v as nat) && v < 36,
            None => b36_val(c) is None,
        },
{
    if '0' <= c && c <= '9' {
        Some((c as u32 - 48) as u64)
    } else if 'a' <= c && c <= 'z' {
        Some((c as u32 - 87) as u64)
    } else if 'A' <= c && c <= 'Z' {
        Some((c as u32 - 55) as u64)
    } else {
        None
    }
}

proof fn lemma_b36_prefix_le(s: Seq<char>, k: int)
    requires
        all_b36(s),
        0 <= k <= s.len(),
    ensures
        b36_value(s.subrange(0, k)) <= b36_value(s),
    decreases s.len() - k,
{
    if k < s.len() {
        let t = s.drop_last();
        assert(all_b36(t)) by {
            assert forall|i: int| 0 <= i < t.len() implies (#[trigger] b36_val(t[i])) is Some by {
                assert(t[i] == s[i]);
            }
        }
        lemma_b36_prefix_le(t, k);
        assert(t.subrange(0, k) =~= s.subrange(0, k));
    } else {
        assert(s.subrange(0, k) =~= s);
    }
}

/// `u64::from_str_radix(s, 36)` on characters.
fn parse_b36(s: &[char]) -> (res: Option<u64>)
    ensures
        match res {
            Some(v) => parse_b36_u64(s@) == Some(v as nat),
            None => parse_b36_u64(s@) is None,
        },
{
    let start: usize = if s.len() > 0 && s[0] == '+' { 1 } else { 0 };
    let ghost body = if s@.len() > 0 && s@[0] == '+' { s@.drop_first() } else { s@ };
    assert(body =~= s@.subrange(start as int, s@.len() as int));
    if start >= s.len() {
        return None;
    }
    let mut acc: u64 = 0;
    let mut i: usize = start;
    while i < s.len()
        invariant
            start <= i <= s@.len(),
            body == s@.subrange(start as int, s@.len() as int),
            body == (if s@.len() > 0 && s@[0] == '+' { s@.drop_first() } else { s@ }),
            forall|k: int| start <= k < i ==> (#[trigger] b36_val(s@[k])) is Some,
            acc as nat == b36_value(s@.subrange(start as int, i as int)),
        decreases s@.len() - i,
    {
        let ghost pre = s@.subrange(start as int, i as int);
        let ghost nxt = s@.subrange(start as int, i + 1);
        assert(nxt.drop_last() =~= pre);
        let d = match b36_digit_value(s[i]) {
            Some(d) => d,
            None => {
                assert(body[i - start] == s@[i as int]);
                return None;
            },
        };
        if acc > (u64::MAX - d) / 36 {
            proof {
                assert(b36_value(nxt) == acc * 36 + d);
                assert(acc * 36 + d > u64::MAX) by (nonlinear_arith)
                    requires acc > (u64::MAX - d) / 36, d < 36;
                if all_b36(body) {
                    lemma_b36_prefix_le(body, i + 1 - start);
                    assert(body.subrange(0, i + 1 - start) =~= nxt);
                }
            }
            return None;
        }
        proof {
            assert(acc * 36 + d <= u64::MAX) by (nonlinear_arith)
                requires acc <= (u64::MAX - d) / 36, d < 36;
        }
        acc = acc * 36 + d;
        i = i + 1;
    }
    assert(s@.subrange(start as int, i as int) =~= body);
    assert(all_b36(body)) by {
        assert forall|k: int| 0 <= k < body.len() implies (#[trigger] b36_val(body[k])) is Some by {
            assert(body[k] == s@[start + k]);
        }
    }
    Some(acc)
}

/// The counter an account id carries (see `spec_account_counter`).
pub fn account_counter_from_id(id: &str) -> (n: u64)
    ensures
        n as nat == spec_account_counter(id@),
{
    let chars = chars_of(id);
    let prefix: Vec<char> = vec!['a', 'c', 'c', 't', '-'];
    proof {
        reveal_strlit("acct-");
        assert(prefix@ =~= "acct-"@);
    }
    if !starts_with_chars(chars.as_slice(), prefix.as_slice()) {
        return 0;
    }
    let rest = &chars.as_slice()[5..chars.len()];
    match parse_b36(rest) {
        Some(v) => v,
        None => 0,
    }
}

proof fn lemma_b36_digit(d: nat)
    requires
        d < 36,
    ensures
        b36_val(b36_digit(d)) == Some(d),
        b36_digit(d) != '+',
{
    let c = b36_digit(d);
    if d < 10 {
        vstd::utf8::char_u32_cast(c, (48 + d) as u32);
    } else {
        vstd::utf8::char_u32_cast(c, (87 + d) as u32);
    }
}

proof fn lemma_base36_reads_back(n: nat)
    ensures
        all_b36(spec_base36(n)),
        b36_value(spec_base36(n)) == n,
        spec_base36(n).len() > 0,
        spec_base36(n)[0] != '+',
    decreases n,
{
    if n < 36 {
        lemma_b36_digit(n);
        let s = spec_base36(n);
        assert(s.drop_last() =~= Seq::<char>::empty());
        assert(b36_value(s.drop_last()) == 0);
        assert(s.last() == b36_digit(n));
        assert(b36_value(s) == n);
    } else {
        lemma_base36_reads_back(n / 36);
        lemma_b36_digit(n % 36);
        let s = spec_base36(n);
        assert(s.drop_last() =~= spec_base36(n / 36));
        assert(s.last() == b36_digit(n % 36));
        assert((n / 36) * 36 + n % 36 == n) by (nonlinear_arith);
        assert(b36_value(s) == b36_value(spec_base36(n / 36)) * 36 + (n % 36));
        assert(all_b36(s)) by {
            assert forall|i: int| 0 <= i < s.len() implies (#[trigger] b36_val(s[i])) is Some by {
                if i < s.len() - 1 {
                    assert(s[i] == spec_base36(n / 36)[i]);
                }
            }
        }
        assert(s[0] == spec_base36(n / 36)[0]);
    }
}

/// An account id built from a counter reads back as that counter.
pub proof fn lemma_account_counter_roundtrip(n: u64)
    ensures
        spec_account_counter("acct-"@ + spec_base36(n as nat)) == n,
{
    reveal_strlit("acct-");
    let id = "acct-"@ + spec_base36(n as nat);
    lemma_base36_reads_back(n as nat);
    assert(id.subrange(0, 5) =~= "acct-"@);
    assert(id.subrange(5, id.len() as int) =~= spec_base36(n as nat));
}

/// `scheme://host`.
pub fn base_url(host: &str, scheme: &str) -> (res: String)
    ensures
        res@ == scheme@ + "://"@ + host@,
{
    let mut out = String::from_str(scheme);
    out.append("://");
    out.append(host);
    out
}

/// `scheme://host` followed by `path`.
pub fn absolute(host: &str, scheme: &str, path: &str) -> (res: String)
    ensures
        res@ == scheme@ + "://"@ + host@ + path@,
{
    let mut out = base_url(host, scheme);
    out.append(path);
    out
}

pub open spec fn is_ec(jwk: &AcmeRsaJwk) -> bool {
    jwk.kty@ == "EC"@
}

/// RFC 7638 canonical JSON of a JWK: for EC `crv`, `kty`, `x`, `y`; for any
/// other key type `e`, `kty`, `n`; members in that order.
pub open spec fn jwk_canonical(jwk: &AcmeRsaJwk) -> Seq<char> {
    if is_ec(jwk) {
        "{\"crv\":\""@ + jwk.crv@ + "\",\"kty\":\""@ + jwk.kty@ + "\",\"x\":\""@ + jwk.x@
            + "\",\"y\":\""@ + jwk.y@ + "\"}"@
    } else {
        "{\"e\":\""@ + jwk.e@ + "\",\"kty\":\""@ + jwk.kty@ + "\",\"n\":\""@ + jwk.n@ + "\"}"@
    }
}

/// The JWK thumbprint: URL-safe unpadded Base64 of the SHA-256 of the canonical JSON.
pub open spec fn spec_jwk_thumbprint(jwk: &AcmeRsaJwk) -> Seq<char> {
    base64_url(sha256(vstd::utf8::encode_utf8(jwk_canonical(jwk))))
}

fn text_is(s: &String, lit: &str) -> (b: bool)
    ensures
        b == (s@ == lit@),
{
    *s == lit.to_owned()
}

pub fn jwk_thumbprint(jwk: &AcmeRsaJwk) -> (res: String)
    ensures
        res@ == spec_jwk_thumbprint(jwk),
{
    let mut c: String;
    if text_is(&jwk.kty, "EC") {
        c = String::from_str("{\"crv\":\"");
        c.append(jwk.crv.as_str());
        c.append("\",\"kty\":\"");
        c.append(jwk.kty.as_str());
        c.append("\",\"x\":\"");
        c.append(jwk.x.as_str());
        c.append("\",\"y\":\"");
        c.append(jwk.y.as_str());
        c.append("\"}");
    } else {
        c = String::from_str("{\"e\":\"");
        c.append(jwk.e.as_str());
        c.append("\",\"kty\":\"");
        c.append(jwk.kty.as_str());
        c.append("\",\"n\":\"");
        c.append(jwk.n.as_str());
        c.append("\"}");
    }
    assert(c@ =~= jwk_canonical(jwk));
    let digest = sha256_digest(c.as_str().as_bytes());
    base64_url_encode(digest.as_slice())
}

/// Name for whether a DER-less (r‖s) ECDSA-P-256/SHA-256 signature verifies
/// over `msg` under the public point (x, y).
pub uninterp spec fn p256_signature_valid(x: Seq<u8>, y: Seq<u8>, msg: Seq<u8>, sig: Seq<u8>) -> bool;

/// Name for whether an RSA PKCS#1 v1.5 signature with SHA-256 verifies over
/// `msg` under the public key (n, e).
pub uninterp spec fn rs256_signature_valid(n: Seq<u8>, e: Seq<u8>, msg: Seq<u8>, sig: Seq<u8>) -> bool;

/// The same with SHA-384.
pub uninterp spec fn rs384_signature_valid(n: Seq<u8>, e: Seq<u8>, msg: Seq<u8>, sig: Seq<u8>) -> bool;

/// The same with SHA-512.
pub uninterp spec fn rs512_signature_valid(n: Seq<u8>, e: Seq<u8>, msg: Seq<u8>, sig: Seq<u8>) -> bool;

/// `p256::EncodedPoint::from_affine_coordinates` (uncompressed) into a
/// `PublicKey` and `VerifyingKey`, `Signature::from_slice`, then `verify`:
/// false where the point is not on the curve or the signature is malformed.
/// The coordinates must be 32 bytes (`FieldBytes::from_slice` panics otherwise).
#[verifier::external_body]
fn p256_verify(x: &[u8], y: &[u8], msg: &[u8], sig: &[u8]) -> (b: bool)
    requires
        x@.len() == 32,
        y@.len() == 32,
    ensures
        b == p256_signature_valid(x@, y@, msg@, sig@),
{
    #[allow(deprecated)]
    let point = p256::EncodedPoint::from_affine_coordinates(p256::FieldBytes::from_slice(x), p256::FieldBytes::from_slice(y), false);
    let pk = match p256::PublicKey::from_encoded_point(&point).into_option() {
        Some(k) => k,
        None => return false,
    };
    match p256::ecdsa::Signature::from_slice(sig) {
        Ok(sig) => p256::ecdsa::VerifyingKey::from(&pk).verify(msg, &sig).is_ok(),
        Err(_) => false,
    }
}

/// `rsa::RsaPublicKey::new` from big-endian n and e, then
/// `pkcs1v15::VerifyingKey::<Sha256>` and `verify`; false where the key or
/// signature is malformed.
#[verifier::external_body]
fn rs256_verify(n: &[u8], e: &[u8], msg: &[u8], sig: &[u8]) -> (b: bool)
    ensures
        b == rs256_signature_valid(n@, e@, msg@, sig@),
{
    let key = match rsa::RsaPublicKey::new(rsa::BigUint::from_bytes_be(n), rsa::BigUint::from_bytes_be(e)) {
        Ok(k) => k,
        Err(_) => return false,
    };
    match rsa::pkcs1v15::Signature::try_from(sig) {
        Ok(sig) => rsa::pkcs1v15::VerifyingKey::<sha2::Sha256>::new(key).verify(msg, &sig).is_ok(),
        Err(_) => false,
    }
}

/// As `rs256_verify`, with SHA-384.
#[verifier::external_body]
fn rs384_verify(n: &[u8], e: &[u8], msg: &[u8], sig: &[u8]) -> (b: bool)
    ensures
        b == rs384_signature_valid(n@, e@, msg@, sig@),
{
    let key = match rsa::RsaPublicKey::new(rsa::BigUint::from_bytes_be(n), rsa::BigUint::from_bytes_be(e)) {
        Ok(k) => k,
        Err(_) => return false,
    };
    match rsa::pkcs1v15::Signature::try_from(sig) {
        Ok(sig) => rsa::pkcs1v15::VerifyingKey::<sha2::Sha384>::new(key).verify(msg, &sig).is_ok(),
        Err(_) => false,
    }
}

/// As `rs256_verify`, with SHA-512.
#[verifier::external_body]
fn rs512_verify(n: &[u8], e: &[u8], msg: &[u8], sig: &[u8]) -> (b: bool)
    ensures
        b == rs512_signature_valid(n@, e@, msg@, sig@),
{
    let key = match rsa::RsaPublicKey::new(rsa::BigUint::from_bytes_be(n), rsa::BigUint::from_bytes_be(e)) {
        Ok(k) => k,
        Err(_) => return false,
    };
    match rsa::pkcs1v15::Signature::try_from(sig) {
        Ok(sig) => rsa::pkcs1v15::VerifyingKey::<sha2::Sha512>::new(key).verify(msg, &sig).is_ok(),
        Err(_) => false,
    }
}

/// The JWS signing input: `protected.payload`, as bytes.
pub open spec fn signing_input(protected_b64: Seq<char>, payload_b64: Seq<char>) -> Seq<u8> {
    vstd::utf8::encode_utf8(protected_b64 + "."@ + payload_b64)
}

fn signing_input_bytes(protected_b64: &str, payload_b64: &str) -> (v: Vec<u8>)
    ensures
        v@ == signing_input(protected_b64@, payload_b64@),
{
    let mut msg = String::from_str(protected_b64);
    msg.append(".");
    msg.append(payload_b64);
    vstd::slice::slice_to_vec(msg.as_str().as_bytes())
}

/// Where checking an EC JWS would stop the server: the key coordinates and
/// the signature decode, but a coordinate is not 32 bytes.
pub open spec fn ec_check_panics(sig_b64: Seq<char>, jwk: &AcmeRsaJwk) -> bool {
    &&& base64_url_decode(jwk.x@) is Some
    &&& base64_url_decode(jwk.y@) is Some
    &&& base64_url_decode(sig_b64) is Some
    &&& (base64_url_decode(jwk.x@)->0.len() != 32 || base64_url_decode(jwk.y@)->0.len() != 32)
}

/// Whether an ES256 JWS verifies under an EC JWK (false where a part does not decode).
pub open spec fn spec_ec_jws_valid(protected_b64: Seq<char>, payload_b64: Seq<char>, sig_b64: Seq<char>, jwk: &AcmeRsaJwk) -> bool {
    match (base64_url_decode(jwk.x@), base64_url_decode(jwk.y@), base64_url_decode(sig_b64)) {
        (Some(x), Some(y), Some(sig)) => p256_signature_valid(x, y, signing_input(protected_b64, payload_b64), sig),
        _ => false,
    }
}

pub fn verify_ec_jws(protected_b64: &str, payload_b64: &str, sig_b64: &str, jwk: &AcmeRsaJwk) -> (b: bool)
    requires
        !ec_check_panics(sig_b64@, jwk),
    ensures
        b == spec_ec_jws_valid(protected_b64@, payload_b64@, sig_b64@, jwk),
{
    let x = match base64_url_decode_bytes(jwk.x.as_str()) {
        Some(b) => b,
        None => return false,
    };
    let y = match base64_url_decode_bytes(jwk.y.as_str()) {
        Some(b) => b,
        None => return false,
    };
    let sig = match base64_url_decode_bytes(sig_b64) {
        Some(b) => b,
        None => return false,
    };
    let msg = signing_input_bytes(protected_b64, payload_b64);
    p256_verify(x.as_slice(), y.as_slice(), msg.as_slice(), sig.as_slice())
}

/// Whether an RS256/RS384/RS512 JWS verifies under an RSA JWK (false where a
/// part does not decode or the algorithm is another).
pub open spec fn spec_rsa_jws_valid(protected_b64: Seq<char>, payload_b64: Seq<char>, sig_b64: Seq<char>, jwk: &AcmeRsaJwk, alg: Seq<char>) -> bool {
    match (base64_url_decode(jwk.n@), base64_url_decode(jwk.e@), base64_url_decode(sig_b64)) {
        (Some(n), Some(e), Some(sig)) => {
            let msg = signing_input(protected_b64, payload_b64);
            if alg == "RS256"@ {
                rs256_signature_valid(n, e, msg, sig)
            } else if alg == "RS384"@ {
                rs384_signature_valid(n, e, msg, sig)
            } else if alg == "RS512"@ {
                rs512_signature_valid(n, e, msg, sig)
            } else {
                false
            }
        },
        _ => false,
    }
}

pub fn verify_rsa_jws(protected_b64: &str, payload_b64: &str, sig_b64: &str, jwk: &AcmeRsaJwk, alg: &str) -> (b: bool)
    ensures
        b == spec_rsa_jws_valid(protected_b64@, payload_b64@, sig_b64@, jwk, alg@),
{
    let n = match base64_url_decode_bytes(jwk.n.as_str()) {
        Some(b) => b,
        None => return false,
    };
    let e = match base64_url_decode_bytes(jwk.e.as_str()) {
        Some(b) => b,
        None => return false,
    };
    let sig = match base64_url_decode_bytes(sig_b64) {
        Some(b) => b,
        None => return false,
    };
    let msg = signing_input_bytes(protected_b64, payload_b64);
    let a = alg.to_owned();
    if text_is(&a, "RS256") {
        rs256_verify(n.as_slice(), e.as_slice(), msg.as_slice(), sig.as_slice())
    } else if text_is(&a, "RS384") {
        rs384_verify(n.as_slice(), e.as_slice(), msg.as_slice(), sig.as_slice())
    } else if text_is(&a, "RS512") {
        rs512_verify(n.as_slice(), e.as_slice(), msg.as_slice(), sig.as_slice())
    } else {
        false
    }
}

proof fn lemma_encode_utf8_concat(a: Seq<char>, b: Seq<char>)
    ensures
        vstd::utf8::encode_utf8(a + b) == vstd::utf8::encode_utf8(a) + vstd::utf8::encode_utf8(b),
    decreases a.len(),
{
    if a.len() == 0 {
        assert(a + b =~= b);
        assert(vstd::utf8::encode_utf8(a) =~= Seq::<u8>::empty());
        assert(vstd::utf8::encode_utf8(a) + vstd::utf8::encode_utf8(b) =~= vstd::utf8::encode_utf8(b));
    } else {
        lemma_encode_utf8_concat(a.drop_first(), b);
        assert((a + b).drop_first() =~= a.drop_first() + b);
        assert((a + b)[0] == a[0]);
        let head = vstd::utf8::encode_scalar(a[0] as u32);
        assert(head + (vstd::utf8::encode_utf8(a.drop_first()) + vstd::utf8::encode_utf8(b))
            =~= (head + vstd::utf8::encode_utf8(a.drop_first())) + vstd::utf8::encode_utf8(b));
    }
}

/// The bytes a JWS is signed over (RFC 7515, section 5.2).
pub open spec fn jws_input_bytes(protected_b64: Seq<char>, payload_b64: Seq<char>) -> Seq<u8> {
    vstd::utf8::encode_utf8(protected_b64) + seq![46u8] + vstd::utf8::encode_utf8(payload_b64)
}

/// A JWS is signed over the bytes of the protected header, a full stop
/// (byte 46), then the bytes of the payload: an ES256 signature, and an
/// RS256, RS384 or RS512 one, verifies exactly when it is valid for those
/// bytes under the JWK's key.
pub proof fn law_jws_signed_over_protected_dot_payload(
    protected_b64: Seq<char>,
    payload_b64: Seq<char>,
    sig_b64: Seq<char>,
    jwk: &AcmeRsaJwk,
    alg: Seq<char>,
)
    ensures
        signing_input(protected_b64, payload_b64) == jws_input_bytes(protected_b64, payload_b64),
        (base64_url_decode(jwk.x@), base64_url_decode(jwk.y@), base64_url_decode(sig_b64)) matches (
            Some(x),
            Some(y),
            Some(sig),
        ) ==> spec_ec_jws_valid(protected_b64, payload_b64, sig_b64, jwk) == p256_signature_valid(
            x,
            y,
            jws_input_bytes(protected_b64, payload_b64),
            sig,
        ),
        (base64_url_decode(jwk.n@), base64_url_decode(jwk.e@), base64_url_decode(sig_b64)) matches (
            Some(n),
            Some(e),
            Some(sig),
        ) ==> {
            let msg = jws_input_bytes(protected_b64, payload_b64);
            &&& alg == "RS256"@ ==> spec_rsa_jws_valid(protected_b64, payload_b64, sig_b64, jwk, alg)
                == rs256_signature_valid(n, e, msg, sig)
            &&& alg == "RS384"@ ==> spec_rsa_jws_valid(protected_b64, payload_b64, sig_b64, jwk, alg)
                == rs384_signature_valid(n, e, msg, sig)
            &&& alg == "RS512"@ ==> spec_rsa_jws_valid(protected_b64, payload_b64, sig_b64, jwk, alg)
                == rs512_signature_valid(n, e, msg, sig)
        },
{
    reveal_strlit(".");
    reveal_strlit("RS256");
    reveal_strlit("RS384");
    reveal_strlit("RS512");
    assert("RS384"@[2] != "RS256"@[2]);
    assert("RS512"@[2] != "RS256"@[2]);
    assert("RS512"@[2] != "RS384"@[2]);
    let dot: Seq<char> = "."@;
    assert(dot =~= seq!['.']);
    assert(('.' as u32) == 46u32);
    assert((46u32 & 0x7Fu32) as u8 == 46u8) by (bit_vector);
    assert(dot.drop_first() =~= Seq::<char>::empty());
    assert(vstd::utf8::encode_utf8(dot.drop_first()) =~= Seq::<u8>::empty());
    assert(vstd::utf8::encode_utf8(dot) =~= seq![46u8]);
    lemma_encode_utf8_concat(protected_b64, dot);
    lemma_encode_utf8_concat(protected_b64 + dot, payload_b64);
}

/// An ACME problem answer: HTTP status, problem type (the part after
/// `urn:ietf:params:acme:error:`), and detail.
#[derive(Debug)]
pub struct AcmeProblem {
    pub status: u16,
    pub kind: String,
    pub detail: String,
    /// The fresh nonce sent back with a bad-nonce refusal (`Replay-Nonce`).
    pub replay_nonce: Option<String>,
}

pub open spec fn problem_is(p: AcmeProblem, status: u16, kind: Seq<char>, detail: Seq<char>) -> bool {
    p.status == status && p.kind@ == kind && p.detail@ == detail
}

pub(crate) fn problem(status: u16, kind: &str, detail: &str) -> (p: AcmeProblem)
    ensures
        problem_is(p, status, kind@, detail@),
        p.replay_nonce is None,
{
    AcmeProblem { status, kind: kind.to_owned(), detail: detail.to_owned(), replay_nonce: None }
}

/// The three parts of a JWS in flattened JSON serialization.
pub struct JwsBody {
    pub protected_b64: String,
    pub payload_b64: String,
    pub signature_b64: String,
}

impl JwsBody {
    /// The bytes of the protected header (its JSON), where its text is
    /// URL-safe unpadded Base64.
    pub fn protected_bytes(&self) -> (r: Option<Vec<u8>>)
        ensures
            match r {
                Some(b) => base64_url_decode(self.protected_b64@) == Some(b@),
                None => base64_url_decode(self.protected_b64@) is None,
            },
    {
        base64_url_decode_bytes(self.protected_b64.as_str())
    }

    /// The bytes of the payload: `Ok(None)` for an empty payload (a
    /// POST-as-GET), else its decoded bytes, `Err` where it is not URL-safe
    /// unpadded Base64.
    pub fn payload_bytes(&self) -> (r: Result<Option<Vec<u8>>, ()>)
        ensures
            self.payload_b64@.len() == 0 ==> r == Ok::<Option<Vec<u8>>, ()>(None),
            self.payload_b64@.len() > 0 ==> match base64_url_decode(self.payload_b64@) {
                Some(b) => r matches Ok(Some(v)) && v@ == b,
                None => r is Err,
            },
    {
        if self.payload_b64.as_str().unicode_len() == 0 {
            return Ok(None);
        }
        match base64_url_decode_bytes(self.payload_b64.as_str()) {
            Some(b) => Ok(Some(b)),
            None => Err(()),
        }
    }
}

/// What the validation reads of a protected header: `nonce` and `alg` (empty
/// where absent or not strings), `kid` where it is a string, and the JWK where
/// a `jwk` member is present (its fields empty where absent).
pub struct ProtectedHeader {
    pub nonce: String,
    pub alg: String,
    pub kid: Option<String>,
    pub jwk: Option<AcmeRsaJwk>,
}

/// Who signed a JWS: a new key (with its thumbprint), or an existing account
/// (its id and its place in the account list).
pub enum JwsSigner {
    Jwk(AcmeRsaJwk, String),
    Account(String, usize),
}

/// The replay nonces the server has handed out and not yet seen back.
pub struct NonceStore {
    pub nonces: Vec<String>,
}

pub open spec fn texts(v: Seq<String>) -> Seq<Seq<char>> {
    v.map_values(|s: String| s@)
}

impl NonceStore {
    /// Takes a nonce back: true, and the first copy removed, where it was held.
    pub fn consume(&mut self, nonce: &String) -> (found: bool)
        ensures
            found == texts(old(self).nonces@).contains(nonce@),
            found ==> exists|k: int|
                0 <= k < old(self).nonces@.len() && old(self).nonces@[k]@ == nonce@ && (forall|j: int|
                    0 <= j < k ==> old(self).nonces@[j]@ != nonce@) && final(self).nonces@
                    == old(self).nonces@.remove(k),
            !found ==> final(self).nonces@ == old(self).nonces@,
    {
        let mut i: usize = 0;
        while i < self.nonces.len()
            invariant
                i <= self.nonces@.len(),
                self.nonces@ == old(self).nonces@,
                forall|j: int| 0 <= j < i ==> (#[trigger] self.nonces@[j])@ != nonce@,
            decreases self.nonces@.len() - i,
        {
            if self.nonces[i] == *nonce {
                assert(texts(self.nonces@)[i as int] == nonce@);
                self.nonces.remove(i);
                return true;
            }
            i = i + 1;
        }
        assert forall|k: int| 0 <= k < texts(old(self).nonces@).len() implies texts(old(self).nonces@)[k] != nonce@ by {
            assert(texts(old(self).nonces@)[k] == old(self).nonces@[k]@);
        }
        false
    }

    /// Hands out a new nonce.
    pub fn insert(&mut self, nonce: String)
        ensures
            final(self).nonces@ == old(self).nonces@.push(nonce),
    {
        self.nonces.push(nonce);
    }

    /// Adds a nonce to the set of those handed out (nothing changes where it
    /// is held already).
    pub fn offer(&mut self, nonce: String)
        ensures
            handed_out(old(self).nonces@, final(self).nonces@, nonce),
    {
        let mut i: usize = 0;
        while i < self.nonces.len()
            invariant
                i <= self.nonces@.len(),
                self.nonces@ == old(self).nonces@,
                forall|j: int| 0 <= j < i ==> (#[trigger] self.nonces@[j])@ != nonce@,
            decreases self.nonces@.len() - i,
        {
            if self.nonces[i] == nonce {
                assert(texts(self.nonces@)[i as int] == nonce@);
                return;
            }
            i = i + 1;
        }
        assert forall|k: int| 0 <= k < texts(old(self).nonces@).len() implies texts(old(self).nonces@)[k] != nonce@ by {
            assert(texts(old(self).nonces@)[k] == old(self).nonces@[k]@);
        }
        self.nonces.push(nonce);
    }
}

/// `new` is the set `old` with `f` added: unchanged where it held `f`, else
/// with `f` at the end.
pub open spec fn handed_out(old: Seq<String>, new: Seq<String>, f: String) -> bool {
    if texts(old).contains(f@) {
        new == old
    } else {
        new == old.push(f)
    }
}

/// A nonce as the server makes them: URL-safe Base64 of sixteen bytes.
pub open spec fn fresh_nonce(t: Seq<char>) -> bool {
    exists|b: Seq<u8>| b.len() == 16 && t == base64_url(b)
}

/// The text after the last `/` (all of it where there is none).
pub open spec fn last_segment(s: Seq<char>) -> Seq<char> {
    crate::text::split(s, '/').last()
}

fn last_segment_of(s: &String) -> (r: String)
    ensures
        r@ == last_segment(s@),
{
    let chars = chars_of(s.as_str());
    let parts = crate::text::split_chars(chars.as_slice(), '/');
    proof {
        crate::text::lemma_split_nonempty(s@, '/');
    }
    string_from_chars(parts[parts.len() - 1].as_slice())
}

pub open spec fn account_index(accounts: Seq<AcmeAccountRecord>, id: Seq<char>) -> Option<int> {
    if exists|i: int| 0 <= i < accounts.len() && (#[trigger] accounts[i]).id@ == id {
        Some(choose|i: int| 0 <= i < accounts.len() && (#[trigger] accounts[i]).id@ == id && forall|j: int| 0 <= j < i ==> accounts[j].id@ != id)
    } else {
        None
    }
}

pub(crate) fn find_account(accounts: &Vec<AcmeAccountRecord>, id: &String) -> (r: Option<usize>)
    ensures
        match r {
            Some(i) => i < accounts@.len() && accounts@[i as int].id@ == id@ && forall|j: int| 0 <= j < i ==> accounts@[j].id@ != id@,
            None => forall|j: int| 0 <= j < accounts@.len() ==> accounts@[j].id@ != id@,
        },
{
    let mut i: usize = 0;
    while i < accounts.len()
        invariant
            i <= accounts@.len(),
            forall|j: int| 0 <= j < i ==> (#[trigger] accounts@[j]).id@ != id@,
        decreases accounts@.len() - i,
    {
        if accounts[i].id == *id {
            return Some(i);
        }
        i = i + 1;
    }
    None
}

/// What the JWS validation concludes, step by step as the server takes the
/// steps: (status, problem type, detail) on refusal.
pub enum JwsVerdict {
    Jwk(AcmeRsaJwk),
    Account(int),
    Refused(u16, Seq<char>, Seq<char>),
}

pub open spec fn header_has_kid(h: ProtectedHeader) -> bool {
    h.kid matches Some(k) && k@.len() > 0
}

pub open spec fn spec_check_jws(
    body: Option<JwsBody>,
    header: Option<ProtectedHeader>,
    nonce_known: bool,
    payload_ok: bool,
    require_kid: bool,
    require_jwk: bool,
    auth_user_id: Option<Seq<char>>,
    accounts: Seq<AcmeAccountRecord>,
) -> JwsVerdict {
    match body {
        None => JwsVerdict::Refused(400, "malformed"@, "request body must be JWS with protected/payload/signature"@),
        Some(b) => match header {
            None => JwsVerdict::Refused(400, "malformed"@, "invalid protected header"@),
            Some(h) => {
                let has_kid = header_has_kid(h);
                let has_jwk = h.jwk is Some;
                if h.nonce@.len() == 0 || !nonce_known {
                    JwsVerdict::Refused(400, "badNonce"@, "missing or invalid replay nonce"@)
                } else if h.alg@.len() == 0 {
                    JwsVerdict::Refused(400, "malformed"@, "protected alg is required"@)
                } else if !has_kid && !has_jwk {
                    JwsVerdict::Refused(400, "malformed"@, "protected header must include kid or jwk"@)
                } else if has_kid && has_jwk {
                    JwsVerdict::Refused(400, "malformed"@, "protected header must contain either kid or jwk, not both"@)
                } else if require_kid && !has_kid {
                    JwsVerdict::Refused(400, "malformed"@, "protected kid is required"@)
                } else if require_jwk && !has_jwk {
                    JwsVerdict::Refused(400, "malformed"@, "protected jwk is required"@)
                } else if !payload_ok {
                    JwsVerdict::Refused(400, "malformed"@, "invalid JWS payload"@)
                } else if has_jwk {
                    let jwk = h.jwk->0;
                    if jwk.kty@ == "RSA"@ {
                        if jwk.n@.len() == 0 || jwk.e@.len() == 0 {
                            JwsVerdict::Refused(400, "badPublicKey"@, "RSA JWK missing n or e"@)
                        } else if !spec_rsa_jws_valid(b.protected_b64@, b.payload_b64@, b.signature_b64@, &jwk, h.alg@) {
                            JwsVerdict::Refused(400, "badSignatureAlgorithm"@, "invalid JWS signature or unsupported algorithm"@)
                        } else {
                            JwsVerdict::Jwk(jwk)
                        }
                    } else if jwk.kty@ == "EC"@ {
                        if jwk.x@.len() == 0 || jwk.y@.len() == 0 {
                            JwsVerdict::Refused(400, "badPublicKey"@, "EC JWK missing x or y"@)
                        } else if !spec_ec_jws_valid(b.protected_b64@, b.payload_b64@, b.signature_b64@, &jwk) {
                            JwsVerdict::Refused(400, "badSignatureAlgorithm"@, "invalid JWS signature or unsupported algorithm"@)
                        } else {
                            JwsVerdict::Jwk(jwk)
                        }
                    } else {
                        JwsVerdict::Refused(400, "badPublicKey"@, "unsupported JWK kty; expected RSA or EC"@)
                    }
                } else {
                    let account_id = last_segment(h.kid->0@);
                    if account_id.len() == 0 {
                        JwsVerdict::Refused(400, "malformed"@, "invalid kid"@)
                    } else {
                        match account_index(accounts, account_id) {
                            None => JwsVerdict::Refused(400, "accountDoesNotExist"@, "account does not exist"@),
                            Some(i) => {
                                let acct = accounts[i];
                                if auth_user_id matches Some(uid) && acct.vigil_user_id@ != uid {
                                    JwsVerdict::Refused(403, "unauthorized"@, "acme account is bound to a different vigil user"@)
                                } else if !(if is_ec(&acct.public_jwk) {
                                    spec_ec_jws_valid(b.protected_b64@, b.payload_b64@, b.signature_b64@, &acct.public_jwk)
                                } else {
                                    spec_rsa_jws_valid(b.protected_b64@, b.payload_b64@, b.signature_b64@, &acct.public_jwk, h.alg@)
                                }) {
                                    JwsVerdict::Refused(400, "badSignatureAlgorithm"@, "invalid JWS signature or unsupported algorithm"@)
                                } else {
                                    JwsVerdict::Account(i)
                                }
                            },
                        }
                    }
                }
            },
        },
    }
}

/// Where validating the JWS would stop the server: an EC key whose
/// coordinates decode to other than 32 bytes, on the path that checks it.
pub open spec fn jws_check_panics(
    body: Option<JwsBody>,
    header: Option<ProtectedHeader>,
    accounts: Seq<AcmeAccountRecord>,
) -> bool {
    match (body, header) {
        (Some(b), Some(h)) => {
            (h.jwk matches Some(jwk) && jwk.kty@ == "EC"@ && ec_check_panics(b.signature_b64@, &jwk)) || (
            h.kid is Some && match account_index(accounts, last_segment(h.kid->0@)) {
                Some(i) => is_ec(&accounts[i].public_jwk) && ec_check_panics(b.signature_b64@, &accounts[i].public_jwk),
                None => false,
            })
        },
        _ => false,
    }
}

/// The nonce a request brings back: a non-empty one, where body and header read.
pub open spec fn header_nonce(body: Option<JwsBody>, header: Option<ProtectedHeader>) -> Option<Seq<char>> {
    match (body, header) {
        (Some(_), Some(h)) => if h.nonce@.len() > 0 {
            Some(h.nonce@)
        } else {
            None
        },
        _ => None,
    }
}

/// `new` is `old` with the first copy of `n` removed, or `old` where it held none.
pub open spec fn took_back(old: Seq<String>, new: Seq<String>, n: Seq<char>) -> bool {
    if texts(old).contains(n) {
        exists|k: int|
            0 <= k < old.len() && (#[trigger] old[k])@ == n && (forall|j: int| 0 <= j < k ==> old[j]@ != n)
                && new == old.remove(k)
    } else {
        new == old
    }
}

/// No nonce is held twice.
pub open spec fn distinct_nonces(v: Seq<String>) -> bool {
    forall|i: int, j: int| 0 <= i < j < v.len() ==> (#[trigger] v[i])@ != (#[trigger] v[j])@
}

/// A replay nonce is good for one request: from a store that holds each
/// nonce once, taking `n` back leaves a store that still holds each nonce
/// once and holds `n` no more, so that the JWS check of a second request
/// with `n` refuses it as a bad nonce.
pub proof fn law_nonce_used_once(
    before: Seq<String>,
    after: Seq<String>,
    n: Seq<char>,
    body: Option<JwsBody>,
    header: ProtectedHeader,
    payload_ok: bool,
    require_kid: bool,
    require_jwk: bool,
    auth_user_id: Option<Seq<char>>,
    accounts: Seq<AcmeAccountRecord>,
)
    requires
        distinct_nonces(before),
        took_back(before, after, n),
        body is Some,
        header.nonce@ == n,
    ensures
        distinct_nonces(after),
        !texts(after).contains(n),
        spec_check_jws(
            body,
            Some(header),
            texts(after).contains(header.nonce@),
            payload_ok,
            require_kid,
            require_jwk,
            auth_user_id,
            accounts,
        ) == JwsVerdict::Refused(400, "badNonce"@, "missing or invalid replay nonce"@),
{
    if texts(before).contains(n) {
        let k = choose|k: int|
            0 <= k < before.len() && (#[trigger] before[k])@ == n && (forall|j: int| 0 <= j < k ==> before[j]@ != n)
                && after == before.remove(k);
        assert forall|i: int, j: int| 0 <= i < j < after.len() implies (#[trigger] after[i])@ != (#[trigger] after[j])@ by {
            let bi = if i < k { i } else { i + 1 };
            let bj = if j < k { j } else { j + 1 };
            assert(after[i] == before[bi]);
            assert(after[j] == before[bj]);
            assert(before[bi]@ != before[bj]@);
        }
        if texts(after).contains(n) {
            let i = choose|i: int| 0 <= i < texts(after).len() && texts(after)[i] == n;
            let bi = if i < k { i } else { i + 1 };
            assert(after[i] == before[bi]);
            assert(texts(after)[i] == after[i]@);
            if bi < k {
                assert(before[bi]@ != before[k]@);
            } else {
                assert(before[k]@ != before[bi]@);
            }
        }
    } else {
        assert(after == before);
    }
}

pub open spec fn opt_str(o: Option<&str>) -> Option<Seq<char>> {
    match o {
        Some(s) => Some(s@),
        None => None,
    }
}

/// Refuses a request for its nonce, handing out a fresh one with the refusal.
fn refuse_nonce(nonces: &mut NonceStore) -> (p: AcmeProblem)
    ensures
        problem_is(p, 400, "badNonce"@, "missing or invalid replay nonce"@),
        p.replay_nonce matches Some(f) && fresh_nonce(f@) && handed_out(old(nonces).nonces@, final(nonces).nonces@, f),
{
    let fresh = new_nonce_value();
    let sent = fresh.clone();
    nonces.offer(fresh);
    let mut p = problem(400, "badNonce", "missing or invalid replay nonce");
    p.replay_nonce = Some(sent);
    p
}

/// Validates a JWS request: the nonce is taken back (where the header reads),
/// then the checks of `spec_check_jws` are made in order. `payload_ok` says
/// whether the payload is empty or decodes to JSON.
pub fn validate_jws(
    nonces: &mut NonceStore,
    accounts: &Vec<AcmeAccountRecord>,
    body: Option<JwsBody>,
    header: Option<ProtectedHeader>,
    payload_ok: bool,
    require_kid: bool,
    require_jwk: bool,
    auth_user_id: Option<&str>,
) -> (res: Result<JwsSigner, AcmeProblem>)
    requires
        !jws_check_panics(body, header, accounts@),
    ensures
        ({
            let nonce_known = header matches Some(h) && texts(old(nonces).nonces@).contains(h.nonce@);
            let verdict = spec_check_jws(body, header, nonce_known, payload_ok, require_kid, require_jwk, opt_str(auth_user_id), accounts@);
            match res {
                Ok(JwsSigner::Jwk(jwk, thumb)) => verdict == JwsVerdict::Jwk(jwk) && thumb@ == spec_jwk_thumbprint(&jwk),
                Ok(JwsSigner::Account(id, i)) => verdict == JwsVerdict::Account(i as int) && id@ == accounts@[i as int].id@,
                Err(p) => verdict matches JwsVerdict::Refused(st, k, d) && problem_is(p, st, k, d),
            }
        }),
        match header_nonce(body, header) {
            Some(n) if texts(old(nonces).nonces@).contains(n) => took_back(old(nonces).nonces@, final(nonces).nonces@, n),
            _ => if body is Some && header is Some {
                res matches Err(p) && p.replay_nonce matches Some(f) && fresh_nonce(f@) && handed_out(
                    old(nonces).nonces@,
                    final(nonces).nonces@,
                    f,
                )
            } else {
                final(nonces).nonces@ == old(nonces).nonces@
            },
        },
        (res matches Err(p) && p.kind@ != "badNonce"@) ==> res->Err_0.replay_nonce is None,
{
    let b = match body {
        Some(b) => b,
        None => return Err(problem(400, "malformed", "request body must be JWS with protected/payload/signature")),
    };
    let h = match header {
        Some(h) => h,
        None => return Err(problem(400, "malformed", "invalid protected header")),
    };
    if h.nonce.as_str().unicode_len() == 0 || !nonces.consume(&h.nonce) {
        return Err(refuse_nonce(nonces));
    }
    if h.alg.as_str().unicode_len() == 0 {
        return Err(problem(400, "malformed", "protected alg is required"));
    }
    let has_kid = match &h.kid {
        Some(k) => k.as_str().unicode_len() > 0,
        None => false,
    };
    let has_jwk = h.jwk.is_some();
    if !has_kid && !has_jwk {
        return Err(problem(400, "malformed", "protected header must include kid or jwk"));
    }
    if has_kid && has_jwk {
        return Err(problem(400, "malformed", "protected header must contain either kid or jwk, not both"));
    }
    if require_kid && !has_kid {
        return Err(problem(400, "malformed", "protected kid is required"));
    }
    if require_jwk && !has_jwk {
        return Err(problem(400, "malformed", "protected jwk is required"));
    }
    if !payload_ok {
        return Err(problem(400, "malformed", "invalid JWS payload"));
    }
    match h.jwk {
        Some(jwk) => {
            let valid = if text_is(&jwk.kty, "RSA") {
                if jwk.n.as_str().unicode_len() == 0 || jwk.e.as_str().unicode_len() == 0 {
                    return Err(problem(400, "badPublicKey", "RSA JWK missing n or e"));
                }
                verify_rsa_jws(b.protected_b64.as_str(), b.payload_b64.as_str(), b.signature_b64.as_str(), &jwk, h.alg.as_str())
            } else if text_is(&jwk.kty, "EC") {
                if jwk.x.as_str().unicode_len() == 0 || jwk.y.as_str().unicode_len() == 0 {
                    return Err(problem(400, "badPublicKey", "EC JWK missing x or y"));
                }
                verify_ec_jws(b.protected_b64.as_str(), b.payload_b64.as_str(), b.signature_b64.as_str(), &jwk)
            } else {
                return Err(problem(400, "badPublicKey", "unsupported JWK kty; expected RSA or EC"));
            };
            if !valid {
                return Err(problem(400, "badSignatureAlgorithm", "invalid JWS signature or unsupported algorithm"));
            }
            let thumbprint = jwk_thumbprint(&jwk);
            Ok(JwsSigner::Jwk(jwk, thumbprint))
        },
        None => {
            let kid = match &h.kid {
                Some(k) => k,
                None => return Err(problem(400, "malformed", "protected header must include kid or jwk")),
            };
            let account_id = last_segment_of(kid);
            if account_id.as_str().unicode_len() == 0 {
                return Err(problem(400, "malformed", "invalid kid"));
            }
            let i = match find_account(accounts, &account_id) {
                Some(i) => i,
                None => return Err(problem(400, "accountDoesNotExist", "account does not exist")),
            };
            proof {
                assert(account_index(accounts@, account_id@) == Some(i as int)) by {
                    assert(accounts@[i as int].id@ == account_id@);
                    let c = choose|c: int| 0 <= c < accounts@.len() && (#[trigger] accounts@[c]).id@ == account_id@ && forall|j: int| 0 <= j < c ==> accounts@[j].id@ != account_id@;
                    if c < i {
                    } else if c > i {
                    }
                }
            }
            let acct = &accounts[i];
            match auth_user_id {
                Some(uid) => {
                    if acct.vigil_user_id != uid.to_owned() {
                        return Err(problem(403, "unauthorized", "acme account is bound to a different vigil user"));
                    }
                },
                None => {},
            }
            let sig_valid = if text_is(&acct.public_jwk.kty, "EC") {
                verify_ec_jws(b.protected_b64.as_str(), b.payload_b64.as_str(), b.signature_b64.as_str(), &acct.public_jwk)
            } else {
                verify_rsa_jws(b.protected_b64.as_str(), b.payload_b64.as_str(), b.signature_b64.as_str(), &acct.public_jwk, h.alg.as_str())
            };
            if !sig_valid {
                return Err(problem(400, "badSignatureAlgorithm", "invalid JWS signature or unsupported algorithm"));
            }
            Ok(JwsSigner::Account(account_id, i))
        },
    }
}

/// `rand::random::<u8>()`, `n` times. Nothing is stated of the bytes but their number.
#[verifier::external_body]
fn random_bytes(n: usize) -> (b: Vec<u8>)
    ensures
        b@.len() == n,
{
    (0..n).map(|_| rand::random::<u8>()).collect()
}

/// A challenge token: URL-safe Base64 of 24 random bytes.
pub fn random_token() -> (t: String)
    ensures
        exists|b: Seq<u8>| b.len() == 24 && t@ == base64_url(b),
{
    let b = random_bytes(24);
    base64_url_encode(b.as_slice())
}

/// A replay nonce: URL-safe Base64 of 16 random bytes.
pub fn new_nonce_value() -> (t: String)
    ensures
        exists|b: Seq<u8>| b.len() == 16 && t@ == base64_url(b),
{
    let b = random_bytes(16);
    base64_url_encode(b.as_slice())
}

/// The status of the first authorization with an id.
pub open spec fn authz_status(authzs: Seq<crate::types::AcmeAuthz>, id: Seq<char>) -> Option<Seq<char>>
    decreases authzs.len(),
{
    if authzs.len() == 0 {
        None
    } else if authzs[0].id@ == id {
        Some(authzs[0].status@)
    } else {
        authz_status(authzs.drop_first(), id)
    }
}

/// An order's status once its authorizations are looked at: `invalid` where
/// one is invalid, `ready` where all are valid; a `valid` order, or one
/// with neither, keeps its status.
pub open spec fn next_order_status(status: Seq<char>, authz_ids: Seq<String>, authzs: Seq<crate::types::AcmeAuthz>) -> Seq<char> {
    let all_valid = forall|i: int| 0 <= i < authz_ids.len() ==> authz_status(authzs, (#[trigger] authz_ids[i])@) == Some("valid"@);
    let any_invalid = exists|i: int| 0 <= i < authz_ids.len() && authz_status(authzs, (#[trigger] authz_ids[i])@) == Some("invalid"@);
    if (all_valid || any_invalid) && status != "valid"@ {
        if any_invalid {
            "invalid"@
        } else {
            "ready"@
        }
    } else {
        status
    }
}

/// An order moves on from its authorizations: with one invalid it becomes
/// invalid, with all valid it becomes ready, and a valid order stays valid.
pub proof fn law_order_follows_authorizations(status: Seq<char>, authz_ids: Seq<String>, authzs: Seq<crate::types::AcmeAuthz>)
    ensures
        status == "valid"@ ==> next_order_status(status, authz_ids, authzs) == status,
        status != "valid"@ && (exists|i: int| 0 <= i < authz_ids.len() && authz_status(authzs, (#[trigger] authz_ids[i])@) == Some("invalid"@))
            ==> next_order_status(status, authz_ids, authzs) == "invalid"@,
        status != "valid"@ && (forall|i: int| 0 <= i < authz_ids.len() ==> authz_status(authzs, (#[trigger] authz_ids[i])@) == Some("valid"@))
            ==> next_order_status(status, authz_ids, authzs) == "ready"@,
{
    reveal_strlit("valid");
    reveal_strlit("invalid");
    if status != "valid"@ && (forall|i: int| 0 <= i < authz_ids.len() ==> authz_status(authzs, (#[trigger] authz_ids[i])@) == Some("valid"@)) {
        if exists|i: int| 0 <= i < authz_ids.len() && authz_status(authzs, (#[trigger] authz_ids[i])@) == Some("invalid"@) {
            let i = choose|i: int| 0 <= i < authz_ids.len() && authz_status(authzs, (#[trigger] authz_ids[i])@) == Some("invalid"@);
            assert("valid"@ != "invalid"@) by {
                assert("valid"@[0] != "invalid"@[0]);
            }
        }
    }
}

fn authz_status_of(authzs: &Vec<crate::types::AcmeAuthz>, id: &String) -> (r: Option<String>)
    ensures
        match r {
            Some(s) => authz_status(authzs@, id@) == Some(s@),
            None => authz_status(authzs@, id@) is None,
        },
{
    let mut i: usize = 0;
    assert(authzs@.subrange(0, authzs@.len() as int) =~= authzs@);
    while i < authzs.len()
        invariant
            i <= authzs@.len(),
            authz_status(authzs@, id@) == authz_status(authzs@.subrange(i as int, authzs@.len() as int), id@),
        decreases authzs@.len() - i,
    {
        let ghost rest = authzs@.subrange(i as int, authzs@.len() as int);
        assert(rest[0] == authzs@[i as int]);
        assert(rest.drop_first() =~= authzs@.subrange(i + 1, authzs@.len() as int));
        if authzs[i].id == *id {
            return Some(authzs[i].status.clone());
        }
        i = i + 1;
    }
    None
}

fn status_is(s: &Option<String>, lit: &str) -> (b: bool)
    ensures
        b == (s matches Some(t) && t@ == lit@),
{
    match s {
        Some(t) => *t == lit.to_owned(),
        None => false,
    }
}

/// The index of the first order with an id.
pub open spec fn order_index(orders: Seq<crate::types::AcmeOrder>, id: Seq<char>) -> Option<int> {
    if exists|i: int| 0 <= i < orders.len() && (#[trigger] orders[i]).id@ == id {
        Some(choose|i: int| 0 <= i < orders.len() && (#[trigger] orders[i]).id@ == id && forall|j: int| 0 <= j < i ==> orders[j].id@ != id)
    } else {
        None
    }
}

pub(crate) fn find_order(orders: &Vec<crate::types::AcmeOrder>, id: &str) -> (r: Option<usize>)
    ensures
        r matches Some(i) ==> order_index(orders@, id@) == Some(i as int) && i < orders@.len(),
        r is None ==> order_index(orders@, id@) is None,
{
    let wanted = id.to_owned();
    let mut i: usize = 0;
    while i < orders.len()
        invariant
            i <= orders@.len(),
            wanted@ == id@,
            forall|j: int| 0 <= j < i ==> (#[trigger] orders@[j]).id@ != id@,
        decreases orders@.len() - i,
    {
        if orders[i].id == wanted {
            proof {
                let c = choose|c: int| 0 <= c < orders@.len() && (#[trigger] orders@[c]).id@ == id@ && forall|j: int| 0 <= j < c ==> orders@[j].id@ != id@;
                assert(orders@[i as int].id@ == id@);
                if c < i {
                } else if c > i {
                }
            }
            return Some(i);
        }
        i = i + 1;
    }
    None
}

/// `new` is `old` with the first order that has id `order_id` given its
/// recomputed status (see `next_order_status`); unchanged where there is none.
pub open spec fn order_updated(
    old: Seq<crate::types::AcmeOrder>,
    new: Seq<crate::types::AcmeOrder>,
    authzs: Seq<crate::types::AcmeAuthz>,
    order_id: Seq<char>,
) -> bool {
    match order_index(old, order_id) {
        None => new == old,
        Some(i) => new.len() == old.len() && new[i].status@ == next_order_status(
            old[i].status@,
            old[i].authz_ids@,
            authzs,
        ) && new == old.update(i, crate::types::AcmeOrder { status: new[i].status, ..old[i] }),
    }
}

/// Recomputes an order's status from its authorizations (see `next_order_status`);
/// other orders, and every other field, stay as they were.
pub fn update_order_status(orders: &mut Vec<crate::types::AcmeOrder>, authzs: &Vec<crate::types::AcmeAuthz>, order_id: &str)
    ensures
        order_updated(old(orders)@, final(orders)@, authzs@, order_id@),
{
    let i = match find_order(orders, order_id) {
        Some(i) => i,
        None => return,
    };
    let mut all_valid = true;
    let mut any_invalid = false;
    let mut k: usize = 0;
    let n = orders[i].authz_ids.len();
    while k < n
        invariant
            i < orders@.len(),
            orders@ == old(orders)@,
            n == orders@[i as int].authz_ids@.len(),
            k <= n,
            all_valid == forall|j: int| 0 <= j < k ==> authz_status(authzs@, (#[trigger] orders@[i as int].authz_ids@[j])@) == Some("valid"@),
            any_invalid == exists|j: int| 0 <= j < k && authz_status(authzs@, (#[trigger] orders@[i as int].authz_ids@[j])@) == Some("invalid"@),
        decreases n - k,
    {
        let st = authz_status_of(authzs, &orders[i].authz_ids[k]);
        let v = status_is(&st, "valid");
        let inv = status_is(&st, "invalid");
        proof {
            let t = orders@[i as int].authz_ids@[k as int];
            if !v {
                assert(authz_status(authzs@, t@) != Some("valid"@));
            }
            if inv {
                assert(authz_status(authzs@, t@) == Some("invalid"@));
            }
        }
        all_valid = all_valid && v;
        any_invalid = any_invalid || inv;
        k = k + 1;
    }
    let current_valid = orders[i].status == "valid".to_owned();
    if (all_valid || any_invalid) && !current_valid {
        let mut o = orders.remove(i);
        let ghost before = o;
        o.status = if any_invalid { "invalid".to_owned() } else { "ready".to_owned() };
        orders.insert(i, o);
        assert(orders@ =~= old(orders)@.update(i as int, crate::types::AcmeOrder { status: o.status, ..before }));
    } else {
        let ghost s0 = orders@[i as int].status;
        assert(orders@ =~= old(orders)@.update(i as int, crate::types::AcmeOrder { status: s0, ..old(orders)@[i as int] }));
    }
}

/// One entry of a new-order request's `identifiers`: its type and value.
pub struct RequestedIdentifier {
    pub id_type: String,
    pub value: String,
}

/// The DNS identifiers of a request, trimmed, in order; other types and empty values dropped.
pub open spec fn dns_values(raw: Seq<RequestedIdentifier>) -> Seq<Seq<char>>
    decreases raw.len(),
{
    if raw.len() == 0 {
        Seq::empty()
    } else {
        let r = dns_values(raw.drop_last());
        if raw.last().id_type@ == "dns"@ && crate::text::trim(raw.last().value@).len() > 0 {
            r.push(crate::text::trim(raw.last().value@))
        } else {
            r
        }
    }
}

/// The requested validation method: trimmed and lowered (empty where absent).
pub open spec fn requested_method(m: Option<Seq<char>>) -> Seq<char> {
    match m {
        Some(t) => crate::text::unicode_lower(crate::text::trim(t)),
        None => Seq::empty(),
    }
}

/// The http-01 port a request asks for: its value where it fits in 16 bits, else 80.
pub open spec fn requested_port(p: Option<u64>) -> u16 {
    match p {
        Some(v) => if v <= 65535 {
            v as u16
        } else {
            80
        },
        None => 80,
    }
}

/// Why a new order is refused, in the order the checks are made.
pub open spec fn new_order_refusal(
    raw: Seq<RequestedIdentifier>,
    method: Option<Seq<char>>,
    port: Option<u64>,
    allow_none: bool,
    allowed_ports: Seq<u16>,
) -> Option<(u16, Seq<char>, Seq<char>)> {
    let m = requested_method(method);
    if dns_values(raw).len() == 0 {
        Some((400, "malformed"@, "identifiers must include at least one dns entry"@))
    } else if m == "none-01"@ && !allow_none {
        Some((400, "unauthorized"@, "none-01 validation is not permitted"@))
    } else if m.len() == 0 {
        Some((400, "malformed"@, "validationMethod is required; expected http-01, dns-01, or none-01"@))
    } else if m != "http-01"@ && m != "dns-01"@ && m != "none-01"@ {
        Some((400, "malformed"@, "unsupported validationMethod; expected http-01, dns-01, or none-01"@))
    } else if !allowed_ports.contains(requested_port(port)) {
        Some((400, "unauthorized"@, "httpChallengePort is not in allowedHttpChallengePorts"@))
    } else {
        None
    }
}

/// What a new order creates: the order, one authorization and one challenge
/// per DNS identifier, and the id counter after them.
pub struct NewOrderPlan {
    pub order: crate::types::AcmeOrder,
    pub authzs: Vec<crate::types::AcmeAuthz>,
    pub challenges: Vec<crate::types::AcmeChallenge>,
    pub counter: u64,
}

/// Ids are drawn from one counter: the order takes the next value, then each
/// identifier an authorization id and a challenge id.
pub open spec fn nth_id(prefix: Seq<char>, counter: nat, k: nat) -> Seq<char> {
    prefix + spec_base36(counter + k)
}

/// The plan's parts, for the `k`-th DNS identifier and the chosen method.
pub open spec fn planned_authz(a: crate::types::AcmeAuthz, order_id: Seq<char>, value: Seq<char>, counter: nat, k: nat, none: bool) -> bool {
    &&& a.id@ == nth_id("authz-"@, counter, 2 + 2 * k)
    &&& a.order_id@ == order_id
    &&& a.identifier.id_type@ == "dns"@
    &&& a.identifier.value@ == value
    &&& a.status@ == (if none { "valid"@ } else { "pending"@ })
    &&& a.challenge_ids@.len() == 1
    &&& a.challenge_ids@[0]@ == nth_id("chall-"@, counter, 3 + 2 * k)
}

pub open spec fn planned_challenge(
    c: crate::types::AcmeChallenge,
    order_id: Seq<char>,
    method: Seq<char>,
    token: Seq<char>,
    thumbprint: Seq<char>,
    port: u16,
    counter: nat,
    k: nat,
) -> bool {
    let none = method == "none-01"@;
    &&& c.id@ == nth_id("chall-"@, counter, 3 + 2 * k)
    &&& c.authz_id@ == nth_id("authz-"@, counter, 2 + 2 * k)
    &&& c.order_id@ == order_id
    &&& c.challenge_type@ == (if none { "http-01"@ } else { method })
    &&& c.validation_method@ == method
    &&& c.status@ == (if none { "valid"@ } else { "pending"@ })
    &&& c.token@ == token
    &&& c.key_authorization@ == (if !none && thumbprint.len() > 0 { token + "."@ + thumbprint } else { Seq::empty() })
    &&& c.http_challenge_port == port
}

/// The per-identifier parts of a plan match `planned_authz` and `planned_challenge`.
pub open spec fn plan_entries(
    plan: NewOrderPlan,
    values: Seq<Seq<char>>,
    order_id: Seq<char>,
    m: Seq<char>,
    tokens: Seq<String>,
    thumbprint: Seq<char>,
    port: u16,
    counter: nat,
) -> bool {
    forall|k: int|
        0 <= k < values.len() ==> {
            &&& (#[trigger] plan.order.identifiers@[k]).id_type@ == "dns"@
            &&& plan.order.identifiers@[k].value@ == values[k]
            &&& plan.order.authz_ids@[k]@ == nth_id("authz-"@, counter, (2 + 2 * k) as nat)
            &&& planned_authz(plan.authzs@[k], order_id, values[k], counter, k as nat, m == "none-01"@)
            &&& planned_challenge(plan.challenges@[k], order_id, m, tokens[k]@, thumbprint, port, counter, k as nat)
        }
}

fn lit(s: &str) -> (r: String)
    ensures
        r@ == s@,
{
    s.to_owned()
}

fn prefixed_id(prefix: &str, n: u64) -> (r: String)
    ensures
        r@ == prefix@ + spec_base36(n as nat),
{
    let mut out = lit(prefix);
    out.append(base36(n).as_str());
    out
}

fn dns_identifiers(raw: &Vec<RequestedIdentifier>) -> (v: Vec<String>)
    ensures
        texts(v@) == dns_values(raw@),
{
    let mut v: Vec<String> = Vec::new();
    let mut i: usize = 0;
    assert(texts(v@) =~= dns_values(raw@.subrange(0, 0)));
    while i < raw.len()
        invariant
            i <= raw@.len(),
            texts(v@) == dns_values(raw@.subrange(0, i as int)),
        decreases raw@.len() - i,
    {
        assert(raw@.subrange(0, i + 1).drop_last() =~= raw@.subrange(0, i as int));
        assert(raw@.subrange(0, i + 1).last() == raw@[i as int]);
        let t = crate::text::trim_str(raw[i].value.as_str());
        let ghost before = v@;
        if raw[i].id_type == lit("dns") && t.as_str().unicode_len() > 0 {
            let ghost tc = t;
            v.push(t);
            assert(v@ =~= before.push(tc));
            assert(texts(v@) =~= texts(before).push(tc@));
        }
        i = i + 1;
    }
    assert(raw@.subrange(0, raw@.len() as int) =~= raw@);
    v
}

/// Plans a new order (RFC 8555 §7.4) for an account: the DNS identifiers
/// requested, the validation method, and the http-01 port, checked in that
/// order; then ids from the counter, tokens in order, and statuses `valid`
/// (order `ready`) for none-01, `pending` otherwise.
#[verifier::spinoff_prover]
pub fn plan_new_order(
    raw: &Vec<RequestedIdentifier>,
    method: Option<String>,
    port: Option<u64>,
    allow_none: bool,
    allowed_ports: &Vec<u16>,
    counter: u64,
    tokens: &Vec<String>,
    thumbprint: &String,
    account_id: &String,
    expires: &String,
) -> (res: Result<NewOrderPlan, AcmeProblem>)
    requires
        tokens@.len() >= raw@.len(),
        counter as nat + 1 + 2 * raw@.len() <= u64::MAX,
    ensures
        ({
            let method_v = crate::x509::opt_text(method);
            let refusal = new_order_refusal(raw@, method_v, port, allow_none, allowed_ports@);
            let m = requested_method(method_v);
            let values = dns_values(raw@);
            let n = values.len();
            let none = m == "none-01"@;
            let order_id = nth_id("order-"@, counter as nat, 1);
            match res {
                Err(p) => refusal matches Some(r) && problem_is(p, r.0, r.1, r.2),
                Ok(plan) => refusal is None && plan.counter == counter + 1 + 2 * n && plan.order.id@ == order_id
                    && plan.order.account_id == *account_id && plan.order.status@ == (if none {
                    "ready"@
                } else {
                    "pending"@
                }) && plan.order.expires == *expires && plan.order.finalize_path@ == "/acme/order/"@
                    + order_id + "/finalize"@ && plan.order.certificate_path is None
                    && plan.order.identifiers@.len() == n && plan.order.authz_ids@.len() == n
                    && plan.authzs@.len() == n && plan.challenges@.len() == n && plan_entries(
                    plan,
                    values,
                    order_id,
                    m,
                    tokens@,
                    thumbprint@,
                    requested_port(port),
                    counter as nat,
                ),
            }
        }),
{
    let ghost method_v = crate::x509::opt_text(method);
    let values = dns_identifiers(raw);
    proof {
        assert(values@.len() <= raw@.len()) by {
            lemma_dns_values_len(raw@);
        }
    }
    if values.len() == 0 {
        return Err(problem(400, "malformed", "identifiers must include at least one dns entry"));
    }
    let m = match &method {
        Some(t) => {
            let tt = crate::text::trim_str(t.as_str());
            crate::text::to_lowercase(tt.as_str())
        },
        None => String::new(),
    };
    proof {
        if method is None {
            assert(m@ =~= requested_method(method_v));
        }
    }
    let is_http = m == lit("http-01");
    let is_dns = m == lit("dns-01");
    let none = m == lit("none-01");
    if none && !allow_none {
        return Err(problem(400, "unauthorized", "none-01 validation is not permitted"));
    }
    if m.as_str().unicode_len() == 0 {
        return Err(problem(400, "malformed", "validationMethod is required; expected http-01, dns-01, or none-01"));
    }
    if !is_http && !is_dns && !none {
        return Err(problem(400, "malformed", "unsupported validationMethod; expected http-01, dns-01, or none-01"));
    }
    let p: u16 = match port {
        Some(v) => if v <= 65535 { v as u16 } else { 80 },
        None => 80,
    };
    let mut allowed = false;
    let mut j: usize = 0;
    while j < allowed_ports.len()
        invariant
            j <= allowed_ports@.len(),
            allowed == exists|q: int| 0 <= q < j && allowed_ports@[q] == p,
        decreases allowed_ports@.len() - j,
    {
        if allowed_ports[j] == p {
            allowed = true;
        }
        j = j + 1;
    }
    if !allowed {
        return Err(problem(400, "unauthorized", "httpChallengePort is not in allowedHttpChallengePorts"));
    }
    proof {
        assert(allowed_ports@.contains(p));
    }
    let order_id = prefixed_id("order-", counter + 1);
    let ghost order_id_v = order_id@;
    let mut authzs: Vec<crate::types::AcmeAuthz> = Vec::new();
    let mut challenges: Vec<crate::types::AcmeChallenge> = Vec::new();
    let mut identifiers: Vec<crate::types::AcmeIdentifier> = Vec::new();
    let mut authz_ids: Vec<String> = Vec::new();
    let mut c: u64 = counter + 1;
    let mut k: usize = 0;
    let n = values.len();
    while k < n
        invariant
            n == values@.len(),
            n <= raw@.len(),
            tokens@.len() >= raw@.len(),
            counter as nat + 1 + 2 * raw@.len() <= u64::MAX,
            k <= n,
            c == counter + 1 + 2 * k,
            order_id@ == order_id_v,
            order_id_v == nth_id("order-"@, counter as nat, 1),
            texts(values@) == dns_values(raw@),
            m@ == requested_method(method_v),
            none == (m@ == "none-01"@),
            p == requested_port(port),
            identifiers@.len() == k,
            authz_ids@.len() == k,
            authzs@.len() == k,
            challenges@.len() == k,
            forall|q: int|
                0 <= q < k ==> {
                    &&& (#[trigger] identifiers@[q]).id_type@ == "dns"@
                    &&& identifiers@[q].value@ == dns_values(raw@)[q]
                    &&& authz_ids@[q]@ == nth_id("authz-"@, counter as nat, (2 + 2 * q) as nat)
                    &&& planned_authz(authzs@[q], order_id_v, dns_values(raw@)[q], counter as nat, q as nat, none)
                    &&& planned_challenge(
                        challenges@[q],
                        order_id_v,
                        m@,
                        tokens@[q]@,
                        thumbprint@,
                        p,
                        counter as nat,
                        q as nat,
                    )
                },
        decreases n - k,
    {
        assert(texts(values@)[k as int] == values@[k as int]@);
        let authz_id = prefixed_id("authz-", c + 1);
        let chall_id = prefixed_id("chall-", c + 2);
        proof {
            assert(c + 1 == counter + (2 + 2 * k));
            assert(c + 2 == counter + (3 + 2 * k));
        }
        c = c + 2;
        let token = tokens[k].clone();
        let key_authorization = if !none && thumbprint.as_str().unicode_len() > 0 {
            let mut ka = token.clone();
            ka.append(".");
            ka.append(thumbprint.as_str());
            ka
        } else {
            String::new()
        };
        let challenge = crate::types::AcmeChallenge {
            id: chall_id.clone(),
            authz_id: authz_id.clone(),
            order_id: order_id.clone(),
            challenge_type: if none { lit("http-01") } else { m.clone() },
            validation_method: m.clone(),
            status: if none { lit("valid") } else { lit("pending") },
            token,
            key_authorization,
            http_challenge_port: p,
        };
        let mut chall_ids: Vec<String> = Vec::new();
        chall_ids.push(chall_id);
        let authz = crate::types::AcmeAuthz {
            id: authz_id.clone(),
            order_id: order_id.clone(),
            identifier: crate::types::AcmeIdentifier { id_type: lit("dns"), value: values[k].clone() },
            status: if none { lit("valid") } else { lit("pending") },
            challenge_ids: chall_ids,
        };
        identifiers.push(crate::types::AcmeIdentifier { id_type: lit("dns"), value: values[k].clone() });
        authz_ids.push(authz_id);
        authzs.push(authz);
        challenges.push(challenge);
        k = k + 1;
    }
    let mut finalize_path = lit("/acme/order/");
    finalize_path.append(order_id.as_str());
    finalize_path.append("/finalize");
    assert(finalize_path@ =~= "/acme/order/"@ + order_id_v + "/finalize"@);
    assert(texts(values@).len() == values@.len());
    assert(new_order_refusal(raw@, method_v, port, allow_none, allowed_ports@) is None);
    let order = crate::types::AcmeOrder {
        id: order_id,
        account_id: account_id.clone(),
        status: if none { lit("ready") } else { lit("pending") },
        expires: expires.clone(),
        identifiers,
        authz_ids,
        finalize_path,
        certificate_path: None,
    };
    let plan = NewOrderPlan { order, authzs, challenges, counter: c };
    assert(plan.counter == counter + 1 + 2 * n);
    assert(plan.order.id@ == nth_id("order-"@, counter as nat, 1));
    assert(plan.order.status@ == (if none { "ready"@ } else { "pending"@ }));
    assert(plan.order.identifiers@.len() == n);
    assert(n == dns_values(raw@).len());
    assert(plan.order.account_id == *account_id);
    assert(plan.order.expires == *expires);
    assert(plan.order.finalize_path@ == "/acme/order/"@ + nth_id("order-"@, counter as nat, 1) + "/finalize"@);
    assert(plan.order.certificate_path is None);
    assert(plan.authzs@.len() == n && plan.challenges@.len() == n && plan.order.authz_ids@.len() == n);
    assert(requested_method(method_v) == m@);
    assert forall|q: int| 0 <= q < n implies {
        &&& (#[trigger] plan.order.identifiers@[q]).id_type@ == "dns"@
        &&& plan.order.identifiers@[q].value@ == dns_values(raw@)[q]
        &&& plan.order.authz_ids@[q]@ == nth_id("authz-"@, counter as nat, (2 + 2 * q) as nat)
        &&& planned_authz(plan.authzs@[q], order_id_v, dns_values(raw@)[q], counter as nat, q as nat, none)
        &&& planned_challenge(plan.challenges@[q], order_id_v, m@, tokens@[q]@, thumbprint@, requested_port(port), counter as nat, q as nat)
    } by {
        assert(identifiers@[q].id_type@ == "dns"@);
    }
    assert(plan_entries(plan, dns_values(raw@), order_id_v, m@, tokens@, thumbprint@, requested_port(port), counter as nat));
    Ok(plan)
}

proof fn lemma_dns_values_len(raw: Seq<RequestedIdentifier>)
    ensures
        dns_values(raw).len() <= raw.len(),
    decreases raw.len(),
{
    if raw.len() > 0 {
        lemma_dns_values_len(raw.drop_last());
    }
}

} // verus!
