//! Minimal DER encoding and decoding used to build certificates, CRLs and OCSP
//! responses, and to walk the structures that come back.
use crate::text::{chars_of, contains, parse_unsigned, parse_unsigned_chars, split, split_chars, trim, trim_chars, contains_chars, string_from_chars};
use vstd::prelude::*;

verus! {

/// The number of values a `usize` can hold.
pub open spec fn usize_range() -> nat {
    usize::MAX as nat + 1
}

/// The DER length octets that `der_length` writes for a content length.
/// Lengths of 2^24 and above keep only their low 24 bits after the `0x83` prefix.
pub open spec fn spec_der_length(len: nat) -> Seq<u8> {
    if len < 0x80 {
        seq![len as u8]
    } else if len < 0x100 {
        seq![0x81u8, len as u8]
    } else if len < 0x10000 {
        seq![0x82u8, (len / 0x100) as u8, (len % 0x100) as u8]
    } else {
        seq![0x83u8, ((len / 0x10000) % 0x100) as u8, ((len / 0x100) % 0x100) as u8, (len % 0x100) as u8]
    }
}

/// A TLV: tag, length octets, content.
pub open spec fn spec_der_tlv(tag: u8, content: Seq<u8>) -> Seq<u8> {
    seq![tag] + spec_der_length(content.len()) + content
}

/// Big-endian value of `bytes`, reduced modulo the `usize` range at every step,
/// as a `usize` accumulator that shifts left by eight bits does.
pub open spec fn be_acc(bytes: Seq<u8>) -> nat
    decreases bytes.len(),
{
    if bytes.len() == 0 {
        0
    } else {
        ((be_acc(bytes.drop_last()) * 256 + bytes.last()) % (usize_range() as int)) as nat
    }
}

/// What `decode_der_length_pub` reads from the start of `data`:
/// (number of length octets, length value).
pub open spec fn spec_decode_len(data: Seq<u8>) -> Option<(nat, nat)> {
    if data.len() == 0 {
        None
    } else if data[0] < 0x80 {
        Some((1, data[0] as nat))
    } else {
        let k = (data[0] - 0x80) as nat;
        if data.len() < 1 + k {
            None
        } else {
            Some((1 + k, be_acc(data.subrange(1, 1 + k as int))))
        }
    }
}

pub fn der_length(len: usize) -> (out: Vec<u8>)
    ensures
        out@ == spec_der_length(len as nat),
{
    if len < 0x80 {
        vec![len as u8]
    } else if len < 0x100 {
        vec![0x81, len as u8]
    } else if len < 0x10000 {
        vec![0x82, (len / 0x100) as u8, (len % 0x100) as u8]
    } else {
        vec![0x83, ((len / 0x10000) % 0x100) as u8, ((len / 0x100) % 0x100) as u8, (len % 0x100) as u8]
    }
}

pub fn der_tlv(tag: u8, content: &[u8]) -> (out: Vec<u8>)
    ensures
        out@ == spec_der_tlv(tag, content@),
{
    let mut out = vec![tag];
    let mut len_bytes = der_length(content.len());
    out.append(&mut len_bytes);
    out.extend_from_slice(content);
    out
}

/// Public DER length decoder: `(length-octet count, length value)`.
pub fn decode_der_length_pub(data: &[u8]) -> (res: Option<(usize, usize)>)
    ensures
        match res {
            Some((a, b)) => spec_decode_len(data@) == Some((a as nat, b as nat)),
            None => spec_decode_len(data@) is None,
        },
{
    if data.len() == 0 {
        return None;
    }
    if data[0] < 0x80 {
        Some((1, data[0] as usize))
    } else {
        let num_bytes = (data[0] - 0x80) as usize;
        if data.len() < 1 + num_bytes {
            return None;
        }
        let mut len: usize = 0;
        let mut i: usize = 0;
        while i < num_bytes
            invariant
                i <= num_bytes,
                1 + num_bytes <= data@.len(),
                len as nat == be_acc(data@.subrange(1, 1 + i as int)),
            decreases num_bytes - i,
        {
            let b = data[1 + i];
            proof {
                let s = data@.subrange(1, 1 + i as int + 1);
                assert(s.drop_last() =~= data@.subrange(1, 1 + i as int));
                assert(s.last() == b);
            }
            let wide: u128 = (len as u128) * 256 + (b as u128);
            len = (wide % ((usize::MAX as u128) + 1)) as usize;
            i = i + 1;
        }
        Some((1 + num_bytes, len))
    }
}


pub fn der_sequence(content: &[u8]) -> (out: Vec<u8>)
    ensures
        out@ == spec_der_tlv(0x30, content@),
{
    der_tlv(0x30, content)
}

pub fn der_context_constructed(tag: u8, content: &[u8]) -> (out: Vec<u8>)
    ensures
        out@ == spec_der_tlv(0xa0u8 | tag, content@),
{
    der_tlv(0xa0 | tag, content)
}

pub fn der_context_primitive(tag: u8, content: &[u8]) -> (out: Vec<u8>)
    ensures
        out@ == spec_der_tlv(0x80u8 | tag, content@),
{
    der_tlv(0x80 | tag, content)
}

pub fn der_octet_string(content: &[u8]) -> (out: Vec<u8>)
    ensures
        out@ == spec_der_tlv(0x04, content@),
{
    der_tlv(0x04, content)
}

/// `bytes` without its leading zero octets.
pub open spec fn strip_zeros(s: Seq<u8>) -> Seq<u8>
    decreases s.len(),
{
    if s.len() > 0 && s[0] == 0 {
        strip_zeros(s.drop_first())
    } else {
        s
    }
}

/// Content octets of the INTEGER that `der_integer_bytes` writes: leading zeros
/// stripped (one zero kept when all are zero), and a zero prepended when the
/// first remaining octet has its high bit set.
pub open spec fn spec_integer_content(b: Seq<u8>) -> Seq<u8> {
    let st = if strip_zeros(b).len() == 0 {
        b.subrange(0, 1)
    } else {
        strip_zeros(b)
    };
    if st[0] >= 0x80 {
        seq![0u8] + st
    } else {
        st
    }
}

proof fn lemma_strip_zeros_skip(s: Seq<u8>, i: int)
    requires
        0 <= i <= s.len(),
        forall|k: int| 0 <= k < i ==> #[trigger] s[k] == 0,
    ensures
        strip_zeros(s) == strip_zeros(s.subrange(i, s.len() as int)),
    decreases i,
{
    if i > 0 {
        let t = s.drop_first();
        assert forall|k: int| 0 <= k < i - 1 implies #[trigger] t[k] == 0 by {
            assert(t[k] == s[k + 1]);
        }
        lemma_strip_zeros_skip(t, i - 1);
        assert(t.subrange(i - 1, t.len() as int) =~= s.subrange(i, s.len() as int));
    } else {
        assert(s.subrange(0, s.len() as int) =~= s);
    }
}

/// INTEGER from raw big-endian bytes (MSB preserved; zero-extends if the high bit is set).
pub fn der_integer_bytes(bytes: &[u8]) -> (out: Vec<u8>)
    requires
        bytes@.len() > 0,
    ensures
        out@ == spec_der_tlv(0x02, spec_integer_content(bytes@)),
{
    let n = bytes.len();
    let mut i: usize = 0;
    while i < n && bytes[i] == 0
        invariant
            n == bytes@.len(),
            i <= n,
            forall|k: int| 0 <= k < i ==> #[trigger] bytes@[k] == 0,
        decreases n - i,
    {
        i = i + 1;
    }
    proof {
        lemma_strip_zeros_skip(bytes@, i as int);
        let r = bytes@.subrange(i as int, n as int);
        if r.len() > 0 {
            assert(r[0] == bytes@[i as int]);
        }
        assert(strip_zeros(r) == r);
    }
    let stripped: &[u8] = if i < n {
        &bytes[i..n]
    } else {
        &bytes[0..1]
    };
    let mut content: Vec<u8> = Vec::new();
    if stripped[0] >= 0x80 {
        content.push(0);
    }
    content.extend_from_slice(stripped);
    proof {
        let st = if strip_zeros(bytes@).len() == 0 {
            bytes@.subrange(0, 1)
        } else {
            strip_zeros(bytes@)
        };
        assert(st == stripped@);
        if stripped@[0] >= 0x80 {
            assert(content@ =~= seq![0u8] + st);
        } else {
            assert(content@ =~= st);
        }
    }
    der_tlv(0x02, content.as_slice())
}

/// The text that `der_integer_hex` decodes: trimmed, every leading `0x`
/// removed, and a `0` put in front of an odd number of digits.
pub open spec fn strip_0x(s: Seq<char>) -> Seq<char>
    decreases s.len(),
{
    if s.len() >= 2 && s[0] == '0' && s[1] == 'x' {
        strip_0x(s.subrange(2, s.len() as int))
    } else {
        s
    }
}

pub open spec fn hex_padded(s: Seq<char>) -> Seq<char> {
    let n = strip_0x(trim(s));
    if n.len() % 2 != 0 {
        seq!['0'] + n
    } else {
        n
    }
}

/// Bytes of the INTEGER `der_integer_hex` writes: the decoded hex, or a single
/// zero byte where the text is not valid hex.
pub open spec fn hex_integer_bytes(s: Seq<char>) -> Seq<u8> {
    match crate::codec::spec_hex_decode(hex_padded(s)) {
        Some(b) => b,
        None => seq![0u8],
    }
}

/// INTEGER from a (positive) hex string.
pub fn der_integer_hex(hex: &str) -> (out: Vec<u8>)
    requires
        strip_0x(trim(hex@)).len() > 0,
    ensures
        out@ == spec_der_tlv(0x02, spec_integer_content(hex_integer_bytes(hex@))),
{
    let raw = chars_of(hex);
    let t = trim_chars(raw.as_slice());
    let mut start: usize = 0;
    let n = t.len();
    assert(t@.subrange(0, n as int) =~= t@);
    while n - start >= 2 && t[start] == '0' && t[start + 1] == 'x'
        invariant
            n == t@.len(),
            start <= n,
            strip_0x(t@) == strip_0x(t@.subrange(start as int, n as int)),
        decreases n - start,
    {
        proof {
            let r = t@.subrange(start as int, n as int);
            assert(r.subrange(2, r.len() as int) =~= t@.subrange(start + 2, n as int));
        }
        start = start + 2;
    }
    proof {
        assert(t@.subrange(0, n as int) =~= t@);
        let r = t@.subrange(start as int, n as int);
        if r.len() >= 2 {
            assert(r[0] == t@[start as int] && r[1] == t@[start + 1]);
        }
        assert(strip_0x(r) == r);
    }
    let mut padded: Vec<char> = Vec::new();
    if (n - start) % 2 != 0 {
        padded.push('0');
    }
    padded.extend_from_slice(&t[start..n]);
    proof {
        let m = strip_0x(trim(hex@));
        if m.len() % 2 != 0 {
            assert(padded@ =~= seq!['0'] + m);
        } else {
            assert(padded@ =~= m);
        }
    }
    let text = string_from_chars(padded.as_slice());
    let bytes = match crate::codec::hex_decode(text.as_str()) {
        Some(b) => b,
        None => {
            let z = vec![0u8];
            assert(z@ =~= seq![0u8]);
            z
        },
    };
    assert(text@ == hex_padded(hex@));
    assert(bytes@ == hex_integer_bytes(hex@));
    proof {
        if crate::codec::spec_hex_decode(hex_padded(hex@)) is Some {
            assert(bytes@.len() == hex_padded(hex@).len() / 2);
        }
    }
    der_integer_bytes(bytes.as_slice())
}

/// Whether a serial text has digits once trimmed and stripped of `0x`
/// prefixes, as `der_integer_hex` and issuance need.
pub fn hex_text_has_digits(hex: &str) -> (b: bool)
    ensures
        b == (strip_0x(trim(hex@)).len() > 0),
{
    let raw = chars_of(hex);
    let t = trim_chars(raw.as_slice());
    let mut start: usize = 0;
    let n = t.len();
    assert(t@.subrange(0, n as int) =~= t@);
    while n - start >= 2 && t[start] == '0' && t[start + 1] == 'x'
        invariant
            n == t@.len(),
            start <= n,
            strip_0x(t@) == strip_0x(t@.subrange(start as int, n as int)),
        decreases n - start,
    {
        proof {
            let r = t@.subrange(start as int, n as int);
            assert(r.subrange(2, r.len() as int) =~= t@.subrange(start + 2, n as int));
        }
        start = start + 2;
    }
    proof {
        let r = t@.subrange(start as int, n as int);
        if r.len() >= 2 {
            assert(r[0] == t@[start as int] && r[1] == t@[start + 1]);
        }
        assert(strip_0x(r) == r);
    }
    n - start > 0
}

/// BIT STRING with zero unused bits around a signature.
pub fn der_bit_string_der_sig(sig_der: &[u8]) -> (out: Vec<u8>)
    ensures
        out@ == spec_der_tlv(0x03, seq![0u8] + sig_der@),
{
    let mut content: Vec<u8> = vec![0x00];
    content.extend_from_slice(sig_der);
    assert(content@ =~= seq![0u8] + sig_der@);
    der_tlv(0x03, content.as_slice())
}

/// Continuation octets (high bit set) for the high-order base-128 digits of `m`.
pub open spec fn base128_high(m: nat) -> Seq<u8>
    decreases m,
{
    if m == 0 {
        Seq::empty()
    } else {
        base128_high(m / 128) + seq![(0x80 + m % 128) as u8]
    }
}

/// Base-128 encoding of one OID arc: big-endian 7-bit groups, every group but
/// the last with its high bit set.
pub open spec fn spec_oid_component(n: nat) -> Seq<u8> {
    base128_high(n / 128) + seq![(n % 128) as u8]
}

fn encode_oid_component(n: u64) -> (out: Vec<u8>)
    ensures
        out@ == spec_oid_component(n as nat),
{
    let mut parts: Vec<u8> = vec![(n % 128) as u8];
    let mut val: u64 = n / 128;
    assert(parts@ =~= seq![(n % 128) as u8]);
    assert(base128_high(val as nat) + parts@ =~= spec_oid_component(n as nat));
    while val > 0
        invariant
            base128_high(val as nat) + parts@ == spec_oid_component(n as nat),
        decreases val,
    {
        let d: u8 = (0x80 + val % 128) as u8;
        parts.insert(0, d);
        proof {
            assert(base128_high(val as nat) == base128_high((val / 128) as nat) + seq![d]);
            assert(base128_high((val / 128) as nat) + parts@ =~= base128_high(val as nat) + parts@.drop_first());
        }
        val = val / 128;
    }
    assert(base128_high(0) =~= Seq::<u8>::empty());
    assert(Seq::<u8>::empty() + parts@ =~= parts@);
    parts
}

/// The arcs of a dotted OID, a part that does not parse as `u64` counting as 0.
pub open spec fn oid_arcs(oid: Seq<char>) -> Seq<nat> {
    split(oid, '.').map_values(
        |p: Seq<char>|
            match parse_unsigned(p, u64::MAX as nat) {
                Some(v) => v,
                None => 0,
            },
    )
}

pub open spec fn arcs_encoding(arcs: Seq<nat>) -> Seq<u8>
    decreases arcs.len(),
{
    if arcs.len() == 0 {
        Seq::empty()
    } else {
        arcs_encoding(arcs.drop_last()) + spec_oid_component(arcs.last())
    }
}

/// OBJECT IDENTIFIER content: `40 * first + second` in one octet, then every
/// later arc in base 128; empty when the text has fewer than two arcs.
pub open spec fn spec_oid_content(oid: Seq<char>) -> Seq<u8> {
    let a = oid_arcs(oid);
    if a.len() < 2 {
        Seq::empty()
    } else {
        seq![((a[0] * 40 + a[1]) % 256) as u8] + arcs_encoding(a.subrange(2, a.len() as int))
    }
}

/// Whether `40 * first + second` fits in a `u64` (the original computes it in `u64`).
pub open spec fn oid_head_fits(oid: Seq<char>) -> bool {
    let a = oid_arcs(oid);
    a.len() < 2 || a[0] * 40 + a[1] <= u64::MAX
}

pub fn encode_oid(oid: &str) -> (out: Vec<u8>)
    requires
        oid_head_fits(oid@),
    ensures
        out@ == spec_der_tlv(0x06, spec_oid_content(oid@)),
{
    let chars = chars_of(oid);
    let parts = split_chars(chars.as_slice(), '.');
    let ghost arcs = oid_arcs(oid@);
    let mut comps: Vec<u64> = Vec::new();
    let mut i: usize = 0;
    while i < parts.len()
        invariant
            chars@ == oid@,
            parts@.len() == split(oid@, '.').len(),
            forall|k: int| 0 <= k < parts@.len() ==> (#[trigger] parts@[k])@ == split(oid@, '.')[k],
            arcs == oid_arcs(oid@),
            i <= parts@.len(),
            comps@.len() == i,
            forall|k: int| 0 <= k < i ==> (#[trigger] comps@[k]) as nat == arcs[k],
        decreases parts@.len() - i,
    {
        let v = match parse_unsigned_chars(parts[i].as_slice(), u64::MAX) {
            Some(v) => v,
            None => 0,
        };
        comps.push(v);
        i = i + 1;
    }
    if comps.len() < 2 {
        let empty: Vec<u8> = Vec::new();
        assert(empty@ =~= spec_oid_content(oid@));
        return der_tlv(0x06, empty.as_slice());
    }
    let head: u64 = comps[0] * 40 + comps[1];
    let mut content: Vec<u8> = vec![(head % 256) as u8];
    let mut j: usize = 2;
    assert(arcs.subrange(2, 2) =~= Seq::<nat>::empty());
    while j < comps.len()
        invariant
            2 <= j <= comps@.len(),
            comps@.len() == arcs.len(),
            forall|k: int| 0 <= k < comps@.len() ==> (#[trigger] comps@[k]) as nat == arcs[k],
            content@ == seq![(head % 256) as u8] + arcs_encoding(arcs.subrange(2, j as int)),
        decreases comps@.len() - j,
    {
        let mut enc = encode_oid_component(comps[j]);
        content.append(&mut enc);
        proof {
            let s1 = arcs.subrange(2, j + 1);
            assert(s1.drop_last() =~= arcs.subrange(2, j as int));
            assert(s1.last() == arcs[j as int]);
        }
        j = j + 1;
    }
    assert(arcs.subrange(2, arcs.len() as int) =~= arcs.subrange(2, j as int));
    der_tlv(0x06, content.as_slice())
}

pub fn der_null() -> (out: Vec<u8>)
    ensures
        out@ == seq![0x05u8, 0x00u8],
{
    vec![0x05, 0x00]
}

pub fn der_boolean_true() -> (out: Vec<u8>)
    ensures
        out@ == spec_der_tlv(0x01, seq![0xffu8]),
{
    let c: Vec<u8> = vec![0xff];
    assert(c@ =~= seq![0xffu8]);
    der_tlv(0x01, c.as_slice())
}


/// The OBJECT IDENTIFIER TLVs of the three extensions that issued certificates carry.
pub open spec fn oid_basic_constraints() -> Seq<u8> {
    seq![0x06u8, 0x03, 0x55, 0x1d, 0x13]
}

pub open spec fn oid_key_usage() -> Seq<u8> {
    seq![0x06u8, 0x03, 0x55, 0x1d, 0x0f]
}

pub open spec fn oid_subject_alt_name() -> Seq<u8> {
    seq![0x06u8, 0x03, 0x55, 0x1d, 0x11]
}

/// BasicConstraints (critical, cA absent = FALSE).
pub open spec fn spec_basic_constraints_ext() -> Seq<u8> {
    spec_der_tlv(
        0x30,
        oid_basic_constraints() + spec_der_tlv(0x01, seq![0xffu8]) + spec_der_tlv(
            0x04,
            spec_der_tlv(0x30, Seq::empty()),
        ),
    )
}

/// KeyUsage (critical, digitalSignature only).
pub open spec fn spec_key_usage_ext() -> Seq<u8> {
    spec_der_tlv(
        0x30,
        oid_key_usage() + spec_der_tlv(0x01, seq![0xffu8]) + spec_der_tlv(
            0x04,
            seq![0x03u8, 0x02, 0x07, 0x80],
        ),
    )
}

pub(crate) fn build_basic_constraints_ext() -> (out: Vec<u8>)
    ensures
        out@ == spec_basic_constraints_ext(),
{
    let empty: Vec<u8> = Vec::new();
    let bc_value = der_sequence(empty.as_slice());
    let ext_value = der_octet_string(bc_value.as_slice());
    let mut body: Vec<u8> = vec![0x06, 0x03, 0x55, 0x1d, 0x13];
    let mut critical = der_boolean_true();
    body.append(&mut critical);
    let mut ev = ext_value;
    body.append(&mut ev);
    assert(empty@ =~= Seq::<u8>::empty());
    assert(body@ =~= oid_basic_constraints() + spec_der_tlv(0x01, seq![0xffu8]) + spec_der_tlv(
        0x04,
        spec_der_tlv(0x30, Seq::empty()),
    ));
    der_sequence(body.as_slice())
}

pub(crate) fn build_key_usage_ext() -> (out: Vec<u8>)
    ensures
        out@ == spec_key_usage_ext(),
{
    let ku_bitstring: Vec<u8> = vec![0x03, 0x02, 0x07, 0x80];
    let ext_value = der_octet_string(ku_bitstring.as_slice());
    let mut body: Vec<u8> = vec![0x06, 0x03, 0x55, 0x1d, 0x0f];
    let mut critical = der_boolean_true();
    body.append(&mut critical);
    let mut ev = ext_value;
    body.append(&mut ev);
    assert(ku_bitstring@ =~= seq![0x03u8, 0x02, 0x07, 0x80]);
    assert(body@ =~= oid_key_usage() + spec_der_tlv(0x01, seq![0xffu8]) + spec_der_tlv(
        0x04,
        seq![0x03u8, 0x02, 0x07, 0x80],
    ));
    der_sequence(body.as_slice())
}

/// A dotted quad of four decimal octets, as `is_ip_san` recognises it.
pub open spec fn is_ipv4_text(t: Seq<char>) -> bool {
    let p = split(t, '.');
    p.len() == 4 && forall|i: int| 0 <= i < 4 ==> (#[trigger] parse_unsigned(p[i], 255)) is Some
}

pub open spec fn ipv4_octets(t: Seq<char>) -> Seq<u8> {
    split(t, '.').map_values(
        |p: Seq<char>|
            match parse_unsigned(p, 255) {
                Some(v) => v as u8,
                None => 0u8,
            },
    )
}

pub open spec fn is_uri_text(t: Seq<char>) -> bool {
    contains(t, seq![':', '/', '/'])
}

fn ipv4_parts(name: &[char]) -> (res: Option<Vec<u8>>)
    ensures
        match res {
            Some(v) => is_ipv4_text(name@) && v@ == ipv4_octets(name@),
            None => !is_ipv4_text(name@),
        },
{
    let parts = split_chars(name, '.');
    if parts.len() != 4 {
        return None;
    }
    let mut out: Vec<u8> = Vec::new();
    let mut i: usize = 0;
    while i < 4
        invariant
            parts@.len() == 4,
            split(name@, '.').len() == 4,
            forall|k: int| 0 <= k < 4 ==> (#[trigger] parts@[k])@ == split(name@, '.')[k],
            i <= 4,
            out@.len() == i,
            forall|k: int| 0 <= k < i ==> (#[trigger] parse_unsigned(split(name@, '.')[k], 255)) is Some,
            forall|k: int| 0 <= k < i ==> (#[trigger] out@[k]) == ipv4_octets(name@)[k],
        decreases 4 - i,
    {
        match parse_unsigned_chars(parts[i].as_slice(), 255) {
            Some(v) => {
                out.push(v as u8);
            },
            None => {
                assert(!(parse_unsigned(split(name@, '.')[i as int], 255) is Some));
                return None;
            },
        }
        i = i + 1;
    }
    assert(out@ =~= ipv4_octets(name@));
    Some(out)
}

/// Whether a SAN value is written as an IPv4 address.
pub fn is_ip_san(name: &str) -> (b: bool)
    ensures
        b == is_ipv4_text(name@),
{
    let v = chars_of(name);
    ipv4_parts(v.as_slice()).is_some()
}

/// Whether a SAN value is a URI (it holds `://`).
pub fn is_uri_san(name: &str) -> (b: bool)
    ensures
        b == is_uri_text(name@),
{
    let v = chars_of(name);
    let pat: Vec<char> = vec![':', '/', '/'];
    assert(pat@ =~= seq![':', '/', '/']);
    contains_chars(v.as_slice(), pat.as_slice())
}

/// The GeneralName a SAN value becomes: `[7]` IPv4 octets, `[6]` URI or
/// `[2]` dNSName, each of the trimmed value.
pub open spec fn spec_general_name(name: Seq<char>) -> Seq<u8> {
    let t = trim(name);
    if is_ipv4_text(t) {
        spec_der_tlv(0x87, ipv4_octets(t))
    } else if is_uri_text(t) {
        spec_der_tlv(0x86, vstd::utf8::encode_utf8(t))
    } else {
        spec_der_tlv(0x82, vstd::utf8::encode_utf8(t))
    }
}

pub open spec fn spec_general_names(names: Seq<Seq<char>>) -> Seq<u8>
    decreases names.len(),
{
    if names.len() == 0 {
        Seq::empty()
    } else {
        spec_general_names(names.drop_last()) + spec_general_name(names.last())
    }
}

/// SubjectAltName extension (not critical) listing `names`; empty when there are none.
pub open spec fn spec_san_extension(names: Seq<Seq<char>>) -> Seq<u8> {
    if names.len() == 0 {
        Seq::empty()
    } else {
        spec_der_tlv(
            0x30,
            oid_subject_alt_name() + spec_der_tlv(
                0x04,
                spec_der_tlv(0x30, spec_general_names(names)),
            ),
        )
    }
}

pub open spec fn strings_view(v: Seq<String>) -> Seq<Seq<char>> {
    v.map_values(|s: String| s@)
}

fn general_name(name: &str) -> (out: Vec<u8>)
    ensures
        out@ == spec_general_name(name@),
{
    let raw = chars_of(name);
    let t = trim_chars(raw.as_slice());
    match ipv4_parts(t.as_slice()) {
        Some(octets) => {
            assert((0x80u8 | 7u8) == 0x87u8) by (bit_vector);
            der_context_primitive(7, octets.as_slice())
        },
        None => {
            let ts = string_from_chars(t.as_slice());
            let bytes = ts.as_str().as_bytes();
            let pat: Vec<char> = vec![':', '/', '/'];
            assert(pat@ =~= seq![':', '/', '/']);
            if contains_chars(t.as_slice(), pat.as_slice()) {
                assert((0x80u8 | 6u8) == 0x86u8) by (bit_vector);
                der_context_primitive(6, bytes)
            } else {
                assert((0x80u8 | 2u8) == 0x82u8) by (bit_vector);
                der_context_primitive(2, bytes)
            }
        },
    }
}

pub(crate) fn build_san_extension(names: &[String]) -> (out: Vec<u8>)
    ensures
        out@ == spec_san_extension(strings_view(names@)),
{
    if names.len() == 0 {
        return Vec::new();
    }
    let ghost sv = strings_view(names@);
    let mut gn: Vec<u8> = Vec::new();
    let mut i: usize = 0;
    assert(sv.subrange(0, 0) =~= Seq::<Seq<char>>::empty());
    while i < names.len()
        invariant
            sv == strings_view(names@),
            i <= names@.len(),
            gn@ == spec_general_names(sv.subrange(0, i as int)),
        decreases names@.len() - i,
    {
        let mut one = general_name(names[i].as_str());
        gn.append(&mut one);
        proof {
            let s1 = sv.subrange(0, i + 1);
            assert(s1.drop_last() =~= sv.subrange(0, i as int));
            assert(s1.last() == names@[i as int]@);
        }
        i = i + 1;
    }
    assert(sv.subrange(0, names@.len() as int) =~= sv);
    let san_sequence = der_sequence(gn.as_slice());
    let ext_value = der_octet_string(san_sequence.as_slice());
    let mut body: Vec<u8> = vec![0x06, 0x03, 0x55, 0x1d, 0x11];
    let mut ev = ext_value;
    body.append(&mut ev);
    assert(body@ =~= oid_subject_alt_name() + spec_der_tlv(
        0x04,
        spec_der_tlv(0x30, spec_general_names(sv)),
    ));
    der_sequence(body.as_slice())
}

/// One TLV at the start of `data`: (the whole TLV, what follows it).
pub open spec fn spec_read_tlv(data: Seq<u8>) -> Option<(Seq<u8>, Seq<u8>)> {
    if data.len() == 0 {
        None
    } else {
        match spec_decode_len(data.drop_first()) {
            None => None,
            Some((ls, l)) => {
                let total = 1 + ls + l;
                if data.len() < total {
                    None
                } else {
                    Some((data.subrange(0, total as int), data.subrange(total as int, data.len() as int)))
                }
            },
        }
    }
}

/// A SEQUENCE at the start of `data`: (its content, what follows it).
pub open spec fn spec_read_sequence(data: Seq<u8>) -> Option<(Seq<u8>, Seq<u8>)> {
    if data.len() == 0 || data[0] != 0x30 {
        None
    } else {
        match spec_decode_len(data.drop_first()) {
            None => None,
            Some((ls, l)) => {
                let total = 1 + ls + l;
                if data.len() < total {
                    None
                } else {
                    Some((data.subrange((1 + ls) as int, total as int), data.subrange(total as int, data.len() as int)))
                }
            },
        }
    }
}

/// Read one DER TLV: (full TLV bytes, remainder).
fn der_read_tlv(data: &[u8]) -> (res: Option<(&[u8], &[u8])>)
    ensures
        match res {
            Some((a, b)) => spec_read_tlv(data@) == Some((a@, b@)),
            None => spec_read_tlv(data@) is None,
        },
{
    if data.len() == 0 {
        return None;
    }
    let n = data.len();
    let rest = &data[1..n];
    assert(rest@ =~= data@.drop_first());
    match decode_der_length_pub(rest) {
        None => None,
        Some((len_size, len)) => {
            if len_size > n - 1 || len > n - 1 - len_size {
                return None;
            }
            let total = 1 + len_size + len;
            Some((&data[0..total], &data[total..n]))
        },
    }
}

/// Skip one DER TLV and return the remainder.
fn der_skip_tlv(data: &[u8]) -> (res: Option<&[u8]>)
    ensures
        match res {
            Some(b) => spec_read_tlv(data@) matches Some((_, r)) && r == b@,
            None => spec_read_tlv(data@) is None,
        },
{
    match der_read_tlv(data) {
        Some((_, rest)) => Some(rest),
        None => None,
    }
}

/// Read a SEQUENCE: (inner content, remainder).
fn der_read_sequence(data: &[u8]) -> (res: Option<(&[u8], &[u8])>)
    ensures
        match res {
            Some((a, b)) => spec_read_sequence(data@) == Some((a@, b@)),
            None => spec_read_sequence(data@) is None,
        },
{
    if data.len() == 0 || data[0] != 0x30 {
        return None;
    }
    let n = data.len();
    let rest = &data[1..n];
    assert(rest@ =~= data@.drop_first());
    match decode_der_length_pub(rest) {
        None => None,
        Some((len_size, len)) => {
            if len_size > n - 1 || len > n - 1 - len_size {
                return None;
            }
            let header = 1 + len_size;
            let total = header + len;
            Some((&data[header..total], &data[total..n]))
        },
    }
}

fn decode_der_length(data: &[u8]) -> (res: Option<(usize, usize)>)
    ensures
        match res {
            Some((a, b)) => spec_decode_len(data@) == Some((a as nat, b as nat)),
            None => spec_decode_len(data@) is None,
        },
{
    decode_der_length_pub(data)
}

/// Public DER TLV reader.
pub fn der_read_tlv_pub(data: &[u8]) -> (res: Option<(&[u8], &[u8])>)
    ensures
        match res {
            Some((a, b)) => spec_read_tlv(data@) == Some((a@, b@)),
            None => spec_read_tlv(data@) is None,
        },
{
    der_read_tlv(data)
}


/// Which step of a walk through a CSR or certificate failed.
#[derive(Debug, Clone, Copy, PartialEq, Eq, Structural)]
pub enum DerPathError {
    OuterSequence,
    InnerSequence,
    SkipVersion,
    SkipSubject,
    SkipSerial,
    SkipAlgorithm,
    SkipIssuer,
    SkipValidity,
    Spki,
    Subject,
}

/// The SubjectPublicKeyInfo TLV of a CSR:
/// SEQUENCE { SEQUENCE { version, subject, spki, [0] attrs }, ... }.
pub open spec fn spec_extract_spki(d: Seq<u8>) -> Result<Seq<u8>, DerPathError> {
    match spec_read_sequence(d) {
        None => Err(DerPathError::OuterSequence),
        Some((c, _)) => match spec_read_sequence(c) {
            None => Err(DerPathError::InnerSequence),
            Some((cri, _)) => match spec_read_tlv(cri) {
                None => Err(DerPathError::SkipVersion),
                Some((_, a)) => match spec_read_tlv(a) {
                    None => Err(DerPathError::SkipSubject),
                    Some((_, b)) => match spec_read_tlv(b) {
                        None => Err(DerPathError::Spki),
                        Some((t, _)) => Ok(t),
                    },
                },
            },
        },
    }
}

/// The subject Name TLV of a certificate (the sixth field of the
/// TBSCertificate, after version, serial, algorithm, issuer and validity).
pub open spec fn spec_extract_subject(d: Seq<u8>) -> Result<Seq<u8>, DerPathError> {
    match spec_read_sequence(d) {
        None => Err(DerPathError::OuterSequence),
        Some((c, _)) => match spec_read_sequence(c) {
            None => Err(DerPathError::InnerSequence),
            Some((tbs, _)) => match spec_read_tlv(tbs) {
                None => Err(DerPathError::SkipVersion),
                Some((_, a)) => match spec_read_tlv(a) {
                    None => Err(DerPathError::SkipSerial),
                    Some((_, b)) => match spec_read_tlv(b) {
                        None => Err(DerPathError::SkipAlgorithm),
                        Some((_, c2)) => match spec_read_tlv(c2) {
                            None => Err(DerPathError::SkipIssuer),
                            Some((_, e)) => match spec_read_tlv(e) {
                                None => Err(DerPathError::SkipValidity),
                                Some((_, f)) => match spec_read_tlv(f) {
                                    None => Err(DerPathError::Subject),
                                    Some((t, _)) => Ok(t),
                                },
                            },
                        },
                    },
                },
            },
        },
    }
}

/// Extract the SubjectPublicKeyInfo DER bytes from a CSR DER blob.
pub fn extract_spki_der(csr_der: &[u8]) -> (res: Result<Vec<u8>, DerPathError>)
    ensures
        match res {
            Ok(v) => spec_extract_spki(csr_der@) == Ok::<Seq<u8>, DerPathError>(v@),
            Err(e) => spec_extract_spki(csr_der@) == Err::<Seq<u8>, DerPathError>(e),
        },
{
    let (cri_content, _) = match der_read_sequence(csr_der) {
        Some(x) => x,
        None => return Err(DerPathError::OuterSequence),
    };
    let (cri_inner, _) = match der_read_sequence(cri_content) {
        Some(x) => x,
        None => return Err(DerPathError::InnerSequence),
    };
    let after_version = match der_skip_tlv(cri_inner) {
        Some(x) => x,
        None => return Err(DerPathError::SkipVersion),
    };
    let after_subject = match der_skip_tlv(after_version) {
        Some(x) => x,
        None => return Err(DerPathError::SkipSubject),
    };
    let (spki_bytes, _) = match der_read_tlv(after_subject) {
        Some(x) => x,
        None => return Err(DerPathError::Spki),
    };
    Ok(vstd::slice::slice_to_vec(spki_bytes))
}

/// Extract the subject DER bytes from a CA certificate: the issuer field of
/// the certificates that CA signs.
pub fn extract_subject_der(cert_der: &[u8]) -> (res: Result<Vec<u8>, DerPathError>)
    ensures
        match res {
            Ok(v) => spec_extract_subject(cert_der@) == Ok::<Seq<u8>, DerPathError>(v@),
            Err(e) => spec_extract_subject(cert_der@) == Err::<Seq<u8>, DerPathError>(e),
        },
{
    let (cert_content, _) = match der_read_sequence(cert_der) {
        Some(x) => x,
        None => return Err(DerPathError::OuterSequence),
    };
    let (tbs_content, _) = match der_read_sequence(cert_content) {
        Some(x) => x,
        None => return Err(DerPathError::InnerSequence),
    };
    let after_version = match der_skip_tlv(tbs_content) {
        Some(x) => x,
        None => return Err(DerPathError::SkipVersion),
    };
    let after_serial = match der_skip_tlv(after_version) {
        Some(x) => x,
        None => return Err(DerPathError::SkipSerial),
    };
    let after_alg = match der_skip_tlv(after_serial) {
        Some(x) => x,
        None => return Err(DerPathError::SkipAlgorithm),
    };
    let after_issuer = match der_skip_tlv(after_alg) {
        Some(x) => x,
        None => return Err(DerPathError::SkipIssuer),
    };
    let after_validity = match der_skip_tlv(after_issuer) {
        Some(x) => x,
        None => return Err(DerPathError::SkipValidity),
    };
    let (subject_bytes, _) = match der_read_tlv(after_validity) {
        Some(x) => x,
        None => return Err(DerPathError::Subject),
    };
    Ok(vstd::slice::slice_to_vec(subject_bytes))
}

// ---------------------------------------------------------------------------
// Laws: what the readers give back of what the writers wrote
// ---------------------------------------------------------------------------

/// Reading the length octets that `der_length` wrote gives back the length, for
/// every length below 2^24 (the range `der_length` writes without loss), whatever follows.
pub proof fn lemma_der_length_roundtrip(n: nat, rest: Seq<u8>)
    requires
        n < 0x1000000,
    ensures
        spec_decode_len(spec_der_length(n) + rest) == Some((spec_der_length(n).len(), n)),
{
    let l = spec_der_length(n);
    let d = l + rest;
    let r = usize_range();
    assert(r >= 0x100000000) by {
        assert(usize::MAX >= 0xffff_ffff);
    }
    if n < 0x80 {
        assert(d[0] == n as u8);
    } else if n < 0x100 {
        assert(d[0] == 0x81u8);
        let b = d.subrange(1, 2);
        assert(b.drop_last() =~= Seq::<u8>::empty());
        assert(be_acc(b.drop_last()) == 0);
        assert(b.last() == n as u8);
        vstd::arithmetic::div_mod::lemma_small_mod(n, r);
        assert(be_acc(b) == n);
    } else if n < 0x10000 {
        assert(d[0] == 0x82u8);
        let b = d.subrange(1, 3);
        let b1 = b.drop_last();
        assert(b1.drop_last() =~= Seq::<u8>::empty());
        assert(be_acc(b1.drop_last()) == 0);
        assert(b1.last() == (n / 0x100) as u8);
        vstd::arithmetic::div_mod::lemma_small_mod(n / 0x100, r);
        assert(be_acc(b1) == n / 0x100);
        assert(b.last() == (n % 0x100) as u8);
        assert((n / 0x100) * 256 + n % 0x100 == n);
        vstd::arithmetic::div_mod::lemma_small_mod(n, r);
        assert(be_acc(b) == n);
    } else {
        assert(d[0] == 0x83u8);
        let b = d.subrange(1, 4);
        let b1 = b.drop_last();
        let b2 = b1.drop_last();
        assert(b2.drop_last() =~= Seq::<u8>::empty());
        assert(be_acc(b2.drop_last()) == 0);
        assert(b2.last() == ((n / 0x10000) % 0x100) as u8);
        assert((n / 0x10000) % 0x100 == n / 0x10000);
        vstd::arithmetic::div_mod::lemma_small_mod(n / 0x10000, r);
        assert(be_acc(b2) == n / 0x10000);
        assert(b1.last() == ((n / 0x100) % 0x100) as u8);
        assert((n / 0x10000) * 256 + (n / 0x100) % 0x100 == n / 0x100);
        vstd::arithmetic::div_mod::lemma_small_mod(n / 0x100, r);
        assert(be_acc(b1) == n / 0x100);
        assert(b.last() == (n % 0x100) as u8);
        assert((n / 0x100) * 256 + n % 0x100 == n);
        vstd::arithmetic::div_mod::lemma_small_mod(n, r);
        assert(be_acc(b) == n);
    }
}

/// Reading a TLV that `der_tlv` wrote gives back that TLV and exactly what
/// followed it, for every content shorter than 2^24 bytes.
pub proof fn lemma_tlv_roundtrip(tag: u8, content: Seq<u8>, rest: Seq<u8>)
    requires
        content.len() < 0x1000000,
    ensures
        spec_read_tlv(spec_der_tlv(tag, content) + rest) == Some((spec_der_tlv(tag, content), rest)),
{
    let t = spec_der_tlv(tag, content);
    let d = t + rest;
    let l = spec_der_length(content.len());
    assert(d.drop_first() =~= l + (content + rest));
    lemma_der_length_roundtrip(content.len(), content + rest);
    assert(d.subrange(0, t.len() as int) =~= t);
    assert(d.subrange(t.len() as int, d.len() as int) =~= rest);
}

/// Reading a SEQUENCE that `der_sequence` wrote gives back its content and
/// exactly what followed it, for every content shorter than 2^24 bytes.
pub proof fn lemma_sequence_roundtrip(content: Seq<u8>, rest: Seq<u8>)
    requires
        content.len() < 0x1000000,
    ensures
        spec_read_sequence(spec_der_tlv(0x30, content) + rest) == Some((content, rest)),
{
    let t = spec_der_tlv(0x30, content);
    let d = t + rest;
    let l = spec_der_length(content.len());
    assert(d.drop_first() =~= l + (content + rest));
    lemma_der_length_roundtrip(content.len(), content + rest);
    assert(d.subrange((1 + l.len()) as int, t.len() as int) =~= content);
    assert(d.subrange(t.len() as int, d.len() as int) =~= rest);
}

} // verus!
