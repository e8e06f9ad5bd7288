//! What the dns-01 checks decide, apart from the DNS queries themselves:
//! which zones to ask for authoritative name servers, the TXT record name
//! and value a challenge expects, and when a propagation wait ends.
use crate::codec::{base64_url, base64_url_encode, sha256, sha256_digest};
use crate::policy::strip_trailing_dots;
use crate::text::{chars_of, joined, split, split_chars, string_from_chars, views};
use vstd::prelude::*;

verus! {

/// The zones asked for authoritative name servers, nearest first: the name
/// without trailing dots, then each parent, down to (not including) the top
/// label; each with a final dot where `absolute`.
pub open spec fn zone_candidates(name: Seq<char>, absolute: bool) -> Seq<Seq<char>> {
    let labels = split(strip_trailing_dots(name), '.');
    let n = if labels.len() > 0 { labels.len() - 1 } else { 0 };
    Seq::new(
        n as nat,
        |i: int| joined(labels.subrange(i, labels.len() as int), "."@) + if absolute { "."@ } else { Seq::empty() },
    )
}

fn strip_dots(name: &str) -> (r: Vec<char>)
    ensures
        r@ == strip_trailing_dots(name@),
{
    let chars = chars_of(name);
    let mut end: usize = chars.len();
    assert(chars@.subrange(0, end as int) =~= chars@);
    while end > 0 && chars[end - 1] == '.'
        invariant
            end <= chars@.len(),
            chars@ == name@,
            strip_trailing_dots(name@) == strip_trailing_dots(chars@.subrange(0, end as int)),
        decreases end,
    {
        assert(chars@.subrange(0, end as int).drop_last() =~= chars@.subrange(0, end - 1));
        end = end - 1;
    }
    proof {
        let t = chars@.subrange(0, end as int);
        if t.len() > 0 {
            assert(t.last() == chars@[end - 1]);
        }
    }
    vstd::slice::slice_to_vec(&chars[0..end])
}

/// The zones to ask, nearest first (see `zone_candidates`).
pub fn zones_to_ask(name: &str, absolute: bool) -> (res: Vec<String>)
    ensures
        views(res@) == zone_candidates(name@, absolute),
{
    let stripped = strip_dots(name);
    let parts = split_chars(stripped.as_slice(), '.');
    let mut labels: Vec<String> = Vec::new();
    let mut i: usize = 0;
    while i < parts.len()
        invariant
            i <= parts@.len(),
            labels@.len() == i,
            forall|k: int| 0 <= k < i ==> (#[trigger] labels@[k])@ == parts@[k]@,
        decreases parts@.len() - i,
    {
        labels.push(string_from_chars(parts[i].as_slice()));
        i = i + 1;
    }
    let ghost lv = split(strip_trailing_dots(name@), '.');
    assert(views(labels@) =~= lv) by {
        assert(parts@.map_values(|p: Vec<char>| p@) == lv);
        assert forall|k: int| 0 <= k < lv.len() implies views(labels@)[k] == lv[k] by {
            assert(parts@.map_values(|p: Vec<char>| p@)[k] == parts@[k]@);
        }
    }
    let n = labels.len();
    let count = if n > 0 { n - 1 } else { 0 };
    let mut out: Vec<String> = Vec::new();
    let mut start: usize = 0;
    proof {
        reveal_strlit(".");
        reveal_strlit("");
    }
    while start < count
        invariant
            lv == split(strip_trailing_dots(name@), '.'),
            count == (if lv.len() > 0 { lv.len() - 1 } else { 0 }),
            n == lv.len(),
            views(labels@) == lv,
            start <= count,
            out@.len() == start,
            forall|k: int| 0 <= k < start ==> (#[trigger] out@[k])@ == zone_candidates(name@, absolute)[k],
        decreases count - start,
    {
        let tail = vstd::slice::slice_subrange(labels.as_slice(), start, n);
        assert(views(tail@) =~= lv.subrange(start as int, n as int));
        let mut zone = crate::text::join_texts(tail, ".");
        if absolute {
            zone.append(".");
        }
        proof {
            let j = joined(lv.subrange(start as int, lv.len() as int), "."@);
            assert(joined(views(tail@), "."@) == j);
            let zc = zone_candidates(name@, absolute);
            assert(zc.len() == count);
            assert(zc[start as int] == j + if absolute { "."@ } else { Seq::<char>::empty() });
            if absolute {
                assert(zone@ =~= j + "."@);
            } else {
                assert(zone@ =~= j + Seq::<char>::empty());
            }
        }
        out.push(zone);
        start = start + 1;
    }
    assert(views(out@) =~= zone_candidates(name@, absolute));
    out
}

/// The TXT record a dns-01 check looks up: `_acme-challenge.`, the domain
/// without trailing dots, and a final dot.
pub open spec fn spec_dns01_lookup_name(domain: Seq<char>) -> Seq<char> {
    "_acme-challenge."@ + strip_trailing_dots(domain) + "."@
}

pub fn dns01_lookup_name(domain: &str) -> (r: String)
    ensures
        r@ == spec_dns01_lookup_name(domain@),
{
    let d = strip_dots(domain);
    let mut r = String::from_str("_acme-challenge.");
    r.append(string_from_chars(d.as_slice()).as_str());
    r.append(".");
    r
}

/// The TXT value a dns-01 challenge expects: the URL-safe Base64 of the
/// SHA-256 of the key authorization (RFC 8555 §8.4).
pub open spec fn spec_dns01_value(key_authorization: Seq<char>) -> Seq<char> {
    base64_url(sha256(vstd::utf8::encode_utf8(key_authorization)))
}

pub fn dns01_value(key_authorization: &str) -> (r: String)
    ensures
        r@ == spec_dns01_value(key_authorization@),
{
    let digest = sha256_digest(key_authorization.as_bytes());
    base64_url_encode(digest.as_slice())
}

/// A dns-01 challenge passes where one of the authoritative name servers
/// serves the expected value; with no name server found it fails.
pub fn dns01_verdict(found_per_server: &Vec<bool>) -> (b: bool)
    ensures
        b == exists|i: int| 0 <= i < found_per_server@.len() && found_per_server@[i],
{
    let mut i: usize = 0;
    while i < found_per_server.len()
        invariant
            i <= found_per_server@.len(),
            forall|k: int| 0 <= k < i ==> !found_per_server@[k],
        decreases found_per_server@.len() - i,
    {
        if found_per_server[i] {
            return true;
        }
        i = i + 1;
    }
    false
}

/// How many times Shepherd looks for a propagated TXT record, ten seconds apart.
pub const PROPAGATION_ATTEMPTS: u32 = 100;

/// What Shepherd does after one round of looking for a TXT record on every
/// authoritative name server.
pub enum PropagationStep {
    /// Every name server serves it.
    Propagated,
    /// Wait ten seconds and look again.
    WaitAndRetry,
    /// The attempts are used up.
    TimedOut,
}

/// After attempt `attempt` (counting from 1): propagated where every name
/// server served the value, else another attempt until the hundredth.
pub fn propagation_step(attempt: u32, served: &Vec<bool>) -> (r: PropagationStep)
    ensures
        (forall|i: int| 0 <= i < served@.len() ==> served@[i]) ==> r == PropagationStep::Propagated,
        !(forall|i: int| 0 <= i < served@.len() ==> served@[i]) ==> (if attempt < PROPAGATION_ATTEMPTS {
            r == PropagationStep::WaitAndRetry
        } else {
            r == PropagationStep::TimedOut
        }),
{
    let mut all_ok = true;
    let mut i: usize = 0;
    while i < served.len()
        invariant
            i <= served@.len(),
            all_ok == (forall|k: int| 0 <= k < i ==> served@[k]),
        decreases served@.len() - i,
    {
        all_ok = all_ok && served[i];
        i = i + 1;
    }
    if all_ok {
        PropagationStep::Propagated
    } else if attempt < PROPAGATION_ATTEMPTS {
        PropagationStep::WaitAndRetry
    } else {
        PropagationStep::TimedOut
    }
}

} // verus!
