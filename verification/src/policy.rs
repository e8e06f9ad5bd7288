//! Vigil's issuance policy: which DNS names, identity URIs and IP addresses a
//! certificate request may carry.
use crate::codec::{pem_contents, pem_decode};
use crate::der::{is_ip_san, is_ipv4_text, is_uri_san, is_uri_text};
use crate::text::{
    join_texts, joined, chars_of, contains, contains_chars, ends_with, ends_with_chars, is_ascii_seq, starts_with,
    starts_with_chars, str_lt, string_from_chars, strictly_sorted, sorted_dedup, to_lowercase,
    trim, trim_str, unicode_lower, views,
};
use crate::x509::{
    csr_names_of, csr_subject_of, name_views, opt_text, parse_csr_names, parse_csr_subject,
    subject_values, CsrName, CsrNameView,
};
use vstd::prelude::*;

verus! {

/// The issuance policy of a Vigil CA.
pub struct IssuancePolicyConfig {
    pub allowed_dns_suffixes: Vec<String>,
    pub allow_subdomains: bool,
    pub allow_bare_suffix: bool,
    pub allowed_identity_uri_prefixes: Vec<String>,
    pub allow_ip_sans: bool,
}

/// The three kinds of identifier the policy tells apart.
#[derive(Debug, Clone, Copy, PartialEq, Eq, Structural)]
pub enum IdKind {
    Dns,
    Uri,
    Ip,
}

/// An IPv4 dotted quad, or anything holding a `:` that is no URI (an IPv6 address).
pub open spec fn is_ip_text(v: Seq<char>) -> bool {
    is_ipv4_text(v) || (contains(v, seq![':']) && !is_uri_text(v))
}

/// How a requested SAN text is classified.
pub open spec fn san_kind(v: Seq<char>) -> IdKind {
    if is_ip_text(v) {
        IdKind::Ip
    } else if is_uri_text(v) {
        IdKind::Uri
    } else {
        IdKind::Dns
    }
}

/// `s` without its trailing dots.
pub open spec fn strip_trailing_dots(s: Seq<char>) -> Seq<char>
    decreases s.len(),
{
    if s.len() > 0 && s.last() == '.' {
        strip_trailing_dots(s.drop_last())
    } else {
        s
    }
}

/// A DNS name trimmed, lowered and without trailing dots.
pub open spec fn normalized_dns(name: Seq<char>) -> Seq<char> {
    strip_trailing_dots(unicode_lower(trim(name)))
}

/// Whether the normalized name `n` falls under one allowed suffix.
pub open spec fn suffix_admits(n: Seq<char>, suffix: Seq<char>, allow_subdomains: bool, allow_bare_suffix: bool) -> bool {
    let ns = normalized_dns(suffix);
    ns.len() > 0 && (if n == ns {
        allow_bare_suffix
    } else {
        allow_subdomains && ends_with(n, seq!['.'] + ns)
    })
}

/// Whether a DNS name is allowed under a list of suffixes (any name is, under none).
pub open spec fn dns_allowed(name: Seq<char>, suffixes: Seq<Seq<char>>, allow_subdomains: bool, allow_bare_suffix: bool) -> bool {
    suffixes.len() == 0 || exists|i: int|
        0 <= i < suffixes.len() && #[trigger] suffix_admits(
            normalized_dns(name),
            suffixes[i],
            allow_subdomains,
            allow_bare_suffix,
        )
}

/// Whether a URI begins with one of the allowed prefixes.
pub open spec fn uri_prefixed(uri: Seq<char>, prefixes: Seq<Seq<char>>) -> bool {
    exists|i: int| 0 <= i < prefixes.len() && #[trigger] starts_with(uri, prefixes[i])
}

/// The texts of `s` that meet `p`, in order.
pub open spec fn keep(s: Seq<Seq<char>>, p: spec_fn(Seq<char>) -> bool) -> Seq<Seq<char>>
    decreases s.len(),
{
    if s.len() == 0 {
        s
    } else {
        let r = keep(s.drop_last(), p);
        if p(s.last()) {
            r.push(s.last())
        } else {
            r
        }
    }
}

pub proof fn lemma_keep_to_set(s: Seq<Seq<char>>, p: spec_fn(Seq<char>) -> bool)
    ensures
        keep(s, p).to_set() == s.to_set().filter(p),
    decreases s.len(),
{
    if s.len() == 0 {
        assert(s.to_set() =~= Set::empty());
        assert(keep(s, p).to_set() =~= s.to_set().filter(p));
    } else {
        lemma_keep_to_set(s.drop_last(), p);
        keep(s.drop_last(), p).lemma_push_to_set_commute(s.last());
        s.drop_last().lemma_push_to_set_commute(s.last());
        assert(s.drop_last().push(s.last()) =~= s);
        assert(keep(s, p).to_set() =~= s.to_set().filter(p));
    }
}

/// Decimal text of a byte.
pub open spec fn digit(d: u8) -> char {
    (48 + d) as char
}

pub open spec fn byte_text(b: u8) -> Seq<char> {
    if b < 10 {
        seq![digit(b)]
    } else if b < 100 {
        seq![digit(b / 10), digit(b % 10)]
    } else {
        seq![digit(b / 100), digit((b / 10) % 10), digit(b % 10)]
    }
}

/// The dotted-quad text of four address bytes.
pub open spec fn dotted_quad(b: Seq<u8>) -> Seq<char> {
    byte_text(b[0]) + seq!['.'] + byte_text(b[1]) + seq!['.'] + byte_text(b[2]) + seq!['.']
        + byte_text(b[3])
}

/// What one subject attribute of a CSR contributes: its trimmed text, if it
/// is a string and not empty, as an IP address or else a DNS name.
pub open spec fn subject_entry(v: Option<Seq<char>>) -> Option<(IdKind, Seq<char>)> {
    match v {
        Some(s) => {
            let t = trim(s);
            if t.len() == 0 {
                None
            } else if is_ip_text(t) {
                Some((IdKind::Ip, t))
            } else {
                Some((IdKind::Dns, t))
            }
        },
        None => None,
    }
}

/// What one requested subjectAltName contributes: a trimmed DNS name or URI
/// (if not empty), or an IP address as text (`(ipv6)` for sixteen bytes).
pub open spec fn name_entry(n: CsrNameView) -> Option<(IdKind, Seq<char>)> {
    match n {
        CsrNameView::Dns(s) => if trim(s).len() > 0 {
            Some((IdKind::Dns, trim(s)))
        } else {
            None
        },
        CsrNameView::Uri(s) => if trim(s).len() > 0 {
            Some((IdKind::Uri, trim(s)))
        } else {
            None
        },
        CsrNameView::Ip(b) => if b.len() == 4 {
            Some((IdKind::Ip, dotted_quad(b)))
        } else if b.len() == 16 {
            Some((IdKind::Ip, seq!['(', 'i', 'p', 'v', '6', ')']))
        } else {
            None
        },
        CsrNameView::Other => None,
    }
}

/// The texts of kind `k` that the subject attributes contribute, in order.
pub open spec fn subject_ids(values: Seq<Option<Seq<char>>>, k: IdKind) -> Seq<Seq<char>>
    decreases values.len(),
{
    if values.len() == 0 {
        Seq::empty()
    } else {
        let r = subject_ids(values.drop_last(), k);
        match subject_entry(values.last()) {
            Some(e) => if e.0 == k {
                r.push(e.1)
            } else {
                r
            },
            None => r,
        }
    }
}

/// The texts of kind `k` that the requested subjectAltNames contribute, in order.
pub open spec fn name_ids(names: Seq<CsrNameView>, k: IdKind) -> Seq<Seq<char>>
    decreases names.len(),
{
    if names.len() == 0 {
        Seq::empty()
    } else {
        let r = name_ids(names.drop_last(), k);
        match name_entry(names.last()) {
            Some(e) => if e.0 == k {
                r.push(e.1)
            } else {
                r
            },
            None => r,
        }
    }
}

/// The identifiers a CSR carries, each list sorted and without repeats.
pub struct CsrIdentifiers {
    pub dns_names: Vec<String>,
    pub uri_names: Vec<String>,
    pub ip_names: Vec<String>,
}

impl CsrIdentifiers {
    pub open spec fn names_of(&self, k: IdKind) -> Seq<String> {
        match k {
            IdKind::Dns => self.dns_names@,
            IdKind::Uri => self.uri_names@,
            IdKind::Ip => self.ip_names@,
        }
    }

    /// Each list holds, sorted and once each, the texts of its kind that the
    /// subject attributes and requested names contribute.
    pub open spec fn gathered_from(&self, values: Seq<Option<Seq<char>>>, names: Seq<CsrNameView>) -> bool {
        forall|k: IdKind|
            strictly_sorted(views(#[trigger] self.names_of(k))) && views(self.names_of(k)).to_set()
                == (subject_ids(values, k) + name_ids(names, k)).to_set()
    }

    pub open spec fn is_empty_spec(&self) -> bool {
        self.dns_names@.len() == 0 && self.uri_names@.len() == 0 && self.ip_names@.len() == 0
    }
}

/// Whether `value` reads as an IP address.
pub fn is_ip_address(value: &str) -> (b: bool)
    ensures
        b == is_ip_text(value@),
{
    if is_ip_san(value) {
        return true;
    }
    let v = chars_of(value);
    let colon: Vec<char> = vec![':'];
    assert(colon@ =~= seq![':']);
    contains_chars(v.as_slice(), colon.as_slice()) && !is_uri_san(value)
}

/// Whether `value` reads as a URI (it holds `://`).
pub fn is_uri(value: &str) -> (b: bool)
    ensures
        b == is_uri_text(value@),
{
    is_uri_san(value)
}

proof fn lemma_strip_stops(s: Seq<char>, n: int)
    requires
        0 <= n <= s.len(),
        n == 0 || s[n - 1] != '.',
        forall|k: int| n <= k < s.len() ==> s[k] == '.',
    ensures
        strip_trailing_dots(s) == s.subrange(0, n),
    decreases s.len() - n,
{
    if n < s.len() {
        lemma_strip_stops(s.drop_last(), n);
        assert(s.drop_last().subrange(0, n) =~= s.subrange(0, n));
    } else {
        assert(s.subrange(0, n) =~= s);
    }
}

/// A DNS name trimmed, lowered, and without trailing dots.
pub fn normalize_dns(name: &str) -> (res: String)
    ensures
        res@ == normalized_dns(name@),
{
    let t = trim_str(name);
    let l = to_lowercase(t.as_str());
    let v = chars_of(l.as_str());
    let mut n: usize = v.len();
    while n > 0 && v[n - 1] == '.'
        invariant
            n <= v@.len(),
            forall|k: int| n <= k < v@.len() ==> v@[k] == '.',
        decreases n,
    {
        n = n - 1;
    }
    proof {
        lemma_strip_stops(v@, n as int);
    }
    string_from_chars(&v.as_slice()[0..n])
}

fn text_eq(a: &[char], b: &[char]) -> (r: bool)
    ensures
        r == (a@ == b@),
{
    let r = a.len() == b.len() && starts_with_chars(a, b);
    proof {
        if a@.len() == b@.len() {
            assert(a@.subrange(0, b@.len() as int) =~= a@);
        }
    }
    r
}

fn suffix_matches(n: &[char], suffix: &String, allow_subdomains: bool, allow_bare_suffix: bool) -> (b: bool)
    ensures
        b == suffix_admits(n@, suffix@, allow_subdomains, allow_bare_suffix),
{
    let ns = normalize_dns(suffix.as_str());
    let mut nsv = chars_of(ns.as_str());
    if nsv.len() == 0 {
        return false;
    }
    if text_eq(n, nsv.as_slice()) {
        return allow_bare_suffix;
    }
    let mut dotted: Vec<char> = vec!['.'];
    let ghost tail = nsv@;
    dotted.append(&mut nsv);
    assert(dotted@ =~= seq!['.'] + tail);
    allow_subdomains && ends_with_chars(n, dotted.as_slice())
}

/// Whether `name` is allowed under the suffixes: always under none; else it
/// must equal a (normalized, non-empty) suffix where bare suffixes are allowed,
/// or end in `.` and the suffix where subdomains are.
pub fn is_allowed_dns(name: &str, suffixes: &[String], allow_subdomains: bool, allow_bare_suffix: bool) -> (b: bool)
    ensures
        b == dns_allowed(name@, views(suffixes@), allow_subdomains, allow_bare_suffix),
{
    if suffixes.len() == 0 {
        return true;
    }
    let normalized = normalize_dns(name);
    let nv = chars_of(normalized.as_str());
    let mut i: usize = 0;
    while i < suffixes.len()
        invariant
            i <= suffixes@.len(),
            nv@ == normalized_dns(name@),
            forall|k: int|
                0 <= k < i ==> !suffix_admits(
                    normalized_dns(name@),
                    #[trigger] views(suffixes@)[k],
                    allow_subdomains,
                    allow_bare_suffix,
                ),
        decreases suffixes@.len() - i,
    {
        if suffix_matches(nv.as_slice(), &suffixes[i], allow_subdomains, allow_bare_suffix) {
            assert(views(suffixes@)[i as int] == suffixes@[i as int]@);
            return true;
        }
        assert(views(suffixes@)[i as int] == suffixes@[i as int]@);
        i = i + 1;
    }
    false
}

fn byte_chars(b: u8) -> (v: Vec<char>)
    ensures
        v@ == byte_text(b),
{
    if b < 10 {
        vec![(48u8 + b) as char]
    } else if b < 100 {
        vec![(48u8 + b / 10) as char, (48u8 + b % 10) as char]
    } else {
        vec![(48u8 + b / 100) as char, (48u8 + (b / 10) % 10) as char, (48u8 + b % 10) as char]
    }
}

pub(crate) fn dotted_quad_text(b: &[u8]) -> (res: String)
    requires
        b@.len() == 4,
    ensures
        res@ == dotted_quad(b@),
{
    let mut out: Vec<char> = byte_chars(b[0]);
    let mut i: usize = 1;
    while i < 4
        invariant
            1 <= i <= 4,
            b@.len() == 4,
            out@ == (if i == 1 {
                byte_text(b@[0])
            } else if i == 2 {
                byte_text(b@[0]) + seq!['.'] + byte_text(b@[1])
            } else if i == 3 {
                byte_text(b@[0]) + seq!['.'] + byte_text(b@[1]) + seq!['.'] + byte_text(b@[2])
            } else {
                dotted_quad(b@)
            }),
        decreases 4 - i,
    {
        let ghost before = out@;
        out.push('.');
        let mut part = byte_chars(b[i]);
        out.append(&mut part);
        proof {
            if i == 1 {
                assert(out@ =~= byte_text(b@[0]) + seq!['.'] + byte_text(b@[1]));
            } else if i == 2 {
                assert(out@ =~= byte_text(b@[0]) + seq!['.'] + byte_text(b@[1]) + seq!['.'] + byte_text(b@[2]));
            } else {
                assert(out@ =~= dotted_quad(b@));
            }
        }
        i = i + 1;
    }
    string_from_chars(out.as_slice())
}

fn subject_entry_of(v: &Option<String>) -> (r: Option<(IdKind, String)>)
    ensures
        match r {
            Some(e) => subject_entry(opt_text(*v)) == Some((e.0, e.1@)),
            None => subject_entry(opt_text(*v)) is None,
        },
{
    match v {
        Some(s) => {
            let t = trim_str(s.as_str());
            if t.as_str().unicode_len() == 0 {
                None
            } else if is_ip_address(t.as_str()) {
                Some((IdKind::Ip, t))
            } else {
                Some((IdKind::Dns, t))
            }
        },
        None => None,
    }
}

fn name_entry_of(n: &CsrName) -> (r: Option<(IdKind, String)>)
    ensures
        match r {
            Some(e) => name_entry(n@) == Some((e.0, e.1@)),
            None => name_entry(n@) is None,
        },
{
    match n {
        CsrName::Dns(s) => {
            let t = trim_str(s.as_str());
            if t.as_str().unicode_len() == 0 {
                None
            } else {
                Some((IdKind::Dns, t))
            }
        },
        CsrName::Uri(s) => {
            let t = trim_str(s.as_str());
            if t.as_str().unicode_len() == 0 {
                None
            } else {
                Some((IdKind::Uri, t))
            }
        },
        CsrName::Ip(b) => {
            if b.len() == 4 {
                Some((IdKind::Ip, dotted_quad_text(b.as_slice())))
            } else if b.len() == 16 {
                let v: Vec<char> = vec!['(', 'i', 'p', 'v', '6', ')'];
                assert(v@ =~= seq!['(', 'i', 'p', 'v', '6', ')']);
                Some((IdKind::Ip, string_from_chars(v.as_slice())))
            } else {
                None
            }
        },
        CsrName::Other => None,
    }
}

/// Appends `t` to the list of its kind.
fn push_by_kind(dns: &mut Vec<String>, uri: &mut Vec<String>, ip: &mut Vec<String>, k: IdKind, t: String)
    ensures
        views(final(dns)@) == (if k == IdKind::Dns { views(old(dns)@).push(t@) } else { views(old(dns)@) }),
        views(final(uri)@) == (if k == IdKind::Uri { views(old(uri)@).push(t@) } else { views(old(uri)@) }),
        views(final(ip)@) == (if k == IdKind::Ip { views(old(ip)@).push(t@) } else { views(old(ip)@) }),
{
    let ghost t_view = t@;
    match k {
        IdKind::Dns => dns.push(t),
        IdKind::Uri => uri.push(t),
        IdKind::Ip => ip.push(t),
    }
    assert(views(dns@) =~= (if k == IdKind::Dns { views(old(dns)@).push(t_view) } else { views(old(dns)@) }));
    assert(views(uri@) =~= (if k == IdKind::Uri { views(old(uri)@).push(t_view) } else { views(old(uri)@) }));
    assert(views(ip@) =~= (if k == IdKind::Ip { views(old(ip)@).push(t_view) } else { views(old(ip)@) }));
}

/// The identifiers of a CSR, from its subject attribute values and requested
/// names: each kind sorted, once each.
pub fn identifiers_from_parts(values: &[Option<String>], names: &[CsrName]) -> (ids: CsrIdentifiers)
    ensures
        ids.gathered_from(values@.map_values(|o: Option<String>| opt_text(o)), name_views(names@)),
{
    let ghost vs = values@.map_values(|o: Option<String>| opt_text(o));
    let ghost ns = name_views(names@);
    let mut dns: Vec<String> = Vec::new();
    let mut uri: Vec<String> = Vec::new();
    let mut ip: Vec<String> = Vec::new();
    let mut i: usize = 0;
    assert(views(dns@) =~= Seq::<Seq<char>>::empty());
    assert(views(uri@) =~= Seq::<Seq<char>>::empty());
    assert(views(ip@) =~= Seq::<Seq<char>>::empty());
    while i < values.len()
        invariant
            i <= values@.len(),
            vs == values@.map_values(|o: Option<String>| opt_text(o)),
            views(dns@) == subject_ids(vs.subrange(0, i as int), IdKind::Dns),
            views(uri@) == subject_ids(vs.subrange(0, i as int), IdKind::Uri),
            views(ip@) == subject_ids(vs.subrange(0, i as int), IdKind::Ip),
        decreases values@.len() - i,
    {
        proof {
            assert(vs.subrange(0, i + 1).drop_last() =~= vs.subrange(0, i as int));
            assert(vs.subrange(0, i + 1).last() == opt_text(values@[i as int]));
        }
        match subject_entry_of(&values[i]) {
            Some(e) => {
                let (k, t) = e;
                push_by_kind(&mut dns, &mut uri, &mut ip, k, t);
            },
            None => {},
        }
        i = i + 1;
    }
    assert(vs.subrange(0, values@.len() as int) =~= vs);
    let mut j: usize = 0;
    assert(name_ids(ns.subrange(0, 0), IdKind::Dns) =~= Seq::<Seq<char>>::empty());
    assert(name_ids(ns.subrange(0, 0), IdKind::Uri) =~= Seq::<Seq<char>>::empty());
    assert(name_ids(ns.subrange(0, 0), IdKind::Ip) =~= Seq::<Seq<char>>::empty());
    assert(views(dns@) =~= subject_ids(vs, IdKind::Dns) + name_ids(ns.subrange(0, 0), IdKind::Dns));
    assert(views(uri@) =~= subject_ids(vs, IdKind::Uri) + name_ids(ns.subrange(0, 0), IdKind::Uri));
    assert(views(ip@) =~= subject_ids(vs, IdKind::Ip) + name_ids(ns.subrange(0, 0), IdKind::Ip));
    while j < names.len()
        invariant
            j <= names@.len(),
            ns == name_views(names@),
            views(dns@) == subject_ids(vs, IdKind::Dns) + name_ids(ns.subrange(0, j as int), IdKind::Dns),
            views(uri@) == subject_ids(vs, IdKind::Uri) + name_ids(ns.subrange(0, j as int), IdKind::Uri),
            views(ip@) == subject_ids(vs, IdKind::Ip) + name_ids(ns.subrange(0, j as int), IdKind::Ip),
        decreases names@.len() - j,
    {
        proof {
            assert(ns.subrange(0, j + 1).drop_last() =~= ns.subrange(0, j as int));
            assert(ns.subrange(0, j + 1).last() == names@[j as int]@);
        }
        let ghost d0 = views(dns@);
        let ghost u0 = views(uri@);
        let ghost p0 = views(ip@);
        match name_entry_of(&names[j]) {
            Some(e) => {
                let (k, t) = e;
                push_by_kind(&mut dns, &mut uri, &mut ip, k, t);
            },
            None => {},
        }
        proof {
            let nj = ns.subrange(0, j + 1);
            assert(views(dns@) =~= subject_ids(vs, IdKind::Dns) + name_ids(nj, IdKind::Dns));
            assert(views(uri@) =~= subject_ids(vs, IdKind::Uri) + name_ids(nj, IdKind::Uri));
            assert(views(ip@) =~= subject_ids(vs, IdKind::Ip) + name_ids(nj, IdKind::Ip));
        }
        j = j + 1;
    }
    assert(ns.subrange(0, names@.len() as int) =~= ns);
    let ids = CsrIdentifiers {
        dns_names: sorted_dedup(&dns),
        uri_names: sorted_dedup(&uri),
        ip_names: sorted_dedup(&ip),
    };
    assert forall|k: IdKind|
        strictly_sorted(views(#[trigger] ids.names_of(k))) && views(ids.names_of(k)).to_set()
            == (subject_ids(vs, k) + name_ids(ns, k)).to_set() by {
        match k {
            IdKind::Dns => {},
            IdKind::Uri => {},
            IdKind::Ip => {},
        }
    }
    ids
}

/// The identifiers a CSR in PEM carries; none where the PEM or the CSR in it
/// does not parse.
pub fn extract_identifiers_from_csr(csr_pem: &str) -> (ids: CsrIdentifiers)
    ensures
        match pem_contents(csr_pem@) {
            Some(der) => match (csr_subject_of(der), csr_names_of(der)) {
                (Some(subject), Some(names)) => ids.gathered_from(subject.1, names),
                _ => ids.is_empty_spec(),
            },
            None => ids.is_empty_spec(),
        },
{
    let empty = CsrIdentifiers { dns_names: Vec::new(), uri_names: Vec::new(), ip_names: Vec::new() };
    let der = match pem_decode(csr_pem) {
        Some(d) => d,
        None => return empty,
    };
    let subject = parse_csr_subject(der.as_slice());
    let names = parse_csr_names(der.as_slice());
    match (subject, names) {
        (Some(s), Some(n)) => {
            let ids = identifiers_from_parts(s.values.as_slice(), n.as_slice());
            assert(s.values@.map_values(|o: Option<String>| opt_text(o)) =~= subject_values(s));
            ids
        },
        _ => empty,
    }
}

/// The extra SAN texts of kind `k`, in order.
pub open spec fn extra_of(extra: Seq<Seq<char>>, k: IdKind) -> Seq<Seq<char>> {
    keep(extra, |t: Seq<char>| san_kind(t) == k)
}

/// All identifiers of kind `k` a request carries: those of the CSR and the extra SANs.
pub open spec fn requested_set(ids: &CsrIdentifiers, extra: Seq<Seq<char>>, k: IdKind) -> Set<Seq<char>> {
    views(ids.names_of(k)).to_set().union(extra_of(extra, k).to_set())
}

/// The identifiers of kind `k` that a CSR in PEM carries (none where it does not parse).
pub open spec fn csr_ids(csr_pem: Seq<char>, k: IdKind) -> Set<Seq<char>> {
    match pem_contents(csr_pem) {
        Some(der) => match (csr_subject_of(der), csr_names_of(der)) {
            (Some(subject), Some(names)) => (subject_ids(subject.1, k) + name_ids(names, k)).to_set(),
            _ => Set::empty(),
        },
        None => Set::empty(),
    }
}

pub proof fn lemma_concat_to_set(a: Seq<Seq<char>>, b: Seq<Seq<char>>)
    ensures
        (a + b).to_set() == a.to_set().union(b.to_set()),
{
    assert forall|t: Seq<char>| (a + b).to_set().contains(t) <==> a.to_set().union(b.to_set()).contains(t) by {
        if (a + b).to_set().contains(t) {
            let i = choose|i: int| 0 <= i < (a + b).len() && (a + b)[i] == t;
            if i < a.len() {
                assert(a[i] == t);
            } else {
                assert(b[i - a.len()] == t);
            }
        }
        if a.to_set().contains(t) {
            let i = choose|i: int| 0 <= i < a.len() && a[i] == t;
            assert((a + b)[i] == t);
        }
        if b.to_set().contains(t) {
            let i = choose|i: int| 0 <= i < b.len() && b[i] == t;
            assert((a + b)[a.len() + i] == t);
        }
    }
    assert((a + b).to_set() =~= a.to_set().union(b.to_set()));
}

/// The policy's verdict on the DNS names, identity URIs and IP addresses a
/// request carries: IP addresses are refused first (where the policy allows
/// none), then DNS names outside the allowed suffixes (where any are listed),
/// then identity URIs outside the allowed prefixes (where any are listed).
/// Each error lists, sorted and once each, every offending name of its kind.
pub open spec fn policy_verdict(
    dns: Set<Seq<char>>,
    uris: Set<Seq<char>>,
    ips: Set<Seq<char>>,
    policy: &IssuancePolicyConfig,
    res: Result<(), PolicyError>,
) -> bool {
    let bad_dns = dns.filter(dns_refused(policy));
    let bad_uris = uris.filter(uri_refused(policy));
    let ip_refused = !policy.allow_ip_sans && ips != Set::<Seq<char>>::empty();
    let dns_fails = policy.allowed_dns_suffixes@.len() > 0 && bad_dns != Set::<Seq<char>>::empty();
    let uri_fails = policy.allowed_identity_uri_prefixes@.len() > 0 && bad_uris != Set::<Seq<char>>::empty();
    match res {
        Ok(()) => !ip_refused && !dns_fails && !uri_fails,
        Err(PolicyError::IpSansNotAllowed(l)) => ip_refused && lists(l@, ips),
        Err(PolicyError::DnsOutsideSuffixes(l)) => !ip_refused && dns_fails && lists(l@, bad_dns),
        Err(PolicyError::UrisOutsidePrefixes(l)) => !ip_refused && !dns_fails && uri_fails && lists(
            l@,
            bad_uris,
        ),
    }
}

pub open spec fn dns_refused(p: &IssuancePolicyConfig) -> spec_fn(Seq<char>) -> bool {
    |d: Seq<char>|
        !dns_allowed(d, views(p.allowed_dns_suffixes@), p.allow_subdomains, p.allow_bare_suffix)
}

pub open spec fn uri_refused(p: &IssuancePolicyConfig) -> spec_fn(Seq<char>) -> bool {
    |u: Seq<char>| !uri_prefixed(u, views(p.allowed_identity_uri_prefixes@))
}

/// `v` holds exactly the texts of `s`, in increasing order, once each.
pub open spec fn lists(v: Seq<String>, s: Set<Seq<char>>) -> bool {
    strictly_sorted(views(v)) && views(v).to_set() == s
}

/// Why a request falls outside the issuance policy, with the offending names.
pub enum PolicyError {
    IpSansNotAllowed(Vec<String>),
    DnsOutsideSuffixes(Vec<String>),
    UrisOutsidePrefixes(Vec<String>),
}

pub open spec fn policy_message(e: &PolicyError) -> Seq<char> {
    match e {
        PolicyError::IpSansNotAllowed(l) => "IP SANs are not allowed by issuance policy: "@ + joined(
            views(l@),
            ", "@,
        ),
        PolicyError::DnsOutsideSuffixes(l) => "DNS names are outside allowed issuance policy suffixes: "@
            + joined(views(l@), ", "@),
        PolicyError::UrisOutsidePrefixes(l) => "Identity URIs are outside allowed issuance policy prefixes: "@
            + joined(views(l@), ", "@),
    }
}

impl PolicyError {
    /// The text the CA answers a refused request with.
    pub fn message(&self) -> (s: String)
        ensures
            s@ == policy_message(self),
    {
        let (mut s, l) = match self {
            PolicyError::IpSansNotAllowed(l) => (String::from_str("IP SANs are not allowed by issuance policy: "), l),
            PolicyError::DnsOutsideSuffixes(l) => (String::from_str("DNS names are outside allowed issuance policy suffixes: "), l),
            PolicyError::UrisOutsidePrefixes(l) => (String::from_str("Identity URIs are outside allowed issuance policy prefixes: "), l),
        };
        let joined_names = join_texts(l.as_slice(), ", ");
        s.append(joined_names.as_str());
        s
    }
}

proof fn lemma_lists_empty(v: Seq<String>, s: Set<Seq<char>>)
    requires
        lists(v, s),
    ensures
        (v.len() == 0) == (s == Set::<Seq<char>>::empty()),
{
    if v.len() == 0 {
        assert(views(v).to_set() =~= Set::<Seq<char>>::empty());
    } else {
        assert(views(v).to_set().contains(views(v)[0]));
    }
}

fn kind_of(value: &str) -> (k: IdKind)
    ensures
        k == san_kind(value@),
{
    if is_ip_address(value) {
        IdKind::Ip
    } else if is_uri(value) {
        IdKind::Uri
    } else {
        IdKind::Dns
    }
}

/// The texts of `ids` (of kind `k`) followed by the extra SANs of that kind.
fn gather(ids: &Vec<String>, extra: &[String], k: IdKind) -> (v: Vec<String>)
    ensures
        views(v@) == views(ids@) + extra_of(views(extra@), k),
{
    let mut v: Vec<String> = Vec::new();
    let mut i: usize = 0;
    while i < ids.len()
        invariant
            i <= ids@.len(),
            views(v@) == views(ids@).subrange(0, i as int),
        decreases ids@.len() - i,
    {
        let ghost before = v@;
        v.push(ids[i].clone());
        assert(v@ =~= before.push(ids@[i as int]));
        assert(views(v@) =~= views(before).push(ids@[i as int]@));
        assert(views(v@) =~= views(ids@).subrange(0, i + 1));
        i = i + 1;
    }
    assert(views(ids@).subrange(0, ids@.len() as int) =~= views(ids@));
    let mut j: usize = 0;
    let ghost ev = views(extra@);
    assert(views(v@) =~= views(ids@) + extra_of(ev.subrange(0, 0), k));
    while j < extra.len()
        invariant
            j <= extra@.len(),
            ev == views(extra@),
            views(v@) == views(ids@) + extra_of(ev.subrange(0, j as int), k),
        decreases extra@.len() - j,
    {
        assert(ev.subrange(0, j + 1).drop_last() =~= ev.subrange(0, j as int));
        assert(ev.subrange(0, j + 1).last() == extra@[j as int]@);
        let ghost before = v@;
        if kind_of(extra[j].as_str()) == k {
            v.push(extra[j].clone());
            assert(v@ =~= before.push(extra@[j as int]));
            assert(views(v@) =~= views(before).push(extra@[j as int]@));
        }
        assert(views(v@) =~= views(ids@) + extra_of(ev.subrange(0, j + 1), k));
        j = j + 1;
    }
    assert(ev.subrange(0, extra@.len() as int) =~= ev);
    v
}

/// The texts of `v` that the suffixes refuse (`dns`) or the prefixes refuse, in order.
fn refused(v: &Vec<String>, policy: &IssuancePolicyConfig, dns: bool) -> (r: Vec<String>)
    ensures
        views(r@) == keep(views(v@), if dns { dns_refused(policy) } else { uri_refused(policy) }),
{
    let ghost p = if dns { dns_refused(policy) } else { uri_refused(policy) };
    let ghost vv = views(v@);
    let mut r: Vec<String> = Vec::new();
    let mut i: usize = 0;
    assert(views(r@) =~= keep(vv.subrange(0, 0), p));
    while i < v.len()
        invariant
            i <= v@.len(),
            vv == views(v@),
            p == (if dns { dns_refused(policy) } else { uri_refused(policy) }),
            views(r@) == keep(vv.subrange(0, i as int), p),
        decreases v@.len() - i,
    {
        assert(vv.subrange(0, i + 1).drop_last() =~= vv.subrange(0, i as int));
        assert(vv.subrange(0, i + 1).last() == v@[i as int]@);
        let bad = if dns {
            !is_allowed_dns(
                v[i].as_str(),
                policy.allowed_dns_suffixes.as_slice(),
                policy.allow_subdomains,
                policy.allow_bare_suffix,
            )
        } else {
            !uri_has_prefix(v[i].as_str(), policy.allowed_identity_uri_prefixes.as_slice())
        };
        if bad {
            r.push(v[i].clone());
        }
        assert(views(r@) =~= keep(vv.subrange(0, i + 1), p));
        i = i + 1;
    }
    assert(vv.subrange(0, v@.len() as int) =~= vv);
    r
}

fn uri_has_prefix(uri: &str, prefixes: &[String]) -> (b: bool)
    ensures
        b == uri_prefixed(uri@, views(prefixes@)),
{
    let u = chars_of(uri);
    let mut i: usize = 0;
    while i < prefixes.len()
        invariant
            i <= prefixes@.len(),
            u@ == uri@,
            forall|k: int| 0 <= k < i ==> !starts_with(uri@, #[trigger] views(prefixes@)[k]),
        decreases prefixes@.len() - i,
    {
        let pv = chars_of(prefixes[i].as_str());
        assert(views(prefixes@)[i as int] == prefixes@[i as int]@);
        if starts_with_chars(u.as_slice(), pv.as_slice()) {
            return true;
        }
        i = i + 1;
    }
    false
}

/// The policy's verdict on a request's identifiers and extra SANs.
pub fn check_identifiers(ids: &CsrIdentifiers, extra_sans: &[String], policy: &IssuancePolicyConfig) -> (res: Result<(), PolicyError>)
    ensures
        policy_verdict(
            requested_set(ids, views(extra_sans@), IdKind::Dns),
            requested_set(ids, views(extra_sans@), IdKind::Uri),
            requested_set(ids, views(extra_sans@), IdKind::Ip),
            policy,
            res,
        ),
{
    let ghost ev = views(extra_sans@);
    let dns_names = sorted_dedup(&gather(&ids.dns_names, extra_sans, IdKind::Dns));
    let uri_names = sorted_dedup(&gather(&ids.uri_names, extra_sans, IdKind::Uri));
    let ip_names = sorted_dedup(&gather(&ids.ip_names, extra_sans, IdKind::Ip));
    proof {
        lemma_concat_to_set(views(ids.dns_names@), extra_of(ev, IdKind::Dns));
        lemma_concat_to_set(views(ids.uri_names@), extra_of(ev, IdKind::Uri));
        lemma_concat_to_set(views(ids.ip_names@), extra_of(ev, IdKind::Ip));
        lemma_lists_empty(ip_names@, requested_set(ids, ev, IdKind::Ip));
    }
    if !policy.allow_ip_sans && ip_names.len() > 0 {
        return Err(PolicyError::IpSansNotAllowed(ip_names));
    }
    if policy.allowed_dns_suffixes.len() > 0 {
        let bad = refused(&dns_names, policy, true);
        let listed = sorted_dedup(&bad);
        proof {
            lemma_keep_to_set(views(dns_names@), dns_refused(policy));
            lemma_lists_empty(listed@, requested_set(ids, ev, IdKind::Dns).filter(dns_refused(policy)));
        }
        if listed.len() > 0 {
            return Err(PolicyError::DnsOutsideSuffixes(listed));
        }
    }
    if policy.allowed_identity_uri_prefixes.len() > 0 {
        let bad = refused(&uri_names, policy, false);
        let listed = sorted_dedup(&bad);
        proof {
            lemma_keep_to_set(views(uri_names@), uri_refused(policy));
            lemma_lists_empty(listed@, requested_set(ids, ev, IdKind::Uri).filter(uri_refused(policy)));
        }
        if listed.len() > 0 {
            return Err(PolicyError::UrisOutsidePrefixes(listed));
        }
    }
    Ok(())
}

/// Checks a CSR (in PEM) and extra SANs against the issuance policy: the
/// verdict on the identifiers the CSR carries together with the extra SANs.
pub fn validate_issuance_policy(csr_pem: &str, extra_sans: &[String], policy: &IssuancePolicyConfig) -> (res: Result<(), PolicyError>)
    ensures
        policy_verdict(
            csr_ids(csr_pem@, IdKind::Dns).union(extra_of(views(extra_sans@), IdKind::Dns).to_set()),
            csr_ids(csr_pem@, IdKind::Uri).union(extra_of(views(extra_sans@), IdKind::Uri).to_set()),
            csr_ids(csr_pem@, IdKind::Ip).union(extra_of(views(extra_sans@), IdKind::Ip).to_set()),
            policy,
            res,
        ),
{
    let ids = extract_identifiers_from_csr(csr_pem);
    proof {
        assert forall|k: IdKind| #[trigger] views(ids.names_of(k)).to_set() == csr_ids(csr_pem@, k) by {
            if !(pem_contents(csr_pem@) matches Some(der) && csr_subject_of(der) is Some && csr_names_of(der) is Some) {
                match k {
                    IdKind::Dns => assert(views(ids.names_of(k)).to_set() =~= Set::<Seq<char>>::empty()),
                    IdKind::Uri => assert(views(ids.names_of(k)).to_set() =~= Set::<Seq<char>>::empty()),
                    IdKind::Ip => assert(views(ids.names_of(k)).to_set() =~= Set::<Seq<char>>::empty()),
                }
            }
        }
        assert(views(ids.names_of(IdKind::Dns)).to_set() == csr_ids(csr_pem@, IdKind::Dns));
        assert(views(ids.names_of(IdKind::Uri)).to_set() == csr_ids(csr_pem@, IdKind::Uri));
        assert(views(ids.names_of(IdKind::Ip)).to_set() == csr_ids(csr_pem@, IdKind::Ip));
    }
    check_identifiers(&ids, extra_sans, policy)
}

/// An identity URI that begins with one of the allowed prefixes, wherever
/// that prefix stands in the list, passes the prefix check, and a verdict
/// never lists it among the URIs outside the prefixes.
pub proof fn law_uri_under_any_allowed_prefix_passes(
    policy: &IssuancePolicyConfig,
    uri: Seq<char>,
    i: int,
    dns: Set<Seq<char>>,
    uris: Set<Seq<char>>,
    ips: Set<Seq<char>>,
    res: Result<(), PolicyError>,
)
    requires
        0 <= i < policy.allowed_identity_uri_prefixes@.len(),
        policy.allowed_identity_uri_prefixes@[i]@.len() <= uri.len(),
        uri.subrange(0, policy.allowed_identity_uri_prefixes@[i]@.len() as int)
            == policy.allowed_identity_uri_prefixes@[i]@,
        policy_verdict(dns, uris, ips, policy, res),
    ensures
        !uri_refused(policy)(uri),
        !uris.filter(uri_refused(policy)).contains(uri),
        res matches Err(PolicyError::UrisOutsidePrefixes(l)) ==> !views(l@).contains(uri),
{
    let prefixes = views(policy.allowed_identity_uri_prefixes@);
    assert(prefixes[i] == policy.allowed_identity_uri_prefixes@[i]@);
    assert(starts_with(uri, prefixes[i]));
    assert(uri_prefixed(uri, prefixes));
    match res {
        Err(PolicyError::UrisOutsidePrefixes(l)) => {
            if views(l@).contains(uri) {
                assert(views(l@).to_set().contains(uri));
                assert(uris.filter(uri_refused(policy)).contains(uri));
            }
        },
        _ => {},
    }
}

/// A DNS name passes the suffix check when, trimmed, lowered and without
/// trailing dots, it equals one of the allowed suffixes (normalized the same
/// way, and not empty) and the bare suffix is allowed, or ends with a dot and
/// that suffix and subdomains are allowed, wherever that suffix stands in the
/// list; a verdict never lists such a name among those outside the suffixes.
pub proof fn law_dns_under_any_allowed_suffix_passes(
    policy: &IssuancePolicyConfig,
    name: Seq<char>,
    i: int,
    dns: Set<Seq<char>>,
    uris: Set<Seq<char>>,
    ips: Set<Seq<char>>,
    res: Result<(), PolicyError>,
)
    requires
        0 <= i < policy.allowed_dns_suffixes@.len(),
        ({
            let n = normalized_dns(name);
            let sfx = normalized_dns(policy.allowed_dns_suffixes@[i]@);
            &&& sfx.len() > 0
            &&& {
                ||| policy.allow_bare_suffix && n == sfx
                ||| policy.allow_subdomains && sfx.len() < n.len() && n.subrange(n.len() - sfx.len() - 1, n.len() as int)
                    == seq!['.'] + sfx
            }
        }),
        policy_verdict(dns, uris, ips, policy, res),
    ensures
        !dns_refused(policy)(name),
        !dns.filter(dns_refused(policy)).contains(name),
        res matches Err(PolicyError::DnsOutsideSuffixes(l)) ==> !views(l@).contains(name),
{
    let suffixes = views(policy.allowed_dns_suffixes@);
    assert(suffixes[i] == policy.allowed_dns_suffixes@[i]@);
    assert(suffix_admits(normalized_dns(name), suffixes[i], policy.allow_subdomains, policy.allow_bare_suffix));
    assert(dns_allowed(name, suffixes, policy.allow_subdomains, policy.allow_bare_suffix));
    match res {
        Err(PolicyError::DnsOutsideSuffixes(l)) => {
            if views(l@).contains(name) {
                assert(views(l@).to_set().contains(name));
                assert(dns.filter(dns_refused(policy)).contains(name));
            }
        },
        _ => {},
    }
}

} // verus!
