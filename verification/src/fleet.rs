//! Shepherd's managed certificates: assignments, the names a certificate is
//! requested for, the renewal job phases, and the PEM chain a CA returns.
use crate::text::{
    chars_of, contains, contains_at, contains_chars, matches_at, sorted_dedup, strictly_sorted,
    string_from_chars, to_lowercase, trim, trim_str, unicode_lower, views,
};
use crate::codec::{hex_encode, sha256, sha256_digest, spec_hex_encode};
use vstd::prelude::*;

verus! {

/// How an assignment is validated; `methods` is the JSON text of the methods object.
pub struct AssignmentValidation {
    pub validation_type: Option<String>,
    pub force_revalidate: bool,
    pub methods: Option<String>,
}

/// A certificate Shepherd keeps issued and installed on a Corgi node.
pub struct ManagedAssignment {
    pub cert_name: String,
    pub corgi: Option<String>,
    pub ca: String,
    pub domain: Option<String>,
    pub sans: Vec<String>,
    pub renew_before_days: Option<u32>,
    pub days: Option<u32>,
    pub identity_uri: Option<String>,
    pub validation: Option<AssignmentValidation>,
    pub cert_mode: Option<String>,
    pub key_mode: Option<String>,
    pub cert_owner: Option<String>,
    pub cert_group: Option<String>,
    pub key_owner: Option<String>,
    pub key_group: Option<String>,
    pub key_algorithm: Option<String>,
}

/// The names a certificate is requested for: the primary domain first
/// (unless already among the SANs), then the SANs in order.
pub open spec fn spec_build_domains(domain: Option<Seq<char>>, sans: Seq<Seq<char>>) -> Seq<Seq<char>> {
    match domain {
        Some(d) => if sans.contains(d) {
            sans
        } else {
            seq![d] + sans
        },
        None => sans,
    }
}

pub open spec fn opt_view(o: Option<String>) -> Option<Seq<char>> {
    match o {
        Some(s) => Some(s@),
        None => None,
    }
}

fn holds_text(list: &Vec<String>, t: &String) -> (b: bool)
    ensures
        b == views(list@).contains(t@),
{
    let mut i: usize = 0;
    while i < list.len()
        invariant
            i <= list@.len(),
            forall|k: int| 0 <= k < i ==> (#[trigger] list@[k])@ != t@,
        decreases list@.len() - i,
    {
        if list[i] == *t {
            assert(views(list@)[i as int] == t@);
            return true;
        }
        i = i + 1;
    }
    assert forall|k: int| 0 <= k < views(list@).len() implies views(list@)[k] != t@ by {
        assert(views(list@)[k] == list@[k]@);
    }
    false
}

fn copy_texts(v: &Vec<String>) -> (r: Vec<String>)
    ensures
        views(r@) == views(v@),
{
    let mut out: Vec<String> = Vec::new();
    let mut i: usize = 0;
    while i < v.len()
        invariant
            i <= v@.len(),
            views(out@) == views(v@).subrange(0, i as int),
        decreases v@.len() - i,
    {
        let ghost before = out@;
        let c = v[i].clone();
        out.push(c);
        assert(out@ =~= before.push(v@[i as int]));
        assert(views(out@) =~= views(before).push(v@[i as int]@));
        assert(views(out@) =~= views(v@).subrange(0, i + 1));
        i = i + 1;
    }
    assert(views(v@).subrange(0, v@.len() as int) =~= views(v@));
    out
}

/// The names a certificate is requested for (see `spec_build_domains`).
pub fn build_domains(assignment: &ManagedAssignment) -> (res: Vec<String>)
    ensures
        views(res@) == spec_build_domains(opt_view(assignment.domain), views(assignment.sans@)),
{
    let mut domains = copy_texts(&assignment.sans);
    match &assignment.domain {
        Some(d) => {
            if !holds_text(&domains, d) {
                let ghost before = domains@;
                domains.insert(0, d.clone());
                assert(views(domains@) =~= seq![d@] + views(before));
            }
        },
        None => {},
    }
    domains
}

/// The names an issuance is counted under: the SANs and the primary domain.
pub open spec fn canonical_set(a: ManagedAssignment) -> Set<Seq<char>> {
    match a.domain {
        Some(d) => views(a.sans@).to_set().insert(d@),
        None => views(a.sans@).to_set(),
    }
}

/// Those names sorted, once each.
pub open spec fn canonical_of(a: ManagedAssignment) -> Seq<Seq<char>> {
    choose|s: Seq<Seq<char>>| strictly_sorted(s) && s.to_set() == canonical_set(a)
}

/// A set of texts has one strictly sorted listing.
pub proof fn lemma_sorted_listing_unique(s1: Seq<Seq<char>>, s2: Seq<Seq<char>>)
    requires
        strictly_sorted(s1),
        strictly_sorted(s2),
        s1.to_set() == s2.to_set(),
    ensures
        s1 == s2,
    decreases s1.len(),
{
    if s1.len() == 0 {
        if s2.len() > 0 {
            assert(s2.to_set().contains(s2[0]));
        }
        assert(s1 =~= s2);
    } else {
        assert(s1.to_set().contains(s1[0]));
        let k = choose|k: int| 0 <= k < s2.len() && s2[k] == s1[0];
        assert(s2.to_set().contains(s2[0]));
        let m = choose|m: int| 0 <= m < s1.len() && s1[m] == s2[0];
        if k > 0 {
            assert(crate::text::str_lt(s2[0], s2[k]));
            if m > 0 {
                assert(crate::text::str_lt(s1[0], s1[m]));
                crate::text::lemma_str_lt_trans(s1[0], s2[0], s1[0]);
                crate::text::lemma_str_lt_irrefl(s1[0]);
            } else {
                crate::text::lemma_str_lt_irrefl(s2[0]);
            }
        }
        assert(s1[0] == s2[0]);
        let t1 = s1.drop_first();
        let t2 = s2.drop_first();
        assert forall|i: int, j: int| 0 <= i < j < t1.len() implies crate::text::str_lt(#[trigger] t1[i], #[trigger] t1[j]) by {
            assert(t1[i] == s1[i + 1] && t1[j] == s1[j + 1]);
        }
        assert forall|i: int, j: int| 0 <= i < j < t2.len() implies crate::text::str_lt(#[trigger] t2[i], #[trigger] t2[j]) by {
            assert(t2[i] == s2[i + 1] && t2[j] == s2[j + 1]);
        }
        assert(t1.to_set() =~= t2.to_set()) by {
            assert forall|x| t1.to_set().contains(x) implies t2.to_set().contains(x) by {
                let i = choose|i: int| 0 <= i < t1.len() && t1[i] == x;
                assert(s1[i + 1] == x);
                assert(s1.to_set().contains(x));
                let j = choose|j: int| 0 <= j < s2.len() && s2[j] == x;
                if j == 0 {
                    assert(crate::text::str_lt(s1[0], s1[i + 1]));
                    crate::text::lemma_str_lt_irrefl(x);
                }
                assert(t2[j - 1] == x);
            }
            assert forall|x| t2.to_set().contains(x) implies t1.to_set().contains(x) by {
                let i = choose|i: int| 0 <= i < t2.len() && t2[i] == x;
                assert(s2[i + 1] == x);
                assert(s2.to_set().contains(x));
                let j = choose|j: int| 0 <= j < s1.len() && s1[j] == x;
                if j == 0 {
                    assert(crate::text::str_lt(s2[0], s2[i + 1]));
                    crate::text::lemma_str_lt_irrefl(x);
                }
                assert(t1[j - 1] == x);
            }
        }
        lemma_sorted_listing_unique(t1, t2);
        assert(s1 =~= seq![s1[0]] + t1);
        assert(s2 =~= seq![s2[0]] + t2);
    }
}

/// The SAN list an issuance is counted under: the SANs and the primary
/// domain, sorted, once each.
pub fn canonical_sans(assignment: &ManagedAssignment) -> (res: Vec<String>)
    ensures
        strictly_sorted(views(res@)),
        views(res@).to_set() == canonical_set(*assignment),
        views(res@) == canonical_of(*assignment),
{
    let mut sans = copy_texts(&assignment.sans);
    match &assignment.domain {
        Some(d) => {
            if !holds_text(&sans, d) {
                let ghost before = sans@;
                sans.push(d.clone());
                assert(views(sans@) =~= views(before).push(d@));
                proof {
                    views(before).lemma_push_to_set_commute(d@);
                }
            } else {
                assert(views(sans@).to_set() =~= views(sans@).to_set().insert(d@));
            }
        },
        None => {},
    }
    let res = sorted_dedup(&sans);
    proof {
        let c = canonical_of(*assignment);
        assert(strictly_sorted(c) && c.to_set() == canonical_set(*assignment));
        lemma_sorted_listing_unique(views(res@), c);
    }
    res
}

/// `/` written as `%2F`.
pub open spec fn spec_urlencoded(s: Seq<char>) -> Seq<char>
    decreases s.len(),
{
    if s.len() == 0 {
        s
    } else {
        spec_urlencoded(s.drop_last()) + if s.last() == '/' {
            seq!['%', '2', 'F']
        } else {
            seq![s.last()]
        }
    }
}

pub fn urlencoded(s: &str) -> (res: String)
    ensures
        res@ == spec_urlencoded(s@),
{
    let chars = chars_of(s);
    let mut out: Vec<char> = Vec::new();
    let mut i: usize = 0;
    while i < chars.len()
        invariant
            i <= chars@.len(),
            chars@ == s@,
            out@ == spec_urlencoded(chars@.subrange(0, i as int)),
        decreases chars@.len() - i,
    {
        assert(chars@.subrange(0, i + 1).drop_last() =~= chars@.subrange(0, i as int));
        let c = chars[i];
        if c == '/' {
            out.push('%');
            out.push('2');
            out.push('F');
        } else {
            out.push(c);
        }
        assert(out@ =~= spec_urlencoded(chars@.subrange(0, i + 1)));
        i = i + 1;
    }
    assert(chars@.subrange(0, chars@.len() as int) =~= chars@);
    string_from_chars(out.as_slice())
}

/// The phases of a renewal job.
#[derive(Debug, Clone, Copy, PartialEq, Eq, Structural)]
pub enum RenewalPhase {
    Queued,
    SubmittingOrder,
    Validating,
    Finalizing,
    Installing,
    RateLimited,
    Completed,
    Failed,
    Cancelled,
}

impl RenewalPhase {
    pub open spec fn spec_is_terminal(self) -> bool {
        self == RenewalPhase::Completed || self == RenewalPhase::Failed || self == RenewalPhase::Cancelled
    }

    /// Whether a job in this phase has ended (completed, failed or cancelled).
    pub fn is_terminal(&self) -> (b: bool)
        ensures
            b == self.spec_is_terminal(),
    {
        match self {
            RenewalPhase::Completed | RenewalPhase::Failed | RenewalPhase::Cancelled => true,
            _ => false,
        }
    }
}

/// Query parameters of the renewal job listing.
pub struct RenewalJobsQuery {
    /// `"true"` lists only jobs that have not ended; anything else, all.
    pub active: Option<String>,
    pub cert_name: Option<String>,
}

impl RenewalJobsQuery {
    pub open spec fn spec_lists(&self, phase: RenewalPhase, cert_name: Seq<char>) -> bool {
        &&& !(self.active matches Some(a) && a@ == "true"@ && phase.spec_is_terminal())
        &&& (self.cert_name matches Some(n) ==> n@ == cert_name)
    }

    /// Whether a job with this phase and certificate name is listed.
    pub fn lists(&self, phase: RenewalPhase, cert_name: &String) -> (b: bool)
        ensures
            b == self.spec_lists(phase, cert_name@),
    {
        let active_only = match &self.active {
            Some(a) => *a == "true".to_owned(),
            None => false,
        };
        if active_only && phase.is_terminal() {
            return false;
        }
        match &self.cert_name {
            Some(n) => *n == *cert_name,
            None => true,
        }
    }
}

/// Shepherd's log levels.
#[derive(Debug, Clone, Copy, PartialEq, Eq, Structural)]
pub enum LogLevel {
    Fatal,
    Warn,
    Info,
    Debug,
}

impl LogLevel {
    pub open spec fn spec_filter(self) -> Seq<char> {
        match self {
            LogLevel::Fatal => "error"@,
            LogLevel::Warn => "warn"@,
            LogLevel::Info => "info"@,
            LogLevel::Debug => "debug"@,
        }
    }

    /// The tracing filter directive of a level (fatal logs at `error`).
    pub fn as_tracing_filter(self) -> (s: &'static str)
        ensures
            s@ == self.spec_filter(),
    {
        match self {
            LogLevel::Fatal => "error",
            LogLevel::Warn => "warn",
            LogLevel::Info => "info",
            LogLevel::Debug => "debug",
        }
    }
}

/// The first place at or after `k` where `p` occurs in `s`.
pub open spec fn first_match_from(s: Seq<char>, p: Seq<char>, k: int) -> Option<int>
    decreases s.len() - k,
{
    if k < 0 || k >= s.len() || k + p.len() > s.len() {
        None
    } else if contains_at(s, p, k) {
        Some(k)
    } else {
        first_match_from(s, p, k + 1)
    }
}

pub proof fn lemma_first_match_bounds(s: Seq<char>, p: Seq<char>, k: int)
    ensures
        first_match_from(s, p, k) matches Some(i) ==> k <= i && i + p.len() <= s.len() && contains_at(s, p, i),
    decreases s.len() - k,
{
    if !(k < 0 || k >= s.len() || k + p.len() > s.len()) && !contains_at(s, p, k) {
        lemma_first_match_bounds(s, p, k + 1);
    }
}

/// `str::split_inclusive(p)`: the pieces of `s`, each up to and with the
/// next occurrence of `p`, and the rest where it is not empty.
pub open spec fn split_inclusive(s: Seq<char>, p: Seq<char>) -> Seq<Seq<char>>
    decreases s.len(),
{
    if s.len() == 0 {
        Seq::empty()
    } else if p.len() == 0 {
        seq![s]
    } else {
        match first_match_from(s, p, 0) {
            Some(i) => {
                proof {
                    lemma_first_match_bounds(s, p, 0);
                }
                seq![s.subrange(0, i + p.len())] + split_inclusive(s.subrange(i + p.len(), s.len() as int), p)
            },
            None => seq![s],
        }
    }
}

pub open spec fn end_marker() -> Seq<char> {
    "-----END CERTIFICATE-----"@
}

pub open spec fn begin_marker() -> Seq<char> {
    "-----BEGIN CERTIFICATE-----"@
}

/// The pieces that hold a BEGIN marker, in order.
pub open spec fn with_begin(pieces: Seq<Seq<char>>) -> Seq<Seq<char>>
    decreases pieces.len(),
{
    if pieces.len() == 0 {
        pieces
    } else {
        let r = with_begin(pieces.drop_last());
        if contains(pieces.last(), begin_marker()) {
            r.push(pieces.last())
        } else {
            r
        }
    }
}

/// Each certificate trimmed and ended with a newline, one after another.
pub open spec fn pem_lines(certs: Seq<Seq<char>>) -> Seq<char>
    decreases certs.len(),
{
    if certs.len() == 0 {
        Seq::empty()
    } else {
        pem_lines(certs.drop_last()) + trim(certs.last()) + seq!['\n']
    }
}

/// The leaf, the rest of the chain, and both, from a PEM chain; where it holds
/// no certificate, the whole text as leaf and full chain.
pub open spec fn spec_split_cert_chain(chain_pem: Seq<char>) -> (Seq<char>, Seq<char>, Seq<char>) {
    let certs = with_begin(split_inclusive(chain_pem, end_marker()));
    if certs.len() == 0 {
        (chain_pem, Seq::empty(), chain_pem)
    } else {
        let leaf = trim(certs[0]) + seq!['\n'];
        let chain = pem_lines(certs.drop_first());
        (leaf, chain, leaf + chain)
    }
}

fn first_match(s: &[char], p: &[char]) -> (r: Option<usize>)
    ensures
        match r {
            Some(i) => first_match_from(s@, p@, 0) == Some(i as int),
            None => first_match_from(s@, p@, 0) is None,
        },
{
    let mut k: usize = 0;
    while k < s.len() && p.len() <= s.len() - k
        invariant
            k <= s@.len(),
            first_match_from(s@, p@, 0) == first_match_from(s@, p@, k as int),
        decreases s@.len() + 1 - k,
    {
        if matches_at(s, p, k) {
            return Some(k);
        }
        k = k + 1;
    }
    None
}

fn literal_chars(t: &str) -> (v: Vec<char>)
    ensures
        v@ == t@,
{
    chars_of(t)
}

/// Cuts a PEM chain into leaf, rest of chain, and full chain (see `spec_split_cert_chain`).
pub fn split_cert_chain(chain_pem: &str) -> (res: (String, String, String))
    ensures
        (res.0@, res.1@, res.2@) == spec_split_cert_chain(chain_pem@),
{
    let all = chars_of(chain_pem);
    let end = literal_chars("-----END CERTIFICATE-----");
    let begin = literal_chars("-----BEGIN CERTIFICATE-----");
    proof {
        reveal_strlit("-----END CERTIFICATE-----");
    }
    let ghost whole = all@;
    let mut certs: Vec<String> = Vec::new();
    let mut start: usize = 0;
    let n = all.len();
    let ghost mut done: Seq<Seq<char>> = Seq::empty();
    assert(whole.subrange(0, n as int) =~= whole);
    while start < n
        invariant
            n == whole.len(),
            all@ == whole,
            whole == chain_pem@,
            end@ == end_marker(),
            end@.len() > 0,
            begin@ == begin_marker(),
            start <= n,
            split_inclusive(whole, end_marker()) == done + split_inclusive(whole.subrange(start as int, n as int), end_marker()),
            views(certs@) == with_begin(done),
        decreases n - start,
    {
        let rest = &all.as_slice()[start..n];
        let ghost r = whole.subrange(start as int, n as int);
        assert(rest@ == r);
        let stop = match first_match(rest, end.as_slice()) {
            Some(i) => {
                proof {
                    lemma_first_match_bounds(r, end_marker(), 0);
                }
                start + i + end.len()
            },
            None => n,
        };
        let piece = &all.as_slice()[start..stop];
        proof {
            let pc = whole.subrange(start as int, stop as int);
            assert(piece@ == pc);
            assert(r.subrange(0, stop - start) =~= pc);
            assert(r.subrange(stop - start, r.len() as int) =~= whole.subrange(stop as int, n as int));
            assert(split_inclusive(r, end_marker()) == seq![pc] + split_inclusive(whole.subrange(stop as int, n as int), end_marker()));
            assert(done + split_inclusive(r, end_marker()) =~= done.push(pc) + split_inclusive(whole.subrange(stop as int, n as int), end_marker()));
            assert(done.push(pc).drop_last() =~= done);
        }
        if contains_chars(piece, begin.as_slice()) {
            let ghost before = certs@;
            let t = string_from_chars(piece);
            certs.push(t);
            assert(views(certs@) =~= views(before).push(piece@));
        }
        proof {
            done = done.push(whole.subrange(start as int, stop as int));
        }
        start = stop;
    }
    proof {
        assert(whole.subrange(n as int, n as int) =~= Seq::<char>::empty());
        assert(split_inclusive(whole, end_marker()) =~= done);
    }
    if certs.len() == 0 {
        return (chain_pem.to_owned(), String::new(), chain_pem.to_owned());
    }
    let mut leaf = trim_str(certs[0].as_str());
    leaf.append("\n");
    proof {
        reveal_strlit("\n");
    }
    assert(leaf@ =~= trim(views(certs@)[0]) + seq!['\n']);
    let mut chain = String::new();
    let mut k: usize = 1;
    let ghost cv = views(certs@);
    assert(cv.drop_first().subrange(0, 0) =~= Seq::<Seq<char>>::empty());
    while k < certs.len()
        invariant
            1 <= k <= certs@.len(),
            cv == views(certs@),
            chain@ == pem_lines(cv.drop_first().subrange(0, k - 1)),
        decreases certs@.len() - k,
    {
        let ghost pre = cv.drop_first().subrange(0, k - 1);
        let ghost nxt = cv.drop_first().subrange(0, k as int);
        assert(nxt.drop_last() =~= pre);
        assert(nxt.last() == certs@[k as int]@);
        let t = trim_str(certs[k].as_str());
        chain.append(t.as_str());
        chain.append("\n");
        proof {
            reveal_strlit("\n");
        }
        assert(chain@ =~= pem_lines(nxt));
        k = k + 1;
    }
    assert(cv.drop_first().subrange(0, certs@.len() - 1) =~= cv.drop_first());
    let mut full = leaf.clone();
    full.append(chain.as_str());
    (leaf, chain, full)
}

/// What a Corgi node's `/bootstrap/csr` answer gives enrollment.
pub struct CorgiCsr {
    pub csr_pem: String,
    pub http_challenge_port: Option<u16>,
    pub common_name: Option<String>,
}

/// Reads a Corgi node's `/bootstrap/csr` answer: its `csrPem` is required
/// (where missing, the node's `error` is reported, else the whole answer);
/// an `httpChallengePort` that does not fit 16 bits is dropped.
pub fn corgi_csr_reply(
    csr_pem: Option<String>,
    error: Option<String>,
    answer_text: &str,
    port: Option<u64>,
    common_name: Option<String>,
) -> (res: Result<CorgiCsr, String>)
    ensures
        match csr_pem {
            None => res matches Err(m) && m@ == match error {
                Some(e) => "Corgi /bootstrap/csr failed: "@ + e@,
                None => "Missing csrPem in corgi response: "@ + answer_text@,
            },
            Some(c) => res matches Ok(r) && r.csr_pem == c && r.common_name == common_name && r.http_challenge_port == (
            match port {
                Some(p) => if p <= 65535 {
                    Some(p as u16)
                } else {
                    None
                },
                None => None,
            }),
        },
{
    let csr = match csr_pem {
        Some(c) => c,
        None => {
            return match error {
                Some(e) => {
                    let mut m = String::from_str("Corgi /bootstrap/csr failed: ");
                    m.append(e.as_str());
                    Err(m)
                },
                None => {
                    let mut m = String::from_str("Missing csrPem in corgi response: ");
                    m.append(answer_text);
                    Err(m)
                },
            };
        },
    };
    let p = match port {
        Some(v) => if v <= 65535 {
            Some(v as u16)
        } else {
            None
        },
        None => None,
    };
    Ok(CorgiCsr { csr_pem: csr, http_challenge_port: p, common_name })
}

/// The assignment that keeps an enrolled Corgi node's own certificate: named
/// and for its common name, on the node, from the given CA (`vigil` where
/// none), for the node's identity, validated over http-01.
pub fn corgi_assignment(common_name: &str, corgi: &str, ca: Option<&str>, identity_uri: &str) -> (a: ManagedAssignment)
    ensures
        a.cert_name@ == common_name@,
        a.corgi matches Some(c) && c@ == corgi@,
        a.ca@ == match ca {
            Some(c) => c@,
            None => "vigil"@,
        },
        a.domain matches Some(d) && d@ == common_name@,
        views(a.sans@) == seq![common_name@],
        a.identity_uri matches Some(u) && u@ == identity_uri@,
        a.validation matches Some(v) && (v.validation_type matches Some(t) && t@ == "http-01"@) && !v.force_revalidate
            && v.methods is None,
        a.renew_before_days is None && a.days is None,
        a.cert_mode is None && a.key_mode is None && a.cert_owner is None && a.cert_group is None,
        a.key_owner is None && a.key_group is None && a.key_algorithm is None,
{
    let ca_name = match ca {
        Some(c) => c.to_owned(),
        None => String::from_str("vigil"),
    };
    proof {
        reveal_strlit("vigil");
        reveal_strlit("http-01");
    }
    let mut sans: Vec<String> = Vec::new();
    sans.push(common_name.to_owned());
    assert(views(sans@) =~= seq![common_name@]);
    ManagedAssignment {
        cert_name: common_name.to_owned(),
        corgi: Some(corgi.to_owned()),
        ca: ca_name,
        domain: Some(common_name.to_owned()),
        sans,
        renew_before_days: None,
        days: None,
        identity_uri: Some(identity_uri.to_owned()),
        validation: Some(AssignmentValidation {
            validation_type: Some(String::from_str("http-01")),
            force_revalidate: false,
            methods: None,
        }),
        cert_mode: None,
        key_mode: None,
        cert_owner: None,
        cert_group: None,
        key_owner: None,
        key_group: None,
        key_algorithm: None,
    }
}

/// An operator's request to enroll a Corgi node: its name, its one-time
/// token, the fingerprint of the certificate it serves, its identity URI,
/// its URL, and the CA for its own certificate (`vigil` where none).
pub struct BootstrapCorgiRequest {
    pub name: String,
    pub token: String,
    pub fingerprint: String,
    pub identity_uri: String,
    pub corgi_url: String,
    pub ca: Option<String>,
}

impl BootstrapCorgiRequest {
    /// The assignment that keeps the enrolled node's own certificate, for
    /// the common name its CSR answer gave (see `corgi_assignment`).
    pub fn own_assignment(&self, common_name: &str) -> (a: ManagedAssignment)
        ensures
            a.cert_name@ == common_name@,
            a.corgi matches Some(c) && c@ == self.name@,
            a.ca@ == match self.ca {
                Some(c) => c@,
                None => "vigil"@,
            },
            a.domain matches Some(d) && d@ == common_name@,
            views(a.sans@) == seq![common_name@],
            a.identity_uri matches Some(u) && u@ == self.identity_uri@,
            a.validation matches Some(v) && (v.validation_type matches Some(t) && t@ == "http-01"@) && !v.force_revalidate
                && v.methods is None,
    {
        let ca: Option<&str> = match &self.ca {
            Some(c) => Some(c.as_str()),
            None => None,
        };
        corgi_assignment(common_name, self.name.as_str(), ca, self.identity_uri.as_str())
    }
}

/// Puts an assignment in place of any with its certificate name, at the end.
pub fn register_assignment(assignments: &mut Vec<ManagedAssignment>, a: ManagedAssignment)
    ensures
        final(assignments)@ == old(assignments)@.filter(|x: ManagedAssignment| x.cert_name@ != a.cert_name@).push(a),
{
    let ghost pred = |x: ManagedAssignment| x.cert_name@ != a.cert_name@;
    let mut kept: Vec<ManagedAssignment> = Vec::new();
    let mut rest: Vec<ManagedAssignment> = Vec::new();
    std::mem::swap(&mut rest, assignments);
    let ghost all = rest@;
    let n0 = rest.len();
    assert(all.len() == n0);
    let mut k: usize = 0;
    proof {
        reveal_with_fuel(Seq::<_>::filter, 1);
        assert(all.subrange(0, 0).filter(pred) =~= Seq::<ManagedAssignment>::empty());
        assert(rest@ =~= all.subrange(0, all.len() as int));
    }
    while rest.len() > 0
        invariant
            k <= all.len(),
            all.len() <= usize::MAX,
            pred == (|x: ManagedAssignment| x.cert_name@ != a.cert_name@),
            rest@ == all.subrange(k as int, all.len() as int),
            kept@ == all.subrange(0, k as int).filter(pred),
        decreases rest@.len(),
    {
        let x = rest.remove(0);
        proof {
            assert(all.subrange(0, k + 1).drop_last() =~= all.subrange(0, k as int));
            assert(all.subrange(0, k + 1).last() == x);
            assert(rest@ =~= all.subrange(k + 1, all.len() as int));
            reveal_with_fuel(Seq::<_>::filter, 1);
        }
        if x.cert_name != a.cert_name {
            kept.push(x);
        }
        k = k + 1;
    }
    assert(all.subrange(0, all.len() as int) =~= all);
    kept.push(a);
    *assignments = kept;
}

/// Some assignment has this certificate name.
pub open spec fn has_cert_name(assignments: Seq<ManagedAssignment>, name: Seq<char>) -> bool {
    exists|i: int| 0 <= i < assignments.len() && (#[trigger] assignments[i]).cert_name@ == name
}

fn find_cert_name(assignments: &Vec<ManagedAssignment>, name: &String) -> (r: Option<usize>)
    ensures
        match r {
            Some(i) => i < assignments@.len() && assignments@[i as int].cert_name@ == name@ && forall|j: int|
                0 <= j < i ==> assignments@[j].cert_name@ != name@,
            None => !has_cert_name(assignments@, name@),
        },
{
    let mut i: usize = 0;
    while i < assignments.len()
        invariant
            i <= assignments@.len(),
            forall|j: int| 0 <= j < i ==> (#[trigger] assignments@[j]).cert_name@ != name@,
        decreases assignments@.len() - i,
    {
        if assignments[i].cert_name == *name {
            return Some(i);
        }
        i = i + 1;
    }
    None
}

/// Adds an assignment (Shepherd's API): without a certificate name it takes
/// its domain's; one with neither is refused, as is a name already taken.
pub fn add_assignment(assignments: &mut Vec<ManagedAssignment>, a: ManagedAssignment) -> (res: Result<(), String>)
    ensures
        ({
            let name = if a.cert_name@.len() > 0 {
                a.cert_name@
            } else {
                match a.domain {
                    Some(d) => d@,
                    None => Seq::empty(),
                }
            };
            if name.len() == 0 {
                res matches Err(m) && m@ == "Assignment must have certName or domain"@ && final(assignments)@ == old(assignments)@
            } else if has_cert_name(old(assignments)@, name) {
                res matches Err(m) && m@ == "Assignment '"@ + name + "' already exists"@ && final(assignments)@ == old(
                    assignments,
                )@
            } else {
                res is Ok && final(assignments)@.len() == old(assignments)@.len() + 1 && final(assignments)@.drop_last() == old(
                    assignments,
                )@ && final(assignments)@.last() == (ManagedAssignment { cert_name: final(assignments)@.last().cert_name, ..a })
                    && final(assignments)@.last().cert_name@ == name
            }
        }),
{
    let mut a = a;
    let ghost orig = a;
    if a.cert_name.unicode_len() == 0 {
        a.cert_name = match &a.domain {
            Some(d) => d.clone(),
            None => String::new(),
        };
    }
    proof {
        reveal_strlit("Assignment must have certName or domain");
    }
    if a.cert_name.unicode_len() == 0 {
        return Err(String::from_str("Assignment must have certName or domain"));
    }
    if let Some(_) = find_cert_name(assignments, &a.cert_name) {
        let mut m = String::from_str("Assignment '");
        m.append(a.cert_name.as_str());
        m.append("' already exists");
        return Err(m);
    }
    assignments.push(a);
    assert(assignments@.drop_last() =~= old(assignments)@);
    Ok(())
}

/// Replaces the assignment with a certificate name by `updated`, which takes
/// that name (Shepherd's API); refused where there is none.
pub fn replace_assignment(assignments: &mut Vec<ManagedAssignment>, cert_name: &str, updated: ManagedAssignment) -> (res: Result<(), String>)
    ensures
        !has_cert_name(old(assignments)@, cert_name@) ==> (res matches Err(m) && m@ == "No assignment for '"@ + cert_name@ + "'"@
            && final(assignments)@ == old(assignments)@),
        has_cert_name(old(assignments)@, cert_name@) ==> res is Ok && exists|i: int|
            0 <= i < old(assignments)@.len() && (#[trigger] old(assignments)@[i]).cert_name@ == cert_name@ && (forall|j: int|
                0 <= j < i ==> old(assignments)@[j].cert_name@ != cert_name@) && final(assignments)@ == old(assignments)@.update(
                i,
                ManagedAssignment { cert_name: final(assignments)@[i].cert_name, ..updated },
            ) && final(assignments)@[i].cert_name@ == cert_name@,
{
    let name = cert_name.to_owned();
    match find_cert_name(assignments, &name) {
        None => {
            let mut m = String::from_str("No assignment for '");
            m.append(cert_name);
            m.append("'");
            Err(m)
        },
        Some(i) => {
            let mut u = updated;
            let ghost orig = u;
            u.cert_name = name;
            let ghost placed = u;
            assignments.set(i, u);
            assert(assignments@ =~= old(assignments)@.update(i as int, ManagedAssignment { cert_name: placed.cert_name, ..orig }));
            Ok(())
        },
    }
}

/// Removes the assignments with a certificate name (Shepherd's API); refused
/// where there is none.
pub fn remove_assignment(assignments: &mut Vec<ManagedAssignment>, cert_name: &str) -> (res: Result<(), String>)
    ensures
        final(assignments)@ == old(assignments)@.filter(|x: ManagedAssignment| x.cert_name@ != cert_name@),
        has_cert_name(old(assignments)@, cert_name@) <==> res is Ok,
        res matches Err(m) ==> m@ == "No assignment for '"@ + cert_name@ + "'"@,
{
    let name = cert_name.to_owned();
    let found = find_cert_name(assignments, &name);
    let ghost pred = |x: ManagedAssignment| x.cert_name@ != cert_name@;
    let mut kept: Vec<ManagedAssignment> = Vec::new();
    let mut rest: Vec<ManagedAssignment> = Vec::new();
    std::mem::swap(&mut rest, assignments);
    let ghost all = rest@;
    let n0 = rest.len();
    assert(all.len() == n0);
    let mut k: usize = 0;
    proof {
        reveal_with_fuel(Seq::<_>::filter, 1);
        assert(all.subrange(0, 0).filter(pred) =~= Seq::<ManagedAssignment>::empty());
        assert(rest@ =~= all.subrange(0, all.len() as int));
    }
    while rest.len() > 0
        invariant
            k <= all.len(),
            all.len() <= usize::MAX,
            name@ == cert_name@,
            pred == (|x: ManagedAssignment| x.cert_name@ != cert_name@),
            rest@ == all.subrange(k as int, all.len() as int),
            kept@ == all.subrange(0, k as int).filter(pred),
        decreases rest@.len(),
    {
        let x = rest.remove(0);
        proof {
            assert(all.subrange(0, k + 1).drop_last() =~= all.subrange(0, k as int));
            assert(all.subrange(0, k + 1).last() == x);
            assert(rest@ =~= all.subrange(k + 1, all.len() as int));
            reveal_with_fuel(Seq::<_>::filter, 1);
        }
        if x.cert_name != name {
            kept.push(x);
        }
        k = k + 1;
    }
    assert(all.subrange(0, all.len() as int) =~= all);
    *assignments = kept;
    match found {
        Some(_) => Ok(()),
        None => {
            let mut m = String::from_str("No assignment for '");
            m.append(cert_name);
            m.append("'");
            Err(m)
        },
    }
}

/// The validation method for an assignment: its own type unless absent or
/// `auto`, else the CA's default.
pub open spec fn spec_validation_method(a: ManagedAssignment, ca_default: Seq<char>) -> Seq<char> {
    match a.validation {
        Some(v) => match v.validation_type {
            Some(t) => if t@ != "auto"@ {
                t@
            } else {
                ca_default
            },
            None => ca_default,
        },
        None => ca_default,
    }
}

pub fn validation_method(a: &ManagedAssignment, ca_default: &str) -> (r: String)
    ensures
        r@ == spec_validation_method(*a, ca_default@),
{
    match &a.validation {
        Some(v) => match &v.validation_type {
            Some(t) => if *t != "auto".to_owned() {
                t.clone()
            } else {
                ca_default.to_owned()
            },
            None => ca_default.to_owned(),
        },
        None => ca_default.to_owned(),
    }
}

/// The text before the first `a` or `b` (all of it where there is neither).
pub open spec fn until_either(s: Seq<char>, a: char, b: char) -> Seq<char>
    decreases s.len(),
{
    if s.len() == 0 {
        s
    } else if s[0] == a || s[0] == b {
        Seq::empty()
    } else {
        seq![s[0]] + until_either(s.drop_first(), a, b)
    }
}

/// The host of a URL for logs: what follows the first `://`, up to a `/` or
/// a `:`; `-` where there is no `://`.
pub open spec fn spec_url_hostname(url: Seq<char>) -> Seq<char> {
    match first_match_from(url, "://"@, 0) {
        Some(i) => until_either(url.subrange(i + 3, url.len() as int), '/', ':'),
        None => "-"@,
    }
}

pub fn url_hostname(url: &str) -> (r: String)
    ensures
        r@ == spec_url_hostname(url@),
{
    let s = chars_of(url);
    let sep = literal_chars("://");
    proof {
        reveal_strlit("://");
        reveal_strlit("-");
    }
    match first_match(s.as_slice(), sep.as_slice()) {
        None => String::from_str("-"),
        Some(i) => {
            proof {
                lemma_first_match_bounds(s@, sep@, 0);
            }
            let n = s.len();
            let start = i + 3;
            let mut end = start;
            assert(s@.subrange(start as int, n as int).subrange(0, 0) =~= Seq::<char>::empty());
            while end < n && s[end] != '/' && s[end] != ':'
                invariant
                    start <= end <= n,
                    n == s@.len(),
                    until_either(s@.subrange(start as int, n as int), '/', ':') == s@.subrange(start as int, end as int)
                        + until_either(s@.subrange(end as int, n as int), '/', ':'),
                decreases n - end,
            {
                proof {
                    let r = s@.subrange(end as int, n as int);
                    assert(r.drop_first() =~= s@.subrange(end + 1, n as int));
                    assert(r[0] == s@[end as int]);
                    assert(s@.subrange(start as int, end + 1) =~= s@.subrange(start as int, end as int) + seq![s@[end as int]]);
                }
                end = end + 1;
            }
            proof {
                let r = s@.subrange(end as int, n as int);
                if end < n {
                    assert(r[0] == s@[end as int]);
                }
                assert(until_either(r, '/', ':') =~= Seq::<char>::empty());
            }
            string_from_chars(&s[start..end])
        },
    }
}

/// `s` without its trailing slashes.
pub open spec fn strip_trailing_slashes(s: Seq<char>) -> Seq<char>
    decreases s.len(),
{
    if s.len() > 0 && s.last() == '/' {
        strip_trailing_slashes(s.drop_last())
    } else {
        s
    }
}

/// The name an identity URI suggests: its last path segment (trailing
/// slashes ignored), or `admin` where that is empty.
pub open spec fn spec_name_from_uri(uri: Seq<char>) -> Seq<char> {
    let seg = crate::text::split(strip_trailing_slashes(uri), '/').last();
    if seg.len() > 0 {
        seg
    } else {
        "admin"@
    }
}

pub fn derive_name_from_uri(uri: &str) -> (r: String)
    ensures
        r@ == spec_name_from_uri(uri@),
{
    let chars = chars_of(uri);
    let mut end: usize = chars.len();
    assert(chars@.subrange(0, end as int) =~= chars@);
    while end > 0 && chars[end - 1] == '/'
        invariant
            end <= chars@.len(),
            chars@ == uri@,
            strip_trailing_slashes(uri@) == strip_trailing_slashes(chars@.subrange(0, end as int)),
        decreases end,
    {
        assert(chars@.subrange(0, end as int).drop_last() =~= chars@.subrange(0, end - 1));
        end = end - 1;
    }
    proof {
        let t = chars@.subrange(0, end as int);
        if t.len() > 0 {
            assert(t.last() == chars@[end - 1]);
        }
    }
    let t = vstd::slice::slice_subrange(chars.as_slice(), 0, end);
    let parts = crate::text::split_chars(t, '/');
    proof {
        crate::text::lemma_split_nonempty(t@, '/');
        reveal_strlit("admin");
    }
    let last = &parts[parts.len() - 1];
    if last.len() > 0 {
        string_from_chars(last.as_slice())
    } else {
        String::from_str("admin")
    }
}

/// The text without its colons.
pub open spec fn without_colons(s: Seq<char>) -> Seq<char>
    decreases s.len(),
{
    if s.len() == 0 {
        Seq::empty()
    } else if s.last() == ':' {
        without_colons(s.drop_last())
    } else {
        without_colons(s.drop_last()).push(s.last())
    }
}

/// The certificate fingerprint a Corgi enrollment pins, as hex text: the
/// fingerprint given by the operator without its colons, in lower case.
pub fn pinned_fingerprint(expected: &str) -> (r: String)
    ensures
        r@ == unicode_lower(without_colons(expected@)),
{
    let chars = chars_of(expected);
    let mut kept: Vec<char> = Vec::new();
    let mut i: usize = 0;
    while i < chars.len()
        invariant
            chars@ == expected@,
            i <= chars@.len(),
            kept@ == without_colons(chars@.subrange(0, i as int)),
        decreases chars@.len() - i,
    {
        proof {
            assert(chars@.subrange(0, i + 1).drop_last() =~= chars@.subrange(0, i as int));
        }
        if chars[i] != ':' {
            kept.push(chars[i]);
        }
        i = i + 1;
    }
    assert(chars@.subrange(0, chars@.len() as int) =~= chars@);
    let bare = string_from_chars(kept.as_slice());
    to_lowercase(bare.as_str())
}

/// Checks the certificate a Corgi node presents during enrollment against
/// the pinned fingerprint (`expected_hex`): its SHA-256 digest in lower-case
/// hex must be that text.
pub fn check_pinned_certificate(expected_hex: &str, cert_der: &[u8]) -> (r: Result<(), String>)
    ensures
        spec_hex_encode(sha256(cert_der@)) == expected_hex@ ==> r is Ok,
        spec_hex_encode(sha256(cert_der@)) != expected_hex@ ==> (r matches Err(m) && m@
            == "Bootstrap fingerprint mismatch: expected "@ + expected_hex@ + ", got "@ + spec_hex_encode(sha256(cert_der@))),
{
    let digest = sha256_digest(cert_der);
    let actual = hex_encode(digest.as_slice());
    let want = expected_hex.to_owned();
    if actual == want {
        Ok(())
    } else {
        let mut m = String::new();
        m.append("Bootstrap fingerprint mismatch: expected ");
        m.append(expected_hex);
        m.append(", got ");
        m.append(actual.as_str());
        Err(m)
    }
}

/// Cutting a chain gives a full chain that is the leaf followed by the rest;
/// a text with no certificate comes back whole as leaf and full chain.
pub proof fn law_split_chain_joins(chain_pem: Seq<char>)
    ensures
        spec_split_cert_chain(chain_pem).2 == spec_split_cert_chain(chain_pem).0 + spec_split_cert_chain(chain_pem).1,
        with_begin(split_inclusive(chain_pem, end_marker())).len() == 0 ==> spec_split_cert_chain(chain_pem) == (
        chain_pem,
        Seq::<char>::empty(),
        chain_pem,
        ),
{
    if with_begin(split_inclusive(chain_pem, end_marker())).len() == 0 {
        assert(chain_pem + Seq::<char>::empty() =~= chain_pem);
    }
}

} // verus!
