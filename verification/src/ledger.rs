//! Shepherd's issuance ledger: the certificates issued per CA, kept for a
//! window of days, and the rate-limit gates they feed (certificates per
//! registered domain, duplicate certificates per exact SAN set).
//!
//! Times are Unix seconds. The caller passes the current time; reading and
//! writing the ledger file is the caller's.
use crate::text::{sorted_dedup, strictly_sorted, views};
use psl::Psl;
use vstd::prelude::*;

verus! {

/// Seconds in a day.
pub const DAY_SECS: i64 = 86400;

/// Times the ledger handles: those chrono can hold (a little beyond).
pub open spec fn time_ok(t: int) -> bool {
    -9_000_000_000_000 <= t <= 9_000_000_000_000
}

/// One issued certificate.
pub struct IssuanceEvent {
    pub cert_name: String,
    pub ca: String,
    pub registered_domain: String,
    pub sans: Vec<String>,
    pub issued_at: i64,
    pub fingerprint256: String,
}

/// A rate limit: at most `count` certificates in `window_days` days.
#[derive(Debug, Clone, Copy, PartialEq, Eq, Structural)]
pub struct CaRateLimit {
    pub count: u32,
    pub window_days: u32,
}

/// A CA's rate limits; an absent one does not apply.
#[derive(Debug, Clone, Copy, PartialEq, Eq, Structural)]
pub struct CaRateLimits {
    pub certificates_per_domain: Option<CaRateLimit>,
    pub duplicate_certificates: Option<CaRateLimit>,
}

/// The ledger: events newer than `max_window_days` days, and where they are kept.
pub struct IssuanceLedger {
    pub events: Vec<IssuanceEvent>,
    pub path: String,
    pub max_window_days: i64,
}

/// The start of a window of `days` days ending at `now` (exclusive).
pub open spec fn cutoff(now: int, days: int) -> int {
    now - days * 86400
}

impl IssuanceLedger {
    /// Event times are ones chrono holds, and the retention window is one
    /// chrono can subtract from them.
    pub open spec fn wf(&self) -> bool {
        &&& -100_000_000 <= self.max_window_days <= 100_000_000
        &&& forall|i: int| 0 <= i < self.events@.len() ==> time_ok((#[trigger] self.events@[i]).issued_at as int)
    }

    /// Starts a ledger on the events read back, pruned at `now`.
    pub fn new(path: String, max_window_days: i64, events: Vec<IssuanceEvent>, now: i64) -> (ledger: Self)
        requires
            -100_000_000 <= max_window_days <= 100_000_000,
            time_ok(now as int),
            forall|i: int| 0 <= i < events@.len() ==> time_ok((#[trigger] events@[i]).issued_at as int),
        ensures
            ledger.wf(),
            ledger.path == path,
            ledger.max_window_days == max_window_days,
            ledger.events@ == kept(events@, cutoff(now as int, max_window_days as int)),
    {
        let mut ledger = IssuanceLedger { events, path, max_window_days };
        ledger.prune(now);
        ledger
    }

    /// Drops the events not newer than `max_window_days` days before `now`,
    /// keeping the order of the rest.
    pub fn prune(&mut self, now: i64)
        requires
            old(self).wf(),
            time_ok(now as int),
        ensures
            final(self).wf(),
            final(self).path == old(self).path,
            final(self).max_window_days == old(self).max_window_days,
            final(self).events@ == kept(old(self).events@, cutoff(now as int, old(self).max_window_days as int)),
    {
        let c: i64 = now - self.max_window_days * DAY_SECS;
        let ghost evs = self.events@;
        assert(evs.len() == self.events.len());
        let mut out: Vec<IssuanceEvent> = Vec::new();
        let mut rest: Vec<IssuanceEvent> = Vec::new();
        std::mem::swap(&mut rest, &mut self.events);
        let mut k: usize = 0;
        assert(evs.subrange(0, 0) =~= Seq::<IssuanceEvent>::empty());
        assert(rest@ =~= evs.subrange(0, evs.len() as int));
        while rest.len() > 0
            invariant
                k <= evs.len(),
                evs.len() <= usize::MAX,
                rest@ == evs.subrange(k as int, evs.len() as int),
                out@ == kept(evs.subrange(0, k as int), c as int),
                c as int == cutoff(now as int, old(self).max_window_days as int),
            decreases rest@.len(),
        {
            let e = rest.remove(0);
            assert(evs.subrange(0, k + 1).drop_last() =~= evs.subrange(0, k as int));
            assert(evs.subrange(0, k + 1).last() == e);
            assert(rest@ =~= evs.subrange(k + 1, evs.len() as int));
            if e.issued_at > c {
                out.push(e);
            }
            k = k + 1;
        }
        assert(evs.subrange(0, evs.len() as int) =~= evs);
        self.events = out;
        proof {
            lemma_kept_sub(evs, c as int);
            assert forall|i: int| 0 <= i < self.events@.len() implies time_ok((#[trigger] self.events@[i]).issued_at as int) by {
                let j = choose|j: int| 0 <= j < evs.len() && evs[j] == self.events@[i];
                assert(time_ok(evs[j].issued_at as int));
            }
        }
    }

    /// Records an issuance and prunes.
    pub fn append(&mut self, event: IssuanceEvent, now: i64)
        requires
            old(self).wf(),
            time_ok(now as int),
            time_ok(event.issued_at as int),
        ensures
            final(self).wf(),
            final(self).path == old(self).path,
            final(self).max_window_days == old(self).max_window_days,
            final(self).events@ == kept(
                old(self).events@.push(event),
                cutoff(now as int, old(self).max_window_days as int),
            ),
    {
        self.events.push(event);
        self.prune(now);
    }
}

/// The events newer than `c`, in order.
pub open spec fn kept(s: Seq<IssuanceEvent>, c: int) -> Seq<IssuanceEvent>
    decreases s.len(),
{
    if s.len() == 0 {
        s
    } else {
        let r = kept(s.drop_last(), c);
        if s.last().issued_at > c {
            r.push(s.last())
        } else {
            r
        }
    }
}

proof fn lemma_kept_sub(s: Seq<IssuanceEvent>, c: int)
    ensures
        forall|i: int| 0 <= i < kept(s, c).len() ==> s.contains(#[trigger] kept(s, c)[i]),
        forall|i: int| 0 <= i < kept(s, c).len() ==> (#[trigger] kept(s, c)[i]).issued_at > c,
    decreases s.len(),
{
    if s.len() > 0 {
        lemma_kept_sub(s.drop_last(), c);
        let r = kept(s.drop_last(), c);
        assert forall|i: int| 0 <= i < kept(s, c).len() implies s.contains(#[trigger] kept(s, c)[i]) by {
            if i < r.len() {
                assert(s.drop_last().contains(r[i]));
                let j = choose|j: int| 0 <= j < s.drop_last().len() && s.drop_last()[j] == r[i];
                assert(s[j] == r[i]);
            } else {
                assert(s[s.len() - 1] == s.last());
            }
        }
    }
}

/// An issuance recorded is counted: appending an event newer than the
/// retention cutoff adds exactly one to every count whose filter the event
/// meets (such as `for_domain` and `for_identifiers` over the windows the
/// rate limits use), and leaves the others as they were.
pub proof fn law_recorded_issuance_counts(
    events: Seq<IssuanceEvent>,
    e: IssuanceEvent,
    retention_cutoff: int,
    p: spec_fn(IssuanceEvent) -> bool,
)
    requires
        e.issued_at > retention_cutoff,
    ensures
        count_matching(kept(events.push(e), retention_cutoff), p) == count_matching(kept(events, retention_cutoff), p) + (
        if p(e) {
            1int
        } else {
            0int
        }),
{
    let s = events.push(e);
    assert(s.drop_last() =~= events);
    assert(s.last() == e);
    let r = kept(events, retention_cutoff);
    assert(kept(s, retention_cutoff) == r.push(e));
    assert(r.push(e).drop_last() =~= r);
    assert(r.push(e).last() == e);
}

pub open spec fn texts(v: Seq<String>) -> Seq<Seq<char>> {
    v.map_values(|s: String| s@)
}

/// How many events meet `p`.
pub open spec fn count_matching(s: Seq<IssuanceEvent>, p: spec_fn(IssuanceEvent) -> bool) -> nat
    decreases s.len(),
{
    if s.len() == 0 {
        0
    } else {
        count_matching(s.drop_last(), p) + if p(s.last()) {
            1nat
        } else {
            0nat
        }
    }
}

/// The earliest issue time among the events that meet `p`.
pub open spec fn min_matching(s: Seq<IssuanceEvent>, p: spec_fn(IssuanceEvent) -> bool) -> Option<int>
    decreases s.len(),
{
    if s.len() == 0 {
        None
    } else {
        let r = min_matching(s.drop_last(), p);
        if p(s.last()) {
            match r {
                Some(m) => Some(if s.last().issued_at < m { s.last().issued_at as int } else { m }),
                None => Some(s.last().issued_at as int),
            }
        } else {
            r
        }
    }
}

/// Events for a registered domain and CA newer than `c`.
pub open spec fn for_domain(domain: Seq<char>, ca: Seq<char>, c: int) -> spec_fn(IssuanceEvent) -> bool {
    |e: IssuanceEvent| e.registered_domain@ == domain && e.ca@ == ca && e.issued_at > c
}

/// Events for an exact SAN list and CA newer than `c`.
pub open spec fn for_identifiers(sans: Seq<Seq<char>>, ca: Seq<char>, c: int) -> spec_fn(IssuanceEvent) -> bool {
    |e: IssuanceEvent| e.ca@ == ca && texts(e.sans@) == sans && e.issued_at > c
}

proof fn lemma_count_le(s: Seq<IssuanceEvent>, p: spec_fn(IssuanceEvent) -> bool)
    ensures
        count_matching(s, p) <= s.len(),
        count_matching(s, p) > 0 ==> min_matching(s, p) is Some,
        min_matching(s, p) matches Some(m) ==> exists|i: int| 0 <= i < s.len() && p(s[i]) && s[i].issued_at == m,
    decreases s.len(),
{
    if s.len() > 0 {
        lemma_count_le(s.drop_last(), p);
        let r = min_matching(s.drop_last(), p);
        if let Some(m) = r {
            let i = choose|i: int| 0 <= i < s.drop_last().len() && p(s.drop_last()[i]) && s.drop_last()[i].issued_at == m;
            assert(s[i] == s.drop_last()[i]);
        }
        if p(s.last()) {
            assert(s[s.len() - 1] == s.last());
        }
    }
}

/// Counts the events meeting `p` (one of the two window filters), with the
/// earliest issue time among them.
fn count_where(events: &Vec<IssuanceEvent>, domain: &str, sans: &Vec<String>, ca: &str, c: i64, by_domain: bool) -> (res: (usize, Option<i64>))
    ensures
        ({
            let p = if by_domain { for_domain(domain@, ca@, c as int) } else { for_identifiers(texts(sans@), ca@, c as int) };
            res.0 == count_matching(events@, p) && match res.1 {
                Some(m) => min_matching(events@, p) == Some(m as int),
                None => min_matching(events@, p) is None,
            }
        }),
{
    let ghost p = if by_domain { for_domain(domain@, ca@, c as int) } else { for_identifiers(texts(sans@), ca@, c as int) };
    let d = domain.to_owned();
    let a = ca.to_owned();
    let mut n: usize = 0;
    let mut m: Option<i64> = None;
    let mut i: usize = 0;
    while i < events.len()
        invariant
            i <= events@.len(),
            d@ == domain@,
            a@ == ca@,
            p == (if by_domain { for_domain(domain@, ca@, c as int) } else { for_identifiers(texts(sans@), ca@, c as int) }),
            n == count_matching(events@.subrange(0, i as int), p),
            n <= i,
            match m {
                Some(v) => min_matching(events@.subrange(0, i as int), p) == Some(v as int),
                None => min_matching(events@.subrange(0, i as int), p) is None,
            },
        decreases events@.len() - i,
    {
        assert(events@.subrange(0, i + 1).drop_last() =~= events@.subrange(0, i as int));
        assert(events@.subrange(0, i + 1).last() == events@[i as int]);
        let e = &events[i];
        let hit = if by_domain {
            e.registered_domain == d && e.ca == a && e.issued_at > c
        } else {
            e.ca == a && same_texts(&e.sans, sans) && e.issued_at > c
        };
        assert(hit == p(events@[i as int]));
        if hit {
            n = n + 1;
            m = match m {
                Some(v) => Some(if e.issued_at < v { e.issued_at } else { v }),
                None => Some(e.issued_at),
            };
        }
        i = i + 1;
    }
    assert(events@.subrange(0, events@.len() as int) =~= events@);
    (n, m)
}

fn same_texts(a: &Vec<String>, b: &Vec<String>) -> (r: bool)
    ensures
        r == (texts(a@) == texts(b@)),
{
    if a.len() != b.len() {
        assert(texts(a@).len() != texts(b@).len());
        return false;
    }
    let mut i: usize = 0;
    while i < a.len()
        invariant
            i <= a@.len(),
            a@.len() == b@.len(),
            forall|k: int| 0 <= k < i ==> (#[trigger] a@[k])@ == b@[k]@,
        decreases a@.len() - i,
    {
        if a[i] != b[i] {
            assert(texts(a@)[i as int] != texts(b@)[i as int]);
            return false;
        }
        i = i + 1;
    }
    assert(texts(a@) =~= texts(b@));
    true
}

impl IssuanceLedger {
    /// How many events for a registered domain and CA are newer than
    /// `window_days` days before `now` (as a `u32`).
    pub fn domain_count_window(&self, registered_domain: &str, ca: &str, window_days: i64, now: i64) -> (n: u32)
        requires
            self.wf(),
            time_ok(now as int),
            -100_000_000 <= window_days <= 100_000_000,
        ensures
            n == count_matching(self.events@, for_domain(registered_domain@, ca@, cutoff(now as int, window_days as int))) as u32,
    {
        let c = now - window_days * DAY_SECS;
        let empty: Vec<String> = Vec::new();
        let (n, _) = count_where(&self.events, registered_domain, &empty, ca, c, true);
        n as u32
    }

    /// How many events for exactly these SANs and this CA are newer than
    /// `window_days` days before `now` (as a `u32`).
    pub fn identifier_count_window(&self, sans: &Vec<String>, ca: &str, window_days: i64, now: i64) -> (n: u32)
        requires
            self.wf(),
            time_ok(now as int),
            -100_000_000 <= window_days <= 100_000_000,
        ensures
            n == count_matching(self.events@, for_identifiers(texts(sans@), ca@, cutoff(now as int, window_days as int))) as u32,
    {
        let c = now - window_days * DAY_SECS;
        let (n, _) = count_where(&self.events, "", sans, ca, c, false);
        n as u32
    }
}

/// A gate: when as many events as the limit allows meet `p`, the time the
/// earliest of them leaves the window.
pub open spec fn gate(s: Seq<IssuanceEvent>, p: spec_fn(IssuanceEvent) -> bool, limit: CaRateLimit) -> Option<int> {
    if (count_matching(s, p) as u32) >= limit.count {
        match min_matching(s, p) {
            Some(m) => Some(m + limit.window_days * 86400),
            None => None,
        }
    } else {
        None
    }
}

/// Where a gate would stop the server: it closes with no event to date it (a zero limit).
pub open spec fn gate_panics(s: Seq<IssuanceEvent>, p: spec_fn(IssuanceEvent) -> bool, limit: CaRateLimit) -> bool {
    (count_matching(s, p) as u32) >= limit.count && min_matching(s, p) is None
}

/// The later of two optional times.
pub open spec fn later(a: Option<int>, b: Option<int>) -> Option<int> {
    match (a, b) {
        (Some(x), Some(y)) => Some(if x < y { y } else { x }),
        (Some(x), None) => Some(x),
        (None, y) => y,
    }
}

/// `*.` prefixes removed, as often as they come.
pub open spec fn strip_wildcards(h: Seq<char>) -> Seq<char>
    decreases h.len(),
{
    if h.len() >= 2 && h[0] == '*' && h[1] == '.' {
        strip_wildcards(h.subrange(2, h.len() as int))
    } else {
        h
    }
}

/// Name for the registrable domain (eTLD+1) the Public Suffix List gives a
/// host name, if it has one.
pub uninterp spec fn psl_domain_of(host: Seq<char>) -> Option<Seq<char>>;

/// `psl::List.domain(host.as_bytes())`, the bytes read back as text.
#[verifier::external_body]
fn psl_domain(host: &str) -> (res: Option<String>)
    ensures
        match res {
            Some(d) => psl_domain_of(host@) == Some(d@),
            None => psl_domain_of(host@) is None,
        },
{
    psl::List.domain(host.as_bytes()).map(|d| String::from_utf8_lossy(d.as_bytes()).into_owned())
}

pub open spec fn spec_registered_domain(hostname: Seq<char>) -> Option<Seq<char>> {
    psl_domain_of(strip_wildcards(hostname))
}

/// The registrable domain of a host name, wildcard labels removed first.
pub fn extract_registered_domain(hostname: &str) -> (res: Option<String>)
    ensures
        match res {
            Some(d) => spec_registered_domain(hostname@) == Some(d@),
            None => spec_registered_domain(hostname@) is None,
        },
{
    let chars = crate::text::chars_of(hostname);
    let mut start: usize = 0;
    let n = chars.len();
    assert(chars@.subrange(0, n as int) =~= chars@);
    while n - start >= 2 && chars[start] == '*' && chars[start + 1] == '.'
        invariant
            start <= n,
            n == chars@.len(),
            chars@ == hostname@,
            strip_wildcards(hostname@) == strip_wildcards(chars@.subrange(start as int, n as int)),
        decreases n - start,
    {
        let ghost t = chars@.subrange(start as int, n as int);
        assert(t.subrange(2, t.len() as int) =~= chars@.subrange(start + 2, n as int));
        start = start + 2;
    }
    let host = crate::text::string_from_chars(&chars.as_slice()[start..n]);
    psl_domain(host.as_str())
}

/// The latest gate over the registered domains of the SANs.
pub open spec fn domain_gates(events: Seq<IssuanceEvent>, sans: Seq<Seq<char>>, ca: Seq<char>, limit: CaRateLimit, now: int) -> Option<int>
    decreases sans.len(),
{
    if sans.len() == 0 {
        None
    } else {
        later(
            domain_gates(events, sans.drop_last(), ca, limit, now),
            match spec_registered_domain(sans.last()) {
                Some(d) => gate(events, for_domain(d, ca, cutoff(now, limit.window_days as int)), limit),
                None => None,
            },
        )
    }
}

pub open spec fn host_gate_panics(events: Seq<IssuanceEvent>, host: Seq<char>, ca: Seq<char>, limit: CaRateLimit, now: int) -> bool {
    match spec_registered_domain(host) {
        Some(d) => gate_panics(events, for_domain(d, ca, cutoff(now, limit.window_days as int)), limit),
        None => false,
    }
}

pub open spec fn domain_gates_panic(events: Seq<IssuanceEvent>, sans: Seq<Seq<char>>, ca: Seq<char>, limit: CaRateLimit, now: int) -> bool {
    exists|i: int| 0 <= i < sans.len() && #[trigger] host_gate_panics(events, sans[i], ca, limit, now)
}

/// When a proposed issuance may go ahead: `None` where no gate is closed,
/// else the time the last closed gate opens.
pub open spec fn spec_rate_limit(events: Seq<IssuanceEvent>, sans: Seq<Seq<char>>, ca: Seq<char>, limits: Option<CaRateLimits>, now: int) -> Option<int> {
    match limits {
        None => None,
        Some(l) => {
            let dom = match l.certificates_per_domain {
                Some(dl) => domain_gates(events, sans, ca, dl, now),
                None => None,
            };
            match l.duplicate_certificates {
                Some(ul) => later(dom, gate(events, for_identifiers(sans, ca, cutoff(now, ul.window_days as int)), ul)),
                None => dom,
            }
        },
    }
}

/// Where checking the gates would stop the server (a zero limit with no event to date it).
pub open spec fn rate_limit_panics(events: Seq<IssuanceEvent>, sans: Seq<Seq<char>>, ca: Seq<char>, limits: Option<CaRateLimits>, now: int) -> bool {
    match limits {
        None => false,
        Some(l) => (l.certificates_per_domain matches Some(dl) && domain_gates_panic(events, sans, ca, dl, now)) || (
        l.duplicate_certificates matches Some(ul) && gate_panics(
            events,
            for_identifiers(sans, ca, cutoff(now, ul.window_days as int)),
            ul,
        )),
    }
}

fn later_exec(a: Option<i64>, b: Option<i64>) -> (r: Option<i64>)
    ensures
        opt_int(r) == later(opt_int(a), opt_int(b)),
{
    match (a, b) {
        (Some(x), Some(y)) => Some(if x < y { y } else { x }),
        (Some(x), None) => Some(x),
        (None, y) => y,
    }
}

pub open spec fn opt_limits(o: Option<&CaRateLimits>) -> Option<CaRateLimits> {
    match o {
        Some(l) => Some(*l),
        None => None,
    }
}

pub open spec fn opt_int(o: Option<i64>) -> Option<int> {
    match o {
        Some(v) => Some(v as int),
        None => None,
    }
}

impl IssuanceLedger {
    fn gate_exec(&self, domain: &str, sans: &Vec<String>, ca: &str, limit: CaRateLimit, now: i64, by_domain: bool) -> (r: Option<i64>)
        requires
            self.wf(),
            time_ok(now as int),
            !gate_panics(
                self.events@,
                if by_domain { for_domain(domain@, ca@, cutoff(now as int, limit.window_days as int)) } else { for_identifiers(texts(sans@), ca@, cutoff(now as int, limit.window_days as int)) },
                limit,
            ),
        ensures
            opt_int(r) == gate(
                self.events@,
                if by_domain { for_domain(domain@, ca@, cutoff(now as int, limit.window_days as int)) } else { for_identifiers(texts(sans@), ca@, cutoff(now as int, limit.window_days as int)) },
                limit,
            ),
    {
        let span: i64 = limit.window_days as i64 * DAY_SECS;
        let c = now - span;
        let (n, m) = count_where(&self.events, domain, sans, ca, c, by_domain);
        let ghost p = if by_domain { for_domain(domain@, ca@, c as int) } else { for_identifiers(texts(sans@), ca@, c as int) };
        proof {
            lemma_count_le(self.events@, p);
        }
        if (n as u32) >= limit.count {
            match m {
                Some(oldest) => {
                    proof {
                        let i = choose|i: int| 0 <= i < self.events@.len() && p(self.events@[i]) && self.events@[i].issued_at == oldest;
                        assert(time_ok(self.events@[i].issued_at as int));
                    }
                    Some(oldest + span)
                },
                None => None,
            }
        } else {
            None
        }
    }

    /// Checks the rate limits for a proposed issuance (see `spec_rate_limit`):
    /// `None` where it may go ahead now, else the time it may.
    pub fn rate_limit_check(&self, sans: &Vec<String>, ca: &str, limits: Option<&CaRateLimits>, now: i64) -> (res: Option<i64>)
        requires
            self.wf(),
            limits is Some ==> time_ok(now as int),
            !rate_limit_panics(self.events@, texts(sans@), ca@, opt_limits(limits), now as int),
        ensures
            opt_int(res) == spec_rate_limit(self.events@, texts(sans@), ca@, opt_limits(limits), now as int),
    {
        let l = match limits {
            Some(l) => *l,
            None => return None,
        };
        let mut retry: Option<i64> = None;
        match l.certificates_per_domain {
            Some(dl) => {
                let ghost sv = texts(sans@);
                let mut i: usize = 0;
                assert(sv.subrange(0, 0) =~= Seq::<Seq<char>>::empty());
                while i < sans.len()
                    invariant
                        self.wf(),
                        time_ok(now as int),
                        sv == texts(sans@),
                        i <= sans@.len(),
                        !domain_gates_panic(self.events@, sv, ca@, dl, now as int),
                        opt_int(retry) == domain_gates(self.events@, sv.subrange(0, i as int), ca@, dl, now as int),
                    decreases sans@.len() - i,
                {
                    assert(sv.subrange(0, i + 1).drop_last() =~= sv.subrange(0, i as int));
                    assert(sv.subrange(0, i + 1).last() == sans@[i as int]@);
                    assert(sv[i as int] == sans@[i as int]@);
                    assert(!host_gate_panics(self.events@, sv[i as int], ca@, dl, now as int));
                    let g = match extract_registered_domain(sans[i].as_str()) {
                        Some(d) => self.gate_exec(d.as_str(), sans, ca, dl, now, true),
                        None => None,
                    };
                    retry = later_exec(retry, g);
                    i = i + 1;
                }
                assert(sv.subrange(0, sans@.len() as int) =~= sv);
            },
            None => {},
        }
        match l.duplicate_certificates {
            Some(ul) => {
                let g = self.gate_exec("", sans, ca, ul, now, false);
                retry = later_exec(retry, g);
            },
            None => {},
        }
        retry
    }
}

/// The limits configured for a CA (the first entry with its name).
pub open spec fn limits_of(ca_limits: Seq<(String, CaRateLimits)>, ca: Seq<char>) -> Option<CaRateLimits>
    decreases ca_limits.len(),
{
    if ca_limits.len() == 0 {
        None
    } else if ca_limits[0].0@ == ca {
        Some(ca_limits[0].1)
    } else {
        limits_of(ca_limits.drop_first(), ca)
    }
}

/// A CA's per-domain limit, where it has one.
pub open spec fn domain_limit_of(ca_limits: Seq<(String, CaRateLimits)>, ca: Seq<char>) -> Option<CaRateLimit> {
    match limits_of(ca_limits, ca) {
        Some(l) => l.certificates_per_domain,
        None => None,
    }
}

/// A CA's duplicate-certificate limit, where it has one.
pub open spec fn duplicate_limit_of(ca_limits: Seq<(String, CaRateLimits)>, ca: Seq<char>) -> Option<CaRateLimit> {
    match limits_of(ca_limits, ca) {
        Some(l) => l.duplicate_certificates,
        None => None,
    }
}

fn find_limits(ca_limits: &Vec<(String, CaRateLimits)>, ca: &String) -> (r: Option<CaRateLimits>)
    ensures
        r == limits_of(ca_limits@, ca@),
{
    let n = ca_limits.len();
    let mut i: usize = 0;
    assert(ca_limits@.subrange(0, n as int) =~= ca_limits@);
    while i < n
        invariant
            n == ca_limits@.len(),
            i <= n,
            limits_of(ca_limits@, ca@) == limits_of(ca_limits@.subrange(i as int, n as int), ca@),
        decreases n - i,
    {
        proof {
            let r = ca_limits@.subrange(i as int, n as int);
            assert(r.drop_first() =~= ca_limits@.subrange(i + 1, n as int));
            assert(r[0] == ca_limits@[i as int]);
        }
        if ca_limits[i].0 == *ca {
            return Some(ca_limits[i].1);
        }
        i = i + 1;
    }
    None
}

/// A quota's standing: how many events of the window meet `p`, and, where
/// that reaches the limit, when the earliest of them leaves the window; no
/// standing where the limit is reached with no event to date it.
pub open spec fn quota(events: Seq<IssuanceEvent>, p: spec_fn(IssuanceEvent) -> bool, limit: CaRateLimit) -> Option<(u32, Option<int>)> {
    let issued = count_matching(events, p) as u32;
    if issued >= limit.count {
        match min_matching(events, p) {
            Some(m) => Some((issued, Some(m + limit.window_days * 86400))),
            None => None,
        }
    } else {
        Some((issued, None))
    }
}

/// A registered domain's standing against its CA's per-domain limit.
pub struct DomainQuotaStatus {
    pub registered_domain: String,
    pub ca: String,
    pub issued: u32,
    pub limit: u32,
    pub window_days: u32,
    pub next_slot_at: Option<i64>,
}

/// A certificate's standing against its CA's duplicate-certificate limit.
pub struct IdentifierSetQuotaStatus {
    pub cert_name: String,
    pub sans: Vec<String>,
    pub ca: String,
    pub issued: u32,
    pub limit: u32,
    pub window_days: u32,
    pub next_slot_at: Option<i64>,
}

/// Pairs ordered by their first text, then their second.
pub open spec fn pair_lt(a: (Seq<char>, Seq<char>), b: (Seq<char>, Seq<char>)) -> bool {
    crate::text::str_lt(a.0, b.0) || (a.0 == b.0 && crate::text::str_lt(a.1, b.1))
}

pub open spec fn pair_views(v: Seq<(String, String)>) -> Seq<(Seq<char>, Seq<char>)> {
    v.map_values(|p: (String, String)| (p.0@, p.1@))
}

pub open spec fn pairs_sorted(v: Seq<(Seq<char>, Seq<char>)>) -> bool {
    forall|i: int, j: int| 0 <= i < j < v.len() ==> pair_lt(#[trigger] v[i], #[trigger] v[j])
}

proof fn lemma_pair_lt_facts(a: (Seq<char>, Seq<char>), b: (Seq<char>, Seq<char>), c: (Seq<char>, Seq<char>))
    ensures
        !pair_lt(a, a),
        pair_lt(a, b) && pair_lt(b, c) ==> pair_lt(a, c),
        a != b ==> pair_lt(a, b) || pair_lt(b, a),
        pair_lt(a, b) ==> !pair_lt(b, a),
{
    crate::text::lemma_str_lt_irrefl(a.0);
    crate::text::lemma_str_lt_irrefl(a.1);
    if pair_lt(a, b) && pair_lt(b, c) {
        if crate::text::str_lt(a.0, b.0) && crate::text::str_lt(b.0, c.0) {
            crate::text::lemma_str_lt_trans(a.0, b.0, c.0);
        } else if crate::text::str_lt(a.1, b.1) && crate::text::str_lt(b.1, c.1) {
            crate::text::lemma_str_lt_trans(a.1, b.1, c.1);
        }
    }
    if a != b {
        if a.0 != b.0 {
            crate::text::lemma_str_lt_total(a.0, b.0);
        } else {
            assert(a.1 != b.1);
            crate::text::lemma_str_lt_total(a.1, b.1);
        }
    }
    if pair_lt(a, b) && pair_lt(b, a) {
        if crate::text::str_lt(a.0, b.0) && crate::text::str_lt(b.0, a.0) {
            crate::text::lemma_str_lt_trans(a.0, b.0, a.0);
        } else if crate::text::str_lt(a.1, b.1) && crate::text::str_lt(b.1, a.1) {
            crate::text::lemma_str_lt_trans(a.1, b.1, a.1);
        }
    }
}

fn pair_less(a: &(String, String), b: &(String, String)) -> (r: bool)
    ensures
        r == pair_lt((a.0@, a.1@), (b.0@, b.1@)),
{
    crate::text::string_lt(&a.0, &b.0) || (a.0 == b.0 && crate::text::string_lt(&a.1, &b.1))
}

/// Puts a pair into a sorted list of distinct pairs, where it is not yet there.
fn insert_pair(v: &mut Vec<(String, String)>, x: (String, String))
    requires
        pairs_sorted(pair_views(old(v)@)),
    ensures
        pairs_sorted(pair_views(final(v)@)),
        pair_views(final(v)@).to_set() == pair_views(old(v)@).to_set().insert((x.0@, x.1@)),
{
    let ghost xv = (x.0@, x.1@);
    let mut j: usize = 0;
    while j < v.len()
        invariant
            j <= v@.len(),
            v@ == old(v)@,
            xv == (x.0@, x.1@),
            forall|k: int| 0 <= k < j ==> pair_lt(#[trigger] pair_views(v@)[k], xv),
        ensures
            j <= v@.len(),
            v@ == old(v)@,
            forall|k: int| 0 <= k < j ==> pair_lt(#[trigger] pair_views(v@)[k], xv),
            j < v@.len() ==> !pair_lt(pair_views(v@)[j as int], xv),
        decreases v@.len() - j,
    {
        if !pair_less(&v[j], &x) {
            assert(pair_views(v@)[j as int] == (v@[j as int].0@, v@[j as int].1@));
            break;
        }
        assert(pair_views(v@)[j as int] == (v@[j as int].0@, v@[j as int].1@));
        j = j + 1;
    }
    let ghost pv = pair_views(v@);
    if j < v.len() && v[j].0 == x.0 && v[j].1 == x.1 {
        proof {
            assert(pv[j as int] == xv);
            assert(pv.to_set().insert(xv) =~= pv.to_set());
        }
        return;
    }
    proof {
        if j < pv.len() {
            assert(pv[j as int] != xv);
            assert(!pair_lt(pv[j as int], xv));
            lemma_pair_lt_facts(pv[j as int], xv, xv);
            assert(pair_lt(xv, pv[j as int]));
        }
    }
    v.insert(j, x);
    proof {
        let nv = pair_views(v@);
        assert(nv =~= pv.insert(j as int, xv));
        assert forall|a: int, b: int| 0 <= a < b < nv.len() implies pair_lt(#[trigger] nv[a], #[trigger] nv[b]) by {
            if b < j {
                assert(nv[a] == pv[a] && nv[b] == pv[b]);
            } else if b == j {
                assert(nv[a] == pv[a] && nv[b] == xv);
            } else if a < j {
                assert(nv[a] == pv[a] && nv[b] == pv[b - 1]);
                if b - 1 > j {
                    lemma_pair_lt_facts(xv, pv[j as int], pv[b - 1]);
                }
                lemma_pair_lt_facts(pv[a], xv, pv[b - 1]);
            } else if a == j {
                assert(nv[a] == xv && nv[b] == pv[b - 1]);
                if b - 1 > j {
                    lemma_pair_lt_facts(xv, pv[j as int], pv[b - 1]);
                }
            } else {
                assert(nv[a] == pv[a - 1] && nv[b] == pv[b - 1]);
            }
        }
        assert(nv.to_set() =~= pv.to_set().insert(xv)) by {
            assert forall|y| nv.to_set().contains(y) implies pv.to_set().insert(xv).contains(y) by {
                let k = choose|k: int| 0 <= k < nv.len() && nv[k] == y;
                if k < j {
                    assert(pv[k] == y);
                } else if k > j {
                    assert(pv[k - 1] == y);
                }
            }
            assert forall|y| pv.to_set().insert(xv).contains(y) implies nv.to_set().contains(y) by {
                if y == xv {
                    assert(nv[j as int] == xv);
                } else {
                    let k = choose|k: int| 0 <= k < pv.len() && pv[k] == y;
                    if k < j {
                        assert(nv[k] == y);
                    } else {
                        assert(nv[k + 1] == y);
                    }
                }
            }
        }
    }
}

/// The (registered domain, CA) pairs of the events whose CA has a
/// per-domain limit.
pub open spec fn limited_pair(
    events: Seq<IssuanceEvent>,
    ca_limits: Seq<(String, CaRateLimits)>,
    pair: (Seq<char>, Seq<char>),
) -> bool {
    exists|i: int|
        0 <= i < events.len() && (#[trigger] events[i]).registered_domain@ == pair.0 && events[i].ca@ == pair.1
            && domain_limit_of(ca_limits, pair.1) is Some
}

fn limited_pairs(events: &Vec<IssuanceEvent>, ca_limits: &Vec<(String, CaRateLimits)>) -> (v: Vec<(String, String)>)
    ensures
        pairs_sorted(pair_views(v@)),
        forall|pr: (Seq<char>, Seq<char>)| pair_views(v@).to_set().contains(pr) <==> limited_pair(events@, ca_limits@, pr),
{
    let mut v: Vec<(String, String)> = Vec::new();
    let mut i: usize = 0;
    proof {
        assert(pair_views(v@).to_set() =~= Set::empty());
    }
    while i < events.len()
        invariant
            i <= events@.len(),
            pairs_sorted(pair_views(v@)),
            forall|pr: (Seq<char>, Seq<char>)|
                pair_views(v@).to_set().contains(pr) <==> limited_pair(events@.subrange(0, i as int), ca_limits@, pr),
        decreases events@.len() - i,
    {
        let e = &events[i];
        let lim = find_limits(ca_limits, &e.ca);
        let has = match lim {
            Some(l) => l.certificates_per_domain.is_some(),
            None => false,
        };
        let ghost before = pair_views(v@).to_set();
        let ghost ev = (e.registered_domain@, e.ca@);
        if has {
            insert_pair(&mut v, (e.registered_domain.clone(), e.ca.clone()));
        }
        proof {
            let s0 = events@.subrange(0, i as int);
            let s1 = events@.subrange(0, i + 1);
            assert forall|pr: (Seq<char>, Seq<char>)| pair_views(v@).to_set().contains(pr) <==> limited_pair(s1, ca_limits@, pr) by {
                if limited_pair(s0, ca_limits@, pr) {
                    let k = choose|k: int|
                        0 <= k < s0.len() && (#[trigger] s0[k]).registered_domain@ == pr.0 && s0[k].ca@ == pr.1
                            && domain_limit_of(ca_limits@, pr.1) is Some;
                    assert(s1[k] == s0[k]);
                }
                if limited_pair(s1, ca_limits@, pr) {
                    let k = choose|k: int|
                        0 <= k < s1.len() && (#[trigger] s1[k]).registered_domain@ == pr.0 && s1[k].ca@ == pr.1
                            && domain_limit_of(ca_limits@, pr.1) is Some;
                    if k < i {
                        assert(s0[k] == s1[k]);
                    } else {
                        assert(s1[k] == events@[i as int]);
                    }
                }
                if has && pr == ev {
                    assert(s1[i as int] == events@[i as int]);
                }
            }
        }
        i = i + 1;
    }
    assert(events@.subrange(0, events@.len() as int) =~= events@);
    v
}

/// The entry for a (domain, CA) pair: its limit, and its standing at `now`.
pub open spec fn domain_quota_entry(
    events: Seq<IssuanceEvent>,
    ca_limits: Seq<(String, CaRateLimits)>,
    now: int,
    r: DomainQuotaStatus,
) -> bool {
    domain_limit_of(ca_limits, r.ca@) matches Some(dl) && r.limit == dl.count && r.window_days == dl.window_days && quota(
        events,
        for_domain(r.registered_domain@, r.ca@, cutoff(now, dl.window_days as int)),
        dl,
    ) == Some((r.issued, opt_int(r.next_slot_at)))
}

/// A pair has a standing at `now` (see `quota`).
pub open spec fn has_domain_quota(
    events: Seq<IssuanceEvent>,
    ca_limits: Seq<(String, CaRateLimits)>,
    now: int,
    pr: (Seq<char>, Seq<char>),
) -> bool {
    domain_limit_of(ca_limits, pr.1) matches Some(dl) && quota(events, for_domain(pr.0, pr.1, cutoff(now, dl.window_days as int)), dl) is Some
}

pub open spec fn domain_pair(r: DomainQuotaStatus) -> (Seq<char>, Seq<char>) {
    (r.registered_domain@, r.ca@)
}

impl IssuanceLedger {
    fn quota_exec(&self, domain: &str, sans: &Vec<String>, ca: &str, limit: CaRateLimit, now: i64, by_domain: bool) -> (r: Option<(u32, Option<i64>)>)
        requires
            self.wf(),
            time_ok(now as int),
        ensures
            match r {
                Some((n, t)) => quota(
                    self.events@,
                    if by_domain { for_domain(domain@, ca@, cutoff(now as int, limit.window_days as int)) } else { for_identifiers(texts(sans@), ca@, cutoff(now as int, limit.window_days as int)) },
                    limit,
                ) == Some((n, opt_int(t))),
                None => quota(
                    self.events@,
                    if by_domain { for_domain(domain@, ca@, cutoff(now as int, limit.window_days as int)) } else { for_identifiers(texts(sans@), ca@, cutoff(now as int, limit.window_days as int)) },
                    limit,
                ) is None,
            },
    {
        let span: i64 = limit.window_days as i64 * DAY_SECS;
        let c = now - span;
        let (n, m) = count_where(&self.events, domain, sans, ca, c, by_domain);
        let ghost p = if by_domain { for_domain(domain@, ca@, c as int) } else { for_identifiers(texts(sans@), ca@, c as int) };
        proof {
            lemma_count_le(self.events@, p);
        }
        let issued = n as u32;
        if issued >= limit.count {
            match m {
                Some(oldest) => {
                    proof {
                        let i = choose|i: int| 0 <= i < self.events@.len() && p(self.events@[i]) && self.events@[i].issued_at == oldest;
                        assert(time_ok(self.events@[i].issued_at as int));
                    }
                    Some((issued, Some(oldest + span)))
                },
                None => None,
            }
        } else {
            Some((issued, None))
        }
    }

    /// Each (registered domain, CA) pair of the events whose CA has a
    /// per-domain limit, with its standing at `now` (see `quota`; a pair
    /// without one is left out), sorted by domain, then CA.
    pub fn domain_quotas(&self, ca_limits: &Vec<(String, CaRateLimits)>, now: i64) -> (res: Vec<DomainQuotaStatus>)
        requires
            self.wf(),
            time_ok(now as int),
        ensures
            pairs_sorted(res@.map_values(|r: DomainQuotaStatus| domain_pair(r))),
            forall|i: int|
                0 <= i < res@.len() ==> limited_pair(self.events@, ca_limits@, domain_pair(#[trigger] res@[i]))
                    && domain_quota_entry(self.events@, ca_limits@, now as int, res@[i]),
            forall|pr: (Seq<char>, Seq<char>)|
                limited_pair(self.events@, ca_limits@, pr) && has_domain_quota(self.events@, ca_limits@, now as int, pr)
                    ==> exists|i: int| 0 <= i < res@.len() && domain_pair(#[trigger] res@[i]) == pr,
    {
        let pairs = limited_pairs(&self.events, ca_limits);
        let ghost pv = pair_views(pairs@);
        let mut out: Vec<DomainQuotaStatus> = Vec::new();
        let mut k: usize = 0;
        let empty: Vec<String> = Vec::new();
        while k < pairs.len()
            invariant
                self.wf(),
                time_ok(now as int),
                k <= pairs@.len(),
                pv == pair_views(pairs@),
                pairs_sorted(pv),
                forall|pr: (Seq<char>, Seq<char>)| pv.to_set().contains(pr) <==> limited_pair(self.events@, ca_limits@, pr),
                forall|i: int| 0 <= i < out@.len() ==> exists|q: int| 0 <= q < k && domain_pair(#[trigger] out@[i]) == pv[q],
                forall|i: int, j: int| 0 <= i < j < out@.len() ==> pair_lt(domain_pair(#[trigger] out@[i]), domain_pair(#[trigger] out@[j])),
                forall|i: int| 0 <= i < out@.len() ==> limited_pair(self.events@, ca_limits@, domain_pair(#[trigger] out@[i]))
                    && domain_quota_entry(self.events@, ca_limits@, now as int, out@[i]),
                forall|q: int| 0 <= q < k && #[trigger] has_domain_quota(self.events@, ca_limits@, now as int, pv[q]) ==> exists|i: int|
                    0 <= i < out@.len() && domain_pair(#[trigger] out@[i]) == pv[q],
            decreases pairs@.len() - k,
        {
            let ghost cur = pv[k as int];
            let ghost before = out@;
            proof {
                assert(pv.to_set().contains(cur));
            }
            let lim = find_limits(ca_limits, &pairs[k].1);
            let dl_opt = match lim {
                Some(l) => l.certificates_per_domain,
                None => None,
            };
            if let Some(dl) = dl_opt {
                match self.quota_exec(pairs[k].0.as_str(), &empty, pairs[k].1.as_str(), dl, now, true) {
                    Some((n, t)) => {
                        let entry = DomainQuotaStatus {
                            registered_domain: pairs[k].0.clone(),
                            ca: pairs[k].1.clone(),
                            issued: n,
                            limit: dl.count,
                            window_days: dl.window_days,
                            next_slot_at: t,
                        };
                        out.push(entry);
                        proof {
                            assert(domain_pair(out@[before.len() as int]) == cur);
                            assert forall|i: int| 0 <= i < before.len() implies pair_lt(domain_pair(#[trigger] out@[i]), cur) by {
                                assert(out@[i] == before[i]);
                                let q = choose|q: int| 0 <= q < k && domain_pair(before[i]) == pv[q];
                                assert(pair_lt(pv[q], pv[k as int]));
                            }
                            assert forall|i: int| 0 <= i < out@.len() implies exists|q: int| 0 <= q < k + 1 && domain_pair(#[trigger] out@[i]) == pv[q] by {
                                if i < before.len() {
                                    assert(out@[i] == before[i]);
                                    let q = choose|q: int| 0 <= q < k && domain_pair(before[i]) == pv[q];
                                    assert(domain_pair(out@[i]) == pv[q]);
                                } else {
                                    assert(domain_pair(out@[i]) == pv[k as int]);
                                }
                            }
                            assert forall|i: int, j: int| 0 <= i < j < out@.len() implies pair_lt(domain_pair(#[trigger] out@[i]), domain_pair(#[trigger] out@[j])) by {
                                if j < before.len() {
                                    assert(out@[i] == before[i] && out@[j] == before[j]);
                                }
                            }
                            assert forall|i: int| 0 <= i < out@.len() implies limited_pair(self.events@, ca_limits@, domain_pair(#[trigger] out@[i]))
                                && domain_quota_entry(self.events@, ca_limits@, now as int, out@[i]) by {
                                if i < before.len() {
                                    assert(out@[i] == before[i]);
                                }
                            }
                            assert forall|q: int| 0 <= q < k + 1 && #[trigger] has_domain_quota(self.events@, ca_limits@, now as int, pv[q]) implies exists|i: int|
                                0 <= i < out@.len() && domain_pair(#[trigger] out@[i]) == pv[q] by {
                                if q < k {
                                    let i = choose|i: int| 0 <= i < before.len() && domain_pair(#[trigger] before[i]) == pv[q];
                                    assert(out@[i] == before[i]);
                                } else {
                                    assert(domain_pair(out@[before.len() as int]) == pv[q]);
                                }
                            }
                        }
                    },
                    None => {},
                }
            }
            k = k + 1;
        }
        proof {
            assert forall|pr: (Seq<char>, Seq<char>)| limited_pair(self.events@, ca_limits@, pr) && has_domain_quota(self.events@, ca_limits@, now as int, pr)
                implies exists|i: int| 0 <= i < out@.len() && domain_pair(#[trigger] out@[i]) == pr by {
                assert(pv.to_set().contains(pr));
                let q = choose|q: int| 0 <= q < pv.len() && pv[q] == pr;
                assert(has_domain_quota(self.events@, ca_limits@, now as int, pv[q]));
            }
            let m = out@.map_values(|r: DomainQuotaStatus| domain_pair(r));
            assert forall|i: int, j: int| 0 <= i < j < m.len() implies pair_lt(#[trigger] m[i], #[trigger] m[j]) by {
                assert(m[i] == domain_pair(out@[i]) && m[j] == domain_pair(out@[j]));
            }
        }
        out
    }
}

/// The entry for an assignment: its limit, and the standing of its
/// canonical SAN list at `now`.
pub open spec fn identifier_quota_entry(
    events: Seq<IssuanceEvent>,
    ca_limits: Seq<(String, CaRateLimits)>,
    now: int,
    a: crate::fleet::ManagedAssignment,
    r: IdentifierSetQuotaStatus,
) -> bool {
    duplicate_limit_of(ca_limits, a.ca@) matches Some(dl) && r.cert_name == a.cert_name && r.ca == a.ca && views(r.sans@)
        == crate::fleet::canonical_of(a) && r.limit == dl.count && r.window_days == dl.window_days && quota(
        events,
        for_identifiers(crate::fleet::canonical_of(a), a.ca@, cutoff(now, dl.window_days as int)),
        dl,
    ) == Some((r.issued, opt_int(r.next_slot_at)))
}

/// An assignment's CA has a duplicate-certificate limit and its SAN list a
/// standing against it (see `quota`).
pub open spec fn has_identifier_quota(
    events: Seq<IssuanceEvent>,
    ca_limits: Seq<(String, CaRateLimits)>,
    now: int,
    a: crate::fleet::ManagedAssignment,
) -> bool {
    duplicate_limit_of(ca_limits, a.ca@) matches Some(dl) && quota(
        events,
        for_identifiers(crate::fleet::canonical_of(a), a.ca@, cutoff(now, dl.window_days as int)),
        dl,
    ) is Some
}

/// `res` lists, in the assignments' order, an entry for exactly those
/// assignments that have a standing (`idx` gives each entry's assignment).
pub open spec fn quota_listing(
    idx: Seq<int>,
    assignments: Seq<crate::fleet::ManagedAssignment>,
    res: Seq<IdentifierSetQuotaStatus>,
    events: Seq<IssuanceEvent>,
    ca_limits: Seq<(String, CaRateLimits)>,
    now: int,
) -> bool {
    &&& idx.len() == res.len()
    &&& forall|i: int|
        0 <= i < res.len() ==> 0 <= #[trigger] idx[i] < assignments.len() && identifier_quota_entry(
            events,
            ca_limits,
            now,
            assignments[idx[i]],
            res[i],
        )
    &&& forall|i: int, j: int| 0 <= i < j < res.len() ==> #[trigger] idx[i] < #[trigger] idx[j]
    &&& forall|k: int|
        0 <= k < assignments.len() && has_identifier_quota(events, ca_limits, now, #[trigger] assignments[k]) ==> exists|i: int|
            0 <= i < res.len() && idx[i] == k
}

impl IssuanceLedger {
    /// For each assignment whose CA has a duplicate-certificate limit, the
    /// standing of its canonical SAN list at `now`, in the assignments' order
    /// (one without a standing is left out; see `quota_listing`).
    pub fn identifier_set_quotas(
        &self,
        assignments: &Vec<crate::fleet::ManagedAssignment>,
        ca_limits: &Vec<(String, CaRateLimits)>,
        now: i64,
    ) -> (res: Vec<IdentifierSetQuotaStatus>)
        requires
            self.wf(),
            time_ok(now as int),
        ensures
            exists|idx: Seq<int>| quota_listing(idx, assignments@, res@, self.events@, ca_limits@, now as int),
    {
        let mut out: Vec<IdentifierSetQuotaStatus> = Vec::new();
        let ghost mut idx: Seq<int> = Seq::empty();
        let mut k: usize = 0;
        while k < assignments.len()
            invariant
                self.wf(),
                time_ok(now as int),
                k <= assignments@.len(),
                idx.len() == out@.len(),
                forall|i: int|
                    0 <= i < out@.len() ==> 0 <= #[trigger] idx[i] < k && identifier_quota_entry(
                        self.events@,
                        ca_limits@,
                        now as int,
                        assignments@[idx[i]],
                        out@[i],
                    ),
                forall|i: int, j: int| 0 <= i < j < out@.len() ==> #[trigger] idx[i] < #[trigger] idx[j],
                forall|q: int|
                    0 <= q < k && has_identifier_quota(self.events@, ca_limits@, now as int, #[trigger] assignments@[q]) ==> exists|i: int|
                        0 <= i < out@.len() && idx[i] == q,
            decreases assignments@.len() - k,
        {
            let a = &assignments[k];
            let lim = find_limits(ca_limits, &a.ca);
            let dl_opt = match lim {
                Some(l) => l.duplicate_certificates,
                None => None,
            };
            if let Some(dl) = dl_opt {
                let sans = crate::fleet::canonical_sans(a);
                assert(texts(sans@) =~= views(sans@));
                match self.quota_exec("", &sans, a.ca.as_str(), dl, now, false) {
                    Some((n, t)) => {
                        let ghost before = out@;
                        let ghost idx0 = idx;
                        let entry = IdentifierSetQuotaStatus {
                            cert_name: a.cert_name.clone(),
                            sans,
                            ca: a.ca.clone(),
                            issued: n,
                            limit: dl.count,
                            window_days: dl.window_days,
                            next_slot_at: t,
                        };
                        out.push(entry);
                        proof {
                            idx = idx.push(k as int);
                            assert forall|i: int| 0 <= i < out@.len() implies 0 <= #[trigger] idx[i] < k + 1 && identifier_quota_entry(
                                self.events@,
                                ca_limits@,
                                now as int,
                                assignments@[idx[i]],
                                out@[i],
                            ) by {
                                if i < before.len() {
                                    assert(out@[i] == before[i] && idx[i] == idx0[i]);
                                }
                            }
                            assert forall|i: int, j: int| 0 <= i < j < out@.len() implies #[trigger] idx[i] < #[trigger] idx[j] by {
                                if j < before.len() {
                                    assert(idx[i] == idx0[i] && idx[j] == idx0[j]);
                                } else {
                                    assert(idx[i] == idx0[i]);
                                }
                            }
                            assert forall|q: int|
                                0 <= q < k + 1 && has_identifier_quota(self.events@, ca_limits@, now as int, #[trigger] assignments@[q]) implies exists|i: int|
                                    0 <= i < out@.len() && idx[i] == q by {
                                if q < k {
                                    let i = choose|i: int| 0 <= i < before.len() && idx0[i] == q;
                                    assert(idx[i] == q);
                                } else {
                                    assert(idx[before.len() as int] == q);
                                }
                            }
                        }
                    },
                    None => {},
                }
            }
            k = k + 1;
        }
        assert(quota_listing(idx, assignments@, out@, self.events@, ca_limits@, now as int));
        out
    }
}

/// A CA without rate limits never blocks an issuance, whatever the ledger
/// holds and whenever it is asked.
pub proof fn law_no_limits_never_block(events: Seq<IssuanceEvent>, sans: Seq<Seq<char>>, ca: Seq<char>, now: int)
    ensures
        spec_rate_limit(events, sans, ca, None, now) is None,
        !rate_limit_panics(events, sans, ca, None, now),
{
}

/// The quota listing names each (registered domain, CA) pair at most once:
/// a listing sorted strictly by pair holds no pair twice.
pub proof fn law_quota_pairs_unique(v: Seq<(Seq<char>, Seq<char>)>)
    requires
        pairs_sorted(v),
    ensures
        forall|i: int, j: int| 0 <= i < j < v.len() ==> v[i] != v[j],
{
    assert forall|i: int, j: int| 0 <= i < j < v.len() implies v[i] != v[j] by {
        lemma_pair_lt_facts(v[i], v[j], v[j]);
        assert(pair_lt(v[i], v[j]));
    }
}

/// Whether a gate is closed: it counts at least its limit of events.
pub open spec fn gate_closed(s: Seq<IssuanceEvent>, p: spec_fn(IssuanceEvent) -> bool, limit: CaRateLimit) -> bool {
    (count_matching(s, p) as u32) >= limit.count
}

/// Whether the per-domain gate of one requested name is closed.
pub open spec fn host_gate_closed(events: Seq<IssuanceEvent>, host: Seq<char>, ca: Seq<char>, limit: CaRateLimit, now: int) -> bool {
    match spec_registered_domain(host) {
        Some(d) => gate_closed(events, for_domain(d, ca, cutoff(now, limit.window_days as int)), limit),
        None => false,
    }
}

proof fn lemma_domain_gates_closed(events: Seq<IssuanceEvent>, sans: Seq<Seq<char>>, ca: Seq<char>, limit: CaRateLimit, now: int)
    requires
        !domain_gates_panic(events, sans, ca, limit, now),
    ensures
        domain_gates(events, sans, ca, limit, now) is Some <==> exists|i: int|
            0 <= i < sans.len() && #[trigger] host_gate_closed(events, sans[i], ca, limit, now),
    decreases sans.len(),
{
    if sans.len() > 0 {
        let t = sans.drop_last();
        assert(!domain_gates_panic(events, t, ca, limit, now)) by {
            if exists|i: int| 0 <= i < t.len() && #[trigger] host_gate_panics(events, t[i], ca, limit, now) {
                let i = choose|i: int| 0 <= i < t.len() && #[trigger] host_gate_panics(events, t[i], ca, limit, now);
                assert(sans[i] == t[i]);
                assert(host_gate_panics(events, sans[i], ca, limit, now));
            }
        }
        lemma_domain_gates_closed(events, t, ca, limit, now);
        let last = sans.len() - 1;
        assert(sans[last] == sans.last());
        assert(!host_gate_panics(events, sans[last], ca, limit, now));
        let g = match spec_registered_domain(sans.last()) {
            Some(d) => gate(events, for_domain(d, ca, cutoff(now, limit.window_days as int)), limit),
            None => None,
        };
        assert(g is Some <==> host_gate_closed(events, sans[last], ca, limit, now));
        assert(domain_gates(events, sans, ca, limit, now) == later(domain_gates(events, t, ca, limit, now), g));
        if exists|i: int| 0 <= i < sans.len() && #[trigger] host_gate_closed(events, sans[i], ca, limit, now) {
            let i = choose|i: int| 0 <= i < sans.len() && #[trigger] host_gate_closed(events, sans[i], ca, limit, now);
            if i < last {
                assert(t[i] == sans[i]);
                assert(host_gate_closed(events, t[i], ca, limit, now));
            }
        }
        if exists|i: int| 0 <= i < t.len() && #[trigger] host_gate_closed(events, t[i], ca, limit, now) {
            let i = choose|i: int| 0 <= i < t.len() && #[trigger] host_gate_closed(events, t[i], ca, limit, now);
            assert(sans[i] == t[i]);
            assert(host_gate_closed(events, sans[i], ca, limit, now));
        }
    }
}

/// An issuance is held back exactly when one of its gates is closed: a
/// per-domain gate (for the domain under any requested name) or the
/// duplicate gate (for the exact list of names). This holds wherever no
/// closed gate lacks an event to take its time from.
pub proof fn law_rate_limit_gates(events: Seq<IssuanceEvent>, sans: Seq<Seq<char>>, ca: Seq<char>, l: CaRateLimits, now: int)
    requires
        !rate_limit_panics(events, sans, ca, Some(l), now),
    ensures
        spec_rate_limit(events, sans, ca, Some(l), now) is Some <==> (l.certificates_per_domain matches Some(dl) && exists|i: int|
            0 <= i < sans.len() && #[trigger] host_gate_closed(events, sans[i], ca, dl, now)) || (l.duplicate_certificates matches Some(
            ul,
        ) && gate_closed(events, for_identifiers(sans, ca, cutoff(now, ul.window_days as int)), ul)),
{
    if let Some(dl) = l.certificates_per_domain {
        lemma_domain_gates_closed(events, sans, ca, dl, now);
    }
}

} // verus!
