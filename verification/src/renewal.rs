//! Shepherd's renewals: the job store and its phase changes, when a
//! certificate is due, and the steps of an ACME issuance for each authorization.
//! Times are Unix seconds and job ids 128-bit values, both given by the caller.
use crate::fleet::{ManagedAssignment, RenewalPhase};
use crate::text::{chars_of, string_from_chars};
use vstd::prelude::*;

verus! {

/// One step recorded on a job.
pub struct TraceEntry {
    pub at: String,
    pub step: String,
    pub detail: Option<String>,
    pub identifier: Option<String>,
    pub status: Option<String>,
}

/// A renewal job.
pub struct RenewalJob {
    pub id: u128,
    pub cert_name: String,
    pub ca: String,
    pub domains: Vec<String>,
    pub phase: RenewalPhase,
    pub created_at: i64,
    pub updated_at: i64,
    pub error: Option<String>,
    pub fingerprint256: Option<String>,
    pub trace: Vec<TraceEntry>,
    pub rate_limited_until: Option<i64>,
}

/// The jobs Shepherd tracks, newest last.
pub struct JobStore {
    pub jobs: Vec<RenewalJob>,
}

/// The place of the first job with an id.
pub open spec fn job_index(jobs: Seq<RenewalJob>, id: u128) -> Option<int> {
    if exists|i: int| 0 <= i < jobs.len() && (#[trigger] jobs[i]).id == id {
        Some(choose|i: int| 0 <= i < jobs.len() && (#[trigger] jobs[i]).id == id && forall|j: int| 0 <= j < i ==> jobs[j].id != id)
    } else {
        None
    }
}

/// `new` is `old` with job `i` replaced by `job`, or unchanged where there is no such job.
pub open spec fn changed_job(old: Seq<RenewalJob>, new: Seq<RenewalJob>, id: u128, f: spec_fn(RenewalJob) -> RenewalJob) -> bool {
    match job_index(old, id) {
        None => new == old,
        Some(i) => new == old.update(i, f(old[i])),
    }
}

fn find_job(jobs: &Vec<RenewalJob>, id: u128) -> (r: Option<usize>)
    ensures
        match r {
            Some(i) => job_index(jobs@, id) == Some(i as int) && i < jobs@.len(),
            None => job_index(jobs@, id) is None,
        },
{
    let mut i: usize = 0;
    while i < jobs.len()
        invariant
            i <= jobs@.len(),
            forall|j: int| 0 <= j < i ==> (#[trigger] jobs@[j]).id != id,
        decreases jobs@.len() - i,
    {
        if jobs[i].id == id {
            proof {
                let c = choose|c: int| 0 <= c < jobs@.len() && (#[trigger] jobs@[c]).id == id && forall|j: int| 0 <= j < c ==> jobs@[j].id != id;
                assert(jobs@[i as int].id == id);
                if c < i {
                } else if c > i {
                }
            }
            return Some(i);
        }
        i = i + 1;
    }
    None
}

impl JobStore {
    /// Adds a queued job for a certificate (created and updated `now`).
    pub fn create_job(&mut self, id: u128, cert_name: &str, domains: Vec<String>, ca: &str, now: i64) -> (r: u128)
        ensures
            r == id,
            final(self).jobs@.len() == old(self).jobs@.len() + 1,
            final(self).jobs@.drop_last() == old(self).jobs@,
            ({
                let j = final(self).jobs@.last();
                &&& j.id == id
                &&& j.cert_name@ == cert_name@
                &&& j.ca@ == ca@
                &&& j.domains == domains
                &&& j.phase == RenewalPhase::Queued
                &&& j.created_at == now && j.updated_at == now
                &&& j.error is None && j.fingerprint256 is None && j.rate_limited_until is None
                &&& j.trace@.len() == 0
            }),
    {
        let job = RenewalJob {
            id,
            cert_name: cert_name.to_owned(),
            ca: ca.to_owned(),
            domains,
            phase: RenewalPhase::Queued,
            created_at: now,
            updated_at: now,
            error: None,
            fingerprint256: None,
            trace: Vec::new(),
            rate_limited_until: None,
        };
        self.jobs.push(job);
        assert(self.jobs@.drop_last() =~= old(self).jobs@);
        id
    }

    /// Moves a job to a phase.
    pub fn update_phase(&mut self, id: u128, phase: RenewalPhase, now: i64)
        ensures
            changed_job(old(self).jobs@, final(self).jobs@, id, |j: RenewalJob| RenewalJob { phase: phase, updated_at: now, ..j }),
    {
        if let Some(i) = find_job(&self.jobs, id) {
            let mut job = self.jobs.remove(i);
            let ghost before = job;
            job.phase = phase;
            job.updated_at = now;
            self.jobs.insert(i, job);
            assert(self.jobs@ =~= old(self).jobs@.update(i as int, RenewalJob { phase: phase, updated_at: now, ..before }));
        }
    }

    /// Marks a job failed with an error.
    pub fn fail_job(&mut self, id: u128, error: String, now: i64)
        ensures
            changed_job(old(self).jobs@, final(self).jobs@, id, |j: RenewalJob| RenewalJob { phase: RenewalPhase::Failed, error: Some(error), updated_at: now, ..j }),
    {
        if let Some(i) = find_job(&self.jobs, id) {
            let mut job = self.jobs.remove(i);
            let ghost before = job;
            let ghost e = error;
            job.phase = RenewalPhase::Failed;
            job.error = Some(error);
            job.updated_at = now;
            self.jobs.insert(i, job);
            assert(self.jobs@ =~= old(self).jobs@.update(i as int, RenewalJob { phase: RenewalPhase::Failed, error: Some(e), updated_at: now, ..before }));
        }
    }

    /// Marks a job rate-limited until a time.
    pub fn rate_limit_job(&mut self, id: u128, retry_after: i64, now: i64)
        ensures
            changed_job(old(self).jobs@, final(self).jobs@, id, |j: RenewalJob| RenewalJob { phase: RenewalPhase::RateLimited, rate_limited_until: Some(retry_after), updated_at: now, ..j }),
    {
        if let Some(i) = find_job(&self.jobs, id) {
            let mut job = self.jobs.remove(i);
            let ghost before = job;
            job.phase = RenewalPhase::RateLimited;
            job.rate_limited_until = Some(retry_after);
            job.updated_at = now;
            self.jobs.insert(i, job);
            assert(self.jobs@ =~= old(self).jobs@.update(i as int, RenewalJob { phase: RenewalPhase::RateLimited, rate_limited_until: Some(retry_after), updated_at: now, ..before }));
        }
    }

    /// Marks a job completed with the fingerprint of the certificate it issued.
    pub fn complete_job(&mut self, id: u128, fingerprint256: String, now: i64)
        ensures
            changed_job(old(self).jobs@, final(self).jobs@, id, |j: RenewalJob| RenewalJob { phase: RenewalPhase::Completed, fingerprint256: Some(fingerprint256), updated_at: now, ..j }),
    {
        if let Some(i) = find_job(&self.jobs, id) {
            let mut job = self.jobs.remove(i);
            let ghost before = job;
            let ghost f = fingerprint256;
            job.phase = RenewalPhase::Completed;
            job.fingerprint256 = Some(fingerprint256);
            job.updated_at = now;
            self.jobs.insert(i, job);
            assert(self.jobs@ =~= old(self).jobs@.update(i as int, RenewalJob { phase: RenewalPhase::Completed, fingerprint256: Some(f), updated_at: now, ..before }));
        }
    }

    /// Records a step on a job's trace.
    pub fn append_trace(&mut self, id: u128, entry: TraceEntry)
        ensures
            match job_index(old(self).jobs@, id) {
                None => final(self).jobs@ == old(self).jobs@,
                Some(i) => final(self).jobs@.len() == old(self).jobs@.len() && (forall|k: int|
                    0 <= k < old(self).jobs@.len() && k != i ==> final(self).jobs@[k] == old(self).jobs@[k])
                    && final(self).jobs@[i].trace@ == old(self).jobs@[i].trace@.push(entry) && final(self).jobs@[i].phase
                    == old(self).jobs@[i].phase && final(self).jobs@[i].id == old(self).jobs@[i].id
                    && final(self).jobs@[i].cert_name == old(self).jobs@[i].cert_name,
            },
    {
        if let Some(i) = find_job(&self.jobs, id) {
            let mut job = self.jobs.remove(i);
            let ghost before = job;
            job.trace.push(entry);
            let ghost after = job;
            self.jobs.insert(i, job);
            assert(self.jobs@ =~= old(self).jobs@.update(i as int, after));
        }
    }

    /// Whether a job for the certificate is under way (not in a terminal phase).
    pub fn in_flight(&self, cert_name: &str) -> (b: bool)
        ensures
            b == exists|i: int|
                0 <= i < self.jobs@.len() && (#[trigger] self.jobs@[i]).cert_name@ == cert_name@
                    && !self.jobs@[i].phase.spec_is_terminal(),
    {
        let name = cert_name.to_owned();
        let mut i: usize = 0;
        while i < self.jobs.len()
            invariant
                i <= self.jobs@.len(),
                name@ == cert_name@,
                forall|k: int| 0 <= k < i ==> !((#[trigger] self.jobs@[k]).cert_name@ == cert_name@ && !self.jobs@[k].phase.spec_is_terminal()),
            decreases self.jobs@.len() - i,
        {
            if self.jobs[i].cert_name == name && !self.jobs[i].phase.is_terminal() {
                return true;
            }
            i = i + 1;
        }
        false
    }

    /// The places of the jobs that have ended, in order (what is written to the history file).
    pub fn terminal_indices(&self) -> (v: Vec<usize>)
        ensures
            forall|k: int| 0 <= k < v@.len() ==> (#[trigger] v@[k]) < self.jobs@.len() && self.jobs@[v@[k] as int].phase.spec_is_terminal(),
            forall|i: int| 0 <= i < self.jobs@.len() && (#[trigger] self.jobs@[i]).phase.spec_is_terminal() ==> v@.contains(i as usize),
            forall|a: int, b: int| 0 <= a < b < v@.len() ==> v@[a] < v@[b],
    {
        let mut v: Vec<usize> = Vec::new();
        let mut i: usize = 0;
        while i < self.jobs.len()
            invariant
                i <= self.jobs@.len(),
                forall|k: int| 0 <= k < v@.len() ==> (#[trigger] v@[k]) < i && self.jobs@[v@[k] as int].phase.spec_is_terminal(),
                forall|j: int| 0 <= j < i && (#[trigger] self.jobs@[j]).phase.spec_is_terminal() ==> v@.contains(j as usize),
                forall|a: int, b: int| 0 <= a < b < v@.len() ==> v@[a] < v@[b],
            decreases self.jobs@.len() - i,
        {
            if self.jobs[i].phase.is_terminal() {
                let ghost before = v@;
                v.push(i);
                assert forall|j: int| 0 <= j < i + 1 && (#[trigger] self.jobs@[j]).phase.spec_is_terminal() implies v@.contains(j as usize) by {
                    if j < i {
                        let k = choose|k: int| 0 <= k < before.len() && before[k] == j as usize;
                        assert(v@[k] == j as usize);
                    } else {
                        assert(v@[before.len() as int] == i);
                    }
                }
            }
            i = i + 1;
        }
        v
    }
}

/// A certificate has a renewal under way: some job for it has not ended.
pub open spec fn under_way(jobs: Seq<RenewalJob>, cert_name: Seq<char>) -> bool {
    exists|i: int| 0 <= i < jobs.len() && (#[trigger] jobs[i]).cert_name@ == cert_name && !jobs[i].phase.spec_is_terminal()
}

proof fn lemma_first_job_exists(s: Seq<RenewalJob>, id: u128, i: int)
    requires
        0 <= i < s.len(),
        s[i].id == id,
    ensures
        exists|m: int| 0 <= m < s.len() && (#[trigger] s[m]).id == id && forall|j: int| 0 <= j < m ==> s[j].id != id,
    decreases i,
{
    if exists|j: int| 0 <= j < i && (#[trigger] s[j]).id == id {
        let j = choose|j: int| 0 <= j < i && (#[trigger] s[j]).id == id;
        lemma_first_job_exists(s, id, j);
    } else {
        assert(forall|j: int| 0 <= j < i ==> s[j].id != id);
    }
}

/// A job that ends stops holding its certificate: after completing, failing
/// (or any change that leaves job `id` terminal and keeps its certificate
/// name), the certificate has a renewal under way exactly when one of its
/// other jobs has not ended; and a job that was the only one under way no
/// longer blocks the next renewal.
pub proof fn law_ended_job_releases_certificate(
    old: Seq<RenewalJob>,
    new: Seq<RenewalJob>,
    id: u128,
    f: spec_fn(RenewalJob) -> RenewalJob,
    cert_name: Seq<char>,
)
    requires
        changed_job(old, new, id, f),
        forall|j: RenewalJob| (#[trigger] f(j)).phase.spec_is_terminal() && f(j).cert_name == j.cert_name,
        job_index(old, id) is Some,
    ensures
        job_index(old, id) matches Some(k) && (under_way(new, cert_name) <==> exists|i: int|
            0 <= i < old.len() && i != k && (#[trigger] old[i]).cert_name@ == cert_name && !old[i].phase.spec_is_terminal()),
{
    let w = choose|i: int| 0 <= i < old.len() && (#[trigger] old[i]).id == id;
    lemma_first_job_exists(old, id, w);
    let k = job_index(old, id)->Some_0;
    assert(0 <= k < old.len());
    assert(new == old.update(k, f(old[k])));
    assert(new[k].phase.spec_is_terminal());
    if under_way(new, cert_name) {
        let i = choose|i: int| 0 <= i < new.len() && (#[trigger] new[i]).cert_name@ == cert_name && !new[i].phase.spec_is_terminal();
        assert(i != k);
        assert(new[i] == old[i]);
    }
    if exists|i: int| 0 <= i < old.len() && i != k && (#[trigger] old[i]).cert_name@ == cert_name && !old[i].phase.spec_is_terminal() {
        let i = choose|i: int| 0 <= i < old.len() && i != k && (#[trigger] old[i]).cert_name@ == cert_name && !old[i].phase.spec_is_terminal();
        assert(new[i] == old[i]);
    }
}

/// What the maintenance pass does for an assignment.
#[derive(Debug, Clone, Copy, PartialEq, Eq, Structural)]
pub enum MaintenanceDecision {
    /// Nothing to do (node unreachable, certificate fresh, or a job under way).
    Skip,
    /// No certificate in the store.
    RenewMissing,
    /// The node holds the certificate but not its key.
    RenewMissingKey,
    /// The certificate expires within the threshold (or its expiry is unknown).
    RenewExpiring,
}

/// When the maintenance pass renews: only for reachable nodes; when there is
/// no stored certificate, its expiry is unknown or within `threshold_days`
/// days, or the node lacks the key; and never while a job for it is under way.
pub open spec fn spec_maintenance(
    reachable: bool,
    stored_expiry: Option<Option<i64>>,
    threshold_days: i64,
    node_missing_key: bool,
    job_in_flight: bool,
) -> MaintenanceDecision {
    let due = match stored_expiry {
        None => true,
        Some(None) => true,
        Some(Some(d)) => d <= threshold_days,
    };
    if !reachable || !(due || node_missing_key) || job_in_flight {
        MaintenanceDecision::Skip
    } else if stored_expiry is None {
        MaintenanceDecision::RenewMissing
    } else if node_missing_key {
        MaintenanceDecision::RenewMissingKey
    } else {
        MaintenanceDecision::RenewExpiring
    }
}

/// Decides what the maintenance pass does for one assignment (see
/// `spec_maintenance`); `stored_expiry` is `None` where the store has no
/// certificate, else the days until it expires where known.
pub fn maintenance_decision(
    reachable: bool,
    stored_expiry: Option<Option<i64>>,
    threshold_days: i64,
    node_missing_key: bool,
    job_in_flight: bool,
) -> (d: MaintenanceDecision)
    ensures
        d == spec_maintenance(reachable, stored_expiry, threshold_days, node_missing_key, job_in_flight),
{
    if !reachable {
        return MaintenanceDecision::Skip;
    }
    let due = match stored_expiry {
        None => true,
        Some(None) => true,
        Some(Some(d)) => d <= threshold_days,
    };
    if !(due || node_missing_key) {
        return MaintenanceDecision::Skip;
    }
    if job_in_flight {
        return MaintenanceDecision::Skip;
    }
    if stored_expiry.is_none() {
        MaintenanceDecision::RenewMissing
    } else if node_missing_key {
        MaintenanceDecision::RenewMissingKey
    } else {
        MaintenanceDecision::RenewExpiring
    }
}

/// The maintenance pass for a reachable node: while a job for it is under
/// way nothing is done; otherwise a missing certificate is renewed; a node
/// without its key is renewed; a certificate of unknown expiry is renewed;
/// and one that expires in `d` days is renewed exactly when `d` is at most
/// `threshold_days`, and left alone when it lies further out. An unreachable
/// node is always left alone.
pub proof fn law_maintenance_renews_within_threshold(
    stored_expiry: Option<Option<i64>>,
    threshold_days: i64,
    node_missing_key: bool,
    job_in_flight: bool,
)
    ensures
        spec_maintenance(false, stored_expiry, threshold_days, node_missing_key, job_in_flight)
            == MaintenanceDecision::Skip,
        spec_maintenance(true, stored_expiry, threshold_days, node_missing_key, true)
            == MaintenanceDecision::Skip,
        spec_maintenance(true, None, threshold_days, node_missing_key, false)
            == MaintenanceDecision::RenewMissing,
        stored_expiry is Some ==> spec_maintenance(true, stored_expiry, threshold_days, true, false)
            == MaintenanceDecision::RenewMissingKey,
        spec_maintenance(true, Some(None), threshold_days, false, false)
            == MaintenanceDecision::RenewExpiring,
        forall|d: i64|
            d <= threshold_days ==> #[trigger] spec_maintenance(true, Some(Some(d)), threshold_days, false, false)
                == MaintenanceDecision::RenewExpiring,
        forall|d: i64|
            d > threshold_days ==> #[trigger] spec_maintenance(true, Some(Some(d)), threshold_days, false, false)
                == MaintenanceDecision::Skip,
{
}

/// The challenge types an ACME server offers.
#[derive(Debug, Clone, Copy, PartialEq, Eq, Structural)]
pub enum ChallengeKind {
    Http01,
    Dns01,
    TlsAlpn01,
    Unknown,
}

/// The status of an ACME authorization.
#[derive(Debug, Clone, Copy, PartialEq, Eq, Structural)]
pub enum AuthzStatus {
    Pending,
    Valid,
    Invalid,
    Revoked,
    Expired,
    Deactivated,
}

/// Which offered challenge answers a validation method: the first dns-01 or
/// http-01 for those methods, else the first of a known type.
pub open spec fn challenge_fits(kind: ChallengeKind, method: Seq<char>) -> bool {
    if method == "dns-01"@ {
        kind == ChallengeKind::Dns01
    } else if method == "http-01"@ {
        kind == ChallengeKind::Http01
    } else {
        kind != ChallengeKind::Unknown
    }
}

pub fn find_challenge(kinds: &Vec<ChallengeKind>, method: &str) -> (r: Option<usize>)
    ensures
        match r {
            Some(i) => i < kinds@.len() && challenge_fits(kinds@[i as int], method@) && forall|j: int| 0 <= j < i ==> !challenge_fits(kinds@[j], method@),
            None => forall|j: int| 0 <= j < kinds@.len() ==> !challenge_fits(kinds@[j], method@),
        },
{
    let m = method.to_owned();
    let dns = m == "dns-01".to_owned();
    let http = m == "http-01".to_owned();
    let mut i: usize = 0;
    while i < kinds.len()
        invariant
            i <= kinds@.len(),
            dns == (method@ == "dns-01"@),
            http == (method@ == "http-01"@),
            forall|j: int| 0 <= j < i ==> !challenge_fits(#[trigger] kinds@[j], method@),
        decreases kinds@.len() - i,
    {
        let k = kinds[i];
        let fits = if dns {
            k == ChallengeKind::Dns01
        } else if http {
            k == ChallengeKind::Http01
        } else {
            k != ChallengeKind::Unknown
        };
        if fits {
            return Some(i);
        }
        i = i + 1;
    }
    None
}

/// What issuance does with one authorization.
#[derive(Debug, Clone, Copy, PartialEq, Eq, Structural)]
pub enum AuthzStep {
    /// Already valid: nothing to do.
    Skip,
    /// Answer the challenge at this place in the offered list.
    Answer(usize),
}

/// Why issuance stops at an authorization.
#[derive(Debug, Clone, Copy, PartialEq, Eq, Structural)]
pub enum AuthzError {
    Invalid,
    NoChallenge,
}

/// The step for one authorization: skip a valid one, stop at an invalid one,
/// else answer the first fitting challenge (stop where none fits).
pub fn authz_step(status: AuthzStatus, kinds: &Vec<ChallengeKind>, method: &str) -> (r: Result<AuthzStep, AuthzError>)
    ensures
        status == AuthzStatus::Valid ==> r == Ok::<AuthzStep, AuthzError>(AuthzStep::Skip),
        status == AuthzStatus::Invalid ==> r == Err::<AuthzStep, AuthzError>(AuthzError::Invalid),
        status != AuthzStatus::Valid && status != AuthzStatus::Invalid ==> match r {
            Ok(AuthzStep::Answer(i)) => i < kinds@.len() && challenge_fits(kinds@[i as int], method@) && forall|j: int| 0 <= j < i ==> !challenge_fits(kinds@[j], method@),
            Ok(AuthzStep::Skip) => false,
            Err(e) => e == AuthzError::NoChallenge && forall|j: int| 0 <= j < kinds@.len() ==> !challenge_fits(kinds@[j], method@),
        },
{
    match status {
        AuthzStatus::Valid => Ok(AuthzStep::Skip),
        AuthzStatus::Invalid => Err(AuthzError::Invalid),
        _ => match find_challenge(kinds, method) {
            Some(i) => Ok(AuthzStep::Answer(i)),
            None => Err(AuthzError::NoChallenge),
        },
    }
}

/// The TXT record name of a dns-01 challenge: `_acme-challenge.` and the
/// domain without trailing dots and leading `*.` labels.
pub open spec fn spec_record_name(domain: Seq<char>) -> Seq<char> {
    "_acme-challenge."@ + crate::ledger::strip_wildcards(crate::policy::strip_trailing_dots(domain))
}

pub fn dns_record_name(domain: &str) -> (r: String)
    ensures
        r@ == spec_record_name(domain@),
{
    let chars = chars_of(domain);
    let mut end: usize = chars.len();
    assert(chars@.subrange(0, end as int) =~= chars@);
    while end > 0 && chars[end - 1] == '.'
        invariant
            end <= chars@.len(),
            chars@ == domain@,
            crate::policy::strip_trailing_dots(domain@) == crate::policy::strip_trailing_dots(chars@.subrange(0, end as int)),
        decreases end,
    {
        assert(chars@.subrange(0, end as int).drop_last() =~= chars@.subrange(0, end - 1));
        end = end - 1;
    }
    proof {
        let t = chars@.subrange(0, end as int);
        if end > 0 {
            assert(t.last() == chars@[end - 1]);
        }
        assert(crate::policy::strip_trailing_dots(t) == t);
    }
    let mut start: usize = 0;
    let ghost t = chars@.subrange(0, end as int);
    assert(t.subrange(0, t.len() as int) =~= t);
    while end - start >= 2 && chars[start] == '*' && chars[start + 1] == '.'
        invariant
            start <= end,
            end <= chars@.len(),
            t == chars@.subrange(0, end as int),
            crate::ledger::strip_wildcards(t) == crate::ledger::strip_wildcards(chars@.subrange(start as int, end as int)),
        decreases end - start,
    {
        let ghost u = chars@.subrange(start as int, end as int);
        assert(u.subrange(2, u.len() as int) =~= chars@.subrange(start + 2, end as int));
        start = start + 2;
    }
    let host = string_from_chars(&chars.as_slice()[start..end]);
    let mut out = String::from_str("_acme-challenge.");
    out.append(host.as_str());
    out
}

/// What issuance does once the order has settled.
#[derive(Debug, Clone, Copy, PartialEq, Eq, Structural)]
pub enum OrderOutcome {
    Pending,
    Ready,
    Processing,
    Valid,
    Invalid,
}

/// After waiting on the order: finalize a ready order, skip finalizing a valid
/// one (already issued), stop at an invalid one.
pub fn finalize_needed(status: OrderOutcome) -> (r: Option<bool>)
    ensures
        r == (if status == OrderOutcome::Invalid {
            None::<bool>
        } else {
            Some(status == OrderOutcome::Ready)
        }),
{
    match status {
        OrderOutcome::Invalid => None,
        OrderOutcome::Ready => Some(true),
        _ => Some(false),
    }
}

/// Why an admin-triggered provisioning cannot start.
#[derive(Debug, Clone, Copy, PartialEq, Eq, Structural)]
pub enum ProvisionError {
    /// No assignment has that name or domain.
    NoAssignment,
    /// The assignment names no node.
    NoCorgi,
    /// The node is not configured.
    UnknownCorgi,
    /// The assignment's CA is not configured.
    UnknownCa,
}

/// Whether an assignment answers to a name: its certificate name or its domain.
pub open spec fn answers_to(a: ManagedAssignment, name: Seq<char>) -> bool {
    a.cert_name@ == name || (a.domain matches Some(d) && d@ == name)
}

/// What an admin-triggered provisioning uses: the assignment, the node, and the key algorithm.
pub struct ProvisionPlan {
    pub assignment: usize,
    pub corgi: usize,
    pub key_algorithm: String,
}

fn first_text_index(v: &Vec<String>, t: &String) -> (r: Option<usize>)
    ensures
        match r {
            Some(i) => i < v@.len() && v@[i as int]@ == t@ && forall|j: int| 0 <= j < i ==> v@[j]@ != t@,
            None => forall|j: int| 0 <= j < v@.len() ==> v@[j]@ != t@,
        },
{
    let mut i: usize = 0;
    while i < v.len()
        invariant
            i <= v@.len(),
            forall|j: int| 0 <= j < i ==> (#[trigger] v@[j])@ != t@,
        decreases v@.len() - i,
    {
        if v[i] == *t {
            return Some(i);
        }
        i = i + 1;
    }
    None
}

/// Resolves an admin-triggered provisioning: the first assignment answering
/// to `cert_name`, its node among `corgi_names`, its CA among `ca_names`, and
/// the key algorithm (the request's, else the assignment's, else `rsa`),
/// checked in that order.
pub fn resolve_provision(
    assignments: &Vec<ManagedAssignment>,
    corgi_names: &Vec<String>,
    ca_names: &Vec<String>,
    cert_name: &str,
    requested_key_algorithm: Option<String>,
) -> (r: Result<ProvisionPlan, ProvisionError>)
    ensures
        match r {
            Ok(p) => {
                &&& p.assignment < assignments@.len()
                &&& answers_to(assignments@[p.assignment as int], cert_name@)
                &&& forall|j: int| 0 <= j < p.assignment ==> !answers_to(assignments@[j], cert_name@)
                &&& assignments@[p.assignment as int].corgi matches Some(c) && p.corgi < corgi_names@.len() && corgi_names@[p.corgi as int]@ == c@
                &&& exists|k: int| 0 <= k < ca_names@.len() && ca_names@[k]@ == assignments@[p.assignment as int].ca@
                &&& p.key_algorithm@ == match requested_key_algorithm {
                    Some(k) => k@,
                    None => match assignments@[p.assignment as int].key_algorithm {
                        Some(k) => k@,
                        None => "rsa"@,
                    },
                }
            },
            Err(ProvisionError::NoAssignment) => forall|j: int| 0 <= j < assignments@.len() ==> !answers_to(assignments@[j], cert_name@),
            Err(e) => exists|i: int|
                0 <= i < assignments@.len() && answers_to(assignments@[i], cert_name@) && (forall|j: int| 0 <= j < i ==> !answers_to(assignments@[j], cert_name@)) && match e {
                    ProvisionError::NoCorgi => assignments@[i].corgi is None,
                    ProvisionError::UnknownCorgi => assignments@[i].corgi matches Some(c) && forall|k: int| 0 <= k < corgi_names@.len() ==> corgi_names@[k]@ != c@,
                    ProvisionError::UnknownCa => (assignments@[i].corgi matches Some(c) && exists|k: int| 0 <= k < corgi_names@.len() && corgi_names@[k]@ == c@) && forall|k: int| 0 <= k < ca_names@.len() ==> ca_names@[k]@ != assignments@[i].ca@,
                    ProvisionError::NoAssignment => false,
                },
        },
{
    let name = cert_name.to_owned();
    let mut i: usize = 0;
    while i < assignments.len()
        invariant
            i <= assignments@.len(),
            name@ == cert_name@,
            forall|j: int| 0 <= j < i ==> !answers_to(#[trigger] assignments@[j], cert_name@),
        ensures
            i <= assignments@.len(),
            i < assignments@.len() ==> answers_to(assignments@[i as int], cert_name@),
            forall|j: int| 0 <= j < i ==> !answers_to(#[trigger] assignments@[j], cert_name@),
        decreases assignments@.len() - i,
    {
        let a = &assignments[i];
        let by_domain = match &a.domain {
            Some(d) => *d == name,
            None => false,
        };
        if a.cert_name == name || by_domain {
            break;
        }
        i = i + 1;
    }
    if i == assignments.len() {
        return Err(ProvisionError::NoAssignment);
    }
    let a = &assignments[i];
    let corgi = match &a.corgi {
        Some(c) => c,
        None => return Err(ProvisionError::NoCorgi),
    };
    let ci = match first_text_index(corgi_names, corgi) {
        Some(k) => k,
        None => return Err(ProvisionError::UnknownCorgi),
    };
    if first_text_index(ca_names, &a.ca).is_none() {
        return Err(ProvisionError::UnknownCa);
    }
    let key_algorithm = match requested_key_algorithm {
        Some(k) => k,
        None => match &a.key_algorithm {
            Some(k) => k.clone(),
            None => "rsa".to_owned(),
        },
    };
    Ok(ProvisionPlan { assignment: i, corgi: ci, key_algorithm })
}

} // verus!
