//! What Shepherd answers Corgi nodes on its agent port: which assignment a
//! request is about, whether a node may read another's assignments, what a
//! renewal request starts, and how a renewal job is reported.
use crate::fleet::{ManagedAssignment, RenewalPhase};
use crate::renewal::RenewalJob;
use crate::text::{trim, trim_str, views};
use crate::types::copy_string;
use vstd::prelude::*;

verus! {

/// The names a node's own renewal asks for: the SANs where there are any,
/// else the primary domain, else none.
pub fn build_domains(assignment: &ManagedAssignment) -> (r: Vec<String>)
    ensures
        views(r@) == (if assignment.sans@.len() > 0 {
            views(assignment.sans@)
        } else {
            match assignment.domain {
                Some(d) => seq![d@],
                None => Seq::empty(),
            }
        }),
{
    if assignment.sans.len() > 0 {
        crate::types::copy_strings(&assignment.sans)
    } else {
        match &assignment.domain {
            Some(d) => {
                let v: Vec<String> = vec![copy_string(d)];
                assert(views(v@) =~= seq![d@]);
                v
            },
            None => {
                let v: Vec<String> = Vec::new();
                assert(views(v@) =~= Seq::<Seq<char>>::empty());
                v
            },
        }
    }
}

/// Whether an assignment is certificate `cert_name` of node `corgi_id`.
pub open spec fn is_assignment(a: ManagedAssignment, corgi_id: Seq<char>, cert_name: Seq<char>) -> bool {
    (a.corgi matches Some(c) && c@ == corgi_id) && a.cert_name@ == cert_name
}

/// Finds the first assignment of certificate `cert_name` on node `corgi_id`.
pub fn find_assignment(assignments: &Vec<ManagedAssignment>, corgi_id: &str, cert_name: &str) -> (r: Result<usize, String>)
    ensures
        match r {
            Ok(i) => i < assignments@.len() && is_assignment(assignments@[i as int], corgi_id@, cert_name@) && forall|j: int|
                0 <= j < i ==> !is_assignment(#[trigger] assignments@[j], corgi_id@, cert_name@),
            Err(m) => (forall|j: int| 0 <= j < assignments@.len() ==> !is_assignment(#[trigger] assignments@[j], corgi_id@, cert_name@))
                && m@ == "No assignment for "@ + corgi_id@ + "/"@ + cert_name@,
        },
{
    let node = corgi_id.to_owned();
    let name = cert_name.to_owned();
    let mut i: usize = 0;
    while i < assignments.len()
        invariant
            i <= assignments@.len(),
            node@ == corgi_id@,
            name@ == cert_name@,
            forall|j: int| 0 <= j < i ==> !is_assignment(#[trigger] assignments@[j], corgi_id@, cert_name@),
        decreases assignments@.len() - i,
    {
        let a = &assignments[i];
        let on_node = match &a.corgi {
            Some(c) => *c == node,
            None => false,
        };
        if on_node && a.cert_name == name {
            return Ok(i);
        }
        i = i + 1;
    }
    let mut m = String::new();
    m.append("No assignment for ");
    m.append(corgi_id);
    m.append("/");
    m.append(cert_name);
    Err(m)
}

/// A node may read only its own assignments.
pub fn check_agent_identity(node_name: &str, corgi_id: &str) -> (r: Result<(), String>)
    ensures
        node_name@ == corgi_id@ ==> r is Ok,
        node_name@ != corgi_id@ ==> (r matches Err(m) && m@ == "Authenticated as '"@ + node_name@
            + "' but requested assignments for '"@ + corgi_id@ + "'"@),
{
    let a = node_name.to_owned();
    let b = corgi_id.to_owned();
    if a == b {
        Ok(())
    } else {
        let mut m = String::new();
        m.append("Authenticated as '");
        m.append(node_name);
        m.append("' but requested assignments for '");
        m.append(corgi_id);
        m.append("'");
        Err(m)
    }
}

/// A phase as reported: its name in lower case.
pub open spec fn spec_phase_name(p: RenewalPhase) -> Seq<char> {
    match p {
        RenewalPhase::Queued => "queued"@,
        RenewalPhase::SubmittingOrder => "submittingorder"@,
        RenewalPhase::Validating => "validating"@,
        RenewalPhase::Finalizing => "finalizing"@,
        RenewalPhase::Installing => "installing"@,
        RenewalPhase::RateLimited => "ratelimited"@,
        RenewalPhase::Completed => "completed"@,
        RenewalPhase::Failed => "failed"@,
        RenewalPhase::Cancelled => "cancelled"@,
    }
}

/// A phase as reported (see `spec_phase_name`).
pub fn phase_name(p: RenewalPhase) -> (s: &'static str)
    ensures
        s@ == spec_phase_name(p),
{
    match p {
        RenewalPhase::Queued => "queued",
        RenewalPhase::SubmittingOrder => "submittingorder",
        RenewalPhase::Validating => "validating",
        RenewalPhase::Finalizing => "finalizing",
        RenewalPhase::Installing => "installing",
        RenewalPhase::RateLimited => "ratelimited",
        RenewalPhase::Completed => "completed",
        RenewalPhase::Failed => "failed",
        RenewalPhase::Cancelled => "cancelled",
    }
}

/// A job's status as a node sees it: `completed`, `failed` (any other end)
/// or `pending`.
pub fn job_status(p: RenewalPhase) -> (s: &'static str)
    ensures
        s@ == (if p == RenewalPhase::Completed {
            "completed"@
        } else if p.spec_is_terminal() {
            "failed"@
        } else {
            "pending"@
        }),
{
    if p == RenewalPhase::Completed {
        "completed"
    } else if p.is_terminal() {
        "failed"
    } else {
        "pending"
    }
}

/// Whether a job renews the certificate and has not ended.
pub open spec fn active_for(j: RenewalJob, cert_name: Seq<char>) -> bool {
    j.cert_name@ == cert_name && !j.phase.spec_is_terminal()
}

/// The job a status request reports: the first job of the certificate that
/// has not ended, else the one of its jobs updated last (the later one where
/// two tie), else none.
pub open spec fn status_job(jobs: Seq<RenewalJob>, cert_name: Seq<char>, r: Option<int>) -> bool {
    if exists|i: int| 0 <= i < jobs.len() && active_for(#[trigger] jobs[i], cert_name) {
        r matches Some(i) && 0 <= i < jobs.len() && active_for(jobs[i], cert_name) && forall|j: int|
            0 <= j < i ==> !active_for(#[trigger] jobs[j], cert_name)
    } else if exists|i: int| 0 <= i < jobs.len() && (#[trigger] jobs[i]).cert_name@ == cert_name {
        r matches Some(i) && 0 <= i < jobs.len() && jobs[i].cert_name@ == cert_name && (forall|j: int|
            0 <= j < jobs.len() && (#[trigger] jobs[j]).cert_name@ == cert_name ==> jobs[j].updated_at <= jobs[i].updated_at)
            && forall|j: int| i < j < jobs.len() && (#[trigger] jobs[j]).cert_name@ == cert_name ==> jobs[j].updated_at < jobs[i].updated_at
    } else {
        r is None
    }
}

/// Picks the job a status request reports (see `status_job`); the error
/// where the certificate has no job.
pub fn renew_status_job(jobs: &Vec<RenewalJob>, cert_name: &str) -> (r: Result<usize, String>)
    ensures
        match r {
            Ok(i) => status_job(jobs@, cert_name@, Some(i as int)),
            Err(m) => status_job(jobs@, cert_name@, None) && m@ == "No renewal job for "@ + cert_name@,
        },
{
    let name = cert_name.to_owned();
    let mut i: usize = 0;
    while i < jobs.len()
        invariant
            i <= jobs@.len(),
            name@ == cert_name@,
            forall|j: int| 0 <= j < i ==> !active_for(#[trigger] jobs@[j], cert_name@),
        decreases jobs@.len() - i,
    {
        if jobs[i].cert_name == name && !jobs[i].phase.is_terminal() {
            assert(active_for(jobs@[i as int], cert_name@));
            return Ok(i);
        }
        i = i + 1;
    }
    let mut best: Option<usize> = None;
    let mut k: usize = 0;
    while k < jobs.len()
        invariant
            k <= jobs@.len(),
            name@ == cert_name@,
            forall|j: int| 0 <= j < jobs@.len() ==> !active_for(#[trigger] jobs@[j], cert_name@),
            match best {
                Some(b) => b < k && jobs@[b as int].cert_name@ == cert_name@ && (forall|j: int|
                    0 <= j < k && (#[trigger] jobs@[j]).cert_name@ == cert_name@ ==> jobs@[j].updated_at <= jobs@[b as int].updated_at)
                    && forall|j: int| b < j < k && (#[trigger] jobs@[j]).cert_name@ == cert_name@ ==> jobs@[j].updated_at < jobs@[b as int].updated_at,
                None => forall|j: int| 0 <= j < k ==> (#[trigger] jobs@[j]).cert_name@ != cert_name@,
            },
        decreases jobs@.len() - k,
    {
        if jobs[k].cert_name == name {
            let take = match best {
                None => true,
                Some(b) => jobs[k].updated_at >= jobs[b].updated_at,
            };
            if take {
                best = Some(k);
            }
        }
        k = k + 1;
    }
    match best {
        Some(b) => Ok(b),
        None => {
            let mut m = String::new();
            m.append("No renewal job for ");
            m.append(cert_name);
            Err(m)
        },
    }
}

/// What a node's renewal request starts.
#[derive(Debug, Clone, Copy, PartialEq, Eq, Structural)]
pub enum RenewStart {
    /// The request carries no CSR.
    MissingCsr,
    /// A job for the certificate is under way (its place); it is reported again.
    Existing(usize),
    /// A new job is to be created.
    New,
}

/// Decides what a renewal request starts: a blank CSR is refused; otherwise
/// the first job of the certificate still under way is reported, or a new
/// job is made.
pub fn renew_start(jobs: &Vec<RenewalJob>, cert_name: &str, csr_pem: &str) -> (r: RenewStart)
    ensures
        trim(csr_pem@).len() == 0 ==> r == RenewStart::MissingCsr,
        trim(csr_pem@).len() > 0 ==> match r {
            RenewStart::Existing(i) => i < jobs@.len() && active_for(jobs@[i as int], cert_name@) && forall|j: int|
                0 <= j < i ==> !active_for(#[trigger] jobs@[j], cert_name@),
            RenewStart::New => forall|j: int| 0 <= j < jobs@.len() ==> !active_for(#[trigger] jobs@[j], cert_name@),
            RenewStart::MissingCsr => false,
        },
{
    if trim_str(csr_pem).as_str().unicode_len() == 0 {
        return RenewStart::MissingCsr;
    }
    let name = cert_name.to_owned();
    let mut i: usize = 0;
    while i < jobs.len()
        invariant
            i <= jobs@.len(),
            name@ == cert_name@,
            trim(csr_pem@).len() > 0,
            forall|j: int| 0 <= j < i ==> !active_for(#[trigger] jobs@[j], cert_name@),
        decreases jobs@.len() - i,
    {
        if jobs[i].cert_name == name && !jobs[i].phase.is_terminal() {
            return RenewStart::Existing(i);
        }
        i = i + 1;
    }
    RenewStart::New
}

/// The hooks a node offers, as its `/hooks` answer lists them.
pub struct CorgiHooksResponse {
    pub available_hooks: Vec<String>,
    pub default_hooks: Vec<String>,
}

/// Name for the `Debug` text of a list of strings (`["a", "b"]`, each string
/// quoted and escaped as `str::escape_debug` does).
pub uninterp spec fn debug_list(v: Seq<Seq<char>>) -> Seq<char>;

/// `format!("{:?}", v)` for a list of strings. The claim: the text is the name
/// `debug_list` of the strings.
#[verifier::external_body]
fn debug_text_list(v: &Vec<String>) -> (r: String)
    ensures
        r@ == debug_list(views(v@)),
{
    format!("{:?}", v)
}

/// Whether a hook is among those offered.
pub open spec fn offered(available: Seq<String>, hook: Seq<char>) -> bool {
    exists|i: int| 0 <= i < available.len() && (#[trigger] available[i])@ == hook
}

/// Checks the hooks an assignment asks a node to run against those the node
/// offers: the first hook not offered is refused, naming the node and listing
/// what it offers.
pub fn check_hooks(hooks: &Vec<String>, corgi_name: &str, available: &CorgiHooksResponse) -> (r: Result<(), String>)
    ensures
        match r {
            Ok(()) => forall|k: int| 0 <= k < hooks@.len() ==> offered(available.available_hooks@, (#[trigger] hooks@[k])@),
            Err(m) => exists|k: int|
                0 <= k < hooks@.len() && !offered(available.available_hooks@, (#[trigger] hooks@[k])@) && (forall|j: int|
                    0 <= j < k ==> offered(available.available_hooks@, (#[trigger] hooks@[j])@)) && m@ == "Hook '"@ + hooks@[k]@
                    + "' is not available on corgi '"@ + corgi_name@ + "'. Available: "@ + debug_list(views(available.available_hooks@)),
        },
{
    let mut k: usize = 0;
    while k < hooks.len()
        invariant
            k <= hooks@.len(),
            forall|j: int| 0 <= j < k ==> offered(available.available_hooks@, (#[trigger] hooks@[j])@),
        decreases hooks@.len() - k,
    {
        let mut found = false;
        let mut i: usize = 0;
        while i < available.available_hooks.len()
            invariant
                i <= available.available_hooks@.len(),
                k < hooks@.len(),
                found == exists|a: int| 0 <= a < i && (#[trigger] available.available_hooks@[a])@ == hooks@[k as int]@,
            decreases available.available_hooks@.len() - i,
        {
            if available.available_hooks[i] == hooks[k] {
                found = true;
            }
            i = i + 1;
        }
        if !found {
            let mut m = String::new();
            m.append("Hook '");
            m.append(hooks[k].as_str());
            m.append("' is not available on corgi '");
            m.append(corgi_name);
            m.append("'. Available: ");
            m.append(debug_text_list(&available.available_hooks).as_str());
            return Err(m);
        }
        k = k + 1;
    }
    Ok(())
}

} // verus!
