//! The ACME request flows that follow a validated JWS: answering a challenge
//! (and the background validation it starts), finalizing an order, and
//! revoking a certificate. The server's tables are passed in as vectors; what
//! reaches the network or the disk stays with the caller.
use crate::acme::{absolute, find_order, order_index, order_updated, problem, problem_is, update_order_status, AcmeProblem};
use crate::types::{copy_string, AcmeAuthz, AcmeChallenge, AcmeOrder};
use vstd::prelude::*;

verus! {

/// The index of the first challenge with an id.
pub open spec fn challenge_index(cs: Seq<AcmeChallenge>, id: Seq<char>) -> Option<int> {
    if exists|i: int| 0 <= i < cs.len() && (#[trigger] cs[i]).id@ == id {
        Some(
            choose|i: int|
                0 <= i < cs.len() && (#[trigger] cs[i]).id@ == id && forall|j: int| 0 <= j < i ==> cs[j].id@ != id,
        )
    } else {
        None
    }
}

/// The index of the first authorization with an id.
pub open spec fn authz_index(az: Seq<AcmeAuthz>, id: Seq<char>) -> Option<int> {
    if exists|i: int| 0 <= i < az.len() && (#[trigger] az[i]).id@ == id {
        Some(
            choose|i: int|
                0 <= i < az.len() && (#[trigger] az[i]).id@ == id && forall|j: int| 0 <= j < i ==> az[j].id@ != id,
        )
    } else {
        None
    }
}

fn find_challenge(cs: &Vec<AcmeChallenge>, id: &str) -> (r: Option<usize>)
    ensures
        r matches Some(i) ==> challenge_index(cs@, id@) == Some(i as int) && i < cs@.len(),
        r is None ==> challenge_index(cs@, id@) is None,
{
    let wanted = id.to_owned();
    let mut i: usize = 0;
    while i < cs.len()
        invariant
            i <= cs@.len(),
            wanted@ == id@,
            forall|j: int| 0 <= j < i ==> (#[trigger] cs@[j]).id@ != id@,
        decreases cs@.len() - i,
    {
        if cs[i].id == wanted {
            proof {
                let c = choose|c: int|
                    0 <= c < cs@.len() && (#[trigger] cs@[c]).id@ == id@ && forall|j: int| 0 <= j < c ==> cs@[j].id@ != id@;
                assert(cs@[i as int].id@ == id@);
                if c < i {
                } else if c > i {
                }
            }
            return Some(i);
        }
        i = i + 1;
    }
    None
}

fn find_authz(az: &Vec<AcmeAuthz>, id: &str) -> (r: Option<usize>)
    ensures
        r matches Some(i) ==> authz_index(az@, id@) == Some(i as int) && i < az@.len(),
        r is None ==> authz_index(az@, id@) is None,
{
    let wanted = id.to_owned();
    let mut i: usize = 0;
    while i < az.len()
        invariant
            i <= az@.len(),
            wanted@ == id@,
            forall|j: int| 0 <= j < i ==> (#[trigger] az@[j]).id@ != id@,
        decreases az@.len() - i,
    {
        if az[i].id == wanted {
            proof {
                let c = choose|c: int|
                    0 <= c < az@.len() && (#[trigger] az@[c]).id@ == id@ && forall|j: int| 0 <= j < c ==> az@[j].id@ != id@;
                assert(az@[i as int].id@ == id@);
                if c < i {
                } else if c > i {
                }
            }
            return Some(i);
        }
        i = i + 1;
    }
    None
}

/// `new` is `old` with the first challenge that has id `id` given `status`;
/// unchanged where there is none.
pub open spec fn challenge_set(old: Seq<AcmeChallenge>, new: Seq<AcmeChallenge>, id: Seq<char>, status: Seq<char>) -> bool {
    match challenge_index(old, id) {
        None => new == old,
        Some(i) => new.len() == old.len() && new[i].status@ == status && new == old.update(
            i,
            AcmeChallenge { status: new[i].status, ..old[i] },
        ),
    }
}

/// `new` is `old` with the first authorization that has id `id` given
/// `status`; unchanged where there is none.
pub open spec fn authz_set(old: Seq<AcmeAuthz>, new: Seq<AcmeAuthz>, id: Seq<char>, status: Seq<char>) -> bool {
    match authz_index(old, id) {
        None => new == old,
        Some(i) => new.len() == old.len() && new[i].status@ == status && new == old.update(
            i,
            AcmeAuthz { status: new[i].status, ..old[i] },
        ),
    }
}

/// Sets the status of the first challenge with an id.
pub fn set_challenge_status(challenges: &mut Vec<AcmeChallenge>, id: &str, status: &str)
    ensures
        challenge_set(old(challenges)@, final(challenges)@, id@, status@),
{
    match find_challenge(challenges, id) {
        None => {},
        Some(i) => {
            let mut c = challenges.remove(i);
            let ghost before = c;
            c.status = status.to_owned();
            challenges.insert(i, c);
            assert(challenges@ =~= old(challenges)@.update(i as int, AcmeChallenge { status: c.status, ..before }));
        },
    }
}

/// Sets the status of the first authorization with an id.
pub fn set_authz_status(authzs: &mut Vec<AcmeAuthz>, id: &str, status: &str)
    ensures
        authz_set(old(authzs)@, final(authzs)@, id@, status@),
{
    match find_authz(authzs, id) {
        None => {},
        Some(i) => {
            let mut a = authzs.remove(i);
            let ghost before = a;
            a.status = status.to_owned();
            authzs.insert(i, a);
            assert(authzs@ =~= old(authzs)@.update(i as int, AcmeAuthz { status: a.status, ..before }));
        },
    }
}

proof fn lemma_first_challenge_exists(s: Seq<AcmeChallenge>, id: Seq<char>, i: int)
    requires
        0 <= i < s.len(),
        s[i].id@ == id,
    ensures
        exists|m: int| 0 <= m < s.len() && (#[trigger] s[m]).id@ == id && forall|j: int| 0 <= j < m ==> s[j].id@ != id,
    decreases i,
{
    if exists|j: int| 0 <= j < i && (#[trigger] s[j]).id@ == id {
        let j = choose|j: int| 0 <= j < i && (#[trigger] s[j]).id@ == id;
        lemma_first_challenge_exists(s, id, j);
    } else {
        assert(forall|j: int| 0 <= j < i ==> s[j].id@ != id);
    }
}

/// A challenge's validation starts once: once a response has set a
/// (non-none-01) challenge processing, the challenge keeps its place and its
/// method, and its status is settled, so that the next response to it is
/// answered with that status and starts no second validation.
pub proof fn law_validation_starts_once(old: Seq<AcmeChallenge>, new: Seq<AcmeChallenge>, id: Seq<char>)
    requires
        challenge_set(old, new, id, "processing"@),
        challenge_index(old, id) matches Some(ci) && old[ci].validation_method@ != "none-01"@,
    ensures
        challenge_index(new, id) == challenge_index(old, id),
        challenge_index(new, id) matches Some(ci) && new[ci].validation_method@ != "none-01"@ && is_settled(new[ci].status@),
{
    let w = choose|i: int| 0 <= i < old.len() && (#[trigger] old[i]).id@ == id;
    lemma_first_challenge_exists(old, id, w);
    let ci = challenge_index(old, id)->Some_0;
    assert(0 <= ci < old.len() && old[ci].id@ == id && forall|j: int| 0 <= j < ci ==> old[j].id@ != id);
    assert(new == old.update(ci, AcmeChallenge { status: new[ci].status, ..old[ci] }));
    assert(new[ci].id == old[ci].id);
    assert forall|j: int| 0 <= j < ci implies new[j].id@ != id by {
        assert(new[j] == old[j]);
    }
    let c = choose|i: int| 0 <= i < new.len() && (#[trigger] new[i]).id@ == id && forall|j: int| 0 <= j < i ==> new[j].id@ != id;
    assert(new[ci].id@ == id);
    if c < ci {
        assert(new[c] == old[c]);
    } else if c > ci {
    }
}

/// The status a settled validation gives: `valid` or `invalid`.
pub open spec fn verdict_status(valid: bool) -> Seq<char> {
    if valid {
        "valid"@
    } else {
        "invalid"@
    }
}

/// Records the outcome of validating a challenge: the challenge and its
/// authorization take the verdict, then the order's status is recomputed.
pub fn mark_challenge(
    challenges: &mut Vec<AcmeChallenge>,
    authzs: &mut Vec<AcmeAuthz>,
    orders: &mut Vec<AcmeOrder>,
    challenge_id: &str,
    authz_id: &str,
    order_id: &str,
    valid: bool,
)
    ensures
        challenge_set(old(challenges)@, final(challenges)@, challenge_id@, verdict_status(valid)),
        authz_set(old(authzs)@, final(authzs)@, authz_id@, verdict_status(valid)),
        order_updated(old(orders)@, final(orders)@, final(authzs)@, order_id@),
{
    let status = if valid { "valid" } else { "invalid" };
    set_challenge_status(challenges, challenge_id, status);
    set_authz_status(authzs, authz_id, status);
    update_order_status(orders, authzs, order_id);
}

/// The challenge object a client is sent back.
pub struct ChallengeReply {
    pub challenge_type: String,
    pub status: String,
    pub url: String,
    pub token: String,
}

/// A validation to run in the background: the challenge as it stood and the
/// domain of its authorization.
pub struct ValidationJob {
    pub challenge: AcmeChallenge,
    pub domain: String,
}

/// How a challenge response is answered: refused, or a reply, with the
/// validation to start where one is due.
pub enum ChallengeAnswer {
    Refused(AcmeProblem),
    Replied(ChallengeReply, Option<ValidationJob>),
}

/// The account id a request was signed by, empty where it names none.
pub open spec fn account_text(account: Option<String>) -> Seq<char> {
    match account {
        Some(a) => a@,
        None => ""@,
    }
}

/// The order with this id exists and belongs to the account.
pub open spec fn owns_order(orders: Seq<AcmeOrder>, order_id: Seq<char>, account: Seq<char>) -> bool {
    order_index(orders, order_id) matches Some(k) && orders[k].account_id@ == account
}

/// The identifier value of the first authorization with an id, empty where
/// there is none.
pub open spec fn authz_domain(authzs: Seq<AcmeAuthz>, id: Seq<char>) -> Seq<char> {
    match authz_index(authzs, id) {
        Some(k) => authzs[k].identifier.value@,
        None => ""@,
    }
}

/// A challenge status that a new response does not change.
pub open spec fn is_settled(status: Seq<char>) -> bool {
    status == "valid"@ || status == "invalid"@ || status == "processing"@
}

pub open spec fn reply_is(r: ChallengeReply, c: AcmeChallenge, status: Seq<char>, url: Seq<char>) -> bool {
    r.challenge_type == c.challenge_type && r.status@ == status && r.url@ == url && r.token == c.token
}

pub open spec fn challenge_url(host: Seq<char>, scheme: Seq<char>, id: Seq<char>) -> Seq<char> {
    scheme + "://"@ + host + "/acme/challenge/"@ + id
}

fn is_settled_status(s: &String) -> (b: bool)
    ensures
        b == is_settled(s@),
{
    *s == "valid".to_owned() || *s == "invalid".to_owned() || *s == "processing".to_owned()
}

fn reply(c: &AcmeChallenge, status: &str, url: String) -> (r: ChallengeReply)
    ensures
        reply_is(r, *c, status@, url@),
{
    let t = copy_string(&c.challenge_type);
    let k = copy_string(&c.token);
    ChallengeReply { challenge_type: t, status: status.to_owned(), url, token: k }
}

fn order_owned(orders: &Vec<AcmeOrder>, order_id: &str, account: &Option<String>) -> (b: bool)
    ensures
        b == owns_order(orders@, order_id@, account_text(*account)),
{
    let who = match account {
        Some(a) => copy_string(a),
        None => String::new(),
    };
    proof {
        reveal_strlit("");
    }
    assert(who@ == account_text(*account));
    match find_order(orders, order_id) {
        Some(k) => {
            let b = orders[k].account_id == who;
            assert(b == (orders@[k as int].account_id@ == who@));
            b
        },
        None => false,
    }
}

fn domain_of(authzs: &Vec<AcmeAuthz>, authz_id: &str) -> (d: String)
    ensures
        d@ == authz_domain(authzs@, authz_id@),
{
    proof {
        reveal_strlit("");
    }
    match find_authz(authzs, authz_id) {
        Some(k) => copy_string(&authzs[k].identifier.value),
        None => String::new(),
    }
}

/// Answers a client's response to a challenge (RFC 8555 §7.5.1) for the
/// account that signed it. In order: an unknown challenge is refused (404),
/// as is one whose order is not the account's (403). A none-01 challenge is
/// refused where the server does not permit it, else marked valid at once. A
/// challenge already valid, invalid or processing is reported as it stands;
/// any other is set processing and its validation is handed back to run.
pub fn respond_challenge(
    challenges: &mut Vec<AcmeChallenge>,
    authzs: &mut Vec<AcmeAuthz>,
    orders: &mut Vec<AcmeOrder>,
    id: &str,
    account: Option<String>,
    allow_none: bool,
    host: &str,
    scheme: &str,
) -> (res: ChallengeAnswer)
    ensures
        match challenge_index(old(challenges)@, id@) {
            None => res matches ChallengeAnswer::Refused(p) && problem_is(p, 404, "malformed"@, "challenge not found"@)
                && final(challenges)@ == old(challenges)@ && final(authzs)@ == old(authzs)@ && final(orders)@ == old(orders)@,
            Some(ci) => {
                let c = old(challenges)@[ci];
                let url = challenge_url(host@, scheme@, c.id@);
                if !owns_order(old(orders)@, c.order_id@, account_text(account)) {
                    res matches ChallengeAnswer::Refused(p) && problem_is(
                        p,
                        403,
                        "unauthorized"@,
                        "challenge does not belong to account"@,
                    ) && final(challenges)@ == old(challenges)@ && final(authzs)@ == old(authzs)@ && final(orders)@ == old(orders)@
                } else if c.validation_method@ == "none-01"@ {
                    if !allow_none {
                        res matches ChallengeAnswer::Refused(p) && problem_is(
                            p,
                            403,
                            "unauthorized"@,
                            "none-01 validation is not permitted"@,
                        ) && final(challenges)@ == old(challenges)@ && final(authzs)@ == old(authzs)@ && final(orders)@
                            == old(orders)@
                    } else {
                        res matches ChallengeAnswer::Replied(r, None) && reply_is(r, c, "valid"@, url) && challenge_set(
                            old(challenges)@,
                            final(challenges)@,
                            id@,
                            "valid"@,
                        ) && authz_set(old(authzs)@, final(authzs)@, c.authz_id@, "valid"@) && order_updated(
                            old(orders)@,
                            final(orders)@,
                            final(authzs)@,
                            c.order_id@,
                        )
                    }
                } else if is_settled(c.status@) {
                    res matches ChallengeAnswer::Replied(r, None) && reply_is(r, c, c.status@, url) && final(challenges)@
                        == old(challenges)@ && final(authzs)@ == old(authzs)@ && final(orders)@ == old(orders)@
                } else {
                    res matches ChallengeAnswer::Replied(r, Some(job)) && reply_is(r, c, "processing"@, url) && job.challenge
                        == c && job.domain@ == authz_domain(old(authzs)@, c.authz_id@) && challenge_set(
                        old(challenges)@,
                        final(challenges)@,
                        id@,
                        "processing"@,
                    ) && final(authzs)@ == old(authzs)@ && final(orders)@ == old(orders)@
                }
            },
        },
{
    let ci = match find_challenge(challenges, id) {
        Some(i) => i,
        None => return ChallengeAnswer::Refused(problem(404, "malformed", "challenge not found")),
    };
    let snap = challenges[ci].duplicate();
    let owned = order_owned(orders, snap.order_id.as_str(), &account);
    if !owned {
        return ChallengeAnswer::Refused(problem(403, "unauthorized", "challenge does not belong to account"));
    }
    let domain = domain_of(authzs, snap.authz_id.as_str());
    let mut path = String::from_str("/acme/challenge/");
    path.append(snap.id.as_str());
    let url = absolute(host, scheme, path.as_str());
    assert(url@ =~= challenge_url(host@, scheme@, snap.id@));
    if snap.validation_method == "none-01".to_owned() {
        if !allow_none {
            return ChallengeAnswer::Refused(problem(403, "unauthorized", "none-01 validation is not permitted"));
        }
        mark_challenge(challenges, authzs, orders, id, snap.authz_id.as_str(), snap.order_id.as_str(), true);
        return ChallengeAnswer::Replied(reply(&snap, "valid", url), None);
    }
    if is_settled_status(&snap.status) {
        let current = snap.status.clone();
        return ChallengeAnswer::Replied(reply(&snap, current.as_str(), url), None);
    }
    set_challenge_status(challenges, id, "processing");
    let r = reply(&snap, "processing", url);
    ChallengeAnswer::Replied(r, Some(ValidationJob { challenge: snap, domain }))
}

/// What the background validation of a challenge does next.
pub enum ValidationAction {
    /// Read the challenge's current status and report it.
    Poll,
    /// Wait the check interval, then read the status and report it.
    WaitThenPoll,
    /// Run the http-01 or dns-01 check and report whether it passed.
    Check,
    /// Stop: mark the challenge valid (`Some(true)`) or invalid
    /// (`Some(false)`), or leave it as it is (`None`).
    Finish(Option<bool>),
}

/// What the background validation learns: the challenge's current status
/// (`None` where it is gone), or the result of a check.
pub enum ValidationEvent {
    Status(Option<String>),
    Checked(bool),
}

/// A background validation: the attempt under way and the number allowed.
pub struct ValidationRun {
    pub attempt: u32,
    pub check_count: u32,
}

impl ValidationRun {
    pub open spec fn wf(&self) -> bool {
        self.attempt < self.check_count
    }

    /// Starts a validation of `check_count` attempts: the first status read
    /// comes at once; with no attempts allowed the challenge is marked invalid.
    pub fn start(check_count: u32) -> (out: (ValidationRun, ValidationAction))
        ensures
            out.0.attempt == 0,
            out.0.check_count == check_count,
            check_count == 0 ==> out.1 == ValidationAction::Finish(Some(false)),
            check_count > 0 ==> out.1 == ValidationAction::Poll,
    {
        let run = ValidationRun { attempt: 0, check_count };
        if check_count == 0 {
            (run, ValidationAction::Finish(Some(false)))
        } else {
            (run, ValidationAction::Poll)
        }
    }

    /// One step: a challenge found gone, valid or invalid stops the run; any
    /// other status leads to a check. A passed check marks the challenge
    /// valid; a failed one leads to the next attempt after a wait, or, when
    /// none is left, marks the challenge invalid.
    pub fn step(&self, event: ValidationEvent) -> (out: (ValidationRun, ValidationAction))
        requires
            self.wf(),
        ensures
            out.0.check_count == self.check_count,
            match event {
                ValidationEvent::Status(st) => out.0.attempt == self.attempt && if st matches Some(t) && t@ != "valid"@
                    && t@ != "invalid"@ {
                    out.1 == ValidationAction::Check
                } else {
                    out.1 == ValidationAction::Finish(None)
                },
                ValidationEvent::Checked(true) => out.0.attempt == self.attempt && out.1 == ValidationAction::Finish(
                    Some(true),
                ),
                ValidationEvent::Checked(false) => out.0.attempt == self.attempt + 1 && if self.attempt + 1
                    < self.check_count {
                    out.1 == ValidationAction::WaitThenPoll && out.0.wf()
                } else {
                    out.1 == ValidationAction::Finish(Some(false))
                },
            },
    {
        match event {
            ValidationEvent::Status(st) => {
                let live = match &st {
                    Some(t) => *t != "valid".to_owned() && *t != "invalid".to_owned(),
                    None => false,
                };
                let run = ValidationRun { attempt: self.attempt, check_count: self.check_count };
                if live {
                    (run, ValidationAction::Check)
                } else {
                    (run, ValidationAction::Finish(None))
                }
            },
            ValidationEvent::Checked(passed) => {
                if passed {
                    (ValidationRun { attempt: self.attempt, check_count: self.check_count }, ValidationAction::Finish(Some(true)))
                } else {
                    let next = self.attempt + 1;
                    let run = ValidationRun { attempt: next, check_count: self.check_count };
                    if next < self.check_count {
                        (run, ValidationAction::WaitThenPoll)
                    } else {
                        (run, ValidationAction::Finish(Some(false)))
                    }
                }
            },
        }
    }
}

/// The values of an order's identifiers, in order.
pub open spec fn identifier_values(ids: Seq<crate::types::AcmeIdentifier>) -> Seq<Seq<char>> {
    ids.map_values(|i: crate::types::AcmeIdentifier| i.value@)
}

/// The checks a finalize request passes before anything is signed, in
/// order: the order exists (404), belongs to the account (403), is ready or
/// valid (400), and the request carries a CSR (400) in URL-safe Base64 (400).
/// On success: the order's index, its identifier values, and the CSR in PEM.
pub open spec fn spec_finalize_check(
    orders: Seq<AcmeOrder>,
    order_id: Seq<char>,
    account: Option<String>,
    csr_b64: Seq<char>,
) -> Result<(int, Seq<Seq<char>>, Seq<char>), (u16, Seq<char>, Seq<char>)> {
    match order_index(orders, order_id) {
        None => Err((404u16, "malformed"@, "order not found"@)),
        Some(k) => {
            let o = orders[k];
            if !(account matches Some(a) && a@ == o.account_id@) {
                Err((403u16, "unauthorized"@, "order does not belong to account"@))
            } else if o.status@ != "ready"@ && o.status@ != "valid"@ {
                Err((400u16, "orderNotReady"@, "order is not ready for finalize"@))
            } else if csr_b64.len() == 0 {
                Err((400u16, "malformed"@, "csr is required"@))
            } else {
                match crate::codec::base64_url_decode(csr_b64) {
                    None => Err((400u16, "badCSR"@, "invalid CSR base64url"@)),
                    Some(der) => Ok((k, identifier_values(o.identifiers@), crate::cert::pem_armor("CERTIFICATE REQUEST"@, der))),
                }
            }
        },
    }
}

/// A finalize request that passed the checks.
pub struct FinalizeRequest {
    pub index: usize,
    pub sans: Vec<String>,
    pub csr_pem: String,
}

fn identifier_value_list(ids: &Vec<crate::types::AcmeIdentifier>) -> (v: Vec<String>)
    ensures
        crate::text::views(v@) == identifier_values(ids@),
{
    let mut v: Vec<String> = Vec::new();
    let mut i: usize = 0;
    while i < ids.len()
        invariant
            i <= ids@.len(),
            crate::text::views(v@) == identifier_values(ids@.subrange(0, i as int)),
        decreases ids@.len() - i,
    {
        let ghost before = v@;
        v.push(copy_string(&ids[i].value));
        proof {
            assert(ids@.subrange(0, i + 1) =~= ids@.subrange(0, i as int).push(ids@[i as int]));
            assert(crate::text::views(v@) =~= crate::text::views(before).push(ids@[i as int].value@));
            assert(identifier_values(ids@.subrange(0, i + 1)) =~= identifier_values(ids@.subrange(0, i as int)).push(ids@[i as int].value@));
        }
        i = i + 1;
    }
    assert(ids@.subrange(0, ids@.len() as int) =~= ids@);
    v
}

/// Runs the checks of `spec_finalize_check` on a finalize request.
pub fn check_finalize(orders: &Vec<AcmeOrder>, order_id: &str, account: &Option<String>, csr_b64: &str) -> (res: Result<FinalizeRequest, AcmeProblem>)
    ensures
        match spec_finalize_check(orders@, order_id@, *account, csr_b64@) {
            Err(e) => res matches Err(p) && problem_is(p, e.0, e.1, e.2),
            Ok(r) => res matches Ok(f) && f.index == r.0 && f.index < orders@.len() && crate::text::views(f.sans@) == r.1
                && f.csr_pem@ == r.2,
        },
{
    let k = match find_order(orders, order_id) {
        Some(k) => k,
        None => return Err(problem(404, "malformed", "order not found")),
    };
    let owned = match account {
        Some(a) => *a == orders[k].account_id,
        None => false,
    };
    if !owned {
        return Err(problem(403, "unauthorized", "order does not belong to account"));
    }
    if orders[k].status != "ready".to_owned() && orders[k].status != "valid".to_owned() {
        return Err(problem(400, "orderNotReady", "order is not ready for finalize"));
    }
    if csr_b64.unicode_len() == 0 {
        return Err(problem(400, "malformed", "csr is required"));
    }
    let der = match crate::codec::base64_url_decode_bytes(csr_b64) {
        Some(d) => d,
        None => return Err(problem(400, "badCSR", "invalid CSR base64url")),
    };
    let sans = identifier_value_list(&orders[k].identifiers);
    let csr_pem = crate::cert::pem_armor_text("CERTIFICATE REQUEST", der.as_slice());
    Ok(FinalizeRequest { index: k, sans, csr_pem })
}

/// The account's Vigil user, `unknown` where no account has that id.
pub open spec fn owner_of(accounts: Seq<crate::types::AcmeAccountRecord>, account_id: Seq<char>) -> Seq<char> {
    match crate::acme::account_index(accounts, account_id) {
        Some(j) => accounts[j].vigil_user_id@,
        None => "unknown"@,
    }
}

/// The record kept of a certificate issued for an ACME order: the
/// certificate's report, issued by `acme:<account>` for the account's owner,
/// not revoked, with no file path yet.
pub open spec fn record_for(
    r: crate::types::CertificateRecord,
    s: crate::types::SignedCertificate,
    order: AcmeOrder,
    accounts: Seq<crate::types::AcmeAccountRecord>,
) -> bool {
    &&& r.id == s.id
    &&& r.serial_number == s.serial_number
    &&& r.subject == s.subject
    &&& r.fingerprint256 == s.fingerprint256
    &&& r.valid_from == s.valid_from
    &&& r.valid_to == s.valid_to
    &&& r.cert_path@.len() == 0
    &&& r.issued_by@ == "acme:"@ + order.account_id@
    &&& r.owner_vigil_user_id@ == owner_of(accounts, order.account_id@)
    &&& r.issuing_acme_account_id == Some(order.account_id)
    &&& !r.revoked
    &&& r.revoked_at is None
    &&& r.revoked_by is None
    &&& r.revoked_by_vigil_user_id is None
    &&& r.revoked_by_acme_account_id is None
    &&& r.revoked_via is None
    &&& r.revoke_reason is None
}

fn owner_lookup(accounts: &Vec<crate::types::AcmeAccountRecord>, account_id: &String) -> (u: String)
    ensures
        u@ == owner_of(accounts@, account_id@),
{
    match crate::acme::find_account(accounts, account_id) {
        Some(j) => {
            proof {
                let c = choose|i: int|
                    0 <= i < accounts@.len() && (#[trigger] accounts@[i]).id@ == account_id@ && forall|j: int|
                        0 <= j < i ==> accounts@[j].id@ != account_id@;
                assert(accounts@[j as int].id@ == account_id@);
                if c < j {
                } else if c > j {
                }
            }
            copy_string(&accounts[j].vigil_user_id)
        },
        None => String::from_str("unknown"),
    }
}

/// The record kept of a certificate issued for an order (see `record_for`),
/// stamped with the time of issue.
pub fn issued_record(
    signed: &crate::types::SignedCertificate,
    order: &AcmeOrder,
    accounts: &Vec<crate::types::AcmeAccountRecord>,
    issued_at: String,
) -> (r: crate::types::CertificateRecord)
    ensures
        record_for(r, *signed, *order, accounts@),
        r.issued_at == issued_at,
{
    let mut by = String::from_str("acme:");
    by.append(order.account_id.as_str());
    let owner = owner_lookup(accounts, &order.account_id);
    crate::types::CertificateRecord {
        id: copy_string(&signed.id),
        serial_number: copy_string(&signed.serial_number),
        subject: copy_string(&signed.subject),
        fingerprint256: copy_string(&signed.fingerprint256),
        valid_from: copy_string(&signed.valid_from),
        valid_to: copy_string(&signed.valid_to),
        cert_path: String::new(),
        issued_at,
        issued_by: by,
        owner_vigil_user_id: owner,
        issuing_acme_account_id: Some(copy_string(&order.account_id)),
        revoked: false,
        revoked_at: None,
        revoked_by: None,
        revoked_by_vigil_user_id: None,
        revoked_by_acme_account_id: None,
        revoked_via: None,
        revoke_reason: None,
    }
}

/// A certificate issued for an order, with the record to keep of it.
pub struct FinalizedOrder {
    pub index: usize,
    pub signed: crate::types::SignedCertificate,
    pub record: crate::types::CertificateRecord,
}

/// The validity a finalize request asks for: its `days`, cut to 32 bits as
/// the server reads it, else the CA's default.
pub open spec fn finalize_days(payload_days: Option<u64>, default_days: u32) -> u32 {
    match payload_days {
        Some(d) => d as u32,
        None => default_days,
    }
}

/// The identifiers of one kind that a CSR and the order's values carry.
pub open spec fn requested(csr_pem: Seq<char>, sans: Seq<Seq<char>>, k: crate::policy::IdKind) -> Set<Seq<char>> {
    crate::policy::csr_ids(csr_pem, k).union(crate::policy::extra_of(sans, k).to_set())
}

/// What signing a finalized order's CSR yields, for some serial the
/// issuance may use and the time of issue: the failing step's text as a
/// `badCSR`, or the certificate and its record.
pub open spec fn signing_outcome(
    csr_pem: Seq<char>,
    sans: Seq<Seq<char>>,
    days: u32,
    key_pem: Seq<char>,
    ca_cert_pem: Seq<char>,
    db_serial: Option<String>,
    k: int,
    order: AcmeOrder,
    accounts: Seq<crate::types::AcmeAccountRecord>,
    res: Result<FinalizedOrder, AcmeProblem>,
) -> bool {
    exists|serial: Seq<char>, now: int|
        #![trigger crate::cert::spec_sign_csr(csr_pem, days as nat, Some(sans), key_pem, ca_cert_pem, serial, now)]
        crate::cert::serial_choice(db_serial, serial) && match crate::cert::spec_sign_csr(
            csr_pem,
            days as nat,
            Some(sans),
            key_pem,
            ca_cert_pem,
            serial,
            now,
        ) {
            Err(ce) => res matches Err(p) && problem_is(p, 400, "badCSR"@, crate::cert::cert_error_message(ce)),
            Ok(sv) => res matches Ok(f) && f.index == k && crate::cert::signed_view(f.signed) == sv && record_for(
                f.record,
                f.signed,
                order,
                accounts,
            ),
        }
}

/// What finalizing an order yields: the checks of `spec_finalize_check`,
/// then the issuance policy on the CSR and the order's identifiers, then the
/// signature, each refusal a `badCSR` with the failing step's text; on
/// success the certificate and its record.
pub open spec fn finalize_outcome(
    orders: Seq<AcmeOrder>,
    accounts: Seq<crate::types::AcmeAccountRecord>,
    order_id: Seq<char>,
    account: Option<String>,
    csr_b64: Seq<char>,
    days: u32,
    policy: &crate::policy::IssuancePolicyConfig,
    key_pem: Seq<char>,
    ca_cert_pem: Seq<char>,
    db_serial: Option<String>,
    res: Result<FinalizedOrder, AcmeProblem>,
) -> bool {
    match spec_finalize_check(orders, order_id, account, csr_b64) {
        Err(e) => res matches Err(p) && problem_is(p, e.0, e.1, e.2),
        Ok(r) => {
            let (k, sans, csr_pem) = r;
            exists|pv: Result<(), crate::policy::PolicyError>|
                #[trigger] crate::policy::policy_verdict(
                    requested(csr_pem, sans, crate::policy::IdKind::Dns),
                    requested(csr_pem, sans, crate::policy::IdKind::Uri),
                    requested(csr_pem, sans, crate::policy::IdKind::Ip),
                    policy,
                    pv,
                ) && match pv {
                    Err(pe) => res matches Err(p) && problem_is(p, 400, "badCSR"@, crate::policy::policy_message(&pe)),
                    Ok(_) => signing_outcome(csr_pem, sans, days, key_pem, ca_cert_pem, db_serial, k, orders[k], accounts, res),
                }
        },
    }
}

/// Finalizes an order (RFC 8555 §7.4): checks the request, holds the CSR and
/// the order's identifiers to the issuance policy, and signs the CSR for
/// `days` days (see `finalize_outcome`). Storing the certificate and marking
/// the order valid (`complete_order`) are left to the caller. The validity
/// is the request's `days` where given (see `finalize_days`), else the CA's
/// default.
pub fn finalize_order(
    orders: &Vec<AcmeOrder>,
    accounts: &Vec<crate::types::AcmeAccountRecord>,
    order_id: &str,
    account: &Option<String>,
    csr_b64: &str,
    payload_days: Option<u64>,
    default_days: u32,
    policy: &crate::policy::IssuancePolicyConfig,
    key_pem: &str,
    ca_cert_pem: &str,
    db_serial: Option<String>,
) -> (res: Result<FinalizedOrder, AcmeProblem>)
    requires
        db_serial matches Some(h) ==> crate::der::strip_0x(crate::text::trim(h@)).len() > 0,
    ensures
        finalize_outcome(
            orders@,
            accounts@,
            order_id@,
            *account,
            csr_b64@,
            finalize_days(payload_days, default_days),
            policy,
            key_pem@,
            ca_cert_pem@,
            db_serial,
            res,
        ),
{
    let req = match check_finalize(orders, order_id, account, csr_b64) {
        Ok(r) => r,
        Err(p) => return Err(p),
    };
    let days: u32 = match payload_days {
        Some(d) => d as u32,
        None => default_days,
    };
    let ghost sans_v = crate::text::views(req.sans@);
    let ghost pem_v = req.csr_pem@;
    let verdict = crate::policy::validate_issuance_policy(req.csr_pem.as_str(), req.sans.as_slice(), policy);
    assert(crate::policy::policy_verdict(
        requested(pem_v, sans_v, crate::policy::IdKind::Dns),
        requested(pem_v, sans_v, crate::policy::IdKind::Uri),
        requested(pem_v, sans_v, crate::policy::IdKind::Ip),
        policy,
        verdict,
    ));
    match verdict {
        Err(pe) => {
            let msg = pe.message();
            let p = AcmeProblem { status: 400, kind: String::from_str("badCSR"), detail: msg, replay_nonce: None };
            proof {
                reveal_strlit("badCSR");
            }
            return Err(p);
        },
        Ok(()) => {},
    }
    sign_for_order(&req, &orders[req.index], accounts, days, key_pem, ca_cert_pem, db_serial)
}

fn sign_for_order(
    req: &FinalizeRequest,
    order: &AcmeOrder,
    accounts: &Vec<crate::types::AcmeAccountRecord>,
    days: u32,
    key_pem: &str,
    ca_cert_pem: &str,
    db_serial: Option<String>,
) -> (res: Result<FinalizedOrder, AcmeProblem>)
    requires
        db_serial matches Some(h) ==> crate::der::strip_0x(crate::text::trim(h@)).len() > 0,
    ensures
        signing_outcome(
            req.csr_pem@,
            crate::text::views(req.sans@),
            days,
            key_pem@,
            ca_cert_pem@,
            db_serial,
            req.index as int,
            *order,
            accounts@,
            res,
        ),
{
    let ghost sans_v = crate::text::views(req.sans@);
    let ghost pem_v = req.csr_pem@;
    let signed = crate::cert::sign_csr(req.csr_pem.as_str(), days, Some(req.sans.as_slice()), key_pem, ca_cert_pem, db_serial);
    let ghost (serial, now) = choose|serial: Seq<char>, now: int|
        crate::cert::serial_choice(db_serial, serial) && crate::cert::signed_result(signed) == crate::cert::spec_sign_csr(
            pem_v,
            days as nat,
            Some(sans_v),
            key_pem@,
            ca_cert_pem@,
            serial,
            now,
        );
    match signed {
        Err(ce) => {
            let msg = ce.message();
            let p = AcmeProblem { status: 400, kind: String::from_str("badCSR"), detail: msg, replay_nonce: None };
            proof {
                reveal_strlit("badCSR");
            }
            Err(p)
        },
        Ok(sc) => {
            let k = req.index;
            let record = issued_record(&sc, order, accounts, crate::clock::now_rfc3339());
            Ok(FinalizedOrder { index: k, signed: sc, record })
        },
    }
}

/// `new` is `old` with the first order that has id `order_id` made valid,
/// its certificate at `/acme/cert/<cert_id>`; unchanged where there is none.
pub open spec fn order_completed(old: Seq<AcmeOrder>, new: Seq<AcmeOrder>, order_id: Seq<char>, cert_id: Seq<char>) -> bool {
    match order_index(old, order_id) {
        None => new == old,
        Some(i) => new.len() == old.len() && new[i].status@ == "valid"@ && (new[i].certificate_path matches Some(p)
            && p@ == "/acme/cert/"@ + cert_id) && new == old.update(
            i,
            AcmeOrder { status: new[i].status, certificate_path: new[i].certificate_path, ..old[i] },
        ),
    }
}

/// Marks a finalized order valid, with the path of its certificate.
pub fn complete_order(orders: &mut Vec<AcmeOrder>, order_id: &str, cert_id: &str)
    ensures
        order_completed(old(orders)@, final(orders)@, order_id@, cert_id@),
{
    match find_order(orders, order_id) {
        None => {},
        Some(i) => {
            let mut o = orders.remove(i);
            let ghost before = o;
            let mut path = String::from_str("/acme/cert/");
            path.append(cert_id);
            o.status = String::from_str("valid");
            o.certificate_path = Some(path);
            proof {
                reveal_strlit("valid");
            }
            orders.insert(i, o);
            assert(orders@ =~= old(orders)@.update(
                i as int,
                AcmeOrder { status: o.status, certificate_path: o.certificate_path, ..before },
            ));
        },
    }
}

/// The last step of a finalize: where the certificate record of `finalized`
/// was stored (`stored`), the order is made valid with its certificate at
/// `/acme/cert/<record id>`; where storing failed, the request fails (500,
/// `badCSR`) and the orders are unchanged.
pub fn settle_finalized(orders: &mut Vec<AcmeOrder>, order_id: &str, finalized: &FinalizedOrder, stored: bool) -> (r: Result<(), AcmeProblem>)
    ensures
        stored ==> r is Ok && order_completed(old(orders)@, final(orders)@, order_id@, finalized.record.id@),
        !stored ==> (r matches Err(p) && problem_is(p, 500, "badCSR"@, "failed to store certificate"@)) && final(orders)@
            == old(orders)@,
{
    if !stored {
        return Err(crate::acme::problem(500, "badCSR", "failed to store certificate"));
    }
    complete_order(orders, order_id, finalized.record.id.as_str());
    Ok(())
}

/// A finalize that succeeds and whose record is stored leaves its order
/// valid, with its certificate at `/acme/cert/` and the stored record's id
/// (which is the certificate's id); every other order is unchanged.
#[verifier::spinoff_prover]
#[verifier::rlimit(60)]
pub proof fn law_finalize_makes_order_valid(
    orders: Seq<AcmeOrder>,
    accounts: Seq<crate::types::AcmeAccountRecord>,
    order_id: Seq<char>,
    account: Option<String>,
    csr_b64: Seq<char>,
    days: u32,
    policy: &crate::policy::IssuancePolicyConfig,
    key_pem: Seq<char>,
    ca_cert_pem: Seq<char>,
    db_serial: Option<String>,
    f: FinalizedOrder,
    after: Seq<AcmeOrder>,
)
    requires
        finalize_outcome(orders, accounts, order_id, account, csr_b64, days, policy, key_pem, ca_cert_pem, db_serial, Ok(f)),
        order_completed(orders, after, order_id, f.record.id@),
    ensures
        order_index(orders, order_id) == Some(f.index as int),
        0 <= f.index < after.len(),
        after[f.index as int].status@ == "valid"@,
        after[f.index as int].certificate_path matches Some(p) && p@ == "/acme/cert/"@ + f.signed.id@,
        after[f.index as int].id == orders[f.index as int].id,
        forall|j: int| 0 <= j < orders.len() && j != f.index ==> after[j] == orders[j],
{
    lemma_finalize_ok(orders, accounts, order_id, account, csr_b64, days, policy, key_pem, ca_cert_pem, db_serial, f);
    lemma_completed_at(orders, after, order_id, f.record.id@, f.index as int);
}

proof fn lemma_first_order(s: Seq<AcmeOrder>, id: Seq<char>, w: int)
    requires
        0 <= w < s.len(),
        s[w].id@ == id,
    ensures
        exists|i: int| 0 <= i < s.len() && (#[trigger] s[i]).id@ == id && forall|j: int| 0 <= j < i ==> s[j].id@ != id,
    decreases w,
{
    if exists|j: int| 0 <= j < w && (#[trigger] s[j]).id@ == id {
        let j = choose|j: int| 0 <= j < w && (#[trigger] s[j]).id@ == id;
        lemma_first_order(s, id, j);
    } else {
        assert(forall|j: int| 0 <= j < w ==> s[j].id@ != id);
    }
}

proof fn lemma_order_index_bounds(s: Seq<AcmeOrder>, id: Seq<char>)
    ensures
        order_index(s, id) matches Some(i) ==> 0 <= i < s.len() && s[i].id@ == id,
{
    if exists|w: int| 0 <= w < s.len() && (#[trigger] s[w]).id@ == id {
        let w = choose|w: int| 0 <= w < s.len() && (#[trigger] s[w]).id@ == id;
        lemma_first_order(s, id, w);
    }
}

proof fn lemma_completed_at(old: Seq<AcmeOrder>, new: Seq<AcmeOrder>, order_id: Seq<char>, cert_id: Seq<char>, i: int)
    requires
        order_index(old, order_id) == Some(i),
        order_completed(old, new, order_id, cert_id),
    ensures
        0 <= i < new.len(),
        new[i].status@ == "valid"@,
        new[i].certificate_path matches Some(p) && p@ == "/acme/cert/"@ + cert_id,
        new[i].id == old[i].id,
        forall|j: int| 0 <= j < old.len() && j != i ==> new[j] == old[j],
{
    lemma_order_index_bounds(old, order_id);
    assert(new[i].id == old.update(i, AcmeOrder { status: new[i].status, certificate_path: new[i].certificate_path, ..old[i] })[i].id);
}

#[verifier::spinoff_prover]
#[verifier::rlimit(50)]
proof fn lemma_finalize_ok(
    orders: Seq<AcmeOrder>,
    accounts: Seq<crate::types::AcmeAccountRecord>,
    order_id: Seq<char>,
    account: Option<String>,
    csr_b64: Seq<char>,
    days: u32,
    policy: &crate::policy::IssuancePolicyConfig,
    key_pem: Seq<char>,
    ca_cert_pem: Seq<char>,
    db_serial: Option<String>,
    f: FinalizedOrder,
)
    requires
        finalize_outcome(orders, accounts, order_id, account, csr_b64, days, policy, key_pem, ca_cert_pem, db_serial, Ok(f)),
    ensures
        order_index(orders, order_id) == Some(f.index as int),
        f.record.id == f.signed.id,
{
    let c = spec_finalize_check(orders, order_id, account, csr_b64);
    assert(c is Ok);
    let r = c->Ok_0;
    let pv = choose|pv: Result<(), crate::policy::PolicyError>|
        #[trigger] crate::policy::policy_verdict(
            requested(r.2, r.1, crate::policy::IdKind::Dns),
            requested(r.2, r.1, crate::policy::IdKind::Uri),
            requested(r.2, r.1, crate::policy::IdKind::Ip),
            policy,
            pv,
        ) && match pv {
            Err(pe) => Ok::<FinalizedOrder, AcmeProblem>(f) matches Err(p) && problem_is(p, 400, "badCSR"@, crate::policy::policy_message(&pe)),
            Ok(_) => signing_outcome(r.2, r.1, days, key_pem, ca_cert_pem, db_serial, r.0, orders[r.0], accounts, Ok(f)),
        };
    assert(pv is Ok);
    assert(signing_outcome(r.2, r.1, days, key_pem, ca_cert_pem, db_serial, r.0, orders[r.0], accounts, Ok(f)));
}

/// The order object a client is sent: its status, expiry and identifiers,
/// and absolute URLs for its authorizations, its finalize endpoint and its
/// certificate.
pub struct OrderReply {
    pub status: String,
    pub expires: String,
    pub identifiers: Vec<crate::types::AcmeIdentifier>,
    pub authorizations: Vec<String>,
    pub finalize: String,
    pub certificate: Option<String>,
}

/// `scheme://host` followed by a path.
pub open spec fn url_of(host: Seq<char>, scheme: Seq<char>, path: Seq<char>) -> Seq<char> {
    scheme + "://"@ + host + path
}

/// The URLs of an order's authorizations.
pub open spec fn authz_urls(host: Seq<char>, scheme: Seq<char>, ids: Seq<String>) -> Seq<Seq<char>> {
    ids.map_values(|id: String| url_of(host, scheme, "/acme/authz/"@ + id@))
}

/// Renders an order for a client (RFC 8555 §7.1.3).
pub fn order_response(order: &AcmeOrder, host: &str, scheme: &str) -> (r: OrderReply)
    ensures
        r.status == order.status,
        r.expires == order.expires,
        r.identifiers@ == order.identifiers@,
        crate::text::views(r.authorizations@) == authz_urls(host@, scheme@, order.authz_ids@),
        r.finalize@ == url_of(host@, scheme@, order.finalize_path@),
        match order.certificate_path {
            None => r.certificate is None,
            Some(p) => r.certificate matches Some(c) && c@ == url_of(host@, scheme@, p@),
        },
{
    let mut urls: Vec<String> = Vec::new();
    let mut i: usize = 0;
    while i < order.authz_ids.len()
        invariant
            i <= order.authz_ids@.len(),
            crate::text::views(urls@) == authz_urls(host@, scheme@, order.authz_ids@.subrange(0, i as int)),
        decreases order.authz_ids@.len() - i,
    {
        let mut path = String::from_str("/acme/authz/");
        path.append(order.authz_ids[i].as_str());
        let u = absolute(host, scheme, path.as_str());
        let ghost before = urls@;
        urls.push(u);
        proof {
            let ids = order.authz_ids@;
            assert(ids.subrange(0, i + 1) =~= ids.subrange(0, i as int).push(ids[i as int]));
            assert(crate::text::views(urls@) =~= crate::text::views(before).push(u@));
            assert(authz_urls(host@, scheme@, ids.subrange(0, i + 1)) =~= authz_urls(host@, scheme@, ids.subrange(0, i as int)).push(
                url_of(host@, scheme@, "/acme/authz/"@ + ids[i as int]@),
            ));
            assert(u@ =~= url_of(host@, scheme@, "/acme/authz/"@ + ids[i as int]@));
        }
        i = i + 1;
    }
    assert(order.authz_ids@.subrange(0, order.authz_ids@.len() as int) =~= order.authz_ids@);
    let fin = absolute(host, scheme, order.finalize_path.as_str());
    let cert = match &order.certificate_path {
        Some(p) => Some(absolute(host, scheme, p.as_str())),
        None => None,
    };
    OrderReply {
        status: copy_string(&order.status),
        expires: copy_string(&order.expires),
        identifiers: crate::types::copy_identifiers(&order.identifiers),
        authorizations: urls,
        finalize: fin,
        certificate: cert,
    }
}

/// The record a revocation request names: by `certificateId` (trimmed)
/// where given, else by the serial of the `certificate` it carries (`Err`
/// where that is not URL-safe Base64; no record where it is no certificate).
pub open spec fn revoke_lookup(
    certs: Seq<crate::types::CertificateRecord>,
    cert_id: Option<String>,
    cert_b64: Option<String>,
) -> Result<Option<crate::types::CertificateRecord>, ()> {
    match cert_id {
        Some(c) => Ok(crate::storage::first_with_id(certs, crate::text::trim(c@))),
        None => match cert_b64 {
            None => Ok(None),
            Some(b) => match crate::codec::base64_url_decode(b@) {
                None => Err(()),
                Some(der) => match crate::x509::cert_summary_of(der) {
                    None => Ok(None),
                    Some(summary) => Ok(crate::storage::first_with_serial(certs, summary.serial_radix16)),
                },
            },
        },
    }
}

/// The ACME account a record was issued to: its issuing account, else what
/// follows `acme:` in its issuer, else empty.
pub open spec fn record_account(r: crate::types::CertificateRecord) -> Seq<char> {
    match r.issuing_acme_account_id {
        Some(a) => a@,
        None => if crate::text::starts_with(r.issued_by@, "acme:"@) {
            r.issued_by@.subrange(5, r.issued_by@.len() as int)
        } else {
            ""@
        },
    }
}

/// The reason recorded: the request's where it is not blank, else
/// `acme-revoke-cert`.
pub open spec fn reason_text(reason: Option<String>) -> Seq<char> {
    match reason {
        Some(r) => if crate::text::trim(r@).len() > 0 {
            r@
        } else {
            "acme-revoke-cert"@
        },
        None => "acme-revoke-cert"@,
    }
}

/// Who revoked: `acme:<account>` for a request signed by an account, else
/// `acme-cert-key` (signed by the certificate's own key).
pub open spec fn revoker(account: Option<String>) -> Seq<char> {
    match account {
        Some(a) => "acme:"@ + a@,
        None => "acme-cert-key"@,
    }
}

/// How the revocation was authorized.
pub open spec fn revoked_via_text(account: Option<String>) -> Seq<char> {
    match account {
        Some(_) => "acme-account-key"@,
        None => "acme-cert-key"@,
    }
}

/// The answer to a successful revocation.
pub struct RevokeReply {
    pub certificate_id: String,
    pub revoked_at: Option<String>,
}

fn lookup_record(
    db: &crate::types::CertificatesDb,
    cert_id: &Option<String>,
    cert_b64: &Option<String>,
) -> (res: Result<Option<crate::types::CertificateRecord>, ()>)
    ensures
        res == revoke_lookup(db.certificates@, *cert_id, *cert_b64),
{
    match cert_id {
        Some(c) => {
            let t = crate::text::trim_str(c.as_str());
            Ok(crate::storage::get_certificate_record(db, t.as_str()))
        },
        None => match cert_b64 {
            None => Ok(None),
            Some(b) => match crate::codec::base64_url_decode_bytes(b.as_str()) {
                None => Err(()),
                Some(der) => match crate::x509::parse_cert_summary(der.as_slice()) {
                    None => Ok(None),
                    Some(summary) => Ok(crate::storage::find_certificate_by_serial(db, summary.serial_radix16.as_str())),
                },
            },
        },
    }
}

fn record_account_of(r: &crate::types::CertificateRecord) -> (a: String)
    ensures
        a@ == record_account(*r),
{
    match &r.issuing_acme_account_id {
        Some(a) => copy_string(a),
        None => {
            let chars = crate::text::chars_of(r.issued_by.as_str());
            let prefix: Vec<char> = vec!['a', 'c', 'm', 'e', ':'];
            proof {
                reveal_strlit("acme:");
                reveal_strlit("");
                assert(prefix@ =~= "acme:"@);
            }
            if crate::text::starts_with_chars(chars.as_slice(), prefix.as_slice()) {
                let rest = vstd::slice::slice_subrange(chars.as_slice(), 5, chars.len());
                crate::text::string_from_chars(rest)
            } else {
                String::new()
            }
        },
    }
}

fn reason_of(reason: &Option<String>) -> (t: String)
    ensures
        t@ == reason_text(*reason),
{
    match reason {
        Some(r) => {
            let tr = crate::text::trim_str(r.as_str());
            if tr.unicode_len() > 0 {
                copy_string(r)
            } else {
                String::from_str("acme-revoke-cert")
            }
        },
        None => String::from_str("acme-revoke-cert"),
    }
}

/// Revokes a certificate on an ACME request (RFC 8555 §7.6), signed by the
/// account (`account`) or by the certificate's key (`None`). In order: a
/// `certificate` that is not URL-safe Base64 is refused (400), as is a
/// request that names no issued certificate (400); an account may revoke
/// only what was issued to it (403); then the record is revoked now (see
/// `revocation_outcome`), with the reason, who and how; a record gone by
/// then answers 404.
pub fn revoke_cert(
    db: &mut crate::types::CertificatesDb,
    cert_id: Option<String>,
    cert_b64: Option<String>,
    reason: Option<String>,
    account: Option<String>,
) -> (res: Result<RevokeReply, AcmeProblem>)
    ensures
        match revoke_lookup(old(db).certificates@, cert_id, cert_b64) {
            Err(_) => res matches Err(p) && problem_is(p, 400, "malformed"@, "invalid certificate base64url"@)
                && final(db).certificates@ == old(db).certificates@,
            Ok(None) => res matches Err(p) && problem_is(
                p,
                400,
                "malformed"@,
                "certificateId or certificate is required and must reference an issued certificate"@,
            ) && final(db).certificates@ == old(db).certificates@,
            Ok(Some(rec)) => if account is Some && record_account(rec) != account_text(account) {
                res matches Err(p) && problem_is(p, 403, "unauthorized"@, "certificate does not belong to acme account"@)
                    && final(db).certificates@ == old(db).certificates@
            } else {
                exists|now: String, out: Option<crate::types::CertificateRecord>, via: Option<String>|
                    #![trigger crate::storage::revocation_outcome(old(db).certificates@, final(db).certificates@, out, rec.id@, revoker(account), reason_text(reason), None, account, via, now)]
                    (via matches Some(v) && v@ == revoked_via_text(account)) && crate::storage::revocation_outcome(
                        old(db).certificates@,
                        final(db).certificates@,
                        out,
                        rec.id@,
                        revoker(account),
                        reason_text(reason),
                        None,
                        account,
                        via,
                        now,
                    ) && match out {
                        None => res matches Err(p) && problem_is(p, 404, "malformed"@, "certificate not found"@),
                        Some(u) => res matches Ok(r) && r.certificate_id == u.id && r.revoked_at == u.revoked_at,
                    }
            },
        },
{
    let record = match lookup_record(db, &cert_id, &cert_b64) {
        Err(()) => return Err(problem(400, "malformed", "invalid certificate base64url")),
        Ok(None) => return Err(problem(
            400,
            "malformed",
            "certificateId or certificate is required and must reference an issued certificate",
        )),
        Ok(Some(r)) => r,
    };
    match &account {
        Some(a) => {
            let owner = record_account_of(&record);
            if owner != *a {
                return Err(problem(403, "unauthorized", "certificate does not belong to acme account"));
            }
        },
        None => {},
    }
    let why = reason_of(&reason);
    let (by, via) = match &account {
        Some(a) => {
            let mut b = String::from_str("acme:");
            b.append(a.as_str());
            (b, String::from_str("acme-account-key"))
        },
        None => (String::from_str("acme-cert-key"), String::from_str("acme-cert-key")),
    };
    let ghost via_opt = Some(via);
    let acct = crate::types::copy_opt_string(&account);
    let ghost before = db.certificates@;
    let out = crate::storage::revoke_certificate(db, record.id.as_str(), by.as_str(), why.as_str(), None, acct, Some(via));
    proof {
        reveal_strlit("acme:");
        reveal_strlit("acme-account-key");
        reveal_strlit("acme-cert-key");
        assert(by@ == revoker(account));
        let now = choose|now: String|
            crate::storage::revocation_outcome(before, db.certificates@, out, record.id@, by@, why@, None, account, via_opt, now);
        assert(crate::storage::revocation_outcome(old(db).certificates@, db.certificates@, out, record.id@, revoker(account), reason_text(reason), None, account, via_opt, now));
    }
    match out {
        None => Err(problem(404, "malformed", "certificate not found")),
        Some(u) => Ok(RevokeReply { certificate_id: u.id, revoked_at: u.revoked_at }),
    }
}

/// The index of the first account registered under a key thumbprint.
pub open spec fn thumbprint_index(accounts: Seq<crate::types::AcmeAccountRecord>, t: Seq<char>) -> Option<int> {
    if exists|i: int| 0 <= i < accounts.len() && (#[trigger] accounts[i]).jwk_thumbprint@ == t {
        Some(
            choose|i: int|
                0 <= i < accounts.len() && (#[trigger] accounts[i]).jwk_thumbprint@ == t && forall|j: int|
                    0 <= j < i ==> accounts[j].jwk_thumbprint@ != t,
        )
    } else {
        None
    }
}

fn find_thumbprint(accounts: &Vec<crate::types::AcmeAccountRecord>, t: &str) -> (r: Option<usize>)
    ensures
        r matches Some(i) ==> thumbprint_index(accounts@, t@) == Some(i as int) && i < accounts@.len(),
        r is None ==> thumbprint_index(accounts@, t@) is None,
{
    let wanted = t.to_owned();
    let mut i: usize = 0;
    while i < accounts.len()
        invariant
            i <= accounts@.len(),
            wanted@ == t@,
            forall|j: int| 0 <= j < i ==> (#[trigger] accounts@[j]).jwk_thumbprint@ != t@,
        decreases accounts@.len() - i,
    {
        if accounts[i].jwk_thumbprint == wanted {
            proof {
                let c = choose|c: int|
                    0 <= c < accounts@.len() && (#[trigger] accounts@[c]).jwk_thumbprint@ == t@ && forall|j: int|
                        0 <= j < c ==> accounts@[j].jwk_thumbprint@ != t@;
                assert(accounts@[i as int].jwk_thumbprint@ == t@);
                if c < i {
                } else if c > i {
                }
            }
            return Some(i);
        }
        i = i + 1;
    }
    None
}

/// How a new-account request ended: the account's index, and whether it
/// was created (else it already existed).
pub struct AccountOutcome {
    pub index: usize,
    pub created: bool,
}

/// Registers an account key (RFC 8555 §7.3) for a Vigil user. A key already
/// registered answers with its account, which is first bound to the user
/// where it is bound to none, and refused (403) where it is bound to another
/// user. An unknown key is refused (400) where the client asked only for an
/// existing account; else a `valid` account `acct-<n>` is added, `n` the
/// next value of the counter.
pub fn new_account(
    accounts: &mut Vec<crate::types::AcmeAccountRecord>,
    counter: &mut u64,
    thumbprint: &str,
    jwk: crate::types::AcmeRsaJwk,
    auth_user_id: &str,
    only_return_existing: bool,
    contact: Vec<String>,
) -> (res: Result<AccountOutcome, AcmeProblem>)
    requires
        *old(counter) < u64::MAX,
    ensures
        match thumbprint_index(old(accounts)@, thumbprint@) {
            Some(k) => {
                let a = old(accounts)@[k];
                let bound = if a.vigil_user_id@.len() == 0 {
                    auth_user_id@
                } else {
                    a.vigil_user_id@
                };
                &&& *final(counter) == *old(counter)
                &&& final(accounts)@.len() == old(accounts)@.len()
                &&& final(accounts)@[k].vigil_user_id@ == bound
                &&& final(accounts)@ == old(accounts)@.update(
                    k,
                    crate::types::AcmeAccountRecord { vigil_user_id: final(accounts)@[k].vigil_user_id, ..a },
                )
                &&& if bound != auth_user_id@ {
                    res matches Err(p) && problem_is(
                        p,
                        403,
                        "unauthorized"@,
                        "account key is already bound to a different vigil user"@,
                    )
                } else {
                    res matches Ok(o) && o.index == k && !o.created
                }
            },
            None => if only_return_existing {
                res matches Err(p) && problem_is(p, 400, "accountDoesNotExist"@, "account does not exist for provided key"@)
                    && final(accounts)@ == old(accounts)@ && *final(counter) == *old(counter)
            } else {
                let a = final(accounts)@.last();
                &&& *final(counter) == *old(counter) + 1
                &&& final(accounts)@.drop_last() == old(accounts)@
                &&& res matches Ok(o) && o.index == old(accounts)@.len() && o.created
                &&& final(accounts)@.len() == old(accounts)@.len() + 1
                &&& a.id@ == "acct-"@ + crate::acme::spec_base36(*final(counter) as nat)
                &&& a.status@ == "valid"@
                &&& a.vigil_user_id@ == auth_user_id@
                &&& a.contact == contact
                &&& a.orders@.len() == 0
                &&& a.jwk_thumbprint@ == thumbprint@
                &&& a.public_jwk == jwk
            },
        },
{
    match find_thumbprint(accounts, thumbprint) {
        Some(k) => {
            let mut a = accounts.remove(k);
            let ghost before = a;
            if a.vigil_user_id.unicode_len() == 0 {
                a.vigil_user_id = auth_user_id.to_owned();
            }
            let mismatch = a.vigil_user_id != auth_user_id.to_owned();
            accounts.insert(k, a);
            assert(accounts@ =~= old(accounts)@.update(
                k as int,
                crate::types::AcmeAccountRecord { vigil_user_id: accounts@[k as int].vigil_user_id, ..before },
            ));
            if mismatch {
                return Err(problem(403, "unauthorized", "account key is already bound to a different vigil user"));
            }
            Ok(AccountOutcome { index: k, created: false })
        },
        None => {
            if only_return_existing {
                return Err(problem(400, "accountDoesNotExist", "account does not exist for provided key"));
            }
            *counter = *counter + 1;
            let mut id = String::from_str("acct-");
            id.append(crate::acme::base36(*counter).as_str());
            let account = crate::types::AcmeAccountRecord {
                id,
                status: String::from_str("valid"),
                vigil_user_id: auth_user_id.to_owned(),
                contact,
                orders: Vec::new(),
                jwk_thumbprint: thumbprint.to_owned(),
                public_jwk: jwk,
            };
            proof {
                reveal_strlit("valid");
                reveal_strlit("acct-");
            }
            let n = accounts.len();
            accounts.push(account);
            assert(accounts@.drop_last() =~= old(accounts)@);
            Ok(AccountOutcome { index: n, created: true })
        },
    }
}

/// The account object a client is sent: status, contacts, and its orders URL.
pub struct AccountReply {
    pub status: String,
    pub contact: Vec<String>,
    pub orders: String,
}

/// Renders an account for a client (RFC 8555 §7.1.2), its orders at
/// `/acme/account/<id>/orders`.
pub fn account_response(account: &crate::types::AcmeAccountRecord, id: &str, host: &str, scheme: &str) -> (r: AccountReply)
    ensures
        r.status == account.status,
        r.contact@ == account.contact@,
        r.orders@ == url_of(host@, scheme@, "/acme/account/"@ + id@ + "/orders"@),
{
    let mut path = String::from_str("/acme/account/");
    path.append(id);
    path.append("/orders");
    let orders = absolute(host, scheme, path.as_str());
    assert(orders@ =~= url_of(host@, scheme@, "/acme/account/"@ + id@ + "/orders"@));
    AccountReply { status: copy_string(&account.status), contact: crate::types::copy_strings(&account.contact), orders }
}

/// Answers a request for an account: the signing account must be the one
/// asked for (403), and must exist (400).
pub fn get_account(
    accounts: &Vec<crate::types::AcmeAccountRecord>,
    signer: &Option<String>,
    id: &str,
    host: &str,
    scheme: &str,
) -> (res: Result<AccountReply, AcmeProblem>)
    ensures
        !(signer matches Some(s) && s@ == id@) ==> (res matches Err(p) && problem_is(
            p,
            403,
            "unauthorized"@,
            "kid does not match requested account"@,
        )),
        (signer matches Some(s) && s@ == id@) ==> match crate::acme::account_index(accounts@, id@) {
            None => res matches Err(p) && problem_is(p, 400, "accountDoesNotExist"@, "account not found"@),
            Some(k) => res matches Ok(r) && r.status == accounts@[k].status && r.contact@ == accounts@[k].contact@
                && r.orders@ == url_of(host@, scheme@, "/acme/account/"@ + id@ + "/orders"@),
        },
{
    let matches = match signer {
        Some(s) => s.as_str().to_owned() == id.to_owned(),
        None => false,
    };
    if !matches {
        return Err(problem(403, "unauthorized", "kid does not match requested account"));
    }
    let wanted = id.to_owned();
    match crate::acme::find_account(accounts, &wanted) {
        None => Err(problem(400, "accountDoesNotExist", "account not found")),
        Some(k) => {
            proof {
                let c = choose|i: int|
                    0 <= i < accounts@.len() && (#[trigger] accounts@[i]).id@ == id@ && forall|j: int|
                        0 <= j < i ==> accounts@[j].id@ != id@;
                assert(accounts@[k as int].id@ == id@);
                if c < k {
                } else if c > k {
                }
            }
            Ok(account_response(&accounts[k], id, host, scheme))
        },
    }
}

/// The challenges an authorization lists that exist, in its order.
pub open spec fn listed_challenges(cs: Seq<AcmeChallenge>, ids: Seq<String>) -> Seq<AcmeChallenge>
    decreases ids.len(),
{
    if ids.len() == 0 {
        Seq::empty()
    } else {
        let rest = listed_challenges(cs, ids.drop_last());
        match challenge_index(cs, ids.last()@) {
            Some(k) => rest.push(cs[k]),
            None => rest,
        }
    }
}

/// The authorization object a client is sent.
pub struct AuthzReply {
    pub status: String,
    pub identifier: crate::types::AcmeIdentifier,
    pub challenges: Vec<ChallengeReply>,
}

/// Answers a request for an authorization (RFC 8555 §7.5): unknown ones are
/// refused (404), as are ones whose order is not the account's (403); else
/// its status, identifier, and each of its challenges that exists.
pub fn get_authz(
    challenges: &Vec<AcmeChallenge>,
    authzs: &Vec<AcmeAuthz>,
    orders: &Vec<AcmeOrder>,
    id: &str,
    account: &Option<String>,
    host: &str,
    scheme: &str,
) -> (res: Result<AuthzReply, AcmeProblem>)
    ensures
        match authz_index(authzs@, id@) {
            None => res matches Err(p) && problem_is(p, 404, "malformed"@, "authorization not found"@),
            Some(k) => {
                let a = authzs@[k];
                if !owns_order(orders@, a.order_id@, account_text(*account)) {
                    res matches Err(p) && problem_is(p, 403, "unauthorized"@, "authorization does not belong to account"@)
                } else {
                    let listed = listed_challenges(challenges@, a.challenge_ids@);
                    res matches Ok(r) && r.status == a.status && r.identifier == a.identifier && r.challenges@.len()
                        == listed.len() && forall|i: int|
                        0 <= i < listed.len() ==> reply_is(
                            #[trigger] r.challenges@[i],
                            listed[i],
                            listed[i].status@,
                            challenge_url(host@, scheme@, listed[i].id@),
                        )
                }
            },
        },
{
    let k = match find_authz(authzs, id) {
        Some(k) => k,
        None => return Err(problem(404, "malformed", "authorization not found")),
    };
    if !order_owned(orders, authzs[k].order_id.as_str(), account) {
        return Err(problem(403, "unauthorized", "authorization does not belong to account"));
    }
    let ids = &authzs[k].challenge_ids;
    let mut out: Vec<ChallengeReply> = Vec::new();
    let mut i: usize = 0;
    while i < ids.len()
        invariant
            i <= ids@.len(),
            ({
                let listed = listed_challenges(challenges@, ids@.subrange(0, i as int));
                out@.len() == listed.len() && forall|q: int|
                    0 <= q < listed.len() ==> reply_is(
                        #[trigger] out@[q],
                        listed[q],
                        listed[q].status@,
                        challenge_url(host@, scheme@, listed[q].id@),
                    )
            }),
        decreases ids@.len() - i,
    {
        proof {
            let s1 = ids@.subrange(0, i + 1);
            assert(s1.drop_last() =~= ids@.subrange(0, i as int));
            assert(s1.last() == ids@[i as int]);
        }
        match find_challenge(challenges, ids[i].as_str()) {
            Some(c) => {
                let mut path = String::from_str("/acme/challenge/");
                path.append(challenges[c].id.as_str());
                let url = absolute(host, scheme, path.as_str());
                assert(url@ =~= challenge_url(host@, scheme@, challenges@[c as int].id@));
                let st = copy_string(&challenges[c].status);
                out.push(reply(&challenges[c], st.as_str(), url));
            },
            None => {},
        }
        i = i + 1;
    }
    assert(ids@.subrange(0, ids@.len() as int) =~= ids@);
    Ok(AuthzReply {
        status: copy_string(&authzs[k].status),
        identifier: authzs[k].identifier.duplicate(),
        challenges: out,
    })
}

/// The order's certificate is at `path`.
pub open spec fn certificate_at(o: AcmeOrder, path: Seq<char>) -> bool {
    o.certificate_path matches Some(p) && p@ == path
}

/// The index of the first order whose certificate is at `path`.
pub open spec fn order_with_certificate(orders: Seq<AcmeOrder>, path: Seq<char>) -> Option<int> {
    if exists|i: int| 0 <= i < orders.len() && certificate_at(#[trigger] orders[i], path) {
        Some(
            choose|i: int|
                0 <= i < orders.len() && certificate_at(#[trigger] orders[i], path) && forall|j: int|
                    0 <= j < i ==> !certificate_at(orders[j], path),
        )
    } else {
        None
    }
}

fn find_order_with_certificate(orders: &Vec<AcmeOrder>, path: &String) -> (r: Option<usize>)
    ensures
        r matches Some(i) ==> order_with_certificate(orders@, path@) == Some(i as int) && i < orders@.len(),
        r is None ==> order_with_certificate(orders@, path@) is None,
{
    let mut i: usize = 0;
    while i < orders.len()
        invariant
            i <= orders@.len(),
            forall|j: int| 0 <= j < i ==> !certificate_at(#[trigger] orders@[j], path@),
        decreases orders@.len() - i,
    {
        let hit = match &orders[i].certificate_path {
            Some(p) => *p == *path,
            None => false,
        };
        if hit {
            proof {
                let c = choose|c: int|
                    0 <= c < orders@.len() && certificate_at(#[trigger] orders@[c], path@) && forall|j: int|
                        0 <= j < c ==> !certificate_at(orders@[j], path@);
                assert(certificate_at(orders@[i as int], path@));
                if c < i {
                } else if c > i {
                }
            }
            return Some(i);
        }
        i = i + 1;
    }
    None
}

/// Which stored certificate a download request may have (RFC 8555 §7.4.2):
/// an unknown certificate is refused (404); one that no order issued, or
/// whose order is not the signing account's, is refused (403). Reading the
/// PEM file at the record's path is the caller's.
pub fn download_cert(
    db: &crate::types::CertificatesDb,
    orders: &Vec<AcmeOrder>,
    id: &str,
    account: &Option<String>,
) -> (res: Result<crate::types::CertificateRecord, AcmeProblem>)
    ensures
        match crate::storage::first_with_id(db.certificates@, id@) {
            None => res matches Err(p) && problem_is(p, 404, "malformed"@, "certificate not found"@),
            Some(rec) => match order_with_certificate(orders@, "/acme/cert/"@ + id@) {
                Some(k) if account matches Some(a) && a@ == orders@[k].account_id@ => res == Ok::<_, AcmeProblem>(rec),
                _ => res matches Err(p) && problem_is(p, 403, "unauthorized"@, "certificate does not belong to account"@),
            },
        },
{
    let rec = match crate::storage::get_certificate_record(db, id) {
        Some(r) => r,
        None => return Err(problem(404, "malformed", "certificate not found")),
    };
    let mut path = String::from_str("/acme/cert/");
    path.append(id);
    proof {
        reveal_strlit("/acme/cert/");
    }
    let k = match find_order_with_certificate(orders, &path) {
        Some(k) => k,
        None => return Err(problem(403, "unauthorized", "certificate does not belong to account")),
    };
    let owned = match account {
        Some(a) => *a == orders[k].account_id,
        None => false,
    };
    if !owned {
        return Err(problem(403, "unauthorized", "certificate does not belong to account"));
    }
    Ok(rec)
}

} // verus!
