//! Shepherd's picture of its Corgi nodes: whether each was reachable when last
//! asked, what it last reported of its certificates, and the decisions drawn
//! from that picture (whether a node must refresh its assignments, whether it
//! holds a certificate without its key).
use crate::fleet::ManagedAssignment;
use crate::text::{to_uppercase, unicode_upper};
use vstd::prelude::*;

verus! {

/// How a node answered when last asked.
#[derive(Debug, Clone, Copy, PartialEq, Eq, Structural)]
pub enum CorgiStatus {
    Unknown,
    Reachable,
    Unreachable,
}

impl CorgiStatus {
    /// The status as shown on the dashboard.
    pub fn name(&self) -> (s: &'static str)
        ensures
            s@ == (match *self {
                CorgiStatus::Unknown => "unknown"@,
                CorgiStatus::Reachable => "reachable"@,
                CorgiStatus::Unreachable => "unreachable"@,
            }),
    {
        match self {
            CorgiStatus::Unknown => "unknown",
            CorgiStatus::Reachable => "reachable",
            CorgiStatus::Unreachable => "unreachable",
        }
    }
}

/// One certificate a node reported.
pub struct CorgiFlockEntry {
    pub name: String,
    pub fingerprint256: Option<String>,
    pub valid_to: Option<String>,
    pub status: Option<String>,
    pub san_names: Vec<String>,
    pub key_exists: Option<bool>,
}

/// What Shepherd knows of one node.
pub struct CorgiNodeState {
    pub status: CorgiStatus,
    pub last_health_check: Option<i64>,
    pub flock: Vec<CorgiFlockEntry>,
    pub error: Option<String>,
}

impl CorgiNodeState {
    /// A node not asked yet.
    pub fn new() -> (s: Self)
        ensures
            s.status == CorgiStatus::Unknown,
            s.last_health_check is None,
            s.flock@.len() == 0,
            s.error is None,
    {
        CorgiNodeState { status: CorgiStatus::Unknown, last_health_check: None, flock: Vec::new(), error: None }
    }
}

/// The outcome of asking a node.
pub enum Observation {
    /// Its health check answered.
    Healthy,
    /// It listed its certificates.
    Flock(Vec<CorgiFlockEntry>),
    /// It could not be reached; the error text.
    Failed(String),
}

/// A node's state, under its name.
pub struct NodeRecord {
    pub name: String,
    pub state: CorgiNodeState,
}

/// The state of every node asked so far.
pub struct CorgiStates {
    pub nodes: Vec<NodeRecord>,
}

/// The place of the first record of a node.
#[verifier::opaque]
pub open spec fn node_index(nodes: Seq<NodeRecord>, name: Seq<char>) -> Option<int> {
    if exists|i: int| 0 <= i < nodes.len() && (#[trigger] nodes[i]).name@ == name {
        Some(choose|i: int| 0 <= i < nodes.len() && (#[trigger] nodes[i]).name@ == name && forall|j: int| 0 <= j < i ==> nodes[j].name@ != name)
    } else {
        None
    }
}

/// `after` is `before` once the observation was made at `now`: an answer makes
/// the node reachable, stamps the time and clears the error (a listing also
/// replaces what the node holds); a failure makes it unreachable and keeps the
/// error, leaving the time and the listing as they were.
pub open spec fn observed(
    status: CorgiStatus,
    last: Option<i64>,
    flock: Seq<CorgiFlockEntry>,
    error: Option<String>,
    after: CorgiNodeState,
    obs: Observation,
    now: i64,
) -> bool {
    match obs {
        Observation::Healthy => after.status == CorgiStatus::Reachable && after.last_health_check == Some(now)
            && after.flock@ == flock && after.error is None,
        Observation::Flock(f) => after.status == CorgiStatus::Reachable && after.last_health_check == Some(now)
            && after.flock@ == f@ && after.error is None,
        Observation::Failed(e) => after.status == CorgiStatus::Unreachable && after.last_health_check == last
            && after.flock@ == flock && after.error == Some(e),
    }
}

/// `new` is `old` once an observation of node `name` was recorded at `now`:
/// its record is updated in place, or a record starting from an unasked node
/// is added at the end; every other record is unchanged.
pub open spec fn recorded(old: Seq<NodeRecord>, new: Seq<NodeRecord>, name: Seq<char>, obs: Observation, now: i64) -> bool {
    match node_index(old, name) {
        Some(i) => new.len() == old.len() && (forall|k: int| 0 <= k < old.len() && k != i ==> new[k] == old[k])
            && new[i].name == old[i].name && observed(
            old[i].state.status,
            old[i].state.last_health_check,
            old[i].state.flock@,
            old[i].state.error,
            new[i].state,
            obs,
            now,
        ),
        None => new.len() == old.len() + 1 && new.drop_last() == old && new.last().name@ == name && observed(
            CorgiStatus::Unknown,
            None,
            Seq::empty(),
            None,
            new.last().state,
            obs,
            now,
        ),
    }
}

/// Whether the node was reachable when last asked (a node never asked is not).
pub open spec fn reachable(nodes: Seq<NodeRecord>, name: Seq<char>) -> bool {
    match node_index(nodes, name) {
        Some(i) => nodes[i].state.status == CorgiStatus::Reachable,
        None => false,
    }
}

/// What `node_index` gives: the first record of the node, or `None` where
/// there is none.
pub proof fn lemma_node_index(nodes: Seq<NodeRecord>, name: Seq<char>)
    ensures
        match node_index(nodes, name) {
            Some(i) => 0 <= i < nodes.len() && nodes[i].name@ == name && forall|j: int|
                0 <= j < i ==> (#[trigger] nodes[j]).name@ != name,
            None => forall|j: int| 0 <= j < nodes.len() ==> (#[trigger] nodes[j]).name@ != name,
        },
{
    reveal(node_index);
    if exists|w: int| 0 <= w < nodes.len() && (#[trigger] nodes[w]).name@ == name {
        let w = choose|w: int| 0 <= w < nodes.len() && (#[trigger] nodes[w]).name@ == name;
        lemma_some_first_node(nodes, name, w);
    }
}

proof fn lemma_some_first_node(nodes: Seq<NodeRecord>, name: Seq<char>, w: int)
    requires
        0 <= w < nodes.len(),
        nodes[w].name@ == name,
    ensures
        exists|i: int| 0 <= i < nodes.len() && (#[trigger] nodes[i]).name@ == name && forall|j: int| 0 <= j < i ==> nodes[j].name@ != name,
    decreases w,
{
    if exists|j: int| 0 <= j < w && (#[trigger] nodes[j]).name@ == name {
        let j = choose|j: int| 0 <= j < w && (#[trigger] nodes[j]).name@ == name;
        lemma_some_first_node(nodes, name, j);
    } else {
        assert(forall|j: int| 0 <= j < w ==> nodes[j].name@ != name);
    }
}

fn find_node(nodes: &Vec<NodeRecord>, name: &str) -> (r: Option<usize>)
    ensures
        match r {
            Some(i) => node_index(nodes@, name@) == Some(i as int) && i < nodes@.len(),
            None => node_index(nodes@, name@) is None,
        },
{
    let wanted = name.to_owned();
    let mut i: usize = 0;
    while i < nodes.len()
        invariant
            i <= nodes@.len(),
            wanted@ == name@,
            forall|j: int| 0 <= j < i ==> (#[trigger] nodes@[j]).name@ != name@,
        decreases nodes@.len() - i,
    {
        if nodes[i].name == wanted {
            proof {
                lemma_node_index(nodes@, name@);
            }
            return Some(i);
        }
        i = i + 1;
    }
    proof {
        lemma_node_index(nodes@, name@);
    }
    None
}

/// The first listing entry of a certificate.
#[verifier::opaque]
pub open spec fn entry_index(flock: Seq<CorgiFlockEntry>, cert_name: Seq<char>) -> Option<int> {
    if exists|i: int| 0 <= i < flock.len() && (#[trigger] flock[i]).name@ == cert_name {
        Some(choose|i: int| 0 <= i < flock.len() && (#[trigger] flock[i]).name@ == cert_name && forall|j: int| 0 <= j < i ==> flock[j].name@ != cert_name)
    } else {
        None
    }
}

/// What `entry_index` gives: the first entry of the certificate, or `None`
/// where there is none.
pub proof fn lemma_entry_index(flock: Seq<CorgiFlockEntry>, cert_name: Seq<char>)
    ensures
        match entry_index(flock, cert_name) {
            Some(i) => 0 <= i < flock.len() && flock[i].name@ == cert_name && forall|j: int|
                0 <= j < i ==> (#[trigger] flock[j]).name@ != cert_name,
            None => forall|j: int| 0 <= j < flock.len() ==> (#[trigger] flock[j]).name@ != cert_name,
        },
{
    reveal(entry_index);
    if exists|w: int| 0 <= w < flock.len() && (#[trigger] flock[w]).name@ == cert_name {
        let w = choose|w: int| 0 <= w < flock.len() && (#[trigger] flock[w]).name@ == cert_name;
        lemma_some_first_entry(flock, cert_name, w);
    }
}

proof fn lemma_some_first_entry(flock: Seq<CorgiFlockEntry>, name: Seq<char>, w: int)
    requires
        0 <= w < flock.len(),
        flock[w].name@ == name,
    ensures
        exists|i: int| 0 <= i < flock.len() && (#[trigger] flock[i]).name@ == name && forall|j: int| 0 <= j < i ==> flock[j].name@ != name,
    decreases w,
{
    if exists|j: int| 0 <= j < w && (#[trigger] flock[j]).name@ == name {
        let j = choose|j: int| 0 <= j < w && (#[trigger] flock[j]).name@ == name;
        lemma_some_first_entry(flock, name, j);
    } else {
        assert(forall|j: int| 0 <= j < w ==> flock[j].name@ != name);
    }
}

fn find_entry(flock: &Vec<CorgiFlockEntry>, cert_name: &str) -> (r: Option<usize>)
    ensures
        match r {
            Some(i) => entry_index(flock@, cert_name@) == Some(i as int) && i < flock@.len(),
            None => entry_index(flock@, cert_name@) is None,
        },
{
    let wanted = cert_name.to_owned();
    let mut i: usize = 0;
    while i < flock.len()
        invariant
            i <= flock@.len(),
            wanted@ == cert_name@,
            forall|j: int| 0 <= j < i ==> (#[trigger] flock@[j]).name@ != cert_name@,
        decreases flock@.len() - i,
    {
        if flock[i].name == wanted {
            proof {
                lemma_entry_index(flock@, cert_name@);
            }
            return Some(i);
        }
        i = i + 1;
    }
    proof {
        lemma_entry_index(flock@, cert_name@);
    }
    None
}

/// Whether the node reports the certificate without its key: its first
/// listing entry for the certificate says the key is absent.
pub open spec fn spec_missing_key(nodes: Seq<NodeRecord>, node: Seq<char>, cert_name: Seq<char>) -> bool {
    match node_index(nodes, node) {
        Some(i) => match entry_index(nodes[i].state.flock@, cert_name) {
            Some(k) => nodes[i].state.flock@[k].key_exists == Some(false),
            None => false,
        },
        None => false,
    }
}

/// The fingerprint, in upper case, that the node reports for a certificate.
pub open spec fn reported_fingerprint(flock: Seq<CorgiFlockEntry>, cert_name: Seq<char>) -> Option<Seq<char>> {
    match entry_index(flock, cert_name) {
        Some(k) => match flock[k].fingerprint256 {
            Some(f) => Some(unicode_upper(f@)),
            None => None,
        },
        None => None,
    }
}

/// Whether one certificate of the node is stale: Shepherd holds it with
/// fingerprint `local`, and the node reports a different one. A node that
/// reports no fingerprint has not installed it yet and is left alone.
pub open spec fn stale(flock: Seq<CorgiFlockEntry>, cert_name: Seq<char>, local: Option<String>) -> bool {
    match local {
        Some(expected) => match reported_fingerprint(flock, cert_name) {
            Some(f) => f != expected@,
            None => false,
        },
        None => false,
    }
}

/// Whether a reachable node must be told to refresh its assignments: one of
/// the certificates (name and the fingerprint Shepherd holds) is stale on it.
pub open spec fn spec_needs_refresh(nodes: Seq<NodeRecord>, node: Seq<char>, held: Seq<(String, Option<String>)>) -> bool {
    match node_index(nodes, node) {
        Some(i) => nodes[i].state.status == CorgiStatus::Reachable && exists|k: int|
            0 <= k < held.len() && stale(nodes[i].state.flock@, (#[trigger] held[k]).0@, held[k].1),
        None => false,
    }
}

fn reported_upper(flock: &Vec<CorgiFlockEntry>, cert_name: &str) -> (r: Option<String>)
    ensures
        match r {
            Some(f) => reported_fingerprint(flock@, cert_name@) == Some(f@),
            None => reported_fingerprint(flock@, cert_name@) is None,
        },
{
    match find_entry(flock, cert_name) {
        Some(k) => match &flock[k].fingerprint256 {
            Some(f) => Some(to_uppercase(f.as_str())),
            None => None,
        },
        None => None,
    }
}

impl CorgiStates {
    /// No node asked yet.
    pub fn new() -> (s: Self)
        ensures
            s.nodes@.len() == 0,
    {
        CorgiStates { nodes: Vec::new() }
    }

    /// Records what asking node `name` gave at `now` (see `recorded`).
    pub fn record(&mut self, name: &str, obs: Observation, now: i64)
        ensures
            recorded(old(self).nodes@, final(self).nodes@, name@, obs, now),
    {
        let ghost o = obs;
        let i = match find_node(&self.nodes, name) {
            Some(i) => i,
            None => {
                self.nodes.push(NodeRecord { name: name.to_owned(), state: CorgiNodeState::new() });
                self.nodes.len() - 1
            },
        };
        let ghost mid = self.nodes@;
        let mut rec = self.nodes.remove(i);
        let ghost before = rec;
        match obs {
            Observation::Healthy => {
                rec.state.status = CorgiStatus::Reachable;
                rec.state.last_health_check = Some(now);
                rec.state.error = None;
            },
            Observation::Flock(f) => {
                rec.state.status = CorgiStatus::Reachable;
                rec.state.last_health_check = Some(now);
                rec.state.flock = f;
                rec.state.error = None;
            },
            Observation::Failed(e) => {
                rec.state.status = CorgiStatus::Unreachable;
                rec.state.error = Some(e);
            },
        }
        let ghost after = rec;
        self.nodes.insert(i, rec);
        proof {
            assert(before == mid[i as int]);
            assert(self.nodes@ =~= mid.update(i as int, after));
            assert(after.name == before.name);
            assert(observed(before.state.status, before.state.last_health_check, before.state.flock@, before.state.error, after.state, o, now));
            if node_index(old(self).nodes@, name@) is None {
                assert(mid.drop_last() =~= old(self).nodes@);
                assert(self.nodes@.drop_last() =~= old(self).nodes@);
                assert(before.state.flock@ =~= Seq::<CorgiFlockEntry>::empty());
            } else {
                assert(mid == old(self).nodes@);
            }
        }
    }

    /// Whether node `name` was reachable when last asked.
    pub fn is_reachable(&self, name: &str) -> (b: bool)
        ensures
            b == reachable(self.nodes@, name@),
    {
        match find_node(&self.nodes, name) {
            Some(i) => self.nodes[i].state.status == CorgiStatus::Reachable,
            None => false,
        }
    }

    /// The status of node `name` as shown on the dashboard ("unknown" for a
    /// node never asked).
    pub fn status_name(&self, name: &str) -> (s: &'static str)
        ensures
            s@ == (match node_index(self.nodes@, name@) {
                Some(i) => match self.nodes@[i].state.status {
                    CorgiStatus::Unknown => "unknown"@,
                    CorgiStatus::Reachable => "reachable"@,
                    CorgiStatus::Unreachable => "unreachable"@,
                },
                None => "unknown"@,
            }),
    {
        match find_node(&self.nodes, name) {
            Some(i) => self.nodes[i].state.status.name(),
            None => "unknown",
        }
    }

    /// Whether node `node` holds certificate `cert_name` without its key.
    pub fn missing_key(&self, node: &str, cert_name: &str) -> (b: bool)
        ensures
            b == spec_missing_key(self.nodes@, node@, cert_name@),
    {
        match find_node(&self.nodes, node) {
            Some(i) => match find_entry(&self.nodes[i].state.flock, cert_name) {
                Some(k) => self.nodes[i].state.flock[k].key_exists == Some(false),
                None => false,
            },
            None => false,
        }
    }

    /// Whether node `node` must be told to refresh its assignments, given each
    /// of its certificates with the fingerprint Shepherd holds for it.
    pub fn needs_refresh(&self, node: &str, held: &Vec<(String, Option<String>)>) -> (b: bool)
        ensures
            b == spec_needs_refresh(self.nodes@, node@, held@),
    {
        let i = match find_node(&self.nodes, node) {
            Some(i) => i,
            None => return false,
        };
        if self.nodes[i].state.status != CorgiStatus::Reachable {
            return false;
        }
        let flock = &self.nodes[i].state.flock;
        let mut k: usize = 0;
        while k < held.len()
            invariant
                k <= held@.len(),
                i < self.nodes@.len(),
                node_index(self.nodes@, node@) == Some(i as int),
                self.nodes@[i as int].state.status == CorgiStatus::Reachable,
                *flock == self.nodes@[i as int].state.flock,
                forall|j: int| 0 <= j < k ==> !stale(flock@, (#[trigger] held@[j]).0@, held@[j].1),
            decreases held@.len() - k,
        {
            if let Some(expected) = &held[k].1 {
                if let Some(f) = reported_upper(flock, held[k].0.as_str()) {
                    if !(f == *expected) {
                        assert(stale(flock@, held@[k as int].0@, held@[k as int].1));
                        assert(stale(self.nodes@[i as int].state.flock@, held@[k as int].0@, held@[k as int].1));
                        assert(exists|j: int|
                            0 <= j < held@.len() && stale(self.nodes@[i as int].state.flock@, (#[trigger] held@[j]).0@, held@[j].1));
                        return true;
                    }
                }
            }
            k = k + 1;
        }
        false
    }
}

/// Whether an assignment is served by the node.
pub open spec fn serves(a: ManagedAssignment, node: Seq<char>) -> bool {
    a.corgi matches Some(c) && c@ == node
}

/// The places of the assignments served by a node, in order.
pub fn assignments_for_node(assignments: &Vec<ManagedAssignment>, node: &str) -> (r: Vec<usize>)
    ensures
        forall|k: int| 0 <= k < r@.len() ==> (#[trigger] r@[k]) < assignments@.len() && serves(assignments@[r@[k] as int], node@),
        forall|k: int, l: int| 0 <= k < l < r@.len() ==> r@[k] < r@[l],
        forall|j: int| 0 <= j < assignments@.len() && serves(#[trigger] assignments@[j], node@) ==> r@.contains(j as usize),
{
    let wanted = node.to_owned();
    let mut r: Vec<usize> = Vec::new();
    let mut i: usize = 0;
    while i < assignments.len()
        invariant
            wanted@ == node@,
            i <= assignments@.len(),
            forall|k: int| 0 <= k < r@.len() ==> (#[trigger] r@[k]) < i && serves(assignments@[r@[k] as int], node@),
            forall|k: int, l: int| 0 <= k < l < r@.len() ==> r@[k] < r@[l],
            forall|j: int| 0 <= j < i && serves(#[trigger] assignments@[j], node@) ==> r@.contains(j as usize),
        decreases assignments@.len() - i,
    {
        let here = match &assignments[i].corgi {
            Some(c) => *c == wanted,
            None => false,
        };
        let ghost r0 = r@;
        if here {
            r.push(i);
            proof {
                assert(r@[r@.len() - 1] == i);
                assert forall|j: int| 0 <= j < i && serves(#[trigger] assignments@[j], node@) implies r@.contains(j as usize) by {
                    let w = choose|w: int| 0 <= w < r0.len() && r0[w] == j as usize;
                    assert(r@[w] == r0[w]);
                }
            }
        }
        i = i + 1;
    }
    r
}

proof fn lemma_index_same_names(old: Seq<NodeRecord>, new: Seq<NodeRecord>, n: Seq<char>)
    requires
        new.len() == old.len(),
        forall|k: int| 0 <= k < old.len() ==> (#[trigger] new[k]).name@ == old[k].name@,
    ensures
        node_index(new, n) == node_index(old, n),
{
    lemma_node_index(old, n);
    lemma_node_index(new, n);
    match (node_index(old, n), node_index(new, n)) {
        (Some(i), Some(j)) => {
            if j < i {
                assert(new[j].name@ == old[j].name@);
            } else if i < j {
                assert(new[i].name@ == old[i].name@);
            }
        },
        (Some(i), None) => {
            assert(new[i].name@ == old[i].name@);
        },
        (None, Some(j)) => {
            assert(new[j].name@ == old[j].name@);
        },
        (None, None) => {},
    }
}

proof fn lemma_index_push(old: Seq<NodeRecord>, x: NodeRecord, n: Seq<char>)
    ensures
        node_index(old.push(x), n) == (if node_index(old, n) is Some {
            node_index(old, n)
        } else if x.name@ == n {
            Some(old.len() as int)
        } else {
            None
        }),
{
    let new = old.push(x);
    lemma_node_index(old, n);
    lemma_node_index(new, n);
    assert(forall|k: int| 0 <= k < old.len() ==> new[k] == old[k]);
    match (node_index(old, n), node_index(new, n)) {
        (Some(i), Some(j)) => {
            if j < i {
                assert(new[j] == old[j]);
            } else if i < j {
                assert(new[i] == old[i]);
            }
        },
        (Some(i), None) => {
            assert(new[i] == old[i]);
        },
        (None, Some(j)) => {
            if j < old.len() {
                assert(new[j] == old[j]);
            }
        },
        (None, None) => {
            if x.name@ == n {
                assert(new[old.len() as int] == x);
            }
        },
    }
}

proof fn lemma_recorded_in_place(old: Seq<NodeRecord>, new: Seq<NodeRecord>, name: Seq<char>, i: int, other: Seq<char>)
    requires
        node_index(old, name) == Some(i),
        new.len() == old.len(),
        forall|k: int| 0 <= k < old.len() && k != i ==> new[k] == old[k],
        new[i].name == old[i].name,
    ensures
        node_index(new, name) == Some(i),
        other != name ==> node_index(new, other) == node_index(old, other),
        other != name && node_index(old, other) is Some ==> node_index(old, other) != Some(i) && new[node_index(old, other)->Some_0] == old[node_index(old, other)->Some_0],
{
    assert forall|k: int| 0 <= k < old.len() implies (#[trigger] new[k]).name@ == old[k].name@ by {
        if k != i {
            assert(new[k] == old[k]);
        }
    }
    lemma_index_same_names(old, new, name);
    lemma_index_same_names(old, new, other);
    lemma_node_index(old, name);
    lemma_node_index(old, other);
}

/// A node is asked about only while it answers: after an observation of a
/// node, it is reachable exactly when the observation was an answer, and the
/// reachability of every other node is what it was.
pub proof fn law_observation_sets_reachability(
    old: Seq<NodeRecord>,
    new: Seq<NodeRecord>,
    name: Seq<char>,
    obs: Observation,
    now: i64,
    other: Seq<char>,
)
    requires
        recorded(old, new, name, obs, now),
    ensures
        reachable(new, name) <==> !(obs is Failed),
        other != name ==> (reachable(new, other) <==> reachable(old, other)),
{
    match node_index(old, name) {
        Some(i) => {
            lemma_recorded_in_place(old, new, name, i, other);
        },
        None => {
            let x = new.last();
            assert(new == old.push(x));
            lemma_index_push(old, x, name);
            lemma_index_push(old, x, other);
            lemma_node_index(old, other);
            if let Some(p) = node_index(old, other) {
                assert(new[p] == old[p]);
            }
        },
    }
}

} // verus!
