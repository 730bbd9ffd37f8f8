use vstd::prelude::*;
use crate::address::Address;

verus! {

/// Why a probe produced no reply. Kept for diagnostics; the scan result only
/// records whether an address answered.
#[derive(Clone, Copy, Debug, PartialEq, Eq, Structural)]
pub enum ProbeFailure {
    TimedOut,
    Unreachable,
    PermissionDenied,
    Transport,
    /// The probing task itself did not complete (cancelled or crashed).
    TaskFailed,
}

/// The terminal state of one probe of one address.
#[derive(Clone, Copy, Debug, PartialEq, Eq, Structural)]
pub enum ProbeOutcome {
    Responsive { rtt_ms: u32 },
    Unresponsive { reason: ProbeFailure },
}

impl ProbeOutcome {
    pub fn is_responsive(&self) -> (r: bool)
        ensures
            r == (*self is Responsive),
    {
        match self {
            ProbeOutcome::Responsive { .. } => true,
            ProbeOutcome::Unresponsive { .. } => false,
        }
    }
}

/// The outcome recorded for a probe task once it has been joined: its own
/// outcome when it completed, `TaskFailed` when it crashed, was cancelled or
/// was abandoned (`None`).
pub fn settle(joined: Option<ProbeOutcome>) -> (r: ProbeOutcome)
    ensures
        r == (match joined {
            Some(o) => o,
            None => ProbeOutcome::Unresponsive { reason: ProbeFailure::TaskFailed },
        }),
{
    match joined {
        Some(o) => o,
        None => ProbeOutcome::Unresponsive { reason: ProbeFailure::TaskFailed },
    }
}

/// Per-probe parameters handed to the prober: its timeout and packet options.
#[derive(Clone, Copy, Debug, PartialEq, Eq, Structural)]
pub struct ProbeConfig {
    pub timeout_ms: u64,
    pub ttl: u8,
    pub dont_fragment: bool,
    /// Length of the all-zero echo payload.
    pub payload_len: usize,
}

impl ProbeConfig {
    /// Three-second timeout, TTL 64, do-not-fragment set, four payload bytes.
    pub fn standard() -> (r: ProbeConfig)
        ensures
            r == (ProbeConfig { timeout_ms: 3000, ttl: 64, dont_fragment: true, payload_len: 4 }),
    {
        ProbeConfig { timeout_ms: 3000, ttl: 64, dont_fragment: true, payload_len: 4 }
    }

    pub fn with_timeout(self, timeout_ms: u64) -> (r: ProbeConfig)
        ensures
            r == (ProbeConfig { timeout_ms, ..self }),
    {
        ProbeConfig { timeout_ms, ..self }
    }
}

/// The targets whose outcome is `Responsive`, in target order; `targets[i]`
/// was probed with outcome `outcomes[i]`.
pub open spec fn responsive_of(targets: Seq<Address>, outcomes: Seq<ProbeOutcome>) -> Seq<Address>
    decreases targets.len(),
{
    if targets.len() == 0 || outcomes.len() == 0 {
        Seq::empty()
    } else {
        let rest = responsive_of(targets.drop_last(), outcomes.drop_last());
        if outcomes.last() is Responsive {
            rest.push(targets.last())
        } else {
            rest
        }
    }
}

/// Address `a` answered: some probe of it came back `Responsive`.
pub open spec fn answered(targets: Seq<Address>, outcomes: Seq<ProbeOutcome>, a: Address) -> bool {
    exists|i: int| 0 <= i < targets.len() && targets[i] == a && outcomes[i] is Responsive
}

/// An address is in the result exactly when one of its probes answered.
pub proof fn lemma_responsive_members(targets: Seq<Address>, outcomes: Seq<ProbeOutcome>, a: Address)
    requires
        targets.len() == outcomes.len(),
    ensures
        responsive_of(targets, outcomes).contains(a) <==> answered(targets, outcomes, a),
    decreases targets.len(),
{
    if targets.len() > 0 {
        let t = targets.drop_last();
        let o = outcomes.drop_last();
        lemma_responsive_members(t, o, a);
        let n = targets.len() - 1;
        let rest = responsive_of(t, o);
        let r = responsive_of(targets, outcomes);
        if answered(t, o, a) {
            let i = choose|i: int| 0 <= i < t.len() && t[i] == a && o[i] is Responsive;
            assert(targets[i] == a && outcomes[i] is Responsive);
        }
        if answered(targets, outcomes, a) {
            let i = choose|i: int| 0 <= i < targets.len() && targets[i] == a && outcomes[i] is Responsive;
            if i < n {
                assert(t[i] == a && o[i] is Responsive);
            }
        }
        if outcomes.last() is Responsive {
            assert(r == rest.push(targets.last()));
            if r.contains(a) {
                let k = choose|k: int| 0 <= k < r.len() && r[k] == a;
                if k < rest.len() {
                    assert(rest[k] == a);
                } else {
                    assert(targets[n] == a && outcomes[n] is Responsive);
                }
            }
            if rest.contains(a) {
                let k = choose|k: int| 0 <= k < rest.len() && rest[k] == a;
                assert(r[k] == a);
            }
            if answered(targets, outcomes, a) && !answered(t, o, a) {
                assert(r[r.len() - 1] == a);
            }
        } else {
            if answered(targets, outcomes, a) {
                let i = choose|i: int| 0 <= i < targets.len() && targets[i] == a && outcomes[i] is Responsive;
                assert(i < n);
            }
        }
    }
}

/// The result never lists an address twice when the targets are distinct, and
/// lists only targets.
pub proof fn lemma_responsive_distinct(targets: Seq<Address>, outcomes: Seq<ProbeOutcome>)
    requires
        targets.len() == outcomes.len(),
        targets.no_duplicates(),
    ensures
        responsive_of(targets, outcomes).no_duplicates(),
        forall|a: Address| responsive_of(targets, outcomes).contains(a) ==> targets.contains(a),
    decreases targets.len(),
{
    if targets.len() > 0 {
        let t = targets.drop_last();
        let o = outcomes.drop_last();
        assert(t.no_duplicates());
        lemma_responsive_distinct(t, o);
        let rest = responsive_of(t, o);
        let last = targets.last();
        assert forall|a: Address| rest.contains(a) implies targets.contains(a) by {
            assert(t.contains(a));
            let k = choose|k: int| 0 <= k < t.len() && t[k] == a;
            assert(targets[k] == a);
        }
        assert(targets[targets.len() - 1] == last);
        if outcomes.last() is Responsive {
            assert(!rest.contains(last)) by {
                if rest.contains(last) {
                    assert(t.contains(last));
                    let k = choose|k: int| 0 <= k < t.len() && t[k] == last;
                    assert(targets[k] == targets[targets.len() - 1]);
                }
            }
            let r = rest.push(last);
            assert forall|x: int, y: int| 0 <= x < y < r.len() implies r[x] != r[y] by {
                if y == r.len() - 1 {
                    assert(rest.contains(r[x]));
                }
            }
            assert forall|a: Address| r.contains(a) implies targets.contains(a) by {
                let k = choose|k: int| 0 <= k < r.len() && r[k] == a;
                if k < rest.len() {
                    assert(rest.contains(a));
                }
            }
        }
    }
}

/// Fan-in: the targets whose probe answered, in target order. Every other
/// outcome, whatever its reason, leaves its address out.
pub fn collect_responsive(targets: &Vec<Address>, outcomes: &Vec<ProbeOutcome>) -> (r: Vec<Address>)
    requires
        targets.len() == outcomes.len(),
    ensures
        r@ == responsive_of(targets@, outcomes@),
        forall|a: Address| r@.contains(a) <==> answered(targets@, outcomes@, a),
        targets@.no_duplicates() ==> r@.no_duplicates(),
{
    let mut r: Vec<Address> = Vec::new();
    let mut i: usize = 0;
    while i < targets.len()
        invariant
            targets.len() == outcomes.len(),
            i <= targets.len(),
            r@ == responsive_of(targets@.take(i as int), outcomes@.take(i as int)),
        decreases targets.len() - i,
    {
        proof {
            assert(targets@.take(i + 1).drop_last() =~= targets@.take(i as int));
            assert(outcomes@.take(i + 1).drop_last() =~= outcomes@.take(i as int));
        }
        if outcomes[i].is_responsive() {
            r.push(targets[i]);
        }
        i = i + 1;
    }
    proof {
        assert(targets@.take(i as int) =~= targets@);
        assert(outcomes@.take(i as int) =~= outcomes@);
        assert forall|a: Address| r@.contains(a) <==> answered(targets@, outcomes@, a) by {
            lemma_responsive_members(targets@, outcomes@, a);
        }
        if targets@.no_duplicates() {
            lemma_responsive_distinct(targets@, outcomes@);
        }
    }
    r
}

/// Every probe failed for lack of permission: a sign of a misconfigured host
/// rather than of a network with no live hosts.
pub open spec fn all_denied(outcomes: Seq<ProbeOutcome>) -> bool {
    outcomes.len() > 0 && forall|i: int|
        0 <= i < outcomes.len() ==> outcomes[i] == (ProbeOutcome::Unresponsive {
            reason: ProbeFailure::PermissionDenied,
        })
}

pub fn all_permission_denied(outcomes: &Vec<ProbeOutcome>) -> (r: bool)
    ensures
        r == all_denied(outcomes@),
{
    if outcomes.len() == 0 {
        return false;
    }
    let mut i: usize = 0;
    while i < outcomes.len()
        invariant
            i <= outcomes.len(),
            forall|k: int|
                0 <= k < i ==> outcomes@[k] == (ProbeOutcome::Unresponsive {
                    reason: ProbeFailure::PermissionDenied,
                }),
        decreases outcomes.len() - i,
    {
        match outcomes[i] {
            ProbeOutcome::Unresponsive { reason: ProbeFailure::PermissionDenied } => {},
            _ => {
                return false;
            },
        }
        i = i + 1;
    }
    true
}


/// When no probe answers, the scan result is empty, whatever the range.
pub proof fn lemma_no_answers_empty(targets: Seq<Address>, outcomes: Seq<ProbeOutcome>)
    requires
        targets.len() == outcomes.len(),
        forall|i: int| 0 <= i < outcomes.len() ==> outcomes[i] !is Responsive,
    ensures
        responsive_of(targets, outcomes) == Seq::<Address>::empty(),
{
    let r = responsive_of(targets, outcomes);
    if r.len() > 0 {
        lemma_responsive_members(targets, outcomes, r[0]);
        assert(r.contains(r[0]));
    }
    assert(r =~= Seq::<Address>::empty());
}

/// Two scans of the same targets against the same deterministic prober give
/// the same result.
pub proof fn lemma_deterministic_scan(
    targets: Seq<Address>,
    first: Seq<ProbeOutcome>,
    second: Seq<ProbeOutcome>,
    probe: spec_fn(Address) -> ProbeOutcome,
)
    requires
        first.len() == targets.len(),
        second.len() == targets.len(),
        forall|i: int| 0 <= i < targets.len() ==> first[i] == probe(targets[i]),
        forall|i: int| 0 <= i < targets.len() ==> second[i] == probe(targets[i]),
    ensures
        responsive_of(targets, first) == responsive_of(targets, second),
{
    assert(first =~= second);
}

/// Failure isolation: when the outcomes of two scans differ at one target
/// only (say, its probe crashed in one of them), every other target is
/// collected in one exactly when it is collected in the other.
pub proof fn lemma_failure_isolation(
    targets: Seq<Address>,
    first: Seq<ProbeOutcome>,
    second: Seq<ProbeOutcome>,
    k: int,
)
    requires
        first.len() == targets.len(),
        second.len() == targets.len(),
        targets.no_duplicates(),
        0 <= k < targets.len(),
        forall|i: int| 0 <= i < targets.len() && i != k ==> first[i] == second[i],
    ensures
        forall|j: int|
            0 <= j < targets.len() && j != k ==> (responsive_of(targets, first).contains(targets[j])
                <==> responsive_of(targets, second).contains(targets[j])),
        forall|j: int|
            0 <= j < targets.len() && j != k ==> (responsive_of(targets, second).contains(targets[j])
                <==> second[j] is Responsive),
{
    assert forall|j: int| 0 <= j < targets.len() && j != k implies (responsive_of(
        targets,
        first,
    ).contains(targets[j]) <==> responsive_of(targets, second).contains(targets[j])) && (
    responsive_of(targets, second).contains(targets[j]) <==> second[j] is Responsive) by {
        let a = targets[j];
        lemma_responsive_members(targets, first, a);
        lemma_responsive_members(targets, second, a);
        if answered(targets, first, a) {
            let i = choose|i: int| 0 <= i < targets.len() && targets[i] == a && first[i] is Responsive;
            assert(i == j);
        }
        if answered(targets, second, a) {
            let i = choose|i: int| 0 <= i < targets.len() && targets[i] == a && second[i] is Responsive;
            assert(i == j);
        }
    }
}

} // verus!
