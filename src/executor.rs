//! Running probes: requests are planned in declaration order, transport
//! results are classified under a pass policy and recorded in slots addressed
//! by the probe's index, so completion order never changes the outcome order.

use vstd::prelude::*;
use crate::probe::{Probe, ProbeOutcome, outcome_of};
use crate::report::{
    Report, achieved_weight, lemma_full_score, lemma_none_passed, lemma_same_verdicts, score, total_weight,
};
use crate::target::{Origin, ProbeError, ProbeRequest, build_request, request_of, valid_path};

verus! {

/// Why a round trip did not complete.
#[derive(Debug, Clone, Copy, PartialEq, Eq, Structural)]
pub enum TransportFailure {
    ConnectionRefused,
    TimedOut,
    NameResolution,
    Other,
}

/// What sending one request came to: a response with its status code, or a
/// transport failure.
#[derive(Debug, Clone, Copy, PartialEq, Eq, Structural)]
pub enum Transport {
    Responded(u16),
    Failed(TransportFailure),
}

/// When a probe counts as passed.
#[derive(Debug, Clone, Copy, PartialEq, Eq, Structural)]
pub enum PassPolicy {
    /// Passed when the round trip completed, whatever the response's status:
    /// a 4xx or 5xx response passes, a transport failure does not.
    RoundTripCompleted,
}

pub open spec fn passes(policy: PassPolicy, t: Transport) -> bool {
    match policy {
        PassPolicy::RoundTripCompleted => t is Responded,
    }
}

/// Whether a probe with transport result `t` passed under `policy`.
pub fn classify(policy: PassPolicy, t: &Transport) -> (r: bool)
    ensures
        r == passes(policy, *t),
{
    match policy {
        PassPolicy::RoundTripCompleted => match t {
            Transport::Responded(_) => true,
            Transport::Failed(_) => false,
        },
    }
}

/// The verdicts after recording `passed` at index `i`: a slot is written once
/// and then kept.
pub open spec fn recorded(v: Seq<Option<bool>>, i: int, passed: bool) -> Seq<Option<bool>> {
    if v[i] is None {
        v.update(i, Some(passed))
    } else {
        v
    }
}

/// One slot per probe, in declaration order: the probe's name and weight,
/// and its verdict once it is known.
#[derive(Debug)]
pub struct OutcomeSlots {
    pub names: Vec<String>,
    pub weights: Vec<u32>,
    pub verdicts: Vec<Option<bool>>,
}

impl OutcomeSlots {
    pub open spec fn wf(&self) -> bool {
        &&& self.names@.len() == self.verdicts@.len()
        &&& self.weights@.len() == self.verdicts@.len()
    }

    pub open spec fn complete(&self) -> bool {
        forall|i: int| 0 <= i < self.verdicts@.len() ==> (#[trigger] self.verdicts@[i]) is Some
    }

    /// Records the verdict of the probe at `index`, unless one is already
    /// there; tells whether it was recorded.
    pub fn record(&mut self, index: usize, passed: bool) -> (r: bool)
        requires
            old(self).wf(),
            index < old(self).verdicts@.len(),
        ensures
            final(self).wf(),
            final(self).names == old(self).names,
            final(self).weights == old(self).weights,
            final(self).verdicts@ == recorded(old(self).verdicts@, index as int, passed),
            r == old(self).verdicts@[index as int] is None,
    {
        if self.verdicts[index].is_none() {
            self.verdicts.set(index, Some(passed));
            true
        } else {
            false
        }
    }

    /// Records the verdict that `policy` gives to transport result `t` for
    /// the probe at `index`.
    pub fn settle(&mut self, policy: PassPolicy, index: usize, t: &Transport) -> (r: bool)
        requires
            old(self).wf(),
            index < old(self).verdicts@.len(),
        ensures
            final(self).wf(),
            final(self).names == old(self).names,
            final(self).weights == old(self).weights,
            final(self).verdicts@ == recorded(
                old(self).verdicts@,
                index as int,
                passes(policy, *t),
            ),
            r == old(self).verdicts@[index as int] is None,
    {
        let passed = classify(policy, t);
        self.record(index, passed)
    }

    /// Whether every probe has its verdict.
    pub fn is_complete(&self) -> (r: bool)
        ensures
            r == self.complete(),
    {
        let mut i: usize = 0;
        while i < self.verdicts.len()
            invariant
                i <= self.verdicts@.len(),
                forall|j: int| 0 <= j < i ==> (#[trigger] self.verdicts@[j]) is Some,
            decreases self.verdicts@.len() - i,
        {
            if self.verdicts[i].is_none() {
                return false;
            }
            i = i + 1;
        }
        true
    }

    /// The outcomes in declaration order, once every probe has its verdict;
    /// nothing while one is missing.
    pub fn into_outcomes(self) -> (r: Option<Vec<ProbeOutcome>>)
        requires
            self.wf(),
        ensures
            r is Some <==> self.complete(),
            r matches Some(os) ==> {
                &&& os@.len() == self.verdicts@.len()
                &&& forall|i: int|
                    0 <= i < os@.len() ==> (#[trigger] os@[i]) == (ProbeOutcome {
                        name: self.names@[i],
                        passed: self.verdicts@[i]->Some_0,
                        weight: self.weights@[i],
                    })
            },
    {
        if !self.is_complete() {
            return None;
        }
        let mut os: Vec<ProbeOutcome> = Vec::new();
        let mut i: usize = 0;
        while i < self.verdicts.len()
            invariant
                self.wf(),
                self.complete(),
                i <= self.verdicts@.len(),
                os@.len() == i,
                forall|j: int|
                    0 <= j < i ==> (#[trigger] os@[j]) == (ProbeOutcome {
                        name: self.names@[j],
                        passed: self.verdicts@[j]->Some_0,
                        weight: self.weights@[j],
                    }),
            decreases self.verdicts@.len() - i,
        {
            assert(self.verdicts@[i as int] is Some);
            let passed = match self.verdicts[i] {
                Some(p) => p,
                None => false,
            };
            os.push(ProbeOutcome { name: self.names[i].clone(), passed, weight: self.weights[i] });
            i = i + 1;
        }
        Some(os)
    }
}

/// Whether `probe` passes when its request, if one can be built, meets `t`:
/// a probe whose request cannot be built fails without being sent.
pub open spec fn probe_passes(policy: PassPolicy, probe: Probe, t: Transport) -> bool {
    valid_path(probe.path@) && passes(policy, t)
}

/// The outcomes of a run: one per probe, in declaration order.
pub open spec fn run_outcomes(policy: PassPolicy, probes: Seq<Probe>, results: Seq<Transport>) -> Seq<
    ProbeOutcome,
> {
    Seq::new(
        probes.len(),
        |i: int| outcome_of(probes[i], probe_passes(policy, probes[i], results[i])),
    )
}

/// The requests of a run, one per probe in declaration order, and the slots
/// their verdicts go to; a probe whose request cannot be built is already
/// failed in its slot.
pub fn plan(origin: &Origin, probes: &Vec<Probe>) -> (r: (
    OutcomeSlots,
    Vec<Result<ProbeRequest, ProbeError>>,
))
    ensures
        r.0.wf(),
        r.0.verdicts@.len() == probes@.len(),
        r.1@.len() == probes@.len(),
        forall|i: int|
            0 <= i < probes@.len() ==> {
                &&& r.0.names@[i] == (#[trigger] probes@[i]).name
                &&& r.0.weights@[i] == probes@[i].weight
                &&& r.0.verdicts@[i] == if valid_path(probes@[i].path@) {
                    None
                } else {
                    Some(false)
                }
                &&& r.1@[i] is Ok <==> valid_path(probes@[i].path@)
                &&& r.1@[i] matches Ok(q) ==> request_of(*origin, probes@[i], q)
            },
{
    let mut slots = OutcomeSlots { names: Vec::new(), weights: Vec::new(), verdicts: Vec::new() };
    let mut requests: Vec<Result<ProbeRequest, ProbeError>> = Vec::new();
    let mut i: usize = 0;
    while i < probes.len()
        invariant
            i <= probes@.len(),
            slots.wf(),
            slots.verdicts@.len() == i,
            requests@.len() == i,
            forall|j: int|
                0 <= j < i ==> {
                    &&& slots.names@[j] == (#[trigger] probes@[j]).name
                    &&& slots.weights@[j] == probes@[j].weight
                    &&& slots.verdicts@[j] == if valid_path(probes@[j].path@) {
                        None
                    } else {
                        Some(false)
                    }
                    &&& requests@[j] is Ok <==> valid_path(probes@[j].path@)
                    &&& requests@[j] matches Ok(q) ==> request_of(*origin, probes@[j], q)
                },
        decreases probes@.len() - i,
    {
        let probe = &probes[i];
        let request = build_request(origin, probe);
        let verdict = if request.is_ok() {
            None
        } else {
            Some(false)
        };
        slots.names.push(probe.name.clone());
        slots.weights.push(probe.weight);
        slots.verdicts.push(verdict);
        requests.push(request);
        i = i + 1;
    }
    (slots, requests)
}

/// Runs the probes against transport results given in declaration order,
/// one per probe (that of a probe whose request cannot be built is not
/// used), and scores the outcomes.
pub fn run_probes(
    origin: &Origin,
    probes: &Vec<Probe>,
    policy: PassPolicy,
    results: &Vec<Transport>,
) -> (r: Report)
    requires
        results@.len() == probes@.len(),
        probes@.len() <= 0xffff_ffff,
    ensures
        r.wf(),
        r.outcomes@ == run_outcomes(policy, probes@, results@),
{
    let (mut slots, requests) = plan(origin, probes);
    let n = requests.len();
    let mut i: usize = 0;
    while i < n
        invariant
            n == requests@.len() == probes@.len() == results@.len(),
            i <= n,
            slots.wf(),
            slots.verdicts@.len() == n,
            forall|j: int|
                0 <= j < n ==> {
                    &&& slots.names@[j] == (#[trigger] probes@[j]).name
                    &&& slots.weights@[j] == probes@[j].weight
                    &&& requests@[j] is Ok <==> valid_path(probes@[j].path@)
                },
            forall|j: int|
                0 <= j < n ==> slots.verdicts@[j] == if !valid_path(
                    (#[trigger] probes@[j]).path@,
                ) {
                    Some(false)
                } else if j < i {
                    Some(passes(policy, results@[j]))
                } else {
                    None::<bool>
                },
        decreases n - i,
    {
        if requests[i].is_ok() {
            slots.settle(policy, i, &results[i]);
        }
        i = i + 1;
    }
    assert(slots.complete()) by {
        assert forall|j: int| 0 <= j < slots.verdicts@.len() implies (
        #[trigger] slots.verdicts@[j]) is Some by {
            let p = probes@[j];
            assert(j < i);
        }
    }
    let outcomes = match slots.into_outcomes() {
        Some(os) => os,
        None => Vec::new(),
    };
    assert(outcomes@ =~= run_outcomes(policy, probes@, results@)) by {
        assert forall|j: int| 0 <= j < n implies #[trigger] outcomes@[j] == run_outcomes(
            policy,
            probes@,
            results@,
        )[j] by {
            let p = probes@[j];
        }
    }
    score(outcomes)
}

/// Recording verdicts for two different probes gives the same slots in
/// either order.
pub proof fn lemma_record_commutes(v: Seq<Option<bool>>, i: int, a: bool, j: int, b: bool)
    requires
        0 <= i < v.len(),
        0 <= j < v.len(),
        i != j,
    ensures
        recorded(recorded(v, i, a), j, b) == recorded(recorded(v, j, b), i, a),
{
    assert(recorded(recorded(v, i, a), j, b) =~= recorded(recorded(v, j, b), i, a));
}

/// When every probe is well formed and every request meets a response, of
/// any status, every probe passes and the whole weight is achieved.
pub proof fn lemma_all_responded(probes: Seq<Probe>, results: Seq<Transport>)
    requires
        results.len() == probes.len(),
        forall|i: int| 0 <= i < probes.len() ==> valid_path((#[trigger] probes[i]).path@),
        forall|i: int| 0 <= i < results.len() ==> (#[trigger] results[i]) is Responded,
    ensures
        forall|i: int|
            0 <= i < probes.len() ==> (#[trigger] run_outcomes(
                PassPolicy::RoundTripCompleted,
                probes,
                results,
            )[i]).passed,
        achieved_weight(run_outcomes(PassPolicy::RoundTripCompleted, probes, results))
            == total_weight(run_outcomes(PassPolicy::RoundTripCompleted, probes, results)),
{
    let os = run_outcomes(PassPolicy::RoundTripCompleted, probes, results);
    assert forall|i: int| 0 <= i < probes.len() implies (#[trigger] os[i]).passed by {
        assert(valid_path(probes[i].path@));
        assert(results[i] is Responded);
    }
    lemma_full_score(os);
}

/// When no request meets a response, every probe fails and nothing is
/// achieved.
pub proof fn lemma_none_responded(policy: PassPolicy, probes: Seq<Probe>, results: Seq<Transport>)
    requires
        results.len() == probes.len(),
        forall|i: int| 0 <= i < results.len() ==> (#[trigger] results[i]) is Failed,
    ensures
        forall|i: int|
            0 <= i < probes.len() ==> !(#[trigger] run_outcomes(policy, probes, results)[i]).passed,
        achieved_weight(run_outcomes(policy, probes, results)) == 0,
{
    let os = run_outcomes(policy, probes, results);
    assert forall|i: int| 0 <= i < probes.len() implies !(#[trigger] os[i]).passed by {
        assert(results[i] is Failed);
    }
    lemma_none_passed(os);
}

/// Two runs against a target that answers the same requests, with any
/// statuses, score the same total and achieved weights.
pub proof fn lemma_same_target_same_score(
    policy: PassPolicy,
    probes: Seq<Probe>,
    first: Seq<Transport>,
    second: Seq<Transport>,
)
    requires
        first.len() == probes.len(),
        second.len() == probes.len(),
        forall|i: int|
            0 <= i < probes.len() ==> ((#[trigger] first[i]) is Responded <==> second[i] is Responded),
    ensures
        total_weight(run_outcomes(policy, probes, first)) == total_weight(
            run_outcomes(policy, probes, second),
        ),
        achieved_weight(run_outcomes(policy, probes, first)) == achieved_weight(
            run_outcomes(policy, probes, second),
        ),
{
    let a = run_outcomes(policy, probes, first);
    let b = run_outcomes(policy, probes, second);
    assert forall|i: int| 0 <= i < a.len() implies (#[trigger] a[i]).weight == b[i].weight
        && a[i].passed == b[i].passed by {
        assert(first[i] is Responded <==> second[i] is Responded);
    }
    lemma_same_verdicts(a, b);
}

} // verus!
