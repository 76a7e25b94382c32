//! Weighted scoring of a complete run, and its report as JSON text.

use vstd::prelude::*;
use crate::json::{json_string, decimal, push_json_string, push_decimal};
use crate::probe::ProbeOutcome;

verus! {

/// Sum of the weights of all outcomes.
pub open spec fn total_weight(os: Seq<ProbeOutcome>) -> nat
    decreases os.len(),
{
    if os.len() == 0 {
        0
    } else {
        total_weight(os.drop_last()) + os.last().weight as nat
    }
}

/// Sum of the weights of the outcomes that passed.
pub open spec fn achieved_weight(os: Seq<ProbeOutcome>) -> nat
    decreases os.len(),
{
    if os.len() == 0 {
        0
    } else {
        achieved_weight(os.drop_last()) + if os.last().passed {
            os.last().weight as nat
        } else {
            0
        }
    }
}

/// The scored result of a complete run, outcomes in declaration order.
#[derive(Debug)]
pub struct Report {
    pub outcomes: Vec<ProbeOutcome>,
    pub total_weight: u64,
    pub achieved_weight: u64,
}

impl Report {
    /// Both sums agree with the outcomes.
    pub open spec fn wf(&self) -> bool {
        &&& self.total_weight as nat == total_weight(self.outcomes@)
        &&& self.achieved_weight as nat == achieved_weight(self.outcomes@)
    }
}

pub open spec fn bool_json(b: bool) -> Seq<char> {
    if b {
        "true"@
    } else {
        "false"@
    }
}

/// One outcome as a JSON object with the keys `name`, `passed`, `weight`.
pub open spec fn outcome_json(o: ProbeOutcome) -> Seq<char> {
    "{\"name\":"@ + json_string(o.name@) + ",\"passed\":"@ + bool_json(o.passed)
        + ",\"weight\":"@ + decimal(o.weight as nat) + "}"@
}

/// The outcomes as JSON objects separated by commas.
pub open spec fn outcome_list_json(os: Seq<ProbeOutcome>) -> Seq<char>
    decreases os.len(),
{
    if os.len() == 0 {
        Seq::empty()
    } else if os.len() == 1 {
        outcome_json(os[0])
    } else {
        outcome_list_json(os.drop_last()) + ","@ + outcome_json(os.last())
    }
}

/// The report as one JSON object with the keys `outcomes`, `total_weight`,
/// `achieved_weight`, in that order.
pub open spec fn report_json(r: Report) -> Seq<char> {
    "{\"outcomes\":["@ + outcome_list_json(r.outcomes@) + "],\"total_weight\":"@ + decimal(
        r.total_weight as nat,
    ) + ",\"achieved_weight\":"@ + decimal(r.achieved_weight as nat) + "}"@
}

fn push_outcome_json(out: &mut String, o: &ProbeOutcome)
    ensures
        final(out)@ == old(out)@ + outcome_json(*o),
{
    out.append("{\"name\":");
    push_json_string(out, o.name.as_str());
    out.append(",\"passed\":");
    if o.passed {
        out.append("true");
    } else {
        out.append("false");
    }
    out.append(",\"weight\":");
    push_decimal(out, o.weight as u64);
    out.append("}");
    assert(out@ =~= old(out)@ + outcome_json(*o));
}

impl Report {
    /// The report as JSON text: the same report always gives the same text.
    pub fn to_json(&self) -> (r: String)
        ensures
            r@ == report_json(*self),
    {
        let mut out = String::from_str("{\"outcomes\":[");
        let ghost head = out@;
        let mut i: usize = 0;
        while i < self.outcomes.len()
            invariant
                i <= self.outcomes@.len(),
                out@ == head + outcome_list_json(self.outcomes@.take(i as int)),
            decreases self.outcomes@.len() - i,
        {
            let ghost before = out@;
            let ghost prefix = self.outcomes@.take(i as int + 1);
            assert(prefix.drop_last() =~= self.outcomes@.take(i as int));
            if i > 0 {
                out.append(",");
            }
            push_outcome_json(&mut out, &self.outcomes[i]);
            if i == 0 {
                assert(self.outcomes@.take(0) =~= Seq::<ProbeOutcome>::empty());
                assert(out@ =~= head + outcome_list_json(prefix));
            } else {
                assert(out@ =~= head + outcome_list_json(prefix));
            }
            i = i + 1;
        }
        assert(self.outcomes@.take(i as int) =~= self.outcomes@);
        out.append("],\"total_weight\":");
        push_decimal(&mut out, self.total_weight);
        out.append(",\"achieved_weight\":");
        push_decimal(&mut out, self.achieved_weight);
        out.append("}");
        assert(out@ =~= report_json(*self));
        out
    }
}

proof fn lemma_total_bound(os: Seq<ProbeOutcome>)
    ensures
        total_weight(os) <= os.len() * 0xffff_ffff,
    decreases os.len(),
{
    if os.len() > 0 {
        lemma_total_bound(os.drop_last());
    }
}

/// Scores a complete sequence of outcomes.
pub fn score(outcomes: Vec<ProbeOutcome>) -> (r: Report)
    requires
        outcomes@.len() <= 0xffff_ffff,
    ensures
        r.outcomes@ == outcomes@,
        r.wf(),
        r.achieved_weight <= r.total_weight,
{
    let mut total: u64 = 0;
    let mut achieved: u64 = 0;
    let mut i: usize = 0;
    while i < outcomes.len()
        invariant
            i <= outcomes@.len() <= 0xffff_ffff,
            total as nat == total_weight(outcomes@.take(i as int)),
            achieved as nat == achieved_weight(outcomes@.take(i as int)),
        decreases outcomes@.len() - i,
    {
        let ghost prefix = outcomes@.take(i as int + 1);
        assert(prefix.drop_last() =~= outcomes@.take(i as int));
        proof {
            lemma_total_bound(prefix);
            lemma_achieved_le_total(prefix);
        }
        let w = outcomes[i].weight as u64;
        total = total + w;
        if outcomes[i].passed {
            achieved = achieved + w;
        }
        i = i + 1;
    }
    assert(outcomes@.take(i as int) =~= outcomes@);
    proof {
        lemma_achieved_le_total(outcomes@);
    }
    Report { outcomes, total_weight: total, achieved_weight: achieved }
}

/// The achieved weight never exceeds the total weight.
pub proof fn lemma_achieved_le_total(os: Seq<ProbeOutcome>)
    ensures
        achieved_weight(os) <= total_weight(os),
    decreases os.len(),
{
    if os.len() > 0 {
        lemma_achieved_le_total(os.drop_last());
    }
}

/// The achieved weight equals the total weight exactly when every outcome
/// either passed or carries no weight.
pub proof fn lemma_full_score(os: Seq<ProbeOutcome>)
    ensures
        achieved_weight(os) == total_weight(os) <==> forall|i: int|
            0 <= i < os.len() ==> (#[trigger] os[i]).passed || os[i].weight == 0,
    decreases os.len(),
{
    if os.len() > 0 {
        let init = os.drop_last();
        lemma_full_score(init);
        lemma_achieved_le_total(init);
        assert forall|i: int| 0 <= i < init.len() implies #[trigger] init[i] == os[i] by {}
        if forall|i: int| 0 <= i < os.len() ==> (#[trigger] os[i]).passed || os[i].weight == 0 {
            assert(os[os.len() - 1].passed || os[os.len() - 1].weight == 0);
            assert forall|i: int| 0 <= i < init.len() implies (#[trigger] init[i]).passed
                || init[i].weight == 0 by {
                assert(os[i].passed || os[i].weight == 0);
            }
        }
        if achieved_weight(os) == total_weight(os) {
            assert forall|i: int| 0 <= i < os.len() implies (#[trigger] os[i]).passed
                || os[i].weight == 0 by {
                if i < init.len() {
                    assert(init[i].passed || init[i].weight == 0);
                }
            }
        }
    }
}

/// With positive weights, the achieved weight equals the total weight
/// exactly when every outcome passed.
pub proof fn lemma_full_score_positive(os: Seq<ProbeOutcome>)
    requires
        forall|i: int| 0 <= i < os.len() ==> (#[trigger] os[i]).weight > 0,
    ensures
        achieved_weight(os) == total_weight(os) <==> forall|i: int|
            0 <= i < os.len() ==> (#[trigger] os[i]).passed,
{
    lemma_full_score(os);
}

/// When no outcome passed, nothing is achieved.
pub proof fn lemma_none_passed(os: Seq<ProbeOutcome>)
    requires
        forall|i: int| 0 <= i < os.len() ==> !(#[trigger] os[i]).passed,
    ensures
        achieved_weight(os) == 0,
    decreases os.len(),
{
    if os.len() > 0 {
        let init = os.drop_last();
        assert forall|i: int| 0 <= i < init.len() implies !(#[trigger] init[i]).passed by {
            assert(init[i] == os[i]);
        }
        lemma_none_passed(init);
    }
}

/// Outcomes that agree pointwise on weight and on passing give the same sums.
pub proof fn lemma_same_verdicts(a: Seq<ProbeOutcome>, b: Seq<ProbeOutcome>)
    requires
        a.len() == b.len(),
        forall|i: int|
            0 <= i < a.len() ==> (#[trigger] a[i]).weight == b[i].weight && a[i].passed
                == b[i].passed,
    ensures
        total_weight(a) == total_weight(b),
        achieved_weight(a) == achieved_weight(b),
    decreases a.len(),
{
    if a.len() > 0 {
        let (ia, ib) = (a.drop_last(), b.drop_last());
        assert forall|i: int| 0 <= i < ia.len() implies (#[trigger] ia[i]).weight == ib[i].weight
            && ia[i].passed == ib[i].passed by {
            assert(ia[i] == a[i] && ib[i] == b[i]);
        }
        lemma_same_verdicts(ia, ib);
    }
}

} // verus!
