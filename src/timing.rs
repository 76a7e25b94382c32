//! Statistics of timed repetitions, kept apart from any scoring run: the
//! samples are nanoseconds per operation, for request construction and, when
//! the target answers, for dispatch.

use vstd::prelude::*;
use crate::executor::Transport;
use crate::json::{decimal, push_decimal};

verus! {

pub open spec fn sample_sum(s: Seq<u64>) -> nat
    decreases s.len(),
{
    if s.len() == 0 {
        0
    } else {
        sample_sum(s.drop_last()) + s.last() as nat
    }
}

/// Summary of a non-empty run of samples.
#[derive(Debug, Clone, Copy, PartialEq, Eq, Structural)]
pub struct TimingSummary {
    pub iterations: u64,
    pub min_ns: u64,
    pub max_ns: u64,
    pub mean_ns: u64,
    pub total_ns: u128,
}

/// `t` summarizes the samples `s`: count, least, greatest, sum and the mean
/// rounded down.
pub open spec fn summarizes(t: TimingSummary, s: Seq<u64>) -> bool {
    &&& t.iterations as nat == s.len()
    &&& (forall|i: int| 0 <= i < s.len() ==> t.min_ns <= #[trigger] s[i] && s[i] <= t.max_ns)
    &&& (exists|i: int| 0 <= i < s.len() && #[trigger] s[i] == t.min_ns)
    &&& (exists|i: int| 0 <= i < s.len() && #[trigger] s[i] == t.max_ns)
    &&& t.total_ns as nat == sample_sum(s)
    &&& t.mean_ns as nat == sample_sum(s) / s.len()
}

proof fn lemma_sum_bound(s: Seq<u64>)
    ensures
        sample_sum(s) <= s.len() * 0xffff_ffff_ffff_ffff,
    decreases s.len(),
{
    if s.len() > 0 {
        lemma_sum_bound(s.drop_last());
    }
}

proof fn lemma_sum_le_max(s: Seq<u64>, m: u64)
    requires
        forall|i: int| 0 <= i < s.len() ==> #[trigger] s[i] <= m,
    ensures
        sample_sum(s) <= s.len() * m,
    decreases s.len(),
{
    if s.len() > 0 {
        let init = s.drop_last();
        assert forall|i: int| 0 <= i < init.len() implies #[trigger] init[i] <= m by {
            assert(init[i] == s[i]);
        }
        lemma_sum_le_max(init, m);
        assert(s.last() <= m);
        assert((init.len() + 1) * m == init.len() * m + m) by (nonlinear_arith);
    }
}

/// Summarizes the samples; nothing for no samples.
pub fn summarize(samples: &Vec<u64>) -> (r: Option<TimingSummary>)
    ensures
        r is None <==> samples@.len() == 0,
        r matches Some(t) ==> summarizes(t, samples@),
{
    let n = samples.len();
    if n == 0 {
        return None;
    }
    let mut min = samples[0];
    let mut max = samples[0];
    let mut min_at: Ghost<int> = Ghost(0);
    let mut max_at: Ghost<int> = Ghost(0);
    let mut total: u128 = 0;
    let mut i: usize = 0;
    while i < n
        invariant
            n == samples@.len() > 0,
            i <= n,
            forall|j: int| 0 <= j < i ==> min <= #[trigger] samples@[j] && samples@[j] <= max,
            0 <= min_at@ < n && samples@[min_at@] == min,
            0 <= max_at@ < n && samples@[max_at@] == max,
            total as nat == sample_sum(samples@.take(i as int)),
        decreases n - i,
    {
        let x = samples[i];
        proof {
            let prefix = samples@.take(i as int + 1);
            assert(prefix.drop_last() =~= samples@.take(i as int));
            lemma_sum_bound(prefix);
            assert(prefix.len() * 0xffff_ffff_ffff_ffff <= 0xffff_ffff_ffff_ffff
                * 0xffff_ffff_ffff_ffff) by (nonlinear_arith)
                requires
                    prefix.len() <= 0xffff_ffff_ffff_ffff,
            ;
        }
        total = total + x as u128;
        if x < min {
            min = x;
            min_at = Ghost(i as int);
        }
        if x > max {
            max = x;
            max_at = Ghost(i as int);
        }
        i = i + 1;
    }
    assert(samples@.take(n as int) =~= samples@);
    proof {
        lemma_sum_le_max(samples@, max);
        assert(sample_sum(samples@) / (n as nat) <= max) by (nonlinear_arith)
            requires
                sample_sum(samples@) <= n * max,
                n > 0,
        ;
    }
    let mean = (total / n as u128) as u64;
    Some(TimingSummary { iterations: n as u64, min_ns: min, max_ns: max, mean_ns: mean, total_ns: total })
}

/// Takes one dispatch sample. A response adds its time; a transport failure
/// means the target cannot be reached, so the dispatch phase is dropped and
/// the measurement stops. Tells whether to go on.
pub fn take_dispatch_sample(samples: &mut Vec<u64>, t: &Transport, elapsed_ns: u64) -> (r: bool)
    ensures
        r == t is Responded,
        r ==> final(samples)@ == old(samples)@.push(elapsed_ns),
        !r ==> final(samples)@.len() == 0,
{
    match t {
        Transport::Responded(_) => {
            samples.push(elapsed_ns);
            true
        },
        Transport::Failed(_) => {
            samples.clear();
            false
        },
    }
}

/// One phase as a line of text.
pub open spec fn phase_text(label: Seq<char>, t: Option<TimingSummary>) -> Seq<char> {
    match t {
        Some(t) => label + ": iterations="@ + decimal(t.iterations as nat) + " min_ns="@ + decimal(
            t.min_ns as nat,
        ) + " mean_ns="@ + decimal(t.mean_ns as nat) + " max_ns="@ + decimal(t.max_ns as nat)
            + "\n"@,
        None => label + ": no samples\n"@,
    }
}

/// The two phases of a timing run, measured apart: construction always,
/// dispatch only when the target could be reached.
#[derive(Debug, Clone, Copy, PartialEq, Eq, Structural)]
pub struct TimingReport {
    pub construction: Option<TimingSummary>,
    pub dispatch: Option<TimingSummary>,
}

pub open spec fn timing_text(r: TimingReport) -> Seq<char> {
    phase_text("construction"@, r.construction) + phase_text("dispatch"@, r.dispatch)
}

/// Summarizes each phase on its own.
pub fn timing_report(construction: &Vec<u64>, dispatch: &Vec<u64>) -> (r: TimingReport)
    ensures
        r.construction is None <==> construction@.len() == 0,
        r.construction matches Some(t) ==> summarizes(t, construction@),
        r.dispatch is None <==> dispatch@.len() == 0,
        r.dispatch matches Some(t) ==> summarizes(t, dispatch@),
{
    TimingReport { construction: summarize(construction), dispatch: summarize(dispatch) }
}

fn push_phase(out: &mut String, label: &str, t: Option<TimingSummary>)
    ensures
        final(out)@ == old(out)@ + phase_text(label@, t),
{
    out.append(label);
    match t {
        Some(t) => {
            out.append(": iterations=");
            push_decimal(out, t.iterations);
            out.append(" min_ns=");
            push_decimal(out, t.min_ns);
            out.append(" mean_ns=");
            push_decimal(out, t.mean_ns);
            out.append(" max_ns=");
            push_decimal(out, t.max_ns);
            out.append("\n");
        },
        None => {
            out.append(": no samples\n");
        },
    }
    assert(out@ =~= old(out)@ + phase_text(label@, t));
}

impl TimingReport {
    /// One line per phase, construction first.
    pub fn to_text(&self) -> (r: String)
        ensures
            r@ == timing_text(*self),
    {
        let mut out = String::new();
        push_phase(&mut out, "construction", self.construction);
        push_phase(&mut out, "dispatch", self.dispatch);
        assert(out@ =~= timing_text(*self));
        out
    }
}

} // verus!
