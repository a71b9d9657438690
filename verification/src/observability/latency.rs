//! Stage latencies: the time between consecutive steps of each stored
//! execution sequence, steps taken in the order of their sequence numbers.
use vstd::prelude::*;

use crate::observability::collector::{index_sequence, LatencySample};
use crate::timeline::{lemma_sorted_by_stamps_map, sort_by_stamps, sorted_by_stamps};

verus! {

/// One step of a stored execution sequence.
#[derive(Debug)]
pub struct FabricStep {
    pub sequence: u64,
    pub stage: String,
    pub at_ms: u64,
}

/// A stored execution sequence of one task in one trace.
#[derive(Debug)]
pub struct FabricSequence {
    pub session_id: String,
    pub task_id: String,
    pub trace_id: String,
    pub steps: Vec<FabricStep>,
}

/// A latency sample as plain values.
pub struct LatencyView {
    pub session_id: Seq<char>,
    pub trace_id: Seq<char>,
    pub task_id: Seq<char>,
    pub stage_from: Seq<char>,
    pub stage_to: Seq<char>,
    pub from_at_ms: u64,
    pub to_at_ms: u64,
    pub latency_ms: u64,
}

impl View for LatencySample {
    type V = LatencyView;

    open spec fn view(&self) -> LatencyView {
        LatencyView {
            session_id: self.session_id@,
            trace_id: self.trace_id@,
            task_id: self.task_id@,
            stage_from: self.stage_from@,
            stage_to: self.stage_to@,
            from_at_ms: self.from_at_ms,
            to_at_ms: self.to_at_ms,
            latency_ms: self.latency_ms,
        }
    }
}

/// The steps ordered by sequence number, equal numbers in the order stored.
pub open spec fn ordered_steps(steps: Seq<FabricStep>) -> Seq<FabricStep> {
    sorted_by_stamps(steps, steps.map_values(|s: FabricStep| s.sequence))
}

/// The sample between two consecutive steps; a step earlier than the one
/// before it gives 0.
pub open spec fn sample(q: FabricSequence, from: FabricStep, to: FabricStep) -> LatencyView {
    LatencyView {
        session_id: q.session_id@,
        trace_id: q.trace_id@,
        task_id: q.task_id@,
        stage_from: from.stage@,
        stage_to: to.stage@,
        from_at_ms: from.at_ms,
        to_at_ms: to.at_ms,
        latency_ms: if to.at_ms >= from.at_ms {
            (to.at_ms - from.at_ms) as u64
        } else {
            0
        },
    }
}

/// One sample per two consecutive ordered steps of a sequence.
pub open spec fn sequence_samples(q: FabricSequence) -> Seq<LatencyView> {
    let st = ordered_steps(q.steps@);
    if st.len() < 2 {
        Seq::empty()
    } else {
        Seq::new((st.len() - 1) as nat, |k: int| sample(q, st[k], st[k + 1]))
    }
}

/// The samples of the sequences, sequence after sequence.
pub open spec fn all_samples(qs: Seq<FabricSequence>) -> Seq<LatencyView>
    decreases qs.len(),
{
    if qs.len() == 0 {
        Seq::empty()
    } else {
        all_samples(qs.drop_last()) + sequence_samples(qs.last())
    }
}

/// The samples ordered by the time of their first step, equal times in the
/// order above.
pub open spec fn latency_samples_spec(qs: Seq<FabricSequence>) -> Seq<LatencyView> {
    let s = all_samples(qs);
    sorted_by_stamps(s, s.map_values(|x: LatencyView| x.from_at_ms))
}

/// The positions of the steps, ordered by sequence number.
fn step_order(steps: &Vec<FabricStep>) -> (r: Vec<usize>)
    ensures
        r@.map_values(|i: usize| steps@[i as int]) == ordered_steps(steps@),
        forall|k: int| 0 <= k < r@.len() ==> #[trigger] r@[k] < steps@.len(),
{
    let idx = index_sequence(steps.len());
    let mut stamps: Vec<u64> = Vec::new();
    let mut i: usize = 0;
    while i < steps.len()
        invariant
            i <= steps@.len(),
            stamps@ =~= steps@.map_values(|s: FabricStep| s.sequence).take(i as int),
        decreases steps.len() - i,
    {
        stamps.push(steps[i].sequence);
        i = i + 1;
    }
    assert(steps@.map_values(|s: FabricStep| s.sequence).take(steps@.len() as int) =~= steps@.map_values(
        |s: FabricStep| s.sequence,
    ));
    let ghost iv = idx@;
    let ghost f = |j: usize| steps@[j as int];
    assert forall|k: int| 0 <= k < iv.len() implies iv[k] as int == k by {
        assert(iv.map_values(|j: usize| j as int)[k] == k);
    }
    assert(iv.map_values(f) =~= steps@);
    let sorted = sort_by_stamps(idx, stamps);
    proof {
        lemma_sorted_by_stamps_map(iv, stamps@, f);
        crate::timeline::lemma_sorted_by_stamps_elements(iv, stamps@);
        assert forall|k: int| 0 <= k < sorted@.len() implies #[trigger] sorted@[k] < steps@.len() by {
            assert(iv.contains(sorted@[k]));
            let m = choose|m: int| 0 <= m < iv.len() && iv[m] == sorted@[k];
        }
    }
    sorted
}

fn sample_record(q: &FabricSequence, from: &FabricStep, to: &FabricStep) -> (r: LatencySample)
    ensures
        r@ == sample(*q, *from, *to),
{
    LatencySample {
        session_id: q.session_id.clone(),
        trace_id: q.trace_id.clone(),
        task_id: q.task_id.clone(),
        stage_from: from.stage.clone(),
        stage_to: to.stage.clone(),
        from_at_ms: from.at_ms,
        to_at_ms: to.at_ms,
        latency_ms: to.at_ms.saturating_sub(from.at_ms),
    }
}

/// Appends the samples of one sequence to `out`.
fn push_sequence_samples(q: &FabricSequence, out: &mut Vec<LatencySample>)
    ensures
        final(out)@.map_values(|x: LatencySample| x@) == old(out)@.map_values(|x: LatencySample| x@) + sequence_samples(
            *q,
        ),
{
    let ghost base = out@.map_values(|x: LatencySample| x@);
    let ghost st = ordered_steps(q.steps@);
    let order = step_order(&q.steps);
    assert(order@.len() == st.len());
    if order.len() < 2 {
        assert(out@.map_values(|x: LatencySample| x@) =~= base + sequence_samples(*q));
        return;
    }
    let ghost want = sequence_samples(*q);
    let mut k: usize = 0;
    while k + 1 < order.len()
        invariant
            k + 1 <= order@.len(),
            order@.len() == st.len(),
            st.len() >= 2,
            st == ordered_steps(q.steps@),
            order@.map_values(|i: usize| q.steps@[i as int]) == st,
            forall|m: int| 0 <= m < order@.len() ==> #[trigger] order@[m] < q.steps@.len(),
            want == sequence_samples(*q),
            want.len() == st.len() - 1,
            out@.map_values(|x: LatencySample| x@) =~= base + want.take(k as int),
        decreases order.len() - k,
    {
        let ghost o0 = out@.map_values(|x: LatencySample| x@);
        let from = &q.steps[order[k]];
        let to = &q.steps[order[k + 1]];
        assert(st[k as int] == *from);
        assert(st[k + 1] == *to);
        assert(want[k as int] == sample(*q, st[k as int], st[k + 1]));
        out.push(sample_record(q, from, to));
        assert(out@.map_values(|x: LatencySample| x@) =~= o0.push(want[k as int]));
        assert(want.take(k + 1) =~= want.take(k as int).push(want[k as int]));
        k = k + 1;
    }
    assert(want.take(want.len() as int) =~= want);
}

fn sample_stamps(s: &Vec<LatencySample>) -> (r: Vec<u64>)
    ensures
        r@ == s@.map_values(|x: LatencySample| x@).map_values(|x: LatencyView| x.from_at_ms),
{
    let mut out: Vec<u64> = Vec::new();
    let mut i: usize = 0;
    while i < s.len()
        invariant
            i <= s@.len(),
            out@ =~= s@.map_values(|x: LatencySample| x@).map_values(|x: LatencyView| x.from_at_ms).take(i as int),
        decreases s.len() - i,
    {
        out.push(s[i].from_at_ms);
        i = i + 1;
    }
    out
}

/// The latency between consecutive steps of each sequence (steps by
/// sequence number), ordered by the time of the first step (see
/// `latency_samples_spec`). `sequences` are the execution sequences stored
/// for the session, as read.
pub fn collect_latency_samples(sequences: &Vec<FabricSequence>) -> (r: Vec<LatencySample>)
    ensures
        r@.map_values(|x: LatencySample| x@) == latency_samples_spec(sequences@),
{
    let mut samples: Vec<LatencySample> = Vec::new();
    let mut i: usize = 0;
    while i < sequences.len()
        invariant
            i <= sequences@.len(),
            samples@.map_values(|x: LatencySample| x@) == all_samples(sequences@.take(i as int)),
        decreases sequences.len() - i,
    {
        let ghost s1 = sequences@.take(i + 1);
        assert(s1.drop_last() =~= sequences@.take(i as int));
        assert(s1.last() == sequences@[i as int]);
        push_sequence_samples(&sequences[i], &mut samples);
        i = i + 1;
    }
    assert(sequences@.take(sequences@.len() as int) =~= sequences@);
    let stamps = sample_stamps(&samples);
    let ghost ss = samples@;
    let sorted = sort_by_stamps(samples, stamps);
    proof {
        lemma_sorted_by_stamps_map(ss, stamps@, |x: LatencySample| x@);
    }
    sorted
}

} // verus!
