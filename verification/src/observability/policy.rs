//! The counts that policy signals are derived from, taken from a collector
//! snapshot: the 95th percentile of the stage latencies, the retries, the
//! breaker trips and the tasks that were delegated more than once.
use vstd::prelude::*;

use crate::observability::collector::{DelegationTraceRecord, TelemetryCollectorSnapshot};
use crate::text::{chars_eq, chars_of};
use crate::timeline::{lemma_sort_stamped, sort_by_stamps, sorted_by_stamps, stamped};

verus! {

/// `values` in ascending order.
pub open spec fn ascending(values: Seq<u64>) -> Seq<u64> {
    sorted_by_stamps(values, values)
}

/// The position of the 95th percentile among `n` sorted values:
/// `ceil(0.95 * n) - 1`.
pub open spec fn p95_index(n: nat) -> int {
    (95 * n + 99) / 100 - 1
}

/// The 95th percentile of `values`: the value at `p95_index` once they are
/// sorted; 0 when there are none.
pub fn percentile95(values: &Vec<u64>) -> (r: u64)
    ensures
        values@.len() == 0 ==> r == 0,
        values@.len() > 0 ==> 0 <= p95_index(values@.len()) < values@.len() && r == ascending(
            values@,
        )[p95_index(values@.len())],
{
    let n = values.len();
    if n == 0 {
        return 0;
    }
    let mut items: Vec<u64> = Vec::new();
    let mut stamps: Vec<u64> = Vec::new();
    let mut i: usize = 0;
    while i < n
        invariant
            n == values@.len(),
            i <= n,
            items@ =~= values@.subrange(0, i as int),
            stamps@ =~= values@.subrange(0, i as int),
        decreases n - i,
    {
        items.push(values[i]);
        stamps.push(values[i]);
        i = i + 1;
    }
    assert(items@ =~= values@);
    let sorted = sort_by_stamps(items, stamps);
    proof {
        lemma_sort_stamped(stamped(values@, values@));
    }
    assert(sorted@.len() == n);
    assert(0 <= p95_index(n as nat) < n) by (nonlinear_arith)
        requires
            n >= 1,
    ;
    let idx: usize = ((95u128 * (n as u128) + 99) / 100) as usize - 1;
    sorted[idx]
}

/// The retries of the collected runs, added up.
pub open spec fn retries_sum(retries: Seq<u32>) -> nat
    decreases retries.len(),
{
    if retries.len() == 0 {
        0
    } else {
        retries_sum(retries.drop_last()) + retries.last() as nat
    }
}

/// Delegation `i` is the first delegated one of its task.
pub open spec fn first_delegated(ts: Seq<DelegationTraceRecord>, i: int) -> bool {
    &&& ts[i].delegated
    &&& forall|j: int| 0 <= j < i ==> !(#[trigger] ts[j].delegated && ts[j].task_id@ == ts[i].task_id@)
}

/// How many delegated traces name `task`.
pub open spec fn delegations_of(ts: Seq<DelegationTraceRecord>, task: Seq<char>) -> nat
    decreases ts.len(),
{
    if ts.len() == 0 {
        0
    } else {
        delegations_of(ts.drop_last(), task) + if ts.last().delegated && ts.last().task_id@ == task {
            1nat
        } else {
            0nat
        }
    }
}

/// Among the first `k` traces, the tasks (counted at their first delegation)
/// delegated more than once in all of `ts`.
pub open spec fn looping_tasks(ts: Seq<DelegationTraceRecord>, k: int) -> nat
    decreases k,
{
    if k <= 0 {
        0
    } else {
        looping_tasks(ts, k - 1) + if first_delegated(ts, k - 1) && delegations_of(ts, ts[k - 1].task_id@) > 1 {
            1nat
        } else {
            0nat
        }
    }
}

/// The counts of a collector snapshot that policy signals are derived from.
#[derive(Debug, Clone, Copy, PartialEq, Eq, Structural)]
pub struct PolicySignalCounts {
    pub latency_p95_ms: u64,
    pub retries_total: u64,
    pub breaker_hits: u64,
    pub delegation_loops: u64,
}

pub open spec fn latencies(s: TelemetryCollectorSnapshot) -> Seq<u64> {
    s.latency_samples@.map_values(|x: crate::observability::collector::LatencySample| x.latency_ms)
}

pub open spec fn retry_counts(s: TelemetryCollectorSnapshot) -> Seq<u32> {
    s.retries@.map_values(|x: crate::observability::collector::RetryRecord| x.retries)
}

fn delegations_exec(ts: &Vec<DelegationTraceRecord>, task: &Vec<char>) -> (r: usize)
    ensures
        r == delegations_of(ts@, task@),
{
    let mut c: usize = 0;
    let mut i: usize = 0;
    while i < ts.len()
        invariant
            i <= ts@.len(),
            c == delegations_of(ts@.subrange(0, i as int), task@),
            c <= i,
        decreases ts.len() - i,
    {
        assert(ts@.subrange(0, i + 1).drop_last() =~= ts@.subrange(0, i as int));
        if ts[i].delegated && chars_eq(&chars_of(ts[i].task_id.as_str()), task) {
            c = c + 1;
        }
        i = i + 1;
    }
    assert(ts@.subrange(0, ts@.len() as int) =~= ts@);
    c
}

/// The counts of `snapshot` (see `percentile95`, `retries_sum`,
/// `looping_tasks`): its 95th-percentile latency, its retries, its breaker
/// trips and the tasks delegated more than once.
pub fn policy_signal_counts(snapshot: &TelemetryCollectorSnapshot) -> (r: PolicySignalCounts)
    requires
        retries_sum(retry_counts(*snapshot)) <= u64::MAX,
    ensures
        latencies(*snapshot).len() == 0 ==> r.latency_p95_ms == 0,
        latencies(*snapshot).len() > 0 ==> r.latency_p95_ms == ascending(latencies(*snapshot))[p95_index(
            latencies(*snapshot).len(),
        )],
        r.retries_total == retries_sum(retry_counts(*snapshot)),
        r.breaker_hits == snapshot.breaker_trips@.len(),
        r.delegation_loops == looping_tasks(snapshot.delegation_traces@, snapshot.delegation_traces@.len() as int),
{
    let mut lat: Vec<u64> = Vec::new();
    let mut i: usize = 0;
    while i < snapshot.latency_samples.len()
        invariant
            i <= snapshot.latency_samples@.len(),
            lat@ =~= latencies(*snapshot).subrange(0, i as int),
        decreases snapshot.latency_samples.len() - i,
    {
        lat.push(snapshot.latency_samples[i].latency_ms);
        i = i + 1;
    }
    assert(lat@ =~= latencies(*snapshot));
    let p95 = percentile95(&lat);

    let ghost rc = retry_counts(*snapshot);
    let mut total: u64 = 0;
    let mut j: usize = 0;
    while j < snapshot.retries.len()
        invariant
            j <= snapshot.retries@.len(),
            rc == retry_counts(*snapshot),
            retries_sum(rc) <= u64::MAX,
            total == retries_sum(rc.subrange(0, j as int)),
        decreases snapshot.retries.len() - j,
    {
        assert(rc.subrange(0, j + 1).drop_last() =~= rc.subrange(0, j as int));
        proof {
            lemma_retries_prefix(rc, j + 1);
        }
        total = total + snapshot.retries[j].retries as u64;
        j = j + 1;
    }
    assert(rc.subrange(0, rc.len() as int) =~= rc);

    let ts = &snapshot.delegation_traces;
    let mut loops: u64 = 0;
    let mut k: usize = 0;
    while k < ts.len()
        invariant
            k <= ts@.len(),
            loops == looping_tasks(ts@, k as int),
            loops <= k,
        decreases ts.len() - k,
    {
        let task = chars_of(ts[k].task_id.as_str());
        let mut first = ts[k].delegated;
        let mut m: usize = 0;
        while m < k
            invariant
                m <= k < ts@.len(),
                task@ == ts@[k as int].task_id@,
                first == (ts@[k as int].delegated && forall|q: int|
                    0 <= q < m ==> !(#[trigger] ts@[q].delegated && ts@[q].task_id@ == ts@[k as int].task_id@)),
            decreases k - m,
        {
            if ts[m].delegated && chars_eq(&chars_of(ts[m].task_id.as_str()), &task) {
                first = false;
            }
            m = m + 1;
        }
        if first && delegations_exec(ts, &task) > 1 {
            loops = loops + 1;
        }
        k = k + 1;
    }
    PolicySignalCounts {
        latency_p95_ms: p95,
        retries_total: total,
        breaker_hits: snapshot.breaker_trips.len() as u64,
        delegation_loops: loops,
    }
}

proof fn lemma_retries_prefix(rc: Seq<u32>, j: int)
    requires
        0 <= j <= rc.len(),
    ensures
        retries_sum(rc.subrange(0, j)) <= retries_sum(rc),
    decreases rc.len() - j,
{
    if j < rc.len() {
        lemma_retries_prefix(rc, j + 1);
        assert(rc.subrange(0, j + 1).drop_last() =~= rc.subrange(0, j));
    } else {
        assert(rc.subrange(0, j) =~= rc);
    }
}

} // verus!
