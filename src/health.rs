use vstd::prelude::*;

verus! {

/// Saturating increment of a probe counter.
pub open spec fn bump(n: usize) -> usize {
    if n == usize::MAX {
        n
    } else {
        (n + 1) as usize
    }
}

/// Decrement of a probe counter, clamped at zero.
pub open spec fn ease(n: usize) -> usize {
    if n == 0 {
        0
    } else {
        (n - 1) as usize
    }
}

/// Probe statistics of one upstream. The variant is its classification:
/// `UnsuccessfulCheckCount` while it is healthy (counting failures since the
/// last success), `SuccessfulCheckCount` while it is unhealthy (counting
/// successes since the last failure).
#[derive(Clone, Copy, Debug, PartialEq, Eq, Structural)]
pub enum HealthCheckStats {
    SuccessfulCheckCount(usize),
    UnsuccessfulCheckCount(usize),
}

impl HealthCheckStats {
    /// Whether these statistics classify the upstream as healthy.
    pub open spec fn healthy(self) -> bool {
        self is UnsuccessfulCheckCount
    }

    /// The statistics after one probe result is registered.
    pub open spec fn registered(self, is_successful: bool) -> HealthCheckStats {
        match self {
            HealthCheckStats::UnsuccessfulCheckCount(n) => if is_successful {
                HealthCheckStats::UnsuccessfulCheckCount(ease(n))
            } else {
                HealthCheckStats::UnsuccessfulCheckCount(bump(n))
            },
            HealthCheckStats::SuccessfulCheckCount(n) => if is_successful {
                HealthCheckStats::SuccessfulCheckCount(bump(n))
            } else {
                HealthCheckStats::SuccessfulCheckCount(ease(n))
            },
        }
    }

    /// The statistics after the thresholds are applied: a counter above its
    /// threshold flips the classification and starts the other counter at zero.
    pub open spec fn checked(self, failure_threshold: usize, success_threshold: usize) -> HealthCheckStats {
        match self {
            HealthCheckStats::UnsuccessfulCheckCount(n) => if n > failure_threshold {
                HealthCheckStats::SuccessfulCheckCount(0)
            } else {
                self
            },
            HealthCheckStats::SuccessfulCheckCount(n) => if n > success_threshold {
                HealthCheckStats::UnsuccessfulCheckCount(0)
            } else {
                self
            },
        }
    }

    /// Statistics of an upstream that starts out healthy.
    pub fn new_healthy() -> (r: Self)
        ensures
            r == HealthCheckStats::UnsuccessfulCheckCount(0),
    {
        HealthCheckStats::UnsuccessfulCheckCount(0)
    }

    /// Applies the thresholds and returns the resulting classification.
    pub fn check_health(&mut self, failure_threshold: usize, success_threshold: usize) -> (r: bool)
        ensures
            *final(self) == old(self).checked(failure_threshold, success_threshold),
            r == final(self).healthy(),
    {
        match *self {
            HealthCheckStats::UnsuccessfulCheckCount(count) => {
                if count > failure_threshold {
                    self.mark_unhealthy();
                    false
                } else {
                    true
                }
            },
            HealthCheckStats::SuccessfulCheckCount(count) => {
                if count > success_threshold {
                    self.mark_healthy();
                    true
                } else {
                    false
                }
            },
        }
    }

    /// Classifies the upstream as unhealthy with no successes counted.
    pub fn mark_unhealthy(&mut self)
        ensures
            *final(self) == HealthCheckStats::SuccessfulCheckCount(0),
    {
        *self = HealthCheckStats::SuccessfulCheckCount(0);
    }

    /// Classifies the upstream as healthy with no failures counted.
    pub fn mark_healthy(&mut self)
        ensures
            *final(self) == HealthCheckStats::UnsuccessfulCheckCount(0),
    {
        *self = HealthCheckStats::UnsuccessfulCheckCount(0);
    }

    /// Counts one probe result: a result that agrees with the classification
    /// raises its counter, one that disagrees lowers it, never below zero.
    pub fn register_health_check(&mut self, is_successful: bool)
        ensures
            *final(self) == old(self).registered(is_successful),
    {
        let next = match *self {
            HealthCheckStats::UnsuccessfulCheckCount(count) => if is_successful {
                HealthCheckStats::UnsuccessfulCheckCount(if count == 0 { 0 } else { count - 1 })
            } else {
                HealthCheckStats::UnsuccessfulCheckCount(count.saturating_add(1))
            },
            HealthCheckStats::SuccessfulCheckCount(count) => if is_successful {
                HealthCheckStats::SuccessfulCheckCount(count.saturating_add(1))
            } else {
                HealthCheckStats::SuccessfulCheckCount(if count == 0 { 0 } else { count - 1 })
            },
        };
        *self = next;
    }
}


/// The statistics after one probe: its result is registered, then the
/// thresholds are applied.
pub open spec fn probe_step(
    stats: HealthCheckStats,
    is_successful: bool,
    failure_threshold: usize,
    success_threshold: usize,
) -> HealthCheckStats {
    stats.registered(is_successful).checked(failure_threshold, success_threshold)
}

/// The statistics after a sequence of probes, oldest result first.
pub open spec fn probe_run(
    stats: HealthCheckStats,
    outcomes: Seq<bool>,
    failure_threshold: usize,
    success_threshold: usize,
) -> HealthCheckStats
    decreases outcomes.len(),
{
    if outcomes.len() == 0 {
        stats
    } else {
        probe_step(
            probe_run(stats, outcomes.drop_last(), failure_threshold, success_threshold),
            outcomes.last(),
            failure_threshold,
            success_threshold,
        )
    }
}

/// Failures minus successes in a sequence of probe results.
pub open spec fn failure_surplus(outcomes: Seq<bool>) -> int
    decreases outcomes.len(),
{
    if outcomes.len() == 0 {
        0
    } else {
        failure_surplus(outcomes.drop_last()) + if outcomes.last() {
            -1int
        } else {
            1int
        }
    }
}

/// The largest failure surplus of a run of results that ends with the last
/// one (zero for the empty run).
pub open spec fn worst_failure_run(outcomes: Seq<bool>) -> int
    decreases outcomes.len(),
{
    if outcomes.len() == 0 {
        0
    } else {
        let w = worst_failure_run(outcomes.drop_last()) + if outcomes.last() {
            -1int
        } else {
            1int
        };
        if w > 0 {
            w
        } else {
            0
        }
    }
}

proof fn lemma_worst_run_is_a_suffix(outcomes: Seq<bool>)
    ensures
        exists|i: int|
            0 <= i <= outcomes.len() && failure_surplus(outcomes.subrange(i, outcomes.len() as int))
                == worst_failure_run(outcomes),
    decreases outcomes.len(),
{
    let n = outcomes.len() as int;
    if n == 0 {
        assert(outcomes.subrange(0, 0).len() == 0);
    } else {
        let p = outcomes.drop_last();
        lemma_worst_run_is_a_suffix(p);
        let i = choose|i: int|
            0 <= i <= p.len() && failure_surplus(p.subrange(i, p.len() as int)) == worst_failure_run(p);
        let w = worst_failure_run(p) + if outcomes.last() {
            -1int
        } else {
            1int
        };
        if w > 0 {
            let t = outcomes.subrange(i, n);
            assert(t.drop_last() =~= p.subrange(i, p.len() as int));
            assert(t.last() == outcomes.last());
            assert(failure_surplus(t) == worst_failure_run(outcomes));
        } else {
            assert(outcomes.subrange(n, n).len() == 0);
            assert(failure_surplus(outcomes.subrange(n, n)) == worst_failure_run(outcomes));
        }
    }
}

proof fn lemma_failures_within_worst_run(outcomes: Seq<bool>, failure_threshold: usize, success_threshold: usize)
    requires
        forall|k: int|
            0 <= k <= outcomes.len() ==> (#[trigger] probe_run(
                HealthCheckStats::UnsuccessfulCheckCount(0),
                outcomes.take(k),
                failure_threshold,
                success_threshold,
            )).healthy(),
    ensures
        probe_run(HealthCheckStats::UnsuccessfulCheckCount(0), outcomes, failure_threshold, success_threshold) matches
            HealthCheckStats::UnsuccessfulCheckCount(c) && c <= worst_failure_run(outcomes),
    decreases outcomes.len(),
{
    let fresh = HealthCheckStats::UnsuccessfulCheckCount(0);
    let n = outcomes.len() as int;
    assert(outcomes.take(n) =~= outcomes);
    if n > 0 {
        let p = outcomes.drop_last();
        assert forall|k: int| 0 <= k <= p.len() implies (#[trigger] probe_run(
            fresh,
            p.take(k),
            failure_threshold,
            success_threshold,
        )).healthy() by {
            assert(p.take(k) =~= outcomes.take(k));
        }
        lemma_failures_within_worst_run(p, failure_threshold, success_threshold);
    }
}

/// An upstream that has stayed healthy since it was last classified healthy
/// is demoted only by a probe that ends a run of results in which failures
/// outnumber successes by more than the failure threshold.
pub proof fn lemma_demotion_needs_failure_run(
    outcomes: Seq<bool>,
    failure_threshold: usize,
    success_threshold: usize,
)
    requires
        outcomes.len() > 0,
        forall|k: int|
            0 <= k < outcomes.len() ==> (#[trigger] probe_run(
                HealthCheckStats::UnsuccessfulCheckCount(0),
                outcomes.take(k),
                failure_threshold,
                success_threshold,
            )).healthy(),
        !probe_run(
            HealthCheckStats::UnsuccessfulCheckCount(0),
            outcomes,
            failure_threshold,
            success_threshold,
        ).healthy(),
    ensures
        exists|i: int|
            0 <= i < outcomes.len() && failure_surplus(outcomes.subrange(i, outcomes.len() as int))
                > failure_threshold,
{
    let fresh = HealthCheckStats::UnsuccessfulCheckCount(0);
    let n = outcomes.len() as int;
    let p = outcomes.drop_last();
    assert forall|k: int| 0 <= k <= p.len() implies (#[trigger] probe_run(
        fresh,
        p.take(k),
        failure_threshold,
        success_threshold,
    )).healthy() by {
        assert(p.take(k) =~= outcomes.take(k));
    }
    lemma_failures_within_worst_run(p, failure_threshold, success_threshold);
    lemma_worst_run_is_a_suffix(outcomes);
    let i = choose|i: int|
        0 <= i <= n && failure_surplus(outcomes.subrange(i, n)) == worst_failure_run(outcomes);
    assert(worst_failure_run(outcomes) > failure_threshold);
    assert(i < n) by {
        if i == n {
            assert(outcomes.subrange(n, n).len() == 0);
        }
    }
}


/// `n` failed probes in a row.
pub open spec fn failures(n: nat) -> Seq<bool> {
    Seq::new(n, |i: int| false)
}

proof fn lemma_failures_count_up(start: usize, j: nat, failure_threshold: usize, success_threshold: usize)
    requires
        failure_threshold < usize::MAX,
    ensures
        probe_run(HealthCheckStats::UnsuccessfulCheckCount(start), failures(j), failure_threshold, success_threshold)
            == HealthCheckStats::SuccessfulCheckCount(0) || (probe_run(
            HealthCheckStats::UnsuccessfulCheckCount(start),
            failures(j),
            failure_threshold,
            success_threshold,
        ) matches HealthCheckStats::UnsuccessfulCheckCount(c) && c >= j),
    decreases j,
{
    if j > 0 {
        assert(failures(j).drop_last() =~= failures((j - 1) as nat));
        lemma_failures_count_up(start, (j - 1) as nat, failure_threshold, success_threshold);
    }
}

/// A healthy upstream whose probes fail more than `failure_threshold` times
/// in a row is unhealthy at the end of that run, whatever its counter was.
pub proof fn lemma_failure_run_demotes(start: usize, n: nat, failure_threshold: usize, success_threshold: usize)
    requires
        n > failure_threshold,
        failure_threshold < usize::MAX,
    ensures
        !probe_run(HealthCheckStats::UnsuccessfulCheckCount(start), failures(n), failure_threshold, success_threshold).healthy(),
{
    assert(failures(n).drop_last() =~= failures((n - 1) as nat));
    lemma_failures_count_up(start, n, failure_threshold, success_threshold);
}

} // verus!
