use vstd::prelude::*;

use crate::config::TargetGroupHealthCheckConfiguration;
use crate::health::HealthCheckStats;
use crate::partition::{flagged_positions, kept, lemma_migration_keeps_every_pool, migrate, positions, taken_desc};

verus! {

/// Which list of its group an upstream is in, with its position in the
/// group's initial list of upstreams.
#[derive(Clone, Copy, Debug, PartialEq, Eq, Structural)]
pub enum PoolPosition {
    Healthy(usize),
    Unhealthy(usize),
}

impl PoolPosition {
    /// The upstream's position in its group's initial list.
    pub open spec fn ordinal(self) -> usize {
        match self {
            PoolPosition::Healthy(i) => i,
            PoolPosition::Unhealthy(i) => i,
        }
    }

    /// Whether the upstream is in its group's healthy list.
    pub fn in_healthy_queue(&self) -> (r: bool)
        ensures
            r == (*self is Healthy),
    {
        match self {
            PoolPosition::Healthy(_) => true,
            PoolPosition::Unhealthy(_) => false,
        }
    }
}

/// What became of one health probe.
#[derive(Clone, Copy, Debug, PartialEq, Eq, Structural)]
pub enum ProbeOutcome {
    /// The upstream answered with this status code.
    Status(u16),
    /// The probe request could not be built from the configured path.
    InvalidRequest,
    /// No probe connection could be had.
    NoConnection,
    /// Sending the probe or reading its answer failed.
    SendFailed,
    /// The deadline passed before an answer came.
    TimedOut,
}

impl ProbeOutcome {
    /// Only an answer `200 OK` counts as a successful probe.
    pub open spec fn is_success(self) -> bool {
        self == ProbeOutcome::Status(200)
    }

    /// Whether the probe counts as a success.
    pub fn succeeded(&self) -> (r: bool)
        ensures
            r == self.is_success(),
    {
        match self {
            ProbeOutcome::Status(code) => *code == 200,
            _ => false,
        }
    }
}

/// One upstream as the health monitor sees it: its own probe connection
/// (of type `C`), its statistics, its place and its thresholds.
pub struct HealthCheckTarget<C> {
    pub connection_pool: C,
    pub health_check_stats: HealthCheckStats,
    pub pool_position: PoolPosition,
    pub success_threshold: usize,
    pub failure_threshold: usize,
}

impl<C> HealthCheckTarget<C> {
    /// The target after one probe: the outcome is counted, the thresholds
    /// applied, and the position follows the resulting classification.
    pub open spec fn after_probe(self, outcome: ProbeOutcome) -> HealthCheckTarget<C> {
        let stats = self.health_check_stats.registered(outcome.is_success()).checked(
            self.failure_threshold,
            self.success_threshold,
        );
        HealthCheckTarget {
            connection_pool: self.connection_pool,
            health_check_stats: stats,
            pool_position: if stats.healthy() {
                PoolPosition::Healthy(self.pool_position.ordinal())
            } else {
                PoolPosition::Unhealthy(self.pool_position.ordinal())
            },
            success_threshold: self.success_threshold,
            failure_threshold: self.failure_threshold,
        }
    }

    /// Position and classification agree, and both say `healthy`.
    pub open spec fn placed(self, healthy: bool) -> bool {
        &&& self.health_check_stats.healthy() == healthy
        &&& (self.pool_position is Healthy) == healthy
    }

    fn update_pool_position(&mut self, pool_position: PoolPosition) -> (r: PoolPosition)
        ensures
            r == old(self).pool_position,
            final(self).pool_position == pool_position,
            final(self).connection_pool == old(self).connection_pool,
            final(self).health_check_stats == old(self).health_check_stats,
            final(self).success_threshold == old(self).success_threshold,
            final(self).failure_threshold == old(self).failure_threshold,
    {
        let previous = self.pool_position;
        self.pool_position = pool_position;
        previous
    }

    /// Applies the thresholds and returns the resulting classification.
    pub fn is_healthy(&mut self) -> (r: bool)
        ensures
            final(self).health_check_stats == old(self).health_check_stats.checked(
                old(self).failure_threshold,
                old(self).success_threshold,
            ),
            r == final(self).health_check_stats.healthy(),
            final(self).connection_pool == old(self).connection_pool,
            final(self).pool_position == old(self).pool_position,
            final(self).success_threshold == old(self).success_threshold,
            final(self).failure_threshold == old(self).failure_threshold,
    {
        let failure_threshold = self.failure_threshold;
        let success_threshold = self.success_threshold;
        self.health_check_stats.check_health(failure_threshold, success_threshold)
    }

    /// Counts one probe outcome, classifies the upstream and records the
    /// list it belongs in; returns whether it is healthy.
    pub fn register_probe(&mut self, outcome: ProbeOutcome) -> (r: bool)
        ensures
            *final(self) == old(self).after_probe(outcome),
            r == final(self).health_check_stats.healthy(),
    {
        let ok = outcome.succeeded();
        self.health_check_stats.register_health_check(ok);
        let healthy = self.is_healthy();
        let ordinal = match self.pool_position {
            PoolPosition::Healthy(i) => i,
            PoolPosition::Unhealthy(i) => i,
        };
        if healthy {
            self.update_pool_position(PoolPosition::Healthy(ordinal));
        } else {
            self.update_pool_position(PoolPosition::Unhealthy(ordinal));
        }
        healthy
    }
}

/// The health checks of one target group. `S` is the shared handle on the
/// group's healthy list of pools (of type `P`) that selection reads; the
/// demotion and promotion passes are handed that list itself. The unhealthy
/// pools are kept here, and each list of pools has a parallel list of probe
/// targets (with probe connections of type `C`).
pub struct TargetGroupHealthCheck<S, P, C> {
    pub source_connection_pool: S,
    pub unhealthy_connection_pool: Vec<P>,
    pub healthy_health_check_connection_pool: Vec<HealthCheckTarget<C>>,
    pub unhealthy_health_check_connection_pool: Vec<HealthCheckTarget<C>>,
    pub timeout: u64,
    pub path: String,
    pub interval: u64,
}

/// Every target of `targets` is in the list that `healthy` names, by
/// position and by classification.
pub open spec fn all_placed<C>(targets: Seq<HealthCheckTarget<C>>, healthy: bool) -> bool {
    forall|i: int| 0 <= i < targets.len() ==> (#[trigger] targets[i]).placed(healthy)
}

/// Each target after its own probe outcome.
pub open spec fn probed<C>(targets: Seq<HealthCheckTarget<C>>, outcomes: Seq<ProbeOutcome>) -> Seq<HealthCheckTarget<C>> {
    Seq::new(targets.len(), |i: int| targets[i].after_probe(outcomes[i]))
}

/// For each target, whether its classification is `healthy`.
pub open spec fn classified<C>(targets: Seq<HealthCheckTarget<C>>, healthy: bool) -> Seq<bool> {
    Seq::new(targets.len(), |i: int| targets[i].health_check_stats.healthy() == healthy)
}

proof fn lemma_kept_all<T>(s: Seq<T>, flags: Seq<bool>, pred: spec_fn(T) -> bool)
    requires
        flags.len() == s.len(),
        forall|i: int| 0 <= i < s.len() && !flags[i] ==> pred(s[i]),
    ensures
        forall|i: int| 0 <= i < kept(s, flags).len() ==> pred(#[trigger] kept(s, flags)[i]),
    decreases s.len(),
{
    if s.len() > 0 {
        let p = s.drop_last();
        lemma_kept_all(p, flags.drop_last(), pred);
        lemma_kept_flags_prefix(p, flags);
    }
}

proof fn lemma_kept_flags_prefix<T>(s: Seq<T>, flags: Seq<bool>)
    requires
        s.len() < flags.len(),
    ensures
        kept(s, flags) == kept(s, flags.drop_last()),
        taken_desc(s, flags) == taken_desc(s, flags.drop_last()),
    decreases s.len(),
{
    if s.len() > 0 {
        lemma_kept_flags_prefix(s.drop_last(), flags);
    }
}

proof fn lemma_taken_all<T>(s: Seq<T>, flags: Seq<bool>, pred: spec_fn(T) -> bool)
    requires
        flags.len() == s.len(),
        forall|i: int| 0 <= i < s.len() && flags[i] ==> pred(s[i]),
    ensures
        forall|i: int| 0 <= i < taken_desc(s, flags).len() ==> pred(#[trigger] taken_desc(s, flags)[i]),
    decreases s.len(),
{
    if s.len() > 0 {
        let p = s.drop_last();
        lemma_taken_all(p, flags.drop_last(), pred);
        lemma_kept_flags_prefix(p, flags);
    }
}

proof fn lemma_split_lengths<T, U>(s: Seq<T>, t: Seq<U>, flags: Seq<bool>)
    requires
        s.len() == t.len(),
    ensures
        kept(s, flags).len() == kept(t, flags).len(),
        taken_desc(s, flags).len() == taken_desc(t, flags).len(),
    decreases s.len(),
{
    if s.len() > 0 {
        lemma_split_lengths(s.drop_last(), t.drop_last(), flags);
    }
}

/// Counts each target's probe outcome and classifies it; returns, for each
/// target, whether its classification is now `healthy`.
fn register_probes<C>(targets: &mut Vec<HealthCheckTarget<C>>, outcomes: &Vec<ProbeOutcome>, healthy: bool) -> (r: Vec<bool>)
    requires
        outcomes@.len() == old(targets)@.len(),
    ensures
        final(targets)@ == probed(old(targets)@, outcomes@),
        r@ == classified(final(targets)@, healthy),
{
    let ghost start = targets@;
    let n = targets.len();
    let mut flags: Vec<bool> = Vec::new();
    let mut i: usize = 0;
    while i < n
        invariant
            n == start.len(),
            outcomes@.len() == n,
            i <= n,
            targets@.len() == n,
            forall|j: int| 0 <= j < i ==> #[trigger] targets@[j] == start[j].after_probe(outcomes@[j]),
            forall|j: int| i <= j < n ==> #[trigger] targets@[j] == start[j],
            flags@.len() == i,
            forall|j: int| 0 <= j < i ==> #[trigger] flags@[j] == (targets@[j].health_check_stats.healthy() == healthy),
        decreases n - i,
    {
        let now_healthy = targets[i].register_probe(outcomes[i]);
        flags.push(now_healthy == healthy);
        i = i + 1;
    }
    assert(targets@ =~= probed(start, outcomes@));
    assert(flags@ =~= classified(targets@, healthy));
    flags
}

proof fn lemma_after_probe_placed<C>(u: Seq<HealthCheckTarget<C>>, start: Seq<HealthCheckTarget<C>>, outcomes: Seq<ProbeOutcome>, healthy: bool)
    requires
        start.len() == outcomes.len(),
        u == probed(start, outcomes),
    ensures
        all_placed(kept(u, classified(u, !healthy)), healthy),
        all_placed(taken_desc(u, classified(u, !healthy)), !healthy),
{
    let f = classified(u, !healthy);
    lemma_kept_all(u, f, |t: HealthCheckTarget<C>| t.placed(healthy));
    lemma_taken_all(u, f, |t: HealthCheckTarget<C>| t.placed(!healthy));
}

impl<S, P, C> TargetGroupHealthCheck<S, P, C> {
    /// The probe lists run parallel to the pool lists, and every target sits
    /// in the list that its classification names. `healthy_len` is the length
    /// of the group's healthy list of pools.
    pub open spec fn wf(self, healthy_len: nat) -> bool {
        &&& self.healthy_health_check_connection_pool@.len() == healthy_len
        &&& self.unhealthy_health_check_connection_pool@.len() == self.unhealthy_connection_pool@.len()
        &&& all_placed(self.healthy_health_check_connection_pool@, true)
        &&& all_placed(self.unhealthy_health_check_connection_pool@, false)
    }

    /// Starts with every upstream healthy: `probes[i]` is the probe
    /// connection of the group's `i`-th pool.
    /// Counts one probe outcome for each healthy upstream (`outcomes[i]` for
    /// the `i`-th) and moves those now classified unhealthy, pool and probe
    /// target together, to the ends of the unhealthy lists, taking them by
    /// descending position. Returns the positions that were moved, highest
    /// first.
    pub fn check_healthy_connection_pools(&mut self, source: &mut Vec<P>, outcomes: &Vec<ProbeOutcome>) -> (r: Vec<usize>)
        requires
            old(self).wf(old(source)@.len()),
            outcomes@.len() == old(source)@.len(),
        ensures
            ({
                let u = probed(old(self).healthy_health_check_connection_pool@, outcomes@);
                let f = classified(u, false);
                &&& final(source)@ == kept(old(source)@, f)
                &&& final(self).unhealthy_connection_pool@ == old(self).unhealthy_connection_pool@
                    + taken_desc(old(source)@, f)
                &&& final(self).healthy_health_check_connection_pool@ == kept(u, f)
                &&& final(self).unhealthy_health_check_connection_pool@
                    == old(self).unhealthy_health_check_connection_pool@ + taken_desc(u, f)
                &&& r@ == taken_desc(positions(u.len()), f)
            }),
            (final(source)@ + final(self).unhealthy_connection_pool@).to_multiset() == (old(source)@
                + old(self).unhealthy_connection_pool@).to_multiset(),
            final(self).wf(final(source)@.len()),
            final(self).source_connection_pool == old(self).source_connection_pool,
            final(self).timeout == old(self).timeout,
            final(self).interval == old(self).interval,
            final(self).path == old(self).path,
    {
        let ghost old_unhealthy = self.unhealthy_health_check_connection_pool@;
        let ghost old_source = source@;
        let flags = register_probes(&mut self.healthy_health_check_connection_pool, outcomes, false);
        let ghost u = self.healthy_health_check_connection_pool@;
        let demoted = flagged_positions(&flags);
        migrate(source, &mut self.unhealthy_connection_pool, &flags);
        migrate(&mut self.healthy_health_check_connection_pool, &mut self.unhealthy_health_check_connection_pool, &flags);
        proof {
            lemma_migration_keeps_every_pool(old_source, old(self).unhealthy_connection_pool@, flags@);
            lemma_split_lengths(old_source, u, flags@);
            lemma_after_probe_placed(u, old(self).healthy_health_check_connection_pool@, outcomes@, true);
            let moved = taken_desc(u, flags@);
            assert forall|i: int| 0 <= i < self.unhealthy_health_check_connection_pool@.len() implies
                (#[trigger] self.unhealthy_health_check_connection_pool@[i]).placed(false) by {
                if i >= old_unhealthy.len() {
                    assert(self.unhealthy_health_check_connection_pool@[i] == moved[i - old_unhealthy.len()]);
                }
            }
        }
        demoted
    }

    /// Counts one probe outcome for each unhealthy upstream (`outcomes[i]`
    /// for the `i`-th) and moves those now classified healthy, pool and probe
    /// target together, to the ends of the healthy lists, taking them by
    /// descending position.
    pub fn check_unhealthy_connection_pools(&mut self, source: &mut Vec<P>, outcomes: &Vec<ProbeOutcome>)
        requires
            old(self).wf(old(source)@.len()),
            outcomes@.len() == old(self).unhealthy_connection_pool@.len(),
        ensures
            ({
                let u = probed(old(self).unhealthy_health_check_connection_pool@, outcomes@);
                let f = classified(u, true);
                &&& final(self).unhealthy_connection_pool@ == kept(old(self).unhealthy_connection_pool@, f)
                &&& final(source)@ == old(source)@ + taken_desc(old(self).unhealthy_connection_pool@, f)
                &&& final(self).unhealthy_health_check_connection_pool@ == kept(u, f)
                &&& final(self).healthy_health_check_connection_pool@
                    == old(self).healthy_health_check_connection_pool@ + taken_desc(u, f)
            }),
            (final(source)@ + final(self).unhealthy_connection_pool@).to_multiset() == (old(source)@
                + old(self).unhealthy_connection_pool@).to_multiset(),
            final(self).wf(final(source)@.len()),
            final(self).source_connection_pool == old(self).source_connection_pool,
            final(self).timeout == old(self).timeout,
            final(self).interval == old(self).interval,
            final(self).path == old(self).path,
    {
        let ghost old_healthy = self.healthy_health_check_connection_pool@;
        let ghost old_pools = self.unhealthy_connection_pool@;
        let flags = register_probes(&mut self.unhealthy_health_check_connection_pool, outcomes, true);
        let ghost u = self.unhealthy_health_check_connection_pool@;
        migrate(&mut self.unhealthy_connection_pool, source, &flags);
        migrate(&mut self.unhealthy_health_check_connection_pool, &mut self.healthy_health_check_connection_pool, &flags);
        proof {
            broadcast use vstd::seq_lib::lemma_multiset_commutative;
            broadcast use vstd::multiset::group_multiset_axioms;

            lemma_migration_keeps_every_pool(old_pools, old(source)@, flags@);
            assert((source@ + self.unhealthy_connection_pool@).to_multiset() =~= (
            self.unhealthy_connection_pool@ + source@).to_multiset());
            assert((old(source)@ + old_pools).to_multiset() =~= (old_pools + old(source)@).to_multiset());
            lemma_split_lengths(old_pools, u, flags@);
            lemma_after_probe_placed(u, old(self).unhealthy_health_check_connection_pool@, outcomes@, false);
            let moved = taken_desc(u, flags@);
            assert forall|i: int| 0 <= i < self.healthy_health_check_connection_pool@.len() implies
                (#[trigger] self.healthy_health_check_connection_pool@[i]).placed(true) by {
                if i >= old_healthy.len() {
                    assert(self.healthy_health_check_connection_pool@[i] == moved[i - old_healthy.len()]);
                }
            }
        }
    }

    /// How long to wait before the next cycle when this one took `elapsed`
    /// milliseconds, so that cycles start at least `interval` apart.
    pub fn pause_after(&self, elapsed: u64) -> (r: u64)
        ensures
            r == if elapsed < self.interval {
                self.interval - elapsed
            } else {
                0
            },
    {
        if elapsed < self.interval {
            self.interval - elapsed
        } else {
            0
        }
    }

    pub fn new(
        source_connection_pool: S,
        probes: Vec<C>,
        health_check_configuration: &TargetGroupHealthCheckConfiguration,
    ) -> (r: Self)
        ensures
            r.wf(probes@.len()),
            r.source_connection_pool == source_connection_pool,
            r.unhealthy_connection_pool@.len() == 0,
            r.unhealthy_health_check_connection_pool@.len() == 0,
            forall|i: int|
                0 <= i < probes@.len() ==> #[trigger] r.healthy_health_check_connection_pool@[i]
                    == (HealthCheckTarget {
                    connection_pool: probes@[i],
                    health_check_stats: HealthCheckStats::UnsuccessfulCheckCount(0),
                    pool_position: PoolPosition::Healthy(i as usize),
                    success_threshold: health_check_configuration.success_threshold,
                    failure_threshold: health_check_configuration.failure_threshold,
                }),
            r.timeout == health_check_configuration.timeout,
            r.interval == health_check_configuration.interval,
            r.path@ == health_check_configuration.path@,
    {
        let ghost all = probes@;
        let mut probes = probes;
        let mut targets: Vec<HealthCheckTarget<C>> = Vec::new();
        let n = probes.len();
        let mut i: usize = 0;
        while i < n
            invariant
                n == all.len(),
                i <= n,
                probes@ == all.skip(i as int),
                targets@.len() == i,
                forall|j: int|
                    0 <= j < i ==> #[trigger] targets@[j] == (HealthCheckTarget {
                        connection_pool: all[j],
                        health_check_stats: HealthCheckStats::UnsuccessfulCheckCount(0),
                        pool_position: PoolPosition::Healthy(j as usize),
                        success_threshold: health_check_configuration.success_threshold,
                        failure_threshold: health_check_configuration.failure_threshold,
                    }),
            decreases n - i,
        {
            let probe = probes.remove(0);
            assert(probes@ =~= all.skip(i + 1));
            targets.push(
                HealthCheckTarget {
                    connection_pool: probe,
                    health_check_stats: HealthCheckStats::new_healthy(),
                    pool_position: PoolPosition::Healthy(i),
                    success_threshold: health_check_configuration.success_threshold,
                    failure_threshold: health_check_configuration.failure_threshold,
                },
            );
            i = i + 1;
        }
        TargetGroupHealthCheck {
            source_connection_pool,
            unhealthy_connection_pool: Vec::new(),
            healthy_health_check_connection_pool: targets,
            unhealthy_health_check_connection_pool: Vec::new(),
            timeout: health_check_configuration.timeout,
            path: health_check_configuration.path.clone(),
            interval: health_check_configuration.interval,
        }
    }
}

} // verus!
