use rs_lb::health_monitor::TargetGroupHealthCheck;
use rs_lb::{
    HealthCheckStats, LoadBalancer, ListenerRule, ListenerRuleConfiguration, PoolPosition,
    ProbeOutcome, TargetGroupHealthCheckConfiguration,
};

fn config(failure_threshold: usize, success_threshold: usize) -> TargetGroupHealthCheckConfiguration {
    TargetGroupHealthCheckConfiguration {
        path: "/health".to_string(),
        enabled: true,
        timeout: 100,
        interval: 1000,
        success_threshold,
        failure_threshold,
    }
}

#[test]
fn new_stats_are_healthy_with_no_failures() {
    assert_eq!(HealthCheckStats::new_healthy(), HealthCheckStats::UnsuccessfulCheckCount(0));
}

#[test]
fn success_while_healthy_clamps_at_zero() {
    let mut s = HealthCheckStats::new_healthy();
    s.register_health_check(true);
    assert_eq!(s, HealthCheckStats::UnsuccessfulCheckCount(0));
    s.register_health_check(false);
    s.register_health_check(false);
    s.register_health_check(true);
    assert_eq!(s, HealthCheckStats::UnsuccessfulCheckCount(1));
}

#[test]
fn failure_while_unhealthy_clamps_at_zero() {
    let mut s = HealthCheckStats::SuccessfulCheckCount(0);
    s.register_health_check(false);
    assert_eq!(s, HealthCheckStats::SuccessfulCheckCount(0));
    s.register_health_check(true);
    s.register_health_check(true);
    s.register_health_check(false);
    assert_eq!(s, HealthCheckStats::SuccessfulCheckCount(1));
}

#[test]
fn counter_saturates_at_largest_value() {
    let mut s = HealthCheckStats::UnsuccessfulCheckCount(usize::MAX);
    s.register_health_check(false);
    assert_eq!(s, HealthCheckStats::UnsuccessfulCheckCount(usize::MAX));
}

#[test]
fn demoted_only_above_failure_threshold() {
    let mut s = HealthCheckStats::new_healthy();
    for _ in 0..3 {
        s.register_health_check(false);
        assert!(s.check_health(3, 5));
    }
    s.register_health_check(false);
    assert!(!s.check_health(3, 5));
    assert_eq!(s, HealthCheckStats::SuccessfulCheckCount(0));
}

#[test]
fn promoted_only_above_success_threshold() {
    let mut s = HealthCheckStats::SuccessfulCheckCount(0);
    for _ in 0..5 {
        s.register_health_check(true);
        assert!(!s.check_health(3, 5));
    }
    s.register_health_check(true);
    assert!(s.check_health(3, 5));
    assert_eq!(s, HealthCheckStats::UnsuccessfulCheckCount(0));
}

#[test]
fn isolated_successes_delay_demotion() {
    // Failures minus successes must exceed the threshold in one run.
    let mut s = HealthCheckStats::new_healthy();
    let outcomes = [false, false, true, false, false, true, false, false];
    let mut demoted_at = None;
    for (i, ok) in outcomes.iter().enumerate() {
        s.register_health_check(*ok);
        if !s.check_health(3, 5) {
            demoted_at = Some(i);
            break;
        }
    }
    assert_eq!(demoted_at, Some(7));
}

#[test]
fn mark_healthy_and_unhealthy_reset_counters() {
    let mut s = HealthCheckStats::UnsuccessfulCheckCount(2);
    s.mark_unhealthy();
    assert_eq!(s, HealthCheckStats::SuccessfulCheckCount(0));
    s.mark_healthy();
    assert_eq!(s, HealthCheckStats::UnsuccessfulCheckCount(0));
}

#[test]
fn pool_position_reports_queue() {
    assert!(PoolPosition::Healthy(3).in_healthy_queue());
    assert!(!PoolPosition::Unhealthy(3).in_healthy_queue());
}

#[test]
fn only_status_ok_is_a_successful_probe() {
    assert!(ProbeOutcome::Status(200).succeeded());
    assert!(!ProbeOutcome::Status(204).succeeded());
    assert!(!ProbeOutcome::Status(500).succeeded());
    assert!(!ProbeOutcome::TimedOut.succeeded());
    assert!(!ProbeOutcome::SendFailed.succeeded());
    assert!(!ProbeOutcome::NoConnection.succeeded());
    assert!(!ProbeOutcome::InvalidRequest.succeeded());
}

#[test]
fn group_starts_with_every_upstream_healthy() {
    let check: TargetGroupHealthCheck<(), &str, u8> =
        TargetGroupHealthCheck::new((), vec![10, 11, 12], &config(3, 5));
    assert_eq!(check.healthy_health_check_connection_pool.len(), 3);
    assert!(check.unhealthy_connection_pool.is_empty());
    assert!(check.unhealthy_health_check_connection_pool.is_empty());
    for (i, t) in check.healthy_health_check_connection_pool.iter().enumerate() {
        assert_eq!(t.connection_pool, 10 + i as u8);
        assert_eq!(t.pool_position, PoolPosition::Healthy(i));
        assert_eq!(t.health_check_stats, HealthCheckStats::UnsuccessfulCheckCount(0));
        assert_eq!(t.failure_threshold, 3);
        assert_eq!(t.success_threshold, 5);
    }
    assert_eq!(check.path, "/health");
    assert_eq!(check.timeout, 100);
    assert_eq!(check.interval, 1000);
}

#[test]
fn cycle_pause_fills_the_interval() {
    let check: TargetGroupHealthCheck<(), &str, u8> =
        TargetGroupHealthCheck::new((), vec![], &config(3, 5));
    assert_eq!(check.pause_after(300), 700);
    assert_eq!(check.pause_after(1000), 0);
    assert_eq!(check.pause_after(5000), 0);
}

#[test]
fn demotion_moves_pool_and_probe_target_together() {
    let mut source = vec!["a", "b", "c", "d"];
    let mut check: TargetGroupHealthCheck<(), &str, u8> =
        TargetGroupHealthCheck::new((), vec![0, 1, 2, 3], &config(0, 0));
    let outcomes = vec![
        ProbeOutcome::Status(500),
        ProbeOutcome::Status(200),
        ProbeOutcome::TimedOut,
        ProbeOutcome::Status(200),
    ];
    let demoted = check.check_healthy_connection_pools(&mut source, &outcomes);
    assert_eq!(demoted, vec![2, 0]);
    assert_eq!(source, vec!["b", "d"]);
    assert_eq!(check.unhealthy_connection_pool, vec!["c", "a"]);
    let healthy: Vec<u8> = check.healthy_health_check_connection_pool.iter().map(|t| t.connection_pool).collect();
    let unhealthy: Vec<u8> = check.unhealthy_health_check_connection_pool.iter().map(|t| t.connection_pool).collect();
    assert_eq!(healthy, vec![1, 3]);
    assert_eq!(unhealthy, vec![2, 0]);
    assert_eq!(check.unhealthy_health_check_connection_pool[0].pool_position, PoolPosition::Unhealthy(2));
    // Every pool is in exactly one list.
    let mut all: Vec<&str> = source.iter().chain(check.unhealthy_connection_pool.iter()).cloned().collect();
    all.sort();
    assert_eq!(all, vec!["a", "b", "c", "d"]);
}

#[test]
fn promotion_moves_pool_back_to_healthy_list() {
    let mut source = vec!["a", "b"];
    let mut check: TargetGroupHealthCheck<(), &str, u8> =
        TargetGroupHealthCheck::new((), vec![0, 1], &config(0, 1));
    check.check_healthy_connection_pools(&mut source, &vec![ProbeOutcome::SendFailed, ProbeOutcome::Status(200)]);
    assert_eq!(source, vec!["b"]);
    check.check_unhealthy_connection_pools(&mut source, &vec![ProbeOutcome::Status(200)]);
    assert_eq!(source, vec!["b"]);
    check.check_unhealthy_connection_pools(&mut source, &vec![ProbeOutcome::Status(200)]);
    assert_eq!(source, vec!["b", "a"]);
    assert!(check.unhealthy_connection_pool.is_empty());
    assert_eq!(check.healthy_health_check_connection_pool[1].pool_position, PoolPosition::Healthy(0));
}

#[test]
fn failing_upstream_is_demoted_then_promoted() {
    let mut source = vec!["A", "B", "C"];
    let mut check: TargetGroupHealthCheck<(), &str, u8> =
        TargetGroupHealthCheck::new((), vec![0, 1, 2], &config(3, 5));
    let rule = ListenerRule::from(ListenerRuleConfiguration {
        target_group: "g".to_string(),
        path_prefix: "/s".to_string(),
        path_rewrite: "/s".to_string(),
    });
    let mut lb: LoadBalancer<()> = LoadBalancer::new(vec![rule], vec![()], 1000);

    // A answers 500 more often than the failure threshold.
    for cycle in 0..4 {
        let outcomes = vec![ProbeOutcome::Status(500), ProbeOutcome::Status(200), ProbeOutcome::Status(200)];
        check.check_healthy_connection_pools(&mut source, &outcomes);
        if cycle < 3 {
            assert_eq!(source, vec!["A", "B", "C"]);
        }
    }
    assert_eq!(source, vec!["B", "C"]);
    assert_eq!(check.unhealthy_connection_pool, vec!["A"]);

    // Selection only reaches the remaining upstreams.
    let handler = &mut lb.listener_targets[0];
    let picked: Vec<&str> = (0..4).map(|_| source[handler.select(source.len()).unwrap()]).collect();
    assert_eq!(picked, vec!["B", "C", "B", "C"]);

    // A answers 200 more often than the success threshold.
    for cycle in 0..6 {
        check.check_healthy_connection_pools(&mut source, &vec![ProbeOutcome::Status(200); 2]);
        check.check_unhealthy_connection_pools(&mut source, &vec![ProbeOutcome::Status(200)]);
        if cycle < 5 {
            assert_eq!(source, vec!["B", "C"]);
        }
    }
    assert_eq!(source, vec!["B", "C", "A"]);
    assert!(check.unhealthy_connection_pool.is_empty());
}

#[test]
fn probe_target_follows_its_classification() {
    let mut t = rs_lb::HealthCheckTarget {
        connection_pool: (),
        health_check_stats: HealthCheckStats::new_healthy(),
        pool_position: PoolPosition::Healthy(4),
        success_threshold: 1,
        failure_threshold: 1,
    };
    assert!(t.register_probe(ProbeOutcome::Status(503)));
    assert!(!t.register_probe(ProbeOutcome::NoConnection));
    assert_eq!(t.pool_position, PoolPosition::Unhealthy(4));
    assert_eq!(t.health_check_stats, HealthCheckStats::SuccessfulCheckCount(0));
    assert!(!t.register_probe(ProbeOutcome::Status(200)));
    assert!(t.register_probe(ProbeOutcome::Status(200)));
    assert_eq!(t.pool_position, PoolPosition::Healthy(4));
    assert!(t.is_healthy());
}
