use rs_lb::load_balancer::{forward_status_of, match_key_of, rewrite_path_and_query, NOT_FOUND, SERVICE_UNAVAILABLE};
use rs_lb::{
    ForwardOutcome, ListenerRule, ListenerRuleConfiguration, LoadBalancer, RoundRobin, UpstreamResponse,
};

fn rule(group: &str, prefix: &str, rewrite: &str) -> ListenerRule {
    ListenerRule::from(ListenerRuleConfiguration {
        target_group: group.to_string(),
        path_prefix: prefix.to_string(),
        path_rewrite: rewrite.to_string(),
    })
}

fn balancer(rules: Vec<ListenerRule>) -> LoadBalancer<String> {
    let groups = rules.iter().map(|r| r.target_group.clone()).collect();
    LoadBalancer::new(rules, groups, 60000)
}

#[test]
fn rule_paths_take_canonical_form() {
    let r = rule("g", "/api/", "api");
    assert_eq!(r.target_group, "g");
    assert_eq!(r.path_prefix, "/api");
    assert_eq!(r.path_rewrite, "/api");
    let r = rule("g", "", "///");
    assert_eq!(r.path_prefix, "/");
    assert_eq!(r.path_rewrite, "/");
    let r = rule("g", "//a/b//", "");
    assert_eq!(r.path_prefix, "/a/b");
}

#[test]
fn match_keys_end_in_one_slash() {
    assert_eq!(match_key_of("/api"), "/api/");
    assert_eq!(match_key_of("/api//"), "/api/");
    assert_eq!(match_key_of("/"), "/");
}

#[test]
fn keys_are_sorted_descending() {
    let lb = balancer(vec![rule("x", "/a", ""), rule("y", "/c", ""), rule("z", "/a/b", "")]);
    assert_eq!(lb.prefixes, vec!["/c/", "/a/b/", "/a/"]);
    assert_eq!(lb.prefix_targets, vec![1, 2, 0]);
    assert!(lb.cache.is_none());
}

#[test]
fn longest_prefix_wins() {
    let lb = balancer(vec![rule("short", "/a", "/a"), rule("long", "/a/b", "/a/b")]);
    let i = lb.match_uri("/a/b/x").unwrap();
    assert_eq!(lb.listener_targets[i].connection_pool, "long");
    let i = lb.match_uri("/a/c").unwrap();
    assert_eq!(lb.listener_targets[i].connection_pool, "short");
}

#[test]
fn prefix_matches_whole_segments_only() {
    let lb = balancer(vec![rule("api", "/api", "/api")]);
    assert_eq!(lb.match_uri("/api/x"), Some(0));
    assert_eq!(lb.match_uri("/apiary"), None);
    assert_eq!(lb.match_uri("/other"), None);
}

#[test]
fn root_rule_matches_everything() {
    let lb = balancer(vec![rule("root", "/", ""), rule("s", "/s", "/s")]);
    assert_eq!(lb.match_uri("/s/x"), Some(1));
    assert_eq!(lb.match_uri("/anything"), Some(0));
}

#[test]
fn no_rules_match_nothing() {
    let lb = balancer(vec![]);
    assert_eq!(lb.match_uri("/x"), None);
    assert_eq!(NOT_FOUND, 404);
}

#[test]
fn rewrite_strips_prefix_without_graft() {
    assert_eq!(rewrite_path_and_query("/s/foo", None, "/s", ""), "/foo");
}

#[test]
fn rewrite_grafts_uri_and_keeps_query() {
    assert_eq!(rewrite_path_and_query("/p/x", Some("y=1"), "/p", "api/v1"), "/api/v1/x?y=1");
}

#[test]
fn rewrite_with_default_rewrite_keeps_path() {
    let r = rule("g", "/s", "");
    assert_eq!(rewrite_path_and_query("/s/foo", Some("a=b&c"), &r.path_rewrite, ""), "/s/foo?a=b&c");
}

#[test]
fn rewrite_trims_extra_leading_slashes() {
    assert_eq!(rewrite_path_and_query("/s//foo", None, "/s", "up"), "/up/foo");
    assert_eq!(rewrite_path_and_query("/s", None, "/s", ""), "/");
}

#[test]
fn handler_rewrite_refuses_foreign_path() {
    let lb = balancer(vec![rule("g", "/s", "/t")]);
    let h = &lb.listener_targets[0];
    assert_eq!(h.rewrite("/s/x", None, ""), None);
    assert_eq!(h.rewrite("/t/x", Some("q"), "g"), Some("/g/x?q".to_string()));
}

#[test]
fn two_targets_alternate() {
    let mut lb = balancer(vec![rule("g", "/s", "/s")]);
    let i = lb.match_uri("/s/foo").unwrap();
    let targets = ["t1", "t2"];
    let mut seen = Vec::new();
    for _ in 0..4 {
        let h = &mut lb.listener_targets[i];
        let pick = h.select(targets.len()).unwrap();
        let path = h.rewrite("/s/foo", None, "").unwrap();
        seen.push((targets[pick], path));
    }
    assert_eq!(
        seen,
        vec![
            ("t1", "/foo".to_string()),
            ("t2", "/foo".to_string()),
            ("t1", "/foo".to_string()),
            ("t2", "/foo".to_string()),
        ]
    );
}

#[test]
fn single_target_with_graft() {
    let mut lb = balancer(vec![rule("g", "/p", "/p")]);
    let i = lb.match_uri("/p/x").unwrap();
    let h = &mut lb.listener_targets[i];
    assert_eq!(h.select(1), Some(0));
    assert_eq!(h.rewrite("/p/x", Some("y=1"), "api/v1"), Some("/api/v1/x?y=1".to_string()));
}

#[test]
fn empty_healthy_list_is_unavailable() {
    let mut lb = balancer(vec![rule("g", "/s", "/s")]);
    assert_eq!(lb.listener_targets[0].select(0), None);
    assert_eq!(SERVICE_UNAVAILABLE, 503);
}

#[test]
fn round_robin_covers_every_index_once_per_window() {
    let mut rr = RoundRobin::new();
    let mut picks: Vec<usize> = (0..5).map(|_| rr.next_wrapping(5)).collect();
    assert_eq!(picks, vec![0, 1, 2, 3, 4]);
    picks = (0..3).map(|_| rr.next_wrapping(3)).collect();
    picks.sort();
    assert_eq!(picks, vec![0, 1, 2]);
}

#[test]
fn forward_failures_map_to_statuses() {
    assert_eq!(forward_status_of(&ForwardOutcome::PoolUnavailable), 500);
    assert_eq!(forward_status_of(&ForwardOutcome::TimedOut), 504);
    assert_eq!(forward_status_of(&ForwardOutcome::SendFailed), 502);
    assert_eq!(forward_status_of(&ForwardOutcome::Responded(UpstreamResponse::empty(201))), 201);
}

#[test]
fn slow_upstream_gives_gateway_timeout() {
    let mut lb = balancer(vec![rule("g", "/s", "/s")]).with_cache(1000);
    assert_eq!(lb.listener_targets[0].connection_timeout, 60000);
    let r = lb.complete_forward("/s/slow", ForwardOutcome::TimedOut, 0);
    assert_eq!(r.status, 504);
    assert!(r.body.is_empty());
    assert!(lb.cached_response("/s/slow", 1).is_none());
}
