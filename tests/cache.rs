use rs_lb::{
    CachedResponse, ForwardOutcome, ListenerRule, ListenerRuleConfiguration, LoadBalancer,
    RequestCache, Routing, UpstreamResponse,
};

fn response(status: u16, body: &[u8]) -> UpstreamResponse {
    UpstreamResponse {
        status,
        headers: vec![("content-type".to_string(), b"text/plain".to_vec())],
        body: body.to_vec(),
    }
}

#[test]
fn new_cache_is_empty() {
    let cache = RequestCache::new(1000);
    assert_eq!(cache.ttl(), 1000);
    assert!(cache.get("/a", 0).is_none());
}

#[test]
fn stored_response_comes_back_while_fresh() {
    let mut cache = RequestCache::new(1000);
    cache.set("/a?x=1", &response(200, b"payload"), 10);
    let got = cache.get("/a?x=1", 500).unwrap();
    assert_eq!(got.status, 200);
    assert_eq!(got.body, b"payload".to_vec());
    assert_eq!(got.headers, vec![("content-type".to_string(), b"text/plain".to_vec())]);
    assert!(cache.get("/a?x=2", 500).is_none());
    assert!(cache.get("/a", 500).is_none());
}

#[test]
fn entry_expires_after_ttl() {
    let mut cache = RequestCache::new(1000);
    cache.set("/a", &response(200, b"p"), 10);
    assert!(cache.get("/a", 1010).is_some());
    assert!(cache.get("/a", 1011).is_none());
}

#[test]
fn later_store_replaces_earlier() {
    let mut cache = RequestCache::new(1000);
    cache.set("/a", &response(200, b"old"), 0);
    cache.set("/a", &response(404, b"new"), 5);
    let got = cache.get("/a", 6).unwrap();
    assert_eq!(got.status, 404);
    assert_eq!(got.body, b"new".to_vec());
}

#[test]
fn cleanup_drops_only_expired_entries() {
    let mut cache = RequestCache::new(100);
    cache.set("/old", &response(200, b"o"), 0);
    cache.set("/new", &response(200, b"n"), 150);
    cache.cleanup(200);
    assert!(cache.get("/old", 0).is_none());
    assert_eq!(cache.get("/new", 200).unwrap().body, b"n".to_vec());
}

#[test]
fn cached_response_age_check() {
    let c = CachedResponse::new(response(200, b""), 100);
    assert_eq!(c.set_time, 100);
    assert!(!c.is_expired(150, 50));
    assert!(c.is_expired(151, 50));
    assert!(!c.is_expired(50, 0));
    assert!(c.is_fresh(150, 50));
    let d = c.duplicate();
    assert_eq!(d.set_time, 100);
    assert_eq!(d.inner.headers, c.inner.headers);
}

fn balancer() -> LoadBalancer<()> {
    let rule = ListenerRule::from(ListenerRuleConfiguration {
        target_group: "g".to_string(),
        path_prefix: "/s".to_string(),
        path_rewrite: "/s".to_string(),
    });
    LoadBalancer::new(vec![rule], vec![()], 60000)
}

#[test]
fn second_identical_get_is_served_from_cache() {
    let mut lb = balancer().with_cache(1000);
    let mut upstream_calls = 0;
    let mut serve = |lb: &mut LoadBalancer<()>, now: u64| -> UpstreamResponse {
        if let Some(r) = lb.cached_response("/s/foo", now) {
            return r;
        }
        upstream_calls += 1;
        let body = format!("call {}", upstream_calls).into_bytes();
        lb.complete_forward("/s/foo", ForwardOutcome::Responded(response(200, &body)), now)
    };
    let first = serve(&mut lb, 0);
    let second = serve(&mut lb, 400);
    assert_eq!(first.body, b"call 1".to_vec());
    assert_eq!(second.body, b"call 1".to_vec());
    let third = serve(&mut lb, 1500);
    assert_eq!(third.body, b"call 2".to_vec());
    assert_eq!(upstream_calls, 2);
}

#[test]
fn without_cache_nothing_is_stored() {
    let mut lb = balancer();
    let r = lb.complete_forward("/s/a", ForwardOutcome::Responded(response(200, b"x")), 0);
    assert_eq!(r.body, b"x".to_vec());
    assert!(lb.cached_response("/s/a", 0).is_none());
}

#[test]
fn failed_forwards_are_not_cached() {
    let mut lb = balancer().with_cache(1000);
    let r = lb.complete_forward("/s/a", ForwardOutcome::SendFailed, 0);
    assert_eq!(r.status, 502);
    let r = lb.complete_forward("/s/a", ForwardOutcome::PoolUnavailable, 0);
    assert_eq!(r.status, 500);
    assert!(lb.cached_response("/s/a", 0).is_none());
}

#[test]
fn routing_checks_cache_before_rules() {
    let mut lb = balancer().with_cache(1000);
    assert!(matches!(lb.handle_connection("/s/a", "/s/a", 0), Routing::Rule(0)));
    assert!(matches!(lb.handle_connection("/x", "/x", 0), Routing::NotFound));
    lb.complete_forward("/s/a", ForwardOutcome::Responded(response(200, b"hit")), 0);
    match lb.handle_connection("/s/a", "/s/a", 10) {
        Routing::Cached(r) => assert_eq!(r.body, b"hit".to_vec()),
        _ => panic!("expected a cached response"),
    }
    assert!(matches!(lb.handle_connection("/s/a", "/s/a", 2000), Routing::Rule(0)));
}
