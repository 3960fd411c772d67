use bus_eta::cache::{cache_key, EtaCache};
use bus_eta::extract::ExtractError;
use bus_eta::gate::{HttpResponse, PermissionGate};
use bus_eta::query::{eta_url, next_step, page_eta, QueryError, QueryStep};

const PERMISSION_URL: &str = "https://www.ctabustracker.com/bustime/wireless/robots.txt";

fn page(route: &str, marker: &str) -> String {
    format!("<strong class=\"larger\">#{}&nbsp;</strong>{}", route, marker)
}

fn minutes(n: i32) -> String {
    format!("<strong class=\"larger\">{}&nbsp;MIN</strong>", n)
}

/// A transport that answers from fixed replies and counts the fetches.
struct MockTransport {
    permission: Result<HttpResponse, String>,
    page: Result<HttpResponse, String>,
    permission_fetches: usize,
    page_fetches: usize,
}

impl MockTransport {
    fn new(permission: Result<HttpResponse, String>, page_body: &str) -> MockTransport {
        MockTransport {
            permission,
            page: Ok(HttpResponse { status: 200, body: page_body.to_string() }),
            permission_fetches: 0,
            page_fetches: 0,
        }
    }

    fn get(&mut self, url: &str) -> Result<HttpResponse, String> {
        if url == PERMISSION_URL {
            self.permission_fetches += 1;
            self.permission.clone()
        } else {
            self.page_fetches += 1;
            self.page.clone()
        }
    }
}

fn allowed() -> Result<HttpResponse, String> {
    Ok(HttpResponse { status: 200, body: "User-agent: *\nDisallow:".to_string() })
}

/// Runs one query through its steps, as a host would.
fn query(
    cache: &mut EtaCache,
    gate: &mut PermissionGate,
    net: &mut MockTransport,
    stop: &str,
    route: &str,
    now: u64,
) -> Result<i32, QueryError> {
    let key = cache_key(stop, route);
    if let Some(eta) = cache.lookup(&key, now) {
        return Ok(eta);
    }
    loop {
        match next_step(gate, stop, route) {
            QueryStep::FetchPermission => {
                let reply = net.get(PERMISSION_URL);
                gate.record(&reply);
            }
            QueryStep::FetchPage(url) => {
                let reply = net.get(&url);
                let eta = page_eta(&reply, route)?;
                cache.set(key, eta, now);
                return Ok(eta);
            }
            QueryStep::Fail(e) => return Err(e),
        }
    }
}

#[test]
fn url_names_route_and_stop() {
    assert_eq!(
        eta_url("1234", "7"),
        "https://www.ctabustracker.com/bustime/wireless/html/eta.jsp?route=7&direction=---&displaydirection=---&stop=1234&findstop=on&selectedRtpiFeeds=&id=1234"
    );
}

#[test]
fn repeated_query_within_ttl_fetches_once() {
    let (mut cache, mut gate) = (EtaCache::new(), PermissionGate::new());
    let mut net = MockTransport::new(allowed(), &page("7", &minutes(12)));
    let first = query(&mut cache, &mut gate, &mut net, "1234", "7", 50_000);
    let second = query(&mut cache, &mut gate, &mut net, "1234", "7", 50_999);
    assert_eq!(first.unwrap(), 12);
    assert_eq!(second.unwrap(), 12);
    assert_eq!(net.page_fetches, 1);
    assert_eq!(net.permission_fetches, 1);
}

#[test]
fn query_after_ttl_fetches_again() {
    let (mut cache, mut gate) = (EtaCache::new(), PermissionGate::new());
    let mut net = MockTransport::new(allowed(), &page("7", &minutes(12)));
    query(&mut cache, &mut gate, &mut net, "1234", "7", 50_000).unwrap();
    query(&mut cache, &mut gate, &mut net, "1234", "7", 50_500).unwrap();
    assert_eq!(net.page_fetches, 1);
    net.page = Ok(HttpResponse { status: 200, body: page("7", &minutes(3)) });
    let third = query(&mut cache, &mut gate, &mut net, "1234", "7", 51_000);
    assert_eq!(third.unwrap(), 3);
    assert_eq!(net.page_fetches, 2);
    assert_eq!(net.permission_fetches, 1);
}

#[test]
fn denied_gate_fetches_permission_once() {
    let (mut cache, mut gate) = (EtaCache::new(), PermissionGate::new());
    let denial = Ok(HttpResponse { status: 200, body: "User-agent: *\nDisallow: /".to_string() });
    let mut net = MockTransport::new(denial, &page("7", &minutes(12)));
    for now in [1_000u64, 5_000] {
        match query(&mut cache, &mut gate, &mut net, "1234", "7", now) {
            Err(QueryError::PermissionDenied(reason)) => {
                assert_eq!(reason, "Please check robots.txt manually")
            }
            other => panic!("expected a denial, got {:?}", other),
        }
    }
    assert_eq!(net.permission_fetches, 1);
    assert_eq!(net.page_fetches, 0);
}

#[test]
fn unreachable_permission_document_lets_query_through() {
    let (mut cache, mut gate) = (EtaCache::new(), PermissionGate::new());
    let mut net = MockTransport::new(Err("connection reset".to_string()), &page("7", "<strong class=\"larger\">DUE</strong>"));
    assert_eq!(query(&mut cache, &mut gate, &mut net, "1234", "7", 0).unwrap(), 1);
    assert_eq!(net.permission_fetches, 1);
}

#[test]
fn page_errors_are_not_cached() {
    let (mut cache, mut gate) = (EtaCache::new(), PermissionGate::new());
    let mut net = MockTransport::new(allowed(), &page("8", &minutes(1)));
    let r = query(&mut cache, &mut gate, &mut net, "1234", "7", 0);
    assert!(matches!(r, Err(QueryError::Extract(ExtractError::RouteNotFound))));
    let r = query(&mut cache, &mut gate, &mut net, "1234", "7", 10);
    assert!(matches!(r, Err(QueryError::Extract(ExtractError::RouteNotFound))));
    assert_eq!(net.page_fetches, 2);
}

#[test]
fn page_transport_failure_and_bad_status_fail() {
    let r = page_eta(&Err("dns".to_string()), "7");
    assert!(matches!(r, Err(QueryError::Transport(m)) if m == "dns"));
    let r = page_eta(&Ok(HttpResponse { status: 503, body: page("7", &minutes(4)) }), "7");
    assert!(matches!(r, Err(QueryError::HttpStatus(503))));
    let r = page_eta(&Ok(HttpResponse { status: 200, body: page("7", "") }), "7");
    assert!(matches!(r, Err(QueryError::Extract(ExtractError::NoEtaFound))));
    let r = page_eta(&Ok(HttpResponse { status: 200, body: page("7", &minutes(4)) }), "7");
    assert!(matches!(r, Ok(4)));
}

#[test]
fn next_step_follows_the_verdict() {
    let mut gate = PermissionGate::new();
    assert!(matches!(next_step(&gate, "1", "2"), QueryStep::FetchPermission));
    gate.record(&allowed());
    match next_step(&gate, "1", "2") {
        QueryStep::FetchPage(url) => assert_eq!(url, eta_url("1", "2")),
        other => panic!("expected a page fetch, got {:?}", other),
    }
}

#[test]
fn simultaneous_misses_leave_one_entry_with_last_store() {
    let mut cache = EtaCache::new();
    let key = cache_key("1234", "7");
    // Both queries miss before either stores.
    assert_eq!(cache.lookup(&key, 100), None);
    assert_eq!(cache.lookup(&key, 100), None);
    let a = page_eta(&Ok(HttpResponse { status: 200, body: page("7", &minutes(5)) }), "7").unwrap();
    let b = page_eta(&Ok(HttpResponse { status: 200, body: page("7", &minutes(4)) }), "7").unwrap();
    cache.set(key.clone(), a, 180);
    cache.set(key.clone(), b, 190);
    assert_eq!(cache.lookup(&key, 200), Some(4));
    assert_eq!(cache.get(&key).map(|i| (i.eta, i.timestamp)), Some((4, 190)));
}
