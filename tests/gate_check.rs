use bus_eta::gate::{status_is_success, verdict_for, HttpResponse, PermissionGate};

fn reply(status: u16, body: &str) -> Result<HttpResponse, String> {
    Ok(HttpResponse { status, body: body.to_string() })
}

#[test]
fn expected_document_permits() {
    assert_eq!(verdict_for(&reply(200, "User-agent: *\nDisallow:")), Ok(()));
}

#[test]
fn other_document_denies() {
    let want = Err("Please check robots.txt manually".to_string());
    assert_eq!(verdict_for(&reply(200, "User-agent: *\nDisallow: /")), want);
    assert_eq!(verdict_for(&reply(200, "User-agent: *\nDisallow:\n")), want);
    assert_eq!(verdict_for(&reply(204, "")), want);
}

#[test]
fn failed_status_permits() {
    assert_eq!(verdict_for(&reply(404, "User-agent: *\nDisallow: /")), Ok(()));
    assert_eq!(verdict_for(&reply(500, "")), Ok(()));
    assert_eq!(verdict_for(&reply(301, "")), Ok(()));
}

#[test]
fn transport_failure_permits() {
    assert_eq!(verdict_for(&Err("connection refused".to_string())), Ok(()));
    let mut gate = PermissionGate::new();
    assert_eq!(gate.record(&Err("timed out".to_string())), Ok(()));
    assert_eq!(gate.verdict(), Some(Ok(())));
}

#[test]
fn success_statuses() {
    assert!(status_is_success(200));
    assert!(status_is_success(299));
    assert!(!status_is_success(199));
    assert!(!status_is_success(300));
}

#[test]
fn new_gate_is_unchecked() {
    assert_eq!(PermissionGate::new().verdict(), None);
}

#[test]
fn denial_is_final() {
    let mut gate = PermissionGate::new();
    let denied = Err("Please check robots.txt manually".to_string());
    assert_eq!(gate.record(&reply(200, "Disallow: /")), denied);
    assert_eq!(gate.record(&reply(200, "User-agent: *\nDisallow:")), denied);
    assert_eq!(gate.verdict(), Some(denied));
}

#[test]
fn permission_is_final() {
    let mut gate = PermissionGate::new();
    assert_eq!(gate.record(&reply(404, "")), Ok(()));
    assert_eq!(gate.record(&reply(200, "Disallow: /")), Ok(()));
    assert_eq!(gate.verdict(), Some(Ok(())));
}
