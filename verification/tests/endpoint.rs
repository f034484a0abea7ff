use codex2api_desktop::endpoint::{
    admin_url_for_port, health_body_of, health_host_port, health_request, health_response_ok,
    status_reports_ok,
};

#[test]
fn admin_url_of_default_port() {
    assert_eq!(admin_url_for_port(8080), "http://127.0.0.1:8080/admin/");
}

#[test]
fn admin_url_edge_ports() {
    assert_eq!(admin_url_for_port(0), "http://127.0.0.1:0/admin/");
    assert_eq!(admin_url_for_port(7), "http://127.0.0.1:7/admin/");
    assert_eq!(admin_url_for_port(65535), "http://127.0.0.1:65535/admin/");
}

#[test]
fn health_targets_the_admin_port() {
    for p in [0u16, 80, 8080, 65535] {
        assert_eq!(health_host_port(&admin_url_for_port(p)), format!("127.0.0.1:{}", p));
    }
}

#[test]
fn host_port_strips_repeated_affixes() {
    assert_eq!(health_host_port("http://http://host:1/admin//admin/"), "host:1");
    assert_eq!(health_host_port("https://host:1/admin/"), "https://host:1");
    assert_eq!(health_host_port("host:1"), "host:1");
    assert_eq!(health_host_port(""), "");
}

#[test]
fn health_request_text() {
    assert_eq!(
        health_request("127.0.0.1:8080"),
        "GET /health HTTP/1.1\r\nHost: 127.0.0.1:8080\r\nConnection: close\r\n\r\n"
    );
}

#[test]
fn healthy_response_is_accepted() {
    let r = "HTTP/1.1 200 OK\r\nContent-Type: application/json\r\n\r\n{\"status\":\"ok\"}";
    assert!(health_response_ok(r));
    let r10 = "HTTP/1.0 200 OK\r\n\r\n  {\"status\": \"ok\", \"db\": 1}\n";
    assert!(health_response_ok(r10));
}

#[test]
fn unhealthy_responses_are_refused() {
    assert!(!health_response_ok("HTTP/1.1 503 Service Unavailable\r\n\r\n{\"status\":\"ok\"}"));
    assert!(!health_response_ok("HTTP/1.1 200 OK\r\n\r\n{\"status\":\"degraded\"}"));
    assert!(!health_response_ok("HTTP/1.1 200 OK\r\n\r\n{\"status\":\"ok\"} trailing"));
    assert!(!health_response_ok("HTTP/1.1 200 OK\r\n{\"status\":\"ok\"}"));
    assert!(!health_response_ok("HTTP/1.1 200 OK\r\n\r\n{status:ok}"));
    assert!(!health_response_ok("HTTP/1.1 200 OK\r\n\r\n{\"status\":true}"));
    assert!(!health_response_ok("HTTP/1.1 200 OK\r\n\r\n{\"state\":\"ok\"}"));
    assert!(!health_response_ok("HTTP/1.1 200 OK\r\n\r\n"));
    assert!(!health_response_ok(""));
    assert!(!health_response_ok("HTTP/2 200\r\n\r\n{\"status\":\"ok\"}"));
}

#[test]
fn body_is_cut_at_first_blank_line_and_trimmed() {
    let r = "HTTP/1.1 200 OK\r\n\r\n {\"a\":\"\r\n\r\n\"} \r\n";
    assert_eq!(health_body_of(r), Some("{\"a\":\"\r\n\r\n\"}".to_string()));
    assert_eq!(health_body_of("HTTP/1.1 404\r\n\r\n{}"), None);
}

#[test]
fn status_word_must_be_ok() {
    assert!(status_reports_ok(Some("ok".to_string())));
    assert!(!status_reports_ok(Some("OK".to_string())));
    assert!(!status_reports_ok(Some("ok ".to_string())));
    assert!(!status_reports_ok(None));
}
