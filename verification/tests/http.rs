use portboard::bounded_http::{
    field_is, ConnectionStep, ReadEvent, Request, Server, CONNECTION_LIMIT, HEADER_LIMIT,
};
use portboard::dashboard_server::{
    allowed_host_headers, check_bind_address, dashboard_html, dashboard_status, failed_reply,
    free_log_stamp, handle_request, has_allowed_host, has_request_token, newest_dashboard_log,
    page_around, prune_old_logs, queue_full_reply, refused_reply, request_token, stable_log_name,
    stamped_log_name, timestamped_log_stamps, Route, StartEvent, StartOutcome, StartStep,
    LOGS_TO_KEEP,
};
use portboard::current_workspace_status::WorktreeLaunchTargetInspection;
use portboard::ip_text::{IpAddress, SocketAddress};
use portboard::portboard_error::PortboardError;

const HEAD: &str =
    "POST /api/open/web?x=1 HTTP/1.1\r\nHost: LocalHost:9777\r\nX-Portboard-Token: secret";

fn request(text: &str) -> Request {
    Request::parse(text.as_bytes()).expect("request")
}

fn hosts() -> Vec<String> {
    let resolved = vec![
        SocketAddress { ip: IpAddress::V6([0, 0, 0, 0, 0, 0, 0, 1]), scope: 0, port: 9777 },
        SocketAddress { ip: IpAddress::V4([127, 0, 0, 1]), scope: 0, port: 9777 },
    ];
    allowed_host_headers("LocalHost:9777", Ok(resolved)).expect("hosts")
}

#[test]
fn reads_the_head_of_a_request() {
    let request = request(HEAD);
    assert_eq!(request.method(), "POST");
    assert_eq!(request.url(), "/api/open/web?x=1");
    assert_eq!(request.headers().len(), 2);
    assert_eq!(request.headers()[1].field, "X-Portboard-Token");
    assert_eq!(request.headers()[1].value, "secret");
}

#[test]
fn refuses_malformed_and_ambiguous_heads() {
    for text in [
        "GET / HTTP/2.0",
        "GET  / HTTP/1.1",
        "GET http://localhost/ HTTP/1.1",
        "GET /\x07 HTTP/1.1",
        "GET / HTTP/1.1\r\nno colon",
        "GET / HTTP/1.1\r\nBad Field: x",
        "GET / HTTP/1.1\r\nHost: a\r\nhOST: a",
        "GET / HTTP/1.1\r\nX-Portboard-Token: a\r\nx-portboard-token: a",
    ] {
        assert_eq!(Request::parse(text.as_bytes()), None, "{text}");
    }
    assert_eq!(Request::parse(b"GET /\xff HTTP/1.1"), None);
    assert!(Request::parse(b"GET / HTTP/1.0\r\nHost:  spaced  ").is_some());
    assert_eq!(request("GET / HTTP/1.0\r\nHost:  spaced  ").headers()[0].value, "spaced");
}

#[test]
fn field_names_are_compared_without_case() {
    assert!(field_is("hOsT", "Host"));
    assert!(!field_is("Hosts", "Host"));
}

#[test]
fn connections_wait_until_their_head_is_complete() {
    let mut server = Server::new();
    assert!(server.take_in(7));
    assert_eq!(server.waiting(), 1);
    assert_eq!(server.ticket(0), 7);
    let first = b"GET / HTTP/1.1\r\nHost: x\r\n".to_vec();
    assert_eq!(server.observe(0, ReadEvent::Bytes(first)), ConnectionStep::Waits);
    assert_eq!(server.observe(0, ReadEvent::NothingYet), ConnectionStep::Waits);
    let step = server.observe(0, ReadEvent::Bytes(b"\r\nbody".to_vec()));
    assert_eq!(step, ConnectionStep::Ready(request("GET / HTTP/1.1\r\nHost: x")));
    assert_eq!(server.waiting(), 0);
}

#[test]
fn slow_and_oversized_connections_are_dropped() {
    let mut server = Server::new();
    for ticket in 0..4 {
        assert!(server.take_in(ticket));
    }
    assert_eq!(server.observe(0, ReadEvent::Expired), ConnectionStep::Dropped);
    assert_eq!(server.observe(0, ReadEvent::Closed), ConnectionStep::Dropped);
    assert_eq!(server.observe(0, ReadEvent::Failed), ConnectionStep::Dropped);
    let flood = vec![b'x'; HEADER_LIMIT];
    assert_eq!(server.observe(0, ReadEvent::Bytes(flood)), ConnectionStep::Dropped);
    assert_eq!(server.waiting(), 0);
}

#[test]
fn only_so_many_connections_wait() {
    let mut server = Server::new();
    for ticket in 0..CONNECTION_LIMIT {
        assert!(server.take_in(ticket as u64));
    }
    assert!(!server.take_in(99));
    assert_eq!(server.waiting(), CONNECTION_LIMIT);
}

#[test]
fn dashboards_are_asked_under_their_own_hosts() {
    assert_eq!(hosts(), ["127.0.0.1:9777", "[::1]:9777", "localhost:9777"]);
    assert!(has_allowed_host(&request(HEAD), &hosts()));
    assert!(!has_allowed_host(&request("GET / HTTP/1.1\r\nHost: evil:9777"), &hosts()));
    assert!(!has_allowed_host(&request("GET / HTTP/1.1"), &hosts()));
    let error = allowed_host_headers("nowhere:1", Err("lost".to_string())).expect_err("failure");
    assert_eq!(error.chain(), "Portboard could not resolve nowhere:1: lost");
}

#[test]
fn changes_need_the_token() {
    assert!(has_request_token(&request(HEAD), "secret"));
    assert!(!has_request_token(&request(HEAD), "other"));
    let other = HEAD.replace("secret", "guess");
    assert_eq!(handle_request(&request(&other), "secret", &hosts(), true), Route::WrongToken);
    let rebound = HEAD.replace("LocalHost", "evil");
    assert_eq!(handle_request(&request(&rebound), "secret", &hosts(), true), Route::WrongHost);
    assert_eq!(handle_request(&request(HEAD), "secret", &hosts(), true), Route::Queue);
    assert_eq!(
        handle_request(&request(HEAD), "secret", &hosts(), false),
        Route::Open("web".to_string())
    );
}

#[test]
fn reads_are_routed_by_their_path() {
    let route = |path: &str| {
        let text = format!("GET {path} HTTP/1.1\r\nHost: localhost:9777");
        handle_request(&request(&text), "secret", &hosts(), true)
    };
    assert_eq!(route("/"), Route::Page);
    assert_eq!(route("/?q"), Route::Page);
    assert_eq!(route("/api/status"), Route::Status);
    assert_eq!(route("/api/open/web"), Route::NotFound);
    let stop = HEAD.replace("/api/open/web?x=1", "/api/stop/web");
    assert_eq!(
        handle_request(&request(&stop), "secret", &hosts(), false),
        Route::Stop("web".to_string())
    );
}

#[test]
fn refusals_have_their_own_answers() {
    let host = refused_reply(&Route::WrongHost).expect("reply");
    assert_eq!((host.status, host.message.as_str()), (421, "invalid Host header"));
    let token = refused_reply(&Route::WrongToken).expect("reply");
    assert_eq!(
        (token.status, token.message.as_str()),
        (403, "missing or invalid X-Portboard-Token")
    );
    let missing = refused_reply(&Route::NotFound).expect("reply");
    assert_eq!((missing.status, missing.message.as_str()), (404, "not found"));
    assert_eq!(refused_reply(&Route::Page), None);
    assert_eq!(queue_full_reply().status, 503);
    let failed = failed_reply(&PortboardError::new("broken".to_string()));
    assert_eq!((failed.status, failed.message.as_str()), (500, "broken"));
}

#[test]
fn only_loopback_addresses_are_bound() {
    let outside = Some(vec![SocketAddress {
        ip: IpAddress::V4([192, 168, 1, 10]),
        scope: 0,
        port: 1,
    }]);
    assert_eq!(
        check_bind_address("lan:1", &outside).expect_err("refused").to_string(),
        "Portboard dashboard only binds to loopback addresses; got `lan:1`"
    );
    assert!(check_bind_address("none:1", &None).is_err());
    assert!(check_bind_address("empty:1", &Some(vec![])).is_err());
}

#[test]
fn targets_start_only_in_a_clear_field() {
    let step = StartStep::first();
    assert_eq!(step, StartStep::InspectChild);
    let step = step.after(StartEvent::NoChild).after(StartEvent::Found);
    assert_eq!(step, StartStep::LockAndScan);
    assert_eq!(
        step.after(StartEvent::Runs { pid: 4 }),
        StartStep::Answer(StartOutcome::AlreadyRunning { pid: 4, has_own_log: false })
    );
    let step = step.after(StartEvent::NothingRuns);
    assert_eq!(
        step.after(StartEvent::Reservation { active: true }),
        StartStep::Answer(StartOutcome::Starting)
    );
    let step = step.after(StartEvent::Reservation { active: false });
    assert_eq!(step, StartStep::Launch);
    let started = StartOutcome::Started { pid: 9 };
    assert_eq!(step.after(StartEvent::Launched { pid: 9 }), StartStep::Answer(started));
    assert_eq!(started.pid(), Some(9));
    assert_eq!(started.word(), "started");
    assert_eq!(StartOutcome::Starting.pid(), None);
    let child = StartEvent::Child { pid: 3, running: false, group_lives: true };
    assert_eq!(
        StartStep::first().after(child),
        StartStep::Answer(StartOutcome::AlreadyRunning { pid: 3, has_own_log: true })
    );
}

#[test]
fn older_logs_are_pruned_and_the_newest_is_found() {
    let mut names: Vec<String> = (1..=7_u64).map(|stamp| format!("probe.{stamp}.log")).collect();
    names.push("probe.log".to_string());
    names.push("other.9.log".to_string());
    names.push("probe.x.log".to_string());
    assert_eq!(timestamped_log_stamps(&names, "probe"), [1, 2, 3, 4, 5, 6, 7]);
    assert_eq!(prune_old_logs(&names, "probe", LOGS_TO_KEEP), ["probe.1.log", "probe.2.log"]);
    assert_eq!(
        newest_dashboard_log(&names, "probe", false).as_deref(),
        Some("probe.7.log")
    );
    assert_eq!(newest_dashboard_log(&names, "probe", true).as_deref(), Some("probe.log"));
    assert_eq!(newest_dashboard_log(&names, "web", false), None);
    assert_eq!(free_log_stamp(&names, "probe", 5), 8);
    assert_eq!(free_log_stamp(&names, "probe", 50), 50);
    assert_eq!(stamped_log_name("probe", 50), "probe.50.log");
    assert_eq!(stable_log_name("probe"), "probe.log");
}

#[test]
fn request_tokens_are_hexadecimal() {
    assert_eq!(request_token(&[0, 15, 255]), "000fff");
}

#[test]
fn pages_carry_the_token_as_a_quoted_text() {
    assert_eq!(dashboard_html("ab\"c"), page_around("\"ab\\\"c\""));
    assert!(dashboard_html("abc").contains("\"abc\""));
}

#[test]
fn dashboards_report_the_inspection() {
    let inspection =
        WorktreeLaunchTargetInspection { statuses: vec![], findings: vec!["odd".to_string()] };
    let status = dashboard_status("/repo".to_string(), inspection);
    assert_eq!(status.worktree_root, "/repo");
    assert_eq!(status.findings, ["odd"]);
    assert!(status.targets.is_empty());
}
