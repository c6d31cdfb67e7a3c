use portboard::browser_url::{
    accept_browser_url, browser_url, copy_url_to_clipboard, hyperlink_for, listener_browser_url,
    open_browser_url, osc8_hyperlink, plan_for, running_over_ssh, validate_browser_url,
    BrowserPlan, UrlHost, UrlOpenOutcome, UrlParts,
};
use portboard::current_workspace_status::{
    inspect_worktree_launch_targets, CurrentLaunchTargetStatus, LaunchTargetRuntimeState,
    MetadataObservation,
};
use portboard::ip_text::IpAddress;
use portboard::launch_target_config::{LaunchTarget, LaunchTargetId, PortboardConfig};
use portboard::launch_target_processes::DiscoverySnapshot;
use portboard::process_endpoints::{ProcessEndpoint, SocketSnapshot};
use portboard::runtime_metadata::{RuntimeEndpoint, RuntimeFileObservation};

fn stopped_status_with_listeners(listeners: &[(&str, u16)]) -> CurrentLaunchTargetStatus {
    let config = PortboardConfig {
        version: 1,
        launch_targets: vec![LaunchTarget {
            id: LaunchTargetId::new("probe".to_string()),
            label: "Probe".to_string(),
            argv: vec!["missing-command".to_string()],
            process_match: vec!["portboard-browser-url-test".to_string()],
            runtime_file: None,
            log_file: None,
        }],
    };
    let sockets = SocketSnapshot { links: vec![], holders: vec![], tcp: None, tcp6: None };
    let snapshot = DiscoverySnapshot::capture(b"/worktree", &vec![], 1, &vec![], sockets);
    let observed = vec![MetadataObservation {
        file: RuntimeFileObservation::PathMissing,
        live: vec![],
    }];
    let inspection = inspect_worktree_launch_targets(&config, &snapshot, observed);
    let mut status = inspection.statuses.into_iter().next().expect("status");
    assert_eq!(status.state, LaunchTargetRuntimeState::Stopped);
    status.endpoints = listeners
        .iter()
        .map(|(address, port)| ProcessEndpoint {
            protocol: "tcp",
            address: (*address).to_string(),
            port: *port,
        })
        .collect();
    status
}

fn named_endpoint(id: &str, url: &str, primary: bool) -> RuntimeEndpoint {
    RuntimeEndpoint { id: id.to_string(), url: url.to_string(), primary, status: None }
}

#[test]
fn rejects_terminal_control_urls() {
    let malicious = "http://localhost:3000/\x07\x1b]52;c;AAAA\x07";
    assert!(!osc8_hyperlink(malicious).contains('\x07'));
    assert!(!osc8_hyperlink(malicious).contains('\x1b'));
}

#[test]
fn ipv6_and_wildcard_listeners_are_browser_ready() {
    for (address, expected) in [
        ("::1", "http://[::1]:4100"),
        ("::", "http://[::1]:4100"),
        ("0.0.0.0", "http://127.0.0.1:4100"),
    ] {
        assert_eq!(
            browser_url(&stopped_status_with_listeners(&[(address, 4100)])).as_deref(),
            Some(expected)
        );
    }
}

#[test]
fn prefers_the_primary_named_endpoint() {
    let mut status = stopped_status_with_listeners(&[("127.0.0.1", 4100)]);
    status.named_endpoints = vec![
        named_endpoint("api", "http://localhost:4101", false),
        named_endpoint("web", "http://localhost:4102", true),
    ];

    assert_eq!(browser_url(&status).as_deref(), Some("http://localhost:4102"));
}

#[test]
fn falls_back_to_the_first_named_endpoint_without_a_primary() {
    let mut status = stopped_status_with_listeners(&[("127.0.0.1", 4100)]);
    status.named_endpoints = vec![named_endpoint("web", "http://localhost:4103", false)];

    assert_eq!(browser_url(&status).as_deref(), Some("http://localhost:4103"));
}

#[test]
fn falls_back_to_the_first_discovered_listener() {
    let status = stopped_status_with_listeners(&[("127.0.0.1", 4104), ("[::1]", 4105)]);

    assert_eq!(browser_url(&status).as_deref(), Some("http://127.0.0.1:4104"));
}

#[test]
fn returns_no_url_without_endpoints() {
    let status = stopped_status_with_listeners(&[]);

    assert_eq!(browser_url(&status), None);
}

#[test]
fn wraps_urls_in_an_osc8_hyperlink() {
    assert_eq!(
        osc8_hyperlink("http://localhost:4106"),
        "\x1b]8;;http://localhost:4106\x1b\\http://localhost:4106\x1b]8;;\x1b\\"
    );
}

#[test]
fn validates_browser_urls_by_their_parts() {
    let parts = validate_browser_url("http://127.0.0.1:8080/a?b=c").expect("accepted URL");
    assert_eq!(parts.scheme, "http");
    assert_eq!(parts.host, Some(UrlHost::Address(IpAddress::V4([127, 0, 0, 1]))));
    assert_eq!(parts.host_text.as_deref(), Some("127.0.0.1"));
    assert_eq!(parts.port, Some(8080));
    assert_eq!(parts.path, "/a");
    assert_eq!(parts.query.as_deref(), Some("b=c"));
    let named = validate_browser_url("https://localhost").expect("accepted URL");
    assert_eq!(named.host, Some(UrlHost::Domain("localhost".to_string())));
    assert_eq!(named.port, Some(443));
    assert_eq!(named.path, "/");
    assert_eq!(named.query, None);
    let six = validate_browser_url("http://[::1]:4100").expect("accepted URL");
    assert_eq!(six.host, Some(UrlHost::Address(IpAddress::V6([0, 0, 0, 0, 0, 0, 0, 1]))));
    assert_eq!(six.host_text.as_deref(), Some("[::1]"));
}

#[test]
fn refuses_urls_that_no_browser_should_open() {
    assert!(validate_browser_url("ftp://localhost/").is_err());
    assert!(validate_browser_url("not a url").is_err());
    assert!(validate_browser_url("http://localhost/\t").is_err());
    assert!(accept_browser_url("http://localhost", None).is_err());
}

#[test]
fn clipboard_copies_carry_the_url_in_base64() {
    assert_eq!(
        copy_url_to_clipboard("http://localhost:4106").as_deref(),
        Some("\x1b]52;c;aHR0cDovL2xvY2FsaG9zdDo0MTA2\x07")
    );
    assert_eq!(copy_url_to_clipboard("http://localhost:4106/\x07"), None);
}

#[test]
fn browsers_are_launched_only_on_a_local_desktop() {
    assert_eq!(open_browser_url("http://localhost:1", false, true), BrowserPlan::Launch);
    assert_eq!(open_browser_url("http://localhost:1", true, true), BrowserPlan::OfferLink);
    assert_eq!(open_browser_url("http://localhost:1", false, false), BrowserPlan::OfferLink);
    assert_eq!(open_browser_url("file:///etc", false, true), BrowserPlan::OfferLink);
    assert_eq!(plan_for("http://localhost:1", None, false, true), BrowserPlan::OfferLink);
    assert_eq!(BrowserPlan::Launch.outcome(true), UrlOpenOutcome::OpenedLocally);
    assert_eq!(BrowserPlan::Launch.outcome(false), UrlOpenOutcome::OfferedLink);
    assert_eq!(BrowserPlan::OfferLink.outcome(true), UrlOpenOutcome::OfferedLink);
}

#[test]
fn ssh_is_noticed_by_either_variable() {
    assert!(!running_over_ssh(&None, &None));
    assert!(!running_over_ssh(&Some(vec![]), &None));
    assert!(running_over_ssh(&Some(b"1".to_vec()), &None));
    assert!(running_over_ssh(&None, &Some(b"/dev/pts/1".to_vec())));
}

#[test]
fn hyperlinks_need_an_accepted_url() {
    assert_eq!(hyperlink_for("http://localhost", None), "[invalid URL]");
    let parts = UrlParts {
        scheme: "http".to_string(),
        host: Some(UrlHost::Domain("localhost".to_string())),
        host_text: Some("localhost".to_string()),
        port: Some(80),
        path: "/".to_string(),
        query: None,
    };
    assert_eq!(
        hyperlink_for("http://localhost", Some(parts)),
        "\x1b]8;;http://localhost\x1b\\http://localhost\x1b]8;;\x1b\\"
    );
}

#[test]
fn bracketed_listeners_lose_their_brackets_once() {
    assert_eq!(listener_browser_url("[::1]", 4105), "http://[::1]:4105");
    assert_eq!(listener_browser_url("192.168.0.7", 80), "http://192.168.0.7:80");
}
