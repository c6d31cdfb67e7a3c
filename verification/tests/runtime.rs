use portboard::launch_target_config::{LaunchTarget, LaunchTargetId};
use portboard::launch_target_processes::LaunchTargetProcess;
use portboard::launch_target_readiness::{
    describe_wait, plan_probe, probe_budget, probe_plan, status_line_is_ready, text_is_ready,
    wait_for_launch_target_process, wait_for_launch_target_ready, Probe, ProbeAction, ProbeEvent,
    ProbeStage, WaitEvent, WaitGoal, WaitStep, CONNECT_BUDGET, PAUSE, PROBE_BUDGET,
    STATUS_LINE_LIMIT,
};
use portboard::ip_text::IpAddress;
use portboard::portboard_error::PortboardError;
use portboard::process_identity::ProcessIdentity;
use portboard::runtime_metadata::{
    load_launch_target_runtime_metadata, runtime_file_readable, runtime_file_wanted,
    validate_runtime_metadata, LaunchTargetRuntimeMetadata, RuntimeEndpoint, RuntimeFile,
    RuntimeFileObservation, RUNTIME_FILE_LIMIT,
};

fn target() -> LaunchTarget {
    LaunchTarget {
        id: LaunchTargetId::new("dev-full".to_string()),
        label: "Full dev stack".to_string(),
        argv: vec!["pnpm".to_string(), "dev:full".to_string()],
        process_match: vec!["scripts/dev-full.mjs".to_string()],
        runtime_file: Some("logs/dev-instance.json".to_string()),
        log_file: None,
    }
}

fn endpoint(id: &str, url: &str, primary: bool, status: Option<&str>) -> RuntimeEndpoint {
    RuntimeEndpoint {
        id: id.to_string(),
        url: url.to_string(),
        primary,
        status: status.map(|text| text.to_string()),
    }
}

fn metadata(pid: u32, endpoints: Vec<RuntimeEndpoint>) -> LaunchTargetRuntimeMetadata {
    LaunchTargetRuntimeMetadata {
        version: 1,
        target_id: "dev-full".to_string(),
        pid,
        started_at: "2026-08-21T12:37:22.695Z".to_string(),
        endpoints,
    }
}

fn run() -> LaunchTargetProcess {
    LaunchTargetProcess {
        metadata_members: vec![ProcessIdentity { pid: 71, start_time: 8 }],
        pid: 70,
        start_time: 7,
        argv: vec![],
    }
}

fn live() -> Vec<ProcessIdentity> {
    vec![
        ProcessIdentity { pid: 70, start_time: 7 },
        ProcessIdentity { pid: 71, start_time: 8 },
    ]
}

fn found(file: RuntimeFile) -> RuntimeFileObservation {
    RuntimeFileObservation::Resolved {
        path: b"/repo/logs/dev-instance.json".to_vec(),
        display: "/repo/logs/dev-instance.json".to_string(),
        root: b"/repo".to_vec(),
        file,
    }
}

fn load(
    metadata: LaunchTargetRuntimeMetadata,
) -> Result<Option<LaunchTargetRuntimeMetadata>, PortboardError> {
    let file = RuntimeFile::Read(100, Ok(metadata));
    load_launch_target_runtime_metadata(&target(), &vec![run()], &live(), found(file))
}

#[test]
fn metadata_of_a_live_run_names_its_endpoints() {
    let loaded = load(metadata(
        70,
        vec![
            endpoint("web", "http://localhost:14715", true, None),
            endpoint("api", "http://localhost:11100", false, None),
        ],
    ))
    .expect("runtime metadata")
    .expect("matching metadata");
    let primary = loaded.primary_endpoint().expect("primary");
    assert_eq!((primary.id.as_str(), primary.url.as_str()), ("web", "http://localhost:14715"));
}

#[test]
fn metadata_of_a_member_counts_and_of_a_stranger_does_not() {
    let endpoints = || vec![endpoint("web", "http://localhost:3001", true, None)];
    assert!(load(metadata(71, endpoints())).expect("loaded").is_some());
    assert_eq!(load(metadata(999_999, endpoints())), Ok(None));
    let file = RuntimeFile::Read(100, Ok(metadata(70, endpoints())));
    assert_eq!(
        load_launch_target_runtime_metadata(&target(), &vec![run()], &vec![], found(file)),
        Ok(None)
    );
}

#[test]
fn endpoint_statuses_are_optional_but_never_blank() {
    let running = endpoint("model", "http://127.0.0.1:8200", false, Some("running"));
    let loaded = load(metadata(70, vec![running])).expect("loaded").expect("metadata");
    assert_eq!(loaded.endpoints[0].status.as_deref(), Some("running"));
    let blank = endpoint("model", "http://127.0.0.1:8200", false, Some("  "));
    let error = load(metadata(70, vec![blank])).expect_err("rejected");
    assert!(error.chain().contains("empty status"));
}

#[test]
fn malformed_metadata_is_rejected() {
    let path = "/repo/runtime.json";
    let refused = |metadata: &LaunchTargetRuntimeMetadata| {
        validate_runtime_metadata(&target(), metadata, path).expect_err("rejected").to_string()
    };
    let web = || endpoint("web", "http://localhost:1", true, None);
    let mut changed = metadata(70, vec![web()]);
    assert!(validate_runtime_metadata(&target(), &changed, path).is_ok());
    changed.version = 2;
    assert!(refused(&changed).contains("version 2 is unsupported"));
    changed.version = 1;
    changed.target_id = "other".to_string();
    assert!(refused(&changed).contains("belongs to target `other`, expected `dev-full`"));
    changed.target_id = "dev-full".to_string();
    changed.started_at = " ".to_string();
    assert!(refused(&changed).contains("empty startedAt"));
    assert!(refused(&metadata(70, vec![web(), web()])).contains("duplicate endpoint id `web`"));
    let second = endpoint("api", "http://localhost:2", true, None);
    assert!(refused(&metadata(70, vec![web(), second])).contains("more than one primary"));
    let bad_id = endpoint("a b", "http://localhost:2", false, None);
    assert!(refused(&metadata(70, vec![bad_id])).contains("id `a b`"));
    let control = endpoint("web", "http://localhost:3000/\x07\x1b]52;c;AAAA\x07", true, None);
    assert!(validate_runtime_metadata(&target(), &metadata(70, vec![control]), path).is_err());
}

#[test]
fn metadata_files_are_read_only_where_they_can_count() {
    assert!(runtime_file_wanted(&target(), &vec![run()]));
    assert!(!runtime_file_wanted(&target(), &vec![]));
    assert!(runtime_file_readable(b"/repo/logs/x", b"/repo"));
    assert!(!runtime_file_readable(b"/outside/x", b"/repo"));
    let broken = found(RuntimeFile::Read(8, Err("not json".to_string())));
    assert_eq!(
        load_launch_target_runtime_metadata(&target(), &vec![], &live(), broken),
        Ok(None)
    );
}

#[test]
fn unsafe_metadata_files_are_errors_for_a_live_run() {
    let refused = |observed: RuntimeFileObservation| {
        load_launch_target_runtime_metadata(&target(), &vec![run()], &live(), observed)
            .expect_err("rejected")
            .chain()
    };
    let outside = RuntimeFileObservation::Resolved {
        path: b"/outside/runtime.json".to_vec(),
        display: "/outside/runtime.json".to_string(),
        root: b"/repo".to_vec(),
        file: RuntimeFile::NotRead,
    };
    assert!(refused(outside).contains("must remain inside the worktree"));
    assert!(refused(found(RuntimeFile::Irregular)).contains("must be a regular file"));
    let large = RuntimeFile::Read(RUNTIME_FILE_LIMIT + 1, Err("cut".to_string()));
    assert!(refused(found(large)).contains("exceeds 1 MiB"));
    assert!(refused(found(RuntimeFile::Unreadable("denied".to_string()))).contains("denied"));
    assert!(refused(found(RuntimeFile::Read(3, Err("bad".to_string())))).contains("is invalid"));
    assert!(
        refused(RuntimeFileObservation::PathUnresolved("loop".to_string()))
            .contains("cannot be resolved")
    );
    assert_eq!(refused(RuntimeFileObservation::RootUnresolved("gone".to_string())), "gone");
    let missing = RuntimeFileObservation::PathMissing;
    assert_eq!(
        load_launch_target_runtime_metadata(&target(), &vec![run()], &live(), missing),
        Ok(None)
    );
}

#[test]
fn probes_refuse_names_https_and_controls() {
    for url in ["http://unresolvable.invalid/", "https://localhost/", "http://localhost/\x07"] {
        assert!(probe_plan(url).is_err(), "{url}");
    }
    let failure = PortboardError::new("refused".to_string());
    assert_eq!(plan_probe(Err(failure)).expect_err("refused").to_string(), "refused");
}

#[test]
fn probes_ask_the_host_by_its_authority() {
    let plan = probe_plan("http://[::1]:4100/health?full=1").expect("plan");
    assert_eq!(plan.addresses, [IpAddress::V6([0, 0, 0, 0, 0, 0, 0, 1])]);
    assert_eq!(plan.port, 4100);
    assert_eq!(
        plan.request,
        "GET /health?full=1 HTTP/1.1\r\nHost: [::1]:4100\r\nConnection: close\r\n\r\n"
    );
    let local = probe_plan("http://localhost").expect("plan");
    assert_eq!(local.port, 80);
    assert_eq!(local.addresses.len(), 2);
}

#[test]
fn status_lines_announce_readiness() {
    assert!(status_line_is_ready(b"HTTP/1.1 200 OK\r\n"));
    assert!(status_line_is_ready(b"HTTP/1.0 399\n"));
    for line in ["HTTP/1.1 400 Bad\r\n", "HTTP/1.1 199\r\n", "HTTP/2 200\r\n", "HTTP/1.1\r\n"] {
        assert!(!text_is_ready(line), "{line}");
    }
    assert!(!status_line_is_ready(b"HTTP/1.1 200 \xff\r\n"));
}

#[test]
fn probes_connect_write_and_read_within_their_budget() {
    assert_eq!(probe_budget(60), 60);
    assert_eq!(probe_budget(u64::MAX), PROBE_BUDGET);
    let mut probe = Probe::new(probe_plan("http://localhost:1").expect("plan"));
    assert_eq!(
        probe.action(PROBE_BUDGET),
        ProbeAction::Connect { index: 0, timeout: CONNECT_BUDGET }
    );
    assert_eq!(probe.action(9), ProbeAction::Connect { index: 0, timeout: 9 });
    assert_eq!(probe.action(0), ProbeAction::Answer(false));
    probe.observe(ProbeEvent::Failed);
    assert_eq!(probe.action(9), ProbeAction::Connect { index: 1, timeout: 9 });
    probe.observe(ProbeEvent::Connected);
    assert_eq!(probe.action(9), ProbeAction::Write { from: 0, timeout: 9 });
    let length = probe.plan.request.len();
    probe.observe(ProbeEvent::Wrote(3));
    assert_eq!(probe.action(9), ProbeAction::Write { from: 3, timeout: 9 });
    probe.observe(ProbeEvent::Wrote(length - 3));
    assert_eq!(probe.action(9), ProbeAction::Read { timeout: 9 });
    for byte in b"HTTP/1.1 204 No Content\r\n" {
        probe.observe(ProbeEvent::Byte(*byte));
    }
    assert_eq!(probe.stage, ProbeStage::Answered(true));
    assert_eq!(probe.action(0), ProbeAction::Answer(true));
}

#[test]
fn oversized_status_lines_are_no_answer() {
    let mut probe = Probe::new(probe_plan("http://127.0.0.1:1").expect("plan"));
    let length = probe.plan.request.len();
    probe.observe(ProbeEvent::Connected);
    probe.observe(ProbeEvent::Wrote(length));
    for _ in 0..STATUS_LINE_LIMIT {
        probe.observe(ProbeEvent::Byte(b'H'));
    }
    assert_eq!(probe.action(9), ProbeAction::Answer(false));
}

#[test]
fn waits_end_ready_or_say_why() {
    let goal = WaitGoal::Endpoint { publishes: true };
    let after = |step, event| wait_for_launch_target_ready(true, step, event);
    let round = after(WaitStep::BeginRound, WaitEvent::Clock { remaining: 5 });
    assert_eq!(round, WaitStep::Scan);
    let scanned = after(round, WaitEvent::Scanned { found: true, remaining: 5 });
    assert_eq!(scanned, WaitStep::LoadMetadata);
    let probing = after(scanned, WaitEvent::Metadata { has_primary: true });
    assert_eq!(
        after(probing, WaitEvent::Probed { ready: true }),
        WaitStep::Ready { has_endpoint: true }
    );
    let end = after(probing, WaitEvent::Probed { ready: false });
    assert_eq!(
        after(end, WaitEvent::Clock { remaining: u64::MAX }),
        WaitStep::Pause { nanoseconds: PAUSE }
    );
    let late = after(end, WaitEvent::Clock { remaining: 0 });
    assert_eq!(
        describe_wait(goal, late, "web", 30).expect("failure").to_string(),
        "Portboard launch target `web` did not become ready within 30 seconds"
    );
    assert_eq!(
        describe_wait(WaitGoal::Process, late, "web", 30).expect("failure").to_string(),
        "Portboard launch target `web` process did not appear within 30 seconds"
    );
    let bare = after(scanned, WaitEvent::Metadata { has_primary: false });
    assert!(
        describe_wait(goal, bare, "web", 1)
            .expect("failure")
            .to_string()
            .contains("no primary endpoint")
    );
    assert_eq!(describe_wait(goal, probing, "web", 1), None);
    let quiet = wait_for_launch_target_ready(
        false,
        WaitStep::Scan,
        WaitEvent::Scanned { found: true, remaining: 5 },
    );
    assert_eq!(quiet, WaitStep::Ready { has_endpoint: false });
}

#[test]
fn waits_for_a_process_end_with_its_signature() {
    let missing = WaitEvent::Scanned { found: false, remaining: 5 };
    assert_eq!(wait_for_launch_target_process(WaitStep::Scan, missing), WaitStep::EndRound);
    let seen = WaitEvent::Scanned { found: true, remaining: 5 };
    assert_eq!(
        wait_for_launch_target_process(WaitStep::Scan, seen),
        WaitStep::Ready { has_endpoint: false }
    );
    let late = WaitEvent::Scanned { found: true, remaining: 0 };
    assert_eq!(wait_for_launch_target_process(WaitStep::Scan, late), WaitStep::Expired);
}
