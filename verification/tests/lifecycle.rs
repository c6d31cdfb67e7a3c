use portboard::current_worktree::resolve_current_worktree;
use portboard::herdr_workspace::{
    close_idle_launch_target_tab, close_launch_target_herdr_tab, create_tab,
    current_herdr_workspace_id, describe_herdr_launch, focus_herdr_tab,
    focus_launch_target_in_herdr, foreground_process_pid, launch_target_herdr_tab_id,
    launch_target_in_herdr, launch_target_runs_in_herdr, open_current_workspace_plugin_panel,
    pane_liveness, reap_stale_launch_target_tabs, require_herdr_success, run_in_pane,
    write_shell_word, HerdrLaunchEvent, HerdrLaunchStep, HerdrPluginContext, PaneProcesses,
    PaneRecord, PaneShell, TabRecord,
};
use portboard::launch_target_config::{LaunchTarget, LaunchTargetId, PortboardConfig};
use portboard::launch_target_ensure::{
    ensure_launch_target_in_herdr, find_launch_target, require_portboard_herdr_run,
    EnsureEvent, EnsureLaunchTargetOutcome, EnsureStep,
};
use portboard::launch_target_lock::{
    lock_directory, lock_file_name, read_reservation, LaunchTargetLock,
};
use portboard::launch_target_open::{
    open_or_start_launch_target, select_launch_target, start_launch_target_attached_failure,
    wait_for_attached_launch, wait_for_attached_launch_failure, write_report,
    write_report_heading, write_run_line, OpenEvent, OpenReport, OpenStep,
};
use portboard::launch_target_processes::{LaunchTargetProcess, ParentLink};
use portboard::launch_target_stop::{
    describe_stop, handle_refused, keeps_waiting, owned_runs, plan_termination, runs_to_stop,
    signal_if_current, signal_pid, stop_launch_target, stop_launch_target_and_close_herdr_tab,
    stop_launch_target_with_owned_group, stop_roots, HandleOutcome, Shutdown, ShutdownEvent,
    ShutdownPhase, StopEvent, StopStep, TerminatePlan, INVALID_ARGUMENT, NO_SUCH_CALL,
    NO_SUCH_PROCESS,
};
use portboard::process_identity::ProcessIdentity;
use portboard::state_paths::{directory_for_digest, state_root, worktree_state_directory};

fn target(id: &str, argv: &[&str]) -> LaunchTarget {
    LaunchTarget {
        id: LaunchTargetId::new(id.to_string()),
        label: id.to_uppercase(),
        argv: argv.iter().map(|text| text.to_string()).collect(),
        process_match: vec![],
        runtime_file: None,
        log_file: None,
    }
}

fn identity(pid: u32, start_time: u64) -> ProcessIdentity {
    ProcessIdentity { pid, start_time }
}

fn run(pid: u32) -> LaunchTargetProcess {
    LaunchTargetProcess {
        metadata_members: vec![],
        pid,
        start_time: 1,
        argv: vec!["node".to_string(), "a b".to_string()],
    }
}

#[test]
fn fallback_escalation_does_not_signal_reused_pid() {
    let original = identity(123, 10);
    let replacement = identity(123, 20);
    let calls = std::cell::Cell::new(0);
    signal_if_current(original, libc::SIGKILL, |_| Some(replacement), |_, _| {
        calls.set(calls.get() + 1);
        Ok(())
    })
    .unwrap();
    assert_eq!(calls.get(), 0);
    signal_if_current(original, libc::SIGKILL, |_| Some(original), |_, signal| {
        assert_eq!(signal, libc::SIGKILL);
        calls.set(calls.get() + 1);
        Ok(())
    })
    .unwrap();
    assert_eq!(calls.get(), 1);
}

#[test]
fn refused_handles_are_told_apart() {
    assert_eq!((NO_SUCH_PROCESS, NO_SUCH_CALL, INVALID_ARGUMENT), (
        libc::ESRCH,
        libc::ENOSYS,
        libc::EINVAL
    ));
    assert_eq!(handle_refused(libc::ENOSYS), HandleOutcome::Unsupported);
    assert_eq!(handle_refused(libc::EPERM), HandleOutcome::Failed);
    assert_eq!(plan_termination(HandleOutcome::Opened, true), TerminatePlan::Signal);
    assert_eq!(plan_termination(HandleOutcome::Unsupported, false), TerminatePlan::Signal);
    assert_eq!(plan_termination(HandleOutcome::Failed, false), TerminatePlan::Skip);
    assert_eq!(plan_termination(HandleOutcome::Failed, true), TerminatePlan::Fail);
    assert_eq!(signal_pid(identity(77, 1)), Ok(77));
    assert!(signal_pid(identity(u32::MAX, 1)).is_err());
    assert!(keeps_waiting(true, 1));
    assert!(!keeps_waiting(true, 0));
    assert!(!keeps_waiting(false, 1));
}

#[test]
fn shutdowns_terminate_kill_and_confirm() {
    let mut shutdown = Shutdown::stop_process_identities(vec![identity(5, 1), identity(6, 2)]);
    assert_eq!(shutdown.phase(), ShutdownPhase::Terminate(0));
    assert_eq!(shutdown.process(), Some(identity(5, 1)));
    shutdown.observe(ShutdownEvent::Skipped);
    assert_eq!(shutdown.process(), Some(identity(6, 2)));
    shutdown.observe(ShutdownEvent::Signaled);
    assert_eq!(shutdown.phase(), ShutdownPhase::AwaitTermination);
    shutdown.observe(ShutdownEvent::Waited);
    assert_eq!(shutdown.phase(), ShutdownPhase::Kill(0));
    assert_eq!(shutdown.process(), Some(identity(6, 2)));
    shutdown.observe(ShutdownEvent::Signaled);
    shutdown.observe(ShutdownEvent::Waited);
    assert_eq!(shutdown.phase(), ShutdownPhase::Confirm);
    shutdown.observe(ShutdownEvent::Checked { some_live: false });
    assert_eq!(shutdown.outcome(), Ok(vec![6]));
    assert_eq!(shutdown.signaled(), &vec![identity(6, 2)]);
}

#[test]
fn surviving_processes_fail_a_shutdown() {
    let mut shutdown = Shutdown::stop_process_identities(vec![]);
    assert_eq!(shutdown.phase(), ShutdownPhase::AwaitTermination);
    for event in [ShutdownEvent::Waited, ShutdownEvent::Waited] {
        shutdown.observe(event);
    }
    shutdown.observe(ShutdownEvent::Checked { some_live: true });
    assert_eq!(shutdown.phase(), ShutdownPhase::Survived);
    assert!(shutdown.outcome().is_err());
}

#[test]
fn reservations_count_as_runs_to_stop() {
    let with = runs_to_stop(vec![run(5)], Some(identity(9, 3)));
    assert_eq!(with.iter().map(|one| one.pid).collect::<Vec<_>>(), [5, 9]);
    assert_eq!(runs_to_stop(vec![run(5)], Some(identity(5, 1))).len(), 1);
    let environments = vec![Some(b"PORTBOARD_TARGET_ID=web\0".to_vec()), None];
    let runs = vec![run(5), run(6)];
    assert_eq!(owned_runs(&runs, &environments, None, "web")[0].pid, 5);
    assert_eq!(owned_runs(&runs, &environments, Some(identity(6, 1)), "web").len(), 2);
    let roots = stop_roots(&runs, &vec![identity(5, 1), identity(8, 1)]);
    assert!(roots.contains(&identity(8, 1)) && roots.contains(&identity(6, 1)));
}

#[test]
fn stops_are_confirmed_before_the_reservation_goes() {
    let mut step = StopStep::LockAndScan;
    for event in [
        StopEvent::Scanned { some_owned: true },
        StopEvent::TabLookedFor { found: true },
        StopEvent::Captured,
        StopEvent::Signaled,
        StopEvent::RunsChecked { has_runs: false },
    ] {
        step = stop_launch_target_and_close_herdr_tab(step, event);
    }
    assert_eq!(step, StopStep::ClearReservation { has_tab: true });
    step = stop_launch_target_and_close_herdr_tab(step, StopEvent::Cleared);
    assert_eq!(step, StopStep::CloseTab);
    step = stop_launch_target_and_close_herdr_tab(step, StopEvent::TabHandled);
    assert_eq!(step, StopStep::Stopped);
    assert_eq!(describe_stop(step), None);
    let bare = stop_launch_target(StopStep::LockAndScan, StopEvent::Scanned { some_owned: true });
    assert_eq!(bare, StopStep::CaptureTrees { has_tab: false });
    let survived = stop_launch_target(
        StopStep::CheckRuns { has_tab: false },
        StopEvent::RunsChecked { has_runs: true },
    );
    assert!(describe_stop(survived).expect("failure").to_string().contains("live processes"));
    let group = stop_launch_target_with_owned_group(
        StopStep::Signal { has_tab: false },
        StopEvent::Signaled,
    );
    assert_eq!(group, StopStep::CheckGroup { has_tab: false });
    let members = stop_launch_target_with_owned_group(
        group,
        StopEvent::GroupChecked { has_members: true },
    );
    assert!(describe_stop(members).expect("failure").to_string().contains("group"));
}

#[test]
fn reservations_track_one_process() {
    let mut lock = LaunchTargetLock::acquire(String::new());
    assert_eq!(lock.reserved_pid(), None);
    assert!(lock.reserve_process(42, Some(7)));
    assert_eq!(lock.contents, "42 7\n");
    assert_eq!(lock.reserved_pid(), Some(42));
    assert!(lock.has_active_reservation(Some(7)));
    assert_eq!(lock.active_reservation_identity(Some(7)), Some(identity(42, 7)));
    assert_eq!(lock.active_reservation_pid(Some(7)), Some(42));
    assert!(!lock.has_active_reservation(Some(8)));
    assert_eq!(lock.contents, "");
    assert!(!lock.reserve_process(42, None));
    lock.contents = "42 7\n".to_string();
    lock.clear();
    assert_eq!(lock.contents, "");
    assert_eq!(read_reservation("42 7\n"), Some(identity(42, 7)));
    assert_eq!(read_reservation("42\n"), None);
    assert_eq!(lock_file_name("web"), "web.lock");
    assert!(lock_directory(b"/state").starts_with(b"/state/"));
}

#[test]
fn canceled_reservations_stay_until_the_launcher_is_gone() {
    let shut_down = |some_live| {
        let mut shutdown = Shutdown::stop_process_identities(vec![identity(42, 7)]);
        shutdown.observe(ShutdownEvent::Signaled);
        shutdown.observe(ShutdownEvent::Waited);
        shutdown.observe(ShutdownEvent::Signaled);
        shutdown.observe(ShutdownEvent::Waited);
        shutdown.observe(ShutdownEvent::Checked { some_live });
        shutdown
    };
    let mut lock = LaunchTargetLock::acquire(String::new());
    assert!(lock.reserve_process(42, Some(7)));
    let refused = lock.cancel_active_reservation(Some(7), &shut_down(true));
    assert!(refused.is_err_and(|error| error.to_string().contains("could not confirm")));
    assert_eq!(lock.contents, "42 7\n");
    assert_eq!(lock.cancel_active_reservation(Some(7), &shut_down(false)), Ok(Some(42)));
    assert_eq!(lock.contents, "");
    assert!(!lock.has_active_reservation(Some(7)));
    let nothing = Shutdown::stop_process_identities(Vec::new());
    assert_eq!(lock.cancel_active_reservation(None, &nothing), Ok(None));
    lock.contents = "42 7\n".to_string();
    assert_eq!(lock.cancel_active_reservation(Some(8), &nothing), Ok(None));
    assert_eq!(lock.contents, "");
}

#[test]
fn state_lives_below_the_first_directory_that_is_set() {
    let some = |text: &str| Some(text.as_bytes().to_vec());
    assert_eq!(state_root(some("/own"), some("/shared"), some("/home")), Ok(b"/own".to_vec()));
    assert_eq!(
        state_root(None, some("/shared"), some("/home")),
        Ok(b"/shared/portboard".to_vec())
    );
    assert_eq!(
        state_root(None, None, some("/home")),
        Ok(b"/home/.local/state/portboard".to_vec())
    );
    assert!(state_root(None, None, None).is_err());
    let expected = "/s/worktrees/ba7816bf8f01cfea414140de5dae2223b00361a396177a9cb410ff61f20015ad";
    assert_eq!(worktree_state_directory(b"/s", b"abc"), expected.as_bytes());
    assert_eq!(directory_for_digest(b"/s", &[0xab, 1]), b"/s/worktrees/ab01");
}

#[test]
fn printed_roots_keep_their_bytes() {
    let root = |output: &[u8]| resolve_current_worktree(true, output.to_vec(), "/x");
    assert_eq!(root(b"/tmp/non-utf8-\xff\n"), Ok(b"/tmp/non-utf8-\xff".to_vec()));
    assert_eq!(root(b"/tmp/trailing space \n"), Ok(b"/tmp/trailing space ".to_vec()));
    assert_eq!(
        resolve_current_worktree(false, vec![], "/x").expect_err("failure").to_string(),
        "Portboard workspace /x is not inside a Git worktree"
    );
}

#[test]
fn plugin_panels_need_a_workspace() {
    let mut context = HerdrPluginContext {
        workspace_id: Some("w6".to_string()),
        workspace_cwd: Some("/tmp/project".to_string()),
        focused_pane_id: None,
    };
    let arguments = open_current_workspace_plugin_panel(&context, &None).expect("arguments");
    assert_eq!(arguments.join(" "), "plugin pane open --plugin portboard --entrypoint current --cwd /tmp/project --env PORTBOARD_WORKSPACE_ID=w6 --focus");
    context.workspace_cwd = None;
    assert!(open_current_workspace_plugin_panel(&context, &None).is_err());
    context.workspace_id = None;
    assert!(open_current_workspace_plugin_panel(&context, &None).is_err());
    assert_eq!(
        current_herdr_workspace_id(None, Some("w1".to_string())).as_deref(),
        Some("w1")
    );
    assert_eq!(current_herdr_workspace_id(Some(String::new()), Some("w1".to_string())), None);
}

#[test]
fn herdr_is_asked_for_a_tab_of_its_own() {
    let web = target("web", &["sh", "-c", "exec it's", "if"]);
    assert_eq!(
        create_tab("w1", "/repo", &web).join(" "),
        "tab create --workspace w1 --cwd /repo --label web --env PORTBOARD_TARGET_ID=web --no-focus"
    );
    assert_eq!(run_in_pane("w1:p2", &target("web", &["sleep", "30"])).join(" "), "pane run w1:p2 sleep 30");
    assert_eq!(
        run_in_pane("w1:p2", &web),
        ["pane", "run", "w1:p2", "sh", "-c", "'exec it'\\''s'", "'if'"]
    );
    assert_eq!(write_shell_word(""), "''");
    assert_eq!(focus_herdr_tab("t1"), ["tab", "focus", "t1"]);
    assert_eq!(close_launch_target_herdr_tab("t1"), ["tab", "close", "t1"]);
    let pane = PaneProcesses { shell_pid: 3, foreground: vec![3, 9] };
    assert_eq!(foreground_process_pid(&pane), Some(9));
    let arguments = focus_herdr_tab("t1");
    assert!(require_herdr_success(&arguments, true, b"").is_ok());
    assert_eq!(
        require_herdr_success(&arguments, false, b" no tab\n").expect_err("failure").to_string(),
        "Portboard Herdr command failed: tab focus t1: no tab"
    );
}

#[test]
fn failed_launches_close_their_tab() {
    let next = |step, event| launch_target_in_herdr(step, event, true);
    let running = next(HerdrLaunchStep::CreateTab, HerdrLaunchEvent::Created);
    let failed = next(running, HerdrLaunchEvent::Ran { succeeded: false });
    assert_eq!(failed, HerdrLaunchStep::CloseFailed);
    let closed = next(failed, HerdrLaunchEvent::Closed);
    let error = describe_herdr_launch(closed, "boom".to_string()).expect("failure");
    assert_eq!(error.chain(), "Portboard Herdr launch could not start the target command: boom");
    let looking = next(running, HerdrLaunchEvent::Ran { succeeded: true });
    let again = next(looking, HerdrLaunchEvent::Looked { pid: None, remaining: 5 });
    assert_eq!(again, HerdrLaunchStep::FindProcess);
    let lost = next(again, HerdrLaunchEvent::Looked { pid: None, remaining: 0 });
    assert_eq!(lost, HerdrLaunchStep::CloseUnidentified);
    let found = next(again, HerdrLaunchEvent::Looked { pid: Some(8), remaining: 0 });
    assert_eq!(found, HerdrLaunchStep::FocusTab { pid: 8 });
    let quiet = launch_target_in_herdr(
        again,
        HerdrLaunchEvent::Looked { pid: Some(8), remaining: 0 },
        false,
    );
    assert_eq!(quiet, HerdrLaunchStep::Launched { pid: 8 });
}

#[test]
fn runs_are_found_in_the_tab_of_their_shell() {
    let links = vec![ParentLink { pid: 9, parent: 3 }, ParentLink { pid: 3, parent: 1 }];
    let panes = vec![
        PaneShell { tab_id: "t0".to_string(), shell_pid: None },
        PaneShell { tab_id: "t1".to_string(), shell_pid: Some(3) },
    ];
    assert_eq!(
        launch_target_herdr_tab_id(&panes, &vec![run(9)], &links).as_deref(),
        Some("t1")
    );
    assert!(!launch_target_runs_in_herdr(&panes, &vec![run(7)], &links));
    assert_eq!(
        focus_launch_target_in_herdr(&panes, &vec![run(9)], &links),
        Some(focus_herdr_tab("t1"))
    );
}

#[test]
fn only_idle_tabs_of_the_target_are_closed() {
    let environment = Some(b"PORTBOARD_TARGET_ID=web\0".to_vec());
    let idle = pane_liveness(
        &Some(PaneProcesses { shell_pid: 3, foreground: vec![3] }),
        &environment,
        "web",
    );
    assert!(idle.portboard_owned && !idle.has_foreground_command);
    let unknown = pane_liveness(&None, &environment, "web");
    assert!(!unknown.portboard_owned && unknown.has_foreground_command);
    let tab = |tab_id: &str, label: &str| TabRecord {
        tab_id: tab_id.to_string(),
        label: label.to_string(),
    };
    let panes = vec![
        PaneRecord { tab_id: "t1".to_string(), liveness: idle },
        PaneRecord { tab_id: "t2".to_string(), liveness: idle },
        PaneRecord { tab_id: "t3".to_string(), liveness: unknown },
    ];
    let tabs = vec![tab("t1", "web"), tab("t2", "notes"), tab("t3", "web"), tab("t4", "web")];
    assert_eq!(reap_stale_launch_target_tabs(&tabs, &panes, &target("web", &["x"])), ["t1"]);
    assert!(close_idle_launch_target_tab(&panes, "t2"));
    assert!(!close_idle_launch_target_tab(&panes, "t3"));
}

#[test]
fn opening_starts_or_shows_the_one_run() {
    let next = open_or_start_launch_target;
    let clear = next(true, OpenStep::LockAndScan, OpenEvent::Scanned { runs: 0 });
    assert_eq!(clear, OpenStep::CheckReservation);
    assert_eq!(
        next(true, clear, OpenEvent::Reservation { active: true }),
        OpenStep::Report(OpenReport::Starting)
    );
    let approve = next(true, clear, OpenEvent::Reservation { active: false });
    assert_eq!(next(true, approve, OpenEvent::Approved), OpenStep::LaunchInHerdr);
    let attached = next(false, approve, OpenEvent::Approved);
    let reserve = next(false, attached, OpenEvent::Launched { pid: 4 });
    assert_eq!(reserve, OpenStep::ReserveAttached { pid: 4 });
    assert_eq!(next(false, reserve, OpenEvent::Reserved), OpenStep::WaitForChild);
    let one = next(true, OpenStep::LockAndScan, OpenEvent::Scanned { runs: 1 });
    let focus = next(true, one, OpenEvent::Cleared);
    assert_eq!(
        next(true, focus, OpenEvent::TabLookedFor { focused: true }),
        OpenStep::Report(OpenReport::Focused)
    );
    let two = next(true, OpenStep::LockAndScan, OpenEvent::Scanned { runs: 2 });
    assert_eq!(next(true, two, OpenEvent::Cleared), OpenStep::Report(OpenReport::Duplicates));
}

#[test]
fn opening_reports_the_runs_it_found() {
    assert_eq!(
        write_report(OpenReport::Duplicates, "Web", "/repo", &vec![run(5), run(6)]),
        Ok(vec![
            "Web has 2 duplicate instances running; refusing to focus or start another".to_string(),
            "  pid 5: [\"node\",\"a b\"]".to_string(),
            "  pid 6: [\"node\",\"a b\"]".to_string(),
        ])
    );
    assert_eq!(
        write_report_heading(OpenReport::RunsElsewhere, "Web", "/repo", 1),
        ["Web is already running outside a Portboard-owned Herdr pane", "  cwd: /repo"]
    );
    assert_eq!(write_report_heading(OpenReport::Focused, "Web", "", 1), ["Focused Web"]);
    assert_eq!(write_report_heading(OpenReport::Starting, "Web", "", 0), ["Web is starting"]);
    assert_eq!(
        write_report_heading(OpenReport::StartedInHerdr, "Web", "", 0),
        ["Started Web in Herdr"]
    );
    assert_eq!(write_run_line(7, "[]"), "  pid 7: []");
}

#[test]
fn one_target_needs_no_name() {
    let config = |targets| PortboardConfig { version: 1, launch_targets: targets };
    let one = config(vec![target("web", &["x"])]);
    assert_eq!(select_launch_target(&one, &None).expect("target").id.as_str(), "web");
    assert!(select_launch_target(&one, &Some("api".to_string())).is_err());
    assert_eq!(
        select_launch_target(&config(vec![]), &None).expect_err("none").to_string(),
        "Portboard manifest has no launch targets"
    );
    let two = config(vec![target("web", &["x"]), target("api", &["y"])]);
    assert_eq!(
        select_launch_target(&two, &None).expect_err("several").to_string(),
        "Portboard open needs a launch target id when multiple targets are configured"
    );
    assert_eq!(
        select_launch_target(&two, &Some("api".to_string())).expect("target").id.as_str(),
        "api"
    );
}

#[test]
fn attached_launches_fail_with_their_command() {
    let web = target("web", &["npm", "start"]);
    assert_eq!(
        start_launch_target_attached_failure(&web, "missing".to_string()).chain(),
        "Portboard attached launch could not start `npm start`: missing"
    );
    assert_eq!(
        wait_for_attached_launch_failure(&web, "lost".to_string()).chain(),
        "Portboard attached launch could not wait for `npm start`: lost"
    );
    assert!(wait_for_attached_launch(&web, true, "").is_ok());
    assert_eq!(
        wait_for_attached_launch(&web, false, "exit status: 3").expect_err("failed").to_string(),
        "Portboard attached launch `npm start` exited with exit status: 3"
    );
}

#[test]
fn ensuring_needs_a_workspace_and_an_owned_tab() {
    let config = PortboardConfig { version: 1, launch_targets: vec![target("probe", &["x"])] };
    assert!(
        find_launch_target(&config, &None, "probe")
            .expect_err("no workspace")
            .to_string()
            .contains("requires a Herdr workspace")
    );
    let workspace = Some("w1".to_string());
    assert_eq!(find_launch_target(&config, &workspace, "probe").expect("target").label, "PROBE");
    let next = |step, event| ensure_launch_target_in_herdr(true, step, event);
    let found = next(EnsureStep::LockAndScan, EnsureEvent::Scanned { runs: 1 });
    let host = next(found, EnsureEvent::Cleared);
    let elsewhere = next(host, EnsureEvent::HostChecked { owned_in_workspace: false });
    assert_eq!(
        require_portboard_herdr_run(elsewhere, "probe").expect_err("elsewhere").to_string(),
        "Portboard launch target `probe` is running outside its Portboard-owned Herdr tab; stop it, then retry `portboard ensure probe --herdr --wait`"
    );
    let owned = next(host, EnsureEvent::HostChecked { owned_in_workspace: true });
    let outcome = EnsureLaunchTargetOutcome::AlreadyRunning;
    assert_eq!(owned, EnsureStep::AwaitReady { outcome });
    assert_eq!(next(owned, EnsureEvent::Ready), EnsureStep::Done { outcome });
    assert!(require_portboard_herdr_run(owned, "probe").is_ok());
    let twice = EnsureStep::RunsTwice { runs: 2 };
    assert!(require_portboard_herdr_run(twice, "probe").is_err());
}

#[test]
fn ensuring_starts_what_nobody_else_starts() {
    let next = |step, event| ensure_launch_target_in_herdr(false, step, event);
    let clear = next(EnsureStep::LockAndScan, EnsureEvent::Scanned { runs: 0 });
    let awaited = next(clear, EnsureEvent::Reservation { active: true });
    assert_eq!(awaited, EnsureStep::AwaitProcess);
    let appeared = next(awaited, EnsureEvent::Appeared { runs: 1 });
    let starting = EnsureLaunchTargetOutcome::Starting;
    assert_eq!(appeared, EnsureStep::CheckHost { runs: 1, outcome: starting });
    let approve = next(clear, EnsureEvent::Reservation { active: false });
    let launch = next(approve, EnsureEvent::Approved);
    let reserve = next(launch, EnsureEvent::Launched { pid: 12 });
    assert_eq!(reserve, EnsureStep::Reserve { pid: 12 });
    let started = EnsureLaunchTargetOutcome::Started;
    assert_eq!(next(reserve, EnsureEvent::Reserved), EnsureStep::Done { outcome: started });
    assert_eq!(started.words(), "started");
}
