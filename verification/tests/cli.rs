use portboard::browser_url::UrlOpenOutcome;
use portboard::current_workspace_status::{
    CurrentLaunchTargetStatus, LaunchTargetRuntimeState, WorktreeLaunchTargetInspection,
};
use portboard::launch_target_config::{LaunchTarget, LaunchTargetId};
use portboard::launch_target_ensure::{EnsureLaunchTargetOutcome, EnsureLaunchTargetResult};
use portboard::launch_target_processes::LaunchTargetProcess;
use portboard::portboard_cli::{
    check_log_reader, check_project_log, column_width, explain_runs, first_logs_step,
    not_running, pad_column, report_log_tab, run_ensure_command, run_logs_command,
    run_open_url_command, run_portboard_cli, run_ps_command, run_status_command,
    run_stop_command, run_url_command, tail_arguments, truncate_column, write_opened_url,
    write_url, write_url_closing, CliCommand, LogsEvent, LogsStep, ProjectLog, USAGE,
};
use portboard::portboard_error::PortboardError;
use portboard::process_endpoints::ProcessEndpoint;
use portboard::runtime_metadata::{LaunchTargetRuntimeMetadata, RuntimeEndpoint};
use portboard::worktree_processes::WorktreeProcessInventoryEntry;

fn strings(list: &[&str]) -> Vec<String> {
    list.iter().map(|text| text.to_string()).collect()
}

fn parse(arguments: &[&str]) -> Result<CliCommand, String> {
    run_portboard_cli(&strings(arguments)).map_err(|error| error.chain())
}

fn text(value: &str) -> Option<String> {
    Some(value.to_string())
}

fn run(pid: u32) -> LaunchTargetProcess {
    LaunchTargetProcess {
        metadata_members: vec![],
        pid,
        start_time: 1,
        argv: strings(&["node", "server.js"]),
    }
}

fn tcp(address: &str, port: u16) -> ProcessEndpoint {
    ProcessEndpoint { protocol: "tcp", address: address.to_string(), port }
}

fn named(id: &str, url: &str, primary: bool) -> RuntimeEndpoint {
    RuntimeEndpoint { id: id.to_string(), url: url.to_string(), primary, status: None }
}

fn status(label: &str, state: LaunchTargetRuntimeState) -> CurrentLaunchTargetStatus {
    CurrentLaunchTargetStatus {
        id: LaunchTargetId::new(label.to_lowercase()),
        label: label.to_string(),
        argv: vec![],
        endpoints: vec![],
        named_endpoints: vec![],
        duplicate: false,
        metadata_error: None,
        state,
    }
}

#[test]
fn no_arguments_ask_for_the_status() {
    assert_eq!(parse(&[]), Ok(CliCommand::Status { json: false, cwd: None }));
    assert_eq!(
        parse(&["status", "--cwd", "/a", "--json", "--cwd", "/b"]),
        Ok(CliCommand::Status { json: true, cwd: text("/b") })
    );
    assert_eq!(parse(&["ps", "--json"]), Ok(CliCommand::Ps { json: true, cwd: None }));
}

#[test]
fn unknown_commands_and_options_are_named() {
    assert_eq!(
        parse(&["fly"]),
        Err("Portboard command `fly` is unknown; run `portboard help`".to_string())
    );
    assert_eq!(
        parse(&["status", "--yaml"]),
        Err("Portboard status option `--yaml` is unknown".to_string())
    );
    assert_eq!(parse(&["ps", "web"]), Err("Portboard ps option `web` is unknown".to_string()));
    assert_eq!(
        parse(&["serve", "web"]),
        Err("Portboard serve option `web` is unknown".to_string())
    );
    assert_eq!(
        parse(&["stop", "a", "b"]),
        Err("Portboard stop argument `b` is unexpected".to_string())
    );
    assert_eq!(
        parse(&["status", "--cwd"]),
        Err("Portboard status --cwd needs a path".to_string())
    );
    assert_eq!(
        parse(&["serve", "--bind"]),
        Err("Portboard serve --bind needs an address".to_string())
    );
}

#[test]
fn targets_are_words_of_their_command() {
    assert_eq!(parse(&["open"]), Ok(CliCommand::Open { requested_id: None, cwd: None }));
    assert_eq!(
        parse(&["open", "web", "--cwd", "/a"]),
        Ok(CliCommand::Open { requested_id: text("web"), cwd: text("/a") })
    );
    assert_eq!(
        parse(&["stop"]),
        Err("Portboard stop needs a launch target id".to_string())
    );
    assert_eq!(
        parse(&["stop", "--json"]),
        Ok(CliCommand::Stop { target_id: "--json".to_string(), cwd: None })
    );
    assert_eq!(
        parse(&["serve", "--bind", "[::1]:1", "--cwd", "/a"]),
        Ok(CliCommand::Serve { bind: text("[::1]:1"), cwd: text("/a") })
    );
}

#[test]
fn ensuring_asks_for_herdr() {
    assert_eq!(
        parse(&["ensure", "--wait", "web", "--herdr"]),
        Ok(CliCommand::Ensure { target_id: "web".to_string(), wait: true, cwd: None })
    );
    assert_eq!(
        parse(&["ensure", "--herdr"]),
        Err("Portboard ensure needs a launch target id".to_string())
    );
    assert_eq!(
        parse(&["ensure", "web"]),
        Err("Portboard ensure currently requires --herdr so it cannot fall back to a background process".to_string())
    );
}

#[test]
fn urls_take_a_target_and_an_endpoint() {
    assert_eq!(
        parse(&["url", "web", "--open", "api"]),
        Ok(CliCommand::Url {
            target_id: "web".to_string(),
            endpoint_id: text("api"),
            open: true,
            cwd: None
        })
    );
    assert_eq!(
        parse(&["url", "a", "b", "c"]),
        Err("Portboard url received too many endpoint identifiers".to_string())
    );
    assert_eq!(parse(&["url"]), Err("Portboard url needs a launch target id".to_string()));
    assert_eq!(
        parse(&["open-url", "http://x", "ignored"]),
        Ok(CliCommand::OpenUrl { url: text("http://x") })
    );
    assert_eq!(parse(&["open-url"]), Ok(CliCommand::OpenUrl { url: None }));
}

#[test]
fn log_lines_are_a_positive_number() {
    let logs = |line_count, follow| {
        Ok(CliCommand::Logs { target_id: "web".to_string(), line_count, follow, cwd: None })
    };
    assert_eq!(parse(&["logs", "web"]), logs(200, false));
    assert_eq!(parse(&["logs", "-n", "+7", "web", "-f"]), logs(7, true));
    assert_eq!(parse(&["logs", "web", "--lines", "9", "--follow"]), logs(9, true));
    let complaint = "Portboard logs --lines needs a positive integer";
    assert_eq!(parse(&["logs", "web", "-n"]), Err(complaint.to_string()));
    assert_eq!(parse(&["logs", "web", "-n", "0"]), Err(complaint.to_string()));
    assert_eq!(
        parse(&["logs", "web", "-n", "x"]),
        Err(format!("{complaint}: invalid digit found in string"))
    );
    assert_eq!(
        parse(&["logs", "web", "-n", "4294967296"]),
        Err(format!("{complaint}: number too large to fit in target type"))
    );
}

#[test]
fn plain_commands_take_no_options() {
    assert_eq!(parse(&["panel", "--json"]), Ok(CliCommand::Panel));
    assert_eq!(parse(&["plugin-open"]), Ok(CliCommand::PluginOpen));
    for word in ["help", "--help", "-h"] {
        assert_eq!(parse(&[word]), Ok(CliCommand::Help));
    }
    assert!(USAGE.starts_with("Portboard\n\nUsage:\n"));
    assert_eq!(USAGE.lines().filter(|line| line.starts_with("  portboard ")).count(), 10);
}

#[test]
fn statuses_are_listed_with_their_endpoints() {
    let mut web = status("Web", LaunchTargetRuntimeState::Running { processes: vec![run(5)] });
    web.named_endpoints = vec![named("web", "http://a", true), named("api", "http://b", false)];
    let mut api = status(
        "Api",
        LaunchTargetRuntimeState::Running { processes: vec![run(6), run(7)] },
    );
    api.duplicate = true;
    api.endpoints = vec![tcp("0.0.0.0", 80), tcp("::1", 81)];
    let inspection = WorktreeLaunchTargetInspection {
        statuses: vec![web, api, status("Job", LaunchTargetRuntimeState::Stopped)],
        findings: vec!["odd".to_string()],
    };
    assert_eq!(
        run_status_command("/repo", &inspection),
        [
            "Portboard · /repo",
            "  Web                      running (pid 5) · web http://a, api http://b",
            "  Api                      running · DUPLICATE (2 instances) (pid 6, 7) · 0.0.0.0:80, ::1:81",
            "  Job                      stopped",
            "  warning: odd",
        ]
    );
}

#[test]
fn processes_are_listed_in_columns() {
    let entries = vec![
        WorktreeProcessInventoryEntry {
            pid: 7,
            argv: strings(&["node", &"x".repeat(80)]),
            target_ids: strings(&["web", "api-server"]),
            endpoints: vec![tcp("0.0.0.0", 80), tcp("::1", 81)],
        },
        WorktreeProcessInventoryEntry {
            pid: 12345,
            argv: strings(&["sleep", "30"]),
            target_ids: vec![],
            endpoints: vec![],
        },
    ];
    let short = format!("node {}…", "x".repeat(54));
    assert_eq!(
        run_ps_command("/repo", &entries),
        [
            "Portboard · /repo".to_string(),
            "PID    TARGET           PORTS    ARGV".to_string(),
            format!("7      web, api-server  :80 :81  {short}"),
            "12345  —                —        sleep 30".to_string(),
        ]
    );
    assert_eq!(run_ps_command("/r", &vec![])[1], "PID  TARGET  PORTS  ARGV");
}

#[test]
fn columns_fit_their_widest_value() {
    assert_eq!(column_width("PID", &strings(&["1", "12345"])), 5);
    assert_eq!(column_width("TARGET", &strings(&["—"])), 6);
    assert_eq!(pad_column("é", 3), "é  ");
    assert_eq!(pad_column("long", 2), "long");
    assert_eq!(truncate_column("abcdef", 4), "abc…");
    assert_eq!(truncate_column("abcd", 4), "abcd");
}

#[test]
fn ensuring_prints_the_outcome_and_the_url() {
    let mut ensured = EnsureLaunchTargetResult {
        outcome: EnsureLaunchTargetOutcome::AlreadyRunning,
        primary_endpoint: Some(named("web", "http://localhost:1", true)),
    };
    assert_eq!(
        run_ensure_command("web", &ensured),
        ["web: already running", "http://localhost:1"]
    );
    ensured.primary_endpoint = None;
    ensured.outcome = EnsureLaunchTargetOutcome::Starting;
    assert_eq!(run_ensure_command("web", &ensured), ["web: starting"]);
}

fn metadata(endpoints: Vec<RuntimeEndpoint>) -> LaunchTargetRuntimeMetadata {
    LaunchTargetRuntimeMetadata {
        version: 1,
        target_id: "web".to_string(),
        pid: 5,
        started_at: "now".to_string(),
        endpoints,
    }
}

#[test]
fn urls_come_from_the_metadata_of_a_running_target() {
    let both = || metadata(vec![named("web", "http://a", true), named("api", "http://b", false)]);
    let runs = vec![run(5)];
    assert_eq!(
        run_url_command("web", &None, &runs, Ok(Some(both()))),
        Ok("http://a".to_string())
    );
    assert_eq!(
        run_url_command("web", &text("api"), &runs, Ok(Some(both()))),
        Ok("http://b".to_string())
    );
    let failure = |endpoint: Option<String>, runs: &Vec<LaunchTargetProcess>, loaded| {
        run_url_command("web", &endpoint, runs, loaded).expect_err("failure").to_string()
    };
    assert_eq!(
        failure(None, &vec![], Ok(Some(both()))),
        "Portboard launch target `web` is not running"
    );
    assert_eq!(
        failure(None, &runs, Ok(None)),
        "Portboard launch target `web` has no current runtime metadata"
    );
    assert_eq!(
        failure(text("db"), &runs, Ok(Some(both()))),
        "Portboard launch target `web` has no endpoint `db`"
    );
    assert_eq!(
        failure(None, &runs, Ok(Some(metadata(vec![])))),
        "Portboard launch target `web` has no primary endpoint"
    );
    assert_eq!(failure(None, &runs, Err(PortboardError::new("broken".to_string()))), "broken");
}

#[test]
fn urls_are_printed_for_their_reader() {
    assert_eq!(write_url("http://localhost:1", false), "http://localhost:1");
    assert_eq!(
        write_url("http://localhost:1", true),
        "\x1b]8;;http://localhost:1\x1b\\http://localhost:1\x1b]8;;\x1b\\"
    );
    assert_eq!(write_url_closing("web", None), "");
    assert_eq!(
        write_url_closing("web", Some(UrlOpenOutcome::OpenedLocally)),
        "\nweb: opened in your browser"
    );
    assert_eq!(
        write_url_closing("web", Some(UrlOpenOutcome::OfferedLink)),
        "\nweb: ctrl-click the URL above to open it in your local browser"
    );
    assert_eq!(write_opened_url("u", UrlOpenOutcome::OpenedLocally), "opened u");
    assert_eq!(
        write_opened_url("u", UrlOpenOutcome::OfferedLink),
        "u (no local browser; ctrl-click it in a pane)"
    );
}

#[test]
fn clicked_urls_are_checked_before_they_are_echoed() {
    for control in ["\x07\x1b]52;c;AAAA\x07", "\t", "\n", "\r"] {
        let url = text(&format!("http://localhost:3000/{control}"));
        let error = run_open_url_command(&url, &None).expect_err("refused").to_string();
        assert!(!error.contains('\x07') && !error.contains('\x1b'));
        assert!(error.contains("control characters"));
    }
    assert_eq!(
        run_open_url_command(&None, &Some(b"https://localhost".to_vec())),
        Ok("https://localhost".to_string())
    );
    assert_eq!(
        run_open_url_command(&None, &Some(b"http://\xff".to_vec())),
        Ok("http://\u{fffd}".to_string())
    );
    assert_eq!(
        run_open_url_command(&text("ftp://x"), &None).expect_err("refused").to_string(),
        "Portboard open-url only opens http and https URLs, got `ftp://x`"
    );
    assert_eq!(
        run_open_url_command(&None, &None).expect_err("refused").to_string(),
        "Portboard open-url needs a URL argument or HERDR_PLUGIN_CLICKED_URL"
    );
}

#[test]
fn logs_are_looked_for_in_order() {
    let mut target = LaunchTarget {
        id: LaunchTargetId::new("web".to_string()),
        label: "Web".to_string(),
        argv: vec![],
        process_match: vec![],
        runtime_file: None,
        log_file: text("logs/web.log"),
    };
    assert_eq!(first_logs_step(&target), LogsStep::ShowProjectLog);
    target.log_file = None;
    let scan = first_logs_step(&target);
    assert_eq!(scan, LogsStep::Scan);
    let tab = run_logs_command(true, scan, LogsEvent::Scanned { runs: 1 });
    assert_eq!(tab, LogsStep::FocusTab);
    assert_eq!(
        run_logs_command(true, tab, LogsEvent::TabLookedFor { focused: true }),
        LogsStep::ReportTab
    );
    let search = run_logs_command(true, tab, LogsEvent::TabLookedFor { focused: false });
    assert_eq!(search, LogsStep::FindLog { running: true });
    assert_eq!(
        run_logs_command(true, search, LogsEvent::LogLookedFor { found: true }),
        LogsStep::ShowDashboardLog
    );
    assert_eq!(
        run_logs_command(true, search, LogsEvent::LogLookedFor { found: false }),
        LogsStep::ExplainRuns
    );
    let stopped = run_logs_command(true, scan, LogsEvent::Scanned { runs: 0 });
    assert_eq!(
        run_logs_command(true, stopped, LogsEvent::LogLookedFor { found: false }),
        LogsStep::NotRunning
    );
    assert_eq!(
        not_running("web").to_string(),
        "Portboard launch target `web` is not running"
    );
}

#[test]
fn logs_say_where_they_are() {
    assert_eq!(
        explain_runs("web", &vec![run(5)]),
        [
            "Portboard launch target `web` is running without Portboard-owned logs:",
            "  pid 5: node server.js",
            "Its output is attached to the terminal that started it.",
        ]
    );
    assert_eq!(
        report_log_tab("web", "w1:t2"),
        "Portboard launch target `web` logs live in Herdr tab w1:t2; focused it"
    );
    assert_eq!(tail_arguments(2, false), ["-n", "2"]);
    assert_eq!(tail_arguments(200, true), ["-n", "200", "-F"]);
    assert!(check_log_reader(true, "").is_ok());
    assert_eq!(
        check_log_reader(false, "exit status: 1").expect_err("failure").to_string(),
        "Portboard log reader exited with exit status: 1"
    );
}

#[test]
fn project_logs_stay_in_the_worktree() {
    let log = |is_file, resolved: Result<&str, &str>| ProjectLog {
        is_file,
        root: Ok(b"/repo".to_vec()),
        resolved: resolved.map(|path| path.as_bytes().to_vec()).map_err(|cause| cause.to_string()),
    };
    let check = |log| check_project_log("web", "/repo", "/repo/logs/web.log", log);
    assert!(check(log(true, Ok("/repo/logs/web.log"))).is_ok());
    assert_eq!(
        check(log(true, Ok("/repository/web.log"))).expect_err("outside").to_string(),
        "Portboard launch target `web` log resolves outside the worktree: /repo/logs/web.log"
    );
    assert_eq!(
        check(log(false, Ok("/repo/logs/web.log"))).expect_err("missing").to_string(),
        "Portboard launch target `web` log does not exist at /repo/logs/web.log"
    );
    assert_eq!(
        check(log(true, Err("denied"))).expect_err("unresolved").chain(),
        "Portboard could not resolve /repo/logs/web.log: denied"
    );
    let lost = ProjectLog {
        is_file: true,
        root: Err("gone".to_string()),
        resolved: Err("gone".to_string()),
    };
    assert_eq!(
        check(lost).expect_err("unresolved").chain(),
        "Portboard could not resolve worktree /repo: gone"
    );
}

#[test]
fn stops_are_reported_by_their_pids() {
    assert_eq!(run_stop_command("probe", &vec![]), "probe: already stopped");
    assert_eq!(run_stop_command("probe", &vec![5, 6]), "probe: stopping pid 5, 6");
}
