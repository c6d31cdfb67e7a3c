use portboard::current_workspace_status::{
    inspect_worktree_launch_targets, LaunchTargetRuntimeState, MetadataObservation,
};
use portboard::ip_text::{
    loopback, parse_local_address, write_ip, write_socket, IpAddress, SocketAddress,
};
use portboard::launch_target_config::{LaunchTarget, LaunchTargetId, PortboardConfig};
use portboard::launch_target_processes::{
    find_launch_target_processes, find_worktree_processes, follow_ancestry,
    process_argument_matches, process_descends_from, process_has_portboard_target_identity,
    read_parent_pid, read_process_start_time, sibling_git_worktrees, split_command_line,
    DiscoverySnapshot, LaunchTargetProcess, ParentLink, ProcessObservation, WorktreeProcess,
};
use portboard::process_endpoints::{
    find_process_endpoints, find_process_endpoints_by_process, owning_root, process_socket_inodes,
    SocketHolder, SocketSnapshot,
};
use portboard::process_identity::{
    holds_environment_entry, process_trees, read_stat, GroupObservation, OwnedProcessGroup,
    ProcessIdentity,
};
use portboard::runtime_metadata::RuntimeFileObservation;
use portboard::worktree_processes::{
    inspect_worktree_processes, inspect_worktree_processes_with_snapshot,
};

fn target(id: &str, signature: &[&str]) -> LaunchTarget {
    LaunchTarget {
        id: LaunchTargetId::new(id.to_string()),
        label: id.to_string(),
        argv: vec!["sleep".to_string(), "30".to_string()],
        process_match: signature.iter().map(|text| text.to_string()).collect(),
        runtime_file: None,
        log_file: None,
    }
}

fn process(pid: u32, argv: &[&str], environment: Option<&[u8]>) -> WorktreeProcess {
    WorktreeProcess {
        pid,
        start_time: u64::from(pid) + 1000,
        argv: argv.iter().map(|text| text.to_string()).collect(),
        environment: environment.map(|bytes| bytes.to_vec()),
    }
}

fn link(pid: u32, parent: u32) -> ParentLink {
    ParentLink { pid, parent }
}

fn stat_line(pid: u32, parent: u32, group: u32, start: u64) -> String {
    let mut fields = vec!["S".to_string(), parent.to_string(), group.to_string()];
    while fields.len() < 19 {
        fields.push("0".to_string());
    }
    fields.push(start.to_string());
    format!("{pid} (a) b) {} 0 0", fields.join(" "))
}

fn observation(pid: u32, cwd: &[u8], command: &[u8], environment: &[u8]) -> ProcessObservation {
    ProcessObservation {
        name: pid.to_string(),
        stat: Some(stat_line(pid, 1, pid, u64::from(pid) * 10)),
        cwd: Some(cwd.to_vec()),
        command_line: Some(command.to_vec()),
        stat_again: Some(stat_line(pid, 1, pid, u64::from(pid) * 10)),
        environment: Some(environment.to_vec()),
    }
}

fn no_sockets() -> SocketSnapshot {
    SocketSnapshot { links: vec![], holders: vec![], tcp: None, tcp6: None }
}

#[test]
fn reports_stopped_launch_target_when_no_process_matches() {
    let mut missing = target("missing", &["portboard-process-that-does-not-exist"]);
    missing.label = "Missing server".to_string();
    missing.argv = vec!["missing-command".to_string()];
    let config = PortboardConfig { version: 1, launch_targets: vec![missing] };
    let seen = vec![observation(50, b"/repo", b"node\0server.js\0", b"")];
    let snapshot = DiscoverySnapshot::capture(b"/repo", &vec![], 1, &seen, no_sockets());
    let observed =
        vec![MetadataObservation { file: RuntimeFileObservation::PathMissing, live: vec![] }];

    let statuses = inspect_worktree_launch_targets(&config, &snapshot, observed).statuses;

    assert_eq!(statuses.len(), 1);
    assert_eq!(statuses[0].state, LaunchTargetRuntimeState::Stopped);
}

#[test]
fn parses_proc_tcp_addresses() {
    assert_eq!(
        parse_local_address("0100007F:45E8", false),
        Some(("127.0.0.1".to_string(), 17_896))
    );
    assert_eq!(
        parse_local_address("00000000000000000000000001000000:1F90", true),
        Some(("::1".to_string(), 8080))
    );
}

#[test]
fn malformed_addresses_are_no_endpoints() {
    assert_eq!(parse_local_address("0100007F", false), None);
    assert_eq!(parse_local_address("0100007G:45E8", false), None);
    assert_eq!(parse_local_address("0100007F:145E8", false), None);
}

#[test]
fn addresses_are_written_as_the_standard_library_does() {
    let v6 = |segments| write_ip(&IpAddress::V6(segments));
    assert_eq!(write_ip(&IpAddress::V4([192, 0, 2, 1])), "192.0.2.1");
    assert_eq!(v6([0, 0, 0, 0, 0, 0, 0, 0]), "::");
    assert_eq!(v6([0x2001, 0xdb8, 0, 0, 1, 0, 0, 1]), "2001:db8::1:0:0:1");
    assert_eq!(v6([0, 0, 0, 0, 0, 0xffff, 0xc000, 0x0201]), "::ffff:192.0.2.1");
    assert_eq!(v6([1, 0, 3, 0, 5, 0, 7, 0]), "1:0:3:0:5:0:7:0");
    let socket = |ip, scope| write_socket(&SocketAddress { ip, scope, port: 80 });
    assert_eq!(socket(IpAddress::V4([127, 0, 0, 1]), 0), "127.0.0.1:80");
    assert_eq!(socket(IpAddress::V6([0, 0, 0, 0, 0, 0, 0, 1]), 0), "[::1]:80");
    assert_eq!(socket(IpAddress::V6([0xfe80, 0, 0, 0, 0, 0, 0, 1]), 3), "[fe80::1%3]:80");
    assert!(loopback(&IpAddress::V4([127, 9, 9, 9])));
    assert!(!loopback(&IpAddress::V6([0, 0, 0, 0, 0, 0, 0, 2])));
}

#[test]
fn stat_lines_are_read_behind_the_command_name() {
    let stat = read_stat(7, &stat_line(7, 3, 5, 99)).expect("stat");
    assert_eq!(stat.identity, ProcessIdentity { pid: 7, start_time: 99 });
    assert_eq!((stat.parent, stat.group), (3, 5));
    assert_eq!(read_process_start_time(&stat_line(7, 3, 5, 99)), Some(99));
    assert_eq!(read_stat(7, "7 (a S 1"), None);
    let identity = ProcessIdentity { pid: 7, start_time: 99 };
    assert_eq!(ProcessIdentity::read(7, Some(&stat_line(7, 3, 5, 99))), Some(identity));
    assert!(identity.is_live(Some(&stat_line(7, 3, 5, 99))));
    assert!(!identity.is_live(Some(&stat_line(7, 3, 5, 100))));
    assert!(!identity.is_live(None));
}

#[test]
fn groups_claim_only_processes_with_their_token() {
    let seen = |pid: u32, group: u32, environment: &[u8]| GroupObservation {
        pid,
        stat: Some(stat_line(pid, 1, group, 5)),
        environment: Some(environment.to_vec()),
        stat_again: Some(stat_line(pid, 1, group, 5)),
    };
    let group = OwnedProcessGroup { pgid: 40, token: "run".to_string() };
    let members = group.members(&vec![
        seen(41, 40, b"A=1\0PORTBOARD_RUN_TOKEN=run\0"),
        seen(42, 40, b"A=1\0"),
        seen(43, 44, b"PORTBOARD_RUN_TOKEN=run\0"),
        seen(45, 40, b"PORTBOARD_RUN_TOKEN=runs\0"),
    ]);
    assert_eq!(members, [ProcessIdentity { pid: 41, start_time: 5 }]);
    assert!(holds_environment_entry(b"A=1\0B=2\0", "B=2"));
    assert!(!holds_environment_entry(b"A=1\0B=22\0", "B=2"));
}

#[test]
fn trees_hold_every_descendant_once() {
    let stats: Vec<_> = [(10, 1), (11, 10), (12, 11), (13, 1), (14, 12)]
        .iter()
        .map(|(pid, parent)| read_stat(*pid, &stat_line(*pid, *parent, 1, 7)).expect("stat"))
        .collect();
    let roots = vec![ProcessIdentity { pid: 10, start_time: 7 }];
    let mut pids: Vec<u32> = process_trees(&roots, &stats).iter().map(|one| one.pid).collect();
    pids.sort_unstable();
    assert_eq!(pids, [10, 11, 12, 14]);
}

#[test]
fn signatures_match_whole_arguments_and_path_ends() {
    assert!(process_argument_matches("server.js", "server.js"));
    assert!(process_argument_matches("/repo/scripts/dev-full.mjs", "scripts/dev-full.mjs"));
    assert!(!process_argument_matches("mentions server.js", "server.js"));
    assert!(!process_argument_matches("/repo/xscripts/dev-full.mjs", "scripts/dev-full.mjs"));
}

#[test]
fn identities_come_from_the_environment() {
    let environment = Some(b"PATH=/bin\0PORTBOARD_TARGET_ID=web\0".to_vec());
    assert!(process_has_portboard_target_identity(&environment, "web"));
    assert!(!process_has_portboard_target_identity(&environment, "we"));
    assert!(!process_has_portboard_target_identity(&None, "web"));
}

#[test]
fn runs_are_reported_at_their_outermost_process() {
    let identity: &[u8] = b"PORTBOARD_TARGET_ID=web\0";
    let processes = vec![
        process(20, &["bash"], Some(identity)),
        process(21, &["npm", "run"], Some(identity)),
        process(22, &["node", "server.js"], Some(identity)),
        process(30, &["/repo/server.js"], None),
        process(31, &["vim", "notes about server.js"], None),
    ];
    let links = vec![link(20, 1), link(21, 20), link(22, 21), link(30, 1), link(31, 1)];
    let runs = find_launch_target_processes(&processes, &links, &target("web", &["server.js"]));
    let pids: Vec<u32> = runs.iter().map(|run| run.pid).collect();
    assert_eq!(pids, [21, 30]);
    assert_eq!(runs[0].identity(), ProcessIdentity { pid: 21, start_time: 1021 });
    assert!(runs[0].metadata_members.contains(&ProcessIdentity { pid: 22, start_time: 1022 }));
}

#[test]
fn worktrees_hold_only_their_own_processes() {
    let others = vec![b"/repo/.worktrees/embed".to_vec()];
    let seen = vec![
        observation(50, b"/repo", b"sleep\0", b""),
        observation(51, b"/repo/sub", b"node\0server.js\0", b"PORTBOARD_TARGET_ID=web\0"),
        observation(52, b"/repo/.worktrees/embed/x", b"sleep\0", b""),
        observation(53, b"/repository", b"sleep\0", b""),
        observation(54, b"/repo", b"portboard\0", b""),
    ];
    let found = find_worktree_processes(b"/repo", &others, 54, &seen);
    let pids: Vec<u32> = found.iter().map(|process| process.pid).collect();
    assert_eq!(pids, [50, 51]);
    assert_eq!(found[1].argv, ["node", "server.js"]);
    assert_eq!(found[1].start_time, 510);
}

#[test]
fn reused_process_numbers_are_not_trusted() {
    let mut seen = observation(50, b"/repo", b"sleep\0", b"");
    seen.stat_again = Some(stat_line(50, 1, 50, 501));
    assert!(find_worktree_processes(b"/repo", &vec![], 1, &vec![seen]).is_empty());
}

#[test]
fn sibling_worktrees_are_read_from_the_listing() {
    let listing = b"worktree /repo\nHEAD abc\n\nworktree /repo/.worktrees/embed\nHEAD def\n";
    assert_eq!(
        sibling_git_worktrees(b"/repo", listing),
        vec![b"/repo/.worktrees/embed".to_vec()]
    );
}

#[test]
fn parents_are_followed_upwards() {
    let links = vec![link(5, 4), link(4, 3), link(3, 1)];
    assert_eq!(follow_ancestry(&links, 5), [5, 4, 3]);
    assert!(process_descends_from(&links, 5, 3));
    assert!(process_descends_from(&links, 5, 1));
    assert!(!process_descends_from(&links, 3, 5));
    assert_eq!(read_parent_pid("Name:\tx\nPPid:\t42\n"), Some(42));
    assert_eq!(read_parent_pid("Name:\tx\n"), None);
    assert_eq!(split_command_line(b"a\0b c\0\0"), ["a", "b c"]);
}

fn sockets() -> SocketSnapshot {
    let row = |address: &str, state: &str, inode: u64| {
        format!("   0: {address} 00000000:0000 {state} 0:0 00:0 0 0 0 {inode} 1\n")
    };
    SocketSnapshot {
        links: vec![link(61, 60), link(60, 1), link(70, 1)],
        holders: vec![
            SocketHolder { pid: 61, inodes: vec![900] },
            SocketHolder { pid: 70, inodes: vec![901, 902] },
        ],
        tcp: Some(format!(
            "  sl  local_address\n{}{}",
            row("0100007F:1F90", "0A", 900),
            row("00000000:0050", "01", 901)
        )),
        tcp6: Some(format!(
            "  sl  local_address\n{}",
            row("00000000000000000000000001000000:0051", "0A", 902)
        )),
    }
}

#[test]
fn listeners_belong_to_the_root_that_holds_their_socket() {
    let run = |pid| LaunchTargetProcess {
        metadata_members: vec![],
        pid,
        start_time: 0,
        argv: vec![],
    };
    let endpoints = find_process_endpoints(&vec![run(60)], &sockets());
    assert_eq!(endpoints.len(), 1);
    assert_eq!((endpoints[0].address.as_str(), endpoints[0].port), ("127.0.0.1", 8080));
    assert_eq!(endpoints[0].protocol, "tcp");
    let groups = find_process_endpoints_by_process(&vec![60, 70], &sockets());
    let seventy = groups.iter().find(|group| group.pid == 70).expect("group");
    assert_eq!(seventy.endpoints.len(), 1);
    assert_eq!((seventy.endpoints[0].address.as_str(), seventy.endpoints[0].port), ("::1", 81));
    assert_eq!(owning_root(61, &vec![60, 70], &sockets().links), Some(60));
    assert_eq!(owning_root(61, &vec![70], &sockets().links), None);
    let links = vec!["socket:[900]".to_string(), "/dev/null".to_string(), "socket:[x]".to_string()];
    assert_eq!(process_socket_inodes(&links), [900]);
}

#[test]
fn inventories_claim_processes_for_their_targets() {
    let seen = vec![
        observation(60, b"/repo", b"/repo/server.js\0", b""),
        observation(70, b"/repo", b"sleep\030\0", b""),
    ];
    let targets = vec![target("web", &["server.js"]), target("other", &["never"])];
    let entries =
        inspect_worktree_processes(b"/repo", &vec![], 1, &seen, sockets(), &targets);
    assert_eq!(entries.len(), 2);
    assert_eq!(entries[0].target_ids, ["web"]);
    assert_eq!(entries[0].endpoints[0].port, 8080);
    assert!(entries[1].target_ids.is_empty());
    let snapshot = DiscoverySnapshot::capture(b"/repo", &vec![], 1, &seen, sockets());
    let unclaimed = inspect_worktree_processes_with_snapshot(&vec![], &snapshot);
    assert!(unclaimed.iter().all(|entry| entry.target_ids.is_empty()));
    assert_eq!(snapshot.target_processes(&targets[0])[0].pid, 60);
    assert_eq!(snapshot.endpoints_by_process().len(), 2);
}
