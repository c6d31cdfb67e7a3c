use portboard::launch_target_config::{LaunchTarget, LaunchTargetId, PortboardConfig};
use portboard::manifest_approval::{
    approval_unavailable, approve_launch_target, check_store, command_disclosure,
    current_manifest_snapshot, disclosure_lines, ensure_launch_target_approved, is_approved_at,
    launch_target_is_approved, record_approval_at, take_answer, ApprovalStep, ApprovalStore,
};

fn target(id: &str) -> LaunchTarget {
    LaunchTarget {
        id: LaunchTargetId::new(id.to_string()),
        label: id.to_string(),
        argv: vec!["run".to_string(), "it's \"here\"".to_string()],
        process_match: vec![],
        runtime_file: None,
        log_file: None,
    }
}

#[test]
fn approvals_are_bound_to_exact_manifest_and_target() {
    let mut store = ApprovalStore::new();
    let worktree = b"/state/repo";

    assert!(!is_approved_at(&store, worktree, "version = 1", "web"));
    record_approval_at(&mut store, worktree, "version = 1", "web");
    assert!(is_approved_at(&store, worktree, "version = 1", "web"));
    assert!(!is_approved_at(&store, worktree, "version = 2", "web"));
    assert!(!is_approved_at(&store, worktree, "version = 1", "worker"));
}

#[test]
fn approving_a_changed_manifest_revokes_other_targets() {
    let mut store = ApprovalStore::new();
    let worktree = b"/state/repo";

    record_approval_at(&mut store, worktree, "first", "web");
    record_approval_at(&mut store, worktree, "first", "worker");
    record_approval_at(&mut store, worktree, "changed", "web");

    assert!(!is_approved_at(&store, worktree, "changed", "worker"));
    assert!(is_approved_at(&store, worktree, "changed", "web"));
}

#[test]
fn approvals_of_worktrees_stay_apart() {
    let mut store = ApprovalStore::new();
    record_approval_at(&mut store, b"/one", "m", "web");
    record_approval_at(&mut store, b"/two", "m", "worker");
    assert!(is_approved_at(&store, b"/one", "m", "web"));
    assert!(!is_approved_at(&store, b"/two", "m", "web"));
    assert!(is_approved_at(&store, b"/two", "m", "worker"));
    assert!(launch_target_is_approved(&store, b"/two", "m", &target("worker")));
}

#[test]
fn approvals_need_the_manifest_that_was_shown() {
    let mut store = ApprovalStore::new();
    let config = |id| PortboardConfig { version: 1, launch_targets: vec![target(id)] };
    let mut approve = |current: &PortboardConfig, shown: &str| {
        let loaded = config("web");
        let now = "now".to_string();
        let result =
            approve_launch_target(&mut store, b"/one", now, current, &loaded, &target("web"), shown);
        let approved = is_approved_at(&store, b"/one", "now", "web");
        (result.map_err(|error| error.to_string()), approved)
    };
    let (result, approved) = approve(&config("web"), "shown");
    assert!(result.is_err_and(|error| error.contains("after it was displayed")));
    assert!(!approved);
    let (result, approved) = approve(&config("worker"), "now");
    assert!(result.is_err_and(|error| error.contains("while the command was being prepared")));
    assert!(!approved);
    assert_eq!(approve(&config("web"), "now"), (Ok(()), true));
}

#[test]
fn stores_of_other_versions_are_refused() {
    let mut store = ApprovalStore::new();
    assert!(check_store(&store).is_ok());
    store.version = 2;
    assert!(check_store(&store).is_err());
}

#[test]
fn manifests_must_not_change_while_they_are_approved() {
    let loaded = PortboardConfig { version: 1, launch_targets: vec![target("web")] };
    let same = PortboardConfig { version: 1, launch_targets: vec![target("web")] };
    let other = PortboardConfig { version: 1, launch_targets: vec![target("worker")] };
    assert_eq!(
        current_manifest_snapshot("text".to_string(), &same, &loaded),
        Ok("text".to_string())
    );
    assert!(current_manifest_snapshot("text".to_string(), &other, &loaded).is_err());
}

#[test]
fn approval_is_asked_for_only_on_a_terminal() {
    assert_eq!(ensure_launch_target_approved(true, &None, false), ApprovalStep::Proceed);
    assert_eq!(ensure_launch_target_approved(false, &None, true), ApprovalStep::Ask);
    assert_eq!(ensure_launch_target_approved(false, &None, false), ApprovalStep::Refuse);
    assert!(!approval_unavailable().to_string().is_empty());
}

#[test]
fn answers_are_read_without_case_and_space() {
    for answer in ["y", "Y\n", " yes ", "YES"] {
        assert!(take_answer(answer).is_ok(), "{answer}");
    }
    for answer in ["", "n", "yess"] {
        assert_eq!(
            take_answer(answer).expect_err("refused").to_string(),
            "Portboard command was not approved"
        );
    }
}

#[test]
fn commands_are_disclosed_as_json() {
    let lines = command_disclosure("/repo", &target("web")).expect("disclosure");
    assert_eq!(lines, disclosure_lines("/repo", r#"["run","it's \"here\""]"#));
    assert!(lines.iter().any(|line| line.contains("/repo")));
}
