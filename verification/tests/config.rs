use portboard::launch_target_config::{
    configured_target, plain_identifier, validate_launch_target, validate_launch_target_config,
    LaunchTarget, LaunchTargetId, PortboardConfig,
};

fn target(id: &str, label: &str, argv: &[&str]) -> LaunchTarget {
    LaunchTarget {
        id: LaunchTargetId::new(id.to_string()),
        label: label.to_string(),
        argv: argv.iter().map(|argument| argument.to_string()).collect(),
        process_match: vec![],
        runtime_file: None,
        log_file: None,
    }
}

fn config(launch_targets: Vec<LaunchTarget>) -> PortboardConfig {
    PortboardConfig { version: 1, launch_targets }
}

#[test]
fn rejects_blank_command_and_process_match_values() {
    let blank_command = config(vec![target("dev", "Dev", &["   "])]);
    validate_launch_target_config(&blank_command).expect_err("blank values must fail");
    let mut blank_match = target("dev", "Dev", &["dev"]);
    blank_match.process_match = vec!["\t".to_string()];
    validate_launch_target_config(&config(vec![blank_match])).expect_err("blank values must fail");
}

#[test]
fn rejects_files_outside_the_worktree() {
    for field in ["runtime_file", "log_file"] {
        let mut outside = target("dev", "Dev", &["dev"]);
        if field == "runtime_file" {
            outside.runtime_file = Some("../outside".to_string());
        } else {
            outside.log_file = Some("../outside".to_string());
        }
        let error = validate_launch_target_config(&config(vec![outside]))
            .expect_err("worktree-relative file path must fail");
        assert!(error.to_string().contains(field));
    }
}

#[test]
fn rejects_duplicate_launch_target_ids() {
    let error = validate_launch_target_config(&config(vec![
        target("dev", "First", &["first"]),
        target("dev", "Second", &["second"]),
    ]))
    .expect_err("duplicate ids must fail");

    assert_eq!(
        error.to_string(),
        "Portboard manifest has duplicate launch target id `dev`"
    );
}

#[test]
fn accepts_a_complete_manifest() {
    let mut full = target("dev-full", "Full dev stack", &["pnpm", "dev:full"]);
    full.process_match = vec!["scripts/dev-full.mjs".to_string()];
    full.runtime_file = Some("logs/dev-instance.json".to_string());
    full.log_file = Some("logs/dev.log".to_string());
    assert!(validate_launch_target(&full).is_ok());
    assert!(validate_launch_target_config(&config(vec![full, target("b", "B", &["b"])])).is_ok());
    assert!(validate_launch_target_config(&config(vec![])).is_ok());
}

#[test]
fn rejects_other_manifest_versions_and_blank_labels() {
    let later = PortboardConfig { version: 2, launch_targets: vec![] };
    assert!(validate_launch_target_config(&later).is_err());
    assert!(validate_launch_target(&target("dev", " ", &["dev"])).is_err());
    assert!(validate_launch_target(&target("", "Dev", &["dev"])).is_err());
    assert!(validate_launch_target(&target("a/b", "Dev", &["dev"])).is_err());
    assert!(validate_launch_target(&target("dev", "Dev", &[])).is_err());
}

#[test]
fn absolute_files_are_refused() {
    let mut absolute = target("dev", "Dev", &["dev"]);
    absolute.log_file = Some("/var/log/dev.log".to_string());
    assert!(validate_launch_target(&absolute).is_err());
    absolute.log_file = Some("logs/./dev.log".to_string());
    assert!(validate_launch_target(&absolute).is_ok());
}

#[test]
fn identifiers_are_plain() {
    assert!(plain_identifier("dev-full_2"));
    assert!(!plain_identifier("dev full"));
    assert!(!plain_identifier("d\u{e9}v"));
}

#[test]
fn targets_are_looked_up_by_id() {
    let targets = vec![target("a", "A", &["a"]), target("b", "B", &["b"])];
    assert_eq!(configured_target(&targets, "b").expect("target").label, "B");
    assert_eq!(
        configured_target(&targets, "c").expect_err("missing").to_string(),
        "Portboard launch target `c` is not configured"
    );
}

#[test]
fn configs_are_compared_by_what_they_say() {
    let first = config(vec![target("a", "A", &["a"])]);
    let second = config(vec![target("a", "A", &["a"])]);
    let third = config(vec![target("a", "A", &["a", "b"])]);
    assert!(first.says_the_same(&second));
    assert!(!first.says_the_same(&third));
    assert_eq!(first.launch_targets[0].clone(), second.launch_targets[0]);
}
