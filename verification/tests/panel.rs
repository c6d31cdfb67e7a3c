use portboard::browser_url::UrlOpenOutcome;
use portboard::current_workspace_panel::{
    arrange, column_sizes, copy_message, header_line, inner_rect, layout_areas, left_sizes,
    open_message, pad, rect_contains, right_sizes, row_sizes, truncate, Area, Focus,
    ManifestOutcome, MouseKind, PanelAction, PanelApp, PanelKey, PanelMouse, PartSize,
    RefreshOutcome, SpanStyle, StopPoll, StyledSpan, KEY_HINTS,
};
use portboard::current_workspace_status::{
    CurrentLaunchTargetStatus, LaunchTargetRuntimeState, WorktreeLaunchTargetInspection,
};
use portboard::launch_target_config::{LaunchTarget, LaunchTargetId, PortboardConfig};
use portboard::launch_target_processes::LaunchTargetProcess;
use portboard::process_endpoints::ProcessEndpoint;
use portboard::runtime_metadata::RuntimeEndpoint;
use portboard::worktree_processes::WorktreeProcessInventoryEntry;

const WHOLE: Area = Area { x: 0, y: 0, width: 120, height: 30 };

fn entry(pid: u32, port: u16, target_ids: &[&str]) -> WorktreeProcessInventoryEntry {
    WorktreeProcessInventoryEntry {
        pid,
        argv: vec![format!("process-{}", pid - 100)],
        target_ids: target_ids.iter().map(|id| id.to_string()).collect(),
        endpoints: vec![ProcessEndpoint {
            protocol: "tcp",
            address: "0.0.0.0".to_string(),
            port,
        }],
    }
}

fn app() -> PanelApp {
    let mut app = PanelApp::new();
    app.inventory = Some((0..40).map(|i| entry(100 + i, 8000 + i as u16, &[])).collect());
    app
}

fn stopped(id: &str) -> CurrentLaunchTargetStatus {
    CurrentLaunchTargetStatus {
        id: LaunchTargetId::new(id.to_string()),
        label: id.to_uppercase(),
        argv: vec!["not-running".to_string()],
        endpoints: vec![],
        named_endpoints: vec![],
        duplicate: false,
        metadata_error: None,
        state: LaunchTargetRuntimeState::Stopped,
    }
}

fn inspection(statuses: Vec<CurrentLaunchTargetStatus>) -> WorktreeLaunchTargetInspection {
    WorktreeLaunchTargetInspection { statuses, findings: vec![] }
}

fn text(line: &[StyledSpan]) -> String {
    line.iter().map(|span| span.text.as_str()).collect()
}

fn press(app: &mut PanelApp, key: PanelKey) -> PanelAction {
    app.handle_event(key, false)
}

fn click(app: &mut PanelApp, column: u16, row: u16) -> PanelAction {
    let areas = layout_areas(WHOLE).expect("areas");
    app.handle_mouse_in(PanelMouse { kind: MouseKind::LeftDown, column, row }, &areas)
}

#[test]
fn enter_on_ports_opens_selected_url_not_target() {
    let mut app = app();
    app.focus = Focus::Ports;
    app.selected_port = 3;
    let action = press(&mut app, PanelKey::Enter);
    assert_eq!(action, PanelAction::OpenUrl("http://127.0.0.1:8003".to_string()));
    app.message = Some(open_message("http://127.0.0.1:8003", UrlOpenOutcome::OpenedLocally));
    assert!(app.message.as_deref().unwrap_or("").contains("http://127.0.0.1:8003"));
}

#[test]
fn mouse_indices_include_each_list_scroll_offset() {
    let mut app = app();
    let mut status = stopped("x");
    status.endpoints =
        app.inventory.as_ref().unwrap().iter().flat_map(|e| e.endpoints.clone()).collect();
    app.inspection = Some(inspection(vec![status]));
    let areas = layout_areas(WHOLE).expect("areas");
    for (focus, rect) in [(Focus::Ports, areas.ports), (Focus::Endpoints, areas.endpoints)] {
        app.port_offset = 9;
        app.endpoint_offset = 9;
        let action = click(&mut app, rect.x, rect.y + 1);
        assert!(app.focus == focus);
        assert_eq!(action, PanelAction::OpenUrl("http://127.0.0.1:8010".to_string()));
    }
    app.inspection = None;
    app.target_offset = 9;
    click(&mut app, areas.targets.x, areas.targets.y + 1);
    assert_eq!(app.selected_target, 10);
}

#[test]
fn inventories_stay_scrollable_without_targets() {
    for manifest in [None, Some(inspection(vec![]))] {
        let mut app = app();
        app.inspection = manifest;
        app.move_selection(30);
        assert_eq!(app.selected_target, 30);
        assert_eq!(app.first_title(), " processes ");
        assert_eq!(app.ports_title(), " ports (40) ");
        assert!(text(&app.target_items()[30]).contains("process-30"));
        app.move_selection(i64::MAX);
        assert_eq!(app.selected_target, 39);
        app.move_selection(i64::MIN);
        assert_eq!(app.selected_target, 0);
    }
}

#[test]
fn failing_manifests_warn_and_keep_the_ports() {
    let mut app = app();
    app.refresh(RefreshOutcome::Discovered {
        manifest: ManifestOutcome::Failed("not valid TOML".to_string()),
        inventory: Some(vec![entry(100, 8000, &[])]),
    });
    assert_eq!(app.load_error.as_deref(), Some("not valid TOML"));
    assert_eq!(app.ports_title(), " ports (1) ");
    assert_eq!(text(&app.footer()[0]), " warning: not valid TOML");
    assert_eq!(app.first_title(), " processes ");
    app.toggle_focus();
    assert!(app.focus == Focus::Ports);
    app.toggle_focus();
    assert!(app.focus == Focus::Targets);
}

#[test]
fn refreshing_replaces_what_was_loaded() {
    let mut app = PanelApp::new();
    app.refresh(RefreshOutcome::Discovered {
        manifest: ManifestOutcome::Inspected(inspection(vec![stopped("a"), stopped("b")])),
        inventory: None,
    });
    assert_eq!(app.load_error.as_deref(), Some("process scan failed"));
    app.selected_target = 7;
    app.refresh(RefreshOutcome::Discovered {
        manifest: ManifestOutcome::Failed("broken".to_string()),
        inventory: None,
    });
    assert_eq!(app.target_count(), 2);
    assert_eq!(app.selected_target, 1);
    app.refresh(RefreshOutcome::Failed("no proc".to_string()));
    assert_eq!(app.load_error.as_deref(), Some("no proc"));
    assert!(app.has_targets());
    app.refresh(RefreshOutcome::Discovered {
        manifest: ManifestOutcome::Absent,
        inventory: Some(vec![]),
    });
    assert_eq!(app.load_error, None);
    assert!(!app.has_targets());
    assert_eq!(app.selected_target, 0);
}

#[test]
fn ports_are_sorted_and_shown_once() {
    let mut app = PanelApp::new();
    let mut twice = entry(120, 9000, &["web", "api"]);
    let again = twice.endpoints[0].clone();
    twice.endpoints.push(again);
    app.inventory = Some(vec![entry(130, 9000, &[]), twice, entry(110, 80, &[])]);
    let rows = app.port_rows();
    let shown: Vec<(u16, u32)> = rows.iter().map(|row| (row.port, row.pid)).collect();
    assert_eq!(shown, [(80, 110), (9000, 120), (9000, 130)]);
    assert_eq!(rows[1].target.as_deref(), Some("web"));
    assert_eq!(
        text(&app.port_items()[1]),
        ":9000    http://127.0.0.1:9000  pid 120 · web"
    );
}

#[test]
fn endpoints_are_named_or_listened_on() {
    let mut app = PanelApp::new();
    let mut status = stopped("web");
    status.endpoints =
        vec![ProcessEndpoint { protocol: "tcp", address: "::".to_string(), port: 81 }];
    app.inspection = Some(inspection(vec![status]));
    let rows = app.endpoint_rows();
    assert_eq!((rows[0].label.as_str(), rows[0].url.as_str()), ("tcp [::]:81", "http://[::1]:81"));
    assert_eq!(text(&app.endpoint_items()[0]), "tcp [::]:81  http://[::1]:81");
    app.inspection.as_mut().unwrap().statuses[0].named_endpoints = vec![RuntimeEndpoint {
        id: "web".to_string(),
        url: "http://localhost:5".to_string(),
        primary: true,
        status: None,
    }];
    assert_eq!(app.endpoint_rows()[0].label, "web");
    assert_eq!(
        press(&mut app, PanelKey::Character('o')),
        PanelAction::OpenUrl("http://localhost:5".to_string())
    );
    assert_eq!(
        press(&mut app, PanelKey::Character('y')),
        PanelAction::CopyUrl("http://localhost:5".to_string())
    );
}

#[test]
fn keys_do_what_the_hints_say() {
    let mut app = app();
    assert_eq!(press(&mut app, PanelKey::Enter), PanelAction::Nothing);
    app.inspection = Some(inspection(vec![stopped("a"), stopped("b")]));
    assert_eq!(press(&mut app, PanelKey::Character('j')), PanelAction::Nothing);
    assert_eq!(
        press(&mut app, PanelKey::Enter),
        PanelAction::OpenOrStart { target_id: "b".to_string(), label: "B".to_string() }
    );
    assert_eq!(press(&mut app, PanelKey::Character('o')), PanelAction::Nothing);
    assert_eq!(app.message.as_deref(), Some("no endpoint URL to open"));
    assert_eq!(press(&mut app, PanelKey::Character('y')), PanelAction::Nothing);
    assert_eq!(app.message.as_deref(), Some("no endpoint URL to copy"));
    assert_eq!(press(&mut app, PanelKey::Character('r')), PanelAction::Refresh);
    assert_eq!(press(&mut app, PanelKey::Character('S')), PanelAction::LoadToStop);
    press(&mut app, PanelKey::Up);
    assert_eq!(app.selected_target, 0);
    press(&mut app, PanelKey::Tab);
    assert_eq!(press(&mut app, PanelKey::Character('s')), PanelAction::Nothing);
    press(&mut app, PanelKey::Right);
    assert_eq!(app.focus, Focus::Endpoints);
    for (focus, action) in [
        (Focus::Ports, PanelAction::Nothing),
        (Focus::Targets, PanelAction::Nothing),
        (Focus::Targets, PanelAction::Close),
    ] {
        assert_eq!(press(&mut app, PanelKey::Escape), action);
        assert_eq!(app.focus, focus);
    }
    assert_eq!(press(&mut app, PanelKey::Character('q')), PanelAction::Close);
    assert_eq!(app.handle_event(PanelKey::Character('q'), true), PanelAction::Nothing);
}

#[test]
fn scrolling_focuses_the_list_under_the_mouse() {
    let mut app = app();
    let areas = layout_areas(WHOLE).expect("areas");
    let scroll = |app: &mut PanelApp, kind, area: Area| {
        app.handle_mouse_in(PanelMouse { kind, column: area.x, row: area.y }, &areas)
    };
    scroll(&mut app, MouseKind::ScrollDown, areas.ports);
    assert_eq!((app.focus, app.selected_port), (Focus::Ports, 1));
    scroll(&mut app, MouseKind::ScrollUp, areas.targets);
    assert_eq!((app.focus, app.selected_target), (Focus::Targets, 0));
    scroll(&mut app, MouseKind::ScrollDown, areas.endpoints);
    assert_eq!((app.focus, app.selected_target), (Focus::Targets, 1));
    assert_eq!(scroll(&mut app, MouseKind::Other, areas.ports), PanelAction::Nothing);
}

#[test]
fn opening_and_stopping_are_reported() {
    let mut app = app();
    app.inspection = Some(inspection(vec![stopped("a")]));
    assert!(app.begin_open("A", None));
    assert_eq!(app.message.as_deref(), Some("A: open/start…"));
    assert!(!app.begin_open("A", Some("broken".to_string())));
    assert_eq!(app.finish_open(None), PanelAction::Close);
    assert_eq!(app.finish_open(Some("refused".to_string())), PanelAction::Nothing);
    assert_eq!(app.message.as_deref(), Some("refused"));
    assert_eq!(app.start_stop(None), None);
    assert_eq!(app.message.as_deref(), Some("could not reload manifest to stop"));
    let config = PortboardConfig {
        version: 1,
        launch_targets: vec![LaunchTarget {
            id: LaunchTargetId::new("a".to_string()),
            label: "A".to_string(),
            argv: vec!["x".to_string()],
            process_match: vec![],
            runtime_file: None,
            log_file: None,
        }],
    };
    assert_eq!(app.start_stop(Some(&config)).expect("target").id.as_str(), "a");
    assert_eq!(app.message.as_deref(), Some("A: stopping…"));
    assert_eq!(app.start_stop(Some(&config)), None);
    assert_eq!(app.poll_stop(StopPoll::NothingYet), None);
    assert!(app.stopping);
    assert_eq!(app.poll_stop(StopPoll::Stopped(vec![4, 5])).as_deref(), Some("stopping pid 4, 5"));
    assert!(!app.stopping);
    assert_eq!(app.poll_stop(StopPoll::Disconnected), None);
    app.stopping = true;
    assert_eq!(app.poll_stop(StopPoll::Stopped(vec![])).as_deref(), Some("already stopped"));
    app.stopping = true;
    assert_eq!(
        app.poll_stop(StopPoll::Disconnected).as_deref(),
        Some("stop worker disconnected")
    );
    app.stopping = true;
    assert_eq!(app.poll_stop(StopPoll::Failed("no".to_string())).as_deref(), Some("no"));
}

#[test]
fn panes_show_the_target_under_the_cursor() {
    let mut app = PanelApp::new();
    assert_eq!(app.info_paragraph().title, " detail ");
    assert_eq!(
        text(&app.info_paragraph().lines[0]),
        "No launch targets; configure portboard.toml to manage runs."
    );
    assert_eq!(text(&app.target_items()[0]), "no live processes in this worktree");
    let run = |pid| LaunchTargetProcess {
        metadata_members: vec![],
        pid,
        start_time: 1,
        argv: vec![],
    };
    let mut web = stopped("web");
    web.state = LaunchTargetRuntimeState::Running { processes: vec![run(4), run(5)] };
    web.duplicate = true;
    web.metadata_error = Some("stale".to_string());
    app.inspection = Some(inspection(vec![web]));
    let info = app.info_paragraph();
    assert_eq!(info.title, " WEB ");
    assert_eq!(text(&info.lines[0]), "stale");
    assert_eq!(text(&info.lines[1]), "state  running · DUPLICATE (2 instances)  pid 4, 5");
    assert_eq!(text(&info.lines[2]), "argv  not-running");
    let row = &app.target_items()[0];
    assert_eq!(text(row), format!("{}warning! duplicate!  pid 4, 5", pad("WEB", 24)));
    assert_eq!(row[2].style, SpanStyle::Red);
    assert_eq!(text(&header_line("/repo")), " Portboard · /repo");
}

#[test]
fn the_foot_names_the_focus_and_the_keys() {
    let mut app = PanelApp::new();
    app.message = Some("done".to_string());
    let lines: Vec<String> = app.footer().iter().map(|line| text(line)).collect();
    assert_eq!(lines, [" done".to_string(), " focus processes · ".to_string(), format!(" {KEY_HINTS}")]);
    app.inspection = Some(WorktreeLaunchTargetInspection {
        statuses: vec![stopped("a")],
        findings: vec!["one".to_string(), "two".to_string()],
    });
    assert_eq!(text(&app.footer()[0]), " warning: one; two");
    assert_eq!(text(&app.footer()[2]), " focus targets · ");
}

#[test]
fn the_focused_pane_stands_out() {
    let app = PanelApp::new();
    assert_eq!(app.pane_border_style(Focus::Targets), SpanStyle::Cyan);
    assert_eq!(app.pane_border_style(Focus::Ports), SpanStyle::DarkGray);
    assert_eq!(app.pane_title_style(Focus::Targets), SpanStyle::BoldCyan);
    assert_eq!(app.pane_highlight_style(Focus::Targets), SpanStyle::Reversed);
    assert_eq!(app.pane_highlight_style(Focus::Endpoints), SpanStyle::DarkGray);
    assert_eq!(app.highlight_symbol(Focus::Targets), "▸ ");
    assert_eq!(app.highlight_symbol(Focus::Ports), "  ");
}

#[test]
fn the_terminal_is_split_into_panes() {
    let areas = layout_areas(WHOLE).expect("areas");
    assert_eq!(areas.header, Area { x: 0, y: 0, width: 120, height: 1 });
    assert_eq!(areas.footer, Area { x: 0, y: 27, width: 120, height: 3 });
    assert_eq!(areas.targets_block, Area { x: 0, y: 1, width: 41, height: 13 });
    assert_eq!(areas.ports_block, Area { x: 0, y: 14, width: 41, height: 13 });
    assert_eq!(areas.info_block, Area { x: 41, y: 1, width: 79, height: 4 });
    assert_eq!(areas.endpoints_block, Area { x: 41, y: 5, width: 79, height: 22 });
    assert_eq!(areas.targets, inner_rect(areas.targets_block));
    assert_eq!(inner_rect(Area { x: 3, y: 4, width: 1, height: 9 }), Area {
        x: 4,
        y: 5,
        width: 0,
        height: 7
    });
    let edge = Area { x: u16::MAX, y: 0, width: 0, height: 9 };
    assert_eq!(arrange(&vec![edge; 3], &vec![edge; 2], &vec![edge; 2]), None);
    assert!(rect_contains(areas.footer, (119, 29)));
    assert!(!rect_contains(areas.footer, (120, 29)));
    assert!(!rect_contains(areas.footer, (0, 26)));
}

fn expected_panes(area: Area, header: u16, footer: u16) -> [Area; 6] {
    let share = |whole: u16, percent: u32| ((u32::from(whole) * percent + 50) / 100) as u16;
    let (x, y) = (area.x, area.y + header);
    let height = area.height - header - footer;
    let (left, top) = (share(area.width, 34), share(height, 50));
    let (right, detail) = (area.width - left, height.min(4));
    [
        Area { x, y: area.y, width: area.width, height: header },
        Area { x, y: y + height, width: area.width, height: footer },
        Area { x, y, width: left, height: top },
        Area { x, y: y + top, width: left, height: height - top },
        Area { x: x + left, y, width: right, height: detail },
        Area { x: x + left, y: y + detail, width: right, height: height - detail },
    ]
}

fn panes_on(area: Area) -> [Area; 6] {
    let areas = layout_areas(area).expect("areas");
    [
        areas.header,
        areas.footer,
        areas.targets_block,
        areas.ports_block,
        areas.info_block,
        areas.endpoints_block,
    ]
}

#[test]
fn panes_meet_where_their_sizes_say() {
    for (x, y) in [(0, 0), (7, 3), (60000, 64000)] {
        for size in 0..260 {
            let wide = Area { x, y, width: size, height: 30 };
            assert_eq!(panes_on(wide), expected_panes(wide, 1, 3));
            let high = Area { x, y, width: 120, height: size + 4 };
            assert_eq!(panes_on(high), expected_panes(high, 1, 3));
        }
    }
    let vast = Area { x: 0, y: 0, width: 65000, height: 65001 };
    assert_eq!(panes_on(vast), expected_panes(vast, 1, 3));
}

#[test]
fn header_and_footer_share_a_terminal_that_is_too_small() {
    for width in 0..200 {
        for height in 0..4 {
            let area = Area { x: 2, y: 5, width, height };
            let panes = panes_on(area);
            let (header, footer) = (panes[0].height, panes[1].height);
            assert!(header <= 1 && footer <= 3 && header + footer == height);
            assert_eq!(panes, expected_panes(area, header, footer));
        }
    }
}

#[test]
fn panes_end_where_cells_have_numbers() {
    let area = Area { x: 65000, y: 65000, width: 1000, height: 1000 };
    let areas = layout_areas(area).expect("areas");
    assert_eq!(areas.footer, Area { x: 65000, y: 65532, width: 1000, height: 3 });
    assert_eq!(areas.targets_block, Area { x: 65000, y: 65001, width: 182, height: 266 });
    assert_eq!(areas.endpoints_block, Area { x: 65182, y: 65005, width: 353, height: 527 });
    assert_eq!(layout_areas(Area { x: u16::MAX, y: 0, width: 9, height: 9 }), None);
}

#[test]
fn the_sizes_of_the_panes_are_fixed() {
    assert_eq!(row_sizes(), [PartSize::Length(1), PartSize::Min(0), PartSize::Length(3)]);
    assert_eq!(column_sizes(), [PartSize::Percentage(34), PartSize::Percentage(66)]);
    assert_eq!(left_sizes(), [PartSize::Percentage(50), PartSize::Percentage(50)]);
    assert_eq!(right_sizes(), [PartSize::Length(4), PartSize::Min(0)]);
}

#[test]
fn messages_say_what_came_of_a_url() {
    assert_eq!(
        open_message("u", UrlOpenOutcome::OfferedLink),
        "ctrl-click u above to open it in your local browser"
    );
    assert_eq!(open_message("u", UrlOpenOutcome::OpenedLocally), "opens u in your browser");
    assert_eq!(copy_message("u", true), "copied u to clipboard");
    assert_eq!(
        copy_message("u", false),
        "u (terminal does not support OSC 52 copy; select the text instead)"
    );
    assert_eq!(truncate("abcdef", 3), "ab…");
}
