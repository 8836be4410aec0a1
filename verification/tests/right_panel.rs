use herdr::panel_state::{
    PaneId, PanelExit, RightPanelConfig, RightPanelInstance, RightPanelState, RightPanelTabConfig,
};
use herdr::right_panel::{
    content_rect, default_width, header_modes, header_tabs, parse_public_id, public_id,
    parent_path, render_open_command, resolve_dir, shell_quote, split_area, split_path_line, worktree_path,
    open_target_path, open_target_result, OpenTarget, PathKind, PopupSize, Rect,
    RightPanelCycleDirection, RightPanelMode, FAILED_START_WINDOW_MS, MAX_INSTANCES,
    MIN_PANEL_COLS, MIN_TAB_COLS,
};

fn instance(owner: PaneId, mode: RightPanelMode, dir: &str, id: u64) -> RightPanelInstance {
    RightPanelInstance {
        owner,
        mode,
        dir: dir.to_owned(),
        pane_id: PaneId(1000 + id),
        terminal_id: format!("term_{id}"),
        spawned_at_ms: 10_000,
        exited: false,
    }
}

fn shown(state: &mut RightPanelState, owner: PaneId, mode: RightPanelMode) {
    let pane = state.pane_mut(owner);
    pane.visible = true;
    pane.mode = mode;
}

#[test]
fn split_area_resolves_percent_and_cells_with_clamps() {
    let area = Rect::new(0, 0, 100, 30);
    let (tab, panel) = split_area(area, PopupSize::Percent(45)).unwrap();
    assert_eq!(panel, Rect::new(55, 0, 45, 30));
    assert_eq!(tab, Rect::new(0, 0, 55, 30));

    let (_, panel) = split_area(area, PopupSize::Cells(5)).unwrap();
    assert_eq!(panel.width, MIN_PANEL_COLS);
    let (tab, panel) = split_area(area, PopupSize::Cells(95)).unwrap();
    assert_eq!(tab.width, MIN_TAB_COLS);
    assert_eq!(panel.width, 80);

    assert_eq!(split_area(Rect::new(0, 0, 39, 30), default_width()), None);
}

#[test]
fn content_and_header_tabs_follow_the_panel_rect() {
    let panel = Rect::new(60, 0, 40, 20);
    assert_eq!(content_rect(panel), Rect::new(61, 1, 39, 19));
    let tabs = header_tabs(panel, &header_modes(&[]));
    assert_eq!(
        tabs,
        vec![
            (RightPanelMode::Files, Rect::new(62, 0, 7, 1)),
            (RightPanelMode::Diff, Rect::new(70, 0, 6, 1)),
            (RightPanelMode::Jira, Rect::new(77, 0, 6, 1)),
        ]
    );
}

#[test]
fn header_tabs_stop_at_the_first_that_does_not_fit() {
    let panel = Rect::new(0, 0, 16, 5);
    let tabs = header_tabs(panel, &header_modes(&["long tab".to_owned()]));
    assert_eq!(
        tabs,
        vec![(RightPanelMode::Files, Rect::new(2, 0, 7, 1)), (RightPanelMode::Diff, Rect::new(10, 0, 6, 1))]
    );
}

#[test]
fn public_ids_round_trip() {
    let terminal_id = "term_42";
    let id = public_id(terminal_id);
    assert_eq!(id, "right-panel:term_42");
    assert_eq!(parse_public_id(&id).as_deref(), Some(terminal_id));
    assert_eq!(parse_public_id("w1:p1"), None);
}

#[test]
fn modes_read_back_from_their_labels() {
    assert_eq!(RightPanelMode::from_label("diff"), RightPanelMode::Diff);
    assert_eq!(RightPanelMode::from_label("jira"), RightPanelMode::Jira);
    assert_eq!(RightPanelMode::from_label("files"), RightPanelMode::Files);
    assert_eq!(
        RightPanelMode::from_label("rails c"),
        RightPanelMode::Custom("rails c".into())
    );
    assert_eq!(RightPanelMode::Custom("awsx".into()).label(), "awsx");
    assert_eq!(RightPanelMode::Jira.label(), "jira");
    assert_eq!(RightPanelMode::Files.label_len(), 5);
}

#[test]
fn resolve_dir_prefers_existing_worktree_then_pane_cwd() {
    assert_eq!(
        resolve_dir(Some("/tmp"), true, Some("/pane".into()), None),
        "/tmp"
    );
    assert_eq!(
        resolve_dir(
            Some("/nonexistent/app-worktrees/VK-1"),
            false,
            Some("/pane".into()),
            Some("/home".into())
        ),
        "/pane"
    );
    assert_eq!(resolve_dir(None, false, None, Some("/home".into())), "/home");
    assert_eq!(resolve_dir(None, false, None, None), "/");
}

#[test]
fn open_target_resolves_relative_absolute_and_line_shorthand() {
    let base = "/tree";
    assert_eq!(
        open_target_path("src/a.rs", None, base, true),
        ("/tree/src/a.rs".to_owned(), None)
    );
    assert_eq!(
        open_target_path("/tree/src/a.rs", Some(9), "/elsewhere", true),
        ("/tree/src/a.rs".to_owned(), Some(9))
    );
    assert_eq!(
        open_target_path("src/a.rs:42", None, base, false),
        ("/tree/src/a.rs".to_owned(), Some(42))
    );
    assert_eq!(
        open_target_result("/tree/src/a.rs".into(), Some(0), PathKind::File),
        Ok(OpenTarget::File {
            path: "/tree/src/a.rs".into(),
            line: 1
        })
    );
    assert_eq!(
        open_target_result("/tree/src".into(), None, PathKind::Dir),
        Ok(OpenTarget::Dir("/tree/src".into()))
    );
    assert_eq!(
        open_target_result("/tree/src/missing.rs".into(), None, PathKind::Other),
        Err("file not found: /tree/src/missing.rs".to_owned())
    );
    assert_eq!(
        open_target_path("src/a.rs:42", Some(3), base, false),
        ("/tree/src/a.rs:42".to_owned(), Some(3))
    );
    assert_eq!(
        open_target_path("src/a.rs:x", None, base, false),
        ("/tree/src/a.rs:x".to_owned(), None)
    );
}

#[test]
fn path_line_shorthand_needs_a_number_and_a_path() {
    assert_eq!(split_path_line("a.rs:7"), Some(("a.rs".to_owned(), 7)));
    assert_eq!(split_path_line("a:b.rs:+8"), Some(("a:b.rs".to_owned(), 8)));
    assert_eq!(split_path_line(":7"), None);
    assert_eq!(split_path_line("a.rs:"), None);
    assert_eq!(split_path_line("a.rs"), None);
    assert_eq!(split_path_line("a.rs:99999999999"), None);
}

#[test]
fn open_target_dir_is_the_file_parent() {
    let target = OpenTarget::File {
        path: "/r/src/a.rs".into(),
        line: 3,
    };
    assert_eq!(target.dir(), "/r/src");
    assert_eq!(OpenTarget::Dir("/r".into()).dir(), "/r");
    let top = OpenTarget::File {
        path: "/a.rs".into(),
        line: 1,
    };
    assert_eq!(top.dir(), "/");
    let trailing = OpenTarget::File {
        path: "/r//src/".into(),
        line: 1,
    };
    assert_eq!(trailing.dir(), "/r");
}

#[test]
fn open_command_quotes_paths_and_defaults_line() {
    let path = "/tmp/with space's.txt";
    let quoted = shell_quote(path);
    assert_eq!(quoted, "'/tmp/with space'\\''s.txt'");

    let rendered = render_open_command(&RightPanelConfig::default().open_command, path, 0);

    assert_eq!(rendered, format!("micro +1 {quoted}; exec yazi {quoted}"));
    assert_eq!(shell_quote("a'b"), "'a'\\''b'");
    assert_eq!(
        render_open_command("cd {dir} && vim +{line} {path}", "/r/a b/c.rs", 7),
        "cd '/r/a b' && vim +7 '/r/a b/c.rs'"
    );
    assert_eq!(render_open_command("vim +{line}", "/x", 1234567), "vim +1234567");
}

#[test]
fn worktree_path_extracts_absolute_prefix_from_paths_and_commands() {
    assert_eq!(
        worktree_path("/r/api-worktrees/VK25-1-api/src/a.rb").as_deref(),
        Some("/r/api-worktrees/VK25-1-api")
    );
    assert_eq!(
        worktree_path("cd /r/web-worktrees/VK25-2904 && git status").as_deref(),
        Some("/r/web-worktrees/VK25-2904")
    );
    assert_eq!(
        worktree_path("git -C \"/r/web-worktrees/VK25-7.\"").as_deref(),
        Some("/r/web-worktrees/VK25-7")
    );
    assert_eq!(worktree_path("see web-worktrees/VK25-1"), None);
    assert_eq!(worktree_path("/r/web-worktrees/"), None);
}

#[test]
fn layout_follows_the_owner_pane_visibility() {
    let area = Rect::new(0, 0, 120, 40);
    let (a, b) = (PaneId(1), PaneId(2));
    let mut state = RightPanelState::default();
    shown(&mut state, a, RightPanelMode::Files);

    assert_eq!(state.tab_area(Some(a), area).width, 66);
    assert_eq!(state.panel_rect(Some(a), area), Some(Rect::new(66, 0, 54, 40)));
    assert_eq!(state.tab_area(Some(b), area), area);
    assert_eq!(state.panel_rect(Some(b), area), None);
    assert_eq!(state.tab_area(None, area), area);
    assert!(state.any_visible());
}

#[test]
fn manual_width_is_shared_by_every_pane_within_the_clamps() {
    let area = Rect::new(0, 0, 120, 40);
    let (a, b) = (PaneId(1), PaneId(2));
    let mut state = RightPanelState::default();
    shown(&mut state, a, RightPanelMode::Files);
    shown(&mut state, b, RightPanelMode::Diff);
    state.manual_width = Some(30);
    assert_eq!(state.panel_rect(Some(a), area).unwrap().width, 30);
    assert_eq!(state.panel_rect(Some(b), area).unwrap().width, 30);
    state.manual_width = Some(5);
    assert_eq!(state.panel_rect(Some(a), area).unwrap().width, MIN_PANEL_COLS);
    state.manual_width = Some(500);
    assert_eq!(state.tab_area(Some(a), area).width, MIN_TAB_COLS);
    state.manual_width = None;
    assert_eq!(state.panel_rect(Some(a), area).unwrap().width, 54);
}

#[test]
fn displayed_instance_is_the_owner_instance_for_its_mode() {
    let (a, b) = (PaneId(1), PaneId(2));
    let mut state = RightPanelState {
        instances: vec![
            instance(a, RightPanelMode::Files, "/a", 1),
            instance(a, RightPanelMode::Diff, "/a", 2),
            instance(b, RightPanelMode::Files, "/a", 3),
        ],
        ..Default::default()
    };
    assert_eq!(state.displayed(a), None);
    shown(&mut state, a, RightPanelMode::Diff);

    assert_eq!(state.displayed(a), Some(&state.instances[1]));
    state.pane_mut(a).mode = RightPanelMode::Files;
    assert_eq!(state.displayed(a), Some(&state.instances[0]));
    assert_eq!(state.displayed(b), None);
    assert_eq!(state.instance_for(b, &RightPanelMode::Files), Some(2));
    assert_eq!(state.instance_for(b, &RightPanelMode::Diff), None);
}

#[test]
fn eviction_drops_least_recent_but_never_a_protected_instance() {
    let owner = PaneId(1);
    let mut state = RightPanelState {
        instances: (0..4)
            .map(|index| instance(owner, RightPanelMode::Files, &format!("/{index}"), index))
            .collect(),
        ..Default::default()
    };
    let protected = state.instances[0].terminal_id.clone();

    let evicted = state.evict_over(2, std::slice::from_ref(&protected));

    assert_eq!(
        evicted.iter().map(|i| i.dir.clone()).collect::<Vec<_>>(),
        ["/1".to_owned(), "/2".to_owned()]
    );
    assert!(state.owns_terminal(&protected).is_some());
    assert_eq!(MAX_INSTANCES, 16);
}

#[test]
fn eviction_stops_when_only_protected_instances_are_left() {
    let owner = PaneId(1);
    let mut state = RightPanelState {
        instances: (0..3)
            .map(|index| instance(owner, RightPanelMode::Files, &format!("/{index}"), index))
            .collect(),
        ..Default::default()
    };
    let protect: Vec<String> = state.instances.iter().map(|i| i.terminal_id.clone()).collect();
    assert!(state.evict_over(0, &protect).is_empty());
    assert_eq!(state.instances.len(), 3);
}

#[test]
fn touch_moves_an_instance_to_most_recent() {
    let owner = PaneId(1);
    let mut state = RightPanelState {
        instances: vec![
            instance(owner, RightPanelMode::Files, "/a", 1),
            instance(owner, RightPanelMode::Diff, "/a", 2),
        ],
        ..Default::default()
    };
    let first = state.instances[0].terminal_id.clone();

    assert_eq!(state.touch(0), first);
    assert_eq!(state.instances[1].terminal_id, first);
}

#[test]
fn exit_is_scoped_to_the_owner_pane() {
    let (a, b) = (PaneId(1), PaneId(2));
    let mut state = RightPanelState {
        instances: vec![
            instance(a, RightPanelMode::Files, "/a", 1),
            instance(b, RightPanelMode::Files, "/b", 2),
        ],
        ..Default::default()
    };
    shown(&mut state, a, RightPanelMode::Files);
    shown(&mut state, b, RightPanelMode::Files);
    state.pane_mut(a).focused = true;
    let later = 10_000 + FAILED_START_WINDOW_MS;

    let a_pane = state.instances[0].pane_id;
    assert!(matches!(
        state.command_exited(a_pane, later),
        Some(PanelExit::Released(_))
    ));

    assert!(!state.pane(a).unwrap().visible && !state.pane(a).unwrap().focused);
    assert!(state.pane(b).unwrap().visible);
    assert!(state.displayed(b).is_some());
    assert_eq!(state.command_exited(a_pane, later), None);
}

#[test]
fn early_exit_keeps_the_notice_until_the_owner_shows_again() {
    let owner = PaneId(1);
    let mut state = RightPanelState {
        instances: vec![
            instance(owner, RightPanelMode::Files, "/a", 1),
            instance(owner, RightPanelMode::Diff, "/a", 2),
        ],
        ..Default::default()
    };
    shown(&mut state, owner, RightPanelMode::Diff);
    let diff = state.instances[1].pane_id;

    assert_eq!(
        state.command_exited(diff, 10_500),
        Some(PanelExit::KeptFailedStart)
    );
    assert!(state.pane(owner).unwrap().visible);
    assert!(state.displayed(owner).unwrap().exited);

    let released = state.take_exited_for(owner);
    assert_eq!(released.len(), 1);
    assert_eq!(released[0].pane_id, diff);
    assert_eq!(state.instances.len(), 1);
}

#[test]
fn background_instance_exit_does_not_hide_the_panel() {
    let owner = PaneId(1);
    let mut state = RightPanelState {
        instances: vec![
            instance(owner, RightPanelMode::Files, "/a", 1),
            instance(owner, RightPanelMode::Diff, "/a", 2),
        ],
        ..Default::default()
    };
    shown(&mut state, owner, RightPanelMode::Files);
    let diff = state.instances[1].pane_id;

    assert!(matches!(
        state.command_exited(diff, 10_000),
        Some(PanelExit::Released(_))
    ));
    assert!(state.pane(owner).unwrap().visible);
}

#[test]
fn removing_an_owner_releases_only_its_instances() {
    let (a, b) = (PaneId(1), PaneId(2));
    let mut state = RightPanelState {
        instances: vec![
            instance(a, RightPanelMode::Files, "/a", 1),
            instance(b, RightPanelMode::Files, "/b", 2),
            instance(a, RightPanelMode::Diff, "/a", 3),
        ],
        ..Default::default()
    };
    shown(&mut state, a, RightPanelMode::Files);

    let removed = state.remove_owner(a);

    assert_eq!(removed.len(), 2);
    assert!(state.pane(a).is_none());
    assert_eq!(state.instances.len(), 1);
    assert_eq!(state.instances[0].owner, b);
}

#[test]
fn focused_public_id_requires_the_owner_panel_focused_and_shown() {
    let owner = PaneId(1);
    let mut state = RightPanelState {
        instances: vec![instance(owner, RightPanelMode::Files, "/a", 1)],
        ..Default::default()
    };
    assert_eq!(state.focused_public_id(Some(owner)), None);
    shown(&mut state, owner, RightPanelMode::Files);
    assert_eq!(state.focused_public_id(Some(owner)), None);
    state.pane_mut(owner).focused = true;
    assert_eq!(
        state.focused_public_id(Some(owner)),
        Some(public_id(&state.instances[0].terminal_id))
    );
    assert_eq!(state.focused_public_id(None), None);
}

#[test]
fn config_resets_unknown_modes_and_releases_their_instances() {
    let owner = PaneId(7);
    let mut state = RightPanelState {
        instances: vec![
            instance(owner, RightPanelMode::Files, "/a", 1),
            instance(owner, RightPanelMode::Custom("rc".into()), "/a", 2),
        ],
        ..Default::default()
    };
    shown(&mut state, owner, RightPanelMode::Custom("rc".into()));
    let config = RightPanelConfig {
        tabs: vec![RightPanelTabConfig {
            label: "awsx".into(),
            command: "awsx".into(),
        }],
        ..Default::default()
    };

    let removed = state.apply_config(PopupSize::Cells(50), &config);

    assert_eq!(removed.len(), 1);
    assert_eq!(removed[0].terminal_id, "term_2");
    assert_eq!(state.pane(owner).unwrap().mode, RightPanelMode::Files);
    assert_eq!(state.width, PopupSize::Cells(50));
    assert_eq!(state.command(&RightPanelMode::Custom("awsx".into())).as_deref(), Some("awsx"));
    assert_eq!(state.command(&RightPanelMode::Custom("rc".into())), None);
    assert_eq!(state.command(&RightPanelMode::Diff).as_deref(), Some("herdr diff"));
    assert_eq!(state.custom_labels(), vec!["awsx".to_owned()]);
}

#[test]
fn cycling_walks_the_header_order_both_ways() {
    let mut state = RightPanelState::default();
    state.custom_tabs = vec![RightPanelTabConfig {
        label: "rails c".into(),
        command: "rails c".into(),
    }];
    let next = RightPanelCycleDirection::Next;
    let previous = RightPanelCycleDirection::Previous;
    assert_eq!(state.cycled(&RightPanelMode::Jira, next), RightPanelMode::Custom("rails c".into()));
    assert_eq!(state.cycled(&RightPanelMode::Custom("rails c".into()), next), RightPanelMode::Files);
    assert_eq!(state.cycled(&RightPanelMode::Files, previous), RightPanelMode::Custom("rails c".into()));
    assert_eq!(state.cycled(&RightPanelMode::Custom("gone".into()), next), RightPanelMode::Diff);
    assert_eq!(state.effective_width(), PopupSize::Percent(45));
}

fn parent_of(path: &str) -> Option<String> {
    parent_path(&path.chars().collect::<Vec<char>>()).map(|v| v.into_iter().collect())
}

#[test]
fn parents_follow_path_components() {
    assert_eq!(parent_of("a/./b.rs").as_deref(), Some("a"));
    assert_eq!(parent_of("a/b/.").as_deref(), Some("a"));
    assert_eq!(parent_of("a//b/").as_deref(), Some("a"));
    assert_eq!(parent_of("./a").as_deref(), Some("."));
    assert_eq!(parent_of("/a").as_deref(), Some("/"));
    assert_eq!(parent_of("/./a").as_deref(), Some("/"));
    assert_eq!(parent_of("a").as_deref(), Some(""));
    assert_eq!(parent_of("a/..").as_deref(), Some("a"));
    assert_eq!(parent_of("/"), None);
    assert_eq!(parent_of("/."), None);
    assert_eq!(parent_of(""), None);
}
