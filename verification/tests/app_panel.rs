use herdr::app::{
    AgentKind, AgentSession, App, AppState, PaneSlot, PanelHost, SpawnedTerminal, Tab, TabSurfaceTarget,
    TerminalState, Workspace,
};
use herdr::panel_state::{PaneId, RightPanelConfig, RightPanelInstance, RightPanelState, RightPanelTabConfig};
use herdr::right_panel::{public_id, OpenTarget, Rect, RightPanelCycleDirection, RightPanelMode, FAILED_START_WINDOW_MS};
use herdr::sessions::ClaudeSession;

/// A host whose terminals start at once, in numbered panes.
struct FakeHost {
    next: u64,
    now: u64,
}

impl PanelHost for FakeHost {
    fn spawn_shell_command(
        &mut self,
        _dir: &str,
        _command: &str,
        _env: &Vec<(String, String)>,
        _rows: u16,
        _cols: u16,
    ) -> Result<SpawnedTerminal, String> {
        self.next += 1;
        Ok(SpawnedTerminal { pane_id: PaneId(5000 + self.next), terminal_id: format!("term_spawn{}", self.next) })
    }

    fn is_dir(&self, _path: &str) -> bool {
        true
    }

    fn now_ms(&self) -> u64 {
        self.now
    }
}

fn host() -> FakeHost {
    FakeHost { next: 0, now: 1_000_000 }
}

fn slot(id: u64) -> PaneSlot {
    PaneSlot {
        id: PaneId(id),
        terminal_id: format!("term_pane{id}"),
        public_id: format!("w1:p{id}"),
        cwd: Some("/panel".into()),
        foreground_cwd: None,
    }
}

fn test_app() -> App {
    App {
        state: AppState {
            workspaces: vec![Workspace { tabs: vec![Tab { panes: vec![slot(1)], focused: PaneId(1) }], active_tab: 0 }],
            active: Some(0),
            terminals: vec![TerminalState { id: "term_pane1".into(), dir: "/panel".into(), agent_session: None }],
            right_panel: RightPanelState::default(),
            command_env: Vec::new(),
        },
        claude_sessions: Vec::new(),
        home: None,
        shutdowns: Vec::new(),
        render_requested: false,
        started: Vec::new(),
    }
}

fn target() -> TabSurfaceTarget {
    TabSurfaceTarget { workspace_index: 0, tab_index: 0 }
}

fn focused(app: &App) -> PaneId {
    app.state.workspaces[0].tabs[0].focused
}

fn focus(app: &mut App, pane: PaneId) {
    app.state.workspaces[0].tabs[0].focused = pane;
}

fn split(app: &mut App) -> (PaneId, PaneId) {
    let first = focused(app);
    app.state.workspaces[0].tabs[0].panes.push(slot(2));
    app.state.terminals.push(TerminalState { id: "term_pane2".into(), dir: "/panel".into(), agent_session: None });
    (first, PaneId(2))
}

fn install_instance(app: &mut App, owner: PaneId, mode: RightPanelMode, dir: &str) -> RightPanelInstance {
    let n = app.state.right_panel.instances.len() as u64 + 100 * (owner.0 + 1);
    let instance = RightPanelInstance {
        owner,
        mode,
        dir: dir.into(),
        pane_id: PaneId(1000 + n),
        terminal_id: format!("term_inst{n}"),
        spawned_at_ms: 1_000_000,
        exited: false,
    };
    app.state.terminals.push(TerminalState { id: instance.terminal_id.clone(), dir: dir.into(), agent_session: None });
    app.state.right_panel.instances.push(instance.clone());
    instance
}

fn displayed(app: &App, owner: PaneId) -> Option<String> {
    app.state.right_panel.displayed(owner).map(|instance| instance.terminal_id.clone())
}

fn has_terminal(app: &App, id: &str) -> bool {
    app.state.terminals.iter().any(|t| t.id == id)
}

fn sync(app: &mut App) {
    app.sync_right_panel(&mut host(), target(), PANEL);
}

const PANEL: Rect = Rect { x: 60, y: 0, width: 40, height: 20 };

fn configure_tabs(app: &mut App, labels: &[&str]) {
    let defaults = RightPanelState::default();
    let config = RightPanelConfig {
        files_command: defaults.files_command,
        diff_command: defaults.diff_command,
        open_command: defaults.open_command,
        jira_command: defaults.jira_command,
        tabs: labels
            .iter()
            .map(|label| RightPanelTabConfig { label: (*label).into(), command: "sleep 30".into() })
            .collect(),
    };
    let width = app.state.right_panel.width;
    app.apply_right_panel_config(width, &config);
}

fn custom(label: &str) -> RightPanelMode {
    RightPanelMode::Custom(label.into())
}

#[test]
fn toggle_shows_focused_then_hides_unfocused_for_the_focused_pane() {
    let mut app = test_app();
    let owner = focused(&app);

    app.toggle_right_panel();
    let pane = app.state.right_panel.pane(owner).unwrap();
    assert!(pane.visible && pane.focused);

    app.toggle_right_panel();
    let pane = app.state.right_panel.pane(owner).unwrap();
    assert!(!pane.visible && !pane.focused);
}

#[test]
fn panel_state_is_isolated_per_pane_and_restored_on_return() {
    let mut app = test_app();
    let (a, b) = split(&mut app);
    let a_files = install_instance(&mut app, a, RightPanelMode::Files, "/a");
    app.toggle_right_panel();
    sync(&mut app);
    assert_eq!(displayed(&app, a), Some(a_files.terminal_id.clone()));

    focus(&mut app, b);
    assert!(!app.state.right_panel.is_visible_for(Some(b)));
    assert_eq!(app.state.right_panel_owner(target()), Some(b));
    sync(&mut app);
    assert_eq!(app.state.right_panel.pane(b), None);

    focus(&mut app, a);
    sync(&mut app);
    assert_eq!(displayed(&app, a), Some(a_files.terminal_id));
    assert!(app.state.right_panel.is_visible_for(Some(a)));
}

#[test]
fn mode_is_per_pane() {
    let mut app = test_app();
    let (a, b) = split(&mut app);
    app.show_right_panel(RightPanelMode::Diff);
    focus(&mut app, b);
    app.show_right_panel(RightPanelMode::Files);

    assert_eq!(app.state.right_panel.pane(a).unwrap().mode, RightPanelMode::Diff);
    assert_eq!(app.state.right_panel.pane(b).unwrap().mode, RightPanelMode::Files);
}

#[test]
fn cycle_next_walks_the_header_order_and_wraps() {
    let mut app = test_app();
    let owner = focused(&app);
    app.show_right_panel(RightPanelMode::Files);

    let mut seen = Vec::new();
    for _ in 0..3 {
        app.cycle_right_panel(RightPanelCycleDirection::Next);
        seen.push(app.state.right_panel.pane(owner).unwrap().mode.clone());
    }

    assert_eq!(seen, vec![RightPanelMode::Diff, RightPanelMode::Jira, RightPanelMode::Files]);
}

#[test]
fn cycle_previous_walks_backwards_and_wraps() {
    let mut app = test_app();
    let owner = focused(&app);
    app.show_right_panel(RightPanelMode::Files);

    let mut seen = Vec::new();
    for _ in 0..3 {
        app.cycle_right_panel(RightPanelCycleDirection::Previous);
        seen.push(app.state.right_panel.pane(owner).unwrap().mode.clone());
    }

    assert_eq!(seen, vec![RightPanelMode::Jira, RightPanelMode::Diff, RightPanelMode::Files]);
}

#[test]
fn cycle_reaches_custom_tabs_and_wraps_to_files() {
    let mut app = test_app();
    let owner = focused(&app);
    configure_tabs(&mut app, &["rails c", "awsx"]);
    app.show_right_panel(RightPanelMode::Jira);

    let mut seen = Vec::new();
    for _ in 0..3 {
        app.cycle_right_panel(RightPanelCycleDirection::Next);
        seen.push(app.state.right_panel.pane(owner).unwrap().mode.clone());
    }
    app.cycle_right_panel(RightPanelCycleDirection::Previous);
    seen.push(app.state.right_panel.pane(owner).unwrap().mode.clone());

    assert_eq!(seen, vec![custom("rails c"), custom("awsx"), RightPanelMode::Files, custom("awsx")]);
}

#[test]
fn switching_away_from_a_custom_tab_keeps_its_terminal() {
    let mut app = test_app();
    let owner = focused(&app);
    configure_tabs(&mut app, &["rc"]);
    let files = install_instance(&mut app, owner, RightPanelMode::Files, "/a");
    let rc = install_instance(&mut app, owner, custom("rc"), "/a");

    app.show_right_panel(custom("rc"));
    sync(&mut app);
    assert_eq!(displayed(&app, owner), Some(rc.terminal_id.clone()));
    app.show_right_panel(RightPanelMode::Files);
    sync(&mut app);
    assert_eq!(displayed(&app, owner), Some(files.terminal_id));
    app.show_right_panel(custom("rc"));
    sync(&mut app);

    assert_eq!(displayed(&app, owner), Some(rc.terminal_id.clone()));
    assert!(has_terminal(&app, &rc.terminal_id));
}

#[test]
fn reload_removing_the_visible_custom_tab_releases_it_and_shows_files() {
    let mut app = test_app();
    let owner = focused(&app);
    configure_tabs(&mut app, &["rc", "awsx"]);
    let files = install_instance(&mut app, owner, RightPanelMode::Files, "/a");
    let rc = install_instance(&mut app, owner, custom("rc"), "/a");
    app.show_right_panel(custom("rc"));

    configure_tabs(&mut app, &["awsx"]);
    sync(&mut app);

    let pane = app.state.right_panel.pane(owner).unwrap();
    assert!(pane.visible);
    assert_eq!(pane.mode, RightPanelMode::Files);
    assert!(!has_terminal(&app, &rc.terminal_id));
    assert_eq!(displayed(&app, owner), Some(files.terminal_id));
}

#[test]
fn a_mode_without_a_command_falls_back_to_files() {
    let mut app = test_app();
    let owner = focused(&app);
    let files = install_instance(&mut app, owner, RightPanelMode::Files, "/a");
    app.show_right_panel(custom("gone"));

    sync(&mut app);

    assert_eq!(app.state.right_panel.pane(owner).unwrap().mode, RightPanelMode::Files);
    assert_eq!(displayed(&app, owner), Some(files.terminal_id));
}

#[test]
fn panel_env_lists_the_owner_claude_session_repos() {
    let mut app = test_app();
    let owner = focused(&app);
    let session_id = "0da32074-acd6-4c79-9d29-aac5cc63ca81";
    let repos_env = |app: &App| {
        app.right_panel_env(owner)
            .into_iter()
            .filter(|(key, _)| key == "HERDR_SESSION_REPOS")
            .map(|(_, value)| value)
            .collect::<Vec<_>>()
    };
    assert_eq!(repos_env(&app), vec![String::new()]);

    app.state.terminals[0].agent_session = Some(AgentSession { agent: AgentKind::ClaudeCode, value: session_id.into() });
    app.claude_sessions.push(ClaudeSession {
        session_id: session_id.into(),
        title: String::new(),
        cwd: "/r/api".into(),
        context: String::new(),
        worktree_path: None,
        repos: vec!["/r/web".into(), "/r/api".into()],
        updated_at_ms: 0,
    });

    assert_eq!(repos_env(&app), vec!["/r/web\n/r/api".to_owned()]);
    let env = app.right_panel_env(owner);
    assert!(env.iter().any(|(key, _)| key == "HERDR_PANEL_OWNER_PANE_ID"));
}

#[test]
fn cycle_opens_a_hidden_panel_focused_at_the_resulting_mode() {
    let mut app = test_app();
    let owner = focused(&app);

    app.cycle_right_panel(RightPanelCycleDirection::Next);

    let pane = app.state.right_panel.pane(owner).unwrap();
    assert!(pane.visible && pane.focused);
    assert_eq!(pane.mode, RightPanelMode::Diff);
}

#[test]
fn cycle_on_a_visible_panel_keeps_keyboard_focus_where_it_is() {
    let mut app = test_app();
    let owner = focused(&app);
    app.show_right_panel(RightPanelMode::Files);
    app.blur_right_panel();

    app.cycle_right_panel(RightPanelCycleDirection::Next);

    let pane = app.state.right_panel.pane(owner).unwrap();
    assert!(pane.visible && !pane.focused);
    assert_eq!(pane.mode, RightPanelMode::Diff);
}

#[test]
fn cycle_only_changes_the_focused_pane_mode() {
    let mut app = test_app();
    let (a, b) = split(&mut app);
    app.show_right_panel(RightPanelMode::Diff);
    focus(&mut app, b);

    app.cycle_right_panel(RightPanelCycleDirection::Previous);

    assert_eq!(app.state.right_panel.pane(a).unwrap().mode, RightPanelMode::Diff);
    assert_eq!(app.state.right_panel.pane(b).unwrap().mode, RightPanelMode::Jira);
}

#[test]
fn instances_are_not_shared_between_panes_in_the_same_directory() {
    let mut app = test_app();
    let (a, b) = split(&mut app);
    let a_files = install_instance(&mut app, a, RightPanelMode::Files, "/same");
    let b_files = install_instance(&mut app, b, RightPanelMode::Files, "/same");
    app.toggle_right_panel();
    focus(&mut app, b);
    app.toggle_right_panel();

    assert_eq!(displayed(&app, a), Some(a_files.terminal_id));
    assert_eq!(displayed(&app, b), Some(b_files.terminal_id));
}

#[test]
fn open_for_an_unfocused_pane_prepares_it_without_stealing_the_view() {
    let mut app = test_app();
    let (a, b) = split(&mut app);

    assert!(app.open_right_panel(&OpenTarget::Dir("/b".into()), Some(b)));

    assert_eq!(focused(&app), a);
    assert!(!app.state.right_panel.is_visible_for(Some(a)));
    let pane = app.state.right_panel.pane(b).unwrap();
    assert!(pane.visible && !pane.focused);
    assert_eq!(pane.mode, RightPanelMode::Files);
    assert!(pane.pending_open.is_some());
}

#[test]
fn open_without_owner_targets_and_focuses_the_focused_pane() {
    let mut app = test_app();
    let owner = focused(&app);

    assert!(app.open_right_panel(&OpenTarget::Dir("/x".into()), None));

    let pane = app.state.right_panel.pane(owner).unwrap();
    assert!(pane.visible && pane.focused);
}

#[test]
fn open_directory_reuses_the_pane_files_instance_in_that_directory() {
    let mut app = test_app();
    let owner = focused(&app);
    let files = install_instance(&mut app, owner, RightPanelMode::Files, "/d");

    app.open_right_panel(&OpenTarget::Dir("/d".into()), None);
    sync(&mut app);

    assert_eq!(displayed(&app, owner), Some(files.terminal_id));
    assert_eq!(app.state.right_panel.pane(owner).unwrap().pending_open, None);
}

#[test]
fn focus_moves_between_panel_and_panes() {
    let mut app = test_app();
    let owner = focused(&app);
    let instance = install_instance(&mut app, owner, RightPanelMode::Files, "/a");
    app.state.right_panel.pane_mut(owner).visible = true;

    assert!(!app.focus_right_panel("term_other"));
    assert!(app.focus_right_panel(instance.terminal_id.as_str()));
    assert!(app.state.right_panel.pane(owner).unwrap().focused);

    app.blur_right_panel();
    assert!(!app.state.right_panel.pane(owner).unwrap().focused);
}

#[test]
fn focusing_another_pane_panel_is_refused() {
    let mut app = test_app();
    let (_, b) = split(&mut app);
    let b_files = install_instance(&mut app, b, RightPanelMode::Files, "/b");
    app.state.right_panel.pane_mut(b).visible = true;

    assert!(!app.focus_right_panel(b_files.terminal_id.as_str()));
}

#[test]
fn closing_a_tiled_pane_releases_its_instances() {
    let mut app = test_app();
    let (a, b) = split(&mut app);
    let a_files = install_instance(&mut app, a, RightPanelMode::Files, "/a");
    let b_files = install_instance(&mut app, b, RightPanelMode::Files, "/b");
    app.state.right_panel.pane_mut(b).visible = true;

    app.release_right_panel_owner(b);

    assert!(app.state.right_panel.pane(b).is_none());
    assert!(!has_terminal(&app, &b_files.terminal_id));
    assert!(has_terminal(&app, &a_files.terminal_id));
}

#[test]
fn sync_prunes_state_for_panes_that_no_longer_exist() {
    let mut app = test_app();
    let gone = PaneId(77);
    let orphan = install_instance(&mut app, gone, RightPanelMode::Files, "/gone");
    app.state.right_panel.pane_mut(gone).visible = true;

    sync(&mut app);

    assert!(app.state.right_panel.pane(gone).is_none());
    assert!(!has_terminal(&app, &orphan.terminal_id));
}

#[test]
fn hide_show_hide_keeps_the_pane_instance_for_reuse() {
    let mut app = test_app();
    let owner = focused(&app);
    let instance = install_instance(&mut app, owner, RightPanelMode::Files, "/a");

    app.toggle_right_panel();
    app.toggle_right_panel();
    app.toggle_right_panel();
    sync(&mut app);
    assert_eq!(displayed(&app, owner), Some(instance.terminal_id.clone()));
    app.toggle_right_panel();

    assert!(!app.state.right_panel.is_visible_for(Some(owner)));
    assert_eq!(app.state.right_panel.instances, vec![instance.clone()]);
    assert!(has_terminal(&app, &instance.terminal_id));
}

#[test]
fn failed_start_stays_visible_and_the_next_show_respawns() {
    let mut app = test_app();
    let owner = focused(&app);
    let files = install_instance(&mut app, owner, RightPanelMode::Files, "/a");
    let diff = install_instance(&mut app, owner, RightPanelMode::Diff, "/a");
    app.show_right_panel(RightPanelMode::Diff);

    assert!(app.right_panel_pane_died(diff.pane_id, 1_000_000));
    assert!(app.state.right_panel.is_visible_for(Some(owner)));
    assert!(has_terminal(&app, &diff.terminal_id));

    app.show_right_panel(RightPanelMode::Files);

    assert_eq!(app.state.right_panel.instances, vec![files]);
    assert!(!has_terminal(&app, &diff.terminal_id));
}

#[test]
fn command_exit_after_startup_hides_only_that_pane_panel() {
    let mut app = test_app();
    let (a, b) = split(&mut app);
    let a_files = install_instance(&mut app, a, RightPanelMode::Files, "/a");
    let _b_files = install_instance(&mut app, b, RightPanelMode::Files, "/b");
    let now = 1_000_000 + FAILED_START_WINDOW_MS;
    app.state.right_panel.pane_mut(a).visible = true;
    app.state.right_panel.pane_mut(b).visible = true;

    assert!(app.right_panel_pane_died(a_files.pane_id, now));

    assert!(!app.state.right_panel.is_visible_for(Some(a)));
    assert!(app.state.right_panel.is_visible_for(Some(b)));
    assert!(!has_terminal(&app, &a_files.terminal_id));
    assert!(!app.right_panel_pane_died(a_files.pane_id, now));
}

#[test]
fn set_width_is_global_and_survives_toggles_until_reset() {
    let mut app = test_app();
    app.set_right_panel_width(Some(40));
    app.toggle_right_panel();
    app.toggle_right_panel();
    let width = app.state.right_panel.width;
    let defaults = RightPanelState::default();
    let config = RightPanelConfig {
        files_command: defaults.files_command,
        diff_command: defaults.diff_command,
        open_command: defaults.open_command,
        jira_command: defaults.jira_command,
        tabs: Vec::new(),
    };
    app.apply_right_panel_config(width, &config);
    assert_eq!(app.state.right_panel.manual_width, Some(40));

    app.set_right_panel_width(None);
    assert_eq!(app.state.right_panel.effective_width(), app.state.right_panel.width);
}

#[test]
fn right_panel_runtime_rejects_foreign_ids() {
    let mut app = test_app();
    let owner = focused(&app);
    let instance = install_instance(&mut app, owner, RightPanelMode::Files, "/a");
    assert!(app.right_panel_runtime("w1:p1").is_none());
    assert!(app.right_panel_runtime(&public_id(&instance.terminal_id)).is_none());
}

#[test]
fn right_panel_runtime_finds_a_started_instance() {
    let mut app = test_app();
    let owner = focused(&app);
    app.toggle_right_panel();
    sync(&mut app);
    let shown = displayed(&app, owner).unwrap();
    assert_eq!(shown, "term_spawn1");
    assert_eq!(app.right_panel_runtime(&public_id(&shown)), Some(shown.clone()));
    assert_eq!(app.started, vec![shown]);
}
