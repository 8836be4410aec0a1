use herdr::gc::GcReport;
use herdr::issues::Issue;
use herdr::jira::{ClaudeSessionInfo, StatusCategory};
use herdr::jira_state::{
    Comment, GcPhase, JiraState, Job, KeyCode, KeyPress, Outcome, PaneContext, Popup, Row,
    Selection, Transition, ViewState,
};
use herdr::jira_ui::Action;
use herdr::json::Json;

const T0: u64 = 1_000_000;

fn issue(key: &str, status: &str) -> Issue {
    Issue {
        key: key.into(),
        summary: format!("resumo {key}"),
        status: status.into(),
        category: StatusCategory::InProgress,
        priority: Some("High".into()),
        assignee: None,
        issue_type: "Task".into(),
        updated: String::new(),
        parent: None,
    }
}

fn freshly_loaded_state() -> JiraState {
    let mut state = JiraState::new(
        "VK25".into(),
        "https://x.atlassian.net/browse/".into(),
        vec!["Development".into(), "Code Review".into()],
        60,
        Some("w1:p1".into()),
    );
    state.loading = true;
    state.apply(
        Outcome::List {
            issues: vec![
                issue("VK25-1", "Code Review"),
                issue("VK25-2", "Development"),
                issue("VK25-3", "Code Review"),
            ],
            sessions: vec![ClaudeSessionInfo {
                session_id: "s3".into(),
                title: String::new(),
                cwd: String::new(),
                context: "VK25-3".into(),
                worktree_path: None,
                updated_at_ms: 1,
                pane_id: Some("w1:p1".into()),
            }],
            owner: PaneContext {
                workspace_id: None,
                cwd: None,
            },
            pane_status: vec![("w1:p1".to_owned(), "working".to_owned())],
        },
        T0,
    );
    state
}

fn loaded_state() -> JiraState {
    let mut state = freshly_loaded_state();
    state.collapsed.clear();
    state.rebuild_rows();
    state
}

fn press(code: KeyCode) -> KeyPress {
    KeyPress {
        code,
        ctrl: false,
        alt: false,
    }
}

fn ctrl(ch: char) -> KeyPress {
    KeyPress {
        code: KeyCode::Char(ch),
        ctrl: true,
        alt: false,
    }
}

fn header(status: &str, count: usize, collapsed: bool) -> Row {
    Row::Header {
        status: status.into(),
        count,
        collapsed,
    }
}

fn key(state: &mut JiraState, code: KeyCode) -> Vec<Job> {
    state.key(press(code), T0).jobs
}

#[test]
fn list_groups_rows_and_preselects_owner_session_issue() {
    let state = loaded_state();

    assert_eq!(
        state.rows,
        [
            header("Development", 1, false),
            Row::Issue("VK25-2".into()),
            header("Code Review", 2, false),
            Row::Issue("VK25-1".into()),
            Row::Issue("VK25-3".into()),
        ]
    );
    assert_eq!(state.selection, Some(Selection::Issue("VK25-3".into())));
    let link = state
        .links
        .iter()
        .find(|(key, _)| key == "VK25-3")
        .map(|(_, link)| link)
        .unwrap();
    assert_eq!(link.agent_status.as_deref(), Some("working"));
    assert!(!state.loading);
}

#[test]
fn first_load_collapses_every_group_except_the_highlighted_issue() {
    let mut state = freshly_loaded_state();

    assert_eq!(
        state.rows,
        [
            header("Development", 1, true),
            header("Code Review", 2, false),
            Row::Issue("VK25-1".into()),
            Row::Issue("VK25-3".into()),
        ]
    );
    assert_eq!(state.selection, Some(Selection::Issue("VK25-3".into())));

    state.toggle_group("Development");
    state.issues.push(issue("VK25-4", "QA - Staging"));
    state.rebuild_rows();
    assert!(state.rows.contains(&Row::Issue("VK25-2".into())));
    assert!(state.rows.contains(&header("QA - Staging", 1, true)));
}

#[test]
fn enter_on_header_collapses_and_on_issue_opens_detail() {
    let mut state = loaded_state();
    key(&mut state, KeyCode::Home);
    key(&mut state, KeyCode::Enter);

    assert!(state.rows.contains(&header("Development", 1, true)));
    assert!(!state.rows.contains(&Row::Issue("VK25-2".into())));

    key(&mut state, KeyCode::Down);
    key(&mut state, KeyCode::Down);
    let jobs = key(&mut state, KeyCode::Enter);

    assert_eq!(jobs, [Job::Detail("VK25-1".into())]);
    assert!(matches!(&state.view, ViewState::Detail { key, .. } if key == "VK25-1"));
    key(&mut state, KeyCode::Esc);
    assert!(matches!(state.view, ViewState::List));
}

fn transitions(list: Vec<Transition>) -> Outcome {
    Outcome::Transitions {
        key: "VK25-3".into(),
        transitions: list,
    }
}

#[test]
fn move_menu_applies_transition_optimistically() {
    let mut state = loaded_state();
    let jobs = key(&mut state, KeyCode::Char('m'));
    assert_eq!(jobs, [Job::Transitions("VK25-3".into())]);
    state.apply(
        transitions(vec![
            Transition {
                id: "1".into(),
                name: "Voltar".into(),
                to: "Development".into(),
                required_fields: vec![],
            },
            Transition {
                id: "2".into(),
                name: "Merge".into(),
                to: "QA - Staging".into(),
                required_fields: vec![],
            },
        ]),
        T0,
    );

    key(&mut state, KeyCode::Down);
    let jobs = key(&mut state, KeyCode::Enter);

    assert_eq!(
        jobs,
        [Job::Transition {
            key: "VK25-3".into(),
            transition_id: "2".into(),
            to: "QA - Staging".into()
        }]
    );
    assert_eq!(state.issue("VK25-3").unwrap().status, "QA - Staging");
    assert!(state.popup.is_none());
    assert!(state.rows.contains(&header("QA - Staging", 1, false)));
}

#[test]
fn transitions_with_required_fields_open_the_browser_instead() {
    let mut state = loaded_state();
    key(&mut state, KeyCode::Char('m'));
    state.apply(
        transitions(vec![Transition {
            id: "9".into(),
            name: "Resolver".into(),
            to: "Concluído".into(),
            required_fields: vec!["Resolução".into()],
        }]),
        T0,
    );

    let jobs = key(&mut state, KeyCode::Char('1'));

    assert_eq!(
        jobs,
        [Job::OpenUrl("https://x.atlassian.net/browse/VK25-3".into())]
    );
    assert_eq!(state.issue("VK25-3").unwrap().status, "Code Review");
    let notice = state.notice.as_ref().unwrap();
    assert!(notice.error);
    assert_eq!(notice.text, "\"Resolver\" pede Resolução; abrindo no browser");
}

#[test]
fn comment_popup_edits_and_sends_with_ctrl_s() {
    let mut state = loaded_state();
    key(&mut state, KeyCode::Char('c'));
    for ch in "oi".chars() {
        key(&mut state, KeyCode::Char(ch));
    }
    key(&mut state, KeyCode::Enter);
    state.paste("tchau\r\n");
    key(&mut state, KeyCode::Backspace);

    let effects = state.key(ctrl('s'), T0);

    assert_eq!(
        effects.jobs,
        [Job::Comment {
            key: "VK25-3".into(),
            text: "oi\ntchau".into()
        }]
    );
    assert!(state.key(ctrl('s'), T0).jobs.is_empty());
    state.apply(
        Outcome::Commented {
            key: "VK25-3".into(),
            comment: Comment {
                author: "Eu".into(),
                created: String::new(),
                body: Json::Null,
            },
        },
        T0,
    );
    assert!(state.popup.is_none());
}

#[test]
fn comment_editor_moves_within_lines() {
    let mut state = loaded_state();
    key(&mut state, KeyCode::Char('c'));
    state.paste("ab\ncd");
    key(&mut state, KeyCode::Home);
    key(&mut state, KeyCode::Char('x'));
    key(&mut state, KeyCode::Left);
    key(&mut state, KeyCode::Left);
    key(&mut state, KeyCode::Delete);
    key(&mut state, KeyCode::End);
    key(&mut state, KeyCode::Tab);
    match &state.popup {
        Some(Popup::Comment { text, cursor, .. }) => {
            assert_eq!(text.iter().collect::<String>(), "abxcd  ");
            assert_eq!(*cursor, 7);
        }
        other => panic!("{other:?}"),
    }
}

#[test]
fn empty_comment_is_not_sent_and_escape_cancels() {
    let mut state = loaded_state();
    key(&mut state, KeyCode::Char('c'));

    assert!(state.key(ctrl('s'), T0).jobs.is_empty());
    key(&mut state, KeyCode::Esc);
    assert!(state.popup.is_none());
}

#[test]
fn actions_need_a_selected_issue() {
    let mut state = loaded_state();
    key(&mut state, KeyCode::Home);

    assert!(key(&mut state, KeyCode::Char('a')).is_empty());
    assert!(state.notice.as_ref().unwrap().error);
    key(&mut state, KeyCode::Down);
    assert_eq!(
        key(&mut state, KeyCode::Char('a')),
        [Job::AssignMe("VK25-2".into())]
    );
    assert_eq!(
        key(&mut state, KeyCode::Char('o')),
        [Job::OpenUrl("https://x.atlassian.net/browse/VK25-2".into())]
    );
}

#[test]
fn session_action_carries_the_linked_session() {
    let mut state = loaded_state();

    let jobs = key(&mut state, KeyCode::Char('w'));

    let [Job::Session {
        key,
        link: Some(link),
    }] = jobs.as_slice()
    else {
        panic!("expected session job, got {:?}", jobs);
    };
    assert_eq!(key, "VK25-3");
    assert_eq!(link.pane_id.as_deref(), Some("w1:p1"));
}

#[test]
fn auto_refresh_waits_for_interval_and_skips_while_loading() {
    let mut state = loaded_state();

    assert_eq!(state.tick(T0), None);
    assert_eq!(state.tick(T0 + 61_000), Some(Job::Refresh));
    assert_eq!(state.tick(T0 + 122_000), None);
}

#[test]
fn notices_expire_after_their_time() {
    let mut state = loaded_state();
    state.notify("oi".into(), false, T0);
    state.tick(T0 + 6_000);
    assert!(state.notice.is_some());
    state.tick(T0 + 6_001);
    assert!(state.notice.is_none());
}

#[test]
fn list_failures_keep_existing_rows() {
    let mut state = loaded_state();
    state.loading = true;

    state.apply(Outcome::ListFailed("falha de rede".into()), T0);

    assert_eq!(state.rows.len(), 5);
    assert_eq!(state.list_error.as_deref(), Some("falha de rede"));
}

fn gc_report(removable: &[&str]) -> GcReport {
    GcReport {
        summary: Some(format!(
            "3 worktrees | {} removiveis (~1MB) | 0 orfas | 2 mantidas",
            removable.len()
        )),
        removable: removable.iter().map(|row| (*row).to_owned()).collect(),
        orphans: Vec::new(),
        lines: Vec::new(),
    }
}

fn done_report() -> GcReport {
    GcReport {
        summary: Some("1 worktrees removidas, 0 orfas podadas.".into()),
        removable: Vec::new(),
        orphans: Vec::new(),
        lines: Vec::new(),
    }
}

fn gc(apply: bool, result: Result<GcReport, String>) -> Outcome {
    Outcome::WorktreeGc { apply, result }
}

#[test]
fn clean_worktrees_runs_dry_run_then_applies_only_after_confirm() {
    let mut state = loaded_state();
    let jobs = key(&mut state, KeyCode::Char('L'));
    assert_eq!(jobs, [Job::WorktreeGc { apply: false }]);
    assert!(matches!(
        state.popup,
        Some(Popup::WorktreeGc {
            phase: GcPhase::Loading,
            scroll: 0
        })
    ));
    assert!(key(&mut state, KeyCode::Enter).is_empty());

    state.apply(gc(false, Ok(gc_report(&["a-worktrees/K-1  pr=merged  1MB"]))), T0);
    assert!(matches!(
        state.popup,
        Some(Popup::WorktreeGc {
            phase: GcPhase::Preview(_),
            ..
        })
    ));

    let jobs = key(&mut state, KeyCode::Enter);
    assert_eq!(jobs, [Job::WorktreeGc { apply: true }]);
    assert!(matches!(
        state.popup,
        Some(Popup::WorktreeGc {
            phase: GcPhase::Applying(_),
            ..
        })
    ));
    assert!(state.action(Action::Confirm, T0).jobs.is_empty());

    state.loading = false;
    let effects = state.apply(gc(true, Ok(done_report())), T0);
    assert!(effects.jobs.contains(&Job::Refresh));
    assert!(matches!(
        state.popup,
        Some(Popup::WorktreeGc {
            phase: GcPhase::Done(_),
            ..
        })
    ));
    key(&mut state, KeyCode::Esc);
    assert!(state.popup.is_none());
}

#[test]
fn nothing_to_remove_only_closes_and_cancel_never_applies() {
    let mut state = loaded_state();
    state.action(Action::CleanWorktrees, T0);
    state.apply(gc(false, Ok(gc_report(&[]))), T0);
    assert!(key(&mut state, KeyCode::Enter).is_empty());
    assert!(state.popup.is_none());

    state.action(Action::CleanWorktrees, T0);
    state.apply(gc(false, Ok(gc_report(&["a-worktrees/K-1  pr=merged  1MB"]))), T0);
    assert!(key(&mut state, KeyCode::Esc).is_empty());
    assert!(state.popup.is_none());

    state.action(Action::CleanWorktrees, T0);
    state.apply(gc(false, Err("vk-wt: comando não encontrado".into())), T0);
    match &state.popup {
        Some(Popup::WorktreeGc {
            phase: GcPhase::Failed(error),
            scroll: 0,
        }) => assert_eq!(error, "vk-wt: comando não encontrado"),
        other => panic!("{other:?}"),
    }
    assert!(state.action(Action::Confirm, T0).jobs.is_empty());
    assert!(state.popup.is_none());
}

#[test]
fn apply_result_after_closing_the_popup_becomes_a_notice_and_refreshes() {
    let mut state = loaded_state();
    state.action(Action::CleanWorktrees, T0);
    state.apply(gc(false, Ok(gc_report(&["a-worktrees/K-1  pr=merged  1MB"]))), T0);
    state.action(Action::Confirm, T0);
    state.action(Action::Close, T0);
    state.loading = false;
    let effects = state.apply(gc(true, Ok(done_report())), T0);
    assert!(effects.jobs.contains(&Job::Refresh));
    assert_eq!(
        state.notice.as_ref().map(|notice| notice.text.as_str()),
        Some("1 worktrees removidas, 0 orfas podadas.")
    );
    assert!(state.popup.is_none());
}

#[test]
fn stale_dry_run_results_do_not_reopen_a_closed_popup() {
    let mut state = loaded_state();
    state.action(Action::CleanWorktrees, T0);
    state.action(Action::Close, T0);
    state.apply(gc(false, Ok(gc_report(&["a-worktrees/K-1  pr=merged  1MB"]))), T0);
    assert!(state.popup.is_none());
}
