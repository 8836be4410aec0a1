use herdr::issues::Issue;
use herdr::jira::{ClaudeSessionInfo, StatusCategory};
use herdr::jira_state::{JiraState, Outcome, PaneContext};
use herdr::jira_ui::Hit;
use herdr::right_panel::Rect;
use herdr::jira_ui::truncate;

fn issue(key: &str, status: &str) -> Issue {
    Issue {
        key: key.into(),
        summary: format!("resumo {key}"),
        status: status.into(),
        category: StatusCategory::InProgress,
        priority: Some("High".into()),
        assignee: None,
        issue_type: "Task".into(),
        updated: String::new(),
        parent: None,
    }
}

fn listed() -> JiraState {
    let mut state = JiraState::new(
        "VK25".into(),
        "https://x.atlassian.net/browse/".into(),
        vec!["Development".into(), "Code Review".into()],
        60,
        Some("w1:p1".into()),
    );
    state.apply(
        Outcome::List {
            issues: vec![issue("VK25-1", "Code Review"), issue("VK25-2", "Development"), issue("VK25-3", "Code Review")],
            sessions: vec![ClaudeSessionInfo {
                session_id: "s3".into(),
                title: String::new(),
                cwd: String::new(),
                context: "VK25-3".into(),
                worktree_path: None,
                updated_at_ms: 1,
                pane_id: Some("w1:p1".into()),
            }],
            owner: PaneContext { workspace_id: None, cwd: None },
            pane_status: Vec::new(),
        },
        1_000_000,
    );
    state.collapsed.clear();
    state.rebuild_rows();
    state
}

#[test]
fn list_layout_hits_each_shown_row_then_the_session_dots() {
    let mut state = listed();
    assert_eq!(state.rows.len(), 5);
    state.hits.clear();
    state.scroll = 0;
    state.list_layout(Rect { x: 0, y: 2, width: 40, height: 3 });
    assert_eq!(state.list_height, 3);
    assert_eq!(state.scroll, 0);
    assert_eq!(
        state.hits,
        vec![
            (Rect { x: 0, y: 2, width: 40, height: 1 }, Hit::Row(0)),
            (Rect { x: 0, y: 3, width: 40, height: 1 }, Hit::Row(1)),
            (Rect { x: 0, y: 4, width: 40, height: 1 }, Hit::Row(2)),
        ]
    );
}

#[test]
fn list_layout_clamps_the_scroll_and_adds_after_earlier_hits() {
    let mut state = listed();
    state.hits.clear();
    state.hits.push((Rect { x: 9, y: 9, width: 1, height: 1 }, Hit::PopupArea));
    state.scroll = 10;
    state.list_layout(Rect { x: 0, y: 2, width: 40, height: 3 });
    assert_eq!(state.scroll, 2);
    assert_eq!(
        state.hits,
        vec![
            (Rect { x: 9, y: 9, width: 1, height: 1 }, Hit::PopupArea),
            (Rect { x: 0, y: 2, width: 40, height: 1 }, Hit::Row(2)),
            (Rect { x: 0, y: 3, width: 40, height: 1 }, Hit::Row(3)),
            (Rect { x: 0, y: 4, width: 40, height: 1 }, Hit::Row(4)),
            (Rect { x: 1, y: 4, width: 2, height: 1 }, Hit::Dot("VK25-3".into())),
        ]
    );
}

#[test]
fn list_rows_show_headers_dots_keys_icons_and_cut_summaries() {
    let state = listed();
    let texts: Vec<Option<String>> = (0..state.rows.len()).map(|i| state.row_text(i, 40)).collect();
    assert_eq!(texts[0].as_deref(), Some(" ▾ Development (1)"));
    assert!(texts.contains(&Some("   VK25-2 ↑ resumo VK25-2".to_owned())));
    assert!(texts.contains(&Some(" ▾ Code Review (2)".to_owned())));
    assert!(texts.contains(&Some(" ● VK25-3 ↑ resumo VK25-3".to_owned())));
    let narrow = state.row_text(1, 20);
    assert_eq!(narrow.as_deref(), Some("   VK25-2 ↑ resumo…"));
}

#[test]
fn truncate_cuts_by_columns_and_marks_the_cut() {
    assert_eq!(truncate("abc", 3), "abc");
    assert_eq!(truncate("abcdef", 4), "abc…");
    assert_eq!(truncate("日本語", 4), "日…");
    assert_eq!(truncate("abcdef", 0), "…");
}

#[test]
fn an_empty_list_says_why() {
    let mut state = listed();
    state.rows.clear();
    state.loading = true;
    assert_eq!(state.list_placeholder().as_deref(), Some(" carregando tasks…"));
    state.loading = false;
    state.list_error = Some("falhou".into());
    assert_eq!(state.list_placeholder().as_deref(), Some(" falhou"));
    state.list_error = None;
    assert_eq!(state.list_placeholder().as_deref(), Some(" nenhuma task aberta"));
    assert_eq!(listed().list_placeholder(), None);
}
