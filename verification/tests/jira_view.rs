use herdr::adf::{wrap, RichLine, RichSpan, SpanStyle};
use herdr::issues::{group_issues, Issue};
use herdr::jira::StatusCategory;
use herdr::jira_ui::{comment_layout, layout_buttons, link_hit, popup_rect, screen_actions, screen_layout, section_link, Action, DetailSection, Hit};
use herdr::right_panel::Rect;
use herdr::setup::{resolve_setup, JiraConfig};
use unicode_width::UnicodeWidthStr;

fn row_texts(rows: &[Vec<herdr::adf::WrappedSpan>]) -> Vec<String> {
    rows.iter()
        .map(|row| row.iter().map(|span| span.text.as_str()).collect())
        .collect()
}

#[test]
fn wrap_breaks_on_spaces_keeps_hanging_indent_and_links() {
    let line = RichLine {
        indent: 0,
        prefix: "• ".into(),
        spans: vec![
            RichSpan {
                text: "abc def ".into(),
                style: SpanStyle::plain(),
                link: None,
            },
            RichSpan {
                text: "ghijkl".into(),
                style: SpanStyle::plain(),
                link: Some("u".into()),
            },
        ],
    };

    let rows = wrap(&[line], 10);
    let text = row_texts(&rows);

    assert_eq!(text, ["• abc def ", "  ghijkl"]);
    assert_eq!(rows[1].last().unwrap().link.as_deref(), Some("u"));
}

#[test]
fn wrap_splits_words_longer_than_the_width() {
    let rows = wrap(
        &[RichLine::plain("abcdefghijklmnop".into(), SpanStyle::plain())],
        8,
    );
    let text = row_texts(&rows);

    assert_eq!(text, ["abcdefgh", "ijklmnop"]);
}

#[test]
fn wrap_keeps_short_lines_whole() {
    let rows = wrap(&[RichLine::plain("abc".into(), SpanStyle::plain())], 8);
    assert_eq!(row_texts(&rows), ["abc"]);
}

#[test]
fn internal_links_map_to_section_and_worktree_hits() {
    assert_eq!(
        link_hit(&section_link(DetailSection::Worktrees)),
        Hit::Section(DetailSection::Worktrees)
    );
    assert_eq!(link_hit("herdr-jira:worktree:3"), Hit::Worktree(3));
    assert_eq!(link_hit("https://x/y"), Hit::Link("https://x/y".into()));
}

const LIST_ACTIONS: [Action; 6] = [
    Action::Move,
    Action::Comment,
    Action::AssignMe,
    Action::Browser,
    Action::Session,
    Action::Refresh,
];

#[test]
fn buttons_wrap_on_narrow_panels() {
    let placed = layout_buttons(&LIST_ACTIONS, 30);

    assert!(placed.iter().any(|(_, row, _)| *row > 0));
    for (action, _, x) in placed {
        assert!(x + action.label().width() as u16 + 2 <= 30);
    }
}

#[test]
fn buttons_fit_on_one_row_when_wide() {
    let placed = layout_buttons(&LIST_ACTIONS, 200);
    assert_eq!(placed.len(), 6);
    assert!(placed.iter().all(|(_, row, _)| *row == 0));
    assert_eq!(placed[0].2, 0);
}

fn config() -> JiraConfig {
    let mut config = JiraConfig::empty();
    config.site = "https://acme.atlassian.net/".into();
    config.email = "me@acme.com".into();
    config.project = "VK25".into();
    config.token_env = "ACME_TOKEN".into();
    config
}

fn env(pairs: &[(&str, &str)]) -> Vec<(String, String)> {
    pairs
        .iter()
        .map(|(k, v)| ((*k).to_string(), (*v).to_string()))
        .collect()
}

#[test]
fn setup_builds_default_jql_and_reads_token_and_owner_from_env() {
    let setup = resolve_setup(
        &config(),
        &env(&[("ACME_TOKEN", "tok-value"), ("HERDR_PANEL_OWNER_PANE_ID", "w1:p2")]),
    )
    .unwrap_or_else(|problems| panic!("{problems:?}"));

    assert_eq!(
        setup.jql,
        "project = VK25 AND assignee = currentUser() AND statusCategory != Done ORDER BY updated DESC"
    );
    assert_eq!(setup.browse_base, "https://acme.atlassian.net/browse/");
    assert_eq!(setup.owner_pane.as_deref(), Some("w1:p2"));
    assert_eq!(setup.api.token, "tok-value");
}

#[test]
fn missing_settings_are_listed_without_values() {
    let problems = resolve_setup(&JiraConfig::empty(), &env(&[])).err().unwrap();

    assert_eq!(problems.len(), 4);
    assert!(problems[3].contains("JIRA_API_TOKEN"));
}

#[test]
fn custom_jql_replaces_the_project_query() {
    let mut config = config();
    config.jql = "assignee = currentUser()".into();
    config.project.clear();

    let setup = resolve_setup(
        &config,
        &env(&[("ACME_TOKEN", "tok"), ("HERDR_PANEL_OWNER_PANE_ID", "tok")]),
    )
    .unwrap_or_else(|problems| panic!("{problems:?}"));

    assert_eq!(setup.jql, "assignee = currentUser()");
    assert_eq!(setup.project, "jql");
}

fn issue(key: &str, status: &str, category: &str) -> Issue {
    Issue {
        key: key.into(),
        summary: format!("resumo {key}"),
        status: status.into(),
        category: StatusCategory::from_key(category),
        priority: None,
        assignee: None,
        issue_type: String::new(),
        updated: String::new(),
        parent: None,
    }
}

#[test]
fn groups_follow_configured_order_then_category() {
    let issues = vec![
        issue("A-1", "Backlog", "new"),
        issue("A-2", "Code Review", "indeterminate"),
        issue("A-3", "Development", "indeterminate"),
        issue("A-4", "Algo novo", "indeterminate"),
        issue("A-5", "Code Review", "indeterminate"),
        issue("A-6", "Outro novo", "new"),
    ];
    let order = ["Development", "Code Review", "Backlog"].map(str::to_owned);

    let groups = group_issues(&issues, &order);

    let names: Vec<_> = groups.iter().map(|group| group.status.as_str()).collect();
    assert_eq!(
        names,
        [
            "Development",
            "Code Review",
            "Backlog",
            "Algo novo",
            "Outro novo"
        ]
    );
    assert_eq!(groups[1].issues.len(), 2);
}

#[test]
fn configured_order_ignores_ascii_case_and_ties_keep_first_appearance() {
    let issues = vec![
        issue("B-1", "zeta", "indeterminate"),
        issue("B-2", "Alpha", "indeterminate"),
        issue("B-3", "ALPHA", "indeterminate"),
        issue("B-4", "done it", "done"),
        issue("B-5", "review", "indeterminate"),
    ];
    let order = ["REVIEW".to_string()];

    let groups = group_issues(&issues, &order);
    let names: Vec<_> = groups.iter().map(|group| group.status.as_str()).collect();

    assert_eq!(names, ["review", "Alpha", "ALPHA", "zeta", "done it"]);
    assert!(groups.iter().all(|group| group.issues.len() == 1));
}

fn rect(x: u16, y: u16, width: u16, height: u16) -> Rect {
    Rect { x, y, width, height }
}

#[test]
fn the_screen_puts_title_body_notice_and_buttons_in_order() {
    let actions = screen_actions(false);
    assert_eq!(actions.len(), 6);
    assert_eq!(screen_actions(true)[0], Action::Back);
    let layout = screen_layout(&actions, rect(0, 0, 80, 24)).unwrap();
    assert_eq!(layout.title, rect(0, 0, 80, 1));
    assert_eq!(layout.body, rect(0, 1, 80, 21));
    assert_eq!(layout.notice, rect(0, 22, 80, 1));
    assert_eq!(layout.buttons.len(), 6);
    assert_eq!(layout.buttons[0], (rect(0, 23, 9, 1), Action::Move));
    assert_eq!(layout.buttons[5], (rect(65, 23, 13, 1), Action::Refresh));
    assert!(screen_layout(&actions, rect(0, 0, 9, 24)).is_none());
    assert!(screen_layout(&actions, rect(0, 0, 80, 3)).is_none());
}

#[test]
fn popups_are_centred_and_kept_to_their_minimum() {
    assert_eq!(popup_rect(rect(0, 0, 80, 24), 72, 12), rect(4, 6, 72, 12));
    assert_eq!(popup_rect(rect(0, 0, 10, 4), 6, 12), rect(0, 0, 10, 3));
}

#[test]
fn the_comment_popup_places_rows_cursor_and_buttons() {
    let layout = comment_layout(rect(0, 0, 80, 24), "olá", 4, false);
    assert_eq!(layout.popup, rect(4, 6, 72, 12));
    assert_eq!(layout.inner, rect(5, 7, 70, 9));
    assert_eq!(layout.first, 0);
    assert_eq!(layout.rows, ["olá"]);
    assert_eq!(layout.cursor, Some((8, 7)));
    assert_eq!(layout.bottom, 16);
    assert_eq!(layout.buttons, [(rect(5, 16, 15, 1), Action::Send), (rect(21, 16, 14, 1), Action::Cancel)]);
    let sending = comment_layout(rect(0, 0, 80, 24), "olá", 4, true);
    assert_eq!(sending.cursor, None);
    assert!(sending.buttons.is_empty());
}

#[test]
fn the_comment_popup_scrolls_to_the_cursor_row() {
    let text = "1\n2\n3\n4\n5\n6\n7\n8\n9\n10\n11\n12";
    let layout = comment_layout(rect(0, 0, 80, 24), text, text.len(), false);
    assert_eq!(layout.first, 3);
    assert_eq!(layout.rows, ["4", "5", "6", "7", "8", "9", "10", "11", "12"]);
    assert_eq!(layout.cursor, Some((7, 15)));
}
