use herdr::jira::{
    key_for_path, key_matches, link_sessions, linked, percent_encode, preselect_key,
    priority_icon, quote, split_status, strip_prefix_ignore_case, ClaudeSessionInfo, DetailFields,
    JiraApi, PullRequest, StatusCategory,
};

fn session(id: &str, context: &str, pane: Option<&str>, updated: u64) -> ClaudeSessionInfo {
    ClaudeSessionInfo {
        session_id: id.into(),
        title: String::new(),
        cwd: "/home/me/projects".into(),
        context: context.into(),
        worktree_path: None,
        updated_at_ms: updated,
        pane_id: pane.map(str::to_owned),
    }
}

fn keys() -> Vec<String> {
    vec!["VK25-2727".into(), "VK25-2904".into()]
}

#[test]
fn sessions_link_by_context_or_worktree_and_prefer_live_recent() {
    let mut by_worktree = session("w", "projects", None, 1);
    by_worktree.worktree_path = Some("/r/vakinha-web-worktrees/VK25-2904".into());
    let sessions = vec![
        session("old", "VK25-2727-api", None, 5),
        session("live", "VK25-2727", Some("w1:p2"), 1),
        session("newer", "VK25-2727", None, 9),
        by_worktree,
        session("other", "VK25-27270", None, 1),
    ];

    let links = link_sessions(&sessions, &keys());

    assert_eq!(linked(&links, "VK25-2727").unwrap().session_id, "live");
    assert_eq!(linked(&links, "VK25-2904").unwrap().session_id, "w");
    assert_eq!(links.len(), 2);
}

#[test]
fn preselect_prefers_owner_session_then_owner_cwd() {
    let sessions = vec![session("s", "VK25-2904", Some("w1:p3"), 1)];

    assert_eq!(preselect_key(Some("w1:p3"), None, &sessions, &keys()).as_deref(), Some("VK25-2904"));
    assert_eq!(
        preselect_key(Some("w1:p9"), Some("/r/vakinha-api-worktrees/VK25-2727-api/src"), &sessions, &keys())
            .as_deref(),
        Some("VK25-2727")
    );
    assert_eq!(preselect_key(None, Some("/r/projects"), &sessions, &keys()), None);
}

#[test]
fn key_matching_rejects_longer_numbers() {
    assert!(key_matches("VK25-2727", "VK25-2727"));
    assert!(key_matches("VK25-2727-api", "VK25-2727"));
    assert!(key_matches("vk25-2727_web", "VK25-2727"));
    assert!(!key_matches("VK25-27270", "VK25-2727"));
    assert!(!key_matches("projects", "VK25-2727"));
}

#[test]
fn prefix_stripping_ignores_ascii_case() {
    assert_eq!(strip_prefix_ignore_case("AbC-rest", "abc").as_deref(), Some("-rest"));
    assert_eq!(strip_prefix_ignore_case("ab", "abc"), None);
    assert_eq!(strip_prefix_ignore_case("xbc", "abc"), None);
}

#[test]
fn priority_icons_cover_common_names() {
    assert_eq!(priority_icon(Some("High")), "↑");
    assert_eq!(priority_icon(Some("Lowest")), "⇊");
    assert_eq!(priority_icon(None), " ");
    assert_eq!(priority_icon(Some("Blocker")), "⇈");
    assert_eq!(priority_icon(Some("whatever")), " ");
}

#[test]
fn percent_encoding_keeps_unreserved_characters() {
    assert_eq!(percent_encode("VK25-1_a.b~"), "VK25-1_a.b~");
    assert_eq!(percent_encode("a b=\"c\""), "a%20b%3D%22c%22");
    assert_eq!(percent_encode("ç"), "%C3%A7");
}

#[test]
fn quoting_escapes_for_curl() {
    assert_eq!(quote("a@b.c:to\"k\\en"), r#""a@b.c:to\"k\\en""#);
    assert_eq!(quote("l1\nl2\t\r"), r#""l1\nl2\t\r""#);
}

#[test]
fn status_is_read_from_the_last_line() {
    assert_eq!(split_status("{\"a\":1}\n200"), Some(("{\"a\":1}".to_owned(), 200)));
    assert_eq!(split_status("body\n\n 404 \n"), None);
    assert_eq!(split_status("x\n000"), None);
    assert_eq!(split_status("no newline"), None);
    assert_eq!(split_status("a\nb\n204"), Some(("a\nb".to_owned(), 204)));
}

#[test]
fn key_for_path_reads_the_worktree_name() {
    assert_eq!(key_for_path("/r/vakinha-api-worktrees/VK25-2727-api/src", &keys()).as_deref(), Some("VK25-2727"));
    assert_eq!(key_for_path("/r/projects", &keys()), None);
}

#[test]
fn status_categories_and_ranks() {
    assert_eq!(StatusCategory::from_key("new"), StatusCategory::New);
    assert_eq!(StatusCategory::from_key("done"), StatusCategory::Done);
    assert_eq!(StatusCategory::from_key("indeterminate"), StatusCategory::InProgress);
    assert_eq!(StatusCategory::InProgress.rank(), 0);
    assert_eq!(StatusCategory::Done.rank(), 2);
}

#[test]
fn pull_request_labels() {
    let pr = PullRequest {
        status: "OPEN".into(),
        title: "x".into(),
        url: "https://github.com/vakinha/vakinha-web/pull/5783".into(),
        repository: "vakinha/vakinha-web".into(),
        branch: None,
    };
    assert_eq!(pr.label(), "vakinha/vakinha-web#5783");
    let bare = PullRequest { repository: String::new(), ..pr.clone() };
    assert_eq!(bare.label(), bare.url);
}

#[test]
fn api_site_loses_trailing_slashes() {
    let fields = DetailFields { sprint: "s".into(), story_points: "p".into(), development: "d".into() };
    let api = JiraApi::new("https://x.atlassian.net//", "me@x", "SECRET-REDACTED".into(), fields);
    assert_eq!(api.site, "https://x.atlassian.net");
    assert_eq!(api.email, "me@x");
}
