use herdr::adf::RichLine;
use herdr::adf_render::text_to_adf;
use herdr::issues::Issue;
use herdr::jira::{PullRequest, StatusCategory};
use herdr::jira_detail::detail_lines;
use herdr::jira_state::{Comment, IssueDetail, WorktreeInfo};
use herdr::jira_ui::DetailSection;

fn issue(key: &str, status: &str) -> Issue {
    Issue {
        key: key.into(),
        summary: format!("resumo {key}"),
        status: status.into(),
        category: StatusCategory::InProgress,
        priority: Some("High".into()),
        assignee: None,
        issue_type: "Task".into(),
        updated: String::new(),
        parent: None,
    }
}

fn bare_detail() -> IssueDetail {
    IssueDetail {
        issue: issue("VK25-3", "Code Review"),
        description: None,
        comments: Vec::new(),
        sprint: None,
        story_points: None,
        development: None,
        pull_requests: Vec::new(),
        worktrees: Vec::new(),
    }
}

fn texts(lines: &[RichLine]) -> Vec<String> {
    lines.iter().map(RichLine::text).collect()
}

#[test]
fn empty_sections_render_their_count_and_nenhum() {
    let mut lines_state: Vec<DetailSection> = Vec::new();
    let detail = bare_detail();
    let text = |collapsed: &[DetailSection]| texts(&detail_lines("VK25-3", Some(&detail), None, "", collapsed, 0));
    let open = text(&lines_state);
    assert!(open.contains(&"▾ pull requests (0)  p".to_owned()));
    assert!(open.contains(&"▾ worktrees (0)  t".to_owned()));
    assert_eq!(open.iter().filter(|line| line.trim() == "nenhum").count(), 2);
    lines_state.push(DetailSection::Worktrees);
    let closed = text(&lines_state);
    assert!(closed.contains(&"▸ worktrees (0)  t".to_owned()));
    assert_eq!(closed.iter().filter(|line| line.trim() == "nenhum").count(), 1);
}

#[test]
fn a_missing_detail_shows_the_key_and_the_error_or_loading() {
    let loading = texts(&detail_lines("VK25-3", None, None, "", &[], 0));
    assert_eq!(loading, ["VK25-3", "carregando…"]);
    let failed = texts(&detail_lines("VK25-3", None, Some("falhou"), "", &[], 0));
    assert_eq!(failed, ["VK25-3", "falhou"]);
}

#[test]
fn a_bare_detail_lists_its_fields_link_description_and_comments() {
    let detail = bare_detail();
    let lines = texts(&detail_lines("VK25-3", Some(&detail), None, "https://x/browse/", &[], 0));
    assert_eq!(
        lines,
        [
            "VK25-3 · Task · Code Review",
            "resumo VK25-3",
            "",
            "prioridade: High",
            "responsável: ninguém",
            "▾ pull requests (0)  p",
            "  nenhum",
            "▾ worktrees (0)  t",
            "  nenhum",
            "link: https://x/browse/VK25-3",
            "",
            "Descrição",
            "(sem descrição)",
            "",
            "Comentários (0)",
            "(nenhum)",
        ]
    );
    let link = detail_lines("VK25-3", Some(&detail), None, "https://x/browse/", &[], 0)[9].spans[1].clone();
    assert_eq!(link.link.as_deref(), Some("https://x/browse/VK25-3"));
}

#[test]
fn pull_requests_and_worktrees_are_padded_and_linked() {
    let mut detail = bare_detail();
    detail.story_points = Some("2".into());
    detail.issue.parent = Some(("VK25-1".into(), "épico".into()));
    detail.pull_requests = vec![
        PullRequest {
            status: "OPEN".into(),
            title: "VK25-3 ajusta".into(),
            url: "https://bb/vakinha/web/pull-requests/57".into(),
            repository: "vakinha/web".into(),
            branch: Some("feature/VK25-3".into()),
        },
        PullRequest {
            status: "DECLINED".into(),
            title: "  outra coisa ".into(),
            url: "https://bb/vakinha/api/pull-requests/8".into(),
            repository: "vakinha/api".into(),
            branch: None,
        },
    ];
    detail.worktrees = vec![
        WorktreeInfo {
            repo: "web".into(),
            name: "VK25-3".into(),
            path: "/r/web-worktrees/VK25-3".into(),
            branch: Some("feature/VK25-3".into()),
        },
        WorktreeInfo { repo: "api-x".into(), name: "VK25-3-api".into(), path: "/r/api".into(), branch: None },
    ];
    let lines = detail_lines("VK25-3", Some(&detail), None, "", &[], 0);
    let text = texts(&lines);
    assert!(text.contains(&"pontos: 2".to_owned()));
    assert!(text.contains(&"pai: VK25-1 épico".to_owned()));
    assert!(text.contains(&"  open      vakinha/web#57".to_owned()));
    assert!(text.contains(&"  declined  vakinha/api#8".to_owned()));
    assert!(text.contains(&format!("{}outra coisa", " ".repeat(12))));
    assert!(!text.iter().any(|line| line.contains("ajusta")));
    assert!(text.contains(&"  web    VK25-3 → #57".to_owned()));
    assert!(text.contains(&"  api-x  VK25-3-api".to_owned()));
    let title = lines.iter().find(|line| line.text().trim() == "outra coisa").unwrap();
    assert_eq!(title.indent, 12);
    let branch = lines.iter().find(|line| line.text().trim() == "feature/VK25-3").unwrap();
    assert_eq!(branch.indent, 9);
    let declined = lines.iter().find(|line| line.text() == "  declined  vakinha/api#8").unwrap();
    assert!(declined.spans[1].style.strike);
    let worktree = lines.iter().find(|line| line.text() == "  api-x  VK25-3-api").unwrap();
    assert_eq!(worktree.spans[1].link.as_deref(), Some("herdr-jira:worktree:1"));
    let folded = texts(&detail_lines(
        "VK25-3",
        Some(&detail),
        None,
        "",
        &[DetailSection::PullRequests, DetailSection::Worktrees],
        0,
    ));
    assert!(folded.contains(&"▸ pull requests (2)  p".to_owned()));
    assert!(!folded.iter().any(|line| line.contains("vakinha/web#57")));
    assert!(!folded.iter().any(|line| line.contains("VK25-3-api")));
}

#[test]
fn comments_show_author_age_and_indented_body() {
    let mut detail = bare_detail();
    detail.description = Some(text_to_adf("descrição aqui"));
    detail.comments = vec![
        Comment {
            author: "Ana".into(),
            created: "2026-09-23T10:00:00.000-0300".into(),
            body: text_to_adf("olá"),
        },
        Comment { author: String::new(), created: "garbage".into(), body: text_to_adf("x") },
    ];
    let lines = detail_lines("VK25-3", Some(&detail), None, "", &[], 1_790_168_400 + 7_200);
    let text = texts(&lines);
    assert!(text.contains(&"descrição aqui".to_owned()));
    assert!(!text.contains(&"(sem descrição)".to_owned()));
    assert!(text.contains(&"Comentários (2)".to_owned()));
    assert!(!text.contains(&"(nenhum)".to_owned()));
    assert!(text.contains(&"Ana · há 2h".to_owned()));
    assert!(text.contains(&"? · garbage".to_owned()));
    let body = lines.iter().find(|line| line.text() == "  olá").unwrap();
    assert_eq!(body.indent, 2);
}
