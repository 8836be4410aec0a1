use herdr::gc::CommandOutput;
use herdr::issues::Issue;
use herdr::jira::{ClaudeSessionInfo, LinkedSession};
use herdr::jira_state::{Comment, IssueDetail, Job, Outcome, PaneContext, Transition, WorktreeInfo};
use herdr::worker::{
    assign_outcome, detail_outcome, list_outcome, pane_reply, pick_worktree, reply_result, HerdrBridge, JiraService, Machine,
    Worker,
};
use herdr::json::Json;
use std::cell::RefCell;

#[derive(Default)]
struct FakeBridge {
    sessions: Vec<ClaudeSessionInfo>,
    calls: RefCell<Vec<String>>,
}

impl HerdrBridge for FakeBridge {
    fn sessions(&self) -> Result<Vec<ClaudeSessionInfo>, String> {
        Ok(self.sessions.clone())
    }

    fn pane(&self, pane_id: &str) -> Result<(PaneContext, Option<String>), String> {
        Ok((
            PaneContext {
                workspace_id: Some("w1".into()),
                cwd: Some(format!("/cwd/{pane_id}")),
            },
            Some("working".into()),
        ))
    }

    fn focus_pane(&self, pane_id: &str) -> Result<(), String> {
        self.calls.borrow_mut().push(format!("focus {pane_id}"));
        Ok(())
    }

    fn open_session(&self, session_id: &str, workspace_id: Option<String>) -> Result<(), String> {
        self.calls
            .borrow_mut()
            .push(format!("open {session_id} {}", workspace_id.unwrap_or_default()));
        Ok(())
    }

    fn create_tab(&self, workspace_id: Option<String>, cwd: &str, label: &str) -> Result<(), String> {
        self.calls.borrow_mut().push(format!(
            "tab {} {} {label}",
            workspace_id.unwrap_or_default(),
            cwd
        ));
        Ok(())
    }
}

#[derive(Default)]
struct FakeJira {
    calls: RefCell<Vec<String>>,
}

impl JiraService for FakeJira {
    fn search(&self, jql: &str) -> Result<Vec<Issue>, String> {
        self.calls.borrow_mut().push(format!("search {jql}"));
        Ok(Vec::new())
    }

    fn issue_detail(&self, key: &str) -> Result<IssueDetail, String> {
        Err(format!("sem {key}"))
    }

    fn transitions(&self, _key: &str) -> Result<Vec<Transition>, String> {
        Ok(Vec::new())
    }

    fn apply_transition(&self, _key: &str, _transition_id: &str) -> Result<(), String> {
        Err("HTTP 400".into())
    }

    fn add_comment(&self, _key: &str, _text: &str) -> Result<Comment, String> {
        Err("HTTP 500".into())
    }

    fn myself(&self) -> Result<(String, String), String> {
        self.calls.borrow_mut().push("myself".into());
        Ok(("acc-9".into(), "Marcelo".into()))
    }

    fn assign(&self, key: &str, account_id: &str) -> Result<(), String> {
        self.calls.borrow_mut().push(format!("assign {key} {account_id}"));
        Ok(())
    }
}

struct FakeMachine;

impl Machine for FakeMachine {
    fn find_worktrees(&self, _roots: &Vec<String>, _key: &str) -> Vec<WorktreeInfo> {
        Vec::new()
    }

    fn child_dirs(&self, _dir: &str) -> Vec<String> {
        Vec::new()
    }

    fn home(&self) -> Option<String> {
        None
    }

    fn open_url(&self, _browser_command: &str, _url: &str) -> Result<(), String> {
        Ok(())
    }

    fn run_shell(&self, _command: &str) -> Result<CommandOutput, String> {
        Err("vk-wt: comando não encontrado".into())
    }
}

fn worker() -> Worker {
    Worker {
        jql: "project = X".into(),
        owner_pane: Some("w1:p1".into()),
        worktree_roots: Vec::new(),
        browser_command: "true {url}".into(),
        worktree_gc_command: "true".into(),
        myself: None,
    }
}

#[test]
fn session_job_focuses_live_pane_or_resumes_closed_session() {
    let bridge = FakeBridge::default();
    let worker = worker();
    let live = LinkedSession {
        session_id: "s1".into(),
        pane_id: Some("w1:p4".into()),
        agent_status: None,
        updated_at_ms: 0,
    };
    let closed = LinkedSession {
        pane_id: None,
        ..live.clone()
    };

    worker.open_session(&bridge, "VK25-1", Some(live), None);
    worker.open_session(&bridge, "VK25-1", Some(closed), None);
    let none = worker.open_session(&bridge, "VK25-1", None, None);

    assert_eq!(*bridge.calls.borrow(), ["focus w1:p4", "open s1 w1"]);
    assert!(matches!(none, Outcome::Notice(text) if text == "sem sessão/worktree para VK25-1"));
}

#[test]
fn assign_me_fetches_myself_once_then_assigns() {
    let mut worker = worker();
    let jira = FakeJira::default();

    let first = worker.handle(&jira, &FakeBridge::default(), &FakeMachine, Job::AssignMe("VK25-1".into()));
    let second = worker.handle(&jira, &FakeBridge::default(), &FakeMachine, Job::AssignMe("VK25-2".into()));

    assert!(matches!(first, Outcome::Assigned { key, name } if key == "VK25-1" && name == "Marcelo"));
    assert!(matches!(second, Outcome::Assigned { key, name } if key == "VK25-2" && name == "Marcelo"));
    assert_eq!(
        *jira.calls.borrow(),
        ["myself", "assign VK25-1 acc-9", "assign VK25-2 acc-9"]
    );
}

#[test]
fn refresh_collects_sessions_owner_and_live_pane_status() {
    let bridge = FakeBridge {
        sessions: vec![ClaudeSessionInfo {
            session_id: "s".into(),
            title: String::new(),
            cwd: String::new(),
            context: "VK25-1".into(),
            worktree_path: None,
            updated_at_ms: 0,
            pane_id: Some("w1:p7".into()),
        }],
        ..FakeBridge::default()
    };
    let mut worker = worker();

    let Outcome::List {
        owner,
        pane_status,
        sessions,
        ..
    } = worker.handle(&FakeJira::default(), &bridge, &FakeMachine, Job::Refresh)
    else {
        panic!("expected list");
    };

    assert_eq!(owner.workspace_id.as_deref(), Some("w1"));
    assert_eq!(pane_status, [("w1:p7".to_string(), "working".to_string())]);
    assert_eq!(sessions.len(), 1);
}

#[test]
fn open_worktree_focuses_a_live_session_or_opens_a_tab() {
    let mut live = ClaudeSessionInfo {
        session_id: "s1".into(),
        title: String::new(),
        cwd: "/r/vakinha-api-worktrees/VK25-1".into(),
        context: String::new(),
        worktree_path: None,
        updated_at_ms: 1,
        pane_id: Some("w1:p7".into()),
    };
    let bridge = FakeBridge {
        sessions: vec![live.clone()],
        ..FakeBridge::default()
    };
    let mut worker = worker();
    worker.handle(
        &FakeJira::default(),
        &bridge,
        &FakeMachine,
        Job::OpenWorktree {
            path: "/r/vakinha-api-worktrees/VK25-1".into(),
            name: "VK25-1".into(),
        },
    );
    assert_eq!(bridge.calls.borrow().as_slice(), ["focus w1:p7"]);

    live.pane_id = None;
    let bridge = FakeBridge {
        sessions: vec![live],
        ..FakeBridge::default()
    };
    worker.handle(
        &FakeJira::default(),
        &bridge,
        &FakeMachine,
        Job::OpenWorktree {
            path: "/r/vakinha-api-worktrees/VK25-1".into(),
            name: "VK25-1".into(),
        },
    );
    assert_eq!(
        bridge.calls.borrow().as_slice(),
        ["tab w1 /r/vakinha-api-worktrees/VK25-1 VK25-1"]
    );
}

#[test]
fn failures_carry_their_cause() {
    let mut worker = worker();
    let jira = FakeJira::default();
    let bridge = FakeBridge::default();
    let moved = worker.handle(
        &jira,
        &bridge,
        &FakeMachine,
        Job::Transition {
            key: "VK25-1".into(),
            transition_id: "2".into(),
            to: "QA".into(),
        },
    );
    assert!(matches!(moved, Outcome::Failed(m) if m == "não foi possível mover VK25-1: HTTP 400"));
    let commented = worker.handle(
        &jira,
        &bridge,
        &FakeMachine,
        Job::Comment {
            key: "VK25-1".into(),
            text: "oi".into(),
        },
    );
    assert!(matches!(commented, Outcome::CommentFailed(m) if m == "comentário não enviado: HTTP 500"));
    let detail = worker.handle(&jira, &bridge, &FakeMachine, Job::Detail("VK25-9".into()));
    assert!(matches!(detail, Outcome::DetailFailed { key, error } if key == "VK25-9" && error == "sem VK25-9"));
    let gc = worker.handle(&jira, &bridge, &FakeMachine, Job::WorktreeGc { apply: true });
    assert!(matches!(gc, Outcome::WorktreeGc { apply: true, result: Err(_) }));
    let url = worker.handle(&jira, &bridge, &FakeMachine, Job::OpenUrl("https://x".into()));
    assert!(matches!(url, Outcome::Notice(m) if m == "abrindo https://x"));
    let none = worker.handle(
        &jira,
        &bridge,
        &FakeMachine,
        Job::Session {
            key: "VK25-7".into(),
            link: None,
        },
    );
    assert!(matches!(none, Outcome::Notice(m) if m == "sem sessão/worktree para VK25-7"));
    let _ = Comment {
        author: String::new(),
        created: String::new(),
        body: herdr::json::Json::Null,
    };
}

/// A machine whose directories are listed in a table.
struct DirMachine {
    dirs: Vec<(&'static str, Vec<&'static str>)>,
}

impl Machine for DirMachine {
    fn find_worktrees(&self, _roots: &Vec<String>, _key: &str) -> Vec<WorktreeInfo> {
        Vec::new()
    }

    fn child_dirs(&self, dir: &str) -> Vec<String> {
        self.dirs
            .iter()
            .find(|(d, _)| *d == dir)
            .map(|(_, names)| names.iter().map(|n| n.to_string()).collect())
            .unwrap_or_default()
    }

    fn home(&self) -> Option<String> {
        Some("/home/me".into())
    }

    fn open_url(&self, _browser_command: &str, _url: &str) -> Result<(), String> {
        Ok(())
    }

    fn run_shell(&self, _command: &str) -> Result<CommandOutput, String> {
        Err("no".into())
    }
}

#[test]
fn worktrees_are_found_under_repo_worktree_dirs() {
    let machine = DirMachine {
        dirs: vec![
            ("/r", vec!["vakinha-web-worktrees", "plain"]),
            ("/r/vakinha-web-worktrees", vec!["VK25-29040", "VK25-2904"]),
            ("/r/plain", vec!["VK25-2727"]),
        ],
    };
    let mut w = worker();
    w.worktree_roots = vec!["/r".into()];
    assert_eq!(w.find_worktree(&machine, "VK25-2904"), Some("/r/vakinha-web-worktrees/VK25-2904".to_string()));
    assert_eq!(w.find_worktree(&machine, "VK25-2727"), None);
}

#[test]
fn worktree_roots_expand_home_and_the_first_path_wins() {
    let machine = DirMachine {
        dirs: vec![
            ("/home/me/p", vec!["b-worktrees", "a-worktrees"]),
            ("/home/me/p/b-worktrees", vec!["vk25-7"]),
            ("/home/me/p/a-worktrees", vec!["VK25-7-fix"]),
        ],
    };
    let mut w = worker();
    w.worktree_roots = vec!["~/p".into()];
    assert_eq!(w.find_worktree(&machine, "VK25-7"), Some("/home/me/p/a-worktrees/VK25-7-fix".to_string()));
    assert_eq!(pick_worktree(&vec!["/x/b".to_string(), "/x/a".to_string()]), Some("/x/a".to_string()));
    assert_eq!(pick_worktree(&Vec::new()), None);
}

#[test]
fn list_outcomes_carry_what_the_calls_answered() {
    assert!(matches!(list_outcome(Err("down".into()), Ok(Vec::new()), None, Vec::new()), Outcome::ListFailed(e) if e == "down"));
    let owner = PaneContext { workspace_id: Some("w1".into()), cwd: None };
    match list_outcome(Ok(Vec::new()), Err("no herdr".into()), Some(Ok((owner, None))), vec![("p".into(), "idle".into())]) {
        Outcome::List { issues, sessions, owner, pane_status } => {
            assert!(issues.is_empty() && sessions.is_empty());
            assert_eq!(owner.workspace_id.as_deref(), Some("w1"));
            assert_eq!(pane_status, vec![("p".to_string(), "idle".to_string())]);
        }
        _ => panic!("expected a list"),
    }
    match list_outcome(Ok(Vec::new()), Ok(Vec::new()), Some(Err("gone".into())), Vec::new()) {
        Outcome::List { owner, .. } => assert!(owner.workspace_id.is_none() && owner.cwd.is_none()),
        _ => panic!("expected a list"),
    }
}

#[test]
fn detail_and_assign_outcomes() {
    assert!(matches!(
        detail_outcome("VK-1".into(), Err("404".into()), Vec::new()),
        Outcome::DetailFailed { key, error } if key == "VK-1" && error == "404"
    ));
    assert!(matches!(assign_outcome("VK-1".into(), "Me".into(), Ok(())), Outcome::Assigned { key, name } if key == "VK-1" && name == "Me"));
    assert!(matches!(
        assign_outcome("VK-1".into(), "Me".into(), Err("boom".into())),
        Outcome::Failed(m) if m == "não foi possível atribuir VK-1: boom"
    ));
}

fn obj(entries: Vec<(&str, Json)>) -> Json {
    Json::Object(entries.into_iter().map(|(k, v)| (k.to_string(), v)).collect())
}

fn text(s: &str) -> Json {
    Json::Text(s.into())
}

#[test]
fn herdr_replies_give_their_result_or_their_error() {
    let ok = obj(vec![("id", text("x")), ("result", obj(vec![("n", text("1"))]))]);
    match reply_result(ok) {
        Ok(Json::Object(entries)) => {
            assert_eq!(entries.len(), 1);
            assert_eq!(entries[0].0, "n");
            assert!(matches!(&entries[0].1, Json::Text(t) if t == "1"));
        },
        _ => panic!("expected the result object"),
    }
    assert!(matches!(reply_result(obj(vec![("id", text("x"))])), Ok(Json::Null)));
    let failed = obj(vec![("error", obj(vec![("message", text("sem pane"))])), ("result", text("r"))]);
    assert!(matches!(reply_result(failed), Err(e) if e == "sem pane"));
    assert!(matches!(reply_result(obj(vec![("error", Json::Null)])), Err(e) if e == "erro do herdr"));
}

#[test]
fn pane_replies_prefer_the_foreground_directory() {
    let result = obj(vec![(
        "pane",
        obj(vec![
            ("workspace_id", text("w1")),
            ("cwd", text("/a")),
            ("foreground_cwd", text("/a/b")),
            ("agent_status", text("working")),
        ]),
    )]);
    let (context, status) = pane_reply(&result);
    assert_eq!(context, PaneContext { workspace_id: Some("w1".into()), cwd: Some("/a/b".into()) });
    assert_eq!(status.as_deref(), Some("working"));
    let plain = obj(vec![("pane", obj(vec![("cwd", text("/a"))]))]);
    let (context, status) = pane_reply(&plain);
    assert_eq!(context, PaneContext { workspace_id: None, cwd: Some("/a".into()) });
    assert_eq!(status, None);
    let (context, _) = pane_reply(&Json::Null);
    assert_eq!(context, PaneContext { workspace_id: None, cwd: None });
}
