use herdr::scanner::{
    complete_lines, order_by_recency, session_from_state, transcript_line, ClaudeSessionScanner, PromptContent, RepoResolver,
    ToolInput, TranscriptFile, TranscriptLine, TranscriptSource, TranscriptState,
    MAX_CLAUDE_SESSIONS, MAX_SESSION_REPOS,
};
use herdr::sessions::{
    command_paths, normalize, session_context, task_code, truncate_title, worktree_name,
    MAX_TITLE_CHARS,
};
use serde_json::Value;
use std::collections::HashMap;

fn line(kind: &str, id: &str, cwd: Option<&str>) -> TranscriptLine {
    TranscriptLine {
        kind: Some(kind.to_owned()),
        session_id: Some(id.to_owned()),
        cwd: cwd.map(str::to_owned),
        custom_title: None,
        agent_name: None,
        is_meta: false,
        is_sidechain: false,
        content: None,
        tool_inputs: Vec::new(),
    }
}

fn user(id: &str, cwd: &str, text: &str) -> TranscriptLine {
    let mut l = line("user", id, Some(cwd));
    l.content = Some(PromptContent::Text(text.to_owned()));
    l
}

fn tool(id: &str, cwd: &str, input: ToolInput) -> TranscriptLine {
    let mut l = line("assistant", id, Some(cwd));
    l.tool_inputs = vec![input];
    l
}

fn no_input() -> ToolInput {
    ToolInput { command: None, file_path: None, path: None, notebook_path: None }
}

#[derive(Default)]
struct FakeDisk {
    files: Vec<TranscriptFile>,
    lines: HashMap<String, Vec<TranscriptLine>>,
    dirs: Vec<String>,
    repos: Vec<String>,
}

/// A transcript line written as the JSON the agent writes.
fn to_json(l: &TranscriptLine) -> String {
    let mut m = serde_json::Map::new();
    let mut put = |key: &str, v: &Option<String>| {
        if let Some(v) = v {
            m.insert(key.to_owned(), Value::String(v.clone()));
        }
    };
    put("type", &l.kind);
    put("sessionId", &l.session_id);
    put("cwd", &l.cwd);
    put("customTitle", &l.custom_title);
    put("agentName", &l.agent_name);
    if l.is_meta {
        m.insert("isMeta".into(), Value::Bool(true));
    }
    if l.is_sidechain {
        m.insert("isSidechain".into(), Value::Bool(true));
    }
    let mut blocks = Vec::new();
    let mut content = None;
    match &l.content {
        Some(PromptContent::Text(t)) => content = Some(Value::String(t.clone())),
        Some(PromptContent::Blocks(texts)) => {
            for t in texts {
                let mut b = serde_json::Map::new();
                b.insert("type".into(), Value::String("text".into()));
                b.insert("text".into(), Value::String(t.clone()));
                blocks.push(Value::Object(b));
            }
        }
        None => {}
    }
    for input in &l.tool_inputs {
        let mut i = serde_json::Map::new();
        for (key, v) in [
            ("command", &input.command),
            ("file_path", &input.file_path),
            ("path", &input.path),
            ("notebook_path", &input.notebook_path),
        ] {
            if let Some(v) = v {
                i.insert(key.into(), Value::String(v.clone()));
            }
        }
        let mut b = serde_json::Map::new();
        b.insert("type".into(), Value::String("tool_use".into()));
        b.insert("input".into(), Value::Object(i));
        blocks.push(Value::Object(b));
    }
    if content.is_none() && (!blocks.is_empty() || matches!(l.content, Some(PromptContent::Blocks(_)))) {
        content = Some(Value::Array(blocks));
    }
    if let Some(c) = content {
        let mut message = serde_json::Map::new();
        message.insert("content".into(), c);
        m.insert("message".into(), Value::Object(message));
    }
    Value::Object(m).to_string()
}

impl FakeDisk {
    fn transcript(&mut self, id: &str, modified_ms: u64, lines: Vec<TranscriptLine>) {
        let path = format!("/c/projects/p/{id}.jsonl");
        self.lines.insert(path.clone(), lines);
        let len = self.bytes(&path).len() as u64;
        self.files.push(TranscriptFile { path, modified_ms, len });
    }

    fn bytes(&self, path: &str) -> Vec<u8> {
        let mut out = String::new();
        for l in &self.lines[path] {
            out.push_str(&to_json(l));
            out.push('\n');
        }
        out.into_bytes()
    }
}

impl TranscriptSource for FakeDisk {
    fn transcript_files(&self, projects_dir: &str) -> Vec<TranscriptFile> {
        assert_eq!(projects_dir, "/c/projects");
        self.files.clone()
    }

    fn read_from(&self, path: &str, offset: u64) -> Result<Vec<u8>, String> {
        if !self.lines.contains_key(path) {
            return Err("missing".to_owned());
        }
        Ok(self.bytes(path)[offset as usize..].to_vec())
    }

    fn is_dir(&self, path: &str) -> bool {
        self.dirs.iter().any(|d| d == path)
    }

    fn is_repo_root(&self, dir: &str) -> bool {
        self.repos.iter().any(|d| d == dir)
    }
}

#[test]
fn task_code_requires_uppercase_prefix_and_numeric_suffix() {
    assert_eq!(task_code("fix VK25-12 now").as_deref(), Some("VK25-12"));
    assert_eq!(task_code("ABC-7: thing").as_deref(), Some("ABC-7"));
    assert_eq!(task_code("utf-8 and a-1 and V-2"), None);
    assert_eq!(task_code("VK25-abc"), None);
}

#[test]
fn long_titles_are_truncated() {
    let long = "x".repeat(MAX_TITLE_CHARS + 10);
    let title = truncate_title(&long);
    assert_eq!(title.chars().count(), MAX_TITLE_CHARS);
    assert!(title.ends_with('…'));
}

#[test]
fn titles_collapse_whitespace() {
    assert_eq!(truncate_title("  real   prompt \n here "), "real prompt here");
    assert_eq!(truncate_title(""), "");
}

#[test]
fn worktree_names_follow_the_marker() {
    assert_eq!(worktree_name("/r/vakinha-api-worktrees/VK25-2727-api").as_deref(), Some("VK25-2727-api"));
    assert_eq!(worktree_name("cd /r/web-worktrees/VK25-1 && ls").as_deref(), Some("VK25-1"));
    assert_eq!(worktree_name("/r/web-worktrees/VK25-7./x").as_deref(), Some("VK25-7"));
    assert_eq!(worktree_name("/r/web-worktrees/"), None);
    assert_eq!(worktree_name("/r/projects"), None);
}

#[test]
fn context_prefers_worktree_then_tool_then_task_then_dir_name() {
    assert_eq!(session_context("/r/vakinha-api-worktrees/VK25-2727-api", Some("X"), "VK25-1 t"), "VK25-2727-api");
    assert_eq!(session_context("/r", Some("VK25-2904"), "VK25-123 in text"), "VK25-2904");
    assert_eq!(session_context("/r/extras", None, "VK25-2806 bug analysis"), "VK25-2806");
    assert_eq!(session_context("/home/me/projects", None, ""), "projects");
    assert_eq!(session_context("/", None, ""), "/");
}

#[test]
fn normalize_resolves_dots_and_rejects_relative_paths() {
    assert_eq!(normalize("/a/b/../c/./d").as_deref(), Some("/a/c/d"));
    assert_eq!(normalize("/../x").as_deref(), Some("/x"));
    assert_eq!(normalize("/").as_deref(), Some("/"));
    assert_eq!(normalize("relative/path"), None);
}

#[test]
fn command_paths_take_absolute_tokens_and_relative_cd_targets() {
    let cwd = Some("/w");
    assert_eq!(
        command_paths(
            "cd vakinha-api && git -C \"/w/web-worktrees/VK-2\" status; ls --dir=/opt/x ~/y $HOME/z",
            cwd,
            Some("/home/me"),
        ),
        ["/w/vakinha-api", "/w/web-worktrees/VK-2", "/opt/x", "/home/me/y"]
    );
    assert!(command_paths("cd -", cwd, None).is_empty());
    assert!(command_paths("cd api", None, None).is_empty());
}

#[test]
fn command_paths_are_capped() {
    let command = (0..40).map(|i| format!("/p{i}")).collect::<Vec<_>>().join(" ");
    assert_eq!(command_paths(&command, None, None).len(), 16);
}

#[test]
fn repo_roots_are_nearest_reported_ancestors_and_cached() {
    let disk = FakeDisk {
        dirs: vec!["/ws/api".into(), "/ws/api/src".into(), "/ws".into(), "/".into()],
        repos: vec!["/ws/api".into()],
        ..FakeDisk::default()
    };
    let mut resolver = RepoResolver::new();
    assert_eq!(resolver.resolve("/ws/api/src/deep/missing.rs", &disk).as_deref(), Some("/ws/api"));
    assert!(resolver.cache.iter().any(|(dir, root)| dir == "/ws/api/src" && root.as_deref() == Some("/ws/api")));
    assert_eq!(resolver.resolve("/ws/api/src/../src", &disk).as_deref(), Some("/ws/api"));
    assert_eq!(resolver.resolve("/ws/notes", &disk), None);
    assert_eq!(resolver.resolve("relative/path", &disk), None);
    resolver.clear();
    assert!(resolver.cache.is_empty());
    assert_eq!(herdr::scanner::repo_root("/ws/api/x", &disk).as_deref(), Some("/ws/api"));
}

#[test]
fn title_prefers_custom_title_then_agent_name_then_first_prompt() {
    let mut disk = FakeDisk::default();
    let mut agent = line("agent-name", "a", None);
    agent.agent_name = Some("agent".into());
    let mut old = line("custom-title", "a", None);
    old.custom_title = Some("old".into());
    let mut custom = line("custom-title", "a", None);
    custom.custom_title = Some("custom".into());
    disk.transcript("a", 3, vec![user("a", "/work", "first prompt"), agent, old, custom]);
    let mut agent_b = line("agent-name", "b", None);
    agent_b.agent_name = Some("agent b".into());
    disk.transcript("b", 2, vec![user("b", "/work", "prompt b"), agent_b]);
    let mut meta = user("c", "/work", "meta");
    meta.is_meta = true;
    let mut real = line("user", "c", Some("/work"));
    real.content = Some(PromptContent::Blocks(vec!["real   prompt".into()]));
    disk.transcript("c", 1, vec![meta, user("c", "/work", "<command-name>/clear</command-name>"), real]);

    let mut sessions = ClaudeSessionScanner::new("/c").scan(&mut disk, None);
    sessions.sort_by(|left, right| left.session_id.cmp(&right.session_id));
    let titles: Vec<&str> = sessions.iter().map(|s| s.title.as_str()).collect();
    assert_eq!(titles, ["custom", "agent b", "real prompt"]);
    assert!(sessions.iter().all(|s| s.cwd == "/work"));
}

#[test]
fn scan_orders_by_recency_and_limits_results() {
    let mut disk = FakeDisk::default();
    for index in 0..(MAX_CLAUDE_SESSIONS + 5) {
        let id = format!("s{index:02}");
        disk.transcript(&id, 1_000 + index as u64, vec![user(&id, "/w", &format!("prompt {index}"))]);
    }
    let sessions = ClaudeSessionScanner::new("/c").scan(&mut disk, None);
    assert_eq!(sessions.len(), MAX_CLAUDE_SESSIONS);
    assert_eq!(sessions[0].session_id, format!("s{:02}", MAX_CLAUDE_SESSIONS + 4));
    assert!(sessions.windows(2).all(|pair| pair[0].updated_at_ms >= pair[1].updated_at_ms));
}

#[test]
fn sessions_without_cwd_or_title_are_skipped() {
    let mut disk = FakeDisk::default();
    let mut nocwd = line("custom-title", "nocwd", None);
    nocwd.custom_title = Some("x".into());
    disk.transcript("nocwd", 3, vec![nocwd]);
    disk.transcript("notitle", 2, vec![line("mode", "notitle", Some("/w"))]);
    disk.transcript("ok", 1, vec![user("ok", "/w", "hello")]);
    let sessions = ClaudeSessionScanner::new("/c").scan(&mut disk, None);
    assert_eq!(sessions.len(), 1);
    assert_eq!(sessions[0].session_id, "ok");
    assert_eq!(sessions[0].title, "hello");
}

#[test]
fn rescans_read_only_new_lines() {
    let mut disk = FakeDisk::default();
    disk.transcript("a", 1_000, vec![user("a", "/w", "hello")]);
    let mut scanner = ClaudeSessionScanner::new("/c");
    assert_eq!(scanner.scan(&mut disk, None)[0].title, "hello");
    let mut renamed = line("custom-title", "a", None);
    renamed.custom_title = Some("renamed".into());
    disk.lines.get_mut("/c/projects/p/a.jsonl").unwrap().push(renamed);
    let len = disk.bytes("/c/projects/p/a.jsonl").len() as u64;
    disk.files[0] = TranscriptFile { path: "/c/projects/p/a.jsonl".into(), modified_ms: 1_001, len };
    assert_eq!(scanner.scan(&mut disk, None)[0].title, "renamed");
    assert_eq!(scanner.transcripts[0].1.offset, len);
}

#[test]
fn sessions_accumulate_touched_repos_most_recent_first() {
    let mut disk = FakeDisk {
        dirs: vec!["/ws".into(), "/ws/api".into(), "/ws/web".into(), "/ws/engine".into(), "/ws/web/src".into(), "/".into()],
        repos: vec!["/ws/api".into(), "/ws/web".into(), "/ws/engine".into()],
        ..FakeDisk::default()
    };
    let with = |f: fn(&mut ToolInput)| {
        let mut input = no_input();
        f(&mut input);
        tool("a", "/ws", input)
    };
    disk.transcript(
        "a",
        1,
        vec![
            user("a", "/ws", "hi"),
            with(|i| i.file_path = Some("/ws/api/src/a.rs".into())),
            with(|i| i.command = Some("cd web && git status".into())),
            with(|i| i.path = Some("/ws/engine".into())),
            with(|i| i.command = Some("cat /definitely/not/a/repo".into())),
            with(|i| i.file_path = Some("/ws/api/Gemfile".into())),
            user("a", "/ws/web/src", "x"),
        ],
    );
    let sessions = ClaudeSessionScanner::new("/c").scan(&mut disk, None);
    assert_eq!(sessions[0].repos, ["/ws/web", "/ws/api", "/ws/engine"]);
}

#[test]
fn session_repos_are_capped() {
    let mut state = TranscriptState::new();
    let mut disk = FakeDisk { dirs: vec!["/".into()], ..FakeDisk::default() };
    let mut resolver = RepoResolver::new();
    for index in 0..(MAX_SESSION_REPOS + 3) {
        let repo = format!("/r{index}");
        disk.dirs.push(repo.clone());
        disk.repos.push(repo.clone());
        state.touch_repo(&mut resolver, &format!("{repo}/x"), &disk);
    }
    assert_eq!(state.repos.len(), MAX_SESSION_REPOS);
    assert_eq!(state.repos[0], format!("/r{}", MAX_SESSION_REPOS + 2));
}

#[test]
fn session_from_state_needs_id_title_and_cwd() {
    let mut state = TranscriptState::new();
    assert!(session_from_state("/p/x.jsonl", &state, 5).is_none());
    state.cwd = Some("/r/web-worktrees/VK25-2904/src".into());
    state.first_prompt = Some("VK25-1 hi".into());
    let session = session_from_state("/p/abc-1.jsonl", &state, 5).unwrap();
    assert_eq!(session.session_id, "abc-1");
    assert_eq!(session.context, "VK25-2904");
    assert_eq!(session.worktree_path.as_deref(), Some("/r/web-worktrees/VK25-2904"));
    assert_eq!(session.updated_at_ms, 5);
    assert!(session_from_state("/p/bad id.jsonl", &state, 5).is_none());
}

#[test]
fn recency_order_is_stable() {
    let file = |t: u64| TranscriptFile { path: String::new(), modified_ms: t, len: 0 };
    let files = vec![file(1), file(3), file(1), file(2)];
    assert_eq!(order_by_recency(&files), [1, 3, 0, 2]);
}

#[test]
fn complete_lines_stop_at_the_last_line_feed() {
    let (lines, used) = complete_lines(b"{\"a\":1}\n\n{\"b\":2}\npartial");
    assert_eq!(lines, vec![b"{\"a\":1}".to_vec(), b"{\"b\":2}".to_vec()]);
    assert_eq!(used, 17);
    assert_eq!(complete_lines(b"no newline"), (Vec::<Vec<u8>>::new(), 0));
}

#[test]
fn transcript_lines_read_the_fields_of_their_json() {
    let raw = br#"{"type":"assistant","sessionId":"s1","cwd":"/w","isMeta":true,"message":{"content":[{"type":"text","text":"hi"},{"type":"tool_use","input":{"command":"ls","path":"/x"}},{"type":"tool_use"}]}}"#;
    let line = transcript_line(raw).unwrap();
    assert_eq!(line.kind.as_deref(), Some("assistant"));
    assert_eq!(line.session_id.as_deref(), Some("s1"));
    assert!(line.is_meta && !line.is_sidechain);
    assert_eq!(line.content, Some(PromptContent::Blocks(vec!["hi".into()])));
    assert_eq!(line.tool_inputs.len(), 1);
    assert_eq!(line.tool_inputs[0].command.as_deref(), Some("ls"));
    assert_eq!(line.tool_inputs[0].path.as_deref(), Some("/x"));
    assert!(transcript_line(b"not json").is_none());
    let plain = transcript_line(br#"{"message":{"content":"text"},"isSidechain":false}"#).unwrap();
    assert_eq!(plain.content, Some(PromptContent::Text("text".into())));
    assert!(!plain.is_sidechain && plain.tool_inputs.is_empty());
}
