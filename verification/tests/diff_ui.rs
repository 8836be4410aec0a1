use herdr::diff::RepoDiff;
use herdr::diff_ui::{common_ancestor, discover_repos, display_names, repos_from, truncate_left, Source};
use herdr::scanner::{TranscriptFile, TranscriptSource};

fn repo(root: &str) -> RepoDiff {
    RepoDiff {
        root: root.into(),
        branch: None,
        base_label: String::new(),
        base_rev: String::new(),
        files: Vec::new(),
        error: None,
    }
}

#[test]
fn names_strip_the_shared_workspace_or_fall_back_to_home() {
    let home = Some("/home/me");
    assert_eq!(
        display_names(
            &[repo("/home/me/p/api-worktrees/VK-1"), repo("/home/me/p/web")],
            home
        ),
        ["api-worktrees/VK-1", "web"]
    );
    assert_eq!(display_names(&[repo("/home/me/p/api")], home), ["~/p/api"]);
    assert_eq!(
        display_names(&[repo("/home/me/projects/vakinha-api")], home),
        ["vakinha-api"]
    );
    assert_eq!(
        display_names(&[repo("/home/me/a"), repo("/opt/b")], home),
        ["~/a", "/opt/b"]
    );
    assert_eq!(truncate_left("src/deep/file.rb", 8), "…file.rb");
}

#[test]
fn names_without_home_are_whole_paths() {
    assert_eq!(display_names(&[repo("/srv/x")], None), ["/srv/x"]);
    assert_eq!(truncate_left("short", 8), "short");
}

#[test]
fn common_ancestor_drops_names_until_it_leads_every_path() {
    let paths = vec!["/a/b/c".to_string(), "/a/b/d/e".to_string(), "/a/x".to_string()];
    assert_eq!(common_ancestor(&paths).as_deref(), Some("/a"));
    assert_eq!(common_ancestor(&["/a/b".to_string()]).as_deref(), Some("/a"));
    assert_eq!(common_ancestor(&[]), None);
}

struct FakeRepos {
    repos: Vec<String>,
}

impl TranscriptSource for FakeRepos {
    fn transcript_files(&self, _projects_dir: &str) -> Vec<TranscriptFile> {
        Vec::new()
    }

    fn read_from(&self, _path: &str, _offset: u64) -> Result<Vec<u8>, String> {
        Err("none".into())
    }

    fn is_dir(&self, _path: &str) -> bool {
        true
    }

    fn is_repo_root(&self, dir: &str) -> bool {
        self.repos.iter().any(|r| r == dir)
    }
}

#[test]
fn session_repos_come_first_then_the_cwd_repo_and_missing_ones_are_dropped() {
    let disk = FakeRepos {
        repos: vec!["/t/api".into(), "/t/web".into()],
    };
    let session = vec!["/t/web".to_string(), "/t/removed".to_string(), "/t/web".to_string()];

    assert_eq!(
        discover_repos(&session, "/t/api/src", &disk),
        (vec!["/t/web".to_string(), "/t/api".to_string()], Source::Session)
    );
    assert_eq!(
        discover_repos(&[], "/t/api", &disk),
        (vec!["/t/api".to_string()], Source::Cwd)
    );
    assert_eq!(discover_repos(&[], "/t/plain", &disk), (vec![], Source::Nothing));
}

#[test]
fn repos_from_keeps_session_roots_in_order_then_the_cwd_root() {
    let session = vec!["/r/web".to_string(), "/r/x".to_string(), "/r/web".to_string()];
    let (roots, src) = repos_from(&session, &vec![true, false, true], Some("/r/api".into()));
    assert_eq!(roots, ["/r/web", "/r/api"]);
    assert_eq!(src, Source::Session);
    let (roots, src) = repos_from(&session, &vec![true, false, true], Some("/r/web".into()));
    assert_eq!(roots, ["/r/web"]);
    assert_eq!(src, Source::Session);
    assert_eq!(repos_from(&[], &vec![], Some("/a".into())), (vec!["/a".to_string()], Source::Cwd));
    assert_eq!(repos_from(&[], &vec![], None), (Vec::new(), Source::Nothing));
    assert_eq!(repos_from(&["/".to_string()], &vec![true], None), (Vec::new(), Source::Nothing));
}
