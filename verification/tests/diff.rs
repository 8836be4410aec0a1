use herdr::diff::{
    changed_files, counts_for, first_changed_line, line_count, load_repo, parse_first_hunk_line,
    changes_from, parse_name_status, parse_numstat, probe_count, repo_from, resolve_base, sort_by_path, FileChange, FileProbe,
    GitOutput, GitRunner, Mode, RepoDiff, EMPTY_TREE,
};
use std::collections::HashMap;

#[test]
fn name_status_and_numstat_parse_renames_and_binaries() {
    let statuses = parse_name_status("M\0src/a.rs\0R087\0old.rs\0new.rs\0A\0b.txt\0");
    assert_eq!(
        statuses,
        [
            ('M', None, "src/a.rs".to_owned()),
            ('R', Some("old.rs".to_owned()), "new.rs".to_owned()),
            ('A', None, "b.txt".to_owned()),
        ]
    );
    let counts = parse_numstat("3\t1\tsrc/a.rs\x002\t0\t\0old.rs\0new.rs\0-\t-\timg.png\0");
    assert_eq!(counts_for(&counts, "src/a.rs"), Some((3, 1, false)));
    assert_eq!(counts_for(&counts, "new.rs"), Some((2, 0, false)));
    assert_eq!(counts_for(&counts, "img.png"), Some((0, 0, true)));
}

#[test]
fn truncated_entries_are_dropped() {
    assert_eq!(parse_name_status("R100\0only-old\0"), []);
    assert_eq!(parse_name_status("M\0"), []);
    let counts = parse_numstat("1\t2\t\0old");
    assert!(counts.is_empty());
    let counts = parse_numstat("1\t2\ta\x005\t6\ta\0");
    assert_eq!(counts, [("a".to_owned(), (5, 6, false))]);
}

#[test]
fn first_hunk_line_reads_the_new_side_start() {
    assert_eq!(parse_first_hunk_line("diff --git a/x b/x\n@@ -3,0 +4,2 @@ fn x\n+a\n"), Some(4));
    assert_eq!(parse_first_hunk_line("@@ -1 +0,0 @@\n-gone\n"), Some(1));
    assert_eq!(parse_first_hunk_line("no hunks"), None);
}

#[test]
fn mode_toggles_between_pr_and_uncommitted() {
    assert_eq!(Mode::default(), Mode::Pr);
    assert_eq!(Mode::Pr.toggled(), Mode::Uncommitted);
    assert_eq!(Mode::Uncommitted.toggled(), Mode::Pr);
}

#[test]
fn mode_labels() {
    assert_eq!(Mode::Pr.label(), "PR");
    assert_eq!(Mode::Uncommitted.label(), "não commitado");
}

#[test]
fn line_counts_count_line_feeds_and_a_last_open_line() {
    assert_eq!(line_count(b"a\nb\nc"), (3, false));
    assert_eq!(line_count(b"a\n"), (1, false));
    assert_eq!(line_count(b""), (0, false));
    assert_eq!(line_count(b"a\0b"), (0, true));
}

fn change(path: &str, adds: u64, dels: u64) -> FileChange {
    FileChange { path: path.into(), old_path: None, status: 'M', adds, dels, binary: false }
}

#[test]
fn repo_totals_and_sorting() {
    let repo = RepoDiff {
        root: "/r".into(),
        branch: None,
        base_label: String::new(),
        base_rev: String::new(),
        files: vec![change("b", 2, 0), change("a", 4, 1)],
        error: None,
    };
    assert_eq!((repo.adds(), repo.dels()), (6, 1));
    assert!(repo.has_changes());
    let sorted = sort_by_path(repo.files.clone());
    let paths: Vec<&str> = sorted.iter().map(|f| f.path.as_str()).collect();
    assert_eq!(paths, ["a", "b"]);
}

/// A git that answers from a table of argument lists.
#[derive(Default)]
struct FakeGit {
    answers: HashMap<String, Result<String, String>>,
    files: HashMap<String, Vec<u8>>,
}

impl FakeGit {
    fn answer(&mut self, args: &str, out: Result<&str, &str>) {
        self.answers.insert(args.to_owned(), out.map(str::to_owned).map_err(str::to_owned));
    }
}

impl GitRunner for FakeGit {
    fn run_git(&self, _root: &str, args: &Vec<String>) -> Result<GitOutput, String> {
        let key = args.join(" ");
        Ok(match self.answers.get(&key) {
            Some(Ok(text)) => GitOutput { success: true, code: Some(0), stdout: text.clone().into_bytes(), stderr: vec![] },
            Some(Err(text)) => GitOutput { success: false, code: Some(1), stdout: vec![], stderr: text.clone().into_bytes() },
            None => GitOutput { success: false, code: Some(128), stdout: vec![], stderr: b"fatal: unknown\nmore".to_vec() },
        })
    }

    fn read_file(&self, path: &str, _limit: u64) -> FileProbe {
        match self.files.get(path) {
            Some(bytes) => FileProbe::Bytes(bytes.clone()),
            None => FileProbe::Unreadable,
        }
    }
}

#[test]
fn repo_without_commits_diffs_against_the_empty_tree() {
    let git = FakeGit::default();
    assert_eq!(
        resolve_base(&git, "/r", Mode::Pr),
        Ok(("vazio".to_owned(), EMPTY_TREE.to_owned()))
    );
}

#[test]
fn pr_mode_uses_the_merge_base_with_the_base_branch() {
    let mut git = FakeGit::default();
    git.answer("rev-parse --verify --quiet HEAD^{commit}", Ok("abc\n"));
    git.answer("rev-parse --verify --quiet main^{commit}", Ok("def\n"));
    git.answer("merge-base HEAD main", Ok("123\n"));
    git.answer("symbolic-ref --quiet --short HEAD", Ok("task/x\n"));
    git.answer("diff --no-ext-diff --name-status -z -M 123", Ok("M\0keep.txt\0A\0feature.rs\0"));
    git.answer("diff --no-ext-diff --numstat -z -M 123", Ok("1\t0\tkeep.txt\x002\t0\tfeature.rs\0"));
    git.answer("ls-files --others --exclude-standard -z", Ok("notes/new.md\0"));
    git.files.insert("/r/notes/new.md".into(), b"a\nb\nc".to_vec());
    assert_eq!(resolve_base(&git, "/r", Mode::Pr), Ok(("main".to_owned(), "123".to_owned())));
    assert_eq!(resolve_base(&git, "/r", Mode::Uncommitted), Ok(("HEAD".to_owned(), "HEAD".to_owned())));
    let repo = load_repo(&git, "/r", Mode::Pr);
    assert_eq!(repo.error, None);
    assert_eq!(repo.branch.as_deref(), Some("task/x"));
    assert_eq!(repo.base_label, "main");
    let summary: Vec<(char, &str, u64)> = repo.files.iter().map(|f| (f.status, f.path.as_str(), f.adds)).collect();
    assert_eq!(summary, [('A', "feature.rs", 2), ('M', "keep.txt", 1), ('?', "notes/new.md", 3)]);
    let untracked = &repo.files[2];
    assert_eq!(first_changed_line(&git, "/r", "123", untracked), 1);
}

#[test]
fn git_errors_carry_the_first_line_of_stderr() {
    let git = FakeGit::default();
    assert_eq!(changed_files(&git, "/r", "x"), Err("fatal: unknown".to_owned()));
    let repo = load_repo(&git, "/r", Mode::Uncommitted);
    assert_eq!(repo.base_rev, EMPTY_TREE);
    assert_eq!(repo.error.as_deref(), Some("fatal: unknown"));
}

#[test]
fn changes_from_lists_tracked_then_untracked_files_by_path() {
    let files = changes_from(
        "M\0keep.txt\0A\0feature.rs\0",
        "1\t2\tkeep.txt\0",
        "notes/new.md\0",
        &vec![(3, false)],
    );
    let paths: Vec<&str> = files.iter().map(|f| f.path.as_str()).collect();
    assert_eq!(paths, ["feature.rs", "keep.txt", "notes/new.md"]);
    assert_eq!((files[0].status, files[0].adds, files[0].dels), ('A', 0, 0));
    assert_eq!((files[1].status, files[1].adds, files[1].dels), ('M', 1, 2));
    assert_eq!((files[2].status, files[2].adds, files[2].dels, files[2].binary), ('?', 3, 0, false));
}

#[test]
fn probe_counts_follow_what_reading_gave() {
    assert_eq!(probe_count(FileProbe::TooBig), (0, true));
    assert_eq!(probe_count(FileProbe::Unreadable), (0, false));
    assert_eq!(probe_count(FileProbe::Bytes(b"a\nb".to_vec())), (2, false));
}

#[test]
fn repo_from_keeps_the_base_and_the_listing_or_its_error() {
    let ok = repo_from("/r", Some("main".into()), Ok(("vazio".into(), EMPTY_TREE.into())), Some(Ok(Vec::new())));
    assert_eq!(ok.base_label, "vazio");
    assert_eq!(ok.base_rev, EMPTY_TREE);
    assert_eq!(ok.branch.as_deref(), Some("main"));
    assert!(ok.error.is_none());
    let failed = repo_from("/r", None, Err("merge-base com main: x".into()), None);
    assert_eq!(failed.error.as_deref(), Some("merge-base com main: x"));
    assert!(failed.base_label.is_empty() && failed.files.is_empty());
    let listing = repo_from("/r", None, Ok(("HEAD".into(), "HEAD".into())), Some(Err("git falhou".into())));
    assert_eq!(listing.error.as_deref(), Some("git falhou"));
    assert_eq!(listing.base_label, "HEAD");
}
