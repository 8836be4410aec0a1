//! Following coding-agent transcripts: what each line tells about its session,
//! the repositories a session touched, and the scan that turns the transcript
//! files into the list of recent sessions.
//!
//! The file system is reached through a [`TranscriptSource`]: it lists the
//! transcript files, reads their bytes after an offset and answers whether a
//! path is a directory or the root of a git repository. The complete lines
//! of those bytes are read here as JSON into [`TranscriptLine`]s.

use vstd::prelude::*;

use crate::right_panel::{join_path, join_spec, parent_path, parent_spec, worktree_path, worktree_path_spec};
use crate::sessions::{
    command_paths,
    command_paths_spec,
    duplicate_option,
    duplicate_strings,
    expand_tilde,
    expand_tilde_spec,
    normalize,
    normalize_spec,
    session_context,
    truncate_title,
    worktree_name,
    worktree_name_spec,
    ClaudeSession,
};
use crate::json::{json_of_bytes, parse_json_bytes, Json};
use crate::model::{get, get_opt, json_get, opt_get, raw_text};
use crate::split::{file_name, file_name_spec, join_parts, string_views, words};
use crate::text::{
    chars_of,
    eq_str,
    slice_chars,
    string_of,
    trim,
    trim_end_char,
    trim_spec,
    CharClass,
};

verus! {

/// The most sessions a scan reports.
pub const MAX_CLAUDE_SESSIONS: usize = 30;

/// The most repositories kept per session.
pub const MAX_SESSION_REPOS: usize = 20;

/// The most directories the repository cache holds.
pub const MAX_REPO_CACHE: usize = 4096;

/// What the transcripts are read from.
pub trait TranscriptSource {
    /// Whether `answer` is what the source answered when asked for the
    /// transcript files under `projects_dir`. Like the other answer
    /// relations here, it holds of every answer unless an implementation says
    /// more: it names the question an answer came from.
    open spec fn files_answer(&self, projects_dir: Seq<char>, answer: Seq<TranscriptFile>) -> bool {
        true
    }

    /// Whether `answer` is what the source answered when asked for the bytes
    /// of `path` after byte `offset`.
    open spec fn read_answer(&self, path: Seq<char>, offset: u64, answer: Result<Vec<u8>, String>) -> bool {
        true
    }

    /// The transcript files (`*.jsonl`) in the project directories under
    /// `projects_dir`.
    fn transcript_files(&self, projects_dir: &str) -> (r: Vec<TranscriptFile>)
        ensures
            self.files_answer(projects_dir@, r@),
    ;

    /// The bytes of `path` after byte `offset`; an error when the file
    /// cannot be read.
    fn read_from(&self, path: &str, offset: u64) -> (r: Result<Vec<u8>, String>)
        ensures
            self.read_answer(path@, offset, r),
    ;

    /// Whether `answer` is what the source answered when asked whether
    /// `path` is a directory. It holds of every answer unless an
    /// implementation says more: it names the question an answer came from.
    open spec fn dir_answer(&self, path: Seq<char>, answer: bool) -> bool {
        true
    }

    /// Whether `answer` is what the source answered when asked whether `dir`
    /// holds a repository.
    open spec fn root_answer(&self, dir: Seq<char>, answer: bool) -> bool {
        true
    }

    /// Whether `path` is a directory.
    fn is_dir(&self, path: &str) -> (r: bool)
        ensures
            self.dir_answer(path@, r),
    ;

    /// Whether `dir` holds a git repository or worktree: a `.git` directory
    /// with a `HEAD`, or a `.git` file that points to one.
    fn is_repo_root(&self, dir: &str) -> (r: bool)
        ensures
            self.root_answer(dir@, r),
    ;
}

/// A transcript file: its path, when it last changed (milliseconds since the
/// epoch) and its length in bytes.
#[derive(Debug, Clone, PartialEq, Eq)]
pub struct TranscriptFile {
    pub path: String,
    pub modified_ms: u64,
    pub len: u64,
}

/// The content of a user message: a plain string, or the texts of its text
/// blocks.
#[derive(Debug, Clone, PartialEq, Eq)]
pub enum PromptContent {
    Text(String),
    Blocks(Vec<String>),
}

/// The string arguments of one tool call.
#[derive(Debug, Clone, PartialEq, Eq)]
pub struct ToolInput {
    pub command: Option<String>,
    pub file_path: Option<String>,
    pub path: Option<String>,
    pub notebook_path: Option<String>,
}

/// One transcript line, as far as the scanner reads it.
#[derive(Debug, Clone, PartialEq, Eq)]
pub struct TranscriptLine {
    /// The `type` field.
    pub kind: Option<String>,
    pub session_id: Option<String>,
    pub cwd: Option<String>,
    pub custom_title: Option<String>,
    pub agent_name: Option<String>,
    pub is_meta: bool,
    pub is_sidechain: bool,
    /// `message.content`, when it is a string or an array.
    pub content: Option<PromptContent>,
    /// The inputs of the `tool_use` blocks of `message.content`, in order.
    pub tool_inputs: Vec<ToolInput>,
}

/// The `k`-th ancestor of a path (`Path::ancestors`).
pub open spec fn nth_parent(p: Seq<char>, k: nat) -> Option<Seq<char>>
    decreases k,
{
    if k == 0 {
        Some(p)
    } else {
        match nth_parent(p, (k - 1) as nat) {
            Some(q) => parent_spec(q),
            None => None,
        }
    }
}

/// Whether `a` is `p` or one of its ancestors.
pub open spec fn is_ancestor(a: Seq<char>, p: Seq<char>) -> bool {
    exists|k: nat| nth_parent(p, k) == Some(a)
}

proof fn lemma_nth_parent_add(p: Seq<char>, j: nat, k: nat)
    requires
        nth_parent(p, j) is Some,
    ensures
        nth_parent(nth_parent(p, j).unwrap(), k) == nth_parent(p, j + k),
    decreases k,
{
    if k > 0 {
        lemma_nth_parent_add(p, j, (k - 1) as nat);
        assert((j + k - 1) as nat == j + (k - 1) as nat);
    }
}

/// An ancestor of an ancestor is an ancestor.
pub proof fn lemma_ancestor_trans(a: Seq<char>, b: Seq<char>, c: Seq<char>)
    requires
        is_ancestor(a, b),
        is_ancestor(b, c),
    ensures
        is_ancestor(a, c),
{
    let j = choose|j: nat| nth_parent(c, j) == Some(b);
    let k = choose|k: nat| nth_parent(b, k) == Some(a);
    lemma_nth_parent_add(c, j, k);
    assert(nth_parent(c, j + k) == Some(a));
}

proof fn lemma_ancestor_refl(p: Seq<char>)
    ensures
        is_ancestor(p, p),
{
    assert(nth_parent(p, 0) == Some(p));
}

proof fn lemma_ancestor_parent(a: Seq<char>, p: Seq<char>, q: Seq<char>)
    requires
        is_ancestor(a, p),
        parent_spec(a) == Some(q),
    ensures
        is_ancestor(q, p),
{
    let j = choose|j: nat| nth_parent(p, j) == Some(a);
    assert(nth_parent(p, j + 1) == Some(q));
}

proof fn lemma_trim_end_len(s: Seq<char>, c: char)
    ensures
        trim_end_char(s, c).len() <= s.len(),
    decreases s.len(),
{
    if s.len() > 0 && s.last() == c {
        lemma_trim_end_len(s.drop_last(), c);
    }
}

proof fn lemma_trim_end_last(s: Seq<char>, c: char)
    ensures
        trim_end_char(s, c).len() > 0 ==> trim_end_char(s, c).last() != c,
    decreases s.len(),
{
    if s.len() > 0 && s.last() == c {
        lemma_trim_end_last(s.drop_last(), c);
    }
}

proof fn lemma_parent_shorter(p: Seq<char>)
    ensures
        parent_spec(p) matches Some(q) ==> q.len() < p.len(),
{
    let trimmed = crate::right_panel::trim_tail(p);
    crate::right_panel::lemma_trim_tail(p);
    if trimmed.len() > 0 {
        crate::text::lemma_last_match_bound(trimmed, seq!['/']);
        match crate::right_panel::last_in_class_before_slash(trimmed) {
            Some(k) => {
                crate::right_panel::lemma_trim_tail(trimmed.take(k));
                assert(trimmed.subrange(k, k + 1) == seq!['/']);
                assert(trimmed.subrange(k, k + 1)[0] == trimmed[k]);
            },
            None => {},
        }
    }
}

/// Whether every cached repository root is an ancestor of its directory.
pub open spec fn cache_ok(cache: Seq<(String, Option<String>)>) -> bool {
    forall|i: int|
        0 <= i < cache.len() ==> ((#[trigger] cache[i]).1 matches Some(root) ==> is_ancestor(
            root@,
            cache[i].0@,
        ))
}

/// Finds the repository a path lies in, remembering the answer for each
/// directory it looked at.
#[derive(Debug, Clone, PartialEq, Eq)]
pub struct RepoResolver {
    pub cache: Vec<(String, Option<String>)>,
}

/// The first remembered answer for `dir`, from entry `i` on.
pub open spec fn cache_find(cache: Seq<(String, Option<String>)>, dir: Seq<char>, i: int) -> Option<
    Option<String>,
>
    decreases cache.len() - i,
{
    if i < 0 || i >= cache.len() {
        None
    } else if cache[i].0@ == dir {
        Some(cache[i].1)
    } else {
        cache_find(cache, dir, i + 1)
    }
}

/// Whether `f` gives each answer of `asked` for its directory.
pub open spec fn agrees_with(f: spec_fn(Seq<char>) -> bool, asked: Seq<(Seq<char>, bool)>) -> bool {
    forall|i: int| 0 <= i < asked.len() ==> f((#[trigger] asked[i]).0) == asked[i].1
}

/// The nearest directory among `d` and its ancestors that `is_dir` says
/// exists.
pub open spec fn existing_from(d: Seq<char>, is_dir: spec_fn(Seq<char>) -> bool) -> Option<Seq<char>>
    decreases d.len(),
{
    if is_dir(d) {
        Some(d)
    } else {
        match parent_spec(d) {
            Some(u) => if u.len() < d.len() {
                existing_from(u, is_dir)
            } else {
                None
            },
            None => None,
        }
    }
}

/// The nearest directory among `d` and its ancestors that has a parent and
/// that `is_root` says is a repository root.
pub open spec fn root_from(d: Seq<char>, is_root: spec_fn(Seq<char>) -> bool) -> Option<Seq<char>>
    decreases d.len(),
{
    match parent_spec(d) {
        None => None,
        Some(u) => if is_root(d) {
            Some(d)
        } else if u.len() < d.len() {
            root_from(u, is_root)
        } else {
            None
        },
    }
}

/// The answer of a climb from `d`: the remembered answer of the first
/// directory that has one, else the first repository root.
pub open spec fn climb_spec(
    d: Seq<char>,
    cache: Seq<(String, Option<String>)>,
    is_root: spec_fn(Seq<char>) -> bool,
) -> Option<Seq<char>>
    decreases d.len(),
{
    match cache_find(cache, d, 0) {
        Some(c) => crate::split::opt_view(c),
        None => match parent_spec(d) {
            None => None,
            Some(u) => if is_root(d) {
                Some(d)
            } else if u.len() < d.len() {
                climb_spec(u, cache, is_root)
            } else {
                None
            },
        },
    }
}

/// What resolving `path` gives with `cache` on a file system where `is_dir`
/// and `is_root` answer: none for a relative path or without an existing
/// ancestor; else the climb from the nearest existing one.
pub open spec fn resolve_spec(
    path: Seq<char>,
    cache: Seq<(String, Option<String>)>,
    is_dir: spec_fn(Seq<char>) -> bool,
    is_root: spec_fn(Seq<char>) -> bool,
) -> Option<Seq<char>> {
    match normalize_spec(path) {
        None => None,
        Some(np) => match existing_from(np, is_dir) {
            None => None,
            Some(d) => climb_spec(d, cache, is_root),
        },
    }
}

/// The repository root of `path` on a file system where `is_dir` and
/// `is_root` answer: the nearest root from the nearest existing ancestor of
/// the normalized path.
pub open spec fn nearest_root(
    path: Seq<char>,
    is_dir: spec_fn(Seq<char>) -> bool,
    is_root: spec_fn(Seq<char>) -> bool,
) -> Option<Seq<char>> {
    match normalize_spec(path) {
        None => None,
        Some(np) => match existing_from(np, is_dir) {
            None => None,
            Some(d) => root_from(d, is_root),
        },
    }
}

/// Whether each remembered answer is the repository root of its directory
/// on a file system where `is_root` answers.
pub open spec fn cache_agrees(cache: Seq<(String, Option<String>)>, is_root: spec_fn(Seq<char>) -> bool) -> bool {
    forall|i: int| 0 <= i < cache.len() ==> crate::split::opt_view((#[trigger] cache[i]).1) == root_from(cache[i].0@, is_root)
}

proof fn lemma_cache_find_at(cache: Seq<(String, Option<String>)>, d: Seq<char>, i: int)
    requires
        0 <= i,
    ensures
        cache_find(cache, d, i) matches Some(c) ==> exists|k: int| i <= k < cache.len() && cache[k].0@ == d && cache[k].1 == c,
    decreases cache.len() - i,
{
    if i < cache.len() && cache[i].0@ != d {
        lemma_cache_find_at(cache, d, i + 1);
    }
}

proof fn lemma_climb_agrees(d: Seq<char>, cache: Seq<(String, Option<String>)>, is_root: spec_fn(Seq<char>) -> bool)
    requires
        cache_agrees(cache, is_root),
    ensures
        climb_spec(d, cache, is_root) == root_from(d, is_root),
    decreases d.len(),
{
    lemma_cache_find_at(cache, d, 0);
    match cache_find(cache, d, 0) {
        Some(c) => {
            let k = choose|k: int| 0 <= k < cache.len() && cache[k].0@ == d && cache[k].1 == c;
            assert(crate::split::opt_view(cache[k].1) == root_from(cache[k].0@, is_root));
        },
        None => {
            match parent_spec(d) {
                Some(u) => if !is_root(d) && u.len() < d.len() {
                    lemma_climb_agrees(u, cache, is_root);
                },
                None => {},
            }
        },
    }
}

/// The remembered answers never change what resolving gives: when each of
/// them is the repository root of its directory on the file system, the
/// answer is the nearest root, as without a cache.
pub proof fn cache_never_changes_the_answer(
    path: Seq<char>,
    cache: Seq<(String, Option<String>)>,
    is_dir: spec_fn(Seq<char>) -> bool,
    is_root: spec_fn(Seq<char>) -> bool,
)
    requires
        cache_agrees(cache, is_root),
    ensures
        resolve_spec(path, cache, is_dir, is_root) == nearest_root(path, is_dir, is_root),
        resolve_spec(path, Seq::empty(), is_dir, is_root) == nearest_root(path, is_dir, is_root),
{
    if let Some(np) = normalize_spec(path) {
        if let Some(d) = existing_from(np, is_dir) {
            lemma_climb_agrees(d, cache, is_root);
            lemma_climb_agrees(d, Seq::empty(), is_root);
        }
    }
}

/// Two resolutions of the same path, one through a cache and one without,
/// give the same root whenever one file system explains every answer the
/// source gave to both and every remembered answer of the cache.
pub proof fn cached_and_fresh_resolutions_agree(
    path: Seq<char>,
    cached: Option<String>,
    cache: Seq<(String, Option<String>)>,
    cache_after: Seq<(String, Option<String>)>,
    dirs: Seq<(Seq<char>, bool)>,
    roots: Seq<(Seq<char>, bool)>,
    fresh: Option<String>,
    fresh_after: Seq<(String, Option<String>)>,
    fresh_dirs: Seq<(Seq<char>, bool)>,
    fresh_roots: Seq<(Seq<char>, bool)>,
    is_dir: spec_fn(Seq<char>) -> bool,
    is_root: spec_fn(Seq<char>) -> bool,
)
    requires
        resolved_with(cached, path, cache, cache_after, dirs, roots),
        resolved_with(fresh, path, Seq::empty(), fresh_after, fresh_dirs, fresh_roots),
        agrees_with(is_dir, dirs),
        agrees_with(is_dir, fresh_dirs),
        agrees_with(is_root, roots),
        agrees_with(is_root, fresh_roots),
        cache_agrees(cache, is_root),
    ensures
        crate::split::opt_view(cached) == crate::split::opt_view(fresh),
        crate::split::opt_view(cached) == nearest_root(path, is_dir, is_root),
{
    cache_never_changes_the_answer(path, cache, is_dir, is_root);
}

impl RepoResolver {
    /// A resolver that remembers nothing.
    pub fn new() -> (r: RepoResolver)
        ensures
            r.cache@.len() == 0,
    {
        RepoResolver { cache: Vec::new() }
    }

    /// Forgets every answer.
    pub fn clear(&mut self)
        ensures
            final(self).cache@.len() == 0,
    {
        self.cache = Vec::new();
    }

    /// The remembered answer for `dir`.
    fn cached(&self, dir: &str) -> (r: Option<Option<String>>)
        ensures
            r == cache_find(self.cache@, dir@, 0),
            r matches Some(v) ==> exists|i: int|
                0 <= i < self.cache@.len() && self.cache@[i].0@ == dir@ && self.cache@[i].1
                    == v,
    {
        let mut i: usize = 0;
        while i < self.cache.len()
            invariant
                i <= self.cache.len(),
                cache_find(self.cache@, dir@, 0) == cache_find(self.cache@, dir@, i as int),
            decreases self.cache.len() - i,
        {
            if eq_str(self.cache[i].0.as_str(), dir) {
                return Some(duplicate_option(&self.cache[i].1));
            }
            i = i + 1;
        }
        None
    }

    /// The nearest existing directory among `dir` and its ancestors, and the
    /// answers the source gave on the way.
    fn existing_ancestor<S: TranscriptSource>(
        from: Vec<char>,
        Ghost(np): Ghost<Seq<char>>,
        source: &S,
    ) -> (r: (Option<Vec<char>>, Ghost<Seq<(Seq<char>, bool)>>))
        requires
            is_ancestor(from@, np),
        ensures
            r.0 matches Some(d) ==> is_ancestor(d@, np),
            distinct_dirs(r.1@),
            dirs_said(source, r.1@),
            forall|f: spec_fn(Seq<char>) -> bool|
                #[trigger] agrees_with(f, r.1@) ==> vec_opt_view(r.0) == existing_from(from@, f),
    {
        let ghost start = from@;
        let ghost mut asked: Seq<(Seq<char>, bool)> = Seq::empty();
        let mut dir = from;
        loop
            invariant
                is_ancestor(dir@, np),
                start == from@,
                distinct_dirs(asked),
                dirs_said(source, asked),
                forall|i: int| 0 <= i < asked.len() ==> (#[trigger] asked[i]).0.len() > dir@.len(),
                forall|f: spec_fn(Seq<char>) -> bool|
                    #[trigger] agrees_with(f, asked) ==> existing_from(start, f) == existing_from(dir@, f),
            decreases dir@.len(),
        {
            let ans = source.is_dir(string_of(dir.as_slice()).as_str());
            let ghost prev = asked;
            proof {
                asked = asked.push((dir@, ans));
                lemma_agrees_push(prev, dir@, ans);
                assert forall|i: int| 0 <= i < asked.len() implies source.dir_answer((#[trigger] asked[i]).0, asked[i].1) by {
                    if i < prev.len() {
                        assert(asked[i] == prev[i]);
                    }
                }
            }
            if ans {
                proof {
                    assert forall|f: spec_fn(Seq<char>) -> bool| #[trigger] agrees_with(f, asked) implies vec_opt_view(
                        Some(dir),
                    ) == existing_from(start, f) by {
                        assert(agrees_with(f, prev));
                    }
                }
                let r = (Some(dir), Ghost(asked));
                assert(forall|f: spec_fn(Seq<char>) -> bool| #[trigger] agrees_with(f, r.1@) ==> vec_opt_view(r.0) == existing_from(start, f));
                return r;
            }
            proof {
                lemma_parent_shorter(dir@);
            }
            match parent_path(dir.as_slice()) {
                Some(up) => {
                    proof {
                        lemma_ancestor_parent(dir@, np, up@);
                        assert forall|i: int| 0 <= i < asked.len() implies (#[trigger] asked[i]).0.len() > up@.len() by {
                            if i < prev.len() {
                                assert(asked[i] == prev[i]);
                            }
                        }
                        assert forall|f: spec_fn(Seq<char>) -> bool| #[trigger] agrees_with(f, asked) implies existing_from(
                            start,
                            f,
                        ) == existing_from(up@, f) by {
                            assert(agrees_with(f, prev));
                        }
                        assert forall|i: int, j: int| 0 <= i < j < asked.len() implies (#[trigger] asked[i]).0 != (
                        #[trigger] asked[j]).0 by {
                            if j < prev.len() {
                                assert(asked[i] == prev[i] && asked[j] == prev[j]);
                            } else {
                                assert(asked[i] == prev[i]);
                            }
                        }
                    }
                    dir = up;
                },
                None => {
                    proof {
                        assert forall|f: spec_fn(Seq<char>) -> bool| #[trigger] agrees_with(f, asked) implies vec_opt_view(
                            None,
                        ) == existing_from(start, f) by {
                            assert(agrees_with(f, prev));
                        }
                        assert forall|i: int, j: int| 0 <= i < j < asked.len() implies (#[trigger] asked[i]).0 != (
                        #[trigger] asked[j]).0 by {
                            if j < prev.len() {
                                assert(asked[i] == prev[i] && asked[j] == prev[j]);
                            } else {
                                assert(asked[i] == prev[i]);
                            }
                        }
                    }
                    let r = (None, Ghost(asked));
                    assert(forall|f: spec_fn(Seq<char>) -> bool| #[trigger] agrees_with(f, r.1@) ==> vec_opt_view(r.0) == existing_from(start, f));
                    return r;
                },
            }
        }
    }

    /// Climbs from `dir` to the first directory with a remembered answer or
    /// that is a repository root; returns the answer, the directories looked
    /// at on the way and the answers the source gave.
    fn climb<S: TranscriptSource>(
        &self,
        from: Vec<char>,
        Ghost(np): Ghost<Seq<char>>,
        source: &S,
    ) -> (r: (Option<String>, Vec<String>, Ghost<Seq<(Seq<char>, bool)>>))
        requires
            is_ancestor(from@, np),
            cache_ok(self.cache@),
        ensures
            forall|i: int| 0 <= i < r.1@.len() ==> is_ancestor((#[trigger] r.1@[i])@, np),
            r.0 matches Some(root) ==> is_ancestor(root@, np) && forall|i: int|
                0 <= i < r.1@.len() ==> is_ancestor(root@, (#[trigger] r.1@[i])@),
            distinct_dirs(r.2@),
            roots_said(source, r.2@),
            forall|f: spec_fn(Seq<char>) -> bool|
                #[trigger] agrees_with(f, r.2@) ==> crate::split::opt_view(r.0) == climb_spec(from@, self.cache@, f)
                    && forall|i: int|
                    0 <= i < r.1@.len() ==> climb_spec((#[trigger] r.1@[i])@, self.cache@, f)
                        == crate::split::opt_view(r.0),
    {
        let ghost start = from@;
        let ghost mut asked: Seq<(Seq<char>, bool)> = Seq::empty();
        let mut dir = from;
        let mut visited: Vec<String> = Vec::new();
        loop
            invariant
                is_ancestor(dir@, np),
                cache_ok(self.cache@),
                forall|i: int|
                    0 <= i < visited@.len() ==> is_ancestor(dir@, (#[trigger] visited@[i])@)
                        && is_ancestor(visited@[i]@, np),
                start == from@,
                distinct_dirs(asked),
                roots_said(source, asked),
                forall|i: int| 0 <= i < asked.len() ==> (#[trigger] asked[i]).0.len() > dir@.len(),
                forall|f: spec_fn(Seq<char>) -> bool|
                    #[trigger] agrees_with(f, asked) ==> climb_spec(start, self.cache@, f) == climb_spec(
                        dir@,
                        self.cache@,
                        f,
                    ) && forall|i: int|
                        0 <= i < visited@.len() ==> climb_spec((#[trigger] visited@[i])@, self.cache@, f)
                            == climb_spec(dir@, self.cache@, f),
            decreases dir@.len(),
        {
            let here = string_of(dir.as_slice());
            if let Some(cached) = self.cached(here.as_str()) {
                let ghost c = cached;
                proof {
                    if let Some(root) = c {
                        let i = choose|i: int|
                            0 <= i < self.cache@.len() && self.cache@[i].0@ == here@
                                && self.cache@[i].1 == c;
                        assert(self.cache@[i].1 matches Some(root));
                        assert(is_ancestor(root@, dir@));
                        lemma_ancestor_trans(root@, dir@, np);
                        assert forall|k: int| 0 <= k < visited@.len() implies is_ancestor(
                            root@,
                            (#[trigger] visited@[k])@,
                        ) by {
                            lemma_ancestor_trans(root@, dir@, visited@[k]@);
                        }
                    }
                }
                return (cached, visited, Ghost(asked));
            }
            let ghost before = visited@;
            assert(here@ == dir@);
            visited.push(here);
            proof {
                lemma_ancestor_refl(dir@);
                assert forall|i: int| 0 <= i < visited@.len() implies is_ancestor(
                    dir@,
                    (#[trigger] visited@[i])@,
                ) && is_ancestor(visited@[i]@, np) by {
                    if i < before.len() {
                        assert(visited@[i] == before[i]);
                    }
                }
                lemma_parent_shorter(dir@);
            }
            let up = parent_path(dir.as_slice());
            let mut is_root = false;
            let ghost prev = asked;
            if up.is_some() {
                is_root = source.is_repo_root(string_of(dir.as_slice()).as_str());
                proof {
                    asked = asked.push((dir@, is_root));
                    lemma_agrees_push(prev, dir@, is_root);
                    assert forall|i: int| 0 <= i < asked.len() implies source.root_answer((#[trigger] asked[i]).0, asked[i].1) by {
                        if i < prev.len() {
                            assert(asked[i] == prev[i]);
                        }
                    }
                }
            }
            if is_root {
                let root = string_of(dir.as_slice());
                return (Some(root), visited, Ghost(asked));
            }
            match up {
                Some(up) => {
                    proof {
                        lemma_ancestor_parent(dir@, dir@, up@);
                        lemma_ancestor_parent(dir@, np, up@);
                        assert forall|i: int| 0 <= i < visited@.len() implies is_ancestor(
                            up@,
                            (#[trigger] visited@[i])@,
                        ) by {
                            lemma_ancestor_trans(up@, dir@, visited@[i]@);
                        }
                        assert forall|i: int| 0 <= i < asked.len() implies (#[trigger] asked[i]).0.len() > up@.len() by {
                            if i < prev.len() {
                                assert(asked[i] == prev[i]);
                            }
                        }
                    }
                    dir = up;
                },
                None => return (None, visited, Ghost(asked)),
            }
        }
    }

    /// The root of the git repository that `path` lies in: the nearest
    /// directory, from the nearest existing ancestor of the normalized path
    /// upward, that the source reports as a repository root (`/` never is).
    /// None for a relative path, or when no ancestor exists or is a root. The
    /// answer is remembered for each directory looked at; when the cache would
    /// grow past 4096 entries it is emptied first.
    pub fn resolve<S: TranscriptSource>(&mut self, path: &str, source: &S) -> (r: Option<String>)
        requires
            cache_ok(old(self).cache@),
        ensures
            cache_ok(final(self).cache@),
            normalize_spec(path@) is None ==> r is None,
            r matches Some(root) ==> normalize_spec(path@) matches Some(p) && is_ancestor(root@, p),
            exists|dirs: Seq<(Seq<char>, bool)>, roots: Seq<(Seq<char>, bool)>|
                #[trigger] resolved_with(r, path@, old(self).cache@, final(self).cache@, dirs, roots) && dirs_said(
                    source,
                    dirs,
                ) && roots_said(source, roots),
    {
        let ghost old_cache = self.cache@;
        let norm = match normalize(path) {
            Some(n) => n,
            None => {
                assert(resolved_with(None, path@, old_cache, self.cache@, Seq::empty(), Seq::empty()));
                return None;
            },
        };
        let ghost np = norm@;
        proof {
            lemma_ancestor_refl(np);
        }
        let (start, Ghost(dirs)) = Self::existing_ancestor(chars_of(norm.as_str()), Ghost(np), source);
        let start = match start {
            Some(d) => d,
            None => {
                assert(resolved_with(None, path@, old_cache, self.cache@, dirs, Seq::empty()));
                return None;
            },
        };
        let (found, visited, Ghost(roots)) = self.climb(start, Ghost(np), source);
        let ghost fv = crate::split::opt_view(found);
        let cleared = self.cache.len() >= MAX_REPO_CACHE || visited.len() > MAX_REPO_CACHE - self.cache.len();
        if cleared {
            self.cache = Vec::new();
        }
        let ghost base = self.cache@;
        let mut i: usize = 0;
        while i < visited.len()
            invariant
                i <= visited.len(),
                cache_ok(self.cache@),
                found matches Some(root) ==> forall|k: int|
                    0 <= k < visited@.len() ==> is_ancestor(root@, (#[trigger] visited@[k])@),
                fv == crate::split::opt_view(found),
                base == (if cleared { Seq::empty() } else { old_cache }),
                self.cache@.len() == base.len() + i,
                forall|k: int| 0 <= k < base.len() ==> #[trigger] self.cache@[k] == base[k],
                forall|k: int|
                    0 <= k < i ==> (#[trigger] self.cache@[base.len() + k]).0@ == visited@[k]@
                        && crate::split::opt_view(self.cache@[base.len() + k].1) == fv,
            decreases visited.len() - i,
        {
            let ghost before = self.cache@;
            self.cache.push((visited[i].clone(), duplicate_option(&found)));
            proof {
                assert forall|k: int| 0 <= k < self.cache@.len() implies ((
                #[trigger] self.cache@[k]).1 matches Some(root) ==> is_ancestor(
                    root@,
                    self.cache@[k].0@,
                )) by {
                    if k < before.len() {
                        assert(self.cache@[k] == before[k]);
                    }
                }
                assert forall|k: int| 0 <= k < base.len() implies #[trigger] self.cache@[k] == base[k] by {
                    assert(self.cache@[k] == before[k]);
                }
                assert forall|k: int|
                    0 <= k < i + 1 implies (#[trigger] self.cache@[base.len() + k]).0@ == visited@[k]@
                        && crate::split::opt_view(self.cache@[base.len() + k].1) == fv by {
                    if k < i {
                        assert(self.cache@[base.len() + k] == before[base.len() + k]);
                    }
                }
            }
            i = i + 1;
        }
        proof {
            assert forall|fd: spec_fn(Seq<char>) -> bool, fr: spec_fn(Seq<char>) -> bool|
                agrees_with(fd, dirs) && agrees_with(fr, roots) implies crate::split::opt_view(found)
                    == resolve_spec(path@, old_cache, fd, fr) && (cache_agrees(old_cache, fr) ==> cache_agrees(
                    self.cache@,
                    fr,
                )) by {
                assert(vec_opt_view(Some(start)) == existing_from(np, fd));
                if cache_agrees(old_cache, fr) {
                    assert forall|k: int| 0 <= k < self.cache@.len() implies crate::split::opt_view(
                        (#[trigger] self.cache@[k]).1,
                    ) == root_from(self.cache@[k].0@, fr) by {
                        if k < base.len() {
                            assert(self.cache@[k] == base[k]);
                            assert(!cleared);
                            assert(crate::split::opt_view(old_cache[k].1) == root_from(old_cache[k].0@, fr));
                        } else {
                            let m = k - base.len();
                            assert(self.cache@[base.len() + m].0@ == visited@[m]@);
                            lemma_climb_agrees(visited@[m]@, old_cache, fr);
                        }
                    }
                }
            }
            assert(resolved_with(found, path@, old_cache, self.cache@, dirs, roots));
        }
        found
    }
}

/// Whether resolving `path` gave `r` and turned the cache `before` into
/// `after`, the source having answered `dirs` (whether a directory exists)
/// and `roots` (whether it is a repository root): each directory asked once,
/// and on every file system that gives those answers, `r` is what
/// [`resolve_spec`] gives and a cache in agreement with it stays so.
pub open spec fn resolved_with(
    r: Option<String>,
    path: Seq<char>,
    before: Seq<(String, Option<String>)>,
    after: Seq<(String, Option<String>)>,
    dirs: Seq<(Seq<char>, bool)>,
    roots: Seq<(Seq<char>, bool)>,
) -> bool {
    &&& distinct_dirs(dirs)
    &&& distinct_dirs(roots)
    &&& forall|fd: spec_fn(Seq<char>) -> bool, fr: spec_fn(Seq<char>) -> bool|
        #![trigger agrees_with(fd, dirs), agrees_with(fr, roots)]
        agrees_with(fd, dirs) && agrees_with(fr, roots) ==> crate::split::opt_view(r) == resolve_spec(
            path,
            before,
            fd,
            fr,
        ) && (cache_agrees(before, fr) ==> cache_agrees(after, fr))
}

/// Whether each answer among `asked` is what the source said when asked
/// whether that directory exists.
pub open spec fn dirs_said<S: TranscriptSource>(source: &S, asked: Seq<(Seq<char>, bool)>) -> bool {
    forall|i: int| 0 <= i < asked.len() ==> source.dir_answer((#[trigger] asked[i]).0, asked[i].1)
}

/// Whether each answer among `asked` is what the source said when asked
/// whether that directory holds a repository.
pub open spec fn roots_said<S: TranscriptSource>(source: &S, asked: Seq<(Seq<char>, bool)>) -> bool {
    forall|i: int| 0 <= i < asked.len() ==> source.root_answer((#[trigger] asked[i]).0, asked[i].1)
}

/// Whether no directory was asked twice.
pub open spec fn distinct_dirs(asked: Seq<(Seq<char>, bool)>) -> bool {
    forall|i: int, j: int| 0 <= i < j < asked.len() ==> (#[trigger] asked[i]).0 != (#[trigger] asked[j]).0
}

/// An optional character vector as plain values.
pub open spec fn vec_opt_view(o: Option<Vec<char>>) -> Option<Seq<char>> {
    match o {
        Some(v) => Some(v@),
        None => None,
    }
}

/// The first answer given for `d` among `asked`, false when it was not asked.
pub open spec fn answered(asked: Seq<(Seq<char>, bool)>, d: Seq<char>) -> bool {
    exists|i: int| 0 <= i < asked.len() && (#[trigger] asked[i]).0 == d && asked[i].1
}

/// Answers given once per directory agree with a file system.
pub proof fn answers_have_a_file_system(asked: Seq<(Seq<char>, bool)>)
    requires
        distinct_dirs(asked),
    ensures
        agrees_with(|d: Seq<char>| answered(asked, d), asked),
{
    assert forall|i: int| 0 <= i < asked.len() implies (|d: Seq<char>| answered(asked, d))((#[trigger] asked[i]).0)
        == asked[i].1 by {
        if answered(asked, asked[i].0) {
            let j = choose|j: int| 0 <= j < asked.len() && (#[trigger] asked[j]).0 == asked[i].0 && asked[j].1;
            if j != i {
                if j < i {
                    assert(asked[j].0 != asked[i].0);
                } else {
                    assert(asked[i].0 != asked[j].0);
                }
            }
        }
    }
}

proof fn lemma_agrees_push(asked: Seq<(Seq<char>, bool)>, d: Seq<char>, a: bool)
    ensures
        forall|f: spec_fn(Seq<char>) -> bool|
            #[trigger] agrees_with(f, asked.push((d, a))) ==> agrees_with(f, asked) && f(d) == a,
{
    assert forall|f: spec_fn(Seq<char>) -> bool| #[trigger] agrees_with(f, asked.push((d, a))) implies agrees_with(f, asked)
        && f(d) == a by {
        assert forall|i: int| 0 <= i < asked.len() implies f((#[trigger] asked[i]).0) == asked[i].1 by {
            assert(asked.push((d, a))[i] == asked[i]);
        }
        assert(asked.push((d, a))[asked.len() as int] == (d, a));
    }
}

/// The root of the git repository that `path` lies in (see
/// [`RepoResolver::resolve`]).
pub fn repo_root<S: TranscriptSource>(path: &str, source: &S) -> (r: Option<String>)
    ensures
        normalize_spec(path@) is None ==> r is None,
        r matches Some(root) ==> normalize_spec(path@) matches Some(p) && is_ancestor(root@, p),
        exists|dirs: Seq<(Seq<char>, bool)>, roots: Seq<(Seq<char>, bool)>|
            #[trigger] nearest_by(crate::split::opt_view(r), path@, dirs, roots) && dirs_said(source, dirs) && roots_said(
                source,
                roots,
            ),
{
    let mut resolver = RepoResolver::new();
    let ghost before = resolver.cache@;
    assert(before =~= Seq::<(String, Option<String>)>::empty());
    let r = resolver.resolve(path, source);
    proof {
        let (dirs, roots) = choose|dirs: Seq<(Seq<char>, bool)>, roots: Seq<(Seq<char>, bool)>|
            #[trigger] resolved_with(r, path@, before, resolver.cache@, dirs, roots) && dirs_said(source, dirs)
                && roots_said(source, roots);
        assert forall|fd: spec_fn(Seq<char>) -> bool, fr: spec_fn(Seq<char>) -> bool|
            agrees_with(fd, dirs) && agrees_with(fr, roots) implies crate::split::opt_view(r) == #[trigger] nearest_root(
            path@,
            fd,
            fr,
        ) by {
            assert(agrees_with(fd, dirs) && agrees_with(fr, roots));
            assert(crate::split::opt_view(r) == resolve_spec(path@, before, fd, fr));
            cache_never_changes_the_answer(path@, Seq::empty(), fd, fr);
        }
        assert(nearest_by(crate::split::opt_view(r), path@, dirs, roots));
    }
    r
}

/// Whether `r` is the repository root of `path` on every file system that
/// agrees with the answers `dirs` (is it a directory) and `roots` (is it a
/// repository root), each directory asked once.
pub open spec fn nearest_by(
    r: Option<Seq<char>>,
    path: Seq<char>,
    dirs: Seq<(Seq<char>, bool)>,
    roots: Seq<(Seq<char>, bool)>,
) -> bool {
    &&& distinct_dirs(dirs)
    &&& distinct_dirs(roots)
    &&& forall|fd: spec_fn(Seq<char>) -> bool, fr: spec_fn(Seq<char>) -> bool|
        agrees_with(fd, dirs) && agrees_with(fr, roots) ==> r == #[trigger] nearest_root(path, fd, fr)
}

/// A string field: trimmed, and none when empty.
pub open spec fn non_empty_spec(v: Option<String>) -> Option<Seq<char>> {
    match v {
        Some(s) => if trim_spec(s@).len() > 0 {
            Some(trim_spec(s@))
        } else {
            None
        },
        None => None,
    }
}

/// A string field: trimmed, and none when empty.
fn non_empty(v: &Option<String>) -> (r: Option<String>)
    ensures
        r matches Some(t) ==> non_empty_spec(*v) == Some(t@),
        r is None ==> non_empty_spec(*v) is None,
{
    match v {
        Some(s) => {
            let t = trim(chars_of(s.as_str()).as_slice());
            if t.len() > 0 {
                Some(string_of(t.as_slice()))
            } else {
                None
            }
        },
        None => None,
    }
}

/// The first prompt of a user line: none for meta and side-chain lines; else
/// its text (the text blocks joined by spaces) with its words joined by
/// single spaces, unless empty or starting with `<`.
pub open spec fn first_prompt_spec(line: TranscriptLine) -> Option<Seq<char>> {
    if line.is_meta || line.is_sidechain {
        None
    } else {
        match line.content {
            None => None,
            Some(content) => {
                let text = match content {
                    PromptContent::Text(t) => t@,
                    PromptContent::Blocks(bs) => crate::split::join_with(string_views(bs@), " "@),
                };
                let w = crate::split::join_with(words(text), " "@);
                if w.len() == 0 || w[0] == '<' {
                    None
                } else {
                    Some(w)
                }
            },
        }
    }
}

/// The views of a list of strings as character vectors.
fn string_chars(v: &Vec<String>) -> (r: Vec<Vec<char>>)
    ensures
        crate::split::views(r@) == string_views(v@),
{
    let mut out: Vec<Vec<char>> = Vec::new();
    let mut i: usize = 0;
    while i < v.len()
        invariant
            i <= v.len(),
            crate::split::views(out@) == string_views(v@.take(i as int)),
        decreases v.len() - i,
    {
        let ghost before = out@;
        out.push(chars_of(v[i].as_str()));
        assert(crate::split::views(out@) =~= crate::split::views(before).push(v@[i as int]@));
        assert(string_views(v@.take(i + 1)) =~= string_views(v@.take(i as int)).push(
            v@[i as int]@,
        ));
        i = i + 1;
    }
    assert(v@.take(v.len() as int) =~= v@);
    out
}

/// The first prompt of a user line.
fn first_prompt_text(line: &TranscriptLine) -> (r: Option<String>)
    ensures
        r matches Some(t) ==> first_prompt_spec(*line) == Some(t@),
        r is None ==> first_prompt_spec(*line) is None,
{
    if line.is_meta || line.is_sidechain {
        return None;
    }
    let text: Vec<char> = match &line.content {
        None => return None,
        Some(PromptContent::Text(t)) => chars_of(t.as_str()),
        Some(PromptContent::Blocks(bs)) => {
            let parts = string_chars(bs);
            let space = chars_of(" ");
            join_parts(&parts, space.as_slice())
        },
    };
    let parts = crate::split::split_runs(text.as_slice(), CharClass::Whitespace);
    let space = chars_of(" ");
    let w = join_parts(&parts, space.as_slice());
    if w.len() == 0 || w[0] == '<' {
        None
    } else {
        Some(string_of(w.as_slice()))
    }
}

/// Which worktree a tool call's argument is read for.
#[derive(Debug, Clone, Copy, PartialEq, Eq)]
pub enum ToolExtract {
    /// The worktree name ([`worktree_name`]).
    WorktreeName,
    /// The absolute worktree directory ([`worktree_path`]).
    WorktreePath,
}

/// What `extract` reads from a tool argument.
pub open spec fn extract_spec(extract: ToolExtract, text: Seq<char>) -> Option<Seq<char>> {
    match extract {
        ToolExtract::WorktreeName => worktree_name_spec(text),
        ToolExtract::WorktreePath => worktree_path_spec(text),
    }
}

/// What `extract` reads from an optional tool argument.
pub open spec fn extract_opt(extract: ToolExtract, v: Option<String>) -> Option<Seq<char>> {
    match v {
        Some(t) => extract_spec(extract, t@),
        None => None,
    }
}

/// The last value `extract` reads from a tool call's arguments, taken in the
/// order command, file path, path, notebook path.
pub open spec fn last_in_input(input: ToolInput, extract: ToolExtract) -> Option<Seq<char>> {
    match extract_opt(extract, input.notebook_path) {
        Some(v) => Some(v),
        None => match extract_opt(extract, input.path) {
            Some(v) => Some(v),
            None => match extract_opt(extract, input.file_path) {
                Some(v) => Some(v),
                None => extract_opt(extract, input.command),
            },
        },
    }
}

/// The last value `extract` reads from the arguments of the tool calls.
pub open spec fn last_tool_value_spec(inputs: Seq<ToolInput>, extract: ToolExtract) -> Option<
    Seq<char>,
>
    decreases inputs.len(),
{
    if inputs.len() == 0 {
        None
    } else {
        match last_in_input(inputs.last(), extract) {
            Some(v) => Some(v),
            None => last_tool_value_spec(inputs.drop_last(), extract),
        }
    }
}

fn extract_exec(extract: ToolExtract, v: &Option<String>) -> (r: Option<String>)
    ensures
        r matches Some(t) ==> extract_opt(extract, *v) == Some(t@),
        r is None ==> extract_opt(extract, *v) is None,
{
    match v {
        None => None,
        Some(t) => match extract {
            ToolExtract::WorktreeName => worktree_name(t.as_str()),
            ToolExtract::WorktreePath => worktree_path(t.as_str()),
        },
    }
}

/// The last value `extract` reads from the arguments of the tool calls.
fn last_tool_value(inputs: &Vec<ToolInput>, extract: ToolExtract) -> (r: Option<String>)
    ensures
        r matches Some(t) ==> last_tool_value_spec(inputs@, extract) == Some(t@),
        r is None ==> last_tool_value_spec(inputs@, extract) is None,
{
    let mut n: usize = inputs.len();
    assert(inputs@.take(n as int) =~= inputs@);
    while n > 0
        invariant
            n <= inputs.len(),
            last_tool_value_spec(inputs@, extract) == last_tool_value_spec(
                inputs@.take(n as int),
                extract,
            ),
        decreases n,
    {
        let input = &inputs[n - 1];
        assert(inputs@.take(n as int).drop_last() =~= inputs@.take(n - 1));
        assert(inputs@.take(n as int).last() == *input);
        if let Some(v) = extract_exec(extract, &input.notebook_path) {
            return Some(v);
        }
        if let Some(v) = extract_exec(extract, &input.path) {
            return Some(v);
        }
        if let Some(v) = extract_exec(extract, &input.file_path) {
            return Some(v);
        }
        if let Some(v) = extract_exec(extract, &input.command) {
            return Some(v);
        }
        n = n - 1;
    }
    None
}

/// The path a tool argument names: trimmed, `~/` expanded, and taken below
/// `cwd` when relative; nothing when empty, or relative without a `cwd`.
pub open spec fn absolute_spec(
    v: Option<String>,
    cwd: Option<Seq<char>>,
    home: Option<Seq<char>>,
) -> Seq<Seq<char>> {
    match v {
        None => Seq::empty(),
        Some(t) => {
            let t = trim_spec(t@);
            if t.len() == 0 {
                Seq::empty()
            } else {
                let p = expand_tilde_spec(t, home);
                if p.len() > 0 && p[0] == '/' {
                    seq![p]
                } else {
                    match cwd {
                        Some(c) => seq![join_spec(c, p)],
                        None => Seq::empty(),
                    }
                }
            }
        },
    }
}

/// The paths one tool call names: its file path, path and notebook path, then
/// the paths its command mentions.
pub open spec fn input_paths(
    input: ToolInput,
    cwd: Option<Seq<char>>,
    home: Option<Seq<char>>,
) -> Seq<Seq<char>> {
    absolute_spec(input.file_path, cwd, home) + absolute_spec(input.path, cwd, home)
        + absolute_spec(input.notebook_path, cwd, home) + match input.command {
        Some(c) => command_paths_spec(c@, cwd, home),
        None => Seq::empty(),
    }
}

/// The paths the tool calls name, call after call.
pub open spec fn tool_paths_spec(
    inputs: Seq<ToolInput>,
    cwd: Option<Seq<char>>,
    home: Option<Seq<char>>,
) -> Seq<Seq<char>>
    decreases inputs.len(),
{
    if inputs.len() == 0 {
        Seq::empty()
    } else {
        tool_paths_spec(inputs.drop_last(), cwd, home) + input_paths(inputs.last(), cwd, home)
    }
}

/// The view of an optional `&str`.
pub open spec fn opt_str(v: Option<&str>) -> Option<Seq<char>> {
    match v {
        Some(s) => Some(s@),
        None => None,
    }
}

fn absolute(v: &Option<String>, cwd: Option<&str>, home: Option<&str>, out: &mut Vec<String>)
    ensures
        string_views(final(out)@) == string_views(old(out)@) + absolute_spec(
            *v,
            opt_str(cwd),
            opt_str(home),
        ),
{
    let ghost before = out@;
    if let Some(text) = v {
        let t = trim(chars_of(text.as_str()).as_slice());
        if t.len() > 0 {
            let p = expand_tilde(t.as_slice(), home);
            if p.len() > 0 && p[0] == '/' {
                out.push(string_of(p.as_slice()));
            } else if let Some(c) = cwd {
                let cc = chars_of(c);
                out.push(string_of(join_path(cc.as_slice(), p.as_slice()).as_slice()));
            }
        }
    }
    assert(string_views(out@) =~= string_views(before) + absolute_spec(
        *v,
        opt_str(cwd),
        opt_str(home),
    ));
}

/// The paths the tool calls name.
#[verifier::rlimit(40)]
fn tool_paths(inputs: &Vec<ToolInput>, cwd: Option<&str>, home: Option<&str>) -> (r: Vec<String>)
    ensures
        string_views(r@) == tool_paths_spec(inputs@, opt_str(cwd), opt_str(home)),
{
    let mut out: Vec<String> = Vec::new();
    let mut i: usize = 0;
    while i < inputs.len()
        invariant
            i <= inputs.len(),
            string_views(out@) == tool_paths_spec(inputs@.take(i as int), opt_str(cwd), opt_str(home)),
        decreases inputs.len() - i,
    {
        let input = &inputs[i];
        let ghost before = out@;
        absolute(&input.file_path, cwd, home, &mut out);
        absolute(&input.path, cwd, home, &mut out);
        absolute(&input.notebook_path, cwd, home, &mut out);
        if let Some(c) = &input.command {
            let more = command_paths(c.as_str(), cwd, home);
            let ghost mid = out@;
            let mut k: usize = 0;
            while k < more.len()
                invariant
                    k <= more.len(),
                    string_views(out@) == string_views(mid) + string_views(more@.take(k as int)),
                decreases more.len() - k,
            {
                let ghost prev = out@;
                out.push(more[k].clone());
                assert(string_views(out@) =~= string_views(prev).push(more@[k as int]@));
                assert(string_views(more@.take(k + 1)) =~= string_views(more@.take(k as int)).push(
                    more@[k as int]@,
                ));
                assert(string_views(out@) =~= string_views(mid) + string_views(more@.take(k + 1)));
                k = k + 1;
            }
            assert(more@.take(more.len() as int) =~= more@);
        }
        proof {
            assert(inputs@.take(i + 1).drop_last() =~= inputs@.take(i as int));
            assert(inputs@.take(i + 1).last() == *input);
            assert(string_views(out@) =~= tool_paths_spec(
                inputs@.take(i + 1),
                opt_str(cwd),
                opt_str(home),
            ));
        }
        i = i + 1;
    }
    assert(inputs@.take(inputs.len() as int) =~= inputs@);
    out
}

/// What the scanner keeps per transcript: how far it has read, when the file
/// last changed, and what its lines told so far.
#[derive(Debug, Clone, PartialEq, Eq)]
pub struct TranscriptState {
    pub offset: u64,
    pub modified_ms: Option<u64>,
    pub session_id: Option<String>,
    pub cwd: Option<String>,
    pub custom_title: Option<String>,
    pub agent_name: Option<String>,
    pub first_prompt: Option<String>,
    pub tool_worktree: Option<String>,
    pub tool_worktree_path: Option<String>,
    pub repos: Vec<String>,
}

/// A transcript state as plain values.
pub struct TranscriptView {
    pub offset: u64,
    pub modified_ms: Option<u64>,
    pub session_id: Option<Seq<char>>,
    pub cwd: Option<Seq<char>>,
    pub custom_title: Option<Seq<char>>,
    pub agent_name: Option<Seq<char>>,
    pub first_prompt: Option<Seq<char>>,
    pub tool_worktree: Option<Seq<char>>,
    pub tool_worktree_path: Option<Seq<char>>,
    pub repos: Seq<Seq<char>>,
}

impl View for TranscriptState {
    type V = TranscriptView;

    open spec fn view(&self) -> TranscriptView {
        TranscriptView {
            offset: self.offset,
            modified_ms: self.modified_ms,
            session_id: crate::split::opt_view(self.session_id),
            cwd: crate::split::opt_view(self.cwd),
            custom_title: crate::split::opt_view(self.custom_title),
            agent_name: crate::split::opt_view(self.agent_name),
            first_prompt: crate::split::opt_view(self.first_prompt),
            tool_worktree: crate::split::opt_view(self.tool_worktree),
            tool_worktree_path: crate::split::opt_view(self.tool_worktree_path),
            repos: string_views(self.repos@),
        }
    }
}

/// Whether a session's repositories are at most 20, without repeats.
pub open spec fn repos_ok(repos: Seq<Seq<char>>) -> bool {
    &&& repos.len() <= MAX_SESSION_REPOS
    &&& forall|i: int, j: int| 0 <= i < j < repos.len() ==> repos[i] != repos[j]
}

/// The title of a session: its custom title, else its agent name, else its
/// first prompt.
pub open spec fn title_spec(v: TranscriptView) -> Option<Seq<char>> {
    match v.custom_title {
        Some(t) => Some(t),
        None => match v.agent_name {
            Some(t) => Some(t),
            None => v.first_prompt,
        },
    }
}

/// Whether a repository is not `root`.
pub open spec fn other_than(root: Seq<char>) -> spec_fn(Seq<char>) -> bool {
    |x: Seq<char>| x != root
}

/// The repositories after touching `root`: it comes first, the others keep
/// their order, and only the first 20 stay.
pub open spec fn touched_spec(repos: Seq<Seq<char>>, root: Seq<char>) -> Seq<Seq<char>> {
    let all = seq![root] + repos.filter(other_than(root));
    if all.len() > MAX_SESSION_REPOS {
        all.take(MAX_SESSION_REPOS as int)
    } else {
        all
    }
}

/// What one transcript line changes, the repositories aside: the first
/// session id; a new working directory; the custom title, agent name (both
/// cut as titles) and first prompt by the line's type; and for assistant
/// lines the worktree and worktree directory its tool calls last used.
pub open spec fn apply_line_spec(v: TranscriptView, line: TranscriptLine) -> TranscriptView {
    let v1 = if v.session_id is None && non_empty_spec(line.session_id) is Some {
        TranscriptView { session_id: non_empty_spec(line.session_id), ..v }
    } else {
        v
    };
    let v2 = match non_empty_spec(line.cwd) {
        Some(c) => if v1.cwd != Some(c) {
            TranscriptView { cwd: Some(c), ..v1 }
        } else {
            v1
        },
        None => v1,
    };
    let kind = crate::split::opt_view(line.kind);
    if kind == Some("custom-title"@) {
        match non_empty_spec(line.custom_title) {
            Some(t) => TranscriptView { custom_title: Some(crate::sessions::truncate_title_spec(t)), ..v2 },
            None => v2,
        }
    } else if kind == Some("agent-name"@) {
        match non_empty_spec(line.agent_name) {
            Some(t) => TranscriptView { agent_name: Some(crate::sessions::truncate_title_spec(t)), ..v2 },
            None => v2,
        }
    } else if kind == Some("user"@) && v2.first_prompt is None {
        TranscriptView {
            first_prompt: match first_prompt_spec(line) {
                Some(t) => Some(crate::sessions::truncate_title_spec(t)),
                None => None,
            },
            ..v2
        }
    } else if kind == Some("assistant"@) {
        TranscriptView {
            tool_worktree: match last_tool_value_spec(line.tool_inputs@, ToolExtract::WorktreeName) {
                Some(w) => Some(w),
                None => v2.tool_worktree,
            },
            tool_worktree_path: match last_tool_value_spec(
                line.tool_inputs@,
                ToolExtract::WorktreePath,
            ) {
                Some(w) => Some(w),
                None => v2.tool_worktree_path,
            },
            ..v2
        }
    } else {
        v2
    }
}

/// Everything but the repositories of `a` and `b` agree.
pub open spec fn same_but_repos(a: TranscriptView, b: TranscriptView) -> bool {
    TranscriptView { repos: b.repos, ..a } == b
}

impl TranscriptState {
    /// A state that has read nothing.
    pub fn new() -> (r: TranscriptState)
        ensures
            r.offset == 0,
            r.modified_ms is None,
            r.session_id is None,
            r.cwd is None,
            r.custom_title is None,
            r.agent_name is None,
            r.first_prompt is None,
            r.tool_worktree is None,
            r.tool_worktree_path is None,
            r.repos@.len() == 0,
    {
        TranscriptState {
            offset: 0,
            modified_ms: None,
            session_id: None,
            cwd: None,
            custom_title: None,
            agent_name: None,
            first_prompt: None,
            tool_worktree: None,
            tool_worktree_path: None,
            repos: Vec::new(),
        }
    }

    /// The title of the session: its custom title, else its agent name, else
    /// its first prompt.
    pub fn title(&self) -> (r: Option<&String>)
        ensures
            r matches Some(t) ==> title_spec(self@) == Some(t@),
            r is None ==> title_spec(self@) is None,
    {
        match &self.custom_title {
            Some(t) => Some(t),
            None => match &self.agent_name {
                Some(t) => Some(t),
                None => match &self.first_prompt {
                    Some(t) => Some(t),
                    None => None,
                },
            },
        }
    }

    /// Records that the session touched `path`: the repository it lies in, if
    /// any, moves to the front of the list, which keeps at most 20.
    pub fn touch_repo<S: TranscriptSource>(&mut self, resolver: &mut RepoResolver, path: &str, source: &S)
        requires
            cache_ok(old(resolver).cache@),
            repos_ok(old(self)@.repos),
        ensures
            cache_ok(final(resolver).cache@),
            repos_ok(final(self)@.repos),
            same_but_repos(final(self)@, old(self)@),
            final(self)@.repos == old(self)@.repos || exists|root: Seq<char>|
                normalize_spec(path@) matches Some(p) && is_ancestor(root, p) && final(self)@.repos
                    == #[trigger] touched_spec(old(self)@.repos, root),
            exists|res: Option<String>, dirs: Seq<(Seq<char>, bool)>, roots: Seq<(Seq<char>, bool)>|
                #[trigger] resolved_with(res, path@, old(resolver).cache@, final(resolver).cache@, dirs, roots)
                    && dirs_said(source, dirs) && roots_said(source, roots) && final(self)@.repos == match res {
                    None => old(self)@.repos,
                    Some(root) => touched_spec(old(self)@.repos, root@),
                },
    {
        let found = resolver.resolve(path, source);
        let ghost res = found;
        let root = match found {
            Some(r) => r,
            None => return,
        };
        self.touch_root(root.as_str());
        assert(self@.repos == touched_spec(old(self)@.repos, root@));
    }

    /// Records that the session touched the repository at `root`: it moves to
    /// the front of the list, which keeps at most 20.
    pub fn touch_root(&mut self, root: &str)
        requires
            repos_ok(old(self)@.repos),
        ensures
            repos_ok(final(self)@.repos),
            same_but_repos(final(self)@, old(self)@),
            final(self)@.repos == touched_spec(old(self)@.repos, root@),
    {
        let root = string_of(chars_of(root).as_slice());
        let ghost old_repos = self@.repos;
        let ghost pred = other_than(root@);
        let mut out: Vec<String> = Vec::new();
        out.push(root.clone());
        let mut i: usize = 0;
        assert(old_repos.take(0).filter(pred) =~= Seq::<Seq<char>>::empty());
        while i < self.repos.len()
            invariant
                i <= self.repos.len(),
                old_repos == string_views(self.repos@),
                pred == other_than(root@),
                repos_ok(old_repos),
                string_views(out@) == seq![root@] + old_repos.take(i as int).filter(pred),
            decreases self.repos.len() - i,
        {
            let ghost prev = out@;
            proof {
                assert(old_repos.take(i + 1).drop_last() =~= old_repos.take(i as int));
                assert(old_repos.take(i + 1).last() == self.repos@[i as int]@);
                old_repos.take(i + 1).lemma_filter_len(pred);
                reveal(Seq::filter);
            }
            let ghost x = self.repos@[i as int]@;
            assert(pred(x) == (x != root@));
            assert(old_repos.take(i + 1).filter(pred) =~= if pred(x) {
                old_repos.take(i as int).filter(pred).push(x)
            } else {
                old_repos.take(i as int).filter(pred)
            });
            if !eq_str(self.repos[i].as_str(), root.as_str()) {
                out.push(self.repos[i].clone());
                assert(string_views(out@) =~= string_views(prev).push(self.repos@[i as int]@));
            }
            assert(string_views(out@) =~= seq![root@] + old_repos.take(i + 1).filter(pred));
            i = i + 1;
        }
        assert(old_repos.take(self.repos.len() as int) =~= old_repos);
        let ghost all = string_views(out@);
        proof {
            assert forall|a: int, b: int| 0 <= a < b < all.len() implies all[a] != all[b] by {
                let f = old_repos.filter(pred);
                if a == 0 {
                    assert(all[b] == f[b - 1]);
                    old_repos.lemma_filter_pred(pred, b - 1);
                } else {
                    assert(all[a] == f[a - 1]);
                    assert(all[b] == f[b - 1]);
                    lemma_filter_distinct(old_repos, pred, a - 1, b - 1);
                }
            }
        }
        if out.len() > MAX_SESSION_REPOS {
            out.truncate(MAX_SESSION_REPOS);
            assert(string_views(out@) =~= all.take(MAX_SESSION_REPOS as int));
        }
        self.repos = out;
        assert(self@.repos == touched_spec(old_repos, root@));
    }
}

/// Filtering a sequence without repeats gives one without repeats.
proof fn lemma_filter_distinct(s: Seq<Seq<char>>, pred: spec_fn(Seq<char>) -> bool, a: int, b: int)
    requires
        forall|i: int, j: int| 0 <= i < j < s.len() ==> s[i] != s[j],
        0 <= a < b < s.filter(pred).len(),
    ensures
        s.filter(pred)[a] != s.filter(pred)[b],
    decreases s.len(),
{
    reveal(Seq::filter);
    s.lemma_filter_len(pred);
    if s.len() > 0 {
        let rest = s.drop_last();
        rest.lemma_filter_len(pred);
        assert forall|i: int, j: int| 0 <= i < j < rest.len() implies rest[i] != rest[j] by {
            assert(rest[i] == s[i] && rest[j] == s[j]);
        }
        if pred(s.last()) {
            assert(s.filter(pred) == rest.filter(pred).push(s.last()));
            if b == s.filter(pred).len() - 1 {
                rest.lemma_filter_contains_rev(pred, rest.filter(pred)[a]);
                let k = choose|k: int| 0 <= k < rest.len() && rest[k] == rest.filter(pred)[a];
                assert(s[k] == rest[k]);
                assert(s[s.len() - 1] == s.last());
            } else {
                lemma_filter_distinct(rest, pred, a, b);
            }
        } else {
            assert(s.filter(pred) == rest.filter(pred));
            lemma_filter_distinct(rest, pred, a, b);
        }
    }
}

impl TranscriptState {
    /// Takes in one transcript line (see [`apply_line_spec`]); the working
    /// directory it moves to and, on assistant lines, the paths its tool calls
    /// name are touched as repositories.
    pub fn apply_line<S: TranscriptSource>(
        &mut self,
        line: &TranscriptLine,
        resolver: &mut RepoResolver,
        source: &S,
        home: Option<&str>,
    )
        requires
            cache_ok(old(resolver).cache@),
            repos_ok(old(self)@.repos),
        ensures
            cache_ok(final(resolver).cache@),
            repos_ok(final(self)@.repos),
            same_but_repos(final(self)@, apply_line_spec(old(self)@, *line)),
    {
        if self.session_id.is_none() {
            if let Some(id) = non_empty(&line.session_id) {
                self.session_id = Some(id);
            }
        }
        if let Some(cwd) = non_empty(&line.cwd) {
            let same = match &self.cwd {
                Some(c) => eq_str(c.as_str(), cwd.as_str()),
                None => false,
            };
            if !same {
                self.cwd = Some(cwd.clone());
                self.touch_repo(resolver, cwd.as_str(), source);
            }
        }
        let kind = match &line.kind {
            Some(k) => k.as_str(),
            None => "",
        };
        let has_kind = line.kind.is_some();
        if has_kind && eq_str(kind, "custom-title") {
            if let Some(t) = non_empty(&line.custom_title) {
                self.custom_title = Some(truncate_title(t.as_str()));
            }
        } else if has_kind && eq_str(kind, "agent-name") {
            if let Some(t) = non_empty(&line.agent_name) {
                self.agent_name = Some(truncate_title(t.as_str()));
            }
        } else if has_kind && eq_str(kind, "user") && self.first_prompt.is_none() {
            self.first_prompt = match first_prompt_text(line) {
                Some(t) => Some(truncate_title(t.as_str())),
                None => None,
            };
        } else if has_kind && eq_str(kind, "assistant") {
            if let Some(w) = last_tool_value(&line.tool_inputs, ToolExtract::WorktreeName) {
                self.tool_worktree = Some(w);
            }
            if let Some(p) = last_tool_value(&line.tool_inputs, ToolExtract::WorktreePath) {
                self.tool_worktree_path = Some(p);
            }
            let base = duplicate_option(&self.cwd);
            let base_str: Option<&str> = match &base {
                Some(b) => Some(b.as_str()),
                None => None,
            };
            let paths = tool_paths(&line.tool_inputs, base_str, home);
            let ghost fixed = self@;
            let mut i: usize = 0;
            while i < paths.len()
                invariant
                    i <= paths.len(),
                    cache_ok(resolver.cache@),
                    repos_ok(self@.repos),
                    same_but_repos(self@, fixed),
                decreases paths.len() - i,
            {
                self.touch_repo(resolver, paths[i].as_str(), source);
                i = i + 1;
            }
        }
    }
}

/// The name of a file without its extension (`Path::file_stem`): all of it
/// when it has no `.` but a leading one.
pub open spec fn file_stem_spec(path: Seq<char>) -> Option<Seq<char>> {
    match file_name_spec(path) {
        None => None,
        Some(n) => match crate::text::last_match(n, "."@) {
            Some(p) => if p > 0 {
                Some(n.take(p))
            } else {
                Some(n)
            },
            None => Some(n),
        },
    }
}

/// Whether a session id can be resumed: non-empty, of ASCII letters, digits,
/// `-` and `_`.
pub open spec fn valid_session_id(id: Seq<char>) -> bool {
    id.len() > 0 && forall|i: int|
        0 <= i < id.len() ==> crate::text::in_class(CharClass::IdChar, #[trigger] id[i])
}

/// The session a transcript describes: none without a valid id (its own, or
/// the file's stem), a title or a working directory.
pub open spec fn session_from_state_spec(
    path: Seq<char>,
    v: TranscriptView,
    modified_ms: u64,
) -> Option<crate::sessions::ClaudeSessionView> {
    let id = match v.session_id {
        Some(i) => Some(i),
        None => file_stem_spec(path),
    };
    match id {
        None => None,
        Some(id) => if !valid_session_id(id) {
            None
        } else {
            match title_spec(v) {
                None => None,
                Some(title) => match v.cwd {
                    None => None,
                    Some(cwd) => {
                        let named = match v.custom_title {
                            Some(t) => t,
                            None => match v.agent_name {
                                Some(t) => t,
                                None => Seq::empty(),
                            },
                        };
                        Some(
                            crate::sessions::ClaudeSessionView {
                                session_id: id,
                                title,
                                cwd,
                                context: crate::sessions::session_context_spec(
                                    cwd,
                                    v.tool_worktree,
                                    named,
                                ),
                                worktree_path: match worktree_path_spec(cwd) {
                                    Some(w) => Some(w),
                                    None => v.tool_worktree_path,
                                },
                                repos: v.repos,
                                updated_at_ms: modified_ms,
                            },
                        )
                    },
                },
            }
        },
    }
}

fn file_stem(path: &str) -> (r: Option<Vec<char>>)
    ensures
        r matches Some(v) ==> file_stem_spec(path@) == Some(v@),
        r is None ==> file_stem_spec(path@) is None,
{
    let name = match file_name(chars_of(path).as_slice()) {
        Some(n) => n,
        None => return None,
    };
    let dot = chars_of(".");
    proof {
        reveal_strlit(".");
        crate::text::lemma_last_match_bound(name@, dot@);
    }
    match crate::text::rfind(name.as_slice(), dot.as_slice()) {
        Some(p) => {
            if p > 0 {
                let stem = slice_chars(name.as_slice(), 0, p);
                assert(stem@ =~= name@.take(p as int));
                Some(stem)
            } else {
                Some(name)
            }
        },
        None => Some(name),
    }
}

fn valid_id(id: &[char]) -> (r: bool)
    ensures
        r == valid_session_id(id@),
{
    if id.len() == 0 {
        return false;
    }
    let mut i: usize = 0;
    while i < id.len()
        invariant
            i <= id.len(),
            forall|j: int| 0 <= j < i ==> crate::text::in_class(CharClass::IdChar, #[trigger] id@[j]),
        decreases id.len() - i,
    {
        if !crate::text::class_has(CharClass::IdChar, id[i]) {
            return false;
        }
        i = i + 1;
    }
    true
}

/// The session a transcript describes.
pub fn session_from_state(path: &str, state: &TranscriptState, modified_ms: u64) -> (r: Option<
    ClaudeSession,
>)
    ensures
        r matches Some(s) ==> session_from_state_spec(path@, state@, modified_ms) == Some(s@),
        r is None ==> session_from_state_spec(path@, state@, modified_ms) is None,
{
    let id: Vec<char> = match &state.session_id {
        Some(i) => chars_of(i.as_str()),
        None => match file_stem(path) {
            Some(stem) => stem,
            None => return None,
        },
    };
    if !valid_id(id.as_slice()) {
        return None;
    }
    let title = match state.title() {
        Some(t) => t.clone(),
        None => return None,
    };
    let cwd = match &state.cwd {
        Some(c) => c.clone(),
        None => return None,
    };
    let named: &str = match &state.custom_title {
        Some(t) => t.as_str(),
        None => match &state.agent_name {
            Some(t) => t.as_str(),
            None => "",
        },
    };
    proof {
        reveal_strlit("");
    }
    let tool_worktree: Option<&str> = match &state.tool_worktree {
        Some(t) => Some(t.as_str()),
        None => None,
    };
    let context = session_context(cwd.as_str(), tool_worktree, named);
    let worktree = match worktree_path(cwd.as_str()) {
        Some(w) => Some(w),
        None => duplicate_option(&state.tool_worktree_path),
    };
    Some(
        ClaudeSession {
            session_id: string_of(id.as_slice()),
            title,
            cwd,
            context,
            worktree_path: worktree,
            repos: duplicate_strings(&state.repos),
            updated_at_ms: modified_ms,
        },
    )
}

/// Whether transcript `a` comes before `b`: more recently changed first, the
/// earlier listed first among equals.
pub open spec fn recency_before(files: Seq<TranscriptFile>, a: int, b: int) -> bool {
    files[a].modified_ms > files[b].modified_ms || (files[a].modified_ms == files[b].modified_ms
        && a < b)
}

/// Whether `order` lists the positions of `files`, most recently changed
/// first (the earlier listed first among equal times).
pub open spec fn recency_order(files: Seq<TranscriptFile>, order: Seq<usize>) -> bool {
    &&& order.len() == files.len()
    &&& forall|i: int| 0 <= i < order.len() ==> order[i] < files.len()
    &&& forall|i: int, j: int| 0 <= i < j < order.len() ==> recency_before(files, order[i] as int, order[j] as int)
}

/// The sessions a scan reports from the first `n` files in `order`: once 30
/// are found no more are read; otherwise each file that could be read
/// (`usable`) adds the session its state (`states`) makes, when it makes one.
pub open spec fn scan_fold(
    files: Seq<TranscriptFile>,
    order: Seq<usize>,
    usable: Seq<bool>,
    states: Seq<TranscriptView>,
    n: int,
) -> Seq<crate::sessions::ClaudeSessionView>
    decreases n,
{
    if n <= 0 {
        Seq::empty()
    } else {
        let prev = scan_fold(files, order, usable, states, n - 1);
        if prev.len() >= MAX_CLAUDE_SESSIONS {
            prev
        } else if usable[n - 1] {
            let f = files[order[n - 1] as int];
            match session_from_state_spec(f.path@, states[n - 1], f.modified_ms) {
                Some(v) => prev.push(v),
                None => prev,
            }
        } else {
            prev
        }
    }
}

/// Whether every transcript taken as unusable is one whose reading failed.
pub open spec fn unread_failed<S: TranscriptSource>(
    source: &S,
    files: Seq<TranscriptFile>,
    order: Seq<usize>,
    usable: Seq<bool>,
) -> bool {
    forall|k: int|
        0 <= k < usable.len() && !usable[k] ==> exists|offset: u64, e: String|
            #[trigger] source.read_answer(files[order[k] as int].path@, offset, Err(e))
}

/// The views of sessions.
pub open spec fn session_views(r: Seq<ClaudeSession>) -> Seq<crate::sessions::ClaudeSessionView> {
    r.map_values(|x: ClaudeSession| x@)
}

proof fn lemma_scan_fold_prefix(
    files: Seq<TranscriptFile>,
    order: Seq<usize>,
    u: Seq<bool>,
    st: Seq<TranscriptView>,
    u2: Seq<bool>,
    st2: Seq<TranscriptView>,
    n: int,
)
    requires
        0 <= n <= u.len(),
        n <= u2.len(),
        n <= st.len(),
        n <= st2.len(),
        forall|i: int| 0 <= i < n ==> u[i] == u2[i] && st[i] == st2[i],
    ensures
        scan_fold(files, order, u, st, n) == scan_fold(files, order, u2, st2, n),
    decreases n,
{
    if n > 0 {
        lemma_scan_fold_prefix(files, order, u, st, u2, st2, n - 1);
    }
}

proof fn lemma_scan_fold_stops(
    files: Seq<TranscriptFile>,
    order: Seq<usize>,
    usable: Seq<bool>,
    states: Seq<TranscriptView>,
    n: int,
    k: int,
)
    requires
        0 <= n <= k,
        scan_fold(files, order, usable, states, n).len() >= MAX_CLAUDE_SESSIONS,
    ensures
        scan_fold(files, order, usable, states, k) == scan_fold(files, order, usable, states, n),
    decreases k - n,
{
    if k > n {
        lemma_scan_fold_stops(files, order, usable, states, n, k - 1);
    }
}

/// The positions of the transcript files, most recently changed first; a
/// stable order (`sort_by_key` on the reversed time).
pub fn order_by_recency(files: &Vec<TranscriptFile>) -> (r: Vec<usize>)
    ensures
        r@.len() == files@.len(),
        forall|i: int| 0 <= i < r@.len() ==> r@[i] < files@.len(),
        forall|i: int, j: int|
            0 <= i < j < r@.len() ==> recency_before(files@, r@[i] as int, r@[j] as int),
{
    let mut order: Vec<usize> = Vec::new();
    let mut x: usize = 0;
    while x < files.len()
        invariant
            x <= files.len(),
            order@.len() == x,
            forall|i: int| 0 <= i < order@.len() ==> order@[i] < x,
            forall|i: int, j: int|
                0 <= i < j < order@.len() ==> recency_before(files@, order@[i] as int, order@[j] as int),
        decreases files.len() - x,
    {
        let key = files[x].modified_ms;
        let mut p: usize = 0;
        while p < order.len() && !(key > files[order[p]].modified_ms)
            invariant
                p <= order@.len(),
                x < files@.len(),
                key == files@[x as int].modified_ms,
                forall|i: int| 0 <= i < order@.len() ==> order@[i] < x,
                forall|k: int| 0 <= k < p ==> files@[order@[k] as int].modified_ms >= key,
            decreases order@.len() - p,
        {
            p = p + 1;
        }
        let ghost before = order@;
        proof {
            if p < before.len() {
                assert forall|k: int| p <= k < before.len() implies files@[before[k] as int].modified_ms
                    < key by {
                    if k > p {
                        assert(recency_before(files@, before[p as int] as int, before[k] as int));
                    }
                }
            }
        }
        order.insert(p, x);
        proof {
            assert forall|i: int, j: int| 0 <= i < j < order@.len() implies recency_before(
                files@,
                order@[i] as int,
                order@[j] as int,
            ) by {
                if j < p {
                    assert(order@[i] == before[i] && order@[j] == before[j]);
                } else if j == p {
                    assert(order@[i] == before[i]);
                } else if i < p {
                    assert(order@[i] == before[i] && order@[j] == before[j - 1]);
                } else if i == p {
                    assert(order@[j] == before[j - 1]);
                } else {
                    assert(order@[i] == before[i - 1] && order@[j] == before[j - 1]);
                }
            }
            assert forall|i: int| 0 <= i < order@.len() implies order@[i] < x + 1 by {
                if i < p {
                    assert(order@[i] == before[i]);
                } else if i > p {
                    assert(order@[i] == before[i - 1]);
                }
            }
        }
        x = x + 1;
    }
    order
}

/// Whether every remembered transcript keeps at most 20 repositories without
/// repeats, and every cached repository is an ancestor of its directory.
pub open spec fn scanner_ok(s: ClaudeSessionScanner) -> bool {
    &&& cache_ok(s.resolver.cache@)
    &&& forall|i: int| 0 <= i < s.transcripts@.len() ==> repos_ok((#[trigger] s.transcripts@[i]).1@.repos)
}

/// The first transcript from entry `i` on that was kept for `path`.
pub open spec fn transcript_index(ts: Seq<(String, TranscriptState)>, path: Seq<char>, i: int) -> Option<int>
    decreases ts.len() - i,
{
    if i < 0 || i >= ts.len() {
        None
    } else if ts[i].0@ == path {
        Some(i)
    } else {
        transcript_index(ts, path, i + 1)
    }
}

/// Whether a transcript state has read nothing.
pub open spec fn is_fresh(s: TranscriptState) -> bool {
    &&& s.offset == 0
    &&& s.modified_ms is None
    &&& s.session_id is None
    &&& s.cwd is None
    &&& s.custom_title is None
    &&& s.agent_name is None
    &&& s.first_prompt is None
    &&& s.tool_worktree is None
    &&& s.tool_worktree_path is None
    &&& s.repos@.len() == 0
}

/// Follows the transcript files under the agent's directory.
#[derive(Debug, Clone, PartialEq, Eq)]
pub struct ClaudeSessionScanner {
    pub projects_dir: String,
    pub transcripts: Vec<(String, TranscriptState)>,
    pub resolver: RepoResolver,
}

impl ClaudeSessionScanner {
    /// A scanner of the `projects` directory under `claude_dir` that has read
    /// nothing yet.
    pub fn new(claude_dir: &str) -> (r: ClaudeSessionScanner)
        ensures
            r.projects_dir@ == join_spec(claude_dir@, "projects"@),
            r.transcripts@.len() == 0,
            r.resolver.cache@.len() == 0,
            scanner_ok(r),
    {
        let dir = chars_of(claude_dir);
        let sub = chars_of("projects");
        ClaudeSessionScanner {
            projects_dir: string_of(join_path(dir.as_slice(), sub.as_slice()).as_slice()),
            transcripts: Vec::new(),
            resolver: RepoResolver::new(),
        }
    }

    /// Takes out what was kept for `path`, or a fresh state.
    fn take_state(&mut self, path: &str) -> (r: TranscriptState)
        requires
            scanner_ok(*old(self)),
        ensures
            scanner_ok(*final(self)),
            repos_ok(r@.repos),
            final(self).resolver == old(self).resolver,
            final(self).projects_dir == old(self).projects_dir,
            match transcript_index(old(self).transcripts@, path@, 0) {
                Some(k) => r == old(self).transcripts@[k].1 && final(self).transcripts@
                    == old(self).transcripts@.remove(k),
                None => is_fresh(r) && final(self).transcripts@ == old(self).transcripts@,
            },
    {
        let mut i: usize = 0;
        while i < self.transcripts.len()
            invariant
                i <= self.transcripts.len(),
                scanner_ok(*self),
                self.resolver == old(self).resolver,
                *self == *old(self),
                transcript_index(self.transcripts@, path@, 0) == transcript_index(
                    self.transcripts@,
                    path@,
                    i as int,
                ),
            decreases self.transcripts.len() - i,
        {
            if eq_str(self.transcripts[i].0.as_str(), path) {
                let ghost before = self.transcripts@;
                let (_, state) = self.transcripts.remove(i);
                proof {
                    assert forall|k: int| 0 <= k < self.transcripts@.len() implies repos_ok(
                        (#[trigger] self.transcripts@[k]).1@.repos,
                    ) by {
                        if k < i {
                            assert(self.transcripts@[k] == before[k]);
                        } else {
                            assert(self.transcripts@[k] == before[k + 1]);
                        }
                    }
                }
                return state;
            }
            i = i + 1;
        }
        let state = TranscriptState::new();
        assert(state@.repos =~= Seq::<Seq<char>>::empty());
        state
    }

    /// One scan: the sessions of the most recently changed transcripts, at
    /// most 30, most recent first. A transcript is read again only from where
    /// the last scan stopped, and from the start when it shrank; one that
    /// cannot be read is skipped and forgotten; transcripts past the first 30
    /// sessions are forgotten.
    pub fn scan<S: TranscriptSource>(&mut self, source: &S, home: Option<&str>) -> (r: Vec<
        ClaudeSession,
    >)
        requires
            scanner_ok(*old(self)),
        ensures
            scanner_ok(*final(self)),
            r@.len() <= MAX_CLAUDE_SESSIONS,
            forall|i: int, j: int|
                0 <= i < j < r@.len() ==> r@[i].updated_at_ms >= r@[j].updated_at_ms,
            forall|i: int| 0 <= i < r@.len() ==> repos_ok((#[trigger] r@[i])@.repos),
            exists|files: Seq<TranscriptFile>, order: Seq<usize>, usable: Seq<bool>, states: Seq<TranscriptView>|
                source.files_answer(old(self).projects_dir@, files) && unread_failed(source, files, order, usable)
                    && recency_order(files, order) && usable.len() == order.len() && states.len() == order.len()
                    && session_views(r@) == #[trigger] scan_fold(
                    files,
                    order,
                    usable,
                    states,
                    order.len() as int,
                ),
    {
        let ghost pd = self.projects_dir@;
        self.resolver.clear();
        let files = source.transcript_files(self.projects_dir.as_str());
        let order = order_by_recency(&files);
        let mut sessions: Vec<ClaudeSession> = Vec::new();
        let mut kept: Vec<(String, TranscriptState)> = Vec::new();
        let mut n: usize = 0;
        let ghost mut usable_seen: Seq<bool> = Seq::empty();
        let ghost mut states: Seq<TranscriptView> = Seq::empty();
        while n < order.len()
            invariant
                n <= order@.len(),
                usable_seen.len() == n,
                states.len() == n,
                unread_failed(source, files@, order@, usable_seen),
                source.files_answer(pd, files@),
                session_views(sessions@) == scan_fold(files@, order@, usable_seen, states, n as int),
                order@.len() == files@.len(),
                forall|i: int| 0 <= i < order@.len() ==> order@[i] < files@.len(),
                forall|i: int, j: int|
                    0 <= i < j < order@.len() ==> recency_before(
                        files@,
                        order@[i] as int,
                        order@[j] as int,
                    ),
                scanner_ok(*self),
                forall|i: int| 0 <= i < kept@.len() ==> repos_ok((#[trigger] kept@[i]).1@.repos),
                sessions@.len() <= MAX_CLAUDE_SESSIONS,
                forall|i: int, j: int|
                    0 <= i < j < sessions@.len() ==> sessions@[i].updated_at_ms
                        >= sessions@[j].updated_at_ms,
                forall|i: int| 0 <= i < sessions@.len() ==> repos_ok((#[trigger] sessions@[i])@.repos),
                n < order@.len() ==> forall|i: int|
                    0 <= i < sessions@.len() ==> sessions@[i].updated_at_ms
                        >= files@[order@[n as int] as int].modified_ms,
            ensures
                n == order@.len() || sessions@.len() >= MAX_CLAUDE_SESSIONS,
            decreases order@.len() - n,
        {
            if sessions.len() >= MAX_CLAUDE_SESSIONS {
                break;
            }
            let file = &files[order[n]];
            let mut state = self.take_state(file.path.as_str());
            let mut usable = true;
            if state.modified_ms != Some(file.modified_ms) || state.offset != file.len {
                if file.len < state.offset {
                    state = TranscriptState::new();
                    assert(state@.repos =~= Seq::<Seq<char>>::empty());
                }
                let offset = state.offset;
                match source.read_from(file.path.as_str(), offset) {
                    Err(e) => {
                        usable = false;
                        assert(source.read_answer(files@[order@[n as int] as int].path@, offset, Err(e)));
                    },
                    Ok(bytes) => {
                        let (lines, used) = complete_lines(bytes.as_slice());
                        let mut k: usize = 0;
                        while k < lines.len()
                            invariant
                                k <= lines.len(),
                                scanner_ok(*self),
                                repos_ok(state@.repos),
                            decreases lines.len() - k,
                        {
                            if let Some(line) = transcript_line(lines[k].as_slice()) {
                                state.apply_line(&line, &mut self.resolver, source, home);
                            }
                            k = k + 1;
                        }
                        state.offset = state.offset.saturating_add(used as u64);
                        state.modified_ms = Some(file.modified_ms);
                    },
                }
            }
            let ghost prev_views = session_views(sessions@);
            let ghost st_v = state@;
            let ghost u0 = usable_seen;
            let ghost s0 = states;
            if usable {
                if let Some(session) = session_from_state(file.path.as_str(), &state, file.modified_ms) {
                    let ghost before = sessions@;
                    sessions.push(session);
                    proof {
                        assert(session_views(sessions@) =~= prev_views.push(sessions@.last()@));
                        assert forall|i: int| 0 <= i < sessions@.len() implies repos_ok(
                            (#[trigger] sessions@[i])@.repos,
                        ) by {
                            if i < before.len() {
                                assert(sessions@[i] == before[i]);
                            }
                        }
                    }
                }
                let ghost kb = kept@;
                kept.push((file.path.clone(), state));
                proof {
                    assert forall|i: int| 0 <= i < kept@.len() implies repos_ok(
                        (#[trigger] kept@[i]).1@.repos,
                    ) by {
                        if i < kb.len() {
                            assert(kept@[i] == kb[i]);
                        }
                    }
                }
            }
            proof {
                usable_seen = u0.push(usable);
                states = s0.push(st_v);
                assert forall|k: int|
                    0 <= k < usable_seen.len() && !usable_seen[k] implies exists|offset: u64, e: String|
                        #[trigger] source.read_answer(files@[order@[k] as int].path@, offset, Err(e)) by {
                    if k < u0.len() {
                        assert(usable_seen[k] == u0[k]);
                    }
                }
                lemma_scan_fold_prefix(files@, order@, u0, s0, usable_seen, states, n as int);
                assert(session_views(sessions@) == scan_fold(files@, order@, usable_seen, states, n + 1));
            }
            proof {
                if n + 1 < order@.len() {
                    assert(recency_before(files@, order@[n as int] as int, order@[n + 1] as int));
                }
            }
            n = n + 1;
        }
        proof {
            let rest = (order@.len() - n) as nat;
            let u1 = usable_seen + Seq::new(rest, |i: int| true);
            let s1 = states + Seq::new(rest, |i: int| vstd::pervasive::arbitrary::<TranscriptView>());
            lemma_scan_fold_prefix(files@, order@, usable_seen, states, u1, s1, n as int);
            if n < order@.len() {
                lemma_scan_fold_stops(files@, order@, u1, s1, n as int, order@.len() as int);
            }
            assert(recency_order(files@, order@));
            assert(session_views(sessions@) == scan_fold(files@, order@, u1, s1, order@.len() as int));
            assert forall|k: int|
                0 <= k < u1.len() && !u1[k] implies exists|offset: u64, e: String|
                    #[trigger] source.read_answer(files@[order@[k] as int].path@, offset, Err(e)) by {
                assert(k < usable_seen.len());
                assert(u1[k] == usable_seen[k]);
            }
            assert(unread_failed(source, files@, order@, u1));
        }
        self.transcripts = kept;
        sessions
    }
}

} // verus!

verus! {

/// The position of the last line feed of `b`.
pub open spec fn last_newline(b: Seq<u8>) -> Option<int>
    decreases b.len(),
{
    if b.len() == 0 {
        None
    } else if b.last() == 10u8 {
        Some(b.len() - 1)
    } else {
        last_newline(b.drop_last())
    }
}

/// The non-empty lines of `b` from byte `i` on, `cur` being the part of the
/// current line read before `i`.
pub open spec fn lines_from(b: Seq<u8>, i: int, cur: Seq<u8>) -> Seq<Seq<u8>>
    decreases b.len() - i,
{
    if i < 0 || i >= b.len() {
        if cur.len() > 0 {
            seq![cur]
        } else {
            Seq::empty()
        }
    } else if b[i] == 10u8 {
        (if cur.len() > 0 {
            seq![cur]
        } else {
            Seq::<Seq<u8>>::empty()
        }) + lines_from(b, i + 1, Seq::empty())
    } else {
        lines_from(b, i + 1, cur.push(b[i]))
    }
}

/// The complete lines of bytes read from a transcript: the non-empty lines
/// before its last line feed, and how many bytes they take with it (none
/// without a line feed).
pub open spec fn complete_lines_spec(b: Seq<u8>) -> (Seq<Seq<u8>>, int) {
    match last_newline(b) {
        None => (Seq::empty(), 0),
        Some(k) => (lines_from(b.take(k), 0, Seq::empty()), k + 1),
    }
}

/// The views of byte vectors.
pub open spec fn byte_views(v: Seq<Vec<u8>>) -> Seq<Seq<u8>> {
    v.map_values(|x: Vec<u8>| x@)
}

/// The complete lines of bytes read from a transcript (see
/// [`complete_lines_spec`]).
pub fn complete_lines(bytes: &[u8]) -> (r: (Vec<Vec<u8>>, usize))
    ensures
        (byte_views(r.0@), r.1 as int) == complete_lines_spec(bytes@),
{
    let mut end = bytes.len();
    assert(bytes@.take(end as int) =~= bytes@);
    while end > 0 && bytes[end - 1] != 10
        invariant
            end <= bytes@.len(),
            last_newline(bytes@) == last_newline(bytes@.take(end as int)),
        decreases end,
    {
        assert(bytes@.take(end as int).drop_last() =~= bytes@.take(end - 1));
        end = end - 1;
    }
    if end == 0 {
        assert(bytes@.take(0) =~= Seq::<u8>::empty());
        return (Vec::new(), 0);
    }
    let k = end - 1;
    assert(last_newline(bytes@.take(end as int)) == Some(k as int));
    let ghost b = bytes@.take(k as int);
    let mut out: Vec<Vec<u8>> = Vec::new();
    let mut cur: Vec<u8> = Vec::new();
    let mut i: usize = 0;
    while i < k
        invariant
            i <= k,
            k < bytes@.len(),
            b == bytes@.take(k as int),
            byte_views(out@) + lines_from(b, i as int, cur@) == lines_from(b, 0, Seq::empty()),
        decreases k - i,
    {
        let ghost prev = byte_views(out@);
        let byte = bytes[i];
        assert(b[i as int] == byte);
        if byte == 10 {
            if cur.len() > 0 {
                let piece = cur;
                let ghost pv = piece@;
                out.push(piece);
                assert(byte_views(out@) =~= prev.push(pv));
                assert(prev.push(pv) + lines_from(b, i + 1, Seq::empty()) =~= prev + (seq![pv]
                    + lines_from(b, i + 1, Seq::empty())));
            } else {
                assert(Seq::<Seq<u8>>::empty() + lines_from(b, i + 1, Seq::empty()) =~= lines_from(
                    b,
                    i + 1,
                    Seq::empty(),
                ));
            }
            cur = Vec::new();
            assert(cur@ =~= Seq::<u8>::empty());
        } else {
            cur.push(byte);
        }
        i = i + 1;
    }
    if cur.len() > 0 {
        let ghost prev = byte_views(out@);
        let piece = cur;
        let ghost pv = piece@;
        out.push(piece);
        assert(byte_views(out@) =~= prev.push(pv));
        assert(prev + seq![pv] =~= prev.push(pv));
    } else {
        assert(byte_views(out@) + Seq::<Seq<u8>>::empty() =~= byte_views(out@));
    }
    (out, end)
}

/// A string member of a JSON value.
pub open spec fn text_member(v: Json, key: Seq<char>) -> Option<Seq<char>> {
    raw_text(json_get(v, key))
}

/// Whether a member of a JSON value is `true`.
pub open spec fn flag_member(v: Json, key: Seq<char>) -> bool {
    json_get(v, key) == Some(Json::Bool(true))
}

/// `message.content` of a transcript line.
pub open spec fn message_content(v: Json) -> Option<Json> {
    opt_get(json_get(v, "message"@), "content"@)
}

/// The texts of the `text` blocks among `items`, in order.
pub open spec fn text_blocks(items: Seq<Json>) -> Seq<Seq<char>>
    decreases items.len(),
{
    if items.len() == 0 {
        Seq::empty()
    } else {
        let rest = text_blocks(items.drop_last());
        let item = items.last();
        if text_member(item, "type"@) == Some("text"@) && text_member(item, "text"@) is Some {
            rest.push(text_member(item, "text"@).unwrap())
        } else {
            rest
        }
    }
}

/// A tool call's string arguments as plain values.
pub type ToolView = (Option<Seq<char>>, Option<Seq<char>>, Option<Seq<char>>, Option<Seq<char>>);

/// The string arguments read from a tool call's `input`.
pub open spec fn input_view(input: Json) -> ToolView {
    (
        text_member(input, "command"@),
        text_member(input, "file_path"@),
        text_member(input, "path"@),
        text_member(input, "notebook_path"@),
    )
}

/// The inputs of the `tool_use` blocks among `items` that have one, in
/// order.
pub open spec fn tool_blocks(items: Seq<Json>) -> Seq<ToolView>
    decreases items.len(),
{
    if items.len() == 0 {
        Seq::empty()
    } else {
        let rest = tool_blocks(items.drop_last());
        let item = items.last();
        if text_member(item, "type"@) == Some("tool_use"@) && json_get(item, "input"@) is Some {
            rest.push(input_view(json_get(item, "input"@).unwrap()))
        } else {
            rest
        }
    }
}

/// A tool call's arguments as plain values.
pub open spec fn tool_view(t: ToolInput) -> ToolView {
    (
        crate::split::opt_view(t.command),
        crate::split::opt_view(t.file_path),
        crate::split::opt_view(t.path),
        crate::split::opt_view(t.notebook_path),
    )
}

/// Whether `line` is what the scanner reads of the JSON value `v`: the
/// strings `type`, `sessionId`, `cwd`, `customTitle` and `agentName`;
/// whether `isMeta` and `isSidechain` are `true`; `message.content` when it
/// is a string or a list (then the texts of its `text` blocks); and the
/// inputs of its `tool_use` blocks.
pub open spec fn line_read(line: TranscriptLine, v: Json) -> bool {
    &&& crate::split::opt_view(line.kind) == text_member(v, "type"@)
    &&& crate::split::opt_view(line.session_id) == text_member(v, "sessionId"@)
    &&& crate::split::opt_view(line.cwd) == text_member(v, "cwd"@)
    &&& crate::split::opt_view(line.custom_title) == text_member(v, "customTitle"@)
    &&& crate::split::opt_view(line.agent_name) == text_member(v, "agentName"@)
    &&& line.is_meta == flag_member(v, "isMeta"@)
    &&& line.is_sidechain == flag_member(v, "isSidechain"@)
    &&& match message_content(v) {
        Some(Json::Text(s)) => line.content matches Some(PromptContent::Text(t)) && t@ == s@,
        Some(Json::Array(items)) => line.content matches Some(PromptContent::Blocks(bs)) && string_views(bs@)
            == text_blocks(items@),
        _ => line.content is None,
    }
    &&& line.tool_inputs@.map_values(|t: ToolInput| tool_view(t)) == match message_content(v) {
        Some(Json::Array(items)) => tool_blocks(items@),
        _ => Seq::empty(),
    }
}

/// Whether a member of a JSON value is `true`.
fn flag(v: &Json, key: &str) -> (r: bool)
    ensures
        r == flag_member(*v, key@),
{
    match get(v, key) {
        Some(Json::Bool(b)) => *b,
        _ => false,
    }
}

/// A string member of a JSON value.
fn text_of(v: &Json, key: &str) -> (r: Option<String>)
    ensures
        crate::split::opt_view(r) == text_member(*v, key@),
{
    match get(v, key) {
        Some(Json::Text(s)) => Some(s.clone()),
        _ => None,
    }
}

/// What the scanner reads of one transcript line's JSON value (see
/// [`line_read`]).
pub fn line_of_json(v: &Json) -> (r: TranscriptLine)
    ensures
        line_read(r, *v),
{
    let message = get(v, "message");
    let content_value = get_opt(message, "content");
    assert(content_value matches Some(x) ==> message_content(*v) == Some(*x));
    assert(content_value is None ==> message_content(*v) is None);
    let mut content: Option<PromptContent> = None;
    let mut tool_inputs: Vec<ToolInput> = Vec::new();
    match content_value {
        Some(Json::Text(s)) => {
            content = Some(PromptContent::Text(s.clone()));
        },
        Some(Json::Array(items)) => {
            let mut texts: Vec<String> = Vec::new();
            let mut i: usize = 0;
            assert(items@.take(0) =~= Seq::<Json>::empty());
            assert(tool_inputs@.map_values(|t: ToolInput| tool_view(t)) =~= Seq::<ToolView>::empty());
            while i < items.len()
                invariant
                    i <= items@.len(),
                    string_views(texts@) == text_blocks(items@.take(i as int)),
                    tool_inputs@.map_values(|t: ToolInput| tool_view(t)) == tool_blocks(items@.take(i as int)),
                decreases items@.len() - i,
            {
                let item = &items[i];
                assert(items@.take(i + 1).drop_last() =~= items@.take(i as int));
                assert(items@.take(i + 1).last() == *item);
                let kind = text_of(item, "type");
                let is_text = match &kind {
                    Some(k) => crate::text::eq_str(k.as_str(), "text"),
                    None => false,
                };
                let is_tool = match &kind {
                    Some(k) => crate::text::eq_str(k.as_str(), "tool_use"),
                    None => false,
                };
                proof {
                    reveal_strlit("text");
                    reveal_strlit("tool_use");
                }
                if is_text {
                    if let Some(t) = text_of(item, "text") {
                        let ghost prev = texts@;
                        texts.push(t);
                        assert(string_views(texts@) =~= string_views(prev).push(texts@.last()@));
                    }
                }
                if is_tool {
                    if let Some(input) = get(item, "input") {
                        let ghost prev = tool_inputs@;
                        let t = ToolInput {
                            command: text_of(input, "command"),
                            file_path: text_of(input, "file_path"),
                            path: text_of(input, "path"),
                            notebook_path: text_of(input, "notebook_path"),
                        };
                        tool_inputs.push(t);
                        assert(tool_inputs@.map_values(|t: ToolInput| tool_view(t)) =~= prev.map_values(
                            |t: ToolInput| tool_view(t),
                        ).push(input_view(*input)));
                    }
                }
                i = i + 1;
            }
            assert(items@.take(items@.len() as int) =~= items@);
            content = Some(PromptContent::Blocks(texts));
        },
        _ => {
            assert(tool_inputs@.map_values(|t: ToolInput| tool_view(t)) =~= Seq::<ToolView>::empty());
        },
    }
    assert(match message_content(*v) {
        Some(Json::Text(s)) => content matches Some(PromptContent::Text(t)) && t@ == s@,
        Some(Json::Array(items)) => content matches Some(PromptContent::Blocks(bs)) && string_views(bs@)
            == text_blocks(items@),
        _ => content is None,
    });
    assert(tool_inputs@.map_values(|t: ToolInput| tool_view(t)) == match message_content(*v) {
        Some(Json::Array(items)) => tool_blocks(items@),
        _ => Seq::empty(),
    });
    TranscriptLine {
        kind: text_of(v, "type"),
        session_id: text_of(v, "sessionId"),
        cwd: text_of(v, "cwd"),
        custom_title: text_of(v, "customTitle"),
        agent_name: text_of(v, "agentName"),
        is_meta: flag(v, "isMeta"),
        is_sidechain: flag(v, "isSidechain"),
        content,
        tool_inputs,
    }
}

/// One transcript line's bytes read: none when they are not JSON, else what
/// the scanner reads of the value.
pub fn transcript_line(line: &[u8]) -> (r: Option<TranscriptLine>)
    ensures
        match json_of_bytes(line@) {
            None => r is None,
            Some(v) => r matches Some(t) && line_read(t, v),
        },
{
    match parse_json_bytes(line) {
        Some(v) => Some(line_of_json(&v)),
        None => None,
    }
}

} // verus!
