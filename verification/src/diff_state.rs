//! The state of the diff view: the changed repositories as a tree of rows,
//! what is selected and folded, the open file diff, and what each key, click
//! and worker answer does to them.

use vstd::prelude::*;

use crate::ansi::AnsiLine;
use crate::diff::{FileChange, Mode, RepoDiff};
use crate::diff_ui::{Action, Effects, External, Job, Source};
use crate::jira_state::{
    contains, holds, holds_text, min_int, rect_contains, sat_add, sat_sub, toggled, visible_scroll, KeyCode, KeyPress,
    MouseInput, MouseKind, Notice, DOUBLE_CLICK_MS, NOTICE_TTL_MS, WHEEL_STEP,
};
use crate::right_panel::Rect;
use crate::text::{chars_of, eq_str, string_of};

verus! {

/// A clickable area: a row of the tree, or a button.
#[derive(Debug, Clone, Copy, PartialEq, Eq, Structural)]
pub enum Hit {
    Row(usize),
    Button(Action),
}

/// A row of the tree: a repository, or a file of one.
#[derive(Debug, Clone, Copy, PartialEq, Eq, Structural)]
pub enum Row {
    Repo(usize),
    File(usize, usize),
}

/// What is selected: a repository by its root, or a file by its root and
/// path.
#[derive(Debug, Clone, PartialEq, Eq)]
pub enum Selection {
    Repo(String),
    File(String, String),
}

/// A selection as plain values.
pub enum SelectionView {
    Repo(Seq<char>),
    File(Seq<char>, Seq<char>),
}

/// The view of a selection.
pub open spec fn selection_view(s: Selection) -> SelectionView {
    match s {
        Selection::Repo(root) => SelectionView::Repo(root@),
        Selection::File(root, path) => SelectionView::File(root@, path@),
    }
}

/// The view of an optional selection.
pub open spec fn opt_selection_view(s: Option<Selection>) -> Option<SelectionView> {
    match s {
        Some(x) => Some(selection_view(x)),
        None => None,
    }
}

/// The diff of one file as shown: its lines once loaded, or the error.
#[derive(Debug)]
pub struct FileView {
    pub root: String,
    pub path: String,
    pub lines: Option<Vec<AnsiLine>>,
    pub error: Option<String>,
    pub scroll: usize,
    /// The width the diff was asked for.
    pub width: u16,
}

/// The main view: the tree, or the diff of a file.
#[derive(Debug)]
pub enum ViewState {
    Tree,
    File(FileView),
}

/// What the worker answers.
#[derive(Debug)]
pub enum Outcome {
    Loaded { mode: Mode, repos: Vec<RepoDiff>, source: Source },
    FileDiff { root: String, path: String, width: u16, result: Result<Vec<AnsiLine>, String> },
    Notice(String),
    EditHere { path: String, line: u32 },
    Failed(String),
}

/// The diff view.
#[derive(Debug)]
pub struct DiffState {
    pub mode: Mode,
    pub repos: Vec<RepoDiff>,
    pub source: Option<Source>,
    pub rows: Vec<Row>,
    /// The roots of the folded repositories.
    pub collapsed: Vec<String>,
    /// The roots of the repositories with changes shown before.
    pub seen: Vec<String>,
    pub selection: Option<Selection>,
    pub scroll: usize,
    pub view: ViewState,
    pub notice: Option<Notice>,
    pub loading: bool,
    /// Whether a refresh was asked for while one was running.
    pub stale: bool,
    /// The clickable areas of the last drawing, the topmost last.
    pub hits: Vec<(Rect, Hit)>,
    pub list_height: usize,
    pub body_width: u16,
    pub cwd: String,
    pub home: Option<String>,
    /// The time and target of the last click, in milliseconds.
    pub last_click: Option<(u64, Hit)>,
}

/// The first repository from `i` on whose root is `root`.
pub open spec fn repo_index_from(repos: Seq<RepoDiff>, root: Seq<char>, i: int) -> Option<int>
    decreases repos.len() - i,
{
    if i < 0 || i >= repos.len() {
        None
    } else if repos[i].root@ == root {
        Some(i)
    } else {
        repo_index_from(repos, root, i + 1)
    }
}

/// The first repository whose root is `root`.
pub open spec fn repo_index_spec(repos: Seq<RepoDiff>, root: Seq<char>) -> Option<int> {
    repo_index_from(repos, root, 0)
}

/// The first file from `i` on whose path is `path`.
pub open spec fn file_index_from(files: Seq<FileChange>, path: Seq<char>, i: int) -> Option<int>
    decreases files.len() - i,
{
    if i < 0 || i >= files.len() {
        None
    } else if files[i].path@ == path {
        Some(i)
    } else {
        file_index_from(files, path, i + 1)
    }
}

/// The repository and file of `path` in the repository `root`.
pub open spec fn find_file_spec(repos: Seq<RepoDiff>, root: Seq<char>, path: Seq<char>) -> Option<(int, int)> {
    match repo_index_spec(repos, root) {
        Some(r) => match file_index_from(repos[r].files@, path, 0) {
            Some(f) => Some((r, f)),
            None => None,
        },
        None => None,
    }
}

/// What a row stands for, if it names a repository (and file) that exists.
pub open spec fn selection_of_spec(repos: Seq<RepoDiff>, row: Row) -> Option<SelectionView> {
    match row {
        Row::Repo(r) => if r < repos.len() {
            Some(SelectionView::Repo(repos[r as int].root@))
        } else {
            None
        },
        Row::File(r, f) => if r < repos.len() && f < repos[r as int].files@.len() {
            Some(SelectionView::File(repos[r as int].root@, repos[r as int].files@[f as int].path@))
        } else {
            None
        },
    }
}

/// The first row from `i` on that stands for `sel`.
pub open spec fn selected_from(repos: Seq<RepoDiff>, rows: Seq<Row>, sel: SelectionView, i: int) -> Option<int>
    decreases rows.len() - i,
{
    if i < 0 || i >= rows.len() {
        None
    } else if selection_of_spec(repos, rows[i]) == Some(sel) {
        Some(i)
    } else {
        selected_from(repos, rows, sel, i + 1)
    }
}

/// The row of the selection, if one stands for it.
pub open spec fn selected_row_spec(repos: Seq<RepoDiff>, rows: Seq<Row>, sel: Option<SelectionView>) -> Option<int> {
    match sel {
        Some(s) => selected_from(repos, rows, s, 0),
        None => None,
    }
}

/// The rows of repository `i`: its own, then one per file when it has
/// changes and is not folded.
pub open spec fn repo_rows(repos: Seq<RepoDiff>, collapsed: Seq<String>, i: int) -> Seq<Row> {
    seq![Row::Repo(i as usize)] + if repos[i].files@.len() > 0 && !holds(collapsed, repos[i].root@) {
        Seq::new(repos[i].files@.len(), |j: int| Row::File(i as usize, j as usize))
    } else {
        Seq::empty()
    }
}

/// The rows of the first `n` repositories.
pub open spec fn rows_upto(repos: Seq<RepoDiff>, collapsed: Seq<String>, n: int) -> Seq<Row>
    decreases n,
{
    if n <= 0 {
        Seq::empty()
    } else {
        rows_upto(repos, collapsed, n - 1) + repo_rows(repos, collapsed, n - 1)
    }
}

/// The rows of the tree.
pub open spec fn tree_rows(repos: Seq<RepoDiff>, collapsed: Seq<String>) -> Seq<Row> {
    rows_upto(repos, collapsed, repos.len() as int)
}

/// Whether one of the first `n` repositories has changes and root `root`.
pub open spec fn changed_root_before(repos: Seq<RepoDiff>, n: int, root: Seq<char>) -> bool {
    exists|i: int| 0 <= i < n && i < repos.len() && repos[i].files@.len() > 0 && #[trigger] repos[i].root@ == root
}

/// Whether some repository with changes has root `root`.
pub open spec fn changed_root(repos: Seq<RepoDiff>, root: Seq<char>) -> bool {
    changed_root_before(repos, repos.len() as int, root)
}

/// The first repository with changes from `i` on.
pub open spec fn first_changed_from(repos: Seq<RepoDiff>, i: int) -> Option<int>
    decreases repos.len() - i,
{
    if i < 0 || i >= repos.len() {
        None
    } else if repos[i].files@.len() > 0 {
        Some(i)
    } else {
        first_changed_from(repos, i + 1)
    }
}

/// Whether a repository with changes was shown before and is unfolded.
pub open spec fn any_open(repos: Seq<RepoDiff>, seen: Seq<String>, collapsed: Seq<String>) -> bool {
    exists|i: int|
        0 <= i < repos.len() && repos[i].files@.len() > 0 && holds(seen, #[trigger] repos[i].root@) && !holds(
            collapsed,
            repos[i].root@,
        )
}

/// The root that a new repository with changes may arrive unfolded with:
/// that of the first repository with changes, when no shown one is open.
pub open spec fn opened_root(repos: Seq<RepoDiff>, seen: Seq<String>, collapsed: Seq<String>) -> Option<Seq<char>> {
    if any_open(repos, seen, collapsed) {
        None
    } else {
        match first_changed_from(repos, 0) {
            Some(k) => Some(repos[k].root@),
            None => None,
        }
    }
}

/// The first file row from `i` on.
pub open spec fn first_file_row_from(rows: Seq<Row>, i: int) -> Option<int>
    decreases rows.len() - i,
{
    if i < 0 || i >= rows.len() {
        None
    } else if rows[i] is File {
        Some(i)
    } else {
        first_file_row_from(rows, i + 1)
    }
}

/// The selection after the rows changed: kept when a row stands for it;
/// else the repository of a selected file when it still exists; else the
/// first file; else the first row; else none.
pub open spec fn fallback_selection(repos: Seq<RepoDiff>, rows: Seq<Row>, sel: Option<SelectionView>) -> Option<
    SelectionView,
> {
    let first_row = if rows.len() > 0 {
        selection_of_spec(repos, rows[0])
    } else {
        None
    };
    if selected_row_spec(repos, rows, sel) is Some {
        sel
    } else {
        match sel {
            Some(SelectionView::File(root, _)) if repo_index_spec(repos, root) is Some => Some(
                SelectionView::Repo(root),
            ),
            _ => match first_file_row_from(rows, 0) {
                Some(i) => match selection_of_spec(repos, rows[i]) {
                    Some(s) => Some(s),
                    None => first_row,
                },
                None => first_row,
            },
        }
    }
}

/// What rebuilding the rows does: repositories with changes shown for the
/// first time start folded, but the first one when no shown one is open;
/// the rows list each repository, and the files of the unfolded ones with
/// changes; the selection falls back (see `fallback_selection`) and the
/// tree scrolls to it.
pub open spec fn rebuilt(before: DiffState, after: DiffState) -> bool {
    &&& forall|t: Seq<char>|
        #![all_triggers]
        holds(after.seen@, t) <==> holds(before.seen@, t) || changed_root(before.repos@, t)
    &&& forall|t: Seq<char>|
        #![all_triggers]
        holds(after.collapsed@, t) <==> holds(before.collapsed@, t) || (changed_root(before.repos@, t) && !holds(
            before.seen@,
            t,
        ) && opened_root(before.repos@, before.seen@, before.collapsed@) != Some(t))
    &&& after.rows@ == tree_rows(before.repos@, after.collapsed@)
    &&& opt_selection_view(after.selection) == fallback_selection(
        before.repos@,
        after.rows@,
        opt_selection_view(before.selection),
    )
    &&& after.scroll == visible_scroll(
        after.rows@.len() as int,
        selected_row_spec(before.repos@, after.rows@, opt_selection_view(after.selection)),
        before.scroll as int,
        before.list_height as int,
    )
    &&& after == (DiffState {
        rows: after.rows,
        collapsed: after.collapsed,
        seen: after.seen,
        selection: after.selection,
        scroll: after.scroll,
        ..before
    })
}

/// What selecting row `index` does: nothing when there is no such row or it
/// stands for nothing; else the row is selected and shown.
pub open spec fn row_chosen(before: DiffState, after: DiffState, index: usize) -> bool {
    if index < before.rows@.len() && selection_of_spec(before.repos@, before.rows@[index as int]) is Some {
        &&& opt_selection_view(after.selection) == selection_of_spec(before.repos@, before.rows@[index as int])
        &&& after.scroll == visible_scroll(
            before.rows@.len() as int,
            selected_row_spec(before.repos@, before.rows@, opt_selection_view(after.selection)),
            before.scroll as int,
            before.list_height as int,
        )
        &&& after == (DiffState { selection: after.selection, scroll: after.scroll, ..before })
    } else {
        after == before
    }
}

} // verus!

verus! {

/// A copy of a file change.
pub fn copy_change(c: &FileChange) -> (r: FileChange)
    ensures
        r == *c,
{
    FileChange {
        path: c.path.clone(),
        old_path: match &c.old_path {
            Some(p) => Some(p.clone()),
            None => None,
        },
        status: c.status,
        adds: c.adds,
        dels: c.dels,
        binary: c.binary,
    }
}

/// A copy of a selection.
fn copy_selection(s: &Selection) -> (r: Selection)
    ensures
        r == *s,
{
    match s {
        Selection::Repo(root) => Selection::Repo(root.clone()),
        Selection::File(root, path) => Selection::File(root.clone(), path.clone()),
    }
}

/// The file that the diff view points at: the open one, else the selected
/// one.
pub open spec fn focused_file_spec(s: DiffState) -> Option<(int, int)> {
    match s.view {
        ViewState::File(v) => find_file_spec(s.repos@, v.root@, v.path@),
        ViewState::Tree => match s.selection {
            Some(Selection::File(root, path)) => find_file_spec(s.repos@, root@, path@),
            _ => None,
        },
    }
}

/// The repository that the diff view points at: that of the open file, else
/// that of the selection.
pub open spec fn focused_root_spec(s: DiffState) -> Option<String> {
    match s.view {
        ViewState::File(v) => Some(v.root),
        ViewState::Tree => match s.selection {
            Some(Selection::Repo(root)) => Some(root),
            Some(Selection::File(root, _)) => Some(root),
            None => None,
        },
    }
}

proof fn lemma_repo_index_from(repos: Seq<RepoDiff>, root: Seq<char>, i: int)
    requires
        0 <= i,
    ensures
        repo_index_from(repos, root, i) matches Some(k) ==> i <= k < repos.len() && repos[k].root@ == root,
    decreases repos.len() - i,
{
    if i < repos.len() && repos[i].root@ != root {
        lemma_repo_index_from(repos, root, i + 1);
    }
}

proof fn lemma_file_index_from(files: Seq<FileChange>, path: Seq<char>, i: int)
    requires
        0 <= i,
    ensures
        file_index_from(files, path, i) matches Some(k) ==> i <= k < files.len() && files[k].path@ == path,
    decreases files.len() - i,
{
    if i < files.len() && files[i].path@ != path {
        lemma_file_index_from(files, path, i + 1);
    }
}

proof fn lemma_selected_from(repos: Seq<RepoDiff>, rows: Seq<Row>, sel: SelectionView, i: int)
    requires
        0 <= i,
    ensures
        selected_from(repos, rows, sel, i) matches Some(k) ==> i <= k < rows.len() && selection_of_spec(
            repos,
            rows[k],
        ) == Some(sel),
    decreases rows.len() - i,
{
    if i < rows.len() && selection_of_spec(repos, rows[i]) != Some(sel) {
        lemma_selected_from(repos, rows, sel, i + 1);
    }
}

/// The position of the first repository whose root is `root`.
fn repo_index_of(repos: &Vec<RepoDiff>, root: &str) -> (r: Option<usize>)
    ensures
        r matches Some(k) ==> repo_index_spec(repos@, root@) == Some(k as int) && k < repos@.len()
            && repos@[k as int].root@ == root@,
        r is None ==> repo_index_spec(repos@, root@) is None,
{
    proof {
        lemma_repo_index_from(repos@, root@, 0);
    }
    let mut i: usize = 0;
    while i < repos.len()
        invariant
            i <= repos@.len(),
            repo_index_from(repos@, root@, 0) == repo_index_from(repos@, root@, i as int),
        decreases repos@.len() - i,
    {
        if eq_str(repos[i].root.as_str(), root) {
            return Some(i);
        }
        i = i + 1;
    }
    None
}

/// The position of the first file whose path is `path`.
fn file_index_of(files: &Vec<FileChange>, path: &str) -> (r: Option<usize>)
    ensures
        r matches Some(k) ==> file_index_from(files@, path@, 0) == Some(k as int) && k < files@.len()
            && files@[k as int].path@ == path@,
        r is None ==> file_index_from(files@, path@, 0) is None,
{
    proof {
        lemma_file_index_from(files@, path@, 0);
    }
    let mut i: usize = 0;
    while i < files.len()
        invariant
            i <= files@.len(),
            file_index_from(files@, path@, 0) == file_index_from(files@, path@, i as int),
        decreases files@.len() - i,
    {
        if eq_str(files[i].path.as_str(), path) {
            return Some(i);
        }
        i = i + 1;
    }
    None
}

impl DiffState {
    /// A view with nothing loaded, comparing with the pull request's base.
    pub fn new(cwd: String, home: Option<String>) -> (r: DiffState)
        ensures
            r.mode == Mode::Pr,
            r.repos@.len() == 0,
            r.source is None,
            r.rows@.len() == 0,
            r.collapsed@.len() == 0,
            r.seen@.len() == 0,
            r.selection is None,
            r.scroll == 0,
            r.view is Tree,
            r.notice is None,
            !r.loading,
            !r.stale,
            r.hits@.len() == 0,
            r.list_height == 10,
            r.body_width == 80,
            r.cwd == cwd,
            r.home == home,
            r.last_click is None,
    {
        DiffState {
            mode: Mode::Pr,
            repos: Vec::new(),
            source: None,
            rows: Vec::new(),
            collapsed: Vec::new(),
            seen: Vec::new(),
            selection: None,
            scroll: 0,
            view: ViewState::Tree,
            notice: None,
            loading: false,
            stale: false,
            hits: Vec::new(),
            list_height: 10,
            body_width: 80,
            cwd,
            home,
            last_click: None,
        }
    }

    /// Starts loading the repositories unless a load is running; then the
    /// running one is marked stale instead.
    pub fn start_refresh(&mut self) -> (r: Option<Job>)
        ensures
            old(self).loading ==> r is None && *final(self) == (DiffState { stale: true, ..*old(self) }),
            !old(self).loading ==> r == Some(Job::Refresh { mode: old(self).mode }) && *final(self) == (DiffState {
                loading: true,
                stale: false,
                ..*old(self)
            }),
    {
        if self.loading {
            self.stale = true;
            return None;
        }
        self.loading = true;
        self.stale = false;
        Some(Job::Refresh { mode: self.mode })
    }

    /// Shows a notice from `now` on.
    pub fn notify(&mut self, text: String, error: bool, now: u64)
        ensures
            *final(self) == (DiffState { notice: Some(Notice { text: text, error: error, at: now }), ..*old(self) }),
    {
        self.notice = Some(Notice { text, error, at: now });
    }

    /// The position of the repository `root`.
    pub fn repo_index(&self, root: &str) -> (r: Option<usize>)
        ensures
            r matches Some(k) ==> repo_index_spec(self.repos@, root@) == Some(k as int) && k < self.repos@.len(),
            r is None ==> repo_index_spec(self.repos@, root@) is None,
    {
        repo_index_of(&self.repos, root)
    }

    /// The repository and file positions of `path` in the repository `root`.
    pub fn find_file(&self, root: &str, path: &str) -> (r: Option<(usize, usize)>)
        ensures
            r matches Some((a, b)) ==> find_file_spec(self.repos@, root@, path@) == Some((a as int, b as int)) && a
                < self.repos@.len() && b < self.repos@[a as int].files@.len(),
            r is None ==> find_file_spec(self.repos@, root@, path@) is None,
    {
        let repo = match repo_index_of(&self.repos, root) {
            Some(k) => k,
            None => return None,
        };
        match file_index_of(&self.repos[repo].files, path) {
            Some(f) => Some((repo, f)),
            None => None,
        }
    }

    /// File `file` of repository `repo`.
    pub fn file(&self, repo: usize, file: usize) -> (r: Option<&FileChange>)
        ensures
            r == (if repo < self.repos@.len() && file < self.repos@[repo as int].files@.len() {
                Some(&self.repos@[repo as int].files@[file as int])
            } else {
                None
            }),
    {
        if repo < self.repos.len() && file < self.repos[repo].files.len() {
            Some(&self.repos[repo].files[file])
        } else {
            None
        }
    }

    /// What row `row` stands for.
    pub fn selection_of(&self, row: Row) -> (r: Option<Selection>)
        ensures
            opt_selection_view(r) == selection_of_spec(self.repos@, row),
    {
        match row {
            Row::Repo(r) => if r < self.repos.len() {
                Some(Selection::Repo(self.repos[r].root.clone()))
            } else {
                None
            },
            Row::File(r, f) => if r < self.repos.len() && f < self.repos[r].files.len() {
                Some(Selection::File(self.repos[r].root.clone(), self.repos[r].files[f].path.clone()))
            } else {
                None
            },
        }
    }

    /// Whether row `row` stands for `sel`.
    fn names(&self, row: Row, sel: &Selection) -> (r: bool)
        ensures
            r == (selection_of_spec(self.repos@, row) == Some(selection_view(*sel))),
    {
        match (row, sel) {
            (Row::Repo(r), Selection::Repo(root)) => r < self.repos.len() && eq_str(
                self.repos[r].root.as_str(),
                root.as_str(),
            ),
            (Row::File(r, f), Selection::File(root, path)) => r < self.repos.len() && f < self.repos[r].files.len()
                && eq_str(self.repos[r].root.as_str(), root.as_str()) && eq_str(
                self.repos[r].files[f].path.as_str(),
                path.as_str(),
            ),
            _ => false,
        }
    }

    /// The row of the selection.
    pub fn selected_row(&self) -> (r: Option<usize>)
        ensures
            r matches Some(k) ==> selected_row_spec(self.repos@, self.rows@, opt_selection_view(self.selection))
                == Some(k as int) && k < self.rows@.len(),
            r is None ==> selected_row_spec(self.repos@, self.rows@, opt_selection_view(self.selection)) is None,
    {
        let sel = match &self.selection {
            Some(s) => s,
            None => return None,
        };
        proof {
            lemma_selected_from(self.repos@, self.rows@, selection_view(*sel), 0);
        }
        let mut i: usize = 0;
        while i < self.rows.len()
            invariant
                i <= self.rows@.len(),
                self.selection == Some(*sel),
                selected_from(self.repos@, self.rows@, selection_view(*sel), 0) == selected_from(
                    self.repos@,
                    self.rows@,
                    selection_view(*sel),
                    i as int,
                ),
            decreases self.rows@.len() - i,
        {
            if self.names(self.rows[i], sel) {
                return Some(i);
            }
            i = i + 1;
        }
        None
    }

    /// The repository the view points at (see `focused_root_spec`).
    pub fn focused_root(&self) -> (r: Option<String>)
        ensures
            r == focused_root_spec(*self),
    {
        match &self.view {
            ViewState::File(v) => Some(v.root.clone()),
            ViewState::Tree => match &self.selection {
                Some(Selection::Repo(root)) => Some(root.clone()),
                Some(Selection::File(root, _)) => Some(root.clone()),
                None => None,
            },
        }
    }

    /// The file the view points at (see `focused_file_spec`).
    pub fn focused_file(&self) -> (r: Option<(usize, usize)>)
        ensures
            r matches Some((a, b)) ==> focused_file_spec(*self) == Some((a as int, b as int)) && a
                < self.repos@.len() && b < self.repos@[a as int].files@.len(),
            r is None ==> focused_file_spec(*self) is None,
    {
        match &self.view {
            ViewState::File(v) => self.find_file(v.root.as_str(), v.path.as_str()),
            ViewState::Tree => match &self.selection {
                Some(Selection::File(root, path)) => self.find_file(root.as_str(), path.as_str()),
                _ => None,
            },
        }
    }

    /// Whether the repository `root` is folded.
    pub fn is_collapsed(&self, root: &str) -> (r: bool)
        ensures
            r == holds(self.collapsed@, root@),
    {
        holds_text(&self.collapsed, root)
    }

    /// Scrolls the tree just enough to show the selected row.
    pub fn ensure_visible(&mut self)
        ensures
            final(self).scroll == visible_scroll(
                old(self).rows@.len() as int,
                selected_row_spec(old(self).repos@, old(self).rows@, opt_selection_view(old(self).selection)),
                old(self).scroll as int,
                old(self).list_height as int,
            ),
            *final(self) == (DiffState { scroll: final(self).scroll, ..*old(self) }),
    {
        let height = if self.list_height < 1 {
            1
        } else {
            self.list_height
        };
        let mut scroll = self.scroll;
        if let Some(row) = self.selected_row() {
            if row < scroll {
                scroll = row;
            } else if row - scroll >= height {
                scroll = row - (height - 1);
            }
        }
        let max = if self.rows.len() > height {
            self.rows.len() - height
        } else {
            0
        };
        if scroll > max {
            scroll = max;
        }
        self.scroll = scroll;
    }

    /// Selects row `index`, if it stands for something, and shows it.
    pub fn select_row(&mut self, index: usize)
        ensures
            row_chosen(*old(self), *final(self), index),
    {
        if index >= self.rows.len() {
            return;
        }
        let sel = self.selection_of(self.rows[index]);
        match sel {
            Some(s) => {
                self.selection = Some(s);
                self.ensure_visible();
            },
            None => {},
        }
    }
}

} // verus!

verus! {

/// A list with one more string holds what it held and that string.
pub proof fn lemma_holds_push(list: Seq<String>, x: String, t: Seq<char>)
    ensures
        holds(list.push(x), t) <==> holds(list, t) || x@ == t,
{
    let l2 = list.push(x);
    if holds(l2, t) {
        let j = choose|j: int| 0 <= j < l2.len() && l2[j]@ == t;
        if j < list.len() {
            assert(list[j]@ == t);
        }
    }
    if holds(list, t) {
        let j = choose|j: int| 0 <= j < list.len() && list[j]@ == t;
        assert(l2[j]@ == t);
    }
    if x@ == t {
        assert(l2[list.len() as int]@ == t);
    }
}

/// The first repository with changes.
fn first_changed(repos: &Vec<RepoDiff>) -> (r: Option<usize>)
    ensures
        r matches Some(k) ==> first_changed_from(repos@, 0) == Some(k as int) && k < repos@.len()
            && repos@[k as int].files@.len() > 0,
        r is None ==> first_changed_from(repos@, 0) is None,
        r is None ==> forall|j: int| 0 <= j < repos@.len() ==> (#[trigger] repos@[j]).files@.len() == 0,
{
    let mut i: usize = 0;
    while i < repos.len()
        invariant
            i <= repos@.len(),
            first_changed_from(repos@, 0) == first_changed_from(repos@, i as int),
            forall|j: int| 0 <= j < i ==> (#[trigger] repos@[j]).files@.len() == 0,
        decreases repos@.len() - i,
    {
        if repos[i].files.len() > 0 {
            return Some(i);
        }
        i = i + 1;
    }
    None
}

/// Whether a repository with changes was shown before and is unfolded.
fn any_open_of(repos: &Vec<RepoDiff>, seen: &Vec<String>, collapsed: &Vec<String>) -> (r: bool)
    ensures
        r == any_open(repos@, seen@, collapsed@),
{
    let mut i: usize = 0;
    while i < repos.len()
        invariant
            i <= repos@.len(),
            forall|j: int|
                0 <= j < i ==> !((#[trigger] repos@[j]).files@.len() > 0 && holds(seen@, repos@[j].root@)
                    && !holds(collapsed@, repos@[j].root@)),
        decreases repos@.len() - i,
    {
        let root = repos[i].root.as_str();
        if repos[i].files.len() > 0 && holds_text(seen, root) && !holds_text(collapsed, root) {
            assert(repos@[i as int].root@ == root@);
            return true;
        }
        i = i + 1;
    }
    false
}

} // verus!

verus! {

proof fn lemma_changed_before_step(repos: Seq<RepoDiff>, i: int, t: Seq<char>)
    requires
        0 <= i < repos.len(),
    ensures
        changed_root_before(repos, i + 1, t) <==> changed_root_before(repos, i, t) || (repos[i].files@.len() > 0
            && repos[i].root@ == t),
{
    if changed_root_before(repos, i + 1, t) {
        let j = choose|j: int| 0 <= j < i + 1 && j < repos.len() && repos[j].files@.len() > 0 && #[trigger] repos[j].root@ == t;
        if j < i {
            assert(changed_root_before(repos, i, t));
        }
    }
    if changed_root_before(repos, i, t) {
        let j = choose|j: int| 0 <= j < i && j < repos.len() && repos[j].files@.len() > 0 && #[trigger] repos[j].root@ == t;
        assert(changed_root_before(repos, i + 1, t));
    }
    if repos[i].files@.len() > 0 && repos[i].root@ == t {
        assert(changed_root_before(repos, i + 1, t));
    }
}

proof fn lemma_first_changed_from(repos: Seq<RepoDiff>, i: int)
    requires
        0 <= i,
    ensures
        first_changed_from(repos, i) matches Some(k) ==> i <= k < repos.len() && repos[k].files@.len() > 0
            && forall|j: int| i <= j < k ==> (#[trigger] repos[j]).files@.len() == 0,
        first_changed_from(repos, i) is None ==> forall|j: int|
            i <= j < repos.len() ==> (#[trigger] repos[j]).files@.len() == 0,
    decreases repos.len() - i,
{
    if i < repos.len() && repos[i].files@.len() == 0 {
        lemma_first_changed_from(repos, i + 1);
    }
}

/// Marks the repositories with changes shown for the first time as seen, and
/// folds them, but the one that may arrive open (see `opened_root`).
fn mark_new(repos: &Vec<RepoDiff>, seen: &mut Vec<String>, collapsed: &mut Vec<String>)
    ensures
        forall|t: Seq<char>|
            #![all_triggers]
            holds(final(seen)@, t) <==> holds(old(seen)@, t) || changed_root(repos@, t),
        forall|t: Seq<char>|
            #![all_triggers]
            holds(final(collapsed)@, t) <==> holds(old(collapsed)@, t) || (changed_root(repos@, t) && !holds(
                old(seen)@,
                t,
            ) && opened_root(repos@, old(seen)@, old(collapsed)@) != Some(t)),
{
    let open = any_open_of(repos, seen, collapsed);
    let first = first_changed(repos);
    let ghost seen0 = seen@;
    let ghost coll0 = collapsed@;
    let ghost opened = opened_root(repos@, seen0, coll0);
    proof {
        lemma_first_changed_from(repos@, 0);
    }
    let mut i: usize = 0;
    while i < repos.len()
        invariant
            i <= repos@.len(),
            open == any_open(repos@, seen0, coll0),
            first matches Some(k) ==> first_changed_from(repos@, 0) == Some(k as int) && k < repos@.len(),
            first is None ==> first_changed_from(repos@, 0) is None,
            first_changed_from(repos@, 0) matches Some(k) ==> 0 <= k < repos@.len() && repos@[k].files@.len() > 0
                && forall|j: int| 0 <= j < k ==> (#[trigger] repos@[j]).files@.len() == 0,
            first_changed_from(repos@, 0) is None ==> forall|j: int|
                0 <= j < repos@.len() ==> (#[trigger] repos@[j]).files@.len() == 0,
            opened == opened_root(repos@, seen0, coll0),
            forall|t: Seq<char>| holds(seen@, t) <==> holds(seen0, t) || changed_root_before(repos@, i as int, t),
            forall|t: Seq<char>|
                holds(collapsed@, t) <==> holds(coll0, t) || (changed_root_before(repos@, i as int, t) && !holds(
                    seen0,
                    t,
                ) && opened != Some(t)),
        decreases repos@.len() - i,
    {
        let ghost seen_i = seen@;
        let ghost coll_i = collapsed@;
        let ghost r = repos@[i as int].root@;
        let root = repos[i].root.as_str();
        let fresh = repos[i].files.len() > 0 && !holds_text(seen, root);
        if fresh {
            seen.push(repos[i].root.clone());
            let fold = open || match first {
                Some(k) => k != i,
                None => true,
            };
            if fold {
                collapsed.push(repos[i].root.clone());
            }
            proof {
                assert(root@ == r);
                assert(!holds(seen_i, r));
                assert(!changed_root_before(repos@, i as int, r));
                assert(!holds(seen0, r));
                match first_changed_from(repos@, 0) {
                    Some(k) => {
                        assert(k <= i);
                        if k < i && !open {
                            assert(changed_root_before(repos@, i as int, repos@[k].root@));
                            assert(holds(seen_i, repos@[k].root@));
                            assert(repos@[k].root@ != r);
                        }
                        assert(fold == (opened != Some(r)));
                    },
                    None => {
                        assert(repos@[i as int].files@.len() == 0);
                    },
                }
                assert forall|t: Seq<char>| holds(seen@, t) <==> holds(seen0, t) || changed_root_before(repos@, i + 1, t) by {
                    lemma_holds_push(seen_i, repos@[i as int].root, t);
                    lemma_changed_before_step(repos@, i as int, t);
                }
                assert forall|t: Seq<char>|
                    holds(collapsed@, t) <==> holds(coll0, t) || (changed_root_before(repos@, i + 1, t) && !holds(
                        seen0,
                        t,
                    ) && opened != Some(t)) by {
                    if fold {
                        lemma_holds_push(coll_i, repos@[i as int].root, t);
                    }
                    lemma_changed_before_step(repos@, i as int, t);
                }
            }
        } else {
            proof {
                assert(root@ == r);
                assert(repos@[i as int].files@.len() > 0 ==> holds(seen_i, r));
                assert forall|t: Seq<char>| holds(seen@, t) <==> holds(seen0, t) || changed_root_before(repos@, i + 1, t) by {
                    lemma_changed_before_step(repos@, i as int, t);
                }
                assert forall|t: Seq<char>|
                    holds(collapsed@, t) <==> holds(coll0, t) || (changed_root_before(repos@, i + 1, t) && !holds(
                        seen0,
                        t,
                    ) && opened != Some(t)) by {
                    lemma_changed_before_step(repos@, i as int, t);
                }
            }
        }
        assert(forall|t: Seq<char>| holds(seen@, t) <==> holds(seen0, t) || changed_root_before(repos@, i + 1, t));
        i = i + 1;
    }
}

} // verus!

verus! {

/// The rows of the tree for the given folds (see `tree_rows`).
fn tree_rows_of(repos: &Vec<RepoDiff>, collapsed: &Vec<String>) -> (rows: Vec<Row>)
    ensures
        rows@ == tree_rows(repos@, collapsed@),
{
    let mut rows: Vec<Row> = Vec::new();
    let mut i: usize = 0;
    while i < repos.len()
        invariant
            i <= repos@.len(),
            rows@ == rows_upto(repos@, collapsed@, i as int),
        decreases repos@.len() - i,
    {
        let ghost before = rows@;
        rows.push(Row::Repo(i));
        let open = repos[i].files.len() > 0 && !holds_text(collapsed, repos[i].root.as_str());
        if open {
            let n = repos[i].files.len();
            let mut j: usize = 0;
            while j < n
                invariant
                    j <= n,
                    rows@ == before + seq![Row::Repo(i)] + Seq::new(j as nat, |k: int| Row::File(i, k as usize)),
                decreases n - j,
            {
                rows.push(Row::File(i, j));
                assert(Seq::new((j + 1) as nat, |k: int| Row::File(i, k as usize)) =~= Seq::new(
                    j as nat,
                    |k: int| Row::File(i, k as usize),
                ).push(Row::File(i, j)));
                j = j + 1;
            }
            assert(rows@ =~= rows_upto(repos@, collapsed@, i + 1));
        } else {
            assert(rows@ =~= rows_upto(repos@, collapsed@, i + 1));
        }
        i = i + 1;
    }
    rows
}

/// The first file row.
fn first_file_row(rows: &Vec<Row>) -> (r: Option<usize>)
    ensures
        r matches Some(k) ==> first_file_row_from(rows@, 0) == Some(k as int) && k < rows@.len(),
        r is None ==> first_file_row_from(rows@, 0) is None,
{
    let mut i: usize = 0;
    while i < rows.len()
        invariant
            i <= rows@.len(),
            first_file_row_from(rows@, 0) == first_file_row_from(rows@, i as int),
        decreases rows@.len() - i,
    {
        match rows[i] {
            Row::File(..) => {
                return Some(i);
            },
            Row::Repo(_) => {},
        }
        i = i + 1;
    }
    None
}

impl DiffState {
    /// Builds the rows again (see `rebuilt`).
    pub fn rebuild_rows(&mut self)
        ensures
            rebuilt(*old(self), *final(self)),
    {
        let ghost before = *self;
        mark_new(&self.repos, &mut self.seen, &mut self.collapsed);
        let rows = tree_rows_of(&self.repos, &self.collapsed);
        self.rows = rows;
        let ghost mid = *self;
        assert(mid == (DiffState { rows: mid.rows, collapsed: mid.collapsed, seen: mid.seen, ..before }));
        if self.selected_row().is_none() {
            let parent: Option<Selection> = match &self.selection {
                Some(Selection::File(root, _)) => match self.repo_index(root.as_str()) {
                    Some(_) => Some(Selection::Repo(root.clone())),
                    None => None,
                },
                _ => None,
            };
            match parent {
                Some(p) => {
                    self.selection = Some(p);
                },
                None => {
                    let by_file = match first_file_row(&self.rows) {
                        Some(i) => self.selection_of(self.rows[i]),
                        None => None,
                    };
                    let chosen = match by_file {
                        Some(s) => Some(s),
                        None => if self.rows.len() > 0 {
                            self.selection_of(self.rows[0])
                        } else {
                            None
                        },
                    };
                    self.selection = chosen;
                },
            }
        }
        assert(opt_selection_view(self.selection) == fallback_selection(
            before.repos@,
            self.rows@,
            opt_selection_view(before.selection),
        ));
        let ghost pre = *self;
        self.ensure_visible();
        assert(*self == (DiffState { scroll: self.scroll, ..pre }));
    }
}

} // verus!

verus! {

proof fn lemma_rows_upto_len(repos: Seq<RepoDiff>, collapsed: Seq<String>, n: int)
    requires
        0 <= n,
    ensures
        rows_upto(repos, collapsed, n).len() >= n,
    decreases n,
{
    if n > 0 {
        lemma_rows_upto_len(repos, collapsed, n - 1);
    }
}

/// Every row of the first `n` repositories stands for something.
proof fn lemma_rows_valid(repos: Seq<RepoDiff>, collapsed: Seq<String>, n: int)
    requires
        0 <= n <= repos.len(),
        repos.len() <= usize::MAX,
    ensures
        forall|k: int|
            0 <= k < rows_upto(repos, collapsed, n).len() ==> selection_of_spec(
                repos,
                #[trigger] rows_upto(repos, collapsed, n)[k],
            ) is Some,
    decreases n,
{
    if n > 0 {
        lemma_rows_valid(repos, collapsed, n - 1);
        let prev = rows_upto(repos, collapsed, n - 1);
        let own = repo_rows(repos, collapsed, n - 1);
        assert forall|k: int| 0 <= k < rows_upto(repos, collapsed, n).len() implies selection_of_spec(
            repos,
            #[trigger] rows_upto(repos, collapsed, n)[k],
        ) is Some by {
            if k >= prev.len() {
                assert(repos[n - 1].files@.len() == repos[n - 1].files.len());
                assert(rows_upto(repos, collapsed, n)[k] == own[k - prev.len()]);
            } else {
                assert(rows_upto(repos, collapsed, n)[k] == prev[k]);
            }
        }
    }
}

/// The row of each of the first `n` repositories is among their rows.
proof fn lemma_repo_row_present(repos: Seq<RepoDiff>, collapsed: Seq<String>, n: int, r: int)
    requires
        0 <= r < n <= repos.len(),
        repos.len() <= usize::MAX,
    ensures
        exists|k: int|
            0 <= k < rows_upto(repos, collapsed, n).len() && #[trigger] rows_upto(repos, collapsed, n)[k]
                == Row::Repo(r as usize),
    decreases n,
{
    let prev = rows_upto(repos, collapsed, n - 1);
    if r < n - 1 {
        lemma_repo_row_present(repos, collapsed, n - 1, r);
        let k = choose|k: int| 0 <= k < prev.len() && #[trigger] prev[k] == Row::Repo(r as usize);
        assert(rows_upto(repos, collapsed, n)[k] == Row::Repo(r as usize));
    } else {
        assert(rows_upto(repos, collapsed, n)[prev.len() as int] == Row::Repo(r as usize));
    }
}

/// A selection that row `i` stands for is found from any `j <= i` on.
proof fn lemma_selected_reaches(repos: Seq<RepoDiff>, rows: Seq<Row>, sel: SelectionView, i: int, j: int)
    requires
        0 <= j <= i < rows.len(),
        selection_of_spec(repos, rows[i]) == Some(sel),
    ensures
        selected_from(repos, rows, sel, j) is Some,
    decreases i - j,
{
    if j < i && selection_of_spec(repos, rows[j]) != Some(sel) {
        lemma_selected_reaches(repos, rows, sel, i, j + 1);
    }
}

proof fn lemma_first_file_row_from(rows: Seq<Row>, i: int)
    requires
        0 <= i,
    ensures
        first_file_row_from(rows, i) matches Some(k) ==> i <= k < rows.len(),
    decreases rows.len() - i,
{
    if i < rows.len() && !(rows[i] is File) {
        lemma_first_file_row_from(rows, i + 1);
    }
}

/// After the rows are rebuilt, the selection stands for one of them
/// whenever there is any row.
pub proof fn diff_selection_names_a_row(before: DiffState, after: DiffState)
    requires
        rebuilt(before, after),
        after.rows@.len() > 0,
    ensures
        selected_row_spec(before.repos@, after.rows@, opt_selection_view(after.selection)) is Some,
{
    let repos = before.repos@;
    let rows = after.rows@;
    let sel = opt_selection_view(before.selection);
    assert(repos.len() == before.repos.len());
    lemma_rows_valid(repos, after.collapsed@, repos.len() as int);
    assert(rows == rows_upto(repos, after.collapsed@, repos.len() as int));
    if selected_row_spec(repos, rows, sel) is Some {
        return;
    }
    match sel {
        Some(SelectionView::File(root, _)) => {
            if repo_index_spec(repos, root) is Some {
                lemma_repo_index_from(repos, root, 0);
                let r = repo_index_spec(repos, root)->0;
                lemma_repo_row_present(repos, after.collapsed@, repos.len() as int, r);
                let k = choose|k: int| 0 <= k < rows.len() && #[trigger] rows[k] == Row::Repo(r as usize);
                lemma_selected_reaches(repos, rows, SelectionView::Repo(root), k, 0);
                return;
            }
        },
        _ => {},
    }
    lemma_first_file_row_from(rows, 0);
    match first_file_row_from(rows, 0) {
        Some(i) => {
            let s = selection_of_spec(repos, rows[i])->0;
            lemma_selected_reaches(repos, rows, s, i, 0);
        },
        None => {
            let s = selection_of_spec(repos, rows[0])->0;
            lemma_selected_reaches(repos, rows, s, 0, 0);
        },
    }
}

} // verus!

verus! {

/// The other mode.
pub open spec fn other_mode(m: Mode) -> Mode {
    match m {
        Mode::Pr => Mode::Uncommitted,
        Mode::Uncommitted => Mode::Pr,
    }
}

/// The mode's name on screen.
pub open spec fn mode_label(m: Mode) -> Seq<char> {
    match m {
        Mode::Pr => "PR"@,
        Mode::Uncommitted => "não commitado"@,
    }
}

/// The job that loads the diff of `path` in the repository `root`, at the
/// width of the body.
pub open spec fn file_job_spec(s: DiffState, root: Seq<char>, path: Seq<char>) -> Option<Job> {
    match find_file_spec(s.repos@, root, path) {
        Some((a, b)) => Some(
            Job::FileDiff {
                root: s.repos@[a].root,
                base_rev: s.repos@[a].base_rev,
                file: s.repos@[a].files@[b],
                width: s.body_width,
            },
        ),
        None => None,
    }
}

/// The jobs of an optional job.
pub open spec fn jobs_of(j: Option<Job>) -> Seq<Job> {
    match j {
        Some(x) => seq![x],
        None => Seq::empty(),
    }
}

/// Whether an event asks for nothing.
pub open spec fn no_effects(r: Effects) -> bool {
    r.jobs@.len() == 0 && !r.quit && r.external is None
}

/// What folding or unfolding the repository `root` does: the fold flips,
/// the repository is selected, and the rows are rebuilt.
pub open spec fn repo_toggled(before: DiffState, after: DiffState, root: Seq<char>) -> bool {
    exists|mid: DiffState|
        toggled(before.collapsed@, mid.collapsed@, root) && opt_selection_view(mid.selection) == Some(
            SelectionView::Repo(root),
        ) && mid == (DiffState { collapsed: mid.collapsed, selection: mid.selection, ..before }) && rebuilt(
            mid,
            after,
        )
}

/// What opening file `file` of repository `repo` does: nothing when there is
/// no such file; else the file is selected and shown, its lines yet to come,
/// and its diff is asked for.
pub open spec fn file_opened(before: DiffState, after: DiffState, r: Effects, repo: usize, file: usize) -> bool {
    if repo < before.repos@.len() && file < before.repos@[repo as int].files@.len() {
        let root = before.repos@[repo as int].root;
        let path = before.repos@[repo as int].files@[file as int].path;
        &&& after.selection == Some(Selection::File(root, path))
        &&& after.view matches ViewState::File(v) && v.root == root && v.path == path && v.lines is None
            && v.error is None && v.scroll == 0 && v.width == before.body_width
        &&& r.jobs@ == jobs_of(file_job_spec(before, root@, path@))
        &&& !r.quit
        &&& r.external is None
        &&& after == (DiffState { selection: after.selection, view: after.view, ..before })
    } else {
        after == before && no_effects(r)
    }
}

impl DiffState {
    /// Folds the repository `root`, or unfolds it when folded; selects it and
    /// rebuilds the rows.
    pub fn toggle_repo(&mut self, root: &str)
        ensures
            repo_toggled(*old(self), *final(self), root@),
    {
        if holds_text(&self.collapsed, root) {
            let kept = crate::jira_state::without_text(&self.collapsed, root);
            self.collapsed = kept;
        } else {
            let ghost before = self.collapsed@;
            self.collapsed.push(string_of(chars_of(root).as_slice()));
            proof {
                assert forall|t: Seq<char>| holds(self.collapsed@, t) <==> holds(before, t) || t == root@ by {
                    lemma_holds_push(before, self.collapsed@.last(), t);
                    assert(self.collapsed@ == before.push(self.collapsed@.last()));
                }
            }
        }
        self.selection = Some(Selection::Repo(string_of(chars_of(root).as_slice())));
        let ghost mid = *self;
        self.rebuild_rows();
        assert(rebuilt(mid, *self));
    }

    /// The job that loads the diff of `path` in the repository `root`.
    pub fn file_job(&self, root: &str, path: &str) -> (r: Option<Job>)
        ensures
            r == file_job_spec(*self, root@, path@),
    {
        match self.find_file(root, path) {
            Some((a, b)) => {
                let owner = &self.repos[a];
                Some(
                    Job::FileDiff {
                        root: owner.root.clone(),
                        base_rev: owner.base_rev.clone(),
                        file: copy_change(&owner.files[b]),
                        width: self.body_width,
                    },
                )
            },
            None => None,
        }
    }

    /// Opens file `file` of repository `repo` (see `file_opened`).
    pub fn open_file(&mut self, repo: usize, file: usize) -> (r: Effects)
        ensures
            file_opened(*old(self), *final(self), r, repo, file),
    {
        if repo >= self.repos.len() || file >= self.repos[repo].files.len() {
            return Effects::none();
        }
        let root = self.repos[repo].root.clone();
        let path = self.repos[repo].files[file].path.clone();
        let job = self.file_job(root.as_str(), path.as_str());
        self.selection = Some(Selection::File(root.clone(), path.clone()));
        self.view = ViewState::File(
            FileView { root, path, lines: None, error: None, scroll: 0, width: self.body_width },
        );
        let mut jobs: Vec<Job> = Vec::new();
        match job {
            Some(j) => jobs.push(j),
            None => {},
        }
        assert(jobs@ =~= jobs_of(job));
        Effects { jobs, quit: false, external: None }
    }
}

} // verus!

verus! {

/// The files of the first `n` repositories in order, as repository and file
/// positions.
pub open spec fn pairs_upto(repos: Seq<RepoDiff>, n: int) -> Seq<(usize, usize)>
    decreases n,
{
    if n <= 0 {
        Seq::empty()
    } else {
        pairs_upto(repos, n - 1) + Seq::new(repos[n - 1].files@.len(), |j: int| ((n - 1) as usize, j as usize))
    }
}

/// The first position of `p` from `i` on.
pub open spec fn pair_index_from(all: Seq<(usize, usize)>, p: (usize, usize), i: int) -> Option<int>
    decreases all.len() - i,
{
    if i < 0 || i >= all.len() {
        None
    } else if all[i] == p {
        Some(i)
    } else {
        pair_index_from(all, p, i + 1)
    }
}

/// Where stepping to the next (or previous) file lands, from the position of
/// the focused file: one further, kept within the files; the first file when
/// none is focused.
pub open spec fn step_target(len: int, current: Option<int>, forward: bool) -> int {
    match current {
        Some(i) => if forward {
            if i + 1 < len {
                i + 1
            } else {
                len - 1
            }
        } else if i > 0 {
            i - 1
        } else {
            0
        },
        None => 0,
    }
}

/// The position of the focused file among all files.
pub open spec fn focused_position(s: DiffState) -> Option<int> {
    match focused_file_spec(s) {
        Some((a, b)) => pair_index_from(pairs_upto(s.repos@, s.repos@.len() as int), (a as usize, b as usize), 0),
        None => None,
    }
}

/// What stepping to the next (or previous) file does: nothing when there is
/// no file or the step stays where it is; else the target's repository is
/// unfolded, the target opened (see `file_opened`), and the rows rebuilt.
pub open spec fn stepped(before: DiffState, after: DiffState, r: Effects, forward: bool) -> bool {
    let all = pairs_upto(before.repos@, before.repos@.len() as int);
    let current = focused_position(before);
    let next = step_target(all.len() as int, current, forward);
    if all.len() == 0 || current == Some(next) {
        after == before && no_effects(r)
    } else {
        let target = all[next];
        exists|mid1: DiffState, mid2: DiffState|
            (forall|t: Seq<char>|
                #![all_triggers]
                holds(mid1.collapsed@, t) <==> holds(before.collapsed@, t) && t != before.repos@[target.0 as int].root@)
                && mid1 == (DiffState { collapsed: mid1.collapsed, ..before }) && file_opened(
                mid1,
                mid2,
                r,
                target.0,
                target.1,
            ) && rebuilt(mid2, after)
    }
}

/// The position of `p` among `all`.
fn pair_position(all: &Vec<(usize, usize)>, p: (usize, usize)) -> (r: Option<usize>)
    ensures
        r matches Some(k) ==> pair_index_from(all@, p, 0) == Some(k as int) && k < all@.len(),
        r is None ==> pair_index_from(all@, p, 0) is None,
{
    let mut i: usize = 0;
    while i < all.len()
        invariant
            i <= all@.len(),
            pair_index_from(all@, p, 0) == pair_index_from(all@, p, i as int),
        decreases all@.len() - i,
    {
        let q = all[i];
        if q.0 == p.0 && q.1 == p.1 {
            return Some(i);
        }
        i = i + 1;
    }
    None
}

impl DiffState {
    /// Opens the next file, or the previous one (see `stepped`).
    pub fn step_file(&mut self, forward: bool) -> (r: Effects)
        ensures
            stepped(*old(self), *final(self), r, forward),
    {
        let mut all: Vec<(usize, usize)> = Vec::new();
        let mut i: usize = 0;
        while i < self.repos.len()
            invariant
                i <= self.repos@.len(),
                all@ == pairs_upto(self.repos@, i as int),
                forall|k: int|
                    0 <= k < all@.len() ==> (#[trigger] all@[k]).0 < i && all@[k].1 < self.repos@[all@[k].0 as int].files@.len(),
            decreases self.repos@.len() - i,
        {
            let n = self.repos[i].files.len();
            let ghost head = all@;
            let mut j: usize = 0;
            while j < n
                invariant
                    j <= n,
                    n == self.repos@[i as int].files@.len(),
                    i < self.repos@.len(),
                    all@ == head + Seq::new(j as nat, |k: int| (i, k as usize)),
                    forall|k: int|
                        0 <= k < all@.len() ==> (#[trigger] all@[k]).0 <= i && all@[k].1 < self.repos@[all@[k].0 as int].files@.len(),
                decreases n - j,
            {
                all.push((i, j));
                assert(Seq::new((j + 1) as nat, |k: int| (i, k as usize)) =~= Seq::new(j as nat, |k: int| (i, k as usize)).push((i, j)));
                j = j + 1;
            }
            assert(all@ =~= pairs_upto(self.repos@, i + 1));
            i = i + 1;
        }
        if all.len() == 0 {
            return Effects::none();
        }
        let current: Option<usize> = match self.focused_file() {
            Some(p) => pair_position(&all, p),
            None => None,
        };
        let next: usize = match current {
            Some(k) => if forward {
                if k + 1 < all.len() {
                    k + 1
                } else {
                    all.len() - 1
                }
            } else if k > 0 {
                k - 1
            } else {
                0
            },
            None => 0,
        };
        let same = match current {
            Some(k) => k == next,
            None => false,
        };
        if same {
            return Effects::none();
        }
        let (repo, file) = all[next];
        let ghost before = *self;
        let root = self.repos[repo].root.clone();
        let kept = crate::jira_state::without_text(&self.collapsed, root.as_str());
        self.collapsed = kept;
        let ghost mid1 = *self;
        let effects = self.open_file(repo, file);
        let ghost mid2 = *self;
        self.rebuild_rows();
        assert(file_opened(mid1, mid2, effects, repo, file));
        assert(rebuilt(mid2, *self));
        effects
    }
}

} // verus!

verus! {

/// What starting a refresh does (see `DiffState::start_refresh`), with the
/// jobs it asks for.
pub open spec fn refresh_started(before: DiffState, after: DiffState, jobs: Seq<Job>) -> bool {
    if before.loading {
        jobs.len() == 0 && after == (DiffState { stale: true, ..before })
    } else {
        jobs == seq![Job::Refresh { mode: before.mode }] && after == (DiffState {
            loading: true,
            stale: false,
            ..before
        })
    }
}

/// Whether `after` is `before` with a notice of `text` shown from `now` on.
pub open spec fn noticed(before: DiffState, after: DiffState, text: Seq<char>, error: bool, now: u64) -> bool {
    &&& after.notice matches Some(n) && n.text@ == text && n.error == error && n.at == now
    &&& after == (DiffState { notice: after.notice, ..before })
}

/// The tree shown again, scrolled to the selection.
pub open spec fn back_to_tree(before: DiffState) -> DiffState {
    DiffState {
        view: ViewState::Tree,
        scroll: visible_scroll(
            before.rows@.len() as int,
            selected_row_spec(before.repos@, before.rows@, opt_selection_view(before.selection)),
            before.scroll as int,
            before.list_height as int,
        ) as usize,
        ..before
    }
}

/// What an action does. Quit asks to quit; refresh starts a refresh; mode
/// switches the mode, says so and refreshes; back shows the tree; next and
/// previous step through the files; open folds or unfolds the selected
/// repository (one with changes) or opens the selected file; edit asks to
/// edit the focused file unless it was deleted (and says why not); lazygit
/// runs `lazygit` in the focused repository.
pub open spec fn acted(before: DiffState, after: DiffState, r: Effects, action: Action, now: u64) -> bool {
    match action {
        Action::Quit => r.quit && r.jobs@.len() == 0 && r.external is None && after == before,
        Action::Refresh => !r.quit && r.external is None && refresh_started(before, after, r.jobs@),
        Action::Mode => !r.quit && r.external is None && exists|mid: DiffState|
            noticed(
                DiffState { mode: other_mode(before.mode), ..before },
                mid,
                "modo "@ + mode_label(other_mode(before.mode)),
                false,
                now,
            ) && refresh_started(mid, after, r.jobs@),
        Action::Back => no_effects(r) && after == back_to_tree(before),
        Action::Next => stepped(before, after, r, true),
        Action::Previous => stepped(before, after, r, false),
        Action::Open => match selected_row_spec(before.repos@, before.rows@, opt_selection_view(before.selection)) {
            Some(k) => match before.rows@[k] {
                Row::Repo(repo) => no_effects(r) && if before.repos@[repo as int].files@.len() > 0 {
                    repo_toggled(before, after, before.repos@[repo as int].root@)
                } else {
                    after == before
                },
                Row::File(repo, file) => file_opened(before, after, r, repo, file),
            },
            None => no_effects(r) && after == before,
        },
        Action::Edit => match focused_file_spec(before) {
            None => no_effects(r) && noticed(before, after, "selecione um arquivo"@, true, now),
            Some((a, b)) => {
                let change = before.repos@[a].files@[b];
                if change.status == 'D' {
                    no_effects(r) && noticed(before, after, change.path@ + " foi removido"@, true, now)
                } else {
                    &&& r.jobs@ == seq![
                        Job::Edit { root: before.repos@[a].root, base_rev: before.repos@[a].base_rev, file: change },
                    ]
                    &&& !r.quit
                    &&& r.external is None
                    &&& after == before
                }
            },
        },
        Action::Lazygit => match focused_root_spec(before) {
            Some(root) => {
                &&& r.jobs@.len() == 0
                &&& !r.quit
                &&& r.external matches Some(e) && e.program@ == "lazygit"@ && e.args@.len() == 0 && e.dir == root
                &&& after == before
            },
            None => no_effects(r) && noticed(before, after, "nenhum repositório selecionado"@, true, now),
        },
    }
}

/// The jobs of an optional job, as a vector.
fn jobs_vec(j: Option<Job>) -> (r: Vec<Job>)
    ensures
        r@ == jobs_of(j),
{
    let mut v: Vec<Job> = Vec::new();
    match j {
        Some(x) => v.push(x),
        None => {},
    }
    assert(v@ =~= jobs_of(j));
    v
}

/// A string of a literal.
fn lit(s: &str) -> (r: String)
    ensures
        r@ == s@,
{
    string_of(chars_of(s).as_slice())
}

impl DiffState {
    /// Does an action (see `acted`).
    pub fn action(&mut self, action: Action, now: u64) -> (r: Effects)
        ensures
            acted(*old(self), *final(self), r, action, now),
    {
        let ghost before = *self;
        match action {
            Action::Quit => Effects { jobs: Vec::new(), quit: true, external: None },
            Action::Refresh => {
                let j = self.start_refresh();
                let jobs = jobs_vec(j);
                Effects { jobs, quit: false, external: None }
            },
            Action::Mode => {
                self.mode = self.mode.toggled();
                let mut text = chars_of("modo ");
                crate::text::extend_chars(&mut text, chars_of(self.mode.label()).as_slice());
                let ghost toggled_state = *self;
                assert(toggled_state == (DiffState { mode: other_mode(before.mode), ..before }));
                self.notify(string_of(text.as_slice()), false, now);
                let ghost mid = *self;
                assert(noticed(toggled_state, mid, "modo "@ + mode_label(other_mode(before.mode)), false, now));
                let j = self.start_refresh();
                let jobs = jobs_vec(j);
                assert(refresh_started(mid, *self, jobs@));
                let r = Effects { jobs, quit: false, external: None };
                assert(noticed(
                    DiffState { mode: other_mode(before.mode), ..before },
                    mid,
                    "modo "@ + mode_label(other_mode(before.mode)),
                    false,
                    now,
                ) && refresh_started(mid, *self, r.jobs@));
                r
            },
            Action::Back => {
                self.view = ViewState::Tree;
                self.ensure_visible();
                Effects::none()
            },
            Action::Next => self.step_file(true),
            Action::Previous => self.step_file(false),
            Action::Open => {
                match self.selected_row() {
                    Some(k) => {
                        proof {
                            lemma_selected_from(
                                self.repos@,
                                self.rows@,
                                opt_selection_view(self.selection)->0,
                                0,
                            );
                        }
                        match self.rows[k] {
                            Row::Repo(repo) => {
                                if self.repos[repo].files.len() > 0 {
                                    let root = self.repos[repo].root.clone();
                                    self.toggle_repo(root.as_str());
                                }
                                Effects::none()
                            },
                            Row::File(repo, file) => self.open_file(repo, file),
                        }
                    },
                    None => Effects::none(),
                }
            },
            Action::Edit => {
                match self.focused_file() {
                    None => {
                        self.notify(lit("selecione um arquivo"), true, now);
                        Effects::none()
                    },
                    Some((a, b)) => {
                        let change = copy_change(&self.repos[a].files[b]);
                        if change.status == 'D' {
                            let mut text = chars_of(change.path.as_str());
                            crate::text::extend_chars(&mut text, chars_of(" foi removido").as_slice());
                            self.notify(string_of(text.as_slice()), true, now);
                            Effects::none()
                        } else {
                            let mut jobs: Vec<Job> = Vec::new();
                            jobs.push(
                                Job::Edit {
                                    root: self.repos[a].root.clone(),
                                    base_rev: self.repos[a].base_rev.clone(),
                                    file: change,
                                },
                            );
                            Effects { jobs, quit: false, external: None }
                        }
                    },
                }
            },
            Action::Lazygit => {
                match self.focused_root() {
                    Some(root) => {
                        let e = External { program: lit("lazygit"), args: Vec::new(), dir: root };
                        Effects { jobs: Vec::new(), quit: false, external: Some(e) }
                    },
                    None => {
                        self.notify(lit("nenhum repositório selecionado"), true, now);
                        Effects::none()
                    },
                }
            },
        }
    }

    /// What a program run outside the view leaves: its error shown, and a
    /// refresh.
    pub fn after_external(&mut self, ended: Result<(), String>, now: u64) -> (r: Effects)
        ensures
            !r.quit,
            r.external is None,
            ended is Ok ==> refresh_started(*old(self), *final(self), r.jobs@),
            ended matches Err(e) ==> exists|mid: DiffState|
                noticed(*old(self), mid, e@, true, now) && refresh_started(mid, *final(self), r.jobs@),
    {
        let ghost before = *self;
        match ended {
            Ok(_) => {
                assert(ended is Ok);
                assert(!(ended matches Err(e)));
                assert(before == *old(self));
                let j = self.start_refresh();
                let jobs = jobs_vec(j);
                assert(refresh_started(before, *self, jobs@));
                let r = Effects { jobs, quit: false, external: None };
                assert(refresh_started(*old(self), *self, r.jobs@));
                r
            },
            Err(e) => {
                let ghost text = e@;
                self.notify(e, true, now);
                let ghost mid = *self;
                assert(noticed(before, mid, text, true, now));
                let j = self.start_refresh();
                let jobs = jobs_vec(j);
                assert(refresh_started(mid, *self, jobs@));
                let r = Effects { jobs, quit: false, external: None };
                assert(noticed(*old(self), mid, text, true, now) && refresh_started(mid, *self, r.jobs@));
                assert(ended matches Err(x) && x@ == text);
                r
            },
        }
    }
}

} // verus!

verus! {

/// The repositories with changes among the first `n`, in order.
pub open spec fn with_changes(repos: Seq<RepoDiff>, n: int) -> Seq<RepoDiff>
    decreases n,
{
    if n <= 0 {
        Seq::empty()
    } else if repos[n - 1].files@.len() > 0 {
        with_changes(repos, n - 1).push(repos[n - 1])
    } else {
        with_changes(repos, n - 1)
    }
}

/// The repositories without changes among the first `n`, in order.
pub open spec fn without_changes(repos: Seq<RepoDiff>, n: int) -> Seq<RepoDiff>
    decreases n,
{
    if n <= 0 {
        Seq::empty()
    } else if repos[n - 1].files@.len() == 0 {
        without_changes(repos, n - 1).push(repos[n - 1])
    } else {
        without_changes(repos, n - 1)
    }
}

/// The repositories with changes first, each group in its order.
pub open spec fn changed_first(repos: Seq<RepoDiff>) -> Seq<RepoDiff> {
    with_changes(repos, repos.len() as int) + without_changes(repos, repos.len() as int)
}

/// What loaded repositories do once the rows are rebuilt: the open file's
/// diff is asked for again, or, when its file has no changes any more, the
/// tree comes back with a notice.
pub open spec fn reloaded(shown: DiffState, after: DiffState, r: Effects, now: u64) -> bool {
    match shown.view {
        ViewState::File(v) => match file_job_spec(shown, v.root@, v.path@) {
            Some(j) => r.jobs@ == seq![j] && after == shown,
            None => r.jobs@.len() == 0 && noticed(
                DiffState { view: ViewState::Tree, ..shown },
                after,
                v.path@ + " não tem mais mudanças"@,
                false,
                now,
            ),
        },
        ViewState::Tree => r.jobs@.len() == 0 && after == shown,
    }
}

/// What a worker answer does. Loaded repositories end the load; when the
/// view went stale or the mode changed meanwhile they are dropped and a new
/// load starts; else they are kept with changes first, the rows rebuilt and
/// the open diff reloaded (see `reloaded`). A file diff fills the open view
/// of that file. Notices and failures are shown. An edit that the panel
/// could not open runs `micro` at the line, in the file's directory.
pub open spec fn applied(before: DiffState, after: DiffState, r: Effects, outcome: Outcome, now: u64) -> bool {
    match outcome {
        Outcome::Loaded { mode, repos, source } => {
            let idle = DiffState { loading: false, ..before };
            &&& !r.quit
            &&& r.external is None
            &&& if before.stale || mode != before.mode {
                refresh_started(idle, after, r.jobs@)
            } else {
                exists|loaded: DiffState, shown: DiffState|
                    loaded.repos@ == changed_first(repos@) && loaded == (DiffState {
                        repos: loaded.repos,
                        source: Some(source),
                        ..idle
                    }) && rebuilt(loaded, shown) && reloaded(shown, after, r, now)
            }
        },
        Outcome::FileDiff { root, path, width: _, result } => no_effects(r) && match before.view {
            ViewState::File(v) => if v.root@ == root@ && v.path@ == path@ {
                match result {
                    Ok(lines) => after == (DiffState {
                        view: ViewState::File(FileView { lines: Some(lines), error: None, ..v }),
                        ..before
                    }),
                    Err(e) => after == (DiffState {
                        view: ViewState::File(FileView { error: Some(e), ..v }),
                        ..before
                    }),
                }
            } else {
                after == before
            },
            ViewState::Tree => after == before,
        },
        Outcome::Notice(t) => no_effects(r) && noticed(before, after, t@, false, now),
        Outcome::Failed(t) => no_effects(r) && noticed(before, after, t@, true, now),
        Outcome::EditHere { path, line } => {
            &&& r.jobs@.len() == 0
            &&& !r.quit
            &&& after == before
            &&& r.external matches Some(e) && e.program@ == "micro"@ && e.args@.len() == 2 && e.args@[0]@ == "+"@
                + crate::text::decimal_spec(line as nat) && e.args@[1] == path && e.dir@ == match crate::right_panel::parent_spec(
                path@,
            ) {
                Some(d) => d,
                None => before.cwd@,
            }
        },
    }
}

/// The repositories with changes first (see `changed_first`).
fn sort_changed_first(repos: Vec<RepoDiff>) -> (r: Vec<RepoDiff>)
    ensures
        r@ == changed_first(repos@),
{
    let ghost given = repos@;
    assert(given.len() == repos.len());
    let mut rest = repos;
    let mut changed: Vec<RepoDiff> = Vec::new();
    let mut clean: Vec<RepoDiff> = Vec::new();
    let mut i: usize = 0;
    while rest.len() > 0
        invariant
            i + rest@.len() == given.len(),
            given.len() <= usize::MAX,
            rest@ == given.skip(i as int),
            changed@ == with_changes(given, i as int),
            clean@ == without_changes(given, i as int),
        decreases rest@.len(),
    {
        let repo = rest.remove(0);
        assert(repo == given[i as int]);
        if repo.files.len() > 0 {
            changed.push(repo);
        } else {
            clean.push(repo);
        }
        i = i + 1;
        assert(rest@ =~= given.skip(i as int));
    }
    let ghost c = changed@;
    changed.append(&mut clean);
    changed
}

impl DiffState {
    /// Takes a worker answer (see `applied`).
    pub fn apply(&mut self, outcome: Outcome, now: u64) -> (r: Effects)
        ensures
            applied(*old(self), *final(self), r, outcome, now),
    {
        let ghost before = *self;
        match outcome {
            Outcome::Loaded { mode, repos, source } => {
                self.loading = false;
                if self.stale || mode != self.mode {
                    let j = self.start_refresh();
                    let jobs = jobs_vec(j);
                    return Effects { jobs, quit: false, external: None };
                }
                let sorted = sort_changed_first(repos);
                self.repos = sorted;
                self.source = Some(source);
                let ghost loaded = *self;
                self.rebuild_rows();
                let ghost shown = *self;
                let mut jobs: Vec<Job> = Vec::new();
                let target: Option<(String, String)> = match &self.view {
                    ViewState::File(v) => Some((v.root.clone(), v.path.clone())),
                    ViewState::Tree => None,
                };
                match target {
                    Some((root, path)) => match self.file_job(root.as_str(), path.as_str()) {
                        Some(j) => jobs.push(j),
                        None => {
                            self.view = ViewState::Tree;
                            let mut text = chars_of(path.as_str());
                            crate::text::extend_chars(&mut text, chars_of(" não tem mais mudanças").as_slice());
                            self.notify(string_of(text.as_slice()), false, now);
                        },
                    },
                    None => {},
                }
                let r = Effects { jobs, quit: false, external: None };
                assert(rebuilt(loaded, shown) && reloaded(shown, *self, r, now));
                r
            },
            Outcome::FileDiff { root, path, width: _, result } => {
                let same = match &self.view {
                    ViewState::File(v) => eq_str(v.root.as_str(), root.as_str()) && eq_str(
                        v.path.as_str(),
                        path.as_str(),
                    ),
                    ViewState::Tree => false,
                };
                if same {
                    let mut taken = ViewState::Tree;
                    std::mem::swap(&mut taken, &mut self.view);
                    match taken {
                        ViewState::File(v) => {
                            let FileView { root: vr, path: vp, lines, error, scroll, width } = v;
                            match result {
                                Ok(loaded) => {
                                    self.view = ViewState::File(
                                        FileView { root: vr, path: vp, lines: Some(loaded), error: None, scroll, width },
                                    );
                                },
                                Err(e) => {
                                    self.view = ViewState::File(
                                        FileView { root: vr, path: vp, lines, error: Some(e), scroll, width },
                                    );
                                },
                            }
                        },
                        ViewState::Tree => {},
                    }
                }
                Effects::none()
            },
            Outcome::Notice(t) => {
                self.notify(t, false, now);
                Effects::none()
            },
            Outcome::Failed(t) => {
                self.notify(t, true, now);
                Effects::none()
            },
            Outcome::EditHere { path, line } => {
                let mut plus = chars_of("+");
                crate::text::extend_chars(&mut plus, crate::text::decimal(line as u64).as_slice());
                let dir = match crate::right_panel::parent_path(chars_of(path.as_str()).as_slice()) {
                    Some(d) => string_of(d.as_slice()),
                    None => self.cwd.clone(),
                };
                let mut args: Vec<String> = Vec::new();
                args.push(string_of(plus.as_slice()));
                args.push(path);
                Effects {
                    jobs: Vec::new(),
                    quit: false,
                    external: Some(External { program: lit("micro"), args, dir }),
                }
            },
        }
    }
}

} // verus!

verus! {

/// The action of a key in both views.
pub open spec fn diff_key_action(code: KeyCode) -> Option<Action> {
    match code {
        KeyCode::Char('b') => Some(Action::Mode),
        KeyCode::Char('r') => Some(Action::Refresh),
        KeyCode::Char('e') => Some(Action::Edit),
        KeyCode::Char('g') => Some(Action::Lazygit),
        KeyCode::Char('n') => Some(Action::Next),
        KeyCode::Char('p') => Some(Action::Previous),
        _ => None,
    }
}

/// Whether a key leaves the file view.
pub open spec fn is_back_key(code: KeyCode) -> bool {
    code == KeyCode::Esc || code == KeyCode::Char('q') || code == KeyCode::Backspace || code == KeyCode::Left
        || code == KeyCode::Char('h')
}

/// Whether a key opens the selected row of the tree.
pub open spec fn is_open_key(code: KeyCode) -> bool {
    code == KeyCode::Enter || code == KeyCode::Right || code == KeyCode::Char(' ') || code == KeyCode::Char('l')
}

/// The page height: that of the list, at least one.
pub open spec fn page(list_height: usize) -> int {
    if list_height < 1 {
        1
    } else {
        list_height as int
    }
}

/// Where a key scrolls the file view to, if it scrolls it.
pub open spec fn file_scroll(scroll: int, height: int, code: KeyCode) -> Option<int> {
    match code {
        KeyCode::Down | KeyCode::Char('j') => Some(sat_add(scroll, 1)),
        KeyCode::Up | KeyCode::Char('k') => Some(sat_sub(scroll, 1)),
        KeyCode::PageDown | KeyCode::Char(' ') => Some(sat_add(scroll, height)),
        KeyCode::PageUp => Some(sat_sub(scroll, height)),
        KeyCode::Home => Some(0),
        KeyCode::End | KeyCode::Char('G') => Some(usize::MAX as int),
        _ => None,
    }
}

/// The row a key moves the tree's selection to, if it moves it: a row down
/// or up, a page down or up (kept within the rows), the first or the last;
/// from no selection, the first row.
pub open spec fn tree_target(before: DiffState, code: KeyCode) -> Option<int> {
    let current = selected_row_spec(before.repos@, before.rows@, opt_selection_view(before.selection));
    let last = sat_sub(before.rows@.len() as int, 1);
    let h = page(before.list_height);
    match code {
        KeyCode::Down | KeyCode::Char('j') => Some(
            match current {
                Some(row) => min_int(row + 1, last),
                None => 0,
            },
        ),
        KeyCode::Up | KeyCode::Char('k') => Some(
            match current {
                Some(row) => sat_sub(row, 1),
                None => 0,
            },
        ),
        KeyCode::PageDown => Some(
            match current {
                Some(row) => min_int(sat_add(row, h), last),
                None => 0,
            },
        ),
        KeyCode::PageUp => Some(
            match current {
                Some(row) => sat_sub(row, h),
                None => 0,
            },
        ),
        KeyCode::Home => Some(0),
        KeyCode::End | KeyCode::Char('G') => Some(last),
        _ => None,
    }
}

/// What left (or `h`) does in the tree: on a file it folds its repository;
/// on an unfolded repository with changes it folds it.
pub open spec fn folded_left(before: DiffState, after: DiffState) -> bool {
    match selected_row_spec(before.repos@, before.rows@, opt_selection_view(before.selection)) {
        Some(k) => match before.rows@[k] {
            Row::File(repo, _) => repo_toggled(before, after, before.repos@[repo as int].root@),
            Row::Repo(repo) => if before.repos@[repo as int].files@.len() > 0 && !holds(
                before.collapsed@,
                before.repos@[repo as int].root@,
            ) {
                repo_toggled(before, after, before.repos@[repo as int].root@)
            } else {
                after == before
            },
        },
        None => after == before,
    }
}

/// What a key does. `b`, `r`, `e`, `g`, `n`, `p` are actions in both
/// views. In the file view the back keys go back to the tree and the others
/// scroll the diff; in the tree `q` quits, the open keys open the selected
/// row, the moving keys move the selection, and left folds.
pub open spec fn key_handled(before: DiffState, after: DiffState, r: Effects, key: KeyPress, now: u64) -> bool {
    match diff_key_action(key.code) {
        Some(a) => acted(before, after, r, a, now),
        None => match before.view {
            ViewState::File(v) => if is_back_key(key.code) {
                acted(before, after, r, Action::Back, now)
            } else {
                no_effects(r) && match file_scroll(v.scroll as int, page(before.list_height), key.code) {
                    Some(s) => after == (DiffState {
                        view: ViewState::File(FileView { scroll: s as usize, ..v }),
                        ..before
                    }),
                    None => after == before,
                }
            },
            ViewState::Tree => if key.code == KeyCode::Char('q') {
                acted(before, after, r, Action::Quit, now)
            } else if is_open_key(key.code) {
                acted(before, after, r, Action::Open, now)
            } else {
                no_effects(r) && match tree_target(before, key.code) {
                    Some(i) => row_chosen(before, after, i as usize),
                    None => if key.code == KeyCode::Left || key.code == KeyCode::Char('h') {
                        folded_left(before, after)
                    } else {
                        after == before
                    },
                }
            },
        },
    }
}

impl DiffState {
    /// Answers a key (see `key_handled`).
    pub fn key(&mut self, key: KeyPress, now: u64) -> (r: Effects)
        ensures
            key_handled(*old(self), *final(self), r, key, now),
    {
        let action = match key.code {
            KeyCode::Char('b') => Some(Action::Mode),
            KeyCode::Char('r') => Some(Action::Refresh),
            KeyCode::Char('e') => Some(Action::Edit),
            KeyCode::Char('g') => Some(Action::Lazygit),
            KeyCode::Char('n') => Some(Action::Next),
            KeyCode::Char('p') => Some(Action::Previous),
            _ => None,
        };
        if let Some(a) = action {
            return self.action(a, now);
        }
        let h: usize = if self.list_height < 1 {
            1
        } else {
            self.list_height
        };
        let in_file = match &self.view {
            ViewState::File(_) => true,
            ViewState::Tree => false,
        };
        if in_file {
            match key.code {
                KeyCode::Esc | KeyCode::Char('q') | KeyCode::Backspace | KeyCode::Left | KeyCode::Char('h') => {
                    return self.action(Action::Back, now);
                },
                _ => {},
            }
            let mut taken = ViewState::Tree;
            std::mem::swap(&mut taken, &mut self.view);
            match taken {
                ViewState::File(v) => {
                    let FileView { root, path, lines, error, scroll, width } = v;
                    let moved: usize = match key.code {
                        KeyCode::Down | KeyCode::Char('j') => scroll.saturating_add(1),
                        KeyCode::Up | KeyCode::Char('k') => scroll.saturating_sub(1),
                        KeyCode::PageDown | KeyCode::Char(' ') => scroll.saturating_add(h),
                        KeyCode::PageUp => scroll.saturating_sub(h),
                        KeyCode::Home => 0,
                        KeyCode::End | KeyCode::Char('G') => usize::MAX,
                        _ => scroll,
                    };
                    self.view = ViewState::File(FileView { root, path, lines, error, scroll: moved, width });
                },
                ViewState::Tree => {},
            }
            return Effects::none();
        }
        let current = self.selected_row();
        let last: usize = self.rows.len().saturating_sub(1);
        match key.code {
            KeyCode::Char('q') => {
                return self.action(Action::Quit, now);
            },
            KeyCode::Enter | KeyCode::Right | KeyCode::Char(' ') | KeyCode::Char('l') => {
                return self.action(Action::Open, now);
            },
            KeyCode::Down | KeyCode::Char('j') => {
                let t = match current {
                    Some(row) => if row + 1 < last {
                        row + 1
                    } else {
                        last
                    },
                    None => 0,
                };
                self.select_row(t);
            },
            KeyCode::Up | KeyCode::Char('k') => {
                let t = match current {
                    Some(row) => row.saturating_sub(1),
                    None => 0,
                };
                self.select_row(t);
            },
            KeyCode::PageDown => {
                let t = match current {
                    Some(row) => {
                        let down = row.saturating_add(h);
                        if down < last {
                            down
                        } else {
                            last
                        }
                    },
                    None => 0,
                };
                self.select_row(t);
            },
            KeyCode::PageUp => {
                let t = match current {
                    Some(row) => row.saturating_sub(h),
                    None => 0,
                };
                self.select_row(t);
            },
            KeyCode::Home => self.select_row(0),
            KeyCode::End | KeyCode::Char('G') => self.select_row(last),
            KeyCode::Left | KeyCode::Char('h') => {
                match current {
                    Some(k) => {
                        proof {
                            lemma_selected_from(self.repos@, self.rows@, opt_selection_view(self.selection)->0, 0);
                        }
                        match self.rows[k] {
                            Row::File(repo, _) => {
                                let root = self.repos[repo].root.clone();
                                self.toggle_repo(root.as_str());
                            },
                            Row::Repo(repo) => {
                                let root = self.repos[repo].root.clone();
                                if self.repos[repo].files.len() > 0 && !self.is_collapsed(root.as_str()) {
                                    self.toggle_repo(root.as_str());
                                }
                            },
                        }
                    },
                    None => {},
                }
            },
            _ => {},
        }
        Effects::none()
    }
}

} // verus!

verus! {

/// Whether every row stands for a repository or file that exists.
pub open spec fn rows_valid(repos: Seq<RepoDiff>, rows: Seq<Row>) -> bool {
    forall|k: int| 0 <= k < rows.len() ==> selection_of_spec(repos, #[trigger] rows[k]) is Some
}

/// Rebuilt rows each stand for a repository or file that exists.
pub proof fn rebuilt_rows_are_valid(before: DiffState, after: DiffState)
    requires
        rebuilt(before, after),
    ensures
        rows_valid(after.repos@, after.rows@),
{
    assert(before.repos@.len() == before.repos.len());
    lemma_rows_valid(before.repos@, after.collapsed@, before.repos@.len() as int);
}

/// The topmost of the first `n` hits at a cell: the last one drawn there.
pub open spec fn diff_hit_below(hits: Seq<(Rect, Hit)>, column: u16, row: u16, n: int) -> Option<int>
    decreases n,
{
    if n <= 0 {
        None
    } else if rect_contains(hits[n - 1].0, column, row) {
        Some(n - 1)
    } else {
        diff_hit_below(hits, column, row, n - 1)
    }
}

/// What a wheel step does: it scrolls the open diff by a step, or the tree
/// by a step within its rows.
pub open spec fn wheel_moved(before: DiffState, after: DiffState, down: bool) -> bool {
    match before.view {
        ViewState::File(v) => after == (DiffState {
            view: ViewState::File(
                FileView {
                    scroll: (if down {
                        sat_add(v.scroll as int, WHEEL_STEP as int)
                    } else {
                        sat_sub(v.scroll as int, WHEEL_STEP as int)
                    }) as usize,
                    ..v
                },
            ),
            ..before
        }),
        ViewState::Tree => {
            let max = sat_sub(before.rows@.len() as int, page(before.list_height));
            after == (DiffState {
                scroll: (if down {
                    min_int(sat_add(before.scroll as int, WHEEL_STEP as int), max)
                } else {
                    sat_sub(before.scroll as int, WHEEL_STEP as int)
                }) as usize,
                ..before
            })
        },
    }
}

/// What a click on row `index` does: on a repository with changes it folds
/// or unfolds it, on another repository it selects it; on a file it selects
/// it, and a double click opens it (and forgets the click).
pub open spec fn clicked_row(before: DiffState, after: DiffState, r: Effects, index: usize, double: bool) -> bool {
    if index < before.rows@.len() {
        match before.rows@[index as int] {
            Row::Repo(repo) => no_effects(r) && if before.repos@[repo as int].files@.len() > 0 {
                repo_toggled(before, after, before.repos@[repo as int].root@)
            } else {
                row_chosen(before, after, index)
            },
            Row::File(repo, file) => if double {
                exists|mid: DiffState|
                    row_chosen(before, mid, index) && file_opened(
                        DiffState { last_click: None, ..mid },
                        after,
                        r,
                        repo,
                        file,
                    )
            } else {
                no_effects(r) && row_chosen(before, after, index)
            },
        }
    } else {
        no_effects(r) && after == before
    }
}

/// What a mouse event does: the wheel scrolls; a press finds the topmost
/// area under it, is a double click when it hits what the last press hit at
/// most `DOUBLE_CLICK_MS` before, and presses the button or clicks the row;
/// a press on nothing forgets the last click.
pub open spec fn mouse_handled(before: DiffState, after: DiffState, r: Effects, m: MouseInput, now: u64) -> bool {
    match m.kind {
        MouseKind::ScrollDown => no_effects(r) && wheel_moved(before, after, true),
        MouseKind::ScrollUp => no_effects(r) && wheel_moved(before, after, false),
        MouseKind::LeftDown => match diff_hit_below(before.hits@, m.column, m.row, before.hits@.len() as int) {
            None => no_effects(r) && after == (DiffState { last_click: None, ..before }),
            Some(k) => {
                let h = before.hits@[k].1;
                let double = match before.last_click {
                    Some(last) => sat_sub(now as int, last.0 as int) <= DOUBLE_CLICK_MS && last.1 == h,
                    None => false,
                };
                let pressed = DiffState { last_click: Some((now, h)), ..before };
                match h {
                    Hit::Button(a) => acted(pressed, after, r, a, now),
                    Hit::Row(i) => clicked_row(pressed, after, r, i, double),
                }
            },
        },
        MouseKind::Other => no_effects(r) && after == before,
    }
}

/// What the clock does at `now`: a notice older than `NOTICE_TTL_MS` goes;
/// an open diff loaded at another width than the body's is asked for again
/// at that width.
pub open spec fn ticked(before: DiffState, after: DiffState, r: Option<Job>, now: u64) -> bool {
    let notice = match before.notice {
        Some(n) => if sat_sub(now as int, n.at as int) > NOTICE_TTL_MS {
            None
        } else {
            Some(n)
        },
        None => None,
    };
    let s = DiffState { notice, ..before };
    match s.view {
        ViewState::File(v) => if v.lines is Some && v.width != s.body_width {
            after == (DiffState { view: ViewState::File(FileView { width: s.body_width, ..v }), ..s })
                && r == file_job_spec(s, v.root@, v.path@)
        } else {
            after == s && r is None
        },
        ViewState::Tree => after == s && r is None,
    }
}

impl DiffState {
    /// Scrolls by a wheel step (see `wheel_moved`).
    pub fn wheel(&mut self, down: bool)
        ensures
            wheel_moved(*old(self), *final(self), down),
    {
        let in_file = match &self.view {
            ViewState::File(_) => true,
            ViewState::Tree => false,
        };
        if in_file {
            let mut taken = ViewState::Tree;
            std::mem::swap(&mut taken, &mut self.view);
            match taken {
                ViewState::File(v) => {
                    let FileView { root, path, lines, error, scroll, width } = v;
                    let moved = if down {
                        scroll.saturating_add(WHEEL_STEP)
                    } else {
                        scroll.saturating_sub(WHEEL_STEP)
                    };
                    self.view = ViewState::File(FileView { root, path, lines, error, scroll: moved, width });
                },
                ViewState::Tree => {},
            }
            return;
        }
        let h: usize = if self.list_height < 1 {
            1
        } else {
            self.list_height
        };
        let max = self.rows.len().saturating_sub(h);
        self.scroll = if down {
            let s = self.scroll.saturating_add(WHEEL_STEP);
            if s < max {
                s
            } else {
                max
            }
        } else {
            self.scroll.saturating_sub(WHEEL_STEP)
        };
    }

    /// Clicks row `index` (see `clicked_row`).
    pub fn click_row(&mut self, index: usize, double: bool) -> (r: Effects)
        requires
            rows_valid(old(self).repos@, old(self).rows@),
        ensures
            clicked_row(*old(self), *final(self), r, index, double),
    {
        if index >= self.rows.len() {
            return Effects::none();
        }
        assert(selection_of_spec(self.repos@, self.rows@[index as int]) is Some);
        match self.rows[index] {
            Row::Repo(repo) => {
                if self.repos[repo].files.len() > 0 {
                    let root = self.repos[repo].root.clone();
                    self.toggle_repo(root.as_str());
                } else {
                    self.select_row(index);
                }
                Effects::none()
            },
            Row::File(repo, file) => {
                self.select_row(index);
                if double {
                    let ghost mid = *self;
                    self.last_click = None;
                    let r = self.open_file(repo, file);
                    assert(file_opened(DiffState { last_click: None, ..mid }, *self, r, repo, file));
                    return r;
                }
                Effects::none()
            },
        }
    }

    /// Answers a mouse event (see `mouse_handled`).
    pub fn mouse(&mut self, m: MouseInput, now: u64) -> (r: Effects)
        requires
            rows_valid(old(self).repos@, old(self).rows@),
        ensures
            mouse_handled(*old(self), *final(self), r, m, now),
    {
        match m.kind {
            MouseKind::ScrollDown => {
                self.wheel(true);
                Effects::none()
            },
            MouseKind::ScrollUp => {
                self.wheel(false);
                Effects::none()
            },
            MouseKind::LeftDown => {
                let mut n = self.hits.len();
                while n > 0 && !contains(self.hits[n - 1].0, m.column, m.row)
                    invariant
                        n <= self.hits@.len(),
                        diff_hit_below(self.hits@, m.column, m.row, self.hits@.len() as int) == diff_hit_below(
                            self.hits@,
                            m.column,
                            m.row,
                            n as int,
                        ),
                    decreases n,
                {
                    n = n - 1;
                }
                if n == 0 {
                    self.last_click = None;
                    return Effects::none();
                }
                let hit = self.hits[n - 1].1;
                let double = match self.last_click {
                    Some((at, previous)) => now.saturating_sub(at) <= DOUBLE_CLICK_MS && previous == hit,
                    None => false,
                };
                self.last_click = Some((now, hit));
                match hit {
                    Hit::Button(a) => self.action(a, now),
                    Hit::Row(i) => self.click_row(i, double),
                }
            },
            MouseKind::Other => Effects::none(),
        }
    }

    /// What the clock asks for at `now` (see `ticked`).
    pub fn tick(&mut self, now: u64) -> (r: Option<Job>)
        ensures
            ticked(*old(self), *final(self), r, now),
    {
        let expired = match &self.notice {
            Some(n) => now.saturating_sub(n.at) > NOTICE_TTL_MS,
            None => false,
        };
        if expired {
            self.notice = None;
        }
        let width = self.body_width;
        let reload = match &self.view {
            ViewState::File(v) => v.lines.is_some() && v.width != width,
            ViewState::Tree => false,
        };
        if !reload {
            return None;
        }
        let mut taken = ViewState::Tree;
        std::mem::swap(&mut taken, &mut self.view);
        match taken {
            ViewState::File(v) => {
                let FileView { root, path, lines, error, scroll, width: _ } = v;
                let job = self.file_job(root.as_str(), path.as_str());
                self.view = ViewState::File(FileView { root, path, lines, error, scroll, width });
                job
            },
            ViewState::Tree => None,
        }
    }
}

} // verus!

verus! {

/// In the file view, PageUp scrolls the diff up by a page (the list's
/// height, at least one row), stopping at the top: it never scrolls down,
/// and nothing but the scroll changes.
pub proof fn page_up_scrolls_up_a_page(before: DiffState, after: DiffState, r: Effects, key: KeyPress, now: u64)
    requires
        key_handled(before, after, r, key, now),
        key.code == KeyCode::PageUp,
        before.view is File,
    ensures
        ({
            let old_scroll = before.view->File_0.scroll as int;
            let h: int = if before.list_height == 0 {
                1
            } else {
                before.list_height as int
            };
            &&& after.view matches ViewState::File(v) && v.scroll as int == if old_scroll >= h {
                old_scroll - h
            } else {
                0
            }
            &&& after.view->File_0.scroll <= before.view->File_0.scroll
            &&& after == DiffState { view: after.view, ..before }
        }),
{
}

/// In the file view, PageDown scrolls the diff down by a page, stopping at
/// the largest scroll: it never scrolls up.
pub proof fn page_down_scrolls_down_a_page(before: DiffState, after: DiffState, r: Effects, key: KeyPress, now: u64)
    requires
        key_handled(before, after, r, key, now),
        key.code == KeyCode::PageDown,
        before.view is File,
    ensures
        ({
            let old_scroll = before.view->File_0.scroll as int;
            let h: int = if before.list_height == 0 {
                1
            } else {
                before.list_height as int
            };
            &&& after.view matches ViewState::File(v) && v.scroll as int == if old_scroll + h <= usize::MAX {
                old_scroll + h
            } else {
                usize::MAX as int
            }
            &&& after.view->File_0.scroll >= before.view->File_0.scroll
        }),
{
}

/// In the file view, the other scroll keys move the diff by their own
/// amount: down (or `j`) one row down, up (or `k`) one row up, stopping at
/// the top; space a page down; Home to the top; End (or `G`) to the largest
/// scroll. Nothing but the scroll changes.
pub proof fn file_keys_scroll_by_their_amount(before: DiffState, after: DiffState, r: Effects, key: KeyPress, now: u64)
    requires
        key_handled(before, after, r, key, now),
        before.view is File,
        key.code == KeyCode::Down || key.code == KeyCode::Char('j') || key.code == KeyCode::Up || key.code
            == KeyCode::Char('k') || key.code == KeyCode::Char(' ') || key.code == KeyCode::Home || key.code
            == KeyCode::End || key.code == KeyCode::Char('G'),
    ensures
        ({
            let old_scroll = before.view->File_0.scroll as int;
            let h: int = if before.list_height == 0 {
                1
            } else {
                before.list_height as int
            };
            let new_scroll = after.view->File_0.scroll as int;
            &&& after.view is File
            &&& after == DiffState { view: after.view, ..before }
            &&& (key.code == KeyCode::Down || key.code == KeyCode::Char('j')) ==> new_scroll == if old_scroll
                < usize::MAX {
                old_scroll + 1
            } else {
                old_scroll
            }
            &&& (key.code == KeyCode::Up || key.code == KeyCode::Char('k')) ==> new_scroll == if old_scroll > 0 {
                old_scroll - 1
            } else {
                0
            }
            &&& key.code == KeyCode::Char(' ') ==> new_scroll == if old_scroll + h <= usize::MAX {
                old_scroll + h
            } else {
                usize::MAX as int
            }
            &&& key.code == KeyCode::Home ==> new_scroll == 0
            &&& (key.code == KeyCode::End || key.code == KeyCode::Char('G')) ==> new_scroll == usize::MAX
        }),
{
}

/// In the tree, the movement keys choose a row relative to the selected
/// one: down (or `j`) the next row, staying on the last; up (or `k`) the
/// previous one, staying on the first; PageDown a page further, staying on
/// the last; PageUp a page back, staying on the first; Home the first row and
/// End (or `G`) the last. From no selection they all choose the first row,
/// but for End.
pub proof fn tree_keys_move_the_selection(before: DiffState, after: DiffState, r: Effects, key: KeyPress, now: u64)
    requires
        key_handled(before, after, r, key, now),
        before.view is Tree,
        before.rows@.len() <= usize::MAX,
        key.code == KeyCode::Down || key.code == KeyCode::Char('j') || key.code == KeyCode::Up || key.code
            == KeyCode::Char('k') || key.code == KeyCode::PageDown || key.code == KeyCode::PageUp || key.code
            == KeyCode::Home || key.code == KeyCode::End || key.code == KeyCode::Char('G'),
    ensures
        ({
            let current = selected_row_spec(before.repos@, before.rows@, opt_selection_view(before.selection));
            let n = before.rows@.len() as int;
            let last: int = if n > 0 {
                n - 1
            } else {
                0
            };
            let h: int = if before.list_height == 0 {
                1
            } else {
                before.list_height as int
            };
            let target: int = if key.code == KeyCode::Home {
                0
            } else if key.code == KeyCode::End || key.code == KeyCode::Char('G') {
                last
            } else {
                match current {
                    None => 0,
                    Some(row) => if key.code == KeyCode::Down || key.code == KeyCode::Char('j') {
                        if row + 1 < last {
                            row + 1
                        } else {
                            last
                        }
                    } else if key.code == KeyCode::Up || key.code == KeyCode::Char('k') {
                        if row >= 1 {
                            row - 1
                        } else {
                            0
                        }
                    } else if key.code == KeyCode::PageDown {
                        if row + h < last {
                            row + h
                        } else {
                            last
                        }
                    } else if row >= h {
                        row - h
                    } else {
                        0
                    },
                }
            };
            &&& no_effects(r)
            &&& row_chosen(before, after, target as usize)
        }),
{
}

} // verus!
