//! The state of the Jira view and how it answers the user and the worker: the
//! grouped issue list with its folded groups and selection, the detail view,
//! the popups (transitions, comment editor, worktree collector) and notices.
//! Each event gives the jobs to hand to the worker.

use vstd::prelude::*;

use crate::gc::GcReport;
use crate::issues::{group_before, group_issues, statuses_seen, with_status, Issue, StatusGroup};
use crate::jira::{link_sessions, preselect_key, priority_icon, priority_icon_spec, ClaudeSessionInfo, LinkedSession, PullRequest};
use crate::jira_ui::{Action, DetailSection, Hit};
use crate::json::Json;
use crate::right_panel::Rect;
use crate::split::{opt_view, string_views};
use crate::text::{chars_of, decimal, decimal_spec, eq_str, extend_chars, string_of};
use crate::adf::{str_width, text_width};
use crate::jira_ui::{truncate, truncate_spec};

verus! {

/// How long a notice stays, in milliseconds.
pub const NOTICE_TTL_MS: u64 = 6000;

/// The longest pause between the two clicks of a double click, in
/// milliseconds.
pub const DOUBLE_CLICK_MS: u64 = 400;

/// How many rows a wheel step scrolls.
pub const WHEEL_STEP: usize = 3;

/// A comment of an issue.
#[derive(Debug)]
pub struct Comment {
    pub author: String,
    pub created: String,
    /// The body, in the Atlassian document format.
    pub body: Json,
}

/// A worktree of an issue.
#[derive(Debug, Clone, PartialEq, Eq)]
pub struct WorktreeInfo {
    /// The repository the worktree belongs to.
    pub repo: String,
    pub name: String,
    pub path: String,
    /// The branch checked out in it.
    pub branch: Option<String>,
}

/// What the detail view shows of an issue.
#[derive(Debug)]
pub struct IssueDetail {
    pub issue: Issue,
    pub description: Option<Json>,
    pub comments: Vec<Comment>,
    pub sprint: Option<String>,
    /// The story points, as the text they are shown with.
    pub story_points: Option<String>,
    pub development: Option<String>,
    pub pull_requests: Vec<PullRequest>,
    pub worktrees: Vec<WorktreeInfo>,
}

/// A transition an issue can take.
#[derive(Debug, Clone, PartialEq, Eq)]
pub struct Transition {
    pub id: String,
    pub name: String,
    pub to: String,
    /// The names of the fields the transition asks for.
    pub required_fields: Vec<String>,
}

/// Where the owner pane is.
#[derive(Debug, Clone, PartialEq, Eq)]
pub struct PaneContext {
    pub workspace_id: Option<String>,
    pub cwd: Option<String>,
}

/// Work for the worker.
#[derive(Debug, Clone, PartialEq, Eq)]
pub enum Job {
    Refresh,
    Detail(String),
    Transitions(String),
    Transition { key: String, transition_id: String, to: String },
    Comment { key: String, text: String },
    AssignMe(String),
    Session { key: String, link: Option<LinkedSession> },
    OpenUrl(String),
    OpenWorktree { path: String, name: String },
    WorktreeGc { apply: bool },
}

/// What the worker reports back.
#[derive(Debug)]
pub enum Outcome {
    List {
        issues: Vec<Issue>,
        sessions: Vec<ClaudeSessionInfo>,
        owner: PaneContext,
        /// The agent status of each pane that has one.
        pane_status: Vec<(String, String)>,
    },
    ListFailed(String),
    Detail(IssueDetail),
    DetailFailed { key: String, error: String },
    Transitions { key: String, transitions: Vec<Transition> },
    TransitionsFailed { key: String, error: String },
    Transitioned { key: String, to: String },
    Commented { key: String, comment: Comment },
    Assigned { key: String, name: String },
    CommentFailed(String),
    WorktreeGc { apply: bool, result: Result<GcReport, String> },
    Notice(String),
    Failed(String),
}

/// A row of the list: a status header or an issue.
#[derive(Debug, Clone, PartialEq, Eq)]
pub enum Row {
    Header { status: String, count: usize, collapsed: bool },
    Issue(String),
}

/// A row as plain values.
pub enum RowView {
    Header(Seq<char>, nat, bool),
    Issue(Seq<char>),
}

/// The view of a row.
pub open spec fn row_view(row: Row) -> RowView {
    match row {
        Row::Header { status, count, collapsed } => RowView::Header(status@, count as nat, collapsed),
        Row::Issue(key) => RowView::Issue(key@),
    }
}

/// The views of rows.
pub open spec fn row_views(rows: Seq<Row>) -> Seq<RowView> {
    rows.map_values(|r: Row| row_view(r))
}

/// What is selected in the list.
#[derive(Debug, Clone, PartialEq, Eq)]
pub enum Selection {
    Header(String),
    Issue(String),
}

/// A selection as plain values.
pub enum SelectionView {
    Header(Seq<char>),
    Issue(Seq<char>),
}

/// The view of a selection.
pub open spec fn selection_view(s: Selection) -> SelectionView {
    match s {
        Selection::Header(status) => SelectionView::Header(status@),
        Selection::Issue(key) => SelectionView::Issue(key@),
    }
}

/// The view of an optional selection.
pub open spec fn opt_selection_view(s: Option<Selection>) -> Option<SelectionView> {
    match s {
        Some(sel) => Some(selection_view(sel)),
        None => None,
    }
}

/// Whether a row is the one a selection names.
pub open spec fn row_selected(row: RowView, sel: SelectionView) -> bool {
    match (row, sel) {
        (RowView::Header(status, _, _), SelectionView::Header(s)) => status == s,
        (RowView::Issue(key), SelectionView::Issue(k)) => key == k,
        _ => false,
    }
}

/// The selection that names a row.
pub open spec fn selection_of(row: RowView) -> SelectionView {
    match row {
        RowView::Header(status, _, _) => SelectionView::Header(status),
        RowView::Issue(key) => SelectionView::Issue(key),
    }
}

/// The first row, from `i` on, that a selection names.
pub open spec fn selected_from(rows: Seq<RowView>, sel: SelectionView, i: int) -> Option<int>
    decreases rows.len() - i,
{
    if i < 0 || i >= rows.len() {
        None
    } else if row_selected(rows[i], sel) {
        Some(i)
    } else {
        selected_from(rows, sel, i + 1)
    }
}

/// The row of the selection, if it names one.
pub open spec fn selected_row_spec(rows: Seq<RowView>, sel: Option<SelectionView>) -> Option<int> {
    match sel {
        Some(s) => selected_from(rows, s, 0),
        None => None,
    }
}

/// The main view: the list, or the detail of an issue.
#[derive(Debug)]
pub enum ViewState {
    List,
    Detail { key: String, detail: Option<IssueDetail>, error: Option<String>, scroll: usize },
}

/// What the worktree collector popup shows.
#[derive(Debug)]
pub enum GcPhase {
    Loading,
    Preview(GcReport),
    Applying(GcReport),
    Done(GcReport),
    Failed(String),
}

/// A popup over the view.
#[derive(Debug)]
pub enum Popup {
    Transitions {
        key: String,
        transitions: Option<Vec<Transition>>,
        error: Option<String>,
        selected: usize,
    },
    /// The comment editor; the cursor counts characters.
    Comment { key: String, text: Vec<char>, cursor: usize, sending: bool },
    WorktreeGc { phase: GcPhase, scroll: usize },
}

/// A message shown for a while.
#[derive(Debug, Clone, PartialEq, Eq)]
pub struct Notice {
    pub text: String,
    pub error: bool,
    /// When it was shown, in milliseconds.
    pub at: u64,
}

/// What an event asks for: jobs for the worker, and whether to quit.
#[derive(Debug)]
pub struct Effects {
    pub jobs: Vec<Job>,
    pub quit: bool,
}

impl Effects {
    /// Nothing.
    pub fn none() -> (r: Effects)
        ensures
            r.jobs@.len() == 0,
            !r.quit,
    {
        Effects { jobs: Vec::new(), quit: false }
    }
}

/// A key press: its key and modifiers.
#[derive(Debug, Clone, Copy, PartialEq, Eq)]
pub enum KeyCode {
    Char(char),
    Enter,
    Esc,
    Tab,
    Backspace,
    Delete,
    Left,
    Right,
    Up,
    Down,
    Home,
    End,
    PageUp,
    PageDown,
    Other,
}

/// A key with its modifiers.
#[derive(Debug, Clone, Copy, PartialEq, Eq)]
pub struct KeyPress {
    pub code: KeyCode,
    pub ctrl: bool,
    pub alt: bool,
}

/// What the mouse did.
#[derive(Debug, Clone, Copy, PartialEq, Eq)]
pub enum MouseKind {
    ScrollDown,
    ScrollUp,
    LeftDown,
    Other,
}

/// A mouse event and where it happened.
#[derive(Debug, Clone, Copy, PartialEq, Eq)]
pub struct MouseInput {
    pub kind: MouseKind,
    pub column: u16,
    pub row: u16,
}

/// The Jira view.
#[derive(Debug)]
pub struct JiraState {
    pub project: String,
    pub browse_base: String,
    pub status_order: Vec<String>,
    /// How often to refresh, in seconds.
    pub refresh_every: Option<u64>,
    pub owner_pane: Option<String>,
    pub issues: Vec<Issue>,
    pub rows: Vec<Row>,
    /// The statuses whose groups are folded.
    pub collapsed: Vec<String>,
    /// The statuses whose groups were shown before.
    pub seen_groups: Vec<String>,
    pub collapsed_sections: Vec<DetailSection>,
    pub selection: Option<Selection>,
    pub scroll: usize,
    pub links: Vec<(String, LinkedSession)>,
    pub view: ViewState,
    pub popup: Option<Popup>,
    pub notice: Option<Notice>,
    pub loading: bool,
    pub list_error: Option<String>,
    /// When the list was last loaded, in milliseconds.
    pub last_refresh: Option<u64>,
    pub preselected: bool,
    /// The clickable areas of the last drawing, the topmost last.
    pub hits: Vec<(Rect, Hit)>,
    pub list_height: usize,
    pub detail_lines: usize,
    pub detail_height: usize,
    /// The time and target of the last click.
    pub last_click: Option<(u64, Hit)>,
}

/// Whether a list of strings holds `s`.
pub open spec fn holds(list: Seq<String>, s: Seq<char>) -> bool {
    exists|i: int| 0 <= i < list.len() && list[i]@ == s
}

/// Whether `list` holds a string equal to `s`.
pub fn holds_text(list: &Vec<String>, s: &str) -> (r: bool)
    ensures
        r == holds(list@, s@),
{
    let mut i: usize = 0;
    while i < list.len()
        invariant
            i <= list.len(),
            forall|k: int| 0 <= k < i ==> list@[k]@ != s@,
        decreases list.len() - i,
    {
        if eq_str(list[i].as_str(), s) {
            return true;
        }
        i = i + 1;
    }
    false
}

/// The position of the first issue with key `key`.
pub open spec fn issue_index_from(issues: Seq<Issue>, key: Seq<char>, i: int) -> Option<int>
    decreases issues.len() - i,
{
    if i < 0 || i >= issues.len() {
        None
    } else if issues[i].key@ == key {
        Some(i)
    } else {
        issue_index_from(issues, key, i + 1)
    }
}

/// The position of the issue with key `key`, the first if several.
pub open spec fn issue_index(issues: Seq<Issue>, key: Seq<char>) -> Option<int> {
    issue_index_from(issues, key, 0)
}

/// The rows of an issue list: one per issue key.
pub open spec fn key_rows(issues: Seq<Issue>) -> Seq<RowView> {
    issues.map_values(|i: Issue| RowView::Issue(i.key@))
}

/// The rows of the groups of `statuses`, in that order: each status's header
/// with its issue count and whether it is folded, then, when it is not, a row
/// per issue.
pub open spec fn rows_of(statuses: Seq<Seq<char>>, issues: Seq<Issue>, collapsed: Seq<String>) -> Seq<RowView>
    decreases statuses.len(),
{
    if statuses.len() == 0 {
        Seq::empty()
    } else {
        let s = statuses.last();
        let members = with_status(issues, s);
        let folded = holds(collapsed, s);
        rows_of(statuses.drop_last(), issues, collapsed).push(
            RowView::Header(s, members.len(), folded),
        ) + if folded {
            Seq::empty()
        } else {
            key_rows(members)
        }
    }
}

/// Whether `statuses` is the order in which the groups of `issues` are shown
/// (see `group_issues`).
pub open spec fn group_order(issues: Seq<Issue>, order: Seq<Seq<char>>, statuses: Seq<Seq<char>>) -> bool {
    &&& statuses.len() == statuses_seen(issues).len()
    &&& forall|i: int| 0 <= i < statuses.len() ==> statuses_seen(issues).contains(#[trigger] statuses[i])
    &&& forall|i: int, j: int| 0 <= i < j < statuses.len() ==> statuses[i] != statuses[j]
    &&& forall|i: int|
        0 <= i && i + 1 < statuses.len() ==> group_before(issues, order, #[trigger] statuses[i], statuses[i + 1])
}

/// The first issue row from `i` on.
pub open spec fn first_issue_row_from(rows: Seq<RowView>, i: int) -> Option<int>
    decreases rows.len() - i,
{
    if i < 0 || i >= rows.len() {
        None
    } else if rows[i] is Issue {
        Some(i)
    } else {
        first_issue_row_from(rows, i + 1)
    }
}

/// The selection after the rows changed: kept when it still names a row;
/// else the header of the selected issue's status when that header is shown;
/// else the first issue row; else the first row; else none.
pub open spec fn fallback_selection(rows: Seq<RowView>, issues: Seq<Issue>, sel: Option<SelectionView>) -> Option<
    SelectionView,
> {
    if selected_row_spec(rows, sel) is Some {
        sel
    } else {
        let by_status = match sel {
            Some(SelectionView::Issue(k)) => match issue_index(issues, k) {
                Some(i) => Some(SelectionView::Header(issues[i].status@)),
                None => None,
            },
            _ => None,
        };
        match by_status {
            Some(h) if selected_row_spec(rows, Some(h)) is Some => Some(h),
            _ => match first_issue_row_from(rows, 0) {
                Some(i) => Some(selection_of(rows[i])),
                None => if rows.len() > 0 {
                    Some(selection_of(rows[0]))
                } else {
                    None
                },
            },
        }
    }
}

/// The list scroll that shows the selected row: moved just enough to show it,
/// then kept within the rows.
pub open spec fn visible_scroll(rows_len: int, selected: Option<int>, scroll: int, list_height: int) -> int {
    let height = if list_height < 1 {
        1
    } else {
        list_height
    };
    let moved = match selected {
        Some(row) => if row < scroll {
            row
        } else if row >= scroll + height {
            row + 1 - height
        } else {
            scroll
        },
        None => scroll,
    };
    let max = if rows_len > height {
        rows_len - height
    } else {
        0
    };
    if moved < max {
        moved
    } else {
        max
    }
}

/// A copy of a row.
fn copy_row(row: &Row) -> (r: Row)
    ensures
        r == *row,
{
    match row {
        Row::Header { status, count, collapsed } => Row::Header {
            status: status.clone(),
            count: *count,
            collapsed: *collapsed,
        },
        Row::Issue(key) => Row::Issue(key.clone()),
    }
}

/// The selection that names a row.
fn selection_for(row: &Row) -> (r: Selection)
    ensures
        selection_view(r) == selection_of(row_view(*row)),
{
    match row {
        Row::Header { status, .. } => Selection::Header(status.clone()),
        Row::Issue(key) => Selection::Issue(key.clone()),
    }
}

/// A copy of a selection.
fn copy_selection(sel: &Selection) -> (r: Selection)
    ensures
        r == *sel,
{
    match sel {
        Selection::Header(s) => Selection::Header(s.clone()),
        Selection::Issue(k) => Selection::Issue(k.clone()),
    }
}

/// Whether `row` is the row `sel` names.
fn is_selected(row: &Row, sel: &Selection) -> (r: bool)
    ensures
        r == row_selected(row_view(*row), selection_view(*sel)),
{
    match (row, sel) {
        (Row::Header { status, .. }, Selection::Header(s)) => eq_str(status.as_str(), s.as_str()),
        (Row::Issue(key), Selection::Issue(k)) => eq_str(key.as_str(), k.as_str()),
        _ => false,
    }
}

/// The first row `sel` names.
fn find_selected(rows: &Vec<Row>, sel: &Selection) -> (r: Option<usize>)
    ensures
        r matches Some(i) ==> selected_from(row_views(rows@), selection_view(*sel), 0) == Some(i as int) && i < rows@.len(),
        r is None ==> selected_from(row_views(rows@), selection_view(*sel), 0) is None,
{
    let mut i: usize = 0;
    while i < rows.len()
        invariant
            i <= rows.len(),
            selected_from(row_views(rows@), selection_view(*sel), 0) == selected_from(
                row_views(rows@),
                selection_view(*sel),
                i as int,
            ),
        decreases rows.len() - i,
    {
        if is_selected(&rows[i], sel) {
            return Some(i);
        }
        i = i + 1;
    }
    None
}

/// The status of the selected issue, if an issue is selected.
pub open spec fn highlighted_status(issues: Seq<Issue>, sel: Option<SelectionView>) -> Option<Seq<char>> {
    match sel {
        Some(SelectionView::Issue(k)) => match issue_index(issues, k) {
            Some(i) => Some(issues[i].status@),
            None => None,
        },
        _ => None,
    }
}

/// The rows of statuses do not depend on the folding of other statuses.
proof fn lemma_rows_of_frame(ss: Seq<Seq<char>>, issues: Seq<Issue>, c1: Seq<String>, c2: Seq<String>)
    requires
        forall|i: int| 0 <= i < ss.len() ==> holds(c1, #[trigger] ss[i]) == holds(c2, ss[i]),
    ensures
        rows_of(ss, issues, c1) == rows_of(ss, issues, c2),
    decreases ss.len(),
{
    if ss.len() > 0 {
        assert(holds(c1, ss[ss.len() - 1]) == holds(c2, ss[ss.len() - 1]));
        lemma_rows_of_frame(ss.drop_last(), issues, c1, c2);
    }
}

/// The first issue row.
fn first_issue_row(rows: &Vec<Row>) -> (r: Option<usize>)
    ensures
        r matches Some(i) ==> first_issue_row_from(row_views(rows@), 0) == Some(i as int) && i < rows@.len(),
        r is None ==> first_issue_row_from(row_views(rows@), 0) is None,
{
    let mut i: usize = 0;
    while i < rows.len()
        invariant
            i <= rows.len(),
            first_issue_row_from(row_views(rows@), 0) == first_issue_row_from(row_views(rows@), i as int),
        decreases rows.len() - i,
    {
        if let Row::Issue(_) = &rows[i] {
            return Some(i);
        }
        i = i + 1;
    }
    None
}

/// Pushes a row per issue.
fn push_key_rows(rows: &mut Vec<Row>, members: &Vec<Issue>)
    ensures
        row_views(final(rows)@) == row_views(old(rows)@) + key_rows(members@),
{
    let mut k: usize = 0;
    while k < members.len()
        invariant
            k <= members@.len(),
            row_views(rows@) == row_views(old(rows)@) + key_rows(members@.take(k as int)),
        decreases members@.len() - k,
    {
        let ghost before = rows@;
        rows.push(Row::Issue(members[k].key.clone()));
        assert(members@.take(k + 1) =~= members@.take(k as int).push(members@[k as int]));
        assert(row_views(rows@) =~= row_views(before).push(RowView::Issue(members@[k as int].key@)));
        assert(key_rows(members@.take(k + 1)) =~= key_rows(members@.take(k as int)).push(
            RowView::Issue(members@[k as int].key@),
        ));
        k = k + 1;
    }
    assert(members@.take(members@.len() as int) =~= members@);
}

/// Adds `s` to a list of strings unless it holds it; says whether it was
/// added.
fn add_text(list: &mut Vec<String>, s: &String) -> (added: bool)
    ensures
        added == !holds(old(list)@, s@),
        forall|t: Seq<char>| holds(final(list)@, t) <==> holds(old(list)@, t) || t == s@,
{
    if holds_text(list, s.as_str()) {
        return false;
    }
    let ghost before = list@;
    list.push(s.clone());
    proof {
        assert forall|t: Seq<char>| holds(list@, t) <==> holds(before, t) || t == s@ by {
            if holds(before, t) {
                let i = choose|i: int| 0 <= i < before.len() && before[i]@ == t;
                assert(list@[i] == before[i]);
            }
            if t == s@ {
                assert(list@[before.len() as int]@ == t);
            }
            if holds(list@, t) {
                let i = choose|i: int| 0 <= i < list@.len() && list@[i]@ == t;
                if i < before.len() {
                    assert(list@[i] == before[i]);
                }
            }
        }
    }
    true
}

/// The statuses of groups, in order.
pub open spec fn group_statuses(groups: Seq<StatusGroup>) -> Seq<Seq<char>> {
    groups.map_values(|g: StatusGroup| g.status@)
}

/// What `group_issues` gives is in group order, and shows every status.
proof fn lemma_group_order(issues: Seq<Issue>, order: Seq<Seq<char>>, groups: Seq<StatusGroup>)
    requires
        groups.len() == statuses_seen(issues).len(),
        forall|i: int| 0 <= i < groups.len() ==> statuses_seen(issues).contains((#[trigger] groups[i]).status@),
        forall|s: Seq<char>|
            statuses_seen(issues).contains(s) ==> exists|i: int| 0 <= i < groups.len() && (#[trigger] groups[i]).status@ == s,
        forall|i: int, j: int| 0 <= i < j < groups.len() ==> groups[i].status@ != groups[j].status@,
        forall|i: int|
            0 <= i && i + 1 < groups.len() ==> group_before(issues, order, (#[trigger] groups[i]).status@, groups[i + 1].status@),
    ensures
        group_order(issues, order, group_statuses(groups)),
        forall|t: Seq<char>| #[trigger] group_statuses(groups).contains(t) <==> statuses_seen(issues).contains(t),
{
    let st = group_statuses(groups);
    assert forall|i: int| 0 <= i < st.len() implies statuses_seen(issues).contains(#[trigger] st[i]) by {
        assert(st[i] == groups[i].status@);
    }
    assert forall|i: int, j: int| 0 <= i < j < st.len() implies st[i] != st[j] by {
        assert(st[i] == groups[i].status@ && st[j] == groups[j].status@);
    }
    assert forall|i: int| 0 <= i && i + 1 < st.len() implies group_before(issues, order, #[trigger] st[i], st[i + 1]) by {
        assert(st[i] == groups[i].status@);
        assert(st[i + 1] == groups[i + 1].status@);
    }
    assert forall|t: Seq<char>| #[trigger] st.contains(t) <==> statuses_seen(issues).contains(t) by {
        if statuses_seen(issues).contains(t) {
            let m = choose|m: int| 0 <= m < groups.len() && (#[trigger] groups[m]).status@ == t;
            assert(st[m] == t);
        }
        if st.contains(t) {
            let m = choose|m: int| 0 <= m < st.len() && st[m] == t;
            assert(st[m] == groups[m].status@);
        }
    }
}

/// The rows of `groups`; statuses seen for the first time are added to
/// `seen` and, but the highlighted one, folded.
fn group_rows(
    groups: &Vec<StatusGroup>,
    issues: &Vec<Issue>,
    seen: &mut Vec<String>,
    collapsed: &mut Vec<String>,
    highlighted: &Option<String>,
) -> (rows: Vec<Row>)
    requires
        forall|i: int| 0 <= i < groups@.len() ==> (#[trigger] groups@[i]).issues@ == with_status(issues@, groups@[i].status@),
        forall|i: int, j: int| 0 <= i < j < groups@.len() ==> groups@[i].status@ != groups@[j].status@,
    ensures
        row_views(rows@) == rows_of(group_statuses(groups@), issues@, final(collapsed)@),
        forall|t: Seq<char>|
            holds(final(seen)@, t) <==> holds(old(seen)@, t) || group_statuses(groups@).contains(t),
        forall|t: Seq<char>|
            holds(final(collapsed)@, t) <==> holds(old(collapsed)@, t) || (group_statuses(groups@).contains(t)
                && !holds(old(seen)@, t) && opt_view(*highlighted) != Some(t)),
{
    let ghost statuses = group_statuses(groups@);
    let ghost old_seen = seen@;
    let ghost old_collapsed = collapsed@;
    let mut rows: Vec<Row> = Vec::new();
    let mut gi: usize = 0;
    while gi < groups.len()
        invariant
            gi <= groups@.len(),
            statuses == group_statuses(groups@),
            forall|i: int| 0 <= i < groups@.len() ==> (#[trigger] groups@[i]).issues@ == with_status(issues@, groups@[i].status@),
            forall|i: int, j: int| 0 <= i < j < groups@.len() ==> groups@[i].status@ != groups@[j].status@,
            row_views(rows@) == rows_of(statuses.take(gi as int), issues@, collapsed@),
            forall|t: Seq<char>|
                #[trigger] holds(seen@, t) <==> holds(old_seen, t) || statuses.take(gi as int).contains(t),
            forall|t: Seq<char>|
                #[trigger] holds(collapsed@, t) <==> holds(old_collapsed, t) || (statuses.take(gi as int).contains(t)
                    && !holds(old_seen, t) && opt_view(*highlighted) != Some(t)),
        decreases groups@.len() - gi,
    {
        let group = &groups[gi];
        let ghost st = group.status@;
        let ghost prev = statuses.take(gi as int);
        let ghost next = statuses.take(gi + 1);
        let ghost before_collapsed = collapsed@;
        proof {
            assert(statuses[gi as int] == st);
            assert(next =~= prev.push(st));
            assert(!prev.contains(st)) by {
                if prev.contains(st) {
                    let j = choose|j: int| 0 <= j < prev.len() && prev[j] == st;
                    assert(statuses[j] == groups@[j].status@);
                }
            }
            assert forall|t: Seq<char>| #[trigger] next.contains(t) <==> (prev.contains(t) || t == st) by {
                if next.contains(t) {
                    let j = choose|j: int| 0 <= j < next.len() && next[j] == t;
                    if j < prev.len() {
                        assert(prev[j] == t);
                    }
                }
                if prev.contains(t) {
                    let j = choose|j: int| 0 <= j < prev.len() && prev[j] == t;
                    assert(next[j] == t);
                }
                if t == st {
                    assert(next[prev.len() as int] == t);
                }
            }
        }
        let ghost seen_pre = seen@;
        let fresh = add_text(seen, &group.status);
        let not_highlighted = match highlighted {
            Some(h) => !eq_str(h.as_str(), group.status.as_str()),
            None => true,
        };
        let ghost seen_before_add = old_seen;
        if fresh && not_highlighted {
            add_text(collapsed, &group.status);
        }
        proof {
            assert forall|t: Seq<char>| holds(seen@, t) <==> holds(old_seen, t) || next.contains(t) by {
                assert(next.contains(t) <==> (prev.contains(t) || t == st));
                assert(holds(seen_pre, t) <==> holds(old_seen, t) || prev.contains(t));
            }
            assert(fresh == !holds(old_seen, st));
            assert(not_highlighted == (opt_view(*highlighted) != Some(st)));
            assert forall|t: Seq<char>|
                holds(collapsed@, t) <==> holds(old_collapsed, t) || (next.contains(t) && !holds(old_seen, t)
                    && opt_view(*highlighted) != Some(t)) by {
                assert(next.contains(t) <==> (prev.contains(t) || t == st));
                assert(holds(before_collapsed, t) <==> holds(old_collapsed, t) || (prev.contains(t)
                    && !holds(old_seen, t) && opt_view(*highlighted) != Some(t)));
            }
            assert forall|i: int| 0 <= i < prev.len() implies holds(before_collapsed, #[trigger] prev[i]) == holds(
                collapsed@,
                prev[i],
            ) by {
                assert(prev[i] != st);
            }
            lemma_rows_of_frame(prev, issues@, before_collapsed, collapsed@);
        }
        let folded = holds_text(collapsed, group.status.as_str());
        rows.push(Row::Header { status: group.status.clone(), count: group.issues.len(), collapsed: folded });
        if !folded {
            push_key_rows(&mut rows, &group.issues);
        }
        proof {
            assert(next.drop_last() =~= prev);
            assert(row_views(rows@) =~= rows_of(next, issues@, collapsed@));
        }
        gi = gi + 1;
    }
    proof {
        assert(statuses.take(groups@.len() as int) =~= statuses);
    }
    rows
}

/// What rebuilding the rows does to `before` (see `JiraState::rebuild_rows`).
pub open spec fn rebuilt(before: JiraState, after: JiraState) -> bool {
    &&& exists|statuses: Seq<Seq<char>>|
        group_order(before.issues@, string_views(before.status_order@), statuses) && row_views(after.rows@)
            == rows_of(statuses, before.issues@, after.collapsed@)
    &&& forall|t: Seq<char>|
        holds(after.seen_groups@, t) <==> holds(before.seen_groups@, t) || statuses_seen(before.issues@).contains(t)
    &&& forall|t: Seq<char>|
        holds(after.collapsed@, t) <==> holds(before.collapsed@, t) || (statuses_seen(before.issues@).contains(t)
            && !holds(before.seen_groups@, t) && highlighted_status(
            before.issues@,
            opt_selection_view(before.selection),
        ) != Some(t))
    &&& opt_selection_view(after.selection) == fallback_selection(
        row_views(after.rows@),
        before.issues@,
        opt_selection_view(before.selection),
    )
    &&& after.scroll == visible_scroll(
        after.rows@.len() as int,
        selected_row_spec(row_views(after.rows@), opt_selection_view(after.selection)),
        before.scroll as int,
        before.list_height as int,
    )
    &&& after == (JiraState {
        rows: after.rows,
        collapsed: after.collapsed,
        seen_groups: after.seen_groups,
        selection: after.selection,
        scroll: after.scroll,
        ..before
    })
}

/// Whether `after` is `before` with `s` added when missing and removed when
/// present.
pub open spec fn toggled(before: Seq<String>, after: Seq<String>, s: Seq<char>) -> bool {
    forall|t: Seq<char>|
        holds(after, t) <==> if t == s {
            !holds(before, t)
        } else {
            holds(before, t)
        }
}

/// `list` without the strings equal to `s`.
pub(crate) fn without_text(list: &Vec<String>, s: &str) -> (r: Vec<String>)
    ensures
        forall|t: Seq<char>| holds(r@, t) <==> holds(list@, t) && t != s@,
{
    let mut out: Vec<String> = Vec::new();
    let mut i: usize = 0;
    while i < list.len()
        invariant
            i <= list.len(),
            forall|t: Seq<char>| holds(out@, t) <==> holds(list@.take(i as int), t) && t != s@,
        decreases list.len() - i,
    {
        let ghost before = out@;
        let keep = !eq_str(list[i].as_str(), s);
        if keep {
            out.push(list[i].clone());
        }
        proof {
            let prev = list@.take(i as int);
            let next = list@.take(i + 1);
            assert(next =~= prev.push(list@[i as int]));
            assert forall|t: Seq<char>| holds(out@, t) <==> holds(next, t) && t != s@ by {
                if holds(next, t) {
                    let j = choose|j: int| 0 <= j < next.len() && next[j]@ == t;
                    if j < prev.len() {
                        assert(prev[j]@ == t);
                    }
                }
                if holds(prev, t) {
                    let j = choose|j: int| 0 <= j < prev.len() && prev[j]@ == t;
                    assert(next[j]@ == t);
                }
                if holds(out@, t) {
                    let j = choose|j: int| 0 <= j < out@.len() && out@[j]@ == t;
                    if j < before.len() {
                        assert(out@[j] == before[j]);
                    }
                }
                if holds(before, t) {
                    let j = choose|j: int| 0 <= j < before.len() && before[j]@ == t;
                    assert(out@[j] == before[j]);
                }
                if keep && t == list@[i as int]@ {
                    assert(out@[before.len() as int]@ == t);
                    assert(next[i as int]@ == t);
                }
                if t == list@[i as int]@ {
                    assert(next[i as int]@ == t);
                }
            }
        }
        i = i + 1;
    }
    assert(list@.take(list@.len() as int) =~= list@);
    out
}

/// The agent status recorded for `pane`, the first entry of it.
pub open spec fn status_from(pane_status: Seq<(String, String)>, pane: Seq<char>, i: int) -> Option<String>
    decreases pane_status.len() - i,
{
    if i < 0 || i >= pane_status.len() {
        None
    } else if pane_status[i].0@ == pane {
        Some(pane_status[i].1)
    } else {
        status_from(pane_status, pane, i + 1)
    }
}

/// The agent status of the pane of a session, if it has one.
pub open spec fn pane_status_of(pane_status: Seq<(String, String)>, pane: Option<String>) -> Option<String> {
    match pane {
        Some(p) => status_from(pane_status, p@, 0),
        None => None,
    }
}

/// The keys of the issues.
pub open spec fn issue_keys(issues: Seq<Issue>) -> Seq<Seq<char>> {
    issues.map_values(|i: Issue| i.key@)
}

/// The jobs of a refresh request: one, unless a load is running.
pub open spec fn refresh_jobs(loading: bool) -> Seq<Job> {
    if loading {
        Seq::empty()
    } else {
        seq![Job::Refresh]
    }
}

/// Whether `links` are those of `sessions` for `keys`, with the agent status
/// of each one's pane.
pub open spec fn links_with_status(
    links: Seq<(String, LinkedSession)>,
    sessions: Seq<ClaudeSessionInfo>,
    keys: Seq<Seq<char>>,
    pane_status: Seq<(String, String)>,
) -> bool {
    let fold = crate::jira::link_fold(sessions, keys);
    &&& links.len() == fold.len()
    &&& forall|i: int|
        0 <= i < links.len() ==> (#[trigger] links[i]).0@ == fold[i].0 && links[i].1 == (LinkedSession {
            agent_status: pane_status_of(pane_status, fold[i].1.pane_id),
            ..fold[i].1
        })
}

/// What a loaded list does before the rows are rebuilt: loading stops, the
/// error goes, the time is kept, the links and issues are replaced, and the
/// first load selects the issue of the owner's session or worktree.
pub open spec fn list_loaded(
    before: JiraState,
    mid: JiraState,
    issues: Seq<Issue>,
    sessions: Seq<ClaudeSessionInfo>,
    owner: PaneContext,
    pane_status: Seq<(String, String)>,
    now: u64,
) -> bool {
    let pick = crate::jira::preselect_key_spec(
        opt_view(before.owner_pane),
        opt_view(owner.cwd),
        sessions,
        issue_keys(issues),
    );
    &&& !mid.loading
    &&& mid.list_error is None
    &&& mid.last_refresh == Some(now)
    &&& links_with_status(mid.links@, sessions, issue_keys(issues), pane_status)
    &&& mid.issues@ == issues
    &&& mid.preselected
    &&& opt_selection_view(mid.selection) == (if !before.preselected && pick is Some {
        Some(SelectionView::Issue(pick->0))
    } else {
        opt_selection_view(before.selection)
    })
    &&& mid == (JiraState {
        loading: mid.loading,
        list_error: mid.list_error,
        last_refresh: mid.last_refresh,
        links: mid.links,
        issues: mid.issues,
        preselected: mid.preselected,
        selection: mid.selection,
        ..before
    })
}

/// `a` followed by `b`.
fn concat(a: &str, b: &str) -> (r: String)
    ensures
        r@ == a@ + b@,
{
    let mut out = chars_of(a);
    crate::text::extend_chars(&mut out, chars_of(b).as_slice());
    string_of(out.as_slice())
}

/// The agent status recorded for `pane`.
fn pane_status_for(pane_status: &Vec<(String, String)>, pane: &Option<String>) -> (r: Option<String>)
    ensures
        r == pane_status_of(pane_status@, *pane),
{
    match pane {
        None => None,
        Some(p) => {
            let mut i: usize = 0;
            while i < pane_status.len()
                invariant
                    i <= pane_status@.len(),
                    *pane == Some(*p),
                    status_from(pane_status@, p@, 0) == status_from(pane_status@, p@, i as int),
                decreases pane_status@.len() - i,
            {
                if eq_str(pane_status[i].0.as_str(), p.as_str()) {
                    let v = pane_status[i].1.clone();
                    assert(v == pane_status@[i as int].1);
                    assert(status_from(pane_status@, p@, i as int) == Some(v));
                    return Some(v);
                }
                i = i + 1;
            }
            assert(status_from(pane_status@, p@, i as int) is None);
            None
        },
    }
}

/// The keys of the issues, as strings.
fn keys_of(issues: &Vec<Issue>) -> (r: Vec<String>)
    ensures
        string_views(r@) == issue_keys(issues@),
{
    let mut out: Vec<String> = Vec::new();
    let mut i: usize = 0;
    while i < issues.len()
        invariant
            i <= issues@.len(),
            string_views(out@) == issue_keys(issues@).take(i as int),
        decreases issues@.len() - i,
    {
        let ghost before = out@;
        out.push(issues[i].key.clone());
        assert(string_views(out@) =~= string_views(before).push(issues@[i as int].key@));
        assert(issue_keys(issues@).take(i + 1) =~= issue_keys(issues@).take(i as int).push(issues@[i as int].key@));
        i = i + 1;
    }
    assert(issue_keys(issues@).take(issues@.len() as int) =~= issue_keys(issues@));
    out
}

/// The links of `sessions` for `keys`, each with its pane's agent status.
fn links_for(sessions: &Vec<ClaudeSessionInfo>, keys: &Vec<String>, pane_status: &Vec<(String, String)>) -> (r: Vec<
    (String, LinkedSession),
>)
    ensures
        links_with_status(r@, sessions@, string_views(keys@), pane_status@),
{
    let links = link_sessions(sessions.as_slice(), keys.as_slice());
    let ghost fold = crate::jira::link_fold(sessions@, string_views(keys@));
    assert(crate::jira::link_views(links@) == fold);
    let mut out: Vec<(String, LinkedSession)> = Vec::new();
    let mut i: usize = 0;
    while i < links.len()
        invariant
            i <= links@.len(),
            crate::jira::link_views(links@) == fold,
            out@.len() == i,
            forall|k: int|
                0 <= k < i ==> (#[trigger] out@[k]).0@ == fold[k].0 && out@[k].1 == (LinkedSession {
                    agent_status: pane_status_of(pane_status@, fold[k].1.pane_id),
                    ..fold[k].1
                }),
        decreases links@.len() - i,
    {
        let (key, link) = (&links[i].0, &links[i].1);
        assert(fold[i as int] == (key@, *link));
        let status = pane_status_for(pane_status, &link.pane_id);
        out.push(
            (
                key.clone(),
                LinkedSession {
                    session_id: link.session_id.clone(),
                    pane_id: crate::sessions::duplicate_option(&link.pane_id),
                    agent_status: status,
                    updated_at_ms: link.updated_at_ms,
                },
            ),
        );
        i = i + 1;
    }
    out
}

/// The collector phase a report moves the popup to: a dry run ends in a
/// preview, a run in its result; a failure shows its error. None when the
/// popup does not wait for this report.
pub open spec fn gc_next_phase(popup: Option<Popup>, apply: bool, result: Result<GcReport, String>) -> Option<GcPhase> {
    match popup {
        Some(Popup::WorktreeGc { phase: GcPhase::Loading, .. }) if !apply => Some(
            match result {
                Ok(report) => GcPhase::Preview(report),
                Err(e) => GcPhase::Failed(e),
            },
        ),
        Some(Popup::WorktreeGc { phase: GcPhase::Applying(_), .. }) if apply => Some(
            match result {
                Ok(report) => GcPhase::Done(report),
                Err(e) => GcPhase::Failed(e),
            },
        ),
        _ => None,
    }
}

/// The key of the issue shown in detail.
pub open spec fn detail_key(view: ViewState) -> Option<Seq<char>> {
    match view {
        ViewState::Detail { key, .. } => Some(key@),
        ViewState::List => None,
    }
}

/// The job that reloads the detail shown, if one is.
pub open spec fn detail_jobs(view: ViewState) -> Seq<Job> {
    match view {
        ViewState::Detail { key, .. } => seq![Job::Detail(key)],
        ViewState::List => Seq::empty(),
    }
}

/// The session linked to `key`, the first entry of it.
pub open spec fn link_from(links: Seq<(String, LinkedSession)>, key: Seq<char>, i: int) -> Option<LinkedSession>
    decreases links.len() - i,
{
    if i < 0 || i >= links.len() {
        None
    } else if links[i].0@ == key {
        Some(links[i].1)
    } else {
        link_from(links, key, i + 1)
    }
}

/// What sending the comment does: nothing while it is being sent; an empty
/// comment (blank once trimmed) is refused with a notice; else it is marked
/// as being sent and the job carries it.
pub open spec fn comment_sent(before: JiraState, after: JiraState, job: Option<Job>, now: u64) -> bool {
    match before.popup {
        Some(Popup::Comment { key, text, cursor, sending }) => if sending {
            job is None && after == before
        } else if crate::text::trim_spec(text@).len() == 0 {
            &&& job is None
            &&& after.notice matches Some(n) && n.text@ == "comentário vazio"@ && n.error && n.at == now
            &&& after == (JiraState { notice: after.notice, ..before })
        } else {
            &&& job matches Some(Job::Comment { key: k, text: t }) && k == key && t@ == text@
            &&& after == (JiraState {
                popup: Some(Popup::Comment { key: key, text: text, cursor: cursor, sending: true }),
                ..before
            })
        },
        _ => job is None && after == before,
    }
}

/// The notice of a transition that asks for fields: its name and the fields,
/// and that the browser opens.
pub open spec fn fields_notice(t: Transition) -> Seq<char> {
    "\""@ + t.name@ + "\" pede "@ + crate::split::join_with(string_views(t.required_fields@), ", "@)
        + "; abrindo no browser"@
}

/// What choosing transition `index` does: nothing unless the transitions
/// popup lists it. It closes the popup; a transition that asks for fields
/// opens the issue in the browser with an error notice; any other moves the
/// issue (in the list and in the detail) to its status at once, rebuilds the
/// rows, notes the move and asks for it.
pub open spec fn transition_chosen(before: JiraState, after: JiraState, r: Effects, index: usize, now: u64) -> bool {
    match before.popup {
        Some(Popup::Transitions { key, transitions: Some(ts), .. }) if index < ts@.len() => {
            let t = ts@[index as int];
            if t.required_fields@.len() > 0 {
                &&& r.jobs@.len() == 1
                &&& r.jobs@[0] matches Job::OpenUrl(u) && u@ == before.browse_base@ + key@
                &&& after.notice matches Some(n) && n.text@ == fields_notice(t) && n.error && n.at == now
                &&& after == (JiraState { popup: None, notice: after.notice, ..before })
            } else {
                &&& r.jobs@ =~= seq![Job::Transition { key: key, transition_id: t.id, to: t.to }]
                &&& after.notice matches Some(n) && n.text@ == "movendo "@ + key@ + " → "@ + t.to@ + "…"@
                    && !n.error && n.at == now
                &&& exists|mid: JiraState, rows_done: JiraState|
                    {
                        &&& mid.popup is None
                        &&& mid.issues@ == (match issue_index(before.issues@, key@) {
                            Some(i) => before.issues@.update(i, Issue { status: t.to, ..before.issues@[i] }),
                            None => before.issues@,
                        })
                        &&& match before.view {
                            ViewState::Detail { key: dk, detail: Some(d), error, scroll } if dk@ == key@ => {
                                &&& mid.view matches ViewState::Detail {
                                    key: k2,
                                    detail: Some(d2),
                                    error: e2,
                                    scroll: s2,
                                }
                                &&& k2 == dk && e2 == error && s2 == scroll
                                &&& d2 == (IssueDetail { issue: Issue { status: t.to, ..d.issue }, ..d })
                            },
                            _ => mid.view == before.view,
                        }
                        &&& mid == (JiraState { popup: None, issues: mid.issues, view: mid.view, ..before })
                        &&& rebuilt(mid, rows_done)
                        &&& after == (JiraState { notice: after.notice, ..rows_done })
                    }
            }
        },
        _ => r.jobs@.len() == 0 && after == before,
    }
}

/// A copy of a transition.
fn copy_transition(t: &Transition) -> (r: Transition)
    ensures
        r.id == t.id,
        r.name == t.name,
        r.to == t.to,
        r.required_fields@ == t.required_fields@,
{
    let mut fields: Vec<String> = Vec::new();
    let mut i: usize = 0;
    while i < t.required_fields.len()
        invariant
            i <= t.required_fields@.len(),
            fields@ == t.required_fields@.take(i as int),
        decreases t.required_fields@.len() - i,
    {
        fields.push(t.required_fields[i].clone());
        assert(t.required_fields@.take(i + 1) =~= t.required_fields@.take(i as int).push(t.required_fields@[i as int]));
        i = i + 1;
    }
    assert(t.required_fields@.take(t.required_fields@.len() as int) =~= t.required_fields@);
    Transition { id: t.id.clone(), name: t.name.clone(), to: t.to.clone(), required_fields: fields }
}

/// The fields a transition asks for, joined by commas.
fn joined_fields(fields: &Vec<String>) -> (r: String)
    ensures
        r@ == crate::split::join_with(string_views(fields@), ", "@),
{
    let mut parts: Vec<Vec<char>> = Vec::new();
    let mut i: usize = 0;
    while i < fields.len()
        invariant
            i <= fields@.len(),
            crate::split::views(parts@) == string_views(fields@).take(i as int),
        decreases fields@.len() - i,
    {
        let ghost before = parts@;
        parts.push(chars_of(fields[i].as_str()));
        assert(crate::split::views(parts@) =~= crate::split::views(before).push(fields@[i as int]@));
        assert(string_views(fields@).take(i + 1) =~= string_views(fields@).take(i as int).push(fields@[i as int]@));
        i = i + 1;
    }
    assert(string_views(fields@).take(fields@.len() as int) =~= string_views(fields@));
    string_of(crate::split::join_parts(&parts, chars_of(", ").as_slice()).as_slice())
}

/// The issue the actions apply to: the one shown in detail, else the
/// selected issue.
pub open spec fn target_of(s: JiraState) -> Option<String> {
    match s.view {
        ViewState::Detail { key, .. } => Some(key),
        ViewState::List => match s.selection {
            Some(Selection::Issue(key)) => Some(key),
            _ => None,
        },
    }
}

/// What an action does (see `JiraState::action`).
pub open spec fn acted(before: JiraState, after: JiraState, r: Effects, action: Action, now: u64) -> bool {
    &&& !r.quit
    &&& match action {
        Action::Refresh => r.jobs@ =~= refresh_jobs(before.loading) + detail_jobs(before.view) && after == (
        JiraState { loading: true, ..before }),
        Action::Back => r.jobs@.len() == 0 && if before.popup is Some {
            after == (JiraState { popup: None, ..before })
        } else {
            &&& after.view is List
            &&& after.scroll == visible_scroll(
                before.rows@.len() as int,
                selected_row_spec(row_views(before.rows@), opt_selection_view(before.selection)),
                before.scroll as int,
                before.list_height as int,
            )
            &&& after == (JiraState { view: after.view, scroll: after.scroll, ..before })
        },
        Action::Cancel | Action::Close => r.jobs@.len() == 0 && after == (JiraState { popup: None, ..before }),
        Action::CleanWorktrees => match before.popup {
            Some(Popup::WorktreeGc { phase: GcPhase::Applying(_), .. }) => r.jobs@.len() == 0 && after == before,
            _ => r.jobs@ =~= seq![Job::WorktreeGc { apply: false }] && after == (JiraState {
                popup: Some(Popup::WorktreeGc { phase: GcPhase::Loading, scroll: 0 }),
                ..before
            }),
        },
        Action::Confirm => match before.popup {
            Some(Popup::WorktreeGc { phase: GcPhase::Preview(report), .. }) => if report.removable@.len() > 0
                || report.orphans@.len() > 0 {
                r.jobs@ =~= seq![Job::WorktreeGc { apply: true }] && after == (JiraState {
                    popup: Some(Popup::WorktreeGc { phase: GcPhase::Applying(report), scroll: 0 }),
                    ..before
                })
            } else {
                r.jobs@.len() == 0 && after == (JiraState { popup: None, ..before })
            },
            Some(Popup::WorktreeGc { phase: GcPhase::Done(_), .. }) | Some(
                Popup::WorktreeGc { phase: GcPhase::Failed(_), .. },
            ) => r.jobs@.len() == 0 && after == (JiraState { popup: None, ..before }),
            _ => r.jobs@.len() == 0 && after == before,
        },
        Action::Send => exists|job: Option<Job>|
            comment_sent(before, after, job, now) && r.jobs@ == match job {
                Some(j) => seq![j],
                None => Seq::empty(),
            },
        _ => match target_of(before) {
            None => {
                &&& r.jobs@.len() == 0
                &&& after.notice matches Some(n) && n.text@ == "selecione uma task"@ && n.error && n.at == now
                &&& after == (JiraState { notice: after.notice, ..before })
            },
            Some(key) => match action {
                Action::Move => r.jobs@ =~= seq![Job::Transitions(key)] && after == (JiraState {
                    popup: Some(Popup::Transitions { key: key, transitions: None, error: None, selected: 0 }),
                    ..before
                }),
                Action::Comment => {
                    &&& r.jobs@.len() == 0
                    &&& after.popup matches Some(Popup::Comment { key: k, text, cursor, sending }) && k == key
                        && text@.len() == 0 && cursor == 0 && !sending
                    &&& after == (JiraState { popup: after.popup, ..before })
                },
                Action::AssignMe => r.jobs@ =~= seq![Job::AssignMe(key)] && after == before,
                Action::Browser => {
                    &&& r.jobs@.len() == 1
                    &&& r.jobs@[0] matches Job::OpenUrl(u) && u@ == before.browse_base@ + key@
                    &&& after == before
                },
                _ => r.jobs@ =~= seq![Job::Session { key: key, link: link_from(before.links@, key@, 0) }]
                    && after == before,
            },
        },
    }
}

/// The session linked to `key`.
fn link_of(links: &Vec<(String, LinkedSession)>, key: &str) -> (r: Option<LinkedSession>)
    ensures
        r == link_from(links@, key@, 0),
{
    let mut i: usize = 0;
    while i < links.len()
        invariant
            i <= links@.len(),
            link_from(links@, key@, 0) == link_from(links@, key@, i as int),
        decreases links@.len() - i,
    {
        if eq_str(links[i].0.as_str(), key) {
            let l = &links[i].1;
            let copy = LinkedSession {
                session_id: l.session_id.clone(),
                pane_id: crate::sessions::duplicate_option(&l.pane_id),
                agent_status: crate::sessions::duplicate_option(&l.agent_status),
                updated_at_ms: l.updated_at_ms,
            };
            assert(copy == links@[i as int].1);
            return Some(copy);
        }
        i = i + 1;
    }
    None
}

/// What selecting row `index` does (see `JiraState::select_row`).
pub open spec fn row_chosen(before: JiraState, after: JiraState, index: usize) -> bool {
    if index >= before.rows@.len() {
        after == before
    } else {
        &&& opt_selection_view(after.selection) == Some(selection_of(row_views(before.rows@)[index as int]))
        &&& after.scroll == visible_scroll(
            before.rows@.len() as int,
            selected_row_spec(row_views(before.rows@), opt_selection_view(after.selection)),
            before.scroll as int,
            before.list_height as int,
        )
        &&& after == (JiraState { selection: after.selection, scroll: after.scroll, ..before })
    }
}

/// What folding or unfolding a detail section does.
pub open spec fn section_toggled(before: JiraState, after: JiraState, section: DetailSection) -> bool {
    &&& forall|x: DetailSection|
        after.collapsed_sections@.contains(x) <==> if x == section {
            !before.collapsed_sections@.contains(x)
        } else {
            before.collapsed_sections@.contains(x)
        }
    &&& after == (JiraState { collapsed_sections: after.collapsed_sections, ..before })
}

/// What folding or unfolding the group of `status` does: the fold flips,
/// its header is selected, and the rows are rebuilt.
pub open spec fn group_toggled(before: JiraState, after: JiraState, status: Seq<char>) -> bool {
    exists|mid: JiraState|
        toggled(before.collapsed@, mid.collapsed@, status) && opt_selection_view(mid.selection) == Some(
            SelectionView::Header(status),
        ) && mid == (JiraState { collapsed: mid.collapsed, selection: mid.selection, ..before }) && rebuilt(
            mid,
            after,
        )
}

/// `c` kept within `0..=len`.
pub open spec fn clamp(c: int, len: int) -> int {
    if c <= len {
        c
    } else {
        len
    }
}

/// Where the line of position `c` starts: after the last line break before
/// it, or at the start.
pub open spec fn line_start(text: Seq<char>, c: int) -> int
    decreases c,
{
    if c <= 0 {
        0
    } else if text[c - 1] == '\n' {
        c
    } else {
        line_start(text, c - 1)
    }
}

/// Where the line of position `c` ends: at the next line break from it, or
/// at the end.
pub open spec fn line_end(text: Seq<char>, c: int) -> int
    decreases text.len() - c,
{
    if c >= text.len() {
        text.len() as int
    } else if text[c] == '\n' {
        c
    } else {
        line_end(text, c + 1)
    }
}

/// `text` with `v` typed at `c`, and the cursor after it.
pub open spec fn typed(text: Seq<char>, c: int, v: Seq<char>) -> (Seq<char>, int) {
    (text.take(c) + v + text.skip(c), c + v.len())
}

/// What a key does to the comment being edited, with the cursor at `c`:
/// Enter breaks the line, a character (without Ctrl) is typed, Tab types two
/// spaces, Backspace and Delete remove the character before or after the
/// cursor, the arrows move it by one, Home and End to the ends of its line.
pub open spec fn comment_edit(text: Seq<char>, c: int, key: KeyPress) -> (Seq<char>, int) {
    match key.code {
        KeyCode::Enter => typed(text, c, seq!['\n']),
        KeyCode::Char(ch) => if !key.ctrl {
            typed(text, c, seq![ch])
        } else {
            (text, c)
        },
        KeyCode::Tab => typed(text, c, seq![' ', ' ']),
        KeyCode::Backspace => if c > 0 {
            (text.take(c - 1) + text.skip(c), c - 1)
        } else {
            (text, c)
        },
        KeyCode::Delete => if c < text.len() {
            (text.take(c) + text.skip(c + 1), c)
        } else {
            (text, c)
        },
        KeyCode::Left => if c > 0 {
            (text, c - 1)
        } else {
            (text, c)
        },
        KeyCode::Right => if c < text.len() {
            (text, c + 1)
        } else {
            (text, c)
        },
        KeyCode::Home => (text, line_start(text, c)),
        KeyCode::End => (text, line_end(text, c)),
        _ => (text, c),
    }
}

/// The action of a key outside popups, if it has one.
pub open spec fn key_action(code: KeyCode) -> Option<Action> {
    match code {
        KeyCode::Char('m') => Some(Action::Move),
        KeyCode::Char('c') => Some(Action::Comment),
        KeyCode::Char('a') => Some(Action::AssignMe),
        KeyCode::Char('o') => Some(Action::Browser),
        KeyCode::Char('w') => Some(Action::Session),
        KeyCode::Char('r') => Some(Action::Refresh),
        KeyCode::Char('L') => Some(Action::CleanWorktrees),
        _ => None,
    }
}

/// `a - b`, or 0 below it.
pub open spec fn sat_sub(a: int, b: int) -> int {
    if a > b {
        a - b
    } else {
        0
    }
}

/// `a + b`, or `usize::MAX` above it.
pub open spec fn sat_add(a: int, b: int) -> int {
    if a + b > usize::MAX {
        usize::MAX as int
    } else {
        a + b
    }
}

/// The smaller of two numbers.
pub open spec fn min_int(a: int, b: int) -> int {
    if a < b {
        a
    } else {
        b
    }
}

/// The row a list key moves to from the selected row (or the first row when
/// none is selected).
pub open spec fn list_target(before: JiraState, code: KeyCode) -> Option<int> {
    let current = selected_row_spec(row_views(before.rows@), opt_selection_view(before.selection));
    let last = sat_sub(before.rows@.len() as int, 1);
    let height = if before.list_height < 1 {
        1
    } else {
        before.list_height as int
    };
    match code {
        KeyCode::Down | KeyCode::Char('j') => Some(
            match current {
                Some(row) => min_int(row + 1, last),
                None => 0,
            },
        ),
        KeyCode::Up | KeyCode::Char('k') => Some(
            match current {
                Some(row) => sat_sub(row, 1),
                None => 0,
            },
        ),
        KeyCode::PageDown => Some(
            match current {
                Some(row) => min_int(row + height, last),
                None => 0,
            },
        ),
        KeyCode::PageUp => Some(
            match current {
                Some(row) => sat_sub(row, height),
                None => 0,
            },
        ),
        KeyCode::Home | KeyCode::Char('g') => Some(0),
        KeyCode::End | KeyCode::Char('G') => Some(last),
        _ => None,
    }
}

/// The detail scroll after a key, if the key scrolls it.
pub open spec fn detail_scroll(scroll: int, detail_height: int, code: KeyCode) -> Option<int> {
    let page = if detail_height < 1 {
        1
    } else {
        detail_height
    };
    match code {
        KeyCode::Down | KeyCode::Char('j') => Some(sat_add(scroll, 1)),
        KeyCode::Up | KeyCode::Char('k') => Some(sat_sub(scroll, 1)),
        KeyCode::PageDown | KeyCode::Char(' ') => Some(sat_add(scroll, page)),
        KeyCode::PageUp => Some(sat_sub(scroll, page)),
        KeyCode::Home | KeyCode::Char('g') => Some(0),
        KeyCode::End | KeyCode::Char('G') => Some(usize::MAX as int),
        _ => None,
    }
}

/// Nothing happens.
pub open spec fn unchanged(before: JiraState, after: JiraState, r: Effects) -> bool {
    r.jobs@.len() == 0 && !r.quit && after == before
}

/// What a key does (see `JiraState::key`). In the comment editor: Esc
/// closes it, Ctrl+S (or Ctrl/Alt+Enter) sends, other keys edit unless the
/// comment is being sent. In the collector popup: Esc/q close, Enter
/// confirms, the arrows and page keys scroll. In the transitions popup:
/// Esc/q close, the arrows move the selection, Enter chooses it, and a digit
/// from 1 chooses that transition. Outside popups the action keys act; in
/// the detail `p` and `t` fold sections, Esc/Backspace/q/Left go back and
/// the other keys scroll; in the list `q` quits, the move keys select a row,
/// and Enter/Right/Space fold a group or open an issue.
pub open spec fn key_handled(before: JiraState, after: JiraState, r: Effects, key: KeyPress, now: u64) -> bool {
    match before.popup {
        Some(Popup::Comment { key: k, text, cursor, sending }) => if key.code == KeyCode::Esc {
            r.jobs@.len() == 0 && !r.quit && after == (JiraState { popup: None, ..before })
        } else if (key.code == KeyCode::Char('s') && key.ctrl) || (key.code == KeyCode::Enter && (key.ctrl
            || key.alt)) {
            acted(before, after, r, Action::Send, now)
        } else if sending {
            unchanged(before, after, r)
        } else {
            let edit = comment_edit(text@, clamp(cursor as int, text@.len() as int), key);
            &&& r.jobs@.len() == 0
            &&& !r.quit
            &&& after.popup matches Some(Popup::Comment { key: k2, text: t2, cursor: c2, sending: s2 }) && k2 == k
                && t2@ == edit.0 && c2 == edit.1 && !s2
            &&& after == (JiraState { popup: after.popup, ..before })
        },
        Some(Popup::WorktreeGc { phase, scroll }) => match key.code {
            KeyCode::Esc | KeyCode::Char('q') => acted(before, after, r, Action::Close, now),
            KeyCode::Enter => acted(before, after, r, Action::Confirm, now),
            _ => {
                let next = match key.code {
                    KeyCode::Up | KeyCode::Char('k') => sat_sub(scroll as int, 1),
                    KeyCode::Down | KeyCode::Char('j') => sat_add(scroll as int, 1),
                    KeyCode::PageUp => sat_sub(scroll as int, 5),
                    KeyCode::PageDown => sat_add(scroll as int, 5),
                    _ => scroll as int,
                };
                r.jobs@.len() == 0 && !r.quit && after == (JiraState {
                    popup: Some(Popup::WorktreeGc { phase: phase, scroll: next as usize }),
                    ..before
                })
            },
        },
        Some(Popup::Transitions { key: k, transitions, error, selected }) => {
            let count = match transitions {
                Some(ts) => ts@.len() as int,
                None => 0,
            };
            match key.code {
                KeyCode::Esc | KeyCode::Char('q') => r.jobs@.len() == 0 && !r.quit && after == (JiraState {
                    popup: None,
                    ..before
                }),
                KeyCode::Up | KeyCode::Char('k') | KeyCode::Down | KeyCode::Char('j') => {
                    let next = if key.code == KeyCode::Up || key.code == KeyCode::Char('k') {
                        sat_sub(selected as int, 1)
                    } else {
                        min_int(selected + 1, sat_sub(count, 1))
                    };
                    r.jobs@.len() == 0 && !r.quit && after == (JiraState {
                        popup: Some(
                            Popup::Transitions { key: k, transitions: transitions, error: error, selected: next as usize },
                        ),
                        ..before
                    })
                },
                KeyCode::Enter => transition_chosen(before, after, r, selected, now),
                KeyCode::Char(ch) => if '1' <= ch <= '9' && (ch as int) - ('1' as int) < count {
                    transition_chosen(before, after, r, ((ch as int) - ('1' as int)) as usize, now)
                } else {
                    unchanged(before, after, r)
                },
                _ => unchanged(before, after, r),
            }
        },
        None => match key_action(key.code) {
            Some(action) => acted(before, after, r, action, now),
            None => match before.view {
                ViewState::Detail { key: dk, detail, error, scroll } => match key.code {
                    KeyCode::Char('p') => r.jobs@.len() == 0 && !r.quit && section_toggled(
                        before,
                        after,
                        DetailSection::PullRequests,
                    ),
                    KeyCode::Char('t') => r.jobs@.len() == 0 && !r.quit && section_toggled(
                        before,
                        after,
                        DetailSection::Worktrees,
                    ),
                    KeyCode::Esc | KeyCode::Backspace | KeyCode::Char('q') | KeyCode::Left => acted(
                        before,
                        after,
                        r,
                        Action::Back,
                        now,
                    ),
                    code => match detail_scroll(scroll as int, before.detail_height as int, code) {
                        Some(next) => r.jobs@.len() == 0 && !r.quit && after == (JiraState {
                            view: ViewState::Detail { key: dk, detail: detail, error: error, scroll: next as usize },
                            ..before
                        }),
                        None => unchanged(before, after, r),
                    },
                },
                ViewState::List => match key.code {
                    KeyCode::Char('q') => r.jobs@.len() == 0 && r.quit && after == before,
                    KeyCode::Enter | KeyCode::Right | KeyCode::Char(' ') => match before.selection {
                        Some(Selection::Header(status)) => r.jobs@.len() == 0 && !r.quit && group_toggled(
                            before,
                            after,
                            status@,
                        ),
                        Some(Selection::Issue(k)) => r.jobs@ =~= seq![Job::Detail(k)] && !r.quit && after == (
                        JiraState {
                            selection: Some(Selection::Issue(k)),
                            view: ViewState::Detail { key: k, detail: None, error: None, scroll: 0 },
                            ..before
                        }),
                        None => unchanged(before, after, r),
                    },
                    code => match list_target(before, code) {
                        Some(index) => r.jobs@.len() == 0 && !r.quit && row_chosen(before, after, index as usize),
                        None => unchanged(before, after, r),
                    },
                },
            },
        },
    }
}

/// The comment text and cursor after a key.
fn edit_comment(text: &mut Vec<char>, cursor: &mut usize, key: KeyPress)
    ensures
        (final(text)@, *final(cursor) as int) == comment_edit(
            old(text)@,
            clamp(*old(cursor) as int, old(text)@.len() as int),
            key,
        ),
{
    if *cursor > text.len() {
        *cursor = text.len();
    }
    let c = *cursor;
    let ghost t0 = text@;
    match key.code {
        KeyCode::Enter => {
            text.insert(c, '\n');
            let n = text.len();
            assert(c < n);
            *cursor = c + 1;
            assert(text@ =~= t0.take(c as int) + seq!['\n'] + t0.skip(c as int));
        },
        KeyCode::Char(ch) => {
            if !key.ctrl {
                text.insert(c, ch);
                let n = text.len();
                assert(c < n);
                *cursor = c + 1;
                assert(text@ =~= t0.take(c as int) + seq![ch] + t0.skip(c as int));
            }
        },
        KeyCode::Tab => {
            text.insert(c, ' ');
            text.insert(c, ' ');
            let n = text.len();
            assert(c + 1 < n);
            *cursor = c + 2;
            assert(text@ =~= t0.take(c as int) + seq![' ', ' '] + t0.skip(c as int));
        },
        KeyCode::Backspace => {
            if c > 0 {
                text.remove(c - 1);
                *cursor = c - 1;
                assert(text@ =~= t0.take(c - 1) + t0.skip(c as int));
            }
        },
        KeyCode::Delete => {
            if c < text.len() {
                text.remove(c);
                assert(text@ =~= t0.take(c as int) + t0.skip(c + 1));
            }
        },
        KeyCode::Left => {
            if c > 0 {
                *cursor = c - 1;
            }
        },
        KeyCode::Right => {
            if c < text.len() {
                *cursor = c + 1;
            }
        },
        KeyCode::Home => {
            let mut i = c;
            while i > 0 && text[i - 1] != '\n'
                invariant
                    i <= c <= text@.len(),
                    text@ == t0,
                    line_start(t0, c as int) == line_start(t0, i as int),
                decreases i,
            {
                i = i - 1;
            }
            *cursor = i;
        },
        KeyCode::End => {
            let mut i = c;
            while i < text.len() && text[i] != '\n'
                invariant
                    c <= i <= text@.len(),
                    text@ == t0,
                    line_end(t0, c as int) == line_end(t0, i as int),
                decreases text@.len() - i,
            {
                i = i + 1;
            }
            *cursor = i;
        },
        _ => {},
    }
}

/// The action of a key outside popups.
fn action_of_key(code: KeyCode) -> (r: Option<Action>)
    ensures
        r == key_action(code),
{
    match code {
        KeyCode::Char('m') => Some(Action::Move),
        KeyCode::Char('c') => Some(Action::Comment),
        KeyCode::Char('a') => Some(Action::AssignMe),
        KeyCode::Char('o') => Some(Action::Browser),
        KeyCode::Char('w') => Some(Action::Session),
        KeyCode::Char('r') => Some(Action::Refresh),
        KeyCode::Char('L') => Some(Action::CleanWorktrees),
        _ => None,
    }
}

/// The detail scroll after a key.
fn next_detail_scroll(scroll: usize, detail_height: usize, code: KeyCode) -> (r: Option<usize>)
    ensures
        r matches Some(n) ==> detail_scroll(scroll as int, detail_height as int, code) == Some(n as int),
        r is None ==> detail_scroll(scroll as int, detail_height as int, code) is None,
{
    let page = if detail_height < 1 {
        1
    } else {
        detail_height
    };
    match code {
        KeyCode::Down | KeyCode::Char('j') => Some(scroll.saturating_add(1)),
        KeyCode::Up | KeyCode::Char('k') => Some(scroll.saturating_sub(1)),
        KeyCode::PageDown | KeyCode::Char(' ') => Some(scroll.saturating_add(page)),
        KeyCode::PageUp => Some(scroll.saturating_sub(page)),
        KeyCode::Home | KeyCode::Char('g') => Some(0),
        KeyCode::End | KeyCode::Char('G') => Some(usize::MAX),
        _ => None,
    }
}

/// Whether two hits point at the same thing.
pub open spec fn same_hit_spec(a: Hit, b: Hit) -> bool {
    match (a, b) {
        (Hit::Row(x), Hit::Row(y)) => x == y,
        (Hit::Section(x), Hit::Section(y)) => x == y,
        (Hit::Worktree(x), Hit::Worktree(y)) => x == y,
        (Hit::Dot(x), Hit::Dot(y)) => x@ == y@,
        (Hit::Button(x), Hit::Button(y)) => x == y,
        (Hit::MenuItem(x), Hit::MenuItem(y)) => x == y,
        (Hit::Link(x), Hit::Link(y)) => x@ == y@,
        (Hit::PopupArea, Hit::PopupArea) => true,
        _ => false,
    }
}

/// `a + b` kept within `u16`.
pub open spec fn sat_add16(a: int, b: int) -> int {
    if a + b > u16::MAX {
        u16::MAX as int
    } else {
        a + b
    }
}

/// Whether the cell at `column`, `row` lies in `rect`.
pub open spec fn rect_contains(rect: Rect, column: u16, row: u16) -> bool {
    column >= rect.x && column < sat_add16(rect.x as int, rect.width as int) && row >= rect.y && row
        < sat_add16(rect.y as int, rect.height as int)
}

/// The topmost of the first `n` hits at a cell: the last one drawn there.
pub open spec fn hit_below(hits: Seq<(Rect, Hit)>, column: u16, row: u16, n: int) -> Option<int>
    decreases n,
{
    if n <= 0 {
        None
    } else if rect_contains(hits[n - 1].0, column, row) {
        Some(n - 1)
    } else {
        hit_below(hits, column, row, n - 1)
    }
}

/// What a wheel step does: in the transitions popup it moves the selection;
/// in the collector popup and the detail it scrolls by a step; in the list it
/// scrolls by a step within the rows; over the comment editor nothing.
pub open spec fn wheel_moved(before: JiraState, after: JiraState, down: bool) -> bool {
    match before.popup {
        Some(Popup::Transitions { key, transitions, error, selected }) => {
            let count = match transitions {
                Some(ts) => ts@.len() as int,
                None => 0,
            };
            let next = if down {
                min_int(selected + 1, sat_sub(count, 1))
            } else {
                sat_sub(selected as int, 1)
            };
            after == (JiraState {
                popup: Some(
                    Popup::Transitions { key: key, transitions: transitions, error: error, selected: next as usize },
                ),
                ..before
            })
        },
        Some(Popup::WorktreeGc { phase, scroll }) => {
            let next = if down {
                sat_add(scroll as int, WHEEL_STEP as int)
            } else {
                sat_sub(scroll as int, WHEEL_STEP as int)
            };
            after == (JiraState { popup: Some(Popup::WorktreeGc { phase: phase, scroll: next as usize }), ..before })
        },
        Some(_) => after == before,
        None => match before.view {
            ViewState::Detail { key, detail, error, scroll } => {
                let next = if down {
                    sat_add(scroll as int, WHEEL_STEP as int)
                } else {
                    sat_sub(scroll as int, WHEEL_STEP as int)
                };
                after == (JiraState {
                    view: ViewState::Detail { key: key, detail: detail, error: error, scroll: next as usize },
                    ..before
                })
            },
            ViewState::List => {
                let height = if before.list_height < 1 {
                    1
                } else {
                    before.list_height as int
                };
                let max = sat_sub(before.rows@.len() as int, height);
                let next = if down {
                    min_int(sat_add(before.scroll as int, WHEEL_STEP as int), max)
                } else {
                    sat_sub(before.scroll as int, WHEEL_STEP as int)
                };
                after == (JiraState { scroll: next as usize, ..before })
            },
        },
    }
}

/// What a click on `hit` does: a button acts; a menu item selects and
/// chooses that transition; a section header folds it; a worktree opens; a
/// link opens in the browser; a session dot selects its issue and opens its
/// session; a row header folds its group, and an issue row is selected and,
/// on a double click, opened.
pub open spec fn clicked(before: JiraState, after: JiraState, r: Effects, hit: Hit, double: bool, now: u64) -> bool {
    match hit {
        Hit::Button(action) => acted(before, after, r, action, now),
        Hit::MenuItem(index) => {
            let mid = match before.popup {
                Some(Popup::Transitions { key, transitions, error, .. }) => JiraState {
                    popup: Some(Popup::Transitions { key: key, transitions: transitions, error: error, selected: index }),
                    ..before
                },
                _ => before,
            };
            transition_chosen(mid, after, r, index, now)
        },
        Hit::PopupArea => unchanged(before, after, r),
        Hit::Section(section) => r.jobs@.len() == 0 && !r.quit && section_toggled(before, after, section),
        Hit::Worktree(index) => !r.quit && after == before && r.jobs@ =~= match before.open_worktree_spec(index) {
            Some(j) => seq![j],
            None => Seq::empty(),
        },
        Hit::Link(url) => !r.quit && after == before && r.jobs@ =~= seq![Job::OpenUrl(url)],
        Hit::Dot(key) => acted(JiraState { selection: Some(Selection::Issue(key)), ..before }, after, r, Action::Session, now),
        Hit::Row(index) => if index >= before.rows@.len() {
            unchanged(before, after, r)
        } else {
            match before.rows@[index as int] {
                Row::Header { status, .. } => r.jobs@.len() == 0 && !r.quit && group_toggled(before, after, status@),
                Row::Issue(key) => exists|mid: JiraState|
                    row_chosen(before, mid, index) && !r.quit && if double {
                        r.jobs@ =~= seq![Job::Detail(key)] && after == (JiraState {
                            last_click: None,
                            selection: Some(Selection::Issue(key)),
                            view: ViewState::Detail { key: key, detail: None, error: None, scroll: 0 },
                            ..mid
                        })
                    } else {
                        r.jobs@.len() == 0 && after == mid
                    },
            }
        },
    }
}

/// What a mouse event does: the wheel scrolls; a left press hits the topmost
/// clickable area under it, noting it for double clicks (two presses on the
/// same area at most `DOUBLE_CLICK_MS` apart), and a press on nothing closes
/// the transitions popup.
pub open spec fn mouse_handled(before: JiraState, after: JiraState, r: Effects, m: MouseInput, now: u64) -> bool {
    match m.kind {
        MouseKind::ScrollDown => r.jobs@.len() == 0 && !r.quit && wheel_moved(before, after, true),
        MouseKind::ScrollUp => r.jobs@.len() == 0 && !r.quit && wheel_moved(before, after, false),
        MouseKind::LeftDown => match hit_below(before.hits@, m.column, m.row, before.hits@.len() as int) {
            Some(i) => {
                let h = before.hits@[i].1;
                let double = match before.last_click {
                    Some(last) => sat_sub(now as int, last.0 as int) <= DOUBLE_CLICK_MS && same_hit_spec(last.1, h),
                    None => false,
                };
                clicked(JiraState { last_click: Some((now, h)), ..before }, after, r, h, double, now)
            },
            None => r.jobs@.len() == 0 && !r.quit && after == (JiraState {
                last_click: None,
                popup: match before.popup {
                    Some(Popup::Transitions { .. }) => None,
                    p => p,
                },
                ..before
            }),
        },
        MouseKind::Other => unchanged(before, after, r),
    }
}

/// `text` with carriage returns turned into line breaks, a CR LF pair into
/// one.
pub open spec fn unix_newlines(text: Seq<char>) -> Seq<char>
    decreases text.len(),
{
    if text.len() == 0 {
        Seq::empty()
    } else if text[0] == '\r' && text.len() > 1 && text[1] == '\n' {
        unix_newlines(text.skip(1))
    } else if text[0] == '\r' {
        seq!['\n'] + unix_newlines(text.skip(1))
    } else {
        seq![text[0]] + unix_newlines(text.skip(1))
    }
}

/// Whether two hits point at the same thing.
fn same_hit(a: &Hit, b: &Hit) -> (r: bool)
    ensures
        r == same_hit_spec(*a, *b),
{
    match (a, b) {
        (Hit::Row(x), Hit::Row(y)) => *x == *y,
        (Hit::Section(x), Hit::Section(y)) => *x == *y,
        (Hit::Worktree(x), Hit::Worktree(y)) => *x == *y,
        (Hit::Dot(x), Hit::Dot(y)) => eq_str(x.as_str(), y.as_str()),
        (Hit::Button(x), Hit::Button(y)) => *x == *y,
        (Hit::MenuItem(x), Hit::MenuItem(y)) => *x == *y,
        (Hit::Link(x), Hit::Link(y)) => eq_str(x.as_str(), y.as_str()),
        (Hit::PopupArea, Hit::PopupArea) => true,
        _ => false,
    }
}

/// A copy of a hit.
fn copy_hit(h: &Hit) -> (r: Hit)
    ensures
        r == *h,
{
    match h {
        Hit::Row(x) => Hit::Row(*x),
        Hit::Section(x) => Hit::Section(*x),
        Hit::Worktree(x) => Hit::Worktree(*x),
        Hit::Dot(x) => Hit::Dot(x.clone()),
        Hit::Button(x) => Hit::Button(*x),
        Hit::MenuItem(x) => Hit::MenuItem(*x),
        Hit::Link(x) => Hit::Link(x.clone()),
        Hit::PopupArea => Hit::PopupArea,
    }
}

/// Whether the cell at `column`, `row` lies in `rect`.
pub fn contains(rect: Rect, column: u16, row: u16) -> (r: bool)
    ensures
        r == rect_contains(rect, column, row),
{
    column >= rect.x && column < rect.x.saturating_add(rect.width) && row >= rect.y && row < rect.y.saturating_add(
        rect.height,
    )
}

/// `text` with carriage returns turned into line breaks.
fn to_unix_newlines(text: &str) -> (r: Vec<char>)
    ensures
        r@ == unix_newlines(text@),
{
    let chars = chars_of(text);
    let mut out: Vec<char> = Vec::new();
    let mut i: usize = 0;
    assert(chars@.skip(0) =~= chars@);
    assert(out@ + unix_newlines(chars@.skip(0)) =~= unix_newlines(chars@));
    while i < chars.len()
        invariant
            i <= chars@.len(),
            chars@ == text@,
            out@ + unix_newlines(chars@.skip(i as int)) == unix_newlines(chars@),
        decreases chars@.len() - i,
    {
        let ghost rest = chars@.skip(i as int);
        assert(rest.skip(1) =~= chars@.skip(i + 1));
        let c = chars[i];
        let ghost before = out@;
        if c == '\r' && i + 1 < chars.len() && chars[i + 1] == '\n' {
        } else if c == '\r' {
            out.push('\n');
            assert(out@ + unix_newlines(rest.skip(1)) =~= before + (seq!['\n'] + unix_newlines(rest.skip(1))));
        } else {
            out.push(c);
            assert(out@ + unix_newlines(rest.skip(1)) =~= before + (seq![c] + unix_newlines(rest.skip(1))));
        }
        i = i + 1;
    }
    assert(chars@.skip(chars@.len() as int) =~= Seq::<char>::empty());
    assert(out@ + Seq::<char>::empty() =~= out@);
    out
}

impl JiraState {
    /// A view with nothing loaded yet: both detail sections folded, ten rows
    /// high.
    pub fn new(
        project: String,
        browse_base: String,
        status_order: Vec<String>,
        refresh_seconds: u64,
        owner_pane: Option<String>,
    ) -> (r: JiraState)
        ensures
            r.project == project,
            r.browse_base == browse_base,
            r.status_order == status_order,
            r.refresh_every == (if refresh_seconds > 0 {
                Some(refresh_seconds)
            } else {
                None
            }),
            r.owner_pane == owner_pane,
            r.issues@.len() == 0,
            r.rows@.len() == 0,
            r.collapsed@.len() == 0,
            r.seen_groups@.len() == 0,
            r.collapsed_sections@ == seq![DetailSection::PullRequests, DetailSection::Worktrees],
            r.selection is None,
            r.scroll == 0,
            r.links@.len() == 0,
            r.view is List,
            r.popup is None,
            r.notice is None,
            !r.loading,
            r.list_error is None,
            r.last_refresh is None,
            !r.preselected,
            r.hits@.len() == 0,
            r.list_height == 10,
            r.detail_lines == 0,
            r.detail_height == 10,
            r.last_click is None,
    {
        let mut sections: Vec<DetailSection> = Vec::new();
        sections.push(DetailSection::PullRequests);
        sections.push(DetailSection::Worktrees);
        JiraState {
            project,
            browse_base,
            status_order,
            refresh_every: if refresh_seconds > 0 {
                Some(refresh_seconds)
            } else {
                None
            },
            owner_pane,
            issues: Vec::new(),
            rows: Vec::new(),
            collapsed: Vec::new(),
            seen_groups: Vec::new(),
            collapsed_sections: sections,
            selection: None,
            scroll: 0,
            links: Vec::new(),
            view: ViewState::List,
            popup: None,
            notice: None,
            loading: false,
            list_error: None,
            last_refresh: None,
            preselected: false,
            hits: Vec::new(),
            list_height: 10,
            detail_lines: 0,
            detail_height: 10,
            last_click: None,
        }
    }

    /// The issue with key `key`, the first if several.
    pub fn issue(&self, key: &str) -> (r: Option<&Issue>)
        ensures
            r matches Some(i) ==> issue_index(self.issues@, key@) matches Some(j) && *i == self.issues@[j],
            r is None ==> issue_index(self.issues@, key@) is None,
    {
        let mut i: usize = 0;
        while i < self.issues.len()
            invariant
                i <= self.issues.len(),
                issue_index(self.issues@, key@) == issue_index_from(self.issues@, key@, i as int),
            decreases self.issues.len() - i,
        {
            if eq_str(self.issues[i].key.as_str(), key) {
                return Some(&self.issues[i]);
            }
            i = i + 1;
        }
        None
    }

    /// The row of the selection.
    pub fn selected_row(&self) -> (r: Option<usize>)
        ensures
            r matches Some(i) ==> selected_row_spec(row_views(self.rows@), opt_selection_view(self.selection))
                == Some(i as int) && i < self.rows@.len(),
            r is None ==> selected_row_spec(row_views(self.rows@), opt_selection_view(self.selection)) is None,
    {
        match &self.selection {
            Some(sel) => find_selected(&self.rows, sel),
            None => None,
        }
    }

    /// The issue the actions apply to: the one shown in detail, else the
    /// selected issue.
    pub fn target_key(&self) -> (r: Option<String>)
        ensures
            r == match self.view {
                ViewState::Detail { key, .. } => Some(key),
                ViewState::List => match self.selection {
                    Some(Selection::Issue(key)) => Some(key),
                    _ => None,
                },
            },
    {
        match &self.view {
            ViewState::Detail { key, .. } => Some(key.clone()),
            ViewState::List => match &self.selection {
                Some(Selection::Issue(key)) => Some(key.clone()),
                _ => None,
            },
        }
    }

    /// Scrolls the list just enough to show the selected row.
    pub fn ensure_visible(&mut self)
        ensures
            final(self).scroll == visible_scroll(
                old(self).rows@.len() as int,
                selected_row_spec(row_views(old(self).rows@), opt_selection_view(old(self).selection)),
                old(self).scroll as int,
                old(self).list_height as int,
            ),
            *final(self) == (JiraState { scroll: final(self).scroll, ..*old(self) }),
    {
        let height = if self.list_height < 1 {
            1
        } else {
            self.list_height
        };
        let mut scroll = self.scroll;
        if let Some(row) = self.selected_row() {
            if row < scroll {
                scroll = row;
            } else if row - scroll >= height {
                scroll = row - (height - 1);
            }
        }
        let max = if self.rows.len() > height {
            self.rows.len() - height
        } else {
            0
        };
        if scroll > max {
            scroll = max;
        }
        self.scroll = scroll;
    }

    /// Selects row `index`, if there is one, and shows it.
    pub fn select_row(&mut self, index: usize)
        ensures
            row_chosen(*old(self), *final(self), index),
    {
        if index >= self.rows.len() {
            return;
        }
        let sel = selection_for(&self.rows[index]);
        assert(row_views(self.rows@)[index as int] == row_view(self.rows@[index as int]));
        self.selection = Some(sel);
        let ghost chosen = self.selection;
        assert(opt_selection_view(chosen) == Some(selection_of(row_views(self.rows@)[index as int])));
        self.ensure_visible();
        assert(self.selection == chosen);
    }

    /// Groups the issues into rows again. Statuses shown for the first time
    /// start folded, but that of the selected issue; the selection moves when
    /// its row is gone (see `fallback_selection`), and the list scrolls to it.
    pub fn rebuild_rows(&mut self)
        ensures
            rebuilt(*old(self), *final(self)),
    {
        let groups = group_issues(self.issues.as_slice(), self.status_order.as_slice());
        let highlighted: Option<String> = match &self.selection {
            Some(Selection::Issue(key)) => match self.issue(key.as_str()) {
                Some(i) => Some(i.status.clone()),
                None => None,
            },
            _ => None,
        };
        assert(opt_view(highlighted) == highlighted_status(self.issues@, opt_selection_view(self.selection)));
        proof {
            lemma_group_order(self.issues@, string_views(self.status_order@), groups@);
        }
        let rows = group_rows(&groups, &self.issues, &mut self.seen_groups, &mut self.collapsed, &highlighted);
        assert(group_order(self.issues@, string_views(self.status_order@), group_statuses(groups@))
            && row_views(rows@) == rows_of(group_statuses(groups@), self.issues@, self.collapsed@));
        self.rows = rows;
        let current = self.selected_row();
        if current.is_none() {
            let fallback: Option<Selection> = match &self.selection {
                Some(Selection::Issue(key)) => match self.issue(key.as_str()) {
                    Some(i) => Some(Selection::Header(i.status.clone())),
                    None => None,
                },
                _ => None,
            };
            let keep = match &fallback {
                Some(f) => find_selected(&self.rows, f).is_some(),
                None => false,
            };
            if keep {
                self.selection = fallback;
            } else {
                match first_issue_row(&self.rows) {
                    Some(i) => {
                        self.selection = Some(selection_for(&self.rows[i]));
                    },
                    None => {
                        if self.rows.len() > 0 {
                            self.selection = Some(selection_for(&self.rows[0]));
                        } else {
                            self.selection = None;
                        }
                    },
                }
            }
        }
        self.ensure_visible();
    }

    /// Folds a detail section, or unfolds it when folded.
    pub fn toggle_section(&mut self, section: DetailSection)
        ensures
            section_toggled(*old(self), *final(self), section),
    {
        let mut kept: Vec<DetailSection> = Vec::new();
        let mut removed = false;
        let mut i: usize = 0;
        while i < self.collapsed_sections.len()
            invariant
                i <= self.collapsed_sections@.len(),
                removed == self.collapsed_sections@.take(i as int).contains(section),
                forall|x: DetailSection| kept@.contains(x) <==> (self.collapsed_sections@.take(i as int).contains(x) && x != section),
            decreases self.collapsed_sections@.len() - i,
        {
            let x = self.collapsed_sections[i];
            let ghost prev = self.collapsed_sections@.take(i as int);
            let ghost before = kept@;
            assert(self.collapsed_sections@.take(i + 1) =~= prev.push(x));
            if x == section {
                removed = true;
            } else {
                kept.push(x);
            }
            proof {
                let next = self.collapsed_sections@.take(i + 1);
                assert forall|y: DetailSection| #[trigger] next.contains(y) <==> (prev.contains(y) || y == x) by {
                    if next.contains(y) {
                        let j = choose|j: int| 0 <= j < next.len() && next[j] == y;
                        if j < prev.len() {
                            assert(prev[j] == y);
                        }
                    }
                    if prev.contains(y) {
                        let j = choose|j: int| 0 <= j < prev.len() && prev[j] == y;
                        assert(next[j] == y);
                    }
                    if y == x {
                        assert(next[prev.len() as int] == y);
                    }
                }
                assert forall|y: DetailSection| #[trigger] kept@.contains(y) <==> (before.contains(y) || (y == x && x != section)) by {
                    if kept@.contains(y) {
                        let j = choose|j: int| 0 <= j < kept@.len() && kept@[j] == y;
                        if j < before.len() {
                            assert(before[j] == y);
                        }
                    }
                    if before.contains(y) {
                        let j = choose|j: int| 0 <= j < before.len() && before[j] == y;
                        assert(kept@[j] == y);
                    }
                    if y == x && x != section {
                        assert(kept@[before.len() as int] == y);
                    }
                }
            }
            i = i + 1;
        }
        assert(self.collapsed_sections@.take(self.collapsed_sections@.len() as int) =~= self.collapsed_sections@);
        if !removed {
            let ghost before = kept@;
            kept.push(section);
            assert forall|y: DetailSection| #[trigger] kept@.contains(y) <==> (before.contains(y) || y == section) by {
                if kept@.contains(y) {
                    let j = choose|j: int| 0 <= j < kept@.len() && kept@[j] == y;
                    if j < before.len() {
                        assert(before[j] == y);
                    }
                }
                if before.contains(y) {
                    let j = choose|j: int| 0 <= j < before.len() && before[j] == y;
                    assert(kept@[j] == y);
                }
                if y == section {
                    assert(kept@[before.len() as int] == y);
                }
            }
        }
        self.collapsed_sections = kept;
    }

    /// Folds or unfolds the group of `status`, selects its header and
    /// rebuilds the rows.
    pub fn toggle_group(&mut self, status: &str)
        ensures
            group_toggled(*old(self), *final(self), status@),
    {
        if holds_text(&self.collapsed, status) {
            self.collapsed = without_text(&self.collapsed, status);
        } else {
            let ghost before = self.collapsed@;
            self.collapsed.push(string_of(chars_of(status).as_slice()));
            proof {
                assert forall|t: Seq<char>| holds(self.collapsed@, t) <==> holds(before, t) || t == status@ by {
                    if holds(self.collapsed@, t) {
                        let j = choose|j: int| 0 <= j < self.collapsed@.len() && self.collapsed@[j]@ == t;
                        if j < before.len() {
                            assert(before[j] == self.collapsed@[j]);
                        }
                    }
                    if holds(before, t) {
                        let j = choose|j: int| 0 <= j < before.len() && before[j]@ == t;
                        assert(self.collapsed@[j] == before[j]);
                    }
                    if t == status@ {
                        assert(self.collapsed@[before.len() as int]@ == t);
                    }
                }
            }
        }
        self.selection = Some(Selection::Header(string_of(chars_of(status).as_slice())));
        let ghost mid = *self;
        self.rebuild_rows();
        assert(rebuilt(mid, *self));
    }

    /// Opens the detail of issue `key` and asks for it.
    pub fn open_detail(&mut self, key: String) -> (job: Job)
        ensures
            job == Job::Detail(key),
            *final(self) == (JiraState {
                selection: Some(Selection::Issue(key)),
                view: ViewState::Detail { key: key, detail: None, error: None, scroll: 0 },
                ..*old(self)
            }),
    {
        self.selection = Some(Selection::Issue(key.clone()));
        self.view = ViewState::Detail { key: key.clone(), detail: None, error: None, scroll: 0 };
        Job::Detail(key)
    }

    /// Shows a notice from `now` on.
    pub fn notify(&mut self, text: String, error: bool, now: u64)
        ensures
            *final(self) == (JiraState { notice: Some(Notice { text: text, error: error, at: now }), ..*old(self) }),
    {
        self.notice = Some(Notice { text, error, at: now });
    }

    /// The job that opens worktree `index` of the issue shown in detail.
    pub fn open_worktree(&self, index: usize) -> (r: Option<Job>)
        ensures
            r == match self.view {
                ViewState::Detail { detail: Some(d), .. } => if index < d.worktrees@.len() {
                    Some(Job::OpenWorktree { path: d.worktrees@[index as int].path, name: d.worktrees@[index as int].name })
                } else {
                    None
                },
                _ => None,
            },
    {
        match &self.view {
            ViewState::Detail { detail: Some(d), .. } => {
                if index < d.worktrees.len() {
                    Some(Job::OpenWorktree { path: d.worktrees[index].path.clone(), name: d.worktrees[index].name.clone() })
                } else {
                    None
                }
            },
            _ => None,
        }
    }

    /// What the clock asks for at `now`: a notice older than its time goes;
    /// when refreshing is on, no popup is open and the last load is at least
    /// the interval old (or there was none), the list is loaded again.
    pub fn tick(&mut self, now: u64) -> (r: Option<Job>)
        ensures
            final(self).notice == (match old(self).notice {
                Some(n) => if now > n.at && now - n.at > NOTICE_TTL_MS {
                    None
                } else {
                    Some(n)
                },
                None => None,
            }),
            ({
                let due = match old(self).refresh_every {
                    Some(every) => match old(self).last_refresh {
                        Some(last) => now >= last && now - last >= every * 1000,
                        None => true,
                    },
                    None => false,
                };
                if due && old(self).popup is None && !old(self).loading {
                    r == Some(Job::Refresh) && final(self).loading
                } else {
                    r is None && final(self).loading == old(self).loading
                }
            }),
            *final(self) == (JiraState { notice: final(self).notice, loading: final(self).loading, ..*old(self) }),
    {
        let expired = match &self.notice {
            Some(n) => now > n.at && now - n.at > NOTICE_TTL_MS,
            None => false,
        };
        if expired {
            self.notice = None;
        }
        let every = match self.refresh_every {
            Some(e) => e,
            None => return None,
        };
        let due = match self.last_refresh {
            Some(last) => now >= last && (now - last) / 1000 >= every,
            None => true,
        };
        proof {
            if let Some(last) = old(self).last_refresh {
                if now >= last {
                    let d = (now - last) as int;
                    assert((d / 1000 >= every) <==> (d >= every * 1000)) by (nonlinear_arith)
                        requires
                            d >= 0,
                            every >= 0,
                    ;
                }
            }
        }
        if due && self.popup.is_none() {
            self.start_refresh()
        } else {
            None
        }
    }

    /// Takes in what the worker reports (see each case in the contract).
    pub fn apply(&mut self, outcome: Outcome, now: u64) -> (r: Effects)
        ensures
            !r.quit,
            match outcome {
                Outcome::List { issues, sessions, owner, pane_status } => r.jobs@.len() == 0 && exists|mid: JiraState|
                    list_loaded(*old(self), mid, issues@, sessions@, owner, pane_status@, now) && rebuilt(
                        mid,
                        *final(self),
                    ),
                Outcome::ListFailed(e) => r.jobs@.len() == 0 && *final(self) == (JiraState {
                    loading: false,
                    last_refresh: Some(now),
                    list_error: Some(e),
                    ..*old(self)
                }),
                Outcome::Detail(d) => r.jobs@.len() == 0 && *final(self) == match old(self).view {
                    ViewState::Detail { key, scroll, .. } => if key@ == d.issue.key@ {
                        JiraState {
                            view: ViewState::Detail { key: key, detail: Some(d), error: None, scroll: scroll },
                            ..*old(self)
                        }
                    } else {
                        *old(self)
                    },
                    ViewState::List => *old(self),
                },
                Outcome::DetailFailed { key: k, error: e } => r.jobs@.len() == 0 && *final(self) == match old(
                    self,
                ).view {
                    ViewState::Detail { key, detail, scroll, .. } => if key@ == k@ {
                        JiraState {
                            view: ViewState::Detail { key: key, detail: detail, error: Some(e), scroll: scroll },
                            ..*old(self)
                        }
                    } else {
                        *old(self)
                    },
                    ViewState::List => *old(self),
                },
                Outcome::Transitions { key: k, transitions: ts } => r.jobs@.len() == 0 && *final(self)
                    == match old(self).popup {
                    Some(Popup::Transitions { key, error, selected, .. }) => if key@ == k@ {
                        JiraState {
                            popup: Some(
                                Popup::Transitions { key: key, transitions: Some(ts), error: error, selected: selected },
                            ),
                            ..*old(self)
                        }
                    } else {
                        *old(self)
                    },
                    _ => *old(self),
                },
                Outcome::TransitionsFailed { key: k, error: e } => r.jobs@.len() == 0 && *final(self)
                    == match old(self).popup {
                    Some(Popup::Transitions { key, transitions, selected, .. }) => if key@ == k@ {
                        JiraState {
                            popup: Some(
                                Popup::Transitions { key: key, transitions: transitions, error: Some(e), selected: selected },
                            ),
                            ..*old(self)
                        }
                    } else {
                        *old(self)
                    },
                    _ => *old(self),
                },
                Outcome::Transitioned { key: k, to } => {
                    &&& final(self).notice matches Some(n) && n.text@ == k@ + " → "@ + to@ && !n.error && n.at == now
                    &&& final(self).loading
                    &&& r.jobs@ =~= refresh_jobs(old(self).loading) + (if detail_key(old(self).view) == Some(k@) {
                        seq![Job::Detail(k)]
                    } else {
                        Seq::empty()
                    })
                    &&& *final(self) == (JiraState {
                        notice: final(self).notice,
                        loading: true,
                        ..*old(self)
                    })
                },
                Outcome::Commented { key: k, comment } => {
                    &&& final(self).notice matches Some(n) && n.text@ == "comentário enviado em "@ + k@ && !n.error
                        && n.at == now
                    &&& r.jobs@.len() == 0
                    &&& final(self).popup == (match old(self).popup {
                        Some(Popup::Comment { key, .. }) => if key@ == k@ {
                            None
                        } else {
                            old(self).popup
                        },
                        p => p,
                    })
                    &&& match old(self).view {
                        ViewState::Detail { key, detail: Some(d), error, scroll } if key@ == k@ => {
                            &&& final(self).view matches ViewState::Detail {
                                key: key2,
                                detail: Some(d2),
                                error: error2,
                                scroll: scroll2,
                            }
                            &&& key2 == key
                            &&& error2 == error
                            &&& scroll2 == scroll
                            &&& d2.comments@ == d.comments@.push(comment)
                            &&& d2 == (IssueDetail { comments: d2.comments, ..d })
                        },
                        _ => final(self).view == old(self).view,
                    }
                    &&& *final(self) == (JiraState {
                        notice: final(self).notice,
                        popup: final(self).popup,
                        view: final(self).view,
                        ..*old(self)
                    })
                },
                Outcome::Assigned { key: k, name } => {
                    &&& final(self).notice matches Some(n) && n.text@ == k@ + " atribuída a "@ + name@ && !n.error
                        && n.at == now
                    &&& final(self).loading
                    &&& r.jobs@ =~= refresh_jobs(old(self).loading)
                    &&& final(self).issues@ == (match issue_index(old(self).issues@, k@) {
                        Some(i) => old(self).issues@.update(
                            i,
                            Issue { assignee: Some(name), ..old(self).issues@[i] },
                        ),
                        None => old(self).issues@,
                    })
                    &&& final(self).view == (match old(self).view {
                        ViewState::Detail { key, detail: Some(d), error, scroll } => if key@ == k@ {
                            ViewState::Detail {
                                key: key,
                                detail: Some(IssueDetail { issue: Issue { assignee: Some(name), ..d.issue }, ..d }),
                                error: error,
                                scroll: scroll,
                            }
                        } else {
                            old(self).view
                        },
                        v => v,
                    })
                    &&& *final(self) == (JiraState {
                        notice: final(self).notice,
                        loading: true,
                        issues: final(self).issues,
                        view: final(self).view,
                        ..*old(self)
                    })
                },
                Outcome::CommentFailed(e) => {
                    &&& r.jobs@.len() == 0
                    &&& final(self).notice == Some(Notice { text: e, error: true, at: now })
                    &&& final(self).popup == (match old(self).popup {
                        Some(Popup::Comment { key, text, cursor, .. }) => Some(
                            Popup::Comment { key: key, text: text, cursor: cursor, sending: false },
                        ),
                        p => p,
                    })
                    &&& *final(self) == (JiraState {
                        notice: final(self).notice,
                        popup: final(self).popup,
                        ..*old(self)
                    })
                },
                Outcome::WorktreeGc { apply, result } => {
                    &&& final(self).popup == (match gc_next_phase(old(self).popup, apply, result) {
                        Some(phase) => Some(Popup::WorktreeGc { phase: phase, scroll: 0 }),
                        None => old(self).popup,
                    })
                    &&& (if gc_next_phase(old(self).popup, apply, result) is None && apply {
                        match result {
                            Ok(report) => final(self).notice matches Some(n) && !n.error && n.at == now
                                && n.text@ == match report.summary {
                                Some(s) => s@,
                                None => "limpeza de worktrees concluída"@,
                            },
                            Err(e) => final(self).notice == Some(Notice { text: e, error: true, at: now }),
                        }
                    } else {
                        final(self).notice == old(self).notice
                    })
                    &&& r.jobs@ == (if apply {
                        refresh_jobs(old(self).loading) + detail_jobs(old(self).view)
                    } else {
                        Seq::empty()
                    })
                    &&& *final(self) == (JiraState {
                        popup: final(self).popup,
                        notice: final(self).notice,
                        loading: if apply {
                            true
                        } else {
                            old(self).loading
                        },
                        ..*old(self)
                    })
                },
                Outcome::Notice(text) => r.jobs@.len() == 0 && *final(self) == (JiraState {
                    notice: Some(Notice { text: text, error: false, at: now }),
                    ..*old(self)
                }),
                Outcome::Failed(text) => r.jobs@.len() == 0 && *final(self) == (JiraState {
                    notice: Some(Notice { text: text, error: true, at: now }),
                    ..*old(self)
                }),
            },
    {
        let mut effects = Effects::none();
        match outcome {
            Outcome::List { issues, sessions, owner, pane_status } => {
                self.loading = false;
                self.list_error = None;
                self.last_refresh = Some(now);
                let keys = keys_of(&issues);
                self.links = links_for(&sessions, &keys, &pane_status);
                self.issues = issues;
                if !self.preselected {
                    self.preselected = true;
                    let owner_pane = match &self.owner_pane {
                        Some(p) => Some(p.as_str()),
                        None => None,
                    };
                    let owner_cwd = match &owner.cwd {
                        Some(c) => Some(c.as_str()),
                        None => None,
                    };
                    match preselect_key(owner_pane, owner_cwd, sessions.as_slice(), keys.as_slice()) {
                        Some(key) => {
                            self.selection = Some(Selection::Issue(key));
                        },
                        None => {},
                    }
                } else {
                    self.preselected = true;
                }
                let ghost mid = *self;
                self.rebuild_rows();
                assert(rebuilt(mid, *self));
            },
            Outcome::ListFailed(error) => {
                self.loading = false;
                self.last_refresh = Some(now);
                self.list_error = Some(error);
            },
            Outcome::Detail(detail) => {
                let mut view = ViewState::List;
                std::mem::swap(&mut view, &mut self.view);
                self.view = match view {
                    ViewState::Detail { key, detail: slot, error, scroll } => {
                        if eq_str(key.as_str(), detail.issue.key.as_str()) {
                            ViewState::Detail { key, detail: Some(detail), error: None, scroll }
                        } else {
                            ViewState::Detail { key, detail: slot, error, scroll }
                        }
                    },
                    ViewState::List => ViewState::List,
                };
            },
            Outcome::DetailFailed { key: k, error: e } => {
                let mut view = ViewState::List;
                std::mem::swap(&mut view, &mut self.view);
                self.view = match view {
                    ViewState::Detail { key, detail, error, scroll } => {
                        if eq_str(key.as_str(), k.as_str()) {
                            ViewState::Detail { key, detail, error: Some(e), scroll }
                        } else {
                            ViewState::Detail { key, detail, error, scroll }
                        }
                    },
                    ViewState::List => ViewState::List,
                };
            },
            Outcome::Transitions { key: k, transitions: ts } => {
                let popup = self.popup.take();
                self.popup = match popup {
                    Some(Popup::Transitions { key, transitions, error, selected }) => {
                        if eq_str(key.as_str(), k.as_str()) {
                            Some(Popup::Transitions { key, transitions: Some(ts), error, selected })
                        } else {
                            Some(Popup::Transitions { key, transitions, error, selected })
                        }
                    },
                    other => other,
                };
            },
            Outcome::TransitionsFailed { key: k, error: e } => {
                let popup = self.popup.take();
                self.popup = match popup {
                    Some(Popup::Transitions { key, transitions, error, selected }) => {
                        if eq_str(key.as_str(), k.as_str()) {
                            Some(Popup::Transitions { key, transitions, error: Some(e), selected })
                        } else {
                            Some(Popup::Transitions { key, transitions, error, selected })
                        }
                    },
                    other => other,
                };
            },
            Outcome::Transitioned { key: k, to } => {
                let text = concat(concat(k.as_str(), " → ").as_str(), to.as_str());
                self.notify(text, false, now);
                let job = self.start_refresh();
                match job {
                    Some(j) => effects.jobs.push(j),
                    None => {},
                }
                let shown = match &self.view {
                    ViewState::Detail { key, .. } => eq_str(key.as_str(), k.as_str()),
                    ViewState::List => false,
                };
                if shown {
                    effects.jobs.push(Job::Detail(k));
                }
            },
            Outcome::Commented { key: k, comment } => {
                let close = match &self.popup {
                    Some(Popup::Comment { key, .. }) => eq_str(key.as_str(), k.as_str()),
                    _ => false,
                };
                if close {
                    self.popup = None;
                }
                let mut view = ViewState::List;
                std::mem::swap(&mut view, &mut self.view);
                self.view = match view {
                    ViewState::Detail { key, detail: Some(d), error, scroll } => {
                        if eq_str(key.as_str(), k.as_str()) {
                            let mut d = d;
                            d.comments.push(comment);
                            ViewState::Detail { key, detail: Some(d), error, scroll }
                        } else {
                            ViewState::Detail { key, detail: Some(d), error, scroll }
                        }
                    },
                    v => v,
                };
                self.notify(concat("comentário enviado em ", k.as_str()), false, now);
            },
            Outcome::CommentFailed(error) => {
                let popup = self.popup.take();
                self.popup = match popup {
                    Some(Popup::Comment { key, text, cursor, .. }) => Some(
                        Popup::Comment { key, text, cursor, sending: false },
                    ),
                    other => other,
                };
                self.notify(error, true, now);
            },
            Outcome::Assigned { key: k, name } => {
                let mut i: usize = 0;
                while i < self.issues.len()
                    invariant
                        i <= self.issues@.len(),
                        self.issues == old(self).issues,
                        issue_index(self.issues@, k@) == issue_index_from(self.issues@, k@, i as int),
                    ensures
                        i <= self.issues@.len(),
                        self.issues == old(self).issues,
                        i < self.issues@.len() ==> issue_index(self.issues@, k@) == Some(i as int),
                        i == self.issues@.len() ==> issue_index(self.issues@, k@) is None,
                    decreases self.issues@.len() - i,
                {
                    if eq_str(self.issues[i].key.as_str(), k.as_str()) {
                        break;
                    }
                    i = i + 1;
                }
                if i < self.issues.len() {
                    let mut issue = self.issues.remove(i);
                    issue.assignee = Some(name.clone());
                    self.issues.insert(i, issue);
                    assert(self.issues@ =~= old(self).issues@.update(
                        i as int,
                        Issue { assignee: Some(name), ..old(self).issues@[i as int] },
                    ));
                }
                let mut view = ViewState::List;
                std::mem::swap(&mut view, &mut self.view);
                self.view = match view {
                    ViewState::Detail { key, detail: Some(d), error, scroll } => {
                        if eq_str(key.as_str(), k.as_str()) {
                            let mut d = d;
                            d.issue.assignee = Some(name.clone());
                            ViewState::Detail { key, detail: Some(d), error, scroll }
                        } else {
                            ViewState::Detail { key, detail: Some(d), error, scroll }
                        }
                    },
                    v => v,
                };
                let text = concat(concat(k.as_str(), " atribuída a ").as_str(), name.as_str());
                self.notify(text, false, now);
                let job = self.start_refresh();
                match job {
                    Some(j) => effects.jobs.push(j),
                    None => {},
                }
            },
            Outcome::WorktreeGc { apply, result } => {
                let ghost before = *self;
                let waiting = match &self.popup {
                    Some(Popup::WorktreeGc { phase: GcPhase::Loading, .. }) => !apply,
                    Some(Popup::WorktreeGc { phase: GcPhase::Applying(_), .. }) => apply,
                    _ => false,
                };
                if waiting {
                    let loading = match &self.popup {
                        Some(Popup::WorktreeGc { phase: GcPhase::Loading, .. }) => true,
                        _ => false,
                    };
                    let phase = if loading {
                        match result {
                            Ok(report) => GcPhase::Preview(report),
                            Err(e) => GcPhase::Failed(e),
                        }
                    } else {
                        match result {
                            Ok(report) => GcPhase::Done(report),
                            Err(e) => GcPhase::Failed(e),
                        }
                    };
                    self.popup = Some(Popup::WorktreeGc { phase, scroll: 0 });
                } else if apply {
                    match result {
                        Ok(report) => {
                            let text = match report.summary {
                                Some(s) => s,
                                None => string_of(chars_of("limpeza de worktrees concluída").as_slice()),
                            };
                            self.notify(text, false, now);
                        },
                        Err(e) => self.notify(e, true, now),
                    }
                }
                if apply {
                    let job = self.start_refresh();
                    match job {
                        Some(j) => effects.jobs.push(j),
                        None => {},
                    }
                    match &self.view {
                        ViewState::Detail { key, .. } => effects.jobs.push(Job::Detail(key.clone())),
                        ViewState::List => {},
                    }
                }
            },
            Outcome::Notice(text) => self.notify(text, false, now),
            Outcome::Failed(text) => self.notify(text, true, now),
        }
        effects
    }

    /// Sends the comment being edited (see `comment_sent`).
    pub fn send_comment(&mut self, now: u64) -> (r: Option<Job>)
        ensures
            comment_sent(*old(self), *final(self), r, now),
    {
        let ready = match &self.popup {
            Some(Popup::Comment { sending, text, .. }) => {
                if *sending {
                    0u8
                } else if crate::text::trim(text.as_slice()).len() == 0 {
                    1u8
                } else {
                    2u8
                }
            },
            _ => 0u8,
        };
        if ready == 0 {
            return None;
        }
        if ready == 1 {
            self.notify(string_of(chars_of("comentário vazio").as_slice()), true, now);
            return None;
        }
        let popup = self.popup.take();
        match popup {
            Some(Popup::Comment { key, text, cursor, .. }) => {
                let job = Job::Comment { key: key.clone(), text: string_of(text.as_slice()) };
                self.popup = Some(Popup::Comment { key, text, cursor, sending: true });
                Some(job)
            },
            other => {
                self.popup = other;
                None
            },
        }
    }

    /// Chooses transition `index` of the transitions popup (see
    /// `transition_chosen`).
    pub fn apply_transition(&mut self, index: usize, now: u64) -> (r: Effects)
        ensures
            !r.quit,
            transition_chosen(*old(self), *final(self), r, index, now),
    {
        let mut effects = Effects::none();
        let chosen: Option<(String, Transition)> = match &self.popup {
            Some(Popup::Transitions { key, transitions: Some(ts), .. }) => {
                if index < ts.len() {
                    Some((key.clone(), copy_transition(&ts[index])))
                } else {
                    None
                }
            },
            _ => None,
        };
        let (key, transition) = match chosen {
            Some(c) => c,
            None => return effects,
        };
        self.popup = None;
        if transition.required_fields.len() > 0 {
            let mut text = concat("\"", transition.name.as_str());
            text = concat(text.as_str(), "\" pede ");
            text = concat(text.as_str(), joined_fields(&transition.required_fields).as_str());
            text = concat(text.as_str(), "; abrindo no browser");
            self.notify(text, true, now);
            effects.jobs.push(Job::OpenUrl(concat(self.browse_base.as_str(), key.as_str())));
            return effects;
        }
        let mut i: usize = 0;
        while i < self.issues.len()
            invariant
                i <= self.issues@.len(),
                self.issues == old(self).issues,
                issue_index(self.issues@, key@) == issue_index_from(self.issues@, key@, i as int),
            ensures
                i <= self.issues@.len(),
                self.issues == old(self).issues,
                i < self.issues@.len() ==> issue_index(self.issues@, key@) == Some(i as int),
                i == self.issues@.len() ==> issue_index(self.issues@, key@) is None,
            decreases self.issues@.len() - i,
        {
            if eq_str(self.issues[i].key.as_str(), key.as_str()) {
                break;
            }
            i = i + 1;
        }
        let ghost issues_before = self.issues@;
        if i < self.issues.len() {
            let mut issue = self.issues.remove(i);
            issue.status = transition.to.clone();
            self.issues.insert(i, issue);
            assert(self.issues@ =~= issues_before.update(
                i as int,
                Issue { status: transition.to, ..issues_before[i as int] },
            ));
        }
        let mut view = ViewState::List;
        std::mem::swap(&mut view, &mut self.view);
        self.view = match view {
            ViewState::Detail { key: dk, detail: Some(d), error, scroll } => {
                if eq_str(dk.as_str(), key.as_str()) {
                    let mut d = d;
                    d.issue.status = transition.to.clone();
                    ViewState::Detail { key: dk, detail: Some(d), error, scroll }
                } else {
                    ViewState::Detail { key: dk, detail: Some(d), error, scroll }
                }
            },
            v => v,
        };
        let ghost mid = *self;
        self.rebuild_rows();
        let ghost rows_done = *self;
        let mut text = concat("movendo ", key.as_str());
        text = concat(text.as_str(), " → ");
        text = concat(text.as_str(), transition.to.as_str());
        text = concat(text.as_str(), "…");
        self.notify(text, false, now);
        let ghost tv = transition;
        let ghost kv = key;
        effects.jobs.push(Job::Transition { key, transition_id: transition.id, to: transition.to });
        assert(effects.jobs@ =~= seq![Job::Transition { key: kv, transition_id: tv.id, to: tv.to }]);
        effects
    }

    /// Runs an action of a button or key (see `acted`).
    pub fn action(&mut self, action: Action, now: u64) -> (r: Effects)
        ensures
            acted(*old(self), *final(self), r, action, now),
    {
        let mut effects = Effects::none();
        match action {
            Action::Refresh => {
                let job = self.start_refresh();
                match job {
                    Some(j) => effects.jobs.push(j),
                    None => {},
                }
                let ghost after_refresh = effects.jobs@;
                assert(after_refresh =~= refresh_jobs(old(self).loading));
                match &self.view {
                    ViewState::Detail { key, .. } => effects.jobs.push(Job::Detail(key.clone())),
                    ViewState::List => {},
                }
                assert(effects.jobs@ =~= after_refresh + detail_jobs(self.view));
            },
            Action::Back => {
                let popup = self.popup.take();
                if popup.is_none() {
                    self.view = ViewState::List;
                    self.ensure_visible();
                }
            },
            Action::Cancel | Action::Close => {
                self.popup = None;
            },
            Action::CleanWorktrees => {
                let applying = match &self.popup {
                    Some(Popup::WorktreeGc { phase: GcPhase::Applying(_), .. }) => true,
                    _ => false,
                };
                if !applying {
                    self.popup = Some(Popup::WorktreeGc { phase: GcPhase::Loading, scroll: 0 });
                    effects.jobs.push(Job::WorktreeGc { apply: false });
                }
            },
            Action::Confirm => {
                let step = match &self.popup {
                    Some(Popup::WorktreeGc { phase: GcPhase::Preview(report), .. }) => {
                        if report.has_work() {
                            2u8
                        } else {
                            1u8
                        }
                    },
                    Some(Popup::WorktreeGc { phase: GcPhase::Done(_), .. }) => 1u8,
                    Some(Popup::WorktreeGc { phase: GcPhase::Failed(_), .. }) => 1u8,
                    _ => 0u8,
                };
                if step == 1 {
                    self.popup = None;
                } else if step == 2 {
                    let popup = self.popup.take();
                    match popup {
                        Some(Popup::WorktreeGc { phase: GcPhase::Preview(report), .. }) => {
                            self.popup = Some(Popup::WorktreeGc { phase: GcPhase::Applying(report), scroll: 0 });
                            effects.jobs.push(Job::WorktreeGc { apply: true });
                        },
                        other => {
                            self.popup = other;
                        },
                    }
                }
            },
            Action::Send => {
                let job = self.send_comment(now);
                let ghost sent = job;
                match job {
                    Some(j) => effects.jobs.push(j),
                    None => {},
                }
                assert(effects.jobs@ =~= match sent {
                    Some(j) => seq![j],
                    None => Seq::empty(),
                });
            },
            _ => {
                let target = self.target_key();
                match target {
                    None => {
                        self.notify(string_of(chars_of("selecione uma task").as_slice()), true, now);
                    },
                    Some(key) => {
                        match action {
                            Action::Move => {
                                self.popup = Some(
                                    Popup::Transitions { key: key.clone(), transitions: None, error: None, selected: 0 },
                                );
                                effects.jobs.push(Job::Transitions(key));
                            },
                            Action::Comment => {
                                self.popup = Some(Popup::Comment { key, text: Vec::new(), cursor: 0, sending: false });
                            },
                            Action::AssignMe => {
                                effects.jobs.push(Job::AssignMe(key));
                            },
                            Action::Browser => {
                                effects.jobs.push(Job::OpenUrl(concat(self.browse_base.as_str(), key.as_str())));
                            },
                            _ => {
                                let link = link_of(&self.links, key.as_str());
                                effects.jobs.push(Job::Session { key, link });
                            },
                        }
                    },
                }
            },
        }
        assert(effects.jobs@ =~= effects.jobs@);
        effects
    }

    /// The row a list key moves to.
    fn list_move(&self, code: KeyCode) -> (r: Option<usize>)
        ensures
            r matches Some(i) ==> list_target(*self, code) == Some(i as int),
            r is None ==> list_target(*self, code) is None,
    {
        let current = self.selected_row();
        let last = self.rows.len().saturating_sub(1);
        let height = if self.list_height < 1 {
            1
        } else {
            self.list_height
        };
        match code {
            KeyCode::Down | KeyCode::Char('j') => Some(
                match current {
                    Some(row) => if row + 1 < last {
                        row + 1
                    } else {
                        last
                    },
                    None => 0,
                },
            ),
            KeyCode::Up | KeyCode::Char('k') => Some(
                match current {
                    Some(row) => row.saturating_sub(1),
                    None => 0,
                },
            ),
            KeyCode::PageDown => Some(
                match current {
                    Some(row) => {
                        let down = row.saturating_add(height);
                        if down < last {
                            down
                        } else {
                            last
                        }
                    },
                    None => 0,
                },
            ),
            KeyCode::PageUp => Some(
                match current {
                    Some(row) => row.saturating_sub(height),
                    None => 0,
                },
            ),
            KeyCode::Home | KeyCode::Char('g') => Some(0),
            KeyCode::End | KeyCode::Char('G') => Some(last),
            _ => None,
        }
    }

    /// Answers a key (see `key_handled`).
    pub fn key(&mut self, key: KeyPress, now: u64) -> (r: Effects)
        ensures
            key_handled(*old(self), *final(self), r, key, now),
    {
        let kind: u8 = match &self.popup {
            Some(Popup::Comment { .. }) => 1,
            Some(Popup::WorktreeGc { .. }) => 2,
            Some(Popup::Transitions { .. }) => 3,
            None => 0,
        };
        if kind == 1 {
            let is_esc = match key.code {
                KeyCode::Esc => true,
                _ => false,
            };
            let send = match key.code {
                KeyCode::Char('s') => key.ctrl,
                KeyCode::Enter => key.ctrl || key.alt,
                _ => false,
            };
            if is_esc {
                self.popup = None;
                return Effects::none();
            }
            if send {
                return self.action(Action::Send, now);
            }
            let popup = self.popup.take();
            match popup {
                Some(Popup::Comment { key: k, text, cursor, sending }) => {
                    let mut text = text;
                    let mut cursor = cursor;
                    if !sending {
                        edit_comment(&mut text, &mut cursor, key);
                    }
                    self.popup = Some(Popup::Comment { key: k, text, cursor, sending });
                },
                other => {
                    self.popup = other;
                },
            }
            return Effects::none();
        }
        if kind == 2 {
            match key.code {
                KeyCode::Esc | KeyCode::Char('q') => {
                    return self.action(Action::Close, now);
                },
                KeyCode::Enter => {
                    return self.action(Action::Confirm, now);
                },
                _ => {},
            }
            let popup = self.popup.take();
            match popup {
                Some(Popup::WorktreeGc { phase, scroll }) => {
                    let next = match key.code {
                        KeyCode::Up | KeyCode::Char('k') => scroll.saturating_sub(1),
                        KeyCode::Down | KeyCode::Char('j') => scroll.saturating_add(1),
                        KeyCode::PageUp => scroll.saturating_sub(5),
                        KeyCode::PageDown => scroll.saturating_add(5),
                        _ => scroll,
                    };
                    self.popup = Some(Popup::WorktreeGc { phase, scroll: next });
                },
                other => {
                    self.popup = other;
                },
            }
            return Effects::none();
        }
        if kind == 3 {
            let count: usize = match &self.popup {
                Some(Popup::Transitions { transitions: Some(ts), .. }) => ts.len(),
                _ => 0,
            };
            let selected: usize = match &self.popup {
                Some(Popup::Transitions { selected, .. }) => *selected,
                _ => 0,
            };
            match key.code {
                KeyCode::Esc | KeyCode::Char('q') => {
                    self.popup = None;
                    return Effects::none();
                },
                KeyCode::Up | KeyCode::Char('k') | KeyCode::Down | KeyCode::Char('j') => {
                    let up = match key.code {
                        KeyCode::Up | KeyCode::Char('k') => true,
                        _ => false,
                    };
                    let next = if up {
                        selected.saturating_sub(1)
                    } else {
                        let bound = count.saturating_sub(1);
                        if selected < bound {
                            selected + 1
                        } else {
                            bound
                        }
                    };
                    let popup = self.popup.take();
                    match popup {
                        Some(Popup::Transitions { key: k, transitions, error, .. }) => {
                            self.popup = Some(Popup::Transitions { key: k, transitions, error, selected: next });
                        },
                        other => {
                            self.popup = other;
                        },
                    }
                    return Effects::none();
                },
                KeyCode::Enter => {
                    return self.apply_transition(selected, now);
                },
                KeyCode::Char(ch) => {
                    if '1' <= ch && ch <= '9' {
                        let index = (ch as u32 - '1' as u32) as usize;
                        if index < count {
                            return self.apply_transition(index, now);
                        }
                    }
                    return Effects::none();
                },
                _ => {
                    return Effects::none();
                },
            }
        }
        match action_of_key(key.code) {
            Some(action) => {
                return self.action(action, now);
            },
            None => {},
        }
        let mut effects = Effects::none();
        let in_detail = match &self.view {
            ViewState::Detail { .. } => true,
            ViewState::List => false,
        };
        if in_detail {
            match key.code {
                KeyCode::Char('p') => self.toggle_section(DetailSection::PullRequests),
                KeyCode::Char('t') => self.toggle_section(DetailSection::Worktrees),
                KeyCode::Esc | KeyCode::Backspace | KeyCode::Char('q') | KeyCode::Left => {
                    return self.action(Action::Back, now);
                },
                code => {
                    let mut view = ViewState::List;
                    std::mem::swap(&mut view, &mut self.view);
                    self.view = match view {
                        ViewState::Detail { key: dk, detail, error, scroll } => {
                            match next_detail_scroll(scroll, self.detail_height, code) {
                                Some(n) => ViewState::Detail { key: dk, detail, error, scroll: n },
                                None => ViewState::Detail { key: dk, detail, error, scroll },
                            }
                        },
                        v => v,
                    };
                },
            }
            return effects;
        }
        match key.code {
            KeyCode::Char('q') => {
                effects.quit = true;
            },
            KeyCode::Enter | KeyCode::Right | KeyCode::Char(' ') => {
                let chosen: Option<Selection> = match &self.selection {
                    Some(sel) => Some(copy_selection(sel)),
                    None => None,
                };
                match chosen {
                    Some(Selection::Header(status)) => self.toggle_group(status.as_str()),
                    Some(Selection::Issue(k)) => {
                        let job = self.open_detail(k);
                        effects.jobs.push(job);
                    },
                    None => {},
                }
            },
            code => {
                match self.list_move(code) {
                    Some(index) => self.select_row(index),
                    None => {},
                }
            },
        }
        effects
    }

    /// The job that opens worktree `index` of the detail, as a value.
    pub open spec fn open_worktree_spec(self, index: usize) -> Option<Job> {
        match self.view {
            ViewState::Detail { detail: Some(d), .. } => if index < d.worktrees@.len() {
                Some(Job::OpenWorktree { path: d.worktrees@[index as int].path, name: d.worktrees@[index as int].name })
            } else {
                None
            },
            _ => None,
        }
    }

    /// Types pasted text into the comment editor (unless the comment is
    /// being sent), with carriage returns turned into line breaks.
    pub fn paste(&mut self, pasted: &str)
        ensures
            match old(self).popup {
                Some(Popup::Comment { key, text, cursor, sending: false }) => {
                    let t = typed(text@, clamp(cursor as int, text@.len() as int), unix_newlines(pasted@));
                    &&& final(self).popup matches Some(Popup::Comment { key: k2, text: t2, cursor: c2, sending: false })
                        && k2 == key && t2@ == t.0 && c2 == t.1
                    &&& *final(self) == (JiraState { popup: final(self).popup, ..*old(self) })
                },
                _ => *final(self) == *old(self),
            },
    {
        let editing = match &self.popup {
            Some(Popup::Comment { sending, .. }) => !*sending,
            _ => false,
        };
        if !editing {
            return;
        }
        let value = to_unix_newlines(pasted);
        let popup = self.popup.take();
        match popup {
            Some(Popup::Comment { key, text, cursor, sending }) => {
                let mut text = text;
                let c = if cursor > text.len() {
                    text.len()
                } else {
                    cursor
                };
                let ghost t0 = text@;
                let mut out: Vec<char> = Vec::new();
                let mut i: usize = 0;
                while i < c
                    invariant
                        i <= c <= t0.len(),
                        text@ == t0,
                        out@ == t0.take(i as int),
                    decreases c - i,
                {
                    out.push(text[i]);
                    assert(t0.take(i + 1) =~= t0.take(i as int).push(t0[i as int]));
                    i = i + 1;
                }
                crate::text::extend_chars(&mut out, value.as_slice());
                let new_cursor = out.len();
                let mut j: usize = c;
                while j < text.len()
                    invariant
                        c <= j <= t0.len(),
                        text@ == t0,
                        out@ == t0.take(c as int) + value@ + t0.subrange(c as int, j as int),
                    decreases t0.len() - j,
                {
                    out.push(text[j]);
                    assert(t0.subrange(c as int, j + 1) =~= t0.subrange(c as int, j as int).push(t0[j as int]));
                    j = j + 1;
                }
                assert(t0.subrange(c as int, t0.len() as int) =~= t0.skip(c as int));
                self.popup = Some(Popup::Comment { key, text: out, cursor: new_cursor, sending });
            },
            other => {
                self.popup = other;
            },
        }
    }

    /// Scrolls by one wheel step (see `wheel_moved`).
    pub fn wheel(&mut self, down: bool)
        ensures
            wheel_moved(*old(self), *final(self), down),
    {
        let kind: u8 = match &self.popup {
            Some(Popup::Transitions { .. }) => 1,
            Some(Popup::WorktreeGc { .. }) => 2,
            Some(_) => 3,
            None => 0,
        };
        if kind == 1 {
            let popup = self.popup.take();
            match popup {
                Some(Popup::Transitions { key, transitions, error, selected }) => {
                    let count: usize = match &transitions {
                        Some(ts) => ts.len(),
                        None => 0,
                    };
                    let next = if down {
                        let bound = count.saturating_sub(1);
                        if selected < bound {
                            selected + 1
                        } else {
                            bound
                        }
                    } else {
                        selected.saturating_sub(1)
                    };
                    self.popup = Some(Popup::Transitions { key, transitions, error, selected: next });
                },
                other => {
                    self.popup = other;
                },
            }
            return;
        }
        if kind == 2 {
            let popup = self.popup.take();
            match popup {
                Some(Popup::WorktreeGc { phase, scroll }) => {
                    let next = if down {
                        scroll.saturating_add(WHEEL_STEP)
                    } else {
                        scroll.saturating_sub(WHEEL_STEP)
                    };
                    self.popup = Some(Popup::WorktreeGc { phase, scroll: next });
                },
                other => {
                    self.popup = other;
                },
            }
            return;
        }
        if kind == 3 {
            return;
        }
        let in_detail = match &self.view {
            ViewState::Detail { .. } => true,
            ViewState::List => false,
        };
        if in_detail {
            let mut view = ViewState::List;
            std::mem::swap(&mut view, &mut self.view);
            self.view = match view {
                ViewState::Detail { key, detail, error, scroll } => {
                    let next = if down {
                        scroll.saturating_add(WHEEL_STEP)
                    } else {
                        scroll.saturating_sub(WHEEL_STEP)
                    };
                    ViewState::Detail { key, detail, error, scroll: next }
                },
                v => v,
            };
            return;
        }
        let height = if self.list_height < 1 {
            1
        } else {
            self.list_height
        };
        let max = self.rows.len().saturating_sub(height);
        self.scroll = if down {
            let next = self.scroll.saturating_add(WHEEL_STEP);
            if next < max {
                next
            } else {
                max
            }
        } else {
            self.scroll.saturating_sub(WHEEL_STEP)
        };
    }

    /// Answers a click on `hit` (see `clicked`).
    pub fn click(&mut self, hit: Hit, double: bool, now: u64) -> (r: Effects)
        ensures
            clicked(*old(self), *final(self), r, hit, double, now),
    {
        let mut effects = Effects::none();
        match hit {
            Hit::Button(action) => {
                return self.action(action, now);
            },
            Hit::MenuItem(index) => {
                let popup = self.popup.take();
                self.popup = match popup {
                    Some(Popup::Transitions { key, transitions, error, .. }) => Some(
                        Popup::Transitions { key, transitions, error, selected: index },
                    ),
                    other => other,
                };
                return self.apply_transition(index, now);
            },
            Hit::PopupArea => {},
            Hit::Section(section) => self.toggle_section(section),
            Hit::Worktree(index) => {
                let job = self.open_worktree(index);
                match job {
                    Some(j) => effects.jobs.push(j),
                    None => {},
                }
            },
            Hit::Link(url) => effects.jobs.push(Job::OpenUrl(url)),
            Hit::Dot(key) => {
                self.selection = Some(Selection::Issue(key));
                return self.action(Action::Session, now);
            },
            Hit::Row(index) => {
                if index >= self.rows.len() {
                    return effects;
                }
                let row = copy_row(&self.rows[index]);
                match row {
                    Row::Header { status, .. } => self.toggle_group(status.as_str()),
                    Row::Issue(key) => {
                        self.select_row(index);
                        if double {
                            self.last_click = None;
                            let job = self.open_detail(key);
                            effects.jobs.push(job);
                        }
                    },
                }
            },
        }
        effects
    }

    /// Answers a mouse event (see `mouse_handled`).
    pub fn mouse(&mut self, m: MouseInput, now: u64) -> (r: Effects)
        ensures
            mouse_handled(*old(self), *final(self), r, m, now),
    {
        match m.kind {
            MouseKind::ScrollDown => {
                self.wheel(true);
                Effects::none()
            },
            MouseKind::ScrollUp => {
                self.wheel(false);
                Effects::none()
            },
            MouseKind::LeftDown => {
                let mut n = self.hits.len();
                while n > 0 && !contains(self.hits[n - 1].0, m.column, m.row)
                    invariant
                        n <= self.hits@.len(),
                        hit_below(self.hits@, m.column, m.row, self.hits@.len() as int) == hit_below(
                            self.hits@,
                            m.column,
                            m.row,
                            n as int,
                        ),
                    decreases n,
                {
                    n = n - 1;
                }
                if n == 0 {
                    self.last_click = None;
                    let transitions = match &self.popup {
                        Some(Popup::Transitions { .. }) => true,
                        _ => false,
                    };
                    if transitions {
                        self.popup = None;
                    }
                    return Effects::none();
                }
                let hit = copy_hit(&self.hits[n - 1].1);
                let double = match &self.last_click {
                    Some((at, previous)) => now.saturating_sub(*at) <= DOUBLE_CLICK_MS && same_hit(previous, &hit),
                    None => false,
                };
                self.last_click = Some((now, copy_hit(&hit)));
                self.click(hit, double, now)
            },
            MouseKind::Other => Effects::none(),
        }
    }

    /// Starts loading the list unless it is loading already.
    pub fn start_refresh(&mut self) -> (r: Option<Job>)
        ensures
            old(self).loading ==> r is None,
            !old(self).loading ==> r == Some(Job::Refresh),
            final(self).loading,
            *final(self) == (JiraState { loading: true, ..*old(self) }),
    {
        if self.loading {
            return None;
        }
        self.loading = true;
        Some(Job::Refresh)
    }
}

} // verus!

verus! {

/// A selection that names row `i` finds a row from any `j <= i` on.
proof fn lemma_selected_from_reaches(rows: Seq<RowView>, sel: SelectionView, i: int, j: int)
    requires
        0 <= j <= i < rows.len(),
        row_selected(rows[i], sel),
    ensures
        selected_from(rows, sel, j) matches Some(k) && j <= k <= i,
    decreases i - j,
{
    if j < i && !row_selected(rows[j], sel) {
        lemma_selected_from_reaches(rows, sel, i, j + 1);
    }
}

/// The selection of a row names that row.
proof fn lemma_selection_of_names(row: RowView)
    ensures
        row_selected(row, selection_of(row)),
{
}

/// After the rows are rebuilt the selection names one of them whenever
/// there is any row.
pub proof fn rebuilt_selection_names_a_row(before: JiraState, after: JiraState)
    requires
        rebuilt(before, after),
        after.rows@.len() > 0,
    ensures
        selected_row_spec(row_views(after.rows@), opt_selection_view(after.selection)) is Some,
{
    let rows = row_views(after.rows@);
    let sel = opt_selection_view(before.selection);
    if selected_row_spec(rows, sel) is Some {
    } else {
        let by_status = match sel {
            Some(SelectionView::Issue(k)) => match issue_index(before.issues@, k) {
                Some(i) => Some(SelectionView::Header(before.issues@[i].status@)),
                None => None,
            },
            _ => None,
        };
        if by_status matches Some(h) && selected_row_spec(rows, Some(h)) is Some {
        } else {
            match first_issue_row_from(rows, 0) {
                Some(i) => {
                    lemma_first_issue_row_bounds(rows, 0);
                    lemma_selection_of_names(rows[i]);
                    lemma_selected_from_reaches(rows, selection_of(rows[i]), i, 0);
                },
                None => {
                    lemma_selection_of_names(rows[0]);
                    lemma_selected_from_reaches(rows, selection_of(rows[0]), 0, 0);
                },
            }
        }
    }
}

/// The first issue row lies among the rows.
proof fn lemma_first_issue_row_bounds(rows: Seq<RowView>, i: int)
    requires
        0 <= i,
    ensures
        first_issue_row_from(rows, i) matches Some(k) ==> i <= k < rows.len(),
    decreases rows.len() - i,
{
    if i < rows.len() && !(rows[i] is Issue) {
        lemma_first_issue_row_bounds(rows, i + 1);
    }
}

/// The list scrolls so that the selected row is on screen: at or below the
/// first shown row and above the last (with at least one row shown), and
/// never past the last page.
pub proof fn scroll_shows_the_selected_row(rows_len: int, row: int, scroll: int, list_height: int)
    requires
        0 <= row < rows_len,
        0 <= scroll,
    ensures
        ({
            let height = if list_height < 1 {
                1
            } else {
                list_height
            };
            let s = visible_scroll(rows_len, Some(row), scroll, list_height);
            &&& 0 <= s <= row < s + height
            &&& s <= sat_sub(rows_len, height)
        }),
{
}

} // verus!

verus! {

/// A hit of the list as plain values.
pub enum ListHit {
    Row(int),
    Dot(Seq<char>),
}

/// The place of a list row on screen: row `offset` of `area`.
pub open spec fn row_rect(area: Rect, offset: int) -> Rect {
    Rect { x: area.x, y: (area.y + offset) as u16, width: area.width, height: 1 }
}

/// The place of a row's session dot.
pub open spec fn dot_rect(area: Rect, offset: int) -> Rect {
    Rect { x: (area.x + 1) as u16, y: (area.y + offset) as u16, width: 2, height: 1 }
}

/// Whether list row `index` is drawn: a header always, an issue row when
/// its issue is known.
pub open spec fn row_drawn(rows: Seq<Row>, issues: Seq<Issue>, index: int) -> bool {
    match rows[index] {
        Row::Issue(key) => issue_index(issues, key@) is Some,
        Row::Header { .. } => true,
    }
}

/// The row hits of the first `n` rows shown from `scroll`.
pub open spec fn row_hits(rows: Seq<Row>, issues: Seq<Issue>, scroll: int, area: Rect, n: int) -> Seq<(Rect, ListHit)>
    decreases n,
{
    if n <= 0 {
        Seq::empty()
    } else {
        let prev = row_hits(rows, issues, scroll, area, n - 1);
        if row_drawn(rows, issues, scroll + n - 1) {
            prev.push((row_rect(area, n - 1), ListHit::Row(scroll + n - 1)))
        } else {
            prev
        }
    }
}

/// The dot hits of the first `n` rows shown from `scroll`: one for each
/// drawn issue row whose issue has a linked session.
pub open spec fn dot_hits(
    rows: Seq<Row>,
    issues: Seq<Issue>,
    links: Seq<(String, LinkedSession)>,
    scroll: int,
    area: Rect,
    n: int,
) -> Seq<(Rect, ListHit)>
    decreases n,
{
    if n <= 0 {
        Seq::empty()
    } else {
        let prev = dot_hits(rows, issues, links, scroll, area, n - 1);
        match rows[scroll + n - 1] {
            Row::Issue(key) => if issue_index(issues, key@) is Some && link_from(links, key@, 0) is Some {
                prev.push((dot_rect(area, n - 1), ListHit::Dot(key@)))
            } else {
                prev
            },
            _ => prev,
        }
    }
}

/// A hit of the list as plain values (other hits are not the list's).
pub open spec fn list_hit(h: (Rect, Hit)) -> (Rect, ListHit) {
    match h.1 {
        Hit::Row(i) => (h.0, ListHit::Row(i as int)),
        Hit::Dot(k) => (h.0, ListHit::Dot(k@)),
        _ => (h.0, ListHit::Row(-1)),
    }
}

/// The scroll of the list kept within its rows: at most the rows that do not
/// fit in `height` (at least one).
pub open spec fn clamped_scroll(scroll: int, rows: int, height: int) -> int {
    let h = if height < 1 {
        1
    } else {
        height
    };
    let max = if rows > h {
        rows - h
    } else {
        0
    };
    if scroll < max {
        scroll
    } else {
        max
    }
}

impl JiraState {
    /// Lays out the issue list in `area`: its height and scroll are kept, and
    /// for each row shown a hit on the row, then for each shown issue with a
    /// linked session a hit on its dot, are added after the hits already
    /// there. Nothing is added without rows.
    pub fn list_layout(&mut self, area: Rect)
        requires
            area.x < u16::MAX,
            area.y + area.height <= u16::MAX,
        ensures
            final(self).list_height == area.height as usize,
            final(self).scroll as int == clamped_scroll(old(self).scroll as int, old(self).rows@.len() as int, area.height as int),
            final(self).rows == old(self).rows,
            final(self).issues == old(self).issues,
            final(self).hits@.take(old(self).hits@.len() as int) == old(self).hits@,
            ({
                let n = if final(self).rows@.len() - final(self).scroll < area.height {
                    final(self).rows@.len() - final(self).scroll
                } else {
                    area.height as int
                };
                let added = final(self).hits@.skip(old(self).hits@.len() as int).map_values(|h: (Rect, Hit)| list_hit(h));
                added == row_hits(old(self).rows@, old(self).issues@, final(self).scroll as int, area, n) + dot_hits(
                    old(self).rows@,
                    old(self).issues@,
                    old(self).links@,
                    final(self).scroll as int,
                    area,
                    n,
                )
            }),
    {
        self.list_height = area.height as usize;
        let h: usize = if self.list_height < 1 {
            1
        } else {
            self.list_height
        };
        let max = if self.rows.len() > h {
            self.rows.len() - h
        } else {
            0
        };
        if self.scroll > max {
            self.scroll = max;
        }
        let ghost old_hits = self.hits@;
        if self.rows.len() == 0 {
            assert(self.hits@.skip(old_hits.len() as int) =~= Seq::<(Rect, Hit)>::empty());
            return;
        }
        let mut row_list: Vec<(Rect, Hit)> = Vec::new();
        let mut dot_list: Vec<(Rect, Hit)> = Vec::new();
        let mut o: usize = 0;
        let height = area.height as usize;
        let total = self.rows.len();
        let avail = total - self.scroll;
        while o < height && o < avail
            invariant
                o <= height,
                height == area.height,
                total == self.rows@.len(),
                avail == total - self.scroll,
                o <= avail,
                area.x < u16::MAX,
                area.y + area.height <= u16::MAX,
                row_list@.map_values(|h: (Rect, Hit)| list_hit(h)) == row_hits(self.rows@, self.issues@, self.scroll as int, area, o as int),
                dot_list@.map_values(|h: (Rect, Hit)| list_hit(h)) == dot_hits(self.rows@, self.issues@, self.links@, self.scroll as int, area, o as int),
            decreases height - o,
        {
            let index = self.scroll + o;
            let y = area.y + o as u16;
            let ghost rb = row_list@;
            let ghost db = dot_list@;
            let drawn = match &self.rows[index] {
                Row::Issue(key) => self.issue(key.as_str()).is_some(),
                Row::Header { .. } => true,
            };
            if drawn {
                if let Row::Issue(key) = &self.rows[index] {
                    if link_of(&self.links, key.as_str()).is_some() {
                        dot_list.push((Rect { x: area.x + 1, y, width: 2, height: 1 }, Hit::Dot(key.clone())));
                        assert(dot_list@.map_values(|h: (Rect, Hit)| list_hit(h)) =~= db.map_values(|h: (Rect, Hit)| list_hit(h)).push(
                            (dot_rect(area, o as int), ListHit::Dot(key@)),
                        ));
                    }
                }
                row_list.push((Rect { x: area.x, y, width: area.width, height: 1 }, Hit::Row(index)));
                assert(row_list@.map_values(|h: (Rect, Hit)| list_hit(h)) =~= rb.map_values(|h: (Rect, Hit)| list_hit(h)).push(
                    (row_rect(area, o as int), ListHit::Row(index as int)),
                ));
            }
            o = o + 1;
        }
        let ghost rows_added = row_list@;
        let ghost dots_added = dot_list@;
        self.hits.append(&mut row_list);
        self.hits.append(&mut dot_list);
        assert(self.hits@ =~= old_hits + rows_added + dots_added);
        assert(self.hits@.take(old_hits.len() as int) =~= old_hits);
        assert(self.hits@.skip(old_hits.len() as int).map_values(|h: (Rect, Hit)| list_hit(h)) =~= rows_added.map_values(
            |h: (Rect, Hit)| list_hit(h),
        ) + dots_added.map_values(|h: (Rect, Hit)| list_hit(h)));
    }
}

/// The text shown in place of the list when it has no rows: loading, the
/// error, or that no task is open.
pub open spec fn placeholder_spec(rows: nat, loading: bool, list_error: Option<Seq<char>>) -> Option<Seq<char>> {
    if rows > 0 {
        None
    } else {
        Some(
            " "@ + if loading {
                "carregando tasks…"@
            } else {
                match list_error {
                    Some(e) => e,
                    None => "nenhuma task aberta"@,
                }
            },
        )
    }
}

/// The session dot of an issue: full when its session has a pane, hollow
/// when it has none, blank without a session.
pub open spec fn dot_text(link: Option<LinkedSession>) -> Seq<char> {
    match link {
        Some(l) => if l.pane_id is Some {
            "●"@
        } else {
            "○"@
        },
        None => " "@,
    }
}

/// The columns left for an issue's summary in a row `width` wide after
/// `lead` and one more.
pub open spec fn summary_room(lead: Seq<char>, width: int) -> int {
    if text_width(lead) >= width {
        0
    } else {
        width - text_width(lead) - 1
    }
}

/// The text of list row `index` in `width` columns: a header's marker,
/// status and count; an issue's session dot, key, priority icon and summary
/// cut to the room left. None for an issue row whose issue is not known.
pub open spec fn row_text_spec(
    rows: Seq<Row>,
    issues: Seq<Issue>,
    links: Seq<(String, LinkedSession)>,
    index: int,
    width: int,
) -> Option<Seq<char>> {
    match rows[index] {
        Row::Header { status, count, collapsed } => Some(
            " "@ + (if collapsed {
                "▸"@
            } else {
                "▾"@
            }) + " "@ + status@ + " ("@ + decimal_spec(count as nat) + ")"@,
        ),
        Row::Issue(key) => match issue_index(issues, key@) {
            None => None,
            Some(j) => {
                let icon = priority_icon_spec(opt_view(issues[j].priority));
                let lead = "   "@ + key@ + " "@ + icon + " "@;
                Some(
                    " "@ + dot_text(link_from(links, key@, 0)) + " "@ + key@ + " "@ + icon + " "@ + truncate_spec(
                        issues[j].summary@,
                        summary_room(lead, width),
                    ),
                )
            },
        },
    }
}

impl JiraState {
    /// What the list shows when it has no rows (see [`placeholder_spec`]).
    pub fn list_placeholder(&self) -> (r: Option<String>)
        ensures
            opt_view(r) == placeholder_spec(self.rows@.len(), self.loading, opt_view(self.list_error)),
    {
        if self.rows.len() > 0 {
            return None;
        }
        let mut text = chars_of(" ");
        if self.loading {
            extend_chars(&mut text, chars_of("carregando tasks…").as_slice());
        } else {
            match &self.list_error {
                Some(e) => extend_chars(&mut text, chars_of(e.as_str()).as_slice()),
                None => extend_chars(&mut text, chars_of("nenhuma task aberta").as_slice()),
            }
        }
        Some(string_of(text.as_slice()))
    }

    /// The text of list row `index` in `width` columns (see
    /// [`row_text_spec`]).
    pub fn row_text(&self, index: usize, width: usize) -> (r: Option<String>)
        requires
            index < self.rows@.len(),
        ensures
            opt_view(r) == row_text_spec(self.rows@, self.issues@, self.links@, index as int, width as int),
    {
        match &self.rows[index] {
            Row::Header { status, count, collapsed } => {
                let mut text = chars_of(" ");
                extend_chars(&mut text, chars_of(if *collapsed {
                    "▸"
                } else {
                    "▾"
                }).as_slice());
                extend_chars(&mut text, chars_of(" ").as_slice());
                extend_chars(&mut text, chars_of(status.as_str()).as_slice());
                extend_chars(&mut text, chars_of(" (").as_slice());
                extend_chars(&mut text, decimal(*count as u64).as_slice());
                extend_chars(&mut text, chars_of(")").as_slice());
                Some(string_of(text.as_slice()))
            },
            Row::Issue(key) => {
                let issue = match self.issue(key.as_str()) {
                    Some(issue) => issue,
                    None => return None,
                };
                let dot = match link_of(&self.links, key.as_str()) {
                    Some(l) => if l.pane_id.is_some() {
                        "●"
                    } else {
                        "○"
                    },
                    None => " ",
                };
                let icon = match &issue.priority {
                    Some(p) => priority_icon(Some(p.as_str())),
                    None => priority_icon(None),
                };
                let mut lead = chars_of("   ");
                extend_chars(&mut lead, chars_of(key.as_str()).as_slice());
                extend_chars(&mut lead, chars_of(" ").as_slice());
                extend_chars(&mut lead, chars_of(icon).as_slice());
                extend_chars(&mut lead, chars_of(" ").as_slice());
                let lead_width = str_width(string_of(lead.as_slice()).as_str());
                let room = if lead_width >= width {
                    0
                } else {
                    width - lead_width - 1
                };
                let mut text = chars_of(" ");
                extend_chars(&mut text, chars_of(dot).as_slice());
                extend_chars(&mut text, chars_of(" ").as_slice());
                extend_chars(&mut text, chars_of(key.as_str()).as_slice());
                extend_chars(&mut text, chars_of(" ").as_slice());
                extend_chars(&mut text, chars_of(icon).as_slice());
                extend_chars(&mut text, chars_of(" ").as_slice());
                extend_chars(&mut text, chars_of(truncate(issue.summary.as_str(), room).as_str()).as_slice());
                Some(string_of(text.as_slice()))
            },
        }
    }
}

/// In the issue detail, the scroll keys move the text by their own amount:
/// down (or `j`) one row down; up (or `k`) one row up, stopping at the top;
/// PageDown (or space) a page down and PageUp a page up, stopping at the
/// top, a page being the detail's height (at least one row); Home (or `g`)
/// to the top; End (or `G`) to the largest scroll. Nothing else changes.
pub proof fn detail_keys_scroll_by_their_amount(before: JiraState, after: JiraState, r: Effects, key: KeyPress, now: u64)
    requires
        key_handled(before, after, r, key, now),
        before.popup is None,
        before.view is Detail,
        key.code == KeyCode::Down || key.code == KeyCode::Char('j') || key.code == KeyCode::Up || key.code
            == KeyCode::Char('k') || key.code == KeyCode::PageDown || key.code == KeyCode::Char(' ') || key.code
            == KeyCode::PageUp || key.code == KeyCode::Home || key.code == KeyCode::Char('g') || key.code
            == KeyCode::End || key.code == KeyCode::Char('G'),
    ensures
        ({
            let old_scroll = before.view->scroll as int;
            let new_scroll = after.view->scroll as int;
            let h: int = if before.detail_height == 0 {
                1
            } else {
                before.detail_height as int
            };
            &&& r.jobs@.len() == 0 && !r.quit
            &&& after.view is Detail
            &&& after.view->Detail_key == before.view->Detail_key
            &&& after.view->detail == before.view->detail
            &&& after.view->error == before.view->error
            &&& after == (JiraState { view: after.view, ..before })
            &&& (key.code == KeyCode::Down || key.code == KeyCode::Char('j')) ==> new_scroll == if old_scroll
                < usize::MAX {
                old_scroll + 1
            } else {
                old_scroll
            }
            &&& (key.code == KeyCode::Up || key.code == KeyCode::Char('k')) ==> new_scroll == if old_scroll > 0 {
                old_scroll - 1
            } else {
                0
            }
            &&& (key.code == KeyCode::PageDown || key.code == KeyCode::Char(' ')) ==> new_scroll == if old_scroll
                + h <= usize::MAX {
                old_scroll + h
            } else {
                usize::MAX as int
            }
            &&& key.code == KeyCode::PageUp ==> new_scroll == if old_scroll >= h {
                old_scroll - h
            } else {
                0
            }
            &&& (key.code == KeyCode::Home || key.code == KeyCode::Char('g')) ==> new_scroll == 0
            &&& (key.code == KeyCode::End || key.code == KeyCode::Char('G')) ==> new_scroll == usize::MAX
        }),
{
}

/// In the issue list, the movement keys choose a row relative to the
/// selected one: down (or `j`) the next row, staying on the last; up (or
/// `k`) the previous one, staying on the first; PageDown a page further,
/// staying on the last; PageUp a page back, staying on the first; Home (or
/// `g`) the first row and End (or `G`) the last. From no selection they
/// choose the first row, but for End.
pub proof fn list_keys_move_the_selection(before: JiraState, after: JiraState, r: Effects, key: KeyPress, now: u64)
    requires
        key_handled(before, after, r, key, now),
        before.popup is None,
        before.view is List,
        key.code == KeyCode::Down || key.code == KeyCode::Char('j') || key.code == KeyCode::Up || key.code
            == KeyCode::Char('k') || key.code == KeyCode::PageDown || key.code == KeyCode::PageUp || key.code
            == KeyCode::Home || key.code == KeyCode::Char('g') || key.code == KeyCode::End || key.code
            == KeyCode::Char('G'),
    ensures
        ({
            let current = selected_row_spec(row_views(before.rows@), opt_selection_view(before.selection));
            let n = before.rows@.len() as int;
            let last: int = if n > 0 {
                n - 1
            } else {
                0
            };
            let h: int = if before.list_height == 0 {
                1
            } else {
                before.list_height as int
            };
            let target: int = if key.code == KeyCode::Home || key.code == KeyCode::Char('g') {
                0
            } else if key.code == KeyCode::End || key.code == KeyCode::Char('G') {
                last
            } else {
                match current {
                    None => 0,
                    Some(row) => if key.code == KeyCode::Down || key.code == KeyCode::Char('j') {
                        if row + 1 < last {
                            row + 1
                        } else {
                            last
                        }
                    } else if key.code == KeyCode::Up || key.code == KeyCode::Char('k') {
                        if row >= 1 {
                            row - 1
                        } else {
                            0
                        }
                    } else if key.code == KeyCode::PageDown {
                        if row + h < last {
                            row + h
                        } else {
                            last
                        }
                    } else if row >= h {
                        row - h
                    } else {
                        0
                    },
                }
            };
            &&& r.jobs@.len() == 0 && !r.quit
            &&& row_chosen(before, after, target as usize)
        }),
{
}

} // verus!
