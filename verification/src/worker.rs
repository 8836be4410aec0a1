//! The Jira view's worker: it runs each job against Jira, herdr and the
//! machine, and turns what they answer into the outcome the view takes in.

use vstd::prelude::*;

use crate::gc::{command, gc_run_result, gc_run_spec, command_spec, CommandOutput, GcReport, GcView};
use crate::issues::Issue;
use crate::jira::{ClaudeSessionInfo, LinkedSession};
use crate::jira_state::{Comment, IssueDetail, Job, Outcome, PaneContext, Transition, WorktreeInfo};
use crate::jira::key_matches_spec;
use crate::jira_api::{get_member, member, member_index};
use crate::json::Json;
use crate::right_panel::{join_path, join_spec};
use crate::split::{opt_view, string_views};
use crate::text::{chars_of, ends_with, eq_str, extend_chars, has_prefix, has_suffix, slice_chars, starts_with, string_of};

verus! {

/// What herdr does for the Jira view: list agent sessions, describe and
/// focus panes, resume sessions and open tabs.
pub trait HerdrBridge {
    /// Whether `answer` is what herdr answers a listing of its sessions with.
    /// Like the other answer relations of these traits, it holds of every
    /// answer unless an implementation says more: it names the call, with
    /// its arguments, that an answer came from.
    open spec fn sessions_answer(&self, answer: Result<Vec<ClaudeSessionInfo>, String>) -> bool {
        true
    }

    /// Whether `answer` is what herdr answers a description of `pane_id` with.
    open spec fn pane_answer(&self, pane_id: Seq<char>, answer: Result<(PaneContext, Option<String>), String>) -> bool {
        true
    }

    /// Whether `answer` is what herdr answers focusing `pane_id` with.
    open spec fn focus_answer(&self, pane_id: Seq<char>, answer: Result<(), String>) -> bool {
        true
    }

    /// Whether `answer` is what herdr answers resuming `session_id` in
    /// `workspace_id` with.
    open spec fn resume_answer(
        &self,
        session_id: Seq<char>,
        workspace_id: Option<Seq<char>>,
        answer: Result<(), String>,
    ) -> bool {
        true
    }

    /// Whether `answer` is what herdr answers opening a tab in `cwd`,
    /// labelled `label`, in `workspace_id` with.
    open spec fn tab_answer(
        &self,
        workspace_id: Option<Seq<char>>,
        cwd: Seq<char>,
        label: Seq<char>,
        answer: Result<(), String>,
    ) -> bool {
        true
    }

    /// The agent sessions herdr knows.
    fn sessions(&self) -> (r: Result<Vec<ClaudeSessionInfo>, String>)
        ensures
            self.sessions_answer(r),
    ;

    /// Where a pane is, and the agent status shown for it.
    fn pane(&self, pane_id: &str) -> (r: Result<(PaneContext, Option<String>), String>)
        ensures
            self.pane_answer(pane_id@, r),
    ;

    /// Focuses a pane.
    fn focus_pane(&self, pane_id: &str) -> (r: Result<(), String>)
        ensures
            self.focus_answer(pane_id@, r),
    ;

    /// Resumes a session in a new tab of the workspace.
    fn open_session(&self, session_id: &str, workspace_id: Option<String>) -> (r: Result<(), String>)
        ensures
            self.resume_answer(session_id@, opt_view(workspace_id), r),
    ;

    /// Opens a tab in `cwd`, labelled `label`.
    fn create_tab(&self, workspace_id: Option<String>, cwd: &str, label: &str) -> (r: Result<(), String>)
        ensures
            self.tab_answer(opt_view(workspace_id), cwd@, label@, r),
    ;
}

/// The Jira site, as the worker uses it.
pub trait JiraService {
    /// Whether `answer` is what this site answers a search for `jql` with.
    open spec fn search_answer(&self, jql: Seq<char>, answer: Result<Vec<Issue>, String>) -> bool {
        true
    }

    /// Whether `answer` is what this site answers a request for the detail of
    /// `key` with.
    open spec fn detail_answer(&self, key: Seq<char>, answer: Result<IssueDetail, String>) -> bool {
        true
    }

    /// Whether `answer` is what this site answers a request for the
    /// transitions of `key` with.
    open spec fn transitions_answer(&self, key: Seq<char>, answer: Result<Vec<Transition>, String>) -> bool {
        true
    }

    /// Whether `answer` is what this site answers moving `key` through
    /// `transition_id` with.
    open spec fn move_answer(&self, key: Seq<char>, transition_id: Seq<char>, answer: Result<(), String>) -> bool {
        true
    }

    /// Whether `answer` is what this site answers the comment `text` on `key`
    /// with.
    open spec fn comment_answer(&self, key: Seq<char>, text: Seq<char>, answer: Result<Comment, String>) -> bool {
        true
    }

    /// Whether `answer` is what this site answers a request for the user
    /// with.
    open spec fn myself_answer(&self, answer: Result<(String, String), String>) -> bool {
        true
    }

    /// Whether `answer` is what this site answers assigning `key` to
    /// `account_id` with.
    open spec fn assign_answer(&self, key: Seq<char>, account_id: Seq<char>, answer: Result<(), String>) -> bool {
        true
    }

    /// The issues a JQL query finds.
    fn search(&self, jql: &str) -> (r: Result<Vec<Issue>, String>)
        ensures
            self.search_answer(jql@, r),
    ;

    /// The detail of an issue.
    fn issue_detail(&self, key: &str) -> (r: Result<IssueDetail, String>)
        ensures
            self.detail_answer(key@, r),
    ;

    /// The transitions an issue can take.
    fn transitions(&self, key: &str) -> (r: Result<Vec<Transition>, String>)
        ensures
            self.transitions_answer(key@, r),
    ;

    /// Moves an issue through a transition.
    fn apply_transition(&self, key: &str, transition_id: &str) -> (r: Result<(), String>)
        ensures
            self.move_answer(key@, transition_id@, r),
    ;

    /// Adds a comment to an issue.
    fn add_comment(&self, key: &str, text: &str) -> (r: Result<Comment, String>)
        ensures
            self.comment_answer(key@, text@, r),
    ;

    /// The account id and display name of the user.
    fn myself(&self) -> (r: Result<(String, String), String>)
        ensures
            self.myself_answer(r),
    ;

    /// Assigns an issue to an account.
    fn assign(&self, key: &str, account_id: &str) -> (r: Result<(), String>)
        ensures
            self.assign_answer(key@, account_id@, r),
    ;
}

/// What the worker does on the machine: find worktrees, open the browser,
/// run the worktree collector.
pub trait Machine {
    /// Whether `answer` is what the machine answers a search for the
    /// worktrees of `key` under `roots` with.
    open spec fn worktrees_answer(&self, roots: Seq<Seq<char>>, key: Seq<char>, answer: Vec<WorktreeInfo>) -> bool {
        true
    }

    /// Whether `answer` is what the machine answers opening `url` with
    /// `browser_command` with.
    open spec fn open_url_answer(&self, browser_command: Seq<char>, url: Seq<char>, answer: Result<(), String>) -> bool {
        true
    }

    /// Whether `answer` is what the machine answers running `command` with.
    open spec fn run_answer(&self, command: Seq<char>, answer: Result<CommandOutput, String>) -> bool {
        true
    }

    /// The worktrees of issue `key` under the worktree roots.
    fn find_worktrees(&self, roots: &Vec<String>, key: &str) -> (r: Vec<WorktreeInfo>)
        ensures
            self.worktrees_answer(string_views(roots@), key@, r),
    ;

    /// Whether `answer` is what the machine answered when asked for the
    /// subdirectories of `dir`.
    open spec fn dirs_answer(&self, dir: Seq<char>, answer: Seq<String>) -> bool {
        true
    }

    /// Whether `answer` is what the machine answered when asked for the home
    /// directory.
    open spec fn home_answer(&self, answer: Option<String>) -> bool {
        true
    }

    /// The names of the subdirectories of `dir` (none when it cannot be
    /// read).
    fn child_dirs(&self, dir: &str) -> (r: Vec<String>)
        ensures
            self.dirs_answer(dir@, r@),
    ;

    /// The home directory (`HOME`), when it is set.
    fn home(&self) -> (r: Option<String>)
        ensures
            self.home_answer(r),
    ;

    /// Opens `url` with the browser command.
    fn open_url(&self, browser_command: &str, url: &str) -> (r: Result<(), String>)
        ensures
            self.open_url_answer(browser_command@, url@, r),
    ;

    /// Runs `command` with `/bin/sh -c`, without input; the reason when it
    /// cannot be started.
    fn run_shell(&self, command: &str) -> (r: Result<CommandOutput, String>)
        ensures
            self.run_answer(command@, r),
    ;
}

/// What a herdr reply says: the message of its `error` (`erro do herdr`
/// when that has no text message) as the error, else its `result` (null
/// without one).
pub open spec fn reply_spec(v: Json) -> Result<Json, Seq<char>> {
    match member(v, "error"@) {
        Some(e) => Err(
            match member(e, "message"@) {
                Some(Json::Text(m)) => m@,
                _ => "erro do herdr"@,
            },
        ),
        None => Ok(
            match member(v, "result"@) {
                Some(r) => r,
                None => Json::Null,
            },
        ),
    }
}

/// What a herdr reply says (see [`reply_spec`]).
pub fn reply_result(v: Json) -> (r: Result<Json, String>)
    ensures
        reply_spec(v) == match r {
            Ok(j) => Ok::<Json, Seq<char>>(j),
            Err(e) => Err::<Json, Seq<char>>(e@),
        },
{
    if let Some(e) = get_member(&v, "error") {
        let message = match get_member(e, "message") {
            Some(Json::Text(m)) => string_of(chars_of(m.as_str()).as_slice()),
            _ => string_of(chars_of("erro do herdr").as_slice()),
        };
        return Err(message);
    }
    match v {
        Json::Object(entries) => {
            let mut entries = entries;
            let mut i: usize = 0;
            while i < entries.len()
                invariant
                    i <= entries@.len(),
                    member_index(entries@, "result"@, 0) == member_index(entries@, "result"@, i as int),
                    member(v, "result"@) == match member_index(entries@, "result"@, 0) {
                        Some(k) => Some(entries@[k].1),
                        None => None::<Json>,
                    },
                    member(v, "error"@) is None,
                decreases entries@.len() - i,
            {
                if eq_str(entries[i].0.as_str(), "result") {
                    let ghost found = entries@[i as int].1;
                    assert(member_index(entries@, "result"@, i as int) == Some(i as int));
                    let (_, value) = entries.remove(i);
                    assert(value == found);
                    return Ok(value);
                }
                i = i + 1;
            }
            Ok(Json::Null)
        },
        _ => Ok(Json::Null),
    }
}

/// A string member of a JSON value.
pub open spec fn text_of(v: Json, key: Seq<char>) -> Option<Seq<char>> {
    match member(v, key) {
        Some(Json::Text(t)) => Some(t@),
        _ => None,
    }
}

/// A string member of a JSON value, copied.
fn text_at(v: &Json, key: &str) -> (r: Option<String>)
    ensures
        opt_view(r) == text_of(*v, key@),
{
    match get_member(v, key) {
        Some(Json::Text(t)) => Some(string_of(chars_of(t.as_str()).as_slice())),
        _ => None,
    }
}

/// Where a pane is and its agent status, from the `result` of herdr's
/// description of it: the pane's workspace, its foreground directory (else
/// its directory), and its agent status.
pub open spec fn pane_reply_spec(result: Json, r: (PaneContext, Option<String>)) -> bool {
    let pane = match member(result, "pane"@) {
        Some(p) => p,
        None => Json::Null,
    };
    &&& opt_view(r.0.workspace_id) == text_of(pane, "workspace_id"@)
    &&& opt_view(r.0.cwd) == match text_of(pane, "foreground_cwd"@) {
        Some(c) => Some(c),
        None => text_of(pane, "cwd"@),
    }
    &&& opt_view(r.1) == text_of(pane, "agent_status"@)
}

/// Where a pane is and its agent status, from herdr's description (see
/// [`pane_reply_spec`]).
pub fn pane_reply(result: &Json) -> (r: (PaneContext, Option<String>))
    ensures
        pane_reply_spec(*result, r),
{
    let null = Json::Null;
    let pane = match get_member(result, "pane") {
        Some(p) => p,
        None => &null,
    };
    let workspace_id = text_at(pane, "workspace_id");
    let cwd = match text_at(pane, "foreground_cwd") {
        Some(c) => Some(c),
        None => text_at(pane, "cwd"),
    };
    let status = text_at(pane, "agent_status");
    (PaneContext { workspace_id, cwd }, status)
}

/// The worker: its settings, and the user once known.
pub struct Worker {
    pub jql: String,
    pub owner_pane: Option<String>,
    pub worktree_roots: Vec<String>,
    pub browser_command: String,
    pub worktree_gc_command: String,
    /// The account id and name of the user, after the first assignment.
    pub myself: Option<(String, String)>,
}

/// Whether a session works in the worktree at `path`: its worktree is that
/// path, or its directory is that path or lies below it.
pub open spec fn in_worktree(session: ClaudeSessionInfo, path: Seq<char>) -> bool {
    (session.worktree_path matches Some(w) && w@ == path) || session.cwd@ == path || has_prefix(
        session.cwd@,
        path + "/"@,
    )
}

/// The first session, from `i` on, that works in the worktree at `path` and
/// runs in a pane.
pub open spec fn live_session_in(sessions: Seq<ClaudeSessionInfo>, path: Seq<char>, i: int) -> Option<int>
    decreases sessions.len() - i,
{
    if i < 0 || i >= sessions.len() {
        None
    } else if in_worktree(sessions[i], path) && sessions[i].pane_id is Some {
        Some(i)
    } else {
        live_session_in(sessions, path, i + 1)
    }
}

/// `a` followed by `b`.
fn cat(a: &str, b: &str) -> (r: String)
    ensures
        r@ == a@ + b@,
{
    let mut out = chars_of(a);
    extend_chars(&mut out, chars_of(b).as_slice());
    string_of(out.as_slice())
}

/// Whether `o` is a failure whose message starts with `prefix` (the error
/// follows it).
pub open spec fn failed_with(o: Outcome, prefix: Seq<char>) -> bool {
    o matches Outcome::Failed(m) && m@.len() >= prefix.len() && m@.take(prefix.len() as int) == prefix
}

/// A failure: `prefix` and the error.
fn fail(prefix: &str, e: &str) -> (r: Outcome)
    ensures
        failed_with(r, prefix@),
        r matches Outcome::Failed(m) && m@ == prefix@ + e@,
{
    let m = cat(prefix, e);
    assert(m@.take(prefix@.len() as int) =~= prefix@);
    Outcome::Failed(m)
}

/// Whether the session's directory or worktree is the worktree at `path`.
fn session_in(session: &ClaudeSessionInfo, path: &str) -> (r: bool)
    ensures
        r == in_worktree(*session, path@),
{
    let by_worktree = match &session.worktree_path {
        Some(w) => eq_str(w.as_str(), path),
        None => false,
    };
    if by_worktree {
        return true;
    }
    if eq_str(session.cwd.as_str(), path) {
        return true;
    }
    let mut dir = chars_of(path);
    dir.push('/');
    proof {
        reveal_strlit("/");
        assert(dir@ =~= path@ + "/"@);
    }
    starts_with(chars_of(session.cwd.as_str()).as_slice(), dir.as_slice())
}

/// Whether one of the sessions runs in pane `pane`.
pub open spec fn session_pane(sessions: Seq<ClaudeSessionInfo>, pane: String) -> bool {
    exists|i: int| 0 <= i < sessions.len() && (#[trigger] sessions[i]).pane_id == Some(pane)
}

/// A configured root with `~` (alone or before `/`) standing for the home
/// directory, which is empty when unknown.
pub open spec fn expand_home_spec(path: Seq<char>, home: Option<Seq<char>>) -> Seq<char> {
    let h = match home {
        Some(h) => h,
        None => Seq::empty(),
    };
    if path.len() >= 2 && path[0] == '~' && path[1] == '/' {
        join_spec(h, path.skip(2))
    } else if path == seq!['~'] {
        h
    } else {
        path
    }
}

/// A configured root with `~` standing for the home directory.
pub fn expand_home(path: &str, home: Option<&str>) -> (r: String)
    ensures
        r@ == expand_home_spec(path@, match home {
            Some(h) => Some(h@),
            None => None,
        }),
{
    let p = chars_of(path);
    let h = match home {
        Some(h) => chars_of(h),
        None => Vec::new(),
    };
    if p.len() >= 2 && p[0] == '~' && p[1] == '/' {
        let rest = slice_chars(p.as_slice(), 2, p.len());
        assert(rest@ =~= path@.skip(2));
        string_of(join_path(h.as_slice(), rest.as_slice()).as_slice())
    } else if p.len() == 1 && p[0] == '~' {
        assert(path@ =~= seq!['~']);
        string_of(h.as_slice())
    } else {
        assert(path@.len() == 1 ==> path@ != seq!['~'] || path@[0] == '~');
        string_of(p.as_slice())
    }
}

/// Whether path `a` comes before path `b` in std's `Path` order (component
/// by component).
pub uninterp spec fn path_before(a: Seq<char>, b: Seq<char>) -> bool;

/// std's `Path::cmp` (as `<` on two `Path`s); its result is named
/// `path_before` of the two texts, the component order is not stated.
#[verifier::external_body]
fn path_less(a: &str, b: &str) -> (r: bool)
    ensures
        r == path_before(a@, b@),
{
    std::path::Path::new(a) < std::path::Path::new(b)
}

/// The position of the first of the smallest paths among the first `n`.
pub open spec fn first_min(paths: Seq<Seq<char>>, n: int) -> int
    decreases n,
{
    if n <= 1 {
        0
    } else {
        let m = first_min(paths, n - 1);
        if path_before(paths[n - 1], paths[m]) {
            n - 1
        } else {
            m
        }
    }
}

/// The first in path order of the candidates (what sorting them and taking
/// the first gives).
pub fn pick_worktree(candidates: &Vec<String>) -> (r: Option<String>)
    ensures
        candidates@.len() == 0 ==> r is None,
        candidates@.len() > 0 ==> (r matches Some(p) && p@ == string_views(candidates@)[first_min(
            string_views(candidates@),
            candidates@.len() as int,
        )]),
{
    if candidates.len() == 0 {
        return None;
    }
    let ghost c = string_views(candidates@);
    let mut best: usize = 0;
    let mut i: usize = 1;
    while i < candidates.len()
        invariant
            1 <= i <= candidates@.len(),
            c == string_views(candidates@),
            best as int == first_min(c, i as int),
            best < i,
        decreases candidates@.len() - i,
    {
        if path_less(candidates[i].as_str(), candidates[best].as_str()) {
            best = i;
        }
        i = i + 1;
    }
    Some(candidates[best].clone())
}

/// Whether `p` is a worktree of issue `key`: a directory named after the
/// issue in a `*-worktrees` directory of one of the roots.
pub open spec fn worktree_of(p: Seq<char>, roots: Seq<String>, home: Option<Seq<char>>, key: Seq<char>) -> bool {
    exists|i: int, name: Seq<char>, child: Seq<char>|
        0 <= i < roots.len() && has_suffix(name, "-worktrees"@) && key_matches_spec(child, key) && p
            == #[trigger] join_spec(join_spec(expand_home_spec(roots[i]@, home), name), child)
}

/// Whether `p` is a worktree of issue `key` that the machine listed: a
/// subdirectory named after the issue, as the machine listed the
/// subdirectories of a `*-worktrees` directory it listed in one of the
/// roots.
pub open spec fn worktree_listed<M: Machine>(
    machine: &M,
    p: Seq<char>,
    roots: Seq<String>,
    home: Option<Seq<char>>,
    key: Seq<char>,
) -> bool {
    exists|i: int, names: Seq<String>, n: int, children: Seq<String>, c: int|
        0 <= i < roots.len() && machine.dirs_answer(expand_home_spec(roots[i]@, home), names) && 0 <= n < names.len()
            && has_suffix(names[n]@, "-worktrees"@) && machine.dirs_answer(
            join_spec(expand_home_spec(roots[i]@, home), names[n]@),
            children,
        ) && 0 <= c < children.len() && key_matches_spec(children[c]@, key) && p == #[trigger] join_spec(
            join_spec(expand_home_spec(roots[i]@, home), names[n]@),
            children[c]@,
        )
}

/// Whether every path of `found` is a worktree of `key` the machine listed,
/// and `home` the home directory it gave.
pub open spec fn found_listed<M: Machine>(
    machine: &M,
    found: Seq<Seq<char>>,
    roots: Seq<String>,
    home: Option<Seq<char>>,
    key: Seq<char>,
) -> bool {
    &&& exists|h: Option<String>| #[trigger] machine.home_answer(h) && opt_view(h) == home
    &&& forall|k: int| 0 <= k < found.len() ==> worktree_listed(machine, #[trigger] found[k], roots, home, key)
}

/// What a call that answers nothing but success or an error ends in: the
/// notice `notice`, or the failure `prefix` and the error.
pub open spec fn notice_or_failure(r: Outcome, answer: Result<(), String>, notice: Seq<char>, prefix: Seq<char>) -> bool {
    match answer {
        Ok(()) => r matches Outcome::Notice(m) && m@ == notice,
        Err(e) => r matches Outcome::Failed(m) && m@ == prefix + e@,
    }
}

/// Whether `ws` is the workspace of the owner pane: none without an owner
/// pane; else what herdr's description of the pane says, none when it
/// could not describe it.
pub open spec fn workspace_from<B: HerdrBridge>(bridge: &B, owner_pane: Option<String>, ws: Option<String>) -> bool {
    match owner_pane {
        None => ws is None,
        Some(p) => exists|a: Result<(PaneContext, Option<String>), String>|
            #[trigger] bridge.pane_answer(p@, a) && ws == match a {
                Ok((c, _)) => c.workspace_id,
                Err(_) => None,
            },
    }
}

/// How opening the session of issue `key` ends: focusing the pane of its
/// linked session, else resuming the session in a tab of the owner's
/// workspace; without a session, opening a tab in the issue's worktree, or
/// saying there is none.
pub open spec fn session_spec<B: HerdrBridge>(
    bridge: &B,
    owner_pane: Option<String>,
    key: Seq<char>,
    link: Option<LinkedSession>,
    worktree: Option<String>,
    r: Outcome,
) -> bool {
    match link {
        Some(l) => match l.pane_id {
            Some(p) => exists|a: Result<(), String>|
                #[trigger] bridge.focus_answer(p@, a) && notice_or_failure(
                    r,
                    a,
                    key + ": sessão focada"@,
                    "não foi possível focar a sessão: "@,
                ),
            None => exists|ws: Option<String>, a: Result<(), String>|
                workspace_from(bridge, owner_pane, ws) && #[trigger] bridge.resume_answer(
                    l.session_id@,
                    opt_view(ws),
                    a,
                ) && notice_or_failure(r, a, key + ": sessão retomada em nova tab"@, "não foi possível abrir a sessão: "@),
        },
        None => match worktree {
            Some(path) => exists|ws: Option<String>, a: Result<(), String>|
                workspace_from(bridge, owner_pane, ws) && #[trigger] bridge.tab_answer(opt_view(ws), path@, key, a)
                    && notice_or_failure(r, a, key + ": tab aberta em "@ + path@, "não foi possível abrir a tab: "@),
            None => r matches Outcome::Notice(m) && m@ == "sem sessão/worktree para "@ + key,
        },
    }
}

/// How opening the worktree at `path` ends: focusing the pane of the first
/// session (of those herdr lists, none when it cannot) that works in it and
/// runs in a pane, else opening a tab there in the owner's workspace.
pub open spec fn open_worktree_spec<B: HerdrBridge>(
    bridge: &B,
    owner_pane: Option<String>,
    path: Seq<char>,
    name: Seq<char>,
    r: Outcome,
) -> bool {
    exists|s: Result<Vec<ClaudeSessionInfo>, String>|
        #[trigger] bridge.sessions_answer(s) && worktree_opened(bridge, owner_pane, listed_sessions(s), path, name, r)
}

/// The sessions herdr listed, none when it could not list them.
pub open spec fn listed_sessions(s: Result<Vec<ClaudeSessionInfo>, String>) -> Seq<ClaudeSessionInfo> {
    match s {
        Ok(v) => v@,
        Err(_) => Seq::empty(),
    }
}

/// How opening the worktree at `path` ends, given the sessions listed (see
/// [`open_worktree_spec`]).
pub open spec fn worktree_opened<B: HerdrBridge>(
    bridge: &B,
    owner_pane: Option<String>,
    list: Seq<ClaudeSessionInfo>,
    path: Seq<char>,
    name: Seq<char>,
    r: Outcome,
) -> bool {
    match live_session_in(list, path, 0) {
        Some(i) => match list[i].pane_id {
            Some(p) => exists|a: Result<(), String>|
                #[trigger] bridge.focus_answer(p@, a) && notice_or_failure(
                    r,
                    a,
                    name + ": sessão focada"@,
                    "não foi possível focar a sessão: "@,
                ),
            None => false,
        },
        None => exists|ws: Option<String>, a: Result<(), String>|
            workspace_from(bridge, owner_pane, ws) && #[trigger] bridge.tab_answer(opt_view(ws), path, name, a)
                && notice_or_failure(r, a, name + ": tab aberta em "@ + path, "não foi possível abrir a tab: "@),
    }
}

/// Whether `p` is the first, in path order, of `found`, which are
/// worktrees of issue `key`.
pub open spec fn worktree_pick(p: Seq<char>, found: Seq<Seq<char>>, roots: Seq<String>, home: Option<Seq<char>>, key: Seq<char>) -> bool {
    &&& found.len() > 0
    &&& p == found[first_min(found, found.len() as int)]
    &&& forall|k: int| 0 <= k < found.len() ==> worktree_of(#[trigger] found[k], roots, home, key)
}

/// The first outside call a job makes, with its arguments.
pub enum Request {
    /// `search` with the worker's JQL.
    Search { jql: String },
    /// `issue_detail` of an issue.
    IssueDetail { key: String },
    /// `transitions` of an issue.
    Transitions { key: String },
    /// `apply_transition` of an issue.
    ApplyTransition { key: String, transition_id: String },
    /// `add_comment` to an issue.
    AddComment { key: String, text: String },
    /// `myself`, to learn the user's account.
    Myself,
    /// `assign` of an issue to an account.
    Assign { key: String, account_id: String },
    /// `open_url` with the browser command.
    OpenUrl { browser_command: String, url: String },
    /// `run_shell` of the collector's command line.
    RunShell { command: String },
}

/// What the single call of a job answered.
pub enum Reply {
    Transitions(Result<Vec<Transition>, String>),
    Done(Result<(), String>),
    Comment(Result<Comment, String>),
    Shell(Result<CommandOutput, String>),
}

/// Whether a job is settled by the answer of its one call.
pub open spec fn single_call(job: Job) -> bool {
    job is Transitions || job is Transition || job is Comment || job is OpenUrl || job is WorktreeGc
}

/// Whether `reply` answers the call of `job`.
pub open spec fn reply_fits(job: Job, reply: Reply) -> bool {
    match job {
        Job::Transitions(_) => reply is Transitions,
        Job::Transition { .. } => reply is Done,
        Job::Comment { .. } => reply is Comment,
        Job::OpenUrl(_) => reply is Done,
        Job::WorktreeGc { .. } => reply is Shell,
        _ => false,
    }
}

/// The outcome of a single-call job from what its call answered: the
/// transitions, the move, the comment, the browser or the collector's
/// report; a failure names what failed and the error.
pub open spec fn outcome_spec(gc_command: Seq<char>, job: Job, reply: Reply, r: Outcome) -> bool {
    match (job, reply) {
        (Job::Transitions(key), Reply::Transitions(Ok(t))) => r == Outcome::Transitions { key, transitions: t },
        (Job::Transitions(key), Reply::Transitions(Err(e))) => r == Outcome::TransitionsFailed { key, error: e },
        (Job::Transition { key, to, .. }, Reply::Done(Ok(()))) => r == Outcome::Transitioned { key, to },
        (Job::Transition { key, .. }, Reply::Done(Err(e))) => r matches Outcome::Failed(m) && m@
            == "não foi possível mover "@ + key@ + ": "@ + e@,
        (Job::Comment { key, .. }, Reply::Comment(Ok(c))) => r == Outcome::Commented { key, comment: c },
        (Job::Comment { .. }, Reply::Comment(Err(e))) => r matches Outcome::CommentFailed(m) && m@
            == "comentário não enviado: "@ + e@,
        (Job::OpenUrl(url), Reply::Done(Ok(()))) => r matches Outcome::Notice(m) && m@ == "abrindo "@ + url@,
        (Job::OpenUrl(_), Reply::Done(Err(e))) => r matches Outcome::Failed(m) && m@
            == "não foi possível abrir o browser: "@ + e@,
        (Job::WorktreeGc { apply }, Reply::Shell(run)) => r matches Outcome::WorktreeGc { apply: a, result } && a
            == apply && gc_run_spec(command_spec(gc_command, apply), run) == match result {
            Ok(rep) => Ok::<GcView, Seq<char>>(rep@),
            Err(e) => Err::<GcView, Seq<char>>(e@),
        },
        _ => false,
    }
}

/// Whether `q` is the first call that job `job` of worker `w` makes, with
/// its arguments: the search for the worker's JQL, the fetch of the issue,
/// of its transitions, the move, the comment, the user (when not yet known)
/// or the assignment to the user's account, the browser with the worker's
/// command, or the collector's command line. Opening a session or a
/// worktree makes no such call.
pub open spec fn request_for(w: Worker, job: Job, q: Request) -> bool {
    match job {
        Job::Refresh => q matches Request::Search { jql } && jql@ == w.jql@,
        Job::Detail(key) => q matches Request::IssueDetail { key: k } && k@ == key@,
        Job::Transitions(key) => q matches Request::Transitions { key: k } && k@ == key@,
        Job::Transition { key, transition_id, .. } => q matches Request::ApplyTransition {
            key: k,
            transition_id: t,
        } && k@ == key@ && t@ == transition_id@,
        Job::Comment { key, text } => q matches Request::AddComment { key: k, text: t } && k@ == key@ && t@
            == text@,
        Job::AssignMe(key) => match w.myself {
            Some((account, _)) => q matches Request::Assign { key: k, account_id: a } && k@ == key@ && a@
                == account@,
            None => q is Myself,
        },
        Job::OpenUrl(url) => q matches Request::OpenUrl { browser_command: b, url: u } && b@ == w.browser_command@
            && u@ == url@,
        Job::WorktreeGc { apply } => q matches Request::RunShell { command: c } && c@ == command_spec(
            w.worktree_gc_command@,
            apply,
        ),
        Job::Session { .. } => false,
        Job::OpenWorktree { .. } => false,
    }
}

/// Whether `reply` is what the call `request` was answered with.
pub open spec fn answered<A: JiraService, M: Machine>(api: &A, machine: &M, request: Request, reply: Reply) -> bool {
    match (request, reply) {
        (Request::Transitions { key }, Reply::Transitions(a)) => api.transitions_answer(key@, a),
        (Request::ApplyTransition { key, transition_id }, Reply::Done(a)) => api.move_answer(key@, transition_id@, a),
        (Request::AddComment { key, text }, Reply::Comment(a)) => api.comment_answer(key@, text@, a),
        (Request::OpenUrl { browser_command, url }, Reply::Done(a)) => machine.open_url_answer(
            browser_command@,
            url@,
            a,
        ),
        (Request::RunShell { command }, Reply::Shell(a)) => machine.run_answer(command@, a),
        _ => false,
    }
}

/// Whether herdr, asked to describe the pane of `status`, answered with that
/// agent status.
pub open spec fn status_answered<B: HerdrBridge>(bridge: &B, status: (String, String)) -> bool {
    exists|c: PaneContext| #[trigger] bridge.pane_answer(status.0@, Ok((c, Some(status.1))))
}

/// The list a refresh shows, from what its calls answered: a failed search
/// fails the refresh; otherwise the issues found, the sessions (none when
/// herdr could not list them), where the owner pane is (nowhere when there is
/// no owner pane or herdr could not describe it) and the agent statuses.
pub open spec fn list_outcome_spec(
    search: Result<Vec<Issue>, String>,
    sessions: Result<Vec<ClaudeSessionInfo>, String>,
    owner: Option<Result<(PaneContext, Option<String>), String>>,
    statuses: Vec<(String, String)>,
    r: Outcome,
) -> bool {
    match search {
        Err(e) => r == Outcome::ListFailed(e),
        Ok(issues) => r matches Outcome::List { issues: i, sessions: s, owner: o, pane_status: p } && i == issues
            && s@ == match sessions {
            Ok(v) => v@,
            Err(_) => Seq::empty(),
        } && o == match owner {
            Some(Ok((context, _))) => context,
            _ => PaneContext { workspace_id: None, cwd: None },
        } && p == statuses,
    }
}

/// The list a refresh shows (see [`list_outcome_spec`]).
pub fn list_outcome(
    search: Result<Vec<Issue>, String>,
    sessions: Result<Vec<ClaudeSessionInfo>, String>,
    owner: Option<Result<(PaneContext, Option<String>), String>>,
    statuses: Vec<(String, String)>,
) -> (r: Outcome)
    ensures
        list_outcome_spec(search, sessions, owner, statuses, r),
{
    match search {
        Err(e) => Outcome::ListFailed(e),
        Ok(issues) => {
            let sessions = match sessions {
                Ok(v) => v,
                Err(_) => Vec::new(),
            };
            let owner = match owner {
                Some(Ok((context, _))) => context,
                _ => PaneContext { workspace_id: None, cwd: None },
            };
            Outcome::List { issues, sessions, owner, pane_status: statuses }
        },
    }
}

/// The detail of issue `key`, from what its calls answered: the issue's
/// detail with the worktrees found, or the failure of the fetch.
pub open spec fn detail_outcome_spec(key: String, detail: Result<IssueDetail, String>, worktrees: Vec<WorktreeInfo>, r: Outcome) -> bool {
    match detail {
        Ok(d) => r == Outcome::Detail(IssueDetail { worktrees, ..d }),
        Err(e) => r == Outcome::DetailFailed { key, error: e },
    }
}

/// The detail of an issue (see [`detail_outcome_spec`]).
pub fn detail_outcome(key: String, detail: Result<IssueDetail, String>, worktrees: Vec<WorktreeInfo>) -> (r: Outcome)
    ensures
        detail_outcome_spec(key, detail, worktrees, r),
{
    match detail {
        Ok(d) => {
            let mut d = d;
            d.worktrees = worktrees;
            Outcome::Detail(d)
        },
        Err(e) => Outcome::DetailFailed { key, error: e },
    }
}

/// The end of an assignment of issue `key` to the user called `name`: done,
/// or the failure with the key and the error.
pub open spec fn assign_outcome_spec(key: String, name: String, answer: Result<(), String>, r: Outcome) -> bool {
    match answer {
        Ok(()) => r == Outcome::Assigned { key, name },
        Err(e) => r matches Outcome::Failed(m) && m@ == "não foi possível atribuir "@ + key@ + ": "@ + e@,
    }
}

/// The end of an assignment (see [`assign_outcome_spec`]).
pub fn assign_outcome(key: String, name: String, answer: Result<(), String>) -> (r: Outcome)
    ensures
        assign_outcome_spec(key, name, answer, r),
{
    match answer {
        Ok(()) => Outcome::Assigned { key, name },
        Err(e) => {
            let prefix = cat(cat("não foi possível atribuir ", key.as_str()).as_str(), ": ");
            Outcome::Failed(cat(prefix.as_str(), e.as_str()))
        },
    }
}

/// Makes the call of a request.
fn perform<A: JiraService, M: Machine>(api: &A, machine: &M, request: &Request) -> (r: Reply)
    requires
        request is Transitions || request is ApplyTransition || request is AddComment || request is OpenUrl
            || request is RunShell,
    ensures
        request is Transitions ==> r is Transitions,
        request is ApplyTransition || request is OpenUrl ==> r is Done,
        request is AddComment ==> r is Comment,
        request is RunShell ==> r is Shell,
        answered(api, machine, *request, r),
{
    match request {
        Request::Transitions { key } => Reply::Transitions(api.transitions(key.as_str())),
        Request::ApplyTransition { key, transition_id } => Reply::Done(
            api.apply_transition(key.as_str(), transition_id.as_str()),
        ),
        Request::AddComment { key, text } => Reply::Comment(api.add_comment(key.as_str(), text.as_str())),
        Request::OpenUrl { browser_command, url } => Reply::Done(
            machine.open_url(browser_command.as_str(), url.as_str()),
        ),
        Request::RunShell { command } => Reply::Shell(machine.run_shell(command.as_str())),
        _ => Reply::Done(Ok(())),
    }
}

impl Worker {
    /// The workspace of the owner pane, when herdr describes the pane.
    pub fn owner_workspace<B: HerdrBridge>(&self, bridge: &B) -> (r: Option<String>)
        ensures
            workspace_from(bridge, self.owner_pane, r),
    {
        match &self.owner_pane {
            Some(pane) => match bridge.pane(pane.as_str()) {
                Ok((context, _)) => context.workspace_id,
                Err(_) => None,
            },
            None => None,
        }
    }

    /// Opens the session of an issue: focuses its pane when it runs in one,
    /// else resumes it in a new tab; without a session it opens a tab in the
    /// issue's worktree (`worktree`, found on the machine), or says there is
    /// none.
    pub fn open_session<B: HerdrBridge>(
        &self,
        bridge: &B,
        key: &str,
        link: Option<LinkedSession>,
        worktree: Option<String>,
    ) -> (r: Outcome)
        ensures
            session_spec(bridge, self.owner_pane, key@, link, worktree, r),
    {
        let workspace = self.owner_workspace(bridge);
        match link {
            Some(l) => {
                match &l.pane_id {
                    Some(pane) => {
                        return match bridge.focus_pane(pane.as_str()) {
                            Ok(()) => Outcome::Notice(cat(key, ": sessão focada")),
                            Err(e) => {
                                fail("não foi possível focar a sessão: ", e.as_str())
                            },
                        };
                    },
                    None => {},
                }
                match bridge.open_session(l.session_id.as_str(), workspace) {
                    Ok(()) => Outcome::Notice(cat(key, ": sessão retomada em nova tab")),
                    Err(e) => {
                        let r = fail("não foi possível abrir a sessão: ", e.as_str());
                        r
                    },
                }
            },
            None => match worktree {
                Some(path) => match bridge.create_tab(workspace, path.as_str(), key) {
                    Ok(()) => Outcome::Notice(cat(cat(key, ": tab aberta em ").as_str(), path.as_str())),
                    Err(e) => {
                        let r = fail("não foi possível abrir a tab: ", e.as_str());
                        r
                    },
                },
                None => Outcome::Notice(cat("sem sessão/worktree para ", key)),
            },
        }
    }

    /// Opens the worktree at `path`: focuses the pane of the first session
    /// that works in it, else opens a tab there.
    pub fn open_worktree<B: HerdrBridge>(&self, bridge: &B, path: &str, name: &str) -> (r: Outcome)
        ensures
            open_worktree_spec(bridge, self.owner_pane, path@, name@, r),
    {
        let answer = bridge.sessions();
        let ghost listed = answer;
        let sessions = match answer {
            Ok(s) => s,
            Err(_) => Vec::new(),
        };
        assert(sessions@ == listed_sessions(listed));
        let mut i: usize = 0;
        let mut found = false;
        while i < sessions.len() && !found
            invariant
                i <= sessions@.len(),
                live_session_in(sessions@, path@, 0) == live_session_in(sessions@, path@, i as int),
                found ==> i < sessions@.len() && live_session_in(sessions@, path@, i as int) == Some(i as int)
                    && sessions@[i as int].pane_id is Some,
            decreases sessions@.len() - i, if found { 0int } else { 1int },
        {
            if sessions[i].pane_id.is_some() && session_in(&sessions[i], path) {
                found = true;
            } else {
                i = i + 1;
            }
        }
        if found {
            match &sessions[i].pane_id {
                Some(pane) => {
                    let a = bridge.focus_pane(pane.as_str());
                    let r = match a {
                        Ok(()) => Outcome::Notice(cat(name, ": sessão focada")),
                        Err(e) => fail("não foi possível focar a sessão: ", e.as_str()),
                    };
                    assert(notice_or_failure(r, a, name@ + ": sessão focada"@, "não foi possível focar a sessão: "@));
                    assert(bridge.focus_answer(pane@, a));
                    assert(worktree_opened(bridge, self.owner_pane, sessions@, path@, name@, r));
                    assert(bridge.sessions_answer(listed));
                    return r;
                },
                None => {},
            }
        }
        let workspace = self.owner_workspace(bridge);
        let ghost ws = workspace;
        let a = bridge.create_tab(workspace, path, name);
        let r = match a {
            Ok(()) => Outcome::Notice(cat(cat(name, ": tab aberta em ").as_str(), path)),
            Err(e) => fail("não foi possível abrir a tab: ", e.as_str()),
        };
        assert(notice_or_failure(r, a, name@ + ": tab aberta em "@ + path@, "não foi possível abrir a tab: "@));
        assert(bridge.tab_answer(opt_view(ws), path@, name@, a));
        assert(!found);
        assert(live_session_in(sessions@, path@, i as int) is None);
        assert(worktree_opened(bridge, self.owner_pane, sessions@, path@, name@, r));
        assert(bridge.sessions_answer(listed));
        r
    }

    /// The agent status of each pane the sessions run in, when herdr shows
    /// one.
    fn pane_statuses<B: HerdrBridge>(bridge: &B, sessions: &Vec<ClaudeSessionInfo>) -> (r: Vec<(String, String)>)
        ensures
            r@.len() <= sessions@.len(),
            forall|k: int| 0 <= k < r@.len() ==> session_pane(sessions@, (#[trigger] r@[k]).0),
            forall|k: int| 0 <= k < r@.len() ==> status_answered(bridge, #[trigger] r@[k]),
    {
        let mut out: Vec<(String, String)> = Vec::new();
        let mut i: usize = 0;
        while i < sessions.len()
            invariant
                i <= sessions@.len(),
                out@.len() <= i,
                forall|k: int|
                    #![trigger out@[k]]
                    0 <= k < out@.len() ==> exists|j: int|
                        0 <= j < i && (#[trigger] sessions@[j]).pane_id == Some(out@[k].0),
                forall|k: int| 0 <= k < out@.len() ==> status_answered(bridge, #[trigger] out@[k]),
            decreases sessions@.len() - i,
        {
            let ghost before = out@;
            match &sessions[i].pane_id {
                Some(pane) => match bridge.pane(pane.as_str()) {
                    Ok((context, Some(status))) => {
                        let ghost answer = Ok::<(PaneContext, Option<String>), String>((context, Some(status)));
                        assert(bridge.pane_answer(pane@, answer));
                        out.push((pane.clone(), status));
                        assert(sessions@[i as int].pane_id == Some(out@.last().0));
                        assert(bridge.pane_answer(out@.last().0@, Ok((context, Some(out@.last().1)))));
                        assert(status_answered(bridge, out@.last()));
                        assert forall|k: int| 0 <= k < out@.len() implies status_answered(bridge, #[trigger] out@[k]) by {
                            if k < before.len() {
                                assert(out@[k] == before[k]);
                            }
                        }
                    },
                    _ => {},
                },
                None => {},
            }
            assert forall|k: int| #![trigger out@[k]] 0 <= k < out@.len() implies exists|j: int|
                0 <= j < i + 1 && (#[trigger] sessions@[j]).pane_id == Some(out@[k].0) by {
                if k < before.len() {
                    assert(out@[k] == before[k]);
                } else {
                    assert(sessions@[i as int].pane_id == Some(out@[k].0));
                }
            }
            i = i + 1;
        }
        assert forall|k: int| 0 <= k < out@.len() implies session_pane(sessions@, (#[trigger] out@[k]).0) by {
            let j = choose|j: int| 0 <= j < i && (#[trigger] sessions@[j]).pane_id == Some(out@[k].0);
            assert(sessions@[j].pane_id == Some(out@[k].0));
        }
        out
    }

    /// The first, in path order, of the worktrees of issue `key`: the
    /// directories named after it in the `*-worktrees` directories of the
    /// worktree roots.
    pub fn find_worktree<M: Machine>(&self, machine: &M, key: &str) -> (r: Option<String>)
        ensures
            r matches Some(p) ==> exists|home: Option<Seq<char>>, found: Seq<Seq<char>>|
                #[trigger] worktree_pick(p@, found, self.worktree_roots@, home, key@) && found_listed(
                    machine,
                    found,
                    self.worktree_roots@,
                    home,
                    key@,
                ),
    {
        let home = machine.home();
        let ghost given = home;
        let ghost hv = match &home {
            Some(h) => Some(h@),
            None => None,
        };
        let mut found: Vec<String> = Vec::new();
        let mut i: usize = 0;
        while i < self.worktree_roots.len()
            invariant
                i <= self.worktree_roots@.len(),
                hv == match home {
                    Some(h) => Some(h@),
                    None => None::<Seq<char>>,
                },
                hv == opt_view(given),
                machine.home_answer(given),
                forall|k: int| 0 <= k < found@.len() ==> worktree_of(#[trigger] found@[k]@, self.worktree_roots@, hv, key@),
                forall|k: int| 0 <= k < found@.len() ==> worktree_listed(machine, #[trigger] found@[k]@, self.worktree_roots@, hv, key@),
            decreases self.worktree_roots@.len() - i,
        {
            let root = expand_home(self.worktree_roots[i].as_str(), match &home {
                Some(h) => Some(h.as_str()),
                None => None,
            });
            let names = machine.child_dirs(root.as_str());
            let mut j: usize = 0;
            while j < names.len()
                invariant
                    i < self.worktree_roots@.len(),
                    root@ == expand_home_spec(self.worktree_roots@[i as int]@, hv),
                    machine.dirs_answer(root@, names@),
                    forall|k: int| 0 <= k < found@.len() ==> worktree_of(#[trigger] found@[k]@, self.worktree_roots@, hv, key@),
                    forall|k: int| 0 <= k < found@.len() ==> worktree_listed(machine, #[trigger] found@[k]@, self.worktree_roots@, hv, key@),
                decreases names@.len() - j,
            {
                let name = chars_of(names[j].as_str());
                if ends_with(name.as_slice(), chars_of("-worktrees").as_slice()) {
                    let dir = join_path(chars_of(root.as_str()).as_slice(), name.as_slice());
                    let dir_text = string_of(dir.as_slice());
                    let children = machine.child_dirs(dir_text.as_str());
                    let mut k: usize = 0;
                    while k < children.len()
                        invariant
                            i < self.worktree_roots@.len(),
                            dir@ == join_spec(expand_home_spec(self.worktree_roots@[i as int]@, hv), name@),
                            has_suffix(name@, "-worktrees"@),
                            j < names@.len(),
                            name@ == names@[j as int]@,
                            root@ == expand_home_spec(self.worktree_roots@[i as int]@, hv),
                            machine.dirs_answer(root@, names@),
                            machine.dirs_answer(dir@, children@),
                            forall|q: int| 0 <= q < found@.len() ==> worktree_of(#[trigger] found@[q]@, self.worktree_roots@, hv, key@),
                            forall|q: int| 0 <= q < found@.len() ==> worktree_listed(machine, #[trigger] found@[q]@, self.worktree_roots@, hv, key@),
                        decreases children@.len() - k,
                    {
                        if crate::jira::key_matches(children[k].as_str(), key) {
                            let path = join_path(dir.as_slice(), chars_of(children[k].as_str()).as_slice());
                            let ghost before = found@;
                            let entry = string_of(path.as_slice());
                            proof {
                                assert(worktree_of(entry@, self.worktree_roots@, hv, key@)) by {
                                    assert(entry@ == join_spec(join_spec(expand_home_spec(self.worktree_roots@[i as int]@, hv), name@), children@[k as int]@));
                                }
                                assert(worktree_listed(machine, entry@, self.worktree_roots@, hv, key@)) by {
                                    assert(entry@ == join_spec(join_spec(expand_home_spec(self.worktree_roots@[i as int]@, hv), names@[j as int]@), children@[k as int]@));
                                }
                            }
                            found.push(entry);
                            proof {
                                assert forall|q: int| 0 <= q < found@.len() implies worktree_of(#[trigger] found@[q]@, self.worktree_roots@, hv, key@) by {
                                    if q < before.len() {
                                        assert(found@[q] == before[q]);
                                    }
                                }
                                assert forall|q: int| 0 <= q < found@.len() implies worktree_listed(machine, #[trigger] found@[q]@, self.worktree_roots@, hv, key@) by {
                                    if q < before.len() {
                                        assert(found@[q] == before[q]);
                                    }
                                }
                            }
                        }
                        k = k + 1;
                    }
                }
                j = j + 1;
            }
            i = i + 1;
        }
        let r = pick_worktree(&found);
        proof {
            if found@.len() > 0 {
                let fv = string_views(found@);
                assert forall|k: int| 0 <= k < fv.len() implies worktree_of(#[trigger] fv[k], self.worktree_roots@, hv, key@) by {
                    assert(fv[k] == found@[k]@);
                }
                assert(worktree_pick(r.unwrap()@, fv, self.worktree_roots@, hv, key@));
                assert forall|k: int| 0 <= k < fv.len() implies worktree_listed(machine, #[trigger] fv[k], self.worktree_roots@, hv, key@) by {
                    assert(fv[k] == found@[k]@);
                }
                assert(found_listed(machine, fv, self.worktree_roots@, hv, key@));
            }
        }
        r
    }

    /// The first outside call of a job and its arguments; none for opening a
    /// session or a worktree, whose calls go to herdr.
    pub fn request_of(&self, job: &Job) -> (r: Option<Request>)
        ensures
            r is None <==> (job is Session || job is OpenWorktree),
            r matches Some(q) ==> request_for(*self, *job, q),
    {
        match job {
            Job::Refresh => Some(Request::Search { jql: self.jql.clone() }),
            Job::Detail(key) => Some(Request::IssueDetail { key: key.clone() }),
            Job::Transitions(key) => Some(Request::Transitions { key: key.clone() }),
            Job::Transition { key, transition_id, .. } => Some(
                Request::ApplyTransition { key: key.clone(), transition_id: transition_id.clone() },
            ),
            Job::Comment { key, text } => Some(Request::AddComment { key: key.clone(), text: text.clone() }),
            Job::AssignMe(key) => match &self.myself {
                Some((account, _)) => Some(Request::Assign { key: key.clone(), account_id: account.clone() }),
                None => Some(Request::Myself),
            },
            Job::OpenUrl(url) => Some(
                Request::OpenUrl { browser_command: self.browser_command.clone(), url: url.clone() },
            ),
            Job::WorktreeGc { apply } => Some(
                Request::RunShell { command: command(self.worktree_gc_command.as_str(), *apply) },
            ),
            Job::Session { .. } => None,
            Job::OpenWorktree { .. } => None,
        }
    }

    /// The outcome of a single-call job from what its call answered (see
    /// [`outcome_spec`]).
    pub fn outcome_of(&self, job: Job, reply: Reply) -> (r: Outcome)
        requires
            single_call(job),
            reply_fits(job, reply),
        ensures
            outcome_spec(self.worktree_gc_command@, job, reply, r),
    {
        match job {
            Job::Transitions(key) => match reply {
                Reply::Transitions(Ok(transitions)) => Outcome::Transitions { key, transitions },
                Reply::Transitions(Err(error)) => Outcome::TransitionsFailed { key, error },
                _ => Outcome::Failed(String::new()),
            },
            Job::Transition { key, to, .. } => match reply {
                Reply::Done(Ok(())) => Outcome::Transitioned { key, to },
                Reply::Done(Err(e)) => {
                    let prefix = cat(cat("não foi possível mover ", key.as_str()).as_str(), ": ");
                    Outcome::Failed(cat(prefix.as_str(), e.as_str()))
                },
                _ => Outcome::Failed(String::new()),
            },
            Job::Comment { key, .. } => match reply {
                Reply::Comment(Ok(comment)) => Outcome::Commented { key, comment },
                Reply::Comment(Err(e)) => Outcome::CommentFailed(cat("comentário não enviado: ", e.as_str())),
                _ => Outcome::Failed(String::new()),
            },
            Job::OpenUrl(url) => match reply {
                Reply::Done(Ok(())) => Outcome::Notice(cat("abrindo ", url.as_str())),
                Reply::Done(Err(e)) => Outcome::Failed(cat("não foi possível abrir o browser: ", e.as_str())),
                _ => Outcome::Failed(String::new()),
            },
            Job::WorktreeGc { apply } => match reply {
                Reply::Shell(run) => {
                    let line = command(self.worktree_gc_command.as_str(), apply);
                    Outcome::WorktreeGc { apply, result: gc_run_result(line.as_str(), run) }
                },
                _ => Outcome::Failed(String::new()),
            },
            _ => Outcome::Failed(String::new()),
        }
    }

    /// Runs a job and says how it went: each case of the contract names the
    /// calls the job makes, with their arguments, and what the outcome is
    /// for whatever they answered.
    pub fn handle<A: JiraService, B: HerdrBridge, M: Machine>(
        &mut self,
        api: &A,
        bridge: &B,
        machine: &M,
        job: Job,
    ) -> (r: Outcome)
        ensures
            old(self).myself is Some ==> final(self).myself == old(self).myself,
            final(self).jql == old(self).jql && final(self).owner_pane == old(self).owner_pane
                && final(self).worktree_roots == old(self).worktree_roots && final(self).browser_command
                == old(self).browser_command && final(self).worktree_gc_command == old(
                self,
            ).worktree_gc_command,
            single_call(job) ==> exists|q: Request, reply: Reply|
                request_for(*old(self), job, q) && #[trigger] answered(api, machine, q, reply) && reply_fits(
                    job,
                    reply,
                ) && outcome_spec(old(self).worktree_gc_command@, job, reply, r),
            match job {
                Job::Refresh => exists|
                    search: Result<Vec<Issue>, String>,
                    sessions: Result<Vec<ClaudeSessionInfo>, String>,
                    owner: Option<Result<(PaneContext, Option<String>), String>>,
                    statuses: Vec<(String, String)>,
                |
                    #[trigger] list_outcome_spec(search, sessions, owner, statuses, r) && api.search_answer(
                        old(self).jql@,
                        search,
                    ) && (search is Ok ==> bridge.sessions_answer(sessions)) && (search is Ok ==> (owner is None
                        <==> old(self).owner_pane is None)) && (owner matches Some(o) ==> old(
                        self,
                    ).owner_pane matches Some(p) && bridge.pane_answer(p@, o)) && (forall|k: int|
                        0 <= k < statuses@.len() ==> status_answered(bridge, #[trigger] statuses@[k])
                            && match sessions {
                            Ok(v) => session_pane(v@, statuses@[k].0),
                            Err(_) => false,
                        }),
                Job::Detail(key) => exists|detail: Result<IssueDetail, String>, worktrees: Vec<WorktreeInfo>|
                    #[trigger] detail_outcome_spec(key, detail, worktrees, r) && api.detail_answer(key@, detail) && (
                    detail is Ok ==> machine.worktrees_answer(string_views(old(self).worktree_roots@), key@, worktrees))
                        && (detail is Err ==> worktrees@.len() == 0),
                Job::AssignMe(key) => match old(self).myself {
                    Some((account, name)) => exists|answer: Result<(), String>|
                        api.assign_answer(key@, account@, answer) && #[trigger] assign_outcome_spec(
                            key,
                            name,
                            answer,
                            r,
                        ),
                    None => exists|me: Result<(String, String), String>|
                        #[trigger] api.myself_answer(me) && match me {
                            Ok((account, name)) => final(self).myself == Some((account, name)) && exists|
                                answer: Result<(), String>,
                            |
                                api.assign_answer(key@, account@, answer) && #[trigger] assign_outcome_spec(
                                    key,
                                    name,
                                    answer,
                                    r,
                                ),
                            Err(e) => final(self).myself is None && (r matches Outcome::Failed(m) && m@
                                == "não foi possível atribuir: "@ + e@),
                        },
                },
                Job::Session { key, link } => exists|worktree: Option<String>|
                    #[trigger] session_spec(bridge, old(self).owner_pane, key@, link, worktree, r) && (link is Some
                        ==> worktree is None) && (worktree matches Some(p) ==> exists|
                        home: Option<Seq<char>>,
                        found: Seq<Seq<char>>,
                    | #[trigger] worktree_pick(p@, found, old(self).worktree_roots@, home, key@) && found_listed(
                        machine,
                        found,
                        old(self).worktree_roots@,
                        home,
                        key@,
                    )),
                Job::OpenWorktree { path, name } => open_worktree_spec(bridge, old(self).owner_pane, path@, name@, r),
                _ => true,
            },
    {
        let single = match &job {
            Job::Transitions(_) | Job::Transition { .. } | Job::Comment { .. } | Job::OpenUrl(_)
            | Job::WorktreeGc { .. } => true,
            _ => false,
        };
        if single {
            let request = match self.request_of(&job) {
                Some(q) => q,
                None => return Outcome::Failed(String::new()),
            };
            let reply = perform(api, machine, &request);
            return self.outcome_of(job, reply);
        }
        match job {
            Job::Refresh => {
                let search = api.search(self.jql.as_str());
                if search.is_err() {
                    let none: Vec<ClaudeSessionInfo> = Vec::new();
                    let no_status: Vec<(String, String)> = Vec::new();
                    let ghost (s0, s1, s3) = (search, Ok::<Vec<ClaudeSessionInfo>, String>(none), no_status);
                    let r = list_outcome(search, Ok(none), None, no_status);
                    assert(list_outcome_spec(s0, s1, None, s3, r));
                    return r;
                }
                let sessions = bridge.sessions();
                let owner = match &self.owner_pane {
                    Some(pane) => Some(bridge.pane(pane.as_str())),
                    None => None,
                };
                let listed = match &sessions {
                    Ok(v) => Self::pane_statuses(bridge, v),
                    Err(_) => Vec::new(),
                };
                let ghost (s0, s1, s2, s3) = (search, sessions, owner, listed);
                let r = list_outcome(search, sessions, owner, listed);
                assert(list_outcome_spec(s0, s1, s2, s3, r));
                r
            },
            Job::Detail(key) => {
                let detail = api.issue_detail(key.as_str());
                let worktrees = match &detail {
                    Ok(_) => machine.find_worktrees(&self.worktree_roots, key.as_str()),
                    Err(_) => Vec::new(),
                };
                let ghost (d, w) = (detail, worktrees);
                let r = detail_outcome(key, detail, worktrees);
                assert(detail_outcome_spec(key, d, w, r));
                r
            },
            Job::AssignMe(key) => {
                let ghost known = self.myself;
                let ghost mut me: Result<(String, String), String> = vstd::pervasive::arbitrary();
                if self.myself.is_none() {
                    let answer = api.myself();
                    proof {
                        me = answer;
                    }
                    match answer {
                        Ok(found) => {
                            self.myself = Some(found);
                        },
                        Err(e) => {
                            let m = cat("não foi possível atribuir: ", e.as_str());
                            assert(api.myself_answer(me));
                            return Outcome::Failed(m);
                        },
                    }
                }
                let (account_id, name) = match &self.myself {
                    Some((a, n)) => (a.clone(), n.clone()),
                    None => (String::new(), String::new()),
                };
                let answer = api.assign(key.as_str(), account_id.as_str());
                let ghost a = answer;
                let r = assign_outcome(key, name, answer);
                assert(assign_outcome_spec(key, name, a, r));
                proof {
                    if known is None {
                        assert(api.myself_answer(me));
                    }
                }
                r
            },
            Job::Session { key, link } => {
                let worktree = match &link {
                    Some(_) => None,
                    None => self.find_worktree(machine, key.as_str()),
                };
                let ghost w = worktree;
                let r = self.open_session(bridge, key.as_str(), link, worktree);
                assert(session_spec(bridge, self.owner_pane, key@, link, w, r));
                r
            },
            Job::OpenWorktree { path, name } => self.open_worktree(bridge, path.as_str(), name.as_str()),
            _ => Outcome::Failed(String::new()),
        }
    }
}

/// The worktree picked among candidates is one of them, and no candidate
/// met after it in the list comes before it in path order.
pub proof fn the_picked_worktree_is_a_candidate(paths: Seq<Seq<char>>, n: int)
    requires
        1 <= n <= paths.len(),
    ensures
        0 <= first_min(paths, n) < n,
        forall|j: int| first_min(paths, n) < j < n ==> !path_before(#[trigger] paths[j], paths[first_min(paths, n)]),
    decreases n,
{
    if n > 1 {
        the_picked_worktree_is_a_candidate(paths, n - 1);
    }
}

} // verus!
