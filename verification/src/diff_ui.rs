//! The diff view's screen logic that is not drawing: its actions and
//! buttons, the effects of its events, the names its repositories are shown
//! by, and which repositories it shows.

use vstd::prelude::*;

use crate::adf::{char_width, str_width, text_width, width_of_char};
use crate::diff::{FileChange, Mode, RepoDiff};
use crate::right_panel::{parent_path, parent_spec};
use crate::scanner::{dirs_said, is_ancestor, nearest_by, repo_root, roots_said, TranscriptSource};
use crate::sessions::normalize_spec;
use crate::split::{join_parts, join_with, runs, split_runs, views};
use crate::text::{chars_of, extend_chars, same_chars, slice_chars, string_of, CharClass};

verus! {

/// The actions of the diff view's buttons and keys.
#[derive(Debug, Clone, Copy, PartialEq, Eq, Structural)]
pub enum Action {
    Open,
    Mode,
    Edit,
    Lazygit,
    Refresh,
    Quit,
    Back,
    Next,
    Previous,
}

/// The key of an action.
pub open spec fn action_key(action: Action) -> Seq<char> {
    match action {
        Action::Open => "enter"@,
        Action::Mode => "b"@,
        Action::Edit => "e"@,
        Action::Lazygit => "g"@,
        Action::Refresh => "r"@,
        Action::Quit => "q"@,
        Action::Back => "esc"@,
        Action::Next => "n"@,
        Action::Previous => "p"@,
    }
}

/// The name of an action.
pub open spec fn action_name(action: Action) -> Seq<char> {
    match action {
        Action::Open => "abrir"@,
        Action::Mode => "modo"@,
        Action::Edit => "editar"@,
        Action::Lazygit => "lazygit"@,
        Action::Refresh => "atualizar"@,
        Action::Quit => "sair"@,
        Action::Back => "voltar"@,
        Action::Next => "próximo"@,
        Action::Previous => "anterior"@,
    }
}

impl Action {
    /// The key of the action.
    pub fn key(self) -> (r: &'static str)
        ensures
            r@ == action_key(self),
    {
        match self {
            Action::Open => "enter",
            Action::Mode => "b",
            Action::Edit => "e",
            Action::Lazygit => "g",
            Action::Refresh => "r",
            Action::Quit => "q",
            Action::Back => "esc",
            Action::Next => "n",
            Action::Previous => "p",
        }
    }

    /// The name of the action.
    pub fn name(self) -> (r: &'static str)
        ensures
            r@ == action_name(self),
    {
        match self {
            Action::Open => "abrir",
            Action::Mode => "modo",
            Action::Edit => "editar",
            Action::Lazygit => "lazygit",
            Action::Refresh => "atualizar",
            Action::Quit => "sair",
            Action::Back => "voltar",
            Action::Next => "próximo",
            Action::Previous => "anterior",
        }
    }
}

/// `a + b` for `usize`, stopping at its largest value.
pub open spec fn sat_usize(a: int, b: int) -> usize {
    if a + b > usize::MAX {
        usize::MAX
    } else {
        (a + b) as usize
    }
}

/// The width of an action's button: its key, its name, and three columns
/// (sums past the largest `usize` stop there).
pub open spec fn button_width_spec(action: Action) -> u16 {
    sat_usize(sat_usize(text_width(action_key(action)) as int, text_width(action_name(action)) as int) as int, 3) as u16
}

/// The width of an action's button.
pub fn button_width(action: Action) -> (r: u16)
    ensures
        r == button_width_spec(action),
{
    (str_width(action.key()).saturating_add(str_width(action.name())).saturating_add(3)) as u16
}

/// `a + b` for `u16`, stopping at its largest value.
pub open spec fn sat_u16(a: int, b: int) -> u16 {
    if a + b > u16::MAX {
        u16::MAX
    } else {
        (a + b) as u16
    }
}

/// Where the buttons after the first `n` go: each `(action, row, column)`, a
/// column apart, a new row when one does not fit in `width` (unless it is
/// the first of its row); the row and column of the next one.
pub open spec fn diff_layout(actions: Seq<Action>, width: u16, n: int) -> (Seq<(Action, u16, u16)>, u16, u16)
    decreases n,
{
    if n <= 0 {
        (Seq::empty(), 0u16, 0u16)
    } else {
        let (placed, row, x) = diff_layout(actions, width, n - 1);
        let w = button_width_spec(actions[n - 1]);
        let (row, x) = if x > 0 && x + w > width {
            (sat_u16(row as int, 1), 0u16)
        } else {
            (row, x)
        };
        (placed.push((actions[n - 1], row, x)), row, sat_u16(sat_u16(x as int, w as int) as int, 1))
    }
}

/// Where the buttons go in `width` columns (positions past the largest `u16`
/// stop there).
pub fn layout_buttons(actions: &[Action], width: u16) -> (r: Vec<(Action, u16, u16)>)
    ensures
        r@ == diff_layout(actions@, width, actions@.len() as int).0,
{
    let mut placed: Vec<(Action, u16, u16)> = Vec::new();
    let mut row: u16 = 0;
    let mut x: u16 = 0;
    let mut i: usize = 0;
    while i < actions.len()
        invariant
            i <= actions.len(),
            diff_layout(actions@, width, i as int) == (placed@, row, x),
        decreases actions.len() - i,
    {
        let action = actions[i];
        let label_width = button_width(action);
        if x > 0 && x as u32 + label_width as u32 > width as u32 {
            row = row.saturating_add(1);
            x = 0;
        }
        placed.push((action, row, x));
        x = x.saturating_add(label_width).saturating_add(1);
        i = i + 1;
    }
    placed
}

/// Work for the diff worker.
#[derive(Debug, Clone, PartialEq, Eq)]
pub enum Job {
    Refresh { mode: Mode },
    FileDiff { root: String, base_rev: String, file: FileChange, width: u16 },
    Edit { root: String, base_rev: String, file: FileChange },
}

/// A program to run in the terminal, outside the view.
#[derive(Debug, Clone, PartialEq, Eq)]
pub struct External {
    pub program: String,
    pub args: Vec<String>,
    pub dir: String,
}

/// What an event asks of the loop: work to send, whether to quit, and a
/// program to run.
#[derive(Debug, Clone, PartialEq, Eq)]
pub struct Effects {
    pub jobs: Vec<Job>,
    pub quit: bool,
    pub external: Option<External>,
}

impl Effects {
    /// Nothing to do.
    pub fn none() -> (r: Effects)
        ensures
            r.jobs@.len() == 0,
            !r.quit,
            r.external is None,
    {
        Effects { jobs: Vec::new(), quit: false, external: None }
    }

    /// One job to send, and nothing else.
    pub fn job(job: Job) -> (r: Effects)
        ensures
            r.jobs@ == seq![job],
            !r.quit,
            r.external is None,
    {
        let mut jobs: Vec<Job> = Vec::new();
        jobs.push(job);
        Effects { jobs, quit: false, external: None }
    }
}

/// A path as its parts: whether it is absolute, and its names (the segments
/// between slashes, `.` left out).
pub open spec fn path_parts(p: Seq<char>) -> (bool, Seq<Seq<char>>) {
    (p.len() > 0 && p[0] == '/', names_of(runs(p, CharClass::Slash)))
}

/// The segments that are not `.`.
pub open spec fn names_of(segs: Seq<Seq<char>>) -> Seq<Seq<char>>
    decreases segs.len(),
{
    if segs.len() == 0 {
        Seq::empty()
    } else if segs.last() == "."@ {
        names_of(segs.drop_last())
    } else {
        names_of(segs.drop_last()).push(segs.last())
    }
}

/// A path written from its parts.
pub open spec fn path_text(abs: bool, names: Seq<Seq<char>>) -> Seq<char> {
    (if abs {
        "/"@
    } else {
        Seq::empty()
    }) + join_with(names, "/"@)
}

/// Whether `base` is a leading part of `path`, name by name
/// (`Path::starts_with`).
pub open spec fn parts_start_with(path: (bool, Seq<Seq<char>>), base: (bool, Seq<Seq<char>>)) -> bool {
    path.0 == base.0 && base.1.len() <= path.1.len() && path.1.take(base.1.len() as int) == base.1
}

/// The common ancestor of paths from the `i`-th on, starting from `common`:
/// names are dropped from its end until it leads each path; none when no
/// name is left to drop.
pub open spec fn common_from(paths: Seq<Seq<char>>, i: int, common: (bool, Seq<Seq<char>>)) -> Option<
    (bool, Seq<Seq<char>>),
>
    decreases paths.len() - i, common.1.len(),
{
    if i < 0 || i >= paths.len() {
        Some(common)
    } else if parts_start_with(path_parts(paths[i]), common) {
        common_from(paths, i + 1, common)
    } else if common.1.len() > 0 {
        common_from(paths, i, (common.0, common.1.drop_last()))
    } else {
        None
    }
}

/// The deepest directory that holds all paths, starting from the parent of
/// the first (`None` without paths, or when the first has no parent or no
/// common directory exists).
pub open spec fn common_ancestor_spec(paths: Seq<Seq<char>>) -> Option<(bool, Seq<Seq<char>>)> {
    if paths.len() == 0 || path_parts(paths[0]).1.len() == 0 {
        None
    } else {
        common_from(paths, 1, (path_parts(paths[0]).0, path_parts(paths[0]).1.drop_last()))
    }
}

/// The parts of a path.
fn parts_of(p: &str) -> (r: (bool, Vec<Vec<char>>))
    ensures
        (r.0, views(r.1@)) == path_parts(p@),
{
    let chars = chars_of(p);
    let segs = split_runs(chars.as_slice(), CharClass::Slash);
    let dot = chars_of(".");
    let mut names: Vec<Vec<char>> = Vec::new();
    let mut i: usize = 0;
    while i < segs.len()
        invariant
            i <= segs.len(),
            dot@ == "."@,
            views(names@) == names_of(views(segs@).take(i as int)),
        decreases segs.len() - i,
    {
        assert(views(segs@).take(i + 1).drop_last() =~= views(segs@).take(i as int));
        assert(views(segs@).take(i + 1).last() == segs@[i as int]@);
        if !same_chars(segs[i].as_slice(), dot.as_slice()) {
            let ghost before = names@;
            names.push(slice_chars(segs[i].as_slice(), 0, segs[i].len()));
            assert(segs@[i as int]@.subrange(0, segs@[i as int]@.len() as int) =~= segs@[i as int]@);
            assert(views(names@) =~= views(before).push(segs@[i as int]@));
        }
        i = i + 1;
    }
    assert(views(segs@).take(segs.len() as int) =~= views(segs@));
    (chars.len() > 0 && chars[0] == '/', names)
}

/// Whether the leading names of `path` are `base`.
fn names_start_with(path: &Vec<Vec<char>>, base: &Vec<Vec<char>>, n: usize) -> (r: bool)
    requires
        n <= base@.len(),
    ensures
        r == (n <= path@.len() && views(path@).take(n as int) == views(base@).take(n as int)),
{
    if n > path.len() {
        return false;
    }
    let mut i: usize = 0;
    while i < n
        invariant
            i <= n <= path@.len(),
            n <= base@.len(),
            views(path@).take(i as int) == views(base@).take(i as int),
        decreases n - i,
    {
        if !same_chars(path[i].as_slice(), base[i].as_slice()) {
            assert(views(path@).take(n as int)[i as int] != views(base@).take(n as int)[i as int]);
            return false;
        }
        assert(views(path@).take(i + 1) =~= views(path@).take(i as int).push(path@[i as int]@));
        assert(views(base@).take(i + 1) =~= views(base@).take(i as int).push(base@[i as int]@));
        i = i + 1;
    }
    true
}

/// The deepest directory that holds all `paths`, starting from the parent of
/// the first.
pub fn common_ancestor(paths: &[String]) -> (r: Option<String>)
    ensures
        r matches Some(c) ==> common_ancestor_spec(paths@.map_values(|p: String| p@)) matches Some(
            parts,
        ) && c@ == path_text(parts.0, parts.1),
        r is None ==> common_ancestor_spec(paths@.map_values(|p: String| p@)) is None,
{
    match common_parts(paths) {
        Some((abs, head)) => {
            let mut out: Vec<char> = if abs {
                chars_of("/")
            } else {
                Vec::new()
            };
            let joined = join_parts(&head, chars_of("/").as_slice());
            extend_chars(&mut out, joined.as_slice());
            Some(string_of(out.as_slice()))
        },
        None => None,
    }
}

/// The parts of the deepest directory that holds all `paths`.
fn common_parts(paths: &[String]) -> (r: Option<(bool, Vec<Vec<char>>)>)
    ensures
        r matches Some(c) ==> common_ancestor_spec(paths@.map_values(|p: String| p@)) == Some(
            (c.0, views(c.1@)),
        ),
        r is None ==> common_ancestor_spec(paths@.map_values(|p: String| p@)) is None,
{
    let ghost ps = paths@.map_values(|p: String| p@);
    if paths.len() == 0 {
        return None;
    }
    let (abs, first) = parts_of(paths[0].as_str());
    if first.len() == 0 {
        return None;
    }
    let mut n: usize = first.len() - 1;
    let mut i: usize = 1;
    assert(views(first@).drop_last() =~= views(first@).take(n as int));
    while i < paths.len()
        invariant
            1 <= i <= paths.len(),
            n < first@.len(),
            ps == paths@.map_values(|p: String| p@),
            ps.len() == paths@.len(),
            common_ancestor_spec(ps) == common_from(ps, i as int, (abs, views(first@).take(n as int))),
        decreases paths.len() - i, n,
    {
        assert(ps[i as int] == paths@[i as int]@);
        let (pabs, names) = parts_of(paths[i].as_str());
        let leads = pabs == abs && names_start_with(&names, &first, n);
        if leads {
            i = i + 1;
        } else if n > 0 {
            assert(views(first@).take(n as int).drop_last() =~= views(first@).take(n - 1));
            n = n - 1;
        } else {
            return None;
        }
    }
    let mut head: Vec<Vec<char>> = Vec::new();
    let mut k: usize = 0;
    while k < n
        invariant
            k <= n < first@.len(),
            views(head@) == views(first@).take(k as int),
        decreases n - k,
    {
        let ghost before = head@;
        head.push(slice_chars(first[k].as_slice(), 0, first[k].len()));
        assert(first@[k as int]@.subrange(0, first@[k as int]@.len() as int) =~= first@[k as int]@);
        assert(views(head@) =~= views(before).push(first@[k as int]@));
        assert(views(head@) =~= views(first@).take(k + 1));
        k = k + 1;
    }
    Some((abs, head))
}

/// Where the repositories to show came from.
#[derive(Debug, Clone, Copy, PartialEq, Eq, Structural)]
pub enum Source {
    /// The repositories the owner's session touched.
    Session,
    /// The repository of the working directory.
    Cwd,
    /// None was found.
    Nothing,
}

/// The session repositories kept from the first `n` session entries: each
/// entry that has a parent and was answered as a repository root, the first
/// time it occurs.
pub open spec fn session_roots(session: Seq<Seq<char>>, answers: Seq<bool>, n: int) -> Seq<Seq<char>>
    decreases n,
{
    if n <= 0 {
        Seq::empty()
    } else {
        let prev = session_roots(session, answers, n - 1);
        let e = session[n - 1];
        if parent_spec(e) is Some && answers[n - 1] && !prev.contains(e) {
            prev.push(e)
        } else {
            prev
        }
    }
}

/// The repositories to show, from the session's entries, the answer for
/// each whether it is a repository root, and the repository of the working
/// directory: the session repositories, then that of the working directory
/// when it is not among them; the source says where the first came from.
pub open spec fn repos_spec(session: Seq<Seq<char>>, answers: Seq<bool>, cwd_root: Option<Seq<char>>) -> (Seq<Seq<char>>, Source) {
    let kept = session_roots(session, answers, session.len() as int);
    let all = match cwd_root {
        Some(c) => if kept.contains(c) {
            kept
        } else {
            kept.push(c)
        },
        None => kept,
    };
    let src = if all.len() == 0 {
        Source::Nothing
    } else if kept.len() > 0 {
        Source::Session
    } else {
        Source::Cwd
    };
    (all, src)
}

/// The repositories to show (see [`repos_spec`]).
pub fn repos_from(session: &[String], answers: &Vec<bool>, cwd_root: Option<String>) -> (r: (Vec<String>, Source))
    requires
        answers@.len() == session@.len(),
    ensures
        (crate::split::string_views(r.0@), r.1) == repos_spec(
            crate::split::string_views(session@),
            answers@,
            match cwd_root {
                Some(c) => Some(c@),
                None => None,
            },
        ),
{
    let ghost sv = crate::split::string_views(session@);
    let mut roots: Vec<String> = Vec::new();
    let mut i: usize = 0;
    while i < session.len()
        invariant
            i <= session@.len(),
            answers@.len() == session@.len(),
            sv == crate::split::string_views(session@),
            crate::split::string_views(roots@) == session_roots(sv, answers@, i as int),
        decreases session.len() - i,
    {
        let ghost prev = roots@;
        let path = chars_of(session[i].as_str());
        let has_parent = parent_path(path.as_slice()).is_some();
        let seen = contains_text(&roots, session[i].as_str());
        proof {
            assert(sv[i as int] == session@[i as int]@);
            let pv = crate::split::string_views(prev);
            assert(seen == pv.contains(sv[i as int])) by {
                if seen {
                    let k = choose|k: int| 0 <= k < prev.len() && prev[k]@ == session@[i as int]@;
                    assert(pv[k] == sv[i as int]);
                }
                if pv.contains(sv[i as int]) {
                    let k = choose|k: int| 0 <= k < pv.len() && pv[k] == sv[i as int];
                    assert(prev[k]@ == session@[i as int]@);
                }
            }
        }
        if has_parent && answers[i] && !seen {
            roots.push(session[i].clone());
            assert(crate::split::string_views(roots@) =~= crate::split::string_views(prev).push(sv[i as int]));
        }
        i = i + 1;
    }
    let kept_len = roots.len();
    let ghost kept = crate::split::string_views(roots@);
    if let Some(root) = cwd_root {
        let seen = contains_text(&roots, root.as_str());
        proof {
            assert(seen == kept.contains(root@)) by {
                if seen {
                    let k = choose|k: int| 0 <= k < roots@.len() && roots@[k]@ == root@;
                    assert(kept[k] == root@);
                }
                if kept.contains(root@) {
                    let k = choose|k: int| 0 <= k < kept.len() && kept[k] == root@;
                    assert(roots@[k]@ == root@);
                }
            }
        }
        if !seen {
            let ghost rv = root@;
            roots.push(root);
            assert(crate::split::string_views(roots@) =~= kept.push(rv));
        }
    }
    if roots.len() == 0 {
        return (roots, Source::Nothing);
    }
    let src = if kept_len > 0 {
        Source::Session
    } else {
        Source::Cwd
    };
    (roots, src)
}

/// Whether `answer` is what asking about a session entry gave: no for an
/// entry without a parent (`/`), else whether the source said it holds a
/// repository.
pub open spec fn entry_answered<S: TranscriptSource>(source: &S, entry: String, answer: bool) -> bool {
    match crate::right_panel::parent_spec(entry@) {
        Some(_) => source.root_answer(entry@, answer),
        None => !answer,
    }
}

/// Whether each answer is what asking about its session entry gave.
pub open spec fn entries_answered<S: TranscriptSource>(source: &S, session: Seq<String>, answers: Seq<bool>) -> bool {
    &&& answers.len() == session.len()
    &&& forall|k: int| 0 <= k < session.len() ==> entry_answered(source, #[trigger] session[k], answers[k])
}

/// The repositories to show: those of the owner's session that are still
/// repository roots, then the repository of `cwd` if not among them; each
/// once. The source says where the first came from.
pub fn discover_repos<S: TranscriptSource>(session: &[String], cwd: &str, source: &S) -> (r: (
    Vec<String>,
    Source,
))
    ensures
        exists|
            answers: Seq<bool>,
            cwd_root: Option<Seq<char>>,
            dirs: Seq<(Seq<char>, bool)>,
            roots: Seq<(Seq<char>, bool)>,
        |
            answers.len() == session@.len() && entries_answered(source, session@, answers) && dirs_said(source, dirs)
                && roots_said(source, roots) && #[trigger] nearest_by(cwd_root, cwd@, dirs, roots) && (cwd_root matches Some(c)
                ==> (normalize_spec(cwd@) matches Some(p) && is_ancestor(c, p))) && (normalize_spec(cwd@) is None
                ==> cwd_root is None) && (
            crate::split::string_views(r.0@),
            r.1,
        ) == #[trigger] repos_spec(crate::split::string_views(session@), answers, cwd_root),
{
    let mut answers: Vec<bool> = Vec::new();
    let mut i: usize = 0;
    while i < session.len()
        invariant
            i <= session@.len(),
            answers@.len() == i,
            entries_answered(source, session@.take(i as int), answers@),
        decreases session.len() - i,
    {
        let path = chars_of(session[i].as_str());
        let answer = parent_path(path.as_slice()).is_some() && source.is_repo_root(session[i].as_str());
        let ghost before = answers@;
        answers.push(answer);
        proof {
            assert forall|k: int| 0 <= k < i + 1 implies entry_answered(
                source,
                #[trigger] session@.take(i + 1)[k],
                answers@[k],
            ) by {
                if k < i {
                    assert(session@.take(i + 1)[k] == session@.take(i as int)[k]);
                    assert(answers@[k] == before[k]);
                }
            }
        }
        i = i + 1;
    }
    assert(session@.take(session@.len() as int) =~= session@);
    let cwd_root = repo_root(cwd, source);
    let ghost cv = match &cwd_root {
        Some(c) => Some(c@),
        None => None,
    };
    let r = repos_from(session, &answers, cwd_root);
    proof {
        let (dirs, roots) = choose|dirs: Seq<(Seq<char>, bool)>, roots: Seq<(Seq<char>, bool)>|
            #[trigger] nearest_by(cv, cwd@, dirs, roots) && dirs_said(source, dirs) && roots_said(source, roots);
        assert((crate::split::string_views(r.0@), r.1) == repos_spec(crate::split::string_views(session@), answers@, cv));
        assert(nearest_by(cv, cwd@, dirs, roots));
    }
    r
}

/// The columns a character takes, a control character none.
pub open spec fn cols(c: char) -> int {
    match char_width(c) {
        Some(w) => w as int,
        None => 0,
    }
}

/// The columns of the last `k` characters of `s`.
pub open spec fn tail_cols(s: Seq<char>, k: int) -> int
    decreases k,
{
    if k <= 0 || k > s.len() {
        0
    } else {
        tail_cols(s, k - 1) + cols(s[s.len() - k])
    }
}

/// How many characters from the end fit in `width` with room for the
/// ellipsis, taken one by one from `k` on.
pub open spec fn tail_keep(s: Seq<char>, width: int, k: int) -> int
    decreases s.len() - k,
{
    if k < s.len() && tail_cols(s, k + 1) + 1 <= width {
        tail_keep(s, width, k + 1)
    } else {
        k
    }
}

/// `text` cut from the left to `width` columns: whole when it fits, else an
/// ellipsis and the most characters from its end that fit beside it.
pub open spec fn truncate_left_spec(text: Seq<char>, width: int) -> Seq<char> {
    if text_width(text) <= width {
        text
    } else {
        seq!['…'] + text.skip(text.len() - tail_keep(text, width, 0))
    }
}

/// `text` cut from the left to `width` columns (see `truncate_left_spec`).
pub fn truncate_left(text: &str, width: usize) -> (r: String)
    ensures
        r@ == truncate_left_spec(text@, width as int),
{
    if str_width(text) <= width {
        return string_of(chars_of(text).as_slice());
    }
    let chars = chars_of(text);
    let n = chars.len();
    let mut k: usize = 0;
    let mut used: usize = 0;
    while k < n
        invariant
            k <= n == chars@.len(),
            chars@ == text@,
            used as int == tail_cols(chars@, k as int),
            k > 0 ==> used + 1 <= width,
            tail_keep(chars@, width as int, 0) == tail_keep(chars@, width as int, k as int),
        ensures
            k <= n == chars@.len(),
            chars@ == text@,
            tail_keep(chars@, width as int, 0) == k as int,
        decreases n - k,
    {
        let c = chars[n - 1 - k];
        let w: usize = match width_of_char(c) {
            Some(w) => w,
            None => 0,
        };
        assert(cols(c) == w);
        assert(tail_cols(chars@, k + 1) == used + w);
        if used >= width || w > width - used - 1 {
            break;
        }
        used = used + w;
        k = k + 1;
    }
    let mut out: Vec<char> = Vec::new();
    out.push('…');
    extend_chars(&mut out, slice_chars(chars.as_slice(), n - k, n).as_slice());
    assert(chars@.subrange((n - k) as int, n as int) =~= chars@.skip(n - k));
    string_of(out.as_slice())
}

/// Whether `list` holds a string equal to `item`.
fn contains_text(list: &Vec<String>, item: &str) -> (r: bool)
    ensures
        r == exists|i: int| 0 <= i < list@.len() && list@[i]@ == item@,
{
    let mut i: usize = 0;
    while i < list.len()
        invariant
            i <= list.len(),
            forall|k: int| 0 <= k < i ==> list@[k]@ != item@,
        decreases list.len() - i,
    {
        if crate::text::eq_str(list[i].as_str(), item) {
            return true;
        }
        i = i + 1;
    }
    false
}

/// The names of `path` after those of `base`, when `base` leads it.
pub open spec fn strip_parts(path: (bool, Seq<Seq<char>>), base: (bool, Seq<Seq<char>>)) -> Option<Seq<Seq<char>>> {
    if parts_start_with(path, base) {
        Some(path.1.skip(base.1.len() as int))
    } else {
        None
    }
}

/// The name a repository is shown by: its path below the directory all
/// repositories share (when there are several, that directory is not the
/// root or the home directory); else below `~/projects`; else below the home
/// directory, as `~/..`; else its whole path.
pub open spec fn display_name_spec(
    root: Seq<char>,
    usable: Option<(bool, Seq<Seq<char>>)>,
    home: Option<Seq<char>>,
) -> Seq<char> {
    let parts = path_parts(root);
    let below_common = match usable {
        Some(c) => match strip_parts(parts, c) {
            Some(rel) => if rel.len() > 0 {
                Some(join_with(rel, "/"@))
            } else {
                None
            },
            None => None,
        },
        None => None,
    };
    match below_common {
        Some(n) => n,
        None => match home {
            Some(h) => {
                let workspace = (path_parts(h).0, path_parts(h).1.push("projects"@));
                match strip_parts(parts, workspace) {
                    Some(rel) if rel.len() > 0 => join_with(rel, "/"@),
                    _ => match strip_parts(parts, path_parts(h)) {
                        Some(rel) => "~/"@ + join_with(rel, "/"@),
                        None => root,
                    },
                }
            },
            None => root,
        },
    }
}

/// The shared directory, when names are shown below it: there are several
/// repositories, it has a parent, and it is not the home directory.
pub open spec fn usable_common(roots: Seq<Seq<char>>, home: Option<Seq<char>>) -> Option<(bool, Seq<Seq<char>>)> {
    match common_ancestor_spec(roots) {
        Some(c) => if roots.len() > 1 && c.1.len() > 0 && match home {
            Some(h) => path_parts(h) != c,
            None => true,
        } {
            Some(c)
        } else {
            None
        },
        None => None,
    }
}

/// The names of `names` after the first `n`, joined by `/`.
fn join_from(names: &Vec<Vec<char>>, n: usize) -> (r: Vec<char>)
    requires
        n <= names@.len(),
    ensures
        r@ == join_with(views(names@).skip(n as int), "/"@),
{
    let mut rest: Vec<Vec<char>> = Vec::new();
    let mut k: usize = n;
    while k < names.len()
        invariant
            n <= k <= names@.len(),
            views(rest@) == views(names@).subrange(n as int, k as int),
        decreases names.len() - k,
    {
        let ghost before = rest@;
        rest.push(slice_chars(names[k].as_slice(), 0, names[k].len()));
        assert(names@[k as int]@.subrange(0, names@[k as int]@.len() as int) =~= names@[k as int]@);
        assert(views(rest@) =~= views(before).push(names@[k as int]@));
        assert(views(names@).subrange(n as int, k + 1) =~= views(names@).subrange(n as int, k as int).push(
            names@[k as int]@,
        ));
        k = k + 1;
    }
    assert(views(names@).subrange(n as int, names@.len() as int) =~= views(names@).skip(n as int));
    join_parts(&rest, chars_of("/").as_slice())
}

/// Whether two lists of names are equal.
fn same_names(a: &Vec<Vec<char>>, b: &Vec<Vec<char>>) -> (r: bool)
    ensures
        r == (views(a@) == views(b@)),
{
    if a.len() != b.len() {
        return false;
    }
    let r = names_start_with(a, b, b.len());
    assert(views(a@).take(b@.len() as int) =~= views(a@));
    assert(views(b@).take(b@.len() as int) =~= views(b@));
    r
}

/// The names repositories are shown by, in their order.
pub fn display_names(repos: &[RepoDiff], home: Option<&str>) -> (r: Vec<String>)
    ensures
        r@.len() == repos@.len(),
        forall|i: int|
            0 <= i < repos@.len() ==> (#[trigger] r@[i])@ == display_name_spec(
                repos@[i].root@,
                usable_common(
                    repos@.map_values(|d: RepoDiff| d.root@),
                    match home {
                        Some(h) => Some(h@),
                        None => None,
                    },
                ),
                match home {
                    Some(h) => Some(h@),
                    None => None,
                },
            ),
{
    let ghost home_v = match home {
        Some(h) => Some(h@),
        None => None,
    };
    let mut roots: Vec<String> = Vec::new();
    let mut i: usize = 0;
    while i < repos.len()
        invariant
            i <= repos.len(),
            roots@.len() == i,
            forall|k: int| 0 <= k < i ==> (#[trigger] roots@[k]) == repos@[k].root,
        decreases repos.len() - i,
    {
        roots.push(repos[i].root.clone());
        i = i + 1;
    }
    assert(roots@.map_values(|p: String| p@) =~= repos@.map_values(|d: RepoDiff| d.root@));
    let common = common_parts(roots.as_slice());
    let home_parts: Option<(bool, Vec<Vec<char>>)> = match home {
        Some(h) => Some(parts_of(h)),
        None => None,
    };
    let usable: Option<(bool, Vec<Vec<char>>)> = match common {
        Some((cabs, cnames)) => {
            let not_home = match &home_parts {
                Some((habs, hnames)) => !(*habs == cabs && same_names(hnames, &cnames)),
                None => true,
            };
            if repos.len() > 1 && cnames.len() > 0 && not_home {
                Some((cabs, cnames))
            } else {
                None
            }
        },
        None => None,
    };
    let ghost roots_v = repos@.map_values(|d: RepoDiff| d.root@);
    let ghost uc = usable_common(roots_v, home_v);
    assert(usable matches Some(c) ==> uc == Some((c.0, views(c.1@))));
    assert(usable is None ==> uc is None);
    let mut names: Vec<String> = Vec::new();
    let mut j: usize = 0;
    while j < repos.len()
        invariant
            j <= repos.len(),
            names@.len() == j,
            usable matches Some(c) ==> uc == Some((c.0, views(c.1@))),
            usable is None ==> uc is None,
            home_parts matches Some(hp) ==> home_v matches Some(h) && path_parts(h) == (
                hp.0,
                views(hp.1@),
            ),
            home_parts is None ==> home_v is None,
            forall|k: int|
                0 <= k < j ==> (#[trigger] names@[k])@ == display_name_spec(
                    repos@[k].root@,
                    uc,
                    home_v,
                ),
        decreases repos.len() - j,
    {
        let ghost root_v = repos@[j as int].root@;
        let ghost parts = path_parts(root_v);
        let (rabs, rnames) = parts_of(repos[j].root.as_str());
        let ghost below = match uc {
            Some(c) => match strip_parts(parts, c) {
                Some(rel) => if rel.len() > 0 {
                    Some(join_with(rel, "/"@))
                } else {
                    None
                },
                None => None,
            },
            None => None,
        };
        let mut done = false;
        if let Some((cabs, cnames)) = &usable {
            let lead = names_start_with(&rnames, cnames, cnames.len());
            proof {
                assert(views(cnames@).take(cnames@.len() as int) =~= views(cnames@));
            }
            if rabs == *cabs && lead && rnames.len() > cnames.len() {
                let tail = join_from(&rnames, cnames.len());
                names.push(string_of(tail.as_slice()));
                done = true;
            }
        }
        assert(!done ==> below is None);
        if !done {
            match &home_parts {
                Some((habs, hnames)) => {
                    let mut ws = clone_names(hnames);
                    let projects = chars_of("projects");
                    ws.push(projects);
                    assert(views(ws@) =~= views(hnames@).push("projects"@));
                    let in_ws = names_start_with(&rnames, &ws, ws.len());
                    let in_home = names_start_with(&rnames, hnames, hnames.len());
                    proof {
                        assert(views(ws@).take(ws@.len() as int) =~= views(ws@));
                        assert(views(hnames@).take(hnames@.len() as int) =~= views(hnames@));
                    }
                    if rabs == *habs && in_ws && rnames.len() > ws.len() {
                        let tail = join_from(&rnames, ws.len());
                        names.push(string_of(tail.as_slice()));
                    } else if rabs == *habs && in_home {
                        let mut out = chars_of("~/");
                        extend_chars(&mut out, join_from(&rnames, hnames.len()).as_slice());
                        names.push(string_of(out.as_slice()));
                    } else {
                        names.push(repos[j].root.clone());
                    }
                },
                None => names.push(repos[j].root.clone()),
            }
        }
        assert(names@[j as int]@ == display_name_spec(root_v, uc, home_v));
        j = j + 1;
    }
    names
}

/// A copy of a list of names.
fn clone_names(names: &Vec<Vec<char>>) -> (r: Vec<Vec<char>>)
    ensures
        views(r@) == views(names@),
{
    let mut out: Vec<Vec<char>> = Vec::new();
    let mut k: usize = 0;
    while k < names.len()
        invariant
            k <= names@.len(),
            views(out@) == views(names@).take(k as int),
        decreases names.len() - k,
    {
        let ghost before = out@;
        out.push(slice_chars(names[k].as_slice(), 0, names[k].len()));
        assert(names@[k as int]@.subrange(0, names@[k as int]@.len() as int) =~= names@[k as int]@);
        assert(views(out@) =~= views(before).push(names@[k as int]@));
        assert(views(names@).take(k + 1) =~= views(names@).take(k as int).push(names@[k as int]@));
        k = k + 1;
    }
    assert(views(names@).take(names@.len() as int) =~= views(names@));
    out
}

proof fn lemma_tail_keep(s: Seq<char>, width: int, k: int)
    requires
        0 <= k <= s.len(),
        tail_cols(s, k) + 1 <= width,
    ensures
        k <= tail_keep(s, width, k) <= s.len(),
        tail_cols(s, tail_keep(s, width, k)) + 1 <= width,
        tail_keep(s, width, k) < s.len() ==> tail_cols(s, tail_keep(s, width, k) + 1) + 1 > width,
    decreases s.len() - k,
{
    if k < s.len() && tail_cols(s, k + 1) + 1 <= width {
        lemma_tail_keep(s, width, k + 1);
    }
}

/// A path cut from the left keeps the longest end of it that leaves a column
/// for the ellipsis: a path that fits is kept whole; else the ellipsis and
/// the kept characters fit, and one more character would not.
pub proof fn a_cut_path_keeps_the_longest_end_that_fits(text: Seq<char>, width: int)
    requires
        width >= 1,
    ensures
        text_width(text) <= width ==> truncate_left_spec(text, width) == text,
        text_width(text) > width ==> exists|k: int|
            0 <= k <= text.len() && truncate_left_spec(text, width) == seq!['…'] + text.skip(text.len() - k)
                && #[trigger] tail_cols(text, k) + 1 <= width && (k < text.len() ==> tail_cols(text, k + 1) + 1
                > width),
{
    assert(tail_cols(text, 0) == 0);
    lemma_tail_keep(text, width, 0);
    let k = tail_keep(text, width, 0);
    if text_width(text) > width {
        assert(0 <= k <= text.len() && truncate_left_spec(text, width) == seq!['…'] + text.skip(text.len() - k)
            && tail_cols(text, k) + 1 <= width && (k < text.len() ==> tail_cols(text, k + 1) + 1 > width));
    }
}

} // verus!
