//! Coding-agent sessions: what a transcript tells about its session (title,
//! working directory, task context, worktree, touched repositories).

use vstd::prelude::*;

use crate::right_panel::{join_path, join_spec};
use crate::split::{
    file_name,
    file_name_spec,
    join_parts,
    join_with,
    pieces,
    runs,
    split_pieces,
    split_runs,
    views,
    words,
};
use crate::text::{
    all_digits,
    chars_of,
    extend_chars,
    find_class_from,
    first_in_class_from,
    is_ascii_digit_spec,
    is_ascii_upper_spec,
    last_match,
    lemma_first_in_class_bounds,
    rfind,
    same_chars,
    slice_chars,
    string_of,
    trim_class,
    trim_class_spec,
    trim_end_char,
    trim_end_matching,
    CharClass,
};

verus! {

/// A coding-agent session as the panel and the Jira view see it.
#[derive(Debug, Clone, PartialEq, Eq)]
pub struct ClaudeSession {
    pub session_id: String,
    pub title: String,
    pub cwd: String,
    pub context: String,
    pub worktree_path: Option<String>,
    pub repos: Vec<String>,
    pub updated_at_ms: u64,
}

/// A session as plain values.
pub struct ClaudeSessionView {
    pub session_id: Seq<char>,
    pub title: Seq<char>,
    pub cwd: Seq<char>,
    pub context: Seq<char>,
    pub worktree_path: Option<Seq<char>>,
    pub repos: Seq<Seq<char>>,
    pub updated_at_ms: u64,
}

impl View for ClaudeSession {
    type V = ClaudeSessionView;

    open spec fn view(&self) -> ClaudeSessionView {
        ClaudeSessionView {
            session_id: self.session_id@,
            title: self.title@,
            cwd: self.cwd@,
            context: self.context@,
            worktree_path: crate::split::opt_view(self.worktree_path),
            repos: crate::split::string_views(self.repos@),
            updated_at_ms: self.updated_at_ms,
        }
    }
}

/// A copy of a list of strings.
pub fn duplicate_strings(items: &Vec<String>) -> (r: Vec<String>)
    ensures
        r@ == items@,
{
    let mut out: Vec<String> = Vec::new();
    let mut i: usize = 0;
    while i < items.len()
        invariant
            i <= items.len(),
            out@ == items@.take(i as int),
        decreases items.len() - i,
    {
        out.push(items[i].clone());
        assert(items@.take(i + 1) =~= items@.take(i as int).push(items@[i as int]));
        i = i + 1;
    }
    assert(items@.take(items.len() as int) =~= items@);
    out
}

/// Whether two optional strings are equal.
pub fn same_option(a: &Option<String>, b: &Option<String>) -> (r: bool)
    ensures
        r == (crate::split::opt_view(*a) == crate::split::opt_view(*b)),
{
    match (a, b) {
        (Some(x), Some(y)) => crate::text::eq_str(x.as_str(), y.as_str()),
        (None, None) => true,
        _ => false,
    }
}

/// A copy of an optional string.
pub fn duplicate_option(value: &Option<String>) -> (r: Option<String>)
    ensures
        r == *value,
{
    match value {
        Some(s) => Some(s.clone()),
        None => None,
    }
}


/// The longest title kept, in characters.
pub const MAX_TITLE_CHARS: usize = 120;

/// The most paths taken from one shell command.
pub const MAX_COMMAND_PATHS: usize = 16;

/// Whether `w` is a task code: an upper-case letter, then upper-case letters or
/// digits (two or more in all), a `-`, and one or more digits.
pub open spec fn is_task_code(w: Seq<char>) -> bool {
    match first_in_class_from(w, CharClass::Dash, true, 0) {
        None => false,
        Some(d) => {
            let prefix = w.take(d);
            let number = w.skip(d + 1);
            &&& prefix.len() >= 2
            &&& is_ascii_upper_spec(prefix[0])
            &&& forall|i: int|
                0 <= i < prefix.len() ==> is_ascii_upper_spec(#[trigger] prefix[i])
                    || is_ascii_digit_spec(prefix[i])
            &&& number.len() > 0
            &&& all_digits(number)
        },
    }
}

/// The first task code among `words`, from `from` on.
pub open spec fn first_code_from(words: Seq<Seq<char>>, from: int) -> Option<Seq<char>>
    decreases words.len() - from,
{
    if from < 0 || from >= words.len() {
        None
    } else if is_task_code(words[from]) {
        Some(words[from])
    } else {
        first_code_from(words, from + 1)
    }
}

/// The first task code in `text`, its words being the runs of ASCII letters,
/// digits and `-`.
pub open spec fn task_code_spec(text: Seq<char>) -> Option<Seq<char>> {
    first_code_from(runs(text, CharClass::TaskCodeSeparator), 0)
}

#[verifier::loop_isolation(false)]
fn is_task_code_exec(w: &[char]) -> (r: bool)
    ensures
        r == is_task_code(w@),
{
    let n = w.len();
    proof {
        lemma_first_in_class_bounds(w@, CharClass::Dash, true, 0);
    }
    let d = match find_class_from(w, CharClass::Dash, true, 0) {
        Some(d) => d,
        None => return false,
    };
    let ghost prefix = w@.take(d as int);
    let ghost number = w@.skip(d + 1);
    assert(first_in_class_from(w@, CharClass::Dash, true, 0) == Some(d as int));
    assert(prefix.len() == d);
    if d < 2 {
        return false;
    }
    assert(prefix[0] == w@[0]);
    if !('A' <= w[0] && w[0] <= 'Z') {
        return false;
    }
    let mut i: usize = 0;
    while i < d
        invariant
            i <= d < w.len(),
            prefix == w@.take(d as int),
            forall|j: int| 0 <= j < i ==> is_ascii_upper_spec(#[trigger] prefix[j])
                || is_ascii_digit_spec(prefix[j]),
        decreases d - i,
    {
        let c = w[i];
        if !(('A' <= c && c <= 'Z') || ('0' <= c && c <= '9')) {
            assert(prefix[i as int] == c);
            return false;
        }
        i = i + 1;
    }
    if d + 1 >= w.len() {
        return false;
    }
    let mut k: usize = d + 1;
    while k < w.len()
        invariant
            d + 1 <= k <= w.len(),
            number == w@.skip(d + 1),
            forall|j: int| 0 <= j < k - (d + 1) ==> is_ascii_digit_spec(#[trigger] number[j]),
        decreases w.len() - k,
    {
        let c = w[k];
        if !('0' <= c && c <= '9') {
            assert(number[k - (d + 1)] == c);
            return false;
        }
        k = k + 1;
    }
    true
}

/// The first task code in `text`.
pub fn task_code(text: &str) -> (r: Option<String>)
    ensures
        r matches Some(c) ==> task_code_spec(text@) == Some(c@),
        r is None ==> task_code_spec(text@) is None,
{
    let chars = chars_of(text);
    let parts = split_runs(chars.as_slice(), CharClass::TaskCodeSeparator);
    let mut i: usize = 0;
    while i < parts.len()
        invariant
            i <= parts.len(),
            views(parts@) == runs(text@, CharClass::TaskCodeSeparator),
            first_code_from(views(parts@), 0) == first_code_from(views(parts@), i as int),
        decreases parts.len() - i,
    {
        assert(views(parts@)[i as int] == parts@[i as int]@);
        if is_task_code_exec(parts[i].as_slice()) {
            return Some(string_of(parts[i].as_slice()));
        }
        i = i + 1;
    }
    None
}

/// A title: its words joined by single spaces, cut to 120 characters with an
/// ellipsis as the last one when longer.
pub open spec fn truncate_title_spec(text: Seq<char>) -> Seq<char> {
    let t = join_with(words(text), " "@);
    if t.len() <= MAX_TITLE_CHARS {
        t
    } else {
        t.take(MAX_TITLE_CHARS - 1).push('…')
    }
}

/// A title: its words joined by single spaces, cut to 120 characters.
pub fn truncate_title(text: &str) -> (r: String)
    ensures
        r@ == truncate_title_spec(text@),
{
    let chars = chars_of(text);
    let parts = split_runs(chars.as_slice(), CharClass::Whitespace);
    let space = chars_of(" ");
    let t = join_parts(&parts, space.as_slice());
    if t.len() <= MAX_TITLE_CHARS {
        return string_of(t.as_slice());
    }
    let mut cut = slice_chars(t.as_slice(), 0, MAX_TITLE_CHARS - 1);
    cut.push('…');
    assert(t@.subrange(0, MAX_TITLE_CHARS - 1) =~= t@.take(MAX_TITLE_CHARS - 1));
    string_of(cut.as_slice())
}

/// The worktree name after the last `-worktrees/` of `text`: the ASCII
/// letters, digits, `-`, `_` and `.` that follow, without trailing dots.
pub open spec fn worktree_name_spec(text: Seq<char>) -> Option<Seq<char>> {
    match last_match(text, "-worktrees/"@) {
        None => None,
        Some(p) => {
            let rest = text.skip(p + "-worktrees/"@.len());
            let end = match first_in_class_from(rest, CharClass::NameChar, false, 0) {
                Some(k) => k,
                None => rest.len() as int,
            };
            let name = trim_end_char(rest.take(end), '.');
            if name.len() == 0 {
                None
            } else {
                Some(name)
            }
        },
    }
}

/// The worktree name after the last `-worktrees/` of `text`.
pub fn worktree_name(text: &str) -> (r: Option<String>)
    ensures
        r matches Some(n) ==> worktree_name_spec(text@) == Some(n@),
        r is None ==> worktree_name_spec(text@) is None,
{
    let chars = chars_of(text);
    let marker = chars_of("-worktrees/");
    proof {
        reveal_strlit("-worktrees/");
        crate::text::lemma_last_match_bound(chars@, marker@);
    }
    let n = chars.len();
    let p = match rfind(chars.as_slice(), marker.as_slice()) {
        Some(p) => p,
        None => return None,
    };
    assert(p + marker@.len() <= n);
    let rest = slice_chars(chars.as_slice(), p + marker.len(), n);
    assert(rest@ =~= text@.skip(p + "-worktrees/"@.len()));
    proof {
        lemma_first_in_class_bounds(rest@, CharClass::NameChar, false, 0);
    }
    let end = match find_class_from(rest.as_slice(), CharClass::NameChar, false, 0) {
        Some(k) => k,
        None => rest.len(),
    };
    let head = slice_chars(rest.as_slice(), 0, end);
    assert(head@ =~= rest@.take(end as int));
    let name = trim_end_matching(head.as_slice(), '.');
    if name.len() == 0 {
        None
    } else {
        Some(string_of(name.as_slice()))
    }
}

/// The context of a session: the worktree its directory lies in, else the
/// worktree its tools last used, else the task code of its title, else the
/// last component of its directory, else the directory itself.
pub open spec fn session_context_spec(
    cwd: Seq<char>,
    tool_worktree: Option<Seq<char>>,
    title: Seq<char>,
) -> Seq<char> {
    match worktree_name_spec(cwd) {
        Some(n) => n,
        None => match tool_worktree {
            Some(t) => t,
            None => match task_code_spec(title) {
                Some(c) => c,
                None => match file_name_spec(cwd) {
                    Some(f) => f,
                    None => cwd,
                },
            },
        },
    }
}

/// The context of a session.
pub fn session_context(cwd: &str, tool_worktree: Option<&str>, title: &str) -> (r: String)
    ensures
        r@ == session_context_spec(
            cwd@,
            match tool_worktree {
                Some(t) => Some(t@),
                None => None,
            },
            title@,
        ),
{
    if let Some(n) = worktree_name(cwd) {
        return n;
    }
    if let Some(t) = tool_worktree {
        return string_of(chars_of(t).as_slice());
    }
    if let Some(c) = task_code(title) {
        return c;
    }
    let chars = chars_of(cwd);
    match file_name(chars.as_slice()) {
        Some(f) => string_of(f.as_slice()),
        None => string_of(chars.as_slice()),
    }
}

/// The segments of an absolute path with `.` dropped and each `..` taking
/// away the segment before it.
pub open spec fn norm_stack(segs: Seq<Seq<char>>) -> Seq<Seq<char>>
    decreases segs.len(),
{
    if segs.len() == 0 {
        Seq::empty()
    } else {
        let st = norm_stack(segs.drop_last());
        let x = segs.last();
        if x == "."@ {
            st
        } else if x == ".."@ {
            if st.len() > 0 {
                st.drop_last()
            } else {
                st
            }
        } else {
            st.push(x)
        }
    }
}

/// An absolute path without `.` and `..` components; none for a relative
/// path.
pub open spec fn normalize_spec(path: Seq<char>) -> Option<Seq<char>> {
    if path.len() > 0 && path[0] == '/' {
        Some(seq!['/'] + join_with(norm_stack(runs(path, CharClass::Slash)), "/"@))
    } else {
        None
    }
}

/// An absolute path without `.` and `..` components.
pub fn normalize(path: &str) -> (r: Option<String>)
    ensures
        r matches Some(p) ==> normalize_spec(path@) == Some(p@),
        r is None ==> normalize_spec(path@) is None,
{
    let chars = chars_of(path);
    if !(chars.len() > 0 && chars[0] == '/') {
        return None;
    }
    let segs = split_runs(chars.as_slice(), CharClass::Slash);
    let dot = chars_of(".");
    let dotdot = chars_of("..");
    let mut stack: Vec<Vec<char>> = Vec::new();
    let mut i: usize = 0;
    while i < segs.len()
        invariant
            i <= segs.len(),
            dot@ == "."@,
            dotdot@ == ".."@,
            views(stack@) == norm_stack(views(segs@).take(i as int)),
        decreases segs.len() - i,
    {
        let seg = &segs[i];
        proof {
            assert(views(segs@).take(i + 1).drop_last() =~= views(segs@).take(i as int));
            assert(views(segs@).take(i + 1).last() == seg@);
        }
        if same_chars(seg.as_slice(), dot.as_slice()) {
        } else if same_chars(seg.as_slice(), dotdot.as_slice()) {
            if stack.len() > 0 {
                let ghost before = stack@;
                stack.pop();
                assert(views(stack@) =~= views(before).drop_last());
            }
        } else {
            let ghost before = stack@;
            stack.push(slice_chars(seg.as_slice(), 0, seg.len()));
            assert(seg@.subrange(0, seg@.len() as int) =~= seg@);
            assert(views(stack@) =~= views(before).push(seg@));
        }
        i = i + 1;
    }
    assert(views(segs@).take(segs.len() as int) =~= views(segs@));
    let slash = chars_of("/");
    let mut out: Vec<char> = Vec::new();
    out.push('/');
    let joined = join_parts(&stack, slash.as_slice());
    extend_chars(&mut out, joined.as_slice());
    assert(out@ =~= seq!['/'] + joined@);
    Some(string_of(out.as_slice()))
}

/// `~/rest` made a path below the home directory (when it is known).
pub open spec fn expand_tilde_spec(text: Seq<char>, home: Option<Seq<char>>) -> Seq<char> {
    if text.len() >= 2 && text[0] == '~' && text[1] == '/' {
        match home {
            Some(h) => join_spec(h, text.skip(2)),
            None => text,
        }
    } else {
        text
    }
}

/// `~/rest` made a path below the home directory (when it is known).
pub fn expand_tilde(text: &[char], home: Option<&str>) -> (r: Vec<char>)
    ensures
        r@ == expand_tilde_spec(
            text@,
            match home {
                Some(h) => Some(h@),
                None => None,
            },
        ),
{
    if text.len() >= 2 && text[0] == '~' && text[1] == '/' {
        if let Some(h) = home {
            let rest = slice_chars(text, 2, text.len());
            assert(rest@ =~= text@.skip(2));
            let hc = chars_of(h);
            return join_path(hc.as_slice(), rest.as_slice());
        }
    }
    let r = slice_chars(text, 0, text.len());
    assert(r@ =~= text@);
    r
}

/// The words of a command as their pieces give them: each piece without
/// surrounding quotes and redirections, empty ones dropped.
pub open spec fn token_fold(pieces: Seq<Seq<char>>) -> Seq<Seq<char>>
    decreases pieces.len(),
{
    if pieces.len() == 0 {
        Seq::empty()
    } else {
        let t = token_fold(pieces.drop_last());
        let x = trim_class_spec(pieces.last(), CharClass::QuoteChar);
        if x.len() > 0 {
            t.push(x)
        } else {
            t
        }
    }
}

/// The words of a shell command: split at whitespace and `;&|()` and
/// backticks, without surrounding quotes and redirections.
pub open spec fn command_tokens(command: Seq<char>) -> Seq<Seq<char>> {
    token_fold(pieces(command, CharClass::CommandSeparator))
}

/// The value a token stands for: the token itself when it starts with `/` or
/// `~`, else what follows its first `=` (the token when it has none).
pub open spec fn token_value(token: Seq<char>) -> Seq<char> {
    if token.len() > 0 && (token[0] == '/' || token[0] == '~') {
        token
    } else {
        match first_in_class_from(token, CharClass::Equals, true, 0) {
            Some(e) => token.skip(e + 1),
            None => token,
        }
    }
}

/// Whether a token is a command that takes a directory next.
pub open spec fn is_dir_flag(token: Seq<char>) -> bool {
    token == "cd"@ || token == "pushd"@ || token == "-C"@
}

/// The paths after looking at token `i`: an absolute or home path is taken as
/// it is; a relative one right after `cd`, `pushd` or `-C` is taken below
/// `cwd`, unless it is an option or a variable. Nothing is added once there
/// are 16.
pub open spec fn command_path_step(
    acc: Seq<Seq<char>>,
    tokens: Seq<Seq<char>>,
    i: int,
    cwd: Option<Seq<char>>,
    home: Option<Seq<char>>,
) -> Seq<Seq<char>> {
    if acc.len() >= MAX_COMMAND_PATHS {
        acc
    } else {
        let value = token_value(tokens[i]);
        let after_dir_flag = i > 0 && is_dir_flag(tokens[i - 1]);
        if (value.len() > 0 && value[0] == '/') || (value.len() >= 2 && value[0] == '~' && value[1]
            == '/') {
            acc.push(expand_tilde_spec(value, home))
        } else if after_dir_flag && !(value.len() > 0 && (value[0] == '-' || value[0] == '$')) {
            match cwd {
                Some(c) => acc.push(join_spec(c, value)),
                None => acc,
            }
        } else {
            acc
        }
    }
}

/// The paths of the first `n` tokens.
pub open spec fn command_path_fold(
    tokens: Seq<Seq<char>>,
    n: int,
    cwd: Option<Seq<char>>,
    home: Option<Seq<char>>,
) -> Seq<Seq<char>>
    decreases n,
{
    if n <= 0 {
        Seq::empty()
    } else {
        command_path_step(command_path_fold(tokens, n - 1, cwd, home), tokens, n - 1, cwd, home)
    }
}

/// The paths a shell command mentions.
pub open spec fn command_paths_spec(
    command: Seq<char>,
    cwd: Option<Seq<char>>,
    home: Option<Seq<char>>,
) -> Seq<Seq<char>> {
    let tokens = command_tokens(command);
    command_path_fold(tokens, tokens.len() as int, cwd, home)
}

fn command_tokens_exec(command: &[char]) -> (r: Vec<Vec<char>>)
    ensures
        views(r@) == command_tokens(command@),
{
    let parts = split_pieces(command, CharClass::CommandSeparator);
    let mut out: Vec<Vec<char>> = Vec::new();
    let mut i: usize = 0;
    while i < parts.len()
        invariant
            i <= parts.len(),
            views(parts@) == pieces(command@, CharClass::CommandSeparator),
            views(out@) == token_fold(views(parts@).take(i as int)),
        decreases parts.len() - i,
    {
        proof {
            assert(views(parts@).take(i + 1).drop_last() =~= views(parts@).take(i as int));
            assert(views(parts@).take(i + 1).last() == parts@[i as int]@);
        }
        let x = trim_class(parts[i].as_slice(), CharClass::QuoteChar);
        if x.len() > 0 {
            let ghost before = out@;
            out.push(x);
            assert(views(out@) =~= views(before).push(out@.last()@));
        }
        i = i + 1;
    }
    assert(views(parts@).take(parts.len() as int) =~= views(parts@));
    out
}

fn token_value_exec(token: &[char]) -> (r: Vec<char>)
    ensures
        r@ == token_value(token@),
{
    if token.len() > 0 && (token[0] == '/' || token[0] == '~') {
        return slice_chars(token, 0, token.len());
    }
    proof {
        lemma_first_in_class_bounds(token@, CharClass::Equals, true, 0);
    }
    match find_class_from(token, CharClass::Equals, true, 0) {
        Some(e) => {
            let r = slice_chars(token, e + 1, token.len());
            assert(r@ =~= token@.skip(e + 1));
            r
        },
        None => {
            let r = slice_chars(token, 0, token.len());
            assert(r@ =~= token@);
            r
        },
    }
}

/// The paths a shell command mentions, at most 16: absolute and home paths,
/// and the relative targets of `cd`, `pushd` and `-C` below `cwd`.
pub fn command_paths(command: &str, cwd: Option<&str>, home: Option<&str>) -> (r: Vec<String>)
    ensures
        crate::split::string_views(r@) == command_paths_spec(
            command@,
            match cwd {
                Some(c) => Some(c@),
                None => None,
            },
            match home {
                Some(h) => Some(h@),
                None => None,
            },
        ),
{
    let ghost cwd_v = match cwd {
        Some(c) => Some(c@),
        None => None,
    };
    let ghost home_v = match home {
        Some(h) => Some(h@),
        None => None,
    };
    let chars = chars_of(command);
    let tokens = command_tokens_exec(chars.as_slice());
    let cd = chars_of("cd");
    let pushd = chars_of("pushd");
    let dash_c = chars_of("-C");
    let mut paths: Vec<String> = Vec::new();
    let mut i: usize = 0;
    while i < tokens.len()
        invariant
            i <= tokens.len(),
            views(tokens@) == command_tokens(command@),
            cd@ == "cd"@,
            pushd@ == "pushd"@,
            dash_c@ == "-C"@,
            cwd_v == match cwd {
                Some(c) => Some(c@),
                None => None,
            },
            home_v == match home {
                Some(h) => Some(h@),
                None => None,
            },
            crate::split::string_views(paths@) == command_path_fold(
                views(tokens@),
                i as int,
                cwd_v,
                home_v,
            ),
        decreases tokens.len() - i,
    {
        let ghost before = paths@;
        if paths.len() < MAX_COMMAND_PATHS {
            let value = token_value_exec(tokens[i].as_slice());
            assert(views(tokens@)[i as int] == tokens@[i as int]@);
            let after_dir_flag = i > 0 && {
                let prev = tokens[i - 1].as_slice();
                assert(views(tokens@)[i - 1] == tokens@[i - 1]@);
                same_chars(prev, cd.as_slice()) || same_chars(prev, pushd.as_slice()) || same_chars(
                    prev,
                    dash_c.as_slice(),
                )
            };
            if (value.len() > 0 && value[0] == '/') || (value.len() >= 2 && value[0] == '~'
                && value[1] == '/') {
                let p = expand_tilde(value.as_slice(), home);
                paths.push(string_of(p.as_slice()));
            } else if after_dir_flag && !(value.len() > 0 && (value[0] == '-' || value[0] == '$')) {
                if let Some(c) = cwd {
                    let cc = chars_of(c);
                    let p = join_path(cc.as_slice(), value.as_slice());
                    paths.push(string_of(p.as_slice()));
                }
            }
        }
        assert(crate::split::string_views(paths@) =~= command_path_step(
            crate::split::string_views(before),
            views(tokens@),
            i as int,
            cwd_v,
            home_v,
        ));
        i = i + 1;
    }
    paths
}

/// A title never exceeds 120 characters: a shorter one is the words joined
/// by single spaces, whole; a longer one keeps their first 119 characters and
/// ends in an ellipsis.
pub proof fn titles_fit_in_the_limit(text: Seq<char>)
    ensures
        ({
            let t = join_with(words(text), " "@);
            let r = truncate_title_spec(text);
            &&& r.len() <= 120
            &&& t.len() <= 120 ==> r == t
            &&& t.len() > 120 ==> r.len() == 120 && r[119] == '…' && forall|i: int|
                0 <= i < 119 ==> #[trigger] r[i] == t[i]
        }),
{
}

/// A task code found in a text is a task code, and one of the text's words.
pub proof fn a_found_task_code_is_a_word_of_the_text(text: Seq<char>)
    ensures
        task_code_spec(text) matches Some(c) ==> is_task_code(c) && runs(text, CharClass::TaskCodeSeparator).contains(c),
{
    lemma_first_code_from(runs(text, CharClass::TaskCodeSeparator), 0);
}

proof fn lemma_first_code_from(words: Seq<Seq<char>>, from: int)
    ensures
        first_code_from(words, from) matches Some(c) ==> is_task_code(c) && words.contains(c),
    decreases words.len() - from,
{
    if 0 <= from < words.len() {
        if is_task_code(words[from]) {
            assert(words[from] == words[from]);
        } else {
            lemma_first_code_from(words, from + 1);
        }
    }
}

} // verus!
