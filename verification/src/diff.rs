//! The diff view's git logic: which base a repository is compared with, the
//! changed files and their line counts, and the readers of git's output.
//!
//! git itself is run by a [`GitRunner`]; the library builds the arguments and
//! reads what comes back.

use vstd::prelude::*;

use crate::split::{
    opt_view,
    pieces,
    runs,
    split_pieces,
    split_runs,
    string_views,
    views,
    words,
};
use crate::text::{
    chars_of,
    digits_to_u64,
    eq_str,
    extend_chars,
    find_class_from,
    first_in_class_from,
    has_prefix,
    lemma_first_in_class_bounds,
    parse_u32,
    parse_u32_spec,
    parse_u64,
    parse_u64_spec,
    same_chars,
    slice_chars,
    starts_with,
    string_of,
    trim,
    trim_spec,
    CharClass,
};

verus! {

/// The tree with no files, the base of a repository without commits.
pub const EMPTY_TREE: &'static str = "4b825dc642cb6eb9a060e54bf8d69288fbee4904";

/// The biggest untracked file whose lines are counted, in bytes.
pub const MAX_COUNTED_BYTES: u64 = 2097152;

/// What the diff compares with: the pull request's base, or the last commit.
#[derive(Debug, Clone, Copy, PartialEq, Eq, Structural)]
pub enum Mode {
    Pr,
    Uncommitted,
}

impl Default for Mode {
    fn default() -> (r: Mode)
        ensures
            r == Mode::Pr,
    {
        Mode::Pr
    }
}

impl Mode {
    /// The other mode.
    pub fn toggled(self) -> (r: Mode)
        ensures
            r == match self {
                Mode::Pr => Mode::Uncommitted,
                Mode::Uncommitted => Mode::Pr,
            },
    {
        match self {
            Mode::Pr => Mode::Uncommitted,
            Mode::Uncommitted => Mode::Pr,
        }
    }

    /// The mode's name on screen.
    pub fn label(self) -> (r: &'static str)
        ensures
            r@ == match self {
                Mode::Pr => "PR"@,
                Mode::Uncommitted => "não commitado"@,
            },
    {
        match self {
            Mode::Pr => "PR",
            Mode::Uncommitted => "não commitado",
        }
    }
}

/// Toggling the mode twice gives it back.
pub proof fn mode_toggle_involutive(mode: Mode)
    ensures
        match (match mode {
            Mode::Pr => Mode::Uncommitted,
            Mode::Uncommitted => Mode::Pr,
        }) {
            Mode::Pr => Mode::Uncommitted,
            Mode::Uncommitted => Mode::Pr,
        } == mode,
{
}

/// One changed file: its path (and the old one for a rename or copy), git's
/// status letter (`?` for untracked), and its added and deleted lines.
#[derive(Debug, Clone, PartialEq, Eq)]
pub struct FileChange {
    pub path: String,
    pub old_path: Option<String>,
    pub status: char,
    pub adds: u64,
    pub dels: u64,
    pub binary: bool,
}

/// The changes of one repository against its base.
#[derive(Debug, Clone, PartialEq, Eq)]
pub struct RepoDiff {
    pub root: String,
    pub branch: Option<String>,
    pub base_label: String,
    pub base_rev: String,
    pub files: Vec<FileChange>,
    pub error: Option<String>,
}

/// The added lines of the files.
pub open spec fn sum_adds(files: Seq<FileChange>) -> nat
    decreases files.len(),
{
    if files.len() == 0 {
        0
    } else {
        sum_adds(files.drop_last()) + files.last().adds as nat
    }
}

/// The deleted lines of the files.
pub open spec fn sum_dels(files: Seq<FileChange>) -> nat
    decreases files.len(),
{
    if files.len() == 0 {
        0
    } else {
        sum_dels(files.drop_last()) + files.last().dels as nat
    }
}

proof fn lemma_sum_adds_mono(files: Seq<FileChange>, k: int)
    requires
        0 <= k <= files.len(),
    ensures
        sum_adds(files.take(k)) <= sum_adds(files),
    decreases files.len() - k,
{
    if k < files.len() {
        lemma_sum_adds_mono(files, k + 1);
        assert(files.take(k + 1).drop_last() =~= files.take(k));
    } else {
        assert(files.take(k) =~= files);
    }
}

proof fn lemma_sum_dels_mono(files: Seq<FileChange>, k: int)
    requires
        0 <= k <= files.len(),
    ensures
        sum_dels(files.take(k)) <= sum_dels(files),
    decreases files.len() - k,
{
    if k < files.len() {
        lemma_sum_dels_mono(files, k + 1);
        assert(files.take(k + 1).drop_last() =~= files.take(k));
    } else {
        assert(files.take(k) =~= files);
    }
}

impl RepoDiff {
    /// The lines added in all files.
    pub fn adds(&self) -> (r: u64)
        requires
            sum_adds(self.files@) <= u64::MAX,
        ensures
            r == sum_adds(self.files@),
    {
        let mut total: u64 = 0;
        let mut i: usize = 0;
        while i < self.files.len()
            invariant
                i <= self.files.len(),
                sum_adds(self.files@) <= u64::MAX,
                total == sum_adds(self.files@.take(i as int)),
            decreases self.files.len() - i,
        {
            proof {
                assert(self.files@.take(i + 1).drop_last() =~= self.files@.take(i as int));
                lemma_sum_adds_mono(self.files@, i + 1);
            }
            total = total + self.files[i].adds;
            i = i + 1;
        }
        assert(self.files@.take(self.files.len() as int) =~= self.files@);
        total
    }

    /// The lines deleted in all files.
    pub fn dels(&self) -> (r: u64)
        requires
            sum_dels(self.files@) <= u64::MAX,
        ensures
            r == sum_dels(self.files@),
    {
        let mut total: u64 = 0;
        let mut i: usize = 0;
        while i < self.files.len()
            invariant
                i <= self.files.len(),
                sum_dels(self.files@) <= u64::MAX,
                total == sum_dels(self.files@.take(i as int)),
            decreases self.files.len() - i,
        {
            proof {
                assert(self.files@.take(i + 1).drop_last() =~= self.files@.take(i as int));
                lemma_sum_dels_mono(self.files@, i + 1);
            }
            total = total + self.files[i].dels;
            i = i + 1;
        }
        assert(self.files@.take(self.files.len() as int) =~= self.files@);
        total
    }

    /// Whether any file changed.
    pub fn has_changes(&self) -> (r: bool)
        ensures
            r == (self.files@.len() > 0),
    {
        self.files.len() > 0
    }
}

/// How a git run ended: whether it succeeded, its exit code (none when a
/// signal ended it), and what it wrote.
#[derive(Debug, Clone, PartialEq, Eq)]
pub struct GitOutput {
    pub success: bool,
    pub code: Option<i32>,
    pub stdout: Vec<u8>,
    pub stderr: Vec<u8>,
}

/// What an untracked file holds, as far as line counting goes.
#[derive(Debug, Clone, PartialEq, Eq)]
pub enum FileProbe {
    /// Its metadata cannot be read, or it is bigger than the limit asked for.
    TooBig,
    /// It cannot be read.
    Unreadable,
    /// Its bytes.
    Bytes(Vec<u8>),
}

/// Runs git and reads files for the diff view.
pub trait GitRunner {
    /// Whether `answer` is what running git in `root` with `args` gave. It
    /// holds of every answer unless an implementation says more: it names
    /// the run, with its arguments, that an answer came from.
    open spec fn git_answer(&self, root: Seq<char>, args: Seq<Seq<char>>, answer: Result<GitOutput, String>) -> bool {
        true
    }

    /// Whether `answer` is what reading the file at `path`, up to `limit`
    /// bytes, gave.
    open spec fn file_answer(&self, path: Seq<char>, limit: u64, answer: FileProbe) -> bool {
        true
    }

    /// Runs `git -C root` with `args`, without a pager or optional locks and
    /// with no input; the message of the error when it cannot be started.
    fn run_git(&self, root: &str, args: &Vec<String>) -> (r: Result<GitOutput, String>)
        ensures
            self.git_answer(root@, string_views(args@), r),
    ;

    /// The bytes of the file at `path`, unless it is bigger than `limit` bytes.
    fn read_file(&self, path: &str, limit: u64) -> (r: FileProbe)
        ensures
            self.file_answer(path@, limit, r),
    ;
}

/// The text of bytes as `String::from_utf8_lossy` gives it: invalid UTF-8
/// sequences each become U+FFFD.
pub uninterp spec fn utf8_lossy(bytes: Seq<u8>) -> Seq<char>;

/// std's `String::from_utf8_lossy`; its result is named `utf8_lossy` of the
/// bytes, the decoding itself is not stated.
#[verifier::external_body]
pub(crate) fn from_utf8_lossy(bytes: &[u8]) -> (r: String)
    ensures
        r@ == utf8_lossy(bytes@),
{
    String::from_utf8_lossy(bytes).into_owned()
}

/// The message of a failed git run: the first line of its error output,
/// trimmed, or `git falhou` when it wrote none.
pub open spec fn git_error_spec(stderr: Seq<char>) -> Seq<char> {
    if stderr.len() == 0 {
        "git falhou"@
    } else {
        trim_spec(pieces(stderr, CharClass::Newline)[0])
    }
}

/// What a git run gives: its output on success, else the message of its
/// error.
pub open spec fn git_result_spec(out: GitOutput) -> Result<Seq<u8>, Seq<char>> {
    if out.success {
        Ok(out.stdout@)
    } else {
        Err(git_error_spec(utf8_lossy(out.stderr@)))
    }
}

/// What a git run gives: its output on success, else the message of its
/// error.
pub fn git_result(out: GitOutput) -> (r: Result<Vec<u8>, String>)
    ensures
        r matches Ok(bytes) ==> git_result_spec(out) == Ok::<Seq<u8>, Seq<char>>(bytes@),
        r matches Err(e) ==> git_result_spec(out) == Err::<Seq<u8>, Seq<char>>(e@),
{
    if out.success {
        return Ok(out.stdout);
    }
    let text = from_utf8_lossy(out.stderr.as_slice());
    let chars = chars_of(text.as_str());
    if chars.len() == 0 {
        return Err(string_of(chars_of("git falhou").as_slice()));
    }
    let lines = split_pieces(chars.as_slice(), CharClass::Newline);
    assert(views(lines@)[0] == lines@[0]@);
    Err(string_of(trim(lines[0].as_slice()).as_slice()))
}

/// What a git run gives as bytes: its output on success, the first line of
/// its error output otherwise, and `git: ` and the reason when it could not
/// be started.
pub open spec fn git_bytes_spec(answer: Result<GitOutput, String>) -> Result<Seq<u8>, Seq<char>> {
    match answer {
        Ok(out) => git_result_spec(out),
        Err(e) => Err("git: "@ + e@),
    }
}

/// What a git run gives as text (see [`git_bytes_spec`]).
pub open spec fn git_text_spec(answer: Result<GitOutput, String>) -> Result<Seq<char>, Seq<char>> {
    match git_bytes_spec(answer) {
        Ok(bytes) => Ok(utf8_lossy(bytes)),
        Err(e) => Err(e),
    }
}

/// Whether `text` is what running git in `root` with `args` gave as text.
pub open spec fn git_said<R: GitRunner>(runner: &R, root: Seq<char>, args: Seq<Seq<char>>, text: Result<Seq<char>, Seq<char>>) -> bool {
    exists|a: Result<GitOutput, String>| #[trigger] runner.git_answer(root, args, a) && text == git_text_spec(a)
}

/// Runs git in `root` with `args`: its output on success, the first line of
/// its error output otherwise, and `git: ` and the reason when it cannot be
/// started.
pub fn git_bytes<R: GitRunner>(runner: &R, root: &str, args: &Vec<String>) -> (r: Result<
    Vec<u8>,
    String,
>)
    ensures
        exists|a: Result<GitOutput, String>|
            #[trigger] runner.git_answer(root@, string_views(args@), a) && git_bytes_spec(a) == match r {
                Ok(bytes) => Ok::<Seq<u8>, Seq<char>>(bytes@),
                Err(e) => Err::<Seq<u8>, Seq<char>>(e@),
            },
{
    let answer = runner.run_git(root, args);
    let ghost a = answer;
    match answer {
        Ok(out) => git_result(out),
        Err(e) => {
            let mut msg = chars_of("git: ");
            extend_chars(&mut msg, chars_of(e.as_str()).as_slice());
            let r = string_of(msg.as_slice());
            assert(r@ == "git: "@ + e@);
            Err(r)
        },
    }
}

/// Runs git and reads its output as text.
pub fn git<R: GitRunner>(runner: &R, root: &str, args: &Vec<String>) -> (r: Result<String, String>)
    ensures
        git_said(runner, root@, string_views(args@), answer_view(r)),
{
    match git_bytes(runner, root, args) {
        Ok(bytes) => {
            let r: Result<String, String> = Ok(from_utf8_lossy(bytes.as_slice()));
            assert(answer_view(r) == Ok::<Seq<char>, Seq<char>>(utf8_lossy(bytes@)));
            r
        },
        Err(e) => {
            let r: Result<String, String> = Err(e);
            assert(answer_view(r) == Err::<Seq<char>, Seq<char>>(e@));
            r
        },
    }
}

/// A list of strings from literals.
fn strings(items: &[&str]) -> (r: Vec<String>)
    ensures
        r@.len() == items@.len(),
        forall|i: int| 0 <= i < items@.len() ==> (#[trigger] r@[i])@ == items@[i]@,
{
    let mut out: Vec<String> = Vec::new();
    let mut i: usize = 0;
    while i < items.len()
        invariant
            i <= items.len(),
            out@.len() == i,
            forall|k: int| 0 <= k < i ==> (#[trigger] out@[k])@ == items@[k]@,
        decreases items.len() - i,
    {
        out.push(string_of(chars_of(items[i]).as_slice()));
        i = i + 1;
    }
    out
}

/// The arguments of `git rev-parse` that check that `rev` names a commit.
pub open spec fn verify_args(rev: Seq<char>) -> Seq<Seq<char>> {
    seq!["rev-parse"@, "--verify"@, "--quiet"@, rev + "^{commit}"@]
}

/// Whether git, asked whether `rev` names a commit in `root`, said yes
/// (`found`) or no.
pub open spec fn verified_said<R: GitRunner>(runner: &R, root: Seq<char>, rev: Seq<char>, found: bool) -> bool {
    exists|t: Result<Seq<char>, Seq<char>>| #[trigger] git_said(runner, root, verify_args(rev), t) && found == t is Ok
}

/// Whether `rev` names a commit in `root` (`git rev-parse --verify --quiet
/// rev^{commit}` succeeds).
pub fn verified<R: GitRunner>(runner: &R, root: &str, rev: &str) -> (r: bool)
    ensures
        verified_said(runner, root@, rev@, r),
{
    let mut args = strings(&["rev-parse", "--verify", "--quiet"]);
    let mut target = chars_of(rev);
    extend_chars(&mut target, chars_of("^{commit}").as_slice());
    args.push(string_of(target.as_slice()));
    assert(string_views(args@) =~= verify_args(rev@));
    let t = git(runner, root, &args);
    assert(git_said(runner, root@, verify_args(rev@), answer_view(t)));
    t.is_ok()
}

/// The names tried, in order, as the base when `origin/HEAD` names none.
pub open spec fn base_candidates() -> Seq<Seq<char>> {
    seq!["origin/develop"@, "origin/main"@, "origin/master"@, "develop"@, "main"@, "master"@]
}

/// The arguments of `git symbolic-ref` that name what `origin/HEAD` points
/// to.
pub open spec fn origin_head_args() -> Seq<Seq<char>> {
    seq!["symbolic-ref"@, "--quiet"@, "--short"@, "refs/remotes/origin/HEAD"@]
}

/// The first of the candidates that git says is a commit, each asked in
/// turn; none when git says none is.
pub open spec fn candidate_spec<R: GitRunner>(runner: &R, root: Seq<char>, r: Option<String>) -> bool {
    match r {
        Some(b) => exists|j: int|
            0 <= j < 6 && b@ == base_candidates()[j] && #[trigger] verified_said(
                runner,
                root,
                base_candidates()[j],
                true,
            ) && forall|k: int| 0 <= k < j ==> #[trigger] verified_said(runner, root, base_candidates()[k], false),
        None => forall|k: int| 0 <= k < 6 ==> #[trigger] verified_said(runner, root, base_candidates()[k], false),
    }
}

/// Whether what `origin/HEAD` points to, when git names something, is not a
/// commit by git's answer.
pub open spec fn origin_refused<R: GitRunner>(runner: &R, root: Seq<char>, t: Result<Seq<char>, Seq<char>>) -> bool {
    match t {
        Ok(text) => trim_spec(text).len() > 0 ==> verified_said(runner, root, trim_spec(text), false),
        Err(_) => true,
    }
}

/// The base branch of `root` from git's answers: the trimmed name that
/// `origin/HEAD` points to, when git gives one and says it is a commit; else
/// the first candidate that git says is a commit.
pub open spec fn base_branch_spec<R: GitRunner>(runner: &R, root: Seq<char>, r: Option<String>) -> bool {
    exists|t: Result<Seq<char>, Seq<char>>|
        #[trigger] git_said(runner, root, origin_head_args(), t) && match t {
            Ok(text) => if trim_spec(text).len() > 0 {
                exists|v: bool|
                    #[trigger] verified_said(runner, root, trim_spec(text), v) && if v {
                        r matches Some(b) && b@ == trim_spec(text)
                    } else {
                        candidate_spec(runner, root, r)
                    }
            } else {
                candidate_spec(runner, root, r)
            },
            Err(_) => candidate_spec(runner, root, r),
        }
}

/// The branch a pull request would merge into: what `origin/HEAD` points to,
/// when that is a commit, else the first of `origin/develop`, `origin/main`,
/// `origin/master`, `develop`, `main` and `master` that is one.
pub fn base_branch<R: GitRunner>(runner: &R, root: &str) -> (r: Option<String>)
    ensures
        r matches Some(b) ==> b@.len() > 0 && (b@ == trim_spec(b@) || base_candidates().contains(
            b@,
        )),
        base_branch_spec(runner, root@, r),
{
    let args = strings(&["symbolic-ref", "--quiet", "--short", "refs/remotes/origin/HEAD"]);
    assert(string_views(args@) =~= origin_head_args());
    let origin = git(runner, root, &args);
    let ghost t = answer_view(origin);
    let mut tried_origin = false;
    if let Ok(text) = origin {
        let name = trim(chars_of(text.as_str()).as_slice());
        if name.len() > 0 {
            let name = string_of(name.as_slice());
            let v = verified(runner, root, name.as_str());
            assert(name@ == trim_spec(text@));
            if v {
                proof {
                    crate::text::lemma_trim_idempotent(text@);
                }
                let r = Some(name);
                assert(git_said(runner, root@, origin_head_args(), t));
                return r;
            }
            tried_origin = true;
        }
    }
    assert(git_said(runner, root@, origin_head_args(), t));
    assert(origin_refused(runner, root@, t));
    let candidates = ["origin/develop", "origin/main", "origin/master", "develop", "main", "master"];
    proof {
        reveal_strlit("origin/develop");
        reveal_strlit("origin/main");
        reveal_strlit("origin/master");
        reveal_strlit("develop");
        reveal_strlit("main");
        reveal_strlit("master");
    }
    let mut i: usize = 0;
    while i < candidates.len()
        invariant
            i <= candidates@.len(),
            candidates@.len() == 6,
            forall|k: int| 0 <= k < 6 ==> (#[trigger] candidates@[k])@ == base_candidates()[k],
            forall|k: int| 0 <= k < 6 ==> (#[trigger] base_candidates()[k]).len() > 0,
            forall|k: int| 0 <= k < i ==> #[trigger] verified_said(runner, root@, base_candidates()[k], false),
            git_said(runner, root@, origin_head_args(), t),
            origin_refused(runner, root@, t),
        decreases candidates@.len() - i,
    {
        let v = verified(runner, root, candidates[i]);
        assert(candidates@[i as int]@ == base_candidates()[i as int]);
        if v {
            let name = string_of(chars_of(candidates[i]).as_slice());
            assert(base_candidates()[i as int] == name@);
            let r = Some(name);
            assert(verified_said(runner, root@, base_candidates()[i as int], true));
            assert(candidate_spec(runner, root@, r));
            assert(git_said(runner, root@, origin_head_args(), t));
            assert(base_branch_spec(runner, root@, r));
            return r;
        }
        i = i + 1;
    }
    assert(candidate_spec(runner, root@, None));
    assert(git_said(runner, root@, origin_head_args(), t));
    None
}

/// A branch as `current_branch` names it: a trimmed name, or a commit in
/// brackets.
pub open spec fn branch_ok(b: Seq<char>) -> bool {
    (b.len() > 0 && b == trim_spec(b)) || (b.len() >= 2 && b[0] == '(' && b.last() == ')')
}

/// The arguments of `git symbolic-ref` that name the branch checked out.
pub open spec fn head_name_args() -> Seq<Seq<char>> {
    seq!["symbolic-ref"@, "--quiet"@, "--short"@, "HEAD"@]
}

/// The arguments of `git rev-parse` that give the short commit of `HEAD`.
pub open spec fn short_head_args() -> Seq<Seq<char>> {
    seq!["rev-parse"@, "--short"@, "HEAD"@]
}

/// The branch of `root` from git's answers: the trimmed name `git
/// symbolic-ref --quiet --short HEAD` gives, when it gives one; else the
/// short commit `git rev-parse --short HEAD` gives, in brackets; none when
/// that fails too.
pub open spec fn branch_spec<R: GitRunner>(runner: &R, root: Seq<char>, r: Option<String>) -> bool {
    exists|t: Result<Seq<char>, Seq<char>>|
        #[trigger] git_said(runner, root, head_name_args(), t) && match t {
            Ok(name) => if trim_spec(name).len() > 0 {
                r matches Some(b) && b@ == trim_spec(name)
            } else {
                detached_spec(runner, root, r)
            },
            Err(_) => detached_spec(runner, root, r),
        }
}

/// The branch of a detached head: the short commit in brackets, none when
/// git cannot give it.
pub open spec fn detached_spec<R: GitRunner>(runner: &R, root: Seq<char>, r: Option<String>) -> bool {
    exists|u: Result<Seq<char>, Seq<char>>|
        #[trigger] git_said(runner, root, short_head_args(), u) && match u {
            Ok(sha) => r matches Some(b) && b@ == seq!['('] + trim_spec(sha) + seq![')'],
            Err(_) => r is None,
        }
}

/// The branch checked out in `root`, or `(sha)` of the commit when the head
/// is detached (see [`branch_spec`]).
pub fn current_branch<R: GitRunner>(runner: &R, root: &str) -> (r: Option<String>)
    ensures
        r matches Some(b) ==> branch_ok(b@),
        branch_spec(runner, root@, r),
{
    let args = strings(&["symbolic-ref", "--quiet", "--short", "HEAD"]);
    assert(string_views(args@) =~= head_name_args());
    let named = git(runner, root, &args);
    let ghost t = answer_view(named);
    if let Ok(text) = named {
        let name = trim(chars_of(text.as_str()).as_slice());
        if name.len() > 0 {
            proof {
                crate::text::lemma_trim_idempotent(text@);
            }
            let r = Some(string_of(name.as_slice()));
            assert(git_said(runner, root@, head_name_args(), t));
            return r;
        }
    }
    let args = strings(&["rev-parse", "--short", "HEAD"]);
    assert(string_views(args@) =~= short_head_args());
    let short = git(runner, root, &args);
    let ghost u = answer_view(short);
    let r = match short {
        Ok(sha) => {
            let mut out: Vec<char> = Vec::new();
            out.push('(');
            extend_chars(&mut out, trim(chars_of(sha.as_str()).as_slice()).as_slice());
            out.push(')');
            assert(out@ =~= seq!['('] + trim_spec(sha@) + seq![')']);
            Some(string_of(out.as_slice()))
        },
        Err(_) => None,
    };
    assert(git_said(runner, root@, short_head_args(), u));
    assert(detached_spec(runner, root@, r));
    assert(git_said(runner, root@, head_name_args(), t));
    r
}

/// A label and revision that `resolve_base` may give in `mode`: the empty
/// tree (`vazio`) for a repository without commits; `HEAD` in uncommitted
/// mode; otherwise `HEAD (sem base)` against `HEAD`, or a base branch and
/// the trimmed merge base.
pub open spec fn base_ok(mode: Mode, label: Seq<char>, rev: Seq<char>) -> bool {
    ||| label == "vazio"@ && rev == EMPTY_TREE@
    ||| mode == Mode::Uncommitted && label == "HEAD"@ && rev == "HEAD"@
    ||| mode == Mode::Pr && label == "HEAD (sem base)"@ && rev == "HEAD"@
    ||| mode == Mode::Pr && ((label.len() > 0 && label == trim_spec(label)) || base_candidates().contains(label))
        && rev == trim_spec(rev)
}

/// The base a repository is compared with, from what git answered: whether
/// `HEAD` names a commit, the base branch found (none without one) and the
/// merge base with it (its text or its error). Without a commit it is the
/// empty tree, labelled `vazio`; in uncommitted mode `HEAD`; without a base
/// branch `HEAD (sem base)` against `HEAD`; else the branch and the trimmed
/// merge base, or the failure of the merge base.
pub open spec fn base_spec(
    r: Result<(String, String), String>,
    mode: Mode,
    head: bool,
    branch: Option<Seq<char>>,
    merge: Result<Seq<char>, Seq<char>>,
) -> bool {
    if !head {
        r matches Ok((l, v)) && l@ == "vazio"@ && v@ == EMPTY_TREE@
    } else if mode == Mode::Uncommitted {
        r matches Ok((l, v)) && l@ == "HEAD"@ && v@ == "HEAD"@
    } else {
        match branch {
            None => r matches Ok((l, v)) && l@ == "HEAD (sem base)"@ && v@ == "HEAD"@,
            Some(b) => match merge {
                Ok(t) => r matches Ok((l, v)) && l@ == b && v@ == trim_spec(t),
                Err(e) => r matches Err(m) && m@ == "merge-base com "@ + b + ": "@ + e,
            },
        }
    }
}

/// The arguments of `git merge-base` of `HEAD` and `base`.
pub open spec fn merge_base_args(base: Seq<char>) -> Seq<Seq<char>> {
    seq!["merge-base"@, "HEAD"@, base]
}

/// Whether the facts a base was resolved from are git's answers: whether
/// `HEAD` is a commit; in pull-request mode with a commit, the base branch
/// found and, with one, the merge base with it.
pub open spec fn base_answered<R: GitRunner>(
    runner: &R,
    root: Seq<char>,
    mode: Mode,
    head: bool,
    branch: Option<Seq<char>>,
    merge: Result<Seq<char>, Seq<char>>,
) -> bool {
    &&& verified_said(runner, root, "HEAD"@, head)
    &&& (head && mode == Mode::Pr ==> exists|b: Option<String>| #[trigger] base_branch_spec(runner, root, b) && branch == opt_view(b))
    &&& (head && mode == Mode::Pr ==> (branch matches Some(b) ==> git_said(runner, root, merge_base_args(b), merge)))
}

/// The error of a failed merge base: `merge-base com `, the base, `: ` and
/// the reason.
pub open spec fn base_error_ok(e: Seq<char>) -> bool {
    exists|base: Seq<char>, reason: Seq<char>| e == #[trigger] ("merge-base com "@ + base + ": "@ + reason)
}

/// The label and revision a repository's changes are compared with: for a
/// repository without commits, the empty tree (`vazio`); in uncommitted mode,
/// `HEAD`; without a base branch, `HEAD (sem base)`; else the base branch and
/// its merge base with `HEAD`.
pub fn resolve_base<R: GitRunner>(runner: &R, root: &str, mode: Mode) -> (r: Result<
    (String, String),
    String,
>)
    ensures
        mode == Mode::Uncommitted ==> r is Ok,
        r matches Ok((label, rev)) ==> base_ok(mode, label@, rev@) && label@.len() > 0,
        r matches Err(e) ==> base_error_ok(e@),
        exists|head: bool, branch: Option<Seq<char>>, merge: Result<Seq<char>, Seq<char>>|
            #[trigger] base_spec(r, mode, head, branch, merge) && (branch matches Some(b) ==> b.len() > 0 && (b
                == trim_spec(b) || base_candidates().contains(b))) && base_answered(runner, root@, mode, head, branch, merge),
{
    proof {
        reveal_strlit("vazio");
        reveal_strlit("HEAD");
        reveal_strlit("HEAD (sem base)");
    }
    if !verified(runner, root, "HEAD") {
        let r: Result<(String, String), String> = Ok(
            (string_of(chars_of("vazio").as_slice()), string_of(chars_of(EMPTY_TREE).as_slice())),
        );
        assert(base_spec(r, mode, false, None, Err(Seq::empty())));
        assert(base_answered(runner, root@, mode, false, None, Err(Seq::empty())));
        return r;
    }
    if mode == Mode::Uncommitted {
        let r: Result<(String, String), String> = Ok(
            (string_of(chars_of("HEAD").as_slice()), string_of(chars_of("HEAD").as_slice())),
        );
        assert(base_spec(r, mode, true, None, Err(Seq::empty())));
        assert(base_answered(runner, root@, mode, true, None, Err(Seq::empty())));
        return r;
    }
    let found = base_branch(runner, root);
    let ghost fv = found;
    let base = match found {
        Some(b) => b,
        None => {
            let r: Result<(String, String), String> = Ok(
                (string_of(chars_of("HEAD (sem base)").as_slice()), string_of(chars_of("HEAD").as_slice())),
            );
            assert(base_spec(r, mode, true, None, Err(Seq::empty())));
            assert(base_branch_spec(runner, root@, fv) && None::<Seq<char>> == opt_view(fv));
            assert(base_answered(runner, root@, mode, true, None, Err(Seq::empty())));
            return r;
        },
    };
    assert(base_branch_spec(runner, root@, fv) && Some(base@) == opt_view(fv));
    let mut args = strings(&["merge-base", "HEAD"]);
    args.push(base.clone());
    assert(string_views(args@) =~= merge_base_args(base@));
    let merged = git(runner, root, &args);
    let ghost mv = answer_view(merged);
    assert(git_said(runner, root@, merge_base_args(base@), mv));
    match merged {
        Ok(text) => {
            let rev = string_of(trim(chars_of(text.as_str()).as_slice()).as_slice());
            proof {
                crate::text::lemma_trim_idempotent(text@);
            }
            let ghost bv = base@;
            let r: Result<(String, String), String> = Ok((base, rev));
            assert(base_spec(r, mode, true, Some(bv), Ok(text@)));
            assert(base_answered(runner, root@, mode, true, Some(bv), Ok(text@)));
            r
        },
        Err(e) => {
            let mut msg = chars_of("merge-base com ");
            extend_chars(&mut msg, chars_of(base.as_str()).as_slice());
            extend_chars(&mut msg, chars_of(": ").as_slice());
            extend_chars(&mut msg, chars_of(e.as_str()).as_slice());
            let m = string_of(msg.as_slice());
            assert(m@ == "merge-base com "@ + base@ + ": "@ + e@);
            let r: Result<(String, String), String> = Err(m);
            assert(base_spec(r, mode, true, Some(base@), Err(e@)));
            assert(base_answered(runner, root@, mode, true, Some(base@), Err(e@)));
            r
        },
    }
}

/// The entries of `git diff --name-status -z` from field `i` on: a status
/// letter, then the path, or the old and the new path for a rename or copy
/// (`R`, `C`); a truncated last entry is dropped.
pub open spec fn name_status_from(f: Seq<Seq<char>>, i: int) -> Seq<(char, Option<Seq<char>>, Seq<char>)>
    decreases f.len() - i,
{
    if i < 0 || i >= f.len() {
        Seq::empty()
    } else {
        let st = f[i][0];
        if st == 'R' || st == 'C' {
            if i + 2 < f.len() {
                seq![(st, Some(f[i + 1]), f[i + 2])] + name_status_from(f, i + 3)
            } else {
                Seq::empty()
            }
        } else if i + 1 < f.len() {
            seq![(st, None, f[i + 1])] + name_status_from(f, i + 2)
        } else {
            Seq::empty()
        }
    }
}

/// The entries of `git diff --name-status -z`, its fields being the non-empty
/// pieces between NUL characters.
pub open spec fn name_status_spec(text: Seq<char>) -> Seq<(char, Option<Seq<char>>, Seq<char>)> {
    name_status_from(runs(text, CharClass::Nul), 0)
}

/// The entries as plain values.
pub open spec fn status_views(v: Seq<(char, Option<String>, String)>) -> Seq<
    (char, Option<Seq<char>>, Seq<char>),
> {
    v.map_values(|e: (char, Option<String>, String)| (e.0, opt_view(e.1), e.2@))
}

/// Reads `git diff --name-status -z`.
pub fn parse_name_status(text: &str) -> (r: Vec<(char, Option<String>, String)>)
    ensures
        status_views(r@) == name_status_spec(text@),
{
    let chars = chars_of(text);
    let fields = split_runs(chars.as_slice(), CharClass::Nul);
    proof {
        crate::split::lemma_runs_nonempty(chars@, CharClass::Nul, 0);
    }
    let mut out: Vec<(char, Option<String>, String)> = Vec::new();
    let mut i: usize = 0;
    assert forall|k: int| 0 <= k < fields@.len() implies (#[trigger] fields@[k])@.len() > 0 by {
        assert(views(fields@)[k] == fields@[k]@);
    }
    assert(status_views(out@) =~= Seq::<(char, Option<Seq<char>>, Seq<char>)>::empty());
    while i < fields.len()
        invariant
            i <= fields.len() + 1,
            views(fields@) == runs(text@, CharClass::Nul),
            forall|k: int| 0 <= k < fields@.len() ==> (#[trigger] fields@[k])@.len() > 0,
            status_views(out@) + name_status_from(views(fields@), i as int) == name_status_spec(text@),
        decreases fields.len() + 1 - i,
    {
        let ghost f = views(fields@);
        assert(f[i as int] == fields@[i as int]@);
        let st = fields[i][0];
        let ghost before = out@;
        if st == 'R' || st == 'C' {
            if fields.len() - i > 2 {
                assert(f[i + 1] == fields@[i + 1]@ && f[i + 2] == fields@[i + 2]@);
                out.push((st, Some(string_of(fields[i + 1].as_slice())), string_of(fields[i + 2].as_slice())));
                assert(status_views(out@) =~= status_views(before).push((st, Some(f[i + 1]), f[i + 2])));
                assert(status_views(out@) + name_status_from(f, i + 3) =~= status_views(before) + (
                seq![(st, Some(f[i + 1]), f[i + 2])] + name_status_from(f, i + 3)));
                i = i + 3;
            } else {
                assert(status_views(out@) + name_status_from(f, i as int) =~= status_views(out@));
                return out;
            }
        } else if fields.len() - i > 1 {
            assert(f[i + 1] == fields@[i + 1]@);
            out.push((st, None, string_of(fields[i + 1].as_slice())));
            assert(status_views(out@) =~= status_views(before).push((st, None, f[i + 1])));
            assert(status_views(out@) + name_status_from(f, i + 2) =~= status_views(before) + (seq![
                (st, None, f[i + 1]),
            ] + name_status_from(f, i + 2)));
            i = i + 2;
        } else {
            assert(status_views(out@) + name_status_from(f, i as int) =~= status_views(out@));
            return out;
        }
    }
    assert(status_views(out@) + name_status_from(views(fields@), i as int) =~= status_views(out@));
    out
}

/// Added lines, deleted lines, and whether the file is binary.
pub type LineCounts = (u64, u64, bool);

/// The counts with `path` set: in place when it has some, else added at the
/// end.
pub open spec fn counts_with(
    acc: Seq<(Seq<char>, LineCounts)>,
    path: Seq<char>,
    v: LineCounts,
) -> Seq<(Seq<char>, LineCounts)> {
    match count_index_from(acc, path, 0) {
        Some(j) => acc.update(j, (path, v)),
        None => acc.push((path, v)),
    }
}

/// The position of `path` among the counted paths, from `from` on.
pub open spec fn count_index_from(acc: Seq<(Seq<char>, LineCounts)>, path: Seq<char>, from: int) -> Option<
    int,
>
    decreases acc.len() - from,
{
    if from < 0 || from >= acc.len() {
        None
    } else if acc[from].0 == path {
        Some(from)
    } else {
        count_index_from(acc, path, from + 1)
    }
}

proof fn lemma_count_index_from(acc: Seq<(Seq<char>, LineCounts)>, path: Seq<char>, from: int)
    requires
        0 <= from,
    ensures
        count_index_from(acc, path, from) matches Some(j) ==> from <= j < acc.len() && acc[j].0
            == path,
    decreases acc.len() - from,
{
    if from < acc.len() && acc[from].0 != path {
        lemma_count_index_from(acc, path, from + 1);
    }
}

/// The counts of one `--numstat` field `adds TAB dels TAB path`: a number that
/// does not parse counts as 0, and `-` marks a binary file.
pub open spec fn numstat_value(adds: Seq<char>, dels: Seq<char>) -> LineCounts {
    (
        match parse_u64_spec(adds) {
            Some(v) => v,
            None => 0u64,
        },
        match parse_u64_spec(dels) {
            Some(v) => v,
            None => 0u64,
        },
        adds == "-"@ || dels == "-"@,
    )
}

/// The first tab of a field, and the one after it.
pub open spec fn tabs_of(field: Seq<char>) -> Option<(int, int)> {
    match first_in_class_from(field, CharClass::Tab, true, 0) {
        None => None,
        Some(t1) => match first_in_class_from(field, CharClass::Tab, true, t1 + 1) {
            None => None,
            Some(t2) => Some((t1, t2)),
        },
    }
}

/// The counts of `git diff --numstat -z` from field `i` on, added to `acc`:
/// fields without two tabs are skipped; an empty path means a rename whose
/// new path is two fields on.
pub open spec fn numstat_from(
    f: Seq<Seq<char>>,
    i: int,
    acc: Seq<(Seq<char>, LineCounts)>,
) -> Seq<(Seq<char>, LineCounts)>
    decreases f.len() - i,
{
    if i < 0 || i >= f.len() {
        acc
    } else {
        let field = f[i];
        match tabs_of(field) {
            None => numstat_from(f, i + 1, acc),
            Some((t1, t2)) => {
                let v = numstat_value(field.subrange(0, t1), field.subrange(t1 + 1, t2));
                let path = field.subrange(t2 + 1, field.len() as int);
                if path.len() == 0 {
                    if i + 2 < f.len() {
                        numstat_from(f, i + 3, counts_with(acc, f[i + 2], v))
                    } else {
                        acc
                    }
                } else {
                    numstat_from(f, i + 1, counts_with(acc, path, v))
                }
            },
        }
    }
}

/// The counts of `git diff --numstat -z`, by path, each path once.
pub open spec fn numstat_spec(text: Seq<char>) -> Seq<(Seq<char>, LineCounts)> {
    numstat_from(pieces(text, CharClass::Nul), 0, Seq::empty())
}

/// The counts as plain values.
pub open spec fn count_views(v: Seq<(String, LineCounts)>) -> Seq<(Seq<char>, LineCounts)> {
    v.map_values(|e: (String, LineCounts)| (e.0@, e.1))
}

fn set_counts(acc: &mut Vec<(String, LineCounts)>, path: &[char], v: LineCounts)
    ensures
        count_views(final(acc)@) == counts_with(count_views(old(acc)@), path@, v),
{
    let ghost cv = count_views(acc@);
    let mut j: usize = 0;
    while j < acc.len()
        invariant
            j <= acc.len(),
            acc@ == old(acc)@,
            cv == count_views(acc@),
            count_index_from(cv, path@, 0) == count_index_from(cv, path@, j as int),
        decreases acc.len() - j,
    {
        assert(cv[j as int].0 == acc@[j as int].0@);
        if same_chars(chars_of(acc[j].0.as_str()).as_slice(), path) {
            proof {
                lemma_count_index_from(cv, path@, 0);
            }
            acc.set(j, (string_of(path), v));
            assert(count_views(acc@) =~= cv.update(j as int, (path@, v)));
            return;
        }
        j = j + 1;
    }
    acc.push((string_of(path), v));
    assert(count_views(acc@) =~= cv.push((path@, v)));
}

fn numstat_value_exec(adds: &[char], dels: &[char]) -> (r: LineCounts)
    ensures
        r == numstat_value(adds@, dels@),
{
    let dash = chars_of("-");
    let a = match parse_u64(adds) {
        Some(v) => v,
        None => 0,
    };
    let d = match parse_u64(dels) {
        Some(v) => v,
        None => 0,
    };
    (a, d, same_chars(adds, dash.as_slice()) || same_chars(dels, dash.as_slice()))
}

/// Reads `git diff --numstat -z`: the counts by path, each path once (a later
/// entry for the same path replaces the earlier).
pub fn parse_numstat(text: &str) -> (r: Vec<(String, LineCounts)>)
    ensures
        count_views(r@) == numstat_spec(text@),
{
    let chars = chars_of(text);
    let fields = split_pieces(chars.as_slice(), CharClass::Nul);
    let mut acc: Vec<(String, LineCounts)> = Vec::new();
    let mut i: usize = 0;
    assert(count_views(acc@) =~= Seq::<(Seq<char>, LineCounts)>::empty());
    while i < fields.len()
        invariant
            i <= fields.len() + 2,
            views(fields@) == pieces(text@, CharClass::Nul),
            numstat_from(views(fields@), i as int, count_views(acc@)) == numstat_spec(text@),
        decreases fields.len() + 2 - i,
    {
        let ghost f = views(fields@);
        let field = fields[i].as_slice();
        assert(f[i as int] == field@);
        proof {
            lemma_first_in_class_bounds(field@, CharClass::Tab, true, 0);
        }
        let t1 = match find_class_from(field, CharClass::Tab, true, 0) {
            Some(t) => t,
            None => {
                i = i + 1;
                continue;
            },
        };
        proof {
            lemma_first_in_class_bounds(field@, CharClass::Tab, true, t1 + 1);
        }
        let t2 = match find_class_from(field, CharClass::Tab, true, t1 + 1) {
            Some(t) => t,
            None => {
                i = i + 1;
                continue;
            },
        };
        let adds = slice_chars(field, 0, t1);
        let dels = slice_chars(field, t1 + 1, t2);
        let v = numstat_value_exec(adds.as_slice(), dels.as_slice());
        if t2 + 1 == field.len() {
            if fields.len() - i > 2 {
                assert(f[i + 2] == fields@[i + 2]@);
                set_counts(&mut acc, fields[i + 2].as_slice(), v);
                i = i + 3;
            } else {
                return acc;
            }
        } else {
            let path = slice_chars(field, t2 + 1, field.len());
            set_counts(&mut acc, path.as_slice(), v);
            i = i + 1;
        }
    }
    acc
}

/// The first counts recorded for `path`, from entry `j` on.
pub open spec fn count_find(counts: Seq<(Seq<char>, LineCounts)>, path: Seq<char>, j: int) -> Option<LineCounts>
    decreases counts.len() - j,
{
    if j < 0 || j >= counts.len() {
        None
    } else if counts[j].0 == path {
        Some(counts[j].1)
    } else {
        count_find(counts, path, j + 1)
    }
}

/// The counts recorded for `path`, if any.
pub fn counts_for(counts: &Vec<(String, LineCounts)>, path: &str) -> (r: Option<LineCounts>)
    ensures
        r == count_find(count_views(counts@), path@, 0),
        r matches Some(v) ==> exists|j: int|
            0 <= j < counts@.len() && counts@[j].0@ == path@ && counts@[j].1 == v,
        r is None ==> forall|j: int| 0 <= j < counts@.len() ==> counts@[j].0@ != path@,
{
    let mut j: usize = 0;
    while j < counts.len()
        invariant
            j <= counts.len(),
            forall|k: int| 0 <= k < j ==> counts@[k].0@ != path@,
            count_find(count_views(counts@), path@, 0) == count_find(count_views(counts@), path@, j as int),
        decreases counts.len() - j,
    {
        if eq_str(counts[j].0.as_str(), path) {
            return Some(counts[j].1);
        }
        j = j + 1;
    }
    None
}

/// The first line of a diff that starts a hunk (`@@ `), from line `i` on.
pub open spec fn first_hunk_from(lines: Seq<Seq<char>>, i: int) -> Option<Seq<char>>
    decreases lines.len() - i,
{
    if i < 0 || i >= lines.len() {
        None
    } else if has_prefix(lines[i], "@@ "@) {
        Some(lines[i])
    } else {
        first_hunk_from(lines, i + 1)
    }
}

/// The first word, from `i` on, that starts with `+`.
pub open spec fn first_plus_word(ws: Seq<Seq<char>>, i: int) -> Option<Seq<char>>
    decreases ws.len() - i,
{
    if i < 0 || i >= ws.len() {
        None
    } else if ws[i].len() > 0 && ws[i][0] == '+' {
        Some(ws[i])
    } else {
        first_plus_word(ws, i + 1)
    }
}

/// The line where the first hunk of a diff starts on the new side: the number
/// after `+` in its `@@ ` line (before any `,`), at least 1.
pub open spec fn first_hunk_line_spec(diff: Seq<char>) -> Option<u32> {
    match first_hunk_from(pieces(diff, CharClass::Newline), 0) {
        None => None,
        Some(line) => match first_plus_word(words(line), 0) {
            None => None,
            Some(w) => {
                let start = match first_in_class_from(w, CharClass::Plus, false, 0) {
                    Some(k) => k,
                    None => w.len() as int,
                };
                match parse_u32_spec(pieces(w.skip(start), CharClass::Comma)[0]) {
                    Some(v) => Some(
                        if v < 1 {
                            1u32
                        } else {
                            v
                        },
                    ),
                    None => None,
                }
            },
        },
    }
}

/// The line where the first hunk of a diff starts on the new side.
pub fn parse_first_hunk_line(diff: &str) -> (r: Option<u32>)
    ensures
        r == first_hunk_line_spec(diff@),
{
    let chars = chars_of(diff);
    let lines = split_pieces(chars.as_slice(), CharClass::Newline);
    let marker = chars_of("@@ ");
    let mut i: usize = 0;
    while i < lines.len()
        invariant
            i <= lines.len(),
            views(lines@) == pieces(diff@, CharClass::Newline),
            marker@ == "@@ "@,
            first_hunk_from(views(lines@), 0) == first_hunk_from(views(lines@), i as int),
        decreases lines.len() - i,
    {
        assert(views(lines@)[i as int] == lines@[i as int]@);
        if starts_with(lines[i].as_slice(), marker.as_slice()) {
            return hunk_start(lines[i].as_slice());
        }
        i = i + 1;
    }
    None
}

fn hunk_start(line: &[char]) -> (r: Option<u32>)
    ensures
        r == match first_plus_word(words(line@), 0) {
            None => None,
            Some(w) => {
                let start = match first_in_class_from(w, CharClass::Plus, false, 0) {
                    Some(k) => k,
                    None => w.len() as int,
                };
                match parse_u32_spec(pieces(w.skip(start), CharClass::Comma)[0]) {
                    Some(v) => Some(
                        if v < 1 {
                            1u32
                        } else {
                            v
                        },
                    ),
                    None => None,
                }
            },
        },
{
    let ws = split_runs(line, CharClass::Whitespace);
    let mut i: usize = 0;
    while i < ws.len()
        invariant
            i <= ws.len(),
            views(ws@) == words(line@),
            first_plus_word(views(ws@), 0) == first_plus_word(views(ws@), i as int),
        decreases ws.len() - i,
    {
        let w = ws[i].as_slice();
        assert(views(ws@)[i as int] == w@);
        if w.len() > 0 && w[0] == '+' {
            proof {
                lemma_first_in_class_bounds(w@, CharClass::Plus, false, 0);
            }
            let start = match find_class_from(w, CharClass::Plus, false, 0) {
                Some(k) => k,
                None => w.len(),
            };
            let rest = slice_chars(w, start, w.len());
            assert(rest@ =~= w@.skip(start as int));
            let parts = split_pieces(rest.as_slice(), CharClass::Comma);
            assert(views(parts@)[0] == parts@[0]@);
            return match parse_u32(parts[0].as_slice()) {
                Some(v) => Some(
                    if v < 1 {
                        1
                    } else {
                        v
                    },
                ),
                None => None,
            };
        }
        i = i + 1;
    }
    None
}

/// Whether a byte is a line feed.
pub open spec fn newline_byte() -> spec_fn(u8) -> bool {
    |b: u8| b == 10u8
}

/// The lines of a file's bytes: a binary file (one with a NUL byte) counts
/// none; else its line feeds, and one more when it does not end with one.
pub open spec fn line_count_spec(bytes: Seq<u8>) -> (u64, bool) {
    if bytes.contains(0u8) {
        (0, true)
    } else {
        (
            (bytes.filter(newline_byte()).len() + if bytes.len() > 0 && bytes.last() != 10u8 {
                1int
            } else {
                0int
            }) as u64,
            false,
        )
    }
}

/// The lines of a file's bytes.
pub fn line_count(bytes: &[u8]) -> (r: (u64, bool))
    ensures
        r == line_count_spec(bytes@),
{
    let n = bytes.len();
    let mut newlines: u64 = 0;
    let mut i: usize = 0;
    while i < n
        invariant
            i <= n,
            n == bytes@.len(),
            newlines == bytes@.take(i as int).filter(newline_byte()).len(),
            newlines <= i,
            !bytes@.take(i as int).contains(0u8),
        decreases n - i,
    {
        proof {
            reveal(Seq::filter);
            assert(bytes@.take(i + 1).drop_last() =~= bytes@.take(i as int));
            assert(bytes@.take(i + 1).last() == bytes@[i as int]);
        }
        if bytes[i] == 0 {
            assert(bytes@.contains(0u8)) by {
                assert(bytes@[i as int] == 0u8);
            }
            return (0, true);
        }
        if bytes[i] == 10 {
            newlines = newlines + 1;
        }
        proof {
            assert forall|k: int| 0 <= k < i + 1 implies #[trigger] bytes@.take(i + 1)[k] != 0u8 by {
                if k < i {
                    assert(bytes@.take(i + 1)[k] == bytes@.take(i as int)[k]);
                }
            }
        }
        i = i + 1;
    }
    assert(bytes@.take(n as int) =~= bytes@);
    if n > 0 && bytes[n - 1] != 10 {
        proof {
            reveal(Seq::filter);
            assert(bytes@.drop_last() =~= bytes@.take(n - 1));
            assert(bytes@.filter(newline_byte()) == bytes@.take(n - 1).filter(newline_byte()));
            bytes@.take(n - 1).lemma_filter_len(newline_byte());
        }
        (newlines + 1, false)
    } else {
        (newlines, false)
    }
}

/// The lines of an untracked file: none and binary when it is too big to
/// count, none when it cannot be read.
pub fn count_lines<R: GitRunner>(runner: &R, path: &str) -> (r: (u64, bool))
    ensures
        exists|probe: FileProbe| #[trigger] runner.file_answer(path@, MAX_COUNTED_BYTES, probe) && r == probe_count_spec(probe),
{
    let probe = runner.read_file(path, MAX_COUNTED_BYTES);
    let ghost pv = probe;
    let r = probe_count(probe);
    assert(r == probe_count_spec(pv));
    r
}

/// The lines of an untracked file from what reading it gave: none and
/// binary when too big, none when unreadable, else the count of its bytes.
pub open spec fn probe_count_spec(probe: FileProbe) -> (u64, bool) {
    match probe {
        FileProbe::TooBig => (0, true),
        FileProbe::Unreadable => (0, false),
        FileProbe::Bytes(bytes) => line_count_spec(bytes@),
    }
}

/// The lines of an untracked file from what reading it gave.
pub fn probe_count(probe: FileProbe) -> (r: (u64, bool))
    ensures
        r == probe_count_spec(probe),
{
    match probe {
        FileProbe::TooBig => (0, true),
        FileProbe::Unreadable => (0, false),
        FileProbe::Bytes(bytes) => line_count(bytes.as_slice()),
    }
}

/// Whether the files are in the order of their paths, the earlier listed first
/// among equal paths.
pub open spec fn sorted_by_path(files: Seq<FileChange>) -> bool {
    forall|i: int, j: int|
        0 <= i && j == i + 1 && j < files.len() ==> !crate::text::lex_lt(
            (#[trigger] files[j]).path@,
            (#[trigger] files[i]).path@,
        )
}

/// Where a file with path `key` goes among sorted files: after all whose
/// path does not sort after it.
fn insert_position(out: &Vec<FileChange>, key: &[char]) -> (p: usize)
    ensures
        p <= out@.len(),
        forall|k: int| 0 <= k < p ==> !crate::text::lex_lt(key@, (#[trigger] out@[k]).path@),
        p < out@.len() ==> crate::text::lex_lt(key@, out@[p as int].path@),
{
    let mut p: usize = 0;
    while p < out.len()
        invariant
            p <= out@.len(),
            forall|k: int| 0 <= k < p ==> !crate::text::lex_lt(key@, (#[trigger] out@[k]).path@),
        decreases out@.len() - p,
    {
        if crate::text::lex_less(key, chars_of(out[p].path.as_str()).as_slice()) {
            return p;
        }
        p = p + 1;
    }
    p
}

/// The files in the order of their paths (a stable sort).
pub fn sort_by_path(files: Vec<FileChange>) -> (r: Vec<FileChange>)
    ensures
        r@.len() == files@.len(),
        sorted_by_path(r@),
        r@.to_multiset() == files@.to_multiset(),
{
    let mut out: Vec<FileChange> = Vec::new();
    let mut rest = files;
    let ghost all = rest@;
    proof {
        broadcast use vstd::seq_lib::group_to_multiset_ensures;
        assert(rest@.to_multiset() =~= all.to_multiset());
    }
    while rest.len() > 0
        invariant
            sorted_by_path(out@),
            out@.to_multiset().add(rest@.to_multiset()) == all.to_multiset(),
            out@.len() + rest@.len() == all.len(),
        decreases rest@.len(),
    {
        let ghost rest_before = rest@;
        let x = rest.remove(0);
        let key = chars_of(x.path.as_str());
        let p = insert_position(&out, key.as_slice());
        let ghost out_before = out@;
        out.insert(p, x);
        proof {
            broadcast use vstd::seq_lib::group_to_multiset_ensures;
            assert forall|i: int, j: int| 0 <= i && j == i + 1 && j < out@.len() implies !crate::text::lex_lt(
                (#[trigger] out@[j]).path@,
                (#[trigger] out@[i]).path@,
            ) by {
                if i + 1 < p {
                    assert(out@[i] == out_before[i] && out@[i + 1] == out_before[i + 1]);
                } else if i + 1 == p {
                    assert(out@[i] == out_before[i]);
                    assert(out@[i + 1] == x);
                    crate::text::lemma_lex_total(key@, out_before[i].path@);
                    crate::text::lemma_lex_irreflexive(key@);
                } else if i == p {
                    assert(out@[i] == x);
                    assert(out@[i + 1] == out_before[p as int]);
                    crate::text::lemma_lex_total(key@, out_before[p as int].path@);
                    lemma_lex_asym(key@, out_before[p as int].path@);
                } else {
                    assert(out@[i] == out_before[i - 1] && out@[i + 1] == out_before[i]);
                }
            }
            assert(rest_before =~= seq![x] + rest@);
            assert(out@ =~= out_before.insert(p as int, x));
            out_before.insert_ensures(p as int, x);
            lemma_insert_multiset(out_before, p as int, x);
            assert(rest_before.to_multiset() =~= rest@.to_multiset().insert(x)) by {
                lemma_cons_multiset(x, rest@);
            }
            assert(out@.to_multiset().add(rest@.to_multiset()) =~= out_before.to_multiset().add(
                rest_before.to_multiset(),
            ));
        }
    }
    proof {
        broadcast use vstd::seq_lib::group_to_multiset_ensures;
        assert(rest@.to_multiset() =~= vstd::multiset::Multiset::empty());
        assert(out@.to_multiset().add(vstd::multiset::Multiset::empty()) =~= out@.to_multiset());
    }
    out
}

pub(crate) proof fn lemma_lex_asym(a: Seq<char>, b: Seq<char>)
    requires
        crate::text::lex_lt(a, b),
    ensures
        !crate::text::lex_lt(b, a),
{
    let k = choose|k: int|
        0 <= k <= a.len() && k <= b.len() && #[trigger] a.take(k) == b.take(k) && ((k < a.len()
            && k < b.len() && a[k] < b[k]) || (k == a.len() && k < b.len()));
    if crate::text::lex_lt(b, a) {
        let j = choose|j: int|
            0 <= j <= b.len() && j <= a.len() && #[trigger] b.take(j) == a.take(j) && ((j
                < b.len() && j < a.len() && b[j] < a[j]) || (j == b.len() && j < a.len()));
        if j < k {
            assert(a.take(k)[j] == b.take(k)[j]);
        } else if k < j {
            assert(a.take(j)[k] == b.take(j)[k]);
        }
    }
}

pub(crate) proof fn lemma_cons_multiset<A>(x: A, s: Seq<A>)
    ensures
        (seq![x] + s).to_multiset() == s.to_multiset().insert(x),
{
    broadcast use vstd::seq_lib::group_to_multiset_ensures;
    vstd::seq_lib::lemma_multiset_commutative(seq![x], s);
    assert((seq![x]).to_multiset() =~= vstd::multiset::Multiset::empty().insert(x)) by {
        assert(seq![x] =~= Seq::<A>::empty().push(x));
    }
}

pub(crate) proof fn lemma_insert_multiset<A>(s: Seq<A>, p: int, x: A)
    requires
        0 <= p <= s.len(),
    ensures
        s.insert(p, x).to_multiset() == s.to_multiset().insert(x),
{
    broadcast use vstd::seq_lib::group_to_multiset_ensures;
    let t = s.insert(p, x);
    s.insert_ensures(p, x);
    assert(t.remove(p) =~= s);
    assert(t[p] == x);
    assert(t.remove(p).to_multiset() =~= t.to_multiset().remove(x));
    assert(t.to_multiset().count(x) > 0) by {
        assert(t.contains(x));
    }
}

/// The arguments of `git diff` for one listing of the changes against
/// `base_rev`: `diff --no-ext-diff`, the kind (`--name-status` or
/// `--numstat`), `-z -M` and the base.
pub open spec fn diff_args_spec(kind: Seq<char>, base_rev: Seq<char>) -> Seq<Seq<char>> {
    seq!["diff"@, "--no-ext-diff"@, kind, "-z"@, "-M"@, base_rev]
}

/// The arguments of `git ls-files` that list the untracked files.
pub open spec fn untracked_args() -> Seq<Seq<char>> {
    seq!["ls-files"@, "--others"@, "--exclude-standard"@, "-z"@]
}

/// Whether `lines` are the counts of the untracked files `paths` of `root`,
/// each from what reading the file gave.
pub open spec fn lines_counted<R: GitRunner>(runner: &R, root: Seq<char>, paths: Seq<Seq<char>>, lines: Seq<(u64, bool)>) -> bool {
    &&& lines.len() == paths.len()
    &&& forall|k: int|
        0 <= k < lines.len() ==> line_counted(runner, crate::right_panel::join_spec(root, paths[k]), #[trigger] lines[k])
}

/// Whether `count` is the count of the file at `path` from what reading it
/// gave.
pub open spec fn line_counted<R: GitRunner>(runner: &R, path: Seq<char>, count: (u64, bool)) -> bool {
    exists|p: FileProbe| #[trigger] runner.file_answer(path, MAX_COUNTED_BYTES, p) && count == probe_count_spec(p)
}

/// Whether `r` is what listing the changes of `root` against `base_rev`
/// gives from what git answered: `git diff --name-status`, then `git diff
/// --numstat`, then `git ls-files --others`, each only when the one before
/// succeeded, and the line counts of the untracked files read.
pub open spec fn changes_answered<R: GitRunner>(runner: &R, root: Seq<char>, base_rev: Seq<char>, r: Result<Vec<FileChange>, String>) -> bool {
    exists|
        names: Result<Seq<char>, Seq<char>>,
        numbers: Result<Seq<char>, Seq<char>>,
        untracked: Result<Seq<char>, Seq<char>>,
        lines: Seq<(u64, bool)>,
    |
        #[trigger] changed_files_spec(r, names, numbers, untracked, lines) && git_said(
            runner,
            root,
            diff_args_spec("--name-status"@, base_rev),
            names,
        ) && (names is Ok ==> git_said(runner, root, diff_args_spec("--numstat"@, base_rev), numbers)) && (
        names is Ok && numbers is Ok ==> git_said(runner, root, untracked_args(), untracked)) && (untracked matches Ok(
            u,
        ) ==> names is Ok && numbers is Ok && lines_counted(runner, root, runs(u, CharClass::Nul), lines))
}

/// The arguments of `git diff` for one listing of the changes against
/// `base_rev` (see [`diff_args_spec`]).
fn diff_args(kind: &str, base_rev: &str) -> (r: Vec<String>)
    ensures
        r@.len() == 6,
        string_views(r@) == diff_args_spec(kind@, base_rev@),
{
    let mut args = strings(&["diff", "--no-ext-diff"]);
    args.push(string_of(chars_of(kind).as_slice()));
    args.push(string_of(chars_of("-z").as_slice()));
    args.push(string_of(chars_of("-M").as_slice()));
    args.push(string_of(chars_of(base_rev).as_slice()));
    assert(string_views(args@) =~= diff_args_spec(kind@, base_rev@));
    args
}

/// A tracked change read from a `--name-status` entry: its status, old path
/// and path, and the `--numstat` counts of its path (none when it has none).
pub open spec fn tracked_ok(f: FileChange, e: (char, Option<Seq<char>>, Seq<char>), counts: Seq<(Seq<char>, LineCounts)>) -> bool {
    &&& f.status == e.0
    &&& opt_view(f.old_path) == e.1
    &&& f.path@ == e.2
    &&& (f.adds, f.dels, f.binary) == match count_find(counts, e.2, 0) {
        Some(v) => v,
        None => (0u64, 0u64, false),
    }
}

/// An untracked file: status `?`, no old path, no deleted lines.
pub open spec fn untracked_ok(f: FileChange, path: Seq<char>, count: (u64, bool)) -> bool {
    &&& f.status == '?'
    &&& f.old_path is None
    &&& f.path@ == path
    &&& f.dels == 0
    &&& (f.adds, f.binary) == count
}

/// The changes listed by the outputs of `git diff --name-status -z`,
/// `git diff --numstat -z` and `git ls-files --others -z`: one tracked change
/// per name-status entry, then one untracked file per listed path.
pub open spec fn listed_changes(
    list: Seq<FileChange>,
    names: Seq<char>,
    numbers: Seq<char>,
    untracked: Seq<char>,
    lines: Seq<(u64, bool)>,
) -> bool {
    let st = name_status_spec(names);
    let counts = numstat_spec(numbers);
    let paths = runs(untracked, CharClass::Nul);
    &&& list.len() == st.len() + paths.len()
    &&& forall|i: int| 0 <= i < st.len() ==> tracked_ok(#[trigger] list[i], st[i], counts)
    &&& forall|k: int| 0 <= k < paths.len() ==> untracked_ok(#[trigger] list[st.len() + k], paths[k], lines[k])
}

/// The changed files the outputs of `git diff --name-status -z`, `git diff
/// --numstat -z` and `git ls-files --others -z` list, with the line counts
/// of the untracked files, in the order of their paths.
pub open spec fn changes_ok(
    files: Seq<FileChange>,
    names: Seq<char>,
    numbers: Seq<char>,
    untracked: Seq<char>,
    lines: Seq<(u64, bool)>,
) -> bool {
    &&& sorted_by_path(files)
    &&& exists|list: Seq<FileChange>|
        #[trigger] listed_changes(list, names, numbers, untracked, lines) && files.to_multiset() == list.to_multiset()
}

/// What listing the changes gives from the three git runs' answers (their
/// texts, or their errors) and the line counts of the untracked files: the
/// first error, else the changes they list.
pub open spec fn changed_files_spec(
    r: Result<Vec<FileChange>, String>,
    names: Result<Seq<char>, Seq<char>>,
    numbers: Result<Seq<char>, Seq<char>>,
    untracked: Result<Seq<char>, Seq<char>>,
    lines: Seq<(u64, bool)>,
) -> bool {
    match (names, numbers, untracked) {
        (Err(e), _, _) => r matches Err(m) && m@ == e,
        (Ok(_), Err(e), _) => r matches Err(m) && m@ == e,
        (Ok(_), Ok(_), Err(e)) => r matches Err(m) && m@ == e,
        (Ok(n), Ok(c), Ok(u)) => r matches Ok(f) && lines.len() == runs(u, CharClass::Nul).len() && changes_ok(
            f@,
            n,
            c,
            u,
            lines,
        ),
    }
}

/// A git answer as plain values.
pub open spec fn answer_view(a: Result<String, String>) -> Result<Seq<char>, Seq<char>> {
    match a {
        Ok(t) => Ok(t@),
        Err(e) => Err(e@),
    }
}

/// The tracked changes of name-status entries, with their counts.
fn tracked_changes(statuses: &Vec<(char, Option<String>, String)>, counts: &Vec<(String, LineCounts)>) -> (files: Vec<FileChange>)
    ensures
        files@.len() == statuses@.len(),
        forall|k: int| 0 <= k < files@.len() ==> tracked_ok(#[trigger] files@[k], status_views(statuses@)[k], count_views(counts@)),
{
    let ghost st = status_views(statuses@);
    let ghost cv = count_views(counts@);
    let mut files: Vec<FileChange> = Vec::new();
    let mut i: usize = 0;
    while i < statuses.len()
        invariant
            i <= statuses.len(),
            st == status_views(statuses@),
            cv == count_views(counts@),
            files@.len() == i,
            forall|k: int| 0 <= k < i ==> tracked_ok(#[trigger] files@[k], st[k], cv),
        decreases statuses.len() - i,
    {
        let entry = &statuses[i];
        let found = counts_for(counts, entry.2.as_str());
        let ghost before = files@;
        let (adds, dels, binary) = match found {
            Some(v) => v,
            None => (0, 0, false),
        };
        let change = FileChange {
            path: entry.2.clone(),
            old_path: crate::sessions::duplicate_option(&entry.1),
            status: entry.0,
            adds,
            dels,
            binary,
        };
        assert(tracked_ok(change, st[i as int], cv));
        files.push(change);
        assert(files@ == before.push(change));
        proof {
            vstd::seq::axiom_seq_push_len(before, change);
            vstd::seq::axiom_seq_push_index_same(before, change, i as int);
        }
        assert(tracked_ok(files@[i as int], st[i as int], cv));
        assert forall|k: int| 0 <= k < i + 1 implies tracked_ok(#[trigger] files@[k], st[k], cv) by {
            if k < i {
                assert(files@[k] == before[k]);
            }
        }
        i = i + 1;
    }
    files
}

/// The changed files listed by the outputs of the three git runs, with the
/// line counts of the untracked files (one per listed path).
pub fn changes_from(names: &str, numbers: &str, untracked: &str, lines: &Vec<(u64, bool)>) -> (r: Vec<FileChange>)
    requires
        lines@.len() == runs(untracked@, CharClass::Nul).len(),
    ensures
        changes_ok(r@, names@, numbers@, untracked@, lines@),
{
    let statuses = parse_name_status(names);
    let counts = parse_numstat(numbers);
    let ghost st = name_status_spec(names@);
    let ghost cv = numstat_spec(numbers@);
    let mut files = tracked_changes(&statuses, &counts);
    let paths = split_runs(chars_of(untracked).as_slice(), CharClass::Nul);
    let ghost pv = runs(untracked@, CharClass::Nul);
    let mut k: usize = 0;
    while k < paths.len()
        invariant
            k <= paths.len(),
            views(paths@) == pv,
            lines@.len() == pv.len(),
            files@.len() == st.len() + k,
            forall|j: int| 0 <= j < st.len() ==> tracked_ok(#[trigger] files@[j], st[j], cv),
            forall|j: int| 0 <= j < k ==> untracked_ok(#[trigger] files@[st.len() + j], pv[j], lines@[j]),
        decreases paths.len() - k,
    {
        let ghost before = files@;
        let (adds, binary) = lines[k];
        files.push(
            FileChange {
                path: string_of(paths[k].as_slice()),
                old_path: None,
                status: '?',
                adds,
                dels: 0,
                binary,
            },
        );
        proof {
            assert(views(paths@)[k as int] == paths@[k as int]@);
            assert(untracked_ok(files@[st.len() + k], pv[k as int], lines@[k as int]));
            assert forall|j: int| 0 <= j < st.len() implies tracked_ok(#[trigger] files@[j], st[j], cv) by {
                assert(files@[j] == before[j]);
            }
            assert forall|j: int| 0 <= j < k + 1 implies untracked_ok(
                #[trigger] files@[st.len() + j],
                pv[j],
                lines@[j],
            ) by {
                if j < k {
                    assert(files@[st.len() + j] == before[st.len() + j]);
                }
            }
        }
        k = k + 1;
    }
    assert(listed_changes(files@, names@, numbers@, untracked@, lines@));
    sort_by_path(files)
}

/// The changed files of `root` against `base_rev`: the tracked changes (with
/// their counts from `--numstat`, none when it has none) and the untracked
/// files (status `?`, their lines counted), in the order of their paths; the
/// error of the first git run that fails.
pub fn changed_files<R: GitRunner>(runner: &R, root: &str, base_rev: &str) -> (r: Result<
    Vec<FileChange>,
    String,
>)
    ensures
        changes_answered(runner, root@, base_rev@, r),
{
    let names = git(runner, root, &diff_args("--name-status", base_rev));
    let ghost nv = answer_view(names);
    let names = match names {
        Ok(t) => t,
        Err(e) => {
            let r: Result<Vec<FileChange>, String> = Err(e);
            assert(changed_files_spec(r, Err(e@), Err(e@), Err(e@), Seq::empty()));
            assert(git_said(runner, root@, diff_args_spec("--name-status"@, base_rev@), Err(e@)));
            return r;
        },
    };
    let numbers = git(runner, root, &diff_args("--numstat", base_rev));
    let numbers = match numbers {
        Ok(t) => t,
        Err(e) => {
            let r: Result<Vec<FileChange>, String> = Err(e);
            assert(changed_files_spec(r, Ok(names@), Err(e@), Err(e@), Seq::empty()));
            assert(git_said(runner, root@, diff_args_spec("--name-status"@, base_rev@), Ok(names@)));
            assert(git_said(runner, root@, diff_args_spec("--numstat"@, base_rev@), Err(e@)));
            return r;
        },
    };
    let ls = strings(&["ls-files", "--others", "--exclude-standard", "-z"]);
    assert(string_views(ls@) =~= untracked_args());
    let untracked = git(runner, root, &ls);
    let untracked = match untracked {
        Ok(t) => t,
        Err(e) => {
            let r: Result<Vec<FileChange>, String> = Err(e);
            assert(changed_files_spec(r, Ok(names@), Ok(numbers@), Err(e@), Seq::empty()));
            assert(git_said(runner, root@, diff_args_spec("--name-status"@, base_rev@), Ok(names@)));
            assert(git_said(runner, root@, diff_args_spec("--numstat"@, base_rev@), Ok(numbers@)));
            assert(git_said(runner, root@, untracked_args(), Err(e@)));
            return r;
        },
    };
    let paths = split_runs(chars_of(untracked.as_str()).as_slice(), CharClass::Nul);
    let ghost pv = runs(untracked@, CharClass::Nul);
    let root_chars = chars_of(root);
    let mut lines: Vec<(u64, bool)> = Vec::new();
    let mut k: usize = 0;
    while k < paths.len()
        invariant
            k <= paths.len(),
            lines@.len() == k,
            views(paths@) == pv,
            root_chars@ == root@,
            forall|j: int|
                0 <= j < k ==> line_counted(runner, crate::right_panel::join_spec(root@, pv[j]), #[trigger] lines@[j]),
        decreases paths.len() - k,
    {
        let full = crate::right_panel::join_path(root_chars.as_slice(), paths[k].as_slice());
        let counted = count_lines(runner, string_of(full.as_slice()).as_str());
        proof {
            assert(views(paths@)[k as int] == paths@[k as int]@);
        }
        let ghost before = lines@;
        lines.push(counted);
        proof {
            assert forall|j: int|
                0 <= j < k + 1 implies line_counted(runner, crate::right_panel::join_spec(root@, pv[j]), #[trigger] lines@[j]) by {
                if j == k {
                    assert(full@ == crate::right_panel::join_spec(root@, pv[j]));
                    assert(line_counted(runner, full@, counted));
                } else {
                    assert(lines@[j] == before[j]);
                }
            }
        }
        k = k + 1;
    }
    let files = changes_from(names.as_str(), numbers.as_str(), untracked.as_str(), &lines);
    let r: Result<Vec<FileChange>, String> = Ok(files);
    assert(changed_files_spec(r, Ok(names@), Ok(numbers@), Ok(untracked@), lines@));
    assert(git_said(runner, root@, diff_args_spec("--name-status"@, base_rev@), Ok(names@)));
    assert(git_said(runner, root@, diff_args_spec("--numstat"@, base_rev@), Ok(numbers@)));
    assert(git_said(runner, root@, untracked_args(), Ok(untracked@)));
    assert(lines_counted(runner, root@, pv, lines@));
    r
}

/// A repository's changes from what was found: its branch, its base (or the
/// error that stopped it) and, with a base, the listing of its changed files
/// (or the error of the listing).
pub open spec fn repo_spec(
    r: RepoDiff,
    root: Seq<char>,
    branch: Option<String>,
    base: Result<(String, String), String>,
    listed: Option<Result<Vec<FileChange>, String>>,
) -> bool {
    &&& r.root@ == root
    &&& r.branch == branch
    &&& match base {
        Err(e) => r.base_label@.len() == 0 && r.base_rev@.len() == 0 && r.files@.len() == 0 && r.error == Some(e),
        Ok((label, rev)) => r.base_label == label && r.base_rev == rev && match listed {
            Some(Ok(files)) => r.files == files && r.error is None,
            Some(Err(e)) => r.files@.len() == 0 && r.error == Some(e),
            None => false,
        },
    }
}

/// A repository's changes from what was found (see [`repo_spec`]).
pub fn repo_from(
    root: &str,
    branch: Option<String>,
    base: Result<(String, String), String>,
    listed: Option<Result<Vec<FileChange>, String>>,
) -> (r: RepoDiff)
    requires
        base is Ok ==> listed is Some,
    ensures
        repo_spec(r, root@, branch, base, listed),
{
    let mut repo = RepoDiff {
        root: string_of(chars_of(root).as_slice()),
        branch,
        base_label: String::new(),
        base_rev: String::new(),
        files: Vec::new(),
        error: None,
    };
    match base {
        Ok((label, rev)) => {
            repo.base_label = label;
            repo.base_rev = rev;
            match listed {
                Some(Ok(files)) => repo.files = files,
                Some(Err(e)) => repo.error = Some(e),
                None => {},
            }
        },
        Err(e) => repo.error = Some(e),
    }
    repo
}

/// The changes of the repository at `root` in `mode`: its branch, the base it
/// is compared with, and its changed files, or the error that stopped the
/// listing.
pub fn load_repo<R: GitRunner>(runner: &R, root: &str, mode: Mode) -> (r: RepoDiff)
    ensures
        exists|
            branch: Option<String>,
            base: Result<(String, String), String>,
            listed: Option<Result<Vec<FileChange>, String>>,
        |
            #[trigger] repo_spec(r, root@, branch, base, listed) && branch_spec(runner, root@, branch) && (
            exists|head: bool, found: Option<Seq<char>>, merge: Result<Seq<char>, Seq<char>>|
                #[trigger] base_spec(base, mode, head, found, merge) && base_answered(
                    runner,
                    root@,
                    mode,
                    head,
                    found,
                    merge,
                )) && match base {
                Ok((_, rev)) => listed matches Some(l) && changes_answered(runner, root@, rev@, l),
                Err(_) => listed is None,
            },
{
    let branch = current_branch(runner, root);
    let ghost bv = branch;
    let base = resolve_base(runner, root, mode);
    let listed = match &base {
        Ok((_, rev)) => Some(changed_files(runner, root, rev.as_str())),
        Err(_) => None,
    };
    let ghost basev = base;
    let ghost lv = listed;
    let r = repo_from(root, branch, base, listed);
    assert(repo_spec(r, root@, bv, basev, lv));
    r
}

/// What `git diff` of one file gives: its output when it succeeded, or for
/// an untracked file when it exited with 1 (files differ); else its error
/// output, trimmed.
pub open spec fn diff_outcome_spec(out: GitOutput, untracked: bool) -> Result<Seq<u8>, Seq<char>> {
    if out.success || (untracked && out.code == Some(1i32)) {
        Ok(out.stdout@)
    } else {
        Err(trim_spec(utf8_lossy(out.stderr@)))
    }
}

/// What `git diff` of one file gives.
pub fn diff_outcome(out: GitOutput, untracked: bool) -> (r: Result<Vec<u8>, String>)
    ensures
        r matches Ok(bytes) ==> diff_outcome_spec(out, untracked) == Ok::<Seq<u8>, Seq<char>>(bytes@),
        r matches Err(e) ==> diff_outcome_spec(out, untracked) == Err::<Seq<u8>, Seq<char>>(e@),
{
    let expected = out.success || (untracked && match out.code {
        Some(c) => c == 1,
        None => false,
    });
    if expected {
        return Ok(out.stdout);
    }
    let text = from_utf8_lossy(out.stderr.as_slice());
    Err(string_of(trim(chars_of(text.as_str()).as_slice()).as_slice()))
}

/// The arguments of `git diff` for one file against `base_rev`: colored or
/// not, `-M`; an untracked file compared with `/dev/null` (`--no-index`), a
/// tracked one against the base, with its old path first when renamed.
pub open spec fn file_diff_args(base_rev: Seq<char>, file: FileChange, color: bool) -> Seq<Seq<char>> {
    let head = seq![
        "diff"@,
        "--no-ext-diff"@,
        if color {
            "--color=always"@
        } else {
            "--color=never"@
        },
        "-M"@,
    ];
    if file.status == '?' {
        head + seq!["--no-index"@, "--"@, "/dev/null"@, file.path@]
    } else {
        head + seq![base_rev, "--"@] + match file.old_path {
            Some(old) => seq![old@],
            None => Seq::<Seq<char>>::empty(),
        } + seq![file.path@]
    }
}

/// What the diff of one file gives from git's answer: its output (or its
/// error output, see [`diff_outcome_spec`]), or `git: ` and the reason when
/// git could not be started.
pub open spec fn file_diff_spec(answer: Result<GitOutput, String>, untracked: bool) -> Result<Seq<u8>, Seq<char>> {
    match answer {
        Ok(out) => diff_outcome_spec(out, untracked),
        Err(e) => Err("git: "@ + e@),
    }
}

/// The diff of one file against `base_rev`, colored or not: an untracked file
/// is compared with `/dev/null`; a renamed one names its old path too.
pub fn raw_file_diff<R: GitRunner>(
    runner: &R,
    root: &str,
    base_rev: &str,
    file: &FileChange,
    color: bool,
) -> (r: Result<Vec<u8>, String>)
    ensures
        exists|a: Result<GitOutput, String>|
            #[trigger] runner.git_answer(root@, file_diff_args(base_rev@, *file, color), a) && file_diff_spec(
                a,
                file.status == '?',
            ) == match r {
                Ok(bytes) => Ok::<Seq<u8>, Seq<char>>(bytes@),
                Err(e) => Err::<Seq<u8>, Seq<char>>(e@),
            },
{
    let mut args = strings(&["diff", "--no-ext-diff"]);
    args.push(string_of(chars_of(if color {
        "--color=always"
    } else {
        "--color=never"
    }).as_slice()));
    args.push(string_of(chars_of("-M").as_slice()));
    let untracked = file.status == '?';
    if untracked {
        args.push(string_of(chars_of("--no-index").as_slice()));
        args.push(string_of(chars_of("--").as_slice()));
        args.push(string_of(chars_of("/dev/null").as_slice()));
        args.push(file.path.clone());
    } else {
        args.push(string_of(chars_of(base_rev).as_slice()));
        args.push(string_of(chars_of("--").as_slice()));
        if let Some(old) = &file.old_path {
            args.push(old.clone());
        }
        args.push(file.path.clone());
    }
    assert(string_views(args@) =~= file_diff_args(base_rev@, *file, color));
    let answer = runner.run_git(root, &args);
    let ghost a = answer;
    match answer {
        Ok(out) => diff_outcome(out, untracked),
        Err(e) => {
            let mut msg = chars_of("git: ");
            extend_chars(&mut msg, chars_of(e.as_str()).as_slice());
            let r = string_of(msg.as_slice());
            assert(r@ == "git: "@ + e@);
            Err(r)
        },
    }
}

/// The arguments of `git diff` that give the hunks of `path` against
/// `base_rev`, without context.
pub open spec fn hunk_args(base_rev: Seq<char>, path: Seq<char>) -> Seq<Seq<char>> {
    seq!["diff"@, "--no-ext-diff"@, "--color=never"@, "-U0"@, base_rev, "--"@, path]
}

/// The line to open a changed file at: 1 for an untracked file, else where
/// its first hunk starts (1 when that cannot be read).
pub fn first_changed_line<R: GitRunner>(runner: &R, root: &str, base_rev: &str, file: &FileChange) -> (r: u32)
    ensures
        r >= 1,
        file.status == '?' ==> r == 1,
        file.status != '?' ==> exists|t: Result<Seq<char>, Seq<char>>|
            #[trigger] git_said(runner, root@, hunk_args(base_rev@, file.path@), t) && r == match t {
                Ok(text) => match first_hunk_line_spec(text) {
                    Some(line) => line,
                    None => 1u32,
                },
                Err(_) => 1u32,
            },
{
    if file.status == '?' {
        return 1;
    }
    let mut args = strings(&["diff", "--no-ext-diff", "--color=never", "-U0"]);
    args.push(string_of(chars_of(base_rev).as_slice()));
    args.push(string_of(chars_of("--").as_slice()));
    args.push(file.path.clone());
    assert(string_views(args@) =~= hunk_args(base_rev@, file.path@));
    let answer = git(runner, root, &args);
    let ghost t = answer_view(answer);
    let r = match answer {
        Ok(text) => match parse_first_hunk_line(text.as_str()) {
            Some(line) => line,
            None => 1,
        },
        Err(_) => 1,
    };
    assert(git_said(runner, root@, hunk_args(base_rev@, file.path@), t));
    r
}

} // verus!
