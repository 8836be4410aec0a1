//! Reading the report of the worktree garbage collector: which worktrees it
//! would remove, which are orphans, and its summary line.

use vstd::prelude::*;

use crate::split::{
    contains_spec,
    join_parts,
    join_with,
    opt_view,
    pieces,
    split_pieces,
    split_runs,
    string_views,
    views,
    words,
};
use crate::diff::{from_utf8_lossy, utf8_lossy};
use crate::text::{
    chars_of,
    decimal,
    decimal_spec,
    extend_chars,
    find_from,
    has_prefix,
    slice_chars,
    starts_with,
    string_of,
    trim,
    trim_spec,
    CharClass,
};

verus! {

/// What the collector reported: its summary line, the worktrees it can remove,
/// the orphans, and every non-empty line of its output.
#[derive(Debug, Clone, PartialEq, Eq)]
pub struct GcReport {
    pub summary: Option<String>,
    pub removable: Vec<String>,
    pub orphans: Vec<String>,
    pub lines: Vec<String>,
}

/// A report as plain text values.
pub struct GcView {
    pub summary: Option<Seq<char>>,
    pub removable: Seq<Seq<char>>,
    pub orphans: Seq<Seq<char>>,
    pub lines: Seq<Seq<char>>,
}

impl View for GcReport {
    type V = GcView;

    open spec fn view(&self) -> GcView {
        GcView {
            summary: opt_view(self.summary),
            removable: string_views(self.removable@),
            orphans: string_views(self.orphans@),
            lines: string_views(self.lines@),
        }
    }
}

impl GcReport {
    /// Whether there is anything to collect.
    pub fn has_work(&self) -> (r: bool)
        ensures
            r == (self.removable@.len() > 0 || self.orphans@.len() > 0),
    {
        self.removable.len() > 0 || self.orphans.len() > 0
    }
}

/// The collector's command line: `base` trimmed, with `--apply` when applying.
pub open spec fn command_spec(base: Seq<char>, apply: bool) -> Seq<char> {
    if apply {
        trim_spec(base) + " --apply"@
    } else {
        trim_spec(base)
    }
}

/// The collector's command line.
pub fn command(base: &str, apply: bool) -> (r: String)
    ensures
        r@ == command_spec(base@, apply),
{
    let mut out = trim(chars_of(base).as_slice());
    if apply {
        let flag = chars_of(" --apply");
        extend_chars(&mut out, flag.as_slice());
    }
    string_of(out.as_slice())
}

/// The words of `text` joined by two spaces.
pub open spec fn squash_spec(text: Seq<char>) -> Seq<char> {
    join_with(words(text), "  "@)
}

/// The words of `text` joined by two spaces.
pub fn squash(text: &str) -> (r: String)
    ensures
        r@ == squash_spec(text@),
{
    let chars = chars_of(text);
    string_of(squash_chars(chars.as_slice()).as_slice())
}

fn squash_chars(text: &[char]) -> (r: Vec<char>)
    ensures
        r@ == squash_spec(text@),
{
    let parts = split_runs(text, CharClass::Whitespace);
    let sep = chars_of("  ");
    join_parts(&parts, sep.as_slice())
}

/// Where a control sequence that starts at `j` (after `ESC [`) ends: after its
/// final character in `@..=~`, or at the end of the text.
pub open spec fn csi_end(s: Seq<char>, j: int) -> int
    decreases s.len() - j,
{
    if j < 0 || j >= s.len() {
        s.len() as int
    } else if '@' <= s[j] && s[j] <= '~' {
        j + 1
    } else {
        csi_end(s, j + 1)
    }
}

/// Where an operating-system command that starts at `j` (after `ESC ]`) ends:
/// after a bell, after `ESC \`, or at the end of the text.
pub open spec fn osc_end(s: Seq<char>, j: int) -> int
    decreases s.len() - j,
{
    if j < 0 || j >= s.len() {
        s.len() as int
    } else if s[j] == '\u{7}' {
        j + 1
    } else if s[j] == '\u{1b}' && j + 1 < s.len() && s[j + 1] == '\\' {
        j + 2
    } else {
        osc_end(s, j + 1)
    }
}

/// Where the escape sequence whose `ESC` stands at `i` ends.
pub open spec fn escape_end(s: Seq<char>, i: int) -> int {
    if i + 1 >= s.len() {
        s.len() as int
    } else if s[i + 1] == '[' {
        csi_end(s, i + 2)
    } else if s[i + 1] == ']' {
        osc_end(s, i + 2)
    } else if s[i + 1] == '(' || s[i + 1] == ')' || s[i + 1] == '*' || s[i + 1] == '+' {
        if i + 3 <= s.len() {
            i + 3
        } else {
            s.len() as int
        }
    } else {
        i + 2
    }
}

proof fn lemma_csi_end(s: Seq<char>, j: int)
    requires
        0 <= j,
    ensures
        j <= csi_end(s, j) <= s.len() || (j > s.len() && csi_end(s, j) == s.len()),
        j < s.len() ==> j < csi_end(s, j),
    decreases s.len() - j,
{
    if j < s.len() && !('@' <= s[j] && s[j] <= '~') {
        lemma_csi_end(s, j + 1);
    }
}

proof fn lemma_osc_end(s: Seq<char>, j: int)
    requires
        0 <= j,
    ensures
        j <= osc_end(s, j) <= s.len() || (j > s.len() && osc_end(s, j) == s.len()),
        j < s.len() ==> j < osc_end(s, j),
    decreases s.len() - j,
{
    if j < s.len() && s[j] != '\u{7}' && !(s[j] == '\u{1b}' && j + 1 < s.len() && s[j + 1]
        == '\\') {
        lemma_osc_end(s, j + 1);
    }
}

proof fn lemma_escape_end(s: Seq<char>, i: int)
    requires
        0 <= i < s.len(),
    ensures
        i < escape_end(s, i) <= s.len(),
{
    lemma_csi_end(s, i + 2);
    lemma_osc_end(s, i + 2);
}

/// The text from `i` on without its escape sequences.
pub open spec fn strip_ansi_from(s: Seq<char>, i: int) -> Seq<char>
    decreases s.len() - i,
{
    if i < 0 || i >= s.len() {
        Seq::empty()
    } else if s[i] != '\u{1b}' {
        seq![s[i]] + strip_ansi_from(s, i + 1)
    } else if i < escape_end(s, i) <= s.len() {
        strip_ansi_from(s, escape_end(s, i))
    } else {
        Seq::empty()
    }
}

/// `text` without its terminal escape sequences: control sequences
/// (`ESC [` .. a final character in `@..=~`), operating-system commands
/// (`ESC ]` .. a bell or `ESC \`), character-set selections (`ESC` and one of
/// `()*+` and one more character) and any other `ESC` with the character after
/// it.
pub open spec fn strip_ansi_spec(text: Seq<char>) -> Seq<char> {
    strip_ansi_from(text, 0)
}

fn escape_end_exec(s: &[char], i: usize) -> (r: usize)
    requires
        i < s.len(),
    ensures
        r == escape_end(s@, i as int),
{
    if i + 1 >= s.len() {
        return s.len();
    }
    let c = s[i + 1];
    if c == '[' {
        let mut j = i + 2;
        while j < s.len()
            invariant
                i + 2 <= j <= s.len(),
                i + 1 < s.len(),
                s@[i + 1] == '[',
                csi_end(s@, j as int) == csi_end(s@, i + 2),
            decreases s.len() - j,
        {
            if '@' <= s[j] && s[j] <= '~' {
                return j + 1;
            }
            j = j + 1;
        }
        s.len()
    } else if c == ']' {
        let mut j = i + 2;
        while j < s.len()
            invariant
                i + 2 <= j <= s.len(),
                i + 1 < s.len(),
                s@[i + 1] == ']',
                osc_end(s@, j as int) == osc_end(s@, i + 2),
            decreases s.len() - j,
        {
            if s[j] == '\u{7}' {
                return j + 1;
            }
            if s[j] == '\u{1b}' && j + 1 < s.len() && s[j + 1] == '\\' {
                return j + 2;
            }
            j = j + 1;
        }
        s.len()
    } else if c == '(' || c == ')' || c == '*' || c == '+' {
        if s.len() - i >= 3 {
            i + 3
        } else {
            s.len()
        }
    } else {
        i + 2
    }
}

fn strip_ansi_chars(s: &[char]) -> (r: Vec<char>)
    ensures
        r@ == strip_ansi_spec(s@),
{
    let mut out: Vec<char> = Vec::new();
    let mut i: usize = 0;
    while i < s.len()
        invariant
            i <= s.len(),
            out@ + strip_ansi_from(s@, i as int) == strip_ansi_spec(s@),
        decreases s.len() - i,
    {
        if s[i] != '\u{1b}' {
            let ghost before = out@;
            out.push(s[i]);
            assert(out@ + strip_ansi_from(s@, i + 1) =~= before + (seq![s@[i as int]]
                + strip_ansi_from(s@, i + 1)));
            i = i + 1;
        } else {
            proof {
                lemma_escape_end(s@, i as int);
            }
            i = escape_end_exec(s, i);
        }
    }
    assert(out@ + strip_ansi_from(s@, i as int) =~= out@);
    out
}

/// `text` without its terminal escape sequences.
pub fn strip_ansi(text: &str) -> (r: String)
    ensures
        r@ == strip_ansi_spec(text@),
{
    let chars = chars_of(text);
    string_of(strip_ansi_chars(chars.as_slice()).as_slice())
}

/// A report with nothing in it.
pub open spec fn empty_report() -> GcView {
    GcView {
        summary: None,
        removable: Seq::empty(),
        orphans: Seq::empty(),
        lines: Seq::empty(),
    }
}

/// The report after one more output line: a non-empty trimmed line is kept; a
/// `LIXO ` line names a removable worktree, an `ORFA ` line an orphan, and a
/// line about worktrees (` worktrees | ` or ` worktrees removidas`) is the
/// summary.
pub open spec fn gc_step(r: GcView, line: Seq<char>) -> GcView {
    let t = trim_spec(line);
    if t.len() == 0 {
        r
    } else {
        let kept = GcView { lines: r.lines.push(t), ..r };
        if has_prefix(t, "LIXO "@) {
            GcView { removable: kept.removable.push(squash_spec(t.skip("LIXO "@.len() as int))), ..kept }
        } else if has_prefix(t, "ORFA "@) {
            GcView { orphans: kept.orphans.push(squash_spec(t.skip("ORFA "@.len() as int))), ..kept }
        } else if contains_spec(t, " worktrees | "@) || contains_spec(t, " worktrees removidas"@) {
            GcView { summary: Some(t), ..kept }
        } else {
            kept
        }
    }
}

/// The report of a list of output lines.
pub open spec fn gc_fold(lines: Seq<Seq<char>>) -> GcView
    decreases lines.len(),
{
    if lines.len() == 0 {
        empty_report()
    } else {
        gc_step(gc_fold(lines.drop_last()), lines.last())
    }
}

/// The report of the collector's output `raw`, escape sequences removed.
pub open spec fn parse_spec(raw: Seq<char>) -> GcView {
    gc_fold(pieces(strip_ansi_spec(raw), CharClass::Newline))
}

/// Whether `pat` occurs in `s`.
fn contains_chars(s: &[char], pat: &[char]) -> (r: bool)
    ensures
        r == contains_spec(s@, pat@),
{
    find_from(s, pat, 0).is_some()
}

/// Reads the collector's output.
pub fn parse(raw: &str) -> (r: GcReport)
    ensures
        r@ == parse_spec(raw@),
{
    let chars = chars_of(raw);
    let text = strip_ansi_chars(chars.as_slice());
    let lines = split_pieces(text.as_slice(), CharClass::Newline);
    let lixo = chars_of("LIXO ");
    let orfa = chars_of("ORFA ");
    let table = chars_of(" worktrees | ");
    let removed = chars_of(" worktrees removidas");
    let mut report = GcReport {
        summary: None,
        removable: Vec::new(),
        orphans: Vec::new(),
        lines: Vec::new(),
    };
    let mut i: usize = 0;
    assert(report@.removable =~= Seq::<Seq<char>>::empty());
    assert(report@.orphans =~= Seq::<Seq<char>>::empty());
    assert(report@.lines =~= Seq::<Seq<char>>::empty());
    assert(views(lines@).take(0) =~= Seq::<Seq<char>>::empty());
    while i < lines.len()
        invariant
            i <= lines.len(),
            views(lines@) == pieces(strip_ansi_spec(raw@), CharClass::Newline),
            lixo@ == "LIXO "@,
            orfa@ == "ORFA "@,
            table@ == " worktrees | "@,
            removed@ == " worktrees removidas"@,
            report@ == gc_fold(views(lines@).take(i as int)),
        decreases lines.len() - i,
    {
        let ghost prev = report@;
        let t = trim(lines[i].as_slice());
        proof {
            let next = views(lines@).take(i + 1);
            assert(next.drop_last() =~= views(lines@).take(i as int));
            assert(next.last() == lines@[i as int]@);
        }
        if t.len() > 0 {
            report.lines.push(string_of(t.as_slice()));
            if starts_with(t.as_slice(), lixo.as_slice()) {
                let rest = slice_chars(t.as_slice(), lixo.len(), t.len());
                assert(rest@ =~= t@.skip("LIXO "@.len() as int));
                report.removable.push(string_of(squash_chars(rest.as_slice()).as_slice()));
            } else if starts_with(t.as_slice(), orfa.as_slice()) {
                let rest = slice_chars(t.as_slice(), orfa.len(), t.len());
                assert(rest@ =~= t@.skip("ORFA "@.len() as int));
                report.orphans.push(string_of(squash_chars(rest.as_slice()).as_slice()));
            } else if contains_chars(t.as_slice(), table.as_slice()) || contains_chars(
                t.as_slice(),
                removed.as_slice(),
            ) {
                report.summary = Some(string_of(t.as_slice()));
            }
        }
        assert(report@.lines =~= gc_step(prev, lines@[i as int]@).lines);
        assert(report@.removable =~= gc_step(prev, lines@[i as int]@).removable);
        assert(report@.orphans =~= gc_step(prev, lines@[i as int]@).orphans);
        i = i + 1;
    }
    assert(views(lines@).take(lines.len() as int) =~= views(lines@));
    report
}

} // verus!

verus! {

/// What the collector wrote, as one text: its output, then its error output
/// (on a line of its own) when that holds more than white space.
pub open spec fn gc_text_spec(out: Seq<char>, err: Seq<char>) -> Seq<char> {
    if trim_spec(err).len() == 0 {
        out
    } else if out.len() > 0 && out.last() != '\n' {
        out + "\n"@ + err
    } else {
        out + err
    }
}

/// An exit code as text: its decimal number, or `sinal` when a signal ended
/// the run.
pub open spec fn exit_code_spec(code: Option<i32>) -> Seq<char> {
    match code {
        Some(c) => if c < 0 {
            "-"@ + decimal_spec((-c) as nat)
        } else {
            decimal_spec(c as nat)
        },
        None => "sinal"@,
    }
}

/// The last three lines, or all when there are fewer.
pub open spec fn last_three(lines: Seq<Seq<char>>) -> Seq<Seq<char>> {
    if lines.len() > 3 {
        lines.skip(lines.len() - 3)
    } else {
        lines
    }
}

/// The error of a failed collector run: the command and its exit code, then
/// its last three report lines joined by ` · `, when there are any.
pub open spec fn gc_failure_spec(command: Seq<char>, code: Option<i32>, lines: Seq<Seq<char>>) -> Seq<char> {
    let head = "`"@ + command + "` saiu com "@ + exit_code_spec(code);
    let tail = join_with(last_three(lines), " · "@);
    if tail.len() == 0 {
        head
    } else {
        head + ": "@ + tail
    }
}

/// What a collector run gives: the report of its output when it succeeded,
/// else the failure.
pub open spec fn gc_outcome_spec(stdout: Seq<u8>, stderr: Seq<u8>, success: bool, code: Option<i32>, command: Seq<char>) -> Result<GcView, Seq<char>> {
    let report = parse_spec(gc_text_spec(utf8_lossy(stdout), utf8_lossy(stderr)));
    if success {
        Ok(report)
    } else {
        Err(gc_failure_spec(command, code, report.lines))
    }
}

/// How a command ran: whether it succeeded, its exit code (none when a signal
/// ended it), and what it wrote to its output and error output.
pub struct CommandOutput {
    pub success: bool,
    pub code: Option<i32>,
    pub stdout: Vec<u8>,
    pub stderr: Vec<u8>,
}

/// What running the collector `command` gave: the outcome of the run, or,
/// when it could not be started, `não foi possível rodar`, the command in
/// backquotes and the reason.
pub open spec fn gc_run_spec(command: Seq<char>, run: Result<CommandOutput, String>) -> Result<GcView, Seq<char>> {
    match run {
        Ok(out) => gc_outcome_spec(out.stdout@, out.stderr@, out.success, out.code, command),
        Err(e) => Err("não foi possível rodar `"@ + command + "`: "@ + e@),
    }
}

/// What running the collector `command` gave (see [`gc_run_spec`]).
pub fn gc_run_result(command: &str, run: Result<CommandOutput, String>) -> (r: Result<GcReport, String>)
    ensures
        r matches Ok(rep) ==> gc_run_spec(command@, run) == Ok::<GcView, Seq<char>>(rep@),
        r matches Err(e) ==> gc_run_spec(command@, run) == Err::<GcView, Seq<char>>(e@),
{
    match run {
        Ok(out) => gc_outcome(out.stdout.as_slice(), out.stderr.as_slice(), out.success, out.code, command),
        Err(e) => {
            let mut msg = chars_of("não foi possível rodar `");
            extend_chars(&mut msg, chars_of(command).as_slice());
            extend_chars(&mut msg, chars_of("`: ").as_slice());
            extend_chars(&mut msg, chars_of(e.as_str()).as_slice());
            Err(string_of(msg.as_slice()))
        },
    }
}

/// An exit code as text.
fn exit_code_text(code: Option<i32>) -> (r: Vec<char>)
    ensures
        r@ == exit_code_spec(code),
{
    match code {
        Some(c) => {
            let wide: i64 = c as i64;
            if wide < 0 {
                let mut out = chars_of("-");
                let digits = decimal((0 - wide) as u64);
                extend_chars(&mut out, digits.as_slice());
                proof {
                    reveal_strlit("-");
                }
                out
            } else {
                decimal(wide as u64)
            }
        },
        None => chars_of("sinal"),
    }
}

/// What the collector `command` gave, from its output, its error output and
/// how it exited (see [`gc_outcome_spec`]).
pub fn gc_outcome(stdout: &[u8], stderr: &[u8], success: bool, code: Option<i32>, command: &str) -> (r: Result<
    GcReport,
    String,
>)
    ensures
        r matches Ok(rep) ==> gc_outcome_spec(stdout@, stderr@, success, code, command@) == Ok::<
            GcView,
            Seq<char>,
        >(rep@),
        r matches Err(e) ==> gc_outcome_spec(stdout@, stderr@, success, code, command@) == Err::<
            GcView,
            Seq<char>,
        >(e@),
{
    let out = from_utf8_lossy(stdout);
    let err = from_utf8_lossy(stderr);
    let mut text = chars_of(out.as_str());
    let err_chars = chars_of(err.as_str());
    if trim(err_chars.as_slice()).len() > 0 {
        if text.len() > 0 && text[text.len() - 1] != '\n' {
            text.push('\n');
            proof {
                reveal_strlit("\n");
            }
        }
        extend_chars(&mut text, err_chars.as_slice());
    }
    proof {
        reveal_strlit("\n");
        assert(text@ == gc_text_spec(out@, err@));
    }
    let report = parse(string_of(text.as_slice()).as_str());
    if success {
        return Ok(report);
    }
    let n = report.lines.len();
    let start: usize = if n > 3 {
        n - 3
    } else {
        0
    };
    let mut tail: Vec<Vec<char>> = Vec::new();
    let mut i: usize = start;
    while i < n
        invariant
            start <= i <= n,
            n == report.lines@.len(),
            views(tail@) == string_views(report.lines@).subrange(start as int, i as int),
        decreases n - i,
    {
        let ghost before = tail@;
        tail.push(chars_of(report.lines[i].as_str()));
        assert(views(tail@) =~= views(before).push(report.lines@[i as int]@));
        assert(string_views(report.lines@).subrange(start as int, i + 1) =~= string_views(report.lines@).subrange(
            start as int,
            i as int,
        ).push(report.lines@[i as int]@));
        assert(views(tail@) =~= string_views(report.lines@).subrange(start as int, i + 1));
        i = i + 1;
    }
    assert(views(tail@) =~= last_three(report@.lines));
    let joined = join_parts(&tail, chars_of(" · ").as_slice());
    let mut msg = chars_of("`");
    extend_chars(&mut msg, chars_of(command).as_slice());
    extend_chars(&mut msg, chars_of("` saiu com ").as_slice());
    extend_chars(&mut msg, exit_code_text(code).as_slice());
    if joined.len() > 0 {
        extend_chars(&mut msg, chars_of(": ").as_slice());
        extend_chars(&mut msg, joined.as_slice());
    }
    Err(string_of(msg.as_slice()))
}

} // verus!

verus! {

/// Whether a trimmed output line is a `LIXO ` row.
pub open spec fn lixo_row() -> spec_fn(Seq<char>) -> bool {
    |t: Seq<char>| has_prefix(t, "LIXO "@)
}

/// The output lines, trimmed.
pub open spec fn trimmed_lines(lines: Seq<Seq<char>>) -> Seq<Seq<char>> {
    lines.map_values(|l: Seq<char>| trim_spec(l))
}

/// The worktree a `LIXO ` row names: the row without its tag, its runs of
/// spaces squashed.
pub open spec fn lixo_entry(t: Seq<char>) -> Seq<char> {
    squash_spec(t.skip("LIXO "@.len() as int))
}

/// The worktrees that the `LIXO ` rows among `lines` name, in order: each
/// row trimmed, without its `LIXO ` tag, its runs of spaces squashed.
pub open spec fn lixo_rows(lines: Seq<Seq<char>>) -> Seq<Seq<char>> {
    trimmed_lines(lines).filter(lixo_row()).map_values(|t: Seq<char>| lixo_entry(t))
}

/// Every `LIXO ` row of the output adds one removable worktree, in order:
/// the removable list is exactly the rows that start with `LIXO ` once
/// trimmed, and as long as there are such rows.
pub proof fn removable_lists_every_lixo_row(lines: Seq<Seq<char>>)
    ensures
        gc_fold(lines).removable == lixo_rows(lines),
        gc_fold(lines).removable.len() == trimmed_lines(lines).filter(lixo_row()).len(),
    decreases lines.len(),
{
    reveal(Seq::filter);
    let trimmed = trimmed_lines(lines);
    if lines.len() > 0 {
        removable_lists_every_lixo_row(lines.drop_last());
        assert(trimmed.drop_last() =~= trimmed_lines(lines.drop_last()));
        let t = trim_spec(lines.last());
        assert(trimmed.last() == t);
        let before = trimmed_lines(lines.drop_last()).filter(lixo_row());
        reveal_strlit("LIXO ");
        assert(gc_fold(lines) == gc_step(gc_fold(lines.drop_last()), lines.last()));
        if has_prefix(t, "LIXO "@) {
            assert(t.len() > 0);
            assert(gc_fold(lines).removable == gc_fold(lines.drop_last()).removable.push(lixo_entry(t)));
            assert(trimmed.filter(lixo_row()) =~= before.push(t));
            assert(lixo_rows(lines) =~= lixo_rows(lines.drop_last()).push(lixo_entry(t)));
        } else {
            assert(gc_fold(lines).removable == gc_fold(lines.drop_last()).removable);
            assert(trimmed.filter(lixo_row()) =~= before);
            assert(lixo_rows(lines) =~= lixo_rows(lines.drop_last()));
        }
    } else {
        assert(trimmed.filter(lixo_row()) =~= Seq::<Seq<char>>::empty());
        assert(lixo_rows(lines) =~= Seq::<Seq<char>>::empty());
    }
}

/// The removable worktrees of a report read from the collector's output are
/// the `LIXO ` rows of its lines (escape sequences removed), all of them,
/// in order.
pub proof fn parsed_removable_are_the_lixo_rows(raw: Seq<char>)
    ensures
        parse_spec(raw).removable == lixo_rows(pieces(strip_ansi_spec(raw), CharClass::Newline)),
{
    removable_lists_every_lixo_row(pieces(strip_ansi_spec(raw), CharClass::Newline));
}

/// Whether a trimmed output line is an `ORFA ` row.
pub open spec fn orfa_row() -> spec_fn(Seq<char>) -> bool {
    |t: Seq<char>| has_prefix(t, "ORFA "@)
}

/// Whether a trimmed output line has text.
pub open spec fn has_text() -> spec_fn(Seq<char>) -> bool {
    |t: Seq<char>| t.len() > 0
}

/// Whether a trimmed output line is a summary: not a `LIXO ` or `ORFA ` row,
/// and about worktrees (` worktrees | ` or ` worktrees removidas`).
pub open spec fn summary_row() -> spec_fn(Seq<char>) -> bool {
    |t: Seq<char>|
        !has_prefix(t, "LIXO "@) && !has_prefix(t, "ORFA "@) && (contains_spec(t, " worktrees | "@) || contains_spec(
            t,
            " worktrees removidas"@,
        ))
}

/// The orphan that an `ORFA ` row names.
pub open spec fn orfa_entry(t: Seq<char>) -> Seq<char> {
    squash_spec(t.skip("ORFA "@.len() as int))
}

/// The orphans that the `ORFA ` rows among `lines` name, in order.
pub open spec fn orfa_rows(lines: Seq<Seq<char>>) -> Seq<Seq<char>> {
    trimmed_lines(lines).filter(orfa_row()).map_values(|t: Seq<char>| orfa_entry(t))
}

/// Every part of the report, from the output lines: the kept lines are the
/// non-empty ones, trimmed, in order; the orphans are the `ORFA ` rows, in
/// order; the removable worktrees the `LIXO ` rows (see
/// [`removable_lists_every_lixo_row`]); the summary is the last summary line,
/// none without one.
pub proof fn report_parts_come_from_their_rows(lines: Seq<Seq<char>>)
    ensures
        gc_fold(lines).lines == trimmed_lines(lines).filter(has_text()),
        gc_fold(lines).orphans == orfa_rows(lines),
        gc_fold(lines).summary == (if trimmed_lines(lines).filter(summary_row()).len() > 0 {
            Some(trimmed_lines(lines).filter(summary_row()).last())
        } else {
            None
        }),
    decreases lines.len(),
{
    reveal(Seq::filter);
    reveal_strlit("LIXO ");
    reveal_strlit("ORFA ");
    reveal_strlit(" worktrees | ");
    reveal_strlit(" worktrees removidas");
    let trimmed = trimmed_lines(lines);
    if lines.len() > 0 {
        report_parts_come_from_their_rows(lines.drop_last());
        let prev = trimmed_lines(lines.drop_last());
        assert(trimmed.drop_last() =~= prev);
        let t = trim_spec(lines.last());
        assert(trimmed.last() == t);
        assert(gc_fold(lines) == gc_step(gc_fold(lines.drop_last()), lines.last()));
        if t.len() > 0 {
            assert(trimmed.filter(has_text()) =~= prev.filter(has_text()).push(t));
        } else {
            assert(trimmed.filter(has_text()) =~= prev.filter(has_text()));
            assert(crate::text::first_match_from(t, " worktrees | "@, 1) is None);
            assert(crate::text::first_match_from(t, " worktrees removidas"@, 1) is None);
            assert(!contains_spec(t, " worktrees | "@));
            assert(!contains_spec(t, " worktrees removidas"@));
        }
        if has_prefix(t, "ORFA "@) {
            assert(trimmed.filter(orfa_row()) =~= prev.filter(orfa_row()).push(t));
            assert(t.subrange(0, 5)[0] == 'O');
            assert(!has_prefix(t, "LIXO "@));
            assert(gc_fold(lines).orphans == gc_fold(lines.drop_last()).orphans.push(orfa_entry(t)));
            assert(orfa_rows(lines) =~= orfa_rows(lines.drop_last()).push(orfa_entry(t)));
        } else {
            assert(trimmed.filter(orfa_row()) =~= prev.filter(orfa_row()));
            assert(gc_fold(lines).orphans == gc_fold(lines.drop_last()).orphans);
            assert(orfa_rows(lines) =~= orfa_rows(lines.drop_last()));
        }
        if (summary_row())(t) {
            assert(trimmed.filter(summary_row()) =~= prev.filter(summary_row()).push(t));
        } else {
            assert(trimmed.filter(summary_row()) =~= prev.filter(summary_row()));
        }
    } else {
        assert(trimmed.filter(has_text()) =~= Seq::<Seq<char>>::empty());
        assert(trimmed.filter(orfa_row()) =~= Seq::<Seq<char>>::empty());
        assert(trimmed.filter(summary_row()) =~= Seq::<Seq<char>>::empty());
        assert(orfa_rows(lines) =~= Seq::<Seq<char>>::empty());
    }
}

} // verus!
