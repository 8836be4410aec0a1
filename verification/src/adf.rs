//! Rich text of the Jira view: styled lines built from Jira documents, and
//! their wrapping to the width of the panel.
//!
//! Display widths come from the `unicode-width` crate; they are named here
//! ([`text_width`], [`char_width`]) rather than restated.

use vstd::prelude::*;

use crate::split::{string_views, views};
use crate::text::{chars_of, extend_chars, slice_chars, string_of, trim, trim_spec};

verus! {

/// How a span of text is drawn.
#[derive(Debug, Clone, Copy, PartialEq, Eq, Structural)]
pub struct SpanStyle {
    pub bold: bool,
    pub italic: bool,
    pub code: bool,
    pub strike: bool,
    pub underline: bool,
    pub heading: bool,
    pub quote: bool,
    pub mention: bool,
    pub dim: bool,
}

impl SpanStyle {
    /// Plain text.
    pub fn plain() -> (r: SpanStyle)
        ensures
            r == plain_style(),
    {
        SpanStyle {
            bold: false,
            italic: false,
            code: false,
            strike: false,
            underline: false,
            heading: false,
            quote: false,
            mention: false,
            dim: false,
        }
    }
}

/// Plain text.
pub open spec fn plain_style() -> SpanStyle {
    SpanStyle {
        bold: false,
        italic: false,
        code: false,
        strike: false,
        underline: false,
        heading: false,
        quote: false,
        mention: false,
        dim: false,
    }
}

/// A run of text in one style, maybe a link.
#[derive(Debug, Clone, PartialEq, Eq)]
pub struct RichSpan {
    pub text: String,
    pub style: SpanStyle,
    pub link: Option<String>,
}

/// A line of rich text: its indent, a prefix (a bullet or a number), and its
/// spans.
#[derive(Debug, Clone, PartialEq, Eq)]
pub struct RichLine {
    pub indent: usize,
    pub prefix: String,
    pub spans: Vec<RichSpan>,
}

/// `n` spaces.
pub open spec fn spaces(n: nat) -> Seq<char> {
    Seq::new(n, |i: int| ' ')
}

/// The texts of spans, one after the other.
pub open spec fn spans_text(spans: Seq<RichSpan>) -> Seq<char>
    decreases spans.len(),
{
    if spans.len() == 0 {
        Seq::empty()
    } else {
        spans_text(spans.drop_last()) + spans.last().text@
    }
}

pub(crate) fn push_spaces(out: &mut Vec<char>, n: usize)
    ensures
        final(out)@ == old(out)@ + spaces(n as nat),
{
    let mut i: usize = 0;
    while i < n
        invariant
            i <= n,
            out@ == old(out)@ + spaces(i as nat),
        decreases n - i,
    {
        out.push(' ');
        assert(spaces((i + 1) as nat) =~= spaces(i as nat).push(' '));
        i = i + 1;
    }
}

impl RichLine {
    /// A line of one span of `text` in `style`, without indent or prefix.
    pub fn plain(text: String, style: SpanStyle) -> (r: RichLine)
        ensures
            r.indent == 0,
            r.prefix@.len() == 0,
            r.spans@.len() == 1,
            r.spans@[0] == (RichSpan { text, style, link: None }),
    {
        let mut spans: Vec<RichSpan> = Vec::new();
        spans.push(RichSpan { text, style, link: None });
        RichLine { indent: 0, prefix: String::new(), spans }
    }

    /// The line as plain text: its indent as spaces, its prefix, its spans.
    pub fn text(&self) -> (r: String)
        ensures
            r@ == spaces(self.indent as nat) + self.prefix@ + spans_text(self.spans@),
    {
        let mut out: Vec<char> = Vec::new();
        push_spaces(&mut out, self.indent);
        extend_chars(&mut out, chars_of(self.prefix.as_str()).as_slice());
        let ghost head = out@;
        let mut i: usize = 0;
        while i < self.spans.len()
            invariant
                i <= self.spans.len(),
                out@ == head + spans_text(self.spans@.take(i as int)),
            decreases self.spans.len() - i,
        {
            extend_chars(&mut out, chars_of(self.spans[i].text.as_str()).as_slice());
            assert(self.spans@.take(i + 1).drop_last() =~= self.spans@.take(i as int));
            i = i + 1;
        }
        assert(self.spans@.take(self.spans.len() as int) =~= self.spans@);
        string_of(out.as_slice())
    }
}

/// Builds rich lines: the finished ones, and the one being written.
#[derive(Debug, Clone, PartialEq, Eq)]
pub struct Renderer {
    pub lines: Vec<RichLine>,
    pub current: Option<RichLine>,
}

/// The finished lines once the current one is finished too.
pub open spec fn flushed(r: Renderer) -> Seq<RichLine> {
    match r.current {
        Some(line) => r.lines@.push(line),
        None => r.lines@,
    }
}

impl Renderer {
    /// A renderer with nothing written.
    pub fn new() -> (r: Renderer)
        ensures
            r.lines@.len() == 0,
            r.current is None,
    {
        Renderer { lines: Vec::new(), current: None }
    }

    /// Finishes the current line, if any.
    pub fn flush(&mut self)
        ensures
            final(self).lines@ == flushed(*old(self)),
            final(self).current is None,
    {
        if let Some(line) = self.current.take() {
            self.lines.push(line);
        }
    }

    /// Finishes the current line and starts an empty one with `indent` and
    /// `prefix`.
    pub fn start_line(&mut self, indent: usize, prefix: String)
        ensures
            final(self).lines@ == flushed(*old(self)),
            final(self).current matches Some(line) && line.indent == indent && line.prefix == prefix
                && line.spans@.len() == 0,
    {
        self.flush();
        self.current = Some(RichLine { indent, prefix, spans: Vec::new() });
    }

    /// Finishes the current line and adds an empty line, unless the last line
    /// is already empty (or there is none).
    pub fn blank(&mut self)
        ensures
            final(self).current is None,
            ({
                let f = flushed(*old(self));
                if f.len() > 0 && f.last().spans@.len() > 0 {
                    final(self).lines@.len() == f.len() + 1 && final(self).lines@.take(f.len() as int) == f
                        && final(self).lines@.last().indent == 0 && final(self).lines@.last().prefix@.len()
                        == 0 && final(self).lines@.last().spans@.len() == 0
                } else {
                    final(self).lines@ == f
                }
            }),
    {
        self.flush();
        let n = self.lines.len();
        if n > 0 && self.lines[n - 1].spans.len() > 0 {
            let ghost before = self.lines@;
            self.lines.push(RichLine { indent: 0, prefix: String::new(), spans: Vec::new() });
            assert(self.lines@.take(before.len() as int) =~= before);
        }
    }

    /// Adds a span to the current line, starting a plain one when there is
    /// none.
    pub fn push(&mut self, text: &str, style: SpanStyle, link: Option<String>)
        ensures
            old(self).current is Some ==> final(self).lines@ == old(self).lines@,
            old(self).current is None ==> final(self).lines@ == flushed(*old(self)),
            final(self).current matches Some(line) && line.spans@.len() > 0 && line.spans@.last().text@
                == text@ && line.spans@.last().style == style && line.spans@.last().link == link && (
            match old(self).current {
                Some(before) => line.indent == before.indent && line.prefix == before.prefix
                    && line.spans@.drop_last() == before.spans@,
                None => line.indent == 0 && line.prefix@.len() == 0 && line.spans@.len() == 1,
            }),
    {
        if self.current.is_none() {
            self.start_line(0, String::new());
        }
        let mut line = match self.current.take() {
            Some(l) => l,
            None => RichLine { indent: 0, prefix: String::new(), spans: Vec::new() },
        };
        let ghost before = line.spans@;
        line.spans.push(RichSpan { text: string_of(chars_of(text).as_slice()), style, link });
        assert(line.spans@.drop_last() =~= before);
        self.current = Some(line);
    }

    /// Where a continuation of the current line starts: its indent, and spaces
    /// as wide (in characters) as its prefix; nothing when there is no line.
    pub fn continuation(&self) -> (r: (usize, String))
        ensures
            match self.current {
                Some(line) => r.0 == line.indent && r.1@ == spaces(line.prefix@.len()),
                None => r.0 == 0 && r.1@.len() == 0,
            },
    {
        match &self.current {
            Some(line) => {
                let n = chars_of(line.prefix.as_str()).len();
                let mut out: Vec<char> = Vec::new();
                push_spaces(&mut out, n);
                (line.indent, string_of(out.as_slice()))
            },
            None => (0, String::new()),
        }
    }
}

/// A piece of a wrapped row.
#[derive(Debug, Clone, PartialEq, Eq)]
pub struct WrappedSpan {
    pub text: String,
    pub style: SpanStyle,
    pub link: Option<String>,
}

/// The columns `s` takes on screen (`UnicodeWidthStr::width`).
pub uninterp spec fn text_width(s: Seq<char>) -> usize;

/// The columns a character takes on screen, none for a control character
/// (`UnicodeWidthChar::width`).
pub uninterp spec fn char_width(c: char) -> Option<usize>;

/// `UnicodeWidthStr::width` of the `unicode-width` crate: the result is named
/// `text_width` of the text; the width tables are not stated.
#[verifier::external_body]
pub(crate) fn str_width(s: &str) -> (r: usize)
    ensures
        r == text_width(s@),
{
    unicode_width::UnicodeWidthStr::width(s)
}

/// `UnicodeWidthChar::width` of the `unicode-width` crate: the result is
/// named `char_width` of the character; the width tables are not stated.
#[verifier::external_body]
pub(crate) fn width_of_char(c: char) -> (r: Option<usize>)
    ensures
        r == char_width(c),
{
    unicode_width::UnicodeWidthChar::width(c)
}

/// The width of a character, control characters counting none.
pub open spec fn char_cols(c: char) -> int {
    match char_width(c) {
        Some(w) => w as int,
        None => 0,
    }
}

/// The columns the characters of `s` before `k` take, one by one.
pub open spec fn cols_before(s: Seq<char>, k: int) -> int
    decreases k,
{
    if k <= 0 || k > s.len() {
        0
    } else {
        cols_before(s, k - 1) + char_cols(s[k - 1])
    }
}

/// The first position, from `i` on, where the characters of `s` stop fitting
/// in `width` columns.
pub open spec fn overflow_from(s: Seq<char>, width: int, i: int) -> Option<int>
    decreases s.len() - i,
{
    if i < 0 || i >= s.len() {
        None
    } else if cols_before(s, i + 1) > width {
        Some(i)
    } else {
        overflow_from(s, width, i + 1)
    }
}

/// How many characters of `text` fit in `width` columns: up to the first that
/// does not fit, but at least one; all of them when they all fit.
pub open spec fn fit_chars(text: Seq<char>, width: int) -> int {
    match overflow_from(text, width, 0) {
        Some(i) => if i < 1 {
            1
        } else {
            i
        },
        None => text.len() as int,
    }
}

proof fn lemma_overflow_from(s: Seq<char>, width: int, i: int)
    requires
        0 <= i,
    ensures
        overflow_from(s, width, i) matches Some(k) ==> i <= k < s.len(),
    decreases s.len() - i,
{
    if i < s.len() && cols_before(s, i + 1) <= width {
        lemma_overflow_from(s, width, i + 1);
    }
}

/// How many characters of `text` fit in `width` columns.
pub fn char_boundary_for_width(text: &[char], width: usize) -> (r: usize)
    ensures
        r == fit_chars(text@, width as int),
        text@.len() > 0 ==> 1 <= r <= text@.len(),
{
    let mut used: u128 = 0;
    let mut i: usize = 0;
    while i < text.len()
        invariant
            i <= text.len(),
            used == cols_before(text@, i as int),
            used <= width,
            overflow_from(text@, width as int, 0) == overflow_from(text@, width as int, i as int),
        decreases text.len() - i,
    {
        let w: usize = match width_of_char(text[i]) {
            Some(w) => w,
            None => 0,
        };
        if used + (w as u128) > width as u128 {
            return if i < 1 {
                1
            } else {
                i
            };
        }
        used = used + w as u128;
        i = i + 1;
    }
    text.len()
}

/// The pieces of `s` from `i` on: its runs of spaces and of other characters.
pub open spec fn space_runs_from(s: Seq<char>, i: int) -> Seq<Seq<char>>
    decreases s.len() - i,
{
    if i < 0 || i >= s.len() {
        Seq::empty()
    } else {
        let j = run_end_same(s, i, i + 1);
        if i < j <= s.len() {
            seq![s.subrange(i, j)] + space_runs_from(s, j)
        } else {
            Seq::empty()
        }
    }
}

/// Where the run that starts at `i` ends, looking from `k` on: the first
/// character that is a space when `s[i]` is not, or the other way round.
pub open spec fn run_end_same(s: Seq<char>, i: int, k: int) -> int
    decreases s.len() - k,
{
    if k < 0 || k >= s.len() || i < 0 || i >= s.len() {
        s.len() as int
    } else if (s[k] == ' ') != (s[i] == ' ') {
        k
    } else {
        run_end_same(s, i, k + 1)
    }
}

proof fn lemma_run_end_same(s: Seq<char>, i: int, k: int)
    requires
        0 <= i < k,
    ensures
        k <= run_end_same(s, i, k) <= s.len() || (k > s.len() && run_end_same(s, i, k) == s.len()),
    decreases s.len() - k,
{
    if k < s.len() && (s[k] == ' ') == (s[i] == ' ') {
        lemma_run_end_same(s, i, k + 1);
    }
}

/// The runs of spaces and of other characters of `text`, in order.
pub open spec fn split_keep_spaces_spec(text: Seq<char>) -> Seq<Seq<char>> {
    space_runs_from(text, 0)
}

/// The runs of spaces and of other characters of `text`, in order.
pub fn split_keep_spaces(text: &[char]) -> (r: Vec<Vec<char>>)
    ensures
        views(r@) == split_keep_spaces_spec(text@),
{
    let mut out: Vec<Vec<char>> = Vec::new();
    let mut i: usize = 0;
    while i < text.len()
        invariant
            i <= text.len(),
            views(out@) + space_runs_from(text@, i as int) == split_keep_spaces_spec(text@),
        decreases text.len() - i,
    {
        let space = text[i] == ' ';
        let mut j = i + 1;
        while j < text.len() && (text[j] == ' ') == space
            invariant
                i < j <= text.len(),
                space == (text@[i as int] == ' '),
                run_end_same(text@, i as int, i + 1) == run_end_same(text@, i as int, j as int),
            decreases text.len() - j,
        {
            j = j + 1;
        }
        proof {
            lemma_run_end_same(text@, i as int, i + 1);
        }
        let piece = slice_chars(text, i, j);
        let ghost before = out@;
        out.push(piece);
        assert(views(out@) =~= views(before).push(piece@));
        assert(views(out@) + space_runs_from(text@, j as int) =~= views(before) + (seq![piece@]
            + space_runs_from(text@, j as int)));
        i = j;
    }
    assert(views(out@) + space_runs_from(text@, i as int) =~= views(out@));
    out
}

/// The row after adding a piece of `span`: nothing for an empty piece; else
/// it extends the last span of the row when that has the same style and link,
/// or becomes a new span.
pub open spec fn push_piece_spec(row: Seq<WrappedSpan>, text: Seq<char>, span: RichSpan) -> Seq<
    (Seq<char>, SpanStyle, Option<Seq<char>>),
> {
    push_view(wrapped_views(row), text, span)
}

/// A row, as plain values, after adding a piece of `span`.
pub open spec fn push_view(r: Seq<(Seq<char>, SpanStyle, Option<Seq<char>>)>, text: Seq<char>, span: RichSpan) -> Seq<
    (Seq<char>, SpanStyle, Option<Seq<char>>),
> {
    let link = crate::split::opt_view(span.link);
    if text.len() == 0 {
        r
    } else if r.len() > 0 && r.last().1 == span.style && r.last().2 == link {
        r.update(r.len() - 1, (r.last().0 + text, r.last().1, r.last().2))
    } else {
        r.push((text, span.style, link))
    }
}

/// A row as plain values.
pub open spec fn wrapped_views(row: Seq<WrappedSpan>) -> Seq<(Seq<char>, SpanStyle, Option<Seq<char>>)> {
    row.map_values(|w: WrappedSpan| (w.text@, w.style, crate::split::opt_view(w.link)))
}

/// Adds a piece of `span` to a row.
pub fn push_piece(row: &mut Vec<WrappedSpan>, text: &[char], span: &RichSpan)
    ensures
        wrapped_views(final(row)@) == push_piece_spec(old(row)@, text@, *span),
{
    if text.len() == 0 {
        return;
    }
    let n = row.len();
    if n > 0 && row[n - 1].style == span.style && crate::sessions::same_option(&row[n - 1].link, &span.link) {
        let last = row.remove(n - 1);
        let mut t = chars_of(last.text.as_str());
        extend_chars(&mut t, text);
        let ghost before = row@;
        row.push(WrappedSpan { text: string_of(t.as_slice()), style: last.style, link: last.link });
        assert(wrapped_views(row@) =~= push_piece_spec(old(row)@, text@, *span)) by {
            assert(before =~= old(row)@.drop_last());
        }
        return;
    }
    row.push(
        WrappedSpan {
            text: string_of(text),
            style: span.style,
            link: crate::sessions::duplicate_option(&span.link),
        },
    );
    assert(wrapped_views(row@) =~= wrapped_views(old(row)@).push(
        (text@, span.style, crate::split::opt_view(span.link)),
    ));
}

/// The text of a row.
pub open spec fn row_text(row: Seq<WrappedSpan>) -> Seq<char>
    decreases row.len(),
{
    if row.len() == 0 {
        Seq::empty()
    } else {
        row_text(row.drop_last()) + row.last().text@
    }
}

/// A row as plain values: the text, style and link of each span.
pub open spec fn row_views(rows: Seq<Vec<WrappedSpan>>) -> Seq<Seq<(Seq<char>, SpanStyle, Option<Seq<char>>)>> {
    rows.map_values(|r: Vec<WrappedSpan>| wrapped_views(r@))
}

/// Wrapping in progress: the finished rows, the row being filled and the
/// columns it uses.
pub struct WrapState {
    pub out: Seq<Seq<(Seq<char>, SpanStyle, Option<Seq<char>>)>>,
    pub row: Seq<(Seq<char>, SpanStyle, Option<Seq<char>>)>,
    pub used: int,
}

/// `a + b`, saturated at the largest `usize`.
pub open spec fn sat_add(a: int, b: int) -> int {
    if a + b > usize::MAX {
        usize::MAX as int
    } else {
        a + b
    }
}

/// A piece of `span` placed on the row: while it does not fit, the part that
/// fits (at least one character) ends the row and the rest goes on.
pub open spec fn cut_spec(st: WrapState, piece: Seq<char>, span: RichSpan, width: int) -> WrapState
    decreases piece.len(),
{
    if sat_add(st.used, text_width(piece) as int) > width && piece.len() > 0 {
        let room = if st.used < width {
            width - st.used
        } else {
            1
        };
        let fit = if room < 1 {
            1
        } else {
            room
        };
        let split = fit_chars(piece, fit);
        if 1 <= split <= piece.len() {
            cut_spec(
                WrapState {
                    out: st.out.push(push_view(st.row, piece.take(split), span)),
                    row: Seq::empty(),
                    used: 0,
                },
                piece.skip(split),
                span,
                width,
            )
        } else {
            st
        }
    } else {
        WrapState {
            out: st.out,
            row: push_view(st.row, piece, span),
            used: sat_add(st.used, text_width(piece) as int),
        }
    }
}

/// A word of `span` placed: when it overflows a row that holds more than
/// the hanging indent `hang`, the row ends, the next starts with the indent,
/// and a word of spaces is dropped.
pub open spec fn word_spec(st: WrapState, word: Seq<char>, span: RichSpan, width: int, hang: Seq<char>) -> WrapState {
    let hw = text_width(hang) as int;
    if sat_add(st.used, text_width(word) as int) > width && st.used > hw {
        let next = WrapState {
            out: st.out.push(st.row),
            row: if hang.len() > 0 {
                seq![(hang, plain_style(), None::<Seq<char>>)]
            } else {
                Seq::empty()
            },
            used: if hang.len() > 0 {
                hw
            } else {
                0
            },
        };
        if trim_spec(word).len() == 0 {
            next
        } else {
            cut_spec(next, word, span, width)
        }
    } else {
        cut_spec(st, word, span, width)
    }
}

/// The words of a span placed in turn.
pub open spec fn words_spec(st: WrapState, words: Seq<Seq<char>>, span: RichSpan, width: int, hang: Seq<char>) -> WrapState
    decreases words.len(),
{
    if words.len() == 0 {
        st
    } else {
        word_spec(words_spec(st, words.drop_last(), span, width, hang), words.last(), span, width, hang)
    }
}

/// The spans of a line placed in turn, each cut into runs of spaces and of
/// other characters.
pub open spec fn spans_spec(st: WrapState, spans: Seq<RichSpan>, width: int, hang: Seq<char>) -> WrapState
    decreases spans.len(),
{
    if spans.len() == 0 {
        st
    } else {
        let span = spans.last();
        words_spec(
            spans_spec(st, spans.drop_last(), width, hang),
            split_keep_spaces_spec(span.text@),
            span,
            width,
            hang,
        )
    }
}

/// The lead of a line: its indent in spaces, then its prefix.
pub open spec fn lead_spec(line: RichLine) -> Seq<char> {
    spaces(line.indent as nat) + line.prefix@
}

/// The hanging indent of a line's continuation rows: as many spaces as its
/// lead is wide, at most half the width.
pub open spec fn hang_spec(line: RichLine, width: int) -> Seq<char> {
    let lw = text_width(lead_spec(line)) as int;
    spaces((if lw < width / 2 {
        lw
    } else {
        width / 2
    }) as nat)
}

/// The rows after one more line: it starts with its lead (a plain span),
/// then its spans are placed, and its last row ends.
pub open spec fn line_spec(out: Seq<Seq<(Seq<char>, SpanStyle, Option<Seq<char>>)>>, line: RichLine, width: int) -> Seq<
    Seq<(Seq<char>, SpanStyle, Option<Seq<char>>)>,
> {
    let lead = lead_spec(line);
    let start = WrapState {
        out,
        row: if lead.len() > 0 {
            seq![(lead, plain_style(), None::<Seq<char>>)]
        } else {
            Seq::empty()
        },
        used: if lead.len() > 0 {
            text_width(lead) as int
        } else {
            0
        },
    };
    let end = if line.spans@.len() > 0 {
        spans_spec(start, line.spans@, width, hang_spec(line, width))
    } else {
        start
    };
    end.out.push(end.row)
}

/// The rows of lines wrapped to `width` columns.
pub open spec fn wrap_spec(lines: Seq<RichLine>, width: int) -> Seq<Seq<(Seq<char>, SpanStyle, Option<Seq<char>>)>>
    decreases lines.len(),
{
    if lines.len() == 0 {
        Seq::empty()
    } else {
        line_spec(wrap_spec(lines.drop_last(), width), lines.last(), width)
    }
}

/// The state of wrapping as plain values.
pub open spec fn state_of(out: Seq<Vec<WrappedSpan>>, row: Seq<WrappedSpan>, used: usize) -> WrapState {
    WrapState { out: row_views(out), row: wrapped_views(row), used: used as int }
}

/// Places a piece of `span`, cutting it while it does not fit.
fn place_piece(
    out: &mut Vec<Vec<WrappedSpan>>,
    row: &mut Vec<WrappedSpan>,
    used: &mut usize,
    word: &[char],
    span: &RichSpan,
    width: usize,
)
    requires
        width >= 8,
    ensures
        state_of(final(out)@, final(row)@, *final(used)) == cut_spec(
            state_of(old(out)@, old(row)@, *old(used)),
            word@,
            *span,
            width as int,
        ),
{
    let ghost goal = cut_spec(state_of(out@, row@, *used), word@, *span, width as int);
    let mut piece: Vec<char> = slice_chars(word, 0, word.len());
    assert(piece@ =~= word@);
    let mut piece_width = str_width(string_of(piece.as_slice()).as_str());
    while used.saturating_add(piece_width) > width && piece.len() > 0
        invariant
            width >= 8,
            piece_width == text_width(piece@),
            cut_spec(state_of(out@, row@, *used), piece@, *span, width as int) == goal,
        decreases piece@.len(),
    {
        let room = if *used < width {
            width - *used
        } else {
            1
        };
        let fit = if room < 1 {
            1
        } else {
            room
        };
        let split = char_boundary_for_width(piece.as_slice(), fit);
        let head = slice_chars(piece.as_slice(), 0, split);
        let rest = slice_chars(piece.as_slice(), split, piece.len());
        assert(head@ =~= piece@.take(split as int));
        assert(rest@ =~= piece@.skip(split as int));
        let ghost before_out = out@;
        push_piece(row, head.as_slice(), span);
        let mut full: Vec<WrappedSpan> = Vec::new();
        std::mem::swap(row, &mut full);
        out.push(full);
        assert(row_views(out@) =~= row_views(before_out).push(wrapped_views(full@)));
        assert(wrapped_views(row@) =~= Seq::<(Seq<char>, SpanStyle, Option<Seq<char>>)>::empty());
        *used = 0;
        piece = rest;
        piece_width = str_width(string_of(piece.as_slice()).as_str());
    }
    *used = used.saturating_add(piece_width);
    push_piece(row, piece.as_slice(), span);
}

/// Wraps rich lines to `width` columns (at least 8): each line starts with its
/// indent and prefix, and its continuation rows with as many spaces (at most
/// half the width); words move to the next row when they do not fit, a space
/// that causes the break is dropped, and a word wider than a row is cut.
pub fn wrap(lines: &[RichLine], width: usize) -> (r: Vec<Vec<WrappedSpan>>)
    ensures
        row_views(r@) == wrap_spec(lines@, if width < 8 {
            8
        } else {
            width as int
        }),
{
    let width = if width < 8 {
        8
    } else {
        width
    };
    let mut out: Vec<Vec<WrappedSpan>> = Vec::new();
    let mut l: usize = 0;
    assert(lines@.take(0) =~= Seq::<RichLine>::empty());
    assert(row_views(out@) =~= Seq::<Seq<(Seq<char>, SpanStyle, Option<Seq<char>>)>>::empty());
    while l < lines.len()
        invariant
            l <= lines.len(),
            width >= 8,
            row_views(out@) == wrap_spec(lines@.take(l as int), width as int),
        decreases lines.len() - l,
    {
        let line = &lines[l];
        let ghost prev = row_views(out@);
        proof {
            assert(lines@.take(l + 1).drop_last() =~= lines@.take(l as int));
            assert(lines@.take(l + 1).last() == lines@[l as int]);
        }
        let mut lead: Vec<char> = Vec::new();
        push_spaces(&mut lead, line.indent);
        extend_chars(&mut lead, chars_of(line.prefix.as_str()).as_slice());
        assert(lead@ =~= lead_spec(*line));
        let lead_str = string_of(lead.as_slice());
        let lead_width = str_width(lead_str.as_str());
        let hang_cols = if lead_width < width / 2 {
            lead_width
        } else {
            width / 2
        };
        let mut hanging_chars: Vec<char> = Vec::new();
        push_spaces(&mut hanging_chars, hang_cols);
        assert(hanging_chars@ =~= hang_spec(*line, width as int));
        let hanging = string_of(hanging_chars.as_slice());
        let hanging_width = str_width(hanging.as_str());
        let mut row: Vec<WrappedSpan> = Vec::new();
        let mut used: usize = 0;
        if lead.len() > 0 {
            used = lead_width;
            row.push(WrappedSpan { text: lead_str, style: SpanStyle::plain(), link: None });
        }
        let ghost start = state_of(out@, row@, used);
        assert(start.row =~= (if lead@.len() > 0 {
            seq![(lead@, plain_style(), None::<Seq<char>>)]
        } else {
            Seq::empty()
        }));
        if line.spans.len() > 0 {
            let mut s: usize = 0;
            assert(line.spans@.take(0) =~= Seq::<RichSpan>::empty());
            while s < line.spans.len()
                invariant
                    s <= line.spans.len(),
                    width >= 8,
                    line == &lines@[l as int],
                    hanging@ == hang_spec(*line, width as int),
                    hanging_chars@ == hanging@,
                    hanging_width == text_width(hanging@),
                    state_of(out@, row@, used) == spans_spec(start, line.spans@.take(s as int), width as int, hanging@),
                decreases line.spans.len() - s,
            {
                let span = &line.spans[s];
                proof {
                    assert(line.spans@.take(s + 1).drop_last() =~= line.spans@.take(s as int));
                    assert(line.spans@.take(s + 1).last() == line.spans@[s as int]);
                }
                let ghost st_span = state_of(out@, row@, used);
                let words = split_keep_spaces(chars_of(span.text.as_str()).as_slice());
                let mut w: usize = 0;
                assert(views(words@).take(0) =~= Seq::<Seq<char>>::empty());
                while w < words.len()
                    invariant
                        w <= words.len(),
                        width >= 8,
                        hanging_chars@ == hanging@,
                        hanging_width == text_width(hanging@),
                        state_of(out@, row@, used) == words_spec(st_span, views(words@).take(w as int), *span, width as int, hanging@),
                    decreases words.len() - w,
                {
                    let word = &words[w];
                    proof {
                        assert(views(words@).take(w + 1).drop_last() =~= views(words@).take(w as int));
                        assert(views(words@).take(w + 1).last() == words@[w as int]@);
                    }
                    let word_width = str_width(string_of(word.as_slice()).as_str());
                    let mut skip = false;
                    if used.saturating_add(word_width) > width && used > hanging_width {
                        let ghost before_out = out@;
                        let mut full: Vec<WrappedSpan> = Vec::new();
                        std::mem::swap(&mut row, &mut full);
                        out.push(full);
                        assert(row_views(out@) =~= row_views(before_out).push(wrapped_views(full@)));
                        used = 0;
                        let ghost mid = row@;
                        if hanging_chars.len() > 0 {
                            row.push(
                                WrappedSpan {
                                    text: hanging.clone(),
                                    style: SpanStyle::plain(),
                                    link: None,
                                },
                            );
                            used = hanging_width;
                        }
                        assert(wrapped_views(row@) =~= (if hanging@.len() > 0 {
                            seq![(hanging@, plain_style(), None::<Seq<char>>)]
                        } else {
                            Seq::empty()
                        }));
                        if trim(word.as_slice()).len() == 0 {
                            skip = true;
                        }
                    }
                    if !skip {
                        place_piece(&mut out, &mut row, &mut used, word.as_slice(), span, width);
                    }
                    w = w + 1;
                }
                assert(views(words@).take(words@.len() as int) =~= views(words@));
                s = s + 1;
            }
            assert(line.spans@.take(line.spans@.len() as int) =~= line.spans@);
        }
        let ghost before_out = out@;
        out.push(row);
        assert(row_views(out@) =~= row_views(before_out).push(wrapped_views(out@.last()@)));
        l = l + 1;
    }
    assert(lines@.take(lines@.len() as int) =~= lines@);
    out
}

proof fn lemma_overflow_first(s: Seq<char>, width: int, i: int)
    requires
        0 <= i,
    ensures
        overflow_from(s, width, i) matches Some(k) ==> i <= k < s.len() && cols_before(s, k + 1) > width
            && forall|m: int| i <= m < k ==> #[trigger] cols_before(s, m + 1) <= width,
        overflow_from(s, width, i) is None ==> forall|m: int|
            i <= m < s.len() ==> #[trigger] cols_before(s, m + 1) <= width,
    decreases s.len() - i,
{
    if i < s.len() && cols_before(s, i + 1) <= width {
        lemma_overflow_first(s, width, i + 1);
    }
}

/// The characters that fit in a width are the longest start of the text
/// whose columns do not exceed it: they fit (but for a lone character wider
/// than the width, which is still taken), and one more would not.
pub proof fn the_fitting_start_is_the_longest(text: Seq<char>, width: int)
    requires
        width >= 0,
    ensures
        ({
            let r = fit_chars(text, width);
            &&& text.len() > 0 ==> 1 <= r <= text.len()
            &&& text.len() == 0 ==> r == 0
            &&& r == 1 || cols_before(text, r) <= width
            &&& r < text.len() ==> cols_before(text, r + 1) > width
        }),
{
    lemma_overflow_first(text, width, 0);
    let r = fit_chars(text, width);
    match overflow_from(text, width, 0) {
        Some(k) => {
            if k >= 1 {
                assert(cols_before(text, (k - 1) + 1) <= width);
            }
        },
        None => {
            if text.len() > 0 {
                assert(cols_before(text, (text.len() - 1) + 1) <= width);
            }
        },
    }
}

} // verus!
