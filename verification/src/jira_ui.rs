//! The Jira view's screen logic that is not drawing: its buttons and where
//! they go, the links inside issue details, section headers, and elapsed-time
//! labels.

use vstd::prelude::*;

use crate::adf::{char_cols, char_width, str_width, text_width, width_of_char, RichLine, RichSpan, SpanStyle};
use crate::right_panel::Rect;
use crate::split::{opt_view, string_views, views};
use crate::text::{
    chars_of,
    decimal,
    decimal_spec,
    extend_chars,
    has_prefix,
    parse_u64,
    parse_u64_spec,
    same_chars,
    slice_chars,
    starts_with,
    string_of,
};

verus! {

/// The actions of the Jira view's buttons and keys.
#[derive(Debug, Clone, Copy, PartialEq, Eq, Structural)]
pub enum Action {
    Move,
    Comment,
    AssignMe,
    Browser,
    Session,
    Refresh,
    Back,
    Send,
    Cancel,
    CleanWorktrees,
    Confirm,
    Close,
}

/// The label of an action's button: its key and its name.
pub open spec fn action_label(action: Action) -> Seq<char> {
    match action {
        Action::Move => "m mover"@,
        Action::Comment => "c comentar"@,
        Action::AssignMe => "a atribuir a mim"@,
        Action::Browser => "o browser"@,
        Action::Session => "w sessão"@,
        Action::Refresh => "r atualizar"@,
        Action::Back => "esc voltar"@,
        Action::Send => "ctrl+s enviar"@,
        Action::Cancel => "esc cancelar"@,
        Action::CleanWorktrees => "L limpar worktrees"@,
        Action::Confirm => "enter confirmar"@,
        Action::Close => "esc fechar"@,
    }
}

impl Action {
    /// The label of the action's button.
    pub fn label(self) -> (r: &'static str)
        ensures
            r@ == action_label(self),
    {
        match self {
            Action::Move => "m mover",
            Action::Comment => "c comentar",
            Action::AssignMe => "a atribuir a mim",
            Action::Browser => "o browser",
            Action::Session => "w sessão",
            Action::Refresh => "r atualizar",
            Action::Back => "esc voltar",
            Action::Send => "ctrl+s enviar",
            Action::Cancel => "esc cancelar",
            Action::CleanWorktrees => "L limpar worktrees",
            Action::Confirm => "enter confirmar",
            Action::Close => "esc fechar",
        }
    }
}

/// A section of an issue's detail that can be folded.
#[derive(Debug, Clone, Copy, PartialEq, Eq, Structural)]
pub enum DetailSection {
    PullRequests,
    Worktrees,
}

/// What a click or a link points at.
#[derive(Debug, Clone, PartialEq, Eq)]
pub enum Hit {
    Row(usize),
    Section(DetailSection),
    Worktree(usize),
    Dot(String),
    Button(Action),
    MenuItem(usize),
    Link(String),
    PopupArea,
}

/// What the links to sections start with.
pub open spec fn section_prefix() -> Seq<char> {
    "herdr-jira:section:"@
}

/// What the links to worktrees start with.
pub open spec fn worktree_prefix() -> Seq<char> {
    "herdr-jira:worktree:"@
}

/// The name of a section in its link.
pub open spec fn section_name(section: DetailSection) -> Seq<char> {
    match section {
        DetailSection::PullRequests => "pull-requests"@,
        DetailSection::Worktrees => "worktrees"@,
    }
}

/// The link that folds or unfolds a section.
pub open spec fn section_link_spec(section: DetailSection) -> Seq<char> {
    section_prefix() + section_name(section)
}

/// The link that folds or unfolds a section.
pub fn section_link(section: DetailSection) -> (r: String)
    ensures
        r@ == section_link_spec(section),
{
    let mut out = chars_of("herdr-jira:section:");
    let name = match section {
        DetailSection::PullRequests => "pull-requests",
        DetailSection::Worktrees => "worktrees",
    };
    extend_chars(&mut out, chars_of(name).as_slice());
    string_of(out.as_slice())
}

/// What `str::parse::<usize>` gives for `s`.
pub open spec fn parse_usize_spec(s: Seq<char>) -> Option<usize> {
    match parse_u64_spec(s) {
        Some(v) => if v <= usize::MAX {
            Some(v as usize)
        } else {
            None
        },
        None => None,
    }
}

/// Where a link in a detail leads.
pub enum LinkTarget {
    Section(DetailSection),
    Worktree(usize),
    Outside,
}

/// What a link in a detail points at: a section, a worktree by its number,
/// or an outside address.
pub open spec fn link_hit_spec(link: Seq<char>) -> LinkTarget {
    let after_section = link.skip(section_prefix().len() as int);
    let after_worktree = link.skip(worktree_prefix().len() as int);
    if has_prefix(link, section_prefix()) && after_section == "pull-requests"@ {
        LinkTarget::Section(DetailSection::PullRequests)
    } else if has_prefix(link, section_prefix()) && after_section == "worktrees"@ {
        LinkTarget::Section(DetailSection::Worktrees)
    } else if has_prefix(link, worktree_prefix()) && parse_usize_spec(after_worktree) is Some {
        LinkTarget::Worktree(parse_usize_spec(after_worktree).unwrap())
    } else {
        LinkTarget::Outside
    }
}

/// What a link in a detail points at.
pub fn link_hit(link: &str) -> (r: Hit)
    ensures
        match r {
            Hit::Section(section) => link_hit_spec(link@) == LinkTarget::Section(section),
            Hit::Worktree(i) => link_hit_spec(link@) == LinkTarget::Worktree(i),
            Hit::Link(s) => s@ == link@ && link_hit_spec(link@) == LinkTarget::Outside,
            _ => false,
        },
{
    let chars = chars_of(link);
    let section = chars_of("herdr-jira:section:");
    let worktree = chars_of("herdr-jira:worktree:");
    if starts_with(chars.as_slice(), section.as_slice()) {
        let name = slice_chars(chars.as_slice(), section.len(), chars.len());
        assert(name@ =~= link@.skip(section_prefix().len() as int));
        if same_chars(name.as_slice(), chars_of("pull-requests").as_slice()) {
            return Hit::Section(DetailSection::PullRequests);
        }
        if same_chars(name.as_slice(), chars_of("worktrees").as_slice()) {
            return Hit::Section(DetailSection::Worktrees);
        }
    }
    if starts_with(chars.as_slice(), worktree.as_slice()) {
        let rest = slice_chars(chars.as_slice(), worktree.len(), chars.len());
        assert(rest@ =~= link@.skip(worktree_prefix().len() as int));
        if let Some(v) = parse_u64(rest.as_slice()) {
            if v <= usize::MAX as u64 {
                return Hit::Worktree(v as usize);
            }
        }
    }
    Hit::Link(string_of(chars.as_slice()))
}

/// A span of `text` in `style`, not a link.
pub fn span(text: &str, style: SpanStyle) -> (r: RichSpan)
    ensures
        r.text@ == text@,
        r.style == style,
        r.link is None,
{
    RichSpan { text: string_of(chars_of(text).as_slice()), style, link: None }
}

/// A style that is only dimmed, or only bold.
pub open spec fn style_with(bold: bool, dim: bool) -> SpanStyle {
    SpanStyle { bold, dim, ..crate::adf::plain_style() }
}

pub fn styled(bold: bool, dim: bool) -> (r: SpanStyle)
    ensures
        r == style_with(bold, dim),
{
    SpanStyle { bold, dim, ..SpanStyle::plain() }
}

/// The text of a section's header: an open or closed marker, the title, and
/// the count in parentheses.
pub open spec fn header_text(open: bool, title: Seq<char>, count: nat) -> Seq<char> {
    (if open {
        "▾"@
    } else {
        "▸"@
    }) + " "@ + title + " ("@ + decimal_spec(count) + ")"@
}

/// The key hint after a section's header.
pub open spec fn section_hint(section: DetailSection) -> Seq<char> {
    match section {
        DetailSection::PullRequests => "  p"@,
        DetailSection::Worktrees => "  t"@,
    }
}

/// Adds the header of a section to `lines`: a link that folds it, bold when
/// it has items and dimmed when not, and the key hint; an open empty section
/// gets an indented `nenhum` line. Returns whether the section is open (not
/// among `collapsed`).
pub fn section_header(
    lines: &mut Vec<RichLine>,
    section: DetailSection,
    title: &str,
    count: usize,
    collapsed: &[DetailSection],
) -> (open: bool)
    ensures
        open == !collapsed@.contains(section),
        final(lines)@.len() == old(lines)@.len() + 1 + (if open && count == 0 {
            1int
        } else {
            0int
        }),
        final(lines)@.take(old(lines)@.len() as int) == old(lines)@,
        ({
            let h = final(lines)@[old(lines)@.len() as int];
            &&& h.indent == 0
            &&& h.prefix@.len() == 0
            &&& h.spans@.len() == 2
            &&& h.spans@[0].text@ == header_text(open, title@, count as nat)
            &&& h.spans@[0].style == style_with(count > 0, count == 0)
            &&& opt_view(h.spans@[0].link) == Some(section_link_spec(section))
            &&& h.spans@[1].text@ == section_hint(section)
            &&& h.spans@[1].style == style_with(false, true)
            &&& h.spans@[1].link is None
        }),
        open && count == 0 ==> ({
            let e = final(lines)@.last();
            &&& e.indent == 2
            &&& e.prefix@.len() == 0
            &&& e.spans@.len() == 1
            &&& e.spans@[0].text@ == "nenhum"@
            &&& e.spans@[0].style == style_with(false, true)
            &&& e.spans@[0].link is None
        }),
{
    let mut closed = false;
    let mut i: usize = 0;
    while i < collapsed.len()
        invariant
            i <= collapsed.len(),
            closed == exists|j: int| 0 <= j < i && collapsed@[j] == section,
        decreases collapsed.len() - i,
    {
        if collapsed[i] == section {
            closed = true;
        }
        i = i + 1;
    }
    let open = !closed;
    let mut text = chars_of(if open {
        "▾"
    } else {
        "▸"
    });
    extend_chars(&mut text, chars_of(" ").as_slice());
    extend_chars(&mut text, chars_of(title).as_slice());
    extend_chars(&mut text, chars_of(" (").as_slice());
    extend_chars(&mut text, decimal(count as u64).as_slice());
    extend_chars(&mut text, chars_of(")").as_slice());
    let hint = match section {
        DetailSection::PullRequests => "  p",
        DetailSection::Worktrees => "  t",
    };
    let mut spans: Vec<RichSpan> = Vec::new();
    spans.push(
        RichSpan {
            text: string_of(text.as_slice()),
            style: styled(count > 0, count == 0),
            link: Some(section_link(section)),
        },
    );
    spans.push(span(hint, styled(false, true)));
    let ghost before = lines@;
    lines.push(RichLine { indent: 0, prefix: String::new(), spans });
    if open && count == 0 {
        let mut empty: Vec<RichSpan> = Vec::new();
        empty.push(span("nenhum", styled(false, true)));
        lines.push(RichLine { indent: 2, prefix: String::new(), spans: empty });
    }
    assert(lines@.take(before.len() as int) =~= before);
    open
}

/// How long ago something happened, from its age in seconds: `agora` under
/// ten seconds, then seconds, minutes and hours.
pub open spec fn elapsed_label_spec(seconds: u64) -> Seq<char> {
    if seconds <= 9 {
        "agora"@
    } else if seconds <= 59 {
        "há "@ + decimal_spec(seconds as nat) + "s"@
    } else if seconds <= 3599 {
        "há "@ + decimal_spec((seconds / 60) as nat) + "m"@
    } else {
        "há "@ + decimal_spec((seconds / 3600) as nat) + "h"@
    }
}

/// How long ago something happened, from its age in seconds.
pub fn elapsed_label(seconds: u64) -> (r: String)
    ensures
        r@ == elapsed_label_spec(seconds),
{
    if seconds <= 9 {
        return string_of(chars_of("agora").as_slice());
    }
    let (value, unit) = if seconds <= 59 {
        (seconds, "s")
    } else if seconds <= 3599 {
        (seconds / 60, "m")
    } else {
        (seconds / 3600, "h")
    };
    let mut out = chars_of("há ");
    extend_chars(&mut out, decimal(value).as_slice());
    extend_chars(&mut out, chars_of(unit).as_slice());
    string_of(out.as_slice())
}

/// `a + b` for `u16`, stopping at its largest value.
pub open spec fn sat_u16(a: int, b: int) -> u16 {
    if a + b > u16::MAX {
        u16::MAX
    } else {
        (a + b) as u16
    }
}

/// The width of an action's button: its label and a column on each side.
pub open spec fn jira_button_width(action: Action) -> u16 {
    sat_u16((text_width(action_label(action)) as u16) as int, 2)
}

/// Where the buttons after the first `n` go: each `(action, row, column)`, a
/// column apart, a new row when one does not fit in `width` (unless it is
/// the first of its row); the row and column of the next one.
pub open spec fn jira_layout(actions: Seq<Action>, width: u16, n: int) -> (Seq<(Action, u16, u16)>, u16, u16)
    decreases n,
{
    if n <= 0 {
        (Seq::empty(), 0u16, 0u16)
    } else {
        let (placed, row, x) = jira_layout(actions, width, n - 1);
        let w = jira_button_width(actions[n - 1]);
        let (row, x) = if x > 0 && x + w > width {
            (sat_u16(row as int, 1), 0u16)
        } else {
            (row, x)
        };
        (placed.push((actions[n - 1], row, x)), row, sat_u16(sat_u16(x as int, w as int) as int, 1))
    }
}

/// Where the buttons go in `width` columns (positions past the largest `u16`
/// stop there).
pub fn layout_buttons(actions: &[Action], width: u16) -> (r: Vec<(Action, u16, u16)>)
    ensures
        r@ == jira_layout(actions@, width, actions@.len() as int).0,
{
    let mut placed: Vec<(Action, u16, u16)> = Vec::new();
    let mut row: u16 = 0;
    let mut x: u16 = 0;
    let mut i: usize = 0;
    while i < actions.len()
        invariant
            i <= actions.len(),
            jira_layout(actions@, width, i as int) == (placed@, row, x),
        decreases actions.len() - i,
    {
        let action = actions[i];
        let label_width = (str_width(action.label()) as u16).saturating_add(2);
        if x > 0 && x as u32 + label_width as u32 > width as u32 {
            row = row.saturating_add(1);
            x = 0;
        }
        placed.push((action, row, x));
        x = x.saturating_add(label_width).saturating_add(1);
        i = i + 1;
    }
    placed
}

/// std's `String::insert_str`: `value` goes in at byte `at`, which must be a
/// character boundary of the text.
#[verifier::external_body]
fn insert_str(text: &mut String, at: usize, value: &str)
    requires
        vstd::utf8::is_char_boundary(
            vstd::utf8::encode_utf8(old(text)@),
            at as int,
        ),
    ensures
        vstd::utf8::encode_utf8(final(text)@)
            == vstd::utf8::encode_utf8(old(text)@).take(at as int)
            + vstd::string::StringSliceAdditionalSpecFns::spec_bytes(value)
            + vstd::utf8::encode_utf8(old(text)@).skip(at as int),
{
    text.insert_str(at, value);
}

/// Types `value` at byte `cursor` of an edited text and moves the cursor past
/// it.
pub fn insert(text: &mut String, cursor: &mut usize, value: &str)
    requires
        vstd::utf8::is_char_boundary(
            vstd::utf8::encode_utf8(old(text)@),
            *old(cursor) as int,
        ),
        *old(cursor) + vstd::string::StringSliceAdditionalSpecFns::spec_bytes(value).len() <= usize::MAX,
    ensures
        vstd::utf8::encode_utf8(final(text)@)
            == vstd::utf8::encode_utf8(old(text)@).take(
            *old(cursor) as int,
        ) + vstd::string::StringSliceAdditionalSpecFns::spec_bytes(value)
            + vstd::utf8::encode_utf8(old(text)@).skip(
            *old(cursor) as int,
        ),
        *final(cursor) == *old(cursor) + vstd::string::StringSliceAdditionalSpecFns::spec_bytes(value).len(),
{
    insert_str(text, *cursor, value);
    *cursor = *cursor + value.len();
}

} // verus!

verus! {

/// The bytes a character takes in UTF-8.
pub open spec fn utf8_len(c: char) -> nat {
    if (c as u32) < 0x80 {
        1
    } else if (c as u32) < 0x800 {
        2
    } else if (c as u32) < 0x10000 {
        3
    } else {
        4
    }
}

/// The bytes a text takes in UTF-8.
pub open spec fn byte_len(s: Seq<char>) -> nat
    decreases s.len(),
{
    if s.len() == 0 {
        0
    } else {
        byte_len(s.drop_last()) + utf8_len(s.last())
    }
}

/// The comment editor while its text is laid out: the rows so far, the
/// column where the next character goes, and where the cursor is.
pub struct EditorView {
    pub rows: Seq<Seq<char>>,
    pub column: int,
    pub cursor: (int, int),
}

/// The columns of a character in the editor, a control character none.
pub open spec fn editor_cols(c: char) -> int {
    match char_width(c) {
        Some(w) => w as int,
        None => 0,
    }
}

/// The editor after one more character, which starts at byte `at`: the
/// cursor is placed there when it is at that byte; a newline starts a row;
/// a character that does not fit in `width` columns goes to a new row.
pub open spec fn editor_step(v: EditorView, c: char, at: int, cursor: int, width: int) -> EditorView {
    let cur = if at == cursor {
        (v.rows.len() - 1, v.column)
    } else {
        v.cursor
    };
    if c == '\n' {
        EditorView { rows: v.rows.push(Seq::empty()), column: 0, cursor: cur }
    } else {
        let w = editor_cols(c);
        let (rows, column) = if v.column + w > width {
            (v.rows.push(Seq::empty()), 0int)
        } else {
            (v.rows, v.column)
        };
        EditorView {
            rows: rows.update(rows.len() - 1, rows.last().push(c)),
            column: column + w,
            cursor: cur,
        }
    }
}

/// The editor after the characters of `text`.
pub open spec fn editor_fold(text: Seq<char>, cursor: int, width: int) -> EditorView
    decreases text.len(),
{
    if text.len() == 0 {
        EditorView { rows: seq![Seq::empty()], column: 0, cursor: (0, 0) }
    } else {
        editor_step(
            editor_fold(text.drop_last(), cursor, width),
            text.last(),
            byte_len(text.drop_last()) as int,
            cursor,
            width,
        )
    }
}

/// The rows of the comment editor at `width` columns (at least one) and the
/// row and column of the cursor, a byte offset into `text`: at the end of
/// the text it goes after the last character, on a new row when the last
/// one is full.
pub open spec fn wrap_editor_spec(text: Seq<char>, cursor: int, width: int) -> (Seq<Seq<char>>, (int, int)) {
    let w = if width < 1 {
        1
    } else {
        width
    };
    let v = editor_fold(text, cursor, w);
    if cursor >= byte_len(text) {
        if v.column >= w {
            (v.rows.push(Seq::empty()), (v.rows.len() as int, 0))
        } else {
            (v.rows, (v.rows.len() - 1, v.column))
        }
    } else {
        (v.rows, v.cursor)
    }
}

/// The bytes a character takes in UTF-8.
fn char_bytes(c: char) -> (r: usize)
    ensures
        r == utf8_len(c),
{
    let code = c as u32;
    if code < 0x80 {
        1
    } else if code < 0x800 {
        2
    } else if code < 0x10000 {
        3
    } else {
        4
    }
}

proof fn lemma_editor_rows(text: Seq<char>, cursor: int, width: int)
    ensures
        editor_fold(text, cursor, width).rows.len() >= 1,
        editor_fold(text, cursor, width).column >= 0,
        0 <= editor_fold(text, cursor, width).cursor.0 < editor_fold(text, cursor, width).rows.len(),
        editor_fold(text, cursor, width).cursor.1 >= 0,
    decreases text.len(),
{
    if text.len() > 0 {
        lemma_editor_rows(text.drop_last(), cursor, width);
        let v = editor_fold(text.drop_last(), cursor, width);
        if text.last() != '\n' {
            match char_width(text.last()) {
                Some(w) => {},
                None => {},
            }
        }
    }
}

proof fn lemma_byte_len_grows(s: Seq<char>)
    ensures
        byte_len(s) >= s.len(),
    decreases s.len(),
{
    if s.len() > 0 {
        lemma_byte_len_grows(s.drop_last());
    }
}

/// Lays out the comment editor (see [`wrap_editor_spec`]).
pub fn wrap_editor(text: &str, cursor: usize, width: usize) -> (r: (Vec<String>, (usize, usize)))
    requires
        byte_len(text@) <= usize::MAX,
    ensures
        string_views(r.0@) == wrap_editor_spec(text@, cursor as int, width as int).0,
        (r.1.0 as int, r.1.1 as int) == wrap_editor_spec(text@, cursor as int, width as int).1,
{
    let width: usize = if width < 1 {
        1
    } else {
        width
    };
    let chars = chars_of(text);
    let mut rows: Vec<Vec<char>> = Vec::new();
    rows.push(Vec::new());
    let mut cursor_at: (usize, usize) = (0, 0);
    let mut column: usize = 0;
    let mut at: usize = 0;
    let mut i: usize = 0;
    assert(chars@.take(0) =~= Seq::<char>::empty());
    assert(views(rows@) =~= seq![Seq::<char>::empty()]);
    while i < chars.len()
        invariant
            i <= chars@.len(),
            chars@ == text@,
            width >= 1,
            byte_len(text@) <= usize::MAX,
            at as int == byte_len(chars@.take(i as int)),
            ({
                let v = editor_fold(chars@.take(i as int), cursor as int, width as int);
                &&& views(rows@) == v.rows
                &&& column as int == v.column
                &&& (cursor_at.0 as int, cursor_at.1 as int) == v.cursor
            }),
        decreases chars@.len() - i,
    {
        let ghost prefix = chars@.take(i as int);
        let ghost v = editor_fold(prefix, cursor as int, width as int);
        proof {
            assert(chars@.take(i + 1).drop_last() =~= prefix);
            assert(chars@.take(i + 1).last() == chars@[i as int]);
            lemma_editor_rows(prefix, cursor as int, width as int);
            lemma_byte_len_grows(chars@);
        }
        let c = chars[i];
        if at == cursor {
            cursor_at = (rows.len() - 1, column);
        }
        if c == '\n' {
            rows.push(Vec::new());
            column = 0;
            assert(views(rows@) =~= v.rows.push(Seq::empty()));
        } else {
            let w: usize = match width_of_char(c) {
                Some(w) => w,
                None => 0,
            };
            if w > width || column > width - w {
                rows.push(Vec::new());
                column = 0;
                assert(views(rows@) =~= v.rows.push(Seq::empty()));
            }
            let ghost mid = views(rows@);
            let last = rows.len() - 1;
            let mut row = rows[last].clone();
            row.push(c);
            rows.set(last, row);
            assert(views(rows@) =~= mid.update(mid.len() - 1, mid.last().push(c)));
            column = column + w;
        }
        proof {
            assert(byte_len(chars@.take(i + 1)) == at + utf8_len(c));
            lemma_byte_len_prefix(chars@, i + 1);
        }
        at = at + char_bytes(c);
        i = i + 1;
    }
    assert(chars@.take(chars@.len() as int) =~= text@);
    proof {
        lemma_editor_rows(text@, cursor as int, width as int);
    }
    if cursor >= at {
        if column >= width {
            rows.push(Vec::new());
            column = 0;
        }
        cursor_at = (rows.len() - 1, column);
    }
    let mut out: Vec<String> = Vec::new();
    let mut k: usize = 0;
    while k < rows.len()
        invariant
            k <= rows@.len(),
            string_views(out@) == views(rows@).take(k as int),
        decreases rows@.len() - k,
    {
        let ghost before = out@;
        out.push(string_of(rows[k].as_slice()));
        assert(string_views(out@) =~= string_views(before).push(rows@[k as int]@));
        assert(views(rows@).take(k + 1) =~= views(rows@).take(k as int).push(rows@[k as int]@));
        k = k + 1;
    }
    assert(views(rows@).take(rows@.len() as int) =~= views(rows@));
    (out, cursor_at)
}

proof fn lemma_byte_len_prefix(s: Seq<char>, n: int)
    requires
        0 <= n <= s.len(),
    ensures
        byte_len(s.take(n)) <= byte_len(s),
    decreases s.len() - n,
{
    if n < s.len() {
        lemma_byte_len_prefix(s, n + 1);
        assert(s.take(n + 1).drop_last() =~= s.take(n));
    } else {
        assert(s.take(n) =~= s);
    }
}

/// How many characters of `text`, from `i` on with `used` columns already
/// taken, fit in `width` columns with one column left for an ellipsis.
pub open spec fn fitting(text: Seq<char>, width: int, i: int, used: int) -> int
    decreases text.len() - i,
{
    if i < 0 || i >= text.len() || used + char_cols(text[i]) + 1 > width {
        i
    } else {
        fitting(text, width, i + 1, used + char_cols(text[i]))
    }
}

/// `text` when it fits in `width` columns; else as many of its leading
/// characters as fit with an ellipsis after them, and the ellipsis.
pub open spec fn truncate_spec(text: Seq<char>, width: int) -> Seq<char> {
    if text_width(text) <= width {
        text
    } else {
        text.take(fitting(text, width, 0, 0)) + "…"@
    }
}

/// `text` cut to `width` columns, an ellipsis marking the cut (see
/// [`truncate_spec`]).
pub fn truncate(text: &str, width: usize) -> (r: String)
    ensures
        r@ == truncate_spec(text@, width as int),
{
    let chars = chars_of(text);
    if str_width(text) <= width {
        return string_of(chars.as_slice());
    }
    let mut out: Vec<char> = Vec::new();
    let mut used: usize = 0;
    let mut i: usize = 0;
    let mut done = false;
    while i < chars.len() && !done
        invariant
            i <= chars@.len(),
            used <= width,
            out@ == chars@.take(i as int),
            fitting(chars@, width as int, 0, 0) == fitting(chars@, width as int, i as int, used as int),
            done ==> fitting(chars@, width as int, i as int, used as int) == i,
        decreases chars@.len() - i, if done { 0int } else { 1int },
    {
        let w = match width_of_char(chars[i]) {
            Some(w) => w,
            None => 0,
        };
        if w >= width - used {
            done = true;
        } else {
            out.push(chars[i]);
            assert(out@ =~= chars@.take(i as int + 1));
            used = used + w;
            i = i + 1;
        }
    }
    out.push('…');
    proof {
        reveal_strlit("…");
        assert(out@ =~= chars@.take(fitting(chars@, width as int, 0, 0)) + "…"@);
    }
    string_of(out.as_slice())
}

/// The smaller of two columns or rows.
pub open spec fn min_u16(a: u16, b: u16) -> u16 {
    if a < b {
        a
    } else {
        b
    }
}

/// `a - b`, or 0 below it.
pub open spec fn less_u16(a: u16, b: u16) -> u16 {
    if a > b {
        (a - b) as u16
    } else {
        0
    }
}

/// Where a popup of at most `width` × `height` goes in `area`: at most two
/// less than the area each way, yet at least 10 × 3, centred.
pub open spec fn popup_rect_spec(area: Rect, width: u16, height: u16) -> Rect {
    let w0 = min_u16(width, less_u16(area.width, 2));
    let h0 = min_u16(height, less_u16(area.height, 2));
    let w: u16 = if w0 < 10 {
        10
    } else {
        w0
    };
    let h: u16 = if h0 < 3 {
        3
    } else {
        h0
    };
    Rect {
        x: (area.x + less_u16(area.width, w) / 2) as u16,
        y: (area.y + less_u16(area.height, h) / 2) as u16,
        width: w,
        height: h,
    }
}

fn sub_u16(a: u16, b: u16) -> (r: u16)
    ensures
        r == less_u16(a, b),
{
    if a > b {
        a - b
    } else {
        0
    }
}

/// Where a popup of at most `width` × `height` goes in `area` (see
/// [`popup_rect_spec`]).
pub fn popup_rect(area: Rect, width: u16, height: u16) -> (r: Rect)
    requires
        area.x + area.width <= u16::MAX,
        area.y + area.height <= u16::MAX,
    ensures
        r == popup_rect_spec(area, width, height),
{
    let aw = sub_u16(area.width, 2);
    let ah = sub_u16(area.height, 2);
    let w0 = if width < aw {
        width
    } else {
        aw
    };
    let h0 = if height < ah {
        height
    } else {
        ah
    };
    let w: u16 = if w0 < 10 {
        10
    } else {
        w0
    };
    let h: u16 = if h0 < 3 {
        3
    } else {
        h0
    };
    Rect { x: area.x + sub_u16(area.width, w) / 2, y: area.y + sub_u16(area.height, h) / 2, width: w, height: h }
}

/// Where the comment popup's parts go.
pub struct CommentLayout {
    /// The popup, with its border.
    pub popup: Rect,
    /// Inside the border, above the button row.
    pub inner: Rect,
    /// The first editor row shown.
    pub first: usize,
    /// The editor rows shown, from the top of `inner`.
    pub rows: Vec<String>,
    /// Where the cursor goes; none while sending.
    pub cursor: Option<(u16, u16)>,
    /// The row of the buttons, or of the sending notice.
    pub bottom: u16,
    /// The send and cancel buttons; none while sending.
    pub buttons: Vec<(Rect, Action)>,
}

/// The inside of a popup: within its border, above its button row.
pub open spec fn popup_inner(popup: Rect) -> Rect {
    Rect {
        x: (popup.x + 1) as u16,
        y: (popup.y + 1) as u16,
        width: less_u16(popup.width, 2),
        height: less_u16(popup.height, 3),
    }
}

/// The first editor row shown so that the cursor's row is within `height`
/// rows.
pub open spec fn first_row(cursor_row: int, height: u16) -> int {
    if cursor_row > less_u16(height, 1) {
        cursor_row - less_u16(height, 1)
    } else {
        0
    }
}

/// The rows from `first` on, at most `height` of them.
pub open spec fn rows_shown(rows: Seq<Seq<char>>, first: int, height: int) -> Seq<Seq<char>> {
    if first >= rows.len() {
        Seq::empty()
    } else if first + height < rows.len() {
        rows.subrange(first, first + height)
    } else {
        rows.skip(first)
    }
}

/// The send and cancel buttons on row `bottom`, from the left of `inner`,
/// a column apart, none wider than `inner`.
pub open spec fn comment_buttons(inner: Rect, bottom: u16) -> Seq<(Rect, Action)> {
    let send = jira_button_width(Action::Send);
    let cancel = jira_button_width(Action::Cancel);
    let x = sat_u16(sat_u16(inner.x as int, send as int) as int, 1);
    seq![
        (Rect { x: inner.x, y: bottom, width: min_u16(send, inner.width), height: 1 }, Action::Send),
        (Rect { x, y: bottom, width: min_u16(cancel, inner.width), height: 1 }, Action::Cancel),
    ]
}

fn button_width(action: Action) -> (r: u16)
    ensures
        r == jira_button_width(action),
{
    (str_width(action.label()) as u16).saturating_add(2)
}

/// Lays out the comment popup in `area` for `text` with the cursor at byte
/// `cursor`: the popup is at most 72 columns (four less than the area) by
/// 12 rows; the editor rows are wrapped to the inside's width and scrolled
/// so that the cursor's row shows; while sending there is no cursor and no
/// button (positions past the largest `u16` stop there).
pub fn comment_layout(area: Rect, text: &str, cursor: usize, sending: bool) -> (r: CommentLayout)
    requires
        area.width >= 10,
        area.height >= 4,
        area.x + area.width <= u16::MAX,
        area.y + area.height <= u16::MAX,
        byte_len(text@) <= usize::MAX,
    ensures
        r.popup == popup_rect_spec(area, min_u16(less_u16(area.width, 4), 72), 12),
        r.inner == popup_inner(r.popup),
        ({
            let (rows, at) = wrap_editor_spec(text@, cursor as int, r.inner.width as int);
            &&& r.first as int == first_row(at.0, r.inner.height)
            &&& string_views(r.rows@) == rows_shown(rows, r.first as int, r.inner.height as int)
            &&& r.cursor == if sending {
                None
            } else {
                Some((sat_u16(r.inner.x as int, at.1), sat_u16(r.inner.y as int, at.0 - r.first)))
            }
        }),
        r.bottom == r.popup.y + r.popup.height - 2,
        r.buttons@ == if sending {
            Seq::empty()
        } else {
            comment_buttons(r.inner, r.bottom)
        },
{
    let popup = popup_rect(area, if sub_u16(area.width, 4) < 72 {
        sub_u16(area.width, 4)
    } else {
        72
    }, 12);
    let inner = Rect { x: popup.x + 1, y: popup.y + 1, width: sub_u16(popup.width, 2), height: sub_u16(popup.height, 3) };
    let (wrapped, at) = wrap_editor(text, cursor, inner.width as usize);
    let keep = sub_u16(inner.height, 1) as usize;
    let first: usize = if at.0 > keep {
        at.0 - keep
    } else {
        0
    };
    let ghost all = string_views(wrapped@);
    let mut rows: Vec<String> = Vec::new();
    let mut i: usize = first;
    let height = inner.height as usize;
    while i < wrapped.len() && i - first < height
        invariant
            first <= i,
            i <= first + height,
            all == string_views(wrapped@),
            first < wrapped@.len() ==> i <= wrapped@.len(),
            first >= wrapped@.len() ==> i == first,
            rows@.len() == i - first,
            forall|k: int| 0 <= k < i - first ==> #[trigger] rows@[k]@ == all[first + k],
        decreases wrapped@.len() - i,
    {
        rows.push(wrapped[i].clone());
        i = i + 1;
    }
    proof {
        let shown = string_views(rows@);
        if first >= wrapped@.len() {
            assert(shown =~= rows_shown(all, first as int, height as int));
        } else if first + height < wrapped@.len() {
            assert(shown =~= all.subrange(first as int, first + height));
        } else {
            assert(shown =~= all.skip(first as int));
        }
    }
    let cursor_at = if sending {
        None
    } else {
        let col: u16 = if at.1 > (u16::MAX - inner.x) as usize {
            u16::MAX
        } else {
            inner.x + at.1 as u16
        };
        let row_at: usize = at.0 - first;
        let line: u16 = if row_at > (u16::MAX - inner.y) as usize {
            u16::MAX
        } else {
            inner.y + row_at as u16
        };
        Some((col, line))
    };
    let bottom = popup.y + popup.height - 2;
    let mut buttons: Vec<(Rect, Action)> = Vec::new();
    if !sending {
        let send = button_width(Action::Send);
        let cancel = button_width(Action::Cancel);
        buttons.push((Rect { x: inner.x, y: bottom, width: if send < inner.width {
            send
        } else {
            inner.width
        }, height: 1 }, Action::Send));
        let x = inner.x.saturating_add(send).saturating_add(1);
        buttons.push((Rect { x, y: bottom, width: if cancel < inner.width {
            cancel
        } else {
            inner.width
        }, height: 1 }, Action::Cancel));
        assert(buttons@ =~= comment_buttons(inner, bottom));
    }
    CommentLayout { popup, inner, first, rows, cursor: cursor_at, bottom, buttons }
}

/// The buttons of the list, or of the detail view (which adds going back).
pub open spec fn screen_actions_spec(detail: bool) -> Seq<Action> {
    let list = seq![Action::Move, Action::Comment, Action::AssignMe, Action::Browser, Action::Session, Action::Refresh];
    if detail {
        seq![Action::Back] + list
    } else {
        list
    }
}

/// The buttons of the list, or of the detail view.
pub fn screen_actions(detail: bool) -> (r: Vec<Action>)
    ensures
        r@ == screen_actions_spec(detail),
{
    let mut r: Vec<Action> = Vec::new();
    if detail {
        r.push(Action::Back);
    }
    r.push(Action::Move);
    r.push(Action::Comment);
    r.push(Action::AssignMe);
    r.push(Action::Browser);
    r.push(Action::Session);
    r.push(Action::Refresh);
    assert(r@ =~= screen_actions_spec(detail));
    r
}

/// How many rows the first `n` placed buttons take: one past the last row
/// used, none without buttons.
pub open spec fn rows_used(placed: Seq<(Action, u16, u16)>, n: int) -> int
    decreases n,
{
    if n <= 0 {
        0
    } else {
        let before = rows_used(placed, n - 1);
        if placed[n - 1].1 + 1 > before {
            placed[n - 1].1 + 1
        } else {
            before
        }
    }
}

/// The places of the first `n` buttons on screen: from column `left`, the
/// first button row at `top`, as wide as their labels.
pub open spec fn button_rects(placed: Seq<(Action, u16, u16)>, left: u16, top: u16, n: int) -> Seq<(Rect, Action)>
    decreases n,
{
    if n <= 0 {
        Seq::empty()
    } else {
        let (action, row, x) = placed[n - 1];
        button_rects(placed, left, top, n - 1).push(
            (
                Rect {
                    x: sat_u16(left as int, x as int),
                    y: sat_u16(top as int, row as int),
                    width: jira_button_width(action),
                    height: 1,
                },
                action,
            ),
        )
    }
}

/// Where the screen's parts go.
pub struct ScreenLayout {
    /// The title row.
    pub title: Rect,
    /// The list or the detail.
    pub body: Rect,
    /// The notice row, above the buttons.
    pub notice: Rect,
    /// The buttons.
    pub buttons: Vec<(Rect, Action)>,
}

/// Lays out the screen in `area` with `actions` for buttons: nothing on an
/// area under 10 × 4; else the title on the first row, the buttons laid out
/// in one column less than the area at the bottom, the notice row above
/// them, and the body between (positions past the edges stop there).
pub fn screen_layout(actions: &[Action], area: Rect) -> (r: Option<ScreenLayout>)
    requires
        area.x + area.width <= u16::MAX,
        area.y + area.height <= u16::MAX,
    ensures
        r is None <==> (area.width < 10 || area.height < 4),
        r matches Some(l) ==> ({
            let placed = jira_layout(actions@, less_u16(area.width, 1), actions@.len() as int).0;
            let rows = rows_used(placed, placed.len() as int);
            let end = area.y + area.height;
            &&& l.title == (Rect { x: area.x, y: area.y, width: area.width, height: 1 })
            &&& l.body == (Rect {
                x: area.x,
                y: (area.y + 1) as u16,
                width: area.width,
                height: if area.height > rows + 2 {
                    (area.height - rows - 2) as u16
                } else {
                    0u16
                },
            })
            &&& l.notice == (Rect {
                x: area.x,
                y: if end > rows + 1 {
                    (end - rows - 1) as u16
                } else {
                    0u16
                },
                width: area.width,
                height: 1,
            })
            &&& l.buttons@ == button_rects(
                placed,
                area.x,
                if end > rows {
                    (end - rows) as u16
                } else {
                    0u16
                },
                placed.len() as int,
            )
        }),
{
    if area.width < 10 || area.height < 4 {
        return None;
    }
    let placed = layout_buttons(actions, sub_u16(area.width, 1));
    let mut rows: u32 = 0;
    let mut i: usize = 0;
    while i < placed.len()
        invariant
            i <= placed@.len(),
            rows as int == rows_used(placed@, i as int),
            rows <= u16::MAX + 1,
        decreases placed@.len() - i,
    {
        let next = placed[i].1 as u32 + 1;
        if next > rows {
            rows = next;
        }
        i = i + 1;
    }
    let end: u32 = area.y as u32 + area.height as u32;
    let body_height: u16 = if area.height as u32 > rows + 2 {
        (area.height as u32 - rows - 2) as u16
    } else {
        0
    };
    let notice_y: u16 = if end > rows + 1 {
        (end - rows - 1) as u16
    } else {
        0
    };
    let top: u16 = if end > rows {
        (end - rows) as u16
    } else {
        0
    };
    let mut buttons: Vec<(Rect, Action)> = Vec::new();
    let mut j: usize = 0;
    while j < placed.len()
        invariant
            j <= placed@.len(),
            buttons@ == button_rects(placed@, area.x, top, j as int),
        decreases placed@.len() - j,
    {
        let (action, row, x) = placed[j];
        buttons.push(
            (Rect { x: area.x.saturating_add(x), y: top.saturating_add(row), width: button_width(action), height: 1 }, action),
        );
        j = j + 1;
    }
    Some(
        ScreenLayout {
            title: Rect { x: area.x, y: area.y, width: area.width, height: 1 },
            body: Rect { x: area.x, y: area.y + 1, width: area.width, height: body_height },
            notice: Rect { x: area.x, y: notice_y, width: area.width, height: 1 },
            buttons,
        },
    )
}

proof fn lemma_fitting(text: Seq<char>, width: int, i: int, used: int)
    requires
        0 <= i <= text.len(),
        used == crate::adf::cols_before(text, i),
        used + 1 <= width,
    ensures
        ({
            let k = fitting(text, width, i, used);
            &&& i <= k <= text.len()
            &&& crate::adf::cols_before(text, k) + 1 <= width
            &&& k < text.len() ==> crate::adf::cols_before(text, k + 1) + 1 > width
        }),
    decreases text.len() - i,
{
    if i < text.len() {
        assert(crate::adf::cols_before(text, i + 1) == used + char_cols(text[i]));
        if used + char_cols(text[i]) + 1 <= width {
            lemma_fitting(text, width, i + 1, used + char_cols(text[i]));
        }
    }
}

/// A text cut to a width keeps the longest start of it that leaves a column
/// for the ellipsis: a text that fits is kept whole; else the kept
/// characters and the ellipsis fit, and one more character would not.
pub proof fn a_cut_text_keeps_the_longest_start_that_fits(text: Seq<char>, width: int)
    requires
        width >= 1,
    ensures
        text_width(text) <= width ==> truncate_spec(text, width) == text,
        text_width(text) > width ==> exists|k: int|
            0 <= k <= text.len() && truncate_spec(text, width) == text.take(k) + "…"@
                && crate::adf::cols_before(text, k) + 1 <= width && (k < text.len() ==> crate::adf::cols_before(
                text,
                k + 1,
            ) + 1 > width),
{
    assert(crate::adf::cols_before(text, 0) == 0);
    lemma_fitting(text, width, 0, 0);
    let k = fitting(text, width, 0, 0);
    if text_width(text) > width {
        assert(truncate_spec(text, width) == text.take(k) + "…"@);
        assert(0 <= k <= text.len() && truncate_spec(text, width) == text.take(k) + "…"@
            && crate::adf::cols_before(text, k) + 1 <= width && (k < text.len() ==> crate::adf::cols_before(
            text,
            k + 1,
        ) + 1 > width));
    }
}

/// Under ten seconds an age reads `agora`; then it reads in whole units,
/// rounded down: `há {n}s` under a minute, `há {n}m` with `n` the whole
/// minutes under an hour, and `há {n}h` with `n` the whole hours from then
/// on.
pub proof fn ages_read_in_whole_units(seconds: u64)
    ensures
        ({
            let r = elapsed_label_spec(seconds);
            let s = seconds as int;
            &&& s < 10 ==> r == "agora"@
            &&& 10 <= s < 60 ==> r == "há "@ + decimal_spec(seconds as nat) + "s"@
            &&& 60 <= s < 3600 ==> exists|n: nat|
                n * 60 <= s < n * 60 + 60 && r == "há "@ + #[trigger] decimal_spec(n) + "m"@
            &&& 3600 <= s ==> exists|n: nat|
                n * 3600 <= s < n * 3600 + 3600 && r == "há "@ + #[trigger] decimal_spec(n) + "h"@
        }),
{
    let s = seconds as int;
    if 60 <= s < 3600 {
        let n = (s / 60) as nat;
        assert(n * 60 <= s < n * 60 + 60) by (nonlinear_arith)
            requires n == s / 60, s >= 0;
        assert(elapsed_label_spec(seconds) == "há "@ + decimal_spec(n) + "m"@);
    } else if 3600 <= s {
        let n = (s / 3600) as nat;
        assert(n * 3600 <= s < n * 3600 + 3600) by (nonlinear_arith)
            requires n == s / 3600, s >= 0;
        assert(elapsed_label_spec(seconds) == "há "@ + decimal_spec(n) + "h"@);
    }
}

} // verus!
