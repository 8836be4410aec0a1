//! Colored `git diff` output read into styled lines: SGR escape sequences
//! set the style of the text that follows, other escapes are dropped, tabs
//! become spaces to the next stop of eight columns.

use vstd::prelude::*;

use crate::text::chars_of;

verus! {

/// A terminal color: one of the 256 indexed colors, or red, green and blue.
#[derive(Debug, Clone, Copy, PartialEq, Eq, Structural)]
pub enum AnsiColor {
    Indexed(u8),
    Rgb(u8, u8, u8),
}

/// The style of a piece of text: colors and attributes.
#[derive(Debug, Clone, Copy, PartialEq, Eq, Structural)]
pub struct AnsiStyle {
    pub fg: Option<AnsiColor>,
    pub bg: Option<AnsiColor>,
    pub bold: bool,
    pub dim: bool,
    pub italic: bool,
    pub underlined: bool,
    pub reversed: bool,
    pub crossed_out: bool,
}

/// A piece of text in one style.
#[derive(Debug, Clone, PartialEq, Eq)]
pub struct AnsiSpan {
    pub text: String,
    pub style: AnsiStyle,
}

/// A line of styled text.
#[derive(Debug, Clone, PartialEq, Eq)]
pub struct AnsiLine {
    pub spans: Vec<AnsiSpan>,
}

/// No color and no attribute.
pub open spec fn plain_ansi() -> AnsiStyle {
    AnsiStyle {
        fg: None,
        bg: None,
        bold: false,
        dim: false,
        italic: false,
        underlined: false,
        reversed: false,
        crossed_out: false,
    }
}

impl AnsiStyle {
    /// No color and no attribute.
    pub fn plain() -> (r: AnsiStyle)
        ensures
            r == plain_ansi(),
    {
        AnsiStyle {
            fg: None,
            bg: None,
            bold: false,
            dim: false,
            italic: false,
            underlined: false,
            reversed: false,
            crossed_out: false,
        }
    }
}

} // verus!

verus! {

/// The fields of the first `n` characters of SGR parameters, split at `;`
/// and `:`.
pub open spec fn sgr_fields(p: Seq<char>, n: int) -> Seq<Seq<char>>
    decreases n,
{
    if n <= 0 {
        seq![Seq::empty()]
    } else {
        let f = sgr_fields(p, n - 1);
        if p[n - 1] == ';' || p[n - 1] == ':' {
            f.push(Seq::empty())
        } else {
            f.update(f.len() - 1, f.last().push(p[n - 1]))
        }
    }
}

/// A parameter as a number: a `u16` written in decimal, 0 for anything else.
pub open spec fn code_of(field: Seq<char>) -> u16 {
    match crate::text::parse_u64_spec(field) {
        Some(v) => if v <= u16::MAX {
            v as u16
        } else {
            0
        },
        None => 0,
    }
}

/// The codes of SGR parameters: 0 for none, else one per field.
pub open spec fn sgr_codes(params: Seq<char>) -> Seq<u16> {
    if params.len() == 0 {
        seq![0u16]
    } else {
        sgr_fields(params, params.len() as int).map_values(|f: Seq<char>| code_of(f))
    }
}

/// The color after a 38 or 48 code and how many codes it takes: `5;n` an
/// indexed color, `2;r;g;b` a color by its parts (each taken modulo 256);
/// a cut short `5` or `2` takes the rest and gives none; anything else
/// takes nothing.
pub open spec fn extended_color_spec(rest: Seq<u16>) -> (Option<AnsiColor>, int) {
    if rest.len() >= 2 && rest[0] == 5 {
        (Some(AnsiColor::Indexed((rest[1] % 256) as u8)), 2)
    } else if rest.len() >= 4 && rest[0] == 2 {
        (Some(AnsiColor::Rgb((rest[1] % 256) as u8, (rest[2] % 256) as u8, (rest[3] % 256) as u8)), 4)
    } else if (rest.len() == 1 && rest[0] == 5) || (rest.len() >= 1 && rest[0] == 2) {
        (None, rest.len() as int)
    } else {
        (None, 0)
    }
}

/// What one code does to a style, and how many of the codes after it it
/// takes.
pub open spec fn sgr_step(style: AnsiStyle, code: u16, rest: Seq<u16>) -> (AnsiStyle, int) {
    if code == 0 {
        (plain_ansi(), 0)
    } else if code == 1 {
        (AnsiStyle { bold: true, ..style }, 0)
    } else if code == 2 {
        (AnsiStyle { dim: true, ..style }, 0)
    } else if code == 3 {
        (AnsiStyle { italic: true, ..style }, 0)
    } else if code == 4 {
        (AnsiStyle { underlined: true, ..style }, 0)
    } else if code == 7 {
        (AnsiStyle { reversed: true, ..style }, 0)
    } else if code == 9 {
        (AnsiStyle { crossed_out: true, ..style }, 0)
    } else if code == 22 {
        (AnsiStyle { bold: false, dim: false, ..style }, 0)
    } else if code == 23 {
        (AnsiStyle { italic: false, ..style }, 0)
    } else if code == 24 {
        (AnsiStyle { underlined: false, ..style }, 0)
    } else if code == 27 {
        (AnsiStyle { reversed: false, ..style }, 0)
    } else if code == 29 {
        (AnsiStyle { crossed_out: false, ..style }, 0)
    } else if 30 <= code <= 37 {
        (AnsiStyle { fg: Some(AnsiColor::Indexed((code - 30) as u8)), ..style }, 0)
    } else if code == 39 {
        (AnsiStyle { fg: None, ..style }, 0)
    } else if 40 <= code <= 47 {
        (AnsiStyle { bg: Some(AnsiColor::Indexed((code - 40) as u8)), ..style }, 0)
    } else if code == 49 {
        (AnsiStyle { bg: None, ..style }, 0)
    } else if 90 <= code <= 97 {
        (AnsiStyle { fg: Some(AnsiColor::Indexed((code - 90 + 8) as u8)), ..style }, 0)
    } else if 100 <= code <= 107 {
        (AnsiStyle { bg: Some(AnsiColor::Indexed((code - 100 + 8) as u8)), ..style }, 0)
    } else if code == 38 || code == 48 {
        let (color, used) = extended_color_spec(rest);
        (
            match color {
                Some(c) => if code == 38 {
                    AnsiStyle { fg: Some(c), ..style }
                } else {
                    AnsiStyle { bg: Some(c), ..style }
                },
                None => style,
            },
            used,
        )
    } else {
        (style, 0)
    }
}

/// The style after the codes from `i` on.
pub open spec fn sgr_from(style: AnsiStyle, codes: Seq<u16>, i: int) -> AnsiStyle
    decreases codes.len() - i,
{
    if i < 0 || i >= codes.len() {
        style
    } else {
        let (next, used) = sgr_step(style, codes[i], codes.skip(i + 1));
        if used < 0 {
            next
        } else {
            sgr_from(next, codes, i + used + 1)
        }
    }
}

/// The style after an SGR sequence with these parameters.
pub open spec fn sgr_apply(style: AnsiStyle, params: Seq<char>) -> AnsiStyle {
    sgr_from(style, sgr_codes(params), 0)
}

/// The color after a 38 or 48 code, from the codes from `start` on (see
/// `extended_color_spec`).
fn extended_color(codes: &[u16], start: usize) -> (r: (Option<AnsiColor>, usize))
    requires
        start <= codes@.len(),
    ensures
        r.0 == extended_color_spec(codes@.skip(start as int)).0,
        r.1 as int == extended_color_spec(codes@.skip(start as int)).1,
{
    let n = codes.len() - start;
    let ghost rest = codes@.skip(start as int);
    if n >= 2 && codes[start] == 5 {
        (Some(AnsiColor::Indexed((codes[start + 1] % 256) as u8)), 2)
    } else if n >= 4 && codes[start] == 2 {
        (
            Some(
                AnsiColor::Rgb(
                    (codes[start + 1] % 256) as u8,
                    (codes[start + 2] % 256) as u8,
                    (codes[start + 3] % 256) as u8,
                ),
            ),
            4,
        )
    } else if (n == 1 && codes[start] == 5) || (n >= 1 && codes[start] == 2) {
        (None, n)
    } else {
        (None, 0)
    }
}

/// The codes of SGR parameters (see `sgr_codes`).
fn codes_of(params: &[char]) -> (r: Vec<u16>)
    ensures
        r@ == sgr_codes(params@),
{
    let mut out: Vec<u16> = Vec::new();
    if params.len() == 0 {
        out.push(0);
        assert(out@ =~= seq![0u16]);
        return out;
    }
    let mut fields: Vec<Vec<char>> = Vec::new();
    fields.push(Vec::new());
    let mut i: usize = 0;
    while i < params.len()
        invariant
            i <= params@.len(),
            crate::split::views(fields@) == sgr_fields(params@, i as int),
            fields@.len() >= 1,
        decreases params@.len() - i,
    {
        let c = params[i];
        let ghost before = crate::split::views(fields@);
        if c == ';' || c == ':' {
            fields.push(Vec::new());
            assert(crate::split::views(fields@) =~= before.push(Seq::empty()));
        } else {
            let last = fields.len() - 1;
            let mut f = fields.remove(last);
            f.push(c);
            fields.push(f);
            assert(crate::split::views(fields@) =~= before.update(before.len() - 1, before.last().push(c)));
        }
        i = i + 1;
    }
    let mut k: usize = 0;
    while k < fields.len()
        invariant
            k <= fields@.len(),
            crate::split::views(fields@) == sgr_fields(params@, params@.len() as int),
            out@ == sgr_fields(params@, params@.len() as int).take(k as int).map_values(|f: Seq<char>| code_of(f)),
        decreases fields@.len() - k,
    {
        let v = crate::text::parse_u64(fields[k].as_slice());
        let code: u16 = match v {
            Some(n) => if n <= 65535 {
                n as u16
            } else {
                0
            },
            None => 0,
        };
        assert(crate::split::views(fields@)[k as int] == fields@[k as int]@);
        out.push(code);
        assert(out@ =~= sgr_fields(params@, params@.len() as int).take(k + 1).map_values(|f: Seq<char>| code_of(f)));
        k = k + 1;
    }
    assert(sgr_fields(params@, params@.len() as int).take(k as int) =~= sgr_fields(params@, params@.len() as int));
    out
}

/// The style after an SGR sequence with these parameters (see `sgr_apply`).
pub fn apply_sgr(style: AnsiStyle, params: &[char]) -> (r: AnsiStyle)
    ensures
        r == sgr_apply(style, params@),
{
    let codes = codes_of(params);
    let mut s = style;
    let mut i: usize = 0;
    while i < codes.len()
        invariant
            i <= codes@.len(),
            sgr_from(s, codes@, i as int) == sgr_apply(style, params@),
            codes@ == sgr_codes(params@),
        decreases codes@.len() - i,
    {
        let code = codes[i];
        let mut used: usize = 0;
        if code == 0 {
            s = AnsiStyle::plain();
        } else if code == 1 {
            s.bold = true;
        } else if code == 2 {
            s.dim = true;
        } else if code == 3 {
            s.italic = true;
        } else if code == 4 {
            s.underlined = true;
        } else if code == 7 {
            s.reversed = true;
        } else if code == 9 {
            s.crossed_out = true;
        } else if code == 22 {
            s.bold = false;
            s.dim = false;
        } else if code == 23 {
            s.italic = false;
        } else if code == 24 {
            s.underlined = false;
        } else if code == 27 {
            s.reversed = false;
        } else if code == 29 {
            s.crossed_out = false;
        } else if 30 <= code && code <= 37 {
            s.fg = Some(AnsiColor::Indexed((code - 30) as u8));
        } else if code == 39 {
            s.fg = None;
        } else if 40 <= code && code <= 47 {
            s.bg = Some(AnsiColor::Indexed((code - 40) as u8));
        } else if code == 49 {
            s.bg = None;
        } else if 90 <= code && code <= 97 {
            s.fg = Some(AnsiColor::Indexed((code - 90 + 8) as u8));
        } else if 100 <= code && code <= 107 {
            s.bg = Some(AnsiColor::Indexed((code - 100 + 8) as u8));
        } else if code == 38 || code == 48 {
            let (color, n) = extended_color(codes.as_slice(), i + 1);
            match color {
                Some(c) => {
                    if code == 38 {
                        s.fg = Some(c);
                    } else {
                        s.bg = Some(c);
                    }
                },
                None => {},
            }
            used = n;
        }
        assert(used <= codes@.len() - i - 1);
        i = i + used + 1;
    }
    s
}

} // verus!

verus! {

/// A line being read: the current style, the finished spans, the text of
/// the span being written, and the column reached.
pub struct ScanState {
    pub style: AnsiStyle,
    pub spans: Seq<(Seq<char>, AnsiStyle)>,
    pub current: Seq<char>,
    pub column: nat,
}

/// `char::is_control`: the C0 and C1 control characters.
pub open spec fn is_control_spec(c: char) -> bool {
    c <= '\u{1f}' || ('\u{7f}' <= c && c <= '\u{9f}')
}

/// Whether a character ends a control sequence.
pub open spec fn is_final_byte(c: char) -> bool {
    '\u{40}' <= c && c <= '\u{7e}'
}

/// The position of the character that ends a control sequence, from `k` on.
pub open spec fn csi_end(s: Seq<char>, k: int) -> Option<int>
    decreases s.len() - k,
{
    if k < 0 || k >= s.len() {
        None
    } else if is_final_byte(s[k]) {
        Some(k)
    } else {
        csi_end(s, k + 1)
    }
}

/// The position just after the end of an operating system command, from `k`
/// on: after a bell, or after an escape and a backslash.
pub open spec fn osc_end(s: Seq<char>, k: int) -> Option<int>
    decreases s.len() - k,
{
    if k < 0 || k >= s.len() {
        None
    } else if s[k] == '\u{7}' {
        Some(k + 1)
    } else if s[k] == '\u{1b}' && k + 1 < s.len() && s[k + 1] == '\\' {
        Some(k + 2)
    } else {
        osc_end(s, k + 1)
    }
}

pub proof fn lemma_csi_end(s: Seq<char>, k: int)
    requires
        0 <= k,
    ensures
        csi_end(s, k) matches Some(j) ==> k <= j < s.len() && is_final_byte(s[j]),
        csi_end(s, k) is None ==> forall|j: int| k <= j < s.len() ==> !is_final_byte(#[trigger] s[j]),
    decreases s.len() - k,
{
    if k < s.len() && !is_final_byte(s[k]) {
        lemma_csi_end(s, k + 1);
    }
}

pub proof fn lemma_osc_end(s: Seq<char>, k: int)
    requires
        0 <= k,
    ensures
        osc_end(s, k) matches Some(j) ==> k < j <= s.len(),
    decreases s.len() - k,
{
    if k < s.len() && s[k] != '\u{7}' && !(s[k] == '\u{1b}' && k + 1 < s.len() && s[k + 1] == '\\') {
        lemma_osc_end(s, k + 1);
    }
}

/// The span being written, finished when it has text.
pub open spec fn flush_current(st: ScanState) -> ScanState {
    if st.current.len() > 0 {
        ScanState { spans: st.spans.push((st.current, st.style)), current: Seq::empty(), ..st }
    } else {
        st
    }
}

/// `a + b`, kept within `usize`.
pub open spec fn sat_col(a: nat, b: nat) -> nat {
    if a + b > usize::MAX {
        usize::MAX as nat
    } else {
        a + b
    }
}

/// Reads a line from position `i` on. An SGR sequence (`ESC [` parameters
/// `m`) finishes the span and changes the style; other control sequences,
/// operating system commands (`ESC ]` up to a bell or `ESC \`) and other
/// escapes (with the character after them) are dropped, as is everything of
/// an unfinished one. A tab adds spaces up to the next multiple of eight
/// columns; other control characters are dropped; the rest is text.
pub open spec fn scan(s: Seq<char>, i: int, st: ScanState) -> ScanState
    decreases s.len() + 2 - i,
{
    if i < 0 || i >= s.len() {
        st
    } else if s[i] == '\u{1b}' {
        if i + 1 < s.len() && s[i + 1] == '[' {
            proof {
                lemma_csi_end(s, i + 2);
            }
            match csi_end(s, i + 2) {
                Some(j) => scan(
                    s,
                    j + 1,
                    if s[j] == 'm' {
                        let f = flush_current(st);
                        ScanState { style: sgr_apply(f.style, s.subrange(i + 2, j)), ..f }
                    } else {
                        st
                    },
                ),
                None => st,
            }
        } else if i + 1 < s.len() && s[i + 1] == ']' {
            proof {
                lemma_osc_end(s, i + 2);
            }
            match osc_end(s, i + 2) {
                Some(j) => scan(s, j, st),
                None => st,
            }
        } else {
            scan(s, i + 2, st)
        }
    } else if s[i] == '\t' {
        let pad = (8 - st.column % 8) as nat;
        scan(
            s,
            i + 1,
            ScanState {
                current: st.current + crate::adf::spaces(pad),
                column: sat_col(st.column, pad),
                ..st
            },
        )
    } else if is_control_spec(s[i]) {
        scan(s, i + 1, st)
    } else {
        scan(
            s,
            i + 1,
            ScanState {
                current: st.current.push(s[i]),
                column: sat_col(st.column, crate::adf::char_cols(s[i]) as nat),
                ..st
            },
        )
    }
}

/// A line read whole, starting in `style`: its spans and the style it ends
/// in.
pub open spec fn read_line(line: Seq<char>, style: AnsiStyle) -> ScanState {
    flush_current(scan(line, 0, ScanState { style, spans: Seq::empty(), current: Seq::empty(), column: 0 }))
}

/// The spans of the first `n` lines, the style carried from line to line,
/// and the style after them.
pub open spec fn read_lines(lines: Seq<Seq<char>>, n: int) -> (Seq<Seq<(Seq<char>, AnsiStyle)>>, AnsiStyle)
    decreases n,
{
    if n <= 0 {
        (Seq::empty(), plain_ansi())
    } else {
        let (prev, style) = read_lines(lines, n - 1);
        let st = read_line(lines[n - 1], style);
        (prev.push(st.spans), st.style)
    }
}

/// The styled lines of colored output: its text (invalid UTF-8 replaced)
/// split at line breaks and read in turn, without a last line that has no
/// span.
pub open spec fn parse_spec(bytes: Seq<u8>) -> Seq<Seq<(Seq<char>, AnsiStyle)>> {
    let lines = crate::split::pieces(crate::diff::utf8_lossy(bytes), crate::text::CharClass::Newline);
    let all = read_lines(lines, lines.len() as int).0;
    if all.len() > 0 && all.last().len() == 0 {
        all.drop_last()
    } else {
        all
    }
}

/// The spans as plain values.
pub open spec fn spans_view(spans: Seq<AnsiSpan>) -> Seq<(Seq<char>, AnsiStyle)> {
    spans.map_values(|s: AnsiSpan| (s.text@, s.style))
}

/// The lines as plain values.
pub open spec fn lines_view(lines: Seq<AnsiLine>) -> Seq<Seq<(Seq<char>, AnsiStyle)>> {
    lines.map_values(|l: AnsiLine| spans_view(l.spans@))
}

} // verus!

verus! {

/// `char::is_control`.
fn is_control(c: char) -> (r: bool)
    ensures
        r == is_control_spec(c),
{
    c <= '\u{1f}' || ('\u{7f}' <= c && c <= '\u{9f}')
}

/// Finishes the span being written when it has text.
fn flush_span(spans: &mut Vec<AnsiSpan>, current: &mut Vec<char>, style: AnsiStyle)
    ensures
        spans_view(final(spans)@) == (if old(current)@.len() > 0 {
            spans_view(old(spans)@).push((old(current)@, style))
        } else {
            spans_view(old(spans)@)
        }),
        final(current)@ == (if old(current)@.len() > 0 {
            Seq::<char>::empty()
        } else {
            old(current)@
        }),
{
    if current.len() > 0 {
        let ghost before = spans@;
        let text = crate::text::string_of(current.as_slice());
        spans.push(AnsiSpan { text, style });
        *current = Vec::new();
        assert(spans_view(spans@) =~= spans_view(before).push((old(current)@, style)));
    }
}

/// Reads a line whole (see `read_line`): its spans and the style it ends in.
fn scan_line(line: &[char], style: AnsiStyle) -> (r: (Vec<AnsiSpan>, AnsiStyle))
    ensures
        spans_view(r.0@) == read_line(line@, style).spans,
        r.1 == read_line(line@, style).style,
{
    let ghost s = line@;
    let ghost start = ScanState { style, spans: Seq::empty(), current: Seq::empty(), column: 0 };
    let mut st: AnsiStyle = style;
    let mut spans: Vec<AnsiSpan> = Vec::new();
    let mut current: Vec<char> = Vec::new();
    let mut column: usize = 0;
    let mut i: usize = 0;
    assert(spans_view(spans@) =~= Seq::<(Seq<char>, AnsiStyle)>::empty());
    while i < line.len()
        invariant
            i <= line@.len(),
            s == line@,
            scan(s, i as int, ScanState { style: st, spans: spans_view(spans@), current: current@, column: column as nat })
                == scan(s, 0, start),
        decreases line@.len() - i,
    {
        let ghost here = ScanState { style: st, spans: spans_view(spans@), current: current@, column: column as nat };
        let ghost i0 = i as int;
        let c = line[i];
        if c == '\u{1b}' {
            if i + 1 < line.len() && line[i + 1] == '[' {
                proof {
                    lemma_csi_end(s, i + 2);
                }
                let mut j = i + 2;
                while j < line.len() && !('\u{40}' <= line[j] && line[j] <= '\u{7e}')
                    invariant
                        i + 2 <= j <= line@.len(),
                        s == line@,
                        csi_end(s, i + 2) == csi_end(s, j as int),
                    decreases line@.len() - j,
                {
                    j = j + 1;
                }
                if j >= line.len() {
                    i = line.len();
                    assert(scan(s, i0, here) == here);
                    assert(scan(s, i0, here) == scan(s, i as int, ScanState { style: st, spans: spans_view(spans@), current: current@, column: column as nat }));
                } else {
                    if line[j] == 'm' {
                        flush_span(&mut spans, &mut current, st);
                        let params = crate::text::slice_chars(line, i + 2, j);
                        st = apply_sgr(st, params.as_slice());
                        assert(ScanState { style: st, spans: spans_view(spans@), current: current@, column: column as nat }
                            == ScanState { style: sgr_apply(flush_current(here).style, s.subrange(i0 + 2, j as int)), ..flush_current(here) });
                    }
                    i = j + 1;
                    assert(scan(s, i0, here) == scan(s, i as int, ScanState { style: st, spans: spans_view(spans@), current: current@, column: column as nat }));
                }
            } else if i + 1 < line.len() && line[i + 1] == ']' {
                proof {
                    lemma_osc_end(s, i + 2);
                }
                let mut k = i + 2;
                while k < line.len() && !(line[k] == '\u{7}' || (line[k] == '\u{1b}' && k + 1 < line.len()
                    && line[k + 1] == '\\'))
                    invariant
                        i + 2 <= k <= line@.len(),
                        s == line@,
                        osc_end(s, i + 2) == osc_end(s, k as int),
                    decreases line@.len() - k,
                {
                    k = k + 1;
                }
                if k >= line.len() {
                    i = line.len();
                    assert(scan(s, i0, here) == scan(s, i as int, ScanState { style: st, spans: spans_view(spans@), current: current@, column: column as nat }));
                } else if line[k] == '\u{7}' {
                    i = k + 1;
                    assert(scan(s, i0, here) == scan(s, i as int, ScanState { style: st, spans: spans_view(spans@), current: current@, column: column as nat }));
                } else {
                    i = k + 2;
                    assert(scan(s, i0, here) == scan(s, i as int, ScanState { style: st, spans: spans_view(spans@), current: current@, column: column as nat }));
                }
            } else if i + 1 < line.len() {
                i = i + 2;
                assert(scan(s, i0, here) == scan(s, i as int, ScanState { style: st, spans: spans_view(spans@), current: current@, column: column as nat }));
            } else {
                i = line.len();
                assert(scan(s, i0 + 2, here) == here);
                assert(scan(s, i0, here) == scan(s, i as int, ScanState { style: st, spans: spans_view(spans@), current: current@, column: column as nat }));
            }
        } else if c == '\t' {
            let pad: usize = 8 - column % 8;
            crate::adf::push_spaces(&mut current, pad);
            column = column.saturating_add(pad);
            i = i + 1;
            assert(pad as nat == (8 - here.column % 8) as nat);
            assert(scan(s, i0, here) == scan(s, i as int, ScanState { style: st, spans: spans_view(spans@), current: current@, column: column as nat }));
        } else if is_control(c) {
            i = i + 1;
            assert(scan(s, i0, here) == scan(s, i as int, ScanState { style: st, spans: spans_view(spans@), current: current@, column: column as nat }));
        } else {
            current.push(c);
            let w: usize = match crate::adf::width_of_char(c) {
                Some(w) => w,
                None => 0,
            };
            column = column.saturating_add(w);
            i = i + 1;
            assert(w as nat == crate::adf::char_cols(c) as nat);
            assert(scan(s, i0, here) == scan(s, i as int, ScanState { style: st, spans: spans_view(spans@), current: current@, column: column as nat }));
        }
        assert(scan(s, i0, here) == scan(
            s,
            i as int,
            ScanState { style: st, spans: spans_view(spans@), current: current@, column: column as nat },
        ));
    }
    flush_span(&mut spans, &mut current, st);
    (spans, st)
}

/// The styled lines of colored output (see `parse_spec`).
pub fn parse(bytes: &[u8]) -> (r: Vec<AnsiLine>)
    ensures
        lines_view(r@) == parse_spec(bytes@),
{
    let text = crate::diff::from_utf8_lossy(bytes);
    let chars = chars_of(text.as_str());
    let pieces = crate::split::split_pieces(chars.as_slice(), crate::text::CharClass::Newline);
    let ghost ls = crate::split::views(pieces@);
    let mut lines: Vec<AnsiLine> = Vec::new();
    let mut style = AnsiStyle::plain();
    let mut n: usize = 0;
    while n < pieces.len()
        invariant
            n <= pieces@.len(),
            ls == crate::split::views(pieces@),
            lines_view(lines@) == read_lines(ls, n as int).0,
            style == read_lines(ls, n as int).1,
        decreases pieces@.len() - n,
    {
        let (spans, next) = scan_line(pieces[n].as_slice(), style);
        let ghost before = lines@;
        lines.push(AnsiLine { spans });
        assert(lines_view(lines@) =~= lines_view(before).push(spans_view(spans@)));
        style = next;
        n = n + 1;
    }
    let k = lines.len();
    if k > 0 && lines[k - 1].spans.len() == 0 {
        let ghost before = lines@;
        lines.pop();
        assert(lines_view(lines@) =~= lines_view(before).drop_last());
    }
    lines
}

} // verus!

verus! {

/// A background code (40 to 47) sets the background to the color it names
/// and leaves the rest of the style, the foreground among it, as it was; the
/// codes after it then apply to that style.
pub proof fn background_codes_set_only_the_background(s: AnsiStyle, codes: Seq<u16>, i: int)
    requires
        0 <= i < codes.len(),
        40 <= codes[i] <= 47,
    ensures
        sgr_from(s, codes, i) == sgr_from(
            AnsiStyle { bg: Some(AnsiColor::Indexed((codes[i] - 40) as u8)), ..s },
            codes,
            i + 1,
        ),
        ({
            let r = sgr_from(s, seq![codes[i]], 0);
            &&& r.bg == Some(AnsiColor::Indexed((codes[i] - 40) as u8))
            &&& r.fg == s.fg
            &&& r.bold == s.bold && r.dim == s.dim && r.italic == s.italic
            &&& r.underlined == s.underlined && r.reversed == s.reversed && r.crossed_out == s.crossed_out
        }),
{
    let c = codes[i];
    let one = seq![c];
    assert(one[0] == c);
    assert(sgr_from(AnsiStyle { bg: Some(AnsiColor::Indexed((c - 40) as u8)), ..s }, one, 1)
        == AnsiStyle { bg: Some(AnsiColor::Indexed((c - 40) as u8)), ..s });
}

/// The parameters `4d` (a digit `d` from 0 to 7), as git writes a
/// background color, set the background to color `d` and leave the
/// foreground as it was.
pub proof fn background_parameters_set_the_background(s: AnsiStyle, d: char)
    requires
        '0' <= d <= '7',
    ensures
        sgr_apply(s, seq!['4', d]).bg == Some(AnsiColor::Indexed((d as u32 - '0' as u32) as u8)),
        sgr_apply(s, seq!['4', d]).fg == s.fg,
{
    let p = seq!['4', d];
    reveal_with_fuel(sgr_fields, 3);
    let f0 = sgr_fields(p, 0);
    assert(f0 =~= seq![Seq::<char>::empty()]);
    let f1 = sgr_fields(p, 1);
    assert(f1 =~= f0.update(0, f0[0].push('4')));
    assert(f1 =~= seq![seq!['4']]);
    let f = sgr_fields(p, 2);
    assert(f =~= f1.update(0, f1[0].push(d)));
    assert(seq!['4'].push(d) =~= p);
    assert(f =~= seq![p]);
    assert(p.len() > 0 && p[0] != '+');
    assert(crate::text::all_digits(p)) by {
        assert forall|i: int| 0 <= i < p.len() implies crate::text::is_ascii_digit_spec(#[trigger] p[i]) by {}
    }
    reveal_with_fuel(crate::text::digits_value, 3);
    assert(p.drop_last() =~= seq!['4']);
    assert(seq!['4'].drop_last() =~= Seq::<char>::empty());
    assert(crate::text::digits_value(p) == 40 + (d as nat - '0' as nat));
    let codes = sgr_codes(p);
    assert(codes =~= seq![(40 + (d as u32 - '0' as u32)) as u16]);
    background_codes_set_only_the_background(s, codes, 0);
}

/// Whether `r` is `s` with the given parts changed (`Some` to that value,
/// `None` for unchanged), every other part kept.
pub open spec fn style_as(
    r: AnsiStyle,
    s: AnsiStyle,
    fg: Option<Option<AnsiColor>>,
    bg: Option<Option<AnsiColor>>,
    bold: Option<bool>,
    dim: Option<bool>,
    italic: Option<bool>,
    underlined: Option<bool>,
    reversed: Option<bool>,
    crossed_out: Option<bool>,
) -> bool {
    &&& r.fg == (match fg { Some(v) => v, None => s.fg })
    &&& r.bg == (match bg { Some(v) => v, None => s.bg })
    &&& r.bold == (match bold { Some(v) => v, None => s.bold })
    &&& r.dim == (match dim { Some(v) => v, None => s.dim })
    &&& r.italic == (match italic { Some(v) => v, None => s.italic })
    &&& r.underlined == (match underlined { Some(v) => v, None => s.underlined })
    &&& r.reversed == (match reversed { Some(v) => v, None => s.reversed })
    &&& r.crossed_out == (match crossed_out { Some(v) => v, None => s.crossed_out })
}

/// What one SGR code does to a style, part by part: 0 resets everything;
/// 1, 2, 3, 4, 7 and 9 turn on bold, dim, italic, underline, reverse and
/// strike-through, and 22 (bold and dim), 23, 24, 27 and 29 turn them off;
/// 30 to 37 and 90 to 97 set the foreground to color 0 to 7 and 8 to 15,
/// 39 clears it; 40 to 47 and 100 to 107 do the same for the background,
/// 49 clears it; any other code (but 38 and 48, which take a color from the
/// codes after them) changes nothing. Each touches only its own part.
pub proof fn each_code_changes_only_its_part(s: AnsiStyle, c: u16)
    requires
        c != 38 && c != 48,
    ensures
        ({
            let r = sgr_from(s, seq![c], 0);
            let n = None::<bool>;
            let nc = None::<Option<AnsiColor>>;
            &&& c == 0 ==> r == plain_ansi()
            &&& c == 1 ==> style_as(r, s, nc, nc, Some(true), n, n, n, n, n)
            &&& c == 2 ==> style_as(r, s, nc, nc, n, Some(true), n, n, n, n)
            &&& c == 3 ==> style_as(r, s, nc, nc, n, n, Some(true), n, n, n)
            &&& c == 4 ==> style_as(r, s, nc, nc, n, n, n, Some(true), n, n)
            &&& c == 7 ==> style_as(r, s, nc, nc, n, n, n, n, Some(true), n)
            &&& c == 9 ==> style_as(r, s, nc, nc, n, n, n, n, n, Some(true))
            &&& c == 22 ==> style_as(r, s, nc, nc, Some(false), Some(false), n, n, n, n)
            &&& c == 23 ==> style_as(r, s, nc, nc, n, n, Some(false), n, n, n)
            &&& c == 24 ==> style_as(r, s, nc, nc, n, n, n, Some(false), n, n)
            &&& c == 27 ==> style_as(r, s, nc, nc, n, n, n, n, Some(false), n)
            &&& c == 29 ==> style_as(r, s, nc, nc, n, n, n, n, n, Some(false))
            &&& 30 <= c <= 37 ==> style_as(r, s, Some(Some(AnsiColor::Indexed((c - 30) as u8))), nc, n, n, n, n, n, n)
            &&& c == 39 ==> style_as(r, s, Some(None), nc, n, n, n, n, n, n)
            &&& 40 <= c <= 47 ==> style_as(r, s, nc, Some(Some(AnsiColor::Indexed((c - 40) as u8))), n, n, n, n, n, n)
            &&& c == 49 ==> style_as(r, s, nc, Some(None), n, n, n, n, n, n)
            &&& 90 <= c <= 97 ==> style_as(r, s, Some(Some(AnsiColor::Indexed((c - 82) as u8))), nc, n, n, n, n, n, n)
            &&& 100 <= c <= 107 ==> style_as(r, s, nc, Some(Some(AnsiColor::Indexed((c - 92) as u8))), n, n, n, n, n, n)
            &&& !(c <= 4 || c == 7 || c == 9 || c == 22 || c == 23 || c == 24 || c == 27 || 29 <= c <= 37 || 39 <= c <= 47
                || c == 49 || 90 <= c <= 97 || 100 <= c <= 107) ==> r == s
        }),
{
    let one = seq![c];
    assert(one[0] == c);
    let (next, used) = sgr_step(s, c, one.skip(1));
    assert(used == 0);
    assert(sgr_from(next, one, 1) == next);
}

/// Codes apply one after the other: a code other than 38 and 48 acts on the
/// style alone, and the codes after it act on what it gave.
pub proof fn codes_apply_in_order(s: AnsiStyle, codes: Seq<u16>, i: int)
    requires
        0 <= i < codes.len(),
        codes[i] != 38 && codes[i] != 48,
    ensures
        sgr_from(s, codes, i) == sgr_from(sgr_from(s, seq![codes[i]], 0), codes, i + 1),
{
    let one = seq![codes[i]];
    assert(one[0] == codes[i]);
    assert(sgr_from(sgr_step(s, codes[i], one.skip(1)).0, one, 1) == sgr_step(s, codes[i], one.skip(1)).0);
}

/// `38;5;n` sets the foreground to indexed color `n` and `48;5;n` the
/// background; `38;2;r;g;b` and `48;2;r;g;b` set them to the color with
/// those parts; each leaves the rest of the style as it was.
pub proof fn extended_colors_set_their_part(s: AnsiStyle, n: u16, red: u16, green: u16, blue: u16)
    requires
        n < 256 && red < 256 && green < 256 && blue < 256,
    ensures
        ({
            let nb = None::<bool>;
            let nc = None::<Option<AnsiColor>>;
            let indexed = Some(Some(AnsiColor::Indexed(n as u8)));
            let rgb = Some(Some(AnsiColor::Rgb(red as u8, green as u8, blue as u8)));
            &&& style_as(sgr_from(s, seq![38u16, 5, n], 0), s, indexed, nc, nb, nb, nb, nb, nb, nb)
            &&& style_as(sgr_from(s, seq![48u16, 5, n], 0), s, nc, indexed, nb, nb, nb, nb, nb, nb)
            &&& style_as(sgr_from(s, seq![38u16, 2, red, green, blue], 0), s, rgb, nc, nb, nb, nb, nb, nb, nb)
            &&& style_as(sgr_from(s, seq![48u16, 2, red, green, blue], 0), s, nc, rgb, nb, nb, nb, nb, nb, nb)
        }),
{
    let a = seq![38u16, 5, n];
    assert(a.skip(1) =~= seq![5u16, n]);
    assert(sgr_from(AnsiStyle { fg: Some(AnsiColor::Indexed(n as u8)), ..s }, a, 3) == AnsiStyle {
        fg: Some(AnsiColor::Indexed(n as u8)),
        ..s
    });
    let b = seq![48u16, 5, n];
    assert(b.skip(1) =~= seq![5u16, n]);
    assert(sgr_from(AnsiStyle { bg: Some(AnsiColor::Indexed(n as u8)), ..s }, b, 3) == AnsiStyle {
        bg: Some(AnsiColor::Indexed(n as u8)),
        ..s
    });
    let c = seq![38u16, 2, red, green, blue];
    assert(c.skip(1) =~= seq![2u16, red, green, blue]);
    let rgb = AnsiColor::Rgb(red as u8, green as u8, blue as u8);
    assert(sgr_from(AnsiStyle { fg: Some(rgb), ..s }, c, 5) == AnsiStyle { fg: Some(rgb), ..s });
    let d = seq![48u16, 2, red, green, blue];
    assert(d.skip(1) =~= seq![2u16, red, green, blue]);
    assert(sgr_from(AnsiStyle { bg: Some(rgb), ..s }, d, 5) == AnsiStyle { bg: Some(rgb), ..s });
}

/// Whether every character of `t` is printable text (no control
/// character, escape or tab among them).
pub open spec fn printable(t: Seq<char>) -> bool {
    forall|k: int| 0 <= k < t.len() ==> !is_control_spec(#[trigger] t[k])
}

/// Printable characters are text: reading them adds them, in order, to the
/// span being written, in the same style, and finishes no span.
pub proof fn printable_text_is_kept(s: Seq<char>, i: int, st: ScanState)
    requires
        0 <= i <= s.len(),
        printable(s.skip(i)),
    ensures
        scan(s, i, st).spans == st.spans,
        scan(s, i, st).style == st.style,
        scan(s, i, st).current == st.current + s.skip(i),
    decreases s.len() - i,
{
    if i < s.len() {
        assert(s.skip(i)[0] == s[i]);
        assert(!is_control_spec(s[i]));
        assert('\u{1b}' <= '\u{1f}' && '\t' <= '\u{1f}');
        let next = ScanState {
            current: st.current.push(s[i]),
            column: sat_col(st.column, crate::adf::char_cols(s[i]) as nat),
            ..st
        };
        assert(scan(s, i, st) == scan(s, i + 1, next));
        assert forall|k: int| 0 <= k < s.skip(i + 1).len() implies !is_control_spec(#[trigger] s.skip(i + 1)[k]) by {
            assert(s.skip(i + 1)[k] == s.skip(i)[k + 1]);
        }
        printable_text_is_kept(s, i + 1, next);
        assert(st.current.push(s[i]) + s.skip(i + 1) =~= st.current + s.skip(i));
    } else {
        assert(s.skip(i) =~= Seq::<char>::empty());
        assert(st.current + s.skip(i) =~= st.current);
    }
}

/// A line of printable text is one span of that text, in the style the line
/// starts in, and leaves the style as it was.
pub proof fn a_plain_line_is_one_span(line: Seq<char>, style: AnsiStyle)
    requires
        line.len() > 0,
        printable(line),
    ensures
        read_line(line, style).spans == seq![(line, style)],
        read_line(line, style).style == style,
{
    let st = ScanState { style, spans: Seq::empty(), current: Seq::empty(), column: 0 };
    assert(line.skip(0) =~= line);
    printable_text_is_kept(line, 0, st);
    assert(Seq::<char>::empty() + line =~= line);
}

/// An SGR sequence in front of printable text styles it: the text is one
/// span in the style that the sequence's parameters give, which the line
/// then ends in.
pub proof fn an_sgr_sequence_styles_the_text_after_it(params: Seq<char>, text: Seq<char>, style: AnsiStyle)
    requires
        forall|k: int| 0 <= k < params.len() ==> ('0' <= #[trigger] params[k] <= '9' || params[k] == ';'),
        text.len() > 0,
        printable(text),
    ensures
        ({
            let line = seq!['\u{1b}', '['] + params + seq!['m'] + text;
            &&& read_line(line, style).spans == seq![(text, sgr_apply(style, params))]
            &&& read_line(line, style).style == sgr_apply(style, params)
        }),
{
    let line = seq!['\u{1b}', '['] + params + seq!['m'] + text;
    let j: int = params.len() as int + 2;
    assert(line[0] == '\u{1b}' && line[1] == '[');
    assert forall|k: int| 2 <= k < j implies !is_final_byte(#[trigger] line[k]) by {
        assert(line[k] == params[k - 2]);
    }
    assert(line[j] == 'm');
    assert(is_final_byte('m'));
    assert forall|k: int| 2 <= k <= j implies csi_end(line, k) == Some(j) by {
        lemma_csi_reaches(line, k, j);
    }
    assert(line.subrange(2, j) =~= params);
    let st = ScanState { style, spans: Seq::empty(), current: Seq::empty(), column: 0 };
    let styled = ScanState { style: sgr_apply(style, params), ..st };
    assert(flush_current(st) == st);
    assert(scan(line, 0, st) == scan(line, j + 1, styled));
    assert(line.skip(j + 1) =~= text);
    printable_text_is_kept(line, j + 1, styled);
    assert(Seq::<char>::empty() + text =~= text);
}

proof fn lemma_csi_reaches(s: Seq<char>, k: int, j: int)
    requires
        0 <= k <= j < s.len(),
        is_final_byte(s[j]),
        forall|m: int| k <= m < j ==> !is_final_byte(#[trigger] s[m]),
    ensures
        csi_end(s, k) == Some(j),
    decreases j - k,
{
    if k < j {
        lemma_csi_reaches(s, k + 1, j);
    }
}

/// A tab at the start of a line is eight spaces of text.
pub proof fn a_leading_tab_is_eight_spaces(text: Seq<char>, style: AnsiStyle)
    requires
        printable(text),
    ensures
        read_line(seq!['\t'] + text, style).spans == seq![(crate::adf::spaces(8) + text, style)],
{
    let line = seq!['\t'] + text;
    let st = ScanState { style, spans: Seq::empty(), current: Seq::empty(), column: 0 };
    assert(line[0] == '\t');
    assert(line[0] != '\u{1b}');
    let tabbed = ScanState { current: crate::adf::spaces(8), column: sat_col(0, 8), ..st };
    assert(Seq::<char>::empty() + crate::adf::spaces(8) =~= crate::adf::spaces(8));
    assert(scan(line, 0, st) == scan(line, 1, tabbed));
    assert(line.skip(1) =~= text);
    printable_text_is_kept(line, 1, tabbed);
    assert(crate::adf::spaces(8).len() > 0);
}

} // verus!
