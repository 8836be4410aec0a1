//! Rendering of Jira documents (the Atlassian document format) into rich
//! lines: paragraphs and headings separated by blank lines, numbered and
//! nested lists, code blocks, quotes, panels, tables, and inline marks,
//! links and mentions. Unknown nodes show their text.

use vstd::prelude::*;

use crate::adf::{plain_style, spaces, RichLine, RichSpan, Renderer, SpanStyle};
use crate::json::{content_items, lemma_content_decreases, Json};
use crate::model::{get, items_of, json_get, opt_get, raw_text, or_empty};
use crate::split::{join_with, opt_view, pieces, views};
use crate::text::{chars_of, eq_str, extend_chars, string_of, trim, trim_spec, CharClass};

verus! {

/// A span as plain values.
pub struct SpanV {
    pub text: Seq<char>,
    pub style: SpanStyle,
    pub link: Option<Seq<char>>,
}

/// A line as plain values.
pub struct LineV {
    pub indent: nat,
    pub prefix: Seq<char>,
    pub spans: Seq<SpanV>,
}

/// A renderer as plain values: the finished lines and the current one.
pub struct RV {
    pub lines: Seq<LineV>,
    pub current: Option<LineV>,
}

/// The view of a span.
pub open spec fn span_v(s: RichSpan) -> SpanV {
    SpanV { text: s.text@, style: s.style, link: opt_view(s.link) }
}

/// The view of a line.
pub open spec fn line_v(l: RichLine) -> LineV {
    LineV { indent: l.indent as nat, prefix: l.prefix@, spans: l.spans@.map_values(|s: RichSpan| span_v(s)) }
}

/// The views of lines.
pub open spec fn lines_v(ls: Seq<RichLine>) -> Seq<LineV> {
    ls.map_values(|l: RichLine| line_v(l))
}

/// The view of a renderer.
pub open spec fn rv(r: Renderer) -> RV {
    RV {
        lines: lines_v(r.lines@),
        current: match r.current {
            Some(l) => Some(line_v(l)),
            None => None,
        },
    }
}

/// An empty line.
pub open spec fn empty_line(indent: nat, prefix: Seq<char>) -> LineV {
    LineV { indent, prefix, spans: Seq::empty() }
}

/// The current line finished.
pub open spec fn sflush(st: RV) -> RV {
    RV {
        lines: match st.current {
            Some(l) => st.lines.push(l),
            None => st.lines,
        },
        current: None,
    }
}

/// A new line started with `indent` and `prefix`.
pub open spec fn sstart(st: RV, indent: nat, prefix: Seq<char>) -> RV {
    RV { lines: sflush(st).lines, current: Some(empty_line(indent, prefix)) }
}

/// The current line finished and a blank line added after a line with text.
pub open spec fn sblank(st: RV) -> RV {
    let f = sflush(st);
    if f.lines.len() > 0 && f.lines.last().spans.len() > 0 {
        RV { lines: f.lines.push(empty_line(0, Seq::empty())), current: None }
    } else {
        f
    }
}

/// A span added to the current line (a new plain line when there is none).
pub open spec fn spush(st: RV, text: Seq<char>, style: SpanStyle, link: Option<Seq<char>>) -> RV {
    let base = match st.current {
        Some(l) => l,
        None => empty_line(0, Seq::empty()),
    };
    RV {
        lines: match st.current {
            Some(_) => st.lines,
            None => sflush(st).lines,
        },
        current: Some(LineV { spans: base.spans.push(SpanV { text, style, link }), ..base }),
    }
}

/// Where a continuation of the current line starts.
pub open spec fn scont(st: RV) -> (nat, Seq<char>) {
    match st.current {
        Some(l) => (l.indent, spaces(l.prefix.len())),
        None => (0, Seq::empty()),
    }
}

/// A new line continuing the current one.
pub open spec fn snewline(st: RV) -> RV {
    sstart(st, scont(st).0, scont(st).1)
}

/// `a + b`, kept within `usize`.
pub open spec fn isat(a: nat, b: nat) -> nat {
    if a + b > usize::MAX {
        usize::MAX as nat
    } else {
        a + b
    }
}

/// The type of a node.
pub open spec fn ntype(node: Json) -> Seq<char> {
    or_empty(raw_text(json_get(node, "type"@)))
}

/// A text attribute of a node.
pub open spec fn nattr(node: Json, key: Seq<char>) -> Option<Seq<char>> {
    raw_text(opt_get(json_get(node, "attrs"@), key))
}

/// Whether a node type starts lines of its own in collected text.
pub open spec fn is_line_type(t: Seq<char>) -> bool {
    t == "paragraph"@ || t == "codeBlock"@ || t == "listItem"@
}

/// The plain text of a node: its `text`, a line break for a hard break, the
/// text of a mention, else the text of its children, joined by line breaks
/// when one of them is a paragraph, code block or list item.
pub open spec fn collect_s(node: Json) -> Seq<char>
    decreases node, 2int, 0int,
{
    match raw_text(json_get(node, "text"@)) {
        Some(t) => t,
        None => if ntype(node) == "hardBreak"@ {
            seq!['\n']
        } else if ntype(node) == "mention"@ {
            or_empty(nattr(node, "text"@))
        } else {
            join_with(
                collect_list_s(node, 0),
                if exists|j: int| 0 <= j < content_items(node).len() && is_line_type(ntype(#[trigger] content_items(node)[j])) {
                    seq!['\n']
                } else {
                    Seq::empty()
                },
            )
        },
    }
}

/// The plain texts of the children of a node from the `i`-th on.
pub open spec fn collect_list_s(node: Json, i: int) -> Seq<Seq<char>>
    decreases node, 1int, content_items(node).len() - i,
{
    if 0 <= i < content_items(node).len() {
        proof {
            lemma_content_decreases(node, i);
        }
        seq![collect_s(content_items(node)[i])] + collect_list_s(node, i + 1)
    } else {
        Seq::empty()
    }
}

} // verus!

verus! {

/// The children of a node.
pub fn content_of(node: &Json) -> (r: &[Json])
    ensures
        r@ == content_items(*node),
{
    match node {
        Json::Object(entries) => {
            let mut i: usize = 0;
            while i < entries.len()
                invariant
                    i <= entries@.len(),
                    *node == Json::Object(*entries),
                    crate::json::content_index(entries@, 0) == crate::json::content_index(entries@, i as int),
                decreases entries@.len() - i,
            {
                if eq_str(entries[i].0.as_str(), "content") {
                    proof {
                        reveal_strlit("content");
                    }
                    return match &entries[i].1 {
                        Json::Array(items) => items.as_slice(),
                        _ => &[],
                    };
                }
                i = i + 1;
            }
            &[]
        },
        _ => &[],
    }
}

/// The type of a node.
fn node_type(node: &Json) -> (r: String)
    ensures
        r@ == ntype(*node),
{
    match get(node, "type") {
        Some(Json::Text(t)) => t.clone(),
        _ => String::new(),
    }
}

/// A text attribute of a node.
fn attr(node: &Json, key: &str) -> (r: Option<String>)
    ensures
        opt_view(r) == nattr(*node, key@),
{
    match get(node, "attrs") {
        Some(attrs) => match get(attrs, key) {
            Some(Json::Text(t)) => Some(t.clone()),
            _ => None,
        },
        None => None,
    }
}

/// Whether a node type starts lines of its own in collected text.
fn line_type(t: &str) -> (r: bool)
    ensures
        r == is_line_type(t@),
{
    eq_str(t, "paragraph") || eq_str(t, "codeBlock") || eq_str(t, "listItem")
}

/// The plain text of a node (see `collect_s`).
pub fn collect_text(node: &Json) -> (r: String)
    ensures
        r@ == collect_s(*node),
    decreases node,
{
    match get(node, "text") {
        Some(Json::Text(t)) => {
            return t.clone();
        },
        _ => {},
    }
    let t = node_type(node);
    if eq_str(t.as_str(), "hardBreak") {
        let mut v: Vec<char> = Vec::new();
        v.push('\n');
        return string_of(v.as_slice());
    }
    if eq_str(t.as_str(), "mention") {
        return match attr(node, "text") {
            Some(s) => s,
            None => String::new(),
        };
    }
    let items = content_of(node);
    let mut parts: Vec<Vec<char>> = Vec::new();
    let mut lines = false;
    let mut i: usize = 0;
    while i < items.len()
        invariant
            i <= items@.len(),
            items@ == content_items(*node),
            views(parts@) + collect_list_s(*node, i as int) == collect_list_s(*node, 0),
            lines == exists|j: int| 0 <= j < i && is_line_type(ntype(#[trigger] content_items(*node)[j])),
        decreases items@.len() - i,
    {
        proof {
            lemma_content_decreases(*node, i as int);
        }
        let child = collect_text(&items[i]);
        let ghost before = parts@;
        parts.push(chars_of(child.as_str()));
        assert(views(parts@) =~= views(before).push(child@));
        assert(collect_list_s(*node, i as int) =~= seq![child@] + collect_list_s(*node, i + 1));
        assert(views(parts@) + collect_list_s(*node, i + 1) =~= views(before) + collect_list_s(*node, i as int));
        let ct = node_type(&items[i]);
        if line_type(ct.as_str()) {
            lines = true;
        }
        i = i + 1;
    }
    assert(collect_list_s(*node, i as int) =~= Seq::<Seq<char>>::empty());
    assert(views(parts@) =~= collect_list_s(*node, 0));
    let sep: Vec<char> = if lines {
        let mut v: Vec<char> = Vec::new();
        v.push('\n');
        v
    } else {
        Vec::new()
    };
    assert(sep@ =~= if exists|j: int| 0 <= j < content_items(*node).len() && is_line_type(ntype(#[trigger] content_items(*node)[j])) {
        seq!['\n']
    } else {
        Seq::<char>::empty()
    });
    string_of(crate::split::join_parts(&parts, sep.as_slice()).as_slice())
}

} // verus!

verus! {

/// Finishes the current line.
fn r_flush(r: &mut Renderer)
    ensures
        rv(*final(r)) == sflush(rv(*old(r))),
{
    let ghost before = r.lines@;
    let ghost cur = r.current;
    r.flush();
    proof {
        match cur {
            Some(l) => {
                assert(lines_v(r.lines@) =~= lines_v(before).push(line_v(l)));
            },
            None => {
                assert(lines_v(r.lines@) =~= lines_v(before));
            },
        }
    }
}

/// Starts a line with `indent` and `prefix`.
fn r_start(r: &mut Renderer, indent: usize, prefix: String)
    ensures
        rv(*final(r)) == sstart(rv(*old(r)), indent as nat, prefix@),
{
    r_flush(r);
    r.current = Some(RichLine { indent, prefix, spans: Vec::new() });
    proof {
        let l = r.current->0;
        assert(l.spans@.map_values(|s: RichSpan| span_v(s)) =~= Seq::<SpanV>::empty());
    }
}

/// Finishes the line and adds a blank line after a line with text.
fn r_blank(r: &mut Renderer)
    ensures
        rv(*final(r)) == sblank(rv(*old(r))),
{
    r_flush(r);
    let n = r.lines.len();
    if n > 0 && r.lines[n - 1].spans.len() > 0 {
        let ghost before = r.lines@;
        r.lines.push(RichLine { indent: 0, prefix: String::new(), spans: Vec::new() });
        proof {
            let l = r.lines@.last();
            assert(l.spans@.map_values(|s: RichSpan| span_v(s)) =~= Seq::<SpanV>::empty());
            assert(lines_v(r.lines@) =~= lines_v(before).push(empty_line(0, Seq::empty())));
            assert(lines_v(before).last().spans.len() == before.last().spans@.len());
        }
    } else {
        proof {
            if n > 0 {
                assert(lines_v(r.lines@).last().spans.len() == r.lines@.last().spans@.len());
            }
        }
    }
}

/// Adds a span to the current line.
fn r_push(r: &mut Renderer, text: &str, style: SpanStyle, link: Option<String>)
    ensures
        rv(*final(r)) == spush(rv(*old(r)), text@, style, opt_view(link)),
{
    if r.current.is_none() {
        r_start(r, 0, String::new());
    }
    let mut line = match r.current.take() {
        Some(l) => l,
        None => RichLine { indent: 0, prefix: String::new(), spans: Vec::new() },
    };
    let ghost before = line.spans@;
    let span = RichSpan { text: string_of(chars_of(text).as_slice()), style, link };
    line.spans.push(span);
    proof {
        assert(line.spans@.map_values(|s: RichSpan| span_v(s)) =~= before.map_values(|s: RichSpan| span_v(s)).push(
            span_v(span),
        ));
    }
    r.current = Some(line);
    proof {
        assert(old(r).current is None ==> before.map_values(|s: RichSpan| span_v(s)) =~= Seq::<SpanV>::empty());
    }
}

/// Starts a line that continues the current one.
fn r_newline(r: &mut Renderer)
    ensures
        rv(*final(r)) == snewline(rv(*old(r))),
{
    let (indent, prefix) = r.continuation();
    assert(prefix@ =~= scont(rv(*r)).1);
    r_start(r, indent, prefix);
}

} // verus!

verus! {

/// The date, in the proleptic Gregorian calendar, of the day that is `days`
/// days after 1970-01-01: year, month and day.
pub open spec fn civil_from_days(days: int) -> (i32, u8, u8) {
    let z = days + 719468;
    let era = z / 146097;
    let doe = z - era * 146097;
    let yoe = (doe - doe / 1460 + doe / 36524 - doe / 146096) / 365;
    let doy = doe - (365 * yoe + yoe / 4 - yoe / 100);
    let mp = (5 * doy + 2) / 153;
    let d = doy - (153 * mp + 2) / 5 + 1;
    let m = if mp < 10 {
        mp + 3
    } else {
        mp - 9
    };
    let y = yoe + era * 400 + if m <= 2 {
        1int
    } else {
        0int
    };
    (y as i32, m as u8, d as u8)
}

/// The UTC date of a Unix time in seconds: year, month and day; none out of
/// the dates the `time` crate holds, from the start of -9999-01-01 to the
/// end of 9999-12-31.
pub open spec fn civil_date(secs: i64) -> Option<(i32, u8, u8)> {
    if secs < -377705116800 || secs > 253402300799 {
        None
    } else {
        Some(civil_from_days(secs / 86400))
    }
}

/// `time::OffsetDateTime::from_unix_timestamp` of the `time` crate, read as
/// year, month and day: the UTC date of the seconds, none out of the crate's
/// range of dates (see [`civil_date`]).
#[verifier::external_body]
fn date_of(secs: i64) -> (r: Option<(i32, u8, u8)>)
    ensures
        r == civil_date(secs),
{
    match time::OffsetDateTime::from_unix_timestamp(secs) {
        Ok(d) => Some((d.year(), u8::from(d.month()), d.day())),
        Err(_) => None,
    }
}

/// What `str::parse::<i64>` gives: an optional sign, then digits whose value
/// fits.
pub open spec fn parse_i64_spec(s: Seq<char>) -> Option<i64> {
    let neg = s.len() > 0 && s[0] == '-';
    let digits = if s.len() > 0 && (s[0] == '-' || s[0] == '+') {
        s.skip(1)
    } else {
        s
    };
    if digits.len() > 0 && crate::text::all_digits(digits) {
        let v = crate::text::digits_value(digits);
        if neg && v <= 0x8000_0000_0000_0000 {
            Some((-(v as int)) as i64)
        } else if !neg && v <= i64::MAX {
            Some(v as i64)
        } else {
            None
        }
    } else {
        None
    }
}

/// Seconds of a time in milliseconds, rounded toward zero.
pub open spec fn secs_of(ms: i64) -> i64 {
    if ms >= 0 {
        (ms / 1000) as i64
    } else {
        (-((-(ms as int)) / 1000)) as i64
    }
}

/// `n` in decimal, with zeros in front up to `width` digits.
pub open spec fn zero_pad(n: nat, width: nat) -> Seq<char> {
    let d = crate::text::decimal_spec(n);
    if d.len() < width {
        Seq::new((width - d.len()) as nat, |i: int| '0') + d
    } else {
        d
    }
}

/// A year as `{:04}` writes it: four places, the sign counted.
pub open spec fn year_text(y: i32) -> Seq<char> {
    if y < 0 {
        "-"@ + zero_pad((-(y as int)) as nat, 3)
    } else {
        zero_pad(y as nat, 4)
    }
}

/// The text of a date node: its timestamp (milliseconds) as year-month-day,
/// empty when it does not read.
pub open spec fn date_text(ts: Option<Seq<char>>) -> Seq<char> {
    match ts {
        Some(s) => match parse_i64_spec(s) {
            Some(ms) => match civil_date(secs_of(ms)) {
                Some(d) => year_text(d.0) + "-"@ + zero_pad(d.1 as nat, 2) + "-"@ + zero_pad(d.2 as nat, 2),
                None => Seq::empty(),
            },
            None => Seq::empty(),
        },
        None => Seq::empty(),
    }
}

/// What one mark does to the style and link of a text.
pub open spec fn mark_s(style: SpanStyle, link: Option<Seq<char>>, mark: Json) -> (SpanStyle, Option<Seq<char>>) {
    let t = ntype(mark);
    if t == "strong"@ {
        (SpanStyle { bold: true, ..style }, link)
    } else if t == "em"@ {
        (SpanStyle { italic: true, ..style }, link)
    } else if t == "code"@ {
        (SpanStyle { code: true, ..style }, link)
    } else if t == "strike"@ {
        (SpanStyle { strike: true, ..style }, link)
    } else if t == "underline"@ {
        (SpanStyle { underline: true, ..style }, link)
    } else if t == "link"@ {
        (SpanStyle { underline: true, ..style }, raw_text(opt_get(json_get(mark, "attrs"@), "href"@)))
    } else {
        (style, link)
    }
}

/// What the marks do, in order.
pub open spec fn marks_s(style: SpanStyle, link: Option<Seq<char>>, marks: Seq<Json>) -> (SpanStyle, Option<
    Seq<char>,
>)
    decreases marks.len(),
{
    if marks.len() == 0 {
        (style, link)
    } else {
        let r = marks_s(style, link, marks.drop_last());
        mark_s(r.0, r.1, marks.last())
    }
}

/// The pieces of a text from the `k`-th on, each on a continuation line.
pub open spec fn pieces_s(st: RV, ps: Seq<Seq<char>>, k: int, style: SpanStyle, link: Option<Seq<char>>) -> RV
    decreases ps.len() - k,
{
    if 0 <= k < ps.len() {
        pieces_s(spush(snewline(st), ps[k], style, link), ps, k + 1, style, link)
    } else {
        st
    }
}

/// A mention's text: with an `@` in front.
pub open spec fn mention_text(a: Option<Seq<char>>) -> Seq<char> {
    let t = match a {
        Some(x) => x,
        None => "@alguém"@,
    };
    if t.len() > 0 && t[0] == '@' {
        t
    } else {
        "@"@ + t
    }
}

/// What an inline node adds to the lines (see `JiraView`'s documents): a
/// text with its marks, each of its own lines on a continuation line; a
/// hard break; a mention, emoji, card, date or status; else its text.
pub open spec fn inline_s(st: RV, node: Json, base: SpanStyle) -> RV
    decreases node, 3int, 0int,
{
    let t = ntype(node);
    if t == "text"@ {
        let text = or_empty(raw_text(json_get(node, "text"@)));
        let m = marks_s(base, None, items_of(json_get(node, "marks"@)));
        let ps = pieces(text, CharClass::Newline);
        pieces_s(spush(st, ps[0], m.0, m.1), ps, 1, m.0, m.1)
    } else if t == "hardBreak"@ {
        snewline(st)
    } else if t == "mention"@ {
        spush(st, mention_text(nattr(node, "text"@)), SpanStyle { mention: true, ..base }, None)
    } else if t == "emoji"@ {
        spush(
            st,
            or_empty(
                match nattr(node, "text"@) {
                    Some(x) => Some(x),
                    None => nattr(node, "shortName"@),
                },
            ),
            base,
            None,
        )
    } else if t == "inlineCard"@ {
        spush(st, or_empty(nattr(node, "url"@)), SpanStyle { underline: true, ..base }, Some(or_empty(nattr(node, "url"@))))
    } else if t == "date"@ {
        spush(st, date_text(nattr(node, "timestamp"@)), base, None)
    } else if t == "status"@ {
        spush(st, "["@ + or_empty(nattr(node, "text"@)) + "]"@, SpanStyle { bold: true, ..base }, None)
    } else if collect_s(node).len() > 0 {
        spush(st, collect_s(node), base, None)
    } else {
        st
    }
}

/// The timestamp of a date node as a date.
fn date_from(ts: Option<String>) -> (r: String)
    ensures
        r@ == date_text(opt_view(ts)),
{
    let s = match ts {
        Some(s) => chars_of(s.as_str()),
        None => return String::new(),
    };
    let neg = s.len() > 0 && s[0] == '-';
    let digits = if s.len() > 0 && (s[0] == '-' || s[0] == '+') {
        crate::text::slice_chars(s.as_slice(), 1, s.len())
    } else {
        crate::text::slice_chars(s.as_slice(), 0, s.len())
    };
    assert(s@.len() > 0 && (s@[0] == '-' || s@[0] == '+') ==> digits@ =~= s@.skip(1));
    assert(!(s@.len() > 0 && (s@[0] == '-' || s@[0] == '+')) ==> digits@ =~= s@);
    let v = match crate::text::digits_to_u64(digits.as_slice()) {
        Some(v) => v,
        None => {
            proof {
                if digits@.len() > 0 && crate::text::all_digits(digits@) {
                    assert(crate::text::digits_value(digits@) > u64::MAX);
                }
            }
            return String::new();
        },
    };
    let secs: i64 = if neg {
        if v > 0x8000_0000_0000_0000u64 {
            return String::new();
        }
        let q = v / 1000;
        proof {
            assert(q <= 0x8000_0000_0000_0000u64 / 1000);
        }
        -(q as i64)
    } else {
        if v > 0x7fff_ffff_ffff_ffffu64 {
            return String::new();
        }
        (v / 1000) as i64
    };
    proof {
        let ms = parse_i64_spec(s@)->0;
        if neg {
            assert(ms == -(v as int));
            assert(secs_of(ms) == -((v as int) / 1000));
        } else {
            assert(ms == v);
        }
    }
    let (y, m, d) = match date_of(secs) {
        Some(t) => t,
        None => return String::new(),
    };
    let mut out: Vec<char> = Vec::new();
    if y < 0 {
        out.push('-');
        let a: u64 = (-(y as i64)) as u64;
        extend_chars(&mut out, padded(a, 3).as_slice());
        assert(out@ =~= "-"@ + zero_pad((-(y as int)) as nat, 3)) by {
            reveal_strlit("-");
        }
    } else {
        extend_chars(&mut out, padded(y as u64, 4).as_slice());
    }
    extend_chars(&mut out, chars_of("-").as_slice());
    extend_chars(&mut out, padded(m as u64, 2).as_slice());
    extend_chars(&mut out, chars_of("-").as_slice());
    extend_chars(&mut out, padded(d as u64, 2).as_slice());
    string_of(out.as_slice())
}

/// `n` in decimal, with zeros in front up to `width` digits.
fn padded(n: u64, width: usize) -> (r: Vec<char>)
    ensures
        r@ == zero_pad(n as nat, width as nat),
{
    let d = crate::text::decimal(n);
    if d.len() < width {
        let mut out: Vec<char> = Vec::new();
        let k = width - d.len();
        let mut i: usize = 0;
        while i < k
            invariant
                i <= k,
                out@ == Seq::new(i as nat, |j: int| '0'),
            decreases k - i,
        {
            out.push('0');
            assert(out@ =~= Seq::new((i + 1) as nat, |j: int| '0'));
            i = i + 1;
        }
        extend_chars(&mut out, d.as_slice());
        out
    } else {
        d
    }
}

/// The style and link of a text after its marks.
fn apply_marks(base: SpanStyle, marks: &[Json]) -> (r: (SpanStyle, Option<String>))
    ensures
        (r.0, opt_view(r.1)) == marks_s(base, None, marks@),
{
    let mut style = base;
    let mut link: Option<String> = None;
    let mut i: usize = 0;
    while i < marks.len()
        invariant
            i <= marks@.len(),
            (style, opt_view(link)) == marks_s(base, None, marks@.take(i as int)),
        decreases marks@.len() - i,
    {
        assert(marks@.take(i + 1).drop_last() =~= marks@.take(i as int));
        assert(marks@.take(i + 1).last() == marks@[i as int]);
        let t = node_type(&marks[i]);
        if eq_str(t.as_str(), "strong") {
            style.bold = true;
        } else if eq_str(t.as_str(), "em") {
            style.italic = true;
        } else if eq_str(t.as_str(), "code") {
            style.code = true;
        } else if eq_str(t.as_str(), "strike") {
            style.strike = true;
        } else if eq_str(t.as_str(), "underline") {
            style.underline = true;
        } else if eq_str(t.as_str(), "link") {
            style.underline = true;
            link = match get(&marks[i], "attrs") {
                Some(attrs) => match get(attrs, "href") {
                    Some(Json::Text(h)) => Some(h.clone()),
                    _ => None,
                },
                None => None,
            };
        }
        i = i + 1;
    }
    assert(marks@.take(marks@.len() as int) =~= marks@);
    (style, link)
}

/// The list of a member, as a slice.
fn list_of<'a>(node: &'a Json, key: &str) -> (r: &'a [Json])
    ensures
        r@ == items_of(json_get(*node, key@)),
{
    match get(node, key) {
        Some(Json::Array(items)) => items.as_slice(),
        _ => &[],
    }
}

} // verus!

verus! {

/// The lines of a text as `str::lines` gives them: split at line breaks, a
/// carriage return before a break dropped, no last empty line after a final
/// break, none for an empty text.
pub open spec fn text_lines(t: Seq<char>) -> Seq<Seq<char>> {
    if t.len() == 0 {
        Seq::empty()
    } else {
        let ps = pieces(t, CharClass::Newline);
        let kept = if t.last() == '\n' {
            ps.drop_last()
        } else {
            ps
        };
        Seq::new(
            kept.len(),
            |i: int|
                if i < ps.len() - 1 && kept[i].len() > 0 && kept[i].last() == '\r' {
                    kept[i].drop_last()
                } else {
                    kept[i]
                },
        )
    }
}

/// The lines of a code block from the `k`-th on, each indented.
pub open spec fn code_lines_s(st: RV, lines: Seq<Seq<char>>, k: int, indent: nat) -> RV
    decreases lines.len() - k,
{
    if 0 <= k < lines.len() {
        code_lines_s(
            spush(sstart(st, isat(indent, 2), Seq::empty()), lines[k], SpanStyle { code: true, ..plain_style() }, None),
            lines,
            k + 1,
            indent,
        )
    } else {
        st
    }
}

/// A span in a quote.
pub open spec fn quoted_span(s: SpanV) -> SpanV {
    SpanV { style: SpanStyle { quote: true, ..s.style }, ..s }
}

/// A line in a quote: a quote bar before its prefix and its spans quoted;
/// an empty line left as it is.
pub open spec fn quoted_line(l: LineV) -> LineV {
    if l.spans.len() > 0 {
        LineV { indent: l.indent, prefix: "│ "@ + l.prefix, spans: l.spans.map_values(|s: SpanV| quoted_span(s)) }
    } else {
        l
    }
}

/// The lines from `before` on in a quote.
pub open spec fn quote_lines(lines: Seq<LineV>, before: int) -> Seq<LineV> {
    Seq::new(lines.len(), |i: int| if i >= before { quoted_line(lines[i]) } else { lines[i] })
}

/// The first line with text from `i` on.
pub open spec fn first_with_text(lines: Seq<LineV>, i: int) -> Option<int>
    decreases lines.len() - i,
{
    if i < 0 || i >= lines.len() {
        None
    } else if lines[i].spans.len() > 0 {
        Some(i)
    } else {
        first_with_text(lines, i + 1)
    }
}

/// The first line with text from `before` on, marked with the panel type.
pub open spec fn panel_lines(lines: Seq<LineV>, before: int, kind: Seq<char>) -> Seq<LineV> {
    match first_with_text(lines, before) {
        Some(k) => lines.update(k, LineV { prefix: "["@ + kind + "] "@ + lines[k].prefix, ..lines[k] }),
        None => lines,
    }
}

/// The last line taken away when it is empty.
pub open spec fn pop_empty(st: RV) -> RV {
    if st.lines.len() > 0 && st.lines.last().spans.len() == 0 {
        RV { lines: st.lines.drop_last(), current: st.current }
    } else {
        st
    }
}

/// The marker of the `i`-th item of a list: its number from `start` with a
/// dot, or a bullet.
pub open spec fn marker_s(ordered: bool, start: u64, i: int) -> Seq<char> {
    if ordered {
        crate::text::decimal_spec(
            if start + i > u64::MAX {
                u64::MAX as nat
            } else {
                (start + i) as nat
            },
        ) + ". "@
    } else {
        "• "@
    }
}

/// The number an ordered list starts at.
pub open spec fn start_of(node: Json) -> u64 {
    match crate::model::count_of(opt_get(json_get(node, "attrs"@), "order"@)) {
        Some(n) => n,
        None => 1,
    }
}

/// Dimmed text.
pub open spec fn dim_style() -> SpanStyle {
    SpanStyle { dim: true, ..plain_style() }
}

/// Whether a node type is one of the inline ones.
pub open spec fn is_inline_type(t: Seq<char>) -> bool {
    t == "text"@ || t == "hardBreak"@ || t == "mention"@ || t == "emoji"@ || t == "inlineCard"@ || t == "date"@
        || t == "status"@
}

/// What a block node adds to the lines: a document its children; a
/// paragraph or heading a line and a blank line; lists their items and a
/// blank line; a code block its lines indented; a quote and a panel their
/// children marked; a rule, a table (a line per row, cells split by a bar,
/// headers bold) and media their lines; inline nodes their text; other
/// nodes their children, or their trimmed text on a line of its own.
pub open spec fn block_s(st: RV, node: Json, indent: nat) -> RV
    decreases node, 4int, 0int,
{
    let t = ntype(node);
    if t == "doc"@ {
        children_s(st, node, 0, indent)
    } else if t == "paragraph"@ {
        sblank(inline_children_s(sstart(st, indent, Seq::empty()), node, 0, plain_style()))
    } else if t == "heading"@ {
        sblank(
            inline_children_s(
                sstart(st, indent, Seq::empty()),
                node,
                0,
                SpanStyle { bold: true, heading: true, ..plain_style() },
            ),
        )
    } else if t == "bulletList"@ || t == "orderedList"@ {
        sblank(list_items_s(st, node, 0, indent, t == "orderedList"@, start_of(node)))
    } else if t == "codeBlock"@ {
        sblank(code_lines_s(st, text_lines(collect_s(node)), 0, indent))
    } else if t == "blockquote"@ {
        let after = sflush(children_s(st, node, 0, indent));
        RV { lines: quote_lines(after.lines, st.lines.len() as int), current: None }
    } else if t == "panel"@ {
        let after = sflush(children_s(st, node, 0, indent));
        let kind = match nattr(node, "panelType"@) {
            Some(k) => k,
            None => "info"@,
        };
        RV { lines: panel_lines(after.lines, st.lines.len() as int, kind), current: None }
    } else if t == "rule"@ {
        sblank(spush(sstart(st, indent, Seq::empty()), "────────"@, dim_style(), None))
    } else if t == "table"@ {
        sblank(table_rows_s(st, node, 0, indent))
    } else if t == "mediaSingle"@ || t == "mediaGroup"@ || t == "media"@ {
        sblank(spush(sstart(st, indent, Seq::empty()), "[mídia]"@, dim_style(), None))
    } else if is_inline_type(t) {
        inline_s(st, node, plain_style())
    } else if content_items(node).len() == 0 {
        if trim_spec(collect_s(node)).len() > 0 {
            sblank(spush(sstart(st, indent, Seq::empty()), trim_spec(collect_s(node)), plain_style(), None))
        } else {
            st
        }
    } else {
        children_s(st, node, 0, indent)
    }
}

/// The children of a node from the `i`-th on, as blocks.
pub open spec fn children_s(st: RV, node: Json, i: int, indent: nat) -> RV
    decreases node, 1int, content_items(node).len() - i,
{
    if 0 <= i < content_items(node).len() {
        proof {
            lemma_content_decreases(node, i);
        }
        children_s(block_s(st, content_items(node)[i], indent), node, i + 1, indent)
    } else {
        st
    }
}

/// The children of a node from the `i`-th on, inline.
pub open spec fn inline_children_s(st: RV, node: Json, i: int, base: SpanStyle) -> RV
    decreases node, 1int, content_items(node).len() - i,
{
    if 0 <= i < content_items(node).len() {
        proof {
            lemma_content_decreases(node, i);
        }
        inline_children_s(inline_s(st, content_items(node)[i], base), node, i + 1, base)
    } else {
        st
    }
}

/// The items of a list from the `i`-th on.
pub open spec fn list_items_s(st: RV, node: Json, i: int, indent: nat, ordered: bool, start: u64) -> RV
    decreases node, 1int, content_items(node).len() - i,
{
    if 0 <= i < content_items(node).len() {
        proof {
            lemma_content_decreases(node, i);
        }
        list_items_s(
            list_item_s(st, content_items(node)[i], indent, marker_s(ordered, start, i)),
            node,
            i + 1,
            indent,
            ordered,
            start,
        )
    } else {
        st
    }
}

/// A list item: its paragraphs (the first after the marker, the others
/// aligned under it), nested lists indented, other blocks after the marker;
/// the marker alone when it is empty.
pub open spec fn list_item_s(st: RV, item: Json, indent: nat, marker: Seq<char>) -> RV
    decreases item, 2int, 0int,
{
    if content_items(item).len() == 0 {
        sflush(sstart(st, indent, marker))
    } else {
        item_children_s(st, item, 0, indent, marker)
    }
}

/// The children of a list item from the `i`-th on.
pub open spec fn item_children_s(st: RV, item: Json, i: int, indent: nat, marker: Seq<char>) -> RV
    decreases item, 1int, content_items(item).len() - i,
{
    if 0 <= i < content_items(item).len() {
        proof {
            lemma_content_decreases(item, i);
        }
        let child = content_items(item)[i];
        let t = ntype(child);
        let next = if t == "paragraph"@ {
            sflush(
                inline_children_s(
                    sstart(
                        st,
                        indent,
                        if i == 0 {
                            marker
                        } else {
                            spaces(marker.len())
                        },
                    ),
                    child,
                    0,
                    plain_style(),
                ),
            )
        } else if t == "bulletList"@ || t == "orderedList"@ {
            pop_empty(
                block_s(
                    if i == 0 {
                        sflush(sstart(st, indent, marker))
                    } else {
                        st
                    },
                    child,
                    isat(indent, 2),
                ),
            )
        } else {
            block_s(st, child, isat(indent, marker.len()))
        };
        item_children_s(next, item, i + 1, indent, marker)
    } else {
        st
    }
}

/// The rows of a table from the `i`-th on, a line each.
pub open spec fn table_rows_s(st: RV, node: Json, i: int, indent: nat) -> RV
    decreases node, 1int, content_items(node).len() - i,
{
    if 0 <= i < content_items(node).len() {
        proof {
            lemma_content_decreases(node, i);
        }
        table_rows_s(cells_s(sstart(st, indent, Seq::empty()), content_items(node)[i], 0), node, i + 1, indent)
    } else {
        st
    }
}

/// The cells of a row from the `j`-th on: a dim bar between two, each
/// cell's trimmed text, bold in a header.
pub open spec fn cells_s(st: RV, row: Json, j: int) -> RV
    decreases row, 1int, content_items(row).len() - j,
{
    if 0 <= j < content_items(row).len() {
        proof {
            lemma_content_decreases(row, j);
        }
        let cell = content_items(row)[j];
        let with_bar = if j > 0 {
            spush(st, " │ "@, dim_style(), None)
        } else {
            st
        };
        cells_s(
            spush(
                with_bar,
                trim_spec(collect_s(cell)),
                SpanStyle { bold: ntype(cell) == "tableHeader"@, ..plain_style() },
                None,
            ),
            row,
            j + 1,
        )
    } else {
        st
    }
}

/// The lines without the empty ones at the end.
pub open spec fn trim_trailing(lines: Seq<LineV>) -> Seq<LineV>
    decreases lines.len(),
{
    if lines.len() > 0 && lines.last().spans.len() == 0 {
        trim_trailing(lines.drop_last())
    } else {
        lines
    }
}

/// The lines of a document, without empty lines at the end.
pub open spec fn render_s(doc: Json) -> Seq<LineV> {
    trim_trailing(sflush(block_s(RV { lines: Seq::empty(), current: None }, doc, 0)).lines)
}

} // verus!

verus! {

/// An optional string, copied.
fn dup(o: &Option<String>) -> (r: Option<String>)
    ensures
        r == *o,
{
    match o {
        Some(s) => Some(s.clone()),
        None => None,
    }
}

/// Adds an inline node (see `inline_s`).
fn inline(r: &mut Renderer, node: &Json, base: SpanStyle)
    ensures
        rv(*final(r)) == inline_s(rv(*old(r)), *node, base),
    decreases node, 3int,
{
    let t = node_type(node);
    if eq_str(t.as_str(), "text") {
        let text: Vec<char> = match get(node, "text") {
            Some(Json::Text(s)) => chars_of(s.as_str()),
            _ => Vec::new(),
        };
        assert(text@ == or_empty(raw_text(json_get(*node, "text"@))));
        let (style, link) = apply_marks(base, list_of(node, "marks"));
        let ps = crate::split::split_pieces(text.as_slice(), CharClass::Newline);
        let ghost pv = views(ps@);
        r_push(r, string_of(ps[0].as_slice()).as_str(), style, dup(&link));
        let mut k: usize = 1;
        while k < ps.len()
            invariant
                1 <= k <= ps@.len(),
                pv == views(ps@),
                pieces_s(rv(*r), pv, k as int, style, opt_view(link)) == inline_s(rv(*old(r)), *node, base),
            decreases ps@.len() - k,
        {
            r_newline(r);
            r_push(r, string_of(ps[k].as_slice()).as_str(), style, dup(&link));
            k = k + 1;
        }
        return;
    }
    if eq_str(t.as_str(), "hardBreak") {
        r_newline(r);
        return;
    }
    if eq_str(t.as_str(), "mention") {
        let a = match attr(node, "text") {
            Some(x) => chars_of(x.as_str()),
            None => chars_of("@alguém"),
        };
        let text = if a.len() > 0 && a[0] == '@' {
            a
        } else {
            let mut v = chars_of("@");
            extend_chars(&mut v, a.as_slice());
            v
        };
        let mut style = base;
        style.mention = true;
        r_push(r, string_of(text.as_slice()).as_str(), style, None);
        return;
    }
    if eq_str(t.as_str(), "emoji") {
        let text = match attr(node, "text") {
            Some(x) => x,
            None => match attr(node, "shortName") {
                Some(x) => x,
                None => String::new(),
            },
        };
        r_push(r, text.as_str(), base, None);
        return;
    }
    if eq_str(t.as_str(), "inlineCard") {
        let url = match attr(node, "url") {
            Some(x) => x,
            None => String::new(),
        };
        let mut style = base;
        style.underline = true;
        r_push(r, url.as_str(), style, Some(url.clone()));
        return;
    }
    if eq_str(t.as_str(), "date") {
        let text = date_from(attr(node, "timestamp"));
        r_push(r, text.as_str(), base, None);
        return;
    }
    if eq_str(t.as_str(), "status") {
        let mut v = chars_of("[");
        match attr(node, "text") {
            Some(x) => extend_chars(&mut v, chars_of(x.as_str()).as_slice()),
            None => {},
        }
        extend_chars(&mut v, chars_of("]").as_slice());
        let mut style = base;
        style.bold = true;
        r_push(r, string_of(v.as_slice()).as_str(), style, None);
        return;
    }
    let text = collect_text(node);
    if chars_of(text.as_str()).len() > 0 {
        r_push(r, text.as_str(), base, None);
    }
}

/// Adds the children of a node, inline.
fn inline_children(r: &mut Renderer, node: &Json, base: SpanStyle)
    ensures
        rv(*final(r)) == inline_children_s(rv(*old(r)), *node, 0, base),
    decreases node, 1int,
{
    let items = content_of(node);
    let mut i: usize = 0;
    while i < items.len()
        invariant
            i <= items@.len(),
            items@ == content_items(*node),
            inline_children_s(rv(*r), *node, i as int, base) == inline_children_s(rv(*old(r)), *node, 0, base),
        decreases items@.len() - i,
    {
        proof {
            lemma_content_decreases(*node, i as int);
        }
        inline(r, &items[i], base);
        i = i + 1;
    }
}

} // verus!

verus! {

/// Adds the lines of a code block.
fn code_lines(r: &mut Renderer, text: &str, indent: usize)
    ensures
        rv(*final(r)) == code_lines_s(rv(*old(r)), text_lines(text@), 0, indent as nat),
{
    let chars = chars_of(text);
    if chars.len() == 0 {
        return;
    }
    let ps = crate::split::split_pieces(chars.as_slice(), CharClass::Newline);
    let ghost pv = views(ps@);
    let n = if chars[chars.len() - 1] == '\n' {
        ps.len() - 1
    } else {
        ps.len()
    };
    let ghost lines = text_lines(text@);
    assert(lines.len() == n);
    let mut code = SpanStyle::plain();
    code.code = true;
    let mut k: usize = 0;
    while k < n
        invariant
            k <= n <= ps@.len(),
            pv == views(ps@),
            lines == text_lines(text@),
            lines.len() == n,
            chars@ == text@,
            chars@.len() > 0,
            pv == pieces(chars@, CharClass::Newline),
            n == (if chars@.last() == '\n' {
                pv.len() - 1
            } else {
                pv.len() as int
            }),
            code == (SpanStyle { code: true, ..plain_style() }),
            code_lines_s(rv(*r), lines, k as int, indent as nat) == code_lines_s(rv(*old(r)), lines, 0, indent as nat),
        decreases n - k,
    {
        let piece = &ps[k];
        let strip = k + 1 < ps.len() && piece.len() > 0 && piece[piece.len() - 1] == '\r';
        let line = if strip {
            crate::text::slice_chars(piece.as_slice(), 0, piece.len() - 1)
        } else {
            crate::text::slice_chars(piece.as_slice(), 0, piece.len())
        };
        proof {
            assert(pv[k as int] == piece@);
            if strip {
                assert(line@ =~= piece@.drop_last());
            } else {
                assert(line@ =~= piece@);
            }
            assert(lines[k as int] == line@);
        }
        r_start(r, indent.saturating_add(2), String::new());
        r_push(r, string_of(line.as_slice()).as_str(), code, None);
        k = k + 1;
    }
}

/// Takes the empty last line away.
fn r_pop_empty(r: &mut Renderer)
    ensures
        rv(*final(r)) == pop_empty(rv(*old(r))),
{
    let n = r.lines.len();
    if n > 0 && r.lines[n - 1].spans.len() == 0 {
        let ghost before = r.lines@;
        r.lines.pop();
        assert(lines_v(r.lines@) =~= lines_v(before).drop_last());
    }
}

/// A line put in a quote (see `quoted_line`).
fn quote_line(line: RichLine) -> (q: RichLine)
    ensures
        line_v(q) == quoted_line(line_v(line)),
{
    if line.spans.len() == 0 {
        return line;
    }
    let ghost lv = line_v(line);
    let RichLine { indent, prefix, spans: rest } = line;
    let mut rest = rest;
    let ghost sv = rest@;
    assert(sv.len() == rest.len());
    let mut spans: Vec<RichSpan> = Vec::new();
    let mut j: usize = 0;
    while rest.len() > 0
        invariant
            j + rest@.len() == sv.len(),
            sv.len() <= usize::MAX,
            rest@ == sv.skip(j as int),
            spans@.len() == j,
            forall|k: int| 0 <= k < j ==> span_v(#[trigger] spans@[k]) == quoted_span(span_v(sv[k])),
        decreases rest@.len(),
    {
        let mut s = rest.remove(0);
        assert(s == sv[j as int]);
        s.style.quote = true;
        spans.push(s);
        j = j + 1;
        assert(rest@ =~= sv.skip(j as int));
    }
    assert(spans@.map_values(|s: RichSpan| span_v(s)) =~= lv.spans.map_values(|s: SpanV| quoted_span(s)));
    let mut p = chars_of("│ ");
    extend_chars(&mut p, chars_of(prefix.as_str()).as_slice());
    RichLine { indent, prefix: string_of(p.as_slice()), spans }
}

/// Puts the lines from `before` on in a quote.
fn quote_from(r: &mut Renderer, before: usize)
    requires
        old(r).current is None,
        before <= old(r).lines@.len(),
    ensures
        rv(*final(r)) == (RV { lines: quote_lines(rv(*old(r)).lines, before as int), current: None }),
{
    let ghost all = lines_v(r.lines@);
    let ghost goal = quote_lines(all, before as int);
    let mut tail = r.lines.split_off(before);
    let ghost tail0 = tail@;
    let n = tail.len();
    let mut k: usize = 0;
    while tail.len() > 0
        invariant
            r.current is None,
            k + tail@.len() == n,
            n == tail0.len(),
            before + n == all.len(),
            tail@ == tail0.skip(k as int),
            r.lines@.len() == before + k,
            goal == quote_lines(all, before as int),
            forall|i: int| 0 <= i < before ==> all[i] == line_v(#[trigger] r.lines@[i]),
            forall|i: int| 0 <= i < n ==> all[before + i] == line_v(#[trigger] tail0[i]),
            forall|i: int| before <= i < before + k ==> line_v(#[trigger] r.lines@[i]) == goal[i],
        decreases tail@.len(),
    {
        let line = tail.remove(0);
        assert(line == tail0[k as int]);
        let q = quote_line(line);
        r.lines.push(q);
        assert(goal[before + k] == quoted_line(all[before + k]));
        k = k + 1;
        assert(tail@ =~= tail0.skip(k as int));
    }
    assert(lines_v(r.lines@) =~= goal);
}

} // verus!

verus! {

/// Empty lines between `i` and `k` leave the first line with text from `i`
/// on where it is from `k` on.
proof fn lemma_first_with_text_skip(lines: Seq<LineV>, i: int, k: int)
    requires
        0 <= i <= k <= lines.len(),
        forall|j: int| i <= j < k ==> (#[trigger] lines[j]).spans.len() == 0,
    ensures
        first_with_text(lines, i) == first_with_text(lines, k),
    decreases k - i,
{
    if i < k {
        lemma_first_with_text_skip(lines, i + 1, k);
    }
}

/// Marks the first line with text from `before` on with the panel type.
fn panel_from(r: &mut Renderer, before: usize, kind: &str)
    requires
        old(r).current is None,
    ensures
        rv(*final(r)) == (RV { lines: panel_lines(rv(*old(r)).lines, before as int, kind@), current: None }),
{
    let ghost all = lines_v(r.lines@);
    if before > r.lines.len() {
        return;
    }
    let mut k = before;
    while k < r.lines.len() && r.lines[k].spans.len() == 0
        invariant
            before <= k <= r.lines@.len(),
            r.lines@ == old(r).lines@,
            r.current is None,
            all == lines_v(r.lines@),
            forall|j: int| before <= j < k ==> (#[trigger] all[j]).spans.len() == 0,
        decreases r.lines@.len() - k,
    {
        k = k + 1;
    }
    proof {
        lemma_first_with_text_skip(all, before as int, k as int);
    }
    if k < r.lines.len() {
        assert(first_with_text(all, k as int) == Some(k as int));
        let mut line = r.lines.remove(k);
        let mut p = chars_of("[");
        extend_chars(&mut p, chars_of(kind).as_slice());
        extend_chars(&mut p, chars_of("] ").as_slice());
        extend_chars(&mut p, chars_of(line.prefix.as_str()).as_slice());
        line.prefix = string_of(p.as_slice());
        r.lines.insert(k, line);
        assert(lines_v(r.lines@) =~= all.update(
            k as int,
            LineV { prefix: "["@ + kind@ + "] "@ + all[k as int].prefix, ..all[k as int] },
        ));
    }
}

/// Adds the cells of a table row to the current line (see `cells_s`).
fn cells(r: &mut Renderer, row: &Json)
    ensures
        rv(*final(r)) == cells_s(rv(*old(r)), *row, 0),
{
    let items = content_of(row);
    let mut j: usize = 0;
    while j < items.len()
        invariant
            j <= items@.len(),
            items@ == content_items(*row),
            cells_s(rv(*r), *row, j as int) == cells_s(rv(*old(r)), *row, 0),
        decreases items@.len() - j,
    {
        let cell = &items[j];
        if j > 0 {
            let mut dim = SpanStyle::plain();
            dim.dim = true;
            r_push(r, " │ ", dim, None);
        }
        let text = collect_text(cell);
        let t = trim(chars_of(text.as_str()).as_slice());
        let mut style = SpanStyle::plain();
        style.bold = eq_str(node_type(cell).as_str(), "tableHeader");
        r_push(r, string_of(t.as_slice()).as_str(), style, None);
        j = j + 1;
    }
}

} // verus!

verus! {

/// The lines from `before` on in a quote; none when fewer lines are left.
fn quote_rest(r: &mut Renderer, before: usize)
    requires
        old(r).current is None,
    ensures
        rv(*final(r)) == (RV { lines: quote_lines(rv(*old(r)).lines, before as int), current: None }),
{
    if before <= r.lines.len() {
        quote_from(r, before);
    } else {
        assert(quote_lines(rv(*r).lines, before as int) =~= rv(*r).lines);
    }
}

/// The marker of the `i`-th item of a list.
fn marker(ordered: bool, start: u64, i: usize) -> (m: String)
    ensures
        m@ == marker_s(ordered, start, i as int),
{
    if ordered {
        let mut v = crate::text::decimal(start.saturating_add(i as u64));
        extend_chars(&mut v, chars_of(". ").as_slice());
        string_of(v.as_slice())
    } else {
        string_of(chars_of("• ").as_slice())
    }
}

/// The number an ordered list starts at.
fn list_start(node: &Json) -> (n: u64)
    ensures
        n == start_of(*node),
{
    match crate::model::get_opt(get(node, "attrs"), "order") {
        Some(Json::Number(t)) => match crate::text::parse_u64(chars_of(t.as_str()).as_slice()) {
            Some(v) => v,
            None => 1,
        },
        _ => 1,
    }
}

/// Adds the children of a node as blocks.
fn children(r: &mut Renderer, node: &Json, indent: usize)
    ensures
        rv(*final(r)) == children_s(rv(*old(r)), *node, 0, indent as nat),
    decreases node, 1int,
{
    let items = content_of(node);
    let mut i: usize = 0;
    while i < items.len()
        invariant
            i <= items@.len(),
            items@ == content_items(*node),
            children_s(rv(*r), *node, i as int, indent as nat) == children_s(rv(*old(r)), *node, 0, indent as nat),
        decreases items@.len() - i,
    {
        proof {
            lemma_content_decreases(*node, i as int);
        }
        block(r, &items[i], indent);
        i = i + 1;
    }
}

/// Adds a list item (see `list_item_s`).
fn list_item(r: &mut Renderer, item: &Json, indent: usize, marker: &str)
    ensures
        rv(*final(r)) == list_item_s(rv(*old(r)), *item, indent as nat, marker@),
    decreases item, 2int,
{
    let items = content_of(item);
    if items.len() == 0 {
        r_start(r, indent, string_of(chars_of(marker).as_slice()));
        r_flush(r);
        return;
    }
    let width = chars_of(marker).len();
    let mut i: usize = 0;
    while i < items.len()
        invariant
            i <= items@.len(),
            items@ == content_items(*item),
            width == marker@.len(),
            item_children_s(rv(*r), *item, i as int, indent as nat, marker@) == item_children_s(
                rv(*old(r)),
                *item,
                0,
                indent as nat,
                marker@,
            ),
        decreases items@.len() - i,
    {
        proof {
            lemma_content_decreases(*item, i as int);
        }
        let child = &items[i];
        let t = node_type(child);
        if eq_str(t.as_str(), "paragraph") {
            let prefix = if i == 0 {
                string_of(chars_of(marker).as_slice())
            } else {
                let mut v: Vec<char> = Vec::new();
                crate::adf::push_spaces(&mut v, width);
                assert(v@ =~= spaces(marker@.len()));
                string_of(v.as_slice())
            };
            r_start(r, indent, prefix);
            inline_children(r, child, SpanStyle::plain());
            r_flush(r);
        } else if eq_str(t.as_str(), "bulletList") || eq_str(t.as_str(), "orderedList") {
            if i == 0 {
                r_start(r, indent, string_of(chars_of(marker).as_slice()));
                r_flush(r);
            }
            block(r, child, indent.saturating_add(2));
            r_pop_empty(r);
        } else {
            block(r, child, indent.saturating_add(width));
        }
        i = i + 1;
    }
}

/// Adds a block node (see `block_s`).
fn block(r: &mut Renderer, node: &Json, indent: usize)
    ensures
        rv(*final(r)) == block_s(rv(*old(r)), *node, indent as nat),
    decreases node, 4int,
{
    let t = node_type(node);
    let ts = t.as_str();
    if eq_str(ts, "doc") {
        children(r, node, indent);
    } else if eq_str(ts, "paragraph") {
        r_start(r, indent, String::new());
        inline_children(r, node, SpanStyle::plain());
        r_blank(r);
    } else if eq_str(ts, "heading") {
        let mut style = SpanStyle::plain();
        style.bold = true;
        style.heading = true;
        r_start(r, indent, String::new());
        inline_children(r, node, style);
        r_blank(r);
    } else if eq_str(ts, "bulletList") || eq_str(ts, "orderedList") {
        let ordered = eq_str(ts, "orderedList");
        let start = list_start(node);
        let items = content_of(node);
        let mut i: usize = 0;
        while i < items.len()
            invariant
                i <= items@.len(),
                items@ == content_items(*node),
                list_items_s(rv(*r), *node, i as int, indent as nat, ordered, start) == list_items_s(
                    rv(*old(r)),
                    *node,
                    0,
                    indent as nat,
                    ordered,
                    start,
                ),
            decreases items@.len() - i,
        {
            proof {
                lemma_content_decreases(*node, i as int);
            }
            let m = marker(ordered, start, i);
            list_item(r, &items[i], indent, m.as_str());
            i = i + 1;
        }
        r_blank(r);
    } else if eq_str(ts, "codeBlock") {
        let text = collect_text(node);
        code_lines(r, text.as_str(), indent);
        r_blank(r);
    } else if eq_str(ts, "blockquote") {
        let before = r.lines.len();
        children(r, node, indent);
        r_flush(r);
        quote_rest(r, before);
    } else if eq_str(ts, "panel") {
        let kind = match attr(node, "panelType") {
            Some(k) => k,
            None => string_of(chars_of("info").as_slice()),
        };
        let before = r.lines.len();
        children(r, node, indent);
        r_flush(r);
        panel_from(r, before, kind.as_str());
    } else if eq_str(ts, "rule") {
        let mut dim = SpanStyle::plain();
        dim.dim = true;
        r_start(r, indent, String::new());
        r_push(r, "────────", dim, None);
        r_blank(r);
    } else if eq_str(ts, "table") {
        let rows = content_of(node);
        let mut i: usize = 0;
        while i < rows.len()
            invariant
                i <= rows@.len(),
                rows@ == content_items(*node),
                table_rows_s(rv(*r), *node, i as int, indent as nat) == table_rows_s(
                    rv(*old(r)),
                    *node,
                    0,
                    indent as nat,
                ),
            decreases rows@.len() - i,
        {
            r_start(r, indent, String::new());
            cells(r, &rows[i]);
            i = i + 1;
        }
        r_blank(r);
    } else if eq_str(ts, "mediaSingle") || eq_str(ts, "mediaGroup") || eq_str(ts, "media") {
        let mut dim = SpanStyle::plain();
        dim.dim = true;
        r_start(r, indent, String::new());
        r_push(r, "[mídia]", dim, None);
        r_blank(r);
    } else if eq_str(ts, "text") || eq_str(ts, "hardBreak") || eq_str(ts, "mention") || eq_str(ts, "emoji")
        || eq_str(ts, "inlineCard") || eq_str(ts, "date") || eq_str(ts, "status") {
        inline(r, node, SpanStyle::plain());
    } else if content_of(node).len() == 0 {
        let text = collect_text(node);
        let trimmed = trim(chars_of(text.as_str()).as_slice());
        if trimmed.len() > 0 {
            r_start(r, indent, String::new());
            r_push(r, string_of(trimmed.as_slice()).as_str(), SpanStyle::plain(), None);
            r_blank(r);
        }
    } else {
        children(r, node, indent);
    }
}

/// The rich lines of a document: its blocks in order, without empty lines
/// at the end.
pub fn render(doc: &Json) -> (lines: Vec<RichLine>)
    ensures
        lines_v(lines@) == render_s(*doc),
{
    let mut r = Renderer::new();
    assert(lines_v(r.lines@) =~= Seq::<LineV>::empty());
    assert(rv(r) == (RV { lines: Seq::<LineV>::empty(), current: None }));
    block(&mut r, doc, 0);
    r_flush(&mut r);
    while r.lines.len() > 0 && r.lines[r.lines.len() - 1].spans.len() == 0
        invariant
            trim_trailing(lines_v(r.lines@)) == render_s(*doc),
        decreases r.lines@.len(),
    {
        let ghost before = lines_v(r.lines@);
        r.lines.pop();
        assert(lines_v(r.lines@) =~= before.drop_last());
    }
    r.lines
}

} // verus!

verus! {

/// A member whose name is `key` and whose value is the text `value`.
pub open spec fn text_member(m: (String, Json), key: Seq<char>, value: Seq<char>) -> bool {
    m.0@ == key && (m.1 matches Json::Text(t) && t@ == value)
}

/// A text node holding `text`: `{"type": "text", "text": text}`.
pub open spec fn is_text_node(j: Json, text: Seq<char>) -> bool {
    j matches Json::Object(e) && e@.len() == 2 && text_member(e@[0], "type"@, "text"@) && text_member(
        e@[1],
        "text"@,
        text,
    )
}

/// The paragraph of one line: `{"type": "paragraph", "content": [..]}`,
/// with no content for an empty line and one text node otherwise.
pub open spec fn is_paragraph_of(j: Json, line: Seq<char>) -> bool {
    j matches Json::Object(e) && e@.len() == 2 && text_member(e@[0], "type"@, "paragraph"@) && e@[1].0@
        == "content"@ && (e@[1].1 matches Json::Array(items) && if line.len() == 0 {
        items@.len() == 0
    } else {
        items@.len() == 1 && is_text_node(items@[0], line)
    })
}

/// The lines a text becomes paragraphs of: split at line breaks after
/// trailing whitespace is taken away.
pub open spec fn adf_lines(text: Seq<char>) -> Seq<Seq<char>> {
    pieces(text.take(crate::text::trim_end_index(text)), CharClass::Newline)
}

/// The document of a text: `{"type": "doc", "version": 1, "content": [..]}`
/// with a paragraph for each of its lines.
pub open spec fn is_doc_of(j: Json, text: Seq<char>) -> bool {
    j matches Json::Object(e) && e@.len() == 3 && text_member(e@[0], "type"@, "doc"@) && e@[1].0@ == "version"@
        && (e@[1].1 matches Json::Number(n) && n@ == "1"@) && e@[2].0@ == "content"@ && (e@[2].1 matches Json::Array(
        items,
    ) && items@.len() == adf_lines(text).len() && forall|i: int|
        0 <= i < items@.len() ==> is_paragraph_of(#[trigger] items@[i], adf_lines(text)[i]))
}

/// A string of a literal.
fn lit(s: &str) -> (r: String)
    ensures
        r@ == s@,
{
    string_of(chars_of(s).as_slice())
}

/// The paragraph of one line.
fn paragraph_of(line: &[char]) -> (j: Json)
    ensures
        is_paragraph_of(j, line@),
{
    let mut items: Vec<Json> = Vec::new();
    if line.len() > 0 {
        let mut e: Vec<(String, Json)> = Vec::new();
        e.push((lit("type"), Json::Text(lit("text"))));
        e.push((lit("text"), Json::Text(string_of(line))));
        items.push(Json::Object(e));
    }
    let mut e: Vec<(String, Json)> = Vec::new();
    e.push((lit("type"), Json::Text(lit("paragraph"))));
    e.push((lit("content"), Json::Array(items)));
    Json::Object(e)
}

/// A comment body in the document format: a paragraph for each line of
/// the text once trailing whitespace is taken away, an empty one for an
/// empty line.
pub fn text_to_adf(text: &str) -> (doc: Json)
    ensures
        is_doc_of(doc, text@),
{
    let trimmed = crate::text::trim_end(chars_of(text).as_slice());
    let ps = crate::split::split_pieces(trimmed.as_slice(), CharClass::Newline);
    let ghost lines = adf_lines(text@);
    assert(views(ps@) == lines);
    let mut items: Vec<Json> = Vec::new();
    let mut i: usize = 0;
    while i < ps.len()
        invariant
            i <= ps@.len(),
            views(ps@) == lines,
            items@.len() == i,
            forall|k: int| 0 <= k < i ==> is_paragraph_of(#[trigger] items@[k], lines[k]),
        decreases ps@.len() - i,
    {
        assert(lines[i as int] == ps@[i as int]@);
        items.push(paragraph_of(ps[i].as_slice()));
        i = i + 1;
    }
    let mut e: Vec<(String, Json)> = Vec::new();
    e.push((lit("type"), Json::Text(lit("doc"))));
    e.push((lit("version"), Json::Number(lit("1"))));
    e.push((lit("content"), Json::Array(items)));
    Json::Object(e)
}

} // verus!

verus! {

/// Whether `a` is `b` with at most the flags `bold`, `italic`, `code`,
/// `strike` and `underline` changed as listed (`Some` to that value, `None`
/// for unchanged), every other flag kept.
pub open spec fn flags_as(
    a: SpanStyle,
    b: SpanStyle,
    bold: Option<bool>,
    italic: Option<bool>,
    code: Option<bool>,
    strike: Option<bool>,
    underline: Option<bool>,
) -> bool {
    &&& a.bold == (match bold { Some(v) => v, None => b.bold })
    &&& a.italic == (match italic { Some(v) => v, None => b.italic })
    &&& a.code == (match code { Some(v) => v, None => b.code })
    &&& a.strike == (match strike { Some(v) => v, None => b.strike })
    &&& a.underline == (match underline { Some(v) => v, None => b.underline })
    &&& a.heading == b.heading && a.quote == b.quote && a.mention == b.mention && a.dim == b.dim
}

/// Each mark adds its own effect to the style that the marks before it
/// gave: `strong` makes the text bold, `em` italic, `code` code, `strike`
/// struck out and `underline` underlined, and nothing else changes, the
/// link neither; a mark of another kind (a link aside) changes nothing.
pub proof fn each_mark_sets_its_own_flag(style: SpanStyle, link: Option<Seq<char>>, marks: Seq<Json>, m: Json)
    ensures
        ntype(m) == "strong"@ ==> flags_as(marks_s(style, link, marks.push(m)).0, marks_s(style, link, marks).0, Some(true), None, None, None, None)
            && marks_s(style, link, marks.push(m)).1 == marks_s(style, link, marks).1,
        ntype(m) == "em"@ ==> flags_as(marks_s(style, link, marks.push(m)).0, marks_s(style, link, marks).0, None, Some(true), None, None, None)
            && marks_s(style, link, marks.push(m)).1 == marks_s(style, link, marks).1,
        ntype(m) == "code"@ ==> flags_as(marks_s(style, link, marks.push(m)).0, marks_s(style, link, marks).0, None, None, Some(true), None, None)
            && marks_s(style, link, marks.push(m)).1 == marks_s(style, link, marks).1,
        ntype(m) == "strike"@ ==> flags_as(marks_s(style, link, marks.push(m)).0, marks_s(style, link, marks).0, None, None, None, Some(true), None)
            && marks_s(style, link, marks.push(m)).1 == marks_s(style, link, marks).1,
        ntype(m) == "underline"@ ==> flags_as(marks_s(style, link, marks.push(m)).0, marks_s(style, link, marks).0, None, None, None, None, Some(true))
            && marks_s(style, link, marks.push(m)).1 == marks_s(style, link, marks).1,
        ntype(m) == "link"@ ==> flags_as(marks_s(style, link, marks.push(m)).0, marks_s(style, link, marks).0, None, None, None, None, Some(true)),
        ntype(m) != "strong"@ && ntype(m) != "em"@ && ntype(m) != "code"@ && ntype(m) != "strike"@ && ntype(m) != "underline"@
            && ntype(m) != "link"@ ==> marks_s(style, link, marks.push(m)) == marks_s(style, link, marks),
{
    reveal_strlit("strong");
    reveal_strlit("em");
    reveal_strlit("code");
    reveal_strlit("strike");
    reveal_strlit("underline");
    reveal_strlit("link");
    assert(marks.push(m).drop_last() =~= marks);
    let before = marks_s(style, link, marks);
    assert(marks_s(style, link, marks.push(m)) == mark_s(before.0, before.1, m));
    assert("em"@.len() == 2 && "strong"@.len() == 6 && "code"@.len() == 4 && "strike"@.len() == 6);
    assert("strike"@[1] == 't' && "strong"@[2] == 'r' && "strike"@[2] == 'r' && "strike"@[3] == 'i' && "strong"@[3] == 'o');
    assert("em"@ != "strong"@);
    assert("code"@ != "strong"@ && "code"@ != "em"@);
    assert("strike"@ != "strong"@ && "strike"@ != "em"@ && "strike"@ != "code"@);
    assert("underline"@.len() == 9 && "link"@.len() == 4 && "link"@[0] == 'l' && "code"@[0] == 'c');
    assert("underline"@ != "strong"@ && "underline"@ != "em"@ && "underline"@ != "code"@ && "underline"@ != "strike"@);
    assert("link"@ != "strong"@ && "link"@ != "em"@ && "link"@ != "code"@ && "link"@ != "strike"@ && "link"@
        != "underline"@);
}

/// A text whose only mark is `em` is italic, and keeps the boldness (and
/// every other flag) of its base style; one whose only mark is `strong` is
/// bold and keeps its italics.
pub proof fn a_lone_mark_sets_only_its_flag(base: SpanStyle, m: Json)
    ensures
        ntype(m) == "em"@ ==> flags_as(marks_s(base, None, seq![m]).0, base, None, Some(true), None, None, None),
        ntype(m) == "strong"@ ==> flags_as(marks_s(base, None, seq![m]).0, base, Some(true), None, None, None, None),
{
    each_mark_sets_its_own_flag(base, None, Seq::empty(), m);
    assert(Seq::<Json>::empty().push(m) =~= seq![m]);
}

} // verus!
