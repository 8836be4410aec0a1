//! The lines of the Jira view's issue detail: the issue's fields, its pull
//! requests and worktrees (each section foldable), its link, description and
//! comments.

use vstd::prelude::*;

use crate::adf::{plain_style, spaces, RichLine, RichSpan, SpanStyle};
use crate::adf_render::{line_v, lines_v, render, render_s, span_v, LineV, SpanV};
use crate::jira::{last_url_segment, url_segment, lowercase_of, pull_request_label, to_lowercase, PullRequest};
use crate::jira_state::{Comment, IssueDetail, WorktreeInfo};
use crate::jira_time::{relative_time, relative_time_spec};
use crate::jira_ui::{
    header_text,
    section_header,
    section_hint,
    section_link_spec,
    style_with,
    styled,
    span,
    worktree_prefix,
    DetailSection,
};
use crate::sessions::duplicate_option;
use crate::split::opt_view;
use crate::text::{chars_of, eq_str, decimal, decimal_spec, extend_chars, has_prefix, starts_with, string_of, trim, trim_spec};

verus! {

/// A line of one span, without indent or prefix.
pub open spec fn one(text: Seq<char>, style: SpanStyle) -> LineV {
    LineV { indent: 0, prefix: Seq::empty(), spans: seq![SpanV { text, style, link: None }] }
}

/// An empty line.
pub open spec fn blank() -> LineV {
    LineV { indent: 0, prefix: Seq::empty(), spans: Seq::empty() }
}

/// Dimmed text.
pub open spec fn dim() -> SpanStyle {
    style_with(false, true)
}

/// Bold text.
pub open spec fn bold() -> SpanStyle {
    style_with(true, false)
}

/// A heading.
pub open spec fn heading() -> SpanStyle {
    SpanStyle { heading: true, bold: true, ..plain_style() }
}

/// An issue key.
pub open spec fn key_style() -> SpanStyle {
    SpanStyle { mention: true, bold: true, ..plain_style() }
}

/// An underlined link, struck out and dimmed when `gone`.
pub open spec fn link_style(gone: bool) -> SpanStyle {
    SpanStyle { underline: true, strike: gone, dim: gone, ..plain_style() }
}

/// A field line, `label: value`, when the value is there and not empty.
pub open spec fn field_lines(label: Seq<char>, value: Option<Seq<char>>) -> Seq<LineV> {
    match value {
        Some(v) => if v.len() > 0 {
            seq![
                LineV {
                    indent: 0,
                    prefix: Seq::empty(),
                    spans: seq![
                        SpanV { text: label + ": "@, style: dim(), link: None },
                        SpanV { text: v, style: plain_style(), link: None },
                    ],
                },
            ]
        } else {
            Seq::empty()
        },
        None => Seq::empty(),
    }
}

/// The lines of a section's header: the header, and `nenhum` under an open
/// empty section.
pub open spec fn header_lines(section: DetailSection, title: Seq<char>, count: nat, collapsed: Seq<DetailSection>) -> Seq<
    LineV,
> {
    let open = !collapsed.contains(section);
    seq![
        LineV {
            indent: 0,
            prefix: Seq::empty(),
            spans: seq![
                SpanV {
                    text: header_text(open, title, count),
                    style: style_with(count > 0, count == 0),
                    link: Some(section_link_spec(section)),
                },
                SpanV { text: section_hint(section), style: style_with(false, true), link: None },
            ],
        },
    ] + if open && count == 0 {
        seq![LineV { indent: 2, prefix: Seq::empty(), spans: seq![SpanV { text: "nenhum"@, style: dim(), link: None }] }]
    } else {
        Seq::<LineV>::empty()
    }
}

/// The most characters among `texts`.
pub open spec fn widest(texts: Seq<Seq<char>>) -> nat
    decreases texts.len(),
{
    if texts.len() == 0 {
        0
    } else {
        let w = widest(texts.drop_last());
        if texts.last().len() > w {
            texts.last().len()
        } else {
            w
        }
    }
}

/// `s` padded with spaces to `width` characters.
pub open spec fn pad(s: Seq<char>, width: nat) -> Seq<char> {
    if s.len() < width {
        s + spaces((width - s.len()) as nat)
    } else {
        s
    }
}

/// The lines of a pull request: its status (lower case, padded to `width`)
/// and its label, a link (struck out when declined or closed); then its
/// trimmed title, dimmed, unless empty or starting with the issue key.
pub open spec fn pr_lines(pr: PullRequest, width: nat, key: Seq<char>) -> Seq<LineV> {
    let st = lowercase_of(pr.status@);
    let gone = st == "declined"@ || st == "closed"@;
    let open = st == "open"@;
    let title = trim_spec(pr.title@);
    seq![
        LineV {
            indent: 2,
            prefix: Seq::empty(),
            spans: seq![
                SpanV { text: pad(st, width) + "  "@, style: style_with(open, !open), link: None },
                SpanV {
                    text: pull_request_label(pr.repository@, pr.url@),
                    style: link_style(gone),
                    link: Some(pr.url@),
                },
            ],
        },
    ] + if title.len() > 0 && !has_prefix(title, key) {
        seq![LineV { indent: 4 + width, prefix: Seq::empty(), spans: seq![SpanV { text: title, style: dim(), link: None }] }]
    } else {
        Seq::<LineV>::empty()
    }
}

/// The lines of the pull requests, in order.
pub open spec fn prs_lines(prs: Seq<PullRequest>, width: nat, key: Seq<char>) -> Seq<LineV>
    decreases prs.len(),
{
    if prs.len() == 0 {
        Seq::empty()
    } else {
        prs_lines(prs.drop_last(), width, key) + pr_lines(prs.last(), width, key)
    }
}

/// The first pull request made from `branch`.
pub open spec fn pr_from(branch: Option<String>, prs: Seq<PullRequest>, i: int) -> Option<int>
    decreases prs.len() - i,
{
    if i < 0 || i >= prs.len() {
        None
    } else if branch is Some && opt_view(prs[i].branch) == opt_view(branch) {
        Some(i)
    } else {
        pr_from(branch, prs, i + 1)
    }
}

/// The number of a pull request: the last part of its URL, `?` when empty.
pub open spec fn pr_number(url: Seq<char>) -> Seq<char> {
    if last_url_segment(url).len() > 0 {
        last_url_segment(url)
    } else {
        "?"@
    }
}

/// The lines of worktree `index`: its repository (dimmed, padded to
/// `width`), its name as a link to it and, when a pull request is made from
/// its branch, that request's number; then its branch, dimmed.
pub open spec fn wt_lines(wt: WorktreeInfo, index: nat, width: nat, prs: Seq<PullRequest>) -> Seq<LineV> {
    let base = seq![
        SpanV { text: pad(wt.repo@, width) + "  "@, style: dim(), link: None },
        SpanV { text: wt.name@, style: link_style(false), link: Some(worktree_prefix() + decimal_spec(index)) },
    ];
    let spans = match pr_from(wt.branch, prs, 0) {
        Some(i) => base.push(SpanV { text: " → #"@ + pr_number(prs[i].url@), style: bold(), link: None }),
        None => base,
    };
    seq![LineV { indent: 2, prefix: Seq::empty(), spans }] + match wt.branch {
        Some(b) => seq![LineV { indent: 4 + width, prefix: Seq::empty(), spans: seq![SpanV { text: b@, style: dim(), link: None }] }],
        None => Seq::<LineV>::empty(),
    }
}

/// The lines of the first `n` worktrees.
pub open spec fn wts_lines(wts: Seq<WorktreeInfo>, n: int, width: nat, prs: Seq<PullRequest>) -> Seq<LineV>
    decreases n,
{
    if n <= 0 {
        Seq::empty()
    } else {
        wts_lines(wts, n - 1, width, prs) + wt_lines(wts[n - 1], (n - 1) as nat, width, prs)
    }
}

/// A line indented two more columns (at most the largest `usize`).
pub open spec fn indented(l: LineV) -> LineV {
    LineV {
        indent: if l.indent + 2 > usize::MAX {
            usize::MAX as nat
        } else {
            l.indent + 2
        },
        ..l
    }
}

/// The lines of a comment at Unix time `now`: an empty line, its author
/// (`?` when unknown) and how long ago it was written, then its body
/// indented.
pub open spec fn comment_lines(c: Comment, now: i64) -> Seq<LineV> {
    seq![
        blank(),
        LineV {
            indent: 0,
            prefix: Seq::empty(),
            spans: seq![
                SpanV {
                    text: if c.author@.len() == 0 {
                        "?"@
                    } else {
                        c.author@
                    },
                    style: bold(),
                    link: None,
                },
                SpanV {
                    text: " · "@ + relative_time_spec(c.created@, vstd::utf8::encode_utf8(c.created@), now),
                    style: dim(),
                    link: None,
                },
            ],
        },
    ] + render_s(c.body).map_values(|l: LineV| indented(l))
}

/// The lines of the comments.
pub open spec fn comments_lines(cs: Seq<Comment>, now: i64) -> Seq<LineV>
    decreases cs.len(),
{
    if cs.len() == 0 {
        Seq::empty()
    } else {
        comments_lines(cs.drop_last(), now) + comment_lines(cs.last(), now)
    }
}

/// The detail's lines from the header to the link: the key, type and
/// status; the summary; the fields; the pull requests and worktrees.
pub open spec fn top_lines(d: IssueDetail, collapsed: Seq<DetailSection>) -> Seq<LineV> {
    let issue = d.issue;
    let head = LineV {
        indent: 0,
        prefix: Seq::empty(),
        spans: seq![
            SpanV { text: issue.key@, style: key_style(), link: None },
            SpanV { text: " · "@ + issue.issue_type@ + " · "@, style: dim(), link: None },
            SpanV { text: issue.status@, style: bold(), link: None },
        ],
    };
    seq![head, one(issue.summary@, bold()), blank()] + fields_lines(d) + sections_lines(d, collapsed)
}

/// The detail's field lines: priority, assignee (or `ninguém`), sprint,
/// points, parent and development, those without a value left out.
pub open spec fn fields_lines(d: IssueDetail) -> Seq<LineV> {
    let issue = d.issue;
    field_lines("prioridade"@, opt_view(issue.priority)) + field_lines(
        "responsável"@,
        Some(
            match issue.assignee {
                Some(a) => a@,
                None => "ninguém"@,
            },
        ),
    ) + field_lines("sprint"@, opt_view(d.sprint)) + field_lines("pontos"@, opt_view(d.story_points))
        + field_lines(
        "pai"@,
        match issue.parent {
            Some((k, s)) => Some(k@ + " "@ + s@),
            None => None,
        },
    ) + field_lines("desenvolvimento"@, opt_view(d.development))
}

/// The detail's sections: the pull requests, then the worktrees, each under
/// its header and left out when folded.
pub open spec fn sections_lines(d: IssueDetail, collapsed: Seq<DetailSection>) -> Seq<LineV> {
    let prs = d.pull_requests@;
    let wts = d.worktrees@;
    let sw = widest(prs.map_values(|p: PullRequest| p.status@));
    let rw = widest(wts.map_values(|w: WorktreeInfo| w.repo@));
    header_lines(DetailSection::PullRequests, "pull requests"@, prs.len(), collapsed) + (if !collapsed.contains(
        DetailSection::PullRequests,
    ) {
        prs_lines(prs, sw, d.issue.key@)
    } else {
        Seq::empty()
    }) + header_lines(DetailSection::Worktrees, "worktrees"@, wts.len(), collapsed) + (if !collapsed.contains(
        DetailSection::Worktrees,
    ) {
        wts_lines(wts, wts.len() as int, rw, prs)
    } else {
        Seq::empty()
    })
}

/// The detail's lines from the link on: the issue's link, its description
/// (or `(sem descrição)`), and its comments with their count (or
/// `(nenhum)`).
pub open spec fn bottom_lines(d: IssueDetail, browse_base: Seq<char>, now: i64) -> Seq<LineV> {
    let url = browse_base + d.issue.key@;
    let desc = match d.description {
        Some(doc) => if render_s(doc).len() == 0 {
            seq![one("(sem descrição)"@, dim())]
        } else {
            render_s(doc)
        },
        None => seq![one("(sem descrição)"@, dim())],
    };
    let n = d.comments@.len();
    seq![
        LineV {
            indent: 0,
            prefix: Seq::empty(),
            spans: seq![
                SpanV { text: "link: "@, style: dim(), link: None },
                SpanV { text: url, style: link_style(false), link: Some(url) },
            ],
        },
        blank(),
        one("Descrição"@, heading()),
    ] + desc + seq![blank(), one("Comentários ("@ + decimal_spec(n) + ")"@, heading())] + (if n == 0 {
        seq![one("(nenhum)"@, dim())]
    } else {
        Seq::empty()
    }) + comments_lines(d.comments@, now)
}

/// The lines of the detail of issue `key` at Unix time `now`: without the
/// detail, the key and the error (or `carregando…`); else its top and
/// bottom lines, the sections in `collapsed` folded.
pub open spec fn detail_lines_spec(
    key: Seq<char>,
    detail: Option<IssueDetail>,
    error: Option<Seq<char>>,
    browse_base: Seq<char>,
    collapsed: Seq<DetailSection>,
    now: i64,
) -> Seq<LineV> {
    match detail {
        None => seq![
            one(key, heading()),
            one(
                match error {
                    Some(e) => e,
                    None => "carregando…"@,
                },
                dim(),
            ),
        ],
        Some(d) => top_lines(d, collapsed) + bottom_lines(d, browse_base, now),
    }
}

/// A line of the given spans.
fn line_of(indent: usize, spans: Vec<RichSpan>) -> (r: RichLine)
    ensures
        line_v(r) == (LineV { indent: indent as nat, prefix: Seq::empty(), spans: spans@.map_values(|s: RichSpan| span_v(s)) }),
{
    let r = RichLine { indent, prefix: String::new(), spans };
    assert(r.prefix@ =~= Seq::<char>::empty());
    r
}

/// A line of one span of `text`.
fn one_line(text: &str, style: SpanStyle) -> (r: RichLine)
    ensures
        line_v(r) == one(text@, style),
{
    let mut spans: Vec<RichSpan> = Vec::new();
    spans.push(span(text, style));
    let r = line_of(0, spans);
    assert(line_v(r).spans =~= one(text@, style).spans);
    r
}

/// Appends `line` to `lines`.
fn push_line(lines: &mut Vec<RichLine>, line: RichLine)
    ensures
        lines_v(final(lines)@) == lines_v(old(lines)@).push(line_v(line)),
{
    lines.push(line);
    assert(lines_v(lines@) =~= lines_v(old(lines)@).push(line_v(line)));
}

/// Appends a field line, `label: value`, when the value is there and not
/// empty.
fn push_field(lines: &mut Vec<RichLine>, label: &str, value: Option<String>)
    ensures
        lines_v(final(lines)@) == lines_v(old(lines)@) + field_lines(label@, opt_view(value)),
{
    match value {
        Some(v) => {
            if v.as_str().is_empty() {
                assert(lines_v(lines@) =~= lines_v(lines@) + Seq::<LineV>::empty());
                return;
            }
            let mut text = chars_of(label);
            extend_chars(&mut text, chars_of(": ").as_slice());
            let mut spans: Vec<RichSpan> = Vec::new();
            spans.push(RichSpan { text: string_of(text.as_slice()), style: styled(false, true), link: None });
            spans.push(span(v.as_str(), SpanStyle::plain()));
            let line = line_of(0, spans);
            proof {
                reveal_strlit(": ");
                assert(line_v(line).spans =~= field_lines(label@, opt_view(Some(v)))[0].spans);
            }
            push_line(lines, line);
            assert(lines_v(lines@) =~= lines_v(old(lines)@) + field_lines(label@, opt_view(Some(v))));
        },
        None => {
            assert(lines_v(lines@) =~= lines_v(lines@) + Seq::<LineV>::empty());
        },
    }
}

/// The most characters among the pull requests' statuses.
fn status_width(prs: &Vec<PullRequest>) -> (w: usize)
    ensures
        w as nat == widest(prs@.map_values(|p: PullRequest| p.status@)),
{
    let mut w: usize = 0;
    let mut i: usize = 0;
    while i < prs.len()
        invariant
            i <= prs@.len(),
            w as nat == widest(prs@.take(i as int).map_values(|p: PullRequest| p.status@)),
        decreases prs@.len() - i,
    {
        let n = chars_of(prs[i].status.as_str()).len();
        proof {
            let t = prs@.take(i as int + 1).map_values(|p: PullRequest| p.status@);
            assert(t.drop_last() =~= prs@.take(i as int).map_values(|p: PullRequest| p.status@));
            assert(t.last() == prs@[i as int].status@);
        }
        if n > w {
            w = n;
        }
        i = i + 1;
    }
    assert(prs@.take(prs@.len() as int) =~= prs@);
    w
}

/// The most characters among the worktrees' repositories.
fn repo_width(wts: &Vec<WorktreeInfo>) -> (w: usize)
    ensures
        w as nat == widest(wts@.map_values(|t: WorktreeInfo| t.repo@)),
{
    let mut w: usize = 0;
    let mut i: usize = 0;
    while i < wts.len()
        invariant
            i <= wts@.len(),
            w as nat == widest(wts@.take(i as int).map_values(|t: WorktreeInfo| t.repo@)),
        decreases wts@.len() - i,
    {
        let n = chars_of(wts[i].repo.as_str()).len();
        proof {
            let t = wts@.take(i as int + 1).map_values(|t: WorktreeInfo| t.repo@);
            assert(t.drop_last() =~= wts@.take(i as int).map_values(|t: WorktreeInfo| t.repo@));
            assert(t.last() == wts@[i as int].repo@);
        }
        if n > w {
            w = n;
        }
        i = i + 1;
    }
    assert(wts@.take(wts@.len() as int) =~= wts@);
    w
}

/// `s` padded with spaces to `width` characters, then two spaces.
fn padded(s: &str, width: usize) -> (v: Vec<char>)
    ensures
        v@ == pad(s@, width as nat) + "  "@,
{
    let mut v = chars_of(s);
    while v.len() < width
        invariant
            v@.len() >= s@.len(),
            v@ =~= s@ + spaces((v@.len() - s@.len()) as nat),
            v@.len() > s@.len() ==> v@.len() <= width,
            s@.len() < width ==> v@.len() <= width,
        decreases width - v@.len(),
    {
        v.push(' ');
    }
    proof {
        if s@.len() >= width {
            assert(v@ =~= s@);
        }
    }
    extend_chars(&mut v, chars_of("  ").as_slice());
    v
}

/// An underlined link style, struck out and dimmed when `gone`.
fn underlined(gone: bool) -> (r: SpanStyle)
    ensures
        r == link_style(gone),
{
    SpanStyle { underline: true, strike: gone, dim: gone, ..SpanStyle::plain() }
}

/// Appends the lines of a pull request.
fn push_pr(lines: &mut Vec<RichLine>, pr: &PullRequest, width: usize, key: &str)
    requires
        width + 4 <= usize::MAX,
    ensures
        lines_v(final(lines)@) == lines_v(old(lines)@) + pr_lines(*pr, width as nat, key@),
{
    let st = to_lowercase(pr.status.as_str());
    let gone = eq_str(st.as_str(), "declined") || eq_str(st.as_str(), "closed");
    let open = eq_str(st.as_str(), "open");
    let text = padded(st.as_str(), width);
    let mut spans: Vec<RichSpan> = Vec::new();
    spans.push(RichSpan { text: string_of(text.as_slice()), style: styled(open, !open), link: None });
    spans.push(RichSpan { text: pr.label(), style: underlined(gone), link: Some(pr.url.clone()) });
    let first = line_of(2, spans);
    let ghost want = pr_lines(*pr, width as nat, key@);
    assert(line_v(first).spans =~= want[0].spans);
    push_line(lines, first);
    let title = trim(chars_of(pr.title.as_str()).as_slice());
    let k = chars_of(key);
    if title.len() > 0 && !starts_with(title.as_slice(), k.as_slice()) {
        let mut more: Vec<RichSpan> = Vec::new();
        more.push(RichSpan { text: string_of(title.as_slice()), style: styled(false, true), link: None });
        let second = line_of(4 + width, more);
        assert(line_v(second).spans =~= want[1].spans);
        push_line(lines, second);
    }
    assert(lines_v(lines@) =~= lines_v(old(lines)@) + want);
}

/// Appends the lines of the pull requests.
fn push_prs(lines: &mut Vec<RichLine>, prs: &Vec<PullRequest>, width: usize, key: &str)
    requires
        width + 4 <= usize::MAX,
    ensures
        lines_v(final(lines)@) == lines_v(old(lines)@) + prs_lines(prs@, width as nat, key@),
{
    let mut i: usize = 0;
    while i < prs.len()
        invariant
            i <= prs@.len(),
            width + 4 <= usize::MAX,
            lines_v(lines@) == lines_v(old(lines)@) + prs_lines(prs@.take(i as int), width as nat, key@),
        decreases prs@.len() - i,
    {
        proof {
            assert(prs@.take(i as int + 1).drop_last() =~= prs@.take(i as int));
        }
        push_pr(lines, &prs[i], width, key);
        i = i + 1;
    }
    assert(prs@.take(prs@.len() as int) =~= prs@);
}

/// The first pull request made from `branch` (see [`pr_from`]).
fn pr_of(branch: &Option<String>, prs: &Vec<PullRequest>) -> (r: Option<usize>)
    ensures
        r matches Some(i) ==> i < prs@.len(),
        pr_from(*branch, prs@, 0) == (match r {
            Some(i) => Some(i as int),
            None => None::<int>,
        }),
{
    let mut i: usize = 0;
    while i < prs.len()
        invariant
            i <= prs@.len(),
            pr_from(*branch, prs@, 0) == pr_from(*branch, prs@, i as int),
        decreases prs@.len() - i,
    {
        let same = match (branch, &prs[i].branch) {
            (Some(b), Some(p)) => eq_str(p.as_str(), b.as_str()),
            _ => false,
        };
        if same {
            return Some(i);
        }
        i = i + 1;
    }
    None
}

/// Appends the lines of worktree `index`.
fn push_worktree(lines: &mut Vec<RichLine>, wt: &WorktreeInfo, index: usize, width: usize, prs: &Vec<PullRequest>)
    requires
        width + 4 <= usize::MAX,
    ensures
        lines_v(final(lines)@) == lines_v(old(lines)@) + wt_lines(*wt, index as nat, width as nat, prs@),
{
    let mut link = chars_of("herdr-jira:worktree:");
    extend_chars(&mut link, decimal(index as u64).as_slice());
    let mut spans: Vec<RichSpan> = Vec::new();
    spans.push(RichSpan { text: string_of(padded(wt.repo.as_str(), width).as_slice()), style: styled(false, true), link: None });
    spans.push(RichSpan { text: wt.name.clone(), style: underlined(false), link: Some(string_of(link.as_slice())) });
    let ghost want = wt_lines(*wt, index as nat, width as nat, prs@);
    match pr_of(&wt.branch, prs) {
        Some(i) => {
            let seg = url_segment(prs[i].url.as_str());
            let mut text = chars_of(" → #");
            if seg.len() > 0 {
                extend_chars(&mut text, seg.as_slice());
            } else {
                extend_chars(&mut text, chars_of("?").as_slice());
            }
            spans.push(RichSpan { text: string_of(text.as_slice()), style: styled(true, false), link: None });
        },
        None => {},
    }
    let first = line_of(2, spans);
    assert(line_v(first).spans =~= want[0].spans);
    push_line(lines, first);
    match &wt.branch {
        Some(b) => {
            let mut more: Vec<RichSpan> = Vec::new();
            more.push(span(b.as_str(), styled(false, true)));
            let second = line_of(4 + width, more);
            assert(line_v(second).spans =~= want[1].spans);
            push_line(lines, second);
        },
        None => {},
    }
    assert(lines_v(lines@) =~= lines_v(old(lines)@) + want);
}

/// Appends the lines of the worktrees.
fn push_worktrees(lines: &mut Vec<RichLine>, wts: &Vec<WorktreeInfo>, width: usize, prs: &Vec<PullRequest>)
    requires
        width + 4 <= usize::MAX,
    ensures
        lines_v(final(lines)@) == lines_v(old(lines)@) + wts_lines(wts@, wts@.len() as int, width as nat, prs@),
{
    let mut i: usize = 0;
    while i < wts.len()
        invariant
            i <= wts@.len(),
            width + 4 <= usize::MAX,
            lines_v(lines@) == lines_v(old(lines)@) + wts_lines(wts@, i as int, width as nat, prs@),
        decreases wts@.len() - i,
    {
        push_worktree(lines, &wts[i], i, width, prs);
        proof {
            assert(lines_v(lines@) =~= lines_v(old(lines)@) + wts_lines(wts@, i as int + 1, width as nat, prs@));
        }
        i = i + 1;
    }
}

/// Appends the lines of a comment at Unix time `now`.
fn push_comment(lines: &mut Vec<RichLine>, c: &Comment, now: i64)
    ensures
        lines_v(final(lines)@) == lines_v(old(lines)@) + comment_lines(*c, now),
{
    let ghost want = comment_lines(*c, now);
    let blank_line = line_of(0, Vec::new());
    assert(line_v(blank_line).spans =~= want[0].spans);
    push_line(lines, blank_line);
    let mut spans: Vec<RichSpan> = Vec::new();
    if c.author.as_str().is_empty() {
        spans.push(span("?", styled(true, false)));
    } else {
        spans.push(span(c.author.as_str(), styled(true, false)));
    }
    let mut when = chars_of(" · ");
    extend_chars(&mut when, chars_of(relative_time(c.created.as_str(), now).as_str()).as_slice());
    spans.push(RichSpan { text: string_of(when.as_slice()), style: styled(false, true), link: None });
    let head = line_of(0, spans);
    assert(line_v(head).spans =~= want[1].spans);
    push_line(lines, head);
    let ghost base = lines_v(lines@);
    let ghost body = render_s(c.body);
    let mut rest = render(&c.body);
    let ghost mut k: int = 0;
    while rest.len() > 0
        invariant
            0 <= k <= body.len(),
            lines_v(rest@) == body.skip(k),
            lines_v(lines@) == base + body.take(k).map_values(|l: LineV| indented(l)),
        decreases rest@.len(),
    {
        let ghost before = rest@;
        let mut l = rest.remove(0);
        proof {
            assert(lines_v(before).len() == before.len());
            assert(k < body.len());
            assert(body.skip(k)[0] == body[k]);
            assert(lines_v(before)[0] == line_v(before[0]));
            assert(line_v(l) == body[k]);
            assert(rest@ =~= before.skip(1));
            assert(lines_v(rest@) =~= lines_v(before).skip(1));
            assert(lines_v(rest@) =~= body.skip(k + 1));
        }
        l.indent = if l.indent <= usize::MAX - 2 {
            l.indent + 2
        } else {
            usize::MAX
        };
        push_line(lines, l);
        proof {
            assert(body.take(k + 1).map_values(|l: LineV| indented(l)) =~= body.take(k).map_values(|l: LineV| indented(l)).push(indented(body[k])));
            k = k + 1;
        }
    }
    assert(body.take(k) =~= body);
    assert(lines_v(lines@) =~= lines_v(old(lines)@) + want);
}

/// Appends the lines of the comments.
fn push_comments(lines: &mut Vec<RichLine>, cs: &Vec<Comment>, now: i64)
    ensures
        lines_v(final(lines)@) == lines_v(old(lines)@) + comments_lines(cs@, now),
{
    let mut i: usize = 0;
    while i < cs.len()
        invariant
            i <= cs@.len(),
            lines_v(lines@) == lines_v(old(lines)@) + comments_lines(cs@.take(i as int), now),
        decreases cs@.len() - i,
    {
        proof {
            assert(cs@.take(i as int + 1).drop_last() =~= cs@.take(i as int));
        }
        push_comment(lines, &cs[i], now);
        i = i + 1;
    }
    assert(cs@.take(cs@.len() as int) =~= cs@);
}

/// Appends a section's header lines; returns whether the section is open.
fn push_header(
    lines: &mut Vec<RichLine>,
    section: DetailSection,
    title: &str,
    count: usize,
    collapsed: &[DetailSection],
) -> (open: bool)
    ensures
        open == !collapsed@.contains(section),
        lines_v(final(lines)@) == lines_v(old(lines)@) + header_lines(section, title@, count as nat, collapsed@),
{
    let open = section_header(lines, section, title, count, collapsed);
    let ghost want = header_lines(section, title@, count as nat, collapsed@);
    let ghost n = old(lines)@.len() as int;
    proof {
        assert(line_v(lines@[n]).spans =~= want[0].spans);
        assert(line_v(lines@[n]).prefix =~= want[0].prefix);
        if open && count == 0 {
            assert(line_v(lines@[n + 1]).spans =~= want[1].spans);
            assert(line_v(lines@[n + 1]).prefix =~= want[1].prefix);
        }
        assert(lines@.take(n) == old(lines)@);
        assert(lines_v(lines@) =~= lines_v(old(lines)@) + want);
    }
    open
}

/// Appends the detail's lines from the header to the link.
fn push_top(lines: &mut Vec<RichLine>, d: &IssueDetail, collapsed: &[DetailSection])
    requires
        widest(d.pull_requests@.map_values(|p: PullRequest| p.status@)) + 4 <= usize::MAX,
        widest(d.worktrees@.map_values(|t: WorktreeInfo| t.repo@)) + 4 <= usize::MAX,
    ensures
        lines_v(final(lines)@) == lines_v(old(lines)@) + top_lines(*d, collapsed@),
{
    let issue = &d.issue;
    let mut kind = chars_of(" · ");
    extend_chars(&mut kind, chars_of(issue.issue_type.as_str()).as_slice());
    extend_chars(&mut kind, chars_of(" · ").as_slice());
    let mut spans: Vec<RichSpan> = Vec::new();
    spans.push(span(issue.key.as_str(), SpanStyle { mention: true, bold: true, ..SpanStyle::plain() }));
    spans.push(RichSpan { text: string_of(kind.as_slice()), style: styled(false, true), link: None });
    spans.push(span(issue.status.as_str(), styled(true, false)));
    let head = line_of(0, spans);
    let ghost t = top_lines(*d, collapsed@);
    assert(line_v(head).spans =~= t[0].spans);
    push_line(lines, head);
    push_line(lines, one_line(issue.summary.as_str(), styled(true, false)));
    let blank_line = line_of(0, Vec::new());
    assert(line_v(blank_line).spans =~= blank().spans);
    push_line(lines, blank_line);
    proof {
        assert(lines_v(lines@) =~= lines_v(old(lines)@) + seq![t[0], one(issue.summary@, bold()), blank()]);
    }
    push_fields(lines, d);
    push_sections(lines, d, collapsed);
    assert(lines_v(lines@) =~= lines_v(old(lines)@) + t);
}

/// Appends the detail's field lines.
fn push_fields(lines: &mut Vec<RichLine>, d: &IssueDetail)
    ensures
        lines_v(final(lines)@) == lines_v(old(lines)@) + fields_lines(*d),
{
    let issue = &d.issue;
    push_field(lines, "prioridade", duplicate_option(&issue.priority));
    let assignee = match &issue.assignee {
        Some(a) => a.clone(),
        None => string_of(chars_of("ninguém").as_slice()),
    };
    push_field(lines, "responsável", Some(assignee));
    push_field(lines, "sprint", duplicate_option(&d.sprint));
    push_field(lines, "pontos", duplicate_option(&d.story_points));
    let parent = match &issue.parent {
        Some((k, s)) => {
            let mut text = chars_of(k.as_str());
            extend_chars(&mut text, chars_of(" ").as_slice());
            extend_chars(&mut text, chars_of(s.as_str()).as_slice());
            Some(string_of(text.as_slice()))
        },
        None => None,
    };
    push_field(lines, "pai", parent);
    push_field(lines, "desenvolvimento", duplicate_option(&d.development));
    assert(lines_v(lines@) =~= lines_v(old(lines)@) + fields_lines(*d));
}

/// Appends the detail's sections.
fn push_sections(lines: &mut Vec<RichLine>, d: &IssueDetail, collapsed: &[DetailSection])
    requires
        widest(d.pull_requests@.map_values(|p: PullRequest| p.status@)) + 4 <= usize::MAX,
        widest(d.worktrees@.map_values(|t: WorktreeInfo| t.repo@)) + 4 <= usize::MAX,
    ensures
        lines_v(final(lines)@) == lines_v(old(lines)@) + sections_lines(*d, collapsed@),
{
    let sw = status_width(&d.pull_requests);
    let rw = repo_width(&d.worktrees);
    if push_header(lines, DetailSection::PullRequests, "pull requests", d.pull_requests.len(), collapsed) {
        push_prs(lines, &d.pull_requests, sw, d.issue.key.as_str());
    } else {
        assert(lines_v(lines@) =~= lines_v(lines@) + Seq::<LineV>::empty());
    }
    if push_header(lines, DetailSection::Worktrees, "worktrees", d.worktrees.len(), collapsed) {
        push_worktrees(lines, &d.worktrees, rw, &d.pull_requests);
    } else {
        assert(lines_v(lines@) =~= lines_v(lines@) + Seq::<LineV>::empty());
    }
    assert(lines_v(lines@) =~= lines_v(old(lines)@) + sections_lines(*d, collapsed@));
}

/// An empty line.
fn blank_line() -> (r: RichLine)
    ensures
        line_v(r) == blank(),
{
    let r = line_of(0, Vec::new());
    assert(line_v(r).spans =~= blank().spans);
    r
}

/// Appends all of `more`.
fn push_all(lines: &mut Vec<RichLine>, more: Vec<RichLine>)
    ensures
        lines_v(final(lines)@) == lines_v(old(lines)@) + lines_v(more@),
{
    let mut more = more;
    let ghost m = more@;
    lines.append(&mut more);
    assert(lines_v(lines@) =~= lines_v(old(lines)@) + lines_v(m));
}

/// Appends the detail's lines from the link on, at Unix time `now`.
fn push_bottom(lines: &mut Vec<RichLine>, d: &IssueDetail, browse_base: &str, now: i64)
    ensures
        lines_v(final(lines)@) == lines_v(old(lines)@) + bottom_lines(*d, browse_base@, now),
{
    let ghost want = bottom_lines(*d, browse_base@, now);
    let mut url = chars_of(browse_base);
    extend_chars(&mut url, chars_of(d.issue.key.as_str()).as_slice());
    let mut spans: Vec<RichSpan> = Vec::new();
    spans.push(span("link: ", styled(false, true)));
    spans.push(RichSpan { text: string_of(url.as_slice()), style: underlined(false), link: Some(string_of(url.as_slice())) });
    let link = line_of(0, spans);
    assert(line_v(link).spans =~= want[0].spans);
    push_line(lines, link);
    push_line(lines, blank_line());
    push_line(lines, one_line("Descrição", SpanStyle { heading: true, bold: true, ..SpanStyle::plain() }));
    match &d.description {
        Some(doc) => {
            let rendered = render(doc);
            if rendered.len() == 0 {
                push_line(lines, one_line("(sem descrição)", styled(false, true)));
            } else {
                push_all(lines, rendered);
            }
        },
        None => push_line(lines, one_line("(sem descrição)", styled(false, true))),
    }
    push_line(lines, blank_line());
    let mut title = chars_of("Comentários (");
    extend_chars(&mut title, decimal(d.comments.len() as u64).as_slice());
    extend_chars(&mut title, chars_of(")").as_slice());
    push_line(lines, one_line(string_of(title.as_slice()).as_str(), SpanStyle { heading: true, bold: true, ..SpanStyle::plain() }));
    if d.comments.len() == 0 {
        push_line(lines, one_line("(nenhum)", styled(false, true)));
    }
    push_comments(lines, &d.comments, now);
    assert(lines_v(lines@) =~= lines_v(old(lines)@) + want);
}

/// The lines of the detail of issue `key` at Unix time `now`: without the
/// detail, the key and the error (or `carregando…`); else the key, type and
/// status, the summary, the fields, the pull requests and worktrees (the
/// sections in `collapsed` folded), the issue's link on `browse_base`, the
/// description and the comments.
pub fn detail_lines(
    key: &str,
    detail: Option<&IssueDetail>,
    error: Option<&str>,
    browse_base: &str,
    collapsed: &[DetailSection],
    now: i64,
) -> (r: Vec<RichLine>)
    requires
        detail matches Some(d) ==> widest(d.pull_requests@.map_values(|p: PullRequest| p.status@)) + 4 <= usize::MAX,
        detail matches Some(d) ==> widest(d.worktrees@.map_values(|t: WorktreeInfo| t.repo@)) + 4 <= usize::MAX,
    ensures
        lines_v(r@) == detail_lines_spec(
            key@,
            match detail {
                Some(d) => Some(*d),
                None => None,
            },
            match error {
                Some(e) => Some(e@),
                None => None,
            },
            browse_base@,
            collapsed@,
            now,
        ),
{
    let mut lines: Vec<RichLine> = Vec::new();
    let heading = SpanStyle { heading: true, bold: true, ..SpanStyle::plain() };
    match detail {
        None => {
            lines.push(one_line(key, heading));
            match error {
                Some(e) => lines.push(one_line(e, styled(false, true))),
                None => lines.push(one_line("carregando…", styled(false, true))),
            }
            assert(lines_v(lines@) =~= detail_lines_spec(key@, None, match error {
                Some(e) => Some(e@),
                None => None,
            }, browse_base@, collapsed@, now));
        },
        Some(d) => {
            push_top(&mut lines, d, collapsed);
            push_bottom(&mut lines, d, browse_base, now);
            assert(lines_v(lines@) =~= top_lines(*d, collapsed@) + bottom_lines(*d, browse_base@, now));
        },
    }
    lines
}

} // verus!
