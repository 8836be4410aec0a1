//! The right panel: the modes it can show, its geometry beside a tab, the
//! public ids of its terminals, and the per-pane state that decides which
//! panel terminal each pane shows.

use vstd::prelude::*;
use vstd::string::*;

use crate::text::{
    chars_of, decimal, decimal_spec, extend_chars, first_in_class_from, has_prefix,
    last_in_class_before, last_match, lemma_first_in_class_bounds, lemma_last_in_class_bounds,
    parse_u32, parse_u32_spec, replace, replace_spec, rfind, rfind_class_before, same_chars,
    slice_chars, starts_with, string_of, trim_end_char, trim_end_matching, find_class_from,
    CharClass,
};

verus! {

/// The percentage of the tab area that the panel takes by default.
pub const DEFAULT_WIDTH_PERCENT: u8 = 45;

/// The narrowest panel, in columns.
pub const MIN_PANEL_COLS: u16 = 20;

/// The narrowest tab beside the panel, in columns.
pub const MIN_TAB_COLS: u16 = 20;

/// How many panel terminals are kept alive at most.
pub const MAX_INSTANCES: usize = 16;

/// A panel command that exits within this many milliseconds of its start
/// failed to start.
pub const FAILED_START_WINDOW_MS: u64 = 3000;

/// What the panel shows: one of the built-in views or a configured tab.
#[derive(Debug, Clone, PartialEq, Eq, Hash, Default)]
pub enum RightPanelMode {
    #[default]
    Files,
    Diff,
    Jira,
    Custom(String),
}

/// A mode, with the label of a custom tab as its characters.
pub enum ModeView {
    Files,
    Diff,
    Jira,
    Custom(Seq<char>),
}

impl View for RightPanelMode {
    type V = ModeView;

    open spec fn view(&self) -> ModeView {
        match self {
            RightPanelMode::Files => ModeView::Files,
            RightPanelMode::Diff => ModeView::Diff,
            RightPanelMode::Jira => ModeView::Jira,
            RightPanelMode::Custom(label) => ModeView::Custom(label@),
        }
    }
}

/// The label shown in the panel header for a mode.
pub open spec fn mode_label(mode: ModeView) -> Seq<char> {
    match mode {
        ModeView::Files => "files"@,
        ModeView::Diff => "diff"@,
        ModeView::Jira => "jira"@,
        ModeView::Custom(label) => label,
    }
}

/// The mode that a label names: a built-in mode by its label, any other label a
/// custom tab.
pub open spec fn mode_from_label_spec(label: Seq<char>) -> ModeView {
    if label == "files"@ {
        ModeView::Files
    } else if label == "diff"@ {
        ModeView::Diff
    } else if label == "jira"@ {
        ModeView::Jira
    } else {
        ModeView::Custom(label)
    }
}

/// Whether a label is the label of a built-in mode.
pub open spec fn is_builtin_label(label: Seq<char>) -> bool {
    label == "files"@ || label == "diff"@ || label == "jira"@
}

/// The built-in modes, in header order.
pub open spec fn builtin_modes() -> Seq<ModeView> {
    seq![ModeView::Files, ModeView::Diff, ModeView::Jira]
}

/// The header modes: the built-in ones, then one per custom label.
pub open spec fn header_modes_spec(custom_labels: Seq<Seq<char>>) -> Seq<ModeView> {
    builtin_modes() + custom_labels.map_values(|label: Seq<char>| ModeView::Custom(label))
}

impl RightPanelMode {
    /// The label of this mode.
    pub fn label(&self) -> (r: String)
        ensures
            r@ == mode_label(self@),
    {
        match self {
            RightPanelMode::Files => String::from_str("files"),
            RightPanelMode::Diff => String::from_str("diff"),
            RightPanelMode::Jira => String::from_str("jira"),
            RightPanelMode::Custom(label) => label.clone(),
        }
    }

    /// The number of characters in the label of this mode.
    pub fn label_len(&self) -> (r: usize)
        ensures
            r == mode_label(self@).len(),
    {
        match self {
            RightPanelMode::Files => {
                proof {
                    reveal_strlit("files");
                }
                5
            },
            RightPanelMode::Diff => {
                proof {
                    reveal_strlit("diff");
                }
                4
            },
            RightPanelMode::Jira => {
                proof {
                    reveal_strlit("jira");
                }
                4
            },
            RightPanelMode::Custom(label) => label.as_str().unicode_len(),
        }
    }

    /// The mode that `label` names.
    pub fn from_label(label: &str) -> (r: RightPanelMode)
        ensures
            r@ == mode_from_label_spec(label@),
    {
        let chars = chars_of(label);
        let files = chars_of("files");
        let diff = chars_of("diff");
        let jira = chars_of("jira");
        if same_chars(&chars, &files) {
            RightPanelMode::Files
        } else if same_chars(&chars, &diff) {
            RightPanelMode::Diff
        } else if same_chars(&chars, &jira) {
            RightPanelMode::Jira
        } else {
            RightPanelMode::Custom(String::from_str(label))
        }
    }

    /// A copy of this mode.
    pub fn duplicate(&self) -> (r: RightPanelMode)
        ensures
            r == *self,
    {
        match self {
            RightPanelMode::Files => RightPanelMode::Files,
            RightPanelMode::Diff => RightPanelMode::Diff,
            RightPanelMode::Jira => RightPanelMode::Jira,
            RightPanelMode::Custom(label) => RightPanelMode::Custom(label.clone()),
        }
    }

    /// Whether two modes are the same mode.
    pub fn same(&self, other: &RightPanelMode) -> (r: bool)
        ensures
            r == (self@ == other@),
    {
        match (self, other) {
            (RightPanelMode::Files, RightPanelMode::Files) => true,
            (RightPanelMode::Diff, RightPanelMode::Diff) => true,
            (RightPanelMode::Jira, RightPanelMode::Jira) => true,
            (RightPanelMode::Custom(a), RightPanelMode::Custom(b)) => {
                let a = chars_of(a.as_str());
                let b = chars_of(b.as_str());
                same_chars(&a, &b)
            },
            _ => false,
        }
    }
}

/// Reading a mode back from its label gives the mode, for every built-in mode
/// and for every custom tab whose label is not a built-in label.
pub proof fn label_round_trip(mode: ModeView)
    requires
        mode matches ModeView::Custom(label) ==> !is_builtin_label(label),
    ensures
        mode_from_label_spec(mode_label(mode)) == mode,
{
    reveal_strlit("files");
    reveal_strlit("diff");
    reveal_strlit("jira");
    assert("files"@.len() == 5);
    assert("diff"@.len() == 4);
    assert("diff"@[0] == 'd' && "jira"@[0] == 'j');
    assert("files"@ != "diff"@);
    assert("files"@ != "jira"@);
    assert("diff"@ != "jira"@);
    match mode {
        ModeView::Files => {},
        ModeView::Diff => {},
        ModeView::Jira => {},
        ModeView::Custom(label) => {
            assert(!is_builtin_label(label));
        },
    }
}

/// The direction in which the panel steps through its modes.
#[derive(Debug, Clone, Copy, PartialEq, Eq, Hash)]
pub enum RightPanelCycleDirection {
    Next,
    Previous,
}

/// The modes in header order: the built-in modes, then the custom labels.
pub fn header_modes(custom_labels: &[String]) -> (r: Vec<RightPanelMode>)
    ensures
        r@.map_values(|m: RightPanelMode| m@) == header_modes_spec(
            custom_labels@.map_values(|s: String| s@),
        ),
{
    let mut modes: Vec<RightPanelMode> = Vec::new();
    modes.push(RightPanelMode::Files);
    modes.push(RightPanelMode::Diff);
    modes.push(RightPanelMode::Jira);
    let ghost labels = custom_labels@.map_values(|s: String| s@);
    let mut i: usize = 0;
    while i < custom_labels.len()
        invariant
            i <= custom_labels.len(),
            labels == custom_labels@.map_values(|s: String| s@),
            modes@.map_values(|m: RightPanelMode| m@) == builtin_modes() + labels.take(
                i as int,
            ).map_values(|label: Seq<char>| ModeView::Custom(label)),
        decreases custom_labels.len() - i,
    {
        let ghost before = modes@;
        modes.push(RightPanelMode::Custom(custom_labels[i].clone()));
        assert(modes@ == before.push(RightPanelMode::Custom(custom_labels@[i as int])));
        assert(labels.take(i + 1) =~= labels.take(i as int).push(labels[i as int]));
        assert(modes@.map_values(|m: RightPanelMode| m@) =~= before.map_values(
            |m: RightPanelMode| m@,
        ).push(ModeView::Custom(labels[i as int])));
        assert(modes@.map_values(|m: RightPanelMode| m@) =~= builtin_modes() + labels.take(
            i + 1,
        ).map_values(|label: Seq<char>| ModeView::Custom(label)));
        i = i + 1;
    }
    assert(labels.take(custom_labels.len() as int) =~= labels);
    modes
}

/// A rectangle of terminal cells.
#[derive(Debug, Clone, Copy, PartialEq, Eq, Hash, Default, Structural)]
pub struct Rect {
    pub x: u16,
    pub y: u16,
    pub width: u16,
    pub height: u16,
}

impl Rect {
    pub fn new(x: u16, y: u16, width: u16, height: u16) -> (r: Rect)
        ensures
            r == (Rect { x, y, width, height }),
    {
        Rect { x, y, width, height }
    }
}

/// A width: a percentage of the available columns or a number of columns.
#[derive(Debug, Clone, Copy, PartialEq, Eq, Hash, Structural)]
pub enum PopupSize {
    Percent(u8),
    Cells(u16),
}

/// The columns that a width takes out of `total`.
pub open spec fn resolve_spec(size: PopupSize, total: u16) -> u16 {
    match size {
        PopupSize::Percent(percent) => {
            let cols = total as int * percent as int / 100;
            if cols > u16::MAX {
                u16::MAX
            } else {
                cols as u16
            }
        },
        PopupSize::Cells(cells) => cells,
    }
}

impl PopupSize {
    /// The columns that this width takes out of `total`.
    pub fn resolve(self, total: u16) -> (r: u16)
        ensures
            r == resolve_spec(self, total),
    {
        match self {
            PopupSize::Percent(percent) => {
                assert(total as u32 * percent as u32 <= 65535 * 255) by (nonlinear_arith)
                    requires
                        total <= 65535,
                        percent <= 255,
                ;
                let cols = total as u32 * percent as u32 / 100;
                if cols > u16::MAX as u32 {
                    u16::MAX
                } else {
                    cols as u16
                }
            },
            PopupSize::Cells(cells) => cells,
        }
    }
}

/// The default panel width.
pub fn default_width() -> (r: PopupSize)
    ensures
        r == PopupSize::Percent(DEFAULT_WIDTH_PERCENT),
{
    PopupSize::Percent(DEFAULT_WIDTH_PERCENT)
}

/// `value` clamped into `[low, high]` (`Ord::clamp`, with `low <= high`).
pub open spec fn clamp_spec(value: int, low: int, high: int) -> int {
    if value < low {
        low
    } else if value > high {
        high
    } else {
        value
    }
}

/// A rectangle lies inside the cell grid.
pub open spec fn rect_fits(area: Rect) -> bool {
    area.x + area.width <= u16::MAX && area.y + area.height <= u16::MAX
}

/// The tab area and the panel beside it, or `None` when `area` is too small for
/// both.
pub open spec fn split_area_spec(area: Rect, width: PopupSize) -> Option<(Rect, Rect)> {
    if area.width < MIN_PANEL_COLS + MIN_TAB_COLS || area.height < 3 {
        None
    } else {
        let panel_cols = clamp_spec(
            resolve_spec(width, area.width) as int,
            MIN_PANEL_COLS as int,
            area.width - MIN_TAB_COLS,
        );
        let tab = Rect {
            x: area.x,
            y: area.y,
            width: (area.width - panel_cols) as u16,
            height: area.height,
        };
        let panel = Rect {
            x: (area.x + area.width - panel_cols) as u16,
            y: area.y,
            width: panel_cols as u16,
            height: area.height,
        };
        Some((tab, panel))
    }
}

/// Splits `area` into the tab area and the panel at its right.
pub fn split_area(area: Rect, width: PopupSize) -> (r: Option<(Rect, Rect)>)
    requires
        rect_fits(area),
    ensures
        r == split_area_spec(area, width),
{
    if area.width < MIN_PANEL_COLS + MIN_TAB_COLS || area.height < 3 {
        return None;
    }
    let wanted = width.resolve(area.width);
    let high = area.width - MIN_TAB_COLS;
    let panel_cols = if wanted < MIN_PANEL_COLS {
        MIN_PANEL_COLS
    } else if wanted > high {
        high
    } else {
        wanted
    };
    let tab = Rect::new(area.x, area.y, area.width - panel_cols, area.height);
    let panel = Rect::new(tab.x + tab.width, area.y, panel_cols, area.height);
    Some((tab, panel))
}

/// The panel without its border row and column.
pub open spec fn content_rect_spec(panel: Rect) -> Rect {
    Rect {
        x: if panel.x == u16::MAX {
            u16::MAX
        } else {
            (panel.x + 1) as u16
        },
        y: if panel.y == u16::MAX {
            u16::MAX
        } else {
            (panel.y + 1) as u16
        },
        width: if panel.width == 0 {
            0
        } else {
            (panel.width - 1) as u16
        },
        height: if panel.height == 0 {
            0
        } else {
            (panel.height - 1) as u16
        },
    }
}

/// The panel without its border row and column.
pub fn content_rect(panel: Rect) -> (r: Rect)
    ensures
        r == content_rect_spec(panel),
{
    Rect::new(
        panel.x.saturating_add(1),
        panel.y.saturating_add(1),
        panel.width.saturating_sub(1),
        panel.height.saturating_sub(1),
    )
}

/// `a + b`, or `u16::MAX` when the sum does not fit.
pub open spec fn sat_add(a: int, b: int) -> u16 {
    if a + b > u16::MAX {
        u16::MAX
    } else {
        (a + b) as u16
    }
}

/// The width of the header tab of a mode: its label and a space on each side.
pub open spec fn tab_width(mode: ModeView) -> u16 {
    let len = mode_label(mode).len();
    sat_add(
        if len > u16::MAX {
            u16::MAX as int
        } else {
            len as int
        },
        2,
    )
}

/// The header tabs from position `x` on: each mode whose tab still fits before
/// `right`, one column apart; the first that does not fit ends the row.
pub open spec fn header_tabs_from(modes: Seq<ModeView>, y: u16, x: u16, right: u16) -> Seq<
    (ModeView, Rect),
>
    decreases modes.len(),
{
    if modes.len() == 0 {
        Seq::empty()
    } else {
        let width = tab_width(modes[0]);
        if sat_add(x as int, width as int) > right {
            Seq::empty()
        } else {
            seq![(modes[0], Rect { x, y, width, height: 1 })] + header_tabs_from(
                modes.skip(1),
                y,
                sat_add(x as int, width + 1),
                right,
            )
        }
    }
}

/// The header tabs of a panel.
pub open spec fn header_tabs_spec(panel: Rect, modes: Seq<ModeView>) -> Seq<(ModeView, Rect)> {
    header_tabs_from(modes, panel.y, sat_add(panel.x as int, 2), sat_add(panel.x as int, panel.width as int))
}

/// A label that fits in a header tab.
pub open spec fn label_fits(mode: ModeView) -> bool {
    mode_label(mode).len() + 3 <= u16::MAX
}

/// The header tabs of a panel, left to right, each with the cells it covers.
pub fn header_tabs(panel: Rect, modes: &[RightPanelMode]) -> (r: Vec<(RightPanelMode, Rect)>)
    requires
        forall|i: int| 0 <= i < modes.len() ==> label_fits(#[trigger] modes@[i]@),
    ensures
        r@.map_values(|t: (RightPanelMode, Rect)| (t.0@, t.1)) == header_tabs_spec(
            panel,
            modes@.map_values(|m: RightPanelMode| m@),
        ),
{
    let mut x = panel.x.saturating_add(2);
    let right = panel.x.saturating_add(panel.width);
    let mut tabs: Vec<(RightPanelMode, Rect)> = Vec::new();
    let ghost views = modes@.map_values(|m: RightPanelMode| m@);
    let mut i: usize = 0;
    assert(views.skip(0) =~= views);
    assert(tabs@.map_values(|t: (RightPanelMode, Rect)| (t.0@, t.1)) =~= Seq::empty());
    assert(header_tabs_spec(panel, views) =~= Seq::<(ModeView, Rect)>::empty() + header_tabs_from(
        views,
        panel.y,
        x,
        right,
    ));
    while i < modes.len()
        invariant
            i <= modes.len(),
            views == modes@.map_values(|m: RightPanelMode| m@),
            forall|j: int| 0 <= j < modes.len() ==> label_fits(#[trigger] modes@[j]@),
            right == sat_add(panel.x as int, panel.width as int),
            header_tabs_spec(panel, views) == tabs@.map_values(
                |t: (RightPanelMode, Rect)| (t.0@, t.1),
            ) + header_tabs_from(views.skip(i as int), panel.y, x, right),
        decreases modes.len() - i,
    {
        let len = modes[i].label_len();
        let label_cols: u16 = if len > u16::MAX as usize {
            u16::MAX
        } else {
            len as u16
        };
        let width = label_cols.saturating_add(2);
        let ghost rest = views.skip(i as int);
        assert(rest[0] == modes@[i as int]@);
        assert(rest.skip(1) =~= views.skip(i + 1));
        assert(label_fits(modes@[i as int]@));
        if x.saturating_add(width) > right {
            assert(header_tabs_from(rest, panel.y, x, right) =~= Seq::empty());
            assert(header_tabs_spec(panel, views) =~= tabs@.map_values(
                |t: (RightPanelMode, Rect)| (t.0@, t.1),
            ));
            return tabs;
        }
        let ghost before = tabs@.map_values(|t: (RightPanelMode, Rect)| (t.0@, t.1));
        tabs.push((modes[i].duplicate(), Rect::new(x, panel.y, width, 1)));
        assert(tabs@.map_values(|t: (RightPanelMode, Rect)| (t.0@, t.1)) =~= before.push(
            (modes@[i as int]@, Rect { x, y: panel.y, width, height: 1 }),
        ));
        x = x.saturating_add(width + 1);
        i = i + 1;
    }
    assert(views.skip(i as int) =~= Seq::<ModeView>::empty());
    assert(header_tabs_spec(panel, views) =~= tabs@.map_values(
        |t: (RightPanelMode, Rect)| (t.0@, t.1),
    ));
    tabs
}

/// The prefix of the public id of a panel terminal.
pub open spec fn public_id_prefix() -> Seq<char> {
    "right-panel:"@
}

/// The public id of a panel terminal: the prefix, then the terminal's id.
pub fn public_id(terminal_id: &str) -> (r: String)
    ensures
        r@ == public_id_prefix() + terminal_id@,
{
    let mut v = chars_of("right-panel:");
    let id = chars_of(terminal_id);
    extend_chars(&mut v, &id);
    string_of(&v)
}

/// The terminal id inside a public id, or `None` when `id` is not the public id
/// of a panel terminal.
pub fn parse_public_id(id: &str) -> (r: Option<String>)
    ensures
        r matches Some(t) ==> has_prefix(id@, public_id_prefix()) && t@ == id@.skip(
            public_id_prefix().len() as int,
        ),
        r is None ==> !has_prefix(id@, public_id_prefix()),
{
    let chars = chars_of(id);
    let prefix = chars_of("right-panel:");
    if starts_with(&chars, &prefix) {
        let rest = slice_chars(&chars, prefix.len(), chars.len());
        assert(rest@ =~= id@.skip(public_id_prefix().len() as int));
        Some(string_of(&rest))
    } else {
        None
    }
}

/// Reading back the public id of a terminal gives the terminal's id.
pub proof fn public_id_round_trip(terminal_id: Seq<char>)
    ensures
        has_prefix(public_id_prefix() + terminal_id, public_id_prefix()),
        (public_id_prefix() + terminal_id).skip(public_id_prefix().len() as int) == terminal_id,
{
    let whole = public_id_prefix() + terminal_id;
    assert(whole.subrange(0, public_id_prefix().len() as int) =~= public_id_prefix());
    assert(whole.skip(public_id_prefix().len() as int) =~= terminal_id);
}

/// The directory a panel terminal starts in: the owner's worktree when it is a
/// directory, else the pane's working directory, else the home directory, else `/`.
pub open spec fn resolve_dir_spec(
    worktree: Option<Seq<char>>,
    worktree_is_dir: bool,
    pane_cwd: Option<Seq<char>>,
    home: Option<Seq<char>>,
) -> Seq<char> {
    match worktree {
        Some(w) if worktree_is_dir => w,
        _ => match pane_cwd {
            Some(c) => c,
            None => match home {
                Some(h) => h,
                None => "/"@,
            },
        },
    }
}

/// The directory a panel terminal starts in; `worktree_is_dir` tells whether
/// the worktree path is an existing directory.
pub fn resolve_dir(
    worktree: Option<&str>,
    worktree_is_dir: bool,
    pane_cwd: Option<String>,
    home: Option<String>,
) -> (r: String)
    ensures
        r@ == resolve_dir_spec(
            match worktree {
                Some(w) => Some(w@),
                None => None,
            },
            worktree_is_dir,
            match pane_cwd {
                Some(c) => Some(c@),
                None => None,
            },
            match home {
                Some(h) => Some(h@),
                None => None,
            },
        ),
{
    match worktree {
        Some(w) if worktree_is_dir => String::from_str(w),
        _ => match pane_cwd {
            Some(c) => c,
            None => match home {
                Some(h) => h,
                None => String::from_str("/"),
            },
        },
    }
}

/// `base.join(rel)`: `rel` itself when it is absolute or `base` is empty, else
/// `rel` below `base`, with one `/` between them.
pub open spec fn join_spec(base: Seq<char>, rel: Seq<char>) -> Seq<char> {
    if rel.len() > 0 && rel[0] == '/' {
        rel
    } else if base.len() == 0 {
        rel
    } else if base.last() == '/' {
        base + rel
    } else {
        base + seq!['/'] + rel
    }
}

/// `base.join(rel)` on paths written as text.
pub fn join_path(base: &[char], rel: &[char]) -> (r: Vec<char>)
    ensures
        r@ == join_spec(base@, rel@),
{
    if (rel.len() > 0 && rel[0] == '/') || base.len() == 0 {
        return slice_chars(rel, 0, rel.len());
    }
    let mut out = slice_chars(base, 0, base.len());
    if base[base.len() - 1] != '/' {
        out.push('/');
    }
    extend_chars(&mut out, rel);
    assert(base@.subrange(0, base@.len() as int) =~= base@);
    assert(rel@.subrange(0, rel@.len() as int) =~= rel@);
    out
}

/// `path` without its trailing separators and trailing `.` components (a
/// `.` that is the whole path stays), as `Path::components` reads it.
pub open spec fn trim_tail(path: Seq<char>) -> Seq<char>
    decreases path.len(),
{
    if path.len() > 0 && path.last() == '/' {
        trim_tail(path.drop_last())
    } else if path.len() >= 2 && path.last() == '.' && path[path.len() - 2] == '/' {
        trim_tail(path.drop_last())
    } else {
        path
    }
}

/// What is left of a path once its trailing separators and `.` components
/// are gone: no longer than the path, and not ending in a separator.
pub proof fn lemma_trim_tail(path: Seq<char>)
    ensures
        trim_tail(path).len() <= path.len(),
        trim_tail(path).len() > 0 ==> trim_tail(path).last() != '/',
    decreases path.len(),
{
    if path.len() > 0 && path.last() == '/' {
        lemma_trim_tail(path.drop_last());
    } else if path.len() >= 2 && path.last() == '.' && path[path.len() - 2] == '/' {
        lemma_trim_tail(path.drop_last());
    }
}

/// The parent directory of a path written as text (`Path::parent`): the
/// path without its last component, trailing separators and `.` components
/// ignored (so `a/./b` and `a/b/.` both have the parent `a`); the parent of
/// a single relative component is the empty path and that of a top-level
/// entry is `/`; the root and the empty path have none. `..` is taken as a
/// name, and a leading `.` as a component.
pub open spec fn parent_spec(path: Seq<char>) -> Option<Seq<char>> {
    let trimmed = trim_tail(path);
    if trimmed.len() == 0 {
        None
    } else {
        match last_in_class_before_slash(trimmed) {
            None => Some(Seq::empty()),
            Some(k) => if trim_tail(trimmed.take(k)).len() == 0 {
                Some(seq!['/'])
            } else {
                Some(trim_tail(trimmed.take(k)))
            },
        }
    }
}

/// The position of the last `/` in `s`.
pub open spec fn last_in_class_before_slash(s: Seq<char>) -> Option<int> {
    last_match(s, seq!['/'])
}

/// `s` without its trailing separators and `.` components (see
/// [`trim_tail`]).
fn trim_tail_of(s: &[char]) -> (v: Vec<char>)
    ensures
        v@ == trim_tail(s@),
{
    let mut n: usize = s.len();
    let mut done = false;
    assert(s@.take(n as int) =~= s@);
    while !done
        invariant
            n <= s@.len(),
            trim_tail(s@) == if done {
                s@.take(n as int)
            } else {
                trim_tail(s@.take(n as int))
            },
        decreases n, if done { 0int } else { 1int },
    {
        let ghost t = s@.take(n as int);
        if n > 0 && s[n - 1] == '/' {
            assert(t.drop_last() =~= s@.take(n - 1));
            n = n - 1;
        } else if n >= 2 && s[n - 1] == '.' && s[n - 2] == '/' {
            assert(t.drop_last() =~= s@.take(n - 1));
            n = n - 1;
        } else {
            done = true;
        }
    }
    let v = slice_chars(s, 0, n);
    assert(v@ =~= s@.take(n as int));
    v
}

/// The parent directory of a path written as text.
pub fn parent_path(path: &[char]) -> (r: Option<Vec<char>>)
    ensures
        match r {
            Some(v) => parent_spec(path@) == Some(v@),
            None => parent_spec(path@) is None,
        },
{
    let trimmed = trim_tail_of(path);
    if trimmed.len() == 0 {
        return None;
    }
    let mut slash: Vec<char> = Vec::new();
    slash.push('/');
    assert(slash@ =~= seq!['/']);
    match rfind(&trimmed, &slash) {
        None => Some(Vec::new()),
        Some(k) => {
            proof {
                crate::text::lemma_last_match_bound(trimmed@, seq!['/']);
            }
            let head = slice_chars(&trimmed, 0, k);
            assert(head@ =~= trimmed@.take(k as int));
            let dir = trim_tail_of(&head);
            if dir.len() == 0 {
                Some(slash)
            } else {
                Some(dir)
            }
        },
    }
}

/// What the panel opens: a file at a line, or a directory.
#[derive(Debug, Clone, PartialEq, Eq)]
pub enum OpenTarget {
    File { path: String, line: u32 },
    Dir(String),
}

/// The directory that an open target is shown in: the parent of a file (or
/// `/` when it has none), or the directory itself.
pub open spec fn target_dir_spec(target: OpenTarget) -> Seq<char> {
    match target {
        OpenTarget::File { path, .. } => match parent_spec(path@) {
            Some(dir) => dir,
            None => "/"@,
        },
        OpenTarget::Dir(dir) => dir@,
    }
}

impl OpenTarget {
    /// The directory that this target is shown in.
    pub fn dir(&self) -> (r: String)
        ensures
            r@ == target_dir_spec(*self),
    {
        match self {
            OpenTarget::File { path, .. } => {
                let chars = chars_of(path.as_str());
                match parent_path(&chars) {
                    Some(dir) => string_of(&dir),
                    None => String::from_str("/"),
                }
            },
            OpenTarget::Dir(dir) => dir.clone(),
        }
    }
}

/// What a path names on disk.
#[derive(Debug, Clone, Copy, PartialEq, Eq, Hash)]
pub enum PathKind {
    Dir,
    File,
    /// Nothing, or something that is neither a file nor a directory.
    Other,
}

/// `PATH:LINE` split into the path and the line: the text after the last `:`
/// must be a line number and the path before it must not be empty.
pub open spec fn split_path_line_spec(raw: Seq<char>) -> Option<(Seq<char>, u32)> {
    match last_match(raw, seq![':']) {
        None => None,
        Some(k) => match parse_u32_spec(raw.skip(k + 1)) {
            None => None,
            Some(line) => if k == 0 {
                None
            } else {
                Some((raw.take(k), line))
            },
        },
    }
}

/// Splits `PATH:LINE` into the path and the line.
pub fn split_path_line(raw: &str) -> (r: Option<(String, u32)>)
    ensures
        match r {
            Some((path, line)) => split_path_line_spec(raw@) == Some((path@, line)),
            None => split_path_line_spec(raw@) is None,
        },
{
    let chars = chars_of(raw);
    let mut colon: Vec<char> = Vec::new();
    colon.push(':');
    assert(colon@ =~= seq![':']);
    assert(colon@.len() == 1);
    let k = match rfind(&chars, &colon) {
        Some(k) => k,
        None => return None,
    };
    let n = chars.len();
    assert(k + 1 <= n);
    let rest = slice_chars(&chars, k + 1, n);
    assert(rest@ =~= raw@.skip(k + 1));
    let line = match parse_u32(&rest) {
        Some(line) => line,
        None => return None,
    };
    if k == 0 {
        return None;
    }
    let path = slice_chars(&chars, 0, k);
    assert(path@ =~= raw@.take(k as int));
    Some((string_of(&path), line))
}

/// The path and the line that an open request names: `raw` taken from `base`;
/// when that path does not exist and no line was given, `PATH:LINE` in `raw` is
/// read as a path and a line.
pub open spec fn open_target_path_spec(
    raw: Seq<char>,
    line: Option<u32>,
    base: Seq<char>,
    literal_exists: bool,
) -> (Seq<char>, Option<u32>) {
    let literal = join_spec(base, raw);
    if literal_exists || line is Some {
        (literal, line)
    } else {
        match split_path_line_spec(raw) {
            Some((path, parsed)) => (join_spec(base, path), Some(parsed)),
            None => (literal, None),
        }
    }
}

/// The path that `raw` names from `base`.
pub fn open_target_literal(raw: &str, base: &str) -> (r: String)
    ensures
        r@ == join_spec(base@, raw@),
{
    let raw = chars_of(raw);
    let base = chars_of(base);
    string_of(&join_path(&base, &raw))
}

/// The path and the line that an open request names; `literal_exists` tells
/// whether the path `raw` names from `base` exists.
pub fn open_target_path(raw: &str, line: Option<u32>, base: &str, literal_exists: bool) -> (r: (
    String,
    Option<u32>,
))
    ensures
        (r.0@, r.1) == open_target_path_spec(raw@, line, base@, literal_exists),
{
    let raw_chars = chars_of(raw);
    let base_chars = chars_of(base);
    let literal = join_path(&base_chars, &raw_chars);
    if literal_exists || line.is_some() {
        return (string_of(&literal), line);
    }
    match split_path_line(raw) {
        Some((path, parsed)) => {
            let path_chars = chars_of(path.as_str());
            (string_of(&join_path(&base_chars, &path_chars)), Some(parsed))
        },
        None => (string_of(&literal), None),
    }
}

/// The target for `path` given what is on disk there: a directory opens as a
/// directory, a file at `line` (1 when absent or 0), anything else is refused.
pub open spec fn open_target_result_spec(path: Seq<char>, line: Option<u32>, kind: PathKind) -> Result<
    (bool, Seq<char>, u32),
    Seq<char>,
> {
    match kind {
        PathKind::Dir => Ok((true, path, 0)),
        PathKind::File => Ok(
            (
                false,
                path,
                match line {
                    Some(l) if l > 0 => l,
                    _ => 1,
                },
            ),
        ),
        PathKind::Other => Err("file not found: "@ + path),
    }
}

/// The target for `path`: a directory, a file at a line of at least 1, or an
/// error that names the missing path.
pub fn open_target_result(path: String, line: Option<u32>, kind: PathKind) -> (r: Result<
    OpenTarget,
    String,
>)
    ensures
        match r {
            Ok(OpenTarget::Dir(dir)) => open_target_result_spec(path@, line, kind) == Ok::<
                (bool, Seq<char>, u32),
                Seq<char>,
            >((true, dir@, 0)),
            Ok(OpenTarget::File { path: file, line: l }) => open_target_result_spec(path@, line, kind)
                == Ok::<(bool, Seq<char>, u32), Seq<char>>((false, file@, l)),
            Err(e) => open_target_result_spec(path@, line, kind) == Err::<
                (bool, Seq<char>, u32),
                Seq<char>,
            >(e@),
        },
{
    match kind {
        PathKind::Dir => Ok(OpenTarget::Dir(path)),
        PathKind::File => {
            let l = match line {
                Some(l) if l > 0 => l,
                _ => 1,
            };
            Ok(OpenTarget::File { path, line: l })
        },
        PathKind::Other => {
            let mut message = chars_of("file not found: ");
            let p = chars_of(path.as_str());
            extend_chars(&mut message, &p);
            Err(string_of(&message))
        },
    }
}

/// What the file system says about paths to open.
pub trait PathLookup {
    /// Whether `answer` is what the lookup answered when asked whether
    /// anything exists at `path`. It holds of every answer unless an
    /// implementation says more: it names the question an answer came from.
    open spec fn exists_answer(&self, path: Seq<char>, answer: bool) -> bool {
        true
    }

    /// Whether `answer` is what the lookup answered when asked what `path` is.
    open spec fn kind_answer(&self, path: Seq<char>, answer: PathKind) -> bool {
        true
    }

    /// Whether anything exists at `path`.
    fn path_exists(&self, path: &str) -> (r: bool)
        ensures
            self.exists_answer(path@, r),
    ;

    /// What `path` is.
    fn kind(&self, path: &str) -> (r: PathKind)
        ensures
            self.kind_answer(path@, r),
    ;
}

/// The view of an open target.
pub open spec fn target_view(t: OpenTarget) -> (bool, Seq<char>, u32) {
    match t {
        OpenTarget::Dir(d) => (true, d@, 0),
        OpenTarget::File { path, line } => (false, path@, line),
    }
}

/// The target of an open request for `raw` (a path, or `PATH:LINE`) from
/// `base`, with `line` if given: the literal path when it exists or a line
/// was given, else `PATH:LINE` read; then a directory, a file at a line of at
/// least 1, or an error naming the missing path.
pub fn resolve_open_target<L: PathLookup>(raw: &str, line: Option<u32>, base: &str, lookup: &L) -> (r: Result<
    OpenTarget,
    String,
>)
    ensures
        exists|literal_exists: bool, kind: PathKind|
            lookup.exists_answer(join_spec(base@, raw@), literal_exists) && lookup.kind_answer(
                open_target_path_spec(raw@, line, base@, literal_exists).0,
                kind,
            ) && open_target_result_spec(
                open_target_path_spec(raw@, line, base@, literal_exists).0,
                open_target_path_spec(raw@, line, base@, literal_exists).1,
                kind,
            ) == match r {
                Ok(t) => Ok::<(bool, Seq<char>, u32), Seq<char>>(target_view(t)),
                Err(e) => Err::<(bool, Seq<char>, u32), Seq<char>>(e@),
            },
{
    let literal = open_target_literal(raw, base);
    let literal_exists = lookup.path_exists(literal.as_str());
    let (path, line2) = open_target_path(raw, line, base, literal_exists);
    let kind = lookup.kind(path.as_str());
    let r = open_target_result(path, line2, kind);
    assert(open_target_result_spec(
        open_target_path_spec(raw@, line, base@, literal_exists).0,
        open_target_path_spec(raw@, line, base@, literal_exists).1,
        kind,
    ) == match r {
        Ok(t) => Ok::<(bool, Seq<char>, u32), Seq<char>>(target_view(t)),
        Err(e) => Err::<(bool, Seq<char>, u32), Seq<char>>(e@),
    });
    r
}

/// `text` in single quotes for a POSIX shell, each `'` written as `'\''`.
pub open spec fn shell_quote_spec(text: Seq<char>) -> Seq<char> {
    seq!['\''] + replace_spec(text, seq!['\''], seq!['\'', '\\', '\'', '\'']) + seq!['\'']
}

/// `text` quoted for a POSIX shell.
pub fn shell_quote(text: &str) -> (r: String)
    ensures
        r@ == shell_quote_spec(text@),
{
    let chars = chars_of(text);
    let mut quote: Vec<char> = Vec::new();
    quote.push('\'');
    let mut escaped: Vec<char> = Vec::new();
    escaped.push('\'');
    escaped.push('\\');
    escaped.push('\'');
    escaped.push('\'');
    assert(quote@ =~= seq!['\'']);
    assert(escaped@ =~= seq!['\'', '\\', '\'', '\'']);
    let body = replace(&chars, &quote, &escaped);
    let mut out = quote.clone();
    assert(out@ == quote@);
    extend_chars(&mut out, &body);
    extend_chars(&mut out, &quote);
    string_of(&out)
}

/// The command that opens `path` at `line`: `template` with `{path}` replaced
/// by the quoted path, then `{dir}` by its quoted parent (or `/`), then `{line}`
/// by the line, at least 1.
pub open spec fn render_open_command_spec(template: Seq<char>, path: Seq<char>, line: u32) -> Seq<
    char,
> {
    let dir = match parent_spec(path) {
        Some(d) => d,
        None => "/"@,
    };
    let shown_line = if line == 0 {
        1
    } else {
        line
    };
    replace_spec(
        replace_spec(
            replace_spec(template, "{path}"@, shell_quote_spec(path)),
            "{dir}"@,
            shell_quote_spec(dir),
        ),
        "{line}"@,
        decimal_spec(shown_line as nat),
    )
}

/// The command that opens `path` at `line`.
pub fn render_open_command(template: &str, path: &str, line: u32) -> (r: String)
    ensures
        r@ == render_open_command_spec(template@, path@, line),
{
    proof {
        reveal_strlit("{path}");
        reveal_strlit("{dir}");
        reveal_strlit("{line}");
    }
    let path_chars = chars_of(path);
    let dir = match parent_path(&path_chars) {
        Some(d) => string_of(&d),
        None => String::from_str("/"),
    };
    let quoted_path = chars_of(shell_quote(path).as_str());
    let quoted_dir = chars_of(shell_quote(dir.as_str()).as_str());
    let shown_line = if line == 0 {
        1
    } else {
        line
    };
    let number = decimal(shown_line as u64);
    let template = chars_of(template);
    let step = replace(&template, &chars_of("{path}"), &quoted_path);
    let step = replace(&step, &chars_of("{dir}"), &quoted_dir);
    let step = replace(&step, &chars_of("{line}"), &number);
    string_of(&step)
}

/// The absolute worktree directory that `text` mentions: the last
/// `-worktrees/NAME` in it, with the absolute path before it (from the last
/// space, quote, `=`, `(` or backtick on) and the name made of ASCII letters,
/// digits, `-`, `_` and `.`, without trailing dots.
pub open spec fn worktree_path_spec(text: Seq<char>) -> Option<Seq<char>> {
    let marker = "-worktrees/"@;
    match last_match(text, marker) {
        None => None,
        Some(m) => {
            let start = match last_in_class_before(text, CharClass::PathDelimiter, true, m) {
                Some(i) => i + 1,
                None => 0,
            };
            let name_start = m + marker.len();
            let name_end = match first_in_class_from(text, CharClass::NameChar, false, name_start) {
                Some(i) => i,
                None => text.len() as int,
            };
            let name = trim_end_char(text.subrange(name_start, name_end), '.');
            let prefix = text.subrange(start, m);
            if name.len() == 0 || !(prefix.len() > 0 && prefix[0] == '/') {
                None
            } else {
                Some(prefix + marker + name)
            }
        },
    }
}

/// The absolute worktree directory that a path or a command mentions.
pub fn worktree_path(text: &str) -> (r: Option<String>)
    ensures
        match r {
            Some(p) => worktree_path_spec(text@) == Some(p@),
            None => worktree_path_spec(text@) is None,
        },
{
    proof {
        reveal_strlit("-worktrees/");
    }
    let chars = chars_of(text);
    let marker = chars_of("-worktrees/");
    let m = match rfind(&chars, &marker) {
        Some(m) => m,
        None => return None,
    };
    proof {
        crate::text::lemma_last_match_bound(chars@, marker@);
        lemma_last_in_class_bounds(chars@, CharClass::PathDelimiter, true, m as int);
    }
    let start = match rfind_class_before(&chars, CharClass::PathDelimiter, true, m) {
        Some(i) => i + 1,
        None => 0,
    };
    let name_start = m + marker.len();
    proof {
        lemma_first_in_class_bounds(chars@, CharClass::NameChar, false, name_start as int);
    }
    let name_end = match find_class_from(&chars, CharClass::NameChar, false, name_start) {
        Some(i) => i,
        None => chars.len(),
    };
    let raw_name = slice_chars(&chars, name_start, name_end);
    let name = trim_end_matching(&raw_name, '.');
    let prefix = slice_chars(&chars, start, m);
    if name.len() == 0 || !(prefix.len() > 0 && prefix[0] == '/') {
        return None;
    }
    let mut out = prefix;
    extend_chars(&mut out, &marker);
    extend_chars(&mut out, &name);
    Some(string_of(&out))
}

} // verus!
