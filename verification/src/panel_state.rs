//! The per-pane state of the right panel: which panes show it, in which mode,
//! and the panel terminals ("instances") that each pane owns.
//!
//! Every pane (the "owner") has its own panel: visibility, keyboard focus and
//! mode are per pane, and a panel terminal belongs to exactly one owner and
//! one mode. The instances are kept least recently shown first.

use vstd::prelude::*;
use vstd::string::*;

use crate::right_panel::{
    header_modes, header_modes_spec, ModeView, PopupSize, Rect, RightPanelCycleDirection,
    RightPanelMode, public_id, public_id_prefix, rect_fits, split_area, split_area_spec,
    FAILED_START_WINDOW_MS,
};
use crate::text::{chars_of, same_chars};

verus! {

/// The id of a pane of the workspace.
#[derive(Debug, Clone, Copy, PartialEq, Eq, Hash, Default, Structural)]
pub struct PaneId(pub u64);

/// A configured custom tab: its header label and the command it runs.
#[derive(Debug, Clone, PartialEq, Eq)]
pub struct RightPanelTabConfig {
    pub label: String,
    pub command: String,
}

impl RightPanelTabConfig {
    /// A copy of this tab.
    pub fn duplicate(&self) -> (r: RightPanelTabConfig)
        ensures
            r == *self,
    {
        RightPanelTabConfig { label: self.label.clone(), command: self.command.clone() }
    }
}

/// A copy of a list of tabs.
pub fn duplicate_tabs(tabs: &Vec<RightPanelTabConfig>) -> (r: Vec<RightPanelTabConfig>)
    ensures
        r@ == tabs@,
{
    let mut out: Vec<RightPanelTabConfig> = Vec::new();
    let mut i: usize = 0;
    while i < tabs.len()
        invariant
            i <= tabs.len(),
            out@ == tabs@.take(i as int),
        decreases tabs.len() - i,
    {
        out.push(tabs[i].duplicate());
        assert(tabs@.take(i + 1) =~= tabs@.take(i as int).push(tabs@[i as int]));
        i = i + 1;
    }
    assert(tabs@.take(tabs.len() as int) =~= tabs@);
    out
}

/// The panel configuration: the command of each built-in mode, the command
/// that opens a file, and the custom tabs.
#[derive(Debug, Clone, PartialEq, Eq)]
pub struct RightPanelConfig {
    pub files_command: String,
    pub diff_command: String,
    pub open_command: String,
    pub jira_command: String,
    pub tabs: Vec<RightPanelTabConfig>,
}

impl Default for RightPanelConfig {
    fn default() -> (r: Self)
        ensures
            r.files_command@ == "yazi"@,
            r.diff_command@ == "herdr diff"@,
            r.open_command@ == "micro +{line} {path}; exec yazi {path}"@,
            r.jira_command@ == "herdr jira"@,
            r.tabs@.len() == 0,
    {
        RightPanelConfig {
            files_command: String::from_str("yazi"),
            diff_command: String::from_str("herdr diff"),
            open_command: String::from_str("micro +{line} {path}; exec yazi {path}"),
            jira_command: String::from_str("herdr jira"),
            tabs: Vec::new(),
        }
    }
}

/// A directory (and, for a file, the command that opens it) waiting to be shown
/// in a pane's panel.
#[derive(Debug, Clone, PartialEq, Eq)]
pub struct PendingOpen {
    pub dir: String,
    pub command: Option<String>,
}

/// The panel of one pane.
#[derive(Debug, Clone, PartialEq, Eq)]
pub struct PanePanel {
    pub visible: bool,
    pub focused: bool,
    pub mode: RightPanelMode,
    pub pending_open: Option<PendingOpen>,
}

/// A hidden panel in files mode with nothing pending.
pub open spec fn default_panel() -> PanePanel {
    PanePanel { visible: false, focused: false, mode: RightPanelMode::Files, pending_open: None }
}

impl Default for PanePanel {
    fn default() -> (r: Self)
        ensures
            r == default_panel(),
    {
        PanePanel { visible: false, focused: false, mode: RightPanelMode::Files, pending_open: None }
    }
}

/// A pane and its panel.
#[derive(Debug, Clone, PartialEq, Eq)]
pub struct PaneEntry {
    pub owner: PaneId,
    pub panel: PanePanel,
}

/// A terminal running in the panel of its owner pane, for one mode.
#[derive(Debug, Clone, PartialEq, Eq)]
pub struct RightPanelInstance {
    pub owner: PaneId,
    pub mode: RightPanelMode,
    pub dir: String,
    pub pane_id: PaneId,
    pub terminal_id: String,
    /// When the terminal was started, in milliseconds on a monotonic clock.
    pub spawned_at_ms: u64,
    pub exited: bool,
}

/// What became of an instance whose command exited.
#[derive(Debug, Clone, PartialEq, Eq)]
pub enum PanelExit {
    /// The instance was removed; its terminal is to be shut down.
    Released(RightPanelInstance),
    /// The instance failed right after it started while shown: it stays, marked
    /// exited, so that its pane keeps showing why.
    KeptFailedStart,
}

/// The state of the right panel across all panes.
#[derive(Debug, Clone, PartialEq, Eq)]
pub struct RightPanelState {
    pub width: PopupSize,
    pub manual_width: Option<u16>,
    pub files_command: String,
    pub diff_command: String,
    pub open_command: String,
    pub jira_command: String,
    pub custom_tabs: Vec<RightPanelTabConfig>,
    pub panes: Vec<PaneEntry>,
    pub instances: Vec<RightPanelInstance>,
}

impl Default for RightPanelState {
    fn default() -> (r: Self)
        ensures
            r.width == PopupSize::Percent(45),
            r.manual_width is None,
            r.files_command@ == "yazi"@,
            r.diff_command@ == "herdr diff"@,
            r.open_command@ == "micro +{line} {path}; exec yazi {path}"@,
            r.jira_command@ == "herdr jira"@,
            r.custom_tabs@.len() == 0,
            r.panes@.len() == 0,
            r.instances@.len() == 0,
    {
        let config = RightPanelConfig::default();
        RightPanelState {
            width: PopupSize::Percent(45),
            manual_width: None,
            files_command: config.files_command,
            diff_command: config.diff_command,
            open_command: config.open_command,
            jira_command: config.jira_command,
            custom_tabs: Vec::new(),
            panes: Vec::new(),
            instances: Vec::new(),
        }
    }
}

/// The labels of the custom tabs.
pub open spec fn tab_labels(tabs: Seq<RightPanelTabConfig>) -> Seq<Seq<char>> {
    tabs.map_values(|tab: RightPanelTabConfig| tab.label@)
}

/// The modes of the panel header for these custom tabs.
pub open spec fn known_modes(tabs: Seq<RightPanelTabConfig>) -> Seq<ModeView> {
    header_modes_spec(tab_labels(tabs))
}

/// The position of the first entry of `owner` at or after `from`.
pub open spec fn pane_index_from(panes: Seq<PaneEntry>, owner: PaneId, from: int) -> Option<int>
    decreases panes.len() - from,
{
    if from < 0 || from >= panes.len() {
        None
    } else if panes[from].owner == owner {
        Some(from)
    } else {
        pane_index_from(panes, owner, from + 1)
    }
}

/// The position of the panel of `owner`.
pub open spec fn pane_index(panes: Seq<PaneEntry>, owner: PaneId) -> Option<int> {
    pane_index_from(panes, owner, 0)
}

/// The panel of `owner`, if it has one.
pub open spec fn pane_of(panes: Seq<PaneEntry>, owner: PaneId) -> Option<PanePanel> {
    match pane_index(panes, owner) {
        Some(i) => Some(panes[i].panel),
        None => None,
    }
}

/// The panel of `owner`, or the default panel when it has none yet.
pub open spec fn pane_or_default(panes: Seq<PaneEntry>, owner: PaneId) -> PanePanel {
    match pane_of(panes, owner) {
        Some(p) => p,
        None => default_panel(),
    }
}

/// The panes with the panel of `owner` set to `panel`: in place when it has one,
/// else added at the end.
pub open spec fn panes_with(panes: Seq<PaneEntry>, owner: PaneId, panel: PanePanel) -> Seq<
    PaneEntry,
> {
    match pane_index(panes, owner) {
        Some(i) => panes.update(i, PaneEntry { owner, panel }),
        None => panes.push(PaneEntry { owner, panel }),
    }
}

/// Setting the panel of `owner` makes it the panel of `owner`, and setting it
/// twice is setting it once.
pub proof fn lemma_panes_with(panes: Seq<PaneEntry>, owner: PaneId, p: PanePanel, q: PanePanel)
    ensures
        pane_of(panes_with(panes, owner, p), owner) == Some(p),
        panes_with(panes_with(panes, owner, p), owner, q) == panes_with(panes, owner, q),
        forall|o: PaneId| o != owner ==> pane_of(panes_with(panes, owner, p), o) == pane_of(panes, o),
{
    lemma_pane_index_from(panes, owner, 0);
    let next = panes_with(panes, owner, p);
    lemma_pane_index_from(next, owner, 0);
    assert forall|o: PaneId| o != owner implies pane_of(next, o) == pane_of(panes, o) by {
        lemma_pane_index_from(panes, o, 0);
        lemma_pane_index_from(next, o, 0);
        match pane_index(panes, o) {
            Some(i) => {
                assert(next[i].owner == o);
                match pane_index(next, o) {
                    Some(j) => {
                        if j < i {
                            assert(panes[j].owner == o || j == pane_index(panes, owner).unwrap());
                        }
                        assert(j == i);
                    },
                    None => {},
                }
            },
            None => {
                match pane_index(next, o) {
                    Some(j) => {
                        assert(j < panes.len());
                        assert(panes[j].owner == o);
                    },
                    None => {},
                }
            },
        }
    }
    match pane_index(panes, owner) {
        Some(i) => {
            assert(pane_index(next, owner) == Some(i)) by {
                match pane_index(next, owner) {
                    Some(j) => {
                        if j < i {
                            assert(panes[j].owner == owner);
                        }
                        if j > i {
                            assert(next[i].owner == owner);
                        }
                    },
                    None => {
                        assert(next[i].owner == owner);
                    },
                }
            }
            assert(panes_with(next, owner, q) =~= panes_with(panes, owner, q));
        },
        None => {
            assert(pane_index(next, owner) == Some(panes.len() as int)) by {
                match pane_index(next, owner) {
                    Some(j) => {
                        if j < panes.len() {
                            assert(panes[j].owner == owner);
                        }
                    },
                    None => {
                        assert(next[panes.len() as int].owner == owner);
                    },
                }
            }
            assert(panes_with(next, owner, q) =~= panes_with(panes, owner, q));
        },
    }
}

/// The position of the first instance of `owner` in `mode` at or after `from`.
pub open spec fn instance_index_from(
    insts: Seq<RightPanelInstance>,
    owner: PaneId,
    mode: ModeView,
    from: int,
) -> Option<int>
    decreases insts.len() - from,
{
    if from < 0 || from >= insts.len() {
        None
    } else if insts[from].owner == owner && insts[from].mode@ == mode {
        Some(from)
    } else {
        instance_index_from(insts, owner, mode, from + 1)
    }
}

/// The position of the instance of `owner` in `mode`.
pub open spec fn instance_index(insts: Seq<RightPanelInstance>, owner: PaneId, mode: ModeView) -> Option<
    int,
> {
    instance_index_from(insts, owner, mode, 0)
}

/// The position of the first instance running terminal `id` at or after `from`.
pub open spec fn terminal_index_from(insts: Seq<RightPanelInstance>, id: Seq<char>, from: int) -> Option<
    int,
>
    decreases insts.len() - from,
{
    if from < 0 || from >= insts.len() {
        None
    } else if insts[from].terminal_id@ == id {
        Some(from)
    } else {
        terminal_index_from(insts, id, from + 1)
    }
}

/// The position of the first instance whose panel terminal lives in pane
/// `pane_id`, at or after `from`.
pub open spec fn pane_instance_index_from(insts: Seq<RightPanelInstance>, pane_id: PaneId, from: int) -> Option<
    int,
>
    decreases insts.len() - from,
{
    if from < 0 || from >= insts.len() {
        None
    } else if insts[from].pane_id == pane_id {
        Some(from)
    } else {
        pane_instance_index_from(insts, pane_id, from + 1)
    }
}

/// The command that a mode runs: the built-in command, or that of the first
/// custom tab with the mode's label.
pub open spec fn command_spec(state: RightPanelState, mode: ModeView) -> Option<Seq<char>> {
    match mode {
        ModeView::Files => Some(state.files_command@),
        ModeView::Diff => Some(state.diff_command@),
        ModeView::Jira => Some(state.jira_command@),
        ModeView::Custom(label) => match tab_index_from(state.custom_tabs@, label, 0) {
            Some(i) => Some(state.custom_tabs@[i].command@),
            None => None,
        },
    }
}

/// The position of the first custom tab labelled `label` at or after `from`.
pub open spec fn tab_index_from(tabs: Seq<RightPanelTabConfig>, label: Seq<char>, from: int) -> Option<
    int,
>
    decreases tabs.len() - from,
{
    if from < 0 || from >= tabs.len() {
        None
    } else if tabs[from].label@ == label {
        Some(from)
    } else {
        tab_index_from(tabs, label, from + 1)
    }
}

/// The position of `mode` among `modes` at or after `from`.
pub open spec fn mode_position_from(modes: Seq<ModeView>, mode: ModeView, from: int) -> Option<int>
    decreases modes.len() - from,
{
    if from < 0 || from >= modes.len() {
        None
    } else if modes[from] == mode {
        Some(from)
    } else {
        mode_position_from(modes, mode, from + 1)
    }
}

/// The mode one step from `mode` among `modes`, wrapping around; a mode that is
/// not among them counts as the first one.
pub open spec fn cycled_spec(modes: Seq<ModeView>, mode: ModeView, direction: RightPanelCycleDirection) -> ModeView
    recommends
        modes.len() > 0,
{
    let len = modes.len() as int;
    let index = match mode_position_from(modes, mode, 0) {
        Some(i) => i,
        None => 0,
    };
    let next = match direction {
        RightPanelCycleDirection::Next => (index + 1) % len,
        RightPanelCycleDirection::Previous => (index + len - 1) % len,
    };
    modes[next]
}

/// Whether an instance survives a new configuration: its mode is among the
/// header modes.
pub open spec fn mode_is_known(modes: Seq<ModeView>) -> spec_fn(RightPanelInstance) -> bool {
    |inst: RightPanelInstance| modes.contains(inst.mode@)
}

/// Whether an instance does not survive a new configuration.
pub open spec fn mode_is_unknown(modes: Seq<ModeView>) -> spec_fn(RightPanelInstance) -> bool {
    |inst: RightPanelInstance| !modes.contains(inst.mode@)
}

/// A panel after a new configuration: a mode that is no longer known becomes
/// files mode.
pub open spec fn reconfigured_entry(entry: PaneEntry, modes: Seq<ModeView>) -> PaneEntry {
    if modes.contains(entry.panel.mode@) {
        entry
    } else {
        PaneEntry { owner: entry.owner, panel: PanePanel { mode: RightPanelMode::Files, ..entry.panel } }
    }
}

/// Whether an instance belongs to `owner` and has exited.
pub open spec fn exited_of(owner: PaneId) -> spec_fn(RightPanelInstance) -> bool {
    |inst: RightPanelInstance| inst.owner == owner && inst.exited
}

/// Whether an instance does not both belong to `owner` and have exited.
pub open spec fn not_exited_of(owner: PaneId) -> spec_fn(RightPanelInstance) -> bool {
    |inst: RightPanelInstance| !(inst.owner == owner && inst.exited)
}

/// Whether an instance belongs to `owner`.
pub open spec fn owned_by(owner: PaneId) -> spec_fn(RightPanelInstance) -> bool {
    |inst: RightPanelInstance| inst.owner == owner
}

/// Whether an instance belongs to another pane than `owner`.
pub open spec fn not_owned_by(owner: PaneId) -> spec_fn(RightPanelInstance) -> bool {
    |inst: RightPanelInstance| inst.owner != owner
}

/// Whether a pane entry belongs to another pane than `owner`.
pub open spec fn entry_not_of(owner: PaneId) -> spec_fn(PaneEntry) -> bool {
    |entry: PaneEntry| entry.owner != owner
}

/// Whether the terminal of an instance is among the protected ones.
pub open spec fn is_protected(inst: RightPanelInstance, protect: Seq<Seq<char>>) -> bool {
    protect.contains(inst.terminal_id@)
}

/// The position of the first unprotected instance at or after `from`.
pub open spec fn unprotected_index_from(
    insts: Seq<RightPanelInstance>,
    protect: Seq<Seq<char>>,
    from: int,
) -> Option<int>
    decreases insts.len() - from,
{
    if from < 0 || from >= insts.len() {
        None
    } else if !is_protected(insts[from], protect) {
        Some(from)
    } else {
        unprotected_index_from(insts, protect, from + 1)
    }
}

/// The instances left and the instances evicted when at most `cap` are kept:
/// while there are too many, the least recently shown unprotected one goes.
pub open spec fn evict_spec(insts: Seq<RightPanelInstance>, cap: int, protect: Seq<Seq<char>>) -> (
    Seq<RightPanelInstance>,
    Seq<RightPanelInstance>,
)
    decreases insts.len(),
{
    if insts.len() <= cap {
        (insts, Seq::empty())
    } else {
        match unprotected_index_from(insts, protect, 0) {
            None => (insts, Seq::empty()),
            Some(i) => {
                if 0 <= i < insts.len() {
                    let rest = evict_spec(insts.remove(i), cap, protect);
                    (rest.0, seq![insts[i]] + rest.1)
                } else {
                    (insts, Seq::empty())
                }
            },
        }
    }
}

/// Eviction only ever removes unprotected instances: every instance is either
/// kept or evicted; a protected one is always kept, and a protected last
/// (most recently shown) instance stays last; what is kept is at most `cap`
/// instances unless all of them are protected.
pub proof fn eviction_keeps_protected(insts: Seq<RightPanelInstance>, cap: int, protect: Seq<Seq<char>>)
    ensures
        ({
            let (kept, evicted) = evict_spec(insts, cap, protect);
            &&& kept.len() + evicted.len() == insts.len()
            &&& forall|i: int| 0 <= i < evicted.len() ==> !is_protected(#[trigger] evicted[i], protect)
            &&& forall|j: int|
                0 <= j < insts.len() && is_protected(#[trigger] insts[j], protect) ==> kept.contains(
                    insts[j],
                )
            &&& kept.len() <= cap || forall|i: int| 0 <= i < kept.len() ==> is_protected(#[trigger] kept[i], protect)
            &&& insts.len() > 0 && is_protected(insts.last(), protect) ==> kept.len() > 0 && kept.last()
                == insts.last()
        }),
    decreases insts.len(),
{
    lemma_unprotected_index_from(insts, protect, 0);
    if insts.len() <= cap {
        assert forall|j: int| 0 <= j < insts.len() && is_protected(#[trigger] insts[j], protect) implies insts.contains(insts[j]) by {
        }
    } else {
        match unprotected_index_from(insts, protect, 0) {
            None => {
                assert forall|j: int| 0 <= j < insts.len() && is_protected(#[trigger] insts[j], protect) implies insts.contains(insts[j]) by {
                }
            },
            Some(i) => {
                let rest = insts.remove(i);
                eviction_keeps_protected(rest, cap, protect);
                let (kept, evicted) = evict_spec(rest, cap, protect);
                assert(evict_spec(insts, cap, protect) == (kept, seq![insts[i]] + evicted));
                assert forall|k: int| 0 <= k < (seq![insts[i]] + evicted).len() implies !is_protected(
                    #[trigger] (seq![insts[i]] + evicted)[k],
                    protect,
                ) by {
                    if k > 0 {
                        assert((seq![insts[i]] + evicted)[k] == evicted[k - 1]);
                    }
                }
                assert forall|j: int| 0 <= j < insts.len() && is_protected(#[trigger] insts[j], protect) implies kept.contains(insts[j]) by {
                    if j < i {
                        assert(rest[j] == insts[j]);
                    } else {
                        assert(j != i);
                        assert(rest[j - 1] == insts[j]);
                    }
                }
                if insts.len() > 0 && is_protected(insts.last(), protect) {
                    assert(i != insts.len() - 1);
                    assert(rest.last() == insts.last());
                }
            },
        }
    }
}

/// The instance that a pane's panel shows: the owner's instance for its mode,
/// while its panel is visible.
pub open spec fn displayed_index(state: RightPanelState, owner: PaneId) -> Option<int> {
    match pane_of(state.panes@, owner) {
        Some(p) if p.visible => instance_index(state.instances@, owner, p.mode@),
        _ => None,
    }
}

/// The fields of the state other than panes and instances are those of `old`.
pub open spec fn same_settings(new: RightPanelState, old: RightPanelState) -> bool {
    &&& new.width == old.width
    &&& new.manual_width == old.manual_width
    &&& new.files_command == old.files_command
    &&& new.diff_command == old.diff_command
    &&& new.open_command == old.open_command
    &&& new.jira_command == old.jira_command
    &&& new.custom_tabs == old.custom_tabs
}

proof fn lemma_filter_step<A>(s: Seq<A>, k: int, p: spec_fn(A) -> bool)
    requires
        0 <= k < s.len(),
    ensures
        s.take(k + 1).filter(p) == if p(s[k]) {
            s.take(k).filter(p).push(s[k])
        } else {
            s.take(k).filter(p)
        },
{
    reveal(Seq::filter);
    assert(s.take(k + 1).drop_last() =~= s.take(k));
    assert(s.take(k + 1).last() == s[k]);
}

pub proof fn lemma_pane_index_from(panes: Seq<PaneEntry>, owner: PaneId, from: int)
    requires
        0 <= from,
    ensures
        pane_index_from(panes, owner, from) matches Some(i) ==> from <= i < panes.len()
            && panes[i].owner == owner && forall|j: int| from <= j < i ==> panes[j].owner != owner,
        pane_index_from(panes, owner, from) is None ==> forall|j: int|
            from <= j < panes.len() ==> panes[j].owner != owner,
    decreases panes.len() - from,
{
    if from < panes.len() && panes[from].owner != owner {
        lemma_pane_index_from(panes, owner, from + 1);
    }
}

/// The position of the first instance satisfying a condition, over the
/// recursive definitions above.
proof fn lemma_instance_index_from(
    insts: Seq<RightPanelInstance>,
    owner: PaneId,
    mode: ModeView,
    from: int,
)
    requires
        0 <= from,
    ensures
        instance_index_from(insts, owner, mode, from) matches Some(i) ==> from <= i < insts.len()
            && insts[i].owner == owner && insts[i].mode@ == mode,
        instance_index_from(insts, owner, mode, from) is None ==> forall|j: int|
            from <= j < insts.len() ==> !(insts[j].owner == owner && insts[j].mode@ == mode),
    decreases insts.len() - from,
{
    if from < insts.len() && !(insts[from].owner == owner && insts[from].mode@ == mode) {
        lemma_instance_index_from(insts, owner, mode, from + 1);
    }
}

proof fn lemma_mode_position_from(modes: Seq<ModeView>, mode: ModeView, from: int)
    requires
        0 <= from,
    ensures
        mode_position_from(modes, mode, from) matches Some(i) ==> from <= i < modes.len()
            && modes[i] == mode,
        mode_position_from(modes, mode, from) is None ==> forall|j: int|
            from <= j < modes.len() ==> modes[j] != mode,
    decreases modes.len() - from,
{
    if from < modes.len() && modes[from] != mode {
        lemma_mode_position_from(modes, mode, from + 1);
    }
}

proof fn lemma_unprotected_index_from(
    insts: Seq<RightPanelInstance>,
    protect: Seq<Seq<char>>,
    from: int,
)
    requires
        0 <= from,
    ensures
        unprotected_index_from(insts, protect, from) matches Some(i) ==> from <= i < insts.len()
            && !is_protected(insts[i], protect),
        unprotected_index_from(insts, protect, from) is None ==> forall|j: int|
            from <= j < insts.len() ==> is_protected(insts[j], protect),
    decreases insts.len() - from,
{
    if from < insts.len() && is_protected(insts[from], protect) {
        lemma_unprotected_index_from(insts, protect, from + 1);
    }
}

/// Whether `mode` is among `modes`.
fn mode_in(modes: &Vec<RightPanelMode>, mode: &RightPanelMode) -> (r: bool)
    ensures
        r == modes@.map_values(|m: RightPanelMode| m@).contains(mode@),
{
    let ghost views = modes@.map_values(|m: RightPanelMode| m@);
    let mut i: usize = 0;
    while i < modes.len()
        invariant
            i <= modes.len(),
            views == modes@.map_values(|m: RightPanelMode| m@),
            forall|j: int| 0 <= j < i ==> views[j] != mode@,
        decreases modes.len() - i,
    {
        if modes[i].same(mode) {
            assert(views[i as int] == mode@);
            return true;
        }
        i = i + 1;
    }
    false
}

/// The position of `mode` among `modes`.
fn mode_position(modes: &Vec<RightPanelMode>, mode: &RightPanelMode) -> (r: Option<usize>)
    ensures
        r matches Some(i) ==> i < modes.len() && mode_position_from(
            modes@.map_values(|m: RightPanelMode| m@),
            mode@,
            0,
        ) == Some(i as int),
        r is None ==> mode_position_from(modes@.map_values(|m: RightPanelMode| m@), mode@, 0) is None,
{
    let ghost views = modes@.map_values(|m: RightPanelMode| m@);
    let mut i: usize = 0;
    while i < modes.len()
        invariant
            i <= modes.len(),
            views == modes@.map_values(|m: RightPanelMode| m@),
            mode_position_from(views, mode@, 0) == mode_position_from(views, mode@, i as int),
        decreases modes.len() - i,
    {
        if modes[i].same(mode) {
            assert(mode_position_from(views, mode@, i as int) == Some(i as int));
            return Some(i);
        }
        i = i + 1;
    }
    None
}

/// Whether `text` is among `items`.
fn string_in(items: &[String], text: &str) -> (r: bool)
    ensures
        r == items@.map_values(|s: String| s@).contains(text@),
{
    let ghost views = items@.map_values(|s: String| s@);
    let wanted = chars_of(text);
    let mut i: usize = 0;
    while i < items.len()
        invariant
            i <= items.len(),
            wanted@ == text@,
            views == items@.map_values(|s: String| s@),
            forall|j: int| 0 <= j < i ==> views[j] != text@,
        decreases items.len() - i,
    {
        let item = chars_of(items[i].as_str());
        if same_chars(&item, &wanted) {
            assert(views[i as int] == text@);
            return true;
        }
        i = i + 1;
    }
    false
}

/// Whether two strings hold the same text.
fn same_text(a: &str, b: &str) -> (r: bool)
    ensures
        r == (a@ == b@),
{
    let a = chars_of(a);
    let b = chars_of(b);
    same_chars(&a, &b)
}

impl RightPanelState {
    /// The labels of the custom tabs, in order.
    pub fn custom_labels(&self) -> (r: Vec<String>)
        ensures
            r@.map_values(|s: String| s@) == tab_labels(self.custom_tabs@),
    {
        let mut labels: Vec<String> = Vec::new();
        let mut i: usize = 0;
        while i < self.custom_tabs.len()
            invariant
                i <= self.custom_tabs.len(),
                labels@.map_values(|s: String| s@) == tab_labels(self.custom_tabs@.take(i as int)),
            decreases self.custom_tabs.len() - i,
        {
            let ghost before = labels@;
            labels.push(self.custom_tabs[i].label.clone());
            assert(self.custom_tabs@.take(i + 1) =~= self.custom_tabs@.take(i as int).push(
                self.custom_tabs@[i as int],
            ));
            assert(labels@.map_values(|s: String| s@) =~= before.map_values(|s: String| s@).push(
                self.custom_tabs@[i as int].label@,
            ));
            assert(labels@.map_values(|s: String| s@) =~= tab_labels(
                self.custom_tabs@.take(i + 1),
            ));
            i = i + 1;
        }
        assert(self.custom_tabs@.take(self.custom_tabs.len() as int) =~= self.custom_tabs@);
        labels
    }

    /// The header modes: the built-in modes, then the custom tabs.
    pub fn modes(&self) -> (r: Vec<RightPanelMode>)
        ensures
            r@.map_values(|m: RightPanelMode| m@) == known_modes(self.custom_tabs@),
    {
        let labels = self.custom_labels();
        header_modes(&labels)
    }

    /// The command that `mode` runs, or `None` for a custom tab that is not
    /// configured.
    pub fn command(&self, mode: &RightPanelMode) -> (r: Option<String>)
        ensures
            match r {
                Some(c) => command_spec(*self, mode@) == Some(c@),
                None => command_spec(*self, mode@) is None,
            },
    {
        match mode {
            RightPanelMode::Files => Some(self.files_command.clone()),
            RightPanelMode::Diff => Some(self.diff_command.clone()),
            RightPanelMode::Jira => Some(self.jira_command.clone()),
            RightPanelMode::Custom(label) => {
                let mut i: usize = 0;
                while i < self.custom_tabs.len()
                    invariant
                        i <= self.custom_tabs.len(),
                        mode@ == ModeView::Custom(label@),
                        tab_index_from(self.custom_tabs@, label@, 0) == tab_index_from(
                            self.custom_tabs@,
                            label@,
                            i as int,
                        ),
                    decreases self.custom_tabs.len() - i,
                {
                    if same_text(self.custom_tabs[i].label.as_str(), label.as_str()) {
                        assert(tab_index_from(self.custom_tabs@, label@, i as int) == Some(i as int));
                        return Some(self.custom_tabs[i].command.clone());
                    }
                    i = i + 1;
                }
                None
            },
        }
    }

    /// The mode one step from `mode` in header order, wrapping around; a mode
    /// that is not in the header counts as the first.
    pub fn cycled(&self, mode: &RightPanelMode, direction: RightPanelCycleDirection) -> (r:
        RightPanelMode)
        ensures
            r@ == cycled_spec(known_modes(self.custom_tabs@), mode@, direction),
    {
        let modes = self.modes();
        let ghost views = known_modes(self.custom_tabs@);
        let len = modes.len();
        assert(len >= 3);
        let index = match mode_position(&modes, mode) {
            Some(i) => i,
            None => 0,
        };
        assert(index < len);
        let next = match direction {
            RightPanelCycleDirection::Next => if index + 1 == len {
                0
            } else {
                index + 1
            },
            RightPanelCycleDirection::Previous => if index == 0 {
                len - 1
            } else {
                index - 1
            },
        };
        proof {
            let l = len as int;
            if index + 1 == len {
                vstd::arithmetic::div_mod::lemma_mod_self_0(l);
            } else {
                vstd::arithmetic::div_mod::lemma_small_mod((index + 1) as nat, len as nat);
            }
            if index == 0 {
                vstd::arithmetic::div_mod::lemma_small_mod((len - 1) as nat, len as nat);
            } else {
                vstd::arithmetic::div_mod::lemma_mod_add_multiples_vanish(index - 1, l);
                vstd::arithmetic::div_mod::lemma_small_mod((index - 1) as nat, len as nat);
            }
        }
        assert(next as int == match direction {
            RightPanelCycleDirection::Next => (index + 1) % (len as int),
            RightPanelCycleDirection::Previous => (index + len - 1) % (len as int),
        });
        assert(views[next as int] == modes@[next as int]@);
        modes[next].duplicate()
    }

    /// The width in effect: the width dragged by hand, else the configured one.
    pub fn effective_width(&self) -> (r: PopupSize)
        ensures
            r == match self.manual_width {
                Some(cells) => PopupSize::Cells(cells),
                None => self.width,
            },
    {
        match self.manual_width {
            Some(cells) => PopupSize::Cells(cells),
            None => self.width,
        }
    }

    /// The position of the panel of `owner` among the panes.
    pub fn pane_position(&self, owner: PaneId) -> (r: Option<usize>)
        ensures
            r matches Some(i) ==> pane_index(self.panes@, owner) == Some(i as int) && i
                < self.panes@.len(),
            r is None ==> pane_index(self.panes@, owner) is None,
    {
        proof {
            lemma_pane_index_from(self.panes@, owner, 0);
        }
        let mut i: usize = 0;
        while i < self.panes.len()
            invariant
                i <= self.panes.len(),
                pane_index(self.panes@, owner) == pane_index_from(self.panes@, owner, i as int),
            decreases self.panes.len() - i,
        {
            if self.panes[i].owner == owner {
                return Some(i);
            }
            i = i + 1;
        }
        None
    }

    /// The panel of `owner` for change, added as the default panel when the
    /// owner has none yet.
    pub fn pane_mut(&mut self, owner: PaneId) -> (r: &mut PanePanel)
        ensures
            *r == pane_or_default(old(self).panes@, owner),
            final(self).panes@ == panes_with(old(self).panes@, owner, *final(r)),
            same_settings(*final(self), *old(self)),
            final(self).instances == old(self).instances,
    {
        proof {
            lemma_pane_index_from(self.panes@, owner, 0);
        }
        let i = match self.pane_position(owner) {
            Some(i) => i,
            None => {
                self.panes.push(PaneEntry { owner, panel: PanePanel::default() });
                self.panes.len() - 1
            },
        };
        &mut self.panes[i].panel
    }

    /// The panel of `owner`, if it has one.
    pub fn pane(&self, owner: PaneId) -> (r: Option<&PanePanel>)
        ensures
            match r {
                Some(p) => pane_of(self.panes@, owner) == Some(*p),
                None => pane_of(self.panes@, owner) is None,
            },
    {
        match self.pane_position(owner) {
            Some(i) => Some(&self.panes[i].panel),
            None => None,
        }
    }

    /// Whether the panel of `owner` is visible.
    pub fn is_visible_for(&self, owner: Option<PaneId>) -> (r: bool)
        ensures
            r == match owner {
                Some(o) => pane_of(self.panes@, o) matches Some(p) && p.visible,
                None => false,
            },
    {
        match owner {
            Some(o) => match self.pane(o) {
                Some(p) => p.visible,
                None => false,
            },
            None => false,
        }
    }

    /// Whether some pane shows its panel.
    pub fn any_visible(&self) -> (r: bool)
        ensures
            r == exists|i: int| 0 <= i < self.panes@.len() && (#[trigger] self.panes@[i]).panel.visible,
    {
        let mut i: usize = 0;
        while i < self.panes.len()
            invariant
                i <= self.panes.len(),
                forall|j: int| 0 <= j < i ==> !(#[trigger] self.panes@[j]).panel.visible,
            decreases self.panes.len() - i,
        {
            if self.panes[i].panel.visible {
                assert(self.panes@[i as int].panel.visible);
                return true;
            }
            i = i + 1;
        }
        false
    }

    /// The area left to the tab of `owner`: all of `area` unless its panel is
    /// visible and fits beside it.
    pub fn tab_area(&self, owner: Option<PaneId>, area: Rect) -> (r: Rect)
        requires
            rect_fits(area),
        ensures
            r == if !(match owner {
                Some(o) => pane_of(self.panes@, o) matches Some(p) && p.visible,
                None => false,
            }) {
                area
            } else {
                match split_area_spec(
                    area,
                    match self.manual_width {
                        Some(cells) => PopupSize::Cells(cells),
                        None => self.width,
                    },
                ) {
                    Some((tab, _)) => tab,
                    None => area,
                }
            },
    {
        if !self.is_visible_for(owner) {
            return area;
        }
        match split_area(area, self.effective_width()) {
            Some((tab, _)) => tab,
            None => area,
        }
    }

    /// The panel of `owner` beside its tab, when it is visible and fits.
    pub fn panel_rect(&self, owner: Option<PaneId>, area: Rect) -> (r: Option<Rect>)
        requires
            rect_fits(area),
        ensures
            r == if !(match owner {
                Some(o) => pane_of(self.panes@, o) matches Some(p) && p.visible,
                None => false,
            }) {
                None
            } else {
                match split_area_spec(
                    area,
                    match self.manual_width {
                        Some(cells) => PopupSize::Cells(cells),
                        None => self.width,
                    },
                ) {
                    Some((_, panel)) => Some(panel),
                    None => None,
                }
            },
    {
        if !self.is_visible_for(owner) {
            return None;
        }
        match split_area(area, self.effective_width()) {
            Some((_, panel)) => Some(panel),
            None => None,
        }
    }

    /// The position of the instance of `owner` for `mode`.
    pub fn instance_for(&self, owner: PaneId, mode: &RightPanelMode) -> (r: Option<usize>)
        ensures
            r matches Some(i) ==> instance_index(self.instances@, owner, mode@) == Some(i as int)
                && i < self.instances@.len(),
            r is None ==> instance_index(self.instances@, owner, mode@) is None,
    {
        proof {
            lemma_instance_index_from(self.instances@, owner, mode@, 0);
        }
        let mut i: usize = 0;
        while i < self.instances.len()
            invariant
                i <= self.instances.len(),
                instance_index(self.instances@, owner, mode@) == instance_index_from(
                    self.instances@,
                    owner,
                    mode@,
                    i as int,
                ),
            decreases self.instances.len() - i,
        {
            if self.instances[i].owner == owner && self.instances[i].mode.same(mode) {
                return Some(i);
            }
            i = i + 1;
        }
        None
    }

    /// The instance that the panel of `owner` shows: while the panel is
    /// visible, the owner's instance for the panel's mode.
    pub fn displayed(&self, owner: PaneId) -> (r: Option<&RightPanelInstance>)
        ensures
            match r {
                Some(inst) => displayed_index(*self, owner) matches Some(i) && *inst
                    == self.instances@[i],
                None => displayed_index(*self, owner) is None,
            },
    {
        let pane = match self.pane(owner) {
            Some(p) => p,
            None => return None,
        };
        if !pane.visible {
            return None;
        }
        match self.instance_for(owner, &pane.mode) {
            Some(i) => Some(&self.instances[i]),
            None => None,
        }
    }

    /// The first instance running terminal `terminal_id`.
    pub fn owns_terminal(&self, terminal_id: &str) -> (r: Option<&RightPanelInstance>)
        ensures
            match r {
                Some(inst) => terminal_index_from(self.instances@, terminal_id@, 0) matches Some(i)
                    && *inst == self.instances@[i],
                None => terminal_index_from(self.instances@, terminal_id@, 0) is None,
            },
    {
        let mut i: usize = 0;
        while i < self.instances.len()
            invariant
                i <= self.instances.len(),
                terminal_index_from(self.instances@, terminal_id@, 0) == terminal_index_from(
                    self.instances@,
                    terminal_id@,
                    i as int,
                ),
            decreases self.instances.len() - i,
        {
            if same_text(self.instances[i].terminal_id.as_str(), terminal_id) {
                return Some(&self.instances[i]);
            }
            i = i + 1;
        }
        None
    }
}

impl RightPanelState {
    /// Moves the instance at `index` to the most recent end and returns its
    /// terminal id.
    pub fn touch(&mut self, index: usize) -> (r: String)
        requires
            index < old(self).instances@.len(),
        ensures
            final(self).instances@ == old(self).instances@.remove(index as int).push(
                old(self).instances@[index as int],
            ),
            r@ == old(self).instances@[index as int].terminal_id@,
            same_settings(*final(self), *old(self)),
            final(self).panes == old(self).panes,
    {
        let instance = self.instances.remove(index);
        let terminal_id = instance.terminal_id.clone();
        self.instances.push(instance);
        terminal_id
    }

    /// Evicts instances until at most `cap` are left, least recently shown
    /// first, never one whose terminal is in `protect`; returns the evicted ones.
    #[verifier::loop_isolation(false)]
    pub fn evict_over(&mut self, cap: usize, protect: &[String]) -> (evicted: Vec<
        RightPanelInstance,
    >)
        ensures
            final(self).instances@ == evict_spec(
                old(self).instances@,
                cap as int,
                protect@.map_values(|s: String| s@),
            ).0,
            evicted@ == evict_spec(old(self).instances@, cap as int, protect@.map_values(|s: String| s@)).1,
            same_settings(*final(self), *old(self)),
            final(self).panes == old(self).panes,
    {
        let ghost prot = protect@.map_values(|s: String| s@);
        let mut evicted: Vec<RightPanelInstance> = Vec::new();
        while self.instances.len() > cap
            invariant
                same_settings(*self, *old(self)),
                self.panes == old(self).panes,
                evict_spec(old(self).instances@, cap as int, prot) == (
                    evict_spec(self.instances@, cap as int, prot).0,
                    evicted@ + evict_spec(self.instances@, cap as int, prot).1,
                ),
            decreases self.instances.len(),
        {
            let ghost before = self.instances@;
            proof {
                lemma_unprotected_index_from(before, prot, 0);
            }
            let mut i: usize = 0;
            let mut found: Option<usize> = None;
            while i < self.instances.len()
                invariant
                    self.instances@ == before,
                    i <= before.len(),
                    found is None,
                    unprotected_index_from(before, prot, 0) == unprotected_index_from(
                        before,
                        prot,
                        i as int,
                    ),
                decreases self.instances.len() - i,
            {
                if !string_in(protect, self.instances[i].terminal_id.as_str()) {
                    found = Some(i);
                    break;
                }
                i = i + 1;
            }
            match found {
                None => {
                    assert(unprotected_index_from(before, prot, before.len() as int) is None);
                    assert(evict_spec(before, cap as int, prot) == (before, Seq::<RightPanelInstance>::empty()));
                    assert(evicted@ + Seq::<RightPanelInstance>::empty() =~= evicted@);
                    return evicted;
                },
                Some(index) => {
                    assert(unprotected_index_from(before, prot, index as int) == Some(index as int));
                    let inst = self.instances.remove(index);
                    let ghost tail = evict_spec(self.instances@, cap as int, prot);
                    assert(evict_spec(before, cap as int, prot) == (tail.0, seq![inst] + tail.1));
                    let ghost old_evicted = evicted@;
                    evicted.push(inst);
                    assert(old_evicted + (seq![inst] + tail.1) =~= evicted@ + tail.1);
                },
            }
        }
        assert(evict_spec(self.instances@, cap as int, prot) == (self.instances@, Seq::<RightPanelInstance>::empty()));
        assert(evicted@ + Seq::<RightPanelInstance>::empty() =~= evicted@);
        evicted
    }

    /// Takes out the exited instances of `owner`.
    #[verifier::loop_isolation(false)]
    pub fn take_exited_for(&mut self, owner: PaneId) -> (exited: Vec<RightPanelInstance>)
        ensures
            exited@ == old(self).instances@.filter(exited_of(owner)),
            final(self).instances@ == old(self).instances@.filter(not_exited_of(owner)),
            same_settings(*final(self), *old(self)),
            final(self).panes == old(self).panes,
    {
        let mut rest: Vec<RightPanelInstance> = Vec::new();
        std::mem::swap(&mut rest, &mut self.instances);
        let ghost orig = rest@;
        let mut live: Vec<RightPanelInstance> = Vec::new();
        let mut exited: Vec<RightPanelInstance> = Vec::new();
        let ghost mut k: int = 0;
        assert(orig.take(0) =~= Seq::<RightPanelInstance>::empty());
        reveal(Seq::filter);
        while rest.len() > 0
            invariant
                0 <= k <= orig.len(),
                rest@ == orig.skip(k),
                live@ == orig.take(k).filter(not_exited_of(owner)),
                exited@ == orig.take(k).filter(exited_of(owner)),
            decreases rest.len(),
        {
            let inst = rest.remove(0);
            proof {
                assert(inst == orig[k]);
                lemma_filter_step(orig, k, exited_of(owner));
                lemma_filter_step(orig, k, not_exited_of(owner));
                assert(orig.skip(k).remove(0) =~= orig.skip(k + 1));
            }
            if inst.owner == owner && inst.exited {
                exited.push(inst);
            } else {
                live.push(inst);
            }
            proof {
                k = k + 1;
            }
        }
        assert(orig.take(k) =~= orig);
        self.instances = live;
        exited
    }

    /// Takes out the instance of `owner` for `mode`.
    pub fn take_instance(&mut self, owner: PaneId, mode: &RightPanelMode) -> (r: Option<
        RightPanelInstance,
    >)
        ensures
            match instance_index(old(self).instances@, owner, mode@) {
                Some(i) => r == Some(old(self).instances@[i]) && final(self).instances@ == old(
                    self,
                ).instances@.remove(i),
                None => r is None && final(self).instances == old(self).instances,
            },
            same_settings(*final(self), *old(self)),
            final(self).panes == old(self).panes,
    {
        match self.instance_for(owner, mode) {
            Some(i) => Some(self.instances.remove(i)),
            None => None,
        }
    }

    /// Forgets the panel of `owner` and takes out all its instances.
    #[verifier::loop_isolation(false)]
    pub fn remove_owner(&mut self, owner: PaneId) -> (removed: Vec<RightPanelInstance>)
        ensures
            final(self).panes@ == old(self).panes@.filter(entry_not_of(owner)),
            removed@ == old(self).instances@.filter(owned_by(owner)),
            final(self).instances@ == old(self).instances@.filter(not_owned_by(owner)),
            same_settings(*final(self), *old(self)),
    {
        reveal(Seq::filter);
        let mut panes: Vec<PaneEntry> = Vec::new();
        std::mem::swap(&mut panes, &mut self.panes);
        let ghost orig_panes = panes@;
        let mut kept_panes: Vec<PaneEntry> = Vec::new();
        let ghost mut n: int = 0;
        assert(orig_panes.take(0) =~= Seq::<PaneEntry>::empty());
        while panes.len() > 0
            invariant
                0 <= n <= orig_panes.len(),
                panes@ == orig_panes.skip(n),
                kept_panes@ == orig_panes.take(n).filter(entry_not_of(owner)),
            decreases panes.len(),
        {
            let entry = panes.remove(0);
            proof {
                assert(entry == orig_panes[n]);
                lemma_filter_step(orig_panes, n, entry_not_of(owner));
                assert(orig_panes.skip(n).remove(0) =~= orig_panes.skip(n + 1));
            }
            if entry.owner != owner {
                kept_panes.push(entry);
            }
            proof {
                n = n + 1;
            }
        }
        assert(orig_panes.take(n) =~= orig_panes);
        self.panes = kept_panes;
        let mut rest: Vec<RightPanelInstance> = Vec::new();
        std::mem::swap(&mut rest, &mut self.instances);
        let ghost orig = rest@;
        let mut kept: Vec<RightPanelInstance> = Vec::new();
        let mut removed: Vec<RightPanelInstance> = Vec::new();
        let ghost mut k: int = 0;
        assert(orig.take(0) =~= Seq::<RightPanelInstance>::empty());
        while rest.len() > 0
            invariant
                0 <= k <= orig.len(),
                rest@ == orig.skip(k),
                kept@ == orig.take(k).filter(not_owned_by(owner)),
                removed@ == orig.take(k).filter(owned_by(owner)),
            decreases rest.len(),
        {
            let inst = rest.remove(0);
            proof {
                assert(inst == orig[k]);
                lemma_filter_step(orig, k, owned_by(owner));
                lemma_filter_step(orig, k, not_owned_by(owner));
                assert(orig.skip(k).remove(0) =~= orig.skip(k + 1));
            }
            if inst.owner == owner {
                removed.push(inst);
            } else {
                kept.push(inst);
            }
            proof {
                k = k + 1;
            }
        }
        assert(orig.take(k) =~= orig);
        self.instances = kept;
        removed
    }
}

/// Whether the panel of `owner` shows an instance of `mode`.
pub open spec fn shows_mode(panes: Seq<PaneEntry>, owner: PaneId, mode: ModeView) -> bool {
    pane_of(panes, owner) matches Some(p) && p.visible && p.mode@ == mode
}

/// Whether a command that started at `spawned_at_ms` and exited at `now_ms`
/// failed to start.
pub open spec fn failed_start(spawned_at_ms: u64, now_ms: u64) -> bool {
    (if now_ms >= spawned_at_ms {
        now_ms - spawned_at_ms
    } else {
        0
    }) < FAILED_START_WINDOW_MS
}

impl RightPanelState {
    /// Handles the exit of the command running in panel pane `pane_id` at time
    /// `now_ms`. An instance shown in its owner's panel that exits within the
    /// failed-start window stays, marked exited; any other instance is taken
    /// out, and when it was shown its owner's panel is hidden and unfocused.
    /// Panes of other owners are never touched.
    pub fn command_exited(&mut self, pane_id: PaneId, now_ms: u64) -> (r: Option<PanelExit>)
        ensures
            same_settings(*final(self), *old(self)),
            match pane_instance_index_from(old(self).instances@, pane_id, 0) {
                None => r is None && *final(self) == *old(self),
                Some(i) => {
                    let inst = old(self).instances@[i];
                    let shown = shows_mode(old(self).panes@, inst.owner, inst.mode@);
                    if shown && failed_start(inst.spawned_at_ms, now_ms) {
                        &&& r == Some(PanelExit::KeptFailedStart)
                        &&& final(self).instances@ == old(self).instances@.update(
                            i,
                            RightPanelInstance { exited: true, ..inst },
                        )
                        &&& final(self).panes == old(self).panes
                    } else {
                        &&& r == Some(PanelExit::Released(inst))
                        &&& final(self).instances@ == old(self).instances@.remove(i)
                        &&& final(self).panes@ == if shown {
                            panes_with(
                                old(self).panes@,
                                inst.owner,
                                PanePanel {
                                    visible: false,
                                    focused: false,
                                    ..pane_or_default(old(self).panes@, inst.owner)
                                },
                            )
                        } else {
                            old(self).panes@
                        }
                    }
                },
            },
    {
        let index = match self.pane_instance_position(pane_id) {
            Some(i) => i,
            None => return None,
        };
        let owner = self.instances[index].owner;
        let shown = match self.pane(owner) {
            Some(p) => p.visible && p.mode.same(&self.instances[index].mode),
            None => false,
        };
        let spawned = self.instances[index].spawned_at_ms;
        let elapsed = if now_ms >= spawned {
            now_ms - spawned
        } else {
            0
        };
        if shown && elapsed < FAILED_START_WINDOW_MS {
            let mut inst = self.instances.remove(index);
            inst.exited = true;
            self.instances.insert(index, inst);
            assert(self.instances@ =~= old(self).instances@.update(
                index as int,
                RightPanelInstance { exited: true, ..old(self).instances@[index as int] },
            ));
            return Some(PanelExit::KeptFailedStart);
        }
        let inst = self.instances.remove(index);
        if shown {
            let pane = self.pane_mut(owner);
            pane.visible = false;
            pane.focused = false;
        }
        Some(PanelExit::Released(inst))
    }

    /// The position of the instance whose terminal lives in pane `pane_id`.
    pub fn pane_instance_position(&self, pane_id: PaneId) -> (r: Option<usize>)
        ensures
            r matches Some(i) ==> i < self.instances@.len() && pane_instance_index_from(
                self.instances@,
                pane_id,
                0,
            ) == Some(i as int),
            r is None ==> pane_instance_index_from(self.instances@, pane_id, 0) is None,
    {
        let mut index: usize = 0;
        while index < self.instances.len()
            invariant
                index <= self.instances.len(),
                pane_instance_index_from(self.instances@, pane_id, 0) == pane_instance_index_from(
                    self.instances@,
                    pane_id,
                    index as int,
                ),
            decreases self.instances.len() - index,
        {
            if self.instances[index].pane_id == pane_id {
                return Some(index);
            }
            index = index + 1;
        }
        None
    }

    /// The public id of the terminal that `owner`'s panel shows, when that panel
    /// has keyboard focus.
    pub fn focused_public_id(&self, owner: Option<PaneId>) -> (r: Option<String>)
        ensures
            match owner {
                None => r is None,
                Some(o) => match pane_of(self.panes@, o) {
                    Some(p) if p.focused => match displayed_index(*self, o) {
                        Some(i) => r matches Some(id) && id@ == public_id_prefix()
                            + self.instances@[i].terminal_id@,
                        None => r is None,
                    },
                    _ => r is None,
                },
            },
    {
        let owner = match owner {
            Some(o) => o,
            None => return None,
        };
        let focused = match self.pane(owner) {
            Some(p) => p.focused,
            None => false,
        };
        if !focused {
            return None;
        }
        match self.displayed(owner) {
            Some(inst) => Some(public_id(inst.terminal_id.as_str())),
            None => None,
        }
    }
}

impl RightPanelState {
    /// Takes a new width and configuration. Panes whose mode is no longer among
    /// the header modes switch to files mode; the instances of such modes are
    /// taken out and returned, to be shut down.
    #[verifier::loop_isolation(false)]
    pub fn apply_config(&mut self, width: PopupSize, config: &RightPanelConfig) -> (removed: Vec<
        RightPanelInstance,
    >)
        ensures
            final(self).width == width,
            final(self).manual_width == old(self).manual_width,
            final(self).files_command@ == config.files_command@,
            final(self).diff_command@ == config.diff_command@,
            final(self).open_command@ == config.open_command@,
            final(self).jira_command@ == config.jira_command@,
            final(self).custom_tabs@ == config.tabs@,
            final(self).panes@ == old(self).panes@.map_values(
                |e: PaneEntry| reconfigured_entry(e, known_modes(config.tabs@)),
            ),
            final(self).instances@ == old(self).instances@.filter(
                mode_is_known(known_modes(config.tabs@)),
            ),
            removed@ == old(self).instances@.filter(mode_is_unknown(known_modes(config.tabs@))),
    {
        self.width = width;
        self.files_command = config.files_command.clone();
        self.diff_command = config.diff_command.clone();
        self.open_command = config.open_command.clone();
        self.jira_command = config.jira_command.clone();
        self.custom_tabs = duplicate_tabs(&config.tabs);
        let known = self.modes();
        let ghost modes = known_modes(config.tabs@);
        assert(known@.map_values(|m: RightPanelMode| m@) == modes);
        let ghost old_panes = self.panes@;
        let mut i: usize = 0;
        while i < self.panes.len()
            invariant
                i <= self.panes.len(),
                self.width == width,
                self.manual_width == old(self).manual_width,
                self.files_command@ == config.files_command@,
                self.diff_command@ == config.diff_command@,
                self.open_command@ == config.open_command@,
                self.jira_command@ == config.jira_command@,
                self.custom_tabs@ == config.tabs@,
                self.instances == old(self).instances,
                self.panes@.len() == old_panes.len(),
                forall|j: int|
                    0 <= j < i ==> self.panes@[j] == reconfigured_entry(
                        #[trigger] old_panes[j],
                        modes,
                    ),
                forall|j: int| i <= j < self.panes.len() ==> self.panes@[j] == old_panes[j],
            decreases self.panes.len() - i,
        {
            if !mode_in(&known, &self.panes[i].panel.mode) {
                let mut entry = self.panes.remove(i);
                entry.panel.mode = RightPanelMode::Files;
                self.panes.insert(i, entry);
            }
            i = i + 1;
        }
        assert(self.panes@ =~= old_panes.map_values(|e: PaneEntry| reconfigured_entry(e, modes)));
        let mut rest: Vec<RightPanelInstance> = Vec::new();
        std::mem::swap(&mut rest, &mut self.instances);
        let ghost orig = rest@;
        let mut kept: Vec<RightPanelInstance> = Vec::new();
        let mut removed: Vec<RightPanelInstance> = Vec::new();
        let ghost mut k: int = 0;
        assert(orig.take(0) =~= Seq::<RightPanelInstance>::empty());
        reveal(Seq::filter);
        while rest.len() > 0
            invariant
                0 <= k <= orig.len(),
                rest@ == orig.skip(k),
                kept@ == orig.take(k).filter(mode_is_known(modes)),
                removed@ == orig.take(k).filter(mode_is_unknown(modes)),
            decreases rest.len(),
        {
            let inst = rest.remove(0);
            proof {
                assert(inst == orig[k]);
                lemma_filter_step(orig, k, mode_is_known(modes));
                lemma_filter_step(orig, k, mode_is_unknown(modes));
                assert(orig.skip(k).remove(0) =~= orig.skip(k + 1));
            }
            if mode_in(&known, &inst.mode) {
                kept.push(inst);
            } else {
                removed.push(inst);
            }
            proof {
                k = k + 1;
            }
        }
        assert(orig.take(k) =~= orig);
        self.instances = kept;
        removed
    }
}

} // verus!
