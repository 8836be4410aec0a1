//! How the application drives the right panel: which pane owns the panel on
//! screen, what the panel commands (toggle, show, cycle, open, focus, blur,
//! resize) do to the per-pane state, and which panel terminals are started or
//! released.
//!
//! Terminals are started through a [`PanelHost`]; a released terminal's id is
//! queued in [`App::shutdowns`] and a needed redraw raises
//! [`App::render_requested`], for the host application to act on.

use vstd::prelude::*;
use vstd::string::*;

use crate::panel_state::{
    exited_of, not_exited_of, pane_of, pane_or_default, panes_with, PaneEntry, PaneId,
    PanePanel, PendingOpen, RightPanelConfig, RightPanelInstance, RightPanelState,
    displayed_index, instance_index, known_modes, mode_is_known, mode_is_unknown,
    reconfigured_entry, same_settings, terminal_index_from, command_spec, cycled_spec,
};
use crate::right_panel::{
    content_rect, parse_public_id, render_open_command, resolve_dir, ModeView, OpenTarget,
    PopupSize, Rect, RightPanelCycleDirection, RightPanelMode, MAX_INSTANCES, public_id_prefix,
    target_dir_spec,
};
use crate::sessions::{duplicate_option, duplicate_strings, ClaudeSession};
use crate::text::{chars_of, extend_chars, has_prefix, same_chars, string_of};

verus! {

/// The environment variable that tells a panel command its owner pane.
pub open spec fn panel_owner_pane_env() -> Seq<char> {
    "HERDR_PANEL_OWNER_PANE_ID"@
}

/// The environment variable that lists the repositories of the owner's
/// agent session, one per line.
pub open spec fn session_repos_env() -> Seq<char> {
    "HERDR_SESSION_REPOS"@
}

/// A pane of a tab and the terminal that runs in it.
#[derive(Debug, Clone, PartialEq, Eq)]
pub struct PaneSlot {
    pub id: PaneId,
    pub terminal_id: String,
    /// The id that the workspace API shows for this pane.
    pub public_id: String,
    /// The working directory of the pane's shell.
    pub cwd: Option<String>,
    /// The working directory of the pane's foreground process.
    pub foreground_cwd: Option<String>,
}

/// A tab: its panes and the one with focus.
#[derive(Debug, Clone, PartialEq, Eq)]
pub struct Tab {
    pub panes: Vec<PaneSlot>,
    pub focused: PaneId,
}

/// A workspace: its tabs and the active one.
#[derive(Debug, Clone, PartialEq, Eq)]
pub struct Workspace {
    pub tabs: Vec<Tab>,
    pub active_tab: usize,
}

/// The coding agent that a terminal runs.
#[derive(Debug, Clone, Copy, PartialEq, Eq, Structural)]
pub enum AgentKind {
    /// The agent whose sessions the session scanner follows.
    ClaudeCode,
    /// Any other agent.
    Other,
}

/// The agent session recorded for a terminal: which agent, and its session
/// id.
#[derive(Debug, Clone, PartialEq, Eq)]
pub struct AgentSession {
    pub agent: AgentKind,
    pub value: String,
}

/// A terminal known to the application.
#[derive(Debug, Clone, PartialEq, Eq)]
pub struct TerminalState {
    pub id: String,
    pub dir: String,
    pub agent_session: Option<AgentSession>,
}

/// A tab of a workspace, as drawn on screen.
#[derive(Debug, Clone, Copy, PartialEq, Eq, Hash)]
pub struct TabSurfaceTarget {
    pub workspace_index: usize,
    pub tab_index: usize,
}

/// What the application knows of its workspaces and terminals.
#[derive(Debug, Clone, PartialEq, Eq)]
pub struct AppState {
    pub workspaces: Vec<Workspace>,
    pub active: Option<usize>,
    pub terminals: Vec<TerminalState>,
    pub right_panel: RightPanelState,
    /// The environment that every command started by the application gets.
    pub command_env: Vec<(String, String)>,
}

/// A terminal that the host started.
#[derive(Debug, Clone, PartialEq, Eq)]
pub struct SpawnedTerminal {
    pub pane_id: PaneId,
    pub terminal_id: String,
}

/// What the application asks of its host to run panel terminals.
pub trait PanelHost {
    /// Whether `answer` is what the host answered starting `command` in
    /// `dir` with `env`, in a terminal of `rows` by `cols` cells. It holds of
    /// every answer unless an implementation says more: it names the call,
    /// with its arguments, that an answer came from.
    open spec fn spawn_answer(
        &self,
        dir: Seq<char>,
        command: Seq<char>,
        env: Seq<(Seq<char>, Seq<char>)>,
        rows: u16,
        cols: u16,
        answer: Result<SpawnedTerminal, String>,
    ) -> bool {
        true
    }

    /// Starts `command` in a shell in `dir`, in a terminal of `rows` by `cols`
    /// cells, with `env` added to its environment.
    fn spawn_shell_command(
        &mut self,
        dir: &str,
        command: &str,
        env: &Vec<(String, String)>,
        rows: u16,
        cols: u16,
    ) -> (r: Result<SpawnedTerminal, String>)
        ensures
            old(self).spawn_answer(dir@, command@, env@.map_values(|kv: (String, String)| (kv.0@, kv.1@)), rows, cols, r),
    ;

    /// Whether `answer` is what the host answered when asked whether `path`
    /// is an existing directory.
    open spec fn dir_answer(&self, path: Seq<char>, answer: bool) -> bool {
        true
    }

    /// Whether `path` is an existing directory.
    fn is_dir(&self, path: &str) -> (r: bool)
        ensures
            self.dir_answer(path@, r),
    ;

    /// The time, in milliseconds on a monotonic clock.
    fn now_ms(&self) -> u64;
}

/// The application, as far as the right panel is concerned.
#[derive(Debug, Clone, PartialEq, Eq)]
pub struct App {
    pub state: AppState,
    /// The agent sessions that the session scanner found.
    pub claude_sessions: Vec<ClaudeSession>,
    /// The home directory.
    pub home: Option<String>,
    /// The terminals released since the host last looked, to be shut down.
    pub shutdowns: Vec<String>,
    /// Whether the screen needs to be drawn again.
    pub render_requested: bool,
    /// The terminals the host started for the panel, whose runtime it runs.
    pub started: Vec<String>,
}

/// The focused pane of a workspace: that of its active tab.
pub open spec fn workspace_focused(ws: Workspace) -> Option<PaneId> {
    if ws.active_tab < ws.tabs@.len() {
        Some(ws.tabs@[ws.active_tab as int].focused)
    } else {
        None
    }
}

/// The pane whose panel the user commands: the focused pane of the active
/// workspace.
pub open spec fn focused_owner_spec(state: AppState) -> Option<(usize, PaneId)> {
    match state.active {
        Some(w) if w < state.workspaces@.len() => match workspace_focused(state.workspaces@[w as int]) {
            Some(p) => Some((w, p)),
            None => None,
        },
        _ => None,
    }
}

/// The focused pane of the active workspace.
pub open spec fn focused_pane_spec(state: AppState) -> Option<PaneId> {
    match focused_owner_spec(state) {
        Some((_, p)) => Some(p),
        None => None,
    }
}

/// Whether `pane` is a pane of some tab.
pub open spec fn pane_exists_spec(state: AppState, pane: PaneId) -> bool {
    exists|w: int, t: int, k: int|
        0 <= w < state.workspaces@.len() && 0 <= t < state.workspaces@[w].tabs@.len() && 0 <= k
            < state.workspaces@[w].tabs@[t].panes@.len() && (
        #[trigger] state.workspaces@[w].tabs@[t].panes@[k]).id == pane
}

/// The terminals without those of the given instances, one instance after the
/// other.
pub open spec fn drop_terminals(terms: Seq<TerminalState>, insts: Seq<RightPanelInstance>) -> Seq<
    TerminalState,
>
    decreases insts.len(),
{
    if insts.len() == 0 {
        terms
    } else {
        drop_terminals(terms, insts.drop_last()).filter(not_terminal(insts.last().terminal_id@))
    }
}

/// Whether a terminal is another one than `id`.
pub open spec fn not_terminal(id: Seq<char>) -> spec_fn(TerminalState) -> bool {
    |t: TerminalState| t.id@ != id
}

/// The terminal ids of some instances.
pub open spec fn terminal_ids(insts: Seq<RightPanelInstance>) -> Seq<String> {
    insts.map_values(|i: RightPanelInstance| i.terminal_id)
}

/// `new` is `old` after releasing `insts`: their terminals are forgotten and
/// queued for shutdown, in order.
pub open spec fn released(old: App, new: App, insts: Seq<RightPanelInstance>) -> bool {
    &&& new.shutdowns@ == old.shutdowns@ + terminal_ids(insts)
    &&& new.state.terminals@ == drop_terminals(old.state.terminals@, insts)
}

/// What no panel command changes.
pub open spec fn same_world(new: App, old: App) -> bool {
    &&& new.state.workspaces == old.state.workspaces
    &&& new.state.active == old.state.active
    &&& new.state.command_env == old.state.command_env
    &&& new.claude_sessions == old.claude_sessions
    &&& new.home == old.home
}

/// `new` is `old` after releasing the exited instances of `owner`.
pub open spec fn released_exited(old: App, new: App, owner: PaneId) -> bool {
    &&& new.state.right_panel.instances@ == old.state.right_panel.instances@.filter(
        not_exited_of(owner),
    )
    &&& released(old, new, old.state.right_panel.instances@.filter(exited_of(owner)))
}

/// The panel of a pane after a toggle: shown and focused when it was hidden,
/// hidden, unfocused and without a pending open when it was shown.
pub open spec fn toggled_panel(p: PanePanel) -> PanePanel {
    PanePanel {
        visible: !p.visible,
        focused: !p.visible,
        pending_open: if p.visible {
            None
        } else {
            p.pending_open
        },
        ..p
    }
}

/// The panel of a pane after cycling to `mode`: a hidden panel is shown and
/// focused, a visible one keeps its focus.
pub open spec fn cycled_panel(p: PanePanel, mode: RightPanelMode) -> PanePanel {
    PanePanel {
        mode,
        visible: true,
        focused: if p.visible {
            p.focused
        } else {
            true
        },
        ..p
    }
}


/// The position of the first slot of `pane` at or after `from`.
pub open spec fn slot_index_from(slots: Seq<PaneSlot>, pane: PaneId, from: int) -> Option<int>
    decreases slots.len() - from,
{
    if from < 0 || from >= slots.len() {
        None
    } else if slots[from].id == pane {
        Some(from)
    } else {
        slot_index_from(slots, pane, from + 1)
    }
}

/// The position of the first tab at or after `from` that holds `pane`.
pub open spec fn tab_index_from(tabs: Seq<Tab>, pane: PaneId, from: int) -> Option<int>
    decreases tabs.len() - from,
{
    if from < 0 || from >= tabs.len() {
        None
    } else if slot_index_from(tabs[from].panes@, pane, 0) is Some {
        Some(from)
    } else {
        tab_index_from(tabs, pane, from + 1)
    }
}

/// The slot of `pane` in a workspace: in the first tab that holds it.
pub open spec fn pane_slot_spec(ws: Workspace, pane: PaneId) -> Option<PaneSlot> {
    match tab_index_from(ws.tabs@, pane, 0) {
        Some(t) => match slot_index_from(ws.tabs@[t].panes@, pane, 0) {
            Some(k) => Some(ws.tabs@[t].panes@[k]),
            None => None,
        },
        None => None,
    }
}

/// The first workspace at or after `from` that holds `pane`.
pub open spec fn workspace_index_from(wss: Seq<Workspace>, pane: PaneId, from: int) -> Option<int>
    decreases wss.len() - from,
{
    if from < 0 || from >= wss.len() {
        None
    } else if tab_index_from(wss[from].tabs@, pane, 0) is Some {
        Some(from)
    } else {
        workspace_index_from(wss, pane, from + 1)
    }
}

/// The position of the first terminal `id` at or after `from`.
pub open spec fn terminal_state_index_from(terms: Seq<TerminalState>, id: Seq<char>, from: int) -> Option<
    int,
>
    decreases terms.len() - from,
{
    if from < 0 || from >= terms.len() {
        None
    } else if terms[from].id@ == id {
        Some(from)
    } else {
        terminal_state_index_from(terms, id, from + 1)
    }
}

/// The position of the first session `id` at or after `from`.
pub open spec fn session_index_from(sessions: Seq<ClaudeSession>, id: Seq<char>, from: int) -> Option<
    int,
>
    decreases sessions.len() - from,
{
    if from < 0 || from >= sessions.len() {
        None
    } else if sessions[from].session_id@ == id {
        Some(from)
    } else {
        session_index_from(sessions, id, from + 1)
    }
}

/// The agent session that runs in `pane` of workspace `ws_idx`: the pane's
/// terminal records a session of the followed agent, found among the scanned
/// sessions.
pub open spec fn pane_claude_session_spec(app: App, ws_idx: int, pane: PaneId) -> Option<ClaudeSession> {
    if 0 <= ws_idx < app.state.workspaces@.len() {
        match pane_slot_spec(app.state.workspaces@[ws_idx], pane) {
            Some(slot) => match terminal_state_index_from(app.state.terminals@, slot.terminal_id@, 0) {
                Some(ti) => match app.state.terminals@[ti].agent_session {
                    Some(agent) if agent.agent == AgentKind::ClaudeCode => match session_index_from(
                        app.claude_sessions@,
                        agent.value@,
                        0,
                    ) {
                        Some(si) => Some(app.claude_sessions@[si]),
                        None => None,
                    },
                    _ => None,
                },
                None => None,
            },
            None => None,
        }
    } else {
        None
    }
}

/// Lines joined with a newline between them.
pub open spec fn join_lines(lines: Seq<Seq<char>>) -> Seq<char>
    decreases lines.len(),
{
    if lines.len() == 0 {
        Seq::empty()
    } else if lines.len() == 1 {
        lines[0]
    } else {
        join_lines(lines.drop_last()) + seq!['\n'] + lines.last()
    }
}

/// The environment of a panel command of `owner`: the application's
/// environment, then the owner's public pane id when the owner is found, then
/// the repositories of the owner's agent session (empty when it has none).
pub open spec fn panel_env_spec(app: App, owner: PaneId) -> Seq<(Seq<char>, Seq<char>)> {
    let base = app.state.command_env@.map_values(|kv: (String, String)| (kv.0@, kv.1@));
    match workspace_index_from(app.state.workspaces@, owner, 0) {
        Some(w) => {
            let slot = pane_slot_spec(app.state.workspaces@[w], owner);
            let repos = match pane_claude_session_spec(app, w, owner) {
                Some(s) => join_lines(s.repos@.map_values(|r: String| r@)),
                None => Seq::empty(),
            };
            match slot {
                Some(s) => base.push((panel_owner_pane_env(), s.public_id@)).push(
                    (session_repos_env(), repos),
                ),
                None => base.push((session_repos_env(), repos)),
            }
        },
        None => base.push((session_repos_env(), Seq::empty())),
    }
}

proof fn lemma_filter_step<A>(s: Seq<A>, k: int, p: spec_fn(A) -> bool)
    requires
        0 <= k < s.len(),
    ensures
        s.take(k + 1).filter(p) == if p(s[k]) {
            s.take(k).filter(p).push(s[k])
        } else {
            s.take(k).filter(p)
        },
{
    reveal(Seq::filter);
    assert(s.take(k + 1).drop_last() =~= s.take(k));
    assert(s.take(k + 1).last() == s[k]);
}

impl AppState {
    /// The pane whose panel a drawn tab shows: the focused pane of that tab.
    pub fn right_panel_owner(&self, target: TabSurfaceTarget) -> (r: Option<PaneId>)
        ensures
            r == if target.workspace_index < self.workspaces@.len() && target.tab_index
                < self.workspaces@[target.workspace_index as int].tabs@.len() {
                Some(
                    self.workspaces@[target.workspace_index as int].tabs@[target.tab_index as int].focused,
                )
            } else {
                None
            },
    {
        if target.workspace_index >= self.workspaces.len() {
            return None;
        }
        let ws = &self.workspaces[target.workspace_index];
        if target.tab_index >= ws.tabs.len() {
            return None;
        }
        Some(ws.tabs[target.tab_index].focused)
    }

    /// The active workspace and its focused pane.
    pub fn focused_right_panel_owner(&self) -> (r: Option<(usize, PaneId)>)
        ensures
            r == focused_owner_spec(*self),
    {
        let w = match self.active {
            Some(w) => w,
            None => return None,
        };
        if w >= self.workspaces.len() {
            return None;
        }
        let ws = &self.workspaces[w];
        if ws.active_tab >= ws.tabs.len() {
            return None;
        }
        Some((w, ws.tabs[ws.active_tab].focused))
    }

    /// Whether `pane_id` is a pane of some tab.
    #[verifier::loop_isolation(false)]
    pub fn pane_exists(&self, pane_id: PaneId) -> (r: bool)
        ensures
            r == pane_exists_spec(*self, pane_id),
    {
        let mut w: usize = 0;
        while w < self.workspaces.len()
            invariant
                w <= self.workspaces.len(),
                forall|a: int, t: int, k: int|
                    0 <= a < w && 0 <= t < self.workspaces@[a].tabs@.len() && 0 <= k
                        < self.workspaces@[a].tabs@[t].panes@.len() ==> (
                    #[trigger] self.workspaces@[a].tabs@[t].panes@[k]).id != pane_id,
            decreases self.workspaces.len() - w,
        {
            let ws = &self.workspaces[w];
            let mut t: usize = 0;
            while t < ws.tabs.len()
                invariant
                    w < self.workspaces.len(),
                    *ws == self.workspaces@[w as int],
                    t <= ws.tabs.len(),
                    forall|a: int, b: int, k: int|
                        0 <= a < w && 0 <= b < self.workspaces@[a].tabs@.len() && 0 <= k
                            < self.workspaces@[a].tabs@[b].panes@.len() ==> (
                        #[trigger] self.workspaces@[a].tabs@[b].panes@[k]).id != pane_id,
                    forall|b: int, k: int|
                        0 <= b < t && 0 <= k < ws.tabs@[b].panes@.len() ==> (
                        #[trigger] ws.tabs@[b].panes@[k]).id != pane_id,
                decreases ws.tabs.len() - t,
            {
                let tab = &ws.tabs[t];
                let mut k: usize = 0;
                while k < tab.panes.len()
                    invariant
                        t < ws.tabs.len(),
                        *tab == ws.tabs@[t as int],
                        k <= tab.panes.len(),
                        forall|j: int| 0 <= j < k ==> (#[trigger] tab.panes@[j]).id != pane_id,
                    decreases tab.panes.len() - k,
                {
                    if tab.panes[k].id == pane_id {
                        assert(self.workspaces@[w as int].tabs@[t as int].panes@[k as int].id
                            == pane_id);
                        return true;
                    }
                    k = k + 1;
                }
                t = t + 1;
            }
            w = w + 1;
        }
        false
    }
}

impl App {
    /// Asks for the screen to be drawn again.
    pub fn request_right_panel_render(&mut self)
        ensures
            *final(self) == (App { render_requested: true, ..*old(self) }),
    {
        self.render_requested = true;
    }

    /// Forgets the terminal of a released instance and queues it for shutdown.
    #[verifier::loop_isolation(false)]
    pub fn release_right_panel_instance(&mut self, instance: RightPanelInstance)
        ensures
            released(*old(self), *final(self), seq![instance]),
            same_world(*final(self), *old(self)),
            final(self).state.right_panel == old(self).state.right_panel,
            final(self).render_requested == old(self).render_requested,
    {
        reveal(Seq::filter);
        let ghost orig = self.state.terminals@;
        let ghost id = instance.terminal_id@;
        let mut rest: Vec<TerminalState> = Vec::new();
        std::mem::swap(&mut rest, &mut self.state.terminals);
        let mut kept: Vec<TerminalState> = Vec::new();
        let ghost mut k: int = 0;
        assert(orig.take(0) =~= Seq::<TerminalState>::empty());
        let wanted = chars_of(instance.terminal_id.as_str());
        while rest.len() > 0
            invariant
                0 <= k <= orig.len(),
                rest@ == orig.skip(k),
                wanted@ == id,
                kept@ == orig.take(k).filter(not_terminal(id)),
            decreases rest.len(),
        {
            let term = rest.remove(0);
            proof {
                assert(term == orig[k]);
                lemma_filter_step(orig, k, not_terminal(id));
                assert(orig.skip(k).remove(0) =~= orig.skip(k + 1));
            }
            let term_id = chars_of(term.id.as_str());
            if !same_chars(&term_id, &wanted) {
                kept.push(term);
            }
            proof {
                k = k + 1;
            }
        }
        assert(orig.take(k) =~= orig);
        self.state.terminals = kept;
        assert(seq![instance].drop_last() =~= Seq::<RightPanelInstance>::empty());
        assert(seq![instance].last() == instance);
        assert(drop_terminals(orig, Seq::<RightPanelInstance>::empty()) == orig);
        assert(drop_terminals(orig, seq![instance]) == orig.filter(not_terminal(id)));
        let ghost before = self.shutdowns@;
        self.shutdowns.push(instance.terminal_id);
        assert(terminal_ids(seq![instance]) =~= seq![instance.terminal_id]);
        assert(self.shutdowns@ =~= before + terminal_ids(seq![instance]));
    }

    /// Releases `insts`, one after the other.
    fn release_all(&mut self, insts: Vec<RightPanelInstance>)
        ensures
            released(*old(self), *final(self), insts@),
            same_world(*final(self), *old(self)),
            final(self).state.right_panel == old(self).state.right_panel,
            final(self).render_requested == old(self).render_requested,
    {
        let ghost all = insts@;
        let mut rest = insts;
        let ghost mut k: int = 0;
        assert(all.take(0) =~= Seq::<RightPanelInstance>::empty());
        assert(self.shutdowns@ + terminal_ids(all.take(0)) =~= self.shutdowns@);
        while rest.len() > 0
            invariant
                0 <= k <= all.len(),
                rest@ == all.skip(k),
                released(*old(self), *self, all.take(k)),
                same_world(*self, *old(self)),
                self.state.right_panel == old(self).state.right_panel,
                self.render_requested == old(self).render_requested,
            decreases rest.len(),
        {
            let inst = rest.remove(0);
            proof {
                assert(inst == all[k]);
                assert(all.skip(k).remove(0) =~= all.skip(k + 1));
            }
            let ghost mid = self.state.terminals@;
            self.release_right_panel_instance(inst);
            proof {
                assert(seq![inst].drop_last() =~= Seq::<RightPanelInstance>::empty());
                assert(seq![inst].last() == inst);
                assert(drop_terminals(mid, Seq::<RightPanelInstance>::empty()) == mid);
                assert(self.state.terminals@ == mid.filter(not_terminal(inst.terminal_id@)));
                assert(drop_terminals(old(self).state.terminals@, all.take(k + 1))
                    == drop_terminals(old(self).state.terminals@, all.take(k)).filter(
                    not_terminal(inst.terminal_id@),
                )) by {
                    assert(all.take(k + 1).drop_last() =~= all.take(k));
                    assert(all.take(k + 1).last() == inst);
                }
                assert(all.take(k + 1).drop_last() =~= all.take(k));
                assert(all.take(k + 1).last() == inst);
                assert(terminal_ids(all.take(k + 1)) =~= terminal_ids(all.take(k)).push(
                    inst.terminal_id,
                ));
                assert(self.shutdowns@ =~= old(self).shutdowns@ + terminal_ids(all.take(k + 1)));
                k = k + 1;
            }
        }
        assert(all.take(k) =~= all);
    }

    /// Releases the exited instances of `owner`.
    pub fn release_exited_right_panel_instances(&mut self, owner: PaneId)
        ensures
            released_exited(*old(self), *final(self), owner),
            same_world(*final(self), *old(self)),
            same_settings(final(self).state.right_panel, old(self).state.right_panel),
            final(self).state.right_panel.panes == old(self).state.right_panel.panes,
            final(self).render_requested == old(self).render_requested,
    {
        let exited = self.state.right_panel.take_exited_for(owner);
        self.release_all(exited);
    }

    /// Shows or hides the panel of the focused pane. Showing focuses it;
    /// hiding unfocuses it and drops a pending open.
    pub fn toggle_right_panel(&mut self)
        ensures
            match focused_pane_spec(old(self).state) {
                None => *final(self) == *old(self),
                Some(owner) => {
                    &&& released_exited(*old(self), *final(self), owner)
                    &&& final(self).state.right_panel.panes@ == panes_with(
                        old(self).state.right_panel.panes@,
                        owner,
                        toggled_panel(pane_or_default(old(self).state.right_panel.panes@, owner)),
                    )
                    &&& final(self).render_requested
                },
            },
            same_world(*final(self), *old(self)),
            same_settings(final(self).state.right_panel, old(self).state.right_panel),
    {
        let owner = match self.state.focused_right_panel_owner() {
            Some((_, owner)) => owner,
            None => return,
        };
        self.release_exited_right_panel_instances(owner);
        let pane = self.state.right_panel.pane_mut(owner);
        pane.visible = !pane.visible;
        pane.focused = pane.visible;
        if !pane.visible {
            pane.pending_open = None;
        }
        self.request_right_panel_render();
    }

    /// Shows the panel of the focused pane in `mode`, with keyboard focus.
    pub fn show_right_panel(&mut self, mode: RightPanelMode)
        ensures
            match focused_pane_spec(old(self).state) {
                None => *final(self) == *old(self),
                Some(owner) => {
                    &&& released_exited(*old(self), *final(self), owner)
                    &&& final(self).state.right_panel.panes@ == panes_with(
                        old(self).state.right_panel.panes@,
                        owner,
                        PanePanel {
                            mode,
                            visible: true,
                            focused: true,
                            ..pane_or_default(old(self).state.right_panel.panes@, owner)
                        },
                    )
                    &&& final(self).render_requested
                },
            },
            same_world(*final(self), *old(self)),
            same_settings(final(self).state.right_panel, old(self).state.right_panel),
    {
        let owner = match self.state.focused_right_panel_owner() {
            Some((_, owner)) => owner,
            None => return,
        };
        self.release_exited_right_panel_instances(owner);
        let pane = self.state.right_panel.pane_mut(owner);
        pane.mode = mode;
        pane.visible = true;
        pane.focused = true;
        self.request_right_panel_render();
    }

    /// Steps the panel of the focused pane to the next or previous mode in
    /// header order. A hidden panel is shown with focus; a visible one keeps
    /// its focus as it is.
    pub fn cycle_right_panel(&mut self, direction: RightPanelCycleDirection)
        ensures
            match focused_pane_spec(old(self).state) {
                None => *final(self) == *old(self),
                Some(owner) => {
                    let p = pane_or_default(old(self).state.right_panel.panes@, owner);
                    &&& released_exited(*old(self), *final(self), owner)
                    &&& final(self).state.right_panel.panes@ == panes_with(
                        old(self).state.right_panel.panes@,
                        owner,
                        cycled_panel(p, final(self).state.right_panel.pane_mode(owner)),
                    )
                    &&& final(self).state.right_panel.pane_mode(owner)@ == cycled_spec(
                        known_modes(old(self).state.right_panel.custom_tabs@),
                        p.mode@,
                        direction,
                    )
                    &&& final(self).render_requested
                },
            },
            same_world(*final(self), *old(self)),
            same_settings(final(self).state.right_panel, old(self).state.right_panel),
    {
        let owner = match self.state.focused_right_panel_owner() {
            Some((_, owner)) => owner,
            None => return,
        };
        self.release_exited_right_panel_instances(owner);
        let ghost panes0 = self.state.right_panel.panes@;
        let ghost p0 = pane_or_default(panes0, owner);
        let current = self.state.right_panel.pane_mut(owner).mode.duplicate();
        let ghost panes1 = self.state.right_panel.panes@;
        assert(panes1 == panes_with(panes0, owner, p0));
        let mode = self.state.right_panel.cycled(&current, direction);
        proof {
            crate::panel_state::lemma_panes_with(panes0, owner, p0, cycled_panel(p0, mode));
        }
        let pane = self.state.right_panel.pane_mut(owner);
        pane.mode = mode;
        if !pane.visible {
            pane.visible = true;
            pane.focused = true;
        }
        proof {
            crate::panel_state::lemma_panes_with(
                panes0,
                owner,
                cycled_panel(p0, mode),
                cycled_panel(p0, mode),
            );
        }
        self.request_right_panel_render();
    }
}


impl Workspace {
    /// The slot of `pane` in this workspace.
    #[verifier::loop_isolation(false)]
    pub fn pane_slot(&self, pane: PaneId) -> (r: Option<&PaneSlot>)
        ensures
            match r {
                Some(s) => pane_slot_spec(*self, pane) == Some(*s) && tab_index_from(
                    self.tabs@,
                    pane,
                    0,
                ) is Some,
                None => pane_slot_spec(*self, pane) is None && tab_index_from(self.tabs@, pane, 0) is None,
            },
    {
        let mut t: usize = 0;
        while t < self.tabs.len()
            invariant
                t <= self.tabs.len(),
                tab_index_from(self.tabs@, pane, 0) == tab_index_from(self.tabs@, pane, t as int),
            decreases self.tabs.len() - t,
        {
            let tab = &self.tabs[t];
            let mut k: usize = 0;
            while k < tab.panes.len()
                invariant
                    t < self.tabs.len(),
                    *tab == self.tabs@[t as int],
                    k <= tab.panes.len(),
                    slot_index_from(tab.panes@, pane, 0) == slot_index_from(tab.panes@, pane, k as int),
                decreases tab.panes.len() - k,
            {
                if tab.panes[k].id == pane {
                    assert(slot_index_from(tab.panes@, pane, k as int) == Some(k as int));
                    assert(tab_index_from(self.tabs@, pane, t as int) == Some(t as int));
                    return Some(&tab.panes[k]);
                }
                k = k + 1;
            }
            assert(slot_index_from(tab.panes@, pane, tab.panes@.len() as int) is None);
            t = t + 1;
        }
        None
    }

    /// The terminal that runs in `pane`.
    pub fn terminal_id(&self, pane: PaneId) -> (r: Option<&String>)
        ensures
            match r {
                Some(id) => pane_slot_spec(*self, pane) matches Some(s) && s.terminal_id == *id,
                None => pane_slot_spec(*self, pane) is None,
            },
    {
        match self.pane_slot(pane) {
            Some(slot) => Some(&slot.terminal_id),
            None => None,
        }
    }
}

impl AppState {
    /// The position of terminal `id`.
    pub fn terminal_position(&self, id: &str) -> (r: Option<usize>)
        ensures
            r matches Some(i) ==> i < self.terminals@.len() && terminal_state_index_from(
                self.terminals@,
                id@,
                0,
            ) == Some(i as int),
            r is None ==> terminal_state_index_from(self.terminals@, id@, 0) is None,
    {
        let wanted = chars_of(id);
        let mut i: usize = 0;
        while i < self.terminals.len()
            invariant
                i <= self.terminals.len(),
                wanted@ == id@,
                terminal_state_index_from(self.terminals@, id@, 0) == terminal_state_index_from(
                    self.terminals@,
                    id@,
                    i as int,
                ),
            decreases self.terminals.len() - i,
        {
            let current = chars_of(self.terminals[i].id.as_str());
            if same_chars(&current, &wanted) {
                return Some(i);
            }
            i = i + 1;
        }
        None
    }
}

impl App {
    /// The workspace that holds `pane`.
    pub fn find_pane(&self, pane: PaneId) -> (r: Option<usize>)
        ensures
            r matches Some(w) ==> workspace_index_from(self.state.workspaces@, pane, 0) == Some(
                w as int,
            ) && w < self.state.workspaces@.len(),
            r is None ==> workspace_index_from(self.state.workspaces@, pane, 0) is None,
    {
        let mut w: usize = 0;
        while w < self.state.workspaces.len()
            invariant
                w <= self.state.workspaces.len(),
                workspace_index_from(self.state.workspaces@, pane, 0) == workspace_index_from(
                    self.state.workspaces@,
                    pane,
                    w as int,
                ),
            decreases self.state.workspaces.len() - w,
        {
            if self.state.workspaces[w].pane_slot(pane).is_some() {
                return Some(w);
            }
            w = w + 1;
        }
        None
    }

    /// The agent session that runs in `pane_id` of workspace `ws_idx`.
    #[verifier::loop_isolation(false)]
    pub fn pane_claude_session(&self, ws_idx: usize, pane_id: PaneId) -> (r: Option<&ClaudeSession>)
        ensures
            match r {
                Some(s) => pane_claude_session_spec(*self, ws_idx as int, pane_id) == Some(*s),
                None => pane_claude_session_spec(*self, ws_idx as int, pane_id) is None,
            },
    {
        if ws_idx >= self.state.workspaces.len() {
            return None;
        }
        let terminal_id = match self.state.workspaces[ws_idx].terminal_id(pane_id) {
            Some(id) => id,
            None => return None,
        };
        let ti = match self.state.terminal_position(terminal_id.as_str()) {
            Some(ti) => ti,
            None => return None,
        };
        let session = match &self.state.terminals[ti].agent_session {
            Some(s) => s,
            None => return None,
        };
        match session.agent {
            AgentKind::ClaudeCode => {},
            AgentKind::Other => return None,
        }
        let value = chars_of(session.value.as_str());
        let mut j: usize = 0;
        while j < self.claude_sessions.len()
            invariant
                j <= self.claude_sessions.len(),
                value@ == session.value@,
                session_index_from(self.claude_sessions@, session.value@, 0) == session_index_from(
                    self.claude_sessions@,
                    session.value@,
                    j as int,
                ),
            decreases self.claude_sessions.len() - j,
        {
            let id = chars_of(self.claude_sessions[j].session_id.as_str());
            if same_chars(&id, &value) {
                assert(session_index_from(self.claude_sessions@, session.value@, j as int) == Some(
                    j as int,
                ));
                return Some(&self.claude_sessions[j]);
            }
            j = j + 1;
        }
        None
    }

    /// The worktree of the agent session that runs in `pane_id`.
    pub fn pane_claude_worktree(&self, ws_idx: usize, pane_id: PaneId) -> (r: Option<String>)
        ensures
            r == match pane_claude_session_spec(*self, ws_idx as int, pane_id) {
                Some(s) => s.worktree_path,
                None => None,
            },
    {
        match self.pane_claude_session(ws_idx, pane_id) {
            Some(session) => duplicate_option(&session.worktree_path),
            None => None,
        }
    }

    /// The environment of a panel command of `owner`.
    pub fn right_panel_env(&self, owner: PaneId) -> (r: Vec<(String, String)>)
        ensures
            r@.map_values(|kv: (String, String)| (kv.0@, kv.1@)) == panel_env_spec(*self, owner),
    {
        let mut env: Vec<(String, String)> = Vec::new();
        let ghost base = self.state.command_env@.map_values(|kv: (String, String)| (kv.0@, kv.1@));
        let mut i: usize = 0;
        while i < self.state.command_env.len()
            invariant
                i <= self.state.command_env.len(),
                base == self.state.command_env@.map_values(|kv: (String, String)| (kv.0@, kv.1@)),
                env@.map_values(|kv: (String, String)| (kv.0@, kv.1@)) == base.take(i as int),
            decreases self.state.command_env.len() - i,
        {
            let ghost before = env@;
            env.push((self.state.command_env[i].0.clone(), self.state.command_env[i].1.clone()));
            assert(base.take(i + 1) =~= base.take(i as int).push(base[i as int]));
            assert(env@.map_values(|kv: (String, String)| (kv.0@, kv.1@)) =~= before.map_values(
                |kv: (String, String)| (kv.0@, kv.1@),
            ).push(base[i as int]));
            i = i + 1;
        }
        assert(base.take(self.state.command_env.len() as int) =~= base);
        let located = self.find_pane(owner);
        let ghost before_owner = env@;
        if let Some(w) = located {
            if let Some(slot) = self.state.workspaces[w].pane_slot(owner) {
                env.push((String::from_str("HERDR_PANEL_OWNER_PANE_ID"), slot.public_id.clone()));
            }
        }
        let repos = match located {
            Some(w) => match self.pane_claude_session(w, owner) {
                Some(session) => join_strings_lines(&session.repos),
                None => String::new(),
            },
            None => String::new(),
        };
        env.push((String::from_str("HERDR_SESSION_REPOS"), repos));
        assert(env@.map_values(|kv: (String, String)| (kv.0@, kv.1@)) =~= panel_env_spec(
            *self,
            owner,
        ));
        env
    }

    /// Records the terminal that the host started for a panel of `owner` in
    /// `mode`: `command` runs in `dir` with the panel environment, in a terminal
    /// of at least one row and one column.
    pub fn spawn_right_panel_instance<H: PanelHost>(
        &mut self,
        host: &mut H,
        owner: PaneId,
        mode: RightPanelMode,
        dir: String,
        command: &str,
        rows: u16,
        cols: u16,
    ) -> (r: Result<RightPanelInstance, String>)
        ensures
            same_world(*final(self), *old(self)),
            final(self).state.right_panel == old(self).state.right_panel,
            final(self).shutdowns == old(self).shutdowns,
            final(self).render_requested == old(self).render_requested,
            match r {
                Ok(inst) => {
                    &&& inst.owner == owner
                    &&& inst.mode == mode
                    &&& inst.dir == dir
                    &&& !inst.exited
                    &&& final(self).started@ == old(self).started@.push(inst.terminal_id)
                    &&& final(self).state.terminals@ == old(self).state.terminals@.push(
                        TerminalState { id: inst.terminal_id, dir, agent_session: None },
                    )
                },
                Err(_) => final(self).state.terminals == old(self).state.terminals && final(self).started
                    == old(self).started,
            },
            exists|a: Result<SpawnedTerminal, String>|
                #[trigger] old(host).spawn_answer(
                    dir@,
                    command@,
                    panel_env_spec(*old(self), owner),
                    at_least_one(rows),
                    at_least_one(cols),
                    a,
                ) && match r {
                    Ok(inst) => a matches Ok(t) && inst.pane_id == t.pane_id && inst.terminal_id == t.terminal_id,
                    Err(e) => a == Err::<SpawnedTerminal, String>(e),
                },
    {
        let env = self.right_panel_env(owner);
        let ghost (rows0, cols0) = (rows, cols);
        let rows = if rows == 0 {
            1
        } else {
            rows
        };
        let cols = if cols == 0 {
            1
        } else {
            cols
        };
        assert(rows == at_least_one(rows0) && cols == at_least_one(cols0));
        let answer = host.spawn_shell_command(dir.as_str(), command, &env, rows, cols);
        let ghost a = answer;
        assert(old(host).spawn_answer(dir@, command@, panel_env_spec(*old(self), owner), rows, cols, a));
        let spawned = match answer {
            Ok(s) => s,
            Err(e) => return Err(e),
        };
        let now = host.now_ms();
        self.started.push(spawned.terminal_id.clone());
        self.state.terminals.push(
            TerminalState {
                id: spawned.terminal_id.clone(),
                dir: dir.clone(),
                agent_session: None,
            },
        );
        Ok(
            RightPanelInstance {
                owner,
                mode,
                dir,
                pane_id: spawned.pane_id,
                terminal_id: spawned.terminal_id,
                spawned_at_ms: now,
                exited: false,
            },
        )
    }
}


/// A size of at least one cell.
pub open spec fn at_least_one(n: u16) -> u16 {
    if n == 0 {
        1
    } else {
        n
    }
}

/// Whether `p` is the panel `before` after a request to open `target`: files
/// mode, shown, focused when `focus` (else as before), with the target's
/// directory and open command pending.
pub open spec fn is_opened_panel(
    p: PanePanel,
    before: PanePanel,
    target: OpenTarget,
    template: Seq<char>,
    focus: bool,
) -> bool {
    &&& p.mode == RightPanelMode::Files
    &&& p.visible
    &&& p.focused == (focus || before.focused)
    &&& p.pending_open matches Some(open) && open.dir@ == target_dir_spec(target) && match open.command {
        Some(c) => open_command_spec(template, target) == Some(c@),
        None => open_command_spec(template, target) is None,
    }
}

/// The command that opens a target: for a file, the configured open command
/// with the file and its line; none for a directory.
pub open spec fn open_command_spec(template: Seq<char>, target: OpenTarget) -> Option<Seq<char>> {
    match target {
        OpenTarget::File { path, line } => Some(
            crate::right_panel::render_open_command_spec(template, path@, line),
        ),
        OpenTarget::Dir(_) => None,
    }
}

/// Whether an instance belongs to a pane that still exists.
pub open spec fn owner_exists(state: AppState) -> spec_fn(RightPanelInstance) -> bool {
    |inst: RightPanelInstance| pane_exists_spec(state, inst.owner)
}

/// Whether an instance belongs to a pane that no longer exists.
pub open spec fn owner_gone(state: AppState) -> spec_fn(RightPanelInstance) -> bool {
    |inst: RightPanelInstance| !pane_exists_spec(state, inst.owner)
}

/// Whether a panel belongs to a pane that still exists.
pub open spec fn entry_exists(state: AppState) -> spec_fn(PaneEntry) -> bool {
    |entry: PaneEntry| pane_exists_spec(state, entry.owner)
}

impl App {
    /// Prepares the panel of `owner` (the focused pane when `None`) to open
    /// `target`: files mode, shown, focused only when it is the focused pane.
    /// Returns whether there was a pane to open it in.
    pub fn open_right_panel(&mut self, target: &OpenTarget, owner: Option<PaneId>) -> (r: bool)
        ensures
            same_world(*final(self), *old(self)),
            same_settings(final(self).state.right_panel, old(self).state.right_panel),
            match (match owner {
                Some(o) => Some(o),
                None => focused_pane_spec(old(self).state),
            }) {
                None => !r && *final(self) == *old(self),
                Some(o) => {
                    let p = pane_or_default(final(self).state.right_panel.panes@, o);
                    &&& r
                    &&& released_exited(*old(self), *final(self), o)
                    &&& final(self).state.right_panel.panes@ == panes_with(
                        old(self).state.right_panel.panes@,
                        o,
                        p,
                    )
                    &&& is_opened_panel(
                        p,
                        pane_or_default(old(self).state.right_panel.panes@, o),
                        *target,
                        old(self).state.right_panel.open_command@,
                        focused_pane_spec(old(self).state) == Some(o),
                    )
                    &&& final(self).render_requested
                },
            },
    {
        let focused = match self.state.focused_right_panel_owner() {
            Some((_, pane)) => Some(pane),
            None => None,
        };
        let owner = match owner {
            Some(o) => o,
            None => match focused {
                Some(f) => f,
                None => return false,
            },
        };
        let command = match target {
            OpenTarget::File { path, line } => Some(
                render_open_command(
                    self.state.right_panel.open_command.as_str(),
                    path.as_str(),
                    *line,
                ),
            ),
            OpenTarget::Dir(_) => None,
        };
        let dir = target.dir();
        self.release_exited_right_panel_instances(owner);
        let ghost panes0 = self.state.right_panel.panes@;
        let focus = match focused {
            Some(f) => f == owner,
            None => false,
        };
        let pane = self.state.right_panel.pane_mut(owner);
        proof {
            crate::panel_state::lemma_panes_with(panes0, owner, *final(pane), *final(pane));
        }
        pane.pending_open = Some(PendingOpen { dir, command });
        pane.mode = RightPanelMode::Files;
        pane.visible = true;
        pane.focused = focus || pane.focused;
        self.request_right_panel_render();
        true
    }

    /// Takes a new panel width and configuration, releasing the instances of
    /// modes that are gone.
    pub fn apply_right_panel_config(&mut self, width: PopupSize, config: &RightPanelConfig)
        ensures
            same_world(*final(self), *old(self)),
            final(self).state.right_panel.width == width,
            final(self).state.right_panel.manual_width == old(self).state.right_panel.manual_width,
            final(self).state.right_panel.custom_tabs@ == config.tabs@,
            final(self).state.right_panel.open_command@ == config.open_command@,
            final(self).state.right_panel.files_command@ == config.files_command@,
            final(self).state.right_panel.panes@ == old(self).state.right_panel.panes@.map_values(
                |e: PaneEntry| reconfigured_entry(e, known_modes(config.tabs@)),
            ),
            final(self).state.right_panel.instances@ == old(self).state.right_panel.instances@.filter(
                mode_is_known(known_modes(config.tabs@)),
            ),
            released(
                *old(self),
                *final(self),
                old(self).state.right_panel.instances@.filter(
                    mode_is_unknown(known_modes(config.tabs@)),
                ),
            ),
            final(self).render_requested,
    {
        let removed = self.state.right_panel.apply_config(width, config);
        self.release_all(removed);
        self.request_right_panel_render();
    }

    /// Sets the width dragged by hand (`None` returns to the configured width),
    /// asking for a redraw when it changes.
    pub fn set_right_panel_width(&mut self, width: Option<u16>)
        ensures
            final(self).state.right_panel == (RightPanelState {
                manual_width: width,
                ..old(self).state.right_panel
            }),
            final(self).render_requested == (old(self).render_requested
                || old(self).state.right_panel.manual_width != width),
            same_world(*final(self), *old(self)),
            final(self).state.terminals == old(self).state.terminals,
            final(self).shutdowns == old(self).shutdowns,
    {
        if self.state.right_panel.manual_width != width {
            self.state.right_panel.manual_width = width;
            self.request_right_panel_render();
        }
    }

    /// Gives keyboard focus to the panel terminal `terminal_id`, when it is
    /// the terminal that the focused pane's panel shows. Returns whether it is.
    pub fn focus_right_panel(&mut self, terminal_id: &str) -> (r: bool)
        ensures
            same_world(*final(self), *old(self)),
            final(self).state.terminals == old(self).state.terminals,
            final(self).shutdowns == old(self).shutdowns,
            same_settings(final(self).state.right_panel, old(self).state.right_panel),
            final(self).state.right_panel.instances == old(self).state.right_panel.instances,
            r == (terminal_index_from(old(self).state.right_panel.instances@, terminal_id@, 0) matches Some(
                i,
            ) && displayed_index(
                old(self).state.right_panel,
                old(self).state.right_panel.instances@[i].owner,
            ) matches Some(j) && old(self).state.right_panel.instances@[j].terminal_id@
                == terminal_id@ && focused_pane_spec(old(self).state) == Some(
                old(self).state.right_panel.instances@[i].owner,
            )),
            r ==> {
                let owner = old(self).state.right_panel.instances@[terminal_index_from(
                    old(self).state.right_panel.instances@,
                    terminal_id@,
                    0,
                ).unwrap()].owner;
                let p = pane_or_default(old(self).state.right_panel.panes@, owner);
                &&& final(self).state.right_panel.panes@ == panes_with(
                    old(self).state.right_panel.panes@,
                    owner,
                    PanePanel { focused: true, ..p },
                )
                &&& final(self).render_requested == (old(self).render_requested || !p.focused)
            },
            !r ==> *final(self) == *old(self),
    {
        let owner = match self.state.right_panel.owns_terminal(terminal_id) {
            Some(inst) => inst.owner,
            None => return false,
        };
        let shown = match self.state.right_panel.displayed(owner) {
            Some(inst) => same_text(inst.terminal_id.as_str(), terminal_id),
            None => false,
        };
        let focused_owner = match self.state.focused_right_panel_owner() {
            Some((_, pane)) => Some(pane),
            None => None,
        };
        if !shown || focused_owner != Some(owner) {
            return false;
        }
        let ghost panes0 = self.state.right_panel.panes@;
        let pane = self.state.right_panel.pane_mut(owner);
        let was_focused = pane.focused;
        if !pane.focused {
            pane.focused = true;
        }
        if !was_focused {
            self.request_right_panel_render();
        }
        proof {
            let p = pane_or_default(panes0, owner);
            assert(pane_of(panes0, owner) is Some);
            crate::panel_state::lemma_panes_with(panes0, owner, p, PanePanel { focused: true, ..p });
            if p.focused {
                assert(PanePanel { focused: true, ..p } == p);
            }
        }
        true
    }

    /// Takes keyboard focus away from the focused pane's panel.
    pub fn blur_right_panel(&mut self)
        ensures
            same_world(*final(self), *old(self)),
            final(self).state.terminals == old(self).state.terminals,
            final(self).shutdowns == old(self).shutdowns,
            same_settings(final(self).state.right_panel, old(self).state.right_panel),
            final(self).state.right_panel.instances == old(self).state.right_panel.instances,
            match focused_pane_spec(old(self).state) {
                Some(owner) => match pane_of(old(self).state.right_panel.panes@, owner) {
                    Some(p) if p.focused => {
                        &&& final(self).state.right_panel.panes@ == panes_with(
                            old(self).state.right_panel.panes@,
                            owner,
                            PanePanel { focused: false, ..p },
                        )
                        &&& final(self).render_requested
                    },
                    _ => *final(self) == *old(self),
                },
                None => *final(self) == *old(self),
            },
    {
        let owner = match self.state.focused_right_panel_owner() {
            Some((_, owner)) => owner,
            None => return,
        };
        let focused = match self.state.right_panel.pane(owner) {
            Some(p) => p.focused,
            None => return,
        };
        if focused {
            let pane = self.state.right_panel.pane_mut(owner);
            pane.focused = false;
            self.request_right_panel_render();
        }
    }

    /// The terminal behind the public id of a panel terminal, when it is one of
    /// the panel's instances and the host started it (it has a runtime).
    pub fn right_panel_runtime(&self, public_id: &str) -> (r: Option<String>)
        ensures
            match r {
                Some(id) => has_prefix(public_id@, public_id_prefix()) && (terminal_index_from(
                    self.state.right_panel.instances@,
                    public_id@.skip(public_id_prefix().len() as int),
                    0,
                ) matches Some(i) && id@ == self.state.right_panel.instances@[i].terminal_id@)
                    && exists|j: int| 0 <= j < self.started@.len() && self.started@[j]@ == id@,
                None => !has_prefix(public_id@, public_id_prefix()) || (terminal_index_from(
                    self.state.right_panel.instances@,
                    public_id@.skip(public_id_prefix().len() as int),
                    0,
                ) matches Some(i) ==> !exists|j: int|
                    0 <= j < self.started@.len() && self.started@[j]@
                        == self.state.right_panel.instances@[i].terminal_id@),
            },
    {
        let terminal_id = match parse_public_id(public_id) {
            Some(id) => id,
            None => return None,
        };
        match self.state.right_panel.owns_terminal(terminal_id.as_str()) {
            Some(inst) => {
                let mut found = false;
                let mut j: usize = 0;
                while j < self.started.len() && !found
                    invariant
                        j <= self.started@.len(),
                        found ==> exists|q: int| 0 <= q < self.started@.len() && self.started@[q]@ == inst.terminal_id@,
                        !found ==> forall|q: int| 0 <= q < j ==> self.started@[q]@ != inst.terminal_id@,
                    decreases self.started@.len() - j,
                {
                    if same_text(self.started[j].as_str(), inst.terminal_id.as_str()) {
                        found = true;
                    }
                    j = j + 1;
                }
                if found {
                    Some(inst.terminal_id.clone())
                } else {
                    None
                }
            },
            None => None,
        }
    }

    /// Handles the death of panel pane `pane_id` at `now_ms`: see
    /// [`RightPanelState::command_exited`]; a released instance is released.
    /// Returns whether the pane was a panel terminal.
    pub fn right_panel_pane_died(&mut self, pane_id: PaneId, now_ms: u64) -> (r: bool)
        ensures
            same_world(*final(self), *old(self)),
            same_settings(final(self).state.right_panel, old(self).state.right_panel),
            r == (crate::panel_state::pane_instance_index_from(
                old(self).state.right_panel.instances@,
                pane_id,
                0,
            ) is Some),
            !r ==> *final(self) == *old(self),
            r ==> final(self).render_requested,
            r ==> match crate::panel_state::pane_instance_index_from(
                old(self).state.right_panel.instances@,
                pane_id,
                0,
            ) {
                Some(i) => {
                    let inst = old(self).state.right_panel.instances@[i];
                    if crate::panel_state::shows_mode(
                        old(self).state.right_panel.panes@,
                        inst.owner,
                        inst.mode@,
                    ) && crate::panel_state::failed_start(inst.spawned_at_ms, now_ms) {
                        &&& final(self).state.terminals == old(self).state.terminals
                        &&& final(self).shutdowns == old(self).shutdowns
                        &&& final(self).state.right_panel.instances@
                            == old(self).state.right_panel.instances@.update(
                            i,
                            RightPanelInstance { exited: true, ..inst },
                        )
                        &&& final(self).state.right_panel.panes == old(self).state.right_panel.panes
                    } else {
                        &&& released(*old(self), *final(self), seq![inst])
                        &&& final(self).state.right_panel.instances@
                            == old(self).state.right_panel.instances@.remove(i)
                        &&& final(self).state.right_panel.panes@ == if crate::panel_state::shows_mode(
                            old(self).state.right_panel.panes@,
                            inst.owner,
                            inst.mode@,
                        ) {
                            panes_with(
                                old(self).state.right_panel.panes@,
                                inst.owner,
                                PanePanel {
                                    visible: false,
                                    focused: false,
                                    ..pane_or_default(old(self).state.right_panel.panes@, inst.owner)
                                },
                            )
                        } else {
                            old(self).state.right_panel.panes@
                        }
                    }
                },
                None => true,
            },
    {
        let exit = match self.state.right_panel.command_exited(pane_id, now_ms) {
            Some(exit) => exit,
            None => return false,
        };
        if let crate::panel_state::PanelExit::Released(instance) = exit {
            self.release_right_panel_instance(instance);
        }
        self.request_right_panel_render();
        true
    }

    /// Forgets the panel of `owner` and releases all its instances, asking for
    /// a redraw when there were any.
    pub fn release_right_panel_owner(&mut self, owner: PaneId)
        ensures
            same_world(*final(self), *old(self)),
            same_settings(final(self).state.right_panel, old(self).state.right_panel),
            final(self).state.right_panel.panes@ == old(self).state.right_panel.panes@.filter(
                crate::panel_state::entry_not_of(owner),
            ),
            final(self).state.right_panel.instances@ == old(
                self,
            ).state.right_panel.instances@.filter(crate::panel_state::not_owned_by(owner)),
            released(
                *old(self),
                *final(self),
                old(self).state.right_panel.instances@.filter(crate::panel_state::owned_by(owner)),
            ),
            final(self).render_requested == (old(self).render_requested || old(
                self,
            ).state.right_panel.instances@.filter(crate::panel_state::owned_by(owner)).len() > 0),
    {
        let removed = self.state.right_panel.remove_owner(owner);
        let changed = removed.len() > 0;
        self.release_all(removed);
        if changed {
            self.request_right_panel_render();
        }
    }

    /// Forgets the panels and releases the instances of panes that no longer
    /// exist.
    #[verifier::loop_isolation(false)]
    #[verifier::rlimit(40)]
    pub fn prune_right_panel_owners(&mut self)
        ensures
            same_world(*final(self), *old(self)),
            same_settings(final(self).state.right_panel, old(self).state.right_panel),
            final(self).state.right_panel.panes@ == old(self).state.right_panel.panes@.filter(
                entry_exists(old(self).state),
            ),
            final(self).state.right_panel.instances@ == old(
                self,
            ).state.right_panel.instances@.filter(owner_exists(old(self).state)),
            released(
                *old(self),
                *final(self),
                old(self).state.right_panel.instances@.filter(owner_gone(old(self).state)),
            ),
            final(self).render_requested == (old(self).render_requested || old(
                self,
            ).state.right_panel.instances@.filter(owner_gone(old(self).state)).len() > 0),
    {
        reveal(Seq::filter);
        let ghost st = self.state;
        let mut panes: Vec<PaneEntry> = Vec::new();
        std::mem::swap(&mut panes, &mut self.state.right_panel.panes);
        let ghost orig_panes = panes@;
        let mut kept_panes: Vec<PaneEntry> = Vec::new();
        let ghost mut n: int = 0;
        assert(orig_panes.take(0) =~= Seq::<PaneEntry>::empty());
        while panes.len() > 0
            invariant
                0 <= n <= orig_panes.len(),
                panes@ == orig_panes.skip(n),
                kept_panes@ == orig_panes.take(n).filter(entry_exists(st)),
                self.state.workspaces == st.workspaces,
            decreases panes.len(),
        {
            let entry = panes.remove(0);
            proof {
                assert(entry == orig_panes[n]);
                lemma_filter_step(orig_panes, n, entry_exists(st));
                assert(orig_panes.skip(n).remove(0) =~= orig_panes.skip(n + 1));
            }
            if self.state.pane_exists(entry.owner) {
                kept_panes.push(entry);
            }
            proof {
                n = n + 1;
            }
        }
        assert(orig_panes.take(n) =~= orig_panes);
        self.state.right_panel.panes = kept_panes;
        let mut rest: Vec<RightPanelInstance> = Vec::new();
        std::mem::swap(&mut rest, &mut self.state.right_panel.instances);
        let ghost orig = rest@;
        let mut kept: Vec<RightPanelInstance> = Vec::new();
        let mut gone: Vec<RightPanelInstance> = Vec::new();
        let ghost mut k: int = 0;
        assert(orig.take(0) =~= Seq::<RightPanelInstance>::empty());
        while rest.len() > 0
            invariant
                0 <= k <= orig.len(),
                rest@ == orig.skip(k),
                kept@ == orig.take(k).filter(owner_exists(st)),
                gone@ == orig.take(k).filter(owner_gone(st)),
                self.state.workspaces == st.workspaces,
            decreases rest.len(),
        {
            let inst = rest.remove(0);
            proof {
                assert(inst == orig[k]);
                lemma_filter_step(orig, k, owner_exists(st));
                lemma_filter_step(orig, k, owner_gone(st));
                assert(orig.skip(k).remove(0) =~= orig.skip(k + 1));
            }
            if self.state.pane_exists(inst.owner) {
                kept.push(inst);
            } else {
                gone.push(inst);
            }
            proof {
                k = k + 1;
            }
        }
        assert(orig.take(k) =~= orig);
        self.state.right_panel.instances = kept;
        let changed = gone.len() > 0;
        self.release_all(gone);
        if changed {
            self.request_right_panel_render();
        }
    }
}

/// Whether two strings hold the same text.
pub fn same_text(a: &str, b: &str) -> (r: bool)
    ensures
        r == (a@ == b@),
{
    let a = chars_of(a);
    let b = chars_of(b);
    same_chars(&a, &b)
}

/// Lines joined with a newline between them.
pub fn join_strings_lines(lines: &Vec<String>) -> (r: String)
    ensures
        r@ == join_lines(lines@.map_values(|s: String| s@)),
{
    let ghost views = lines@.map_values(|s: String| s@);
    let mut out: Vec<char> = Vec::new();
    let mut i: usize = 0;
    while i < lines.len()
        invariant
            i <= lines.len(),
            views == lines@.map_values(|s: String| s@),
            out@ == join_lines(views.take(i as int)),
        decreases lines.len() - i,
    {
        if i > 0 {
            out.push('\n');
        }
        let line = chars_of(lines[i].as_str());
        extend_chars(&mut out, &line);
        assert(views.take(i + 1).drop_last() =~= views.take(i as int));
        assert(views.take(i + 1).last() == views[i as int]);
        proof {
            if i == 0 {
                assert(views.take(1) =~= seq![views[0]]);
                assert(out@ =~= Seq::<char>::empty() + views[0]);
            }
        }
        i = i + 1;
    }
    assert(views.take(lines.len() as int) =~= views);
    string_of(&out)
}

impl RightPanelState {
    /// The mode of the panel of `owner` (files mode when it has none).
    pub open spec fn pane_mode(self, owner: PaneId) -> RightPanelMode {
        pane_or_default(self.panes@, owner).mode
    }
}

/// The working directory of a pane: that of its foreground process, else
/// that of its shell.
pub open spec fn pane_cwd_spec(app: App, target: Option<(usize, PaneId)>) -> Option<Seq<char>> {
    match target {
        Some((ws_idx, pane)) => if ws_idx < app.state.workspaces@.len() {
            match pane_slot_spec(app.state.workspaces@[ws_idx as int], pane) {
                Some(slot) => match slot.foreground_cwd {
                    Some(c) => Some(c@),
                    None => crate::split::opt_view(slot.cwd),
                },
                None => None,
            }
        } else {
            None
        },
        None => None,
    }
}

/// The worktree of the agent session that runs in a pane.
pub open spec fn pane_worktree_spec(app: App, target: Option<(usize, PaneId)>) -> Option<Seq<char>> {
    match target {
        Some((ws_idx, pane)) => match pane_claude_session_spec(app, ws_idx as int, pane) {
            Some(session) => crate::split::opt_view(session.worktree_path),
            None => None,
        },
        None => None,
    }
}

/// The panel of `owner` hidden and unfocused, the rest as it was.
pub open spec fn hidden_panel(p: PanePanel) -> PanePanel {
    PanePanel { visible: false, focused: false, ..p }
}

/// `new` is `old` after starting a panel terminal for `owner` in `mode` in
/// `dir`: either it started, and is now the last (most recently shown)
/// instance, evicted instances released; or it did not, and the panel of
/// `owner` is hidden and unfocused.
pub open spec fn started_or_hidden(old: App, new: App, owner: PaneId, mode: RightPanelMode, dir: Seq<char>) -> bool {
    ||| {
        &&& new.state.right_panel.instances@.len() > 0
        &&& new.state.right_panel.instances@.last().owner == owner
        &&& new.state.right_panel.instances@.last().mode == mode
        &&& new.state.right_panel.instances@.last().dir@ == dir
        &&& !new.state.right_panel.instances@.last().exited
        &&& new.state.right_panel.panes == old.state.right_panel.panes
    }
    ||| {
        &&& new.state.right_panel.instances == old.state.right_panel.instances
        &&& new.state.right_panel.panes@ == panes_with(
            old.state.right_panel.panes@,
            owner,
            hidden_panel(pane_or_default(old.state.right_panel.panes@, owner)),
        )
        &&& new.shutdowns == old.shutdowns
        &&& new.state.terminals == old.state.terminals
    }
}

/// `new` is `old` after forgetting the panels and releasing the instances
/// of panes that no longer exist (see `App::prune_right_panel_owners`).
pub open spec fn pruned(old: App, new: App) -> bool {
    &&& same_world(new, old)
    &&& same_settings(new.state.right_panel, old.state.right_panel)
    &&& new.state.right_panel.panes@ == old.state.right_panel.panes@.filter(entry_exists(old.state))
    &&& new.state.right_panel.instances@ == old.state.right_panel.instances@.filter(owner_exists(old.state))
    &&& released(old, new, old.state.right_panel.instances@.filter(owner_gone(old.state)))
    &&& new.render_requested == (old.render_requested || old.state.right_panel.instances@.filter(
        owner_gone(old.state),
    ).len() > 0)
}

/// `new` differs from `old` at most in the panel state.
pub open spec fn panel_only(old: App, new: App) -> bool {
    new == (App { state: AppState { right_panel: new.state.right_panel, ..old.state }, ..old })
}

/// The mode a panel shows: its own, or files when its own has no command.
pub open spec fn shown_mode(rp: RightPanelState, mode: RightPanelMode) -> RightPanelMode {
    if command_spec(rp, mode@) is None {
        RightPanelMode::Files
    } else {
        mode
    }
}

/// What showing the current instance of `owner` does: nothing when the
/// owner has no panel; else a mode without a command falls back to files,
/// and the owner's instance for the mode is moved to the most recently
/// shown, or, when it has none, one is started (see `started_or_hidden`).
pub open spec fn current_shown(old: App, new: App, owner: PaneId) -> bool {
    let rp = old.state.right_panel;
    match pane_of(rp.panes@, owner) {
        None => new == old,
        Some(p) => {
            let mode = shown_mode(rp, p.mode);
            let panes = if command_spec(rp, p.mode@) is None {
                panes_with(rp.panes@, owner, PanePanel { mode: RightPanelMode::Files, ..p })
            } else {
                rp.panes@
            };
            match instance_index(rp.instances@, owner, mode@) {
                Some(i) => {
                    &&& panel_only(old, new)
                    &&& same_settings(new.state.right_panel, rp)
                    &&& new.state.right_panel.panes@ == panes
                    &&& new.state.right_panel.instances@ == rp.instances@.remove(i).push(rp.instances@[i])
                },
                None => exists|mid: App, dir: Seq<char>|
                    panel_only(old, mid) && same_settings(mid.state.right_panel, rp)
                        && mid.state.right_panel.panes@ == panes && mid.state.right_panel.instances
                        == rp.instances && started_or_hidden(mid, new, owner, mode, dir),
            }
        },
    }
}

/// What acting on an open request does: when it names no command and the
/// owner's files instance is live in its directory, that instance is shown
/// (see `current_shown`); else the owner's files instance, if any, is
/// released and a files instance is started in the request's directory.
pub open spec fn open_applied(old: App, new: App, owner: PaneId, open: PendingOpen) -> bool {
    let rp = old.state.right_panel;
    let files = instance_index(rp.instances@, owner, ModeView::Files);
    let reusable = open.command is None && match files {
        Some(i) => !rp.instances@[i].exited && rp.instances@[i].dir@ == open.dir@,
        None => false,
    };
    if reusable {
        current_shown(old, new, owner)
    } else {
        match files {
            Some(i) => exists|mid: App|
                same_world(mid, old) && mid.render_requested == old.render_requested && same_settings(
                    mid.state.right_panel,
                    rp,
                ) && mid.state.right_panel.panes == rp.panes && mid.state.right_panel.instances@
                    == rp.instances@.remove(i) && released(old, mid, seq![rp.instances@[i]])
                    && started_or_hidden(mid, new, owner, RightPanelMode::Files, open.dir@),
            None => started_or_hidden(old, new, owner, RightPanelMode::Files, open.dir@),
        }
    }
}

/// The focused pane of the tab that `target` names.
pub open spec fn tab_owner(state: AppState, target: TabSurfaceTarget) -> Option<PaneId> {
    if target.workspace_index < state.workspaces@.len() && target.tab_index
        < state.workspaces@[target.workspace_index as int].tabs@.len() {
        Some(state.workspaces@[target.workspace_index as int].tabs@[target.tab_index as int].focused)
    } else {
        None
    }
}

/// What bringing the panel of a drawn tab up to date does: panes that are
/// gone are pruned (see `pruned`); then, when the tab's owner has a visible
/// panel, its pending open request is taken and acted on (see
/// `open_applied`), or, without one, its current instance is shown (see
/// `current_shown`).
pub open spec fn synced(old: App, new: App, target: TabSurfaceTarget) -> bool {
    exists|p: App|
        pruned(old, p) && match tab_owner(p.state, target) {
            Some(owner) => match pane_of(p.state.right_panel.panes@, owner) {
                Some(pp) => if pp.visible {
                    exists|mid: App|
                        panel_only(p, mid) && same_settings(mid.state.right_panel, p.state.right_panel)
                            && mid.state.right_panel.instances == p.state.right_panel.instances
                            && mid.state.right_panel.panes@ == panes_with(
                            p.state.right_panel.panes@,
                            owner,
                            PanePanel { pending_open: None, ..pp },
                        ) && match pp.pending_open {
                            Some(open) => open_applied(mid, new, owner, open),
                            None => current_shown(mid, new, owner),
                        }
                } else {
                    new == p
                },
                None => new == p,
            },
            None => new == p,
        }
}

impl App {
    /// The directory a panel terminal of a pane starts in: the worktree of
    /// the pane's agent session when it is a directory, else the pane's
    /// working directory, else the home directory (see
    /// [`crate::right_panel::resolve_dir`]).
    pub fn right_panel_dir<H: PanelHost>(&self, host: &H, target: Option<(usize, PaneId)>) -> (r: String)
        ensures
            exists|worktree_is_dir: bool|
                r@ == crate::right_panel::resolve_dir_spec(
                    pane_worktree_spec(*self, target),
                    worktree_is_dir,
                    pane_cwd_spec(*self, target),
                    crate::split::opt_view(self.home),
                ) && match pane_worktree_spec(*self, target) {
                    Some(w) => host.dir_answer(w, worktree_is_dir),
                    None => !worktree_is_dir,
                },
    {
        let worktree: Option<String> = match target {
            Some((ws_idx, pane_id)) => self.pane_claude_worktree(ws_idx, pane_id),
            None => None,
        };
        let pane_cwd: Option<String> = match target {
            Some((ws_idx, pane_id)) => {
                if ws_idx < self.state.workspaces.len() {
                    match self.state.workspaces[ws_idx].pane_slot(pane_id) {
                        Some(slot) => match &slot.foreground_cwd {
                            Some(c) => Some(c.clone()),
                            None => duplicate_option(&slot.cwd),
                        },
                        None => None,
                    }
                } else {
                    None
                }
            },
            None => None,
        };
        let worktree_is_dir = match &worktree {
            Some(w) => host.is_dir(w.as_str()),
            None => false,
        };
        let worktree_str: Option<&str> = match &worktree {
            Some(w) => Some(w.as_str()),
            None => None,
        };
        resolve_dir(worktree_str, worktree_is_dir, pane_cwd, duplicate_option(&self.home))
    }

    /// Starts a panel terminal for `owner` in `mode`, in `dir`, running
    /// `command`, sized to the content of `panel`; it becomes the most recently
    /// shown instance and the least recently shown ones past the limit are
    /// released. When it cannot start, the owner's panel is hidden.
    pub fn start_right_panel_instance<H: PanelHost>(
        &mut self,
        host: &mut H,
        owner: PaneId,
        mode: RightPanelMode,
        dir: String,
        command: String,
        panel: Rect,
    )
        ensures
            same_world(*final(self), *old(self)),
            same_settings(final(self).state.right_panel, old(self).state.right_panel),
            started_or_hidden(*old(self), *final(self), owner, mode, dir@),
    {
        let content = content_rect(panel);
        let ghost dir_view = dir@;
        match self.spawn_right_panel_instance(host, owner, mode, dir, command.as_str(), content.height, content.width) {
            Ok(instance) => {
                self.state.right_panel.instances.push(instance);
                let last = self.state.right_panel.instances.len() - 1;
                let ghost pushed = self.state.right_panel.instances@;
                let shown = self.state.right_panel.touch(last);
                let ghost touched = self.state.right_panel.instances@;
                proof {
                    assert(pushed.remove(last as int) =~= pushed.drop_last());
                    assert(touched.last() == pushed[last as int]);
                }
                let mut protect: Vec<String> = Vec::new();
                protect.push(shown);
                let ghost pv = protect@.map_values(|s: String| s@);
                proof {
                    assert(pv[0] == touched.last().terminal_id@);
                    assert(crate::panel_state::is_protected(touched.last(), pv));
                    crate::panel_state::eviction_keeps_protected(touched, MAX_INSTANCES as int, pv);
                }
                let evicted = self.state.right_panel.evict_over(MAX_INSTANCES, protect.as_slice());
                self.release_all(evicted);
            },
            Err(_) => {
                let ghost panes0 = self.state.right_panel.panes@;
                let pane = self.state.right_panel.pane_mut(owner);
                proof {
                    crate::panel_state::lemma_panes_with(panes0, owner, *final(pane), *final(pane));
                }
                pane.visible = false;
                pane.focused = false;
            },
        }
    }

    /// Acts on a pending open request of `owner`: a directory already shown
    /// by a live files instance in that directory is just shown again; else
    /// the owner's files instance is replaced by one that runs the request's
    /// command (the files command for a directory) in its directory.
    pub fn apply_right_panel_open<H: PanelHost>(
        &mut self,
        host: &mut H,
        target: TabSurfaceTarget,
        owner: PaneId,
        open: PendingOpen,
        panel: Rect,
    )
        ensures
            same_world(*final(self), *old(self)),
            same_settings(final(self).state.right_panel, old(self).state.right_panel),
            open_applied(*old(self), *final(self), owner, open),
    {
        let ghost before = *self;
        let reusable = open.command.is_none() && match self.state.right_panel.instance_for(owner, &RightPanelMode::Files) {
            Some(i) => {
                let inst = &self.state.right_panel.instances[i];
                !inst.exited && same_text(inst.dir.as_str(), open.dir.as_str())
            },
            None => false,
        };
        let ghost rp = before.state.right_panel;
        let ghost files = instance_index(rp.instances@, owner, ModeView::Files);
        assert(reusable == (open.command is None && match files {
            Some(i) => !rp.instances@[i].exited && rp.instances@[i].dir@ == open.dir@,
            None => false,
        }));
        if reusable {
            self.show_current_instance(host, owner, panel, Some(target.workspace_index));
            return;
        }
        let ghost dv = open.dir@;
        let taken = self.state.right_panel.take_instance(owner, &RightPanelMode::Files);
        let ghost t = *self;
        if let Some(replaced) = taken {
            self.release_right_panel_instance(replaced);
        }
        let ghost mid = *self;
        assert(files is None ==> mid == before);
        assert(files matches Some(i) ==> (same_world(mid, before) && mid.render_requested == before.render_requested
            && same_settings(mid.state.right_panel, rp) && mid.state.right_panel.panes == rp.panes
            && mid.state.right_panel.instances@ == rp.instances@.remove(i) && released(before, mid, seq![rp.instances@[i]])));
        let command = match open.command {
            Some(c) => c,
            None => self.state.right_panel.files_command.clone(),
        };
        self.start_right_panel_instance(host, owner, RightPanelMode::Files, open.dir, command, panel);
        assert(started_or_hidden(mid, *self, owner, RightPanelMode::Files, dv));
    }

    /// Shows the owner's instance for its panel's mode, starting one when it
    /// has none; a mode without a command falls back to files. `ws_idx`
    /// names the owner's workspace, for the directory of a new instance.
    fn show_current_instance<H: PanelHost>(
        &mut self,
        host: &mut H,
        owner: PaneId,
        panel: Rect,
        ws_idx: Option<usize>,
    )
        ensures
            same_world(*final(self), *old(self)),
            same_settings(final(self).state.right_panel, old(self).state.right_panel),
            current_shown(*old(self), *final(self), owner),
    {
        let ghost before = *self;
        let mut mode = match self.state.right_panel.pane(owner) {
            Some(p) => p.mode.duplicate(),
            None => return,
        };
        let ghost p = pane_of(before.state.right_panel.panes@, owner)->0;
        if self.state.right_panel.command(&mode).is_none() {
            let pane = self.state.right_panel.pane_mut(owner);
            pane.mode = RightPanelMode::Files;
            mode = RightPanelMode::Files;
        }
        let ghost mid = *self;
        assert(mode == shown_mode(before.state.right_panel, p.mode));
        assert(panel_only(before, mid));
        if let Some(index) = self.state.right_panel.instance_for(owner, &mode) {
            self.state.right_panel.touch(index);
            assert(panel_only(before, *self));
            return;
        }
        let command = match self.state.right_panel.command(&mode) {
            Some(c) => c,
            None => return,
        };
        let target = match ws_idx {
            Some(w) => Some((w, owner)),
            None => None,
        };
        let dir = self.right_panel_dir(&*host, target);
        let ghost dv = dir@;
        self.start_right_panel_instance(host, owner, mode, dir, command, panel);
        assert(started_or_hidden(mid, *self, owner, mode, dv));
    }

    /// Brings the panel of a drawn tab up to date: forgets panes that are
    /// gone; for the tab's owner, when its panel is shown, acts on a pending
    /// open request, or shows (and if need be starts) its instance for the
    /// panel's mode.
    pub fn sync_right_panel<H: PanelHost>(&mut self, host: &mut H, target: TabSurfaceTarget, panel: Rect)
        ensures
            same_world(*final(self), *old(self)),
            same_settings(final(self).state.right_panel, old(self).state.right_panel),
            synced(*old(self), *final(self), target),
    {
        self.prune_right_panel_owners();
        let ghost p = *self;
        assert(pruned(*old(self), p));
        let owner = match self.state.right_panel_owner(target) {
            Some(o) => o,
            None => return,
        };
        let visible = match self.state.right_panel.pane(owner) {
            Some(p) => p.visible,
            None => false,
        };
        if !visible {
            return;
        }
        let pending = {
            let pane = self.state.right_panel.pane_mut(owner);
            let taken = pane.pending_open.take();
            taken
        };
        let ghost mid = *self;
        assert(panel_only(p, mid));
        if let Some(open) = pending {
            self.apply_right_panel_open(host, target, owner, open, panel);
            return;
        }
        self.show_current_instance(host, owner, panel, Some(target.workspace_index));
    }
}

} // verus!
