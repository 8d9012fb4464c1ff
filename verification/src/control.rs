//! The event-driven controller: cached host state, one handler per host
//! event, and the redraw step.  Every handler returns a redraw flag and the
//! effects it asks of the host (arm a tick, broadcast, switch workspace);
//! it never performs them.

use vstd::prelude::*;

use crate::LinePart;
use crate::alerts::AlertTracker;
use crate::alerts::TabAlert;
use crate::alerts::flipped;
use crate::codec::decode_alerts;
use crate::codec::decode_spec;
use crate::codec::encode_alerts;
use crate::codec::encode_spec;
use crate::line::prefix_parts_spec;
use crate::style::Color;
use crate::style::Palette;
use crate::style::ThemeHue;

verus! {

/// One workspace descriptor from the host's snapshot.
pub struct Tab {
    /// Stable 0-based position; 1-based in every display.
    pub position: usize,
    pub name: String,
    pub active: bool,
    pub is_swap_layout_dirty: bool,
    pub active_swap_layout_name: Option<String>,
}

/// The mathematical value of a workspace descriptor.
pub struct TabV {
    pub position: usize,
    pub name: Seq<char>,
    pub active: bool,
    pub is_swap_layout_dirty: bool,
    pub active_swap_layout_name: Option<Seq<char>>,
}

impl View for Tab {
    type V = TabV;

    open spec fn view(&self) -> TabV {
        TabV {
            position: self.position,
            name: self.name@,
            active: self.active,
            is_swap_layout_dirty: self.is_swap_layout_dirty,
            active_swap_layout_name: match self.active_swap_layout_name {
                Some(ref n) => Some(n@),
                None => None,
            },
        }
    }
}

/// The values of a workspace list.
pub open spec fn tab_views(s: Seq<Tab>) -> Seq<TabV> {
    Seq::new(s.len(), |i: int| s[i]@)
}

/// The pane ids one workspace holds, from the host's pane manifest.
pub struct PaneGroup {
    pub tab_position: usize,
    pub pane_ids: Vec<u32>,
}

/// The mathematical value of a pane group.
pub struct PaneGroupV {
    pub tab_position: usize,
    pub pane_ids: Seq<u32>,
}

impl View for PaneGroup {
    type V = PaneGroupV;

    open spec fn view(&self) -> PaneGroupV {
        PaneGroupV { tab_position: self.tab_position, pane_ids: self.pane_ids@ }
    }
}

/// The values of a pane manifest.
pub open spec fn pane_views(s: Seq<PaneGroup>) -> Seq<PaneGroupV> {
    Seq::new(s.len(), |i: int| s[i]@)
}

/// Some pane of this group carries `id`.
pub open spec fn group_has_pane(g: PaneGroupV, id: u32) -> bool {
    exists|j: int| 0 <= j < g.pane_ids.len() && g.pane_ids[j] == id
}

/// Group `i` records the completion: it is not the active workspace's group
/// and holds the pane.
pub open spec fn group_matches(
    panes: Seq<PaneGroupV>,
    i: int,
    id: u32,
    upto: int,
    active: usize,
) -> bool {
    &&& 0 <= i < upto <= panes.len()
    &&& !(active > 0 && panes[i].tab_position == active - 1)
    &&& group_has_pane(panes[i], id)
}

/// Workspace position `k` gains the alert: a matching group names it.
pub open spec fn pos_matched(
    panes: Seq<PaneGroupV>,
    id: u32,
    upto: int,
    active: usize,
    k: usize,
) -> bool {
    exists|i: int| group_matches(panes, i, id, upto, active) && panes[i].tab_position == k
}

/// The host's decimal argument is well-formed and fits a `u32`.
pub open spec fn arg_ok(s: Seq<char>) -> bool {
    s.len() > 0 && crate::util::all_digits(s) && crate::util::digits_val(s) <= u32::MAX as int
}

/// How a completion signal changes the tracker: every matched workspace
/// position now maps to `a`, and every other key is untouched.
pub open spec fn alerts_after(
    prev: Map<usize, TabAlert>,
    cur: Map<usize, TabAlert>,
    pv: Seq<PaneGroupV>,
    id: u32,
    upto: int,
    act: usize,
    a: TabAlert,
) -> bool {
    &&& forall|k: usize|
        #[trigger] pos_matched(pv, id, upto, act, k) ==> cur.contains_key(k) && cur[k] == a
    &&& forall|k: usize|
        !(#[trigger] pos_matched(pv, id, upto, act, k)) ==> cur.contains_key(k)
            == prev.contains_key(k) && (prev.contains_key(k) ==> cur[k] == prev[k])
}

/// The display label of one workspace: its 1-based position, a space, and
/// its name — or the rename prompt while the user renames the empty-named
/// active workspace.
pub open spec fn label_spec(t: TabV, rename: bool) -> Seq<char> {
    let name: Seq<char> = if t.active && rename && t.name.len() == 0 {
        "Enter name..."@
    } else {
        t.name
    };
    crate::util::dec_spec(t.position as int + 1) + seq![' '] + name
}

/// The alert the redraw shows for workspace position `pos`, if any.
pub open spec fn shown_alert(alerts: Map<usize, TabAlert>, pos: usize) -> Option<TabAlert> {
    if alerts.contains_key(pos) {
        Some(alerts[pos])
    } else {
        None
    }
}

/// The fragment one workspace renders to.
pub open spec fn rendered_tab(
    t: TabV,
    alerts: Map<usize, TabAlert>,
    rename: bool,
    p: Palette,
    colored: bool,
) -> crate::LinePartV {
    crate::LinePartV {
        part: crate::tab::tab_text_spec(
            label_spec(t, rename),
            t.active,
            shown_alert(alerts, t.position),
            p,
            colored,
        ),
        width: label_spec(t, rename).len() as int + 2,
        tab_index: Some((t.position + 1) as usize),
    }
}

/// The fragments of all workspaces, in list order.
pub open spec fn rendered_tabs(
    tabs: Seq<TabV>,
    alerts: Map<usize, TabAlert>,
    rename: bool,
    p: Palette,
    colored: bool,
) -> Seq<crate::LinePartV> {
    Seq::new(tabs.len(), |i: int| rendered_tab(tabs[i], alerts, rename, p, colored))
}

/// The last list index below `upto` holding an active workspace, or 0.
pub open spec fn last_active(s: Seq<TabV>, upto: int) -> int
    decreases upto,
{
    if upto <= 0 {
        0
    } else if s[upto - 1].active {
        upto - 1
    } else {
        last_active(s, upto - 1)
    }
}

/// Some workspace below `upto` is active.
pub open spec fn has_active(s: Seq<TabV>, upto: int) -> bool {
    exists|i: int| 0 <= i < upto && (#[trigger] s[i]).active
}

/// The positions of the active workspaces below `upto`.
pub open spec fn active_positions_upto(s: Seq<TabV>, upto: int) -> Set<usize> {
    Set::new(
        |k: usize| exists|i: int| 0 <= i < upto && (#[trigger] s[i]).active && s[i].position == k,
    )
}

/// The positions of the active workspaces: their alert entries are removed
/// by the redraw pass.
pub open spec fn active_positions(s: Seq<TabV>) -> Set<usize> {
    active_positions_upto(s, s.len() as int)
}

/// The swap-layout dirty flag shown: the active workspace's, except while
/// renaming.
pub open spec fn sel_dirty(s: Seq<TabV>, rename: bool) -> bool {
    !rename && has_active(s, s.len() as int) && s[last_active(
        s,
        s.len() as int,
    )].is_swap_layout_dirty
}

/// The swap-layout name shown, under the same rule.
pub open spec fn sel_swap(s: Seq<TabV>, rename: bool) -> Option<Seq<char>> {
    if !rename && has_active(s, s.len() as int) {
        s[last_active(s, s.len() as int)].active_swap_layout_name
    } else {
        None
    }
}

/// Positions leave room for the 1-based display number.
pub open spec fn tabs_ok(s: Seq<TabV>) -> bool {
    forall|i: int| 0 <= i < s.len() ==> (#[trigger] s[i]).position < usize::MAX
}

/// Positions are workspace identities: no two workspaces share one.
pub open spec fn distinct_positions(s: Seq<TabV>) -> bool {
    forall|i: int, j: int|
        #![trigger s[i], s[j]]
        0 <= i < j < s.len() ==> s[i].position != s[j].position
}

/// The printed text of a fragment row.
pub open spec fn parts_text(s: Seq<crate::LinePartV>) -> Seq<char>
    decreases s.len(),
{
    if s.len() == 0 {
        Seq::empty()
    } else {
        s[0].part + parts_text(s.drop_first())
    }
}

/// The fill color of the row's tail: black on a dark theme, white on a
/// light one.
pub open spec fn theme_fill(p: Palette) -> Color {
    match p.hue {
        ThemeHue::Dark => p.black,
        ThemeHue::Light => p.white,
    }
}

/// The fragment row a redraw produces from the cached state.
pub open spec fn render_parts_spec(
    tabs: Seq<TabV>,
    mode: ModeV,
    alerts: Map<usize, TabAlert>,
    cols: int,
) -> Seq<crate::LinePartV>
    recommends
        tabs.len() > 0,
{
    let rts = rendered_tabs(tabs, alerts, mode.rename_tab, mode.palette, mode.colored);
    let ai = last_active(tabs, tabs.len() as int);
    crate::line::tab_line_spec(
        mode.session_name,
        mode.hide_session_name,
        sel_swap(tabs, mode.rename_tab),
        sel_dirty(tabs, mode.rename_tab),
        rts,
        ai,
        label_spec(tabs[ai], mode.rename_tab),
        if cols >= 1 {
            cols - 1
        } else {
            0
        },
        mode.palette,
        mode.colored,
    )
}

/// The whole printed line, fill command included; empty while no workspace
/// snapshot has arrived.
pub open spec fn render_out_spec(
    tabs: Seq<TabV>,
    mode: ModeV,
    alerts: Map<usize, TabAlert>,
    cols: int,
) -> Seq<char> {
    if tabs.len() == 0 {
        Seq::empty()
    } else {
        parts_text(render_parts_spec(tabs, mode, alerts, cols)) + crate::style::bg_fill_spec(
            theme_fill(mode.palette),
        )
    }
}

/// Splitting the last fragment off a row's text.
pub proof fn lemma_parts_text_snoc(s: Seq<crate::LinePartV>)
    requires
        s.len() >= 1,
    ensures
        parts_text(s) == parts_text(s.drop_last()) + s.last().part,
    decreases s.len(),
{
    if s.len() == 1 {
        assert(s.drop_first() =~= Seq::<crate::LinePartV>::empty());
        assert(s.drop_last() =~= Seq::<crate::LinePartV>::empty());
        assert(parts_text(s) =~= parts_text(s.drop_last()) + s.last().part);
    } else {
        lemma_parts_text_snoc(s.drop_first());
        assert(s.drop_first().drop_last() =~= s.drop_last().drop_first());
        assert(s.drop_first().last() == s.last());
        assert(s.drop_last()[0] == s[0]);
        assert(s.drop_last().len() >= 1);
        assert(parts_text(s) =~= parts_text(s.drop_last()) + s.last().part);
    }
}

/// The host's mode and theme snapshot, consumed read-only on redraw.
pub struct ModeSnapshot {
    /// The user is renaming a tab.
    pub rename_tab: bool,
    pub palette: Palette,
    /// The surface supports color styling.
    pub colored: bool,
    pub session_name: Option<String>,
    pub hide_session_name: bool,
}

/// The mathematical value of a mode snapshot.
pub struct ModeV {
    pub rename_tab: bool,
    pub palette: Palette,
    pub colored: bool,
    pub session_name: Option<Seq<char>>,
    pub hide_session_name: bool,
}

impl View for ModeSnapshot {
    type V = ModeV;

    open spec fn view(&self) -> ModeV {
        ModeV {
            rename_tab: self.rename_tab,
            palette: self.palette,
            colored: self.colored,
            session_name: match self.session_name {
                Some(ref n) => Some(n@),
                None => None,
            },
            hide_session_name: self.hide_session_name,
        }
    }
}

/// What a handler asks of the host besides redrawing: arm the one-shot
/// tick, and broadcast a payload to every sibling instance.
pub struct Effects {
    pub set_timer: bool,
    pub broadcast: Option<String>,
}

/// The whole component state, threaded through every event handler.
pub struct State {
    pub panes: Vec<PaneGroup>,
    pub tab_alerts: AlertTracker,
    pub tabs: Vec<Tab>,
    /// 1-based display index of the active workspace; 0 before the first
    /// snapshot with an active workspace.
    pub active_tab_idx: usize,
    pub mode_info: ModeSnapshot,
    pub tab_line: Vec<LinePart>,
}

/// The first list index holding an active workspace, or `-1`.
pub open spec fn first_active(s: Seq<TabV>, upto: int) -> int
    decreases upto,
{
    if upto <= 0 {
        -1
    } else if first_active(s, upto - 1) >= 0 {
        first_active(s, upto - 1)
    } else if s[upto - 1].active {
        upto - 1
    } else {
        -1
    }
}

impl State {
    pub open spec fn wf(&self) -> bool {
        &&& self.tab_alerts.wf()
        &&& self.active_tab_idx <= self.tabs@.len()
    }

    /// The state before the first host event: everything empty.
    pub fn new() -> (s: State)
        ensures
            s.wf(),
            s.panes@.len() == 0,
            s.tab_alerts@ == Map::<usize, TabAlert>::empty(),
            s.tab_alerts.entries_seq().len() == 0,
            s.tabs@.len() == 0,
            s.active_tab_idx == 0,
            s.tab_line@.len() == 0,
            s.mode_info@.rename_tab == false,
            s.mode_info@.colored == false,
            s.mode_info@.session_name is None,
            s.mode_info@.hide_session_name == false,
    {
        State {
            panes: Vec::new(),
            tab_alerts: AlertTracker::new(),
            tabs: Vec::new(),
            active_tab_idx: 0,
            mode_info: ModeSnapshot {
                rename_tab: false,
                palette: Palette {
                    hue: ThemeHue::Dark,
                    fg: Color::EightBit(7),
                    bg: Color::EightBit(0),
                    black: Color::EightBit(0),
                    white: Color::EightBit(15),
                    green: Color::EightBit(2),
                    orange: Color::EightBit(3),
                    red: Color::EightBit(1),
                },
                colored: false,
                session_name: None,
                hide_session_name: false,
            },
            tab_line: Vec::new(),
        }
    }

    /// Cache the host's pane manifest; nothing is drawn for it.
    pub fn on_pane_update(&mut self, panes: Vec<PaneGroup>) -> (redraw: bool)
        requires
            old(self).wf(),
        ensures
            final(self).wf(),
            pane_views(final(self).panes@) == pane_views(panes@),
            final(self).tab_alerts == old(self).tab_alerts,
            final(self).tabs == old(self).tabs,
            final(self).active_tab_idx == old(self).active_tab_idx,
            final(self).mode_info == old(self).mode_info,
            final(self).tab_line == old(self).tab_line,
            redraw == false,
    {
        self.panes = panes;
        false
    }

    /// Cache the host's mode/theme snapshot; redraw only when it changed.
    pub fn on_mode_update(&mut self, mode: ModeSnapshot) -> (redraw: bool)
        requires
            old(self).wf(),
        ensures
            final(self).wf(),
            final(self).mode_info@ == mode@,
            final(self).panes == old(self).panes,
            final(self).tab_alerts == old(self).tab_alerts,
            final(self).tabs == old(self).tabs,
            final(self).active_tab_idx == old(self).active_tab_idx,
            final(self).tab_line == old(self).tab_line,
            redraw == (old(self).mode_info@ != mode@),
    {
        let changed = !mode_eq(&self.mode_info, &mode);
        self.mode_info = mode;
        changed
    }

    /// A tick: flip every blink phase; while any alert is pending, arm the
    /// next tick, request a redraw, and broadcast the whole tracker so new
    /// sibling instances can catch up.  An empty tracker breaks the cycle:
    /// nothing is armed and nothing is sent.
    pub fn on_timer(&mut self) -> (r: (bool, Effects))
        requires
            old(self).wf(),
        ensures
            final(self).wf(),
            final(self).panes == old(self).panes,
            final(self).tabs == old(self).tabs,
            final(self).active_tab_idx == old(self).active_tab_idx,
            final(self).mode_info == old(self).mode_info,
            final(self).tab_line == old(self).tab_line,
            final(self).tab_alerts.entries_seq().len() == old(self).tab_alerts.entries_seq().len(),
            forall|i: int| #![trigger final(self).tab_alerts.entries_seq()[i]]
                0 <= i < final(self).tab_alerts.entries_seq().len()
                    ==> final(self).tab_alerts.entries_seq()[i] == (
                    old(self).tab_alerts.entries_seq()[i].0,
                    flipped(old(self).tab_alerts.entries_seq()[i].1),
                ),
            final(self).tab_alerts@.dom() == old(self).tab_alerts@.dom(),
            forall|k: usize| #![trigger final(self).tab_alerts@[k]] old(self).tab_alerts@.contains_key(k)
                ==> final(self).tab_alerts@.contains_key(k) && final(self).tab_alerts@[k]
                    == flipped(old(self).tab_alerts@[k]),
            r.0 == (old(self).tab_alerts.entries_seq().len() > 0),
            r.1.set_timer == (old(self).tab_alerts.entries_seq().len() > 0),
            match r.1.broadcast {
                Some(p) => old(self).tab_alerts.entries_seq().len() > 0 && p@ == encode_spec(
                    final(self).tab_alerts.entries_seq(),
                ),
                None => old(self).tab_alerts.entries_seq().len() == 0,
            },
    {
        let pending = !self.tab_alerts.is_empty();
        self.tab_alerts.tick_phases();
        let broadcast: Option<String> = if pending {
            Some(encode_alerts(&self.tab_alerts))
        } else {
            None
        };
        (pending, Effects { set_timer: pending, broadcast })
    }

    /// Cache the host's workspace snapshot.  With an active workspace the
    /// 1-based active index follows it and a redraw is requested when
    /// anything changed; without one the snapshot is still cached, the
    /// active index is only clamped into range, and no redraw is requested.
    pub fn on_tab_update(&mut self, tabs: Vec<Tab>) -> (redraw: bool)
        requires
            old(self).wf(),
        ensures
            final(self).wf(),
            final(self).panes == old(self).panes,
            final(self).tab_alerts == old(self).tab_alerts,
            final(self).mode_info == old(self).mode_info,
            final(self).tab_line == old(self).tab_line,
            tab_views(final(self).tabs@) == tab_views(tabs@),
            ({
                let fa = first_active(tab_views(tabs@), tabs@.len() as int);
                if fa >= 0 {
                    final(self).active_tab_idx == fa + 1 && redraw == (old(self).active_tab_idx
                        != fa + 1 || tab_views(old(self).tabs@) != tab_views(tabs@))
                } else {
                    final(self).active_tab_idx == (if old(self).active_tab_idx <= tabs@.len() {
                        old(self).active_tab_idx as int
                    } else {
                        tabs@.len() as int
                    }) && redraw == false
                }
            }),
    {
        let ghost tv = tab_views(tabs@);
        let n = tabs.len();
        let mut found: bool = false;
        let mut fa: usize = 0;
        let mut i: usize = 0;
        while i < n
            invariant
                n == tabs@.len(),
                tv == tab_views(tabs@),
                0 <= i <= n,
                found == (first_active(tv, i as int) >= 0),
                found ==> fa == first_active(tv, i as int) && fa < i,
            decreases n - i,
        {
            if !found && tabs[i].active {
                found = true;
                fa = i;
            }
            i = i + 1;
        }
        let redraw: bool;
        if found {
            let new_active = fa + 1;
            redraw = self.active_tab_idx != new_active || !tabs_eq(&self.tabs, &tabs);
            self.active_tab_idx = new_active;
        } else {
            // The host reported no active workspace: keep the previous
            // index, clamped into the new range.
            if self.active_tab_idx > n {
                self.active_tab_idx = n;
            }
            redraw = false;
        }
        self.tabs = tabs;
        redraw
    }

    /// The 1-based position to switch to on scroll-up: the next workspace,
    /// clamped to the last one.
    pub fn on_scroll_up(&self) -> (r: usize)
        requires
            self.wf(),
        ensures
            r == (if self.active_tab_idx + 1 <= self.tabs@.len() {
                self.active_tab_idx + 1
            } else {
                self.tabs@.len() as int
            }),
    {
        let n = self.tabs.len();
        if self.active_tab_idx < n {
            self.active_tab_idx + 1
        } else {
            n
        }
    }

    /// The 1-based position to switch to on scroll-down: the previous
    /// workspace, clamped to the first one.
    pub fn on_scroll_down(&self) -> (r: usize)
        ensures
            r == (if self.active_tab_idx >= 2 {
                self.active_tab_idx - 1
            } else {
                1
            }),
    {
        if self.active_tab_idx >= 2 {
            self.active_tab_idx - 1
        } else {
            1
        }
    }

    /// Which workspace a click at `col` should focus, if any.
    pub fn on_left_click(&self, col: usize) -> (r: Option<usize>)
        ensures
            r == crate::line::hit_spec(crate::line::views_of(self.tab_line@), col as int),
    {
        crate::line::get_tab_to_focus(&self.tab_line, col)
    }

    /// Adopt a sibling's broadcast tracker, but only into an empty tracker:
    /// an instance with alerts of its own is never overwritten.  On
    /// adoption the first tick is armed and a redraw is requested, exactly
    /// as for a first local alert.
    pub fn on_broadcast(&mut self, is_private: bool, payload: Option<&str>) -> (r: (bool, bool))
        requires
            old(self).wf(),
        ensures
            final(self).wf(),
            final(self).panes == old(self).panes,
            final(self).tabs == old(self).tabs,
            final(self).active_tab_idx == old(self).active_tab_idx,
            final(self).mode_info == old(self).mode_info,
            final(self).tab_line == old(self).tab_line,
            ({
                let applies = is_private && old(self).tab_alerts.entries_seq().len() == 0
                    && payload is Some && decode_spec(payload->Some_0@) is Some;
                if applies {
                    final(self).tab_alerts.entries_seq() == decode_spec(
                        payload->Some_0@,
                    )->Some_0 && r == (true, true)
                } else {
                    final(self).tab_alerts == old(self).tab_alerts && r == (false, false)
                }
            }),
    {
        if !is_private {
            return (false, false);
        }
        if !self.tab_alerts.is_empty() {
            return (false, false);
        }
        match payload {
            None => (false, false),
            Some(p) => {
                match decode_alerts(p) {
                    None => (false, false),
                    Some(t) => {
                        self.tab_alerts = t;
                        (true, true)
                    },
                }
            },
        }
    }

    /// Record a background-task completion: the host hands over a pane id
    /// and an exit code as decimal text.  Every workspace holding that pane,
    /// except the active one, gains (or overwrites, the latest completion
    /// wins) an alert; the first alert in an empty tracker arms the tick and
    /// requests a redraw.  A malformed or missing argument is ignored.
    pub fn on_process_status(
        &mut self,
        pane_id_str: Option<&str>,
        exit_code_str: Option<&str>,
    ) -> (r: (bool, bool))
        requires
            old(self).wf(),
        ensures
            final(self).wf(),
            final(self).panes == old(self).panes,
            final(self).tabs == old(self).tabs,
            final(self).active_tab_idx == old(self).active_tab_idx,
            final(self).mode_info == old(self).mode_info,
            final(self).tab_line == old(self).tab_line,
            ({
                let ok = pane_id_str is Some && exit_code_str is Some && arg_ok(
                    pane_id_str->Some_0@,
                ) && arg_ok(exit_code_str->Some_0@);
                if ok {
                    let id = crate::util::digits_val(pane_id_str->Some_0@) as u32;
                    let success = crate::util::digits_val(exit_code_str->Some_0@) == 0;
                    let pv = pane_views(old(self).panes@);
                    let act = old(self).active_tab_idx;
                    let m = pv.len() as int;
                    &&& alerts_after(
                        old(self).tab_alerts@,
                        final(self).tab_alerts@,
                        pv,
                        id,
                        m,
                        act,
                        (TabAlert { success: success, alternate_color: true }),
                    )
                    &&& r.0 == (old(self).tab_alerts.entries_seq().len() == 0 && exists|i: int|
                        group_matches(pv, i, id, m, act))
                    &&& r.1 == r.0
                } else {
                    final(self).tab_alerts == old(self).tab_alerts && r == (false, false)
                }
            }),
    {
        let pane_id: u32;
        let exit_code: u32;
        match (pane_id_str, exit_code_str) {
            (Some(p), Some(e)) => {
                match (crate::util::parse_u32(p), crate::util::parse_u32(e)) {
                    (Some(pv), Some(ev)) => {
                        pane_id = pv;
                        exit_code = ev;
                    },
                    _ => {
                        return (false, false);
                    },
                }
            },
            _ => {
                return (false, false);
            },
        }
        let ghost pv = pane_views(self.panes@);
        let ghost act = self.active_tab_idx;
        let alert = TabAlert { success: exit_code == 0, alternate_color: true };
        let was_empty = self.tab_alerts.is_empty();
        let mut any = false;
        let m = self.panes.len();
        let mut i: usize = 0;
        while i < m
            invariant
                self.panes == old(self).panes,
                self.tabs == old(self).tabs,
                self.active_tab_idx == old(self).active_tab_idx,
                self.mode_info == old(self).mode_info,
                self.tab_line == old(self).tab_line,
                pv == pane_views(self.panes@),
                act == self.active_tab_idx,
                m == self.panes@.len(),
                0 <= i <= m,
                self.tab_alerts.wf(),
                alerts_after(old(self).tab_alerts@, self.tab_alerts@, pv, pane_id, i as int, act, alert),
                any == exists|i2: int| group_matches(pv, i2, pane_id, i as int, act),
            decreases m - i,
        {
            let ghost i0 = i as int;
            let ghost prev = self.tab_alerts@;
            proof {
                assert(pv[i0] == self.panes@[i0]@);
            }
            let skip = self.active_tab_idx > 0 && self.panes[i].tab_position
                == self.active_tab_idx - 1;
            let mut found = false;
            if !skip {
                found = vec_u32_contains(&self.panes[i].pane_ids, pane_id);
                if found {
                    let pos = self.panes[i].tab_position;
                    proof {
                        let j = choose|j: int|
                            0 <= j < self.panes@[i0].pane_ids@.len()
                                && self.panes@[i0].pane_ids@[j] == pane_id;
                        assert(pv[i0].pane_ids[j] == pane_id);
                        assert(group_has_pane(pv[i0], pane_id));
                        assert(group_matches(pv, i0, pane_id, i0 + 1, act));
                        assert(pv[i0].tab_position == pos);
                    }
                    self.tab_alerts.insert(pos, alert);
                    any = true;
                }
            }
            proof {
                let matched_here = group_matches(pv, i0, pane_id, i0 + 1, act);
                if !(!skip && found) {
                    // No insert happened and group `i0` does not match.
                    if matched_here {
                        let j = choose|j: int|
                            0 <= j < pv[i0].pane_ids.len() && pv[i0].pane_ids[j] == pane_id;
                        assert(self.panes@[i0].pane_ids@[j] == pane_id);
                        assert(false);
                    }
                }
                assert forall|k: usize| #![trigger pos_matched(pv, pane_id, i0 + 1, act, k)]
                    pos_matched(pv, pane_id, i0 + 1, act, k) implies
                    self.tab_alerts@.contains_key(k) && self.tab_alerts@[k] == alert by {
                    let i2 = choose|i2: int|
                        group_matches(pv, i2, pane_id, i0 + 1, act) && pv[i2].tab_position == k;
                    if i2 < i0 {
                        assert(group_matches(pv, i2, pane_id, i0, act));
                        assert(pos_matched(pv, pane_id, i0, act, k));
                    } else {
                        assert(!skip && found && k == pv[i0].tab_position);
                    }
                }
                assert forall|k: usize| #![trigger pos_matched(pv, pane_id, i0 + 1, act, k)]
                    !pos_matched(pv, pane_id, i0 + 1, act, k) implies
                    self.tab_alerts@.contains_key(k) == old(self).tab_alerts@.contains_key(k) && (
                old(self).tab_alerts@.contains_key(k) ==> self.tab_alerts@[k] == old(
                    self,
                ).tab_alerts@[k]) by {
                    if pos_matched(pv, pane_id, i0, act, k) {
                        let i2 = choose|i2: int|
                            group_matches(pv, i2, pane_id, i0, act) && pv[i2].tab_position == k;
                        assert(group_matches(pv, i2, pane_id, i0 + 1, act));
                    }
                    if !skip && found {
                        assert(pos_matched(pv, pane_id, i0 + 1, act, pv[i0].tab_position));
                        assert(k != pv[i0].tab_position);
                    }
                }
                assert(alerts_after(
                    old(self).tab_alerts@,
                    self.tab_alerts@,
                    pv,
                    pane_id,
                    i0 + 1,
                    act,
                    alert,
                ));
                assert((exists|i2: int| #[trigger] group_matches(pv, i2, pane_id, i0 + 1, act)) == (!skip
                    && found || exists|i2: int| #[trigger] group_matches(pv, i2, pane_id, i0, act))) by {
                    if exists|i2: int| #[trigger] group_matches(pv, i2, pane_id, i0 + 1, act) {
                        let i2 = choose|i2: int| #[trigger] group_matches(pv, i2, pane_id, i0 + 1, act);
                        if i2 < i0 {
                            assert(group_matches(pv, i2, pane_id, i0, act));
                        } else {
                            assert(matched_here);
                        }
                    }
                    if exists|i2: int| #[trigger] group_matches(pv, i2, pane_id, i0, act) {
                        let i2 = choose|i2: int| #[trigger] group_matches(pv, i2, pane_id, i0, act);
                        assert(group_matches(pv, i2, pane_id, i0 + 1, act));
                    }
                }
            }
            i = i + 1;
        }
        let fired = was_empty && any;
        proof {
            let id = crate::util::digits_val(pane_id_str->Some_0@) as u32;
            let success = crate::util::digits_val(exit_code_str->Some_0@) == 0;
            assert(id == pane_id);
            assert(success == (exit_code == 0));
            assert(pv.len() as int == m as int);
            assert(alerts_after(
                old(self).tab_alerts@,
                self.tab_alerts@,
                pv,
                id,
                pv.len() as int,
                act,
                (TabAlert { success: success, alternate_color: true }),
            ));
            assert((exists|i2: int| #[trigger] group_matches(pv, i2, id, pv.len() as int, act))
                == any);
        }
        (fired, fired)
    }

    /// Redraw: render every workspace label, clear the alerts of the active
    /// workspaces, lay the fragments out, remember them for click routing,
    /// and return the line to print.  The layout window centers on the last
    /// active entry of the cached list (the first entry when none is
    /// active).
    #[verifier::rlimit(100)]
    pub fn render(&mut self, cols: usize) -> (out: String)
        requires
            old(self).wf(),
            tabs_ok(tab_views(old(self).tabs@)),
            distinct_positions(tab_views(old(self).tabs@)),
        ensures
            final(self).wf(),
            final(self).panes == old(self).panes,
            final(self).tabs == old(self).tabs,
            final(self).active_tab_idx == old(self).active_tab_idx,
            final(self).mode_info == old(self).mode_info,
            final(self).tab_alerts@ == old(self).tab_alerts@.remove_keys(
                active_positions(tab_views(old(self).tabs@)),
            ),
            old(self).tabs@.len() == 0 ==> final(self).tab_line == old(self).tab_line
                && final(self).tab_alerts == old(self).tab_alerts,
            old(self).tabs@.len() > 0 ==> crate::line::views_of(final(self).tab_line@)
                == render_parts_spec(
                tab_views(old(self).tabs@),
                old(self).mode_info@,
                old(self).tab_alerts@,
                cols as int,
            ),
            out@ == render_out_spec(
                tab_views(old(self).tabs@),
                old(self).mode_info@,
                old(self).tab_alerts@,
                cols as int,
            ),
    {
        let ghost tv = tab_views(self.tabs@);
        let ghost alerts0 = self.tab_alerts@;
        let n = self.tabs.len();
        if n == 0 {
            proof {
                assert(self.tab_alerts@.remove_keys(active_positions(tv)) =~= self.tab_alerts@);
            }
            return String::new();
        }
        let rename = self.mode_info.rename_tab;
        let palette = self.mode_info.palette;
        let colored = self.mode_info.colored;
        let mut all_parts: Vec<LinePart> = Vec::new();
        let mut active_i: usize = 0;
        let mut dirty = false;
        let mut swap_name: Option<String> = None;
        let mut active_label = String::new();
        let mut i: usize = 0;
        while i < n
            invariant
                self.panes == old(self).panes,
                self.tabs == old(self).tabs,
                self.active_tab_idx == old(self).active_tab_idx,
                self.mode_info == old(self).mode_info,
                tv == tab_views(self.tabs@),
                alerts0 == old(self).tab_alerts@,
                tabs_ok(tv),
                distinct_positions(tv),
                rename == self.mode_info@.rename_tab,
                palette == self.mode_info@.palette,
                colored == self.mode_info@.colored,
                n == tv.len(),
                0 <= i <= n,
                self.tab_alerts.wf(),
                self.tab_alerts@ == alerts0.remove_keys(active_positions_upto(tv, i as int)),
                crate::line::views_of(all_parts@) == rendered_tabs(
                    tv,
                    alerts0,
                    rename,
                    palette,
                    colored,
                ).take(i as int),
                active_i == last_active(tv, i as int),
                i > 0 ==> active_i < i,
                i > 0 ==> active_label@ == label_spec(tv[last_active(tv, i as int)], rename),
                dirty == (!rename && has_active(tv, i as int) && tv[last_active(
                    tv,
                    i as int,
                )].is_swap_layout_dirty),
                crate::line::opt_view(&swap_name) == (if !rename && has_active(tv, i as int) {
                    tv[last_active(tv, i as int)].active_swap_layout_name
                } else {
                    None::<Seq<char>>
                }),
            decreases n - i,
        {
            let ghost i0 = i as int;
            proof {
                assert(tv[i0] == self.tabs@[i0]@);
            }
            let pos = self.tabs[i].position;
            let is_active = self.tabs[i].active;
            let label = tab_label(&self.tabs[i], rename);
            if is_active {
                active_i = i;
                if !rename {
                    dirty = self.tabs[i].is_swap_layout_dirty;
                    swap_name = match &self.tabs[i].active_swap_layout_name {
                        Some(s) => Some(s.clone()),
                        None => None,
                    };
                }
            }
            if is_active || i == 0 {
                active_label = label.clone();
            }
            proof {
                // The prefix removals never touch this workspace's entry.
                if active_positions_upto(tv, i0).contains(pos) {
                    let j = choose|j: int|
                        0 <= j < i0 && (#[trigger] tv[j]).active && tv[j].position == pos;
                    assert(tv[j].position == tv[i0].position);
                    assert(false);
                }
            }
            let alert = self.tab_alerts.get(pos);
            proof {
                assert(alert == shown_alert(alerts0, pos));
            }
            if is_active {
                if alert.is_some() {
                    self.tab_alerts.remove(pos);
                }
            }
            proof {
                // Account for this step in the removed-key set.
                assert forall|k: usize|
                    active_positions_upto(tv, i0 + 1).contains(k) implies (active_positions_upto(
                    tv,
                    i0,
                ).contains(k) || (is_active && k == pos)) by {
                    let j = choose|j: int|
                        0 <= j < i0 + 1 && (#[trigger] tv[j]).active && tv[j].position == k;
                    if j < i0 {
                        assert(active_positions_upto(tv, i0).contains(k));
                    }
                }
                assert forall|k: usize|
                    active_positions_upto(tv, i0).contains(k) implies active_positions_upto(
                    tv,
                    i0 + 1,
                ).contains(k) by {
                    let j = choose|j: int|
                        0 <= j < i0 && (#[trigger] tv[j]).active && tv[j].position == k;
                    assert(0 <= j < i0 + 1 && tv[j].active && tv[j].position == k);
                }
                if is_active {
                    assert(tv[i0].active && tv[i0].position == pos);
                    assert(active_positions_upto(tv, i0 + 1).contains(pos));
                }
                assert(self.tab_alerts@ =~= alerts0.remove_keys(
                    active_positions_upto(tv, i0 + 1),
                ));
            }
            let part = crate::tab::tab_style(label, is_active, alert, pos + 1, palette, colored);
            let ghost prev_parts = all_parts@;
            all_parts.push(part);
            proof {
                assert(part@ == rendered_tab(tv[i0], alerts0, rename, palette, colored));
                let rts = rendered_tabs(tv, alerts0, rename, palette, colored);
                assert(crate::line::views_of(prev_parts).len() == prev_parts.len());
                assert(rts.len() == n);
                assert(prev_parts.len() == i0);
                assert forall|j2: int| 0 <= j2 < i0 implies #[trigger] all_parts@[j2]@
                    == rts[j2] by {
                    assert(crate::line::views_of(prev_parts)[j2] == rts.take(i0)[j2]);
                    assert(all_parts@[j2] == prev_parts[j2]);
                }
                assert(crate::line::views_of(all_parts@) =~= rendered_tabs(
                    tv,
                    alerts0,
                    rename,
                    palette,
                    colored,
                ).take(i0 + 1));
                // Track the last-active selection.
                if is_active {
                    assert(last_active(tv, i0 + 1) == i0);
                    assert(has_active(tv, i0 + 1));
                } else {
                    assert(last_active(tv, i0 + 1) == last_active(tv, i0));
                    if has_active(tv, i0 + 1) {
                        let j = choose|j: int| 0 <= j < i0 + 1 && (#[trigger] tv[j]).active;
                        assert(0 <= j < i0 && tv[j].active);
                    }
                    if has_active(tv, i0) {
                        let j = choose|j: int| 0 <= j < i0 && (#[trigger] tv[j]).active;
                        assert(0 <= j < i0 + 1 && tv[j].active);
                    }
                }
            }
            i = i + 1;
        }
        proof {
            assert(rendered_tabs(tv, alerts0, rename, palette, colored).take(n as int)
                =~= rendered_tabs(tv, alerts0, rename, palette, colored));
            assert(self.tab_alerts@ == alerts0.remove_keys(active_positions(tv)));
            assert(crate::line::opt_view(&self.mode_info.session_name)
                == self.mode_info@.session_name);
            assert(crate::line::opt_view(&swap_name) == sel_swap(tv, rename));
            assert(dirty == sel_dirty(tv, rename));
        }
        let budget_cols: usize = if cols >= 1 {
            cols - 1
        } else {
            0
        };
        let parts = crate::line::tab_line(
            &self.mode_info.session_name,
            all_parts,
            active_i,
            budget_cols,
            palette,
            colored,
            self.mode_info.hide_session_name,
            &swap_name,
            dirty,
            &active_label,
        );
        self.tab_line = parts;
        let ghost pviews = crate::line::views_of(self.tab_line@);
        proof {
            assert(pviews == render_parts_spec(tv, old(self).mode_info@, alerts0, cols as int));
        }
        let mut out = String::new();
        let m2 = self.tab_line.len();
        let mut j: usize = 0;
        proof {
            assert(pviews.take(0) =~= Seq::<crate::LinePartV>::empty());
        }
        while j < m2
            invariant
                m2 == self.tab_line@.len(),
                pviews == crate::line::views_of(self.tab_line@),
                0 <= j <= m2,
                out@ == parts_text(pviews.take(j as int)),
            decreases m2 - j,
        {
            out.append(self.tab_line[j].part.as_str());
            j = j + 1;
            proof {
                lemma_parts_text_snoc(pviews.take(j as int));
                assert(pviews.take(j as int).drop_last() =~= pviews.take(j - 1));
                assert(pviews.take(j as int).last() == pviews[j - 1]);
                assert(pviews[j - 1].part == self.tab_line@[j - 1]@.part);
            }
        }
        let fill = crate::style::bg_fill(palette);
        out.append(fill.as_str());
        proof {
            assert(pviews.take(m2 as int) =~= pviews);
            assert(out@ == render_out_spec(tv, old(self).mode_info@, alerts0, cols as int));
        }
        out
    }
}

/// The display label of one workspace, as the redraw builds it.
fn tab_label(t: &Tab, rename: bool) -> (r: String)
    requires
        t@.position < usize::MAX,
    ensures
        r@ == label_spec(t@, rename),
{
    proof {
        reveal_strlit(" ");
    }
    let mut label = crate::util::dec_string(t.position + 1);
    label.append(" ");
    if t.active && rename && t.name.as_str().is_empty() {
        label.append("Enter name...");
    } else {
        label.append(t.name.as_str());
    }
    proof {
        assert(" "@ =~= seq![' ']);
        assert(label@ =~= label_spec(t@, rename));
    }
    label
}

/// Law: redrawing is idempotent.  One redraw clears the active workspaces'
/// alert entries; a second redraw with no intervening events removes
/// nothing further and prints byte-identical output.
pub proof fn lemma_render_idempotent(
    tabs: Seq<TabV>,
    mode: ModeV,
    alerts: Map<usize, TabAlert>,
    cols: int,
)
    requires
        distinct_positions(tabs),
    ensures
        render_out_spec(tabs, mode, alerts.remove_keys(active_positions(tabs)), cols)
            == render_out_spec(tabs, mode, alerts, cols),
        alerts.remove_keys(active_positions(tabs)).remove_keys(active_positions(tabs))
            == alerts.remove_keys(active_positions(tabs)),
{
    let a = active_positions(tabs);
    let alerts2 = alerts.remove_keys(a);
    assert(alerts2.remove_keys(a) =~= alerts2);
    if tabs.len() > 0 {
        assert forall|i: int| 0 <= i < tabs.len() implies #[trigger] rendered_tab(
            tabs[i],
            alerts2,
            mode.rename_tab,
            mode.palette,
            mode.colored,
        ) == rendered_tab(tabs[i], alerts, mode.rename_tab, mode.palette, mode.colored) by {
            let t = tabs[i];
            if t.active {
                // The active label's rendering ignores any alert.
                assert(crate::tab::tab_text_spec(
                    label_spec(t, mode.rename_tab),
                    true,
                    shown_alert(alerts2, t.position),
                    mode.palette,
                    mode.colored,
                ) == crate::tab::tab_text_spec(
                    label_spec(t, mode.rename_tab),
                    true,
                    shown_alert(alerts, t.position),
                    mode.palette,
                    mode.colored,
                ));
            } else {
                // Only active workspaces' positions were removed, and no
                // inactive workspace shares a position with one.
                if a.contains(t.position) {
                    let j = choose|j: int|
                        0 <= j < tabs.len() && (#[trigger] tabs[j]).active && tabs[j].position
                            == t.position;
                    if j < i {
                        assert(tabs[j].position != tabs[i].position);
                    } else {
                        assert(j != i);
                        assert(tabs[i].position != tabs[j].position);
                    }
                    assert(false);
                }
                assert(shown_alert(alerts2, t.position) == shown_alert(alerts, t.position));
            }
        }
        assert(rendered_tabs(tabs, alerts2, mode.rename_tab, mode.palette, mode.colored)
            =~= rendered_tabs(tabs, alerts, mode.rename_tab, mode.palette, mode.colored));
    }
}

/// Law: a completion signal followed at once by a visit to the affected
/// workspace — before any tick — leaves the tracker without an entry for
/// it; and when the visit cleared the only entries, the next tick finds an
/// empty tracker, so (by `on_timer`'s contract) it arms nothing further.
pub proof fn lemma_finish_then_visit(
    prev: Map<usize, TabAlert>,
    cur: Map<usize, TabAlert>,
    pv: Seq<PaneGroupV>,
    id: u32,
    act: usize,
    a: TabAlert,
    tabs: Seq<TabV>,
    w: usize,
)
    requires
        alerts_after(prev, cur, pv, id, pv.len() as int, act, a),
        active_positions(tabs).contains(w),
    ensures
        !cur.remove_keys(active_positions(tabs)).contains_key(w),
        (forall|k: usize| cur.contains_key(k) ==> active_positions(tabs).contains(k))
            ==> cur.remove_keys(active_positions(tabs)).dom() == Set::<usize>::empty(),
{
    if forall|k: usize| cur.contains_key(k) ==> active_positions(tabs).contains(k) {
        assert(cur.remove_keys(active_positions(tabs)).dom() =~= Set::<usize>::empty());
    }
}

/// Law: each tick toggles every pending entry's blink phase, so two ticks
/// restore the tracker exactly — an even number of ticks is the identity,
/// an odd number one toggle.
pub proof fn lemma_two_ticks_restore(
    s0: Seq<(usize, TabAlert)>,
    s1: Seq<(usize, TabAlert)>,
    s2: Seq<(usize, TabAlert)>,
)
    requires
        s1.len() == s0.len(),
        forall|i: int| #![trigger s1[i]] 0 <= i < s1.len() ==> s1[i] == (s0[i].0, flipped(s0[i].1)),
        s2.len() == s1.len(),
        forall|i: int| #![trigger s2[i]] 0 <= i < s2.len() ==> s2[i] == (s1[i].0, flipped(s1[i].1)),
    ensures
        s2 == s0,
{
    assert forall|i: int| 0 <= i < s2.len() implies #[trigger] s2[i] == s0[i] by {
        assert(s1[i] == (s0[i].0, flipped(s0[i].1)));
        assert(flipped(flipped(s0[i].1)) == s0[i].1);
    }
    assert(s2 =~= s0);
}

/// Law: when the row shows the prefix and every label (the all-fit case)
/// and exactly one workspace is active, exactly one label fragment is
/// rendered in the active style — the active workspace's — and its label
/// text begins with that workspace's 1-based position number; every other
/// label fragment is rendered inactive.
pub proof fn lemma_one_active_fragment(
    tabs: Seq<TabV>,
    mode: ModeV,
    alerts: Map<usize, TabAlert>,
    cols: int,
    i: int,
)
    requires
        0 <= i < tabs.len(),
        tabs[i].active,
        forall|j: int| 0 <= j < tabs.len() && j != i ==> !(#[trigger] tabs[j]).active,
        render_parts_spec(tabs, mode, alerts, cols) == prefix_parts_spec(
            mode.session_name,
            mode.hide_session_name,
            sel_swap(tabs, mode.rename_tab),
            sel_dirty(tabs, mode.rename_tab),
            mode.palette,
            mode.colored,
        ) + rendered_tabs(tabs, alerts, mode.rename_tab, mode.palette, mode.colored),
    ensures
        ({
            let parts = render_parts_spec(tabs, mode, alerts, cols);
            let pre_len = prefix_parts_spec(
                mode.session_name,
                mode.hide_session_name,
                sel_swap(tabs, mode.rename_tab),
                sel_dirty(tabs, mode.rename_tab),
                mode.palette,
                mode.colored,
            ).len() as int;
            &&& parts[pre_len + i].part == crate::tab::tab_text_spec(
                label_spec(tabs[i], mode.rename_tab),
                true,
                shown_alert(alerts, tabs[i].position),
                mode.palette,
                mode.colored,
            )
            &&& label_spec(tabs[i], mode.rename_tab).take(
                crate::util::dec_spec(tabs[i].position as int + 1).len() as int,
            ) == crate::util::dec_spec(tabs[i].position as int + 1)
            &&& forall|j: int|
                0 <= j < tabs.len() && j != i ==> #[trigger] parts[pre_len + j].part
                    == crate::tab::tab_text_spec(
                    label_spec(tabs[j], mode.rename_tab),
                    false,
                    shown_alert(alerts, tabs[j].position),
                    mode.palette,
                    mode.colored,
                )
        }),
{
    let parts = render_parts_spec(tabs, mode, alerts, cols);
    let pre = prefix_parts_spec(
        mode.session_name,
        mode.hide_session_name,
        sel_swap(tabs, mode.rename_tab),
        sel_dirty(tabs, mode.rename_tab),
        mode.palette,
        mode.colored,
    );
    let rts = rendered_tabs(tabs, alerts, mode.rename_tab, mode.palette, mode.colored);
    let pre_len = pre.len() as int;
    assert(parts[pre_len + i] == rts[i]);
    assert(rts[i] == rendered_tab(tabs[i], alerts, mode.rename_tab, mode.palette, mode.colored));
    assert(label_spec(tabs[i], mode.rename_tab).take(
        crate::util::dec_spec(tabs[i].position as int + 1).len() as int,
    ) =~= crate::util::dec_spec(tabs[i].position as int + 1));
    assert forall|j: int| 0 <= j < tabs.len() && j != i implies #[trigger] parts[pre_len + j].part
        == crate::tab::tab_text_spec(
        label_spec(tabs[j], mode.rename_tab),
        false,
        shown_alert(alerts, tabs[j].position),
        mode.palette,
        mode.colored,
    ) by {
        assert(parts[pre_len + j] == rts[j]);
        assert(rts[j] == rendered_tab(tabs[j], alerts, mode.rename_tab, mode.palette, mode.colored));
        assert(!tabs[j].active);
    }
}

/// Does the id list hold `id`?
fn vec_u32_contains(v: &Vec<u32>, id: u32) -> (r: bool)
    ensures
        r == exists|j: int| 0 <= j < v@.len() && v@[j] == id,
{
    let n = v.len();
    let mut j: usize = 0;
    while j < n
        invariant
            n == v@.len(),
            0 <= j <= n,
            forall|j2: int| 0 <= j2 < j ==> v@[j2] != id,
        decreases n - j,
    {
        if v[j] == id {
            return true;
        }
        j = j + 1;
    }
    false
}

/// Value equality of two mode snapshots.
fn mode_eq(a: &ModeSnapshot, b: &ModeSnapshot) -> (r: bool)
    ensures
        r == (a@ == b@),
{
    let names_eq: bool = match (&a.session_name, &b.session_name) {
        (Some(x), Some(y)) => *x == *y,
        (None, None) => true,
        _ => false,
    };
    let r = a.rename_tab == b.rename_tab && a.palette == b.palette && a.colored == b.colored
        && names_eq && a.hide_session_name == b.hide_session_name;
    proof {
        if r {
            assert(a@ == b@);
        } else {
            assert(a@ != b@);
        }
    }
    r
}

/// Value equality of two workspace lists.
fn tabs_eq(a: &Vec<Tab>, b: &Vec<Tab>) -> (r: bool)
    ensures
        r == (tab_views(a@) == tab_views(b@)),
{
    let n = a.len();
    if n != b.len() {
        proof {
            assert(tab_views(a@).len() != tab_views(b@).len());
        }
        return false;
    }
    let mut i: usize = 0;
    while i < n
        invariant
            n == a@.len() == b@.len(),
            0 <= i <= n,
            forall|j: int| 0 <= j < i ==> tab_views(a@)[j] == tab_views(b@)[j],
        decreases n - i,
    {
        let ta = &a[i];
        let tb = &b[i];
        let swaps_eq: bool = match (&ta.active_swap_layout_name, &tb.active_swap_layout_name) {
            (Some(x), Some(y)) => *x == *y,
            (None, None) => true,
            _ => false,
        };
        let eq = ta.position == tb.position && ta.name == tb.name && ta.active == tb.active
            && ta.is_swap_layout_dirty == tb.is_swap_layout_dirty && swaps_eq;
        if !eq {
            proof {
                assert(tab_views(a@)[i as int] != tab_views(b@)[i as int]);
            }
            return false;
        }
        proof {
            assert(tab_views(a@)[i as int] == tab_views(b@)[i as int]);
        }
        i = i + 1;
    }
    proof {
        assert(tab_views(a@) =~= tab_views(b@));
    }
    true
}

} // verus!
