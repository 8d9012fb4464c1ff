use zj_status_bar::alerts::TabAlert;
use zj_status_bar::control::ModeSnapshot;
use zj_status_bar::control::PaneGroup;
use zj_status_bar::control::State;
use zj_status_bar::control::Tab;
use zj_status_bar::style::Color;
use zj_status_bar::style::Palette;
use zj_status_bar::style::ThemeHue;

fn tab(position: usize, name: &str, active: bool) -> Tab {
    Tab {
        position,
        name: String::from(name),
        active,
        is_swap_layout_dirty: false,
        active_swap_layout_name: None,
    }
}

fn eightbit_palette() -> Palette {
    Palette {
        hue: ThemeHue::Dark,
        fg: Color::EightBit(7),
        bg: Color::EightBit(0),
        black: Color::EightBit(0),
        white: Color::EightBit(15),
        green: Color::EightBit(2),
        orange: Color::EightBit(3),
        red: Color::EightBit(1),
    }
}

fn colored_mode() -> ModeSnapshot {
    ModeSnapshot {
        rename_tab: false,
        palette: eightbit_palette(),
        colored: true,
        session_name: None,
        hide_session_name: false,
    }
}

fn three_tabs() -> Vec<Tab> {
    vec![tab(0, "a", false), tab(1, "b", true), tab(2, "c", false)]
}

#[test]
fn tab_update_tracks_the_active_workspace() {
    let mut s = State::new();
    assert!(s.on_tab_update(three_tabs()));
    assert_eq!(s.active_tab_idx, 2);
    // The same snapshot again changes nothing.
    assert!(!s.on_tab_update(three_tabs()));
    // A snapshot without an active workspace is cached without a redraw.
    assert!(!s.on_tab_update(vec![tab(0, "a", false)]));
    assert_eq!(s.active_tab_idx, 1);
}

#[test]
fn mode_update_requests_redraw_only_on_change() {
    let mut s = State::new();
    assert!(s.on_mode_update(colored_mode()));
    assert!(!s.on_mode_update(colored_mode()));
}

#[test]
fn scroll_is_clamped_to_the_position_range() {
    let mut s = State::new();
    s.on_tab_update(three_tabs());
    assert_eq!(s.active_tab_idx, 2);
    assert_eq!(s.on_scroll_up(), 3);
    assert_eq!(s.on_scroll_down(), 1);
    s.on_tab_update(vec![tab(0, "a", true), tab(1, "b", false), tab(2, "c", false)]);
    assert_eq!(s.on_scroll_down(), 1);
    s.on_tab_update(vec![tab(0, "a", false), tab(1, "b", false), tab(2, "c", true)]);
    assert_eq!(s.on_scroll_up(), 3);
}

#[test]
fn plain_line_concatenates_fragments_in_order() {
    // Workspaces [1:"a" inactive, 2:"b" active, 3:"c" inactive], everything
    // fits: three fragments in position order, the middle one active.
    let mut s = State::new();
    s.on_tab_update(three_tabs());
    let out = s.render(80);
    assert_eq!(
        out.as_str(),
        " 1 a \u{1b}[7m 2 b \u{1b}[0m 3 c \u{1b}[48;5;0m\u{1b}[0K"
    );
}

#[test]
fn render_is_idempotent() {
    let mut s = State::new();
    s.on_mode_update(colored_mode());
    s.on_tab_update(three_tabs());
    s.on_pane_update(vec![PaneGroup { tab_position: 0, pane_ids: vec![7] }]);
    s.on_process_status(Some("7"), Some("0"));
    let first = s.render(40);
    let second = s.render(40);
    assert_eq!(first, second);
}

#[test]
fn hit_testing_maps_columns_to_workspaces() {
    let mut s = State::new();
    s.on_tab_update(three_tabs());
    let _ = s.render(80);
    // Fragments are five columns wide each: [0,5) -> 1, [5,10) -> 2,
    // [10,15) -> 3, beyond -> nothing.
    assert_eq!(s.on_left_click(0), Some(1));
    assert_eq!(s.on_left_click(4), Some(1));
    assert_eq!(s.on_left_click(5), Some(2));
    assert_eq!(s.on_left_click(9), Some(2));
    assert_eq!(s.on_left_click(10), Some(3));
    assert_eq!(s.on_left_click(14), Some(3));
    assert_eq!(s.on_left_click(15), None);
    assert_eq!(s.on_left_click(500), None);
}

#[test]
fn failed_task_raises_a_blinking_alert() {
    // A background task in workspace 1 (position 0) fails while workspace 2
    // is active: the tracker gains {0: failure, phase set}, the tick is
    // armed, and the next redraw paints the label in the failure colors.
    let mut s = State::new();
    s.on_mode_update(colored_mode());
    s.on_tab_update(three_tabs());
    s.on_pane_update(vec![
        PaneGroup { tab_position: 0, pane_ids: vec![7, 8] },
        PaneGroup { tab_position: 1, pane_ids: vec![9] },
    ]);
    let (redraw, timer) = s.on_process_status(Some("7"), Some("1"));
    assert!(redraw && timer);
    assert_eq!(
        s.tab_alerts.get(0),
        Some(TabAlert { success: false, alternate_color: true })
    );
    let out = s.render(80);
    // Phase set: black-on-red for the failed workspace's label.
    assert!(out.contains("\u{1b}[38;5;0m\u{1b}[48;5;1m 1 a \u{1b}[0m"));
    // The active label stays in the active colors.
    assert!(out.contains("\u{1b}[38;5;0m\u{1b}[48;5;2m 2 b \u{1b}[0m"));
}

#[test]
fn completion_in_the_active_workspace_is_ignored() {
    let mut s = State::new();
    s.on_tab_update(three_tabs());
    s.on_pane_update(vec![PaneGroup { tab_position: 1, pane_ids: vec![9] }]);
    let (redraw, timer) = s.on_process_status(Some("9"), Some("0"));
    assert!(!redraw && !timer);
    assert_eq!(s.tab_alerts.get(1), None);
}

#[test]
fn malformed_completion_arguments_are_ignored() {
    let mut s = State::new();
    s.on_tab_update(three_tabs());
    s.on_pane_update(vec![PaneGroup { tab_position: 0, pane_ids: vec![7] }]);
    assert_eq!(s.on_process_status(None, Some("0")), (false, false));
    assert_eq!(s.on_process_status(Some("7"), None), (false, false));
    assert_eq!(s.on_process_status(Some("x7"), Some("0")), (false, false));
    assert_eq!(s.on_process_status(Some("7"), Some("")), (false, false));
    assert!(s.tab_alerts.is_empty());
}

#[test]
fn visiting_the_workspace_clears_its_alert() {
    // The user switches focus to workspace 1 while its alert is pending: the
    // next redraw paints it active and drops the tracker entry.
    let mut s = State::new();
    s.on_mode_update(colored_mode());
    s.on_tab_update(three_tabs());
    s.on_pane_update(vec![PaneGroup { tab_position: 0, pane_ids: vec![7] }]);
    s.on_process_status(Some("7"), Some("1"));
    assert!(s.tab_alerts.get(0).is_some());
    s.on_tab_update(vec![tab(0, "a", true), tab(1, "b", false), tab(2, "c", false)]);
    let out = s.render(80);
    assert_eq!(s.tab_alerts.get(0), None);
    assert!(out.contains("\u{1b}[38;5;0m\u{1b}[48;5;2m 1 a \u{1b}[0m"));
    // With nothing pending, the following tick arms no further tick.
    let (redraw, effects) = s.on_timer();
    assert!(!redraw);
    assert!(!effects.set_timer);
    assert!(effects.broadcast.is_none());
}

#[test]
fn ticks_toggle_blink_and_rebroadcast() {
    // From exactly one pending entry, every tick flips the phase, re-arms
    // the tick, requests a redraw, and broadcasts the tracker.
    let mut s = State::new();
    s.on_tab_update(three_tabs());
    s.on_pane_update(vec![PaneGroup { tab_position: 0, pane_ids: vec![7] }]);
    s.on_process_status(Some("7"), Some("0"));
    let (redraw1, fx1) = s.on_timer();
    assert!(redraw1 && fx1.set_timer);
    assert_eq!(fx1.broadcast.as_deref(), Some("0:1:0;"));
    assert_eq!(
        s.tab_alerts.get(0),
        Some(TabAlert { success: true, alternate_color: false })
    );
    let (redraw2, fx2) = s.on_timer();
    assert!(redraw2 && fx2.set_timer);
    assert_eq!(fx2.broadcast.as_deref(), Some("0:1:1;"));
    // Two ticks restore the original phase.
    assert_eq!(
        s.tab_alerts.get(0),
        Some(TabAlert { success: true, alternate_color: true })
    );
}

#[test]
fn empty_instance_catches_up_from_broadcast() {
    let mut a = State::new();
    a.on_tab_update(three_tabs());
    a.on_pane_update(vec![PaneGroup { tab_position: 0, pane_ids: vec![7] }]);
    a.on_process_status(Some("7"), Some("1"));
    let (_, fx) = a.on_timer();
    let payload = fx.broadcast.expect("a non-empty tracker is broadcast");

    let mut b = State::new();
    let (redraw, timer) = b.on_broadcast(true, Some(payload.as_str()));
    assert!(redraw && timer);
    assert_eq!(b.tab_alerts.get(0), a.tab_alerts.get(0));
}

#[test]
fn busy_instance_ignores_broadcasts() {
    let mut b = State::new();
    b.on_tab_update(three_tabs());
    b.on_pane_update(vec![PaneGroup { tab_position: 0, pane_ids: vec![7] }]);
    b.on_process_status(Some("7"), Some("0"));
    let before = b.tab_alerts.get(0);
    assert_eq!(b.on_broadcast(true, Some("2:0:0;")), (false, false));
    assert_eq!(b.tab_alerts.get(0), before);
    assert_eq!(b.tab_alerts.get(2), None);
    // A non-private or malformed message is ignored even when empty.
    let mut c = State::new();
    assert_eq!(c.on_broadcast(false, Some("2:0:0;")), (false, false));
    assert_eq!(c.on_broadcast(true, Some("nonsense")), (false, false));
    assert_eq!(c.on_broadcast(true, None), (false, false));
    assert!(c.tab_alerts.is_empty());
}

#[test]
fn narrow_line_shows_overflow_indicators() {
    let mut s = State::new();
    let mut tabs: Vec<Tab> = Vec::new();
    for p in 0..9 {
        tabs.push(tab(p, "name", p == 4));
    }
    s.on_tab_update(tabs);
    let out = s.render(30);
    // The active label is shown; both sides carry a ` +N ` indicator.
    assert!(out.contains("\u{1b}[7m 5 name \u{1b}[0m"));
    assert!(out.contains(" +"));
}

#[test]
fn oversized_active_label_is_truncated_with_ellipsis() {
    let mut s = State::new();
    s.on_tab_update(vec![tab(0, "a-very-long-workspace-name", true)]);
    let out = s.render(7);
    // Six columns of budget: five label characters and an ellipsis, in the
    // active (reverse-video) style.
    assert!(out.contains("\u{1b}[7m1 a-v\u{2026}\u{1b}[0m"));
}

#[test]
fn empty_snapshot_renders_nothing() {
    let mut s = State::new();
    let out = s.render(80);
    assert_eq!(out.as_str(), "");
}

#[test]
fn session_name_prefixes_the_line() {
    let mut s = State::new();
    let mut mode = colored_mode();
    mode.colored = false;
    mode.session_name = Some(String::from("work"));
    s.on_mode_update(mode);
    s.on_tab_update(three_tabs());
    let out = s.render(80);
    assert!(out.starts_with(" work  1 a "));
    // Hiding the session name removes the prefix.
    let mut mode2 = colored_mode();
    mode2.colored = false;
    mode2.session_name = Some(String::from("work"));
    mode2.hide_session_name = true;
    s.on_mode_update(mode2);
    let out2 = s.render(80);
    assert!(out2.starts_with(" 1 a "));
}
