use shoji_wm::geometry::LogicalRect;
use shoji_wm::input::{
    can_begin_grab, find_window, focus_window, keyboard_action, looks_under_pointer, plan_axis,
    plan_button_event, pointer_limits, resize_edges_to_cursor_icon, resize_edges_to_grab,
    update_decoration_cursor_icon, AxisInput, ButtonStep, CursorIcon, DecorationHit,
    KeyboardAction, PressTarget, ResizeEdge, ResizeEdges, RuntimeActionStep, RuntimeWindowAction,
    WaylandWindowAction, WindowRecords, EDGE_BOTTOM, EDGE_LEFT, EDGE_RIGHT, EDGE_TOP, KEY_Q,
};
use shoji_wm::keymap::{IdSet, KeyMap};

fn edges(top: bool, bottom: bool, left: bool, right: bool) -> ResizeEdges {
    ResizeEdges { top, bottom, left, right }
}

#[test]
fn logo_and_q_quit() {
    assert_eq!(keyboard_action(true, KEY_Q), KeyboardAction::Quit);
    assert_eq!(keyboard_action(false, KEY_Q), KeyboardAction::Forward);
    assert_eq!(keyboard_action(true, KEY_Q + 1), KeyboardAction::Forward);
}

#[test]
fn pointer_stays_on_the_outputs() {
    assert_eq!(pointer_limits(None), None);
    let limits = pointer_limits(Some(LogicalRect::new(-10, 0, 100, 50)));
    assert!(matches!(
        limits,
        Some(limits) if limits.min_x == -10 && limits.max_x == 89 && limits.min_y == 0
            && limits.max_y == 49
    ));
}

#[test]
fn edges_become_grab_bits() {
    assert_eq!(
        resize_edges_to_grab(edges(true, false, true, false)),
        ResizeEdge { bits: EDGE_TOP | EDGE_LEFT }
    );
    assert_eq!(
        resize_edges_to_grab(edges(false, true, false, true)),
        ResizeEdge { bits: EDGE_BOTTOM | EDGE_RIGHT }
    );
    assert_eq!(resize_edges_to_grab(edges(false, false, false, false)), ResizeEdge { bits: 0 });
}

#[test]
fn edges_have_cursors() {
    assert_eq!(resize_edges_to_cursor_icon(edges(true, false, true, false)), CursorIcon::NwResize);
    assert_eq!(resize_edges_to_cursor_icon(edges(true, false, false, true)), CursorIcon::NeResize);
    assert_eq!(resize_edges_to_cursor_icon(edges(false, true, true, false)), CursorIcon::SwResize);
    assert_eq!(resize_edges_to_cursor_icon(edges(false, true, false, true)), CursorIcon::SeResize);
    assert_eq!(resize_edges_to_cursor_icon(edges(false, false, true, false)), CursorIcon::WResize);
    assert_eq!(resize_edges_to_cursor_icon(edges(false, false, false, true)), CursorIcon::EResize);
    assert_eq!(resize_edges_to_cursor_icon(edges(true, false, false, false)), CursorIcon::NResize);
    assert_eq!(resize_edges_to_cursor_icon(edges(false, true, false, false)), CursorIcon::SResize);
}

#[test]
fn cursor_follows_the_decoration() {
    let mut cursor = None;
    let border = Some(DecorationHit::Resize(edges(false, false, true, false)));
    assert!(update_decoration_cursor_icon(&mut cursor, border));
    assert_eq!(cursor, Some(CursorIcon::WResize));
    assert!(!update_decoration_cursor_icon(&mut cursor, border));
    assert!(update_decoration_cursor_icon(&mut cursor, None));
    assert_eq!(cursor, None);
}

#[test]
fn press_on_a_window_focuses_it_and_is_handed_on() {
    let steps = plan_button_event(Some(PressTarget::Window));
    assert!(steps.contains(&ButtonStep::FocusWindow));
    assert!(steps.contains(&ButtonStep::SendButton));
    let outside = plan_button_event(Some(PressTarget::Nothing));
    assert!(outside.contains(&ButtonStep::ClearFocus));
    let released = plan_button_event(None);
    assert!(!released.contains(&ButtonStep::FocusWindow));
    assert!(released.contains(&ButtonStep::SendButton));
}

#[test]
fn press_on_the_border_begins_to_resize() {
    let hit = DecorationHit::Resize(edges(true, false, false, false));
    let steps = plan_button_event(Some(PressTarget::Decoration(hit)));
    assert!(steps.contains(&ButtonStep::BeginResize(ResizeEdge { bits: EDGE_TOP })));
    let moved = plan_button_event(Some(PressTarget::Decoration(DecorationHit::Move)));
    assert!(moved.contains(&ButtonStep::BeginMove));
    let closed = plan_button_event(Some(PressTarget::Decoration(DecorationHit::CloseAction)));
    assert!(closed.contains(&ButtonStep::SendClose));
}

#[test]
fn grabs_need_a_start() {
    assert!(looks_under_pointer(true, false));
    assert!(!looks_under_pointer(true, true));
    assert!(!looks_under_pointer(false, false));
    assert!(can_begin_grab(true, true));
    assert!(!can_begin_grab(false, true));
    assert!(!can_begin_grab(true, false));
}

#[test]
fn finger_that_stops_ends_the_axis() {
    let still = AxisInput { moves: false, discrete: None, reports_zero: true };
    assert!(plan_axis(still, true).send_stop);
    assert!(!plan_axis(still, false).send_stop);
    let turning = AxisInput { moves: true, discrete: Some(120), reports_zero: false };
    let plan = plan_axis(turning, false);
    assert!(plan.send_value);
    assert_eq!(plan.send_discrete, Some(120));
}

#[test]
fn focus_changes_only_what_differs() {
    let mut active = vec![true, false, false];
    assert_eq!(focus_window(&mut active, Some(2)), vec![0, 2]);
    assert_eq!(active, vec![false, false, true]);
    assert!(focus_window(&mut active, Some(2)).is_empty());
    assert_eq!(focus_window(&mut active, None), vec![2]);
}

fn ids(names: &[&str]) -> IdSet {
    let mut set = IdSet::new();
    for name in names {
        set.insert(name.to_string());
    }
    set
}

fn records() -> WindowRecords {
    WindowRecords {
        closing_snapshots: ids(&["a", "b"]),
        live_snapshots: ids(&["a"]),
        complete_snapshots: ids(&["a"]),
        ready_for_decoration: ids(&["a", "c"]),
        snapshot_dirty: ids(&["a"]),
        runtime_dirty: ids(&["a"]),
        scheduler_enabled: false,
    }
}

fn action(id: &str, action: WaylandWindowAction) -> RuntimeWindowAction {
    RuntimeWindowAction { window_id: id.to_string(), action }
}

#[test]
fn runtime_actions_are_applied_in_turn() {
    let mut records = records();
    let windows = vec!["c".to_string(), "d".to_string()];
    let steps = records.apply_runtime_window_actions(
        &vec![
            action("d", WaylandWindowAction::Close),
            action("a", WaylandWindowAction::FinalizeClose),
            action("c", WaylandWindowAction::Maximize),
            action("c", WaylandWindowAction::Minimize),
            action("nobody", WaylandWindowAction::Close),
        ],
        &windows,
    );
    assert_eq!(
        steps,
        vec![
            RuntimeActionStep::SendClose { window: 1 },
            RuntimeActionStep::WindowClosed,
            RuntimeActionStep::Maximize { window: 0 },
            RuntimeActionStep::Nothing,
            RuntimeActionStep::Nothing,
        ]
    );
    assert!(!records.closing_snapshots.contains("a"));
    assert!(records.closing_snapshots.contains("b"));
    assert!(!records.ready_for_decoration.contains("a"));
    assert!(records.ready_for_decoration.contains("c"));
    assert!(!records.runtime_dirty.contains("a"));
}

#[test]
fn handler_marks_windows_dirty() {
    let mut records = records();
    assert!(!records.handler_invoked(false, &vec!["x".to_string()], Some(5)));
    assert!(!records.runtime_dirty.contains("x"));
    assert!(records.handler_invoked(true, &vec!["x".to_string()], Some(5)));
    assert!(records.runtime_dirty.contains("x"));
    assert!(records.scheduler_enabled);
}

#[test]
fn first_window_with_an_id_is_found() {
    let windows = vec!["a".to_string(), "b".to_string(), "b".to_string()];
    assert_eq!(find_window(&windows, "b"), Some(1));
    assert_eq!(find_window(&windows, "z"), None);
}

#[test]
fn maps_keep_one_value_per_key() {
    let mut map = KeyMap::new();
    assert_eq!(map.insert("a".to_string(), 1), None);
    assert_eq!(map.insert("a".to_string(), 2), Some(1));
    assert_eq!(map.get("a"), Some(&2));
    assert!(map.contains_key("a"));
    assert_eq!(map.remove("a"), Some(2));
    assert_eq!(map.get("a"), None);
}

#[test]
fn sets_tell_what_is_new() {
    let mut set = IdSet::new();
    assert!(set.insert("a".to_string()));
    assert!(!set.insert("a".to_string()));
    assert!(set.remove("a"));
    assert!(!set.remove("a"));
}
