use std::collections::HashMap;

use cmux_sidebar_agents::model::{AgentRecord, SurfaceTarget, UnreadNotification};
use cmux_sidebar_agents::protocol::Snapshot;
use cmux_sidebar_agents::sidebar::{
    action_for_key, epoch_millis, missing_socket_message, socket_source, tick_action, EnvVar,
    KeyAction, KeyCode, KeyPress, SelectionKey, Sidebar, SocketSource, Status, TickAction,
};

fn record(surface: u64, state: &str, updated_at_ms: u64) -> AgentRecord {
    AgentRecord {
        surface,
        state: state.to_string(),
        session: Some(format!("agent-{surface}")),
        updated_at_ms,
    }
}

fn target(surface: u64, breadcrumb: &str) -> SurfaceTarget {
    SurfaceTarget {
        surface,
        workspace_index: 0,
        screen_index: 1,
        pane: 2,
        tab_index: 3,
        breadcrumb: breadcrumb.to_string(),
        display_name: "tab".to_string(),
    }
}

fn unread(id: u64, surface: u64, is_unread: bool, level: &str) -> UnreadNotification {
    UnreadNotification { id, surface, unread: is_unread, level: level.to_string() }
}

fn snapshot(agents: Vec<AgentRecord>, unread: Vec<UnreadNotification>) -> Snapshot {
    let mut targets = HashMap::new();
    targets.insert(1, target(1, "w > one"));
    targets.insert(2, target(2, "w > two"));
    Snapshot { agents, targets, unread }
}

#[test]
fn new_sidebar_waits_for_connection() {
    let s = Sidebar::new();
    assert!(s.agents().is_empty() && s.notifications().is_empty());
    assert_eq!(s.selected(), 0);
    assert_eq!(s.status(), &Status::Reconnecting { message: "connecting".to_string() });
    assert_eq!(s.reconnect_delay_ms(), 500);
}

#[test]
fn selection_follows_the_row_across_polls() {
    let mut s = Sidebar::new();
    s.apply_snapshot(snapshot(vec![record(1, "working", 100), record(2, "working", 200)], vec![]), 1_000);
    assert_eq!(s.agents()[0].surface, 2);
    s.move_selection(1);
    assert_eq!(s.selection_key(), Some(SelectionKey::Agent(1)));
    s.apply_snapshot(snapshot(vec![record(1, "working", 300), record(2, "working", 200)], vec![]), 2_000);
    assert_eq!(s.agents()[0].surface, 1);
    assert_eq!(s.selected(), 0);
    assert_eq!(s.selection_key(), Some(SelectionKey::Agent(1)));
    s.apply_snapshot(snapshot(vec![record(2, "working", 200)], vec![]), 3_000);
    assert_eq!(s.selected(), 0);
    s.apply_snapshot(snapshot(vec![], vec![]), 4_000);
    assert_eq!(s.selected(), 0);
    assert_eq!(s.selection_key(), None);
}

#[test]
fn move_selection_stays_within_rows() {
    let mut s = Sidebar::new();
    s.move_selection(1);
    assert_eq!(s.selected(), 0);
    s.apply_snapshot(snapshot(vec![record(1, "done", 1), record(2, "done", 2)], vec![]), 10);
    s.move_selection(-1);
    assert_eq!(s.selected(), 0);
    s.move_selection(5);
    assert_eq!(s.selected(), 1);
    s.move_selection(isize::MIN);
    assert_eq!(s.selected(), 0);
    s.move_selection(isize::MAX);
    assert_eq!(s.selected(), 1);
}

#[test]
fn unread_notifications_are_listed_once_newest_first() {
    let mut s = Sidebar::new();
    s.apply_snapshot(
        snapshot(vec![], vec![unread(9, 1, true, "warning"), unread(9, 2, true, "error"), unread(4, 7, false, "info")]),
        1_000,
    );
    assert_eq!(s.notifications().len(), 1);
    let n = &s.notifications()[0];
    assert_eq!((n.id, n.surface, n.unread, n.created_at_ms), (9, Some(1), true, 1_000));
    assert_eq!(n.title, "Warning notification");
    assert_eq!(n.breadcrumb, "w > one");

    s.apply_snapshot(snapshot(vec![], vec![unread(9, 1, false, "warning"), unread(11, 5, true, "")]), 2_000);
    let ids: Vec<u64> = s.notifications().iter().map(|n| n.id).collect();
    assert_eq!(ids, [11, 9]);
    assert!(!s.notifications()[1].unread);
    assert_eq!(s.notifications()[0].title, "Unread notification");
    assert_eq!(s.notifications()[0].breadcrumb, "surface 5");
}

#[test]
fn notifications_are_limited_to_twenty() {
    let mut s = Sidebar::new();
    let items: Vec<UnreadNotification> = (0..25).map(|i| unread(i, 1, true, "info")).collect();
    s.apply_snapshot(snapshot(vec![], items), 5);
    assert_eq!(s.notifications().len(), 20);
    assert_eq!(s.notifications()[0].id, 24);
    assert_eq!(s.notifications()[19].id, 5);
}

#[test]
fn activation_target_of_selected_row() {
    let mut s = Sidebar::new();
    assert!(s.activation_target().is_none());
    s.apply_snapshot(snapshot(vec![record(2, "done", 1), record(3, "done", 0)], vec![unread(8, 1, true, "info")]), 5);
    assert_eq!(s.activation_target().unwrap().breadcrumb, "w > two");
    s.move_selection(1);
    assert!(s.activation_target().is_none());
    s.move_selection(1);
    assert_eq!(s.selection_key(), Some(SelectionKey::Notification(8)));
    assert_eq!(s.activation_target().unwrap().surface, 1);
}

#[test]
fn reconnect_delay_doubles_up_to_eight_seconds_and_resets() {
    let mut s = Sidebar::new();
    let waits: Vec<u64> = (0..6).map(|_| s.disconnect_with_backoff("down".to_string())).collect();
    assert_eq!(waits, [500, 1_000, 2_000, 4_000, 8_000, 8_000]);
    assert_eq!(s.status(), &Status::Reconnecting { message: "down".to_string() });
    s.mark_connected();
    assert_eq!(s.status(), &Status::Ready);
    assert_eq!(s.reconnect_delay_ms(), 500);
}

fn key(code: KeyCode, control: bool) -> KeyPress {
    KeyPress { code, control, no_modifiers: !control }
}

#[test]
fn key_map() {
    assert_eq!(action_for_key(key(KeyCode::Char('c'), true)), KeyAction::Quit);
    assert_eq!(action_for_key(key(KeyCode::Char('c'), false)), KeyAction::Ignore);
    assert_eq!(action_for_key(key(KeyCode::Esc, false)), KeyAction::Ignore);
    assert_eq!(action_for_key(key(KeyCode::Up, false)), KeyAction::MoveUp);
    assert_eq!(action_for_key(key(KeyCode::Char('k'), true)), KeyAction::MoveUp);
    assert_eq!(action_for_key(key(KeyCode::Char('k'), false)), KeyAction::Ignore);
    assert_eq!(action_for_key(key(KeyCode::Down, false)), KeyAction::MoveDown);
    assert_eq!(action_for_key(key(KeyCode::Char('j'), true)), KeyAction::MoveDown);
    assert_eq!(action_for_key(key(KeyCode::Enter, false)), KeyAction::Activate);
    assert_eq!(action_for_key(key(KeyCode::Char('r'), false)), KeyAction::Refresh);
    assert_eq!(action_for_key(key(KeyCode::Char('r'), true)), KeyAction::Ignore);
    assert_eq!(action_for_key(key(KeyCode::Other, false)), KeyAction::Ignore);
}

#[test]
fn ticks_reconnect_or_poll_on_time() {
    assert_eq!(tick_action(false, 100, 200, 0), TickAction::Wait);
    assert_eq!(tick_action(false, 200, 200, 0), TickAction::Connect);
    assert_eq!(tick_action(true, 1_999, 0, 0), TickAction::Wait);
    assert_eq!(tick_action(true, 2_000, 0, 0), TickAction::Refresh);
    assert_eq!(tick_action(true, 5, 0, 10), TickAction::Wait);
}

#[test]
fn socket_variable_choice() {
    assert_eq!(socket_source(EnvVar::Present, EnvVar::Present), SocketSource::Primary);
    assert_eq!(socket_source(EnvVar::Unset, EnvVar::Present), SocketSource::Legacy);
    assert_eq!(socket_source(EnvVar::Empty, EnvVar::Present), SocketSource::Missing);
    assert_eq!(socket_source(EnvVar::Unset, EnvVar::Empty), SocketSource::Missing);
    assert_eq!(socket_source(EnvVar::Unset, EnvVar::Unset), SocketSource::Missing);
    assert!(missing_socket_message().starts_with("CMUX_TUI_SOCKET is not set."));
}

#[test]
fn clock_reading_saturates() {
    assert_eq!(epoch_millis(None), 0);
    assert_eq!(epoch_millis(Some(42)), 42);
    assert_eq!(epoch_millis(Some(u128::MAX)), u64::MAX);
}
