use cmux_sidebar_agents::model::{AgentRow, AgentStatus, RecentNotification};
use cmux_sidebar_agents::ui::{body_lines, footer_line, header_line, scroll_offset, View, ViewStatus};

fn row(surface: u64, name: &str) -> AgentRow {
    AgentRow {
        surface,
        status: AgentStatus::Running,
        name: name.to_string(),
        breadcrumb: "w > s".to_string(),
        age: "1m".to_string(),
        updated_at_ms: 0,
    }
}

fn note(id: u64, level: &str, unread: bool) -> RecentNotification {
    RecentNotification {
        id,
        title: "Warning notification".to_string(),
        level: level.to_string(),
        surface: Some(1),
        breadcrumb: "w > s".to_string(),
        unread,
        created_at_ms: 0,
    }
}

#[test]
fn header_counts_rows() {
    let agents = [row(1, "a")];
    let view = View { agents: &agents, notifications: &[], selected: 0, status: ViewStatus::Ready };
    assert_eq!(header_line(&view, 80), "Agents 1  Notifications 0");
    assert_eq!(header_line(&view, 9), "Age...s 0");
}

#[test]
fn footer_lists_keys() {
    assert_eq!(footer_line(80), "↑↓/C-j/k move  Enter jump  r refresh  C-c quit");
}

#[test]
fn empty_sidebar_explains_how_agents_appear() {
    let view = View { agents: &[], notifications: &[], selected: 0, status: ViewStatus::Ready };
    let lines = body_lines(&view, 80, 10);
    let texts: Vec<&str> = lines.iter().map(|l| l.text.as_str()).collect();
    assert_eq!(
        texts,
        ["AGENTS", "No agents reported yet", "Agents appear via the report-agent verb."]
    );
    assert!(lines[0].bold && lines[0].dim);
    assert!(lines[2].dim && !lines[2].bold);
    assert!(body_lines(&view, 80, 0).is_empty());
}

#[test]
fn rows_and_notifications_with_selection_styles() {
    let agents = [row(1, "a"), row(2, "b")];
    let notes = [note(5, "warning", true), note(6, "error", false), note(7, "info", false)];
    let view = View { agents: &agents, notifications: &notes, selected: 3, status: ViewStatus::Ready };
    let lines = body_lines(&view, 80, 20);
    let texts: Vec<&str> = lines.iter().map(|l| l.text.as_str()).collect();
    assert_eq!(
        texts,
        [
            "AGENTS",
            "● a · w > s · 1m",
            "● b · w > s · 1m",
            "",
            "NOTIFICATIONS",
            "⚠ Warning notification · w > s",
            "✖ Warning notification · w > s",
            "• Warning notification · w > s",
        ]
    );
    assert!(!lines[1].reversed && !lines[2].reversed);
    assert!(lines[5].bold && !lines[5].reversed);
    assert!(lines[6].reversed && !lines[6].bold);
}

#[test]
fn scrolls_to_keep_the_selected_line_visible() {
    let agents: Vec<AgentRow> = (0..10).map(|i| row(i, "x")).collect();
    let view = View { agents: &agents, notifications: &[], selected: 9, status: ViewStatus::Ready };
    let lines = body_lines(&view, 80, 4);
    assert_eq!(lines.len(), 4);
    assert!(lines[3].reversed);
    assert_eq!(scroll_offset(10, 4, 11), 7);
    assert_eq!(scroll_offset(2, 4, 11), 0);
    assert_eq!(scroll_offset(5, 0, 11), 0);
    assert_eq!(scroll_offset(5, 20, 11), 0);
}

#[test]
fn reconnect_screen_fits_the_height() {
    let view = View {
        agents: &[],
        notifications: &[],
        selected: 0,
        status: ViewStatus::Reconnecting { message: "cannot connect to cmux: refused" },
    };
    let lines = body_lines(&view, 80, 2);
    let texts: Vec<&str> = lines.iter().map(|l| l.text.as_str()).collect();
    assert_eq!(texts, ["Reconnecting to cmux", "cannot connect to cmux: refused"]);
    let all = body_lines(&view, 80, 5);
    assert_eq!(all.len(), 3);
    assert_eq!(all[2].text, "Set CMUX_TUI_SOCKET to the cmux-tui JSON-lines socket path.");
}
