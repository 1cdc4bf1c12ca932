use std::collections::HashMap;

use cmux_sidebar_agents::model::{
    format_age, index_surfaces, rows_from_records, status_from_state, AgentRecord, AgentStatus,
    Pane, Screen, Tab, Tree, Workspace,
};

fn record(surface: u64, state: &str, updated_at_ms: u64) -> AgentRecord {
    AgentRecord {
        surface,
        state: state.to_string(),
        session: Some(format!("agent-{surface}")),
        updated_at_ms,
    }
}

fn sample_tree() -> Tree {
    Tree {
        workspaces: vec![Workspace {
            name: "project".to_string(),
            screens: vec![Screen {
                name: Some("tests".to_string()),
                panes: vec![Pane {
                    id: 3,
                    tabs: vec![Tab {
                        surface: 42,
                        name: None,
                        title: "codex".to_string(),
                    }],
                }],
            }],
        }],
    }
}

#[test]
fn maps_record_to_glyph_name_breadcrumb_and_age() {
    let targets = index_surfaces(&sample_tree());
    let rows = rows_from_records(
        &[AgentRecord {
            surface: 42,
            state: "working".to_string(),
            session: Some("inspector".to_string()),
            updated_at_ms: 1_000,
        }],
        &targets,
        126_000,
    );

    assert_eq!(rows[0].status.glyph(), "●");
    assert_eq!(rows[0].name, "inspector");
    assert_eq!(rows[0].breadcrumb, "project > tests");
    assert_eq!(rows[0].age, "2m");
}

#[test]
fn falls_back_to_surface_title_for_agent_name() {
    let targets = index_surfaces(&sample_tree());
    let rows = rows_from_records(
        &[AgentRecord {
            surface: 42,
            state: "blocked".to_string(),
            session: None,
            updated_at_ms: 1,
        }],
        &targets,
        1,
    );

    assert_eq!(rows[0].name, "codex");
    assert_eq!(rows[0].status.glyph(), "⚠");
}

#[test]
fn sorts_attention_then_running_then_done_and_newest_within_group() {
    let records = vec![
        record(1, "done", 500),
        record(2, "working", 200),
        record(3, "blocked", 100),
        record(4, "blocked", 900),
        record(5, "working", 800),
    ];
    let rows = rows_from_records(&records, &HashMap::new(), 1_000);

    assert_eq!(
        rows.iter().map(|row| row.surface).collect::<Vec<_>>(),
        [4, 3, 5, 2, 1]
    );
}

#[test]
fn formats_age_units() {
    assert_eq!(format_age(999), "now");
    assert_eq!(format_age(12_000), "12s");
    assert_eq!(format_age(180_000), "3m");
    assert_eq!(format_age(7_200_000), "2h");
    assert_eq!(format_age(345_600_000), "4d");
}

#[test]
fn maps_all_wire_states_to_display_groups() {
    assert_eq!(status_from_state("working"), AgentStatus::Running);
    assert_eq!(status_from_state("done"), AgentStatus::Done);
    assert_eq!(status_from_state("idle"), AgentStatus::Done);
    assert_eq!(status_from_state("blocked"), AgentStatus::NeedsAttention);
    assert_eq!(status_from_state("unknown"), AgentStatus::NeedsAttention);
}

#[test]
fn unrecognised_state_needs_attention() {
    assert_eq!(status_from_state("Working"), AgentStatus::NeedsAttention);
    assert_eq!(status_from_state(""), AgentStatus::NeedsAttention);
}

#[test]
fn age_boundaries_between_units() {
    assert_eq!(format_age(0), "now");
    assert_eq!(format_age(1_000), "1s");
    assert_eq!(format_age(59_999), "59s");
    assert_eq!(format_age(60_000), "1m");
    assert_eq!(format_age(3_599_999), "59m");
    assert_eq!(format_age(3_600_000), "1h");
    assert_eq!(format_age(86_399_999), "23h");
    assert_eq!(format_age(86_400_000), "1d");
    assert_eq!(format_age(u64::MAX), "213503982334d");
}

#[test]
fn glyph_of_each_group() {
    assert_eq!(AgentStatus::NeedsAttention.glyph(), "⚠");
    assert_eq!(AgentStatus::Running.glyph(), "●");
    assert_eq!(AgentStatus::Done.glyph(), "✔");
}

#[test]
fn name_falls_back_to_agent_surface_and_breadcrumb_to_surface() {
    let rows = rows_from_records(
        &[AgentRecord {
            surface: 7,
            state: "idle".to_string(),
            session: Some(String::new()),
            updated_at_ms: 5_000,
        }],
        &HashMap::new(),
        1_000,
    );
    assert_eq!(rows[0].name, "agent 7");
    assert_eq!(rows[0].breadcrumb, "surface 7");
    assert_eq!(rows[0].age, "now");
    assert_eq!(rows[0].status, AgentStatus::Done);
}

#[test]
fn equal_group_and_time_sort_by_name_and_keep_order_of_equals() {
    let mut a = record(1, "working", 100);
    a.session = Some("beta".to_string());
    let mut b = record(2, "working", 100);
    b.session = Some("alpha".to_string());
    let mut c = record(3, "working", 100);
    c.session = Some("beta".to_string());
    let rows = rows_from_records(&[a, b, c], &HashMap::new(), 100);
    assert_eq!(
        rows.iter().map(|row| row.surface).collect::<Vec<_>>(),
        [2, 1, 3]
    );
}

#[test]
fn index_names_screens_and_tabs_and_last_surface_wins() {
    let tree = Tree {
        workspaces: vec![Workspace {
            name: "w".to_string(),
            screens: vec![
                Screen {
                    name: Some(String::new()),
                    panes: vec![Pane {
                        id: 9,
                        tabs: vec![
                            Tab { surface: 1, name: Some("named".to_string()), title: "t".to_string() },
                            Tab { surface: 2, name: None, title: String::new() },
                        ],
                    }],
                },
                Screen {
                    name: None,
                    panes: vec![Pane {
                        id: 10,
                        tabs: vec![Tab { surface: 1, name: None, title: "moved".to_string() }],
                    }],
                },
            ],
        }],
    };
    let targets = index_surfaces(&tree);
    assert_eq!(targets.len(), 2);
    let one = &targets[&1];
    assert_eq!(one.breadcrumb, "w > screen 2");
    assert_eq!(one.display_name, "moved");
    assert_eq!((one.workspace_index, one.screen_index, one.pane, one.tab_index), (0, 1, 10, 0));
    let two = &targets[&2];
    assert_eq!(two.breadcrumb, "w > screen 1");
    assert_eq!(two.display_name, "surface 2");
    assert_eq!((two.screen_index, two.pane, two.tab_index), (0, 9, 1));
}

#[test]
fn rows_do_not_depend_on_record_order() {
    let records = vec![
        record(1, "done", 500),
        record(2, "working", 200),
        record(3, "blocked", 100),
    ];
    let reversed: Vec<AgentRecord> = records.iter().rev().cloned().collect();
    let a = rows_from_records(&records, &HashMap::new(), 1_000);
    let b = rows_from_records(&reversed, &HashMap::new(), 1_000);
    assert_eq!(a, b);
}
