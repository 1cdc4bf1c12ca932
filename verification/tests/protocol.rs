use cmux_sidebar_agents::json::JsonValue;
use cmux_sidebar_agents::model::UnreadNotification;
use cmux_sidebar_agents::protocol::{
    command_data, parse_agents, read_agents, read_workspaces, unread_notifications, ProtocolError,
};

fn obj(entries: Vec<(&str, JsonValue)>) -> JsonValue {
    JsonValue::Object(entries.into_iter().map(|(k, v)| (k.to_string(), v)).collect())
}

fn text(s: &str) -> JsonValue {
    JsonValue::Text(s.to_string())
}

fn arr(items: Vec<JsonValue>) -> JsonValue {
    JsonValue::Array(items)
}

#[test]
fn reads_tab_notification_metadata() {
    let data = obj(vec![(
        "workspaces",
        arr(vec![obj(vec![(
            "screens",
            arr(vec![obj(vec![(
                "panes",
                arr(vec![obj(vec![(
                    "tabs",
                    arr(vec![
                        obj(vec![
                            ("surface", JsonValue::UInt(7)),
                            (
                                "notification",
                                obj(vec![
                                    ("notification", JsonValue::UInt(9)),
                                    ("unread", JsonValue::Bool(true)),
                                    ("level", text("warning")),
                                ]),
                            ),
                        ]),
                        obj(vec![("surface", JsonValue::UInt(8)), ("notification", JsonValue::Null)]),
                    ]),
                )])]),
            )])]),
        )])]),
    )]);

    assert_eq!(
        unread_notifications(&data),
        vec![UnreadNotification {
            id: 9,
            surface: 7,
            unread: true,
            level: "warning".to_string(),
        }]
    );
}

#[test]
fn notification_defaults_and_skips() {
    let tab = |surface: JsonValue, notification: JsonValue| {
        obj(vec![("surface", surface), ("notification", notification)])
    };
    let data = obj(vec![(
        "workspaces",
        arr(vec![
            obj(vec![("screens", text("not an array"))]),
            obj(vec![(
                "screens",
                arr(vec![obj(vec![(
                    "panes",
                    arr(vec![
                        obj(vec![]),
                        obj(vec![(
                            "tabs",
                            arr(vec![
                                tab(JsonValue::UInt(1), obj(vec![("notification", JsonValue::UInt(2))])),
                                tab(text("3"), obj(vec![("notification", JsonValue::UInt(4))])),
                                tab(JsonValue::UInt(5), obj(vec![("notification", text("6"))])),
                                tab(
                                    JsonValue::UInt(7),
                                    obj(vec![
                                        ("notification", JsonValue::UInt(8)),
                                        ("unread", JsonValue::Bool(false)),
                                        ("level", text("error")),
                                    ]),
                                ),
                            ]),
                        )]),
                    ]),
                )])]),
            )]),
        ]),
    )]);
    assert_eq!(
        unread_notifications(&data),
        vec![
            UnreadNotification { id: 2, surface: 1, unread: false, level: "info".to_string() },
            UnreadNotification { id: 8, surface: 7, unread: false, level: "error".to_string() },
        ]
    );
    assert!(unread_notifications(&JsonValue::Null).is_empty());
}

#[test]
fn command_data_takes_data_or_reports_refusal() {
    let ok = obj(vec![("ok", JsonValue::Bool(true)), ("data", JsonValue::UInt(3))]);
    assert!(matches!(command_data(ok, "list-agents"), Ok(JsonValue::UInt(3))));

    let empty = obj(vec![("ok", JsonValue::Bool(true))]);
    match command_data(empty, "list-agents") {
        Ok(JsonValue::Object(entries)) => assert!(entries.is_empty()),
        other => panic!("unexpected {other:?}"),
    }

    let refused = obj(vec![("ok", JsonValue::Bool(false)), ("error", text("no such session"))]);
    let err = command_data(refused, "list-agents").unwrap_err();
    assert_eq!(err.message(), "list-agents: no such session");

    let bare = obj(vec![("ok", text("true"))]);
    let err = command_data(bare, "list-workspaces").unwrap_err();
    assert_eq!(err.message(), "list-workspaces: unknown cmux error");
}

fn agent(fields: Vec<(&str, JsonValue)>) -> JsonValue {
    obj(fields)
}

#[test]
fn parses_agent_records() {
    let data = obj(vec![(
        "agents",
        arr(vec![
            agent(vec![
                ("surface", JsonValue::UInt(1)),
                ("state", text("working")),
                ("session", text("inspector")),
                ("updated_at_ms", JsonValue::UInt(10)),
            ]),
            agent(vec![
                ("surface", JsonValue::UInt(2)),
                ("state", text("done")),
                ("session", JsonValue::Null),
                ("updated_at_ms", JsonValue::UInt(20)),
            ]),
        ]),
    )]);
    let agents = parse_agents(&data).unwrap();
    assert_eq!(agents.len(), 2);
    assert_eq!(agents[0].session.as_deref(), Some("inspector"));
    assert_eq!(agents[1].session, None);
    assert_eq!(agents[1].state, "done");
    assert_eq!(agents[1].updated_at_ms, 20);
}

#[test]
fn agent_errors_name_the_first_missing_field() {
    let missing_array = obj(vec![("agents", text("none"))]);
    assert!(matches!(parse_agents(&missing_array), Err(ProtocolError::MissingAgents)));
    assert_eq!(
        parse_agents(&missing_array).unwrap_err().message(),
        "list-agents response has no agents array"
    );

    let no_surface = obj(vec![("agents", arr(vec![agent(vec![("state", text("done"))])]))]);
    assert!(matches!(parse_agents(&no_surface), Err(ProtocolError::MissingSurface)));

    let no_state = obj(vec![(
        "agents",
        arr(vec![agent(vec![("surface", JsonValue::UInt(1)), ("updated_at_ms", JsonValue::UInt(1))])]),
    )]);
    assert!(matches!(parse_agents(&no_state), Err(ProtocolError::MissingState)));

    let no_time = obj(vec![(
        "agents",
        arr(vec![agent(vec![("surface", JsonValue::UInt(1)), ("state", text("done"))])]),
    )]);
    assert!(matches!(parse_agents(&no_time), Err(ProtocolError::MissingUpdatedAt)));
    assert_eq!(
        parse_agents(&no_time).unwrap_err().message(),
        "agent record has no updated_at_ms"
    );
}

fn workspaces_data(ratio: JsonValue) -> JsonValue {
    obj(vec![(
        "workspaces",
        arr(vec![obj(vec![
            ("id", JsonValue::UInt(1)),
            ("name", text("w")),
            ("active", JsonValue::Bool(true)),
            (
                "screens",
                arr(vec![obj(vec![
                    ("id", JsonValue::UInt(2)),
                    ("name", text("s")),
                    ("active", JsonValue::Bool(true)),
                    ("active_pane", JsonValue::UInt(3)),
                    (
                        "layout",
                        obj(vec![
                            ("type", text("split")),
                            ("dir", text("h")),
                            ("ratio", ratio),
                            ("a", obj(vec![("type", text("leaf")), ("pane", JsonValue::UInt(3))])),
                            ("b", obj(vec![("type", text("leaf")), ("pane", JsonValue::UInt(3))])),
                        ]),
                    ),
                    (
                        "panes",
                        arr(vec![obj(vec![
                            ("id", JsonValue::UInt(3)),
                            (
                                "tabs",
                                arr(vec![obj(vec![
                                    ("surface", JsonValue::UInt(4)),
                                    ("kind", text("terminal")),
                                    ("title", text("t")),
                                    ("dead", JsonValue::Bool(false)),
                                    (
                                        "notification",
                                        obj(vec![
                                            ("notification", JsonValue::UInt(5)),
                                            ("unread", JsonValue::Bool(true)),
                                        ]),
                                    ),
                                ])]),
                            ),
                        ])]),
                    ),
                ])]),
            ),
        ])]),
    )])
}

fn ok_reply(data: JsonValue) -> JsonValue {
    obj(vec![("ok", JsonValue::Bool(true)), ("data", data)])
}

#[test]
fn snapshot_joins_tree_notifications_and_agents() {
    let workspaces =
        read_workspaces(ok_reply(workspaces_data(JsonValue::OtherNumber("0.5".to_string())))).unwrap();
    assert_eq!(workspaces.tree().workspaces[0].screens[0].panes[0].tabs[0].surface, 4);
    let agents = obj(vec![(
        "agents",
        arr(vec![obj(vec![
            ("surface", JsonValue::UInt(4)),
            ("state", text("working")),
            ("updated_at_ms", JsonValue::UInt(1)),
        ])]),
    )]);
    let snapshot = read_agents(workspaces, ok_reply(agents)).unwrap();
    assert_eq!(snapshot.agents.len(), 1);
    assert_eq!(snapshot.targets[&4].breadcrumb, "w > s");
    assert_eq!(snapshot.targets[&4].display_name, "t");
    assert_eq!(
        snapshot.unread,
        vec![UnreadNotification { id: 5, surface: 4, unread: true, level: "info".to_string() }]
    );
}

#[test]
fn workspaces_reply_must_be_a_tree() {
    let not_tree = read_workspaces(ok_reply(obj(vec![("workspaces", text("none"))])));
    assert!(matches!(not_tree, Err(ProtocolError::InvalidTree)));
    assert_eq!(not_tree.err().unwrap().message(), "invalid list-workspaces response");
    let no_data = read_workspaces(obj(vec![("ok", JsonValue::Bool(true))]));
    assert!(matches!(no_data, Err(ProtocolError::InvalidTree)));
    let bad_ratio = read_workspaces(ok_reply(workspaces_data(text("half"))));
    assert!(matches!(bad_ratio, Err(ProtocolError::InvalidTree)));
    let refused = read_workspaces(obj(vec![("ok", JsonValue::Bool(false))]));
    assert_eq!(refused.err().unwrap().message(), "list-workspaces: unknown cmux error");
}

#[test]
fn agents_reply_errors() {
    let workspaces = || read_workspaces(ok_reply(workspaces_data(JsonValue::UInt(1)))).unwrap();
    let refused = read_agents(workspaces(), obj(vec![("ok", JsonValue::Bool(false)), ("error", text("x"))]));
    assert_eq!(refused.err().unwrap().message(), "list-agents: x");
    let no_data = read_agents(workspaces(), obj(vec![("ok", JsonValue::Bool(true))]));
    assert!(matches!(no_data, Err(ProtocolError::MissingAgents)));
}

#[test]
fn repeated_keys_read_the_last_entry() {
    let value = obj(vec![("level", text("info")), ("level", text("error"))]);
    assert!(matches!(value.get("level"), Some(JsonValue::Text(t)) if t == "error"));
    assert!(value.get("missing").is_none());
    assert!(matches!(value.take_field("level"), Some(JsonValue::Text(t)) if t == "error"));
}
