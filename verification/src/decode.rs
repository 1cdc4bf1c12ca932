//! Decoding the `list-workspaces` data into a workspace tree, with the JSON
//! deserializer and the tree types of the cmux client.

use serde_json::Value;
use vstd::prelude::*;

use crate::json::JsonValue;
use crate::model::{Pane, Screen, Tab, Tree, Workspace};

verus! {

/// A `serde_json` value.
#[verifier::external_type_specification]
#[verifier::external_body]
pub struct ExSerdeValue(serde_json::Value);

/// The tree that `serde_json::from_value::<cmux_client::Tree>` reads from `data` (the
/// parts of it the sidebar keeps), or `None` when it refuses `data`. Deserialization
/// depends on the value alone; its rules (the client's derived `Deserialize`) are not
/// spelled out here.
pub uninterp spec fn tree_of(data: JsonValue) -> Option<Tree>;

/// The `serde_json` value with the same content, one for one: numbers kept as their
/// JSON text become `serde_json` numbers again.
#[verifier::external_body]
fn serde_value_of(value: &JsonValue) -> Value {
    match value {
        JsonValue::Null => Value::Null,
        JsonValue::Bool(b) => Value::Bool(*b),
        JsonValue::UInt(u) => Value::from(*u),
        JsonValue::OtherNumber(t) => t.parse().map(Value::Number).unwrap_or(Value::Null),
        JsonValue::Text(s) => Value::String(s.clone()),
        JsonValue::Array(items) => Value::Array(items.iter().map(serde_value_of).collect()),
        JsonValue::Object(entries) => Value::Object(
            entries.iter().map(|(k, v)| (k.clone(), serde_value_of(v))).collect(),
        ),
    }
}

/// `serde_json::from_value::<cmux_client::Tree>` on `data`: the tree it reads, reduced
/// to the parts the sidebar keeps, or `None` when it refuses `data`. The result is
/// named by `tree_of`. Of what the deserializer accepts only this is stated: an empty
/// object is refused, since `Tree`'s `workspaces` field has no default.
#[verifier::external_body]
pub(crate) fn parse_tree(data: &JsonValue) -> (t: Option<Tree>)
    ensures
        t == tree_of(*data),
        *data matches JsonValue::Object(entries) && entries@.len() == 0 ==> t is None,
{
    let tree = serde_json::from_value::<cmux_client::Tree>(serde_value_of(data)).ok()?;
    Some(Tree { workspaces: tree.workspaces.iter().map(|w| Workspace {
        name: w.name.clone(),
        screens: w.screens.iter().map(|s| Screen {
            name: s.name.clone(),
            panes: s.panes.iter().map(|p| Pane {
                id: p.id,
                tabs: p.tabs.iter().map(|t| Tab {
                    surface: t.surface, name: t.name.clone(), title: t.title.clone(),
                }).collect(),
            }).collect(),
        }).collect(),
    }).collect() })
}

} // verus!
