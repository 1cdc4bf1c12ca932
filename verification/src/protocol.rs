//! Reading the cmux socket's replies: command status, agent records and the per-tab
//! notification state.

use std::collections::HashMap;

use vstd::prelude::*;

use crate::json::{
    field, field_array, field_bool, field_object, field_text, field_u64, JsonValue,
};
use crate::model::{
    index_surfaces, surface_targets, target_views, AgentRecord, AgentRecordView, SurfaceTarget,
    Tree, UnreadNotification, UnreadView,
};
use crate::decode::{parse_tree, tree_of};
use crate::seqs::{concat_all, lemma_concat_all_step};

verus! {

/// What one poll of the socket yields.
pub struct Snapshot {
    pub agents: Vec<AgentRecord>,
    pub targets: HashMap<u64, SurfaceTarget>,
    pub unread: Vec<UnreadNotification>,
}

/// Why a poll of the socket failed.
#[derive(Debug)]
pub enum ProtocolError {
    /// The server answered a command without `ok: true`.
    Command { cmd: String, message: String },
    /// The `list-workspaces` data is not a workspace tree.
    InvalidTree,
    /// The `list-agents` data has no `agents` array.
    MissingAgents,
    /// An agent record has no numeric `surface`.
    MissingSurface,
    /// An agent record has no string `state`.
    MissingState,
    /// An agent record has no numeric `updated_at_ms`.
    MissingUpdatedAt,
}

/// The text shown for each error.
pub open spec fn error_text(e: ProtocolError) -> Seq<char> {
    match e {
        ProtocolError::Command { cmd, message } => cmd@ + ": "@ + message@,
        ProtocolError::InvalidTree => "invalid list-workspaces response"@,
        ProtocolError::MissingAgents => "list-agents response has no agents array"@,
        ProtocolError::MissingSurface => "agent record has no numeric surface"@,
        ProtocolError::MissingState => "agent record has no state"@,
        ProtocolError::MissingUpdatedAt => "agent record has no updated_at_ms"@,
    }
}

impl ProtocolError {
    /// The text shown for this error.
    pub fn message(&self) -> (text: String)
        ensures
            text@ == error_text(*self),
    {
        match self {
            ProtocolError::Command { cmd, message } => {
                let mut text = cmd.clone();
                text.append(": ");
                text.append(message.as_str());
                text
            },
            ProtocolError::InvalidTree => String::from_str("invalid list-workspaces response"),
            ProtocolError::MissingAgents => String::from_str(
                "list-agents response has no agents array",
            ),
            ProtocolError::MissingSurface => String::from_str(
                "agent record has no numeric surface",
            ),
            ProtocolError::MissingState => String::from_str("agent record has no state"),
            ProtocolError::MissingUpdatedAt => String::from_str(
                "agent record has no updated_at_ms",
            ),
        }
    }
}

/// The server accepted the command: the reply's `ok` is `true`.
pub open spec fn command_succeeded(response: JsonValue) -> bool {
    field(response, "ok"@) == Some(JsonValue::Bool(true))
}

/// The error text of a refused command: the reply's `error` string, or a fixed text.
pub open spec fn refusal_text(response: JsonValue) -> Seq<char> {
    match field_text(response, "error"@) {
        Some(m) => m,
        None => "unknown cmux error"@,
    }
}

/// Checks the reply to the command `cmd` and takes out its `data` (an empty object
/// when the reply has none).
pub fn command_data(response: JsonValue, cmd: &str) -> (r: Result<JsonValue, ProtocolError>)
    ensures
        r is Ok <==> command_succeeded(response),
        r matches Ok(d) ==> match field(response, "data"@) {
            Some(x) => d == x,
            None => d matches JsonValue::Object(es) && es@.len() == 0,
        },
        r matches Err(e) ==> e matches ProtocolError::Command { cmd: c, message: m } && c@
            == cmd@ && m@ == refusal_text(response),
{
    let ok = match response.get("ok") {
        Some(JsonValue::Bool(true)) => true,
        _ => false,
    };
    if !ok {
        let message = match response.get_text("error") {
            Some(m) => m.clone(),
            None => String::from_str("unknown cmux error"),
        };
        return Err(ProtocolError::Command { cmd: String::from_str(cmd), message });
    }
    match response.take_field("data") {
        Some(d) => Ok(d),
        None => Ok(JsonValue::Object(Vec::new())),
    }
}

/// One agent record read from its JSON object; `session` is optional.
pub open spec fn parse_record(r: JsonValue) -> Result<AgentRecordView, ProtocolError> {
    match field_u64(r, "surface"@) {
        None => Err(ProtocolError::MissingSurface),
        Some(surface) => match field_text(r, "state"@) {
            None => Err(ProtocolError::MissingState),
            Some(state) => match field_u64(r, "updated_at_ms"@) {
                None => Err(ProtocolError::MissingUpdatedAt),
                Some(updated_at_ms) => Ok(
                    AgentRecordView {
                        surface,
                        state,
                        session: field_text(r, "session"@),
                        updated_at_ms,
                    },
                ),
            },
        },
    }
}

/// The records read in order; the first record that fails decides the error.
pub open spec fn parse_records(rs: Seq<JsonValue>) -> Result<Seq<AgentRecordView>, ProtocolError>
    decreases rs.len(),
{
    if rs.len() == 0 {
        Ok(Seq::empty())
    } else {
        match parse_records(rs.drop_last()) {
            Err(e) => Err(e),
            Ok(prev) => match parse_record(rs.last()) {
                Err(e) => Err(e),
                Ok(r) => Ok(prev.push(r)),
            },
        }
    }
}

/// The agents that `list-agents` data reports.
pub open spec fn parsed_agents(data: JsonValue) -> Result<Seq<AgentRecordView>, ProtocolError> {
    match field_array(data, "agents"@) {
        None => Err(ProtocolError::MissingAgents),
        Some(rs) => parse_records(rs),
    }
}

/// The views of a sequence of records.
pub open spec fn record_views(s: Seq<AgentRecord>) -> Seq<AgentRecordView> {
    s.map_values(|r: AgentRecord| r@)
}

fn parse_record_exec(r: &JsonValue) -> (out: Result<AgentRecord, ProtocolError>)
    ensures
        match parse_record(*r) {
            Ok(v) => out matches Ok(a) && a@ == v,
            Err(e) => out matches Err(e2) && e2 == e,
        },
{
    let surface = match r.get_u64("surface") {
        Some(s) => s,
        None => return Err(ProtocolError::MissingSurface),
    };
    let state = match r.get_text("state") {
        Some(s) => s.clone(),
        None => return Err(ProtocolError::MissingState),
    };
    let session = match r.get_text("session") {
        Some(s) => Some(s.clone()),
        None => None,
    };
    let updated_at_ms = match r.get_u64("updated_at_ms") {
        Some(u) => u,
        None => return Err(ProtocolError::MissingUpdatedAt),
    };
    Ok(AgentRecord { surface, state, session, updated_at_ms })
}

proof fn lemma_parse_records_error_persists(rs: Seq<JsonValue>, k: int, n: int)
    requires
        0 <= k <= n <= rs.len(),
        parse_records(rs.take(k)) is Err,
    ensures
        parse_records(rs.take(n)) == parse_records(rs.take(k)),
    decreases n - k,
{
    if n > k {
        lemma_parse_records_error_persists(rs, k, n - 1);
        assert(rs.take(n).drop_last() =~= rs.take(n - 1));
    }
}

/// Reads the agent records of `list-agents` data.
pub fn parse_agents(data: &JsonValue) -> (out: Result<Vec<AgentRecord>, ProtocolError>)
    ensures
        match parsed_agents(*data) {
            Ok(rs) => out matches Ok(v) && record_views(v@) == rs,
            Err(e) => out matches Err(e2) && e2 == e,
        },
{
    let records = match data.get_array("agents") {
        Some(rs) => rs,
        None => return Err(ProtocolError::MissingAgents),
    };
    let mut agents: Vec<AgentRecord> = Vec::new();
    let mut i: usize = 0;
    assert(records@.take(0) =~= Seq::<JsonValue>::empty());
    assert(record_views(agents@) =~= Seq::<AgentRecordView>::empty());
    while i < records.len()
        invariant
            field_array(*data, "agents"@) == Some(records@),
            i <= records@.len(),
            parse_records(records@.take(i as int)) == Ok::<Seq<AgentRecordView>, ProtocolError>(
                record_views(agents@),
            ),
        decreases records@.len() - i,
    {
        assert(records@.take(i + 1).drop_last() =~= records@.take(i as int));
        match parse_record_exec(&records[i]) {
            Ok(a) => {
                let ghost prev = agents@;
                agents.push(a);
                assert(record_views(agents@) =~= record_views(prev).push(a@));
            },
            Err(e) => {
                proof {
                    lemma_parse_records_error_persists(records@, i + 1, records@.len() as int);
                    assert(records@.take(records@.len() as int) =~= records@);
                }
                return Err(e);
            },
        }
        i += 1;
    }
    assert(records@.take(i as int) =~= records@);
    Ok(agents)
}


/// The views of a sequence of notification states.
pub open spec fn unread_views(s: Seq<UnreadNotification>) -> Seq<UnreadView> {
    s.map_values(|n: UnreadNotification| n@)
}

/// The notification state of one tab: present when the tab has a numeric `surface`
/// and a `notification` object with a numeric `notification` id; `unread` defaults to
/// false and `level` to `info`.
pub open spec fn tab_unread(tab: JsonValue) -> Seq<UnreadView> {
    match (field_u64(tab, "surface"@), field_object(tab, "notification"@)) {
        (Some(surface), Some(n)) => match field_u64(n, "notification"@) {
            Some(id) => seq![
                UnreadView {
                    id,
                    surface,
                    unread: match field_bool(n, "unread"@) {
                        Some(b) => b,
                        None => false,
                    },
                    level: match field_text(n, "level"@) {
                        Some(l) => l,
                        None => "info"@,
                    },
                },
            ],
            None => Seq::empty(),
        },
        _ => Seq::empty(),
    }
}

/// A tab yields at most one notification state, and only with a numeric surface and a
/// notification object holding a numeric id; that state carries the tab's surface and
/// the object's id, is unread only when the object says `unread: true`, and has the
/// object's level or, lacking one, `info`.
pub proof fn lemma_tab_notification(tab: JsonValue)
    ensures
        tab_unread(tab).len() <= 1,
        tab_unread(tab).len() == 1 ==> ({
            let v = tab_unread(tab)[0];
            let n = field_object(tab, "notification"@)->0;
            &&& field_u64(tab, "surface"@) == Some(v.surface)
            &&& field_object(tab, "notification"@) is Some
            &&& field_u64(n, "notification"@) == Some(v.id)
            &&& v.unread <==> field_bool(n, "unread"@) == Some(true)
            &&& field_text(n, "level"@) is None ==> v.level == "info"@
            &&& field_text(n, "level"@) matches Some(l) ==> v.level == l
        }),
        field_u64(tab, "surface"@) is Some && field_object(tab, "notification"@) is Some
            && field_u64(field_object(tab, "notification"@)->0, "notification"@) is Some
            ==> tab_unread(tab).len() == 1,
{
}

/// The notification states of the members `key` of `v`, each read by `f`, in order;
/// nothing when `v` has no such array.
pub open spec fn nested_unread(
    v: JsonValue,
    key: Seq<char>,
    f: spec_fn(JsonValue) -> Seq<UnreadView>,
) -> Seq<UnreadView> {
    match field_array(v, key) {
        Some(items) => concat_all(items.map_values(f)),
        None => Seq::empty(),
    }
}

/// The notification states of a pane's tabs.
pub open spec fn pane_unread(pane: JsonValue) -> Seq<UnreadView> {
    nested_unread(pane, "tabs"@, |t: JsonValue| tab_unread(t))
}

/// The notification states of a screen's panes.
pub open spec fn screen_unread(screen: JsonValue) -> Seq<UnreadView> {
    nested_unread(screen, "panes"@, |p: JsonValue| pane_unread(p))
}

/// The notification states of a workspace's screens.
pub open spec fn workspace_unread(workspace: JsonValue) -> Seq<UnreadView> {
    nested_unread(workspace, "screens"@, |s: JsonValue| screen_unread(s))
}

/// The notification states of every tab of `list-workspaces` data, in tree order.
pub open spec fn unread_of(data: JsonValue) -> Seq<UnreadView> {
    nested_unread(data, "workspaces"@, |w: JsonValue| workspace_unread(w))
}

fn collect_tab(tab: &JsonValue, out: &mut Vec<UnreadNotification>)
    ensures
        unread_views(final(out)@) == unread_views(old(out)@) + tab_unread(*tab),
{
    let ghost start = out@;
    let surface = match tab.get_u64("surface") {
        Some(s) => s,
        None => {
            assert(unread_views(out@) =~= unread_views(start) + tab_unread(*tab));
            return;
        },
    };
    let notification = match tab.get_object("notification") {
        Some(n) => n,
        None => {
            assert(unread_views(out@) =~= unread_views(start) + tab_unread(*tab));
            return;
        },
    };
    let id = match notification.get_u64("notification") {
        Some(id) => id,
        None => {
            assert(unread_views(out@) =~= unread_views(start) + tab_unread(*tab));
            return;
        },
    };
    let unread = match notification.get_bool("unread") {
        Some(b) => b,
        None => false,
    };
    let level = match notification.get_text("level") {
        Some(l) => l.clone(),
        None => String::from_str("info"),
    };
    out.push(UnreadNotification { id, surface, unread, level });
    assert(unread_views(out@) =~= unread_views(start) + tab_unread(*tab));
}

fn collect_pane(pane: &JsonValue, out: &mut Vec<UnreadNotification>)
    ensures
        unread_views(final(out)@) == unread_views(old(out)@) + pane_unread(*pane),
{
    let ghost start = unread_views(out@);
    let tabs = match pane.get_array("tabs") {
        Some(t) => t,
        None => {
            assert(unread_views(out@) =~= start + pane_unread(*pane));
            return;
        },
    };
    let ghost f = |t: JsonValue| tab_unread(t);
    let ghost parts = tabs@.map_values(f);
    assert(concat_all(parts.take(0)) =~= Seq::<UnreadView>::empty());
    assert(unread_views(out@) =~= start + concat_all(parts.take(0)));
    let mut i: usize = 0;
    while i < tabs.len()
        invariant
            i <= tabs@.len(),
            parts == tabs@.map_values(f),
            f == (|t: JsonValue| tab_unread(t)),
            unread_views(out@) == start + concat_all(parts.take(i as int)),
        decreases tabs@.len() - i,
    {
        collect_tab(&tabs[i], out);
        proof {
            lemma_concat_all_step(parts, i as int);
            assert(start + concat_all(parts.take(i + 1)) =~= start + concat_all(parts.take(i as int))
                + parts[i as int]);
        }
        i += 1;
    }
    assert(parts.take(i as int) =~= parts);
}

fn collect_screen(screen: &JsonValue, out: &mut Vec<UnreadNotification>)
    ensures
        unread_views(final(out)@) == unread_views(old(out)@) + screen_unread(*screen),
{
    let ghost start = unread_views(out@);
    let panes = match screen.get_array("panes") {
        Some(p) => p,
        None => {
            assert(unread_views(out@) =~= start + screen_unread(*screen));
            return;
        },
    };
    let ghost f = |p: JsonValue| pane_unread(p);
    let ghost parts = panes@.map_values(f);
    assert(concat_all(parts.take(0)) =~= Seq::<UnreadView>::empty());
    assert(unread_views(out@) =~= start + concat_all(parts.take(0)));
    let mut i: usize = 0;
    while i < panes.len()
        invariant
            i <= panes@.len(),
            parts == panes@.map_values(f),
            f == (|p: JsonValue| pane_unread(p)),
            unread_views(out@) == start + concat_all(parts.take(i as int)),
        decreases panes@.len() - i,
    {
        collect_pane(&panes[i], out);
        proof {
            lemma_concat_all_step(parts, i as int);
            assert(start + concat_all(parts.take(i + 1)) =~= start + concat_all(parts.take(i as int))
                + parts[i as int]);
        }
        i += 1;
    }
    assert(parts.take(i as int) =~= parts);
}

fn collect_workspace(workspace: &JsonValue, out: &mut Vec<UnreadNotification>)
    ensures
        unread_views(final(out)@) == unread_views(old(out)@) + workspace_unread(*workspace),
{
    let ghost start = unread_views(out@);
    let screens = match workspace.get_array("screens") {
        Some(s) => s,
        None => {
            assert(unread_views(out@) =~= start + workspace_unread(*workspace));
            return;
        },
    };
    let ghost f = |s: JsonValue| screen_unread(s);
    let ghost parts = screens@.map_values(f);
    assert(concat_all(parts.take(0)) =~= Seq::<UnreadView>::empty());
    assert(unread_views(out@) =~= start + concat_all(parts.take(0)));
    let mut i: usize = 0;
    while i < screens.len()
        invariant
            i <= screens@.len(),
            parts == screens@.map_values(f),
            f == (|s: JsonValue| screen_unread(s)),
            unread_views(out@) == start + concat_all(parts.take(i as int)),
        decreases screens@.len() - i,
    {
        collect_screen(&screens[i], out);
        proof {
            lemma_concat_all_step(parts, i as int);
            assert(start + concat_all(parts.take(i + 1)) =~= start + concat_all(parts.take(i as int))
                + parts[i as int]);
        }
        i += 1;
    }
    assert(parts.take(i as int) =~= parts);
}

/// The notification state of every tab of `list-workspaces` data, in tree order.
pub fn unread_notifications(data: &JsonValue) -> (out: Vec<UnreadNotification>)
    ensures
        unread_views(out@) == unread_of(*data),
{
    let mut out: Vec<UnreadNotification> = Vec::new();
    let workspaces = match data.get_array("workspaces") {
        Some(w) => w,
        None => {
            assert(unread_views(out@) =~= unread_of(*data));
            return out;
        },
    };
    let ghost f = |w: JsonValue| workspace_unread(w);
    let ghost parts = workspaces@.map_values(f);
    assert(concat_all(parts.take(0)) =~= Seq::<UnreadView>::empty());
    assert(unread_views(out@) =~= concat_all(parts.take(0)));
    let mut i: usize = 0;
    while i < workspaces.len()
        invariant
            i <= workspaces@.len(),
            parts == workspaces@.map_values(f),
            f == (|w: JsonValue| workspace_unread(w)),
            unread_views(out@) == concat_all(parts.take(i as int)),
        decreases workspaces@.len() - i,
    {
        collect_workspace(&workspaces[i], &mut out);
        proof {
            lemma_concat_all_step(parts, i as int);
        }
        i += 1;
    }
    assert(parts.take(i as int) =~= parts);
    out
}

/// What a reply's `data` is taken to be: the member `data`, or an empty object when
/// the reply has none.
pub open spec fn reply_data(reply: JsonValue, d: JsonValue) -> bool {
    match field(reply, "data"@) {
        Some(x) => d == x,
        None => d matches JsonValue::Object(entries) && entries@.len() == 0,
    }
}

/// The `list-workspaces` data of a successful reply, together with the workspace tree
/// read from it.
pub struct Workspaces {
    tree: Tree,
    data: JsonValue,
}

impl Workspaces {
    /// The workspace tree.
    pub closed spec fn tree_spec(self) -> Tree {
        self.tree
    }

    /// The `list-workspaces` data.
    pub closed spec fn data_spec(self) -> JsonValue {
        self.data
    }

    /// The tree is the one the data decodes to.
    #[verifier::type_invariant]
    spec fn decoded(self) -> bool {
        tree_of(self.data) == Some(self.tree)
    }

    /// The workspace tree.
    pub fn tree(&self) -> (t: &Tree)
        ensures
            *t == self.tree_spec(),
    {
        &self.tree
    }

    /// The `list-workspaces` data.
    pub fn data(&self) -> (d: &JsonValue)
        ensures
            *d == self.data_spec(),
    {
        &self.data
    }
}

/// Checks the reply to `list-workspaces` and reads the workspace tree from its data.
pub fn read_workspaces(reply: JsonValue) -> (r: Result<Workspaces, ProtocolError>)
    ensures
        r is Ok ==> command_succeeded(reply),
        !command_succeeded(reply) ==> (r matches Err(ProtocolError::Command { cmd, message })
            && cmd@ == "list-workspaces"@ && message@ == refusal_text(reply)),
        r matches Ok(w) ==> reply_data(reply, w.data_spec()) && tree_of(w.data_spec()) == Some(
            w.tree_spec(),
        ),
        command_succeeded(reply) && r is Err ==> r matches Err(ProtocolError::InvalidTree),
        command_succeeded(reply) ==> (r is Ok <==> (field(reply, "data"@) matches Some(d)
            && tree_of(d) is Some)),
{
    let data = match command_data(reply, "list-workspaces") {
        Ok(d) => d,
        Err(e) => return Err(e),
    };
    assert(reply_data(reply, data));
    match parse_tree(&data) {
        Some(tree) => Ok(Workspaces { tree, data }),
        None => Err(ProtocolError::InvalidTree),
    }
}

/// The agents that a `list-agents` reply reports: those of its data, and none (no
/// agents array) when it has no data.
pub open spec fn reply_agents(reply: JsonValue) -> Result<Seq<AgentRecordView>, ProtocolError> {
    match field(reply, "data"@) {
        Some(d) => parsed_agents(d),
        None => Err(ProtocolError::MissingAgents),
    }
}

/// Completes one poll: checks the reply to `list-agents` and reads its agents, and
/// resolves the surface targets and notification states of the `list-workspaces` data.
pub fn read_agents(workspaces: Workspaces, reply: JsonValue) -> (r: Result<Snapshot, ProtocolError>)
    ensures
        !command_succeeded(reply) ==> (r matches Err(ProtocolError::Command { cmd, message })
            && cmd@ == "list-agents"@ && message@ == refusal_text(reply)),
        command_succeeded(reply) ==> match reply_agents(reply) {
            Ok(rs) => r matches Ok(s) && record_views(s.agents@) == rs && target_views(s.targets@)
                == surface_targets(workspaces.tree_spec()) && unread_views(s.unread@) == unread_of(
                workspaces.data_spec(),
            ),
            Err(e) => r matches Err(e2) && e2 == e,
        },
        tree_of(workspaces.data_spec()) == Some(workspaces.tree_spec()),
{
    proof {
        use_type_invariant(&workspaces);
    }
    let data = match command_data(reply, "list-agents") {
        Ok(d) => d,
        Err(e) => return Err(e),
    };
    let targets = index_surfaces(&workspaces.tree);
    let unread = unread_notifications(&workspaces.data);
    let agents = parse_agents(&data)?;
    Ok(Snapshot { agents, targets, unread })
}

} // verus!
