//! The sidebar's data model: agent records as reported, the rows shown for them,
//! surface targets resolved from the workspace tree, and notifications.

use std::collections::HashMap;

use vstd::prelude::*;

use crate::seqs::{
    concat_all, insert_all, lemma_concat_all_contains, lemma_concat_all_index, lemma_concat_all_step,
    lemma_insert_all_append, lemma_insert_all_keys, lemma_insert_all_source,
};
use crate::sort::{
    is_stable_arrangement, is_stable_sort_of, is_sorted_by, lemma_stable_sort_map,
    lemma_stable_sort_unique, order_of,
    stable_sort, SortOrder,
};
use crate::text::{
    decimal, decimal_string, lemma_text_order, same_text, text_precedes, text_precedes_exec,
};

verus! {

broadcast use vstd::std_specs::hash::group_hash_axioms;

/// One agent as `list-agents` reports it.
#[derive(Debug, Clone, PartialEq, Eq)]
pub struct AgentRecord {
    pub surface: u64,
    pub state: String,
    pub session: Option<String>,
    pub updated_at_ms: u64,
}

/// An `AgentRecord` with its texts as character sequences.
pub struct AgentRecordView {
    pub surface: u64,
    pub state: Seq<char>,
    pub session: Option<Seq<char>>,
    pub updated_at_ms: u64,
}

impl View for AgentRecord {
    type V = AgentRecordView;

    open spec fn view(&self) -> AgentRecordView {
        AgentRecordView {
            surface: self.surface,
            state: self.state@,
            session: match self.session {
                Some(s) => Some(s@),
                None => None,
            },
            updated_at_ms: self.updated_at_ms,
        }
    }
}

/// Where a surface lives in the workspace tree, and how to name it.
#[derive(Debug, Clone, PartialEq, Eq)]
pub struct SurfaceTarget {
    pub surface: u64,
    pub workspace_index: usize,
    pub screen_index: usize,
    pub pane: u64,
    pub tab_index: usize,
    pub breadcrumb: String,
    pub display_name: String,
}

/// A `SurfaceTarget` with its texts as character sequences.
pub struct SurfaceTargetView {
    pub surface: u64,
    pub workspace_index: usize,
    pub screen_index: usize,
    pub pane: u64,
    pub tab_index: usize,
    pub breadcrumb: Seq<char>,
    pub display_name: Seq<char>,
}

impl View for SurfaceTarget {
    type V = SurfaceTargetView;

    open spec fn view(&self) -> SurfaceTargetView {
        SurfaceTargetView {
            surface: self.surface,
            workspace_index: self.workspace_index,
            screen_index: self.screen_index,
            pane: self.pane,
            tab_index: self.tab_index,
            breadcrumb: self.breadcrumb@,
            display_name: self.display_name@,
        }
    }
}

impl SurfaceTarget {
    /// A copy of this target.
    pub fn duplicate(&self) -> (r: SurfaceTarget)
        ensures
            r == *self,
    {
        SurfaceTarget {
            surface: self.surface,
            workspace_index: self.workspace_index,
            screen_index: self.screen_index,
            pane: self.pane,
            tab_index: self.tab_index,
            breadcrumb: self.breadcrumb.clone(),
            display_name: self.display_name.clone(),
        }
    }
}

/// The display group of an agent.
#[derive(Debug, Clone, Copy, PartialEq, Eq, Structural)]
pub enum AgentStatus {
    NeedsAttention,
    Running,
    Done,
}

/// The glyph shown for each display group.
pub open spec fn status_glyph(status: AgentStatus) -> Seq<char> {
    match status {
        AgentStatus::NeedsAttention => "⚠"@,
        AgentStatus::Running => "●"@,
        AgentStatus::Done => "✔"@,
    }
}

/// The rank of each display group: attention first, then running, then done.
pub open spec fn status_priority(status: AgentStatus) -> int {
    match status {
        AgentStatus::NeedsAttention => 0,
        AgentStatus::Running => 1,
        AgentStatus::Done => 2,
    }
}

impl AgentStatus {
    /// The glyph shown for this group: `⚠` needs attention, `●` running, `✔` done.
    pub fn glyph(self) -> (g: &'static str)
        ensures
            g@ == status_glyph(self),
    {
        match self {
            AgentStatus::NeedsAttention => "⚠",
            AgentStatus::Running => "●",
            AgentStatus::Done => "✔",
        }
    }

    fn priority(self) -> (p: u8)
        ensures
            p as int == status_priority(self),
    {
        match self {
            AgentStatus::NeedsAttention => 0,
            AgentStatus::Running => 1,
            AgentStatus::Done => 2,
        }
    }
}

/// One agent row as the sidebar shows it.
#[derive(Debug, Clone, PartialEq, Eq)]
pub struct AgentRow {
    pub surface: u64,
    pub status: AgentStatus,
    pub name: String,
    pub breadcrumb: String,
    pub age: String,
    pub updated_at_ms: u64,
}

/// An `AgentRow` with its texts as character sequences.
pub struct AgentRowView {
    pub surface: u64,
    pub status: AgentStatus,
    pub name: Seq<char>,
    pub breadcrumb: Seq<char>,
    pub age: Seq<char>,
    pub updated_at_ms: u64,
}

impl View for AgentRow {
    type V = AgentRowView;

    open spec fn view(&self) -> AgentRowView {
        AgentRowView {
            surface: self.surface,
            status: self.status,
            name: self.name@,
            breadcrumb: self.breadcrumb@,
            age: self.age@,
            updated_at_ms: self.updated_at_ms,
        }
    }
}

/// A notification the sidebar lists.
#[derive(Debug, Clone, PartialEq, Eq)]
pub struct RecentNotification {
    pub id: u64,
    pub title: String,
    pub level: String,
    pub surface: Option<u64>,
    pub breadcrumb: String,
    pub unread: bool,
    pub created_at_ms: u64,
}

/// A `RecentNotification` with its texts as character sequences.
pub struct RecentNotificationView {
    pub id: u64,
    pub title: Seq<char>,
    pub level: Seq<char>,
    pub surface: Option<u64>,
    pub breadcrumb: Seq<char>,
    pub unread: bool,
    pub created_at_ms: u64,
}

impl View for RecentNotification {
    type V = RecentNotificationView;

    open spec fn view(&self) -> RecentNotificationView {
        RecentNotificationView {
            id: self.id,
            title: self.title@,
            level: self.level@,
            surface: self.surface,
            breadcrumb: self.breadcrumb@,
            unread: self.unread,
            created_at_ms: self.created_at_ms,
        }
    }
}

/// Notification order: newest first, and the larger id first at equal times.
pub open spec fn notification_precedes(a: RecentNotificationView, b: RecentNotificationView) -> bool {
    ||| a.created_at_ms > b.created_at_ms
    ||| a.created_at_ms == b.created_at_ms && a.id > b.id
}

impl SortOrder for RecentNotification {
    open spec fn precedes(self, other: Self) -> bool {
        notification_precedes(self@, other@)
    }

    proof fn lemma_strict_weak_order(a: Self, b: Self, c: Self) {
    }

    fn precedes_exec(&self, other: &Self) -> (r: bool) {
        self.created_at_ms > other.created_at_ms || (self.created_at_ms == other.created_at_ms
            && self.id > other.id)
    }
}

/// The notification state that `list-workspaces` reports for one tab.
#[derive(Debug, Clone, PartialEq, Eq)]
pub struct UnreadNotification {
    pub id: u64,
    pub surface: u64,
    pub unread: bool,
    pub level: String,
}

/// An `UnreadNotification` with its level as a character sequence.
pub struct UnreadView {
    pub id: u64,
    pub surface: u64,
    pub unread: bool,
    pub level: Seq<char>,
}

impl View for UnreadNotification {
    type V = UnreadView;

    open spec fn view(&self) -> UnreadView {
        UnreadView { id: self.id, surface: self.surface, unread: self.unread, level: self.level@ }
    }
}

/// The display group of a reported agent state: `working` runs, `done` and `idle` are
/// done, and anything else (`blocked`, `unknown`, or a state not known here) needs
/// attention.
pub open spec fn status_of_state(state: Seq<char>) -> AgentStatus {
    if state == "working"@ {
        AgentStatus::Running
    } else if state == "done"@ || state == "idle"@ {
        AgentStatus::Done
    } else {
        AgentStatus::NeedsAttention
    }
}

/// Maps a reported agent state to its display group.
pub fn status_from_state(state: &str) -> (s: AgentStatus)
    ensures
        s == status_of_state(state@),
{
    if same_text(state, "working") {
        AgentStatus::Running
    } else if same_text(state, "done") || same_text(state, "idle") {
        AgentStatus::Done
    } else {
        AgentStatus::NeedsAttention
    }
}

/// The age label for `age_ms` milliseconds: whole seconds, minutes, hours or days,
/// the largest unit that fits, and `now` under a second.
pub open spec fn age_label(age_ms: nat) -> Seq<char> {
    let seconds = age_ms / 1000;
    if seconds == 0 {
        "now"@
    } else if seconds < 60 {
        decimal(seconds) + "s"@
    } else if seconds < 3600 {
        decimal(seconds / 60) + "m"@
    } else if seconds < 86400 {
        decimal(seconds / 3600) + "h"@
    } else {
        decimal(seconds / 86400) + "d"@
    }
}

/// Formats an age in milliseconds as `now`, `12s`, `3m`, `2h` or `4d`.
pub fn format_age(age_ms: u64) -> (label: String)
    ensures
        label@ == age_label(age_ms as nat),
{
    let seconds = age_ms / 1000;
    if seconds == 0 {
        String::from_str("now")
    } else if seconds < 60 {
        let mut label = decimal_string(seconds);
        label.append("s");
        label
    } else if seconds < 3600 {
        let mut label = decimal_string(seconds / 60);
        label.append("m");
        label
    } else if seconds < 86400 {
        let mut label = decimal_string(seconds / 3600);
        label.append("h");
        label
    } else {
        let mut label = decimal_string(seconds / 86400);
        label.append("d");
        label
    }
}

/// The target a map of targets holds for `surface`, if any.
pub open spec fn target_for(targets: Map<u64, SurfaceTarget>, surface: u64) -> Option<
    SurfaceTarget,
> {
    if targets.contains_key(surface) {
        Some(targets[surface])
    } else {
        None
    }
}

/// The name of an agent: its reported session when that is not empty, else its
/// surface's display name, else `agent <surface>`.
pub open spec fn agent_name(record: AgentRecord, target: Option<SurfaceTarget>) -> Seq<char> {
    if record.session is Some && record.session->0@.len() > 0 {
        record.session->0@
    } else if target is Some {
        target->0.display_name@
    } else {
        "agent "@ + decimal(record.surface as nat)
    }
}

/// The breadcrumb of an agent: its surface's, else `surface <surface>`.
pub open spec fn agent_breadcrumb(record: AgentRecord, target: Option<SurfaceTarget>) -> Seq<
    char,
> {
    if target is Some {
        target->0.breadcrumb@
    } else {
        "surface "@ + decimal(record.surface as nat)
    }
}

/// The row shown for `record` at time `now_ms`, given its surface's target.
pub open spec fn row_for(record: AgentRecord, target: Option<SurfaceTarget>, now_ms: u64) -> AgentRowView {
    AgentRowView {
        surface: record.surface,
        status: status_of_state(record.state@),
        name: agent_name(record, target),
        breadcrumb: agent_breadcrumb(record, target),
        age: age_label(
            (if now_ms >= record.updated_at_ms { now_ms - record.updated_at_ms } else { 0 }) as nat,
        ),
        updated_at_ms: record.updated_at_ms,
    }
}

fn record_to_row(record: &AgentRecord, target: Option<&SurfaceTarget>, now_ms: u64) -> (row: AgentRow)
    ensures
        row@ == row_for(*record, match target { Some(t) => Some(*t), None => None }, now_ms),
{
    let ghost t = match target { Some(t) => Some(*t), None => None };
    let name = match &record.session {
        Some(session) if !session.as_str().is_empty() => session.clone(),
        _ => match target {
            Some(target) => target.display_name.clone(),
            None => {
                let mut name = String::from_str("agent ");
                name.append(decimal_string(record.surface).as_str());
                name
            },
        },
    };
    let breadcrumb = match target {
        Some(target) => target.breadcrumb.clone(),
        None => {
            let mut crumb = String::from_str("surface ");
            crumb.append(decimal_string(record.surface).as_str());
            crumb
        },
    };
    AgentRow {
        surface: record.surface,
        status: status_from_state(record.state.as_str()),
        name,
        breadcrumb,
        age: format_age(now_ms.saturating_sub(record.updated_at_ms)),
        updated_at_ms: record.updated_at_ms,
    }
}

/// Row order: by display group (attention, running, done), then newest update first,
/// then by name.
pub open spec fn row_precedes(a: AgentRowView, b: AgentRowView) -> bool {
    ||| status_priority(a.status) < status_priority(b.status)
    ||| status_priority(a.status) == status_priority(b.status) && a.updated_at_ms > b.updated_at_ms
    ||| status_priority(a.status) == status_priority(b.status) && a.updated_at_ms
        == b.updated_at_ms && text_precedes(a.name, b.name)
}

impl SortOrder for AgentRow {
    open spec fn precedes(self, other: Self) -> bool {
        row_precedes(self@, other@)
    }

    proof fn lemma_strict_weak_order(a: Self, b: Self, c: Self) {
        lemma_text_order(a.name@, b.name@, c.name@);
        lemma_text_order(b.name@, c.name@, a.name@);
        lemma_text_order(c.name@, a.name@, b.name@);
        lemma_text_order(a.name@, c.name@, b.name@);
        lemma_text_order(b.name@, a.name@, c.name@);
        lemma_text_order(c.name@, b.name@, a.name@);
    }

    fn precedes_exec(&self, other: &Self) -> (r: bool) {
        let left = self.status.priority();
        let right = other.status.priority();
        if left != right {
            left < right
        } else if self.updated_at_ms != other.updated_at_ms {
            self.updated_at_ms > other.updated_at_ms
        } else {
            text_precedes_exec(self.name.as_str(), other.name.as_str())
        }
    }
}

/// The agent rows are determined by the records: two orderings of the same rows that
/// both meet the contract of `rows_from_records` are equal.
pub proof fn lemma_rows_determined(
    a: Seq<AgentRowView>,
    b: Seq<AgentRowView>,
    rows: Seq<AgentRowView>,
)
    requires
        is_stable_sort_of(a, rows, |x: AgentRowView, y: AgentRowView| row_precedes(x, y)),
        is_stable_sort_of(b, rows, |x: AgentRowView, y: AgentRowView| row_precedes(x, y)),
    ensures
        a == b,
{
    let prec = |x: AgentRowView, y: AgentRowView| row_precedes(x, y);
    assert forall|x: AgentRowView, y: AgentRowView| #[trigger] prec(x, y) implies !prec(y, x) by {
        lemma_text_order(x.name, y.name, x.name);
    }
    lemma_stable_sort_unique(a, b, rows, prec);
}

/// The rows for `records`, before ordering.
pub open spec fn rows_for(
    records: Seq<AgentRecord>,
    targets: Map<u64, SurfaceTarget>,
    now_ms: u64,
) -> Seq<AgentRowView> {
    records.map_values(|r: AgentRecord| row_for(r, target_for(targets, r.surface), now_ms))
}

/// The row of each record: same surface and update time; named by its session when
/// that is present and not empty, else by its surface's display name when the surface
/// is known, else `agent <surface>`; under its surface's breadcrumb when the surface is
/// known, else `surface <surface>`; in the display group of its state; aged by the time
/// since its update (none when the update lies in the future).
pub proof fn lemma_row_fields(
    records: Seq<AgentRecord>,
    targets: Map<u64, SurfaceTarget>,
    now_ms: u64,
    i: int,
)
    requires
        0 <= i < records.len(),
    ensures
        ({
            let r = records[i];
            let row = rows_for(records, targets, now_ms)[i];
            let named = r.session is Some && r.session->0@.len() > 0;
            &&& row.surface == r.surface
            &&& row.updated_at_ms == r.updated_at_ms
            &&& named ==> row.name == r.session->0@
            &&& !named && targets.contains_key(r.surface) ==> row.name
                == targets[r.surface].display_name@
            &&& !named && !targets.contains_key(r.surface) ==> row.name == "agent "@ + decimal(
                r.surface as nat,
            )
            &&& targets.contains_key(r.surface) ==> row.breadcrumb == targets[r.surface].breadcrumb@
            &&& !targets.contains_key(r.surface) ==> row.breadcrumb == "surface "@ + decimal(
                r.surface as nat,
            )
            &&& row.status == status_of_state(r.state@)
            &&& now_ms >= r.updated_at_ms ==> row.age == age_label((now_ms - r.updated_at_ms) as nat)
            &&& now_ms < r.updated_at_ms ==> row.age == "now"@
        }),
{
}

/// The display groups: `working` runs; `done` and `idle` are done; every other state
/// needs attention.
pub proof fn lemma_status_groups(state: Seq<char>)
    ensures
        status_of_state("working"@) == AgentStatus::Running,
        status_of_state("done"@) == AgentStatus::Done,
        status_of_state("idle"@) == AgentStatus::Done,
        state != "working"@ && state != "done"@ && state != "idle"@ ==> status_of_state(state)
            == AgentStatus::NeedsAttention,
{
    reveal_strlit("working");
    reveal_strlit("done");
    reveal_strlit("idle");
    assert("done"@ != "working"@) by {
        assert("done"@.len() != "working"@.len());
    }
    assert("idle"@ != "working"@) by {
        assert("idle"@.len() != "working"@.len());
    }
}

/// Ages: under a second reads `now`; otherwise the count of the largest whole unit
/// (seconds under a minute, minutes under an hour, hours under a day, else days)
/// followed by its letter.
pub proof fn lemma_age_units(age_ms: nat)
    ensures
        age_ms < 1000 ==> age_label(age_ms) == "now"@,
        1000 <= age_ms < 60_000 ==> age_label(age_ms) == decimal(age_ms / 1000) + "s"@,
        60_000 <= age_ms < 3_600_000 ==> age_label(age_ms) == decimal(age_ms / 60_000) + "m"@,
        3_600_000 <= age_ms < 86_400_000 ==> age_label(age_ms) == decimal(age_ms / 3_600_000)
            + "h"@,
        86_400_000 <= age_ms ==> age_label(age_ms) == decimal(age_ms / 86_400_000) + "d"@,
{
    assert(age_ms / 1000 / 60 == age_ms / 60_000) by (nonlinear_arith);
    assert(age_ms / 1000 / 3600 == age_ms / 3_600_000) by (nonlinear_arith);
    assert(age_ms / 1000 / 86400 == age_ms / 86_400_000) by (nonlinear_arith);
    assert(age_ms < 1000 <==> age_ms / 1000 == 0) by (nonlinear_arith);
    assert(age_ms < 60_000 <==> age_ms / 1000 < 60) by (nonlinear_arith);
    assert(age_ms < 3_600_000 <==> age_ms / 1000 < 3600) by (nonlinear_arith);
    assert(age_ms < 86_400_000 <==> age_ms / 1000 < 86400) by (nonlinear_arith);
}

/// When no two rows tie, the agent rows do not depend on the order of the records:
/// for `b` a rearrangement of `a` (`b[i] == a[q[i]]`, `q` one-to-one), the rows that
/// `rows_from_records` owes for `a` and for `b` are equal.
pub proof fn lemma_rows_ignore_record_order(
    a: Seq<AgentRecord>,
    b: Seq<AgentRecord>,
    q: Seq<int>,
    targets: Map<u64, SurfaceTarget>,
    now_ms: u64,
    out_a: Seq<AgentRowView>,
    out_b: Seq<AgentRowView>,
)
    requires
        b.len() == a.len(),
        q.len() == a.len(),
        forall|i: int| 0 <= i < b.len() ==> 0 <= #[trigger] q[i] < a.len() && b[i] == a[q[i]],
        forall|i: int, j: int| 0 <= i < j < b.len() ==> #[trigger] q[i] != #[trigger] q[j],
        forall|i: int, j: int|
            0 <= i < j < a.len() ==> row_precedes(
                #[trigger] rows_for(a, targets, now_ms)[i],
                #[trigger] rows_for(a, targets, now_ms)[j],
            ) || row_precedes(rows_for(a, targets, now_ms)[j], rows_for(a, targets, now_ms)[i]),
        is_stable_sort_of(
            out_a,
            rows_for(a, targets, now_ms),
            |x: AgentRowView, y: AgentRowView| row_precedes(x, y),
        ),
        is_stable_sort_of(
            out_b,
            rows_for(b, targets, now_ms),
            |x: AgentRowView, y: AgentRowView| row_precedes(x, y),
        ),
    ensures
        out_a == out_b,
{
    let prec = |x: AgentRowView, y: AgentRowView| row_precedes(x, y);
    let ra = rows_for(a, targets, now_ms);
    let rb = rows_for(b, targets, now_ms);
    let pb = choose|p: Seq<int>| is_stable_arrangement(out_b, rb, p, prec);
    let p2 = Seq::new(pb.len(), |i: int| q[pb[i]]);
    assert forall|k: int| 0 <= k < rb.len() implies rb[k] == ra[q[k]] by {
        assert(b[k] == a[q[k]]);
    }
    assert forall|i: int| 0 <= i < out_b.len() implies 0 <= #[trigger] p2[i] < out_b.len()
        && out_b[i] == ra[p2[i]] by {
        assert(out_b[i] == rb[pb[i]]);
        assert(0 <= pb[i] < out_b.len());
    }
    assert forall|i: int, j: int| 0 <= i < j < out_b.len() implies #[trigger] p2[i]
        != #[trigger] p2[j] by {
        assert(pb[i] != pb[j]);
        if pb[i] < pb[j] {
            assert(q[pb[i]] != q[pb[j]]);
        } else {
            assert(q[pb[j]] != q[pb[i]]);
        }
    }
    assert forall|i: int, j: int|
        0 <= i < j < out_b.len() && !prec(#[trigger] out_b[i], #[trigger] out_b[j]) implies p2[i]
        < p2[j] by {
        assert(p2[i] != p2[j]);
        assert(!prec(out_b[j], out_b[i]));
        if p2[i] < p2[j] {
            assert(row_precedes(ra[p2[i]], ra[p2[j]]) || row_precedes(ra[p2[j]], ra[p2[i]]));
        } else {
            assert(row_precedes(ra[p2[j]], ra[p2[i]]) || row_precedes(ra[p2[i]], ra[p2[j]]));
        }
    }
    assert(is_stable_arrangement(out_b, ra, p2, prec));
    assert forall|x: AgentRowView, y: AgentRowView| #[trigger] prec(x, y) implies !prec(y, x) by {
        lemma_text_order(x.name, y.name, x.name);
    }
    lemma_stable_sort_unique(out_a, out_b, ra, prec);
}

/// The rows shown for `records`: one per record, ordered stably by `row_precedes`.
pub fn rows_from_records(
    records: &[AgentRecord],
    targets: &HashMap<u64, SurfaceTarget>,
    now_ms: u64,
) -> (rows: Vec<AgentRow>)
    ensures
        is_stable_sort_of(
            rows@.map_values(|r: AgentRow| r@),
            rows_for(records@, targets@, now_ms),
            |a: AgentRowView, b: AgentRowView| row_precedes(a, b),
        ),
        forall|i: int, j: int|
            0 <= i < j < rows@.len() ==> status_priority((#[trigger] rows@[i]).status)
                <= status_priority((#[trigger] rows@[j]).status),
        forall|i: int, j: int|
            0 <= i < j < rows@.len() && (#[trigger] rows@[i]).status == (#[trigger] rows@[j]).status
                ==> rows@[i].updated_at_ms >= rows@[j].updated_at_ms,
        forall|i: int, j: int|
            0 <= i < j < rows@.len() && (#[trigger] rows@[i]).status == (#[trigger] rows@[j]).status
                && rows@[i].updated_at_ms == rows@[j].updated_at_ms ==> !text_precedes(
                rows@[j].name@,
                rows@[i].name@,
            ),
{
    let mut unsorted: Vec<AgentRow> = Vec::new();
    let mut i: usize = 0;
    while i < records.len()
        invariant
            i <= records@.len(),
            unsorted@.len() == i,
            forall|j: int|
                0 <= j < i ==> (#[trigger] unsorted@[j])@ == row_for(
                    records@[j],
                    target_for(targets@, records@[j].surface),
                    now_ms,
                ),
        decreases records@.len() - i,
    {
        let record = &records[i];
        let row = record_to_row(record, targets.get(&record.surface), now_ms);
        unsorted.push(row);
        i += 1;
    }
    let ghost input = unsorted@;
    let rows = stable_sort(unsorted);
    let ghost f = |r: AgentRow| r@;
    let ghost prec_v = |a: AgentRowView, b: AgentRowView| row_precedes(a, b);
    proof {
        lemma_stable_sort_map(rows@, input, order_of::<AgentRow>(), f, prec_v);
        assert(input.map_values(f) =~= rows_for(records@, targets@, now_ms));
        assert forall|i: int, j: int| 0 <= i < j < rows@.len() implies status_priority(
            (#[trigger] rows@[i]).status,
        ) <= status_priority((#[trigger] rows@[j]).status) && (rows@[i].status == rows@[j].status
            ==> rows@[i].updated_at_ms >= rows@[j].updated_at_ms) && (rows@[i].status
            == rows@[j].status && rows@[i].updated_at_ms == rows@[j].updated_at_ms ==> !text_precedes(
            rows@[j].name@,
            rows@[i].name@,
        )) by {
            assert(is_sorted_by(rows@, order_of::<AgentRow>()));
            assert(!rows@[j].precedes(rows@[i]));
        }
    }
    rows
}


/// One tab of the workspace tree, as far as the sidebar reads it.
#[derive(Debug, Clone, PartialEq, Eq)]
pub struct Tab {
    pub surface: u64,
    pub name: Option<String>,
    pub title: String,
}

/// One pane of the workspace tree.
#[derive(Debug, Clone, PartialEq, Eq)]
pub struct Pane {
    pub id: u64,
    pub tabs: Vec<Tab>,
}

/// One screen of the workspace tree.
#[derive(Debug, Clone, PartialEq, Eq)]
pub struct Screen {
    pub name: Option<String>,
    pub panes: Vec<Pane>,
}

/// One workspace of the workspace tree.
#[derive(Debug, Clone, PartialEq, Eq)]
pub struct Workspace {
    pub name: String,
    pub screens: Vec<Screen>,
}

/// The workspace tree that `list-workspaces` reports.
#[derive(Debug, Clone, PartialEq, Eq)]
pub struct Tree {
    pub workspaces: Vec<Workspace>,
}

/// The label of a screen: its name when that is not empty, else `screen <n>` with
/// `n` counted from one.
pub open spec fn screen_label(screen: Screen, index: int) -> Seq<char> {
    if screen.name is Some && screen.name->0@.len() > 0 {
        screen.name->0@
    } else {
        "screen "@ + decimal((index + 1) as nat)
    }
}

/// The display name of a tab: its name when that is not empty, else its title when
/// that is not empty, else `surface <surface>`.
pub open spec fn tab_label(tab: Tab) -> Seq<char> {
    if tab.name is Some && tab.name->0@.len() > 0 {
        tab.name->0@
    } else if tab.title@.len() > 0 {
        tab.title@
    } else {
        "surface "@ + decimal(tab.surface as nat)
    }
}

/// The breadcrumb of a screen: `<workspace> > <screen label>`.
pub open spec fn screen_breadcrumb(workspace: Workspace, screen: Screen, index: int) -> Seq<char> {
    workspace.name@ + " > "@ + screen_label(screen, index)
}

/// The target entries of the tabs of one pane, in tab order.
pub open spec fn pane_entries(breadcrumb: Seq<char>, wi: int, si: int, pane: Pane) -> Seq<
    (u64, SurfaceTargetView),
> {
    Seq::new(
        pane.tabs@.len(),
        |ti: int|
            (
                pane.tabs@[ti].surface,
                SurfaceTargetView {
                    surface: pane.tabs@[ti].surface,
                    workspace_index: wi as usize,
                    screen_index: si as usize,
                    pane: pane.id,
                    tab_index: ti as usize,
                    breadcrumb: breadcrumb,
                    display_name: tab_label(pane.tabs@[ti]),
                },
            ),
    )
}

/// The target entries of one screen, pane by pane.
pub open spec fn screen_entries(workspace: Workspace, wi: int, screen: Screen, si: int) -> Seq<
    (u64, SurfaceTargetView),
> {
    concat_all(
        Seq::new(
            screen.panes@.len(),
            |k: int|
                pane_entries(screen_breadcrumb(workspace, screen, si), wi, si, screen.panes@[k]),
        ),
    )
}

/// The target entries of one workspace, screen by screen.
pub open spec fn workspace_entries(workspace: Workspace, wi: int) -> Seq<(u64, SurfaceTargetView)> {
    concat_all(
        Seq::new(
            workspace.screens@.len(),
            |si: int| screen_entries(workspace, wi, workspace.screens@[si], si),
        ),
    )
}

/// The target entries of the whole tree, in tree order.
pub open spec fn tree_entries(tree: Tree) -> Seq<(u64, SurfaceTargetView)> {
    concat_all(
        Seq::new(
            tree.workspaces@.len(),
            |wi: int| workspace_entries(tree.workspaces@[wi], wi),
        ),
    )
}

/// Each surface of the tree mapped to its target; where a surface occurs twice, the
/// later occurrence in tree order wins.
pub open spec fn surface_targets(tree: Tree) -> Map<u64, SurfaceTargetView> {
    insert_all(Map::empty(), tree_entries(tree))
}

/// `name` names a tab of surface `s` as the sidebar does: by the tab's name when that
/// is present and not empty, else by its title when that is not empty, else as
/// `surface <s>`.
pub open spec fn names_tab(tab: Tab, s: u64, name: Seq<char>) -> bool {
    let named = tab.name is Some && tab.name->0@.len() > 0;
    &&& tab.surface == s
    &&& named ==> name == tab.name->0@
    &&& !named && tab.title@.len() > 0 ==> name == tab.title@
    &&& !named && tab.title@.len() == 0 ==> name == "surface "@ + decimal(s as nat)
}

/// Every target points at a tab of its surface: its workspace and screen indices are
/// in the tree, one of that screen's panes has its pane id and holds, at its tab
/// index, a tab of the surface that its display name names; its breadcrumb is the
/// workspace's name, ` > `, and the screen's name (or `screen <n>`, counted from one
/// when the screen has no name).
pub proof fn lemma_targets_point_at_tabs(tree: Tree, s: u64)
    requires
        surface_targets(tree).contains_key(s),
    ensures
        ({
            let t = surface_targets(tree)[s];
            let wi = t.workspace_index as int;
            let si = t.screen_index as int;
            let ti = t.tab_index as int;
            &&& t.surface == s
            &&& 0 <= wi < tree.workspaces@.len()
            &&& 0 <= si < tree.workspaces@[wi].screens@.len()
            &&& t.breadcrumb == tree.workspaces@[wi].name@ + " > "@ + (if tree.workspaces@[wi].screens@[si].name
                is Some && tree.workspaces@[wi].screens@[si].name->0@.len() > 0 {
                tree.workspaces@[wi].screens@[si].name->0@
            } else {
                "screen "@ + decimal((si + 1) as nat)
            })
            &&& exists|k: int|
                0 <= k < tree.workspaces@[wi].screens@[si].panes@.len()
                    && (#[trigger] tree.workspaces@[wi].screens@[si].panes@[k]).id == t.pane && 0 <= ti
                    < tree.workspaces@[wi].screens@[si].panes@[k].tabs@.len() && names_tab(
                    tree.workspaces@[wi].screens@[si].panes@[k].tabs@[ti],
                    s,
                    t.display_name,
                )
        }),
{
    let es = tree_entries(tree);
    let i = lemma_insert_all_source(es, s);
    let ws_parts = Seq::new(
        tree.workspaces@.len(),
        |wi: int| workspace_entries(tree.workspaces@[wi], wi),
    );
    let (wi, j) = lemma_concat_all_index(ws_parts, i);
    let ws = tree.workspaces@[wi];
    let sc_parts = Seq::new(ws.screens@.len(), |si: int| screen_entries(ws, wi, ws.screens@[si], si));
    let (si, j2) = lemma_concat_all_index(sc_parts, j);
    let screen = ws.screens@[si];
    let crumb = screen_breadcrumb(ws, screen, si);
    let pa_parts = Seq::new(
        screen.panes@.len(),
        |k: int| pane_entries(crumb, wi, si, screen.panes@[k]),
    );
    let (k, ti) = lemma_concat_all_index(pa_parts, j2);
    let pane = screen.panes@[k];
    assert(es[i] == pane_entries(crumb, wi, si, pane)[ti]);
    let t = surface_targets(tree)[s];
    assert(t == es[i].1);
    assert(tree.workspaces.len() == tree.workspaces@.len());
    assert(ws.screens.len() == ws.screens@.len());
    assert(pane.tabs.len() == pane.tabs@.len());
    assert(t.workspace_index as int == wi);
    assert(t.screen_index as int == si);
    assert(t.tab_index as int == ti);
    assert(t.breadcrumb == crumb);
    assert(names_tab(pane.tabs@[ti], s, tab_label(pane.tabs@[ti])));
    assert(t.display_name == tab_label(pane.tabs@[ti]));
    assert(tree.workspaces@[wi].screens@[si].panes@[k] == pane);
}

/// Every tab's surface has a target.
pub proof fn lemma_every_tab_has_target(tree: Tree, wi: int, si: int, k: int, ti: int)
    requires
        0 <= wi < tree.workspaces@.len(),
        0 <= si < tree.workspaces@[wi].screens@.len(),
        0 <= k < tree.workspaces@[wi].screens@[si].panes@.len(),
        0 <= ti < tree.workspaces@[wi].screens@[si].panes@[k].tabs@.len(),
    ensures
        surface_targets(tree).contains_key(
            tree.workspaces@[wi].screens@[si].panes@[k].tabs@[ti].surface,
        ),
{
    let ws = tree.workspaces@[wi];
    let screen = ws.screens@[si];
    let crumb = screen_breadcrumb(ws, screen, si);
    let pa_parts = Seq::new(
        screen.panes@.len(),
        |k: int| pane_entries(crumb, wi, si, screen.panes@[k]),
    );
    let j2 = lemma_concat_all_contains(pa_parts, k, ti);
    let sc_parts = Seq::new(ws.screens@.len(), |si: int| screen_entries(ws, wi, ws.screens@[si], si));
    let j = lemma_concat_all_contains(sc_parts, si, j2);
    let ws_parts = Seq::new(
        tree.workspaces@.len(),
        |wi: int| workspace_entries(tree.workspaces@[wi], wi),
    );
    let i = lemma_concat_all_contains(ws_parts, wi, j);
    lemma_insert_all_keys(tree_entries(tree), i);
}

/// The views of the targets a map holds.
pub open spec fn target_views(m: Map<u64, SurfaceTarget>) -> Map<u64, SurfaceTargetView> {
    m.map_values(|t: SurfaceTarget| t@)
}

fn index_pane(
    targets: &mut HashMap<u64, SurfaceTarget>,
    breadcrumb: &String,
    wi: usize,
    si: usize,
    pane: &Pane,
)
    ensures
        target_views(final(targets)@) == insert_all(
            target_views(old(targets)@),
            pane_entries(breadcrumb@, wi as int, si as int, *pane),
        ),
{
    let ghost start = target_views(targets@);
    let ghost es = pane_entries(breadcrumb@, wi as int, si as int, *pane);
    let mut ti: usize = 0;
    assert(es.take(0) =~= Seq::<(u64, SurfaceTargetView)>::empty());
    while ti < pane.tabs.len()
        invariant
            ti <= pane.tabs@.len(),
            es == pane_entries(breadcrumb@, wi as int, si as int, *pane),
            target_views(targets@) == insert_all(start, es.take(ti as int)),
        decreases pane.tabs@.len() - ti,
    {
        let tab = &pane.tabs[ti];
        let display_name = match &tab.name {
            Some(name) if !name.as_str().is_empty() => name.clone(),
            _ => if !tab.title.as_str().is_empty() {
                tab.title.clone()
            } else {
                let mut label = String::from_str("surface ");
                label.append(decimal_string(tab.surface).as_str());
                label
            },
        };
        let target = SurfaceTarget {
            surface: tab.surface,
            workspace_index: wi,
            screen_index: si,
            pane: pane.id,
            tab_index: ti,
            breadcrumb: breadcrumb.clone(),
            display_name,
        };
        let ghost before = targets@;
        proof {
            assert(target@ == es[ti as int].1);
            assert(es.take(ti + 1).drop_last() =~= es.take(ti as int));
        }
        targets.insert(tab.surface, target);
        proof {
            assert(target_views(targets@) =~= target_views(before).insert(tab.surface, target@));
        }
        ti += 1;
    }
    assert(es.take(ti as int) =~= es);
}

fn index_screen(
    targets: &mut HashMap<u64, SurfaceTarget>,
    workspace: &Workspace,
    wi: usize,
    screen: &Screen,
    si: usize,
)
    requires
        si < usize::MAX,
    ensures
        target_views(final(targets)@) == insert_all(
            target_views(old(targets)@),
            screen_entries(*workspace, wi as int, *screen, si as int),
        ),
{
    let screen_name = match &screen.name {
        Some(name) if !name.as_str().is_empty() => name.clone(),
        _ => {
            let mut label = String::from_str("screen ");
            label.append(decimal_string((si as u64) + 1).as_str());
            label
        },
    };
    let mut breadcrumb = workspace.name.clone();
    breadcrumb.append(" > ");
    breadcrumb.append(screen_name.as_str());
    let ghost start = target_views(targets@);
    let ghost parts = Seq::new(
        screen.panes@.len(),
        |k: int|
            pane_entries(screen_breadcrumb(*workspace, *screen, si as int), wi as int, si as int, screen.panes@[k]),
    );
    assert(breadcrumb@ == screen_breadcrumb(*workspace, *screen, si as int));
    assert(concat_all(parts.take(0)) =~= Seq::<(u64, SurfaceTargetView)>::empty());
    let mut k: usize = 0;
    while k < screen.panes.len()
        invariant
            k <= screen.panes@.len(),
            parts.len() == screen.panes@.len(),
            breadcrumb@ == screen_breadcrumb(*workspace, *screen, si as int),
            forall|j: int| 0 <= j < parts.len() ==> #[trigger] parts[j] == pane_entries(breadcrumb@, wi as int, si as int, screen.panes@[j]),
            target_views(targets@) == insert_all(start, concat_all(parts.take(k as int))),
        decreases screen.panes@.len() - k,
    {
        index_pane(targets, &breadcrumb, wi, si, &screen.panes[k]);
        proof {
            lemma_concat_all_step(parts, k as int);
            lemma_insert_all_append(start, concat_all(parts.take(k as int)), parts[k as int]);
        }
        k += 1;
    }
    assert(parts.take(k as int) =~= parts);
}

fn index_workspace(targets: &mut HashMap<u64, SurfaceTarget>, workspace: &Workspace, wi: usize)
    ensures
        target_views(final(targets)@) == insert_all(
            target_views(old(targets)@),
            workspace_entries(*workspace, wi as int),
        ),
{
    let ghost start = target_views(targets@);
    let ghost parts = Seq::new(
        workspace.screens@.len(),
        |si: int| screen_entries(*workspace, wi as int, workspace.screens@[si], si),
    );
    assert(concat_all(parts.take(0)) =~= Seq::<(u64, SurfaceTargetView)>::empty());
    let mut si: usize = 0;
    while si < workspace.screens.len()
        invariant
            si <= workspace.screens@.len(),
            parts == Seq::new(
                workspace.screens@.len(),
                |si: int| screen_entries(*workspace, wi as int, workspace.screens@[si], si),
            ),
            target_views(targets@) == insert_all(start, concat_all(parts.take(si as int))),
        decreases workspace.screens@.len() - si,
    {
        index_screen(targets, workspace, wi, &workspace.screens[si], si);
        proof {
            lemma_concat_all_step(parts, si as int);
            lemma_insert_all_append(start, concat_all(parts.take(si as int)), parts[si as int]);
        }
        si += 1;
    }
    assert(parts.take(si as int) =~= parts);
}

/// Resolves every surface of the tree to its target (workspace, screen, pane and tab
/// position, breadcrumb and display name).
pub fn index_surfaces(tree: &Tree) -> (targets: HashMap<u64, SurfaceTarget>)
    ensures
        target_views(targets@) == surface_targets(*tree),
{
    let mut targets: HashMap<u64, SurfaceTarget> = HashMap::new();
    let ghost parts = Seq::new(
        tree.workspaces@.len(),
        |wi: int| workspace_entries(tree.workspaces@[wi], wi),
    );
    assert(target_views(targets@) =~= Map::empty());
    assert(concat_all(parts.take(0)) =~= Seq::<(u64, SurfaceTargetView)>::empty());
    let mut wi: usize = 0;
    while wi < tree.workspaces.len()
        invariant
            wi <= tree.workspaces@.len(),
            parts == Seq::new(
                tree.workspaces@.len(),
                |wi: int| workspace_entries(tree.workspaces@[wi], wi),
            ),
            target_views(targets@) == insert_all(Map::empty(), concat_all(parts.take(wi as int))),
        decreases tree.workspaces@.len() - wi,
    {
        index_workspace(&mut targets, &tree.workspaces[wi], wi);
        proof {
            lemma_concat_all_step(parts, wi as int);
            lemma_insert_all_append(Map::empty(), concat_all(parts.take(wi as int)), parts[wi as int]);
        }
        wi += 1;
    }
    assert(parts.take(wi as int) =~= parts);
    targets
}

} // verus!
