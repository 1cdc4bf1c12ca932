//! The sidebar's state between polls, and the decisions it takes on keys, ticks,
//! polls and connection failures.

use std::collections::HashMap;

use vstd::prelude::*;
use vstd::view::View as _;

use crate::model::{
    row_precedes, rows_from_records, rows_for, AgentRowView,
    notification_precedes, target_for, AgentRow, RecentNotification, RecentNotificationView,
    SurfaceTarget, UnreadNotification,
};
use crate::sort::{
    is_stable_arrangement, is_stable_sort_of, lemma_stable_sort_map, order_of, stable_sort,
};
use crate::text::{decimal, decimal_string, title_case, title_cased};
use crate::protocol::Snapshot;
use crate::ui::{View, ViewStatus};

verus! {

broadcast use vstd::std_specs::hash::group_hash_axioms;

/// The reconnect delay after a successful connection, in milliseconds.
pub const INITIAL_RECONNECT_DELAY_MS: u64 = 500;

/// The longest reconnect delay, in milliseconds.
pub const MAX_RECONNECT_DELAY_MS: u64 = 8000;

/// How often a connected sidebar polls, in milliseconds.
pub const REFRESH_EVERY_MS: u64 = 2000;

/// How many notifications the sidebar keeps.
pub const MAX_NOTIFICATIONS: usize = 20;

/// Which row is selected, by identity rather than position.
#[derive(Debug, Clone, Copy, PartialEq, Eq, Structural)]
pub enum SelectionKey {
    Agent(u64),
    Notification(u64),
}

/// Whether the sidebar is connected, and if not, why.
#[derive(Debug, Clone, PartialEq, Eq)]
pub enum Status {
    Ready,
    Reconnecting { message: String },
}

/// The sidebar's state: the rows it shows, the surface targets of the last poll, the
/// selection, the connection status and the current reconnect delay.
pub struct Sidebar {
    agents: Vec<AgentRow>,
    notifications: Vec<RecentNotification>,
    targets: HashMap<u64, SurfaceTarget>,
    selected: usize,
    status: Status,
    reconnect_delay_ms: u64,
}

impl Sidebar {
    /// The agent rows.
    pub closed spec fn agent_rows(self) -> Seq<AgentRow> {
        self.agents@
    }

    /// The notification rows.
    pub closed spec fn notification_rows(self) -> Seq<RecentNotification> {
        self.notifications@
    }

    /// The surface targets of the last poll.
    pub closed spec fn target_map(self) -> Map<u64, SurfaceTarget> {
        self.targets@
    }

    /// The index of the selected row: agents first, then notifications.
    pub closed spec fn selection(self) -> nat {
        self.selected as nat
    }

    /// The connection status.
    pub closed spec fn connection(self) -> Status {
        self.status
    }

    /// The delay before the next reconnect attempt, in milliseconds.
    pub closed spec fn delay_ms(self) -> u64 {
        self.reconnect_delay_ms
    }

    /// The number of selectable rows.
    pub open spec fn row_count(self) -> nat {
        self.agent_rows().len() + self.notification_rows().len()
    }

    /// The state a sidebar keeps between calls: the selection designates a row when
    /// there is one (and is 0 otherwise), at most `MAX_NOTIFICATIONS` notifications with
    /// distinct ids, a reconnect delay between the initial and the longest, and a row
    /// count that fits in `usize`.
    pub open spec fn wf(self) -> bool {
        &&& (self.row_count() == 0 ==> self.selection() == 0)
        &&& (self.row_count() > 0 ==> self.selection() < self.row_count())
        &&& self.notification_rows().len() <= MAX_NOTIFICATIONS
        &&& forall|i: int, j: int|
            0 <= i < j < self.notification_rows().len() ==> (#[trigger] self.notification_rows()[i]).id
                != (#[trigger] self.notification_rows()[j]).id
        &&& INITIAL_RECONNECT_DELAY_MS <= self.delay_ms() <= MAX_RECONNECT_DELAY_MS
        &&& self.row_count() <= usize::MAX
    }

    /// A sidebar with no rows, waiting for its first connection.
    pub fn new() -> (s: Sidebar)
        ensures
            s.wf(),
            s.agent_rows().len() == 0,
            s.notification_rows().len() == 0,
            s.target_map() == Map::<u64, SurfaceTarget>::empty(),
            s.selection() == 0,
            s.connection() matches Status::Reconnecting { message } && message@ == "connecting"@,
            s.delay_ms() == INITIAL_RECONNECT_DELAY_MS,
    {
        Sidebar {
            agents: Vec::new(),
            notifications: Vec::new(),
            targets: HashMap::new(),
            selected: 0,
            status: Status::Reconnecting { message: String::from_str("connecting") },
            reconnect_delay_ms: INITIAL_RECONNECT_DELAY_MS,
        }
    }

    /// The agent rows.
    pub fn agents(&self) -> (r: &[AgentRow])
        ensures
            r@ == self.agent_rows(),
    {
        self.agents.as_slice()
    }

    /// The notification rows.
    pub fn notifications(&self) -> (r: &[RecentNotification])
        ensures
            r@ == self.notification_rows(),
    {
        self.notifications.as_slice()
    }

    /// The surface targets of the last poll.
    pub fn targets(&self) -> (r: &HashMap<u64, SurfaceTarget>)
        ensures
            r@ == self.target_map(),
    {
        &self.targets
    }

    /// The index of the selected row.
    pub fn selected(&self) -> (r: usize)
        ensures
            r == self.selection(),
    {
        self.selected
    }

    /// The connection status.
    pub fn status(&self) -> (r: &Status)
        ensures
            *r == self.connection(),
    {
        &self.status
    }

    /// The delay before the next reconnect attempt, in milliseconds.
    pub fn reconnect_delay_ms(&self) -> (r: u64)
        ensures
            r == self.delay_ms(),
    {
        self.reconnect_delay_ms
    }

    /// What the sidebar draws.
    pub fn view(&self) -> (v: View<'_>)
        ensures
            v.agents@ == self.agent_rows(),
            v.notifications@ == self.notification_rows(),
            v.selected == self.selection(),
            match self.connection() {
                Status::Ready => v.status is Ready,
                Status::Reconnecting { message } => v.status matches ViewStatus::Reconnecting {
                    message: m,
                } && m@ == message@,
            },
    {
        View {
            agents: self.agents.as_slice(),
            notifications: self.notifications.as_slice(),
            selected: self.selected,
            status: match &self.status {
                Status::Ready => ViewStatus::Ready,
                Status::Reconnecting { message } => ViewStatus::Reconnecting {
                    message: message.as_str(),
                },
            },
        }
    }

    /// The identity of the selected row, if the selection designates one.
    pub open spec fn selection_key_of(self) -> Option<SelectionKey> {
        let agents = self.agent_rows();
        let notes = self.notification_rows();
        let s = self.selection() as int;
        if s < agents.len() {
            Some(SelectionKey::Agent(agents[s].surface))
        } else if s - agents.len() < notes.len() {
            Some(SelectionKey::Notification(notes[s - agents.len()].id))
        } else {
            None
        }
    }

    /// The identity of the selected row.
    pub fn selection_key(&self) -> (r: Option<SelectionKey>)
        ensures
            r == self.selection_key_of(),
    {
        if self.selected < self.agents.len() {
            Some(SelectionKey::Agent(self.agents[self.selected].surface))
        } else if self.selected - self.agents.len() < self.notifications.len() {
            Some(SelectionKey::Notification(self.notifications[self.selected - self.agents.len()].id))
        } else {
            None
        }
    }

    /// The selection kept within the rows: the last row when it lies past them, 0 when
    /// there is none.
    pub open spec fn clamped(selected: nat, count: nat) -> nat {
        if count == 0 {
            0
        } else if selected < count {
            selected
        } else {
            (count - 1) as nat
        }
    }

    /// Keeps the selection within the rows.
    pub fn clamp_selection(&mut self)
        requires
            old(self).row_count() <= usize::MAX,
        ensures
            old(self).wf() ==> final(self).wf(),
            final(self).selection() == Self::clamped(old(self).selection(), old(self).row_count()),
            final(self).agent_rows() == old(self).agent_rows(),
            final(self).notification_rows() == old(self).notification_rows(),
            final(self).target_map() == old(self).target_map(),
            final(self).connection() == old(self).connection(),
            final(self).delay_ms() == old(self).delay_ms(),
    {
        let total = self.agents.len() + self.notifications.len();
        self.selected = if total == 0 {
            0
        } else if self.selected < total {
            self.selected
        } else {
            total - 1
        };
    }

    /// The selection moved by `delta` rows (saturating at the ends of `usize`), then
    /// kept on the last row.
    pub open spec fn moved(selected: nat, delta: int, count: nat) -> nat {
        if count == 0 {
            0
        } else {
            let t = selected + delta;
            let t2 = if t < 0 { 0 } else if t > usize::MAX { usize::MAX as int } else { t };
            if t2 < count - 1 { t2 as nat } else { (count - 1) as nat }
        }
    }

    /// Moves the selection by `delta` rows, staying within the rows.
    pub fn move_selection(&mut self, delta: isize)
        requires
            old(self).wf(),
        ensures
            final(self).wf(),
            final(self).selection() == Self::moved(old(self).selection(), delta as int, old(self).row_count()),
            final(self).agent_rows() == old(self).agent_rows(),
            final(self).notification_rows() == old(self).notification_rows(),
            final(self).target_map() == old(self).target_map(),
            final(self).connection() == old(self).connection(),
            final(self).delay_ms() == old(self).delay_ms(),
    {
        let total = self.agents.len() + self.notifications.len();
        if total == 0 {
            self.selected = 0;
            return;
        }
        let moved = if delta >= 0 {
            self.selected.saturating_add(delta as usize)
        } else {
            let back = (-(delta + 1)) as usize + 1;
            self.selected.saturating_sub(back)
        };
        self.selected = if moved < total - 1 { moved } else { total - 1 };
    }

    /// The first agent row for `surface` stands at `i`.
    pub open spec fn first_agent_with(agents: Seq<AgentRow>, surface: u64, i: int) -> bool {
        &&& 0 <= i < agents.len()
        &&& agents[i].surface == surface
        &&& forall|j: int| 0 <= j < i ==> (#[trigger] agents[j]).surface != surface
    }

    /// The first notification row with `id` stands at `i`.
    pub open spec fn first_notification_with(notes: Seq<RecentNotification>, id: u64, i: int) -> bool {
        &&& 0 <= i < notes.len()
        &&& notes[i].id == id
        &&& forall|j: int| 0 <= j < i ==> (#[trigger] notes[j]).id != id
    }

    /// Where the row named by `keep` now stands, if it is still there.
    pub open spec fn found_position(self, keep: Option<SelectionKey>) -> Option<int> {
        match keep {
            Some(SelectionKey::Agent(s)) => if exists|i: int|
                Self::first_agent_with(self.agent_rows(), s, i) {
                Some(choose|i: int| Self::first_agent_with(self.agent_rows(), s, i))
            } else {
                None
            },
            Some(SelectionKey::Notification(id)) => if exists|i: int|
                Self::first_notification_with(self.notification_rows(), id, i) {
                Some(
                    self.agent_rows().len() + choose|i: int|
                        Self::first_notification_with(self.notification_rows(), id, i),
                )
            } else {
                None
            },
            None => None,
        }
    }

    /// Selects the row named by `keep` again (its first occurrence), or keeps the
    /// selection within the rows when that row is gone.
    pub fn restore_selection(&mut self, keep: Option<SelectionKey>)
        requires
            old(self).row_count() <= usize::MAX,
        ensures
            old(self).wf() ==> final(self).wf(),
            final(self).selection() == match old(self).found_position(keep) {
                Some(i) => i as nat,
                None => Self::clamped(old(self).selection(), old(self).row_count()),
            },
            keep is Some && old(self).found_position(keep) is Some ==> final(self).selection_key_of()
                == keep,
            final(self).agent_rows() == old(self).agent_rows(),
            final(self).notification_rows() == old(self).notification_rows(),
            final(self).target_map() == old(self).target_map(),
            final(self).connection() == old(self).connection(),
            final(self).delay_ms() == old(self).delay_ms(),
    {
        let found: Option<usize> = match keep {
            Some(SelectionKey::Agent(surface)) => {
                let mut i: usize = 0;
                while i < self.agents.len() && self.agents[i].surface != surface
                    invariant
                        i <= self.agents@.len(),
                        forall|j: int| 0 <= j < i ==> (#[trigger] self.agents@[j]).surface != surface,
                    decreases self.agents@.len() - i,
                {
                    i += 1;
                }
                if i < self.agents.len() {
                    assert(Self::first_agent_with(self.agents@, surface, i as int));
                    Some(i)
                } else {
                    assert forall|k: int| !Self::first_agent_with(self.agents@, surface, k) by {
                        if 0 <= k < self.agents@.len() {
                            assert(self.agents@[k].surface != surface);
                        }
                    }
                    None
                }
            },
            Some(SelectionKey::Notification(id)) => {
                let mut i: usize = 0;
                while i < self.notifications.len() && self.notifications[i].id != id
                    invariant
                        i <= self.notifications@.len(),
                        forall|j: int| 0 <= j < i ==> (#[trigger] self.notifications@[j]).id != id,
                    decreases self.notifications@.len() - i,
                {
                    i += 1;
                }
                if i < self.notifications.len() {
                    assert(Self::first_notification_with(self.notifications@, id, i as int));
                    Some(self.agents.len() + i)
                } else {
                    assert forall|k: int| !Self::first_notification_with(self.notifications@, id, k) by {
                        if 0 <= k < self.notifications@.len() {
                            assert(self.notifications@[k].id != id);
                        }
                    }
                    None
                }
            },
            None => None,
        };
        match found {
            Some(index) => {
                self.selected = index;
            },
            None => self.clamp_selection(),
        }
    }

    /// The surface of the selected row, if it has one.
    pub open spec fn selected_surface_of(self) -> Option<u64> {
        let agents = self.agent_rows();
        let notes = self.notification_rows();
        let s = self.selection() as int;
        if s < agents.len() {
            Some(agents[s].surface)
        } else if s - agents.len() < notes.len() {
            notes[s - agents.len()].surface
        } else {
            None
        }
    }

    /// The target to jump to for the selected row, if it has a known surface.
    pub fn activation_target(&self) -> (r: Option<SurfaceTarget>)
        ensures
            match self.selected_surface_of() {
                Some(surface) => r == target_for(self.target_map(), surface),
                None => r is None,
            },
    {
        let surface = if self.selected < self.agents.len() {
            Some(self.agents[self.selected].surface)
        } else if self.selected - self.agents.len() < self.notifications.len() {
            self.notifications[self.selected - self.agents.len()].surface
        } else {
            None
        };
        match surface {
            Some(surface) => match self.targets.get(&surface) {
                Some(target) => Some(target.duplicate()),
                None => None,
            },
            None => None,
        }
    }

    /// Records a successful connection: the sidebar is ready and the reconnect delay
    /// starts over.
    pub fn mark_connected(&mut self)
        requires
            old(self).wf(),
        ensures
            final(self).wf(),
            final(self).connection() == Status::Ready,
            final(self).delay_ms() == INITIAL_RECONNECT_DELAY_MS,
            final(self).agent_rows() == old(self).agent_rows(),
            final(self).notification_rows() == old(self).notification_rows(),
            final(self).target_map() == old(self).target_map(),
            final(self).selection() == old(self).selection(),
    {
        self.status = Status::Ready;
        self.reconnect_delay_ms = INITIAL_RECONNECT_DELAY_MS;
    }

    /// Records a failed or lost connection with `message`; returns how long to wait
    /// before the next attempt, and doubles that wait for the attempt after, up to
    /// the longest delay.
    pub fn disconnect_with_backoff(&mut self, message: String) -> (wait_ms: u64)
        requires
            old(self).wf(),
        ensures
            final(self).wf(),
            wait_ms == old(self).delay_ms(),
            final(self).delay_ms() == if 2 * old(self).delay_ms() < MAX_RECONNECT_DELAY_MS {
                2 * old(self).delay_ms()
            } else {
                MAX_RECONNECT_DELAY_MS as int
            },
            final(self).connection() == (Status::Reconnecting { message }),
            final(self).agent_rows() == old(self).agent_rows(),
            final(self).notification_rows() == old(self).notification_rows(),
            final(self).target_map() == old(self).target_map(),
            final(self).selection() == old(self).selection(),
    {
        self.status = Status::Reconnecting { message };
        let wait_ms = self.reconnect_delay_ms;
        let doubled = self.reconnect_delay_ms * 2;
        self.reconnect_delay_ms = if doubled < MAX_RECONNECT_DELAY_MS {
            doubled
        } else {
            MAX_RECONNECT_DELAY_MS
        };
        wait_ms
    }

    /// Takes in one poll at time `now_ms`: the new targets, the agent rows of its
    /// records, the notifications brought up to date; the selected row stays selected
    /// when it is still listed.
    pub fn apply_snapshot(&mut self, snapshot: Snapshot, now_ms: u64)
        requires
            old(self).wf(),
            snapshot.agents@.len() + MAX_NOTIFICATIONS <= usize::MAX,
        ensures
            final(self).wf(),
            final(self).target_map() == snapshot.targets@,
            is_stable_sort_of(
                final(self).agent_rows().map_values(|r: AgentRow| r@),
                rows_for(snapshot.agents@, snapshot.targets@, now_ms),
                |a: AgentRowView, b: AgentRowView| row_precedes(a, b),
            ),
            sorted_and_limited(
                notification_views(final(self).notification_rows()),
                synced(old(self).notification_rows(), snapshot.unread@, snapshot.targets@, now_ms),
            ),
            forall|i: int|
                0 <= i < final(self).notification_rows().len() ==> agrees_with_poll(
                    #[trigger] notification_views(final(self).notification_rows())[i],
                    snapshot.unread@,
                    snapshot.targets@,
                ),
            final(self).selection() == match final(self).found_position(old(self).selection_key_of()) {
                Some(i) => i as nat,
                None => Self::clamped(old(self).selection(), final(self).row_count()),
            },
            old(self).selection_key_of() is Some && final(self).found_position(
                old(self).selection_key_of(),
            ) is Some ==> final(self).selection_key_of() == old(self).selection_key_of(),
            final(self).connection() == old(self).connection(),
            final(self).delay_ms() == old(self).delay_ms(),
    {
        let keep = self.selection_key();
        let Snapshot { agents, targets, unread } = snapshot;
        self.targets = targets;
        self.agents = rows_from_records(agents.as_slice(), &self.targets, now_ms);
        self.sync_notifications(unread.as_slice(), now_ms);
        proof {
            assert(self.agents@.len() == self.agents@.map_values(|r: AgentRow| r@).len());
            let nv = notification_views(self.notifications@);
            assert forall|i: int, j: int|
                0 <= i < j < self.notification_rows().len() implies (
                #[trigger] self.notification_rows()[i]).id != (
                #[trigger] self.notification_rows()[j]).id by {
                assert(nv[i].id != nv[j].id);
            }
            self.lemma_found_position_in_range(keep);
        }
        self.restore_selection(keep);
    }

    proof fn lemma_found_position_in_range(self, keep: Option<SelectionKey>)
        ensures
            self.found_position(keep) matches Some(i) ==> 0 <= i < self.row_count(),
    {
        match keep {
            Some(SelectionKey::Agent(s)) => {
                if exists|i: int| Self::first_agent_with(self.agent_rows(), s, i) {
                    let i = choose|i: int| Self::first_agent_with(self.agent_rows(), s, i);
                    assert(Self::first_agent_with(self.agent_rows(), s, i));
                }
            },
            Some(SelectionKey::Notification(id)) => {
                if exists|i: int| Self::first_notification_with(self.notification_rows(), id, i) {
                    let i = choose|i: int| Self::first_notification_with(self.notification_rows(), id, i);
                    assert(Self::first_notification_with(self.notification_rows(), id, i));
                }
            },
            None => {},
        }
    }

    /// Sorts the notifications newest first and keeps the first `MAX_NOTIFICATIONS`.
    pub fn sort_and_limit_notifications(&mut self)
        requires
            distinct_ids(notification_views(old(self).notification_rows())),
        ensures
            sorted_and_limited(
                notification_views(final(self).notification_rows()),
                notification_views(old(self).notification_rows()),
            ),
            distinct_ids(notification_views(final(self).notification_rows())),
            final(self).notification_rows().len() <= MAX_NOTIFICATIONS,
            newest_first(final(self).notification_rows()),
            final(self).agent_rows() == old(self).agent_rows(),
            final(self).target_map() == old(self).target_map(),
            final(self).selection() == old(self).selection(),
            final(self).connection() == old(self).connection(),
            final(self).delay_ms() == old(self).delay_ms(),
    {
        let mut unsorted: Vec<RecentNotification> = Vec::new();
        std::mem::swap(&mut unsorted, &mut self.notifications);
        let ghost input = unsorted@;
        let mut sorted = stable_sort(unsorted);
        let ghost f = |n: RecentNotification| n@;
        let ghost prec_v = |a: RecentNotificationView, b: RecentNotificationView| notification_precedes(a, b);
        let ghost full = sorted@.map_values(f);
        proof {
            lemma_stable_sort_map(sorted@, input, order_of::<RecentNotification>(), f, prec_v);
            lemma_stable_sort_keeps_distinct_ids(full, input.map_values(f), prec_v);
        }
        sorted.truncate(MAX_NOTIFICATIONS);
        proof {
            assert(sorted@.map_values(f) =~= full.take(sorted@.len() as int));
            assert(notification_views(sorted@) == sorted@.map_values(f));
        }
        self.notifications = sorted;
        proof {
            lemma_notifications_newest_first(
                notification_views(self.notifications@),
                notification_views(old(self).notifications@),
            );
        }
    }

    /// Brings the notifications up to date with the tabs' notification state `unread`:
    /// refreshes their read state and breadcrumbs, adds each unread notification not
    /// listed yet (created at `now_ms`), then sorts and limits the list.
    pub fn sync_notifications(&mut self, unread: &[UnreadNotification], now_ms: u64)
        requires
            distinct_ids(notification_views(old(self).notification_rows())),
        ensures
            sorted_and_limited(
                notification_views(final(self).notification_rows()),
                synced(old(self).notification_rows(), unread@, old(self).target_map(), now_ms),
            ),
            forall|i: int|
                0 <= i < final(self).notification_rows().len() ==> agrees_with_poll(
                    #[trigger] notification_views(final(self).notification_rows())[i],
                    unread@,
                    old(self).target_map(),
                ),
            distinct_ids(notification_views(final(self).notification_rows())),
            final(self).notification_rows().len() <= MAX_NOTIFICATIONS,
            newest_first(final(self).notification_rows()),
            final(self).agent_rows() == old(self).agent_rows(),
            final(self).target_map() == old(self).target_map(),
            final(self).selection() == old(self).selection(),
            final(self).connection() == old(self).connection(),
            final(self).delay_ms() == old(self).delay_ms(),
    {
        let ghost old_notes = self.notifications@;
        let mut fresh: Vec<RecentNotification> = Vec::new();
        let mut i: usize = 0;
        while i < self.notifications.len()
            invariant
                i <= self.notifications@.len(),
                self.notifications@ == old_notes,
                fresh@.len() == i,
                forall|k: int| 0 <= k < i ==> (#[trigger] fresh@[k])@ == refreshed_notification(
                    old_notes[k],
                    unread@,
                    self.targets@,
                ),
            decreases self.notifications@.len() - i,
        {
            let n = &self.notifications[i];
            let is_unread = match n.surface {
                Some(surface) => reported_unread(unread, surface, n.id),
                None => false,
            };
            let breadcrumb = match n.surface {
                Some(surface) => match self.targets.get(&surface) {
                    Some(target) => target.breadcrumb.clone(),
                    None => n.breadcrumb.clone(),
                },
                None => n.breadcrumb.clone(),
            };
            fresh.push(
                RecentNotification {
                    id: n.id,
                    title: n.title.clone(),
                    level: n.level.clone(),
                    surface: n.surface,
                    breadcrumb,
                    unread: is_unread,
                    created_at_ms: n.created_at_ms,
                },
            );
            i += 1;
        }
        let ghost base = old_notes.map_values(
            |n: RecentNotification| refreshed_notification(n, unread@, self.targets@),
        );
        assert(notification_views(fresh@) =~= base);
        assert(unread@.take(0) =~= Seq::<UnreadNotification>::empty());
        proof {
            lemma_refresh_keeps_ids(old_notes, unread@, self.targets@);
        }
        let mut j: usize = 0;
        while j < unread.len()
            invariant
                j <= unread@.len(),
                notification_views(fresh@) == with_new_unread(
                    base,
                    unread@.take(j as int),
                    self.targets@,
                    now_ms,
                ),
                distinct_ids(notification_views(fresh@)),
            decreases unread@.len() - j,
        {
            let item = &unread[j];
            let ghost prev = fresh@;
            assert(unread@.take(j + 1).drop_last() =~= unread@.take(j as int));
            if item.unread && !has_id(&fresh, item.id) {
                let mut title = title_case(item.level.as_str());
                title.append(" notification");
                let breadcrumb = match self.targets.get(&item.surface) {
                    Some(target) => target.breadcrumb.clone(),
                    None => {
                        let mut crumb = String::from_str("surface ");
                        crumb.append(decimal_string(item.surface).as_str());
                        crumb
                    },
                };
                let added = RecentNotification {
                    id: item.id,
                    title,
                    level: item.level.clone(),
                    surface: Some(item.surface),
                    breadcrumb,
                    unread: true,
                    created_at_ms: now_ms,
                };
                assert(added@ == new_notification(*item, self.targets@, now_ms));
                fresh.push(added);
                assert(notification_views(fresh@) =~= notification_views(prev).push(added@));
            }
            j += 1;
        }
        assert(unread@.take(j as int) =~= unread@);
        self.notifications = fresh;
        self.sort_and_limit_notifications();
        proof {
            lemma_notifications_newest_first(
                notification_views(self.notifications@),
                synced(old(self).notifications@, unread@, old(self).targets@, now_ms),
            );
            lemma_poll_refreshes_notifications(
                notification_views(self.notifications@),
                old(self).notifications@,
                unread@,
                old(self).targets@,
                now_ms,
            );
            assert forall|i: int| 0 <= i < self.notifications@.len() implies agrees_with_poll(
                #[trigger] notification_views(self.notifications@)[i],
                unread@,
                old(self).targets@,
            ) by {
                let v = notification_views(self.notifications@);
                assert(v[i] == v[i]);
            }
        }
    }
}

/// The views of a sequence of notifications.
pub open spec fn notification_views(s: Seq<RecentNotification>) -> Seq<RecentNotificationView> {
    s.map_values(|n: RecentNotification| n@)
}

/// Notifications run newest first, and at equal times the larger id first.
pub open spec fn newest_first(s: Seq<RecentNotification>) -> bool {
    forall|i: int, j: int|
        0 <= i < j < s.len() ==> (#[trigger] s[i]).created_at_ms >= (#[trigger] s[j]).created_at_ms
            && (s[i].created_at_ms == s[j].created_at_ms ==> s[i].id >= s[j].id)
}

/// No two notifications share an id.
pub open spec fn distinct_ids(s: Seq<RecentNotificationView>) -> bool {
    forall|i: int, j: int| 0 <= i < j < s.len() ==> (#[trigger] s[i]).id != (#[trigger] s[j]).id
}

/// `out` is `input` sorted stably newest first and cut to `MAX_NOTIFICATIONS`.
pub open spec fn sorted_and_limited(
    out: Seq<RecentNotificationView>,
    input: Seq<RecentNotificationView>,
) -> bool {
    &&& out.len() == if input.len() < MAX_NOTIFICATIONS { input.len() } else {
        MAX_NOTIFICATIONS as nat
    }
    &&& exists|sorted: Seq<RecentNotificationView>|
        is_stable_sort_of(
            sorted,
            input,
            |a: RecentNotificationView, b: RecentNotificationView| notification_precedes(a, b),
        ) && out == sorted.take(out.len() as int)
}

/// A notification agrees with a poll: under its surface's breadcrumb when the poll
/// knows that surface, and unread exactly when the poll reports its id unread on its
/// surface.
pub open spec fn agrees_with_poll(
    e: RecentNotificationView,
    unread: Seq<UnreadNotification>,
    targets: Map<u64, SurfaceTarget>,
) -> bool {
    &&& (e.surface matches Some(s) ==> (targets.contains_key(s) ==> e.breadcrumb
        == targets[s].breadcrumb@))
    &&& (e.unread <==> (e.surface matches Some(s) && exists|k: int|
        0 <= k < unread.len() && (#[trigger] unread[k]).surface == s && unread[k].id == e.id
            && unread[k].unread))
}

proof fn lemma_with_new_unread_agrees(
    list: Seq<RecentNotificationView>,
    unread: Seq<UnreadNotification>,
    n: int,
    targets: Map<u64, SurfaceTarget>,
    now_ms: u64,
)
    requires
        0 <= n <= unread.len(),
        forall|i: int| 0 <= i < list.len() ==> agrees_with_poll(#[trigger] list[i], unread, targets),
    ensures
        forall|i: int|
            0 <= i < with_new_unread(list, unread.take(n), targets, now_ms).len() ==> agrees_with_poll(
                #[trigger] with_new_unread(list, unread.take(n), targets, now_ms)[i],
                unread,
                targets,
            ),
    decreases n,
{
    if n == 0 {
        assert(unread.take(0) =~= Seq::<UnreadNotification>::empty());
    } else {
        lemma_with_new_unread_agrees(list, unread, n - 1, targets, now_ms);
        assert(unread.take(n).drop_last() =~= unread.take(n - 1));
        let item = unread[n - 1];
        let prev = with_new_unread(list, unread.take(n - 1), targets, now_ms);
        let next = with_new_unread(list, unread.take(n), targets, now_ms);
        assert(unread.take(n).last() == item);
        if item.unread && !(exists|k: int| 0 <= k < prev.len() && (#[trigger] prev[k]).id == item.id) {
            let added = new_notification(item, targets, now_ms);
            assert(next == prev.push(added));
            assert(unread[n - 1].surface == item.surface && unread[n - 1].id == added.id);
            assert(agrees_with_poll(added, unread, targets));
            assert forall|i: int| 0 <= i < next.len() implies agrees_with_poll(#[trigger] next[i], unread, targets) by {
                if i < prev.len() {
                    assert(next[i] == prev[i]);
                }
            }
        } else {
            assert(next == prev);
        }
    }
}

/// After a poll, every kept notification agrees with the poll: it shows its surface's
/// new breadcrumb when the poll knows the surface, and it is unread exactly when the
/// poll reports its id unread on its surface.
pub proof fn lemma_poll_refreshes_notifications(
    out: Seq<RecentNotificationView>,
    notes: Seq<RecentNotification>,
    unread: Seq<UnreadNotification>,
    targets: Map<u64, SurfaceTarget>,
    now_ms: u64,
)
    requires
        sorted_and_limited(out, synced(notes, unread, targets, now_ms)),
    ensures
        forall|i: int|
            0 <= i < out.len() ==> ((#[trigger] out[i]).surface matches Some(s) ==> (
            targets.contains_key(s) ==> out[i].breadcrumb == targets[s].breadcrumb@)),
        forall|i: int|
            0 <= i < out.len() ==> ((#[trigger] out[i]).unread <==> (out[i].surface matches Some(s)
                && exists|k: int|
                0 <= k < unread.len() && (#[trigger] unread[k]).surface == s && unread[k].id
                    == out[i].id && unread[k].unread)),
{
    let base = notes.map_values(|n: RecentNotification| refreshed_notification(n, unread, targets));
    assert forall|i: int| 0 <= i < base.len() implies agrees_with_poll(#[trigger] base[i], unread, targets) by {
    }
    lemma_with_new_unread_agrees(base, unread, unread.len() as int, targets, now_ms);
    assert(unread.take(unread.len() as int) =~= unread);
    let input = synced(notes, unread, targets, now_ms);
    let prec = |a: RecentNotificationView, b: RecentNotificationView| notification_precedes(a, b);
    let sorted = choose|sorted: Seq<RecentNotificationView>|
        is_stable_sort_of(sorted, input, prec) && out == sorted.take(out.len() as int);
    let p = choose|p: Seq<int>| is_stable_arrangement(sorted, input, p, prec);
    assert forall|i: int| 0 <= i < out.len() implies agrees_with_poll(#[trigger] out[i], unread, targets) by {
        assert(out[i] == sorted[i]);
        assert(sorted[i] == input[p[i]]);
    }
}

/// Notifications kept after a poll run newest first, and at equal times the larger
/// id first.
pub proof fn lemma_notifications_newest_first(
    out: Seq<RecentNotificationView>,
    input: Seq<RecentNotificationView>,
)
    requires
        sorted_and_limited(out, input),
    ensures
        forall|i: int, j: int|
            0 <= i < j < out.len() ==> (#[trigger] out[i]).created_at_ms >= (
            #[trigger] out[j]).created_at_ms && (out[i].created_at_ms == out[j].created_at_ms
                ==> out[i].id >= out[j].id),
{
    let prec = |a: RecentNotificationView, b: RecentNotificationView| notification_precedes(a, b);
    let sorted = choose|sorted: Seq<RecentNotificationView>|
        is_stable_sort_of(sorted, input, prec) && out == sorted.take(out.len() as int);
    assert forall|i: int, j: int| 0 <= i < j < out.len() implies (#[trigger] out[i]).created_at_ms
        >= (#[trigger] out[j]).created_at_ms && (out[i].created_at_ms == out[j].created_at_ms
        ==> out[i].id >= out[j].id) by {
        assert(out[i] == sorted[i] && out[j] == sorted[j]);
        assert(!prec(sorted[j], sorted[i]));
    }
}

/// A listed notification after a poll: unread exactly when the server reports its id
/// as unread on its surface, and under its surface's current breadcrumb when the
/// surface is known.
pub open spec fn refreshed_notification(
    n: RecentNotification,
    unread: Seq<UnreadNotification>,
    targets: Map<u64, SurfaceTarget>,
) -> RecentNotificationView {
    RecentNotificationView {
        id: n.id,
        title: n.title@,
        level: n.level@,
        surface: n.surface,
        breadcrumb: match n.surface {
            Some(s) => if targets.contains_key(s) {
                targets[s].breadcrumb@
            } else {
                n.breadcrumb@
            },
            None => n.breadcrumb@,
        },
        unread: match n.surface {
            Some(s) => exists|k: int|
                0 <= k < unread.len() && (#[trigger] unread[k]).surface == s && unread[k].id == n.id
                    && unread[k].unread,
            None => false,
        },
        created_at_ms: n.created_at_ms,
    }
}

/// The notification listed for a newly seen unread state: titled after its level
/// (`Warning notification`), under its surface's breadcrumb or `surface <n>`.
pub open spec fn new_notification(
    item: UnreadNotification,
    targets: Map<u64, SurfaceTarget>,
    now_ms: u64,
) -> RecentNotificationView {
    RecentNotificationView {
        id: item.id,
        title: title_cased(item.level@) + " notification"@,
        level: item.level@,
        surface: Some(item.surface),
        breadcrumb: if targets.contains_key(item.surface) {
            targets[item.surface].breadcrumb@
        } else {
            "surface "@ + decimal(item.surface as nat)
        },
        unread: true,
        created_at_ms: now_ms,
    }
}

/// `list` with a notification appended for each unread state of `items`, in order,
/// whose id is not listed yet.
pub open spec fn with_new_unread(
    list: Seq<RecentNotificationView>,
    items: Seq<UnreadNotification>,
    targets: Map<u64, SurfaceTarget>,
    now_ms: u64,
) -> Seq<RecentNotificationView>
    decreases items.len(),
{
    if items.len() == 0 {
        list
    } else {
        let prev = with_new_unread(list, items.drop_last(), targets, now_ms);
        let item = items.last();
        if item.unread && !(exists|k: int| 0 <= k < prev.len() && (#[trigger] prev[k]).id == item.id) {
            prev.push(new_notification(item, targets, now_ms))
        } else {
            prev
        }
    }
}

/// The notifications after a poll, before sorting: the listed ones refreshed, then the
/// newly seen unread ones.
pub open spec fn synced(
    notes: Seq<RecentNotification>,
    unread: Seq<UnreadNotification>,
    targets: Map<u64, SurfaceTarget>,
    now_ms: u64,
) -> Seq<RecentNotificationView> {
    with_new_unread(
        notes.map_values(|n: RecentNotification| refreshed_notification(n, unread, targets)),
        unread,
        targets,
        now_ms,
    )
}

proof fn lemma_refresh_keeps_ids(
    notes: Seq<RecentNotification>,
    unread: Seq<UnreadNotification>,
    targets: Map<u64, SurfaceTarget>,
)
    requires
        distinct_ids(notification_views(notes)),
    ensures
        distinct_ids(
            notes.map_values(|n: RecentNotification| refreshed_notification(n, unread, targets)),
        ),
{
    let r = notes.map_values(|n: RecentNotification| refreshed_notification(n, unread, targets));
    assert forall|i: int, j: int| 0 <= i < j < r.len() implies (#[trigger] r[i]).id != (
    #[trigger] r[j]).id by {
        assert(notification_views(notes)[i].id != notification_views(notes)[j].id);
    }
}

proof fn lemma_stable_sort_keeps_distinct_ids(
    out: Seq<RecentNotificationView>,
    input: Seq<RecentNotificationView>,
    prec: spec_fn(RecentNotificationView, RecentNotificationView) -> bool,
)
    requires
        is_stable_sort_of(out, input, prec),
        distinct_ids(input),
    ensures
        distinct_ids(out),
{
    let p = choose|p: Seq<int>| is_stable_arrangement(out, input, p, prec);
    assert forall|i: int, j: int| 0 <= i < j < out.len() implies (#[trigger] out[i]).id != (
    #[trigger] out[j]).id by {
        assert(out[i] == input[p[i]]);
        assert(out[j] == input[p[j]]);
        assert(p[i] != p[j]);
        if p[i] < p[j] {
            assert(input[p[i]].id != input[p[j]].id);
        } else {
            assert(input[p[j]].id != input[p[i]].id);
        }
    }
}

/// Whether `unread` reports notification `id` as unread on `surface`.
fn reported_unread(unread: &[UnreadNotification], surface: u64, id: u64) -> (r: bool)
    ensures
        r == exists|k: int|
            0 <= k < unread@.len() && (#[trigger] unread@[k]).surface == surface && unread@[k].id == id
                && unread@[k].unread,
{
    let mut i: usize = 0;
    while i < unread.len()
        invariant
            i <= unread@.len(),
            forall|k: int|
                0 <= k < i ==> !((#[trigger] unread@[k]).surface == surface && unread@[k].id == id
                    && unread@[k].unread),
        decreases unread@.len() - i,
    {
        if unread[i].surface == surface && unread[i].id == id && unread[i].unread {
            return true;
        }
        i += 1;
    }
    false
}

/// Whether a notification with `id` is listed.
fn has_id(list: &Vec<RecentNotification>, id: u64) -> (r: bool)
    ensures
        r == exists|k: int| 0 <= k < list@.len() && (#[trigger] notification_views(list@)[k]).id == id,
{
    let mut i: usize = 0;
    while i < list.len()
        invariant
            i <= list@.len(),
            forall|k: int| 0 <= k < i ==> (#[trigger] list@[k]).id != id,
        decreases list@.len() - i,
    {
        if list[i].id == id {
            assert(notification_views(list@)[i as int].id == id);
            return true;
        }
        i += 1;
    }
    assert forall|k: int| 0 <= k < list@.len() implies (#[trigger] notification_views(list@)[k]).id != id by {
        assert(list@[k].id != id);
    }
    false
}

} // verus!

verus! {

/// The keys the sidebar tells apart.
#[derive(Debug, Clone, Copy, PartialEq, Eq, Structural)]
pub enum KeyCode {
    Up,
    Down,
    Enter,
    Esc,
    Char(char),
    Other,
}

/// A key press: the key, whether Control was held, and whether no modifier was held.
#[derive(Debug, Clone, Copy, PartialEq, Eq, Structural)]
pub struct KeyPress {
    pub code: KeyCode,
    pub control: bool,
    pub no_modifiers: bool,
}

/// What a key press asks of the sidebar.
#[derive(Debug, Clone, Copy, PartialEq, Eq, Structural)]
pub enum KeyAction {
    Quit,
    MoveUp,
    MoveDown,
    Activate,
    Refresh,
    Ignore,
}

/// The key map: Control-C quits; Up or Control-K and Down or Control-J move; Enter
/// jumps; a bare `r` refreshes; everything else, Esc included, does nothing.
pub open spec fn key_action_of(key: KeyPress) -> KeyAction {
    if key.control && key.code == KeyCode::Char('c') {
        KeyAction::Quit
    } else {
        match key.code {
            KeyCode::Up => KeyAction::MoveUp,
            KeyCode::Down => KeyAction::MoveDown,
            KeyCode::Enter => KeyAction::Activate,
            KeyCode::Char(c) => if c == 'k' && key.control {
                KeyAction::MoveUp
            } else if c == 'j' && key.control {
                KeyAction::MoveDown
            } else if c == 'r' && key.no_modifiers {
                KeyAction::Refresh
            } else {
                KeyAction::Ignore
            },
            _ => KeyAction::Ignore,
        }
    }
}

/// The key map: Up and Control-K move up, Down and Control-J move down, Enter jumps,
/// `r` without modifiers refreshes, Control-C quits; Esc, other keys, and `k`, `j`
/// without Control or `r` with a modifier do nothing.
pub proof fn lemma_key_map(c: char, control: bool, no_modifiers: bool)
    ensures
        key_action_of(KeyPress { code: KeyCode::Up, control, no_modifiers }) == KeyAction::MoveUp,
        key_action_of(KeyPress { code: KeyCode::Down, control, no_modifiers })
            == KeyAction::MoveDown,
        key_action_of(KeyPress { code: KeyCode::Enter, control, no_modifiers })
            == KeyAction::Activate,
        key_action_of(KeyPress { code: KeyCode::Esc, control, no_modifiers }) == KeyAction::Ignore,
        key_action_of(KeyPress { code: KeyCode::Other, control, no_modifiers })
            == KeyAction::Ignore,
        key_action_of(KeyPress { code: KeyCode::Char('k'), control: true, no_modifiers })
            == KeyAction::MoveUp,
        key_action_of(KeyPress { code: KeyCode::Char('j'), control: true, no_modifiers })
            == KeyAction::MoveDown,
        key_action_of(KeyPress { code: KeyCode::Char('c'), control: true, no_modifiers })
            == KeyAction::Quit,
        key_action_of(KeyPress { code: KeyCode::Char('r'), control, no_modifiers })
            == if no_modifiers { KeyAction::Refresh } else { KeyAction::Ignore },
        !control ==> key_action_of(KeyPress { code: KeyCode::Char(c), control, no_modifiers })
            == if c == 'r' && no_modifiers { KeyAction::Refresh } else { KeyAction::Ignore },
        control && c != 'k' && c != 'j' && c != 'c' && !(c == 'r' && no_modifiers) ==> key_action_of(
            KeyPress { code: KeyCode::Char(c), control, no_modifiers },
        ) == KeyAction::Ignore,
{
}

/// What a key press asks of the sidebar.
pub fn action_for_key(key: KeyPress) -> (action: KeyAction)
    ensures
        action == key_action_of(key),
        action == KeyAction::Quit <==> key.control && key.code == KeyCode::Char('c'),
        key.code == KeyCode::Esc ==> action == KeyAction::Ignore,
{
    if key.control && key.code == KeyCode::Char('c') {
        return KeyAction::Quit;
    }
    match key.code {
        KeyCode::Up => KeyAction::MoveUp,
        KeyCode::Char('k') if key.control => KeyAction::MoveUp,
        KeyCode::Down => KeyAction::MoveDown,
        KeyCode::Char('j') if key.control => KeyAction::MoveDown,
        KeyCode::Enter => KeyAction::Activate,
        KeyCode::Char('r') if key.no_modifiers => KeyAction::Refresh,
        KeyCode::Esc => KeyAction::Ignore,
        _ => KeyAction::Ignore,
    }
}

/// What the sidebar does on an idle tick.
#[derive(Debug, Clone, Copy, PartialEq, Eq, Structural)]
pub enum TickAction {
    Connect,
    Refresh,
    Wait,
}

/// On an idle tick at `now_ms`: a disconnected sidebar reconnects once its reconnect
/// time has come; a connected one polls again once `REFRESH_EVERY_MS` have passed
/// since its last poll.
pub open spec fn tick_action_of(
    connected: bool,
    now_ms: u64,
    next_reconnect_ms: u64,
    last_refresh_ms: u64,
) -> TickAction {
    if !connected {
        if now_ms >= next_reconnect_ms {
            TickAction::Connect
        } else {
            TickAction::Wait
        }
    } else if now_ms >= last_refresh_ms && now_ms - last_refresh_ms >= REFRESH_EVERY_MS {
        TickAction::Refresh
    } else {
        TickAction::Wait
    }
}

/// A connected sidebar polls again exactly when `REFRESH_EVERY_MS` have passed since
/// its last poll, whatever its reconnect time; it never reconnects. A disconnected one
/// reconnects exactly when its reconnect time has come, and never polls.
pub proof fn lemma_tick_decisions(now_ms: u64, next_a: u64, next_b: u64, last_refresh_ms: u64)
    ensures
        tick_action_of(true, now_ms, next_a, last_refresh_ms) == tick_action_of(
            true,
            now_ms,
            next_b,
            last_refresh_ms,
        ),
        tick_action_of(true, now_ms, next_a, last_refresh_ms) == TickAction::Refresh
            <==> now_ms >= last_refresh_ms + REFRESH_EVERY_MS,
        tick_action_of(true, now_ms, next_a, last_refresh_ms) != TickAction::Connect,
        tick_action_of(false, now_ms, next_a, last_refresh_ms) == TickAction::Connect
            <==> now_ms >= next_a,
        tick_action_of(false, now_ms, next_a, last_refresh_ms) != TickAction::Refresh,
        tick_action_of(false, now_ms, next_a, last_refresh_ms) == tick_action_of(
            false,
            now_ms,
            next_a,
            next_b,
        ),
{
}

/// What the sidebar does on an idle tick.
pub fn tick_action(connected: bool, now_ms: u64, next_reconnect_ms: u64, last_refresh_ms: u64) -> (action: TickAction)
    ensures
        action == tick_action_of(connected, now_ms, next_reconnect_ms, last_refresh_ms),
        connected ==> (action == TickAction::Refresh <==> now_ms >= last_refresh_ms + REFRESH_EVERY_MS),
        connected ==> action != TickAction::Connect,
        !connected ==> (action == TickAction::Connect <==> now_ms >= next_reconnect_ms),
        !connected ==> action != TickAction::Refresh,
{
    if !connected {
        if now_ms >= next_reconnect_ms {
            TickAction::Connect
        } else {
            TickAction::Wait
        }
    } else if now_ms.saturating_sub(last_refresh_ms) >= REFRESH_EVERY_MS {
        TickAction::Refresh
    } else {
        TickAction::Wait
    }
}

/// The state of an environment variable.
#[derive(Debug, Clone, Copy, PartialEq, Eq, Structural)]
pub enum EnvVar {
    Unset,
    Empty,
    Present,
}

/// Which variable names the socket.
#[derive(Debug, Clone, Copy, PartialEq, Eq, Structural)]
pub enum SocketSource {
    /// `CMUX_TUI_SOCKET`.
    Primary,
    /// `CMUX_MUX_SOCKET`, the legacy fallback.
    Legacy,
    /// Neither gives a path.
    Missing,
}

/// The socket path comes from `CMUX_TUI_SOCKET` when it is set, else from
/// `CMUX_MUX_SOCKET`; a variable that is chosen but empty gives no path.
pub fn socket_source(primary: EnvVar, legacy: EnvVar) -> (s: SocketSource)
    ensures
        s == match primary {
            EnvVar::Present => SocketSource::Primary,
            EnvVar::Empty => SocketSource::Missing,
            EnvVar::Unset => match legacy {
                EnvVar::Present => SocketSource::Legacy,
                _ => SocketSource::Missing,
            },
        },
{
    match primary {
        EnvVar::Present => SocketSource::Primary,
        EnvVar::Empty => SocketSource::Missing,
        EnvVar::Unset => match legacy {
            EnvVar::Present => SocketSource::Legacy,
            _ => SocketSource::Missing,
        },
    }
}

/// The message shown when no socket path is given.
pub fn missing_socket_message() -> (m: String)
    ensures
        m@ == "CMUX_TUI_SOCKET is not set. Launch this plugin from cmux, or run standalone with CMUX_TUI_SOCKET=/path/to/cmux-tui.sock cargo run."@,
{
    String::from_str(
        "CMUX_TUI_SOCKET is not set. Launch this plugin from cmux, or run standalone with CMUX_TUI_SOCKET=/path/to/cmux-tui.sock cargo run.",
    )
}

/// Milliseconds since the Unix epoch as a `u64`: 0 when the clock reads before the
/// epoch (`None`), saturating at `u64::MAX`.
pub fn epoch_millis(since_epoch_ms: Option<u128>) -> (ms: u64)
    ensures
        ms == match since_epoch_ms {
            None => 0,
            Some(m) => if m <= u64::MAX { m as u64 } else { u64::MAX },
        },
{
    match since_epoch_ms {
        None => 0,
        Some(m) => if m <= u64::MAX as u128 {
            m as u64
        } else {
            u64::MAX
        },
    }
}

} // verus!
