//! What the sidebar draws: the header, the agent and notification lines with their
//! styles, the reconnect screen and the footer, each fitted to the available width.

use vstd::prelude::*;
use vstd::view::View as _;

use crate::model::{status_glyph, AgentRow, RecentNotification};
use crate::text::{decimal, decimal_string, middle_truncate, middle_truncated, same_text};

verus! {

/// The state the sidebar draws.
pub struct View<'a> {
    pub agents: &'a [AgentRow],
    pub notifications: &'a [RecentNotification],
    pub selected: usize,
    pub status: ViewStatus<'a>,
}

/// Whether the sidebar is connected.
pub enum ViewStatus<'a> {
    Ready,
    Reconnecting { message: &'a str },
}

/// One line of text with its style.
#[derive(Debug, Clone, PartialEq, Eq)]
pub struct StyledLine {
    pub text: String,
    pub bold: bool,
    pub dim: bool,
    pub reversed: bool,
}

/// A `StyledLine` with its text as a character sequence.
pub struct LineView {
    pub text: Seq<char>,
    pub bold: bool,
    pub dim: bool,
    pub reversed: bool,
}

impl vstd::view::View for StyledLine {
    type V = LineView;

    open spec fn view(&self) -> LineView {
        LineView { text: self.text@, bold: self.bold, dim: self.dim, reversed: self.reversed }
    }
}

/// The views of a sequence of lines.
pub open spec fn line_views(s: Seq<StyledLine>) -> Seq<LineView> {
    s.map_values(|l: StyledLine| l@)
}

/// An unstyled line.
pub open spec fn plain_line(text: Seq<char>) -> LineView {
    LineView { text, bold: false, dim: false, reversed: false }
}

/// A section heading: bold and dim.
pub open spec fn heading_line(text: Seq<char>) -> LineView {
    LineView { text, bold: true, dim: true, reversed: false }
}

/// The header text: the number of agents and of notifications.
pub open spec fn header_text(agents: nat, notifications: nat) -> Seq<char> {
    "Agents "@ + decimal(agents) + "  Notifications "@ + decimal(notifications)
}

/// The header line, fitted to `width` characters.
pub fn header_line(view: &View, width: usize) -> (line: String)
    ensures
        line@ == middle_truncated(
            header_text(view.agents@.len(), view.notifications@.len()),
            width as nat,
        ),
{
    let mut text = String::from_str("Agents ");
    text.append(decimal_string(view.agents.len() as u64).as_str());
    text.append("  Notifications ");
    text.append(decimal_string(view.notifications.len() as u64).as_str());
    middle_truncate(text.as_str(), width)
}

/// The footer text: the key bindings.
pub open spec fn footer_text() -> Seq<char> {
    "↑↓/C-j/k move  Enter jump  r refresh  C-c quit"@
}

/// The footer line, fitted to `width` characters.
pub fn footer_line(width: usize) -> (line: String)
    ensures
        line@ == middle_truncated(footer_text(), width as nat),
{
    middle_truncate("↑↓/C-j/k move  Enter jump  r refresh  C-c quit", width)
}

/// The text of an agent line: glyph, name, breadcrumb and age.
pub open spec fn agent_line_text(row: AgentRow) -> Seq<char> {
    status_glyph(row.status) + " "@ + row.name@ + " · "@ + row.breadcrumb@ + " · "@ + row.age@
}

/// The glyph of a notification level: `✖` error, `⚠` warning, `•` otherwise.
pub open spec fn level_glyph(level: Seq<char>) -> Seq<char> {
    if level == "error"@ {
        "✖"@
    } else if level == "warning"@ {
        "⚠"@
    } else {
        "•"@
    }
}

/// Errors show `✖`, warnings `⚠`, and any other level `•`.
pub proof fn lemma_level_glyphs(level: Seq<char>)
    ensures
        level_glyph("error"@) == "✖"@,
        level_glyph("warning"@) == "⚠"@,
        level != "error"@ && level != "warning"@ ==> level_glyph(level) == "•"@,
{
    reveal_strlit("error");
    reveal_strlit("warning");
    assert("warning"@ != "error"@) by {
        assert("warning"@.len() != "error"@.len());
    }
}

/// The text of a notification line: glyph, title and breadcrumb.
pub open spec fn notification_line_text(n: RecentNotification) -> Seq<char> {
    level_glyph(n.level@) + " "@ + n.title@ + " · "@ + n.breadcrumb@
}

/// The lines of the agents section below its heading.
pub open spec fn agent_block(agents: Seq<AgentRow>, selected: int, width: nat) -> Seq<LineView> {
    if agents.len() == 0 {
        seq![
            plain_line(middle_truncated("No agents reported yet"@, width)),
            LineView {
                text: middle_truncated("Agents appear via the report-agent verb."@, width),
                bold: false,
                dim: true,
                reversed: false,
            },
        ]
    } else {
        Seq::new(
            agents.len(),
            |i: int|
                LineView {
                    text: middle_truncated(agent_line_text(agents[i]), width),
                    bold: false,
                    dim: false,
                    reversed: i == selected,
                },
        )
    }
}

/// The notifications section: nothing without notifications, else a blank line, the
/// heading, and one line per notification, bold while unread.
pub open spec fn notification_block(
    notifications: Seq<RecentNotification>,
    first_index: int,
    selected: int,
    width: nat,
) -> Seq<LineView> {
    if notifications.len() == 0 {
        Seq::empty()
    } else {
        seq![plain_line(Seq::empty()), heading_line("NOTIFICATIONS"@)] + Seq::new(
            notifications.len(),
            |j: int|
                LineView {
                    text: middle_truncated(notification_line_text(notifications[j]), width),
                    bold: notifications[j].unread,
                    dim: false,
                    reversed: first_index + j == selected,
                },
        )
    }
}

/// Every line of the connected screen, before scrolling: agents are selectable rows
/// `0..agents.len()`, notifications the rows after them.
pub open spec fn all_lines(
    agents: Seq<AgentRow>,
    notifications: Seq<RecentNotification>,
    selected: int,
    width: nat,
) -> Seq<LineView> {
    seq![heading_line("AGENTS"@)] + agent_block(agents, selected, width) + notification_block(
        notifications,
        agents.len() as int,
        selected,
        width,
    )
}

/// The line on which the selected row stands, or the first line when the selection
/// designates no row.
pub open spec fn selected_line(agents: nat, notifications: nat, selected: int) -> int {
    if 0 <= selected < agents {
        1 + selected
    } else if agents <= selected < agents + notifications {
        1 + (if agents == 0 { 2 } else { agents as int }) + 2 + (selected - agents)
    } else {
        0
    }
}

/// The first line to show so that the selected line is visible, scrolling as little
/// as possible from the top.
pub open spec fn scroll_offset_of(selected: int, visible_height: int, total: int) -> int {
    if visible_height == 0 || total <= visible_height || selected < visible_height {
        0
    } else {
        let down = selected + 1 - visible_height;
        if down <= total - visible_height {
            down
        } else {
            total - visible_height
        }
    }
}

/// The first line to show so that line `selected` is visible.
pub fn scroll_offset(selected: usize, visible_height: usize, total: usize) -> (offset: usize)
    requires
        selected < usize::MAX,
    ensures
        offset == scroll_offset_of(selected as int, visible_height as int, total as int),
        selected < total && visible_height > 0 ==> offset <= selected < offset + visible_height,
        total > visible_height ==> offset + visible_height <= total,
        total <= visible_height ==> offset == 0,
{
    if visible_height == 0 || total <= visible_height || selected < visible_height {
        return 0;
    }
    let down = (selected + 1).saturating_sub(visible_height);
    if down <= total - visible_height {
        down
    } else {
        total - visible_height
    }
}

fn styled(text: String, bold: bool, dim: bool, reversed: bool) -> (line: StyledLine)
    ensures
        line@ == (LineView { text: text@, bold, dim, reversed }),
{
    StyledLine { text, bold, dim, reversed }
}

fn agent_text(row: &AgentRow) -> (text: String)
    ensures
        text@ == agent_line_text(*row),
{
    let mut text = String::from_str(row.status.glyph());
    text.append(" ");
    text.append(row.name.as_str());
    text.append(" · ");
    text.append(row.breadcrumb.as_str());
    text.append(" · ");
    text.append(row.age.as_str());
    text
}

fn notification_text(n: &RecentNotification) -> (text: String)
    ensures
        text@ == notification_line_text(*n),
{
    let glyph = if same_text(n.level.as_str(), "error") {
        "✖"
    } else if same_text(n.level.as_str(), "warning") {
        "⚠"
    } else {
        "•"
    };
    let mut text = String::from_str(glyph);
    text.append(" ");
    text.append(n.title.as_str());
    text.append(" · ");
    text.append(n.breadcrumb.as_str());
    text
}

/// The selected row stands on exactly one line, and that line is highlighted: when the
/// selection designates a row, the line `selected_line` gives is the only reversed
/// line, and it shows that row (an agent's glyph, name, breadcrumb and age, or a
/// notification's glyph, title and breadcrumb, bold while unread). When the selection
/// designates no row, no line is reversed.
pub proof fn lemma_selected_row_line(
    agents: Seq<AgentRow>,
    notifications: Seq<RecentNotification>,
    selected: int,
    width: nat,
)
    requires
        0 <= selected,
    ensures
        ({
            let lines = all_lines(agents, notifications, selected, width);
            let pos = selected_line(agents.len(), notifications.len(), selected);
            &&& 0 <= pos < lines.len()
            &&& selected < agents.len() + notifications.len() ==> lines[pos].reversed
            &&& selected < agents.len() + notifications.len() ==> forall|k: int|
                0 <= k < lines.len() && k != pos ==> !(#[trigger] lines[k]).reversed
            &&& selected >= agents.len() + notifications.len() ==> forall|k: int|
                0 <= k < lines.len() ==> !(#[trigger] lines[k]).reversed
            &&& selected < agents.len() ==> lines[pos].text == middle_truncated(
                agent_line_text(agents[selected]),
                width,
            )
            &&& agents.len() <= selected < agents.len() + notifications.len() ==> lines[pos].text
                == middle_truncated(notification_line_text(notifications[selected - agents.len()]), width)
                && lines[pos].bold == notifications[selected - agents.len()].unread
        }),
{
    let lines = all_lines(agents, notifications, selected, width);
    let head = seq![heading_line("AGENTS"@)];
    let ab = agent_block(agents, selected, width);
    let nb = notification_block(notifications, agents.len() as int, selected, width);
    assert(lines == head + ab + nb);
    let base = 1 + ab.len();
    assert forall|k: int| 0 <= k < lines.len() && (#[trigger] lines[k]).reversed implies k
        == selected_line(agents.len(), notifications.len(), selected) && selected < agents.len()
        + notifications.len() by {
        if k == 0 {
        } else if k < base {
            assert(lines[k] == ab[k - 1]);
        } else {
            assert(lines[k] == nb[k - base]);
            if k - base >= 2 {
                assert(nb[k - base] == Seq::new(
                    notifications.len(),
                    |j: int|
                        LineView {
                            text: middle_truncated(notification_line_text(notifications[j]), width),
                            bold: notifications[j].unread,
                            dim: false,
                            reversed: agents.len() + j == selected,
                        },
                )[k - base - 2]);
            }
        }
    }
    if selected < agents.len() {
        assert(lines[1 + selected] == ab[selected]);
    } else if selected < agents.len() + notifications.len() {
        let j = selected - agents.len();
        assert(lines[base + 2 + j] == nb[2 + j]);
    }
}

/// Every line of the connected screen, and the line of the selected row.
pub fn connected_lines(view: &View, width: usize) -> (r: (Vec<StyledLine>, usize))
    ensures
        line_views(r.0@) == all_lines(
            view.agents@,
            view.notifications@,
            view.selected as int,
            width as nat,
        ),
        r.1 == selected_line(
            view.agents@.len(),
            view.notifications@.len(),
            view.selected as int,
        ),
        r.1 < r.0@.len(),
        view.selected < view.agents@.len() + view.notifications@.len() ==> r.0@[r.1 as int].reversed,
{
    proof {
        lemma_selected_row_line(
            view.agents@,
            view.notifications@,
            view.selected as int,
            width as nat,
        );
    }
    let ghost target = all_lines(view.agents@, view.notifications@, view.selected as int, width as nat);
    let mut lines: Vec<StyledLine> = Vec::new();
    let mut position: usize = 0;
    lines.push(styled(String::from_str("AGENTS"), true, true, false));
    let ghost head = seq![heading_line("AGENTS"@)];
    assert(line_views(lines@) =~= head);
    if view.agents.len() == 0 {
        lines.push(styled(middle_truncate("No agents reported yet", width), false, false, false));
        lines.push(
            styled(
                middle_truncate("Agents appear via the report-agent verb.", width),
                false,
                true,
                false,
            ),
        );
        assert(line_views(lines@) =~= head + agent_block(view.agents@, view.selected as int, width as nat));
    } else {
        let mut i: usize = 0;
        while i < view.agents.len()
            invariant
                i <= view.agents@.len(),
                view.agents@.len() > 0,
                line_views(lines@) == head + agent_block(view.agents@, view.selected as int, width as nat).take(i as int),
                lines@.len() == 1 + i,
                position == (if view.selected < i { 1 + view.selected } else { 0 }),
            decreases view.agents@.len() - i,
        {
            let text = middle_truncate(agent_text(&view.agents[i]).as_str(), width);
            if i == view.selected {
                position = lines.len();
            }
            let ghost prev = lines@;
            lines.push(styled(text, false, false, i == view.selected));
            assert(line_views(lines@) =~= line_views(prev).push(lines@.last()@));
            assert(agent_block(view.agents@, view.selected as int, width as nat).take(i + 1)
                =~= agent_block(view.agents@, view.selected as int, width as nat).take(i as int).push(lines@.last()@));
            i += 1;
        }
        assert(agent_block(view.agents@, view.selected as int, width as nat).take(i as int)
            =~= agent_block(view.agents@, view.selected as int, width as nat));
    }
    let ghost before_notes = line_views(lines@);
    assert(before_notes == head + agent_block(view.agents@, view.selected as int, width as nat));
    if view.notifications.len() > 0 {
        lines.push(styled(String::new(), false, false, false));
        lines.push(styled(String::from_str("NOTIFICATIONS"), true, true, false));
        let ghost block = notification_block(
            view.notifications@,
            view.agents@.len() as int,
            view.selected as int,
            width as nat,
        );
        assert(line_views(lines@) =~= before_notes + block.take(2));
        let mut j: usize = 0;
        while j < view.notifications.len()
            invariant
                j <= view.notifications@.len(),
                view.notifications@.len() > 0,
                block == notification_block(
                    view.notifications@,
                    view.agents@.len() as int,
                    view.selected as int,
                    width as nat,
                ),
                block.len() == 2 + view.notifications@.len(),
                line_views(lines@) == before_notes + block.take(2 + j),
                before_notes.len() == 1 + (if view.agents@.len() == 0 { 2 } else { view.agents@.len() as int }),
                lines@.len() == before_notes.len() + 2 + j,
                position == (if view.selected < view.agents@.len() { 1 + view.selected }
                    else if view.selected < view.agents@.len() + j { before_notes.len() + 2 + (view.selected - view.agents@.len()) }
                    else { 0 }),
            decreases view.notifications@.len() - j,
        {
            let n = &view.notifications[j];
            let text = middle_truncate(notification_text(n).as_str(), width);
            let selected_here = view.selected >= view.agents.len() && view.selected - view.agents.len() == j;
            if selected_here {
                position = lines.len();
            }
            let ghost prev = lines@;
            lines.push(styled(text, n.unread, false, selected_here));
            assert(line_views(lines@) =~= line_views(prev).push(lines@.last()@));
            assert(block.take(2 + j + 1) =~= block.take(2 + j).push(lines@.last()@));
            j += 1;
        }
        assert(block.take(2 + j) =~= block);
    } else {
        assert(line_views(lines@) =~= target);
    }
    (lines, position)
}

/// The lines shown in the body: on the connected screen the lines from the scroll
/// offset on, at most `height` of them; while reconnecting, the reconnect screen.
pub open spec fn body_text(
    agents: Seq<AgentRow>,
    notifications: Seq<RecentNotification>,
    selected: int,
    reconnecting: Option<Seq<char>>,
    width: nat,
    height: nat,
) -> Seq<LineView> {
    match reconnecting {
        Some(message) => seq![
            plain_line(middle_truncated("Reconnecting to cmux"@, width)),
            plain_line(middle_truncated(message, width)),
            plain_line(
                middle_truncated(
                    "Set CMUX_TUI_SOCKET to the cmux-tui JSON-lines socket path."@,
                    width,
                ),
            ),
        ].take(if height < 3 { height as int } else { 3 }),
        None => if height == 0 {
            Seq::empty()
        } else {
            let lines = all_lines(agents, notifications, selected, width);
            let offset = scroll_offset_of(
                selected_line(agents.len(), notifications.len(), selected),
                height as int,
                lines.len() as int,
            );
            lines.subrange(
                offset,
                if offset + height < lines.len() { offset + height } else { lines.len() as int },
            )
        },
    }
}

/// The scroll offset keeps the selected line on screen: it lies within the visible
/// lines, and the visible lines run to the end at most.
pub proof fn lemma_scroll_keeps_line_visible(selected: int, visible_height: int, total: int)
    requires
        0 <= selected < total,
        visible_height > 0,
    ensures
        0 <= scroll_offset_of(selected, visible_height, total) <= selected,
        selected < scroll_offset_of(selected, visible_height, total) + visible_height,
        total > visible_height ==> scroll_offset_of(selected, visible_height, total)
            + visible_height <= total,
        total <= visible_height ==> scroll_offset_of(selected, visible_height, total) == 0,
{
}

/// The scroll offset is the least one that shows the selected line: no smaller offset
/// keeps it on screen, and when everything fits nothing scrolls.
pub proof fn lemma_scroll_is_least(selected: int, visible_height: int, total: int, o: int)
    requires
        0 <= selected < total,
        visible_height > 0,
        0 <= o < scroll_offset_of(selected, visible_height, total),
    ensures
        !(o <= selected < o + visible_height),
{
}

/// On the connected screen with room for at least one line, the selected row is
/// shown, highlighted: some line of the body is reversed whenever the selection
/// designates a row.
pub proof fn lemma_selection_shown(
    agents: Seq<AgentRow>,
    notifications: Seq<RecentNotification>,
    selected: int,
    width: nat,
    height: nat,
)
    requires
        0 <= selected < agents.len() + notifications.len(),
        height > 0,
    ensures
        exists|i: int|
            0 <= i < body_text(agents, notifications, selected, None, width, height).len()
                && (#[trigger] body_text(agents, notifications, selected, None, width, height)[i]).reversed,
{
    let lines = all_lines(agents, notifications, selected, width);
    let pos = selected_line(agents.len(), notifications.len(), selected);
    lemma_selected_row_line(agents, notifications, selected, width);
    lemma_scroll_keeps_line_visible(pos, height as int, lines.len() as int);
    let offset = scroll_offset_of(pos, height as int, lines.len() as int);
    let body = body_text(agents, notifications, selected, None, width, height);
    assert(body[pos - offset] == lines[pos]);
}

/// The lines of the body area, `width` characters wide and at most `height` tall.
pub fn body_lines(view: &View, width: usize, height: usize) -> (lines: Vec<StyledLine>)
    ensures
        line_views(lines@) == body_text(
            view.agents@,
            view.notifications@,
            view.selected as int,
            match view.status {
                ViewStatus::Ready => None,
                ViewStatus::Reconnecting { message } => Some(message@),
            },
            width as nat,
            height as nat,
        ),
        lines@.len() <= height,
        view.status is Ready && height > 0 && view.selected < view.agents@.len()
            + view.notifications@.len() ==> exists|i: int|
            0 <= i < lines@.len() && (#[trigger] lines@[i]).reversed,
{
    proof {
        if view.status is Ready && height > 0 && view.selected < view.agents@.len()
            + view.notifications@.len() {
            lemma_selection_shown(
                view.agents@,
                view.notifications@,
                view.selected as int,
                width as nat,
                height as nat,
            );
        }
    }
    match view.status {
        ViewStatus::Reconnecting { message } => {
            let mut lines: Vec<StyledLine> = Vec::new();
            if height > 0 {
                lines.push(styled(middle_truncate("Reconnecting to cmux", width), false, false, false));
            }
            if height > 1 {
                lines.push(styled(middle_truncate(message, width), false, false, false));
            }
            if height > 2 {
                lines.push(
                    styled(
                        middle_truncate(
                            "Set CMUX_TUI_SOCKET to the cmux-tui JSON-lines socket path.",
                            width,
                        ),
                        false,
                        false,
                        false,
                    ),
                );
            }
            assert(line_views(lines@) =~= body_text(
                view.agents@,
                view.notifications@,
                view.selected as int,
                Some(message@),
                width as nat,
                height as nat,
            ));
            lines
        },
        ViewStatus::Ready => {
            let mut out: Vec<StyledLine> = Vec::new();
            if height == 0 {
                assert(line_views(out@) =~= Seq::<LineView>::empty());
                return out;
            }
            let (all, position) = connected_lines(view, width);
            let offset = scroll_offset(position, height, all.len());
            let end = if all.len() <= height {
                all.len()
            } else {
                offset + height
            };
            let ghost target = line_views(all@).subrange(offset as int, end as int);
            let mut k: usize = offset;
            while k < end
                invariant
                    offset <= k <= end,
                    end <= all@.len(),
                    line_views(out@) == line_views(all@).subrange(offset as int, k as int),
                decreases end - k,
            {
                let line = &all[k];
                let ghost prev = out@;
                out.push(styled(line.text.clone(), line.bold, line.dim, line.reversed));
                assert(line_views(out@) =~= line_views(prev).push(all@[k as int]@));
                assert(line_views(all@).subrange(offset as int, k + 1) =~= line_views(all@).subrange(offset as int, k as int).push(all@[k as int]@));
                k += 1;
            }
            proof {
                if view.selected < view.agents@.len() + view.notifications@.len() {
                    let body = line_views(out@);
                    let i = choose|i: int| 0 <= i < body.len() && (#[trigger] body[i]).reversed;
                    assert(out@[i].reversed);
                }
            }
            out
        },
    }
}

} // verus!
