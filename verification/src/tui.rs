//! State of the terminal interface that does not depend on drawing: which tab and which
//! torrent are selected, which tracker rows are visible, and what a mouse position hits.
use vstd::prelude::*;

verus! {

/// The tabs of the lower section.
#[derive(Debug, Default, Clone, Copy, PartialEq, Eq, Structural)]
pub enum Tab {
    #[default]
    Details,
    Bandwidth,
    Files,
    Trackers,
    Peers,
    Pieces,
}

/// The tab shown for a tab index; indexes past the last tab show the details.
pub open spec fn tab_for_index(index: nat) -> Tab {
    if index == 1 {
        Tab::Bandwidth
    } else if index == 2 {
        Tab::Files
    } else if index == 3 {
        Tab::Trackers
    } else if index == 4 {
        Tab::Peers
    } else if index == 5 {
        Tab::Pieces
    } else {
        Tab::Details
    }
}

/// Whether the left mouse button is down.
#[derive(Debug, Clone, Copy, PartialEq, Eq, Structural)]
pub enum MouseEv {
    Clicked,
    NotClicked,
}

/// Abstract state of the selection.
pub struct TUIStateView {
    pub max_tab_index: nat,
    pub selected_tab_index: nat,
    pub tab: Tab,
    pub torrent_index: nat,
    pub max_torrent_index: nat,
    pub mouse_x: u16,
    pub mouse_y: u16,
    pub mouse_event: MouseEv,
}

/// Which tab and which torrent are selected, how many there are, and where the mouse was last.
pub struct TUIState {
    max_tab_index: usize,
    selected_tab_index: usize,
    tab: Tab,
    torrent_index: usize,
    max_torrent_index: usize,
    mouse_x: u16,
    mouse_y: u16,
    mouse_event: MouseEv,
}

impl View for TUIState {
    type V = TUIStateView;

    closed spec fn view(&self) -> TUIStateView {
        TUIStateView {
            max_tab_index: self.max_tab_index as nat,
            selected_tab_index: self.selected_tab_index as nat,
            tab: self.tab,
            torrent_index: self.torrent_index as nat,
            max_torrent_index: self.max_torrent_index as nat,
            mouse_x: self.mouse_x,
            mouse_y: self.mouse_y,
            mouse_event: self.mouse_event,
        }
    }
}

impl TUIState {
    /// The selected torrent is never past the last one, and the tab shown is that of the
    /// selected tab index.
    pub open spec fn wf(&self) -> bool {
        &&& self@.torrent_index <= self@.max_torrent_index
        &&& self@.tab == tab_for_index(self@.selected_tab_index)
    }

    /// The first tab and the first torrent selected.
    pub fn new() -> (s: Self)
        ensures
            s.wf(),
            s@.max_tab_index == 0,
            s@.selected_tab_index == 0,
            s@.torrent_index == 0,
            s@.max_torrent_index == 0,
            s@.mouse_x == 0,
            s@.mouse_y == 0,
            s@.mouse_event == MouseEv::NotClicked,
    {
        TUIState {
            max_tab_index: 0,
            selected_tab_index: 0,
            tab: Tab::Details,
            torrent_index: 0,
            max_torrent_index: 0,
            mouse_x: 0,
            mouse_y: 0,
            mouse_event: MouseEv::NotClicked,
        }
    }

    /// The column of the last mouse event.
    pub fn mouse_x(&self) -> (x: u16)
        ensures
            x == self@.mouse_x,
    {
        self.mouse_x
    }

    /// The row of the last mouse event.
    pub fn mouse_y(&self) -> (y: u16)
        ensures
            y == self@.mouse_y,
    {
        self.mouse_y
    }

    /// Whether the left button is down, as the last mouse events tell.
    pub fn mouse_event(&self) -> (e: MouseEv)
        ensures
            e == self@.mouse_event,
    {
        self.mouse_event
    }

    /// The selected tab index.
    pub fn tab_index(&self) -> (i: usize)
        ensures
            i == self@.selected_tab_index,
    {
        self.selected_tab_index
    }

    /// The tab shown.
    pub fn tab(&self) -> (t: Tab)
        ensures
            t == self@.tab,
    {
        self.tab
    }

    /// Selects a tab and shows it.
    pub fn set_tab_index(&mut self, index: usize)
        requires
            old(self).wf(),
        ensures
            final(self).wf(),
            final(self)@ == (TUIStateView {
                selected_tab_index: index as nat,
                tab: tab_for_index(index as nat),
                ..old(self)@
            }),
    {
        self.selected_tab_index = index;
        self.loadTab();
    }

    /// The selected torrent index.
    pub fn torrent_index(&self) -> (i: usize)
        ensures
            i == self@.torrent_index,
    {
        self.torrent_index
    }

    /// Selects a torrent, at most the last one.
    pub fn set_torrent_index(&mut self, index: usize)
        requires
            old(self).wf(),
        ensures
            final(self).wf(),
            final(self)@ == (TUIStateView {
                torrent_index: if index < old(self)@.max_torrent_index {
                    index as nat
                } else {
                    old(self)@.max_torrent_index
                },
                ..old(self)@
            }),
    {
        self.torrent_index = if index < self.max_torrent_index {
            index
        } else {
            self.max_torrent_index
        };
    }

    /// The last tab index.
    pub fn max_tab_index(&self) -> (i: usize)
        ensures
            i == self@.max_tab_index,
    {
        self.max_tab_index
    }

    /// Sets the last tab index; a selection past it moves to it.
    pub fn set_max_tab_index(&mut self, index: usize)
        requires
            old(self).wf(),
        ensures
            final(self).wf(),
            final(self)@.max_tab_index == index,
            final(self)@.selected_tab_index == if old(self)@.selected_tab_index > index {
                index as nat
            } else {
                old(self)@.selected_tab_index
            },
            final(self)@.torrent_index == old(self)@.torrent_index,
            final(self)@.max_torrent_index == old(self)@.max_torrent_index,
            final(self)@.mouse_x == old(self)@.mouse_x,
            final(self)@.mouse_y == old(self)@.mouse_y,
            final(self)@.mouse_event == old(self)@.mouse_event,
    {
        self.max_tab_index = index;
        if self.selected_tab_index > index {
            self.set_tab_index(index);
        }
    }

    /// Sets the last torrent index; a selection past it moves to it.
    pub fn set_max_torrent_index(&mut self, index: usize)
        requires
            old(self).wf(),
        ensures
            final(self).wf(),
            final(self)@ == (TUIStateView {
                max_torrent_index: index as nat,
                torrent_index: if old(self)@.torrent_index > index {
                    index as nat
                } else {
                    old(self)@.torrent_index
                },
                ..old(self)@
            }),
    {
        self.max_torrent_index = index;
        if self.torrent_index > index {
            self.torrent_index = index;
        }
    }

    /// Selects the next tab, from the last back to the first.
    pub fn increment_tab_index(&mut self)
        requires
            old(self).wf(),
            old(self)@.selected_tab_index == old(self)@.max_tab_index
                || old(self)@.selected_tab_index < usize::MAX,
        ensures
            final(self).wf(),
            final(self)@.selected_tab_index == if old(self)@.selected_tab_index
                == old(self)@.max_tab_index {
                0
            } else {
                old(self)@.selected_tab_index + 1
            },
            final(self)@.max_tab_index == old(self)@.max_tab_index,
            final(self)@.torrent_index == old(self)@.torrent_index,
            final(self)@.max_torrent_index == old(self)@.max_torrent_index,
            final(self)@.mouse_x == old(self)@.mouse_x,
            final(self)@.mouse_y == old(self)@.mouse_y,
            final(self)@.mouse_event == old(self)@.mouse_event,
    {
        let current = self.tab_index();
        if current == self.max_tab_index() {
            self.set_tab_index(0);
        } else {
            self.set_tab_index(current + 1);
        }
    }

    /// Selects the previous tab, from the first back to the last.
    pub fn decrement_tab_index(&mut self)
        requires
            old(self).wf(),
        ensures
            final(self).wf(),
            final(self)@.selected_tab_index == if old(self)@.selected_tab_index == 0 {
                old(self)@.max_tab_index
            } else {
                (old(self)@.selected_tab_index - 1) as nat
            },
            final(self)@.max_tab_index == old(self)@.max_tab_index,
            final(self)@.torrent_index == old(self)@.torrent_index,
            final(self)@.max_torrent_index == old(self)@.max_torrent_index,
            final(self)@.mouse_x == old(self)@.mouse_x,
            final(self)@.mouse_y == old(self)@.mouse_y,
            final(self)@.mouse_event == old(self)@.mouse_event,
    {
        let current = self.tab_index();
        if current == 0 {
            let last = self.max_tab_index();
            self.set_tab_index(last);
        } else {
            self.set_tab_index(current - 1);
        }
    }

    /// Selects the next torrent, if there is one.
    pub fn increment_torrent_index(&mut self)
        requires
            old(self).wf(),
        ensures
            final(self).wf(),
            final(self)@ == (TUIStateView {
                torrent_index: if old(self)@.torrent_index < old(self)@.max_torrent_index {
                    old(self)@.torrent_index + 1
                } else {
                    old(self)@.torrent_index
                },
                ..old(self)@
            }),
    {
        let current = self.torrent_index();
        if current < self.max_torrent_index {
            self.set_torrent_index(current + 1);
        }
    }

    /// Selects the previous torrent, if there is one.
    pub fn decrement_torrent_index(&mut self)
        requires
            old(self).wf(),
        ensures
            final(self).wf(),
            final(self)@ == (TUIStateView {
                torrent_index: if old(self)@.torrent_index > 0 {
                    (old(self)@.torrent_index - 1) as nat
                } else {
                    0
                },
                ..old(self)@
            }),
    {
        let current = self.torrent_index();
        if current > 0 {
            self.set_torrent_index(current - 1);
        }
    }

    /// Pausing or resuming a torrent is not offered yet: nothing changes.
    pub fn toggle_torrent(&self, _index: usize) {
    }

    /// Shows the tab of the selected tab index.
    pub fn loadTab(&mut self)
        ensures
            final(self)@ == (TUIStateView {
                tab: tab_for_index(old(self)@.selected_tab_index),
                ..old(self)@
            }),
    {
        let i = self.selected_tab_index;
        self.tab = if i == 1 {
            Tab::Bandwidth
        } else if i == 2 {
            Tab::Files
        } else if i == 3 {
            Tab::Trackers
        } else if i == 4 {
            Tab::Peers
        } else if i == 5 {
            Tab::Pieces
        } else {
            Tab::Details
        };
    }
}

/// Moving to the next tab and back returns to the tab selected before.
pub proof fn lemma_tab_cycle_round_trip(before: TUIStateView, middle: TUIStateView, after: TUIStateView)
    requires
        middle.max_tab_index == before.max_tab_index,
        middle.selected_tab_index == (if before.selected_tab_index == before.max_tab_index {
            0
        } else {
            before.selected_tab_index + 1
        }),
        after.max_tab_index == middle.max_tab_index,
        after.selected_tab_index == (if middle.selected_tab_index == 0 {
            middle.max_tab_index
        } else {
            (middle.selected_tab_index - 1) as nat
        }),
    ensures
        after.selected_tab_index == before.selected_tab_index,
{
}

// ---------------------------------------------------------------------------------------------
// Tracker rows
// ---------------------------------------------------------------------------------------------

/// Chooses the first visible tracker row.
pub struct TrackerViewport;

/// The first visible row: scrolled just far enough to show the selected row, and never
/// past the point where the last row reaches the bottom.
pub open spec fn spec_viewport_start(selected: nat, total: nat, visible: nat) -> nat {
    if total == 0 || visible == 0 {
        0
    } else {
        let max_start = if total > visible { (total - visible) as nat } else { 0nat };
        let wanted = if selected + 1 > visible { (selected + 1 - visible) as nat } else { 0nat };
        if wanted < max_start { wanted } else { max_start }
    }
}

impl TrackerViewport {
    /// The first visible row when `selected_index` is selected among `total_rows` and
    /// `visible_rows` fit.
    pub fn start_for_selection(selected_index: usize, total_rows: usize, visible_rows: usize) -> (start: usize)
        ensures
            start == spec_viewport_start(selected_index as nat, total_rows as nat, visible_rows as nat),
    {
        if total_rows == 0 || visible_rows == 0 {
            return 0;
        }
        let max_start = if total_rows > visible_rows {
            total_rows - visible_rows
        } else {
            0
        };
        let next = if selected_index < usize::MAX {
            selected_index + 1
        } else {
            usize::MAX
        };
        let wanted = if next > visible_rows {
            next - visible_rows
        } else {
            0
        };
        if wanted < max_start {
            wanted
        } else {
            max_start
        }
    }
}

/// The selected row is among the visible rows, when it exists and rows are visible.
pub proof fn lemma_selected_row_visible(selected: nat, total: nat, visible: nat)
    requires
        selected < total,
        visible > 0,
    ensures
        spec_viewport_start(selected, total, visible) <= selected < spec_viewport_start(
            selected,
            total,
            visible,
        ) + visible,
        spec_viewport_start(selected, total, visible) + visible >= total ==> spec_viewport_start(
            selected,
            total,
            visible,
        ) + visible >= total,
{
}

// ---------------------------------------------------------------------------------------------
// Positions on screen
// ---------------------------------------------------------------------------------------------

/// A rectangle of terminal cells.
#[derive(Debug, Clone, Copy, PartialEq, Eq)]
pub struct Rect {
    pub x: u16,
    pub y: u16,
    pub width: u16,
    pub height: u16,
}

/// A terminal cell.
#[derive(Debug, Clone, Copy, PartialEq, Eq)]
pub struct Position {
    pub x: u16,
    pub y: u16,
}

/// `a + b`, saturated at `u16::MAX`.
pub open spec fn sat_add(a: int, b: int) -> int {
    if a + b > u16::MAX {
        u16::MAX as int
    } else {
        a + b
    }
}

/// `a - b`, saturated at 0.
pub open spec fn sat_sub(a: int, b: int) -> int {
    if a < b {
        0
    } else {
        a - b
    }
}

fn u16_sat_add(a: u16, b: u16) -> (r: u16)
    ensures
        r == sat_add(a as int, b as int),
{
    if a > u16::MAX - b {
        u16::MAX
    } else {
        a + b
    }
}

fn u16_sat_sub(a: u16, b: u16) -> (r: u16)
    ensures
        r == sat_sub(a as int, b as int),
{
    if a < b {
        0
    } else {
        a - b
    }
}

impl Rect {
    /// A rectangle.
    pub fn new(x: u16, y: u16, width: u16, height: u16) -> (r: Rect)
        ensures
            r == (Rect { x, y, width, height }),
    {
        Rect { x, y, width, height }
    }

    /// One past the last column, saturated.
    pub open spec fn spec_right(self) -> int {
        sat_add(self.x as int, self.width as int)
    }

    /// One past the last row, saturated.
    pub open spec fn spec_bottom(self) -> int {
        sat_add(self.y as int, self.height as int)
    }

    /// Whether the cell lies in the rectangle.
    pub open spec fn spec_contains(self, p: Position) -> bool {
        p.x >= self.x && p.x < self.spec_right() && p.y >= self.y && p.y < self.spec_bottom()
    }

    /// One past the last column.
    pub fn right(&self) -> (r: u16)
        ensures
            r == self.spec_right(),
    {
        u16_sat_add(self.x, self.width)
    }

    /// One past the last row.
    pub fn bottom(&self) -> (r: u16)
        ensures
            r == self.spec_bottom(),
    {
        u16_sat_add(self.y, self.height)
    }

    /// Whether the cell lies in the rectangle.
    pub fn contains(&self, p: Position) -> (b: bool)
        ensures
            b == self.spec_contains(p),
    {
        p.x >= self.x && p.x < self.right() && p.y >= self.y && p.y < self.bottom()
    }
}

/// The rectangle with `horizontal` cells cut from each side and `vertical` from top and
/// bottom (all saturating).
pub open spec fn spec_inset(area: Rect, horizontal: u16, vertical: u16) -> Rect {
    Rect {
        x: sat_add(area.x as int, horizontal as int) as u16,
        y: sat_add(area.y as int, vertical as int) as u16,
        width: sat_sub(area.width as int, sat_add(horizontal as int, horizontal as int)) as u16,
        height: sat_sub(area.height as int, sat_add(vertical as int, vertical as int)) as u16,
    }
}

/// Cuts margins from a rectangle.
pub fn inset_rect(area: Rect, horizontal: u16, vertical: u16) -> (r: Rect)
    ensures
        r == spec_inset(area, horizontal, vertical),
{
    Rect {
        x: u16_sat_add(area.x, horizontal),
        y: u16_sat_add(area.y, vertical),
        width: u16_sat_sub(area.width, u16_sat_add(horizontal, horizontal)),
        height: u16_sat_sub(area.height, u16_sat_add(vertical, vertical)),
    }
}

/// The torrent row under a cell of the torrent rows, counted from the top.
pub fn torrent_index_at(torrent_rows: Rect, position: Position) -> (r: Option<usize>)
    ensures
        torrent_rows.spec_contains(position) ==> r == Some((position.y - torrent_rows.y) as usize),
        !torrent_rows.spec_contains(position) ==> r is None,
{
    if torrent_rows.contains(position) {
        Some((position.y - torrent_rows.y) as usize)
    } else {
        None
    }
}

/// Widths of the tab titles: Details, Bandwidth, Files, Trackers, Peers, Pieces.
pub open spec fn tab_title_width(i: int) -> int {
    if i == 0 {
        7
    } else if i == 1 {
        9
    } else if i == 2 {
        5
    } else if i == 3 {
        8
    } else if i == 4 {
        5
    } else {
        6
    }
}

/// Number of tabs.
pub const TAB_COUNT: usize = 6;

/// Where tab `i` starts in a tab bar whose content starts at `start` and ends at `right`:
/// each tab takes its title and a cell of padding on both sides, then a divider cell, all
/// cut at the right edge.
pub open spec fn tab_start(start: int, right: int, i: int) -> int
    decreases i, 0int,
{
    if i <= 0 {
        start
    } else {
        tab_divider_end(start, right, i - 1)
    }
}

/// Where the title of tab `i` ends.
pub open spec fn tab_item_end(start: int, right: int, i: int) -> int
    decreases i, 1int,
{
    let cursor = tab_start(start, right, i);
    let room = sat_sub(right, cursor);
    let width = if 2 + tab_title_width(i) < room { 2 + tab_title_width(i) } else { room };
    sat_add(cursor, width)
}

/// Where the divider after tab `i` ends.
pub open spec fn tab_divider_end(start: int, right: int, i: int) -> int
    decreases i, 2int,
{
    let item_end = tab_item_end(start, right, i);
    if item_end + 1 < right { item_end + 1 } else { right }
}

/// The cells that belong to tab `i`: its title and the divider after it (the last tab has
/// none).
pub open spec fn tab_hit_end(start: int, right: int, i: int) -> int {
    if i + 1 < TAB_COUNT {
        tab_divider_end(start, right, i)
    } else {
        tab_item_end(start, right, i)
    }
}

/// The tab under a cell of the tab bar, inside its border.
pub open spec fn spec_tab_index_at(tab_bar: Rect, position: Position) -> Option<usize> {
    let content = spec_inset(tab_bar, 1, 1);
    if !content.spec_contains(position) {
        None
    } else {
        first_tab_hit(content.x as int, content.spec_right(), position.x as int, 0)
    }
}

/// The first tab from `i` on whose cells include column `px`.
pub open spec fn first_tab_hit(start: int, right: int, px: int, i: int) -> Option<usize>
    decreases TAB_COUNT - i,
{
    if i >= TAB_COUNT || i < 0 {
        None
    } else if tab_start(start, right, i) <= px < tab_hit_end(start, right, i) {
        Some(i as usize)
    } else {
        first_tab_hit(start, right, px, i + 1)
    }
}


/// Width of the title of tab `i`.
fn title_width(i: usize) -> (w: u16)
    requires
        i < TAB_COUNT,
    ensures
        w == tab_title_width(i as int),
{
    if i == 0 {
        7
    } else if i == 1 {
        9
    } else if i == 2 {
        5
    } else if i == 3 {
        8
    } else if i == 4 {
        5
    } else {
        6
    }
}

/// The tab under a cell of the tab bar.
pub fn tab_index_at(tab_bar: Rect, position: Position) -> (r: Option<usize>)
    ensures
        r == spec_tab_index_at(tab_bar, position),
{
    let content = inset_rect(tab_bar, 1, 1);
    if !content.contains(position) {
        return None;
    }
    let right = content.right();
    let ghost start = content.x as int;
    let ghost px = position.x as int;
    let mut cursor = content.x;
    let mut index: usize = 0;
    while index < TAB_COUNT
        invariant
            index <= TAB_COUNT,
            content == spec_inset(tab_bar, 1, 1),
            content.spec_contains(position),
            start == content.x,
            px == position.x,
            right == content.spec_right(),
            content.x <= right,
            index < TAB_COUNT ==> cursor == tab_start(start, right as int, index as int),
            cursor <= right,
            first_tab_hit(start, right as int, px, 0) == first_tab_hit(
                start,
                right as int,
                px,
                index as int,
            ),
        decreases TAB_COUNT - index,
    {
        let room = u16_sat_sub(right, cursor);
        let wide = 2 + title_width(index);
        let width = if wide < room {
            wide
        } else {
            room
        };
        let item_end = u16_sat_add(cursor, width);
        assert(item_end == tab_item_end(start, right as int, index as int));
        let hit_end = if index + 1 < TAB_COUNT {
            let next = u16_sat_add(item_end, 1);
            let divider_end = if next < right {
                next
            } else {
                right
            };
            assert(divider_end == tab_divider_end(start, right as int, index as int));
            divider_end
        } else {
            item_end
        };
        assert(hit_end == tab_hit_end(start, right as int, index as int));
        if position.x >= cursor && position.x < hit_end {
            assert(first_tab_hit(start, right as int, px, index as int) == Some(index));
            return Some(index);
        }
        assert(first_tab_hit(start, right as int, px, index as int) == first_tab_hit(
            start,
            right as int,
            px,
            index + 1,
        ));
        assert(tab_start(start, right as int, index + 1) == tab_divider_end(
            start,
            right as int,
            index as int,
        ));
        cursor = hit_end;
        index = index + 1;
    }
    None
}

// ---------------------------------------------------------------------------------------------
// Mouse events
// ---------------------------------------------------------------------------------------------

/// The kinds of mouse events the interface reacts to.
#[derive(Debug, Clone, Copy, PartialEq, Eq)]
pub enum MouseKind {
    LeftDown,
    LeftDrag,
    OtherDown,
    OtherDrag,
    Up,
    ScrollUp,
    ScrollDown,
    ScrollLeft,
    ScrollRight,
    Moved,
}

/// Where the parts of the interface are on screen.
#[derive(Debug, Clone, Copy, PartialEq, Eq)]
pub struct AppLayout {
    pub torrents_section: Rect,
    pub torrent_rows: Rect,
    pub tabs_section: Rect,
    pub tab_bar: Rect,
}

/// The selection after clicking torrent row `row` when `count` torrents are listed (when
/// known): the row is selected if it holds a torrent.
pub open spec fn torrent_click(s: TUIStateView, row: Option<usize>, count: Option<usize>) -> (TUIStateView, bool) {
    match (row, count) {
        (Some(j), Some(c)) if j < c => {
            let max = (c - 1) as nat;
            (TUIStateView {
                max_torrent_index: max,
                torrent_index: if j < max { j as nat } else { max },
                ..s
            }, true)
        },
        _ => (s, false),
    }
}

/// The selection after a tab-index change to `i`.
pub open spec fn with_tab(s: TUIStateView, i: nat) -> TUIStateView {
    TUIStateView { selected_tab_index: i, tab: tab_for_index(i), ..s }
}

/// The next tab, cycling.
pub open spec fn next_tab(s: TUIStateView) -> TUIStateView {
    with_tab(s, if s.selected_tab_index == s.max_tab_index { 0 } else { s.selected_tab_index + 1 })
}

/// The previous tab, cycling.
pub open spec fn previous_tab(s: TUIStateView) -> TUIStateView {
    with_tab(
        s,
        if s.selected_tab_index == 0 { s.max_tab_index } else { (s.selected_tab_index - 1) as nat },
    )
}

/// The next torrent, if any.
pub open spec fn next_torrent(s: TUIStateView) -> TUIStateView {
    TUIStateView {
        torrent_index: if s.torrent_index < s.max_torrent_index { s.torrent_index + 1 } else { s.torrent_index },
        ..s
    }
}

/// The previous torrent, if any.
pub open spec fn previous_torrent(s: TUIStateView) -> TUIStateView {
    TUIStateView {
        torrent_index: if s.torrent_index > 0 { (s.torrent_index - 1) as nat } else { 0 },
        ..s
    }
}

/// The mouse position after an event at `p`: the button is down after a left click or drag
/// and up after a release.
pub open spec fn with_mouse(s: TUIStateView, kind: MouseKind, p: Position) -> TUIStateView {
    TUIStateView {
        mouse_x: p.x,
        mouse_y: p.y,
        mouse_event: match kind {
            MouseKind::LeftDown | MouseKind::LeftDrag => MouseEv::Clicked,
            MouseKind::Up => MouseEv::NotClicked,
            _ => s.mouse_event,
        },
        ..s
    }
}

/// The state after a mouse event: the mouse position recorded (`with_mouse`), then the
/// selection changed (`mouse_selection`).
pub open spec fn after_mouse(
    s: TUIStateView,
    kind: MouseKind,
    p: Position,
    layout: AppLayout,
    count: Option<usize>,
) -> TUIStateView {
    mouse_selection(with_mouse(s, kind, p), kind, p, layout, count)
}

/// The selection after a mouse event: a left click selects the tab under it, or else the
/// torrent row under it; dragging selects torrent rows; scrolling moves the torrent selection
/// over the torrents section and the tab selection over the tab bar, and sideways scrolling
/// moves the tab selection over the tabs section.
pub open spec fn mouse_selection(
    s: TUIStateView,
    kind: MouseKind,
    p: Position,
    layout: AppLayout,
    count: Option<usize>,
) -> TUIStateView {
    match kind {
        MouseKind::LeftDown => match spec_tab_index_at(layout.tab_bar, p) {
            Some(i) => with_tab(s, i as nat),
            None => torrent_click(s, row_at(layout.torrent_rows, p), count).0,
        },
        MouseKind::LeftDrag => torrent_click(s, row_at(layout.torrent_rows, p), count).0,
        MouseKind::ScrollUp => if layout.torrents_section.spec_contains(p) {
            previous_torrent(s)
        } else if layout.tab_bar.spec_contains(p) {
            previous_tab(s)
        } else {
            s
        },
        MouseKind::ScrollDown => if layout.torrents_section.spec_contains(p) {
            next_torrent(s)
        } else if layout.tab_bar.spec_contains(p) {
            next_tab(s)
        } else {
            s
        },
        MouseKind::ScrollLeft => if layout.tabs_section.spec_contains(p) {
            previous_tab(s)
        } else {
            s
        },
        MouseKind::ScrollRight => if layout.tabs_section.spec_contains(p) {
            next_tab(s)
        } else {
            s
        },
        _ => s,
    }
}

/// The torrent row under a cell.
pub open spec fn row_at(rows: Rect, p: Position) -> Option<usize> {
    if rows.spec_contains(p) {
        Some((p.y - rows.y) as usize)
    } else {
        None
    }
}

impl TUIState {
    /// Selects the tab under a cell of the tab bar, if any.
    pub fn select_tab_at(&mut self, tab_bar: Rect, position: Position) -> (hit: bool)
        requires
            old(self).wf(),
        ensures
            final(self).wf(),
            match spec_tab_index_at(tab_bar, position) {
                Some(i) => hit && final(self)@ == with_tab(old(self)@, i as nat),
                None => !hit && final(self)@ == old(self)@,
            },
    {
        match tab_index_at(tab_bar, position) {
            Some(i) => {
                self.set_tab_index(i);
                true
            },
            None => false,
        }
    }

    /// Selects the torrent row under a cell, if it holds one of the `torrent_count` torrents.
    pub fn select_torrent_at(&mut self, torrent_rows: Rect, position: Position, torrent_count: Option<usize>) -> (hit: bool)
        requires
            old(self).wf(),
        ensures
            final(self).wf(),
            (final(self)@, hit) == torrent_click(old(self)@, row_at(torrent_rows, position), torrent_count),
    {
        let row = match torrent_index_at(torrent_rows, position) {
            Some(r) => r,
            None => {
                return false;
            },
        };
        let count = match torrent_count {
            Some(c) => c,
            None => {
                return false;
            },
        };
        if row >= count {
            return false;
        }
        self.set_max_torrent_index(count - 1);
        self.set_torrent_index(row);
        true
    }

    /// A left click: selects the tab under the cell, or else the torrent row under it.
    fn click(&mut self, layout: AppLayout, position: Position, torrent_count: Option<usize>)
        requires
            old(self).wf(),
        ensures
            final(self).wf(),
            final(self)@ == mouse_selection(old(self)@, MouseKind::LeftDown, position, layout, torrent_count),
    {
        if !self.select_tab_at(layout.tab_bar, position) {
            self.select_torrent_at(layout.torrent_rows, position, torrent_count);
        }
    }

    /// Records where a mouse event happened and whether the left button is down after it.
    fn record_mouse(&mut self, kind: MouseKind, position: Position)
        requires
            old(self).wf(),
        ensures
            final(self).wf(),
            final(self)@ == with_mouse(old(self)@, kind, position),
    {
        self.mouse_x = position.x;
        self.mouse_y = position.y;
        match kind {
            MouseKind::LeftDown | MouseKind::LeftDrag => {
                self.mouse_event = MouseEv::Clicked;
            },
            MouseKind::Up => {
                self.mouse_event = MouseEv::NotClicked;
            },
            _ => {},
        }
    }

    /// Reacts to a mouse event at `position`, given where things are on screen and how many
    /// torrents are listed (when known).
    pub fn handle_mouse(&mut self, kind: MouseKind, position: Position, layout: AppLayout, torrent_count: Option<usize>)
        requires
            old(self).wf(),
            old(self)@.selected_tab_index == old(self)@.max_tab_index
                || old(self)@.selected_tab_index < usize::MAX,
        ensures
            final(self).wf(),
            final(self)@ == after_mouse(old(self)@, kind, position, layout, torrent_count),
    {
        self.record_mouse(kind, position);
        match kind {
            MouseKind::LeftDown => {
                self.click(layout, position, torrent_count);
            },
            MouseKind::LeftDrag => {
                self.select_torrent_at(layout.torrent_rows, position, torrent_count);
            },
            MouseKind::ScrollUp => {
                if layout.torrents_section.contains(position) {
                    self.decrement_torrent_index();
                } else if layout.tab_bar.contains(position) {
                    self.decrement_tab_index();
                }
            },
            MouseKind::ScrollDown => {
                if layout.torrents_section.contains(position) {
                    self.increment_torrent_index();
                } else if layout.tab_bar.contains(position) {
                    self.increment_tab_index();
                }
            },
            MouseKind::ScrollLeft => {
                if layout.tabs_section.contains(position) {
                    self.decrement_tab_index();
                }
            },
            MouseKind::ScrollRight => {
                if layout.tabs_section.contains(position) {
                    self.increment_tab_index();
                }
            },
            _ => {},
        }
    }
}
} // verus!
