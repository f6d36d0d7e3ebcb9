use vstd::prelude::*;

use crate::dispatch::{close_request, tabs_wf, without_tab};
use crate::layout::{tree_contains, PaneId};
use crate::session::TabSession;
use crate::tabs::{TabStrip, TabStripView};

verus! {

/// A press on a pane that may become a selection once the pointer moves far enough.
#[derive(Clone, Copy, Debug, PartialEq, Eq, Structural)]
pub struct PendingSelection {
    pub pane: PaneId,
    pub row: usize,
    pub column: usize,
    pub rectangular: bool,
}

/// What the left button is doing: a selection under way, a press that may start one, a tab
/// being dragged, a split border being moved, and whether a drag changed the layout.
#[derive(Clone, Copy, Debug, PartialEq, Eq, Structural)]
pub struct PointerState {
    pub selecting: Option<PaneId>,
    pub pending: Option<PendingSelection>,
    pub dragging_tab: Option<usize>,
    pub resizing_split: bool,
    pub tab_drag_changed: bool,
    pub split_resize_changed: bool,
}

impl PointerState {
    /// No gesture under way.
    pub fn new() -> (state: PointerState)
        ensures
            state == idle_pointer(),
    {
        PointerState {
            selecting: None,
            pending: None,
            dragging_tab: None,
            resizing_split: false,
            tab_drag_changed: false,
            split_resize_changed: false,
        }
    }
}

pub open spec fn idle_pointer() -> PointerState {
    PointerState {
        selecting: None,
        pending: None,
        dragging_tab: None,
        resizing_split: false,
        tab_drag_changed: false,
        split_resize_changed: false,
    }
}

/// The cell of a pane under the pointer, with what the pane's screen says about it.
#[derive(Clone, Debug)]
pub struct PaneCell {
    pub pane: PaneId,
    pub row: usize,
    pub column: usize,
    /// The screen's size.
    pub rows: usize,
    pub columns: usize,
    /// The last row that holds prompt or output, if any.
    pub last_row: Option<usize>,
    /// Whether the screen has a selection.
    pub has_selection: bool,
    /// The hyperlink of the cell, if any.
    pub link: Option<String>,
}

/// What a press lands on.
#[derive(Clone, Debug)]
pub enum PointerTarget {
    NewTabButton,
    TabClose(usize),
    Tab(usize),
    SplitBorder,
    Pane(PaneCell),
    Outside,
}

/// A left-button event, its positions already turned into tabs and cells.
#[derive(Clone, Debug)]
pub enum PointerEvent {
    /// The button went down on `target`; `clicks` counts quick presses in one place.
    Press { target: PointerTarget, shift: bool, alt: bool, shortcut: bool, clicks: u8 },
    /// The pointer moved: the tab under it, its cell in the pane of the gesture under way, and
    /// whether it went far enough from the press to start a selection.
    Move { tab: Option<usize>, cell: Option<PaneCell>, past_threshold: bool },
    /// The button went up.
    Release,
}

/// What is left to do after a pointer event.
pub enum PointerEffect<P> {
    Nothing,
    /// Open a tab.
    OpenTab,
    /// The tab closed.
    TabClosed(TabSession<P>),
    /// A pinned tab was asked to close; a second request closes it.
    AwaitingConfirmation,
    /// A split border is being moved: follow the pointer.
    ResizeSplit,
    /// A drag changed the layout: save the workspace.
    PersistLayout,
    ClearSelection(PaneId),
    /// Move the end of the pane's selection to the cell.
    ExtendSelection { pane: PaneId, row: usize, column: usize },
    SelectLine { pane: PaneId, row: usize },
    SelectWord { pane: PaneId, row: usize, column: usize },
    /// Start a selection at the press and take it to the cell.
    BeginSelection { pane: PaneId, from: PendingSelection, row: usize, column: usize },
    /// Take the pane's selection to the cell.
    UpdateSelection { pane: PaneId, row: usize, column: usize },
    OpenLink(String),
}

pub open spec fn min_usize(a: usize, b: usize) -> usize {
    if a < b {
        a
    } else {
        b
    }
}

/// The strip with the tab at `source` dragged to `target` within its group.
pub open spec fn dragged<T>(strip: TabStripView<T>, source: int, target: int) -> TabStripView<T> {
    if 0 <= source < strip.tabs.len() && 0 <= target < strip.tabs.len() && source != target
        && strip.pinned[source] == strip.pinned[target] {
        TabStripView {
            tabs: strip.tabs.remove(source).insert(target, strip.tabs[source]),
            pinned: strip.pinned.remove(source).insert(target, strip.pinned[source]),
            active: target as usize,
            pending_pinned_close: None,
        }
    } else {
        strip
    }
}

/// The strip with the pane focused in the active tab.
pub open spec fn pane_focused<P>(strip: TabStripView<TabSession<P>>, pane: PaneId) -> TabStripView<TabSession<P>> {
    TabStripView {
        tabs: strip.tabs.update(
            strip.active as int,
            TabSession { focused_pane: pane, ..strip.tabs[strip.active as int] },
        ),
        ..strip
    }
}

/// A press on a pane: it takes focus; below the last row with content the selection goes
/// (kept with Shift); with the shortcut modifier a link opens; Shift with a selection extends
/// it; three and two clicks select a line and a word; one click clears the selection and
/// waits to see whether a drag follows.
pub open spec fn pane_pressed(
    state: PointerState,
    cell: PaneCell,
    shift: bool,
    alt: bool,
    shortcut: bool,
    clicks: u8,
) -> (PointerState, PointerEffect<()>) {
    let row = min_usize(cell.row, (cell.rows - 1) as usize);
    let column = min_usize(cell.column, (cell.columns - 1) as usize);
    let calm = PointerState { selecting: None, pending: None, ..state };
    match cell.last_row {
        None => (calm, PointerEffect::ClearSelection(cell.pane)),
        Some(last_row) => if row > last_row {
            (calm, if shift { PointerEffect::Nothing } else { PointerEffect::ClearSelection(cell.pane) })
        } else if shortcut {
            (
                PointerState { pending: None, ..state },
                match cell.link {
                    Some(link) => PointerEffect::OpenLink(link),
                    None => PointerEffect::Nothing,
                },
            )
        } else if shift && cell.has_selection {
            (calm, PointerEffect::ExtendSelection { pane: cell.pane, row: min_usize(row, last_row), column })
        } else if clicks == 3 {
            (calm, PointerEffect::SelectLine { pane: cell.pane, row })
        } else if clicks == 2 {
            (calm, PointerEffect::SelectWord { pane: cell.pane, row, column })
        } else {
            (
                PointerState {
                    selecting: None,
                    pending: Some(PendingSelection { pane: cell.pane, row, column, rectangular: alt }),
                    ..state
                },
                PointerEffect::ClearSelection(cell.pane),
            )
        },
    }
}

/// The same effect for a window whose tabs hold panes of type `P`.
pub open spec fn retyped<P>(effect: PointerEffect<()>) -> PointerEffect<P> {
    match effect {
        PointerEffect::Nothing => PointerEffect::Nothing,
        PointerEffect::ClearSelection(pane) => PointerEffect::ClearSelection(pane),
        PointerEffect::ExtendSelection { pane, row, column } => PointerEffect::ExtendSelection { pane, row, column },
        PointerEffect::SelectLine { pane, row } => PointerEffect::SelectLine { pane, row },
        PointerEffect::SelectWord { pane, row, column } => PointerEffect::SelectWord { pane, row, column },
        PointerEffect::OpenLink(link) => PointerEffect::OpenLink(link),
        _ => PointerEffect::Nothing,
    }
}

/// A press: on the new-tab button a tab opens; on a tab's close button the tab closes
/// through the pinned confirmation (never the last tab); on a tab it becomes active and may be
/// dragged, and a switch to another tab ends a selection drag; on a split border the border follows the pointer; on a pane see `pane_pressed`.
pub open spec fn pressed<P>(
    state: PointerState,
    strip: TabStripView<TabSession<P>>,
    target: PointerTarget,
    shift: bool,
    alt: bool,
    shortcut: bool,
    clicks: u8,
) -> (PointerState, TabStripView<TabSession<P>>, PointerEffect<P>) {
    match target {
        PointerTarget::NewTabButton => (state, strip, PointerEffect::OpenTab),
        PointerTarget::TabClose(index) => {
            let calm = PointerState { dragging_tab: None, ..state };
            let (asked, granted) = close_request(strip, index as int);
            if !granted {
                (calm, asked, PointerEffect::AwaitingConfirmation)
            } else {
                match without_tab(asked, index as int) {
                    Some((remaining, tab)) => (calm, remaining, PointerEffect::TabClosed(tab)),
                    None => (calm, asked, PointerEffect::Nothing),
                }
            }
        },
        PointerTarget::Tab(index) => (
            PointerState {
                dragging_tab: Some(index),
                tab_drag_changed: false,
                ..crate::dispatch::pointer_after_switch(state, strip, index as int)
            },
            crate::dispatch::switched(strip, index as int),
            PointerEffect::Nothing,
        ),
        PointerTarget::SplitBorder => (
            PointerState {
                resizing_split: true,
                split_resize_changed: false,
                dragging_tab: None,
                selecting: None,
                pending: None,
                ..state
            },
            strip,
            PointerEffect::Nothing,
        ),
        PointerTarget::Pane(cell) => {
            let (next, effect) = pane_pressed(state, cell, shift, alt, shortcut, clicks);
            (next, pane_focused(strip, cell.pane), retyped(effect))
        },
        PointerTarget::Outside => (state, strip, PointerEffect::Nothing),
    }
}

/// A move: a moving border follows the pointer; a dragged tab moves to the tab under the
/// pointer within its group; a press that went far enough starts a selection, clamped to the
/// screen and to the last row with content; a selection under way follows the pointer, clamped
/// the same way.
pub open spec fn moved_pointer<P>(
    state: PointerState,
    strip: TabStripView<TabSession<P>>,
    tab: Option<usize>,
    cell: Option<PaneCell>,
    past_threshold: bool,
) -> (PointerState, TabStripView<TabSession<P>>, PointerEffect<P>) {
    if state.resizing_split {
        (state, strip, PointerEffect::ResizeSplit)
    } else if state.dragging_tab is Some {
        let source = state.dragging_tab->0;
        match tab {
            Some(target) => if source < strip.tabs.len() && target < strip.tabs.len() && source != target
                && strip.pinned[source as int] == strip.pinned[target as int] {
                (
                    PointerState { dragging_tab: Some(target), tab_drag_changed: true, ..state },
                    dragged(strip, source as int, target as int),
                    PointerEffect::Nothing,
                )
            } else {
                (state, strip, PointerEffect::Nothing)
            },
            None => (state, strip, PointerEffect::Nothing),
        }
    } else if state.selecting is None && state.pending is Some {
        let pending = state.pending->0;
        if !past_threshold {
            (state, strip, PointerEffect::Nothing)
        } else {
            match cell {
                None => (PointerState { pending: None, ..state }, strip, PointerEffect::Nothing),
                Some(cell) => match cell.last_row {
                    None => (PointerState { pending: None, ..state }, strip, PointerEffect::Nothing),
                    Some(last_row) => (
                        PointerState { selecting: Some(pending.pane), pending: None, ..state },
                        strip,
                        PointerEffect::BeginSelection {
                            pane: pending.pane,
                            from: pending,
                            row: min_usize(min_usize(cell.row, (cell.rows - 1) as usize), last_row),
                            column: min_usize(cell.column, (cell.columns - 1) as usize),
                        },
                    ),
                },
            }
        }
    } else if state.selecting is Some {
        let pane = state.selecting->0;
        match cell {
            Some(cell) => match cell.last_row {
                Some(last_row) => (
                    state,
                    strip,
                    PointerEffect::UpdateSelection {
                        pane,
                        row: min_usize(min_usize(cell.row, (cell.rows - 1) as usize), last_row),
                        column: min_usize(cell.column, (cell.columns - 1) as usize),
                    },
                ),
                None => (state, strip, PointerEffect::Nothing),
            },
            None => (state, strip, PointerEffect::Nothing),
        }
    } else {
        (state, strip, PointerEffect::Nothing)
    }
}

/// What a pointer event does to the gesture, the window's tabs, and what it leaves to do.
pub open spec fn pointer_next<P>(
    state: PointerState,
    strip: TabStripView<TabSession<P>>,
    event: PointerEvent,
) -> (PointerState, TabStripView<TabSession<P>>, PointerEffect<P>) {
    match event {
        PointerEvent::Press { target, shift, alt, shortcut, clicks } => pressed(
            state,
            strip,
            target,
            shift,
            alt,
            shortcut,
            clicks,
        ),
        PointerEvent::Move { tab, cell, past_threshold } => moved_pointer(state, strip, tab, cell, past_threshold),
        PointerEvent::Release => (
            idle_pointer(),
            strip,
            if state.tab_drag_changed || state.split_resize_changed {
                PointerEffect::PersistLayout
            } else {
                PointerEffect::Nothing
            },
        ),
    }
}

/// The cell facts a screen gives are sound: the screen has a cell.
pub open spec fn cell_ok(cell: PaneCell) -> bool {
    cell.rows > 0 && cell.columns > 0
}

/// An event the window can take: its cells are of real screens, and a pressed pane belongs to
/// the active tab.
pub open spec fn event_ok<P>(strip: TabStripView<TabSession<P>>, event: PointerEvent) -> bool {
    match event {
        PointerEvent::Press { target, .. } => match target {
            PointerTarget::Pane(cell) => cell_ok(cell) && tree_contains(
                strip.tabs[strip.active as int].root,
                cell.pane,
            ),
            _ => true,
        },
        PointerEvent::Move { cell, .. } => match cell {
            Some(cell) => cell_ok(cell),
            None => true,
        },
        PointerEvent::Release => true,
    }
}

fn clamp_cell(cell: &PaneCell) -> (clamped: (usize, usize))
    requires
        cell_ok(*cell),
    ensures
        clamped == (min_usize(cell.row, (cell.rows - 1) as usize), min_usize(cell.column, (cell.columns - 1) as usize)),
{
    let row = if cell.row < cell.rows - 1 { cell.row } else { cell.rows - 1 };
    let column = if cell.column < cell.columns - 1 { cell.column } else { cell.columns - 1 };
    (row, column)
}

fn press_pane<P>(state: &mut PointerState, cell: PaneCell, shift: bool, alt: bool, shortcut: bool, clicks: u8) -> (effect: PointerEffect<P>)
    requires
        cell_ok(cell),
    ensures
        ({
            let (next, expected) = pane_pressed(*old(state), cell, shift, alt, shortcut, clicks);
            *final(state) == next && effect == retyped::<P>(expected)
        }),
{
    let (row, column) = clamp_cell(&cell);
    let pane = cell.pane;
    match cell.last_row {
        None => {
            state.selecting = None;
            state.pending = None;
            PointerEffect::ClearSelection(pane)
        },
        Some(last_row) => {
            if row > last_row {
                state.selecting = None;
                state.pending = None;
                if shift {
                    PointerEffect::Nothing
                } else {
                    PointerEffect::ClearSelection(pane)
                }
            } else if shortcut {
                state.pending = None;
                match cell.link {
                    Some(link) => PointerEffect::OpenLink(link),
                    None => PointerEffect::Nothing,
                }
            } else if shift && cell.has_selection {
                state.selecting = None;
                state.pending = None;
                let end = if row < last_row { row } else { last_row };
                PointerEffect::ExtendSelection { pane, row: end, column }
            } else if clicks == 3 {
                state.selecting = None;
                state.pending = None;
                PointerEffect::SelectLine { pane, row }
            } else if clicks == 2 {
                state.selecting = None;
                state.pending = None;
                PointerEffect::SelectWord { pane, row, column }
            } else {
                state.selecting = None;
                state.pending = Some(PendingSelection { pane, row, column, rectangular: alt });
                PointerEffect::ClearSelection(pane)
            }
        },
    }
}

/// Applies a left-button event to the gesture under way and to a window's tabs, and says what
/// is left to do; see `pointer_next`.
pub fn pointer_step<P>(state: &mut PointerState, strip: &mut TabStrip<TabSession<P>>, event: PointerEvent) -> (effect: PointerEffect<P>)
    requires
        old(strip)@.wf(),
        old(strip)@.tabs.len() > 0,
        tabs_wf(old(strip)@),
        event_ok(old(strip)@, event),
    ensures
        final(strip)@.wf(),
        final(strip)@.tabs.len() > 0,
        tabs_wf(final(strip)@),
        (*final(state), final(strip)@, effect) == pointer_next(*old(state), old(strip)@, event),
{
    let ghost before = strip@;
    match event {
        PointerEvent::Press { target, shift, alt, shortcut, clicks } => match target {
            PointerTarget::NewTabButton => PointerEffect::OpenTab,
            PointerTarget::TabClose(index) => {
                state.dragging_tab = None;
                if !strip.confirm_pinned_close(index) {
                    return PointerEffect::AwaitingConfirmation;
                }
                let ghost asked = strip@;
                match strip.close_at(index) {
                    Some(tab) => {
                        proof {
                            assert forall|i: int| 0 <= i < strip@.tabs.len() implies (#[trigger] strip@.tabs[i]).wf() by {
                                if i < index {
                                    assert(strip@.tabs[i] == asked.tabs[i]);
                                } else {
                                    assert(strip@.tabs[i] == asked.tabs[i + 1]);
                                }
                            }
                        }
                        PointerEffect::TabClosed(tab)
                    },
                    None => PointerEffect::Nothing,
                }
            },
            PointerTarget::Tab(index) => {
                if strip.switch_to(index) {
                    state.selecting = None;
                }
                state.dragging_tab = Some(index);
                state.tab_drag_changed = false;
                PointerEffect::Nothing
            },
            PointerTarget::SplitBorder => {
                state.resizing_split = true;
                state.split_resize_changed = false;
                state.dragging_tab = None;
                state.selecting = None;
                state.pending = None;
                PointerEffect::Nothing
            },
            PointerTarget::Pane(cell) => {
                let active = strip.active_index();
                let pane = cell.pane;
                let tab = strip.tab_mut(active);
                tab.focused_pane = pane;
                proof {
                    assert forall|i: int| 0 <= i < strip@.tabs.len() implies (#[trigger] strip@.tabs[i]).wf() by {
                        if i != active {
                            assert(strip@.tabs[i] == before.tabs[i]);
                        }
                    }
                    assert(strip@ == pane_focused(before, pane));
                }
                press_pane(state, cell, shift, alt, shortcut, clicks)
            },
            PointerTarget::Outside => PointerEffect::Nothing,
        },
        PointerEvent::Move { tab, cell, past_threshold } => {
            if state.resizing_split {
                return PointerEffect::ResizeSplit;
            }
            match state.dragging_tab {
                Some(source) => {
                    match tab {
                        Some(target) => {
                            let ghost start = strip@;
                            if strip.drag_to(source, target) {
                                proof {
                                    let rest = start.tabs.remove(source as int);
                                    start.tabs.remove_ensures(source as int);
                                    rest.insert_ensures(target as int, start.tabs[source as int]);
                                    assert forall|i: int| 0 <= i < strip@.tabs.len() implies (#[trigger] strip@.tabs[i]).wf() by {
                                        if i < target {
                                            assert(strip@.tabs[i] == rest[i]);
                                            if i < source {
                                                assert(rest[i] == start.tabs[i]);
                                            } else {
                                                assert(rest[i] == start.tabs[i + 1]);
                                            }
                                        } else if i > target {
                                            assert(strip@.tabs[i] == rest[i - 1]);
                                            if i - 1 < source {
                                                assert(rest[i - 1] == start.tabs[i - 1]);
                                            } else {
                                                assert(rest[i - 1] == start.tabs[i]);
                                            }
                                        }
                                    }
                                }
                                state.dragging_tab = Some(target);
                                state.tab_drag_changed = true;
                            }
                            PointerEffect::Nothing
                        },
                        None => PointerEffect::Nothing,
                    }
                },
                None => {
                    match (state.selecting, state.pending) {
                        (None, Some(pending)) => {
                            if !past_threshold {
                                return PointerEffect::Nothing;
                            }
                            match cell {
                                None => {
                                    state.pending = None;
                                    PointerEffect::Nothing
                                },
                                Some(cell) => match cell.last_row {
                                    None => {
                                        state.pending = None;
                                        PointerEffect::Nothing
                                    },
                                    Some(last_row) => {
                                        let (row, column) = clamp_cell(&cell);
                                        let row = if row < last_row { row } else { last_row };
                                        state.selecting = Some(pending.pane);
                                        state.pending = None;
                                        PointerEffect::BeginSelection { pane: pending.pane, from: pending, row, column }
                                    },
                                },
                            }
                        },
                        (Some(pane), _) => match cell {
                            Some(cell) => match cell.last_row {
                                Some(last_row) => {
                                    let (row, column) = clamp_cell(&cell);
                                    let row = if row < last_row { row } else { last_row };
                                    PointerEffect::UpdateSelection { pane, row, column }
                                },
                                None => PointerEffect::Nothing,
                            },
                            None => PointerEffect::Nothing,
                        },
                        (None, None) => PointerEffect::Nothing,
                    }
                },
            }
        },
        PointerEvent::Release => {
            let changed = state.tab_drag_changed || state.split_resize_changed;
            *state = PointerState::new();
            if changed {
                PointerEffect::PersistLayout
            } else {
                PointerEffect::Nothing
            }
        },
    }
}

} // verus!
