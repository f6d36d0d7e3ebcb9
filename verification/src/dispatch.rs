use vstd::prelude::*;

use crate::action::{tab_index_of, Action};
use crate::layout::{Direction, PaneId, SplitAxis, close_tree};
use crate::pointer::PointerState;
use crate::session::TabSession;
use crate::tabs::{pinned_count, TabStrip, TabStripView};

verus! {

/// The theme an action asks for.
#[derive(Clone, Copy, Debug, PartialEq, Eq, Structural)]
pub enum ThemeChoice {
    Dark,
    Light,
}

/// What is left to do after an action has been applied to a window's tabs: the work that
/// needs a shell, the clipboard, the screen geometry or the event loop.
pub enum DispatchEffect<P> {
    /// Nothing more.
    Nothing,
    /// A pinned tab was asked to close; a second request closes it.
    AwaitingConfirmation,
    /// The focused pane of the active tab was closed.
    PaneClosed(PaneId),
    /// The tab was closed and leaves the window; it can be kept for reopening.
    TabClosed(TabSession<P>),
    /// The window's last tab was asked to close: the window ends.
    Exit,
    /// Open a tab in the focused pane's directory.
    OpenTab,
    /// Open a copy of the active tab.
    DuplicateTab,
    /// Reopen the tab closed last.
    RestoreTab,
    /// Split the focused pane.
    Split(SplitAxis),
    /// Move focus to the neighbouring pane.
    Focus(Direction),
    /// Swap the focused pane with its neighbour.
    Swap(Direction),
    /// Move the focused pane's border.
    Resize(Direction),
    /// Start renaming the active tab.
    Rename,
    /// Copy the selection.
    Copy,
    /// Paste the clipboard.
    Paste,
    /// Start a search in the focused pane.
    Search,
    /// Switch the theme.
    Theme(ThemeChoice),
    /// Show or hide the command palette.
    TogglePalette,
}

/// The strip with the tab at `index` made active, when it exists and is not already active.
pub open spec fn switched<T>(strip: TabStripView<T>, index: int) -> TabStripView<T> {
    if 0 <= index < strip.tabs.len() && index != strip.active {
        TabStripView { active: index as usize, pending_pinned_close: None, ..strip }
    } else {
        strip
    }
}

/// Asking to close the tab at `index`: the strip after the request, and whether the tab may
/// close now. A pinned tab closes only on a second request in a row.
pub open spec fn close_request<T>(strip: TabStripView<T>, index: int) -> (TabStripView<T>, bool) {
    let pinned = index < strip.tabs.len() && strip.pinned[index];
    if !pinned || strip.pending_pinned_close == Some(index as usize) {
        (TabStripView { pending_pinned_close: None, ..strip }, true)
    } else {
        (TabStripView { pending_pinned_close: Some(index as usize), ..strip }, false)
    }
}

/// The strip without the tab at `index`, and that tab; `None` when it is the only tab.
pub open spec fn without_tab<T>(strip: TabStripView<T>, index: int) -> Option<(TabStripView<T>, T)> {
    if strip.tabs.len() <= 1 || index >= strip.tabs.len() {
        None
    } else {
        Some(
            (
                TabStripView {
                    tabs: strip.tabs.remove(index),
                    pinned: strip.pinned.remove(index),
                    active: (if strip.active > index {
                        strip.active - 1
                    } else if strip.active < strip.tabs.len() - 1 {
                        strip.active as int
                    } else {
                        strip.tabs.len() - 2
                    }) as usize,
                    pending_pinned_close: None,
                },
                strip.tabs[index],
            ),
        )
    }
}

/// The strip with the active tab moved one place by `direction` within its group.
pub open spec fn moved<T>(strip: TabStripView<T>, direction: int) -> TabStripView<T> {
    let current = strip.active as int;
    let target = current + direction;
    if strip.tabs.len() >= 2 && 0 <= target < strip.tabs.len() && strip.pinned[current] == strip.pinned[target] {
        TabStripView {
            tabs: strip.tabs.update(current, strip.tabs[target]).update(target, strip.tabs[current]),
            active: target as usize,
            pending_pinned_close: None,
            ..strip
        }
    } else {
        strip
    }
}

/// The strip with the active tab pinned to the front, or unpinned to just after the pinned
/// tabs.
pub open spec fn pin_toggled<T>(strip: TabStripView<T>) -> TabStripView<T> {
    if strip.tabs.len() == 0 {
        strip
    } else {
        let index = strip.active as int;
        let now_pinned = !strip.pinned[index];
        let rest = strip.pinned.remove(index);
        let place: int = if now_pinned { 0 } else { pinned_count(rest) as int };
        TabStripView {
            tabs: strip.tabs.remove(index).insert(place, strip.tabs[index]),
            pinned: rest.insert(place, now_pinned),
            active: place as usize,
            pending_pinned_close: None,
        }
    }
}

/// `after` is `before` with its focused pane `closed`: the pane's leaf leaves the tree, focus
/// goes where closing the leaf says, and a zoom on it ends.
pub open spec fn focused_pane_closed<P>(before: TabSession<P>, after: TabSession<P>, closed: PaneId) -> bool {
    &&& closed == before.focused_pane
    &&& close_tree(before.root, before.focused_pane) matches Some((tree, next))
    &&& after.root == tree
    &&& after.focused_pane == next
    &&& after.panes@ == before.panes@.remove(before.focused_index())
    &&& after.zoomed_pane == (if before.zoomed_pane == Some(before.focused_pane) {
        None
    } else {
        before.zoomed_pane
    })
    &&& after.title == before.title
    &&& after.custom_title == before.custom_title
    &&& after.pinned == before.pinned
}

/// `after` is `before` with the zoom toggled on its focused pane.
pub open spec fn zoom_toggled<P>(before: TabSession<P>, after: TabSession<P>) -> bool {
    &&& after.zoomed_pane == (if before.zoomed_pane == Some(before.focused_pane) {
        None
    } else {
        Some(before.focused_pane)
    })
    &&& after.title == before.title
    &&& after.root == before.root
    &&& after.focused_pane == before.focused_pane
    &&& after.panes@ == before.panes@
    &&& after.custom_title == before.custom_title
    &&& after.pinned == before.pinned
}

/// The active tab changed to `tab` and nothing else.
pub open spec fn with_active_tab<P>(strip: TabStripView<TabSession<P>>, tab: TabSession<P>) -> TabStripView<TabSession<P>> {
    TabStripView { tabs: strip.tabs.update(strip.active as int, tab), ..strip }
}

/// Closing the active tab after the close request was granted: the tab leaves the strip, or
/// the window ends when it is the last.
pub open spec fn tab_close_granted<P>(
    asked: TabStripView<TabSession<P>>,
    after: TabStripView<TabSession<P>>,
    effect: DispatchEffect<P>,
) -> bool {
    match without_tab(asked, asked.active as int) {
        Some((remaining, tab)) => after == remaining && effect == DispatchEffect::TabClosed(tab),
        None => after == asked && effect is Exit,
    }
}

/// Closing the active tab: through the pinned confirmation, then out of the strip.
pub open spec fn tab_closed<P>(
    before: TabStripView<TabSession<P>>,
    after: TabStripView<TabSession<P>>,
    effect: DispatchEffect<P>,
) -> bool {
    let (asked, granted) = close_request(before, before.active as int);
    if granted {
        tab_close_granted(asked, after, effect)
    } else {
        after == asked && effect is AwaitingConfirmation
    }
}

/// The focused pane of the active tab closed, when the tab has another pane.
pub open spec fn pane_closed<P>(
    before: TabStripView<TabSession<P>>,
    after: TabStripView<TabSession<P>>,
    effect: DispatchEffect<P>,
) -> bool {
    let tab = before.tabs[before.active as int];
    if tab.panes@.len() > 1 {
        effect matches DispatchEffect::PaneClosed(closed) && after == with_active_tab(before, after.tabs[before.active as int])
            && focused_pane_closed(tab, after.tabs[before.active as int], closed)
    } else {
        after == before && effect is Nothing
    }
}

/// The request to close: the focused pane of the active tab when the tab has another, else
/// the tab itself.
pub open spec fn closed_for_close<P>(
    before: TabStripView<TabSession<P>>,
    after: TabStripView<TabSession<P>>,
    effect: DispatchEffect<P>,
) -> bool {
    let tab = before.tabs[before.active as int];
    if tab.panes@.len() > 1 {
        effect matches DispatchEffect::PaneClosed(closed) && after == (TabStripView {
            pending_pinned_close: None,
            ..with_active_tab(before, after.tabs[before.active as int])
        }) && focused_pane_closed(tab, after.tabs[before.active as int], closed)
    } else {
        tab_closed(before, after, effect)
    }
}

/// The pointer gesture after the strip switches to the tab at `index`: a switch to another
/// tab that exists ends a selection drag.
pub open spec fn pointer_after_switch<T>(pointer: PointerState, strip: TabStripView<T>, index: int) -> PointerState {
    if 0 <= index < strip.tabs.len() && index != strip.active {
        PointerState { selecting: None, ..pointer }
    } else {
        pointer
    }
}

/// The pointer gesture after `action`: only the actions that switch tabs touch it.
pub open spec fn pointer_after_action<T>(pointer: PointerState, strip: TabStripView<T>, action: Action) -> PointerState {
    match tab_index_of(action) {
        Some(index) => pointer_after_switch(pointer, strip, index as int),
        None => match action {
            Action::NextTab => pointer_after_switch(pointer, strip, (strip.active + 1) % (strip.tabs.len() as int)),
            Action::PreviousTab => pointer_after_switch(
                pointer,
                strip,
                (strip.active + strip.tabs.len() - 1) % (strip.tabs.len() as int),
            ),
            _ => pointer,
        },
    }
}

/// What an action does to a window's tabs, and what it leaves to do (`effect`).
pub open spec fn dispatched<P>(
    before: TabStripView<TabSession<P>>,
    action: Action,
    after: TabStripView<TabSession<P>>,
    effect: DispatchEffect<P>,
) -> bool {
    match tab_index_of(action) {
        Some(index) => after == switched(before, index as int) && effect is Nothing,
        None => match action {
            Action::Close => closed_for_close(before, after, effect),
            Action::CloseTab => tab_closed(before, after, effect),
            Action::NextTab => after == switched(before, (before.active + 1) % (before.tabs.len() as int))
                && effect is Nothing,
            Action::PreviousTab => after == switched(
                before,
                (before.active + before.tabs.len() - 1) % (before.tabs.len() as int),
            ) && effect is Nothing,
            Action::MoveTabLeft => after == moved(before, -1) && effect is Nothing,
            Action::MoveTabRight => after == moved(before, 1) && effect is Nothing,
            Action::TogglePinTab => after == pin_toggled(before) && effect is Nothing,
            Action::ClosePane => pane_closed(before, after, effect),
            Action::TogglePaneZoom => effect is Nothing && after == with_active_tab(
                before,
                after.tabs[before.active as int],
            ) && zoom_toggled(before.tabs[before.active as int], after.tabs[before.active as int]),
            Action::NewTab => after == before && effect is OpenTab,
            Action::DuplicateTab => after == before && effect is DuplicateTab,
            Action::RestoreTab => after == before && effect is RestoreTab,
            Action::RenameTab => after == before && effect is Rename,
            Action::SplitHorizontal => after == before && effect == DispatchEffect::<P>::Split(
                SplitAxis::Horizontal,
            ),
            Action::SplitVertical => after == before && effect == DispatchEffect::<P>::Split(SplitAxis::Vertical),
            Action::FocusLeft => after == before && effect == DispatchEffect::<P>::Focus(Direction::Left),
            Action::FocusRight => after == before && effect == DispatchEffect::<P>::Focus(Direction::Right),
            Action::FocusUp => after == before && effect == DispatchEffect::<P>::Focus(Direction::Up),
            Action::FocusDown => after == before && effect == DispatchEffect::<P>::Focus(Direction::Down),
            Action::SwapPaneLeft => after == before && effect == DispatchEffect::<P>::Swap(Direction::Left),
            Action::SwapPaneRight => after == before && effect == DispatchEffect::<P>::Swap(Direction::Right),
            Action::SwapPaneUp => after == before && effect == DispatchEffect::<P>::Swap(Direction::Up),
            Action::SwapPaneDown => after == before && effect == DispatchEffect::<P>::Swap(Direction::Down),
            Action::ResizeLeft => after == before && effect == DispatchEffect::<P>::Resize(Direction::Left),
            Action::ResizeRight => after == before && effect == DispatchEffect::<P>::Resize(Direction::Right),
            Action::ResizeUp => after == before && effect == DispatchEffect::<P>::Resize(Direction::Up),
            Action::ResizeDown => after == before && effect == DispatchEffect::<P>::Resize(Direction::Down),
            Action::Copy => after == before && effect is Copy,
            Action::Paste => after == before && effect is Paste,
            Action::Search => after == before && effect is Search,
            Action::ThemeDark => after == before && effect == DispatchEffect::<P>::Theme(ThemeChoice::Dark),
            Action::ThemeLight => after == before && effect == DispatchEffect::<P>::Theme(ThemeChoice::Light),
            Action::ToggleCommandPalette => after == before && effect is TogglePalette,
            _ => false,
        },
    }
}

/// Every tab of the strip is sound.
pub open spec fn tabs_wf<P>(strip: TabStripView<TabSession<P>>) -> bool {
    forall|i: int| 0 <= i < strip.tabs.len() ==> (#[trigger] strip.tabs[i]).wf()
}

fn close_active_tab<P>(strip: &mut TabStrip<TabSession<P>>) -> (effect: DispatchEffect<P>)
    requires
        old(strip)@.wf(),
        old(strip)@.tabs.len() > 0,
        tabs_wf(old(strip)@),
    ensures
        final(strip)@.wf(),
        final(strip)@.tabs.len() > 0,
        tabs_wf(final(strip)@),
        tab_closed(old(strip)@, final(strip)@, effect),
{
    let index = strip.active_index();
    if !strip.confirm_pinned_close(index) {
        return DispatchEffect::AwaitingConfirmation;
    }
    let ghost asked = strip@;
    match strip.close_at(index) {
        Some(tab) => {
            proof {
                assert forall|i: int| 0 <= i < strip@.tabs.len() implies (#[trigger] strip@.tabs[i]).wf() by {
                    if i < index {
                        assert(strip@.tabs[i] == asked.tabs[i]);
                    } else {
                        assert(strip@.tabs[i] == asked.tabs[i + 1]);
                    }
                }
            }
            DispatchEffect::TabClosed(tab)
        },
        None => DispatchEffect::Exit,
    }
}

fn close_focused_or_tab<P>(strip: &mut TabStrip<TabSession<P>>) -> (effect: DispatchEffect<P>)
    requires
        old(strip)@.wf(),
        old(strip)@.tabs.len() > 0,
        tabs_wf(old(strip)@),
    ensures
        final(strip)@.wf(),
        final(strip)@.tabs.len() > 0,
        tabs_wf(final(strip)@),
        closed_for_close(old(strip)@, final(strip)@, effect),
{
    let active = strip.active_index();
            let ghost before = strip@;
            let closing = strip.tab(active).panes.len() > 1;
            if closing {
                let tab = strip.tab_mut(active);
                let closed = tab.close_focused_pane();
                let ghost after_tab = strip@.tabs[active as int];
                strip.clear_pending_close();
                proof {
                    assert(tabs_wf(strip@)) by {
                        assert forall|i: int| 0 <= i < strip@.tabs.len() implies (#[trigger] strip@.tabs[i]).wf() by {
                            if i != active {
                                assert(strip@.tabs[i] == before.tabs[i]);
                            }
                        }
                    }
                }
                proof {
                    assert(closed is Some);
                    assert(strip@.tabs[active as int] == after_tab);
                    assert(focused_pane_closed(before.tabs[active as int], after_tab, closed.unwrap()));
                    assert(strip@ == TabStripView {
                        pending_pinned_close: None,
                        ..with_active_tab(before, after_tab)
                    });
                    assert(closed_for_close(before, strip@, DispatchEffect::PaneClosed(closed.unwrap())));
                }
                match closed {
                    Some(id) => DispatchEffect::PaneClosed(id),
                    None => DispatchEffect::Nothing,
                }
            } else {
                let effect = close_active_tab(strip);
                proof {
                    assert(!(before.tabs[before.active as int].panes@.len() > 1));
                    assert(tab_closed(before, strip@, effect));
                    assert(closed_for_close(before, strip@, effect));
                }
                effect
            }
}

fn close_focused_pane<P>(strip: &mut TabStrip<TabSession<P>>) -> (effect: DispatchEffect<P>)
    requires
        old(strip)@.wf(),
        old(strip)@.tabs.len() > 0,
        tabs_wf(old(strip)@),
    ensures
        final(strip)@.wf(),
        final(strip)@.tabs.len() > 0,
        tabs_wf(final(strip)@),
        pane_closed(old(strip)@, final(strip)@, effect),
{
    let active = strip.active_index();
    let ghost before = strip@;
    if strip.tab(active).panes.len() <= 1 {
        return DispatchEffect::Nothing;
    }
    let tab = strip.tab_mut(active);
    let closed = tab.close_focused_pane();
    let ghost after_tab = strip@.tabs[active as int];
    proof {
        assert forall|i: int| 0 <= i < strip@.tabs.len() implies (#[trigger] strip@.tabs[i]).wf() by {
            if i != active {
                assert(strip@.tabs[i] == before.tabs[i]);
            }
        }
        assert(closed is Some);
        assert(strip@ == with_active_tab(before, after_tab));
    }
    match closed {
        Some(id) => DispatchEffect::PaneClosed(id),
        None => DispatchEffect::Nothing,
    }
}

/// Applies `action` to a window's tabs and says what is left to do: selecting a tab that
/// exists, cycling through the tabs, closing (the focused pane first when the tab has more
/// than one, then the tab through the pinned confirmation, and the window with its last tab),
/// moving and pinning tabs and zooming panes happen here; the rest is handed back as an
/// effect. A switch to another tab ends a selection drag under way in `pointer`.
pub fn dispatch<P>(strip: &mut TabStrip<TabSession<P>>, pointer: &mut PointerState, action: Action) -> (effect: DispatchEffect<P>)
    requires
        old(strip)@.wf(),
        old(strip)@.tabs.len() > 0,
        tabs_wf(old(strip)@),
    ensures
        final(strip)@.wf(),
        final(strip)@.tabs.len() > 0,
        tabs_wf(final(strip)@),
        dispatched(old(strip)@, action, final(strip)@, effect),
        *final(pointer) == pointer_after_action(*old(pointer), old(strip)@, action),
{
    if let Some(index) = action.tab_index() {
        if strip.switch_to(index) {
            pointer.selecting = None;
        }
        return DispatchEffect::Nothing;
    }
    let active = strip.active_index();
    match action {
        Action::Close => close_focused_or_tab(strip),
        Action::CloseTab => close_active_tab(strip),
        Action::NextTab => {
            let count = strip.len();
            if strip.switch_to((active + 1) % count) {
                pointer.selecting = None;
            }
            DispatchEffect::Nothing
        },
        Action::PreviousTab => {
            let count = strip.len();
            let previous = if active == 0 { count - 1 } else { active - 1 };
            proof {
                assert((active + count - 1) % (count as int) == previous) by (nonlinear_arith)
                    requires
                        active < count,
                        previous == (if active == 0 { count - 1 } else { active - 1 }),
                ;
            }
            if strip.switch_to(previous) {
                pointer.selecting = None;
            }
            DispatchEffect::Nothing
        },
        Action::MoveTabLeft => {
            let ghost before = strip@;
            strip.move_active(-1);
            proof {
                assert forall|i: int| 0 <= i < strip@.tabs.len() implies (#[trigger] strip@.tabs[i]).wf() by {
                    if i != before.active && i != before.active - 1 {
                        assert(strip@.tabs[i] == before.tabs[i]);
                    }
                }
            }
            DispatchEffect::Nothing
        },
        Action::MoveTabRight => {
            let ghost before = strip@;
            strip.move_active(1);
            proof {
                assert forall|i: int| 0 <= i < strip@.tabs.len() implies (#[trigger] strip@.tabs[i]).wf() by {
                    if i != before.active && i != before.active + 1 {
                        assert(strip@.tabs[i] == before.tabs[i]);
                    }
                }
            }
            DispatchEffect::Nothing
        },
        Action::TogglePinTab => {
            let ghost before = strip@;
            strip.toggle_active_pin();
            proof {
                let index = before.active as int;
                let now_pinned = !before.pinned[index];
                let rest = before.pinned.remove(index);
                let place: int = if now_pinned { 0 } else { pinned_count(rest) as int };
                let removed = before.tabs.remove(index);
                before.tabs.remove_ensures(index);
                crate::tabs::lemma_pinned_count_bound(rest);
                removed.insert_ensures(place, before.tabs[index]);
                assert forall|i: int| 0 <= i < strip@.tabs.len() implies (#[trigger] strip@.tabs[i]).wf() by {
                    if i < place {
                        assert(strip@.tabs[i] == removed[i]);
                        if i < index {
                            assert(removed[i] == before.tabs[i]);
                        } else {
                            assert(removed[i] == before.tabs[i + 1]);
                        }
                    } else if i > place {
                        assert(strip@.tabs[i] == removed[i - 1]);
                        if i - 1 < index {
                            assert(removed[i - 1] == before.tabs[i - 1]);
                        } else {
                            assert(removed[i - 1] == before.tabs[i]);
                        }
                    }
                }
            }
            DispatchEffect::Nothing
        },
        Action::ClosePane => close_focused_pane(strip),
        Action::TogglePaneZoom => {
            let ghost before = strip@;
            let tab = strip.tab_mut(active);
            tab.toggle_zoom();
            proof {
                assert forall|i: int| 0 <= i < strip@.tabs.len() implies (#[trigger] strip@.tabs[i]).wf() by {
                    if i != active {
                        assert(strip@.tabs[i] == before.tabs[i]);
                    }
                }
            }
            DispatchEffect::Nothing
        },
        Action::NewTab => DispatchEffect::OpenTab,
        Action::DuplicateTab => DispatchEffect::DuplicateTab,
        Action::RestoreTab => DispatchEffect::RestoreTab,
        Action::RenameTab => DispatchEffect::Rename,
        Action::SplitHorizontal => DispatchEffect::Split(SplitAxis::Horizontal),
        Action::SplitVertical => DispatchEffect::Split(SplitAxis::Vertical),
        Action::FocusLeft => DispatchEffect::Focus(Direction::Left),
        Action::FocusRight => DispatchEffect::Focus(Direction::Right),
        Action::FocusUp => DispatchEffect::Focus(Direction::Up),
        Action::FocusDown => DispatchEffect::Focus(Direction::Down),
        Action::SwapPaneLeft => DispatchEffect::Swap(Direction::Left),
        Action::SwapPaneRight => DispatchEffect::Swap(Direction::Right),
        Action::SwapPaneUp => DispatchEffect::Swap(Direction::Up),
        Action::SwapPaneDown => DispatchEffect::Swap(Direction::Down),
        Action::ResizeLeft => DispatchEffect::Resize(Direction::Left),
        Action::ResizeRight => DispatchEffect::Resize(Direction::Right),
        Action::ResizeUp => DispatchEffect::Resize(Direction::Up),
        Action::ResizeDown => DispatchEffect::Resize(Direction::Down),
        Action::Copy => DispatchEffect::Copy,
        Action::Paste => DispatchEffect::Paste,
        Action::Search => DispatchEffect::Search,
        Action::ThemeDark => DispatchEffect::Theme(ThemeChoice::Dark),
        Action::ThemeLight => DispatchEffect::Theme(ThemeChoice::Light),
        Action::ToggleCommandPalette => DispatchEffect::TogglePalette,
        Action::SelectTab1 | Action::SelectTab2 | Action::SelectTab3 | Action::SelectTab4
        | Action::SelectTab5 | Action::SelectTab6 | Action::SelectTab7 | Action::SelectTab8
        | Action::SelectTab9 => DispatchEffect::Nothing,
    }
}

} // verus!
