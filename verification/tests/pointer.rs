use grin_terminal::layout::{PaneId, SplitAxis};
use grin_terminal::pointer::{
    pointer_step, PaneCell, PendingSelection, PointerEffect, PointerEvent, PointerState, PointerTarget,
};
use grin_terminal::session::TabSession;
use grin_terminal::tabs::TabStrip;

fn strip(count: u64) -> TabStrip<TabSession<u64>> {
    let mut strip = TabStrip::new();
    for id in 1..=count {
        strip.push(TabSession::new(format!("tab {id}"), PaneId(id), id));
    }
    strip
}

fn titles(strip: &TabStrip<TabSession<u64>>) -> Vec<String> {
    strip.tabs().iter().map(|tab| tab.title.clone()).collect()
}

fn cell(pane: u64, row: usize, column: usize, last_row: Option<usize>) -> PaneCell {
    PaneCell { pane: PaneId(pane), row, column, rows: 10, columns: 20, last_row, has_selection: false, link: None }
}

fn press(target: PointerTarget) -> PointerEvent {
    PointerEvent::Press { target, shift: false, alt: false, shortcut: false, clicks: 1 }
}

#[test]
fn tab_close_button_asks_before_closing_a_pinned_tab() {
    let mut tabs = strip(2);
    tabs.toggle_active_pin();
    let mut state = PointerState::new();
    let effect = pointer_step(&mut state, &mut tabs, press(PointerTarget::TabClose(0)));
    assert!(matches!(effect, PointerEffect::AwaitingConfirmation));
    let effect = pointer_step(&mut state, &mut tabs, press(PointerTarget::TabClose(0)));
    assert!(matches!(effect, PointerEffect::TabClosed(_)));
    assert_eq!(titles(&tabs), vec!["tab 1".to_string()]);
    let effect = pointer_step(&mut state, &mut tabs, press(PointerTarget::TabClose(0)));
    assert!(matches!(effect, PointerEffect::Nothing));
    assert_eq!(tabs.len(), 1);
}

#[test]
fn dragged_tab_moves_only_within_its_group() {
    let mut tabs = strip(3);
    tabs.switch_to(2);
    tabs.toggle_active_pin();
    assert_eq!(titles(&tabs), vec!["tab 3".to_string(), "tab 1".to_string(), "tab 2".to_string()]);
    let mut state = PointerState::new();
    pointer_step(&mut state, &mut tabs, press(PointerTarget::Tab(1)));
    assert_eq!(tabs.active_index(), 1);
    pointer_step(&mut state, &mut tabs, PointerEvent::Move { tab: Some(0), cell: None, past_threshold: true });
    assert_eq!(titles(&tabs), vec!["tab 3".to_string(), "tab 1".to_string(), "tab 2".to_string()]);
    pointer_step(&mut state, &mut tabs, PointerEvent::Move { tab: Some(2), cell: None, past_threshold: true });
    assert_eq!(titles(&tabs), vec!["tab 3".to_string(), "tab 2".to_string(), "tab 1".to_string()]);
    assert_eq!(tabs.active_index(), 2);
    assert!(matches!(pointer_step(&mut state, &mut tabs, PointerEvent::Release), PointerEffect::PersistLayout));
    assert_eq!(state, PointerState::new());
}

#[test]
fn press_below_the_last_row_clears_the_selection() {
    let mut tabs = strip(1);
    let mut state = PointerState::new();
    let effect = pointer_step(&mut state, &mut tabs, press(PointerTarget::Pane(cell(1, 7, 3, Some(4)))));
    assert!(matches!(effect, PointerEffect::ClearSelection(PaneId(1))));
    assert_eq!(state.pending, None);
    let shifted = PointerEvent::Press {
        target: PointerTarget::Pane(cell(1, 7, 3, Some(4))),
        shift: true,
        alt: false,
        shortcut: false,
        clicks: 1,
    };
    assert!(matches!(pointer_step(&mut state, &mut tabs, shifted), PointerEffect::Nothing));
}

#[test]
fn drag_begins_a_selection_clamped_to_screen_and_content() {
    let mut tabs = strip(1);
    tabs.tab_mut(0).insert_split_at(PaneId(1), PaneId(2), 2, SplitAxis::Vertical).unwrap();
    let mut state = PointerState::new();
    let effect = pointer_step(&mut state, &mut tabs, press(PointerTarget::Pane(cell(1, 2, 30, Some(6)))));
    assert!(matches!(effect, PointerEffect::ClearSelection(PaneId(1))));
    assert_eq!(tabs.tab(0).focused_pane, PaneId(1));
    let pending = PendingSelection { pane: PaneId(1), row: 2, column: 19, rectangular: false };
    assert_eq!(state.pending, Some(pending));
    let small = PointerEvent::Move { tab: None, cell: Some(cell(1, 3, 4, Some(6))), past_threshold: false };
    assert!(matches!(pointer_step(&mut state, &mut tabs, small), PointerEffect::Nothing));
    let far = PointerEvent::Move { tab: None, cell: Some(cell(1, 50, 4, Some(6))), past_threshold: true };
    match pointer_step(&mut state, &mut tabs, far) {
        PointerEffect::BeginSelection { pane, from, row, column } => {
            assert_eq!((pane, from, row, column), (PaneId(1), pending, 6, 4));
        }
        _ => panic!("a selection should begin"),
    }
    assert_eq!(state.selecting, Some(PaneId(1)));
    let again = PointerEvent::Move { tab: None, cell: Some(cell(1, 1, 99, Some(6))), past_threshold: true };
    assert!(matches!(
        pointer_step(&mut state, &mut tabs, again),
        PointerEffect::UpdateSelection { pane: PaneId(1), row: 1, column: 19 }
    ));
    assert!(matches!(pointer_step(&mut state, &mut tabs, PointerEvent::Release), PointerEffect::Nothing));
}

#[test]
fn shift_click_extends_and_shortcut_click_opens_links() {
    let mut tabs = strip(1);
    let mut state = PointerState::new();
    let mut selected = cell(1, 3, 5, Some(8));
    selected.has_selection = true;
    let shifted = PointerEvent::Press {
        target: PointerTarget::Pane(selected),
        shift: true,
        alt: false,
        shortcut: false,
        clicks: 1,
    };
    assert!(matches!(
        pointer_step(&mut state, &mut tabs, shifted),
        PointerEffect::ExtendSelection { pane: PaneId(1), row: 3, column: 5 }
    ));
    let mut linked = cell(1, 2, 2, Some(8));
    linked.link = Some("https://example.com".to_string());
    let shortcut = PointerEvent::Press {
        target: PointerTarget::Pane(linked),
        shift: false,
        alt: false,
        shortcut: true,
        clicks: 1,
    };
    match pointer_step(&mut state, &mut tabs, shortcut) {
        PointerEffect::OpenLink(link) => assert_eq!(link, "https://example.com"),
        _ => panic!("the link should open"),
    }
    let double = PointerEvent::Press {
        target: PointerTarget::Pane(cell(1, 2, 2, Some(8))),
        shift: false,
        alt: false,
        shortcut: false,
        clicks: 2,
    };
    assert!(matches!(
        pointer_step(&mut state, &mut tabs, double),
        PointerEffect::SelectWord { pane: PaneId(1), row: 2, column: 2 }
    ));
}

#[test]
fn new_tab_button_and_split_border() {
    let mut tabs = strip(1);
    let mut state = PointerState::new();
    assert!(matches!(pointer_step(&mut state, &mut tabs, press(PointerTarget::NewTabButton)), PointerEffect::OpenTab));
    pointer_step(&mut state, &mut tabs, press(PointerTarget::SplitBorder));
    assert!(state.resizing_split);
    let moved = PointerEvent::Move { tab: None, cell: None, past_threshold: true };
    assert!(matches!(pointer_step(&mut state, &mut tabs, moved), PointerEffect::ResizeSplit));
    state.split_resize_changed = true;
    assert!(matches!(pointer_step(&mut state, &mut tabs, PointerEvent::Release), PointerEffect::PersistLayout));
}

#[test]
fn pressing_another_tab_ends_a_selection_drag() {
    let mut tabs = strip(2);
    let mut state = PointerState::new();
    state.selecting = Some(PaneId(2));
    pointer_step(&mut state, &mut tabs, press(PointerTarget::Tab(1)));
    assert_eq!(state.selecting, Some(PaneId(2)));
    pointer_step(&mut state, &mut tabs, PointerEvent::Release);
    state.selecting = Some(PaneId(2));
    pointer_step(&mut state, &mut tabs, press(PointerTarget::Tab(0)));
    assert_eq!(state.selecting, None);
    assert_eq!(state.dragging_tab, Some(0));
}
