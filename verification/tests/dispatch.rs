use grin_terminal::action::Action;
use grin_terminal::dispatch::{dispatch, DispatchEffect, ThemeChoice};
use grin_terminal::layout::{Direction, PaneId, SplitAxis};
use grin_terminal::pointer::PointerState;
use grin_terminal::session::TabSession;
use grin_terminal::tabs::TabStrip;

fn strip(count: u64) -> TabStrip<TabSession<u64>> {
    let mut strip = TabStrip::new();
    for id in 1..=count {
        strip.push(TabSession::new(format!("tab {id}"), PaneId(id), id));
    }
    strip
}

fn titles(strip: &TabStrip<TabSession<u64>>) -> Vec<String> {
    strip.tabs().iter().map(|tab| tab.title.clone()).collect()
}

#[test]
fn select_tab_switches_only_to_existing_tabs() {
    let mut tabs = strip(3);
    assert!(matches!(dispatch(&mut tabs, &mut PointerState::new(), Action::SelectTab1), DispatchEffect::Nothing));
    assert_eq!(tabs.active_index(), 0);
    dispatch(&mut tabs, &mut PointerState::new(), Action::SelectTab9);
    assert_eq!(tabs.active_index(), 0);
    dispatch(&mut tabs, &mut PointerState::new(), Action::SelectTab3);
    assert_eq!(tabs.active_index(), 2);
}

#[test]
fn next_and_previous_tab_wrap_around() {
    let mut tabs = strip(3);
    dispatch(&mut tabs, &mut PointerState::new(), Action::NextTab);
    assert_eq!(tabs.active_index(), 0);
    dispatch(&mut tabs, &mut PointerState::new(), Action::PreviousTab);
    assert_eq!(tabs.active_index(), 2);
    dispatch(&mut tabs, &mut PointerState::new(), Action::NextTab);
    dispatch(&mut tabs, &mut PointerState::new(), Action::NextTab);
    assert_eq!(tabs.active_index(), 1);
}

#[test]
fn close_takes_the_focused_pane_before_the_tab() {
    let mut tabs = strip(2);
    tabs.tab_mut(1).insert_split_at(PaneId(2), PaneId(7), 7, SplitAxis::Vertical).unwrap();
    assert!(matches!(dispatch(&mut tabs, &mut PointerState::new(), Action::Close), DispatchEffect::PaneClosed(PaneId(7))));
    assert_eq!(tabs.len(), 2);
    assert_eq!(tabs.tab(1).focused_pane, PaneId(2));
    match dispatch(&mut tabs, &mut PointerState::new(), Action::Close) {
        DispatchEffect::TabClosed(tab) => assert_eq!(tab.title, "tab 2"),
        _ => panic!("the tab should close"),
    }
    assert_eq!(titles(&tabs), vec!["tab 1".to_string()]);
    assert!(matches!(dispatch(&mut tabs, &mut PointerState::new(), Action::Close), DispatchEffect::Exit));
    assert_eq!(tabs.len(), 1);
}

#[test]
fn pinned_tab_closes_on_the_second_request() {
    let mut tabs = strip(2);
    dispatch(&mut tabs, &mut PointerState::new(), Action::TogglePinTab);
    assert_eq!(titles(&tabs), vec!["tab 2".to_string(), "tab 1".to_string()]);
    assert_eq!(tabs.active_index(), 0);
    assert!(matches!(dispatch(&mut tabs, &mut PointerState::new(), Action::CloseTab), DispatchEffect::AwaitingConfirmation));
    assert_eq!(tabs.pending_pinned_close(), Some(0));
    assert!(matches!(dispatch(&mut tabs, &mut PointerState::new(), Action::CloseTab), DispatchEffect::TabClosed(_)));
    assert_eq!(titles(&tabs), vec!["tab 1".to_string()]);
}

#[test]
fn move_actions_keep_tabs_in_their_group() {
    let mut tabs = strip(3);
    dispatch(&mut tabs, &mut PointerState::new(), Action::MoveTabLeft);
    assert_eq!(titles(&tabs), vec!["tab 1".to_string(), "tab 3".to_string(), "tab 2".to_string()]);
    assert_eq!(tabs.active_index(), 1);
    dispatch(&mut tabs, &mut PointerState::new(), Action::TogglePinTab);
    assert_eq!(tabs.active_index(), 0);
    dispatch(&mut tabs, &mut PointerState::new(), Action::MoveTabRight);
    assert_eq!(tabs.active_index(), 0);
    assert_eq!(titles(&tabs), vec!["tab 3".to_string(), "tab 1".to_string(), "tab 2".to_string()]);
}

#[test]
fn close_pane_and_zoom_act_on_the_active_tab() {
    let mut tabs = strip(1);
    assert!(matches!(dispatch(&mut tabs, &mut PointerState::new(), Action::ClosePane), DispatchEffect::Nothing));
    dispatch(&mut tabs, &mut PointerState::new(), Action::TogglePaneZoom);
    assert_eq!(tabs.tab(0).zoomed_pane, Some(PaneId(1)));
    dispatch(&mut tabs, &mut PointerState::new(), Action::TogglePaneZoom);
    assert_eq!(tabs.tab(0).zoomed_pane, None);
}

#[test]
fn other_actions_are_handed_back() {
    let mut tabs = strip(1);
    assert!(matches!(dispatch(&mut tabs, &mut PointerState::new(), Action::NewTab), DispatchEffect::OpenTab));
    assert!(matches!(dispatch(&mut tabs, &mut PointerState::new(), Action::SplitVertical), DispatchEffect::Split(SplitAxis::Vertical)));
    assert!(matches!(dispatch(&mut tabs, &mut PointerState::new(), Action::FocusUp), DispatchEffect::Focus(Direction::Up)));
    assert!(matches!(dispatch(&mut tabs, &mut PointerState::new(), Action::ThemeLight), DispatchEffect::Theme(ThemeChoice::Light)));
    assert!(matches!(dispatch(&mut tabs, &mut PointerState::new(), Action::ToggleCommandPalette), DispatchEffect::TogglePalette));
    assert_eq!(tabs.len(), 1);
}

#[test]
fn switching_tabs_ends_a_selection_drag() {
    let mut tabs = strip(2);
    let mut pointer = PointerState::new();
    pointer.selecting = Some(PaneId(2));
    dispatch(&mut tabs, &mut pointer, Action::SelectTab2);
    assert_eq!(pointer.selecting, Some(PaneId(2)));
    dispatch(&mut tabs, &mut pointer, Action::SelectTab1);
    assert_eq!(pointer.selecting, None);
    pointer.selecting = Some(PaneId(1));
    dispatch(&mut tabs, &mut pointer, Action::TogglePaneZoom);
    assert_eq!(pointer.selecting, Some(PaneId(1)));
    dispatch(&mut tabs, &mut pointer, Action::NextTab);
    assert_eq!(pointer.selecting, None);
}
