use grin_terminal::action::Action;
use grin_terminal::palette::{CommandPaletteState, VISIBLE_ROWS};

#[test]
fn selection_and_scroll_are_clamped_to_matches() {
    let mut palette = CommandPaletteState::default();
    palette.move_selection(100);
    assert!(palette.selected < palette.matches().len());
    assert!(palette.selected < palette.scroll_offset + VISIBLE_ROWS);
    palette.scroll(100);
    assert!(palette.scroll_offset <= palette.matches().len().saturating_sub(VISIBLE_ROWS));
    palette.edit(Some("no matching command"), false);
    assert_eq!(palette.selected, 0);
    assert_eq!(palette.scroll_offset, 0);
    assert_eq!(palette.selected_action(), None);
}

#[test]
fn moving_the_selection_scrolls_it_into_view() {
    let mut palette = CommandPaletteState::default();
    palette.move_selection(10);
    assert_eq!(palette.selected, 10);
    assert_eq!(palette.scroll_offset, 2);
    palette.move_selection(-100);
    assert_eq!(palette.selected, 0);
    assert_eq!(palette.scroll_offset, 0);
    assert_eq!(palette.selected_action(), Some(Action::NewTab));
}

#[test]
fn editing_the_query_backspaces_and_appends() {
    let mut palette = CommandPaletteState::default();
    palette.edit(Some("sea"), false);
    palette.edit(Some("rchx"), false);
    palette.edit(None, true);
    assert_eq!(palette.query, "search");
    assert_eq!(palette.selected_action(), Some(Action::Search));
    palette.edit(None, true);
    assert_eq!(palette.query, "searc");
}

#[test]
fn scrolling_keeps_selection_visible() {
    let mut palette = CommandPaletteState::default();
    palette.scroll(5);
    assert_eq!(palette.scroll_offset, 5);
    assert_eq!(palette.selected, 5);
    palette.scroll(-1);
    assert_eq!(palette.scroll_offset, 4);
    assert_eq!(palette.selected, 5);
}
