use grin_terminal::tabs::{ClosedTabs, TabStrip, CLOSED_TAB_LIMIT};

fn strip(names: &[&str]) -> TabStrip<String> {
    let mut strip = TabStrip::new();
    for name in names {
        strip.push(name.to_string());
    }
    strip
}

fn order(strip: &TabStrip<String>) -> Vec<String> {
    strip.tabs().to_vec()
}

#[test]
fn pinning_moves_a_tab_to_the_front_and_unpinning_after_the_pinned() {
    let mut tabs = strip(&["a", "b", "c"]);
    assert_eq!(tabs.active_index(), 2);
    tabs.toggle_active_pin();
    assert_eq!(order(&tabs), ["c", "a", "b"]);
    assert_eq!(tabs.active_index(), 0);
    assert!(tabs.is_pinned(0));
    tabs.switch_to(2);
    tabs.toggle_active_pin();
    assert_eq!(order(&tabs), ["b", "c", "a"]);
    tabs.toggle_active_pin();
    assert_eq!(order(&tabs), ["c", "b", "a"]);
    assert_eq!(tabs.active_index(), 1);
}

#[test]
fn tabs_move_only_within_their_group() {
    let mut tabs = strip(&["a", "b", "c"]);
    tabs.switch_to(0);
    tabs.toggle_active_pin();
    tabs.switch_to(1);
    assert!(!tabs.move_active(-1));
    assert!(tabs.move_active(1));
    assert_eq!(order(&tabs), ["a", "c", "b"]);
    assert_eq!(tabs.active_index(), 2);
    assert!(!tabs.move_active(1));
}

#[test]
fn closing_keeps_the_active_tab_or_its_neighbour() {
    let mut tabs = strip(&["a", "b", "c"]);
    tabs.switch_to(1);
    assert_eq!(tabs.close_at(0), Some("a".to_string()));
    assert_eq!(tabs.active_index(), 0);
    assert_eq!(tabs.close_at(1), Some("c".to_string()));
    assert_eq!(tabs.active_index(), 0);
    assert_eq!(tabs.close_at(0), None);
    assert_eq!(tabs.len(), 1);
}

#[test]
fn pinned_tabs_need_a_second_close_request() {
    let mut tabs = strip(&["a", "b"]);
    tabs.switch_to(0);
    tabs.toggle_active_pin();
    assert!(!tabs.confirm_pinned_close(0));
    assert_eq!(tabs.pending_pinned_close(), Some(0));
    assert!(tabs.confirm_pinned_close(0));
    assert_eq!(tabs.pending_pinned_close(), None);
    assert!(tabs.confirm_pinned_close(1));
}

#[test]
fn restored_tabs_rejoin_their_group() {
    let mut tabs = strip(&["a", "b"]);
    tabs.restore("p".to_string(), true);
    assert_eq!(order(&tabs), ["p", "a", "b"]);
    tabs.restore("q".to_string(), false);
    assert_eq!(order(&tabs), ["p", "a", "b", "q"]);
    assert_eq!(tabs.active_index(), 3);
}

#[test]
fn closed_tab_history_keeps_the_newest_twenty() {
    let mut closed = ClosedTabs::new();
    for index in 0..25 {
        closed.push(index);
    }
    assert_eq!(closed.len(), CLOSED_TAB_LIMIT);
    assert_eq!(closed.pop(), Some(24));
    assert_eq!(closed.len(), CLOSED_TAB_LIMIT - 1);
}
