use grin_terminal::layout::{PaneId, PaneTree, SplitAxis};
use grin_terminal::session::{directory_from_osc7, TabSession};

#[test]
fn decodes_osc7_directory_uri() {
    assert_eq!(
        directory_from_osc7("file://localhost/tmp/project%20one"),
        Some("/tmp/project one".to_string())
    );
    assert_eq!(directory_from_osc7("https://example.com/tmp"), None);
}

#[test]
fn osc7_needs_a_path_and_valid_escapes() {
    assert_eq!(directory_from_osc7("file://hostonly"), None);
    assert_eq!(directory_from_osc7("file://h/a%zzb"), None);
    assert_eq!(directory_from_osc7("file:///a%2Fb"), Some("/a/b".to_string()));
    assert_eq!(directory_from_osc7("file:///a%+5"), Some("/a\u{5}".to_string()));
    assert_eq!(directory_from_osc7("file:///end%4"), Some("/end%4".to_string()));
    assert_eq!(directory_from_osc7("file:///%ff"), None);
    assert_eq!(directory_from_osc7("file:///caf%C3%A9"), Some("/café".to_string()));
}

fn ids(tab: &TabSession<&'static str>) -> Vec<u64> {
    tab.panes.iter().map(|(id, _)| id.0).collect()
}

#[test]
fn new_tab_focuses_its_only_pane() {
    let tab = TabSession::new("shell".to_string(), PaneId(4), "four");
    assert_eq!(tab.title, "shell");
    assert_eq!(tab.root, PaneTree::leaf(PaneId(4)));
    assert_eq!(tab.focused_pane, PaneId(4));
    assert_eq!(tab.zoomed_pane, None);
    assert_eq!(*tab.focused(), "four");
    assert!(!tab.custom_title);
    assert!(!tab.pinned);
}

#[test]
fn splitting_focuses_the_new_pane_and_ends_zoom() {
    let mut tab = TabSession::new("t".to_string(), PaneId(1), "one");
    tab.toggle_zoom();
    assert_eq!(tab.zoomed_pane, Some(PaneId(1)));
    assert_eq!(tab.insert_split_at(PaneId(1), PaneId(2), "two", SplitAxis::Vertical), Ok(()));
    assert_eq!(tab.focused_pane, PaneId(2));
    assert_eq!(tab.zoomed_pane, None);
    assert_eq!(*tab.focused(), "two");
    assert_eq!(tab.root.panes(), vec![PaneId(1), PaneId(2)]);
    assert_eq!(ids(&tab), vec![1, 2]);
}

#[test]
fn splitting_a_missing_pane_hands_the_pane_back() {
    let mut tab = TabSession::new("t".to_string(), PaneId(1), "one");
    assert_eq!(tab.insert_split_at(PaneId(9), PaneId(2), "two", SplitAxis::Horizontal), Err("two"));
    assert_eq!(tab.root, PaneTree::leaf(PaneId(1)));
    assert_eq!(ids(&tab), vec![1]);
    assert_eq!(tab.focused_pane, PaneId(1));
}

#[test]
fn the_last_pane_is_not_closed() {
    let mut tab = TabSession::new("t".to_string(), PaneId(1), "one");
    assert_eq!(tab.close_focused_pane(), None);
    assert_eq!(ids(&tab), vec![1]);
}

#[test]
fn closing_focuses_the_sibling_and_ends_its_zoom() {
    let mut tab = TabSession::new("t".to_string(), PaneId(1), "one");
    tab.insert_split_at(PaneId(1), PaneId(2), "two", SplitAxis::Vertical).unwrap();
    tab.insert_split_at(PaneId(2), PaneId(3), "three", SplitAxis::Horizontal).unwrap();
    tab.toggle_zoom();
    assert_eq!(tab.zoomed_pane, Some(PaneId(3)));
    assert_eq!(tab.close_focused_pane(), Some(PaneId(3)));
    assert_eq!(tab.focused_pane, PaneId(2));
    assert_eq!(tab.zoomed_pane, None);
    assert_eq!(tab.root.panes(), vec![PaneId(1), PaneId(2)]);
    assert_eq!(ids(&tab), vec![1, 2]);
    assert_eq!(*tab.focused(), "two");
}

#[test]
fn zoom_toggles_on_the_focused_pane() {
    let mut tab = TabSession::new("t".to_string(), PaneId(1), "one");
    tab.toggle_zoom();
    assert_eq!(tab.zoomed_pane, Some(PaneId(1)));
    tab.toggle_zoom();
    assert_eq!(tab.zoomed_pane, None);
}

#[test]
fn focused_pane_can_be_changed_in_place() {
    let mut tab = TabSession::new("t".to_string(), PaneId(1), "one");
    tab.insert_split_at(PaneId(1), PaneId(2), "two", SplitAxis::Vertical).unwrap();
    *tab.focused_mut() = "changed";
    assert_eq!(tab.panes, vec![(PaneId(1), "one"), (PaneId(2), "changed")]);
}

#[test]
fn snapshot_lists_panes_by_id() {
    let mut tab = TabSession::new("work".to_string(), PaneId(7), "seven");
    tab.insert_split_at(PaneId(7), PaneId(3), "three", SplitAxis::Vertical).unwrap();
    tab.insert_split_at(PaneId(7), PaneId(5), "five", SplitAxis::Horizontal).unwrap();
    let directories = vec!["/seven".to_string(), "/three".to_string(), "/five".to_string()];
    let state = tab.snapshot(&directories);
    assert_eq!(state.title, "work");
    assert_eq!(state.focused_pane, PaneId(5));
    assert_eq!(state.root.panes(), vec![PaneId(7), PaneId(5), PaneId(3)]);
    let saved: Vec<(u64, &str)> = state.panes.iter().map(|pane| (pane.id.0, pane.working_directory.as_str())).collect();
    assert_eq!(saved, vec![(3, "/three"), (5, "/five"), (7, "/seven")]);
    assert!(!state.pinned);
}
