use grin_terminal::layout::{PaneId, PaneTree, SplitAxis};
use grin_terminal::workspace::{
    format_for_version, migrate_single_window, workspace_format, PaneState, TabState, WindowState, Workspace,
    WorkspaceFormat, WORKSPACE_VERSION,
};

fn pane(id: u64, directory: &str) -> PaneState {
    PaneState { id: PaneId(id), working_directory: directory.to_string() }
}

fn tab(root: PaneTree, focused: u64, zoomed: Option<u64>, panes: Vec<PaneState>) -> TabState {
    TabState {
        title: "tab".to_string(),
        root,
        focused_pane: PaneId(focused),
        zoomed_pane: zoomed.map(PaneId),
        panes,
        pinned: false,
    }
}

#[test]
fn sanitize_repairs_windows_tabs_and_panes() {
    let mut root = PaneTree::leaf(PaneId(1));
    root.split(PaneId(1), PaneId(2), SplitAxis::Vertical);
    let mut workspace = Workspace {
        version: WORKSPACE_VERSION,
        theme: "dark".to_string(),
        windows: vec![
            WindowState { window_width: 10, window_height: 9000, active_tab: 0, tabs: vec![] },
            WindowState {
                window_width: 10,
                window_height: 9000,
                active_tab: 7,
                tabs: vec![tab(
                    root,
                    9,
                    Some(8),
                    vec![pane(1, "/kept"), pane(2, "/gone"), pane(5, "/kept")],
                )],
            },
        ],
    };
    workspace.sanitize(&vec!["/kept".to_string()], "/home");
    assert_eq!(workspace.windows.len(), 1);
    let window = &workspace.windows[0];
    assert_eq!((window.window_width, window.window_height), (320, 4320));
    assert_eq!(window.active_tab, 0);
    let tab = &window.tabs[0];
    assert_eq!(tab.focused_pane, PaneId(1));
    assert_eq!(tab.zoomed_pane, None);
    assert_eq!(tab.panes, vec![pane(1, "/kept"), pane(2, "/home")]);
}

#[test]
fn sanitize_keeps_a_consistent_workspace() {
    let mut workspace = Workspace {
        version: WORKSPACE_VERSION,
        theme: "light".to_string(),
        windows: vec![WindowState {
            window_width: 960,
            window_height: 600,
            active_tab: 0,
            tabs: vec![tab(PaneTree::leaf(PaneId(3)), 3, Some(3), vec![pane(3, "/a")])],
        }],
    };
    workspace.sanitize(&vec!["/a".to_string()], "/home");
    assert_eq!(workspace.windows[0].tabs[0].zoomed_pane, Some(PaneId(3)));
    assert_eq!(workspace.windows[0].tabs[0].panes, vec![pane(3, "/a")]);
    assert_eq!(workspace.windows[0].window_width, 960);
    assert_eq!(workspace.theme, "light");
}

#[test]
fn version_selects_the_workspace_format() {
    assert_eq!(format_for_version(None), WorkspaceFormat::MissingVersion);
    assert_eq!(format_for_version(Some(-1)), WorkspaceFormat::MissingVersion);
    assert_eq!(format_for_version(Some(1)), WorkspaceFormat::SingleWindow);
    assert_eq!(format_for_version(Some(2)), WorkspaceFormat::Current);
    assert_eq!(format_for_version(Some(0)), WorkspaceFormat::Unsupported(0));
    assert_eq!(format_for_version(Some(7)), WorkspaceFormat::Unsupported(7));
    assert_eq!(format_for_version(Some(4_294_967_297)), WorkspaceFormat::SingleWindow);
}

#[test]
fn workspace_text_is_classified_by_its_version_entry() {
    assert_eq!(workspace_format("version = 2\ntheme = \"dark\"\n"), WorkspaceFormat::Current);
    assert_eq!(workspace_format("version = 1\n"), WorkspaceFormat::SingleWindow);
    assert_eq!(workspace_format("version = 9\n"), WorkspaceFormat::Unsupported(9));
    assert_eq!(workspace_format("version = \"2\"\n"), WorkspaceFormat::MissingVersion);
    assert_eq!(workspace_format("theme = \"dark\"\n"), WorkspaceFormat::MissingVersion);
    assert_eq!(workspace_format("not toml ["), WorkspaceFormat::MissingVersion);
}

#[test]
fn single_window_workspace_becomes_one_window() {
    let tabs = vec![tab(PaneTree::leaf(PaneId(1)), 1, None, vec![pane(1, "/tmp")])];
    let workspace = migrate_single_window("light".to_string(), 800, 600, 0, tabs);
    assert_eq!(workspace.version, WORKSPACE_VERSION);
    assert_eq!(workspace.theme, "light");
    assert_eq!(workspace.windows.len(), 1);
    assert_eq!(workspace.windows[0].window_width, 800);
    assert_eq!(workspace.windows[0].window_height, 600);
    assert_eq!(workspace.windows[0].active_tab, 0);
    assert_eq!(workspace.windows[0].tabs, vec![tab(PaneTree::leaf(PaneId(1)), 1, None, vec![pane(1, "/tmp")])]);
}
