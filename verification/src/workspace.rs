use vstd::prelude::*;

use crate::layout::{first_pane, lemma_first_pane_is_first, tree_contains, PaneId, PaneTree};
use crate::text::{chars_of, str_equals, string_of};

verus! {

/// The version of the saved workspace format.
pub const WORKSPACE_VERSION: u32 = 2;

/// A pane of a saved tab and the directory its shell ran in.
#[derive(Debug, PartialEq)]
pub struct PaneState {
    pub id: PaneId,
    pub working_directory: String,
}

/// A saved tab.
#[derive(Debug, PartialEq)]
pub struct TabState {
    pub title: String,
    pub root: PaneTree,
    pub focused_pane: PaneId,
    pub zoomed_pane: Option<PaneId>,
    pub panes: Vec<PaneState>,
    pub pinned: bool,
}

/// A saved window.
#[derive(Debug, PartialEq)]
pub struct WindowState {
    pub window_width: u32,
    pub window_height: u32,
    pub active_tab: usize,
    pub tabs: Vec<TabState>,
}

/// A saved session: the theme and every window.
#[derive(Debug, PartialEq)]
pub struct Workspace {
    pub version: u32,
    pub theme: String,
    pub windows: Vec<WindowState>,
}

pub struct PaneStateView {
    pub id: PaneId,
    pub working_directory: Seq<char>,
}

pub struct TabStateView {
    pub title: Seq<char>,
    pub root: PaneTree,
    pub focused_pane: PaneId,
    pub zoomed_pane: Option<PaneId>,
    pub panes: Seq<PaneStateView>,
    pub pinned: bool,
}

pub struct WindowStateView {
    pub window_width: u32,
    pub window_height: u32,
    pub active_tab: usize,
    pub tabs: Seq<TabStateView>,
}

pub struct WorkspaceView {
    pub version: u32,
    pub theme: Seq<char>,
    pub windows: Seq<WindowStateView>,
}

impl View for PaneState {
    type V = PaneStateView;

    open spec fn view(&self) -> PaneStateView {
        PaneStateView { id: self.id, working_directory: self.working_directory@ }
    }
}

impl View for TabState {
    type V = TabStateView;

    open spec fn view(&self) -> TabStateView {
        TabStateView {
            title: self.title@,
            root: self.root,
            focused_pane: self.focused_pane,
            zoomed_pane: self.zoomed_pane,
            panes: self.panes@.map_values(|pane: PaneState| pane@),
            pinned: self.pinned,
        }
    }
}

impl View for WindowState {
    type V = WindowStateView;

    open spec fn view(&self) -> WindowStateView {
        WindowStateView {
            window_width: self.window_width,
            window_height: self.window_height,
            active_tab: self.active_tab,
            tabs: self.tabs@.map_values(|tab: TabState| tab@),
        }
    }
}

impl View for Workspace {
    type V = WorkspaceView;

    open spec fn view(&self) -> WorkspaceView {
        WorkspaceView {
            version: self.version,
            theme: self.theme@,
            windows: self.windows@.map_values(|window: WindowState| window@),
        }
    }
}

/// The panes a restored tab keeps: those its layout still holds, in order, each with its
/// directory replaced by `fallback` unless it is among `existing`.
pub open spec fn restored_panes(
    panes: Seq<PaneStateView>,
    root: PaneTree,
    existing: Seq<Seq<char>>,
    fallback: Seq<char>,
) -> Seq<PaneStateView>
    decreases panes.len(),
{
    if panes.len() == 0 {
        Seq::empty()
    } else {
        let kept = restored_panes(panes.drop_last(), root, existing, fallback);
        let pane = panes.last();
        if tree_contains(root, pane.id) {
            kept.push(
                PaneStateView {
                    working_directory: if existing.contains(pane.working_directory) {
                        pane.working_directory
                    } else {
                        fallback
                    },
                    ..pane
                },
            )
        } else {
            kept
        }
    }
}

/// A restored tab: panes as `restored_panes` keeps them, focus on the first pane of the layout
/// when the focused one is gone, and no zoom on a pane that is gone.
pub open spec fn restored_tab(tab: TabStateView, existing: Seq<Seq<char>>, fallback: Seq<char>) -> TabStateView {
    TabStateView {
        panes: restored_panes(tab.panes, tab.root, existing, fallback),
        focused_pane: if tree_contains(tab.root, tab.focused_pane) {
            tab.focused_pane
        } else {
            first_pane(tab.root)
        },
        zoomed_pane: match tab.zoomed_pane {
            Some(pane) => if tree_contains(tab.root, pane) {
                Some(pane)
            } else {
                None
            },
            None => None,
        },
        ..tab
    }
}

pub open spec fn clamp_u32(value: u32, low: u32, high: u32) -> u32 {
    if value < low {
        low
    } else if value > high {
        high
    } else {
        value
    }
}

/// A restored window: size within 320x180 to 7680x4320, active tab on an existing tab.
pub open spec fn restored_window(window: WindowStateView, existing: Seq<Seq<char>>, fallback: Seq<char>) -> WindowStateView {
    WindowStateView {
        window_width: clamp_u32(window.window_width, 320, 7680),
        window_height: clamp_u32(window.window_height, 180, 4320),
        active_tab: if window.active_tab < window.tabs.len() - 1 {
            window.active_tab
        } else {
            (window.tabs.len() - 1) as usize
        },
        tabs: window.tabs.map_values(|tab: TabStateView| restored_tab(tab, existing, fallback)),
    }
}

/// The windows kept on restore: those with a tab, each restored.
pub open spec fn restored_windows(
    windows: Seq<WindowStateView>,
    existing: Seq<Seq<char>>,
    fallback: Seq<char>,
) -> Seq<WindowStateView>
    decreases windows.len(),
{
    if windows.len() == 0 {
        Seq::empty()
    } else {
        let kept = restored_windows(windows.drop_last(), existing, fallback);
        if windows.last().tabs.len() > 0 {
            kept.push(restored_window(windows.last(), existing, fallback))
        } else {
            kept
        }
    }
}


/// A restored tab is consistent: its focus and zoom lie in its layout, and so does each of its
/// panes, whose directory is one of `existing` or `fallback`.
pub open spec fn tab_is_consistent(tab: TabStateView, existing: Seq<Seq<char>>, fallback: Seq<char>) -> bool {
    &&& tree_contains(tab.root, tab.focused_pane)
    &&& (tab.zoomed_pane matches Some(pane) ==> tree_contains(tab.root, pane))
    &&& forall|i: int|
        0 <= i < tab.panes.len() ==> tree_contains(tab.root, (#[trigger] tab.panes[i]).id) && (existing.contains(
            tab.panes[i].working_directory,
        ) || tab.panes[i].working_directory == fallback)
}

/// A restored window is consistent: it has a tab, its active tab is one of them, its size is
/// within bounds, and each tab is consistent.
pub open spec fn window_is_consistent(window: WindowStateView, existing: Seq<Seq<char>>, fallback: Seq<char>) -> bool {
    &&& window.tabs.len() > 0
    &&& window.active_tab < window.tabs.len()
    &&& 320 <= window.window_width <= 7680
    &&& 180 <= window.window_height <= 4320
    &&& forall|i: int| 0 <= i < window.tabs.len() ==> tab_is_consistent(#[trigger] window.tabs[i], existing, fallback)
}

proof fn lemma_restored_panes_consistent(
    panes: Seq<PaneStateView>,
    root: PaneTree,
    existing: Seq<Seq<char>>,
    fallback: Seq<char>,
)
    ensures
        forall|i: int|
            0 <= i < restored_panes(panes, root, existing, fallback).len() ==> tree_contains(
                root,
                (#[trigger] restored_panes(panes, root, existing, fallback)[i]).id,
            ) && (existing.contains(restored_panes(panes, root, existing, fallback)[i].working_directory)
                || restored_panes(panes, root, existing, fallback)[i].working_directory == fallback),
    decreases panes.len(),
{
    if panes.len() > 0 {
        lemma_restored_panes_consistent(panes.drop_last(), root, existing, fallback);
        let kept = restored_panes(panes.drop_last(), root, existing, fallback);
        let all = restored_panes(panes, root, existing, fallback);
        assert forall|i: int| 0 <= i < all.len() implies tree_contains(root, (#[trigger] all[i]).id) && (
        existing.contains(all[i].working_directory) || all[i].working_directory == fallback) by {
            if i < kept.len() {
                assert(all[i] == kept[i]);
            }
        }
    }
}

proof fn lemma_restored_panes_keep(
    panes: Seq<PaneStateView>,
    root: PaneTree,
    existing: Seq<Seq<char>>,
    fallback: Seq<char>,
)
    requires
        forall|i: int|
            0 <= i < panes.len() ==> tree_contains(root, (#[trigger] panes[i]).id) && (existing.contains(
                panes[i].working_directory,
            ) || panes[i].working_directory == fallback),
    ensures
        restored_panes(panes, root, existing, fallback) == panes,
    decreases panes.len(),
{
    if panes.len() > 0 {
        let rest = panes.drop_last();
        assert forall|i: int| 0 <= i < rest.len() implies tree_contains(root, (#[trigger] rest[i]).id) && (
        existing.contains(rest[i].working_directory) || rest[i].working_directory == fallback) by {
            assert(rest[i] == panes[i]);
        }
        lemma_restored_panes_keep(rest, root, existing, fallback);
        let last = panes[panes.len() - 1];
        assert(tree_contains(root, last.id));
        assert(rest.push(last) =~= panes);
    }
}

/// Restoring a workspace whose windows are all consistent gives it back unchanged: a saved
/// session that was sound comes back as it was.
pub proof fn lemma_consistent_windows_are_kept(
    windows: Seq<WindowStateView>,
    existing: Seq<Seq<char>>,
    fallback: Seq<char>,
)
    requires
        forall|i: int| 0 <= i < windows.len() ==> window_is_consistent(#[trigger] windows[i], existing, fallback),
    ensures
        restored_windows(windows, existing, fallback) == windows,
    decreases windows.len(),
{
    if windows.len() > 0 {
        let rest = windows.drop_last();
        assert forall|i: int| 0 <= i < rest.len() implies window_is_consistent(#[trigger] rest[i], existing, fallback) by {
            assert(rest[i] == windows[i]);
        }
        lemma_consistent_windows_are_kept(rest, existing, fallback);
        let window = windows[windows.len() - 1];
        assert(window_is_consistent(window, existing, fallback));
        let restored = restored_window(window, existing, fallback);
        assert forall|k: int| 0 <= k < window.tabs.len() implies #[trigger] restored.tabs[k] == window.tabs[k] by {
            let tab = window.tabs[k];
            assert(tab_is_consistent(tab, existing, fallback));
            lemma_restored_panes_keep(tab.panes, tab.root, existing, fallback);
            assert(restored_tab(tab, existing, fallback) == tab);
        }
        assert(restored.tabs =~= window.tabs);
        assert(restored == window);
        assert(rest.push(window) =~= windows);
    }
}

/// Every window of a restored workspace is consistent, whatever was saved.
pub proof fn lemma_restored_windows_are_consistent(
    windows: Seq<WindowStateView>,
    existing: Seq<Seq<char>>,
    fallback: Seq<char>,
)
    ensures
        forall|i: int|
            0 <= i < restored_windows(windows, existing, fallback).len() ==> window_is_consistent(
                #[trigger] restored_windows(windows, existing, fallback)[i],
                existing,
                fallback,
            ),
    decreases windows.len(),
{
    if windows.len() > 0 {
        lemma_restored_windows_are_consistent(windows.drop_last(), existing, fallback);
        let window = windows.last();
        if window.tabs.len() > 0 {
            let restored = restored_window(window, existing, fallback);
            assert forall|k: int| 0 <= k < restored.tabs.len() implies tab_is_consistent(
                #[trigger] restored.tabs[k],
                existing,
                fallback,
            ) by {
                let tab = window.tabs[k];
                lemma_first_pane_is_first(tab.root);
                lemma_restored_panes_consistent(tab.panes, tab.root, existing, fallback);
            }
            assert(window_is_consistent(restored, existing, fallback));
        }
        let kept = restored_windows(windows.drop_last(), existing, fallback);
        let all = restored_windows(windows, existing, fallback);
        assert forall|i: int| 0 <= i < all.len() implies window_is_consistent(#[trigger] all[i], existing, fallback) by {
            if i < kept.len() {
                assert(all[i] == kept[i]);
            }
        }
    }
}

fn contains_text(texts: &Vec<String>, text: &str) -> (found: bool)
    ensures
        found == texts@.map_values(|entry: String| entry@).contains(text@),
{
    let ghost all = texts@.map_values(|entry: String| entry@);
    let characters = chars_of(text);
    let mut index: usize = 0;
    while index < texts.len()
        invariant
            index <= texts@.len(),
            all == texts@.map_values(|entry: String| entry@),
            characters@ == text@,
            forall|k: int| 0 <= k < index ==> all[k] != text@,
        decreases texts@.len() - index,
    {
        if str_equals(texts[index].as_str(), &characters) {
            proof {
                assert(all[index as int] == text@);
            }
            return true;
        }
        index += 1;
    }
    false
}

fn restore_panes(tab: &TabState, existing: &Vec<String>, fallback: &str) -> (panes: Vec<PaneState>)
    ensures
        panes@.map_values(|pane: PaneState| pane@) == restored_panes(
            tab@.panes,
            tab.root,
            existing@.map_values(|entry: String| entry@),
            fallback@,
        ),
{
    let ghost given = tab@.panes;
    let ghost known = existing@.map_values(|entry: String| entry@);
    let mut panes: Vec<PaneState> = Vec::new();
    let mut index: usize = 0;
    proof {
        assert(given.take(0) =~= Seq::<PaneStateView>::empty());
        assert(panes@.map_values(|pane: PaneState| pane@) =~= Seq::<PaneStateView>::empty());
    }
    while index < tab.panes.len()
        invariant
            index <= tab.panes@.len(),
            given == tab@.panes,
            known == existing@.map_values(|entry: String| entry@),
            panes@.map_values(|pane: PaneState| pane@) == restored_panes(
                given.take(index as int),
                tab.root,
                known,
                fallback@,
            ),
        decreases tab.panes@.len() - index,
    {
        proof {
            assert(given.take(index + 1).drop_last() =~= given.take(index as int));
            assert(given[index as int] == tab.panes@[index as int]@);
        }
        let pane = &tab.panes[index];
        let ghost before = panes@.map_values(|pane: PaneState| pane@);
        if tab.root.contains(pane.id) {
            let directory = if contains_text(existing, pane.working_directory.as_str()) {
                string_of(pane.working_directory.as_str())
            } else {
                string_of(fallback)
            };
            panes.push(PaneState { id: pane.id, working_directory: directory });
            proof {
                assert(panes@.map_values(|pane: PaneState| pane@) =~= before.push(
                    panes@[panes@.len() - 1]@,
                ));
            }
        }
        index += 1;
    }
    proof {
        assert(given.take(tab.panes@.len() as int) =~= given);
    }
    panes
}

fn restore_tab(tab: &TabState, existing: &Vec<String>, fallback: &str) -> (restored: TabState)
    ensures
        restored@ == restored_tab(tab@, existing@.map_values(|entry: String| entry@), fallback@),
{
    let focused_pane = if tab.root.contains(tab.focused_pane) {
        tab.focused_pane
    } else {
        let panes = tab.root.panes();
        proof {
            lemma_first_pane_is_first(tab.root);
        }
        panes[0]
    };
    let zoomed_pane = match tab.zoomed_pane {
        Some(pane) => if tab.root.contains(pane) {
            Some(pane)
        } else {
            None
        },
        None => None,
    };
    TabState {
        title: string_of(tab.title.as_str()),
        root: tab.root.duplicate(),
        focused_pane,
        zoomed_pane,
        panes: restore_panes(tab, existing, fallback),
        pinned: tab.pinned,
    }
}

fn restore_window(window: &WindowState, existing: &Vec<String>, fallback: &str) -> (restored: WindowState)
    requires
        window.tabs@.len() > 0,
    ensures
        restored@ == restored_window(window@, existing@.map_values(|entry: String| entry@), fallback@),
{
    let ghost known = existing@.map_values(|entry: String| entry@);
    let mut tabs: Vec<TabState> = Vec::new();
    let mut index: usize = 0;
    while index < window.tabs.len()
        invariant
            index <= window.tabs@.len(),
            known == existing@.map_values(|entry: String| entry@),
            tabs@.len() == index,
            forall|k: int|
                0 <= k < index ==> (#[trigger] tabs@[k])@ == restored_tab(window.tabs@[k]@, known, fallback@),
        decreases window.tabs@.len() - index,
    {
        tabs.push(restore_tab(&window.tabs[index], existing, fallback));
        index += 1;
    }
    let last = window.tabs.len() - 1;
    let restored = WindowState {
        window_width: if window.window_width < 320 {
            320
        } else if window.window_width > 7680 {
            7680
        } else {
            window.window_width
        },
        window_height: if window.window_height < 180 {
            180
        } else if window.window_height > 4320 {
            4320
        } else {
            window.window_height
        },
        active_tab: if window.active_tab < last { window.active_tab } else { last },
        tabs,
    };
    proof {
        assert(restored@.tabs =~= window@.tabs.map_values(|tab: TabStateView| restored_tab(tab, known, fallback@)));
    }
    restored
}

impl Workspace {
    /// Repairs a loaded workspace: drops windows without tabs, keeps window sizes within
    /// 320x180 to 7680x4320 and the active tab on a tab, drops panes the layout lost, moves
    /// focus and zoom off panes that are gone, and replaces pane directories not among
    /// `existing` with `fallback`.
    pub fn sanitize(&mut self, existing: &Vec<String>, fallback: &str)
        ensures
            final(self)@ == (WorkspaceView {
                windows: restored_windows(
                    old(self)@.windows,
                    existing@.map_values(|entry: String| entry@),
                    fallback@,
                ),
                ..old(self)@
            }),
    {
        let ghost known = existing@.map_values(|entry: String| entry@);
        let ghost given = self@.windows;
        let mut windows: Vec<WindowState> = Vec::new();
        let mut index: usize = 0;
        proof {
            assert(given.take(0) =~= Seq::<WindowStateView>::empty());
            assert(windows@.map_values(|window: WindowState| window@) =~= Seq::<WindowStateView>::empty());
        }
        while index < self.windows.len()
            invariant
                index <= self.windows@.len(),
                given == self@.windows,
                known == existing@.map_values(|entry: String| entry@),
                windows@.map_values(|window: WindowState| window@) == restored_windows(
                    given.take(index as int),
                    known,
                    fallback@,
                ),
            decreases self.windows@.len() - index,
        {
            proof {
                assert(given.take(index + 1).drop_last() =~= given.take(index as int));
                assert(given[index as int] == self.windows@[index as int]@);
            }
            let ghost before = windows@.map_values(|window: WindowState| window@);
            if self.windows[index].tabs.len() > 0 {
                let window = restore_window(&self.windows[index], existing, fallback);
                windows.push(window);
                proof {
                    assert(windows@.map_values(|window: WindowState| window@) =~= before.push(
                        windows@[windows@.len() - 1]@,
                    ));
                }
            }
            index += 1;
        }
        proof {
            assert(given.take(self.windows@.len() as int) =~= given);
        }
        self.windows = windows;
    }
}

/// How a saved workspace text is to be read, decided by its top-level `version`.
#[derive(Clone, Copy, Debug, PartialEq, Eq, Structural)]
pub enum WorkspaceFormat {
    /// No non-negative integer `version`: the text is not read.
    MissingVersion,
    /// The single-window format of version 1, migrated on reading.
    SingleWindow,
    /// The current format.
    Current,
    /// A version this library cannot read.
    Unsupported(u32),
}

/// The format a `version` entry selects; a version is taken as a `u32` by truncation.
pub open spec fn format_for(version: Option<i64>) -> WorkspaceFormat {
    match version {
        Some(number) => if number < 0 {
            WorkspaceFormat::MissingVersion
        } else if number as u32 == 1 {
            WorkspaceFormat::SingleWindow
        } else if number as u32 == WORKSPACE_VERSION {
            WorkspaceFormat::Current
        } else {
            WorkspaceFormat::Unsupported(number as u32)
        },
        None => WorkspaceFormat::MissingVersion,
    }
}

/// The integer a TOML text holds under a top-level `key`, as `toml` reads it; `None` when the
/// text is not TOML or has no integer there.
pub uninterp spec fn toml_integer_at(contents: Seq<char>, key: Seq<char>) -> Option<i64>;

/// Parses `contents` with `toml::from_str::<toml::Value>` and reads the entry `key` with
/// `Value::get` and `Value::as_integer`. What comes back depends on the text and the key alone
/// and is named `toml_integer_at`; which texts give which integers is left unsaid.
#[verifier::external_body]
fn toml_integer_entry(contents: &str, key: &str) -> (entry: Option<i64>)
    ensures
        entry == toml_integer_at(contents@, key@),
{
    match toml::from_str::<toml::Value>(contents) {
        Ok(value) => match value.get(key) {
            Some(found) => found.as_integer(),
            None => None,
        },
        Err(_) => None,
    }
}

/// The top-level key that holds a saved workspace's format version.
pub open spec fn version_key() -> Seq<char> {
    seq!['v', 'e', 'r', 's', 'i', 'o', 'n']
}

/// The format a `version` entry selects: none or a negative one leaves the text unread,
/// 1 is the single-window format, `WORKSPACE_VERSION` the current one, anything else is
/// unsupported. A version is taken as a `u32` by truncation.
pub fn format_for_version(version: Option<i64>) -> (format: WorkspaceFormat)
    ensures
        format == format_for(version),
{
    match version {
        Some(number) => if number < 0 {
            WorkspaceFormat::MissingVersion
        } else {
            let truncated = number as u32;
            if truncated == 1 {
                WorkspaceFormat::SingleWindow
            } else if truncated == WORKSPACE_VERSION {
                WorkspaceFormat::Current
            } else {
                WorkspaceFormat::Unsupported(truncated)
            }
        },
        None => WorkspaceFormat::MissingVersion,
    }
}

/// The format of a saved workspace text, read from its top-level `version` entry.
pub fn workspace_format(contents: &str) -> (format: WorkspaceFormat)
    ensures
        format == format_for(toml_integer_at(contents@, version_key())),
{
    let key = "version";
    proof {
        reveal_strlit("version");
        assert(key@ =~= version_key());
    }
    format_for_version(toml_integer_entry(contents, key))
}

/// A single-window workspace of the first format, in the current format: one window with
/// the saved size, active tab and tabs.
pub fn migrate_single_window(
    theme: String,
    window_width: u32,
    window_height: u32,
    active_tab: usize,
    tabs: Vec<TabState>,
) -> (workspace: Workspace)
    ensures
        workspace.version == WORKSPACE_VERSION,
        workspace.theme == theme,
        workspace.windows@.len() == 1,
        workspace.windows@[0].window_width == window_width,
        workspace.windows@[0].window_height == window_height,
        workspace.windows@[0].active_tab == active_tab,
        workspace.windows@[0].tabs == tabs,
{
    Workspace {
        version: WORKSPACE_VERSION,
        theme,
        windows: vec![WindowState { window_width, window_height, active_tab, tabs }],
    }
}

} // verus!
