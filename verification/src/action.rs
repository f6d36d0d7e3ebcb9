use vstd::prelude::*;

use vstd::seq_lib::{to_multiset_build, to_multiset_contains, to_multiset_insert};

use crate::text::{
    ascii_lower, ascii_lower_seq, ascii_lowercase_chars, char_is_whitespace, chars_equal, chars_less,
    chars_of, contains_chars, contains_run, has_prefix, is_whitespace, lemma_seq_less_total,
    lemma_seq_less_transitive, lowercase_of, seq_less, starts_with_chars, str_equals, string_from_chars,
    string_of, append_str, trim, trim_chars, unicode_lowercase, ascii_upper_seq,
    ascii_uppercase_chars, push_char, lemma_seq_less_irreflexive, ascii_upper,
};

verus! {

/// A command of the application, bound to keys and listed in the command palette.
#[derive(Clone, Copy, Debug, PartialEq, Eq, Hash, Structural)]
pub enum Action {
    ToggleCommandPalette,
    NewTab,
    TogglePinTab,
    Close,
    CloseTab,
    NextTab,
    PreviousTab,
    MoveTabLeft,
    MoveTabRight,
    RenameTab,
    DuplicateTab,
    RestoreTab,
    SelectTab1,
    SelectTab2,
    SelectTab3,
    SelectTab4,
    SelectTab5,
    SelectTab6,
    SelectTab7,
    SelectTab8,
    SelectTab9,
    SplitHorizontal,
    SplitVertical,
    ClosePane,
    FocusLeft,
    FocusRight,
    FocusUp,
    FocusDown,
    SwapPaneLeft,
    SwapPaneRight,
    SwapPaneUp,
    SwapPaneDown,
    ResizeLeft,
    ResizeRight,
    ResizeUp,
    ResizeDown,
    TogglePaneZoom,
    Copy,
    Paste,
    Search,
    ThemeDark,
    ThemeLight,
}

/// The name an action is parsed from: its variant name in lowercase.
pub open spec fn action_key(action: Action) -> Seq<char> {
    match action {
        Action::ToggleCommandPalette => "togglecommandpalette"@,
        Action::NewTab => "newtab"@,
        Action::TogglePinTab => "togglepintab"@,
        Action::Close => "close"@,
        Action::CloseTab => "closetab"@,
        Action::NextTab => "nexttab"@,
        Action::PreviousTab => "previoustab"@,
        Action::MoveTabLeft => "movetableft"@,
        Action::MoveTabRight => "movetabright"@,
        Action::RenameTab => "renametab"@,
        Action::DuplicateTab => "duplicatetab"@,
        Action::RestoreTab => "restoretab"@,
        Action::SelectTab1 => "selecttab1"@,
        Action::SelectTab2 => "selecttab2"@,
        Action::SelectTab3 => "selecttab3"@,
        Action::SelectTab4 => "selecttab4"@,
        Action::SelectTab5 => "selecttab5"@,
        Action::SelectTab6 => "selecttab6"@,
        Action::SelectTab7 => "selecttab7"@,
        Action::SelectTab8 => "selecttab8"@,
        Action::SelectTab9 => "selecttab9"@,
        Action::SplitHorizontal => "splithorizontal"@,
        Action::SplitVertical => "splitvertical"@,
        Action::ClosePane => "closepane"@,
        Action::FocusLeft => "focusleft"@,
        Action::FocusRight => "focusright"@,
        Action::FocusUp => "focusup"@,
        Action::FocusDown => "focusdown"@,
        Action::SwapPaneLeft => "swappaneleft"@,
        Action::SwapPaneRight => "swappaneright"@,
        Action::SwapPaneUp => "swappaneup"@,
        Action::SwapPaneDown => "swappanedown"@,
        Action::ResizeLeft => "resizeleft"@,
        Action::ResizeRight => "resizeright"@,
        Action::ResizeUp => "resizeup"@,
        Action::ResizeDown => "resizedown"@,
        Action::TogglePaneZoom => "togglepanezoom"@,
        Action::Copy => "copy"@,
        Action::Paste => "paste"@,
        Action::Search => "search"@,
        Action::ThemeDark => "themedark"@,
        Action::ThemeLight => "themelight"@,
    }
}

/// The name an action is shown under: its variant name.
pub open spec fn action_name(action: Action) -> Seq<char> {
    match action {
        Action::ToggleCommandPalette => "ToggleCommandPalette"@,
        Action::NewTab => "NewTab"@,
        Action::TogglePinTab => "TogglePinTab"@,
        Action::Close => "Close"@,
        Action::CloseTab => "CloseTab"@,
        Action::NextTab => "NextTab"@,
        Action::PreviousTab => "PreviousTab"@,
        Action::MoveTabLeft => "MoveTabLeft"@,
        Action::MoveTabRight => "MoveTabRight"@,
        Action::RenameTab => "RenameTab"@,
        Action::DuplicateTab => "DuplicateTab"@,
        Action::RestoreTab => "RestoreTab"@,
        Action::SelectTab1 => "SelectTab1"@,
        Action::SelectTab2 => "SelectTab2"@,
        Action::SelectTab3 => "SelectTab3"@,
        Action::SelectTab4 => "SelectTab4"@,
        Action::SelectTab5 => "SelectTab5"@,
        Action::SelectTab6 => "SelectTab6"@,
        Action::SelectTab7 => "SelectTab7"@,
        Action::SelectTab8 => "SelectTab8"@,
        Action::SelectTab9 => "SelectTab9"@,
        Action::SplitHorizontal => "SplitHorizontal"@,
        Action::SplitVertical => "SplitVertical"@,
        Action::ClosePane => "ClosePane"@,
        Action::FocusLeft => "FocusLeft"@,
        Action::FocusRight => "FocusRight"@,
        Action::FocusUp => "FocusUp"@,
        Action::FocusDown => "FocusDown"@,
        Action::SwapPaneLeft => "SwapPaneLeft"@,
        Action::SwapPaneRight => "SwapPaneRight"@,
        Action::SwapPaneUp => "SwapPaneUp"@,
        Action::SwapPaneDown => "SwapPaneDown"@,
        Action::ResizeLeft => "ResizeLeft"@,
        Action::ResizeRight => "ResizeRight"@,
        Action::ResizeUp => "ResizeUp"@,
        Action::ResizeDown => "ResizeDown"@,
        Action::TogglePaneZoom => "TogglePaneZoom"@,
        Action::Copy => "Copy"@,
        Action::Paste => "Paste"@,
        Action::Search => "Search"@,
        Action::ThemeDark => "ThemeDark"@,
        Action::ThemeLight => "ThemeLight"@,
    }
}

/// Whether a character of a configured action name is significant: separators `_`, `-` and
/// whitespace are ignored.
pub open spec fn name_char_kept(c: char) -> bool {
    c != '_' && c != '-' && !is_whitespace(c)
}

/// What `char::to_lowercase` yields for `c`: the ASCII lowercase form for ASCII characters.
pub open spec fn lowercase_chars(c: char) -> Seq<char> {
    if (c as u32) < 128 {
        seq![ascii_lower(c)]
    } else {
        unicode_lowercase(c)
    }
}

/// A configured action name without separators and in lowercase.
pub open spec fn normalize_action_name(text: Seq<char>) -> Seq<char>
    decreases text.len(),
{
    if text.len() == 0 {
        Seq::empty()
    } else {
        let tail = if name_char_kept(text.last()) {
            lowercase_chars(text.last())
        } else {
            Seq::empty()
        };
        normalize_action_name(text.drop_last()) + tail
    }
}

/// Every action, in declaration order.
pub open spec fn all_actions_view() -> Seq<Action> {
    seq![
        Action::ToggleCommandPalette,
        Action::NewTab,
        Action::TogglePinTab,
        Action::Close,
        Action::CloseTab,
        Action::NextTab,
        Action::PreviousTab,
        Action::MoveTabLeft,
        Action::MoveTabRight,
        Action::RenameTab,
        Action::DuplicateTab,
        Action::RestoreTab,
        Action::SelectTab1,
        Action::SelectTab2,
        Action::SelectTab3,
        Action::SelectTab4,
        Action::SelectTab5,
        Action::SelectTab6,
        Action::SelectTab7,
        Action::SelectTab8,
        Action::SelectTab9,
        Action::SplitHorizontal,
        Action::SplitVertical,
        Action::ClosePane,
        Action::FocusLeft,
        Action::FocusRight,
        Action::FocusUp,
        Action::FocusDown,
        Action::SwapPaneLeft,
        Action::SwapPaneRight,
        Action::SwapPaneUp,
        Action::SwapPaneDown,
        Action::ResizeLeft,
        Action::ResizeRight,
        Action::ResizeUp,
        Action::ResizeDown,
        Action::TogglePaneZoom,
        Action::Copy,
        Action::Paste,
        Action::Search,
        Action::ThemeDark,
        Action::ThemeLight,
    ]
}

/// The first of `actions` whose parse key is `key`.
pub open spec fn find_action(actions: Seq<Action>, key: Seq<char>) -> Option<Action>
    decreases actions.len(),
{
    if actions.len() == 0 {
        None
    } else if action_key(actions[0]) == key {
        Some(actions[0])
    } else {
        find_action(actions.drop_first(), key)
    }
}

/// The action a configured name denotes.
pub open spec fn parse_action(text: Seq<char>) -> Option<Action> {
    find_action(all_actions_view(), normalize_action_name(text))
}

/// The length, first and last character of an action's parse key: together they tell the
/// actions apart.
spec fn key_fingerprint(key: Seq<char>) -> (nat, char, char) {
    (key.len(), key[0], key.last())
}

/// The action whose parse key has the given fingerprint.
spec fn action_of_fingerprint(fingerprint: (nat, char, char)) -> Option<Action> {
    if fingerprint == (20nat, 't', 'e') {
        Some(Action::ToggleCommandPalette)
    } else if fingerprint == (6nat, 'n', 'b') {
        Some(Action::NewTab)
    } else if fingerprint == (12nat, 't', 'b') {
        Some(Action::TogglePinTab)
    } else if fingerprint == (5nat, 'c', 'e') {
        Some(Action::Close)
    } else if fingerprint == (8nat, 'c', 'b') {
        Some(Action::CloseTab)
    } else if fingerprint == (7nat, 'n', 'b') {
        Some(Action::NextTab)
    } else if fingerprint == (11nat, 'p', 'b') {
        Some(Action::PreviousTab)
    } else if fingerprint == (11nat, 'm', 't') {
        Some(Action::MoveTabLeft)
    } else if fingerprint == (12nat, 'm', 't') {
        Some(Action::MoveTabRight)
    } else if fingerprint == (9nat, 'r', 'b') {
        Some(Action::RenameTab)
    } else if fingerprint == (12nat, 'd', 'b') {
        Some(Action::DuplicateTab)
    } else if fingerprint == (10nat, 'r', 'b') {
        Some(Action::RestoreTab)
    } else if fingerprint == (10nat, 's', '1') {
        Some(Action::SelectTab1)
    } else if fingerprint == (10nat, 's', '2') {
        Some(Action::SelectTab2)
    } else if fingerprint == (10nat, 's', '3') {
        Some(Action::SelectTab3)
    } else if fingerprint == (10nat, 's', '4') {
        Some(Action::SelectTab4)
    } else if fingerprint == (10nat, 's', '5') {
        Some(Action::SelectTab5)
    } else if fingerprint == (10nat, 's', '6') {
        Some(Action::SelectTab6)
    } else if fingerprint == (10nat, 's', '7') {
        Some(Action::SelectTab7)
    } else if fingerprint == (10nat, 's', '8') {
        Some(Action::SelectTab8)
    } else if fingerprint == (10nat, 's', '9') {
        Some(Action::SelectTab9)
    } else if fingerprint == (15nat, 's', 'l') {
        Some(Action::SplitHorizontal)
    } else if fingerprint == (13nat, 's', 'l') {
        Some(Action::SplitVertical)
    } else if fingerprint == (9nat, 'c', 'e') {
        Some(Action::ClosePane)
    } else if fingerprint == (9nat, 'f', 't') {
        Some(Action::FocusLeft)
    } else if fingerprint == (10nat, 'f', 't') {
        Some(Action::FocusRight)
    } else if fingerprint == (7nat, 'f', 'p') {
        Some(Action::FocusUp)
    } else if fingerprint == (9nat, 'f', 'n') {
        Some(Action::FocusDown)
    } else if fingerprint == (12nat, 's', 't') {
        Some(Action::SwapPaneLeft)
    } else if fingerprint == (13nat, 's', 't') {
        Some(Action::SwapPaneRight)
    } else if fingerprint == (10nat, 's', 'p') {
        Some(Action::SwapPaneUp)
    } else if fingerprint == (12nat, 's', 'n') {
        Some(Action::SwapPaneDown)
    } else if fingerprint == (10nat, 'r', 't') {
        Some(Action::ResizeLeft)
    } else if fingerprint == (11nat, 'r', 't') {
        Some(Action::ResizeRight)
    } else if fingerprint == (8nat, 'r', 'p') {
        Some(Action::ResizeUp)
    } else if fingerprint == (10nat, 'r', 'n') {
        Some(Action::ResizeDown)
    } else if fingerprint == (14nat, 't', 'm') {
        Some(Action::TogglePaneZoom)
    } else if fingerprint == (4nat, 'c', 'y') {
        Some(Action::Copy)
    } else if fingerprint == (5nat, 'p', 'e') {
        Some(Action::Paste)
    } else if fingerprint == (6nat, 's', 'h') {
        Some(Action::Search)
    } else if fingerprint == (9nat, 't', 'k') {
        Some(Action::ThemeDark)
    } else if fingerprint == (10nat, 't', 't') {
        Some(Action::ThemeLight)
    } else {
        None
    }
}

proof fn lemma_fingerprint_identifies(action: Action)
    ensures
        action_of_fingerprint(key_fingerprint(action_key(action))) == Some(action),
{
    match action {
        Action::ToggleCommandPalette => reveal_strlit("togglecommandpalette"),
        Action::NewTab => reveal_strlit("newtab"),
        Action::TogglePinTab => reveal_strlit("togglepintab"),
        Action::Close => reveal_strlit("close"),
        Action::CloseTab => reveal_strlit("closetab"),
        Action::NextTab => reveal_strlit("nexttab"),
        Action::PreviousTab => reveal_strlit("previoustab"),
        Action::MoveTabLeft => reveal_strlit("movetableft"),
        Action::MoveTabRight => reveal_strlit("movetabright"),
        Action::RenameTab => reveal_strlit("renametab"),
        Action::DuplicateTab => reveal_strlit("duplicatetab"),
        Action::RestoreTab => reveal_strlit("restoretab"),
        Action::SelectTab1 => reveal_strlit("selecttab1"),
        Action::SelectTab2 => reveal_strlit("selecttab2"),
        Action::SelectTab3 => reveal_strlit("selecttab3"),
        Action::SelectTab4 => reveal_strlit("selecttab4"),
        Action::SelectTab5 => reveal_strlit("selecttab5"),
        Action::SelectTab6 => reveal_strlit("selecttab6"),
        Action::SelectTab7 => reveal_strlit("selecttab7"),
        Action::SelectTab8 => reveal_strlit("selecttab8"),
        Action::SelectTab9 => reveal_strlit("selecttab9"),
        Action::SplitHorizontal => reveal_strlit("splithorizontal"),
        Action::SplitVertical => reveal_strlit("splitvertical"),
        Action::ClosePane => reveal_strlit("closepane"),
        Action::FocusLeft => reveal_strlit("focusleft"),
        Action::FocusRight => reveal_strlit("focusright"),
        Action::FocusUp => reveal_strlit("focusup"),
        Action::FocusDown => reveal_strlit("focusdown"),
        Action::SwapPaneLeft => reveal_strlit("swappaneleft"),
        Action::SwapPaneRight => reveal_strlit("swappaneright"),
        Action::SwapPaneUp => reveal_strlit("swappaneup"),
        Action::SwapPaneDown => reveal_strlit("swappanedown"),
        Action::ResizeLeft => reveal_strlit("resizeleft"),
        Action::ResizeRight => reveal_strlit("resizeright"),
        Action::ResizeUp => reveal_strlit("resizeup"),
        Action::ResizeDown => reveal_strlit("resizedown"),
        Action::TogglePaneZoom => reveal_strlit("togglepanezoom"),
        Action::Copy => reveal_strlit("copy"),
        Action::Paste => reveal_strlit("paste"),
        Action::Search => reveal_strlit("search"),
        Action::ThemeDark => reveal_strlit("themedark"),
        Action::ThemeLight => reveal_strlit("themelight"),
    }
}

/// No two actions share a parse key.
pub proof fn lemma_action_key_injective(first: Action, second: Action)
    requires
        action_key(first) == action_key(second),
    ensures
        first == second,
{
    lemma_fingerprint_identifies(first);
    lemma_fingerprint_identifies(second);
}

/// A character that a configured action name keeps and lowercases one for one.
spec fn plain_name_char(c: char) -> bool {
    ('A' <= c && c <= 'Z') || ('a' <= c && c <= 'z') || ('0' <= c && c <= '9')
}

proof fn lemma_normalize_plain_name(text: Seq<char>)
    requires
        forall|i: int| 0 <= i < text.len() ==> plain_name_char(#[trigger] text[i]),
    ensures
        normalize_action_name(text) == ascii_lower_seq(text),
    decreases text.len(),
{
    if text.len() == 0 {
        assert(ascii_lower_seq(text) =~= Seq::<char>::empty());
    } else {
        assert(plain_name_char(text[text.len() - 1]));
        lemma_normalize_plain_name(text.drop_last());
        assert(ascii_lower_seq(text) =~= ascii_lower_seq(text.drop_last()).push(ascii_lower(text.last())));
    }
}

proof fn lemma_name_normalizes_to_key(action: Action)
    ensures
        normalize_action_name(action_name(action)) == action_key(action),
{
    match action {
        Action::ToggleCommandPalette => {
            reveal_strlit("ToggleCommandPalette");
            reveal_strlit("togglecommandpalette");
            lemma_normalize_plain_name("ToggleCommandPalette"@);
            assert(ascii_lower_seq("ToggleCommandPalette"@) =~= "togglecommandpalette"@);
        },
        Action::NewTab => {
            reveal_strlit("NewTab");
            reveal_strlit("newtab");
            lemma_normalize_plain_name("NewTab"@);
            assert(ascii_lower_seq("NewTab"@) =~= "newtab"@);
        },
        Action::TogglePinTab => {
            reveal_strlit("TogglePinTab");
            reveal_strlit("togglepintab");
            lemma_normalize_plain_name("TogglePinTab"@);
            assert(ascii_lower_seq("TogglePinTab"@) =~= "togglepintab"@);
        },
        Action::Close => {
            reveal_strlit("Close");
            reveal_strlit("close");
            lemma_normalize_plain_name("Close"@);
            assert(ascii_lower_seq("Close"@) =~= "close"@);
        },
        Action::CloseTab => {
            reveal_strlit("CloseTab");
            reveal_strlit("closetab");
            lemma_normalize_plain_name("CloseTab"@);
            assert(ascii_lower_seq("CloseTab"@) =~= "closetab"@);
        },
        Action::NextTab => {
            reveal_strlit("NextTab");
            reveal_strlit("nexttab");
            lemma_normalize_plain_name("NextTab"@);
            assert(ascii_lower_seq("NextTab"@) =~= "nexttab"@);
        },
        Action::PreviousTab => {
            reveal_strlit("PreviousTab");
            reveal_strlit("previoustab");
            lemma_normalize_plain_name("PreviousTab"@);
            assert(ascii_lower_seq("PreviousTab"@) =~= "previoustab"@);
        },
        Action::MoveTabLeft => {
            reveal_strlit("MoveTabLeft");
            reveal_strlit("movetableft");
            lemma_normalize_plain_name("MoveTabLeft"@);
            assert(ascii_lower_seq("MoveTabLeft"@) =~= "movetableft"@);
        },
        Action::MoveTabRight => {
            reveal_strlit("MoveTabRight");
            reveal_strlit("movetabright");
            lemma_normalize_plain_name("MoveTabRight"@);
            assert(ascii_lower_seq("MoveTabRight"@) =~= "movetabright"@);
        },
        Action::RenameTab => {
            reveal_strlit("RenameTab");
            reveal_strlit("renametab");
            lemma_normalize_plain_name("RenameTab"@);
            assert(ascii_lower_seq("RenameTab"@) =~= "renametab"@);
        },
        Action::DuplicateTab => {
            reveal_strlit("DuplicateTab");
            reveal_strlit("duplicatetab");
            lemma_normalize_plain_name("DuplicateTab"@);
            assert(ascii_lower_seq("DuplicateTab"@) =~= "duplicatetab"@);
        },
        Action::RestoreTab => {
            reveal_strlit("RestoreTab");
            reveal_strlit("restoretab");
            lemma_normalize_plain_name("RestoreTab"@);
            assert(ascii_lower_seq("RestoreTab"@) =~= "restoretab"@);
        },
        Action::SelectTab1 => {
            reveal_strlit("SelectTab1");
            reveal_strlit("selecttab1");
            lemma_normalize_plain_name("SelectTab1"@);
            assert(ascii_lower_seq("SelectTab1"@) =~= "selecttab1"@);
        },
        Action::SelectTab2 => {
            reveal_strlit("SelectTab2");
            reveal_strlit("selecttab2");
            lemma_normalize_plain_name("SelectTab2"@);
            assert(ascii_lower_seq("SelectTab2"@) =~= "selecttab2"@);
        },
        Action::SelectTab3 => {
            reveal_strlit("SelectTab3");
            reveal_strlit("selecttab3");
            lemma_normalize_plain_name("SelectTab3"@);
            assert(ascii_lower_seq("SelectTab3"@) =~= "selecttab3"@);
        },
        Action::SelectTab4 => {
            reveal_strlit("SelectTab4");
            reveal_strlit("selecttab4");
            lemma_normalize_plain_name("SelectTab4"@);
            assert(ascii_lower_seq("SelectTab4"@) =~= "selecttab4"@);
        },
        Action::SelectTab5 => {
            reveal_strlit("SelectTab5");
            reveal_strlit("selecttab5");
            lemma_normalize_plain_name("SelectTab5"@);
            assert(ascii_lower_seq("SelectTab5"@) =~= "selecttab5"@);
        },
        Action::SelectTab6 => {
            reveal_strlit("SelectTab6");
            reveal_strlit("selecttab6");
            lemma_normalize_plain_name("SelectTab6"@);
            assert(ascii_lower_seq("SelectTab6"@) =~= "selecttab6"@);
        },
        Action::SelectTab7 => {
            reveal_strlit("SelectTab7");
            reveal_strlit("selecttab7");
            lemma_normalize_plain_name("SelectTab7"@);
            assert(ascii_lower_seq("SelectTab7"@) =~= "selecttab7"@);
        },
        Action::SelectTab8 => {
            reveal_strlit("SelectTab8");
            reveal_strlit("selecttab8");
            lemma_normalize_plain_name("SelectTab8"@);
            assert(ascii_lower_seq("SelectTab8"@) =~= "selecttab8"@);
        },
        Action::SelectTab9 => {
            reveal_strlit("SelectTab9");
            reveal_strlit("selecttab9");
            lemma_normalize_plain_name("SelectTab9"@);
            assert(ascii_lower_seq("SelectTab9"@) =~= "selecttab9"@);
        },
        Action::SplitHorizontal => {
            reveal_strlit("SplitHorizontal");
            reveal_strlit("splithorizontal");
            lemma_normalize_plain_name("SplitHorizontal"@);
            assert(ascii_lower_seq("SplitHorizontal"@) =~= "splithorizontal"@);
        },
        Action::SplitVertical => {
            reveal_strlit("SplitVertical");
            reveal_strlit("splitvertical");
            lemma_normalize_plain_name("SplitVertical"@);
            assert(ascii_lower_seq("SplitVertical"@) =~= "splitvertical"@);
        },
        Action::ClosePane => {
            reveal_strlit("ClosePane");
            reveal_strlit("closepane");
            lemma_normalize_plain_name("ClosePane"@);
            assert(ascii_lower_seq("ClosePane"@) =~= "closepane"@);
        },
        Action::FocusLeft => {
            reveal_strlit("FocusLeft");
            reveal_strlit("focusleft");
            lemma_normalize_plain_name("FocusLeft"@);
            assert(ascii_lower_seq("FocusLeft"@) =~= "focusleft"@);
        },
        Action::FocusRight => {
            reveal_strlit("FocusRight");
            reveal_strlit("focusright");
            lemma_normalize_plain_name("FocusRight"@);
            assert(ascii_lower_seq("FocusRight"@) =~= "focusright"@);
        },
        Action::FocusUp => {
            reveal_strlit("FocusUp");
            reveal_strlit("focusup");
            lemma_normalize_plain_name("FocusUp"@);
            assert(ascii_lower_seq("FocusUp"@) =~= "focusup"@);
        },
        Action::FocusDown => {
            reveal_strlit("FocusDown");
            reveal_strlit("focusdown");
            lemma_normalize_plain_name("FocusDown"@);
            assert(ascii_lower_seq("FocusDown"@) =~= "focusdown"@);
        },
        Action::SwapPaneLeft => {
            reveal_strlit("SwapPaneLeft");
            reveal_strlit("swappaneleft");
            lemma_normalize_plain_name("SwapPaneLeft"@);
            assert(ascii_lower_seq("SwapPaneLeft"@) =~= "swappaneleft"@);
        },
        Action::SwapPaneRight => {
            reveal_strlit("SwapPaneRight");
            reveal_strlit("swappaneright");
            lemma_normalize_plain_name("SwapPaneRight"@);
            assert(ascii_lower_seq("SwapPaneRight"@) =~= "swappaneright"@);
        },
        Action::SwapPaneUp => {
            reveal_strlit("SwapPaneUp");
            reveal_strlit("swappaneup");
            lemma_normalize_plain_name("SwapPaneUp"@);
            assert(ascii_lower_seq("SwapPaneUp"@) =~= "swappaneup"@);
        },
        Action::SwapPaneDown => {
            reveal_strlit("SwapPaneDown");
            reveal_strlit("swappanedown");
            lemma_normalize_plain_name("SwapPaneDown"@);
            assert(ascii_lower_seq("SwapPaneDown"@) =~= "swappanedown"@);
        },
        Action::ResizeLeft => {
            reveal_strlit("ResizeLeft");
            reveal_strlit("resizeleft");
            lemma_normalize_plain_name("ResizeLeft"@);
            assert(ascii_lower_seq("ResizeLeft"@) =~= "resizeleft"@);
        },
        Action::ResizeRight => {
            reveal_strlit("ResizeRight");
            reveal_strlit("resizeright");
            lemma_normalize_plain_name("ResizeRight"@);
            assert(ascii_lower_seq("ResizeRight"@) =~= "resizeright"@);
        },
        Action::ResizeUp => {
            reveal_strlit("ResizeUp");
            reveal_strlit("resizeup");
            lemma_normalize_plain_name("ResizeUp"@);
            assert(ascii_lower_seq("ResizeUp"@) =~= "resizeup"@);
        },
        Action::ResizeDown => {
            reveal_strlit("ResizeDown");
            reveal_strlit("resizedown");
            lemma_normalize_plain_name("ResizeDown"@);
            assert(ascii_lower_seq("ResizeDown"@) =~= "resizedown"@);
        },
        Action::TogglePaneZoom => {
            reveal_strlit("TogglePaneZoom");
            reveal_strlit("togglepanezoom");
            lemma_normalize_plain_name("TogglePaneZoom"@);
            assert(ascii_lower_seq("TogglePaneZoom"@) =~= "togglepanezoom"@);
        },
        Action::Copy => {
            reveal_strlit("Copy");
            reveal_strlit("copy");
            lemma_normalize_plain_name("Copy"@);
            assert(ascii_lower_seq("Copy"@) =~= "copy"@);
        },
        Action::Paste => {
            reveal_strlit("Paste");
            reveal_strlit("paste");
            lemma_normalize_plain_name("Paste"@);
            assert(ascii_lower_seq("Paste"@) =~= "paste"@);
        },
        Action::Search => {
            reveal_strlit("Search");
            reveal_strlit("search");
            lemma_normalize_plain_name("Search"@);
            assert(ascii_lower_seq("Search"@) =~= "search"@);
        },
        Action::ThemeDark => {
            reveal_strlit("ThemeDark");
            reveal_strlit("themedark");
            lemma_normalize_plain_name("ThemeDark"@);
            assert(ascii_lower_seq("ThemeDark"@) =~= "themedark"@);
        },
        Action::ThemeLight => {
            reveal_strlit("ThemeLight");
            reveal_strlit("themelight");
            lemma_normalize_plain_name("ThemeLight"@);
            assert(ascii_lower_seq("ThemeLight"@) =~= "themelight"@);
        },
    }
}

proof fn lemma_all_actions_listed(action: Action)
    ensures
        all_actions_view().contains(action),
{
    match action {
        Action::ToggleCommandPalette => assert(all_actions_view()[0] == action),
        Action::NewTab => assert(all_actions_view()[1] == action),
        Action::TogglePinTab => assert(all_actions_view()[2] == action),
        Action::Close => assert(all_actions_view()[3] == action),
        Action::CloseTab => assert(all_actions_view()[4] == action),
        Action::NextTab => assert(all_actions_view()[5] == action),
        Action::PreviousTab => assert(all_actions_view()[6] == action),
        Action::MoveTabLeft => assert(all_actions_view()[7] == action),
        Action::MoveTabRight => assert(all_actions_view()[8] == action),
        Action::RenameTab => assert(all_actions_view()[9] == action),
        Action::DuplicateTab => assert(all_actions_view()[10] == action),
        Action::RestoreTab => assert(all_actions_view()[11] == action),
        Action::SelectTab1 => assert(all_actions_view()[12] == action),
        Action::SelectTab2 => assert(all_actions_view()[13] == action),
        Action::SelectTab3 => assert(all_actions_view()[14] == action),
        Action::SelectTab4 => assert(all_actions_view()[15] == action),
        Action::SelectTab5 => assert(all_actions_view()[16] == action),
        Action::SelectTab6 => assert(all_actions_view()[17] == action),
        Action::SelectTab7 => assert(all_actions_view()[18] == action),
        Action::SelectTab8 => assert(all_actions_view()[19] == action),
        Action::SelectTab9 => assert(all_actions_view()[20] == action),
        Action::SplitHorizontal => assert(all_actions_view()[21] == action),
        Action::SplitVertical => assert(all_actions_view()[22] == action),
        Action::ClosePane => assert(all_actions_view()[23] == action),
        Action::FocusLeft => assert(all_actions_view()[24] == action),
        Action::FocusRight => assert(all_actions_view()[25] == action),
        Action::FocusUp => assert(all_actions_view()[26] == action),
        Action::FocusDown => assert(all_actions_view()[27] == action),
        Action::SwapPaneLeft => assert(all_actions_view()[28] == action),
        Action::SwapPaneRight => assert(all_actions_view()[29] == action),
        Action::SwapPaneUp => assert(all_actions_view()[30] == action),
        Action::SwapPaneDown => assert(all_actions_view()[31] == action),
        Action::ResizeLeft => assert(all_actions_view()[32] == action),
        Action::ResizeRight => assert(all_actions_view()[33] == action),
        Action::ResizeUp => assert(all_actions_view()[34] == action),
        Action::ResizeDown => assert(all_actions_view()[35] == action),
        Action::TogglePaneZoom => assert(all_actions_view()[36] == action),
        Action::Copy => assert(all_actions_view()[37] == action),
        Action::Paste => assert(all_actions_view()[38] == action),
        Action::Search => assert(all_actions_view()[39] == action),
        Action::ThemeDark => assert(all_actions_view()[40] == action),
        Action::ThemeLight => assert(all_actions_view()[41] == action),
    }
}

proof fn lemma_find_action_finds(actions: Seq<Action>, action: Action)
    requires
        actions.contains(action),
    ensures
        find_action(actions, action_key(action)) == Some(action),
    decreases actions.len(),
{
    if action_key(actions[0]) == action_key(action) {
        lemma_action_key_injective(actions[0], action);
    } else {
        let k = choose|k: int| 0 <= k < actions.len() && actions[k] == action;
        assert(actions.drop_first()[k - 1] == action);
        lemma_find_action_finds(actions.drop_first(), action);
    }
}

/// Every action parses back from the name it is shown under.
pub proof fn lemma_name_parses_back(action: Action)
    ensures
        parse_action(action_name(action)) == Some(action),
{
    lemma_name_normalizes_to_key(action);
    lemma_all_actions_listed(action);
    lemma_find_action_finds(all_actions_view(), action);
}

/// The tab that a `SelectTab` action selects, counted from zero.
pub open spec fn tab_index_of(action: Action) -> Option<usize> {
    match action {
        Action::SelectTab1 => Some(0usize),
        Action::SelectTab2 => Some(1usize),
        Action::SelectTab3 => Some(2usize),
        Action::SelectTab4 => Some(3usize),
        Action::SelectTab5 => Some(4usize),
        Action::SelectTab6 => Some(5usize),
        Action::SelectTab7 => Some(6usize),
        Action::SelectTab8 => Some(7usize),
        Action::SelectTab9 => Some(8usize),
        _ => None,
    }
}

/// Every action, in declaration order.
pub fn all_actions() -> (actions: Vec<Action>)
    ensures
        forall|action: Action| actions@.contains(action),
        actions@ == all_actions_view(),
{
    let actions = vec![
        Action::ToggleCommandPalette,
        Action::NewTab,
        Action::TogglePinTab,
        Action::Close,
        Action::CloseTab,
        Action::NextTab,
        Action::PreviousTab,
        Action::MoveTabLeft,
        Action::MoveTabRight,
        Action::RenameTab,
        Action::DuplicateTab,
        Action::RestoreTab,
        Action::SelectTab1,
        Action::SelectTab2,
        Action::SelectTab3,
        Action::SelectTab4,
        Action::SelectTab5,
        Action::SelectTab6,
        Action::SelectTab7,
        Action::SelectTab8,
        Action::SelectTab9,
        Action::SplitHorizontal,
        Action::SplitVertical,
        Action::ClosePane,
        Action::FocusLeft,
        Action::FocusRight,
        Action::FocusUp,
        Action::FocusDown,
        Action::SwapPaneLeft,
        Action::SwapPaneRight,
        Action::SwapPaneUp,
        Action::SwapPaneDown,
        Action::ResizeLeft,
        Action::ResizeRight,
        Action::ResizeUp,
        Action::ResizeDown,
        Action::TogglePaneZoom,
        Action::Copy,
        Action::Paste,
        Action::Search,
        Action::ThemeDark,
        Action::ThemeLight,
    ];
    proof {
        assert(actions@ =~= all_actions_view());
        assert forall|action: Action| actions@.contains(action) by {
            lemma_all_actions_listed(action);
        }
    }
    actions
}

impl Action {
    /// The lowercase name an action is parsed from.
    fn key(self) -> (key: &'static str)
        ensures
            key@ == action_key(self),
    {
        match self {
            Action::ToggleCommandPalette => "togglecommandpalette",
            Action::NewTab => "newtab",
            Action::TogglePinTab => "togglepintab",
            Action::Close => "close",
            Action::CloseTab => "closetab",
            Action::NextTab => "nexttab",
            Action::PreviousTab => "previoustab",
            Action::MoveTabLeft => "movetableft",
            Action::MoveTabRight => "movetabright",
            Action::RenameTab => "renametab",
            Action::DuplicateTab => "duplicatetab",
            Action::RestoreTab => "restoretab",
            Action::SelectTab1 => "selecttab1",
            Action::SelectTab2 => "selecttab2",
            Action::SelectTab3 => "selecttab3",
            Action::SelectTab4 => "selecttab4",
            Action::SelectTab5 => "selecttab5",
            Action::SelectTab6 => "selecttab6",
            Action::SelectTab7 => "selecttab7",
            Action::SelectTab8 => "selecttab8",
            Action::SelectTab9 => "selecttab9",
            Action::SplitHorizontal => "splithorizontal",
            Action::SplitVertical => "splitvertical",
            Action::ClosePane => "closepane",
            Action::FocusLeft => "focusleft",
            Action::FocusRight => "focusright",
            Action::FocusUp => "focusup",
            Action::FocusDown => "focusdown",
            Action::SwapPaneLeft => "swappaneleft",
            Action::SwapPaneRight => "swappaneright",
            Action::SwapPaneUp => "swappaneup",
            Action::SwapPaneDown => "swappanedown",
            Action::ResizeLeft => "resizeleft",
            Action::ResizeRight => "resizeright",
            Action::ResizeUp => "resizeup",
            Action::ResizeDown => "resizedown",
            Action::TogglePaneZoom => "togglepanezoom",
            Action::Copy => "copy",
            Action::Paste => "paste",
            Action::Search => "search",
            Action::ThemeDark => "themedark",
            Action::ThemeLight => "themelight",
        }
    }

    /// The variant name of the action, as it is shown in menus.
    pub fn name(self) -> (name: &'static str)
        ensures
            name@ == action_name(self),
    {
        match self {
            Action::ToggleCommandPalette => "ToggleCommandPalette",
            Action::NewTab => "NewTab",
            Action::TogglePinTab => "TogglePinTab",
            Action::Close => "Close",
            Action::CloseTab => "CloseTab",
            Action::NextTab => "NextTab",
            Action::PreviousTab => "PreviousTab",
            Action::MoveTabLeft => "MoveTabLeft",
            Action::MoveTabRight => "MoveTabRight",
            Action::RenameTab => "RenameTab",
            Action::DuplicateTab => "DuplicateTab",
            Action::RestoreTab => "RestoreTab",
            Action::SelectTab1 => "SelectTab1",
            Action::SelectTab2 => "SelectTab2",
            Action::SelectTab3 => "SelectTab3",
            Action::SelectTab4 => "SelectTab4",
            Action::SelectTab5 => "SelectTab5",
            Action::SelectTab6 => "SelectTab6",
            Action::SelectTab7 => "SelectTab7",
            Action::SelectTab8 => "SelectTab8",
            Action::SelectTab9 => "SelectTab9",
            Action::SplitHorizontal => "SplitHorizontal",
            Action::SplitVertical => "SplitVertical",
            Action::ClosePane => "ClosePane",
            Action::FocusLeft => "FocusLeft",
            Action::FocusRight => "FocusRight",
            Action::FocusUp => "FocusUp",
            Action::FocusDown => "FocusDown",
            Action::SwapPaneLeft => "SwapPaneLeft",
            Action::SwapPaneRight => "SwapPaneRight",
            Action::SwapPaneUp => "SwapPaneUp",
            Action::SwapPaneDown => "SwapPaneDown",
            Action::ResizeLeft => "ResizeLeft",
            Action::ResizeRight => "ResizeRight",
            Action::ResizeUp => "ResizeUp",
            Action::ResizeDown => "ResizeDown",
            Action::TogglePaneZoom => "TogglePaneZoom",
            Action::Copy => "Copy",
            Action::Paste => "Paste",
            Action::Search => "Search",
            Action::ThemeDark => "ThemeDark",
            Action::ThemeLight => "ThemeLight",
        }
    }

    /// Parses a configured action name, ignoring case, `_`, `-` and whitespace.
    pub fn parse(value: &str) -> (parsed: Option<Action>)
        ensures
            parsed == parse_action(value@),
            match parsed {
                Some(action) => action_key(action) == normalize_action_name(value@),
                None => forall|action: Action| action_key(action) != normalize_action_name(value@),
            },
    {
        let characters = chars_of(value);
        let mut normalized: Vec<char> = Vec::new();
        let mut index: usize = 0;
        while index < characters.len()
            invariant
                index <= characters@.len(),
                characters@ == value@,
                normalized@ == normalize_action_name(characters@.take(index as int)),
            decreases characters@.len() - index,
        {
            let c = characters[index];
            proof {
                assert(characters@.take(index + 1).drop_last() =~= characters@.take(index as int));
            }
            if c != '_' && c != '-' && !char_is_whitespace(c) {
                let mut lower = lowercase_of(c);
                normalized.append(&mut lower);
            }
            index += 1;
        }
        proof {
            assert(characters@.take(characters@.len() as int) =~= characters@);
        }
        let actions = all_actions();
        let mut position: usize = 0;
        proof {
            assert(actions@.skip(0) =~= actions@);
        }
        while position < actions.len()
            invariant
                position <= actions@.len(),
                normalized@ == normalize_action_name(value@),
                forall|action: Action| actions@.contains(action),
                actions@ == all_actions_view(),
                parse_action(value@) == find_action(actions@.skip(position as int), normalized@),
                forall|k: int| 0 <= k < position ==> action_key(#[trigger] actions@[k]) != normalized@,
            decreases actions@.len() - position,
        {
            let action = actions[position];
            proof {
                assert(actions@.skip(position as int).drop_first() =~= actions@.skip(position + 1));
            }
            if str_equals(action.key(), &normalized) {
                return Some(action);
            }
            position += 1;
        }
        proof {
            assert forall|action: Action| action_key(action) != normalize_action_name(value@) by {
                assert(actions@.contains(action));
                let k = choose|k: int| 0 <= k < actions@.len() && actions@[k] == action;
                assert(action_key(actions@[k]) != normalized@);
            }
        }
        None
    }

    /// The tab a `SelectTab` action selects, counted from zero.
    pub fn tab_index(self) -> (index: Option<usize>)
        ensures
            index == tab_index_of(self),
    {
        match self {
            Action::SelectTab1 => Some(0),
            Action::SelectTab2 => Some(1),
            Action::SelectTab3 => Some(2),
            Action::SelectTab4 => Some(3),
            Action::SelectTab5 => Some(4),
            Action::SelectTab6 => Some(5),
            Action::SelectTab7 => Some(6),
            Action::SelectTab8 => Some(7),
            Action::SelectTab9 => Some(8),
            _ => None,
        }
    }
}


/// An entry of the command palette.
#[derive(Clone, Copy, Debug, PartialEq, Eq)]
pub struct ActionInfo {
    pub id: &'static str,
    pub title: &'static str,
    pub category: &'static str,
    pub keywords: &'static str,
    pub action: Action,
}

/// The entries of the command palette, in their listed order.
pub open spec fn registry_view() -> Seq<ActionInfo> {
    seq![
        ActionInfo {
            id: "terminal.new_tab",
            title: "New Tab",
            category: "Terminal",
            keywords: "new terminal create",
            action: Action::NewTab,
        },
        ActionInfo {
            id: "terminal.close",
            title: "Close",
            category: "Terminal",
            keywords: "close terminal",
            action: Action::Close,
        },
        ActionInfo {
            id: "terminal.duplicate_tab",
            title: "Duplicate Tab",
            category: "Terminal",
            keywords: "copy clone terminal",
            action: Action::DuplicateTab,
        },
        ActionInfo {
            id: "terminal.restore_closed_tab",
            title: "Restore Closed Tab",
            category: "Terminal",
            keywords: "restore reopen undo",
            action: Action::RestoreTab,
        },
        ActionInfo {
            id: "terminal.rename_tab",
            title: "Rename Tab",
            category: "Terminal",
            keywords: "rename title",
            action: Action::RenameTab,
        },
        ActionInfo {
            id: "pane.split_right",
            title: "Split Right",
            category: "Pane",
            keywords: "split vertical right",
            action: Action::SplitVertical,
        },
        ActionInfo {
            id: "pane.split_down",
            title: "Split Down",
            category: "Pane",
            keywords: "split horizontal down",
            action: Action::SplitHorizontal,
        },
        ActionInfo {
            id: "pane.zoom",
            title: "Zoom Pane",
            category: "Pane",
            keywords: "zoom maximize",
            action: Action::TogglePaneZoom,
        },
        ActionInfo {
            id: "pane.focus_left",
            title: "Focus Left",
            category: "Pane",
            keywords: "focus pane left",
            action: Action::FocusLeft,
        },
        ActionInfo {
            id: "pane.focus_right",
            title: "Focus Right",
            category: "Pane",
            keywords: "focus pane right",
            action: Action::FocusRight,
        },
        ActionInfo {
            id: "pane.focus_up",
            title: "Focus Up",
            category: "Pane",
            keywords: "focus pane up",
            action: Action::FocusUp,
        },
        ActionInfo {
            id: "pane.focus_down",
            title: "Focus Down",
            category: "Pane",
            keywords: "focus pane down",
            action: Action::FocusDown,
        },
        ActionInfo {
            id: "pane.swap_left",
            title: "Swap Left",
            category: "Pane",
            keywords: "swap pane left",
            action: Action::SwapPaneLeft,
        },
        ActionInfo {
            id: "pane.swap_right",
            title: "Swap Right",
            category: "Pane",
            keywords: "swap pane right",
            action: Action::SwapPaneRight,
        },
        ActionInfo {
            id: "pane.swap_up",
            title: "Swap Up",
            category: "Pane",
            keywords: "swap pane up",
            action: Action::SwapPaneUp,
        },
        ActionInfo {
            id: "pane.swap_down",
            title: "Swap Down",
            category: "Pane",
            keywords: "swap pane down",
            action: Action::SwapPaneDown,
        },
        ActionInfo {
            id: "view.search",
            title: "Search",
            category: "View",
            keywords: "find scrollback",
            action: Action::Search,
        },
    ]
}

/// The entries of the command palette.
pub fn action_registry() -> (registry: Vec<ActionInfo>)
    ensures
        registry@ == registry_view(),
{
    let registry = vec![
        ActionInfo {
            id: "terminal.new_tab",
            title: "New Tab",
            category: "Terminal",
            keywords: "new terminal create",
            action: Action::NewTab,
        },
        ActionInfo {
            id: "terminal.close",
            title: "Close",
            category: "Terminal",
            keywords: "close terminal",
            action: Action::Close,
        },
        ActionInfo {
            id: "terminal.duplicate_tab",
            title: "Duplicate Tab",
            category: "Terminal",
            keywords: "copy clone terminal",
            action: Action::DuplicateTab,
        },
        ActionInfo {
            id: "terminal.restore_closed_tab",
            title: "Restore Closed Tab",
            category: "Terminal",
            keywords: "restore reopen undo",
            action: Action::RestoreTab,
        },
        ActionInfo {
            id: "terminal.rename_tab",
            title: "Rename Tab",
            category: "Terminal",
            keywords: "rename title",
            action: Action::RenameTab,
        },
        ActionInfo {
            id: "pane.split_right",
            title: "Split Right",
            category: "Pane",
            keywords: "split vertical right",
            action: Action::SplitVertical,
        },
        ActionInfo {
            id: "pane.split_down",
            title: "Split Down",
            category: "Pane",
            keywords: "split horizontal down",
            action: Action::SplitHorizontal,
        },
        ActionInfo {
            id: "pane.zoom",
            title: "Zoom Pane",
            category: "Pane",
            keywords: "zoom maximize",
            action: Action::TogglePaneZoom,
        },
        ActionInfo {
            id: "pane.focus_left",
            title: "Focus Left",
            category: "Pane",
            keywords: "focus pane left",
            action: Action::FocusLeft,
        },
        ActionInfo {
            id: "pane.focus_right",
            title: "Focus Right",
            category: "Pane",
            keywords: "focus pane right",
            action: Action::FocusRight,
        },
        ActionInfo {
            id: "pane.focus_up",
            title: "Focus Up",
            category: "Pane",
            keywords: "focus pane up",
            action: Action::FocusUp,
        },
        ActionInfo {
            id: "pane.focus_down",
            title: "Focus Down",
            category: "Pane",
            keywords: "focus pane down",
            action: Action::FocusDown,
        },
        ActionInfo {
            id: "pane.swap_left",
            title: "Swap Left",
            category: "Pane",
            keywords: "swap pane left",
            action: Action::SwapPaneLeft,
        },
        ActionInfo {
            id: "pane.swap_right",
            title: "Swap Right",
            category: "Pane",
            keywords: "swap pane right",
            action: Action::SwapPaneRight,
        },
        ActionInfo {
            id: "pane.swap_up",
            title: "Swap Up",
            category: "Pane",
            keywords: "swap pane up",
            action: Action::SwapPaneUp,
        },
        ActionInfo {
            id: "pane.swap_down",
            title: "Swap Down",
            category: "Pane",
            keywords: "swap pane down",
            action: Action::SwapPaneDown,
        },
        ActionInfo {
            id: "view.search",
            title: "Search",
            category: "View",
            keywords: "find scrollback",
            action: Action::Search,
        },
    ];
    proof {
        assert(registry@ =~= registry_view());
    }
    registry
}

/// The palette query as it is matched: trimmed and in ASCII lowercase.
pub open spec fn palette_query(query: Seq<char>) -> Seq<char> {
    ascii_lower_seq(trim(query))
}

/// Whether the characters of `query` occur in `text` in order, each matched to the first
/// unused occurrence.
pub open spec fn ordered_subsequence_of(text: Seq<char>, query: Seq<char>) -> bool
    decreases text.len(),
{
    if query.len() == 0 {
        true
    } else if text.len() == 0 {
        false
    } else if text[0] == query[0] {
        ordered_subsequence_of(text.drop_first(), query.drop_first())
    } else {
        ordered_subsequence_of(text.drop_first(), query)
    }
}

/// How well an entry matches a non-empty query, best first: `0` the title itself, `1` a prefix
/// of it, `2` a part of it, `3` its characters in order, `4` a part of the keywords, `5` a part
/// of the category; `None` no match.
pub open spec fn match_rank(info: ActionInfo, query: Seq<char>) -> Option<nat> {
    let title = ascii_lower_seq(info.title@);
    if title == query {
        Some(0)
    } else if has_prefix(title, query) {
        Some(1)
    } else if contains_run(title, query) {
        Some(2)
    } else if ordered_subsequence_of(title, query) {
        Some(3)
    } else if contains_run(ascii_lower_seq(info.keywords@), query) {
        Some(4)
    } else if contains_run(ascii_lower_seq(info.category@), query) {
        Some(5)
    } else {
        None
    }
}

pub open spec fn rank_score(info: ActionInfo, query: Seq<char>) -> nat {
    match match_rank(info, query) {
        Some(score) => score,
        None => 6,
    }
}

/// Whether `first` may be listed before `second`: by rank, then by title.
pub open spec fn ranked_no_later(first: ActionInfo, second: ActionInfo, query: Seq<char>) -> bool {
    rank_score(first, query) < rank_score(second, query) || (rank_score(first, query)
        == rank_score(second, query) && !seq_less(second.title@, first.title@))
}

pub open spec fn matches_query(query: Seq<char>) -> spec_fn(ActionInfo) -> bool {
    |info: ActionInfo| match_rank(info, query) is Some
}

/// Where an entry goes among entries already in rank order: after the last one that may
/// precede it.
pub open spec fn rank_insert_position(sorted: Seq<ActionInfo>, info: ActionInfo, query: Seq<char>) -> nat
    decreases sorted.len(),
{
    if sorted.len() == 0 || ranked_no_later(sorted.last(), info, query) {
        sorted.len()
    } else {
        rank_insert_position(sorted.drop_last(), info, query)
    }
}

/// The entries of `entries` that match `query`, in rank order, ties in their listed order.
pub open spec fn ranked_entries(entries: Seq<ActionInfo>, query: Seq<char>) -> Seq<ActionInfo>
    decreases entries.len(),
{
    if entries.len() == 0 {
        Seq::empty()
    } else {
        let ranked = ranked_entries(entries.drop_last(), query);
        if match_rank(entries.last(), query) is Some {
            ranked.insert(rank_insert_position(ranked, entries.last(), query) as int, entries.last())
        } else {
            ranked
        }
    }
}

/// The palette entries for a query: all of them for a blank query, else the matching ones in
/// rank order.
pub open spec fn ranked_matches(query: Seq<char>) -> Seq<ActionInfo> {
    if palette_query(query).len() == 0 {
        registry_view()
    } else {
        ranked_entries(registry_view(), palette_query(query))
    }
}

pub proof fn lemma_rank_insert_position_bound(sorted: Seq<ActionInfo>, info: ActionInfo, query: Seq<char>)
    ensures
        rank_insert_position(sorted, info, query) <= sorted.len(),
    decreases sorted.len(),
{
    if sorted.len() > 0 {
        lemma_rank_insert_position_bound(sorted.drop_last(), info, query);
    }
}

proof fn lemma_ranking_is_total_preorder(a: ActionInfo, b: ActionInfo, c: ActionInfo, query: Seq<char>)
    ensures
        ranked_no_later(a, b, query) || ranked_no_later(b, a, query),
        ranked_no_later(a, b, query) && ranked_no_later(b, c, query) ==> ranked_no_later(a, c, query),
{
    lemma_seq_less_total(a.title@, b.title@);
    lemma_seq_less_total(b.title@, c.title@);
    lemma_seq_less_total(a.title@, c.title@);
    if seq_less(c.title@, a.title@) && !seq_less(b.title@, a.title@) && !seq_less(c.title@, b.title@) {
        if a.title@ != b.title@ {
            lemma_seq_less_transitive(c.title@, a.title@, b.title@);
        }
    }
}

/// Whether the characters of `query` occur in `text` in order.
fn ordered_subsequence(text: &Vec<char>, query: &Vec<char>) -> (found: bool)
    ensures
        found == ordered_subsequence_of(text@, query@),
{
    let mut position: usize = 0;
    let mut matched: usize = 0;
    proof {
        assert(text@.skip(0) =~= text@);
        assert(query@.skip(0) =~= query@);
    }
    while matched < query.len() && position < text.len()
        invariant
            position <= text@.len(),
            matched <= query@.len(),
            ordered_subsequence_of(text@, query@) == ordered_subsequence_of(
                text@.skip(position as int),
                query@.skip(matched as int),
            ),
        decreases text@.len() - position,
    {
        proof {
            assert(text@.skip(position as int).drop_first() =~= text@.skip(position + 1));
            assert(query@.skip(matched as int).drop_first() =~= query@.skip(matched + 1));
        }
        if text[position] == query[matched] {
            matched += 1;
        }
        position += 1;
    }
    matched == query.len()
}

/// The rank of an entry for a non-empty, lowercased query.
fn rank_of(info: &ActionInfo, query: &Vec<char>) -> (rank: Option<u8>)
    ensures
        match rank {
            Some(score) => match_rank(*info, query@) == Some(score as nat),
            None => match_rank(*info, query@) is None,
        },
{
    let title = ascii_lowercase_chars(&chars_of(info.title));
    if chars_equal(&title, query) {
        Some(0)
    } else if starts_with_chars(&title, query) {
        Some(1)
    } else if contains_chars(&title, query) {
        Some(2)
    } else if ordered_subsequence(&title, query) {
        Some(3)
    } else if contains_chars(&ascii_lowercase_chars(&chars_of(info.keywords)), query) {
        Some(4)
    } else if contains_chars(&ascii_lowercase_chars(&chars_of(info.category)), query) {
        Some(5)
    } else {
        None
    }
}

/// Whether `first` must be listed after `second`.
fn ranked_after(first: &ActionInfo, first_rank: u8, second: &ActionInfo, second_rank: u8, query: Ghost<Seq<char>>) -> (after: bool)
    requires
        match_rank(*first, query@) == Some(first_rank as nat),
        match_rank(*second, query@) == Some(second_rank as nat),
    ensures
        after == !ranked_no_later(*first, *second, query@),
{
    if first_rank != second_rank {
        first_rank > second_rank
    } else {
        chars_less(&chars_of(second.title), &chars_of(first.title))
    }
}

/// The entries that match `query`, best first; all of them for a blank query.
pub fn match_actions(query: &str) -> (matches: Vec<ActionInfo>)
    ensures
        matches@ == ranked_matches(query@),
        palette_query(query@).len() == 0 ==> matches@ == registry_view(),
        palette_query(query@).len() > 0 ==> matches@.to_multiset() == registry_view().filter(
            matches_query(palette_query(query@)),
        ).to_multiset(),
        palette_query(query@).len() > 0 ==> forall|i: int, j: int|
            0 <= i < j < matches@.len() ==> ranked_no_later(
                #[trigger] matches@[i],
                #[trigger] matches@[j],
                palette_query(query@),
            ),
{
    let lowered = ascii_lowercase_chars(&trim_chars(&chars_of(query)));
    let registry = action_registry();
    if lowered.len() == 0 {
        return registry;
    }
    let ghost wanted = lowered@;
    let ghost keep = matches_query(wanted);
    let mut matches: Vec<ActionInfo> = Vec::new();
    let mut ranks: Vec<u8> = Vec::new();
    let mut index: usize = 0;
    proof {
        let empty = registry@.take(0);
        empty.lemma_filter_len(keep);
        assert(empty.filter(keep) =~= matches@);
        assert(ranked_entries(empty, wanted) =~= matches@);
    }
    while index < registry.len()
        invariant
            index <= registry@.len(),
            wanted == lowered@,
            keep == matches_query(wanted),
            registry@ == registry_view(),
            matches@.len() == ranks@.len(),
            forall|k: int| 0 <= k < matches@.len() ==> match_rank(#[trigger] matches@[k], wanted) == Some(ranks@[k] as nat),
            matches@.to_multiset() == registry@.take(index as int).filter(keep).to_multiset(),
            matches@ == ranked_entries(registry@.take(index as int), wanted),
            forall|i: int, j: int|
                0 <= i < j < matches@.len() ==> ranked_no_later(
                    #[trigger] matches@[i],
                    #[trigger] matches@[j],
                    wanted,
                ),
        decreases registry@.len() - index,
    {
        let info = registry[index];
        proof {
            assert(registry@.take(index + 1) =~= registry@.take(index as int).push(info));
            assert(registry@.take(index + 1).drop_last() =~= registry@.take(index as int));
            registry@.take(index as int).lemma_filter_push(info, keep);
        }
        match rank_of(&info, &lowered) {
            Some(rank) => {
                let ghost current = matches@;
                let mut position: usize = matches.len();
                proof {
                    assert(current.take(current.len() as int) =~= current);
                }
                while position > 0 && ranked_after(&matches[position - 1], ranks[position - 1], &info, rank, Ghost(wanted))
                    invariant
                        position <= matches@.len(),
                        matches@.len() == ranks@.len(),
                        match_rank(info, wanted) == Some(rank as nat),
                        forall|k: int| 0 <= k < matches@.len() ==> match_rank(#[trigger] matches@[k], wanted) == Some(ranks@[k] as nat),
                        forall|k: int| position <= k < matches@.len() ==> !ranked_no_later(#[trigger] matches@[k], info, wanted),
                        matches@ == current,
                        rank_insert_position(current, info, wanted) == rank_insert_position(current.take(position as int), info, wanted),
                    decreases position,
                {
                    proof {
                        assert(current.take(position as int).drop_last() =~= current.take(position - 1));
                    }
                    position -= 1;
                }
                proof {
                    assert(rank_insert_position(current, info, wanted) == position);
                }
                proof {
                    let old_matches = matches@;
                    assert forall|i: int, j: int|
                        0 <= i < j < old_matches.len() + 1 implies ranked_no_later(
                            #[trigger] old_matches.insert(position as int, info)[i],
                            #[trigger] old_matches.insert(position as int, info)[j],
                            wanted,
                        ) by {
                        let updated = old_matches.insert(position as int, info);
                        if i < position && j == position {
                            lemma_ranking_is_total_preorder(old_matches[position - 1], info, info, wanted);
                            lemma_ranking_is_total_preorder(old_matches[i], old_matches[position - 1], info, wanted);
                        } else if i == position {
                            lemma_ranking_is_total_preorder(old_matches[j - 1], info, info, wanted);
                        } else if i < position && j > position {
                            assert(updated[i] == old_matches[i]);
                            assert(updated[j] == old_matches[j - 1]);
                        } else if i > position {
                            assert(updated[i] == old_matches[i - 1]);
                            assert(updated[j] == old_matches[j - 1]);
                        }
                    }
                    to_multiset_insert(old_matches, position as int, info);
                    to_multiset_build(registry@.take(index as int).filter(keep), info);
                }
                matches.insert(position, info);
                ranks.insert(position, rank);
            },
            None => {},
        }
        index += 1;
    }
    proof {
        assert(registry@.take(registry@.len() as int) =~= registry@);
    }
    matches
}


/// A key combination: modifier flags and one key, named in lowercase.
#[derive(Clone, Debug, PartialEq, Eq, Hash)]
pub struct KeyChord {
    pub command: bool,
    pub control: bool,
    pub alt: bool,
    pub shift: bool,
    pub key: String,
}

pub struct KeyChordView {
    pub command: bool,
    pub control: bool,
    pub alt: bool,
    pub shift: bool,
    pub key: Seq<char>,
}

impl View for KeyChord {
    type V = KeyChordView;

    open spec fn view(&self) -> KeyChordView {
        KeyChordView {
            command: self.command,
            control: self.control,
            alt: self.alt,
            shift: self.shift,
            key: self.key@,
        }
    }
}

/// The pieces of `text` between `+` signs (one empty piece for empty text).
pub open spec fn split_plus(text: Seq<char>) -> Seq<Seq<char>>
    decreases text.len(),
{
    if text.len() == 0 {
        seq![Seq::empty()]
    } else {
        let pieces = split_plus(text.drop_last());
        if text.last() == '+' {
            pieces.push(Seq::empty())
        } else {
            pieces.update(pieces.len() - 1, pieces.last().push(text.last()))
        }
    }
}

pub proof fn lemma_split_plus_nonempty(text: Seq<char>)
    ensures
        split_plus(text).len() >= 1,
    decreases text.len(),
{
    if text.len() > 0 {
        lemma_split_plus_nonempty(text.drop_last());
    }
}

/// A key name as chords store it: lowercase, with `leftbracket`, `rightbracket` and `return`
/// written `[`, `]` and `enter`.
pub open spec fn normalized_key(key: Seq<char>) -> Seq<char> {
    let lower = ascii_lower_seq(key);
    if lower == "leftbracket"@ {
        "["@
    } else if lower == "rightbracket"@ {
        "]"@
    } else if lower == "return"@ {
        "enter"@
    } else {
        lower
    }
}

pub open spec fn empty_chord() -> KeyChordView {
    KeyChordView { command: false, control: false, alt: false, shift: false, key: Seq::empty() }
}

/// The chord after one `+`-separated piece; `None` when the piece names a second key.
pub open spec fn apply_chord_piece(chord: KeyChordView, piece: Seq<char>) -> Option<KeyChordView> {
    let token = ascii_lower_seq(trim(piece));
    if token.len() == 0 {
        Some(chord)
    } else if token == "cmd"@ || token == "command"@ || token == "super"@ {
        Some(KeyChordView { command: true, ..chord })
    } else if token == "ctrl"@ || token == "control"@ {
        Some(KeyChordView { control: true, ..chord })
    } else if token == "alt"@ || token == "option"@ {
        Some(KeyChordView { alt: true, ..chord })
    } else if token == "shift"@ {
        Some(KeyChordView { shift: true, ..chord })
    } else if chord.key.len() == 0 {
        Some(KeyChordView { key: normalized_key(token), ..chord })
    } else {
        None
    }
}

/// The chord the pieces describe, read left to right; `None` when they name two keys.
pub open spec fn chord_of_pieces(pieces: Seq<Seq<char>>) -> Option<KeyChordView>
    decreases pieces.len(),
{
    if pieces.len() == 0 {
        Some(empty_chord())
    } else {
        match chord_of_pieces(pieces.drop_last()) {
            Some(chord) => apply_chord_piece(chord, pieces.last()),
            None => None,
        }
    }
}

/// The outcome of parsing a chord such as `cmd+shift+t`, or the error message.
pub open spec fn parse_chord(value: Seq<char>) -> Result<KeyChordView, Seq<char>> {
    match chord_of_pieces(split_plus(value)) {
        None => Err("key chord has more than one key: "@ + value),
        Some(chord) => if chord.key.len() == 0 {
            Err("key chord has no key: "@ + value)
        } else {
            Ok(chord)
        },
    }
}

pub open spec fn pieces_view(pieces: Seq<Vec<char>>) -> Seq<Seq<char>> {
    pieces.map_values(|piece: Vec<char>| piece@)
}

/// The pieces of `characters` between `+` signs.
fn split_on_plus(characters: &Vec<char>) -> (pieces: Vec<Vec<char>>)
    ensures
        pieces_view(pieces@) == split_plus(characters@),
{
    let mut pieces: Vec<Vec<char>> = Vec::new();
    let mut current: Vec<char> = Vec::new();
    let mut index: usize = 0;
    proof {
        assert(characters@.take(0) =~= Seq::<char>::empty());
        assert(pieces_view(pieces@).push(current@) =~= split_plus(characters@.take(0)));
    }
    while index < characters.len()
        invariant
            index <= characters@.len(),
            pieces_view(pieces@).push(current@) == split_plus(characters@.take(index as int)),
        decreases characters@.len() - index,
    {
        let c = characters[index];
        let ghost before = split_plus(characters@.take(index as int));
        proof {
            assert(characters@.take(index + 1).drop_last() =~= characters@.take(index as int));
        }
        if c == '+' {
            let finished = current;
            pieces.push(finished);
            current = Vec::new();
            proof {
                assert(pieces_view(pieces@).push(current@) =~= before.push(Seq::empty()));
            }
        } else {
            current.push(c);
            proof {
                assert(pieces_view(pieces@).push(current@) =~= before.update(
                    before.len() - 1,
                    before.last().push(c),
                ));
            }
        }
        index += 1;
    }
    pieces.push(current);
    proof {
        assert(characters@.take(characters@.len() as int) =~= characters@);
    }
    pieces
}

/// The key name a chord stores for `key`.
fn normalize_key(key: &str) -> (normalized: String)
    ensures
        normalized@ == normalized_key(key@),
{
    let lower = ascii_lowercase_chars(&chars_of(key));
    if str_equals("leftbracket", &lower) {
        string_of("[")
    } else if str_equals("rightbracket", &lower) {
        string_of("]")
    } else if str_equals("return", &lower) {
        string_of("enter")
    } else {
        string_from_chars(&lower)
    }
}

impl KeyChord {
    /// A copy of the chord.
    pub fn duplicate(&self) -> (copy: KeyChord)
        ensures
            copy@ == self@,
    {
        KeyChord {
            command: self.command,
            control: self.control,
            alt: self.alt,
            shift: self.shift,
            key: string_of(self.key.as_str()),
        }
    }

    /// Whether two chords are the same.
    pub fn same_as(&self, other: &KeyChord) -> (same: bool)
        ensures
            same == (self@ == other@),
    {
        let same = self.command == other.command && self.control == other.control && self.alt
            == other.alt && self.shift == other.shift && str_equals(
            self.key.as_str(),
            &chars_of(other.key.as_str()),
        );
        proof {
            if self.command == other.command && self.control == other.control && self.alt
                == other.alt && self.shift == other.shift && self.key@ == other.key@ {
                assert(self@ =~= other@);
            }
        }
        same
    }

    /// Parses a chord such as `cmd+shift+t`: modifiers (`cmd`, `command`, `super`, `ctrl`,
    /// `control`, `alt`, `option`, `shift`) in any case and order, and exactly one key.
    pub fn parse(value: &str) -> (parsed: Result<KeyChord, String>)
        ensures
            match parsed {
                Ok(chord) => parse_chord(value@) == Ok::<KeyChordView, Seq<char>>(chord@),
                Err(message) => parse_chord(value@) == Err::<KeyChordView, Seq<char>>(message@),
            },
    {
        let characters = chars_of(value);
        let pieces = split_on_plus(&characters);
        let mut chord = KeyChord {
            command: false,
            control: false,
            alt: false,
            shift: false,
            key: String::new(),
        };
        let ghost all_pieces = pieces_view(pieces@);
        let mut index: usize = 0;
        proof {
            assert(all_pieces.take(0) =~= Seq::<Seq<char>>::empty());
            assert(chord@ =~= empty_chord());
        }
        while index < pieces.len()
            invariant
                index <= pieces@.len(),
                all_pieces == pieces_view(pieces@),
                all_pieces == split_plus(value@),
                chord_of_pieces(all_pieces.take(index as int)) == Some(chord@),
            decreases pieces@.len() - index,
        {
            proof {
                assert(all_pieces.take(index + 1).drop_last() =~= all_pieces.take(index as int));
                assert(all_pieces[index as int] == pieces@[index as int]@);
            }
            let token = ascii_lowercase_chars(&trim_chars(&pieces[index]));
            if token.len() == 0 {
            } else if str_equals("cmd", &token) || str_equals("command", &token) || str_equals(
                "super",
                &token,
            ) {
                chord.command = true;
            } else if str_equals("ctrl", &token) || str_equals("control", &token) {
                chord.control = true;
            } else if str_equals("alt", &token) || str_equals("option", &token) {
                chord.alt = true;
            } else if str_equals("shift", &token) {
                chord.shift = true;
            } else if chord.key.as_str().unicode_len() == 0 {
                let token_text = string_from_chars(&token);
                chord.key = normalize_key(token_text.as_str());
            } else {
                let mut message = string_of("key chord has more than one key: ");
                append_str(&mut message, value);
                proof {
                    assert(all_pieces.take(pieces@.len() as int) =~= all_pieces);
                    lemma_no_chord_after_failure(all_pieces, index as int);
                }
                return Err(message);
            }
            index += 1;
        }
        proof {
            assert(all_pieces.take(pieces@.len() as int) =~= all_pieces);
        }
        if chord.key.as_str().unicode_len() == 0 {
            let mut message = string_of("key chord has no key: ");
            append_str(&mut message, value);
            return Err(message);
        }
        Ok(chord)
    }
}

/// Once a prefix of the pieces names two keys, so does the whole.
proof fn lemma_no_chord_after_failure(pieces: Seq<Seq<char>>, index: int)
    requires
        0 <= index < pieces.len(),
        chord_of_pieces(pieces.take(index + 1)) is None,
    ensures
        chord_of_pieces(pieces) is None,
    decreases pieces.len() - index,
{
    if index + 1 < pieces.len() {
        assert(pieces.take(index + 2).drop_last() =~= pieces.take(index + 1));
        lemma_no_chord_after_failure(pieces, index + 1);
    } else {
        assert(pieces.take(index + 1) =~= pieces);
    }
}


/// The built-in bindings, as shortcut text and action.
pub open spec fn default_bindings_view() -> Seq<(Seq<char>, Action)> {
    seq![
        ("cmd+t"@, Action::NewTab),
        ("cmd+shift+p"@, Action::ToggleCommandPalette),
        ("cmd+alt+p"@, Action::TogglePinTab),
        ("cmd+w"@, Action::Close),
        ("cmd+shift+w"@, Action::CloseTab),
        ("cmd+shift+["@, Action::PreviousTab),
        ("cmd+shift+]"@, Action::NextTab),
        ("cmd+alt+["@, Action::MoveTabLeft),
        ("cmd+alt+]"@, Action::MoveTabRight),
        ("cmd+shift+r"@, Action::RenameTab),
        ("cmd+shift+t"@, Action::DuplicateTab),
        ("cmd+alt+t"@, Action::RestoreTab),
        ("cmd+d"@, Action::SplitVertical),
        ("cmd+shift+d"@, Action::SplitHorizontal),
        ("cmd+f"@, Action::Search),
        ("cmd+c"@, Action::Copy),
        ("cmd+v"@, Action::Paste),
        ("cmd+alt+left"@, Action::FocusLeft),
        ("cmd+alt+right"@, Action::FocusRight),
        ("cmd+alt+up"@, Action::FocusUp),
        ("cmd+alt+down"@, Action::FocusDown),
        ("cmd+alt+shift+left"@, Action::SwapPaneLeft),
        ("cmd+alt+shift+right"@, Action::SwapPaneRight),
        ("cmd+alt+shift+up"@, Action::SwapPaneUp),
        ("cmd+alt+shift+down"@, Action::SwapPaneDown),
        ("cmd+ctrl+left"@, Action::ResizeLeft),
        ("cmd+ctrl+right"@, Action::ResizeRight),
        ("cmd+ctrl+up"@, Action::ResizeUp),
        ("cmd+ctrl+down"@, Action::ResizeDown),
        ("cmd+shift+enter"@, Action::TogglePaneZoom),
        ("cmd+1"@, Action::SelectTab1),
        ("cmd+2"@, Action::SelectTab2),
        ("cmd+3"@, Action::SelectTab3),
        ("cmd+4"@, Action::SelectTab4),
        ("cmd+5"@, Action::SelectTab5),
        ("cmd+6"@, Action::SelectTab6),
        ("cmd+7"@, Action::SelectTab7),
        ("cmd+8"@, Action::SelectTab8),
        ("cmd+9"@, Action::SelectTab9),
    ]
}

/// The built-in bindings.
fn default_bindings() -> (defaults: Vec<(&'static str, Action)>)
    ensures
        defaults@.len() == default_bindings_view().len(),
        forall|k: int|
            0 <= k < defaults@.len() ==> (#[trigger] defaults@[k]).0@ == default_bindings_view()[k].0
                && defaults@[k].1 == default_bindings_view()[k].1,
{
    let defaults = vec![
        ("cmd+t", Action::NewTab),
        ("cmd+shift+p", Action::ToggleCommandPalette),
        ("cmd+alt+p", Action::TogglePinTab),
        ("cmd+w", Action::Close),
        ("cmd+shift+w", Action::CloseTab),
        ("cmd+shift+[", Action::PreviousTab),
        ("cmd+shift+]", Action::NextTab),
        ("cmd+alt+[", Action::MoveTabLeft),
        ("cmd+alt+]", Action::MoveTabRight),
        ("cmd+shift+r", Action::RenameTab),
        ("cmd+shift+t", Action::DuplicateTab),
        ("cmd+alt+t", Action::RestoreTab),
        ("cmd+d", Action::SplitVertical),
        ("cmd+shift+d", Action::SplitHorizontal),
        ("cmd+f", Action::Search),
        ("cmd+c", Action::Copy),
        ("cmd+v", Action::Paste),
        ("cmd+alt+left", Action::FocusLeft),
        ("cmd+alt+right", Action::FocusRight),
        ("cmd+alt+up", Action::FocusUp),
        ("cmd+alt+down", Action::FocusDown),
        ("cmd+alt+shift+left", Action::SwapPaneLeft),
        ("cmd+alt+shift+right", Action::SwapPaneRight),
        ("cmd+alt+shift+up", Action::SwapPaneUp),
        ("cmd+alt+shift+down", Action::SwapPaneDown),
        ("cmd+ctrl+left", Action::ResizeLeft),
        ("cmd+ctrl+right", Action::ResizeRight),
        ("cmd+ctrl+up", Action::ResizeUp),
        ("cmd+ctrl+down", Action::ResizeDown),
        ("cmd+shift+enter", Action::TogglePaneZoom),
        ("cmd+1", Action::SelectTab1),
        ("cmd+2", Action::SelectTab2),
        ("cmd+3", Action::SelectTab3),
        ("cmd+4", Action::SelectTab4),
        ("cmd+5", Action::SelectTab5),
        ("cmd+6", Action::SelectTab6),
        ("cmd+7", Action::SelectTab7),
        ("cmd+8", Action::SelectTab8),
        ("cmd+9", Action::SelectTab9),
    ];
    defaults
}

/// What a set of bindings holds: the action of each chord, and the messages for overrides that
/// could not be used.
pub struct KeyBindingsView {
    pub bindings: Map<KeyChordView, Action>,
    pub diagnostics: Seq<Seq<char>>,
}

/// The chords of the built-in bindings that parse, each bound to its action.
pub open spec fn default_binding_map(defaults: Seq<(Seq<char>, Action)>) -> Map<KeyChordView, Action>
    decreases defaults.len(),
{
    if defaults.len() == 0 {
        Map::empty()
    } else {
        let bindings = default_binding_map(defaults.drop_last());
        match parse_chord(defaults.last().0) {
            Ok(chord) => bindings.insert(chord, defaults.last().1),
            Err(_) => bindings,
        }
    }
}

/// One override (shortcut text, action name) applied: a valid one rebinds its chord, an invalid
/// one adds a message.
pub open spec fn apply_override(state: KeyBindingsView, shortcut: Seq<char>, name: Seq<char>) -> KeyBindingsView {
    match parse_chord(shortcut) {
        Err(message) => KeyBindingsView { diagnostics: state.diagnostics.push(message), ..state },
        Ok(chord) => match parse_action(name) {
            Some(action) => KeyBindingsView {
                bindings: state.bindings.insert(chord, action),
                ..state
            },
            None => KeyBindingsView {
                diagnostics: state.diagnostics.push("unknown action '"@ + name + "'"@),
                ..state
            },
        },
    }
}

/// The overrides applied in order.
pub open spec fn apply_overrides(state: KeyBindingsView, overrides: Seq<(Seq<char>, Seq<char>)>) -> KeyBindingsView
    decreases overrides.len(),
{
    if overrides.len() == 0 {
        state
    } else {
        let before = apply_overrides(state, overrides.drop_last());
        apply_override(before, overrides.last().0, overrides.last().1)
    }
}

/// Where an override with shortcut `key` goes in a list sorted by shortcut: after every entry
/// whose shortcut is not greater.
pub open spec fn insertion_point(sorted: Seq<(Seq<char>, Seq<char>)>, key: Seq<char>) -> nat
    decreases sorted.len(),
{
    if sorted.len() == 0 || seq_less(key, sorted[0].0) {
        0
    } else {
        1 + insertion_point(sorted.drop_first(), key)
    }
}

/// The overrides sorted by shortcut text; equal shortcuts keep their order.
pub open spec fn sort_by_shortcut(overrides: Seq<(Seq<char>, Seq<char>)>) -> Seq<(Seq<char>, Seq<char>)>
    decreases overrides.len(),
{
    if overrides.len() == 0 {
        Seq::empty()
    } else {
        let sorted = sort_by_shortcut(overrides.drop_last());
        sorted.insert(insertion_point(sorted, overrides.last().0) as int, overrides.last())
    }
}

pub proof fn lemma_insertion_point_bound(sorted: Seq<(Seq<char>, Seq<char>)>, key: Seq<char>)
    ensures
        insertion_point(sorted, key) <= sorted.len(),
    decreases sorted.len(),
{
    if sorted.len() > 0 {
        lemma_insertion_point_bound(sorted.drop_first(), key);
    }
}

pub open spec fn overrides_view(overrides: Seq<(String, String)>) -> Seq<(Seq<char>, Seq<char>)> {
    overrides.map_values(|entry: (String, String)| (entry.0@, entry.1@))
}

/// The bindings built from the defaults and `overrides`, applied in shortcut order.
pub open spec fn bindings_with_overrides(overrides: Seq<(Seq<char>, Seq<char>)>) -> KeyBindingsView {
    apply_overrides(
        KeyBindingsView {
            bindings: default_binding_map(default_bindings_view()),
            diagnostics: Seq::empty(),
        },
        sort_by_shortcut(overrides),
    )
}

pub open spec fn chord_entries(entries: Seq<(KeyChord, Action)>) -> Seq<(KeyChordView, Action)> {
    entries.map_values(|entry: (KeyChord, Action)| (entry.0@, entry.1))
}

/// The map that a list of (chord, action) entries describes, later entries winning.
pub open spec fn entries_map(entries: Seq<(KeyChordView, Action)>) -> Map<KeyChordView, Action>
    decreases entries.len(),
{
    if entries.len() == 0 {
        Map::empty()
    } else {
        entries_map(entries.drop_last()).insert(entries.last().0, entries.last().1)
    }
}

pub open spec fn distinct_chords(entries: Seq<(KeyChordView, Action)>) -> bool {
    forall|i: int, j: int|
        0 <= i < j < entries.len() ==> (#[trigger] entries[i]).0 != (#[trigger] entries[j]).0
}

/// With no chord twice, the map holds exactly the listed chords, each with its action.
proof fn lemma_entries_map(entries: Seq<(KeyChordView, Action)>)
    requires
        distinct_chords(entries),
    ensures
        forall|chord: KeyChordView|
            #[trigger] entries_map(entries).dom().contains(chord) <==> exists|i: int|
                0 <= i < entries.len() && (#[trigger] entries[i]).0 == chord,
        forall|i: int| 0 <= i < entries.len() ==> entries_map(entries)[(#[trigger] entries[i]).0] == entries[i].1,
    decreases entries.len(),
{
    if entries.len() > 0 {
        let rest = entries.drop_last();
        assert(distinct_chords(rest));
        lemma_entries_map(rest);
        assert forall|chord: KeyChordView|
            #[trigger] entries_map(entries).dom().contains(chord) implies exists|i: int|
                0 <= i < entries.len() && (#[trigger] entries[i]).0 == chord by {
            if chord != entries.last().0 {
                assert(entries_map(rest).dom().contains(chord));
                let i = choose|i: int| 0 <= i < rest.len() && (#[trigger] rest[i]).0 == chord;
                assert(entries[i] == rest[i]);
            } else {
                assert(entries[entries.len() - 1].0 == chord);
            }
        }
        assert forall|i: int| 0 <= i < entries.len() implies entries_map(entries)[(#[trigger] entries[i]).0]
            == entries[i].1 by {
            if i < entries.len() - 1 {
                assert(entries[i] == rest[i]);
            }
        }
        assert forall|chord: KeyChordView|
            (exists|i: int| 0 <= i < entries.len() && (#[trigger] entries[i]).0 == chord) implies
                #[trigger] entries_map(entries).dom().contains(chord) by {
            let i = choose|i: int| 0 <= i < entries.len() && (#[trigger] entries[i]).0 == chord;
            if i < entries.len() - 1 {
                assert(rest[i] == entries[i]);
            }
        }
    }
}


/// Whether an override both parses as a chord and names an action.
pub open spec fn override_binds(entry: (Seq<char>, Seq<char>)) -> bool {
    parse_chord(entry.0) is Ok && parse_action(entry.1) is Some
}

/// Whether an override rebinds `chord`.
pub open spec fn override_binds_chord(entry: (Seq<char>, Seq<char>), chord: KeyChordView) -> bool {
    parse_chord(entry.0) == Ok::<KeyChordView, Seq<char>>(chord) && parse_action(entry.1) is Some
}

/// How many overrides are rejected.
pub open spec fn rejected_count(overrides: Seq<(Seq<char>, Seq<char>)>) -> nat
    decreases overrides.len(),
{
    if overrides.len() == 0 {
        0
    } else {
        rejected_count(overrides.drop_last()) + if override_binds(overrides.last()) {
            0nat
        } else {
            1nat
        }
    }
}

/// When the overrides that rebind a chord all name the same action, and one exists, the
/// chord ends up bound to that action.
pub proof fn lemma_agreeing_overrides_decide(
    state: KeyBindingsView,
    overrides: Seq<(Seq<char>, Seq<char>)>,
    chord: KeyChordView,
    action: Action,
)
    requires
        exists|j: int| 0 <= j < overrides.len() && override_binds_chord(#[trigger] overrides[j], chord),
        forall|j: int|
            0 <= j < overrides.len() && override_binds_chord(#[trigger] overrides[j], chord) ==> parse_action(
                overrides[j].1,
            ) == Some(action),
    ensures
        apply_overrides(state, overrides).bindings.dom().contains(chord),
        apply_overrides(state, overrides).bindings[chord] == action,
    decreases overrides.len(),
{
    let last = overrides.last();
    let rest = overrides.drop_last();
    if override_binds_chord(last, chord) {
        assert(override_binds_chord(overrides[overrides.len() - 1], chord));
    } else {
        let j = choose|j: int| 0 <= j < overrides.len() && override_binds_chord(#[trigger] overrides[j], chord);
        assert(j < overrides.len() - 1);
        assert(override_binds_chord(rest[j], chord));
        assert forall|k: int| 0 <= k < rest.len() && override_binds_chord(#[trigger] rest[k], chord) implies parse_action(
            rest[k].1,
        ) == Some(action) by {
            assert(rest[k] == overrides[k]);
        }
        lemma_agreeing_overrides_decide(state, rest, chord, action);
    }
}

/// Overrides never fail the whole: each rejected one adds exactly one message.
pub proof fn lemma_rejected_overrides_become_messages(state: KeyBindingsView, overrides: Seq<(Seq<char>, Seq<char>)>)
    ensures
        apply_overrides(state, overrides).diagnostics.len() == state.diagnostics.len() + rejected_count(overrides),
    decreases overrides.len(),
{
    if overrides.len() > 0 {
        lemma_rejected_overrides_become_messages(state, overrides.drop_last());
    }
}

/// A chord that no override rebinds keeps its binding, or stays unbound.
pub proof fn lemma_untouched_chord_keeps_binding(
    state: KeyBindingsView,
    overrides: Seq<(Seq<char>, Seq<char>)>,
    chord: KeyChordView,
)
    requires
        forall|j: int| 0 <= j < overrides.len() ==> !override_binds_chord(#[trigger] overrides[j], chord),
    ensures
        apply_overrides(state, overrides).bindings.dom().contains(chord) == state.bindings.dom().contains(chord),
        state.bindings.dom().contains(chord) ==> apply_overrides(state, overrides).bindings[chord]
            == state.bindings[chord],
    decreases overrides.len(),
{
    if overrides.len() > 0 {
        let rest = overrides.drop_last();
        assert forall|j: int| 0 <= j < rest.len() implies !override_binds_chord(#[trigger] rest[j], chord) by {
            assert(rest[j] == overrides[j]);
        }
        lemma_untouched_chord_keeps_binding(state, rest, chord);
        assert(!override_binds_chord(overrides[overrides.len() - 1], chord));
        let last = overrides.last();
        match parse_chord(last.0) {
            Ok(bound) => {
                if parse_action(last.1) is Some {
                    assert(bound != chord);
                }
            },
            Err(_) => {},
        }
    }
}


proof fn lemma_rejected_count_insert(entries: Seq<(Seq<char>, Seq<char>)>, place: int, entry: (Seq<char>, Seq<char>))
    requires
        0 <= place <= entries.len(),
    ensures
        rejected_count(entries.insert(place, entry)) == rejected_count(entries) + if override_binds(entry) {
            0nat
        } else {
            1nat
        },
    decreases entries.len(),
{
    if place == entries.len() {
        assert(entries.insert(place, entry) =~= entries.push(entry));
        assert(entries.push(entry).drop_last() =~= entries);
    } else {
        let rest = entries.drop_last();
        lemma_rejected_count_insert(rest, place, entry);
        assert(entries.insert(place, entry).drop_last() =~= rest.insert(place, entry));
        assert(entries.insert(place, entry).last() == entries.last());
    }
}

/// Sorting the overrides does not change how many are rejected, so the bindings carry one
/// message for each rejected override given.
pub proof fn lemma_every_rejected_override_is_reported(overrides: Seq<(Seq<char>, Seq<char>)>)
    ensures
        bindings_with_overrides(overrides).diagnostics.len() == rejected_count(overrides),
{
    lemma_sorting_keeps_rejections(overrides);
    lemma_rejected_overrides_become_messages(
        KeyBindingsView { bindings: default_binding_map(default_bindings_view()), diagnostics: Seq::empty() },
        sort_by_shortcut(overrides),
    );
}

proof fn lemma_sorting_keeps_rejections(overrides: Seq<(Seq<char>, Seq<char>)>)
    ensures
        rejected_count(sort_by_shortcut(overrides)) == rejected_count(overrides),
    decreases overrides.len(),
{
    if overrides.len() > 0 {
        let rest = overrides.drop_last();
        lemma_sorting_keeps_rejections(rest);
        let sorted = sort_by_shortcut(rest);
        lemma_insertion_point_bound(sorted, overrides.last().0);
        lemma_rejected_count_insert(sorted, insertion_point(sorted, overrides.last().0) as int, overrides.last());
    }
}

/// Sorting overrides by shortcut only reorders them.
pub proof fn lemma_sort_by_shortcut_permutes(overrides: Seq<(Seq<char>, Seq<char>)>)
    ensures
        sort_by_shortcut(overrides).to_multiset() == overrides.to_multiset(),
        sort_by_shortcut(overrides).len() == overrides.len(),
    decreases overrides.len(),
{
    if overrides.len() > 0 {
        let rest = overrides.drop_last();
        lemma_sort_by_shortcut_permutes(rest);
        let sorted = sort_by_shortcut(rest);
        lemma_insertion_point_bound(sorted, overrides.last().0);
        to_multiset_insert(sorted, insertion_point(sorted, overrides.last().0) as int, overrides.last());
        to_multiset_build(rest, overrides.last());
        assert(rest.push(overrides.last()) =~= overrides);
        assert(sort_by_shortcut(overrides).to_multiset() =~= overrides.to_multiset());
    } else {
        assert(overrides =~= Seq::<(Seq<char>, Seq<char>)>::empty());
    }
}

/// Whether overrides come by shortcut text, never a greater before a smaller.
pub open spec fn shortcut_sorted(entries: Seq<(Seq<char>, Seq<char>)>) -> bool {
    forall|p: int, q: int| 0 <= p < q < entries.len() ==> !seq_less(#[trigger] entries[q].0, #[trigger] entries[p].0)
}

proof fn lemma_insertion_point_splits(sorted: Seq<(Seq<char>, Seq<char>)>, key: Seq<char>)
    ensures
        insertion_point(sorted, key) <= sorted.len(),
        forall|k: int| 0 <= k < insertion_point(sorted, key) ==> !seq_less(key, #[trigger] sorted[k].0),
        insertion_point(sorted, key) < sorted.len() ==> seq_less(key, sorted[insertion_point(sorted, key) as int].0),
    decreases sorted.len(),
{
    if sorted.len() > 0 && !seq_less(key, sorted[0].0) {
        lemma_insertion_point_splits(sorted.drop_first(), key);
        assert forall|k: int| 0 <= k < insertion_point(sorted, key) implies !seq_less(key, #[trigger] sorted[k].0) by {
            if k > 0 {
                assert(sorted[k] == sorted.drop_first()[k - 1]);
            }
        }
    }
}

/// Sorting puts the overrides in order of their shortcut text.
pub proof fn lemma_sort_by_shortcut_sorts(overrides: Seq<(Seq<char>, Seq<char>)>)
    ensures
        shortcut_sorted(sort_by_shortcut(overrides)),
    decreases overrides.len(),
{
    if overrides.len() > 0 {
        let sorted = sort_by_shortcut(overrides.drop_last());
        lemma_sort_by_shortcut_sorts(overrides.drop_last());
        let entry = overrides.last();
        let place = insertion_point(sorted, entry.0) as int;
        lemma_insertion_point_splits(sorted, entry.0);
        let result = sorted.insert(place, entry);
        sorted.insert_ensures(place, entry);
        assert forall|p: int, q: int| 0 <= p < q < result.len() implies !seq_less(#[trigger] result[q].0, #[trigger] result[p].0) by {
            if p == place {
                let old_q = q - 1;
                assert(result[q] == sorted[old_q]);
                if seq_less(sorted[old_q].0, entry.0) {
                    if old_q == place {
                        lemma_seq_less_transitive(sorted[old_q].0, entry.0, sorted[old_q].0);
                        lemma_seq_less_irreflexive(sorted[old_q].0);
                    } else {
                        lemma_seq_less_transitive(sorted[old_q].0, entry.0, sorted[place].0);
                        assert(!seq_less(sorted[old_q].0, sorted[place].0));
                    }
                }
            } else if q == place {
                assert(result[p] == sorted[p]);
            } else {
                let old_p = if p < place { p } else { p - 1 };
                let old_q = if q < place { q } else { q - 1 };
                assert(result[p] == sorted[old_p]);
                assert(result[q] == sorted[old_q]);
            }
        }
    }
}

/// The override with the greatest shortcut text among those that rebind a chord decides it:
/// later overrides in the configuration, or ones with smaller shortcuts, do not.
pub proof fn lemma_greatest_shortcut_wins(overrides: Seq<(Seq<char>, Seq<char>)>, index: int, chord: KeyChordView)
    requires
        0 <= index < overrides.len(),
        override_binds_chord(overrides[index], chord),
        forall|j: int|
            0 <= j < overrides.len() && j != index && override_binds_chord(#[trigger] overrides[j], chord)
                ==> seq_less(overrides[j].0, overrides[index].0),
    ensures
        bindings_with_overrides(overrides).bindings.dom().contains(chord),
        Some(bindings_with_overrides(overrides).bindings[chord]) == parse_action(overrides[index].1),
{
    let sorted = sort_by_shortcut(overrides);
    lemma_sort_by_shortcut_permutes(overrides);
    lemma_sort_by_shortcut_sorts(overrides);
    let winner = overrides[index];
    assert(overrides.contains(winner));
    to_multiset_contains(overrides, winner);
    to_multiset_contains(sorted, winner);
    assert(sorted.contains(winner));
    let p = lemma_last_occurrence(sorted, winner);
    assert forall|q: int| p < q < sorted.len() implies !override_binds_chord(#[trigger] sorted[q], chord) by {
        if override_binds_chord(sorted[q], chord) {
            assert(sorted.contains(sorted[q]));
            to_multiset_contains(sorted, sorted[q]);
            to_multiset_contains(overrides, sorted[q]);
            let j = choose|j: int| 0 <= j < overrides.len() && overrides[j] == sorted[q];
            assert(j != index);
            assert(seq_less(sorted[q].0, sorted[p].0));
        }
    }
    lemma_last_binding_decides(
        KeyBindingsView { bindings: default_binding_map(default_bindings_view()), diagnostics: Seq::empty() },
        sorted,
        p,
        chord,
    );
}

proof fn lemma_last_occurrence(entries: Seq<(Seq<char>, Seq<char>)>, entry: (Seq<char>, Seq<char>)) -> (place: int)
    requires
        entries.contains(entry),
    ensures
        0 <= place < entries.len(),
        entries[place] == entry,
        forall|q: int| place < q < entries.len() ==> entries[q] != entry,
    decreases entries.len(),
{
    if entries.last() == entry {
        (entries.len() - 1) as int
    } else {
        let k = choose|k: int| 0 <= k < entries.len() && entries[k] == entry;
        assert(entries.drop_last()[k] == entry);
        let place = lemma_last_occurrence(entries.drop_last(), entry);
        assert(entries[place] == entries.drop_last()[place]);
        assert forall|q: int| place < q < entries.len() implies entries[q] != entry by {
            if q < entries.len() - 1 {
                assert(entries[q] == entries.drop_last()[q]);
            }
        }
        place
    }
}

/// The last override that rebinds a chord decides it.
proof fn lemma_last_binding_decides(
    state: KeyBindingsView,
    overrides: Seq<(Seq<char>, Seq<char>)>,
    place: int,
    chord: KeyChordView,
)
    requires
        0 <= place < overrides.len(),
        override_binds_chord(overrides[place], chord),
        forall|q: int| place < q < overrides.len() ==> !override_binds_chord(#[trigger] overrides[q], chord),
    ensures
        apply_overrides(state, overrides).bindings.dom().contains(chord),
        Some(apply_overrides(state, overrides).bindings[chord]) == parse_action(overrides[place].1),
    decreases overrides.len(),
{
    let rest = overrides.drop_last();
    let last = overrides.last();
    if place < overrides.len() - 1 {
        assert(overrides[place] == rest[place]);
        assert forall|q: int| place < q < rest.len() implies !override_binds_chord(#[trigger] rest[q], chord) by {
            assert(rest[q] == overrides[q]);
        }
        lemma_last_binding_decides(state, rest, place, chord);
        assert(!override_binds_chord(overrides[overrides.len() - 1], chord));
        match parse_chord(last.0) {
            Ok(bound) => {
                if parse_action(last.1) is Some {
                    assert(bound != chord);
                }
            },
            Err(_) => {},
        }
    }
}

/// The binding a configuration asks for wins over the built-in one: when the overrides that
/// rebind a chord all name the same action, and one exists, the chord is bound to that action.
pub proof fn lemma_configured_binding_wins(overrides: Seq<(Seq<char>, Seq<char>)>, index: int, chord: KeyChordView, action: Action)
    requires
        0 <= index < overrides.len(),
        override_binds_chord(overrides[index], chord),
        forall|j: int|
            0 <= j < overrides.len() && override_binds_chord(#[trigger] overrides[j], chord) ==> parse_action(
                overrides[j].1,
            ) == Some(action),
    ensures
        bindings_with_overrides(overrides).bindings.dom().contains(chord),
        bindings_with_overrides(overrides).bindings[chord] == action,
{
    let sorted = sort_by_shortcut(overrides);
    lemma_sort_by_shortcut_permutes(overrides);
    assert(overrides.contains(overrides[index]));
    to_multiset_contains(overrides, overrides[index]);
    to_multiset_contains(sorted, overrides[index]);
    assert(sorted.contains(overrides[index]));
    let p = choose|p: int| 0 <= p < sorted.len() && sorted[p] == overrides[index];
    assert(override_binds_chord(sorted[p], chord));
    assert forall|q: int| 0 <= q < sorted.len() && override_binds_chord(#[trigger] sorted[q], chord) implies parse_action(
        sorted[q].1,
    ) == Some(action) by {
        assert(sorted.contains(sorted[q]));
        to_multiset_contains(sorted, sorted[q]);
        to_multiset_contains(overrides, sorted[q]);
        assert(overrides.contains(sorted[q]));
        let j = choose|j: int| 0 <= j < overrides.len() && overrides[j] == sorted[q];
        assert(override_binds_chord(overrides[j], chord));
    }
    lemma_agreeing_overrides_decide(
        KeyBindingsView { bindings: default_binding_map(default_bindings_view()), diagnostics: Seq::empty() },
        sorted,
        chord,
        action,
    );
}

/// Binds `chord` to `action` in a list with no chord twice, replacing an earlier binding.
fn bind(entries: &mut Vec<(KeyChord, Action)>, chord: KeyChord, action: Action)
    requires
        distinct_chords(chord_entries(old(entries)@)),
    ensures
        distinct_chords(chord_entries(final(entries)@)),
        entries_map(chord_entries(final(entries)@)) == entries_map(chord_entries(old(entries)@)).insert(
            chord@,
            action,
        ),
{
    let ghost before = chord_entries(entries@);
    proof {
        lemma_entries_map(before);
    }
    let mut index: usize = 0;
    while index < entries.len()
        invariant
            entries@ == old(entries)@,
            before == chord_entries(entries@),
            distinct_chords(before),
            index <= entries@.len(),
            forall|k: int| 0 <= k < index ==> (#[trigger] before[k]).0 != chord@,
        decreases entries@.len() - index,
    {
        if entries[index].0.same_as(&chord) {
            let ghost chord_view = chord@;
            proof {
                assert(before[index as int].0 == chord_view);
            }
            entries.set(index, (chord, action));
            proof {
                let after = chord_entries(entries@);
                assert(after =~= before.update(index as int, (chord_view, action)));
                assert forall|i: int| 0 <= i < after.len() implies (#[trigger] after[i]).0 == before[i].0 by {}
                assert(distinct_chords(after)) by {
                    assert forall|i: int, j: int| 0 <= i < j < after.len() implies (#[trigger] after[i]).0
                        != (#[trigger] after[j]).0 by {
                        assert(after[i].0 == before[i].0);
                        assert(after[j].0 == before[j].0);
                    }
                }
                lemma_entries_map(after);
                lemma_entries_map(before);
                let wanted = entries_map(before).insert(chord_view, action);
                assert forall|k: KeyChordView| #[trigger] entries_map(after).dom().contains(k) == wanted.dom().contains(k) by {
                    if entries_map(after).dom().contains(k) {
                        let i = choose|i: int| 0 <= i < after.len() && (#[trigger] after[i]).0 == k;
                        assert(before[i].0 == k);
                    }
                    if entries_map(before).dom().contains(k) {
                        let i = choose|i: int| 0 <= i < before.len() && (#[trigger] before[i]).0 == k;
                        assert(after[i].0 == k);
                    }
                    if k == chord_view {
                        assert(after[index as int].0 == k);
                    }
                }
                assert forall|k: KeyChordView| #[trigger] entries_map(after).dom().contains(k) implies entries_map(after)[k] == wanted[k] by {
                    let i = choose|i: int| 0 <= i < after.len() && (#[trigger] after[i]).0 == k;
                    if i != index {
                        assert(before[i].0 == k);
                    }
                }
                assert(entries_map(after) =~= wanted);
            }
            return;
        }
        index += 1;
    }
    let ghost chord_view = chord@;
    entries.push((chord, action));
    proof {
        let after = chord_entries(entries@);
        assert(after =~= before.push((chord_view, action)));
        assert(after.drop_last() =~= before);
        assert(distinct_chords(after));
    }
}

/// Which key chords trigger which actions.
pub struct KeyBindings {
    bindings: Vec<(KeyChord, Action)>,
    diagnostics: Vec<String>,
}

impl View for KeyBindings {
    type V = KeyBindingsView;

    closed spec fn view(&self) -> KeyBindingsView {
        KeyBindingsView {
            bindings: entries_map(chord_entries(self.bindings@)),
            diagnostics: self.diagnostics@.map_values(|message: String| message@),
        }
    }
}

/// The order in which a chord is preferred as an action's shortcut: plain before command,
/// control, alt and shift, in that order of precedence, then by key name.
pub open spec fn chord_less(first: KeyChordView, second: KeyChordView) -> bool {
    if first.command != second.command {
        !first.command
    } else if first.control != second.control {
        !first.control
    } else if first.alt != second.alt {
        !first.alt
    } else if first.shift != second.shift {
        !first.shift
    } else {
        seq_less(first.key, second.key)
    }
}

/// How a flag is written out: `true` or `false`.
pub open spec fn flag_text(flag: bool) -> Seq<char> {
    if flag {
        seq!['t', 'r', 'u', 'e']
    } else {
        seq!['f', 'a', 'l', 's', 'e']
    }
}

/// A chord written out as its flags (command, control, alt, shift) and then its key, the text
/// a chord is ordered by.
pub open spec fn chord_sort_text(chord: KeyChordView) -> Seq<char> {
    flag_text(chord.command) + (flag_text(chord.control) + (flag_text(chord.alt) + (flag_text(chord.shift)
        + chord.key)))
}

proof fn lemma_seq_less_common_prefix(prefix: Seq<char>, left: Seq<char>, right: Seq<char>)
    ensures
        seq_less(prefix + left, prefix + right) == seq_less(left, right),
    decreases prefix.len(),
{
    if prefix.len() > 0 {
        assert((prefix + left).drop_first() =~= prefix.drop_first() + left);
        assert((prefix + right).drop_first() =~= prefix.drop_first() + right);
        lemma_seq_less_common_prefix(prefix.drop_first(), left, right);
    } else {
        assert(prefix + left =~= left);
        assert(prefix + right =~= right);
    }
}

proof fn lemma_flag_then_rest(first: bool, second: bool, left: Seq<char>, right: Seq<char>)
    ensures
        seq_less(flag_text(first) + left, flag_text(second) + right) == (if first != second {
            !first
        } else {
            seq_less(left, right)
        }),
{
    if first != second {
        assert((flag_text(first) + left)[0] == flag_text(first)[0]);
        assert((flag_text(second) + right)[0] == flag_text(second)[0]);
    } else {
        lemma_seq_less_common_prefix(flag_text(first), left, right);
    }
}

/// The order of chords is the order of their written-out text, so the shortcut shown for an
/// action is the bound chord whose text comes first: flags first, `false` before
/// `true`, then the key.
#[verifier::spinoff_prover]
pub proof fn lemma_chord_order_is_text_order(first: KeyChordView, second: KeyChordView)
    ensures
        chord_less(first, second) == seq_less(chord_sort_text(first), chord_sort_text(second)),
{
    let a = first;
    let b = second;
    let a3 = flag_text(a.shift) + a.key;
    let b3 = flag_text(b.shift) + b.key;
    let a2 = flag_text(a.alt) + a3;
    let b2 = flag_text(b.alt) + b3;
    let a1 = flag_text(a.control) + a2;
    let b1 = flag_text(b.control) + b2;
    lemma_flag_then_rest(a.command, b.command, a1, b1);
    lemma_flag_then_rest(a.control, b.control, a2, b2);
    lemma_flag_then_rest(a.alt, b.alt, a3, b3);
    lemma_flag_then_rest(a.shift, b.shift, a.key, b.key);
}

proof fn lemma_chord_order(a: KeyChordView, b: KeyChordView, c: KeyChordView)
    ensures
        a == b || chord_less(a, b) || chord_less(b, a),
        !(chord_less(a, b) && chord_less(b, a)),
        !chord_less(a, a),
        chord_less(a, b) && chord_less(b, c) ==> chord_less(a, c),
{
    lemma_seq_less_total(a.key, b.key);
    lemma_seq_less_irreflexive(a.key);
    if chord_less(a, b) && chord_less(b, c) && a.command == b.command && b.command == c.command
        && a.control == b.control && b.control == c.control && a.alt == b.alt && b.alt == c.alt
        && a.shift == b.shift && b.shift == c.shift {
        lemma_seq_less_transitive(a.key, b.key, c.key);
    }
    if a.command == b.command && a.control == b.control && a.alt == b.alt && a.shift == b.shift
        && a.key == b.key {
        assert(a =~= b);
    }
}

/// How a shortcut is written for the user.
#[derive(Clone, Copy, Debug, PartialEq, Eq, Structural)]
pub enum ShortcutStyle {
    /// Modifier symbols run together, as on macOS: `⌥⇧⌘T`.
    MacOs,
    /// Modifier names joined by `+`: `Ctrl+Alt+Shift+T`.
    Standard,
}

/// The label of a chord in the given style; the command key reads as `Ctrl` in the standard
/// style.
pub open spec fn shortcut_text(chord: KeyChordView, style: ShortcutStyle) -> Seq<char> {
    let key = ascii_upper_seq(chord.key);
    match style {
        ShortcutStyle::MacOs => {
            (if chord.control { seq!['\u{2303}'] } else { Seq::empty() })
                + (if chord.alt { seq!['\u{2325}'] } else { Seq::empty() })
                + (if chord.shift { seq!['\u{21e7}'] } else { Seq::empty() })
                + (if chord.command { seq!['\u{2318}'] } else { Seq::empty() })
                + key
        },
        ShortcutStyle::Standard => {
            (if chord.control || chord.command { "Ctrl+"@ } else { Seq::empty() })
                + (if chord.alt { "Alt+"@ } else { Seq::empty() })
                + (if chord.shift { "Shift+"@ } else { Seq::empty() })
                + key
        },
    }
}

proof fn lemma_char_seq_contains_concat(left: Seq<char>, right: Seq<char>, c: char)
    ensures
        (left + right).contains(c) == (left.contains(c) || right.contains(c)),
{
    if left.contains(c) {
        let i = choose|i: int| 0 <= i < left.len() && left[i] == c;
        assert((left + right)[i] == c);
    }
    if right.contains(c) {
        let i = choose|i: int| 0 <= i < right.len() && right[i] == c;
        assert((left + right)[left.len() + i] == c);
    }
    if (left + right).contains(c) {
        let i = choose|i: int| 0 <= i < (left + right).len() && (left + right)[i] == c;
        if i < left.len() {
            assert(left[i] == c);
        } else {
            assert(right[i - left.len()] == c);
        }
    }
}

proof fn lemma_mark_contains(flag: bool, mark: char, c: char)
    ensures
        (if flag { seq![mark] } else { Seq::<char>::empty() }).contains(c) == (flag && mark == c),
{
    if flag {
        if seq![mark].contains(c) {
            let i = choose|i: int| 0 <= i < 1 && seq![mark][i] == c;
            assert(i == 0);
        }
        if mark == c {
            assert(seq![mark][0] == c);
        }
    }
}

/// How many modifiers a chord holds.
pub open spec fn modifier_count(chord: KeyChordView) -> nat {
    (if chord.control { 1nat } else { 0nat }) + (if chord.alt { 1nat } else { 0nat }) + (if chord.shift {
        1nat
    } else {
        0nat
    }) + (if chord.command { 1nat } else { 0nat })
}

/// In the macOS style a label is one mark for each modifier the chord holds, then the key in
/// uppercase: it shows `⌃` exactly when the chord has Control, `⌥` with Alt, `⇧` with Shift
/// and `⌘` with Command, in that order.
pub proof fn lemma_mac_label_marks_each_modifier(chord: KeyChordView)
    ensures
        ({
            let label = shortcut_text(chord, ShortcutStyle::MacOs);
            let marks = label.take(modifier_count(chord) as int);
            &&& label.len() == modifier_count(chord) + chord.key.len()
            &&& forall|i: int| 0 <= i < chord.key.len() ==> label[modifier_count(chord) + i] == ascii_upper(#[trigger] chord.key[i])
            &&& marks.contains('\u{2303}') == chord.control
            &&& marks.contains('\u{2325}') == chord.alt
            &&& marks.contains('\u{21e7}') == chord.shift
            &&& marks.contains('\u{2318}') == chord.command
            &&& (chord.control ==> label[0] == '\u{2303}')
        }),
{
    let control = if chord.control { seq!['\u{2303}'] } else { Seq::<char>::empty() };
    let alt = if chord.alt { seq!['\u{2325}'] } else { Seq::<char>::empty() };
    let shift = if chord.shift { seq!['\u{21e7}'] } else { Seq::<char>::empty() };
    let command = if chord.command { seq!['\u{2318}'] } else { Seq::<char>::empty() };
    let key = ascii_upper_seq(chord.key);
    let label = shortcut_text(chord, ShortcutStyle::MacOs);
    let marks = control + alt + shift + command;
    assert(label == marks + key);
    assert(marks.len() == modifier_count(chord));
    assert(label.take(modifier_count(chord) as int) =~= marks);
    assert forall|i: int| 0 <= i < chord.key.len() implies label[modifier_count(chord) + i] == ascii_upper(#[trigger] chord.key[i]) by {
        assert(label[marks.len() + i] == key[i]);
    }
    let symbols = seq!['\u{2303}', '\u{2325}', '\u{21e7}', '\u{2318}'];
    assert forall|k: int| 0 <= k < 4 implies #[trigger] marks.contains(symbols[k]) == (if k == 0 {
        chord.control
    } else if k == 1 {
        chord.alt
    } else if k == 2 {
        chord.shift
    } else {
        chord.command
    }) by {
        let c = symbols[k];
        lemma_char_seq_contains_concat(control + alt + shift, command, c);
        lemma_char_seq_contains_concat(control + alt, shift, c);
        lemma_char_seq_contains_concat(control, alt, c);
        lemma_mark_contains(chord.control, '\u{2303}', c);
        lemma_mark_contains(chord.alt, '\u{2325}', c);
        lemma_mark_contains(chord.shift, '\u{21e7}', c);
        lemma_mark_contains(chord.command, '\u{2318}', c);
    }
    assert(marks.contains(symbols[0]) == chord.control);
    assert(marks.contains(symbols[1]) == chord.alt);
    assert(marks.contains(symbols[2]) == chord.shift);
    assert(marks.contains(symbols[3]) == chord.command);
}

/// The label of a chord, such as `Ctrl+Alt+Shift+T`.
pub fn format_shortcut(chord: &KeyChord, style: ShortcutStyle) -> (label: String)
    ensures
        label@ == shortcut_text(chord@, style),
{
    let key = string_from_chars(&ascii_uppercase_chars(&chars_of(chord.key.as_str())));
    let mut label = String::new();
    match style {
        ShortcutStyle::MacOs => {
            if chord.control {
                push_char(&mut label, '\u{2303}');
            }
            let ghost after_control = label@;
            if chord.alt {
                push_char(&mut label, '\u{2325}');
            }
            let ghost after_alt = label@;
            if chord.shift {
                push_char(&mut label, '\u{21e7}');
            }
            let ghost after_shift = label@;
            if chord.command {
                push_char(&mut label, '\u{2318}');
            }
            let ghost after_command = label@;
            append_str(&mut label, key.as_str());
            proof {
                assert(after_control =~= (if chord.control { seq!['\u{2303}'] } else { Seq::empty() }));
                assert(label@ =~= shortcut_text(chord@, style));
            }
        },
        ShortcutStyle::Standard => {
            if chord.control || chord.command {
                append_str(&mut label, "Ctrl+");
            }
            if chord.alt {
                append_str(&mut label, "Alt+");
            }
            if chord.shift {
                append_str(&mut label, "Shift+");
            }
            append_str(&mut label, key.as_str());
            proof {
                assert(label@ =~= shortcut_text(chord@, style));
            }
        },
    }
    label
}

impl KeyBindings {
    #[verifier::type_invariant]
    spec fn no_chord_twice(self) -> bool {
        distinct_chords(chord_entries(self.bindings@))
    }

    /// The built-in bindings with `overrides` (shortcut text, action name) applied in order of
    /// their shortcut text; an override that does not parse becomes a message instead.
    pub fn with_overrides(overrides: &Vec<(String, String)>) -> (bindings: KeyBindings)
        ensures
            bindings@ == bindings_with_overrides(overrides_view(overrides@)),
    {
        let defaults = default_bindings();
        let mut entries: Vec<(KeyChord, Action)> = Vec::new();
        let mut index: usize = 0;
        proof {
            assert(default_bindings_view().take(0) =~= Seq::<(Seq<char>, Action)>::empty());
        }
        while index < defaults.len()
            invariant
                index <= defaults@.len(),
                defaults@.len() == default_bindings_view().len(),
                forall|k: int|
                    0 <= k < defaults@.len() ==> (#[trigger] defaults@[k]).0@ == default_bindings_view()[k].0
                        && defaults@[k].1 == default_bindings_view()[k].1,
                distinct_chords(chord_entries(entries@)),
                entries_map(chord_entries(entries@)) == default_binding_map(
                    default_bindings_view().take(index as int),
                ),
            decreases defaults@.len() - index,
        {
            proof {
                assert(default_bindings_view().take(index + 1).drop_last() =~= default_bindings_view().take(
                    index as int,
                ));
            }
            let (shortcut, action) = defaults[index];
            match KeyChord::parse(shortcut) {
                Ok(chord) => bind(&mut entries, chord, action),
                Err(_) => {},
            }
            index += 1;
        }
        proof {
            assert(default_bindings_view().take(defaults@.len() as int) =~= default_bindings_view());
        }
        let sorted = sort_overrides(overrides);
        let mut diagnostics: Vec<String> = Vec::new();
        let ghost start = KeyBindingsView {
            bindings: default_binding_map(default_bindings_view()),
            diagnostics: Seq::empty(),
        };
        let mut position: usize = 0;
        proof {
            assert(overrides_view(sorted@).take(0) =~= Seq::<(Seq<char>, Seq<char>)>::empty());
            assert(diagnostics@.map_values(|message: String| message@) =~= Seq::<Seq<char>>::empty());
        }
        while position < sorted.len()
            invariant
                position <= sorted@.len(),
                overrides_view(sorted@) == sort_by_shortcut(overrides_view(overrides@)),
                distinct_chords(chord_entries(entries@)),
                apply_overrides(start, overrides_view(sorted@).take(position as int)) == (KeyBindingsView {
                    bindings: entries_map(chord_entries(entries@)),
                    diagnostics: diagnostics@.map_values(|message: String| message@),
                }),
            decreases sorted@.len() - position,
        {
            proof {
                assert(overrides_view(sorted@).take(position + 1).drop_last() =~= overrides_view(
                    sorted@,
                ).take(position as int));
            }
            let shortcut = sorted[position].0.as_str();
            let name = sorted[position].1.as_str();
            let ghost before_messages = diagnostics@;
            match KeyChord::parse(shortcut) {
                Err(message) => {
                    diagnostics.push(message);
                    proof {
                        assert(diagnostics@.map_values(|message: String| message@) =~= before_messages.map_values(
                            |message: String| message@,
                        ).push(message@));
                    }
                },
                Ok(chord) => match Action::parse(name) {
                    Some(action) => bind(&mut entries, chord, action),
                    None => {
                        let mut message = string_of("unknown action '");
                        append_str(&mut message, name);
                        append_str(&mut message, "'");
                        let ghost text = message@;
                        diagnostics.push(message);
                        proof {
                            assert(diagnostics@.map_values(|message: String| message@) =~= before_messages.map_values(
                                |message: String| message@,
                            ).push(text));
                        }
                    },
                },
            }
            position += 1;
        }
        proof {
            assert(overrides_view(sorted@).take(sorted@.len() as int) =~= overrides_view(sorted@));
        }
        KeyBindings { bindings: entries, diagnostics }
    }

    /// The action bound to `chord`.
    pub fn action(&self, chord: &KeyChord) -> (action: Option<Action>)
        ensures
            action == (if self@.bindings.dom().contains(chord@) {
                Some(self@.bindings[chord@])
            } else {
                None
            }),
    {
        proof {
            use_type_invariant(self);
            lemma_entries_map(chord_entries(self.bindings@));
        }
        let ghost entries = chord_entries(self.bindings@);
        let mut index: usize = 0;
        while index < self.bindings.len()
            invariant
                entries == chord_entries(self.bindings@),
                distinct_chords(entries),
                index <= self.bindings@.len(),
                forall|k: int| 0 <= k < index ==> (#[trigger] entries[k]).0 != chord@,
            decreases self.bindings@.len() - index,
        {
            if self.bindings[index].0.same_as(chord) {
                proof {
                    lemma_entries_map(entries);
                    assert(entries[index as int].0 == chord@);
                    assert(entries[index as int].1 == self.bindings@[index as int].1);
                    assert(self@.bindings.dom().contains(chord@));
                }
                return Some(self.bindings[index].1);
            }
            index += 1;
        }
        None
    }

    /// The messages for overrides that could not be used, in the order they were applied.
    pub fn diagnostics(&self) -> (messages: &[String])
        ensures
            messages@.map_values(|message: String| message@) == self@.diagnostics,
    {
        self.diagnostics.as_slice()
    }

    /// The chord shown for `action`: the first in `chord_less` order of those bound to it.
    pub fn shortcut(&self, action: Action) -> (found: Option<KeyChord>)
        ensures
            match found {
                Some(chord) => self@.bindings.dom().contains(chord@) && self@.bindings[chord@] == action
                    && forall|other: KeyChordView|
                    #[trigger] self@.bindings.dom().contains(other) && self@.bindings[other] == action
                        && other != chord@ ==> chord_less(chord@, other) && seq_less(
                        chord_sort_text(chord@),
                        chord_sort_text(other),
                    ),
                None => forall|other: KeyChordView|
                    #[trigger] self@.bindings.dom().contains(other) ==> self@.bindings[other] != action,
            },
    {
        proof {
            use_type_invariant(self);
            lemma_entries_map(chord_entries(self.bindings@));
        }
        let ghost entries = chord_entries(self.bindings@);
        let mut best: Option<usize> = None;
        let mut index: usize = 0;
        while index < self.bindings.len()
            invariant
                entries == chord_entries(self.bindings@),
                distinct_chords(entries),
                index <= self.bindings@.len(),
                match best {
                    Some(b) => b < index && entries[b as int].1 == action && forall|k: int|
                        0 <= k < index && (#[trigger] entries[k]).1 == action && k != b ==> chord_less(
                            entries[b as int].0,
                            entries[k].0,
                        ),
                    None => forall|k: int| 0 <= k < index ==> (#[trigger] entries[k]).1 != action,
                },
            decreases self.bindings@.len() - index,
        {
            if self.bindings[index].1 == action {
                match best {
                    None => {
                        best = Some(index);
                    },
                    Some(b) => {
                        let key = chars_of(self.bindings[index].0.key.as_str());
                        let best_key = chars_of(self.bindings[b].0.key.as_str());
                        let candidate = &self.bindings[index].0;
                        let current = &self.bindings[b].0;
                        let earlier = if candidate.command != current.command {
                            !candidate.command
                        } else if candidate.control != current.control {
                            !candidate.control
                        } else if candidate.alt != current.alt {
                            !candidate.alt
                        } else if candidate.shift != current.shift {
                            !candidate.shift
                        } else {
                            chars_less(&key, &best_key)
                        };
                        proof {
                            assert(earlier == chord_less(entries[index as int].0, entries[b as int].0));
                            lemma_chord_order(entries[index as int].0, entries[b as int].0, entries[b as int].0);
                            assert(entries[index as int].0 != entries[b as int].0);
                            assert forall|k: int|
                                0 <= k < index + 1 && (#[trigger] entries[k]).1 == action && k != (if earlier { index as int } else { b as int })
                                    implies chord_less(
                                    entries[if earlier { index as int } else { b as int }].0,
                                    entries[k].0,
                                ) by {
                                lemma_chord_order(entries[index as int].0, entries[b as int].0, entries[k].0);
                                lemma_chord_order(entries[b as int].0, entries[index as int].0, entries[k].0);
                            }
                        }
                        if earlier {
                            best = Some(index);
                        }
                    },
                }
            }
            index += 1;
        }
        match best {
            Some(b) => {
                proof {
                    assert forall|other: KeyChordView|
                        #[trigger] self@.bindings.dom().contains(other) && self@.bindings[other] == action
                            && other != entries[b as int].0 implies chord_less(entries[b as int].0, other)
                            && seq_less(chord_sort_text(entries[b as int].0), chord_sort_text(other)) by {
                        let k = choose|k: int| 0 <= k < entries.len() && (#[trigger] entries[k]).0 == other;
                        assert(k != b);
                        lemma_chord_order_is_text_order(entries[b as int].0, other);
                    }
                }
                Some(self.bindings[b].0.duplicate())
            },
            None => {
                proof {
                    assert forall|other: KeyChordView|
                        #[trigger] self@.bindings.dom().contains(other) implies self@.bindings[other] != action by {
                        let k = choose|k: int| 0 <= k < entries.len() && (#[trigger] entries[k]).0 == other;
                    }
                }
                None
            },
        }
    }

    /// The label of the shortcut of `action`, if it has one.
    pub fn shortcut_label(&self, action: Action, style: ShortcutStyle) -> (label: Option<String>)
        ensures
            match label {
                Some(text) => exists|chord: KeyChordView|
                    #[trigger] self@.bindings.dom().contains(chord) && self@.bindings[chord] == action
                        && (forall|other: KeyChordView|
                        #[trigger] self@.bindings.dom().contains(other) && self@.bindings[other] == action
                            && other != chord ==> chord_less(chord, other)) && text@ == shortcut_text(
                        chord,
                        style,
                    ),
                None => forall|other: KeyChordView|
                    #[trigger] self@.bindings.dom().contains(other) ==> self@.bindings[other] != action,
            },
    {
        match self.shortcut(action) {
            Some(chord) => Some(format_shortcut(&chord, style)),
            None => None,
        }
    }
}

impl Default for KeyBindings {
    fn default() -> (bindings: KeyBindings)
        ensures
            bindings@ == bindings_with_overrides(Seq::empty()),
    {
        let none: Vec<(String, String)> = Vec::new();
        let bindings = KeyBindings::with_overrides(&none);
        proof {
            assert(overrides_view(none@) =~= Seq::<(Seq<char>, Seq<char>)>::empty());
        }
        bindings
    }
}

/// The overrides sorted by shortcut text, equal shortcuts in their given order.
fn sort_overrides(overrides: &Vec<(String, String)>) -> (sorted: Vec<(String, String)>)
    ensures
        overrides_view(sorted@) == sort_by_shortcut(overrides_view(overrides@)),
{
    let ghost given = overrides_view(overrides@);
    let mut sorted: Vec<(String, String)> = Vec::new();
    let mut index: usize = 0;
    proof {
        assert(given.take(0) =~= Seq::<(Seq<char>, Seq<char>)>::empty());
        assert(overrides_view(sorted@) =~= Seq::<(Seq<char>, Seq<char>)>::empty());
    }
    while index < overrides.len()
        invariant
            index <= overrides@.len(),
            given == overrides_view(overrides@),
            overrides_view(sorted@) == sort_by_shortcut(given.take(index as int)),
        decreases overrides@.len() - index,
    {
        let key = chars_of(overrides[index].0.as_str());
        let ghost current = overrides_view(sorted@);
        proof {
            assert(given.take(index + 1).drop_last() =~= given.take(index as int));
            assert(current.skip(0) =~= current);
        }
        let mut position: usize = 0;
        while position < sorted.len() && !chars_less(&key, &chars_of(sorted[position].0.as_str()))
            invariant
                current == overrides_view(sorted@),
                key@ == given[index as int].0,
                position <= sorted@.len(),
                insertion_point(current, key@) == position + insertion_point(current.skip(position as int), key@),
            decreases sorted@.len() - position,
        {
            proof {
                assert(current.skip(position as int).drop_first() =~= current.skip(position + 1));
            }
            position += 1;
        }
        let entry = (string_of(overrides[index].0.as_str()), string_of(overrides[index].1.as_str()));
        let ghost entry_view = (entry.0@, entry.1@);
        sorted.insert(position, entry);
        proof {
            assert(entry_view == given[index as int]);
            assert(overrides_view(sorted@) =~= current.insert(position as int, entry_view));
        }
        index += 1;
    }
    proof {
        assert(given.take(overrides@.len() as int) =~= given);
    }
    sorted
}

} // verus!
