use grin_terminal::action::{
    action_registry, format_shortcut, match_actions, Action, KeyBindings, KeyChord, ShortcutStyle,
};

fn overrides(entries: &[(&str, &str)]) -> Vec<(String, String)> {
    entries
        .iter()
        .map(|(shortcut, action)| (shortcut.to_string(), action.to_string()))
        .collect()
}

#[test]
fn custom_binding_predictably_overrides_default() {
    let overrides = overrides(&[("cmd+t", "SplitHorizontal")]);
    let bindings = KeyBindings::with_overrides(&overrides);
    let chord = KeyChord::parse("Command+T").unwrap();
    assert_eq!(bindings.action(&chord), Some(Action::SplitHorizontal));
}

#[test]
fn invalid_bindings_are_diagnostics_not_failures() {
    let overrides = overrides(&[("cmd", "NewTab"), ("cmd+x", "Imaginary")]);
    let bindings = KeyBindings::with_overrides(&overrides);
    assert_eq!(bindings.diagnostics().len(), 2);
    assert_eq!(
        bindings.action(&KeyChord::parse("cmd+t").unwrap()),
        Some(Action::NewTab)
    );
}

#[test]
fn action_matcher_ranks_exact_prefix_substring_fuzzy_and_metadata() {
    assert_eq!(match_actions("")[0].action, Action::NewTab);
    assert_eq!(match_actions("NEW TAB")[0].action, Action::NewTab);
    assert_eq!(match_actions("split r")[0].action, Action::SplitVertical);
    assert_eq!(match_actions("nt")[0].action, Action::NewTab);
    assert_eq!(match_actions("restore")[0].action, Action::RestoreTab);
    assert_eq!(match_actions("terminal")[0].category, "Terminal");
    assert!(match_actions("not-an-action").is_empty());
}

#[test]
fn shortcut_formatter_uses_platform_conventions() {
    let chord = KeyChord::parse("cmd+alt+shift+t").unwrap();
    assert_eq!(
        format_shortcut(&chord, ShortcutStyle::Standard),
        "Ctrl+Alt+Shift+T"
    );
    assert_eq!(format_shortcut(&chord, ShortcutStyle::MacOs), "⌥⇧⌘T");
}

#[test]
fn contextual_close_is_the_only_cmd_w_binding() {
    let bindings = KeyBindings::default();
    assert_eq!(
        bindings.shortcut(Action::Close),
        Some(KeyChord::parse("cmd+w").unwrap())
    );
    assert_eq!(bindings.shortcut(Action::ClosePane), None);
}

#[test]
fn action_names_parse_back_to_their_action() {
    for action in grin_terminal::action::all_actions() {
        assert_eq!(Action::parse(action.name()), Some(action));
    }
    assert_eq!(Action::parse("select_tab-3"), Some(Action::SelectTab3));
    assert_eq!(Action::parse(" Theme Dark "), Some(Action::ThemeDark));
    assert_eq!(Action::parse("nothing"), None);
}

#[test]
fn select_tab_actions_know_their_index() {
    assert_eq!(Action::SelectTab1.tab_index(), Some(0));
    assert_eq!(Action::SelectTab9.tab_index(), Some(8));
    assert_eq!(Action::NewTab.tab_index(), None);
}

#[test]
fn chord_parsing_reports_each_error() {
    assert_eq!(
        KeyChord::parse("cmd+a+b"),
        Err("key chord has more than one key: cmd+a+b".to_string())
    );
    assert_eq!(
        KeyChord::parse("ctrl+shift"),
        Err("key chord has no key: ctrl+shift".to_string())
    );
    let chord = KeyChord::parse(" Option + Return ").unwrap();
    assert!(chord.alt && !chord.command && !chord.control && !chord.shift);
    assert_eq!(chord.key, "enter");
    assert_eq!(KeyChord::parse("cmd+LeftBracket").unwrap().key, "[");
}

#[test]
fn later_shortcut_text_wins_for_the_same_chord() {
    let overrides = overrides(&[("cmd+t", "Copy"), ("Command+T", "Paste")]);
    let bindings = KeyBindings::with_overrides(&overrides);
    // "Command+T" sorts before "cmd+t", so "cmd+t" is applied last.
    assert_eq!(
        bindings.action(&KeyChord::parse("cmd+t").unwrap()),
        Some(Action::Copy)
    );
}

#[test]
fn unknown_action_message_names_it() {
    let overrides = overrides(&[("cmd+k", "Nope")]);
    let bindings = KeyBindings::with_overrides(&overrides);
    assert_eq!(bindings.diagnostics(), &["unknown action 'Nope'".to_string()]);
}

#[test]
fn shortcut_label_uses_the_preferred_chord() {
    let bindings = KeyBindings::default();
    assert_eq!(
        bindings.shortcut_label(Action::Search, ShortcutStyle::Standard),
        Some("Ctrl+F".to_string())
    );
    assert_eq!(
        bindings.shortcut_label(Action::Close, ShortcutStyle::MacOs),
        Some("⌘W".to_string())
    );
    assert_eq!(bindings.shortcut_label(Action::ThemeDark, ShortcutStyle::Standard), None);
}

#[test]
fn registry_lists_palette_entries_in_order() {
    let registry = action_registry();
    assert_eq!(registry.len(), 17);
    assert_eq!(registry[0].id, "terminal.new_tab");
    assert_eq!(registry[16].action, Action::Search);
}

#[test]
fn matcher_uses_keywords_and_subsequences() {
    assert_eq!(match_actions("reopen")[0].action, Action::RestoreTab);
    assert_eq!(match_actions("  scrollback ")[0].action, Action::Search);
    let pane = match_actions("pane");
    assert_eq!(pane[0].action, Action::TogglePaneZoom);
    assert!(pane.iter().all(|info| info.category == "Pane"));
}

#[test]
fn greatest_shortcut_text_decides_a_chord() {
    let bindings = KeyBindings::with_overrides(&overrides(&[
        ("cmd+t", "SplitHorizontal"),
        ("Cmd+T", "ClosePane"),
    ]));
    assert_eq!(bindings.action(&KeyChord::parse("cmd+t").unwrap()), Some(Action::SplitHorizontal));
    let bindings = KeyBindings::with_overrides(&overrides(&[
        ("Cmd+T", "ClosePane"),
        ("cmd+t", "SplitHorizontal"),
    ]));
    assert_eq!(bindings.action(&KeyChord::parse("cmd+t").unwrap()), Some(Action::SplitHorizontal));
}
