use grin_terminal::keys::{
    control_byte, cursor_sequence, key_output, key_route, KeyRoute, last_interactive_row, prompt_key, submitted_title,
    KeyModifiers, KeyOutput, KeyPress, NamedKey, PromptKey,
};
use grin_terminal::action::Action;
use grin_terminal::screen::Screen;

#[test]
fn maps_control_and_application_cursor_keys() {
    assert_eq!(control_byte('c'), Some(3));
    assert_eq!(control_byte('Z'), Some(26));
    assert_eq!(control_byte('['), Some(0x1b));
    assert_eq!(control_byte('1'), None);
    assert_eq!(cursor_sequence(b'A', false), b"\x1b[A");
    assert_eq!(cursor_sequence(b'A', true), b"\x1bOA");
}

#[test]
fn control_punctuation_bytes() {
    assert_eq!(control_byte('\\'), Some(0x1c));
    assert_eq!(control_byte(']'), Some(0x1d));
    assert_eq!(control_byte('^'), Some(0x1e));
    assert_eq!(control_byte('_'), Some(0x1f));
    assert_eq!(control_byte('a'), Some(1));
}

#[test]
fn interactive_row_follows_content_and_cursor() {
    let mut screen = Screen::new(4, 3, true);
    assert_eq!(last_interactive_row(&screen), Some(0));
    screen.put('x', true, false);
    screen.set_cursor(2, 0, false);
    assert_eq!(last_interactive_row(&screen), Some(2));
    screen.set_cursor_visible(false);
    assert_eq!(last_interactive_row(&screen), Some(0));
}

fn plain() -> KeyModifiers {
    KeyModifiers { shift: false, alt: false, control: false }
}

#[test]
fn named_keys_send_their_sequences() {
    let up = key_output(&KeyPress::Named(NamedKey::ArrowUp), None, plain(), true, 24);
    assert_eq!(up, KeyOutput::Send(b"\x1bOA".to_vec()));
    let enter = key_output(&KeyPress::Named(NamedKey::Enter), Some("\r"), plain(), false, 24);
    assert_eq!(enter, KeyOutput::Send(b"\r".to_vec()));
    let word = KeyModifiers { shift: false, alt: true, control: false };
    assert_eq!(
        key_output(&KeyPress::Named(NamedKey::ArrowLeft), None, word, false, 24),
        KeyOutput::Send(b"\x1bb".to_vec())
    );
    assert_eq!(
        key_output(&KeyPress::Named(NamedKey::Delete), None, plain(), false, 24),
        KeyOutput::Send(b"\x1b[3~".to_vec())
    );
}

#[test]
fn shift_page_keys_scroll_the_view() {
    let shift = KeyModifiers { shift: true, alt: false, control: false };
    assert_eq!(
        key_output(&KeyPress::Named(NamedKey::PageUp), None, shift, false, 24),
        KeyOutput::ScrollView(24)
    );
    assert_eq!(
        key_output(&KeyPress::Named(NamedKey::PageDown), None, shift, false, 24),
        KeyOutput::ScrollView(-24)
    );
    assert_eq!(
        key_output(&KeyPress::Named(NamedKey::PageDown), None, plain(), false, 24),
        KeyOutput::Send(b"\x1b[6~".to_vec())
    );
}

#[test]
fn control_characters_and_text() {
    let control = KeyModifiers { shift: false, alt: false, control: true };
    assert_eq!(
        key_output(&KeyPress::Character("c".to_string()), Some("c"), control, false, 24),
        KeyOutput::Send(vec![3])
    );
    assert_eq!(
        key_output(&KeyPress::Character("1".to_string()), Some("1"), control, false, 24),
        KeyOutput::Ignore
    );
    assert_eq!(
        key_output(&KeyPress::Character("é".to_string()), Some("é"), plain(), false, 24),
        KeyOutput::Send("é".as_bytes().to_vec())
    );
    assert_eq!(key_output(&KeyPress::Other, None, plain(), false, 24), KeyOutput::Ignore);
}

#[test]
fn prompt_keys_edit_submit_and_dismiss() {
    let line = || "tab é".to_string();
    assert_eq!(prompt_key(line(), &KeyPress::Named(NamedKey::Escape), None), PromptKey::Dismiss);
    assert_eq!(
        prompt_key(line(), &KeyPress::Named(NamedKey::Enter), Some("\r")),
        PromptKey::Submit("tab é".to_string())
    );
    assert_eq!(
        prompt_key(line(), &KeyPress::Named(NamedKey::Backspace), None),
        PromptKey::Edit("tab ".to_string())
    );
    assert_eq!(
        prompt_key(String::new(), &KeyPress::Named(NamedKey::Backspace), None),
        PromptKey::Edit(String::new())
    );
    assert_eq!(
        prompt_key(line(), &KeyPress::Character("x".to_string()), Some("x")),
        PromptKey::Edit("tab éx".to_string())
    );
    assert_eq!(
        prompt_key(line(), &KeyPress::Named(NamedKey::ArrowLeft), None),
        PromptKey::Edit("tab é".to_string())
    );
}

#[test]
fn submitted_titles_are_trimmed_and_never_empty() {
    assert_eq!(submitted_title("  build logs \t"), Some("build logs".to_string()));
    assert_eq!(submitted_title(" \u{3000} "), None);
    assert_eq!(submitted_title(""), None);
}

#[test]
fn keys_go_to_bindings_prompts_or_the_shell_in_order() {
    let plain = KeyModifiers { shift: false, alt: false, control: false };
    let text = KeyPress::Character("a".to_string());
    assert_eq!(key_route(Some(Action::NewTab), true, true, true, &text, plain, true), KeyRoute::Dispatch(Action::NewTab));
    assert_eq!(key_route(None, true, false, false, &text, plain, true), KeyRoute::Prompt);
    assert_eq!(key_route(None, false, true, false, &text, plain, true), KeyRoute::Ignore);
    assert_eq!(key_route(None, false, false, true, &text, plain, true), KeyRoute::Ignore);
    assert_eq!(key_route(None, false, false, false, &text, plain, true), KeyRoute::Terminal { clear_selection: true });
    assert_eq!(key_route(None, false, false, false, &text, plain, false), KeyRoute::Terminal { clear_selection: false });
    let control = KeyModifiers { shift: false, alt: false, control: true };
    assert_eq!(key_route(None, false, false, false, &text, control, true), KeyRoute::Terminal { clear_selection: false });
    let enter = KeyPress::Named(NamedKey::Enter);
    assert_eq!(key_route(None, false, false, false, &enter, control, true), KeyRoute::Terminal { clear_selection: true });
    let arrow = KeyPress::Named(NamedKey::ArrowUp);
    assert_eq!(key_route(None, false, false, false, &arrow, plain, true), KeyRoute::Terminal { clear_selection: false });
}
