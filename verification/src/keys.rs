use vstd::prelude::*;

use crate::action::Action;
use crate::cell::{cell_view_is_blank, CellView};
use crate::screen::{cells_view, Screen, ScreenView};
use vstd::utf8::encode_utf8;

use crate::text::{append_str, ascii_upper, chars_of, string_from_chars, to_ascii_upper, trim, trim_chars};

verus! {

/// The control byte that Ctrl with `character` sends: letters give 1 to 26, and `[ \ ] ^ _`
/// give `0x1b` to `0x1f`.
pub open spec fn control_byte_of(character: char) -> Option<u8> {
    let upper = ascii_upper(character);
    if 'A' <= upper && upper <= 'Z' {
        Some((upper as u32 - 0x40) as u8)
    } else if character == '[' {
        Some(0x1b)
    } else if character == '\\' {
        Some(0x1c)
    } else if character == ']' {
        Some(0x1d)
    } else if character == '^' {
        Some(0x1e)
    } else if character == '_' {
        Some(0x1f)
    } else {
        None
    }
}

/// The byte Ctrl with `character` sends, if any.
pub fn control_byte(character: char) -> (byte: Option<u8>)
    ensures
        byte == control_byte_of(character),
{
    let upper = to_ascii_upper(character);
    if 'A' <= upper && upper <= 'Z' {
        let code: u32 = upper as u32;
        Some((code - 0x40) as u8)
    } else if character == '[' {
        Some(0x1b)
    } else if character == '\\' {
        Some(0x1c)
    } else if character == ']' {
        Some(0x1d)
    } else if character == '^' {
        Some(0x1e)
    } else if character == '_' {
        Some(0x1f)
    } else {
        None
    }
}

/// The bytes a cursor key sends: `ESC O x` in application cursor mode, else `ESC [ x`.
pub fn cursor_sequence(final_byte: u8, application_mode: bool) -> (bytes: Vec<u8>)
    ensures
        bytes@ == seq![0x1bu8, if application_mode { 0x4fu8 } else { 0x5bu8 }, final_byte],
{
    let bytes = vec![0x1b, if application_mode { 0x4f } else { 0x5b }, final_byte];
    proof {
        assert(bytes@ =~= seq![0x1bu8, if application_mode { 0x4fu8 } else { 0x5bu8 }, final_byte]);
    }
    bytes
}

/// Whether a line holds a non-blank cell.
pub open spec fn line_has_content(line: Seq<CellView>) -> bool {
    exists|column: int| 0 <= column < line.len() && !cell_view_is_blank(#[trigger] line[column])
}

/// Whether displayed row `row` holds a non-blank cell.
pub open spec fn row_has_content(screen: ScreenView, row: int) -> bool {
    match screen.display_line(row) {
        Some(line) => line_has_content(line),
        None => false,
    }
}

/// The last displayed row below `end` that holds a non-blank cell.
pub open spec fn last_content_row(screen: ScreenView, end: nat) -> Option<nat>
    decreases end,
{
    if end == 0 {
        None
    } else if row_has_content(screen, end - 1) {
        Some((end - 1) as nat)
    } else {
        last_content_row(screen, (end - 1) as nat)
    }
}

/// The lowest displayed row in use: the last one with content or the visible cursor's row,
/// whichever is lower on the screen.
pub open spec fn interactive_row(screen: ScreenView) -> Option<nat> {
    let content = last_content_row(screen, screen.rows as nat);
    let cursor = match screen.display_cursor() {
        Some(cursor) => if cursor.visible {
            Some(cursor.row as nat)
        } else {
            None
        },
        None => None,
    };
    match (content, cursor) {
        (Some(content), Some(cursor)) => Some(if content >= cursor { content } else { cursor }),
        (Some(content), None) => Some(content),
        (None, Some(cursor)) => Some(cursor),
        (None, None) => None,
    }
}

fn has_content(line: &[crate::cell::Cell]) -> (found: bool)
    ensures
        found == exists|column: int| 0 <= column < line@.len() && !cell_view_is_blank(#[trigger] cells_view(line@)[column]),
{
    let mut column: usize = 0;
    while column < line.len()
        invariant
            column <= line@.len(),
            forall|k: int| 0 <= k < column ==> cell_view_is_blank(#[trigger] cells_view(line@)[k]),
        decreases line@.len() - column,
    {
        if !line[column].is_blank() {
            proof {
                assert(!cell_view_is_blank(cells_view(line@)[column as int]));
            }
            return true;
        }
        column += 1;
    }
    false
}

/// The lowest displayed row in use, see `interactive_row`.
pub fn last_interactive_row(screen: &Screen) -> (row: Option<usize>)
    requires
        screen@.wf(),
    ensures
        match row {
            Some(row) => interactive_row(screen@) == Some(row as nat),
            None => interactive_row(screen@) is None,
        },
{
    let mut end: usize = screen.rows();
    let mut content: Option<usize> = None;
    while end > 0 && content.is_none()
        invariant
            end <= screen@.rows,
            screen@.wf(),
            content is None ==> last_content_row(screen@, screen@.rows as nat) == last_content_row(screen@, end as nat),
            content matches Some(found) ==> last_content_row(screen@, screen@.rows as nat) == Some(found as nat),
        decreases end,
    {
        let row = end - 1;
        let found = match screen.display_line(row) {
            Some(line) => {
                let found = has_content(line);
                proof {
                    let shown = cells_view(line@);
                    assert(screen@.display_line(row as int) == Some(shown));
                    assert(shown.len() == line@.len());
                    if found {
                        let column = choose|column: int| 0 <= column < line@.len() && !cell_view_is_blank(#[trigger] cells_view(line@)[column]);
                        assert(!cell_view_is_blank(shown[column]));
                        assert(line_has_content(shown));
                    } else {
                        assert(!row_has_content(screen@, row as int));
                    }
                }
                found
            },
            None => false,
        };
        assert(found == row_has_content(screen@, row as int));
        if found {
            content = Some(row);
        }
        end -= 1;
    }
    let cursor = match screen.display_cursor() {
        Some(cursor) => if cursor.visible {
            Some(cursor.row)
        } else {
            None
        },
        None => None,
    };
    match (content, cursor) {
        (Some(content), Some(cursor)) => Some(if content >= cursor { content } else { cursor }),
        (Some(content), None) => Some(content),
        (None, Some(cursor)) => Some(cursor),
        (None, None) => None,
    }
}


/// A named key of the keyboard.
#[derive(Clone, Copy, Debug, PartialEq, Eq, Structural)]
pub enum NamedKey {
    Enter,
    Backspace,
    Tab,
    Escape,
    ArrowLeft,
    ArrowRight,
    ArrowUp,
    ArrowDown,
    Home,
    End,
    Delete,
    PageUp,
    PageDown,
}

/// The key a key press names: a named key, the text of a character key, or another key.
#[derive(Clone, Debug)]
pub enum KeyPress {
    Named(NamedKey),
    Character(String),
    Other,
}

/// The modifiers held during a key press that decide what it sends.
#[derive(Clone, Copy, Debug)]
pub struct KeyModifiers {
    pub shift: bool,
    pub alt: bool,
    pub control: bool,
}

/// What a key press does to the focused terminal.
#[derive(Debug, PartialEq, Eq)]
pub enum KeyOutput {
    /// Bytes for the shell.
    Send(Vec<u8>),
    /// Scrolls the view by this many lines toward older history.
    ScrollView(isize),
    /// Nothing.
    Ignore,
}

/// The bytes a named key sends; `None` for Shift with Page Up or Page Down, which scroll.
pub open spec fn named_key_bytes(key: NamedKey, modifiers: KeyModifiers, application_cursor: bool) -> Option<Seq<u8>> {
    let cursor_lead = if application_cursor { 0x4fu8 } else { 0x5bu8 };
    match key {
        NamedKey::Enter => Some(seq![0x0du8]),
        NamedKey::Backspace => Some(seq![0x7fu8]),
        NamedKey::Tab => Some(seq![0x09u8]),
        NamedKey::Escape => Some(seq![0x1bu8]),
        NamedKey::ArrowLeft => if modifiers.alt || modifiers.control {
            Some(seq![0x1bu8, 0x62u8])
        } else {
            Some(seq![0x1bu8, cursor_lead, 0x44u8])
        },
        NamedKey::ArrowRight => if modifiers.alt || modifiers.control {
            Some(seq![0x1bu8, 0x66u8])
        } else {
            Some(seq![0x1bu8, cursor_lead, 0x43u8])
        },
        NamedKey::ArrowUp => Some(seq![0x1bu8, cursor_lead, 0x41u8]),
        NamedKey::ArrowDown => Some(seq![0x1bu8, cursor_lead, 0x42u8]),
        NamedKey::Home => Some(seq![0x1bu8, 0x5bu8, 0x48u8]),
        NamedKey::End => Some(seq![0x1bu8, 0x5bu8, 0x46u8]),
        NamedKey::Delete => Some(seq![0x1bu8, 0x5bu8, 0x33u8, 0x7eu8]),
        NamedKey::PageUp => if modifiers.shift {
            None
        } else {
            Some(seq![0x1bu8, 0x5bu8, 0x35u8, 0x7eu8])
        },
        NamedKey::PageDown => if modifiers.shift {
            None
        } else {
            Some(seq![0x1bu8, 0x5bu8, 0x36u8, 0x7eu8])
        },
    }
}

fn bytes_of(bytes: &[u8]) -> (owned: Vec<u8>)
    ensures
        owned@ == bytes@,
{
    let mut owned: Vec<u8> = Vec::new();
    let mut index: usize = 0;
    while index < bytes.len()
        invariant
            index <= bytes@.len(),
            owned@ == bytes@.take(index as int),
        decreases bytes@.len() - index,
    {
        owned.push(bytes[index]);
        index += 1;
        proof {
            assert(owned@ =~= bytes@.take(index as int));
        }
    }
    proof {
        assert(bytes@.take(bytes@.len() as int) =~= bytes@);
    }
    owned
}

/// What a key's text sends: its UTF-8 bytes, or nothing when the key has no text.
pub open spec fn text_output(text: Option<&str>) -> Option<Seq<u8>> {
    match text {
        Some(text) => Some(encode_utf8(text@)),
        None => None,
    }
}

/// The control byte of a character key's first character, if any.
pub open spec fn first_control_byte(characters: Seq<char>) -> Option<u8> {
    if characters.len() > 0 {
        control_byte_of(characters[0])
    } else {
        None
    }
}

pub open spec fn sends(output: KeyOutput, bytes: Option<Seq<u8>>) -> bool {
    match bytes {
        Some(bytes) => output matches KeyOutput::Send(sent) && sent@ == bytes,
        None => output is Ignore,
    }
}

/// What a key press sends to the focused terminal: named keys their sequences (cursor keys as
/// application cursor mode says, Alt or Ctrl with Left and Right the word motions `ESC b` and
/// `ESC f`), Shift with Page Up or Page Down a scroll by a screen of `rows`, Ctrl with a
/// character key the control byte of its first character, and any other key its text.
pub fn key_output(
    key: &KeyPress,
    text: Option<&str>,
    modifiers: KeyModifiers,
    application_cursor: bool,
    rows: usize,
) -> (output: KeyOutput)
    requires
        rows <= isize::MAX,
    ensures
        match key {
            KeyPress::Named(named) => match named_key_bytes(*named, modifiers, application_cursor) {
                Some(bytes) => output matches KeyOutput::Send(sent) && sent@ == bytes,
                None => output matches KeyOutput::ScrollView(lines) && lines == (if *named == NamedKey::PageUp {
                    rows as int
                } else {
                    -(rows as int)
                }),
            },
            KeyPress::Character(characters) => if modifiers.control {
                sends(
                    output,
                    match first_control_byte(characters@) {
                        Some(byte) => Some(seq![byte]),
                        None => None,
                    },
                )
            } else {
                sends(output, text_output(text))
            },
            KeyPress::Other => sends(output, text_output(text)),
        },
{
    match key {
        KeyPress::Named(named) => {
            let lead: u8 = if application_cursor { 0x4f } else { 0x5b };
            let word = modifiers.alt || modifiers.control;
            let bytes: Vec<u8> = match named {
                NamedKey::Enter => vec![0x0d],
                NamedKey::Backspace => vec![0x7f],
                NamedKey::Tab => vec![0x09],
                NamedKey::Escape => vec![0x1b],
                NamedKey::ArrowLeft => if word { vec![0x1b, 0x62] } else { vec![0x1b, lead, 0x44] },
                NamedKey::ArrowRight => if word { vec![0x1b, 0x66] } else { vec![0x1b, lead, 0x43] },
                NamedKey::ArrowUp => vec![0x1b, lead, 0x41],
                NamedKey::ArrowDown => vec![0x1b, lead, 0x42],
                NamedKey::Home => vec![0x1b, 0x5b, 0x48],
                NamedKey::End => vec![0x1b, 0x5b, 0x46],
                NamedKey::Delete => vec![0x1b, 0x5b, 0x33, 0x7e],
                NamedKey::PageUp => {
                    if modifiers.shift {
                        return KeyOutput::ScrollView(rows as isize);
                    }
                    vec![0x1b, 0x5b, 0x35, 0x7e]
                },
                NamedKey::PageDown => {
                    if modifiers.shift {
                        return KeyOutput::ScrollView(-(rows as isize));
                    }
                    vec![0x1b, 0x5b, 0x36, 0x7e]
                },
            };
            proof {
                assert(bytes@ =~= named_key_bytes(*named, modifiers, application_cursor)->0);
            }
            KeyOutput::Send(bytes)
        },
        KeyPress::Character(characters) => {
            if modifiers.control {
                let characters = chars_of(characters.as_str());
                if characters.len() > 0 {
                    match control_byte(characters[0]) {
                        Some(byte) => {
                            let bytes = vec![byte];
                            proof {
                                assert(bytes@ =~= seq![byte]);
                            }
                            KeyOutput::Send(bytes)
                        },
                        None => KeyOutput::Ignore,
                    }
                } else {
                    KeyOutput::Ignore
                }
            } else {
                text_key_output(text)
            }
        },
        KeyPress::Other => text_key_output(text),
    }
}

fn text_key_output(text: Option<&str>) -> (output: KeyOutput)
    ensures
        sends(output, text_output(text)),
{
    match text {
        Some(text) => KeyOutput::Send(bytes_of(text.as_bytes())),
        None => KeyOutput::Ignore,
    }
}

/// What a key press does to a line typed into a prompt, such as a tab's new name or a search.
#[derive(Debug, PartialEq, Eq)]
pub enum PromptKey {
    /// Escape: the prompt is dismissed.
    Dismiss,
    /// Enter: the line is submitted as it stands.
    Submit(String),
    /// Any other key: the prompt goes on with this line.
    Edit(String),
}

/// The line after a key other than Escape and Enter: Backspace removes its last character,
/// any other key appends its text.
pub open spec fn edited_line(line: Seq<char>, key: KeyPress, text: Option<Seq<char>>) -> Seq<char> {
    match key {
        KeyPress::Named(NamedKey::Backspace) => if line.len() == 0 {
            line
        } else {
            line.drop_last()
        },
        _ => match text {
            Some(text) => line + text,
            None => line,
        },
    }
}

pub open spec fn optional_text(text: Option<&str>) -> Option<Seq<char>> {
    match text {
        Some(text) => Some(text@),
        None => None,
    }
}

/// What `key`, with the text it types, does to the prompt line `line`.
pub fn prompt_key(line: String, key: &KeyPress, text: Option<&str>) -> (result: PromptKey)
    ensures
        match *key {
            KeyPress::Named(NamedKey::Escape) => result == PromptKey::Dismiss,
            KeyPress::Named(NamedKey::Enter) => result matches PromptKey::Submit(submitted) && submitted@ == line@,
            _ => result matches PromptKey::Edit(edited) && edited@ == edited_line(line@, *key, optional_text(text)),
        },
{
    match key {
        KeyPress::Named(NamedKey::Escape) => PromptKey::Dismiss,
        KeyPress::Named(NamedKey::Enter) => PromptKey::Submit(line),
        KeyPress::Named(NamedKey::Backspace) => {
            let mut characters = chars_of(line.as_str());
            if characters.len() > 0 {
                characters.pop();
            }
            PromptKey::Edit(string_from_chars(&characters))
        },
        _ => {
            let mut edited = line;
            match text {
                Some(text) => append_str(&mut edited, text),
                None => {},
            }
            PromptKey::Edit(edited)
        },
    }
}

/// The title a submitted name gives a tab: the name without surrounding whitespace; none when
/// nothing is left, and the tab keeps its title.
pub fn submitted_title(name: &str) -> (title: Option<String>)
    ensures
        match title {
            Some(title) => title@ == trim(name@) && trim(name@).len() > 0,
            None => trim(name@).len() == 0,
        },
{
    let trimmed = trim_chars(&chars_of(name));
    if trimmed.len() == 0 {
        None
    } else {
        Some(string_from_chars(&trimmed))
    }
}

/// Where a key press goes.
#[derive(Clone, Copy, Debug, PartialEq, Eq)]
pub enum KeyRoute {
    /// The key is bound to an action: apply it.
    Dispatch(Action),
    /// A prompt (a tab's new name or a search) is open: it takes the key.
    Prompt,
    /// The key does nothing: the shortcut modifier is held, or the shell has exited.
    Ignore,
    /// The key goes to the shell, as `key_output` says; with `clear_selection` the focused
    /// pane's selection goes first.
    Terminal { clear_selection: bool },
}

/// Where a key press goes: a bound action first, then an open prompt; with the shortcut
/// modifier held or the shell gone nothing happens; otherwise the shell gets it, and typed
/// text (a character key without Ctrl, Alt or the shortcut modifier) or Enter clears a
/// selection.
pub open spec fn key_route_of(
    bound: Option<Action>,
    prompt_open: bool,
    shortcut: bool,
    shell_exited: bool,
    key: KeyPress,
    modifiers: KeyModifiers,
    has_selection: bool,
) -> KeyRoute {
    match bound {
        Some(action) => KeyRoute::Dispatch(action),
        None => if prompt_open {
            KeyRoute::Prompt
        } else if shortcut || shell_exited {
            KeyRoute::Ignore
        } else {
            let text_input = key is Character && !modifiers.control && !modifiers.alt;
            let enter = key == KeyPress::Named(NamedKey::Enter);
            KeyRoute::Terminal { clear_selection: (text_input || enter) && has_selection }
        },
    }
}

/// Where a key press goes; see `key_route_of`. `bound` is the action the pressed chord is
/// bound to, if any.
pub fn key_route(
    bound: Option<Action>,
    prompt_open: bool,
    shortcut: bool,
    shell_exited: bool,
    key: &KeyPress,
    modifiers: KeyModifiers,
    has_selection: bool,
) -> (route: KeyRoute)
    ensures
        route == key_route_of(bound, prompt_open, shortcut, shell_exited, *key, modifiers, has_selection),
{
    match bound {
        Some(action) => KeyRoute::Dispatch(action),
        None => if prompt_open {
            KeyRoute::Prompt
        } else if shortcut || shell_exited {
            KeyRoute::Ignore
        } else {
            let text_input = match key {
                KeyPress::Character(_) => !modifiers.control && !modifiers.alt,
                _ => false,
            };
            let enter = match key {
                KeyPress::Named(NamedKey::Enter) => true,
                _ => false,
            };
            KeyRoute::Terminal { clear_selection: (text_input || enter) && has_selection }
        },
    }
}

/// Each arrow key sends ESC, the cursor lead byte (`O` in application cursor mode, `[`
/// otherwise) and its own final byte: Up `A`, Down `B`, Right `C`, Left `D`; Left and Right
/// do so without Alt or Control. So no two arrow keys send the same bytes.
pub proof fn lemma_arrow_keys_send_their_direction(modifiers: KeyModifiers, application_cursor: bool)
    ensures
        ({
            let lead: u8 = if application_cursor { 0x4f } else { 0x5b };
            &&& named_key_bytes(NamedKey::ArrowUp, modifiers, application_cursor) == Some(seq![0x1bu8, lead, 0x41u8])
            &&& named_key_bytes(NamedKey::ArrowDown, modifiers, application_cursor) == Some(seq![0x1bu8, lead, 0x42u8])
            &&& !modifiers.alt && !modifiers.control ==> named_key_bytes(NamedKey::ArrowRight, modifiers, application_cursor)
                == Some(seq![0x1bu8, lead, 0x43u8])
            &&& !modifiers.alt && !modifiers.control ==> named_key_bytes(NamedKey::ArrowLeft, modifiers, application_cursor)
                == Some(seq![0x1bu8, lead, 0x44u8])
        }),
        named_key_bytes(NamedKey::ArrowUp, modifiers, application_cursor) != named_key_bytes(
            NamedKey::ArrowDown,
            modifiers,
            application_cursor,
        ),
        named_key_bytes(NamedKey::ArrowLeft, modifiers, application_cursor) != named_key_bytes(
            NamedKey::ArrowRight,
            modifiers,
            application_cursor,
        ),
{
    let up = named_key_bytes(NamedKey::ArrowUp, modifiers, application_cursor).unwrap();
    let down = named_key_bytes(NamedKey::ArrowDown, modifiers, application_cursor).unwrap();
    assert(up[2] != down[2]);
    let left = named_key_bytes(NamedKey::ArrowLeft, modifiers, application_cursor).unwrap();
    let right = named_key_bytes(NamedKey::ArrowRight, modifiers, application_cursor).unwrap();
    if modifiers.alt || modifiers.control {
        assert(left[1] != right[1]);
    } else {
        assert(left[2] != right[2]);
    }
}

} // verus!
