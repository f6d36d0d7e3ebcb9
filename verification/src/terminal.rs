use vstd::prelude::*;

use vstd::utf8::{decode_utf8, encode_utf8, valid_utf8};

use crate::cell::{default_attributes, option_string_view, Attributes, Color, Rgb};
use crate::screen::{
    fresh_screen, wrapping_next, Cursor, CursorShape, Screen, ScreenView, SearchMatch,
    DEFAULT_SCROLLBACK_LIMIT,
};
use crate::text::{chars_of, decode_utf8_string, push_char, string_from_chars};

verus! {

/// Terminal state: the primary and alternate screens, modes, title, working directory and
/// the replies owed to the program.
pub struct Terminal {
    primary: Screen,
    alternate: Screen,
    alternate_active: bool,
    auto_wrap: bool,
    insert_mode: bool,
    origin_mode: bool,
    application_cursor: bool,
    bracketed_paste: bool,
    title: String,
    title_generation: u64,
    working_directory_uri: Option<String>,
    pending_response: Vec<u8>,
}

pub struct TerminalView {
    pub primary: ScreenView,
    pub alternate: ScreenView,
    pub alternate_active: bool,
    pub auto_wrap: bool,
    pub insert_mode: bool,
    pub origin_mode: bool,
    pub application_cursor: bool,
    pub bracketed_paste: bool,
    pub title: Seq<char>,
    pub title_generation: u64,
    pub working_directory_uri: Option<Seq<char>>,
    pub pending_response: Seq<u8>,
}

impl View for Terminal {
    type V = TerminalView;

    closed spec fn view(&self) -> TerminalView {
        TerminalView {
            primary: self.primary@,
            alternate: self.alternate@,
            alternate_active: self.alternate_active,
            auto_wrap: self.auto_wrap,
            insert_mode: self.insert_mode,
            origin_mode: self.origin_mode,
            application_cursor: self.application_cursor,
            bracketed_paste: self.bracketed_paste,
            title: self.title@,
            title_generation: self.title_generation,
            working_directory_uri: crate::cell::option_string_view(self.working_directory_uri),
            pending_response: self.pending_response@,
        }
    }
}

impl TerminalView {
    pub open spec fn wf(self) -> bool {
        &&& self.primary.wf()
        &&& self.alternate.wf()
    }

    /// The screen that output goes to and that is shown.
    pub open spec fn screen(self) -> ScreenView {
        if self.alternate_active {
            self.alternate
        } else {
            self.primary
        }
    }

    pub open spec fn with_screen(self, screen: ScreenView) -> TerminalView {
        if self.alternate_active {
            TerminalView { alternate: screen, ..self }
        } else {
            TerminalView { primary: screen, ..self }
        }
    }
}

impl Terminal {
    fn active(&mut self) -> (screen: &mut Screen)
        ensures
            screen@ == old(self)@.screen(),
            final(self)@ == old(self)@.with_screen(final(screen)@),
            old(self)@.wf() ==> screen@.wf(),
            old(self)@.wf() && final(screen)@.wf() ==> final(self)@.wf(),
    {
        if self.alternate_active {
            &mut self.alternate
        } else {
            &mut self.primary
        }
    }

}


/// The parameter groups of a control sequence, each a list of sub-parameters.
pub open spec fn params_view(params: Seq<Vec<u16>>) -> Seq<Seq<u16>> {
    params.map_values(|group: Vec<u16>| group@)
}

/// The first value of parameter group `index`, or `default` when it is missing or zero.
pub open spec fn param_value(params: Seq<Seq<u16>>, index: int, default: u16) -> u16 {
    if 0 <= index < params.len() && params[index].len() > 0 && params[index][0] != 0 {
        params[index][0]
    } else {
        default
    }
}

/// Every sub-parameter, in order.
pub open spec fn flatten_params(params: Seq<Seq<u16>>) -> Seq<u16>
    decreases params.len(),
{
    if params.len() == 0 {
        Seq::empty()
    } else {
        flatten_params(params.drop_last()) + params.last()
    }
}

/// The first value of every non-empty parameter group.
pub open spec fn first_values(params: Seq<Seq<u16>>) -> Seq<u16>
    decreases params.len(),
{
    if params.len() == 0 {
        Seq::empty()
    } else if params.last().len() > 0 {
        first_values(params.drop_last()).push(params.last()[0])
    } else {
        first_values(params.drop_last())
    }
}

pub open spec fn saturating_dec16(value: u16) -> usize {
    if value > 0 {
        (value - 1) as usize
    } else {
        0
    }
}

pub open spec fn clamp_u8(value: u16) -> u8 {
    if value > 255 {
        255
    } else {
        value as u8
    }
}

/// The color a `38`/`48` selection at `index` names and how many further values it uses.
pub open spec fn extended_color(values: Seq<u16>, index: int) -> Option<(Color, int)> {
    if index + 1 < values.len() && values[index + 1] == 5 {
        if index + 2 < values.len() {
            Some((Color::Indexed(clamp_u8(values[index + 2])), 2))
        } else {
            None
        }
    } else if index + 1 < values.len() && values[index + 1] == 2 && index + 4 < values.len() {
        Some(
            (
                Color::Rgb(
                    Rgb {
                        r: clamp_u8(values[index + 2]),
                        g: clamp_u8(values[index + 3]),
                        b: clamp_u8(values[index + 4]),
                    },
                ),
                4,
            ),
        )
    } else {
        None
    }
}

/// The rendition after one `SGR` value at `index`, and how many further values it used.
pub open spec fn sgr_step(attributes: Attributes, values: Seq<u16>, index: int) -> (Attributes, int) {
    let value = values[index];
    if value == 0 {
        (default_attributes(), 0)
    } else if value == 1 {
        (Attributes { bold: true, ..attributes }, 0)
    } else if value == 2 {
        (Attributes { dim: true, ..attributes }, 0)
    } else if value == 3 {
        (Attributes { italic: true, ..attributes }, 0)
    } else if value == 4 || value == 21 {
        (Attributes { underline: true, ..attributes }, 0)
    } else if value == 5 || value == 6 {
        (Attributes { blink: true, ..attributes }, 0)
    } else if value == 7 {
        (Attributes { inverse: true, ..attributes }, 0)
    } else if value == 8 {
        (Attributes { hidden: true, ..attributes }, 0)
    } else if value == 9 {
        (Attributes { strikethrough: true, ..attributes }, 0)
    } else if value == 22 {
        (Attributes { bold: false, dim: false, ..attributes }, 0)
    } else if value == 23 {
        (Attributes { italic: false, ..attributes }, 0)
    } else if value == 24 {
        (Attributes { underline: false, ..attributes }, 0)
    } else if value == 25 {
        (Attributes { blink: false, ..attributes }, 0)
    } else if value == 27 {
        (Attributes { inverse: false, ..attributes }, 0)
    } else if value == 28 {
        (Attributes { hidden: false, ..attributes }, 0)
    } else if value == 29 {
        (Attributes { strikethrough: false, ..attributes }, 0)
    } else if 30 <= value <= 37 {
        (Attributes { foreground: Color::Indexed((value - 30) as u8), ..attributes }, 0)
    } else if value == 39 {
        (Attributes { foreground: Color::Default, ..attributes }, 0)
    } else if 40 <= value <= 47 {
        (Attributes { background: Color::Indexed((value - 40) as u8), ..attributes }, 0)
    } else if value == 49 {
        (Attributes { background: Color::Default, ..attributes }, 0)
    } else if 90 <= value <= 97 {
        (Attributes { foreground: Color::Indexed((value - 90 + 8) as u8), ..attributes }, 0)
    } else if 100 <= value <= 107 {
        (Attributes { background: Color::Indexed((value - 100 + 8) as u8), ..attributes }, 0)
    } else if value == 38 || value == 48 {
        match extended_color(values, index) {
            Some((color, consumed)) => if value == 38 {
                (Attributes { foreground: color, ..attributes }, consumed)
            } else {
                (Attributes { background: color, ..attributes }, consumed)
            },
            None => (attributes, 0),
        }
    } else {
        (attributes, 0)
    }
}

/// The rendition after the `SGR` values from `index` on.
pub open spec fn sgr_from(attributes: Attributes, values: Seq<u16>, index: int) -> Attributes
    decreases values.len() - index,
{
    if index < 0 || index >= values.len() {
        attributes
    } else {
        let (next, consumed) = sgr_step(attributes, values, index);
        sgr_from(next, values, index + 1 + consumed)
    }
}

/// The values an `SGR` sequence applies: all sub-parameters, or a reset when there are none.
pub open spec fn sgr_values(params: Seq<Seq<u16>>) -> Seq<u16> {
    if flatten_params(params).len() == 0 {
        seq![0u16]
    } else {
        flatten_params(params)
    }
}

/// The decimal digits of `n`, as ASCII bytes.
pub open spec fn decimal(n: nat) -> Seq<u8>
    decreases n,
{
    if n < 10 {
        seq![(48 + n) as u8]
    } else {
        decimal(n / 10).push((48 + n % 10) as u8)
    }
}

/// The cursor position report: `ESC [ row ; column R`, both counted from one.
pub open spec fn cursor_report(cursor: Cursor) -> Seq<u8> {
    seq![0x1bu8, 0x5bu8] + decimal((cursor.row + 1) as nat) + seq![0x3bu8] + decimal((cursor.column + 1) as nat)
        + seq![0x52u8]
}

pub open spec fn starts_with(text: Seq<char>, prefix: Seq<char>) -> bool {
    prefix.len() <= text.len() && text.take(prefix.len() as int) == prefix
}

pub open spec fn file_scheme() -> Seq<char> {
    seq!['f', 'i', 'l', 'e', ':', '/', '/']
}

/// The text of OSC parameter `index`, empty when it is missing or not UTF-8.
pub open spec fn osc_text(params: Seq<Seq<u8>>, index: int) -> Seq<char> {
    if 0 <= index < params.len() && valid_utf8(params[index]) {
        decode_utf8(params[index])
    } else {
        Seq::empty()
    }
}

pub open spec fn bytes_view(params: Seq<Vec<u8>>) -> Seq<Seq<u8>> {
    params.map_values(|bytes: Vec<u8>| bytes@)
}

/// `text` without its NUL characters.
pub open spec fn strip_nul(text: Seq<char>) -> Seq<char>
    decreases text.len(),
{
    if text.len() == 0 {
        Seq::empty()
    } else {
        let kept = if text.last() == '\0' { Seq::empty() } else { seq![text.last()] };
        strip_nul(text.drop_last()) + kept
    }
}

/// What character `index` of `text` becomes in pasted text: a carriage return before a line
/// feed is dropped, any other carriage return becomes a line feed.
pub open spec fn newline_piece(text: Seq<char>, index: int) -> Seq<char> {
    if text[index] == '\r' {
        if index + 1 < text.len() && text[index + 1] == '\n' {
            Seq::empty()
        } else {
            seq!['\n']
        }
    } else {
        seq![text[index]]
    }
}

/// The first `count` characters of `text` with their line endings normalised.
pub open spec fn normalize_newlines(text: Seq<char>, count: nat) -> Seq<char>
    decreases count,
{
    if count == 0 {
        Seq::empty()
    } else {
        normalize_newlines(text, (count - 1) as nat) + newline_piece(text, count - 1)
    }
}

/// Pasted text: NULs removed, `\r\n` and lone `\r` turned into `\n`.
pub open spec fn sanitize_paste(text: Seq<char>) -> Seq<char> {
    normalize_newlines(strip_nul(text), strip_nul(text).len())
}

pub open spec fn paste_start() -> Seq<u8> {
    seq![0x1bu8, 0x5bu8, 0x32u8, 0x30u8, 0x30u8, 0x7eu8]
}

pub open spec fn paste_end() -> Seq<u8> {
    seq![0x1bu8, 0x5bu8, 0x32u8, 0x30u8, 0x31u8, 0x7eu8]
}

/// The bytes sent for pasted `text`: its sanitised UTF-8, framed by `ESC [200~` and
/// `ESC [201~` when bracketed paste is on.
pub open spec fn paste_view(bracketed: bool, text: Seq<char>) -> Seq<u8> {
    let body = encode_utf8(sanitize_paste(text));
    if bracketed {
        paste_start() + body + paste_end()
    } else {
        body
    }
}


/// Whatever is done on the alternate screen, leaving it gives back the primary screen's
/// content, cursor and rendition as they were on entering.
pub proof fn lemma_alternate_screen_round_trip(terminal: TerminalView, alternate: ScreenView, clear: bool, clear_on_leave: bool)
    requires
        terminal.wf(),
        !terminal.alternate_active,
    ensures
        ({
            let back = terminal.switch_alternate(true, clear).with_screen(alternate).switch_alternate(
                false,
                clear_on_leave,
            );
            &&& !back.alternate_active
            &&& back.primary.lines == terminal.primary.lines
            &&& back.primary.scrollback == terminal.primary.scrollback
            &&& back.primary.cursor == terminal.primary.cursor
            &&& back.primary.attributes == terminal.primary.attributes
        }),
{
}

/// While the alternate screen is shown, what changes the shown screen leaves the primary
/// screen alone.
pub proof fn lemma_alternate_screen_shields_primary(terminal: TerminalView, screen: ScreenView)
    requires
        terminal.alternate_active,
    ensures
        terminal.with_screen(screen).primary == terminal.primary,
        terminal.with_screen(screen).alternate == screen,
{
}

/// Pasted text never holds a carriage return or a NUL.
pub proof fn lemma_paste_has_no_carriage_return(text: Seq<char>)
    ensures
        forall|i: int|
            0 <= i < sanitize_paste(text).len() ==> #[trigger] sanitize_paste(text)[i] != '\r'
                && sanitize_paste(text)[i] != '\0',
{
    lemma_strip_nul_has_no_nul(text);
    let kept = strip_nul(text);
    lemma_normalized_has_no_carriage_return(kept, kept.len());
}

proof fn lemma_strip_nul_has_no_nul(text: Seq<char>)
    ensures
        forall|i: int| 0 <= i < strip_nul(text).len() ==> #[trigger] strip_nul(text)[i] != '\0',
    decreases text.len(),
{
    if text.len() > 0 {
        lemma_strip_nul_has_no_nul(text.drop_last());
        let before = strip_nul(text.drop_last());
        assert forall|i: int| 0 <= i < strip_nul(text).len() implies #[trigger] strip_nul(text)[i] != '\0' by {
            if i < before.len() {
                assert(strip_nul(text)[i] == before[i]);
            }
        }
    }
}

proof fn lemma_normalized_has_no_carriage_return(text: Seq<char>, count: nat)
    requires
        count <= text.len(),
        forall|i: int| 0 <= i < text.len() ==> #[trigger] text[i] != '\0',
    ensures
        forall|i: int|
            0 <= i < normalize_newlines(text, count).len() ==> #[trigger] normalize_newlines(text, count)[i]
                != '\r' && normalize_newlines(text, count)[i] != '\0',
    decreases count,
{
    if count > 0 {
        lemma_normalized_has_no_carriage_return(text, (count - 1) as nat);
        let before = normalize_newlines(text, (count - 1) as nat);
        let piece = newline_piece(text, count - 1);
        assert forall|i: int| 0 <= i < normalize_newlines(text, count).len() implies #[trigger] normalize_newlines(
            text,
            count,
        )[i] != '\r' && normalize_newlines(text, count)[i] != '\0' by {
            if i < before.len() {
                assert(normalize_newlines(text, count)[i] == before[i]);
            } else {
                assert(normalize_newlines(text, count)[i] == piece[i - before.len()]);
            }
        }
    }
}

impl TerminalView {
    /// Switches between the primary and alternate screens. Entering saves the primary cursor
    /// and, with `clear`, starts the alternate screen afresh; leaving restores the cursor.
    pub open spec fn switch_alternate(self, enabled: bool, clear: bool) -> TerminalView {
        if enabled == self.alternate_active {
            self
        } else if enabled {
            TerminalView {
                primary: self.primary.save_cursor(),
                alternate: if clear {
                    fresh_screen(
                        self.alternate.columns,
                        self.alternate.rows,
                        self.alternate.allow_scrollback,
                    )
                } else {
                    self.alternate
                },
                alternate_active: true,
                ..self
            }
        } else {
            TerminalView {
                alternate_active: false,
                primary: self.primary.restore_cursor(),
                ..self
            }
        }
    }

    /// A full reset: fresh screens of the primary's size and default modes.
    pub open spec fn reset(self) -> TerminalView {
        TerminalView {
            primary: fresh_screen(self.primary.columns, self.primary.rows, true),
            alternate: fresh_screen(self.primary.columns, self.primary.rows, false),
            alternate_active: false,
            auto_wrap: true,
            insert_mode: false,
            origin_mode: false,
            application_cursor: false,
            bracketed_paste: false,
            ..self
        }
    }

    /// Sets or resets one mode.
    pub open spec fn set_mode(self, value: u16, private: bool, enabled: bool) -> TerminalView {
        if private {
            if value == 1 {
                TerminalView { application_cursor: enabled, ..self }
            } else if value == 6 {
                let moved = TerminalView { origin_mode: enabled, ..self };
                moved.with_screen(moved.screen().set_cursor(0, 0, enabled))
            } else if value == 7 {
                TerminalView { auto_wrap: enabled, ..self }
            } else if value == 25 {
                self.with_screen(self.screen().set_cursor_visible(enabled))
            } else if value == 47 || value == 1047 {
                self.switch_alternate(enabled, enabled)
            } else if value == 1049 {
                self.switch_alternate(enabled, true)
            } else if value == 2004 {
                TerminalView { bracketed_paste: enabled, ..self }
            } else {
                self
            }
        } else if value == 4 {
            TerminalView { insert_mode: enabled, ..self }
        } else {
            self
        }
    }

    /// The modes named by the first `count` values, set or reset in order.
    pub open spec fn set_modes(self, values: Seq<u16>, count: nat, private: bool, enabled: bool) -> TerminalView
        decreases count,
    {
        if count == 0 || count > values.len() {
            self
        } else {
            self.set_modes(values, (count - 1) as nat, private, enabled).set_mode(
                values[count - 1],
                private,
                enabled,
            )
        }
    }

    pub open spec fn print(self, c: char) -> TerminalView {
        self.with_screen(self.screen().put(c, self.auto_wrap, self.insert_mode))
    }

    pub open spec fn execute(self, byte: u8) -> TerminalView {
        let screen = self.screen();
        if byte == 0x0a || byte == 0x0b || byte == 0x0c {
            self.with_screen(screen.line_feed())
        } else if byte == 0x0d {
            self.with_screen(screen.carriage_return())
        } else if byte == 0x08 {
            self.with_screen(screen.backspace())
        } else if byte == 0x09 {
            self.with_screen(screen.tab())
        } else {
            self
        }
    }

    /// Cursor movement sequences: `A B C a D E F G ` d H f`.
    pub open spec fn csi_cursor(self, params: Seq<Seq<u16>>, action: char) -> TerminalView {
        let amount = param_value(params, 0, 1) as int;
        let screen = self.screen();
        if action == 'A' {
            self.with_screen(screen.move_cursor(-amount, 0))
        } else if action == 'B' {
            self.with_screen(screen.move_cursor(amount, 0))
        } else if action == 'C' || action == 'a' {
            self.with_screen(screen.move_cursor(0, amount))
        } else if action == 'D' {
            self.with_screen(screen.move_cursor(0, -amount))
        } else if action == 'E' {
            self.with_screen(screen.move_cursor(amount, 0).carriage_return())
        } else if action == 'F' {
            self.with_screen(screen.move_cursor(-amount, 0).carriage_return())
        } else if action == 'G' || action == '`' {
            self.with_screen(screen.set_cursor_column(saturating_dec16(amount as u16) as int))
        } else if action == 'd' {
            self.with_screen(
                screen.set_cursor(
                    saturating_dec16(amount as u16) as int,
                    screen.cursor.column as int,
                    self.origin_mode,
                ),
            )
        } else {
            self.with_screen(
                screen.set_cursor(
                    saturating_dec16(amount as u16) as int,
                    saturating_dec16(param_value(params, 1, 1)) as int,
                    self.origin_mode,
                ),
            )
        }
    }

    /// Editing sequences: `J K @ P X L M S T`.
    pub open spec fn csi_edit(self, params: Seq<Seq<u16>>, action: char) -> TerminalView {
        let amount = param_value(params, 0, 1) as int;
        let screen = self.screen();
        if action == 'J' {
            self.with_screen(screen.erase_display(param_value(params, 0, 0) as int))
        } else if action == 'K' {
            self.with_screen(screen.erase_line(param_value(params, 0, 0) as int))
        } else if action == '@' {
            self.with_screen(screen.insert_cells(amount))
        } else if action == 'P' {
            self.with_screen(screen.delete_cells(amount))
        } else if action == 'X' {
            self.with_screen(screen.erase_cells(amount))
        } else if action == 'L' {
            self.with_screen(screen.insert_lines(amount))
        } else if action == 'M' {
            self.with_screen(screen.delete_lines(amount))
        } else if action == 'S' {
            self.with_screen(screen.scroll_up(amount))
        } else {
            self.with_screen(screen.scroll_down(amount))
        }
    }

    /// The remaining sequences: scrolling region, tab stops, rendition, cursor save and
    /// restore, modes, reports and cursor style.
    pub open spec fn csi_other(
        self,
        params: Seq<Seq<u16>>,
        intermediates: Seq<u8>,
        action: char,
    ) -> TerminalView {
        let private = intermediates.contains(0x3fu8);
        let screen = self.screen();
        if action == 'r' && !private {
            let rows = screen.rows;
            let top = param_value(params, 0, 1);
            let bottom = param_value(params, 1, rows as u16) as int;
            self.with_screen(
                screen.set_scroll_region(
                    saturating_dec16(top) as int,
                    if bottom < rows {
                        bottom
                    } else {
                        rows as int
                    },
                ),
            )
        } else if action == 'g' {
            self.with_screen(screen.clear_tab_stop(param_value(params, 0, 0) == 3))
        } else if action == 'm' {
            self.with_screen(
                ScreenView {
                    attributes: sgr_from(screen.attributes, sgr_values(params), 0),
                    ..screen
                },
            )
        } else if action == 's' {
            self.with_screen(screen.save_cursor())
        } else if action == 'u' {
            self.with_screen(screen.restore_cursor())
        } else if action == 'h' || action == 'l' {
            let values = first_values(params);
            self.set_modes(values, values.len(), private, action == 'h')
        } else if action == 'n' && !private && param_value(params, 0, 0) == 5 {
            TerminalView {
                pending_response: self.pending_response + seq![0x1bu8, 0x5bu8, 0x30u8, 0x6eu8],
                ..self
            }
        } else if action == 'n' && !private && param_value(params, 0, 0) == 6 {
            TerminalView {
                pending_response: self.pending_response + cursor_report(screen.cursor),
                ..self
            }
        } else if action == 'c' {
            TerminalView {
                pending_response: self.pending_response + seq![
                    0x1bu8,
                    0x5bu8,
                    0x3fu8,
                    0x31u8,
                    0x3bu8,
                    0x32u8,
                    0x63u8,
                ],
                ..self
            }
        } else if action == 'q' && intermediates.contains(0x20u8) {
            let style = param_value(params, 0, 0);
            if style <= 1 {
                self.with_screen(screen.set_cursor_style(CursorShape::Block, true))
            } else if style == 2 {
                self.with_screen(screen.set_cursor_style(CursorShape::Block, false))
            } else if style == 3 {
                self.with_screen(screen.set_cursor_style(CursorShape::Underline, true))
            } else if style == 4 {
                self.with_screen(screen.set_cursor_style(CursorShape::Underline, false))
            } else if style == 5 {
                self.with_screen(screen.set_cursor_style(CursorShape::Bar, true))
            } else if style == 6 {
                self.with_screen(screen.set_cursor_style(CursorShape::Bar, false))
            } else {
                self
            }
        } else {
            self
        }
    }

    pub open spec fn is_cursor_action(action: char) -> bool {
        action == 'A' || action == 'B' || action == 'C' || action == 'a' || action == 'D'
            || action == 'E' || action == 'F' || action == 'G' || action == '`' || action == 'd'
            || action == 'H' || action == 'f'
    }

    pub open spec fn is_edit_action(action: char) -> bool {
        action == 'J' || action == 'K' || action == '@' || action == 'P' || action == 'X'
            || action == 'L' || action == 'M' || action == 'S' || action == 'T'
    }

    /// A control sequence `CSI params intermediates action`.
    pub open spec fn csi_dispatch(
        self,
        params: Seq<Seq<u16>>,
        intermediates: Seq<u8>,
        ignore: bool,
        action: char,
    ) -> TerminalView {
        if ignore {
            self
        } else if Self::is_cursor_action(action) {
            self.csi_cursor(params, action)
        } else if Self::is_edit_action(action) {
            self.csi_edit(params, action)
        } else {
            self.csi_other(params, intermediates, action)
        }
    }

    /// An escape sequence `ESC intermediates byte`.
    pub open spec fn esc_dispatch(self, ignore: bool, byte: u8) -> TerminalView {
        let screen = self.screen();
        if ignore {
            self
        } else if byte == 0x37 {
            self.with_screen(screen.save_cursor())
        } else if byte == 0x38 {
            self.with_screen(screen.restore_cursor())
        } else if byte == 0x44 {
            self.with_screen(screen.line_feed())
        } else if byte == 0x45 {
            self.with_screen(screen.line_feed().carriage_return())
        } else if byte == 0x4d {
            self.with_screen(screen.reverse_index())
        } else if byte == 0x48 {
            self.with_screen(screen.set_tab_stop())
        } else if byte == 0x63 {
            self.reset()
        } else {
            self
        }
    }

    /// An operating system command: `0`/`2` set the title, `8` the hyperlink of new cells,
    /// `7` the working directory (a `file://` URI).
    pub open spec fn osc_dispatch(self, params: Seq<Seq<u8>>) -> TerminalView {
        if params.len() == 0 {
            self
        } else {
            let command = params[0];
            if command == seq![0x30u8] || command == seq![0x32u8] {
                TerminalView {
                    title: osc_text(params, 1),
                    title_generation: wrapping_next(self.title_generation),
                    ..self
                }
            } else if command == seq![0x38u8] {
                let uri = osc_text(params, 2);
                self.with_screen(
                    ScreenView {
                        active_hyperlink: if uri.len() == 0 {
                            None
                        } else {
                            Some(uri)
                        },
                        ..self.screen()
                    },
                )
            } else if command == seq![0x37u8] {
                TerminalView {
                    working_directory_uri: if 1 < params.len() && valid_utf8(params[1])
                        && starts_with(decode_utf8(params[1]), file_scheme()) {
                        Some(decode_utf8(params[1]))
                    } else {
                        None
                    },
                    ..self
                }
            } else {
                self
            }
        }
    }
}

pub fn param(params: &Vec<Vec<u16>>, index: usize, default: u16) -> (value: u16)
    ensures
        value == param_value(params_view(params@), index as int, default),
{
    if index < params.len() && params[index].len() > 0 && params[index][0] != 0 {
        params[index][0]
    } else {
        default
    }
}

fn all_values(params: &Vec<Vec<u16>>) -> (values: Vec<u16>)
    ensures
        values@ == flatten_params(params_view(params@)),
{
    let mut values: Vec<u16> = Vec::new();
    let mut group: usize = 0;
    while group < params.len()
        invariant
            group <= params@.len(),
            values@ == flatten_params(params_view(params@).take(group as int)),
        decreases params@.len() - group,
    {
        let ghost before = values@;
        let mut k: usize = 0;
        while k < params[group].len()
            invariant
                group < params@.len(),
                k <= params@[group as int]@.len(),
                values@ == before + params@[group as int]@.take(k as int),
            decreases params@[group as int]@.len() - k,
        {
            values.push(params[group][k]);
            k += 1;
            proof {
                assert(values@ =~= before + params@[group as int]@.take(k as int));
            }
        }
        proof {
            let next = params_view(params@).take(group + 1);
            assert(next.drop_last() =~= params_view(params@).take(group as int));
            assert(params@[group as int]@.take(k as int) =~= params@[group as int]@);
        }
        group += 1;
    }
    proof {
        assert(params_view(params@).take(params@.len() as int) =~= params_view(params@));
    }
    values
}

fn leading_values(params: &Vec<Vec<u16>>) -> (values: Vec<u16>)
    ensures
        values@ == first_values(params_view(params@)),
{
    let mut values: Vec<u16> = Vec::new();
    let mut group: usize = 0;
    while group < params.len()
        invariant
            group <= params@.len(),
            values@ == first_values(params_view(params@).take(group as int)),
        decreases params@.len() - group,
    {
        if params[group].len() > 0 {
            values.push(params[group][0]);
        }
        proof {
            let next = params_view(params@).take(group + 1);
            assert(next.drop_last() =~= params_view(params@).take(group as int));
        }
        group += 1;
    }
    proof {
        assert(params_view(params@).take(params@.len() as int) =~= params_view(params@));
    }
    values
}

fn clamp_to_u8(value: u16) -> (byte: u8)
    ensures
        byte == clamp_u8(value),
{
    if value > 255 {
        255
    } else {
        value as u8
    }
}

fn extended_color_at(values: &Vec<u16>, index: usize) -> (found: Option<(Color, usize)>)
    requires
        index < values@.len(),
    ensures
        match found {
            Some((color, consumed)) => extended_color(values@, index as int) == Some((color, consumed as int)),
            None => extended_color(values@, index as int) is None,
        },
{
    let length = values.len();
    if length - index > 1 && values[index + 1] == 5 {
        if length - index > 2 {
            Some((Color::Indexed(clamp_to_u8(values[index + 2])), 2))
        } else {
            None
        }
    } else if length - index > 1 && values[index + 1] == 2 && length - index > 4 {
        Some((
            Color::Rgb(Rgb {
                r: clamp_to_u8(values[index + 2]),
                g: clamp_to_u8(values[index + 3]),
                b: clamp_to_u8(values[index + 4]),
            }),
            4,
        ))
    } else {
        None
    }
}

#[verifier::rlimit(40)]
fn sgr_apply(attributes: Attributes, values: &Vec<u16>, index: usize) -> (result: (Attributes, usize))
    requires
        index < values@.len(),
    ensures
        (result.0, result.1 as int) == sgr_step(attributes, values@, index as int),
        result.1 <= 4,
{
    let value = values[index];
    let mut next = attributes;
    let mut consumed: usize = 0;
    if value == 0 {
        next = Attributes::default();
    } else if value == 1 {
        next.bold = true;
    } else if value == 2 {
        next.dim = true;
    } else if value == 3 {
        next.italic = true;
    } else if value == 4 || value == 21 {
        next.underline = true;
    } else if value == 5 || value == 6 {
        next.blink = true;
    } else if value == 7 {
        next.inverse = true;
    } else if value == 8 {
        next.hidden = true;
    } else if value == 9 {
        next.strikethrough = true;
    } else if value == 22 {
        next.bold = false;
        next.dim = false;
    } else if value == 23 {
        next.italic = false;
    } else if value == 24 {
        next.underline = false;
    } else if value == 25 {
        next.blink = false;
    } else if value == 27 {
        next.inverse = false;
    } else if value == 28 {
        next.hidden = false;
    } else if value == 29 {
        next.strikethrough = false;
    } else if 30 <= value && value <= 37 {
        next.foreground = Color::Indexed((value - 30) as u8);
    } else if value == 39 {
        next.foreground = Color::Default;
    } else if 40 <= value && value <= 47 {
        next.background = Color::Indexed((value - 40) as u8);
    } else if value == 49 {
        next.background = Color::Default;
    } else if 90 <= value && value <= 97 {
        next.foreground = Color::Indexed((value - 90 + 8) as u8);
    } else if 100 <= value && value <= 107 {
        next.background = Color::Indexed((value - 100 + 8) as u8);
    } else if value == 38 || value == 48 {
        match extended_color_at(values, index) {
            Some((color, used)) => {
                if value == 38 {
                    next.foreground = color;
                } else {
                    next.background = color;
                }
                consumed = used;
            },
            None => {},
        }
    }
    (next, consumed)
}

/// The rendition after applying the `SGR` values from `index` on.
pub fn apply_sgr_values(attributes: Attributes, values: &Vec<u16>) -> (result: Attributes)
    ensures
        result == sgr_from(attributes, values@, 0),
{
    let mut current = attributes;
    let mut index: usize = 0;
    while index < values.len()
        invariant
            sgr_from(current, values@, index as int) == sgr_from(attributes, values@, 0),
            index <= values@.len() + 4,
        decreases values@.len() - index,
    {
        let (next, consumed) = sgr_apply(current, values, index);
        current = next;
        index = index + 1 + consumed;
    }
    current
}

/// Appends the decimal digits of `n`.
/// `text` with NULs removed and line endings normalised.
fn sanitize_paste_text(text: &str) -> (sanitized: String)
    ensures
        sanitized@ == sanitize_paste(text@),
{
    let characters = chars_of(text);
    let mut kept: Vec<char> = Vec::new();
    let mut index: usize = 0;
    while index < characters.len()
        invariant
            index <= characters@.len(),
            kept@ == strip_nul(characters@.take(index as int)),
        decreases characters@.len() - index,
    {
        proof {
            assert(characters@.take(index + 1).drop_last() =~= characters@.take(index as int));
        }
        if characters[index] != '\0' {
            kept.push(characters[index]);
        }
        index += 1;
    }
    proof {
        assert(characters@.take(characters@.len() as int) =~= characters@);
    }
    let mut sanitized = String::new();
    let mut position: usize = 0;
    while position < kept.len()
        invariant
            position <= kept@.len(),
            kept@ == strip_nul(text@),
            sanitized@ == normalize_newlines(kept@, position as nat),
        decreases kept@.len() - position,
    {
        let c = kept[position];
        if c == '\r' {
            if !(position + 1 < kept.len() && kept[position + 1] == '\n') {
                push_char(&mut sanitized, '\n');
            }
        } else {
            push_char(&mut sanitized, c);
        }
        proof {
            assert(sanitized@ =~= normalize_newlines(kept@, (position + 1) as nat));
        }
        position += 1;
    }
    sanitized
}

fn push_decimal(out: &mut Vec<u8>, n: usize)
    ensures
        final(out)@ == old(out)@ + decimal(n as nat),
    decreases n,
{
    if n >= 10 {
        push_decimal(out, n / 10);
    }
    let digit: u8 = (n % 10) as u8;
    out.push(48 + digit);
    proof {
        if n >= 10 {
            assert(decimal(n as nat) == decimal((n / 10) as nat).push((48 + n % 10) as u8));
        }
    }
}

fn push_bytes(out: &mut Vec<u8>, bytes: &[u8])
    ensures
        final(out)@ == old(out)@ + bytes@,
{
    let mut index: usize = 0;
    while index < bytes.len()
        invariant
            index <= bytes@.len(),
            out@ == old(out)@ + bytes@.take(index as int),
        decreases bytes@.len() - index,
    {
        out.push(bytes[index]);
        index += 1;
        proof {
            assert(out@ =~= old(out)@ + bytes@.take(index as int));
        }
    }
    proof {
        assert(bytes@.take(bytes@.len() as int) =~= bytes@);
    }
}

/// Decodes UTF-8 with `String::from_utf8`, which accepts exactly the valid encodings.

fn osc_string(params: &Vec<Vec<u8>>, index: usize) -> (text: String)
    ensures
        text@ == osc_text(bytes_view(params@), index as int),
{
    if index < params.len() {
        match decode_utf8_string(params[index].as_slice()) {
            Some(text) => text,
            None => String::new(),
        }
    } else {
        String::new()
    }
}

/// Whether `bytes` is exactly the one byte `code`.
fn is_single_byte(bytes: &Vec<u8>, code: u8) -> (equal: bool)
    ensures
        equal == (bytes@ == seq![code]),
{
    let equal = bytes.len() == 1 && bytes[0] == code;
    proof {
        if bytes@.len() == 1 && bytes@[0] == code {
            assert(bytes@ =~= seq![code]);
        }
    }
    equal
}

fn contains_byte(bytes: &[u8], byte: u8) -> (found: bool)
    ensures
        found == bytes@.contains(byte),
{
    let mut index: usize = 0;
    while index < bytes.len()
        invariant
            index <= bytes@.len(),
            forall|k: int| 0 <= k < index ==> bytes@[k] != byte,
        decreases bytes@.len() - index,
    {
        if bytes[index] == byte {
            proof {
                assert(bytes@[index as int] == byte);
            }
            return true;
        }
        index += 1;
    }
    false
}

impl Terminal {
    pub fn new(columns: usize, rows: usize) -> (terminal: Terminal)
        requires
            columns > 0,
            rows > 0,
            rows < usize::MAX - DEFAULT_SCROLLBACK_LIMIT,
        ensures
            terminal@ == (TerminalView {
                primary: fresh_screen(columns, rows, true),
                alternate: fresh_screen(columns, rows, false),
                alternate_active: false,
                auto_wrap: true,
                insert_mode: false,
                origin_mode: false,
                application_cursor: false,
                bracketed_paste: false,
                title: Seq::empty(),
                title_generation: 0,
                working_directory_uri: None,
                pending_response: Seq::empty(),
            }),
            terminal@.wf(),
    {
        Terminal {
            primary: Screen::new(columns, rows, true),
            alternate: Screen::new(columns, rows, false),
            alternate_active: false,
            auto_wrap: true,
            insert_mode: false,
            origin_mode: false,
            application_cursor: false,
            bracketed_paste: false,
            title: String::new(),
            title_generation: 0,
            working_directory_uri: None,
            pending_response: Vec::new(),
        }
    }

    pub fn screen(&self) -> (screen: &Screen)
        ensures
            screen@ == self@.screen(),
    {
        if self.alternate_active {
            &self.alternate
        } else {
            &self.primary
        }
    }

    pub fn screen_mut(&mut self) -> (screen: &mut Screen)
        ensures
            screen@ == old(self)@.screen(),
            final(self)@ == old(self)@.with_screen(final(screen)@),
            old(self)@.wf() ==> screen@.wf(),
            old(self)@.wf() && final(screen)@.wf() ==> final(self)@.wf(),
    {
        self.active()
    }

    pub fn title(&self) -> (title: &str)
        ensures
            title@ == self@.title,
    {
        self.title.as_str()
    }

    pub fn title_generation(&self) -> (generation: u64)
        ensures
            generation == self@.title_generation,
    {
        self.title_generation
    }

    pub fn working_directory_uri(&self) -> (uri: Option<&str>)
        ensures
            match uri {
                Some(uri) => self@.working_directory_uri == Some(uri@),
                None => self@.working_directory_uri is None,
            },
    {
        match &self.working_directory_uri {
            Some(uri) => Some(uri.as_str()),
            None => None,
        }
    }

    pub fn bracketed_paste(&self) -> (enabled: bool)
        ensures
            enabled == self@.bracketed_paste,
    {
        self.bracketed_paste
    }

    pub fn application_cursor(&self) -> (enabled: bool)
        ensures
            enabled == self@.application_cursor,
    {
        self.application_cursor
    }

    pub fn alternate_screen_active(&self) -> (active: bool)
        ensures
            active == self@.alternate_active,
    {
        self.alternate_active
    }

    pub fn set_cursor_style(&mut self, shape: CursorShape)
        requires
            old(self)@.wf(),
        ensures
            final(self)@ == old(self)@.with_screen(old(self)@.screen().set_cursor_style(shape, false)),
            final(self)@.wf(),
    {
        self.active().set_cursor_style(shape, false);
    }

    /// Resizes both screens.
    pub fn resize(&mut self, columns: usize, rows: usize)
        requires
            old(self)@.wf(),
            rows + DEFAULT_SCROLLBACK_LIMIT < usize::MAX,
        ensures
            final(self)@ == (TerminalView {
                primary: old(self)@.primary.resize(columns, rows),
                alternate: old(self)@.alternate.resize(columns, rows),
                ..old(self)@
            }),
            final(self)@.wf(),
    {
        self.primary.resize(columns, rows);
        self.alternate.resize(columns, rows);
    }

    /// Hands over the replies owed to the program and forgets them.
    pub fn take_response(&mut self) -> (response: Vec<u8>)
        ensures
            response@ == old(self)@.pending_response,
            final(self)@ == (TerminalView { pending_response: Seq::empty(), ..old(self)@ }),
    {
        let mut response: Vec<u8> = Vec::new();
        std::mem::swap(&mut response, &mut self.pending_response);
        response
    }

    /// The bytes to send for pasted `text`.
    pub fn paste_bytes(&self, text: &str) -> (bytes: Vec<u8>)
        ensures
            bytes@ == paste_view(self@.bracketed_paste, text@),
    {
        let sanitized = sanitize_paste_text(text);
        let mut bytes: Vec<u8> = Vec::new();
        if self.bracketed_paste {
            push_bytes(&mut bytes, &[0x1bu8, 0x5bu8, 0x32u8, 0x30u8, 0x30u8, 0x7eu8]);
            push_bytes(&mut bytes, sanitized.as_str().as_bytes());
            push_bytes(&mut bytes, &[0x1bu8, 0x5bu8, 0x32u8, 0x30u8, 0x31u8, 0x7eu8]);
            proof {
                assert(bytes@ =~= paste_view(true, text@));
            }
        } else {
            push_bytes(&mut bytes, sanitized.as_str().as_bytes());
            proof {
                assert(bytes@ =~= paste_view(false, text@));
            }
        }
        bytes
    }

    pub fn search_scrollback(&mut self, query: &str) -> (found: Option<SearchMatch>)
        requires
            old(self)@.wf(),
        ensures
            found == old(self)@.primary.search_result(query@),
            final(self)@ == (TerminalView { primary: old(self)@.primary.search(query@), ..old(self)@ }),
            final(self)@.wf(),
    {
        self.primary.search(query)
    }

    /// Prints a character at the cursor of the active screen.
    pub fn print(&mut self, c: char)
        requires
            old(self)@.wf(),
        ensures
            final(self)@ == old(self)@.print(c),
            final(self)@.wf(),
    {
        let auto_wrap = self.auto_wrap;
        let insert_mode = self.insert_mode;
        self.active().put(c, auto_wrap, insert_mode);
    }

    /// Runs a C0 control: line feed, carriage return, backspace or tab.
    pub fn execute(&mut self, byte: u8)
        requires
            old(self)@.wf(),
        ensures
            final(self)@ == old(self)@.execute(byte),
            final(self)@.wf(),
    {
        if byte == 0x0a || byte == 0x0b || byte == 0x0c {
            self.active().line_feed();
        } else if byte == 0x0d {
            self.active().carriage_return();
        } else if byte == 0x08 {
            self.active().backspace();
        } else if byte == 0x09 {
            self.active().tab();
        }
    }

    fn switch_alternate(&mut self, enabled: bool, clear: bool)
        requires
            old(self)@.wf(),
        ensures
            final(self)@ == old(self)@.switch_alternate(enabled, clear),
            final(self)@.wf(),
    {
        if enabled == self.alternate_active {
            return;
        }
        if enabled {
            self.primary.save_cursor();
            if clear {
                self.alternate.reset();
            }
            self.alternate_active = true;
        } else {
            self.alternate_active = false;
            self.primary.restore_cursor();
        }
    }

    fn reset(&mut self)
        requires
            old(self)@.wf(),
        ensures
            final(self)@ == old(self)@.reset(),
            final(self)@.wf(),
    {
        let columns = self.primary.columns();
        let rows = self.primary.rows();
        self.primary = Screen::new(columns, rows, true);
        self.alternate = Screen::new(columns, rows, false);
        self.alternate_active = false;
        self.auto_wrap = true;
        self.insert_mode = false;
        self.origin_mode = false;
        self.application_cursor = false;
        self.bracketed_paste = false;
    }

    #[verifier::rlimit(100)]
    fn set_mode(&mut self, value: u16, private: bool, enabled: bool)
        requires
            old(self)@.wf(),
        ensures
            final(self)@ == old(self)@.set_mode(value, private, enabled),
            final(self)@.wf(),
    {
        if private {
            if value == 1 {
                self.application_cursor = enabled;
            } else if value == 6 {
                self.origin_mode = enabled;
                self.active().set_cursor(0, 0, enabled);
            } else if value == 7 {
                self.auto_wrap = enabled;
            } else if value == 25 {
                self.active().set_cursor_visible(enabled);
            } else if value == 47 || value == 1047 {
                self.switch_alternate(enabled, enabled);
            } else if value == 1049 {
                self.switch_alternate(enabled, true);
            } else if value == 2004 {
                self.bracketed_paste = enabled;
            }
        } else if value == 4 {
            self.insert_mode = enabled;
        }
    }

    fn set_modes(&mut self, params: &Vec<Vec<u16>>, private: bool, enabled: bool)
        requires
            old(self)@.wf(),
        ensures
            final(self)@ == old(self)@.set_modes(
                first_values(params_view(params@)),
                first_values(params_view(params@)).len(),
                private,
                enabled,
            ),
            final(self)@.wf(),
    {
        let values = leading_values(params);
        let mut index: usize = 0;
        while index < values.len()
            invariant
                index <= values@.len(),
                values@ == first_values(params_view(params@)),
                self@ == old(self)@.set_modes(values@, index as nat, private, enabled),
                self@.wf(),
            decreases values@.len() - index,
        {
            self.set_mode(values[index], private, enabled);
            index += 1;
        }
    }

    fn csi_cursor(&mut self, params: &Vec<Vec<u16>>, action: char)
        requires
            old(self)@.wf(),
            TerminalView::is_cursor_action(action),
        ensures
            final(self)@ == old(self)@.csi_cursor(params_view(params@), action),
            final(self)@.wf(),
    {
        if action == 'A' || action == 'B' || action == 'C' || action == 'a' || action == 'D'
            || action == 'E' || action == 'F' {
            self.csi_move(params, action);
        } else {
            self.csi_position(params, action);
        }
    }

    /// Relative cursor motion: `A B C a D E F`.
    #[verifier::rlimit(40)]
    fn csi_move(&mut self, params: &Vec<Vec<u16>>, action: char)
        requires
            old(self)@.wf(),
            action == 'A' || action == 'B' || action == 'C' || action == 'a' || action == 'D'
                || action == 'E' || action == 'F',
        ensures
            final(self)@ == old(self)@.csi_cursor(params_view(params@), action),
            final(self)@.wf(),
    {
        let amount = param(params, 0, 1);
        let distance = amount as isize;
        if action == 'A' {
            self.active().move_cursor(-distance, 0);
        } else if action == 'B' {
            self.active().move_cursor(distance, 0);
        } else if action == 'C' || action == 'a' {
            self.active().move_cursor(0, distance);
        } else if action == 'D' {
            self.active().move_cursor(0, -distance);
        } else if action == 'E' {
            let screen = self.active();
            screen.move_cursor(distance, 0);
            screen.carriage_return();
        } else {
            let screen = self.active();
            screen.move_cursor(-distance, 0);
            screen.carriage_return();
        }
    }

    /// Absolute cursor positioning: `` G ` d H f ``.
    #[verifier::rlimit(40)]
    fn csi_position(&mut self, params: &Vec<Vec<u16>>, action: char)
        requires
            old(self)@.wf(),
            action == 'G' || action == '`' || action == 'd' || action == 'H' || action == 'f',
        ensures
            final(self)@ == old(self)@.csi_cursor(params_view(params@), action),
            final(self)@.wf(),
    {
        let amount = param(params, 0, 1);
        let origin = self.origin_mode;
        if action == 'G' || action == '`' {
            self.active().set_cursor_column(amount.saturating_sub(1) as usize);
        } else if action == 'd' {
            self.active().set_cursor_row(amount.saturating_sub(1) as usize, origin);
        } else {
            let column = param(params, 1, 1);
            self.active().set_cursor(
                amount.saturating_sub(1) as usize,
                column.saturating_sub(1) as usize,
                origin,
            );
        }
    }

    fn csi_edit(&mut self, params: &Vec<Vec<u16>>, action: char)
        requires
            old(self)@.wf(),
            TerminalView::is_edit_action(action),
        ensures
            final(self)@ == old(self)@.csi_edit(params_view(params@), action),
            final(self)@.wf(),
    {
        let amount = param(params, 0, 1) as usize;
        if action == 'J' {
            let mode = param(params, 0, 0);
            self.active().erase_display(mode);
        } else if action == 'K' {
            let mode = param(params, 0, 0);
            self.active().erase_line(mode);
        } else if action == '@' {
            self.active().insert_cells(amount);
        } else if action == 'P' {
            self.active().delete_cells(amount);
        } else if action == 'X' {
            self.active().erase_cells(amount);
        } else if action == 'L' {
            self.active().insert_lines(amount);
        } else if action == 'M' {
            self.active().delete_lines(amount);
        } else if action == 'S' {
            self.active().scroll_up(amount);
        } else {
            self.active().scroll_down(amount);
        }
    }

    #[verifier::rlimit(100)]
    fn csi_report(&mut self, params: &Vec<Vec<u16>>, intermediates: &[u8], action: char)
        requires
            old(self)@.wf(),
            action == 'n' || action == 'c' || action == 'q',
        ensures
            final(self)@ == old(self)@.csi_other(params_view(params@), intermediates@, action),
            final(self)@.wf(),
    {
        let private = contains_byte(intermediates, 0x3f);
        let status = param(params, 0, 0);
        if action == 'n' && !private && status == 5 {
            push_bytes(&mut self.pending_response, &[0x1bu8, 0x5bu8, 0x30u8, 0x6eu8]);
        } else if action == 'n' && !private && status == 6 {
            let cursor = self.screen().cursor();
            let ghost before = self.pending_response@;
            self.pending_response.push(0x1b);
            self.pending_response.push(0x5b);
            push_decimal(&mut self.pending_response, cursor.row + 1);
            self.pending_response.push(0x3b);
            push_decimal(&mut self.pending_response, cursor.column + 1);
            self.pending_response.push(0x52);
            proof {
                assert(self.pending_response@ =~= before + cursor_report(cursor));
            }
        } else if action == 'c' {
            push_bytes(&mut self.pending_response, &[0x1bu8, 0x5bu8, 0x3fu8, 0x31u8, 0x3bu8, 0x32u8, 0x63u8]);
        } else if action == 'q' && contains_byte(intermediates, 0x20) {
            if status <= 1 {
                self.active().set_cursor_style(CursorShape::Block, true);
            } else if status == 2 {
                self.active().set_cursor_style(CursorShape::Block, false);
            } else if status == 3 {
                self.active().set_cursor_style(CursorShape::Underline, true);
            } else if status == 4 {
                self.active().set_cursor_style(CursorShape::Underline, false);
            } else if status == 5 {
                self.active().set_cursor_style(CursorShape::Bar, true);
            } else if status == 6 {
                self.active().set_cursor_style(CursorShape::Bar, false);
            }
        }
    }

    #[verifier::rlimit(100)]
    fn csi_other(&mut self, params: &Vec<Vec<u16>>, intermediates: &[u8], action: char)
        requires
            old(self)@.wf(),
        ensures
            final(self)@ == old(self)@.csi_other(params_view(params@), intermediates@, action),
            final(self)@.wf(),
    {
        let private = contains_byte(intermediates, 0x3f);
        if action == 'r' && !private {
            let rows = self.screen().rows();
            let top = param(params, 0, 1);
            let bottom = param(params, 1, rows as u16) as usize;
            self.active().set_scroll_region(
                top.saturating_sub(1) as usize,
                if bottom < rows { bottom } else { rows },
            );
        } else if action == 'g' {
            let all = param(params, 0, 0) == 3;
            self.active().clear_tab_stop(all);
        } else if action == 'm' {
            let flat = all_values(params);
            let values = if flat.len() == 0 { vec![0u16] } else { flat };
            proof {
                assert(values@ == sgr_values(params_view(params@)));
            }
            let screen = self.active();
            let attributes = apply_sgr_values(screen.attributes(), &values);
            screen.set_attributes(attributes);
        } else if action == 's' {
            self.active().save_cursor();
        } else if action == 'u' {
            self.active().restore_cursor();
        } else if action == 'h' || action == 'l' {
            self.set_modes(params, private, action == 'h');
        } else if action == 'n' || action == 'c' || action == 'q' {
            self.csi_report(params, intermediates, action);
        }
    }

    /// Runs a control sequence `CSI params intermediates action`.
    pub fn csi_dispatch(
        &mut self,
        params: &Vec<Vec<u16>>,
        intermediates: &[u8],
        ignore: bool,
        action: char,
    )
        requires
            old(self)@.wf(),
        ensures
            final(self)@ == old(self)@.csi_dispatch(params_view(params@), intermediates@, ignore, action),
            final(self)@.wf(),
    {
        if ignore {
            return;
        }
        if action == 'A' || action == 'B' || action == 'C' || action == 'a' || action == 'D'
            || action == 'E' || action == 'F' || action == 'G' || action == '`' || action == 'd'
            || action == 'H' || action == 'f' {
            self.csi_cursor(params, action);
        } else if action == 'J' || action == 'K' || action == '@' || action == 'P' || action
            == 'X' || action == 'L' || action == 'M' || action == 'S' || action == 'T' {
            self.csi_edit(params, action);
        } else {
            self.csi_other(params, intermediates, action);
        }
    }

    /// Runs an escape sequence `ESC intermediates byte`.
    #[verifier::rlimit(100)]
    pub fn esc_dispatch(&mut self, intermediates: &[u8], ignore: bool, byte: u8)
        requires
            old(self)@.wf(),
        ensures
            final(self)@ == old(self)@.esc_dispatch(ignore, byte),
            final(self)@.wf(),
    {
        if ignore {
            return;
        }
        if byte == 0x37 {
            self.active().save_cursor();
        } else if byte == 0x38 {
            self.active().restore_cursor();
        } else if byte == 0x44 {
            self.active().line_feed();
        } else if byte == 0x45 {
            let screen = self.active();
            screen.line_feed();
            screen.carriage_return();
        } else if byte == 0x4d {
            self.active().reverse_index();
        } else if byte == 0x48 {
            self.active().set_tab_stop();
        } else if byte == 0x63 {
            self.reset();
        }
    }

    /// Runs an operating system command.
    pub fn osc_dispatch(&mut self, params: &Vec<Vec<u8>>, bell_terminated: bool)
        requires
            old(self)@.wf(),
        ensures
            final(self)@ == old(self)@.osc_dispatch(bytes_view(params@)),
            final(self)@.wf(),
    {
        if params.len() == 0 {
            return;
        }
        let ghost command = bytes_view(params@)[0];
        assert(command == params@[0]@);
        let zero = is_single_byte(&params[0], 0x30);
        let two = is_single_byte(&params[0], 0x32);
        let eight = is_single_byte(&params[0], 0x38);
        let seven = is_single_byte(&params[0], 0x37);
        if zero || two {
            self.title = osc_string(params, 1);
            self.title_generation = self.title_generation.wrapping_add(1);
        } else if eight {
            let uri = osc_string(params, 2);
            let ghost text = uri@;
            let link = if uri.as_str().unicode_len() == 0 { None } else { Some(uri) };
            assert(option_string_view(link) == (if text.len() == 0 { None } else { Some(text) }));
            self.active().set_active_hyperlink(link);
        } else if seven {
            let mut directory: Option<String> = None;
            if 1 < params.len() {
                match decode_utf8_string(params[1].as_slice()) {
                    Some(text) => {
                        let characters = chars_of(text.as_str());
                        let scheme = vec!['f', 'i', 'l', 'e', ':', '/', '/'];
                        let mut prefix = characters.len() >= scheme.len();
                        let mut k: usize = 0;
                        while prefix && k < scheme.len()
                            invariant
                                k <= scheme@.len() == 7,
                                scheme@ == file_scheme(),
                                prefix ==> characters@.len() >= 7,
                                prefix ==> forall|j: int| 0 <= j < k ==> characters@[j] == scheme@[j],
                                !prefix ==> !starts_with(characters@, file_scheme()),
                            decreases scheme@.len() - k,
                        {
                            if characters[k] != scheme[k] {
                                prefix = false;
                                proof {
                                    assert(characters@.take(7)[k as int] != file_scheme()[k as int]);
                                }
                            }
                            k += 1;
                        }
                        proof {
                            if prefix {
                                assert(characters@.take(7) =~= file_scheme());
                            }
                        }
                        if prefix {
                            directory = Some(text);
                        }
                    },
                    None => {},
                }
            }
            self.working_directory_uri = directory;
        }
    }
}

} // verus!
