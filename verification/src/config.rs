use vstd::prelude::*;
use vstd::utf8::{encode_scalar, encode_utf8};

use crate::cell::{option_string_view, Rgb};
use crate::screen::CursorShape;
use crate::text::{append_str, ascii_lower_seq, ascii_lowercase_chars, chars_of, push_char, str_equals, string_from_chars, string_of};

verus! {

/// The value of a hexadecimal digit.
pub open spec fn hex_digit_value(c: char) -> Option<nat> {
    if '0' <= c && c <= '9' {
        Some((c as u32 - '0' as u32) as nat)
    } else if 'a' <= c && c <= 'f' {
        Some((c as u32 - 'a' as u32 + 10) as nat)
    } else if 'A' <= c && c <= 'F' {
        Some((c as u32 - 'A' as u32 + 10) as nat)
    } else {
        None
    }
}

/// The number that a run of hexadecimal digits spells.
pub open spec fn hex_number(digits: Seq<char>) -> Option<nat>
    decreases digits.len(),
{
    if digits.len() == 0 {
        Some(0)
    } else {
        match (hex_number(digits.drop_last()), hex_digit_value(digits.last())) {
            (Some(high), Some(low)) => Some(high * 16 + low),
            _ => None,
        }
    }
}

/// The number `u32::from_str_radix(text, 16)` reads from a short text: an optional `+`, then
/// at least one hexadecimal digit.
pub open spec fn radix16_number(text: Seq<char>) -> Option<nat> {
    if text.len() > 0 && text[0] == '+' {
        if text.len() == 1 {
            None
        } else {
            hex_number(text.drop_first())
        }
    } else if text.len() == 0 {
        None
    } else {
        hex_number(text)
    }
}

/// A color value without its optional leading `#`.
pub open spec fn without_hash(value: Seq<char>) -> Seq<char> {
    if value.len() > 0 && value[0] == '#' {
        value.drop_first()
    } else {
        value
    }
}

/// A `#rrggbb` or `rrggbb` color, or the message that rejects it: the text after `#` must be
/// six bytes long and hexadecimal.
#[verifier::opaque]
pub open spec fn hex_color(value: Seq<char>) -> Result<Rgb, Seq<char>> {
    let digits = without_hash(value);
    if encode_utf8(digits).len() != 6 {
        Err("'"@ + digits + "' is not a six-digit RGB color"@)
    } else {
        match radix16_number(digits) {
            None => Err("'"@ + digits + "' is not hexadecimal"@),
            Some(number) => Ok(
                Rgb {
                    r: (number / 65536 % 256) as u8,
                    g: (number / 256 % 256) as u8,
                    b: (number % 256) as u8,
                },
            ),
        }
    }
}

proof fn lemma_encoding_is_no_shorter(chars: Seq<char>)
    ensures
        encode_utf8(chars).len() >= chars.len(),
    decreases chars.len(),
{
    if chars.len() > 0 {
        lemma_encoding_is_no_shorter(chars.drop_first());
        assert(encode_scalar(chars[0] as u32).len() >= 1);
    }
}

proof fn lemma_hex_number_bound(digits: Seq<char>)
    ensures
        hex_number(digits) matches Some(number) ==> number < pow16(digits.len()),
    decreases digits.len(),
{
    if digits.len() > 0 {
        lemma_hex_number_bound(digits.drop_last());
    }
}

pub open spec fn pow16(exponent: nat) -> nat
    decreases exponent,
{
    if exponent == 0 {
        1
    } else {
        16 * pow16((exponent - 1) as nat)
    }
}

fn hex_digit(c: char) -> (value: Option<u32>)
    ensures
        match value {
            Some(value) => hex_digit_value(c) == Some(value as nat) && value < 16,
            None => hex_digit_value(c) is None,
        },
{
    if '0' <= c && c <= '9' {
        Some(c as u32 - '0' as u32)
    } else if 'a' <= c && c <= 'f' {
        Some(c as u32 - 'a' as u32 + 10)
    } else if 'A' <= c && c <= 'F' {
        Some(c as u32 - 'A' as u32 + 10)
    } else {
        None
    }
}

/// Parses a `#rrggbb` or `rrggbb` color.
pub fn parse_hex(value: &str) -> (parsed: Result<Rgb, String>)
    ensures
        match parsed {
            Ok(color) => hex_color(value@) == Ok::<Rgb, Seq<char>>(color),
            Err(message) => hex_color(value@) == Err::<Rgb, Seq<char>>(message@),
        },
{
    reveal(hex_color);
    let characters = chars_of(value);
    let mut digits: Vec<char> = Vec::new();
    let start: usize = if characters.len() > 0 && characters[0] == '#' { 1 } else { 0 };
    let mut index: usize = start;
    while index < characters.len()
        invariant
            start <= index <= characters@.len(),
            digits@ == characters@.subrange(start as int, index as int),
        decreases characters@.len() - index,
    {
        digits.push(characters[index]);
        index += 1;
        proof {
            assert(digits@ =~= characters@.subrange(start as int, index as int));
        }
    }
    proof {
        assert(digits@ =~= without_hash(value@));
    }
    let text = string_from_chars(&digits);
    if text.as_str().as_bytes().len() != 6 {
        let mut message = string_of("'");
        append_str(&mut message, text.as_str());
        append_str(&mut message, "' is not a six-digit RGB color");
        return Err(message);
    }
    proof {
        lemma_encoding_is_no_shorter(digits@);
        assert(text@ == digits@);
        assert(encode_utf8(digits@).len() == 6);
    }
    let signed: usize = if digits.len() > 0 && digits[0] == '+' { 1 } else { 0 };
    let mut number: u32 = 0;
    let mut valid = digits.len() > signed;
    let mut position: usize = signed;
    proof {
        assert(digits@.subrange(signed as int, signed as int) =~= Seq::<char>::empty());
    }
    while valid && position < digits.len()
        invariant
            digits@.len() <= 6,
            signed <= position <= digits@.len(),
            valid ==> hex_number(digits@.subrange(signed as int, position as int)) == Some(number as nat),
            valid ==> number < pow16((position - signed) as nat),
            valid ==> digits@.len() > signed,
            signed == 1 <==> (digits@.len() > 0 && digits@[0] == '+'),
            signed <= 1,
            !valid ==> radix16_number(digits@) is None,
        decreases digits@.len() - position + (if valid { 1int } else { 0int }),
    {
        proof {
            assert(digits@.subrange(signed as int, position + 1).drop_last() =~= digits@.subrange(
                signed as int,
                position as int,
            ));
        }
        match hex_digit(digits[position]) {
            Some(low) => {
                proof {
                    assert(pow16((position + 1 - signed) as nat) == 16 * pow16((position - signed) as nat));
                    assert(pow16(6) == 16777216) by {
                        reveal_with_fuel(pow16, 7);
                    }
                    lemma_pow16_monotone((position + 1 - signed) as nat, 6);
                }
                number = number * 16 + low;
                position += 1;
            },
            None => {
                proof {
                    let tail = digits@.subrange(signed as int, digits@.len() as int);
                    assert(tail[position - signed] == digits@[position as int]);
                    lemma_hex_number_invalid(tail, position - signed);
                    if signed == 1 {
                        assert(digits@.drop_first() =~= tail);
                    } else {
                        assert(tail =~= digits@);
                    }
                    assert(radix16_number(digits@) is None);
                }
                valid = false;
            },
        }
    }
    if !valid {
        let mut message = string_of("'");
        append_str(&mut message, text.as_str());
        append_str(&mut message, "' is not hexadecimal");
        return Err(message);
    }
    proof {
        if signed == 1 {
            assert(digits@.drop_first() =~= digits@.subrange(1, digits@.len() as int));
        } else {
            assert(digits@ =~= digits@.subrange(0, digits@.len() as int));
        }
    }
    Ok(Rgb::new((number / 65536 % 256) as u8, (number / 256 % 256) as u8, (number % 256) as u8))
}

proof fn lemma_pow16_monotone(low: nat, high: nat)
    requires
        low <= high,
    ensures
        pow16(low) <= pow16(high),
    decreases high,
{
    if low < high {
        lemma_pow16_monotone(low, (high - 1) as nat);
    }
}

/// A digit that is not hexadecimal spoils every run that holds it.
proof fn lemma_hex_number_invalid(digits: Seq<char>, index: int)
    requires
        0 <= index < digits.len(),
        hex_digit_value(digits[index]) is None,
    ensures
        hex_number(digits) is None,
    decreases digits.len(),
{
    if index < digits.len() - 1 {
        lemma_hex_number_invalid(digits.drop_last(), index);
    }
}


/// How the cursor is drawn: `block`, `bar` (or `beam`), `underline`.
#[derive(Clone, Debug)]
pub struct CursorConfig {
    pub style: String,
}

impl Default for CursorConfig {
    fn default() -> (config: CursorConfig)
        ensures
            config.style@ == "block"@,
    {
        CursorConfig { style: string_of("block") }
    }
}

/// The cursor shape a style name selects, ignoring ASCII case; unknown names give a block.
pub open spec fn cursor_shape_of(style: Seq<char>) -> CursorShape {
    let lower = ascii_lower_seq(style);
    if lower == "bar"@ || lower == "beam"@ {
        CursorShape::Bar
    } else if lower == "underline"@ {
        CursorShape::Underline
    } else {
        CursorShape::Block
    }
}

impl CursorConfig {
    /// The cursor shape this style selects.
    pub fn shape(&self) -> (shape: CursorShape)
        ensures
            shape == cursor_shape_of(self.style@),
    {
        let lower = ascii_lowercase_chars(&chars_of(self.style.as_str()));
        if str_equals("bar", &lower) || str_equals("beam", &lower) {
            CursorShape::Bar
        } else if str_equals("underline", &lower) {
            CursorShape::Underline
        } else {
            CursorShape::Block
        }
    }
}

/// Colors set directly in the configuration, over the theme's.
#[derive(Clone, Debug)]
pub struct ColorOverrides {
    pub foreground: Option<String>,
    pub background: Option<String>,
    pub selection_foreground: Option<String>,
    pub selection_background: Option<String>,
}

impl Default for ColorOverrides {
    fn default() -> (colors: ColorOverrides)
        ensures
            colors.foreground is None,
            colors.background is None,
            colors.selection_foreground is None,
            colors.selection_background is None,
    {
        ColorOverrides {
            foreground: None,
            background: None,
            selection_foreground: None,
            selection_background: None,
        }
    }
}

/// Whether the previous session's windows and tabs are restored at start.
#[derive(Clone, Debug)]
pub struct WorkspaceConfig {
    pub restore: bool,
}

impl Default for WorkspaceConfig {
    fn default() -> (config: WorkspaceConfig)
        ensures
            config.restore,
    {
        WorkspaceConfig { restore: true }
    }
}

/// The active theme's name and an optional file of theme colors to import.
#[derive(Clone, Debug)]
pub struct ThemeConfig {
    pub active: String,
    pub import: Option<String>,
}

impl Default for ThemeConfig {
    fn default() -> (config: ThemeConfig)
        ensures
            config.active@ == "dark"@,
            config.import is None,
    {
        ThemeConfig { active: string_of("dark"), import: None }
    }
}

/// A theme's colors as configured text; unset colors keep the base theme's.
#[derive(Clone, Debug)]
pub struct ThemeDefinition {
    pub foreground: Option<String>,
    pub background: Option<String>,
    pub ansi: Vec<String>,
    pub cursor: Option<String>,
    pub selection_foreground: Option<String>,
    pub selection_background: Option<String>,
    pub tab_bar: Option<String>,
    pub inactive_tab: Option<String>,
    pub active_tab: Option<String>,
    pub pane_border: Option<String>,
}

impl Default for ThemeDefinition {
    fn default() -> (definition: ThemeDefinition)
        ensures
            definition.foreground is None,
            definition.background is None,
            definition.ansi@.len() == 0,
            definition.cursor is None,
            definition.selection_foreground is None,
            definition.selection_background is None,
            definition.tab_bar is None,
            definition.inactive_tab is None,
            definition.active_tab is None,
            definition.pane_border is None,
    {
        ThemeDefinition {
            foreground: None,
            background: None,
            ansi: Vec::new(),
            cursor: None,
            selection_foreground: None,
            selection_background: None,
            tab_bar: None,
            inactive_tab: None,
            active_tab: None,
            pane_border: None,
        }
    }
}

/// The resolved colors of a theme.
#[derive(Clone, Debug)]
pub struct ThemePalette {
    pub name: String,
    pub foreground: Rgb,
    pub background: Rgb,
    pub ansi: [Rgb; 16],
    pub cursor: Rgb,
    pub selection_foreground: Rgb,
    pub selection_background: Rgb,
    pub tab_bar: Rgb,
    pub inactive_tab: Rgb,
    pub active_tab: Rgb,
    pub pane_border: Rgb,
}

pub open spec fn messages_view(messages: Seq<String>) -> Seq<Seq<char>> {
    messages.map_values(|message: String| message@)
}

/// The color after a configured value: the value's color when it parses, else unchanged.
pub open spec fn color_after(current: Rgb, value: Option<Seq<char>>) -> Rgb {
    match value {
        Some(text) => match hex_color(text) {
            Ok(color) => color,
            Err(_) => current,
        },
        None => current,
    }
}

/// The message a configured color value gives: `name: error` when it does not parse.
pub open spec fn color_messages(value: Option<Seq<char>>, name: Seq<char>) -> Seq<Seq<char>> {
    match value {
        Some(text) => match hex_color(text) {
            Ok(_) => Seq::empty(),
            Err(error) => seq![name + ": "@ + error],
        },
        None => Seq::empty(),
    }
}

/// Applies a configured color to `target`, or records why it was rejected.
pub fn apply_color(target: &mut Rgb, value: &Option<String>, name: &str, diagnostics: &mut Vec<String>)
    ensures
        *final(target) == color_after(*old(target), option_string_view(*value)),
        messages_view(final(diagnostics)@) == messages_view(old(diagnostics)@) + color_messages(
            option_string_view(*value),
            name@,
        ),
{
    let ghost before = messages_view(diagnostics@);
    match value {
        Some(text) => match parse_hex(text.as_str()) {
            Ok(color) => {
                *target = color;
                proof {
                    assert(messages_view(diagnostics@) =~= before + Seq::<Seq<char>>::empty());
                }
            },
            Err(error) => {
                let mut message = string_of(name);
                append_str(&mut message, ": ");
                append_str(&mut message, error.as_str());
                let ghost text = message@;
                diagnostics.push(message);
                proof {
                    assert(messages_view(diagnostics@) =~= before + seq![text]);
                }
            },
        },
        None => {
            proof {
                assert(messages_view(diagnostics@) =~= before + Seq::<Seq<char>>::empty());
            }
        },
    }
}

/// The decimal text of a number below 100.
pub open spec fn small_decimal(n: nat) -> Seq<char> {
    if n < 10 {
        seq![('0' as u32 + n) as char]
    } else {
        seq![('0' as u32 + n / 10) as char, ('0' as u32 + n % 10) as char]
    }
}

/// The palette colors after the first `count` configured ANSI colors.
pub open spec fn ansi_after(current: Seq<Rgb>, values: Seq<Seq<char>>, count: nat) -> Seq<Rgb>
    decreases count,
{
    if count == 0 {
        current
    } else {
        let before = ansi_after(current, values, (count - 1) as nat);
        match hex_color(values[count - 1]) {
            Ok(color) => before.update(count - 1, color),
            Err(_) => before,
        }
    }
}

/// The messages for the first `count` configured ANSI colors: `ansi[i]: error` for each one
/// that does not parse.
pub open spec fn ansi_messages(values: Seq<Seq<char>>, count: nat) -> Seq<Seq<char>>
    decreases count,
{
    if count == 0 {
        Seq::empty()
    } else {
        let before = ansi_messages(values, (count - 1) as nat);
        match hex_color(values[count - 1]) {
            Ok(_) => before,
            Err(error) => before.push("ansi["@ + small_decimal((count - 1) as nat) + "]: "@ + error),
        }
    }
}

/// How many configured ANSI colors are read: at most sixteen.
pub open spec fn ansi_count(values: Seq<Seq<char>>) -> nat {
    if values.len() < 16 {
        values.len()
    } else {
        16
    }
}

/// The message about a configured ANSI list that is neither empty nor sixteen long.
pub open spec fn ansi_length_messages(values: Seq<Seq<char>>) -> Seq<Seq<char>> {
    if values.len() != 0 && values.len() != 16 {
        seq!["custom theme ansi should contain exactly 16 colors"@]
    } else {
        Seq::empty()
    }
}

fn push_small_decimal(text: &mut String, n: usize)
    requires
        n < 100,
    ensures
        final(text)@ == old(text)@ + small_decimal(n as nat),
{
    let ghost before = text@;
    if n < 10 {
        let digit: u8 = 48 + n as u8;
        push_char(text, digit as char);
    } else {
        let tens: u8 = 48 + (n / 10) as u8;
        let ones: u8 = 48 + (n % 10) as u8;
        push_char(text, tens as char);
        push_char(text, ones as char);
    }
    proof {
        assert(text@ =~= before + small_decimal(n as nat));
    }
}

/// The color a valid color text names.
pub open spec fn color_of(text: Seq<char>) -> Rgb {
    match hex_color(text) {
        Ok(color) => color,
        Err(_) => Rgb { r: 0, g: 0, b: 0 },
    }
}

/// Six hexadecimal digits always make a color.
proof fn lemma_six_hex_digits(text: Seq<char>, a: char, b: char, c: char, d: char, e: char, f: char)
    requires
        text =~= seq![a, b, c, d, e, f],
        hex_digit_value(a) is Some,
        hex_digit_value(b) is Some,
        hex_digit_value(c) is Some,
        hex_digit_value(d) is Some,
        hex_digit_value(e) is Some,
        hex_digit_value(f) is Some,
    ensures
        hex_color(text) is Ok,
{
    reveal(hex_color);
    assert(without_hash(text) == text);
    reveal_with_fuel(encode_utf8, 7);
    assert(text.drop_first() =~= seq![b, c, d, e, f]);
    assert(text.drop_first().drop_first() =~= seq![c, d, e, f]);
    assert(text.drop_first().drop_first().drop_first() =~= seq![d, e, f]);
    assert(text.drop_first().drop_first().drop_first().drop_first() =~= seq![e, f]);
    assert(text.drop_first().drop_first().drop_first().drop_first().drop_first() =~= seq![f]);
    assert(text.drop_first().drop_first().drop_first().drop_first().drop_first().drop_first() =~= Seq::<char>::empty());
    assert(encode_utf8(text).len() == 6);
    reveal_with_fuel(hex_number, 7);
    assert(text.drop_last() =~= seq![a, b, c, d, e]);
    assert(text.drop_last().drop_last() =~= seq![a, b, c, d]);
    assert(text.drop_last().drop_last().drop_last() =~= seq![a, b, c]);
    assert(text.drop_last().drop_last().drop_last().drop_last() =~= seq![a, b]);
    assert(text.drop_last().drop_last().drop_last().drop_last().drop_last() =~= seq![a]);
    assert(text.drop_last().drop_last().drop_last().drop_last().drop_last().drop_last() =~= Seq::<char>::empty());
    assert(hex_number(text) is Some);
}

/// The color a built-in color text names.
fn rgb(value: &str) -> (color: Rgb)
    requires
        hex_color(value@) is Ok,
    ensures
        color == color_of(value@),
{
    match parse_hex(value) {
        Ok(color) => color,
        Err(_) => Rgb::new(0, 0, 0),
    }
}


pub open spec fn ansi_dark_view() -> Seq<Rgb> {
    seq![
        color_of("000000"@),
        color_of("cd3131"@),
        color_of("0dbc79"@),
        color_of("e5e510"@),
        color_of("2472c8"@),
        color_of("bc3fbc"@),
        color_of("11a8cd"@),
        color_of("e5e5e5"@),
        color_of("666666"@),
        color_of("f14c4c"@),
        color_of("23d18b"@),
        color_of("f5f543"@),
        color_of("3b8eea"@),
        color_of("d670d6"@),
        color_of("29b8db"@),
        color_of("ffffff"@),
    ]
}

fn ansi_dark() -> (colors: [Rgb; 16])
    ensures
        colors@ == ansi_dark_view(),
{
    proof {
        assert(hex_color("000000"@) is Ok) by {
            reveal_strlit("000000");
            lemma_six_hex_digits("000000"@, '0', '0', '0', '0', '0', '0');
        }
        assert(hex_color("cd3131"@) is Ok) by {
            reveal_strlit("cd3131");
            lemma_six_hex_digits("cd3131"@, 'c', 'd', '3', '1', '3', '1');
        }
        assert(hex_color("0dbc79"@) is Ok) by {
            reveal_strlit("0dbc79");
            lemma_six_hex_digits("0dbc79"@, '0', 'd', 'b', 'c', '7', '9');
        }
        assert(hex_color("e5e510"@) is Ok) by {
            reveal_strlit("e5e510");
            lemma_six_hex_digits("e5e510"@, 'e', '5', 'e', '5', '1', '0');
        }
        assert(hex_color("2472c8"@) is Ok) by {
            reveal_strlit("2472c8");
            lemma_six_hex_digits("2472c8"@, '2', '4', '7', '2', 'c', '8');
        }
        assert(hex_color("bc3fbc"@) is Ok) by {
            reveal_strlit("bc3fbc");
            lemma_six_hex_digits("bc3fbc"@, 'b', 'c', '3', 'f', 'b', 'c');
        }
        assert(hex_color("11a8cd"@) is Ok) by {
            reveal_strlit("11a8cd");
            lemma_six_hex_digits("11a8cd"@, '1', '1', 'a', '8', 'c', 'd');
        }
        assert(hex_color("e5e5e5"@) is Ok) by {
            reveal_strlit("e5e5e5");
            lemma_six_hex_digits("e5e5e5"@, 'e', '5', 'e', '5', 'e', '5');
        }
        assert(hex_color("666666"@) is Ok) by {
            reveal_strlit("666666");
            lemma_six_hex_digits("666666"@, '6', '6', '6', '6', '6', '6');
        }
        assert(hex_color("f14c4c"@) is Ok) by {
            reveal_strlit("f14c4c");
            lemma_six_hex_digits("f14c4c"@, 'f', '1', '4', 'c', '4', 'c');
        }
        assert(hex_color("23d18b"@) is Ok) by {
            reveal_strlit("23d18b");
            lemma_six_hex_digits("23d18b"@, '2', '3', 'd', '1', '8', 'b');
        }
        assert(hex_color("f5f543"@) is Ok) by {
            reveal_strlit("f5f543");
            lemma_six_hex_digits("f5f543"@, 'f', '5', 'f', '5', '4', '3');
        }
        assert(hex_color("3b8eea"@) is Ok) by {
            reveal_strlit("3b8eea");
            lemma_six_hex_digits("3b8eea"@, '3', 'b', '8', 'e', 'e', 'a');
        }
        assert(hex_color("d670d6"@) is Ok) by {
            reveal_strlit("d670d6");
            lemma_six_hex_digits("d670d6"@, 'd', '6', '7', '0', 'd', '6');
        }
        assert(hex_color("29b8db"@) is Ok) by {
            reveal_strlit("29b8db");
            lemma_six_hex_digits("29b8db"@, '2', '9', 'b', '8', 'd', 'b');
        }
        assert(hex_color("ffffff"@) is Ok) by {
            reveal_strlit("ffffff");
            lemma_six_hex_digits("ffffff"@, 'f', 'f', 'f', 'f', 'f', 'f');
        }
    }
    let colors = [
        rgb("000000"),
        rgb("cd3131"),
        rgb("0dbc79"),
        rgb("e5e510"),
        rgb("2472c8"),
        rgb("bc3fbc"),
        rgb("11a8cd"),
        rgb("e5e5e5"),
        rgb("666666"),
        rgb("f14c4c"),
        rgb("23d18b"),
        rgb("f5f543"),
        rgb("3b8eea"),
        rgb("d670d6"),
        rgb("29b8db"),
        rgb("ffffff"),
    ];
    proof {
        assert(colors@ =~= ansi_dark_view());
    }
    colors
}


pub open spec fn ansi_light_view() -> Seq<Rgb> {
    seq![
        color_of("000000"@),
        color_of("c91b00"@),
        color_of("00c200"@),
        color_of("c7c400"@),
        color_of("0225c7"@),
        color_of("ca30c7"@),
        color_of("00c5c7"@),
        color_of("c7c7c7"@),
        color_of("686868"@),
        color_of("ff6e67"@),
        color_of("5ffa68"@),
        color_of("fffc67"@),
        color_of("6871ff"@),
        color_of("ff77ff"@),
        color_of("60fdff"@),
        color_of("ffffff"@),
    ]
}

fn ansi_light() -> (colors: [Rgb; 16])
    ensures
        colors@ == ansi_light_view(),
{
    proof {
        assert(hex_color("000000"@) is Ok) by {
            reveal_strlit("000000");
            lemma_six_hex_digits("000000"@, '0', '0', '0', '0', '0', '0');
        }
        assert(hex_color("c91b00"@) is Ok) by {
            reveal_strlit("c91b00");
            lemma_six_hex_digits("c91b00"@, 'c', '9', '1', 'b', '0', '0');
        }
        assert(hex_color("00c200"@) is Ok) by {
            reveal_strlit("00c200");
            lemma_six_hex_digits("00c200"@, '0', '0', 'c', '2', '0', '0');
        }
        assert(hex_color("c7c400"@) is Ok) by {
            reveal_strlit("c7c400");
            lemma_six_hex_digits("c7c400"@, 'c', '7', 'c', '4', '0', '0');
        }
        assert(hex_color("0225c7"@) is Ok) by {
            reveal_strlit("0225c7");
            lemma_six_hex_digits("0225c7"@, '0', '2', '2', '5', 'c', '7');
        }
        assert(hex_color("ca30c7"@) is Ok) by {
            reveal_strlit("ca30c7");
            lemma_six_hex_digits("ca30c7"@, 'c', 'a', '3', '0', 'c', '7');
        }
        assert(hex_color("00c5c7"@) is Ok) by {
            reveal_strlit("00c5c7");
            lemma_six_hex_digits("00c5c7"@, '0', '0', 'c', '5', 'c', '7');
        }
        assert(hex_color("c7c7c7"@) is Ok) by {
            reveal_strlit("c7c7c7");
            lemma_six_hex_digits("c7c7c7"@, 'c', '7', 'c', '7', 'c', '7');
        }
        assert(hex_color("686868"@) is Ok) by {
            reveal_strlit("686868");
            lemma_six_hex_digits("686868"@, '6', '8', '6', '8', '6', '8');
        }
        assert(hex_color("ff6e67"@) is Ok) by {
            reveal_strlit("ff6e67");
            lemma_six_hex_digits("ff6e67"@, 'f', 'f', '6', 'e', '6', '7');
        }
        assert(hex_color("5ffa68"@) is Ok) by {
            reveal_strlit("5ffa68");
            lemma_six_hex_digits("5ffa68"@, '5', 'f', 'f', 'a', '6', '8');
        }
        assert(hex_color("fffc67"@) is Ok) by {
            reveal_strlit("fffc67");
            lemma_six_hex_digits("fffc67"@, 'f', 'f', 'f', 'c', '6', '7');
        }
        assert(hex_color("6871ff"@) is Ok) by {
            reveal_strlit("6871ff");
            lemma_six_hex_digits("6871ff"@, '6', '8', '7', '1', 'f', 'f');
        }
        assert(hex_color("ff77ff"@) is Ok) by {
            reveal_strlit("ff77ff");
            lemma_six_hex_digits("ff77ff"@, 'f', 'f', '7', '7', 'f', 'f');
        }
        assert(hex_color("60fdff"@) is Ok) by {
            reveal_strlit("60fdff");
            lemma_six_hex_digits("60fdff"@, '6', '0', 'f', 'd', 'f', 'f');
        }
        assert(hex_color("ffffff"@) is Ok) by {
            reveal_strlit("ffffff");
            lemma_six_hex_digits("ffffff"@, 'f', 'f', 'f', 'f', 'f', 'f');
        }
    }
    let colors = [
        rgb("000000"),
        rgb("c91b00"),
        rgb("00c200"),
        rgb("c7c400"),
        rgb("0225c7"),
        rgb("ca30c7"),
        rgb("00c5c7"),
        rgb("c7c7c7"),
        rgb("686868"),
        rgb("ff6e67"),
        rgb("5ffa68"),
        rgb("fffc67"),
        rgb("6871ff"),
        rgb("ff77ff"),
        rgb("60fdff"),
        rgb("ffffff"),
    ];
    proof {
        assert(colors@ =~= ansi_light_view());
    }
    colors
}


impl ThemePalette {

    /// The built-in dark theme.
    pub fn dark() -> (palette: ThemePalette)
        ensures
            palette.name@ == "dark"@,
            palette.ansi@ == ansi_dark_view(),
            ({
                &&& palette.foreground == color_of("dadada"@)
                &&& palette.background == color_of("121212"@)
                &&& palette.cursor == color_of("f4f4f4"@)
                &&& palette.selection_foreground == color_of("ffffff"@)
                &&& palette.selection_background == color_of("37526e"@)
                &&& palette.tab_bar == color_of("191919"@)
                &&& palette.inactive_tab == color_of("222222"@)
                &&& palette.active_tab == color_of("303030"@)
                &&& palette.pane_border == color_of("454545"@)
            }),
    {
        proof {
                assert(hex_color("dadada"@) is Ok) by {
                    reveal_strlit("dadada");
                    lemma_six_hex_digits("dadada"@, 'd', 'a', 'd', 'a', 'd', 'a');
                }
                assert(hex_color("121212"@) is Ok) by {
                    reveal_strlit("121212");
                    lemma_six_hex_digits("121212"@, '1', '2', '1', '2', '1', '2');
                }
                assert(hex_color("f4f4f4"@) is Ok) by {
                    reveal_strlit("f4f4f4");
                    lemma_six_hex_digits("f4f4f4"@, 'f', '4', 'f', '4', 'f', '4');
                }
                assert(hex_color("ffffff"@) is Ok) by {
                    reveal_strlit("ffffff");
                    lemma_six_hex_digits("ffffff"@, 'f', 'f', 'f', 'f', 'f', 'f');
                }
                assert(hex_color("37526e"@) is Ok) by {
                    reveal_strlit("37526e");
                    lemma_six_hex_digits("37526e"@, '3', '7', '5', '2', '6', 'e');
                }
                assert(hex_color("191919"@) is Ok) by {
                    reveal_strlit("191919");
                    lemma_six_hex_digits("191919"@, '1', '9', '1', '9', '1', '9');
                }
                assert(hex_color("222222"@) is Ok) by {
                    reveal_strlit("222222");
                    lemma_six_hex_digits("222222"@, '2', '2', '2', '2', '2', '2');
                }
                assert(hex_color("303030"@) is Ok) by {
                    reveal_strlit("303030");
                    lemma_six_hex_digits("303030"@, '3', '0', '3', '0', '3', '0');
                }
                assert(hex_color("454545"@) is Ok) by {
                    reveal_strlit("454545");
                    lemma_six_hex_digits("454545"@, '4', '5', '4', '5', '4', '5');
                }
        }
        ThemePalette {
            name: string_of("dark"),
            foreground: rgb("dadada"),
            background: rgb("121212"),
            cursor: rgb("f4f4f4"),
            selection_foreground: rgb("ffffff"),
            selection_background: rgb("37526e"),
            tab_bar: rgb("191919"),
            inactive_tab: rgb("222222"),
            active_tab: rgb("303030"),
            pane_border: rgb("454545"),
            ansi: ansi_dark(),
        }
    }


    /// The built-in light theme.
    pub fn light() -> (palette: ThemePalette)
        ensures
            palette.name@ == "light"@,
            palette.ansi@ == ansi_light_view(),
            ({
                &&& palette.foreground == color_of("202124"@)
                &&& palette.background == color_of("fafafa"@)
                &&& palette.cursor == color_of("202124"@)
                &&& palette.selection_foreground == color_of("101010"@)
                &&& palette.selection_background == color_of("b8d7ff"@)
                &&& palette.tab_bar == color_of("e8e8e8"@)
                &&& palette.inactive_tab == color_of("dedede"@)
                &&& palette.active_tab == color_of("ffffff"@)
                &&& palette.pane_border == color_of("b8b8b8"@)
            }),
    {
        proof {
                assert(hex_color("202124"@) is Ok) by {
                    reveal_strlit("202124");
                    lemma_six_hex_digits("202124"@, '2', '0', '2', '1', '2', '4');
                }
                assert(hex_color("fafafa"@) is Ok) by {
                    reveal_strlit("fafafa");
                    lemma_six_hex_digits("fafafa"@, 'f', 'a', 'f', 'a', 'f', 'a');
                }
                assert(hex_color("202124"@) is Ok) by {
                    reveal_strlit("202124");
                    lemma_six_hex_digits("202124"@, '2', '0', '2', '1', '2', '4');
                }
                assert(hex_color("101010"@) is Ok) by {
                    reveal_strlit("101010");
                    lemma_six_hex_digits("101010"@, '1', '0', '1', '0', '1', '0');
                }
                assert(hex_color("b8d7ff"@) is Ok) by {
                    reveal_strlit("b8d7ff");
                    lemma_six_hex_digits("b8d7ff"@, 'b', '8', 'd', '7', 'f', 'f');
                }
                assert(hex_color("e8e8e8"@) is Ok) by {
                    reveal_strlit("e8e8e8");
                    lemma_six_hex_digits("e8e8e8"@, 'e', '8', 'e', '8', 'e', '8');
                }
                assert(hex_color("dedede"@) is Ok) by {
                    reveal_strlit("dedede");
                    lemma_six_hex_digits("dedede"@, 'd', 'e', 'd', 'e', 'd', 'e');
                }
                assert(hex_color("ffffff"@) is Ok) by {
                    reveal_strlit("ffffff");
                    lemma_six_hex_digits("ffffff"@, 'f', 'f', 'f', 'f', 'f', 'f');
                }
                assert(hex_color("b8b8b8"@) is Ok) by {
                    reveal_strlit("b8b8b8");
                    lemma_six_hex_digits("b8b8b8"@, 'b', '8', 'b', '8', 'b', '8');
                }
        }
        ThemePalette {
            name: string_of("light"),
            foreground: rgb("202124"),
            background: rgb("fafafa"),
            cursor: rgb("202124"),
            selection_foreground: rgb("101010"),
            selection_background: rgb("b8d7ff"),
            tab_bar: rgb("e8e8e8"),
            inactive_tab: rgb("dedede"),
            active_tab: rgb("ffffff"),
            pane_border: rgb("b8b8b8"),
            ansi: ansi_light(),
        }
    }

}

impl ThemePalette {
    /// Applies a theme definition over this palette: each color that parses replaces the
    /// palette's, each that does not adds a message, and so does an ANSI list that is neither
    /// empty nor sixteen long.
    pub fn apply(&mut self, definition: &ThemeDefinition, diagnostics: &mut Vec<String>)
        ensures
            final(self).name@ == old(self).name@,
            final(self).foreground == color_after(old(self).foreground, option_string_view(definition.foreground)),
            final(self).background == color_after(old(self).background, option_string_view(definition.background)),
            final(self).cursor == color_after(old(self).cursor, option_string_view(definition.cursor)),
            final(self).selection_foreground == color_after(old(self).selection_foreground, option_string_view(definition.selection_foreground)),
            final(self).selection_background == color_after(old(self).selection_background, option_string_view(definition.selection_background)),
            final(self).tab_bar == color_after(old(self).tab_bar, option_string_view(definition.tab_bar)),
            final(self).inactive_tab == color_after(old(self).inactive_tab, option_string_view(definition.inactive_tab)),
            final(self).active_tab == color_after(old(self).active_tab, option_string_view(definition.active_tab)),
            final(self).pane_border == color_after(old(self).pane_border, option_string_view(definition.pane_border)),
            final(self).ansi@ == ansi_after(
                old(self).ansi@,
                messages_view(definition.ansi@),
                ansi_count(messages_view(definition.ansi@)),
            ),
            messages_view(final(diagnostics)@) == messages_view(old(diagnostics)@)
                + color_messages(option_string_view(definition.foreground), "foreground"@)
                + color_messages(option_string_view(definition.background), "background"@)
                + color_messages(option_string_view(definition.cursor), "cursor"@)
                + color_messages(option_string_view(definition.selection_foreground), "selection_foreground"@)
                + color_messages(option_string_view(definition.selection_background), "selection_background"@)
                + color_messages(option_string_view(definition.tab_bar), "tab_bar"@)
                + color_messages(option_string_view(definition.inactive_tab), "inactive_tab"@)
                + color_messages(option_string_view(definition.active_tab), "active_tab"@)
                + color_messages(option_string_view(definition.pane_border), "pane_border"@)
                + ansi_messages(messages_view(definition.ansi@), ansi_count(messages_view(definition.ansi@)))
                + ansi_length_messages(messages_view(definition.ansi@)),
    {
        let ghost start = messages_view(diagnostics@);
        apply_color(&mut self.foreground, &definition.foreground, "foreground", diagnostics);
        apply_color(&mut self.background, &definition.background, "background", diagnostics);
        apply_color(&mut self.cursor, &definition.cursor, "cursor", diagnostics);
        apply_color(&mut self.selection_foreground, &definition.selection_foreground, "selection_foreground", diagnostics);
        apply_color(&mut self.selection_background, &definition.selection_background, "selection_background", diagnostics);
        apply_color(&mut self.tab_bar, &definition.tab_bar, "tab_bar", diagnostics);
        apply_color(&mut self.inactive_tab, &definition.inactive_tab, "inactive_tab", diagnostics);
        apply_color(&mut self.active_tab, &definition.active_tab, "active_tab", diagnostics);
        apply_color(&mut self.pane_border, &definition.pane_border, "pane_border", diagnostics);
        let ghost after_colors = messages_view(diagnostics@);
        let ghost values = messages_view(definition.ansi@);
        let ghost start_ansi = self.ansi@;
        let ghost settled = *self;
        let mut index: usize = 0;
        proof {
            assert(after_colors =~= after_colors + ansi_messages(values, 0));
        }
        while index < 16 && index < definition.ansi.len()
            invariant
                index <= ansi_count(values),
                values == messages_view(definition.ansi@),
                self.ansi@ == ansi_after(start_ansi, values, index as nat),
                self.name == settled.name,
                self.foreground == settled.foreground,
                self.background == settled.background,
                self.cursor == settled.cursor,
                self.selection_foreground == settled.selection_foreground,
                self.selection_background == settled.selection_background,
                self.tab_bar == settled.tab_bar,
                self.inactive_tab == settled.inactive_tab,
                self.active_tab == settled.active_tab,
                self.pane_border == settled.pane_border,
                messages_view(diagnostics@) == after_colors + ansi_messages(values, index as nat),
            decreases 16 - index,
        {
            let ghost before = messages_view(diagnostics@);
            match parse_hex(definition.ansi[index].as_str()) {
                Ok(color) => {
                    self.ansi[index] = color;
                },
                Err(error) => {
                    let mut message = string_of("ansi[");
                    push_small_decimal(&mut message, index);
                    append_str(&mut message, "]: ");
                    append_str(&mut message, error.as_str());
                    let ghost text = message@;
                    diagnostics.push(message);
                    proof {
                        assert(messages_view(diagnostics@) =~= before.push(text));
                    }
                },
            }
            proof {
                assert(values[index as int] == definition.ansi@[index as int]@);
                assert(after_colors + ansi_messages(values, (index + 1) as nat) =~= (after_colors
                    + ansi_messages(values, index as nat)) + (ansi_messages(values, (index + 1) as nat).subrange(
                    ansi_messages(values, index as nat).len() as int,
                    ansi_messages(values, (index + 1) as nat).len() as int,
                )));
            }
            index += 1;
        }
        let ghost after_ansi = messages_view(diagnostics@);
        if definition.ansi.len() != 0 && definition.ansi.len() != 16 {
            diagnostics.push(string_of("custom theme ansi should contain exactly 16 colors"));
            proof {
                assert(messages_view(diagnostics@) =~= after_ansi + ansi_length_messages(values));
            }
        } else {
            proof {
                assert(messages_view(diagnostics@) =~= after_ansi + ansi_length_messages(values));
            }
        }
    }

    /// Applies the configuration's direct color settings, named `colors.*` in messages.
    pub fn apply_colors(&mut self, colors: &ColorOverrides, diagnostics: &mut Vec<String>)
        ensures
            final(self).name@ == old(self).name@,
            final(self).ansi@ == old(self).ansi@,
            final(self).foreground == color_after(old(self).foreground, option_string_view(colors.foreground)),
            final(self).background == color_after(old(self).background, option_string_view(colors.background)),
            final(self).selection_foreground == color_after(old(self).selection_foreground, option_string_view(colors.selection_foreground)),
            final(self).selection_background == color_after(old(self).selection_background, option_string_view(colors.selection_background)),
            final(self).cursor == old(self).cursor,
            final(self).tab_bar == old(self).tab_bar,
            final(self).inactive_tab == old(self).inactive_tab,
            final(self).active_tab == old(self).active_tab,
            final(self).pane_border == old(self).pane_border,
            messages_view(final(diagnostics)@) == messages_view(old(diagnostics)@)
                + color_messages(option_string_view(colors.foreground), "colors.foreground"@)
                + color_messages(option_string_view(colors.background), "colors.background"@)
                + color_messages(option_string_view(colors.selection_foreground), "colors.selection_foreground"@)
                + color_messages(option_string_view(colors.selection_background), "colors.selection_background"@),
    {
        apply_color(&mut self.foreground, &colors.foreground, "colors.foreground", diagnostics);
        apply_color(&mut self.background, &colors.background, "colors.background", diagnostics);
        apply_color(&mut self.selection_foreground, &colors.selection_foreground, "colors.selection_foreground", diagnostics);
        apply_color(&mut self.selection_background, &colors.selection_background, "colors.selection_background", diagnostics);
    }
}

/// The colors of the built-in dark theme.
pub open spec fn has_dark_colors(palette: ThemePalette) -> bool {
    &&& palette.ansi@ == ansi_dark_view()
    &&& palette.foreground == color_of("dadada"@)
    &&& palette.background == color_of("121212"@)
    &&& palette.cursor == color_of("f4f4f4"@)
    &&& palette.selection_foreground == color_of("ffffff"@)
    &&& palette.selection_background == color_of("37526e"@)
    &&& palette.tab_bar == color_of("191919"@)
    &&& palette.inactive_tab == color_of("222222"@)
    &&& palette.active_tab == color_of("303030"@)
    &&& palette.pane_border == color_of("454545"@)
}

/// The colors of the built-in light theme.
pub open spec fn has_light_colors(palette: ThemePalette) -> bool {
    &&& palette.ansi@ == ansi_light_view()
    &&& palette.foreground == color_of("202124"@)
    &&& palette.background == color_of("fafafa"@)
    &&& palette.cursor == color_of("202124"@)
    &&& palette.selection_foreground == color_of("101010"@)
    &&& palette.selection_background == color_of("b8d7ff"@)
    &&& palette.tab_bar == color_of("e8e8e8"@)
    &&& palette.inactive_tab == color_of("dedede"@)
    &&& palette.active_tab == color_of("ffffff"@)
    &&& palette.pane_border == color_of("b8b8b8"@)
}

/// The palette a theme name starts from: the light colors for `light`, the dark ones for any
/// other name, under the given name.
pub fn theme_named(name: &str) -> (palette: ThemePalette)
    ensures
        palette.name@ == name@,
        name@ == "light"@ ==> has_light_colors(palette),
        name@ != "light"@ ==> has_dark_colors(palette),
{
    let light = "light";
    let mut palette = if str_equals(name, &chars_of(light)) {
        ThemePalette::light()
    } else {
        ThemePalette::dark()
    };
    palette.name = string_of(name);
    palette
}

/// The message for a theme name that names neither a configured theme nor a built-in one.
pub fn missing_theme_message(name: &str, configured: bool) -> (message: Option<String>)
    ensures
        message is Some == (!configured && name@ != "dark"@ && name@ != "light"@),
        message matches Some(text) ==> text@ == "theme '"@ + name@ + "' was not found; using dark colors"@,
{
    if configured || str_equals(name, &chars_of("dark")) || str_equals(name, &chars_of("light")) {
        return None;
    }
    let mut text = string_of("theme '");
    append_str(&mut text, name);
    append_str(&mut text, "' was not found; using dark colors");
    Some(text)
}

/// What a theme definition reports: one message for each color that does not parse, then
/// for the ANSI list.
pub open spec fn definition_messages(definition: ThemeDefinition) -> Seq<Seq<char>> {
    color_messages(option_string_view(definition.foreground), "foreground"@)
        + color_messages(option_string_view(definition.background), "background"@)
        + color_messages(option_string_view(definition.cursor), "cursor"@)
        + color_messages(option_string_view(definition.selection_foreground), "selection_foreground"@)
        + color_messages(option_string_view(definition.selection_background), "selection_background"@)
        + color_messages(option_string_view(definition.tab_bar), "tab_bar"@)
        + color_messages(option_string_view(definition.inactive_tab), "inactive_tab"@)
        + color_messages(option_string_view(definition.active_tab), "active_tab"@)
        + color_messages(option_string_view(definition.pane_border), "pane_border"@)
        + ansi_messages(messages_view(definition.ansi@), ansi_count(messages_view(definition.ansi@)))
        + ansi_length_messages(messages_view(definition.ansi@))
}

/// What the color overrides report.
pub open spec fn override_messages(colors: ColorOverrides) -> Seq<Seq<char>> {
    color_messages(option_string_view(colors.foreground), "colors.foreground"@)
        + color_messages(option_string_view(colors.background), "colors.background"@)
        + color_messages(option_string_view(colors.selection_foreground), "colors.selection_foreground"@)
        + color_messages(option_string_view(colors.selection_background), "colors.selection_background"@)
}

/// A base color of the named theme: `light` for the light theme, `dark` for any other name.
pub open spec fn base_color(name: Seq<char>, light: Seq<char>, dark: Seq<char>) -> Rgb {
    if name == "light"@ {
        color_of(light)
    } else {
        color_of(dark)
    }
}

/// A color after the theme's definition, if there is one, set it.
pub open spec fn defined_color(color: Rgb, definition: Option<&ThemeDefinition>, pick: spec_fn(ThemeDefinition) -> Option<String>) -> Rgb {
    match definition {
        Some(definition) => color_after(color, option_string_view(pick(*definition))),
        None => color,
    }
}

/// The palette a window shows for the theme `name`: the built-in colors of `light` or
/// `dark`, then the configured definition of that name if there is one (an unknown name with
/// no definition is reported and keeps the dark colors), then the color overrides.
#[verifier::rlimit(40)]
#[verifier::spinoff_prover]
pub fn active_palette(
    name: &str,
    definition: Option<&ThemeDefinition>,
    colors: &ColorOverrides,
    diagnostics: &mut Vec<String>,
) -> (palette: ThemePalette)
    ensures
        palette.name@ == name@,
        palette.ansi@ == (match definition {
            Some(definition) => ansi_after(
                if name@ == "light"@ { ansi_light_view() } else { ansi_dark_view() },
                messages_view(definition.ansi@),
                ansi_count(messages_view(definition.ansi@)),
            ),
            None => if name@ == "light"@ { ansi_light_view() } else { ansi_dark_view() },
        }),
        palette.foreground == color_after(
            defined_color(base_color(name@, "202124"@, "dadada"@), definition, |d: ThemeDefinition| d.foreground),
            option_string_view(colors.foreground),
        ),
        palette.background == color_after(
            defined_color(base_color(name@, "fafafa"@, "121212"@), definition, |d: ThemeDefinition| d.background),
            option_string_view(colors.background),
        ),
        palette.selection_foreground == color_after(
            defined_color(
                base_color(name@, "101010"@, "ffffff"@),
                definition,
                |d: ThemeDefinition| d.selection_foreground,
            ),
            option_string_view(colors.selection_foreground),
        ),
        palette.selection_background == color_after(
            defined_color(
                base_color(name@, "b8d7ff"@, "37526e"@),
                definition,
                |d: ThemeDefinition| d.selection_background,
            ),
            option_string_view(colors.selection_background),
        ),
        palette.cursor == defined_color(base_color(name@, "202124"@, "f4f4f4"@), definition, |d: ThemeDefinition| d.cursor),
        palette.tab_bar == defined_color(base_color(name@, "e8e8e8"@, "191919"@), definition, |d: ThemeDefinition| d.tab_bar),
        palette.inactive_tab == defined_color(
            base_color(name@, "dedede"@, "222222"@),
            definition,
            |d: ThemeDefinition| d.inactive_tab,
        ),
        palette.active_tab == defined_color(
            base_color(name@, "ffffff"@, "303030"@),
            definition,
            |d: ThemeDefinition| d.active_tab,
        ),
        palette.pane_border == defined_color(
            base_color(name@, "b8b8b8"@, "454545"@),
            definition,
            |d: ThemeDefinition| d.pane_border,
        ),
        messages_view(final(diagnostics)@) == messages_view(old(diagnostics)@) + (match definition {
            Some(definition) => definition_messages(*definition),
            None => if name@ != "dark"@ && name@ != "light"@ {
                seq!["theme '"@ + name@ + "' was not found; using dark colors"@]
            } else {
                Seq::empty()
            },
        }) + override_messages(*colors),
{
    let mut palette = theme_named(name);
    let ghost start = messages_view(diagnostics@);
    match definition {
        Some(definition) => {
            palette.apply(definition, diagnostics);
            proof {
                assert(messages_view(diagnostics@) =~= start + definition_messages(*definition));
            }
        },
        None => {},
    }
    match missing_theme_message(name, definition.is_some()) {
        Some(message) => {
            let ghost before = diagnostics@;
            diagnostics.push(message);
            proof {
                assert(messages_view(diagnostics@) =~= messages_view(before).push(message@));
                assert(messages_view(diagnostics@) =~= start + seq![message@]);
            }
        },
        None => {
            proof {
                if definition is None {
                    assert(messages_view(diagnostics@) =~= start + Seq::<Seq<char>>::empty());
                }
            }
        },
    }
    let ghost middle = messages_view(diagnostics@);
    palette.apply_colors(colors, diagnostics);
    proof {
        assert(messages_view(diagnostics@) =~= middle + override_messages(*colors));
    }
    palette
}

} // verus!
