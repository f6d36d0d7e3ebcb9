use vstd::prelude::*;
use vstd::string::StringExecFns;

verus! {

/// A 24-bit color.
#[derive(Clone, Copy, Debug, PartialEq, Eq, Structural, Hash)]
pub struct Rgb {
    pub r: u8,
    pub g: u8,
    pub b: u8,
}

impl Rgb {
    pub fn new(r: u8, g: u8, b: u8) -> (color: Rgb)
        ensures
            color == (Rgb { r, g, b }),
    {
        Rgb { r, g, b }
    }
}

/// The color of a cell's glyph or background.
#[derive(Clone, Copy, Debug, PartialEq, Eq, Structural, Hash)]
pub enum Color {
    Default,
    Indexed(u8),
    Rgb(Rgb),
}

/// The graphic rendition that applies to a cell.
#[derive(Clone, Copy, Debug, PartialEq, Eq, Structural, Hash)]
pub struct Attributes {
    pub foreground: Color,
    pub background: Color,
    pub bold: bool,
    pub dim: bool,
    pub italic: bool,
    pub underline: bool,
    pub blink: bool,
    pub inverse: bool,
    pub hidden: bool,
    pub strikethrough: bool,
}

/// The rendition that a reset (`SGR 0`) restores.
pub open spec fn default_attributes() -> Attributes {
    Attributes {
        foreground: Color::Default,
        background: Color::Default,
        bold: false,
        dim: false,
        italic: false,
        underline: false,
        blink: false,
        inverse: false,
        hidden: false,
        strikethrough: false,
    }
}

impl Default for Attributes {
    fn default() -> (attributes: Attributes)
        ensures
            attributes == default_attributes(),
    {
        Attributes {
            foreground: Color::Default,
            background: Color::Default,
            bold: false,
            dim: false,
            italic: false,
            underline: false,
            blink: false,
            inverse: false,
            hidden: false,
            strikethrough: false,
        }
    }
}

/// How many grid columns a cell occupies.
#[derive(Clone, Copy, Debug, PartialEq, Eq, Structural, Hash)]
pub enum CellWidth {
    /// A cell one column wide.
    Single,
    /// The first column of a two-column grapheme.
    Wide,
    /// The second column of a two-column grapheme; it shows no glyph of its own.
    Continuation,
}

impl Default for CellWidth {
    fn default() -> (width: CellWidth)
        ensures
            width == CellWidth::Single,
    {
        CellWidth::Single
    }
}

/// One grid cell: a grapheme cluster, its rendition, width and hyperlink.
#[derive(Debug, PartialEq, Eq)]
pub struct Cell {
    pub text: String,
    pub attributes: Attributes,
    pub width: CellWidth,
    pub hyperlink: Option<String>,
}

/// What a cell holds, with its strings taken as character sequences.
pub struct CellView {
    pub text: Seq<char>,
    pub attributes: Attributes,
    pub width: CellWidth,
    pub hyperlink: Option<Seq<char>>,
}

pub open spec fn option_string_view(value: Option<String>) -> Option<Seq<char>> {
    match value {
        Some(text) => Some(text@),
        None => None,
    }
}

impl View for Cell {
    type V = CellView;

    open spec fn view(&self) -> CellView {
        CellView {
            text: self.text@,
            attributes: self.attributes,
            width: self.width,
            hyperlink: option_string_view(self.hyperlink),
        }
    }
}

/// A blank cell with the given rendition.
pub open spec fn blank_cell_view(attributes: Attributes) -> CellView {
    CellView { text: seq![' '], attributes, width: CellWidth::Single, hyperlink: None }
}

/// The cell a padded or repaired column holds.
pub open spec fn default_cell_view() -> CellView {
    blank_cell_view(default_attributes())
}

/// The right half of a wide grapheme.
pub open spec fn continuation_cell_view(
    attributes: Attributes,
    hyperlink: Option<Seq<char>>,
) -> CellView {
    CellView { text: Seq::empty(), attributes, width: CellWidth::Continuation, hyperlink }
}

/// A cell counts as blank when it holds a single space or nothing.
pub open spec fn cell_view_is_blank(cell: CellView) -> bool {
    cell.text == seq![' '] || cell.text.len() == 0
}

pub fn clone_optional_string(value: &Option<String>) -> (copy: Option<String>)
    ensures
        option_string_view(copy) == option_string_view(*value),
{
    match value {
        Some(text) => Some(text.clone()),
        None => None,
    }
}

impl Clone for Cell {
    fn clone(&self) -> (copy: Self)
        ensures
            copy@ == self@,
    {
        Cell {
            text: self.text.clone(),
            attributes: self.attributes,
            width: self.width,
            hyperlink: clone_optional_string(&self.hyperlink),
        }
    }
}

impl Cell {
    /// A cell holding a single space.
    pub fn blank(attributes: Attributes) -> (cell: Cell)
        ensures
            cell@ == blank_cell_view(attributes),
    {
        let text = String::from_str(" ");
        proof {
            reveal_strlit(" ");
            assert(text@ =~= seq![' ']);
        }
        Cell { text, attributes, width: CellWidth::Single, hyperlink: None }
    }

    /// The right half of a wide grapheme, carrying the rendition and link of its left half.
    pub fn continuation(attributes: Attributes, hyperlink: Option<String>) -> (cell: Cell)
        ensures
            cell@ == continuation_cell_view(attributes, option_string_view(hyperlink)),
    {
        let text = String::new();
        Cell { text, attributes, width: CellWidth::Continuation, hyperlink }
    }

    pub fn is_blank(&self) -> (blank: bool)
        ensures
            blank == cell_view_is_blank(self@),
    {
        let text = self.text.as_str();
        let length = text.unicode_len();
        if length == 0 {
            true
        } else if length == 1 {
            let first = text.get_char(0);
            proof {
                if first == ' ' {
                    assert(text@ =~= seq![' ']);
                }
            }
            first == ' '
        } else {
            false
        }
    }
}

impl Default for Cell {
    fn default() -> (cell: Cell)
        ensures
            cell@ == default_cell_view(),
    {
        Cell::blank(Attributes::default())
    }
}

} // verus!
