use vstd::prelude::*;

use crate::cell::{cell_view_is_blank, Cell, CellView, CellWidth, Color, Rgb};
use crate::config::ThemePalette;
use crate::screen::cells_view;
use crate::text::{chars_of, push_char};

verus! {

/// The colors the renderer draws with.
#[derive(Clone, Debug)]
pub struct RenderTheme {
    pub foreground: Rgb,
    pub background: Rgb,
    pub ansi: [Rgb; 16],
    pub cursor: Rgb,
    pub selection_foreground: Rgb,
    pub selection_background: Rgb,
    pub tab_bar: Rgb,
    pub inactive_tab: Rgb,
    pub active_tab: Rgb,
    pub pane_border: Rgb,
}

/// The title and state of a tab as the tab bar shows it.
#[derive(Clone, Debug, Hash)]
pub struct TabLabel {
    pub title: String,
    pub active: bool,
}

/// One row of the command palette as it is drawn.
pub struct CommandPaletteRow<'a> {
    pub title: &'a str,
    pub category: &'a str,
    pub shortcut: String,
}

/// The sixteen standard colors of the built-in renderer theme.
pub open spec fn default_ansi_view() -> Seq<Rgb> {
    seq![
        Rgb { r: 0, g: 0, b: 0 },
        Rgb { r: 205, g: 49, b: 49 },
        Rgb { r: 13, g: 188, b: 121 },
        Rgb { r: 229, g: 229, b: 16 },
        Rgb { r: 36, g: 114, b: 200 },
        Rgb { r: 188, g: 63, b: 188 },
        Rgb { r: 17, g: 168, b: 205 },
        Rgb { r: 229, g: 229, b: 229 },
        Rgb { r: 102, g: 102, b: 102 },
        Rgb { r: 241, g: 76, b: 76 },
        Rgb { r: 35, g: 209, b: 139 },
        Rgb { r: 245, g: 245, b: 67 },
        Rgb { r: 59, g: 142, b: 234 },
        Rgb { r: 214, g: 112, b: 214 },
        Rgb { r: 41, g: 184, b: 219 },
        Rgb { r: 255, g: 255, b: 255 },
    ]
}

/// The sixteen standard colors of the built-in renderer theme.
pub fn default_ansi() -> (colors: [Rgb; 16])
    ensures
        colors@ == default_ansi_view(),
{
    let colors = [
        Rgb::new(0, 0, 0),
        Rgb::new(205, 49, 49),
        Rgb::new(13, 188, 121),
        Rgb::new(229, 229, 16),
        Rgb::new(36, 114, 200),
        Rgb::new(188, 63, 188),
        Rgb::new(17, 168, 205),
        Rgb::new(229, 229, 229),
        Rgb::new(102, 102, 102),
        Rgb::new(241, 76, 76),
        Rgb::new(35, 209, 139),
        Rgb::new(245, 245, 67),
        Rgb::new(59, 142, 234),
        Rgb::new(214, 112, 214),
        Rgb::new(41, 184, 219),
        Rgb::new(255, 255, 255),
    ];
    proof {
        assert(colors@ =~= default_ansi_view());
    }
    colors
}

impl Default for RenderTheme {
    fn default() -> (theme: RenderTheme)
        ensures
            theme.foreground == (Rgb { r: 218, g: 218, b: 218 }),
            theme.background == (Rgb { r: 18, g: 18, b: 18 }),
            theme.ansi@ == default_ansi_view(),
            theme.cursor == (Rgb { r: 244, g: 244, b: 244 }),
            theme.selection_foreground == (Rgb { r: 255, g: 255, b: 255 }),
            theme.selection_background == (Rgb { r: 55, g: 82, b: 110 }),
            theme.tab_bar == (Rgb { r: 25, g: 25, b: 25 }),
            theme.inactive_tab == (Rgb { r: 34, g: 34, b: 34 }),
            theme.active_tab == (Rgb { r: 48, g: 48, b: 48 }),
            theme.pane_border == (Rgb { r: 69, g: 69, b: 69 }),
    {
        RenderTheme {
            foreground: Rgb::new(218, 218, 218),
            background: Rgb::new(18, 18, 18),
            ansi: default_ansi(),
            cursor: Rgb::new(244, 244, 244),
            selection_foreground: Rgb::new(255, 255, 255),
            selection_background: Rgb::new(55, 82, 110),
            tab_bar: Rgb::new(25, 25, 25),
            inactive_tab: Rgb::new(34, 34, 34),
            active_tab: Rgb::new(48, 48, 48),
            pane_border: Rgb::new(69, 69, 69),
        }
    }
}

/// The renderer's colors taken from a theme palette.
pub fn render_theme(theme: &ThemePalette) -> (render: RenderTheme)
    ensures
        render.foreground == theme.foreground,
        render.background == theme.background,
        render.ansi@ == theme.ansi@,
        render.cursor == theme.cursor,
        render.selection_foreground == theme.selection_foreground,
        render.selection_background == theme.selection_background,
        render.tab_bar == theme.tab_bar,
        render.inactive_tab == theme.inactive_tab,
        render.active_tab == theme.active_tab,
        render.pane_border == theme.pane_border,
{
    RenderTheme {
        foreground: theme.foreground,
        background: theme.background,
        ansi: theme.ansi,
        cursor: theme.cursor,
        selection_foreground: theme.selection_foreground,
        selection_background: theme.selection_background,
        tab_bar: theme.tab_bar,
        inactive_tab: theme.inactive_tab,
        active_tab: theme.active_tab,
        pane_border: theme.pane_border,
    }
}

/// One channel of the 6x6x6 color cube: level 0 is 0, level `n` is `55 + 40n`.
pub open spec fn cube_level(component: int) -> int {
    if component == 0 {
        0
    } else {
        55 + component * 40
    }
}

/// The color of a 256-color palette index: the theme's sixteen colors, the 6x6x6 cube from 16,
/// and a gray ramp from 232.
pub open spec fn palette_color(index: u8, ansi: Seq<Rgb>) -> Rgb {
    if index < 16 {
        ansi[index as int]
    } else if index < 232 {
        let value = index - 16;
        Rgb {
            r: cube_level(value / 36) as u8,
            g: cube_level((value / 6) % 6) as u8,
            b: cube_level(value % 6) as u8,
        }
    } else {
        let gray = (8 + (index - 232) * 10) as u8;
        Rgb { r: gray, g: gray, b: gray }
    }
}

fn level(component: u8) -> (value: u8)
    requires
        component < 6,
    ensures
        value == cube_level(component as int),
{
    if component == 0 {
        0
    } else {
        55 + component * 40
    }
}

/// The color of a 256-color palette index.
pub fn indexed_color(index: u8, ansi: &[Rgb; 16]) -> (color: Rgb)
    ensures
        color == palette_color(index, ansi@),
{
    if index < 16 {
        ansi[index as usize]
    } else if index < 232 {
        let value = index - 16;
        Rgb::new(level(value / 36), level((value / 6) % 6), level(value % 6))
    } else {
        let gray = 8 + (index - 232) * 10;
        Rgb::new(gray, gray, gray)
    }
}

/// The color a cell color resolves to: the theme's default foreground or background, a
/// palette entry, or the color itself.
pub open spec fn resolved_color(color: Color, foreground: bool, theme: RenderTheme) -> Rgb {
    match color {
        Color::Default => if foreground {
            theme.foreground
        } else {
            theme.background
        },
        Color::Indexed(index) => palette_color(index, theme.ansi@),
        Color::Rgb(color) => color,
    }
}

/// The color a cell color resolves to in `theme`.
pub fn resolve_color(color: Color, foreground: bool, theme: &RenderTheme) -> (resolved: Rgb)
    ensures
        resolved == resolved_color(color, foreground, *theme),
{
    match color {
        Color::Default => if foreground {
            theme.foreground
        } else {
            theme.background
        },
        Color::Indexed(index) => indexed_color(index, &theme.ansi),
        Color::Rgb(color) => color,
    }
}

/// The colors a cell is drawn with: dim halves the foreground, hidden draws it in the
/// background color, and inverse or a block cursor swaps the two.
pub open spec fn cell_colors(cell: CellView, block_cursor: bool, theme: RenderTheme) -> (Rgb, Rgb) {
    let resolved = resolved_color(cell.attributes.foreground, true, theme);
    let background = resolved_color(cell.attributes.background, false, theme);
    let dimmed = if cell.attributes.dim {
        Rgb { r: resolved.r / 2, g: resolved.g / 2, b: resolved.b / 2 }
    } else {
        resolved
    };
    let foreground = if cell.attributes.hidden {
        background
    } else {
        dimmed
    };
    if cell.attributes.inverse || block_cursor {
        (background, foreground)
    } else {
        (foreground, background)
    }
}

/// The foreground and background a cell is drawn with.
pub fn effective_colors(cell: &Cell, block_cursor: bool, theme: &RenderTheme) -> (colors: (Rgb, Rgb))
    ensures
        colors == cell_colors(cell@, block_cursor, *theme),
{
    let mut foreground = resolve_color(cell.attributes.foreground, true, theme);
    let mut background = resolve_color(cell.attributes.background, false, theme);
    if cell.attributes.dim {
        foreground = Rgb::new(foreground.r / 2, foreground.g / 2, foreground.b / 2);
    }
    if cell.attributes.hidden {
        foreground = background;
    }
    if cell.attributes.inverse || block_cursor {
        (background, foreground)
    } else {
        (foreground, background)
    }
}

/// Whether a cell needs text drawn: it is not blank, or it is underlined, struck through or
/// a link.
pub fn cell_needs_glyph_span(cell: &Cell) -> (needed: bool)
    ensures
        needed == (!cell_view_is_blank(cell@) || cell@.attributes.underline
            || cell@.attributes.strikethrough || cell@.hyperlink is Some),
{
    !cell.is_blank() || cell.attributes.underline || cell.attributes.strikethrough
        || cell.hyperlink.is_some()
}

/// A foreground color pulled two thirds of the way toward the background.
pub fn muted(foreground: Rgb, background: Rgb) -> (color: Rgb)
    ensures
        color.r == (foreground.r + 2 * background.r) / 3,
        color.g == (foreground.g + 2 * background.g) / 3,
        color.b == (foreground.b + 2 * background.b) / 3,
{
    Rgb::new(
        ((foreground.r as u16 + background.r as u16 * 2) / 3) as u8,
        ((foreground.g as u16 + background.g as u16 * 2) / 3) as u8,
        ((foreground.b as u16 + background.b as u16 * 2) / 3) as u8,
    )
}

/// A title cut to `max_chars` characters, its last kept character replaced by `…` when
/// characters were cut.
pub open spec fn truncated_title(title: Seq<char>, max_chars: nat) -> Seq<char> {
    if title.len() > max_chars {
        let head = title.take(max_chars as int);
        (if head.len() > 0 { head.drop_last() } else { head }) + seq!['\u{2026}']
    } else {
        title
    }
}

/// A title cut to at most `max_chars` characters.
pub fn truncate_title(title: &str, max_chars: usize) -> (output: String)
    ensures
        output@ == truncated_title(title@, max_chars as nat),
{
    let characters = chars_of(title);
    let cut = characters.len() > max_chars;
    let keep: usize = if cut {
        if max_chars > 0 { max_chars - 1 } else { 0 }
    } else {
        characters.len()
    };
    let mut output = String::new();
    let mut index: usize = 0;
    while index < keep
        invariant
            keep <= characters@.len(),
            index <= keep,
            output@ == characters@.take(index as int),
        decreases keep - index,
    {
        push_char(&mut output, characters[index]);
        index += 1;
        proof {
            assert(output@ =~= characters@.take(index as int));
        }
    }
    if cut {
        push_char(&mut output, '\u{2026}');
    }
    proof {
        if cut {
            if max_chars > 0 {
                assert(characters@.take(max_chars as int).drop_last() =~= characters@.take(keep as int));
            } else {
                assert(characters@.take(0) =~= characters@.take(keep as int));
            }
        } else {
            assert(characters@.take(keep as int) =~= characters@);
        }
    }
    output
}

/// A tab being dragged: its place, the place it would land at, and whether the pointer has
/// left the tab bar.
#[derive(Clone, Copy, Debug, PartialEq, Eq)]
pub struct TabDrag {
    pub source: usize,
    pub target: usize,
    pub outside_tab_bar: bool,
}

/// The place a tab is drawn at while a tab is dragged over the tab bar.
pub open spec fn preview_place(index: usize, drag: Option<TabDrag>) -> int {
    match drag {
        Some(drag) => if drag.outside_tab_bar {
            index as int
        } else if drag.source < drag.target && index > drag.source && index <= drag.target {
            index - 1
        } else if drag.source > drag.target && index >= drag.target && index < drag.source {
            index + 1
        } else {
            index as int
        },
        None => index as int,
    }
}

/// The place tab `index` is drawn at while `drag` is under way: the tabs between the dragged
/// tab and its target move one place toward where the dragged tab was; the others, and all
/// tabs when the pointer has left the tab bar, stay.
pub fn tab_preview_index(index: usize, drag: Option<TabDrag>) -> (place: usize)
    ensures
        place == preview_place(index, drag),
{
    match drag {
        Some(drag) => if drag.outside_tab_bar {
            index
        } else if drag.source < drag.target && index > drag.source && index <= drag.target {
            index - 1
        } else if drag.source > drag.target && index >= drag.target && index < drag.source {
            index + 1
        } else {
            index
        },
        None => index,
    }
}

/// While a tab is dragged over the tab bar, no two other tabs are drawn at one place and
/// none at the place the dragged tab would land at.
pub proof fn lemma_drag_preview_leaves_target_open(drag: TabDrag, first: usize, second: usize)
    requires
        !drag.outside_tab_bar,
        first != drag.source,
        second != drag.source,
    ensures
        preview_place(first, Some(drag)) == preview_place(second, Some(drag)) ==> first == second,
        preview_place(first, Some(drag)) != drag.target,
{
}

/// How a cell's glyph is drawn: its colour and its face.
#[derive(Clone, Copy, Debug, PartialEq, Eq)]
pub struct GlyphStyle {
    pub color: Rgb,
    pub bold: bool,
    pub italic: bool,
    pub underline: bool,
    pub strikethrough: bool,
}

/// The style of a cell's glyph: the selection colour when the cell is selected or matched by
/// the search, else its own foreground; bold, italic and strikethrough as its rendition says;
/// underlined when its rendition says so or it carries a hyperlink.
pub open spec fn glyph_style_of(cell: CellView, selected: bool, search: bool, block_cursor: bool, theme: RenderTheme) -> GlyphStyle {
    GlyphStyle {
        color: if selected || search {
            theme.selection_foreground
        } else {
            cell_colors(cell, block_cursor, theme).0
        },
        bold: cell.attributes.bold,
        italic: cell.attributes.italic,
        underline: cell.attributes.underline || cell.hyperlink is Some,
        strikethrough: cell.attributes.strikethrough,
    }
}

/// How the glyph of `cell` is drawn; see `glyph_style_of`.
pub fn glyph_style(cell: &Cell, selected: bool, search: bool, block_cursor: bool, theme: &RenderTheme) -> (style: GlyphStyle)
    ensures
        style == glyph_style_of(cell@, selected, search, block_cursor, *theme),
{
    let (foreground, _) = effective_colors(cell, block_cursor, theme);
    let color = if selected || search { theme.selection_foreground } else { foreground };
    GlyphStyle {
        color,
        bold: cell.attributes.bold,
        italic: cell.attributes.italic,
        underline: cell.attributes.underline || cell.hyperlink.is_some(),
        strikethrough: cell.attributes.strikethrough,
    }
}

/// Whether a cell is drawn as a glyph: it has text, or a line or link to show.
pub open spec fn needs_glyph(cell: CellView) -> bool {
    !cell_view_is_blank(cell) || cell.attributes.underline || cell.attributes.strikethrough
        || cell.hyperlink is Some
}

/// The last column of a line drawn as a glyph, if any.
pub open spec fn last_glyph_column(line: Seq<CellView>) -> Option<int>
    decreases line.len(),
{
    if line.len() == 0 {
        None
    } else if needs_glyph(line.last()) {
        Some(line.len() - 1)
    } else {
        last_glyph_column(line.drop_last())
    }
}

/// Whether every character of a text is ASCII.
pub open spec fn ascii_text(text: Seq<char>) -> bool {
    forall|i: int| 0 <= i < text.len() ==> (text[i] as u32) < 128
}

/// Where a run of ASCII cells from `column` ends: at the first column after `last`, or
/// holding a continuation or non-ASCII text.
pub open spec fn ascii_run_end(line: Seq<CellView>, column: int, last: int) -> int
    decreases last + 1 - column,
{
    if 0 <= column <= last && column < line.len() && line[column].width != CellWidth::Continuation
        && ascii_text(line[column].text) {
        ascii_run_end(line, column + 1, last)
    } else {
        column
    }
}

pub proof fn lemma_ascii_run_end_bounds(line: Seq<CellView>, column: int, last: int)
    ensures
        ascii_run_end(line, column, last) >= column,
        column <= last + 1 ==> ascii_run_end(line, column, last) <= last + 1,
    decreases last + 1 - column,
{
    if 0 <= column <= last && column < line.len() && line[column].width != CellWidth::Continuation
        && ascii_text(line[column].text) {
        lemma_ascii_run_end_bounds(line, column + 1, last);
    }
}

/// The text segments of a line from `column` through `last`, as `(start, end)` columns: a run
/// of ASCII cells shapes together, any other cell alone, and continuation cells are skipped.
pub open spec fn segments_from(line: Seq<CellView>, column: int, last: int) -> Seq<(int, int)>
    decreases last + 1 - column,
{
    if column > last || column < 0 || column >= line.len() {
        Seq::empty()
    } else if line[column].width == CellWidth::Continuation {
        segments_from(line, column + 1, last)
    } else {
        let end = if ascii_text(line[column].text) {
            ascii_run_end(line, column + 1, last)
        } else {
            column + 1
        };
        proof {
            lemma_ascii_run_end_bounds(line, column + 1, last);
        }
        seq![(column, end)] + segments_from(line, end, last)
    }
}

/// The text segments a line is drawn in, up to its last glyph.
pub open spec fn row_segments_of(line: Seq<CellView>) -> Seq<(int, int)> {
    match last_glyph_column(line) {
        Some(last) => segments_from(line, 0, last),
        None => Seq::empty(),
    }
}

proof fn lemma_last_glyph_column(line: Seq<CellView>)
    ensures
        match last_glyph_column(line) {
            Some(last) => 0 <= last < line.len() && needs_glyph(line[last]) && forall|k: int|
                last < k < line.len() ==> !needs_glyph(#[trigger] line[k]),
            None => forall|k: int| 0 <= k < line.len() ==> !needs_glyph(#[trigger] line[k]),
        },
    decreases line.len(),
{
    if line.len() > 0 && !needs_glyph(line.last()) {
        lemma_last_glyph_column(line.drop_last());
        assert forall|k: int| 0 <= k < line.len() - 1 implies line[k] == line.drop_last()[k] by {}
    }
}

fn text_is_ascii(text: &String) -> (ascii: bool)
    ensures
        ascii == ascii_text(text@),
{
    let characters = chars_of(text.as_str());
    let mut index: usize = 0;
    while index < characters.len()
        invariant
            characters@ == text@,
            index <= characters@.len(),
            forall|i: int| 0 <= i < index ==> (characters@[i] as u32) < 128,
        decreases characters@.len() - index,
    {
        if characters[index] as u32 >= 128 {
            return false;
        }
        index += 1;
    }
    true
}

/// The text segments a line is drawn in, as `(start, end)` columns: ASCII runs shape
/// together, other cells alone, continuations are skipped, and nothing past the last cell
/// drawn as a glyph.
pub fn row_segments(line: &[Cell]) -> (segments: Vec<(usize, usize)>)
    ensures
        segments@.map_values(|segment: (usize, usize)| (segment.0 as int, segment.1 as int))
            == row_segments_of(cells_view(line@)),
{
    let ghost view = cells_view(line@);
    proof {
        lemma_last_glyph_column(view);
    }
    let mut probe: usize = line.len();
    proof {
        assert(view.take(line@.len() as int) =~= view);
    }
    while probe > 0 && !cell_needs_glyph_span(&line[probe - 1])
        invariant
            probe <= line@.len(),
            view == cells_view(line@),
            last_glyph_column(view) == last_glyph_column(view.take(probe as int)),
        decreases probe,
    {
        proof {
            assert(view.take(probe as int).drop_last() =~= view.take(probe - 1));
            assert(view.take(probe as int).last() == view[probe - 1]);
        }
        probe -= 1;
    }
    let ghost found = last_glyph_column(view);
    proof {
        if probe == 0 {
            assert(view.take(0) =~= Seq::<CellView>::empty());
        } else {
            assert(view.take(probe as int).last() == view[probe - 1]);
        }
    }
    let mut segments: Vec<(usize, usize)> = Vec::new();
    if probe == 0 {
        proof {
            assert(segments@.map_values(|segment: (usize, usize)| (segment.0 as int, segment.1 as int)) =~= Seq::<(int, int)>::empty());
        }
        return segments;
    }
    let last = probe - 1;
    assert(found == Some(last as int));
    let mut column: usize = 0;
    while column <= last
        invariant
            last < line@.len(),
            view == cells_view(line@),
            column <= last + 1,
            segments@.map_values(|segment: (usize, usize)| (segment.0 as int, segment.1 as int))
                + segments_from(view, column as int, last as int) == segments_from(view, 0, last as int),
        decreases last + 1 - column,
    {
        let ghost before = segments@.map_values(|segment: (usize, usize)| (segment.0 as int, segment.1 as int));
        if line[column].width == CellWidth::Continuation {
            column += 1;
            continue;
        }
        let start = column;
        if text_is_ascii(&line[column].text) {
            column += 1;
            while column <= last && line[column].width != CellWidth::Continuation && text_is_ascii(&line[column].text)
                invariant
                    start < column <= last + 1,
                    last < line@.len(),
                    view == cells_view(line@),
                    ascii_run_end(view, start + 1, last as int) == ascii_run_end(view, column as int, last as int),
                decreases last + 1 - column,
            {
                column += 1;
            }
        } else {
            column += 1;
        }
        segments.push((start, column));
        proof {
            assert(segments@.map_values(|segment: (usize, usize)| (segment.0 as int, segment.1 as int))
                =~= before.push((start as int, column as int)));
            assert(before.push((start as int, column as int)) + segments_from(view, column as int, last as int)
                =~= before + (seq![(start as int, column as int)] + segments_from(view, column as int, last as int)));
        }
    }
    segments
}

/// The 256-color palette: below 16 the theme's own colors; from 16 to 231 the 6x6x6 cube,
/// where index `16 + 36 * r + 6 * g + b` has red, green and blue levels 0, 95, 135, 175, 215,
/// 255 for `r`, `g` and `b` from 0 to 5; from 232 a gray ramp of equal channels starting at 8
/// in steps of 10.
pub proof fn lemma_palette_layout(ansi: Seq<Rgb>, red: int, green: int, blue: int, gray: int, low: int)
    requires
        0 <= red < 6,
        0 <= green < 6,
        0 <= blue < 6,
        0 <= gray < 24,
        0 <= low < 16,
    ensures
        palette_color((16 + 36 * red + 6 * green + blue) as u8, ansi) == (Rgb {
            r: (if red == 0 { 0 } else { 55 + 40 * red }) as u8,
            g: (if green == 0 { 0 } else { 55 + 40 * green }) as u8,
            b: (if blue == 0 { 0 } else { 55 + 40 * blue }) as u8,
        }),
        palette_color((232 + gray) as u8, ansi) == (Rgb {
            r: (8 + 10 * gray) as u8,
            g: (8 + 10 * gray) as u8,
            b: (8 + 10 * gray) as u8,
        }),
        palette_color(low as u8, ansi) == ansi[low],
{
    let value = 36 * red + 6 * green + blue;
    assert(value / 36 == red && (value / 6) % 6 == green && value % 6 == blue) by (nonlinear_arith)
        requires
            value == 36 * red + 6 * green + blue,
            0 <= red < 6,
            0 <= green < 6,
            0 <= blue < 6,
    ;
    assert((16 + value) as u8 - 16 == value);
}

} // verus!
