use grin_terminal::cell::{Attributes, Cell, CellWidth, Color, Rgb};
use grin_terminal::config::ThemePalette;
use grin_terminal::render::{
    cell_needs_glyph_span, default_ansi, effective_colors, indexed_color, muted, render_theme,
    glyph_style, resolve_color, row_segments, tab_preview_index, truncate_title, GlyphStyle, RenderTheme, TabDrag,
};

#[test]
fn xterm_color_cube_is_resolved() {
    let ansi = default_ansi();
    assert_eq!(indexed_color(16, &ansi), Rgb::new(0, 0, 0));
    assert_eq!(indexed_color(231, &ansi), Rgb::new(255, 255, 255));
    assert_eq!(indexed_color(232, &ansi), Rgb::new(8, 8, 8));
}

#[test]
fn palette_indices_cover_ansi_cube_and_grays() {
    let ansi = default_ansi();
    assert_eq!(indexed_color(1, &ansi), Rgb::new(205, 49, 49));
    assert_eq!(indexed_color(123, &ansi), Rgb::new(135, 255, 255));
    assert_eq!(indexed_color(255, &ansi), Rgb::new(238, 238, 238));
}

#[test]
fn colors_resolve_against_the_theme() {
    let theme = RenderTheme::default();
    assert_eq!(resolve_color(Color::Default, true, &theme), Rgb::new(218, 218, 218));
    assert_eq!(resolve_color(Color::Default, false, &theme), Rgb::new(18, 18, 18));
    assert_eq!(resolve_color(Color::Rgb(Rgb::new(1, 2, 3)), true, &theme), Rgb::new(1, 2, 3));
}

#[test]
fn dim_hidden_and_inverse_cells() {
    let theme = RenderTheme::default();
    let mut cell = Cell::blank(Attributes::default());
    cell.attributes.dim = true;
    assert_eq!(
        effective_colors(&cell, false, &theme),
        (Rgb::new(109, 109, 109), Rgb::new(18, 18, 18))
    );
    cell.attributes.dim = false;
    cell.attributes.inverse = true;
    assert_eq!(
        effective_colors(&cell, false, &theme),
        (Rgb::new(18, 18, 18), Rgb::new(218, 218, 218))
    );
    cell.attributes.hidden = true;
    assert_eq!(
        effective_colors(&cell, false, &theme),
        (Rgb::new(18, 18, 18), Rgb::new(18, 18, 18))
    );
}

#[test]
fn glyph_spans_and_muted_colors() {
    let mut cell = Cell::blank(Attributes::default());
    assert!(!cell_needs_glyph_span(&cell));
    cell.attributes.underline = true;
    assert!(cell_needs_glyph_span(&cell));
    assert_eq!(
        muted(Rgb::new(30, 60, 90), Rgb::new(0, 0, 0)),
        Rgb::new(10, 20, 30)
    );
}

#[test]
fn titles_are_truncated_with_an_ellipsis() {
    assert_eq!(truncate_title("terminal", 20), "terminal");
    assert_eq!(truncate_title("terminal", 5), "term…");
    assert_eq!(truncate_title("terminal", 0), "…");
    assert_eq!(truncate_title("", 0), "");
}

#[test]
fn render_theme_takes_the_palette_colors() {
    let palette = ThemePalette::light();
    let theme = render_theme(&palette);
    assert_eq!(theme.background, Rgb::new(0xfa, 0xfa, 0xfa));
    assert_eq!(theme.ansi[1], Rgb::new(0xc9, 0x1b, 0x00));
}

#[test]
fn tab_drag_preview_shifts_only_tabs_between_source_and_target() {
    let forward = Some(TabDrag { source: 0, target: 2, outside_tab_bar: false });
    assert_eq!(tab_preview_index(1, forward), 0);
    assert_eq!(tab_preview_index(2, forward), 1);

    let backward = Some(TabDrag { source: 2, target: 0, outside_tab_bar: false });
    assert_eq!(tab_preview_index(0, backward), 1);
    assert_eq!(tab_preview_index(1, backward), 2);

    let outside = backward.map(|mut drag| {
        drag.outside_tab_bar = true;
        drag
    });
    assert_eq!(tab_preview_index(0, outside), 0);
}

#[test]
fn tab_drag_preview_keeps_other_tabs_and_leaves_the_target_free() {
    let drag = Some(TabDrag { source: 1, target: 3, outside_tab_bar: false });
    let places: Vec<usize> = [0, 2, 3, 4].iter().map(|index| tab_preview_index(*index, drag)).collect();
    assert_eq!(places, vec![0, 1, 2, 4]);
    assert_eq!(tab_preview_index(1, drag), 1);
    assert_eq!(tab_preview_index(5, None), 5);
}

#[test]
fn glyphs_take_selection_colour_and_underline_links() {
    let theme = RenderTheme::default();
    let mut cell = Cell::default();
    cell.text = "a".to_string();
    cell.attributes.bold = true;
    let plain = glyph_style(&cell, false, false, false, &theme);
    assert_eq!(
        plain,
        GlyphStyle { color: theme.foreground, bold: true, italic: false, underline: false, strikethrough: false }
    );
    let selected = glyph_style(&cell, true, false, false, &theme);
    assert_eq!(selected.color, theme.selection_foreground);
    assert_eq!(glyph_style(&cell, false, true, false, &theme).color, theme.selection_foreground);
    cell.hyperlink = Some("https://example.com".to_string());
    cell.attributes.strikethrough = true;
    let linked = glyph_style(&cell, false, false, false, &theme);
    assert!(linked.underline);
    assert!(linked.strikethrough);
}

fn text_cell(text: &str, width: CellWidth) -> Cell {
    let mut cell = Cell::default();
    cell.text = text.to_string();
    cell.width = width;
    cell
}

#[test]
fn rows_split_into_ascii_runs_and_single_wide_cells() {
    let line = vec![
        text_cell("a", CellWidth::Single),
        text_cell("b", CellWidth::Single),
        text_cell("漢", CellWidth::Wide),
        text_cell("", CellWidth::Continuation),
        text_cell("c", CellWidth::Single),
        Cell::default(),
        Cell::default(),
    ];
    assert_eq!(row_segments(&line), vec![(0, 2), (2, 3), (4, 5)]);
    assert_eq!(row_segments(&[Cell::default(), Cell::default()]), vec![]);
    let mut underlined = Cell::default();
    underlined.attributes.underline = true;
    assert_eq!(row_segments(&[text_cell("x", CellWidth::Single), Cell::default(), underlined]), vec![(0, 3)]);
}
