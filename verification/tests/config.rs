use grin_terminal::cell::Rgb;
use grin_terminal::config::{
    active_palette, apply_color, missing_theme_message, parse_hex, theme_named, ColorOverrides, CursorConfig,
    ThemeConfig, ThemeDefinition,
    ThemePalette, WorkspaceConfig,
};
use grin_terminal::screen::CursorShape;

#[test]
fn hex_colors_parse_with_or_without_hash() {
    assert_eq!(parse_hex("#001122"), Ok(Rgb::new(0, 17, 34)));
    assert_eq!(parse_hex("ddeeff"), Ok(Rgb::new(0xdd, 0xee, 0xff)));
    assert_eq!(parse_hex("+abcde"), Ok(Rgb::new(0x0a, 0xbc, 0xde)));
}

#[test]
fn malformed_hex_colors_are_explained() {
    assert_eq!(
        parse_hex("#12345"),
        Err("'12345' is not a six-digit RGB color".to_string())
    );
    assert_eq!(parse_hex("zzzzzz"), Err("'zzzzzz' is not hexadecimal".to_string()));
    assert_eq!(parse_hex("ééé"), Err("'ééé' is not hexadecimal".to_string()));
}

#[test]
fn built_in_themes_have_their_colors() {
    let dark = ThemePalette::dark();
    assert_eq!(dark.name, "dark");
    assert_eq!(dark.background, Rgb::new(0x12, 0x12, 0x12));
    assert_eq!(dark.ansi[1], Rgb::new(0xcd, 0x31, 0x31));
    let light = ThemePalette::light();
    assert_eq!(light.foreground, Rgb::new(0x20, 0x21, 0x24));
    assert_eq!(light.ansi[15], Rgb::new(0xff, 0xff, 0xff));
}

#[test]
fn theme_definitions_apply_valid_colors_and_report_the_rest() {
    let mut palette = ThemePalette::dark();
    let mut definition = ThemeDefinition::default();
    definition.background = Some("#001122".to_string());
    definition.cursor = Some("oops".to_string());
    definition.ansi = vec!["ff0000".to_string(), "nothex".to_string()];
    let mut diagnostics = Vec::new();
    palette.apply(&definition, &mut diagnostics);
    assert_eq!(palette.background, Rgb::new(0, 17, 34));
    assert_eq!(palette.ansi[0], Rgb::new(255, 0, 0));
    assert_eq!(palette.cursor, Rgb::new(0xf4, 0xf4, 0xf4));
    assert_eq!(
        diagnostics,
        vec![
            "cursor: 'oops' is not a six-digit RGB color".to_string(),
            "ansi[1]: 'nothex' is not hexadecimal".to_string(),
            "custom theme ansi should contain exactly 16 colors".to_string(),
        ]
    );
}

#[test]
fn direct_color_settings_are_named_in_messages() {
    let mut palette = ThemePalette::light();
    let mut colors = ColorOverrides::default();
    colors.foreground = Some("010203".to_string());
    colors.selection_background = Some("#1".to_string());
    let mut diagnostics = Vec::new();
    palette.apply_colors(&colors, &mut diagnostics);
    assert_eq!(palette.foreground, Rgb::new(1, 2, 3));
    assert_eq!(
        diagnostics,
        vec!["colors.selection_background: '1' is not a six-digit RGB color".to_string()]
    );
    let mut target = Rgb::new(9, 9, 9);
    apply_color(&mut target, &None, "unused", &mut diagnostics);
    assert_eq!(target, Rgb::new(9, 9, 9));
    assert_eq!(diagnostics.len(), 1);
}

#[test]
fn configuration_defaults() {
    assert_eq!(CursorConfig::default().style, "block");
    assert!(WorkspaceConfig::default().restore);
    let theme = ThemeConfig::default();
    assert_eq!(theme.active, "dark");
    assert!(theme.import.is_none());
}

#[test]
fn cursor_styles_select_shapes() {
    let shape = |style: &str| CursorConfig { style: style.to_string() }.shape();
    assert_eq!(shape("BEAM"), CursorShape::Bar);
    assert_eq!(shape("bar"), CursorShape::Bar);
    assert_eq!(shape("Underline"), CursorShape::Underline);
    assert_eq!(shape("anything"), CursorShape::Block);
}

#[test]
fn theme_names_pick_their_base_colors_and_report_unknown_ones() {
    let light = theme_named("light");
    assert_eq!(light.name, "light");
    assert_eq!(light.background, ThemePalette::light().background);
    let custom = theme_named("solarized");
    assert_eq!(custom.name, "solarized");
    assert_eq!(custom.background, ThemePalette::dark().background);
    assert_eq!(missing_theme_message("dark", false), None);
    assert_eq!(missing_theme_message("solarized", true), None);
    assert_eq!(
        missing_theme_message("solarized", false),
        Some("theme 'solarized' was not found; using dark colors".to_string())
    );
}

#[test]
fn active_palette_layers_definition_and_overrides() {
    let mut definition = ThemeDefinition::default();
    definition.foreground = Some("#010203".to_string());
    definition.cursor = Some("zzzzzz".to_string());
    let mut colors = ColorOverrides::default();
    colors.background = Some("0a0b0c".to_string());
    let mut diagnostics = Vec::new();
    let palette = active_palette("light", Some(&definition), &colors, &mut diagnostics);
    assert_eq!(palette.name, "light");
    assert_eq!(palette.foreground, Rgb::new(1, 2, 3));
    assert_eq!(palette.background, Rgb::new(10, 11, 12));
    assert_eq!(palette.cursor, ThemePalette::light().cursor);
    assert_eq!(diagnostics.len(), 1);
    let mut diagnostics = Vec::new();
    let palette = active_palette("nord", None, &ColorOverrides::default(), &mut diagnostics);
    assert_eq!(palette.background, ThemePalette::dark().background);
    assert_eq!(diagnostics, vec!["theme 'nord' was not found; using dark colors".to_string()]);
}
