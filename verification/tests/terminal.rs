use grin_terminal::cell::{CellWidth, Color, Rgb};
use grin_terminal::screen::{GridPoint, Screen};
use grin_terminal::terminal::Terminal;
use vte::{Params, Parser, Perform};

struct Forward<'a> {
    terminal: &'a mut Terminal,
}

impl Perform for Forward<'_> {
    fn print(&mut self, c: char) {
        self.terminal.print(c);
    }

    fn execute(&mut self, byte: u8) {
        self.terminal.execute(byte);
    }

    fn csi_dispatch(&mut self, params: &Params, intermediates: &[u8], ignore: bool, action: char) {
        let groups: Vec<Vec<u16>> = params.iter().map(|group| group.to_vec()).collect();
        self.terminal.csi_dispatch(&groups, intermediates, ignore, action);
    }

    fn esc_dispatch(&mut self, intermediates: &[u8], ignore: bool, byte: u8) {
        self.terminal.esc_dispatch(intermediates, ignore, byte);
    }

    fn osc_dispatch(&mut self, params: &[&[u8]], bell_terminated: bool) {
        let groups: Vec<Vec<u8>> = params.iter().map(|group| group.to_vec()).collect();
        self.terminal.osc_dispatch(&groups, bell_terminated);
    }
}

fn process(terminal: &mut Terminal, parser: &mut Parser, bytes: &[u8]) {
    parser.advance(&mut Forward { terminal }, bytes);
}

fn run(columns: usize, rows: usize, bytes: &[u8]) -> Terminal {
    let mut terminal = Terminal::new(columns, rows);
    let mut parser = Parser::new();
    process(&mut terminal, &mut parser, bytes);
    terminal
}

fn row_text(screen: &Screen, row: usize) -> String {
    screen
        .display_line(row)
        .unwrap()
        .iter()
        .filter(|cell| cell.width != CellWidth::Continuation)
        .map(|cell| cell.text.as_str())
        .collect()
}

#[test]
fn parses_text_newlines_and_cursor_motion() {
    let terminal = run(8, 3, b"one\r\ntwo\x1b[1A\x1b[4GX");
    assert_eq!(row_text(terminal.screen(), 0), "oneX    ");
    assert_eq!(row_text(terminal.screen(), 1), "two     ");
}

#[test]
fn clusters_combining_and_wide_graphemes() {
    let terminal = run(8, 2, "e\u{301}界🇦🇲".as_bytes());
    assert_eq!(terminal.screen().cell(0, 0).unwrap().text, "e\u{301}");
    assert_eq!(terminal.screen().cell(0, 1).unwrap().width, CellWidth::Wide);
    assert_eq!(
        terminal.screen().cell(0, 2).unwrap().width,
        CellWidth::Continuation
    );
    assert_eq!(terminal.screen().cell(0, 3).unwrap().text, "🇦🇲");
    assert_eq!(terminal.screen().cell(0, 3).unwrap().width, CellWidth::Wide);
}

#[test]
fn scrolling_retains_searchable_history() {
    let mut terminal = run(6, 2, b"alpha\r\nbeta\r\ngamma");
    assert_eq!(terminal.screen().scrollback_len(), 1);
    assert_eq!(
        terminal.search_scrollback("alpha").unwrap().start,
        GridPoint { line: 0, column: 0 }
    );
    assert!(terminal.screen().viewport_offset() > 0);
}

#[test]
fn scrolling_region_does_not_enter_scrollback() {
    let terminal = run(4, 4, b"1\r\n2\r\n3\r\n4\x1b[2;3r\x1b[3;1HX\nY");
    assert_eq!(terminal.screen().scrollback_len(), 0);
    assert_eq!(row_text(terminal.screen(), 0), "1   ");
    assert_eq!(row_text(terminal.screen(), 3), "4   ");
}

#[test]
fn alternate_screen_restores_primary_content_and_cursor() {
    let terminal = run(8, 2, b"primary\x1b[?1049halternate\x1b[?1049l");
    assert!(!terminal.alternate_screen_active());
    assert_eq!(row_text(terminal.screen(), 0), "primary ");
    assert_eq!(terminal.screen().cursor().column, 7);
}

#[test]
fn insert_delete_and_erase_cells() {
    let terminal = run(8, 1, b"abcdef\x1b[1;3H\x1b[2@XY\x1b[1P\x1b[2X");
    assert_eq!(row_text(terminal.screen(), 0), "abXY  f ");
}

#[test]
fn parses_indexed_truecolor_and_styles() {
    let terminal = run(4, 1, b"\x1b[1;3;4;38;5;123;48;2;1;2;3mX");
    let attributes = terminal.screen().cell(0, 0).unwrap().attributes;
    assert!(attributes.bold && attributes.italic && attributes.underline);
    assert_eq!(attributes.foreground, Color::Indexed(123));
    assert_eq!(attributes.background, Color::Rgb(Rgb::new(1, 2, 3)));
}

#[test]
fn supports_title_hyperlink_and_bracketed_paste() {
    let terminal = run(
        8,
        1,
        b"\x1b]2;work\x07\x1b]8;;https://example.com\x07x\x1b]8;;\x07\x1b[?2004h",
    );
    assert_eq!(terminal.title(), "work");
    assert_eq!(
        terminal.screen().cell(0, 0).unwrap().hyperlink.as_deref(),
        Some("https://example.com")
    );
    assert_eq!(terminal.paste_bytes("a\r\nb"), b"\x1b[200~a\nb\x1b[201~");
}

#[test]
fn tracks_osc7_working_directory_without_affecting_screen() {
    let terminal = run(20, 2, b"\x1b]7;file://localhost/tmp/project%20one\x07");
    assert_eq!(
        terminal.working_directory_uri(),
        Some("file://localhost/tmp/project%20one")
    );
    assert!(terminal.screen().cell(0, 0).unwrap().is_blank());
}

#[test]
fn copy_selection_spans_scrollback_and_screen() {
    let mut terminal = run(5, 2, b"one\r\ntwo\r\ntri");
    terminal.screen_mut().scroll_viewport(1);
    terminal.screen_mut().begin_selection(0, 0);
    terminal.screen_mut().update_selection(1, 2);
    assert_eq!(
        terminal.screen().selected_text().as_deref(),
        Some("one\ntwo")
    );
}

#[test]
fn responds_to_status_and_cursor_reports() {
    let mut terminal = run(8, 2, b"abc\x1b[5n\x1b[6n\x1b[c");
    assert_eq!(terminal.take_response(), b"\x1b[0n\x1b[1;4R\x1b[?1;2c");
    assert!(terminal.take_response().is_empty());
}

#[test]
fn paste_without_brackets_normalizes_line_endings() {
    let terminal = Terminal::new(8, 1);
    assert_eq!(terminal.paste_bytes("a\r\r\nb\0\rc"), b"a\n\nb\nc");
    assert_eq!(terminal.paste_bytes("\r\0\n"), b"\n");
}

#[test]
fn printing_on_the_alternate_screen_leaves_primary_alone() {
    let mut terminal = Terminal::new(6, 2);
    let mut parser = Parser::new();
    process(&mut terminal, &mut parser, b"keep\x1b[?1049h");
    assert!(terminal.alternate_screen_active());
    process(&mut terminal, &mut parser, b"other\r\nlines");
    assert_eq!(row_text(terminal.screen(), 0), "other ");
    process(&mut terminal, &mut parser, b"\x1b[?1049l");
    assert_eq!(row_text(terminal.screen(), 0), "keep  ");
    assert_eq!(terminal.screen().cursor().column, 4);
}

#[test]
fn reset_restores_default_modes() {
    let mut terminal = run(6, 2, b"\x1b[?2004h\x1b[?1hxy");
    assert!(terminal.bracketed_paste() && terminal.application_cursor());
    let mut parser = Parser::new();
    process(&mut terminal, &mut parser, b"\x1bc");
    assert!(!terminal.bracketed_paste() && !terminal.application_cursor());
    assert!(terminal.screen().cell(0, 0).unwrap().is_blank());
}

#[test]
fn title_changes_advance_the_generation() {
    let terminal = run(6, 1, b"\x1b]0;one\x07\x1b]2;two\x07");
    assert_eq!(terminal.title(), "two");
    assert_eq!(terminal.title_generation(), 2);
}

#[test]
fn new_cells_take_the_given_width() {
    let mut screen = Screen::new(4, 2, true);
    screen.put_new('a', Some(0), true, false);
    screen.put_new('b', Some(5), true, false);
    screen.put_new('c', None, true, false);
    assert_eq!(row_text(&screen, 0), "abc");
    assert_eq!(screen.cell(0, 0).unwrap().width, CellWidth::Single);
    assert_eq!(screen.cell(0, 1).unwrap().width, CellWidth::Wide);
    assert_eq!(screen.cell(0, 2).unwrap().width, CellWidth::Continuation);
    assert_eq!(screen.cell(0, 3).unwrap().width, CellWidth::Single);
    assert_eq!(screen.cursor().column, 3);
    screen.put_new('d', Some(2), true, false);
    assert_eq!(screen.cursor().row, 1);
    assert_eq!(screen.cell(1, 0).unwrap().width, CellWidth::Wide);
}

#[test]
fn joining_follows_the_given_cluster_count_and_width() {
    let mut screen = Screen::new(4, 1, true);
    assert!(!screen.join_grapheme('x', 1, 1));
    screen.put_new('e', Some(1), true, false);
    assert!(screen.join_grapheme('\u{301}', 1, 1));
    assert_eq!(screen.cell(0, 0).unwrap().text, "e\u{301}");
    assert_eq!(screen.cursor().column, 1);
    assert!(!screen.join_grapheme('x', 2, 2));
    assert_eq!(screen.cell(0, 0).unwrap().text, "e\u{301}");
    assert!(screen.join_grapheme('y', 1, 2));
    assert_eq!(screen.cell(0, 0).unwrap().text, "e\u{301}y");
    assert_eq!(screen.cell(0, 0).unwrap().width, CellWidth::Wide);
    assert_eq!(screen.cell(0, 1).unwrap().width, CellWidth::Continuation);
    assert_eq!(screen.cursor().column, 2);
}

#[test]
fn any_scrollback_limit_is_accepted() {
    let mut screen = Screen::new(4, 2, true);
    screen.set_scrollback_limit(usize::MAX);
    for _ in 0..5 {
        screen.put_new('x', Some(1), true, false);
        screen.line_feed();
    }
    assert_eq!(screen.scrollback_len(), 4);
    screen.set_scrollback_limit(2);
    assert_eq!(screen.scrollback_len(), 2);
    screen.line_feed();
    assert_eq!(screen.scrollback_len(), 2);
}
