use std::collections::VecDeque;
use vstd::prelude::*;

use crate::text::{
    char_columns, char_width, chars_of, count_graphemes, grapheme_count, push_char, str_width,
    string_from_chars, text_columns,
};
use crate::cell::{
    blank_cell_view, continuation_cell_view, default_attributes, default_cell_view,
    option_string_view, Attributes, Cell, CellView, CellWidth,
};

verus! {

/// How many lines of history a screen keeps unless told otherwise.
pub const DEFAULT_SCROLLBACK_LIMIT: usize = 10000;

#[derive(Clone, Copy, Debug, PartialEq, Eq, Structural)]
pub enum CursorShape {
    Block,
    Underline,
    Bar,
}

#[derive(Clone, Copy, Debug, PartialEq, Eq, Structural)]
pub struct Cursor {
    pub row: usize,
    pub column: usize,
    pub visible: bool,
    pub shape: CursorShape,
    pub blinking: bool,
}

/// The cursor of a fresh screen: top left, visible, a blinking block.
pub open spec fn default_cursor() -> Cursor {
    Cursor { row: 0, column: 0, visible: true, shape: CursorShape::Block, blinking: true }
}

impl Default for Cursor {
    fn default() -> (cursor: Cursor)
        ensures
            cursor == default_cursor(),
    {
        Cursor { row: 0, column: 0, visible: true, shape: CursorShape::Block, blinking: true }
    }
}

/// A position in the logical line sequence: scrollback first, then the live screen.
#[derive(Clone, Copy, Debug, PartialEq, Eq, Structural, PartialOrd, Ord)]
pub struct GridPoint {
    /// Index in the logical `scrollback + live screen` line sequence.
    pub line: usize,
    pub column: usize,
}

/// Whether `a` comes no later than `b` in reading order.
pub open spec fn point_le(a: GridPoint, b: GridPoint) -> bool {
    a.line < b.line || (a.line == b.line && a.column <= b.column)
}

#[derive(Clone, Copy, Debug, PartialEq, Eq, Structural)]
pub struct Selection {
    pub start: GridPoint,
    pub end: GridPoint,
}

impl Selection {
    /// The two ends of the selection in reading order.
    pub open spec fn spec_ordered(self) -> (GridPoint, GridPoint) {
        if point_le(self.start, self.end) {
            (self.start, self.end)
        } else {
            (self.end, self.start)
        }
    }

    pub fn ordered(self) -> (ends: (GridPoint, GridPoint))
        ensures
            ends == self.spec_ordered(),
    {
        if self.start.line < self.end.line || (self.start.line == self.end.line
            && self.start.column <= self.end.column) {
            (self.start, self.end)
        } else {
            (self.end, self.start)
        }
    }
}

#[derive(Clone, Copy, Debug, PartialEq, Eq, Structural)]
pub struct SearchMatch {
    pub start: GridPoint,
    pub columns: usize,
}

/// The grid of a terminal: live lines, bounded history, cursor, modes and the
/// selection and search state that a view of it shows.
#[derive(Debug)]
pub struct Screen {
    columns: usize,
    rows: usize,
    lines: Vec<Vec<Cell>>,
    cursor: Cursor,
    attributes: Attributes,
    saved_cursor: Cursor,
    saved_attributes: Attributes,
    scroll_top: usize,
    scroll_bottom: usize,
    tab_stops: Vec<bool>,
    scrollback: VecDeque<Vec<Cell>>,
    scrollback_limit: usize,
    allow_scrollback: bool,
    viewport_offset: usize,
    selection: Option<Selection>,
    search_match: Option<SearchMatch>,
    active_hyperlink: Option<String>,
    wrap_pending: bool,
    generation: u64,
}

pub open spec fn cells_view(line: Seq<Cell>) -> Seq<CellView> {
    line.map_values(|cell: Cell| cell@)
}

pub open spec fn lines_view(lines: Seq<Vec<Cell>>) -> Seq<Seq<CellView>> {
    lines.map_values(|line: Vec<Cell>| cells_view(line@))
}

/// What a screen holds, as mathematical values.
pub struct ScreenView {
    pub columns: usize,
    pub rows: usize,
    pub lines: Seq<Seq<CellView>>,
    pub cursor: Cursor,
    pub attributes: Attributes,
    pub saved_cursor: Cursor,
    pub saved_attributes: Attributes,
    pub scroll_top: usize,
    pub scroll_bottom: usize,
    pub tab_stops: Seq<bool>,
    pub scrollback: Seq<Seq<CellView>>,
    pub scrollback_limit: usize,
    pub allow_scrollback: bool,
    pub viewport_offset: usize,
    pub selection: Option<Selection>,
    pub search_match: Option<SearchMatch>,
    pub active_hyperlink: Option<Seq<char>>,
    pub wrap_pending: bool,
    pub generation: u64,
}

impl View for Screen {
    type V = ScreenView;

    closed spec fn view(&self) -> ScreenView {
        ScreenView {
            columns: self.columns,
            rows: self.rows,
            lines: lines_view(self.lines@),
            cursor: self.cursor,
            attributes: self.attributes,
            saved_cursor: self.saved_cursor,
            saved_attributes: self.saved_attributes,
            scroll_top: self.scroll_top,
            scroll_bottom: self.scroll_bottom,
            tab_stops: self.tab_stops@,
            scrollback: lines_view(self.scrollback@),
            scrollback_limit: self.scrollback_limit,
            allow_scrollback: self.allow_scrollback,
            viewport_offset: self.viewport_offset,
            selection: self.selection,
            search_match: self.search_match,
            active_hyperlink: option_string_view(self.active_hyperlink),
            wrap_pending: self.wrap_pending,
            generation: self.generation,
        }
    }
}

/// A line of `columns` blank cells with the given rendition.
pub open spec fn blank_line_view(columns: nat, attributes: Attributes) -> Seq<CellView> {
    Seq::new(columns, |i: int| blank_cell_view(attributes))
}

/// `count` blank lines.
pub open spec fn blank_lines(count: nat, columns: nat, attributes: Attributes) -> Seq<
    Seq<CellView>,
> {
    Seq::new(count, |i: int| blank_line_view(columns, attributes))
}

/// The line with the cells in `[from, to)` replaced by `cell`.
pub open spec fn fill_range(line: Seq<CellView>, from: int, to: int, cell: CellView) -> Seq<
    CellView,
> {
    Seq::new(line.len(), |i: int| if from <= i < to { cell } else { line[i] })
}

/// Whether a cell at `i` is half of a wide grapheme whose other half is missing.
pub open spec fn orphaned_half(line: Seq<CellView>, i: int) -> bool {
    ||| (line[i].width == CellWidth::Wide && (i + 1 >= line.len() || line[i + 1].width
        != CellWidth::Continuation))
    ||| (line[i].width == CellWidth::Continuation && (i == 0 || line[i - 1].width
        != CellWidth::Wide))
}

/// The line with every orphaned half of a wide grapheme replaced by a default cell.
pub open spec fn normalize_wide_view(line: Seq<CellView>) -> Seq<CellView> {
    Seq::new(
        line.len(),
        |i: int| if orphaned_half(line, i) { default_cell_view() } else { line[i] },
    )
}

/// The line cut or padded with default cells to `columns`, then repaired.
pub open spec fn resize_line_view(line: Seq<CellView>, columns: nat) -> Seq<CellView> {
    let sized = if columns <= line.len() {
        line.take(columns as int)
    } else {
        line + Seq::new((columns - line.len()) as nat, |i: int| default_cell_view())
    };
    normalize_wide_view(sized)
}

/// Tab stops every eight columns, none at column zero.
pub open spec fn default_tab_stops(columns: nat) -> Seq<bool> {
    Seq::new(columns, |column: int| column != 0 && column % 8 == 0)
}

/// The text of a line: the text of every cell that is not a continuation, in order.
pub open spec fn line_text_view(line: Seq<CellView>) -> Seq<char>
    decreases line.len(),
{
    if line.len() == 0 {
        Seq::empty()
    } else {
        let rest = line_text_view(line.drop_last());
        if line.last().width == CellWidth::Continuation {
            rest
        } else {
            rest + line.last().text
        }
    }
}

pub open spec fn wrapping_next(generation: u64) -> u64 {
    if generation == u64::MAX {
        0
    } else {
        (generation + 1) as u64
    }
}

pub open spec fn min_nat(a: int, b: int) -> int {
    if a <= b {
        a
    } else {
        b
    }
}

impl ScreenView {
    /// The invariant every screen keeps.
    pub open spec fn wf(self) -> bool {
        &&& self.columns > 0
        &&& self.rows > 0
        &&& self.lines.len() == self.rows
        &&& forall|i: int| 0 <= i < self.lines.len() ==> #[trigger] self.lines[i].len() == self.columns
        &&& forall|i: int|
            0 <= i < self.scrollback.len() ==> #[trigger] self.scrollback[i].len() == self.columns
        &&& self.cursor.row < self.rows
        &&& self.cursor.column < self.columns
        &&& self.scroll_top < self.scroll_bottom <= self.rows
        &&& self.tab_stops.len() == self.columns
        &&& self.viewport_offset <= self.scrollback.len()
        &&& self.scrollback.len() <= self.history_cap()
        &&& self.rows + DEFAULT_SCROLLBACK_LIMIT < usize::MAX
    }

    /// How many history lines are kept: `scrollback_limit`, but never so many that the
    /// history and the screen could not be counted in a `usize`.
    pub open spec fn history_cap(self) -> nat {
        if self.scrollback_limit as int <= usize::MAX - self.rows - 2 {
            self.scrollback_limit as nat
        } else if self.rows + 2 <= usize::MAX {
            (usize::MAX - self.rows - 2) as nat
        } else {
            0
        }
    }

    /// The state with its change counter advanced.
    pub open spec fn changed(self) -> ScreenView {
        ScreenView { generation: wrapping_next(self.generation), ..self }
    }

    pub open spec fn blank_cell(self) -> CellView {
        blank_cell_view(self.attributes)
    }

    pub open spec fn blank_line(self) -> Seq<CellView> {
        blank_line_view(self.columns as nat, self.attributes)
    }

    pub open spec fn logical_line_count(self) -> nat {
        self.scrollback.len() + self.lines.len()
    }

    /// The logical index of the first displayed row.
    pub open spec fn display_top(self) -> int {
        if self.viewport_offset <= self.scrollback.len() {
            self.scrollback.len() - self.viewport_offset
        } else {
            0
        }
    }

    pub open spec fn logical_line(self, index: int) -> Option<Seq<CellView>> {
        if 0 <= index < self.scrollback.len() {
            Some(self.scrollback[index])
        } else if self.scrollback.len() <= index < self.logical_line_count() {
            Some(self.lines[index - self.scrollback.len()])
        } else {
            None
        }
    }

    /// The line displayed at `row`, if `row` is on screen.
    pub open spec fn display_line(self, row: int) -> Option<Seq<CellView>> {
        if 0 <= row < self.rows {
            self.logical_line(self.display_top() + row)
        } else {
            None
        }
    }

    /// The logical point a displayed cell stands for, clamped to the grid.
    pub open spec fn display_point(self, row: int, column: int) -> GridPoint {
        GridPoint {
            line: min_nat(
                self.display_top() + min_nat(row, self.rows - 1),
                self.logical_line_count() - 1,
            ) as usize,
            column: min_nat(column, self.columns - 1) as usize,
        }
    }

    pub open spec fn with_cell(self, row: int, column: int, cell: CellView) -> ScreenView {
        ScreenView { lines: self.lines.update(row, self.lines[row].update(column, cell)), ..self }
    }

    pub open spec fn with_line(self, row: int, line: Seq<CellView>) -> ScreenView {
        ScreenView { lines: self.lines.update(row, line), ..self }
    }
}

pub open spec fn fresh_screen(columns: usize, rows: usize, allow_scrollback: bool) -> ScreenView {
    ScreenView {
        columns,
        rows,
        lines: blank_lines(rows as nat, columns as nat, default_attributes()),
        cursor: default_cursor(),
        attributes: default_attributes(),
        saved_cursor: default_cursor(),
        saved_attributes: default_attributes(),
        scroll_top: 0,
        scroll_bottom: rows,
        tab_stops: default_tab_stops(columns as nat),
        scrollback: Seq::empty(),
        scrollback_limit: DEFAULT_SCROLLBACK_LIMIT,
        allow_scrollback,
        viewport_offset: 0,
        selection: None,
        search_match: None,
        active_hyperlink: None,
        wrap_pending: false,
        generation: 1,
    }
}

/// A line of blank cells.
pub fn blank_line(columns: usize, attributes: Attributes) -> (line: Vec<Cell>)
    ensures
        cells_view(line@) == blank_line_view(columns as nat, attributes),
        line@.len() == columns,
{
    let mut line: Vec<Cell> = Vec::new();
    let mut index: usize = 0;
    while index < columns
        invariant
            index <= columns,
            cells_view(line@) =~= blank_line_view(index as nat, attributes),
            line@.len() == index,
        decreases columns - index,
    {
        let cell = Cell::blank(attributes);
        proof {
            lemma_cells_view_push(line@, cell);
        }
        line.push(cell);
        index += 1;
        proof {
            assert(cells_view(line@) =~= blank_line_view(index as nat, attributes));
        }
    }
    line
}

/// Tab stops every eight columns.
pub fn tab_stops(columns: usize) -> (stops: Vec<bool>)
    ensures
        stops@ == default_tab_stops(columns as nat),
{
    let mut stops: Vec<bool> = Vec::new();
    let mut column: usize = 0;
    while column < columns
        invariant
            column <= columns,
            stops@ =~= default_tab_stops(column as nat),
        decreases columns - column,
    {
        stops.push(column != 0 && column % 8 == 0);
        column += 1;
    }
    stops
}

pub proof fn lemma_cells_view_push(line: Seq<Cell>, cell: Cell)
    ensures
        cells_view(line.push(cell)) == cells_view(line).push(cell@),
{
    assert(cells_view(line.push(cell)) =~= cells_view(line).push(cell@));
}

pub proof fn lemma_lines_view_push(lines: Seq<Vec<Cell>>, line: Vec<Cell>)
    ensures
        lines_view(lines.push(line)) == lines_view(lines).push(cells_view(line@)),
{
    assert(lines_view(lines.push(line)) =~= lines_view(lines).push(cells_view(line@)));
}

pub proof fn lemma_lines_view_update(lines: Seq<Vec<Cell>>, row: int, line: Vec<Cell>)
    requires
        0 <= row < lines.len(),
    ensures
        lines_view(lines.update(row, line)) == lines_view(lines).update(row, cells_view(line@)),
{
    assert(lines_view(lines.update(row, line)) =~= lines_view(lines).update(row, cells_view(line@)));
}

pub proof fn lemma_cells_view_update(line: Seq<Cell>, column: int, cell: Cell)
    requires
        0 <= column < line.len(),
    ensures
        cells_view(line.update(column, cell)) == cells_view(line).update(column, cell@),
{
    assert(cells_view(line.update(column, cell)) =~= cells_view(line).update(column, cell@));
}

impl Screen {
    pub closed spec fn wf(&self) -> bool {
        &&& self@.wf()
        &&& self.lines@.len() == self.rows
    }

    pub fn new(columns: usize, rows: usize, allow_scrollback: bool) -> (screen: Screen)
        requires
            columns > 0,
            rows > 0,
            rows < usize::MAX - DEFAULT_SCROLLBACK_LIMIT,
        ensures
            screen@ == fresh_screen(columns, rows, allow_scrollback),
            screen@.wf(),
    {
        let mut lines: Vec<Vec<Cell>> = Vec::new();
        let mut index: usize = 0;
        while index < rows
            invariant
                index <= rows,
                lines_view(lines@) =~= blank_lines(index as nat, columns as nat, default_attributes()),
            decreases rows - index,
        {
            let line = blank_line(columns, Attributes::default());
            proof {
                lemma_lines_view_push(lines@, line);
            }
            lines.push(line);
            index += 1;
            proof {
                assert(lines_view(lines@) =~= blank_lines(
                    index as nat,
                    columns as nat,
                    default_attributes(),
                ));
            }
        }
        let screen = Screen {
            columns,
            rows,
            lines,
            cursor: Cursor::default(),
            attributes: Attributes::default(),
            saved_cursor: Cursor::default(),
            saved_attributes: Attributes::default(),
            scroll_top: 0,
            scroll_bottom: rows,
            tab_stops: tab_stops(columns),
            scrollback: VecDeque::new(),
            scrollback_limit: DEFAULT_SCROLLBACK_LIMIT,
            allow_scrollback,
            viewport_offset: 0,
            selection: None,
            search_match: None,
            active_hyperlink: None,
            wrap_pending: false,
            generation: 1,
        };
        proof {
            assert(screen@.scrollback =~= Seq::<Seq<CellView>>::empty());
        }
        screen
    }
}


/// The first tab stop after `from`, or the last column when there is none.
pub open spec fn next_tab_stop(stops: Seq<bool>, from: int, columns: int) -> int
    decreases columns - from,
{
    if from >= columns {
        columns - 1
    } else if stops[from] {
        from
    } else {
        next_tab_stop(stops, from + 1, columns)
    }
}

/// `value + delta`, kept in `[0, limit]`.
pub open spec fn clamp_offset(value: int, delta: int, limit: int) -> int {
    if value + delta < 0 {
        0
    } else if value + delta > limit {
        limit
    } else {
        value + delta
    }
}

impl ScreenView {
    pub open spec fn carriage_return(self) -> ScreenView {
        ScreenView {
            cursor: Cursor { column: 0, ..self.cursor },
            wrap_pending: false,
            ..self
        }.changed()
    }

    pub open spec fn backspace(self) -> ScreenView {
        ScreenView {
            cursor: Cursor {
                column: if self.cursor.column > 0 { (self.cursor.column - 1) as usize } else { 0 },
                ..self.cursor
            },
            wrap_pending: false,
            ..self
        }.changed()
    }

    pub open spec fn set_cursor_column(self, column: int) -> ScreenView {
        ScreenView {
            cursor: Cursor { column: min_nat(column, self.columns - 1) as usize, ..self.cursor },
            wrap_pending: false,
            ..self
        }.changed()
    }

    /// Moves the cursor to `row`, `column`; with `origin_mode` rows count from the top of
    /// the scrolling region and stay inside it.
    pub open spec fn set_cursor(self, row: int, column: int, origin_mode: bool) -> ScreenView {
        let top: int = if origin_mode { self.scroll_top as int } else { 0 };
        let bottom: int = if origin_mode { self.scroll_bottom as int } else { self.rows as int };
        ScreenView {
            cursor: Cursor {
                row: min_nat(top + row, bottom - 1) as usize,
                column: min_nat(column, self.columns - 1) as usize,
                ..self.cursor
            },
            wrap_pending: false,
            ..self
        }.changed()
    }

    pub open spec fn move_cursor(self, row_delta: int, column_delta: int) -> ScreenView {
        ScreenView {
            cursor: Cursor {
                row: clamp_offset(self.cursor.row as int, row_delta, self.rows - 1) as usize,
                column: clamp_offset(self.cursor.column as int, column_delta, self.columns - 1)
                    as usize,
                ..self.cursor
            },
            wrap_pending: false,
            ..self
        }.changed()
    }

    pub open spec fn set_cursor_visible(self, visible: bool) -> ScreenView {
        ScreenView { cursor: Cursor { visible, ..self.cursor }, ..self }.changed()
    }

    pub open spec fn set_cursor_style(self, shape: CursorShape, blinking: bool) -> ScreenView {
        ScreenView { cursor: Cursor { shape, blinking, ..self.cursor }, ..self }.changed()
    }

    pub open spec fn save_cursor(self) -> ScreenView {
        ScreenView { saved_cursor: self.cursor, saved_attributes: self.attributes, ..self }
    }

    /// Restores the saved cursor and rendition. A saved position that a later resize left
    /// outside the grid is brought back to its last row or column.
    pub open spec fn restore_cursor(self) -> ScreenView {
        ScreenView {
            cursor: Cursor {
                row: min_nat(self.saved_cursor.row as int, self.rows - 1) as usize,
                column: min_nat(self.saved_cursor.column as int, self.columns - 1) as usize,
                ..self.saved_cursor
            },
            attributes: self.saved_attributes,
            wrap_pending: false,
            ..self
        }.changed()
    }

    pub open spec fn tab(self) -> ScreenView {
        ScreenView {
            cursor: Cursor {
                column: next_tab_stop(
                    self.tab_stops,
                    self.cursor.column + 1,
                    self.columns as int,
                ) as usize,
                ..self.cursor
            },
            wrap_pending: false,
            ..self
        }.changed()
    }

    pub open spec fn set_tab_stop(self) -> ScreenView {
        ScreenView { tab_stops: self.tab_stops.update(self.cursor.column as int, true), ..self }
    }

    pub open spec fn clear_tab_stop(self, all: bool) -> ScreenView {
        ScreenView {
            tab_stops: if all {
                Seq::new(self.tab_stops.len(), |i: int| false)
            } else {
                self.tab_stops.update(self.cursor.column as int, false)
            },
            ..self
        }
    }

    pub open spec fn scroll_to_bottom(self) -> ScreenView {
        if self.viewport_offset != 0 {
            ScreenView { viewport_offset: 0, ..self }.changed()
        } else {
            self
        }
    }

    /// Positive deltas move toward older history; negative deltas return to live output.
    pub open spec fn scroll_viewport(self, delta: int) -> ScreenView {
        let offset = clamp_offset(self.viewport_offset as int, delta, self.scrollback.len() as int);
        if offset != self.viewport_offset {
            ScreenView { viewport_offset: offset as usize, ..self }.changed()
        } else {
            self
        }
    }

    pub open spec fn begin_selection(self, row: int, column: int) -> ScreenView {
        let point = self.display_point(row, column);
        ScreenView { selection: Some(Selection { start: point, end: point }), ..self }.changed()
    }

    pub open spec fn update_selection(self, row: int, column: int) -> ScreenView {
        match self.selection {
            Some(selection) => ScreenView {
                selection: Some(Selection { end: self.display_point(row, column), ..selection }),
                ..self
            }.changed(),
            None => self,
        }
    }

    pub open spec fn clear_selection(self) -> ScreenView {
        match self.selection {
            Some(_) => ScreenView { selection: None, ..self }.changed(),
            None => self,
        }
    }

    pub open spec fn set_scroll_region(self, top: int, bottom: int) -> ScreenView {
        if top < bottom && bottom <= self.rows {
            ScreenView { scroll_top: top as usize, scroll_bottom: bottom as usize, ..self }.set_cursor(
                0,
                0,
                false,
            )
        } else {
            self
        }
    }
}

impl Screen {
    fn mark_changed(&mut self)
        ensures
            final(self)@ == old(self)@.changed(),
    {
        self.generation = self.generation.wrapping_add(1);
    }

    pub fn columns(&self) -> (columns: usize)
        ensures
            columns == self@.columns,
    {
        self.columns
    }

    pub fn rows(&self) -> (rows: usize)
        ensures
            rows == self@.rows,
    {
        self.rows
    }

    pub fn cursor(&self) -> (cursor: Cursor)
        ensures
            cursor == self@.cursor,
    {
        self.cursor
    }

    pub fn generation(&self) -> (generation: u64)
        ensures
            generation == self@.generation,
    {
        self.generation
    }

    pub fn scrollback_len(&self) -> (length: usize)
        ensures
            length == self@.scrollback.len(),
    {
        self.scrollback.len()
    }

    pub fn viewport_offset(&self) -> (offset: usize)
        ensures
            offset == self@.viewport_offset,
    {
        self.viewport_offset
    }

    pub fn selection(&self) -> (selection: Option<Selection>)
        ensures
            selection == self@.selection,
    {
        self.selection
    }

    pub fn search_match(&self) -> (found: Option<SearchMatch>)
        ensures
            found == self@.search_match,
    {
        self.search_match
    }

    /// The rendition newly written cells get.
    pub fn attributes(&self) -> (attributes: Attributes)
        ensures
            attributes == self@.attributes,
    {
        self.attributes
    }

    pub fn set_attributes(&mut self, attributes: Attributes)
        requires
            old(self)@.wf(),
        ensures
            final(self)@ == (ScreenView { attributes, ..old(self)@ }),
            final(self)@.wf(),
    {
        self.attributes = attributes;
    }

    pub fn set_active_hyperlink(&mut self, link: Option<String>)
        requires
            old(self)@.wf(),
        ensures
            final(self)@ == (ScreenView { active_hyperlink: option_string_view(link), ..old(self)@ }),
            final(self)@.wf(),
    {
        self.active_hyperlink = link;
    }

    pub fn carriage_return(&mut self)
        requires
            old(self)@.wf(),
        ensures
            final(self)@ == old(self)@.carriage_return(),
            final(self)@.wf(),
    {
        self.cursor.column = 0;
        self.wrap_pending = false;
        self.mark_changed();
    }

    pub fn backspace(&mut self)
        requires
            old(self)@.wf(),
        ensures
            final(self)@ == old(self)@.backspace(),
            final(self)@.wf(),
    {
        self.cursor.column = self.cursor.column.saturating_sub(1);
        self.wrap_pending = false;
        self.mark_changed();
    }

    pub fn set_cursor_column(&mut self, column: usize)
        requires
            old(self)@.wf(),
        ensures
            final(self)@ == old(self)@.set_cursor_column(column as int),
            final(self)@.wf(),
    {
        self.cursor.column = if column < self.columns - 1 { column } else { self.columns - 1 };
        self.wrap_pending = false;
        self.mark_changed();
    }

    pub fn set_cursor(&mut self, row: usize, column: usize, origin_mode: bool)
        requires
            old(self)@.wf(),
        ensures
            final(self)@ == old(self)@.set_cursor(row as int, column as int, origin_mode),
            final(self)@.wf(),
    {
        let top = if origin_mode { self.scroll_top } else { 0 };
        let bottom = if origin_mode { self.scroll_bottom } else { self.rows };
        self.cursor.row = if row < bottom - 1 - top { top + row } else { bottom - 1 };
        self.cursor.column = if column < self.columns - 1 { column } else { self.columns - 1 };
        self.wrap_pending = false;
        self.mark_changed();
    }

    pub fn set_cursor_row(&mut self, row: usize, origin_mode: bool)
        requires
            old(self)@.wf(),
        ensures
            final(self)@ == old(self)@.set_cursor(row as int, old(self)@.cursor.column as int, origin_mode),
            final(self)@.wf(),
    {
        let column = self.cursor.column;
        self.set_cursor(row, column, origin_mode);
    }

    pub fn move_cursor(&mut self, row_delta: isize, column_delta: isize)
        requires
            old(self)@.wf(),
        ensures
            final(self)@ == old(self)@.move_cursor(row_delta as int, column_delta as int),
            final(self)@.wf(),
    {
        let row: i128 = self.cursor.row as i128 + row_delta as i128;
        let row_limit: i128 = (self.rows - 1) as i128;
        self.cursor.row = if row < 0 { 0 } else if row > row_limit { self.rows - 1 } else { row as usize };
        let column: i128 = self.cursor.column as i128 + column_delta as i128;
        let column_limit: i128 = (self.columns - 1) as i128;
        self.cursor.column = if column < 0 {
            0
        } else if column > column_limit {
            self.columns - 1
        } else {
            column as usize
        };
        self.wrap_pending = false;
        self.mark_changed();
    }

    pub fn set_cursor_visible(&mut self, visible: bool)
        requires
            old(self)@.wf(),
        ensures
            final(self)@ == old(self)@.set_cursor_visible(visible),
            final(self)@.wf(),
    {
        self.cursor.visible = visible;
        self.mark_changed();
    }

    pub fn set_cursor_style(&mut self, shape: CursorShape, blinking: bool)
        requires
            old(self)@.wf(),
        ensures
            final(self)@ == old(self)@.set_cursor_style(shape, blinking),
            final(self)@.wf(),
    {
        self.cursor.shape = shape;
        self.cursor.blinking = blinking;
        self.mark_changed();
    }

    pub fn save_cursor(&mut self)
        requires
            old(self)@.wf(),
        ensures
            final(self)@ == old(self)@.save_cursor(),
            final(self)@.wf(),
    {
        self.saved_cursor = self.cursor;
        self.saved_attributes = self.attributes;
    }

    pub fn restore_cursor(&mut self)
        requires
            old(self)@.wf(),
        ensures
            final(self)@ == old(self)@.restore_cursor(),
            final(self)@.wf(),
    {
        let mut cursor = self.saved_cursor;
        if cursor.row >= self.rows {
            cursor.row = self.rows - 1;
        }
        if cursor.column >= self.columns {
            cursor.column = self.columns - 1;
        }
        self.cursor = cursor;
        self.attributes = self.saved_attributes;
        self.wrap_pending = false;
        self.mark_changed();
    }

    pub fn tab(&mut self)
        requires
            old(self)@.wf(),
        ensures
            final(self)@ == old(self)@.tab(),
            final(self)@.wf(),
    {
        self.wrap_pending = false;
        let mut column = self.cursor.column + 1;
        while column < self.columns && !self.tab_stops[column]
            invariant
                self@.wf(),
                old(self)@.cursor.column + 1 <= column <= self.columns,
                next_tab_stop(self.tab_stops@, old(self)@.cursor.column + 1, self.columns as int)
                    == next_tab_stop(self.tab_stops@, column as int, self.columns as int),
            decreases self.columns - column,
        {
            column += 1;
        }
        self.cursor.column = if column < self.columns { column } else { self.columns - 1 };
        self.mark_changed();
    }

    pub fn set_tab_stop(&mut self)
        requires
            old(self)@.wf(),
        ensures
            final(self)@ == old(self)@.set_tab_stop(),
            final(self)@.wf(),
    {
        let column = self.cursor.column;
        self.tab_stops.set(column, true);
    }

    pub fn clear_tab_stop(&mut self, all: bool)
        requires
            old(self)@.wf(),
        ensures
            final(self)@ == old(self)@.clear_tab_stop(all),
            final(self)@.wf(),
    {
        if all {
            let mut column: usize = 0;
            while column < self.tab_stops.len()
                invariant
                    self@ == (ScreenView { tab_stops: self@.tab_stops, ..old(self)@ }),
                    self.tab_stops@.len() == old(self)@.tab_stops.len(),
                    column <= self.tab_stops@.len(),
                    forall|i: int| 0 <= i < column ==> !self.tab_stops@[i],
                decreases self.tab_stops@.len() - column,
            {
                self.tab_stops.set(column, false);
                column += 1;
            }
            proof {
                assert(self.tab_stops@ =~= Seq::new(old(self)@.tab_stops.len(), |i: int| false));
            }
        } else {
            let column = self.cursor.column;
            self.tab_stops.set(column, false);
        }
    }

    pub fn scroll_to_bottom(&mut self)
        requires
            old(self)@.wf(),
        ensures
            final(self)@ == old(self)@.scroll_to_bottom(),
            final(self)@.wf(),
    {
        if self.viewport_offset != 0 {
            self.viewport_offset = 0;
            self.mark_changed();
        }
    }

    /// Positive deltas move toward older history; negative deltas return to live output.
    pub fn scroll_viewport(&mut self, delta: isize)
        requires
            old(self)@.wf(),
        ensures
            final(self)@ == old(self)@.scroll_viewport(delta as int),
            final(self)@.wf(),
    {
        let history = self.scrollback.len();
        let target: i128 = self.viewport_offset as i128 + delta as i128;
        let offset: usize = if target < 0 {
            0
        } else if target > history as i128 {
            history
        } else {
            target as usize
        };
        if offset != self.viewport_offset {
            self.viewport_offset = offset;
            self.mark_changed();
        }
    }

    fn display_top(&self) -> (top: usize)
        requires
            self@.wf(),
        ensures
            top == self@.display_top(),
    {
        self.scrollback.len() - self.viewport_offset
    }

    fn logical_line_count(&self) -> (count: usize)
        requires
            self@.wf(),
        ensures
            count == self@.logical_line_count(),
    {
        self.scrollback.len() + self.lines.len()
    }

    fn display_point(&self, row: usize, column: usize) -> (point: GridPoint)
        requires
            self@.wf(),
        ensures
            point == self@.display_point(row as int, column as int),
    {
        let row = if row < self.rows - 1 { row } else { self.rows - 1 };
        let line = self.display_top() + row;
        let last = self.logical_line_count() - 1;
        GridPoint {
            line: if line < last { line } else { last },
            column: if column < self.columns - 1 { column } else { self.columns - 1 },
        }
    }

    pub fn begin_selection(&mut self, row: usize, column: usize)
        requires
            old(self)@.wf(),
        ensures
            final(self)@ == old(self)@.begin_selection(row as int, column as int),
            final(self)@.wf(),
    {
        let point = self.display_point(row, column);
        self.selection = Some(Selection { start: point, end: point });
        self.mark_changed();
    }

    pub fn update_selection(&mut self, row: usize, column: usize)
        requires
            old(self)@.wf(),
        ensures
            final(self)@ == old(self)@.update_selection(row as int, column as int),
            final(self)@.wf(),
    {
        let point = self.display_point(row, column);
        match self.selection {
            Some(selection) => {
                self.selection = Some(Selection { start: selection.start, end: point });
                self.mark_changed();
            },
            None => {},
        }
    }

    pub fn clear_selection(&mut self)
        requires
            old(self)@.wf(),
        ensures
            final(self)@ == old(self)@.clear_selection(),
            final(self)@.wf(),
    {
        if self.selection.is_some() {
            self.selection = None;
            self.mark_changed();
        }
    }

    pub fn set_scroll_region(&mut self, top: usize, bottom: usize)
        requires
            old(self)@.wf(),
        ensures
            final(self)@ == old(self)@.set_scroll_region(top as int, bottom as int),
            final(self)@.wf(),
    {
        if top < bottom && bottom <= self.rows {
            self.scroll_top = top;
            self.scroll_bottom = bottom;
            self.set_cursor(0, 0, false);
        }
    }
}


/// The line after inserting `count` blank cells at `at`, pushing the rest right; cells
/// pushed past the end are lost.
pub open spec fn insert_cells_view(line: Seq<CellView>, at: int, count: int, blank: CellView) -> Seq<
    CellView,
> {
    normalize_wide_view(
        line.take(at) + Seq::new(count as nat, |i: int| blank) + line.subrange(at, line.len() - count),
    )
}

/// The line after deleting `count` cells at `at`, pulling the rest left and padding the end
/// with blank cells.
pub open spec fn delete_cells_view(line: Seq<CellView>, at: int, count: int, blank: CellView) -> Seq<
    CellView,
> {
    normalize_wide_view(
        line.take(at) + line.subrange(at + count, line.len() as int) + Seq::new(
            count as nat,
            |i: int| blank,
        ),
    )
}

impl ScreenView {
    pub open spec fn erase_line(self, mode: int) -> ScreenView {
        let row = self.cursor.row as int;
        let column = self.cursor.column as int;
        let line = self.lines[row];
        if mode == 0 {
            self.with_line(row, fill_range(line, column, self.columns as int, self.blank_cell())).changed()
        } else if mode == 1 {
            self.with_line(row, fill_range(line, 0, column + 1, self.blank_cell())).changed()
        } else if mode == 2 {
            self.with_line(row, self.blank_line()).changed()
        } else {
            self
        }
    }

    pub open spec fn erase_display(self, mode: int) -> ScreenView {
        let row = self.cursor.row as int;
        let column = self.cursor.column as int;
        if mode == 0 {
            ScreenView {
                lines: Seq::new(
                    self.rows as nat,
                    |i: int|
                        if i < row {
                            self.lines[i]
                        } else if i == row {
                            fill_range(self.lines[row], column, self.columns as int, self.blank_cell())
                        } else {
                            self.blank_line()
                        },
                ),
                ..self
            }.changed()
        } else if mode == 1 {
            ScreenView {
                lines: Seq::new(
                    self.rows as nat,
                    |i: int|
                        if i < row {
                            self.blank_line()
                        } else if i == row {
                            fill_range(self.lines[row], 0, column + 1, self.blank_cell())
                        } else {
                            self.lines[i]
                        },
                ),
                ..self
            }.changed()
        } else if mode == 2 {
            ScreenView {
                lines: blank_lines(self.rows as nat, self.columns as nat, self.attributes),
                ..self
            }.changed()
        } else if mode == 3 {
            ScreenView { scrollback: Seq::empty(), viewport_offset: 0, ..self }.changed()
        } else {
            self
        }
    }

    pub open spec fn erase_cells(self, count: int) -> ScreenView {
        let row = self.cursor.row as int;
        let column = self.cursor.column as int;
        self.with_line(
            row,
            fill_range(
                self.lines[row],
                column,
                min_nat(column + count, self.columns as int),
                self.blank_cell(),
            ),
        ).changed()
    }

    pub open spec fn insert_cells(self, count: int) -> ScreenView {
        let row = self.cursor.row as int;
        let column = self.cursor.column as int;
        let n = min_nat(count, self.columns - column);
        self.with_line(row, insert_cells_view(self.lines[row], column, n, self.blank_cell())).changed()
    }

    pub open spec fn delete_cells(self, count: int) -> ScreenView {
        let row = self.cursor.row as int;
        let column = self.cursor.column as int;
        let n = min_nat(count, self.columns - column);
        self.with_line(row, delete_cells_view(self.lines[row], column, n, self.blank_cell())).changed()
    }

    /// Blanks both halves of a wide grapheme that covers `column`.
    pub open spec fn clear_wide_at(self, row: int, column: int) -> ScreenView {
        if column >= self.columns {
            self
        } else {
            let blank = self.blank_cell();
            let width = self.lines[row][column].width;
            if width == CellWidth::Wide {
                let cleared = self.with_cell(row, column, blank);
                if column + 1 < self.columns {
                    cleared.with_cell(row, column + 1, blank)
                } else {
                    cleared
                }
            } else if width == CellWidth::Continuation {
                let cleared = self.with_cell(row, column, blank);
                if column > 0 {
                    cleared.with_cell(row, column - 1, blank)
                } else {
                    cleared
                }
            } else {
                self
            }
        }
    }
}

/// Appends clones of `source[from..to]`.
fn extend_cloned(out: &mut Vec<Cell>, source: &Vec<Cell>, from: usize, to: usize)
    requires
        from <= to <= source@.len(),
    ensures
        cells_view(final(out)@) == cells_view(old(out)@) + cells_view(source@).subrange(
            from as int,
            to as int,
        ),
        final(out)@.len() == old(out)@.len() + to - from,
{
    let mut index = from;
    while index < to
        invariant
            from <= index <= to <= source@.len(),
            cells_view(out@) =~= cells_view(old(out)@) + cells_view(source@).subrange(
                from as int,
                index as int,
            ),
            out@.len() == old(out)@.len() + index - from,
        decreases to - index,
    {
        let cell = source[index].clone();
        proof {
            lemma_cells_view_push(out@, cell);
        }
        out.push(cell);
        index += 1;
    }
}

/// Appends `count` blank cells.
fn extend_blank(out: &mut Vec<Cell>, count: usize, attributes: Attributes)
    ensures
        cells_view(final(out)@) == cells_view(old(out)@) + Seq::new(
            count as nat,
            |i: int| blank_cell_view(attributes),
        ),
        final(out)@.len() == old(out)@.len() + count,
{
    let mut index: usize = 0;
    while index < count
        invariant
            index <= count,
            cells_view(out@) =~= cells_view(old(out)@) + Seq::new(
                index as nat,
                |i: int| blank_cell_view(attributes),
            ),
            out@.len() == old(out)@.len() + index,
        decreases count - index,
    {
        let cell = Cell::blank(attributes);
        proof {
            lemma_cells_view_push(out@, cell);
        }
        out.push(cell);
        index += 1;
    }
}

/// Replaces the cells in `[from, to)` with blank cells.
fn fill_blank(line: &mut Vec<Cell>, from: usize, to: usize, attributes: Attributes)
    requires
        from <= to <= old(line)@.len(),
    ensures
        cells_view(final(line)@) == fill_range(
            cells_view(old(line)@),
            from as int,
            to as int,
            blank_cell_view(attributes),
        ),
        final(line)@.len() == old(line)@.len(),
{
    let mut index = from;
    while index < to
        invariant
            from <= index <= to <= line@.len(),
            line@.len() == old(line)@.len(),
            cells_view(line@) =~= fill_range(
                cells_view(old(line)@),
                from as int,
                index as int,
                blank_cell_view(attributes),
            ),
        decreases to - index,
    {
        let cell = Cell::blank(attributes);
        proof {
            lemma_cells_view_update(line@, index as int, cell);
        }
        line.set(index, cell);
        index += 1;
    }
}

/// Replaces each orphaned half of a wide grapheme with a default cell.
fn normalize_wide(line: &mut Vec<Cell>)
    ensures
        cells_view(final(line)@) == normalize_wide_view(cells_view(old(line)@)),
        final(line)@.len() == old(line)@.len(),
{
    let ghost initial = cells_view(line@);
    let length = line.len();
    let mut column: usize = 0;
    while column < length
        invariant
            length == line@.len() == initial.len(),
            column <= length,
            forall|i: int| 0 <= i < column ==> #[trigger] cells_view(line@)[i] == normalize_wide_view(initial)[i],
            forall|i: int| column <= i < length ==> #[trigger] cells_view(line@)[i] == initial[i],
        decreases length - column,
    {
        let width = line[column].width;
        let orphaned = match width {
            CellWidth::Wide => column + 1 >= length || line[column + 1].width != CellWidth::Continuation,
            CellWidth::Continuation => column == 0 || line[column - 1].width != CellWidth::Wide,
            CellWidth::Single => false,
        };
        proof {
            assert(cells_view(line@)[column as int] == initial[column as int]);
            if column > 0 {
                let prev = column - 1;
                assert(cells_view(line@)[prev as int] == normalize_wide_view(initial)[prev as int]);
            }
            if column + 1 < length {
                assert(cells_view(line@)[column + 1] == initial[column + 1]);
            }
            assert(orphaned == orphaned_half(initial, column as int));
        }
        if orphaned {
            let cell = Cell::default();
            proof {
                lemma_cells_view_update(line@, column as int, cell);
            }
            line.set(column, cell);
        }
        column += 1;
    }
    proof {
        assert(cells_view(line@) =~= normalize_wide_view(initial));
    }
}

impl Screen {
    fn set_cell(&mut self, row: usize, column: usize, cell: Cell)
        requires
            old(self)@.wf(),
            row < old(self)@.rows,
            column < old(self)@.columns,
        ensures
            final(self)@ == old(self)@.with_cell(row as int, column as int, cell@),
            final(self)@.wf(),
    {
        proof {
            assert(self.lines@[row as int]@.len() == self@.lines[row as int].len());
            lemma_cells_view_update(self.lines@[row as int]@, column as int, cell);
            let new_line = self.lines@[row as int]@.update(column as int, cell);
        }
        let ghost old_lines = self.lines@;
        self.lines[row].set(column, cell);
        proof {
            assert(self.lines@ == old_lines.update(row as int, self.lines@[row as int]));
            lemma_lines_view_update(old_lines, row as int, self.lines@[row as int]);
            assert(self@.lines =~= old(self)@.lines.update(
                row as int,
                old(self)@.lines[row as int].update(column as int, cell@),
            ));
            assert(forall|i: int| 0 <= i < self@.lines.len() ==> #[trigger] self@.lines[i].len() == self@.columns);
        }
    }

    fn set_line(&mut self, row: usize, line: Vec<Cell>)
        requires
            old(self)@.wf(),
            row < old(self)@.rows,
            line@.len() == old(self)@.columns,
        ensures
            final(self)@ == old(self)@.with_line(row as int, cells_view(line@)),
            final(self)@.wf(),
    {
        let ghost old_lines = self.lines@;
        proof {
            lemma_lines_view_update(old_lines, row as int, line);
        }
        self.lines.set(row, line);
        proof {
            assert(forall|i: int| 0 <= i < self@.lines.len() ==> #[trigger] self@.lines[i].len() == self@.columns);
        }
    }
}


impl Screen {
    /// A copy of the cells of a live row.
    fn copy_row(&self, row: usize) -> (line: Vec<Cell>)
        requires
            self@.wf(),
            row < self@.rows,
        ensures
            cells_view(line@) == self@.lines[row as int],
            line@.len() == self@.columns,
    {
        let mut line: Vec<Cell> = Vec::new();
        let length = self.lines[row].len();
        proof {
            assert(self@.lines[row as int] == cells_view(self.lines@[row as int]@));
        }
        extend_cloned(&mut line, &self.lines[row], 0, length);
        proof {
            assert(cells_view(self.lines@[row as int]@).subrange(0, length as int) =~= cells_view(
                self.lines@[row as int]@,
            ));
            assert(cells_view(Seq::<Cell>::empty()) =~= Seq::<CellView>::empty());
            assert(cells_view(line@) =~= self@.lines[row as int]);
        }
        line
    }

    fn blank_row(&mut self, row: usize)
        requires
            old(self)@.wf(),
            row < old(self)@.rows,
        ensures
            final(self)@ == old(self)@.with_line(row as int, old(self)@.blank_line()),
            final(self)@.wf(),
    {
        let line = blank_line(self.columns, self.attributes);
        self.set_line(row, line);
    }

    pub fn erase_line(&mut self, mode: u16)
        requires
            old(self)@.wf(),
        ensures
            final(self)@ == old(self)@.erase_line(mode as int),
            final(self)@.wf(),
    {
        let row = self.cursor.row;
        let column = self.cursor.column;
        let columns = self.columns;
        if mode == 0 || mode == 1 {
            let mut line = self.copy_row(row);
            if mode == 0 {
                fill_blank(&mut line, column, columns, self.attributes);
            } else {
                fill_blank(&mut line, 0, column + 1, self.attributes);
            }
            self.set_line(row, line);
        } else if mode == 2 {
            self.blank_row(row);
        } else {
            return;
        }
        self.mark_changed();
    }

    pub fn erase_display(&mut self, mode: u16)
        requires
            old(self)@.wf(),
        ensures
            final(self)@ == old(self)@.erase_display(mode as int),
            final(self)@.wf(),
    {
        let row = self.cursor.row;
        let column = self.cursor.column;
        let rows = self.rows;
        let ghost start = self@;
        if mode == 0 {
            let mut line = self.copy_row(row);
            fill_blank(&mut line, column, self.columns, self.attributes);
            self.set_line(row, line);
            let mut index = row + 1;
            while index < rows
                invariant
                    self@.wf(),
                    rows == self@.rows == start.rows,
                    row < index <= rows,
                    self@ == (ScreenView { lines: self@.lines, ..start }),
                    forall|k: int|
                        0 <= k < rows ==> #[trigger] self@.lines[k] == (if k < row {
                            start.lines[k]
                        } else if k == row {
                            fill_range(start.lines[row as int], column as int, start.columns as int, start.blank_cell())
                        } else if k < index {
                            start.blank_line()
                        } else {
                            start.lines[k]
                        }),
                decreases rows - index,
            {
                self.blank_row(index);
                index += 1;
            }
            proof {
                assert(self@.lines =~= start.erase_display(0).lines);
            }
        } else if mode == 1 {
            let mut index: usize = 0;
            while index < row
                invariant
                    self@.wf(),
                    rows == self@.rows == start.rows,
                    index <= row < rows,
                    self@ == (ScreenView { lines: self@.lines, ..start }),
                    forall|k: int|
                        0 <= k < rows ==> #[trigger] self@.lines[k] == (if k < index {
                            start.blank_line()
                        } else {
                            start.lines[k]
                        }),
                decreases row - index,
            {
                self.blank_row(index);
                index += 1;
            }
            let mut line = self.copy_row(row);
            fill_blank(&mut line, 0, column + 1, self.attributes);
            self.set_line(row, line);
            proof {
                assert(self@.lines =~= start.erase_display(1).lines);
            }
        } else if mode == 2 {
            let mut index: usize = 0;
            while index < rows
                invariant
                    self@.wf(),
                    rows == self@.rows == start.rows,
                    index <= rows,
                    self@ == (ScreenView { lines: self@.lines, ..start }),
                    forall|k: int|
                        0 <= k < rows ==> #[trigger] self@.lines[k] == (if k < index {
                            start.blank_line()
                        } else {
                            start.lines[k]
                        }),
                decreases rows - index,
            {
                self.blank_row(index);
                index += 1;
            }
            proof {
                assert(self@.lines =~= blank_lines(rows as nat, start.columns as nat, start.attributes));
            }
        } else if mode == 3 {
            self.scrollback.clear();
            self.viewport_offset = 0;
            proof {
                assert(self@.scrollback =~= Seq::<Seq<CellView>>::empty());
            }
        } else {
            return;
        }
        self.mark_changed();
    }

    pub fn erase_cells(&mut self, count: usize)
        requires
            old(self)@.wf(),
        ensures
            final(self)@ == old(self)@.erase_cells(count as int),
            final(self)@.wf(),
    {
        let row = self.cursor.row;
        let column = self.cursor.column;
        let end = if count < self.columns - column { column + count } else { self.columns };
        let mut line = self.copy_row(row);
        fill_blank(&mut line, column, end, self.attributes);
        self.set_line(row, line);
        self.mark_changed();
    }

    pub fn insert_cells(&mut self, count: usize)
        requires
            old(self)@.wf(),
        ensures
            final(self)@ == old(self)@.insert_cells(count as int),
            final(self)@.wf(),
    {
        let row = self.cursor.row;
        let column = self.cursor.column;
        let columns = self.columns;
        let count = if count < columns - column { count } else { columns - column };
        let old_line = self.copy_row(row);
        let mut line: Vec<Cell> = Vec::new();
        extend_cloned(&mut line, &old_line, 0, column);
        extend_blank(&mut line, count, self.attributes);
        extend_cloned(&mut line, &old_line, column, columns - count);
        proof {
            assert(cells_view(Seq::<Cell>::empty()) =~= Seq::<CellView>::empty());
            assert(cells_view(old_line@).subrange(0, column as int) =~= cells_view(old_line@).take(column as int));
        }
        normalize_wide(&mut line);
        self.set_line(row, line);
        self.mark_changed();
    }

    pub fn delete_cells(&mut self, count: usize)
        requires
            old(self)@.wf(),
        ensures
            final(self)@ == old(self)@.delete_cells(count as int),
            final(self)@.wf(),
    {
        let row = self.cursor.row;
        let column = self.cursor.column;
        let columns = self.columns;
        let count = if count < columns - column { count } else { columns - column };
        let old_line = self.copy_row(row);
        let mut line: Vec<Cell> = Vec::new();
        extend_cloned(&mut line, &old_line, 0, column);
        extend_cloned(&mut line, &old_line, column + count, columns);
        extend_blank(&mut line, count, self.attributes);
        proof {
            assert(cells_view(Seq::<Cell>::empty()) =~= Seq::<CellView>::empty());
            assert(cells_view(old_line@).subrange(0, column as int) =~= cells_view(old_line@).take(column as int));
        }
        normalize_wide(&mut line);
        self.set_line(row, line);
        self.mark_changed();
    }

    fn clear_wide_at(&mut self, row: usize, column: usize)
        requires
            old(self)@.wf(),
            row < old(self)@.rows,
        ensures
            final(self)@ == old(self)@.clear_wide_at(row as int, column as int),
            final(self)@.wf(),
    {
        if column >= self.columns {
            return;
        }
        proof {
            assert(self@.lines[row as int] == cells_view(self.lines@[row as int]@));
            assert(self@.lines[row as int].len() == self@.columns);
            assert(self@.lines[row as int][column as int] == self.lines@[row as int]@[column as int]@);
        }
        let width = self.lines[row][column].width;
        match width {
            CellWidth::Wide => {
                self.set_cell(row, column, Cell::blank(self.attributes));
                if column + 1 < self.columns {
                    self.set_cell(row, column + 1, Cell::blank(self.attributes));
                }
            },
            CellWidth::Continuation => {
                self.set_cell(row, column, Cell::blank(self.attributes));
                if column > 0 {
                    self.set_cell(row, column - 1, Cell::blank(self.attributes));
                }
            },
            CellWidth::Single => {},
        }
    }
}


pub proof fn lemma_lines_view_insert(lines: Seq<Vec<Cell>>, i: int, line: Vec<Cell>)
    requires
        0 <= i <= lines.len(),
    ensures
        lines_view(lines.insert(i, line)) == lines_view(lines).insert(i, cells_view(line@)),
{
    assert(lines_view(lines.insert(i, line)) =~= lines_view(lines).insert(i, cells_view(line@)));
}

pub proof fn lemma_lines_view_remove(lines: Seq<Vec<Cell>>, i: int)
    requires
        0 <= i < lines.len(),
    ensures
        lines_view(lines.remove(i)) == lines_view(lines).remove(i),
{
    assert(lines_view(lines.remove(i)) =~= lines_view(lines).remove(i));
}

pub proof fn lemma_lines_view_drop_first(lines: Seq<Vec<Cell>>)
    requires
        lines.len() > 0,
    ensures
        lines_view(lines.drop_first()) == lines_view(lines).drop_first(),
{
    assert(lines_view(lines.drop_first()) =~= lines_view(lines).drop_first());
}

pub open spec fn saturating_dec(value: usize) -> usize {
    if value > 0 {
        (value - 1) as usize
    } else {
        0
    }
}

/// The selection moved one line up, as when the oldest history line is dropped.
pub open spec fn shift_selection_up(selection: Option<Selection>) -> Option<Selection> {
    match selection {
        Some(selection) => Some(
            Selection {
                start: GridPoint { line: saturating_dec(selection.start.line), ..selection.start },
                end: GridPoint { line: saturating_dec(selection.end.line), ..selection.end },
            },
        ),
        None => None,
    }
}

impl ScreenView {
    /// Drops the oldest history lines until at most `history_cap` remain; the viewport
    /// and the selection follow the lines they showed.
    pub open spec fn trim_scrollback(self) -> ScreenView
        decreases self.scrollback.len(),
    {
        if self.scrollback.len() > self.history_cap() {
            ScreenView {
                scrollback: self.scrollback.drop_first(),
                viewport_offset: saturating_dec(self.viewport_offset),
                selection: shift_selection_up(self.selection),
                ..self
            }.trim_scrollback()
        } else {
            self
        }
    }

    /// Appends a line to the history; a scrolled-back viewport stays on the lines it showed.
    pub open spec fn push_scrollback(self, line: Seq<CellView>) -> ScreenView {
        ScreenView {
            scrollback: self.scrollback.push(line),
            viewport_offset: if self.viewport_offset > 0 {
                (self.viewport_offset + 1) as usize
            } else {
                0
            },
            ..self
        }.trim_scrollback()
    }

    pub open spec fn set_scrollback_limit(self, limit: usize) -> ScreenView {
        ScreenView { scrollback_limit: limit, ..self }.trim_scrollback()
    }

    /// One line of a scroll up: the top line of the region leaves it, into the history when
    /// the region is the whole screen and history is kept, and a blank line enters at its
    /// bottom.
    pub open spec fn scroll_up_step(self) -> ScreenView {
        let top = self.scroll_top as int;
        let line = self.lines[top];
        let removed = ScreenView { lines: self.lines.remove(top), ..self };
        let pushed = if self.scroll_top == 0 && self.scroll_bottom == self.rows
            && self.allow_scrollback {
            removed.push_scrollback(line)
        } else {
            removed
        };
        ScreenView {
            lines: pushed.lines.insert(self.scroll_bottom - 1, self.blank_line()),
            ..pushed
        }
    }

    pub open spec fn scroll_up_steps(self, count: nat) -> ScreenView
        decreases count,
    {
        if count == 0 {
            self
        } else {
            self.scroll_up_steps((count - 1) as nat).scroll_up_step()
        }
    }

    pub open spec fn scroll_up(self, count: int) -> ScreenView {
        self.scroll_up_steps(
            min_nat(count, self.scroll_bottom - self.scroll_top) as nat,
        ).changed()
    }

    pub open spec fn scroll_down(self, count: int) -> ScreenView {
        let top = self.scroll_top as int;
        let bottom = self.scroll_bottom as int;
        let n = min_nat(count, bottom - top);
        ScreenView {
            lines: self.lines.take(top) + blank_lines(n as nat, self.columns as nat, self.attributes)
                + self.lines.subrange(top, bottom - n) + self.lines.skip(bottom),
            ..self
        }.changed()
    }

    pub open spec fn insert_lines(self, count: int) -> ScreenView {
        let row = self.cursor.row as int;
        let bottom = self.scroll_bottom as int;
        if self.scroll_top <= row && row < bottom {
            let n = min_nat(count, bottom - row);
            ScreenView {
                lines: self.lines.take(row) + blank_lines(n as nat, self.columns as nat, self.attributes)
                    + self.lines.subrange(row, bottom - n) + self.lines.skip(bottom),
                ..self
            }.changed()
        } else {
            self
        }
    }

    pub open spec fn delete_lines(self, count: int) -> ScreenView {
        let row = self.cursor.row as int;
        let bottom = self.scroll_bottom as int;
        if self.scroll_top <= row && row < bottom {
            let n = min_nat(count, bottom - row);
            ScreenView {
                lines: self.lines.take(row) + self.lines.subrange(row + n, bottom) + blank_lines(
                    n as nat,
                    self.columns as nat,
                    self.attributes,
                ) + self.lines.skip(bottom),
                ..self
            }.changed()
        } else {
            self
        }
    }

    pub open spec fn line_feed(self) -> ScreenView {
        let cleared = ScreenView { wrap_pending: false, ..self };
        if self.cursor.row + 1 == self.scroll_bottom {
            cleared.scroll_up(1).changed()
        } else {
            ScreenView {
                cursor: Cursor {
                    row: min_nat(self.cursor.row + 1, self.rows - 1) as usize,
                    ..self.cursor
                },
                ..cleared
            }.changed()
        }
    }

    pub open spec fn reverse_index(self) -> ScreenView {
        let cleared = ScreenView { wrap_pending: false, ..self };
        if self.cursor.row == self.scroll_top {
            cleared.scroll_down(1).changed()
        } else {
            ScreenView {
                cursor: Cursor { row: saturating_dec(self.cursor.row), ..self.cursor },
                ..cleared
            }.changed()
        }
    }

    /// The part of the invariant that concerns the history.
    pub open spec fn history_wf(self) -> bool {
        &&& self.columns > 0
        &&& forall|i: int|
            0 <= i < self.scrollback.len() ==> #[trigger] self.scrollback[i].len() == self.columns
        &&& self.viewport_offset <= self.scrollback.len()
        &&& self.scrollback.len() <= self.history_cap()
        &&& self.rows + DEFAULT_SCROLLBACK_LIMIT < usize::MAX
    }
}

pub proof fn lemma_trim_keeps(s: ScreenView)
    requires
        s.columns > 0,
        forall|i: int| 0 <= i < s.scrollback.len() ==> #[trigger] s.scrollback[i].len() == s.columns,
        s.viewport_offset <= s.scrollback.len(),
        s.rows + DEFAULT_SCROLLBACK_LIMIT < usize::MAX,
    ensures
        s.trim_scrollback().history_wf(),
        s.trim_scrollback() == (ScreenView {
            scrollback: s.trim_scrollback().scrollback,
            viewport_offset: s.trim_scrollback().viewport_offset,
            selection: s.trim_scrollback().selection,
            ..s
        }),
    decreases s.scrollback.len(),
{
    if s.scrollback.len() > s.history_cap() {
        let next = ScreenView {
            scrollback: s.scrollback.drop_first(),
            viewport_offset: saturating_dec(s.viewport_offset),
            selection: shift_selection_up(s.selection),
            ..s
        };
        assert(forall|i: int| 0 <= i < next.scrollback.len() ==> #[trigger] next.scrollback[i].len() == next.columns) by {
            assert forall|i: int| 0 <= i < next.scrollback.len() implies #[trigger] next.scrollback[i].len() == next.columns by {
                assert(next.scrollback[i] == s.scrollback[i + 1]);
            }
        }
        lemma_trim_keeps(next);
    }
}

impl Screen {
    fn trim_scrollback(&mut self)
        requires
            old(self)@.columns > 0,
            forall|i: int|
                0 <= i < old(self)@.scrollback.len() ==> #[trigger] old(self)@.scrollback[i].len()
                    == old(self)@.columns,
            old(self)@.viewport_offset <= old(self)@.scrollback.len(),
            old(self)@.rows + DEFAULT_SCROLLBACK_LIMIT < usize::MAX,
        ensures
            final(self)@ == old(self)@.trim_scrollback(),
            final(self)@.history_wf(),
            final(self).lines@ == old(self).lines@,
            final(self)@ == (ScreenView {
                scrollback: final(self)@.scrollback,
                viewport_offset: final(self)@.viewport_offset,
                selection: final(self)@.selection,
                ..old(self)@
            }),
    {
        proof {
            lemma_trim_keeps(self@);
        }
        let room = usize::MAX - self.rows - 2;
        let cap = if self.scrollback_limit <= room { self.scrollback_limit } else { room };
        while self.scrollback.len() > cap
            invariant
                self@.trim_scrollback() == old(self)@.trim_scrollback(),
                self@.columns > 0,
                forall|i: int|
                    0 <= i < self@.scrollback.len() ==> #[trigger] self@.scrollback[i].len() == self@.columns,
                self@.viewport_offset <= self@.scrollback.len(),
                self@.rows + DEFAULT_SCROLLBACK_LIMIT < usize::MAX,
                cap == self@.history_cap(),
                self.lines@ == old(self).lines@,
            decreases self.scrollback@.len(),
        {
            let ghost before = self@;
            proof {
                lemma_lines_view_drop_first(self.scrollback@);
            }
            self.scrollback.pop_front();
            self.viewport_offset = self.viewport_offset.saturating_sub(1);
            match self.selection {
                Some(selection) => {
                    self.selection = Some(Selection {
                        start: GridPoint { line: selection.start.line.saturating_sub(1), column: selection.start.column },
                        end: GridPoint { line: selection.end.line.saturating_sub(1), column: selection.end.column },
                    });
                },
                None => {},
            }
            proof {
                assert(self@.scrollback =~= before.scrollback.drop_first());
                assert(self@ == (ScreenView {
                    scrollback: before.scrollback.drop_first(),
                    viewport_offset: saturating_dec(before.viewport_offset),
                    selection: shift_selection_up(before.selection),
                    ..before
                }));
                assert forall|i: int| 0 <= i < self@.scrollback.len() implies #[trigger] self@.scrollback[i].len() == self@.columns by {
                    assert(self@.scrollback[i] == before.scrollback[i + 1]);
                }
            }
        }
    }

    fn push_scrollback(&mut self, line: Vec<Cell>)
        requires
            old(self)@.history_wf(),
            line@.len() == old(self)@.columns,
        ensures
            final(self)@ == old(self)@.push_scrollback(cells_view(line@)),
            final(self)@.history_wf(),
            final(self).lines@ == old(self).lines@,
            final(self)@ == (ScreenView {
                scrollback: final(self)@.scrollback,
                viewport_offset: final(self)@.viewport_offset,
                selection: final(self)@.selection,
                ..old(self)@
            }),
    {
        if self.viewport_offset > 0 {
            self.viewport_offset += 1;
        }
        proof {
            lemma_lines_view_push(self.scrollback@, line);
        }
        self.scrollback.push_back(line);
        proof {
            assert(self@.scrollback == old(self)@.scrollback.push(cells_view(line@)));
        }
        self.trim_scrollback();
    }

    pub fn set_scrollback_limit(&mut self, limit: usize)
        requires
            old(self)@.wf(),
        ensures
            final(self)@ == old(self)@.set_scrollback_limit(limit),
            final(self)@.wf(),
    {
        self.scrollback_limit = limit;
        self.trim_scrollback();
    }

    fn scroll_up_step(&mut self)
        requires
            old(self)@.wf(),
        ensures
            final(self)@ == old(self)@.scroll_up_step(),
            final(self)@.wf(),
            final(self)@.scroll_top == old(self)@.scroll_top,
            final(self)@.scroll_bottom == old(self)@.scroll_bottom,
            final(self)@.cursor == old(self)@.cursor,
            final(self)@.columns == old(self)@.columns,
    {
        let top = self.scroll_top;
        let bottom = self.scroll_bottom;
        let ghost start = self@;
        proof {
            lemma_lines_view_remove(self.lines@, top as int);
            assert(self.lines@[top as int]@.len() == self@.lines[top as int].len());
        }
        let line = self.lines.remove(top);
        let ghost removed = ScreenView { lines: start.lines.remove(top as int), ..start };
        proof {
            assert(self@ == removed);
            assert(cells_view(line@) == start.lines[top as int]);
        }
        if top == 0 && bottom == self.rows && self.allow_scrollback {
            self.push_scrollback(line);
        }
        let ghost pushed = self@;
        proof {
            if top == 0 && bottom == start.rows && start.allow_scrollback {
                assert(pushed == removed.push_scrollback(start.lines[top as int]));
            } else {
                assert(pushed == removed);
            }
        }
        let blank = blank_line(self.columns, self.attributes);
        proof {
            lemma_lines_view_insert(self.lines@, (bottom - 1) as int, blank);
        }
        self.lines.insert(bottom - 1, blank);
        proof {
            assert(self@ == (ScreenView { lines: pushed.lines.insert(bottom - 1, start.blank_line()), ..pushed }));
            assert(self@ == start.scroll_up_step());
            assert forall|i: int| 0 <= i < self@.lines.len() implies #[trigger] self@.lines[i].len() == self@.columns by {
                if i < bottom - 1 {
                    if i < top {
                    } else {
                        assert(self@.lines[i] == start.lines[i + 1]);
                    }
                } else if i > bottom - 1 {
                    assert(self@.lines[i] == start.lines[i]);
                }
            }
        }
    }

    pub fn scroll_up(&mut self, count: usize)
        requires
            old(self)@.wf(),
        ensures
            final(self)@ == old(self)@.scroll_up(count as int),
            final(self)@.wf(),
            final(self)@.cursor == old(self)@.cursor,
            final(self)@.columns == old(self)@.columns,
    {
        let span = self.scroll_bottom - self.scroll_top;
        let steps = if count < span { count } else { span };
        let ghost start = self@;
        let mut index: usize = 0;
        while index < steps
            invariant
                index <= steps,
                self@.wf(),
                self@ == start.scroll_up_steps(index as nat),
                self@.scroll_top == start.scroll_top,
                self@.scroll_bottom == start.scroll_bottom,
                self@.cursor == start.cursor,
                self@.columns == start.columns,
            decreases steps - index,
        {
            self.scroll_up_step();
            index += 1;
        }
        self.mark_changed();
    }
}


pub proof fn lemma_blank_lines_push(n: nat, columns: nat, attributes: Attributes)
    ensures
        blank_lines(n + 1, columns, attributes) == blank_lines(n, columns, attributes).push(
            blank_line_view(columns, attributes),
        ),
        seq![blank_line_view(columns, attributes)] + blank_lines(n, columns, attributes)
            == blank_lines(n + 1, columns, attributes),
{
    assert(blank_lines(n + 1, columns, attributes) =~= blank_lines(n, columns, attributes).push(
        blank_line_view(columns, attributes),
    ));
    assert(seq![blank_line_view(columns, attributes)] + blank_lines(n, columns, attributes)
        =~= blank_lines(n + 1, columns, attributes));
}

impl Screen {
    /// Shifts the lines of `[from, bottom)` down by one, dropping the line at `bottom - 1`
    /// and putting a blank line at `from`.
    fn shift_lines_down(&mut self, from: usize, bottom: usize)
        requires
            old(self)@.wf(),
            from < bottom <= old(self)@.rows,
        ensures
            final(self)@ == (ScreenView {
                lines: old(self)@.lines.take(from as int) + seq![old(self)@.blank_line()]
                    + old(self)@.lines.subrange(from as int, bottom - 1) + old(self)@.lines.skip(
                    bottom as int,
                ),
                ..old(self)@
            }),
            final(self)@.wf(),
    {
        let ghost start = self@;
        let blank = blank_line(self.columns, self.attributes);
        proof {
            lemma_lines_view_insert(self.lines@, from as int, blank);
        }
        self.lines.insert(from, blank);
        proof {
            lemma_lines_view_remove(self.lines@, bottom as int);
        }
        self.lines.remove(bottom);
        proof {
            assert(self@.lines =~= start.lines.take(from as int) + seq![start.blank_line()]
                + start.lines.subrange(from as int, bottom - 1) + start.lines.skip(bottom as int));
            assert forall|i: int| 0 <= i < self@.lines.len() implies #[trigger] self@.lines[i].len() == self@.columns by {
                if i < from {
                } else if i == from {
                } else if i < bottom {
                    assert(self@.lines[i] == start.lines[i - 1]);
                } else {
                    assert(self@.lines[i] == start.lines[i]);
                }
            }
        }
    }

    /// Shifts the lines of `[from, bottom)` up by one, dropping the line at `from` and
    /// putting a blank line at `bottom - 1`.
    fn shift_lines_up(&mut self, from: usize, bottom: usize)
        requires
            old(self)@.wf(),
            from < bottom <= old(self)@.rows,
        ensures
            final(self)@ == (ScreenView {
                lines: old(self)@.lines.take(from as int) + old(self)@.lines.subrange(
                    from + 1,
                    bottom as int,
                ) + seq![old(self)@.blank_line()] + old(self)@.lines.skip(bottom as int),
                ..old(self)@
            }),
            final(self)@.wf(),
    {
        let ghost start = self@;
        proof {
            lemma_lines_view_remove(self.lines@, from as int);
        }
        self.lines.remove(from);
        let blank = blank_line(self.columns, self.attributes);
        proof {
            lemma_lines_view_insert(self.lines@, (bottom - 1) as int, blank);
        }
        self.lines.insert(bottom - 1, blank);
        proof {
            assert(self@.lines =~= start.lines.take(from as int) + start.lines.subrange(
                from + 1,
                bottom as int,
            ) + seq![start.blank_line()] + start.lines.skip(bottom as int));
            assert forall|i: int| 0 <= i < self@.lines.len() implies #[trigger] self@.lines[i].len() == self@.columns by {
                if i < from {
                } else if i < bottom - 1 {
                    assert(self@.lines[i] == start.lines[i + 1]);
                } else if i == bottom - 1 {
                } else {
                    assert(self@.lines[i] == start.lines[i]);
                }
            }
        }
    }

    pub fn insert_lines(&mut self, count: usize)
        requires
            old(self)@.wf(),
        ensures
            final(self)@ == old(self)@.insert_lines(count as int),
            final(self)@.wf(),
    {
        let row = self.cursor.row;
        let top = self.scroll_top;
        let bottom = self.scroll_bottom;
        if !(top <= row && row < bottom) {
            return;
        }
        let steps = if count < bottom - row { count } else { bottom - row };
        let ghost start = self@;
        proof {
            assert(start.lines =~= start.lines.take(row as int) + blank_lines(0, start.columns as nat, start.attributes)
                + start.lines.subrange(row as int, bottom as int) + start.lines.skip(bottom as int));
        }
        let mut index: usize = 0;
        while index < steps
            invariant
                index <= steps <= bottom - row,
                top <= row < bottom <= start.rows,
                start.wf(),
                self@.wf(),
                self@ == (ScreenView {
                    lines: start.lines.take(row as int) + blank_lines(
                        index as nat,
                        start.columns as nat,
                        start.attributes,
                    ) + start.lines.subrange(row as int, bottom - index) + start.lines.skip(
                        bottom as int,
                    ),
                    ..start
                }),
            decreases steps - index,
        {
            let ghost before = self@;
            self.shift_lines_down(row, bottom);
            proof {
                let b = blank_lines(index as nat, start.columns as nat, start.attributes);
                lemma_blank_lines_push(index as nat, start.columns as nat, start.attributes);
                assert(before.lines.take(row as int) =~= start.lines.take(row as int));
                assert(before.lines.subrange(row as int, bottom - 1) =~= b + start.lines.subrange(row as int, bottom - (index + 1)));
                assert(before.lines.skip(bottom as int) =~= start.lines.skip(bottom as int));
                assert(self@.lines =~= start.lines.take(row as int) + blank_lines(
                    (index + 1) as nat,
                    start.columns as nat,
                    start.attributes,
                ) + start.lines.subrange(row as int, bottom - (index + 1)) + start.lines.skip(
                    bottom as int,
                ));
            }
            index += 1;
        }
        self.mark_changed();
    }

    pub fn delete_lines(&mut self, count: usize)
        requires
            old(self)@.wf(),
        ensures
            final(self)@ == old(self)@.delete_lines(count as int),
            final(self)@.wf(),
    {
        let row = self.cursor.row;
        let top = self.scroll_top;
        let bottom = self.scroll_bottom;
        if !(top <= row && row < bottom) {
            return;
        }
        let steps = if count < bottom - row { count } else { bottom - row };
        let ghost start = self@;
        proof {
            assert(start.lines =~= start.lines.take(row as int) + start.lines.subrange(row as int, bottom as int)
                + blank_lines(0, start.columns as nat, start.attributes) + start.lines.skip(bottom as int));
        }
        let mut index: usize = 0;
        while index < steps
            invariant
                index <= steps <= bottom - row,
                top <= row < bottom <= start.rows,
                start.wf(),
                self@.wf(),
                self@ == (ScreenView {
                    lines: start.lines.take(row as int) + start.lines.subrange(row + index, bottom as int)
                        + blank_lines(index as nat, start.columns as nat, start.attributes)
                        + start.lines.skip(bottom as int),
                    ..start
                }),
            decreases steps - index,
        {
            let ghost before = self@;
            self.shift_lines_up(row, bottom);
            proof {
                let b = blank_lines(index as nat, start.columns as nat, start.attributes);
                lemma_blank_lines_push(index as nat, start.columns as nat, start.attributes);
                assert(before.lines.take(row as int) =~= start.lines.take(row as int));
                assert(before.lines.subrange(row + 1, bottom as int) =~= start.lines.subrange(row + index + 1, bottom as int) + b);
                assert(before.lines.skip(bottom as int) =~= start.lines.skip(bottom as int));
                assert(self@.lines =~= start.lines.take(row as int) + start.lines.subrange(
                    row + index + 1,
                    bottom as int,
                ) + blank_lines((index + 1) as nat, start.columns as nat, start.attributes)
                    + start.lines.skip(bottom as int));
            }
            index += 1;
        }
        self.mark_changed();
    }

    pub fn scroll_down(&mut self, count: usize)
        requires
            old(self)@.wf(),
        ensures
            final(self)@ == old(self)@.scroll_down(count as int),
            final(self)@.wf(),
    {
        let top = self.scroll_top;
        let bottom = self.scroll_bottom;
        let steps = if count < bottom - top { count } else { bottom - top };
        let ghost start = self@;
        proof {
            assert(start.lines =~= start.lines.take(top as int) + blank_lines(0, start.columns as nat, start.attributes)
                + start.lines.subrange(top as int, bottom as int) + start.lines.skip(bottom as int));
        }
        let mut index: usize = 0;
        while index < steps
            invariant
                index <= steps <= bottom - top,
                top < bottom <= start.rows,
                start.wf(),
                self@.wf(),
                self@ == (ScreenView {
                    lines: start.lines.take(top as int) + blank_lines(
                        index as nat,
                        start.columns as nat,
                        start.attributes,
                    ) + start.lines.subrange(top as int, bottom - index) + start.lines.skip(
                        bottom as int,
                    ),
                    ..start
                }),
            decreases steps - index,
        {
            let ghost before = self@;
            self.shift_lines_down(top, bottom);
            proof {
                let b = blank_lines(index as nat, start.columns as nat, start.attributes);
                lemma_blank_lines_push(index as nat, start.columns as nat, start.attributes);
                assert(before.lines.take(top as int) =~= start.lines.take(top as int));
                assert(before.lines.subrange(top as int, bottom - 1) =~= b + start.lines.subrange(top as int, bottom - (index + 1)));
                assert(before.lines.skip(bottom as int) =~= start.lines.skip(bottom as int));
                assert(self@.lines =~= start.lines.take(top as int) + blank_lines(
                    (index + 1) as nat,
                    start.columns as nat,
                    start.attributes,
                ) + start.lines.subrange(top as int, bottom - (index + 1)) + start.lines.skip(
                    bottom as int,
                ));
            }
            index += 1;
        }
        self.mark_changed();
    }

    pub fn line_feed(&mut self)
        requires
            old(self)@.wf(),
        ensures
            final(self)@ == old(self)@.line_feed(),
            final(self)@.wf(),
            final(self)@.cursor.column == old(self)@.cursor.column,
            final(self)@.columns == old(self)@.columns,
    {
        self.wrap_pending = false;
        if self.cursor.row + 1 == self.scroll_bottom {
            self.scroll_up(1);
        } else {
            self.cursor.row = if self.cursor.row + 1 < self.rows - 1 {
                self.cursor.row + 1
            } else {
                self.rows - 1
            };
        }
        self.mark_changed();
    }

    pub fn reverse_index(&mut self)
        requires
            old(self)@.wf(),
        ensures
            final(self)@ == old(self)@.reverse_index(),
            final(self)@.wf(),
    {
        self.wrap_pending = false;
        if self.cursor.row == self.scroll_top {
            self.scroll_down(1);
        } else {
            self.cursor.row = self.cursor.row.saturating_sub(1);
        }
        self.mark_changed();
    }
}


/// The first column of the grapheme that covers `column`.
pub open spec fn grapheme_base(line: Seq<CellView>, column: int) -> int
    decreases column,
{
    if column > 0 && line[column].width == CellWidth::Continuation {
        grapheme_base(line, column - 1)
    } else {
        column
    }
}

/// How many columns a printed character takes: its Unicode width, kept in `[1, 2]`.
pub open spec fn cell_width_for(columns: Option<usize>) -> int {
    match columns {
        Some(width) => clamp_width(width as int),
        None => 1,
    }
}

pub open spec fn clamp_width(width: int) -> int {
    if width < 1 {
        1
    } else if width > 2 {
        2
    } else {
        width
    }
}

impl ScreenView {
    pub open spec fn with_cursor_column(self, column: int) -> ScreenView {
        ScreenView { cursor: Cursor { column: column as usize, ..self.cursor }, ..self }
    }

    /// The cell before the cursor that `c` may join, with its text and `c` after it; `None`
    /// when nothing is before the cursor, or that cell is a continuation or a blank.
    pub open spec fn join_target(self, c: char) -> Option<(int, Seq<char>)> {
        let row = self.cursor.row as int;
        let line = self.lines[row];
        if !self.wrap_pending && self.cursor.column == 0 {
            None
        } else {
            let start: int = if self.wrap_pending {
                self.cursor.column as int
            } else {
                self.cursor.column - 1
            };
            let column = grapheme_base(line, start);
            let cell = line[column];
            if cell.width == CellWidth::Continuation || cell.text == seq![' '] {
                None
            } else {
                Some((column, cell.text.push(c)))
            }
        }
    }

    /// Appends `c` to the grapheme before the cursor when the joined text is one grapheme
    /// cluster (`clusters` is 1); the cell becomes wide, and the cursor moves past it, when the
    /// joined text takes two or more `columns` and the next column exists. `None` when there
    /// is no grapheme to join or the text is not one cluster.
    pub open spec fn join_grapheme(self, c: char, clusters: usize, columns: usize) -> Option<ScreenView> {
        match self.join_target(c) {
            None => None,
            Some((column, candidate)) => {
                let row = self.cursor.row as int;
                let cell = self.lines[row][column];
                if clusters != 1 {
                    None
                } else {
                    let new_width = clamp_width(columns as int);
                    let grown = self.with_cell(row, column, CellView { text: candidate, ..cell });
                    let widened = if new_width == 2 && cell.width != CellWidth::Wide && column + 1
                        < self.columns {
                        let split = grown.with_cell(
                            row,
                            column,
                            CellView { text: candidate, width: CellWidth::Wide, ..cell },
                        ).with_cell(
                            row,
                            column + 1,
                            continuation_cell_view(self.attributes, self.active_hyperlink),
                        );
                        if self.wrap_pending {
                            split
                        } else if self.cursor.column + 1 >= self.columns {
                            ScreenView {
                                wrap_pending: true,
                                ..split.with_cursor_column(self.columns - 1)
                            }
                        } else {
                            split.with_cursor_column(self.cursor.column + 1)
                        }
                    } else {
                        grown
                    };
                    Some(widened.changed())
                }
            },
        }
    }

    /// Appends `c` to the grapheme before the cursor when the two form one grapheme cluster
    /// as `unicode-segmentation` counts them, the width of the joined text as `unicode-width`
    /// gives it; `None` when they do not, or there is no such grapheme.
    pub open spec fn extend_grapheme(self, c: char) -> Option<ScreenView> {
        match self.join_target(c) {
            None => None,
            Some((_, candidate)) => self.join_grapheme(c, grapheme_count(candidate), text_columns(candidate)),
        }
    }

    /// Settles a pending wrap before a new cell is written: with `auto_wrap` the cursor
    /// moves to the start of the next line.
    pub open spec fn settle_wrap(self, auto_wrap: bool) -> ScreenView {
        if self.wrap_pending {
            let moved = if auto_wrap {
                self.with_cursor_column(0).line_feed()
            } else {
                self
            };
            ScreenView { wrap_pending: false, ..moved }
        } else {
            self
        }
    }

    /// Makes room for a grapheme of `natural` columns: a wide one that does not fit wraps
    /// to the next line with `auto_wrap` on a grid wider than one column, and is narrowed
    /// to one column otherwise. Gives the state and the width that will be written.
    pub open spec fn make_room(self, natural: int, auto_wrap: bool) -> (ScreenView, int) {
        if !(natural == 2 && self.cursor.column + 1 >= self.columns) {
            (self, natural)
        } else if auto_wrap && self.columns > 1 {
            (self.with_cursor_column(0).line_feed(), natural)
        } else {
            (self, 1)
        }
    }

    /// Writes a cell of `width` columns holding `c` at the cursor and advances it.
    pub open spec fn write_char(self, c: char, width: int) -> ScreenView {
        let row = self.cursor.row as int;
        let column = self.cursor.column as int;
        let cleared = if width == 2 {
            self.clear_wide_at(row, column).clear_wide_at(row, column + 1)
        } else {
            self.clear_wide_at(row, column)
        };
        let cell = CellView {
            text: seq![c],
            attributes: cleared.attributes,
            width: if width == 2 {
                CellWidth::Wide
            } else {
                CellWidth::Single
            },
            hyperlink: cleared.active_hyperlink,
        };
        let written = cleared.with_cell(row, column, cell);
        let finished = if width == 2 {
            written.with_cell(
                row,
                column + 1,
                continuation_cell_view(cleared.attributes, cleared.active_hyperlink),
            )
        } else {
            written
        };
        let advanced = if column + width >= finished.columns {
            ScreenView { wrap_pending: true, ..finished.with_cursor_column(finished.columns - 1) }
        } else {
            finished.with_cursor_column(column + width)
        };
        ScreenView { viewport_offset: 0, ..advanced }.changed()
    }

    /// Writes `c` into a new cell at the cursor, wrapping, inserting and advancing as the
    /// modes say.
    pub open spec fn put_new(self, c: char, columns: Option<usize>, auto_wrap: bool, insert_mode: bool) -> ScreenView {
        let (placed, width) = self.settle_wrap(auto_wrap).make_room(cell_width_for(columns), auto_wrap);
        let inserted = if insert_mode {
            placed.insert_cells(width)
        } else {
            placed
        };
        inserted.write_char(c, width)
    }

    /// Prints a character: it joins the grapheme before the cursor when it can, otherwise it
    /// takes a new cell.
    pub open spec fn put(self, c: char, auto_wrap: bool, insert_mode: bool) -> ScreenView {
        match self.extend_grapheme(c) {
            Some(extended) => extended,
            None => self.put_new(c, char_columns(c), auto_wrap, insert_mode),
        }
    }
}


/// Erasing in the cursor's line (`ESC [ K`): mode 0 blanks the cells from the cursor column to
/// the end of the line and keeps those before it, mode 1 blanks from the start through the
/// cursor column and keeps those after it, mode 2 blanks the whole line. A blank is a space in
/// the current rendition with no link. Every other line stays as it was.
pub proof fn lemma_erase_line_blanks_its_range(screen: ScreenView, mode: int)
    requires
        screen.wf(),
        0 <= mode <= 2,
    ensures
        ({
            let erased = screen.erase_line(mode);
            let row = screen.cursor.row as int;
            let column = screen.cursor.column as int;
            let blank = CellView {
                text: seq![' '],
                attributes: screen.attributes,
                width: CellWidth::Single,
                hyperlink: None,
            };
            &&& erased.lines.len() == screen.lines.len()
            &&& forall|i: int| 0 <= i < screen.lines.len() && i != row ==> #[trigger] erased.lines[i] == screen.lines[i]
            &&& erased.lines[row].len() == screen.columns
            &&& forall|k: int|
                0 <= k < screen.columns ==> #[trigger] erased.lines[row][k] == (if (mode == 0 && k >= column) || (
                mode == 1 && k <= column) || mode == 2 {
                    blank
                } else {
                    screen.lines[row][k]
                })
        }),
{
    let erased = screen.erase_line(mode);
    let row = screen.cursor.row as int;
    assert(screen.lines[row].len() == screen.columns);
}

/// Writing a character into a new cell returns the view to live output.
pub proof fn lemma_new_character_shows_live_screen(screen: ScreenView, c: char, width: int)
    ensures
        screen.write_char(c, width).viewport_offset == 0,
{
}

/// Scrolling the view moves it by `delta` lines toward older history, stopping at the live
/// screen and at the oldest line kept.
pub proof fn lemma_viewport_stays_in_history(screen: ScreenView, delta: int)
    requires
        screen.wf(),
    ensures
        screen.scroll_viewport(delta).viewport_offset == clamp_offset(
            screen.viewport_offset as int,
            delta,
            screen.scrollback.len() as int,
        ),
        screen.scroll_viewport(delta).viewport_offset <= screen.scrollback.len(),
        screen.scroll_viewport(delta).scroll_to_bottom().viewport_offset == 0,
{
}

/// Scrolling a region that does not span the whole screen, or a screen that keeps no history,
/// leaves the history as it was.
pub proof fn lemma_region_scroll_keeps_history(screen: ScreenView, count: nat)
    requires
        screen.scroll_top != 0 || screen.scroll_bottom != screen.rows || !screen.allow_scrollback,
    ensures
        screen.scroll_up_steps(count).scrollback == screen.scrollback,
        screen.scroll_up_steps(count).scroll_top == screen.scroll_top,
        screen.scroll_up_steps(count).scroll_bottom == screen.scroll_bottom,
        screen.scroll_up_steps(count).rows == screen.rows,
        screen.scroll_up_steps(count).allow_scrollback == screen.allow_scrollback,
    decreases count,
{
    if count > 0 {
        lemma_region_scroll_keeps_history(screen, (count - 1) as nat);
    }
}

/// Scrolling the whole screen of the primary buffer by one line moves its top line to the end
/// of the history; when the history is full its oldest line gives way.
pub proof fn lemma_full_scroll_records_top_line(screen: ScreenView)
    requires
        screen.wf(),
        screen.scroll_top == 0,
        screen.scroll_bottom == screen.rows,
        screen.allow_scrollback,
    ensures
        screen.scrollback.len() < screen.history_cap() ==> screen.scroll_up_step().scrollback
            == screen.scrollback.push(screen.lines[0]),
        screen.scrollback.len() == screen.history_cap() ==> screen.scroll_up_step().scrollback
            == screen.scrollback.push(screen.lines[0]).drop_first(),
{
    let removed = ScreenView { lines: screen.lines.remove(0), ..screen };
    let appended = ScreenView {
        scrollback: removed.scrollback.push(screen.lines[0]),
        viewport_offset: if removed.viewport_offset > 0 {
            (removed.viewport_offset + 1) as usize
        } else {
            0
        },
        ..removed
    };
    if screen.scrollback.len() == screen.history_cap() {
        let dropped = ScreenView {
            scrollback: appended.scrollback.drop_first(),
            viewport_offset: saturating_dec(appended.viewport_offset),
            selection: shift_selection_up(appended.selection),
            ..appended
        };
        assert(dropped.trim_scrollback() == dropped);
    }
}

/// The ends of a selection, put in order, come first to last.
pub proof fn lemma_selection_ends_are_ordered(selection: Selection)
    ensures
        point_le(selection.spec_ordered().0, selection.spec_ordered().1),
        (selection.spec_ordered() == (selection.start, selection.end)) || (selection.spec_ordered() == (
            selection.end,
            selection.start,
        )),
{
}

fn text_is_space(text: &String) -> (space: bool)
    ensures
        space == (text@ == seq![' ']),
{
    let slice = text.as_str();
    if slice.unicode_len() != 1 {
        return false;
    }
    let first = slice.get_char(0);
    proof {
        if first == ' ' {
            assert(slice@ =~= seq![' ']);
        }
    }
    first == ' '
}

fn clamp_cell_width(width: usize) -> (clamped: usize)
    ensures
        clamped == clamp_width(width as int),
{
    if width < 1 {
        1
    } else if width > 2 {
        2
    } else {
        width
    }
}

impl Screen {
    proof fn lemma_cell(&self, row: int, column: int)
        requires
            self@.wf(),
            0 <= row < self@.rows,
            0 <= column < self@.columns,
        ensures
            self.lines@[row]@.len() == self@.columns,
            self.lines@[row]@[column]@ == self@.lines[row][column],
            self.lines@.len() == self@.rows,
    {
        assert(self@.lines[row] == cells_view(self.lines@[row]@));
    }

    fn grapheme_start(&self, start: usize) -> (column: usize)
        requires
            self@.wf(),
            start < self@.columns,
        ensures
            column == grapheme_base(self@.lines[self@.cursor.row as int], start as int),
            column <= start,
    {
        let row = self.cursor.row;
        let mut column = start;
        proof {
            self.lemma_cell(row as int, column as int);
        }
        while column > 0 && self.lines[row][column].width == CellWidth::Continuation
            invariant
                self@.wf(),
                row == self@.cursor.row,
                column <= start < self@.columns,
                self.lines@.len() == self@.rows,
                self.lines@[row as int]@.len() == self@.columns,
                grapheme_base(self@.lines[row as int], start as int) == grapheme_base(
                    self@.lines[row as int],
                    column as int,
                ),
            decreases column,
        {
            proof {
                self.lemma_cell(row as int, column as int);
            }
            column -= 1;
            proof {
                self.lemma_cell(row as int, column as int);
            }
        }
        proof {
            self.lemma_cell(row as int, column as int);
        }
        column
    }

    /// The text of the cell before the cursor with `c` after it, when `c` may join it.
    fn join_text(&self, c: char) -> (text: Option<String>)
        requires
            self@.wf(),
        ensures
            match self@.join_target(c) {
                None => text is None,
                Some((_, candidate)) => text matches Some(joined) && joined@ == candidate,
            },
    {
        if !self.wrap_pending && self.cursor.column == 0 {
            return None;
        }
        let start = if self.wrap_pending { self.cursor.column } else { self.cursor.column - 1 };
        let column = self.grapheme_start(start);
        let row = self.cursor.row;
        proof {
            self.lemma_cell(row as int, column as int);
        }
        let width = self.lines[row][column].width;
        if width == CellWidth::Continuation || text_is_space(&self.lines[row][column].text) {
            return None;
        }
        let mut candidate = self.lines[row][column].text.clone();
        push_char(&mut candidate, c);
        Some(candidate)
    }

    fn try_extend_grapheme(&mut self, c: char) -> (extended: bool)
        requires
            old(self)@.wf(),
        ensures
            extended == old(self)@.extend_grapheme(c).is_some(),
            extended ==> final(self)@ == old(self)@.extend_grapheme(c).unwrap(),
            !extended ==> final(self)@ == old(self)@,
            final(self)@.wf(),
    {
        match self.join_text(c) {
            None => false,
            Some(candidate) => {
                let clusters = count_graphemes(candidate.as_str());
                let columns = str_width(candidate.as_str());
                self.join_grapheme(c, clusters, columns)
            },
        }
    }

    /// Appends `c` to the grapheme before the cursor, given how many grapheme `clusters` and
    /// `columns` the joined text makes; false, with the screen unchanged, when there is no
    /// grapheme to join or the joined text is not one cluster.
    pub fn join_grapheme(&mut self, c: char, clusters: usize, columns: usize) -> (joined: bool)
        requires
            old(self)@.wf(),
        ensures
            joined == old(self)@.join_grapheme(c, clusters, columns).is_some(),
            joined ==> final(self)@ == old(self)@.join_grapheme(c, clusters, columns).unwrap(),
            !joined ==> final(self)@ == old(self)@,
            final(self)@.wf(),
    {
        if !self.wrap_pending && self.cursor.column == 0 {
            return false;
        }
        let start = if self.wrap_pending { self.cursor.column } else { self.cursor.column - 1 };
        let column = self.grapheme_start(start);
        let row = self.cursor.row;
        proof {
            self.lemma_cell(row as int, column as int);
        }
        let width = self.lines[row][column].width;
        if width == CellWidth::Continuation || text_is_space(&self.lines[row][column].text) {
            return false;
        }
        let mut candidate = self.lines[row][column].text.clone();
        push_char(&mut candidate, c);
        if clusters != 1 {
            return false;
        }
        let new_width = clamp_cell_width(columns);
        let attributes = self.lines[row][column].attributes;
        let hyperlink = crate::cell::clone_optional_string(&self.lines[row][column].hyperlink);
        let columns = self.columns;
        let widen = new_width == 2 && width != CellWidth::Wide && column + 1 < columns;
        let grown = Cell { text: candidate, attributes, width, hyperlink };
        self.set_cell(row, column, grown);
        if widen {
            proof {
                self.lemma_cell(row as int, column as int);
            }
            let text = self.lines[row][column].text.clone();
            let link = crate::cell::clone_optional_string(&self.lines[row][column].hyperlink);
            proof {
                self.lemma_cell(row as int, column as int);
            }
            self.set_cell(row, column, Cell { text, attributes, width: CellWidth::Wide, hyperlink: link });
            let active = crate::cell::clone_optional_string(&self.active_hyperlink);
            self.set_cell(row, column + 1, Cell::continuation(self.attributes, active));
            if !self.wrap_pending {
                if self.cursor.column + 1 >= columns {
                    self.cursor.column = columns - 1;
                    self.wrap_pending = true;
                } else {
                    self.cursor.column = self.cursor.column + 1;
                }
            }
        }
        self.mark_changed();
        true
    }

    fn settle_wrap(&mut self, auto_wrap: bool)
        requires
            old(self)@.wf(),
        ensures
            final(self)@ == old(self)@.settle_wrap(auto_wrap),
            final(self)@.wf(),
    {
        if self.wrap_pending {
            if auto_wrap {
                self.cursor.column = 0;
                self.line_feed();
            }
            self.wrap_pending = false;
        }
    }

    fn make_room(&mut self, natural: usize, auto_wrap: bool) -> (width: usize)
        requires
            old(self)@.wf(),
            1 <= natural <= 2,
        ensures
            (final(self)@, width as int) == old(self)@.make_room(natural as int, auto_wrap),
            final(self)@.wf(),
            1 <= width <= 2,
            width == 2 ==> final(self)@.cursor.column + 1 < final(self)@.columns,
    {
        if natural == 2 && self.cursor.column + 1 >= self.columns {
            if auto_wrap && self.columns > 1 {
                self.cursor.column = 0;
                self.line_feed();
                2
            } else {
                1
            }
        } else {
            natural
        }
    }

    fn write_char(&mut self, c: char, width: usize)
        requires
            old(self)@.wf(),
            1 <= width <= 2,
            width == 2 ==> old(self)@.cursor.column + 1 < old(self)@.columns,
        ensures
            final(self)@ == old(self)@.write_char(c, width as int),
            final(self)@.wf(),
    {
        let row = self.cursor.row;
        let column = self.cursor.column;
        self.clear_wide_at(row, column);
        if width == 2 {
            self.clear_wide_at(row, column + 1);
        }
        let mut text = String::new();
        push_char(&mut text, c);
        proof {
            assert(text@ =~= seq![c]);
        }
        let hyperlink = crate::cell::clone_optional_string(&self.active_hyperlink);
        let cell = Cell {
            text,
            attributes: self.attributes,
            width: if width == 2 { CellWidth::Wide } else { CellWidth::Single },
            hyperlink,
        };
        self.set_cell(row, column, cell);
        if width == 2 {
            let link = crate::cell::clone_optional_string(&self.active_hyperlink);
            self.set_cell(row, column + 1, Cell::continuation(self.attributes, link));
        }
        if column + width >= self.columns {
            self.cursor.column = self.columns - 1;
            self.wrap_pending = true;
        } else {
            self.cursor.column = column + width;
        }
        self.viewport_offset = 0;
        self.mark_changed();
    }

    /// Prints a character: it joins the grapheme before the cursor when it can, otherwise it
    /// takes a new cell as wide as `unicode-width` says.
    pub fn put(&mut self, c: char, auto_wrap: bool, insert_mode: bool)
        requires
            old(self)@.wf(),
        ensures
            final(self)@ == old(self)@.put(c, auto_wrap, insert_mode),
            final(self)@.wf(),
    {
        if self.try_extend_grapheme(c) {
            return;
        }
        let columns = char_width(c);
        self.put_new(c, columns, auto_wrap, insert_mode);
    }

    /// Writes `c` into a new cell at the cursor, one column wide when `columns` is none or
    /// below one and two when it is above two: a pending wrap is taken first when `auto_wrap`
    /// is set, a wide character that does not fit wraps to the next line (or narrows when it
    /// cannot), `insert_mode` shifts the rest of the line right, and the cursor advances.
    pub fn put_new(&mut self, c: char, columns: Option<usize>, auto_wrap: bool, insert_mode: bool)
        requires
            old(self)@.wf(),
        ensures
            final(self)@ == old(self)@.put_new(c, columns, auto_wrap, insert_mode),
            final(self)@.wf(),
    {
        self.settle_wrap(auto_wrap);
        let natural = match columns {
            Some(width) => clamp_cell_width(width),
            None => 1,
        };
        let width = self.make_room(natural, auto_wrap);
        if insert_mode {
            self.insert_cells(width);
        }
        self.write_char(c, width);
    }
}


impl ScreenView {
    /// Every line, live and in history, cut or padded to `columns`.
    pub open spec fn resize_columns(self, columns: usize) -> ScreenView {
        ScreenView {
            lines: self.lines.map_values(|line: Seq<CellView>| resize_line_view(line, columns as nat)),
            scrollback: self.scrollback.map_values(
                |line: Seq<CellView>| resize_line_view(line, columns as nat),
            ),
            columns,
            tab_stops: default_tab_stops(columns as nat),
            ..self
        }
    }

    /// The top live line leaves the screen, into the history when history is kept.
    pub open spec fn drop_top_line(self) -> ScreenView {
        let removed = ScreenView { lines: self.lines.drop_first(), ..self };
        if self.allow_scrollback {
            removed.push_scrollback(self.lines[0])
        } else {
            removed
        }
    }

    pub open spec fn drop_top_lines(self, count: nat) -> ScreenView
        decreases count,
    {
        if count == 0 {
            self
        } else {
            self.drop_top_lines((count - 1) as nat).drop_top_line()
        }
    }

    /// Moves the top lines into history until `rows` are left; the cursor moves up with
    /// its line.
    pub open spec fn shrink_rows(self, rows: usize) -> ScreenView {
        let removed = (self.rows - rows) as nat;
        let dropped = self.drop_top_lines(removed);
        ScreenView {
            cursor: Cursor {
                row: if dropped.cursor.row >= removed {
                    (dropped.cursor.row - removed) as usize
                } else {
                    0
                },
                ..dropped.cursor
            },
            ..dropped
        }
    }

    /// Adds blank lines at the bottom until there are `rows`.
    pub open spec fn grow_rows(self, rows: usize) -> ScreenView {
        ScreenView {
            lines: self.lines + blank_lines(
                (rows - self.rows) as nat,
                self.columns as nat,
                self.attributes,
            ),
            ..self
        }
    }

    /// Records the new height, resets the scrolling region and keeps cursor and viewport on
    /// the grid.
    pub open spec fn finish_resize(self, columns: usize, rows: usize) -> ScreenView {
        ScreenView {
            rows,
            scroll_top: 0,
            scroll_bottom: rows,
            cursor: Cursor {
                row: min_nat(self.cursor.row as int, rows - 1) as usize,
                column: min_nat(self.cursor.column as int, columns - 1) as usize,
                ..self.cursor
            },
            wrap_pending: false,
            viewport_offset: min_nat(self.viewport_offset as int, self.scrollback.len() as int)
                as usize,
            ..self
        }.changed()
    }

    /// The grid at a new size. Shrinking the height moves the top lines into history;
    /// growing it adds blank lines at the bottom. The scrolling region becomes the whole
    /// screen and the cursor stays on the grid. A zero size, or the current one, changes
    /// nothing.
    pub open spec fn resize(self, columns: usize, rows: usize) -> ScreenView {
        if columns == 0 || rows == 0 || (columns == self.columns && rows == self.rows) {
            self
        } else {
            let widened = if columns != self.columns {
                self.resize_columns(columns)
            } else {
                self
            };
            let reshaped = if rows < widened.rows {
                widened.shrink_rows(rows)
            } else if rows > widened.rows {
                widened.grow_rows(rows)
            } else {
                widened
            };
            reshaped.finish_resize(columns, rows).trim_scrollback()
        }
    }
}

fn resize_line(line: &mut Vec<Cell>, columns: usize)
    ensures
        cells_view(final(line)@) == resize_line_view(cells_view(old(line)@), columns as nat),
        final(line)@.len() == columns,
{
    let ghost initial = cells_view(line@);
    if columns <= line.len() {
        line.truncate(columns);
        proof {
            assert(cells_view(line@) =~= initial.take(columns as int));
        }
    } else {
        let ghost length = line@.len();
        while line.len() < columns
            invariant
                length <= line@.len() <= columns,
                length == initial.len(),
                cells_view(line@) =~= initial + Seq::new(
                    (line@.len() - length) as nat,
                    |i: int| default_cell_view(),
                ),
            decreases columns - line@.len(),
        {
            let cell = Cell::default();
            proof {
                lemma_cells_view_push(line@, cell);
            }
            line.push(cell);
        }
    }
    normalize_wide(line);
}

pub proof fn lemma_resize_line_len(line: Seq<CellView>, columns: nat)
    ensures
        resize_line_view(line, columns).len() == columns,
{
}

pub proof fn lemma_resize_columns_shape(s: ScreenView, columns: usize)
    requires
        s.wf(),
        columns > 0,
    ensures
        forall|i: int|
            0 <= i < s.resize_columns(columns).lines.len() ==> #[trigger] s.resize_columns(
                columns,
            ).lines[i].len() == columns,
        forall|i: int|
            0 <= i < s.resize_columns(columns).scrollback.len() ==> #[trigger] s.resize_columns(
                columns,
            ).scrollback[i].len() == columns,
        s.resize_columns(columns).lines.len() == s.rows,
        s.resize_columns(columns).scrollback.len() == s.scrollback.len(),
        s.resize_columns(columns).tab_stops.len() == columns,
{
    let r = s.resize_columns(columns);
    assert forall|i: int| 0 <= i < r.lines.len() implies #[trigger] r.lines[i].len() == columns by {
        lemma_resize_line_len(s.lines[i], columns as nat);
    }
    assert forall|i: int| 0 <= i < r.scrollback.len() implies #[trigger] r.scrollback[i].len() == columns by {
        lemma_resize_line_len(s.scrollback[i], columns as nat);
    }
}

impl Screen {
    fn resize_columns(&mut self, columns: usize)
        requires
            old(self)@.wf(),
            columns > 0,
        ensures
            final(self)@ == old(self)@.resize_columns(columns),
    {
        let ghost start = self@;
        let rows = self.lines.len();
        let mut index: usize = 0;
        while index < rows
            invariant
                rows == self.lines@.len() == start.rows,
                index <= rows,
                start.wf(),
                self@ == (ScreenView { lines: self@.lines, ..start }),
                forall|k: int|
                    0 <= k < rows ==> #[trigger] self@.lines[k] == if k < index {
                        resize_line_view(start.lines[k], columns as nat)
                    } else {
                        start.lines[k]
                    },
            decreases rows - index,
        {
            let ghost before = self.lines@;
            let ghost before_view = self@;
            proof {
                assert(before_view.lines[index as int] == cells_view(before[index as int]@));
                assert(before_view.lines[index as int] == start.lines[index as int]);
            }
            resize_line(&mut self.lines[index], columns);
            proof {
                lemma_lines_view_update(before, index as int, self.lines@[index as int]);
                assert(self.lines@ == before.update(index as int, self.lines@[index as int]));
                assert(self@.lines[index as int] == resize_line_view(start.lines[index as int], columns as nat));
                assert forall|k: int| 0 <= k < rows implies #[trigger] self@.lines[k] == if k < index + 1 {
                        resize_line_view(start.lines[k], columns as nat)
                    } else {
                        start.lines[k]
                    } by {
                    if k != index {
                        assert(self@.lines[k] == before_view.lines[k]);
                    }
                }
            }
            index += 1;
        }
        proof {
            assert(self@.lines =~= start.resize_columns(columns).lines);
            assert(start.scrollback.skip(0) =~= start.scrollback);
            assert(start.scrollback.take(0).map_values(
                |line: Seq<CellView>| resize_line_view(line, columns as nat),
            ) =~= Seq::<Seq<CellView>>::empty());
        }
        let history = self.scrollback.len();
        let mut moved: usize = 0;
        while moved < history
            invariant
                history == self.scrollback@.len() == start.scrollback.len(),
                moved <= history,
                start.wf(),
                self@ == (ScreenView {
                    scrollback: self@.scrollback,
                    lines: start.resize_columns(columns).lines,
                    ..start
                }),
                self@.scrollback =~= start.scrollback.skip(moved as int) + start.scrollback.take(moved as int).map_values(
                    |line: Seq<CellView>| resize_line_view(line, columns as nat),
                ),
            decreases history - moved,
        {
            let ghost before = self.scrollback@;
            let ghost before_view = self@;
            proof {
                lemma_lines_view_drop_first(before);
                assert(before_view.scrollback[0] == start.scrollback.skip(moved as int)[0]);
                assert(before_view.scrollback[0] == cells_view(before[0]@));
                assert(start.scrollback.skip(moved as int)[0] == start.scrollback[moved as int]);
            }
            let mut line = self.scrollback.pop_front().unwrap();
            resize_line(&mut line, columns);
            proof {
                lemma_lines_view_push(self.scrollback@, line);
                assert(lines_view(before.drop_first()) =~= start.scrollback.skip(moved + 1) + start.scrollback.take(moved as int).map_values(
                    |line: Seq<CellView>| resize_line_view(line, columns as nat),
                ));
                assert(start.scrollback.take(moved + 1).map_values(
                    |line: Seq<CellView>| resize_line_view(line, columns as nat),
                ) =~= start.scrollback.take(moved as int).map_values(
                    |line: Seq<CellView>| resize_line_view(line, columns as nat),
                ).push(resize_line_view(start.scrollback[moved as int], columns as nat)));
            }
            self.scrollback.push_back(line);
            moved += 1;
        }
        self.columns = columns;
        self.tab_stops = tab_stops(columns);
        proof {
            assert(start.scrollback.take(history as int) =~= start.scrollback);
            assert(self@.scrollback =~= start.resize_columns(columns).scrollback);
            assert(self@.lines =~= start.resize_columns(columns).lines);
        }
    }
}


impl Screen {
    fn drop_top_line(&mut self)
        requires
            old(self)@.history_wf(),
            old(self)@.lines.len() > 0,
            forall|k: int|
                0 <= k < old(self)@.lines.len() ==> #[trigger] old(self)@.lines[k].len()
                    == old(self)@.columns,
        ensures
            final(self)@ == old(self)@.drop_top_line(),
            final(self)@.history_wf(),
            final(self)@.lines == old(self)@.lines.drop_first(),
            final(self)@ == (ScreenView {
                lines: final(self)@.lines,
                scrollback: final(self)@.scrollback,
                viewport_offset: final(self)@.viewport_offset,
                selection: final(self)@.selection,
                ..old(self)@
            }),
    {
        let ghost start = self@;
        proof {
            lemma_lines_view_remove(self.lines@, 0);
            assert(self@.lines[0] == cells_view(self.lines@[0]@));
        }
        let line = self.lines.remove(0);
        proof {
            assert(self@.lines =~= start.lines.drop_first());
            assert(start.lines[0].len() == start.columns);
            assert(cells_view(line@).len() == line@.len());
            assert(line@.len() == self@.columns);
        }
        if self.allow_scrollback {
            self.push_scrollback(line);
        }
    }

    fn shrink_rows(&mut self, rows: usize)
        requires
            old(self)@.history_wf(),
            0 < rows < old(self)@.rows,
            old(self)@.lines.len() == old(self)@.rows,
            forall|k: int|
                0 <= k < old(self)@.lines.len() ==> #[trigger] old(self)@.lines[k].len()
                    == old(self)@.columns,
        ensures
            final(self)@ == old(self)@.shrink_rows(rows),
            final(self)@.history_wf(),
            final(self)@.lines.len() == rows,
            forall|k: int|
                0 <= k < final(self)@.lines.len() ==> #[trigger] final(self)@.lines[k].len()
                    == final(self)@.columns,
            final(self)@.columns == old(self)@.columns,
            final(self)@.rows == old(self)@.rows,
            final(self)@.scrollback_limit == old(self)@.scrollback_limit,
            final(self)@.tab_stops == old(self)@.tab_stops,
    {
        let ghost widened = self@;
        let remove = self.rows - rows;
        let mut index: usize = 0;
        while index < remove
            invariant
                index <= remove == widened.rows - rows,
                rows < widened.rows,
                self@ == widened.drop_top_lines(index as nat),
                self@.history_wf(),
                self@.lines.len() == widened.rows - index,
                forall|k: int| 0 <= k < self@.lines.len() ==> #[trigger] self@.lines[k].len() == self@.columns,
                self@.columns == widened.columns,
                self@.rows == widened.rows,
                self@.cursor == widened.cursor,
                self@.scrollback_limit == widened.scrollback_limit,
                self@.allow_scrollback == widened.allow_scrollback,
                self@.tab_stops == widened.tab_stops,
            decreases remove - index,
        {
            let ghost before = self@;
            self.drop_top_line();
            proof {
                assert forall|k: int| 0 <= k < self@.lines.len() implies #[trigger] self@.lines[k].len() == self@.columns by {
                    assert(self@.lines[k] == before.lines[k + 1]);
                }
            }
            index += 1;
        }
        self.cursor.row = self.cursor.row.saturating_sub(remove);
    }

    fn grow_rows(&mut self, rows: usize)
        requires
            old(self)@.lines.len() == old(self)@.rows < rows,
        ensures
            final(self)@ == old(self)@.grow_rows(rows),
    {
        let ghost widened = self@;
        let add = rows - self.rows;
        let mut index: usize = 0;
        proof {
            assert(widened.lines + blank_lines(0, widened.columns as nat, widened.attributes) =~= widened.lines);
        }
        while index < add
            invariant
                index <= add == rows - widened.rows,
                self@ == (ScreenView {
                    lines: widened.lines + blank_lines(
                        index as nat,
                        widened.columns as nat,
                        widened.attributes,
                    ),
                    ..widened
                }),
            decreases add - index,
        {
            let line = blank_line(self.columns, self.attributes);
            proof {
                lemma_lines_view_push(self.lines@, line);
                lemma_blank_lines_push(index as nat, widened.columns as nat, widened.attributes);
            }
            self.lines.push(line);
            index += 1;
            proof {
                assert(self@.lines =~= widened.lines + blank_lines(
                    index as nat,
                    widened.columns as nat,
                    widened.attributes,
                ));
            }
        }
    }

    fn finish_resize(&mut self, columns: usize, rows: usize)
        requires
            rows > 0,
            columns > 0,
        ensures
            final(self)@ == old(self)@.finish_resize(columns, rows),
    {
        self.rows = rows;
        self.scroll_top = 0;
        self.scroll_bottom = rows;
        if self.cursor.row > rows - 1 {
            self.cursor.row = rows - 1;
        }
        if self.cursor.column > columns - 1 {
            self.cursor.column = columns - 1;
        }
        self.wrap_pending = false;
        if self.viewport_offset > self.scrollback.len() {
            self.viewport_offset = self.scrollback.len();
        }
        self.mark_changed();
    }

    pub fn resize(&mut self, columns: usize, rows: usize)
        requires
            old(self)@.wf(),
            rows + DEFAULT_SCROLLBACK_LIMIT < usize::MAX,
        ensures
            final(self)@ == old(self)@.resize(columns, rows),
            final(self)@.wf(),
    {
        if columns == 0 || rows == 0 || (columns == self.columns && rows == self.rows) {
            return;
        }
        let ghost start = self@;
        if columns != self.columns {
            proof {
                lemma_resize_columns_shape(self@, columns);
            }
            self.resize_columns(columns);
        }
        let ghost widened = self@;
        proof {
            if columns != start.columns {
                lemma_resize_columns_shape(start, columns);
            }
            assert(widened.columns == columns);
            assert(widened.lines.len() == widened.rows);
        }
        if rows < self.rows {
            self.shrink_rows(rows);
        } else if rows > self.rows {
            self.grow_rows(rows);
            proof {
                assert forall|k: int| 0 <= k < self@.lines.len() implies #[trigger] self@.lines[k].len() == self@.columns by {
                    if k < widened.rows {
                        assert(self@.lines[k] == widened.lines[k]);
                    }
                }
            }
        }
        let ghost reshaped = self@;
        self.finish_resize(columns, rows);
        proof {
            lemma_trim_keeps(self@);
        }
        self.trim_scrollback();
        proof {
            let f = self@;
            assert(f.lines.len() == f.rows);
            assert(forall|i: int| 0 <= i < f.lines.len() ==> #[trigger] f.lines[i].len() == f.columns);
            assert(forall|i: int| 0 <= i < f.scrollback.len() ==> #[trigger] f.scrollback[i].len() == f.columns);
            assert(f.tab_stops.len() == f.columns);
            assert(f.scrollback.len() <= f.history_cap());
        }
    }
}


impl ScreenView {
    pub open spec fn display_cell(self, row: int, column: int) -> Option<CellView> {
        match self.display_line(row) {
            Some(line) => if 0 <= column < line.len() {
                Some(line[column])
            } else {
                None
            },
            None => None,
        }
    }

    pub open spec fn display_cursor(self) -> Option<Cursor> {
        if self.viewport_offset == 0 {
            Some(self.cursor)
        } else {
            None
        }
    }

    /// Whether the displayed cell at `row`, `column` lies inside the selection.
    pub open spec fn selected_at(self, row: int, column: int) -> bool {
        match self.selection {
            Some(selection) => {
                let (start, end) = selection.spec_ordered();
                let line = self.display_top() + row;
                (start.line < line || (start.line == line && start.column <= column)) && (line
                    < end.line || (line == end.line && column <= end.column))
            },
            None => false,
        }
    }

    /// Whether the displayed cell at `row`, `column` lies inside the current search match.
    pub open spec fn search_match_at(self, row: int, column: int) -> bool {
        match self.search_match {
            Some(found) => found.start.line == self.display_top() + row && found.start.column
                <= column && column < found.start.column + found.columns,
            None => false,
        }
    }

    pub open spec fn hyperlink_at(self, row: int, column: int) -> Option<Seq<char>> {
        match self.display_cell(row, column) {
            Some(cell) => cell.hyperlink,
            None => None,
        }
    }
}

impl Screen {
    pub fn cell(&self, row: usize, column: usize) -> (cell: Option<&Cell>)
        requires
            self@.wf(),
        ensures
            match cell {
                Some(cell) => row < self@.rows && column < self@.columns && cell@
                    == self@.lines[row as int][column as int],
                None => !(row < self@.rows && column < self@.columns),
            },
    {
        if row < self.rows && column < self.columns {
            proof {
                self.lemma_cell(row as int, column as int);
            }
            Some(&self.lines[row][column])
        } else {
            None
        }
    }

    pub fn display_line(&self, row: usize) -> (line: Option<&[Cell]>)
        requires
            self@.wf(),
        ensures
            match line {
                Some(line) => self@.display_line(row as int) == Some(cells_view(line@)),
                None => self@.display_line(row as int) is None,
            },
    {
        if row >= self.rows {
            return None;
        }
        let index = self.display_top() + row;
        let history = self.scrollback.len();
        if index < history {
            Some(self.scrollback[index].as_slice())
        } else {
            Some(self.lines[index - history].as_slice())
        }
    }

    pub fn display_cell(&self, row: usize, column: usize) -> (cell: Option<&Cell>)
        requires
            self@.wf(),
        ensures
            match cell {
                Some(cell) => self@.display_cell(row as int, column as int) == Some(cell@),
                None => self@.display_cell(row as int, column as int) is None,
            },
    {
        match self.display_line(row) {
            Some(line) => {
                if column < line.len() {
                    Some(&line[column])
                } else {
                    None
                }
            },
            None => None,
        }
    }

    pub fn display_cursor(&self) -> (cursor: Option<Cursor>)
        ensures
            cursor == self@.display_cursor(),
    {
        if self.viewport_offset == 0 {
            Some(self.cursor)
        } else {
            None
        }
    }

    pub fn selected_at(&self, row: usize, column: usize) -> (selected: bool)
        requires
            self@.wf(),
        ensures
            selected == self@.selected_at(row as int, column as int),
    {
        match self.selection {
            Some(selection) => {
                let (start, end) = selection.ordered();
                let line: u128 = self.display_top() as u128 + row as u128;
                let column: u128 = column as u128;
                let start_line = start.line as u128;
                let end_line = end.line as u128;
                let start_column = start.column as u128;
                let end_column = end.column as u128;
                (start_line < line || (start_line == line && start_column <= column)) && (line
                    < end_line || (line == end_line && column <= end_column))
            },
            None => false,
        }
    }

    pub fn search_match_at(&self, row: usize, column: usize) -> (found: bool)
        requires
            self@.wf(),
        ensures
            found == self@.search_match_at(row as int, column as int),
    {
        match self.search_match {
            Some(found) => {
                let line: u128 = self.display_top() as u128 + row as u128;
                found.start.line as u128 == line && found.start.column as u128 <= column as u128
                    && (column as u128) < found.start.column as u128 + found.columns as u128
            },
            None => false,
        }
    }

    pub fn hyperlink_at(&self, row: usize, column: usize) -> (link: Option<&str>)
        requires
            self@.wf(),
        ensures
            match link {
                Some(link) => self@.hyperlink_at(row as int, column as int) == Some(link@),
                None => self@.hyperlink_at(row as int, column as int) is None,
            },
    {
        match self.display_cell(row, column) {
            Some(cell) => match &cell.hyperlink {
                Some(link) => Some(link.as_str()),
                None => None,
            },
            None => None,
        }
    }

    /// Returns the screen to the state of a fresh one of the same size.
    pub fn reset(&mut self)
        requires
            old(self)@.wf(),
        ensures
            final(self)@ == fresh_screen(old(self)@.columns, old(self)@.rows, old(self)@.allow_scrollback),
            final(self)@.wf(),
    {
        *self = Screen::new(self.columns, self.rows, self.allow_scrollback);
    }
}


/// The text with trailing spaces removed.
pub open spec fn trim_trailing_spaces(text: Seq<char>) -> Seq<char>
    decreases text.len(),
{
    if text.len() > 0 && text.last() == ' ' {
        trim_trailing_spaces(text.drop_last())
    } else {
        text
    }
}

/// The text a selection takes from the cells `from..=to` of a line, each clamped to the line.
pub open spec fn selected_piece(line: Seq<CellView>, from: int, to: int) -> Seq<char> {
    let last = line.len() - 1;
    trim_trailing_spaces(line_text_view(line.subrange(min_nat(from, last), min_nat(to, last) + 1)))
}

/// Whether `query` occurs in `text` starting at `index`.
pub open spec fn occurs_at(text: Seq<char>, query: Seq<char>, index: int) -> bool {
    0 <= index && index + query.len() <= text.len() && text.subrange(index, index + query.len())
        == query
}

/// The last index, no greater than `from`, where `query` occurs in `text`.
pub open spec fn last_occurrence_from(text: Seq<char>, query: Seq<char>, from: int) -> Option<int>
    decreases from + 1,
{
    if from < 0 {
        None
    } else if occurs_at(text, query, from) {
        Some(from)
    } else {
        last_occurrence_from(text, query, from - 1)
    }
}

pub proof fn lemma_last_occurrence_from_occurs(text: Seq<char>, query: Seq<char>, from: int)
    ensures
        match last_occurrence_from(text, query, from) {
            Some(index) => occurs_at(text, query, index) && index <= from,
            None => forall|i: int| 0 <= i <= from ==> !occurs_at(text, query, i),
        },
    decreases from + 1,
{
    if from >= 0 && !occurs_at(text, query, from) {
        lemma_last_occurrence_from_occurs(text, query, from - 1);
    }
}

/// Where the last occurrence of `query` in `text` starts.
pub open spec fn last_occurrence(text: Seq<char>, query: Seq<char>) -> Option<int> {
    last_occurrence_from(text, query, text.len() - query.len())
}

impl ScreenView {
    /// The selected text of the logical lines before `index`, starting at the first selected
    /// line: each line's selected cells with trailing spaces removed, lines joined by
    /// newlines; lines that do not exist add nothing.
    pub open spec fn selected_text_before(self, start: GridPoint, end: GridPoint, index: int) -> Seq<char>
        decreases index - start.line,
    {
        if index <= start.line {
            Seq::empty()
        } else {
            let before = self.selected_text_before(start, end, index - 1);
            let line_index = index - 1;
            match self.logical_line(line_index) {
                Some(line) => {
                    let from = if line_index == start.line {
                        start.column as int
                    } else {
                        0
                    };
                    let to = if line_index == end.line {
                        end.column as int
                    } else {
                        self.columns - 1
                    };
                    before + selected_piece(line, from, to) + if line_index != end.line {
                        seq!['\n']
                    } else {
                        Seq::empty()
                    }
                },
                None => before,
            }
        }
    }

    pub open spec fn selected_text(self) -> Option<Seq<char>> {
        match self.selection {
            Some(selection) => {
                let (start, end) = selection.spec_ordered();
                Some(self.selected_text_before(start, end, end.line + 1))
            },
            None => None,
        }
    }

    /// The last logical line, no later than `from`, whose text holds `query`.
    pub open spec fn last_line_with(self, query: Seq<char>, from: int) -> Option<int>
        decreases from + 1,
    {
        if from < 0 {
            None
        } else if self.logical_line(from) is Some && last_occurrence(
            line_text_view(self.logical_line(from).unwrap()),
            query,
        ) is Some {
            Some(from)
        } else {
            self.last_line_with(query, from - 1)
        }
    }

    /// Scrolls the viewport so that a logical line is on screen.
    pub open spec fn reveal_line(self, line: int) -> ScreenView {
        ScreenView {
            viewport_offset: if line < self.scrollback.len() {
                (self.scrollback.len() - line) as usize
            } else {
                0
            },
            ..self
        }
    }

    /// The match a search for `query` finds: the last occurrence on the last line that
    /// holds it.
    pub open spec fn search_result(self, query: Seq<char>) -> Option<SearchMatch> {
        if query.len() == 0 {
            None
        } else {
            match self.last_line_with(query, self.logical_line_count() - 1) {
                Some(line) => {
                    let text = line_text_view(self.logical_line(line).unwrap());
                    let index = last_occurrence(text, query).unwrap();
                    Some(
                        SearchMatch {
                            start: GridPoint {
                                line: line as usize,
                                column: min_nat(
                                    text_columns(text.take(index)) as int,
                                    self.columns - 1,
                                ) as usize,
                            },
                            columns: if text_columns(query) >= 1 {
                                text_columns(query)
                            } else {
                                1
                            },
                        },
                    )
                },
                None => None,
            }
        }
    }

    /// The state after a search: the match is recorded and its line revealed.
    pub open spec fn search(self, query: Seq<char>) -> ScreenView {
        match self.search_result(query) {
            Some(found) => ScreenView { search_match: Some(found), ..self }.reveal_line(
                found.start.line as int,
            ).changed(),
            None => ScreenView { search_match: None, ..self }.changed(),
        }
    }
}

/// The text of a line: the text of every cell that is not a continuation.
pub fn line_text(line: &[Cell]) -> (text: Vec<char>)
    ensures
        text@ == line_text_view(cells_view(line@)),
{
    let text = line_text_range(line, 0, line.len());
    proof {
        assert(cells_view(line@).subrange(0, line@.len() as int) =~= cells_view(line@));
    }
    text
}

/// The text of the cells `from..to` of a line.
fn line_text_range(line: &[Cell], from: usize, to: usize) -> (text: Vec<char>)
    requires
        from <= to <= line@.len(),
    ensures
        text@ == line_text_view(cells_view(line@).subrange(from as int, to as int)),
{
    let mut text: Vec<char> = Vec::new();
    let mut index: usize = from;
    proof {
        assert(cells_view(line@).subrange(from as int, from as int) =~= Seq::<CellView>::empty());
    }
    while index < to
        invariant
            from <= index <= to <= line@.len(),
            text@ == line_text_view(cells_view(line@).subrange(from as int, index as int)),
        decreases to - index,
    {
        let ghost before = text@;
        if line[index].width != CellWidth::Continuation {
            let piece = chars_of(line[index].text.as_str());
            let mut k: usize = 0;
            while k < piece.len()
                invariant
                    k <= piece@.len(),
                    text@ == before + piece@.take(k as int),
                decreases piece@.len() - k,
            {
                text.push(piece[k]);
                k += 1;
                proof {
                    assert(text@ =~= before + piece@.take(k as int));
                }
            }
            proof {
                assert(piece@.take(piece@.len() as int) =~= piece@);
            }
        }
        proof {
            let next = cells_view(line@).subrange(from as int, index + 1);
            assert(next.drop_last() =~= cells_view(line@).subrange(from as int, index as int));
            assert(next.last() == line@[index as int]@);
        }
        index += 1;
    }
    text
}

/// Removes trailing spaces.
fn trim_trailing(text: &mut Vec<char>)
    ensures
        final(text)@ == trim_trailing_spaces(old(text)@),
{
    while text.len() > 0 && text[text.len() - 1] == ' '
        invariant
            trim_trailing_spaces(text@) == trim_trailing_spaces(old(text)@),
        decreases text@.len(),
    {
        text.pop();
    }
}

/// Whether `query` occurs in `text` at `index`.
fn matches_at(text: &Vec<char>, query: &Vec<char>, index: usize) -> (found: bool)
    requires
        index + query@.len() <= text@.len(),
    ensures
        found == occurs_at(text@, query@, index as int),
{
    let mut k: usize = 0;
    while k < query.len()
        invariant
            k <= query@.len(),
            index + query@.len() <= text@.len(),
            forall|j: int| 0 <= j < k ==> text@[index + j] == query@[j],
        decreases query@.len() - k,
    {
        let length = text.len();
        assert(index + k < length);
        if text[index + k] != query[k] {
            proof {
                assert(text@.subrange(index as int, index + query@.len())[k as int] != query@[k as int]);
            }
            return false;
        }
        k += 1;
    }
    proof {
        assert(text@.subrange(index as int, index + query@.len()) =~= query@);
    }
    true
}

/// The start of the last occurrence of `query` in `text`.
pub fn find_last(text: &Vec<char>, query: &Vec<char>) -> (found: Option<usize>)
    ensures
        match found {
            Some(index) => last_occurrence(text@, query@) == Some(index as int),
            None => last_occurrence(text@, query@) is None,
        },
{
    if query.len() > text.len() {
        return None;
    }
    let mut from: usize = text.len() - query.len();
    loop
        invariant
            from + query@.len() <= text@.len(),
            last_occurrence(text@, query@) == last_occurrence_from(text@, query@, from as int),
        decreases from,
    {
        if matches_at(text, query, from) {
            return Some(from);
        }
        if from == 0 {
            proof {
                assert(last_occurrence_from(text@, query@, -1) is None);
            }
            return None;
        }
        from -= 1;
    }
}


impl Screen {
    fn logical_line(&self, index: usize) -> (line: Option<&[Cell]>)
        requires
            self@.wf(),
        ensures
            match line {
                Some(line) => self@.logical_line(index as int) == Some(cells_view(line@)),
                None => self@.logical_line(index as int) is None,
            },
    {
        let history = self.scrollback.len();
        if index < history {
            Some(self.scrollback[index].as_slice())
        } else if index - history < self.lines.len() {
            Some(self.lines[index - history].as_slice())
        } else {
            None
        }
    }

    fn selected_line_text(&self, index: usize, start: GridPoint, end: GridPoint) -> (piece: Vec<char>)
        requires
            self@.wf(),
            start.line <= index <= end.line,
            point_le(start, end),
        ensures
            self@.selected_text_before(start, end, index + 1) == self@.selected_text_before(
                start,
                end,
                index as int,
            ) + piece@,
    {
        match self.logical_line(index) {
            Some(line) => {
                proof {
                    assert(line@.len() == self@.columns) by {
                        if index < self@.scrollback.len() {
                            assert(self@.scrollback[index as int].len() == self@.columns);
                        } else {
                            assert(self@.lines[index - self@.scrollback.len()].len() == self@.columns);
                        }
                    }
                }
                let from = if index == start.line { start.column } else { 0 };
                let to = if index == end.line { end.column } else { self.columns - 1 };
                let last = line.len() - 1;
                let low = if from < last { from } else { last };
                let high = if to < last { to } else { last };
                let mut piece = if low <= high {
                    line_text_range(line, low, high + 1)
                } else {
                    proof {
                        assert(false);
                    }
                    Vec::new()
                };
                trim_trailing(&mut piece);
                if index != end.line {
                    piece.push('\n');
                }
                proof {
                    assert(piece@ =~= selected_piece(cells_view(line@), from as int, to as int) + if index != end.line {
                        seq!['\n']
                    } else {
                        Seq::empty()
                    });
                }
                piece
            },
            None => {
                proof {
                    assert(Seq::<char>::empty() + Seq::<char>::empty() =~= Seq::<char>::empty());
                }
                let piece: Vec<char> = Vec::new();
                proof {
                    assert(self@.selected_text_before(start, end, index as int) + piece@ =~= self@.selected_text_before(start, end, index as int));
                }
                piece
            },
        }
    }

    pub fn selected_text(&self) -> (text: Option<String>)
        requires
            self@.wf(),
        ensures
            match text {
                Some(text) => self@.selected_text() == Some(text@),
                None => self@.selected_text() is None,
            },
    {
        let selection = match self.selection {
            Some(selection) => selection,
            None => return None,
        };
        let (start, end) = selection.ordered();
        proof {
            assert(point_le(start, end));
        }
        let mut output: Vec<char> = Vec::new();
        let mut index = start.line;
        loop
            invariant_except_break
                self@.wf(),
                point_le(start, end),
                start.line <= index <= end.line,
                output@ == self@.selected_text_before(start, end, index as int),
            ensures
                output@ == self@.selected_text_before(start, end, end.line + 1),
            decreases end.line - index,
        {
            let piece = self.selected_line_text(index, start, end);
            let mut k: usize = 0;
            let ghost before = output@;
            while k < piece.len()
                invariant
                    k <= piece@.len(),
                    output@ == before + piece@.take(k as int),
                decreases piece@.len() - k,
            {
                output.push(piece[k]);
                k += 1;
                proof {
                    assert(output@ =~= before + piece@.take(k as int));
                }
            }
            proof {
                assert(piece@.take(piece@.len() as int) =~= piece@);
            }
            if index == end.line {
                break;
            }
            index += 1;
        }
        Some(string_from_chars(&output))
    }

    /// Searches the history and the screen, newest line first, for the last occurrence of
    /// `query`; the match is remembered and its line brought into view.
    pub fn search(&mut self, query: &str) -> (found: Option<SearchMatch>)
        requires
            old(self)@.wf(),
        ensures
            found == old(self)@.search_result(query@),
            final(self)@ == old(self)@.search(query@),
            final(self)@.wf(),
    {
        self.search_match = None;
        let needle = chars_of(query);
        if needle.len() == 0 {
            self.mark_changed();
            return None;
        }
        let count = self.logical_line_count();
        let ghost start = old(self)@;
        let mut index = count;
        while index > 0
            invariant
                self@ == (ScreenView { search_match: None, ..start }),
                start.wf(),
                index <= count == start.logical_line_count(),
                needle@ == query@,
                needle@.len() > 0,
                start == old(self)@,
                start.last_line_with(query@, count - 1) == start.last_line_with(query@, index - 1),
            decreases index,
        {
            index -= 1;
            let line = self.logical_line(index).unwrap();
            let text = line_text(line);
            match find_last(&text, &needle) {
                Some(position) => {
                    proof {
                        lemma_last_occurrence_from_occurs(text@, needle@, text@.len() - needle@.len());
                        assert(start.logical_line(index as int) == self@.logical_line(index as int));
                        assert(start.last_line_with(query@, index as int) == Some(index as int));
                    }
                    let mut prefix: Vec<char> = Vec::new();
                    let mut k: usize = 0;
                    while k < position
                        invariant
                            k <= position <= text@.len(),
                            prefix@ == text@.take(k as int),
                        decreases position - k,
                    {
                        prefix.push(text[k]);
                        k += 1;
                        proof {
                            assert(prefix@ =~= text@.take(k as int));
                        }
                    }
                    let prefix_text = string_from_chars(&prefix);
                    let prefix_width = str_width(prefix_text.as_str());
                    let column = if prefix_width < self.columns - 1 {
                        prefix_width
                    } else {
                        self.columns - 1
                    };
                    let query_width = str_width(query);
                    let result = SearchMatch {
                        start: GridPoint { line: index, column },
                        columns: if query_width >= 1 { query_width } else { 1 },
                    };
                    proof {
                        assert(start.last_line_with(query@, count - 1) == Some(index as int));
                        assert(line_text_view(start.logical_line(index as int).unwrap()) == text@);
                        assert(last_occurrence(text@, query@) == Some(position as int));
                        assert(prefix_text@ == text@.take(position as int));
                        assert(query@.len() != 0);
                        assert(prefix_width == text_columns(text@.take(position as int)));
                        assert(query_width == text_columns(query@));
                        assert(column as int == min_nat(prefix_width as int, start.columns - 1));
                        assert(start.search_result(query@) == Some(result));
                    }
                    self.search_match = Some(result);
                    let history = self.scrollback.len();
                    self.viewport_offset = if index < history { history - index } else { 0 };
                    self.mark_changed();
                    return Some(result);
                },
                None => {
                    proof {
                        assert(start.logical_line(index as int) == self@.logical_line(index as int));
                    }
                },
            }
        }
        proof {
            assert(start.last_line_with(query@, -1) is None);
        }
        self.mark_changed();
        None
    }
}

} // verus!
