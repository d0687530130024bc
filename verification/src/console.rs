//! The text console: a 25x80 character buffer with a cursor. Every call
//! returns the drawing it needs, glyph by glyph, for the caller to put on the
//! screen or in the console's window.
use vstd::prelude::*;
use crate::graphic::PixelColor;
use crate::util::filled_vec;

verus! {

pub const ROWS: usize = 25;
pub const COLUMNS: usize = 80;

/// One drawing step of the console.
#[derive(Clone, Copy, Debug, PartialEq, Eq, Structural)]
pub enum ConsoleDraw {
    /// Character `c` with its top-left corner at pixel `(x, y)`.
    Glyph { x: u64, y: u64, c: u8 },
    /// The window's body moves up one line (16 pixels), then the rectangle
    /// from `(x0, y0)` to `(x1, y1)` is filled with the background colour.
    ScrollWindow { x0: usize, y0: usize, x1: usize, y1: usize },
}

/// The console as its rows of characters and its cursor.
pub struct ConsoleView {
    pub rows: Seq<Seq<u8>>,
    pub row: int,
    pub column: int,
}

/// The rows of a row-major buffer of `ROWS * COLUMNS` characters.
pub open spec fn rows_of(buf: Seq<u8>) -> Seq<Seq<u8>> {
    Seq::new(ROWS as nat, |r: int| buf.subrange(COLUMNS * r, COLUMNS * r + COLUMNS))
}

/// The first column at or after `from` where both rows hold 0.
pub open spec fn first_blank(a: Seq<u8>, b: Seq<u8>, from: int) -> int
    decreases COLUMNS - from,
{
    if from >= COLUMNS {
        COLUMNS as int
    } else if a[from] == 0 && b[from] == 0 {
        from
    } else {
        first_blank(a, b, from + 1)
    }
}

/// Row `a` after the row below it, `b`, moved up into it: the characters up
/// to the first column where both are blank.
pub open spec fn scrolled_row(a: Seq<u8>, b: Seq<u8>) -> Seq<u8> {
    Seq::new(COLUMNS as nat, |c: int| if c < first_blank(a, b, 0) { b[c] } else { a[c] })
}

/// The glyphs redrawn on line `r` when `b` moves up into `a`.
pub open spec fn row_draws(r: int, a: Seq<u8>, b: Seq<u8>) -> Seq<ConsoleDraw> {
    Seq::new(first_blank(a, b, 0) as nat, |c: int| ConsoleDraw::Glyph { x: (8 * c) as u64, y: (16 * r) as u64, c: b[c] })
}

/// The glyphs redrawn on the first `n` lines while the screen scrolls.
pub open spec fn scroll_draws(rows: Seq<Seq<u8>>, n: int) -> Seq<ConsoleDraw>
    decreases n,
{
    if n <= 0 {
        Seq::empty()
    } else {
        scroll_draws(rows, n - 1) + row_draws(n - 1, rows[n - 1], rows[n])
    }
}

/// Line `r` blanked with spaces.
pub open spec fn blank_line_draws(r: int) -> Seq<ConsoleDraw> {
    Seq::new(COLUMNS as nat, |c: int| ConsoleDraw::Glyph { x: (8 * c) as u64, y: (16 * r) as u64, c: 0x20 })
}

/// The cursor moves to the start of the next line; on the last line the
/// window scrolls, or without a window the buffer and the screen do.
pub open spec fn newline_spec(v: ConsoleView, has_window: bool) -> (ConsoleView, Seq<ConsoleDraw>) {
    if v.row < ROWS - 1 {
        (ConsoleView { rows: v.rows, row: v.row + 1, column: 0 }, Seq::empty())
    } else if has_window {
        (ConsoleView { rows: v.rows, row: v.row, column: 0 }, seq![ConsoleDraw::ScrollWindow {
            x0: 0,
            y0: (16 * v.row) as usize,
            x1: (8 * COLUMNS) as usize,
            y1: (16 * (v.row + 1)) as usize,
        }])
    } else {
        (ConsoleView {
            rows: Seq::new(ROWS as nat, |r: int| if r < ROWS - 1 {
                scrolled_row(v.rows[r], v.rows[r + 1])
            } else {
                Seq::new(COLUMNS as nat, |c: int| 0u8)
            }),
            row: v.row,
            column: 0,
        }, scroll_draws(v.rows, ROWS - 1) + blank_line_draws(v.row))
    }
}

/// A character at the cursor, after a line break when the line is full; a
/// newline character only breaks the line.
pub open spec fn put_char_spec(v: ConsoleView, c: u8, has_window: bool) -> (ConsoleView, Seq<ConsoleDraw>) {
    if c == 0x0a {
        newline_spec(v, has_window)
    } else {
        let (v1, d1) = if v.column > COLUMNS - 1 { newline_spec(v, has_window) } else { (v, Seq::empty()) };
        (ConsoleView {
            rows: v1.rows.update(v1.row, v1.rows[v1.row].update(v1.column, c)),
            row: v1.row,
            column: v1.column + 1,
        }, d1.push(ConsoleDraw::Glyph { x: (8 * v1.column) as u64, y: (16 * v1.row) as u64, c }))
    }
}

/// What the console shows for a byte: printable ASCII and newline as they
/// are, anything else as a filled square (0xfe).
pub open spec fn shown(c: u8) -> u8 {
    if (0x20 <= c && c <= 0x7e) || c == 0x0a { c } else { 0xfe }
}

pub open spec fn put_string_spec(v: ConsoleView, s: Seq<u8>, has_window: bool) -> (ConsoleView, Seq<ConsoleDraw>)
    decreases s.len(),
{
    if s.len() == 0 {
        (v, Seq::empty())
    } else {
        let (v1, d1) = put_string_spec(v, s.drop_last(), has_window);
        let (v2, d2) = put_char_spec(v1, shown(s.last()), has_window);
        (v2, d1 + d2)
    }
}

/// Law: a printable ASCII byte, 20h (the space) to 7Eh, is put on the
/// console as itself. With the cursor inside a row, writing it stores it
/// under the cursor, moves the cursor one column on, and draws its glyph
/// there, at 8 pixels per column and 16 per row.
pub proof fn law_printable_byte_put_as_itself(v: ConsoleView, c: u8, has_window: bool)
    requires
        0x20 <= c <= 0x7e,
        0 <= v.row < ROWS,
        0 <= v.column < COLUMNS,
    ensures
        put_string_spec(v, seq![c], has_window) == (ConsoleView {
            rows: v.rows.update(v.row, v.rows[v.row].update(v.column, c)),
            row: v.row,
            column: v.column + 1,
        }, seq![ConsoleDraw::Glyph { x: (8 * v.column) as u64, y: (16 * v.row) as u64, c }]),
{
    let s = seq![c];
    assert(s.drop_last() =~= Seq::<u8>::empty());
    assert(put_string_spec(v, s.drop_last(), has_window) == (v, Seq::<ConsoleDraw>::empty()));
    let g = ConsoleDraw::Glyph { x: (8 * v.column) as u64, y: (16 * v.row) as u64, c };
    assert(Seq::<ConsoleDraw>::empty() + Seq::<ConsoleDraw>::empty().push(g) =~= seq![g]);
}

/// Law: a byte that is neither printable ASCII nor a newline is put on the
/// console as a filled square, FEh: stored under the cursor and drawn there.
pub proof fn law_other_byte_put_as_square(v: ConsoleView, c: u8, has_window: bool)
    requires
        !(0x20 <= c <= 0x7e),
        c != 0x0a,
        0 <= v.row < ROWS,
        0 <= v.column < COLUMNS,
    ensures
        put_string_spec(v, seq![c], has_window) == (ConsoleView {
            rows: v.rows.update(v.row, v.rows[v.row].update(v.column, 0xfeu8)),
            row: v.row,
            column: v.column + 1,
        }, seq![ConsoleDraw::Glyph { x: (8 * v.column) as u64, y: (16 * v.row) as u64, c: 0xfeu8 }]),
{
    let s = seq![c];
    assert(s.drop_last() =~= Seq::<u8>::empty());
    assert(put_string_spec(v, s.drop_last(), has_window) == (v, Seq::<ConsoleDraw>::empty()));
    let g = ConsoleDraw::Glyph { x: (8 * v.column) as u64, y: (16 * v.row) as u64, c: 0xfeu8 };
    assert(Seq::<ConsoleDraw>::empty() + Seq::<ConsoleDraw>::empty().push(g) =~= seq![g]);
}

/// Writing to a buffer cell changes one character of one row.
proof fn lemma_set_cell(buf: Seq<u8>, r: int, c: int, v: u8)
    requires
        buf.len() == ROWS * COLUMNS,
        0 <= r < ROWS,
        0 <= c < COLUMNS,
    ensures
        rows_of(buf.update(COLUMNS * r + c, v)) == rows_of(buf).update(r, rows_of(buf)[r].update(c, v)),
{
    let lhs = rows_of(buf.update(COLUMNS * r + c, v));
    let rhs = rows_of(buf).update(r, rows_of(buf)[r].update(c, v));
    assert forall|rr: int| 0 <= rr < ROWS implies #[trigger] lhs[rr] =~= rhs[rr] by {}
    assert(lhs =~= rhs);
}

/// `first_blank` finds the column where the scan stopped.
proof fn lemma_first_blank(a: Seq<u8>, b: Seq<u8>, from: int, k: int)
    requires
        0 <= from <= k <= COLUMNS,
        forall|c: int| from <= c < k ==> !(a[c] == 0 && b[c] == 0),
        k < COLUMNS ==> a[k] == 0 && b[k] == 0,
    ensures
        first_blank(a, b, from) == k,
    decreases k - from,
{
    if from < k {
        lemma_first_blank(a, b, from + 1, k);
    }
}

/// A 25x80 text console.
pub struct Console {
    pub bg_color: PixelColor,
    pub fg_color: PixelColor,
    pub buffer: Vec<u8>,
    pub cursor_column: u64,
    pub cursor_row: u64,
}

impl Console {
    pub open spec fn wf(&self) -> bool {
        &&& self.buffer@.len() == ROWS * COLUMNS
        &&& self.cursor_row < ROWS
        &&& self.cursor_column <= COLUMNS
    }

    pub open spec fn view(&self) -> ConsoleView {
        ConsoleView { rows: rows_of(self.buffer@), row: self.cursor_row as int, column: self.cursor_column as int }
    }

    /// A blank console with the cursor at the top left.
    pub fn new(bg_color: PixelColor, fg_color: PixelColor) -> (r: Self)
        ensures
            r.wf(),
            r.bg_color == bg_color,
            r.fg_color == fg_color,
            r.view().rows == Seq::new(ROWS as nat, |i: int| Seq::new(COLUMNS as nat, |j: int| 0u8)),
            r.view().row == 0,
            r.view().column == 0,
    {
        let r = Self { bg_color, fg_color, buffer: filled_vec(0u8, ROWS * COLUMNS), cursor_column: 0, cursor_row: 0 };
        proof {
            let z = Seq::new(ROWS as nat, |i: int| Seq::new(COLUMNS as nat, |j: int| 0u8));
            assert forall|i: int| 0 <= i < ROWS implies #[trigger] r.view().rows[i] =~= z[i] by {}
            assert(r.view().rows =~= z);
        }
        r
    }

    /// Writes the bytes of `s` one by one: printable ASCII and newline as
    /// they are, anything else as 0xfe.
    pub fn put_string(&mut self, s: &[u8], has_window: bool) -> (draws: Vec<ConsoleDraw>)
        requires
            old(self).wf(),
        ensures
            final(self).wf(),
            final(self).bg_color == old(self).bg_color,
            final(self).fg_color == old(self).fg_color,
            (final(self).view(), draws@) == put_string_spec(old(self).view(), s@, has_window),
    {
        let mut draws: Vec<ConsoleDraw> = Vec::new();
        let mut i: usize = 0;
        while i < s.len()
            invariant
                self.wf(),
                self.bg_color == old(self).bg_color,
                self.fg_color == old(self).fg_color,
                i <= s@.len(),
                (self.view(), draws@) == put_string_spec(old(self).view(), s@.subrange(0, i as int), has_window),
            decreases s@.len() - i,
        {
            let c = s[i];
            let shown_c = if (0x20 <= c && c <= 0x7e) || c == 0x0a { c } else { 0xfe };
            let mut more = self.put_char(shown_c, has_window);
            draws.append(&mut more);
            proof {
                let t = s@.subrange(0, i + 1);
                assert(t.drop_last() =~= s@.subrange(0, i as int));
                assert(t.last() == c);
            }
            i = i + 1;
        }
        proof {
            assert(s@.subrange(0, i as int) =~= s@);
        }
        draws
    }

    /// Writes one character at the cursor and moves the cursor right,
    /// breaking the line first when it is full; `\n` only breaks the line.
    pub fn put_char(&mut self, c: u8, has_window: bool) -> (draws: Vec<ConsoleDraw>)
        requires
            old(self).wf(),
        ensures
            final(self).wf(),
            final(self).bg_color == old(self).bg_color,
            final(self).fg_color == old(self).fg_color,
            (final(self).view(), draws@) == put_char_spec(old(self).view(), c, has_window),
    {
        if c == 0x0a {
            return self.newline(has_window);
        }
        let mut draws = if self.cursor_column > COLUMNS as u64 - 1 {
            self.newline(has_window)
        } else {
            Vec::new()
        };
        let ghost mid = self.view();
        draws.push(ConsoleDraw::Glyph { x: 8 * self.cursor_column, y: 16 * self.cursor_row, c });
        let idx = self.cursor_row as usize * COLUMNS + self.cursor_column as usize;
        proof {
            lemma_set_cell(self.buffer@, self.cursor_row as int, self.cursor_column as int, c);
        }
        self.buffer.set(idx, c);
        self.cursor_column = self.cursor_column + 1;
        proof {
            assert(self.view().rows == mid.rows.update(mid.row, mid.rows[mid.row].update(mid.column, c)));
        }
        draws
    }

    /// Clears the characters written so far and moves the cursor to the top
    /// left.
    pub fn cls(&mut self)
        requires
            old(self).wf(),
        ensures
            final(self).wf(),
            final(self).bg_color == old(self).bg_color,
            final(self).fg_color == old(self).fg_color,
            final(self).view().row == 0,
            final(self).view().column == 0,
            final(self).view().rows == Seq::new(ROWS as nat, |r: int| Seq::new(COLUMNS as nat, |c: int|
                if r < old(self).cursor_row || (r == old(self).cursor_row && c < old(self).cursor_column) {
                    0u8
                } else {
                    old(self).view().rows[r][c]
                })),
    {
        let ghost old_rows = self.view().rows;
        let ghost target = Seq::new(ROWS as nat, |r: int| Seq::new(COLUMNS as nat, |c: int|
            if r < old(self).cursor_row || (r == old(self).cursor_row && c < old(self).cursor_column) {
                0u8
            } else {
                old_rows[r][c]
            }));
        let mut y: u64 = 0;
        while y < self.cursor_row
            invariant
                self.wf(),
                self.bg_color == old(self).bg_color,
                self.fg_color == old(self).fg_color,
                self.cursor_row == old(self).cursor_row,
                self.cursor_column == old(self).cursor_column,
                old_rows == rows_of(old(self).buffer@),
                y <= self.cursor_row,
                forall|r: int| 0 <= r < y ==> #[trigger] self.view().rows[r] == Seq::new(COLUMNS as nat, |c: int| 0u8),
                forall|r: int| y <= r < ROWS ==> #[trigger] self.view().rows[r] == old_rows[r],
            decreases self.cursor_row - y,
        {
            let mut x: usize = 0;
            while x < COLUMNS
                invariant
                    self.wf(),
                    self.bg_color == old(self).bg_color,
                    self.fg_color == old(self).fg_color,
                    self.cursor_row == old(self).cursor_row,
                    self.cursor_column == old(self).cursor_column,
                    old_rows == rows_of(old(self).buffer@),
                    y < self.cursor_row,
                    x <= COLUMNS,
                    forall|r: int| 0 <= r < y ==> #[trigger] self.view().rows[r] == Seq::new(COLUMNS as nat, |c: int| 0u8),
                    forall|r: int| y < r < ROWS ==> #[trigger] self.view().rows[r] == old_rows[r],
                    self.view().rows[y as int] == Seq::new(COLUMNS as nat, |c: int| if c < x { 0u8 } else { old_rows[y as int][c] }),
                decreases COLUMNS - x,
            {
                proof {
                    lemma_set_cell(self.buffer@, y as int, x as int, 0);
                }
                self.buffer.set(y as usize * COLUMNS + x, 0);
                x = x + 1;
                proof {
                    assert(self.view().rows[y as int] =~= Seq::new(COLUMNS as nat, |c: int| if c < x { 0u8 } else { old_rows[y as int][c] }));
                }
            }
            proof {
                assert(self.view().rows[y as int] =~= Seq::new(COLUMNS as nat, |c: int| 0u8));
            }
            y = y + 1;
        }
        let mut x: u64 = 0;
        while x < self.cursor_column
            invariant
                self.wf(),
                self.bg_color == old(self).bg_color,
                self.fg_color == old(self).fg_color,
                self.cursor_row == old(self).cursor_row,
                self.cursor_column == old(self).cursor_column,
                old_rows == rows_of(old(self).buffer@),
                x <= self.cursor_column,
                forall|r: int| 0 <= r < self.cursor_row ==> #[trigger] self.view().rows[r] == Seq::new(COLUMNS as nat, |c: int| 0u8),
                forall|r: int| self.cursor_row < r < ROWS ==> #[trigger] self.view().rows[r] == old_rows[r],
                self.view().rows[self.cursor_row as int] == Seq::new(COLUMNS as nat, |c: int| if c < x { 0u8 } else { old_rows[self.cursor_row as int][c] }),
            decreases self.cursor_column - x,
        {
            proof {
                lemma_set_cell(self.buffer@, self.cursor_row as int, x as int, 0);
            }
            self.buffer.set(self.cursor_row as usize * COLUMNS + x as usize, 0);
            x = x + 1;
            proof {
                assert(self.view().rows[self.cursor_row as int] =~= Seq::new(COLUMNS as nat, |c: int| if c < x { 0u8 } else { old_rows[self.cursor_row as int][c] }));
            }
        }
        proof {
            assert forall|r: int| 0 <= r < ROWS implies #[trigger] self.view().rows[r] =~= target[r] by {}
            assert(self.view().rows =~= target);
        }
        self.cursor_column = 0;
        self.cursor_row = 0;
    }

    /// Moves the cursor to the start of the next line. On the last line the
    /// window scrolls when there is one; otherwise every line takes the one
    /// below it, up to the first column where both are blank, and the last
    /// line is cleared.
    fn newline(&mut self, has_window: bool) -> (draws: Vec<ConsoleDraw>)
        requires
            old(self).wf(),
        ensures
            final(self).wf(),
            final(self).bg_color == old(self).bg_color,
            final(self).fg_color == old(self).fg_color,
            (final(self).view(), draws@) == newline_spec(old(self).view(), has_window),
    {
        self.cursor_column = 0;
        if (self.cursor_row as usize) < ROWS - 1 {
            self.cursor_row = self.cursor_row + 1;
            Vec::new()
        } else if has_window {
            let row = self.cursor_row as usize;
            vec![ConsoleDraw::ScrollWindow { x0: 0, y0: 16 * row, x1: 8 * COLUMNS, y1: 16 * (row + 1) }]
        } else {
            self.scroll_buffer()
        }
    }

    /// Scrolls the buffer and the screen by one line.
    fn scroll_buffer(&mut self) -> (draws: Vec<ConsoleDraw>)
        requires
            old(self).wf(),
            old(self).cursor_row == ROWS - 1,
        ensures
            final(self).wf(),
            final(self).bg_color == old(self).bg_color,
            final(self).fg_color == old(self).fg_color,
            final(self).cursor_row == old(self).cursor_row,
            final(self).cursor_column == old(self).cursor_column,
            final(self).view().rows == Seq::new(ROWS as nat, |r: int| if r < ROWS - 1 {
                scrolled_row(old(self).view().rows[r], old(self).view().rows[r + 1])
            } else {
                Seq::new(COLUMNS as nat, |c: int| 0u8)
            }),
            draws@ == scroll_draws(old(self).view().rows, ROWS - 1) + blank_line_draws(old(self).cursor_row as int),
    {
        let ghost old_rows = self.view().rows;
        let mut draws: Vec<ConsoleDraw> = Vec::new();
        let mut row: usize = 0;
        while row < self.cursor_row as usize
            invariant
                self.wf(),
                self.bg_color == old(self).bg_color,
                self.fg_color == old(self).fg_color,
                self.cursor_row == old(self).cursor_row,
                self.cursor_column == old(self).cursor_column,
                self.cursor_row == ROWS - 1,
                old_rows == rows_of(old(self).buffer@),
                row <= ROWS - 1,
                forall|r: int| 0 <= r < row ==> #[trigger] self.view().rows[r] == scrolled_row(old_rows[r], old_rows[r + 1]),
                forall|r: int| row <= r < ROWS ==> #[trigger] self.view().rows[r] == old_rows[r],
                draws@ == scroll_draws(old_rows, row as int),
            decreases ROWS - row,
        {
            let ghost a = old_rows[row as int];
            let ghost b = old_rows[row as int + 1];
            let ghost before = draws@;
            let mut column: usize = 0;
            while column < COLUMNS && !(self.buffer[row * COLUMNS + column] == 0 && self.buffer[(row + 1) * COLUMNS + column] == 0)
                invariant
                    self.wf(),
                    self.bg_color == old(self).bg_color,
                    self.fg_color == old(self).fg_color,
                    self.cursor_row == old(self).cursor_row,
                    self.cursor_column == old(self).cursor_column,
                    self.cursor_row == ROWS - 1,
                    old_rows == rows_of(old(self).buffer@),
                    row < ROWS - 1,
                    a == old_rows[row as int],
                    b == old_rows[row as int + 1],
                    column <= COLUMNS,
                    forall|c: int| 0 <= c < column ==> !(a[c] == 0 && b[c] == 0),
                    forall|r: int| 0 <= r < row ==> #[trigger] self.view().rows[r] == scrolled_row(old_rows[r], old_rows[r + 1]),
                    forall|r: int| row < r < ROWS ==> #[trigger] self.view().rows[r] == old_rows[r],
                    self.view().rows[row as int] == Seq::new(COLUMNS as nat, |c: int| if c < column { b[c] } else { a[c] }),
                    before == scroll_draws(old_rows, row as int),
                    draws@ == before + Seq::new(column as nat, |c: int| ConsoleDraw::Glyph { x: (8 * c) as u64, y: (16 * row) as u64, c: b[c] }),
                decreases COLUMNS - column,
            {
                proof {
                    assert(self.buffer@[row * COLUMNS + column] == self.view().rows[row as int][column as int]);
                    assert(self.buffer@[(row + 1) * COLUMNS + column] == self.view().rows[row + 1][column as int]);
                }
                let c = self.buffer[(row + 1) * COLUMNS + column];
                proof {
                    lemma_set_cell(self.buffer@, row as int, column as int, c);
                }
                self.buffer.set(row * COLUMNS + column, c);
                draws.push(ConsoleDraw::Glyph { x: 8 * column as u64, y: 16 * row as u64, c });
                column = column + 1;
                proof {
                    assert(self.view().rows[row as int] =~= Seq::new(COLUMNS as nat, |cc: int| if cc < column { b[cc] } else { a[cc] }));
                    assert(draws@ =~= before + Seq::new(column as nat, |cc: int| ConsoleDraw::Glyph { x: (8 * cc) as u64, y: (16 * row) as u64, c: b[cc] }));
                }
            }
            proof {
                if column < COLUMNS {
                    assert(self.buffer@[row * COLUMNS + column] == self.view().rows[row as int][column as int]);
                    assert(self.buffer@[(row + 1) * COLUMNS + column] == self.view().rows[row + 1][column as int]);
                }
                lemma_first_blank(a, b, 0, column as int);
                assert(self.view().rows[row as int] =~= scrolled_row(a, b));
                assert(draws@ =~= scroll_draws(old_rows, row + 1));
            }
            row = row + 1;
        }
        let mut column: usize = 0;
        let ghost before = draws@;
        while column < COLUMNS
            invariant
                self.wf(),
                self.bg_color == old(self).bg_color,
                self.fg_color == old(self).fg_color,
                self.cursor_row == old(self).cursor_row,
                self.cursor_column == old(self).cursor_column,
                self.cursor_row == ROWS - 1,
                old_rows == rows_of(old(self).buffer@),
                column <= COLUMNS,
                forall|r: int| 0 <= r < ROWS - 1 ==> #[trigger] self.view().rows[r] == scrolled_row(old_rows[r], old_rows[r + 1]),
                self.view().rows[ROWS - 1] == Seq::new(COLUMNS as nat, |c: int| if c < column { 0u8 } else { old_rows[ROWS - 1][c] }),
                before == scroll_draws(old_rows, ROWS - 1),
                draws@ == before + blank_line_draws(self.cursor_row as int).subrange(0, column as int),
            decreases COLUMNS - column,
        {
            proof {
                lemma_set_cell(self.buffer@, ROWS - 1, column as int, 0);
            }
            self.buffer.set((ROWS - 1) * COLUMNS + column, 0);
            draws.push(ConsoleDraw::Glyph { x: 8 * column as u64, y: 16 * self.cursor_row, c: 0x20 });
            column = column + 1;
            proof {
                assert(self.view().rows[ROWS - 1] =~= Seq::new(COLUMNS as nat, |c: int| if c < column { 0u8 } else { old_rows[ROWS - 1][c] }));
                assert(draws@ =~= before + blank_line_draws(self.cursor_row as int).subrange(0, column as int));
            }
        }
        proof {
            let target = Seq::new(ROWS as nat, |r: int| if r < ROWS - 1 {
                scrolled_row(old_rows[r], old_rows[r + 1])
            } else {
                Seq::new(COLUMNS as nat, |c: int| 0u8)
            });
            assert(self.view().rows[ROWS - 1] =~= target[ROWS - 1]);
            assert forall|r: int| 0 <= r < ROWS implies #[trigger] self.view().rows[r] == target[r] by {}
            assert(self.view().rows =~= target);
            assert(blank_line_draws(self.cursor_row as int).subrange(0, COLUMNS as int) =~= blank_line_draws(self.cursor_row as int));
        }
        draws
    }
}


/// Writing two strings one after the other is writing their concatenation:
/// the console ends in the same state and draws the same glyphs in order.
pub proof fn law_put_string_concat(v: ConsoleView, s1: Seq<u8>, s2: Seq<u8>, has_window: bool)
    ensures
        ({
            let (v1, d1) = put_string_spec(v, s1, has_window);
            let (v2, d2) = put_string_spec(v1, s2, has_window);
            put_string_spec(v, s1 + s2, has_window) == (v2, d1 + d2)
        }),
    decreases s2.len(),
{
    let (v1, d1) = put_string_spec(v, s1, has_window);
    if s2.len() == 0 {
        assert(s1 + s2 =~= s1);
        assert(d1 + Seq::<ConsoleDraw>::empty() =~= d1);
    } else {
        law_put_string_concat(v, s1, s2.drop_last(), has_window);
        assert((s1 + s2).drop_last() =~= s1 + s2.drop_last());
        assert((s1 + s2).last() == s2.last());
        let (va, da) = put_string_spec(v1, s2.drop_last(), has_window);
        let (vb, db) = put_char_spec(va, shown(s2.last()), has_window);
        assert(d1 + da + db =~= d1 + (da + db));
    }
}

} // verus!
