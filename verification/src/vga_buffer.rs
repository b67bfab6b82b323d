//! The text screen, modelled as owned rows of coloured characters.
//!
//! Writing happens on the bottom row; a newline, or running past the row's
//! end, scrolls every row up by one and clears the bottom.  The device page
//! that the real screen lives in is outside this crate; the surrounding
//! program copies these rows into it.

use vstd::prelude::*;

verus! {

/// Screen height in rows.
pub const BUFFER_HEIGHT: usize = 25;

/// Screen width in columns.
pub const BUFFER_WIDTH: usize = 80;

/// The sixteen standard text-mode colours.
#[derive(Debug, Clone, Copy, PartialEq, Eq, Structural)]
#[allow(missing_docs)]
pub enum Color {
    Black,
    Blue,
    Green,
    Cyan,
    Red,
    Magenta,
    Brown,
    LightGray,
    DarkGray,
    LightBlue,
    LightGreen,
    LightCyan,
    LightRed,
    Pink,
    Yellow,
    White,
}

/// Numeric value of a colour.
pub open spec fn color_value(c: Color) -> u8 {
    match c {
        Color::Black => 0,
        Color::Blue => 1,
        Color::Green => 2,
        Color::Cyan => 3,
        Color::Red => 4,
        Color::Magenta => 5,
        Color::Brown => 6,
        Color::LightGray => 7,
        Color::DarkGray => 8,
        Color::LightBlue => 9,
        Color::LightGreen => 10,
        Color::LightCyan => 11,
        Color::LightRed => 12,
        Color::Pink => 13,
        Color::Yellow => 14,
        Color::White => 15,
    }
}

impl Color {
    /// The colour's numeric value.
    pub fn code(self) -> (r: u8)
        ensures
            r == color_value(self),
            r < 16,
    {
        match self {
            Color::Black => 0,
            Color::Blue => 1,
            Color::Green => 2,
            Color::Cyan => 3,
            Color::Red => 4,
            Color::Magenta => 5,
            Color::Brown => 6,
            Color::LightGray => 7,
            Color::DarkGray => 8,
            Color::LightBlue => 9,
            Color::LightGreen => 10,
            Color::LightCyan => 11,
            Color::LightRed => 12,
            Color::Pink => 13,
            Color::Yellow => 14,
            Color::White => 15,
        }
    }
}

/// Foreground and background colour packed into one byte.
#[derive(Debug, Clone, Copy, PartialEq, Eq, Structural)]
pub struct ColorCode {
    code: u8,
}

impl ColorCode {
    /// The packed byte.
    pub closed spec fn value(self) -> u8 {
        self.code
    }

    /// The packed byte, for handing the cell to the device.
    pub fn raw(&self) -> (r: u8)
        ensures
            r == self.value(),
    {
        self.code
    }

    /// Pack a foreground and a background colour: background in the high
    /// half, foreground in the low half.
    pub fn new(foreground: Color, background: Color) -> (r: ColorCode)
        ensures
            r.value() == (color_value(background) << 4) | color_value(foreground),
    {
        ColorCode { code: (background.code() << 4) | foreground.code() }
    }
}

/// One screen cell: a character and its colours.
#[derive(Debug, Clone, Copy, PartialEq, Eq, Structural)]
pub struct ScreenChar {
    /// The character byte.
    pub ascii_character: u8,
    /// The cell's colours.
    pub color_code: ColorCode,
}

/// The blank cell a cleared row is filled with.
pub open spec fn blank_cell(color: ColorCode) -> ScreenChar {
    ScreenChar { ascii_character: 32u8, color_code: color }
}

/// A screen state as contracts see it: the cursor column and the rows.
pub struct Writer {
    column_position: usize,
    color_code: ColorCode,
    rows: Vec<Vec<ScreenChar>>,
}

/// Every row scrolled up by one, the bottom row blank.
pub open spec fn scrolled(rows: Seq<Seq<ScreenChar>>, color: ColorCode) -> Seq<Seq<ScreenChar>> {
    rows.subrange(1, 25).push(Seq::new(80, |i: int| blank_cell(color)))
}

/// What one written byte does to a screen state: a newline scrolls, any
/// other byte lands at the cursor on the bottom row (after a scroll when
/// the row is full) and advances the cursor.
pub open spec fn put_byte(
    col: int,
    rows: Seq<Seq<ScreenChar>>,
    color: ColorCode,
    byte: u8,
) -> (int, Seq<Seq<ScreenChar>>) {
    if byte == 10 {
        (0, scrolled(rows, color))
    } else {
        let (c, rs) = if col >= 80 {
            (0int, scrolled(rows, color))
        } else {
            (col, rows)
        };
        (
            c + 1,
            rs.update(24, rs[24].update(c, ScreenChar { ascii_character: byte, color_code: color })),
        )
    }
}

/// A byte sequence written left to right, starting from the given state.
pub open spec fn put_bytes(
    col: int,
    rows: Seq<Seq<ScreenChar>>,
    color: ColorCode,
    bytes: Seq<u8>,
) -> (int, Seq<Seq<ScreenChar>>)
    decreases bytes.len(),
{
    if bytes.len() == 0 {
        (col, rows)
    } else {
        let (c1, r1) = put_byte(col, rows, color, bytes[0]);
        put_bytes(c1, r1, color, bytes.drop_first())
    }
}

impl Writer {
    /// The cursor column.
    pub closed spec fn col_spec(self) -> int {
        self.column_position as int
    }

    /// The rows, top to bottom.
    pub closed spec fn rows_spec(self) -> Seq<Seq<ScreenChar>> {
        self.rows@.map_values(|r: Vec<ScreenChar>| r@)
    }

    /// The colours used for new cells.
    pub closed spec fn color_spec(self) -> ColorCode {
        self.color_code
    }

    /// Exactly the screen's height and width, cursor at most one past the
    /// row end.
    pub closed spec fn wf(self) -> bool {
        &&& self.rows.len() == 25
        &&& forall|i: int| 0 <= i < 25 ==> (#[trigger] self.rows@[i]).len() == 80
        &&& self.column_position <= 80
    }

    /// A blank screen with the given colours, cursor at the left edge.
    pub fn new(color: ColorCode) -> (r: Writer)
        ensures
            r.wf(),
            r.col_spec() == 0,
            r.color_spec() == color,
            forall|i: int, j: int|
                0 <= i < 25 && 0 <= j < 80 ==> r.rows_spec()[i][j] == blank_cell(color),
    {
        let mut rows: Vec<Vec<ScreenChar>> = Vec::new();
        let mut i: usize = 0;
        while i < BUFFER_HEIGHT
            invariant
                i <= 25,
                rows.len() == i,
                forall|k: int| 0 <= k < i ==> (#[trigger] rows@[k]).len() == 80,
                forall|k: int, j: int|
                    0 <= k < i && 0 <= j < 80 ==> rows@[k]@[j] == blank_cell(color),
            decreases 25 - i,
        {
            let mut row: Vec<ScreenChar> = Vec::new();
            let mut j: usize = 0;
            while j < BUFFER_WIDTH
                invariant
                    j <= 80,
                    row.len() == j,
                    forall|k: int| 0 <= k < j ==> row@[k] == blank_cell(color),
                decreases 80 - j,
            {
                row.push(ScreenChar { ascii_character: 32, color_code: color });
                j = j + 1;
            }
            rows.push(row);
            i = i + 1;
        }
        Writer { column_position: 0, color_code: color, rows }
    }

    /// Fill row `row` with blank cells.
    fn clear_row(&mut self, row: usize)
        requires
            old(self).wf(),
            row < 25,
        ensures
            final(self).wf(),
            final(self).col_spec() == old(self).col_spec(),
            final(self).color_spec() == old(self).color_spec(),
            final(self).rows_spec() == old(self).rows_spec().update(
                row as int,
                Seq::new(80, |i: int| blank_cell(old(self).color_spec())),
            ),
    {
        let color = self.color_code;
        let mut fresh: Vec<ScreenChar> = Vec::new();
        let mut j: usize = 0;
        while j < BUFFER_WIDTH
            invariant
                j <= 80,
                fresh.len() == j,
                forall|k: int| 0 <= k < j ==> fresh@[k] == blank_cell(color),
            decreases 80 - j,
        {
            fresh.push(ScreenChar { ascii_character: 32, color_code: color });
            j = j + 1;
        }
        self.rows[row] = fresh;
        proof {
            assert(self.rows@[row as int]@ =~= Seq::new(80, |i: int| blank_cell(color)));
            assert(self.rows_spec() =~= old(self).rows_spec().update(
                row as int,
                Seq::new(80, |i: int| blank_cell(color)),
            ));
        }
    }

    /// Scroll every row up by one and clear the bottom row.
    fn new_line(&mut self)
        requires
            old(self).wf(),
        ensures
            final(self).wf(),
            final(self).color_spec() == old(self).color_spec(),
            final(self).col_spec() == 0,
            final(self).rows_spec() == scrolled(old(self).rows_spec(), old(self).color_spec()),
    {
        let mut row: usize = 0;
        while row < BUFFER_HEIGHT - 1
            invariant
                self.wf(),
                row <= 24,
                self.color_spec() == old(self).color_spec(),
                self.col_spec() == old(self).col_spec(),
                forall|k: int|
                    0 <= k < row ==> #[trigger] self.rows_spec()[k] == old(self).rows_spec()[k + 1],
                forall|k: int|
                    row <= k < 25 ==> #[trigger] self.rows_spec()[k] == old(self).rows_spec()[k],
            decreases 24 - row,
        {
            let ghost pre = *self;
            let source = self.rows[row + 1].clone();
            proof {
                assert(source@ =~= pre.rows_spec()[row as int + 1]);
            }
            self.rows[row] = source;
            proof {
                assert forall|k: int| 0 <= k < row + 1 implies #[trigger] self.rows_spec()[k]
                    == old(self).rows_spec()[k + 1] by {
                    if k < row {
                        assert(self.rows_spec()[k] == pre.rows_spec()[k]);
                    }
                }
                assert forall|k: int| row + 1 <= k < 25 implies #[trigger] self.rows_spec()[k]
                    == old(self).rows_spec()[k] by {
                    assert(self.rows_spec()[k] == pre.rows_spec()[k]);
                }
            }
            row = row + 1;
        }
        self.clear_row(BUFFER_HEIGHT - 1);
        self.column_position = 0;
        proof {
            assert(self.rows_spec() =~= scrolled(old(self).rows_spec(), old(self).color_spec()));
        }
    }

    /// Write one byte to the screen.
    pub fn write_byte(&mut self, byte: u8)
        requires
            old(self).wf(),
        ensures
            final(self).wf(),
            final(self).color_spec() == old(self).color_spec(),
            (final(self).col_spec(), final(self).rows_spec()) == put_byte(
                old(self).col_spec(),
                old(self).rows_spec(),
                old(self).color_spec(),
                byte,
            ),
    {
        if byte == 10 {
            self.new_line();
        } else {
            if self.column_position >= BUFFER_WIDTH {
                self.new_line();
            }
            let ghost mid = *self;
            let row = BUFFER_HEIGHT - 1;
            let col = self.column_position;
            let cell = ScreenChar { ascii_character: byte, color_code: self.color_code };
            let target = &mut self.rows[row];
            target[col] = cell;
            self.column_position = col + 1;
            proof {
                assert(self.rows_spec() =~= mid.rows_spec().update(
                    24,
                    mid.rows_spec()[24].update(col as int, cell),
                ));
            }
        }
    }

    /// The cell at the given position, for copying the screen out.
    pub fn cell(&self, row: usize, col: usize) -> (r: ScreenChar)
        requires
            self.wf(),
            row < 25,
            col < 80,
        ensures
            r == self.rows_spec()[row as int][col as int],
    {
        self.rows[row][col]
    }

    /// Write a whole string, character by character.  The screen model
    /// holds one byte per cell, and this model chooses to take characters
    /// rather than raw bytes, so a string must stay within the single-byte
    /// range; multi-byte text has no meaningful cell rendering here.
    pub fn write_str(&mut self, s: &str) -> (done: bool)
        requires
            old(self).wf(),
            forall|i: int| 0 <= i < s@.len() ==> (#[trigger] s@[i]) < 128,
        ensures
            final(self).wf(),
            final(self).color_spec() == old(self).color_spec(),
            (final(self).col_spec(), final(self).rows_spec()) == put_bytes(
                old(self).col_spec(),
                old(self).rows_spec(),
                old(self).color_spec(),
                s@.map_values(|c: char| c as u8),
            ),
            done,
    {
        let ghost bytes = s@.map_values(|c: char| c as u8);
        let n = s.unicode_len();
        let mut i: usize = 0;
        while i < n
            invariant
                self.wf(),
                i <= n,
                n == s@.len(),
                bytes == s@.map_values(|c: char| c as u8),
                self.color_spec() == old(self).color_spec(),
                (self.col_spec(), self.rows_spec()) == put_bytes(
                    old(self).col_spec(),
                    old(self).rows_spec(),
                    old(self).color_spec(),
                    bytes.take(i as int),
                ),
            decreases n - i,
        {
            let c = s.get_char(i);
            let ghost pre_col = self.col_spec();
            let ghost pre_rows = self.rows_spec();
            self.write_byte(c as u8);
            proof {
                assert(bytes.take(i + 1).drop_last() =~= bytes.take(i as int));
                assert(bytes.take(i + 1).last() == bytes[i as int]);
                lemma_put_bytes_snoc(
                    old(self).col_spec(),
                    old(self).rows_spec(),
                    old(self).color_spec(),
                    bytes.take(i + 1),
                );
            }
            i = i + 1;
        }
        proof {
            assert(bytes.take(n as int) =~= bytes);
        }
        true
    }
}

/// Writing a sequence and then one more byte is writing the extended
/// sequence.
pub proof fn lemma_put_bytes_snoc(col: int, rows: Seq<Seq<ScreenChar>>, color: ColorCode, bytes: Seq<u8>)
    requires
        bytes.len() >= 1,
    ensures
        put_bytes(col, rows, color, bytes) == put_byte(
            put_bytes(col, rows, color, bytes.drop_last()).0,
            put_bytes(col, rows, color, bytes.drop_last()).1,
            color,
            bytes.last(),
        ),
    decreases bytes.len(),
{
    if bytes.len() == 1 {
        assert(bytes.drop_last() =~= Seq::<u8>::empty());
        assert(bytes.drop_first() =~= Seq::<u8>::empty());
        assert(put_bytes(col, rows, color, bytes.drop_last()) == (col, rows));
        let p = put_byte(col, rows, color, bytes[0]);
        assert(put_bytes(col, rows, color, bytes) == put_bytes(p.0, p.1, color, bytes.drop_first()));
    } else {
        let (c1, r1) = put_byte(col, rows, color, bytes[0]);
        let dl = bytes.drop_last();
        let df = bytes.drop_first();
        lemma_put_bytes_snoc(c1, r1, color, df);
        assert(df.drop_last() =~= dl.drop_first());
        assert(df.last() == bytes.last());
        assert(dl[0] == bytes[0]);
        assert(put_bytes(col, rows, color, bytes) == put_bytes(c1, r1, color, df));
        assert(put_bytes(col, rows, color, dl) == put_bytes(c1, r1, color, dl.drop_first()));
        assert(put_bytes(c1, r1, color, df.drop_last()) == put_bytes(
            c1,
            r1,
            color,
            dl.drop_first(),
        ));
        assert(put_bytes(c1, r1, color, df) == put_byte(
            put_bytes(c1, r1, color, df.drop_last()).0,
            put_bytes(c1, r1, color, df.drop_last()).1,
            color,
            df.last(),
        ));
        assert(put_bytes(col, rows, color, bytes) == put_byte(
            put_bytes(col, rows, color, dl).0,
            put_bytes(col, rows, color, dl).1,
            color,
            bytes.last(),
        ));
    }
}

} // verus!
