//! Text-mode screen writer.
//!
//! The screen is a fixed grid of letters, each a byte with a color
//! attribute.  A cursor advances as letters are written; a newline or a
//! full row moves it to the next row, and writing past the bottom scrolls
//! every row up by one.  In the kernel the grid is the memory-mapped
//! hardware buffer; here it is an owned grid, so the writer's behaviour
//! can be checked cell by cell.

use vstd::prelude::*;

verus! {

/// Rows of the screen.
pub const BUFFER_HEIGHT: usize = 25;

/// Columns of the screen.
pub const BUFFER_WIDTH: usize = 80;

/// Foreground and background colors of the text mode.
#[derive(Debug, Clone, Copy, PartialEq, Eq, Structural)]
pub enum Color {
    Black,
    Blue,
    Green,
    Cyan,
    Red,
    Magenta,
    Brown,
    LightGray,
    DarkGray,
    LightBlue,
    LightGreen,
    LightCyan,
    LightRed,
    Pink,
    Yellow,
    White,
}

/// The hardware color number of a color.
pub open spec fn spec_color_code(c: Color) -> u8 {
    match c {
        Color::Black => 0x0,
        Color::Blue => 0x1,
        Color::Green => 0x2,
        Color::Cyan => 0x3,
        Color::Red => 0x4,
        Color::Magenta => 0x5,
        Color::Brown => 0x6,
        Color::LightGray => 0x7,
        Color::DarkGray => 0x8,
        Color::LightBlue => 0x9,
        Color::LightGreen => 0xa,
        Color::LightCyan => 0xb,
        Color::LightRed => 0xc,
        Color::Pink => 0xd,
        Color::Yellow => 0xe,
        Color::White => 0xf,
    }
}

impl Color {
    /// The hardware color number of this color.
    pub fn code(&self) -> (r: u8)
        ensures
            r == spec_color_code(*self),
            r < 16,
    {
        match self {
            Color::Black => 0x0,
            Color::Blue => 0x1,
            Color::Green => 0x2,
            Color::Cyan => 0x3,
            Color::Red => 0x4,
            Color::Magenta => 0x5,
            Color::Brown => 0x6,
            Color::LightGray => 0x7,
            Color::DarkGray => 0x8,
            Color::LightBlue => 0x9,
            Color::LightGreen => 0xa,
            Color::LightCyan => 0xb,
            Color::LightRed => 0xc,
            Color::Pink => 0xd,
            Color::Yellow => 0xe,
            Color::White => 0xf,
        }
    }
}

/// A cursor position on the screen.
#[derive(Debug, Clone, Copy, PartialEq, Eq, Structural)]
pub struct Position {
    /// Row, counted from the top.
    pub row: usize,
    /// Column, counted from the left.
    pub col: usize,
}

impl Position {
    /// The position at the given row and column.
    pub fn new(row: usize, col: usize) -> (r: Position)
        ensures
            r.row == row,
            r.col == col,
    {
        Position { row: row, col: col }
    }

    /// Steps the position one cell back: to the previous column, or to the
    /// last column of the previous row, or nowhere at the top-left corner.
    pub fn back(&mut self)
        ensures
            old(self).row == 0 && old(self).col == 0 ==> *final(self) == *old(self),
            old(self).col == 0 && old(self).row != 0 ==> final(self).row == old(self).row - 1
                && final(self).col == BUFFER_WIDTH - 1,
            old(self).col != 0 ==> final(self).row == old(self).row && final(self).col == old(
                self,
            ).col - 1,
    {
        if self.row == 0 && self.col == 0 {
            return ;
        }
        if self.col == 0 && self.row != 0 {
            self.row = self.row - 1;
            self.col = BUFFER_WIDTH - 1;
        } else {
            self.col = self.col - 1;
        }
    }
}

/// A letter cell: a byte and its color attribute.
#[derive(Debug, Clone, Copy, PartialEq, Eq, Structural)]
pub struct Letter {
    /// The character byte.
    pub byte: u8,
    /// The color attribute.
    pub color: u8,
}

impl Letter {
    /// A letter cell with the given byte and color.
    pub fn new(byte: u8, color: u8) -> (r: Letter)
        ensures
            r.byte == byte,
            r.color == color,
    {
        Letter { byte: byte, color: color }
    }
}

/// The screen grid: `BUFFER_HEIGHT` rows of `BUFFER_WIDTH` letter cells.
pub struct Buffer {
    /// The rows of the grid, top first.
    pub letters: Vec<Vec<Letter>>,
}

/// The grid has the full complement of rows and columns.
pub open spec fn buffer_wf(b: Buffer) -> bool {
    &&& b.letters.len() == BUFFER_HEIGHT
    &&& forall|i: int| 0 <= i < BUFFER_HEIGHT ==> (#[trigger] b.letters[i]).len() == BUFFER_WIDTH
}

/// A row of blank cells.
fn blank_row() -> (r: Vec<Letter>)
    ensures
        r.len() == BUFFER_WIDTH,
        forall|j: int| 0 <= j < BUFFER_WIDTH ==> r[j] == (Letter { byte: 0, color: 0 }),
{
    let mut row: Vec<Letter> = Vec::new();
    let mut j: usize = 0;
    while j < BUFFER_WIDTH
        invariant
            j <= BUFFER_WIDTH,
            row.len() == j,
            forall|k: int| 0 <= k < j ==> row[k] == (Letter { byte: 0, color: 0 }),
        decreases BUFFER_WIDTH - j,
    {
        row.push(Letter { byte: 0, color: 0 });
        j = j + 1;
    }
    row
}

impl Buffer {
    /// A grid of blank cells.
    pub fn blank() -> (r: Buffer)
        ensures
            buffer_wf(r),
            forall|i: int, j: int|
                0 <= i < BUFFER_HEIGHT && 0 <= j < BUFFER_WIDTH ==> #[trigger] r.letters[i][j]
                    == (Letter { byte: 0, color: 0 }),
    {
        let mut letters: Vec<Vec<Letter>> = Vec::new();
        let mut i: usize = 0;
        while i < BUFFER_HEIGHT
            invariant
                i <= BUFFER_HEIGHT,
                letters.len() == i,
                forall|k: int| 0 <= k < i ==> (#[trigger] letters[k]).len() == BUFFER_WIDTH,
                forall|k: int, j: int|
                    0 <= k < i && 0 <= j < BUFFER_WIDTH ==> #[trigger] letters[k][j] == (Letter {
                        byte: 0,
                        color: 0,
                    }),
            decreases BUFFER_HEIGHT - i,
        {
            letters.push(blank_row());
            i = i + 1;
        }
        Buffer { letters: letters }
    }

    /// Clears every cell of the grid.
    pub fn clear(&mut self)
        ensures
            buffer_wf(*final(self)),
            forall|i: int, j: int|
                0 <= i < BUFFER_HEIGHT && 0 <= j < BUFFER_WIDTH ==> #[trigger] final(self).letters[i][j]
                    == (Letter { byte: 0, color: 0 }),
    {
        let fresh = Buffer::blank();
        self.letters = fresh.letters;
    }
}

/// Mathematical view of the writer: the grid as a sequence of rows of
/// letter cells, and the cursor.
#[verifier::ext_equal]
pub struct ScreenView {
    pub rows: Seq<Seq<Letter>>,
    pub row: int,
    pub col: int,
}

/// A row of blank cells, as the view sees it.
pub open spec fn spec_blank_row() -> Seq<Letter> {
    Seq::new(BUFFER_WIDTH as nat, |j: int| Letter { byte: 0, color: 0 })
}

/// The view of a blank screen: all cells blank, the cursor at the
/// top-left corner.
pub open spec fn spec_blank_screen() -> ScreenView {
    ScreenView { rows: Seq::new(BUFFER_HEIGHT as nat, |i: int| spec_blank_row()), row: 0, col: 0 }
}

/// One write, as a function of the view.
///
/// A newline byte, or a cursor resting past the last column, moves the
/// cursor to the start of the next row and writes nothing.  A cursor
/// resting past the bottom row first scrolls the rows up by one, blanking
/// the last.  Otherwise the letter lands at the cursor and the cursor
/// steps right.
pub open spec fn spec_write(v: ScreenView, byte: u8, color: u8) -> ScreenView {
    if byte == 10 || v.col >= BUFFER_WIDTH {
        ScreenView {
            rows: v.rows,
            row: if v.row < BUFFER_HEIGHT {
                v.row + 1
            } else {
                BUFFER_HEIGHT as int
            },
            col: 0,
        }
    } else {
        let scrolled = if v.row >= BUFFER_HEIGHT {
            ScreenView {
                rows: v.rows.subrange(1, BUFFER_HEIGHT as int).push(spec_blank_row()),
                row: BUFFER_HEIGHT - 1,
                col: v.col,
            }
        } else {
            v
        };
        ScreenView {
            rows: scrolled.rows.update(
                scrolled.row,
                scrolled.rows[scrolled.row].update(v.col, Letter { byte: byte, color: color }),
            ),
            row: scrolled.row,
            col: v.col + 1,
        }
    }
}

/// A whole sequence of writes, byte by byte, as a function of the view.
pub open spec fn spec_write_all(v: ScreenView, bytes: Seq<u8>, color: u8) -> ScreenView
    decreases bytes.len(),
{
    if bytes.len() == 0 {
        v
    } else {
        spec_write_all(spec_write(v, bytes[0], color), bytes.drop_first(), color)
    }
}

/// Writing a sequence and then one more byte is writing the longer
/// sequence.
proof fn lemma_write_all_push(v: ScreenView, bytes: Seq<u8>, b: u8, color: u8)
    ensures
        spec_write_all(v, bytes.push(b), color) == spec_write(
            spec_write_all(v, bytes, color),
            b,
            color,
        ),
    decreases bytes.len(),
{
    if bytes.len() == 0 {
        assert(bytes.push(b)[0] == b);
        assert(bytes.push(b).drop_first() =~= Seq::<u8>::empty());
        assert(spec_write_all(spec_write(v, b, color), Seq::<u8>::empty(), color) == spec_write(
            v,
            b,
            color,
        ));
        assert(spec_write_all(v, Seq::<u8>::empty(), color) == v);
    } else {
        assert(bytes.push(b)[0] == bytes[0]);
        assert(bytes.push(b).drop_first() =~= bytes.drop_first().push(b));
        lemma_write_all_push(spec_write(v, bytes[0], color), bytes.drop_first(), b, color);
    }
}

/// The screen writer: a cursor over the grid.
pub struct Writer {
    /// The cursor: where the next letter lands.
    pub cur_pos: Position,
    /// The grid of letter cells.
    pub buffer: Buffer,
}

impl View for Writer {
    type V = ScreenView;

    open spec fn view(&self) -> ScreenView {
        ScreenView {
            rows: Seq::new(self.buffer.letters@.len(), |i: int| self.buffer.letters@[i]@),
            row: self.cur_pos.row as int,
            col: self.cur_pos.col as int,
        }
    }
}

impl Writer {
    /// The grid is well formed and the cursor is within its bounds: the
    /// column may rest one past the last (the next write wraps), and the
    /// row one past the bottom (the next write scrolls).
    pub open spec fn wf(&self) -> bool {
        &&& buffer_wf(self.buffer)
        &&& self.cur_pos.row <= BUFFER_HEIGHT
        &&& self.cur_pos.col <= BUFFER_WIDTH
    }

    /// A writer over a blank grid, with the cursor at the top-left corner.
    pub fn new() -> (r: Writer)
        ensures
            r.wf(),
            r@ == spec_blank_screen(),
            r.cur_pos == (Position { row: 0, col: 0 }),
            forall|i: int, j: int|
                0 <= i < BUFFER_HEIGHT && 0 <= j < BUFFER_WIDTH ==> #[trigger] r.buffer.letters[i][j]
                    == (Letter { byte: 0, color: 0 }),
    {
        let r = Writer { cur_pos: Position { row: 0, col: 0 }, buffer: Buffer::blank() };
        proof {
            assert(r@ =~~= spec_blank_screen());
        }
        r
    }

    /// Clears the grid and puts the cursor back at the top-left corner.
    pub fn clear(&mut self)
        ensures
            final(self).wf(),
            final(self)@ == spec_blank_screen(),
            final(self).cur_pos == (Position { row: 0, col: 0 }),
            forall|i: int, j: int|
                0 <= i < BUFFER_HEIGHT && 0 <= j < BUFFER_WIDTH ==> #[trigger] final(self).buffer.letters[i][j]
                    == (Letter { byte: 0, color: 0 }),
    {
        self.buffer.clear();
        self.cur_pos = Position { row: 0, col: 0 };
        proof {
            assert(self@ =~~= spec_blank_screen());
        }
    }

    /// Number of rows of the grid.
    pub fn height(&self) -> (r: usize)
        requires
            self.wf(),
        ensures
            r == BUFFER_HEIGHT,
    {
        self.buffer.letters.len()
    }

    /// Number of columns of the grid.
    pub fn width(&self) -> (r: usize)
        requires
            self.wf(),
        ensures
            r == BUFFER_WIDTH,
    {
        self.buffer.letters[0].len()
    }

    /// Writes one letter at the cursor and advances it.
    ///
    /// A newline byte, or a cursor resting past the last column, moves the
    /// cursor to the start of the next row and writes nothing.  A cursor
    /// resting past the bottom row first scrolls the grid up by one row,
    /// blanking the last row.  Otherwise the letter lands at the cursor
    /// and the cursor steps right.
    pub fn write(&mut self, byte: u8, color: u8)
        requires
            old(self).wf(),
        ensures
            final(self).wf(),
            final(self)@ == spec_write(old(self)@, byte, color),
            byte == 10 || old(self).cur_pos.col >= BUFFER_WIDTH ==> {
                &&& final(self).buffer == old(self).buffer
                &&& final(self).cur_pos.col == 0
                &&& final(self).cur_pos.row == if old(self).cur_pos.row < BUFFER_HEIGHT {
                    (old(self).cur_pos.row + 1) as int
                } else {
                    BUFFER_HEIGHT as int
                }
            },
            byte != 10 && old(self).cur_pos.col < BUFFER_WIDTH && old(self).cur_pos.row
                < BUFFER_HEIGHT ==> {
                &&& final(self).cur_pos.row == old(self).cur_pos.row
                &&& final(self).cur_pos.col == old(self).cur_pos.col + 1
                &&& forall|i: int, j: int|
                    0 <= i < BUFFER_HEIGHT && 0 <= j < BUFFER_WIDTH && !(i == old(self).cur_pos.row
                        && j == old(self).cur_pos.col) ==> #[trigger] final(self).buffer.letters[i][j]
                        == old(self).buffer.letters[i][j]
                &&& final(self).buffer.letters[old(self).cur_pos.row as int][old(
                    self,
                ).cur_pos.col as int] == (Letter { byte: byte, color: color })
            },
            byte != 10 && old(self).cur_pos.col < BUFFER_WIDTH && old(self).cur_pos.row
                >= BUFFER_HEIGHT ==> {
                &&& final(self).cur_pos.row == BUFFER_HEIGHT - 1
                &&& final(self).cur_pos.col == old(self).cur_pos.col + 1
                &&& forall|i: int, j: int|
                    0 <= i < BUFFER_HEIGHT - 1 && 0 <= j < BUFFER_WIDTH ==> #[trigger] final(self).buffer.letters[i][j]
                        == old(self).buffer.letters[i + 1][j]
                &&& forall|j: int|
                    0 <= j < BUFFER_WIDTH && j != old(self).cur_pos.col ==> #[trigger] final(self).buffer.letters[BUFFER_HEIGHT - 1][j]
                        == (Letter { byte: 0, color: 0 })
                &&& final(self).buffer.letters[BUFFER_HEIGHT - 1][old(self).cur_pos.col as int]
                    == (Letter { byte: byte, color: color })
            },
    {
        let ghost v0 = self@;
        if byte == 10 || self.cur_pos.col >= BUFFER_WIDTH {
            if self.cur_pos.row < BUFFER_HEIGHT {
                self.cur_pos.row = self.cur_pos.row + 1;
            }
            self.cur_pos.col = 0;
            proof {
                assert(self@ =~~= spec_write(v0, byte, color));
            }
            return ;
        }
        if self.cur_pos.row >= BUFFER_HEIGHT {
            // push every row up by one and blank the bottom row
            let _top_row = self.buffer.letters.remove(0);
            self.buffer.letters.push(blank_row());
            self.cur_pos.row = BUFFER_HEIGHT - 1;
            proof {
                assert(self@.rows =~~= v0.rows.subrange(1, BUFFER_HEIGHT as int).push(
                    spec_blank_row(),
                ));
            }
        }
        let ghost vmid = self@;
        let row = self.cur_pos.row;
        let col = self.cur_pos.col;
        let mut rowvec = self.buffer.letters.remove(row);
        let ghost rowvec0 = rowvec@;
        let _replaced = rowvec.remove(col);
        rowvec.insert(col, Letter { byte: byte, color: color });
        proof {
            assert(rowvec@ =~= rowvec0.update(col as int, (Letter { byte: byte, color: color })));
        }
        self.buffer.letters.insert(row, rowvec);
        self.cur_pos.col = col + 1;
        proof {
            assert(self@.rows =~~= vmid.rows.update(
                row as int,
                vmid.rows[row as int].update(col as int, (Letter { byte: byte, color: color })),
            ));
            assert(self@ =~~= spec_write(v0, byte, color));
        }
    }

    /// Erases the letter before the cursor: steps back, overwrites the
    /// cell with a blank of the same color attribute, and steps back onto
    /// it.
    pub fn backspace(&mut self)
        requires
            old(self).wf(),
            old(self).cur_pos.row < BUFFER_HEIGHT || old(self).cur_pos.col == 0,
        ensures
            final(self).wf(),
            forall|i: int, j: int|
                0 <= i < BUFFER_HEIGHT && 0 <= j < BUFFER_WIDTH && !(i == final(self).cur_pos.row
                    && j == final(self).cur_pos.col) ==> #[trigger] final(self).buffer.letters[i][j]
                    == old(self).buffer.letters[i][j],
            final(self).cur_pos.row < BUFFER_HEIGHT && final(self).cur_pos.col < BUFFER_WIDTH,
            final(self).buffer.letters[final(self).cur_pos.row as int][final(self).cur_pos.col as int].byte
                == 32,
    {
        self.cur_pos.back();
        let color = self.buffer.letters[self.cur_pos.row][self.cur_pos.col].color;
        self.write(32, color);
        self.cur_pos.back();
    }
}

/// The screen: a writer with the current foreground and background
/// colors.
pub struct Vga {
    /// Color of the text written next.
    pub fg_color: Color,
    /// Background color of the text written next.
    pub bg_color: Color,
    /// The writer behind the screen.
    pub writer: Writer,
}

/// The color attribute of a foreground and a background color:
/// background in the high half, foreground in the low half.
pub open spec fn spec_color(fg: Color, bg: Color) -> u8 {
    (spec_color_code(bg) * 16 + spec_color_code(fg)) as u8
}

impl Vga {
    /// The screen's writer is well formed.
    pub open spec fn wf(&self) -> bool {
        self.writer.wf()
    }

    /// A screen with a blank grid and the given colors.
    pub fn new(fg_color: Color, bg_color: Color) -> (r: Vga)
        ensures
            r.wf(),
            r.fg_color == fg_color,
            r.bg_color == bg_color,
            r.writer@ == spec_blank_screen(),
            r.writer.cur_pos == (Position { row: 0, col: 0 }),
    {
        Vga { fg_color: fg_color, bg_color: bg_color, writer: Writer::new() }
    }

    /// The color attribute of the current colors: background in the high
    /// half, foreground in the low half.
    pub fn color(&self) -> (r: u8)
        ensures
            r == spec_color(self.fg_color, self.bg_color),
            r == spec_color_code(self.bg_color) * 16 + spec_color_code(self.fg_color),
    {
        let bg = self.bg_color.code();
        let fg = self.fg_color.code();
        bg * 16 + fg
    }

    /// Erases the letter before the cursor: the cursor steps back onto
    /// the erased cell, which is blanked with its color attribute kept;
    /// every other cell is untouched.
    pub fn backspace(&mut self)
        requires
            old(self).wf(),
            old(self).writer.cur_pos.row < BUFFER_HEIGHT || old(self).writer.cur_pos.col
                == 0,
        ensures
            final(self).wf(),
            final(self).fg_color == old(self).fg_color,
            final(self).bg_color == old(self).bg_color,
            forall|i: int, j: int|
                0 <= i < BUFFER_HEIGHT && 0 <= j < BUFFER_WIDTH && !(i
                    == final(self).writer.cur_pos.row && j == final(self).writer.cur_pos.col)
                    ==> #[trigger] final(self).writer.buffer.letters[i][j]
                    == old(self).writer.buffer.letters[i][j],
            final(self).writer.cur_pos.row < BUFFER_HEIGHT && final(self).writer.cur_pos.col
                < BUFFER_WIDTH,
            final(self).writer.buffer.letters[final(self).writer.cur_pos.row as int][final(self).writer.cur_pos.col as int].byte
                == 32,
    {
        self.writer.backspace();
    }

    /// Writes one byte at the cursor in the current colors.
    pub fn write_byte(&mut self, byte: u8)
        requires
            old(self).wf(),
        ensures
            final(self).wf(),
            final(self).fg_color == old(self).fg_color,
            final(self).bg_color == old(self).bg_color,
            final(self).writer@ == spec_write(
                old(self).writer@,
                byte,
                spec_color(old(self).fg_color, old(self).bg_color),
            ),
    {
        let color = self.color();
        self.writer.write(byte, color);
    }

    /// Writes a sequence of bytes at the cursor in the current colors,
    /// byte by byte in order.
    pub fn write_bytes(&mut self, bytes: &Vec<u8>)
        requires
            old(self).wf(),
        ensures
            final(self).wf(),
            final(self).fg_color == old(self).fg_color,
            final(self).bg_color == old(self).bg_color,
            final(self).writer@ == spec_write_all(
                old(self).writer@,
                bytes@,
                spec_color(old(self).fg_color, old(self).bg_color),
            ),
    {
        let ghost v0 = self.writer@;
        let ghost c = spec_color(self.fg_color, self.bg_color);
        let mut i: usize = 0;
        #[verifier::loop_isolation(false)]
        while i < bytes.len()
            invariant
                self.wf(),
                self.fg_color == old(self).fg_color,
                self.bg_color == old(self).bg_color,
                i <= bytes@.len(),
                self.writer@ == spec_write_all(v0, bytes@.take(i as int), c),
            decreases bytes.len() - i,
        {
            self.write_byte(bytes[i]);
            proof {
                assert(bytes@.take(i + 1) =~= bytes@.take(i as int).push(bytes@[i as int]));
                lemma_write_all_push(v0, bytes@.take(i as int), bytes@[i as int], c);
            }
            i = i + 1;
        }
        proof {
            assert(bytes@.take(bytes@.len() as int) =~= bytes@);
        }
    }

    /// Clears the grid and puts the cursor back at the top-left corner.
    pub fn clear(&mut self)
        ensures
            final(self).wf(),
            final(self).fg_color == old(self).fg_color,
            final(self).bg_color == old(self).bg_color,
            final(self).writer@ == spec_blank_screen(),
            final(self).writer.cur_pos == (Position { row: 0, col: 0 }),
    {
        self.writer.clear();
    }

    /// The letter cell at the given position, for checking what the
    /// screen shows.
    pub fn letter_at(&self, row: usize, col: usize) -> (r: Letter)
        requires
            self.wf(),
            row < BUFFER_HEIGHT,
            col < BUFFER_WIDTH,
        ensures
            r == self.writer.buffer.letters[row as int][col as int],
    {
        self.writer.buffer.letters[row][col]
    }

    /// The cursor position.
    pub fn cursor(&self) -> (r: Position)
        ensures
            r == self.writer.cur_pos,
    {
        self.writer.cur_pos
    }
}

} // verus!
