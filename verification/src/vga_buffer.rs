//! The text console: a cursor over a fixed grid of character cells.

use vstd::prelude::*;
use vstd::string::StringSliceAdditionalSpecFns;
use spin::mutex::Mutex;
use spin::relax::Spin;
use crate::lock::{held_writer, lock_writer};
use crate::vga_proofs::{lemma_blank_lines_clear_the_grid, lemma_write_joined};

verus! {

/// The sixteen colors of the text-mode palette.
#[derive(Clone, Copy, Debug, PartialEq, Eq, Structural)]
pub enum Color {
    Black,
    Blue,
    Green,
    Cyan,
    Red,
    Magenta,
    Brown,
    LightGray,
    DarkGray,
    LightBlue,
    LightGreen,
    LightCyan,
    LightRed,
    Pink,
    Yellow,
    White,
}

impl Color {
    /// The palette index of the color, 0 to 15.
    pub open spec fn index(self) -> nat {
        match self {
            Color::Black => 0,
            Color::Blue => 1,
            Color::Green => 2,
            Color::Cyan => 3,
            Color::Red => 4,
            Color::Magenta => 5,
            Color::Brown => 6,
            Color::LightGray => 7,
            Color::DarkGray => 8,
            Color::LightBlue => 9,
            Color::LightGreen => 10,
            Color::LightCyan => 11,
            Color::LightRed => 12,
            Color::Pink => 13,
            Color::Yellow => 14,
            Color::White => 15,
        }
    }

    /// The palette index as the hardware stores it.
    pub fn code(self) -> (r: u8)
        ensures
            r == self.index(),
            r < 16,
    {
        match self {
            Color::Black => 0,
            Color::Blue => 1,
            Color::Green => 2,
            Color::Cyan => 3,
            Color::Red => 4,
            Color::Magenta => 5,
            Color::Brown => 6,
            Color::LightGray => 7,
            Color::DarkGray => 8,
            Color::LightBlue => 9,
            Color::LightGreen => 10,
            Color::LightCyan => 11,
            Color::LightRed => 12,
            Color::Pink => 13,
            Color::Yellow => 14,
            Color::White => 15,
        }
    }
}

/// An attribute byte: background in the high four bits, foreground in the
/// low four.
#[derive(Clone, Copy, Debug, PartialEq, Eq, Structural)]
pub struct ColorCode(pub u8);

impl ColorCode {
    /// The attribute byte that pairs `foreground` with `background`.
    pub open spec fn pack(foreground: Color, background: Color) -> u8 {
        (background.index() * 16 + foreground.index()) as u8
    }

    pub fn new(foreground: Color, background: Color) -> (r: ColorCode)
        ensures
            r.0 == Self::pack(foreground, background),
    {
        let bg: u8 = background.code();
        let fg: u8 = foreground.code();
        assert((bg << 4 | fg) == bg * 16 + fg) by (bit_vector)
            requires
                bg < 16,
                fg < 16,
        ;
        ColorCode(bg << 4 | fg)
    }
}

/// One cell of the grid: a character byte and its attribute.
#[derive(Clone, Copy, Debug, PartialEq, Eq, Structural)]
pub struct ScreenChar {
    pub ascii_character: u8,
    pub color_code: ColorCode,
}

/// Rows of the grid.
pub const BUFFER_HEIGHT: usize = 25;

/// Columns of the grid.
pub const BUFFER_WIDTH: usize = 80;

/// The byte that moves the cursor to the next row.
pub const NEWLINE: u8 = 0x0a;

/// The byte of an empty cell.
pub const SPACE: u8 = 0x20;

/// The console as a mathematical value: the cursor, the attribute that the
/// next byte is written with, and the cells row by row.
pub struct Screen {
    pub row: int,
    pub column: int,
    pub color: ColorCode,
    pub cells: Seq<Seq<ScreenChar>>,
}

impl Screen {
    /// The cursor is on the grid (the column may stand one past the last
    /// cell, where the next byte wraps) and the grid has its full size.
    pub open spec fn wf(self) -> bool {
        &&& 0 <= self.row < BUFFER_HEIGHT
        &&& 0 <= self.column <= BUFFER_WIDTH
        &&& self.cells.len() == BUFFER_HEIGHT
        &&& forall|r: int| 0 <= r < BUFFER_HEIGHT ==> (#[trigger] self.cells[r]).len() == BUFFER_WIDTH
    }

    /// An empty cell in the current attribute.
    pub open spec fn blank(self) -> ScreenChar {
        ScreenChar { ascii_character: SPACE, color_code: self.color }
    }

    /// A row of empty cells in the current attribute.
    pub open spec fn blank_row(self) -> Seq<ScreenChar> {
        Seq::new(BUFFER_WIDTH as nat, |c: int| self.blank())
    }

    /// The cursor back at the top left corner; the cells stay.
    pub open spec fn reset_positions(self) -> Screen {
        Screen { row: 0, column: 0, ..self }
    }

    /// Row `r` emptied.
    pub open spec fn clear_row(self, r: int) -> Screen {
        Screen { cells: self.cells.update(r, self.blank_row()), ..self }
    }

    /// Every row moved up by one, the top row lost and the bottom row
    /// emptied.
    pub open spec fn scrolled(self) -> Seq<Seq<ScreenChar>> {
        Seq::new(
            BUFFER_HEIGHT as nat,
            |r: int|
                if r < BUFFER_HEIGHT - 1 {
                    self.cells[r + 1]
                } else {
                    self.blank_row()
                },
        )
    }

    /// The cursor at the start of the next row; on the bottom row the
    /// grid scrolls instead and the cursor stays there.
    pub open spec fn new_line(self) -> Screen {
        if self.row > BUFFER_HEIGHT - 2 {
            Screen { row: BUFFER_HEIGHT - 1, column: 0, cells: self.scrolled(), ..self }
        } else {
            Screen { row: self.row + 1, column: 0, ..self }
        }
    }

    /// `byte` stored at the cursor in the current attribute, and the cursor
    /// one column on.
    pub open spec fn place(self, byte: u8) -> Screen {
        let cell = ScreenChar { ascii_character: byte, color_code: self.color };
        Screen {
            column: self.column + 1,
            cells: self.cells.update(self.row, self.cells[self.row].update(self.column, cell)),
            ..self
        }
    }

    /// The console after one byte: a newline byte moves to the next row;
    /// any other byte is placed at the cursor, after a line break if the
    /// cursor stands past the last column.
    pub open spec fn write_byte(self, byte: u8) -> Screen {
        if byte == NEWLINE {
            self.new_line()
        } else if self.column >= BUFFER_WIDTH {
            self.new_line().place(byte)
        } else {
            self.place(byte)
        }
    }

    /// The console after the bytes of `bytes`, first to last.
    pub open spec fn write(self, bytes: Seq<u8>) -> Screen
        decreases bytes.len(),
    {
        if bytes.len() == 0 {
            self
        } else {
            self.write(bytes.drop_last()).write_byte(bytes.last())
        }
    }
}

/// `count` space bytes.
pub open spec fn spaces(count: nat) -> Seq<u8> {
    Seq::new(count, |i: int| SPACE)
}

/// One full row of spaces and a newline, `count` times over.
pub open spec fn blank_lines(count: nat) -> Seq<u8>
    decreases count,
{
    if count == 0 {
        Seq::empty()
    } else {
        blank_lines((count - 1) as nat) + spaces(BUFFER_WIDTH as nat).push(NEWLINE)
    }
}

/// The cells of the grid, row by row.
pub struct Buffer {
    chars: [[ScreenChar; BUFFER_WIDTH]; BUFFER_HEIGHT],
}

impl View for Buffer {
    type V = Seq<Seq<ScreenChar>>;

    closed spec fn view(&self) -> Seq<Seq<ScreenChar>> {
        Seq::new(BUFFER_HEIGHT as nat, |r: int| self.chars@[r]@)
    }
}

/// The console writer: it owns the grid and keeps the cursor and the
/// attribute that it writes with.
pub struct Writer {
    row_position: usize,
    column_position: usize,
    color_code: ColorCode,
    buffer: Buffer,
}

impl View for Writer {
    type V = Screen;

    closed spec fn view(&self) -> Screen {
        Screen {
            row: self.row_position as int,
            column: self.column_position as int,
            color: self.color_code,
            cells: self.buffer@,
        }
    }
}

impl Writer {
    #[verifier::type_invariant]
    closed spec fn cursor_on_grid(self) -> bool {
        self.row_position < BUFFER_HEIGHT && self.column_position <= BUFFER_WIDTH
    }

    /// A writer with the cursor at the top left corner of an empty grid.
    pub fn new(color_code: ColorCode) -> (w: Writer)
        ensures
            w@.wf(),
            w@.row == 0,
            w@.column == 0,
            w@.color == color_code,
            forall|r: int| 0 <= r < BUFFER_HEIGHT ==> #[trigger] w@.cells[r] == w@.blank_row(),
    {
        let blank = ScreenChar { ascii_character: SPACE, color_code };
        let w = Writer {
            row_position: 0,
            column_position: 0,
            color_code,
            buffer: Buffer { chars: [[blank; BUFFER_WIDTH]; BUFFER_HEIGHT] },
        };
        proof {
            assert forall|r: int| 0 <= r < BUFFER_HEIGHT implies #[trigger] w@.cells[r]
                == w@.blank_row() by {
                assert(w@.cells[r] =~= w@.blank_row());
            }
        }
        w
    }

    /// Fills row `row` with empty cells in the current attribute.
    pub fn clear_row(&mut self, row: usize)
        requires
            row < BUFFER_HEIGHT,
        ensures
            final(self)@ == old(self)@.clear_row(row as int),
            final(self)@.cells[row as int] == old(self)@.blank_row(),
            final(self)@.wf(),
    {
        proof {
            use_type_invariant(&*self);
        }
        let blank = ScreenChar { ascii_character: SPACE, color_code: self.color_code };
        self.buffer.chars[row] = [blank; BUFFER_WIDTH];
        proof {
            assert(self.buffer.chars@[row as int]@ =~= old(self)@.blank_row());
            assert(self@.cells =~= old(self)@.clear_row(row as int).cells);
        }
    }

    /// Moves the cursor to the start of the next row. On the bottom row
    /// the grid scrolls by one row instead.
    pub fn new_line(&mut self)
        ensures
            final(self)@ == old(self)@.new_line(),
            final(self)@.wf(),
    {
        proof {
            use_type_invariant(&*self);
        }
        if self.row_position > BUFFER_HEIGHT - 2 {
            self.row_position = BUFFER_HEIGHT - 1;
            let mut row: usize = 0;
            while row < BUFFER_HEIGHT - 1
                invariant
                    0 <= row <= BUFFER_HEIGHT - 1,
                    self.row_position == BUFFER_HEIGHT - 1,
                    self.column_position == old(self).column_position,
                    self.column_position <= BUFFER_WIDTH,
                    self.color_code == old(self).color_code,
                    forall|r: int| 0 <= r < row ==> #[trigger] self@.cells[r] == old(self)@.cells[r + 1],
                    forall|r: int|
                        row <= r < BUFFER_HEIGHT ==> #[trigger] self@.cells[r] == old(self)@.cells[r],
                decreases BUFFER_HEIGHT - 1 - row,
            {
                let ghost before = self@.cells;
                let next = self.buffer.chars[row + 1];
                self.buffer.chars[row] = next;
                proof {
                    assert(self@.cells =~= before.update(row as int, before[row + 1]));
                }
                row += 1;
            }
            self.clear_row(BUFFER_HEIGHT - 1);
            self.column_position = 0;
            proof {
                assert(self@.cells =~= old(self)@.scrolled());
            }
        } else {
            self.row_position += 1;
            self.column_position = 0;
        }
    }

    /// Writes one byte at the cursor. A newline byte moves to the next
    /// row; any other byte lands in the cell under the cursor, after a line
    /// break when the row is full.
    pub fn write_byte(&mut self, byte: u8)
        ensures
            final(self)@ == old(self)@.write_byte(byte),
            final(self)@.wf(),
    {
        proof {
            use_type_invariant(&*self);
        }
        if byte == NEWLINE {
            self.new_line();
        } else {
            if self.column_position >= BUFFER_WIDTH {
                self.new_line();
            }
            proof {
                use_type_invariant(&*self);
            }
            let row = self.row_position;
            let col = self.column_position;
            let ghost before = self@;
            self.buffer.chars[row][col] = ScreenChar {
                ascii_character: byte,
                color_code: self.color_code,
            };
            self.column_position += 1;
            proof {
                assert(self@.cells =~= before.place(byte).cells);
            }
        }
    }

    /// Writes the bytes of `s`, first to last.
    pub fn write_str(&mut self, s: &str)
        ensures
            final(self)@ == old(self)@.write(s.spec_bytes()),
            final(self)@.wf(),
    {
        let bytes = s.as_bytes();
        let mut i: usize = 0;
        proof {
            use_type_invariant(&*self);
        }
        while i < bytes.len()
            invariant
                0 <= i <= bytes@.len(),
                bytes@ == s.spec_bytes(),
                self@ == old(self)@.write(bytes@.take(i as int)),
                self@.wf(),
            decreases bytes@.len() - i,
        {
            proof {
                assert(bytes@.take(i + 1).drop_last() =~= bytes@.take(i as int));
            }
            self.write_byte(bytes[i]);
            i += 1;
        }
        proof {
            assert(bytes@.take(i as int) =~= bytes@);
        }
    }

    /// Puts the cursor back at the top left corner. The cells stay.
    pub fn reset_positions(&mut self)
        ensures
            final(self)@ == old(self)@.reset_positions(),
            final(self)@.wf(),
    {
        proof {
            use_type_invariant(&*self);
        }
        self.column_position = 0;
        self.row_position = 0;
    }

    /// The row of the cursor.
    pub fn row_position(&self) -> (r: usize)
        ensures
            r == self@.row,
            r < BUFFER_HEIGHT,
    {
        proof {
            use_type_invariant(self);
        }
        self.row_position
    }

    /// The column of the cursor.
    pub fn column_position(&self) -> (c: usize)
        ensures
            c == self@.column,
            c <= BUFFER_WIDTH,
    {
        proof {
            use_type_invariant(self);
        }
        self.column_position
    }

    /// The attribute that bytes are written with.
    pub fn color_code(&self) -> (c: ColorCode)
        ensures
            c == self@.color,
    {
        self.color_code
    }

    /// Sets the attribute for the bytes written from now on.
    pub fn set_color_code(&mut self, color_code: ColorCode)
        ensures
            final(self)@ == (Screen { color: color_code, ..old(self)@ }),
    {
        proof {
            use_type_invariant(&*self);
        }
        self.color_code = color_code;
    }

    /// The cell at `row` and `col`.
    pub fn char_at(&self, row: usize, col: usize) -> (cell: ScreenChar)
        requires
            row < BUFFER_HEIGHT,
            col < BUFFER_WIDTH,
        ensures
            cell == self@.cells[row as int][col as int],
    {
        self.buffer.chars[row][col]
    }

    /// Clears the grid by writing one blank line for each of its rows,
    /// which scrolls everything out, and puts the cursor back at the top
    /// left corner. Every cell ends up empty in the current attribute.
    pub fn clear(&mut self)
        ensures
            final(self)@ == old(self)@.write(blank_lines(BUFFER_HEIGHT as nat)).reset_positions(),
            final(self)@.wf(),
            final(self)@.row == 0,
            final(self)@.column == 0,
            final(self)@.color == old(self)@.color,
            forall|r: int| 0 <= r < BUFFER_HEIGHT ==> #[trigger] final(self)@.cells[r] == old(self)@.blank_row(),
    {
        let mut row: usize = 0;
        proof {
            use_type_invariant(&*self);
        }
        while row < BUFFER_HEIGHT
            invariant
                0 <= row <= BUFFER_HEIGHT,
                old(self)@.wf(),
                self@ == old(self)@.write(blank_lines(row as nat)),
            decreases BUFFER_HEIGHT - row,
        {
            let ghost start = self@;
            let mut col: usize = 0;
            while col < BUFFER_WIDTH
                invariant
                    0 <= col <= BUFFER_WIDTH,
                    self@ == start.write(spaces(col as nat)),
                decreases BUFFER_WIDTH - col,
            {
                proof {
                    assert(spaces((col + 1) as nat).drop_last() =~= spaces(col as nat));
                }
                self.write_byte(SPACE);
                col += 1;
            }
            self.write_byte(NEWLINE);
            proof {
                let line = spaces(BUFFER_WIDTH as nat).push(NEWLINE);
                assert(line.drop_last() =~= spaces(BUFFER_WIDTH as nat));
                assert(self@ == start.write(line));
                lemma_write_joined(old(self)@, blank_lines(row as nat), line);
            }
            row += 1;
        }
        self.reset_positions();
        proof {
            lemma_blank_lines_clear_the_grid(old(self)@);
        }
    }
}

/// Writes the bytes of `s` to the console behind `console`. The lock is
/// held from the first byte to the last.
pub fn print(console: &Mutex<Writer, Spin>, s: &str) {
    let mut guard = lock_writer(console);
    let writer = held_writer(&mut guard);
    writer.write_str(s);
}

/// Clears the console behind `console` and puts its cursor back at the top
/// left corner. The lock is held throughout.
pub fn clear_screen(console: &Mutex<Writer, Spin>) {
    let mut guard = lock_writer(console);
    let writer = held_writer(&mut guard);
    writer.clear();
}

} // verus!
