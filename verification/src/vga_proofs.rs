//! What holds of the console over whole runs of bytes.

use vstd::prelude::*;
use crate::vga_buffer::{blank_lines, spaces, Screen, ScreenChar, BUFFER_HEIGHT, BUFFER_WIDTH, NEWLINE};

verus! {

/// `bytes` holds no newline byte.
pub open spec fn no_newline(bytes: Seq<u8>) -> bool {
    forall|i: int| 0 <= i < bytes.len() ==> bytes[i] != NEWLINE
}

/// `count` newline bytes.
pub open spec fn newlines(count: nat) -> Seq<u8> {
    Seq::new(count, |i: int| NEWLINE)
}

/// Every step keeps the cursor on the grid, the grid at its size and the
/// attribute as it was.
pub proof fn lemma_write_byte_keeps_shape(screen: Screen, byte: u8)
    requires
        screen.wf(),
    ensures
        screen.write_byte(byte).wf(),
        screen.write_byte(byte).color == screen.color,
{
    let line = screen.new_line();
    assert(line.wf());
    assert(line.place(byte).wf()) by {
        if line.column < BUFFER_WIDTH {
            let placed = line.place(byte);
            assert forall|r: int| 0 <= r < BUFFER_HEIGHT implies (#[trigger] placed.cells[r]).len()
                == BUFFER_WIDTH by {
                assert(line.cells[r].len() == BUFFER_WIDTH);
            }
        }
    }
    if screen.column < BUFFER_WIDTH {
        let placed = screen.place(byte);
        assert forall|r: int| 0 <= r < BUFFER_HEIGHT implies (#[trigger] placed.cells[r]).len()
            == BUFFER_WIDTH by {
            assert(screen.cells[r].len() == BUFFER_WIDTH);
        }
    }
}

/// Writing keeps the cursor on the grid, the grid at its size and the
/// attribute as it was.
pub proof fn lemma_write_keeps_shape(screen: Screen, bytes: Seq<u8>)
    requires
        screen.wf(),
    ensures
        screen.write(bytes).wf(),
        screen.write(bytes).color == screen.color,
    decreases bytes.len(),
{
    if bytes.len() > 0 {
        lemma_write_keeps_shape(screen, bytes.drop_last());
        lemma_write_byte_keeps_shape(screen.write(bytes.drop_last()), bytes.last());
    }
}

/// Writing two runs of bytes one after the other is writing them joined.
pub proof fn lemma_write_joined(screen: Screen, head: Seq<u8>, tail: Seq<u8>)
    ensures
        screen.write(head + tail) == screen.write(head).write(tail),
    decreases tail.len(),
{
    if tail.len() == 0 {
        assert(head + tail =~= head);
    } else {
        lemma_write_joined(screen, head, tail.drop_last());
        assert((head + tail).drop_last() =~= head + tail.drop_last());
        assert((head + tail).last() == tail.last());
    }
}

/// Bytes without a newline that fit into what is left of the row stay on
/// that row: they fill the cells from the cursor on, the cursor ends just
/// past them, and every other cell keeps what it held. From the top left
/// corner, a string shorter than a row leaves the cursor in row 0 at the
/// column of its length.
pub proof fn lemma_write_within_row(screen: Screen, bytes: Seq<u8>)
    requires
        screen.wf(),
        no_newline(bytes),
        screen.column + bytes.len() <= BUFFER_WIDTH,
    ensures
        screen.write(bytes).wf(),
        screen.write(bytes).row == screen.row,
        screen.write(bytes).column == screen.column + bytes.len(),
        screen.write(bytes).color == screen.color,
        forall|r: int|
            0 <= r < BUFFER_HEIGHT && r != screen.row ==> #[trigger] screen.write(bytes).cells[r]
                == screen.cells[r],
        forall|c: int|
            0 <= c < BUFFER_WIDTH ==> #[trigger] screen.write(bytes).cells[screen.row][c] == if screen.column
                <= c < screen.column + bytes.len() {
                ScreenChar { ascii_character: bytes[c - screen.column], color_code: screen.color }
            } else {
                screen.cells[screen.row][c]
            },
    decreases bytes.len(),
{
    if bytes.len() > 0 {
        let head = bytes.drop_last();
        lemma_write_within_row(screen, head);
        let before = screen.write(head);
        lemma_write_byte_keeps_shape(before, bytes.last());
        assert(bytes.last() == bytes[bytes.len() - 1]);
        assert(screen.write(bytes) == before.place(bytes.last()));
        assert forall|c: int| 0 <= c < BUFFER_WIDTH implies #[trigger] screen.write(bytes).cells[screen.row][c]
            == if screen.column <= c < screen.column + bytes.len() {
            ScreenChar { ascii_character: bytes[c - screen.column], color_code: screen.color }
        } else {
            screen.cells[screen.row][c]
        } by {
            assert(before.cells[screen.row].len() == BUFFER_WIDTH);
            if screen.column <= c < screen.column + head.len() {
                assert(head[c - screen.column] == bytes[c - screen.column]);
            }
        }
    }
}

/// A full row's worth of bytes without a newline, written from the start
/// of a row above the bottom one, fills that row and leaves the cursor just
/// past its last column. The row wraps only on the byte after: a newline
/// then moves the cursor to the start of the next row, and any other byte
/// lands in the first cell of the next row. Either way the full row keeps
/// its bytes.
pub proof fn lemma_full_row_wraps_on_next_byte(screen: Screen, bytes: Seq<u8>, byte: u8)
    requires
        screen.wf(),
        screen.column == 0,
        screen.row < BUFFER_HEIGHT - 1,
        bytes.len() == BUFFER_WIDTH,
        no_newline(bytes),
    ensures
        screen.write(bytes).row == screen.row,
        screen.write(bytes).column == BUFFER_WIDTH,
        screen.write(bytes.push(byte)).row == screen.row + 1,
        screen.write(bytes.push(byte)).column == if byte == NEWLINE {
            0int
        } else {
            1int
        },
        byte != NEWLINE ==> screen.write(bytes.push(byte)).cells[screen.row + 1][0] == (ScreenChar {
            ascii_character: byte,
            color_code: screen.color,
        }),
        forall|c: int|
            0 <= c < BUFFER_WIDTH ==> #[trigger] screen.write(bytes.push(byte)).cells[screen.row][c]
                == (ScreenChar { ascii_character: bytes[c], color_code: screen.color }),
{
    lemma_write_within_row(screen, bytes);
    let full = screen.write(bytes);
    assert(bytes.push(byte).drop_last() =~= bytes);
    assert(bytes.push(byte).last() == byte);
    assert(screen.write(bytes.push(byte)) == full.write_byte(byte));
    assert(full.cells[screen.row + 1].len() == BUFFER_WIDTH);
    assert forall|c: int| 0 <= c < BUFFER_WIDTH implies #[trigger] full.write_byte(byte).cells[screen.row][c]
        == (ScreenChar { ascii_character: bytes[c], color_code: screen.color }) by {
        assert(full.cells[screen.row][c] == (ScreenChar {
            ascii_character: bytes[c],
            color_code: screen.color,
        }));
    }
}

/// Newlines that do not reach past the bottom row only move the cursor
/// down: the cells stay.
pub proof fn lemma_newlines_move_down(screen: Screen, count: nat)
    requires
        screen.wf(),
        screen.row + count <= BUFFER_HEIGHT - 1,
    ensures
        screen.write(newlines(count)) == if count == 0 {
            screen
        } else {
            Screen { row: screen.row + count, column: 0, ..screen }
        },
    decreases count,
{
    if count > 0 {
        lemma_newlines_move_down(screen, (count - 1) as nat);
        assert(newlines(count).drop_last() =~= newlines((count - 1) as nat));
    }
}

/// As many newlines as the grid has rows, written from the top row,
/// scroll the grid exactly once: the first of them, all but the last, only
/// move the cursor down to the bottom row, and the last one scrolls. The
/// cursor ends at the start of the bottom row, every row holds what the
/// row below it held, and the bottom row is empty.
pub proof fn lemma_newlines_scroll_once(screen: Screen)
    requires
        screen.wf(),
        screen.row == 0,
    ensures
        screen.write(newlines((BUFFER_HEIGHT - 1) as nat)).cells == screen.cells,
        screen.write(newlines((BUFFER_HEIGHT - 1) as nat)).row == BUFFER_HEIGHT - 1,
        screen.write(newlines(BUFFER_HEIGHT as nat)).row == BUFFER_HEIGHT - 1,
        screen.write(newlines(BUFFER_HEIGHT as nat)).column == 0,
        forall|r: int|
            0 <= r < BUFFER_HEIGHT - 1 ==> #[trigger] screen.write(newlines(BUFFER_HEIGHT as nat)).cells[r]
                == screen.cells[r + 1],
        screen.write(newlines(BUFFER_HEIGHT as nat)).cells[BUFFER_HEIGHT - 1] == screen.blank_row(),
{
    lemma_newlines_move_down(screen, (BUFFER_HEIGHT - 1) as nat);
    assert(newlines(BUFFER_HEIGHT as nat).drop_last() =~= newlines((BUFFER_HEIGHT - 1) as nat));
}

/// The cursor stands at the start of a row, the `done` rows above it are
/// empty as far as the grid reaches, and so is the bottom row once `done`
/// has reached the height of the grid less one.
pub open spec fn cleared_above(screen: Screen, done: int) -> bool {
    &&& screen.wf()
    &&& screen.column == 0
    &&& (screen.row >= done + 1 || screen.row == BUFFER_HEIGHT - 1)
    &&& forall|r: int|
        0 <= r < BUFFER_HEIGHT && screen.row - done <= r < screen.row ==> #[trigger] screen.cells[r]
            == screen.blank_row()
    &&& done >= BUFFER_HEIGHT - 1 ==> screen.cells[BUFFER_HEIGHT - 1] == screen.blank_row()
}

proof fn lemma_blank_line_clears_one_more(screen: Screen, done: int)
    requires
        cleared_above(screen, done),
        done >= 0,
    ensures
        cleared_above(screen.write(spaces(BUFFER_WIDTH as nat).push(NEWLINE)), done + 1),
        screen.write(spaces(BUFFER_WIDTH as nat).push(NEWLINE)).color == screen.color,
{
    let row = spaces(BUFFER_WIDTH as nat);
    let line = row.push(NEWLINE);
    assert(line.drop_last() =~= row);
    assert(line.last() == NEWLINE);
    lemma_write_within_row(screen, row);
    let filled = screen.write(row);
    assert(filled.cells[screen.row] =~= screen.blank_row());
    let after = filled.new_line();
    assert(screen.write(line) == after);
    assert(after.blank_row() == screen.blank_row());
    assert forall|r: int| 0 <= r < BUFFER_HEIGHT && after.row - (done + 1) <= r < after.row implies #[trigger] after.cells[r]
        == after.blank_row() by {
        if screen.row < BUFFER_HEIGHT - 1 {
            if r < screen.row {
                assert(filled.cells[r] == screen.cells[r]);
            }
        } else {
            assert(after.cells[r] == filled.cells[r + 1]);
            if r + 1 < screen.row {
                assert(filled.cells[r + 1] == screen.cells[r + 1]);
            }
        }
    }
}

proof fn lemma_blank_lines_clear_above(screen: Screen, count: nat)
    requires
        screen.wf(),
        count >= 1,
    ensures
        cleared_above(screen.write(blank_lines(count)), count - 1),
        screen.write(blank_lines(count)).color == screen.color,
    decreases count,
{
    let line = spaces(BUFFER_WIDTH as nat).push(NEWLINE);
    let head = blank_lines((count - 1) as nat);
    lemma_write_joined(screen, head, line);
    lemma_write_keeps_shape(screen, head);
    if count == 1 {
        assert(head =~= Seq::<u8>::empty());
        assert(screen.write(head) == screen);
        assert(line.drop_last() =~= spaces(BUFFER_WIDTH as nat));
        assert(line.last() == NEWLINE);
        lemma_write_keeps_shape(screen, spaces(BUFFER_WIDTH as nat));
        let filled = screen.write(spaces(BUFFER_WIDTH as nat));
        assert(screen.write(line) == filled.new_line());
        lemma_write_byte_keeps_shape(filled, NEWLINE);
    } else {
        lemma_blank_lines_clear_above(screen, (count - 1) as nat);
        lemma_blank_line_clears_one_more(screen.write(head), count - 2);
    }
}

/// As many blank lines as the grid has rows, written from any cursor
/// position, leave every cell of the grid empty in the current attribute.
pub proof fn lemma_blank_lines_clear_the_grid(screen: Screen)
    requires
        screen.wf(),
    ensures
        screen.write(blank_lines(BUFFER_HEIGHT as nat)).wf(),
        screen.write(blank_lines(BUFFER_HEIGHT as nat)).color == screen.color,
        forall|r: int|
            0 <= r < BUFFER_HEIGHT ==> #[trigger] screen.write(blank_lines(BUFFER_HEIGHT as nat)).cells[r]
                == screen.blank_row(),
{
    lemma_blank_lines_clear_above(screen, BUFFER_HEIGHT as nat);
}

} // verus!
