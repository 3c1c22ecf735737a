use vvfos::vga_buffer::{
    clear_screen, print, Color, ColorCode, ScreenChar, Writer, BUFFER_HEIGHT, BUFFER_WIDTH,
};

fn white_on_black() -> ColorCode {
    ColorCode::new(Color::White, Color::Black)
}

fn cell(byte: u8, color_code: ColorCode) -> ScreenChar {
    ScreenChar { ascii_character: byte, color_code }
}

fn row_of(writer: &Writer, row: usize) -> Vec<u8> {
    (0..BUFFER_WIDTH).map(|col| writer.char_at(row, col).ascii_character).collect()
}

fn letters(count: usize) -> String {
    (0..count).map(|i| (b'a' + (i % 26) as u8) as char).collect()
}

#[test]
fn color_code_packs_background_over_foreground() {
    assert_eq!(ColorCode::new(Color::White, Color::Black), ColorCode(0x0f));
    assert_eq!(ColorCode::new(Color::Yellow, Color::Blue), ColorCode(0x1e));
    assert_eq!(ColorCode::new(Color::Black, Color::White), ColorCode(0xf0));
    assert_eq!(ColorCode::new(Color::LightGray, Color::DarkGray), ColorCode(0x87));
}

#[test]
fn palette_indices() {
    let palette = [
        Color::Black,
        Color::Blue,
        Color::Green,
        Color::Cyan,
        Color::Red,
        Color::Magenta,
        Color::Brown,
        Color::LightGray,
        Color::DarkGray,
        Color::LightBlue,
        Color::LightGreen,
        Color::LightCyan,
        Color::LightRed,
        Color::Pink,
        Color::Yellow,
        Color::White,
    ];
    for (index, color) in palette.iter().enumerate() {
        assert_eq!(color.code() as usize, index);
    }
}

#[test]
fn new_writer_is_blank() {
    let writer = Writer::new(white_on_black());
    assert_eq!((writer.row_position(), writer.column_position()), (0, 0));
    assert_eq!(writer.color_code(), ColorCode(0x0f));
    for row in 0..BUFFER_HEIGHT {
        for col in 0..BUFFER_WIDTH {
            assert_eq!(writer.char_at(row, col), cell(b' ', ColorCode(0x0f)));
        }
    }
}

#[test]
fn short_string_stays_on_the_first_row() {
    let mut writer = Writer::new(white_on_black());
    writer.write_str("hello");
    assert_eq!((writer.row_position(), writer.column_position()), (0, 5));
    assert_eq!(&row_of(&writer, 0)[..6], b"hello ");
    assert_eq!(writer.char_at(0, 4), cell(b'o', ColorCode(0x0f)));
    let mut other = Writer::new(white_on_black());
    other.write_str(&letters(BUFFER_WIDTH - 1));
    assert_eq!((other.row_position(), other.column_position()), (0, BUFFER_WIDTH - 1));
}

#[test]
fn full_row_wraps_on_the_next_byte() {
    let mut writer = Writer::new(white_on_black());
    let text = letters(BUFFER_WIDTH);
    writer.write_str(&text);
    assert_eq!((writer.row_position(), writer.column_position()), (0, BUFFER_WIDTH));
    assert_eq!(row_of(&writer, 0), text.as_bytes());
    writer.write_byte(b'!');
    assert_eq!((writer.row_position(), writer.column_position()), (1, 1));
    assert_eq!(writer.char_at(1, 0), cell(b'!', ColorCode(0x0f)));
    assert_eq!(row_of(&writer, 0), text.as_bytes());
}

#[test]
fn newline_after_a_full_row_goes_to_the_next_row() {
    let mut writer = Writer::new(white_on_black());
    let text = letters(BUFFER_WIDTH);
    writer.write_str(&text);
    writer.write_byte(b'\n');
    assert_eq!((writer.row_position(), writer.column_position()), (1, 0));
    assert_eq!(row_of(&writer, 0), text.as_bytes());
    assert_eq!(row_of(&writer, 1), vec![b' '; BUFFER_WIDTH]);
}

#[test]
fn newline_moves_to_the_next_row() {
    let mut writer = Writer::new(white_on_black());
    writer.write_str("ab\ncd");
    assert_eq!((writer.row_position(), writer.column_position()), (1, 2));
    assert_eq!(&row_of(&writer, 0)[..3], b"ab ");
    assert_eq!(&row_of(&writer, 1)[..3], b"cd ");
}

#[test]
fn as_many_newlines_as_rows_scroll_once() {
    let mut writer = Writer::new(white_on_black());
    for row in 0..BUFFER_HEIGHT {
        writer.write_byte(b'A' + row as u8);
        writer.write_byte(b'\n');
    }
    assert_eq!((writer.row_position(), writer.column_position()), (BUFFER_HEIGHT - 1, 0));
    for row in 0..BUFFER_HEIGHT - 1 {
        assert_eq!(writer.char_at(row, 0).ascii_character, b'A' + row as u8 + 1);
    }
    assert_eq!(row_of(&writer, BUFFER_HEIGHT - 1), vec![b' '; BUFFER_WIDTH]);
}

#[test]
fn newlines_alone_scroll_once() {
    let mut writer = Writer::new(white_on_black());
    writer.write_str("top\nsecond");
    writer.reset_positions();
    for count in 1..BUFFER_HEIGHT {
        writer.write_byte(b'\n');
        assert_eq!((writer.row_position(), writer.column_position()), (count, 0));
        assert_eq!(&row_of(&writer, 0)[..3], b"top");
    }
    writer.write_byte(b'\n');
    assert_eq!((writer.row_position(), writer.column_position()), (BUFFER_HEIGHT - 1, 0));
    assert_eq!(&row_of(&writer, 0)[..6], b"second");
    for row in 1..BUFFER_HEIGHT {
        assert_eq!(row_of(&writer, row), vec![b' '; BUFFER_WIDTH]);
    }
}

#[test]
fn scroll_blanks_the_bottom_row_in_the_current_attribute() {
    let mut writer = Writer::new(white_on_black());
    let red = ColorCode::new(Color::Red, Color::Green);
    writer.set_color_code(red);
    for _ in 0..BUFFER_HEIGHT {
        writer.new_line();
    }
    assert_eq!(writer.char_at(BUFFER_HEIGHT - 1, 0), cell(b' ', ColorCode(0x24)));
    assert_eq!(writer.char_at(BUFFER_HEIGHT - 1, BUFFER_WIDTH - 1), cell(b' ', ColorCode(0x24)));
    assert_eq!(writer.char_at(BUFFER_HEIGHT - 2, 0), cell(b' ', ColorCode(0x0f)));
}

#[test]
fn clear_row_blanks_the_row() {
    let mut writer = Writer::new(white_on_black());
    writer.write_str("first\nsecond\nthird");
    writer.set_color_code(ColorCode(0x4e));
    writer.clear_row(1);
    for col in 0..BUFFER_WIDTH {
        assert_eq!(writer.char_at(1, col), cell(b' ', ColorCode(0x4e)));
    }
    assert_eq!(&row_of(&writer, 0)[..5], b"first");
    assert_eq!(&row_of(&writer, 2)[..5], b"third");
    assert_eq!((writer.row_position(), writer.column_position()), (2, 5));
}

#[test]
fn reset_positions_keeps_the_cells() {
    let mut writer = Writer::new(white_on_black());
    writer.write_str("abc\ndef");
    writer.reset_positions();
    assert_eq!((writer.row_position(), writer.column_position()), (0, 0));
    assert_eq!(&row_of(&writer, 0)[..3], b"abc");
    assert_eq!(&row_of(&writer, 1)[..3], b"def");
    writer.write_byte(b'X');
    assert_eq!(&row_of(&writer, 0)[..3], b"Xbc");
}

#[test]
fn bytes_beyond_ascii_are_written_one_by_one() {
    let mut writer = Writer::new(white_on_black());
    writer.write_str("é");
    assert_eq!(writer.column_position(), 2);
    assert_eq!(writer.char_at(0, 0).ascii_character, 0xc3);
    assert_eq!(writer.char_at(0, 1).ascii_character, 0xa9);
}

#[test]
fn clear_blanks_every_cell() {
    let mut writer = Writer::new(white_on_black());
    for row in 0..40 {
        writer.write_str(&letters(60 + row));
        writer.write_byte(b'\n');
    }
    writer.write_str("tail");
    writer.set_color_code(ColorCode(0x1e));
    writer.clear();
    assert_eq!((writer.row_position(), writer.column_position()), (0, 0));
    for row in 0..BUFFER_HEIGHT {
        for col in 0..BUFFER_WIDTH {
            assert_eq!(writer.char_at(row, col), cell(b' ', ColorCode(0x1e)));
        }
    }
}

#[test]
fn clear_from_a_full_row() {
    let mut writer = Writer::new(white_on_black());
    writer.write_str(&letters(BUFFER_WIDTH));
    writer.clear();
    assert_eq!((writer.row_position(), writer.column_position()), (0, 0));
    for row in 0..BUFFER_HEIGHT {
        assert_eq!(row_of(&writer, row), vec![b' '; BUFFER_WIDTH]);
    }
}

#[test]
fn print_writes_behind_the_lock() {
    let console = spin::Mutex::new(Writer::new(white_on_black()));
    print(&console, "one\n");
    print(&console, "two");
    let writer = console.lock();
    assert_eq!((writer.row_position(), writer.column_position()), (1, 3));
    assert_eq!(&row_of(&writer, 0)[..4], b"one ");
    assert_eq!(&row_of(&writer, 1)[..4], b"two ");
}

#[test]
fn clear_screen_behind_the_lock() {
    let console = spin::Mutex::new(Writer::new(white_on_black()));
    print(&console, "something\non the screen");
    clear_screen(&console);
    assert!(!console.is_locked());
    let writer = console.lock();
    assert_eq!((writer.row_position(), writer.column_position()), (0, 0));
    for row in 0..BUFFER_HEIGHT {
        assert_eq!(row_of(&writer, row), vec![b' '; BUFFER_WIDTH]);
    }
}
