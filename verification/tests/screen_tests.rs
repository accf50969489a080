use vga_console::Color;
use vga_console::ColorCode;
use vga_console::Writer;
use vga_console::BUFFER_HEIGHT;
use vga_console::BUFFER_WIDTH;

fn green_on_black() -> ColorCode {
    ColorCode::from_colors(Color::Green, Color::Black)
}

fn fresh_writer() -> Writer {
    Writer::new(green_on_black())
}

#[test]
fn starts_blank_at_column_zero() {
    let w = fresh_writer();
    assert_eq!(w.column(), 0);
    assert_eq!(w.color(), green_on_black());
    for row in 0..BUFFER_HEIGHT {
        for col in 0..BUFFER_WIDTH {
            let cell = w.char_at(row, col);
            assert_eq!(cell.ascii_char, 0x20);
            assert_eq!(cell.color, green_on_black());
        }
    }
}

#[test]
fn short_line_reads_back_from_last_row() {
    let mut w = fresh_writer();
    w.write_str("Prints to Screen");
    let text = b"Prints to Screen";
    for (i, b) in text.iter().enumerate() {
        let cell = w.char_at(BUFFER_HEIGHT - 1, i);
        assert_eq!(cell.ascii_char, *b);
        assert_eq!(cell.color, green_on_black());
    }
    assert_eq!(w.column(), text.len());
}

#[test]
fn newline_scrolls_the_line_up() {
    let mut w = fresh_writer();
    w.write_str("AB\n");
    assert_eq!(w.column(), 0);
    assert_eq!(w.char_at(BUFFER_HEIGHT - 2, 0).ascii_char, b'A');
    assert_eq!(w.char_at(BUFFER_HEIGHT - 2, 1).ascii_char, b'B');
    for col in 0..BUFFER_WIDTH {
        assert_eq!(w.char_at(BUFFER_HEIGHT - 1, col).ascii_char, 0x20);
    }
}

#[test]
fn scrolling_preserves_row_order_and_content() {
    let mut w = fresh_writer();
    w.write_str("first\n");
    w.write_str("second\n");
    w.write_str("third\n");
    let first = b"first";
    let second = b"second";
    let third = b"third";
    for (i, b) in first.iter().enumerate() {
        assert_eq!(w.char_at(BUFFER_HEIGHT - 4, i).ascii_char, *b);
    }
    for (i, b) in second.iter().enumerate() {
        assert_eq!(w.char_at(BUFFER_HEIGHT - 3, i).ascii_char, *b);
    }
    for (i, b) in third.iter().enumerate() {
        assert_eq!(w.char_at(BUFFER_HEIGHT - 2, i).ascii_char, *b);
    }
    for col in 0..BUFFER_WIDTH {
        let cell = w.char_at(BUFFER_HEIGHT - 1, col);
        assert_eq!(cell.ascii_char, 0x20);
        assert_eq!(cell.color, green_on_black());
    }
}

#[test]
fn long_line_wraps_with_exactly_one_scroll() {
    let mut w = fresh_writer();
    let mut text = String::new();
    for i in 0..100usize {
        text.push((b'a' + (i % 26) as u8) as char);
    }
    w.write_str(&text);
    let bytes = text.as_bytes();
    for i in 0..BUFFER_WIDTH {
        assert_eq!(w.char_at(BUFFER_HEIGHT - 2, i).ascii_char, bytes[i]);
    }
    for i in 0..(100 - BUFFER_WIDTH) {
        assert_eq!(w.char_at(BUFFER_HEIGHT - 1, i).ascii_char, bytes[BUFFER_WIDTH + i]);
    }
    assert_eq!(w.column(), 100 - BUFFER_WIDTH);
    for row in 0..(BUFFER_HEIGHT - 2) {
        for col in 0..BUFFER_WIDTH {
            assert_eq!(w.char_at(row, col).ascii_char, 0x20);
        }
    }
}

#[test]
fn unprintable_byte_becomes_placeholder() {
    let mut w = fresh_writer();
    w.write_str("a\tb");
    assert_eq!(w.char_at(BUFFER_HEIGHT - 1, 0).ascii_char, b'a');
    assert_eq!(w.char_at(BUFFER_HEIGHT - 1, 1).ascii_char, 0xFE);
    assert_eq!(w.char_at(BUFFER_HEIGHT - 1, 2).ascii_char, b'b');
    assert_eq!(w.column(), 3);
}

#[test]
fn non_ascii_becomes_placeholder_per_byte() {
    let mut w = fresh_writer();
    w.write_str("\u{e9}");
    assert_eq!(w.char_at(BUFFER_HEIGHT - 1, 0).ascii_char, 0xFE);
    assert_eq!(w.char_at(BUFFER_HEIGHT - 1, 1).ascii_char, 0xFE);
    assert_eq!(w.column(), 2);
}

#[test]
fn set_color_returns_previous_and_tags_later_writes() {
    let mut w = fresh_writer();
    let red = ColorCode::from_colors(Color::Red, Color::Black);
    let previous = w.set_color(red);
    assert_eq!(previous, green_on_black());
    assert_eq!(w.color(), red);
    w.write_str("X");
    let cell = w.char_at(BUFFER_HEIGHT - 1, 0);
    assert_eq!(cell.ascii_char, b'X');
    assert_eq!(cell.color, red);
}

#[test]
fn write_byte_advances_the_cursor() {
    let mut w = fresh_writer();
    w.write_byte(b'Q');
    assert_eq!(w.column(), 1);
    assert_eq!(w.char_at(BUFFER_HEIGHT - 1, 0).ascii_char, b'Q');
}

#[test]
fn byte_at_full_line_scrolls_first() {
    let mut w = fresh_writer();
    for _ in 0..BUFFER_WIDTH {
        w.write_byte(b'x');
    }
    assert_eq!(w.column(), BUFFER_WIDTH);
    w.write_byte(b'y');
    assert_eq!(w.column(), 1);
    assert_eq!(w.char_at(BUFFER_HEIGHT - 1, 0).ascii_char, b'y');
    assert_eq!(w.char_at(BUFFER_HEIGHT - 2, 0).ascii_char, b'x');
    assert_eq!(w.char_at(BUFFER_HEIGHT - 2, BUFFER_WIDTH - 1).ascii_char, b'x');
}

#[test]
fn scrolling_preserves_attributes_exactly() {
    let mut w = fresh_writer();
    let red = ColorCode::from_colors(Color::Red, Color::Black);
    let _ = w.set_color(red);
    w.write_str("R");
    let blue = ColorCode::from_colors(Color::Blue, Color::White);
    let _ = w.set_color(blue);
    w.write_str("B\n");
    let row = BUFFER_HEIGHT - 2;
    assert_eq!(w.char_at(row, 0).ascii_char, b'R');
    assert_eq!(w.char_at(row, 0).color, red);
    assert_eq!(w.char_at(row, 1).ascii_char, b'B');
    assert_eq!(w.char_at(row, 1).color, blue);
    for col in 0..BUFFER_WIDTH {
        assert_eq!(w.char_at(BUFFER_HEIGHT - 1, col).color, blue);
    }
}

#[test]
fn print_routes_to_the_writer() {
    let mut w = fresh_writer();
    vga_console::_print(&mut w, "hi");
    assert_eq!(w.char_at(BUFFER_HEIGHT - 1, 0).ascii_char, b'h');
    assert_eq!(w.char_at(BUFFER_HEIGHT - 1, 1).ascii_char, b'i');
}

#[test]
fn fatal_report_switches_to_alert_coloring() {
    let mut w = fresh_writer();
    vga_console::report_fatal(&mut w, "panicked");
    let alert = ColorCode::from_colors(Color::Red, Color::Black);
    assert_eq!(w.color(), alert);
    let cell = w.char_at(BUFFER_HEIGHT - 1, 0);
    assert_eq!(cell.ascii_char, b'p');
    assert_eq!(cell.color, alert);
}
