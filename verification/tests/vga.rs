use spin::Mutex;
use vga_text::vga_buffer::{Color, ColorCode, Writer, NEWLINE, PLACEHOLDER};

const ALL_COLORS: [Color; 16] = [
    Color::Black,
    Color::Blue,
    Color::Green,
    Color::Cyan,
    Color::Red,
    Color::Magenta,
    Color::Brown,
    Color::LightGray,
    Color::DarkGray,
    Color::LightBlue,
    Color::LightGreen,
    Color::LightCyan,
    Color::LightRed,
    Color::Pink,
    Color::Yellow,
    Color::White,
];

#[test]
fn write_byte_places_every_printable_byte() {
    for b in 0x20u8..=0x7e {
        let mut w = Writer::new();
        w.write_byte(b);
        let cell = w.read_cell(24, 0);
        assert_eq!(cell.ascii_character, b);
        assert_eq!(cell.color_code, w.color_code());
        assert_eq!(w.column_position(), 1);
    }
}

#[test]
fn write_byte_line_break_advances_to_blank_reset_row() {
    let mut w = Writer::new();
    w.write_byte(b'A');
    assert_eq!(w.column_position(), 1);
    w.write_byte(NEWLINE);
    assert_eq!(w.column_position(), 0);
    assert_eq!(w.read_cell(23, 0).ascii_character, b'A');
    for c in 0..80 {
        let cell = w.read_cell(24, c);
        assert_eq!(cell.ascii_character, b' ');
        assert_eq!(cell.color_code, w.color_code());
    }
}

#[test]
fn write_string_replaces_unprintable_bytes() {
    let mut w = Writer::new();
    w.write_string("\t");
    assert_eq!(w.read_cell(24, 0).ascii_character, PLACEHOLDER);
    assert_eq!(w.column_position(), 1);

    let mut w = Writer::new();
    w.write_string("\u{7f}");
    assert_eq!(w.read_cell(24, 0).ascii_character, PLACEHOLDER);

    // a two-byte character: both bytes lie outside the printable range
    let mut w = Writer::new();
    w.write_string("\u{e4}");
    assert_eq!(w.read_cell(24, 0).ascii_character, PLACEHOLDER);
    assert_eq!(w.read_cell(24, 1).ascii_character, PLACEHOLDER);
    assert_eq!(w.column_position(), 2);
}

#[test]
fn eighty_bytes_fill_the_row_and_the_next_byte_wraps_once() {
    let mut w = Writer::new();
    for i in 0u8..80 {
        w.write_byte(b'0' + (i % 10));
    }
    assert_eq!(w.column_position(), 80);
    for c in 0..80 {
        assert_eq!(w.read_cell(24, c).ascii_character, b'0' + (c as u8 % 10));
    }
    // no wrap happened: the row above is still blank
    for c in 0..80 {
        assert_eq!(w.read_cell(23, c).ascii_character, b' ');
    }
    // the 81st byte triggers exactly one scroll before being placed
    w.write_byte(b'X');
    assert_eq!(w.column_position(), 1);
    assert_eq!(w.read_cell(24, 0).ascii_character, b'X');
    for c in 0..80 {
        assert_eq!(w.read_cell(23, c).ascii_character, b'0' + (c as u8 % 10));
    }
    for c in 1..80 {
        assert_eq!(w.read_cell(24, c).ascii_character, b' ');
    }
}

#[test]
fn line_break_shifts_every_row_up_and_blanks_the_bottom() {
    let mut w = Writer::new();
    w.write_string("aa\nbb\ncc");
    assert_eq!(w.read_cell(22, 0).ascii_character, b'a');
    assert_eq!(w.read_cell(22, 1).ascii_character, b'a');
    assert_eq!(w.read_cell(23, 0).ascii_character, b'b');
    assert_eq!(w.read_cell(24, 0).ascii_character, b'c');
    w.write_byte(NEWLINE);
    assert_eq!(w.read_cell(21, 0).ascii_character, b'a');
    assert_eq!(w.read_cell(22, 0).ascii_character, b'b');
    assert_eq!(w.read_cell(23, 0).ascii_character, b'c');
    assert_eq!(w.read_cell(23, 1).ascii_character, b'c');
    for c in 0..80 {
        let cell = w.read_cell(24, c);
        assert_eq!(cell.ascii_character, b' ');
        assert_eq!(cell.color_code, w.color_code());
    }
}

#[test]
fn scrolling_discards_what_leaves_the_top_row() {
    let mut w = Writer::new();
    w.write_string("marker");
    for _ in 0..24 {
        w.write_byte(NEWLINE);
    }
    // the marker has climbed to the top row
    assert_eq!(w.read_cell(0, 0).ascii_character, b'm');
    assert_eq!(w.read_cell(0, 5).ascii_character, b'r');
    w.write_byte(NEWLINE);
    // one more scroll and it is gone for good
    for r in 0..25 {
        for c in 0..80 {
            assert_eq!(w.read_cell(r, c).ascii_character, b' ');
        }
    }
}

#[test]
fn empty_string_changes_nothing() {
    let mut w = Writer::new();
    w.write_string("");
    assert_eq!(w.column_position(), 0);
    for r in 0..25 {
        for c in 0..80 {
            assert_eq!(w.read_cell(r, c).ascii_character, b' ');
        }
    }
}

#[test]
fn one_call_spanning_a_wrap() {
    let mut w = Writer::new();
    let long = "A".repeat(85);
    w.write_string(&long);
    assert_eq!(w.column_position(), 5);
    for c in 0..80 {
        assert_eq!(w.read_cell(23, c).ascii_character, b'A');
    }
    for c in 0..5 {
        assert_eq!(w.read_cell(24, c).ascii_character, b'A');
    }
    for c in 5..80 {
        assert_eq!(w.read_cell(24, c).ascii_character, b' ');
    }
}

#[test]
fn encoder_packs_all_pairs_and_is_stable() {
    for (bi, bg) in ALL_COLORS.iter().enumerate() {
        for (fi, fg) in ALL_COLORS.iter().enumerate() {
            assert_eq!(fg.code(), fi as u8);
            let attribute = ColorCode::new(*fg, *bg);
            assert_eq!(attribute.byte(), ((bi as u8) << 4) | (fi as u8));
            // re-encoding the same pair yields the same byte
            let again = ColorCode::new(*fg, *bg);
            assert_eq!(again, attribute);
            assert_eq!(again.byte(), attribute.byte());
        }
    }
}

#[test]
fn fresh_writer_is_blank_green_on_black() {
    let w = Writer::new();
    assert_eq!(w.column_position(), 0);
    assert_eq!(w.color_code(), ColorCode::new(Color::Green, Color::Black));
    assert_eq!(w.color_code().byte(), 0x02);
    for r in 0..25 {
        for c in 0..80 {
            let cell = w.read_cell(r, c);
            assert_eq!(cell.ascii_character, b' ');
            assert_eq!(cell.color_code, w.color_code());
        }
    }
}

#[test]
fn hello_world_scenario() {
    let mut w = Writer::new();
    w.write_string("Hello, world!\n42");
    let top = b"Hello, world!";
    for (i, &b) in top.iter().enumerate() {
        assert_eq!(w.read_cell(23, i).ascii_character, b);
    }
    for c in top.len()..80 {
        assert_eq!(w.read_cell(23, c).ascii_character, b' ');
    }
    assert_eq!(w.read_cell(24, 0).ascii_character, b'4');
    assert_eq!(w.read_cell(24, 1).ascii_character, b'2');
    for c in 2..80 {
        assert_eq!(w.read_cell(24, c).ascii_character, b' ');
    }
    assert_eq!(w.column_position(), 2);
}

#[test]
fn locked_callers_never_interleave_within_a_call() {
    let writer = Mutex::new(Writer::new());
    {
        let mut guard = writer.lock();
        let forty_a = "A".repeat(40);
        guard.write_string(&forty_a);
    }
    {
        let mut guard = writer.lock();
        let forty_b = "B".repeat(40);
        guard.write_string(&forty_b);
    }
    let guard = writer.lock();
    for c in 0..40 {
        assert_eq!(guard.read_cell(24, c).ascii_character, b'A');
    }
    for c in 40..80 {
        assert_eq!(guard.read_cell(24, c).ascii_character, b'B');
    }
    assert_eq!(guard.column_position(), 80);
}
