use hay_os::vga::{clear_screen, VGAWriter, VGA_HEIGHT, VGA_WIDTH};

fn cell(w: &VGAWriter, row: usize, col: usize) -> (u8, u8) {
    let i = 2 * (row * VGA_WIDTH + col);
    (w.cells()[i], w.cells()[i + 1])
}

#[test]
fn write_string_fills_cells() {
    let mut w = VGAWriter::new(0x0F);
    clear_screen(&mut w);
    w.write_string("hi");
    assert_eq!(cell(&w, 0, 0), (b'h', 0x0F));
    assert_eq!(cell(&w, 0, 1), (b'i', 0x0F));
    assert_eq!(cell(&w, 0, 2), (b' ', 0x0F));
    assert_eq!((w.row_position, w.column_position), (0, 2));
    assert_eq!(w.cursor_bytes(), (2, 0));
}

#[test]
fn newline_moves_to_next_row() {
    let mut w = VGAWriter::new(0x0F);
    w.write_string("a\nb");
    assert_eq!(cell(&w, 1, 0).0, b'b');
    assert_eq!((w.row_position, w.column_position), (1, 1));
    assert_eq!(w.cursor_bytes(), (81, 0));
}

#[test]
fn full_row_wraps() {
    let mut w = VGAWriter::new(0x07);
    let line = "x".repeat(81);
    w.write_string(&line);
    assert_eq!((w.row_position, w.column_position), (1, 1));
    assert_eq!(cell(&w, 1, 0), (b'x', 0x07));
}

#[test]
fn backspace_blanks_previous_cell() {
    let mut w = VGAWriter::new(0x0F);
    w.write_string("ab");
    w.write_byte(8);
    assert_eq!(cell(&w, 0, 1), (b' ', 0x0F));
    assert_eq!(w.column_position, 1);
    w.write_byte(8);
    w.write_byte(8);
    assert_eq!(w.column_position, 0);
}

#[test]
fn last_row_scrolls() {
    let mut w = VGAWriter::new(0x0F);
    clear_screen(&mut w);
    for r in 0..VGA_HEIGHT {
        w.write_byte(b'0' + (r % 10) as u8);
        w.write_byte(b'\n');
    }
    assert_eq!(w.row_position, VGA_HEIGHT - 1);
    assert_eq!(cell(&w, 0, 0).0, b'1');
    assert_eq!(cell(&w, 23, 0).0, b'4');
    assert_eq!(cell(&w, 24, 0), (b' ', 0x0F));
    assert_eq!(w.cursor_bytes(), ((24 * 80 % 256) as u8, (24 * 80 / 256) as u8));
}

#[test]
fn clear_screen_resets_cursor() {
    let mut w = VGAWriter::new(0x1F);
    w.write_string("hello\nworld");
    w.clear_screen();
    assert_eq!((w.row_position, w.column_position), (0, 0));
    assert!(w.cells().chunks(2).all(|c| c[0] == b' ' && c[1] == 0x1F));
}
