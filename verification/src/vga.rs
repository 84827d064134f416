use vstd::prelude::*;
use vstd::utf8::encode_utf8;

verus! {

/// Columns of the text screen.
pub const VGA_WIDTH: usize = 80;

/// Rows of the text screen.
pub const VGA_HEIGHT: usize = 25;

/// Bytes of the text screen: a character byte and a color byte per cell.
pub const SCREEN_BYTES: usize = 4000;

/// The text screen: the cursor, the color used for new text, and the screen's cells as the
/// VGA text buffer lays them out (row by row, a character byte then a color byte per cell).
pub struct VGAWriter {
    pub column_position: usize,
    pub row_position: usize,
    pub color_code: u8,
    cells: Vec<u8>,
}

/// The abstract value of the screen.
pub struct VgaView {
    pub col: int,
    pub row: int,
    pub color: u8,
    pub cells: Seq<u8>,
}

/// Index of the character byte of a cell.
pub open spec fn cell_index(row: int, col: int) -> int {
    2 * (row * 80 + col)
}

/// The cells with one cell set to a character and a color.
pub open spec fn put_cell(cells: Seq<u8>, row: int, col: int, ch: u8, color: u8) -> Seq<u8> {
    cells.update(cell_index(row, col), ch).update(cell_index(row, col) + 1, color)
}

/// The cells with the bytes in `lo .. hi` blanked: spaces in the given color.
pub open spec fn blank_range(cells: Seq<u8>, lo: int, hi: int, color: u8) -> Seq<u8> {
    Seq::new(
        cells.len(),
        |i: int|
            if lo <= i < hi {
                if i % 2 == 0 {
                    32u8
                } else {
                    color
                }
            } else {
                cells[i]
            },
    )
}

/// The cells with one row blanked.
pub open spec fn blank_row(cells: Seq<u8>, row: int, color: u8) -> Seq<u8> {
    blank_range(cells, row * 160, row * 160 + 160, color)
}

/// The cells moved up one row, with a blank last row.
pub open spec fn scrolled(cells: Seq<u8>, color: u8) -> Seq<u8> {
    blank_row(Seq::new(4000, |i: int| if i < 3840 { cells[i + 160] } else { cells[i] }), 24, color)
}

/// A line break: back to the first column, on the next row, or on the last row after the
/// screen has scrolled up.
pub open spec fn new_line_spec(v: VgaView) -> VgaView {
    if v.row < 24 {
        VgaView { col: 0, row: v.row + 1, ..v }
    } else {
        VgaView { col: 0, cells: scrolled(v.cells, v.color), ..v }
    }
}

/// Writing one byte: `\n` breaks the line; backspace (8) moves back one column and blanks
/// that cell, unless at the first column; any other byte goes to the cursor's cell, after a
/// line break when the row is full, and the cursor moves right.
pub open spec fn write_byte_spec(v: VgaView, b: u8) -> VgaView {
    if b == 10 {
        new_line_spec(v)
    } else if b == 8 {
        if v.col > 0 {
            VgaView { col: v.col - 1, cells: put_cell(v.cells, v.row, v.col - 1, 32, v.color), ..v }
        } else {
            v
        }
    } else {
        let w = if v.col >= 80 {
            new_line_spec(v)
        } else {
            v
        };
        VgaView { col: w.col + 1, cells: put_cell(w.cells, w.row, w.col, b, w.color), ..w }
    }
}

/// Writing bytes one after another.
pub open spec fn write_bytes_spec(v: VgaView, s: Seq<u8>) -> VgaView
    decreases s.len(),
{
    if s.len() == 0 {
        v
    } else {
        write_byte_spec(write_bytes_spec(v, s.drop_last()), s.last())
    }
}

/// A blank screen in a color.
pub open spec fn blank_screen(color: u8) -> Seq<u8> {
    Seq::new(4000, |i: int| if i % 2 == 0 { 32u8 } else { color })
}

impl View for VGAWriter {
    type V = VgaView;

    closed spec fn view(&self) -> VgaView {
        VgaView {
            col: self.column_position as int,
            row: self.row_position as int,
            color: self.color_code,
            cells: self.cells@,
        }
    }
}

/// The screen's invariant, on its abstract value: the cursor is on the screen (the column may
/// stand just past the last one) and there are 4000 cell bytes.
pub open spec fn vga_wf(v: VgaView) -> bool {
    &&& 0 <= v.col <= 80
    &&& 0 <= v.row < 25
    &&& v.cells.len() == 4000
}

impl VGAWriter {
    /// The screen's invariant.
    pub open spec fn wf(&self) -> bool {
        vga_wf(self@)
    }

    /// A writer at the top left in a color, over a screen of zero bytes.
    pub fn new(color_code: u8) -> (w: Self)
        ensures
            w.wf(),
            w@.col == 0,
            w@.row == 0,
            w@.color == color_code,
            w@.cells == Seq::new(4000, |i: int| 0u8),
    {
        let mut cells: Vec<u8> = Vec::new();
        let mut i: usize = 0;
        while i < SCREEN_BYTES
            invariant
                i <= SCREEN_BYTES,
                cells@ == Seq::new(i as nat, |j: int| 0u8),
            decreases SCREEN_BYTES - i,
        {
            cells.push(0);
            i = i + 1;
            assert(cells@ =~= Seq::new(i as nat, |j: int| 0u8));
        }
        VGAWriter { column_position: 0, row_position: 0, color_code, cells }
    }

    /// The screen's cells, for copying to the VGA text buffer.
    pub fn cells(&self) -> (c: &Vec<u8>)
        ensures
            c@ == self@.cells,
    {
        &self.cells
    }

    /// Writes a byte at the cursor; see [`write_byte_spec`].
    pub fn write_byte(&mut self, byte: u8)
        requires
            old(self).wf(),
        ensures
            final(self).wf(),
            final(self)@ == write_byte_spec(old(self)@, byte),
    {
        if byte == 10 {
            self.new_line();
        } else if byte == 8 {
            if self.column_position > 0 {
                self.column_position = self.column_position - 1;
                let offset = (self.row_position * VGA_WIDTH + self.column_position) * 2;
                self.cells.set(offset, 32);
                self.cells.set(offset + 1, self.color_code);
            }
        } else {
            if self.column_position >= VGA_WIDTH {
                self.new_line();
            }
            let offset = (self.row_position * VGA_WIDTH + self.column_position) * 2;
            self.cells.set(offset, byte);
            self.cells.set(offset + 1, self.color_code);
            self.column_position = self.column_position + 1;
        }
    }

    /// Writes the bytes of a string one after another.
    pub fn write_string(&mut self, s: &str)
        requires
            old(self).wf(),
        ensures
            final(self).wf(),
            final(self)@ == write_bytes_spec(old(self)@, encode_utf8(s@)),
    {
        let bytes = s.as_bytes();
        let mut i: usize = 0;
        while i < bytes.len()
            invariant
                i <= bytes@.len(),
                bytes@ == encode_utf8(s@),
                self.wf(),
                self@ == write_bytes_spec(old(self)@, bytes@.subrange(0, i as int)),
            decreases bytes@.len() - i,
        {
            proof {
                let t = bytes@.subrange(0, i as int + 1);
                assert(t.drop_last() =~= bytes@.subrange(0, i as int));
            }
            self.write_byte(bytes[i]);
            i = i + 1;
        }
        assert(bytes@.subrange(0, bytes@.len() as int) =~= bytes@);
    }

    /// Breaks the line; see [`new_line_spec`].
    fn new_line(&mut self)
        requires
            old(self).wf(),
        ensures
            final(self).wf(),
            final(self)@ == new_line_spec(old(self)@),
    {
        self.column_position = 0;
        if self.row_position < VGA_HEIGHT - 1 {
            self.row_position = self.row_position + 1;
        } else {
            let mut i: usize = 0;
            while i < 3840
                invariant
                    i <= 3840,
                    self.cells@.len() == 4000,
                    self.column_position == 0,
                    self.row_position == old(self).row_position,
                    self.color_code == old(self).color_code,
                    forall|j: int| 0 <= j < i ==> self.cells@[j] == old(self).cells@[j + 160],
                    forall|j: int| i <= j < 4000 ==> self.cells@[j] == old(self).cells@[j],
                decreases 3840 - i,
            {
                let b = self.cells[i + 160];
                self.cells.set(i, b);
                i = i + 1;
            }
            let ghost moved = self.cells@;
            assert(moved =~= Seq::new(
                4000,
                |i: int|
                    if i < 3840 {
                        old(self).cells@[i + 160]
                    } else {
                        old(self).cells@[i]
                    },
            ));
            self.clear_row(VGA_HEIGHT - 1);
        }
    }

    /// Blanks one row in the current color.
    fn clear_row(&mut self, row: usize)
        requires
            old(self).wf(),
            row < 25,
        ensures
            final(self).wf(),
            final(self)@ == (VgaView {
                cells: blank_row(old(self)@.cells, row as int, old(self)@.color),
                ..old(self)@
            }),
    {
        let mut col: usize = 0;
        assert(self.cells@ =~= blank_range(old(self).cells@, row * 160, row * 160, self.color_code));
        while col < VGA_WIDTH
            invariant
                col <= 80,
                row < 25,
                self.cells@.len() == 4000,
                self.column_position == old(self).column_position,
                self.row_position == old(self).row_position,
                self.color_code == old(self).color_code,
                self.cells@ == blank_range(
                    old(self).cells@,
                    row * 160,
                    row * 160 + 2 * col,
                    self.color_code,
                ),
            decreases 80 - col,
        {
            let offset = (row * VGA_WIDTH + col) * 2;
            self.cells.set(offset, 32);
            self.cells.set(offset + 1, self.color_code);
            col = col + 1;
            assert(self.cells@ =~= blank_range(
                old(self).cells@,
                row * 160,
                row * 160 + 2 * col,
                self.color_code,
            ));
        }
        assert(self.cells@ =~= blank_row(old(self)@.cells, row as int, old(self)@.color));
    }

    /// Blanks the whole screen in the current color and puts the cursor at the top left.
    pub fn clear_screen(&mut self)
        requires
            old(self).wf(),
        ensures
            final(self).wf(),
            final(self)@ == (VgaView {
                col: 0,
                row: 0,
                cells: blank_screen(old(self)@.color),
                ..old(self)@
            }),
    {
        let mut i: usize = 0;
        assert(self.cells@ =~= blank_range(old(self).cells@, 0, 0, self.color_code));
        while i < VGA_WIDTH * VGA_HEIGHT
            invariant
                i <= 2000,
                self.cells@.len() == 4000,
                self.column_position == old(self).column_position,
                self.row_position == old(self).row_position,
                self.color_code == old(self).color_code,
                self.cells@ == blank_range(old(self).cells@, 0, 2 * i, self.color_code),
            decreases 2000 - i,
        {
            self.cells.set(i * 2, 32);
            self.cells.set(i * 2 + 1, self.color_code);
            i = i + 1;
            assert(self.cells@ =~= blank_range(old(self).cells@, 0, 2 * i, self.color_code));
        }
        self.column_position = 0;
        self.row_position = 0;
        assert(self.cells@ =~= blank_screen(old(self)@.color));
    }

    /// The cursor's position as the VGA controller counts it (row times 80 plus column), split
    /// into its low and high byte for the controller's cursor registers 0x0F and 0x0E.
    pub fn cursor_bytes(&self) -> (r: (u8, u8))
        requires
            self.wf(),
        ensures
            r.0 == (self@.row * 80 + self@.col) % 256,
            r.1 == (self@.row * 80 + self@.col) / 256,
    {
        let pos = self.row_position * VGA_WIDTH + self.column_position;
        ((pos % 256) as u8, (pos / 256) as u8)
    }
}

/// Blanks the whole screen and puts the cursor at the top left.
pub fn clear_screen(writer: &mut VGAWriter)
    requires
        old(writer).wf(),
    ensures
        final(writer).wf(),
        final(writer)@ == (VgaView {
            col: 0,
            row: 0,
            cells: blank_screen(old(writer)@.color),
            ..old(writer)@
        }),
{
    writer.clear_screen();
}

/// A line break on the last row scrolls the whole screen: every cell of rows 0 to 23 (both its
/// character and its color byte) takes the contents that the cell below it had, the last row
/// becomes blank in the current color, and the cursor goes to the start of the last row.
pub proof fn lemma_line_break_scrolls(v: VgaView)
    requires
        vga_wf(v),
        v.row == 24,
    ensures
        ({
            let w = write_byte_spec(v, 10);
            &&& vga_wf(w)
            &&& w.row == 24 && w.col == 0 && w.color == v.color
            &&& forall|r: int, c: int|
                0 <= r < 24 && 0 <= c < 80 ==> w.cells[cell_index(r, c)] == v.cells[cell_index(
                    r + 1,
                    c,
                )] && w.cells[cell_index(r, c) + 1] == v.cells[cell_index(r + 1, c) + 1]
            &&& forall|c: int|
                0 <= c < 80 ==> w.cells[cell_index(24, c)] == 32 && w.cells[cell_index(24, c) + 1]
                    == v.color
        }),
{
}

/// A printable byte written where the row has room lands in the cursor's cell in the current
/// color, the cursor moves one column right, and no other cell changes.
pub proof fn lemma_printable_byte_at_cursor(v: VgaView, b: u8)
    requires
        vga_wf(v),
        b != 10 && b != 8,
        v.col < 80,
    ensures
        ({
            let w = write_byte_spec(v, b);
            &&& w.row == v.row && w.col == v.col + 1
            &&& w.cells[cell_index(v.row, v.col)] == b
            &&& w.cells[cell_index(v.row, v.col) + 1] == v.color
            &&& forall|i: int|
                0 <= i < 4000 && i != cell_index(v.row, v.col) && i != cell_index(v.row, v.col) + 1
                    ==> w.cells[i] == v.cells[i]
        }),
{
}

/// A line break above the last row moves the cursor to the start of the next row and changes
/// no cell.
pub proof fn lemma_line_break_moves_down(v: VgaView)
    requires
        vga_wf(v),
        v.row < 24,
    ensures
        ({
            let w = write_byte_spec(v, 10);
            w.row == v.row + 1 && w.col == 0 && w.cells == v.cells && w.color == v.color
        }),
{
}

/// Backspace moves the cursor one column left and blanks that cell in the current color,
/// leaving every other cell as it was; at the first column it does nothing.
pub proof fn lemma_backspace_erases(v: VgaView)
    requires
        vga_wf(v),
    ensures
        ({
            let w = write_byte_spec(v, 8);
            &&& v.col == 0 ==> w == v
            &&& v.col > 0 ==> w.row == v.row && w.col == v.col - 1 && w.cells[cell_index(
                v.row,
                v.col - 1,
            )] == 32 && w.cells[cell_index(v.row, v.col - 1) + 1] == v.color && forall|i: int|
                0 <= i < 4000 && i != cell_index(v.row, v.col - 1) && i != cell_index(
                    v.row,
                    v.col - 1,
                ) + 1 ==> w.cells[i] == v.cells[i]
        }),
{
}

/// Clearing leaves every cell a space in the current color.
pub proof fn lemma_clear_blanks_every_cell(color: u8)
    ensures
        blank_screen(color).len() == 4000,
        forall|r: int, c: int|
            0 <= r < 25 && 0 <= c < 80 ==> blank_screen(color)[cell_index(r, c)] == 32
                && blank_screen(color)[cell_index(r, c) + 1] == color,
{
}

} // verus!
