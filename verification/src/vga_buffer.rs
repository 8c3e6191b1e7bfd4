//! The text-mode display driver: colour encoding, the cell grid, and the
//! stateful writer with line wrapping, scrolling and row clearing.
//!
//! The grid models the memory-mapped text buffer of the display hardware:
//! 25 rows of 80 two-byte cells, a character byte followed by an attribute
//! byte. The hardware observes the backing memory independently of program
//! semantics, so every access goes through the volatile read and write
//! operations of the `volatile` crate, which the compiler can neither
//! elide nor reorder.

use vstd::prelude::*;
use vstd::string::StringSliceAdditionalSpecFns;
use volatile::Volatile;

verus! {

/// Number of rows of the character grid.
pub const BUFFER_HEIGHT: usize = 25;

/// Number of columns of the character grid.
pub const BUFFER_WIDTH: usize = 80;

/// The line-break byte.
pub const NEWLINE: u8 = 10;

/// The placeholder glyph stored for a byte the hardware font cannot
/// render meaningfully.
pub const PLACEHOLDER: u8 = 0xfe;

/// The sixteen colour selectors of the text-mode palette, each standing
/// for one fixed 4-bit code.
#[allow(dead_code)]
#[derive(Debug, Clone, Copy, PartialEq, Eq, Structural)]
pub enum Color {
    Black,
    Blue,
    Green,
    Cyan,
    Red,
    Magenta,
    Brown,
    LightGray,
    DarkGray,
    LightBlue,
    LightGreen,
    LightCyan,
    LightRed,
    Pink,
    Yellow,
    White,
}

impl Color {
    /// The 4-bit code of this selector.
    pub open spec fn spec_code(self) -> u8 {
        match self {
            Color::Black => 0,
            Color::Blue => 1,
            Color::Green => 2,
            Color::Cyan => 3,
            Color::Red => 4,
            Color::Magenta => 5,
            Color::Brown => 6,
            Color::LightGray => 7,
            Color::DarkGray => 8,
            Color::LightBlue => 9,
            Color::LightGreen => 10,
            Color::LightCyan => 11,
            Color::LightRed => 12,
            Color::Pink => 13,
            Color::Yellow => 14,
            Color::White => 15,
        }
    }

    /// Returns the 4-bit code of this selector.
    pub fn code(self) -> (r: u8)
        ensures
            r == self.spec_code(),
    {
        match self {
            Color::Black => 0,
            Color::Blue => 1,
            Color::Green => 2,
            Color::Cyan => 3,
            Color::Red => 4,
            Color::Magenta => 5,
            Color::Brown => 6,
            Color::LightGray => 7,
            Color::DarkGray => 8,
            Color::LightBlue => 9,
            Color::LightGreen => 10,
            Color::LightCyan => 11,
            Color::LightRed => 12,
            Color::Pink => 13,
            Color::Yellow => 14,
            Color::White => 15,
        }
    }
}

/// Every selector's code is a 4-bit value.
pub proof fn lemma_color_code_bounded(c: Color)
    ensures
        c.spec_code() < 16,
{
}

/// The encoding of selectors into 4-bit codes is injective: distinct
/// names never share a code, so the sixteen names and the sixteen codes
/// correspond one to one.
pub proof fn lemma_color_code_injective(c1: Color, c2: Color)
    requires
        c1.spec_code() == c2.spec_code(),
    ensures
        c1 == c2,
{
}

/// The selector named by a 4-bit code.
pub open spec fn color_of(code: u8) -> Color {
    if code == 0 {
        Color::Black
    } else if code == 1 {
        Color::Blue
    } else if code == 2 {
        Color::Green
    } else if code == 3 {
        Color::Cyan
    } else if code == 4 {
        Color::Red
    } else if code == 5 {
        Color::Magenta
    } else if code == 6 {
        Color::Brown
    } else if code == 7 {
        Color::LightGray
    } else if code == 8 {
        Color::DarkGray
    } else if code == 9 {
        Color::LightBlue
    } else if code == 10 {
        Color::LightGreen
    } else if code == 11 {
        Color::LightCyan
    } else if code == 12 {
        Color::LightRed
    } else if code == 13 {
        Color::Pink
    } else if code == 14 {
        Color::Yellow
    } else {
        Color::White
    }
}

/// The encoding of selectors is total and bijective: decoding inverts it
/// in both directions, so each of the sixteen names corresponds to
/// exactly one 4-bit code and each code to exactly one name.
pub proof fn lemma_color_code_bijective(c: Color, code: u8)
    requires
        code < 16,
    ensures
        color_of(c.spec_code()) == c,
        color_of(code).spec_code() == code,
{
}

/// A single attribute byte packing a 4-bit background colour code in the
/// high nibble over a 4-bit foreground colour code in the low nibble.
#[derive(Debug, Clone, Copy, PartialEq, Eq, Structural)]
pub struct ColorCode(u8);

/// The attribute byte composed from a foreground and a background
/// selector: background in the high nibble, foreground in the low nibble.
pub open spec fn spec_attribute(foreground: Color, background: Color) -> u8 {
    (background.spec_code() * 16 + foreground.spec_code()) as u8
}

impl ColorCode {
    /// The packed attribute byte.
    pub closed spec fn spec_byte(self) -> u8 {
        self.0
    }

    /// Packs a foreground and a background selector into one attribute
    /// byte; this is the sole construction path for `ColorCode`, so no
    /// other bit pattern is a legal output of the encoder.
    pub fn new(foreground: Color, background: Color) -> (r: ColorCode)
        ensures
            r.spec_byte() == spec_attribute(foreground, background),
    {
        let fg: u8 = foreground.code();
        let bg: u8 = background.code();
        proof {
            lemma_color_code_bounded(foreground);
            lemma_color_code_bounded(background);
            assert((bg << 4) | fg == bg * 16 + fg) by (bit_vector)
                requires
                    fg < 16 && bg < 16,
            ;
        }
        ColorCode((bg << 4) | fg)
    }

    /// Returns the packed attribute byte.
    pub fn byte(self) -> (r: u8)
        ensures
            r == self.spec_byte(),
    {
        self.0
    }
}

/// Decoding an attribute byte by the encoder's own formula is stable:
/// the high nibble recovers the background code and the low nibble the
/// foreground code, so re-encoding the recovered pair yields the same
/// byte again.
pub proof fn lemma_attribute_round_trip(foreground: Color, background: Color)
    ensures
        spec_attribute(foreground, background) >> 4 == background.spec_code(),
        spec_attribute(foreground, background) & 15 == foreground.spec_code(),
{
    let fg = foreground.spec_code();
    let bg = background.spec_code();
    lemma_color_code_bounded(foreground);
    lemma_color_code_bounded(background);
    assert(((bg * 16 + fg) as u8) >> 4 == bg && ((bg * 16 + fg) as u8) & 15 == fg) by (bit_vector)
        requires
            fg < 16 && bg < 16,
    ;
}

/// Two attribute values with the same packed byte are the same value:
/// together with the encoder's postcondition, re-encoding the same pair
/// of selectors always yields the same attribute.
pub proof fn lemma_color_code_determined(a: ColorCode, b: ColorCode)
    requires
        a.spec_byte() == b.spec_byte(),
    ensures
        a == b,
{
}

/// One display cell, exactly as the hardware stores it: the character
/// byte first, then the attribute byte.
#[derive(Debug, Clone, Copy, PartialEq, Eq, Structural)]
pub struct ScreenChar {
    pub ascii_character: u8,
    pub color_code: ColorCode,
}

/// The blank cell that clearing a row leaves behind: a space under the
/// given attribute.
pub open spec fn blank_cell(attribute: ColorCode) -> ScreenChar {
    ScreenChar { ascii_character: 0x20, color_code: attribute }
}

/// The cell that emitting byte `b` under the given attribute stores.
pub open spec fn glyph_cell(b: u8, attribute: ColorCode) -> ScreenChar {
    ScreenChar { ascii_character: b, color_code: attribute }
}

/// The volatile wrapper type of the `volatile` crate: a cell whose reads
/// and writes are guaranteed-visible memory accesses.
#[verifier::external_type_specification]
#[verifier::external_body]
#[verifier::reject_recursive_types(T)]
pub struct ExVolatile<T: Copy>(Volatile<T>);

/// The cell value currently stored in a volatile cell.
pub uninterp spec fn vol_cell(v: Volatile<ScreenChar>) -> ScreenChar;

/// Relies on `volatile::Volatile::new`: wraps the given value, which later
/// volatile reads return.
#[verifier::external_body]
fn vol_new(value: ScreenChar) -> (v: Volatile<ScreenChar>)
    ensures
        vol_cell(v) == value,
{
    Volatile::new(value)
}

/// Relies on `volatile::Volatile::read`: a volatile load that returns a
/// copy of the stored value and is never optimized away.
#[verifier::external_body]
fn vol_read(v: &Volatile<ScreenChar>) -> (r: ScreenChar)
    ensures
        r == vol_cell(*v),
{
    v.read()
}

/// Relies on `volatile::Volatile::write`: a volatile store of the given
/// value that is never optimized away.
#[verifier::external_body]
fn vol_write(v: &mut Volatile<ScreenChar>, value: ScreenChar)
    ensures
        vol_cell(*final(v)) == value,
{
    v.write(value)
}

/// Row-major cell indices are unique: a row and column pair is recovered
/// from its flat index.
proof fn lemma_index_injective(r1: int, c1: int, r2: int, c2: int)
    requires
        0 <= c1 < 80,
        0 <= c2 < 80,
        r1 * 80 + c1 == r2 * 80 + c2,
    ensures
        r1 == r2,
        c1 == c2,
{
    assert(r1 == r2 && c1 == c2) by (nonlinear_arith)
        requires
            0 <= c1 < 80,
            0 <= c2 < 80,
            r1 * 80 + c1 == r2 * 80 + c2,
    ;
}

/// The display surface: a fixed grid of 25 rows by 80 columns of volatile
/// cells, stored row-major, standing for the memory-mapped text buffer.
pub struct Buffer {
    chars: Vec<Volatile<ScreenChar>>,
}

impl Buffer {
    /// Well-formed: the grid holds exactly 25 * 80 cells.
    pub closed spec fn wf(&self) -> bool {
        self.chars@.len() == 2000
    }

    /// The cell stored at `row`, `col`.
    pub closed spec fn cell(&self, row: int, col: int) -> ScreenChar {
        vol_cell(self.chars@[row * 80 + col])
    }

    /// A fresh grid with every cell holding the given value.
    pub fn new_filled(value: ScreenChar) -> (b: Buffer)
        ensures
            b.wf(),
            forall|r: int, c: int|
                0 <= r < 25 && 0 <= c < 80 ==> b.cell(r, c) == value,
    {
        let mut chars: Vec<Volatile<ScreenChar>> = Vec::new();
        let mut i: usize = 0;
        while i < 2000
            invariant
                i <= 2000,
                chars@.len() == i,
                forall|j: int| 0 <= j < i ==> vol_cell(#[trigger] chars@[j]) == value,
            decreases 2000 - i,
        {
            chars.push(vol_new(value));
            i += 1;
        }
        let b = Buffer { chars };
        proof {
            assert forall|r: int, c: int| 0 <= r < 25 && 0 <= c < 80 implies b.cell(r, c)
                == value by {
                assert(0 <= r * 80 + c < 2000);
            }
        }
        b
    }

    /// Reads the cell at `row`, `col` with a guaranteed-visible load.
    pub fn read_cell(&self, row: usize, col: usize) -> (r: ScreenChar)
        requires
            self.wf(),
            row < 25,
            col < 80,
        ensures
            r == self.cell(row as int, col as int),
    {
        let idx: usize = row * 80 + col;
        vol_read(&self.chars[idx])
    }

    /// Writes the cell at `row`, `col` with a guaranteed-visible store,
    /// leaving every other cell unchanged.
    pub fn write_cell(&mut self, row: usize, col: usize, value: ScreenChar)
        requires
            old(self).wf(),
            row < 25,
            col < 80,
        ensures
            final(self).wf(),
            final(self).cell(row as int, col as int) == value,
            forall|r: int, c: int|
                0 <= r < 25 && 0 <= c < 80 && !(r == row && c == col)
                    ==> final(self).cell(r, c) == old(self).cell(r, c),
    {
        let idx: usize = row * 80 + col;
        vol_write(&mut self.chars[idx], value);
        proof {
            assert forall|r: int, c: int|
                0 <= r < 25 && 0 <= c < 80 && !(r == row && c == col) implies final(self).cell(
                r,
                c,
            ) == old(self).cell(r, c) by {
                if r * 80 + c == idx {
                    lemma_index_injective(r, c, row as int, col as int);
                }
            }
        }
    }
}

/// The abstract display state: the grid contents as 25 rows of 80 cells,
/// and the column where the next byte lands in the bottom row.
#[verifier::ext_equal]
pub struct ScreenState {
    pub grid: Seq<Seq<ScreenChar>>,
    pub column: int,
}

/// A row of 80 blank cells under the given attribute.
pub open spec fn blank_row(attribute: ColorCode) -> Seq<ScreenChar> {
    Seq::new(80, |c: int| blank_cell(attribute))
}

/// One line scrolled up: each row takes the contents of the row below it,
/// the bottom row becomes blank under the given attribute, and whatever
/// stood in the top row is discarded.
pub open spec fn scroll_grid(grid: Seq<Seq<ScreenChar>>, attribute: ColorCode) -> Seq<
    Seq<ScreenChar>,
> {
    Seq::new(25, |r: int| if r < 24 { grid[r + 1] } else { blank_row(attribute) })
}

/// The byte a string writer stores for `b`: printable ASCII and the line
/// break pass through, every other byte is replaced by the placeholder
/// glyph 0xfe, so the surface never holds a byte the hardware font cannot
/// render meaningfully.
pub open spec fn glyph_of(b: u8) -> u8 {
    if (0x20 <= b && b <= 0x7e) || b == 10 {
        b
    } else {
        0xfe
    }
}

/// One step of the writer on byte `b`: a line break scrolls and resets
/// the column; any other byte first scrolls if the bottom row is full,
/// then lands at the current column of the bottom row.
pub open spec fn emit_step(s: ScreenState, attribute: ColorCode, b: u8) -> ScreenState {
    if b == 10 {
        ScreenState { grid: scroll_grid(s.grid, attribute), column: 0 }
    } else {
        let grid = if s.column == 80 { scroll_grid(s.grid, attribute) } else { s.grid };
        let col = if s.column == 80 { 0int } else { s.column };
        ScreenState {
            grid: grid.update(24, grid[24].update(col, glyph_cell(b, attribute))),
            column: col + 1,
        }
    }
}

/// The writer run over a whole byte sequence, substituting the
/// placeholder glyph for unprintable bytes before each step.
pub open spec fn emit_bytes(s: ScreenState, attribute: ColorCode, bytes: Seq<u8>) -> ScreenState
    decreases bytes.len(),
{
    if bytes.len() == 0 {
        s
    } else {
        emit_step(emit_bytes(s, attribute, bytes.drop_last()), attribute, glyph_of(bytes.last()))
    }
}

/// The stateful display driver: tracks the column where the next byte
/// lands in the bottom row, the current attribute, and the display
/// surface it mutates in place.
pub struct Writer {
    column_position: usize,
    color_code: ColorCode,
    buffer: Buffer,
}

impl Writer {
    /// Well-formed: the surface has its full 25 x 80 shape and the column
    /// never passes one past the last cell of a row.
    pub closed spec fn wf(&self) -> bool {
        &&& self.buffer.wf()
        &&& self.column_position <= 80
    }

    /// The column where the next byte lands in the bottom row.
    pub closed spec fn column(&self) -> int {
        self.column_position as int
    }

    /// The attribute under which the writer stores cells.
    pub closed spec fn color(&self) -> ColorCode {
        self.color_code
    }

    /// The cell currently on the surface at `row`, `col`.
    pub closed spec fn cell(&self, row: int, col: int) -> ScreenChar {
        self.buffer.cell(row, col)
    }

    /// The abstract state of this writer: its grid contents and column.
    pub open spec fn state(&self) -> ScreenState {
        ScreenState {
            grid: Seq::new(25, |r: int| Seq::new(80, |c: int| self.cell(r, c))),
            column: self.column(),
        }
    }

    /// A fresh writer: column 0, green on black, over an all-blank
    /// surface.
    pub fn new() -> (w: Writer)
        ensures
            w.wf(),
            w.column() == 0,
            w.color().spec_byte() == spec_attribute(Color::Green, Color::Black),
            forall|r: int, c: int|
                0 <= r < 25 && 0 <= c < 80 ==> w.cell(r, c) == blank_cell(w.color()),
    {
        let color_code = ColorCode::new(Color::Green, Color::Black);
        let buffer = Buffer::new_filled(ScreenChar { ascii_character: 0x20, color_code });
        Writer { column_position: 0, color_code, buffer }
    }

    /// Reads the cell at `row`, `col` of the surface.
    pub fn read_cell(&self, row: usize, col: usize) -> (r: ScreenChar)
        requires
            self.wf(),
            row < 25,
            col < 80,
        ensures
            r == self.cell(row as int, col as int),
    {
        self.buffer.read_cell(row, col)
    }

    /// Returns the column where the next byte lands.
    pub fn column_position(&self) -> (r: usize)
        ensures
            r as int == self.column(),
    {
        self.column_position
    }

    /// Returns the current attribute.
    pub fn color_code(&self) -> (r: ColorCode)
        ensures
            r == self.color(),
    {
        self.color_code
    }

    /// Overwrites row `row` with blank cells under the current attribute.
    fn clear_row(&mut self, row: usize)
        requires
            old(self).wf(),
            row < 25,
        ensures
            final(self).wf(),
            final(self).column() == old(self).column(),
            final(self).color() == old(self).color(),
            forall|c: int|
                0 <= c < 80 ==> final(self).cell(row as int, c) == blank_cell(old(self).color()),
            forall|r: int, c: int|
                0 <= r < 25 && 0 <= c < 80 && r != row ==> final(self).cell(r, c) == old(
                    self,
                ).cell(r, c),
    {
        let blank = ScreenChar { ascii_character: 0x20, color_code: self.color_code };
        let ghost snap = *self;
        let mut col: usize = 0;
        while col < BUFFER_WIDTH
            invariant
                self.wf(),
                col <= 80,
                row < 25,
                blank == blank_cell(snap.color()),
                self.column_position == snap.column_position,
                self.color_code == snap.color_code,
                forall|c: int| 0 <= c < col ==> self.cell(row as int, c) == blank_cell(snap.color()),
                forall|r: int, c: int|
                    0 <= r < 25 && 0 <= c < 80 && !(r == row && c < col) ==> self.cell(r, c)
                        == snap.cell(r, c),
            decreases 80 - col,
        {
            let ghost mid = *self;
            self.buffer.write_cell(row, col, blank);
            proof {
                assert forall|c: int| 0 <= c < col + 1 implies self.cell(row as int, c)
                    == blank_cell(snap.color()) by {
                    if c < col {
                        assert(self.cell(row as int, c) == mid.cell(row as int, c));
                    }
                }
            }
            col += 1;
        }
    }

    /// Scrolls the surface one line up with guaranteed-visible reads and
    /// writes, blanks the bottom row, and resets the column: the one-line
    /// scroll-up discipline, under which the old top row is lost.
    fn new_line(&mut self)
        requires
            old(self).wf(),
        ensures
            final(self).wf(),
            final(self).column() == 0,
            final(self).color() == old(self).color(),
            forall|r: int, c: int|
                0 <= r < 24 && 0 <= c < 80 ==> final(self).cell(r, c) == old(self).cell(r + 1, c),
            forall|c: int|
                0 <= c < 80 ==> final(self).cell(24, c) == blank_cell(old(self).color()),
    {
        let ghost snap = *self;
        let mut row: usize = 1;
        while row < BUFFER_HEIGHT
            invariant
                self.wf(),
                1 <= row <= 25,
                self.column_position == snap.column_position,
                self.color_code == snap.color_code,
                forall|r: int, c: int|
                    0 <= r < row - 1 && 0 <= c < 80 ==> self.cell(r, c) == snap.cell(r + 1, c),
                forall|r: int, c: int|
                    row - 1 <= r < 25 && 0 <= c < 80 ==> self.cell(r, c) == snap.cell(r, c),
            decreases 25 - row,
        {
            let ghost mid = *self;
            let mut col: usize = 0;
            while col < BUFFER_WIDTH
                invariant
                    self.wf(),
                    1 <= row < 25,
                    col <= 80,
                    self.column_position == mid.column_position,
                    self.color_code == mid.color_code,
                    forall|c: int|
                        0 <= c < col ==> self.cell(row - 1, c) == mid.cell(row as int, c),
                    forall|r: int, c: int|
                        0 <= r < 25 && 0 <= c < 80 && !(r == row - 1 && c < col) ==> self.cell(r, c)
                            == mid.cell(r, c),
                decreases 80 - col,
            {
                let character = self.buffer.read_cell(row, col);
                self.buffer.write_cell(row - 1, col, character);
                col += 1;
            }
            proof {
                assert forall|r: int, c: int| 0 <= r < row && 0 <= c < 80 implies self.cell(r, c)
                    == snap.cell(r + 1, c) by {
                    if r < row - 1 {
                        assert(self.cell(r, c) == mid.cell(r, c));
                        assert(mid.cell(r, c) == snap.cell(r + 1, c));
                    } else {
                        assert(self.cell(r, c) == mid.cell(row as int, c));
                        assert(mid.cell(row as int, c) == snap.cell(row as int, c));
                    }
                }
                assert forall|r: int, c: int| row <= r < 25 && 0 <= c < 80 implies self.cell(r, c)
                    == snap.cell(r, c) by {
                    assert(self.cell(r, c) == mid.cell(r, c));
                }
            }
            row += 1;
        }
        let ghost done = *self;
        self.clear_row(BUFFER_HEIGHT - 1);
        proof {
            assert forall|r: int, c: int| 0 <= r < 24 && 0 <= c < 80 implies self.cell(r, c)
                == snap.cell(r + 1, c) by {
                assert(self.cell(r, c) == done.cell(r, c));
                assert(done.cell(r, c) == snap.cell(r + 1, c));
            }
        }
        let ghost shifted = *self;
        self.column_position = 0;
        proof {
            assert forall|r: int, c: int| 0 <= r < 24 && 0 <= c < 80 implies self.cell(r, c)
                == snap.cell(r + 1, c) by {
                assert(self.cell(r, c) == shifted.cell(r, c));
            }
            assert forall|c: int| 0 <= c < 80 implies self.cell(24, c) == blank_cell(
                snap.color(),
            ) by {
                assert(self.cell(24, c) == shifted.cell(24, c));
            }
        }
    }
}

impl Writer {
    /// Emits one byte. A line break scrolls one line and resets the
    /// column; any other byte lands at the current column of the bottom
    /// row under the current attribute, after first wrapping through
    /// exactly one scroll when the row is full.
    pub fn write_byte(&mut self, byte: u8)
        requires
            old(self).wf(),
        ensures
            final(self).wf(),
            final(self).color() == old(self).color(),
            final(self).state() =~~= emit_step(old(self).state(), old(self).color(), byte),
    {
        let ghost s0 = old(self).state();
        let ghost cc = old(self).color();
        if byte == NEWLINE {
            self.new_line();
            proof {
                let t = emit_step(s0, cc, byte);
                assert forall|r: int, c: int| 0 <= r < 25 && 0 <= c < 80 implies self.cell(r, c)
                    == #[trigger] t.grid[r][c] by {
                    if r < 24 {
                        assert(t.grid[r][c] == s0.grid[r + 1][c]);
                        assert(s0.grid[r + 1][c] == old(self).cell(r + 1, c));
                    } else {
                        assert(t.grid[r][c] == blank_cell(cc));
                    }
                }
                assert forall|r: int| 0 <= r < 25 implies (#[trigger] t.grid[r]).len() == 80 by {
                    if r < 24 {
                        assert(t.grid[r] == s0.grid[r + 1]);
                    }
                }
                lemma_state_eq(*self, t);
            }
        } else {
            if self.column_position >= BUFFER_WIDTH {
                self.new_line();
            }
            let ghost pre = *self;
            let col = self.column_position;
            let color_code = self.color_code;
            self.buffer.write_cell(BUFFER_HEIGHT - 1, col, ScreenChar { ascii_character: byte, color_code });
            let ghost put = *self;
            self.column_position = col + 1;
            proof {
                let t = emit_step(s0, cc, byte);
                let grid_mid = if s0.column == 80 {
                    scroll_grid(s0.grid, cc)
                } else {
                    s0.grid
                };
                assert forall|r: int, c: int| 0 <= r < 25 && 0 <= c < 80 implies pre.cell(r, c)
                    == #[trigger] grid_mid[r][c] by {
                    if s0.column == 80 {
                        if r < 24 {
                            assert(grid_mid[r][c] == s0.grid[r + 1][c]);
                            assert(s0.grid[r + 1][c] == old(self).cell(r + 1, c));
                        } else {
                            assert(grid_mid[r][c] == blank_cell(cc));
                        }
                    } else {
                        assert(grid_mid[r][c] == old(self).cell(r, c));
                    }
                }
                assert forall|r: int, c: int| 0 <= r < 25 && 0 <= c < 80 implies self.cell(r, c)
                    == #[trigger] t.grid[r][c] by {
                    assert(self.cell(r, c) == put.cell(r, c));
                    assert(grid_mid[r].len() == 80);
                    if r == 24 && c == col {
                        assert(t.grid[24][c] == glyph_cell(byte, cc));
                    } else {
                        assert(put.cell(r, c) == pre.cell(r, c));
                        assert(t.grid[r][c] == grid_mid[r][c]);
                    }
                }
                assert forall|r: int| 0 <= r < 25 implies (#[trigger] t.grid[r]).len() == 80 by {
                    assert(grid_mid[r].len() == 80);
                }
                lemma_state_eq(*self, t);
            }
        }
    }
}

impl Writer {
    /// Emits each byte of `s` in order through `write_byte`, first
    /// substituting the placeholder glyph for every byte that is neither
    /// printable ASCII nor the line break.
    pub fn write_string(&mut self, s: &str)
        requires
            old(self).wf(),
        ensures
            final(self).wf(),
            final(self).color() == old(self).color(),
            final(self).state() =~~= emit_bytes(
                old(self).state(),
                old(self).color(),
                s.spec_bytes(),
            ),
    {
        let bytes: &[u8] = s.as_bytes();
        let ghost s0 = old(self).state();
        let ghost cc = old(self).color();
        let mut i: usize = 0;
        while i < bytes.len()
            invariant
                self.wf(),
                self.color() == cc,
                i <= bytes@.len(),
                bytes@ == s.spec_bytes(),
                self.state() =~~= emit_bytes(s0, cc, bytes@.take(i as int)),
            decreases bytes@.len() - i,
        {
            let byte = bytes[i];
            let ghost prev = self.state();
            if (0x20 <= byte && byte <= 0x7e) || byte == NEWLINE {
                self.write_byte(byte);
            } else {
                self.write_byte(PLACEHOLDER);
            }
            proof {
                let taken = bytes@.take(i + 1);
                assert(taken.drop_last() =~= bytes@.take(i as int));
                assert(taken.last() == bytes@[i as int]);
                assert(prev == emit_bytes(s0, cc, bytes@.take(i as int)));
                assert(self.state() == emit_step(prev, cc, glyph_of(bytes@[i as int])));
                assert(self.state() =~~= emit_bytes(s0, cc, taken));
            }
            i += 1;
        }
        proof {
            assert(bytes@.take(bytes@.len() as int) =~= bytes@);
        }
    }
}

/// Placement law: a byte other than the line break, emitted while the
/// bottom row is not full, lands at the invoked column of the bottom row
/// under the given attribute and advances the column by one; every other
/// cell keeps its content.
pub proof fn lemma_emit_places(s: ScreenState, attribute: ColorCode, b: u8)
    requires
        b != NEWLINE,
        0 <= s.column < 80,
        s.grid.len() == 25,
        forall|r: int| 0 <= r < 25 ==> (#[trigger] s.grid[r]).len() == 80,
    ensures
        emit_step(s, attribute, b).column == s.column + 1,
        emit_step(s, attribute, b).grid[24][s.column] == glyph_cell(b, attribute),
        forall|r: int, c: int|
            0 <= r < 25 && 0 <= c < 80 && !(r == 24 && c == s.column) ==> emit_step(
                s,
                attribute,
                b,
            ).grid[r][c] == s.grid[r][c],
{
}

/// Scroll law: on the line break every row takes the content that stood
/// one row below it, the bottom row becomes entirely blank under the
/// given attribute, the old top row's content is discarded, and the
/// column resets to 0.
pub proof fn lemma_emit_line_break(s: ScreenState, attribute: ColorCode)
    ensures
        emit_step(s, attribute, NEWLINE).column == 0,
        forall|r: int, c: int|
            1 <= r < 25 && 0 <= c < 80 ==> emit_step(s, attribute, NEWLINE).grid[r - 1][c]
                == s.grid[r][c],
        forall|c: int|
            0 <= c < 80 ==> emit_step(s, attribute, NEWLINE).grid[24][c] == blank_cell(attribute),
{
    assert forall|r: int, c: int| 1 <= r < 25 && 0 <= c < 80 implies emit_step(
        s,
        attribute,
        NEWLINE,
    ).grid[r - 1][c] == s.grid[r][c] by {
        assert(emit_step(s, attribute, NEWLINE).grid[r - 1] == scroll_grid(s.grid, attribute)[r
            - 1]);
    }
}

/// Wrap law: a byte other than the line break, emitted while the bottom
/// row is full, triggers exactly one scroll and then lands at column 0 of
/// the new bottom row: the rows above shift up once, the rest of the new
/// bottom row is blank, and the column ends at 1.
pub proof fn lemma_emit_wraps(s: ScreenState, attribute: ColorCode, b: u8)
    requires
        b != NEWLINE,
        s.column == 80,
        s.grid.len() == 25,
        forall|r: int| 0 <= r < 25 ==> (#[trigger] s.grid[r]).len() == 80,
    ensures
        emit_step(s, attribute, b).column == 1,
        emit_step(s, attribute, b).grid[24][0] == glyph_cell(b, attribute),
        forall|c: int|
            1 <= c < 80 ==> emit_step(s, attribute, b).grid[24][c] == blank_cell(attribute),
        forall|r: int, c: int|
            0 <= r < 24 && 0 <= c < 80 ==> emit_step(s, attribute, b).grid[r][c] == s.grid[r + 1][c],
{
}

/// Every step of the writer keeps the grid's 25 x 80 shape.
pub proof fn lemma_emit_step_shape(s: ScreenState, attribute: ColorCode, b: u8)
    requires
        0 <= s.column <= 80,
        s.grid.len() == 25,
        forall|r: int| 0 <= r < 25 ==> (#[trigger] s.grid[r]).len() == 80,
    ensures
        emit_step(s, attribute, b).grid.len() == 25,
        forall|r: int| 0 <= r < 25 ==> (#[trigger] emit_step(s, attribute, b).grid[r]).len() == 80,
{
    let grid_mid = if s.column == 80 {
        scroll_grid(s.grid, attribute)
    } else {
        s.grid
    };
    assert forall|r: int| 0 <= r < 25 implies (#[trigger] grid_mid[r]).len() == 80 by {
        if s.column == 80 && r < 24 {
            assert(grid_mid[r] == s.grid[r + 1]);
        }
    }
    assert forall|r: int| 0 <= r < 25 implies (#[trigger] emit_step(s, attribute, b).grid[r]).len()
        == 80 by {
        if b == 10 {
            if r < 24 {
                assert(emit_step(s, attribute, b).grid[r] == s.grid[r + 1]);
            } else {
                assert(emit_step(s, attribute, b).grid[r] == blank_row(attribute));
            }
        } else {
            assert(grid_mid[r].len() == 80);
            if r == 24 {
                assert(emit_step(s, attribute, b).grid[24].len() == grid_mid[24].len());
            } else {
                assert(emit_step(s, attribute, b).grid[r] == grid_mid[r]);
            }
        }
    }
}

/// Column invariant: starting within bounds, every step leaves the
/// column within 0..=80, and it is 0 exactly after a line break.
pub proof fn lemma_emit_step_column(s: ScreenState, attribute: ColorCode, b: u8)
    requires
        0 <= s.column <= 80,
    ensures
        0 <= emit_step(s, attribute, b).column <= 80,
        b == NEWLINE ==> emit_step(s, attribute, b).column == 0,
        b != NEWLINE ==> emit_step(s, attribute, b).column >= 1,
{
}

/// Shape and column invariant over whole runs: a writer that starts with
/// the 25 x 80 grid and a column within bounds keeps both through any
/// byte sequence.
pub proof fn lemma_emit_bytes_shape(s: ScreenState, attribute: ColorCode, bytes: Seq<u8>)
    requires
        0 <= s.column <= 80,
        s.grid.len() == 25,
        forall|r: int| 0 <= r < 25 ==> (#[trigger] s.grid[r]).len() == 80,
    ensures
        0 <= emit_bytes(s, attribute, bytes).column <= 80,
        emit_bytes(s, attribute, bytes).grid.len() == 25,
        forall|r: int|
            0 <= r < 25 ==> (#[trigger] emit_bytes(s, attribute, bytes).grid[r]).len() == 80,
    decreases bytes.len(),
{
    if bytes.len() > 0 {
        lemma_emit_bytes_shape(s, attribute, bytes.drop_last());
        let mid = emit_bytes(s, attribute, bytes.drop_last());
        lemma_emit_step_shape(mid, attribute, glyph_of(bytes.last()));
        lemma_emit_step_column(mid, attribute, glyph_of(bytes.last()));
    }
}

/// Filling law: a run of bytes other than the line break that fits in
/// what is left of the bottom row lands there contiguously from the
/// invoked column — each byte as its glyph under the given attribute —
/// advances the column by the run's length, and changes no other cell:
/// in particular, no scroll happens.
pub proof fn lemma_emit_fills_row(s: ScreenState, attribute: ColorCode, bytes: Seq<u8>)
    requires
        0 <= s.column,
        s.column + bytes.len() <= 80,
        s.grid.len() == 25,
        forall|r: int| 0 <= r < 25 ==> (#[trigger] s.grid[r]).len() == 80,
        forall|i: int| 0 <= i < bytes.len() ==> bytes[i] != NEWLINE,
    ensures
        emit_bytes(s, attribute, bytes).column == s.column + bytes.len(),
        emit_bytes(s, attribute, bytes).grid.len() == 25,
        forall|r: int|
            0 <= r < 25 ==> (#[trigger] emit_bytes(s, attribute, bytes).grid[r]).len() == 80,
        forall|i: int|
            0 <= i < bytes.len() ==> emit_bytes(s, attribute, bytes).grid[24][s.column + i]
                == glyph_cell(glyph_of(bytes[i]), attribute),
        forall|r: int, c: int|
            0 <= r < 25 && 0 <= c < 80 && !(r == 24 && s.column <= c < s.column + bytes.len())
                ==> emit_bytes(s, attribute, bytes).grid[r][c] == s.grid[r][c],
    decreases bytes.len(),
{
    if bytes.len() == 0 {
    } else {
        let n = bytes.len() as int;
        let head = bytes.drop_last();
        lemma_emit_fills_row(s, attribute, head);
        let mid = emit_bytes(s, attribute, head);
        let g = glyph_of(bytes.last());
        lemma_emit_places(mid, attribute, g);
        let post = emit_bytes(s, attribute, bytes);
        assert(post == emit_step(mid, attribute, g));
        assert forall|i: int| 0 <= i < n implies post.grid[24][s.column + i] == glyph_cell(
            glyph_of(bytes[i]),
            attribute,
        ) by {
            if i < n - 1 {
                assert(post.grid[24][s.column + i] == mid.grid[24][s.column + i]);
                assert(mid.grid[24][s.column + i] == glyph_cell(glyph_of(head[i]), attribute));
            }
        }
        assert forall|r: int, c: int|
            0 <= r < 25 && 0 <= c < 80 && !(r == 24 && s.column <= c < s.column + n) implies
            post.grid[r][c] == s.grid[r][c] by {
            assert(post.grid[r][c] == mid.grid[r][c]);
            assert(mid.grid[r][c] == s.grid[r][c]);
        }
        assert forall|r: int| 0 <= r < 25 implies (#[trigger] post.grid[r]).len() == 80 by {
            lemma_emit_step_shape(mid, attribute, g);
        }
    }
}

/// Sequencing law: writing two byte sequences one after the other leaves
/// the writer in the same state as writing their concatenation. Two
/// serialized calls therefore have exactly the effect of one combined
/// call, with nothing interleaved between their bytes.
pub proof fn lemma_emit_bytes_append(s: ScreenState, attribute: ColorCode, b1: Seq<u8>, b2: Seq<u8>)
    ensures
        emit_bytes(emit_bytes(s, attribute, b1), attribute, b2) == emit_bytes(
            s,
            attribute,
            b1 + b2,
        ),
    decreases b2.len(),
{
    if b2.len() == 0 {
        assert(b1 + b2 =~= b1);
    } else {
        lemma_emit_bytes_append(s, attribute, b1, b2.drop_last());
        assert((b1 + b2).drop_last() =~= b1 + b2.drop_last());
        assert((b1 + b2).last() == b2.last());
    }
}

/// Substitution law: printable ASCII bytes and the line break pass to the
/// surface unchanged; every byte outside that range is replaced by the
/// placeholder glyph before emission.
pub proof fn lemma_substitution(b: u8)
    ensures
        ((0x20 <= b && b <= 0x7e) || b == NEWLINE) ==> glyph_of(b) == b,
        !((0x20 <= b && b <= 0x7e) || b == NEWLINE) ==> glyph_of(b) == PLACEHOLDER,
{
}

/// For a byte outside the printable range and not the line break, one
/// string-writer step stores the placeholder glyph at the invoked
/// column, not the byte itself.
pub proof fn lemma_placeholder_stored(s: ScreenState, attribute: ColorCode, b: u8)
    requires
        !(0x20 <= b && b <= 0x7e),
        b != NEWLINE,
        0 <= s.column < 80,
        s.grid.len() == 25,
        forall|r: int| 0 <= r < 25 ==> (#[trigger] s.grid[r]).len() == 80,
    ensures
        emit_bytes(s, attribute, seq![b]).grid[24][s.column] == glyph_cell(PLACEHOLDER, attribute),
{
    let empty = Seq::<u8>::empty();
    assert(seq![b].drop_last() =~= empty);
    assert(emit_bytes(s, attribute, empty) == s);
    assert(seq![b].last() == b);
    assert(emit_bytes(s, attribute, seq![b]) == emit_step(s, attribute, glyph_of(b)));
    lemma_emit_places(s, attribute, PLACEHOLDER);
}

/// A writer whose cells and column agree pointwise with an abstract
/// state has that state.
proof fn lemma_state_eq(w: Writer, t: ScreenState)
    requires
        t.grid.len() == 25,
        forall|r: int| 0 <= r < 25 ==> (#[trigger] t.grid[r]).len() == 80,
        forall|r: int, c: int| 0 <= r < 25 && 0 <= c < 80 ==> w.cell(r, c) == #[trigger] t.grid[r][c],
        w.column() == t.column,
    ensures
        w.state() =~~= t,
{
    assert forall|r: int| 0 <= r < 25 implies w.state().grid[r] =~= t.grid[r] by {
        assert forall|c: int| 0 <= c < 80 implies w.state().grid[r][c] == t.grid[r][c] by {
            assert(w.state().grid[r][c] == w.cell(r, c));
        }
    }
    assert(w.state().grid =~~= t.grid);
}

} // verus!
