//! The display grid and the screen writer.
//!
//! The grid models the fixed 80x25 text-mode display region: a 2D array of
//! character cells, each a character byte paired with a color attribute,
//! laid out two bytes per cell exactly as the hardware expects. The writer
//! owns a cursor column and a current color and appends characters to the
//! last row, scrolling every earlier row up by one when a line completes.
//!
//! The hardware region itself lives at a fixed physical address and must be
//! accessed through volatile reads and writes; that access, and the mirror
//! of this grid into it, belong to the surrounding application. Here the
//! grid is held in ordinary memory so every write is verified against the
//! model below.

use vstd::prelude::*;
use vstd::string::*;

use crate::color::Color;
use crate::color::ColorCode;

verus! {

/// Number of character cells in one display row.
pub const BUFFER_WIDTH: usize = 80;

/// Number of display rows.
pub const BUFFER_HEIGHT: usize = 25;

/// The byte that triggers a line break instead of being displayed.
pub const NEWLINE_BYTE: u8 = 0x0A;

/// The glyph substituted for bytes the hardware font cannot render.
pub const PLACEHOLDER_GLYPH: u8 = 0xFE;

/// The blank character written when a row is cleared.
pub const SPACE_BYTE: u8 = 0x20;

/// One display cell: a character byte and its color attribute, matching the
/// hardware's two-byte cell format (byte 0 the character, byte 1 the
/// attribute).
#[derive(Debug, Clone, Copy, PartialEq, Eq, Structural)]
pub struct ScreenChar {
    pub ascii_char: u8,
    pub color: ColorCode,
}

/// A grid value is well formed when it has exactly `BUFFER_HEIGHT` rows of
/// `BUFFER_WIDTH` cells each.
pub open spec fn grid_wf(g: Seq<Seq<ScreenChar>>) -> bool {
    &&& g.len() == BUFFER_HEIGHT
    &&& forall|r: int| 0 <= r < g.len() ==> (#[trigger] g[r]).len() == BUFFER_WIDTH
}

/// A full row of blank (space) cells in the given color.
pub open spec fn blank_row(color: ColorCode) -> Seq<ScreenChar> {
    Seq::new(BUFFER_WIDTH as nat, |c: int| ScreenChar { ascii_char: SPACE_BYTE, color })
}

/// A whole grid of blank cells in the given color.
pub open spec fn blank_grid(color: ColorCode) -> Seq<Seq<ScreenChar>> {
    Seq::new(BUFFER_HEIGHT as nat, |r: int| blank_row(color))
}

/// The grid after one scroll: every row moves up one place and the last row
/// becomes blank in the given color.
pub open spec fn scrolled(g: Seq<Seq<ScreenChar>>, color: ColorCode) -> Seq<Seq<ScreenChar>> {
    g.subrange(1, BUFFER_HEIGHT as int).push(blank_row(color))
}

/// The grid after writing one cell at column `col` of the last row.
pub open spec fn written(g: Seq<Seq<ScreenChar>>, col: int, b: u8, color: ColorCode) -> Seq<
    Seq<ScreenChar>,
> {
    g.update(
        BUFFER_HEIGHT as int - 1,
        g[BUFFER_HEIGHT as int - 1].update(col, ScreenChar { ascii_char: b, color }),
    )
}

/// The fixed 80x25 array of display cells.
///
/// Stored row-major, one `ScreenChar` per cell, and viewed as a sequence of
/// rows. In the running system the same layout sits in the memory-mapped
/// display region; the application mirrors this grid into it with volatile
/// writes.
pub struct Buffer {
    chars: Vec<ScreenChar>,
}

impl View for Buffer {
    type V = Seq<Seq<ScreenChar>>;

    closed spec fn view(&self) -> Seq<Seq<ScreenChar>> {
        Seq::new(
            BUFFER_HEIGHT as nat,
            |r: int|
                Seq::new(
                    BUFFER_WIDTH as nat,
                    |c: int| self.chars@[r * (BUFFER_WIDTH as int) + c],
                ),
        )
    }
}

/// Two distinct (row, column) pairs always name two distinct cells of the
/// row-major backing store.
proof fn lemma_cell_index_injective(r1: int, c1: int, r2: int, c2: int)
    requires
        0 <= c1 < BUFFER_WIDTH,
        0 <= c2 < BUFFER_WIDTH,
        r1 * (BUFFER_WIDTH as int) + c1 == r2 * (BUFFER_WIDTH as int) + c2,
    ensures
        r1 == r2,
        c1 == c2,
{
    assert(r1 == r2 && c1 == c2) by (nonlinear_arith)
        requires
            0 <= c1 < 80,
            0 <= c2 < 80,
            r1 * 80 + c1 == r2 * 80 + c2,
    ;
}

impl Buffer {
    /// The backing store holds exactly one cell per grid position.
    pub closed spec fn wf(&self) -> bool {
        self.chars@.len() == BUFFER_HEIGHT * BUFFER_WIDTH
    }

    /// The view of a buffer always has the full grid shape.
    pub proof fn lemma_view_wf(&self)
        ensures
            grid_wf(self@),
    {
    }

    /// A fresh grid with every cell equal to `fill`.
    pub fn new(fill: ScreenChar) -> (b: Buffer)
        ensures
            b.wf(),
            forall|r: int, c: int|
                0 <= r < BUFFER_HEIGHT && 0 <= c < BUFFER_WIDTH ==> b@[r][c] == fill,
    {
        let mut chars: Vec<ScreenChar> = Vec::new();
        let mut i: usize = 0;
        while i < BUFFER_HEIGHT * BUFFER_WIDTH
            invariant
                i <= BUFFER_HEIGHT * BUFFER_WIDTH,
                chars@.len() == i,
                forall|j: int| 0 <= j < i ==> chars@[j] == fill,
            decreases BUFFER_HEIGHT * BUFFER_WIDTH - i,
        {
            chars.push(fill);
            i = i + 1;
        }
        Buffer { chars }
    }

    /// Reads the cell at `row`, `col`.
    pub fn char_at(&self, row: usize, col: usize) -> (ch: ScreenChar)
        requires
            self.wf(),
            row < BUFFER_HEIGHT,
            col < BUFFER_WIDTH,
        ensures
            ch == self@[row as int][col as int],
    {
        self.chars[row * BUFFER_WIDTH + col]
    }

    /// Writes `ch` into the cell at `row`, `col`; every other cell keeps its
    /// value.
    pub fn write_cell(&mut self, row: usize, col: usize, ch: ScreenChar)
        requires
            old(self).wf(),
            row < BUFFER_HEIGHT,
            col < BUFFER_WIDTH,
        ensures
            final(self).wf(),
            final(self)@ == old(self)@.update(
                row as int,
                old(self)@[row as int].update(col as int, ch),
            ),
    {
        let idx: usize = row * BUFFER_WIDTH + col;
        self.chars.set(idx, ch);
        proof {
            let expected = old(self)@.update(
                row as int,
                old(self)@[row as int].update(col as int, ch),
            );
            assert forall|r: int| 0 <= r < BUFFER_HEIGHT implies self@[r] =~= expected[r] by {
                assert forall|c: int| 0 <= c < BUFFER_WIDTH implies self@[r][c] == expected[r][c] by {
                    if r * (BUFFER_WIDTH as int) + c == idx {
                        lemma_cell_index_injective(r, c, row as int, col as int);
                    }
                }
            }
            assert(self@ =~= expected);
        }
    }
}

/// The abstract state of a screen writer: the grid contents, the cursor
/// column, and the current color.
#[verifier::ext_equal]
pub struct WriterModel {
    pub grid: Seq<Seq<ScreenChar>>,
    pub col: int,
    pub color: ColorCode,
}

/// A writer model is well formed when its grid has the display shape and
/// its cursor sits between column 0 and `BUFFER_WIDTH` inclusive (the
/// position one past a full line, resolved by the next write).
pub open spec fn model_wf(m: WriterModel) -> bool {
    &&& grid_wf(m.grid)
    &&& 0 <= m.col <= BUFFER_WIDTH
}

/// Whether `b` is in the printable range the display font renders directly.
pub open spec fn printable(b: u8) -> bool {
    0x20 <= b <= 0x7E
}

/// The byte actually written for an input byte of a string: printable bytes
/// and newlines pass through, everything else becomes the placeholder glyph.
pub open spec fn subst(b: u8) -> u8 {
    if printable(b) || b == NEWLINE_BYTE {
        b
    } else {
        PLACEHOLDER_GLYPH
    }
}

/// The writer state after one byte is appended: a newline scrolls; a byte
/// at a full line scrolls first and lands in column 0; any other byte lands
/// at the cursor, which advances.
pub open spec fn wb_spec(m: WriterModel, b: u8) -> WriterModel {
    if b == NEWLINE_BYTE {
        WriterModel { grid: scrolled(m.grid, m.color), col: 0, color: m.color }
    } else if m.col >= BUFFER_WIDTH {
        WriterModel {
            grid: written(scrolled(m.grid, m.color), 0, b, m.color),
            col: 1,
            color: m.color,
        }
    } else {
        WriterModel { grid: written(m.grid, m.col, b, m.color), col: m.col + 1, color: m.color }
    }
}

/// The writer state after a whole byte sequence is appended, each byte
/// substituted by [`subst`] first.
pub open spec fn ws_spec(m: WriterModel, bytes: Seq<u8>) -> WriterModel
    decreases bytes.len(),
{
    if bytes.len() == 0 {
        m
    } else {
        ws_spec(wb_spec(m, subst(bytes[0])), bytes.drop_first())
    }
}

/// Appending one more byte steps the state once more.
pub proof fn lemma_ws_snoc(m: WriterModel, bytes: Seq<u8>, b: u8)
    ensures
        ws_spec(m, bytes.push(b)) == wb_spec(ws_spec(m, bytes), subst(b)),
    decreases bytes.len(),
{
    if bytes.len() == 0 {
        assert(bytes.push(b)[0] == b);
        assert(bytes.push(b).drop_first() =~= Seq::<u8>::empty());
        assert(ws_spec(wb_spec(m, subst(b)), Seq::<u8>::empty()) == wb_spec(m, subst(b)));
    } else {
        assert(bytes.push(b)[0] == bytes[0]);
        assert(bytes.push(b).drop_first() =~= bytes.drop_first().push(b));
        assert(ws_spec(m, bytes) == ws_spec(wb_spec(m, subst(bytes[0])), bytes.drop_first()));
        lemma_ws_snoc(wb_spec(m, subst(bytes[0])), bytes.drop_first(), b);
    }
}

/// Appending a concatenation is appending one part after the other.
pub proof fn lemma_ws_append(m: WriterModel, a: Seq<u8>, b: Seq<u8>)
    ensures
        ws_spec(m, a + b) == ws_spec(ws_spec(m, a), b),
    decreases a.len(),
{
    if a.len() == 0 {
        assert(a + b =~= b);
    } else {
        assert((a + b)[0] == a[0]);
        assert((a + b).drop_first() =~= a.drop_first() + b);
        assert(ws_spec(m, a) == ws_spec(wb_spec(m, subst(a[0])), a.drop_first()));
        lemma_ws_append(wb_spec(m, subst(a[0])), a.drop_first(), b);
    }
}

/// Stepping the writer preserves well-formedness.
pub proof fn lemma_wb_wf(m: WriterModel, b: u8)
    requires
        model_wf(m),
    ensures
        model_wf(wb_spec(m, b)),
        wb_spec(m, b).color == m.color,
{
}

/// Appending any byte sequence preserves well-formedness and the color.
pub proof fn lemma_ws_wf(m: WriterModel, bytes: Seq<u8>)
    requires
        model_wf(m),
    ensures
        model_wf(ws_spec(m, bytes)),
        ws_spec(m, bytes).color == m.color,
    decreases bytes.len(),
{
    if bytes.len() > 0 {
        lemma_wb_wf(m, subst(bytes[0]));
        lemma_ws_wf(wb_spec(m, subst(bytes[0])), bytes.drop_first());
    }
}

/// The cells that render a byte sequence in one color.
pub open spec fn cells_of(bytes: Seq<u8>, color: ColorCode) -> Seq<ScreenChar> {
    Seq::new(bytes.len(), |i: int| ScreenChar { ascii_char: bytes[i], color })
}

/// Scrolling preserves row ordering and content: every row's contents move
/// to the row above, and the freed last row is entirely blank in the given
/// color.
pub proof fn lemma_scroll_preserves_rows(g: Seq<Seq<ScreenChar>>, color: ColorCode)
    requires
        grid_wf(g),
    ensures
        grid_wf(scrolled(g, color)),
        forall|r: int| 1 <= r < BUFFER_HEIGHT ==> scrolled(g, color)[r - 1] == #[trigger] g[r],
        scrolled(g, color)[BUFFER_HEIGHT as int - 1] == blank_row(color),
        forall|c: int|
            0 <= c < BUFFER_WIDTH ==> #[trigger] blank_row(color)[c] == (ScreenChar {
                ascii_char: SPACE_BYTE,
                color,
            }),
{
    assert forall|r: int| 1 <= r < BUFFER_HEIGHT implies scrolled(g, color)[r - 1] == g[r] by {
        assert(scrolled(g, color)[r - 1] == g.subrange(1, BUFFER_HEIGHT as int)[r - 1]);
    }
}

/// Writing a run of printable bytes that fits on the remainder of the line
/// appends exactly those bytes, as cells in the current color, after the
/// cursor on the last row; everything else on screen is untouched and the
/// cursor advances past the run.
pub proof fn lemma_printable_run(m: WriterModel, bytes: Seq<u8>)
    requires
        model_wf(m),
        m.col + bytes.len() <= BUFFER_WIDTH,
        forall|i: int| 0 <= i < bytes.len() ==> printable(#[trigger] bytes[i]),
    ensures
        model_wf(ws_spec(m, bytes)),
        ws_spec(m, bytes).color == m.color,
        ws_spec(m, bytes).col == m.col + bytes.len(),
        forall|r: int|
            0 <= r < BUFFER_HEIGHT as int - 1 ==> #[trigger] ws_spec(m, bytes).grid[r]
                == m.grid[r],
        ws_spec(m, bytes).grid[BUFFER_HEIGHT as int - 1] == m.grid[BUFFER_HEIGHT as int - 1].take(
            m.col,
        ) + cells_of(bytes, m.color) + m.grid[BUFFER_HEIGHT as int - 1].skip(m.col + bytes.len()),
    decreases bytes.len(),
{
    let last = BUFFER_HEIGHT as int - 1;
    if bytes.len() == 0 {
        assert(cells_of(bytes, m.color) =~= Seq::<ScreenChar>::empty());
        assert(m.grid[last].take(m.col) + cells_of(bytes, m.color) + m.grid[last].skip(m.col)
            =~= m.grid[last]);
    } else {
        let b = bytes[0];
        let rest = bytes.drop_first();
        assert(subst(b) == b);
        let m1 = wb_spec(m, b);
        assert(ws_spec(m, bytes) == ws_spec(m1, rest));
        assert(m1.grid == written(m.grid, m.col, b, m.color));
        assert forall|i: int| 0 <= i < rest.len() implies printable(#[trigger] rest[i]) by {
            assert(rest[i] == bytes[i + 1]);
        }
        lemma_printable_run(m1, rest);
        let cell = ScreenChar { ascii_char: b, color: m.color };
        assert forall|r: int|
            0 <= r < BUFFER_HEIGHT as int - 1 implies #[trigger] ws_spec(m, bytes).grid[r]
            == m.grid[r] by {
            assert(ws_spec(m1, rest).grid[r] == m1.grid[r]);
            assert(m1.grid[r] == m.grid[r]);
        }
        assert(m1.grid[last] == m.grid[last].update(m.col, cell));
        assert(m1.grid[last].take(m.col + 1) =~= m.grid[last].take(m.col) + seq![cell]);
        assert(m1.grid[last].skip(m.col + 1 + rest.len()) =~= m.grid[last].skip(
            m.col + bytes.len(),
        ));
        assert(cells_of(bytes, m.color) =~= seq![cell] + cells_of(rest, m.color));
        assert(ws_spec(m, bytes).grid[last] == m1.grid[last].take(m.col + 1) + cells_of(
            rest,
            m.color,
        ) + m1.grid[last].skip(m.col + 1 + rest.len()));
        assert(m.grid[last].take(m.col) + seq![cell] + cells_of(rest, m.color) + m.grid[last].skip(
            m.col + bytes.len(),
        ) =~= m.grid[last].take(m.col) + cells_of(bytes, m.color) + m.grid[last].skip(
            m.col + bytes.len(),
        ));
    }
}

/// Writing a printable string shorter than the line width, starting at
/// column 0, leaves exactly those characters at columns 0..len-1 of the
/// last row, each tagged with the writer's color at the time of the write.
pub proof fn lemma_short_line_readback(m: WriterModel, bytes: Seq<u8>)
    requires
        model_wf(m),
        m.col == 0,
        bytes.len() < BUFFER_WIDTH,
        forall|i: int| 0 <= i < bytes.len() ==> printable(#[trigger] bytes[i]),
    ensures
        ws_spec(m, bytes).color == m.color,
        ws_spec(m, bytes).col == bytes.len(),
        forall|i: int|
            0 <= i < bytes.len() ==> ws_spec(m, bytes).grid[BUFFER_HEIGHT as int - 1][i] == (
            ScreenChar { ascii_char: #[trigger] bytes[i], color: m.color }),
{
    let last = BUFFER_HEIGHT as int - 1;
    lemma_printable_run(m, bytes);
    assert forall|i: int|
        0 <= i < bytes.len() implies ws_spec(m, bytes).grid[last][i] == (ScreenChar {
        ascii_char: bytes[i],
        color: m.color,
    }) by {
        assert(m.grid[last].take(0) =~= Seq::<ScreenChar>::empty());
        assert(ws_spec(m, bytes).grid[last][i] == cells_of(bytes, m.color)[i]);
    }
}

/// Writing more than one line's worth of printable bytes before any newline
/// scrolls exactly once: the first `BUFFER_WIDTH` characters end up on the
/// next-to-last row, the rest continue from column 0 of the new last row,
/// and every older row has moved up exactly one place.
pub proof fn lemma_wrap_scrolls_once(m: WriterModel, bytes: Seq<u8>)
    requires
        model_wf(m),
        m.col == 0,
        BUFFER_WIDTH < bytes.len() <= 2 * BUFFER_WIDTH,
        forall|i: int| 0 <= i < bytes.len() ==> printable(#[trigger] bytes[i]),
    ensures
        ws_spec(m, bytes).color == m.color,
        ws_spec(m, bytes).col == bytes.len() - BUFFER_WIDTH,
        forall|r: int|
            0 <= r < BUFFER_HEIGHT as int - 2 ==> #[trigger] ws_spec(m, bytes).grid[r] == m.grid[r
                + 1],
        ws_spec(m, bytes).grid[BUFFER_HEIGHT as int - 2] == cells_of(
            bytes.take(BUFFER_WIDTH as int),
            m.color,
        ),
        ws_spec(m, bytes).grid[BUFFER_HEIGHT as int - 1] == cells_of(
            bytes.skip(BUFFER_WIDTH as int),
            m.color,
        ) + blank_row(m.color).skip(bytes.len() - BUFFER_WIDTH),
{
    let last = BUFFER_HEIGHT as int - 1;
    let width = BUFFER_WIDTH as int;
    let a = bytes.take(width);
    let rest = bytes.skip(width);
    assert(bytes =~= a + rest);
    assert forall|i: int| 0 <= i < a.len() implies printable(#[trigger] a[i]) by {
        assert(a[i] == bytes[i]);
    }
    assert forall|i: int| 0 <= i < rest.len() implies printable(#[trigger] rest[i]) by {
        assert(rest[i] == bytes[width + i]);
    }
    lemma_ws_append(m, a, rest);
    let m1 = ws_spec(m, a);
    lemma_printable_run(m, a);
    assert(m1.grid[last] =~= cells_of(a, m.color));
    let b0 = rest[0];
    assert(b0 == bytes[width]);
    assert(subst(b0) == b0);
    let rest2 = rest.drop_first();
    assert(ws_spec(m1, rest) == ws_spec(wb_spec(m1, b0), rest2));
    let m2 = wb_spec(m1, b0);
    let cell0 = ScreenChar { ascii_char: b0, color: m.color };
    lemma_wb_wf(m1, b0);
    assert(m2.grid == written(scrolled(m1.grid, m.color), 0, b0, m.color));
    assert(m2.grid[last] == blank_row(m.color).update(0, cell0));
    assert forall|i: int| 0 <= i < rest2.len() implies printable(#[trigger] rest2[i]) by {
        assert(rest2[i] == rest[i + 1]);
    }
    lemma_printable_run(m2, rest2);
    let w = ws_spec(m2, rest2);
    assert forall|r: int|
        0 <= r < BUFFER_HEIGHT as int - 2 implies #[trigger] w.grid[r] == m.grid[r + 1] by {
        assert(w.grid[r] == m2.grid[r]);
        assert(m2.grid[r] == scrolled(m1.grid, m.color)[r]);
        assert(scrolled(m1.grid, m.color)[r] == m1.grid[r + 1]);
        assert(m1.grid[r + 1] == m.grid[r + 1]);
    }
    assert(w.grid[last - 1] == m2.grid[last - 1]);
    assert(m2.grid[last - 1] == scrolled(m1.grid, m.color)[last - 1]);
    assert(scrolled(m1.grid, m.color)[last - 1] == m1.grid[last]);
    assert(m2.grid[last].take(1) =~= seq![cell0]);
    assert(m2.grid[last].skip(1 + rest2.len() as int) =~= blank_row(m.color).skip(
        bytes.len() - BUFFER_WIDTH,
    ));
    assert(w.grid[last] == m2.grid[last].take(1) + cells_of(rest2, m.color) + m2.grid[last].skip(
        1 + rest2.len() as int,
    ));
    assert(seq![cell0] + cells_of(rest2, m.color) =~= cells_of(rest, m.color));
    assert(seq![cell0] + cells_of(rest2, m.color) + blank_row(m.color).skip(
        bytes.len() - BUFFER_WIDTH,
    ) =~= cells_of(rest, m.color) + blank_row(m.color).skip(bytes.len() - BUFFER_WIDTH));
}

/// A newline byte scrolls: every row's characters and attributes move to
/// the row above exactly, the old top row is discarded, the freed last row
/// is entirely blank in the current color, and the cursor returns to
/// column 0.
pub proof fn lemma_newline_scrolls(m: WriterModel)
    requires
        model_wf(m),
    ensures
        wb_spec(m, NEWLINE_BYTE).col == 0,
        wb_spec(m, NEWLINE_BYTE).color == m.color,
        forall|r: int|
            1 <= r < BUFFER_HEIGHT ==> wb_spec(m, NEWLINE_BYTE).grid[r - 1] == #[trigger] m.grid[r],
        wb_spec(m, NEWLINE_BYTE).grid[BUFFER_HEIGHT as int - 1] == blank_row(m.color),
        forall|c: int|
            0 <= c < BUFFER_WIDTH ==> #[trigger] blank_row(m.color)[c] == (ScreenChar {
                ascii_char: SPACE_BYTE,
                color: m.color,
            }),
{
    lemma_scroll_preserves_rows(m.grid, m.color);
}

/// A byte outside the printable range (and not a newline) shows up as the
/// placeholder glyph at the cursor position, never as the original byte.
pub proof fn lemma_unprintable_placeholder(m: WriterModel, b: u8)
    requires
        model_wf(m),
        m.col < BUFFER_WIDTH,
        !printable(b),
        b != NEWLINE_BYTE,
    ensures
        ws_spec(m, seq![b]).col == m.col + 1,
        ws_spec(m, seq![b]).grid[BUFFER_HEIGHT as int - 1][m.col] == (ScreenChar {
            ascii_char: PLACEHOLDER_GLYPH,
            color: m.color,
        }),
{
    assert(seq![b][0] == b);
    assert(seq![b].drop_first() =~= Seq::<u8>::empty());
    assert(subst(b) == PLACEHOLDER_GLYPH);
    assert(ws_spec(wb_spec(m, subst(b)), Seq::<u8>::empty()) == wb_spec(m, subst(b)));
}

/// The screen writer: appends characters to the last row of the grid,
/// wrapping and scrolling as lines complete, in the current color.
pub struct Writer {
    column_position: usize,
    current_color: ColorCode,
    buffer: Buffer,
}

impl View for Writer {
    type V = WriterModel;

    closed spec fn view(&self) -> WriterModel {
        WriterModel {
            grid: self.buffer@,
            col: self.column_position as int,
            color: self.current_color,
        }
    }
}

impl Writer {
    /// The writer's internal invariant: a full backing store and a cursor
    /// no further than one past the end of a line.
    pub closed spec fn wf(&self) -> bool {
        &&& self.buffer.wf()
        &&& self.column_position <= BUFFER_WIDTH
    }

    /// A well-formed writer has a well-formed model.
    pub proof fn lemma_wf_model(&self)
        requires
            self.wf(),
        ensures
            model_wf(self@),
    {
        self.buffer.lemma_view_wf();
    }

    /// A fresh writer: blank grid in the given color, cursor at column 0.
    pub fn new(color: ColorCode) -> (w: Writer)
        ensures
            w.wf(),
            w@.col == 0,
            w@.color == color,
            w@.grid == blank_grid(color),
    {
        let blank = ScreenChar { ascii_char: SPACE_BYTE, color };
        let buffer = Buffer::new(blank);
        let w = Writer { column_position: 0, current_color: color, buffer };
        proof {
            assert forall|r: int| 0 <= r < BUFFER_HEIGHT implies w@.grid[r] =~= blank_grid(
                color,
            )[r] by {
                assert forall|c: int| 0 <= c < BUFFER_WIDTH implies w@.grid[r][c] == blank_row(
                    color,
                )[c] by {}
            }
            assert(w@.grid =~= blank_grid(color));
        }
        w
    }

    /// The current cursor column.
    pub fn column(&self) -> (c: usize)
        ensures
            c == self@.col,
    {
        self.column_position
    }

    /// The current color attribute.
    pub fn color(&self) -> (c: ColorCode)
        ensures
            c == self@.color,
    {
        self.current_color
    }

    /// Reads the cell at `row`, `col` of the grid.
    pub fn char_at(&self, row: usize, col: usize) -> (ch: ScreenChar)
        requires
            self.wf(),
            row < BUFFER_HEIGHT,
            col < BUFFER_WIDTH,
        ensures
            ch == self@.grid[row as int][col as int],
    {
        self.buffer.char_at(row, col)
    }

    /// Replaces the current color and returns the previous one.
    pub fn set_color(&mut self, color: ColorCode) -> (previous: ColorCode)
        requires
            old(self).wf(),
        ensures
            final(self).wf(),
            previous == old(self)@.color,
            final(self)@.color == color,
            final(self)@.grid == old(self)@.grid,
            final(self)@.col == old(self)@.col,
    {
        let previous = self.current_color;
        self.current_color = color;
        previous
    }

    /// Clears row `row` to blank cells in the current color.
    fn clear_row(&mut self, row: usize)
        requires
            old(self).wf(),
            row < BUFFER_HEIGHT,
        ensures
            final(self).wf(),
            final(self)@.grid == old(self)@.grid.update(
                row as int,
                blank_row(old(self)@.color),
            ),
            final(self)@.col == old(self)@.col,
            final(self)@.color == old(self)@.color,
    {
        let blank = ScreenChar { ascii_char: SPACE_BYTE, color: self.current_color };
        let mut col: usize = 0;
        while col < BUFFER_WIDTH
            invariant
                self.wf(),
                row < BUFFER_HEIGHT,
                col <= BUFFER_WIDTH,
                self@.color == old(self)@.color,
                self@.col == old(self)@.col,
                blank == (ScreenChar { ascii_char: SPACE_BYTE, color: old(self)@.color }),
                forall|r: int|
                    0 <= r < BUFFER_HEIGHT && r != row ==> self@.grid[r] == old(self)@.grid[r],
                forall|c: int| 0 <= c < col ==> self@.grid[row as int][c] == blank,
                forall|c: int|
                    col <= c < BUFFER_WIDTH ==> self@.grid[row as int][c] == old(
                        self,
                    )@.grid[row as int][c],
            decreases BUFFER_WIDTH - col,
        {
            let ghost gprev = self@.grid;
            self.buffer.write_cell(row, col, blank);
            proof {
                assert forall|c: int| 0 <= c < col + 1 implies self@.grid[row as int][c]
                    == blank by {
                    if c < col {
                        assert(gprev[row as int][c] == blank);
                    }
                }
                assert forall|c: int|
                    col + 1 <= c < BUFFER_WIDTH implies self@.grid[row as int][c] == old(
                    self,
                )@.grid[row as int][c] by {
                    assert(gprev[row as int][c] == old(self)@.grid[row as int][c]);
                }
            }
            col = col + 1;
        }
        proof {
            assert(self@.grid[row as int] =~= blank_row(old(self)@.color));
            assert(self@.grid =~= old(self)@.grid.update(
                row as int,
                blank_row(old(self)@.color),
            ));
        }
    }

    /// Scrolls: every row moves up one place, the last row is cleared in
    /// the current color, and the cursor returns to column 0.
    fn new_line(&mut self)
        requires
            old(self).wf(),
        ensures
            final(self).wf(),
            final(self)@.grid == scrolled(old(self)@.grid, old(self)@.color),
            final(self)@.col == 0,
            final(self)@.color == old(self)@.color,
    {
        let ghost g0 = self@.grid;
        let mut row: usize = 1;
        while row < BUFFER_HEIGHT
            invariant
                self.wf(),
                1 <= row <= BUFFER_HEIGHT,
                self@.color == old(self)@.color,
                self@.col == old(self)@.col,
                g0 == old(self)@.grid,
                forall|r: int| 0 <= r < row - 1 ==> self@.grid[r] == g0[r + 1],
                forall|r: int| row - 1 <= r < BUFFER_HEIGHT ==> self@.grid[r] == g0[r],
            decreases BUFFER_HEIGHT - row,
        {
            let ghost gs = self@.grid;
            let ghost dst: int = row as int - 1;
            let mut col: usize = 0;
            while col < BUFFER_WIDTH
                invariant
                    self.wf(),
                    1 <= row < BUFFER_HEIGHT,
                    dst == row as int - 1,
                    col <= BUFFER_WIDTH,
                    self@.color == old(self)@.color,
                    self@.col == old(self)@.col,
                    forall|r: int| 0 <= r < BUFFER_HEIGHT && r != dst ==> self@.grid[r] == gs[r],
                    forall|c: int| 0 <= c < col ==> #[trigger] self@.grid[dst][c] == gs[row as int][c],
                    forall|c: int|
                        col <= c < BUFFER_WIDTH ==> #[trigger] self@.grid[dst][c] == gs[dst][c],
                decreases BUFFER_WIDTH - col,
            {
                let moved = self.buffer.char_at(row, col);
                let ghost gprev = self@.grid;
                self.buffer.write_cell(row - 1, col, moved);
                proof {
                    assert forall|c: int| 0 <= c < col + 1 implies self@.grid[dst][c] == gs[row as int][c] by {
                        if c < col {
                            assert(gprev[dst][c] == gs[row as int][c]);
                        } else {
                            assert(moved == gs[row as int][col as int]);
                        }
                    }
                    assert forall|c: int|
                        col + 1 <= c < BUFFER_WIDTH implies self@.grid[dst][c] == gs[dst][c] by {
                        assert(gprev[dst][c] == gs[dst][c]);
                    }
                    assert forall|r: int|
                        0 <= r < BUFFER_HEIGHT && r != dst implies self@.grid[r] == gs[r] by {
                        assert(gprev[r] == gs[r]);
                    }
                }
                col = col + 1;
            }
            proof {
                self.buffer.lemma_view_wf();
                assert(self@.grid[dst] =~= gs[row as int]);
                assert forall|r: int| 0 <= r < row implies self@.grid[r] == g0[r + 1] by {
                    if r < dst {
                        assert(self@.grid[r] == gs[r]);
                        assert(gs[r] == g0[r + 1]);
                    } else {
                        assert(r == dst);
                        assert(gs[row as int] == g0[row as int]);
                    }
                }
                assert forall|r: int| row <= r < BUFFER_HEIGHT implies self@.grid[r] == g0[r] by {
                    assert(self@.grid[r] == gs[r]);
                }
            }
            row = row + 1;
        }
        self.clear_row(BUFFER_HEIGHT - 1);
        self.column_position = 0;
        proof {
            self.buffer.lemma_view_wf();
            assert forall|r: int| 0 <= r < BUFFER_HEIGHT implies self@.grid[r] == scrolled(
                g0,
                old(self)@.color,
            )[r] by {
                if r < BUFFER_HEIGHT - 1 {
                    assert(scrolled(g0, old(self)@.color)[r] == g0[r + 1]);
                }
            }
            assert(self@.grid =~= scrolled(g0, old(self)@.color));
        }
    }

    /// Appends one byte: a newline scrolls; a byte arriving at a full line
    /// scrolls first and lands in column 0; any other byte lands at the
    /// cursor in the current color and the cursor advances.
    pub fn write_byte(&mut self, byte: u8)
        requires
            old(self).wf(),
        ensures
            final(self).wf(),
            final(self)@ == wb_spec(old(self)@, byte),
    {
        if byte == NEWLINE_BYTE {
            self.new_line();
            proof {
                assert(self@ =~= wb_spec(old(self)@, byte));
            }
        } else {
            let scrolled_first = self.column_position >= BUFFER_WIDTH;
            if scrolled_first {
                self.new_line();
            }
            let cell = ScreenChar { ascii_char: byte, color: self.current_color };
            self.buffer.write_cell(BUFFER_HEIGHT - 1, self.column_position, cell);
            self.column_position = self.column_position + 1;
            proof {
                assert(self@ =~= wb_spec(old(self)@, byte));
            }
        }
    }

    /// Appends every byte of `s`: printable bytes and newlines verbatim,
    /// anything else as the placeholder glyph.
    pub fn write_str(&mut self, s: &str)
        requires
            old(self).wf(),
        ensures
            final(self).wf(),
            final(self)@ == ws_spec(old(self)@, s.spec_bytes()),
    {
        let bytes: &[u8] = s.as_bytes();
        let n: usize = bytes.len();
        let mut i: usize = 0;
        proof {
            assert(bytes@.take(0) =~= Seq::<u8>::empty());
        }
        while i < n
            invariant
                self.wf(),
                i <= n,
                n == bytes@.len(),
                bytes@ == s.spec_bytes(),
                self@ == ws_spec(old(self)@, bytes@.take(i as int)),
            decreases n - i,
        {
            let ghost prefix = bytes@.take(i as int);
            let b = bytes[i];
            if (0x20 <= b && b <= 0x7E) || b == NEWLINE_BYTE {
                self.write_byte(b);
            } else {
                self.write_byte(PLACEHOLDER_GLYPH);
            }
            proof {
                lemma_ws_snoc(old(self)@, prefix, b);
                assert(bytes@.take(i + 1) =~= prefix.push(b));
                assert(self@ =~= ws_spec(old(self)@, bytes@.take(i + 1)));
            }
            i = i + 1;
        }
        proof {
            assert(bytes@.take(n as int) =~= bytes@);
        }
    }
}

/// Routes one string of formatted output to the screen writer; the
/// application's print macros hand their formatted text here.
pub fn _print(writer: &mut Writer, s: &str)
    requires
        old(writer).wf(),
    ensures
        final(writer).wf(),
        final(writer)@ == ws_spec(old(writer)@, s.spec_bytes()),
{
    writer.write_str(s);
}

/// The interactive fatal path: switch the writer to the alert coloring
/// (red on black) and show the failure description on the display.
pub fn report_fatal(writer: &mut Writer, msg: &str)
    requires
        old(writer).wf(),
    ensures
        final(writer).wf(),
        final(writer)@.color == ColorCode::spec_from_colors(Color::Red, Color::Black),
        final(writer)@ == ws_spec(
            (WriterModel {
                grid: old(writer)@.grid,
                col: old(writer)@.col,
                color: ColorCode::spec_from_colors(Color::Red, Color::Black),
            }),
            msg.spec_bytes(),
        ),
{
    let alert = ColorCode::from_colors(Color::Red, Color::Black);
    let _previous = writer.set_color(alert);
    writer.write_str(msg);
    proof {
        writer.lemma_wf_model();
        lemma_ws_wf(
            WriterModel {
                grid: old(writer)@.grid,
                col: old(writer)@.col,
                color: ColorCode::spec_from_colors(Color::Red, Color::Black),
            },
            msg.spec_bytes(),
        );
    }
}

} // verus!
