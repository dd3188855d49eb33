//! The rendering context: a colour buffer and a depth buffer of one size, and
//! the text that a frame is emitted as.

use crate::geometry::{Rgb, SimpleMesh};
use vstd::prelude::*;

verus! {

/// The depth that every cell holds after a clear: farther than any surface.
pub const FARTHEST: i64 = 0x7fff_ffff_ffff_ffff;

/// The largest width or height of a viewport.
pub const MAX_DIMENSION: usize = 65535;

/// One cell of the colour buffer: how bright it is, and its colour.
/// An intensity of 0 is the background.
#[derive(Clone, Copy, PartialEq, Eq, Debug, Structural)]
pub struct Cell {
    pub intensity: u8,
    pub color: Rgb,
}

/// The cell that a clear writes everywhere.
pub open spec fn background() -> Cell {
    Cell { intensity: 0, color: Rgb { r: 0, g: 0, b: 0 } }
}

/// The mathematical content of a context: both buffers in row-major order,
/// top row first.
pub struct ContextView {
    pub width: nat,
    pub height: nat,
    pub cells: Seq<Cell>,
    pub depths: Seq<i64>,
    pub image: bool,
}

impl ContextView {
    /// Both buffers have exactly `width * height` entries.
    pub open spec fn wf(self) -> bool {
        &&& self.width <= MAX_DIMENSION
        &&& self.height <= MAX_DIMENSION
        &&& self.cells.len() == self.width * self.height
        &&& self.depths.len() == self.width * self.height
    }

    /// A context of the given size in which nothing has been drawn.
    pub open spec fn fresh(width: nat, height: nat, image: bool) -> ContextView {
        ContextView {
            width,
            height,
            cells: Seq::new(width * height, |i: int| background()),
            depths: Seq::new(width * height, |i: int| FARTHEST),
            image,
        }
    }

    /// The context after a clear: same size, nothing drawn.
    pub open spec fn cleared(self) -> ContextView {
        ContextView::fresh(self.width, self.height, self.image)
    }

    /// The context after the viewport was observed to be `width` by `height`:
    /// unchanged when that is its size already, fresh otherwise.
    pub open spec fn updated(self, width: nat, height: nat) -> ContextView {
        if self.width == width && self.height == height {
            self
        } else {
            ContextView::fresh(width, height, self.image)
        }
    }

    /// The cells of row `y`, left to right.
    pub open spec fn row_cells(self, y: int) -> Seq<Cell> {
        self.cells.subrange(y * self.width, (y + 1) * self.width)
    }

    /// The text of the first `rows` rows.
    pub open spec fn rows_text(self, rows: nat, colored: bool, newline: Seq<u8>) -> Seq<u8>
        decreases rows,
    {
        if rows == 0 {
            Seq::empty()
        } else {
            self.rows_text((rows - 1) as nat, colored, newline) + cells_text(
                self.row_cells(rows - 1),
                colored,
            ) + newline
        }
    }

    /// The text that the frame is emitted as.
    ///
    /// An exported frame is one line of glyphs per row, each ended by a line
    /// feed, without any control sequence. A frame for the terminal may carry a
    /// colour sequence before each glyph and then ends with a reset; in
    /// interactive use it starts by moving the cursor home and ends its rows with
    /// a carriage return and a line feed.
    pub open spec fn frame_text(self, color_enabled: bool, export_mode: bool) -> Seq<u8> {
        let colored = color_enabled && !export_mode;
        let plain_lines = export_mode || self.image;
        let head = if plain_lines { Seq::<u8>::empty() } else { cursor_home() };
        let newline = if plain_lines { seq![LINE_FEED] } else { seq![CARRIAGE_RETURN, LINE_FEED] };
        let tail = if colored { color_reset() } else { Seq::<u8>::empty() };
        head + self.rows_text(self.height, colored, newline) + tail
    }
}

pub const ESCAPE: u8 = 0x1b;
pub const LINE_FEED: u8 = 0x0a;
pub const CARRIAGE_RETURN: u8 = 0x0d;
pub const SPACE: u8 = 0x20;

/// `ESC [ H`: moves the cursor to the top left corner.
pub open spec fn cursor_home() -> Seq<u8> {
    seq![ESCAPE, 0x5bu8, 0x48u8]
}

/// `ESC [ 0 m`: ends all colouring.
pub open spec fn color_reset() -> Seq<u8> {
    seq![ESCAPE, 0x5bu8, 0x30u8, 0x6du8]
}

/// The glyph for an intensity: a space for the background, then the ramp
/// `.:-=+*#%@` in nine equal steps.
pub open spec fn glyph_of(intensity: u8) -> u8 {
    if intensity == 0 {
        SPACE
    } else {
        let step = (intensity - 1) * 9 / 255;
        if step == 0 {
            0x2eu8
        } else if step == 1 {
            0x3au8
        } else if step == 2 {
            0x2du8
        } else if step == 3 {
            0x3du8
        } else if step == 4 {
            0x2bu8
        } else if step == 5 {
            0x2au8
        } else if step == 6 {
            0x23u8
        } else if step == 7 {
            0x25u8
        } else {
            0x40u8
        }
    }
}

/// The decimal digits of `n`, without leading zeros.
pub open spec fn decimal_text(n: u8) -> Seq<u8> {
    if n >= 100 {
        seq![(0x30 + n / 100) as u8, (0x30 + (n / 10) % 10) as u8, (0x30 + n % 10) as u8]
    } else if n >= 10 {
        seq![(0x30 + n / 10) as u8, (0x30 + n % 10) as u8]
    } else {
        seq![(0x30 + n) as u8]
    }
}

/// `ESC [ 38 ; 2 ; r ; g ; b m`: sets the foreground colour.
pub open spec fn color_prefix(color: Rgb) -> Seq<u8> {
    seq![ESCAPE, 0x5bu8, 0x33u8, 0x38u8, 0x3bu8, 0x32u8, 0x3bu8] + decimal_text(color.r)
        + seq![0x3bu8] + decimal_text(color.g) + seq![0x3bu8] + decimal_text(color.b)
        + seq![0x6du8]
}

/// The text of one cell: its glyph, after its colour sequence when coloured.
pub open spec fn cell_text(cell: Cell, colored: bool) -> Seq<u8> {
    if colored {
        color_prefix(cell.color) + seq![glyph_of(cell.intensity)]
    } else {
        seq![glyph_of(cell.intensity)]
    }
}

/// The text of a run of cells.
pub open spec fn cells_text(cells: Seq<Cell>, colored: bool) -> Seq<u8>
    decreases cells.len(),
{
    if cells.len() == 0 {
        Seq::empty()
    } else {
        cells_text(cells.drop_last(), colored) + cell_text(cells.last(), colored)
    }
}

/// Row `y` lies inside the buffers.
pub proof fn lemma_row_bounds(width: int, height: int, y: int)
    requires
        0 <= width,
        0 <= y < height,
    ensures
        0 <= y * width,
        (y + 1) * width == y * width + width,
        y * width + width <= width * height,
{
    assert(y * width + width <= width * height && y * width >= 0 && (y + 1) * width == y * width
        + width) by (nonlinear_arith)
        requires
            0 <= y,
            y + 1 <= height,
            0 <= width,
    ;
}

/// The glyph for an intensity.
pub fn glyph(intensity: u8) -> (g: u8)
    ensures
        g == glyph_of(intensity),
{
    if intensity == 0 {
        SPACE
    } else {
        let step: u16 = (intensity as u16 - 1) * 9 / 255;
        if step == 0 {
            0x2e
        } else if step == 1 {
            0x3a
        } else if step == 2 {
            0x2d
        } else if step == 3 {
            0x3d
        } else if step == 4 {
            0x2b
        } else if step == 5 {
            0x2a
        } else if step == 6 {
            0x23
        } else if step == 7 {
            0x25
        } else {
            0x40
        }
    }
}

fn push_decimal(out: &mut Vec<u8>, n: u8)
    ensures
        final(out)@ == old(out)@ + decimal_text(n),
{
    if n >= 100 {
        out.push(0x30 + n / 100);
        out.push(0x30 + (n / 10) % 10);
        out.push(0x30 + n % 10);
    } else if n >= 10 {
        out.push(0x30 + n / 10);
        out.push(0x30 + n % 10);
    } else {
        out.push(0x30 + n);
    }
}

fn push_color_prefix(out: &mut Vec<u8>, color: Rgb)
    ensures
        final(out)@ == old(out)@ + color_prefix(color),
{
    out.push(ESCAPE);
    out.push(0x5b);
    out.push(0x33);
    out.push(0x38);
    out.push(0x3b);
    out.push(0x32);
    out.push(0x3b);
    push_decimal(out, color.r);
    out.push(0x3b);
    push_decimal(out, color.g);
    out.push(0x3b);
    push_decimal(out, color.b);
    out.push(0x6d);
}

fn push_cell(out: &mut Vec<u8>, cell: Cell, colored: bool)
    ensures
        final(out)@ == old(out)@ + cell_text(cell, colored),
{
    if colored {
        push_color_prefix(out, cell.color);
    }
    out.push(glyph(cell.intensity));
}

/// The frame buffer, the depth buffer and the size of the viewport.
#[derive(Clone, PartialEq, Eq, Debug)]
pub struct Context {
    pub width: usize,
    pub height: usize,
    pub frame_buffer: Vec<Cell>,
    pub z_buffer: Vec<i64>,
    /// Set for a single still or exported frame, clear for interactive use.
    pub image: bool,
}

impl View for Context {
    type V = ContextView;

    open spec fn view(&self) -> ContextView {
        ContextView {
            width: self.width as nat,
            height: self.height as nat,
            cells: self.frame_buffer@,
            depths: self.z_buffer@,
            image: self.image,
        }
    }
}

fn filled_cells(count: usize) -> (v: Vec<Cell>)
    ensures
        v@ == Seq::new(count as nat, |i: int| background()),
{
    let mut v: Vec<Cell> = Vec::new();
    let mut i: usize = 0;
    while i < count
        invariant
            i <= count,
            v@ == Seq::new(i as nat, |k: int| background()),
        decreases count - i,
    {
        v.push(Cell { intensity: 0, color: Rgb { r: 0, g: 0, b: 0 } });
        i += 1;
    }
    v
}

fn filled_depths(count: usize) -> (v: Vec<i64>)
    ensures
        v@ == Seq::new(count as nat, |i: int| FARTHEST),
{
    let mut v: Vec<i64> = Vec::new();
    let mut i: usize = 0;
    while i < count
        invariant
            i <= count,
            v@ == Seq::new(i as nat, |k: int| FARTHEST),
        decreases count - i,
    {
        v.push(FARTHEST);
        i += 1;
    }
    v
}

impl Context {
    /// Both buffers have exactly `width * height` entries.
    pub open spec fn wf(&self) -> bool {
        self@.wf()
    }

    /// Whether both buffers have exactly `width * height` entries.
    pub fn is_valid(&self) -> (ok: bool)
        ensures
            ok == self.wf(),
    {
        if self.width > MAX_DIMENSION || self.height > MAX_DIMENSION {
            return false;
        }
        proof {
            assert(self.width * self.height <= 65535 * 65535) by (nonlinear_arith)
                requires
                    0 <= self.width <= 65535,
                    0 <= self.height <= 65535,
            ;
        }
        let count: usize = self.width * self.height;
        self.frame_buffer.len() == count && self.z_buffer.len() == count
    }

    /// An empty context: no cells until the first resize.
    pub fn blank(image: bool) -> (context: Context)
        ensures
            context@ == ContextView::fresh(0, 0, image),
            context.wf(),
    {
        let context = Context {
            width: 0,
            height: 0,
            frame_buffer: Vec::new(),
            z_buffer: Vec::new(),
            image,
        };
        assert(context@.cells =~= ContextView::fresh(0, 0, image).cells);
        assert(context@.depths =~= ContextView::fresh(0, 0, image).depths);
        context
    }

    /// Brings the context to the observed size of the viewport. When the size
    /// is the one it has, nothing is touched; otherwise both buffers are
    /// replaced by fresh ones of the new size. Returns whether it resized.
    /// The mesh queue does not influence the result.
    pub fn update(&mut self, target_size: (u16, u16), mesh_queue: &[SimpleMesh]) -> (resized: bool)
        requires
            old(self).wf(),
        ensures
            final(self).wf(),
            final(self)@ == old(self)@.updated(target_size.0 as nat, target_size.1 as nat),
            final(self).width == target_size.0,
            final(self).height == target_size.1,
            final(self).frame_buffer@.len() == target_size.0 * target_size.1,
            final(self).z_buffer@.len() == target_size.0 * target_size.1,
            resized == (old(self).width != target_size.0 || old(self).height != target_size.1),
            !resized ==> *final(self) == *old(self),
    {
        let width: usize = target_size.0 as usize;
        let height: usize = target_size.1 as usize;
        if self.width == width && self.height == height {
            return false;
        }
        proof {
            assert(width * height <= 65535 * 65535) by (nonlinear_arith)
                requires
                    0 <= width <= 65535,
                    0 <= height <= 65535,
            ;
        }
        let count: usize = width * height;
        self.frame_buffer = filled_cells(count);
        self.z_buffer = filled_depths(count);
        self.width = width;
        self.height = height;
        true
    }

    /// Resets every cell to the background and every depth to the farthest.
    pub fn clear(&mut self)
        requires
            old(self).wf(),
        ensures
            final(self).wf(),
            final(self)@ == old(self)@.cleared(),
    {
        let count: usize = self.frame_buffer.len();
        let mut i: usize = 0;
        while i < count
            invariant
                i <= count,
                self.width == old(self).width,
                self.height == old(self).height,
                self.image == old(self).image,
                self.frame_buffer@.len() == count,
                self.z_buffer@.len() == count,
                forall|k: int| 0 <= k < i ==> self.frame_buffer@[k] == background(),
                forall|k: int| 0 <= k < i ==> self.z_buffer@[k] == FARTHEST,
            decreases count - i,
        {
            self.frame_buffer[i] = Cell { intensity: 0, color: Rgb { r: 0, g: 0, b: 0 } };
            self.z_buffer[i] = FARTHEST;
            i += 1;
        }
        assert(self@.cells =~= old(self)@.cleared().cells);
        assert(self@.depths =~= old(self)@.cleared().depths);
    }

    /// The frame as text: see [`ContextView::frame_text`].
    pub fn flush(&self, color_enabled: bool, export_mode: bool) -> (text: Vec<u8>)
        requires
            self.wf(),
        ensures
            text@ == self@.frame_text(color_enabled, export_mode),
    {
        let colored: bool = color_enabled && !export_mode;
        let plain_lines: bool = export_mode || self.image;
        let mut out: Vec<u8> = Vec::new();
        let count: usize = self.frame_buffer.len();
        if !plain_lines {
            out.push(ESCAPE);
            out.push(0x5b);
            out.push(0x48);
        }
        let ghost head: Seq<u8> = if plain_lines { Seq::<u8>::empty() } else { cursor_home() };
        let ghost newline: Seq<u8> = if plain_lines {
            seq![LINE_FEED]
        } else {
            seq![CARRIAGE_RETURN, LINE_FEED]
        };
        let mut y: usize = 0;
        while y < self.height
            invariant
                self.wf(),
                count == self.width * self.height,
                y <= self.height,
                newline == if plain_lines {
                    seq![LINE_FEED]
                } else {
                    seq![CARRIAGE_RETURN, LINE_FEED]
                },
                out@ == head + self@.rows_text(y as nat, colored, newline),
            decreases self.height - y,
        {
            let ghost before: Seq<u8> = out@;
            let ghost row: Seq<Cell> = self@.row_cells(y as int);
            let mut x: usize = 0;
            while x < self.width
                invariant
                    self.wf(),
                    count == self.width * self.height,
                    y < self.height,
                    x <= self.width,
                    row == self@.row_cells(y as int),
                    out@ == before + cells_text(row.take(x as int), colored),
                decreases self.width - x,
            {
                proof {
                    lemma_row_bounds(self.width as int, self.height as int, y as int);
                }
                let index: usize = y * self.width + x;
                let cell: Cell = self.frame_buffer[index];
                push_cell(&mut out, cell, colored);
                proof {
                    assert(row.take(x + 1).drop_last() =~= row.take(x as int));
                }
                x += 1;
            }
            proof {
                lemma_row_bounds(self.width as int, self.height as int, y as int);
                assert(row.take(self.width as int) =~= row);
            }
            if plain_lines {
                out.push(LINE_FEED);
            } else {
                out.push(CARRIAGE_RETURN);
                out.push(LINE_FEED);
            }
            y += 1;
        }
        if colored {
            out.push(ESCAPE);
            out.push(0x5b);
            out.push(0x30);
            out.push(0x6d);
        }
        out
    }
}

/// `unit` written `times` times.
pub open spec fn repeated(unit: Seq<u8>, times: nat) -> Seq<u8>
    decreases times,
{
    if times == 0 {
        Seq::empty()
    } else {
        repeated(unit, (times - 1) as nat) + unit
    }
}

/// The text of a frame in which nothing was drawn: in every row the text of
/// the background cell for every column, then the end of the row.
pub open spec fn blank_frame(
    width: nat,
    height: nat,
    image: bool,
    color_enabled: bool,
    export_mode: bool,
) -> Seq<u8> {
    let colored = color_enabled && !export_mode;
    let plain_lines = export_mode || image;
    let head = if plain_lines { Seq::<u8>::empty() } else { cursor_home() };
    let newline = if plain_lines { seq![LINE_FEED] } else { seq![CARRIAGE_RETURN, LINE_FEED] };
    let tail = if colored { color_reset() } else { Seq::<u8>::empty() };
    head + repeated(repeated(cell_text(background(), colored), width) + newline, height) + tail
}

/// The text of a run of background cells.
pub proof fn lemma_background_cells_text(count: nat, colored: bool)
    ensures
        cells_text(Seq::new(count, |i: int| background()), colored) == repeated(
            cell_text(background(), colored),
            count,
        ),
    decreases count,
{
    let cells = Seq::new(count, |i: int| background());
    if count > 0 {
        lemma_background_cells_text((count - 1) as nat, colored);
        assert(cells.drop_last() =~= Seq::new((count - 1) as nat, |i: int| background()));
    }
}

/// The text of the first rows of a cleared context.
pub proof fn lemma_cleared_rows_text(
    context: ContextView,
    rows: nat,
    colored: bool,
    newline: Seq<u8>,
)
    requires
        context.wf(),
        rows <= context.height,
    ensures
        context.cleared().rows_text(rows, colored, newline) == repeated(
            repeated(cell_text(background(), colored), context.width) + newline,
            rows,
        ),
    decreases rows,
{
    if rows > 0 {
        lemma_cleared_rows_text(context, (rows - 1) as nat, colored, newline);
        lemma_row_bounds(context.width as int, context.height as int, rows - 1);
        assert(context.cleared().row_cells(rows - 1) =~= Seq::new(
            context.width,
            |i: int| background(),
        ));
        lemma_background_cells_text(context.width, colored);
    }
}

/// A clear followed by a flush gives the blank frame of
/// the size and mode of the context, whatever the context held before.
pub proof fn lemma_clear_then_flush(context: ContextView, color_enabled: bool, export_mode: bool)
    requires
        context.wf(),
    ensures
        context.cleared().frame_text(color_enabled, export_mode) == blank_frame(
            context.width,
            context.height,
            context.image,
            color_enabled,
            export_mode,
        ),
        context.cleared().cleared() == context.cleared(),
{
    let colored = color_enabled && !export_mode;
    let plain_lines = export_mode || context.image;
    let newline = if plain_lines { seq![LINE_FEED] } else { seq![CARRIAGE_RETURN, LINE_FEED] };
    lemma_cleared_rows_text(context, context.height, colored, newline);
}

/// After an update the context has exactly the observed size in
/// both buffers, and a second update with the same size changes nothing.
pub proof fn lemma_update_settles(context: ContextView, width: nat, height: nat)
    requires
        context.wf(),
        width <= MAX_DIMENSION,
        height <= MAX_DIMENSION,
    ensures
        context.updated(width, height).wf(),
        context.updated(width, height).width == width,
        context.updated(width, height).height == height,
        context.updated(width, height).cells.len() == width * height,
        context.updated(width, height).depths.len() == width * height,
        context.updated(width, height).updated(width, height) == context.updated(width, height),
{
}

/// Where the cell of column `x` and row `y` stands in the text of an
/// exported frame of the given width: each row takes one byte per cell and
/// one for the line feed.
pub open spec fn export_index(width: int, x: int, y: int) -> int {
    y * (width + 1) + x
}

/// The text of a run of cells without colour is the glyph of each cell.
pub proof fn lemma_plain_cells_text(cells: Seq<Cell>)
    ensures
        cells_text(cells, false).len() == cells.len(),
        forall|i: int|
            0 <= i < cells.len() ==> #[trigger] cells_text(cells, false)[i] == glyph_of(
                cells[i].intensity,
            ),
    decreases cells.len(),
{
    if cells.len() > 0 {
        lemma_plain_cells_text(cells.drop_last());
    }
}

/// The layout of the first rows of an exported frame.
pub proof fn lemma_plain_rows_text(context: ContextView, rows: nat)
    requires
        context.wf(),
        rows <= context.height,
    ensures
        context.rows_text(rows, false, seq![LINE_FEED]).len() == rows * (context.width + 1),
        forall|x: int, y: int|
            0 <= x < context.width && 0 <= y < rows ==> context.rows_text(
                rows,
                false,
                seq![LINE_FEED],
            )[#[trigger] export_index(context.width as int, x, y)] == glyph_of(
                context.cells[y * context.width + x].intensity,
            ),
        forall|y: int|
            0 <= y < rows ==> context.rows_text(rows, false, seq![LINE_FEED])[#[trigger] export_index(
                context.width as int,
                context.width as int,
                y,
            )] == LINE_FEED,
    decreases rows,
{
    let width: int = context.width as int;
    if rows > 0 {
        let last: int = rows - 1;
        let earlier = context.rows_text(last as nat, false, seq![LINE_FEED]);
        let row = context.row_cells(last);
        lemma_plain_rows_text(context, last as nat);
        lemma_row_bounds(width, context.height as int, last);
        lemma_plain_cells_text(row);
        assert(rows * (width + 1) == last * (width + 1) + width + 1) by (nonlinear_arith)
            requires
                rows == last + 1,
        ;
        assert forall|x: int, y: int| 0 <= x <= width && 0 <= y < rows implies (y < last
            ==> export_index(width, x, y) < earlier.len()) && (y == last ==> export_index(
            width,
            x,
            y,
        ) == earlier.len() + x) && 0 <= export_index(width, x, y) by {
            if y < last {
                assert(y * (width + 1) + width + 1 <= last * (width + 1) && y * (width + 1) >= 0)
                    by (nonlinear_arith)
                    requires
                        0 <= y < last,
                        width >= 0,
                ;
            }
        }
    }
}

/// An exported frame holds the glyph of each cell at its place, rows from
/// top to bottom and cells from left to right, and a line feed after each
/// row: nothing else, and so no control sequence, whether colour is enabled
/// or not.
pub proof fn lemma_export_layout(context: ContextView, color_enabled: bool)
    requires
        context.wf(),
    ensures
        context.frame_text(color_enabled, true).len() == context.height * (context.width + 1),
        forall|x: int, y: int|
            0 <= x < context.width && 0 <= y < context.height ==> context.frame_text(
                color_enabled,
                true,
            )[#[trigger] export_index(context.width as int, x, y)] == glyph_of(
                context.cells[y * context.width + x].intensity,
            ),
        forall|y: int|
            0 <= y < context.height ==> context.frame_text(color_enabled, true)[#[trigger] export_index(
                context.width as int,
                context.width as int,
                y,
            )] == LINE_FEED,
{
    lemma_plain_rows_text(context, context.height);
}

} // verus!
