//! Framebuffer text console: fixed-width glyphs, fixed colours, wrapping and
//! scrolling, and a terminal-session floor so backspace cannot erase the boot
//! banner above the active input region.
//!
//! The console renders into its own pixel buffer laid out like the visible
//! part of the framebuffer; the platform layer copies it to the hardware.
use vstd::prelude::*;
use vstd::string::StringSliceAdditionalSpecFns;

use crate::font::{glyph_char, glyph_for, glyph_rows, GLYPH_HEIGHT, GLYPH_WIDTH};

verus! {

pub const DEFAULT_FOREGROUND: u32 = 0xf9fafb;
pub const DEFAULT_BACKGROUND: u32 = 0x111827;
pub const PADDING_X: usize = 16;
pub const PADDING_Y: usize = 16;
/// Horizontal distance between glyph origins (glyph width plus two).
pub const GLYPH_ADVANCE_X: usize = 7;
/// Vertical distance between text rows (glyph height plus three).
pub const GLYPH_ADVANCE_Y: usize = 10;
pub const MAX_TRACKED_ROWS: usize = 512;

/// Byte order of a direct-colour pixel.
#[derive(Clone, Copy, Debug, PartialEq, Eq, Structural)]
pub enum PixelFormat {
    Rgb,
    Bgr,
    Unknown,
}

/// Geometry of the boot framebuffer as reported by the loader.
#[derive(Clone, Copy, Debug, PartialEq, Eq, Structural)]
pub struct FramebufferInfo {
    /// Size of the framebuffer memory in bytes.
    pub size: usize,
    pub width: u32,
    pub height: u32,
    /// Pixels per scan line.
    pub stride: u32,
    pub format: PixelFormat,
}

/// A text cell position.
#[derive(Clone, Copy, Debug, PartialEq, Eq, Structural)]
pub struct ConsoleCursor {
    pub column: usize,
    pub row: usize,
}

/// Scan lines backed by framebuffer memory: the reported height, cut to what
/// `size` bytes of 32-bit pixels can hold.
pub open spec fn spec_visible_height(fb: FramebufferInfo) -> int {
    let rows_from_size: int = if fb.stride == 0 { 0 } else { (fb.size / 4) as int / fb.stride as int };
    if (fb.height as int) < rows_from_size { fb.height as int } else { rows_from_size }
}

/// Text columns that fit in `width` pixels between the side paddings.
pub open spec fn spec_usable_columns(width: int) -> int {
    let usable: int = if width > 2 * PADDING_X { width - 2 * PADDING_X } else { 0 };
    if usable < GLYPH_WIDTH { 1 } else { 1 + (usable - GLYPH_WIDTH) / GLYPH_ADVANCE_X as int }
}

/// Text rows that fit in `visible_height` scan lines between the paddings.
pub open spec fn spec_usable_rows(visible_height: int) -> int {
    let usable: int = if visible_height > 2 * PADDING_Y { visible_height - 2 * PADDING_Y } else { 0 };
    if usable < GLYPH_HEIGHT { 1 } else { 1 + (usable - GLYPH_HEIGHT) / GLYPH_ADVANCE_Y as int }
}

/// The pixel value of the 0xRRGGBB colour `rgb` in a framebuffer of `format`.
pub open spec fn spec_encode_color(format: PixelFormat, rgb: u32) -> u32 {
    let red = (rgb >> 16u32) & 0xffu32;
    let green = (rgb >> 8u32) & 0xffu32;
    let blue = rgb & 0xffu32;
    match format {
        PixelFormat::Rgb => red | (green << 8u32) | (blue << 16u32),
        PixelFormat::Bgr => blue | (green << 8u32) | (red << 16u32),
        PixelFormat::Unknown => rgb,
    }
}

/// Cursor, per-row text lengths and session floor: the text-level state.
pub type TextState = (ConsoleCursor, Seq<usize>, Option<ConsoleCursor>);

/// Row lengths after the picture moved up one text row.
pub open spec fn scrolled_lengths(lengths: Seq<usize>, rows: int) -> Seq<usize> {
    Seq::new(lengths.len(), |i: int| if i < rows - 1 { lengths[i + 1] } else if i == rows - 1 { 0usize } else { lengths[i] })
}

/// Text state after the picture scrolls up by one row. Too short a screen is
/// cleared instead, and one with a single band of text has its band blanked.
pub open spec fn text_scroll(t: TextState, rows: int, visible_height: int) -> TextState {
    if visible_height <= 2 * PADDING_Y {
        (ConsoleCursor { column: 0, row: 0 }, Seq::new(t.1.len(), |i: int| 0usize), None)
    } else if visible_height - 2 * PADDING_Y <= GLYPH_ADVANCE_Y {
        t
    } else {
        (t.0, scrolled_lengths(t.1, rows), match t.2 {
            Some(f) => Some(ConsoleCursor { column: f.column, row: if f.row > 0 { (f.row - 1) as usize } else { 0 } }),
            None => None,
        })
    }
}

/// Text state after a line break.
pub open spec fn text_new_line(t: TextState, rows: int, visible_height: int) -> TextState {
    if t.0.row + 1 >= rows {
        let s = text_scroll(t, rows, visible_height);
        (ConsoleCursor { column: 0, row: (rows - 1) as usize }, s.1, s.2)
    } else {
        (ConsoleCursor { column: 0, row: (t.0.row + 1) as usize }, t.1, t.2)
    }
}

/// Text state after one glyph is written, wrapping first at the right edge.
pub open spec fn text_write_glyph(t: TextState, rows: int, columns: int, visible_height: int) -> TextState {
    let w = if t.0.column >= columns { text_new_line(t, rows, visible_height) } else { t };
    let column = (w.0.column + 1) as usize;
    let row = w.0.row;
    let length = if w.1[row as int] > column { w.1[row as int] } else { column };
    (ConsoleCursor { column, row }, w.1.update(row as int, length), w.2)
}

/// Nearest row above `below` that holds text.
pub open spec fn last_filled_row(lengths: Seq<usize>, below: int) -> Option<int>
    decreases below,
{
    if below <= 0 {
        None
    } else if lengths[below - 1] > 0 {
        Some(below - 1)
    } else {
        last_filled_row(lengths, below - 1)
    }
}

/// A row found by `last_filled_row` lies below the bound and holds text.
pub proof fn lemma_last_filled_row(lengths: Seq<usize>, below: int)
    requires
        below <= lengths.len(),
    ensures
        match last_filled_row(lengths, below) {
            Some(r) => 0 <= r < below && lengths[r] > 0,
            None => true,
        },
    decreases below,
{
    if below > 0 && lengths[below - 1] == 0 {
        lemma_last_filled_row(lengths, below - 1);
    }
}

/// The cell a backspace moves back to: the previous column, or the end of
/// the nearest non-empty row above.
pub open spec fn previous_cell(t: TextState) -> Option<ConsoleCursor> {
    if t.0.column > 0 {
        Some(ConsoleCursor { column: (t.0.column - 1) as usize, row: t.0.row })
    } else {
        match last_filled_row(t.1, t.0.row as int) {
            Some(r) => Some(ConsoleCursor { column: (t.1[r] - 1) as usize, row: r as usize }),
            None => None,
        }
    }
}

/// Whether cell `a` lies before cell `b` in reading order.
pub open spec fn cell_before(a: ConsoleCursor, b: ConsoleCursor) -> bool {
    a.row < b.row || (a.row == b.row && a.column < b.column)
}

/// The cell a backspace erases, if the session floor lets it.
pub open spec fn backspace_target(t: TextState) -> Option<ConsoleCursor> {
    match t.2 {
        None => None,
        Some(floor) => if t.0 == floor {
            None
        } else {
            match previous_cell(t) {
                Some(target) => if cell_before(target, floor) { None } else { Some(target) },
                None => None,
            }
        },
    }
}

/// Text state after a backspace.
pub open spec fn text_backspace(t: TextState) -> TextState {
    match backspace_target(t) {
        Some(target) => (target, t.1.update(target.row as int, target.column), t.2),
        None => t,
    }
}

/// Text state after one terminal byte: newline, DEL, or a glyph.
/// The text state after `bytes`, in order.
pub open spec fn text_after_bytes(t: TextState, bytes: Seq<u8>, rows: int, columns: int, visible_height: int) -> TextState
    decreases bytes.len(),
{
    if bytes.len() == 0 {
        t
    } else {
        text_after_byte(text_after_bytes(t, bytes.drop_last(), rows, columns, visible_height), bytes.last(), rows,
            columns, visible_height)
    }
}

/// `new` is `old` with the pixels that `covered` selects painted `pixel`.
pub open spec fn painted(new: Seq<u32>, old: Seq<u32>, covered: spec_fn(int) -> bool, pixel: u32) -> bool {
    &&& new.len() == old.len()
    &&& forall|i: int| 0 <= i < old.len() ==> #[trigger] new[i] == if covered(i) { pixel } else { old[i] }
}

/// Whether column `c` of a glyph row is set; the leftmost column is the
/// row's highest used bit.
pub open spec fn glyph_bit(row: u8, c: int) -> bool {
    row & (1u8 << ((GLYPH_WIDTH - 1 - c) as u8)) != 0
}

/// The points of a box that `mask` selects and that come before row `ri`,
/// column `ci` in row-major order.
pub open spec fn upto(mask: spec_fn(int, int) -> bool, ri: int, ci: int) -> spec_fn(int, int) -> bool {
    |r: int, c: int| mask(r, c) && (r < ri || (r == ri && c < ci))
}

pub open spec fn text_after_byte(t: TextState, byte: u8, rows: int, columns: int, visible_height: int) -> TextState {
    if byte == 0x0a {
        text_new_line(t, rows, visible_height)
    } else if byte == 0x7f {
        text_backspace(t)
    } else {
        text_write_glyph(t, rows, columns, visible_height)
    }
}

fn visible_height_pixels(framebuffer: FramebufferInfo) -> (r: usize)
    ensures
        r == spec_visible_height(framebuffer),
        r as int * framebuffer.stride as int <= framebuffer.size / 4,
{
    let stride = framebuffer.stride as usize;
    let max_pixels = framebuffer.size / 4;
    let rows_from_size = if stride == 0 { 0 } else { max_pixels / stride };
    let height = framebuffer.height as usize;
    let r = if height < rows_from_size { height } else { rows_from_size };
    proof {
        if stride != 0 {
            assert(rows_from_size as int * stride as int <= max_pixels) by (nonlinear_arith)
                requires
                    rows_from_size == max_pixels / stride,
                    stride > 0,
            ;
            assert(r as int * stride as int <= rows_from_size as int * stride as int) by (nonlinear_arith)
                requires
                    r <= rows_from_size,
            ;
        }
    }
    r
}

fn usable_columns(width: usize) -> (r: usize)
    ensures
        r == spec_usable_columns(width as int),
        1 <= r,
        r <= width + 1,
{
    let usable_width = if width > PADDING_X * 2 { width - PADDING_X * 2 } else { 0 };
    if usable_width < GLYPH_WIDTH {
        1
    } else {
        1 + ((usable_width - GLYPH_WIDTH) / GLYPH_ADVANCE_X)
    }
}

fn usable_rows(visible_height: usize) -> (r: usize)
    ensures
        r == spec_usable_rows(visible_height as int),
        1 <= r,
        r <= visible_height + 1,
{
    let usable_height = if visible_height > PADDING_Y * 2 { visible_height - PADDING_Y * 2 } else { 0 };
    if usable_height < GLYPH_HEIGHT {
        1
    } else {
        1 + ((usable_height - GLYPH_HEIGHT) / GLYPH_ADVANCE_Y)
    }
}

fn encode_color(format: PixelFormat, rgb: u32) -> (r: u32)
    ensures
        r == spec_encode_color(format, rgb),
{
    let red = (rgb >> 16u32) & 0xffu32;
    let green = (rgb >> 8u32) & 0xffu32;
    let blue = rgb & 0xffu32;
    match format {
        PixelFormat::Rgb => red | (green << 8u32) | (blue << 16u32),
        PixelFormat::Bgr => blue | (green << 8u32) | (red << 16u32),
        PixelFormat::Unknown => rgb,
    }
}

/// Text console drawing into a shadow of the visible framebuffer.
pub struct FramebufferConsole {
    framebuffer: FramebufferInfo,
    foreground: u32,
    background: u32,
    visible_height: usize,
    columns: usize,
    rows: usize,
    cursor_column: usize,
    cursor_row: usize,
    row_lengths: Vec<usize>,
    input_floor: Option<ConsoleCursor>,
    pixels: Vec<u32>,
}

impl FramebufferConsole {
    pub closed spec fn spec_cursor(&self) -> ConsoleCursor {
        ConsoleCursor { column: self.cursor_column, row: self.cursor_row }
    }

    pub closed spec fn spec_input_floor(&self) -> Option<ConsoleCursor> {
        self.input_floor
    }

    pub closed spec fn spec_row_lengths(&self) -> Seq<usize> {
        self.row_lengths@
    }

    pub open spec fn text(&self) -> TextState {
        (self.spec_cursor(), self.spec_row_lengths(), self.spec_input_floor())
    }

    pub closed spec fn spec_rows(&self) -> int {
        self.rows as int
    }

    pub closed spec fn spec_columns(&self) -> int {
        self.columns as int
    }

    pub closed spec fn spec_visible_height(&self) -> int {
        self.visible_height as int
    }

    pub closed spec fn spec_framebuffer(&self) -> FramebufferInfo {
        self.framebuffer
    }

    pub closed spec fn spec_background(&self) -> u32 {
        self.background
    }

    pub closed spec fn spec_foreground(&self) -> u32 {
        self.foreground
    }

    /// The rendered picture, scan line after scan line of `stride` pixels.
    pub closed spec fn spec_pixels(&self) -> Seq<u32> {
        self.pixels@
    }

    /// Same geometry and colours as `other`.
    pub open spec fn same_setup(&self, other: &Self) -> bool {
        &&& self.spec_framebuffer() == other.spec_framebuffer()
        &&& self.spec_rows() == other.spec_rows()
        &&& self.spec_columns() == other.spec_columns()
        &&& self.spec_visible_height() == other.spec_visible_height()
        &&& self.spec_foreground() == other.spec_foreground()
        &&& self.spec_background() == other.spec_background()
    }

    pub closed spec fn wf(&self) -> bool {
        &&& 1 <= self.rows <= MAX_TRACKED_ROWS
        &&& 1 <= self.columns <= self.framebuffer.width as int + 1
        &&& self.cursor_row < self.rows
        &&& self.cursor_column <= self.columns
        &&& self.row_lengths@.len() == MAX_TRACKED_ROWS
        &&& forall|i: int| 0 <= i < MAX_TRACKED_ROWS ==> #[trigger] self.row_lengths@[i] <= self.columns
        &&& self.visible_height as int == spec_visible_height(self.framebuffer)
        &&& self.pixels@.len() == self.visible_height as int * self.framebuffer.stride as int
    }

    /// Creates a console over a direct-colour framebuffer; the picture starts
    /// out all zero.
    pub fn new(framebuffer: FramebufferInfo, foreground: u32, background: u32) -> (r: Self)
        ensures
            r.wf(),
            r.spec_framebuffer() == framebuffer,
            r.spec_foreground() == foreground,
            r.spec_background() == background,
            r.spec_visible_height() == spec_visible_height(framebuffer),
            r.spec_columns() == spec_usable_columns(framebuffer.width as int),
            r.spec_rows() == if spec_usable_rows(spec_visible_height(framebuffer)) < MAX_TRACKED_ROWS {
                spec_usable_rows(spec_visible_height(framebuffer))
            } else {
                MAX_TRACKED_ROWS as int
            },
            r.spec_cursor() == (ConsoleCursor { column: 0, row: 0 }),
            r.spec_row_lengths() == Seq::new(MAX_TRACKED_ROWS as nat, |i: int| 0usize),
            r.spec_input_floor() is None,
            r.spec_pixels() == Seq::new(r.spec_pixels().len(), |i: int| 0u32),
    {
        let visible_height = visible_height_pixels(framebuffer);
        let columns = usable_columns(framebuffer.width as usize);
        let rows_fit = usable_rows(visible_height);
        let rows = if rows_fit < MAX_TRACKED_ROWS { rows_fit } else { MAX_TRACKED_ROWS };
        let mut row_lengths: Vec<usize> = Vec::new();
        while row_lengths.len() < MAX_TRACKED_ROWS
            invariant
                row_lengths@.len() <= MAX_TRACKED_ROWS,
                forall|i: int| 0 <= i < row_lengths@.len() ==> #[trigger] row_lengths@[i] == 0,
            decreases MAX_TRACKED_ROWS - row_lengths@.len(),
        {
            row_lengths.push(0);
        }
        let pixel_count = visible_height * framebuffer.stride as usize;
        let mut pixels: Vec<u32> = Vec::new();
        while pixels.len() < pixel_count
            invariant
                pixels@.len() <= pixel_count,
                forall|i: int| 0 <= i < pixels@.len() ==> #[trigger] pixels@[i] == 0,
            decreases pixel_count - pixels@.len(),
        {
            pixels.push(0);
        }
        let r = FramebufferConsole {
            framebuffer,
            foreground,
            background,
            visible_height,
            columns,
            rows,
            cursor_column: 0,
            cursor_row: 0,
            row_lengths,
            input_floor: None,
            pixels,
        };
        assert(r.spec_row_lengths() =~= Seq::new(MAX_TRACKED_ROWS as nat, |i: int| 0usize));
        assert(r.spec_pixels() =~= Seq::new(r.spec_pixels().len(), |i: int| 0u32));
        r
    }

    /// The rendered picture.
    pub fn pixels(&self) -> (r: &[u32])
        ensures
            r@ == self.spec_pixels(),
    {
        self.pixels.as_slice()
    }

    /// Where the next glyph goes.
    pub fn cursor(&self) -> (r: ConsoleCursor)
        ensures
            r == self.spec_cursor(),
    {
        ConsoleCursor { column: self.cursor_column, row: self.cursor_row }
    }

    /// Paints the whole picture in the background colour and resets the
    /// cursor, the row lengths and the session floor.
    pub fn clear(&mut self)
        requires
            old(self).wf(),
        ensures
            final(self).wf(),
            final(self).same_setup(&*old(self)),
            final(self).spec_cursor() == (ConsoleCursor { column: 0, row: 0 }),
            final(self).spec_row_lengths() == Seq::new(MAX_TRACKED_ROWS as nat, |i: int| 0usize),
            final(self).spec_input_floor() is None,
            final(self).spec_pixels().len() == old(self).spec_pixels().len(),
            forall|i: int| 0 <= i < final(self).spec_pixels().len() ==>
                #[trigger] final(self).spec_pixels()[i] == spec_encode_color(old(self).spec_framebuffer().format, old(self).spec_background()),
    {
        let pixel = encode_color(self.framebuffer.format, self.background);
        let mut index: usize = 0;
        while index < self.pixels.len()
            invariant
                self.wf(),
                self.same_setup(&*old(self)),
                self.cursor_column == old(self).cursor_column,
                self.cursor_row == old(self).cursor_row,
                self.row_lengths@ == old(self).row_lengths@,
                self.pixels@.len() == old(self).pixels@.len(),
                pixel == spec_encode_color(old(self).spec_framebuffer().format, old(self).spec_background()),
                index <= self.pixels@.len(),
                forall|i: int| 0 <= i < index ==> #[trigger] self.pixels@[i] == pixel,
            decreases self.pixels@.len() - index,
        {
            self.pixels.set(index, pixel);
            index += 1;
        }
        self.cursor_column = 0;
        self.cursor_row = 0;
        let mut row: usize = 0;
        while row < MAX_TRACKED_ROWS
            invariant
                self.wf(),
                self.same_setup(&*old(self)),
                self.cursor_column == 0,
                self.cursor_row == 0,
                self.pixels@.len() == old(self).pixels@.len(),
                pixel == spec_encode_color(old(self).spec_framebuffer().format, old(self).spec_background()),
                forall|i: int| 0 <= i < self.pixels@.len() ==> #[trigger] self.pixels@[i] == pixel,
                forall|i: int| 0 <= i < row ==> #[trigger] self.row_lengths@[i] == 0,
            decreases MAX_TRACKED_ROWS - row,
        {
            self.row_lengths.set(row, 0);
            row += 1;
        }
        self.input_floor = None;
        assert(self.spec_row_lengths() =~= Seq::new(MAX_TRACKED_ROWS as nat, |i: int| 0usize));
    }

    /// Marks the current cursor position as the earliest cell a terminal
    /// session may backspace into.
    pub fn begin_terminal_session(&mut self)
        requires
            old(self).wf(),
        ensures
            final(self).wf(),
            final(self).same_setup(&*old(self)),
            final(self).spec_input_floor() == Some(old(self).spec_cursor()),
            final(self).spec_cursor() == old(self).spec_cursor(),
            final(self).spec_row_lengths() == old(self).spec_row_lengths(),
            final(self).spec_pixels() == old(self).spec_pixels(),
    {
        self.input_floor = Some(ConsoleCursor { column: self.cursor_column, row: self.cursor_row });
    }

    /// Index of the pixel at `(x, y)`, when that pixel is on screen.
    pub closed spec fn pixel_slot(&self, x: int, y: int) -> Option<int> {
        let i = y * self.framebuffer.stride as int + x;
        if 0 <= x < self.framebuffer.width as int && 0 <= y < self.visible_height as int && i < self.pixels@.len() {
            Some(i)
        } else {
            None
        }
    }

    /// Only the picture may have changed, and its size stays.
    pub open spec fn redrawn_from(&self, other: &Self) -> bool {
        &&& self.same_setup(other)
        &&& self.text() == other.text()
        &&& self.spec_pixels().len() == other.spec_pixels().len()
    }

    /// Pixel `i` shows a point of the `w` by `h` box whose top-left corner
    /// is `(x, y)`, and `mask` selects that point by its row and column in
    /// the box.
    pub open spec fn box_covers(&self, x: int, y: int, w: int, h: int, mask: spec_fn(int, int) -> bool, i: int) -> bool {
        exists|px: int, py: int| x <= px < x + w && y <= py < y + h && mask(py - y, px - x)
            && #[trigger] self.pixel_slot(px, py) == Some(i)
    }

    /// Pixel slots depend on the setup and the picture's size only.
    proof fn lemma_same_slots(&self, other: &Self)
        requires
            self.same_setup(other),
            self.spec_pixels().len() == other.spec_pixels().len(),
        ensures
            forall|x: int, y: int| #[trigger] self.pixel_slot(x, y) == other.pixel_slot(x, y),
    {
    }

    /// Masks that agree inside the box cover the same pixels.
    proof fn lemma_box_same(&self, x: int, y: int, w: int, h: int, m1: spec_fn(int, int) -> bool, m2: spec_fn(int, int) -> bool)
        requires
            forall|r: int, c: int| 0 <= r < h && 0 <= c < w ==> #[trigger] m1(r, c) == m2(r, c),
        ensures
            forall|i: int| #[trigger] self.box_covers(x, y, w, h, m1, i) == self.box_covers(x, y, w, h, m2, i),
    {
        assert forall|i: int| #[trigger] self.box_covers(x, y, w, h, m1, i) implies self.box_covers(x, y, w, h, m2, i) by {
            let (px, py) = choose|px: int, py: int| x <= px < x + w && y <= py < y + h && m1(py - y, px - x)
                && #[trigger] self.pixel_slot(px, py) == Some(i);
            assert(m2(py - y, px - x));
        }
        assert forall|i: int| #[trigger] self.box_covers(x, y, w, h, m2, i) implies self.box_covers(x, y, w, h, m1, i) by {
            let (px, py) = choose|px: int, py: int| x <= px < x + w && y <= py < y + h && m2(py - y, px - x)
                && #[trigger] self.pixel_slot(px, py) == Some(i);
            assert(m1(py - y, px - x));
        }
    }

    /// `pixels` is this picture with the cursor's cell painted in the
    /// background colour and the set bits of the glyph for `byte` in the
    /// foreground colour.
    pub open spec fn glyph_painted(&self, pixels: Seq<u32>, byte: u8) -> bool {
        let ox = PADDING_X + self.spec_cursor().column * GLYPH_ADVANCE_X;
        let oy = PADDING_Y + self.spec_cursor().row * GLYPH_ADVANCE_Y;
        let rows = glyph_rows(glyph_char(byte));
        let format = self.spec_framebuffer().format;
        &&& pixels.len() == self.spec_pixels().len()
        &&& forall|i: int| 0 <= i < self.spec_pixels().len() ==> #[trigger] pixels[i]
            == if self.box_covers(ox, oy, GLYPH_WIDTH as int, GLYPH_HEIGHT as int, |r: int, c: int| glyph_bit(rows[r], c), i) {
                spec_encode_color(format, self.spec_foreground())
            } else if self.box_covers(ox, oy, GLYPH_ADVANCE_X as int, GLYPH_HEIGHT as int, |r: int, c: int| true, i) {
                spec_encode_color(format, self.spec_background())
            } else {
                self.spec_pixels()[i]
            }
    }

    /// Consoles with the same pixel slots cover the same pixels with a box.
    proof fn lemma_box_other(&self, other: &Self, x: int, y: int, w: int, h: int, mask: spec_fn(int, int) -> bool)
        requires
            forall|px: int, py: int| #[trigger] self.pixel_slot(px, py) == other.pixel_slot(px, py),
        ensures
            forall|i: int| #[trigger] self.box_covers(x, y, w, h, mask, i) == other.box_covers(x, y, w, h, mask, i),
    {
        assert forall|i: int| #[trigger] self.box_covers(x, y, w, h, mask, i) implies other.box_covers(x, y, w, h, mask, i) by {
            let (px, py) = choose|px: int, py: int| x <= px < x + w && y <= py < y + h && mask(py - y, px - x)
                && #[trigger] self.pixel_slot(px, py) == Some(i);
            assert(other.pixel_slot(px, py) == Some(i));
        }
        assert forall|i: int| #[trigger] other.box_covers(x, y, w, h, mask, i) implies self.box_covers(x, y, w, h, mask, i) by {
            let (px, py) = choose|px: int, py: int| x <= px < x + w && y <= py < y + h && mask(py - y, px - x)
                && #[trigger] other.pixel_slot(px, py) == Some(i);
            assert(self.pixel_slot(px, py) == Some(i));
        }
    }

    /// Painting one more point of the box, the one at row `r0` and column
    /// `c0`, extends a picture painted over `m1` to one painted over `m2`.
    proof fn lemma_box_step(
        &self,
        before: Seq<u32>,
        after: Seq<u32>,
        orig: Seq<u32>,
        x: int,
        y: int,
        w: int,
        h: int,
        m1: spec_fn(int, int) -> bool,
        m2: spec_fn(int, int) -> bool,
        r0: int,
        c0: int,
        pixel: u32,
    )
        requires
            painted(before, orig, |i: int| self.box_covers(x, y, w, h, m1, i), pixel),
            before.len() == self.spec_pixels().len(),
            0 <= r0 < h,
            0 <= c0 < w,
            forall|r: int, c: int| #[trigger] m2(r, c) == (m1(r, c) || (r == r0 && c == c0)),
            after == match self.pixel_slot(x + c0, y + r0) {
                Some(s) => before.update(s, pixel),
                None => before,
            },
        ensures
            painted(after, orig, |i: int| self.box_covers(x, y, w, h, m2, i), pixel),
    {
        assert(after.len() == orig.len());
        assert forall|i: int| 0 <= i < orig.len() implies #[trigger] after[i]
            == if self.box_covers(x, y, w, h, m2, i) { pixel } else { orig[i] } by {
            let slot = self.pixel_slot(x + c0, y + r0);
            assert(before[i] == if self.box_covers(x, y, w, h, m1, i) { pixel } else { orig[i] });
            if slot == Some(i) {
                assert(m2((y + r0) - y, (x + c0) - x));
                assert(self.box_covers(x, y, w, h, m2, i));
            } else {
                if self.box_covers(x, y, w, h, m1, i) {
                    let (px, py) = choose|px: int, py: int| x <= px < x + w && y <= py < y + h && m1(py - y, px - x)
                        && #[trigger] self.pixel_slot(px, py) == Some(i);
                    assert(m2(py - y, px - x));
                    assert(self.box_covers(x, y, w, h, m2, i));
                }
                if self.box_covers(x, y, w, h, m2, i) {
                    let (px, py) = choose|px: int, py: int| x <= px < x + w && y <= py < y + h && m2(py - y, px - x)
                        && #[trigger] self.pixel_slot(px, py) == Some(i);
                    if !m1(py - y, px - x) {
                        assert(px == x + c0 && py == y + r0);
                        assert(false);
                    }
                    assert(self.box_covers(x, y, w, h, m1, i));
                }
            }
        }
    }

    fn put_pixel(&mut self, x: u64, y: u64, pixel: u32)
        requires
            old(self).wf(),
        ensures
            final(self).wf(),
            final(self).redrawn_from(&*old(self)),
            final(self).spec_pixels() == match old(self).pixel_slot(x as int, y as int) {
                Some(i) => old(self).spec_pixels().update(i, pixel),
                None => old(self).spec_pixels(),
            },
    {
        if x >= self.framebuffer.width as u64 || y >= self.visible_height as u64 {
            return;
        }
        let stride = self.framebuffer.stride as u64;
        let len = self.pixels.len() as u64;
        proof {
            let vh = self.visible_height as int;
            assert(y as int * stride as int <= vh * stride as int) by (nonlinear_arith)
                requires
                    y < vh,
                    stride >= 0,
            ;
        }
        let row_start = y * stride;
        let index = match row_start.checked_add(x) {
            Some(index) => index,
            None => return,
        };
        if index >= len {
            return;
        }
        self.pixels.set(index as usize, pixel);
    }

    /// Paints scan lines `[start_y, end_y)` in the background colour; the
    /// other pixels stay.
    fn clear_band(&mut self, start_y: usize, end_y: usize)
        requires
            old(self).wf(),
            start_y <= end_y <= old(self).spec_visible_height(),
        ensures
            final(self).wf(),
            final(self).redrawn_from(&*old(self)),
            painted(final(self).spec_pixels(), old(self).spec_pixels(),
                |i: int| start_y * old(self).spec_framebuffer().stride <= i < end_y * old(self).spec_framebuffer().stride,
                spec_encode_color(old(self).spec_framebuffer().format, old(self).spec_background())),
    {
        let pixel = encode_color(self.framebuffer.format, self.background);
        let stride = self.framebuffer.stride as usize;
        let total = self.pixels.len();
        proof {
            let vh = self.visible_height as int;
            assert(end_y as int * stride as int <= vh * stride as int) by (nonlinear_arith)
                requires
                    end_y <= vh,
                    stride >= 0,
            ;
            assert(start_y as int * stride as int <= end_y as int * stride as int) by (nonlinear_arith)
                requires
                    start_y <= end_y,
                    stride >= 0,
            ;
        }
        let first = start_y * stride;
        let last = end_y * stride;
        let mut index = first;
        while index < last
            invariant
                self.wf(),
                self.redrawn_from(&*old(self)),
                first <= index <= last,
                last <= self.pixels@.len(),
                first == start_y * old(self).spec_framebuffer().stride,
                last == end_y * old(self).spec_framebuffer().stride,
                pixel == spec_encode_color(old(self).spec_framebuffer().format, old(self).spec_background()),
                painted(self.spec_pixels(), old(self).spec_pixels(), |i: int| first <= i < index, pixel),
            decreases last - index,
        {
            self.pixels.set(index, pixel);
            index += 1;
        }
    }

    /// Draws the set bits of `glyph` with its top-left corner at
    /// `(origin_x, origin_y)`; the other pixels stay.
    fn draw_glyph(&mut self, origin_x: u64, origin_y: u64, glyph: [u8; GLYPH_HEIGHT], pixel: u32)
        requires
            old(self).wf(),
            origin_x < 0x1_0000_0000_0000,
            origin_y < 0x1_0000_0000_0000,
        ensures
            final(self).wf(),
            final(self).redrawn_from(&*old(self)),
            painted(final(self).spec_pixels(), old(self).spec_pixels(), |i: int| old(self).box_covers(origin_x as int,
                origin_y as int, GLYPH_WIDTH as int, GLYPH_HEIGHT as int, |r: int, c: int| glyph_bit(glyph@[r], c), i), pixel),
    {
        let ghost base = |r: int, c: int| glyph_bit(glyph@[r], c);
        let ghost ox = origin_x as int;
        let ghost oy = origin_y as int;
        let ghost w = GLYPH_WIDTH as int;
        let ghost h = GLYPH_HEIGHT as int;
        proof {
            old(self).lemma_box_same(ox, oy, w, h, upto(base, 0, 0), |r: int, c: int| false);
            assert(painted(self.spec_pixels(), old(self).spec_pixels(),
                |i: int| old(self).box_covers(ox, oy, w, h, upto(base, 0, 0), i), pixel));
        }
        let mut row_index: usize = 0;
        while row_index < GLYPH_HEIGHT
            invariant
                self.wf(),
                self.redrawn_from(&*old(self)),
                origin_x < 0x1_0000_0000_0000,
                origin_y < 0x1_0000_0000_0000,
                ox == origin_x,
                oy == origin_y,
                w == GLYPH_WIDTH,
                h == GLYPH_HEIGHT,
                base == (|r: int, c: int| glyph_bit(glyph@[r], c)),
                row_index <= GLYPH_HEIGHT,
                painted(self.spec_pixels(), old(self).spec_pixels(),
                    |i: int| old(self).box_covers(ox, oy, w, h, upto(base, row_index as int, 0), i), pixel),
            decreases GLYPH_HEIGHT - row_index,
        {
            let row = glyph[row_index];
            let mut column_index: usize = 0;
            while column_index < GLYPH_WIDTH
                invariant
                    self.wf(),
                    self.redrawn_from(&*old(self)),
                    origin_x < 0x1_0000_0000_0000,
                    origin_y < 0x1_0000_0000_0000,
                    ox == origin_x,
                    oy == origin_y,
                    w == GLYPH_WIDTH,
                    h == GLYPH_HEIGHT,
                    base == (|r: int, c: int| glyph_bit(glyph@[r], c)),
                    row_index < GLYPH_HEIGHT,
                    row == glyph@[row_index as int],
                    column_index <= GLYPH_WIDTH,
                    painted(self.spec_pixels(), old(self).spec_pixels(),
                        |i: int| old(self).box_covers(ox, oy, w, h, upto(base, row_index as int, column_index as int), i), pixel),
                decreases GLYPH_WIDTH - column_index,
            {
                let bit: u8 = 1u8 << ((GLYPH_WIDTH - 1 - column_index) as u8);
                let ghost m1 = upto(base, row_index as int, column_index as int);
                let ghost m2 = upto(base, row_index as int, column_index + 1);
                if row & bit != 0 {
                    let ghost before = *self;
                    self.put_pixel(origin_x + column_index as u64, origin_y + row_index as u64, pixel);
                    proof {
                        before.lemma_same_slots(&*old(self));
                        assert(base(row_index as int, column_index as int));
                        assert forall|r: int, c: int| #[trigger] m2(r, c) == (m1(r, c)
                            || (r == row_index && c == column_index)) by {}
                        old(self).lemma_box_step(before.spec_pixels(), self.spec_pixels(), old(self).spec_pixels(),
                            ox, oy, w, h, m1, m2, row_index as int, column_index as int, pixel);
                    }
                } else {
                    proof {
                        assert(!base(row_index as int, column_index as int));
                        old(self).lemma_box_same(ox, oy, w, h, m1, m2);
                    }
                }
                column_index += 1;
            }
            proof {
                old(self).lemma_box_same(ox, oy, w, h, upto(base, row_index as int, w), upto(base, row_index + 1, 0));
            }
            row_index += 1;
        }
        proof {
            old(self).lemma_box_same(ox, oy, w, h, upto(base, h, 0), base);
        }
    }

    /// Paints the cell whose glyph origin is `(origin_x, origin_y)`, including
    /// the gap to the next cell, in the background colour; the other pixels
    /// stay.
    fn clear_glyph_area(&mut self, origin_x: u64, origin_y: u64)
        requires
            old(self).wf(),
            origin_x < 0x1_0000_0000_0000,
            origin_y < 0x1_0000_0000_0000,
        ensures
            final(self).wf(),
            final(self).redrawn_from(&*old(self)),
            painted(final(self).spec_pixels(), old(self).spec_pixels(), |i: int| old(self).box_covers(origin_x as int,
                origin_y as int, GLYPH_ADVANCE_X as int, GLYPH_HEIGHT as int, |r: int, c: int| true, i),
                spec_encode_color(old(self).spec_framebuffer().format, old(self).spec_background())),
    {
        let background = encode_color(self.framebuffer.format, self.background);
        let ghost base = |r: int, c: int| true;
        let ghost ox = origin_x as int;
        let ghost oy = origin_y as int;
        let ghost w = GLYPH_ADVANCE_X as int;
        let ghost h = GLYPH_HEIGHT as int;
        proof {
            old(self).lemma_box_same(ox, oy, w, h, upto(base, 0, 0), |r: int, c: int| false);
            assert(painted(self.spec_pixels(), old(self).spec_pixels(),
                |i: int| old(self).box_covers(ox, oy, w, h, upto(base, 0, 0), i), background));
        }
        let mut row: usize = 0;
        while row < GLYPH_HEIGHT
            invariant
                self.wf(),
                self.redrawn_from(&*old(self)),
                origin_x < 0x1_0000_0000_0000,
                origin_y < 0x1_0000_0000_0000,
                ox == origin_x,
                oy == origin_y,
                w == GLYPH_ADVANCE_X,
                h == GLYPH_HEIGHT,
                base == (|r: int, c: int| true),
                background == spec_encode_color(old(self).spec_framebuffer().format, old(self).spec_background()),
                row <= GLYPH_HEIGHT,
                painted(self.spec_pixels(), old(self).spec_pixels(),
                    |i: int| old(self).box_covers(ox, oy, w, h, upto(base, row as int, 0), i), background),
            decreases GLYPH_HEIGHT - row,
        {
            let mut column: usize = 0;
            while column < GLYPH_ADVANCE_X
                invariant
                    self.wf(),
                    self.redrawn_from(&*old(self)),
                    origin_x < 0x1_0000_0000_0000,
                    origin_y < 0x1_0000_0000_0000,
                    ox == origin_x,
                    oy == origin_y,
                    w == GLYPH_ADVANCE_X,
                    h == GLYPH_HEIGHT,
                    base == (|r: int, c: int| true),
                    row < GLYPH_HEIGHT,
                    column <= GLYPH_ADVANCE_X,
                    painted(self.spec_pixels(), old(self).spec_pixels(),
                        |i: int| old(self).box_covers(ox, oy, w, h, upto(base, row as int, column as int), i), background),
                decreases GLYPH_ADVANCE_X - column,
            {
                let ghost m1 = upto(base, row as int, column as int);
                let ghost m2 = upto(base, row as int, column + 1);
                let ghost before = *self;
                self.put_pixel(origin_x + column as u64, origin_y + row as u64, background);
                proof {
                    before.lemma_same_slots(&*old(self));
                    assert forall|r: int, c: int| #[trigger] m2(r, c) == (m1(r, c) || (r == row && c == column)) by {}
                    old(self).lemma_box_step(before.spec_pixels(), self.spec_pixels(), old(self).spec_pixels(),
                        ox, oy, w, h, m1, m2, row as int, column as int, background);
                }
                column += 1;
            }
            proof {
                old(self).lemma_box_same(ox, oy, w, h, upto(base, row as int, w), upto(base, row + 1, 0));
            }
            row += 1;
        }
        proof {
            old(self).lemma_box_same(ox, oy, w, h, upto(base, h, 0), base);
        }
    }

    fn cell_origin(column: usize, row: usize) -> (r: (u64, u64))
        requires
            column <= 0x1_0000_0000,
            row <= MAX_TRACKED_ROWS,
        ensures
            r.0 == PADDING_X + column * GLYPH_ADVANCE_X,
            r.1 == PADDING_Y + row * GLYPH_ADVANCE_Y,
            r.0 < 0x1_0000_0000_0000,
            r.1 < 0x1_0000_0000_0000,
    {
        let column = column as u64;
        let row = row as u64;
        assert(column * 7 <= 7 * 0x1_0000_0000) by (nonlinear_arith)
            requires
                column <= 0x1_0000_0000,
        ;
        assert(row * 10 <= 10 * MAX_TRACKED_ROWS) by (nonlinear_arith)
            requires
                row <= MAX_TRACKED_ROWS,
        ;
        (16 + column * 7, 16 + row * 10)
    }

    /// Paints the text cell at `(column, row)` in the background colour.
    fn clear_cell(&mut self, column: usize, row: usize)
        requires
            old(self).wf(),
            column <= 0x1_0000_0000,
            row <= MAX_TRACKED_ROWS,
        ensures
            final(self).wf(),
            final(self).redrawn_from(&*old(self)),
            painted(final(self).spec_pixels(), old(self).spec_pixels(), |i: int| old(self).box_covers(
                PADDING_X + column * GLYPH_ADVANCE_X, PADDING_Y + row * GLYPH_ADVANCE_Y, GLYPH_ADVANCE_X as int,
                GLYPH_HEIGHT as int, |r: int, c: int| true, i),
                spec_encode_color(old(self).spec_framebuffer().format, old(self).spec_background())),
    {
        let (origin_x, origin_y) = Self::cell_origin(column, row);
        self.clear_glyph_area(origin_x, origin_y);
    }

    /// Moves the picture up one text row; a screen too short for that is
    /// cleared, and one with a single text band has that band blanked.
    fn scroll_up(&mut self)
        requires
            old(self).wf(),
        ensures
            final(self).wf(),
            final(self).same_setup(&*old(self)),
            final(self).text() == text_scroll(old(self).text(), old(self).spec_rows(), old(self).spec_visible_height()),
    {
        let top = if PADDING_Y < self.visible_height { PADDING_Y } else { self.visible_height };
        let bottom = if self.visible_height > PADDING_Y { self.visible_height - PADDING_Y } else { 0 };
        if bottom <= top {
            self.clear();
            assert(self.spec_row_lengths() =~= Seq::new(old(self).spec_row_lengths().len(), |i: int| 0usize));
            return;
        }
        if bottom - top <= GLYPH_ADVANCE_Y {
            self.clear_band(top, bottom);
            return;
        }
        let stride = self.framebuffer.stride as usize;
        let total = self.pixels.len();
        proof {
            let vh = self.visible_height as int;
            assert(bottom as int * stride as int <= vh * stride as int) by (nonlinear_arith)
                requires
                    bottom <= vh,
                    stride >= 0,
            ;
            assert(top as int * stride as int <= (top + GLYPH_ADVANCE_Y) as int * stride as int) by (nonlinear_arith)
                requires
                    stride >= 0,
            ;
            assert((top + GLYPH_ADVANCE_Y) as int * stride as int <= bottom as int * stride as int) by (nonlinear_arith)
                requires
                    top + GLYPH_ADVANCE_Y <= bottom,
                    stride >= 0,
            ;
        }
        let destination = top * stride;
        let source = (top + GLYPH_ADVANCE_Y) * stride;
        let source_end = bottom * stride;
        let mut offset: usize = 0;
        while offset < source_end - source
            invariant
                self.wf(),
                self.redrawn_from(&*old(self)),
                destination <= source <= source_end <= self.pixels@.len(),
            decreases source_end - source - offset,
        {
            let value = self.pixels[source + offset];
            self.pixels.set(destination + offset, value);
            offset += 1;
        }
        let ghost lengths = self.row_lengths@;
        let rows = self.rows;
        let mut row: usize = 0;
        while row + 1 < rows
            invariant
                self.wf(),
                self.same_setup(&*old(self)),
                self.cursor_column == old(self).cursor_column,
                self.cursor_row == old(self).cursor_row,
                self.input_floor == old(self).input_floor,
                lengths == old(self).row_lengths@,
                rows == self.rows,
                row < rows,
                self.row_lengths@.len() == lengths.len(),
                forall|i: int| 0 <= i < row ==> #[trigger] self.row_lengths@[i] == lengths[i + 1],
                forall|i: int| row <= i < lengths.len() ==> #[trigger] self.row_lengths@[i] == lengths[i],
            decreases rows - row,
        {
            let next = self.row_lengths[row + 1];
            self.row_lengths.set(row, next);
            row += 1;
        }
        self.row_lengths.set(rows - 1, 0);
        if let Some(floor) = self.input_floor {
            self.input_floor = Some(ConsoleCursor {
                column: floor.column,
                row: if floor.row > 0 { floor.row - 1 } else { 0 },
            });
        }
        assert(self.spec_row_lengths() =~= scrolled_lengths(lengths, rows as int));
        self.clear_band(bottom - GLYPH_ADVANCE_Y, bottom);
    }

    /// Moves the cursor to the start of the next row, scrolling at the bottom.
    fn new_line(&mut self)
        requires
            old(self).wf(),
        ensures
            final(self).wf(),
            final(self).same_setup(&*old(self)),
            final(self).text() == text_new_line(old(self).text(), old(self).spec_rows(), old(self).spec_visible_height()),
    {
        if self.cursor_row + 1 >= self.rows {
            self.scroll_up();
            self.cursor_row = self.rows - 1;
            self.cursor_column = 0;
        } else {
            self.cursor_column = 0;
            self.cursor_row = self.cursor_row + 1;
        }
    }

    /// Writes one glyph at the cursor, wrapping at the right edge. Without a
    /// wrap, the cursor's cell is painted in the background colour and the
    /// glyph's set bits in the foreground colour; the other pixels stay.
    fn write_byte(&mut self, byte: u8)
        requires
            old(self).wf(),
        ensures
            final(self).wf(),
            final(self).same_setup(&*old(self)),
            final(self).text() == text_write_glyph(old(self).text(), old(self).spec_rows(),
                old(self).spec_columns(), old(self).spec_visible_height()),
            old(self).spec_cursor().column < old(self).spec_columns() ==> old(self).glyph_painted(final(self).spec_pixels(), byte),
    {
        if self.cursor_column >= self.columns {
            self.new_line();
        }
        let (origin_x, origin_y) = Self::cell_origin(self.cursor_column, self.cursor_row);
        let ghost start = *self;
        self.clear_glyph_area(origin_x, origin_y);
        let ghost cleared = *self;
        let pixel = encode_color(self.framebuffer.format, self.foreground);
        let glyph = glyph_for(byte);
        self.draw_glyph(origin_x, origin_y, glyph, pixel);
        proof {
            if old(self).spec_cursor().column < old(self).spec_columns() {
                let rows = glyph_rows(glyph_char(byte));
                let m1 = |r: int, c: int| glyph_bit(glyph@[r], c);
                let m2 = |r: int, c: int| glyph_bit(rows[r], c);
                assert(m1 =~= m2);
                cleared.lemma_same_slots(&start);
                cleared.lemma_box_other(&start, origin_x as int, origin_y as int, GLYPH_WIDTH as int, GLYPH_HEIGHT as int, m2);
            }
        }
        self.cursor_column = self.cursor_column + 1;
        let row = self.cursor_row;
        let length = self.row_lengths[row];
        let updated = if length > self.cursor_column { length } else { self.cursor_column };
        self.row_lengths.set(row, updated);
    }

    /// The cell before the cursor in reading order, skipping empty rows.
    fn previous_cursor_position(&self) -> (r: Option<ConsoleCursor>)
        requires
            self.wf(),
        ensures
            r == previous_cell(self.text()),
    {
        if self.cursor_column > 0 {
            return Some(ConsoleCursor { column: self.cursor_column - 1, row: self.cursor_row });
        }
        let mut row = self.cursor_row;
        while row > 0
            invariant
                self.wf(),
                self.cursor_column == 0,
                row <= self.cursor_row,
                last_filled_row(self.row_lengths@, self.cursor_row as int) == last_filled_row(self.row_lengths@, row as int),
            decreases row,
        {
            row -= 1;
            let length = self.row_lengths[row];
            if length > 0 {
                return Some(ConsoleCursor { column: length - 1, row });
            }
        }
        None
    }

    /// Erases the cell before the cursor unless that would cross the session
    /// floor; reports whether it did.
    fn backspace_from_session(&mut self) -> (r: bool)
        requires
            old(self).wf(),
        ensures
            final(self).wf(),
            final(self).same_setup(&*old(self)),
            r == backspace_target(old(self).text()) is Some,
            final(self).text() == text_backspace(old(self).text()),
    {
        let floor = match self.input_floor {
            Some(floor) => floor,
            None => return false,
        };
        if self.cursor_row == floor.row && self.cursor_column == floor.column {
            return false;
        }
        let target = match self.previous_cursor_position() {
            Some(target) => target,
            None => return false,
        };
        proof {
            lemma_last_filled_row(self.row_lengths@, self.cursor_row as int);
        }
        if target.row < floor.row || (target.row == floor.row && target.column < floor.column) {
            return false;
        }
        self.clear_cell(target.column, target.row);
        self.cursor_column = target.column;
        self.cursor_row = target.row;
        self.row_lengths.set(target.row, target.column);
        true
    }

    /// Interprets one terminal byte: newline, DEL (erase one cell back to
    /// the session floor), or a glyph.
    pub fn write_terminal_byte(&mut self, byte: u8)
        requires
            old(self).wf(),
        ensures
            final(self).wf(),
            final(self).same_setup(&*old(self)),
            final(self).text() == text_after_byte(old(self).text(), byte, old(self).spec_rows(),
                old(self).spec_columns(), old(self).spec_visible_height()),
            byte != 0x0a && byte != 0x7f && old(self).spec_cursor().column < old(self).spec_columns()
                ==> old(self).glyph_painted(final(self).spec_pixels(), byte),
    {
        if byte == 0x0a {
            self.new_line();
        } else if byte == 0x7f {
            let _ = self.backspace_from_session();
        } else {
            self.write_byte(byte);
        }
    }

    /// Writes every byte of `text` through the terminal byte path.
    pub fn write_str(&mut self, text: &str)
        requires
            old(self).wf(),
        ensures
            final(self).wf(),
            final(self).same_setup(&*old(self)),
            final(self).text() == text_after_bytes(old(self).text(), text.spec_bytes(), old(self).spec_rows(),
                old(self).spec_columns(), old(self).spec_visible_height()),
    {
        let bytes = text.as_bytes();
        let mut index: usize = 0;
        while index < bytes.len()
            invariant
                self.wf(),
                self.same_setup(&*old(self)),
                index <= bytes@.len(),
                self.text() == text_after_bytes(old(self).text(), bytes@.take(index as int), old(self).spec_rows(),
                    old(self).spec_columns(), old(self).spec_visible_height()),
            decreases bytes.len() - index,
        {
            self.write_terminal_byte(bytes[index]);
            proof {
                assert(bytes@.take(index + 1).drop_last() =~= bytes@.take(index as int));
            }
            index += 1;
        }
        proof {
            assert(bytes@.take(index as int) =~= bytes@);
        }
    }
}


/// Creates the boot console with the default colours.
pub fn init(framebuffer: FramebufferInfo) -> (r: FramebufferConsole)
    ensures
        r.wf(),
        r.spec_framebuffer() == framebuffer,
        r.spec_foreground() == DEFAULT_FOREGROUND,
        r.spec_background() == DEFAULT_BACKGROUND,
        r.spec_cursor() == (ConsoleCursor { column: 0, row: 0 }),
        r.spec_input_floor() is None,
{
    FramebufferConsole::new(framebuffer, DEFAULT_FOREGROUND, DEFAULT_BACKGROUND)
}

/// Clears the console picture and its text state.
pub fn clear(console: &mut FramebufferConsole)
    requires
        old(console).wf(),
    ensures
        final(console).wf(),
        final(console).same_setup(&*old(console)),
        final(console).spec_cursor() == (ConsoleCursor { column: 0, row: 0 }),
        final(console).spec_row_lengths() == Seq::new(MAX_TRACKED_ROWS as nat, |i: int| 0usize),
        final(console).spec_input_floor() is None,
{
    console.clear();
}

/// Starts an interactive session at the console cursor.
pub fn begin_terminal_session(console: &mut FramebufferConsole)
    requires
        old(console).wf(),
    ensures
        final(console).wf(),
        final(console).same_setup(&*old(console)),
        final(console).spec_input_floor() == Some(old(console).spec_cursor()),
        final(console).spec_cursor() == old(console).spec_cursor(),
        final(console).spec_row_lengths() == old(console).spec_row_lengths(),
{
    console.begin_terminal_session();
}

/// Interprets one terminal byte on the console.
pub fn write_terminal_byte(console: &mut FramebufferConsole, byte: u8)
    requires
        old(console).wf(),
    ensures
        final(console).wf(),
        final(console).same_setup(&*old(console)),
        final(console).text() == text_after_byte(old(console).text(), byte, old(console).spec_rows(),
            old(console).spec_columns(), old(console).spec_visible_height()),
        byte != 0x0a && byte != 0x7f && old(console).spec_cursor().column < old(console).spec_columns()
            ==> old(console).glyph_painted(final(console).spec_pixels(), byte),
{
    console.write_terminal_byte(byte);
}

/// Writes already formatted text to the console.
pub fn write_fmt(console: &mut FramebufferConsole, text: &str)
    requires
        old(console).wf(),
    ensures
        final(console).wf(),
        final(console).same_setup(&*old(console)),
        final(console).text() == text_after_bytes(old(console).text(), text.spec_bytes(), old(console).spec_rows(),
            old(console).spec_columns(), old(console).spec_visible_height()),
{
    console.write_str(text);
}

} // verus!
