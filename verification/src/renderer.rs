//! The renderer's frame buffer: a depth-tested grid at twice the terminal
//! resolution, the mapping from pixel coordinates to cells, and the text
//! frame that shows it on a terminal.

use vstd::prelude::*;

verus! {

/// The buffer's resolution relative to the terminal: each terminal cell covers
/// a `SCALE` x `SCALE` block of buffer pixels.
pub const SCALE: usize = 2;

/// A frame buffer of `width` x `height` terminal cells; each buffer pixel holds
/// an optional value `P` (what was drawn there, if anything).
pub struct Renderer<P> {
    pub width: usize,
    pub height: usize,
    pub buffer: Vec<Option<P>>,
    pub scale: usize,
}

/// The dimensions `width` x `height` can be held: the buffer's length fits in memory.
pub open spec fn dims_ok(width: int, height: int) -> bool {
    &&& 0 <= width && 0 <= height
    &&& width * height * 4 <= usize::MAX
}

/// `v` converted to `i32` as a cast does: the low 32 bits, read as a signed number.
pub open spec fn wrap_i32(v: int) -> int {
    (v as i32) as int
}

/// Integer halving rounded toward zero, as `/ 2` does on machine integers.
pub open spec fn half_toward_zero(v: int) -> int {
    if v >= 0 { v / 2 } else { -((-v) / 2) }
}

proof fn lemma_wrap_le(v: usize)
    ensures
        wrap_i32(v as int) <= v,
        v <= i32::MAX ==> wrap_i32(v as int) == v,
{
    assert((v as i32) as int <= v as int) by (bit_vector);
}

proof fn lemma_wrap_double(w: usize, d: usize)
    requires
        d == w * 2,
        i32::MIN <= wrap_i32(w as int) * 2 <= i32::MAX,
    ensures
        wrap_i32(d as int) == wrap_i32(w as int) * 2,
        half_toward_zero(wrap_i32(d as int)) == wrap_i32(w as int),
{
    let a: i32 = w as i32;
    assert((d as i32) == (a as int) * 2) by (bit_vector)
        requires
            a == w as i32,
            d == w * 2,
            i32::MIN <= (a as int) * 2 <= i32::MAX,
    ;
}

/// A buffer of `n` empty pixels.
pub open spec fn empty_cells<P>(n: int) -> Seq<Option<P>> {
    Seq::new(n as nat, |i: int| None::<P>)
}

proof fn lemma_index_in_bounds(sx: int, sy: int, bw: int, bh: int)
    requires
        0 <= sx < bw,
        0 <= sy < bh,
    ensures
        0 <= sy * bw + sx < bh * bw,
{
    assert(0 <= sy * bw + sx < bh * bw) by (nonlinear_arith)
        requires
            0 <= sx < bw,
            0 <= sy < bh,
    ;
}

/// The character that shows brightness level `level` (0 = dark, 4 and above = full).
pub open spec fn shade_of(level: int) -> char {
    if level <= 0 {
        ' '
    } else if level == 1 {
        '\u{2591}'
    } else if level == 2 {
        '\u{2592}'
    } else if level == 3 {
        '\u{2593}'
    } else {
        '\u{2588}'
    }
}

/// Row `y` of a frame `width` cells wide, shaded after `levels` (row by row).
pub open spec fn frame_row(levels: Seq<usize>, width: int, y: int) -> Seq<char> {
    Seq::new(width as nat, |x: int| shade_of(levels[y * width + x] as int))
}

/// The first `rows` rows of the frame, separated by line breaks.
pub open spec fn frame_rows(levels: Seq<usize>, width: int, rows: int) -> Seq<char>
    decreases rows,
{
    if rows <= 0 {
        Seq::empty()
    } else if rows == 1 {
        frame_row(levels, width, 0)
    } else {
        frame_rows(levels, width, rows - 1) + seq!['\n'] + frame_row(levels, width, rows - 1)
    }
}

/// The terminal control sequence that moves the cursor home.
pub open spec fn cursor_home() -> Seq<char> {
    seq!['\u{1b}', '[', 'H']
}

/// The text of a whole frame: the cursor goes home, then the rows follow.
pub open spec fn frame_text_of(levels: Seq<usize>, width: int, height: int) -> Seq<char> {
    cursor_home() + frame_rows(levels, width, height)
}

/// The one-character text that shows brightness level `level`.
pub fn shade_str(level: usize) -> (s: &'static str)
    ensures
        s@ == seq![shade_of(level as int)],
{
    if level == 0 {
        proof { reveal_strlit(" "); }
        " "
    } else if level == 1 {
        proof { reveal_strlit("\u{2591}"); }
        "\u{2591}"
    } else if level == 2 {
        proof { reveal_strlit("\u{2592}"); }
        "\u{2592}"
    } else if level == 3 {
        proof { reveal_strlit("\u{2593}"); }
        "\u{2593}"
    } else {
        proof { reveal_strlit("\u{2588}"); }
        "\u{2588}"
    }
}

proof fn lemma_buffer_len(width: int, height: int)
    requires
        0 <= width,
        0 <= height,
    ensures
        width * height <= width * height * 2 <= width * height * 2 * 2,
        width * height * 2 * 2 == width * height * 4,
{
    assert(width * height <= width * height * 2 <= width * height * 2 * 2) by (nonlinear_arith)
        requires
            0 <= width,
            0 <= height,
    ;
    assert(width * height * 2 * 2 == width * height * 4) by (nonlinear_arith);
}

impl<P: Copy> Renderer<P> {
    /// The buffer is well formed: its length is that of the buffer dimensions.
    pub open spec fn wf(&self) -> bool {
        &&& self.scale == SCALE
        &&& dims_ok(self.width as int, self.height as int)
        &&& self.buffer@.len() == self.width * self.height * 4
    }

    /// The buffer's sides in pixels fit in `usize`.
    pub open spec fn sides_fit(&self) -> bool {
        self.width * SCALE <= usize::MAX && self.height * SCALE <= usize::MAX
    }

    /// The buffer pixels, row by row.
    pub open spec fn cells(&self) -> Seq<Option<P>> {
        self.buffer@
    }

    /// The buffer's width in pixels.
    pub open spec fn buf_width(&self) -> int {
        self.width * SCALE
    }

    /// The buffer's height in pixels.
    pub open spec fn buf_height(&self) -> int {
        self.height * SCALE
    }

    /// The cell that the centred pixel coordinate `(x, y)` falls on, if any.
    /// The buffer's sides are taken as `i32`, as the pixel coordinates are:
    /// the origin is half of that width and height in from the corner.
    pub open spec fn spec_direct_index(&self, x: int, y: int) -> Option<usize> {
        let bw = wrap_i32(self.buf_width());
        let bh = wrap_i32(self.buf_height());
        let sx = x + half_toward_zero(bw);
        let sy = y + half_toward_zero(bh);
        if 0 <= sx < bw && 0 <= sy < bh {
            Some((sy * self.buf_width() + sx) as usize)
        } else {
            None
        }
    }

    /// The cell that the centred terminal-resolution coordinate `(x, y)` falls on:
    /// the coordinate is scaled up to buffer resolution first.
    pub open spec fn spec_scaled_index(&self, x: int, y: int) -> Option<usize> {
        self.spec_direct_index(x * SCALE, y * SCALE)
    }

    /// A new, empty buffer for a `width` x `height` terminal.
    pub fn new(width: usize, height: usize) -> (r: Self)
        requires
            dims_ok(width as int, height as int),
        ensures
            r.wf(),
            r.width == width,
            r.height == height,
            r.cells() == empty_cells::<P>(width * height * 4),
    {
        let scale: usize = SCALE;
        proof {
            lemma_buffer_len(width as int, height as int);
        }
        let n: usize = width * height * scale * scale;
        let buffer = Self::empty_buffer(n);
        Renderer { width, height, buffer, scale }
    }

    fn empty_buffer(n: usize) -> (v: Vec<Option<P>>)
        ensures
            v@ == empty_cells::<P>(n as int),
    {
        let mut v: Vec<Option<P>> = Vec::new();
        let mut i: usize = 0;
        while i < n
            invariant
                i <= n,
                v@ == empty_cells::<P>(i as int),
            decreases n - i,
        {
            v.push(None);
            i = i + 1;
            proof {
                assert(v@ =~= empty_cells::<P>(i as int));
            }
        }
        v
    }

    /// Adapts the buffer to a terminal of `new_width` x `new_height`: when the
    /// dimensions change the buffer is reallocated empty and `true` is returned
    /// (the terminal screen must then be cleared); otherwise nothing changes.
    pub fn resize(&mut self, new_width: usize, new_height: usize) -> (changed: bool)
        requires
            old(self).wf(),
            dims_ok(new_width as int, new_height as int),
        ensures
            final(self).wf(),
            changed == (old(self).width != new_width || old(self).height != new_height),
            final(self).width == new_width,
            final(self).height == new_height,
            changed ==> final(self).cells() == empty_cells::<P>(new_width * new_height * 4),
            !changed ==> final(self).cells() == old(self).cells(),
    {
        if self.width != new_width || self.height != new_height {
            self.width = new_width;
            self.height = new_height;
            proof {
                lemma_buffer_len(new_width as int, new_height as int);
            }
            self.buffer = Self::empty_buffer(new_width * new_height * self.scale * self.scale);
            true
        } else {
            false
        }
    }

    /// Prepares the buffer for a frame on a `new_width` x `new_height` terminal:
    /// adapts its size as `resize` does, then empties it. Whatever was drawn
    /// before, the frame starts on an empty buffer.
    pub fn begin_frame(&mut self, new_width: usize, new_height: usize) -> (changed: bool)
        requires
            old(self).wf(),
            dims_ok(new_width as int, new_height as int),
        ensures
            final(self).wf(),
            changed == (old(self).width != new_width || old(self).height != new_height),
            final(self).width == new_width,
            final(self).height == new_height,
            final(self).cells() == empty_cells::<P>(new_width * new_height * 4),
    {
        let changed = self.resize(new_width, new_height);
        self.clear();
        changed
    }

    /// Empties every pixel of the buffer.
    pub fn clear(&mut self)
        requires
            old(self).wf(),
        ensures
            final(self).wf(),
            final(self).width == old(self).width,
            final(self).height == old(self).height,
            final(self).cells() == empty_cells::<P>(old(self).cells().len() as int),
    {
        let n = self.buffer.len();
        let mut i: usize = 0;
        while i < n
            invariant
                self.wf(),
                self.width == old(self).width,
                self.height == old(self).height,
                n == self.buffer@.len(),
                i <= n,
                forall|k: int| 0 <= k < i ==> self.buffer@[k] is None,
            decreases n - i,
        {
            self.buffer.set(i, None);
            i = i + 1;
        }
        proof {
            assert(self.buffer@ =~= empty_cells::<P>(n as int));
        }
    }

    /// The cell under the centred pixel coordinate `(x, y)`, if it lies on the buffer.
    pub fn direct_index(&self, x: i32, y: i32) -> (r: Option<usize>)
        requires
            self.wf(),
            self.sides_fit(),
            i32::MIN <= x + half_toward_zero(wrap_i32(self.buf_width())) <= i32::MAX,
            i32::MIN <= y + half_toward_zero(wrap_i32(self.buf_height())) <= i32::MAX,
        ensures
            r == self.spec_direct_index(x as int, y as int),
            r matches Some(i) ==> i < self.cells().len(),
    {
        let buf_width = self.width * self.scale;
        let buf_height = self.height * self.scale;
        let screen_x = x + (buf_width as i32 / 2);
        let screen_y = y + (buf_height as i32 / 2);
        if screen_x >= 0 && screen_x < buf_width as i32 && screen_y >= 0 && screen_y < buf_height as i32 {
            proof {
                lemma_wrap_le(buf_width);
                lemma_wrap_le(buf_height);
                lemma_index_in_bounds(screen_x as int, screen_y as int, buf_width as int, buf_height as int);
                assert(buf_height * buf_width == self.width * self.height * 4) by (nonlinear_arith)
                    requires
                        buf_height == self.height * 2,
                        buf_width == self.width * 2,
                ;
            }
            Some(screen_y as usize * buf_width + screen_x as usize)
        } else {
            None
        }
    }

    /// The cell under the centred terminal-resolution coordinate `(x, y)`, if
    /// it lies on the buffer.
    pub fn scaled_index(&self, x: i32, y: i32) -> (r: Option<usize>)
        requires
            self.wf(),
            self.sides_fit(),
            i32::MIN <= x * 2 <= i32::MAX,
            i32::MIN <= y * 2 <= i32::MAX,
            i32::MIN <= wrap_i32(self.width as int) * 2 <= i32::MAX,
            i32::MIN <= wrap_i32(self.height as int) * 2 <= i32::MAX,
            i32::MIN <= x * 2 + wrap_i32(self.width as int) <= i32::MAX,
            i32::MIN <= y * 2 + wrap_i32(self.height as int) <= i32::MAX,
        ensures
            r == self.spec_scaled_index(x as int, y as int),
            r matches Some(i) ==> i < self.cells().len(),
    {
        let screen_x = x * self.scale as i32 + (self.width as i32 * self.scale as i32 / 2);
        let screen_y = y * self.scale as i32 + (self.height as i32 * self.scale as i32 / 2);
        let buf_width = self.width * self.scale;
        let buf_height = self.height * self.scale;
        proof {
            lemma_wrap_double(self.width, buf_width);
            lemma_wrap_double(self.height, buf_height);
        }
        if screen_x >= 0 && screen_x < buf_width as i32 && screen_y >= 0 && screen_y < buf_height as i32 {
            proof {
                lemma_wrap_le(buf_width);
                lemma_wrap_le(buf_height);
                lemma_index_in_bounds(screen_x as int, screen_y as int, buf_width as int, buf_height as int);
                assert(buf_height * buf_width == self.width * self.height * 4) by (nonlinear_arith)
                    requires
                        buf_height == self.height * 2,
                        buf_width == self.width * 2,
                ;
            }
            Some(screen_y as usize * buf_width + screen_x as usize)
        } else {
            None
        }
    }

    /// What the pixel at `idx` holds.
    pub fn pixel(&self, idx: usize) -> (r: Option<P>)
        requires
            self.wf(),
            idx < self.cells().len(),
        ensures
            r == self.cells()[idx as int],
    {
        self.buffer[idx]
    }

    /// Stores `value` at the pixel `idx`.
    pub fn put(&mut self, idx: usize, value: P)
        requires
            old(self).wf(),
            idx < old(self).cells().len(),
        ensures
            final(self).wf(),
            final(self).width == old(self).width,
            final(self).height == old(self).height,
            final(self).cells() == old(self).cells().update(idx as int, Some(value)),
    {
        self.buffer.set(idx, Some(value));
    }

    /// What the buffer pixel at column `px`, row `py` holds; `None` off the buffer.
    pub fn sample(&self, px: usize, py: usize) -> (r: Option<P>)
        requires
            self.wf(),
            self.sides_fit(),
        ensures
            r == if py < self.buf_height() && px < self.buf_width() {
                self.cells()[py * self.buf_width() + px]
            } else {
                None
            },
    {
        let buf_width = self.width * self.scale;
        if py < self.height * self.scale && px < buf_width {
            proof {
                lemma_index_in_bounds(px as int, py as int, buf_width as int, self.height * 2);
                assert(self.height * 2 * buf_width == self.width * self.height * 4) by (nonlinear_arith)
                    requires
                        buf_width == self.width * 2,
                ;
            }
            self.buffer[py * buf_width + px]
        } else {
            None
        }
    }

    /// The text that shows a frame on the terminal: `levels` holds the
    /// brightness level of each terminal cell, row by row.
    pub fn frame_text(&self, levels: &Vec<usize>) -> (out: String)
        requires
            levels@.len() == self.width * self.height,
        ensures
            out@ == frame_text_of(levels@, self.width as int, self.height as int),
            out@.len() == if self.height == 0 { 3 } else { 3 + self.height * (self.width + 1) - 1 },
            forall|y: int, x: int| 0 <= y < self.height && 0 <= x < self.width ==> #[trigger] out@[3 + y * (self.width + 1) + x]
                == shade_of(levels@[y * self.width + x] as int),
            forall|y: int| 0 <= y < self.height - 1 ==> #[trigger] out@[3 + y * (self.width + 1) + self.width] == '\n',
    {
        let width = self.width;
        let height = self.height;
        let n = levels.len();
        let mut out = String::new();
        proof { reveal_strlit("\u{1b}[H"); }
        out.append("\u{1b}[H");
        let mut y: usize = 0;
        while y < height
            invariant
                levels@.len() == width * height,
                n == levels@.len(),
                y <= height,
                out@ == cursor_home() + frame_rows(levels@, width as int, y as int)
                    + if y > 0 && y < height { seq!['\n'] } else { Seq::empty() },
            decreases height - y,
        {
            let ghost start = out@;
            let mut x: usize = 0;
            while x < width
                invariant
                    levels@.len() == width * height,
                    n == levels@.len(),
                    y < height,
                    x <= width,
                    out@ == start + frame_row(levels@, width as int, y as int).take(x as int),
                decreases width - x,
            {
                proof {
                    lemma_index_in_bounds(x as int, y as int, width as int, height as int);
                    assert(height * width == width * height) by (nonlinear_arith);
                }
                let ghost before = out@;
                out.append(shade_str(levels[y * width + x]));
                proof {
                    assert(frame_row(levels@, width as int, y as int).take(x + 1) =~= frame_row(levels@, width as int, y as int).take(x as int) + seq![shade_of(levels@[y * width + x] as int)]);
                }
                x = x + 1;
            }
            proof {
                assert(frame_row(levels@, width as int, y as int).take(width as int) =~= frame_row(levels@, width as int, y as int));
                if y == 0 {
                    assert(frame_rows(levels@, width as int, 1) == frame_row(levels@, width as int, 0));
                    assert(out@ =~= cursor_home() + frame_rows(levels@, width as int, 1));
                } else {
                    assert(out@ =~= cursor_home() + frame_rows(levels@, width as int, (y + 1) as int));
                }
            }
            if y < height - 1 {
                proof { reveal_strlit("\n"); }
                out.append("\n");
            }
            y = y + 1;
            proof {
                if y < height {
                    assert(out@ =~= cursor_home() + frame_rows(levels@, width as int, y as int) + seq!['\n']);
                } else {
                    assert(out@ =~= cursor_home() + frame_rows(levels@, width as int, y as int));
                }
            }
        }
        proof {
            if height >= 1 {
                lemma_frame_text_chars(levels@, width as int, height as int);
            } else {
                assert(out@ =~= cursor_home());
            }
        }
        out
    }
}

/// Distinct positions on the buffer land on distinct cells.
proof fn lemma_cell_unique(sx1: int, sy1: int, sx2: int, sy2: int, bw: int)
    requires
        0 <= sx1 < bw,
        0 <= sx2 < bw,
        0 <= sy1,
        0 <= sy2,
        sy1 * bw + sx1 == sy2 * bw + sx2,
    ensures
        sx1 == sx2,
        sy1 == sy2,
{
    vstd::arithmetic::div_mod::lemma_fundamental_div_mod_converse(sy1 * bw + sx1, bw, sy1, sx1);
    vstd::arithmetic::div_mod::lemma_fundamental_div_mod_converse(sy2 * bw + sx2, bw, sy2, sx2);
}

/// The centred pixel coordinates and the buffer cells correspond one to one:
/// two coordinates on the buffer never share a cell, and every cell is the
/// image of the coordinate found from its column and row. (When a side of the
/// buffer is too long for `i32`, the cells past `i32::MAX` cannot be reached.)
pub proof fn lemma_direct_index_bijective<P: Copy>(r: &Renderer<P>)
    requires
        r.wf(),
        r.width * 2 <= i32::MAX,
        r.height * 2 <= i32::MAX,
    ensures
        forall|x1: int, y1: int, x2: int, y2: int|
            #[trigger] r.spec_direct_index(x1, y1) is Some && r.spec_direct_index(x1, y1) == #[trigger] r.spec_direct_index(x2, y2)
                ==> x1 == x2 && y1 == y2,
        forall|idx: int| 0 <= idx < r.cells().len() ==> #[trigger] r.spec_direct_index(
            idx % r.buf_width() - r.width,
            idx / r.buf_width() - r.height,
        ) == Some(idx as usize),
{
    let bw = r.buf_width();
    let bh = r.buf_height();
    lemma_wrap_le(bw as usize);
    lemma_wrap_le(bh as usize);
    assert(half_toward_zero(wrap_i32(bw)) == r.width);
    assert(half_toward_zero(wrap_i32(bh)) == r.height);
    assert forall|x1: int, y1: int, x2: int, y2: int|
        #[trigger] r.spec_direct_index(x1, y1) is Some && r.spec_direct_index(x1, y1) == #[trigger] r.spec_direct_index(x2, y2)
        implies x1 == x2 && y1 == y2 by {
        let sx1 = x1 + r.width;
        let sy1 = y1 + r.height;
        let sx2 = x2 + r.width;
        let sy2 = y2 + r.height;
        lemma_index_in_bounds(sx1, sy1, bw, bh);
        lemma_index_in_bounds(sx2, sy2, bw, bh);
        assert(bh * bw == r.width * r.height * 4) by (nonlinear_arith)
            requires
                bh == r.height * 2,
                bw == r.width * 2,
        ;
        lemma_cell_unique(sx1, sy1, sx2, sy2, bw);
    }
    assert forall|idx: int| 0 <= idx < r.cells().len() implies #[trigger] r.spec_direct_index(
        idx % r.buf_width() - r.width,
        idx / r.buf_width() - r.height,
    ) == Some(idx as usize) by {
        assert(bw * bh == r.width * r.height * 4) by (nonlinear_arith)
            requires
                bh == r.height * 2,
                bw == r.width * 2,
        ;
        assert(bw > 0) by (nonlinear_arith)
            requires
                bw * bh > 0,
                bw >= 0,
                bh >= 0,
        ;
        let q = idx / bw;
        let m = idx % bw;
        vstd::arithmetic::div_mod::lemma_fundamental_div_mod(idx, bw);
        vstd::arithmetic::div_mod::lemma_mod_bound(idx, bw);
        vstd::arithmetic::div_mod::lemma_div_pos_is_pos(idx, bw);
        assert(q < bh) by (nonlinear_arith)
            requires
                idx == bw * q + m,
                0 <= m,
                idx < bw * bh,
                bw > 0,
        ;
        assert(q * bw + m == idx) by (nonlinear_arith)
            requires
                idx == bw * q + m,
        ;
    }
}

/// A frame of `height >= 1` rows has `width` characters per row, `height - 1`
/// line breaks and three characters of cursor control.
pub proof fn lemma_frame_text_len(levels: Seq<usize>, width: int, height: int)
    requires
        0 <= width,
        1 <= height,
    ensures
        frame_text_of(levels, width, height).len() == 3 + width * height + (height - 1),
    decreases height,
{
    if height > 1 {
        lemma_frame_text_len(levels, width, height - 1);
        assert(width * height == width * (height - 1) + width) by (nonlinear_arith);
        assert(frame_text_of(levels, width, height) =~= cursor_home() + frame_rows(levels, width, height - 1) + seq!['\n'] + frame_row(levels, width, height - 1));
    } else {
        assert(width * height == width) by (nonlinear_arith)
            requires
                height == 1,
        ;
        assert(frame_text_of(levels, width, height) =~= cursor_home() + frame_row(levels, width, 0));
    }
}

/// A pixel reads back what was last stored in it, and storing a pixel leaves
/// every other pixel as it was.
pub proof fn lemma_put_then_pixel<P>(cells: Seq<Option<P>>, idx: int, value: P)
    requires
        0 <= idx < cells.len(),
    ensures
        cells.update(idx, Some(value))[idx] == Some(value),
        cells.update(idx, Some(value)).len() == cells.len(),
        forall|j: int| 0 <= j < cells.len() && j != idx ==> #[trigger] cells.update(idx, Some(value))[j] == cells[j],
{
}

/// On a buffer whose sides fit in `i32`, the cell of `(x, y)` is found by
/// moving the origin to the corner: `(x + width, y + height)` in a row-major
/// grid `2 * width` pixels wide.
pub proof fn lemma_direct_index_plain<P: Copy>(r: &Renderer<P>, x: int, y: int)
    requires
        r.wf(),
        r.width * 2 <= i32::MAX,
        r.height * 2 <= i32::MAX,
    ensures
        r.spec_direct_index(x, y) == if 0 <= x + r.width < 2 * r.width && 0 <= y + r.height < 2 * r.height {
            Some(((y + r.height) * (2 * r.width) + x + r.width) as usize)
        } else {
            None::<usize>
        },
{
    lemma_wrap_le(r.buf_width() as usize);
    lemma_wrap_le(r.buf_height() as usize);
}

proof fn lemma_row_offsets(y: int, k: int, w: int)
    requires
        0 <= y < k,
        0 <= w,
    ensures
        y * (w + 1) + w <= k * (w + 1) - 1,
        k * (w + 1) == (k - 1) * (w + 1) + w + 1,
{
    assert(y * (w + 1) <= (k - 1) * (w + 1)) by (nonlinear_arith)
        requires
            y <= k - 1,
            0 <= w,
    ;
    assert(k * (w + 1) == (k - 1) * (w + 1) + w + 1) by (nonlinear_arith);
}

/// The first `k >= 1` rows of a frame, character by character: row `y` starts at
/// `y * (width + 1)`, holds the shade of `levels[y * width + x]` in column `x`,
/// and all rows but the last end in a line break.
proof fn lemma_frame_rows_chars(levels: Seq<usize>, width: int, k: int)
    requires
        0 <= width,
        1 <= k,
    ensures
        frame_rows(levels, width, k).len() == k * (width + 1) - 1,
        forall|y: int, x: int| 0 <= y < k && 0 <= x < width ==> #[trigger] frame_rows(levels, width, k)[y * (width + 1) + x]
            == shade_of(levels[y * width + x] as int),
        forall|y: int| 0 <= y < k - 1 ==> #[trigger] frame_rows(levels, width, k)[y * (width + 1) + width] == '\n',
    decreases k,
{
    let f = frame_rows(levels, width, k);
    if k == 1 {
        assert(f == frame_row(levels, width, 0));
        assert forall|y: int, x: int| 0 <= y < k && 0 <= x < width implies #[trigger] f[y * (width + 1) + x]
            == shade_of(levels[y * width + x] as int) by {
            assert(y == 0);
            assert(y * (width + 1) == 0 && y * width == 0);
        }
    } else {
        lemma_frame_rows_chars(levels, width, k - 1);
        let g = frame_rows(levels, width, k - 1);
        let r = frame_row(levels, width, k - 1);
        assert(f == g + seq!['\n'] + r);
        lemma_row_offsets(0, k, width);
        assert forall|y: int, x: int| 0 <= y < k && 0 <= x < width implies #[trigger] f[y * (width + 1) + x]
            == shade_of(levels[y * width + x] as int) by {
            if y < k - 1 {
                lemma_row_offsets(y, k - 1, width);
                assert(f[y * (width + 1) + x] == g[y * (width + 1) + x]);
            } else {
                assert(y * (width + 1) + x == g.len() + 1 + x) by (nonlinear_arith)
                    requires
                        y == k - 1,
                        g.len() == (k - 1) * (width + 1) - 1,
                ;
                assert(f[y * (width + 1) + x] == r[x]);
            }
        }
        assert forall|y: int| 0 <= y < k - 1 implies #[trigger] f[y * (width + 1) + width] == '\n' by {
            if y < k - 2 {
                lemma_row_offsets(y, k - 1, width);
                assert(f[y * (width + 1) + width] == g[y * (width + 1) + width]);
            } else {
                assert(y * (width + 1) + width == g.len()) by (nonlinear_arith)
                    requires
                        y == k - 2,
                        g.len() == (k - 1) * (width + 1) - 1,
                ;
            }
        }
    }
}

/// The frame text, character by character: after the three characters that
/// send the cursor home, terminal cell `(x, y)` shows the shade of
/// `levels[y * width + x]` at position `3 + y * (width + 1) + x` (rows top to
/// bottom, columns left to right), and every row but the last is followed by
/// a line break.
pub proof fn lemma_frame_text_chars(levels: Seq<usize>, width: int, height: int)
    requires
        0 <= width,
        1 <= height,
    ensures
        frame_text_of(levels, width, height).len() == 3 + height * (width + 1) - 1,
        frame_text_of(levels, width, height)[0] == '\u{1b}',
        frame_text_of(levels, width, height)[1] == '[',
        frame_text_of(levels, width, height)[2] == 'H',
        forall|y: int, x: int| 0 <= y < height && 0 <= x < width ==> #[trigger] frame_text_of(levels, width, height)[3 + y * (width + 1) + x]
            == shade_of(levels[y * width + x] as int),
        forall|y: int| 0 <= y < height - 1 ==> #[trigger] frame_text_of(levels, width, height)[3 + y * (width + 1) + width] == '\n',
{
    lemma_frame_rows_chars(levels, width, height);
    let f = frame_rows(levels, width, height);
    let t = frame_text_of(levels, width, height);
    assert(t == cursor_home() + f);
    assert forall|y: int, x: int| 0 <= y < height && 0 <= x < width implies #[trigger] t[3 + y * (width + 1) + x]
        == shade_of(levels[y * width + x] as int) by {
        lemma_row_offsets(y, height, width);
        assert(t[3 + y * (width + 1) + x] == f[y * (width + 1) + x]);
    }
    assert forall|y: int| 0 <= y < height - 1 implies #[trigger] t[3 + y * (width + 1) + width] == '\n' by {
        lemma_row_offsets(y, height - 1, width);
        lemma_row_offsets(0, height, width);
        assert(t[3 + y * (width + 1) + width] == f[y * (width + 1) + width]);
    }
}

} // verus!
