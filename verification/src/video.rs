use vstd::prelude::*;

verus! {

/// Resolution modes.
#[derive(Clone, Copy, PartialEq, Eq, Structural, Debug)]
pub enum Resolution {
    Low,
    High,
}

/// The mathematical state of the framebuffer: its dimensions, the pixel
/// grid in row-major order (one cell per pixel, holding 0 or 1), and the
/// dirty flag that batches presentation.
#[verifier::ext_equal]
pub struct ScreenState {
    pub width: int,
    pub height: int,
    pub cells: Seq<u8>,
    pub dirty: bool,
}

/// Pixel columns of a resolution.
pub open spec fn res_width(r: Resolution) -> int {
    if r is Low {
        64
    } else {
        128
    }
}

/// Pixel rows of a resolution.
pub open spec fn res_height(r: Resolution) -> int {
    if r is Low {
        32
    } else {
        64
    }
}

/// The byte stored for column `x`, row `y` of a row-major grid `w` cells
/// wide.
pub open spec fn cell_at(s: Seq<u8>, w: int, x: int, y: int) -> u8 {
    s[y * w + x]
}

impl ScreenState {
    /// The grid is one of the two supported sizes and every cell holds a
    /// single bit.
    pub open spec fn wf(self) -> bool {
        &&& (self.width == 64 && self.height == 32) || (self.width == 128 && self.height == 64)
        &&& self.cells.len() == self.width * self.height
        &&& forall|i: int| 0 <= i < self.cells.len() ==> self.cells[i] <= 1
    }

    /// The pixel bit stored at column `x`, row `y`.
    pub open spec fn pix(self, x: int, y: int) -> u8 {
        cell_at(self.cells, self.width, x, y)
    }

    /// `x`, `y` name a pixel of the grid.
    pub open spec fn in_range(self, x: int, y: int) -> bool {
        0 <= x < self.width && 0 <= y < self.height
    }

    /// The screen has the dimensions of `r` and every pixel is off.
    pub open spec fn blank(self, r: Resolution) -> bool {
        &&& self.width == res_width(r)
        &&& self.height == res_height(r)
        &&& self.cells.len() == self.width * self.height
        &&& forall|i: int| 0 <= i < self.cells.len() ==> self.cells[i] == 0
    }
}

/// A row-major cell index stays inside the grid.
pub proof fn lemma_cell_index_bounds(w: int, h: int, x: int, y: int)
    by (nonlinear_arith)
    requires
        0 <= x < w,
        0 <= y < h,
    ensures
        0 <= y * w + x < w * h,
{
}

/// Distinct pixel coordinates give distinct row-major cell indices.
pub proof fn lemma_cell_index_injective(w: int, x1: int, y1: int, x2: int, y2: int)
    by (nonlinear_arith)
    requires
        0 <= x1 < w,
        0 <= x2 < w,
        y1 * w + x1 == y2 * w + x2,
    ensures
        x1 == x2 && y1 == y2,
{
}

/// Updating one pixel of a row-major grid changes that cell and no other.
pub proof fn lemma_cell_update(s: Seq<u8>, w: int, h: int, x: int, y: int, v: u8)
    requires
        0 <= x < w,
        0 <= y < h,
        s.len() == w * h,
    ensures
        cell_at(s.update(y * w + x, v), w, x, y) == v,
        forall|xx: int, yy: int|
            0 <= xx < w && 0 <= yy < h && !(xx == x && yy == y) ==> #[trigger] cell_at(
                s.update(y * w + x, v),
                w,
                xx,
                yy,
            ) == cell_at(s, w, xx, yy),
{
    lemma_cell_index_bounds(w, h, x, y);
    let t = s.update(y * w + x, v);
    assert forall|xx: int, yy: int|
        0 <= xx < w && 0 <= yy < h && !(xx == x && yy == y) implies cell_at(t, w, xx, yy) == cell_at(
        s,
        w,
        xx,
        yy,
    ) by {
        lemma_cell_index_bounds(w, h, xx, yy);
        if yy * w + xx == y * w + x {
            lemma_cell_index_injective(w, xx, yy, x, y);
        }
    }
}

/// XOR and AND of two single bits, written out for callers that reason by
/// cases on the bit values.
pub proof fn lemma_single_bit_ops(a: u8, b: u8)
    by (bit_vector)
    requires
        a <= 1,
        b <= 1,
    ensures
        (a ^ b) == (if a == b { 0u8 } else { 1u8 }),
        (a & b) == (if a == 1 && b == 1 { 1u8 } else { 0u8 }),
{
}

/// `post` is `pre` with every pixel cleared and the surface dirty.
pub open spec fn screen_cleared(pre: ScreenState, post: ScreenState) -> bool {
    &&& post.width == pre.width
    &&& post.height == pre.height
    &&& post.cells.len() == pre.cells.len()
    &&& post.dirty
    &&& forall|i: int| 0 <= i < post.cells.len() ==> post.cells[i] == 0
}

/// `post` is `pre` scrolled down by `rows`, the vacated top rows zeroed.
pub open spec fn screen_scrolled_down(pre: ScreenState, post: ScreenState, rows: int) -> bool {
    &&& post.width == pre.width
    &&& post.height == pre.height
    &&& post.cells.len() == pre.cells.len()
    &&& post.dirty
    &&& forall|x: int, y: int|
        post.in_range(x, y) ==> post.pix(x, y) == (if y < rows {
            0u8
        } else {
            pre.pix(x, y - rows)
        })
}

/// `post` is `pre` scrolled up by `rows`, the vacated bottom rows zeroed.
pub open spec fn screen_scrolled_up(pre: ScreenState, post: ScreenState, rows: int) -> bool {
    &&& post.width == pre.width
    &&& post.height == pre.height
    &&& post.cells.len() == pre.cells.len()
    &&& post.dirty
    &&& forall|x: int, y: int|
        post.in_range(x, y) ==> post.pix(x, y) == (if y < pre.height - rows {
            pre.pix(x, y + rows)
        } else {
            0u8
        })
}

/// `post` is `pre` scrolled right by four columns, the vacated left edge
/// zeroed.
pub open spec fn screen_scrolled_right(pre: ScreenState, post: ScreenState) -> bool {
    &&& post.width == pre.width
    &&& post.height == pre.height
    &&& post.cells.len() == pre.cells.len()
    &&& post.dirty
    &&& forall|x: int, y: int|
        post.in_range(x, y) ==> post.pix(x, y) == (if x < 4 {
            0u8
        } else {
            pre.pix(x - 4, y)
        })
}

/// `post` is `pre` scrolled left by four columns, the vacated right edge
/// zeroed.
pub open spec fn screen_scrolled_left(pre: ScreenState, post: ScreenState) -> bool {
    &&& post.width == pre.width
    &&& post.height == pre.height
    &&& post.cells.len() == pre.cells.len()
    &&& post.dirty
    &&& forall|x: int, y: int|
        post.in_range(x, y) ==> post.pix(x, y) == (if x < pre.width - 4 {
            pre.pix(x + 4, y)
        } else {
            0u8
        })
}

/// Owns the pixel grid and the dirty flag. Rendering to a real window is a
/// collaborator's job: a presenter reads the grid through `get_pixel` and
/// asks `render` whether anything changed since the last presentation.
pub struct DisplayManager {
    resolution: Resolution,
    cells: Vec<u8>,
    update_needed: bool,
}

impl View for DisplayManager {
    type V = ScreenState;

    closed spec fn view(&self) -> ScreenState {
        ScreenState {
            width: res_width(self.resolution),
            height: res_height(self.resolution),
            cells: self.cells@,
            dirty: self.update_needed,
        }
    }
}

/// A vector of `n` zero bytes.
fn zero_cells(n: usize) -> (v: Vec<u8>)
    ensures
        v@.len() == n,
        forall|i: int| 0 <= i < n ==> v@[i] == 0,
{
    let mut v: Vec<u8> = Vec::new();
    for k in 0..n
        invariant
            v@.len() == k,
            forall|i: int| 0 <= i < k ==> v@[i] == 0,
    {
        v.push(0);
    }
    v
}

impl DisplayManager {
    /// A fresh framebuffer of the given resolution, fully cleared and not
    /// yet in need of presentation.
    pub fn new(resolution: Resolution) -> (d: DisplayManager)
        ensures
            d@.wf(),
            d@.blank(resolution),
            !d@.dirty,
    {
        let n: usize = match resolution {
            Resolution::Low => 64 * 32,
            Resolution::High => 128 * 64,
        };
        DisplayManager { resolution, cells: zero_cells(n), update_needed: false }
    }

    /// Returns the height of the display.
    pub fn height(&self) -> (h: usize)
        ensures
            h as int == self@.height,
    {
        match self.resolution {
            Resolution::Low => 32,
            Resolution::High => 64,
        }
    }

    /// Returns the width of the display.
    pub fn width(&self) -> (w: usize)
        ensures
            w as int == self@.width,
    {
        match self.resolution {
            Resolution::Low => 64,
            Resolution::High => 128,
        }
    }

    /// The pixel bit at the given coordinates.
    pub fn get_pixel(&self, x: usize, y: usize) -> (b: u8)
        requires
            self@.wf(),
            self@.in_range(x as int, y as int),
        ensures
            b == self@.pix(x as int, y as int),
    {
        let w = self.width();
        proof {
            lemma_cell_index_bounds(self@.width, self@.height, x as int, y as int);
        }
        self.cells[y * w + x]
    }

    /// Whether a mutation since the last `render` call still awaits
    /// presentation.
    pub fn is_dirty(&self) -> (d: bool)
        ensures
            d == self@.dirty,
    {
        self.update_needed
    }

    /// XORs `value` into the pixel at `(x mod width, y mod height)`, marks
    /// the surface dirty, and reports a collision: 1 exactly when the pixel
    /// was on and `value` is 1, so that drawing turned the pixel off.
    pub fn set_pixel(&mut self, x: usize, y: usize, value: u8) -> (collision: u8)
        requires
            old(self)@.wf(),
            value <= 1,
        ensures
            final(self)@.wf(),
            final(self)@.width == old(self)@.width,
            final(self)@.height == old(self)@.height,
            final(self)@.dirty,
            ({
                let tx = x as int % old(self)@.width;
                let ty = y as int % old(self)@.height;
                &&& final(self)@.cells == old(self)@.cells.update(
                    ty * old(self)@.width + tx,
                    old(self)@.pix(tx, ty) ^ value,
                )
                &&& collision == (old(self)@.pix(tx, ty) & value)
                &&& collision == (if old(self)@.pix(tx, ty) == 1 && value == 1 {
                    1u8
                } else {
                    0u8
                })
            }),
    {
        let w = self.width();
        let h = self.height();
        let n = self.cells.len();
        let tx = x % w;
        let ty = y % h;
        proof {
            lemma_cell_index_bounds(self@.width, self@.height, tx as int, ty as int);
        }
        let i = ty * w + tx;
        let previous = self.cells[i];
        proof {
            lemma_single_bit_ops(previous, value);
        }
        self.cells.set(i, previous ^ value);
        self.update_needed = true;
        previous & value
    }

    /// Clears the display: every pixel goes off and the surface is dirty.
    pub fn clear(&mut self)
        requires
            old(self)@.wf(),
        ensures
            final(self)@.wf(),
            screen_cleared(old(self)@, final(self)@),
    {
        let n = self.cells.len();
        self.cells = zero_cells(n);
        self.update_needed = true;
    }

    /// Reports whether any mutation happened since the last call, clearing
    /// the dirty flag; the presenter forwards a present request exactly
    /// when this returns true.
    pub fn render(&mut self) -> (present: bool)
        ensures
            present == old(self)@.dirty,
            !final(self)@.dirty,
            final(self)@.width == old(self)@.width,
            final(self)@.height == old(self)@.height,
            final(self)@.cells == old(self)@.cells,
    {
        let present = self.update_needed;
        self.update_needed = false;
        present
    }

    /// Scrolls the display down by `rows` pixel rows, zero-filling the rows
    /// vacated at the top; content shifted past the bottom edge is lost.
    pub fn scroll_down(&mut self, rows: usize)
        requires
            old(self)@.wf(),
            rows <= old(self)@.height,
        ensures
            final(self)@.wf(),
            screen_scrolled_down(old(self)@, final(self)@, rows as int),
    {
        let w = self.width();
        let h = self.height();
        let ghost pre = self@;
        let n = self.cells.len();
        let mut shifted = zero_cells(n);
        proof {
            assert forall|xx: int, yy: int|
                0 <= xx < pre.width && 0 <= yy < pre.height implies #[trigger] cell_at(
                shifted@,
                pre.width,
                xx,
                yy,
            ) == 0 by {
                lemma_cell_index_bounds(pre.width, pre.height, xx, yy);
            }
        }
        for y in rows..h
            invariant
                pre.wf(),
                self@ == pre,
                rows <= y <= h,
                w as int == pre.width,
                h as int == pre.height,
                shifted@.len() == pre.cells.len(),
                n as int == pre.cells.len(),
                forall|i: int| 0 <= i < shifted@.len() ==> shifted@[i] <= 1,
                forall|xx: int, yy: int|
                    0 <= xx < pre.width && rows <= yy < y ==> #[trigger] cell_at(
                        shifted@,
                        pre.width,
                        xx,
                        yy,
                    ) == pre.pix(xx, yy - rows),
                forall|xx: int, yy: int|
                    0 <= xx < pre.width && 0 <= yy < pre.height && (yy < rows || y <= yy)
                        ==> #[trigger] cell_at(shifted@, pre.width, xx, yy) == 0,
        {
            for x in 0..w
                invariant
                    pre.wf(),
                    self@ == pre,
                    rows <= y < h,
                    0 <= x <= w,
                    w as int == pre.width,
                    h as int == pre.height,
                    shifted@.len() == pre.cells.len(),
                n as int == pre.cells.len(),
                forall|i: int| 0 <= i < shifted@.len() ==> shifted@[i] <= 1,
                    forall|xx: int, yy: int|
                        0 <= xx < pre.width && rows <= yy < y ==> #[trigger] cell_at(
                            shifted@,
                            pre.width,
                            xx,
                            yy,
                        ) == pre.pix(xx, yy - rows),
                    forall|xx: int| 0 <= xx < x ==> #[trigger] cell_at(shifted@, pre.width, xx, y as int)
                        == pre.pix(xx, y - rows),
                    forall|xx: int| x <= xx < pre.width ==> #[trigger] cell_at(
                        shifted@,
                        pre.width,
                        xx,
                        y as int,
                    ) == 0,
                    forall|xx: int, yy: int|
                        0 <= xx < pre.width && 0 <= yy < pre.height && (yy < rows || y < yy)
                            ==> #[trigger] cell_at(shifted@, pre.width, xx, yy) == 0,
            {
                proof {
                    lemma_cell_index_bounds(pre.width, pre.height, x as int, y as int);
                    lemma_cell_index_bounds(pre.width, pre.height, x as int, y - rows);
                }
                let src = self.cells[(y - rows) * w + x];
                let ghost snap = shifted@;
                shifted.set(y * w + x, src);
                proof {
                    lemma_cell_update(snap, pre.width, pre.height, x as int, y as int, src);
                    assert forall|xx: int, yy: int|
                        0 <= xx < pre.width && 0 <= yy < pre.height && !(xx == x as int && yy
                            == y as int) implies #[trigger] cell_at(shifted@, pre.width, xx, yy)
                        == cell_at(snap, pre.width, xx, yy) by {
                        assert(cell_at(snap.update(y as int * pre.width + x as int, src), pre.width, xx, yy)
                            == cell_at(snap, pre.width, xx, yy));
                    }
                    assert(cell_at(shifted@, pre.width, x as int, y as int) == src);
                }
            }
        }
        self.cells = shifted;
        self.update_needed = true;
        proof {
            assert forall|x: int, y: int| self@.in_range(x, y) implies self@.pix(x, y) == (if y
                < rows {
                0u8
            } else {
                pre.pix(x, y - rows)
            }) by {
                assert(cell_at(self@.cells, pre.width, x, y) == self@.pix(x, y));
            }
        }
    }

    /// Scrolls the display up by `rows` pixel rows, zero-filling the rows
    /// vacated at the bottom; content shifted past the top edge is lost.
    pub fn scroll_up(&mut self, rows: usize)
        requires
            old(self)@.wf(),
            rows <= old(self)@.height,
        ensures
            final(self)@.wf(),
            screen_scrolled_up(old(self)@, final(self)@, rows as int),
    {
        let w = self.width();
        let h = self.height();
        let ghost pre = self@;
        let n = self.cells.len();
        let mut shifted = zero_cells(n);
        proof {
            assert forall|xx: int, yy: int|
                0 <= xx < pre.width && 0 <= yy < pre.height implies #[trigger] cell_at(
                shifted@,
                pre.width,
                xx,
                yy,
            ) == 0 by {
                lemma_cell_index_bounds(pre.width, pre.height, xx, yy);
            }
        }
        for y in 0..h - rows
            invariant
                pre.wf(),
                self@ == pre,
                rows <= h,
                0 <= y <= h - rows,
                w as int == pre.width,
                h as int == pre.height,
                shifted@.len() == pre.cells.len(),
                n as int == pre.cells.len(),
                forall|i: int| 0 <= i < shifted@.len() ==> shifted@[i] <= 1,
                forall|xx: int, yy: int|
                    0 <= xx < pre.width && 0 <= yy < y ==> #[trigger] cell_at(
                        shifted@,
                        pre.width,
                        xx,
                        yy,
                    ) == pre.pix(xx, yy + rows),
                forall|xx: int, yy: int|
                    0 <= xx < pre.width && y <= yy < pre.height ==> #[trigger] cell_at(
                        shifted@,
                        pre.width,
                        xx,
                        yy,
                    ) == 0,
        {
            for x in 0..w
                invariant
                    pre.wf(),
                    self@ == pre,
                    rows <= h,
                    0 <= y < h - rows,
                    0 <= x <= w,
                    w as int == pre.width,
                    h as int == pre.height,
                    shifted@.len() == pre.cells.len(),
                n as int == pre.cells.len(),
                forall|i: int| 0 <= i < shifted@.len() ==> shifted@[i] <= 1,
                    forall|xx: int, yy: int|
                        0 <= xx < pre.width && 0 <= yy < y ==> #[trigger] cell_at(
                            shifted@,
                            pre.width,
                            xx,
                            yy,
                        ) == pre.pix(xx, yy + rows),
                    forall|xx: int| 0 <= xx < x ==> #[trigger] cell_at(shifted@, pre.width, xx, y as int)
                        == pre.pix(xx, y + rows),
                    forall|xx: int| x <= xx < pre.width ==> #[trigger] cell_at(
                        shifted@,
                        pre.width,
                        xx,
                        y as int,
                    ) == 0,
                    forall|xx: int, yy: int|
                        0 <= xx < pre.width && y < yy < pre.height ==> #[trigger] cell_at(
                            shifted@,
                            pre.width,
                            xx,
                            yy,
                        ) == 0,
            {
                proof {
                    lemma_cell_index_bounds(pre.width, pre.height, x as int, y as int);
                    lemma_cell_index_bounds(pre.width, pre.height, x as int, y + rows);
                }
                let src = self.cells[(y + rows) * w + x];
                let ghost snap = shifted@;
                shifted.set(y * w + x, src);
                proof {
                    lemma_cell_update(snap, pre.width, pre.height, x as int, y as int, src);
                    assert forall|xx: int, yy: int|
                        0 <= xx < pre.width && 0 <= yy < pre.height && !(xx == x as int && yy
                            == y as int) implies #[trigger] cell_at(shifted@, pre.width, xx, yy)
                        == cell_at(snap, pre.width, xx, yy) by {
                        assert(cell_at(snap.update(y as int * pre.width + x as int, src), pre.width, xx, yy)
                            == cell_at(snap, pre.width, xx, yy));
                    }
                    assert(cell_at(shifted@, pre.width, x as int, y as int) == src);
                }
            }
        }
        self.cells = shifted;
        self.update_needed = true;
        proof {
            assert forall|x: int, y: int| self@.in_range(x, y) implies self@.pix(x, y) == (if y
                < pre.height - rows {
                pre.pix(x, y + rows)
            } else {
                0u8
            }) by {
                assert(cell_at(self@.cells, pre.width, x, y) == self@.pix(x, y));
            }
        }
    }

    /// Scrolls the display to the right by 4 pixel columns, zero-filling
    /// the vacated left edge.
    pub fn scroll_right(&mut self)
        requires
            old(self)@.wf(),
        ensures
            final(self)@.wf(),
            screen_scrolled_right(old(self)@, final(self)@),
    {
        let w = self.width();
        let h = self.height();
        let ghost pre = self@;
        let n = self.cells.len();
        let mut shifted = zero_cells(n);
        proof {
            assert forall|xx: int, yy: int|
                0 <= xx < pre.width && 0 <= yy < pre.height implies #[trigger] cell_at(
                shifted@,
                pre.width,
                xx,
                yy,
            ) == 0 by {
                lemma_cell_index_bounds(pre.width, pre.height, xx, yy);
            }
        }
        for y in 0..h
            invariant
                pre.wf(),
                self@ == pre,
                0 <= y <= h,
                w as int == pre.width,
                h as int == pre.height,
                shifted@.len() == pre.cells.len(),
                n as int == pre.cells.len(),
                forall|i: int| 0 <= i < shifted@.len() ==> shifted@[i] <= 1,
                forall|xx: int, yy: int|
                    4 <= xx < pre.width && 0 <= yy < y ==> #[trigger] cell_at(
                        shifted@,
                        pre.width,
                        xx,
                        yy,
                    ) == pre.pix(xx - 4, yy),
                forall|xx: int, yy: int|
                    0 <= xx < pre.width && 0 <= yy < pre.height && (xx < 4 || y <= yy)
                        ==> #[trigger] cell_at(shifted@, pre.width, xx, yy) == 0,
        {
            for x in 4..w
                invariant
                    pre.wf(),
                    self@ == pre,
                    0 <= y < h,
                    4 <= x <= w,
                    w as int == pre.width,
                    h as int == pre.height,
                    shifted@.len() == pre.cells.len(),
                n as int == pre.cells.len(),
                forall|i: int| 0 <= i < shifted@.len() ==> shifted@[i] <= 1,
                    forall|xx: int, yy: int|
                        4 <= xx < pre.width && 0 <= yy < y ==> #[trigger] cell_at(
                            shifted@,
                            pre.width,
                            xx,
                            yy,
                        ) == pre.pix(xx - 4, yy),
                    forall|xx: int| 4 <= xx < x ==> #[trigger] cell_at(shifted@, pre.width, xx, y as int)
                        == pre.pix(xx - 4, y as int),
                    forall|xx: int| x <= xx < pre.width ==> #[trigger] cell_at(
                        shifted@,
                        pre.width,
                        xx,
                        y as int,
                    ) == 0,
                    forall|xx: int, yy: int|
                        0 <= xx < pre.width && 0 <= yy < pre.height && (xx < 4 || y < yy)
                            ==> #[trigger] cell_at(shifted@, pre.width, xx, yy) == 0,
            {
                proof {
                    lemma_cell_index_bounds(pre.width, pre.height, x as int, y as int);
                    lemma_cell_index_bounds(pre.width, pre.height, x - 4, y as int);
                }
                let src = self.cells[y * w + (x - 4)];
                let ghost snap = shifted@;
                shifted.set(y * w + x, src);
                proof {
                    lemma_cell_update(snap, pre.width, pre.height, x as int, y as int, src);
                    assert forall|xx: int, yy: int|
                        0 <= xx < pre.width && 0 <= yy < pre.height && !(xx == x as int && yy
                            == y as int) implies #[trigger] cell_at(shifted@, pre.width, xx, yy)
                        == cell_at(snap, pre.width, xx, yy) by {
                        assert(cell_at(snap.update(y as int * pre.width + x as int, src), pre.width, xx, yy)
                            == cell_at(snap, pre.width, xx, yy));
                    }
                    assert(cell_at(shifted@, pre.width, x as int, y as int) == src);
                }
            }
        }
        self.cells = shifted;
        self.update_needed = true;
        proof {
            assert forall|x: int, y: int| self@.in_range(x, y) implies self@.pix(x, y) == (if x
                < 4 {
                0u8
            } else {
                pre.pix(x - 4, y)
            }) by {
                assert(cell_at(self@.cells, pre.width, x, y) == self@.pix(x, y));
            }
        }
    }

    /// Scrolls the display to the left by 4 pixel columns, zero-filling the
    /// vacated right edge.
    pub fn scroll_left(&mut self)
        requires
            old(self)@.wf(),
        ensures
            final(self)@.wf(),
            screen_scrolled_left(old(self)@, final(self)@),
    {
        let w = self.width();
        let h = self.height();
        let ghost pre = self@;
        let n = self.cells.len();
        let mut shifted = zero_cells(n);
        proof {
            assert forall|xx: int, yy: int|
                0 <= xx < pre.width && 0 <= yy < pre.height implies #[trigger] cell_at(
                shifted@,
                pre.width,
                xx,
                yy,
            ) == 0 by {
                lemma_cell_index_bounds(pre.width, pre.height, xx, yy);
            }
        }
        for y in 0..h
            invariant
                pre.wf(),
                self@ == pre,
                0 <= y <= h,
                w as int == pre.width,
                h as int == pre.height,
                shifted@.len() == pre.cells.len(),
                n as int == pre.cells.len(),
                forall|i: int| 0 <= i < shifted@.len() ==> shifted@[i] <= 1,
                forall|xx: int, yy: int|
                    0 <= xx < pre.width - 4 && 0 <= yy < y ==> #[trigger] cell_at(
                        shifted@,
                        pre.width,
                        xx,
                        yy,
                    ) == pre.pix(xx + 4, yy),
                forall|xx: int, yy: int|
                    0 <= xx < pre.width && 0 <= yy < pre.height && (pre.width - 4 <= xx || y <= yy)
                        ==> #[trigger] cell_at(shifted@, pre.width, xx, yy) == 0,
        {
            for x in 0..w - 4
                invariant
                    pre.wf(),
                    self@ == pre,
                    0 <= y < h,
                    0 <= x <= w - 4,
                    w as int == pre.width,
                    h as int == pre.height,
                    shifted@.len() == pre.cells.len(),
                n as int == pre.cells.len(),
                forall|i: int| 0 <= i < shifted@.len() ==> shifted@[i] <= 1,
                    forall|xx: int, yy: int|
                        0 <= xx < pre.width - 4 && 0 <= yy < y ==> #[trigger] cell_at(
                            shifted@,
                            pre.width,
                            xx,
                            yy,
                        ) == pre.pix(xx + 4, yy),
                    forall|xx: int| 0 <= xx < x ==> #[trigger] cell_at(shifted@, pre.width, xx, y as int)
                        == pre.pix(xx + 4, y as int),
                    forall|xx: int| x <= xx < pre.width ==> #[trigger] cell_at(
                        shifted@,
                        pre.width,
                        xx,
                        y as int,
                    ) == 0,
                    forall|xx: int, yy: int|
                        0 <= xx < pre.width && 0 <= yy < pre.height && y < yy ==> #[trigger] cell_at(
                            shifted@,
                            pre.width,
                            xx,
                            yy,
                        ) == 0,
                    forall|xx: int, yy: int|
                        pre.width - 4 <= xx < pre.width && 0 <= yy < y ==> #[trigger] cell_at(
                            shifted@,
                            pre.width,
                            xx,
                            yy,
                        ) == 0,
            {
                proof {
                    lemma_cell_index_bounds(pre.width, pre.height, x as int, y as int);
                    lemma_cell_index_bounds(pre.width, pre.height, x + 4, y as int);
                }
                let src = self.cells[y * w + (x + 4)];
                let ghost snap = shifted@;
                shifted.set(y * w + x, src);
                proof {
                    lemma_cell_update(snap, pre.width, pre.height, x as int, y as int, src);
                    assert forall|xx: int, yy: int|
                        0 <= xx < pre.width && 0 <= yy < pre.height && !(xx == x as int && yy
                            == y as int) implies #[trigger] cell_at(shifted@, pre.width, xx, yy)
                        == cell_at(snap, pre.width, xx, yy) by {
                        assert(cell_at(snap.update(y as int * pre.width + x as int, src), pre.width, xx, yy)
                            == cell_at(snap, pre.width, xx, yy));
                    }
                    assert(cell_at(shifted@, pre.width, x as int, y as int) == src);
                }
            }
        }
        self.cells = shifted;
        self.update_needed = true;
        proof {
            assert forall|x: int, y: int| self@.in_range(x, y) implies self@.pix(x, y) == (if x
                < pre.width - 4 {
                pre.pix(x + 4, y)
            } else {
                0u8
            }) by {
                assert(cell_at(self@.cells, pre.width, x, y) == self@.pix(x, y));
            }
        }
    }
}

/// Scrolling down by one row moves a fully set top row onto row 1 and
/// clears row 0, whatever the grid width.
pub proof fn lemma_scroll_down_top_row(pre: ScreenState, post: ScreenState)
    requires
        pre.wf(),
        screen_scrolled_down(pre, post, 1),
        forall|x: int| 0 <= x < pre.width ==> pre.pix(x, 0) == 1,
    ensures
        forall|x: int| 0 <= x < post.width ==> post.pix(x, 1) == 1,
        forall|x: int| 0 <= x < post.width ==> post.pix(x, 0) == 0,
{
    assert forall|x: int| 0 <= x < post.width implies post.pix(x, 1) == 1 by {
        assert(post.in_range(x, 1));
        assert(post.pix(x, 1) == pre.pix(x, 0));
    }
    assert forall|x: int| 0 <= x < post.width implies post.pix(x, 0) == 0 by {
        assert(post.in_range(x, 0));
    }
}

} // verus!
