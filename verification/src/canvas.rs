//! A pixel canvas: an RGBA buffer and a hue accumulation map, indexed row
//! by row, with bounds-checked and unchecked write paths.
use vstd::prelude::*;

use crate::fixed::{sat64, Scalar};

verus! {

/// A drawing surface.  Both buffers deliberately hold one extra row past
/// `width * height`, so writes to the bottom edge stay in bounds.
pub struct Canvas {
    pub width: u32,
    pub height: u32,
    pub buffer: Vec<(u8, u8, u8, u8)>,
    pub buffer_default_color: (u8, u8, u8, u8),
    pub huemap: Vec<(Scalar, Scalar, Scalar)>,
    pub length: u32,
}

/// Row-major index of a position.
pub open spec fn idx_of(width: int, x: int, y: int) -> int {
    width * y + x
}

/// A position lies on the one-pixel border of the axis-aligned square with
/// top-left corner `(tlx, tly)`, width `w` and height `h`.
pub open spec fn on_border(tlx: int, tly: int, w: int, h: int, x: int, y: int) -> bool {
    ||| ((y == tly || y == tly + h) && tlx <= x <= tlx + w)
    ||| ((x == tlx || x == tlx + w) && tly <= y <= tly + h)
}

/// An `i32` sum clamped to the `i32` range, as `saturating_add` computes it.
pub open spec fn sat32(x: int) -> int {
    if x > 0x7fff_ffff {
        0x7fff_ffff
    } else if x < -0x8000_0000 {
        -0x8000_0000
    } else {
        x
    }
}

/// Saturating `i32` addition.
fn sat_add_i32(a: i32, b: i32) -> (r: i32)
    ensures
        r as int == sat32(a as int + b as int),
{
    let s: i64 = (a as i64) + (b as i64);
    if s > 0x7fff_ffff {
        0x7fff_ffff
    } else if s < -0x8000_0000 {
        -0x8000_0000
    } else {
        s as i32
    }
}

/// A cleared 1000-square canvas with one square border drawn through the
/// unchecked pixel path.
pub fn draw_square_unsafe() {
    let mut canvas: Canvas = Canvas::new(1000, 1000, (0, 0, 0, 0));
    canvas.draw_square_rgb(500, 500, 400, 400, &(0, 0, 0, 0));
}

/// A cleared 1000-square canvas with one square border drawn through the
/// bounds-checked hue path.
pub fn draw_square_safe() {
    let mut canvas: Canvas = Canvas::new(1000, 1000, (0, 0, 0, 0));
    canvas.draw_square_safe(
        500,
        500,
        400,
        400,
        &(Scalar { raw: 0 }, Scalar { raw: 0 }, Scalar { raw: 0 }),
    );
}

/// Copy a pixel collection into a flat RGBA frame, four bytes per pixel,
/// clearing each source pixel as it is consumed.
pub fn draw(buffer: &mut Vec<u8>, my_buffer: &mut Vec<(u8, u8, u8, u8)>)
    requires
        old(my_buffer)@.len() * 4 >= old(buffer)@.len(),
    ensures
        final(buffer)@.len() == old(buffer)@.len(),
        final(my_buffer)@.len() == old(my_buffer)@.len(),
        forall|i: int|
            0 <= i < old(buffer)@.len() / 4 ==> {
                &&& final(buffer)@[4 * i] == (#[trigger] old(my_buffer)@[i]).0
                &&& final(buffer)@[4 * i + 1] == old(my_buffer)@[i].1
                &&& final(buffer)@[4 * i + 2] == old(my_buffer)@[i].2
                &&& final(buffer)@[4 * i + 3] == old(my_buffer)@[i].3
                &&& final(my_buffer)@[i] == (0u8, 0u8, 0u8, 0u8)
            },
        forall|i: int|
            (old(buffer)@.len() / 4) * 4 <= i < old(buffer)@.len() ==> final(buffer)@[i] == old(
                buffer,
            )@[i],
        forall|i: int|
            old(buffer)@.len() / 4 <= i < old(my_buffer)@.len() ==> final(my_buffer)@[i] == old(
                my_buffer,
            )@[i],
{
    let n = buffer.len() / 4;
    let mut i: usize = 0;
    while i < n
        invariant
            i <= n,
            n == old(buffer)@.len() / 4,
            buffer@.len() == old(buffer)@.len(),
            my_buffer@.len() == old(my_buffer)@.len(),
            old(my_buffer)@.len() * 4 >= old(buffer)@.len(),
            old(buffer)@.len() <= usize::MAX,
            forall|j: int|
                0 <= j < i ==> {
                    &&& buffer@[4 * j] == (#[trigger] old(my_buffer)@[j]).0
                    &&& buffer@[4 * j + 1] == old(my_buffer)@[j].1
                    &&& buffer@[4 * j + 2] == old(my_buffer)@[j].2
                    &&& buffer@[4 * j + 3] == old(my_buffer)@[j].3
                    &&& my_buffer@[j] == (0u8, 0u8, 0u8, 0u8)
                },
            forall|j: int| 4 * i <= j < old(buffer)@.len() ==> buffer@[j] == old(buffer)@[j],
            forall|j: int| i <= j < old(my_buffer)@.len() ==> my_buffer@[j] == old(my_buffer)@[j],
        decreases n - i,
    {
        proof {
            assert(4 * (old(buffer)@.len() / 4) <= old(buffer)@.len());
        }
        let ghost buf0 = buffer@;
        let ghost my0 = my_buffer@;
        let p = my_buffer[i];
        buffer[4 * i] = p.0;
        buffer[4 * i + 1] = p.1;
        buffer[4 * i + 2] = p.2;
        buffer[4 * i + 3] = p.3;
        my_buffer[i] = (0, 0, 0, 0);
        proof {
            assert(my_buffer@[i as int] == (0u8, 0u8, 0u8, 0u8));
            assert(buffer@[4 * (i as int)] == p.0);
            assert(buffer@[4 * (i as int) + 1] == p.1);
            assert(buffer@[4 * (i as int) + 2] == p.2);
            assert(buffer@[4 * (i as int) + 3] == p.3);
            assert(p == old(my_buffer)@[i as int]);
            assert forall|j: int| 0 <= j < i as int + 1 implies {
                &&& buffer@[4 * j] == (#[trigger] old(my_buffer)@[j]).0
                &&& buffer@[4 * j + 1] == old(my_buffer)@[j].1
                &&& buffer@[4 * j + 2] == old(my_buffer)@[j].2
                &&& buffer@[4 * j + 3] == old(my_buffer)@[j].3
                &&& my_buffer@[j] == (0u8, 0u8, 0u8, 0u8)
            } by {
                if j < i as int {
                    assert(4 * j + 3 < 4 * (i as int));
                    assert(buf0[4 * j] == old(my_buffer)@[j].0);
                    assert(buf0[4 * j + 1] == old(my_buffer)@[j].1);
                    assert(buf0[4 * j + 2] == old(my_buffer)@[j].2);
                    assert(buf0[4 * j + 3] == old(my_buffer)@[j].3);
                    assert(my0[j] == (0u8, 0u8, 0u8, 0u8));
                    assert(buffer@[4 * j] == buf0[4 * j]);
                    assert(buffer@[4 * j + 1] == buf0[4 * j + 1]);
                    assert(buffer@[4 * j + 2] == buf0[4 * j + 2]);
                    assert(buffer@[4 * j + 3] == buf0[4 * j + 3]);
                    assert(my_buffer@[j] == my0[j]);
                }
            }
        }
        i = i + 1;
    }
}

/// Two in-row positions with the same row-major index coincide.
pub proof fn lemma_idx_unique(width: int, x1: int, y1: int, x2: int, y2: int)
    requires
        0 <= x1 < width,
        0 <= x2 < width,
        0 <= y1,
        0 <= y2,
        idx_of(width, x1, y1) == idx_of(width, x2, y2),
    ensures
        x1 == x2 && y1 == y2,
{
    assert(x1 == x2 && y1 == y2) by (nonlinear_arith)
        requires
            0 <= x1 < width,
            0 <= x2 < width,
            0 <= y1,
            0 <= y2,
            width * y1 + x1 == width * y2 + x2,
    ;
}

/// In-bounds positions index below `width * height`.
pub proof fn lemma_idx_in_bounds(width: int, height: int, x: int, y: int)
    requires
        0 <= x < width,
        0 <= y < height,
    ensures
        0 <= idx_of(width, x, y) < width * height,
{
    assert(0 <= width * y + x < width * height) by (nonlinear_arith)
        requires
            0 <= x < width,
            0 <= y < height,
    ;
}

impl Canvas {
    /// Both buffers have the allocated size and the dimensions fit the
    /// index arithmetic.
    pub open spec fn cwf(self) -> bool {
        &&& self.buffer@.len() == (self.width as int) * (self.height as int) + self.width as int
        &&& self.huemap@.len() == self.buffer@.len()
        &&& (self.width as int) * (self.height as int) + self.width as int <= 0x7fff_ffff
        &&& self.width <= 0x7fff_ffff
        &&& self.height <= 0x7fff_ffff
    }

    /// A canvas of the given size, with every pixel set to the default
    /// color and every hue entry zero.
    pub fn new(width: u32, height: u32, buffer_default_color: (u8, u8, u8, u8)) -> (r: Canvas)
        requires
            (width as int) * (height as int) + width as int <= 0x7fff_ffff,
            height <= 0x7fff_ffff,
        ensures
            r.width == width,
            r.height == height,
            r.length == width as int * height as int,
            r.buffer_default_color == buffer_default_color,
            r.cwf(),
            forall|i: int| 0 <= i < r.buffer@.len() ==> r.buffer@[i] == buffer_default_color,
            forall|i: int|
                0 <= i < r.huemap@.len() ==> r.huemap@[i] == (
                Scalar { raw: 0 },
                Scalar { raw: 0 },
                Scalar { raw: 0 },
                ),
    {
        proof {
            assert((width as int) * (height as int) >= 0) by (nonlinear_arith);
        }
        let n: u32 = width * height + width;
        let mut buffer: Vec<(u8, u8, u8, u8)> = Vec::new();
        let mut huemap: Vec<(Scalar, Scalar, Scalar)> = Vec::new();
        let mut i: u32 = 0;
        while i < n
            invariant
                i <= n,
                buffer@.len() == i,
                huemap@.len() == i,
                forall|j: int| 0 <= j < i ==> buffer@[j] == buffer_default_color,
                forall|j: int|
                    0 <= j < i ==> huemap@[j] == (
                    Scalar { raw: 0 },
                    Scalar { raw: 0 },
                    Scalar { raw: 0 },
                    ),
            decreases n - i,
        {
            buffer.push(buffer_default_color);
            huemap.push((Scalar { raw: 0 }, Scalar { raw: 0 }, Scalar { raw: 0 }));
            i = i + 1;
        }
        Canvas { width, height, length: width * height, buffer_default_color, buffer, huemap }
    }

    /// Row-major buffer index of a position.  Performs no bounds check;
    /// the position must be nonnegative and the index must fit.
    pub fn get_index(&self, x_pos: i32, y_pos: i32) -> (r: usize)
        requires
            0 <= x_pos,
            0 <= y_pos,
            self.width <= 0x7fff_ffff,
            idx_of(self.width as int, x_pos as int, y_pos as int) <= 0x7fff_ffff,
        ensures
            r as int == idx_of(self.width as int, x_pos as int, y_pos as int),
    {
        proof {
            assert((self.width as int) * (y_pos as int) >= 0) by (nonlinear_arith)
                requires
                    self.width as int >= 0,
                    y_pos as int >= 0,
            ;
        }
        ((self.width as i32 * y_pos) + x_pos) as usize
    }

    /// Whether a position lies on the canvas.
    pub fn pos_valid(&self, x_pos: i32, y_pos: i32) -> (r: bool)
        requires
            self.width <= 0x7fff_ffff,
            self.height <= 0x7fff_ffff,
        ensures
            r == (0 <= (x_pos as int) < (self.width as int) && 0 <= (y_pos as int) < (
            self.height as int)),
    {
        x_pos >= 0 && x_pos < self.width as i32 && y_pos >= 0 && y_pos < self.height as i32
    }

    /// The dimensions, default color and hue map are unchanged.
    pub open spec fn same_but_buffer(self, o: Canvas) -> bool {
        &&& self.width == o.width
        &&& self.height == o.height
        &&& self.length == o.length
        &&& self.buffer_default_color == o.buffer_default_color
        &&& self.huemap@ == o.huemap@
    }

    /// The dimensions, default color and pixel buffer are unchanged.
    pub open spec fn same_but_huemap(self, o: Canvas) -> bool {
        &&& self.width == o.width
        &&& self.height == o.height
        &&& self.length == o.length
        &&& self.buffer_default_color == o.buffer_default_color
        &&& self.buffer@ == o.buffer@
    }

    /// Set the pixel at a position.  Performs no bounds check: the caller
    /// owes an in-buffer index.
    pub fn set_color(&mut self, x_pos: i32, y_pos: i32, color: &(u8, u8, u8, u8))
        requires
            0 <= x_pos,
            0 <= y_pos,
            old(self).width <= 0x7fff_ffff,
            idx_of(old(self).width as int, x_pos as int, y_pos as int) < old(
                self,
            ).buffer@.len(),
            old(self).buffer@.len() <= 0x7fff_ffff,
        ensures
            final(self).same_but_buffer(*old(self)),
            final(self).buffer@ == old(self).buffer@.update(
                idx_of(old(self).width as int, x_pos as int, y_pos as int),
                *color,
            ),
    {
        let index: usize = self.get_index(x_pos, y_pos);
        self.buffer[index] = *color;
    }

    /// Set the pixel at a position if it lies on the canvas; otherwise do
    /// nothing.
    pub fn set_color_safe(&mut self, x_pos: i32, y_pos: i32, color: &(u8, u8, u8, u8))
        requires
            old(self).cwf(),
        ensures
            final(self).same_but_buffer(*old(self)),
            final(self).buffer@ == (if 0 <= (x_pos as int) < (old(self).width as int) && 0 <= (y_pos as int) < (
            old(self).height as int) {
                old(self).buffer@.update(
                    idx_of(old(self).width as int, x_pos as int, y_pos as int),
                    *color,
                )
            } else {
                old(self).buffer@
            }),
    {
        if !self.pos_valid(x_pos, y_pos) {
            return ;
        }
        proof {
            lemma_idx_in_bounds(self.width as int, self.height as int, x_pos as int, y_pos as int);
            assert(self.buffer@.len() >= (self.width as int) * (self.height as int));
        }
        let index: usize = self.get_index(x_pos, y_pos);
        self.buffer[index] = *color;
    }

    /// The hue entry at a position.  Performs no bounds check.
    pub fn get_hue(&self, x_pos: i32, y_pos: i32) -> (r: &(Scalar, Scalar, Scalar))
        requires
            0 <= x_pos,
            0 <= y_pos,
            self.width <= 0x7fff_ffff,
            idx_of(self.width as int, x_pos as int, y_pos as int) < self.huemap@.len(),
            self.huemap@.len() <= 0x7fff_ffff,
        ensures
            *r == self.huemap@[idx_of(self.width as int, x_pos as int, y_pos as int)],
    {
        let index: usize = self.get_index(x_pos, y_pos);
        &self.huemap[index]
    }

    /// A mutable borrow of the hue entry at a position.  Performs no
    /// bounds check.
    pub fn get_hue_mut(&mut self, x_pos: i32, y_pos: i32) -> (r: &mut (Scalar, Scalar, Scalar))
        requires
            0 <= x_pos,
            0 <= y_pos,
            old(self).width <= 0x7fff_ffff,
            idx_of(old(self).width as int, x_pos as int, y_pos as int) < old(
                self,
            ).huemap@.len(),
            old(self).huemap@.len() <= 0x7fff_ffff,
        ensures
            *r == old(self).huemap@[idx_of(old(self).width as int, x_pos as int, y_pos as int)],
            final(self).same_but_huemap(*old(self)),
            final(self).huemap@ == old(self).huemap@.update(
                idx_of(old(self).width as int, x_pos as int, y_pos as int),
                *final(r),
            ),
    {
        let index: usize = self.get_index(x_pos, y_pos);
        &mut self.huemap[index]
    }

    /// Set the hue entry at a position.  Performs no bounds check.
    pub fn set_hue(&mut self, x_pos: i32, y_pos: i32, hsv: &(Scalar, Scalar, Scalar))
        requires
            0 <= x_pos,
            0 <= y_pos,
            old(self).width <= 0x7fff_ffff,
            idx_of(old(self).width as int, x_pos as int, y_pos as int) < old(
                self,
            ).huemap@.len(),
            old(self).huemap@.len() <= 0x7fff_ffff,
        ensures
            final(self).same_but_huemap(*old(self)),
            final(self).huemap@ == old(self).huemap@.update(
                idx_of(old(self).width as int, x_pos as int, y_pos as int),
                *hsv,
            ),
    {
        let index: usize = self.get_index(x_pos, y_pos);
        self.huemap[index] = *hsv;
    }

    /// Set the hue entry at a position if it lies on the canvas; otherwise
    /// do nothing.
    pub fn set_hue_safe(&mut self, x_pos: i32, y_pos: i32, hsv: &(Scalar, Scalar, Scalar))
        requires
            old(self).cwf(),
        ensures
            final(self).same_but_huemap(*old(self)),
            final(self).huemap@ == (if 0 <= (x_pos as int) < (old(self).width as int) && 0 <= (y_pos as int) < (
            old(self).height as int) {
                old(self).huemap@.update(
                    idx_of(old(self).width as int, x_pos as int, y_pos as int),
                    *hsv,
                )
            } else {
                old(self).huemap@
            }),
    {
        if !self.pos_valid(x_pos, y_pos) {
            return ;
        }
        proof {
            lemma_idx_in_bounds(self.width as int, self.height as int, x_pos as int, y_pos as int);
            assert(self.huemap@.len() >= (self.width as int) * (self.height as int));
        }
        let index: usize = self.get_index(x_pos, y_pos);
        self.huemap[index] = *hsv;
    }

    /// What one hue increment leaves at the touched entry: a fresh entry
    /// (zero hue) first takes the start value, then the hue channel grows
    /// by the increment.
    pub open spec fn incremented_hue(
        entry: (Scalar, Scalar, Scalar),
        start_hsv: (Scalar, Scalar, Scalar),
        increment: Scalar,
    ) -> (Scalar, Scalar, Scalar) {
        let base = if entry.0.v() == 0 {
            start_hsv
        } else {
            entry
        };
        (Scalar { raw: sat64(base.0.v() + increment.v()) as i64 }, base.1, base.2)
    }

    /// Add to the hue channel at a position, seeding a fresh entry with the
    /// start value; off-canvas positions are ignored.
    pub fn increment_huemap(
        &mut self,
        x_pos: i32,
        y_pos: i32,
        start_hsv: (Scalar, Scalar, Scalar),
        increment: Scalar,
    )
        requires
            old(self).cwf(),
        ensures
            final(self).same_but_huemap(*old(self)),
            final(self).huemap@ == (if 0 <= (x_pos as int) < (old(self).width as int) && 0 <= (y_pos as int) < (
            old(self).height as int) {
                let i = idx_of(old(self).width as int, x_pos as int, y_pos as int);
                old(self).huemap@.update(
                    i,
                    Canvas::incremented_hue(old(self).huemap@[i], start_hsv, increment),
                )
            } else {
                old(self).huemap@
            }),
    {
        if !self.pos_valid(x_pos, y_pos) {
            return ;
        }
        proof {
            lemma_idx_in_bounds(self.width as int, self.height as int, x_pos as int, y_pos as int);
            assert(self.huemap@.len() >= (self.width as int) * (self.height as int));
        }
        let index: usize = self.get_index(x_pos, y_pos);
        let mut entry = self.huemap[index];
        if entry.0.raw == 0 {
            entry = start_hsv;
        }
        entry.0 = entry.0.add(increment);
        self.huemap[index] = entry;
    }

    /// Whether the pixel at a position equals the given color.  Performs no
    /// bounds check.
    pub fn is_color(&self, x_pos: i32, y_pos: i32, color: &(u8, u8, u8, u8)) -> (r: bool)
        requires
            0 <= x_pos,
            0 <= y_pos,
            self.width <= 0x7fff_ffff,
            idx_of(self.width as int, x_pos as int, y_pos as int) < self.buffer@.len(),
            self.buffer@.len() <= 0x7fff_ffff,
        ensures
            r == (self.buffer@[idx_of(self.width as int, x_pos as int, y_pos as int)]
                == *color),
    {
        let index = self.get_index(x_pos, y_pos);
        let c = self.buffer[index];
        c.0 == color.0 && c.1 == color.1 && c.2 == color.2 && c.3 == color.3
    }

    /// Whether the pixel at a position still holds the default color.
    pub fn is_default(&self, x_pos: i32, y_pos: i32) -> (r: bool)
        requires
            0 <= x_pos,
            0 <= y_pos,
            self.width <= 0x7fff_ffff,
            idx_of(self.width as int, x_pos as int, y_pos as int) < self.buffer@.len(),
            self.buffer@.len() <= 0x7fff_ffff,
        ensures
            r == (self.buffer@[idx_of(self.width as int, x_pos as int, y_pos as int)]
                == self.buffer_default_color),
    {
        let color = self.buffer_default_color;
        self.is_color(x_pos, y_pos, &color)
    }

    /// Draw the one-pixel border of a square into the pixel buffer: the two
    /// horizontal lines first, then the two vertical lines.  Performs no
    /// bounds check: the whole border must lie on the canvas.
    pub fn draw_square_rgb(
        &mut self,
        top_left_x: i32,
        top_left_y: i32,
        width: i32,
        height: i32,
        rgb_color: &(u8, u8, u8, u8),
    )
        requires
            old(self).cwf(),
            0 <= top_left_x,
            0 <= top_left_y,
            0 <= width,
            0 <= height,
            top_left_x + width < old(self).width as int,
            top_left_y + height < old(self).height as int,
        ensures
            final(self).same_but_buffer(*old(self)),
            final(self).buffer@.len() == old(self).buffer@.len(),
            forall|x: int, y: int|
                0 <= x < old(self).width as int && 0 <= y < old(self).height as int
                    ==> final(self).buffer@[idx_of(old(self).width as int, x, y)] == (
                if on_border(
                    top_left_x as int,
                    top_left_y as int,
                    width as int,
                    height as int,
                    x,
                    y,
                ) {
                    *rgb_color
                } else {
                    old(self).buffer@[idx_of(old(self).width as int, x, y)]
                }),
            forall|i: int|
                (old(self).width as int) * (old(self).height as int) <= i < old(
                    self,
                ).buffer@.len() ==> final(self).buffer@[i] == old(self).buffer@[i],
    {
        let w = self.width;
        let h = self.height;
        let ghost wi = self.width as int;
        let ghost hi = self.height as int;
        let ghost tlx = top_left_x as int;
        let ghost tly = top_left_y as int;
        let ghost bw = width as int;
        let ghost bh = height as int;
        let top_right_x: i32 = top_left_x + width;
        let bottom_left_y: i32 = top_left_y + height;
        let mut x: i32 = top_left_x;
        while x <= top_right_x
            invariant
                self.cwf(),
                self.width == old(self).width,
                self.height == old(self).height,
                self.same_but_buffer(*old(self)),
                self.buffer@.len() == old(self).buffer@.len(),
                top_left_x <= x <= top_right_x + 1,
                top_right_x == tlx + bw < wi <= 0x7fff_ffff,
                bottom_left_y == tly + bh < hi,
                wi == self.width as int,
                hi == self.height as int,
                tlx == top_left_x as int,
                tly == top_left_y as int,
                bw == width as int,
                bh == height as int,
                0 <= top_left_x,
                0 <= top_left_y,
                0 <= width,
                0 <= height,
                forall|px: int, py: int|
                    0 <= px < wi && 0 <= py < hi ==> self.buffer@[idx_of(wi, px, py)] == (
                    if (py == tly || py == tly + bh) && tlx <= px < x as int {
                        *rgb_color
                    } else {
                        old(self).buffer@[idx_of(wi, px, py)]
                    }),
                forall|i: int|
                    wi * hi <= i < old(self).buffer@.len() ==> self.buffer@[i] == old(
                        self,
                    ).buffer@[i],
            decreases top_right_x + 1 - x,
        {
            proof {
                lemma_idx_in_bounds(wi, hi, x as int, tly);
                lemma_idx_in_bounds(wi, hi, x as int, tly + bh);
                assert(wi * hi <= self.buffer@.len());
            }
            self.set_color(x, top_left_y, rgb_color);
            self.set_color(x, bottom_left_y, rgb_color);
            proof {
                assert forall|px: int, py: int|
                    0 <= px < wi && 0 <= py < hi implies self.buffer@[idx_of(wi, px, py)] == (
                    if (py == tly || py == tly + bh) && tlx <= px < x as int + 1 {
                        *rgb_color
                    } else {
                        old(self).buffer@[idx_of(wi, px, py)]
                    }) by {
                    lemma_idx_in_bounds(wi, hi, px, py);
                    if idx_of(wi, px, py) == idx_of(wi, x as int, tly) {
                        lemma_idx_unique(wi, px, py, x as int, tly);
                    }
                    if idx_of(wi, px, py) == idx_of(wi, x as int, tly + bh) {
                        lemma_idx_unique(wi, px, py, x as int, tly + bh);
                    }
                }
            }
            x = x + 1;
        }
        let mut y: i32 = top_left_y;
        while y <= bottom_left_y
            invariant
                self.cwf(),
                self.width == old(self).width,
                self.height == old(self).height,
                self.same_but_buffer(*old(self)),
                self.buffer@.len() == old(self).buffer@.len(),
                top_left_y <= y <= bottom_left_y + 1,
                top_right_x == tlx + bw < wi <= 0x7fff_ffff,
                bottom_left_y == tly + bh < hi,
                wi == self.width as int,
                hi == self.height as int,
                tlx == top_left_x as int,
                tly == top_left_y as int,
                bw == width as int,
                bh == height as int,
                0 <= top_left_x,
                0 <= top_left_y,
                0 <= width,
                0 <= height,
                forall|px: int, py: int|
                    0 <= px < wi && 0 <= py < hi ==> self.buffer@[idx_of(wi, px, py)] == (
                    if ((py == tly || py == tly + bh) && tlx <= px <= tlx + bw) || ((px == tlx
                        || px == tlx + bw) && tly <= py < y as int) {
                        *rgb_color
                    } else {
                        old(self).buffer@[idx_of(wi, px, py)]
                    }),
                forall|i: int|
                    wi * hi <= i < old(self).buffer@.len() ==> self.buffer@[i] == old(
                        self,
                    ).buffer@[i],
            decreases bottom_left_y + 1 - y,
        {
            proof {
                lemma_idx_in_bounds(wi, hi, tlx, y as int);
                lemma_idx_in_bounds(wi, hi, tlx + bw, y as int);
                assert(wi * hi <= self.buffer@.len());
            }
            self.set_color(top_left_x, y, rgb_color);
            self.set_color(top_right_x, y, rgb_color);
            proof {
                assert forall|px: int, py: int|
                    0 <= px < wi && 0 <= py < hi implies self.buffer@[idx_of(wi, px, py)] == (
                    if ((py == tly || py == tly + bh) && tlx <= px <= tlx + bw) || ((px == tlx
                        || px == tlx + bw) && tly <= py < y as int + 1) {
                        *rgb_color
                    } else {
                        old(self).buffer@[idx_of(wi, px, py)]
                    }) by {
                    lemma_idx_in_bounds(wi, hi, px, py);
                    if idx_of(wi, px, py) == idx_of(wi, tlx, y as int) {
                        lemma_idx_unique(wi, px, py, tlx, y as int);
                    }
                    if idx_of(wi, px, py) == idx_of(wi, tlx + bw, y as int) {
                        lemma_idx_unique(wi, px, py, tlx + bw, y as int);
                    }
                }
            }
            y = y + 1;
        }
    }

    /// Draw the one-pixel border of a square into the hue map, skipping any
    /// border point that falls off the canvas.  The corner sums saturate at
    /// the `i32` range rather than wrapping.
    pub fn draw_square_safe(
        &mut self,
        top_left_x: i32,
        top_left_y: i32,
        width: i32,
        height: i32,
        color: &(Scalar, Scalar, Scalar),
    )
        requires
            old(self).cwf(),
        ensures
            final(self).same_but_huemap(*old(self)),
            final(self).huemap@.len() == old(self).huemap@.len(),
            forall|x: int, y: int|
                0 <= x < old(self).width as int && 0 <= y < old(self).height as int
                    ==> final(self).huemap@[idx_of(old(self).width as int, x, y)] == (
                if on_border(
                    top_left_x as int,
                    top_left_y as int,
                    sat32(top_left_x as int + width as int) - top_left_x as int,
                    sat32(top_left_y as int + height as int) - top_left_y as int,
                    x,
                    y,
                ) {
                    *color
                } else {
                    old(self).huemap@[idx_of(old(self).width as int, x, y)]
                }),
            forall|i: int|
                (old(self).width as int) * (old(self).height as int) <= i < old(
                    self,
                ).huemap@.len() ==> final(self).huemap@[i] == old(self).huemap@[i],
    {
        let ghost wi = self.width as int;
        let ghost hi = self.height as int;
        let ghost tlx = top_left_x as int;
        let ghost tly = top_left_y as int;
        let top_right_x: i32 = sat_add_i32(top_left_x, width);
        let bottom_left_y: i32 = sat_add_i32(top_left_y, height);
        let ghost trx = top_right_x as int;
        let ghost bly = bottom_left_y as int;
        let mut xi: i64 = top_left_x as i64;
        while xi <= top_right_x as i64
            invariant
                self.cwf(),
                self.same_but_huemap(*old(self)),
                self.huemap@.len() == old(self).huemap@.len(),
                wi == self.width as int,
                hi == self.height as int,
                tlx == top_left_x as int,
                tly == top_left_y as int,
                trx == top_right_x as int,
                bly == bottom_left_y as int,
                trx == sat32(tlx + width as int),
                bly == sat32(tly + height as int),
                tlx <= xi <= trx + 1 || (trx < tlx && xi == tlx),
                forall|px: int, py: int|
                    0 <= px < wi && 0 <= py < hi ==> self.huemap@[idx_of(wi, px, py)] == (
                    if (py == tly || py == bly) && tlx <= px < xi as int {
                        *color
                    } else {
                        old(self).huemap@[idx_of(wi, px, py)]
                    }),
                forall|i: int|
                    wi * hi <= i < old(self).huemap@.len() ==> self.huemap@[i] == old(
                        self,
                    ).huemap@[i],
            decreases trx + 1 - xi,
        {
            let x = xi as i32;
            self.set_hue_safe(x, top_left_y, color);
            proof {
                if 0 <= xi < wi && 0 <= tly < hi {
                    lemma_idx_in_bounds(wi, hi, xi as int, tly);
                }
                assert(self.cwf());
            }
            self.set_hue_safe(x, bottom_left_y, color);
            proof {
                if 0 <= xi < wi && 0 <= bly < hi {
                    lemma_idx_in_bounds(wi, hi, xi as int, bly);
                }
                assert(self.cwf());
            }
            proof {
                assert forall|px: int, py: int|
                    0 <= px < wi && 0 <= py < hi implies self.huemap@[idx_of(wi, px, py)] == (
                    if (py == tly || py == bly) && tlx <= px < xi as int + 1 {
                        *color
                    } else {
                        old(self).huemap@[idx_of(wi, px, py)]
                    }) by {
                    lemma_idx_in_bounds(wi, hi, px, py);
                    assert(wi * hi <= self.huemap@.len());
                    if 0 <= (xi as int) < wi && 0 <= tly < hi && idx_of(wi, px, py) == idx_of(
                        wi,
                        xi as int,
                        tly,
                    ) {
                        lemma_idx_unique(wi, px, py, xi as int, tly);
                    }
                    if 0 <= (xi as int) < wi && 0 <= bly < hi && idx_of(wi, px, py) == idx_of(
                        wi,
                        xi as int,
                        bly,
                    ) {
                        lemma_idx_unique(wi, px, py, xi as int, bly);
                    }
                }
            }
            xi = xi + 1;
        }
        let mut yi: i64 = top_left_y as i64;
        while yi <= bottom_left_y as i64
            invariant
                self.cwf(),
                self.same_but_huemap(*old(self)),
                self.huemap@.len() == old(self).huemap@.len(),
                wi == self.width as int,
                hi == self.height as int,
                tlx == top_left_x as int,
                tly == top_left_y as int,
                trx == top_right_x as int,
                bly == bottom_left_y as int,
                trx == sat32(tlx + width as int),
                bly == sat32(tly + height as int),
                tly <= yi <= bly + 1 || (bly < tly && yi == tly),
                forall|px: int, py: int|
                    0 <= px < wi && 0 <= py < hi ==> self.huemap@[idx_of(wi, px, py)] == (
                    if ((py == tly || py == bly) && tlx <= px <= trx) || ((px == tlx || px == trx)
                        && tly <= py < yi as int) {
                        *color
                    } else {
                        old(self).huemap@[idx_of(wi, px, py)]
                    }),
                forall|i: int|
                    wi * hi <= i < old(self).huemap@.len() ==> self.huemap@[i] == old(
                        self,
                    ).huemap@[i],
            decreases bly + 1 - yi,
        {
            let y = yi as i32;
            self.set_hue_safe(top_left_x, y, color);
            proof {
                if 0 <= tlx < wi && 0 <= yi < hi {
                    lemma_idx_in_bounds(wi, hi, tlx, yi as int);
                }
                assert(self.cwf());
            }
            self.set_hue_safe(top_right_x, y, color);
            proof {
                if 0 <= trx < wi && 0 <= yi < hi {
                    lemma_idx_in_bounds(wi, hi, trx, yi as int);
                }
                assert(self.cwf());
            }
            proof {
                assert forall|px: int, py: int|
                    0 <= px < wi && 0 <= py < hi implies self.huemap@[idx_of(wi, px, py)] == (
                    if ((py == tly || py == bly) && tlx <= px <= trx) || ((px == tlx || px == trx)
                        && tly <= py < yi as int + 1) {
                        *color
                    } else {
                        old(self).huemap@[idx_of(wi, px, py)]
                    }) by {
                    lemma_idx_in_bounds(wi, hi, px, py);
                    assert(wi * hi <= self.huemap@.len());
                    if 0 <= tlx < wi && 0 <= (yi as int) < hi && idx_of(wi, px, py) == idx_of(
                        wi,
                        tlx,
                        yi as int,
                    ) {
                        lemma_idx_unique(wi, px, py, tlx, yi as int);
                    }
                    if 0 <= trx < wi && 0 <= (yi as int) < hi && idx_of(wi, px, py) == idx_of(
                        wi,
                        trx,
                        yi as int,
                    ) {
                        lemma_idx_unique(wi, px, py, trx, yi as int);
                    }
                }
            }
            yi = yi + 1;
        }
    }

    /// Reset every pixel to transparent black and every hue entry to zero.
    pub fn clear(&mut self)
        ensures
            final(self).width == old(self).width,
            final(self).height == old(self).height,
            final(self).length == old(self).length,
            final(self).buffer_default_color == old(self).buffer_default_color,
            final(self).buffer@.len() == old(self).buffer@.len(),
            final(self).huemap@.len() == old(self).huemap@.len(),
            forall|i: int|
                0 <= i < old(self).buffer@.len() ==> final(self).buffer@[i] == (
                0u8,
                0u8,
                0u8,
                0u8,
                ),
            forall|i: int|
                0 <= i < old(self).huemap@.len() ==> final(self).huemap@[i] == (
                Scalar { raw: 0 },
                Scalar { raw: 0 },
                Scalar { raw: 0 },
                ),
    {
        let n = self.buffer.len();
        let mut i: usize = 0;
        while i < n
            invariant
                i <= n,
                n == self.buffer@.len(),
                self.width == old(self).width,
                self.height == old(self).height,
                self.length == old(self).length,
                self.buffer_default_color == old(self).buffer_default_color,
                self.buffer@.len() == old(self).buffer@.len(),
                self.huemap@ == old(self).huemap@,
                forall|k: int| 0 <= k < i ==> self.buffer@[k] == (0u8, 0u8, 0u8, 0u8),
            decreases n - i,
        {
            self.buffer[i] = (0, 0, 0, 0);
            i = i + 1;
        }
        let m = self.huemap.len();
        let mut j: usize = 0;
        while j < m
            invariant
                j <= m,
                m == self.huemap@.len(),
                self.width == old(self).width,
                self.height == old(self).height,
                self.length == old(self).length,
                self.buffer_default_color == old(self).buffer_default_color,
                self.buffer@.len() == old(self).buffer@.len(),
                self.huemap@.len() == old(self).huemap@.len(),
                forall|k: int|
                    0 <= k < old(self).buffer@.len() ==> self.buffer@[k] == (0u8, 0u8, 0u8, 0u8),
                forall|k: int|
                    0 <= k < j ==> self.huemap@[k] == (
                    Scalar { raw: 0 },
                    Scalar { raw: 0 },
                    Scalar { raw: 0 },
                    ),
            decreases m - j,
        {
            self.huemap[j] = (Scalar { raw: 0 }, Scalar { raw: 0 }, Scalar { raw: 0 });
            j = j + 1;
        }
    }
}

} // verus!
