use vstd::prelude::*;

use crate::color::{lemma_unpack_pack, packed, unpacked, Color};
use crate::geometry::{Position, Size};

verus! {

/// Where pixel `(x, y)` lies in a row-major buffer whose rows are `width` long.
pub open spec fn index_of(width: int, x: int, y: int) -> int {
    y * width + x
}

/// Pixel `(x, y)` of a buffer whose rows are `width` long holds `v` where `region` holds
/// and what `before` held elsewhere.
pub open spec fn painted(
    before: Seq<u32>,
    width: int,
    region: spec_fn(int, int) -> bool,
    v: u32,
) -> Seq<u32> {
    Seq::new(before.len(), |i: int| if region(i % width, i / width) { v } else { before[i] })
}

/// The canvas's buffer before and after a run of pixel writes agree outside `region`,
/// and hold `v` inside it.
spec fn painted_where(
    before: Seq<u32>,
    after: Seq<u32>,
    width: int,
    region: spec_fn(int, int) -> bool,
    v: u32,
) -> bool {
    &&& after.len() == before.len()
    &&& forall|i: int|
        0 <= i < before.len() ==> #[trigger] after[i] == if region(i % width, i / width) {
            v
        } else {
            before[i]
        }
}

/// Pixel `(x, y)` lies in the box at `pos` of extent `size`.
pub open spec fn in_rect(pos: Position, size: Size, x: int, y: int) -> bool {
    &&& pos.x <= x < pos.x + size.width
    &&& pos.y <= y < pos.y + size.height
}

/// The corner radius actually drawn: `radius`, but at most half the shorter side.
pub open spec fn clamped_radius(size: Size, radius: u32) -> int {
    let half = (if size.width <= size.height {
        size.width
    } else {
        size.height
    }) as int / 2;
    if radius > half {
        half
    } else {
        radius as int
    }
}

/// For pixel `(x, y)` of a `w` by `h` box whose corner squares are `r` wide, the offset
/// from the inner corner pixel of the corner square holding it, the pixel `r - 1` inward from
/// the box's corner on both axes; `(0, 0)` off the corners.
pub open spec fn corner_offset(w: int, h: int, r: int, x: int, y: int) -> (int, int) {
    if x < r && y < r {
        (r - 1 - x, r - 1 - y)
    } else if x >= w - r && y < r {
        (x - (w - r), r - 1 - y)
    } else if x < r && y >= h - r {
        (r - 1 - x, y - (h - r))
    } else if x >= w - r && y >= h - r {
        (x - (w - r), y - (h - r))
    } else {
        (0, 0)
    }
}

/// Pixel `(x, y)` of a `w` by `h` box is kept when its corners are rounded with radius `r`.
pub open spec fn rounded_covers(w: int, h: int, r: int, x: int, y: int) -> bool {
    let d = corner_offset(w, h, r, x, y);
    d.0 * d.0 + d.1 * d.1 <= r * r
}

/// Pixel `(x, y)` of the canvas lies in the rounded rectangle at `pos` of extent `size`
/// whose corner radius, once clamped, is `radius`.
pub open spec fn in_rounded_rect(pos: Position, size: Size, radius: u32, x: int, y: int) -> bool {
    &&& in_rect(pos, size, x, y)
    &&& rounded_covers(
        size.width as int,
        size.height as int,
        clamped_radius(size, radius),
        x - pos.x,
        y - pos.y,
    )
}

/// The corner radius that circles are drawn with. Clamping brings it down to half the shorter
/// side of every box whose shorter side is under 722 pixels.
pub const CIRCLE_RADIUS: u32 = 360;

/// Pixel `(x, y)` lies in the shape drawn as the circle, or ellipse, inscribed in the box at
/// `pos` of extent `size`: the rounded rectangle of radius `CIRCLE_RADIUS`.
pub open spec fn in_circle(pos: Position, size: Size, x: int, y: int) -> bool {
    in_rounded_rect(pos, size, CIRCLE_RADIUS, x, y)
}

/// Local pixel `(x, y)` of a box scanned row by row comes before column `col` of row `row`.
pub open spec fn scanned(x: int, y: int, row: int, col: int) -> bool {
    y < row || (y == row && x < col)
}

/// A corner radius beyond half the shorter side draws exactly what that half draws.
pub proof fn lemma_radius_clamped(
    before: Seq<u32>,
    width: int,
    pos: Position,
    size: Size,
    radius: u32,
    v: u32,
)
    requires
        radius > clamped_radius(size, radius),
    ensures
        painted(before, width, |x: int, y: int| in_rounded_rect(pos, size, radius, x, y), v)
            == painted(
            before,
            width,
            |x: int, y: int| in_rounded_rect(pos, size, clamped_radius(size, radius) as u32, x, y),
            v,
        ),
{
    let half = clamped_radius(size, radius) as u32;
    assert(clamped_radius(size, half) == clamped_radius(size, radius));
    assert(painted(before, width, |x: int, y: int| in_rounded_rect(pos, size, radius, x, y), v)
        =~= painted(before, width, |x: int, y: int| in_rounded_rect(pos, size, half, x, y), v));
}

/// Tells whether local pixel `(x, y)` survives the rounding of the corners.
fn corner_covers(w: u32, h: u32, r: u32, x: u32, y: u32) -> (b: bool)
    requires
        2 * r <= w,
        2 * r <= h,
        x < w,
        y < h,
    ensures
        b == rounded_covers(w as int, h as int, r as int, x as int, y as int),
{
    let mut dx: u64 = 0;
    let mut dy: u64 = 0;
    if x < r && y < r {
        dx = (r - 1 - x) as u64;
        dy = (r - 1 - y) as u64;
    } else if x >= w - r && y < r {
        dx = (x - (w - r)) as u64;
        dy = (r - 1 - y) as u64;
    } else if x < r && y >= h - r {
        dx = (r - 1 - x) as u64;
        dy = (y - (h - r)) as u64;
    } else if x >= w - r && y >= h - r {
        dx = (x - (w - r)) as u64;
        dy = (y - (h - r)) as u64;
    }
    let rr: u64 = r as u64;
    assert(dx * dx <= rr * rr && dy * dy <= rr * rr && rr * rr <= 0x4000_0000_0000_0000)
        by (nonlinear_arith)
        requires
            dx <= rr,
            dy <= rr,
            2 * rr <= 0xffff_ffff,
    ;
    dx * dx + dy * dy <= rr * rr
}

/// The buffer after writing `c` at `p`: slot `y * w + x` takes the packed color where `p` lies
/// inside a `w` by `h` canvas, and nothing changes where it lies outside.
pub open spec fn pixel_written(before: Seq<u32>, w: int, h: int, p: Position, c: Color) -> Seq<u32> {
    if p.x < w && p.y < h {
        before.update(index_of(w, p.x as int, p.y as int), packed(c))
    } else {
        before
    }
}

/// The buffer after the pixel writes in `writes`, made in order.
pub open spec fn pixels_written(
    before: Seq<u32>,
    w: int,
    h: int,
    writes: Seq<(Position, Color)>,
) -> Seq<u32>
    decreases writes.len(),
{
    if writes.len() == 0 {
        before
    } else {
        pixel_written(
            pixels_written(before, w, h, writes.drop_last()),
            w,
            h,
            writes.last().0,
            writes.last().1,
        )
    }
}

/// Pixel writes keep the length of a canvas's buffer.
pub proof fn lemma_writes_keep_len(before: Seq<u32>, w: int, h: int, writes: Seq<(Position, Color)>)
    requires
        0 <= w,
        0 <= h,
        before.len() == w * h,
    ensures
        pixels_written(before, w, h, writes).len() == before.len(),
    decreases writes.len(),
{
    if writes.len() > 0 {
        lemma_writes_keep_len(before, w, h, writes.drop_last());
        let p = writes.last().0;
        if p.x < w && p.y < h {
            lemma_index_in_buffer(w, h, p.x as int, p.y as int);
        }
    }
}

/// After any run of pixel writes on a canvas, a pixel inside it unpacks to exactly the
/// channels of the last color written there.
pub proof fn lemma_last_write_reads_back(
    before: Seq<u32>,
    w: int,
    h: int,
    writes: Seq<(Position, Color)>,
    k: int,
)
    requires
        0 <= w,
        0 <= h,
        before.len() == w * h,
        0 <= k < writes.len(),
        writes[k].0.x < w,
        writes[k].0.y < h,
        forall|j: int| k < j < writes.len() ==> #[trigger] writes[j].0 != writes[k].0,
    ensures
        unpacked(
            pixels_written(before, w, h, writes)[index_of(w, writes[k].0.x as int, writes[k].0.y as int)],
        ) == writes[k].1,
    decreases writes.len(),
{
    let p = writes[k].0;
    let rest = writes.drop_last();
    lemma_index_in_buffer(w, h, p.x as int, p.y as int);
    lemma_writes_keep_len(before, w, h, rest);
    let mid = pixels_written(before, w, h, rest);
    let i = index_of(w, p.x as int, p.y as int);
    if k == writes.len() - 1 {
        assert(writes.last() == writes[k]);
        assert(pixels_written(before, w, h, writes) == pixel_written(mid, w, h, p, writes[k].1));
        lemma_unpack_pack(writes[k].1);
    } else {
        assert(rest[k] == writes[k]);
        assert forall|j: int| k < j < rest.len() implies #[trigger] rest[j].0 != rest[k].0 by {
            assert(rest[j] == writes[j]);
        }
        lemma_last_write_reads_back(before, w, h, rest, k);
        let q = writes.last().0;
        assert(writes.last() == writes[writes.len() - 1]);
        assert(q != p);
        assert(pixels_written(before, w, h, writes) == pixel_written(mid, w, h, q, writes.last().1));
        if q.x < w && q.y < h {
            lemma_index_in_buffer(w, h, q.x as int, q.y as int);
            assert(index_of(w, q.x as int, q.y as int) != i);
        }
    }
}

/// A pixel buffer with its dimensions and the background color that fills it anew on resize.
pub struct Canvas {
    width: u32,
    height: u32,
    buffer: Vec<u32>,
    color: Color,
}

/// Facts on the row and column of slot `i` of a buffer of `height` rows of `width` slots.
proof fn lemma_slot_coords(width: int, height: int, i: int)
    requires
        0 < width,
        0 <= height,
        0 <= i < width * height,
    ensures
        0 <= i % width < width,
        0 <= i / width < height,
        i == index_of(width, i % width, i / width),
{
    vstd::arithmetic::div_mod::lemma_fundamental_div_mod(i, width);
    vstd::arithmetic::div_mod::lemma_mod_pos_bound(i, width);
    vstd::arithmetic::div_mod::lemma_div_pos_is_pos(i, width);
    let q = i / width;
    let r = i % width;
    assert(q < height) by (nonlinear_arith)
        requires
            i == width * q + r,
            0 <= r,
            i < width * height,
            0 < width,
    ;
    assert(width * q == q * width) by (nonlinear_arith);
}

/// A pixel inside the canvas has a slot inside the buffer, and that slot tells its row and column.
proof fn lemma_index_in_buffer(width: int, height: int, x: int, y: int)
    requires
        0 <= x < width,
        0 <= y < height,
    ensures
        0 <= index_of(width, x, y) < width * height,
        index_of(width, x, y) % width == x,
        index_of(width, x, y) / width == y,
{
    assert(0 <= y * width + x < width * height) by (nonlinear_arith)
        requires
            0 <= x < width,
            0 <= y < height,
    ;
    vstd::arithmetic::div_mod::lemma_fundamental_div_mod_converse(y * width + x, width, y, x);
}

impl Canvas {
    /// The width in pixels.
    pub closed spec fn spec_width(&self) -> nat {
        self.width as nat
    }

    /// The height in pixels.
    pub closed spec fn spec_height(&self) -> nat {
        self.height as nat
    }

    /// The packed colors, row by row.
    pub closed spec fn pixels(&self) -> Seq<u32> {
        self.buffer@
    }

    /// The color given at creation, which a resize fills the buffer with.
    pub closed spec fn background(&self) -> Color {
        self.color
    }

    /// The buffer has a slot for each pixel, and their number fits in `usize`.
    pub open spec fn wf(&self) -> bool {
        &&& self.pixels().len() == self.spec_width() * self.spec_height()
        &&& self.spec_width() * self.spec_height() <= usize::MAX
    }

    /// Creates a canvas of `size` with every pixel set to `color`.
    pub fn new(size: Size, color: Color) -> (c: Canvas)
        requires
            size.width * size.height <= usize::MAX,
        ensures
            c.wf(),
            c.spec_width() == size.width,
            c.spec_height() == size.height,
            c.background() == color,
            c.pixels() == Seq::new((size.width * size.height) as nat, |i: int| packed(color)),
    {
        let u32_color = Color::to_argb(color.a, color.r, color.g, color.b);
        let n: usize = size.width as usize * size.height as usize;
        let buffer = vec![u32_color; n];
        let c = Canvas { width: size.width, height: size.height, buffer, color };
        assert(c.pixels() =~= Seq::new((size.width * size.height) as nat, |i: int| packed(color)));
        c
    }

    /// Sets pixel `pixel` to `color`; a pixel outside the canvas leaves it unchanged.
    pub fn draw_pixel(&mut self, pixel: Position, color: Color)
        requires
            old(self).wf(),
        ensures
            final(self).wf(),
            final(self).spec_width() == old(self).spec_width(),
            final(self).spec_height() == old(self).spec_height(),
            final(self).background() == old(self).background(),
            final(self).pixels() == pixel_written(
                old(self).pixels(),
                old(self).spec_width() as int,
                old(self).spec_height() as int,
                pixel,
                color,
            ),
    {
        if pixel.x >= self.width || pixel.y >= self.height {
            return;
        }
        let u32_color = Color::to_argb(color.a, color.r, color.g, color.b);
        proof {
            lemma_index_in_buffer(self.width as int, self.height as int, pixel.x as int, pixel.y as int);
        }
        let index: usize = pixel.y as usize * self.width as usize + pixel.x as usize;
        self.buffer.set(index, u32_color);
    }

    /// Writes `color` at `pos + (x, y)`, where that pixel exists.
    fn paint_at(&mut self, pos: Position, x: u32, y: u32, color: Color)
        requires
            old(self).wf(),
        ensures
            final(self).wf(),
            final(self).spec_width() == old(self).spec_width(),
            final(self).spec_height() == old(self).spec_height(),
            final(self).background() == old(self).background(),
            painted_where(
                old(self).pixels(),
                final(self).pixels(),
                old(self).spec_width() as int,
                |px: int, py: int| px == pos.x + x && py == pos.y + y,
                packed(color),
            ),
    {
        let ghost before = self.pixels();
        let ghost w = self.width as int;
        let ghost h = self.height as int;
        let ghost px = pos.x + x;
        let ghost py = pos.y + y;
        if x <= u32::MAX - pos.x && y <= u32::MAX - pos.y {
            self.draw_pixel(Position { x: pos.x + x, y: pos.y + y }, color);
            proof {
                if px < w && py < h {
                    lemma_index_in_buffer(w, h, px, py);
                }
            }
        }
        assert forall|i: int| 0 <= i < before.len() implies #[trigger] self.pixels()[i] == if i % w
            == px && i / w == py {
            packed(color)
        } else {
            before[i]
        } by {
            assert(w > 0) by (nonlinear_arith)
                requires
                    0 <= i < w * h,
                    0 <= w,
                    0 <= h,
            ;
            lemma_slot_coords(w, h, i);
        }
    }

    /// Fills the box at `pos` of extent `size` with `color`, its corners rounded with
    /// `radius`, which is first clamped to half the shorter side; clipped to the canvas.
    pub fn draw_rounded_rect(&mut self, pos: Position, size: Size, color: Color, radius: u32)
        requires
            old(self).wf(),
        ensures
            final(self).wf(),
            final(self).spec_width() == old(self).spec_width(),
            final(self).spec_height() == old(self).spec_height(),
            final(self).background() == old(self).background(),
            final(self).pixels() == painted(
                old(self).pixels(),
                old(self).spec_width() as int,
                |x: int, y: int| in_rounded_rect(pos, size, radius, x, y),
                packed(color),
            ),
    {
        let ghost before = self.pixels();
        let ghost w = self.spec_width();
        let ghost h = self.spec_height();
        let ghost bg = self.background();
        let ghost asked = radius;
        let shorter = if size.width <= size.height {
            size.width
        } else {
            size.height
        };
        let max_radius = shorter / 2;
        let radius = if radius > max_radius {
            max_radius
        } else {
            radius
        };
        assert(radius == clamped_radius(size, asked));
        let mut y: u32 = 0;
        while y < size.height
            invariant
                self.wf(),
                self.spec_width() == w,
                self.spec_height() == h,
                self.background() == bg,
                y <= size.height,
                radius == clamped_radius(size, asked),
                painted_where(
                    before,
                    self.pixels(),
                    w as int,
                    |px: int, py: int|
                        in_rounded_rect(pos, size, asked, px, py) && scanned(px - pos.x, py - pos.y, y as int, 0),
                    packed(color),
                ),
            decreases size.height - y,
        {
            let mut x: u32 = 0;
            while x < size.width
                invariant
                    self.wf(),
                    self.spec_width() == w,
                    self.spec_height() == h,
                    self.background() == bg,
                    y < size.height,
                    x <= size.width,
                    radius == clamped_radius(size, asked),
                    painted_where(
                        before,
                        self.pixels(),
                        w as int,
                        |px: int, py: int|
                            in_rounded_rect(pos, size, asked, px, py) && scanned(
                                px - pos.x,
                                py - pos.y,
                                y as int,
                                x as int,
                            ),
                        packed(color),
                    ),
                decreases size.width - x,
            {
                if corner_covers(size.width, size.height, radius, x, y) {
                    self.paint_at(pos, x, y, color);
                }
                x = x + 1;
            }
            y = y + 1;
        }
        assert(self.pixels() =~= painted(
            before,
            w as int,
            |px: int, py: int| in_rounded_rect(pos, size, asked, px, py),
            packed(color),
        ));
    }

    /// Fills the circle, or ellipse, inscribed in the box at `pos` of extent `size`: the rounded
    /// rectangle of radius `CIRCLE_RADIUS`, which clamping brings down to half the shorter side.
    pub fn draw_circle(&mut self, pos: Position, size: Size, color: Color)
        requires
            old(self).wf(),
        ensures
            final(self).wf(),
            final(self).spec_width() == old(self).spec_width(),
            final(self).spec_height() == old(self).spec_height(),
            final(self).background() == old(self).background(),
            final(self).pixels() == painted(
                old(self).pixels(),
                old(self).spec_width() as int,
                |x: int, y: int| in_circle(pos, size, x, y),
                packed(color),
            ),
    {
        self.draw_rounded_rect(pos, size, color, CIRCLE_RADIUS);
        assert(self.pixels() =~= painted(
            old(self).pixels(),
            old(self).spec_width() as int,
            |x: int, y: int| in_circle(pos, size, x, y),
            packed(color),
        ));
    }

    /// The width in pixels.
    pub fn width(&self) -> (w: u32)
        ensures
            w == self.spec_width(),
    {
        self.width
    }

    /// The height in pixels.
    pub fn height(&self) -> (h: u32)
        ensures
            h == self.spec_height(),
    {
        self.height
    }

    /// Sets every pixel to `color`; the size and the background color stay.
    pub fn clear(&mut self, color: Color)
        requires
            old(self).wf(),
        ensures
            final(self).wf(),
            final(self).spec_width() == old(self).spec_width(),
            final(self).spec_height() == old(self).spec_height(),
            final(self).background() == old(self).background(),
            final(self).pixels() == Seq::new(old(self).pixels().len(), |i: int| packed(color)),
    {
        let u32_color = Color::to_argb(color.a, color.r, color.g, color.b);
        let ghost len = self.buffer.len();
        let mut i: usize = 0;
        while i < self.buffer.len()
            invariant
                self.buffer.len() == len,
                self.width == old(self).width,
                self.height == old(self).height,
                self.color == old(self).color,
                0 <= i <= len,
                forall|j: int| 0 <= j < i ==> #[trigger] self.buffer@[j] == u32_color,
            decreases len - i,
        {
            self.buffer.set(i, u32_color);
            i = i + 1;
        }
        assert(self.pixels() =~= Seq::new(old(self).pixels().len(), |i: int| packed(color)));
    }

    /// Takes on `size` and fills the whole buffer anew with the background color;
    /// what was drawn before is gone.
    pub fn resize(&mut self, size: Size)
        requires
            size.width * size.height <= usize::MAX,
        ensures
            final(self).wf(),
            final(self).spec_width() == size.width,
            final(self).spec_height() == size.height,
            final(self).background() == old(self).background(),
            final(self).pixels() == Seq::new(
                (size.width * size.height) as nat,
                |i: int| packed(old(self).background()),
            ),
    {
        self.width = size.width;
        self.height = size.height;
        let u32_color = Color::to_argb(self.color.a, self.color.r, self.color.g, self.color.b);
        let n: usize = self.width as usize * self.height as usize;
        self.buffer = vec![u32_color; n];
        assert(self.pixels() =~= Seq::new(
            (size.width * size.height) as nat,
            |i: int| packed(old(self).background()),
        ));
    }

    /// The packed colors, row by row: pixel `(x, y)` is at `y * width + x`.
    pub fn buffer(&self) -> (b: &[u32])
        ensures
            b@ == self.pixels(),
    {
        self.buffer.as_slice()
    }

    /// Fills the box at `pos` of extent `size` with `color`, clipped to the canvas.
    pub fn draw_rect(&mut self, pos: Position, size: Size, color: Color)
        requires
            old(self).wf(),
        ensures
            final(self).wf(),
            final(self).spec_width() == old(self).spec_width(),
            final(self).spec_height() == old(self).spec_height(),
            final(self).background() == old(self).background(),
            final(self).pixels() == painted(
                old(self).pixels(),
                old(self).spec_width() as int,
                |x: int, y: int| in_rect(pos, size, x, y),
                packed(color),
            ),
    {
        let ghost before = self.pixels();
        let ghost w = self.spec_width();
        let ghost h = self.spec_height();
        let ghost bg = self.background();
        let mut y: u32 = 0;
        while y < size.height
            invariant
                self.wf(),
                self.spec_width() == w,
                self.spec_height() == h,
                self.background() == bg,
                y <= size.height,
                painted_where(
                    before,
                    self.pixels(),
                    w as int,
                    |px: int, py: int| in_rect(pos, size, px, py) && scanned(px - pos.x, py - pos.y, y as int, 0),
                    packed(color),
                ),
            decreases size.height - y,
        {
            let mut x: u32 = 0;
            while x < size.width
                invariant
                    self.wf(),
                    self.spec_width() == w,
                    self.spec_height() == h,
                    self.background() == bg,
                    y < size.height,
                    x <= size.width,
                    painted_where(
                        before,
                        self.pixels(),
                        w as int,
                        |px: int, py: int| in_rect(pos, size, px, py) && scanned(px - pos.x, py - pos.y, y as int, x as int),
                        packed(color),
                    ),
                decreases size.width - x,
            {
                self.paint_at(pos, x, y, color);
                x = x + 1;
            }
            y = y + 1;
        }
        assert(self.pixels() =~= painted(before, w as int, |px: int, py: int| in_rect(pos, size, px, py), packed(color)));
    }
}

} // verus!
