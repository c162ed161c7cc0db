//! The display side: placing computed tiles on an RGBA frame buffer, and the
//! inbox of tiles waiting to be drawn.

use vstd::prelude::*;
use vstd::arithmetic::div_mod::{lemma_fundamental_div_mod, lemma_fundamental_div_mod_converse, lemma_mod_pos_bound, lemma_div_pos_is_pos};

use crate::models::{Range, RenderingData};
use crate::palette::{color_of, PaletteHandler};

verus! {

/// Channel `i` of the RGBA pixel of colour `c`, fully opaque.
pub open spec fn channel(c: (u8, u8, u8), i: int) -> u8 {
    if i == 0 {
        c.0
    } else if i == 1 {
        c.1
    } else if i == 2 {
        c.2
    } else {
        255
    }
}

/// Column of the pixel that byte `b` belongs to, relative to a tile whose
/// origin is column `sx`, on a canvas `w` pixels wide.
pub open spec fn rel_x(w: int, sx: int, b: int) -> int {
    (b / 4) % w - sx
}

/// Row of the pixel that byte `b` belongs to, relative to a tile whose origin
/// is row `sy`, on a canvas `w` pixels wide.
pub open spec fn rel_y(w: int, sy: int, b: int) -> int {
    (b / 4) / w - sy
}

/// Whether byte `b` belongs to one of the first `k` pixels, in row-major
/// order, of an `nx × ny` tile with origin `(sx, sy)`.
pub open spec fn covered(w: int, sx: int, sy: int, nx: int, ny: int, k: int, b: int) -> bool {
    let x = rel_x(w, sx, b);
    let y = rel_y(w, sy, b);
    0 <= x < nx && 0 <= y < ny && y * nx + x < k
}

/// The frame `f` of a canvas `w` pixels wide with the first `k` pixels of an
/// `nx × ny` tile with origin `(sx, sy)` drawn on it: tile pixel `(x, y)` takes
/// the colour of `ts[y·nx + x]`; pixels outside the canvas are dropped.
pub open spec fn blit(
    f: Seq<u8>,
    w: int,
    sx: int,
    sy: int,
    nx: int,
    ny: int,
    ts: Seq<u32>,
    pal: PaletteHandler,
    k: int,
) -> Seq<u8> {
    Seq::new(
        f.len(),
        |b: int|
            if covered(w, sx, sy, nx, ny, k, b) {
                let x = rel_x(w, sx, b);
                let y = rel_y(w, sy, b);
                channel(color_of(pal.current_palette, ts[y * nx + x] as int), b % 4)
            } else {
                f[b]
            },
    )
}

/// The canvas column or row where a tile starting at `lo` begins, for a
/// viewport starting at `view_lo` with extent `ext` over `pixels` pixels:
/// `⌊(lo − view_lo) · pixels / ext⌋`.
pub open spec fn origin(lo: int, view_lo: int, ext: int, pixels: int) -> int {
    (lo - view_lo) * pixels / ext
}

/// A frame buffer of `width × height` RGBA pixels.
#[derive(Debug)]
pub struct Canvas {
    width: u16,
    height: u16,
    frame: Vec<u8>,
}

proof fn lemma_byte_pixel(b: int, p: int)
    requires
        0 <= b,
        0 <= p,
    ensures
        (4 * p <= b < 4 * p + 4) <==> b / 4 == p,
        4 * p <= b < 4 * p + 4 ==> b % 4 == b - 4 * p,
{
    lemma_fundamental_div_mod(b, 4);
    lemma_mod_pos_bound(b, 4);
    if 4 * p <= b < 4 * p + 4 {
        lemma_fundamental_div_mod_converse(b, 4, p, b - 4 * p);
    }
}

proof fn lemma_row_major(w: int, q: int, x: int, y: int)
    requires
        1 <= w,
        0 <= q,
        0 <= x < w,
        0 <= y,
    ensures
        (q % w == x && q / w == y) <==> q == y * w + x,
{
    lemma_fundamental_div_mod(q, w);
    lemma_mod_pos_bound(q, w);
    if q == y * w + x {
        lemma_fundamental_div_mod_converse(q, w, y, x);
    }
    assert(w * (q / w) == (q / w) * w) by (nonlinear_arith);
}

proof fn lemma_pixel_in_canvas(w: int, h: int, b: int)
    requires
        1 <= w,
        1 <= h,
        0 <= b < w * h * 4,
    ensures
        0 <= (b / 4) % w < w,
        0 <= (b / 4) / w < h,
        b / 4 == ((b / 4) / w) * w + (b / 4) % w,
{
    let q = b / 4;
    lemma_fundamental_div_mod(b, 4);
    lemma_mod_pos_bound(b, 4);
    lemma_div_pos_is_pos(b, 4);
    assert(w * h * 4 == 4 * (w * h)) by (nonlinear_arith);
    assert(q < w * h);
    lemma_mod_pos_bound(q, w);
    lemma_div_pos_is_pos(q, w);
    lemma_fundamental_div_mod(q, w);
    assert(w * (q / w) == (q / w) * w) by (nonlinear_arith);
    vstd::arithmetic::div_mod::lemma_div_is_ordered(q, w * h - 1, w);
    assert(w * h - 1 == (h - 1) * w + (w - 1)) by (nonlinear_arith)
        requires
            1 <= w,
    ;
    lemma_fundamental_div_mod_converse(w * h - 1, w, h - 1, w - 1);
}

proof fn lemma_blit_step(
    f: Seq<u8>,
    cur: Seq<u8>,
    next: Seq<u8>,
    w: int,
    h: int,
    sx: int,
    sy: int,
    nx: int,
    ny: int,
    ts: Seq<u32>,
    pal: PaletteHandler,
    x: int,
    y: int,
)
    requires
        1 <= w,
        1 <= h,
        f.len() == w * h * 4,
        0 <= x < nx,
        0 <= y < ny,
        ts.len() == nx * ny,
        cur == blit(f, w, sx, sy, nx, ny, ts, pal, y * nx + x),
        next.len() == cur.len(),
        0 <= sx + x < w && 0 <= sy + y < h ==> forall|b: int|
            0 <= b < cur.len() && b / 4 != (sy + y) * w + (sx + x) ==> next[b] == #[trigger] cur[b],
        0 <= sx + x < w && 0 <= sy + y < h ==> forall|b: int|
            0 <= b < cur.len() && #[trigger] (b / 4) == (sy + y) * w + (sx + x) ==> next[b]
                == channel(color_of(pal.current_palette, ts[y * nx + x] as int), b % 4),
        !(0 <= sx + x < w && 0 <= sy + y < h) ==> next == cur,
    ensures
        next == blit(f, w, sx, sy, nx, ny, ts, pal, y * nx + x + 1),
{
    let k = y * nx + x;
    let inside = 0 <= sx + x < w && 0 <= sy + y < h;
    let goal = blit(f, w, sx, sy, nx, ny, ts, pal, k + 1);
    assert forall|b: int| 0 <= b < next.len() implies next[b] == goal[b] by {
        let q = b / 4;
        let bx = rel_x(w, sx, b);
        let by_ = rel_y(w, sy, b);
        lemma_pixel_in_canvas(w, h, b);
        let same = bx == x && by_ == y;
        if same {
            assert(inside);
            assert(q == (sy + y) * w + (sx + x));
            lemma_mul_inequality_le(y, ny - 1, nx);
            assert(covered(w, sx, sy, nx, ny, k + 1, b));
        } else {
            if 0 <= bx < nx && 0 <= by_ < ny {
                if by_ * nx + bx == k {
                    lemma_fundamental_div_mod_converse(k, nx, y, x);
                    lemma_fundamental_div_mod_converse(k, nx, by_, bx);
                }
            }
            assert(covered(w, sx, sy, nx, ny, k + 1, b) == covered(w, sx, sy, nx, ny, k, b));
            if inside {
                if q == (sy + y) * w + (sx + x) {
                    lemma_row_major(w, q, sx + x, sy + y);
                }
                assert(next[b] == cur[b]);
            }
        }
    }
    assert(next =~= goal);
}

proof fn lemma_mul_inequality_le(a: int, b: int, c: int)
    requires
        a <= b,
        0 <= c,
    ensures
        a * c <= b * c,
{
    vstd::arithmetic::mul::lemma_mul_inequality(a, b, c);
}

impl Canvas {
    pub closed spec fn wf(&self) -> bool {
        &&& self.frame@.len() == self.width * self.height * 4
        &&& self.width >= 1
        &&& self.height >= 1
    }

    /// The frame buffer, four bytes (red, green, blue, alpha) per pixel, row by row.
    pub closed spec fn pixels(&self) -> Seq<u8> {
        self.frame@
    }

    pub closed spec fn w(&self) -> int {
        self.width as int
    }

    pub closed spec fn h(&self) -> int {
        self.height as int
    }

    /// A black, transparent canvas of `width × height` pixels.
    pub fn new(width: u16, height: u16) -> (r: Canvas)
        requires
            width >= 1,
            height >= 1,
            width * height * 4 <= usize::MAX,
        ensures
            r.wf(),
            r.w() == width,
            r.h() == height,
            r.pixels() == Seq::new((width * height * 4) as nat, |i: int| 0u8),
    {
        assert(width * height <= usize::MAX) by (nonlinear_arith)
            requires
                width * height * 4 <= usize::MAX,
                width >= 1,
                height >= 1,
        ;
        let n: usize = (width as usize) * (height as usize) * 4;
        let frame = vec![0u8; n];
        let r = Canvas { width, height, frame };
        assert(r.pixels() =~= Seq::new((width * height * 4) as nat, |i: int| 0u8));
        r
    }

    /// The frame buffer.
    pub fn frame(&self) -> (r: &Vec<u8>)
        ensures
            r@ == self.pixels(),
    {
        &self.frame
    }

    pub fn width(&self) -> (r: u16)
        ensures
            r == self.w(),
    {
        self.width
    }

    pub fn height(&self) -> (r: u16)
        ensures
            r == self.h(),
    {
        self.height
    }

    /// Draws the `nx × ny` tile with origin `(sx, sy)` whose pixel `(x, y)` has
    /// measure `ts[y·nx + x]`; pixels that fall outside the canvas are dropped.
    pub fn draw_tile(&mut self, sx: i128, sy: i128, nx: u16, ny: u16, ts: &Vec<u32>, palette: &PaletteHandler)
        requires
            old(self).wf(),
            ts@.len() == nx * ny,
            -0x1_0000_0000_0000_0000_0000 <= sx <= 0x1_0000_0000_0000_0000_0000,
            -0x1_0000_0000_0000_0000_0000 <= sy <= 0x1_0000_0000_0000_0000_0000,
        ensures
            final(self).wf(),
            final(self).w() == old(self).w(),
            final(self).h() == old(self).h(),
            final(self).pixels() == blit(
                old(self).pixels(),
                old(self).w(),
                sx as int,
                sy as int,
                nx as int,
                ny as int,
                ts@,
                *palette,
                nx * ny,
            ),
    {
        let ghost f = self.frame@;
        let ghost w = self.width as int;
        let ghost h = self.height as int;
        let width = self.width as i128;
        let height = self.height as i128;
        let n_ts = ts.len();
        let n_frame = self.frame.len();
        let mut y: u16 = 0;
        proof {
            assert(self.frame@ =~= blit(f, w, sx as int, sy as int, nx as int, ny as int, ts@, *palette, 0));
        }
        while y < ny
            invariant
                self.wf(),
                self.width == w,
                self.height == h,
                width == w,
                height == h,
                n_ts == ts@.len(),
                n_frame == self.frame@.len(),
                f.len() == w * h * 4,
                ts@.len() == nx * ny,
                y <= ny,
                -0x1_0000_0000_0000_0000_0000 <= sx <= 0x1_0000_0000_0000_0000_0000,
                -0x1_0000_0000_0000_0000_0000 <= sy <= 0x1_0000_0000_0000_0000_0000,
                self.frame@ == blit(f, w, sx as int, sy as int, nx as int, ny as int, ts@, *palette, y * nx),
            decreases ny - y,
        {
            let mut x: u16 = 0;
            while x < nx
                invariant
                    self.wf(),
                    self.width == w,
                    self.height == h,
                    width == w,
                    height == h,
                    n_ts == ts@.len(),
                    n_frame == self.frame@.len(),
                    f.len() == w * h * 4,
                    ts@.len() == nx * ny,
                    y < ny,
                    x <= nx,
                    -0x1_0000_0000_0000_0000_0000 <= sx <= 0x1_0000_0000_0000_0000_0000,
                    -0x1_0000_0000_0000_0000_0000 <= sy <= 0x1_0000_0000_0000_0000_0000,
                    self.frame@ == blit(f, w, sx as int, sy as int, nx as int, ny as int, ts@, *palette, y * nx + x),
                decreases nx - x,
            {
                let ghost cur = self.frame@;
                proof {
                    lemma_mul_inequality_le(y as int, ny - 1, nx as int);
                }
                assert(y as int * nx + x < nx * ny) by (nonlinear_arith)
                    requires
                        x < nx,
                        y < ny,
                        y * nx <= (ny - 1) * nx,
                ;
                let k: usize = (y as usize) * (nx as usize) + (x as usize);
                let t = ts[k];
                let px = sx + x as i128;
                let py = sy + y as i128;
                if 0 <= px && px < width && 0 <= py && py < height {
                    let (r, g, b) = palette.calculate_color(t);
                    proof {
                        lemma_mul_inequality_le(py as int, h - 1, w);
                    }
                    assert(py * w + px < w * h) by (nonlinear_arith)
                        requires
                            0 <= px < w,
                            0 <= py < h,
                            py * w <= (h - 1) * w,
                    ;
                    assert(w * h * 4 == (w * h) * 4) by (nonlinear_arith);
                    let p: usize = (py as usize) * (self.width as usize) + (px as usize);
                    let i: usize = p * 4;
                    self.frame.set(i, r);
                    self.frame.set(i + 1, g);
                    self.frame.set(i + 2, b);
                    self.frame.set(i + 3, 255);
                    proof {
                        assert forall|bb: int| 0 <= bb < cur.len() && bb / 4 != (sy + y) * w + (sx + x)
                            implies self.frame@[bb] == #[trigger] cur[bb] by {
                            lemma_byte_pixel(bb, p as int);
                        }
                        assert forall|bb: int| 0 <= bb < cur.len() && #[trigger] (bb / 4) == (sy + y) * w + (sx + x)
                            implies self.frame@[bb] == channel(color_of(palette.current_palette, ts@[y * nx + x] as int), bb % 4) by {
                            lemma_byte_pixel(bb, p as int);
                        }
                        lemma_blit_step(f, cur, self.frame@, w, h, sx as int, sy as int, nx as int, ny as int, ts@, *palette, x as int, y as int);
                    }
                } else {
                    proof {
                        lemma_blit_step(f, cur, self.frame@, w, h, sx as int, sy as int, nx as int, ny as int, ts@, *palette, x as int, y as int);
                    }
                }
                x = x + 1;
            }
            assert(y * nx + nx == (y + 1) * nx) by (nonlinear_arith);
            y = y + 1;
        }
        assert(ny * nx == nx * ny) by (nonlinear_arith);
    }
}

/// `⌊a / b⌋`.
fn floor_div(a: i128, b: i128) -> (r: i128)
    requires
        b > 0,
        -0x1_0000_0000_0000_0000_0000_0000 <= a <= 0x1_0000_0000_0000_0000_0000_0000,
    ensures
        r == a / b,
{
    if a >= 0 {
        ((a as u128) / (b as u128)) as i128
    } else {
        proof {
            let ai = a as int;
            let bi = b as int;
            let q = ai / bi;
            let rm = ai % bi;
            lemma_fundamental_div_mod(ai, bi);
            vstd::arithmetic::div_mod::lemma_mod_bound(ai, bi);
            assert(bi * q == q * bi) by (nonlinear_arith);
            assert(-ai + bi - 1 == (-q) * bi + (bi - 1 - rm)) by (nonlinear_arith)
                requires
                    ai == bi * q + rm,
                    bi * q == q * bi,
            ;
            lemma_fundamental_div_mod_converse(-ai + bi - 1, bi, -q, bi - 1 - rm);
            assert(q >= ai) by (nonlinear_arith)
                requires
                    bi * q > ai - bi,
                    bi >= 1,
                    ai < 0,
            ;
        }
        let m: u128 = (((-a) as u128) + (b as u128) - 1) / (b as u128);
        -(m as i128)
    }
}

/// Where a tile starting at `tile_min` lands on a `width × height` canvas
/// showing `view`: `⌊(tile_min − view.min) / extent · pixels⌋` on each axis.
pub fn start_point(view: &Range, tile_min: &crate::models::Point, width: u16, height: u16) -> (r: (i128, i128))
    requires
        view.min.x < view.max.x,
        view.min.y < view.max.y,
    ensures
        r.0 == origin(tile_min.x as int, view.min.x as int, view.max.x - view.min.x, width as int),
        r.1 == origin(tile_min.y as int, view.min.y as int, view.max.y - view.min.y, height as int),
        -0x1_0000_0000_0000_0000_0000 <= r.0 <= 0x1_0000_0000_0000_0000_0000,
        -0x1_0000_0000_0000_0000_0000 <= r.1 <= 0x1_0000_0000_0000_0000_0000,
{
    let dx: i128 = tile_min.x as i128 - view.min.x as i128;
    let dy: i128 = tile_min.y as i128 - view.min.y as i128;
    assert(-0x1_0000_0000_0000_0000 * 0x1_0000 <= dx * width <= 0x1_0000_0000_0000_0000 * 0x1_0000) by (nonlinear_arith)
        requires
            -0x1_0000_0000_0000_0000 <= dx <= 0x1_0000_0000_0000_0000,
            0 <= width <= 0xffff,
    ;
    assert(-0x1_0000_0000_0000_0000 * 0x1_0000 <= dy * height <= 0x1_0000_0000_0000_0000 * 0x1_0000) by (nonlinear_arith)
        requires
            -0x1_0000_0000_0000_0000 <= dy <= 0x1_0000_0000_0000_0000,
            0 <= height <= 0xffff,
    ;
    let ex: i128 = view.max.x as i128 - view.min.x as i128;
    let ey: i128 = view.max.y as i128 - view.min.y as i128;
    let nxv = dx * (width as i128);
    let nyv = dy * (height as i128);
    let x = floor_div(nxv, ex);
    let y = floor_div(nyv, ey);
    proof {
        lemma_div_bound(nxv as int, ex as int);
        lemma_div_bound(nyv as int, ey as int);
    }
    (x, y)
}

proof fn lemma_div_bound(a: int, b: int)
    requires
        b >= 1,
        -0x1_0000_0000_0000_0000_0000 <= a <= 0x1_0000_0000_0000_0000_0000,
    ensures
        -0x1_0000_0000_0000_0000_0000 <= a / b <= 0x1_0000_0000_0000_0000_0000,
{
    lemma_fundamental_div_mod(a, b);
    vstd::arithmetic::div_mod::lemma_mod_bound(a, b);
    if a >= 0 {
        lemma_div_pos_is_pos(a, b);
        vstd::arithmetic::div_mod::lemma_div_is_ordered_by_denominator(a, 1, b);
    } else {
        let q = a / b;
        assert(b * q > a - b);
        assert(q >= a) by (nonlinear_arith)
            requires
                b * q > a - b,
                b >= 1,
                a < 0,
        ;
        assert(q < 0) by (nonlinear_arith)
            requires
                b * q <= a,
                b >= 1,
                a < 0,
        ;
    }
}

impl Canvas {
    /// Draws a computed tile where its range lands on the canvas showing
    /// `view`; a tile whose measures do not match its resolution is not drawn.
    pub fn render(&mut self, data: &RenderingData, view: &Range, palette: &PaletteHandler) -> (drawn: bool)
        requires
            old(self).wf(),
            view.min.x < view.max.x,
            view.min.y < view.max.y,
        ensures
            final(self).wf(),
            final(self).w() == old(self).w(),
            final(self).h() == old(self).h(),
            drawn == (data.iterations@.len() == data.result.resolution.nx * data.result.resolution.ny),
            drawn ==> final(self).pixels() == blit(
                old(self).pixels(),
                old(self).w(),
                origin(data.result.range.min.x as int, view.min.x as int, view.max.x - view.min.x, old(self).w()),
                origin(data.result.range.min.y as int, view.min.y as int, view.max.y - view.min.y, old(self).h()),
                data.result.resolution.nx as int,
                data.result.resolution.ny as int,
                data.iterations@,
                *palette,
                data.result.resolution.nx * data.result.resolution.ny,
            ),
            !drawn ==> final(self).pixels() == old(self).pixels(),
    {
        let res = data.result.resolution;
        assert(res.nx * res.ny <= 0xffff * 0xffff) by (nonlinear_arith)
            requires
                res.nx <= 0xffff,
                res.ny <= 0xffff,
        ;
        if data.iterations.len() as u64 != (res.nx as u64) * (res.ny as u64) {
            return false;
        }
        let (sx, sy) = start_point(view, &data.result.range.min, self.width, self.height);
        self.draw_tile(sx, sy, res.nx, res.ny, &data.iterations, palette);
        true
    }
}

/// The tiles held by a sequence of slots, in slot order.
pub open spec fn held(s: Seq<Option<RenderingData>>) -> Seq<RenderingData>
    decreases s.len(),
{
    if s.len() == 0 {
        Seq::empty()
    } else {
        match s.last() {
            Some(d) => held(s.drop_last()).push(d),
            None => held(s.drop_last()),
        }
    }
}

/// Computed tiles waiting to be drawn, in a fixed number of slots.
#[derive(Debug)]
pub struct Inbox {
    slots: Vec<Option<RenderingData>>,
}

impl Inbox {
    /// The slots, each empty or holding one tile.
    pub closed spec fn slots(&self) -> Seq<Option<RenderingData>> {
        self.slots@
    }

    /// An inbox of `shard_count` empty slots.
    pub fn new(shard_count: usize) -> (r: Inbox)
        ensures
            r.slots() == Seq::new(shard_count as nat, |i: int| None::<RenderingData>),
    {
        let mut slots: Vec<Option<RenderingData>> = Vec::new();
        let mut i: usize = 0;
        while i < shard_count
            invariant
                i <= shard_count,
                slots@ == Seq::new(i as nat, |j: int| None::<RenderingData>),
            decreases shard_count - i,
        {
            slots.push(None);
            i = i + 1;
            assert(slots@ =~= Seq::new(i as nat, |j: int| None::<RenderingData>));
        }
        Inbox { slots }
    }

    /// Puts `data` into the first empty slot; where none is empty, `data` is
    /// dropped and `false` returned.
    pub fn deposit(&mut self, data: RenderingData) -> (r: bool)
        ensures
            r == exists|i: int| 0 <= i < old(self).slots().len() && old(self).slots()[i] is None,
            r ==> exists|i: int|
                0 <= i < old(self).slots().len() && old(self).slots()[i] is None && (forall|j: int|
                    0 <= j < i ==> old(self).slots()[j] is Some) && final(self).slots() == old(
                    self).slots().update(i, Some(data)),
            !r ==> final(self).slots() == old(self).slots(),
    {
        let mut i: usize = 0;
        while i < self.slots.len()
            invariant
                i <= self.slots@.len(),
                self.slots@ == old(self).slots@,
                forall|j: int| 0 <= j < i ==> self.slots@[j] is Some,
            decreases self.slots@.len() - i,
        {
            if self.slots[i].is_none() {
                self.slots.set(i, Some(data));
                return true;
            }
            i = i + 1;
        }
        false
    }

    /// Takes every held tile out, in slot order, leaving all slots empty.
    pub fn take_all(&mut self) -> (r: Vec<RenderingData>)
        ensures
            r@ == held(old(self).slots()),
            final(self).slots() == Seq::new(old(self).slots().len(), |i: int| None::<RenderingData>),
    {
        let ghost s0 = self.slots@;
        let n = self.slots.len();
        let mut out: Vec<RenderingData> = Vec::new();
        let mut i: usize = 0;
        while i < n
            invariant
                n == s0.len(),
                i <= n,
                self.slots@.len() == n,
                forall|j: int| 0 <= j < i ==> self.slots@[j] is None,
                forall|j: int| i <= j < n ==> self.slots@[j] == s0[j],
                out@ == held(s0.take(i as int)),
            decreases n - i,
        {
            let slot = self.slots.remove(i);
            self.slots.insert(i, None);
            proof {
                assert(s0.take(i + 1).drop_last() =~= s0.take(i as int));
                assert(s0.take(i + 1).last() == slot);
            }
            match slot {
                Some(d) => {
                    out.push(d);
                },
                None => {},
            }
            i = i + 1;
        }
        assert(s0.take(n as int) =~= s0);
        assert(self.slots@ =~= Seq::new(s0.len(), |i: int| None::<RenderingData>));
        out
    }
}

} // verus!
