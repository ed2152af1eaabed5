//! Software drawing as plain operations: clipped fills, tiled sprite parts
//! and how a frame sprite is sliced over a rectangle.

use crate::geom::{fits_i32, half, half_i32, imax, imin, max_i32, min_i32, Rect};
use crate::Index;
use vstd::prelude::*;

pub mod laws;

verus! {

/// The index that marks a pixel nothing was drawn on.
pub const TRANSPARENT: Index = 255;

/// What an area is filled with.
#[derive(Clone, Copy, PartialEq, Eq, Debug, Structural)]
pub enum Paint {
    Solid(Index),
    /// Two colours in turn.
    Checker(Index, Index),
}

/// A fill of a rectangle that lies on the buffer.
#[derive(Clone, Copy, PartialEq, Eq, Debug, Structural)]
pub struct Fill {
    pub rect: Rect,
    pub paint: Paint,
}

/// The palette indices the chrome is drawn in.
#[derive(Clone, Copy, PartialEq, Eq, Debug, Structural)]
pub struct Colors {
    pub black: Index,
    pub gunmetal: Index,
    pub cream: Index,
    pub lavender: Index,
    pub purple: Index,
    pub lime: Index,
    pub crimson: Index,
}

/// The part of a box that lies on a `fw` by `fh` buffer.
pub open spec fn clipped(fw: int, fh: int, x: int, y: int, w: int, h: int) -> Option<Rect> {
    let (x0, y0) = (imax(x, 0), imax(y, 0));
    let (x1, y1) = (imin(x + w, fw), imin(y + h, fh));
    if x0 >= x1 || y0 >= y1 {
        None
    } else {
        Some(Rect { x: x0 as i32, y: y0 as i32, w: (x1 - x0) as i32, h: (y1 - y0) as i32 })
    }
}

/// Clip a box to a `fw` by `fh` buffer.
pub fn clip(fw: i32, fh: i32, x: i32, y: i32, w: i32, h: i32) -> (r: Option<Rect>)
    requires
        fits_i32(x + w),
        fits_i32(y + h),
        0 <= fw,
        0 <= fh,
    ensures
        r == clipped(fw as int, fh as int, x as int, y as int, w as int, h as int),
{
    let (x0, y0) = (max_i32(x, 0), max_i32(y, 0));
    let (x1, y1) = (min_i32(x + w, fw), min_i32(y + h, fh));
    if x0 >= x1 || y0 >= y1 {
        return None;
    }
    Some(Rect { x: x0, y: y0, w: x1 - x0, h: y1 - y0 })
}

/// Clipping keeps exactly the pixels that lie both in the box and on the
/// buffer.
pub proof fn clipping_keeps_what_is_on_the_buffer(
    fw: i32,
    fh: i32,
    x: i32,
    y: i32,
    w: i32,
    h: i32,
    px: int,
    py: int,
)
    requires
        fits_i32(x + w),
        fits_i32(y + h),
        0 <= fw,
        0 <= fh,
    ensures
        (x <= px < x + w && y <= py < y + h && 0 <= px < fw && 0 <= py < fh) <==> (match clipped(
            fw as int,
            fh as int,
            x as int,
            y as int,
            w as int,
            h as int,
        ) {
            Some(r) => r.has(px, py),
            None => false,
        }),
{
}

/// The fills so far, and one more where any of it lies on the buffer.
pub open spec fn filled(
    s: Seq<Fill>,
    size: (i32, i32),
    x: int,
    y: int,
    w: int,
    h: int,
    paint: Paint,
) -> Seq<Fill> {
    match clipped(size.0 as int, size.1 as int, x, y, w, h) {
        Some(rect) => s.push(Fill { rect, paint }),
        None => s,
    }
}

/// Fill a box, clipped to the buffer.
pub fn fill_paint(
    out: &mut Vec<Fill>,
    size: (i32, i32),
    x: i32,
    y: i32,
    w: i32,
    h: i32,
    paint: Paint,
)
    requires
        fits_i32(x + w),
        fits_i32(y + h),
        0 <= size.0,
        0 <= size.1,
    ensures
        final(out)@ == filled(old(out)@, size, x as int, y as int, w as int, h as int, paint),
{
    if let Some(rect) = clip(size.0, size.1, x, y, w, h) {
        out.push(Fill { rect, paint });
    }
}

/// Fill a box in one colour, clipped to the buffer.
pub fn fill(out: &mut Vec<Fill>, size: (i32, i32), x: i32, y: i32, w: i32, h: i32, index: Index)
    requires
        fits_i32(x + w),
        fits_i32(y + h),
        0 <= size.0,
        0 <= size.1,
    ensures
        final(out)@ == filled(
            old(out)@,
            size,
            x as int,
            y as int,
            w as int,
            h as int,
            Paint::Solid(index),
        ),
{
    fill_paint(out, size, x, y, w, h, Paint::Solid(index));
}

/// A box whose corners and sizes can be worked with: no coordinate within
/// 64 pixels of it leaves the representable range.
pub open spec fn roomy(x: int, y: int, w: int, h: int) -> bool {
    &&& -0x3000_0000 <= x <= 0x3000_0000
    &&& -0x3000_0000 <= y <= 0x3000_0000
    &&& -0x1000_0000 <= w <= 0x1000_0000
    &&& -0x1000_0000 <= h <= 0x1000_0000
}

/// Thickness of the focus outline.
pub const FOCUS_OUTLINE: i32 = 2;

/// The outline traced just inside a rectangle: top, bottom, left, right.
pub open spec fn outline_fills(size: (i32, i32), x: int, y: int, w: int, h: int, fg: Index) -> Seq<
    Fill,
> {
    let p = Paint::Solid(fg);
    let top = filled(Seq::empty(), size, x, y, w, 2, p);
    let bottom = filled(top, size, x, y + h - 2, w, 2, p);
    let left = filled(bottom, size, x, y + 2, 2, h - 4, p);
    filled(left, size, x + w - 2, y + 2, 2, h - 4, p)
}

/// The focus outline of a split's frame.
pub fn draw_focus_outline(size: (i32, i32), x: i32, y: i32, w: i32, h: i32, fg: Index) -> (out: Vec<
    Fill,
>)
    requires
        roomy(x as int, y as int, w as int, h as int),
        0 <= size.0,
        0 <= size.1,
    ensures
        out@ == outline_fills(size, x as int, y as int, w as int, h as int, fg),
{
    let mut out: Vec<Fill> = Vec::new();
    fill(&mut out, size, x, y, w, FOCUS_OUTLINE, fg);
    fill(&mut out, size, x, y + h - FOCUS_OUTLINE, w, FOCUS_OUTLINE, fg);
    fill(&mut out, size, x, y + FOCUS_OUTLINE, FOCUS_OUTLINE, h - 2 * FOCUS_OUTLINE, fg);
    fill(
        &mut out,
        size,
        x + w - FOCUS_OUTLINE,
        y + FOCUS_OUTLINE,
        FOCUS_OUTLINE,
        h - 2 * FOCUS_OUTLINE,
        fg,
    );
    out
}

/// A part of a sprite, repeated at native size to fill a box.
#[derive(Clone, Copy, PartialEq, Eq, Debug, Structural)]
pub struct Part {
    /// The part of the sprite.
    pub src: Rect,
    /// The box it fills.
    pub dst: Rect,
}

/// One copy of a part: where its top-left corner lands. It is drawn within
/// the clip rectangle only.
#[derive(Clone, Copy, PartialEq, Eq, Debug, Structural)]
pub struct Tile {
    pub x: i32,
    pub y: i32,
}

/// The start of the first copy that reaches `c0`, counted from `o` in steps
/// of `step`.
pub open spec fn first_tile(o: int, c0: int, step: int) -> int {
    if c0 <= o {
        o
    } else {
        o + (c0 - o) / step * step
    }
}

/// The copies of one row from `x` on.
pub open spec fn row_tiles(x: int, y: int, end: int, step: int) -> Seq<Tile>
    decreases imax(end - x, 0),
{
    if x >= end || step <= 0 {
        Seq::empty()
    } else {
        seq![Tile { x: x as i32, y: y as i32 }] + row_tiles(x + step, y, end, step)
    }
}

/// The copies of every row from `y` on.
pub open spec fn grid_tiles(x0: int, y: int, x_end: int, y_end: int, sw: int, sh: int) -> Seq<Tile>
    decreases imax(y_end - y, 0),
{
    if y >= y_end || sh <= 0 {
        Seq::empty()
    } else {
        row_tiles(x0, y, x_end, sw) + grid_tiles(x0, y + sh, x_end, y_end, sw, sh)
    }
}

/// The copies that fill a part's box on a buffer, and what they are clipped
/// to. Copies that lie wholly before the clip rectangle are left out.
pub open spec fn tiling(part: Part, size: (i32, i32)) -> Option<(Rect, Seq<Tile>)> {
    let (src, d) = (part.src, part.dst);
    if d.w <= 0 || d.h <= 0 || src.w == 0 || src.h == 0 {
        None
    } else {
        match clipped(size.0 as int, size.1 as int, d.x as int, d.y as int, d.w as int, d.h as int) {
            None => None,
            Some(c) => Some(
                (
                    c,
                    grid_tiles(
                        first_tile(d.x as int, c.x as int, src.w as int),
                        first_tile(d.y as int, c.y as int, src.h as int),
                        d.right(),
                        d.bottom(),
                        src.w as int,
                        src.h as int,
                    ),
                ),
            ),
        }
    }
}

fn first_copy(o: i32, c0: i32, step: i32) -> (v: i32)
    requires
        step > 0,
        fits_i32(c0 - o),
    ensures
        v == first_tile(o as int, c0 as int, step as int),
        o <= v,
        c0 >= o ==> v <= c0,
        c0 < o ==> v == o,
{
    if c0 <= o {
        return o;
    }
    let n: i32 = (c0 - o) / step;
    proof {
        assert(0 <= n * step <= c0 - o) by (nonlinear_arith)
            requires
                n == (c0 - o) / step as int,
                step > 0,
                c0 > o,
        ;
    }
    o + n * step
}

/// Tile a part of a sprite over its box, one image pixel per screen pixel:
/// the copies to draw, and what they are clipped to.
pub fn tile_swapped(part: Part, size: (i32, i32)) -> (r: Option<(Rect, Vec<Tile>)>)
    requires
        part.src.w >= 0,
        part.src.h >= 0,
        0 <= size.0,
        0 <= size.1,
        roomy(part.dst.x as int, part.dst.y as int, part.dst.w as int, part.dst.h as int),
        part.src.w <= 0x1000_0000,
        part.src.h <= 0x1000_0000,
    ensures
        match tiling(part, size) {
            None => r is None,
            Some((c, tiles)) => r is Some && ({
                let (rc, rt) = r->0;
                rc == c && rt@ == tiles
            }),
        },
{
    let (src, d) = (part.src, part.dst);
    if d.w <= 0 || d.h <= 0 || src.w == 0 || src.h == 0 {
        return None;
    }
    let c = match clip(size.0, size.1, d.x, d.y, d.w, d.h) {
        Some(c) => c,
        None => {
            return None;
        },
    };
    let (x_end, y_end) = (d.x + d.w, d.y + d.h);
    let x0: i32 = first_copy(d.x, c.x, src.w);
    let y0: i32 = first_copy(d.y, c.y, src.h);
    let ghost (sw, sh) = (src.w as int, src.h as int);
    let ghost all = grid_tiles(x0 as int, y0 as int, x_end as int, y_end as int, sw, sh);
    let mut out: Vec<Tile> = Vec::new();
    let mut y: i32 = y0;
    proof {
        assert(out@ + all =~= all);
    }
    while y < y_end
        invariant
            src.w > 0,
            src.h > 0,
            src.w <= 0x1000_0000,
            src.h <= 0x1000_0000,
            sw == src.w,
            sh == src.h,
            x_end <= 0x4000_0000,
            y_end <= 0x4000_0000,
            out@ + grid_tiles(x0 as int, y as int, x_end as int, y_end as int, sw, sh) == all,
        decreases imax(y_end - y, 0),
    {
        let ghost rest = grid_tiles(x0 as int, y + sh, x_end as int, y_end as int, sw, sh);
        let mut x: i32 = x0;
        proof {
            assert(out@ + row_tiles(x0 as int, y as int, x_end as int, sw) + rest =~= out@ + (
            row_tiles(x0 as int, y as int, x_end as int, sw) + rest));
        }
        while x < x_end
            invariant
                src.w > 0,
                src.w <= 0x1000_0000,
                sw == src.w,
                x_end <= 0x4000_0000,
                out@ + row_tiles(x as int, y as int, x_end as int, sw) + rest == all,
            decreases imax(x_end - x, 0),
        {
            let ghost before = out@;
            out.push(Tile { x, y });
            proof {
                assert(before + row_tiles(x as int, y as int, x_end as int, sw) + rest =~= out@
                    + row_tiles(x + sw, y as int, x_end as int, sw) + rest);
            }
            x = x + src.w;
        }
        proof {
            assert(out@ + row_tiles(x as int, y as int, x_end as int, sw) + rest =~= out@ + rest);
        }
        y = y + src.h;
    }
    proof {
        assert(out@ + grid_tiles(x0 as int, y as int, x_end as int, y_end as int, sw, sh) =~= out@);
    }
    Some((c, out))
}

proof fn lemma_row_reaches(x: int, y: int, end: int, step: int, px: int)
    requires
        x <= px < end,
        step > 0,
        fits_i32(x),
        fits_i32(end),
        fits_i32(y),
    ensures
        exists|i: int|
            0 <= i < row_tiles(x, y, end, step).len() && (#[trigger] row_tiles(x, y, end, step)[i]).x
                <= px < row_tiles(x, y, end, step)[i].x + step && row_tiles(x, y, end, step)[i].y == y
                && (px - row_tiles(x, y, end, step)[i].x) == (px - x) % step,
    decreases end - x,
{
    let all = row_tiles(x, y, end, step);
    if px < x + step {
        assert(all[0] == (Tile { x: x as i32, y: y as i32 }));
        assert((px - x) % step == px - x) by (nonlinear_arith)
            requires
                0 <= px - x < step,
        ;
        assert(all[0].x <= px < all[0].x + step);
    } else {
        lemma_row_reaches(x + step, y, end, step, px);
        let rest = row_tiles(x + step, y, end, step);
        let i = choose|i: int|
            0 <= i < rest.len() && (#[trigger] rest[i]).x <= px < rest[i].x + step && rest[i].y == y
                && (px - rest[i].x) == (px - (x + step)) % step;
        assert(all[i + 1] == rest[i]);
        assert((px - (x + step)) % step == (px - x) % step) by {
            vstd::arithmetic::div_mod::lemma_mod_sub_multiples_vanish(px - x, step);
        }
        assert(all[i + 1].x <= px < all[i + 1].x + step);
    }
}

proof fn lemma_grid_reaches(
    x0: int,
    y: int,
    x_end: int,
    y_end: int,
    sw: int,
    sh: int,
    px: int,
    py: int,
)
    requires
        x0 <= px < x_end,
        y <= py < y_end,
        sw > 0,
        sh > 0,
        fits_i32(x0),
        fits_i32(x_end),
        fits_i32(y),
        fits_i32(y_end),
    ensures
        exists|i: int|
            0 <= i < grid_tiles(x0, y, x_end, y_end, sw, sh).len() && (#[trigger] grid_tiles(
                x0,
                y,
                x_end,
                y_end,
                sw,
                sh,
            )[i]).x <= px < grid_tiles(x0, y, x_end, y_end, sw, sh)[i].x + sw && grid_tiles(
                x0,
                y,
                x_end,
                y_end,
                sw,
                sh,
            )[i].y <= py < grid_tiles(x0, y, x_end, y_end, sw, sh)[i].y + sh && px - grid_tiles(
                x0,
                y,
                x_end,
                y_end,
                sw,
                sh,
            )[i].x == (px - x0) % sw && py - grid_tiles(x0, y, x_end, y_end, sw, sh)[i].y == (py - y)
                % sh,
    decreases y_end - y,
{
    let all = grid_tiles(x0, y, x_end, y_end, sw, sh);
    let row = row_tiles(x0, y, x_end, sw);
    let rest = grid_tiles(x0, y + sh, x_end, y_end, sw, sh);
    if py < y + sh {
        lemma_row_reaches(x0, y, x_end, sw, px);
        let i = choose|i: int|
            0 <= i < row.len() && (#[trigger] row[i]).x <= px < row[i].x + sw && row[i].y == y && (px
                - row[i].x) == (px - x0) % sw;
        assert(all[i] == row[i]);
        assert((py - y) % sh == py - y) by (nonlinear_arith)
            requires
                0 <= py - y < sh,
        ;
    } else {
        lemma_grid_reaches(x0, y + sh, x_end, y_end, sw, sh, px, py);
        let i = choose|i: int|
            0 <= i < rest.len() && (#[trigger] rest[i]).x <= px < rest[i].x + sw && rest[i].y <= py
                < rest[i].y + sh && px - rest[i].x == (px - x0) % sw && py - rest[i].y == (py - (y
                + sh)) % sh;
        assert(all[row.len() + i] == rest[i]);
        assert((py - (y + sh)) % sh == (py - y) % sh) by {
            vstd::arithmetic::div_mod::lemma_mod_sub_multiples_vanish(py - y, sh);
        }
    }
}

/// Every visible pixel of a part's box is drawn by a copy that starts there
/// on the part's own grid: copies left out for speed show no seam.
pub proof fn tiling_leaves_no_seam(part: Part, size: (i32, i32), px: int, py: int)
    requires
        part.src.w > 0,
        part.src.h > 0,
        roomy(part.dst.x as int, part.dst.y as int, part.dst.w as int, part.dst.h as int),
        0 <= size.0,
        0 <= size.1,
        part.dst.has(px, py),
        0 <= px < size.0,
        0 <= py < size.1,
    ensures
        tiling(part, size) is Some,
        ({
            let (c, tiles) = tiling(part, size)->0;
            &&& c.has(px, py)
            &&& exists|i: int|
                0 <= i < tiles.len() && px - (#[trigger] tiles[i]).x == (px - part.dst.x)
                    % part.src.w as int && py - tiles[i].y == (py - part.dst.y) % part.src.h as int
        }),
{
    let (src, d) = (part.src, part.dst);
    let (sw, sh) = (src.w as int, src.h as int);
    let (c, tiles) = tiling(part, size)->0;
    let x0 = first_tile(d.x as int, c.x as int, sw);
    let y0 = first_tile(d.y as int, c.y as int, sh);
    lemma_first_tile(d.x as int, c.x as int, sw, px);
    lemma_first_tile(d.y as int, c.y as int, sh, py);
    lemma_grid_reaches(x0, y0, d.right(), d.bottom(), sw, sh, px, py);
    let i = choose|i: int|
        0 <= i < tiles.len() && (#[trigger] tiles[i]).x <= px < tiles[i].x + sw && tiles[i].y <= py
            < tiles[i].y + sh && px - tiles[i].x == (px - x0) % sw && py - tiles[i].y == (py - y0)
            % sh;
    assert(px - tiles[i].x == (px - d.x) % sw);
}

proof fn lemma_first_tile(o: int, c0: int, step: int, p: int)
    requires
        step > 0,
        o <= p,
        c0 <= p,
    ensures
        o <= first_tile(o, c0, step) <= p,
        (p - first_tile(o, c0, step)) % step == (p - o) % step,
{
    if c0 > o {
        let n = (c0 - o) / step;
        assert(0 <= n * step <= c0 - o) by (nonlinear_arith)
            requires
                n == (c0 - o) / step,
                step > 0,
                c0 > o,
        ;
        vstd::arithmetic::div_mod::lemma_mod_multiples_vanish(-n, p - o, step);
        assert(step * (-n) + (p - o) == p - (o + n * step)) by (nonlinear_arith);
    }
}

/// How a frame sprite slices over a rectangle: the fixed margins, and the
/// columns the horizontal middle is taken from.
#[derive(Clone, Copy, PartialEq, Eq, Debug, Structural)]
pub struct SliceSpec {
    pub l: i32,
    pub t: i32,
    pub r: i32,
    pub b: i32,
    pub edge0: i32,
    pub edge1: i32,
}

/// The border art bakes decoration into the titlebar band, so that the
/// middle is taken from these columns, which are free of it.
pub const EDGE_SAMPLE_X0: i32 = 20;

pub const EDGE_SAMPLE_X1: i32 = 180;

/// The fixed caps of the restore strips.
pub const MIN_CAP: i32 = 18;

/// A frame sprite with its fixed margins.
#[derive(Clone, Copy, PartialEq, Eq, Debug, Structural)]
pub struct NineSlice {
    /// The sprite's size.
    pub sw: i32,
    pub sh: i32,
    pub l: i32,
    pub t: i32,
    pub r: i32,
    pub b: i32,
}

impl NineSlice {
    /// The margins are not negative and of a size that can be worked with.
    pub open spec fn wf(self) -> bool {
        &&& 0 <= self.l <= 0x10_0000
        &&& 0 <= self.t <= 0x10_0000
        &&& 0 <= self.r <= 0x10_0000
        &&& 0 <= self.b <= 0x10_0000
        &&& 0 <= self.sw <= 0x100_0000
        &&& 0 <= self.sh <= 0x100_0000
    }

    /// Whether the sprite covers its own margins.
    pub open spec fn covers_margins(self) -> bool {
        self.sw >= self.l + self.r && self.sh >= self.t + self.b
    }

    /// The nine parts over a rectangle: the corners, then the top, bottom,
    /// left and right edges, then the middle.
    pub open spec fn parts_of(self, ox: int, oy: int, w: int, h: int) -> Seq<Part> {
        let (sw, sh) = (self.sw as int, self.sh as int);
        let (l, t, r, b) = (self.l as int, self.t as int, self.r as int, self.b as int);
        let (mw, mh) = (imax(w - l - r, 1), imax(h - t - b, 1));
        let ms = sh - t - b;
        seq![
            part(0, 0, l, t, ox, oy, l, t),
            part(sw - r, 0, r, t, ox + w - r, oy, r, t),
            part(0, sh - b, l, b, ox, oy + h - b, l, b),
            part(sw - r, sh - b, r, b, ox + w - r, oy + h - b, r, b),
            part(20, 0, 160, t, ox + l, oy, mw, t),
            part(20, sh - b, 160, b, ox + l, oy + h - b, mw, b),
            part(0, t, l, ms, ox, oy + t, l, mh),
            part(sw - r, t, r, ms, ox + w - r, oy + t, r, mh),
            part(20, t, 160, ms, ox + l, oy + t, mw, mh),
        ]
    }

    /// The parts that draw the frame over a rectangle, in drawing order. A
    /// sprite too small for its own margins draws nothing.
    pub fn draw(&self, ox: i32, oy: i32, w: i32, h: i32) -> (parts: Vec<Part>)
        requires
            self.wf(),
            roomy(ox as int, oy as int, w as int, h as int),
        ensures
            self.covers_margins() ==> parts@ == self.parts_of(
                ox as int,
                oy as int,
                w as int,
                h as int,
            ),
            !self.covers_margins() ==> parts@ == Seq::<Part>::empty(),
    {
        let (sw, sh) = (self.sw, self.sh);
        let (l, t, r, b) = (self.l, self.t, self.r, self.b);
        let mut parts: Vec<Part> = Vec::new();
        if sw < l + r || sh < t + b {
            return parts;
        }
        let (mw, mh) = (max_i32(w - l - r, 1), max_i32(h - t - b, 1));
        let ms: i32 = sh - t - b;
        let ew: i32 = EDGE_SAMPLE_X1 - EDGE_SAMPLE_X0;
        parts.push(make_part(0, 0, l, t, ox, oy, l, t));
        parts.push(make_part(sw - r, 0, r, t, ox + w - r, oy, r, t));
        parts.push(make_part(0, sh - b, l, b, ox, oy + h - b, l, b));
        parts.push(make_part(sw - r, sh - b, r, b, ox + w - r, oy + h - b, r, b));
        parts.push(make_part(EDGE_SAMPLE_X0, 0, ew, t, ox + l, oy, mw, t));
        parts.push(make_part(EDGE_SAMPLE_X0, sh - b, ew, b, ox + l, oy + h - b, mw, b));
        parts.push(make_part(0, t, l, ms, ox, oy + t, l, mh));
        parts.push(make_part(sw - r, t, r, ms, ox + w - r, oy + t, r, mh));
        parts.push(make_part(EDGE_SAMPLE_X0, t, ew, ms, ox + l, oy + t, mw, mh));
        proof {
            assert(parts@ =~= self.parts_of(ox as int, oy as int, w as int, h as int));
        }
        parts
    }

    /// How the border sprite slices.
    pub fn border_art(&self) -> (spec: SliceSpec)
        ensures
            spec == (SliceSpec {
                l: self.l,
                t: self.t,
                r: self.r,
                b: self.b,
                edge0: EDGE_SAMPLE_X0,
                edge1: EDGE_SAMPLE_X1,
            }),
    {
        SliceSpec {
            l: self.l,
            t: self.t,
            r: self.r,
            b: self.b,
            edge0: EDGE_SAMPLE_X0,
            edge1: EDGE_SAMPLE_X1,
        }
    }
}

/// A part, from and to.
pub open spec fn part(
    sx: int,
    sy: int,
    sw: int,
    sh: int,
    x: int,
    y: int,
    w: int,
    h: int,
) -> Part {
    Part {
        src: Rect { x: sx as i32, y: sy as i32, w: sw as i32, h: sh as i32 },
        dst: Rect { x: x as i32, y: y as i32, w: w as i32, h: h as i32 },
    }
}

fn make_part(sx: i32, sy: i32, sw: i32, sh: i32, x: i32, y: i32, w: i32, h: i32) -> (p: Part)
    ensures
        p == part(
            sx as int,
            sy as int,
            sw as int,
            sh as int,
            x as int,
            y as int,
            w as int,
            h as int,
        ),
{
    Part { src: Rect { x: sx, y: sy, w: sw, h: sh }, dst: Rect { x, y, w, h } }
}

/// Whether a pixel lies in the box of part `i`.
pub open spec fn in_part(parts: Seq<Part>, i: int, px: int, py: int) -> bool {
    0 <= i < parts.len() && parts[i].dst.has(px, py)
}

/// The nine parts tile the rectangle wherever it has room for more than the
/// margins: every pixel of it lies in exactly one of them, and they cover
/// nothing else.
pub proof fn nine_slice_tiles_the_frame(
    nine: NineSlice,
    ox: int,
    oy: int,
    w: int,
    h: int,
    px: int,
    py: int,
)
    requires
        nine.wf(),
        nine.covers_margins(),
        roomy(ox, oy, w, h),
        w > nine.l + nine.r,
        h > nine.t + nine.b,
    ensures
        (ox <= px < ox + w && oy <= py < oy + h) <==> exists|i: int|
            #[trigger] in_part(nine.parts_of(ox, oy, w, h), i, px, py),
        forall|i: int, j: int| #[trigger]
            in_part(nine.parts_of(ox, oy, w, h), i, px, py) && #[trigger] in_part(
                nine.parts_of(ox, oy, w, h),
                j,
                px,
                py,
            ) ==> i == j,
{
    let parts = nine.parts_of(ox, oy, w, h);
    if ox <= px < ox + w && oy <= py < oy + h {
        let (left, right) = (px < ox + nine.l, px >= ox + w - nine.r);
        let (top, bottom) = (py < oy + nine.t, py >= oy + h - nine.b);
        let i: int = if top {
            if left {
                0
            } else if right {
                1
            } else {
                4
            }
        } else if bottom {
            if left {
                2
            } else if right {
                3
            } else {
                5
            }
        } else if left {
            6
        } else if right {
            7
        } else {
            8
        };
        assert(in_part(parts, i, px, py));
    }
}

/// The restore strip of a minimized split: rounded caps at the ends of the
/// long axis, the pill's body between them, at native size across.
pub open spec fn strip_parts(
    sw: int,
    sh: int,
    ox: int,
    oy: int,
    w: int,
    h: int,
    vertical: bool,
) -> Seq<Part> {
    if vertical {
        let (mid, cx) = (imax(h - 36, 1), ox + half(w - sw));
        seq![
            part(0, 0, sw, 18, cx, oy, sw, 18),
            part(0, sh - 18, sw, 18, cx, oy + h - 18, sw, 18),
            part(0, 18, sw, sh - 36, cx, oy + 18, sw, mid),
        ]
    } else {
        let (mid, cy) = (imax(w - 36, 1), oy + half(h - sh));
        seq![
            part(0, 0, 18, sh, ox, cy, 18, sh),
            part(sw - 18, 0, 18, sh, ox + w - 18, cy, 18, sh),
            part(18, 0, sw - 36, sh, ox + 18, cy, mid, sh),
        ]
    }
}

/// The parts that draw a minimized split's restore strip, for a sprite of
/// this size.
pub fn draw_minimized_axis(
    sw: i32,
    sh: i32,
    ox: i32,
    oy: i32,
    w: i32,
    h: i32,
    vertical: bool,
) -> (parts: Vec<Part>)
    requires
        0 <= sw <= 0x100_0000,
        0 <= sh <= 0x100_0000,
        vertical ==> sh >= 2 * MIN_CAP,
        !vertical ==> sw >= 2 * MIN_CAP,
        roomy(ox as int, oy as int, w as int, h as int),
    ensures
        parts@ == strip_parts(
            sw as int,
            sh as int,
            ox as int,
            oy as int,
            w as int,
            h as int,
            vertical,
        ),
{
    let cap: i32 = MIN_CAP;
    let mut parts: Vec<Part> = Vec::new();
    if vertical {
        let mid: i32 = max_i32(h - 2 * cap, 1);
        let cx: i32 = ox + half_i32(w - sw);
        parts.push(make_part(0, 0, sw, cap, cx, oy, sw, cap));
        parts.push(make_part(0, sh - cap, sw, cap, cx, oy + h - cap, sw, cap));
        parts.push(make_part(0, cap, sw, sh - 2 * cap, cx, oy + cap, sw, mid));
    } else {
        let mid: i32 = max_i32(w - 2 * cap, 1);
        let cy: i32 = oy + half_i32(h - sh);
        parts.push(make_part(0, 0, cap, sh, ox, cy, cap, sh));
        parts.push(make_part(sw - cap, 0, cap, sh, ox + w - cap, cy, cap, sh));
        parts.push(make_part(cap, 0, sw - 2 * cap, sh, ox + cap, cy, mid, sh));
    }
    proof {
        assert(parts@ =~= strip_parts(
            sw as int,
            sh as int,
            ox as int,
            oy as int,
            w as int,
            h as int,
            vertical,
        ));
    }
    parts
}

/// How a restore strip's sprite slices: caps fixed along the long axis, the
/// body between them, the cross axis at native size.
pub fn minimized_art(sprite_w: i32, vertical: bool) -> (spec: SliceSpec)
    requires
        0 <= sprite_w,
    ensures
        spec == (if vertical {
            SliceSpec { l: 0, t: MIN_CAP, r: 0, b: MIN_CAP, edge0: 0, edge1: sprite_w }
        } else {
            SliceSpec {
                l: MIN_CAP,
                t: 0,
                r: MIN_CAP,
                b: 0,
                edge0: MIN_CAP,
                edge1: (sprite_w - MIN_CAP) as i32,
            }
        }),
{
    let cap: i32 = MIN_CAP;
    if vertical {
        SliceSpec { l: 0, t: cap, r: 0, b: cap, edge0: 0, edge1: sprite_w }
    } else {
        SliceSpec { l: cap, t: 0, r: cap, b: 0, edge0: cap, edge1: sprite_w - cap }
    }
}

/// Where an index goes under a remap: the last entry for it decides.
pub open spec fn remapped(swap: Seq<(Index, Index)>, i: Index, n: int) -> Index
    decreases n,
{
    if n <= 0 {
        i
    } else if swap[n - 1].0 == i {
        swap[n - 1].1
    } else {
        remapped(swap, i, n - 1)
    }
}

/// The accent remap shared by the border and its titlebar buttons: the fill
/// becomes the accent, the outline its darker counterpart and the highlight
/// its lighter one.
pub fn accent_swap(c: &Colors, accent: Index, darker: Index, lighter: Index) -> (swap: Vec<
    (Index, Index),
>)
    ensures
        swap@ == seq![(c.lavender, accent), (c.purple, darker), (c.cream, lighter)],
{
    let mut swap: Vec<(Index, Index)> = Vec::new();
    swap.push((c.lavender, accent));
    swap.push((c.purple, darker));
    swap.push((c.cream, lighter));
    proof {
        assert(swap@ =~= seq![(c.lavender, accent), (c.purple, darker), (c.cream, lighter)]);
    }
    swap
}

/// How a frame's buffer is come by, and whether it has to be cleared.
#[derive(Clone, Copy, PartialEq, Eq, Debug)]
pub struct ScreenBase {
    pub size: (usize, usize),
    /// The last frame's buffer can be used again.
    pub recycle: bool,
    /// The wallpaper does not cover every pixel.
    pub clear: bool,
}

/// The buffer a screen is drawn on.
pub open spec fn screen_base(
    w: int,
    h: int,
    frame: Option<(usize, usize)>,
    wallpaper: Option<(usize, usize)>,
) -> ScreenBase {
    let size = (imax(w, 1) as usize, imax(h, 1) as usize);
    ScreenBase {
        size,
        recycle: frame == Some(size),
        clear: match wallpaper {
            Some((ww, wh)) => ww < size.0 || wh < size.1,
            None => true,
        },
    }
}

/// The base of a frame `w` by `h`: the last frame's buffer where its size
/// fits, cleared first only where the wallpaper does not repaint every
/// pixel.
pub fn take_screen_base(
    w: u32,
    h: u32,
    frame: Option<(usize, usize)>,
    wallpaper: Option<(usize, usize)>,
) -> (b: ScreenBase)
    ensures
        b == screen_base(w as int, h as int, frame, wallpaper),
{
    let fw: usize = if w >= 1 {
        w as usize
    } else {
        1
    };
    let fh: usize = if h >= 1 {
        h as usize
    } else {
        1
    };
    let recycle = match frame {
        Some((x, y)) => x == fw && y == fh,
        None => false,
    };
    let clear = match wallpaper {
        Some((x, y)) => x < fw || y < fh,
        None => true,
    };
    ScreenBase { size: (fw, fh), recycle, clear }
}

} // verus!
