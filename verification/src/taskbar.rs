//! The bottom bar's drawing: icon tiles, the separator, the close badges,
//! and the quick-launch icons, which break into the four compass shards
//! under the pointer.

use crate::draw::{filled, fill, fill_paint, roomy, Colors, Fill, Paint, TRANSPARENT};
use crate::geom::{fits_i32, half, half_i32, imin, max_i32, min_i32, Rect};
use crate::pointer::Side;
use crate::Index;
use vstd::prelude::*;

pub mod laws;

verus! {

/// Offset, down and right, of an icon's drop shadow.
pub const SHADOW_OFFSET: i32 = 2;

/// How far each shard of a fully split icon slides out along its own axis.
pub const SHARD_SPREAD: i32 = 5;

/// How much wider an icon grows as it splits.
pub const SHARD_GROWTH: i32 = 10;

/// Thickness of the border traced around an icon's silhouette.
pub const ICON_BORDER: i32 = 2;

/// How far a slot's icon sits inside the slot on every side.
pub const SLOT_ICON_INSET: i32 = 3;

/// How far past its slot a fully split quick-launch icon reaches: its
/// growth on one side, the slide of its shards and the border around them,
/// less the room the slot leaves.
pub const QUICK_ICON_REACH: i32 = 9;

/// A pixel to draw. Destinations are signed: what lands off the buffer is
/// dropped by the drawing.
#[derive(Clone, Copy, PartialEq, Eq, Debug, Structural)]
pub struct Dot {
    pub x: i32,
    pub y: i32,
    pub index: Index,
}

/// The drawn pixels among the first `n` of a row-major buffer `w` wide, the
/// buffer's corner at (`dx`, `dy`).
pub open spec fn dots_to(idx: Seq<Index>, w: int, dx: int, dy: int, n: int) -> Seq<Dot>
    decreases n,
{
    if n <= 0 {
        Seq::empty()
    } else if idx[n - 1] == TRANSPARENT {
        dots_to(idx, w, dx, dy, n - 1)
    } else {
        dots_to(idx, w, dx, dy, n - 1).push(
            Dot {
                x: (dx + (n - 1) % w) as i32,
                y: (dy + (n - 1) / w) as i32,
                index: idx[n - 1],
            },
        )
    }
}

/// Walk an index buffer `w` wide: each opaque pixel, with the buffer's
/// corner at (`dx`, `dy`).
pub fn walk_indices(idx: &Vec<Index>, w: usize, dx: i32, dy: i32) -> (dots: Vec<Dot>)
    requires
        w > 0,
        w <= 0x1000_0000,
        idx@.len() <= w * 0x1000_0000,
        -0x3000_0000 <= dx <= 0x3000_0000,
        -0x3000_0000 <= dy <= 0x3000_0000,
    ensures
        dots@ == dots_to(idx@, w as int, dx as int, dy as int, idx@.len() as int),
        forall|i: int|
            0 <= i < dots@.len() ==> -0x3000_0000 <= (#[trigger] dots@[i]).x <= 0x4000_0000
                && -0x3000_0000 <= dots@[i].y <= 0x4000_0000,
{
    let mut dots: Vec<Dot> = Vec::new();
    let mut n: usize = 0;
    while n < idx.len()
        invariant
            w > 0,
            w <= 0x1000_0000,
            n <= idx@.len(),
            idx@.len() <= w * 0x1000_0000,
            -0x3000_0000 <= dx <= 0x3000_0000,
            -0x3000_0000 <= dy <= 0x3000_0000,
            dots@ == dots_to(idx@, w as int, dx as int, dy as int, n as int),
            forall|i: int|
                0 <= i < dots@.len() ==> -0x3000_0000 <= (#[trigger] dots@[i]).x <= 0x4000_0000
                    && -0x3000_0000 <= dots@[i].y <= 0x4000_0000,
        decreases idx@.len() - n,
    {
        let i: Index = idx[n];
        if i != TRANSPARENT {
            proof {
                assert(0 <= n / w <= 0x1000_0000) by (nonlinear_arith)
                    requires
                        0 <= n < w * 0x1000_0000,
                        w > 0,
                ;
            }
            let (tx, ty) = (n % w, n / w);
            dots.push(Dot { x: dx + tx as i32, y: dy + ty as i32, index: i });
        }
        n = n + 1;
    }
    dots
}

/// Every drawn pixel lies in the buffer's rectangle.
proof fn lemma_dots_range(idx: Seq<Index>, w: int, h: int, dx: int, dy: int, n: int)
    requires
        w > 0,
        h > 0,
        0 <= n <= w * h,
        -0x2000_0000 <= dx <= 0x2000_0000,
        -0x2000_0000 <= dy <= 0x2000_0000,
        w <= 0x1000_0000,
        h <= 0x1000_0000,
    ensures
        forall|i: int|
            0 <= i < dots_to(idx, w, dx, dy, n).len() ==> dx <= (#[trigger] dots_to(
                idx,
                w,
                dx,
                dy,
                n,
            )[i]).x < dx + w && dy <= dots_to(idx, w, dx, dy, n)[i].y < dy + h,
    decreases n,
{
    if n > 0 {
        lemma_dots_range(idx, w, h, dx, dy, n - 1);
        assert(0 <= (n - 1) / w < h) by (nonlinear_arith)
            requires
                0 <= n - 1 < w * h,
                w > 0,
                h > 0,
        ;
        assert(0 <= (n - 1) % w < w);
        let (before, all) = (dots_to(idx, w, dx, dy, n - 1), dots_to(idx, w, dx, dy, n));
        assert forall|i: int| 0 <= i < all.len() implies dx <= (#[trigger] all[i]).x < dx + w && dy
            <= all[i].y < dy + h by {
            if i < before.len() {
                assert(all[i] == before[i]);
            }
        }
    }
}

/// One slot's icon as it sits on the bar: the box it is scaled into, and how
/// far its shards have slid.
#[derive(Clone, Copy, PartialEq, Eq, Debug, Structural)]
pub struct SlotIcon {
    pub x: i32,
    pub y: i32,
    pub size: i32,
    pub spread: i32,
}

/// The icon of a slot, its box grown and its shards slid out.
pub open spec fn slot_icon(r: Rect, grown: int, spread: int) -> SlotIcon {
    let size = imin(r.h as int, r.w as int) - 6 + grown;
    SlotIcon {
        x: (r.x + half(r.w as int) - half(size)) as i32,
        y: (r.y + half(r.h as int) - half(size)) as i32,
        size: size as i32,
        spread: spread as i32,
    }
}

impl SlotIcon {
    /// The icon of slot `r`, its box `grown` wider than at rest and its
    /// shards slid out by `spread`.
    pub fn new(r: Rect, grown: i32, spread: i32) -> (s: SlotIcon)
        requires
            roomy(r.x as int, r.y as int, r.w as int, r.h as int),
            0 <= grown <= SHARD_GROWTH,
        ensures
            s == slot_icon(r, grown as int, spread as int),
    {
        let (cx, cy) = (r.x + half_i32(r.w), r.y + half_i32(r.h));
        let size: i32 = min_i32(r.h, r.w) - 2 * SLOT_ICON_INSET + grown;
        SlotIcon { x: cx - half_i32(size), y: cy - half_i32(size), size, spread }
    }

    /// The slot's centre, where the letter that stands in for an icon sits.
    pub fn centre(&self) -> (c: (i32, i32))
        requires
            fits_i32(self.x + half(self.size as int)),
            fits_i32(self.y + half(self.size as int)),
        ensures
            c.0 == self.x + half(self.size as int),
            c.1 == self.y + half(self.size as int),
    {
        (self.x + half_i32(self.size), self.y + half_i32(self.size))
    }
}

/// An icon is centred in its slot however far it has split, and its centre
/// is the slot's.
pub proof fn icons_stay_centred(r: Rect, grown: int, spread: int)
    requires
        roomy(r.x as int, r.y as int, r.w as int, r.h as int),
        0 <= grown <= SHARD_GROWTH,
    ensures
        ({
            let s = slot_icon(r, grown, spread);
            &&& s.x + half(s.size as int) == r.x + half(r.w as int)
            &&& s.y + half(s.size as int) == r.y + half(r.h as int)
        }),
{
}

/// A split quick-launch icon, its slid shards and the border around them
/// never rise further above the slot than the reach.
pub proof fn split_icons_stay_within_reach(r: Rect, grown: int, spread: int)
    requires
        roomy(r.x as int, r.y as int, r.w as int, r.h as int),
        0 <= grown <= SHARD_GROWTH,
        0 <= spread <= SHARD_SPREAD,
    ensures
        slot_icon(r, grown, spread).y - spread - ICON_BORDER >= r.y - QUICK_ICON_REACH,
{
}

/// What traces a slot icon's silhouette.
#[derive(Clone, Copy, PartialEq, Eq, Debug, Structural)]
pub enum Trace {
    /// Nothing: the icon is shadowed whole.
    Nothing,
    /// The whole silhouette, in an accent.
    Whole(Index),
    /// Only the shard under the pointer.
    Aimed(Side),
}

/// A slot icon broken into its four shards: the doubled centre of its box,
/// how far each shard has slid, and what is traced.
#[derive(Clone, Copy, PartialEq, Eq, Debug, Structural)]
pub struct Shards {
    pub cx2: i32,
    pub cy2: i32,
    pub spread: i32,
    pub trace: Trace,
}

/// Where a pixel of a wedge lands once its shard has slid out.
pub open spec fn placed(spread: int, wedge: Side, px: int, py: int) -> (int, int) {
    match wedge {
        Side::Left => (px - spread, py),
        Side::Right => (px + spread, py),
        Side::Up => (px, py - spread),
        Side::Down => (px, py + spread),
    }
}

/// The colour that traces a pixel of a wedge, if anything does.
pub open spec fn trace_color(trace: Trace, wedge: Side, cream: Index) -> Option<Index> {
    match trace {
        Trace::Nothing => None,
        Trace::Whole(accent) => Some(accent),
        Trace::Aimed(side) => if wedge == side {
            Some(cream)
        } else {
            None
        },
    }
}

/// The offsets among the first `n` of the square around a pixel that belong
/// to the stamp: those within the border's thickness, corners rounded off.
pub open spec fn stamp_to(n: int) -> Seq<(i32, i32)>
    decreases n,
{
    if n <= 0 {
        Seq::empty()
    } else {
        let (ox, oy) = ((n - 1) % 5 - 2, (n - 1) / 5 - 2);
        if ox * ox + oy * oy <= 5 {
            stamp_to(n - 1).push((ox as i32, oy as i32))
        } else {
            stamp_to(n - 1)
        }
    }
}

/// The stamp that traces one pixel: every offset within the border of it,
/// row by row.
pub fn border_stamp() -> (stamp: Vec<(i32, i32)>)
    ensures
        stamp@ == stamp_to(25),
{
    let mut stamp: Vec<(i32, i32)> = Vec::new();
    let mut n: i32 = 0;
    while n < 25
        invariant
            0 <= n <= 25,
            stamp@ == stamp_to(n as int),
        decreases 25 - n,
    {
        let (ox, oy) = (n % 5 - 2, n / 5 - 2);
        proof {
            assert(0 <= ox * ox <= 4) by (nonlinear_arith)
                requires
                    -2 <= ox <= 2,
            ;
            assert(0 <= oy * oy <= 4) by (nonlinear_arith)
                requires
                    -2 <= oy <= 2,
            ;
        }
        if ox * ox + oy * oy <= 5 {
            stamp.push((ox, oy));
        }
        n = n + 1;
    }
    stamp
}

proof fn lemma_stamp_range(n: int)
    requires
        0 <= n <= 25,
    ensures
        forall|i: int|
            0 <= i < stamp_to(n).len() ==> -2 <= (#[trigger] stamp_to(n)[i]).0 <= 2 && -2
                <= stamp_to(n)[i].1 <= 2,
    decreases n,
{
    if n > 0 {
        lemma_stamp_range(n - 1);
        let (before, all) = (stamp_to(n - 1), stamp_to(n));
        assert forall|i: int| 0 <= i < all.len() implies -2 <= (#[trigger] all[i]).0 <= 2 && -2
            <= all[i].1 <= 2 by {
            if i < before.len() {
                assert(all[i] == before[i]);
            }
        }
    }
}

/// The stamp moved onto a pixel.
pub open spec fn stamped_to(s: Seq<(i32, i32)>, x: int, y: int, color: Index, n: int) -> Seq<Dot>
    decreases n,
{
    if n <= 0 {
        Seq::empty()
    } else {
        stamped_to(s, x, y, color, n - 1).push(
            Dot { x: (x + s[n - 1].0) as i32, y: (y + s[n - 1].1) as i32, index: color },
        )
    }
}

impl Shards {
    /// The shards of a slot's icon.
    pub fn new(slot: &SlotIcon, trace: Trace) -> (s: Shards)
        requires
            fits_i32(2 * slot.x + slot.size),
            fits_i32(2 * slot.x),
            fits_i32(2 * slot.y + slot.size),
            fits_i32(2 * slot.y),
        ensures
            s.cx2 == 2 * slot.x + slot.size,
            s.cy2 == 2 * slot.y + slot.size,
            s.spread == slot.spread,
            s.trace == trace,
    {
        Shards {
            cx2: 2 * slot.x + slot.size,
            cy2: 2 * slot.y + slot.size,
            spread: slot.spread,
            trace,
        }
    }

    /// The doubled offset of a pixel's middle from the box's centre, which
    /// the compass tells its wedge by.
    pub fn wedge_offset(&self, px: i32, py: i32) -> (d: (i32, i32))
        requires
            fits_i32(2 * px + 1),
            fits_i32(2 * py + 1),
            fits_i32(2 * px),
            fits_i32(2 * py),
            fits_i32(2 * px + 1 - self.cx2),
            fits_i32(2 * py + 1 - self.cy2),
        ensures
            d.0 == 2 * px + 1 - self.cx2,
            d.1 == 2 * py + 1 - self.cy2,
    {
        (2 * px + 1 - self.cx2, 2 * py + 1 - self.cy2)
    }

    /// Where a pixel of `wedge` lands once its shard has slid out.
    pub fn place(&self, wedge: Side, px: i32, py: i32) -> (p: (i32, i32))
        requires
            0 <= self.spread <= 0x10_0000,
            -0x4000_0000 <= px <= 0x4000_0000,
            -0x4000_0000 <= py <= 0x4000_0000,
        ensures
            p.0 == placed(self.spread as int, wedge, px as int, py as int).0,
            p.1 == placed(self.spread as int, wedge, px as int, py as int).1,
    {
        match wedge {
            Side::Left => (px - self.spread, py),
            Side::Right => (px + self.spread, py),
            Side::Up => (px, py - self.spread),
            Side::Down => (px, py + self.spread),
        }
    }

    /// The colour that traces a pixel of `wedge`; nothing if it is shadowed
    /// instead.
    pub fn traced(&self, wedge: Side, cream: Index) -> (c: Option<Index>)
        ensures
            c == trace_color(self.trace, wedge, cream),
    {
        match self.trace {
            Trace::Nothing => None,
            Trace::Whole(accent) => Some(accent),
            Trace::Aimed(side) => if wedge == side {
                Some(cream)
            } else {
                None
            },
        }
    }

    /// The shadows of the first `n` pixels: those nothing traces, moved out
    /// with their shards and offset.
    pub open spec fn shadows_to(
        self,
        dots: Seq<Dot>,
        sides: Seq<Side>,
        c: Colors,
        n: int,
    ) -> Seq<Dot>
        decreases n,
    {
        if n <= 0 {
            Seq::empty()
        } else {
            let before = self.shadows_to(dots, sides, c, n - 1);
            if trace_color(self.trace, sides[n - 1], c.cream) is Some {
                before
            } else {
                let p = placed(
                    self.spread as int,
                    sides[n - 1],
                    dots[n - 1].x as int,
                    dots[n - 1].y as int,
                );
                before.push(Dot { x: (p.0 + 2) as i32, y: (p.1 + 2) as i32, index: c.black })
            }
        }
    }

    /// The traces of the first `n` pixels: the stamp around each that
    /// something traces, moved out with its shard.
    pub open spec fn traces_to(
        self,
        dots: Seq<Dot>,
        sides: Seq<Side>,
        cream: Index,
        n: int,
    ) -> Seq<Dot>
        decreases n,
    {
        if n <= 0 {
            Seq::empty()
        } else {
            let before = self.traces_to(dots, sides, cream, n - 1);
            match trace_color(self.trace, sides[n - 1], cream) {
                None => before,
                Some(color) => {
                    let p = placed(
                        self.spread as int,
                        sides[n - 1],
                        dots[n - 1].x as int,
                        dots[n - 1].y as int,
                    );
                    before + stamped_to(
                        stamp_to(25),
                        p.0,
                        p.1,
                        color,
                        stamp_to(25).len() as int,
                    )
                },
            }
        }
    }

    /// The first `n` pixels themselves, moved out with their shards.
    pub open spec fn moved_to(self, dots: Seq<Dot>, sides: Seq<Side>, n: int) -> Seq<Dot>
        decreases n,
    {
        if n <= 0 {
            Seq::empty()
        } else {
            let p = placed(
                self.spread as int,
                sides[n - 1],
                dots[n - 1].x as int,
                dots[n - 1].y as int,
            );
            self.moved_to(dots, sides, n - 1).push(
                Dot { x: p.0 as i32, y: p.1 as i32, index: dots[n - 1].index },
            )
        }
    }

    /// What is drawn for a slot, in drawing order: shadows, traces, icon.
    pub open spec fn slot_dots(self, dots: Seq<Dot>, sides: Seq<Side>, c: Colors) -> Seq<Dot> {
        let n = dots.len() as int;
        self.shadows_to(dots, sides, c, n) + self.traces_to(dots, sides, c.cream, n)
            + self.moved_to(dots, sides, n)
    }

    /// What sits behind a slot's icon: whatever is traced gets a border
    /// around its own silhouette, everything else drops a shadow. Shadows go
    /// down first.
    fn draw_slot_backing(&self, dots: &Vec<Dot>, sides: &Vec<Side>, c: &Colors) -> (out: Vec<Dot>)
        requires
            sides@.len() == dots@.len(),
            0 <= self.spread <= 0x10_0000,
            forall|i: int|
                0 <= i < dots@.len() ==> -0x4000_0000 <= (#[trigger] dots@[i]).x <= 0x4000_0000
                    && -0x4000_0000 <= dots@[i].y <= 0x4000_0000,
        ensures
            out@ == self.shadows_to(dots@, sides@, *c, dots@.len() as int) + self.traces_to(
                dots@,
                sides@,
                c.cream,
                dots@.len() as int,
            ),
    {
        let mut out: Vec<Dot> = Vec::new();
        let mut n: usize = 0;
        while n < dots.len()
            invariant
                n <= dots@.len(),
                sides@.len() == dots@.len(),
                0 <= self.spread <= 0x10_0000,
                forall|i: int|
                    0 <= i < dots@.len() ==> -0x4000_0000 <= (#[trigger] dots@[i]).x <= 0x4000_0000
                        && -0x4000_0000 <= dots@[i].y <= 0x4000_0000,
                out@ == self.shadows_to(dots@, sides@, *c, n as int),
            decreases dots@.len() - n,
        {
            let (d, wedge) = (dots[n], sides[n]);
            if self.traced(wedge, c.cream).is_none() {
                let (sx, sy) = self.place(wedge, d.x, d.y);
                out.push(Dot { x: sx + SHADOW_OFFSET, y: sy + SHADOW_OFFSET, index: c.black });
            }
            n = n + 1;
        }
        let ghost shadows = out@;
        let stamp = border_stamp();
        proof {
            lemma_stamp_range(25);
            assert(out@ =~= shadows + self.traces_to(dots@, sides@, c.cream, 0));
        }
        let mut n: usize = 0;
        while n < dots.len()
            invariant
                n <= dots@.len(),
                sides@.len() == dots@.len(),
                0 <= self.spread <= 0x10_0000,
                forall|i: int|
                    0 <= i < dots@.len() ==> -0x4000_0000 <= (#[trigger] dots@[i]).x <= 0x4000_0000
                        && -0x4000_0000 <= dots@[i].y <= 0x4000_0000,
                stamp@ == stamp_to(25),
                forall|i: int|
                    0 <= i < stamp@.len() ==> -2 <= (#[trigger] stamp@[i]).0 <= 2 && -2
                        <= stamp@[i].1 <= 2,
                out@ == shadows + self.traces_to(dots@, sides@, c.cream, n as int),
            decreases dots@.len() - n,
        {
            let (d, wedge) = (dots[n], sides[n]);
            if let Some(color) = self.traced(wedge, c.cream) {
                let (sx, sy) = self.place(wedge, d.x, d.y);
                let ghost before = out@;
                let mut k: usize = 0;
                while k < stamp.len()
                    invariant
                        k <= stamp@.len(),
                        -0x5000_0000 <= sx <= 0x5000_0000,
                        -0x5000_0000 <= sy <= 0x5000_0000,
                        forall|i: int|
                            0 <= i < stamp@.len() ==> -2 <= (#[trigger] stamp@[i]).0 <= 2 && -2
                                <= stamp@[i].1 <= 2,
                        out@ == before + stamped_to(stamp@, sx as int, sy as int, color, k as int),
                    decreases stamp@.len() - k,
                {
                    let (ox, oy) = stamp[k];
                    out.push(Dot { x: sx + ox, y: sy + oy, index: color });
                    k = k + 1;
                    proof {
                        assert(out@ =~= before + stamped_to(
                            stamp@,
                            sx as int,
                            sy as int,
                            color,
                            k as int,
                        ));
                    }
                }
                proof {
                    assert(out@ =~= shadows + self.traces_to(dots@, sides@, c.cream, n + 1));
                }
            }
            n = n + 1;
        }
        out
    }

    /// Draw one slot: its backing, then its icon or letter over it, both
    /// broken into their shards. `sides` names the wedge of each pixel.
    pub fn draw_slot(&self, dots: &Vec<Dot>, sides: &Vec<Side>, c: &Colors) -> (out: Vec<Dot>)
        requires
            sides@.len() == dots@.len(),
            0 <= self.spread <= 0x10_0000,
            forall|i: int|
                0 <= i < dots@.len() ==> -0x4000_0000 <= (#[trigger] dots@[i]).x <= 0x4000_0000
                    && -0x4000_0000 <= dots@[i].y <= 0x4000_0000,
        ensures
            out@ == self.slot_dots(dots@, sides@, *c),
    {
        let mut out = self.draw_slot_backing(dots, sides, c);
        let ghost backing = out@;
        proof {
            assert(out@ =~= backing + self.moved_to(dots@, sides@, 0));
        }
        let mut n: usize = 0;
        while n < dots.len()
            invariant
                n <= dots@.len(),
                sides@.len() == dots@.len(),
                0 <= self.spread <= 0x10_0000,
                forall|i: int|
                    0 <= i < dots@.len() ==> -0x4000_0000 <= (#[trigger] dots@[i]).x <= 0x4000_0000
                        && -0x4000_0000 <= dots@[i].y <= 0x4000_0000,
                out@ == backing + self.moved_to(dots@, sides@, n as int),
            decreases dots@.len() - n,
        {
            let (sx, sy) = self.place(sides[n], dots[n].x, dots[n].y);
            out.push(Dot { x: sx, y: sy, index: dots[n].index });
            n = n + 1;
            proof {
                assert(out@ =~= backing + self.moved_to(dots@, sides@, n as int));
            }
        }
        out
    }
}

/// A whole icon is drawn where it stands: without a spread, every pixel is
/// its own place.
pub proof fn whole_icons_do_not_move(s: Shards, dots: Seq<Dot>, sides: Seq<Side>, n: int)
    requires
        s.spread == 0,
        0 <= n <= dots.len(),
        sides.len() == dots.len(),
    ensures
        s.moved_to(dots, sides, n) == dots.take(n),
    decreases n,
{
    if n > 0 {
        whole_icons_do_not_move(s, dots, sides, n - 1);
        assert(dots.take(n) =~= dots.take(n - 1).push(dots[n - 1]));
    } else {
        assert(dots.take(0) =~= Seq::empty());
    }
}

/// What a quick-launch icon is traced with: the shard under the pointer, or
/// nothing.
pub fn quick_trace(hover: Option<Side>) -> (t: Trace)
    ensures
        t == (match hover {
            Some(side) => Trace::Aimed(side),
            None => Trace::Nothing,
        }),
{
    match hover {
        Some(side) => Trace::Aimed(side),
        None => Trace::Nothing,
    }
}

/// The pill between the window tiles and the quick-launch icons: a rounded
/// bar, its corners notched.
pub fn draw_taskbar_sep(size: (i32, i32), r: Rect, c: &Colors) -> (out: Vec<Fill>)
    requires
        roomy(r.x as int, r.y as int, r.w as int, r.h as int),
        0 <= size.0,
        0 <= size.1,
    ensures
        out@ == filled(
            filled(
                Seq::empty(),
                size,
                r.x + 1,
                r.y as int,
                r.w - 2,
                r.h as int,
                Paint::Solid(c.cream),
            ),
            size,
            r.x as int,
            r.y + 2,
            r.w as int,
            r.h - 4,
            Paint::Solid(c.cream),
        ),
{
    let mut out: Vec<Fill> = Vec::new();
    fill(&mut out, size, r.x + 1, r.y, r.w - 2, r.h, c.cream);
    fill(&mut out, size, r.x, r.y + 2, r.w, r.h - 4, c.cream);
    out
}

/// `p` percent of `v`, rounded towards zero.
pub open spec fn percent(v: int, p: int) -> int {
    if v >= 0 {
        v * p / 100
    } else {
        -((-v) * p / 100)
    }
}

fn percent_i32(v: i32, p: i32) -> (r: i32)
    requires
        0 <= p <= 100,
        -0x100_0000 <= v <= 0x100_0000,
    ensures
        r == percent(v as int, p as int),
        v >= 0 ==> 0 <= r <= v,
        v < 0 ==> v <= r <= 0,
{
    let m: i64 = if v >= 0 {
        v as i64
    } else {
        -(v as i64)
    };
    proof {
        assert(0 <= m * p <= m * 100) by (nonlinear_arith)
            requires
                0 <= m,
                0 <= p <= 100,
        ;
    }
    let q: i64 = m * (p as i64) / 100;
    if v >= 0 {
        q as i32
    } else {
        (-q) as i32
    }
}

/// Inset of the cross's ends from the badge's corners, in percent.
pub const CLOSE_BADGE_INSET_PCT: i32 = 32;

/// A dot, if it does not lie left of or above the buffer.
pub open spec fn dotted(s: Seq<Dot>, x: int, y: int, index: Index) -> Seq<Dot> {
    if x >= 0 && y >= 0 {
        s.push(Dot { x: x as i32, y: y as i32, index })
    } else {
        s
    }
}

/// The cross of a close badge, its first `i` columns: two pixels thick,
/// both strokes.
pub open spec fn cross_to(x: int, y: int, sz: int, cream: Index, i: int) -> Seq<Dot>
    decreases i,
{
    if i <= 0 {
        Seq::empty()
    } else {
        let inset = percent(sz, 32);
        let px = x + inset + i - 1;
        let (ny, sy) = (y + inset + i - 1, y + sz - 1 - inset - (i - 1));
        let a = dotted(cross_to(x, y, sz, cream, i - 1), px, ny, cream);
        let b = dotted(a, px, sy, cream);
        let d = dotted(b, px, ny + 1, cream);
        dotted(d, px, sy + 1, cream)
    }
}

fn dot(out: &mut Vec<Dot>, x: i32, y: i32, index: Index)
    ensures
        final(out)@ == dotted(old(out)@, x as int, y as int, index),
{
    if x >= 0 && y >= 0 {
        out.push(Dot { x, y, index });
    }
}

/// The close badge in the corner of a tile: a dark square, its corners
/// notched, and over it a cross.
pub fn draw_close_badge(size: (i32, i32), x: i32, y: i32, sz: i32, c: &Colors) -> (r: (
    Vec<Fill>,
    Vec<Dot>,
))
    requires
        -0x3000_0000 <= x <= 0x3000_0000,
        -0x3000_0000 <= y <= 0x3000_0000,
        -0x100_0000 <= sz <= 0x100_0000,
        0 <= size.0,
        0 <= size.1,
    ensures
        r.0@ == ({
            let p = Paint::Solid(c.black);
            let body = filled(Seq::empty(), size, x + 1, y as int, sz - 2, sz as int, p);
            let left = filled(body, size, x as int, y + 1, 1, sz - 2, p);
            filled(left, size, x + sz - 1, y + 1, 1, sz - 2, p)
        }),
        r.1@ == cross_to(x as int, y as int, sz as int, c.cream, sz - 2 * percent(sz as int, 32)),
{
    let mut out: Vec<Fill> = Vec::new();
    fill(&mut out, size, x + 1, y, sz - 2, sz, c.black);
    fill(&mut out, size, x, y + 1, 1, sz - 2, c.black);
    fill(&mut out, size, x + sz - 1, y + 1, 1, sz - 2, c.black);
    let inset: i32 = percent_i32(sz, CLOSE_BADGE_INSET_PCT);
    let span: i32 = sz - 2 * inset;
    let mut cross: Vec<Dot> = Vec::new();
    let mut i: i32 = 0;
    proof {
        assert(span <= 0 ==> cross_to(x as int, y as int, sz as int, c.cream, span as int)
            =~= Seq::empty());
    }
    while i < span
        invariant
            0 <= i,
            i <= span || i == 0,
            span == sz - 2 * inset,
            inset == percent(sz as int, 32),
            -0x3000_0000 <= x <= 0x3000_0000,
            -0x3000_0000 <= y <= 0x3000_0000,
            -0x100_0000 <= sz <= 0x100_0000,
            -0x100_0000 <= inset <= 0x100_0000,
            span <= 0 ==> cross@ == cross_to(x as int, y as int, sz as int, c.cream, span as int),
            cross@ == cross_to(x as int, y as int, sz as int, c.cream, i as int),
        decreases span - i,
    {
        let px: i32 = x + inset + i;
        let ny: i32 = y + inset + i;
        let sy: i32 = y + sz - 1 - inset - i;
        dot(&mut cross, px, ny, c.cream);
        dot(&mut cross, px, sy, c.cream);
        dot(&mut cross, px, ny + 1, c.cream);
        dot(&mut cross, px, sy + 1, c.cream);
        i = i + 1;
    }
    (out, cross)
}

/// Half-length of each arm of the plus, in percent.
pub const PLUS_ARM_PCT: i32 = 28;

/// What the insert button is made of: a dithered tile with notched corners,
/// and the two arms over it.
pub open spec fn plus_fills(size: (i32, i32), cx: int, cy: int, sz: int, c: Colors) -> Seq<Fill> {
    let (x, y) = (cx - half(sz), cy - half(sz));
    let bg = Paint::Checker(c.black, c.gunmetal);
    let body = filled(Seq::empty(), size, x + 2, y, sz - 4, sz, bg);
    let left = filled(body, size, x, y + 2, 2, sz - 4, bg);
    let right = filled(left, size, x + sz - 2, y + 2, 2, sz - 4, bg);
    let arm = if percent(sz, 28) >= 2 {
        percent(sz, 28)
    } else {
        2
    };
    let across = filled(right, size, cx - arm, cy - 1, 2 * arm, 2, Paint::Solid(c.cream));
    filled(across, size, cx - 1, cy - arm, 2, 2 * arm, Paint::Solid(c.cream))
}

/// The insert button centred at (`cx`, `cy`).
pub fn draw_plus(size: (i32, i32), cx: i32, cy: i32, sz: i32, c: &Colors) -> (out: Vec<Fill>)
    requires
        -0x2000_0000 <= cx <= 0x2000_0000,
        -0x2000_0000 <= cy <= 0x2000_0000,
        -0x100_0000 <= sz <= 0x100_0000,
        0 <= size.0,
        0 <= size.1,
    ensures
        out@ == plus_fills(size, cx as int, cy as int, sz as int, *c),
{
    let mut out: Vec<Fill> = Vec::new();
    let (x, y) = (cx - half_i32(sz), cy - half_i32(sz));
    let bg = Paint::Checker(c.black, c.gunmetal);
    fill_paint(&mut out, size, x + 2, y, sz - 4, sz, bg);
    fill_paint(&mut out, size, x, y + 2, 2, sz - 4, bg);
    fill_paint(&mut out, size, x + sz - 2, y + 2, 2, sz - 4, bg);
    let arm: i32 = max_i32(percent_i32(sz, PLUS_ARM_PCT), 2);
    fill(&mut out, size, cx - arm, cy - 1, 2 * arm, 2, c.cream);
    fill(&mut out, size, cx - 1, cy - arm, 2, 2 * arm, c.cream);
    out
}

/// An outline of a `w` by `h` box with notched corners: top, bottom, left,
/// right.
pub fn draw_rounded_box(size: (i32, i32), x: i32, y: i32, w: i32, h: i32, color: Index) -> (out: Vec<
    Fill,
>)
    requires
        roomy(x as int, y as int, w as int, h as int),
        0 <= size.0,
        0 <= size.1,
    ensures
        out@ == ({
            let p = Paint::Solid(color);
            let top = filled(Seq::empty(), size, x + 2, y as int, w - 4, 2, p);
            let bottom = filled(top, size, x + 2, y + h - 2, w - 4, 2, p);
            let left = filled(bottom, size, x as int, y + 2, 2, h - 4, p);
            filled(left, size, x + w - 2, y + 2, 2, h - 4, p)
        }),
{
    let mut out: Vec<Fill> = Vec::new();
    fill(&mut out, size, x + 2, y, w - 4, 2, color);
    fill(&mut out, size, x + 2, y + h - 2, w - 4, 2, color);
    fill(&mut out, size, x, y + 2, 2, h - 4, color);
    fill(&mut out, size, x + w - 2, y + 2, 2, h - 4, color);
    out
}

/// The pixels of an icon drawn in a box of side `size` at (`dx`, `dy`), from
/// its scaled indices. An icon without pixels, or a box without room, draws
/// nothing.
pub fn for_each_icon_pixel(
    icon: (u32, u32),
    idx: &Vec<Index>,
    dx: i32,
    dy: i32,
    size: i32,
) -> (dots: Vec<Dot>)
    requires
        size <= 0x1000_0000,
        size >= 1 ==> idx@.len() == size * size,
        -0x3000_0000 <= dx <= 0x3000_0000,
        -0x3000_0000 <= dy <= 0x3000_0000,
    ensures
        dots@ == (if icon.0 == 0 || icon.1 == 0 || size < 1 {
            Seq::empty()
        } else {
            dots_to(idx@, size as int, dx as int, dy as int, size * size)
        }),
        forall|i: int|
            0 <= i < dots@.len() ==> -0x3000_0000 <= (#[trigger] dots@[i]).x <= 0x4000_0000
                && -0x3000_0000 <= dots@[i].y <= 0x4000_0000,
{
    if icon.0 == 0 || icon.1 == 0 || size < 1 {
        return Vec::new();
    }
    proof {
        assert(size * size <= size * 0x1000_0000) by (nonlinear_arith)
            requires
                1 <= size <= 0x1000_0000,
        ;
    }
    walk_indices(idx, size as usize, dx, dy)
}

/// The ink of a letter's cell `w` by `h`, centred at (`cx`, `cy`).
pub fn for_each_glyph_pixel(idx: &Vec<Index>, w: usize, h: usize, cx: i32, cy: i32) -> (dots: Vec<Dot>)
    requires
        w <= 0x1000_0000,
        h <= 0x1000_0000,
        idx@.len() == w * h,
        -0x2000_0000 <= cx <= 0x2000_0000,
        -0x2000_0000 <= cy <= 0x2000_0000,
    ensures
        dots@ == (if w == 0 || h == 0 {
            Seq::empty()
        } else {
            dots_to(idx@, w as int, cx - w / 2, cy - h / 2, w * h)
        }),
{
    if w == 0 || h == 0 {
        return Vec::new();
    }
    proof {
        assert(w * h <= w * 0x1000_0000) by (nonlinear_arith)
            requires
                1 <= w,
                h <= 0x1000_0000,
        ;
    }
    walk_indices(idx, w, cx - (w / 2) as i32, cy - (h / 2) as i32)
}

/// What fills a slot: an icon scaled into the slot's box, or the letter that
/// stands in for one, in its own cell.
pub enum Silhouette {
    /// The icon's own size, and its pixels in the box.
    Icon { w: u32, h: u32, idx: Vec<Index> },
    /// The cell's size, and the letter's pixels.
    Letter { cell_w: usize, cell_h: usize, idx: Vec<Index> },
    /// No font to draw a letter with.
    Blank,
}

impl Silhouette {
    /// Whether the buffer is of the size the slot draws.
    pub open spec fn fits(self, size: int) -> bool {
        match self {
            Silhouette::Icon { idx, .. } => size >= 1 ==> idx@.len() == size * size,
            Silhouette::Letter { cell_w, cell_h, idx } => cell_w <= 0x1000_0000 && cell_h
                <= 0x1000_0000 && idx@.len() == cell_w * cell_h,
            Silhouette::Blank => true,
        }
    }

    /// The pixels in a slot.
    pub open spec fn pixels(self, slot: SlotIcon) -> Seq<Dot> {
        match self {
            Silhouette::Icon { w, h, idx } => if w == 0 || h == 0 || slot.size < 1 {
                Seq::empty()
            } else {
                dots_to(
                    idx@,
                    slot.size as int,
                    slot.x as int,
                    slot.y as int,
                    slot.size * slot.size,
                )
            },
            Silhouette::Letter { cell_w, cell_h, idx } => if cell_w == 0 || cell_h == 0 {
                Seq::empty()
            } else {
                dots_to(
                    idx@,
                    cell_w as int,
                    slot.x + half(slot.size as int) - cell_w / 2,
                    slot.y + half(slot.size as int) - cell_h / 2,
                    cell_w * cell_h,
                )
            },
            Silhouette::Blank => Seq::empty(),
        }
    }
}

/// Whether a slot is of a size and at a place that can be worked with.
pub open spec fn workable(slot: SlotIcon) -> bool {
    &&& -0x1000_0000 <= slot.x <= 0x1000_0000
    &&& -0x1000_0000 <= slot.y <= 0x1000_0000
    &&& slot.size <= 0x800_0000
    &&& slot.size >= -0x800_0000
    &&& 0 <= slot.spread <= 0x10_0000
}

/// Walk the pixels of whatever fills a slot. Icon and letter are both
/// silhouettes: only the letter's size is fixed, where an icon scales with
/// the box.
pub fn for_each_slot_pixel(slot: &SlotIcon, s: &Silhouette) -> (dots: Vec<Dot>)
    requires
        workable(*slot),
        s.fits(slot.size as int),
    ensures
        dots@ == s.pixels(*slot),
        forall|i: int|
            0 <= i < dots@.len() ==> -0x2400_0000 <= (#[trigger] dots@[i]).x <= 0x2400_0000
                && -0x2400_0000 <= dots@[i].y <= 0x2400_0000,
{
    match s {
        Silhouette::Icon { w, h, idx } => {
            let dots = for_each_icon_pixel((*w, *h), idx, slot.x, slot.y, slot.size);
            proof {
                if slot.size >= 1 {
                    lemma_dots_range(
                        idx@,
                        slot.size as int,
                        slot.size as int,
                        slot.x as int,
                        slot.y as int,
                        slot.size * slot.size,
                    );
                }
            }
            dots
        },
        Silhouette::Letter { cell_w, cell_h, idx } => {
            let (cx, cy) = slot.centre();
            let dots = for_each_glyph_pixel(idx, *cell_w, *cell_h, cx, cy);
            proof {
                if *cell_w > 0 && *cell_h > 0 {
                    lemma_dots_range(
                        idx@,
                        *cell_w as int,
                        *cell_h as int,
                        cx - *cell_w / 2,
                        cy - *cell_h / 2,
                        *cell_w * *cell_h,
                    );
                }
            }
            dots
        },
        Silhouette::Blank => Vec::new(),
    }
}

/// The doubled offset of a pixel's middle from the centre of the box.
pub open spec fn offset_of(slot: SlotIcon, d: Dot) -> (i32, i32) {
    (
        (2 * d.x + 1 - (2 * slot.x + slot.size)) as i32,
        (2 * d.y + 1 - (2 * slot.y + slot.size)) as i32,
    )
}

/// Whether `sides` names, for each pixel, the wedge the compass answers.
pub open spec fn by_compass<F: Fn(i32, i32) -> Side>(
    compass: F,
    slot: SlotIcon,
    dots: Seq<Dot>,
    sides: Seq<Side>,
) -> bool {
    &&& sides.len() == dots.len()
    &&& forall|i: int|
        0 <= i < dots.len() ==> call_ensures(
            compass,
            offset_of(slot, dots[i]),
            #[trigger] sides[i],
        )
}

/// Whether `out` is what is drawn for a slot: its shadows, traces and pixels,
/// broken into the shards the compass tells apart.
pub open spec fn is_item<F: Fn(i32, i32) -> Side>(
    compass: F,
    slot: SlotIcon,
    s: Silhouette,
    trace: Trace,
    c: Colors,
    out: Seq<Dot>,
) -> bool {
    exists|sides: Seq<Side>| #[trigger]
        by_compass(compass, slot, s.pixels(slot), sides) && out == (Shards {
            cx2: (2 * slot.x + slot.size) as i32,
            cy2: (2 * slot.y + slot.size) as i32,
            spread: slot.spread,
            trace,
        }).slot_dots(s.pixels(slot), sides, c)
}

/// Draw one slot: whatever fills it, broken into the shards the compass
/// tells apart, over its backing.
fn draw_slot_item<F: Fn(i32, i32) -> Side>(
    slot: &SlotIcon,
    s: &Silhouette,
    trace: Trace,
    compass: F,
    c: &Colors,
) -> (out: Vec<Dot>)
    requires
        workable(*slot),
        s.fits(slot.size as int),
        forall|dx: i32, dy: i32| call_requires(compass, (dx, dy)),
    ensures
        is_item(compass, *slot, *s, trace, *c, out@),
{
    let shards = Shards::new(slot, trace);
    let dots = for_each_slot_pixel(slot, s);
    let mut sides: Vec<Side> = Vec::new();
    let mut k: usize = 0;
    while k < dots.len()
        invariant
            k <= dots@.len(),
            sides@.len() == k,
            workable(*slot),
            shards.cx2 == 2 * slot.x + slot.size,
            shards.cy2 == 2 * slot.y + slot.size,
            forall|dx: i32, dy: i32| call_requires(compass, (dx, dy)),
            forall|i: int|
                0 <= i < dots@.len() ==> -0x2400_0000 <= (#[trigger] dots@[i]).x <= 0x2400_0000
                    && -0x2400_0000 <= dots@[i].y <= 0x2400_0000,
            forall|i: int|
                0 <= i < k ==> call_ensures(
                    compass,
                    offset_of(*slot, dots@[i]),
                    #[trigger] sides@[i],
                ),
        decreases dots@.len() - k,
    {
        let d = dots[k];
        let (x, y) = shards.wedge_offset(d.x, d.y);
        sides.push(compass(x, y));
        k = k + 1;
    }
    let out = shards.draw_slot(&dots, &sides, c);
    proof {
        assert(by_compass(compass, *slot, s.pixels(*slot), sides@));
    }
    out
}

/// Whether a slot's rectangle is of a size and at a place that can be worked
/// with.
pub open spec fn slot_fits(r: Rect) -> bool {
    &&& -0x800_0000 <= r.x <= 0x800_0000
    &&& -0x800_0000 <= r.y <= 0x800_0000
    &&& 0 <= r.w <= 0x400_0000
    &&& 0 <= r.h <= 0x400_0000
}

/// Draw a window's tile: its icon, or the letter that stands in for one,
/// centred in its slot and traced in the accent of the split the window is
/// shown in.
pub fn draw_taskbar_tile<F: Fn(i32, i32) -> Side>(
    r: Rect,
    s: &Silhouette,
    accent: Index,
    compass: F,
    c: &Colors,
) -> (out: Vec<Dot>)
    requires
        slot_fits(r),
        s.fits(slot_icon(r, 0, 0).size as int),
        forall|dx: i32, dy: i32| call_requires(compass, (dx, dy)),
    ensures
        is_item(compass, slot_icon(r, 0, 0), *s, Trace::Whole(accent), *c, out@),
{
    let slot = SlotIcon::new(r, 0, 0);
    draw_slot_item(&slot, s, Trace::Whole(accent), compass, c)
}

/// Draw a quick-launch icon, grown and broken up as far as it has split. The
/// shard under the pointer is traced; the others keep the drop shadow, as
/// does an icon with nothing aimed at it.
pub fn draw_quick_item<F: Fn(i32, i32) -> Side>(
    r: Rect,
    s: &Silhouette,
    grown: i32,
    spread: i32,
    hover: Option<Side>,
    compass: F,
    c: &Colors,
) -> (out: Vec<Dot>)
    requires
        slot_fits(r),
        0 <= grown <= SHARD_GROWTH,
        0 <= spread <= SHARD_SPREAD,
        s.fits(slot_icon(r, grown as int, spread as int).size as int),
        forall|dx: i32, dy: i32| call_requires(compass, (dx, dy)),
    ensures
        is_item(
            compass,
            slot_icon(r, grown as int, spread as int),
            *s,
            match hover {
                Some(side) => Trace::Aimed(side),
                None => Trace::Nothing,
            },
            *c,
            out@,
        ),
{
    let slot = SlotIcon::new(r, grown, spread);
    draw_slot_item(&slot, s, quick_trace(hover), compass, c)
}

/// A resting icon with nothing aimed at it is drawn whole: its pixels stand
/// where they are, over a shadow of each.
pub proof fn resting_icons_are_whole<F: Fn(i32, i32) -> Side>(
    compass: F,
    r: Rect,
    s: Silhouette,
    c: Colors,
    out: Seq<Dot>,
)
    requires
        is_item(compass, slot_icon(r, 0, 0), s, Trace::Nothing, c, out),
    ensures
        ({
            let px = s.pixels(slot_icon(r, 0, 0));
            &&& out.len() == 2 * px.len()
            &&& out.skip(px.len() as int) == px
        }),
{
    let slot = slot_icon(r, 0, 0);
    let px = s.pixels(slot);
    let n = px.len() as int;
    let sides = choose|sides: Seq<Side>| #[trigger]
        by_compass(compass, slot, px, sides) && out == (Shards {
            cx2: (2 * slot.x + slot.size) as i32,
            cy2: (2 * slot.y + slot.size) as i32,
            spread: slot.spread,
            trace: Trace::Nothing,
        }).slot_dots(px, sides, c);
    let shards = Shards {
        cx2: (2 * slot.x + slot.size) as i32,
        cy2: (2 * slot.y + slot.size) as i32,
        spread: slot.spread,
        trace: Trace::Nothing,
    };
    lemma_all_shadowed(shards, px, sides, c, n);
    whole_icons_do_not_move(shards, px, sides, n);
    assert(px.take(n) =~= px);
    assert(out.skip(n) =~= px);
}

proof fn lemma_all_shadowed(s: Shards, dots: Seq<Dot>, sides: Seq<Side>, c: Colors, n: int)
    requires
        s.trace is Nothing,
        0 <= n <= dots.len(),
        sides.len() == dots.len(),
    ensures
        s.shadows_to(dots, sides, c, n).len() == n,
        s.traces_to(dots, sides, c.cream, n).len() == 0,
    decreases n,
{
    if n > 0 {
        lemma_all_shadowed(s, dots, sides, c, n - 1);
    }
}

} // verus!
