//! What the icons of the bar promise.

use super::{
    cross_to, dots_to, offset_of, percent, placed, plus_fills, slot_icon, stamp_to, trace_color,
    Dot, Shards, Silhouette, SlotIcon, Trace, SHARD_GROWTH, SHARD_SPREAD,
};
use crate::draw::{roomy, Colors, Paint, TRANSPARENT};
use crate::geom::Rect;
use crate::pointer::Side;
use crate::Index;
use vstd::prelude::*;

verus! {

/// Law: an icon's pixels are where it is drawn, row by row, each in its own
/// colour, and its transparent pixels are not drawn at all.
pub proof fn icons_are_drawn_pixel_by_pixel(idx: Seq<Index>, w: int, dx: int, dy: int, n: int)
    requires
        0 < w,
        0 <= n <= idx.len(),
        i32::MIN <= dx,
        dx + w <= i32::MAX,
        i32::MIN <= dy,
        dy + n <= i32::MAX,
    ensures
        forall|x: int, y: int|
            #![trigger idx[y * w + x]]
            0 <= x < w && 0 <= y && y * w + x < n && idx[y * w + x] != TRANSPARENT ==> dots_to(
                idx,
                w,
                dx,
                dy,
                n,
            ).contains(Dot { x: (dx + x) as i32, y: (dy + y) as i32, index: idx[y * w + x] }),
        forall|k: int|
            0 <= k < dots_to(idx, w, dx, dy, n).len() ==> (#[trigger] dots_to(
                idx,
                w,
                dx,
                dy,
                n,
            )[k]).index != TRANSPARENT,
    decreases n,
{
    if n > 0 {
        icons_are_drawn_pixel_by_pixel(idx, w, dx, dy, n - 1);
        let before = dots_to(idx, w, dx, dy, n - 1);
        let all = dots_to(idx, w, dx, dy, n);
        assert forall|x: int, y: int|
            #![trigger idx[y * w + x]]
            0 <= x < w && 0 <= y && y * w + x < n && idx[y * w + x] != TRANSPARENT implies all.contains(
            Dot { x: (dx + x) as i32, y: (dy + y) as i32, index: idx[y * w + x] },
        ) by {
            let d = Dot { x: (dx + x) as i32, y: (dy + y) as i32, index: idx[y * w + x] };
            if y * w + x < n - 1 {
                assert(before.contains(d));
                let k = choose|k: int| 0 <= k < before.len() && before[k] == d;
                assert(all[k] == d);
            } else {
                assert((n - 1) % w == x && (n - 1) / w == y) by (nonlinear_arith)
                    requires
                        n - 1 == y * w + x,
                        0 <= x < w,
                        0 <= y,
                ;
                assert(all[before.len() as int] == d);
            }
        }
    }
}

/// Law: the four pieces of a split icon move apart, each by the spread to its
/// own side and not at all across it; unspread they stay where they are.
pub proof fn pieces_move_to_their_own_side(spread: int, px: int, py: int)
    ensures
        ({
            let left = placed(spread, Side::Left, px, py);
            let right = placed(spread, Side::Right, px, py);
            let up = placed(spread, Side::Up, px, py);
            let down = placed(spread, Side::Down, px, py);
            &&& right.0 - px == spread && px - left.0 == spread
            &&& down.1 - py == spread && py - up.1 == spread
            &&& left.1 == py && right.1 == py
            &&& up.0 == px && down.0 == px
        }),
{
}

/// Law: a tile's icon is traced all round in its accent; a quick icon is
/// traced only on the side aimed at, and a resting one not at all.
pub proof fn traces_show_the_aim(accent: Index, aim: Side, wedge: Side, cream: Index)
    ensures
        trace_color(Trace::Whole(accent), wedge, cream) == Some(accent),
        trace_color(Trace::Nothing, wedge, cream) is None,
        trace_color(Trace::Aimed(aim), aim, cream) == Some(cream),
        wedge != aim ==> trace_color(Trace::Aimed(aim), wedge, cream) is None,
{
}

/// Law: a pixel that is not traced casts a shadow two pixels to the right and
/// two down from where it is drawn; a traced one casts none.
pub proof fn shadows_fall_down_and_right(
    s: Shards,
    dots: Seq<Dot>,
    sides: Seq<Side>,
    c: Colors,
    i: int,
)
    requires
        0 <= i < dots.len(),
        sides.len() == dots.len(),
        -0x4000_0000 <= dots[i].x <= 0x4000_0000,
        -0x4000_0000 <= dots[i].y <= 0x4000_0000,
        0 <= s.spread <= 0x10_0000,
    ensures
        ({
            let before = s.shadows_to(dots, sides, c, i);
            let after = s.shadows_to(dots, sides, c, i + 1);
            let drawn = s.moved_to(dots, sides, i + 1).last();
            &&& trace_color(s.trace, sides[i], c.cream) is Some ==> after == before
            &&& trace_color(s.trace, sides[i], c.cream) is None ==> {
                &&& after.len() == before.len() + 1
                &&& after.last().x == drawn.x + 2
                &&& after.last().y == drawn.y + 2
                &&& after.last().index == c.black
            }
            &&& drawn.index == dots[i].index
        }),
{
}

/// Law: a resting icon leaves three pixels free above and below it in its
/// slot, and a grown one is larger by what it has grown.
pub proof fn icons_leave_a_margin(r: Rect, grown: int, spread: int)
    requires
        roomy(r.x as int, r.y as int, r.w as int, r.h as int),
        0 <= grown <= SHARD_GROWTH,
        0 <= spread <= SHARD_SPREAD,
        6 <= r.h <= r.w,
    ensures
        ({
            let s = slot_icon(r, grown, spread);
            &&& s.size == r.h - 6 + grown
            &&& grown == 0 ==> s.y >= r.y + 3 && s.y + s.size <= r.y + r.h - 2
            &&& -1 <= 2 * s.x + s.size - (2 * r.x + r.w) <= 1
            &&& -1 <= 2 * s.y + s.size - (2 * r.y + r.h) <= 1
            &&& s.spread == spread
        }),
{
}

/// Law: opposite pixels of an icon have opposite offsets from its middle.
pub proof fn offsets_are_from_the_middle(slot: SlotIcon, d: Dot, e: Dot)
    requires
        -0x1000_0000 <= slot.x <= 0x1000_0000,
        -0x1000_0000 <= slot.y <= 0x1000_0000,
        0 <= slot.size <= 0x1000_0000,
        -0x1000_0000 <= d.x <= 0x1000_0000,
        -0x1000_0000 <= d.y <= 0x1000_0000,
        d.x - slot.x == slot.x + slot.size - 1 - e.x,
        d.y - slot.y == slot.y + slot.size - 1 - e.y,
    ensures
        offset_of(slot, d).0 + offset_of(slot, e).0 == 0,
        offset_of(slot, d).1 + offset_of(slot, e).1 == 0,
        d.x >= slot.x + slot.size ==> offset_of(slot, d).0 > 0,
        d.y >= slot.y + slot.size ==> offset_of(slot, d).1 > 0,
{
}

/// Law: a plus is drawn in the middle of its square: two bars two pixels wide
/// that cross there, each as long on one side as on the other.
pub proof fn pluses_cross_in_the_middle(size: (i32, i32), cx: int, cy: int, sz: int, c: Colors)
    requires
        16 <= sz <= 0x1000,
        sz <= cx <= 0x1000_0000,
        sz <= cy <= 0x1000_0000,
        cx + sz <= size.0,
        cy + sz <= size.1,
    ensures
        ({
            let s = plus_fills(size, cx, cy, sz, c);
            let (a, d) = (s[3].rect, s[4].rect);
            &&& s.len() == 5
            &&& a.h == 2 && a.y == cy - 1
            &&& d.w == 2 && d.x == cx - 1
            &&& cx - a.x == a.x + a.w - cx
            &&& cy - d.y == d.y + d.h - cy
            &&& a.w == d.h
            &&& s[3].paint == Paint::Solid(c.cream) && s[4].paint == Paint::Solid(c.cream)
            &&& forall|i: int|
                0 <= i < 3 ==> (#[trigger] s[i]).paint == Paint::Checker(c.black, c.gunmetal)
            &&& s[0].rect.w == sz - 4 && s[0].rect.h == sz
            &&& s[1].rect.w == 2 && s[1].rect.h == sz - 4
            &&& s[2].rect.w == 2 && s[2].rect.h == sz - 4
            &&& s[1].rect.x + 2 == s[0].rect.x && s[1].rect.y == s[0].rect.y + 2
            &&& s[2].rect.x == s[0].rect.x + sz - 4 && s[2].rect.y == s[0].rect.y + 2
            &&& -1 <= 2 * cx - (2 * s[0].rect.x + s[0].rect.w) <= 1
            &&& -1 <= 2 * cy - (2 * s[0].rect.y + s[0].rect.h) <= 1
        }),
{
    assert(percent(sz, 28) == sz * 28 / 100);
}

/// Law: the badge's cross runs from corner to corner of its square, each
/// step one pixel on and one pixel down, or up.
pub proof fn the_cross_runs_from_corner_to_corner(x: int, y: int, sz: int, cream: Index, i: int)
    requires
        0 <= x <= 0x1000_0000,
        0 <= y <= 0x1000_0000,
        0 < sz <= 0x100_0000,
        0 < i <= sz - 2 * percent(sz, 32),
    ensures
        ({
            let s = cross_to(x, y, sz, cream, i);
            let n = s.len() as int;
            let inset = percent(sz, 32);
            let step = i - 1;
            &&& n >= 4
            &&& s[n - 4] == Dot {
                x: (x + inset + step) as i32,
                y: (y + inset + step) as i32,
                index: cream,
            }
            &&& s[n - 3] == Dot {
                x: (x + inset + step) as i32,
                y: (y + sz - 1 - inset - step) as i32,
                index: cream,
            }
        }),
{
    let inset = percent(sz, 32);
    assert(0 <= inset <= sz);
}

/// Law: the trace of a pixel is every pixel at most two away from it in each
/// direction, but for the corners, and no other.
pub proof fn traces_are_rounded_squares(x: i32, y: i32)
    ensures
        stamp_to(25).contains((x, y)) <==> -2 <= x <= 2 && -2 <= y <= 2 && !((x == 2 || x == -2)
            && (y == 2 || y == -2)),
{
    lemma_stamp(25, x, y);
    if -2 <= x <= 2 && -2 <= y <= 2 {
        assert(0 <= (y + 2) * 5 + (x + 2) < 25);
        assert(((y + 2) * 5 + (x + 2)) % 5 == x + 2);
        assert(((y + 2) * 5 + (x + 2)) / 5 == y + 2);
        assert(x * x + y * y <= 5 <==> !((x == 2 || x == -2) && (y == 2 || y == -2))) by {
            lemma_square(x as int);
            lemma_square(y as int);
        }
    }
}

proof fn lemma_square(x: int)
    requires
        -2 <= x <= 2,
    ensures
        x * x == (if x == 0 {
            0int
        } else if x == 1 || x == -1 {
            1int
        } else {
            4int
        }),
{
    assert(x == -2 || x == -1 || x == 0 || x == 1 || x == 2);
}

proof fn lemma_stamp(n: int, x: i32, y: i32)
    requires
        0 <= n <= 25,
    ensures
        stamp_to(n).contains((x, y)) <==> -2 <= x <= 2 && -2 <= y <= 2 && (y + 2) * 5 + (x + 2) < n
            && x * x + y * y <= 5,
    decreases n,
{
    if n > 0 {
        lemma_stamp(n - 1, x, y);
        let (ox, oy) = ((n - 1) % 5 - 2, (n - 1) / 5 - 2);
        let before = stamp_to(n - 1);
        let o = (ox as i32, oy as i32);
        if ox * ox + oy * oy <= 5 {
            assert(stamp_to(n) == before.push(o));
            assert(before.push(o)[before.len() as int] == o);
            if before.contains((x, y)) {
                let i = choose|i: int| 0 <= i < before.len() && before[i] == (x, y);
                assert(before.push(o)[i] == (x, y));
            }
            if before.push(o).contains((x, y)) && o != (x, y) {
                let i = choose|i: int|
                    0 <= i < before.push(o).len() && before.push(o)[i] == (x, y);
                assert(before[i] == (x, y));
            }
        }
        if -2 <= x <= 2 && -2 <= y <= 2 && (y + 2) * 5 + (x + 2) == n - 1 {
            assert(ox == x && oy == y);
        }
    } else {
        assert(stamp_to(n).len() == 0);
    }
}

/// Law: a letter stands in the middle of its slot: as far from one side as
/// from the other, up to a pixel.
pub proof fn letters_stand_in_the_middle(s: Silhouette, slot: SlotIcon)
    requires
        s is Letter,
        s->cell_w > 0,
        s->cell_h > 0,
    ensures
        exists|x: int, y: int|
            s.pixels(slot) == #[trigger] dots_to(
                s->Letter_idx@,
                s->cell_w as int,
                x,
                y,
                s->cell_w * s->cell_h,
            ) && -2 <= 2 * x + s->cell_w - (2 * slot.x + slot.size) <= 2 && -2 <= 2 * y + s->cell_h
                - (2 * slot.y + slot.size) <= 2,
{
    let x = slot.x + crate::geom::half(slot.size as int) - s->cell_w as int / 2;
    let y = slot.y + crate::geom::half(slot.size as int) - s->cell_h as int / 2;
    assert(s.pixels(slot) == dots_to(
        s->Letter_idx@,
        s->cell_w as int,
        x,
        y,
        s->cell_w * s->cell_h,
    ));
}

} // verus!
