//! What resolving a point on the chrome promises.

use super::{
    compass_offset, compass_of, first_quick_wins, first_region_wins, frame_hit, handle_hit, hit_of,
    live_region_wins, square_of, top_tile, topmost_tile_wins, Hit, QuickTile, Region, Side,
    TaskTile, Widgets,
};
use crate::geom::Rect;
use crate::layout::{NodeId, Strip};
use crate::theme::Theme;
use vstd::prelude::*;

verus! {

/// Whether no region holds the point.
pub open spec fn none_at<T>(s: Seq<Region<T>>, x: int, y: int) -> bool {
    forall|j: int| 0 <= j < s.len() ==> !(#[trigger] s[j]).rect.has(x, y)
}

/// Whether region `i` is the first that holds the point.
pub open spec fn first_at<T>(s: Seq<Region<T>>, x: int, y: int, i: int) -> bool {
    &&& 0 <= i < s.len()
    &&& s[i].rect.has(x, y)
    &&& forall|j: int| 0 <= j < i ==> !(#[trigger] s[j]).rect.has(x, y)
}

/// Whether no tile and no badge holds the point.
pub open spec fn no_tile_at(s: Seq<TaskTile>, x: int, y: int) -> bool {
    forall|j: int|
        0 <= j < s.len() ==> !(#[trigger] s[j]).rect.has(x, y) && !s[j].close.has(x, y)
}

/// Whether no quick icon's hover rect holds the point.
pub open spec fn no_quick_at(s: Seq<QuickTile>, x: int, y: int) -> bool {
    forall|j: int| 0 <= j < s.len() ==> !(#[trigger] s[j]).hover.has(x, y)
}

/// Whether the open compass takes the point.
pub open spec fn on_compass(c: Option<QuickTile>, x: int, y: int) -> bool {
    c is Some && (c->0.compass.has(x, y) || c->0.hover.has(x, y))
}

/// Law: a split's button is hit before anything else; then the open compass,
/// for its own slot; then the topmost tile of the bar, by its badge where
/// the point is on that; then a quick icon.
pub proof fn the_bar_is_hit_below_buttons(
    w: Widgets,
    v: Strip,
    frames: Seq<Region<NodeId>>,
    quick_hover: Option<usize>,
    th: Theme,
    x: int,
    y: int,
    side: Side,
    i: int,
)
    ensures
        ({
            let hit = hit_of(w, v, frames, quick_hover, th, x, y, side);
            let c = compass_of(w.quick_regions@, quick_hover);
            let (b, t, q) = (w.btn_regions@, w.taskbar_regions@, w.quick_regions@);
            &&& first_at(b, x, y, i) ==> hit == Hit::Btn(b[i].item.0, b[i].item.1)
            &&& none_at(b, x, y) && on_compass(c, x, y) ==> hit == Hit::QuickLaunch(c->0.slot, side)
            &&& none_at(b, x, y) && !on_compass(c, x, y) && 0 <= i < t.len() && (t[i].rect.has(x, y)
                || t[i].close.has(x, y)) && (forall|j: int|
                i < j < t.len() ==> !(#[trigger] t[j]).rect.has(x, y) && !t[j].close.has(x, y)) ==> {
                &&& t[i].close.has(x, y) ==> hit == Hit::TaskbarClose(t[i].win)
                &&& !t[i].close.has(x, y) ==> hit == Hit::TaskbarTile(t[i].win, t[i].leaf)
            }
            &&& none_at(b, x, y) && !on_compass(c, x, y) && no_tile_at(t, x, y) && 0 <= i < q.len()
                && q[i].hover.has(x, y) && (forall|j: int|
                0 <= j < i ==> !(#[trigger] q[j]).hover.has(x, y)) ==> hit == Hit::QuickLaunch(
                q[i].slot,
                side,
            )
        }),
{
    first_region_wins(w.btn_regions@, x, y, 0);
    let t = w.taskbar_regions@;
    topmost_tile_wins(t, x, y, t.len() as int);
    first_quick_wins(w.quick_regions@, x, y, 0);
    let k = top_tile(t, x, y, t.len() as int);
    if 0 <= i < t.len() && (t[i].rect.has(x, y) || t[i].close.has(x, y)) && (forall|j: int|
        i < j < t.len() ==> !(#[trigger] t[j]).rect.has(x, y) && !t[j].close.has(x, y)) {
        if k < i {
            assert(!t[i].close.has(x, y));
        } else if k > i {
            assert(!t[k].rect.has(x, y));
        }
    }
}

/// Law: away from buttons and the bar, a titlebar is hit first, then a gap
/// between splits, then an outer edge, then the frame of a split that is
/// still there; anywhere else nothing is.
pub proof fn splits_are_hit_from_their_titles_down(
    w: Widgets,
    v: Strip,
    frames: Seq<Region<NodeId>>,
    quick_hover: Option<usize>,
    th: Theme,
    x: int,
    y: int,
    side: Side,
    i: int,
)
    requires
        none_at(w.btn_regions@, x, y),
        !on_compass(compass_of(w.quick_regions@, quick_hover), x, y),
        no_tile_at(w.taskbar_regions@, x, y),
        no_quick_at(w.quick_regions@, x, y),
    ensures
        ({
            let hit = hit_of(w, v, frames, quick_hover, th, x, y, side);
            let (t, h, e) = (w.title_regions@, w.handle_regions@, w.edge_handle_regions@);
            &&& first_at(t, x, y, i) ==> hit == Hit::Title(t[i].item)
            &&& none_at(t, x, y) && first_at(h, x, y, i) ==> hit == handle_hit(
                v,
                frames,
                h[i],
                th.gap,
                x,
                y,
            )
            &&& none_at(t, x, y) && none_at(h, x, y) && first_at(e, x, y, i) ==> hit == Hit::Edge(
                e[i].item,
            )
            &&& none_at(t, x, y) && none_at(h, x, y) && none_at(e, x, y) && first_at(
                frames,
                x,
                y,
                i,
            ) && v.live(frames[i].item) ==> hit == frame_hit(frames[i], th, x)
            &&& none_at(t, x, y) && none_at(h, x, y) && none_at(e, x, y) && none_at(frames, x, y)
                ==> hit is Miss
        }),
{
    first_region_wins(w.btn_regions@, x, y, 0);
    let t = w.taskbar_regions@;
    topmost_tile_wins(t, x, y, t.len() as int);
    first_quick_wins(w.quick_regions@, x, y, 0);
    first_region_wins(w.title_regions@, x, y, 0);
    first_region_wins(w.handle_regions@, x, y, 0);
    first_region_wins(w.edge_handle_regions@, x, y, 0);
    live_region_wins(v, frames, x, y, 0);
}

/// Law: a side is aimed at from the middle of the open compass, or from the
/// middle of the quick icon under the point where none is open; nothing else
/// is aimed with.
pub proof fn sides_are_aimed_at_from_the_middle(
    w: Widgets,
    quick_hover: Option<usize>,
    x: int,
    y: int,
    i: int,
)
    ensures
        ({
            let square = square_of(w, quick_hover, x, y);
            let c = compass_of(w.quick_regions@, quick_hover);
            let q = w.quick_regions@;
            &&& none_at(w.btn_regions@, x, y) && on_compass(c, x, y) ==> square == Some(
                c->0.compass,
            )
            &&& none_at(w.btn_regions@, x, y) && !on_compass(c, x, y) && no_tile_at(
                w.taskbar_regions@,
                x,
                y,
            ) && 0 <= i < q.len() && q[i].hover.has(x, y) && (forall|j: int|
                0 <= j < i ==> !(#[trigger] q[j]).hover.has(x, y)) ==> square == Some(q[i].icon)
            &&& first_at(w.btn_regions@, x, y, i) ==> square is None
            &&& !on_compass(c, x, y) && no_quick_at(q, x, y) ==> square is None
        }),
{
    first_region_wins(w.btn_regions@, x, y, 0);
    let t = w.taskbar_regions@;
    topmost_tile_wins(t, x, y, t.len() as int);
    first_quick_wins(w.quick_regions@, x, y, 0);
}

/// Law: an offset is positive right of and below the middle of its square and
/// negative left of and above it, by twice the distance; pixels opposite
/// each other have opposite offsets.
pub proof fn offsets_grow_right_and_down(square: Rect, x: int, y: int)
    requires
        -0x1000_0000 <= square.x <= 0x1000_0000,
        -0x1000_0000 <= square.y <= 0x1000_0000,
        0 <= square.w <= 0x1000_0000,
        0 <= square.h <= 0x1000_0000,
        -0x1000_0000 <= x <= 0x1000_0000,
        -0x1000_0000 <= y <= 0x1000_0000,
    ensures
        ({
            let d = compass_offset(square, x, y);
            let o = compass_offset(
                square,
                2 * square.x + square.w - 1 - x,
                2 * square.y + square.h - 1 - y,
            );
            &&& d.0 + o.0 == 0
            &&& d.1 + o.1 == 0
            &&& 2 * x + 1 > 2 * square.x + square.w <==> d.0 > 0
            &&& 2 * y + 1 > 2 * square.y + square.h <==> d.1 > 0
            &&& compass_offset(square, x + 1, y).0 == d.0 + 2
            &&& compass_offset(square, x, y + 1).1 == d.1 + 2
            &&& compass_offset(square, x + 1, y).1 == d.1
        }),
{
}

} // verus!
