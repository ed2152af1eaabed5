//! What keeping drawn pieces promises.

use super::{
    button_paint, frame_dst_of, leaf_frame, leaf_step, pluses_shown, quicks_to, shifted, strip_of,
    tile_paint, ArtSizes, FrameMode, LeafMeta, LeafPaint, PieceView, QuickLook, TileLook,
};
use crate::geom::{fits_i32, half, Rect};
use crate::layout::{Dir, NodeId};
use crate::pointer::{BtnKind, QuickTile, TaskTile};
use crate::Index;
use vstd::prelude::*;

verus! {

/// Law: an open split's frame fills its rectangle; a minimized one is drawn
/// along the whole length of it, no wider than its art and in the middle,
/// one pixel off at most.
pub proof fn frames_fill_their_rectangle(rect: Rect, sprite: (i32, i32))
    requires
        0 <= rect.w,
        0 <= rect.h,
        0 <= sprite.0,
        0 <= sprite.1,
        fits_i32(rect.x + rect.w),
        fits_i32(rect.y + rect.h),
    ensures
        frame_dst_of(rect, FrameMode::Border, sprite) == rect,
        ({
            let d = frame_dst_of(rect, FrameMode::MinV, sprite);
            &&& d.y == rect.y && d.h == rect.h
            &&& sprite.0 <= rect.w ==> d.w == sprite.0
            &&& sprite.0 > rect.w ==> d.w == rect.w
            &&& 0 <= (rect.x + rect.w - d.x - d.w) - (d.x - rect.x) <= 1
        }),
        ({
            let d = frame_dst_of(rect, FrameMode::MinH, sprite);
            &&& d.x == rect.x && d.w == rect.w
            &&& sprite.1 <= rect.h ==> d.h == sprite.1
            &&& sprite.1 > rect.h ==> d.h == rect.h
            &&& 0 <= (rect.y + rect.h - d.y - d.h) - (d.y - rect.y) <= 1
        }),
{
}

/// Law: a minimized split is a strip along its longer side and has no
/// titlebar; an open one has its border, and a titlebar wherever it has a
/// title or a button.
pub proof fn splits_are_drawn_as_they_are(p: LeafPaint)
    ensures
        p.kept().mode is Border <==> !p.minimized,
        p.minimized ==> (p.kept().mode is MinV <==> p.h > p.w),
        p.minimized ==> p.kept().titlebar is None,
        !p.minimized && (p.title is Some || p.buttons@.len() > 0) ==> p.kept().titlebar is Some
            && p.kept().titlebar->0.w == p.w && p.kept().titlebar->0.accent == p.accent
            && p.kept().titlebar->0.buttons == p.buttons@,
        !p.minimized && p.title is None && p.buttons@.len() == 0 ==> p.kept().titlebar is None,
        p.kept().accent == p.accent,
{
}

/// Law: a titlebar is drawn again exactly where there is one and it is not
/// the one that was drawn; a frame is committed again exactly where its
/// colour or its shape changed.
pub proof fn only_what_changed_is_drawn_again(was: PieceView, now: PieceView)
    ensures
        leaf_step(None, now).redraw <==> now.titlebar is Some,
        !leaf_step(None, now).recommit,
        leaf_step(Some(was), now).redraw <==> now.titlebar is Some && was.titlebar != now.titlebar,
        leaf_step(Some(was), now).recommit <==> was.accent != now.accent || was.mode != now.mode,
{
}

/// Law: a button is drawn in the middle of its region, counted from its
/// split's corner. The last split cannot be minimized, and it can be closed
/// only while it has a window; one that cannot be divided cannot be divided.
pub proof fn buttons_are_counted_from_their_split(
    kind: BtnKind,
    r: Rect,
    rect: Rect,
    meta: LeafMeta,
    accent: Index,
)
    requires
        0 <= r.w,
        0 <= r.h,
        fits_i32(r.x + half(r.w as int) - rect.x),
        fits_i32(r.y + half(r.h as int) - rect.y),
    ensures
        ({
            let b = button_paint(kind, r, rect, meta, accent);
            let (x, y) = (b.cx + rect.x, b.cy + rect.y);
            &&& 0 <= (r.x + r.w - x) - (x - r.x) <= 1
            &&& 0 <= (r.y + r.h - y) - (y - r.y) <= 1
            &&& b.accent == accent
            &&& kind is Minimize ==> b.disabled == meta.sole
            &&& kind is Close ==> (b.disabled <==> meta.sole && !meta.occupied)
            &&& kind is Split ==> (b.disabled <==> meta.split_dir is None)
            &&& kind is Split && meta.split_dir == Some(Dir::H) ==> b.icon is VSplit
            &&& kind is Split && meta.split_dir == Some(Dir::V) ==> b.icon is HSplit
            &&& kind is Minimize && meta.stacked ==> b.icon is MinimizeH
            &&& kind is Minimize && !meta.stacked ==> b.icon is Minimize
            &&& kind is Close ==> b.icon is Close
        }),
{
}

/// Law: the taskbar is the whole width of the output at its very bottom, and
/// what is drawn on it is counted from its top.
pub proof fn the_taskbar_is_at_the_bottom(ow: i32, oh: int, taskbar_h: i32, r: Rect)
    requires
        0 <= taskbar_h <= oh <= i32::MAX,
        fits_i32(r.y - (oh - taskbar_h)),
    ensures
        ({
            let s = strip_of(ow, oh, taskbar_h);
            &&& s.x == 0 && s.w == ow
            &&& s.y + s.h == oh
            &&& s.h == taskbar_h
            &&& shifted(r, s.y as int).y + s.y == r.y
            &&& shifted(r, s.y as int).x == r.x
            &&& shifted(r, s.y as int).w == r.w && shifted(r, s.y as int).h == r.h
        }),
{
}

/// Law: a tile is drawn where it is hit, with its window's icon and accent,
/// and a question mark where its window has no letter.
pub proof fn tiles_are_drawn_where_they_are_hit(t: TaskTile, look: TileLook)
    ensures
        tile_paint(t, look).rect == t.rect,
        tile_paint(t, look).close == t.close,
        tile_paint(t, look).icon == look.icon,
        tile_paint(t, look).accent == look.accent,
        look.label is Some ==> tile_paint(t, look).label == look.label->0,
        look.label is None ==> tile_paint(t, look).label == '?',
{
}

/// Law: every quick icon on the bar is drawn at its place with the look of
/// its own slot.
pub proof fn quick_icons_have_the_look_of_their_slot(
    tiles: Seq<QuickTile>,
    looks: Seq<QuickLook>,
    n: int,
)
    requires
        0 <= n <= tiles.len(),
        forall|i: int| 0 <= i < tiles.len() ==> (#[trigger] tiles[i]).slot < looks.len(),
    ensures
        quicks_to(tiles, looks, n).len() == n,
        forall|i: int|
            0 <= i < n ==> {
                let q = #[trigger] quicks_to(tiles, looks, n)[i];
                let l = looks[tiles[i].slot as int];
                &&& q.rect == tiles[i].icon
                &&& q.icon == l.icon && q.label == l.label
                &&& q.grown == l.grown && q.spread == l.spread
                &&& q.hover == l.hover
            },
    decreases n,
{
    if n > 0 {
        quick_icons_have_the_look_of_their_slot(tiles, looks, n - 1);
        assert(tiles[n - 1].slot < looks.len());
    }
}

/// Law: a split's frame is drawn for where it is, in its colour, and its
/// titlebar at its top left corner.
pub proof fn titlebars_start_at_the_corner(
    leaf: NodeId,
    rect: Rect,
    piece: PieceView,
    art: ArtSizes,
)
    ensures
        ({
            let f = leaf_frame(leaf, rect, piece, art);
            &&& f.leaf == leaf
            &&& f.accent == piece.accent
            &&& f.mode == piece.mode
            &&& piece.titlebar is Some ==> f.titlebar == Some((rect.x, rect.y))
            &&& piece.titlebar is None ==> f.titlebar is None
            &&& piece.mode is Border ==> f.dst == rect
            &&& piece.mode is MinV ==> f.dst == frame_dst_of(rect, piece.mode, art.min_v)
            &&& piece.mode is MinH ==> f.dst == frame_dst_of(rect, piece.mode, art.min_h)
        }),
{
}

/// Law: a plus is shown at its region's corner as soon as one of its size was
/// drawn.
pub proof fn pluses_are_shown_once_drawn(up: Seq<i32>, regions: Seq<Rect>, n: int)
    requires
        0 < n <= regions.len(),
        1 <= regions[n - 1].w,
    ensures
        up.contains(regions[n - 1].w) ==> pluses_shown(up, regions, n) == pluses_shown(
            up,
            regions,
            n - 1,
        ).push((regions[n - 1].x, regions[n - 1].y, regions[n - 1].w)),
        !up.contains(regions[n - 1].w) ==> pluses_shown(up, regions, n) == pluses_shown(
            up,
            regions,
            n - 1,
        ),
{
}

} // verus!
