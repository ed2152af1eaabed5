//! What arranging windows on screen promises.

use super::{
    active_of, all_places, all_shows, due_to, eased_rect, focus_from, key_target, outline_of,
    place_for, place_of, place_under, popup_room, root_loc_of, runs, settled, show_of, size_from,
    sliding, sliding_focus, start_rect, ClientSize, KeyTarget, Placement, TiledPlace,
};
use crate::geom::{fits_i32, Rect};
use crate::layout::{NodeId, Strip};
use crate::pointer::{first_frame_wins, Region};
use crate::shell::{frame_fits, Store};
use crate::theme::Theme;
use crate::Win;
use vstd::prelude::*;

verus! {

proof fn lemma_size_from(sizes: Seq<ClientSize>, win: Win, k: int, i: int)
    requires
        0 <= k <= i < sizes.len(),
        sizes[i].win == win,
        forall|j: int| k <= j < i ==> (#[trigger] sizes[j]).win != win,
    ensures
        size_from(sizes, win, k) == Some(sizes[i]),
    decreases i - k,
{
    if k < i {
        lemma_size_from(sizes, win, k + 1, i);
    }
}

/// Law: a window is shown inside its split's frame, below the titlebar and
/// within the borders, as large as they leave it; a minimized split shows
/// nothing, and neither does one whose window is fullscreen.
pub proof fn windows_fill_their_frames(
    v: Strip,
    p: Placement,
    sizes: Seq<ClientSize>,
    fullscreen: Option<Win>,
    animate: bool,
    th: Theme,
    i: int,
)
    requires
        th.wf(),
        frame_fits(p.target, th),
        v.live(p.leaf),
        p.active_client is Some,
        0 <= i < sizes.len(),
        sizes[i].win == p.active_client->0,
        forall|j: int| 0 <= j < i ==> (#[trigger] sizes[j]).win != sizes[i].win,
    ensures
        v.leaf_of(p.leaf).minimized || fullscreen == p.active_client ==> show_of(
            v,
            p,
            sizes,
            fullscreen,
            animate,
            th,
        ) is None,
        !v.leaf_of(p.leaf).minimized && fullscreen != p.active_client ==> {
            let s = show_of(v, p, sizes, fullscreen, animate, th);
            let (t, r) = (p.target, s->0.rect);
            &&& s is Some
            &&& s->0.win == p.active_client->0
            &&& r.x == t.x + th.border_left
            &&& r.y == t.y + th.tb_h
            &&& t.w > 2 * th.border_left ==> r.x + r.w + th.border_left == t.x + t.w
            &&& t.h > th.tb_h + th.border_bottom ==> r.y + r.h + th.border_bottom == t.y + t.h
            &&& s->0.deferred ==> animate
        },
{
    lemma_size_from(sizes, sizes[i].win, 0, i);
}

/// Law: a fullscreen window that is there covers the whole output, above all
/// other windows, and waits for nothing.
pub proof fn fullscreen_covers_the_output(
    v: Strip,
    s: Store,
    placed: Seq<Placement>,
    rects: Seq<Region<NodeId>>,
    sizes: Seq<ClientSize>,
    full: Win,
    animate: bool,
    output_w: i32,
    output_h: i32,
    th: Theme,
    px: int,
    py: int,
)
    requires
        0 <= px < output_w,
        0 <= py < output_h,
    ensures
        size_from(sizes, full, 0) is Some ==> {
            let last = all_shows(
                v,
                placed,
                sizes,
                Some(full),
                animate,
                output_w,
                output_h,
                th,
            ).last();
            &&& last.win == full
            &&& last.rect.x == 0 && last.rect.y == 0
            &&& last.rect.w == output_w && last.rect.h == output_h
            &&& !last.deferred
        },
        s.has(full) ==> place_under(
            all_places(v, s, Some(full), rects, output_w, output_h, th),
            px,
            py,
            0,
        ) == Some(full),
{
}

proof fn lemma_place_under(places: Seq<TiledPlace>, px: int, py: int, k: int, i: int)
    requires
        0 <= k <= i <= places.len(),
        forall|j: int| k <= j < i ==> !(#[trigger] places[j]).rect.has(px, py),
        i < places.len() ==> places[i].rect.has(px, py),
    ensures
        i < places.len() ==> place_under(places, px, py, k) == Some(places[i].win),
        i == places.len() ==> place_under(places, px, py, k) is None,
    decreases i - k,
{
    if k < i {
        lemma_place_under(places, px, py, k + 1, i);
    }
}

/// Law: the window at a point is the first one placed there; at a point where
/// none is placed there is none.
pub proof fn the_first_place_is_hit(places: Seq<TiledPlace>, px: int, py: int, i: int)
    requires
        0 <= i <= places.len(),
        forall|j: int| 0 <= j < i ==> !(#[trigger] places[j]).rect.has(px, py),
        i < places.len() ==> places[i].rect.has(px, py),
    ensures
        i < places.len() ==> place_under(places, px, py, 0) == Some(places[i].win),
        i == places.len() ==> place_under(places, px, py, 0) is None,
{
    lemma_place_under(places, px, py, 0, i);
}

/// Law: a split's window is drawn where it is shown: inside the frame as the
/// animation has it, and not at all where it is minimized, fullscreen, gone
/// or without a split.
pub proof fn windows_are_drawn_inside_their_frames(
    v: Strip,
    s: Store,
    fullscreen: Option<Win>,
    r: Region<NodeId>,
    th: Theme,
)
    requires
        th.wf(),
        frame_fits(r.rect, th),
    ensures
        ({
            let c = v.leaf_of(r.item).client;
            let p = place_of(v, s, fullscreen, r, th);
            &&& p is Some <==> v.live(r.item) && c is Some && !v.leaf_of(r.item).minimized
                && fullscreen != c && s.has(c->0)
            &&& p is Some ==> p->0.win == c->0
            &&& p is Some ==> p->0.rect.x == r.rect.x + th.border_left
            &&& p is Some ==> p->0.rect.y == r.rect.y + th.tb_h
            &&& p is Some && r.rect.w > 2 * th.border_left ==> p->0.rect.w == r.rect.w - 2
                * th.border_left
            &&& p is Some && r.rect.h > th.tb_h + th.border_bottom ==> p->0.rect.h == r.rect.h
                - th.tb_h - th.border_bottom
        }),
{
}

// --- animation ---

/// Law: a split that was on screen moves from where it was; a new row opens
/// from a line at its top, a new column from a line at its left.
pub proof fn splits_move_from_where_they_were(
    v: Strip,
    prev: Seq<Region<NodeId>>,
    p: Placement,
    i: int,
)
    requires
        v.live(p.leaf),
        0 <= i <= prev.len(),
        forall|j: int| 0 <= j < i ==> (#[trigger] prev[j]).item != p.leaf,
        i < prev.len() ==> prev[i].item == p.leaf,
    ensures
        ({
            let r = start_rect(v, prev, p);
            let stacked = v.columns[v.pos_of(p.leaf).col as int].rows.len() > 1;
            &&& i < prev.len() ==> r == prev[i].rect
            &&& i == prev.len() ==> r.x == p.target.x && r.y == p.target.y
            &&& i == prev.len() && stacked ==> r.w == p.target.w && r.h == 1
            &&& i == prev.len() && !stacked ==> r.w == 1 && r.h == p.target.h
        }),
{
    first_frame_wins(prev, p.leaf, 0, i);
}

/// Law: an animation runs for 280 milliseconds and no longer.
pub proof fn animations_last_as_long_as_they_should(start: int, t: int)
    requires
        0 <= t,
    ensures
        runs(start, start + t) <==> t < 280,
{
}

/// Law: what waited for the animation is told to every window that is still
/// managed, in order, and to no other.
pub proof fn deferred_sizes_reach_the_living(s: Store, deferred: Seq<(Win, Rect)>, n: int)
    requires
        0 <= n <= deferred.len(),
    ensures
        forall|i: int|
            0 <= i < n && s.has((#[trigger] deferred[i]).0) ==> due_to(s, deferred, n).contains(
                deferred[i],
            ),
        forall|k: int|
            0 <= k < due_to(s, deferred, n).len() ==> s.has(
                (#[trigger] due_to(s, deferred, n)[k]).0,
            ) && deferred.contains(due_to(s, deferred, n)[k]),
    decreases n,
{
    if n > 0 {
        deferred_sizes_reach_the_living(s, deferred, n - 1);
        let before = due_to(s, deferred, n - 1);
        let all = due_to(s, deferred, n);
        assert forall|i: int| 0 <= i < n && s.has((#[trigger] deferred[i]).0) implies all.contains(
            deferred[i],
        ) by {
            if i < n - 1 {
                let k = choose|k: int| 0 <= k < before.len() && before[k] == deferred[i];
                assert(all[k] == deferred[i]);
            } else {
                assert(all[before.len() as int] == deferred[i]);
            }
        }
        assert forall|k: int| 0 <= k < all.len() implies s.has((#[trigger] all[k]).0)
            && deferred.contains(all[k]) by {
            if k < before.len() {
                assert(all[k] == before[k]);
            } else {
                assert(all[k] == deferred[n - 1]);
            }
        }
    }
}

proof fn lemma_focus_from(placed: Seq<Placement>, k: int, i: int)
    requires
        0 <= k <= i <= placed.len(),
        forall|j: int| k <= j < i ==> !(#[trigger] placed[j]).focused,
        i < placed.len() ==> placed[i].focused,
    ensures
        i < placed.len() ==> focus_from(placed, k) == Some(placed[i].target),
        i == placed.len() ==> focus_from(placed, k) is None,
    decreases i - k,
{
    if k < i {
        lemma_focus_from(placed, k + 1, i);
    }
}

/// Law: the outline is where the focused split is placed; off screen there is
/// none.
pub proof fn the_outline_is_at_the_focused_split(placed: Seq<Placement>, i: int)
    requires
        0 <= i <= placed.len(),
        forall|j: int| 0 <= j < i ==> !(#[trigger] placed[j]).focused,
        i < placed.len() ==> placed[i].focused,
    ensures
        i < placed.len() ==> focus_from(placed, 0) == Some(placed[i].target),
        i == placed.len() ==> focus_from(placed, 0) is None,
{
    lemma_focus_from(placed, 0, i);
}

/// Law: the focus outline is the ring of pixels of the focused frame that are
/// no more than two from its edge, each pixel of it once.
pub proof fn the_outline_is_two_pixels_wide(r: Rect, px: int, py: int)
    requires
        4 <= r.w,
        4 <= r.h,
        fits_i32(r.x + r.w),
        fits_i32(r.y + r.h),
    ensures
        ({
            let s = outline_of(r);
            let inside = r.x <= px < r.x + r.w && r.y <= py < r.y + r.h;
            let inner = r.x + 2 <= px < r.x + r.w - 2 && r.y + 2 <= py < r.y + r.h - 2;
            &&& s.len() == 4
            &&& (s[0].has(px, py) || s[1].has(px, py) || s[2].has(px, py) || s[3].has(px, py))
                <==> inside && !inner
            &&& !(s[0].has(px, py) && s[1].has(px, py))
            &&& !(s[0].has(px, py) && (s[2].has(px, py) || s[3].has(px, py)))
            &&& !(s[1].has(px, py) && (s[2].has(px, py) || s[3].has(px, py)))
            &&& !(s[2].has(px, py) && s[3].has(px, py))
        }),
{
}

// --- keyboard and popups ---

/// Law: a layer surface that asks for the keyboard alone has it; otherwise a
/// focused float or the dock has it before the focused split's window, and a
/// window that is gone never has it.
pub proof fn the_keyboard_goes_to_the_nearest_claim(
    s: Store,
    over: Win,
    client: Win,
    exclusive: bool,
)
    ensures
        key_target(s, true, Some(over), Some(client)) is Layer,
        s.has(over) ==> key_target(s, false, Some(over), Some(client)) == KeyTarget::Window(over),
        s.has(client) ==> key_target(s, false, None, Some(client)) == KeyTarget::Window(client),
        !s.has(over) ==> key_target(s, false, Some(over), Some(client)) is Nothing,
        !s.has(client) ==> key_target(s, false, None, Some(client)) is Nothing,
        key_target(s, false, None, None) is Nothing,
        active_of(Some(over), Some(client)) == Some(over),
        active_of(None, Some(client)) == Some(client),
        active_of(None, None) is None,
{
}

proof fn lemma_place_for(places: Seq<TiledPlace>, win: Win, k: int, i: int)
    requires
        0 <= k <= i <= places.len(),
        forall|j: int| k <= j < i ==> (#[trigger] places[j]).win != win,
        i < places.len() ==> places[i].win == win,
    ensures
        i < places.len() ==> place_for(places, win, k) == Some(places[i].rect),
        i == places.len() ==> place_for(places, win, k) is None,
    decreases i - k,
{
    if k < i {
        lemma_place_for(places, win, k + 1, i);
    }
}

/// Law: a popup hangs off the place of its window, whatever kind of window
/// that is; off a layer surface it hangs off that, the dock layer where it
/// is scrolled to; a window that is not on screen anchors none.
pub proof fn popups_hang_off_their_window(
    s: Store,
    places: Seq<TiledPlace>,
    dock: Rect,
    win: Win,
    layer_dock: Option<(i32, i32)>,
    layer: Option<(i32, i32)>,
    i: int,
)
    requires
        0 <= i <= places.len(),
        forall|j: int| 0 <= j < i ==> (#[trigger] places[j]).win != win,
        i < places.len() ==> places[i].win == win,
    ensures
        ({
            let at = root_loc_of(s, places, dock, Some(win), layer_dock, layer);
            &&& s.is_tiled(win) && i < places.len() ==> at == Some(
                (places[i].rect.x, places[i].rect.y),
            )
            &&& s.is_tiled(win) && i == places.len() ==> at is None
            &&& s.is_float(win) ==> at == Some(
                (s.entry(win).kind->Float_0.x, s.entry(win).kind->Float_0.y),
            )
            &&& s.is_dock(win) ==> at == Some((dock.x, dock.y))
            &&& !s.has(win) ==> at is None
        }),
        layer_dock is Some ==> root_loc_of(s, places, dock, None, layer_dock, layer) == layer_dock,
        layer_dock is None ==> root_loc_of(s, places, dock, None, layer_dock, layer) == layer,
{
    lemma_place_for(places, win, 0, i);
}

/// Law: a popup may use the whole output: moved by the popup's own place on
/// screen, the room it is given is the output from its top left corner.
pub proof fn popups_may_use_the_whole_output(
    output_w: i32,
    output_h: i32,
    root: (i32, i32),
    coords: (i32, i32),
)
    requires
        i32::MIN < root.0 + coords.0 <= i32::MAX,
        i32::MIN < root.1 + coords.1 <= i32::MAX,
    ensures
        ({
            let r = popup_room(output_w, output_h, root, coords);
            &&& r.x + root.0 + coords.0 == 0
            &&& r.y + root.1 + coords.1 == 0
            &&& r.w == output_w
            &&& r.h == output_h
        }),
{
}

/// Law: the outline slides with the focused split.
pub proof fn the_outline_slides_along(
    placed: Seq<(Rect, Placement)>,
    rects: Seq<Region<NodeId>>,
    n: int,
    i: int,
)
    requires
        0 <= i <= n <= placed.len(),
        forall|j: int| i <= j < n ==> !(#[trigger] placed[j]).1.focused,
        i > 0 ==> placed[i - 1].1.focused,
    ensures
        i > 0 ==> sliding_focus(placed, rects, n) == Some(rects[i - 1].rect),
        i == 0 ==> sliding_focus(placed, rects, n) is None,
    decreases n - i,
{
    if i < n {
        assert(!placed[n - 1].1.focused);
        the_outline_slides_along(placed, rects, n - 1, i);
    }
}

/// Law: at rest every split is where it is placed.
pub proof fn splits_rest_where_they_are_placed(placed: Seq<Placement>, i: int)
    requires
        0 <= i < placed.len(),
    ensures
        settled(placed).len() == placed.len(),
        settled(placed)[i].rect == placed[i].target,
        settled(placed)[i].item == placed[i].leaf,
{
}

/// Law: at the start of its way a rect is where it came from, at the end
/// where it goes, and it is never empty.
pub proof fn rects_start_and_end_where_they_should<F: Fn(i32) -> i32>(
    part: F,
    a: Rect,
    b: Rect,
    r: Rect,
)
    requires
        eased_rect(part, a, b, r),
        fits_i32(b.x - a.x),
        fits_i32(b.y - a.y),
        fits_i32(b.w - a.w),
        fits_i32(b.h - a.h),
    ensures
        1 <= r.w && 1 <= r.h,
        (forall|t: i32, d: i32| #[trigger] call_ensures(part, (t,), d) ==> d == 0) ==> {
            &&& r.x == a.x
            &&& r.y == a.y
            &&& 1 <= a.w ==> r.w == a.w
            &&& 1 <= a.h ==> r.h == a.h
        },
        (forall|t: i32, d: i32| #[trigger] call_ensures(part, (t,), d) ==> d == t) ==> {
            &&& r.x == b.x
            &&& r.y == b.y
            &&& 1 <= b.w ==> r.w == b.w
            &&& 1 <= b.h ==> r.h == b.h
        },
{
}

/// Law: an animation moves every split that is placed, each on its own way.
pub proof fn every_split_is_on_its_way<F: Fn(i32) -> i32>(
    part: F,
    placed: Seq<(Rect, Placement)>,
    rects: Seq<Region<NodeId>>,
    i: int,
)
    requires
        sliding(part, placed, rects),
        0 <= i < placed.len(),
        fits_i32(placed[i].1.target.x - placed[i].0.x),
        fits_i32(placed[i].1.target.y - placed[i].0.y),
    ensures
        rects.len() == placed.len(),
        rects[i].item == placed[i].1.leaf,
        1 <= rects[i].rect.w && 1 <= rects[i].rect.h,
        (forall|t: i32, d: i32| #[trigger] call_ensures(part, (t,), d) ==> d == 0)
            ==> rects[i].rect.x == placed[i].0.x && rects[i].rect.y == placed[i].0.y,
        (forall|t: i32, d: i32| #[trigger] call_ensures(part, (t,), d) ==> d == t)
            ==> rects[i].rect.x == placed[i].1.target.x && rects[i].rect.y
            == placed[i].1.target.y,
{
    assert(rects[i].item == placed[i].1.leaf);
}

} // verus!
