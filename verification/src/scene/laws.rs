//! What stacking the scene promises.

use super::{
    float_elements, float_part, layer_part, leaf_part, note_part, or_part, stretch_of,
    tiled_elements, tiled_part, Element, Layer, LayerSurface, OrPlace, Plane, SceneLeaf, TiledView,
};
use crate::geom::Rect;
use crate::shell::{FloatData, Store};
use crate::theme::Theme;
use crate::Win;
use vstd::prelude::*;

verus! {

/// Law: surfaces lie on top of each other in one order: the overlay layer,
/// unmanaged windows, the top layer, floats, tiled windows, the dock, and
/// the bottom layer last. Bubbles lie right below unmanaged windows; the
/// focus outline, the taskbar, the pluses and the frames lie in that order
/// below the bottom layer, and the wallpaper and the background below all.
pub proof fn surfaces_lie_in_one_order(win: Win, at: (i32, i32), r: Rect, i: usize)
    ensures
        Plane::Overlay.depth() < Plane::OverrideRedirect.depth() < Plane::Top.depth()
            < Plane::Float.depth() < Plane::Tiled.depth() < Plane::Dock.depth()
            < Plane::Bottom.depth(),
        Element::Or(win, r).depth() < Element::Note(win, at).depth() < Element::Layer(
            Layer::Top,
            win,
            at,
        ).depth(),
        Element::Layer(Layer::Bottom, win, at).depth() < Element::Outline(r).depth()
            < Element::Taskbar.depth() < Element::Plus(i).depth() < Element::Frame(i, r).depth()
            < Element::Wallpaper.depth() < Element::Layer(Layer::Background, win, at).depth(),
        Element::Titlebar(i).depth() == Element::Frame(i, r).depth(),
{
}

/// Law: a surface of a layer that is placed is drawn, the one mapped last
/// first; the one given another place is drawn there.
pub proof fn layers_are_drawn_topmost_first(
    layer: Layer,
    s: Seq<LayerSurface>,
    over: Option<(u32, (i32, i32))>,
    n: int,
)
    requires
        0 <= n <= s.len(),
        forall|i: int| 0 <= i < s.len() ==> (#[trigger] s[i]).loc is Some,
    ensures
        layer_part(layer, s, over, n).len() == n,
        forall|k: int|
            0 <= k < n ==> {
                let l = s[s.len() - 1 - k];
                let e = #[trigger] layer_part(layer, s, over, n)[k];
                &&& over is Some && (over->0).0 == l.id ==> e == Element::Layer(
                    layer,
                    l.id,
                    (over->0).1,
                )
                &&& over is None || (over->0).0 != l.id ==> e == Element::Layer(
                    layer,
                    l.id,
                    l.loc->0,
                )
            },
    decreases n,
{
    if n > 0 {
        layers_are_drawn_topmost_first(layer, s, over, n - 1);
        assert(s[s.len() - n].loc is Some);
    }
}

/// Law: an unmanaged window is drawn where it is, the one mapped last first.
pub proof fn unmanaged_windows_are_drawn_topmost_first(s: Seq<OrPlace>, n: int)
    requires
        0 <= n <= s.len(),
        forall|i: int| 0 <= i < s.len() ==> (#[trigger] s[i]).has_surface,
    ensures
        or_part(s, n).len() == n,
        forall|k: int|
            0 <= k < n ==> #[trigger] or_part(s, n)[k] == Element::Or(
                s[s.len() - 1 - k].id,
                s[s.len() - 1 - k].rect,
            ),
    decreases n,
{
    if n > 0 {
        unmanaged_windows_are_drawn_topmost_first(s, n - 1);
        assert(s[s.len() - n].has_surface);
    }
}

/// Law: a window without a surface is not drawn, unmanaged or tiled, and
/// neither is a bubble without a picture.
pub proof fn what_has_no_surface_is_not_drawn(
    s: Seq<OrPlace>,
    t: Seq<TiledView>,
    rects: Seq<(u32, Rect)>,
    notes: Seq<u32>,
    n: int,
)
    requires
        0 < n <= s.len(),
        n <= t.len(),
        n <= rects.len(),
    ensures
        !s[s.len() - n].has_surface ==> or_part(s, n) == or_part(s, n - 1),
        !t[n - 1].has_surface ==> tiled_part(t, n) == tiled_part(t, n - 1),
        !notes.contains(rects[n - 1].0) ==> note_part(rects, notes, n) == note_part(
            rects,
            notes,
            n - 1,
        ),
        notes.contains(rects[n - 1].0) ==> note_part(rects, notes, n) == note_part(
            rects,
            notes,
            n - 1,
        ).push(Element::Note(rects[n - 1].0, (rects[n - 1].1.x, rects[n - 1].1.y))),
{
}

/// Law: a float is drawn with its window on top, at its own place, its
/// titlebar below it and its border last, both at its frame; a float further
/// down the stack is drawn after it.
pub proof fn floats_are_drawn_from_the_top(
    stack: Seq<Win>,
    s: Store,
    th: Theme,
    n: int,
    win: Win,
    f: FloatData,
)
    requires
        0 < n <= stack.len(),
    ensures
        ({
            let e = float_elements(win, f, true, th);
            let r = f.framed(th);
            &&& e[0] == Element::Float(win, (f.x, f.y))
            &&& f.frame.held() is Some ==> e[1] == Element::FloatStrip(win, (r.x, r.y))
            &&& e.last() is FloatBorder
            &&& r.w >= 1 && r.h >= 1 ==> e.last() == Element::FloatBorder(win, r)
            &&& f.frame.held() is None ==> e.len() == 2
            &&& float_elements(win, f, false, th).len() == e.len() - 1
        }),
        s.is_float(stack[n - 1]) ==> float_part(stack, s, true, th, n) == float_part(
            stack,
            s,
            true,
            th,
            n - 1,
        ) + float_elements(stack[n - 1], s.entry(stack[n - 1]).kind->Float_0, true, th),
        !s.is_float(stack[n - 1]) ==> float_part(stack, s, true, th, n) == float_part(
            stack,
            s,
            true,
            th,
            n - 1,
        ),
{
}

/// Law: a tiled window is drawn at its place, its popups above it, and one
/// that is smaller than its frame is stretched to fill it; one that is
/// larger is never shrunk.
pub proof fn small_windows_are_stretched(t: TiledView)
    requires
        1 <= t.geo_w,
        1 <= t.geo_h,
        1 <= t.place.rect.w,
        1 <= t.place.rect.h,
    ensures
        ({
            let e = tiled_elements(t);
            &&& e.len() == 2
            &&& e[0] == Element::Popups(t.place.win, (t.place.rect.x, t.place.rect.y))
            &&& e[1] is Tiled
            &&& e[1]->Tiled_0 == t.place.win
            &&& e[1]->Tiled_1 == t.place.rect
            &&& e[1]->Tiled_2 == stretch_of(t.place.rect.w as int, t.geo_w as int)
            &&& e[1]->Tiled_3 == stretch_of(t.place.rect.h as int, t.geo_h as int)
        }),
        ({
            let x = stretch_of(t.place.rect.w as int, t.geo_w as int);
            &&& x.den == t.geo_w
            &&& t.geo_w <= t.place.rect.w ==> x.num == t.place.rect.w
            &&& t.geo_w > t.place.rect.w ==> x.num == x.den
        }),
{
}

/// Law: every frame is drawn at its place, its titlebar above it.
pub proof fn frames_are_drawn_below_their_titlebars(s: Seq<SceneLeaf>, n: int)
    requires
        0 < n <= s.len() <= usize::MAX,
        1 <= s[n - 1].rect.w,
        1 <= s[n - 1].rect.h,
    ensures
        s[n - 1].titlebar ==> leaf_part(s, n) == leaf_part(s, n - 1).push(
            Element::Titlebar((n - 1) as usize),
        ).push(Element::Frame((n - 1) as usize, s[n - 1].rect)),
        !s[n - 1].titlebar ==> leaf_part(s, n) == leaf_part(s, n - 1).push(
            Element::Frame((n - 1) as usize, s[n - 1].rect),
        ),
{
    let before = leaf_part(s, n - 1);
    let frame = Element::Frame((n - 1) as usize, s[n - 1].rect);
    if s[n - 1].titlebar {
        assert(leaf_part(s, n) =~= before.push(Element::Titlebar((n - 1) as usize)).push(frame));
    } else {
        assert(leaf_part(s, n) =~= before.push(frame));
    }
}

} // verus!
