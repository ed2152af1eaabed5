//! What window management promises for every window.

use super::{
    asked_width, class_of, destroyed_of, dock_place, extra_room, float_place, floating,
    grab_refused, left_by, lemma_without, mapped_by, marked, overriding, pending_from, without,
    without_fullscreen, without_pending, Destroyed, Hints, PendingWindow, WindowRoles,
};
use crate::geom::Rect;
use crate::shell::{client_area, DockData, Store};
use crate::theme::Theme;
use crate::Win;
use vstd::prelude::*;

verus! {

/// Law: the first window that matches the dock is the dock, and there is no
/// second; a window with a parent, one of a fixed size, and an X11 dialog or
/// transient float; every other window is tiled.
pub proof fn windows_are_what_they_say(dock_match: bool, docked: bool, h: Hints)
    ensures
        class_of(dock_match, docked, h) is Dock <==> dock_match && !docked,
        !(dock_match && !docked) && h.has_parent ==> class_of(dock_match, docked, h) is Float,
        !(dock_match && !docked) && h.x11 && (h.transient || h.dialog) ==> class_of(
            dock_match,
            docked,
            h,
        ) is Float,
        !(dock_match && !docked) && 0 < h.min_w == h.max_w && 0 < h.min_h == h.max_h ==> class_of(
            dock_match,
            docked,
            h,
        ) is Float,
        !(dock_match && !docked) && !h.has_parent && !h.x11 && (h.min_w <= 0 || h.min_w != h.max_w
            || h.min_h <= 0 || h.min_h != h.max_h) ==> class_of(dock_match, docked, h) is Tiled,
        !(dock_match && !docked) && !h.has_parent && !h.transient && !h.dialog && (h.min_w <= 0
            || h.min_w != h.max_w || h.min_h <= 0 || h.min_h != h.max_h) ==> class_of(
            dock_match,
            docked,
            h,
        ) is Tiled,
{
}

/// Law: a float keeps its size and opens over the middle of its parent, with
/// at most a pixel more on one side than on the other; where that would
/// leave the work area it is moved back just as far as needed, and one too
/// large for the area starts at its top left.
pub proof fn floats_open_over_their_parent(around: Rect, wa: Rect, w: int, h: int)
    requires
        1 <= w <= i32::MAX,
        1 <= h <= i32::MAX,
        i32::MIN <= wa.x + wa.w - w,
        i32::MIN <= wa.y + wa.h - h,
        wa.x + wa.w <= i32::MAX,
        wa.y + wa.h <= i32::MAX,
    ensures
        ({
            let r = float_place(around, wa, w, h);
            let (left, right) = (r.x - around.x, around.x + around.w - r.x - w);
            let (above, below) = (r.y - around.y, around.y + around.h - r.y - h);
            &&& r.w == w && r.h == h
            &&& w <= wa.w ==> wa.x <= r.x && r.x + w <= wa.x + wa.w
            &&& h <= wa.h ==> wa.y <= r.y && r.y + h <= wa.y + wa.h
            &&& w > wa.w ==> r.x == wa.x
            &&& h > wa.h ==> r.y == wa.y
            &&& wa.x < r.x && r.x + w < wa.x + wa.w ==> -1 <= left - right <= 1
            &&& wa.y < r.y && r.y + h < wa.y + wa.h ==> -1 <= above - below <= 1
            &&& w < wa.w && r.x == wa.x ==> left >= right - 1
            &&& w < wa.w && r.x + w == wa.x + wa.w ==> left <= right + 1
        }),
{
}

/// Law: a column as wide as a window asked for gives that window just its own
/// width; a window that states none asks for nothing.
pub proof fn asked_widths_fit_the_window(w: i32, th: Theme, frame: Rect)
    requires
        th.wf(),
        i32::MIN <= w + 2 * th.border_left <= i32::MAX,
    ensures
        asked_width(w, th) is Some <==> w > 0,
        asked_width(w, th) is Some && frame.w == asked_width(w, th)->0 ==> client_area(
            frame,
            0,
            0,
            th,
        ).w == w,
{
}

/// Law: the dock stands at the end of the canvas: scrolled as far as the
/// canvas and the room for it allow, its right edge is the view's right
/// edge, and scrolling moves it along with the canvas.
pub proof fn the_dock_stands_at_the_end_of_the_canvas(
    d: DockData,
    wa_x: int,
    canvas_w: int,
    view_w: int,
    overlap: int,
    layer_extra: int,
    scroll_x: int,
    by: int,
    output_h: int,
)
    requires
        1 <= d.w,
        i32::MIN <= wa_x + canvas_w - overlap - scroll_x <= i32::MAX,
        i32::MIN <= wa_x + canvas_w - overlap - scroll_x - by <= i32::MAX,
        1 <= output_h <= i32::MAX,
    ensures
        ({
            let most = canvas_w - view_w + extra_room(Some(d), overlap, layer_extra);
            let r = dock_place(d, wa_x, canvas_w, overlap, scroll_x, output_h);
            &&& scroll_x == most ==> r.x + r.w == wa_x + view_w
            &&& dock_place(d, wa_x, canvas_w, overlap, scroll_x + by, output_h).x == r.x - by
            &&& r.w == d.w
            &&& r.y == 0 && r.h == output_h
            &&& extra_room(None, overlap, layer_extra) == layer_extra
        }),
{
}

proof fn lemma_pending_from(s: Seq<PendingWindow>, surface: u32, k: int)
    requires
        0 <= k <= s.len(),
    ensures
        k <= pending_from(s, surface, k) <= s.len(),
        forall|j: int| k <= j < pending_from(s, surface, k) ==> (#[trigger] s[j]).surface != surface,
        pending_from(s, surface, k) < s.len() ==> s[pending_from(s, surface, k)].surface == surface,
    decreases s.len() - k,
{
    if k < s.len() && s[k].surface != surface {
        lemma_pending_from(s, surface, k + 1);
    }
}

/// Whether `surface` is pending, once or more often.
pub open spec fn is_pending(s: Seq<PendingWindow>, surface: u32) -> bool {
    exists|i: int| 0 <= i < s.len() && (#[trigger] s[i]).surface == surface
}

/// Law: a pending window maps on its first commit with a buffer, with what it
/// asked for by then, and only once; without a buffer, or for a surface that
/// is not pending, a commit maps nothing and changes nothing.
pub proof fn pending_windows_map_once(
    s: Seq<PendingWindow>,
    surface: u32,
    other: u32,
    fullscreen: bool,
)
    requires
        forall|i: int, j: int|
            #![trigger s[i], s[j]]
            0 <= i < j < s.len() ==> s[i].surface != s[j].surface,
        other != surface,
    ensures
        mapped_by(s, surface, false) is None && left_by(s, surface, false) == s,
        mapped_by(s, surface, true) is Some <==> is_pending(s, surface),
        mapped_by(s, surface, true) is Some ==> mapped_by(s, surface, true)->0.surface == surface,
        !is_pending(left_by(s, surface, true), surface),
        is_pending(left_by(s, surface, true), other) == is_pending(s, other),
        !is_pending(s, surface) ==> left_by(s, surface, true) == s,
        is_pending(s, surface) ==> mapped_by(marked(s, surface, fullscreen), surface, true) == Some(
            PendingWindow { surface, fullscreen },
        ),
        !is_pending(without_pending(s, surface), surface),
{
    lemma_pending_from(s, surface, 0);
    let k = pending_from(s, surface, 0);
    let left = left_by(s, surface, true);
    if is_pending(s, surface) {
        let i = choose|i: int| 0 <= i < s.len() && (#[trigger] s[i]).surface == surface;
        assert(k <= i);
        let m = marked(s, surface, fullscreen);
        lemma_pending_from(m, surface, 0);
        assert(m[k].surface == surface);
        if pending_from(m, surface, 0) < k {
            assert(m[pending_from(m, surface, 0)] == s[pending_from(m, surface, 0)]);
        }
    }
    if is_pending(left, surface) {
        let i = choose|i: int| 0 <= i < left.len() && (#[trigger] left[i]).surface == surface;
        if k < s.len() {
            if i < k {
                assert(left[i] == s[i]);
            } else {
                assert(left[i] == s[i + 1]);
                assert(s[k].surface != s[i + 1].surface);
            }
        }
    }
    if is_pending(s, other) {
        let i = choose|i: int| 0 <= i < s.len() && (#[trigger] s[i]).surface == other;
        if k < s.len() {
            if i < k {
                assert(left[i] == s[i]);
            } else {
                assert(left[i - 1] == s[i]);
            }
        }
    }
    if is_pending(left, other) && k < s.len() {
        let i = choose|i: int| 0 <= i < left.len() && (#[trigger] left[i]).surface == other;
        if i < k {
            assert(s[i] == left[i]);
        } else {
            assert(s[i + 1] == left[i]);
        }
    }
    lemma_without_pending(s, surface);
}

proof fn lemma_without_pending(s: Seq<PendingWindow>, surface: u32)
    ensures
        !is_pending(without_pending(s, surface), surface),
    decreases s.len(),
{
    if s.len() > 0 {
        lemma_without_pending(s.drop_last(), surface);
        let n = without_pending(s, surface);
        let b = without_pending(s.drop_last(), surface);
        if is_pending(n, surface) {
            let i = choose|i: int| 0 <= i < n.len() && (#[trigger] n[i]).surface == surface;
            if i < b.len() {
                assert(b[i] == n[i]);
            }
        }
    }
}

proof fn lemma_without_order(s: Seq<Win>, win: Win, i: int, j: int) -> (at: (int, int))
    requires
        0 <= i < j < s.len(),
        s[i] != win,
        s[j] != win,
    ensures
        0 <= at.0 < at.1 < without(s, win).len(),
        without(s, win)[at.0] == s[i],
        without(s, win)[at.1] == s[j],
    decreases s.len(),
{
    let n = without(s.drop_last(), win);
    if j == s.len() - 1 {
        let k = lemma_without_keeps(s.drop_last(), win, i);
        (k, n.len() as int)
    } else {
        lemma_without_order(s.drop_last(), win, i, j)
    }
}

proof fn lemma_without_keeps(s: Seq<Win>, win: Win, i: int) -> (k: int)
    requires
        0 <= i < s.len(),
        s[i] != win,
    ensures
        0 <= k < without(s, win).len(),
        without(s, win)[k] == s[i],
    decreases s.len(),
{
    if i == s.len() - 1 {
        without(s, win).len() - 1
    } else {
        lemma_without_keeps(s.drop_last(), win, i)
    }
}

/// Law: raising a float puts it on top and leaves the others in their order.
pub proof fn raising_a_float_keeps_the_others_in_order(roles: WindowRoles, win: Win, i: int, j: int)
    requires
        roles.float_stack@.no_duplicates(),
        0 <= i < j < roles.float_stack@.len(),
        roles.float_stack@[i] != win,
        roles.float_stack@[j] != win,
    ensures
        roles.raised(win)[0] == win,
        exists|a: int, b: int|
            0 < a < b < roles.raised(win).len() && #[trigger] roles.raised(win)[a]
                == roles.float_stack@[i] && #[trigger] roles.raised(win)[b]
                == roles.float_stack@[j],
        roles.raised(win).no_duplicates(),
{
    let s = roles.float_stack@;
    let at = lemma_without_order(s, win, i, j);
    lemma_without(s, win);
    assert(roles.raised(win)[at.0 + 1] == s[i]);
    assert(roles.raised(win)[at.1 + 1] == s[j]);
}

/// Law: when the focused float goes, the focus goes to its parent; when
/// another float goes it goes nowhere; and a window nobody manages is
/// nobody's loss.
pub proof fn a_dying_float_hands_its_focus_to_its_parent(
    s: Store,
    focused_float: Option<Win>,
    win: Win,
)
    ensures
        s.is_float(win) && focused_float == Some(win) ==> destroyed_of(s, focused_float, win)
            == Destroyed::Float(s.entry(win).kind->Float_0.parent),
        s.is_float(win) && focused_float != Some(win) ==> destroyed_of(s, focused_float, win)
            == Destroyed::Float(None),
        s.is_tiled(win) ==> destroyed_of(s, focused_float, win) is Tiled,
        s.is_dock(win) ==> destroyed_of(s, focused_float, win) is Dock,
        !s.has(win) ==> destroyed_of(s, focused_float, win) is Unknown,
{
}

/// Law: a popup may grab while nothing else does: its own surface's grab
/// never stands in its way, another's always does.
pub proof fn grabs_are_refused_to_others_only(keyboard: bool, pointer: bool)
    ensures
        !grab_refused(keyboard, true, pointer, true),
        !grab_refused(false, keyboard, false, pointer),
        grab_refused(true, false, pointer, keyboard),
        grab_refused(pointer, keyboard, true, false),
{
}

/// Law: only the window that is fullscreen can end that.
pub proof fn fullscreen_ends_by_its_own_window(full: Win, other: Win)
    requires
        full != other,
    ensures
        without_fullscreen(Some(full), Some(full)) is None,
        without_fullscreen(Some(full), Some(other)) == Some(full),
        without_fullscreen(Some(full), None) == Some(full),
{
}

/// Law: only a float or the dock goes before the layout, and only as long as
/// it is managed; the dock is no float.
pub proof fn only_floats_and_the_dock_override(s: Store, w: Win)
    ensures
        s.is_float(w) ==> floating(s, Some(w)) == Some(w) && overriding(s, Some(w)) == Some(w),
        s.is_dock(w) ==> floating(s, Some(w)) is None && overriding(s, Some(w)) == Some(w),
        s.is_tiled(w) || !s.has(w) ==> floating(s, Some(w)) is None && overriding(s, Some(w))
            is None,
        floating(s, None) is None && overriding(s, None) is None,
{
}

} // verus!
