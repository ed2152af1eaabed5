//! Window classification and the float and dock lifecycles. A toplevel is
//! classified on its first buffer commit, when its identity, parent and
//! size hints are known.

use crate::geom::{fits_i32, half, half_i32, imax, max_i32, Rect};
use crate::shell::{lemma_at, lemma_removed, DockData, FloatData, FrameTex, Kind, Managed, Store};
use crate::text::{eq_ignore_ascii_case, fold_eq, same_str};
use crate::theme::Theme;
use crate::{Index, Win};
use vstd::prelude::*;

pub mod laws;

verus! {

/// What a window says of itself that decides its role.
#[derive(Clone, Copy, PartialEq, Eq, Debug, Structural)]
pub struct Hints {
    /// It names a managed window as its parent.
    pub has_parent: bool,
    /// It is an X11 window.
    pub x11: bool,
    /// X11: it is transient for some window.
    pub transient: bool,
    /// X11: it declares itself a dialog.
    pub dialog: bool,
    /// Its size limits, zero where it states none.
    pub min_w: i32,
    pub min_h: i32,
    pub max_w: i32,
    pub max_h: i32,
}

/// The role a new window is given.
#[derive(Clone, Copy, PartialEq, Eq, Debug, Structural)]
pub enum Class {
    Dock,
    Float,
    Tiled,
}

impl Hints {
    /// It declares itself fixed-size: it cannot be resized, so stretching
    /// it into a split makes no sense.
    pub open spec fn fixed(self) -> bool {
        &&& self.min_w > 0
        &&& self.min_h > 0
        &&& self.min_w == self.max_w
        &&& self.min_h == self.max_h
    }

    /// It floats instead of tiling.
    pub open spec fn floats(self) -> bool {
        ||| self.has_parent
        ||| self.x11 && (self.transient || self.dialog)
        ||| self.fixed()
    }
}

/// Whether a window declares itself fixed-size.
pub fn fixed_size(h: &Hints) -> (b: bool)
    ensures
        b == h.fixed(),
{
    h.min_w > 0 && h.min_h > 0 && h.min_w == h.max_w && h.min_h == h.max_h
}

/// Whether a window should float instead of tiling: a transient, a declared
/// X11 dialog, or a fixed-size window.
pub fn wants_float(h: &Hints) -> (b: bool)
    ensures
        b == h.floats(),
{
    if h.has_parent {
        return true;
    }
    if h.x11 && (h.transient || h.dialog) {
        return true;
    }
    fixed_size(h)
}

/// Whether a window is the dock.
pub open spec fn is_dock(app_id: Seq<char>, title: Seq<char>, identity: Seq<char>) -> bool {
    if app_id.len() > 0 {
        fold_eq(app_id, identity)
    } else {
        title == identity
    }
}

/// Whether a window is the dock: its app id equals the dock identity,
/// falling back to the title only when it sets no app id at all. A title is
/// free text, and matching it for classed windows would let any browser tab
/// be taken out of tiling.
pub fn matches_dock(app_id: &str, title: &str, identity: &str) -> (b: bool)
    ensures
        b == is_dock(app_id@, title@, identity@),
{
    if !app_id.is_empty() {
        return eq_ignore_ascii_case(app_id, identity);
    }
    same_str(title, identity)
}

/// What a new window becomes.
pub open spec fn class_of(dock_match: bool, docked: bool, h: Hints) -> Class {
    if dock_match && !docked {
        Class::Dock
    } else if h.floats() {
        Class::Float
    } else {
        Class::Tiled
    }
}

/// Decide what a window is: the dock while none is docked, a float if it
/// wants to be one, tiled otherwise.
pub fn classify(dock_match: bool, docked: bool, h: &Hints) -> (c: Class)
    ensures
        c == class_of(dock_match, docked, *h),
{
    if dock_match && !docked {
        Class::Dock
    } else if wants_float(h) {
        Class::Float
    } else {
        Class::Tiled
    }
}

/// The column width a window asks for by being `w` wide.
pub open spec fn asked_width(w: i32, th: Theme) -> Option<i32> {
    if w > 0 {
        Some((w + 2 * th.border_left) as i32)
    } else {
        None
    }
}

/// The column width a new window asks for: its own width plus the frame
/// borders, if it states one.
pub fn wanted_width(w: i32, th: &Theme) -> (want: Option<i32>)
    requires
        th.wf(),
        fits_i32(w + 2 * th.border_left),
    ensures
        want == asked_width(w, *th),
{
    if w > 0 {
        Some(w + 2 * th.border_left)
    } else {
        None
    }
}

/// `v` moved into the range from `lo` to the larger of `hi` and `lo`.
pub open spec fn clamped(v: int, lo: int, hi: int) -> int {
    let top = imax(hi, lo);
    if v < lo {
        lo
    } else if v > top {
        top
    } else {
        v
    }
}

fn clamp_i64(v: i64, lo: i64, hi: i64) -> (c: i64)
    ensures
        c == clamped(v as int, lo as int, hi as int),
{
    let top: i64 = if hi >= lo {
        hi
    } else {
        lo
    };
    if v < lo {
        lo
    } else if v > top {
        top
    } else {
        v
    }
}

/// Where a new float of this size goes: centered over `around`, kept
/// inside the work area as far as it fits there.
pub open spec fn float_place(around: Rect, wa: Rect, w: int, h: int) -> Rect {
    let cw = imax(w, 1);
    let ch = imax(h, 1);
    Rect {
        x: clamped(
            around.x + half(around.w - cw),
            wa.x as int,
            wa.x + wa.w - cw,
        ) as i32,
        y: clamped(
            around.y + half(around.h - ch),
            wa.y as int,
            wa.y + wa.h - ch,
        ) as i32,
        w: cw as i32,
        h: ch as i32,
    }
}

/// Place a new float: centered over its parent's frame when that is on
/// screen, otherwise in the work area.
pub fn place_float(parent_frame: Option<Rect>, wa: Rect, w: i32, h: i32) -> (r: Rect)
    requires
        fits_i32(wa.x + wa.w),
        fits_i32(wa.y + wa.h),
        parent_frame is Some ==> {
            let p = parent_frame->0;
            fits_i32(p.w - imax(w as int, 1)) && fits_i32(p.h - imax(h as int, 1))
        },
        fits_i32(wa.w - imax(w as int, 1)),
        fits_i32(wa.h - imax(h as int, 1)),
    ensures
        r == float_place(
            match parent_frame {
                Some(p) => p,
                None => wa,
            },
            wa,
            w as int,
            h as int,
        ),
        r.w <= wa.w ==> wa.x <= r.x && r.right() <= wa.right(),
        r.h <= wa.h ==> wa.y <= r.y && r.bottom() <= wa.bottom(),
{
    let around = match parent_frame {
        Some(p) => p,
        None => wa,
    };
    let cw: i32 = max_i32(w, 1);
    let ch: i32 = max_i32(h, 1);
    let x: i64 = clamp_i64(
        around.x as i64 + half_i32(around.w - cw) as i64,
        wa.x as i64,
        wa.x as i64 + wa.w as i64 - cw as i64,
    );
    let y: i64 = clamp_i64(
        around.y as i64 + half_i32(around.h - ch) as i64,
        wa.y as i64,
        wa.y as i64 + wa.h as i64 - ch as i64,
    );
    Rect { x: x as i32, y: y as i32, w: cw, h: ch }
}

/// The scroll room past the strip's end that the dock needs.
pub open spec fn extra_room(dock: Option<DockData>, overlap: int, layer_extra: int) -> int {
    match dock {
        Some(d) => d.w - overlap,
        None => layer_extra,
    }
}

/// Where the dock is on screen.
pub open spec fn dock_place(
    d: DockData,
    wa_x: int,
    canvas_w: int,
    overlap: int,
    scroll_x: int,
    output_h: int,
) -> Rect {
    Rect {
        x: (wa_x + canvas_w - overlap - scroll_x) as i32,
        y: 0,
        w: imax(d.w as int, 1) as i32,
        h: imax(output_h, 1) as i32,
    }
}

/// The extra scroll room the docked sidebar needs: its width minus the
/// strip already tucked under the canvas edge; that of a layer panel while
/// no window is docked.
pub fn dock_extra(dock: Option<DockData>, overlap: i32, layer_extra: i32) -> (extra: i32)
    requires
        dock is Some ==> fits_i32(dock->0.w - overlap),
    ensures
        extra == extra_room(dock, overlap as int, layer_extra as int),
{
    match dock {
        Some(d) => d.w - overlap,
        None => layer_extra,
    }
}

/// The dock's pinned screen geometry: parked at the right end of the tiling
/// canvas, tucked `overlap` px under it, shifted by the current scroll like
/// any other leaf, and as tall as the output.
pub fn dock_geometry(
    d: DockData,
    wa_x: i32,
    canvas_w: i32,
    overlap: i32,
    scroll_x: i32,
    output_h: i32,
) -> (r: Rect)
    requires
        fits_i32(wa_x + canvas_w),
        fits_i32(wa_x + canvas_w - overlap),
        fits_i32(wa_x + canvas_w - overlap - scroll_x),
    ensures
        r == dock_place(
            d,
            wa_x as int,
            canvas_w as int,
            overlap as int,
            scroll_x as int,
            output_h as int,
        ),
{
    Rect {
        x: wa_x + canvas_w - overlap - scroll_x,
        y: 0,
        w: max_i32(d.w, 1),
        h: max_i32(output_h, 1),
    }
}

/// A toplevel between role creation and its first buffer commit, by its
/// surface's number.
#[derive(Clone, Copy, PartialEq, Eq, Debug, Structural)]
pub struct PendingWindow {
    pub surface: u32,
    /// The client requested fullscreen before mapping; honoured once the
    /// window is classified.
    pub fullscreen: bool,
}

/// The toplevels that are not classified yet, oldest first.
pub struct Pending {
    pub list: Vec<PendingWindow>,
}

/// The first record of this surface from `k` on; the length if none.
pub open spec fn pending_from(s: Seq<PendingWindow>, surface: u32, k: int) -> int
    decreases s.len() - k,
{
    if k >= s.len() {
        s.len() as int
    } else if s[k].surface == surface {
        k
    } else {
        pending_from(s, surface, k + 1)
    }
}

/// `s` without the records of this surface.
pub open spec fn without_pending(s: Seq<PendingWindow>, surface: u32) -> Seq<PendingWindow>
    decreases s.len(),
{
    if s.len() == 0 {
        s
    } else if s.last().surface == surface {
        without_pending(s.drop_last(), surface)
    } else {
        without_pending(s.drop_last(), surface).push(s.last())
    }
}

/// The pending window that a commit of `surface` maps.
pub open spec fn mapped_by(s: Seq<PendingWindow>, surface: u32, has_buffer: bool) -> Option<
    PendingWindow,
> {
    let k = pending_from(s, surface, 0);
    if has_buffer && k < s.len() {
        Some(s[k])
    } else {
        None
    }
}

/// The windows still pending after a commit of `surface`.
pub open spec fn left_by(s: Seq<PendingWindow>, surface: u32, has_buffer: bool) -> Seq<
    PendingWindow,
> {
    let k = pending_from(s, surface, 0);
    if has_buffer && k < s.len() {
        s.remove(k)
    } else {
        s
    }
}

/// The pending windows with `surface` marked to map fullscreen, or not.
pub open spec fn marked(s: Seq<PendingWindow>, surface: u32, fullscreen: bool) -> Seq<
    PendingWindow,
> {
    let k = pending_from(s, surface, 0);
    if k < s.len() {
        s.update(k, PendingWindow { surface: s[k].surface, fullscreen })
    } else {
        s
    }
}

impl Pending {
    /// A role was created: classification waits for the first buffer.
    pub fn new_toplevel(&mut self, surface: u32)
        ensures
            final(self).list@ == old(self).list@.push(
                PendingWindow { surface, fullscreen: false },
            ),
    {
        self.list.push(PendingWindow { surface, fullscreen: false });
    }

    fn find(&self, surface: u32) -> (at: usize)
        ensures
            at == pending_from(self.list@, surface, 0),
            at <= self.list@.len(),
    {
        let mut k: usize = 0;
        while k < self.list.len()
            invariant
                k <= self.list@.len(),
                pending_from(self.list@, surface, 0) == pending_from(
                    self.list@,
                    surface,
                    k as int,
                ),
            decreases self.list@.len() - k,
        {
            if self.list[k].surface == surface {
                return k;
            }
            k = k + 1;
        }
        k
    }

    /// The first buffer commit maps a pending toplevel: its record leaves,
    /// with the fullscreen request it carries.
    pub fn commit(&mut self, surface: u32, has_buffer: bool) -> (mapped: Option<PendingWindow>)
        ensures
            mapped == mapped_by(old(self).list@, surface, has_buffer),
            final(self).list@ == left_by(old(self).list@, surface, has_buffer),
    {
        let at: usize = self.find(surface);
        if has_buffer && at < self.list.len() {
            Some(self.list.remove(at))
        } else {
            None
        }
    }

    /// A toplevel was destroyed before it mapped.
    pub fn forget(&mut self, surface: u32)
        ensures
            final(self).list@ == without_pending(old(self).list@, surface),
    {
        let mut kept: Vec<PendingWindow> = Vec::new();
        let mut k: usize = 0;
        while k < self.list.len()
            invariant
                k <= self.list@.len(),
                self.list@ == old(self).list@,
                kept@ == without_pending(self.list@.take(k as int), surface),
            decreases self.list@.len() - k,
        {
            proof {
                assert(self.list@.take(k + 1).drop_last() =~= self.list@.take(k as int));
                assert(self.list@.take(k + 1).last() == self.list@[k as int]);
            }
            if self.list[k].surface != surface {
                kept.push(self.list[k]);
            }
            k = k + 1;
        }
        proof {
            assert(self.list@.take(k as int) =~= self.list@);
        }
        self.list = kept;
    }

    /// Record a fullscreen request, or its withdrawal, made before mapping.
    pub fn set_fullscreen(&mut self, surface: u32, fullscreen: bool)
        ensures
            final(self).list@ == marked(old(self).list@, surface, fullscreen),
    {
        let at: usize = self.find(surface);
        if at < self.list.len() {
            self.list[at].fullscreen = fullscreen;
        }
    }
}

/// Whether a popup may not grab: another surface holds the keyboard or the
/// pointer.
pub open spec fn grab_refused(
    keyboard_grabbed: bool,
    keyboard_ours: bool,
    pointer_grabbed: bool,
    pointer_ours: bool,
) -> bool {
    keyboard_grabbed && !keyboard_ours || pointer_grabbed && !pointer_ours
}

/// Whether a popup grab is refused: a grab held by anyone else, on the
/// keyboard or the pointer, wins.
pub fn popup_grab_refused(
    keyboard_grabbed: bool,
    keyboard_ours: bool,
    pointer_grabbed: bool,
    pointer_ours: bool,
) -> (refused: bool)
    ensures
        refused == grab_refused(keyboard_grabbed, keyboard_ours, pointer_grabbed, pointer_ours),
{
    keyboard_grabbed && !keyboard_ours || pointer_grabbed && !pointer_ours
}

/// What the destruction of a window calls for.
#[derive(Clone, Copy, PartialEq, Eq, Debug, Structural)]
pub enum Destroyed {
    /// It was not managed.
    Unknown,
    /// Its split goes with it.
    Tiled,
    /// Focus goes back to this parent's split, if any.
    Float(Option<Win>),
    /// The scroll room it needed is gone.
    Dock,
}

/// What is known of a window when its first buffer arrives.
#[derive(Clone, Copy, PartialEq, Eq, Debug, Structural)]
pub struct NewWindow {
    /// It is the dock, by name.
    pub dock_match: bool,
    pub hints: Hints,
    /// The size it chose for itself.
    pub w: i32,
    pub h: i32,
    /// The managed window it belongs to, and that window's accent.
    pub parent: Option<Win>,
    pub accent: Index,
    /// It asked to be fullscreen before it was mapped.
    pub fullscreen: bool,
}

impl NewWindow {
    /// The role it is given, `docked` saying whether the dock's is taken.
    pub open spec fn class(self, docked: bool) -> Class {
        class_of(self.dock_match, docked, self.hints)
    }

    /// What the store is told of it.
    pub open spec fn kind(self, docked: bool, around: Rect, wa: Rect) -> Kind {
        match self.class(docked) {
            Class::Dock => Kind::Dock(DockData { w: imax(self.w as int, 1) as i32 }),
            Class::Float => {
                let place = float_place(around, wa, self.w as int, self.h as int);
                Kind::Float(
                    FloatData {
                        parent: self.parent,
                        x: place.x,
                        y: place.y,
                        w: place.w,
                        h: place.h,
                        accent: self.accent,
                        frame: FrameTex::Stale(None),
                    },
                )
            },
            Class::Tiled => Kind::Tiled,
        }
    }
}

/// How a window came to be managed.
#[derive(Clone, Copy, PartialEq, Eq, Debug, Structural)]
pub enum Managing {
    Dock(Win),
    Float(Win),
    /// With the width its column opens at, if it states one.
    Tiled(Win, Option<i32>),
}

/// What the end of window `win` means.
pub open spec fn destroyed_of(s: Store, focused_float: Option<Win>, win: Win) -> Destroyed {
    if !s.has(win) {
        Destroyed::Unknown
    } else {
        match s.entry(win).kind {
            Kind::Tiled => Destroyed::Tiled,
            Kind::Float(f) => Destroyed::Float(
                if focused_float == Some(win) {
                    f.parent
                } else {
                    None
                },
            ),
            Kind::Dock(_) => Destroyed::Dock,
        }
    }
}

/// Window bookkeeping beyond the store: float stacking, and the two records
/// that are only handed out re-validated.
pub struct WindowRoles {
    /// Float stacking, topmost first.
    pub float_stack: Vec<Win>,
    /// The window holding the keyboard outside the layout.
    pub focused_float: Option<Win>,
    /// The fullscreen tiled client, covering the whole output above every
    /// tiled window.
    pub fullscreen: Option<Win>,
}

/// `s` without the entries for `win`.
pub open spec fn without(s: Seq<Win>, win: Win) -> Seq<Win>
    decreases s.len(),
{
    if s.len() == 0 {
        s
    } else if s.last() == win {
        without(s.drop_last(), win)
    } else {
        without(s.drop_last(), win).push(s.last())
    }
}

/// Leaving a window out keeps the others, in their order.
pub proof fn lemma_without(s: Seq<Win>, win: Win)
    ensures
        !without(s, win).contains(win),
        forall|w: Win| w != win ==> #[trigger] without(s, win).contains(w) == s.contains(w),
        s.no_duplicates() ==> without(s, win).no_duplicates(),
        without(s, win).len() <= s.len(),
    decreases s.len(),
{
    if s.len() > 0 {
        let rest = s.drop_last();
        lemma_without(rest, win);
        let out = without(s, win);
        assert forall|w: Win| w != win implies #[trigger] out.contains(w) == s.contains(w) by {
            assert(without(rest, win).contains(w) == rest.contains(w));
            if rest.contains(w) {
                let i = choose|i: int| 0 <= i < rest.len() && rest[i] == w;
                assert(s[i] == w);
            }
            if s.contains(w) {
                let i = choose|i: int| 0 <= i < s.len() && s[i] == w;
                if i < rest.len() {
                    assert(rest[i] == w);
                }
            }
            if s.last() != win {
                if without(rest, win).contains(w) {
                    let i = choose|i: int|
                        0 <= i < without(rest, win).len() && without(rest, win)[i] == w;
                    assert(out[i] == w);
                }
                assert(out[out.len() - 1] == s.last());
                if out.contains(w) {
                    let i = choose|i: int| 0 <= i < out.len() && out[i] == w;
                    if i < out.len() - 1 {
                        assert(without(rest, win)[i] == w);
                    } else {
                        assert(s[s.len() - 1] == w);
                    }
                }
            }
        }
        if s.last() != win && out.contains(win) {
            let i = choose|i: int| 0 <= i < out.len() && out[i] == win;
            if i < out.len() - 1 {
                assert(without(rest, win)[i] == win);
            }
        }
        if s.no_duplicates() {
            assert(rest.no_duplicates());
            if s.last() != win {
                assert(!rest.contains(s.last())) by {
                    if rest.contains(s.last()) {
                        let i = choose|i: int| 0 <= i < rest.len() && rest[i] == s.last();
                        assert(s[i] == s[s.len() - 1]);
                    }
                }
                assert(without(rest, win).contains(s.last()) == rest.contains(s.last()));
                assert(out.no_duplicates()) by {
                    assert forall|i: int, j: int|
                        0 <= i < out.len() && 0 <= j < out.len() && i != j implies out[i]
                        != out[j] by {
                        if i == out.len() - 1 && j < out.len() - 1 {
                            assert(without(rest, win)[j] == out[j]);
                        }
                        if j == out.len() - 1 && i < out.len() - 1 {
                            assert(without(rest, win)[i] == out[i]);
                        }
                    }
                }
            }
        }
    }
}

/// `s` without the entries for `win`.
fn retain_other(s: &Vec<Win>, win: Win) -> (out: Vec<Win>)
    ensures
        out@ == without(s@, win),
{
    let mut out: Vec<Win> = Vec::new();
    let mut k: usize = 0;
    while k < s.len()
        invariant
            k <= s@.len(),
            out@ == without(s@.take(k as int), win),
        decreases s@.len() - k,
    {
        proof {
            assert(s@.take(k + 1).drop_last() =~= s@.take(k as int));
            assert(s@.take(k + 1).last() == s@[k as int]);
        }
        if s[k] != win {
            out.push(s[k]);
        }
        k = k + 1;
    }
    proof {
        assert(s@.take(k as int) =~= s@);
    }
    out
}

impl Default for WindowRoles {
    fn default() -> (r: WindowRoles)
        ensures
            r.float_stack@ == Seq::<Win>::empty(),
            r.focused_float is None,
            r.fullscreen is None,
    {
        WindowRoles { float_stack: Vec::new(), focused_float: None, fullscreen: None }
    }
}

/// The fullscreen window after `win` asked to be it no more.
pub open spec fn without_fullscreen(was: Option<Win>, win: Option<Win>) -> Option<Win> {
    if was == win {
        None
    } else {
        was
    }
}

/// The focused float, where it still is one.
pub open spec fn floating(s: Store, focused: Option<Win>) -> Option<Win> {
    match focused {
        Some(w) => if s.is_float(w) {
            Some(w)
        } else {
            None
        },
        None => None,
    }
}

/// The window that has the keyboard before the layout: a focused float or
/// the focused dock, where it still is one.
pub open spec fn overriding(s: Store, focused: Option<Win>) -> Option<Win> {
    match focused {
        Some(w) => if s.is_float(w) || s.is_dock(w) {
            Some(w)
        } else {
            None
        },
        None => None,
    }
}

impl WindowRoles {
    /// The float stack holds every managed float exactly once.
    pub open spec fn matches(self, s: Store) -> bool {
        &&& self.float_stack@.no_duplicates()
        &&& forall|w: Win| #[trigger] self.float_stack@.contains(w) <==> s.is_float(w)
    }

    /// The stack with `win` raised to its top.
    pub open spec fn raised(self, win: Win) -> Seq<Win> {
        seq![win] + without(self.float_stack@, win)
    }

    /// Give a float the keyboard and raise it to the top of the float
    /// stack. Anything but a managed float is left alone.
    pub fn focus_float(&mut self, managed: &Managed, win: Win) -> (focused: bool)
        requires
            managed@.wf(),
            old(self).matches(managed@),
        ensures
            final(self).matches(managed@),
            focused == managed@.is_float(win),
            final(self).float_stack@ == (if focused {
                old(self).raised(win)
            } else {
                old(self).float_stack@
            }),
            final(self).focused_float == (if focused {
                Some(win)
            } else {
                old(self).focused_float
            }),
            final(self).fullscreen == old(self).fullscreen,
    {
        if managed.float(win).is_none() {
            return false;
        }
        let ghost was = self.float_stack@;
        let mut stack = retain_other(&self.float_stack, win);
        stack.insert(0, win);
        self.float_stack = stack;
        self.focused_float = Some(win);
        proof {
            assert(stack@ =~= seq![win] + without(was, win));
            lemma_raised(was, win);
        }
        true
    }

    /// The focused float, re-validated against the store, so that a
    /// dangling record is never handed out.
    pub fn focused_float(&self, managed: &Managed) -> (res: Option<Win>)
        requires
            managed@.wf(),
        ensures
            res == floating(managed@, self.focused_float),
    {
        match self.focused_float {
            Some(w) => if managed.float(w).is_some() {
                Some(w)
            } else {
                None
            },
            None => None,
        }
    }

    /// The fullscreen client, if it is still managed. A window id is never
    /// reused, so a dead one cannot alias a later window.
    pub fn fullscreen(&self, managed: &Managed) -> (res: Option<Win>)
        requires
            managed@.wf(),
        ensures
            res == (match self.fullscreen {
                Some(w) => if managed@.has(w) {
                    Some(w)
                } else {
                    None
                },
                None => None,
            }),
    {
        match self.fullscreen {
            Some(w) => if managed.contains(w) {
                Some(w)
            } else {
                None
            },
            None => None,
        }
    }

    /// The window holding the keyboard outside the layout: a focused float,
    /// or the dock after a click on it.
    pub fn keyboard_override(&self, managed: &Managed) -> (res: Option<Win>)
        requires
            managed@.wf(),
        ensures
            res == overriding(managed@, self.focused_float),
    {
        match self.focused_float {
            Some(w) => match managed.kind_of(w) {
                Some(Kind::Float(_)) => Some(w),
                Some(Kind::Dock(_)) => Some(w),
                _ => None,
            },
            None => None,
        }
    }

    /// Hand the keyboard to a non-tiled window.
    pub fn focus_override(&mut self, win: Win)
        ensures
            *final(self) == (WindowRoles { focused_float: Some(win), ..*old(self) }),
    {
        self.focused_float = Some(win);
    }

    pub fn clear_focused_float(&mut self)
        ensures
            *final(self) == (WindowRoles { focused_float: None, ..*old(self) }),
    {
        self.focused_float = None;
    }

    /// Manage a tiled window; a pre-map fullscreen request is honoured.
    pub fn manage_tiled(&mut self, managed: &mut Managed, fullscreen: bool) -> (win: Win)
        requires
            old(managed)@.wf(),
            old(managed)@.next < u32::MAX,
            old(self).matches(old(managed)@),
        ensures
            final(managed)@.wf(),
            final(self).matches(final(managed)@),
            win == old(managed)@.next + 1,
            final(managed)@ == old(managed)@.inserted(Kind::Tiled),
            final(managed)@.is_tiled(win),
            *final(self) == (WindowRoles {
                fullscreen: if fullscreen {
                    Some(win)
                } else {
                    old(self).fullscreen
                },
                ..*old(self)
            }),
    {
        let ghost was = managed@;
        let win: Win = managed.insert(Kind::Tiled);
        if fullscreen {
            self.fullscreen = Some(win);
        }
        proof {
            lemma_inserted(was, Kind::Tiled);
            assert forall|w: Win| #[trigger] self.float_stack@.contains(w) <==> managed@.is_float(
                w,
            ) by {
                if w != win {
                    assert(managed@.has(w) == was.has(w));
                }
            }
        }
        win
    }

    /// Manage a float at `place`, on top of the stack and with the keyboard:
    /// a dialog exists to be answered.
    pub fn manage_float(
        &mut self,
        managed: &mut Managed,
        parent: Option<Win>,
        place: Rect,
        accent: Index,
    ) -> (win: Win)
        requires
            old(managed)@.wf(),
            old(managed)@.next < u32::MAX,
            old(self).matches(old(managed)@),
        ensures
            final(managed)@.wf(),
            final(self).matches(final(managed)@),
            win == old(managed)@.next + 1,
            final(managed)@ == old(managed)@.inserted(
                Kind::Float(
                    FloatData {
                        parent,
                        x: place.x,
                        y: place.y,
                        w: place.w,
                        h: place.h,
                        accent,
                        frame: FrameTex::Stale(None),
                    },
                ),
            ),
            final(managed)@.is_float(win),
            final(self).float_stack@ == seq![win] + old(self).float_stack@,
            final(self).focused_float == Some(win),
            final(self).fullscreen == old(self).fullscreen,
    {
        let ghost was = managed@;
        let ghost stack = self.float_stack@;
        let data = FloatData {
            parent,
            x: place.x,
            y: place.y,
            w: place.w,
            h: place.h,
            accent,
            frame: FrameTex::Stale(None),
        };
        let ghost kind = Kind::Float(data);
        let win: Win = managed.insert(Kind::Float(data));
        self.float_stack.insert(0, win);
        self.focused_float = Some(win);
        proof {
            assert(self.float_stack@ =~= seq![win] + stack);
            lemma_inserted(was, kind);
            assert(!stack.contains(win));
            lemma_pushed_front(stack, win);
        }
        win
    }

    /// Pin a window as the borderless sidebar past the right end of the
    /// canvas, at the width it asked for. Only while none is docked.
    pub fn manage_dock(&mut self, managed: &mut Managed, w: i32) -> (win: Win)
        requires
            old(managed)@.wf(),
            old(managed)@.next < u32::MAX,
            old(managed)@.dock_from(0) is None,
            old(self).matches(old(managed)@),
        ensures
            final(managed)@.wf(),
            final(self).matches(final(managed)@),
            win == old(managed)@.next + 1,
            final(managed)@ == old(managed)@.inserted(
                Kind::Dock(DockData { w: imax(w as int, 1) as i32 }),
            ),
            final(managed)@.is_dock(win),
            forall|other: Win| #[trigger] final(managed)@.is_dock(other) ==> other == win,
            *final(self) == *old(self),
    {
        let ghost was = managed@;
        let d = DockData { w: max_i32(w, 1) };
        let win: Win = managed.insert(Kind::Dock(d));
        proof {
            lemma_inserted(was, Kind::Dock(d));
            assert forall|w: Win| #[trigger] self.float_stack@.contains(w) <==> managed@.is_float(
                w,
            ) by {
                if w != win {
                    assert(managed@.has(w) == was.has(w));
                }
            }
            assert forall|other: Win| #[trigger] managed@.is_dock(other) implies other == win by {
                if other != win {
                    assert(was.has(other));
                    assert(was.sits(other, was.at(other)));
                    lemma_no_dock(was, 0, was.at(other));
                }
            }
        }
        win
    }

    /// Decide what a window is and manage it accordingly. A fullscreen
    /// request is honoured only for a tiled one.
    pub fn classify_and_manage(
        &mut self,
        managed: &mut Managed,
        n: &NewWindow,
        parent_frame: Option<Rect>,
        wa: Rect,
        th: &Theme,
    ) -> (m: Managing)
        requires
            old(managed)@.wf(),
            old(managed)@.next < u32::MAX,
            old(self).matches(old(managed)@),
            th.wf(),
            fits_i32(n.w + 2 * th.border_left),
            fits_i32(wa.x + wa.w),
            fits_i32(wa.y + wa.h),
            parent_frame is Some ==> fits_i32(parent_frame->0.w - imax(n.w as int, 1)) && fits_i32(
                parent_frame->0.h - imax(n.h as int, 1),
            ),
            fits_i32(wa.w - imax(n.w as int, 1)),
            fits_i32(wa.h - imax(n.h as int, 1)),
        ensures
            final(managed)@.wf(),
            final(self).matches(final(managed)@),
            ({
                let win = (old(managed)@.next + 1) as Win;
                let docked = old(managed)@.dock_from(0) is Some;
                let class = n.class(docked);
                &&& final(managed)@ == old(managed)@.inserted(
                    n.kind(
                        docked,
                        match parent_frame {
                            Some(p) => p,
                            None => wa,
                        },
                        wa,
                    ),
                )
                &&& m == (match class {
                    Class::Dock => Managing::Dock(win),
                    Class::Float => Managing::Float(win),
                    Class::Tiled => Managing::Tiled(win, asked_width(n.w, *th)),
                })
                &&& final(self).float_stack@ == (if class is Float {
                    seq![win] + old(self).float_stack@
                } else {
                    old(self).float_stack@
                })
                &&& final(self).focused_float == (if class is Float {
                    Some(win)
                } else {
                    old(self).focused_float
                })
                &&& final(self).fullscreen == (if class is Tiled && n.fullscreen {
                    Some(win)
                } else {
                    old(self).fullscreen
                })
            }),
    {
        let docked = managed.dock().is_some();
        match classify(n.dock_match, docked, &n.hints) {
            Class::Dock => Managing::Dock(self.manage_dock(managed, n.w)),
            Class::Float => {
                let place = place_float(parent_frame, wa, n.w, n.h);
                Managing::Float(self.manage_float(managed, n.parent, place, n.accent))
            },
            Class::Tiled => {
                let win: Win = self.manage_tiled(managed, n.fullscreen);
                Managing::Tiled(win, wanted_width(n.w, th))
            },
        }
    }

    /// A float went away: drop its records. Returns the parent whose split
    /// focus goes back to, which is owed only if the float held the
    /// keyboard.
    pub fn forget_float(&mut self, managed: &mut Managed, win: Win) -> (refocus: Option<Win>)
        requires
            old(managed)@.wf(),
            old(self).matches(old(managed)@),
        ensures
            final(managed)@.wf(),
            final(self).matches(final(managed)@),
            final(managed)@ == (if old(managed)@.has(win) {
                old(managed)@.removed(win)
            } else {
                old(managed)@
            }),
            final(self).float_stack@ == without(old(self).float_stack@, win),
            final(self).focused_float == (if old(self).focused_float == Some(win) {
                None
            } else {
                old(self).focused_float
            }),
            final(self).fullscreen == old(self).fullscreen,
            refocus == (if old(self).focused_float == Some(win) && old(managed)@.is_float(win) {
                old(managed)@.entry(win).kind->Float_0.parent
            } else {
                None
            }),
    {
        let ghost was = managed@;
        let ghost stack = self.float_stack@;
        let parent = match managed.remove(win) {
            Some(m) => match m.kind {
                Kind::Float(f) => f.parent,
                _ => None,
            },
            None => None,
        };
        self.float_stack = retain_other(&self.float_stack, win);
        proof {
            lemma_without(stack, win);
            if was.has(win) {
                lemma_removed(was, win);
            }
            assert forall|w: Win| #[trigger] self.float_stack@.contains(w) <==> managed@.is_float(
                w,
            ) by {
                if w != win {
                    assert(was.has(w) == managed@.has(w));
                }
            }
        }
        if self.focused_float == Some(win) {
            self.focused_float = None;
            parent
        } else {
            None
        }
    }

    /// A managed window was destroyed: drop it by its role. It stops being
    /// the fullscreen one.
    pub fn window_destroyed(&mut self, managed: &mut Managed, win: Win) -> (d: Destroyed)
        requires
            old(managed)@.wf(),
            old(self).matches(old(managed)@),
        ensures
            final(managed)@.wf(),
            final(self).matches(final(managed)@),
            !final(managed)@.has(win),
            final(managed)@ == (if old(managed)@.has(win) {
                old(managed)@.removed(win)
            } else {
                old(managed)@
            }),
            d == destroyed_of(old(managed)@, old(self).focused_float, win),
            final(self).fullscreen == (if old(managed)@.has(win) && old(self).fullscreen == Some(
                win,
            ) {
                None
            } else {
                old(self).fullscreen
            }),
            final(self).float_stack@ == (if old(managed)@.is_float(win) {
                without(old(self).float_stack@, win)
            } else {
                old(self).float_stack@
            }),
            final(self).focused_float == (if old(managed)@.is_float(win) && old(
                self,
            ).focused_float == Some(win) {
                None
            } else {
                old(self).focused_float
            }),
    {
        let ghost was = managed@;
        let tag: u8 = match managed.kind_of(win) {
            Some(Kind::Tiled) => 1,
            Some(Kind::Float(_)) => 2,
            Some(Kind::Dock(_)) => 3,
            None => {
                return Destroyed::Unknown;
            },
        };
        if self.fullscreen == Some(win) {
            self.fullscreen = None;
        }
        if tag == 2 {
            let parent = self.forget_float(managed, win);
            proof {
                lemma_removed(was, win);
            }
            Destroyed::Float(parent)
        } else {
            let _gone = managed.remove(win);
            proof {
                lemma_removed(was, win);
                assert forall|w: Win| #[trigger]
                    self.float_stack@.contains(w) <==> managed@.is_float(w) by {
                    if w != win {
                        assert(was.has(w) == managed@.has(w));
                    }
                }
            }
            if tag == 1 {
                Destroyed::Tiled
            } else {
                Destroyed::Dock
            }
        }
    }

    /// A fullscreen request from a managed window.
    pub fn fullscreen_request(&mut self, win: Win)
        ensures
            *final(self) == (WindowRoles { fullscreen: Some(win), ..*old(self) }),
    {
        self.fullscreen = Some(win);
    }

    /// A fullscreen request is withdrawn: only the window it stands for can
    /// do that.
    pub fn unfullscreen_request(&mut self, win: Option<Win>)
        ensures
            *final(self) == (WindowRoles {
                fullscreen: without_fullscreen(old(self).fullscreen, win),
                ..*old(self)
            }),
    {
        if self.fullscreen == win {
            self.fullscreen = None;
        }
    }

    /// A tiled window is gone: drop it from the store.
    pub fn unmanage_tiled(&mut self, managed: &mut Managed, win: Win)
        requires
            old(managed)@.wf(),
            old(managed)@.is_tiled(win),
            old(self).matches(old(managed)@),
        ensures
            final(managed)@.wf(),
            final(self).matches(final(managed)@),
            final(managed)@ == old(managed)@.removed(win),
            !final(managed)@.has(win),
            *final(self) == *old(self),
    {
        let ghost was = managed@;
        let _gone = managed.remove(win);
        proof {
            lemma_removed(was, win);
            assert forall|w: Win| #[trigger] self.float_stack@.contains(w) <==> managed@.is_float(
                w,
            ) by {
                if w != win {
                    assert(was.has(w) == managed@.has(w));
                }
            }
        }
    }
}

proof fn lemma_no_dock(s: Store, k: int, at: int)
    requires
        0 <= k <= at < s.entries.len(),
        s.dock_from(k) is None,
    ensures
        !(s.entries[at].kind is Dock),
    decreases at - k,
{
    if k < at {
        lemma_no_dock(s, k + 1, at);
    }
}

pub(crate) proof fn lemma_inserted(s: Store, kind: Kind)
    requires
        s.wf(),
        s.next < u32::MAX,
    ensures
        forall|w: Win|
            w != s.next + 1 ==> #[trigger] s.inserted(kind).has(w) == s.has(w) && (s.has(w)
                ==> s.inserted(kind).entry(w) == s.entry(w)),
        !s.has((s.next + 1) as u32),
        s.inserted(kind).has((s.next + 1) as u32),
        s.inserted(kind).entry((s.next + 1) as u32).kind == kind,
        s.inserted(kind).wf(),
{
    let n = s.inserted(kind);
    let win = (s.next + 1) as u32;
    assert(n.sits(win, s.entries.len() as int));
    lemma_at(n, win, s.entries.len() as int);
    if s.has(win) {
        assert(s.sits(win, s.at(win)));
    }
    assert forall|w: Win| w != s.next + 1 implies #[trigger] n.has(w) == s.has(w) && (s.has(w)
        ==> n.entry(w) == s.entry(w)) by {
        if s.has(w) {
            assert(s.sits(w, s.at(w)));
            assert(n.sits(w, s.at(w)));
            lemma_at(n, w, s.at(w));
        }
        if n.has(w) {
            assert(n.sits(w, n.at(w)));
            assert(s.sits(w, n.at(w)));
        }
    }
}

proof fn lemma_pushed_front(s: Seq<Win>, win: Win)
    requires
        s.no_duplicates(),
        !s.contains(win),
    ensures
        (seq![win] + s).no_duplicates(),
        forall|w: Win| #[trigger] (seq![win] + s).contains(w) <==> w == win || s.contains(w),
{
    let t = seq![win] + s;
    assert forall|i: int| 1 <= i < t.len() implies #[trigger] t[i] == s[i - 1] by {}
    assert forall|w: Win| #[trigger] t.contains(w) <==> w == win || s.contains(w) by {
        assert(t[0] == win);
        if s.contains(w) {
            let i = choose|i: int| 0 <= i < s.len() && s[i] == w;
            assert(t[i + 1] == w);
        }
        if t.contains(w) {
            let i = choose|i: int| 0 <= i < t.len() && t[i] == w;
            if i > 0 {
                assert(s[i - 1] == w);
            }
        }
    }
    assert forall|i: int, j: int| 0 <= i < t.len() && 0 <= j < t.len() && i != j implies t[i]
        != t[j] by {
        if i == 0 {
            assert(s[j - 1] == t[j]);
            assert(s.contains(s[j - 1]));
        } else if j == 0 {
            assert(s.contains(s[i - 1]));
        } else {
            assert(s[i - 1] != s[j - 1]);
        }
    }
}

proof fn lemma_raised(s: Seq<Win>, win: Win)
    requires
        s.no_duplicates(),
        s.contains(win),
    ensures
        (seq![win] + without(s, win)).no_duplicates(),
        forall|w: Win|
            #[trigger] (seq![win] + without(s, win)).contains(w) <==> s.contains(w),
{
    lemma_without(s, win);
    lemma_pushed_front(without(s, win), win);
    assert forall|w: Win|
        #[trigger] (seq![win] + without(s, win)).contains(w) <==> s.contains(w) by {
        if w != win {
            assert(without(s, win).contains(w) == s.contains(w));
        }
    }
}

} // verus!
