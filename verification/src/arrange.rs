//! Placing windows: what each arrange configures, shows and hides, and the
//! layout transition it arms.

use crate::geom::{fits_i32, imax, max_i32, narrow_i32, near_i32, Rect};
use crate::layout::{Layout, NodeId, Strip};
use crate::pointer::{frame_of, frame_rect_of, Region};
use crate::shell::{client_area, client_rect_in_frame, frame_fits, Kind, Managed, Store};
use crate::theme::Theme;
use crate::Win;
use vstd::prelude::*;

pub mod laws;

verus! {

/// One leaf on screen: its frame rect, the window it shows, and whether it
/// holds the focus.
#[derive(Clone, Copy, PartialEq, Eq, Debug, Structural)]
pub struct Placement {
    pub leaf: NodeId,
    pub target: Rect,
    pub active_client: Option<Win>,
    pub focused: bool,
}

/// The size a managed window currently has.
#[derive(Clone, Copy, PartialEq, Eq, Debug, Structural)]
pub struct ClientSize {
    pub win: Win,
    pub w: i32,
    pub h: i32,
}

/// A window to show at a client rect. The configure of a shrinking client
/// waits for the end of the transition.
#[derive(Clone, Copy, PartialEq, Eq, Debug, Structural)]
pub struct Show {
    pub win: Win,
    pub rect: Rect,
    pub deferred: bool,
}

/// What one arrange does to the windows.
pub struct Arrangement {
    pub shown: Vec<Show>,
    pub hidden: Vec<Win>,
}

/// The size of `win`: its first entry from `k` on.
pub open spec fn size_from(sizes: Seq<ClientSize>, win: Win, k: int) -> Option<ClientSize>
    decreases sizes.len() - k,
{
    if k >= sizes.len() {
        None
    } else if sizes[k].win == win {
        Some(sizes[k])
    } else {
        size_from(sizes, win, k + 1)
    }
}

fn size_of(sizes: &Vec<ClientSize>, win: Win) -> (res: Option<ClientSize>)
    ensures
        res == size_from(sizes@, win, 0),
{
    let mut k: usize = 0;
    while k < sizes.len()
        invariant
            k <= sizes@.len(),
            size_from(sizes@, win, 0) == size_from(sizes@, win, k as int),
        decreases sizes@.len() - k,
    {
        if sizes[k].win == win {
            return Some(sizes[k]);
        }
        k = k + 1;
    }
    None
}

/// Whether a leaf's window is minimized away.
pub open spec fn hides_client(v: Strip, leaf: NodeId) -> bool {
    v.live(leaf) && v.leaf_of(leaf).minimized
}

/// What a placement shows: its window, unless the leaf is minimized, the
/// window is the fullscreen one, or it is no longer managed.
pub open spec fn show_of(
    v: Strip,
    p: Placement,
    sizes: Seq<ClientSize>,
    fullscreen: Option<Win>,
    animate: bool,
    th: Theme,
) -> Option<Show> {
    match p.active_client {
        None => None,
        Some(c) => if hides_client(v, p.leaf) || fullscreen == Some(c) {
            None
        } else {
            match size_from(sizes, c, 0) {
                None => None,
                Some(cur) => {
                    let r = client_area(p.target, 1, 1, th);
                    Some(
                        Show { win: c, rect: r, deferred: animate && (r.w < cur.w || r.h < cur.h) },
                    )
                },
            }
        },
    }
}

/// What the first `n` placements show.
pub open spec fn shows_to(
    v: Strip,
    placed: Seq<Placement>,
    sizes: Seq<ClientSize>,
    fullscreen: Option<Win>,
    animate: bool,
    th: Theme,
    n: int,
) -> Seq<Show>
    decreases n,
{
    if n <= 0 {
        Seq::empty()
    } else {
        let rest = shows_to(v, placed, sizes, fullscreen, animate, th, n - 1);
        match show_of(v, placed[n - 1], sizes, fullscreen, animate, th) {
            Some(s) => rest.push(s),
            None => rest,
        }
    }
}

/// Everything an arrange shows: the placed windows, and the fullscreen
/// client over the whole output.
pub open spec fn all_shows(
    v: Strip,
    placed: Seq<Placement>,
    sizes: Seq<ClientSize>,
    fullscreen: Option<Win>,
    animate: bool,
    output_w: i32,
    output_h: i32,
    th: Theme,
) -> Seq<Show> {
    let shows = shows_to(v, placed, sizes, fullscreen, animate, th, placed.len() as int);
    match fullscreen {
        Some(fs) => if size_from(sizes, fs, 0) is Some {
            shows.push(
                Show {
                    win: fs,
                    rect: Rect { x: 0, y: 0, w: output_w, h: output_h },
                    deferred: false,
                },
            )
        } else {
            shows
        },
        None => shows,
    }
}

/// Whether some show is for `win`.
pub open spec fn shows_win(shows: Seq<Show>, win: Win) -> bool {
    exists|i: int| 0 <= i < shows.len() && (#[trigger] shows[i]).win == win
}

/// The first `n` tiled windows that nothing shows.
pub open spec fn unshown_to(tiled: Seq<Win>, shows: Seq<Show>, n: int) -> Seq<Win>
    decreases n,
{
    if n <= 0 {
        Seq::empty()
    } else if shows_win(shows, tiled[n - 1]) {
        unshown_to(tiled, shows, n - 1)
    } else {
        unshown_to(tiled, shows, n - 1).push(tiled[n - 1])
    }
}

fn is_shown(shows: &Vec<Show>, win: Win) -> (b: bool)
    ensures
        b == shows_win(shows@, win),
{
    let mut k: usize = 0;
    while k < shows.len()
        invariant
            k <= shows@.len(),
            forall|i: int| 0 <= i < k ==> (#[trigger] shows@[i]).win != win,
        decreases shows@.len() - k,
    {
        if shows[k].win == win {
            return true;
        }
        k = k + 1;
    }
    false
}

/// Decide what the current placements do to the clients: whom to configure
/// and map where, whose configure waits for the end of the transition, and
/// whom to unmap.
pub fn apply_placements(
    layout: &Layout,
    placed: &Vec<Placement>,
    sizes: &Vec<ClientSize>,
    tiled: &Vec<Win>,
    fullscreen: Option<Win>,
    animate: bool,
    output_w: i32,
    output_h: i32,
    th: &Theme,
) -> (a: Arrangement)
    requires
        layout@.wf(),
        th.wf(),
        forall|i: int| 0 <= i < placed@.len() ==> frame_fits((#[trigger] placed@[i]).target, *th),
    ensures
        a.shown@ == all_shows(
            layout@,
            placed@,
            sizes@,
            fullscreen,
            animate,
            output_w,
            output_h,
            *th,
        ),
        a.hidden@ == unshown_to(tiled@, a.shown@, tiled@.len() as int),
{
    let mut shown: Vec<Show> = Vec::new();
    let mut k: usize = 0;
    while k < placed.len()
        invariant
            k <= placed@.len(),
            layout@.wf(),
            th.wf(),
            forall|i: int|
                0 <= i < placed@.len() ==> frame_fits((#[trigger] placed@[i]).target, *th),
            shown@ == shows_to(layout@, placed@, sizes@, fullscreen, animate, *th, k as int),
        decreases placed@.len() - k,
    {
        let p = placed[k];
        k = k + 1;
        if let Some(c) = p.active_client {
            let minimized = match layout.leaf(p.leaf) {
                Some(l) => l.minimized,
                None => false,
            };
            if !minimized && fullscreen != Some(c) {
                if let Some(cur) = size_of(sizes, c) {
                    let r = client_rect_in_frame(p.target, (1, 1), th);
                    shown.push(
                        Show { win: c, rect: r, deferred: animate && (r.w < cur.w || r.h < cur.h) },
                    );
                }
            }
        }
    }
    if let Some(fs) = fullscreen {
        if size_of(sizes, fs).is_some() {
            shown.push(
                Show {
                    win: fs,
                    rect: Rect { x: 0, y: 0, w: output_w, h: output_h },
                    deferred: false,
                },
            );
        }
    }
    let mut hidden: Vec<Win> = Vec::new();
    let mut j: usize = 0;
    while j < tiled.len()
        invariant
            j <= tiled@.len(),
            hidden@ == unshown_to(tiled@, shown@, j as int),
        decreases tiled@.len() - j,
    {
        if !is_shown(&shown, tiled[j]) {
            hidden.push(tiled[j]);
        }
        j = j + 1;
    }
    Arrangement { shown, hidden }
}

/// After an arrange every tiled window is either shown or hidden, never
/// both.
pub proof fn every_tiled_window_is_shown_or_hidden(tiled: Seq<Win>, shows: Seq<Show>, win: Win)
    requires
        tiled.contains(win),
    ensures
        unshown_to(tiled, shows, tiled.len() as int).contains(win) == !shows_win(shows, win),
{
    lemma_unshown(tiled, shows, tiled.len() as int, win);
    let i = choose|i: int| 0 <= i < tiled.len() && tiled[i] == win;
    assert(tiled[i] == win);
}

proof fn lemma_unshown(tiled: Seq<Win>, shows: Seq<Show>, n: int, win: Win)
    requires
        0 <= n <= tiled.len(),
    ensures
        unshown_to(tiled, shows, n).contains(win) == (!shows_win(shows, win) && exists|i: int|
            0 <= i < n && #[trigger] tiled[i] == win),
    decreases n,
{
    if n > 0 {
        lemma_unshown(tiled, shows, n - 1, win);
        let rest = unshown_to(tiled, shows, n - 1);
        let out = unshown_to(tiled, shows, n);
        if !shows_win(shows, tiled[n - 1]) {
            assert(out =~= rest.push(tiled[n - 1]));
            assert(out[rest.len() as int] == tiled[n - 1]);
            if rest.contains(win) {
                let j = choose|j: int| 0 <= j < rest.len() && rest[j] == win;
                assert(out[j] == win);
            }
            if out.contains(win) && win != tiled[n - 1] {
                let j = choose|j: int| 0 <= j < out.len() && out[j] == win;
                assert(rest[j] == win);
            }
        }
    }
}

/// No client is configured smaller while the layout animates: a deferred
/// configure is exactly one that would shrink it.
pub proof fn shrinking_waits_for_the_animation(
    v: Strip,
    p: Placement,
    sizes: Seq<ClientSize>,
    fullscreen: Option<Win>,
    th: Theme,
)
    requires
        show_of(v, p, sizes, fullscreen, true, th) is Some,
    ensures
        ({
            let s = show_of(v, p, sizes, fullscreen, true, th)->0;
            let cur = size_from(sizes, s.win, 0)->0;
            s.deferred == (s.rect.w < cur.w || s.rect.h < cur.h)
        }),
        !(show_of(v, p, sizes, fullscreen, false, th)->0).deferred,
{
}

/// The windows of the strip with their splits, among the first `n` of
/// `ids`.
pub open spec fn bar_to(v: Strip, ids: Seq<NodeId>, n: int) -> Seq<(Win, NodeId)>
    decreases n,
{
    if n <= 0 {
        Seq::empty()
    } else {
        let rest = bar_to(v, ids, n - 1);
        match v.leaf_of(ids[n - 1]).client {
            Some(c) => if v.live(ids[n - 1]) {
                rest.push((c, ids[n - 1]))
            } else {
                rest
            },
            None => rest,
        }
    }
}

/// Taskbar tiles mirror the splits: the bar reads left to right in the
/// order the canvas lays the leaves out in.
pub fn bar_order(layout: &Layout) -> (bar: Vec<(Win, NodeId)>)
    requires
        layout@.wf(),
    ensures
        bar@ == bar_to(
            layout@,
            layout@.ids_to(layout@.columns.len() as int),
            layout@.ids_to(layout@.columns.len() as int).len() as int,
        ),
{
    let ids = layout.collect_leaves();
    let mut bar: Vec<(Win, NodeId)> = Vec::new();
    let mut k: usize = 0;
    while k < ids.len()
        invariant
            k <= ids@.len(),
            layout@.wf(),
            bar@ == bar_to(layout@, ids@, k as int),
        decreases ids@.len() - k,
    {
        if let Some(l) = layout.leaf(ids[k]) {
            if let Some(c) = l.client {
                bar.push((c, ids[k]));
            }
        }
        k = k + 1;
    }
    bar
}

/// How long a layout transition takes, in milliseconds.
pub const ANIM_MS: u64 = 280;

/// An in-flight layout animation: each animated leaf's start rect with its
/// target placement, and the configures withheld from shrinking clients.
/// They are dropped unsent if another arrange replaces the animation, which
/// configures every tiled window itself.
pub struct LayoutAnim {
    /// When it started, in milliseconds.
    pub start: u64,
    pub placed: Vec<(Rect, Placement)>,
    pub deferred: Vec<(Win, Rect)>,
}

/// Where an animated leaf starts: at its previous frame, or, having none,
/// unfolding along the axis it split off.
pub open spec fn start_rect(v: Strip, prev: Seq<Region<NodeId>>, p: Placement) -> Rect {
    match frame_of(prev, p.leaf, 0) {
        Some(r) => r,
        None => if v.live(p.leaf) && v.columns[v.pos_of(p.leaf).col as int].rows.len() > 1 {
            Rect { x: p.target.x, y: p.target.y, w: p.target.w, h: 1 }
        } else {
            Rect { x: p.target.x, y: p.target.y, w: 1, h: p.target.h }
        },
    }
}

/// Arm or cancel the layout animation. A leaf with no previous rect just
/// appeared: a row in a stack unfolds vertically at full width, a new
/// column horizontally at full height. An arrange that does not animate
/// cancels any transition in flight.
pub fn arm_animation(
    layout: &Layout,
    animate: bool,
    placed: &Vec<Placement>,
    prev: &Vec<Region<NodeId>>,
    deferred: Vec<(Win, Rect)>,
    now: u64,
) -> (anim: Option<LayoutAnim>)
    requires
        layout@.wf(),
    ensures
        anim is Some == animate,
        animate ==> {
            let a = anim->0;
            &&& a.start == now
            &&& a.deferred@ == deferred@
            &&& a.placed@ == Seq::new(
                placed@.len(),
                |i: int| (start_rect(layout@, prev@, placed@[i]), placed@[i]),
            )
        },
{
    if !animate {
        return None;
    }
    let mut from: Vec<(Rect, Placement)> = Vec::new();
    let mut k: usize = 0;
    while k < placed.len()
        invariant
            k <= placed@.len(),
            layout@.wf(),
            from@ == Seq::new(
                k as nat,
                |i: int| (start_rect(layout@, prev@, placed@[i]), placed@[i]),
            ),
        decreases placed@.len() - k,
    {
        let p = placed[k];
        let start = match frame_rect_of(prev, p.leaf) {
            Some(r) => r,
            None => {
                let stacked = match layout.locate(p.leaf) {
                    Some(pos) => layout.col_len(pos.col) > 1,
                    None => false,
                };
                if stacked {
                    Rect { x: p.target.x, y: p.target.y, w: p.target.w, h: 1 }
                } else {
                    Rect { x: p.target.x, y: p.target.y, w: 1, h: p.target.h }
                }
            },
        };
        from.push((start, p));
        k = k + 1;
        proof {
            assert(from@ =~= Seq::new(
                k as nat,
                |i: int| (start_rect(layout@, prev@, placed@[i]), placed@[i]),
            ));
        }
    }
    Some(LayoutAnim { start: now, placed: from, deferred })
}

/// Whether `v` is where a coordinate is on its way from `s` to `e`: past `s`
/// by the part of the way that `part` tells.
pub open spec fn on_the_way<F: Fn(i32) -> i32>(part: F, s: i32, e: i32, v: int) -> bool {
    exists|d: i32| #[trigger] call_ensures(part, ((e - s) as i32,), d) && v == s + d
}

/// Whether `r` is a rect on its way from `a` to `b`, never empty.
pub open spec fn eased_rect<F: Fn(i32) -> i32>(part: F, a: Rect, b: Rect, r: Rect) -> bool {
    &&& on_the_way(part, a.x, b.x, r.x as int)
    &&& on_the_way(part, a.y, b.y, r.y as int)
    &&& exists|w: int| #[trigger] on_the_way(part, a.w, b.w, w) && r.w == imax(w, 1)
    &&& exists|h: int| #[trigger] on_the_way(part, a.h, b.h, h) && r.h == imax(h, 1)
}

/// Whether a coordinate stays in range on its way.
pub open spec fn moves<F: Fn(i32) -> i32>(part: F, s: i32, e: i32) -> bool {
    &&& fits_i32(e - s)
    &&& call_requires(part, ((e - s) as i32,))
    &&& forall|d: i32| #[trigger] call_ensures(part, ((e - s) as i32,), d) ==> fits_i32(s + d)
}

/// Whether a rect stays in range on its way.
pub open spec fn eases<F: Fn(i32) -> i32>(part: F, a: Rect, b: Rect) -> bool {
    &&& moves(part, a.x, b.x)
    &&& moves(part, a.y, b.y)
    &&& moves(part, a.w, b.w)
    &&& moves(part, a.h, b.h)
}

fn ease<F: Fn(i32) -> i32>(s: i32, e: i32, part: &F) -> (v: i32)
    requires
        moves(*part, s, e),
    ensures
        on_the_way(*part, s, e, v as int),
{
    let d: i32 = part(e - s);
    s + d
}

/// A rect on its way from `a` to `b`, each coordinate past its start by the
/// part of its way that `part` tells. That may overshoot the way: the
/// transition settles back from past its target.
pub fn lerp_rect<F: Fn(i32) -> i32>(a: Rect, b: Rect, part: &F) -> (r: Rect)
    requires
        eases(*part, a, b),
    ensures
        eased_rect(*part, a, b, r),
{
    let (x, y) = (ease(a.x, b.x, part), ease(a.y, b.y, part));
    let (w, h) = (ease(a.w, b.w, part), ease(a.h, b.h, part));
    proof {
        assert(on_the_way(*part, a.w, b.w, w as int));
        assert(on_the_way(*part, a.h, b.h, h as int));
    }
    Rect { x, y, w: max_i32(w, 1), h: max_i32(h, 1) }
}

/// A transition is at its start rect while no part of the way is made, and
/// has arrived once all of it is, whatever the rects.
pub proof fn transition_meets_its_ends<F: Fn(i32) -> i32>(part: F, a: Rect, b: Rect, r: Rect)
    requires
        a.w >= 1,
        a.h >= 1,
        b.w >= 1,
        b.h >= 1,
        eases(part, a, b),
        eased_rect(part, a, b, r),
    ensures
        (forall|w: i32, d: i32| #[trigger] call_ensures(part, (w,), d) ==> d == 0) ==> r == a,
        (forall|w: i32, d: i32| #[trigger] call_ensures(part, (w,), d) ==> d == w) ==> r == b,
{
}

/// Whether an animation that began at `start` still runs at `now`.
pub open spec fn runs(start: int, now: int) -> bool {
    now < start + ANIM_MS
}

impl LayoutAnim {
    /// Whether the transition has run its course.
    pub fn finished(&self, now: u64) -> (done: bool)
        ensures
            done == !runs(self.start as int, now as int),
    {
        now >= self.start && now - self.start >= ANIM_MS
    }
}

/// This frame's leaf rects.
pub struct Tick {
    pub rects: Vec<Region<NodeId>>,
    /// The rect the focus outline traces, if a leaf holds the focus.
    pub focus: Option<Rect>,
    /// The configures that are due now that the transition ended.
    pub configures: Vec<(Win, Rect)>,
}

/// The rect of the first focused placement from `k` on.
pub open spec fn focus_from(placed: Seq<Placement>, k: int) -> Option<Rect>
    decreases placed.len() - k,
{
    if k >= placed.len() {
        None
    } else if placed[k].focused {
        Some(placed[k].target)
    } else {
        focus_from(placed, k + 1)
    }
}

/// The settled leaf rects.
pub open spec fn settled(placed: Seq<Placement>) -> Seq<Region<NodeId>> {
    Seq::new(placed.len(), |i: int| Region { rect: placed[i].target, item: placed[i].leaf })
}

/// Whether `rects` are the leaf rects part of the way through a transition.
pub open spec fn sliding<F: Fn(i32) -> i32>(
    part: F,
    placed: Seq<(Rect, Placement)>,
    rects: Seq<Region<NodeId>>,
) -> bool {
    &&& rects.len() == placed.len()
    &&& forall|i: int|
        0 <= i < placed.len() ==> {
            let r = #[trigger] rects[i];
            r.item == placed[i].1.leaf && eased_rect(part, placed[i].0, placed[i].1.target, r.rect)
        }
}

/// The rect of the last focused leaf among the first `n` of a transition.
pub open spec fn sliding_focus(
    placed: Seq<(Rect, Placement)>,
    rects: Seq<Region<NodeId>>,
    n: int,
) -> Option<Rect>
    decreases n,
{
    if n <= 0 {
        None
    } else if placed[n - 1].1.focused {
        Some(rects[n - 1].rect)
    } else {
        sliding_focus(placed, rects, n - 1)
    }
}

proof fn lemma_sliding_focus(
    placed: Seq<(Rect, Placement)>,
    rects: Seq<Region<NodeId>>,
    r: Region<NodeId>,
    n: int,
)
    requires
        n <= rects.len(),
    ensures
        sliding_focus(placed, rects.push(r), n) == sliding_focus(placed, rects, n),
    decreases n,
{
    if n > 0 {
        lemma_sliding_focus(placed, rects, r, n - 1);
    }
}

/// The withheld configures of windows that are still managed, among the
/// first `n`.
pub open spec fn due_to(s: Store, deferred: Seq<(Win, Rect)>, n: int) -> Seq<(Win, Rect)>
    decreases n,
{
    if n <= 0 {
        Seq::empty()
    } else if s.has(deferred[n - 1].0) {
        due_to(s, deferred, n - 1).push(deferred[n - 1])
    } else {
        due_to(s, deferred, n - 1)
    }
}

/// Snap an animation to its end state: the shrinking clients that are still
/// there receive the configures that were withheld.
pub fn finish_animation(managed: &Managed, anim: LayoutAnim) -> (configures: Vec<(Win, Rect)>)
    requires
        managed@.wf(),
    ensures
        configures@ == due_to(managed@, anim.deferred@, anim.deferred@.len() as int),
{
    let mut configures: Vec<(Win, Rect)> = Vec::new();
    let mut k: usize = 0;
    while k < anim.deferred.len()
        invariant
            k <= anim.deferred@.len(),
            managed@.wf(),
            configures@ == due_to(managed@, anim.deferred@, k as int),
        decreases anim.deferred@.len() - k,
    {
        let d = anim.deferred[k];
        if managed.contains(d.0) {
            configures.push(d);
        }
        k = k + 1;
    }
    configures
}

/// Advance any layout animation and report this frame's leaf rects,
/// on their way by `part` while it runs and settled otherwise.
pub fn tick_layout<F: Fn(i32) -> i32>(
    managed: &Managed,
    anim: &mut Option<LayoutAnim>,
    placed: &Vec<Placement>,
    now: u64,
    part: F,
) -> (tick: Tick)
    requires
        managed@.wf(),
        *old(anim) is Some ==> forall|i: int|
            0 <= i < (*old(anim))->0.placed@.len() ==> {
                let (from, to) = #[trigger] (*old(anim))->0.placed@[i];
                eases(part, from, to.target)
            },
    ensures
        ({
            let running = *old(anim) is Some && runs((*old(anim))->0.start as int, now as int);
            if running {
                let a = (*old(anim))->0;
                &&& *final(anim) == *old(anim)
                &&& sliding(part, a.placed@, tick.rects@)
                &&& tick.focus == sliding_focus(a.placed@, tick.rects@, a.placed@.len() as int)
                &&& tick.configures@ == Seq::<(Win, Rect)>::empty()
            } else {
                &&& *final(anim) is None
                &&& tick.rects@ == settled(placed@)
                &&& tick.focus == focus_from(placed@, 0)
                &&& tick.configures@ == (match *old(anim) {
                    Some(a) => due_to(managed@, a.deferred@, a.deferred@.len() as int),
                    None => Seq::empty(),
                })
            }
        }),
{
    let mut configures: Vec<(Win, Rect)> = Vec::new();
    match anim.take() {
        Some(a) => {
            if !a.finished(now) {
                let mut rects: Vec<Region<NodeId>> = Vec::new();
                let mut focus: Option<Rect> = None;
                let mut k: usize = 0;
                while k < a.placed.len()
                    invariant
                        k <= a.placed@.len(),
                        forall|i: int|
                            0 <= i < a.placed@.len() ==> {
                                let (from, to) = #[trigger] a.placed@[i];
                                eases(part, from, to.target)
                            },
                        sliding(part, a.placed@.take(k as int), rects@),
                        focus == sliding_focus(a.placed@, rects@, k as int),
                    decreases a.placed@.len() - k,
                {
                    let (from, to) = a.placed[k];
                    let r = lerp_rect(from, to.target, &part);
                    let ghost before = rects@;
                    rects.push(Region { rect: r, item: to.leaf });
                    if to.focused {
                        focus = Some(r);
                    }
                    k = k + 1;
                    proof {
                        let (was, all) = (a.placed@.take(k - 1), a.placed@.take(k as int));
                        assert forall|i: int| 0 <= i < k implies ({
                            let r = #[trigger] rects@[i];
                            r.item == all[i].1.leaf && eased_rect(
                                part,
                                all[i].0,
                                all[i].1.target,
                                r.rect,
                            )
                        }) by {
                            if i < k - 1 {
                                assert(rects@[i] == before[i]);
                                assert(was[i] == all[i]);
                            }
                        }
                        lemma_sliding_focus(a.placed@, before, rects@[k - 1], k - 1);
                    }
                }
                proof {
                    assert(a.placed@.take(k as int) =~= a.placed@);
                }
                *anim = Some(a);
                return Tick { rects, focus, configures };
            }
            configures = finish_animation(managed, a);
        },
        None => {},
    }
    let (rects, focus) = settled_rects(placed);
    Tick { rects, focus, configures }
}

/// The settled leaf rects and the focused one.
pub fn settled_rects(placed: &Vec<Placement>) -> (r: (Vec<Region<NodeId>>, Option<Rect>))
    ensures
        r.0@ == settled(placed@),
        r.1 == focus_from(placed@, 0),
{
    let mut rects: Vec<Region<NodeId>> = Vec::new();
    let mut focus: Option<Rect> = None;
    let mut k: usize = 0;
    while k < placed.len()
        invariant
            k <= placed@.len(),
            rects@ == settled(placed@).take(k as int),
            focus is None ==> focus_from(placed@, 0) == focus_from(placed@, k as int),
            focus is Some ==> focus_from(placed@, 0) == focus,
        decreases placed@.len() - k,
    {
        rects.push(Region { rect: placed[k].target, item: placed[k].leaf });
        if placed[k].focused && focus.is_none() {
            focus = Some(placed[k].target);
        }
        k = k + 1;
        proof {
            let all = settled(placed@);
            assert(all.take(k as int) =~= all.take(k - 1).push(all[k - 1]));
        }
    }
    proof {
        assert(settled(placed@).take(k as int) =~= settled(placed@));
    }
    (rects, focus)
}

/// One tiled window's draw placement for a frame: the client rect its
/// buffer paints in.
#[derive(Clone, Copy, PartialEq, Eq, Debug, Structural)]
pub struct TiledPlace {
    pub win: Win,
    pub rect: Rect,
}

/// What a leaf draws this frame, if it shows a managed window that is not
/// the fullscreen one.
pub open spec fn place_of(
    v: Strip,
    s: Store,
    fullscreen: Option<Win>,
    r: Region<NodeId>,
    th: Theme,
) -> Option<TiledPlace> {
    if !v.live(r.item) {
        None
    } else {
        let l = v.leaf_of(r.item);
        match l.client {
            None => None,
            Some(c) => if l.minimized || fullscreen == Some(c) || !s.has(c) {
                None
            } else {
                Some(TiledPlace { win: c, rect: client_area(r.rect, 1, 1, th) })
            },
        }
    }
}

/// What the first `n` leaves draw this frame.
pub open spec fn places_to(
    v: Strip,
    s: Store,
    fullscreen: Option<Win>,
    rects: Seq<Region<NodeId>>,
    th: Theme,
    n: int,
) -> Seq<TiledPlace>
    decreases n,
{
    if n <= 0 {
        Seq::empty()
    } else {
        let rest = places_to(v, s, fullscreen, rects, th, n - 1);
        match place_of(v, s, fullscreen, rects[n - 1], th) {
            Some(p) => rest.push(p),
            None => rest,
        }
    }
}

/// Every visible tiled window's draw placement, frontmost first.
pub open spec fn all_places(
    v: Strip,
    s: Store,
    fullscreen: Option<Win>,
    rects: Seq<Region<NodeId>>,
    output_w: i32,
    output_h: i32,
    th: Theme,
) -> Seq<TiledPlace> {
    let front = match fullscreen {
        Some(fs) => if s.has(fs) {
            seq![TiledPlace { win: fs, rect: Rect { x: 0, y: 0, w: output_w, h: output_h } }]
        } else {
            Seq::empty()
        },
        None => Seq::empty(),
    };
    front + places_to(v, s, fullscreen, rects, th, rects.len() as int)
}

/// Every visible tiled window's draw placement for this frame: the
/// fullscreen client over the whole output, frontmost, then each
/// unminimized leaf's client inside the leaf's rect.
pub fn tiled_places(
    layout: &Layout,
    managed: &Managed,
    fullscreen: Option<Win>,
    rects: &Vec<Region<NodeId>>,
    output_w: i32,
    output_h: i32,
    th: &Theme,
) -> (places: Vec<TiledPlace>)
    requires
        layout@.wf(),
        managed@.wf(),
        th.wf(),
        forall|i: int| 0 <= i < rects@.len() ==> frame_fits((#[trigger] rects@[i]).rect, *th),
    ensures
        places@ == all_places(layout@, managed@, fullscreen, rects@, output_w, output_h, *th),
{
    let mut places: Vec<TiledPlace> = Vec::new();
    if let Some(fs) = fullscreen {
        if managed.contains(fs) {
            places.push(
                TiledPlace { win: fs, rect: Rect { x: 0, y: 0, w: output_w, h: output_h } },
            );
        }
    }
    let ghost front = places@;
    let mut k: usize = 0;
    while k < rects.len()
        invariant
            k <= rects@.len(),
            layout@.wf(),
            managed@.wf(),
            th.wf(),
            forall|i: int| 0 <= i < rects@.len() ==> frame_fits((#[trigger] rects@[i]).rect, *th),
            places@ == front + places_to(layout@, managed@, fullscreen, rects@, *th, k as int),
        decreases rects@.len() - k,
    {
        let leaf = rects[k].item;
        let rect = rects[k].rect;
        proof {
            assert(rects@[k as int].item == leaf);
        }
        if let Some(l) = layout.leaf(leaf) {
            if let Some(c) = l.client {
                if !l.minimized && fullscreen != Some(c) && managed.contains(c) {
                    let r = client_rect_in_frame(rect, (1, 1), th);
                    places.push(TiledPlace { win: c, rect: r });
                }
            }
        }
        k = k + 1;
        proof {
            assert(places@ =~= front + places_to(
                layout@,
                managed@,
                fullscreen,
                rects@,
                *th,
                k as int,
            ));
        }
    }
    proof {
        assert(front =~= all_places(
            layout@,
            managed@,
            fullscreen,
            Seq::empty(),
            output_w,
            output_h,
            *th,
        ));
    }
    places
}

/// Tiled windows at the rects they settle on, whatever transition is
/// running: input goes by the layout the user aims at.
pub fn settled_tiled_places(
    layout: &Layout,
    managed: &Managed,
    fullscreen: Option<Win>,
    placed: &Vec<Placement>,
    output_w: i32,
    output_h: i32,
    th: &Theme,
) -> (places: Vec<TiledPlace>)
    requires
        layout@.wf(),
        managed@.wf(),
        th.wf(),
        forall|i: int| 0 <= i < placed@.len() ==> frame_fits((#[trigger] placed@[i]).target, *th),
    ensures
        places@ == all_places(
            layout@,
            managed@,
            fullscreen,
            settled(placed@),
            output_w,
            output_h,
            *th,
        ),
{
    let (rects, _focus) = settled_rects(placed);
    proof {
        assert forall|i: int| 0 <= i < rects@.len() implies frame_fits(
            (#[trigger] rects@[i]).rect,
            *th,
        ) by {
            assert(rects@[i].rect == placed@[i].target);
        }
    }
    tiled_places(layout, managed, fullscreen, &rects, output_w, output_h, th)
}

/// The first placement from `k` on whose rect holds the point.
pub open spec fn place_under(places: Seq<TiledPlace>, px: int, py: int, k: int) -> Option<Win>
    decreases places.len() - k,
{
    if k >= places.len() {
        None
    } else if places[k].rect.has(px, py) {
        Some(places[k].win)
    } else {
        place_under(places, px, py, k + 1)
    }
}

/// The tiled or fullscreen window whose settled client rect covers the
/// point: the region it draws in, not its buffer extent.
pub fn tiled_under(places: &Vec<TiledPlace>, px: i32, py: i32) -> (win: Option<Win>)
    ensures
        win == place_under(places@, px as int, py as int, 0),
{
    let mut k: usize = 0;
    while k < places.len()
        invariant
            k <= places@.len(),
            place_under(places@, px as int, py as int, 0) == place_under(
                places@,
                px as int,
                py as int,
                k as int,
            ),
        decreases places@.len() - k,
    {
        if places[k].rect.contains(px, py) {
            return Some(places[k].win);
        }
        k = k + 1;
    }
    None
}

/// Who gets the keyboard.
#[derive(Clone, Copy, PartialEq, Eq, Debug, Structural)]
pub enum KeyTarget {
    /// The exclusive layer surface.
    Layer,
    Window(Win),
    Nothing,
}

/// The window that is active: the one that overrides the layout, else the
/// focused split's.
pub open spec fn active_of(keyboard_override: Option<Win>, focused_client: Option<Win>) -> Option<
    Win,
> {
    if keyboard_override is Some {
        keyboard_override
    } else {
        focused_client
    }
}

/// Where keystrokes go.
pub open spec fn key_target(
    s: Store,
    exclusive_layer: bool,
    keyboard_override: Option<Win>,
    focused_client: Option<Win>,
) -> KeyTarget {
    if exclusive_layer {
        KeyTarget::Layer
    } else {
        match active_of(keyboard_override, focused_client) {
            Some(c) => if s.has(c) {
                KeyTarget::Window(c)
            } else {
                KeyTarget::Nothing
            },
            None => KeyTarget::Nothing,
        }
    }
}

/// Point keyboard focus: an exclusive-keyboard layer surface outranks every
/// window while mapped, then a focused float or clicked dock, then the
/// layout's focused client. The window that counts as focused, whoever gets
/// the keyboard, is the one marked activated.
pub fn refocus(
    managed: &Managed,
    exclusive_layer: bool,
    keyboard_override: Option<Win>,
    focused_client: Option<Win>,
) -> (r: (Option<Win>, KeyTarget))
    requires
        managed@.wf(),
    ensures
        r.0 == active_of(keyboard_override, focused_client),
        r.1 == key_target(managed@, exclusive_layer, keyboard_override, focused_client),
{
    let focused = if keyboard_override.is_some() {
        keyboard_override
    } else {
        focused_client
    };
    let target = if exclusive_layer {
        KeyTarget::Layer
    } else {
        match focused {
            Some(c) => if managed.contains(c) {
                KeyTarget::Window(c)
            } else {
                KeyTarget::Nothing
            },
            None => KeyTarget::Nothing,
        }
    };
    (focused, target)
}

/// Thickness of the focus outline.
pub const OUTLINE: i32 = 2;

/// The focus outline's four strips (top, bottom, left, right), traced on
/// the frame's edges: top and bottom full width, the sides between them.
pub open spec fn outline_of(r: Rect) -> Seq<Rect> {
    let h = imax(r.h - 2 * OUTLINE, 0) as i32;
    let w = imax(r.w as int, 0) as i32;
    seq![
        Rect { x: r.x, y: r.y, w, h: OUTLINE },
        Rect { x: r.x, y: (r.y + r.h - OUTLINE) as i32, w, h: OUTLINE },
        Rect { x: r.x, y: (r.y + OUTLINE) as i32, w: OUTLINE, h },
        Rect { x: (r.x + r.w - OUTLINE) as i32, y: (r.y + OUTLINE) as i32, w: OUTLINE, h },
    ]
}

/// The focus outline for the focused rect, or nothing while no leaf holds
/// focus.
pub fn focus_outline(focus: Option<Rect>) -> (strips: Vec<Rect>)
    requires
        focus is Some ==> {
            let r = focus->0;
            &&& fits_i32(r.x + r.w) && fits_i32(r.x + r.w - OUTLINE)
            &&& fits_i32(r.y + r.h) && fits_i32(r.y + r.h - OUTLINE)
            &&& fits_i32(r.y + OUTLINE) && fits_i32(r.h - 2 * OUTLINE)
        },
    ensures
        strips@ == (match focus {
            Some(r) => outline_of(r),
            None => Seq::empty(),
        }),
{
    let mut strips: Vec<Rect> = Vec::new();
    if let Some(r) = focus {
        let t: i32 = OUTLINE;
        let h: i32 = max_i32(r.h - 2 * t, 0);
        let w: i32 = max_i32(r.w, 0);
        strips.push(Rect { x: r.x, y: r.y, w, h: t });
        strips.push(Rect { x: r.x, y: r.y + r.h - t, w, h: t });
        strips.push(Rect { x: r.x, y: r.y + t, w: t, h });
        strips.push(Rect { x: r.x + r.w - t, y: r.y + t, w: t, h });
        proof {
            assert(strips@ =~= outline_of(r));
        }
    }
    strips
}

/// The first placement of `win` from `k` on.
pub open spec fn place_for(places: Seq<TiledPlace>, win: Win, k: int) -> Option<Rect>
    decreases places.len() - k,
{
    if k >= places.len() {
        None
    } else if places[k].win == win {
        Some(places[k].rect)
    } else {
        place_for(places, win, k + 1)
    }
}

/// The position of a popup root's geometry origin. A managed window's is
/// where it is drawn; any other surface's is the scrolled dock panel's
/// position or its own place on its layer.
pub open spec fn root_loc_of(
    s: Store,
    places: Seq<TiledPlace>,
    dock: Rect,
    root: Option<Win>,
    layer_dock: Option<(i32, i32)>,
    layer: Option<(i32, i32)>,
) -> Option<(i32, i32)> {
    match root {
        Some(win) => if !s.has(win) {
            None
        } else {
            match s.entry(win).kind {
                Kind::Tiled => match place_for(places, win, 0) {
                    Some(r) => Some((r.x, r.y)),
                    None => None,
                },
                Kind::Float(f) => Some((f.x, f.y)),
                Kind::Dock(_) => Some((dock.x, dock.y)),
            }
        },
        None => if layer_dock is Some {
            layer_dock
        } else {
            layer
        },
    }
}

/// The global position of a popup root's geometry origin: settled tiled and
/// fullscreen rects, float and dock positions, layer surfaces at their
/// (or the scrolled dock's) location.
pub fn popup_root_loc(
    managed: &Managed,
    places: &Vec<TiledPlace>,
    dock: Rect,
    root: Option<Win>,
    layer_dock: Option<(i32, i32)>,
    layer: Option<(i32, i32)>,
) -> (loc: Option<(i32, i32)>)
    requires
        managed@.wf(),
    ensures
        loc == root_loc_of(managed@, places@, dock, root, layer_dock, layer),
{
    match root {
        Some(win) => match managed.kind_of(win) {
            None => None,
            Some(Kind::Tiled) => {
                let mut k: usize = 0;
                while k < places.len()
                    invariant
                        k <= places@.len(),
                        place_for(places@, win, 0) == place_for(places@, win, k as int),
                        managed@.wf(),
                        managed@.has(win),
                        managed@.entry(win).kind is Tiled,
                        root == Some(win),
                    decreases places@.len() - k,
                {
                    if places[k].win == win {
                        return Some((places[k].rect.x, places[k].rect.y));
                    }
                    k = k + 1;
                }
                None
            },
            Some(Kind::Float(f)) => Some((f.x, f.y)),
            Some(Kind::Dock(_)) => Some((dock.x, dock.y)),
        },
        None => if layer_dock.is_some() {
            layer_dock
        } else {
            layer
        },
    }
}

/// The output as a popup at `coords` of a surface at `root` sees it.
pub open spec fn popup_room(
    output_w: i32,
    output_h: i32,
    root: (i32, i32),
    coords: (i32, i32),
) -> Rect {
    Rect {
        x: near_i32(-near_i32(root.0 + coords.0)) as i32,
        y: near_i32(-near_i32(root.1 + coords.1)) as i32,
        w: output_w,
        h: output_h,
    }
}

/// The rect a popup is kept inside: the output, as seen from the geometry
/// origin of the popup's parent. `root` is the position of the root's origin
/// and `coords` that of the parent within the root. What is
/// beyond the range of a coordinate stays at its end.
pub fn popup_target(
    output_w: i32,
    output_h: i32,
    root: (i32, i32),
    coords: (i32, i32),
) -> (target: Rect)
    ensures
        target == popup_room(output_w, output_h, root, coords),
{
    Rect {
        x: narrow_i32(-(narrow_i32(root.0 as i64 + coords.0 as i64) as i64)),
        y: narrow_i32(-(narrow_i32(root.1 as i64 + coords.1 as i64) as i64)),
        w: output_w,
        h: output_h,
    }
}

} // verus!
