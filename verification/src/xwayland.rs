//! X11 windows: override-redirect windows, which are never managed, and the
//! answers to configure requests.

use crate::geom::{imax, max_i32, Rect};
use crate::shell::{FloatData, FrameTex, Kind, Managed, ManagedWindow, Store};
use crate::Win;
use vstd::prelude::*;

verus! {

/// A mapped override-redirect window (a launcher, a menu) with its true
/// root-relative geometry.
#[derive(Clone, Copy, PartialEq, Eq, Debug, Structural)]
pub struct OrWindow {
    /// The X11 window id.
    pub id: u32,
    pub rect: Rect,
    pub has_surface: bool,
}

/// The first window with this id from `k` on; the length if none.
pub open spec fn or_from(s: Seq<OrWindow>, id: u32, k: int) -> int
    decreases s.len() - k,
{
    if k >= s.len() {
        s.len() as int
    } else if s[k].id == id {
        k
    } else {
        or_from(s, id, k + 1)
    }
}

/// The windows without the first one that has this id.
pub open spec fn or_without(s: Seq<OrWindow>, id: u32) -> Seq<OrWindow> {
    let k = or_from(s, id, 0);
    if k < s.len() {
        s.remove(k)
    } else {
        s
    }
}

/// The windows with the first one that has this id moved to `geometry`.
pub open spec fn or_moved(s: Seq<OrWindow>, id: u32, geometry: Rect) -> Seq<OrWindow> {
    let k = or_from(s, id, 0);
    if k < s.len() {
        s.update(k, (OrWindow { rect: geometry, ..s[k] }))
    } else {
        s
    }
}

/// The override-redirect windows, topmost last.
pub struct OrWindows {
    pub list: Vec<OrWindow>,
}

impl OrWindows {
    fn find(&self, id: u32) -> (at: usize)
        ensures
            at == or_from(self.list@, id, 0),
            at <= self.list@.len(),
    {
        let mut k: usize = 0;
        while k < self.list.len()
            invariant
                k <= self.list@.len(),
                or_from(self.list@, id, 0) == or_from(self.list@, id, k as int),
            decreases self.list@.len() - k,
        {
            if self.list[k].id == id {
                return k;
            }
            k = k + 1;
        }
        k
    }

    /// Whether a window is one of these.
    pub fn contains(&self, id: u32) -> (b: bool)
        ensures
            b == (or_from(self.list@, id, 0) < self.list@.len()),
    {
        self.find(id) < self.list.len()
    }

    /// A window mapped: shown topmost. Its geometry is what the server
    /// says; the cached one only if the server cannot be asked.
    pub fn mapped(&mut self, id: u32, queried: Option<Rect>, cached: Rect, has_surface: bool)
        ensures
            final(self).list@ == old(self).list@.push(
                OrWindow {
                    id,
                    rect: match queried {
                        Some(r) => r,
                        None => cached,
                    },
                    has_surface,
                },
            ),
    {
        let rect = match queried {
            Some(r) => r,
            None => cached,
        };
        self.list.push(OrWindow { id, rect, has_surface });
    }

    /// A window went away. Returns whether it was one of these.
    pub fn forget(&mut self, id: u32) -> (gone: bool)
        ensures
            gone == (or_from(old(self).list@, id, 0) < old(self).list@.len()),
            final(self).list@ == or_without(old(self).list@, id),
    {
        let at: usize = self.find(id);
        if at < self.list.len() {
            self.list.remove(at);
            true
        } else {
            false
        }
    }

    /// A move of an override-redirect window: the record follows.
    pub fn configure_notify(&mut self, id: u32, geometry: Rect)
        ensures
            final(self).list@ == or_moved(old(self).list@, id, geometry),
    {
        let at: usize = self.find(id);
        if at < self.list.len() {
            self.list[at].rect = geometry;
        }
    }

    /// A surface arrived for a window. An override-redirect window that
    /// mapped without one is owed the keyboard now.
    pub fn surface_associated(&mut self, id: u32) -> (owed_keyboard: bool)
        ensures
            ({
                let s = old(self).list@;
                let k = or_from(s, id, 0);
                &&& owed_keyboard == (k < s.len())
                &&& final(self).list@ == (if k < s.len() {
                    s.update(k, (OrWindow { has_surface: true, ..s[k] }))
                } else {
                    s
                })
            }),
    {
        let at: usize = self.find(id);
        if at < self.list.len() {
            self.list[at].has_surface = true;
            true
        } else {
            false
        }
    }

    /// The topmost override-redirect window, among the bottom `n`, that has
    /// a surface under the point.
    pub open spec fn under(self, px: int, py: int, n: int) -> Option<OrWindow>
        decreases n,
    {
        if n <= 0 {
            None
        } else if self.list@[n - 1].rect.has(px, py) && self.list@[n - 1].has_surface {
            Some(self.list@[n - 1])
        } else {
            self.under(px, py, n - 1)
        }
    }

    /// The topmost override-redirect window whose surface is under the
    /// point.
    pub fn or_surface_under(&self, px: i32, py: i32) -> (res: Option<OrWindow>)
        ensures
            res == self.under(px as int, py as int, self.list@.len() as int),
    {
        let mut n: usize = self.list.len();
        while n > 0
            invariant
                n <= self.list@.len(),
                self.under(px as int, py as int, self.list@.len() as int) == self.under(
                    px as int,
                    py as int,
                    n as int,
                ),
            decreases n,
        {
            n = n - 1;
            let o = self.list[n];
            if o.rect.contains(px, py) && o.has_surface {
                return Some(o);
            }
        }
        None
    }
}

/// The answer to a configure request.
#[derive(Clone, Copy, PartialEq, Eq, Debug, Structural)]
pub enum ConfigureReply {
    /// Refused: the current state is asserted again.
    Deny,
    /// Granted with this geometry.
    Grant(Rect),
}

/// What a window asks to be moved and resized to.
#[derive(Clone, Copy, PartialEq, Eq, Debug, Structural)]
pub struct ConfigureRequest {
    pub x: Option<i32>,
    pub y: Option<i32>,
    pub w: Option<i32>,
    pub h: Option<i32>,
}

/// `asked` if something was asked for, else `was`.
pub open spec fn or_was(asked: Option<i32>, was: i32) -> i32 {
    match asked {
        Some(v) => v,
        None => was,
    }
}

fn pick(asked: Option<i32>, was: i32) -> (v: i32)
    ensures
        v == or_was(asked, was),
{
    match asked {
        Some(v) => v,
        None => was,
    }
}

/// The store after a float took this size: at least one pixel each way, its
/// frame due for a repaint if anything changed.
pub open spec fn resized(s: Store, win: Win, w: int, h: int) -> Store {
    if s.is_float(win) {
        let f = s.entry(win).kind->Float_0;
        if f.w == w && f.h == h {
            s
        } else {
            s.replaced(
                win,
                (ManagedWindow {
                    kind: Kind::Float(
                        (FloatData {
                            w: imax(w, 1) as i32,
                            h: imax(h, 1) as i32,
                            frame: FrameTex::Stale(f.frame.held()),
                            ..f
                        }),
                    ),
                    ..s.entry(win)
                }),
            )
        }
    } else {
        s
    }
}

/// A float resized itself: track the new size and repaint its frame around
/// it.
pub fn resize_float(managed: &mut Managed, win: Win, w: i32, h: i32)
    requires
        old(managed)@.wf(),
    ensures
        final(managed)@.wf(),
        final(managed)@ == resized(old(managed)@, win, w as int, h as int),
{
    let ghost was = managed@;
    let entry = match managed.float(win) {
        Some(f) => if f.w == w && f.h == h {
            None
        } else {
            Some(
                FloatData {
                    parent: f.parent,
                    x: f.x,
                    y: f.y,
                    w: max_i32(w, 1),
                    h: max_i32(h, 1),
                    accent: f.accent,
                    frame: FrameTex::Stale(
                        match f.frame.texture() {
                            Some(t) => Some(*t),
                            None => None,
                        },
                    ),
                },
            )
        },
        None => None,
    };
    if let Some(f) = entry {
        if let Some(m) = managed.entry(win) {
            let next = ManagedWindow {
                win,
                kind: Kind::Float(f),
                icon: m.icon,
                icon_rotated: m.icon_rotated,
                icon_slot: m.icon_slot,
            };
            proof {
                assert(was.sits(win, was.at(win)));
            }
            managed.replace(next);
        }
    }
}

/// What an X11 window that asks to be configured is told.
pub open spec fn reply_of(s: Store, win: Option<Win>, current: Rect, req: ConfigureRequest) ->
    ConfigureReply {
    match win {
        None => ConfigureReply::Grant(
            Rect {
                x: or_was(req.x, current.x),
                y: or_was(req.y, current.y),
                w: or_was(req.w, current.w),
                h: or_was(req.h, current.h),
            },
        ),
        Some(win) => match s.entry(win).kind {
            Kind::Float(f) => ConfigureReply::Grant(
                Rect { x: f.x, y: f.y, w: or_was(req.w, current.w), h: or_was(req.h, current.h) },
            ),
            _ => ConfigureReply::Deny,
        },
    }
}

/// The store after that request.
pub open spec fn configured(s: Store, win: Option<Win>, current: Rect, req: ConfigureRequest) ->
    Store {
    match win {
        None => s,
        Some(win) => resized(
            s,
            win,
            or_was(req.w, current.w) as int,
            or_was(req.h, current.h) as int,
        ),
    }
}

/// Answer a configure request. Tiled geometry is the layout's to decide and
/// the dock is pinned: both are denied. A float resizing itself is honoured
/// where it stands. Anything unmanaged is granted as asked.
pub fn configure_request(
    managed: &mut Managed,
    win: Option<Win>,
    current: Rect,
    req: ConfigureRequest,
) -> (reply: ConfigureReply)
    requires
        old(managed)@.wf(),
        win is Some ==> old(managed)@.has(win->0),
    ensures
        final(managed)@.wf(),
        final(managed)@ == configured(old(managed)@, win, current, req),
        reply == reply_of(old(managed)@, win, current, req),
{
    match win {
        None => ConfigureReply::Grant(
            Rect {
                x: pick(req.x, current.x),
                y: pick(req.y, current.y),
                w: pick(req.w, current.w),
                h: pick(req.h, current.h),
            },
        ),
        Some(win) => {
            let at = match managed.float(win) {
                Some(f) => Some((f.x, f.y)),
                None => None,
            };
            match at {
                Some((x, y)) => {
                    let w: i32 = pick(req.w, current.w);
                    let h: i32 = pick(req.h, current.h);
                    resize_float(managed, win, w, h);
                    ConfigureReply::Grant(Rect { x, y, w, h })
                },
                None => ConfigureReply::Deny,
            }
        },
    }
}

/// Whether the keyboard focus is one of the X11 windows' surfaces, which is
/// what the X side may read the selections for.
pub fn x11_holds_focus(focus: Option<u32>, x11_surfaces: &Vec<u32>) -> (b: bool)
    ensures
        b == (focus is Some && x11_surfaces@.contains(focus->0)),
{
    let want: u32 = match focus {
        Some(f) => f,
        None => {
            return false;
        },
    };
    let mut k: usize = 0;
    while k < x11_surfaces.len()
        invariant
            k <= x11_surfaces@.len(),
            focus == Some(want),
            forall|i: int| 0 <= i < k ==> x11_surfaces@[i] != want,
        decreases x11_surfaces@.len() - k,
    {
        if x11_surfaces[k] == want {
            return true;
        }
        k = k + 1;
    }
    false
}

/// Law: an unmanaged X11 window gets every number it asks for and keeps the
/// others; a float gets the size it asks for but stays where it is; a tiled
/// window and the dock get nothing and change nothing.
pub proof fn requests_are_granted_by_kind(
    s: Store,
    win: Win,
    current: Rect,
    req: ConfigureRequest,
)
    requires
        s.has(win),
    ensures
        ({
            let free = reply_of(s, None, current, req);
            &&& free is Grant
            &&& configured(s, None, current, req) == s
            &&& req.x is Some ==> free->Grant_0.x == req.x->0
            &&& req.x is None ==> free->Grant_0.x == current.x
            &&& req.y is Some ==> free->Grant_0.y == req.y->0
            &&& req.y is None ==> free->Grant_0.y == current.y
            &&& req.w is Some ==> free->Grant_0.w == req.w->0
            &&& req.w is None ==> free->Grant_0.w == current.w
            &&& req.h is Some ==> free->Grant_0.h == req.h->0
            &&& req.h is None ==> free->Grant_0.h == current.h
        }),
        ({
            let reply = reply_of(s, Some(win), current, req);
            let f = s.entry(win).kind->Float_0;
            &&& s.is_float(win) ==> reply is Grant && reply->Grant_0.x == f.x && reply->Grant_0.y
                == f.y
            &&& s.is_float(win) && req.w is Some ==> reply->Grant_0.w == req.w->0
            &&& s.is_float(win) && req.h is Some ==> reply->Grant_0.h == req.h->0
            &&& s.is_float(win) && req.w is None ==> reply->Grant_0.w == current.w
            &&& s.is_float(win) && req.h is None ==> reply->Grant_0.h == current.h
            &&& !s.is_float(win) ==> reply is Deny && configured(s, Some(win), current, req) == s
        }),
{
}

/// Law: a resized float has the new size, at least one pixel each way, and
/// its frame is drawn anew; one asked for the size it has does not change,
/// and neither does its place.
pub proof fn resized_floats_are_drawn_anew(s: Store, win: Win, w: int, h: int)
    requires
        s.wf(),
        s.is_float(win),
        1 <= w <= i32::MAX,
        1 <= h <= i32::MAX,
    ensures
        ({
            let f = s.entry(win).kind->Float_0;
            let n = resized(s, win, w, h);
            &&& f.w == w && f.h == h ==> n == s
            &&& f.w != w || f.h != h ==> {
                let g = n.entries[s.at(win)].kind->Float_0;
                &&& n.entries[s.at(win)].kind is Float
                &&& n.entries[s.at(win)].win == win
                &&& g.w == w && g.h == h
                &&& g.x == f.x && g.y == f.y
                &&& g.parent == f.parent
                &&& g.frame is Stale
            }
        }),
{
    assert(s.sits(win, s.at(win)));
}

/// Law: of the unmanaged windows at a point the one mapped last is hit, and
/// one that has no surface yet is never hit.
pub proof fn the_last_mapped_window_is_hit(o: OrWindows, px: int, py: int, n: int, i: int)
    requires
        0 <= i <= n <= o.list@.len(),
        forall|j: int|
            i <= j < n ==> !(#[trigger] o.list@[j]).rect.has(px, py) || !o.list@[j].has_surface,
        i > 0 ==> o.list@[i - 1].rect.has(px, py) && o.list@[i - 1].has_surface,
    ensures
        i > 0 ==> o.under(px, py, n) == Some(o.list@[i - 1]),
        i == 0 ==> o.under(px, py, n) is None,
    decreases n - i,
{
    if i < n {
        assert(!o.list@[n - 1].rect.has(px, py) || !o.list@[n - 1].has_surface);
        the_last_mapped_window_is_hit(o, px, py, n - 1, i);
    }
}

proof fn lemma_or_from(s: Seq<OrWindow>, id: u32, k: int, i: int)
    requires
        0 <= k <= i < s.len(),
        s[i].id == id,
        forall|j: int| k <= j < i ==> (#[trigger] s[j]).id != id,
    ensures
        or_from(s, id, k) == i,
    decreases i - k,
{
    if k < i {
        lemma_or_from(s, id, k + 1, i);
    }
}

/// Law: an unmanaged window that moves is at its new place and keeps its
/// turn; one that goes leaves the others as they were.
pub proof fn unmanaged_windows_move_alone(s: Seq<OrWindow>, i: int, geometry: Rect)
    requires
        0 <= i < s.len(),
        forall|j: int| 0 <= j < i ==> (#[trigger] s[j]).id != s[i].id,
    ensures
        ({
            let n = or_moved(s, s[i].id, geometry);
            &&& n.len() == s.len()
            &&& n[i].rect == geometry
            &&& n[i].id == s[i].id && n[i].has_surface == s[i].has_surface
            &&& forall|j: int| 0 <= j < s.len() && j != i ==> #[trigger] n[j] == s[j]
        }),
        ({
            let n = or_without(s, s[i].id);
            &&& n.len() == s.len() - 1
            &&& forall|j: int| 0 <= j < i ==> #[trigger] n[j] == s[j]
            &&& forall|j: int| i <= j < n.len() ==> #[trigger] n[j] == s[j + 1]
        }),
{
    lemma_or_from(s, s[i].id, 0, i);
}

/// Law: a float that asks for a size has it, each number that it does not
/// name being the one it had.
pub proof fn floats_get_the_size_they_ask_for(
    s: Store,
    win: Win,
    current: Rect,
    req: ConfigureRequest,
)
    requires
        s.wf(),
        s.is_float(win),
        req.w is Some ==> 1 <= req.w->0,
        req.h is Some ==> 1 <= req.h->0,
        1 <= current.w,
        1 <= current.h,
    ensures
        ({
            let e = configured(s, Some(win), current, req).entries[s.at(win)];
            &&& e.win == win
            &&& e.kind is Float
            &&& req.w is Some ==> e.kind->Float_0.w == req.w->0
            &&& req.h is Some ==> e.kind->Float_0.h == req.h->0
            &&& req.w is None ==> e.kind->Float_0.w == current.w
            &&& req.h is None ==> e.kind->Float_0.h == current.h
        }),
{
    assert(s.sits(win, s.at(win)));
}

proof fn lemma_or_absent(s: Seq<OrWindow>, id: u32, k: int)
    requires
        0 <= k <= s.len(),
        forall|j: int| 0 <= j < s.len() ==> (#[trigger] s[j]).id != id,
    ensures
        or_from(s, id, k) == s.len(),
    decreases s.len() - k,
{
    if k < s.len() {
        lemma_or_absent(s, id, k + 1);
    }
}

/// Law: moving or removing an unmanaged window that is not there changes
/// nothing.
pub proof fn absent_windows_change_nothing(s: Seq<OrWindow>, id: u32, geometry: Rect)
    requires
        forall|j: int| 0 <= j < s.len() ==> (#[trigger] s[j]).id != id,
    ensures
        or_without(s, id) == s,
        or_moved(s, id, geometry) == s,
{
    lemma_or_absent(s, id, 0);
}

} // verus!
