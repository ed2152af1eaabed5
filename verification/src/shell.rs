//! The managed-window store: every managed window by its id, tiled,
//! floating or docked.
//!
//! Ids are allocated here and only here, on manage; an id in the layout
//! resolves while the window is managed, and tiled insertion order is the
//! taskbar order.

use crate::geom::{fits_i32, imax, max_i32, Rect};
use crate::theme::Theme;
use crate::{Index, Win};
use vstd::prelude::*;

verus! {

/// A texture on the GPU, by the renderer's number for it.
pub type TexId = u32;

/// An icon image, by its identity.
pub type IconId = u32;

/// A float titlebar strip's texture and its freshness in one state: `Fresh`
/// can only be built with a texture, so "no texture yet not due for a
/// repaint", a strip that would render as nothing forever, is
/// unrepresentable.
#[derive(Debug)]
pub enum FrameTex<T> {
    /// The strip's content changed since the held texture, if any, was
    /// uploaded; the old texture is shown until the repaint and rides along
    /// so that the repaint can reuse its allocation.
    Stale(Option<T>),
    /// The texture matches the strip's current content.
    Fresh(T),
}

impl<T> FrameTex<T> {
    /// Whatever texture there is, fresh or stale.
    pub open spec fn held(self) -> Option<T> {
        match self {
            FrameTex::Stale(tex) => tex,
            FrameTex::Fresh(tex) => Some(tex),
        }
    }

    /// Whatever texture there is to draw, fresh or stale.
    pub fn texture(&self) -> (tex: Option<&T>)
        ensures
            tex is Some == self.held() is Some,
            tex is Some ==> *tex->0 == self.held()->0,
    {
        match self {
            FrameTex::Stale(tex) => match tex {
                Some(t) => Some(t),
                None => None,
            },
            FrameTex::Fresh(tex) => Some(tex),
        }
    }

    pub fn is_stale(&self) -> (b: bool)
        ensures
            b == (*self is Stale),
    {
        match self {
            FrameTex::Stale(_) => true,
            FrameTex::Fresh(_) => false,
        }
    }

    /// Flag the frame for a repaint, keeping the texture to draw, and to
    /// reuse for the upload, meanwhile.
    pub fn mark_stale(&mut self)
        ensures
            *final(self) == FrameTex::Stale(old(self).held()),
    {
        let tex = self.take();
        *self = FrameTex::Stale(tex);
    }

    /// Pull the texture out, leaving `Stale(None)`, for handing its
    /// allocation to an upload.
    pub fn take(&mut self) -> (tex: Option<T>)
        ensures
            tex == old(self).held(),
            *final(self) == FrameTex::<T>::Stale(None),
    {
        let mut was: FrameTex<T> = FrameTex::Stale(None);
        std::mem::swap(self, &mut was);
        match was {
            FrameTex::Fresh(tex) => Some(tex),
            FrameTex::Stale(tex) => tex,
        }
    }

    /// What an upload attempt left: fresh with its texture, or still due.
    pub fn uploaded(tex: Option<T>) -> (f: FrameTex<T>)
        ensures
            f == (match tex {
                Some(t) => FrameTex::Fresh(t),
                None => FrameTex::<T>::Stale(None),
            }),
    {
        match tex {
            Some(t) => FrameTex::Fresh(t),
            None => FrameTex::Stale(None),
        }
    }
}

/// A floating window's payload: a dialog, a transient or a fixed-size
/// client. Never in the layout or the taskbar.
pub struct FloatData {
    /// The parent window, used for centering, the accent, and handing focus
    /// back when the float goes away.
    pub parent: Option<Win>,
    /// Client-window screen geometry; the chrome frame extends around it.
    pub x: i32,
    pub y: i32,
    pub w: i32,
    pub h: i32,
    /// Accent palette index for the chrome, fixed for the float's life.
    pub accent: Index,
    /// The titlebar strip's texture.
    pub frame: FrameTex<TexId>,
}

impl FloatData {
    /// Whether the chrome frame's coordinates are in range.
    pub open spec fn fits(self, th: Theme) -> bool {
        &&& fits_i32(self.x - th.border_left)
        &&& fits_i32(self.y - th.border_top)
        &&& fits_i32(self.w + 2 * th.border_left)
        &&& fits_i32(self.h + th.border_top)
        &&& fits_i32(self.h + th.border_top + th.border_bottom)
    }

    /// The client rect.
    pub open spec fn client(self) -> Rect {
        Rect { x: self.x, y: self.y, w: self.w, h: self.h }
    }

    /// The chrome frame around the client rect.
    pub open spec fn framed(self, th: Theme) -> Rect {
        Rect {
            x: (self.x - th.border_left) as i32,
            y: (self.y - th.border_top) as i32,
            w: (self.w + 2 * th.border_left) as i32,
            h: (self.h + th.border_top + th.border_bottom) as i32,
        }
    }

    /// Frame insets around a float's client window (side, top, bottom): the
    /// same border art the splits use.
    pub fn insets(th: &Theme) -> (i: (i32, i32, i32))
        ensures
            i == (th.border_left, th.border_top, th.border_bottom),
    {
        (th.border_left, th.border_top, th.border_bottom)
    }

    /// The chrome frame's screen rect around the tracked client geometry.
    pub fn frame_rect(&self, th: &Theme) -> (r: Rect)
        requires
            th.wf(),
            self.fits(*th),
        ensures
            r == self.framed(*th),
            self.w >= 0 && self.h >= 0 ==> r.encloses(self.client()),
    {
        let (bw, tb, bb) = Self::insets(th);
        Rect { x: self.x - bw, y: self.y - tb, w: self.w + 2 * bw, h: self.h + tb + bb }
    }
}

/// The docked sidebar's payload: the width captured from its own first
/// commit, the only fact about it besides which window it is.
#[derive(Clone, Copy, PartialEq, Eq, Debug, Structural)]
pub struct DockData {
    pub w: i32,
}

/// What role a managed window plays; the payload carries the role's state.
pub enum Kind {
    Tiled,
    Float(FloatData),
    Dock(DockData),
}

/// One managed window.
pub struct ManagedWindow {
    pub win: Win,
    pub kind: Kind,
    /// Palette-quantized app icon, resolved off the loop after manage.
    pub icon: Option<IconId>,
    /// The pre-rendered hue variant for same-app disambiguation.
    pub icon_rotated: Option<IconId>,
    /// The persistent hue slot.
    pub icon_slot: Option<usize>,
}

/// The managed windows.
pub struct Managed {
    /// Monotonic id source; ids are never reused within a session, so a
    /// stale id from a closed window can never alias a live one.
    next: Win,
    /// Insertion-ordered; tiled entries' relative order is the taskbar
    /// order.
    entries: Vec<ManagedWindow>,
}

/// What the store is: the newest id handed out, and the windows, oldest
/// first.
#[verifier::ext_equal]
pub struct Store {
    pub next: Win,
    pub entries: Seq<ManagedWindow>,
}

impl Store {
    /// Every entry's id was handed out, and entries stand in id order.
    pub open spec fn wf(self) -> bool {
        &&& forall|i: int|
            0 <= i < self.entries.len() ==> 1 <= (#[trigger] self.entries[i]).win <= self.next
        &&& forall|i: int, j: int|
            #![trigger self.entries[i], self.entries[j]]
            0 <= i < j < self.entries.len() ==> self.entries[i].win < self.entries[j].win
    }

    /// Whether the entry at `i` is for `win`.
    pub open spec fn sits(self, win: Win, i: int) -> bool {
        0 <= i < self.entries.len() && self.entries[i].win == win
    }

    /// Whether `win` is managed.
    pub open spec fn has(self, win: Win) -> bool {
        exists|i: int| #[trigger] self.sits(win, i)
    }

    /// Where the entry for `win` stands.
    pub open spec fn at(self, win: Win) -> int {
        choose|i: int| #[trigger] self.sits(win, i)
    }

    /// The entry for `win`.
    pub open spec fn entry(self, win: Win) -> ManagedWindow {
        self.entries[self.at(win)]
    }

    /// Whether `win` is a managed float.
    pub open spec fn is_float(self, win: Win) -> bool {
        self.has(win) && self.entry(win).kind is Float
    }

    /// Whether `win` is a managed tiled window.
    pub open spec fn is_tiled(self, win: Win) -> bool {
        self.has(win) && self.entry(win).kind is Tiled
    }

    /// Whether `win` is a managed dock.
    pub open spec fn is_dock(self, win: Win) -> bool {
        self.has(win) && self.entry(win).kind is Dock
    }

    /// The first dock from `k` on.
    pub open spec fn dock_from(self, k: int) -> Option<(Win, DockData)>
        decreases self.entries.len() - k,
    {
        if k >= self.entries.len() {
            None
        } else {
            match self.entries[k].kind {
                Kind::Dock(d) => Some((self.entries[k].win, d)),
                _ => self.dock_from(k + 1),
            }
        }
    }

    /// The tiled windows among the first `n` entries, in order.
    pub open spec fn tiled_to(self, n: int) -> Seq<Win>
        decreases n,
    {
        if n <= 0 {
            Seq::empty()
        } else if self.entries[n - 1].kind is Tiled {
            self.tiled_to(n - 1).push(self.entries[n - 1].win)
        } else {
            self.tiled_to(n - 1)
        }
    }

    /// The floats among the first `n` entries, in order.
    pub open spec fn floats_to(self, n: int) -> Seq<Win>
        decreases n,
    {
        if n <= 0 {
            Seq::empty()
        } else if self.entries[n - 1].kind is Float {
            self.floats_to(n - 1).push(self.entries[n - 1].win)
        } else {
            self.floats_to(n - 1)
        }
    }

    /// The floats among the first `n` entries whose strips are due for a
    /// repaint, in order.
    pub open spec fn stale_to(self, n: int) -> Seq<Win>
        decreases n,
    {
        if n <= 0 {
            Seq::empty()
        } else if self.entries[n - 1].kind is Float
            && self.entries[n - 1].kind->Float_0.frame is Stale {
            self.stale_to(n - 1).push(self.entries[n - 1].win)
        } else {
            self.stale_to(n - 1)
        }
    }

    /// The store after a window of this kind was managed.
    pub open spec fn inserted(self, kind: Kind) -> Store {
        let win = (self.next + 1) as u32;
        Store {
            next: win,
            entries: self.entries.push(
                ManagedWindow { win, kind, icon: None, icon_rotated: None, icon_slot: None },
            ),
        }
    }

    /// The store with another entry in place of that of `win`.
    pub open spec fn replaced(self, win: Win, entry: ManagedWindow) -> Store {
        Store { next: self.next, entries: self.entries.update(self.at(win), entry) }
    }

    /// The store after `win` left.
    pub open spec fn removed(self, win: Win) -> Store {
        Store { next: self.next, entries: self.entries.remove(self.at(win)) }
    }
}

impl View for Managed {
    type V = Store;

    closed spec fn view(&self) -> Store {
        Store { next: self.next, entries: self.entries@ }
    }
}

/// The entry of a window is the only one with its id.
pub proof fn lemma_at(s: Store, win: Win, i: int)
    requires
        s.wf(),
        s.sits(win, i),
    ensures
        s.has(win),
        s.at(win) == i,
{
    let a = s.at(win);
    assert(s.sits(win, a));
    if a < i {
        assert(s.entries[a].win < s.entries[i].win);
    }
    if i < a {
        assert(s.entries[i].win < s.entries[a].win);
    }
}

impl Default for Managed {
    fn default() -> (m: Managed)
        ensures
            m@.wf(),
            m@ == (Store { next: 0, entries: Seq::empty() }),
    {
        let m = Managed { next: 0, entries: Vec::new() };
        assert(m@.entries =~= Seq::empty());
        m
    }
}

impl Managed {
    /// How many more windows the ids last for.
    pub fn ids_left(&self) -> (n: u32)
        ensures
            n == u32::MAX - self@.next,
    {
        u32::MAX - self.next
    }

    /// Manage a window of this kind under a fresh id.
    pub fn insert(&mut self, kind: Kind) -> (win: Win)
        requires
            old(self)@.wf(),
            old(self)@.next < u32::MAX,
        ensures
            final(self)@.wf(),
            win == old(self)@.next + 1,
            final(self)@ == old(self)@.inserted(kind),
            !old(self)@.has(win),
            final(self)@.has(win),
            final(self)@.entry(win).kind == kind,
    {
        let ghost was = self@;
        self.next = self.next + 1;
        self.entries.push(
            ManagedWindow {
                win: self.next,
                kind,
                icon: None,
                icon_rotated: None,
                icon_slot: None,
            },
        );
        proof {
            assert(self@ =~= was.inserted(kind));
            if was.has(self.next) {
                assert(was.sits(self.next, was.at(self.next)));
            }
            lemma_at(self@, self.next, was.entries.len() as int);
        }
        self.next
    }

    /// The place of a window's entry, or the number of entries.
    fn find(&self, win: Win) -> (at: usize)
        requires
            self@.wf(),
        ensures
            at <= self@.entries.len(),
            at < self@.entries.len() <==> self@.has(win),
            at < self@.entries.len() ==> at == self@.at(win) && self@.entries[at as int].win
                == win,
    {
        let mut k: usize = 0;
        while k < self.entries.len() && self.entries[k].win != win
            invariant
                k <= self@.entries.len(),
                self@.entries == self.entries@,
                forall|j: int| 0 <= j < k ==> (#[trigger] self@.entries[j]).win != win,
            decreases self@.entries.len() - k,
        {
            k = k + 1;
        }
        proof {
            if k < self@.entries.len() {
                assert(self@.sits(win, k as int));
                lemma_at(self@, win, k as int);
            } else if self@.has(win) {
                assert(self@.sits(win, self@.at(win)));
            }
        }
        k
    }

    /// Forget a window; its entry is handed back.
    pub fn remove(&mut self, win: Win) -> (gone: Option<ManagedWindow>)
        requires
            old(self)@.wf(),
        ensures
            final(self)@.wf(),
            !final(self)@.has(win),
            gone is Some == old(self)@.has(win),
            old(self)@.has(win) ==> gone == Some(old(self)@.entry(win)) && final(self)@ == old(
                self,
            )@.removed(win),
            !old(self)@.has(win) ==> final(self)@ == old(self)@,
    {
        let ghost was = self@;
        let at: usize = self.find(win);
        if at < self.entries.len() {
            let m = self.entries.remove(at);
            proof {
                assert(self@ =~= was.removed(win));
                lemma_removed(was, win);
            }
            Some(m)
        } else {
            None
        }
    }

    /// Whether a window is managed.
    pub fn contains(&self, win: Win) -> (b: bool)
        requires
            self@.wf(),
        ensures
            b == self@.has(win),
    {
        self.find(win) < self.entries.len()
    }

    /// A window's entry.
    pub fn entry(&self, win: Win) -> (res: Option<&ManagedWindow>)
        requires
            self@.wf(),
        ensures
            res is Some == self@.has(win),
            res is Some ==> *res->0 == self@.entry(win),
    {
        let at: usize = self.find(win);
        if at < self.entries.len() {
            Some(&self.entries[at])
        } else {
            None
        }
    }

    /// Put another entry in place of a window's own, under the same id.
    pub fn replace(&mut self, entry: ManagedWindow)
        requires
            old(self)@.wf(),
        ensures
            final(self)@.wf(),
            old(self)@.has(entry.win) ==> final(self)@ == old(self)@.replaced(entry.win, entry),
            !old(self)@.has(entry.win) ==> final(self)@ == old(self)@,
    {
        let ghost was = self@;
        let at: usize = self.find(entry.win);
        if at < self.entries.len() {
            self.entries.set(at, entry);
            proof {
                assert(self@ =~= was.replaced(entry.win, entry));
            }
        }
    }

    /// Give a window its icons and hue slot.
    pub fn set_icons(
        &mut self,
        win: Win,
        icon: Option<IconId>,
        icon_rotated: Option<IconId>,
        icon_slot: Option<usize>,
    )
        requires
            old(self)@.wf(),
        ensures
            final(self)@.wf(),
            old(self)@.has(win) ==> final(self)@ == old(self)@.replaced(
                win,
                (ManagedWindow { icon, icon_rotated, icon_slot, ..old(self)@.entry(win) }),
            ),
            !old(self)@.has(win) ==> final(self)@ == old(self)@,
    {
        let ghost was = self@;
        let at: usize = self.find(win);
        if at < self.entries.len() {
            self.entries[at].icon = icon;
            self.entries[at].icon_rotated = icon_rotated;
            self.entries[at].icon_slot = icon_slot;
            proof {
                assert(self@ =~= was.replaced(
                    win,
                    (ManagedWindow { icon, icon_rotated, icon_slot, ..was.entry(win) }),
                ));
            }
        }
    }

    /// A float's payload.
    pub fn float(&self, win: Win) -> (res: Option<&FloatData>)
        requires
            self@.wf(),
        ensures
            res is Some == self@.is_float(win),
            res is Some ==> Kind::Float(*res->0) == self@.entry(win).kind,
    {
        match self.entry(win) {
            Some(m) => match &m.kind {
                Kind::Float(f) => Some(f),
                _ => None,
            },
            None => None,
        }
    }

    /// Move a float: pure repositioning, no repaint.
    pub fn move_float(&mut self, win: Win, x: i32, y: i32)
        requires
            old(self)@.wf(),
        ensures
            final(self)@.wf(),
            final(self)@ == (if old(self)@.is_float(win) {
                old(self)@.replaced(
                    win,
                    (ManagedWindow {
                        kind: Kind::Float(
                            (FloatData { x, y, ..old(self)@.entry(win).kind->Float_0 }),
                        ),
                        ..old(self)@.entry(win)
                    }),
                )
            } else {
                old(self)@
            }),
    {
        let ghost was = self@;
        let at: usize = self.find(win);
        if at < self.entries.len() {
            let mut kind = Kind::Tiled;
            std::mem::swap(&mut kind, &mut self.entries[at].kind);
            self.entries[at].kind = match kind {
                Kind::Float(f) => Kind::Float(
                    FloatData {
                        parent: f.parent,
                        x,
                        y,
                        w: f.w,
                        h: f.h,
                        accent: f.accent,
                        frame: f.frame,
                    },
                ),
                Kind::Tiled => Kind::Tiled,
                Kind::Dock(d) => Kind::Dock(d),
            };
            proof {
                let e = self.entries@[at as int];
                assert(self@ =~= was.replaced(win, e));
                if !was.is_float(win) {
                    assert(self@.entries =~= was.entries);
                }
            }
        }
    }

    /// Flag a float's titlebar strip for a repaint.
    pub fn mark_float_stale(&mut self, win: Win)
        requires
            old(self)@.wf(),
        ensures
            final(self)@.wf(),
            final(self)@ == (if old(self)@.is_float(win) {
                let f = old(self)@.entry(win).kind->Float_0;
                old(self)@.replaced(
                    win,
                    (ManagedWindow {
                        kind: Kind::Float(
                            (FloatData { frame: FrameTex::Stale(f.frame.held()), ..f }),
                        ),
                        ..old(self)@.entry(win)
                    }),
                )
            } else {
                old(self)@
            }),
    {
        let ghost was = self@;
        let at: usize = self.find(win);
        if at < self.entries.len() {
            let mut kind = Kind::Tiled;
            std::mem::swap(&mut kind, &mut self.entries[at].kind);
            self.entries[at].kind = match kind {
                Kind::Float(f) => {
                    let mut f = f;
                    f.frame.mark_stale();
                    Kind::Float(f)
                },
                Kind::Tiled => Kind::Tiled,
                Kind::Dock(d) => Kind::Dock(d),
            };
            proof {
                let e = self.entries@[at as int];
                assert(self@ =~= was.replaced(win, e));
                if !was.is_float(win) {
                    assert(self@.entries =~= was.entries);
                }
            }
        }
    }

    /// The docked window, if any.
    pub fn dock(&self) -> (res: Option<(Win, DockData)>)
        ensures
            res == self@.dock_from(0),
    {
        let mut k: usize = 0;
        while k < self.entries.len()
            invariant
                k <= self@.entries.len(),
                self@.entries == self.entries@,
                self@.dock_from(0) == self@.dock_from(k as int),
            decreases self@.entries.len() - k,
        {
            match &self.entries[k].kind {
                Kind::Dock(d) => {
                    return Some((self.entries[k].win, *d));
                },
                _ => {},
            }
            k = k + 1;
        }
        None
    }

    /// A window's role.
    pub fn kind_of(&self, win: Win) -> (res: Option<&Kind>)
        requires
            self@.wf(),
        ensures
            res is Some == self@.has(win),
            res is Some ==> *res->0 == self@.entry(win).kind,
    {
        match self.entry(win) {
            Some(m) => Some(&m.kind),
            None => None,
        }
    }

    /// Tiled windows in taskbar order.
    pub fn tiled(&self) -> (wins: Vec<Win>)
        ensures
            wins@ == self@.tiled_to(self@.entries.len() as int),
    {
        let mut wins: Vec<Win> = Vec::new();
        let mut k: usize = 0;
        while k < self.entries.len()
            invariant
                k <= self@.entries.len(),
                self@.entries == self.entries@,
                wins@ == self@.tiled_to(k as int),
            decreases self@.entries.len() - k,
        {
            match &self.entries[k].kind {
                Kind::Tiled => {
                    wins.push(self.entries[k].win);
                },
                _ => {},
            }
            k = k + 1;
        }
        wins
    }

    /// Floats in insertion order.
    pub fn floats(&self) -> (wins: Vec<Win>)
        ensures
            wins@ == self@.floats_to(self@.entries.len() as int),
    {
        let mut wins: Vec<Win> = Vec::new();
        let mut k: usize = 0;
        while k < self.entries.len()
            invariant
                k <= self@.entries.len(),
                self@.entries == self.entries@,
                wins@ == self@.floats_to(k as int),
            decreases self@.entries.len() - k,
        {
            match &self.entries[k].kind {
                Kind::Float(_) => {
                    wins.push(self.entries[k].win);
                },
                _ => {},
            }
            k = k + 1;
        }
        wins
    }

    /// The floats whose strips are due for a repaint, in insertion order.
    pub fn stale_floats(&self) -> (wins: Vec<Win>)
        ensures
            wins@ == self@.stale_to(self@.entries.len() as int),
    {
        let mut wins: Vec<Win> = Vec::new();
        let mut k: usize = 0;
        while k < self.entries.len()
            invariant
                k <= self@.entries.len(),
                self@.entries == self.entries@,
                wins@ == self@.stale_to(k as int),
            decreases self@.entries.len() - k,
        {
            match &self.entries[k].kind {
                Kind::Float(f) => {
                    if f.frame.is_stale() {
                        wins.push(self.entries[k].win);
                    }
                },
                _ => {},
            }
            k = k + 1;
        }
        wins
    }

    /// Every managed window, oldest first.
    pub fn windows(&self) -> (wins: Vec<Win>)
        ensures
            wins@ == self@.entries.map_values(|m: ManagedWindow| m.win),
    {
        let mut wins: Vec<Win> = Vec::new();
        let mut k: usize = 0;
        while k < self.entries.len()
            invariant
                k <= self@.entries.len(),
                self@.entries == self.entries@,
                wins@ == self@.entries.take(k as int).map_values(|m: ManagedWindow| m.win),
            decreases self@.entries.len() - k,
        {
            wins.push(self.entries[k].win);
            proof {
                assert(wins@ =~= self@.entries.take(k + 1).map_values(|m: ManagedWindow| m.win));
            }
            k = k + 1;
        }
        proof {
            assert(self@.entries.take(k as int) =~= self@.entries);
        }
        wins
    }
}

/// What removing a window does to the others.
pub proof fn lemma_removed(s: Store, win: Win)
    requires
        s.wf(),
        s.has(win),
    ensures
        s.removed(win).wf(),
        !s.removed(win).has(win),
        forall|w: Win| w != win ==> s.removed(win).has(w) == #[trigger] s.has(w),
        forall|w: Win|
            w != win && #[trigger] s.has(w) ==> s.removed(win).entry(w) == s.entry(w),
{
    let at = s.at(win);
    let n = s.removed(win);
    assert(s.sits(win, at));
    assert forall|i: int| 0 <= i < n.entries.len() implies #[trigger] n.entries[i] == s.entries[if i
        < at {
        i
    } else {
        i + 1
    }] by {}
    if n.has(win) {
        let i = n.at(win);
        assert(n.sits(win, i));
        let j = if i < at {
            i
        } else {
            i + 1
        };
        assert(s.sits(win, j));
        lemma_at(s, win, j);
    }
    assert forall|w: Win| w != win implies n.has(w) == #[trigger] s.has(w) && (s.has(w) ==> n.entry(w)
        == s.entry(w)) by {
        if s.has(w) {
            let j = s.at(w);
            assert(s.sits(w, j));
            let i = if j < at {
                j
            } else {
                j - 1
            };
            assert(n.sits(w, i));
            lemma_at(n, w, i);
        }
        if n.has(w) {
            let i = n.at(w);
            assert(n.sits(w, i));
            let j = if i < at {
                i
            } else {
                i + 1
            };
            assert(s.sits(w, j));
        }
    }
}

/// Window ids are never reused: whatever windows leave after a store handed
/// an id out, the next id it hands out is a later one.
pub proof fn ids_are_never_reused(s: Store, kind: Kind, gone: Win, next_kind: Kind)
    requires
        s.wf(),
        s.next < u32::MAX - 1,
        s.inserted(kind).has(gone),
    ensures
        ({
            let first = s.inserted(kind);
            let later = first.removed(gone).inserted(next_kind);
            &&& later.next > first.next
            &&& !first.has(later.next)
        }),
{
    let first = s.inserted(kind);
    let later = first.removed(gone).inserted(next_kind);
    if first.has(later.next) {
        assert(first.sits(later.next, first.at(later.next)));
    }
}

/// The client area inside a leaf's chrome frame.
pub open spec fn client_area(r: Rect, min_w: int, min_h: int, th: Theme) -> Rect {
    Rect {
        x: (r.x + th.border_left) as i32,
        y: (r.y + th.tb_h) as i32,
        w: imax(imax(r.w - 2 * th.border_left, min_w), 1) as i32,
        h: imax(imax(r.h - th.tb_h - th.border_bottom, min_h), 1) as i32,
    }
}

/// Whether a frame's client area is in range.
pub open spec fn frame_fits(r: Rect, th: Theme) -> bool {
    &&& fits_i32(r.x + th.border_left)
    &&& fits_i32(r.y + th.tb_h)
    &&& fits_i32(r.w - 2 * th.border_left)
    &&& fits_i32(r.h - th.tb_h)
    &&& fits_i32(r.h - th.tb_h - th.border_bottom)
}

/// Client-area rect inside a leaf's chrome frame: below the titlebar,
/// inside the side and bottom borders. `min` lets a client's size floor
/// overhang the frame rather than be clipped.
pub fn client_rect_in_frame(r: Rect, min: (i32, i32), th: &Theme) -> (c: Rect)
    requires
        th.wf(),
        frame_fits(r, *th),
    ensures
        c == client_area(r, min.0 as int, min.1 as int, *th),
        c.w >= 1 && c.h >= 1,
{
    let bw: i32 = th.border_left;
    let tb: i32 = th.tb_h;
    Rect {
        x: r.x + bw,
        y: r.y + tb,
        w: max_i32(max_i32(r.w - 2 * bw, min.0), 1),
        h: max_i32(max_i32(r.h - tb - th.border_bottom, min.1), 1),
    }
}

/// Law: the tiled windows, the floats and the floats to be drawn again are
/// listed in the order they were managed, each once and no other window
/// among them.
pub proof fn windows_are_listed_by_kind(s: Store, n: int)
    requires
        0 <= n <= s.entries.len(),
    ensures
        forall|i: int|
            0 <= i < n ==> (s.tiled_to(n).contains((#[trigger] s.entries[i]).win)
                <== s.entries[i].kind is Tiled),
        forall|i: int|
            0 <= i < n ==> (s.floats_to(n).contains((#[trigger] s.entries[i]).win)
                <== s.entries[i].kind is Float),
        forall|i: int|
            0 <= i < n ==> (s.stale_to(n).contains((#[trigger] s.entries[i]).win)
                <== s.entries[i].kind is Float && s.entries[i].kind->Float_0.frame is Stale),
        forall|k: int|
            0 <= k < s.tiled_to(n).len() ==> exists|i: int|
                0 <= i < n && (#[trigger] s.entries[i]).win == #[trigger] s.tiled_to(n)[k]
                    && s.entries[i].kind is Tiled,
        forall|k: int|
            0 <= k < s.floats_to(n).len() ==> exists|i: int|
                0 <= i < n && (#[trigger] s.entries[i]).win == #[trigger] s.floats_to(n)[k]
                    && s.entries[i].kind is Float,
        forall|k: int|
            0 <= k < s.stale_to(n).len() ==> exists|i: int|
                0 <= i < n && (#[trigger] s.entries[i]).win == #[trigger] s.stale_to(n)[k]
                    && s.entries[i].kind is Float && s.entries[i].kind->Float_0.frame is Stale,
    decreases n,
{
    if n > 0 {
        windows_are_listed_by_kind(s, n - 1);
        let e = s.entries[n - 1];
        lemma_listed(s.tiled_to(n - 1), s.tiled_to(n), e.win);
        lemma_listed(s.floats_to(n - 1), s.floats_to(n), e.win);
        lemma_listed(s.stale_to(n - 1), s.stale_to(n), e.win);
    }
}

/// A list that is as it was, or has one window more, has what it had and,
/// in the second case, that window.
proof fn lemma_listed(before: Seq<Win>, after: Seq<Win>, win: Win)
    requires
        after == before || after == before.push(win),
    ensures
        forall|w: Win| before.contains(w) ==> #[trigger] after.contains(w),
        after == before.push(win) ==> after.contains(win),
        forall|k: int| 0 <= k < before.len() ==> #[trigger] after[k] == before[k],
{
    assert forall|w: Win| before.contains(w) implies #[trigger] after.contains(w) by {
        let k = choose|k: int| 0 <= k < before.len() && before[k] == w;
        assert(after[k] == w);
    }
    if after == before.push(win) {
        assert(after[before.len() as int] == win);
    }
}

/// Law: a frame keeps its picture when it goes stale, so that there is always
/// something to show; a drawn picture makes it fresh, and none makes it
/// stale.
pub proof fn stale_frames_keep_their_picture<T>(f: FrameTex<T>, t: T)
    ensures
        FrameTex::Stale(f.held()).held() == f.held(),
        FrameTex::Fresh(t).held() == Some(t),
        FrameTex::<T>::Stale(None).held() is None,
{
}

/// Law: a float's frame surrounds it by the borders: the side border left and
/// right, the top border above and the bottom border below.
pub proof fn float_frames_surround_their_window(f: FloatData, th: Theme)
    requires
        f.fits(th),
    ensures
        ({
            let r = f.framed(th);
            &&& r.x + th.border_left == f.x
            &&& r.y + th.border_top == f.y
            &&& r.x + r.w - th.border_left == f.x + f.w
            &&& r.y + r.h - th.border_bottom == f.y + f.h
        }),
{
}

/// Law: a tiled window has what its frame leaves inside the borders and below
/// the titlebar, and never less than it asks for or than a pixel.
pub proof fn windows_get_what_their_frame_leaves(r: Rect, min_w: int, min_h: int, th: Theme)
    requires
        th.wf(),
        frame_fits(r, th),
        min_w <= i32::MAX,
        min_h <= i32::MAX,
    ensures
        ({
            let c = client_area(r, min_w, min_h, th);
            &&& c.x - r.x == th.border_left
            &&& c.y - r.y == th.tb_h
            &&& c.w >= 1 && c.w >= min_w
            &&& c.h >= 1 && c.h >= min_h
            &&& c.w > 1 && c.w > min_w ==> c.x + c.w + th.border_left == r.x + r.w
            &&& c.h > 1 && c.h > min_h ==> c.y + c.h + th.border_bottom == r.y + r.h
        }),
{
}

/// Law: a managed window is of exactly one kind, and any other of none.
pub proof fn windows_are_of_one_kind(s: Store, win: Win)
    ensures
        !s.has(win) ==> !s.is_float(win) && !s.is_tiled(win) && !s.is_dock(win),
        s.has(win) ==> s.is_float(win) || s.is_tiled(win) || s.is_dock(win),
        !(s.is_float(win) && s.is_tiled(win)),
        !(s.is_float(win) && s.is_dock(win)),
        !(s.is_tiled(win) && s.is_dock(win)),
{
}

} // verus!
