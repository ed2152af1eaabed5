//! The chrome behind the windows as independently cached pieces: the
//! wallpaper, a frame and a titlebar strip per split, the insert buttons
//! and the bottom bar. A piece is drawn again only when what it is drawn
//! from has changed.

use crate::chrome::{BtnIcon, LeafView, TitleInfo};
use crate::geom::{fits_i32, half, half_i32, imin, max_i32, min_i32, Rect};
use crate::layout::{Dir, NodeId};
use crate::pointer::{BtnKind, QuickTile, Region, Side, TaskTile};
use crate::text::same_str;
use crate::Index;
use vstd::prelude::*;

pub mod laws;

verus! {

/// Which sprite a split's frame slices: the window border, or the restore
/// strip along either axis.
#[derive(Clone, Copy, PartialEq, Eq, Debug, Structural)]
pub enum FrameMode {
    Border,
    MinV,
    MinH,
}

/// Where a split's frame is drawn within its rect: the whole rect, or the
/// restore strip centred across the short axis at its native size.
pub open spec fn frame_dst_of(rect: Rect, mode: FrameMode, sprite: (i32, i32)) -> Rect {
    match mode {
        FrameMode::Border => rect,
        FrameMode::MinV => {
            let w = imin(sprite.0 as int, rect.w as int);
            Rect { x: (rect.x + half(rect.w - w)) as i32, y: rect.y, w: w as i32, h: rect.h }
        },
        FrameMode::MinH => {
            let h = imin(sprite.1 as int, rect.h as int);
            Rect { x: rect.x, y: (rect.y + half(rect.h - h)) as i32, w: rect.w, h: h as i32 }
        },
    }
}

/// Place a split's frame within its rect.
pub fn frame_dst(rect: Rect, mode: FrameMode, sprite: (i32, i32)) -> (dst: Rect)
    requires
        0 <= rect.w,
        0 <= rect.h,
        0 <= sprite.0,
        0 <= sprite.1,
        fits_i32(rect.right()),
        fits_i32(rect.bottom()),
    ensures
        dst == frame_dst_of(rect, mode, sprite),
        rect.encloses(dst),
{
    match mode {
        FrameMode::Border => rect,
        FrameMode::MinV => {
            let w: i32 = min_i32(sprite.0, rect.w);
            Rect { x: rect.x + half_i32(rect.w - w), y: rect.y, w, h: rect.h }
        },
        FrameMode::MinH => {
            let h: i32 = min_i32(sprite.1, rect.h);
            Rect { x: rect.x, y: rect.y + half_i32(rect.h - h), w: rect.w, h }
        },
    }
}

/// One baked split-control button, its centre relative to the split.
#[derive(Clone, Copy, PartialEq, Eq, Debug, Structural)]
pub struct BtnPaint {
    pub cx: i32,
    pub cy: i32,
    pub icon: BtnIcon,
    pub disabled: bool,
    pub accent: Index,
}

/// What a split is among the others: stacked with another, the only one,
/// holding a window, and which way it can be divided, if any: by a vertical
/// gap into two columns, or by a horizontal one into two rows.
#[derive(Clone, Copy, PartialEq, Eq, Debug, Structural)]
pub struct LeafMeta {
    pub stacked: bool,
    pub sole: bool,
    pub occupied: bool,
    pub split_dir: Option<Dir>,
}

/// A button at its rect. A stacked split collapses to a row, so that its
/// button previews that. The split button previews the divider that its
/// click draws. A sole split cannot be minimized, and an empty sole one
/// cannot be closed.
pub open spec fn button_paint(
    kind: BtnKind,
    r: Rect,
    rect: Rect,
    meta: LeafMeta,
    accent: Index,
) -> BtnPaint {
    BtnPaint {
        cx: (r.x + half(r.w as int) - rect.x) as i32,
        cy: (r.y + half(r.h as int) - rect.y) as i32,
        icon: match kind {
            BtnKind::Minimize => if meta.stacked {
                BtnIcon::MinimizeH
            } else {
                BtnIcon::Minimize
            },
            BtnKind::Split => match meta.split_dir {
                Some(Dir::H) => BtnIcon::VSplit,
                Some(Dir::V) => BtnIcon::HSplit,
                None => BtnIcon::HSplit,
            },
            BtnKind::Close => BtnIcon::Close,
        },
        disabled: match kind {
            BtnKind::Minimize => meta.sole,
            BtnKind::Split => meta.split_dir is None,
            BtnKind::Close => !meta.occupied && meta.sole,
        },
        accent,
    }
}

/// The buttons baked into a split's titlebar, relative to its corner. A
/// minimized split has none: its whole strip is the button.
pub fn leaf_buttons(
    regions: &Vec<(BtnKind, Rect)>,
    rect: Rect,
    meta: LeafMeta,
    minimized: bool,
    accent: Index,
) -> (out: Vec<BtnPaint>)
    requires
        forall|i: int|
            0 <= i < regions@.len() ==> {
                let r = (#[trigger] regions@[i]).1;
                &&& fits_i32(r.x + half(r.w as int))
                &&& fits_i32(r.y + half(r.h as int))
                &&& fits_i32(r.x + half(r.w as int) - rect.x)
                &&& fits_i32(r.y + half(r.h as int) - rect.y)
            },
    ensures
        out@ == (if minimized {
            Seq::empty()
        } else {
            Seq::new(
                regions@.len(),
                |i: int| button_paint(regions@[i].0, regions@[i].1, rect, meta, accent),
            )
        }),
{
    let mut out: Vec<BtnPaint> = Vec::new();
    if minimized {
        return out;
    }
    let mut k: usize = 0;
    while k < regions.len()
        invariant
            k <= regions@.len(),
            forall|i: int|
                0 <= i < regions@.len() ==> {
                    let r = (#[trigger] regions@[i]).1;
                    &&& fits_i32(r.x + half(r.w as int))
                    &&& fits_i32(r.y + half(r.h as int))
                    &&& fits_i32(r.x + half(r.w as int) - rect.x)
                    &&& fits_i32(r.y + half(r.h as int) - rect.y)
                },
            out@ == Seq::new(
                k as nat,
                |i: int| button_paint(regions@[i].0, regions@[i].1, rect, meta, accent),
            ),
        decreases regions@.len() - k,
    {
        let (kind, r) = regions[k];
        let (icon, disabled) = match kind {
            BtnKind::Minimize => (
                if meta.stacked {
                    BtnIcon::MinimizeH
                } else {
                    BtnIcon::Minimize
                },
                meta.sole,
            ),
            BtnKind::Split => match meta.split_dir {
                Some(Dir::H) => (BtnIcon::VSplit, false),
                Some(Dir::V) => (BtnIcon::HSplit, false),
                None => (BtnIcon::HSplit, true),
            },
            BtnKind::Close => (BtnIcon::Close, !meta.occupied && meta.sole),
        };
        out.push(
            BtnPaint {
                cx: r.x + half_i32(r.w) - rect.x,
                cy: r.y + half_i32(r.h) - rect.y,
                icon,
                disabled,
                accent,
            },
        );
        k = k + 1;
        proof {
            assert(out@ =~= Seq::new(
                k as nat,
                |i: int| button_paint(regions@[i].0, regions@[i].1, rect, meta, accent),
            ));
        }
    }
    out
}

/// What one split's frame is drawn from.
pub struct LeafPaint {
    pub w: i32,
    pub h: i32,
    pub accent: Index,
    pub minimized: bool,
    pub title: Option<TitleInfo>,
    pub buttons: Vec<BtnPaint>,
}

/// A titlebar strip's fingerprint, mathematically: everything its drawing
/// depends on.
pub struct TitlebarView {
    pub w: i32,
    pub accent: Index,
    pub title: Option<(char, Option<u64>, Seq<char>)>,
    pub buttons: Seq<BtnPaint>,
}

/// What is kept of a split, mathematically.
pub struct PieceView {
    pub accent: Index,
    pub mode: FrameMode,
    pub titlebar: Option<TitlebarView>,
}

/// What a title is told apart by.
pub open spec fn title_view(t: Option<TitleInfo>) -> Option<(char, Option<u64>, Seq<char>)> {
    match t {
        Some(info) => Some((info.label, info.icon, info.title@)),
        None => None,
    }
}

impl LeafPaint {
    /// The sprite the frame slices.
    pub open spec fn mode_of(self) -> FrameMode {
        if !self.minimized {
            FrameMode::Border
        } else if self.w < self.h {
            FrameMode::MinV
        } else {
            FrameMode::MinH
        }
    }

    /// What is kept once this paint is up: a titlebar strip unless the split
    /// is minimized, or has nothing to show in one.
    pub open spec fn kept(self) -> PieceView {
        PieceView {
            accent: self.accent,
            mode: self.mode_of(),
            titlebar: if self.minimized || (self.title is None && self.buttons@.len() == 0) {
                None
            } else {
                Some(
                    TitlebarView {
                        w: self.w,
                        accent: self.accent,
                        title: title_view(self.title),
                        buttons: self.buttons@,
                    },
                )
            },
        }
    }

    pub fn mode(&self) -> (m: FrameMode)
        ensures
            m == self.mode_of(),
    {
        if !self.minimized {
            FrameMode::Border
        } else if self.w < self.h {
            FrameMode::MinV
        } else {
            FrameMode::MinH
        }
    }

    /// What the titlebar strip is drawn from, given the titlebar's height
    /// and the border's width.
    pub fn view(&self, tb_h: i32, bw: i32) -> (v: LeafView)
        ensures
            v.w == self.w,
            v.tb_h == tb_h,
            v.bw == bw,
            v.accent_index == self.accent,
            title_view(v.titlebar) == title_view(self.title),
            v.buttons,
    {
        LeafView {
            w: self.w,
            tb_h,
            bw,
            accent_index: self.accent,
            titlebar: match &self.title {
                Some(t) => Some(
                    TitleInfo { label: t.label, icon: t.icon, title: t.title.as_str().to_owned() },
                ),
                None => None,
            },
            buttons: true,
        }
    }

    fn titlebar_key(&self) -> (k: TitlebarKey)
        ensures
            k@ == (TitlebarView {
                w: self.w,
                accent: self.accent,
                title: title_view(self.title),
                buttons: self.buttons@,
            }),
    {
        let mut buttons: Vec<BtnPaint> = Vec::new();
        buttons.extend_from_slice(self.buttons.as_slice());
        let k = TitlebarKey {
            w: self.w,
            accent: self.accent,
            title: match &self.title {
                Some(t) => Some(
                    TitleInfo { label: t.label, icon: t.icon, title: t.title.as_str().to_owned() },
                ),
                None => None,
            },
            buttons,
        };
        proof {
            assert(k.buttons@ =~= self.buttons@);
        }
        k
    }
}

/// A titlebar strip's fingerprint: it is drawn again when this changes.
/// Icons are told apart by identity, titles by content.
pub struct TitlebarKey {
    pub w: i32,
    pub accent: Index,
    pub title: Option<TitleInfo>,
    pub buttons: Vec<BtnPaint>,
}

impl View for TitlebarKey {
    type V = TitlebarView;

    open spec fn view(&self) -> TitlebarView {
        TitlebarView {
            w: self.w,
            accent: self.accent,
            title: title_view(self.title),
            buttons: self.buttons@,
        }
    }
}

fn same_icon(a: Option<u64>, b: Option<u64>) -> (same: bool)
    ensures
        same == (a == b),
{
    match (a, b) {
        (Some(x), Some(y)) => x == y,
        (None, None) => true,
        _ => false,
    }
}

fn same_titlebar(a: &TitlebarKey, b: &TitlebarKey) -> (same: bool)
    ensures
        same == (a@ == b@),
{
    if a.w != b.w || a.accent != b.accent || a.buttons.len() != b.buttons.len() {
        return false;
    }
    let same_title = match (&a.title, &b.title) {
        (Some(x), Some(y)) => x.label == y.label && same_icon(x.icon, y.icon) && same_str(
            x.title.as_str(),
            y.title.as_str(),
        ),
        (None, None) => true,
        _ => false,
    };
    if !same_title {
        return false;
    }
    let mut k: usize = 0;
    while k < a.buttons.len()
        invariant
            k <= a.buttons@.len(),
            a.buttons@.len() == b.buttons@.len(),
            forall|i: int| 0 <= i < k ==> a.buttons@[i] == b.buttons@[i],
        decreases a.buttons@.len() - k,
    {
        if a.buttons[k] != b.buttons[k] {
            proof {
                assert(a@.buttons[k as int] != b@.buttons[k as int]);
            }
            return false;
        }
        k = k + 1;
    }
    proof {
        assert(a.buttons@ =~= b.buttons@);
    }
    true
}

/// One split's cached frame: its accent and sprite, and the fingerprint of
/// the titlebar strip that was drawn.
pub struct LeafPiece {
    pub leaf: NodeId,
    pub accent: Index,
    pub mode: FrameMode,
    pub titlebar: Option<TitlebarKey>,
}

impl View for LeafPiece {
    type V = PieceView;

    open spec fn view(&self) -> PieceView {
        PieceView {
            accent: self.accent,
            mode: self.mode,
            titlebar: match self.titlebar {
                Some(k) => Some(k@),
                None => None,
            },
        }
    }
}

/// What is kept for `leaf` from entry `k` on.
pub open spec fn piece_from(s: Seq<LeafPiece>, leaf: NodeId, k: int) -> Option<PieceView>
    decreases s.len() - k,
{
    if k >= s.len() {
        None
    } else if s[k].leaf == leaf {
        Some(s[k]@)
    } else {
        piece_from(s, leaf, k + 1)
    }
}

proof fn lemma_piece_update(s: Seq<LeafPiece>, at: int, p: LeafPiece, leaf: NodeId, k: int)
    requires
        0 <= k <= s.len(),
        0 <= at < s.len(),
        p.leaf == s[at].leaf,
        leaf != p.leaf,
    ensures
        piece_from(s.update(at, p), leaf, k) == piece_from(s, leaf, k),
    decreases s.len() - k,
{
    if k < s.len() {
        lemma_piece_update(s, at, p, leaf, k + 1);
    }
}

proof fn lemma_piece_push(s: Seq<LeafPiece>, p: LeafPiece, leaf: NodeId, k: int)
    requires
        0 <= k <= s.len(),
    ensures
        piece_from(s.push(p), leaf, k) == (match piece_from(s, leaf, k) {
            Some(v) => Some(v),
            None => if p.leaf == leaf {
                Some(p@)
            } else {
                None
            },
        }),
    decreases s.len() - k,
{
    if k < s.len() {
        assert(s.push(p)[k] == s[k]);
        lemma_piece_push(s, p, leaf, k + 1);
    } else {
        assert(s.push(p)[k] == p);
        assert(piece_from(s.push(p), leaf, k + 1) is None);
    }
}

proof fn lemma_piece_remove(s: Seq<LeafPiece>, at: int, leaf: NodeId, k: int)
    requires
        0 <= k <= s.len(),
        0 <= at < s.len(),
        s[at].leaf != leaf,
    ensures
        k <= at ==> piece_from(s.remove(at), leaf, k) == piece_from(s, leaf, k),
        k > at ==> piece_from(s.remove(at), leaf, k - 1) == piece_from(s, leaf, k),
    decreases s.len() - k,
{
    let r = s.remove(at);
    if k < s.len() {
        lemma_piece_remove(s, at, leaf, k + 1);
        if k < at {
            assert(r[k] == s[k]);
        } else if k > at {
            assert(r[k - 1] == s[k]);
        }
    }
}

proof fn lemma_piece_found(s: Seq<LeafPiece>, at: int, leaf: NodeId, k: int)
    requires
        0 <= k <= at < s.len(),
        s[at].leaf == leaf,
        forall|i: int| k <= i < at ==> (#[trigger] s[i]).leaf != leaf,
    ensures
        piece_from(s, leaf, k) == Some(s[at]@),
    decreases at - k,
{
    if k < at {
        lemma_piece_found(s, at, leaf, k + 1);
    }
}

/// What refreshing one split's piece came to.
#[derive(Clone, Copy, PartialEq, Eq, Debug, Structural)]
pub struct LeafStep {
    /// The frame has to be repainted, though it has not moved.
    pub recommit: bool,
    /// The titlebar strip has to be drawn.
    pub redraw: bool,
}

/// The step a paint takes from what is kept.
pub open spec fn leaf_step(was: Option<PieceView>, now: PieceView) -> LeafStep {
    LeafStep {
        recommit: was is Some && (was->0.accent != now.accent || was->0.mode != now.mode),
        redraw: now.titlebar is Some && !(was is Some && was->0.titlebar == now.titlebar),
    }
}

/// The splits' cached frames.
pub struct LeafPieces {
    pub list: Vec<LeafPiece>,
}

impl LeafPieces {
    /// What is kept for a split.
    pub open spec fn piece(self, leaf: NodeId) -> Option<PieceView> {
        piece_from(self.list@, leaf, 0)
    }

    pub fn new() -> (p: LeafPieces)
        ensures
            forall|leaf: NodeId| #[trigger] p.piece(leaf) is None,
    {
        LeafPieces { list: Vec::new() }
    }

    fn find(&self, leaf: NodeId) -> (at: Option<usize>)
        ensures
            match at {
                Some(k) => k < self.list@.len() && self.piece(leaf) == Some(self.list@[k as int]@),
                None => self.piece(leaf) is None,
            },
    {
        let mut k: usize = 0;
        while k < self.list.len()
            invariant
                k <= self.list@.len(),
                self.piece(leaf) == piece_from(self.list@, leaf, k as int),
            decreases self.list@.len() - k,
        {
            if self.list[k].leaf == leaf {
                return Some(k);
            }
            k = k + 1;
        }
        None
    }

    /// Refresh one split's cached frame: the frame is repainted when its
    /// accent or sprite changes, and the titlebar strip drawn again when its
    /// fingerprint does.
    pub fn update_leaf(&mut self, leaf: NodeId, paint: &LeafPaint) -> (step: LeafStep)
        ensures
            final(self).piece(leaf) == Some(paint.kept()),
            forall|other: NodeId|
                other != leaf ==> #[trigger] final(self).piece(other) == old(self).piece(other),
            step == leaf_step(old(self).piece(leaf), paint.kept()),
    {
        let ghost before = self.list@;
        let mode = paint.mode();
        let titlebar = if paint.minimized || (paint.title.is_none() && paint.buttons.len() == 0) {
            None
        } else {
            Some(paint.titlebar_key())
        };
        let now = LeafPiece { leaf, accent: paint.accent, mode, titlebar };
        let mut k: usize = 0;
        while k < self.list.len()
            invariant
                k <= self.list@.len(),
                self.list@ == before,
                now.leaf == leaf,
                now@ == paint.kept(),
                piece_from(before, leaf, 0) == piece_from(before, leaf, k as int),
                forall|i: int| 0 <= i < k ==> (#[trigger] before[i]).leaf != leaf,
                old(self).list@ == before,
            decreases self.list@.len() - k,
        {
            if self.list[k].leaf == leaf {
                let was = &self.list[k];
                let recommit = was.accent != now.accent || was.mode != now.mode;
                let redraw = match (&was.titlebar, &now.titlebar) {
                    (_, None) => false,
                    (None, Some(_)) => true,
                    (Some(a), Some(b)) => !same_titlebar(a, b),
                };
                let ghost added = now;
                self.list.set(k, now);
                proof {
                    assert(self.list@ =~= before.update(k as int, added));
                    assert forall|i: int| 0 <= i < k implies (#[trigger] self.list@[i]).leaf
                        != leaf by {
                        assert(self.list@[i] == before[i]);
                    }
                    lemma_piece_found(self.list@, k as int, leaf, 0);
                    assert forall|other: NodeId| other != leaf implies piece_from(
                        self.list@,
                        other,
                        0,
                    ) == piece_from(before, other, 0) by {
                        lemma_piece_update(before, k as int, added, other, 0);
                    }
                }
                return LeafStep { recommit, redraw };
            }
            k = k + 1;
        }
        let redraw = now.titlebar.is_some();
        let ghost added = now;
        self.list.push(now);
        proof {
            assert forall|other: NodeId| other != leaf implies piece_from(self.list@, other, 0)
                == piece_from(before, other, 0) by {
                lemma_piece_push(before, added, other, 0);
            }
            lemma_piece_push(before, added, leaf, 0);
        }
        LeafStep { recommit: false, redraw }
    }

    /// Drop the pieces of splits that vanished.
    pub fn retain(&mut self, live: &Vec<NodeId>)
        ensures
            forall|leaf: NodeId| #[trigger]
                final(self).piece(leaf) == (if live@.contains(leaf) {
                    old(self).piece(leaf)
                } else {
                    None
                }),
    {
        let ghost before = self.list@;
        let mut k: usize = 0;
        while k < self.list.len()
            invariant
                k <= self.list@.len(),
                forall|i: int| 0 <= i < k ==> live@.contains((#[trigger] self.list@[i]).leaf),
                forall|leaf: NodeId|
                    live@.contains(leaf) ==> #[trigger] piece_from(self.list@, leaf, 0)
                        == piece_from(before, leaf, 0),
            decreases self.list@.len() - k,
        {
            let leaf = self.list[k].leaf;
            if has_leaf(live, leaf) {
                k = k + 1;
            } else {
                let ghost now = self.list@;
                let _gone = self.list.remove(k);
                proof {
                    assert(self.list@ =~= now.remove(k as int));
                    assert forall|other: NodeId| live@.contains(other) implies #[trigger] piece_from(
                        self.list@,
                        other,
                        0,
                    ) == piece_from(before, other, 0) by {
                        lemma_piece_remove(now, k as int, other, 0);
                        assert(piece_from(now, other, 0) == piece_from(before, other, 0));
                    }
                    assert forall|i: int| 0 <= i < k implies live@.contains(
                        (#[trigger] self.list@[i]).leaf,
                    ) by {
                        assert(self.list@[i] == now[i]);
                    }
                }
            }
        }
        proof {
            assert forall|leaf: NodeId| !live@.contains(leaf) implies #[trigger] piece_from(
                self.list@,
                leaf,
                0,
            ) is None by {
                lemma_piece_absent(self.list@, leaf, 0);
            }
        }
    }
}

proof fn lemma_piece_absent(s: Seq<LeafPiece>, leaf: NodeId, k: int)
    requires
        0 <= k <= s.len(),
        forall|i: int| 0 <= i < s.len() ==> (#[trigger] s[i]).leaf != leaf,
    ensures
        piece_from(s, leaf, k) is None,
    decreases s.len() - k,
{
    if k < s.len() {
        lemma_piece_absent(s, leaf, k + 1);
    }
}

fn has_leaf(live: &Vec<NodeId>, leaf: NodeId) -> (b: bool)
    ensures
        b == live@.contains(leaf),
{
    let mut k: usize = 0;
    while k < live.len()
        invariant
            k <= live@.len(),
            forall|i: int| 0 <= i < k ==> live@[i] != leaf,
        decreases live@.len() - k,
    {
        if live[k] == leaf {
            return true;
        }
        k = k + 1;
    }
    false
}

/// What stays up is not drawn again: a paint that keeps what is kept asks
/// for nothing.
pub proof fn unchanged_splits_repaint_nothing(now: PieceView)
    ensures
        leaf_step(Some(now), now) == (LeafStep { recommit: false, redraw: false }),
{
}

/// One window tile of the bar.
#[derive(Clone, Copy, PartialEq, Eq, Debug)]
pub struct TilePaint {
    pub rect: Rect,
    pub close: Rect,
    pub icon: Option<u64>,
    pub label: char,
    pub accent: Index,
}

/// One quick-launch icon of the bar: how far it has grown and its shards
/// have slid, and the shard under the pointer.
#[derive(Clone, Copy, PartialEq, Eq, Debug)]
pub struct QuickPaint {
    pub rect: Rect,
    pub icon: Option<u64>,
    pub label: char,
    pub grown: i32,
    pub spread: i32,
    pub hover: Option<Side>,
}

/// What the bar is drawn from, which is also its fingerprint.
pub struct TaskbarPaint {
    pub w: i32,
    pub h: i32,
    pub origin: (i32, i32),
    pub tiles: Vec<TilePaint>,
    pub sep: Option<Rect>,
    pub quick: Vec<QuickPaint>,
}

/// What a bar is told apart by.
pub struct TaskbarView {
    pub w: i32,
    pub h: i32,
    pub origin: (i32, i32),
    pub tiles: Seq<TilePaint>,
    pub sep: Option<Rect>,
    pub quick: Seq<QuickPaint>,
}

impl View for TaskbarPaint {
    type V = TaskbarView;

    open spec fn view(&self) -> TaskbarView {
        TaskbarView {
            w: self.w,
            h: self.h,
            origin: self.origin,
            tiles: self.tiles@,
            sep: self.sep,
            quick: self.quick@,
        }
    }
}

fn same_sep(a: Option<Rect>, b: Option<Rect>) -> (same: bool)
    ensures
        same == (a == b),
{
    match (a, b) {
        (Some(x), Some(y)) => x == y,
        (None, None) => true,
        _ => false,
    }
}

fn same_hover(a: Option<Side>, b: Option<Side>) -> (same: bool)
    ensures
        same == (a == b),
{
    match (a, b) {
        (Some(x), Some(y)) => x == y,
        (None, None) => true,
        _ => false,
    }
}

fn same_tiles(a: &Vec<TilePaint>, b: &Vec<TilePaint>) -> (same: bool)
    ensures
        same == (a@ == b@),
{
    if a.len() != b.len() {
        return false;
    }
    let mut k: usize = 0;
    while k < a.len()
        invariant
            k <= a@.len(),
            a@.len() == b@.len(),
            forall|i: int| 0 <= i < k ==> a@[i] == b@[i],
        decreases a@.len() - k,
    {
        let (x, y) = (a[k], b[k]);
        if x.rect != y.rect || x.close != y.close || !same_icon(x.icon, y.icon) || x.label != y.label
            || x.accent != y.accent {
            return false;
        }
        k = k + 1;
    }
    proof {
        assert(a@ =~= b@);
    }
    true
}

fn same_quick(a: &Vec<QuickPaint>, b: &Vec<QuickPaint>) -> (same: bool)
    ensures
        same == (a@ == b@),
{
    if a.len() != b.len() {
        return false;
    }
    let mut k: usize = 0;
    while k < a.len()
        invariant
            k <= a@.len(),
            a@.len() == b@.len(),
            forall|i: int| 0 <= i < k ==> a@[i] == b@[i],
        decreases a@.len() - k,
    {
        let (x, y) = (a[k], b[k]);
        if x.rect != y.rect || !same_icon(x.icon, y.icon) || x.label != y.label || x.grown
            != y.grown || x.spread != y.spread || !same_hover(x.hover, y.hover) {
            return false;
        }
        k = k + 1;
    }
    proof {
        assert(a@ =~= b@);
    }
    true
}

/// The taskbar's strip of the output.
pub open spec fn strip_of(ow: i32, oh: int, taskbar_h: i32) -> Rect {
    Rect {
        x: 0,
        y: (if oh - taskbar_h >= 0 {
            oh - taskbar_h
        } else {
            0
        }) as i32,
        w: ow,
        h: taskbar_h,
    }
}

/// The bar's strip: the full width of the output and its bottom rows.
pub fn taskbar_strip(ow: i32, oh: i32, taskbar_h: i32) -> (r: Rect)
    requires
        fits_i32(oh - taskbar_h),
    ensures
        r == strip_of(ow, oh as int, taskbar_h),
{
    Rect { x: 0, y: max_i32(oh - taskbar_h, 0), w: ow, h: taskbar_h }
}

/// A rect of the output within the bar's strip.
pub fn in_strip(r: Rect, origin_y: i32) -> (s: Rect)
    requires
        fits_i32(r.y - origin_y),
    ensures
        s == shifted(r, origin_y as int),
{
    Rect { x: r.x, y: r.y - origin_y, w: r.w, h: r.h }
}

/// What a split's frame is drawn from at `rect`: the title only where the
/// split is neither minimized nor empty.
pub fn leaf_paint(
    rect: Rect,
    minimized: bool,
    accent: Index,
    title: Option<TitleInfo>,
    buttons: Vec<BtnPaint>,
) -> (p: LeafPaint)
    ensures
        p.w == rect.w,
        p.h == rect.h,
        p.accent == accent,
        p.minimized == minimized,
        p.title == (if minimized {
            None
        } else {
            title
        }),
        p.buttons == buttons,
{
    let title = if minimized {
        None
    } else {
        title
    };
    LeafPaint { w: rect.w, h: rect.h, accent, minimized, title, buttons }
}

/// How a window is shown on the bar.
#[derive(Clone, Copy, PartialEq, Eq, Debug)]
pub struct TileLook {
    pub icon: Option<u64>,
    /// The letter that stands in for an icon; nothing for a window that is
    /// gone.
    pub label: Option<char>,
    pub accent: Index,
}

/// How a quick-launch entry is shown on the bar.
#[derive(Clone, Copy, PartialEq, Eq, Debug)]
pub struct QuickLook {
    pub icon: Option<u64>,
    pub label: char,
    pub grown: i32,
    pub spread: i32,
    pub hover: Option<Side>,
}

/// A tile as it is shown.
pub open spec fn tile_paint(t: TaskTile, look: TileLook) -> TilePaint {
    TilePaint {
        rect: t.rect,
        close: t.close,
        icon: look.icon,
        label: match look.label {
            Some(c) => c,
            None => '?',
        },
        accent: look.accent,
    }
}

/// The quick-launch icons of the first `n` regions: those whose entry is
/// there.
pub open spec fn quicks_to(tiles: Seq<QuickTile>, looks: Seq<QuickLook>, n: int) -> Seq<QuickPaint>
    decreases n,
{
    if n <= 0 {
        Seq::empty()
    } else {
        let before = quicks_to(tiles, looks, n - 1);
        let t = tiles[n - 1];
        if t.slot < looks.len() {
            let q = looks[t.slot as int];
            before.push(
                QuickPaint {
                    rect: t.icon,
                    icon: q.icon,
                    label: q.label,
                    grown: q.grown,
                    spread: q.spread,
                    hover: q.hover,
                },
            )
        } else {
            before
        }
    }
}

/// What the bar is drawn from: one tile per split's window, the separator,
/// and the quick-launch icons, in the output's coordinates.
pub fn taskbar_paint(
    strip: Rect,
    tiles: &Vec<TaskTile>,
    looks: &Vec<TileLook>,
    sep: Option<Rect>,
    quick_tiles: &Vec<QuickTile>,
    quick: &Vec<QuickLook>,
) -> (p: TaskbarPaint)
    requires
        looks@.len() == tiles@.len(),
    ensures
        p@ == (TaskbarView {
            w: strip.w,
            h: strip.h,
            origin: (strip.x, strip.y),
            tiles: Seq::new(tiles@.len(), |i: int| tile_paint(tiles@[i], looks@[i])),
            sep,
            quick: quicks_to(quick_tiles@, quick@, quick_tiles@.len() as int),
        }),
{
    let mut out: Vec<TilePaint> = Vec::new();
    let mut k: usize = 0;
    while k < tiles.len()
        invariant
            k <= tiles@.len(),
            looks@.len() == tiles@.len(),
            out@ == Seq::new(k as nat, |i: int| tile_paint(tiles@[i], looks@[i])),
        decreases tiles@.len() - k,
    {
        let (t, look) = (tiles[k], looks[k]);
        let label = match look.label {
            Some(c) => c,
            None => '?',
        };
        out.push(
            TilePaint { rect: t.rect, close: t.close, icon: look.icon, label, accent: look.accent },
        );
        proof {
            assert(out@[k as int] == tile_paint(tiles@[k as int], looks@[k as int]));
        }
        k = k + 1;
        proof {
            assert(out@ =~= Seq::new(k as nat, |i: int| tile_paint(tiles@[i], looks@[i])));
        }
    }
    let mut quicks: Vec<QuickPaint> = Vec::new();
    let mut k: usize = 0;
    while k < quick_tiles.len()
        invariant
            k <= quick_tiles@.len(),
            quicks@ == quicks_to(quick_tiles@, quick@, k as int),
        decreases quick_tiles@.len() - k,
    {
        let t = quick_tiles[k];
        if t.slot < quick.len() {
            let q = quick[t.slot];
            quicks.push(
                QuickPaint {
                    rect: t.icon,
                    icon: q.icon,
                    label: q.label,
                    grown: q.grown,
                    spread: q.spread,
                    hover: q.hover,
                },
            );
        }
        k = k + 1;
    }
    TaskbarPaint {
        w: strip.w,
        h: strip.h,
        origin: (strip.x, strip.y),
        tiles: out,
        sep,
        quick: quicks,
    }
}

/// One thing drawn into the bar's strip.
#[derive(Clone, Copy, PartialEq, Eq, Debug, Structural)]
pub enum BarOp {
    /// A window tile at its rect.
    Tile(usize, Rect),
    /// A close badge: its corner and side.
    Badge(i32, i32, i32),
    Separator(Rect),
    /// A quick-launch icon at its rect.
    Quick(usize, Rect),
}

/// A rect within the strip.
pub open spec fn shifted(r: Rect, oy: int) -> Rect {
    Rect { x: r.x, y: (r.y - oy) as i32, w: r.w, h: r.h }
}

/// The first `n` tiles, each with its badge over it.
pub open spec fn tile_ops(tiles: Seq<TilePaint>, oy: int, n: int) -> Seq<BarOp>
    decreases n,
{
    if n <= 0 {
        Seq::empty()
    } else {
        let (t, c) = (shifted(tiles[n - 1].rect, oy), shifted(tiles[n - 1].close, oy));
        tile_ops(tiles, oy, n - 1).push(BarOp::Tile((n - 1) as usize, t)).push(
            BarOp::Badge(c.x, c.y, c.w),
        )
    }
}

/// The first `n` quick-launch icons.
pub open spec fn quick_ops(quick: Seq<QuickPaint>, oy: int, n: int) -> Seq<BarOp>
    decreases n,
{
    if n <= 0 {
        Seq::empty()
    } else {
        quick_ops(quick, oy, n - 1).push(
            BarOp::Quick((n - 1) as usize, shifted(quick[n - 1].rect, oy)),
        )
    }
}

/// What is drawn into the bar's strip, in order: the tiles with their
/// badges, the separator, the quick-launch icons.
pub open spec fn bar_ops(p: TaskbarView) -> Seq<BarOp> {
    let oy = p.origin.1 as int;
    let tiles = tile_ops(p.tiles, oy, p.tiles.len() as int);
    let sep = match p.sep {
        Some(r) => tiles.push(BarOp::Separator(shifted(r, oy))),
        None => tiles,
    };
    sep + quick_ops(p.quick, oy, p.quick.len() as int)
}

/// Whether every rect of a bar can be moved into its strip.
pub open spec fn bar_in_range(p: TaskbarView) -> bool {
    let oy = p.origin.1 as int;
    &&& forall|i: int|
        0 <= i < p.tiles.len() ==> fits_i32((#[trigger] p.tiles[i]).rect.y - oy) && fits_i32(
            p.tiles[i].close.y - oy,
        )
    &&& forall|i: int|
        0 <= i < p.quick.len() ==> fits_i32((#[trigger] p.quick[i]).rect.y - oy)
    &&& p.sep is Some ==> fits_i32(p.sep->0.y - oy)
}

/// Draw the bar into its strip.
pub fn render_taskbar(p: &TaskbarPaint) -> (ops: Vec<BarOp>)
    requires
        bar_in_range(p@),
    ensures
        ops@ == bar_ops(p@),
{
    let oy: i32 = p.origin.1;
    let mut ops: Vec<BarOp> = Vec::new();
    let mut k: usize = 0;
    while k < p.tiles.len()
        invariant
            k <= p.tiles@.len(),
            oy == p.origin.1,
            bar_in_range(p@),
            ops@ == tile_ops(p.tiles@, oy as int, k as int),
        decreases p.tiles@.len() - k,
    {
        proof {
            assert(p@.tiles[k as int] == p.tiles@[k as int]);
        }
        let t = p.tiles[k];
        let c = in_strip(t.close, oy);
        ops.push(BarOp::Tile(k, in_strip(t.rect, oy)));
        ops.push(BarOp::Badge(c.x, c.y, c.w));
        k = k + 1;
    }
    if let Some(r) = p.sep {
        ops.push(BarOp::Separator(in_strip(r, oy)));
    }
    let ghost front = ops@;
    let mut k: usize = 0;
    proof {
        assert(ops@ =~= front + quick_ops(p.quick@, oy as int, 0));
    }
    while k < p.quick.len()
        invariant
            k <= p.quick@.len(),
            oy == p.origin.1,
            bar_in_range(p@),
            ops@ == front + quick_ops(p.quick@, oy as int, k as int),
        decreases p.quick@.len() - k,
    {
        proof {
            assert(p@.quick[k as int] == p.quick@[k as int]);
        }
        ops.push(BarOp::Quick(k, in_strip(p.quick[k].rect, oy)));
        k = k + 1;
        proof {
            assert(ops@ =~= front + quick_ops(p.quick@, oy as int, k as int));
        }
    }
    ops
}

/// Something that has to be drawn and uploaded.
#[derive(Clone, Copy, PartialEq, Eq, Debug, Structural)]
pub enum Upload {
    /// The frame sprites.
    Art,
    Wallpaper,
    /// A split's titlebar strip.
    Strip(NodeId),
    /// An insert button of this side.
    Plus(i32),
    Taskbar,
}

/// The cached pieces.
pub struct ChromePieces {
    /// Whether the frame sprites are up.
    pub art: bool,
    /// The size the wallpaper is up at.
    pub wallpaper: Option<(i32, i32)>,
    pub leaves: LeafPieces,
    /// The insert buttons that are up, by side.
    pub plus: Vec<i32>,
    /// What the bar was drawn from.
    pub taskbar: Option<TaskbarPaint>,
}

/// What a frame's chrome is drawn from.
pub struct ChromePaint {
    /// The size of the output.
    pub size: (i32, i32),
    /// Each split's frame.
    pub leaves: Vec<(NodeId, LeafPaint)>,
    /// The sides of the insert buttons.
    pub plus: Vec<i32>,
    pub taskbar: TaskbarPaint,
}

/// The splits that are painted.
pub open spec fn painted(s: Seq<(NodeId, LeafPaint)>, leaf: NodeId) -> bool {
    exists|i: int| 0 <= i < s.len() && (#[trigger] s[i]).0 == leaf
}

/// No split is painted twice.
pub open spec fn painted_once(s: Seq<(NodeId, LeafPaint)>) -> bool {
    forall|i: int, j: int|
        0 <= i < j < s.len() ==> (#[trigger] s[i]).0 != (#[trigger] s[j]).0
}

/// The strips to draw for the first `n` splits.
pub open spec fn strips_to(
    was: LeafPieces,
    s: Seq<(NodeId, LeafPaint)>,
    n: int,
) -> Seq<Upload>
    decreases n,
{
    if n <= 0 {
        Seq::empty()
    } else {
        let before = strips_to(was, s, n - 1);
        if leaf_step(was.piece(s[n - 1].0), s[n - 1].1.kept()).redraw {
            before.push(Upload::Strip(s[n - 1].0))
        } else {
            before
        }
    }
}

/// The insert buttons to draw for the first `n` sides: those not up, each
/// once.
pub open spec fn pluses_to(up: Seq<i32>, sizes: Seq<i32>, n: int) -> Seq<Upload>
    decreases n,
{
    if n <= 0 {
        Seq::empty()
    } else {
        let before = pluses_to(up, sizes, n - 1);
        if up.contains(sizes[n - 1]) || sizes.take(n - 1).contains(sizes[n - 1]) {
            before
        } else {
            before.push(Upload::Plus(sizes[n - 1]))
        }
    }
}

/// One thing more, where it is needed.
pub open spec fn with_upload(s: Seq<Upload>, needed: bool, u: Upload) -> Seq<Upload> {
    if needed {
        s.push(u)
    } else {
        s
    }
}

impl ChromePieces {
    pub fn new() -> (p: ChromePieces)
        ensures
            !p.art,
            p.wallpaper is None,
            forall|leaf: NodeId| #[trigger] p.leaves.piece(leaf) is None,
            p.plus@.len() == 0,
            p.taskbar is None,
    {
        ChromePieces {
            art: false,
            wallpaper: None,
            leaves: LeafPieces::new(),
            plus: Vec::new(),
            taskbar: None,
        }
    }

    /// Forget every piece, so that all of them are drawn again: a switch
    /// away from the terminal can lose the textures.
    pub fn invalidate_chrome(&mut self)
        ensures
            !final(self).art,
            final(self).wallpaper is None,
            forall|leaf: NodeId| #[trigger] final(self).leaves.piece(leaf) is None,
            final(self).plus@.len() == 0,
            final(self).taskbar is None,
    {
        *self = ChromePieces::new();
    }

    /// What has to be drawn for a frame, in order.
    pub open spec fn uploads(self, p: ChromePaint) -> Seq<Upload> {
        let art = with_upload(Seq::empty(), !self.art, Upload::Art);
        let wall = with_upload(art, self.wallpaper != Some(p.size), Upload::Wallpaper);
        let strips = wall + strips_to(self.leaves, p.leaves@, p.leaves@.len() as int);
        let pluses = strips + pluses_to(self.plus@, p.plus@, p.plus@.len() as int);
        with_upload(
            pluses,
            !(self.taskbar is Some && self.taskbar->0@ == p.taskbar@),
            Upload::Taskbar,
        )
    }

    /// Draw any piece again that what it is drawn from has changed for, and
    /// drop those of splits and insert buttons that vanished. Returns what
    /// has to be drawn, and the splits whose frame has to be repainted.
    pub fn update_chrome_pieces(&mut self, p: ChromePaint) -> (r: (Vec<Upload>, Vec<NodeId>))
        requires
            painted_once(p.leaves@),
        ensures
            shows(*final(self), p),
            forall|leaf: NodeId|
                !painted(p.leaves@, leaf) ==> #[trigger] final(self).leaves.piece(leaf) is None,
            r.0@ == old(self).uploads(p),
            forall|i: int|
                0 <= i < p.leaves@.len() ==> (r.1@.contains((#[trigger] p.leaves@[i]).0)
                    <==> leaf_step(
                    old(self).leaves.piece(p.leaves@[i].0),
                    p.leaves@[i].1.kept(),
                ).recommit),
            forall|i: int| 0 <= i < r.1@.len() ==> painted(p.leaves@, #[trigger] r.1@[i]),
    {
        let ghost was = self.leaves;
        let mut out: Vec<Upload> = Vec::new();
        if !self.art {
            out.push(Upload::Art);
            self.art = true;
        }
        let stale = match self.wallpaper {
            Some((w, h)) => w != p.size.0 || h != p.size.1,
            None => true,
        };
        if stale {
            out.push(Upload::Wallpaper);
            self.wallpaper = Some(p.size);
        }
        let ghost wall = out@;
        let (leaves, plus) = (&p.leaves, &p.plus);
        let mut recommit: Vec<NodeId> = Vec::new();
        let mut live: Vec<NodeId> = Vec::new();
        let mut k: usize = 0;
        proof {
            assert(out@ =~= wall + strips_to(was, leaves@, 0));
        }
        while k < leaves.len()
            invariant
                k <= leaves@.len(),
                painted_once(leaves@),
                live@.len() == k,
                forall|i: int| 0 <= i < k ==> live@[i] == (#[trigger] leaves@[i]).0,
                forall|i: int|
                    0 <= i < k ==> self.leaves.piece((#[trigger] leaves@[i]).0) == Some(
                        leaves@[i].1.kept(),
                    ),
                forall|i: int|
                    k <= i < leaves@.len() ==> self.leaves.piece((#[trigger] leaves@[i]).0)
                        == was.piece(leaves@[i].0),
                out@ == wall + strips_to(was, leaves@, k as int),
                forall|i: int|
                    0 <= i < k ==> (recommit@.contains((#[trigger] leaves@[i]).0) <==> leaf_step(
                        was.piece(leaves@[i].0),
                        leaves@[i].1.kept(),
                    ).recommit),
                forall|i: int|
                    0 <= i < recommit@.len() ==> live@.contains(#[trigger] recommit@[i]),
                self.art,
                self.wallpaper == Some(p.size),
                self.plus@ == old(self).plus@,
                self.taskbar == old(self).taskbar,
            decreases leaves@.len() - k,
        {
            let leaf = leaves[k].0;
            let ghost before = self.leaves;
            let step = self.leaves.update_leaf(leaf, &leaves[k].1);
            let ghost marked = recommit@;
            if step.redraw {
                out.push(Upload::Strip(leaf));
            }
            if step.recommit {
                recommit.push(leaf);
            }
            let ghost seen = live@;
            live.push(leaf);
            proof {
                assert(out@ =~= wall + strips_to(was, leaves@, k + 1));
                assert forall|i: int| k + 1 <= i < leaves@.len() implies self.leaves.piece(
                    (#[trigger] leaves@[i]).0,
                ) == was.piece(leaves@[i].0) by {
                    assert(leaves@[k as int].0 != leaves@[i].0);
                }
                assert forall|i: int| 0 <= i < k + 1 implies self.leaves.piece(
                    (#[trigger] leaves@[i]).0,
                ) == Some(leaves@[i].1.kept()) by {
                    if i < k {
                        assert(leaves@[i].0 != leaves@[k as int].0);
                    }
                }
                assert(!seen.contains(leaf)) by {
                    if seen.contains(leaf) {
                        let j = choose|j: int| 0 <= j < seen.len() && seen[j] == leaf;
                        assert(leaves@[j].0 == leaves@[k as int].0);
                    }
                }
                assert(!marked.contains(leaf)) by {
                    if marked.contains(leaf) {
                        let j = choose|j: int| 0 <= j < marked.len() && marked[j] == leaf;
                        assert(seen.contains(marked[j]));
                    }
                }
                assert forall|i: int| 0 <= i < k + 1 implies (recommit@.contains(
                    (#[trigger] leaves@[i]).0,
                ) <==> leaf_step(was.piece(leaves@[i].0), leaves@[i].1.kept()).recommit) by {
                    if i < k {
                        assert(leaves@[i].0 != leaves@[k as int].0);
                        assert(recommit@.contains(leaves@[i].0) <==> marked.contains(leaves@[i].0))
                            by {
                            if marked.contains(leaves@[i].0) {
                                let j = choose|j: int|
                                    0 <= j < marked.len() && marked[j] == leaves@[i].0;
                                assert(recommit@[j] == leaves@[i].0);
                            }
                            if recommit@.contains(leaves@[i].0) {
                                let j = choose|j: int|
                                    0 <= j < recommit@.len() && recommit@[j] == leaves@[i].0;
                                assert(marked[j] == leaves@[i].0);
                            }
                        }
                    } else if step.recommit {
                        assert(recommit@[marked.len() as int] == leaf);
                    }
                }
                assert forall|i: int| 0 <= i < recommit@.len() implies live@.contains(
                    #[trigger] recommit@[i],
                ) by {
                    if i < marked.len() {
                        assert(seen.contains(marked[i]));
                        let j = choose|j: int| 0 <= j < seen.len() && seen[j] == marked[i];
                        assert(live@[j] == recommit@[i]);
                    } else {
                        assert(live@[k as int] == leaf);
                    }
                }
            }
            k = k + 1;
        }
        let ghost updated = self.leaves;
        self.leaves.retain(&live);
        proof {
            assert forall|i: int| 0 <= i < leaves@.len() implies self.leaves.piece(
                (#[trigger] leaves@[i]).0,
            ) == Some(leaves@[i].1.kept()) by {
                assert(live@[i] == leaves@[i].0);
                assert(live@.contains(leaves@[i].0));
            }
            assert forall|leaf: NodeId| !painted(leaves@, leaf) implies #[trigger] self.leaves.piece(
                leaf,
            ) is None by {
                if live@.contains(leaf) {
                    let j = choose|j: int| 0 <= j < live@.len() && live@[j] == leaf;
                    assert(leaves@[j].0 == leaf);
                }
            }
            assert forall|i: int| 0 <= i < recommit@.len() implies painted(
                leaves@,
                #[trigger] recommit@[i],
            ) by {
                assert(live@.contains(recommit@[i]));
                let j = choose|j: int| 0 <= j < live@.len() && live@[j] == recommit@[i];
                assert(leaves@[j].0 == recommit@[i]);
            }
        }
        let ghost strips = out@;
        let ghost up = self.plus@;
        let mut k: usize = 0;
        proof {
            assert(out@ =~= strips + pluses_to(up, plus@, 0));
        }
        while k < plus.len()
            invariant
                k <= plus@.len(),
                self.plus@ == up,
                out@ == strips + pluses_to(up, plus@, k as int),
            decreases plus@.len() - k,
        {
            let sz: i32 = plus[k];
            if !has_size(&self.plus, self.plus.len(), sz) && !has_size(plus, k, sz) {
                out.push(Upload::Plus(sz));
            }
            proof {
                assert(self.plus@.take(up.len() as int) =~= up);
                assert(out@ =~= strips + pluses_to(up, plus@, k + 1));
            }
            k = k + 1;
        }
        let same = match &self.taskbar {
            Some(t) => same_taskbar(t, &p.taskbar),
            None => false,
        };
        if !same {
            out.push(Upload::Taskbar);
        }
        self.plus = p.plus;
        self.taskbar = Some(p.taskbar);
        (out, recommit)
    }
}

/// A split's frame as it is drawn: where, from which sprite, in which
/// accent, and whether its titlebar strip is drawn at its rect's corner.
#[derive(Clone, Copy, PartialEq, Eq, Debug)]
pub struct LeafFrame {
    pub leaf: NodeId,
    pub dst: Rect,
    pub mode: FrameMode,
    pub accent: Index,
    pub titlebar: Option<(i32, i32)>,
}

/// The sizes of the sprites: the border, and the restore strips along
/// either axis.
#[derive(Clone, Copy, PartialEq, Eq, Debug)]
pub struct ArtSizes {
    pub border: (i32, i32),
    pub min_v: (i32, i32),
    pub min_h: (i32, i32),
}

impl ArtSizes {
    /// The size of the sprite a frame slices.
    pub open spec fn of(self, mode: FrameMode) -> (i32, i32) {
        match mode {
            FrameMode::Border => self.border,
            FrameMode::MinV => self.min_v,
            FrameMode::MinH => self.min_h,
        }
    }

    pub open spec fn wf(self) -> bool {
        &&& 0 <= self.border.0
        &&& 0 <= self.border.1
        &&& 0 <= self.min_v.0
        &&& 0 <= self.min_v.1
        &&& 0 <= self.min_h.0
        &&& 0 <= self.min_h.1
    }

    pub fn get(&self, mode: FrameMode) -> (s: (i32, i32))
        ensures
            s == self.of(mode),
    {
        match mode {
            FrameMode::Border => self.border,
            FrameMode::MinV => self.min_v,
            FrameMode::MinH => self.min_h,
        }
    }
}

/// The frame of a split at a rect.
pub open spec fn leaf_frame(leaf: NodeId, rect: Rect, piece: PieceView, art: ArtSizes) -> LeafFrame {
    LeafFrame {
        leaf,
        dst: frame_dst_of(rect, piece.mode, art.of(piece.mode)),
        mode: piece.mode,
        accent: piece.accent,
        titlebar: if piece.titlebar is Some {
            Some((rect.x, rect.y))
        } else {
            None
        },
    }
}

/// The frames of the first `n` rects: those of splits that have a piece.
pub open spec fn frames_to(
    pieces: LeafPieces,
    rects: Seq<Region<NodeId>>,
    art: ArtSizes,
    n: int,
) -> Seq<LeafFrame>
    decreases n,
{
    if n <= 0 {
        Seq::empty()
    } else {
        let before = frames_to(pieces, rects, art, n - 1);
        let r = rects[n - 1];
        match pieces.piece(r.item) {
            Some(p) => before.push(leaf_frame(r.item, r.rect, p, art)),
            None => before,
        }
    }
}

/// Each split's frame at its rect of this frame.
pub fn leaf_elements(pieces: &LeafPieces, rects: &Vec<Region<NodeId>>, art: &ArtSizes) -> (out: Vec<
    LeafFrame,
>)
    requires
        art.wf(),
        forall|i: int|
            0 <= i < rects@.len() ==> {
                &&& 0 <= (#[trigger] rects@[i]).rect.w
                &&& 0 <= rects@[i].rect.h
                &&& fits_i32(rects@[i].rect.right())
                &&& fits_i32(rects@[i].rect.bottom())
            },
    ensures
        out@ == frames_to(*pieces, rects@, *art, rects@.len() as int),
{
    let mut out: Vec<LeafFrame> = Vec::new();
    let mut n: usize = 0;
    while n < rects.len()
        invariant
            n <= rects@.len(),
            art.wf(),
            forall|i: int|
                0 <= i < rects@.len() ==> {
                    &&& 0 <= (#[trigger] rects@[i]).rect.w
                    &&& 0 <= rects@[i].rect.h
                    &&& fits_i32(rects@[i].rect.right())
                    &&& fits_i32(rects@[i].rect.bottom())
                },
            out@ == frames_to(*pieces, rects@, *art, n as int),
        decreases rects@.len() - n,
    {
        let (leaf, rect) = (rects[n].item, rects[n].rect);
        if let Some(k) = pieces.find(leaf) {
            let p = &pieces.list[k];
            let dst = frame_dst(rect, p.mode, art.get(p.mode));
            let titlebar = if p.titlebar.is_some() {
                Some((rect.x, rect.y))
            } else {
                None
            };
            out.push(LeafFrame { leaf, dst, mode: p.mode, accent: p.accent, titlebar });
        }
        n = n + 1;
    }
    out
}

/// Where the insert buttons are drawn, with their side: none while a
/// transition runs, and only those that are up.
pub open spec fn pluses_shown(up: Seq<i32>, regions: Seq<Rect>, n: int) -> Seq<(i32, i32, i32)>
    decreases n,
{
    if n <= 0 {
        Seq::empty()
    } else {
        let before = pluses_shown(up, regions, n - 1);
        let r = regions[n - 1];
        let side = if r.w >= 1 {
            r.w
        } else {
            1
        };
        if up.contains(side) {
            before.push((r.x, r.y, side))
        } else {
            before
        }
    }
}

/// The insert buttons to draw.
pub fn plus_elements(up: &Vec<i32>, regions: &Vec<Rect>, animating: bool) -> (out: Vec<
    (i32, i32, i32),
>)
    ensures
        out@ == (if animating {
            Seq::empty()
        } else {
            pluses_shown(up@, regions@, regions@.len() as int)
        }),
{
    let mut out: Vec<(i32, i32, i32)> = Vec::new();
    if animating {
        return out;
    }
    let mut n: usize = 0;
    proof {
        assert(up@.take(up@.len() as int) =~= up@);
    }
    while n < regions.len()
        invariant
            n <= regions@.len(),
            up@.take(up@.len() as int) == up@,
            out@ == pluses_shown(up@, regions@, n as int),
        decreases regions@.len() - n,
    {
        let r = regions[n];
        let side: i32 = max_i32(r.w, 1);
        if has_size(up, up.len(), side) {
            out.push((r.x, r.y, side));
        }
        n = n + 1;
    }
    out
}

/// What is up is what a frame is drawn from.
pub open spec fn shows(pieces: ChromePieces, p: ChromePaint) -> bool {
    &&& pieces.art
    &&& pieces.wallpaper == Some(p.size)
    &&& forall|i: int|
        0 <= i < p.leaves@.len() ==> pieces.leaves.piece((#[trigger] p.leaves@[i]).0) == Some(
            p.leaves@[i].1.kept(),
        )
    &&& pieces.plus@ == p.plus@
    &&& pieces.taskbar is Some
    &&& pieces.taskbar->0@ == p.taskbar@
}

proof fn lemma_no_strips(was: LeafPieces, s: Seq<(NodeId, LeafPaint)>, n: int)
    requires
        0 <= n <= s.len(),
        forall|i: int|
            0 <= i < s.len() ==> was.piece((#[trigger] s[i]).0) == Some(s[i].1.kept()),
    ensures
        strips_to(was, s, n) == Seq::<Upload>::empty(),
    decreases n,
{
    if n > 0 {
        lemma_no_strips(was, s, n - 1);
        assert(was.piece(s[n - 1].0) == Some(s[n - 1].1.kept()));
    }
}

proof fn lemma_no_pluses(sizes: Seq<i32>, n: int)
    requires
        0 <= n <= sizes.len(),
    ensures
        pluses_to(sizes, sizes, n) == Seq::<Upload>::empty(),
    decreases n,
{
    if n > 0 {
        lemma_no_pluses(sizes, n - 1);
        assert(sizes.contains(sizes[n - 1]));
    }
}

/// A frame drawn from what is already up draws nothing: scrolling, and
/// splits at rest beside one that moves, cost no drawing.
pub proof fn steady_frames_draw_nothing(pieces: ChromePieces, p: ChromePaint)
    requires
        shows(pieces, p),
    ensures
        pieces.uploads(p) == Seq::<Upload>::empty(),
{
    lemma_no_strips(pieces.leaves, p.leaves@, p.leaves@.len() as int);
    lemma_no_pluses(p.plus@, p.plus@.len() as int);
    assert(pieces.uploads(p) =~= Seq::empty());
}

fn has_size(sizes: &Vec<i32>, n: usize, sz: i32) -> (b: bool)
    requires
        n <= sizes@.len(),
    ensures
        b == sizes@.take(n as int).contains(sz),
{
    let mut k: usize = 0;
    while k < n
        invariant
            k <= n <= sizes@.len(),
            forall|i: int| 0 <= i < k ==> sizes@[i] != sz,
        decreases n - k,
    {
        if sizes[k] == sz {
            proof {
                assert(sizes@.take(n as int)[k as int] == sz);
            }
            return true;
        }
        k = k + 1;
    }
    false
}

fn same_taskbar(a: &TaskbarPaint, b: &TaskbarPaint) -> (same: bool)
    ensures
        same == (a@ == b@),
{
    a.w == b.w && a.h == b.h && a.origin.0 == b.origin.0 && a.origin.1 == b.origin.1 && same_tiles(
        &a.tiles,
        &b.tiles,
    ) && same_sep(a.sep, b.sep) && same_quick(&a.quick, &b.quick)
}

} // verus!
