//! Layer-shell surfaces: native panels, on-screen displays and the
//! launcher. Exclusive zones shrink the tiling area; one surface, the dock
//! panel, rides the scrolling canvas instead of pinning to the screen edge.

use crate::geom::{fits_i32, imax, max_i32, Rect};
use crate::text::{eq_ignore_ascii_case, fold_eq};
use vstd::prelude::*;

verus! {

/// The space a layer surface asks to keep free of windows.
#[derive(Clone, Copy, PartialEq, Eq, Debug, Structural)]
pub enum ExclusiveZone {
    Exclusive(u32),
    Neutral,
    DontCare,
}

/// What a layer surface committed.
pub struct LayerInfo {
    pub id: u32,
    pub namespace: String,
    pub anchor_top: bool,
    pub anchor_bottom: bool,
    pub anchor_left: bool,
    pub anchor_right: bool,
    pub zone: ExclusiveZone,
    pub margin_right: i32,
    /// It requests exclusive keyboard interactivity.
    pub exclusive_keyboard: bool,
    /// The place its map gives it, if any.
    pub geo: Option<Rect>,
}

impl LayerInfo {
    /// Whether this is the dock panel: named like the dock, and anchored
    /// full-height to the right edge.
    pub open spec fn docks(self, identity: Seq<char>) -> bool {
        &&& fold_eq(self.namespace@, identity)
        &&& self.anchor_top
        &&& self.anchor_bottom
        &&& self.anchor_right
    }

    /// The exclusive zone, zero when it asks for none.
    pub open spec fn zone_px(self) -> int {
        match self.zone {
            ExclusiveZone::Exclusive(z) => z as int,
            _ => 0,
        }
    }
}

/// The first dock panel from `k` on; the length if none.
pub open spec fn dock_from(bottom: Seq<LayerInfo>, identity: Seq<char>, k: int) -> int
    decreases bottom.len() - k,
{
    if k >= bottom.len() {
        bottom.len() as int
    } else if bottom[k].docks(identity) {
        k
    } else {
        dock_from(bottom, identity, k + 1)
    }
}

/// The native dock panel among the Bottom layer's surfaces: the one whose
/// namespace is the dock identity, anchored full-height to the right edge,
/// the only shape the dock's scroll arithmetic understands. The length if
/// there is none.
pub fn dock_layer(bottom: &Vec<LayerInfo>, identity: &str) -> (at: usize)
    ensures
        at == dock_from(bottom@, identity@, 0),
        at <= bottom@.len(),
        at < bottom@.len() ==> bottom@[at as int].docks(identity@),
{
    let mut k: usize = 0;
    while k < bottom.len()
        invariant
            k <= bottom@.len(),
            dock_from(bottom@, identity@, 0) == dock_from(bottom@, identity@, k as int),
        decreases bottom@.len() - k,
    {
        let l = &bottom[k];
        if eq_ignore_ascii_case(l.namespace.as_str(), identity) && l.anchor_top && l.anchor_bottom
            && l.anchor_right {
            return k;
        }
        k = k + 1;
    }
    k
}

/// The committed exclusive zone, zero when the surface asks for none.
pub fn dock_zone(layer: &LayerInfo) -> (z: i32)
    requires
        layer.zone_px() <= i32::MAX,
    ensures
        z == layer.zone_px(),
{
    match layer.zone {
        ExclusiveZone::Exclusive(z) => z as i32,
        _ => 0,
    }
}

/// The tiling zone: the dock panel's exclusive zone is added back to what
/// the layer map leaves free, so that columns can slide over it.
pub open spec fn tiling_zone(free: Rect, bottom: Seq<LayerInfo>, identity: Seq<char>) -> Rect {
    let k = dock_from(bottom, identity, 0);
    if k < bottom.len() && bottom[k].zone is Exclusive {
        Rect { w: (free.w + bottom[k].zone_px() + bottom[k].margin_right) as i32, ..free }
    } else {
        free
    }
}

/// Refresh the cached tiling zone. Returns whether it changed, and so
/// whether the layout must be arranged anew.
pub fn sync_layer_zone(
    cached: &mut Rect,
    free: Rect,
    bottom: &Vec<LayerInfo>,
    identity: &str,
) -> (changed: bool)
    requires
        forall|i: int|
            0 <= i < bottom@.len() ==> (#[trigger] bottom@[i]).zone_px() <= i32::MAX && fits_i32(
                bottom@[i].zone_px() + bottom@[i].margin_right,
            ) && fits_i32(free.w + bottom@[i].zone_px() + bottom@[i].margin_right),
    ensures
        *final(cached) == tiling_zone(free, bottom@, identity@),
        changed == (*final(cached) != *old(cached)),
{
    let at: usize = dock_layer(bottom, identity);
    let mut zone = free;
    if at < bottom.len() {
        let l = &bottom[at];
        match l.zone {
            ExclusiveZone::Exclusive(_) => {
                zone.w = zone.w + (dock_zone(l) + l.margin_right);
            },
            _ => {},
        }
    }
    if zone == *cached {
        return false;
    }
    *cached = zone;
    true
}

/// The topmost surface of a layer, among the first `n`, that requests
/// exclusive keyboard interactivity.
pub open spec fn exclusive_in(s: Seq<LayerInfo>, n: int) -> Option<u32>
    decreases n,
{
    if n <= 0 {
        None
    } else if s[n - 1].exclusive_keyboard {
        Some(s[n - 1].id)
    } else {
        exclusive_in(s, n - 1)
    }
}

fn pick_exclusive(s: &Vec<LayerInfo>) -> (id: Option<u32>)
    ensures
        id == exclusive_in(s@, s@.len() as int),
{
    let mut n: usize = s.len();
    while n > 0
        invariant
            n <= s@.len(),
            exclusive_in(s@, s@.len() as int) == exclusive_in(s@, n as int),
        decreases n,
    {
        n = n - 1;
        if s[n].exclusive_keyboard {
            return Some(s[n].id);
        }
    }
    None
}

/// The layer surface that holds the keyboard to itself, if any.
pub open spec fn exclusive_of(overlay: Seq<LayerInfo>, top: Seq<LayerInfo>) -> Option<u32> {
    match exclusive_in(overlay, overlay.len() as int) {
        Some(id) => Some(id),
        None => exclusive_in(top, top.len() as int),
    }
}

/// The layer surface owed exclusive keyboard focus: the topmost Overlay or
/// Top surface that requested it. Lower layers keep normal focus semantics.
pub fn exclusive_layer_surface(overlay: &Vec<LayerInfo>, top: &Vec<LayerInfo>) -> (id: Option<u32>)
    ensures
        id == exclusive_of(overlay@, top@),
{
    match pick_exclusive(overlay) {
        Some(id) => Some(id),
        None => pick_exclusive(top),
    }
}

/// The scroll room that a dock layer asks for.
pub open spec fn layer_extra(bottom: Seq<LayerInfo>, identity: Seq<char>) -> int {
    let k = dock_from(bottom, identity, 0);
    if k < bottom.len() {
        bottom[k].zone_px()
    } else {
        0
    }
}

/// The extra scroll room the native dock panel wants: its exclusive zone,
/// the strip that must be fully revealable past the canvas end.
pub fn layer_dock_extra(bottom: &Vec<LayerInfo>, identity: &str) -> (extra: i32)
    requires
        forall|i: int|
            0 <= i < bottom@.len() ==> (#[trigger] bottom@[i]).zone_px() <= i32::MAX,
    ensures
        extra == layer_extra(bottom@, identity@),
{
    let at: usize = dock_layer(bottom, identity);
    if at < bottom.len() {
        dock_zone(&bottom[at])
    } else {
        0
    }
}

/// The canvas as the dock sees it: where it starts, how wide it is, and how
/// far it is scrolled.
#[derive(Clone, Copy, PartialEq, Eq, Debug, Structural)]
pub struct Canvas {
    pub x: i32,
    pub w: i32,
    pub scroll_x: i32,
}

/// Where a dock panel of this geometry sits: parked at the right end of the
/// canvas and shifted by the scroll; the strip past its exclusive zone
/// stays tucked under the canvas edge.
pub open spec fn dock_place_of(l: LayerInfo, c: Canvas) -> Option<(u32, (i32, i32))> {
    match l.geo {
        Some(geo) => Some(
            (l.id, ((c.x + c.w - imax(geo.w - l.zone_px(), 0) - c.scroll_x) as i32, geo.y)),
        ),
        None => None,
    }
}

/// Where the dock layer surface sits this frame.
pub fn layer_dock_place(bottom: &Vec<LayerInfo>, identity: &str, c: Canvas) -> (place: Option<
    (u32, (i32, i32)),
>)
    requires
        forall|i: int|
            0 <= i < bottom@.len() ==> (#[trigger] bottom@[i]).zone_px() <= i32::MAX && (
            bottom@[i].geo is Some ==> {
                let over = imax(bottom@[i].geo->0.w - bottom@[i].zone_px(), 0);
                &&& fits_i32(bottom@[i].geo->0.w - bottom@[i].zone_px())
                &&& fits_i32(c.x + c.w - over)
                &&& fits_i32(c.x + c.w - over - c.scroll_x)
            }),
        fits_i32(c.x + c.w),
    ensures
        place == ({
            let k = dock_from(bottom@, identity@, 0);
            if k < bottom@.len() {
                dock_place_of(bottom@[k], c)
            } else {
                None
            }
        }),
{
    let at: usize = dock_layer(bottom, identity);
    if at < bottom.len() {
        let l = &bottom[at];
        match l.geo {
            Some(geo) => {
                let overlap: i32 = max_i32(geo.w - dock_zone(l), 0);
                Some((l.id, (c.x + c.w - overlap - c.scroll_x, geo.y)))
            },
            None => None,
        }
    } else {
        None
    }
}

/// Fully scrolled right, the dock panel's exclusive zone is exactly what
/// shows past the canvas viewport: its left edge stands its zone before the
/// viewport's right end once the scroll covers the canvas plus the zone.
pub proof fn dock_is_fully_revealable(l: LayerInfo, c: Canvas, viewport_w: int)
    requires
        l.geo is Some,
        l.geo->0.w >= l.zone_px(),
        c.scroll_x == c.w + l.zone_px() - viewport_w,
        fits_i32(c.x + c.w - (l.geo->0.w - l.zone_px()) - c.scroll_x),
    ensures
        ({
            let (id, place) = dock_place_of(l, c)->0;
            place.0 + l.geo->0.w == c.x + viewport_w
        }),
{
}

/// The placed surfaces of a layer, topmost first, among the topmost `n`.
pub open spec fn candidates_to(
    s: Seq<LayerInfo>,
    dock: Option<(u32, (i32, i32))>,
    n: int,
) -> Seq<(u32, (i32, i32))>
    decreases n,
{
    if n <= 0 {
        Seq::empty()
    } else {
        let l = s[s.len() - n];
        let rest = candidates_to(s, dock, n - 1);
        let docked = match dock {
            Some((id, p)) => id == l.id,
            None => false,
        };
        if docked {
            rest.push(dock->0)
        } else {
            match l.geo {
                Some(geo) => rest.push((l.id, (geo.x, geo.y))),
                None => rest,
            }
        }
    }
}

/// The surfaces of a layer in the order the pointer tries them, topmost
/// first, each with its position; the dock panel at its scrolled one.
pub fn pointer_candidates(s: &Vec<LayerInfo>, dock: Option<(u32, (i32, i32))>) -> (out: Vec<
    (u32, (i32, i32)),
>)
    ensures
        out@ == candidates_to(s@, dock, s@.len() as int),
{
    let mut out: Vec<(u32, (i32, i32))> = Vec::new();
    let n: usize = s.len();
    let mut k: usize = 0;
    while k < n
        invariant
            k <= n,
            n == s@.len(),
            out@ == candidates_to(s@, dock, k as int),
        decreases n - k,
    {
        let l = &s[n - 1 - k];
        proof {
            assert(s@[s@.len() - (k + 1)] == *l);
        }
        let docked = match dock {
            Some((id, p)) => if id == l.id {
                Some((id, p))
            } else {
                None
            },
            None => None,
        };
        match docked {
            Some(d) => {
                out.push(d);
            },
            None => {
                if let Some(geo) = l.geo {
                    out.push((l.id, (geo.x, geo.y)));
                }
            },
        }
        k = k + 1;
    }
    out
}

/// What a commit on a layer surface brings.
#[derive(Clone, Copy, PartialEq, Eq, Debug, Structural)]
pub struct LayerCommit {
    pub arrange: bool,
    pub configure: bool,
    pub refocus: bool,
}

/// What a commit of a layer surface asks for.
pub open spec fn commit_of(
    zone_changed: bool,
    dock_extra: int,
    granted_extra: int,
    initial_configure_sent: bool,
    owed_keyboard: bool,
    holds_keyboard: bool,
) -> LayerCommit {
    LayerCommit {
        arrange: zone_changed || dock_extra != granted_extra,
        configure: !initial_configure_sent,
        refocus: initial_configure_sent && owed_keyboard && !holds_keyboard,
    }
}

/// A commit on a mapped layer surface: arrange anew if the zone moved or
/// the dock wants other scroll room than it was granted, send the initial
/// configure, and hand an exclusive-keyboard surface the keyboard the
/// moment it is owed it and does not hold it yet.
pub fn layer_commit(
    zone_changed: bool,
    dock_extra: i32,
    granted_extra: i32,
    initial_configure_sent: bool,
    owed_keyboard: bool,
    holds_keyboard: bool,
) -> (c: LayerCommit)
    ensures
        c == commit_of(
            zone_changed,
            dock_extra as int,
            granted_extra as int,
            initial_configure_sent,
            owed_keyboard,
            holds_keyboard,
        ),
{
    LayerCommit {
        arrange: zone_changed || dock_extra != granted_extra,
        configure: !initial_configure_sent,
        refocus: initial_configure_sent && owed_keyboard && !holds_keyboard,
    }
}

proof fn lemma_dock_from(bottom: Seq<LayerInfo>, identity: Seq<char>, k: int, i: int)
    requires
        0 <= k <= i <= bottom.len(),
        forall|j: int| k <= j < i ==> !(#[trigger] bottom[j]).docks(identity),
        i < bottom.len() ==> bottom[i].docks(identity),
    ensures
        dock_from(bottom, identity, k) == i,
    decreases i - k,
{
    if k < i {
        lemma_dock_from(bottom, identity, k + 1, i);
    }
}

/// Law: what a dock layer reserves of the screen goes back to the splits and
/// is scroll room instead; without a dock layer the free zone is the
/// splits' and nothing is added to it.
pub proof fn a_dock_layer_takes_no_room_from_the_splits(
    free: Rect,
    bottom: Seq<LayerInfo>,
    identity: Seq<char>,
    i: int,
    z: u32,
)
    requires
        0 <= i <= bottom.len(),
        forall|j: int| 0 <= j < i ==> !(#[trigger] bottom[j]).docks(identity),
        i < bottom.len() ==> bottom[i].docks(identity) && bottom[i].zone
            == ExclusiveZone::Exclusive(z) && fits_i32(free.w + z + bottom[i].margin_right),
    ensures
        i < bottom.len() ==> {
            let zone = tiling_zone(free, bottom, identity);
            &&& zone.x == free.x && zone.y == free.y && zone.h == free.h
            &&& zone.w == free.w + z + bottom[i].margin_right
            &&& layer_extra(bottom, identity) == z
        },
        i == bottom.len() ==> tiling_zone(free, bottom, identity) == free && layer_extra(
            bottom,
            identity,
        ) == 0,
{
    lemma_dock_from(bottom, identity, 0, i);
}

proof fn lemma_exclusive_in(s: Seq<LayerInfo>, n: int, i: int)
    requires
        0 <= i <= n <= s.len(),
        forall|j: int| i <= j < n ==> !(#[trigger] s[j]).exclusive_keyboard,
        i > 0 ==> s[i - 1].exclusive_keyboard,
    ensures
        i > 0 ==> exclusive_in(s, n) == Some(s[i - 1].id),
        i == 0 ==> exclusive_in(s, n) is None,
    decreases n - i,
{
    if i < n {
        assert(!s[n - 1].exclusive_keyboard);
        lemma_exclusive_in(s, n - 1, i);
    }
}

/// Law: the topmost surface that asks for the keyboard alone gets it: the
/// last one of the overlay layer, and one of the top layer only where the
/// overlay layer has none.
pub proof fn the_topmost_exclusive_surface_has_the_keyboard(
    overlay: Seq<LayerInfo>,
    top: Seq<LayerInfo>,
    i: int,
    k: int,
)
    requires
        0 <= i <= overlay.len(),
        forall|j: int| i <= j < overlay.len() ==> !(#[trigger] overlay[j]).exclusive_keyboard,
        i > 0 ==> overlay[i - 1].exclusive_keyboard,
        0 <= k <= top.len(),
        forall|j: int| k <= j < top.len() ==> !(#[trigger] top[j]).exclusive_keyboard,
        k > 0 ==> top[k - 1].exclusive_keyboard,
    ensures
        i > 0 ==> exclusive_of(overlay, top) == Some(overlay[i - 1].id),
        i == 0 && k > 0 ==> exclusive_of(overlay, top) == Some(top[k - 1].id),
        i == 0 && k == 0 ==> exclusive_of(overlay, top) is None,
{
    lemma_exclusive_in(overlay, overlay.len() as int, i);
    lemma_exclusive_in(top, top.len() as int, k);
}

/// Law: a surface is configured once, at its first commit, and never refocused
/// by that one; the layout is arranged only where a zone or the dock's room
/// changed.
pub proof fn layers_are_configured_once(
    zone_changed: bool,
    extra: int,
    granted: int,
    owed: bool,
    holds: bool,
)
    ensures
        commit_of(zone_changed, extra, granted, false, owed, holds).configure,
        !commit_of(zone_changed, extra, granted, false, owed, holds).refocus,
        !commit_of(zone_changed, extra, granted, true, owed, holds).configure,
        commit_of(zone_changed, extra, granted, true, owed, holds).refocus <==> owed && !holds,
        !commit_of(false, extra, extra, true, owed, holds).arrange,
        commit_of(true, extra, granted, true, owed, holds).arrange,
        extra != granted ==> commit_of(false, extra, granted, true, owed, holds).arrange,
{
}

/// Law: a dock layer is anchored to the top, the bottom and the right, and
/// answers to the dock's name in whatever case.
pub proof fn dock_layers_fill_the_right_side(l: LayerInfo, identity: Seq<char>)
    requires
        l.docks(identity),
    ensures
        l.anchor_top && l.anchor_bottom && l.anchor_right,
        l.namespace@.len() == identity.len(),
{
}

/// Law: the surfaces of a layer are offered to the pointer from the topmost
/// down, each where it is, the dock where it is scrolled to.
pub proof fn layers_are_offered_topmost_first(
    s: Seq<LayerInfo>,
    dock: Option<(u32, (i32, i32))>,
    n: int,
)
    requires
        0 <= n <= s.len(),
        forall|j: int| 0 <= j < s.len() ==> (#[trigger] s[j]).geo is Some,
    ensures
        candidates_to(s, dock, n).len() == n,
        forall|k: int|
            0 <= k < n ==> {
                let l = s[s.len() - 1 - k];
                let c = #[trigger] candidates_to(s, dock, n)[k];
                &&& c.0 == l.id
                &&& dock is Some && (dock->0).0 == l.id ==> c.1 == (dock->0).1
                &&& dock is None || (dock->0).0 != l.id ==> c.1 == (l.geo->0.x, l.geo->0.y)
            },
    decreases n,
{
    if n > 0 {
        layers_are_offered_topmost_first(s, dock, n - 1);
        assert(s[s.len() - n].geo is Some);
    }
}

} // verus!
