//! Composing one frame: where every window and every piece of chrome goes
//! this time, in drawing order, and which float frames are due for a repaint.

use crate::arrange::{all_places, focus_outline, outline_of, tiled_places, Tick, TiledPlace, OUTLINE};
use crate::geom::{fits_i32, Rect};
use crate::layout::{Layout, NodeId, Strip};
use crate::manage::WindowRoles;
use crate::pieces::{
    frames_to, leaf_elements, plus_elements, pluses_shown, ArtSizes, ChromePieces, LeafFrame,
};
use crate::pointer::Region;
use crate::scene::{
    elements_of, output_elements, Element, LayerSurface, OrPlace, Scene, SceneLeaf, SceneView,
    TiledView,
};
use crate::shell::{frame_fits, Managed, Store};
use crate::theme::Theme;
use crate::Win;
use vstd::prelude::*;

verus! {

/// The size of the buffer a window has committed, if it has a surface.
#[derive(Clone, Copy, PartialEq, Eq, Debug, Structural)]
pub struct Buffer {
    pub win: Win,
    pub w: i32,
    pub h: i32,
}

/// What is on the output besides the layout: panels, menus, bubbles.
pub struct Around {
    pub overlay: Vec<LayerSurface>,
    pub or_windows: Vec<OrPlace>,
    pub note_rects: Vec<(u32, Rect)>,
    pub notes: Vec<u32>,
    pub top: Vec<LayerSurface>,
    pub dock: Option<Rect>,
    pub bottom: Vec<LayerSurface>,
    pub layer_dock: Option<(u32, (i32, i32))>,
    pub background: Vec<LayerSurface>,
    /// The places of the insert buttons.
    pub plus_regions: Vec<Rect>,
}

/// A frame to be drawn.
pub struct FramePlan {
    /// Floats whose titlebar strip is drawn anew first.
    pub repaint: Vec<Win>,
    /// The splits' frames that `Element::Frame` and `Element::Titlebar`
    /// number.
    pub frames: Vec<LeafFrame>,
    /// The insert buttons that `Element::Plus` numbers.
    pub pluses: Vec<(i32, i32, i32)>,
    /// Everything drawn, front to back.
    pub elements: Vec<Element>,
}

/// The first buffer of a window from `k` on; the length if none.
pub open spec fn buffer_from(s: Seq<Buffer>, win: Win, k: int) -> int
    decreases s.len() - k,
{
    if k >= s.len() {
        s.len() as int
    } else if s[k].win == win {
        k
    } else {
        buffer_from(s, win, k + 1)
    }
}

/// A tiled window as the scene sees it.
pub open spec fn viewed(place: TiledPlace, s: Seq<Buffer>) -> TiledView {
    let k = buffer_from(s, place.win, 0);
    if 0 <= k < s.len() {
        TiledView { place, has_surface: true, geo_w: s[k].w, geo_h: s[k].h }
    } else {
        TiledView { place, has_surface: false, geo_w: 0, geo_h: 0 }
    }
}

/// The splits' frames as the scene sees them.
pub open spec fn scene_leaves(frames: Seq<LeafFrame>) -> Seq<SceneLeaf> {
    Seq::new(
        frames.len(),
        |i: int| SceneLeaf { rect: frames[i].dst, titlebar: frames[i].titlebar is Some },
    )
}

/// The insert buttons a frame shows.
pub open spec fn shown_pluses(
    pieces: ChromePieces,
    regions: Seq<Rect>,
    animating: bool,
) -> Seq<(i32, i32, i32)> {
    if animating {
        Seq::empty()
    } else {
        pluses_shown(pieces.plus@, regions, regions.len() as int)
    }
}

/// The scene of a frame.
pub open spec fn scene_of(
    v: Strip,
    s: Store,
    fullscreen: Option<Win>,
    tick: Tick,
    pieces: ChromePieces,
    art: ArtSizes,
    animating: bool,
    buffers: Seq<Buffer>,
    output_w: i32,
    output_h: i32,
    th: Theme,
    a: Around,
) -> SceneView {
    let places = all_places(v, s, fullscreen, tick.rects@, output_w, output_h, th);
    let frames = frames_to(pieces.leaves, tick.rects@, art, tick.rects@.len() as int);
    SceneView {
        overlay: a.overlay@,
        or_windows: a.or_windows@,
        note_rects: a.note_rects@,
        notes: a.notes@,
        top: a.top@,
        frame_art: pieces.art,
        tiled: Seq::new(places.len(), |i: int| viewed(places[i], buffers)),
        dock: a.dock,
        bottom: a.bottom@,
        layer_dock: a.layer_dock,
        outline: match tick.focus {
            Some(r) => outline_of(r),
            None => Seq::empty(),
        },
        taskbar: pieces.taskbar is Some,
        plus: shown_pluses(pieces, a.plus_regions@, animating).len() as usize,
        leaves: scene_leaves(frames),
        wallpaper: pieces.wallpaper is Some,
        background: a.background@,
    }
}

/// Whether a frame's arithmetic is in range.
pub open spec fn frame_in_range(rects: Seq<Region<NodeId>>, focus: Option<Rect>, th: Theme) -> bool {
    &&& forall|i: int|
        0 <= i < rects.len() ==> {
            &&& frame_fits((#[trigger] rects[i]).rect, th)
            &&& 0 <= rects[i].rect.w
            &&& 0 <= rects[i].rect.h
            &&& fits_i32(rects[i].rect.right())
            &&& fits_i32(rects[i].rect.bottom())
        }
    &&& focus is Some ==> {
        let r = focus->0;
        &&& fits_i32(r.x + r.w) && fits_i32(r.x + r.w - OUTLINE)
        &&& fits_i32(r.y + r.h) && fits_i32(r.y + r.h - OUTLINE)
        &&& fits_i32(r.y + OUTLINE) && fits_i32(r.h - 2 * OUTLINE)
    }
}

fn buffer_of(s: &Vec<Buffer>, win: Win) -> (at: usize)
    ensures
        at == buffer_from(s@, win, 0),
        at <= s@.len(),
{
    let mut k: usize = 0;
    while k < s.len()
        invariant
            k <= s@.len(),
            buffer_from(s@, win, 0) == buffer_from(s@, win, k as int),
        decreases s@.len() - k,
    {
        if s[k].win == win {
            return k;
        }
        k = k + 1;
    }
    k
}

/// The tiled windows as the scene sees them.
fn views_of(places: &Vec<TiledPlace>, buffers: &Vec<Buffer>) -> (out: Vec<TiledView>)
    ensures
        out@ == Seq::new(places@.len(), |i: int| viewed(places@[i], buffers@)),
{
    let mut out: Vec<TiledView> = Vec::new();
    let mut k: usize = 0;
    while k < places.len()
        invariant
            k <= places@.len(),
            out@ == Seq::new(k as nat, |i: int| viewed(places@[i], buffers@)),
        decreases places@.len() - k,
    {
        let place = places[k];
        let at: usize = buffer_of(buffers, place.win);
        let view = if at < buffers.len() {
            TiledView { place, has_surface: true, geo_w: buffers[at].w, geo_h: buffers[at].h }
        } else {
            TiledView { place, has_surface: false, geo_w: 0, geo_h: 0 }
        };
        out.push(view);
        k = k + 1;
        proof {
            assert(out@ =~= Seq::new(k as nat, |i: int| viewed(places@[i], buffers@)));
        }
    }
    out
}

fn leaves_of(frames: &Vec<LeafFrame>) -> (out: Vec<SceneLeaf>)
    ensures
        out@ == scene_leaves(frames@),
{
    let mut out: Vec<SceneLeaf> = Vec::new();
    let mut k: usize = 0;
    while k < frames.len()
        invariant
            k <= frames@.len(),
            out@ == scene_leaves(frames@).take(k as int),
        decreases frames@.len() - k,
    {
        let f = frames[k];
        out.push(SceneLeaf { rect: f.dst, titlebar: f.titlebar.is_some() });
        k = k + 1;
        proof {
            let all = scene_leaves(frames@);
            assert(all.take(k as int) =~= all.take(k - 1).push(all[k - 1]));
        }
    }
    proof {
        assert(scene_leaves(frames@).take(k as int) =~= scene_leaves(frames@));
    }
    out
}

/// Compose one frame from this frame's leaf rects and the pieces of chrome
/// that are up: the windows at their rects, the splits' frames, the insert
/// buttons unless a transition runs, the focus outline, and all that lies
/// above and below them.
pub fn redraw(
    layout: &Layout,
    managed: &Managed,
    roles: &WindowRoles,
    tick: &Tick,
    pieces: &ChromePieces,
    art: &ArtSizes,
    animating: bool,
    buffers: &Vec<Buffer>,
    output_w: i32,
    output_h: i32,
    th: &Theme,
    around: Around,
) -> (plan: FramePlan)
    requires
        layout@.wf(),
        managed@.wf(),
        th.wf(),
        art.wf(),
        frame_in_range(tick.rects@, tick.focus, *th),
        forall|i: int|
            0 <= i < roles.float_stack@.len() && managed@.is_float(
                #[trigger] roles.float_stack@[i],
            ) ==> managed@.entry(roles.float_stack@[i]).kind->Float_0.fits(*th),
    ensures
        plan.repaint@ == managed@.stale_to(managed@.entries.len() as int),
        plan.frames@ == frames_to(
            pieces.leaves,
            tick.rects@,
            *art,
            tick.rects@.len() as int,
        ),
        plan.pluses@ == shown_pluses(*pieces, around.plus_regions@, animating),
        plan.elements@ == elements_of(
            scene_of(
                layout@,
                managed@,
                match roles.fullscreen {
                    Some(w) => if managed@.has(w) {
                        Some(w)
                    } else {
                        None
                    },
                    None => None,
                },
                *tick,
                *pieces,
                *art,
                animating,
                buffers@,
                output_w,
                output_h,
                *th,
                around,
            ),
            roles.float_stack@,
            managed@,
            *th,
        ),
{
    let repaint = managed.stale_floats();
    let fullscreen = roles.fullscreen(managed);
    let places = tiled_places(layout, managed, fullscreen, &tick.rects, output_w, output_h, th);
    let frames = leaf_elements(&pieces.leaves, &tick.rects, art);
    let pluses = plus_elements(&pieces.plus, &around.plus_regions, animating);
    let ghost a = around;
    let scene = Scene {
        overlay: around.overlay,
        or_windows: around.or_windows,
        note_rects: around.note_rects,
        notes: around.notes,
        top: around.top,
        frame_art: pieces.art,
        tiled: views_of(&places, buffers),
        dock: around.dock,
        bottom: around.bottom,
        layer_dock: around.layer_dock,
        outline: focus_outline(tick.focus),
        taskbar: pieces.taskbar.is_some(),
        plus: pluses.len(),
        leaves: leaves_of(&frames),
        wallpaper: pieces.wallpaper.is_some(),
        background: around.background,
    };
    let elements = output_elements(&scene, roles, managed, th);
    proof {
        let want = scene_of(
            layout@,
            managed@,
            fullscreen,
            *tick,
            *pieces,
            *art,
            animating,
            buffers@,
            output_w,
            output_h,
            *th,
            a,
        );
        assert(scene@.tiled =~= want.tiled);
        assert(scene@ == want);
    }
    FramePlan { repaint, frames, pluses, elements }
}

proof fn lemma_buffer_from(s: Seq<Buffer>, win: Win, k: int, i: int)
    requires
        0 <= k <= i <= s.len(),
        forall|j: int| k <= j < i ==> (#[trigger] s[j]).win != win,
        i < s.len() ==> s[i].win == win,
    ensures
        buffer_from(s, win, k) == i,
    decreases i - k,
{
    if k < i {
        lemma_buffer_from(s, win, k + 1, i);
    }
}

/// Law: a window is drawn with the size of its own buffer, and one that has
/// none has no surface.
pub proof fn windows_are_drawn_with_their_own_buffer(place: TiledPlace, s: Seq<Buffer>, i: int)
    requires
        0 <= i <= s.len(),
        forall|j: int| 0 <= j < i ==> (#[trigger] s[j]).win != place.win,
        i < s.len() ==> s[i].win == place.win,
    ensures
        viewed(place, s).place == place,
        viewed(place, s).has_surface <==> i < s.len(),
        i < s.len() ==> viewed(place, s).geo_w == s[i].w && viewed(place, s).geo_h == s[i].h,
{
    lemma_buffer_from(s, place.win, 0, i);
}

/// Law: no plus is shown while the splits move.
pub proof fn pluses_wait_for_the_splits(pieces: ChromePieces, regions: Seq<Rect>)
    ensures
        shown_pluses(pieces, regions, true).len() == 0,
        shown_pluses(pieces, regions, false) == pluses_shown(
            pieces.plus@,
            regions,
            regions.len() as int,
        ),
{
}

/// Law: every frame of the scene is where its split is drawn, with a titlebar
/// exactly where its split has one.
pub proof fn scene_frames_are_the_splits_frames(frames: Seq<LeafFrame>, i: int)
    requires
        0 <= i < frames.len(),
    ensures
        scene_leaves(frames).len() == frames.len(),
        scene_leaves(frames)[i].rect == frames[i].dst,
        scene_leaves(frames)[i].titlebar <==> frames[i].titlebar is Some,
{
}

} // verus!
