//! Scene assembly: one frame's elements, front to back, and the matching
//! order in which the pointer picks a surface.

use crate::arrange::TiledPlace;
use crate::geom::{imax, max_i32, Rect};
use crate::manage::WindowRoles;
use crate::shell::{FloatData, Managed, Store};
use crate::theme::Theme;
use crate::Win;
use vstd::prelude::*;

pub mod laws;

verus! {

/// A layer-shell layer.
#[derive(Clone, Copy, PartialEq, Eq, Debug, Structural)]
pub enum Layer {
    Overlay,
    Top,
    Bottom,
    Background,
}

/// A layer surface by number, with the place its map gives it, if any.
#[derive(Clone, Copy, PartialEq, Eq, Debug)]
pub struct LayerSurface {
    pub id: u32,
    pub loc: Option<(i32, i32)>,
}

/// An override-redirect window, by number, and whether it has a surface.
#[derive(Clone, Copy, PartialEq, Eq, Debug, Structural)]
pub struct OrPlace {
    pub id: u32,
    pub rect: Rect,
    pub has_surface: bool,
}

/// A tiled window as this frame draws it: its placement, whether it has a
/// surface, and the size of its buffer's geometry.
#[derive(Clone, Copy, PartialEq, Eq, Debug, Structural)]
pub struct TiledView {
    pub place: TiledPlace,
    pub has_surface: bool,
    pub geo_w: i32,
    pub geo_h: i32,
}

/// How far a buffer is stretched along one axis, as a fraction.
#[derive(Clone, Copy, PartialEq, Eq, Debug, Structural)]
pub struct Stretch {
    pub num: i32,
    pub den: i32,
}

/// One leaf's frame: its rect and whether it has a titlebar strip.
#[derive(Clone, Copy, PartialEq, Eq, Debug, Structural)]
pub struct SceneLeaf {
    pub rect: Rect,
    pub titlebar: bool,
}

/// Something drawn, in its place.
#[derive(Clone, Copy, PartialEq, Eq, Debug)]
pub enum Element {
    /// A layer surface.
    Layer(Layer, u32, (i32, i32)),
    /// An override-redirect window.
    Or(u32, Rect),
    /// A notification bubble.
    Note(u32, (i32, i32)),
    /// A float's surface, then its titlebar strip, then its border.
    Float(Win, (i32, i32)),
    FloatStrip(Win, (i32, i32)),
    FloatBorder(Win, Rect),
    /// A tiled window's popups, then the window, stretched and cropped.
    Popups(Win, (i32, i32)),
    Tiled(Win, Rect, Stretch, Stretch),
    Dock(Rect),
    /// One strip of the focus outline.
    Outline(Rect),
    Taskbar,
    /// An insert button, by its number.
    Plus(usize),
    /// A leaf's titlebar strip, then its frame, by the leaf's number.
    Titlebar(usize),
    Frame(usize, Rect),
    Wallpaper,
}

/// Everything one frame is composed of. Layers list their surfaces bottom
/// to top; override-redirect windows are topmost last; floats and tiled
/// windows are frontmost first.
pub struct Scene {
    pub overlay: Vec<LayerSurface>,
    pub or_windows: Vec<OrPlace>,
    /// The bubbles' places, and which of them have a popup.
    pub note_rects: Vec<(u32, Rect)>,
    pub notes: Vec<u32>,
    pub top: Vec<LayerSurface>,
    pub frame_art: bool,
    pub tiled: Vec<TiledView>,
    pub dock: Option<Rect>,
    pub bottom: Vec<LayerSurface>,
    /// The dock panel's scrolled position among the bottom layer.
    pub layer_dock: Option<(u32, (i32, i32))>,
    pub outline: Vec<Rect>,
    pub taskbar: bool,
    pub plus: usize,
    pub leaves: Vec<SceneLeaf>,
    pub wallpaper: bool,
    pub background: Vec<LayerSurface>,
}

/// A scene by what it holds.
pub struct SceneView {
    pub overlay: Seq<LayerSurface>,
    pub or_windows: Seq<OrPlace>,
    pub note_rects: Seq<(u32, Rect)>,
    pub notes: Seq<u32>,
    pub top: Seq<LayerSurface>,
    pub frame_art: bool,
    pub tiled: Seq<TiledView>,
    pub dock: Option<Rect>,
    pub bottom: Seq<LayerSurface>,
    pub layer_dock: Option<(u32, (i32, i32))>,
    pub outline: Seq<Rect>,
    pub taskbar: bool,
    pub plus: usize,
    pub leaves: Seq<SceneLeaf>,
    pub wallpaper: bool,
    pub background: Seq<LayerSurface>,
}

impl View for Scene {
    type V = SceneView;

    open spec fn view(&self) -> SceneView {
        SceneView {
            overlay: self.overlay@,
            or_windows: self.or_windows@,
            note_rects: self.note_rects@,
            notes: self.notes@,
            top: self.top@,
            frame_art: self.frame_art,
            tiled: self.tiled@,
            dock: self.dock,
            bottom: self.bottom@,
            layer_dock: self.layer_dock,
            outline: self.outline@,
            taskbar: self.taskbar,
            plus: self.plus,
            leaves: self.leaves@,
            wallpaper: self.wallpaper,
            background: self.background@,
        }
    }
}

/// Where a layer surface is drawn: at the override's position if it is the
/// one overridden, else where its map put it.
pub open spec fn layer_loc(
    s: LayerSurface,
    over: Option<(u32, (i32, i32))>,
) -> Option<(i32, i32)> {
    match over {
        Some((id, loc)) => if id == s.id {
            Some(loc)
        } else {
            s.loc
        },
        None => s.loc,
    }
}

/// The topmost `n` surfaces of a layer, topmost first.
pub open spec fn layer_part(
    layer: Layer,
    s: Seq<LayerSurface>,
    over: Option<(u32, (i32, i32))>,
    n: int,
) -> Seq<Element>
    decreases n,
{
    if n <= 0 {
        Seq::empty()
    } else {
        let rest = layer_part(layer, s, over, n - 1);
        match layer_loc(s[s.len() - n], over) {
            Some(loc) => rest.push(Element::Layer(layer, s[s.len() - n].id, loc)),
            None => rest,
        }
    }
}

/// The topmost `n` override-redirect windows that have a surface.
pub open spec fn or_part(s: Seq<OrPlace>, n: int) -> Seq<Element>
    decreases n,
{
    if n <= 0 {
        Seq::empty()
    } else {
        let o = s[s.len() - n];
        let rest = or_part(s, n - 1);
        if o.has_surface {
            rest.push(Element::Or(o.id, o.rect))
        } else {
            rest
        }
    }
}

/// The first `n` bubbles that have a popup.
pub open spec fn note_part(rects: Seq<(u32, Rect)>, notes: Seq<u32>, n: int) -> Seq<Element>
    decreases n,
{
    if n <= 0 {
        Seq::empty()
    } else {
        let (id, r) = rects[n - 1];
        let rest = note_part(rects, notes, n - 1);
        if notes.contains(id) {
            rest.push(Element::Note(id, (r.x, r.y)))
        } else {
            rest
        }
    }
}

/// What one float is drawn as: the client surface, the titlebar strip if it
/// has a texture, the border if there is art for it.
pub open spec fn float_elements(win: Win, f: FloatData, art: bool, th: Theme) -> Seq<Element> {
    let r = f.framed(th);
    seq![Element::Float(win, (f.x, f.y))] + (if f.frame.held() is Some {
        seq![Element::FloatStrip(win, (r.x, r.y))]
    } else {
        Seq::empty()
    }) + (if art {
        seq![
            Element::FloatBorder(
                win,
                Rect {
                    x: r.x,
                    y: r.y,
                    w: imax(r.w as int, 1) as i32,
                    h: imax(r.h as int, 1) as i32,
                },
            ),
        ]
    } else {
        Seq::empty()
    })
}

/// The topmost `n` floats.
pub open spec fn float_part(stack: Seq<Win>, s: Store, art: bool, th: Theme, n: int) -> Seq<Element>
    decreases n,
{
    if n <= 0 {
        Seq::empty()
    } else {
        let rest = float_part(stack, s, art, th, n - 1);
        if s.is_float(stack[n - 1]) {
            rest + float_elements(stack[n - 1], s.entry(stack[n - 1]).kind->Float_0, art, th)
        } else {
            rest
        }
    }
}

/// How far a buffer of size `geo` stretches to fill `size`: a buffer that is
/// smaller fills it, a larger one is only cropped, never squashed.
pub open spec fn stretch_of(size: int, geo: int) -> Stretch {
    let den = imax(geo, 1);
    Stretch { num: imax(size, den) as i32, den: den as i32 }
}

/// What one tiled window is drawn as: its popups in front, uncropped, then
/// the window in its rect.
pub open spec fn tiled_elements(t: TiledView) -> Seq<Element> {
    let r = t.place.rect;
    seq![
        Element::Popups(t.place.win, (r.x, r.y)),
        Element::Tiled(
            t.place.win,
            Rect { x: r.x, y: r.y, w: imax(r.w as int, 1) as i32, h: imax(r.h as int, 1) as i32 },
            stretch_of(r.w as int, t.geo_w as int),
            stretch_of(r.h as int, t.geo_h as int),
        ),
    ]
}

/// The frontmost `n` tiled windows that have a surface.
pub open spec fn tiled_part(s: Seq<TiledView>, n: int) -> Seq<Element>
    decreases n,
{
    if n <= 0 {
        Seq::empty()
    } else {
        let rest = tiled_part(s, n - 1);
        if s[n - 1].has_surface {
            rest + tiled_elements(s[n - 1])
        } else {
            rest
        }
    }
}

/// The first `n` leaf frames, each with its titlebar strip in front.
pub open spec fn leaf_part(s: Seq<SceneLeaf>, n: int) -> Seq<Element>
    decreases n,
{
    if n <= 0 {
        Seq::empty()
    } else {
        let l = s[n - 1];
        let r = Rect {
            x: l.rect.x,
            y: l.rect.y,
            w: imax(l.rect.w as int, 1) as i32,
            h: imax(l.rect.h as int, 1) as i32};
        leaf_part(s, n - 1) + (if l.titlebar {
            seq![Element::Titlebar((n - 1) as usize)]
        } else {
            Seq::empty()
        }) + seq![Element::Frame((n - 1) as usize, r)]
    }
}

/// An element if there is one.
pub open spec fn if_some(b: bool, e: Element) -> Seq<Element> {
    if b {
        seq![e]
    } else {
        Seq::empty()
    }
}

/// One frame's elements, front to back: the Overlay layer, override-redirect
/// windows, notification bubbles, the Top layer, floats with their chrome,
/// the tiled and fullscreen windows, the dock, the Bottom layer, the focus
/// outline, the taskbar, the insert buttons, the leaf frames, the opaque
/// wallpaper, and the Background layer.
pub open spec fn elements_of(sc: SceneView, stack: Seq<Win>, s: Store, th: Theme) -> Seq<Element> {
    layer_part(Layer::Overlay, sc.overlay, None, sc.overlay.len() as int) + or_part(
        sc.or_windows,
        sc.or_windows.len() as int,
    ) + note_part(sc.note_rects, sc.notes, sc.note_rects.len() as int) + layer_part(
        Layer::Top,
        sc.top,
        None,
        sc.top.len() as int,
    ) + float_part(stack, s, sc.frame_art, th, stack.len() as int) + tiled_part(
        sc.tiled,
        sc.tiled.len() as int,
    ) + (match sc.dock {
        Some(r) => seq![Element::Dock(r)],
        None => Seq::empty(),
    }) + layer_part(Layer::Bottom, sc.bottom, sc.layer_dock, sc.bottom.len() as int)
        + sc.outline.map_values(|r: Rect| Element::Outline(r)) + if_some(
        sc.taskbar,
        Element::Taskbar,
    ) + Seq::new(sc.plus as nat, |i: int| Element::Plus(i as usize)) + leaf_part(
        sc.leaves,
        sc.leaves.len() as int,
    ) + if_some(sc.wallpaper, Element::Wallpaper) + layer_part(
        Layer::Background,
        sc.background,
        None,
        sc.background.len() as int,
    )
}

/// Append a layer's surfaces, topmost first. The overridden surface is
/// drawn at its override's position instead of where its map put it.
fn layer_elements(
    layer: Layer,
    s: &Vec<LayerSurface>,
    over: Option<(u32, (i32, i32))>,
    out: &mut Vec<Element>,
)
    ensures
        final(out)@ == old(out)@ + layer_part(layer, s@, over, s@.len() as int),
{
    let ghost start = out@;
    let n: usize = s.len();
    let mut k: usize = 0;
    while k < n
        invariant
            k <= n,
            n == s@.len(),
            out@ == start + layer_part(layer, s@, over, k as int),
        decreases n - k,
    {
        let l = s[n - 1 - k];
        let loc = match over {
            Some((id, p)) => if id == l.id {
                Some(p)
            } else {
                l.loc
            },
            None => l.loc};
        proof {
            assert(s@[s@.len() - (k + 1)] == l);
        }
        if let Some(p) = loc {
            out.push(Element::Layer(layer, l.id, p));
        }
        k = k + 1;
        proof {
            assert(out@ =~= start + layer_part(layer, s@, over, k as int));
        }
    }
}

fn holds(notes: &Vec<u32>, id: u32) -> (b: bool)
    ensures
        b == notes@.contains(id),
{
    let mut k: usize = 0;
    while k < notes.len()
        invariant
            k <= notes@.len(),
            forall|i: int| 0 <= i < k ==> notes@[i] != id,
        decreases notes@.len() - k,
    {
        if notes[k] == id {
            assert(notes@[k as int] == id);
            return true;
        }
        k = k + 1;
    }
    false
}

/// Append the override-redirect windows, topmost first, then the bubbles.
fn over_elements(sc: &Scene, out: &mut Vec<Element>)
    ensures
        final(out)@ == old(out)@ + or_part(sc.or_windows@, sc.or_windows@.len() as int) + note_part(
            sc.note_rects@,
            sc.notes@,
            sc.note_rects@.len() as int,
        ),
{
    let ghost start = out@;
    let n: usize = sc.or_windows.len();
    let mut k: usize = 0;
    while k < n
        invariant
            k <= n,
            n == sc.or_windows@.len(),
            out@ == start + or_part(sc.or_windows@, k as int),
        decreases n - k,
    {
        let o = sc.or_windows[n - 1 - k];
        proof {
            assert(sc.or_windows@[sc.or_windows@.len() - (k + 1)] == o);
        }
        if o.has_surface {
            out.push(Element::Or(o.id, o.rect));
        }
        k = k + 1;
        proof {
            assert(out@ =~= start + or_part(sc.or_windows@, k as int));
        }
    }
    let ghost mid = out@;
    let mut j: usize = 0;
    while j < sc.note_rects.len()
        invariant
            j <= sc.note_rects@.len(),
            out@ == mid + note_part(sc.note_rects@, sc.notes@, j as int),
        decreases sc.note_rects@.len() - j,
    {
        let (id, r) = sc.note_rects[j];
        if holds(&sc.notes, id) {
            out.push(Element::Note(id, (r.x, r.y)));
        }
        j = j + 1;
        proof {
            assert(out@ =~= mid + note_part(sc.note_rects@, sc.notes@, j as int));
        }
    }
}

/// Append the floats with their chrome, topmost first.
fn floats_elements(
    stack: &Vec<Win>,
    managed: &Managed,
    art: bool,
    th: &Theme,
    out: &mut Vec<Element>,
)
    requires
        managed@.wf(),
        th.wf(),
        forall|i: int|
            0 <= i < stack@.len() && managed@.is_float(#[trigger] stack@[i]) ==> managed@.entry(
                stack@[i],
            ).kind->Float_0.fits(*th),
    ensures
        final(out)@ == old(out)@ + float_part(stack@, managed@, art, *th, stack@.len() as int),
{
    let ghost start = out@;
    let mut k: usize = 0;
    while k < stack.len()
        invariant
            k <= stack@.len(),
            managed@.wf(),
            th.wf(),
            forall|i: int|
                0 <= i < stack@.len() && managed@.is_float(#[trigger] stack@[i]) ==> managed@.entry(
                    stack@[i],
                ).kind->Float_0.fits(*th),
            out@ == start + float_part(stack@, managed@, art, *th, k as int),
        decreases stack@.len() - k,
    {
        let win: Win = stack[k];
        let ghost before = out@;
        if let Some(f) = managed.float(win) {
            let r = f.frame_rect(th);
            out.push(Element::Float(win, (f.x, f.y)));
            if f.frame.texture().is_some() {
                out.push(Element::FloatStrip(win, (r.x, r.y)));
            }
            if art {
                out.push(
                    Element::FloatBorder(
                        win,
                        Rect { x: r.x, y: r.y, w: max_i32(r.w, 1), h: max_i32(r.h, 1) },
                    ),
                );
            }
            proof {
                assert(out@ =~= before + float_elements(win, *f, art, *th));
            }
        }
        k = k + 1;
        proof {
            assert(out@ =~= start + float_part(stack@, managed@, art, *th, k as int));
        }
    }
}

/// How far a buffer of size `geo` stretches to fill `size`.
pub fn stretch(size: i32, geo: i32) -> (s: Stretch)
    ensures
        s == stretch_of(size as int, geo as int),
        s.den >= 1,
        s.num >= s.den,
{
    let den: i32 = max_i32(geo, 1);
    Stretch { num: max_i32(size, den), den }
}

/// Append the tiled and fullscreen windows, frontmost first.
fn tiled_window_elements(s: &Vec<TiledView>, out: &mut Vec<Element>)
    ensures
        final(out)@ == old(out)@ + tiled_part(s@, s@.len() as int),
{
    let ghost start = out@;
    let mut k: usize = 0;
    while k < s.len()
        invariant
            k <= s@.len(),
            out@ == start + tiled_part(s@, k as int),
        decreases s@.len() - k,
    {
        let t = s[k];
        let ghost before = out@;
        if t.has_surface {
            let r = t.place.rect;
            out.push(Element::Popups(t.place.win, (r.x, r.y)));
            out.push(
                Element::Tiled(
                    t.place.win,
                    Rect { x: r.x, y: r.y, w: max_i32(r.w, 1), h: max_i32(r.h, 1) },
                    stretch(r.w, t.geo_w),
                    stretch(r.h, t.geo_h),
                ),
            );
            proof {
                assert(out@ =~= before + tiled_elements(t));
            }
        }
        k = k + 1;
        proof {
            assert(out@ =~= start + tiled_part(s@, k as int));
        }
    }
}

/// Append the focus outline, the taskbar, the insert buttons, the leaf
/// frames and the wallpaper.
fn chrome_elements(sc: &Scene, out: &mut Vec<Element>)
    ensures
        final(out)@ == old(out)@ + sc.outline@.map_values(|r: Rect| Element::Outline(r)) + if_some(
            sc.taskbar,
            Element::Taskbar,
        ) + Seq::new(sc.plus as nat, |i: int| Element::Plus(i as usize)) + leaf_part(
            sc.leaves@,
            sc.leaves@.len() as int,
        ) + if_some(sc.wallpaper, Element::Wallpaper),
{
    let ghost start = out@;
    let ghost outline = sc.outline@.map_values(|r: Rect| Element::Outline(r));
    let mut k: usize = 0;
    while k < sc.outline.len()
        invariant
            k <= sc.outline@.len(),
            outline == sc.outline@.map_values(|r: Rect| Element::Outline(r)),
            out@ == start + outline.take(k as int),
        decreases sc.outline@.len() - k,
    {
        out.push(Element::Outline(sc.outline[k]));
        k = k + 1;
        proof {
            assert(outline.take(k as int) =~= outline.take(k - 1).push(outline[k - 1]));
            assert(out@ =~= start + outline.take(k as int));
        }
    }
    proof {
        assert(outline.take(k as int) =~= outline);
    }
    let ghost a = out@;
    if sc.taskbar {
        out.push(Element::Taskbar);
    }
    let ghost b = out@;
    proof {
        assert(b =~= a + if_some(sc.taskbar, Element::Taskbar));
    }
    let ghost plus = Seq::new(sc.plus as nat, |i: int| Element::Plus(i as usize));
    let mut p: usize = 0;
    while p < sc.plus
        invariant
            p <= sc.plus,
            plus == Seq::new(sc.plus as nat, |i: int| Element::Plus(i as usize)),
            out@ == b + plus.take(p as int),
        decreases sc.plus - p,
    {
        out.push(Element::Plus(p));
        p = p + 1;
        proof {
            assert(plus.take(p as int) =~= plus.take(p - 1).push(plus[p - 1]));
            assert(out@ =~= b + plus.take(p as int));
        }
    }
    proof {
        assert(plus.take(p as int) =~= plus);
    }
    let ghost c = out@;
    let mut j: usize = 0;
    while j < sc.leaves.len()
        invariant
            j <= sc.leaves@.len(),
            out@ == c + leaf_part(sc.leaves@, j as int),
        decreases sc.leaves@.len() - j,
    {
        let l = sc.leaves[j];
        if l.titlebar {
            out.push(Element::Titlebar(j));
        }
        out.push(
            Element::Frame(
                j,
                Rect {
                    x: l.rect.x,
                    y: l.rect.y,
                    w: max_i32(l.rect.w, 1),
                    h: max_i32(l.rect.h, 1),
                },
            ),
        );
        j = j + 1;
        proof {
            assert(out@ =~= c + leaf_part(sc.leaves@, j as int));
        }
    }
    let ghost d = out@;
    if sc.wallpaper {
        out.push(Element::Wallpaper);
    }
    proof {
        assert(out@ =~= d + if_some(sc.wallpaper, Element::Wallpaper));
    }
}

/// One frame's elements, front to back.
pub fn output_elements(sc: &Scene, roles: &WindowRoles, managed: &Managed, th: &Theme) -> (out:
    Vec<Element>)
    requires
        managed@.wf(),
        th.wf(),
        forall|i: int|
            0 <= i < roles.float_stack@.len() && managed@.is_float(
                #[trigger] roles.float_stack@[i],
            ) ==> managed@.entry(roles.float_stack@[i]).kind->Float_0.fits(*th),
    ensures
        out@ == elements_of(sc@, roles.float_stack@, managed@, *th),
{
    let mut out: Vec<Element> = Vec::new();
    layer_elements(Layer::Overlay, &sc.overlay, None, &mut out);
    let ghost e1 = out@;
    over_elements(sc, &mut out);
    let ghost e2 = out@;
    layer_elements(Layer::Top, &sc.top, None, &mut out);
    floats_elements(&roles.float_stack, managed, sc.frame_art, th, &mut out);
    tiled_window_elements(&sc.tiled, &mut out);
    let ghost e3 = out@;
    if let Some(r) = sc.dock {
        out.push(Element::Dock(r));
    }
    proof {
        assert(out@ =~= e3 + (match sc.dock {
            Some(r) => seq![Element::Dock(r)],
            None => Seq::empty(),
        }));
    }
    layer_elements(Layer::Bottom, &sc.bottom, sc.layer_dock, &mut out);
    chrome_elements(sc, &mut out);
    layer_elements(Layer::Background, &sc.background, None, &mut out);
    proof {
        assert(out@ =~= elements_of(sc@, roles.float_stack@, managed@, *th));
    }
    out
}

/// The planes that take pointer input, front to back.
#[derive(Clone, Copy, PartialEq, Eq, Debug, Structural)]
pub enum Plane {
    Overlay,
    OverrideRedirect,
    Top,
    Float,
    Tiled,
    Dock,
    Bottom,
}

/// Whether a surface of each plane lies under the pointer.
#[derive(Clone, Copy, PartialEq, Eq, Debug, Structural)]
pub struct PlaneHits {
    pub overlay: bool,
    pub override_redirect: bool,
    pub top: bool,
    pub float: bool,
    pub tiled: bool,
    pub dock: bool,
    pub bottom: bool,
}

impl PlaneHits {
    pub open spec fn on(self, p: Plane) -> bool {
        match p {
            Plane::Overlay => self.overlay,
            Plane::OverrideRedirect => self.override_redirect,
            Plane::Top => self.top,
            Plane::Float => self.float,
            Plane::Tiled => self.tiled,
            Plane::Dock => self.dock,
            Plane::Bottom => self.bottom,
        }
    }
}

impl Plane {
    /// How far back a plane is drawn.
    pub open spec fn depth(self) -> int {
        match self {
            Plane::Overlay => 0,
            Plane::OverrideRedirect => 1,
            Plane::Top => 3,
            Plane::Float => 4,
            Plane::Tiled => 5,
            Plane::Dock => 6,
            Plane::Bottom => 7,
        }
    }
}

impl Element {
    /// How far back an element is drawn.
    pub open spec fn depth(self) -> int {
        match self {
            Element::Layer(Layer::Overlay, _, _) => 0,
            Element::Or(_, _) => 1,
            Element::Note(_, _) => 2,
            Element::Layer(Layer::Top, _, _) => 3,
            Element::Float(_, _) => 4,
            Element::FloatStrip(_, _) => 4,
            Element::FloatBorder(_, _) => 4,
            Element::Popups(_, _) => 5,
            Element::Tiled(_, _, _, _) => 5,
            Element::Dock(_) => 6,
            Element::Layer(Layer::Bottom, _, _) => 7,
            Element::Outline(_) => 8,
            Element::Taskbar => 9,
            Element::Plus(_) => 10,
            Element::Titlebar(_) => 11,
            Element::Frame(_, _) => 11,
            Element::Wallpaper => 12,
            Element::Layer(Layer::Background, _, _) => 13,
        }
    }
}

/// The plane the pointer is on: the frontmost one that is hit. Background
/// surfaces get no input: what cannot be seen must not swallow clicks.
pub fn surface_under(hits: &PlaneHits) -> (plane: Option<Plane>)
    ensures
        plane is None <==> forall|p: Plane| !#[trigger] hits.on(p),
        plane is Some ==> hits.on(plane->0) && forall|p: Plane| #[trigger]
            hits.on(p) ==> plane->0.depth() <= p.depth(),
{
    if hits.overlay {
        assert(hits.on(Plane::Overlay));
        return Some(Plane::Overlay);
    }
    if hits.override_redirect {
        assert(hits.on(Plane::OverrideRedirect));
        return Some(Plane::OverrideRedirect);
    }
    if hits.top {
        assert(hits.on(Plane::Top));
        return Some(Plane::Top);
    }
    if hits.float {
        assert(hits.on(Plane::Float));
        return Some(Plane::Float);
    }
    if hits.tiled {
        assert(hits.on(Plane::Tiled));
        return Some(Plane::Tiled);
    }
    if hits.dock {
        assert(hits.on(Plane::Dock));
        return Some(Plane::Dock);
    }
    if hits.bottom {
        assert(hits.on(Plane::Bottom));
        return Some(Plane::Bottom);
    }
    None
}

/// Whether every element from `lo` to `hi` deep stands in drawing order.
pub open spec fn ordered(s: Seq<Element>, lo: int, hi: int) -> bool {
    &&& forall|i: int| 0 <= i < s.len() ==> lo <= (#[trigger] s[i]).depth() <= hi
    &&& forall|i: int, j: int|
        #![trigger s[i], s[j]]
        0 <= i <= j < s.len() ==> s[i].depth() <= s[j].depth()
}

proof fn lemma_joined(a: Seq<Element>, b: Seq<Element>, lo: int, mid: int, hi: int)
    requires
        ordered(a, lo, mid),
        ordered(b, mid, hi),
        lo <= mid <= hi,
    ensures
        ordered(a + b, lo, hi),
{
    assert forall|i: int, j: int|
        #![trigger (a + b)[i], (a + b)[j]]
        0 <= i <= j < (a + b).len() implies (a + b)[i].depth() <= (a + b)[j].depth() by {
        if j < a.len() {
            assert(a[i].depth() <= a[j].depth());
        } else if i >= a.len() {
            assert(b[i - a.len()].depth() <= b[j - a.len()].depth());
        } else {
            assert(a[i].depth() <= mid);
            assert(mid <= b[j - a.len()].depth());
        }
    }
    assert forall|i: int| 0 <= i < (a + b).len() implies lo <= (#[trigger] (a + b)[i]).depth()
        <= hi by {
        if i < a.len() {
            assert(a[i].depth() <= mid);
        } else {
            assert(mid <= b[i - a.len()].depth());
        }
    }
}

proof fn lemma_layer_depth(
    layer: Layer,
    s: Seq<LayerSurface>,
    over: Option<(u32, (i32, i32))>,
    n: int,
)
    ensures
        ({
            let d = Element::Layer(layer, 0, (0, 0)).depth();
            ordered(layer_part(layer, s, over, n), d, d)
        }),
    decreases n,
{
    if n > 0 {
        lemma_layer_depth(layer, s, over, n - 1);
    }
}

proof fn lemma_or_depth(s: Seq<OrPlace>, n: int)
    ensures
        ordered(or_part(s, n), 1, 1),
    decreases n,
{
    if n > 0 {
        lemma_or_depth(s, n - 1);
    }
}

proof fn lemma_note_depth(rects: Seq<(u32, Rect)>, notes: Seq<u32>, n: int)
    ensures
        ordered(note_part(rects, notes, n), 2, 2),
    decreases n,
{
    if n > 0 {
        lemma_note_depth(rects, notes, n - 1);
    }
}

proof fn lemma_float_depth(stack: Seq<Win>, s: Store, art: bool, th: Theme, n: int)
    ensures
        ordered(float_part(stack, s, art, th, n), 4, 4),
    decreases n,
{
    if n > 0 {
        lemma_float_depth(stack, s, art, th, n - 1);
        let rest = float_part(stack, s, art, th, n - 1);
        if s.is_float(stack[n - 1]) {
            let more = float_elements(stack[n - 1], s.entry(stack[n - 1]).kind->Float_0, art, th);
            assert(ordered(more, 4, 4));
            lemma_joined(rest, more, 4, 4, 4);
        }
    }
}

proof fn lemma_tiled_depth(s: Seq<TiledView>, n: int)
    ensures
        ordered(tiled_part(s, n), 5, 5),
    decreases n,
{
    if n > 0 {
        lemma_tiled_depth(s, n - 1);
        if s[n - 1].has_surface {
            assert(ordered(tiled_elements(s[n - 1]), 5, 5));
            lemma_joined(tiled_part(s, n - 1), tiled_elements(s[n - 1]), 5, 5, 5);
        }
    }
}

proof fn lemma_leaf_depth(s: Seq<SceneLeaf>, n: int)
    ensures
        ordered(leaf_part(s, n), 11, 11),
    decreases n,
{
    if n > 0 {
        lemma_leaf_depth(s, n - 1);
    }
}

/// Everything is drawn in depth order, and pointer input picks planes by
/// the same depths: what takes a click is what is drawn in front.
pub proof fn drawing_order_is_input_order(sc: SceneView, stack: Seq<Win>, s: Store, th: Theme)
    ensures
        ordered(elements_of(sc, stack, s, th), 0, 13),
        Plane::Overlay.depth() == Element::Layer(Layer::Overlay, 0, (0, 0)).depth(),
        Plane::OverrideRedirect.depth() == Element::Or(0, Rect { x: 0, y: 0, w: 0, h: 0 }).depth(),
        Plane::Top.depth() == Element::Layer(Layer::Top, 0, (0, 0)).depth(),
        Plane::Float.depth() == Element::Float(0, (0, 0)).depth(),
        Plane::Tiled.depth() == Element::Popups(0, (0, 0)).depth(),
        Plane::Dock.depth() == Element::Dock(Rect { x: 0, y: 0, w: 0, h: 0 }).depth(),
        Plane::Bottom.depth() == Element::Layer(Layer::Bottom, 0, (0, 0)).depth(),
{
    lemma_layer_depth(Layer::Overlay, sc.overlay, None, sc.overlay.len() as int);
    lemma_or_depth(sc.or_windows, sc.or_windows.len() as int);
    lemma_note_depth(sc.note_rects, sc.notes, sc.note_rects.len() as int);
    lemma_layer_depth(Layer::Top, sc.top, None, sc.top.len() as int);
    lemma_float_depth(stack, s, sc.frame_art, th, stack.len() as int);
    lemma_tiled_depth(sc.tiled, sc.tiled.len() as int);
    lemma_layer_depth(Layer::Bottom, sc.bottom, sc.layer_dock, sc.bottom.len() as int);
    lemma_leaf_depth(sc.leaves, sc.leaves.len() as int);
    lemma_layer_depth(Layer::Background, sc.background, None, sc.background.len() as int);
    let p0 = layer_part(Layer::Overlay, sc.overlay, None, sc.overlay.len() as int);
    let p1 = or_part(sc.or_windows, sc.or_windows.len() as int);
    let p2 = note_part(sc.note_rects, sc.notes, sc.note_rects.len() as int);
    let p3 = layer_part(Layer::Top, sc.top, None, sc.top.len() as int);
    let p4 = float_part(stack, s, sc.frame_art, th, stack.len() as int);
    let p5 = tiled_part(sc.tiled, sc.tiled.len() as int);
    let p6 = match sc.dock {
        Some(r) => seq![Element::Dock(r)],
        None => Seq::empty()};
    let p7 = layer_part(Layer::Bottom, sc.bottom, sc.layer_dock, sc.bottom.len() as int);
    let p8 = sc.outline.map_values(|r: Rect| Element::Outline(r));
    let p9 = if_some(sc.taskbar, Element::Taskbar);
    let p10 = Seq::new(sc.plus as nat, |i: int| Element::Plus(i as usize));
    let p11 = leaf_part(sc.leaves, sc.leaves.len() as int);
    let p12 = if_some(sc.wallpaper, Element::Wallpaper);
    let p13 = layer_part(Layer::Background, sc.background, None, sc.background.len() as int);
    lemma_widen(p0, 0, 0, 0, 1);
    lemma_widen(p1, 1, 1, 1, 2);
    lemma_joined(p0, p1, 0, 1, 2);
    lemma_widen(p2, 2, 2, 2, 3);
    lemma_joined(p0 + p1, p2, 0, 2, 3);
    lemma_widen(p3, 3, 3, 3, 4);
    lemma_joined(p0 + p1 + p2, p3, 0, 3, 4);
    lemma_widen(p4, 4, 4, 4, 5);
    lemma_joined(p0 + p1 + p2 + p3, p4, 0, 4, 5);
    lemma_widen(p5, 5, 5, 5, 6);
    lemma_joined(p0 + p1 + p2 + p3 + p4, p5, 0, 5, 6);
    lemma_widen(p6, 6, 6, 6, 7);
    lemma_joined(p0 + p1 + p2 + p3 + p4 + p5, p6, 0, 6, 7);
    lemma_widen(p7, 7, 7, 7, 8);
    lemma_joined(p0 + p1 + p2 + p3 + p4 + p5 + p6, p7, 0, 7, 8);
    lemma_widen(p8, 8, 8, 8, 9);
    lemma_joined(p0 + p1 + p2 + p3 + p4 + p5 + p6 + p7, p8, 0, 8, 9);
    lemma_widen(p9, 9, 9, 9, 10);
    lemma_joined(p0 + p1 + p2 + p3 + p4 + p5 + p6 + p7 + p8, p9, 0, 9, 10);
    lemma_widen(p10, 10, 10, 10, 11);
    lemma_joined(p0 + p1 + p2 + p3 + p4 + p5 + p6 + p7 + p8 + p9, p10, 0, 10, 11);
    lemma_widen(p11, 11, 11, 11, 12);
    lemma_joined(p0 + p1 + p2 + p3 + p4 + p5 + p6 + p7 + p8 + p9 + p10, p11, 0, 11, 12);
    lemma_widen(p12, 12, 12, 12, 13);
    lemma_joined(p0 + p1 + p2 + p3 + p4 + p5 + p6 + p7 + p8 + p9 + p10 + p11, p12, 0, 12, 13);
    lemma_joined(
        p0 + p1 + p2 + p3 + p4 + p5 + p6 + p7 + p8 + p9 + p10 + p11 + p12,
        p13,
        0,
        13,
        13,
    );
}

proof fn lemma_widen(s: Seq<Element>, lo: int, hi: int, lo2: int, hi2: int)
    requires
        ordered(s, lo, hi),
        lo2 <= lo,
        hi <= hi2,
    ensures
        ordered(s, lo2, hi2),
{
}

} // verus!
