//! Pointer semantics on the chrome: the priority-ordered hit-test, click
//! dispatch, gap, edge, float and split-move drags.

use crate::geom::{fits_i32, half, half_i32, narrow_i32, near_i32, Rect};
use crate::layout::geometry::{Boundary, GapAt};
use crate::layout::{Layout, NodeId, Pos, Strip};
use crate::theme::Theme;
use crate::Win;
use vstd::prelude::*;

pub mod laws;

verus! {

/// A direction on the hover compass.
#[derive(Clone, Copy, PartialEq, Eq, Debug, Structural)]
pub enum Side {
    Left,
    Right,
    Up,
    Down,
}

/// The split-control buttons of a titlebar.
#[derive(Clone, Copy, PartialEq, Eq, Debug, Structural)]
pub enum BtnKind {
    Minimize,
    Split,
    Close,
}

/// Pointer shapes by name.
#[derive(Clone, Copy, PartialEq, Eq, Debug, Structural)]
pub enum CursorShape {
    Default,
    Text,
    VerticalText,
    Pointer,
    Grab,
    Grabbing,
    Move,
    AllScroll,
    NotAllowed,
    NoDrop,
    NsResize,
    EwResize,
    /// Any other named shape.
    Other,
}

/// A hit-testable rectangle and what it stands for.
#[derive(Debug)]
pub struct Region<T> {
    pub rect: Rect,
    pub item: T,
}

/// One window's taskbar tile with its close badge.
#[derive(Clone, Copy, PartialEq, Eq, Debug, Structural)]
pub struct TaskTile {
    pub rect: Rect,
    pub close: Rect,
    pub win: Win,
    pub leaf: NodeId,
}

/// One quick-launch icon: its own rect, the rect that hovers it, and the
/// square its compass covers while it is up.
#[derive(Clone, Copy, PartialEq, Eq, Debug, Structural)]
pub struct QuickTile {
    pub slot: usize,
    pub icon: Rect,
    pub hover: Rect,
    pub compass: Rect,
}

/// Every hit-testable widget rect of one arrange.
pub struct Widgets {
    pub btn_regions: Vec<Region<(NodeId, BtnKind)>>,
    pub taskbar_regions: Vec<TaskTile>,
    pub taskbar_sep: Option<Rect>,
    pub quick_regions: Vec<QuickTile>,
    pub title_regions: Vec<Region<NodeId>>,
    pub handle_regions: Vec<Region<Boundary>>,
    pub edge_handle_regions: Vec<Region<bool>>,
}

impl Widgets {
    /// The two neighbours of every gap handle add up in range.
    pub open spec fn wf(self) -> bool {
        forall|i: int|
            0 <= i < self.handle_regions@.len() ==> fits_i32(
                (#[trigger] self.handle_regions@[i]).item.first
                    + self.handle_regions@[i].item.second,
            )
    }
}

/// Moving a float by its chrome frame: the pointer's offset into the client
/// rect is pinned for the whole gesture.
#[derive(Clone, Copy, PartialEq, Eq, Debug, Structural)]
pub struct FloatDrag {
    pub win: Win,
    pub dx: i32,
    pub dy: i32,
}

/// Dragging the gap between two stacked rows: it re-splits the pair.
#[derive(Clone, Copy, PartialEq, Eq, Debug, Structural)]
pub struct GapDrag {
    pub col: usize,
    pub idx: usize,
    pub start: i32,
    pub combined: i32,
    pub gap: i32,
}

/// Dragging an outer canvas edge: the far edge of the outermost column
/// stays fixed at `anchor_x` (screen space) for the whole gesture.
#[derive(Clone, Copy, PartialEq, Eq, Debug, Structural)]
pub struct EdgeDrag {
    pub left: bool,
    pub anchor_x: i32,
}

/// Dragging a window frame's left or right border band: only that column
/// resizes, its far edge fixed at `anchor_x`.
#[derive(Clone, Copy, PartialEq, Eq, Debug, Structural)]
pub struct BorderDrag {
    pub leaf: NodeId,
    pub left: bool,
    pub anchor_x: i32,
}

/// Relocating a split, grabbed by its titlebar or its taskbar tile.
#[derive(Clone, Copy, PartialEq, Eq, Debug)]
pub enum MoveDrag {
    /// Pressed but inert until the pointer travels far enough from `press`:
    /// a plain click must stay a click.
    Armed { leaf: NodeId, press: (i32, i32) },
    /// Past the threshold: motion is consumed and release drops the split.
    Active { leaf: NodeId },
}

/// An in-progress drag.
#[derive(Clone, Copy, PartialEq, Eq, Debug)]
pub enum ActiveDrag {
    Gap(GapDrag),
    Edge(EdgeDrag),
    Border(BorderDrag),
    Float(FloatDrag),
    Move(MoveDrag),
}

/// Pointer travel (in px, Chebyshev) before a titlebar or tile press
/// becomes a split-move drag rather than a click.
pub const MOVE_DRAG_THRESHOLD: i32 = 8;

/// What a point on the chrome resolves to.
#[derive(Clone, Copy, PartialEq, Eq, Debug, Structural)]
pub enum Hit {
    Btn(NodeId, BtnKind),
    TaskbarClose(Win),
    TaskbarTile(Win, NodeId),
    /// A quick-launch icon, with the wedge of the compass the press landed
    /// in: every point of the compass names one, so that a launch from the
    /// bar always states where its window opens.
    QuickLaunch(usize, Side),
    Title(NodeId),
    /// The gap between two stacked rows, with the drag it arms and whether
    /// that drag can move anything.
    RowGap(GapDrag, bool),
    Edge(bool),
    /// A window frame's left (`true`) or right border band.
    Border(NodeId, bool),
    LeafBody(NodeId),
    Miss,
}

/// The first region from `k` on that holds the point; the length if none.
pub open spec fn first_hit<T>(s: Seq<Region<T>>, px: int, py: int, k: int) -> int
    decreases s.len() - k,
{
    if k >= s.len() {
        s.len() as int
    } else if s[k].rect.has(px, py) {
        k
    } else {
        first_hit(s, px, py, k + 1)
    }
}

/// The index of the first region that holds the point, or the length.
pub fn region_at<T>(regions: &Vec<Region<T>>, px: i32, py: i32) -> (at: usize)
    ensures
        at == first_hit(regions@, px as int, py as int, 0),
        at <= regions@.len(),
{
    let mut k: usize = 0;
    while k < regions.len()
        invariant
            k <= regions@.len(),
            first_hit(regions@, px as int, py as int, 0) == first_hit(
                regions@,
                px as int,
                py as int,
                k as int,
            ),
        decreases regions@.len() - k,
    {
        if regions[k].rect.contains(px, py) {
            return k;
        }
        k = k + 1;
    }
    k
}

/// The frame of split `leaf`: the first entry for it from `k` on.
pub open spec fn frame_of(frames: Seq<Region<NodeId>>, leaf: NodeId, k: int) -> Option<Rect>
    decreases frames.len() - k,
{
    if k >= frames.len() {
        None
    } else if frames[k].item == leaf {
        Some(frames[k].rect)
    } else {
        frame_of(frames, leaf, k + 1)
    }
}

/// Look a split's frame up.
pub fn frame_rect_of(frames: &Vec<Region<NodeId>>, leaf: NodeId) -> (res: Option<Rect>)
    ensures
        res == frame_of(frames@, leaf, 0),
{
    let mut k: usize = 0;
    while k < frames.len()
        invariant
            k <= frames@.len(),
            frame_of(frames@, leaf, 0) == frame_of(frames@, leaf, k as int),
        decreases frames@.len() - k,
    {
        if frames[k].item == leaf {
            return Some(frames[k].rect);
        }
        k = k + 1;
    }
    None
}

/// Whether the frame of the row at `p` spans screen row `my`.
pub open spec fn row_spans(v: Strip, frames: Seq<Region<NodeId>>, p: Pos, my: int) -> bool {
    match frame_of(frames, v.row(p).id, 0) {
        Some(r) => r.y <= my < r.bottom(),
        None => false,
    }
}

/// The split of column `col`, from row `k` on, whose frame spans `my`; the
/// column's first row when none does.
pub open spec fn column_leaf(
    v: Strip,
    frames: Seq<Region<NodeId>>,
    col: int,
    my: int,
    k: int,
) -> NodeId
    decreases v.columns[col].rows.len() - k,
{
    let rows = v.columns[col].rows;
    if k >= rows.len() {
        rows[0].id
    } else if row_spans(v, frames, Pos { col: col as usize, row: k as usize }, my) {
        rows[k].id
    } else {
        column_leaf(v, frames, col, my, k + 1)
    }
}

/// The split of column `col` at screen-y `my`: which window a press in the
/// gap flanking that column is aiming at. A `my` between two rows falls
/// back to the column's first row, so every point of the gap names a
/// window.
pub fn column_leaf_at(
    layout: &Layout,
    frames: &Vec<Region<NodeId>>,
    col: usize,
    my: i32,
) -> (res: Option<NodeId>)
    requires
        layout@.wf(),
    ensures
        res == (if col < layout@.columns.len() {
            Some(column_leaf(layout@, frames@, col as int, my as int, 0))
        } else {
            None
        }),
{
    let first = match layout.leaf_at(Pos { col, row: 0 }) {
        Some(id) => id,
        None => {
            proof {
                if col < layout@.columns.len() {
                    assert(layout@.columns[col as int].rows.len() > 0);
                }
            }
            return None;
        },
    };
    let n: usize = layout.col_len(col);
    let mut k: usize = 0;
    while k < n
        invariant
            layout@.wf(),
            k <= n,
            col < layout@.columns.len(),
            n == layout@.columns[col as int].rows.len(),
            column_leaf(layout@, frames@, col as int, my as int, 0) == column_leaf(
                layout@,
                frames@,
                col as int,
                my as int,
                k as int,
            ),
        decreases n - k,
    {
        let p = Pos { col, row: k };
        if let Some(leaf) = layout.leaf_at(p) {
            assert(layout@.row(p).id == leaf);
            if let Some(r) = frame_rect_of(frames, leaf) {
                let (y, h, m) = (r.y as i64, r.h as i64, my as i64);
                if y <= m && m < y + h {
                    return Some(leaf);
                }
            }
        }
        k = k + 1;
    }
    Some(first)
}

/// The last of the first `k` tiles that holds the point, badge or body; -1
/// if none.
pub open spec fn top_tile(s: Seq<TaskTile>, px: int, py: int, k: int) -> int
    decreases k,
{
    if k <= 0 {
        -1
    } else if s[k - 1].close.has(px, py) || s[k - 1].rect.has(px, py) {
        k - 1
    } else {
        top_tile(s, px, py, k - 1)
    }
}

/// The first quick-launch tile from `k` on that is hovered; the length if
/// none.
pub open spec fn hovered_quick(s: Seq<QuickTile>, px: int, py: int, k: int) -> int
    decreases s.len() - k,
{
    if k >= s.len() {
        s.len() as int
    } else if s[k].hover.has(px, py) {
        k
    } else {
        hovered_quick(s, px, py, k + 1)
    }
}

/// The first quick-launch tile from `k` on with slot `slot`; the length if
/// none.
pub open spec fn quick_with_slot(s: Seq<QuickTile>, slot: usize, k: int) -> int
    decreases s.len() - k,
{
    if k >= s.len() {
        s.len() as int
    } else if s[k].slot == slot {
        k
    } else {
        quick_with_slot(s, slot, k + 1)
    }
}

/// The compass on screen, if any.
pub open spec fn compass_of(s: Seq<QuickTile>, quick_hover: Option<usize>) -> Option<QuickTile> {
    match quick_hover {
        Some(slot) => {
            let k = quick_with_slot(s, slot, 0);
            if k < s.len() {
                Some(s[k])
            } else {
                None
            }
        },
        None => None,
    }
}

/// The compass to draw and hit-test: the tile of the hovered slot.
pub fn quick_compass(tiles: &Vec<QuickTile>, quick_hover: Option<usize>) -> (res: Option<QuickTile>)
    ensures
        res == compass_of(tiles@, quick_hover),
{
    match quick_hover {
        Some(slot) => {
            let mut k: usize = 0;
            while k < tiles.len()
                invariant
                    k <= tiles@.len(),
                    quick_hover == Some(slot),
                    quick_with_slot(tiles@, slot, 0) == quick_with_slot(tiles@, slot, k as int),
                decreases tiles@.len() - k,
            {
                if tiles[k].slot == slot {
                    return Some(tiles[k]);
                }
                k = k + 1;
            }
            None
        },
        None => None,
    }
}

/// The doubled offset of a pixel's middle from a square's centre, which the
/// compass tells its wedge by. An offset beyond the range of a coordinate
/// stays at its end.
pub open spec fn compass_offset(square: Rect, x: int, y: int) -> (i32, i32) {
    (
        near_i32(2 * x + 1 - (2 * square.x + square.w)) as i32,
        near_i32(2 * y + 1 - (2 * square.y + square.h)) as i32,
    )
}

/// The wedge of a square that a pixel is in: what `compass` tells of its
/// offset from the centre, the same answer a shard of the icon is drawn by.
pub fn compass_zone<F: Fn(i32, i32) -> Side>(square: Rect, mx: i32, my: i32, compass: F) -> (side: Side)
    requires
        forall|dx: i32, dy: i32| call_requires(compass, (dx, dy)),
    ensures
        call_ensures(compass, compass_offset(square, mx as int, my as int), side),
{
    let (x, y, w, h) = (square.x as i64, square.y as i64, square.w as i64, square.h as i64);
    let dx: i32 = narrow_i32(2 * (mx as i64) + 1 - (2 * x + w));
    let dy: i32 = narrow_i32(2 * (my as i64) + 1 - (2 * y + h));
    compass(dx, dy)
}

/// Which wedge of the shown compass the pointer is in; `None` only when no
/// compass is up.
pub fn quick_compass_zone<F: Fn(i32, i32) -> Side>(
    tiles: &Vec<QuickTile>,
    quick_hover: Option<usize>,
    mx: i32,
    my: i32,
    compass: F,
) -> (zone: Option<Side>)
    requires
        forall|dx: i32, dy: i32| call_requires(compass, (dx, dy)),
    ensures
        match compass_of(tiles@, quick_hover) {
            Some(c) => zone is Some && call_ensures(
                compass,
                compass_offset(c.icon, mx as int, my as int),
                zone->0,
            ),
            None => zone is None,
        },
{
    match quick_compass(tiles, quick_hover) {
        Some(c) => Some(compass_zone(c.icon, mx, my, compass)),
        None => None,
    }
}

/// Find the hovered quick-launch tile.
pub fn quick_hovered_at(tiles: &Vec<QuickTile>, mx: i32, my: i32) -> (at: usize)
    ensures
        at == hovered_quick(tiles@, mx as int, my as int, 0),
        at <= tiles@.len(),
{
    let mut k: usize = 0;
    while k < tiles.len()
        invariant
            k <= tiles@.len(),
            hovered_quick(tiles@, mx as int, my as int, 0) == hovered_quick(
                tiles@,
                mx as int,
                my as int,
                k as int,
            ),
        decreases tiles@.len() - k,
    {
        if tiles[k].hover.contains(mx, my) {
            return k;
        }
        k = k + 1;
    }
    k
}

/// The first live split's frame from `k` on that holds the point; the
/// length if none.
pub open spec fn live_frame(
    v: Strip,
    frames: Seq<Region<NodeId>>,
    px: int,
    py: int,
    k: int,
) -> int
    decreases frames.len() - k,
{
    if k >= frames.len() {
        frames.len() as int
    } else if v.live(frames[k].item) && frames[k].rect.has(px, py) {
        k
    } else {
        live_frame(v, frames, px, py, k + 1)
    }
}

/// Find the live split whose frame holds the point.
pub fn live_frame_at(
    layout: &Layout,
    frames: &Vec<Region<NodeId>>,
    mx: i32,
    my: i32,
) -> (at: usize)
    requires
        layout@.wf(),
    ensures
        at == live_frame(layout@, frames@, mx as int, my as int, 0),
        at <= frames@.len(),
        at < frames@.len() ==> layout@.live(frames@[at as int].item),
{
    let mut k: usize = 0;
    while k < frames.len()
        invariant
            layout@.wf(),
            k <= frames@.len(),
            live_frame(layout@, frames@, mx as int, my as int, 0) == live_frame(
                layout@,
                frames@,
                mx as int,
                my as int,
                k as int,
            ),
        decreases frames@.len() - k,
    {
        if layout.is_leaf(frames[k].item) && frames[k].rect.contains(mx, my) {
            return k;
        }
        k = k + 1;
    }
    k
}

/// What a press on the gap handle `h` means: the gap between two columns
/// belongs to the windows either side of it, its left half to the left
/// column's right border, its right half to the right column's left border;
/// the gap between two rows drags itself.
pub open spec fn handle_hit(
    v: Strip,
    frames: Seq<Region<NodeId>>,
    h: Region<Boundary>,
    gap: i32,
    mx: int,
    my: int,
) -> Hit {
    match h.item.at {
        GapAt::Col(idx) => {
            let right = mx >= h.rect.x + half(h.rect.w as int);
            let col = if right {
                idx + 1
            } else {
                idx as int
            };
            if col < v.columns.len() {
                Hit::Border(column_leaf(v, frames, col, my, 0), right)
            } else {
                Hit::Miss
            }
        },
        GapAt::Row { col, idx } => Hit::RowGap(
            GapDrag {
                col,
                idx,
                start: h.item.start,
                combined: (h.item.first + h.item.second) as i32,
                gap,
            },
            h.item.resizable,
        ),
    }
}

/// What a press on a live split's frame means: its side border bands
/// resize the column, anything else is a body click.
pub open spec fn frame_hit(f: Region<NodeId>, th: Theme, mx: int) -> Hit {
    if mx < f.rect.x + th.border_left {
        Hit::Border(f.item, true)
    } else if mx >= f.rect.x + f.rect.w - th.border_right {
        Hit::Border(f.item, false)
    } else {
        Hit::LeafBody(f.item)
    }
}

/// Whether the compass on screen takes the point: its square, or the rect
/// that hovers its icon.
pub open spec fn compass_takes(c: Option<QuickTile>, px: int, py: int) -> bool {
    match c {
        Some(t) => t.compass.has(px, py) || t.hover.has(px, py),
        None => false,
    }
}

/// What the point (`x`, `y`) of the chrome resolves to, in priority order:
/// titlebar buttons, the compass on screen, taskbar tiles (the rightmost on
/// top, each badge before its own body), quick-launch icons, titlebars, gap
/// handles, canvas edges, split frames. `side` is the wedge the point is in
/// where that counts.
pub open spec fn hit_of(
    w: Widgets,
    v: Strip,
    frames: Seq<Region<NodeId>>,
    quick_hover: Option<usize>,
    th: Theme,
    x: int,
    y: int,
    side: Side,
) -> Hit {
    let btn = first_hit(w.btn_regions@, x, y, 0);
    let compass = compass_of(w.quick_regions@, quick_hover);
    let tile = top_tile(w.taskbar_regions@, x, y, w.taskbar_regions@.len() as int);
    let quick = hovered_quick(w.quick_regions@, x, y, 0);
    let title = first_hit(w.title_regions@, x, y, 0);
    let handle = first_hit(w.handle_regions@, x, y, 0);
    let edge = first_hit(w.edge_handle_regions@, x, y, 0);
    let frame = live_frame(v, frames, x, y, 0);
    if btn < w.btn_regions@.len() {
        Hit::Btn(w.btn_regions@[btn].item.0, w.btn_regions@[btn].item.1)
    } else if compass_takes(compass, x, y) {
        Hit::QuickLaunch(compass->0.slot, side)
    } else if tile >= 0 {
        if w.taskbar_regions@[tile].close.has(x, y) {
            Hit::TaskbarClose(w.taskbar_regions@[tile].win)
        } else {
            Hit::TaskbarTile(w.taskbar_regions@[tile].win, w.taskbar_regions@[tile].leaf)
        }
    } else if quick < w.quick_regions@.len() {
        Hit::QuickLaunch(w.quick_regions@[quick].slot, side)
    } else if title < w.title_regions@.len() {
        Hit::Title(w.title_regions@[title].item)
    } else if handle < w.handle_regions@.len() {
        handle_hit(v, frames, w.handle_regions@[handle], th.gap, x, y)
    } else if edge < w.edge_handle_regions@.len() {
        Hit::Edge(w.edge_handle_regions@[edge].item)
    } else if frame < frames.len() {
        frame_hit(frames[frame], th, x)
    } else {
        Hit::Miss
    }
}

/// The square whose wedge a press at (`x`, `y`) picks: the compass on screen,
/// or the icon whose compass has not come up yet. Nothing if the press goes
/// elsewhere.
pub open spec fn square_of(w: Widgets, quick_hover: Option<usize>, x: int, y: int) -> Option<Rect> {
    let compass = compass_of(w.quick_regions@, quick_hover);
    let quick = hovered_quick(w.quick_regions@, x, y, 0);
    if first_hit(w.btn_regions@, x, y, 0) < w.btn_regions@.len() {
        None
    } else if compass_takes(compass, x, y) {
        Some(compass->0.compass)
    } else if top_tile(w.taskbar_regions@, x, y, w.taskbar_regions@.len() as int) >= 0 {
        None
    } else if quick < w.quick_regions@.len() {
        Some(w.quick_regions@[quick].icon)
    } else {
        None
    }
}

/// Whether `side` is what `compass` tells of the point, if it is in a square.
pub open spec fn aimed<F: Fn(i32, i32) -> Side>(
    compass: F,
    square: Option<Rect>,
    x: int,
    y: int,
    side: Side,
) -> bool {
    square is Some ==> call_ensures(compass, compass_offset(square->0, x, y), side)
}

/// Priority-ordered hit-test of everything clickable on the chrome, shared
/// by click dispatch and hover feedback, so the two can never drift apart.
/// A press on a quick-launch icon names the side that `compass` tells of it.
pub fn hit_test<F: Fn(i32, i32) -> Side>(
    w: &Widgets,
    layout: &Layout,
    frames: &Vec<Region<NodeId>>,
    quick_hover: Option<usize>,
    th: &Theme,
    mx: i32,
    my: i32,
    compass: F,
) -> (hit: Hit)
    requires
        layout@.wf(),
        w.wf(),
        forall|dx: i32, dy: i32| call_requires(compass, (dx, dy)),
    ensures
        exists|side: Side| #[trigger]
            aimed(
                compass,
                square_of(*w, quick_hover, mx as int, my as int),
                mx as int,
                my as int,
                side,
            ) && hit == hit_of(
                *w,
                layout@,
                frames@,
                quick_hover,
                *th,
                mx as int,
                my as int,
                side,
            ),
{
    let (hit, square) = hit_and_square(w, layout, frames, quick_hover, th, mx, my);
    let side = match square {
        Some(square) => compass_zone(square, mx, my, compass),
        None => Side::Right,
    };
    proof {
        assert(aimed(
            compass,
            square_of(*w, quick_hover, mx as int, my as int),
            mx as int,
            my as int,
            side,
        ));
    }
    match hit {
        Hit::QuickLaunch(slot, _) => Hit::QuickLaunch(slot, side),
        _ => hit,
    }
}

/// What a point resolves to, its side left open, and the square it is in.
fn hit_and_square(
    w: &Widgets,
    layout: &Layout,
    frames: &Vec<Region<NodeId>>,
    quick_hover: Option<usize>,
    th: &Theme,
    mx: i32,
    my: i32,
) -> (r: (Hit, Option<Rect>))
    requires
        layout@.wf(),
        w.wf(),
    ensures
        r.0 == hit_of(
            *w,
            layout@,
            frames@,
            quick_hover,
            *th,
            mx as int,
            my as int,
            Side::Right,
        ),
        r.1 == square_of(*w, quick_hover, mx as int, my as int),
{
    let btn: usize = region_at(&w.btn_regions, mx, my);
    if btn < w.btn_regions.len() {
        let (leaf, kind) = w.btn_regions[btn].item;
        return (Hit::Btn(leaf, kind), None);
    }
    if let Some(c) = quick_compass(&w.quick_regions, quick_hover) {
        if c.compass.contains(mx, my) || c.hover.contains(mx, my) {
            return (Hit::QuickLaunch(c.slot, Side::Right), Some(c.compass));
        }
    }
    let mut k: usize = w.taskbar_regions.len();
    while k > 0
        invariant
            k <= w.taskbar_regions@.len(),
            top_tile(w.taskbar_regions@, mx as int, my as int, w.taskbar_regions@.len() as int)
                == top_tile(w.taskbar_regions@, mx as int, my as int, k as int),
            first_hit(w.btn_regions@, mx as int, my as int, 0) >= w.btn_regions@.len(),
            !compass_takes(
                compass_of(w.quick_regions@, quick_hover),
                mx as int,
                my as int,
            ),
        decreases k,
    {
        let t = w.taskbar_regions[k - 1];
        if t.close.contains(mx, my) {
            return (Hit::TaskbarClose(t.win), None);
        }
        if t.rect.contains(mx, my) {
            return (Hit::TaskbarTile(t.win, t.leaf), None);
        }
        k = k - 1;
    }
    let quick: usize = quick_hovered_at(&w.quick_regions, mx, my);
    if quick < w.quick_regions.len() {
        let t = w.quick_regions[quick];
        return (Hit::QuickLaunch(t.slot, Side::Right), Some(t.icon));
    }
    let title: usize = region_at(&w.title_regions, mx, my);
    if title < w.title_regions.len() {
        return (Hit::Title(w.title_regions[title].item), None);
    }
    let handle: usize = region_at(&w.handle_regions, mx, my);
    if handle < w.handle_regions.len() {
        let h = &w.handle_regions[handle];
        let (rect, b) = (h.rect, h.item);
        let hit = match b.at {
            GapAt::Col(idx) => {
                let right = mx as i64 >= rect.x as i64 + half_i32(rect.w) as i64;
                if right && idx >= layout.ncols() {
                    Hit::Miss
                } else {
                    let col: usize = if right {
                        idx + 1
                    } else {
                        idx
                    };
                    match column_leaf_at(layout, frames, col, my) {
                        Some(leaf) => Hit::Border(leaf, right),
                        None => Hit::Miss,
                    }
                }
            },
            GapAt::Row { col, idx } => Hit::RowGap(
                GapDrag { col, idx, start: b.start, combined: b.first + b.second, gap: th.gap },
                b.resizable,
            ),
        };
        return (hit, None);
    }
    let edge: usize = region_at(&w.edge_handle_regions, mx, my);
    if edge < w.edge_handle_regions.len() {
        return (Hit::Edge(w.edge_handle_regions[edge].item), None);
    }
    let f: usize = live_frame_at(layout, frames, mx, my);
    if f < frames.len() {
        let (leaf, r) = (frames[f].item, frames[f].rect);
        if (mx as i64) < r.x as i64 + th.border_left as i64 {
            return (Hit::Border(leaf, true), None);
        }
        if mx as i64 >= r.x as i64 + r.w as i64 - th.border_right as i64 {
            return (Hit::Border(leaf, false), None);
        }
        return (Hit::LeafBody(leaf), None);
    }
    (Hit::Miss, None)
}

/// Law: the first region that holds the point is the one hit; with none, the
/// point is past them all.
pub proof fn first_region_wins<T>(s: Seq<Region<T>>, px: int, py: int, k: int)
    requires
        0 <= k <= s.len(),
    ensures
        k <= first_hit(s, px, py, k) <= s.len(),
        forall|j: int| k <= j < first_hit(s, px, py, k) ==> !(#[trigger] s[j]).rect.has(px, py),
        first_hit(s, px, py, k) < s.len() ==> s[first_hit(s, px, py, k)].rect.has(px, py),
    decreases s.len() - k,
{
    if k < s.len() && !s[k].rect.has(px, py) {
        first_region_wins(s, px, py, k + 1);
    }
}

/// Law: of the frames of splits that are still there, the first that holds
/// the point is the one hit.
pub proof fn live_region_wins(v: Strip, s: Seq<Region<NodeId>>, px: int, py: int, k: int)
    requires
        0 <= k <= s.len(),
    ensures
        k <= live_frame(v, s, px, py, k) <= s.len(),
        forall|j: int|
            k <= j < live_frame(v, s, px, py, k) ==> !(#[trigger] s[j]).rect.has(px, py) || !v.live(
                s[j].item,
            ),
        live_frame(v, s, px, py, k) < s.len() ==> s[live_frame(v, s, px, py, k)].rect.has(px, py)
            && v.live(s[live_frame(v, s, px, py, k)].item),
    decreases s.len() - k,
{
    if k < s.len() && !(v.live(s[k].item) && s[k].rect.has(px, py)) {
        live_region_wins(v, s, px, py, k + 1);
    }
}

/// Law: the first quick-launch icon whose hover rect holds the point is the
/// one hovered.
pub proof fn first_quick_wins(s: Seq<QuickTile>, px: int, py: int, k: int)
    requires
        0 <= k <= s.len(),
    ensures
        k <= hovered_quick(s, px, py, k) <= s.len(),
        forall|j: int|
            k <= j < hovered_quick(s, px, py, k) ==> !(#[trigger] s[j]).hover.has(px, py),
        hovered_quick(s, px, py, k) < s.len() ==> s[hovered_quick(s, px, py, k)].hover.has(px, py),
    decreases s.len() - k,
{
    if k < s.len() && !s[k].hover.has(px, py) {
        first_quick_wins(s, px, py, k + 1);
    }
}

/// Law: a slot's icon is the first one with that slot.
pub proof fn first_slot_wins(s: Seq<QuickTile>, slot: usize, k: int)
    requires
        0 <= k <= s.len(),
    ensures
        k <= quick_with_slot(s, slot, k) <= s.len(),
        forall|j: int| k <= j < quick_with_slot(s, slot, k) ==> (#[trigger] s[j]).slot != slot,
        quick_with_slot(s, slot, k) < s.len() ==> s[quick_with_slot(s, slot, k)].slot == slot,
    decreases s.len() - k,
{
    if k < s.len() && s[k].slot != slot {
        first_slot_wins(s, slot, k + 1);
    }
}

/// Law: a split's frame is the first one listed under its identity.
pub proof fn first_frame_wins(s: Seq<Region<NodeId>>, leaf: NodeId, k: int, i: int)
    requires
        0 <= k <= i <= s.len(),
        forall|j: int| k <= j < i ==> (#[trigger] s[j]).item != leaf,
        i < s.len() ==> s[i].item == leaf,
    ensures
        i < s.len() ==> frame_of(s, leaf, k) == Some(s[i].rect),
        i == s.len() ==> frame_of(s, leaf, k) is None,
    decreases i - k,
{
    if k < i {
        first_frame_wins(s, leaf, k + 1, i);
    }
}

/// Law: a split's outer bands are its borders: the leftmost `border_left`
/// columns of a frame are its left border, the rightmost `border_right`
/// ones its right border, and all between them is its body.
pub proof fn a_frames_outer_bands_are_its_borders(f: Region<NodeId>, th: Theme, mx: int, i: int)
    requires
        th.wf(),
        mx == f.rect.x + i,
        0 <= i < f.rect.w,
    ensures
        i < th.border_left ==> frame_hit(f, th, mx) == Hit::Border(f.item, true),
        th.border_left <= i && f.rect.w - i <= th.border_right ==> frame_hit(f, th, mx)
            == Hit::Border(f.item, false),
        th.border_left <= i && f.rect.w - i > th.border_right ==> frame_hit(f, th, mx)
            == Hit::LeafBody(f.item),
{
}

/// Law: a press in a gap between two columns takes the border of the nearer
/// column: its right border in the left half of the gap, its left border in
/// the right half. A press in a gap between two rows takes that gap with
/// what the two rows share.
pub proof fn a_gap_belongs_to_its_nearer_column(
    v: Strip,
    frames: Seq<Region<NodeId>>,
    h: Region<Boundary>,
    gap: i32,
    mx: int,
    my: int,
)
    requires
        0 <= h.rect.w,
        fits_i32(h.item.first + h.item.second),
    ensures
        h.item.at is Col && h.item.at->Col_0 + 1 < v.columns.len() ==> {
            let c = h.item.at->Col_0 as int;
            let hit = handle_hit(v, frames, h, gap, mx, my);
            &&& mx - h.rect.x < h.rect.x + h.rect.w - 1 - mx ==> hit == Hit::Border(
                column_leaf(v, frames, c, my, 0),
                false,
            )
            &&& mx - h.rect.x >= h.rect.x + h.rect.w - 1 - mx ==> hit == Hit::Border(
                column_leaf(v, frames, c + 1, my, 0),
                true,
            )
        },
        h.item.at is Row ==> {
            let hit = handle_hit(v, frames, h, gap, mx, my);
            &&& hit is RowGap
            &&& hit->RowGap_1 == h.item.resizable
            &&& hit->RowGap_0.start == h.item.start
            &&& hit->RowGap_0.combined == h.item.first + h.item.second
            &&& hit->RowGap_0.gap == gap
            &&& hit->RowGap_0.col == h.item.at->col
            &&& hit->RowGap_0.idx == h.item.at->idx
        },
{
}

/// Law: a border is taken by the row of its column at the pointer's height,
/// and by the top row where no row's frame is at that height.
pub proof fn a_border_belongs_to_the_row_beside_it(
    v: Strip,
    frames: Seq<Region<NodeId>>,
    col: int,
    my: int,
    i: int,
)
    requires
        v.wf(),
        0 <= col < v.columns.len() <= usize::MAX,
        v.columns[col].rows.len() <= usize::MAX,
        0 <= i <= v.columns[col].rows.len(),
        forall|j: int|
            0 <= j < i ==> {
                let f = frame_of(frames, (#[trigger] v.columns[col].rows[j]).id, 0);
                f is Some ==> my < f->0.y || f->0.y + f->0.h <= my
            },
        i < v.columns[col].rows.len() ==> {
            let f = frame_of(frames, v.columns[col].rows[i].id, 0);
            f is Some && f->0.y <= my < f->0.y + f->0.h
        },
    ensures
        i < v.columns[col].rows.len() ==> column_leaf(v, frames, col, my, 0)
            == v.columns[col].rows[i].id,
        i == v.columns[col].rows.len() ==> column_leaf(v, frames, col, my, 0)
            == v.columns[col].rows[0].id,
{
    lemma_no_row_before(v, frames, col, my, 0, i);
}

proof fn lemma_no_row_before(
    v: Strip,
    frames: Seq<Region<NodeId>>,
    col: int,
    my: int,
    k: int,
    i: int,
)
    requires
        0 <= col < v.columns.len() <= usize::MAX,
        v.columns[col].rows.len() <= usize::MAX,
        0 <= k <= i <= v.columns[col].rows.len(),
        forall|j: int|
            k <= j < i ==> {
                let f = frame_of(frames, (#[trigger] v.columns[col].rows[j]).id, 0);
                f is Some ==> my < f->0.y || f->0.y + f->0.h <= my
            },
        i < v.columns[col].rows.len() ==> {
            let f = frame_of(frames, v.columns[col].rows[i].id, 0);
            f is Some && f->0.y <= my < f->0.y + f->0.h
        },
    ensures
        i < v.columns[col].rows.len() ==> column_leaf(v, frames, col, my, k)
            == v.columns[col].rows[i].id,
        i == v.columns[col].rows.len() ==> column_leaf(v, frames, col, my, k)
            == v.columns[col].rows[0].id,
    decreases i - k,
{
    if k < i {
        assert(!row_spans(v, frames, Pos { col: col as usize, row: k as usize }, my)) by {
            let _ = v.columns[col].rows[k];
        }
        lemma_no_row_before(v, frames, col, my, k + 1, i);
    } else if i < v.columns[col].rows.len() {
        assert(row_spans(v, frames, Pos { col: col as usize, row: i as usize }, my));
    }
}

/// Law: of the taskbar tiles that overlap at a point, the press goes to
/// the one painted last.
pub proof fn topmost_tile_wins(s: Seq<TaskTile>, px: int, py: int, n: int)
    requires
        0 <= n <= s.len(),
    ensures
        -1 <= top_tile(s, px, py, n) < n,
        forall|j: int|
            top_tile(s, px, py, n) < j < n ==> !(#[trigger] s[j]).close.has(px, py)
                && !s[j].rect.has(px, py),
        top_tile(s, px, py, n) >= 0 ==> s[top_tile(s, px, py, n)].close.has(px, py)
            || s[top_tile(s, px, py, n)].rect.has(px, py),
    decreases n,
{
    if n > 0 {
        topmost_tile_wins(s, px, py, n - 1);
    }
}

/// The pointer shape a hit advertises: resize arrows over gaps and edges
/// that can move, the hand over clickable things, the arrow otherwise.
pub open spec fn cursor_for(v: Strip, hit: Hit) -> CursorShape {
    match hit {
        Hit::Btn(_, _) => CursorShape::Pointer,
        Hit::TaskbarClose(_) => CursorShape::Pointer,
        Hit::TaskbarTile(_, _) => CursorShape::Pointer,
        Hit::QuickLaunch(_, _) => CursorShape::Pointer,
        Hit::Title(_) => CursorShape::Pointer,
        Hit::RowGap(_, resizable) => if resizable {
            CursorShape::NsResize
        } else {
            CursorShape::Default
        },
        Hit::Edge(_) => CursorShape::EwResize,
        Hit::Border(leaf, _) => if v.live(leaf) && !v.pinned(v.pos_of(leaf).col as int) {
            CursorShape::EwResize
        } else {
            CursorShape::Default
        },
        Hit::LeafBody(_) => CursorShape::Default,
        Hit::Miss => CursorShape::Default,
    }
}

/// Pick the pointer shape for a hover position on the chrome from the same
/// hit that a click would get; a float's frame takes the press outright and
/// advertises the hand.
pub fn hover_cursor(layout: &Layout, over_float_frame: bool, hit: Hit) -> (shape: CursorShape)
    requires
        layout@.wf(),
    ensures
        shape == (if over_float_frame {
            CursorShape::Pointer
        } else {
            cursor_for(layout@, hit)
        }),
{
    if over_float_frame {
        return CursorShape::Pointer;
    }
    match hit {
        Hit::Btn(_, _) => CursorShape::Pointer,
        Hit::TaskbarClose(_) => CursorShape::Pointer,
        Hit::TaskbarTile(_, _) => CursorShape::Pointer,
        Hit::QuickLaunch(_, _) => CursorShape::Pointer,
        Hit::Title(_) => CursorShape::Pointer,
        Hit::RowGap(_, resizable) => if resizable {
            CursorShape::NsResize
        } else {
            CursorShape::Default
        },
        Hit::Edge(_) => CursorShape::EwResize,
        Hit::Border(leaf, _) => {
            match layout.locate(leaf) {
                Some(p) => {
                    proof {
                        assert(layout@.sits(leaf, p));
                    }
                    if !layout.col_pinned(p.col) {
                        CursorShape::EwResize
                    } else {
                        CursorShape::Default
                    }
                },
                None => CursorShape::Default,
            }
        },
        Hit::LeafBody(_) => CursorShape::Default,
        Hit::Miss => CursorShape::Default,
    }
}

} // verus!
