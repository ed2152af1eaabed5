//! What pointer and key handling promises for every input.

use super::{
    axis_of, band_hit, bar_drop, border_grab, button_of, chrome_drag_of, chrome_press_of,
    drag_after, drag_moved, drag_step, drop_of, dropped, edge_grab, float_hit, held_then,
    hover_target_of, key_step, quick_hover_of, shape_of, tile_right_of, ButtonStep, DragStep,
    FloatFrame, HoverSurface, Interaction, MoveDrop, Press, Under, BTN_LEFT,
};
use crate::geom::Rect;
use crate::layout::geometry::GapAt;
use crate::layout::{NodeId, Strip};
use crate::pointer::{
    first_region_wins, first_quick_wins, live_region_wins, ActiveDrag, GapDrag, Hit, MoveDrag,
    QuickTile, Region, TaskTile, Widgets,
};
use crate::Win;
use vstd::prelude::*;

verus! {

// --- dropping a dragged split ---

/// Law: a drop on a split's frame, off the gaps and above the taskbar, puts
/// the dragged split on the side of that split whose edge is nearer; from
/// the very middle it goes to the right.
pub proof fn a_drop_goes_to_the_nearer_side(
    w: Widgets,
    v: Strip,
    placed: Seq<Region<NodeId>>,
    output_h: int,
    taskbar_h: int,
    margin: Option<MoveDrop>,
    mx: int,
    my: int,
    i: int,
)
    requires
        forall|j: int|
            0 <= j < w.handle_regions@.len() ==> !(#[trigger] w.handle_regions@[j]).rect.has(mx, my),
        my < output_h - taskbar_h,
        0 <= i < placed.len(),
        placed[i].rect.has(mx, my),
        forall|j: int| 0 <= j < i ==> !(#[trigger] placed[j]).rect.has(mx, my),
    ensures
        ({
            let r = placed[i].rect;
            let drop = drop_of(w, v, placed, output_h, taskbar_h, margin, mx, my);
            &&& mx - r.x < r.x + r.w - 1 - mx ==> drop == Some(
                MoveDrop::Column(placed[i].item, true),
            )
            &&& mx - r.x >= r.x + r.w - 1 - mx ==> drop == Some(
                MoveDrop::Column(placed[i].item, false),
            )
        }),
{
    first_region_wins(w.handle_regions@, mx, my, 0);
    first_region_wins(placed, mx, my, 0);
}

/// Law: a drop on a gap goes into that gap: into a new column between the two
/// columns of a column gap, directly below the upper split of a row gap.
pub proof fn a_drop_on_a_gap_goes_into_it(
    w: Widgets,
    v: Strip,
    placed: Seq<Region<NodeId>>,
    output_h: int,
    taskbar_h: int,
    margin: Option<MoveDrop>,
    mx: int,
    my: int,
    i: int,
)
    requires
        0 <= i < w.handle_regions@.len(),
        w.handle_regions@[i].rect.has(mx, my),
        forall|j: int| 0 <= j < i ==> !(#[trigger] w.handle_regions@[j]).rect.has(mx, my),
    ensures
        ({
            let drop = drop_of(w, v, placed, output_h, taskbar_h, margin, mx, my);
            match w.handle_regions@[i].item.at {
                GapAt::Col(c) => c < usize::MAX ==> drop is Some && drop->0 is ColumnAt
                    && drop->0->ColumnAt_0 == c + 1,
                GapAt::Row { col, idx } => {
                    &&& col < v.columns.len() && idx < v.columns[col as int].rows.len() ==> drop
                        == Some(MoveDrop::Stack(v.columns[col as int].rows[idx as int].id, false))
                    &&& col >= v.columns.len() ==> drop is None
                },
            }
        }),
{
    first_region_wins(w.handle_regions@, mx, my, 0);
}

proof fn lemma_tile_right_of(tiles: Seq<TaskTile>, mx: int, k: int, i: int)
    requires
        0 <= k <= i <= tiles.len(),
        forall|j: int|
            k <= j < i ==> 2 * mx + 1 >= 2 * (#[trigger] tiles[j]).rect.x + tiles[j].rect.w,
        forall|j: int| 0 <= j < tiles.len() ==> 0 <= (#[trigger] tiles[j]).rect.w,
        i < tiles.len() ==> 2 * mx + 1 < 2 * tiles[i].rect.x + tiles[i].rect.w,
    ensures
        tile_right_of(tiles, mx, k) == i,
    decreases i - k,
{
    if k < i {
        lemma_tile_right_of(tiles, mx, k + 1, i);
    }
}

/// Law: a drop on the taskbar goes before the first tile whose middle lies
/// right of the pointer, after the last tile where there is none, and
/// nowhere past the separator or with no tile on the bar.
pub proof fn a_drop_on_the_bar_goes_between_tile_middles(
    tiles: Seq<TaskTile>,
    sep: Option<Rect>,
    mx: int,
    i: int,
)
    requires
        0 <= i <= tiles.len(),
        mx < i32::MAX,
        forall|j: int| 0 <= j < tiles.len() ==> 0 <= (#[trigger] tiles[j]).rect.w,
        forall|j: int|
            0 <= j < i ==> 2 * mx + 1 >= 2 * (#[trigger] tiles[j]).rect.x + tiles[j].rect.w,
        i < tiles.len() ==> 2 * mx + 1 < 2 * tiles[i].rect.x + tiles[i].rect.w,
    ensures
        sep is Some && mx >= sep->0.x ==> bar_drop(tiles, sep, mx) is None,
        sep is None || mx < sep->0.x ==> {
            &&& i < tiles.len() ==> bar_drop(tiles, sep, mx) == Some(
                MoveDrop::Column(tiles[i].leaf, true),
            )
            &&& i == tiles.len() && i > 0 ==> bar_drop(tiles, sep, mx) == Some(
                MoveDrop::Column(tiles.last().leaf, false),
            )
            &&& tiles.len() == 0 ==> bar_drop(tiles, sep, mx) is None
        },
{
    lemma_tile_right_of(tiles, mx, 0, i);
}

/// Law: off the gaps, the taskbar takes every drop on it, and bare wallpaper
/// takes what the margins mean.
pub proof fn the_bar_and_the_wallpaper_take_their_drops(
    w: Widgets,
    v: Strip,
    placed: Seq<Region<NodeId>>,
    output_h: int,
    taskbar_h: int,
    margin: Option<MoveDrop>,
    mx: int,
    my: int,
)
    requires
        forall|j: int|
            0 <= j < w.handle_regions@.len() ==> !(#[trigger] w.handle_regions@[j]).rect.has(mx, my),
    ensures
        my >= output_h - taskbar_h ==> drop_of(
            w,
            v,
            placed,
            output_h,
            taskbar_h,
            margin,
            mx,
            my,
        ) == bar_drop(w.taskbar_regions@, w.taskbar_sep, mx),
        my < output_h - taskbar_h && (forall|j: int|
            0 <= j < placed.len() ==> !(#[trigger] placed[j]).rect.has(mx, my)) ==> drop_of(
            w,
            v,
            placed,
            output_h,
            taskbar_h,
            margin,
            mx,
            my,
        ) == margin,
{
    first_region_wins(w.handle_regions@, mx, my, 0);
    first_region_wins(placed, mx, my, 0);
}

// --- drags ---

/// Law: a border drag asks for the distance from the column's far edge to the
/// pointer. Grabbing a border of a column that spans `geo` and moving the
/// pointer `d` pixels outwards from that border asks for `geo.w + d`; at the
/// border itself (`d` of 0) it asks for the width the column has.
pub proof fn a_border_drag_follows_the_pointer(
    leaf: NodeId,
    left: bool,
    geo: Rect,
    scroll_x: int,
    d: int,
    my: int,
)
    requires
        i32::MIN <= geo.x - scroll_x <= i32::MAX,
        i32::MIN <= geo.x + geo.w - scroll_x <= i32::MAX,
        i32::MIN <= geo.w + d <= i32::MAX,
    ensures
        left ==> drag_step(border_grab(leaf, left, geo, scroll_x), geo.x - scroll_x - d, my)
            == DragStep::ResizeBorder(leaf, true, (geo.w + d) as i32),
        !left ==> drag_step(
            border_grab(leaf, left, geo, scroll_x),
            geo.x + geo.w - scroll_x + d,
            my,
        ) == DragStep::ResizeBorder(leaf, false, (geo.w + d) as i32),
{
}

/// Law: an edge drag asks for the distance from the far end to the pointer:
/// moving the pointer `d` pixels outwards from the edge asks for `w + d`.
pub proof fn an_edge_drag_follows_the_pointer(
    left: bool,
    start_x: int,
    w: int,
    scroll_x: int,
    d: int,
    my: int,
)
    requires
        i32::MIN <= start_x - scroll_x <= i32::MAX,
        i32::MIN <= start_x + w - scroll_x <= i32::MAX,
        i32::MIN <= w + d <= i32::MAX,
    ensures
        left ==> drag_step(edge_grab(left, start_x, w, scroll_x), start_x - scroll_x - d, my)
            == DragStep::ResizeEdge(true, (w + d) as i32),
        !left ==> drag_step(edge_grab(left, start_x, w, scroll_x), start_x + w - scroll_x + d, my)
            == DragStep::ResizeEdge(false, (w + d) as i32),
{
}

/// Law: a float grabbed by its frame moves with the pointer: once the pointer
/// has moved by (`dx`, `dy`) since the press, the topmost float there has
/// moved by just that much.
pub proof fn a_grabbed_float_moves_with_the_pointer(
    was: Option<ActiveDrag>,
    floats: Seq<FloatFrame>,
    hit: Hit,
    mx: i32,
    my: i32,
    dx: int,
    dy: int,
    i: int,
)
    requires
        0 <= i < floats.len(),
        floats[i].frame.has(mx as int, my as int),
        forall|j: int| 0 <= j < i ==> !(#[trigger] floats[j]).frame.has(mx as int, my as int),
        i32::MIN <= mx - floats[i].client.x <= i32::MAX,
        i32::MIN <= my - floats[i].client.y <= i32::MAX,
        i32::MIN <= floats[i].client.x + dx <= i32::MAX,
        i32::MIN <= floats[i].client.y + dy <= i32::MAX,
    ensures
        drag_step(chrome_drag_of(was, floats, hit, mx, my, false), mx + dx, my + dy)
            == DragStep::MoveFloat(
            floats[i].win,
            (floats[i].client.x + dx) as i32,
            (floats[i].client.y + dy) as i32,
        ),
        chrome_press_of(floats, true, hit, mx, my, false).press == Press::RaiseFloat(floats[i].win),
        chrome_press_of(floats, true, hit, mx, my, false).consumed,
{
    lemma_float_hit(floats, mx as int, my as int, 0, i);
}

proof fn lemma_float_hit(floats: Seq<FloatFrame>, px: int, py: int, k: int, i: int)
    requires
        0 <= k <= i <= floats.len(),
        forall|j: int| k <= j < i ==> !(#[trigger] floats[j]).frame.has(px, py),
        i < floats.len() ==> floats[i].frame.has(px, py),
    ensures
        float_hit(floats, px, py, k) == i,
    decreases i - k,
{
    if k < i {
        lemma_float_hit(floats, px, py, k + 1, i);
    }
}

proof fn lemma_band_hit(floats: Seq<FloatFrame>, px: int, py: int, k: int)
    requires
        0 <= k <= floats.len(),
        forall|j: int|
            k <= j < floats.len() ==> !(#[trigger] floats[j]).frame.has(px, py)
                || floats[j].client.has(px, py),
    ensures
        band_hit(floats, px, py, k) == floats.len(),
    decreases floats.len() - k,
{
    if k < floats.len() {
        lemma_band_hit(floats, px, py, k + 1);
    }
}

/// Law: a row gap grabbed is dragged by its middle: with the pointer in the
/// middle of the gap below a row of height `first`, that row is asked to be
/// `first` high, and `d` pixels lower it is asked to be `first + d`. A gap
/// that cannot move is not grabbed.
pub proof fn a_row_gap_drag_follows_the_pointer(
    was: Option<ActiveDrag>,
    g: GapDrag,
    mx: i32,
    my: i32,
    first: int,
    d: int,
)
    requires
        0 <= g.gap,
        0 < g.combined,
        i32::MIN <= first + d <= i32::MAX,
    ensures
        drag_step(
            drag_after(was, Hit::RowGap(g, true), mx, my),
            mx as int,
            g.start + first + g.gap / 2 + d,
        ) == DragStep::ResizeRows(g.col, g.idx, (first + d) as i32, g.combined),
        drag_after(was, Hit::RowGap(g, false), mx, my) == was,
{
}

/// Law: a press on a titlebar or a tile becomes a move of the split only once
/// the pointer has gone eight pixels along either axis: until then motion
/// goes to the clients and a release moves nothing, from then on motion is
/// held back and the release drops the split.
pub proof fn a_press_becomes_a_move_after_eight_pixels(
    was: Option<ActiveDrag>,
    v: Strip,
    leaf: NodeId,
    win: Win,
    mx: i32,
    my: i32,
    x: int,
    y: int,
)
    ensures
        ({
            let armed = drag_after(was, Hit::Title(leaf), mx, my);
            let near = mx - 8 < x < mx + 8 && my - 8 < y < my + 8;
            let then = drag_moved(armed, x, y);
            &&& drag_after(was, Hit::TaskbarTile(win, leaf), mx, my) == armed
            &&& near ==> drag_step(armed, x, y) is Free && dropped(then, v) is None && then == armed
            &&& !near ==> drag_step(armed, x, y) is Hold
            &&& !near && v.live(leaf) ==> dropped(then, v) == Some(leaf)
            &&& !v.live(leaf) ==> dropped(then, v) is None
            &&& !near ==> drag_step(then, x, y) is Hold && drag_moved(then, mx as int, my as int)
                == then
        }),
{
}

/// Law: only a split move drops a split: letting go of a border, an edge, a
/// gap or a float moves none.
pub proof fn only_a_split_move_drops(drag: Option<ActiveDrag>, v: Strip)
    requires
        dropped(drag, v) is Some,
    ensures
        drag is Some,
        drag->0 is Move,
        v.live(dropped(drag, v)->0),
{
}

/// Law: while a drag is in flight the pointer shows what it drags, wherever
/// it strays: up and down for a row gap, left and right for a border or an
/// edge, a closed hand for a split.
pub proof fn the_pointer_shows_the_drag(
    drag: ActiveDrag,
    v: Strip,
    over_float_frame: bool,
    hit: Hit,
)
    ensures
        ({
            let shape = shape_of(Some(drag), v, over_float_frame, hit);
            match drag {
                ActiveDrag::Gap(_) => shape is NsResize,
                ActiveDrag::Edge(_) => shape is EwResize,
                ActiveDrag::Border(_) => shape is EwResize,
                ActiveDrag::Float(_) => shape is Pointer,
                ActiveDrag::Move(MoveDrag::Active { .. }) => shape is Grabbing,
                ActiveDrag::Move(MoveDrag::Armed { .. }) => shape == shape_of(
                    None,
                    v,
                    over_float_frame,
                    hit,
                ),
            }
        }),
{
}

// --- hovering ---

/// Law: the keyboard follows the pointer. A fullscreen window has it
/// wherever the pointer is; a float's frame, a managed window that is not
/// tiled and a layer surface take it from every tiled window; over an
/// override-redirect window it stays where it was.
pub proof fn covering_surfaces_decide_the_hover(
    v: Strip,
    frames: Seq<Region<NodeId>>,
    over_float_frame: bool,
    under: HoverSurface,
    hover_win: Option<Win>,
    focused_frame: Option<Rect>,
    focused_client: Option<Win>,
    mx: int,
    my: int,
    full: Win,
)
    ensures
        hover_target_of(
            v,
            frames,
            Some(full),
            over_float_frame,
            under,
            hover_win,
            focused_frame,
            focused_client,
            mx,
            my,
        ) == Some(full),
        over_float_frame || under is Managed || under is Other ==> hover_target_of(
            v,
            frames,
            None,
            over_float_frame,
            under,
            hover_win,
            focused_frame,
            focused_client,
            mx,
            my,
        ) is None,
        !over_float_frame && under is OverrideRedirect ==> hover_target_of(
            v,
            frames,
            None,
            over_float_frame,
            under,
            hover_win,
            focused_frame,
            focused_client,
            mx,
            my,
        ) == hover_win,
{
}

/// Law: with nothing covering the strip at the pointer, the focused window
/// keeps the keyboard within its frame's horizontal span, whatever tiled
/// window the pointer is over there; outside that span the tiled window
/// under the pointer gets it, over a frame's own chrome the window of that
/// frame unless it is minimized, and over bare wallpaper none.
pub proof fn hovering_goes_by_the_focused_span(
    v: Strip,
    frames: Seq<Region<NodeId>>,
    under: HoverSurface,
    hover_win: Option<Win>,
    frame: Rect,
    client: Win,
    mx: int,
    my: int,
)
    requires
        under is Tiled || under is Nothing,
    ensures
        ({
            let within = frame.x <= mx < frame.x + frame.w;
            let to = |f: Option<Rect>, c: Option<Win>|
                hover_target_of(v, frames, None, false, under, hover_win, f, c, mx, my);
            let free = to(None, None);
            &&& within ==> to(Some(frame), Some(client)) == Some(client)
            &&& !within ==> to(Some(frame), Some(client)) == free
            &&& to(None, Some(client)) == free
            &&& to(Some(frame), None) == free
            &&& under is Tiled ==> free == Some(under->Tiled_0)
            &&& under is Nothing && (forall|j: int|
                0 <= j < frames.len() ==> !(#[trigger] frames[j]).rect.has(mx, my)) ==> free is None
            &&& under is Nothing ==> forall|i: int|
                0 <= i < frames.len() && v.live((#[trigger] frames[i]).item) && frames[i].rect.has(
                    mx,
                    my,
                ) && (forall|j: int| 0 <= j < i ==> !(#[trigger] frames[j]).rect.has(mx, my))
                    ==> free == (if v.leaf_of(frames[i].item).minimized {
                    None
                } else {
                    v.leaf_of(frames[i].item).client
                })
        }),
{
    live_region_wins(v, frames, mx, my, 0);
}

// --- buttons, keys and scrolling ---

/// Law: a press over a window reaches that window; the left button also
/// focuses it, no other button does. A bubble takes the press for itself,
/// and a grab passes it on untouched.
pub proof fn a_press_reaches_the_window_under_it(
    was: Interaction,
    v: Strip,
    button: u32,
    under: Under,
    floats: Seq<FloatFrame>,
    animating: bool,
    hit: Hit,
    mx: i32,
    my: i32,
    win: Win,
)
    requires
        under == Under::Tiled(win) || under == Under::Float(win) || under == Under::Dock(win),
    ensures
        ({
            let grabbed = button_of(
                was,
                v,
                button,
                true,
                true,
                false,
                under,
                floats,
                animating,
                hit,
                mx,
                my,
            );
            grabbed.forward && grabbed.step is Nothing
        }),
        ({
            let noted = button_of(
                was,
                v,
                button,
                true,
                false,
                true,
                under,
                floats,
                animating,
                hit,
                mx,
                my,
            );
            !noted.forward && noted.step is DismissNote
        }),
        (forall|j: int|
            0 <= j < floats.len() ==> !(#[trigger] floats[j]).frame.has(mx as int, my as int)
                || floats[j].client.has(mx as int, my as int)) ==> {
            let free = button_of(
                was,
                v,
                button,
                true,
                false,
                false,
                under,
                floats,
                animating,
                hit,
                mx,
                my,
            );
            &&& free.forward
            &&& button != BTN_LEFT ==> free.step is Nothing
            &&& button == BTN_LEFT && under is Tiled ==> free.step == ButtonStep::FocusTiled(win)
            &&& button == BTN_LEFT && under is Float ==> free.step == ButtonStep::FocusFloat(win)
            &&& button == BTN_LEFT && under is Dock ==> free.step == ButtonStep::FocusDock(win)
        },
{
    if forall|j: int|
        0 <= j < floats.len() ==> !(#[trigger] floats[j]).frame.has(mx as int, my as int)
            || floats[j].client.has(mx as int, my as int) {
        lemma_band_hit(floats, mx as int, my as int, 0);
    }
}

/// Law: a press on the chrome that hit something is not passed on; the right
/// button does nothing there, and the left one does what was hit: a button
/// its action, a badge closes its window, a tile shows its window, a
/// titlebar or a body focuses its split, an edge or a border is grabbed.
pub proof fn a_chrome_press_does_what_it_hit(
    floats: Seq<FloatFrame>,
    animating: bool,
    hit: Hit,
    mx: i32,
    my: i32,
)
    requires
        forall|j: int|
            0 <= j < floats.len() ==> !(#[trigger] floats[j]).frame.has(mx as int, my as int),
    ensures
        ({
            let primary = chrome_press_of(floats, animating, hit, mx, my, false);
            let secondary = chrome_press_of(floats, animating, hit, mx, my, true);
            &&& secondary.press is Nothing && secondary.consumed && !secondary.reclaim
            &&& primary.settle == animating
            &&& primary.consumed == !(hit is Miss)
            &&& primary.reclaim == (hit is TaskbarTile || hit is Title || hit is LeafBody)
            &&& match hit {
                Hit::Btn(leaf, kind) => primary.press == Press::Button(leaf, kind),
                Hit::TaskbarClose(win) => primary.press == Press::CloseWindow(win),
                Hit::TaskbarTile(win, leaf) => primary.press == Press::ShowWindow(win, leaf),
                Hit::QuickLaunch(slot, side) => primary.press == Press::Launch(slot, side),
                Hit::Title(leaf) => primary.press == Press::Focus(leaf),
                Hit::LeafBody(leaf) => primary.press == Press::Focus(leaf),
                Hit::Edge(left) => primary.press == Press::GrabEdge(left),
                Hit::Border(leaf, left) => primary.press == Press::GrabBorder(leaf, left),
                Hit::RowGap(_, _) => primary.press is Nothing,
                Hit::Miss => primary.press is Nothing,
            }
        }),
{
    lemma_float_hit(floats, mx as int, my as int, 0, floats.len() as int);
}

/// Law: a chord fires once. Its press fires, every repeat and its release are
/// swallowed, and after the release the key is the clients' again; a key
/// that no chord owns goes to them all along. Events of one key leave every
/// other key as it was.
pub proof fn a_chord_fires_once(held: Set<u32>, raw: u32, other: u32, bound: bool, again: bool)
    requires
        !held.contains(raw),
        other != raw,
    ensures
        ({
            let down = held_then(held, raw, true, bound);
            let held_on = held_then(down, raw, true, again);
            let up = held_then(held_on, raw, false, false);
            &&& bound ==> key_step(held, raw, true, bound) is Fire
            &&& bound ==> key_step(down, raw, true, again) is Swallow
            &&& bound ==> key_step(held_on, raw, false, false) is Swallow
            &&& !bound ==> key_step(held, raw, true, bound) is Forward
            &&& !bound ==> key_step(down, raw, false, again) is Forward
            &&& !up.contains(raw)
            &&& key_step(up, raw, false, false) is Forward
            &&& down.contains(other) == held.contains(other)
            &&& up.contains(other) == held.contains(other)
        }),
{
}

/// Law: a horizontal amount is used once: it pans the canvas, or it goes to
/// the client, and the logo key takes it from any client. A vertical amount
/// always goes to the client. Only a finger that reports a stop stops.
pub proof fn a_scroll_is_delivered_once(
    horizontal: bool,
    vertical: bool,
    finger: bool,
    horizontal_zero: bool,
    vertical_zero: bool,
    over_client: bool,
    logo: bool,
)
    ensures
        ({
            let p = axis_of(
                horizontal,
                vertical,
                finger,
                horizontal_zero,
                vertical_zero,
                over_client,
                logo,
            );
            &&& !(p.pan && p.horizontal)
            &&& horizontal <==> p.pan || p.horizontal
            &&& p.vertical == vertical
            &&& logo || !over_client ==> !p.horizontal
            &&& over_client && !logo ==> !p.pan
            &&& p.stop_horizontal ==> finger && horizontal_zero
            &&& p.stop_vertical ==> finger && vertical_zero
            &&& finger && horizontal_zero ==> p.stop_horizontal
            &&& finger && vertical_zero ==> p.stop_vertical
        }),
{
}

/// Law: the compass is up for the icon the pointer entered; it stays up while
/// the pointer is on it, and is gone anywhere else.
pub proof fn the_compass_follows_the_pointer(
    tiles: Seq<QuickTile>,
    was: Option<usize>,
    mx: int,
    my: int,
    i: int,
)
    requires
        0 <= i <= tiles.len(),
        forall|j: int| 0 <= j < i ==> !(#[trigger] tiles[j]).hover.has(mx, my),
        i < tiles.len() ==> tiles[i].hover.has(mx, my),
    ensures
        i < tiles.len() ==> quick_hover_of(tiles, was, mx, my) == Some(tiles[i].slot),
        i == tiles.len() && was is None ==> quick_hover_of(tiles, was, mx, my) is None,
        i == tiles.len() && quick_hover_of(tiles, was, mx, my) is Some ==> quick_hover_of(
            tiles,
            was,
            mx,
            my,
        ) == was && exists|j: int|
            0 <= j < tiles.len() && (#[trigger] tiles[j]).compass.has(mx, my) && Some(tiles[j].slot)
                == was,
        i == tiles.len() && was is Some ==> forall|k: int|
            0 <= k < tiles.len() && (#[trigger] tiles[k]).slot == was->0 && tiles[k].compass.has(
                mx,
                my,
            ) && (forall|j: int| 0 <= j < k ==> (#[trigger] tiles[j]).slot != was->0)
                ==> quick_hover_of(tiles, was, mx, my) == was,
{
    first_quick_wins(tiles, mx, my, 0);
    if was is Some {
        crate::pointer::first_slot_wins(tiles, was->0, 0);
    }
}

/// Law: with nothing dragged the pointer is a hand over a float's frame,
/// whatever lies below; beside it, it shows what the press would do: arrows
/// where rows or columns can be resized, a hand on what can be pressed.
pub proof fn the_pointer_shows_what_a_press_would_do(v: Strip, hit: Hit, drag: GapDrag, leaf: NodeId)
    ensures
        shape_of(None, v, true, hit) is Pointer,
        shape_of(None, v, false, Hit::RowGap(drag, true)) is NsResize,
        shape_of(None, v, false, Hit::RowGap(drag, false)) is Default,
        shape_of(None, v, false, Hit::Title(leaf)) is Pointer,
        shape_of(None, v, false, Hit::LeafBody(leaf)) is Default,
        shape_of(None, v, false, Hit::Miss) is Default,
{
}

} // verus!
