//! The layout with its focus and its viewport: which split has the focus,
//! where new windows go, and how far the canvas is scrolled.

use crate::arrange::{bar_to, Placement};
use crate::geom::{fits_i32, imax, imin, max_i32, min_i32, Rect};
use crate::input::{beside_of, close_of, close_split, drop_changes, drop_split, dropped_strip, CloseOutcome};
use crate::interaction::MoveDrop;
use crate::layout::geometry::{lemma_col_x_bounds, lemma_px_to};
use crate::layout::laws::{
    addressable, fresh_ids_are_new, moving_beside_keeps_splits, moving_into_a_stack_keeps_splits,
    strip_order_lists_every_split_once,
};
use crate::layout::{
    average_share, lemma_column_opened, lemma_pos, lemma_removed, lemma_row_opened,
    lemma_row_updated, lemma_share_le_total, lemma_shares_update, row_opened, share_total, small,
    with_frac, ColWidth, Layout, Leaf, NodeId, Pos, Row, Strip, StripColumn,
};
use crate::manage::lemma_inserted;
use crate::pointer::Side;
use crate::shell::{Kind, Store};
use crate::sizes::SHARE_ONE;
use crate::{Index, Win};
use vstd::prelude::*;

pub mod laws;

verus! {

/// The splits, the focused one, and the viewport onto them.
pub struct State {
    pub layout: Layout,
    pub focus: NodeId,
    /// How far the viewport is scrolled into the strip.
    pub scroll_x: i32,
    /// Where the viewport glides to.
    pub scroll_target: i32,
    /// Scroll room past the strip's end, for the dock.
    pub dock_extra: i32,
    /// The side of the focused split that the next window opens on, if a
    /// launch said one.
    pub aim: Option<Side>,
    /// The windows asked to close by the badge of their tile.
    pub badged: Vec<Win>,
}

/// What bringing a window forward changed.
#[derive(Clone, Copy, PartialEq, Eq, Debug, Structural)]
pub enum Activation {
    /// Its split was a restore strip.
    Unminimized,
    Unchanged,
}

/// Whether split `id` shows window `w`.
pub open spec fn homes(v: Strip, w: Win, id: NodeId) -> bool {
    v.live(id) && v.leaf_of(id).client == Some(w)
}

/// The windows that have a split.
pub open spec fn shown(v: Strip) -> Set<Win> {
    Set::new(|w: Win| exists|id: NodeId| #[trigger] homes(v, w, id))
}

/// No window has two splits.
pub open spec fn once(v: Strip) -> bool {
    forall|w: Win, a: NodeId, b: NodeId| #[trigger]
        homes(v, w, a) && #[trigger] homes(v, w, b) ==> a == b
}

/// The split that shows `w`.
pub open spec fn home_of(v: Strip, w: Win) -> NodeId {
    choose|id: NodeId| #[trigger] homes(v, w, id)
}

/// The strip with the data of split `id` replaced.
pub open spec fn with_leaf(v: Strip, id: NodeId, leaf: Leaf) -> Strip {
    let p = v.pos_of(id);
    v.with_row(p, Row { id: v.row(p).id, frac: v.row(p).frac, leaf })
}

/// Replacing one split's data changes nothing else.
proof fn lemma_with_leaf(v: Strip, id: NodeId, leaf: Leaf)
    requires
        v.wf(),
        v.live(id),
    ensures
        with_leaf(v, id, leaf).wf(),
        forall|k: NodeId| #[trigger] with_leaf(v, id, leaf).live(k) <==> v.live(k),
        forall|k: NodeId| #[trigger]
            v.live(k) ==> with_leaf(v, id, leaf).leaf_of(k) == (if k == id {
                leaf
            } else {
                v.leaf_of(k)
            }),
{
    let p = v.pos_of(id);
    assert(v.sits(id, p));
    let n = with_leaf(v, id, leaf);
    lemma_row_updated(v, p, Row { id: v.row(p).id, frac: v.row(p).frac, leaf });
    assert forall|q: Pos| n.has(q) <==> v.has(q) by {
        if q.col != p.col {
            assert(q.col < v.columns.len() ==> n.columns[q.col as int] == v.columns[q.col as int]);
        }
    }
    assert forall|q: Pos| v.has(q) implies (#[trigger] n.row(q)).id == v.row(q).id && n.row(q).leaf
        == (if q == p {
        leaf
    } else {
        v.row(q).leaf
    }) by {
        if q.col != p.col {
            assert(n.columns[q.col as int] == v.columns[q.col as int]);
        }
    }
    assert forall|k: NodeId| #[trigger] n.live(k) <==> v.live(k) by {
        if n.live(k) {
            let q = n.pos_of(k);
            assert(n.sits(k, q));
            assert(n.row(q).id == v.row(q).id);
            assert(v.sits(k, q));
        }
        if v.live(k) {
            let q = v.pos_of(k);
            assert(v.sits(k, q));
            assert(n.row(q).id == v.row(q).id);
            assert(n.sits(k, q));
        }
    }
    assert forall|k: NodeId| #[trigger] v.live(k) implies n.leaf_of(k) == (if k == id {
        leaf
    } else {
        v.leaf_of(k)
    }) by {
        let q = v.pos_of(k);
        assert(v.sits(k, q));
        assert(n.row(q).id == v.row(q).id);
        assert(n.sits(k, q));
        lemma_pos(n, k, q);
        if k == id {
            assert(q == p);
        } else {
            assert(q != p);
        }
    }
}

/// The data of a split that starts to show `win`.
pub open spec fn showing(leaf: Leaf, win: Win) -> Leaf {
    Leaf { client: Some(win), minimized: false, color: leaf.color }
}

/// The width of a column whose window asked for `want` pixels.
pub open spec fn width_for(want: Option<i32>) -> ColWidth {
    match want {
        Some(w) => ColWidth::Px(w),
        None => ColWidth::Viewport,
    }
}

/// The side a new window opens on where nobody aimed it.
pub open spec fn side_of(aim: Option<Side>) -> Side {
    match aim {
        Some(side) => side,
        None => Side::Right,
    }
}

/// The strip with a fresh split on one side of split `f`: a column before or
/// after its column, or a row above or below it.
pub open spec fn opened(v: Strip, f: NodeId, want: Option<i32>, side: Side) -> Strip {
    let p = v.pos_of(f);
    let row = v.fresh_row(SHARE_ONE as int);
    match side {
        Side::Left => v.minted().with_column(p.col as int, width_for(want), row),
        Side::Right => v.minted().with_column(p.col + 1, width_for(want), row),
        Side::Up => row_opened(v, p.col as int, p.row as int),
        Side::Down => row_opened(v, p.col as int, p.row + 1),
    }
}

/// The strip after a new window arrived, and the split it went to: a fresh
/// split on the side it was aimed at. One that nobody aimed takes split `f`
/// if that is empty, else a column right of it.
pub open spec fn placed_in(
    v: Strip,
    f: NodeId,
    win: Win,
    want: Option<i32>,
    aim: Option<Side>,
) -> (Strip, NodeId) {
    if aim is None && v.leaf_of(f).client is None {
        (with_leaf(v, f, showing(v.leaf_of(f), win)), f)
    } else {
        let n = opened(v, f, want, side_of(aim));
        let id = NodeId(v.next_id);
        (with_leaf(n, id, showing(n.leaf_of(id), win)), id)
    }
}

/// Whether the strip has room for a fresh split on that side of `f`.
pub open spec fn has_room(v: Strip, f: NodeId, side: Side) -> bool {
    match side {
        Side::Left => v.columns.len() < usize::MAX,
        Side::Right => v.columns.len() < usize::MAX,
        Side::Up => v.columns[v.pos_of(f).col as int].rows.len() < usize::MAX,
        Side::Down => v.columns[v.pos_of(f).col as int].rows.len() < usize::MAX,
    }
}

/// A fresh split leaves every other one as it was.
proof fn lemma_opened(v: Strip, f: NodeId, want: Option<i32>, side: Side)
    requires
        v.wf(),
        small(v),
        v.next_id < u32::MAX,
        v.live(f),
        has_room(v, f, side),
    ensures
        ({
            let n = opened(v, f, want, side);
            let id = NodeId(v.next_id);
            &&& n.wf()
            &&& !v.live(id)
            &&& forall|k: NodeId| #[trigger] n.live(k) <==> v.live(k) || k == id
            &&& forall|k: NodeId| #[trigger] v.live(k) ==> n.leaf_of(k) == v.leaf_of(k)
            &&& n.leaf_of(id) == v.fresh_row(0).leaf
        }),
{
    let p = v.pos_of(f);
    assert(v.sits(f, p));
    fresh_ids_are_new(v);
    match side {
        Side::Left => lemma_column_opened(v, p.col as int, width_for(want)),
        Side::Right => lemma_column_opened(v, p.col + 1, width_for(want)),
        Side::Up => lemma_row_opened(v, p.col as int, p.row as int),
        Side::Down => lemma_row_opened(v, p.col as int, p.row + 1),
    }
}

/// Where a window that was aimed opens: directly on that side of the split
/// that was focused, which keeps its data.
pub proof fn aimed_windows_open_on_their_side(
    v: Strip,
    f: NodeId,
    win: Win,
    want: Option<i32>,
    side: Side,
)
    requires
        v.wf(),
        small(v),
        v.next_id < u32::MAX,
        v.live(f),
        has_room(v, f, side),
    ensures
        ({
            let (n, id) = placed_in(v, f, win, want, Some(side));
            let (p, q) = (n.pos_of(f), n.pos_of(id));
            &&& n.live(f) && n.leaf_of(f) == v.leaf_of(f)
            &&& n.live(id) && n.leaf_of(id).client == Some(win)
            &&& match side {
                Side::Left => q.col + 1 == p.col && n.columns[q.col as int].rows.len() == 1,
                Side::Right => p.col + 1 == q.col && n.columns[q.col as int].rows.len() == 1,
                Side::Up => q.col == p.col && q.row + 1 == p.row,
                Side::Down => q.col == p.col && p.row + 1 == q.row,
            }
        }),
{
    let p = v.pos_of(f);
    assert(v.sits(f, p));
    let o = opened(v, f, want, side);
    let id = NodeId(v.next_id);
    lemma_opened(v, f, want, side);
    let q = match side {
        Side::Left => Pos { col: p.col, row: 0 },
        Side::Right => Pos { col: (p.col + 1) as usize, row: 0 },
        Side::Up => Pos { col: p.col, row: p.row },
        Side::Down => Pos { col: p.col, row: (p.row + 1) as usize },
    };
    let now = match side {
        Side::Left => Pos { col: (p.col + 1) as usize, row: p.row },
        Side::Right => p,
        Side::Up => Pos { col: p.col, row: (p.row + 1) as usize },
        Side::Down => p,
    };
    let rows = v.columns[p.col as int].rows;
    match side {
        Side::Left => {
            lemma_column_opened(v, p.col as int, width_for(want));
            assert(o.columns[p.col + 1] == v.columns[p.col as int]);
        },
        Side::Right => {
            lemma_column_opened(v, p.col + 1, width_for(want));
            assert(o.columns[p.col as int] == v.columns[p.col as int]);
        },
        Side::Up => {
            lemma_row_opened(v, p.col as int, p.row as int);
            let row = v.fresh_row(average_share(rows));
            assert(rows.insert(p.row as int, row)[p.row + 1] == rows[p.row as int]);
        },
        Side::Down => {
            lemma_row_opened(v, p.col as int, p.row + 1);
            let row = v.fresh_row(average_share(rows));
            assert(rows.insert(p.row + 1, row)[p.row as int] == rows[p.row as int]);
        },
    }
    assert(o.pos_of(id) == q);
    assert(o.sits(f, now));
    assert(o.sits(id, q));
    lemma_with_leaf(o, id, showing(o.leaf_of(id), win));
    let n = with_leaf(o, id, showing(o.leaf_of(id), win));
    assert(n.live(f) && n.live(id));
    assert(n.columns[now.col as int].rows.len() == o.columns[now.col as int].rows.len());
    assert(n.sits(f, now));
    assert(n.sits(id, q));
    lemma_pos(n, f, now);
    lemma_pos(n, id, q);
}

/// The strip after a window's split lost it: the split goes too, but where
/// it is kept, or is the strip's last one, it stays as an empty placeholder.
pub open spec fn unpinned(v: Strip, id: NodeId, keep: bool) -> Strip {
    if keep || v.sole() {
        with_leaf(
            v,
            id,
            Leaf {
                client: None,
                minimized: v.leaf_of(id).minimized,
                color: v.leaf_of(id).color,
            },
        )
    } else {
        v.removed(v.pos_of(id))
    }
}

/// A new window joins the windows that have a split, and the others keep
/// theirs, wherever it was aimed.
pub proof fn placing_keeps_every_window(
    v: Strip,
    f: NodeId,
    win: Win,
    want: Option<i32>,
    aim: Option<Side>,
)
    requires
        v.wf(),
        small(v),
        aim is Some || v.leaf_of(f).client is Some ==> has_room(v, f, side_of(aim)),
        v.next_id < u32::MAX,
        v.live(f),
        once(v),
        !shown(v).contains(win),
    ensures
        ({
            let (n, id) = placed_in(v, f, win, want, aim);
            &&& n.wf()
            &&& once(n)
            &&& homes(n, win, id)
            &&& shown(n) == shown(v).insert(win)
            &&& forall|w: Win, k: NodeId| #[trigger] homes(v, w, k) ==> homes(n, w, k)
        }),
{
    let (n, id) = placed_in(v, f, win, want, aim);
    let filled = aim is None && v.leaf_of(f).client is None;
    if filled {
        lemma_with_leaf(v, f, showing(v.leaf_of(f), win));
    } else {
        let o = opened(v, f, want, side_of(aim));
        lemma_opened(v, f, want, side_of(aim));
        lemma_with_leaf(o, id, showing(o.leaf_of(id), win));
        assert(o.live(id));
    }
    assert(n.live(id) && n.leaf_of(id).client == Some(win));
    assert forall|k: NodeId| #[trigger] n.live(k) && k != id implies v.live(k) && n.leaf_of(k)
        == v.leaf_of(k) by {
    }
    assert forall|k: NodeId| #[trigger] v.live(k) implies n.live(k) by {
    }
    assert forall|w: Win, k: NodeId| #[trigger] homes(n, w, k) <==> homes(v, w, k) || (w == win && k
        == id) by {
        if homes(v, win, k) {
            assert(shown(v).contains(win));
        }
        if homes(v, w, k) {
            assert(n.live(k));
            if k == id {
                assert(filled && id == f);
            }
        }
    }
    assert(homes(n, win, id));
    assert forall|w: Win| shown(n).contains(w) <==> shown(v).insert(win).contains(w) by {
        if shown(v).contains(w) {
            let k = home_of(v, w);
            assert(homes(v, w, k));
            assert(homes(n, w, k));
        }
    }
    assert(shown(n) =~= shown(v).insert(win));
}

/// Whether a split goes along with its window.
pub open spec fn unpins_split(v: Strip, keep: bool) -> bool {
    !keep && !v.sole()
}

/// The focus after a window left its split.
pub open spec fn focus_unpinned(v: Strip, id: NodeId, keep: bool, focus: NodeId) -> NodeId {
    if unpins_split(v, keep) && focus == id {
        v.focus_after(v.pos_of(id))
    } else {
        focus
    }
}

/// A window that goes leaves the windows that have a split, and the others
/// keep theirs. Its split goes with it, but where it is kept as a
/// placeholder.
pub proof fn unpinning_keeps_the_other_windows(v: Strip, win: Win, keep: bool)
    requires
        v.wf(),
        small(v),
        once(v),
        shown(v).contains(win),
    ensures
        ({
            let id = home_of(v, win);
            let n = unpinned(v, id, keep);
            &&& n.wf()
            &&& once(n)
            &&& shown(n) == shown(v).remove(win)
            &&& forall|w: Win, k: NodeId| w != win && #[trigger] homes(v, w, k) ==> homes(n, w, k)
            &&& if keep || v.sole() {
                n.live(id) && n.leaf_of(id).client is None
            } else {
                !n.live(id)
            }
        }),
{
    let id = home_of(v, win);
    assert(homes(v, win, id));
    let n = unpinned(v, id, keep);
    if keep || v.sole() {
        lemma_with_leaf(
            v,
            id,
            Leaf {
                client: None,
                minimized: v.leaf_of(id).minimized,
                color: v.leaf_of(id).color,
            },
        );
    } else {
        assert(v.sits(id, v.pos_of(id)));
        lemma_removed(v, v.pos_of(id));
    }
    assert forall|w: Win, k: NodeId| #[trigger] homes(n, w, k) <==> homes(v, w, k) && w != win by {
        if n.live(k) && homes(v, win, k) {
            assert(k == id);
        }
        if homes(v, w, k) && w != win {
            assert(k != id);
            assert(n.live(k));
        }
    }
    assert forall|w: Win| shown(n).contains(w) <==> shown(v).remove(win).contains(w) by {
        if shown(v).contains(w) && w != win {
            let k = home_of(v, w);
            assert(homes(v, w, k));
            assert(homes(n, w, k));
        }
    }
    assert(shown(n) =~= shown(v).remove(win));
}

/// Whether the store and the strip agree: exactly the managed tiled windows
/// have a split.
pub open spec fn in_step(s: Store, v: Strip) -> bool {
    forall|w: Win| #[trigger] s.is_tiled(w) <==> shown(v).contains(w)
}

/// Every tiled window occupies a split, from being managed on: managing one
/// and giving it a split keeps store and strip in step.
pub proof fn managed_windows_get_a_split(
    s: Store,
    v: Strip,
    f: NodeId,
    want: Option<i32>,
    aim: Option<Side>,
)
    requires
        s.wf(),
        s.next < u32::MAX,
        in_step(s, v),
        v.wf(),
        small(v),
        aim is Some || v.leaf_of(f).client is Some ==> has_room(v, f, side_of(aim)),
        v.next_id < u32::MAX,
        v.live(f),
        once(v),
    ensures
        ({
            let win = (s.next + 1) as Win;
            in_step(s.inserted(Kind::Tiled), placed_in(v, f, win, want, aim).0)
        }),
{
    let win = (s.next + 1) as Win;
    lemma_inserted(s, Kind::Tiled);
    assert(!s.is_tiled(win));
    placing_keeps_every_window(v, f, win, want, aim);
    let n = s.inserted(Kind::Tiled);
    assert forall|w: Win| #[trigger] n.is_tiled(w) <==> shown(
        placed_in(v, f, win, want, aim).0,
    ).contains(w) by {
        if w != win {
            assert(n.has(w) == s.has(w));
            assert(s.is_tiled(w) <==> shown(v).contains(w));
        }
    }
}

/// A tiled window that dies gives up its split and nobody else's, whether or
/// not the split is kept: store and strip stay in step.
pub proof fn dying_windows_give_up_their_split(s: Store, v: Strip, win: Win, keep: bool)
    requires
        s.wf(),
        in_step(s, v),
        s.is_tiled(win),
        v.wf(),
        small(v),
        once(v),
    ensures
        in_step(s.removed(win), unpinned(v, home_of(v, win), keep)),
{
    crate::shell::lemma_removed(s, win);
    assert(shown(v).contains(win));
    unpinning_keeps_the_other_windows(v, win, keep);
    let n = s.removed(win);
    assert forall|w: Win| #[trigger] n.is_tiled(w) <==> shown(
        unpinned(v, home_of(v, win), keep),
    ).contains(w) by {
        if w != win {
            assert(n.has(w) == s.has(w));
            assert(s.is_tiled(w) <==> shown(v).contains(w));
        }
    }
}

proof fn lemma_push_contains(s: Seq<Win>, x: Win, y: Win)
    ensures
        s.push(x).contains(y) <==> s.contains(y) || y == x,
{
    if s.contains(y) {
        let i = choose|i: int| 0 <= i < s.len() && s[i] == y;
        assert(s.push(x)[i] == y);
    }
    assert(s.push(x)[s.len() as int] == x);
}

/// Having a split and being shown somewhere on the strip are one thing.
proof fn lemma_homes_are_shows(v: Strip, w: Win)
    requires
        v.wf(),
    ensures
        shown(v).contains(w) <==> exists|p: Pos| #[trigger] v.shows(w, p),
{
    if shown(v).contains(w) {
        let id = home_of(v, w);
        assert(homes(v, w, id));
        assert(v.sits(id, v.pos_of(id)));
        assert(v.shows(w, v.pos_of(id)));
    }
    if exists|p: Pos| #[trigger] v.shows(w, p) {
        let p = choose|p: Pos| #[trigger] v.shows(w, p);
        let id = v.row(p).id;
        assert(v.sits(id, p));
        lemma_pos(v, id, p);
        assert(homes(v, w, id));
    }
}

/// The strip's width, from where its columns end.
proof fn lemma_width(v: Strip, wa: Rect, gap: int)
    requires
        v.wf(),
        v.fits(wa, gap),
        0 <= wa.x,
    ensures
        v.width(wa.w as int, gap) == v.col_x(v.columns.len() as int, wa, gap) - wa.x,
        fits_i32(v.width(wa.w as int, gap)),
        0 <= v.width(wa.w as int, gap),
{
    let n = v.columns.len() as int;
    lemma_col_x_bounds(v, n, wa, gap);
    assert(gap * (n - 1) == gap * n - gap) by (nonlinear_arith);
}

/// A column with its margins lies within the strip.
proof fn lemma_column_in_strip(v: Strip, c: int, wa: Rect, gap: int)
    requires
        v.wf(),
        v.fits(wa, gap),
        0 <= wa.x,
        0 <= c < v.columns.len(),
    ensures
        0 <= v.col_x(c, wa, gap) - wa.x - gap,
        fits_i32(v.col_x(c, wa, gap)),
        0 <= v.px(c, wa.w as int, gap),
        v.col_x(c, wa, gap) - wa.x + v.px(c, wa.w as int, gap) + gap <= v.width(wa.w as int, gap),
{
    let n = v.columns.len() as int;
    lemma_width(v, wa, gap);
    lemma_col_x_bounds(v, c, wa, gap);
    lemma_px_to(v, c + 1, n, wa.w as int, gap);
    assert(gap * n == gap * (c + 1) + gap * (n - (c + 1))) by (nonlinear_arith);
    assert(0 <= gap * (n - (c + 1))) by (nonlinear_arith)
        requires
            0 <= gap,
            c + 1 <= n,
    ;
}

/// No split starts left of the strip's margin.
proof fn lemma_rects_right_of(v: Strip, n: int, wa: Rect, gap: int, k: int)
    requires
        v.fits(wa, gap),
        0 <= wa.x,
        0 <= n <= v.columns.len(),
        0 <= k < v.rects_to(n, wa, gap).len(),
    ensures
        0 <= v.rects_to(n, wa, gap)[k].1.x,
    decreases n,
{
    if n > 0 {
        let before = v.rects_to(n - 1, wa, gap).len();
        if k < before {
            lemma_rects_right_of(v, n - 1, wa, gap, k);
        } else {
            lemma_col_x_bounds(v, n - 1, wa, gap);
        }
    }
}

/// Where every split shows the same window, the same windows are shown.
proof fn lemma_same_shown(v: Strip, n: Strip)
    requires
        forall|w: Win, k: NodeId| #[trigger] homes(n, w, k) <==> homes(v, w, k),
    ensures
        shown(n) == shown(v),
        once(v) ==> once(n),
{
    assert forall|w: Win| shown(n).contains(w) <==> shown(v).contains(w) by {
        if shown(v).contains(w) {
            assert(homes(n, w, home_of(v, w)));
        }
        if shown(n).contains(w) {
            assert(homes(v, w, home_of(n, w)));
        }
    }
    assert(shown(n) =~= shown(v));
}

/// Strips with the same splits in the same places show the same windows.
proof fn lemma_same_homes(v: Strip, n: Strip)
    requires
        v.ids_unique(),
        n.ids_unique(),
        forall|p: Pos| n.has(p) <==> #[trigger] v.has(p),
        forall|p: Pos|
            v.has(p) ==> (#[trigger] n.row(p)).id == v.row(p).id && n.row(p).leaf.client == v.row(
                p,
            ).leaf.client,
    ensures
        shown(n) == shown(v),
        once(v) ==> once(n),
        forall|w: Win, k: NodeId| #[trigger] homes(n, w, k) <==> homes(v, w, k),
        forall|k: NodeId| #[trigger] n.live(k) <==> v.live(k),
{
    assert forall|k: NodeId| #[trigger] n.live(k) <==> v.live(k) by {
        if n.live(k) {
            let q = n.pos_of(k);
            assert(n.sits(k, q));
            assert(v.has(q));
            assert(n.row(q).id == v.row(q).id);
            assert(v.sits(k, q));
        }
        if v.live(k) {
            let q = v.pos_of(k);
            assert(v.sits(k, q));
            assert(v.has(q));
            assert(n.row(q).id == v.row(q).id);
            assert(n.sits(k, q));
        }
    }
    assert forall|w: Win, k: NodeId| #[trigger] homes(n, w, k) <==> homes(v, w, k) by {
        if v.live(k) {
            let q = v.pos_of(k);
            assert(v.sits(k, q));
            assert(v.has(q));
            assert(n.row(q).id == v.row(q).id);
            assert(n.sits(k, q));
            lemma_pos(n, k, q);
        }
    }
    lemma_same_shown(v, n);
}

/// Strips that keep every split with its data show the same windows.
proof fn lemma_kept_homes(v: Strip, n: Strip)
    requires
        forall|k: NodeId| #[trigger] n.live(k) <==> v.live(k),
        forall|k: NodeId| #[trigger] v.live(k) ==> n.leaf_of(k) == v.leaf_of(k),
    ensures
        shown(n) == shown(v),
        once(v) ==> once(n),
{
    assert forall|w: Win, k: NodeId| #[trigger] homes(n, w, k) <==> homes(v, w, k) by {
        assert(n.live(k) <==> v.live(k));
    }
    lemma_same_shown(v, n);
}

/// The first place of `id` among `ids` from `k` on; the length if none.
pub open spec fn place_from(ids: Seq<NodeId>, id: NodeId, k: int) -> int
    decreases ids.len() - k,
{
    if k >= ids.len() {
        ids.len() as int
    } else if ids[k] == id {
        k
    } else {
        place_from(ids, id, k + 1)
    }
}

/// The split after or before `f` in strip order, round the ends.
pub open spec fn neighbour_of(v: Strip, f: NodeId, next: bool) -> Option<NodeId> {
    let ids = v.ids_to(v.columns.len() as int);
    let n = ids.len() as int;
    let at = place_from(ids, f, 0);
    if at >= n || n < 2 {
        None
    } else if next {
        Some(
            ids[if at + 1 == n {
                0
            } else {
                at + 1
            }],
        )
    } else {
        Some(
            ids[if at == 0 {
                n - 1
            } else {
                at - 1
            }],
        )
    }
}

/// The canvas: the strip, but never narrower than the viewport.
pub open spec fn canvas_of(v: Strip, wa: Rect, gap: int) -> int {
    imax(v.width(wa.w as int, gap), wa.w as int)
}

/// How far the viewport can scroll.
pub open spec fn most_scroll(v: Strip, wa: Rect, gap: int, dock_extra: int) -> int {
    canvas_of(v, wa, gap) - wa.w + dock_extra
}

/// Whether the arithmetic of scrolling over strip `v` is in range.
pub open spec fn scrolls_on(v: Strip, dock_extra: int, wa: Rect, gap: int) -> bool {
    &&& v.fits(wa, gap)
    &&& 0 <= wa.x
    &&& 1 <= wa.w
    &&& fits_i32(wa.x + wa.w)
    &&& 0 <= dock_extra
    &&& fits_i32(most_scroll(v, wa, gap, dock_extra))
}

/// The strip once the split that shows `win` is back from its restore strip.
pub open spec fn activated(v: Strip, win: Win) -> Strip {
    if shown(v).contains(win) {
        let id = home_of(v, win);
        with_leaf(
            v,
            id,
            Leaf { client: Some(win), minimized: false, color: v.leaf_of(id).color },
        )
    } else {
        v
    }
}

/// The scroll position nearest to `s` on the canvas.
pub open spec fn on_canvas(s: int, most: int) -> int {
    imax(imin(s, most), 0)
}

/// A scroll position `by` further along.
pub open spec fn shifted(s: int, by: int) -> int {
    imax(imin(s + by, i32::MAX as int), 0)
}

fn shift(s: i32, by: i32) -> (to: i32)
    ensures
        to == shifted(s as int, by as int),
{
    let to: i64 = s as i64 + by as i64;
    if to > i32::MAX as i64 {
        i32::MAX
    } else if to < 0 {
        0
    } else {
        to as i32
    }
}

/// The scroll position a frame after `x`, on the way to `to`.
pub open spec fn glided(x: int, to: int) -> int {
    if to >= x {
        x + (to - x + 3) / 4
    } else {
        x - (x - to + 3) / 4
    }
}

/// The scroll position `n` frames after `x`.
pub open spec fn glided_for(x: int, to: int, n: nat) -> int
    decreases n,
{
    if n == 0 {
        x
    } else {
        glided(glided_for(x, to, (n - 1) as nat), to)
    }
}

/// A glide comes ever nearer to where it is headed, never passes it, and
/// ends there.
pub proof fn glides_end_where_they_aim(x: int, to: int, n: nat)
    ensures
        x <= to ==> x <= glided_for(x, to, n) <= to,
        to <= x ==> to <= glided_for(x, to, n) <= x,
        x <= to && to - x <= n ==> glided_for(x, to, n) == to,
        to <= x && x - to <= n ==> glided_for(x, to, n) == to,
        glided_for(x, to, n) != to ==> {
            let (a, b) = (glided_for(x, to, n), glided_for(x, to, n + 1));
            if x <= to {
                a < b <= to
            } else {
                to <= b < a
            }
        },
    decreases n,
{
    if n > 0 {
        glides_end_where_they_aim(x, to, (n - 1) as nat);
        lemma_glide_left(x, to, n);
    }
}

proof fn lemma_glide_left(x: int, to: int, n: nat)
    ensures
        x <= to ==> x <= glided_for(x, to, n) <= to && to - glided_for(x, to, n) <= imax(
            to - x - n,
            0,
        ),
        to <= x ==> to <= glided_for(x, to, n) <= x && glided_for(x, to, n) - to <= imax(
            x - to - n,
            0,
        ),
    decreases n,
{
    if n > 0 {
        lemma_glide_left(x, to, (n - 1) as nat);
    }
}

/// The scroll position nearest to `s` that has the column at `left`, `room`
/// pixels wide with its margins, in a viewport `w` wide; a column that is too
/// wide for the viewport shows its left end.
pub open spec fn brought_into_view(s: int, left: int, room: int, w: int) -> int {
    imin(imax(s, left + room - w), left)
}

/// The scroll position that has split `f` in view.
pub open spec fn view_of(v: Strip, f: NodeId, s: int, wa: Rect, gap: int) -> int {
    let c = v.pos_of(f).col as int;
    brought_into_view(
        s,
        v.col_x(c, wa, gap) - wa.x - gap,
        v.px(c, wa.w as int, gap) + 2 * gap,
        wa.w as int,
    )
}

/// How far the view is scrolled after a change that is animated, or is not:
/// the animation of the splits takes the place of a glide.
pub open spec fn scroll_then(animate: bool, target: int, was: int) -> int {
    if animate {
        target
    } else {
        was
    }
}

/// What the viewport aims at once `v` is the strip: on the canvas, with the
/// focused split in view.
pub open spec fn aim_of(s: State, v: Strip, wa: Rect, gap: int) -> int {
    view_of(
        v,
        s.focused(),
        on_canvas(s.scroll_target as int, most_scroll(v, wa, gap, s.dock_extra as int)),
        wa,
        gap,
    )
}

/// Whether a split's rect, shifted by the scroll, meets the viewport.
pub open spec fn meets_view(r: Rect, scroll_x: int, wa: Rect) -> bool {
    r.x - scroll_x < wa.right() && r.x + r.w - scroll_x > wa.x
}

/// Where a split is drawn.
pub open spec fn placement_of(v: Strip, f: NodeId, g: (NodeId, Rect), scroll_x: int) -> Placement {
    Placement {
        leaf: g.0,
        target: Rect { x: (g.1.x - scroll_x) as i32, y: g.1.y, w: g.1.w, h: g.1.h },
        active_client: if v.live(g.0) {
            v.leaf_of(g.0).client
        } else {
            None
        },
        focused: g.0 == f,
    }
}

/// The placements among the first `n` splits.
pub open spec fn placements_to(
    v: Strip,
    f: NodeId,
    geos: Seq<(NodeId, Rect)>,
    scroll_x: int,
    wa: Rect,
    n: int,
) -> Seq<Placement>
    decreases n,
{
    if n <= 0 {
        Seq::empty()
    } else {
        let rest = placements_to(v, f, geos, scroll_x, wa, n - 1);
        if meets_view(geos[n - 1].1, scroll_x, wa) {
            rest.push(placement_of(v, f, geos[n - 1], scroll_x))
        } else {
            rest
        }
    }
}

impl State {
    /// A well-formed strip that shows no window twice.
    pub open spec fn wf(self) -> bool {
        &&& self.layout@.wf()
        &&& once(self.layout@)
    }

    /// The focused split; the first one once that is gone.
    pub open spec fn focused(self) -> NodeId {
        if self.layout@.live(self.focus) {
            self.focus
        } else {
            self.layout@.row(Pos { col: 0, row: 0 }).id
        }
    }

    /// Whether the scrolling arithmetic in `wa` is in range.
    pub open spec fn scrolls(self, wa: Rect, gap: int) -> bool {
        &&& scrolls_on(self.layout@, self.dock_extra as int, wa, gap)
        &&& 0 <= self.scroll_x
        &&& 0 <= self.scroll_target
    }

    /// One empty split.
    pub fn new(palette: Vec<Index>) -> (s: State)
        requires
            palette@.len() > 0,
        ensures
            s.wf(),
            s.layout@.sole(),
            s.layout@.palette == palette@,
            shown(s.layout@) == Set::<Win>::empty(),
            s.focus == s.focused(),
            s.scroll_x == 0,
            s.scroll_target == 0,
            s.dock_extra == 0,
            s.aim is None,
            s.badge_closed() == Set::<Win>::empty(),
    {
        let layout = Layout::new(palette);
        let focus = layout.first_leaf();
        proof {
            let v = layout@;
            assert forall|w: Win, id: NodeId| !#[trigger] homes(v, w, id) by {
                if v.live(id) {
                    let p = v.pos_of(id);
                    assert(v.sits(id, p));
                    assert(p == Pos { col: 0, row: 0 });
                }
            }
            assert(shown(v) =~= Set::<Win>::empty());
        }
        let badged: Vec<Win> = Vec::new();
        proof {
            assert(badged@.to_set() =~= Set::<Win>::empty());
        }
        State { layout, focus, scroll_x: 0, scroll_target: 0, dock_extra: 0, aim: None, badged }
    }

    /// The focused split, never one that is gone.
    pub fn focused_leaf_valid(&self) -> (id: NodeId)
        requires
            self.wf(),
        ensures
            id == self.focused(),
            self.layout@.live(id),
    {
        if self.layout.is_leaf(self.focus) {
            self.focus
        } else {
            self.layout.first_leaf()
        }
    }

    /// The window in the focused split.
    pub fn focused_client(&self) -> (win: Option<Win>)
        requires
            self.wf(),
        ensures
            win == self.layout@.leaf_of(self.focused()).client,
    {
        let id = self.focused_leaf_valid();
        match self.layout.leaf(id) {
            Some(l) => l.client,
            None => None,
        }
    }

    /// Focus a split, if it is there.
    pub fn focus_leaf(&mut self, id: NodeId)
        requires
            old(self).wf(),
        ensures
            final(self).wf(),
            *final(self) == (State {
                focus: if old(self).layout@.live(id) {
                    id
                } else {
                    old(self).focus
                },
                ..*old(self)
            }),
    {
        if self.layout.is_leaf(id) {
            self.focus = id;
        }
    }

    /// The split after or before the focused one.
    pub fn neighbour(&self, next: bool) -> (id: Option<NodeId>)
        requires
            self.wf(),
        ensures
            id == neighbour_of(self.layout@, self.focused(), next),
    {
        let f = self.focused_leaf_valid();
        let ids = self.layout.collect_leaves();
        let n: usize = ids.len();
        let mut k: usize = 0;
        while k < n && ids[k] != f
            invariant
                k <= n,
                n == ids@.len(),
                place_from(ids@, f, 0) == place_from(ids@, f, k as int),
            decreases n - k,
        {
            k = k + 1;
        }
        if k >= n || n < 2 {
            return None;
        }
        let to: usize = if next {
            if k + 1 == n {
                0
            } else {
                k + 1
            }
        } else {
            if k == 0 {
                n - 1
            } else {
                k - 1
            }
        };
        Some(ids[to])
    }

    /// Move the focus along the strip; whether it moved.
    pub fn focus_direction(&mut self, next: bool) -> (moved: bool)
        requires
            old(self).wf(),
        ensures
            final(self).wf(),
            moved == (neighbour_of(old(self).layout@, old(self).focused(), next) is Some),
            *final(self) == (State {
                focus: match neighbour_of(old(self).layout@, old(self).focused(), next) {
                    Some(id) => id,
                    None => old(self).focus,
                },
                ..*old(self)
            }),
    {
        match self.neighbour(next) {
            Some(id) => {
                self.focus = id;
                true
            },
            None => false,
        }
    }

    /// Aim the next window at a side of the focused split.
    pub fn aim_next_window(&mut self, side: Side)
        ensures
            *final(self) == (State { aim: Some(side), ..*old(self) }),
    {
        self.aim = Some(side);
    }

    /// Give a new window a split: a fresh one on the side of the focused
    /// split that it was aimed at. One that nobody aimed takes the focused
    /// split if that is an empty placeholder, else a fresh column right of
    /// it. A column is as wide as the window asked for.
    pub fn place_new_window(&mut self, win: Win, want: Option<i32>)
        requires
            old(self).wf(),
            old(self).layout@.next_id < u32::MAX,
            !shown(old(self).layout@).contains(win),
        ensures
            final(self).wf(),
            ({
                let (n, id) = placed_in(
                    old(self).layout@,
                    old(self).focused(),
                    win,
                    want,
                    old(self).aim,
                );
                &&& final(self).layout@ == n
                &&& final(self).focus == id
            }),
            final(self).focused() == final(self).focus,
            homes(final(self).layout@, win, final(self).focus),
            shown(final(self).layout@) == shown(old(self).layout@).insert(win),
            final(self).scroll_x == old(self).scroll_x,
            final(self).scroll_target == old(self).scroll_target,
            final(self).dock_extra == old(self).dock_extra,
            final(self).aim is None,
            final(self).badged == old(self).badged,
    {
        let ghost v = self.layout@;
        proof {
            self.layout.lemma_small();
        }
        let f = self.focused_leaf_valid();
        let empty = match self.layout.leaf(f) {
            Some(l) => l.client.is_none(),
            None => false,
        };
        let mut id = f;
        let aim = self.aim.take();
        if aim.is_some() || !empty {
            let p = match self.layout.locate(f) {
                Some(p) => p,
                None => Pos { col: 0, row: 0 },
            };
            let width = match want {
                Some(w) => ColWidth::Px(w),
                None => ColWidth::Viewport,
            };
            let side = match aim {
                Some(side) => side,
                None => Side::Right,
            };
            proof {
                assert(v.sits(f, v.pos_of(f)));
                assert(p == v.pos_of(f));
            }
            id = match side {
                Side::Left => self.layout.insert_column(p.col, width),
                Side::Right => self.layout.insert_column(p.col + 1, width),
                Side::Up => match self.layout.insert_row(p.col, p.row) {
                    Some(id) => id,
                    None => f,
                },
                Side::Down => match self.layout.insert_row(p.col, p.row + 1) {
                    Some(id) => id,
                    None => f,
                },
            };
            proof {
                self.layout.lemma_small();
                assert(self.layout@ == opened(v, f, want, side));
                let (c, rows) = (p.col as int, v.columns[p.col as int].rows);
                assert(side is Up || side is Down ==> self.layout@.columns[c].rows.len()
                    == rows.len() + 1);
                lemma_opened(v, f, want, side);
            }
        }
        proof {
            placing_keeps_every_window(v, f, win, want, aim);
        }
        match self.layout.leaf_mut(id) {
            Some(leaf) => leaf.show(win),
            None => {},
        }
        self.focus = id;
    }
}

impl State {
    /// The windows asked to close by their tile's badge.
    pub open spec fn badge_closed(self) -> Set<Win> {
        self.badged@.to_set()
    }

    /// A window is asked to close by its tile's badge: its split is to stay.
    pub fn close_by_badge(&mut self, win: Win)
        ensures
            final(self).badge_closed() == old(self).badge_closed().insert(win),
            *final(self) == (State { badged: final(self).badged, ..*old(self) }),
    {
        self.badged.push(win);
        proof {
            let (was, now) = (old(self).badged@, self.badged@);
            assert forall|w: Win| now.contains(w) <==> was.contains(w) || w == win by {
                if was.contains(w) {
                    let i = choose|i: int| 0 <= i < was.len() && was[i] == w;
                    assert(now[i] == w);
                }
                assert(now[was.len() as int] == win);
            }
            assert(now.to_set() =~= was.to_set().insert(win));
        }
    }

    /// Forget that a window was asked to close by its badge; whether it was.
    fn take_badged(&mut self, win: Win) -> (was: bool)
        ensures
            was == old(self).badge_closed().contains(win),
            final(self).badge_closed() == old(self).badge_closed().remove(win),
            *final(self) == (State { badged: final(self).badged, ..*old(self) }),
    {
        let mut left: Vec<Win> = Vec::new();
        let mut was = false;
        let mut k: usize = 0;
        let ghost all = self.badged@;
        while k < self.badged.len()
            invariant
                k <= self.badged@.len(),
                self.badged@ == all,
                was == all.take(k as int).contains(win),
                forall|w: Win| #[trigger]
                    left@.contains(w) <==> all.take(k as int).contains(w) && w != win,
            decreases self.badged@.len() - k,
        {
            let w: Win = self.badged[k];
            let ghost (before, seen) = (left@, all.take(k as int));
            if w == win {
                was = true;
            } else {
                left.push(w);
            }
            k = k + 1;
            proof {
                assert(all.take(k as int) =~= seen.push(w));
                assert forall|x: Win| #[trigger] seen.push(w).contains(x) <==> seen.contains(x) || x
                    == w by {
                    lemma_push_contains(seen, w, x);
                }
                assert forall|x: Win| #[trigger] before.push(w).contains(x) <==> before.contains(x)
                    || x == w by {
                    lemma_push_contains(before, w, x);
                }
                assert(left@ == before || left@ =~= before.push(w));
            }
        }
        self.badged = left;
        proof {
            assert(all.take(k as int) =~= all);
            assert(left@.to_set() =~= all.to_set().remove(win));
        }
        was
    }

    /// A window is gone, and its split with it. One that its badge closed
    /// leaves its split as an empty placeholder, and so does the last one.
    /// Focus that rested on a split that went moves to the nearest one.
    /// Whether a split went.
    pub fn unpin_client(&mut self, win: Win) -> (removed: bool)
        requires
            old(self).wf(),
        ensures
            final(self).wf(),
            shown(final(self).layout@) == shown(old(self).layout@).remove(win),
            !shown(old(self).layout@).contains(win) ==> !removed && *final(self) == (State {
                badged: final(self).badged,
                ..*old(self)
            }),
            shown(old(self).layout@).contains(win) ==> {
                let v = old(self).layout@;
                let id = home_of(v, win);
                let keep = old(self).badge_closed().contains(win);
                &&& final(self).layout@ == unpinned(v, id, keep)
                &&& removed == unpins_split(v, keep)
                &&& final(self).focus == focus_unpinned(v, id, keep, old(self).focus)
            },
            final(self).scroll_x == old(self).scroll_x,
            final(self).scroll_target == old(self).scroll_target,
            final(self).dock_extra == old(self).dock_extra,
            final(self).aim == old(self).aim,
            final(self).badge_closed() == old(self).badge_closed().remove(win),
    {
        let ghost v = self.layout@;
        proof {
            self.layout.lemma_small();
        }
        let keep = self.take_badged(win);
        let id = match self.layout.find_leaf_for_client(win) {
            Some(id) => id,
            None => {
                proof {
                    lemma_homes_are_shows(v, win);
                    assert(shown(v) =~= shown(v).remove(win));
                }
                return false;
            },
        };
        proof {
            let p = choose|p: Pos| #[trigger] v.shows(win, p) && v.row(p).id == id;
            assert(v.sits(id, p));
            lemma_pos(v, id, p);
            assert(homes(v, win, id));
            assert(shown(v).contains(win));
            assert(homes(v, win, home_of(v, win)));
            unpinning_keeps_the_other_windows(v, win, keep);
        }
        if keep {
            match self.layout.leaf_mut(id) {
                Some(leaf) => {
                    leaf.client = None;
                },
                None => {},
            }
            return false;
        }
        match self.layout.remove(id) {
            Some(next) => {
                if self.focus == id {
                    self.focus = next;
                }
                true
            },
            None => {
                match self.layout.leaf_mut(id) {
                    Some(leaf) => {
                        leaf.client = None;
                    },
                    None => {},
                }
                false
            },
        }
    }

    /// Focus the split that shows a window, bringing it back from its
    /// restore strip.
    pub fn activate_client(&mut self, win: Win) -> (a: Activation)
        requires
            old(self).wf(),
        ensures
            final(self).wf(),
            shown(final(self).layout@) == shown(old(self).layout@),
            final(self).layout@ == activated(old(self).layout@, win),
            ({
                let v = old(self).layout@;
                if shown(v).contains(win) {
                    &&& final(self).focus == home_of(v, win)
                    &&& a is Unminimized <==> v.leaf_of(home_of(v, win)).minimized
                } else {
                    a is Unchanged && *final(self) == *old(self)
                }
            }),
            final(self).scroll_x == old(self).scroll_x,
            final(self).scroll_target == old(self).scroll_target,
            final(self).dock_extra == old(self).dock_extra,
            final(self).aim == old(self).aim,
            final(self).badged == old(self).badged,
    {
        let ghost v = self.layout@;
        let id = match self.layout.find_leaf_for_client(win) {
            Some(id) => id,
            None => {
                proof {
                    lemma_homes_are_shows(v, win);
                }
                return Activation::Unchanged;
            },
        };
        proof {
            let p = choose|p: Pos| #[trigger] v.shows(win, p) && v.row(p).id == id;
            assert(v.sits(id, p));
            lemma_pos(v, id, p);
            assert(homes(v, win, id));
            assert(homes(v, win, home_of(v, win)));
            lemma_with_leaf(
                v,
                id,
                Leaf { client: Some(win), minimized: false, color: v.leaf_of(id).color },
            );
        }
        self.focus = id;
        let mut a = Activation::Unchanged;
        match self.layout.leaf_mut(id) {
            Some(leaf) => {
                if leaf.minimized {
                    a = Activation::Unminimized;
                }
                leaf.minimized = false;
            },
            None => {},
        }
        proof {
            let n = self.layout@;
            assert forall|w: Win, k: NodeId| #[trigger] homes(n, w, k) <==> homes(v, w, k) by {
                assert(n.live(k) <==> v.live(k));
            }
            lemma_same_shown(v, n);
        }
        a
    }
}

impl State {
    /// The canvas' width.
    pub fn canvas_w(&self, wa: Rect, gap: i32) -> (w: i32)
        requires
            self.wf(),
            self.scrolls(wa, gap as int),
        ensures
            w == canvas_of(self.layout@, wa, gap as int),
    {
        proof {
            lemma_width(self.layout@, wa, gap as int);
        }
        max_i32(self.layout.strip_w(wa.w, gap), wa.w)
    }

    /// Keep what the viewport glides to on the canvas.
    pub fn clamp_scroll(&mut self, wa: Rect, gap: i32)
        requires
            old(self).wf(),
            old(self).scrolls(wa, gap as int),
        ensures
            final(self).wf(),
            final(self).scrolls(wa, gap as int),
            *final(self) == (State {
                scroll_target: on_canvas(
                    old(self).scroll_target as int,
                    most_scroll(old(self).layout@, wa, gap as int, old(self).dock_extra as int),
                ) as i32,
                ..*old(self)
            }),
            0 <= final(self).scroll_target <= most_scroll(
                final(self).layout@,
                wa,
                gap as int,
                final(self).dock_extra as int,
            ),
    {
        self.scroll_delta(wa, gap, 0);
    }

    /// Pan: the glide aims `px` further along the canvas.
    pub fn scroll_delta(&mut self, wa: Rect, gap: i32, px: i32)
        requires
            old(self).wf(),
            old(self).scrolls(wa, gap as int),
        ensures
            final(self).wf(),
            final(self).scrolls(wa, gap as int),
            *final(self) == (State {
                scroll_target: on_canvas(
                    old(self).scroll_target + px,
                    most_scroll(old(self).layout@, wa, gap as int, old(self).dock_extra as int),
                ) as i32,
                ..*old(self)
            }),
            0 <= final(self).scroll_target <= most_scroll(
                final(self).layout@,
                wa,
                gap as int,
                final(self).dock_extra as int,
            ),
    {
        let canvas = self.canvas_w(wa, gap);
        let most: i32 = canvas - wa.w + self.dock_extra;
        let to: i64 = self.scroll_target as i64 + px as i64;
        self.scroll_target = if to > most as i64 {
            most
        } else if to < 0 {
            0
        } else {
            to as i32
        };
    }

    /// End the glide where it is headed.
    pub fn land_scroll(&mut self)
        requires
            old(self).wf(),
        ensures
            final(self).wf(),
            *final(self) == (State { scroll_x: old(self).scroll_target, ..*old(self) }),
    {
        self.scroll_x = self.scroll_target;
    }

    /// Whether a glide is under way.
    pub fn scroll_animating(&self) -> (b: bool)
        ensures
            b == (self.scroll_x != self.scroll_target),
    {
        self.scroll_x != self.scroll_target
    }

    /// One frame of the glide: a quarter of the way that is left, and at
    /// least a pixel of it.
    pub fn step_scroll(&mut self)
        requires
            old(self).wf(),
        ensures
            final(self).wf(),
            *final(self) == (State {
                scroll_x: glided(old(self).scroll_x as int, old(self).scroll_target as int) as i32,
                ..*old(self)
            }),
    {
        let (x, to) = (self.scroll_x as i64, self.scroll_target as i64);
        let next: i64 = if to >= x {
            x + (to - x + 3) / 4
        } else {
            x - (x - to + 3) / 4
        };
        self.scroll_x = next as i32;
    }

    /// Aim the glide just far enough that the focused split's column comes
    /// into view.
    pub fn ensure_in_view(&mut self, wa: Rect, gap: i32)
        requires
            old(self).wf(),
            old(self).scrolls(wa, gap as int),
        ensures
            final(self).wf(),
            final(self).scrolls(wa, gap as int),
            *final(self) == (State { scroll_target: final(self).scroll_target, ..*old(self) }),
            final(self).scroll_target == view_of(
                old(self).layout@,
                old(self).focused(),
                old(self).scroll_target as int,
                wa,
                gap as int,
            ),
            0 <= final(self).scroll_target,
            old(self).scroll_target <= most_scroll(
                old(self).layout@,
                wa,
                gap as int,
                old(self).dock_extra as int,
            ) ==> final(self).scroll_target <= most_scroll(
                final(self).layout@,
                wa,
                gap as int,
                final(self).dock_extra as int,
            ),
    {
        let f = self.focused_leaf_valid();
        let ghost v = self.layout@;
        let cols = self.layout.col_rects(wa, gap);
        let p = match self.layout.locate(f) {
            Some(p) => p,
            None => {
                return;
            },
        };
        proof {
            assert(v.sits(f, p));
            lemma_width(v, wa, gap as int);
            lemma_column_in_strip(v, p.col as int, wa, gap as int);
        }
        let col = cols[p.col];
        let left: i32 = col.x - wa.x - gap;
        let room: i32 = col.w + 2 * gap;
        let right: i32 = left + (room - wa.w);
        self.scroll_target = min_i32(max_i32(self.scroll_target, right), left);
    }

    /// Bring the focused split into view at once.
    pub fn scroll_focus_into_view(&mut self, wa: Rect, gap: i32)
        requires
            old(self).wf(),
            old(self).scrolls(wa, gap as int),
        ensures
            final(self).wf(),
            final(self).scroll_target == view_of(
                old(self).layout@,
                old(self).focused(),
                old(self).scroll_target as int,
                wa,
                gap as int,
            ),
            final(self).scroll_x == final(self).scroll_target,
            *final(self) == (State {
                scroll_x: final(self).scroll_x,
                scroll_target: final(self).scroll_target,
                ..*old(self)
            }),
    {
        self.ensure_in_view(wa, gap);
        self.land_scroll();
    }

    /// What every change of the layout ends with: the viewport aims at the
    /// canvas and at the focused split. It glides there, but where a
    /// transition is about to run it lands, since the transition holds the
    /// placements of this moment.
    pub fn commit_layout(&mut self, wa: Rect, gap: i32, animate: bool)
        requires
            old(self).wf(),
            old(self).scrolls(wa, gap as int),
        ensures
            final(self).wf(),
            final(self).scrolls(wa, gap as int),
            final(self).scroll_target == aim_of(*old(self), old(self).layout@, wa, gap as int),
            final(self).scroll_x == scroll_then(
                animate,
                final(self).scroll_target as int,
                old(self).scroll_x as int,
            ),
            *final(self) == (State {
                scroll_x: final(self).scroll_x,
                scroll_target: final(self).scroll_target,
                ..*old(self)
            }),
            0 <= final(self).scroll_target <= most_scroll(
                final(self).layout@,
                wa,
                gap as int,
                final(self).dock_extra as int,
            ),
    {
        self.clamp_scroll(wa, gap);
        self.ensure_in_view(wa, gap);
        if animate {
            self.land_scroll();
        }
    }

    /// Bring a window's split forward: focused, back from its restore strip,
    /// and in view. Where a transition is asked for there is one if the
    /// split came back; `animating` tells whether one is due already.
    pub fn bring_into_layout(
        &mut self,
        win: Win,
        wa: Rect,
        gap: i32,
        animate: bool,
        animating: bool,
    ) -> (due: bool)
        requires
            old(self).wf(),
            scrolls_on(
                activated(old(self).layout@, win),
                old(self).dock_extra as int,
                wa,
                gap as int,
            ),
            0 <= old(self).scroll_x,
            0 <= old(self).scroll_target,
        ensures
            final(self).wf(),
            shown(final(self).layout@) == shown(old(self).layout@),
            final(self).layout@ == activated(old(self).layout@, win),
            due == (if animate {
                shown(old(self).layout@).contains(win) && old(self).layout@.leaf_of(
                    home_of(old(self).layout@, win),
                ).minimized
            } else {
                animating
            }),
            final(self).focus == (if shown(old(self).layout@).contains(win) {
                home_of(old(self).layout@, win)
            } else {
                old(self).focus
            }),
            final(self).scroll_target == view_of(
                final(self).layout@,
                final(self).focused(),
                on_canvas(
                    old(self).scroll_target as int,
                    most_scroll(
                        final(self).layout@,
                        wa,
                        gap as int,
                        old(self).dock_extra as int,
                    ),
                ),
                wa,
                gap as int,
            ),
            final(self).scroll_x == scroll_then(
                due,
                final(self).scroll_target as int,
                old(self).scroll_x as int,
            ),
            final(self).dock_extra == old(self).dock_extra,
            final(self).aim == old(self).aim,
            final(self).badged == old(self).badged,
    {
        let back = match self.activate_client(win) {
            Activation::Unminimized => true,
            Activation::Unchanged => false,
        };
        let due = if animate {
            back
        } else {
            animating
        };
        self.commit_layout(wa, gap, due);
        due
    }

    /// Where the splits that are in view are drawn, in strip order.
    pub fn compute_placements(&self, wa: Rect, gap: i32) -> (placed: Vec<Placement>)
        requires
            self.wf(),
            self.scrolls(wa, gap as int),
        ensures
            placed@ == ({
                let geos = self.layout@.rects_to(self.layout@.columns.len() as int, wa, gap as int);
                placements_to(
                    self.layout@,
                    self.focused(),
                    geos,
                    self.scroll_x as int,
                    wa,
                    geos.len() as int,
                )
            }),
    {
        let ghost v = self.layout@;
        let f = self.focused_leaf_valid();
        let geos = self.layout.compute(wa, gap);
        let mut placed: Vec<Placement> = Vec::new();
        let mut k: usize = 0;
        while k < geos.len()
            invariant
                v == self.layout@,
                self.wf(),
                self.scrolls(wa, gap as int),
                f == self.focused(),
                geos@ == v.rects_to(v.columns.len() as int, wa, gap as int),
                k <= geos@.len(),
                placed@ == placements_to(v, f, geos@, self.scroll_x as int, wa, k as int),
            decreases geos@.len() - k,
        {
            let (leaf, r) = geos[k];
            proof {
                lemma_rects_right_of(v, v.columns.len() as int, wa, gap as int, k as int);
            }
            let x: i64 = r.x as i64 - self.scroll_x as i64;
            if x < wa.x as i64 + wa.w as i64 && x + r.w as i64 > wa.x as i64 {
                let active_client = match self.layout.leaf(leaf) {
                    Some(l) => l.client,
                    None => None,
                };
                placed.push(
                    Placement {
                        leaf,
                        target: Rect { x: r.x - self.scroll_x, y: r.y, w: r.w, h: r.h },
                        active_client,
                        focused: leaf == f,
                    },
                );
            }
            k = k + 1;
        }
        placed
    }
}

/// The strip with split `leaf` minimized, or restored.
pub open spec fn minimize_toggled(v: Strip, leaf: NodeId) -> Strip {
    let l = v.leaf_of(leaf);
    with_leaf(v, leaf, Leaf { client: l.client, minimized: !l.minimized, color: l.color })
}

/// The width a column `px` wide gets from one step of growing or shrinking.
pub open spec fn stepped_width(px: int, grow: bool, step: int, least: int, most: int) -> int {
    bounded(
        if grow {
            imin(px + step, i32::MAX as int)
        } else {
            px - step
        },
        least,
        most,
    )
}

/// Whether split `f` is high enough to be divided into two.
pub open spec fn divisible(v: Strip, f: NodeId, wa: Rect, gap: int, least: int) -> bool {
    let p = v.pos_of(f);
    v.rect(p.col as int, p.row as int, wa, gap).h >= 2 * least + gap
}

/// Two rows have no more than their column.
proof fn lemma_two_shares(rows: Seq<Row>, idx: int)
    requires
        0 <= idx < rows.len() - 1,
    ensures
        rows[idx].frac + rows[idx + 1].frac <= share_total(rows),
{
    let less = rows.update(idx, with_frac(rows[idx], 0));
    lemma_shares_update(rows, idx, with_frac(rows[idx], 0));
    lemma_share_le_total(less, idx + 1, rows.len() as int);
}

/// The strip with column `c` made `w` pixels wide.
pub open spec fn with_width(v: Strip, c: int, w: int) -> Strip {
    v.with_columns(
        v.columns.update(c, StripColumn { width: ColWidth::Px(w as i32), rows: v.columns[c].rows }),
    )
}

/// The width a column gets when `px` is asked for.
pub open spec fn bounded(px: int, least: int, most: int) -> int {
    imax(imin(px, most), least)
}

/// The share of the upper of two rows that together have `total`, when it
/// gets `first` of their `combined` pixels, and at least one pixel is left
/// to each.
pub open spec fn upper_share(total: int, first: int, combined: int) -> int {
    total * imax(imin(first, combined - 1), 1) / combined
}

/// The strip with rows `idx` and `idx + 1` of column `col` sharing what they
/// have anew.
pub open spec fn reshared(v: Strip, col: int, idx: int, first: int, combined: int) -> Strip {
    let rows = v.columns[col].rows;
    let total = rows[idx].frac + rows[idx + 1].frac;
    let upper = upper_share(total, first, combined);
    v.with_rows(
        col,
        rows.update(idx, with_frac(rows[idx], upper)).update(
            idx + 1,
            with_frac(rows[idx + 1], total - upper),
        ),
    )
}

impl State {
    /// Collapse a split to its restore strip, or bring it back; whether
    /// there is such a split.
    pub fn toggle_minimize(&mut self, leaf: NodeId) -> (changed: bool)
        requires
            old(self).wf(),
        ensures
            final(self).wf(),
            shown(final(self).layout@) == shown(old(self).layout@),
            changed == old(self).layout@.live(leaf),
            final(self).layout@ == (if changed {
                minimize_toggled(old(self).layout@, leaf)
            } else {
                old(self).layout@
            }),
            final(self).focus == old(self).focus,
            final(self).scroll_x == old(self).scroll_x,
            final(self).scroll_target == old(self).scroll_target,
            final(self).dock_extra == old(self).dock_extra,
            final(self).aim == old(self).aim,
            final(self).badged == old(self).badged,
    {
        let ghost v = self.layout@;
        let changed = match self.layout.leaf_mut(leaf) {
            Some(l) => {
                l.minimized = !l.minimized;
                true
            },
            None => false,
        };
        proof {
            if v.live(leaf) {
                let n = self.layout@;
                let p = v.pos_of(leaf);
                assert(v.sits(leaf, p));
                assert forall|q: Pos| n.has(q) <==> #[trigger] v.has(q) by {
                    if q.col != p.col && q.col < v.columns.len() {
                        assert(n.columns[q.col as int] == v.columns[q.col as int]);
                    }
                }
                assert forall|q: Pos| v.has(q) implies (#[trigger] n.row(q)).id == v.row(q).id
                    && n.row(q).leaf.client == v.row(q).leaf.client by {
                    if q.col != p.col {
                        assert(n.columns[q.col as int] == v.columns[q.col as int]);
                    }
                }
                lemma_same_homes(v, n);
            }
        }
        changed
    }

    /// Give a column another width, between `least` and `most`; by how much
    /// that changed it. A column of restore strips keeps its width.
    pub fn resize_col(
        &mut self,
        wa: Rect,
        gap: i32,
        col: usize,
        px: i32,
        least: i32,
        most: i32,
    ) -> (applied: i32)
        requires
            old(self).wf(),
            old(self).layout@.fits(wa, gap as int),
            gap <= least <= most,
        ensures
            final(self).wf(),
            shown(final(self).layout@) == shown(old(self).layout@),
            ({
                let v = old(self).layout@;
                if col < v.columns.len() && !v.pinned(col as int) {
                    let w = bounded(px as int, least as int, most as int);
                    &&& final(self).layout@ == with_width(v, col as int, w)
                    &&& applied == w - v.px(col as int, wa.w as int, gap as int)
                } else {
                    applied == 0 && final(self).layout@ == v
                }
            }),
            final(self).focus == old(self).focus,
            final(self).scroll_x == old(self).scroll_x,
            final(self).scroll_target == old(self).scroll_target,
            final(self).dock_extra == old(self).dock_extra,
            final(self).aim == old(self).aim,
            final(self).badged == old(self).badged,
    {
        let ghost v = self.layout@;
        if col >= self.layout.ncols() || self.layout.col_pinned(col) {
            return 0;
        }
        proof {
            lemma_col_x_bounds(v, col as int, wa, gap as int);
        }
        let was = self.layout.col_px(col, wa.w, gap);
        let w = max_i32(min_i32(px, most), least);
        self.layout.set_col_width(col, ColWidth::Px(w));
        proof {
            let n = self.layout@;
            assert forall|q: Pos| n.has(q) <==> #[trigger] v.has(q) by {
            }
            lemma_same_homes(v, n);
        }
        w - was
    }

    /// Pan the viewport along with a column left of what it shows; a glide
    /// goes on from there.
    pub fn shift_scroll(&mut self, by: i32)
        requires
            old(self).wf(),
        ensures
            final(self).wf(),
            *final(self) == (State {
                scroll_x: shifted(old(self).scroll_x as int, by as int) as i32,
                scroll_target: shifted(old(self).scroll_target as int, by as int) as i32,
                ..*old(self)
            }),
    {
        self.scroll_x = shift(self.scroll_x, by);
        self.scroll_target = shift(self.scroll_target, by);
    }

    /// Widen or narrow the focused split's column by `step`; whether that
    /// changed it.
    pub fn resize_focused(
        &mut self,
        wa: Rect,
        gap: i32,
        grow: bool,
        step: i32,
        least: i32,
        most: i32,
    ) -> (changed: bool)
        requires
            old(self).wf(),
            old(self).layout@.fits(wa, gap as int),
            gap <= least <= most,
            0 <= step,
        ensures
            final(self).wf(),
            shown(final(self).layout@) == shown(old(self).layout@),
            ({
                let v = old(self).layout@;
                let c = v.pos_of(old(self).focused()).col as int;
                let px = v.px(c, wa.w as int, gap as int);
                let w = stepped_width(px, grow, step as int, least as int, most as int);
                if v.pinned(c) {
                    !changed && final(self).layout@ == v
                } else {
                    changed == (w != px) && final(self).layout@ == with_width(v, c, w)
                }
            }),
            final(self).focus == old(self).focus,
            final(self).scroll_x == old(self).scroll_x,
            final(self).scroll_target == old(self).scroll_target,
            final(self).dock_extra == old(self).dock_extra,
            final(self).aim == old(self).aim,
            final(self).badged == old(self).badged,
    {
        let f = self.focused_leaf_valid();
        let ghost v = self.layout@;
        let p = match self.layout.locate(f) {
            Some(p) => p,
            None => {
                return false;
            },
        };
        proof {
            assert(v.sits(f, p));
            lemma_col_x_bounds(v, p.col as int, wa, gap as int);
        }
        let px = self.layout.col_px(p.col, wa.w, gap);
        let want: i32 = if grow {
            if px > i32::MAX - step {
                i32::MAX
            } else {
                px + step
            }
        } else {
            px - step
        };
        self.resize_col(wa, gap, p.col, want, least, most) != 0
    }

    /// Share the height of two stacked rows anew: the upper one gets `first`
    /// of their `combined` pixels. Whether there are two such rows.
    pub fn resize_rows(&mut self, col: usize, idx: usize, first: i32, combined: i32) -> (changed: bool)
        requires
            old(self).wf(),
        ensures
            final(self).wf(),
            shown(final(self).layout@) == shown(old(self).layout@),
            changed == (combined > 1 && col < old(self).layout@.columns.len() && idx + 1 < old(
                self,
            ).layout@.columns[col as int].rows.len()),
            final(self).layout@ == (if changed {
                reshared(
                    old(self).layout@,
                    col as int,
                    idx as int,
                    first as int,
                    combined as int,
                )
            } else {
                old(self).layout@
            }),
            changed ==> share_total(final(self).layout@.columns[col as int].rows) == share_total(
                old(self).layout@.columns[col as int].rows,
            ),
            final(self).focus == old(self).focus,
            final(self).scroll_x == old(self).scroll_x,
            final(self).scroll_target == old(self).scroll_target,
            final(self).dock_extra == old(self).dock_extra,
            final(self).aim == old(self).aim,
            final(self).badged == old(self).badged,
    {
        let ghost v = self.layout@;
        if combined <= 1 || col >= self.layout.ncols() {
            return false;
        }
        let n: usize = self.layout.col_len(col);
        if n < 2 || idx >= n - 1 {
            return false;
        }
        let above = Pos { col, row: idx };
        let below = Pos { col, row: idx + 1 };
        let (a, b) = match (self.layout.row_frac(above), self.layout.row_frac(below)) {
            (Some(a), Some(b)) => (a, b),
            _ => {
                return false;
            },
        };
        let ghost rows = v.columns[col as int].rows;
        proof {
            lemma_two_shares(rows, idx as int);
        }
        let total: u64 = a + b;
        let part: u128 = max_i32(min_i32(first, combined - 1), 1) as u128;
        proof {
            let f = imax(imin(first as int, combined - 1), 1);
            assert(part == f);
            assert(0 <= total * f <= total * combined && total * combined <= u128::MAX)
                by (nonlinear_arith)
                requires
                    0 <= total <= u64::MAX,
                    1 <= f <= combined,
                    combined <= 0x7fff_ffff,
            ;
            assert(total * f / combined as int <= total) by (nonlinear_arith)
                requires
                    total * f <= total * combined,
                    combined > 1,
                    0 <= total,
            ;
            assert(0 <= total * f / combined as int) by (nonlinear_arith)
                requires
                    0 <= total * f,
                    combined > 1,
            ;
        }
        let upper: u64 = (total as u128 * part / combined as u128) as u64;
        proof {
            assert(upper == upper_share(total as int, first as int, combined as int));
        }
        proof {
            let r1 = rows.update(idx + 1, with_frac(rows[idx + 1], 0));
            let r2 = r1.update(idx as int, with_frac(r1[idx as int], upper as int));
            let last = with_frac(r2[idx + 1], total - upper);
            lemma_shares_update(rows, idx + 1, with_frac(rows[idx + 1], 0));
            lemma_shares_update(r1, idx as int, with_frac(r1[idx as int], upper as int));
            lemma_shares_update(r2, idx + 1, last);
            assert(r2.update(idx + 1, last) =~= rows.update(
                idx as int,
                with_frac(rows[idx as int], upper as int),
            ).update(idx + 1, with_frac(rows[idx + 1], total - upper)));
        }
        self.layout.set_row_frac(below, 0);
        self.layout.set_row_frac(above, upper);
        self.layout.set_row_frac(below, total - upper);
        proof {
            let n = self.layout@;
            assert(n.columns =~= reshared(
                v,
                col as int,
                idx as int,
                first as int,
                combined as int,
            ).columns);
            assert forall|q: Pos| n.has(q) <==> #[trigger] v.has(q) by {
                if q.col != col && q.col < v.columns.len() {
                    assert(n.columns[q.col as int] == v.columns[q.col as int]);
                }
            }
            assert forall|q: Pos| v.has(q) implies (#[trigger] n.row(q)).id == v.row(q).id && n.row(
                q,
            ).leaf.client == v.row(q).leaf.client by {
                if q.col != col {
                    assert(n.columns[q.col as int] == v.columns[q.col as int]);
                }
            }
            lemma_same_homes(v, n);
        }
        true
    }
}

/// The strip with an empty split stacked below `f`, each having half of
/// what `f` had.
pub open spec fn stacked_below(v: Strip, f: NodeId) -> Strip {
    let p = v.pos_of(f);
    let rows = v.columns[p.col as int].rows;
    let whole = rows[p.row as int].frac;
    let kept = whole * (SHARE_ONE / 2) / SHARE_ONE as int;
    v.minted().with_rows(
        p.col as int,
        rows.update(p.row as int, with_frac(rows[p.row as int], kept)).insert(
            p.row + 1,
            v.fresh_row(whole - kept),
        ),
    )
}

/// Every split's rect is listed.
proof fn lemma_rect_listed(v: Strip, n: int, wa: Rect, gap: int, p: Pos)
    requires
        0 <= n <= v.columns.len(),
        v.has(p),
        p.col < n,
    ensures
        exists|k: int|
            0 <= k < v.rects_to(n, wa, gap).len() && (#[trigger] v.rects_to(n, wa, gap)[k]).0
                == v.row(p).id,
    decreases n,
{
    let before = v.rects_to(n - 1, wa, gap);
    if p.col == n - 1 {
        assert(v.rects_to(n, wa, gap)[before.len() + p.row].0 == v.row(p).id);
    } else {
        lemma_rect_listed(v, n - 1, wa, gap, p);
        let k = choose|k: int| 0 <= k < before.len() && (#[trigger] before[k]).0 == v.row(p).id;
        assert(v.rects_to(n, wa, gap)[k] == before[k]);
    }
}

/// What is listed for a split is its rect.
proof fn lemma_listed_once(v: Strip, n: int, wa: Rect, gap: int, k: int, p: Pos)
    requires
        v.ids_unique(),
        small(v),
        v.has(p),
        0 <= n <= v.columns.len(),
        0 <= k < v.rects_to(n, wa, gap).len(),
        v.rects_to(n, wa, gap)[k].0 == v.row(p).id,
    ensures
        v.rects_to(n, wa, gap)[k].1 == v.rect(p.col as int, p.row as int, wa, gap),
    decreases n,
{
    if n > 0 {
        let before = v.rects_to(n - 1, wa, gap);
        if k < before.len() {
            lemma_listed_once(v, n - 1, wa, gap, k, p);
        } else {
            let r = k - before.len();
            assert(v.columns[n - 1].rows.len() <= usize::MAX);
            let q = Pos { col: (n - 1) as usize, row: r as usize };
            assert(v.row(q).id == v.row(p).id);
            assert(q == p);
        }
    }
}

/// Stacking an empty split below another keeps every window in place.
proof fn lemma_stacked(v: Strip, f: NodeId)
    requires
        v.wf(),
        small(v),
        small(stacked_below(v, f)),
        stacked_below(v, f).wf(),
        v.live(f),
    ensures
        shown(stacked_below(v, f)) == shown(v),
        once(v) ==> once(stacked_below(v, f)),
{
    let n = stacked_below(v, f);
    let p = v.pos_of(f);
    assert(v.sits(f, p));
    let there = |q: Pos|
        if q.col == p.col && q.row > p.row {
            Pos { col: q.col, row: (q.row + 1) as usize }
        } else {
            q
        };
    let back = |q: Pos|
        if q.col == p.col && q.row > p.row {
            Pos { col: q.col, row: (q.row - 1) as usize }
        } else {
            q
        };
    let fresh = Pos { col: p.col, row: (p.row + 1) as usize };
    assert(n.columns[p.col as int].rows.len() == v.columns[p.col as int].rows.len() + 1);
    assert(n.columns[p.col as int].rows.len() <= usize::MAX);
    assert forall|q: Pos| #![trigger n.row(q)] n.has(q) && q != fresh implies v.has(back(q))
        && v.row(back(q)).id == n.row(q).id && v.row(back(q)).leaf == n.row(q).leaf by {
        if q.col != p.col {
            assert(n.columns[q.col as int] == v.columns[q.col as int]);
        }
    }
    assert forall|q: Pos| #![trigger v.row(q)] v.has(q) implies n.has(there(q)) && n.row(there(q)).id
        == v.row(q).id && n.row(there(q)).leaf == v.row(q).leaf by {
        if q.col != p.col {
            assert(n.columns[q.col as int] == v.columns[q.col as int]);
        }
    }
    assert(n.row(fresh).leaf.client is None);
    assert forall|w: Win, k: NodeId| #[trigger] homes(n, w, k) <==> homes(v, w, k) by {
        if homes(n, w, k) {
            let q = n.pos_of(k);
            assert(n.sits(k, q));
            assert(n.row(q).id == k);
            assert(q != fresh);
            assert(v.sits(k, back(q)));
            lemma_pos(v, k, back(q));
        }
        if homes(v, w, k) {
            let q = v.pos_of(k);
            assert(v.sits(k, q));
            assert(v.row(q).id == k);
            assert(n.sits(k, there(q)));
            lemma_pos(n, k, there(q));
        }
    }
    lemma_same_shown(v, n);
}

impl State {
    /// Stack an empty split below the focused one if its frame is tall
    /// enough for two rows of `least` pixels, and focus it.
    pub fn stack_below(&mut self, wa: Rect, gap: i32, least: i32) -> (changed: bool)
        requires
            old(self).wf(),
            old(self).layout@.fits(wa, gap as int),
            old(self).layout@.next_id < u32::MAX,
            0 <= least <= 0x1000_0000,
            gap <= 0x1000_0000,
        ensures
            final(self).wf(),
            changed == divisible(old(self).layout@, old(self).focused(), wa, gap as int, least as int),
            final(self).layout@ == (if changed {
                stacked_below(old(self).layout@, old(self).focused())
            } else {
                old(self).layout@
            }),
            final(self).focus == (if changed {
                NodeId(old(self).layout@.next_id)
            } else {
                old(self).focus
            }),
            shown(final(self).layout@) == shown(old(self).layout@),
            final(self).scroll_x == old(self).scroll_x,
            final(self).scroll_target == old(self).scroll_target,
            final(self).dock_extra == old(self).dock_extra,
            final(self).aim == old(self).aim,
            final(self).badged == old(self).badged,
    {
        let ghost v = self.layout@;
        let f = self.focused_leaf_valid();
        let geos = self.layout.compute(wa, gap);
        let ghost p = v.pos_of(f);
        let ghost cols = v.columns.len() as int;
        proof {
            assert(v.sits(f, p));
            lemma_rect_listed(v, cols, wa, gap as int, p);
        }
        let mut k: usize = 0;
        while k < geos.len() && geos[k].0 != f
            invariant
                k <= geos@.len(),
                forall|j: int| 0 <= j < k ==> (#[trigger] geos@[j]).0 != f,
            decreases geos@.len() - k,
        {
            k = k + 1;
        }
        if k >= geos.len() {
            return false;
        }
        proof {
            lemma_listed_once(v, cols, wa, gap as int, k as int, p);
        }
        if geos[k].1.h < 2 * least + gap {
            return false;
        }
        proof {
            self.layout.lemma_small();
        }
        match self.layout.split_below(f, SHARE_ONE / 2) {
            Some(id) => {
                self.focus = id;
            },
            None => {},
        }
        proof {
            let n = self.layout@;
            self.layout.lemma_small();
            let rows = v.columns[p.col as int].rows;
            assert(n.columns[p.col as int].rows.len() == rows.len() + 1);
            lemma_stacked(v, f);
        }
        true
    }

    /// Close the split at `leaf`: an occupied one's window is asked to
    /// close, an empty placeholder goes on the spot, and the sole one stays.
    pub fn close_leaf(&mut self, leaf: NodeId) -> (outcome: CloseOutcome)
        requires
            old(self).wf(),
        ensures
            final(self).wf(),
            shown(final(self).layout@) == shown(old(self).layout@),
            outcome == close_of(old(self).layout@, leaf),
            final(self).layout@ == (if outcome is Removed {
                old(self).layout@.removed(old(self).layout@.pos_of(leaf))
            } else {
                old(self).layout@
            }),
            final(self).focus == (if outcome is Removed {
                outcome->Removed_0
            } else {
                old(self).focus
            }),
            final(self).scroll_x == old(self).scroll_x,
            final(self).scroll_target == old(self).scroll_target,
            final(self).dock_extra == old(self).dock_extra,
            final(self).aim == old(self).aim,
            final(self).badged == old(self).badged,
    {
        let ghost v = self.layout@;
        proof {
            self.layout.lemma_small();
        }
        let outcome = close_split(&mut self.layout, leaf);
        proof {
            if v.live(leaf) && v.leaf_of(leaf).client is None && !v.sole() {
                let n = self.layout@;
                assert(v.sits(leaf, v.pos_of(leaf)));
                lemma_removed(v, v.pos_of(leaf));
                assert forall|w: Win, k: NodeId| #[trigger] homes(n, w, k) <==> homes(v, w, k) by {
                    assert(n.live(k) <==> v.live(k) && k != leaf);
                }
                lemma_same_shown(v, n);
            }
        }
        if let CloseOutcome::Removed(next) = outcome {
            self.focus = next;
        }
        outcome
    }

    /// Drop a dragged split; whether the strip changed. A moved split takes
    /// the focus along.
    pub fn drop_leaf(&mut self, leaf: NodeId, drop: MoveDrop, default_w: ColWidth) -> (changed: bool)
        requires
            old(self).wf(),
            addressable(old(self).layout@),
        ensures
            final(self).wf(),
            shown(final(self).layout@) == shown(old(self).layout@),
            changed == drop_changes(old(self).layout@, leaf, drop),
            final(self).layout@ == (if changed {
                dropped_strip(old(self).layout@, leaf, drop, default_w)
            } else {
                old(self).layout@
            }),
            final(self).focus == (if changed {
                leaf
            } else {
                old(self).focus
            }),
            final(self).scroll_x == old(self).scroll_x,
            final(self).scroll_target == old(self).scroll_target,
            final(self).dock_extra == old(self).dock_extra,
            final(self).aim == old(self).aim,
            final(self).badged == old(self).badged,
    {
        let ghost v = self.layout@;
        let changed = drop_split(&mut self.layout, leaf, drop, default_w);
        proof {
            if changed {
                match drop {
                    MoveDrop::ColumnAt(idx) => moving_beside_keeps_splits(
                        v,
                        leaf,
                        beside_of(v, leaf, idx as int),
                        false,
                        default_w,
                    ),
                    MoveDrop::Column(dst, before) => moving_beside_keeps_splits(
                        v,
                        leaf,
                        dst,
                        before,
                        default_w,
                    ),
                    MoveDrop::Stack(dst, before) => moving_into_a_stack_keeps_splits(
                        v,
                        leaf,
                        dst,
                        before,
                    ),
                }
                lemma_kept_homes(v, self.layout@);
            }
        }
        if changed {
            self.focus = leaf;
        }
        changed
    }

    /// Move the focused split past its neighbour; whether the strip changed.
    pub fn move_focused_split(&mut self, next: bool, default_w: ColWidth) -> (changed: bool)
        requires
            old(self).wf(),
            addressable(old(self).layout@),
        ensures
            final(self).wf(),
            shown(final(self).layout@) == shown(old(self).layout@),
            ({
                let v = old(self).layout@;
                let f = old(self).focused();
                match neighbour_of(v, f, next) {
                    Some(dst) => {
                        &&& changed == v.moves_beside(f, dst, !next)
                        &&& final(self).layout@ == (if changed {
                            v.moved_beside(f, dst, !next, default_w)
                        } else {
                            v
                        })
                        &&& final(self).focus == (if changed {
                            f
                        } else {
                            old(self).focus
                        })
                    },
                    None => !changed && *final(self) == *old(self),
                }
            }),
            final(self).scroll_x == old(self).scroll_x,
            final(self).scroll_target == old(self).scroll_target,
            final(self).dock_extra == old(self).dock_extra,
            final(self).aim == old(self).aim,
            final(self).badged == old(self).badged,
    {
        let f = self.focused_leaf_valid();
        match self.neighbour(next) {
            Some(dst) => self.drop_leaf(f, MoveDrop::Column(dst, !next), default_w),
            None => false,
        }
    }
}

/// After a change is committed the focused split is in view: its column's
/// left end with the margin always, the whole column with its margins where
/// the viewport is wide enough.
pub proof fn the_focused_split_is_in_view(v: Strip, f: NodeId, s: int, wa: Rect, gap: int)
    ensures
        ({
            let t = view_of(v, f, s, wa, gap);
            let c = v.pos_of(f).col as int;
            let x = v.col_x(c, wa, gap) - t;
            let w = v.px(c, wa.w as int, gap);
            &&& wa.x + gap <= x
            &&& w + 2 * gap <= wa.w ==> x + w + gap <= wa.right()
        }),
{
}

/// The taskbar loses nobody: it lists exactly the windows that have a split,
/// each with the split that shows it.
pub proof fn the_bar_lists_every_window(v: Strip, w: Win, id: NodeId)
    requires
        v.wf(),
        addressable(v),
    ensures
        ({
            let ids = v.ids_to(v.columns.len() as int);
            bar_to(v, ids, ids.len() as int).contains((w, id)) <==> homes(v, w, id)
        }),
{
    let ids = v.ids_to(v.columns.len() as int);
    strip_order_lists_every_split_once(v);
    lemma_bar(v, ids, ids.len() as int, w, id);
    assert(ids.take(ids.len() as int) =~= ids);
    if v.live(id) {
        assert(ids.contains(id));
    }
}

proof fn lemma_bar(v: Strip, ids: Seq<NodeId>, n: int, w: Win, id: NodeId)
    requires
        0 <= n <= ids.len(),
    ensures
        bar_to(v, ids, n).contains((w, id)) <==> ids.take(n).contains(id) && homes(v, w, id),
    decreases n,
{
    if n > 0 {
        lemma_bar(v, ids, n - 1, w, id);
        let rest = bar_to(v, ids, n - 1);
        let last = ids[n - 1];
        assert(ids.take(n) =~= ids.take(n - 1).push(last));
        assert(ids.take(n).contains(id) <==> ids.take(n - 1).contains(id) || last == id) by {
            if ids.take(n - 1).contains(id) {
                let few = ids.take(n - 1);
                let k = choose|k: int| 0 <= k < few.len() && few[k] == id;
                assert(ids.take(n)[k] == id);
            }
            if last == id {
                assert(ids.take(n)[n - 1] == id);
            }
        }
        match v.leaf_of(last).client {
            Some(c) => if v.live(last) {
                let all = rest.push((c, last));
                if rest.contains((w, id)) {
                    let k = choose|k: int| 0 <= k < rest.len() && rest[k] == (w, id);
                    assert(all[k] == (w, id));
                }
                if (c, last) == (w, id) {
                    assert(all[rest.len() as int] == (w, id));
                }
            },
            None => {},
        }
    }
}

} // verus!
