//! What moving, resizing, scrolling and showing splits promises.

use super::{
    activated, aim_of, bounded, divisible, focus_unpinned, home_of, homes, lemma_with_leaf,
    meets_view, minimize_toggled, most_scroll, neighbour_of, on_canvas, once, place_from,
    placed_in, placement_of, placements_to, reshared, scroll_then, shifted, shown, stacked_below,
    stepped_width, unpinned, unpins_split, upper_share, view_of, with_width, State,
};
use crate::geom::Rect;
use crate::layout::laws::{
    addressable, dividing_opens_a_split_below, strip_order_lists_every_split_once,
};
use crate::layout::{lemma_pos, lemma_removed, small, split_off, ColWidth, Leaf, NodeId, Pos, Strip};
use crate::pointer::Side;
use crate::sizes::SHARE_ONE;
use crate::Win;
use vstd::prelude::*;

verus! {

// --- minimizing and showing ---

/// Law: minimizing a split and restoring it gives the strip back; either
/// step changes nothing but whether that split is minimized.
pub proof fn minimizing_twice_changes_nothing(v: Strip, leaf: NodeId)
    requires
        v.wf(),
        v.live(leaf),
    ensures
        ({
            let n = minimize_toggled(v, leaf);
            &&& n.leaf_of(leaf).minimized == !v.leaf_of(leaf).minimized
            &&& n.leaf_of(leaf).client == v.leaf_of(leaf).client
            &&& n.leaf_of(leaf).color == v.leaf_of(leaf).color
            &&& n.pos_of(leaf) == v.pos_of(leaf)
            &&& n.columns.len() == v.columns.len()
            &&& forall|p: Pos| #[trigger]
                v.has(p) ==> n.has(p) && n.row(p).id == v.row(p).id && n.row(p).frac == v.row(
                    p,
                ).frac && (p != v.pos_of(leaf) ==> n.row(p) == v.row(p))
            &&& forall|c: int|
                0 <= c < v.columns.len() ==> (#[trigger] n.columns[c]).width == v.columns[c].width
            &&& minimize_toggled(n, leaf).columns == v.columns
        }),
{
    let n = minimize_toggled(v, leaf);
    let p = v.pos_of(leaf);
    assert(v.sits(leaf, p));
    let l = v.leaf_of(leaf);
    lemma_with_leaf(v, leaf, Leaf { client: l.client, minimized: !l.minimized, color: l.color });
    assert(n.sits(leaf, p));
    lemma_pos(n, leaf, p);
    let m = minimize_toggled(n, leaf);
    assert(m.columns[p.col as int].rows =~= v.columns[p.col as int].rows);
    assert(m.columns =~= v.columns);
}

/// Law: showing a window restores its split and changes nothing else; a
/// window without a split shows nothing.
pub proof fn showing_a_window_restores_its_split(v: Strip, win: Win, id: NodeId)
    requires
        v.wf(),
        once(v),
        homes(v, win, id),
    ensures
        ({
            let n = activated(v, win);
            &&& !n.leaf_of(id).minimized
            &&& n.leaf_of(id).client == Some(win)
            &&& n.leaf_of(id).color == v.leaf_of(id).color
            &&& n.columns.len() == v.columns.len()
            &&& forall|p: Pos| #[trigger]
                v.has(p) ==> n.has(p) && n.row(p).id == v.row(p).id && (p != v.pos_of(id) ==> n.row(
                    p,
                ) == v.row(p))
            &&& !v.leaf_of(id).minimized ==> n.columns == v.columns
        }),
{
    let n = activated(v, win);
    assert(shown(v).contains(win));
    assert(homes(v, win, home_of(v, win)));
    assert(home_of(v, win) == id);
    let p = v.pos_of(id);
    assert(v.sits(id, p));
    let l = Leaf { client: Some(win), minimized: false, color: v.leaf_of(id).color };
    lemma_with_leaf(v, id, l);
    assert(n.sits(id, p));
    lemma_pos(n, id, p);
    if !v.leaf_of(id).minimized {
        assert(n.columns[p.col as int].rows =~= v.columns[p.col as int].rows);
        assert(n.columns =~= v.columns);
    }
}

// --- focus order ---

proof fn lemma_place_from(ids: Seq<NodeId>, id: NodeId, k: int, i: int)
    requires
        0 <= k <= i < ids.len(),
        ids[i] == id,
        forall|j: int| k <= j < i ==> #[trigger] ids[j] != id,
    ensures
        place_from(ids, id, k) == i,
    decreases i - k,
{
    if k < i {
        lemma_place_from(ids, id, k + 1, i);
    }
}

/// Law: the next split is the one that follows in strip order, columns left
/// to right and rows top to bottom, and after the last comes the first: no
/// split lies between the two. Going on and back again leads home.
pub proof fn neighbours_follow_in_strip_order(v: Strip, f: NodeId)
    requires
        v.wf(),
        addressable(v),
        v.live(f),
        !v.sole(),
    ensures
        ({
            let next = neighbour_of(v, f, true);
            let prev = neighbour_of(v, f, false);
            &&& next is Some && prev is Some
            &&& v.live(next->0) && v.live(prev->0)
            &&& next->0 != f && prev->0 != f
            &&& neighbour_of(v, next->0, false) == Some(f)
            &&& neighbour_of(v, prev->0, true) == Some(f)
        }),
        ({
            let (p, q) = (v.pos_of(f), v.pos_of(neighbour_of(v, f, true)->0));
            let last = p.col + 1 == v.columns.len() && p.row + 1
                == v.columns[p.col as int].rows.len();
            &&& p.row + 1 < v.columns[p.col as int].rows.len() ==> q.col == p.col && q.row == p.row
                + 1
            &&& p.row + 1 == v.columns[p.col as int].rows.len() && !last ==> q.col == p.col + 1
                && q.row == 0
            &&& last ==> q.col == 0 && q.row == 0
        }),
{
    let ids = v.ids_to(v.columns.len() as int);
    strip_order_lists_every_split_once(v);
    lemma_ids_places(v);
    assert(v.sits(f, v.pos_of(f)));
    let i = lemma_place_of(v, f);
    assert forall|j: int| 0 <= j < i implies #[trigger] ids[j] != f by {}
    lemma_place_from(ids, f, 0, i);
    assert(ids.len() >= 2) by {
        lemma_two_ids(v);
    }
    let a = if i + 1 == ids.len() {
        0
    } else {
        i + 1
    };
    let b = if i == 0 {
        ids.len() - 1
    } else {
        i - 1
    };
    assert(neighbour_of(v, f, true) == Some(ids[a]));
    assert(neighbour_of(v, f, false) == Some(ids[b]));
    assert forall|j: int| 0 <= j < a implies #[trigger] ids[j] != ids[a] by {}
    assert forall|j: int| 0 <= j < b implies #[trigger] ids[j] != ids[b] by {}
    lemma_place_from(ids, ids[a], 0, a);
    lemma_place_from(ids, ids[b], 0, b);
    assert(ids.contains(ids[a]) && ids.contains(ids[b]));
    lemma_place_step(v, i);
    lemma_first_place(v);
}

/// The place in strip order of the first row of column `c`.
spec fn rows_before(v: Strip, c: int) -> int
    decreases c,
{
    if c <= 0 {
        0
    } else {
        rows_before(v, c - 1) + v.columns[c - 1].rows.len()
    }
}

proof fn lemma_ids_at(v: Strip, n: int)
    requires
        0 <= n <= v.columns.len(),
    ensures
        v.ids_to(n).len() == rows_before(v, n),
        forall|c: int, r: int|
            #![trigger v.columns[c].rows[r]]
            0 <= c < n && 0 <= r < v.columns[c].rows.len() ==> 0 <= rows_before(v, c) + r
                < v.ids_to(n).len() && v.ids_to(n)[rows_before(v, c) + r]
                == v.columns[c].rows[r].id,
    decreases n,
{
    if n > 0 {
        lemma_ids_at(v, n - 1);
        assert forall|c: int, r: int|
            #![trigger v.columns[c].rows[r]]
            0 <= c < n && 0 <= r < v.columns[c].rows.len() implies 0 <= rows_before(v, c) + r
            < v.ids_to(n).len() && v.ids_to(n)[rows_before(v, c) + r] == v.columns[c].rows[r].id by {
            lemma_rows_before(v, c);
        }
    }
}

proof fn lemma_rows_before(v: Strip, c: int)
    ensures
        0 <= rows_before(v, c),
    decreases c,
{
    if c > 0 {
        lemma_rows_before(v, c - 1);
    }
}

proof fn lemma_ids_places(v: Strip)
    ensures
        v.ids_to(v.columns.len() as int).len() == rows_before(v, v.columns.len() as int),
{
    lemma_ids_at(v, v.columns.len() as int);
}

/// Where a split stands in strip order.
proof fn lemma_place_of(v: Strip, f: NodeId) -> (i: int)
    requires
        v.wf(),
        v.live(f),
    ensures
        0 <= i < v.ids_to(v.columns.len() as int).len(),
        v.ids_to(v.columns.len() as int)[i] == f,
        i == rows_before(v, v.pos_of(f).col as int) + v.pos_of(f).row,
{
    let p = v.pos_of(f);
    assert(v.sits(f, p));
    lemma_ids_at(v, v.columns.len() as int);
    assert(v.columns[p.col as int].rows[p.row as int].id == f);
    rows_before(v, p.col as int) + p.row
}

proof fn lemma_two_ids(v: Strip)
    requires
        v.wf(),
        !v.sole(),
    ensures
        v.ids_to(v.columns.len() as int).len() >= 2,
{
    let n = v.columns.len() as int;
    lemma_ids_at(v, n);
    lemma_rows_before(v, n - 1);
    assert(v.columns[n - 1].rows.len() > 0);
    if n > 1 {
        lemma_rows_before(v, n - 2);
        assert(v.columns[n - 2].rows.len() > 0);
    }
}

/// The split at the next place in strip order sits right after the one at
/// place `i`.
proof fn lemma_place_step(v: Strip, i: int)
    requires
        v.wf(),
        addressable(v),
        0 <= i < v.ids_to(v.columns.len() as int).len(),
    ensures
        ({
            let ids = v.ids_to(v.columns.len() as int);
            let (p, q) = (v.pos_of(ids[i]), v.pos_of(ids[i + 1]));
            let last = p.col + 1 == v.columns.len() && p.row + 1
                == v.columns[p.col as int].rows.len();
            &&& v.has(p)
            &&& last <==> i + 1 == ids.len()
            &&& p.row + 1 < v.columns[p.col as int].rows.len() ==> q.col == p.col && q.row == p.row
                + 1
            &&& p.row + 1 == v.columns[p.col as int].rows.len() && !last ==> q.col == p.col + 1
                && q.row == 0
        }),
{
    let n = v.columns.len() as int;
    let ids = v.ids_to(n);
    strip_order_lists_every_split_once(v);
    assert(ids.contains(ids[i]));
    assert(v.live(ids[i]));
    let p = v.pos_of(ids[i]);
    assert(v.sits(ids[i], p));
    let j = lemma_place_of(v, ids[i]);
    assert(j == i);
    lemma_ids_at(v, n);
    let rows = v.columns[p.col as int].rows;
    if p.row + 1 < rows.len() {
        let q = Pos { col: p.col, row: (p.row + 1) as usize };
        assert(rows[p.row + 1].id == ids[i + 1]);
        assert(v.sits(ids[i + 1], q));
        lemma_pos(v, ids[i + 1], q);
    } else if p.col + 1 < n {
        assert(v.columns[p.col + 1].rows.len() > 0);
        assert(rows_before(v, p.col + 1) == rows_before(v, p.col as int) + rows.len());
        let q = Pos { col: (p.col + 1) as usize, row: 0 };
        assert(v.columns[p.col + 1].rows[0].id == ids[i + 1]);
        assert(v.sits(ids[i + 1], q));
        lemma_pos(v, ids[i + 1], q);
    } else {
        assert(rows_before(v, n) == rows_before(v, n - 1) + rows.len());
    }
}

proof fn lemma_first_place(v: Strip)
    requires
        v.wf(),
    ensures
        v.pos_of(v.ids_to(v.columns.len() as int)[0]) == (Pos { col: 0, row: 0 }),
{
    let n = v.columns.len() as int;
    lemma_ids_at(v, n);
    assert(v.columns[0].rows.len() > 0);
    assert(v.columns[0].rows[0].id == v.ids_to(n)[0]);
    assert(v.sits(v.ids_to(n)[0], Pos { col: 0, row: 0 }));
    lemma_pos(v, v.ids_to(n)[0], Pos { col: 0, row: 0 });
}

// --- resizing ---

proof fn lemma_px_left(v: Strip, c: int, w: int, k: int, vw: int, gap: int)
    requires
        0 <= k <= c < v.columns.len(),
    ensures
        with_width(v, c, w).px_to(k, vw, gap) == v.px_to(k, vw, gap),
    decreases k,
{
    if k > 0 {
        lemma_px_left(v, c, w, k - 1, vw, gap);
        let n = with_width(v, c, w);
        assert(n.columns[k - 1] == v.columns[k - 1]);
        assert(n.pinned(k - 1) == v.pinned(k - 1));
    }
}

proof fn lemma_px_right(v: Strip, c: int, w: int, k: int, vw: int, gap: int)
    requires
        0 <= c < k <= v.columns.len(),
        !v.pinned(c),
        gap <= w <= i32::MAX,
        i32::MIN <= w,
    ensures
        with_width(v, c, w).px(c, vw, gap) == w,
        with_width(v, c, w).px_to(k, vw, gap) == v.px_to(k, vw, gap) + w - v.px(c, vw, gap),
    decreases k,
{
    let n = with_width(v, c, w);
    assert(n.columns[c].rows == v.columns[c].rows);
    assert(n.pinned(c) == v.pinned(c));
    if k == c + 1 {
        lemma_px_left(v, c, w, c, vw, gap);
    } else {
        lemma_px_right(v, c, w, k - 1, vw, gap);
        assert(n.columns[k - 1] == v.columns[k - 1]);
        assert(n.pinned(k - 1) == v.pinned(k - 1));
    }
}

/// Law: a resized column gets just the width it was given; columns left of
/// it and the column's own left edge stay, columns right of it move by the
/// difference, and no other column changes its width.
pub proof fn resizing_a_column_moves_only_what_is_right_of_it(
    v: Strip,
    c: int,
    w: int,
    k: int,
    wa: Rect,
    gap: int,
)
    requires
        0 <= c < v.columns.len(),
        0 <= k < v.columns.len(),
        !v.pinned(c),
        0 <= gap <= w <= i32::MAX,
    ensures
        ({
            let n = with_width(v, c, w);
            &&& n.px(c, wa.w as int, gap) == w
            &&& k <= c ==> n.col_x(k, wa, gap) == v.col_x(k, wa, gap)
            &&& k > c ==> n.col_x(k, wa, gap) == v.col_x(k, wa, gap) + w - v.px(c, wa.w as int, gap)
            &&& k != c ==> n.columns[k] == v.columns[k]
            &&& n.columns[c].rows == v.columns[c].rows
        }),
{
    lemma_px_right(v, c, w, c + 1, wa.w as int, gap);
    if k <= c {
        lemma_px_left(v, c, w, k, wa.w as int, gap);
    } else {
        lemma_px_right(v, c, w, k, wa.w as int, gap);
    }
}

/// Law: a width asked for is granted within the limits and cut to the nearer
/// limit outside them.
pub proof fn widths_keep_to_their_limits(px: int, least: int, most: int)
    requires
        least <= most,
    ensures
        least <= px <= most ==> bounded(px, least, most) == px,
        px < least ==> bounded(px, least, most) == least,
        px > most ==> bounded(px, least, most) == most,
{
}

/// Law: a step grows or shrinks a column by just that much while it stays
/// within the limits, and a step back undoes it; growing never shrinks a
/// column within the limits and shrinking never grows it.
pub proof fn a_step_back_undoes_a_step(px: int, step: int, least: int, most: int)
    requires
        0 <= step,
        least <= px <= most <= i32::MAX,
    ensures
        px + step <= most ==> stepped_width(px, true, step, least, most) == px + step,
        px - step >= least ==> stepped_width(px, false, step, least, most) == px - step,
        px + step <= most ==> stepped_width(
            stepped_width(px, true, step, least, most),
            false,
            step,
            least,
            most,
        ) == px,
        px <= stepped_width(px, true, step, least, most) <= most,
        least <= stepped_width(px, false, step, least, most) <= px,
{
}

/// Law: two rows share their part of the column as their asked heights do:
/// the upper one gets `first` of `combined`, rounded down, each at least one
/// part; what they have together stays, and no other row changes.
pub proof fn resharing_two_rows_keeps_their_sum(
    v: Strip,
    col: int,
    idx: int,
    first: int,
    combined: int,
)
    requires
        v.wf(),
        0 <= col < v.columns.len(),
        0 <= idx < v.columns[col].rows.len() - 1,
        combined > 1,
    ensures
        ({
            let olds = v.columns[col].rows;
            let news = reshared(v, col, idx, first, combined).columns[col].rows;
            let total = olds[idx].frac + olds[idx + 1].frac;
            &&& news.len() == olds.len()
            &&& news[idx].frac + news[idx + 1].frac == total
            &&& 1 <= first <= combined - 1 ==> news[idx].frac * combined <= total * first < (
            news[idx].frac + 1) * combined
            &&& first < 1 ==> news[idx].frac * combined <= total
            &&& first >= combined ==> news[idx + 1].frac * combined <= total + combined - 1
            &&& forall|r: int|
                0 <= r < olds.len() && r != idx && r != idx + 1 ==> #[trigger] news[r] == olds[r]
            &&& forall|r: int|
                0 <= r < olds.len() ==> (#[trigger] news[r]).id == olds[r].id && news[r].leaf
                    == olds[r].leaf
            &&& forall|c: int|
                0 <= c < v.columns.len() && c != col ==> #[trigger] reshared(
                    v,
                    col,
                    idx,
                    first,
                    combined,
                ).columns[c] == v.columns[c]
        }),
{
    let olds = v.columns[col].rows;
    super::lemma_two_shares(olds, idx);
    assert(crate::layout::share_total(v.columns[col].rows) <= u64::MAX);
    let total = olds[idx].frac + olds[idx + 1].frac;
    let part = if first < 1 {
        1int
    } else if first > combined - 1 {
        combined - 1
    } else {
        first
    };
    let upper = upper_share(total, first, combined);
    assert(upper == total * part / combined);
    assert(0 <= upper <= total && upper * combined <= total * part < (upper + 1) * combined)
        by (nonlinear_arith)
        requires
            0 <= total,
            1 <= part < combined,
            upper == total * part / combined,
    ;
    let lower = total - upper;
    if first >= combined {
        assert(lower * combined <= total + combined - 1) by (nonlinear_arith)
            requires
                lower == total - upper,
                total * part < (upper + 1) * combined,
                part == combined - 1,
                0 < combined,
        ;
    }
    let news = reshared(v, col, idx, first, combined).columns[col].rows;
    assert(news[idx].frac == upper);
    assert(news[idx + 1].frac == lower);
}

/// Law: a lower divider never makes the upper row smaller.
pub proof fn a_lower_divider_never_shrinks_the_upper_row(
    total: int,
    a: int,
    b: int,
    combined: int,
)
    requires
        0 <= total,
        a <= b,
        combined > 1,
    ensures
        upper_share(total, a, combined) <= upper_share(total, b, combined),
{
    let x = if a < 1 {
        1int
    } else if a > combined - 1 {
        combined - 1
    } else {
        a
    };
    let y = if b < 1 {
        1int
    } else if b > combined - 1 {
        combined - 1
    } else {
        b
    };
    assert(total * x / combined <= total * y / combined) by (nonlinear_arith)
        requires
            0 <= total,
            x <= y,
            0 < combined,
    ;
}

/// Law: a split may be divided exactly where two splits of the least height
/// and the gap between them fit into its height.
pub proof fn divisible_means_two_fit(
    v: Strip,
    f: NodeId,
    wa: Rect,
    gap: int,
    least: int,
    upper: int,
    lower: int,
)
    ensures
        ({
            let h = v.rect(v.pos_of(f).col as int, v.pos_of(f).row as int, wa, gap).h;
            &&& least <= upper && least <= lower && upper + gap + lower <= h ==> divisible(
                v,
                f,
                wa,
                gap,
                least,
            )
            &&& divisible(v, f, wa, gap, least) ==> least + gap + least <= h
        }),
{
}

/// Law: a split stacked on gives half of its share to an empty split directly
/// below it; every other split keeps its share, its window and its order.
pub proof fn stacking_halves_the_split(v: Strip, f: NodeId)
    requires
        v.wf(),
        addressable(v),
        v.next_id < u32::MAX,
        v.live(f),
    ensures
        ({
            let n = stacked_below(v, f);
            let new = NodeId(v.next_id);
            let (p, q) = (n.pos_of(f), n.pos_of(new));
            let (kept, given) = (n.row(p).frac, n.row(q).frac);
            &&& n.live(new)
            &&& n.leaf_of(new).client is None
            &&& p == v.pos_of(f)
            &&& q.col == p.col
            &&& q.row == p.row + 1
            &&& kept + given == v.row(v.pos_of(f)).frac
            &&& kept <= given <= kept + 1
        }),
        forall|a: NodeId| #[trigger]
            v.live(a) ==> {
                let n = stacked_below(v, f);
                &&& n.leaf_of(a) == v.leaf_of(a)
                &&& a != f ==> n.row(n.pos_of(a)).frac == v.row(v.pos_of(a)).frac
            },
{
    let half = SHARE_ONE as int / 2;
    assert(2 * half == SHARE_ONE);
    assert(stacked_below(v, f) == split_off(v, f, half));
    dividing_opens_a_split_below(v, f, half);
    let n = stacked_below(v, f);
    let kept = n.row(n.pos_of(f)).frac as int;
    let whole = v.row(v.pos_of(f)).frac as int;
    assert(2 * kept <= whole < 2 * kept + 2) by (nonlinear_arith)
        requires
            kept * (2 * half) <= whole * half < (kept + 1) * (2 * half),
            0 < half,
    ;
}

// --- scrolling ---

/// Law: the canvas is scrolled no further than both its ends: a place asked
/// for between them is taken as it is, one beyond an end becomes that end.
pub proof fn scrolling_stops_at_the_ends(s: int, most: int)
    requires
        0 <= most,
    ensures
        0 <= s <= most ==> on_canvas(s, most) == s,
        s < 0 ==> on_canvas(s, most) == 0,
        s > most ==> on_canvas(s, most) == most,
{
}

/// Law: scrolled all the way, the right end of the strip, with its gap, is at
/// the right end of the view, and past it lies just the room for the dock; a
/// strip that fits does not scroll but for that room.
pub proof fn the_last_place_shows_the_strips_end(v: Strip, wa: Rect, gap: int, dock_extra: int)
    requires
        0 < v.columns.len(),
    ensures
        ({
            let c = v.columns.len() - 1;
            let end = v.col_x(c, wa, gap) + v.px(c, wa.w as int, gap) + gap;
            let most = most_scroll(v, wa, gap, dock_extra);
            &&& end >= wa.x + wa.w ==> end - most + dock_extra == wa.x + wa.w
            &&& end < wa.x + wa.w ==> most == dock_extra
        }),
{
    let n = v.columns.len() as int;
    assert(v.px_to(n, wa.w as int, gap) == v.px_to(n - 1, wa.w as int, gap) + v.px(
        n - 1,
        wa.w as int,
        gap,
    ));
}

/// Law: bringing the focused split into view moves the canvas as little as it
/// can: a column that is in view with both its gaps moves nothing, one off
/// the left is shown at the left edge, and one off the right that fits is
/// shown at the right edge.
pub proof fn the_view_moves_as_little_as_it_can(v: Strip, f: NodeId, s: int, wa: Rect, gap: int)
    requires
        0 <= gap,
    ensures
        ({
            let c = v.pos_of(f).col as int;
            let w = v.px(c, wa.w as int, gap);
            let left = v.col_x(c, wa, gap) - gap;
            let right = v.col_x(c, wa, gap) + w + gap;
            let t = view_of(v, f, s, wa, gap);
            &&& wa.x <= left - s && right - s <= wa.x + wa.w ==> t == s
            &&& left - s < wa.x ==> left - t == wa.x
            &&& right - s > wa.x + wa.w && w + 2 * gap <= wa.w ==> right - t == wa.x + wa.w
        }),
{
}

/// Law: shifting the view by some pixels and back gives it back wherever the
/// first shift did not meet an end.
pub proof fn shifting_back_undoes_a_shift(s: int, by: int)
    requires
        0 <= s <= i32::MAX,
        0 <= s + by <= i32::MAX,
    ensures
        shifted(s, by) == s + by,
        shifted(shifted(s, by), -by) == s,
{
}

// --- what is in view ---

/// Law: a split is placed exactly where some pixel column of it is in view:
/// column `x`, if it is both the split's and the view's, and else the first
/// one of either.
pub proof fn splits_in_view_are_placed(r: Rect, scroll_x: int, wa: Rect, x: int)
    requires
        0 < r.w,
        0 < wa.w,
    ensures
        wa.x <= x < wa.x + wa.w && r.x - scroll_x <= x < r.x + r.w - scroll_x ==> meets_view(
            r,
            scroll_x,
            wa,
        ),
        meets_view(r, scroll_x, wa) ==> wa.x <= r.x - scroll_x < wa.x + wa.w || r.x - scroll_x
            <= wa.x < r.x + r.w - scroll_x,
{
}

/// Law: every split in view has one placement, on screen where the scrolled
/// canvas has it, with its window and whether it has the focus; what is out
/// of view has none.
pub proof fn placements_are_the_splits_in_view(
    v: Strip,
    f: NodeId,
    geos: Seq<(NodeId, Rect)>,
    scroll_x: int,
    wa: Rect,
    n: int,
)
    requires
        0 <= n <= geos.len(),
        forall|i: int| 0 <= i < geos.len() ==> v.live((#[trigger] geos[i]).0),
        forall|i: int|
            0 <= i < geos.len() ==> i32::MIN <= (#[trigger] geos[i]).1.x - scroll_x <= i32::MAX,
    ensures
        ({
            let placed = placements_to(v, f, geos, scroll_x, wa, n);
            &&& forall|k: int|
                0 <= k < placed.len() ==> exists|i: int|
                    0 <= i < n && meets_view((#[trigger] geos[i]).1, scroll_x, wa)
                        && (#[trigger] placed[k]).leaf == geos[i].0 && placed[k].target.x
                        == geos[i].1.x - scroll_x && placed[k].target.y == geos[i].1.y
                        && placed[k].target.w == geos[i].1.w && placed[k].target.h == geos[i].1.h
                        && placed[k].active_client == v.leaf_of(geos[i].0).client
                        && placed[k].focused == (geos[i].0 == f)
            &&& forall|i: int|
                0 <= i < n && meets_view((#[trigger] geos[i]).1, scroll_x, wa) ==> exists|k: int|
                    0 <= k < placed.len() && (#[trigger] placed[k]) == placement_of(
                        v,
                        f,
                        geos[i],
                        scroll_x,
                    )
        }),
    decreases n,
{
    if n > 0 {
        placements_are_the_splits_in_view(v, f, geos, scroll_x, wa, n - 1);
        let before = placements_to(v, f, geos, scroll_x, wa, n - 1);
        let placed = placements_to(v, f, geos, scroll_x, wa, n);
        let g = geos[n - 1];
        assert forall|k: int| 0 <= k < placed.len() implies exists|i: int|
            0 <= i < n && meets_view((#[trigger] geos[i]).1, scroll_x, wa) && (
            #[trigger] placed[k]).leaf == geos[i].0 && placed[k].target.x == geos[i].1.x - scroll_x
                && placed[k].target.y == geos[i].1.y && placed[k].target.w == geos[i].1.w
                && placed[k].target.h == geos[i].1.h && placed[k].active_client == v.leaf_of(
                geos[i].0,
            ).client && placed[k].focused == (geos[i].0 == f) by {
            if k < before.len() {
                assert(placed[k] == before[k]);
            } else {
                assert(geos[n - 1] == g);
            }
        }
        assert forall|i: int|
            0 <= i < n && meets_view((#[trigger] geos[i]).1, scroll_x, wa) implies exists|k: int|
            0 <= k < placed.len() && (#[trigger] placed[k]) == placement_of(
                v,
                f,
                geos[i],
                scroll_x,
            ) by {
            if i < n - 1 {
                let k = choose|k: int|
                    0 <= k < before.len() && (#[trigger] before[k]) == placement_of(
                        v,
                        f,
                        geos[i],
                        scroll_x,
                    );
                assert(placed[k] == before[k]);
            } else {
                assert(placed[before.len() as int] == placement_of(v, f, g, scroll_x));
            }
        }
    }
}

// --- windows that leave, and the view after a change ---

/// Law: when a window leaves, the focus stays where it is unless its split
/// goes along and had it; the last split never goes, and neither does one
/// whose window was closed by its badge.
pub proof fn focus_stays_unless_its_split_goes(v: Strip, id: NodeId, keep: bool, focus: NodeId)
    ensures
        focus != id ==> focus_unpinned(v, id, keep, focus) == focus,
        keep ==> focus_unpinned(v, id, keep, focus) == focus,
        v.columns.len() == 1 && v.columns[0].rows.len() == 1 ==> focus_unpinned(
            v,
            id,
            keep,
            focus,
        ) == focus && !unpins_split(v, keep),
        !keep && !(v.columns.len() == 1 && v.columns[0].rows.len() == 1) ==> unpins_split(v, keep)
            && focus_unpinned(v, id, keep, id) == v.focus_after(v.pos_of(id)),
{
}

/// Law: an animated change shows the canvas where it aims at once; any other
/// change leaves it where it is, to glide there.
pub proof fn animated_changes_do_not_glide(target: int, was: int)
    ensures
        scroll_then(true, target, was) == target,
        scroll_then(false, target, was) == was,
{
}

/// Law: after a change the canvas aims at showing the focused split, from the
/// place nearest to where it aimed before that the canvas still has: an aim
/// past the end starts from the end.
pub proof fn changes_aim_at_the_focused_split(s: State, v: Strip, wa: Rect, gap: int)
    requires
        0 <= most_scroll(v, wa, gap, s.dock_extra as int),
        0 <= s.scroll_target,
    ensures
        ({
            let most = most_scroll(v, wa, gap, s.dock_extra as int);
            &&& s.scroll_target <= most ==> aim_of(s, v, wa, gap) == view_of(
                v,
                s.focused(),
                s.scroll_target as int,
                wa,
                gap,
            )
            &&& s.scroll_target > most ==> aim_of(s, v, wa, gap) == view_of(
                v,
                s.focused(),
                most,
                wa,
                gap,
            )
            &&& v == s.layout@ && v.live(s.focus) ==> s.focused() == s.focus
            &&& !v.live(s.focus) && v == s.layout@ ==> s.focused() == v.columns[0].rows[0].id
        }),
{
}

/// Law: without an aim a window goes into the focused split where that is
/// empty, and nothing else changes; where it is not, the window gets a
/// column of its own to the right, as wide as it asked, or the view's width
/// where it asked for none.
pub proof fn windows_open_in_an_empty_split_or_to_its_right(
    v: Strip,
    f: NodeId,
    win: Win,
    want: Option<i32>,
)
    requires
        v.wf(),
        addressable(v),
        v.next_id < u32::MAX,
        v.live(f),
    ensures
        v.leaf_of(f).client is None ==> {
            let (n, id) = placed_in(v, f, win, want, None);
            &&& id == f
            &&& n.leaf_of(f).client == Some(win)
            &&& !n.leaf_of(f).minimized
            &&& n.columns.len() == v.columns.len()
            &&& forall|p: Pos| #[trigger]
                v.has(p) && p != v.pos_of(f) ==> n.row(p) == v.row(p)
        },
        v.leaf_of(f).client is Some ==> placed_in(v, f, win, want, None) == placed_in(
            v,
            f,
            win,
            want,
            Some(Side::Right),
        ),
        ({
            let c = v.pos_of(f).col + 1;
            let n = placed_in(v, f, win, want, Some(Side::Right)).0;
            &&& want is Some ==> n.columns[c].width == ColWidth::Px(want->0)
            &&& want is None ==> n.columns[c].width is Viewport
        }),
{
    let p = v.pos_of(f);
    assert(v.sits(f, p));
    if v.leaf_of(f).client is None {
        let n = placed_in(v, f, win, want, None).0;
        lemma_with_leaf(v, f, super::showing(v.leaf_of(f), win));
        assert(n.sits(f, p));
        lemma_pos(n, f, p);
        assert forall|q: Pos| #[trigger] v.has(q) && q != p implies n.row(q) == v.row(q) by {
            if q.col != p.col {
                assert(n.columns[q.col as int] == v.columns[q.col as int]);
            }
        }
    }
    let m = super::opened(v, f, want, Side::Right);
    crate::layout::lemma_column_opened(v, p.col + 1, super::width_for(want));
    let id = NodeId(v.next_id);
    let q = m.pos_of(id);
    assert(q == (Pos { col: (p.col + 1) as usize, row: 0 }));
    let n = placed_in(v, f, win, want, Some(Side::Right)).0;
    assert(n.columns[p.col + 1].width == m.columns[p.col + 1].width);
}

/// Law: a split whose window left goes too, but the last one, or one that is
/// kept, stays: empty, in its place and its colour, with every other split
/// as it was.
pub proof fn splits_go_with_their_window(v: Strip, id: NodeId, keep: bool)
    requires
        v.wf(),
        small(v),
        v.live(id),
    ensures
        ({
            let last = v.columns.len() == 1 && v.columns[0].rows.len() == 1;
            let n = unpinned(v, id, keep);
            &&& !keep && !last ==> !n.live(id)
            &&& keep || last ==> n.live(id) && n.pos_of(id) == v.pos_of(id) && n.leaf_of(id).client
                is None && n.leaf_of(id).color == v.leaf_of(id).color
            &&& keep || last ==> n.columns.len() == v.columns.len() && forall|p: Pos| #[trigger]
                v.has(p) && p != v.pos_of(id) ==> n.has(p) && n.row(p) == v.row(p)
        }),
{
    let p = v.pos_of(id);
    assert(v.sits(id, p));
    let n = unpinned(v, id, keep);
    if keep || v.sole() {
        let leaf = Leaf {
            client: None,
            minimized: v.leaf_of(id).minimized,
            color: v.leaf_of(id).color,
        };
        lemma_with_leaf(v, id, leaf);
        assert(n.sits(id, p));
        lemma_pos(n, id, p);
        assert forall|q: Pos| #[trigger] v.has(q) && q != p implies n.has(q) && n.row(q) == v.row(
            q,
        ) by {
            if q.col != p.col {
                assert(n.columns[q.col as int] == v.columns[q.col as int]);
            }
        }
    } else {
        lemma_removed(v, p);
    }
}

} // verus!
