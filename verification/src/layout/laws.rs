//! What every layout operation keeps.

use super::geometry::{lemma_col_x_bounds, lemma_px_to, lemma_row_bounds, strip_h, GapAt, Insert};
use super::{
    after_removal, average_share, column_opened, lemma_column_added, lemma_column_added_pos,
    lemma_column_opened, lemma_minted, lemma_pos, lemma_removed, lemma_removed_pos,
    lemma_renormalised_fits, lemma_row_added, lemma_row_added_pos, lemma_row_opened,
    lemma_share_le_total, lemma_share_total_insert, lemma_shares_nonneg, lemma_shares_update,
    reclaimed, renormalised, row_opened, share_total, shares_to, small, split_off, with_frac,
    ColWidth, NodeId, Pos, Row, Strip,
};
use crate::geom::{imax, imin, Rect};
use crate::sizes::{
    is_last_normal, lemma_count_bounds, normal_count, share_base, sizes_of, sizes_sum,
    usable_normal, Child, SHARE_ONE,
};
use crate::Index;
use vstd::prelude::*;

verus! {

/// Whether every position of the strip is addressable.
pub open spec fn addressable(v: Strip) -> bool {
    &&& v.columns.len() < usize::MAX
    &&& forall|c: int|
        0 <= c < v.columns.len() ==> (#[trigger] v.columns[c]).rows.len() < usize::MAX
}

proof fn lemma_same_px(v: Strip, a: int, n: Strip, b: int, vw: int, gap: int)
    requires
        v.columns[a] == n.columns[b],
    ensures
        v.px(a, vw, gap) == n.px(b, vw, gap),
{
    assert(v.pinned(a) == n.pinned(b));
}

proof fn lemma_px_to_same(v: Strip, n: Strip, k: int, vw: int, gap: int)
    requires
        0 <= k,
        forall|c: int| 0 <= c < k ==> v.columns[c] == #[trigger] n.columns[c],
    ensures
        v.px_to(k, vw, gap) == n.px_to(k, vw, gap),
    decreases k,
{
    if k > 0 {
        lemma_px_to_same(v, n, k - 1, vw, gap);
        assert(v.columns[k - 1] == n.columns[k - 1]);
        lemma_same_px(v, k - 1, n, k - 1, vw, gap);
    }
}

proof fn lemma_px_to_inserted(v: Strip, at: int, width: ColWidth, row: Row, k: int, vw: int, gap: int)
    requires
        0 <= at < k <= v.columns.len() + 1,
    ensures
        v.with_column(at, width, row).px_to(k, vw, gap) == v.px_to(k - 1, vw, gap)
            + v.with_column(at, width, row).px(at, vw, gap),
    decreases k,
{
    let n = v.with_column(at, width, row);
    if k == at + 1 {
        assert forall|c: int| 0 <= c < at implies v.columns[c] == #[trigger] n.columns[c] by {}
        lemma_px_to_same(v, n, at, vw, gap);
    } else {
        lemma_px_to_inserted(v, at, width, row, k - 1, vw, gap);
        assert(n.columns[k - 1] == v.columns[k - 2]);
        lemma_same_px(v, k - 2, n, k - 1, vw, gap);
    }
}

proof fn lemma_px_to_removed(v: Strip, at: int, k: int, vw: int, gap: int)
    requires
        0 <= at < v.columns.len(),
        at <= k < v.columns.len(),
    ensures
        v.with_columns(v.columns.remove(at)).px_to(k, vw, gap) == v.px_to(k + 1, vw, gap) - v.px(
            at,
            vw,
            gap,
        ),
    decreases k,
{
    let n = v.with_columns(v.columns.remove(at));
    if k == at {
        assert forall|c: int| 0 <= c < at implies v.columns[c] == #[trigger] n.columns[c] by {}
        lemma_px_to_same(v, n, at, vw, gap);
    } else {
        lemma_px_to_removed(v, at, k - 1, vw, gap);
        assert(n.columns[k - 1] == v.columns[k]);
        lemma_same_px(v, k, n, k - 1, vw, gap);
    }
}

/// Law: inserting a column never resizes the others, and the strip grows
/// by exactly the new column and one gap.
pub proof fn inserting_a_column_keeps_widths(
    v: Strip,
    at: usize,
    width: ColWidth,
    viewport_w: int,
    gap: int,
)
    requires
        v.wf(),
    ensures
        ({
            let i = imin(at as int, v.columns.len() as int);
            let n = v.minted().with_column(i, width, v.fresh_row(SHARE_ONE as int));
            &&& forall|c: int|
                0 <= c < v.columns.len() ==> #[trigger] v.px(c, viewport_w, gap) == n.px(
                    if c < i {
                        c
                    } else {
                        c + 1
                    },
                    viewport_w,
                    gap,
                )
            &&& n.px(i, viewport_w, gap) == (match width {
                ColWidth::Viewport => imax(viewport_w - 2 * gap, gap),
                ColWidth::Px(w) => imax(w as int, gap),
            })
            &&& n.width(viewport_w, gap) == v.width(viewport_w, gap) + n.px(i, viewport_w, gap)
                + gap
        }),
{
    let i = imin(at as int, v.columns.len() as int);
    let row = v.fresh_row(SHARE_ONE as int);
    let m = v.minted();
    let n = m.with_column(i, width, row);
    assert forall|c: int| 0 <= c < v.columns.len() implies #[trigger] v.px(c, viewport_w, gap)
        == n.px(
        if c < i {
            c
        } else {
            c + 1
        },
        viewport_w,
        gap,
    ) by {
        let d = if c < i {
            c
        } else {
            c + 1
        };
        assert(n.columns[d] == v.columns[c]);
        lemma_same_px(v, c, n, d, viewport_w, gap);
    }
    assert(n.columns[i].rows[0] == row);
    assert(!n.pinned(i));
    let k = v.columns.len() as int;
    assert forall|c: int| 0 <= c < k implies v.columns[c] == #[trigger] m.columns[c] by {}
    lemma_px_to_same(v, m, k, viewport_w, gap);
    lemma_px_to_inserted(m, i, width, row, k + 1, viewport_w, gap);
    assert(gap * k == gap * (k - 1) + gap) by (nonlinear_arith);
}

/// Law: removing a column never resizes the others, and the strip shrinks
/// by exactly that column and one gap.
pub proof fn removing_a_column_keeps_widths(v: Strip, p: Pos, viewport_w: int, gap: int)
    requires
        v.wf(),
        v.has(p),
        v.columns[p.col as int].rows.len() == 1,
    ensures
        ({
            let n = v.removed(p);
            &&& forall|c: int|
                0 <= c < v.columns.len() && c != p.col ==> #[trigger] v.px(c, viewport_w, gap)
                    == n.px(
                    if c < p.col {
                        c
                    } else {
                        c - 1
                    },
                    viewport_w,
                    gap,
                )
            &&& n.width(viewport_w, gap) == v.width(viewport_w, gap) - v.px(
                p.col as int,
                viewport_w,
                gap,
            ) - gap
        }),
{
    let n = v.removed(p);
    let at = p.col as int;
    assert forall|c: int| 0 <= c < v.columns.len() && c != p.col implies #[trigger] v.px(
        c,
        viewport_w,
        gap,
    ) == n.px(
        if c < p.col {
            c
        } else {
            c - 1
        },
        viewport_w,
        gap,
    ) by {
        let d = if c < p.col {
            c
        } else {
            c - 1
        };
        assert(n.columns[d] == v.columns[c]);
        lemma_same_px(v, c, n, d, viewport_w, gap);
    }
    let k = v.columns.len() as int;
    lemma_px_to_removed(v, at, k - 1, viewport_w, gap);
    assert(gap * (k - 1) == gap * (k - 2) + gap) by (nonlinear_arith);
}

/// Law: a row that leaves a stack changes no other column.
pub proof fn removing_a_row_keeps_other_columns(v: Strip, p: Pos)
    requires
        v.wf(),
        v.has(p),
        v.columns[p.col as int].rows.len() > 1,
    ensures
        v.removed(p).columns.len() == v.columns.len(),
        v.removed(p).columns[p.col as int].width == v.columns[p.col as int].width,
        forall|c: int|
            0 <= c < v.columns.len() && c != p.col ==> #[trigger] v.removed(p).columns[c]
                == v.columns[c],
{
}

/// Every column has a row the height allocation does not collapse.
proof fn lemma_some_normal(v: Strip, c: int)
    requires
        v.wf(),
        0 <= c < v.columns.len(),
    ensures
        normal_count(v.kids(c), v.kids(c).len() as int) > 0,
{
    let kids = v.kids(c);
    let rows = v.columns[c].rows;
    assert(rows.len() > 0);
    let r = if v.pinned(c) {
        0int
    } else {
        choose|r: int| 0 <= r < rows.len() && !(#[trigger] rows[r]).leaf.minimized
    };
    assert(0 <= r < rows.len());
    assert(!kids[r].0);
    lemma_counted(kids, r, kids.len() as int);
}

proof fn lemma_counted(kids: Seq<Child>, r: int, n: int)
    requires
        0 <= r < n <= kids.len(),
        !kids[r].0,
    ensures
        normal_count(kids, n) > 0,
    decreases n,
{
    lemma_count_bounds(kids, n - 1);
    if r < n - 1 {
        lemma_counted(kids, r, n - 1);
    }
}

/// Law: the rows of a column and the gaps between them fill its height
/// exactly, as long as the height has room for the gaps and the collapsed
/// rows.
pub proof fn rows_fill_the_column(v: Strip, c: int, h: int, gap: int)
    requires
        v.wf(),
        0 <= c < v.columns.len(),
        0 <= gap,
        gap * (v.columns[c].rows.len() - 1) + (v.columns[c].rows.len() - normal_count(
            v.kids(c),
            v.columns[c].rows.len() as int,
        )) * gap <= h,
    ensures
        v.row_off(c, v.columns[c].rows.len() as int, h, gap) == h + gap,
{
    let kids = v.kids(c);
    let n = v.columns[c].rows.len() as int;
    lemma_some_normal(v, c);
    lemma_count_bounds(kids, n);
    let m = n - normal_count(kids, n);
    assert(0 <= m * gap) by (nonlinear_arith)
        requires
            0 <= m,
            0 <= gap,
    ;
    sizes_sum(kids, v.usable(c, h, gap), gap);
    assert(gap * n == gap * (n - 1) + gap) by (nonlinear_arith);
}

proof fn lemma_row_off_monotonic(v: Strip, c: int, i: int, j: int, h: int, gap: int)
    requires
        0 <= c < v.columns.len(),
        0 <= gap,
        0 <= i < j <= v.columns[c].rows.len(),
    ensures
        v.row_off(c, i, h, gap) + v.row_h(c, i, h, gap) + gap <= v.row_off(c, j, h, gap),
    decreases j - i,
{
    let kids = v.kids(c);
    let u = v.usable(c, h, gap);
    assert(sizes_of(kids, u, gap)[j - 1] == v.row_h(c, j - 1, h, gap));
    assert(gap * j == gap * (j - 1) + gap) by (nonlinear_arith);
    crate::sizes::lemma_size_bounds(kids, u, gap, j - 1);
    if i + 1 < j {
        lemma_row_off_monotonic(v, c, i, j - 1, h, gap);
    }
}

/// Law: no two splits overlap.
pub proof fn splits_never_overlap(v: Strip, p: Pos, q: Pos, wa: Rect, gap: int, x: int, y: int)
    requires
        v.wf(),
        v.fits(wa, gap),
        v.has(p),
        v.has(q),
        p != q,
    ensures
        !(v.rect(p.col as int, p.row as int, wa, gap).has(x, y) && v.rect(
            q.col as int,
            q.row as int,
            wa,
            gap,
        ).has(x, y)),
{
    if Strip::precedes(q, p) {
        splits_never_overlap_ordered(v, q, p, wa, gap, x, y);
    } else {
        splits_never_overlap_ordered(v, p, q, wa, gap, x, y);
    }
}

proof fn splits_never_overlap_ordered(
    v: Strip,
    p: Pos,
    q: Pos,
    wa: Rect,
    gap: int,
    x: int,
    y: int,
)
    requires
        v.wf(),
        v.fits(wa, gap),
        v.has(p),
        v.has(q),
        Strip::precedes(p, q),
    ensures
        !(v.rect(p.col as int, p.row as int, wa, gap).has(x, y) && v.rect(
            q.col as int,
            q.row as int,
            wa,
            gap,
        ).has(x, y)),
{
    let (pc, qc) = (p.col as int, q.col as int);
    let h = strip_h(wa, gap);
    super::geometry::lemma_col_x_bounds(v, pc, wa, gap);
    super::geometry::lemma_col_x_bounds(v, qc, wa, gap);
    super::geometry::lemma_row_bounds(v, pc, p.row as int, wa, gap);
    super::geometry::lemma_row_bounds(v, qc, q.row as int, wa, gap);
    if pc < qc {
        lemma_px_to(v, pc + 1, qc, wa.w as int, gap);
        assert(gap * qc == gap * pc + gap * (qc - pc)) by (nonlinear_arith);
        assert(gap <= gap * (qc - pc) && 0 <= gap * (qc - (pc + 1))) by (nonlinear_arith)
            requires
                0 <= gap,
                1 <= qc - pc,
        ;
    } else {
        lemma_row_off_monotonic(v, pc, p.row as int, q.row as int, h, gap);
    }
}

/// Law: a split moved to a column of its own keeps its window, colour and
/// identity, and so does every other split.
pub proof fn moving_beside_keeps_splits(
    v: Strip,
    src: NodeId,
    dst: NodeId,
    before: bool,
    default_w: ColWidth,
)
    requires
        v.wf(),
        addressable(v),
        v.moves_beside(src, dst, before),
    ensures
        forall|id: NodeId|
            #[trigger] v.moved_beside(src, dst, before, default_w).live(id) <==> v.live(id),
        forall|id: NodeId| #[trigger]
            v.live(id) ==> v.moved_beside(src, dst, before, default_w).leaf_of(id) == v.leaf_of(id),
        v.moved_beside(src, dst, before, default_w).wf(),
{
    let sp = v.pos_of(src);
    assert(v.sits(src, sp));
    assert(v.sits(dst, v.pos_of(dst)));
    assert(!v.sole()) by {
        if v.sole() {
            assert(sp == v.pos_of(dst));
        }
    }
    lemma_removed(v, sp);
    let rest = v.removed(sp);
    assert(rest.live(dst));
    assert(rest.sits(dst, rest.pos_of(dst)));
    let dcol = rest.pos_of(dst).col as int;
    let at = if before {
        dcol
    } else {
        dcol + 1
    };
    let w = if v.columns[sp.col as int].rows.len() == 1 {
        v.columns[sp.col as int].width
    } else {
        default_w
    };
    let moved = with_frac(v.row(sp), SHARE_ONE as int);
    assert(v.row(sp).id.0 < v.next_id);
    lemma_column_added(rest, at, w, moved);
    let n = v.moved_beside(src, dst, before, default_w);
    assert(n == rest.with_column(at, w, moved));
    assert forall|id: NodeId| #[trigger] v.live(id) implies n.leaf_of(id) == v.leaf_of(id) by {
        if id == src {
            lemma_pos(v, src, sp);
        } else {
            assert(rest.live(id));
        }
    }
}

/// Law: a split moved into a stack keeps its window, colour and identity,
/// and so does every other split.
pub proof fn moving_into_a_stack_keeps_splits(v: Strip, src: NodeId, dst: NodeId, before: bool)
    requires
        v.wf(),
        addressable(v),
        src != dst,
        v.live(src),
        v.live(dst),
    ensures
        forall|id: NodeId|
            #[trigger] v.moved_into_stack(src, dst, before).live(id) <==> v.live(id),
        forall|id: NodeId| #[trigger]
            v.live(id) ==> v.moved_into_stack(src, dst, before).leaf_of(id) == v.leaf_of(id),
        v.moved_into_stack(src, dst, before).wf(),
{
    let sp = v.pos_of(src);
    assert(v.sits(src, sp));
    assert(v.sits(dst, v.pos_of(dst)));
    assert(!v.sole()) by {
        if v.sole() {
            assert(sp == v.pos_of(dst));
        }
    }
    lemma_removed(v, sp);
    let rest = v.removed(sp);
    assert(rest.live(dst));
    let dp = rest.pos_of(dst);
    assert(rest.sits(dst, dp));
    let rows = rest.columns[dp.col as int].rows;
    let at = if before {
        dp.row as int
    } else {
        dp.row + 1
    };
    let moved = with_frac(v.row(sp), average_share(rows));
    let news = renormalised(rows.insert(at, moved));
    lemma_renormalised_fits(rows.insert(at, moved));
    assert(v.row(sp).id.0 < v.next_id);
    assert(rows.len() < usize::MAX) by {
        lemma_rows_shrink(v, sp, dp.col as int);
    }
    lemma_row_added(rest, dp.col as int, at, news, moved);
    let n = v.moved_into_stack(src, dst, before);
    assert(n == rest.with_rows(dp.col as int, news));
    assert forall|id: NodeId| #[trigger] v.live(id) implies n.leaf_of(id) == v.leaf_of(id) by {
        if id == src {
            lemma_pos(v, src, sp);
        } else {
            assert(rest.live(id));
        }
    }
}

proof fn lemma_rows_shrink(v: Strip, p: Pos, c: int)
    requires
        addressable(v),
        v.has(p),
        0 <= c < v.removed(p).columns.len(),
    ensures
        v.removed(p).columns[c].rows.len() < usize::MAX,
{
    let n = v.removed(p);
    if v.columns[p.col as int].rows.len() > 1 {
        if c != p.col {
            assert(n.columns[c] == v.columns[c]);
        } else {
            assert(v.columns[c].rows.len() < usize::MAX);
        }
    } else if c < p.col {
        assert(n.columns[c] == v.columns[c]);
    } else {
        assert(n.columns[c] == v.columns[c + 1]);
    }
}

/// Whether two splits of `v` stand to each other in `n` as they did in `v`:
/// which comes first, and whether they are stacked in one column.
pub open spec fn stand_alike(v: Strip, n: Strip, a: NodeId, b: NodeId) -> bool {
    let (p, q) = (v.pos_of(a), v.pos_of(b));
    let (r, t) = (n.pos_of(a), n.pos_of(b));
    &&& p.col == q.col <==> r.col == t.col
    &&& p.col == q.col && p.row < q.row ==> r.row < t.row
    &&& p.col < q.col ==> r.col < t.col
    &&& n.columns[r.col as int].width == v.columns[p.col as int].width
}

/// Where a split sits, and how wide its column is, once another split was
/// taken out and put back into a stack at `at`.
proof fn lemma_row_moved(v: Strip, sp: Pos, c: int, at: int, news: Seq<Row>, moved: Row, a: NodeId)
    requires
        v.wf(),
        addressable(v),
        v.has(sp),
        !v.sole(),
        0 <= c < v.removed(sp).columns.len(),
        0 <= at <= v.removed(sp).columns[c].rows.len(),
        news.len() == v.removed(sp).columns[c].rows.len() + 1,
        news.len() <= usize::MAX,
        forall|i: int|
            0 <= i < news.len() ==> (#[trigger] news[i]).id
                == v.removed(sp).columns[c].rows.insert(at, moved)[i].id,
        v.removed(sp).with_rows(c, news).ids_unique(),
        v.live(a),
        a != v.row(sp).id,
    ensures
        v.has(v.pos_of(a)),
        ({
            let n = v.removed(sp).with_rows(c, news);
            let q = after_removal(v, sp, v.pos_of(a));
            &&& n.pos_of(a).col == q.col
            &&& n.pos_of(a).row == (if q.col == c && q.row >= at {
                q.row + 1
            } else {
                q.row as int
            })
            &&& n.columns[n.pos_of(a).col as int].width == v.columns[v.pos_of(a).col as int].width
        }),
        v.columns[sp.col as int].rows.len() == 1 ==> v.pos_of(a).col != sp.col,
        v.pos_of(a) != sp,
{
    let rest = v.removed(sp);
    let q = after_removal(v, sp, v.pos_of(a));
    assert(v.sits(a, v.pos_of(a)));
    lemma_removed(v, sp);
    lemma_removed_pos(v, sp, a);
    assert(rest.sits(a, q));
    lemma_row_added_pos(rest, c, at, news, moved, a);
}

/// Law: a split moved into a stack ends up in the target's column, directly
/// above or directly below the target as asked; the other splits keep their
/// order and stay stacked with whom they were stacked, and no column left
/// changes its width.
pub proof fn moving_into_a_stack_lands_next_to_the_target(
    v: Strip,
    src: NodeId,
    dst: NodeId,
    before: bool,
)
    requires
        v.wf(),
        addressable(v),
        src != dst,
        v.live(src),
        v.live(dst),
    ensures
        ({
            let n = v.moved_into_stack(src, dst, before);
            &&& n.pos_of(src).col == n.pos_of(dst).col
            &&& before ==> n.pos_of(src).row + 1 == n.pos_of(dst).row
            &&& !before ==> n.pos_of(dst).row + 1 == n.pos_of(src).row
        }),
        forall|a: NodeId, b: NodeId|
            #![trigger v.live(a), v.live(b)]
            v.live(a) && v.live(b) && a != src && b != src ==> stand_alike(
                v,
                v.moved_into_stack(src, dst, before),
                a,
                b,
            ),
{
    let sp = v.pos_of(src);
    assert(v.sits(src, sp));
    assert(v.sits(dst, v.pos_of(dst)));
    assert(!v.sole()) by {
        if v.sole() {
            assert(sp == v.pos_of(dst));
        }
    }
    lemma_removed(v, sp);
    let rest = v.removed(sp);
    assert(rest.live(dst));
    let dp = rest.pos_of(dst);
    assert(rest.sits(dst, dp));
    let rows = rest.columns[dp.col as int].rows;
    let at = if before {
        dp.row as int
    } else {
        dp.row + 1
    };
    let moved = with_frac(v.row(sp), average_share(rows));
    let news = renormalised(rows.insert(at, moved));
    lemma_renormalised_fits(rows.insert(at, moved));
    assert(v.row(sp).id.0 < v.next_id);
    assert(rows.len() < usize::MAX) by {
        lemma_rows_shrink(v, sp, dp.col as int);
    }
    lemma_row_added(rest, dp.col as int, at, news, moved);
    let n = v.moved_into_stack(src, dst, before);
    assert(n == rest.with_rows(dp.col as int, news));
    lemma_row_added_pos(rest, dp.col as int, at, news, moved, dst);
    assert forall|a: NodeId, b: NodeId|
        #![trigger v.live(a), v.live(b)]
        v.live(a) && v.live(b) && a != src && b != src implies stand_alike(v, n, a, b) by {
        lemma_row_moved(v, sp, dp.col as int, at, news, moved, a);
        lemma_row_moved(v, sp, dp.col as int, at, news, moved, b);
    }
}

/// Where a split sits, and how wide its column is, once another split was
/// taken out and put back as a column at `at`.
proof fn lemma_column_moved(v: Strip, sp: Pos, at: int, w: ColWidth, moved: Row, a: NodeId)
    requires
        v.wf(),
        addressable(v),
        v.has(sp),
        !v.sole(),
        0 <= at <= v.removed(sp).columns.len(),
        v.removed(sp).with_column(at, w, moved).ids_unique(),
        v.live(a),
        a != v.row(sp).id,
    ensures
        v.has(v.pos_of(a)),
        ({
            let n = v.removed(sp).with_column(at, w, moved);
            let q = after_removal(v, sp, v.pos_of(a));
            &&& n.pos_of(a).row == q.row
            &&& n.pos_of(a).col == (if q.col >= at {
                q.col + 1
            } else {
                q.col as int
            })
            &&& n.columns[n.pos_of(a).col as int].width == v.columns[v.pos_of(a).col as int].width
        }),
        v.columns[sp.col as int].rows.len() == 1 ==> v.pos_of(a).col != sp.col,
        v.pos_of(a) != sp,
{
    let rest = v.removed(sp);
    let q = after_removal(v, sp, v.pos_of(a));
    assert(v.sits(a, v.pos_of(a)));
    lemma_removed(v, sp);
    lemma_removed_pos(v, sp, a);
    assert(rest.sits(a, q));
    lemma_column_added_pos(rest, at, w, moved, a);
    let n = rest.with_column(at, w, moved);
    assert(n.columns[n.pos_of(a).col as int] == rest.columns[q.col as int]);
}

/// Law: a split moved beside another ends up alone in a column directly left
/// or directly right of the other's as asked; a split that was a column
/// already brings its width, one pulled out of a stack gets the default
/// width, and the other splits keep their order, their stacks and their
/// columns' widths.
pub proof fn moving_beside_lands_next_to_the_target(
    v: Strip,
    src: NodeId,
    dst: NodeId,
    before: bool,
    default_w: ColWidth,
)
    requires
        v.wf(),
        addressable(v),
        src != dst,
        v.live(src),
        v.live(dst),
    ensures
        ({
            let n = v.moved_beside(src, dst, before, default_w);
            let c = n.pos_of(src).col as int;
            &&& n.columns[c].rows.len() == 1
            &&& before ==> c + 1 == n.pos_of(dst).col
            &&& !before ==> n.pos_of(dst).col + 1 == c
            &&& n.columns[c].width == (if v.columns[v.pos_of(src).col as int].rows.len() == 1 {
                v.columns[v.pos_of(src).col as int].width
            } else {
                default_w
            })
        }),
        forall|a: NodeId, b: NodeId|
            #![trigger v.live(a), v.live(b)]
            v.live(a) && v.live(b) && a != src && b != src ==> stand_alike(
                v,
                v.moved_beside(src, dst, before, default_w),
                a,
                b,
            ),
{
    let sp = v.pos_of(src);
    assert(v.sits(src, sp));
    assert(v.sits(dst, v.pos_of(dst)));
    assert(!v.sole()) by {
        if v.sole() {
            assert(sp == v.pos_of(dst));
        }
    }
    lemma_removed(v, sp);
    let rest = v.removed(sp);
    assert(rest.live(dst));
    assert(rest.sits(dst, rest.pos_of(dst)));
    let dcol = rest.pos_of(dst).col as int;
    let at = if before {
        dcol
    } else {
        dcol + 1
    };
    let w = if v.columns[sp.col as int].rows.len() == 1 {
        v.columns[sp.col as int].width
    } else {
        default_w
    };
    let moved = with_frac(v.row(sp), SHARE_ONE as int);
    assert(v.row(sp).id.0 < v.next_id);
    lemma_column_added(rest, at, w, moved);
    let n = v.moved_beside(src, dst, before, default_w);
    assert(n == rest.with_column(at, w, moved));
    lemma_column_added_pos(rest, at, w, moved, dst);
    assert forall|a: NodeId, b: NodeId|
        #![trigger v.live(a), v.live(b)]
        v.live(a) && v.live(b) && a != src && b != src implies stand_alike(v, n, a, b) by {
        lemma_column_moved(v, sp, at, w, moved, a);
        lemma_column_moved(v, sp, at, w, moved, b);
    }
}

/// Law: removing a split leaves the others in their order, stacked as they
/// were and as wide. Focus goes to the split that was directly below, else
/// the one directly above, else to the top of the column directly to the
/// right, else of the one directly to the left.
pub proof fn removing_closes_the_gap(v: Strip, id: NodeId)
    requires
        v.wf(),
        addressable(v),
        v.live(id),
        !v.sole(),
    ensures
        forall|a: NodeId, b: NodeId|
            #![trigger v.live(a), v.live(b)]
            v.live(a) && v.live(b) && a != id && b != id ==> stand_alike(
                v,
                v.removed(v.pos_of(id)),
                a,
                b,
            ),
        ({
            let p = v.pos_of(id);
            let f = v.focus_after(p);
            let q = v.pos_of(f);
            let stack = v.columns[p.col as int].rows.len();
            &&& v.live(f)
            &&& f != id
            &&& p.row + 1 < stack ==> q.col == p.col && q.row == p.row + 1
            &&& p.row > 0 && p.row + 1 == stack ==> q.col == p.col && q.row + 1 == p.row
            &&& stack == 1 && p.col + 1 < v.columns.len() ==> q.col == p.col + 1 && q.row == 0
            &&& stack == 1 && p.col + 1 == v.columns.len() ==> q.col + 1 == p.col && q.row == 0
        }),
{
    let p = v.pos_of(id);
    assert(v.sits(id, p));
    lemma_removed(v, p);
    removing_keeps_other_splits(v, id);
    let n = v.removed(p);
    let rows = v.columns[p.col as int].rows;
    let f = v.focus_after(p);
    assert(v.live(f) && f != id);
    let r = if rows.len() > 1 {
        Pos { col: p.col, row: imin(p.row as int, rows.len() - 2) as usize }
    } else {
        Pos { col: imin(p.col as int, v.columns.len() - 2) as usize, row: 0 }
    };
    assert(v.sits(f, v.pos_of(f)));
    lemma_removed_pos(v, p, f);
    if rows.len() > 1 {
        assert(n.sits(f, r));
    } else {
        assert(v.columns.len() > 1) by {
            if v.columns.len() == 1 {
                assert(p.col == 0);
            }
        }
        assert(n.columns[r.col as int].rows.len() > 0);
        assert(n.sits(f, r));
    }
    lemma_pos(n, f, r);
    assert forall|a: NodeId, b: NodeId|
        #![trigger v.live(a), v.live(b)]
        v.live(a) && v.live(b) && a != id && b != id implies stand_alike(v, n, a, b) by {
        lemma_removed_pos(v, p, a);
        lemma_removed_pos(v, p, b);
        assert(v.sits(a, v.pos_of(a)) && v.sits(b, v.pos_of(b)));
    }
}

/// Law: a split divided keeps its place and its share of its own share; the
/// rest goes to an empty split directly below it. No other split moves or
/// changes its share.
pub proof fn dividing_opens_a_split_below(v: Strip, id: NodeId, ratio: int)
    requires
        v.wf(),
        addressable(v),
        v.next_id < u32::MAX,
        v.live(id),
        0 <= ratio <= SHARE_ONE,
    ensures
        ({
            let n = split_off(v, id, ratio);
            let new = NodeId(v.next_id);
            let (p, q) = (n.pos_of(id), n.pos_of(new));
            let (kept, whole) = (n.row(p).frac as int, v.row(v.pos_of(id)).frac as int);
            &&& !v.live(new)
            &&& forall|k: NodeId| #[trigger] n.live(k) <==> v.live(k) || k == new
            &&& n.leaf_of(new).client is None
            &&& !n.leaf_of(new).minimized
            &&& p == v.pos_of(id)
            &&& q.col == p.col
            &&& q.row == p.row + 1
            &&& n.row(q).frac + kept == whole
            &&& kept * SHARE_ONE <= whole * ratio < (kept + 1) * SHARE_ONE
        }),
        forall|a: NodeId, b: NodeId|
            #![trigger v.live(a), v.live(b)]
            v.live(a) && v.live(b) ==> stand_alike(v, split_off(v, id, ratio), a, b),
        forall|a: NodeId| #[trigger]
            v.live(a) ==> {
                let n = split_off(v, id, ratio);
                &&& n.leaf_of(a) == v.leaf_of(a)
                &&& a != id ==> n.row(n.pos_of(a)).frac == v.row(v.pos_of(a)).frac
            },
{
    let p = v.pos_of(id);
    assert(v.sits(id, p));
    let m = v.minted();
    lemma_minted(v);
    fresh_ids_are_new(v);
    let olds = v.columns[p.col as int].rows;
    let whole = olds[p.row as int].frac as int;
    let kept = whole * ratio / SHARE_ONE as int;
    let one = SHARE_ONE as int;
    assert(0 <= kept <= whole && kept * one <= whole * ratio < (kept + 1) * one)
        by (nonlinear_arith)
        requires
            0 <= ratio <= one,
            0 < one,
            0 <= whole,
            kept == whole * ratio / one,
    ;
    let row = v.fresh_row(whole - kept);
    let mid = olds.update(p.row as int, with_frac(olds[p.row as int], kept));
    let news = mid.insert(p.row + 1, row);
    let n = split_off(v, id, ratio);
    assert(n == m.with_rows(p.col as int, news));
    lemma_share_total_insert(mid, p.row + 1, row);
    lemma_shares_update(olds, p.row as int, mid[p.row as int]);
    assert(share_total(v.columns[p.col as int].rows) <= u64::MAX);
    assert forall|i: int| 0 <= i < news.len() implies (#[trigger] news[i]).id == olds.insert(
        p.row + 1,
        row,
    )[i].id && news[i].leaf == olds.insert(p.row + 1, row)[i].leaf by {
        if i <= p.row {
            assert(news[i] == mid[i]);
        } else if i > p.row + 1 {
            assert(news[i] == mid[i - 1]);
            assert(olds.insert(p.row + 1, row)[i] == olds[i - 1]);
        }
    }
    assert(m.columns[p.col as int].rows.len() < usize::MAX);
    lemma_row_added(m, p.col as int, p.row + 1, news, row);
    lemma_row_added_pos(m, p.col as int, p.row + 1, news, row, id);
    assert(m.sits(id, p));
    lemma_pos(m, id, p);
    assert(news[p.row as int] == mid[p.row as int]);
    assert(news[p.row + 1] == row);
    assert forall|k: NodeId| #[trigger] v.live(k) implies m.live(k) && m.pos_of(k) == v.pos_of(k)
        && m.leaf_of(k) == v.leaf_of(k) by {
        assert(v.sits(k, v.pos_of(k)));
        assert(m.sits(k, v.pos_of(k)));
        lemma_pos(m, k, v.pos_of(k));
    }
    assert forall|k: NodeId| #[trigger] n.live(k) <==> v.live(k) || k == NodeId(v.next_id) by {
        if m.live(k) {
            assert(m.sits(k, m.pos_of(k)));
            assert(v.sits(k, m.pos_of(k)));
        }
    }
    assert forall|a: NodeId, b: NodeId|
        #![trigger v.live(a), v.live(b)]
        v.live(a) && v.live(b) implies stand_alike(v, n, a, b) by {
        lemma_row_added_pos(m, p.col as int, p.row + 1, news, row, a);
        lemma_row_added_pos(m, p.col as int, p.row + 1, news, row, b);
        assert(v.sits(a, v.pos_of(a)) && v.sits(b, v.pos_of(b)));
    }
    assert forall|a: NodeId| #[trigger] v.live(a) implies n.leaf_of(a) == v.leaf_of(a) && (a != id
        ==> n.row(n.pos_of(a)).frac == v.row(v.pos_of(a)).frac) by {
        lemma_row_added_pos(m, p.col as int, p.row + 1, news, row, a);
        let q = v.pos_of(a);
        assert(v.sits(a, q));
        if q.col == p.col {
            if q.row > p.row {
                assert(news[q.row + 1] == mid[q.row as int]);
            } else {
                assert(news[q.row as int] == mid[q.row as int]);
            }
        } else {
            assert(n.columns[q.col as int] == v.columns[q.col as int]);
        }
    }
}

/// Law: a column opened at `at` holds one empty split, has the width asked
/// for and stands there; the columns from `at` on move one to the right and
/// nothing else changes.
pub proof fn opening_a_column_puts_it_where_asked(v: Strip, at: int, width: ColWidth)
    requires
        v.wf(),
        addressable(v),
        v.next_id < u32::MAX,
        0 <= at <= v.columns.len(),
    ensures
        ({
            let n = column_opened(v, at, width);
            let new = NodeId(v.next_id);
            &&& n.pos_of(new).col == at
            &&& n.columns.len() == v.columns.len() + 1
            &&& n.columns[at].rows.len() == 1
            &&& n.columns[at].width == width
            &&& n.leaf_of(new).client is None
            &&& !n.leaf_of(new).minimized
            &&& forall|c: int| 0 <= c < at ==> #[trigger] n.columns[c] == v.columns[c]
            &&& forall|c: int| at < c < n.columns.len() ==> #[trigger] n.columns[c] == v.columns[c
                - 1]
        }),
{
    lemma_column_opened(v, at, width);
}

/// Law: a row opened at `at` of a stack is empty and sits there; the rows of
/// that stack from `at` on move one down, and no other column changes.
pub proof fn opening_a_row_puts_it_where_asked(v: Strip, c: int, at: int)
    requires
        v.wf(),
        addressable(v),
        v.next_id < u32::MAX,
        0 <= c < v.columns.len(),
        0 <= at <= v.columns[c].rows.len(),
    ensures
        ({
            let n = row_opened(v, c, at);
            let new = NodeId(v.next_id);
            &&& n.pos_of(new).col == c
            &&& n.pos_of(new).row == at
            &&& n.columns.len() == v.columns.len()
            &&& n.leaf_of(new).client is None
            &&& !n.leaf_of(new).minimized
            &&& n.columns[c].width == v.columns[c].width
            &&& n.columns[c].rows.len() == v.columns[c].rows.len() + 1
            &&& forall|k: int|
                0 <= k < v.columns.len() && k != c ==> #[trigger] n.columns[k] == v.columns[k]
            &&& forall|r: int|
                0 <= r < v.columns[c].rows.len() ==> (#[trigger] v.columns[c].rows[r]).id
                    == n.columns[c].rows[if r < at {
                    r
                } else {
                    r + 1
                }].id
        }),
{
    lemma_row_opened(v, c, at);
    let rows = v.columns[c].rows;
    let row = v.fresh_row(average_share(rows));
    let news = renormalised(rows.insert(at, row));
    assert forall|r: int| 0 <= r < rows.len() implies (#[trigger] rows[r]).id == news[if r < at {
        r
    } else {
        r + 1
    }].id by {
        let t = if r < at {
            r
        } else {
            r + 1
        };
        assert(rows.insert(at, row)[t] == rows[r]);
    }
}

/// Law: removing a split removes nothing else, and focus lands on a split
/// that is still there.
pub proof fn removing_keeps_other_splits(v: Strip, id: NodeId)
    requires
        v.wf(),
        addressable(v),
        v.live(id),
        !v.sole(),
    ensures
        forall|k: NodeId|
            #[trigger] v.removed(v.pos_of(id)).live(k) <==> v.live(k) && k != id,
        forall|k: NodeId|
            #[trigger] v.removed(v.pos_of(id)).live(k) ==> v.removed(v.pos_of(id)).leaf_of(k)
                == v.leaf_of(k),
        v.removed(v.pos_of(id)).live(v.focus_after(v.pos_of(id))),
{
    let p = v.pos_of(id);
    assert(v.sits(id, p));
    lemma_removed(v, p);
    let n = v.removed(p);
    let rows = v.columns[p.col as int].rows;
    if rows.len() > 1 {
        let q = Pos { col: p.col, row: imin(p.row as int, rows.len() - 2) as usize };
        assert(n.sits(v.focus_after(p), q));
    } else {
        assert(rows.len() == 1);
        let q = Pos { col: imin(p.col as int, v.columns.len() - 2) as usize, row: 0 };
        assert(v.columns.len() > 1) by {
            if v.columns.len() == 1 {
                assert(p.col == 0);
            }
        }
        assert(n.columns[q.col as int].rows.len() > 0);
        assert(n.sits(v.focus_after(p), q));
    }
}

/// Law: the next identity was never handed to a split that is still there.
pub proof fn fresh_ids_are_new(v: Strip)
    requires
        v.wf(),
    ensures
        !v.live(NodeId(v.next_id)),
{
    if v.live(NodeId(v.next_id)) {
        let p = v.pos_of(NodeId(v.next_id));
        assert(v.sits(NodeId(v.next_id), p));
        assert(v.row(p).id.0 < v.next_id);
    }
}

proof fn lemma_free_color(v: Strip, n: u32, k: int, free: int)
    requires
        0 <= k <= free < v.palette.len(),
        !v.uses_color(v.palette[free]),
    ensures
        !v.uses_color(v.free_color_from(n, k)),
    decreases free - k,
{
    if v.uses_color(v.palette[k]) {
        lemma_free_color(v, n, k + 1, free);
    }
}

/// The colours of the first `n` columns, in strip order.
spec fn colors_to(v: Strip, n: int) -> Seq<Index>
    decreases n,
{
    if n <= 0 {
        Seq::empty()
    } else {
        colors_to(v, n - 1) + v.columns[n - 1].rows.map_values(|r: Row| r.leaf.color)
    }
}

proof fn lemma_colors_to(v: Strip, n: int)
    requires
        0 <= n <= v.columns.len(),
    ensures
        colors_to(v, n).len() == v.ids_to(n).len(),
        forall|p: Pos|
            v.has(p) && p.col < n ==> colors_to(v, n).contains((#[trigger] v.row(p)).leaf.color),
    decreases n,
{
    if n > 0 {
        lemma_colors_to(v, n - 1);
        let last = v.columns[n - 1].rows.map_values(|r: Row| r.leaf.color);
        let whole = colors_to(v, n);
        let base = colors_to(v, n - 1);
        assert(whole == base + last);
        assert forall|p: Pos| v.has(p) && p.col < n implies whole.contains(
            (#[trigger] v.row(p)).leaf.color,
        ) by {
            if p.col < n - 1 {
                let i = choose|i: int| 0 <= i < base.len() && base[i] == v.row(p).leaf.color;
                assert(base.contains(v.row(p).leaf.color));
                assert(whole[i] == base[i]);
            } else {
                assert(last[p.row as int] == v.row(p).leaf.color);
                assert(whole[base.len() + p.row] == last[p.row as int]);
            }
        }
    }
}

/// Law: no colour repeats before the palette runs out: while there are
/// fewer splits than colours, a new split's colour is no other split's.
pub proof fn colors_unique_while_palette_lasts(v: Strip, frac: int)
    requires
        v.wf(),
        v.ids_to(v.columns.len() as int).len() < v.palette.to_set().len(),
    ensures
        !v.uses_color(v.fresh_row(frac).leaf.color),
{
    let n = v.columns.len() as int;
    let used = colors_to(v, n);
    lemma_colors_to(v, n);
    if forall|k: int| 0 <= k < v.palette.len() ==> v.uses_color(#[trigger] v.palette[k]) {
        used.lemma_cardinality_of_set();
        assert forall|c: Index| v.palette.to_set().contains(c) implies used.to_set().contains(c) by {
            let k = choose|k: int| 0 <= k < v.palette.len() && v.palette[k] == c;
            assert(v.uses_color(v.palette[k]));
            let p = choose|p: Pos| v.has(p) && (#[trigger] v.row(p)).leaf.color == c;
            assert(used.contains(c));
        }
        vstd::set_lib::lemma_len_subset(v.palette.to_set(), used.to_set());
        assert(false);
    }
    let k = choose|k: int|
        0 <= k < v.palette.len() && !v.uses_color(#[trigger] v.palette[k]);
    lemma_free_color(v, v.next_id, 0, k);
}

/// Whether no two splits have one colour.
pub open spec fn colors_apart(v: Strip) -> bool {
    forall|a: NodeId, b: NodeId| #[trigger]
        v.live(a) && #[trigger] v.live(b) && v.leaf_of(a).color == v.leaf_of(b).color ==> a == b
}

/// A palette without repeats has as many colours as entries.
pub proof fn palettes_without_repeats_count_in_full(palette: Seq<Index>)
    requires
        palette.no_duplicates(),
    ensures
        palette.to_set().len() == palette.len(),
{
    palette.unique_seq_to_set();
}

proof fn lemma_apart_with_fresh(v: Strip, n: Strip)
    requires
        v.wf(),
        v.ids_to(v.columns.len() as int).len() < v.palette.to_set().len(),
        colors_apart(v),
        forall|id: NodeId| #[trigger] n.live(id) <==> v.live(id) || id == NodeId(v.next_id),
        forall|id: NodeId| #[trigger] v.live(id) ==> n.leaf_of(id) == v.leaf_of(id),
        n.leaf_of(NodeId(v.next_id)) == v.fresh_row(0).leaf,
    ensures
        colors_apart(n),
{
    colors_unique_while_palette_lasts(v, 0);
    assert forall|k: NodeId| #[trigger] v.live(k) implies v.leaf_of(k).color
        != v.fresh_row(0).leaf.color by {
        let q = v.pos_of(k);
        assert(v.sits(k, q));
        assert(v.row(q).leaf.color == v.leaf_of(k).color);
    }
    assert forall|a: NodeId, b: NodeId| #[trigger]
        n.live(a) && #[trigger] n.live(b) && n.leaf_of(a).color == n.leaf_of(b).color implies a
        == b by {
        if v.live(a) && v.live(b) {
            assert(n.leaf_of(a) == v.leaf_of(a) && n.leaf_of(b) == v.leaf_of(b));
        }
    }
}

/// Law: while there are fewer splits than colours, splits whose colours
/// differ stay so when a column is inserted, and each keeps its colour.
pub proof fn inserting_a_column_keeps_colors_apart(v: Strip, at: int, width: ColWidth)
    requires
        v.wf(),
        small(v),
        v.next_id < u32::MAX,
        v.columns.len() < usize::MAX,
        0 <= at <= v.columns.len(),
        v.ids_to(v.columns.len() as int).len() < v.palette.to_set().len(),
        colors_apart(v),
    ensures
        ({
            let n = v.minted().with_column(at, width, v.fresh_row(SHARE_ONE as int));
            &&& colors_apart(n)
            &&& forall|id: NodeId| #[trigger]
                v.live(id) ==> n.live(id) && n.leaf_of(id).color == v.leaf_of(id).color
        }),
{
    let n = v.minted().with_column(at, width, v.fresh_row(SHARE_ONE as int));
    lemma_column_opened(v, at, width);
    lemma_apart_with_fresh(v, n);
    assert forall|id: NodeId| #[trigger] v.live(id) implies n.live(id) && n.leaf_of(id).color
        == v.leaf_of(id).color by {
        assert(n.leaf_of(id) == v.leaf_of(id));
    }
}

/// Law: the same when a row is inserted into a stack.
pub proof fn inserting_a_row_keeps_colors_apart(v: Strip, c: int, at: int)
    requires
        v.wf(),
        small(v),
        v.next_id < u32::MAX,
        0 <= c < v.columns.len(),
        0 <= at <= v.columns[c].rows.len() < usize::MAX,
        v.ids_to(v.columns.len() as int).len() < v.palette.to_set().len(),
        colors_apart(v),
    ensures
        colors_apart(row_opened(v, c, at)),
        forall|id: NodeId| #[trigger]
            v.live(id) ==> row_opened(v, c, at).live(id) && row_opened(v, c, at).leaf_of(id).color
                == v.leaf_of(id).color,
{
    let n = row_opened(v, c, at);
    lemma_row_opened(v, c, at);
    lemma_apart_with_fresh(v, n);
    assert forall|id: NodeId| #[trigger] v.live(id) implies n.live(id) && n.leaf_of(id).color
        == v.leaf_of(id).color by {
        assert(n.leaf_of(id) == v.leaf_of(id));
    }
}

/// Law: a strip with one split has its colours apart, so that they stay so
/// for as many splits as there are colours.
pub proof fn a_sole_split_has_its_colors_apart(v: Strip)
    requires
        v.wf(),
        v.sole(),
    ensures
        colors_apart(v),
{
    assert forall|a: NodeId, b: NodeId| #[trigger]
        v.live(a) && #[trigger] v.live(b) && v.leaf_of(a).color == v.leaf_of(b).color implies a
        == b by {
        assert(v.sits(a, v.pos_of(a)) && v.sits(b, v.pos_of(b)));
    }
}

/// Whether `g` names a gap of the strip.
pub open spec fn is_gap(v: Strip, g: GapAt) -> bool {
    match g {
        GapAt::Col(i) => i + 1 < v.columns.len(),
        GapAt::Row { col, idx } => col < v.columns.len() && idx + 1 < v.columns[col as int].rows.len(),
    }
}

spec fn gap_col(g: GapAt) -> int {
    match g {
        GapAt::Col(i) => i as int,
        GapAt::Row { col, .. } => col as int,
    }
}

proof fn lemma_gaps_to(v: Strip, n: int, wa: Rect, gap: int)
    requires
        v.wf(),
        small(v),
        0 <= n <= v.columns.len(),
    ensures
        forall|k: int|
            0 <= k < v.gaps_to(n, wa, gap).len() ==> is_gap(
                v,
                (#[trigger] v.gaps_to(n, wa, gap)[k]).at,
            ) && gap_col(v.gaps_to(n, wa, gap)[k].at) < n,
        forall|j: int, k: int|
            0 <= j < k < v.gaps_to(n, wa, gap).len() ==> (#[trigger] v.gaps_to(n, wa, gap)[j]).at
                != (#[trigger] v.gaps_to(n, wa, gap)[k]).at,
        forall|g: GapAt|
            #![trigger is_gap(v, g)]
            is_gap(v, g) && gap_col(g) < n ==> exists|k: int|
                0 <= k < v.gaps_to(n, wa, gap).len() && (#[trigger] v.gaps_to(n, wa, gap)[k]).at
                    == g,
    decreases n,
{
    if n > 0 {
        lemma_gaps_to(v, n - 1, wa, gap);
        let c = n - 1;
        let base = v.gaps_to(c, wa, gap);
        let own = v.gaps_of(c, wa, gap);
        let all = v.gaps_to(n, wa, gap);
        let has_right = c + 1 < v.columns.len();
        let off: int = if has_right {
            1
        } else {
            0
        };
        assert(v.columns[c].rows.len() > 0);
        assert(all == base + own);
        assert forall|i: int| 0 <= i < own.len() implies (#[trigger] own[i]).at == (if has_right && i
            == 0 {
            GapAt::Col(c as usize)
        } else {
            GapAt::Row { col: c as usize, idx: (i - off) as usize }
        }) by {}
        assert forall|k: int| 0 <= k < all.len() implies is_gap(v, (#[trigger] all[k]).at)
            && gap_col(all[k].at) < n by {
            if k < base.len() {
                assert(all[k] == base[k]);
            } else {
                assert(all[k] == own[k - base.len()]);
            }
        }
        assert forall|j: int, k: int| 0 <= j < k < all.len() implies (#[trigger] all[j]).at != (
        #[trigger] all[k]).at by {
            if k < base.len() {
                assert(all[k] == base[k] && all[j] == base[j]);
            } else {
                assert(all[k] == own[k - base.len()]);
                if j < base.len() {
                    assert(all[j] == base[j]);
                } else {
                    assert(all[j] == own[j - base.len()]);
                }
            }
        }
        assert forall|g: GapAt| #![trigger is_gap(v, g)] is_gap(v, g) && gap_col(g)
            < n implies exists|k: int| 0 <= k < all.len() && (#[trigger] all[k]).at == g by {
            if gap_col(g) < c {
                let k = choose|k: int| 0 <= k < base.len() && (#[trigger] base[k]).at == g;
                assert(all[k] == base[k]);
            } else {
                let i = match g {
                    GapAt::Col(_) => 0int,
                    GapAt::Row { idx, .. } => idx + off};
                assert(own[i].at == g);
                assert(all[base.len() + i] == own[i]);
            }
        }
    }
}

/// Law: the boundaries cover every gap of the strip exactly once.
pub proof fn boundaries_cover_every_gap_once(v: Strip, wa: Rect, gap: int)
    requires
        v.wf(),
        addressable(v),
    ensures
        ({
            let b = v.gaps_to(v.columns.len() as int, wa, gap);
            &&& forall|k: int| 0 <= k < b.len() ==> is_gap(v, (#[trigger] b[k]).at)
            &&& forall|j: int, k: int|
                0 <= j < k < b.len() ==> (#[trigger] b[j]).at != (#[trigger] b[k]).at
            &&& forall|g: GapAt|
                #![trigger is_gap(v, g)]
                is_gap(v, g) ==> exists|k: int| 0 <= k < b.len() && (#[trigger] b[k]).at == g
        }),
{
    lemma_gaps_to(v, v.columns.len() as int, wa, gap);
}

/// Whether `at` names a place a split can be inserted.
pub open spec fn is_slot(v: Strip, at: Insert) -> bool {
    match at {
        Insert::Col(i) => i <= v.columns.len(),
        Insert::Row { col, idx } => col < v.columns.len() && idx
            <= v.columns[col as int].rows.len(),
    }
}

/// The column count up to which a slot is listed.
spec fn slot_col(at: Insert) -> int {
    match at {
        Insert::Col(i) => i as int,
        Insert::Row { col, .. } => col + 1,
    }
}

proof fn lemma_slots_to(v: Strip, n: int, wa: Rect, gap: int)
    requires
        v.wf(),
        addressable(v),
        0 <= n <= v.columns.len(),
    ensures
        forall|k: int|
            0 <= k < v.slots_to(n, wa, gap).len() ==> is_slot(
                v,
                (#[trigger] v.slots_to(n, wa, gap)[k]).2,
            ) && slot_col(v.slots_to(n, wa, gap)[k].2) <= n,
        forall|j: int, k: int|
            0 <= j < k < v.slots_to(n, wa, gap).len() ==> (#[trigger] v.slots_to(n, wa, gap)[j]).2
                != (#[trigger] v.slots_to(n, wa, gap)[k]).2,
        forall|g: Insert|
            #![trigger is_slot(v, g)]
            is_slot(v, g) && slot_col(g) <= n ==> exists|k: int|
                0 <= k < v.slots_to(n, wa, gap).len() && (#[trigger] v.slots_to(n, wa, gap)[k]).2
                    == g,
    decreases n,
{
    let all = v.slots_to(n, wa, gap);
    if n > 0 {
        lemma_slots_to(v, n - 1, wa, gap);
        let c = n - 1;
        let base = v.slots_to(c, wa, gap);
        let own = v.slots_of(c, wa, gap);
        assert(v.columns[c].rows.len() > 0);
        assert(all == base + own);
        assert forall|i: int| 0 <= i < own.len() implies (#[trigger] own[i]).2 == (if i == 0 {
            Insert::Col((c + 1) as usize)
        } else {
            Insert::Row { col: c as usize, idx: (i - 1) as usize }
        }) by {}
        assert forall|k: int| 0 <= k < all.len() implies is_slot(v, (#[trigger] all[k]).2)
            && slot_col(all[k].2) <= n by {
            if k < base.len() {
                assert(all[k] == base[k]);
            } else {
                assert(all[k] == own[k - base.len()]);
            }
        }
        assert forall|j: int, k: int| 0 <= j < k < all.len() implies (#[trigger] all[j]).2 != (
        #[trigger] all[k]).2 by {
            if k < base.len() {
                assert(all[k] == base[k] && all[j] == base[j]);
            } else {
                assert(all[k] == own[k - base.len()]);
                if j < base.len() {
                    assert(all[j] == base[j]);
                } else {
                    assert(all[j] == own[j - base.len()]);
                }
            }
        }
        assert forall|g: Insert| #![trigger is_slot(v, g)] is_slot(v, g) && slot_col(g)
            <= n implies exists|k: int| 0 <= k < all.len() && (#[trigger] all[k]).2 == g by {
            if slot_col(g) <= c {
                let k = choose|k: int| 0 <= k < base.len() && (#[trigger] base[k]).2 == g;
                assert(all[k] == base[k]);
            } else {
                let i = match g {
                    Insert::Col(_) => 0int,
                    Insert::Row { idx, .. } => idx + 1};
                assert(own[i].2 == g);
                assert(all[base.len() + i] == own[i]);
            }
        }
    } else {
        assert(all[0].2 == Insert::Col(0));
        assert forall|g: Insert| #![trigger is_slot(v, g)] is_slot(v, g) && slot_col(g)
            <= n implies exists|k: int| 0 <= k < all.len() && (#[trigger] all[k]).2 == g by {
            assert(g == Insert::Col(0));
        }
    }
}

/// Law: the insert slots cover every insert position exactly once: column
/// positions `0..=ncols`, and per column row positions `0..=nrows`.
pub proof fn insert_slots_cover_every_position_once(v: Strip, wa: Rect, gap: int)
    requires
        v.wf(),
        addressable(v),
    ensures
        ({
            let s = v.slots_to(v.columns.len() as int, wa, gap);
            &&& forall|k: int| 0 <= k < s.len() ==> is_slot(v, (#[trigger] s[k]).2)
            &&& forall|j: int, k: int|
                0 <= j < k < s.len() ==> (#[trigger] s[j]).2 != (#[trigger] s[k]).2
            &&& forall|g: Insert|
                #![trigger is_slot(v, g)]
                is_slot(v, g) ==> exists|k: int| 0 <= k < s.len() && (#[trigger] s[k]).2 == g
        }),
{
    lemma_slots_to(v, v.columns.len() as int, wa, gap);
}

/// Whether split `id` sits in one of the first `n` columns.
spec fn sits_before(v: Strip, id: NodeId, n: int) -> bool {
    exists|p: Pos| p.col < n && #[trigger] v.sits(id, p)
}

proof fn lemma_ids_to(v: Strip, n: int)
    requires
        v.wf(),
        small(v),
        0 <= n <= v.columns.len(),
    ensures
        forall|k: int|
            0 <= k < v.ids_to(n).len() ==> sits_before(v, #[trigger] v.ids_to(n)[k], n),
        forall|p: Pos|
            v.has(p) && p.col < n ==> v.ids_to(n).contains((#[trigger] v.row(p)).id),
        v.ids_to(n).no_duplicates(),
    decreases n,
{
    if n > 0 {
        lemma_ids_to(v, n - 1);
        let c = n - 1;
        let base = v.ids_to(c);
        let own = v.columns[c].rows.map_values(|r: Row| r.id);
        let all = v.ids_to(n);
        assert(all == base + own);
        assert forall|i: int| 0 <= i < own.len() implies v.sits(
            #[trigger] own[i],
            Pos { col: c as usize, row: i as usize },
        ) by {}
        assert forall|k: int| 0 <= k < all.len() implies sits_before(
            v,
            #[trigger] all[k],
            n,
        ) by {
            if k < base.len() {
                assert(all[k] == base[k]);
                assert(sits_before(v, base[k], c));
                let p = choose|p: Pos| p.col < c && #[trigger] v.sits(base[k], p);
                assert(v.sits(all[k], p));
            } else {
                let i = k - base.len();
                assert(all[k] == own[i]);
                assert(v.sits(own[i], Pos { col: c as usize, row: i as usize }));
            }
        }
        assert forall|p: Pos| v.has(p) && p.col < n implies all.contains(
            (#[trigger] v.row(p)).id,
        ) by {
            if p.col < c {
                assert(base.contains(v.row(p).id));
                let i = choose|i: int| 0 <= i < base.len() && base[i] == v.row(p).id;
                assert(all[i] == base[i]);
            } else {
                assert(own[p.row as int] == v.row(p).id);
                assert(all[base.len() + p.row] == own[p.row as int]);
            }
        }
        assert forall|j: int, k: int| 0 <= j < k < all.len() implies all[j] != all[k] by {
            if k < base.len() {
                assert(all[k] == base[k] && all[j] == base[j]);
            } else {
                let b = Pos { col: c as usize, row: (k - base.len()) as usize };
                assert(all[k] == own[k - base.len()]);
                assert(v.sits(own[k - base.len()], b));
                if j < base.len() {
                    assert(all[j] == base[j]);
                    assert(sits_before(v, base[j], c));
                    let p = choose|p: Pos| p.col < c && #[trigger] v.sits(base[j], p);
                    if all[j] == all[k] {
                        assert(v.row(p).id == v.row(b).id);
                    }
                } else {
                    let a = Pos { col: c as usize, row: (j - base.len()) as usize };
                    assert(all[j] == own[j - base.len()]);
                    assert(v.sits(own[j - base.len()], a));
                    if all[j] == all[k] {
                        assert(v.row(a).id == v.row(b).id);
                    }
                }
            }
        }
    }
}

/// Law: the strip order lists every split exactly once.
pub proof fn strip_order_lists_every_split_once(v: Strip)
    requires
        v.wf(),
        addressable(v),
    ensures
        v.ids_to(v.columns.len() as int).no_duplicates(),
        forall|id: NodeId|
            #[trigger] v.live(id) <==> v.ids_to(v.columns.len() as int).contains(id),
{
    let n = v.columns.len() as int;
    lemma_ids_to(v, n);
    let ids = v.ids_to(n);
    assert forall|id: NodeId| #[trigger] v.live(id) <==> ids.contains(id) by {
        if v.live(id) {
            let p = v.pos_of(id);
            assert(v.sits(id, p));
            assert(v.row(p).id == id);
        }
        if ids.contains(id) {
            let k = choose|k: int| 0 <= k < ids.len() && ids[k] == id;
            assert(sits_before(v, ids[k], n));
            let p = choose|p: Pos| p.col < n && #[trigger] v.sits(ids[k], p);
            assert(v.sits(id, p));
        }
    }
}

/// Law: the columns stand from left to right with one gap before, between and
/// after them, and the strip is just as wide as that.
pub proof fn columns_stand_a_gap_apart(v: Strip, c: int, wa: Rect, gap: int)
    requires
        0 <= c < v.columns.len(),
    ensures
        v.col_x(0, wa, gap) == wa.x + gap,
        c + 1 < v.columns.len() ==> v.col_x(c + 1, wa, gap) == v.col_x(c, wa, gap) + v.px(
            c,
            wa.w as int,
            gap,
        ) + gap,
        c + 1 == v.columns.len() ==> wa.x + v.width(wa.w as int, gap) == v.col_x(c, wa, gap)
            + v.px(c, wa.w as int, gap) + gap,
{
    assert(v.px_to(c + 1, wa.w as int, gap) == v.px_to(c, wa.w as int, gap) + v.px(
        c,
        wa.w as int,
        gap,
    ));
    assert(gap * (c + 1) == gap * c + gap) by (nonlinear_arith);
    assert(gap * 0 == 0) by (nonlinear_arith);
}

/// Law: a column is as wide as it says, the bootstrap column as wide as the
/// view between two gaps, and a column of minimized splits one gap wide; no
/// column is narrower than a gap.
pub proof fn columns_are_as_wide_as_they_say(v: Strip, c: int, viewport_w: int, gap: int)
    requires
        0 <= c < v.columns.len(),
    ensures
        (forall|r: int|
            0 <= r < v.columns[c].rows.len() ==> (
            #[trigger] v.columns[c].rows[r]).leaf.minimized) ==> v.px(c, viewport_w, gap) == gap,
        forall|r: int|
            0 <= r < v.columns[c].rows.len() && !(
            #[trigger] v.columns[c].rows[r]).leaf.minimized ==> match v.columns[c].width {
                ColWidth::Px(w) => w >= gap ==> v.px(c, viewport_w, gap) == w,
                ColWidth::Viewport => viewport_w - 2 * gap >= gap ==> v.px(c, viewport_w, gap)
                    == viewport_w - 2 * gap,
            },
        gap <= v.px(c, viewport_w, gap),
{
}

/// Law: the rows of a column stand from top to bottom with one gap between
/// them, the first one a gap below the top of the work area.
pub proof fn rows_stand_a_gap_apart(v: Strip, c: int, r: int, h: int, gap: int)
    requires
        0 <= c < v.columns.len(),
        0 <= r < v.columns[c].rows.len(),
    ensures
        v.row_off(c, 0, h, gap) == 0,
        v.row_off(c, r + 1, h, gap) == v.row_off(c, r, h, gap) + v.row_h(c, r, h, gap) + gap,
{
    assert(gap * (r + 1) == gap * r + gap) by (nonlinear_arith);
    assert(gap * 0 == 0) by (nonlinear_arith);
    let sizes = sizes_of(v.kids(c), v.usable(c, h, gap), gap);
    assert(sizes[r] == v.row_h(c, r, h, gap));
}

/// Law: the handle between two columns sits in the middle of the gap between
/// them and knows both their widths; the one between two rows likewise. It
/// can be dragged exactly where neither side is minimized.
pub proof fn handles_sit_in_the_middle_of_gaps(v: Strip, c: int, r: int, wa: Rect, gap: int)
    requires
        v.wf(),
        v.fits(wa, gap),
        0 <= c < v.columns.len(),
        0 <= r < v.columns[c].rows.len(),
    ensures
        c + 1 < v.columns.len() ==> {
            let g = v.col_gap(c, wa, gap);
            let (from, to) = (v.col_x(c, wa, gap) + v.px(c, wa.w as int, gap), v.col_x(
                c + 1,
                wa,
                gap,
            ));
            &&& from <= g.pos <= to
            &&& (g.pos - from) - (to - g.pos) <= 0 <= (g.pos - from) - (to - g.pos) + 1
            &&& g.start == v.col_x(c, wa, gap)
            &&& g.start + g.first == from
            &&& g.second == v.px(c + 1, wa.w as int, gap)
            &&& g.resizable <==> !v.pinned(c) && !v.pinned(c + 1)
        },
        r + 1 < v.columns[c].rows.len() ==> {
            let g = v.row_gap(c, r, wa, gap);
            let rows = v.columns[c].rows;
            let h = strip_h(wa, gap);
            &&& g.start == wa.y + gap + v.row_off(c, r, h, gap)
            &&& g.first == v.row_h(c, r, h, gap)
            &&& g.second == v.row_h(c, r + 1, h, gap)
            &&& g.start + g.first <= g.pos
            &&& 2 * (g.pos - g.start - g.first) <= gap < 2 * (g.pos - g.start - g.first) + 2
            &&& g.cross == v.col_x(c, wa, gap)
            &&& g.cross_len == v.px(c, wa.w as int, gap)
            &&& g.resizable <==> !rows[r].leaf.minimized && !rows[r + 1].leaf.minimized
        },
{
    columns_stand_a_gap_apart(v, c, wa, gap);
    lemma_col_x_bounds(v, c, wa, gap);
    if c + 1 < v.columns.len() {
        lemma_col_x_bounds(v, c + 1, wa, gap);
    }
    lemma_row_bounds(v, c, r, wa, gap);
    if r + 1 < v.columns[c].rows.len() {
        lemma_row_bounds(v, c, r + 1, wa, gap);
    }
}

proof fn lemma_rect_at(v: Strip, n: int, wa: Rect, gap: int, c: int, r: int)
    requires
        0 <= c < n <= v.columns.len(),
        0 <= r < v.columns[c].rows.len(),
    ensures
        v.rects_to(n, wa, gap).contains((v.columns[c].rows[r].id, v.rect(c, r, wa, gap))),
    decreases n,
{
    let before = v.rects_to(n - 1, wa, gap);
    let all = v.rects_to(n, wa, gap);
    if c < n - 1 {
        lemma_rect_at(v, n - 1, wa, gap, c, r);
        let g = (v.columns[c].rows[r].id, v.rect(c, r, wa, gap));
        let k = choose|k: int| 0 <= k < before.len() && before[k] == g;
        assert(all[k] == g);
    } else {
        assert(all[before.len() + r] == (v.columns[c].rows[r].id, v.rect(c, r, wa, gap)));
    }
}

/// Law: every split has a rectangle of its own: as wide as its column and
/// where its column stands, as high as its row and where its row stands.
pub proof fn every_split_fills_its_place(v: Strip, id: NodeId, wa: Rect, gap: int)
    requires
        v.wf(),
        v.fits(wa, gap),
        v.live(id),
    ensures
        ({
            let (c, r) = (v.pos_of(id).col as int, v.pos_of(id).row as int);
            let g = v.rect(c, r, wa, gap);
            let h = if wa.h - 2 * gap >= 0 {
                wa.h - 2 * gap
            } else {
                0
            };
            &&& v.rects_to(v.columns.len() as int, wa, gap).contains((id, g))
            &&& g.x == v.col_x(c, wa, gap)
            &&& g.w == v.px(c, wa.w as int, gap)
            &&& g.y == wa.y + gap + v.row_off(c, r, h, gap)
            &&& g.h == v.row_h(c, r, h, gap)
        }),
{
    let p = v.pos_of(id);
    assert(v.sits(id, p));
    let (c, r) = (p.col as int, p.row as int);
    lemma_col_x_bounds(v, c, wa, gap);
    lemma_row_bounds(v, c, r, wa, gap);
    lemma_rect_at(v, v.columns.len() as int, wa, gap, c, r);
}

/// Law: a place for a new column is marked in the middle of the gap it would
/// open, a place for a new row in the middle of the gap above the row it
/// would push down, at the middle of its column.
pub proof fn slots_are_marked_in_their_gaps(v: Strip, c: int, r: int, wa: Rect, gap: int)
    requires
        v.wf(),
        v.fits(wa, gap),
        0 <= c < v.columns.len(),
        0 <= r < v.columns[c].rows.len(),
    ensures
        ({
            let s = v.slots_of(c, wa, gap);
            let after = v.col_x(c, wa, gap) + v.px(c, wa.w as int, gap);
            &&& s[0].2 == Insert::Col((c + 1) as usize)
            &&& 2 * (s[0].0 - after) <= gap < 2 * (s[0].0 - after) + 2
            &&& s[1 + r].2 == (Insert::Row { col: c as usize, idx: r as usize })
            &&& 2 * (s[1 + r].0 - v.col_x(c, wa, gap)) <= v.px(c, wa.w as int, gap) < 2 * (s[1
                + r].0 - v.col_x(c, wa, gap)) + 2
            &&& 2 * (wa.y + gap + v.row_off(c, r, strip_h(wa, gap), gap) - s[1 + r].1) <= gap
            &&& gap < 2 * (wa.y + gap + v.row_off(c, r, strip_h(wa, gap), gap) - s[1 + r].1) + 2
        }),
{
    lemma_col_x_bounds(v, c, wa, gap);
    lemma_col_x_bounds(v, c + 1, wa, gap);
    lemma_row_bounds(v, c, r, wa, gap);
}

/// Law: where there is room, a minimized row is a gap high and any other row
/// no higher than its part of what is left, but for the last one, which
/// takes what the rounding left over, and for rows too small for a pixel.
pub proof fn rows_share_by_their_shares(v: Strip, c: int, r: int, h: int, gap: int)
    requires
        v.wf(),
        0 <= c < v.columns.len(),
        0 <= r < v.columns[c].rows.len(),
        0 <= gap,
    ensures
        v.columns[c].rows[r].leaf.minimized && !v.pinned(c) ==> v.row_h(c, r, h, gap) == gap,
        !is_last_normal(v.kids(c), r) && !v.kids(c)[r].0 && v.row_h(c, r, h, gap) > 1
            ==> v.row_h(c, r, h, gap) * share_base(v.kids(c)) <= usable_normal(
            v.kids(c),
            v.usable(c, h, gap),
            gap,
        ) * v.columns[c].rows[r].frac,
{
    let kids = v.kids(c);
    let un = usable_normal(kids, v.usable(c, h, gap), gap);
    let base = share_base(kids);
    let f = kids[r].1 as int;
    let size = v.row_h(c, r, h, gap);
    lemma_count_bounds(kids, kids.len() as int);
    if !is_last_normal(kids, r) && !kids[r].0 && size > 1 {
        assert(size <= un * f / base);
        assert(size * base <= un * f) by (nonlinear_arith)
            requires
                size <= un * f / base,
                0 < base,
        ;
    }
}

proof fn lemma_renormalised_least(rows: Seq<Row>, n: int)
    requires
        0 <= n <= rows.len(),
        share_total(rows) > 0,
    ensures
        shares_to(rows, n) * SHARE_ONE <= share_total(rows) * (shares_to(renormalised(rows), n) + n),
    decreases n,
{
    let s = share_total(rows);
    let one = SHARE_ONE as int;
    if n > 0 {
        lemma_renormalised_least(rows, n - 1);
        lemma_share_le_total(rows, n - 1, rows.len() as int);
        let f = rows[n - 1].frac as int;
        let part = f * one / s;
        assert(0 <= part <= one && f * one <= s * (part + 1)) by (nonlinear_arith)
            requires
                part == f * one / s,
                0 <= f <= s,
                0 < s,
                0 < one,
        ;
        let (d, t) = (shares_to(renormalised(rows), n - 1), shares_to(rows, n - 1));
        assert(renormalised(rows)[n - 1].frac == part);
        assert((t + f) * one == t * one + f * one) by (nonlinear_arith);
        assert(s * (d + part + n) == s * (d + (n - 1)) + s * (part + 1)) by (nonlinear_arith);
    } else {
        assert(0 * one == 0 && s * 0 == 0) by (nonlinear_arith);
    }
}

/// Law: rows renormalised keep their identities, their windows and their
/// proportions: each gets its part of one whole, rounded down, a row with
/// more never gets less, and together they miss the whole by less than one
/// part a row.
pub proof fn renormalising_keeps_proportions(rows: Seq<Row>, i: int, j: int)
    requires
        share_total(rows) > 0,
        0 <= i < rows.len(),
        0 <= j < rows.len(),
    ensures
        ({
            let (s, n) = (share_total(rows), renormalised(rows));
            &&& n.len() == rows.len()
            &&& n[i].id == rows[i].id && n[i].leaf == rows[i].leaf
            &&& n[i].frac * s <= rows[i].frac * SHARE_ONE < (n[i].frac + 1) * s
            &&& rows[i].frac <= rows[j].frac ==> n[i].frac <= n[j].frac
            &&& share_total(n) <= SHARE_ONE
            &&& SHARE_ONE <= share_total(n) + rows.len()
        }),
{
    let (s, n, one) = (share_total(rows), renormalised(rows), SHARE_ONE as int);
    lemma_share_le_total(rows, i, rows.len() as int);
    lemma_share_le_total(rows, j, rows.len() as int);
    let (f, g) = (rows[i].frac as int, rows[j].frac as int);
    assert(0 <= f * one / s <= one && f * one / s * s <= f * one < (f * one / s + 1) * s)
        by (nonlinear_arith)
        requires
            0 <= f <= s,
            0 < s,
            0 < one,
    ;
    assert(0 <= g * one / s <= one && (f <= g ==> f * one / s <= g * one / s)) by (nonlinear_arith)
        requires
            0 <= g <= s,
            0 < s,
            0 < one,
    ;
    lemma_renormalised_fits(rows);
    lemma_renormalised_least(rows, rows.len() as int);
    let t = share_total(n);
    assert(one <= t + rows.len()) by (nonlinear_arith)
        requires
            s * one <= s * (t + rows.len()),
            0 < s,
    ;
    super::lemma_renormalised(rows, rows.len() as int);
    assert(t <= one);
}

/// Law: when a row leaves a stack, each survivor takes its proportional part
/// of the share that was freed, rounded down, and keeps what it had.
pub proof fn survivors_take_their_part(rows: Seq<Row>, freed: int, i: int)
    requires
        0 <= freed,
        share_total(rows) > 0,
        share_total(rows) + freed <= u64::MAX,
        0 <= i < rows.len(),
    ensures
        ({
            let (s, n) = (share_total(rows), reclaimed(rows, freed));
            let more = n[i].frac - rows[i].frac;
            &&& n.len() == rows.len()
            &&& n[i].id == rows[i].id && n[i].leaf == rows[i].leaf
            &&& 0 <= more
            &&& more * s <= freed * rows[i].frac < (more + 1) * s
        }),
{
    let s = share_total(rows);
    lemma_share_le_total(rows, i, rows.len() as int);
    super::lemma_reclaimed(rows, freed, rows.len() as int);
    let f = rows[i].frac as int;
    let part = freed * f / s;
    assert(0 <= part && part * s <= freed * f < (part + 1) * s) by (nonlinear_arith)
        requires
            part == freed * f / s,
            0 <= f,
            0 <= freed,
            0 < s,
    ;
    assert(0 <= rows[i].frac + freed * rows[i].frac / s <= u64::MAX);
}

/// Law: a row that joins a stack gets the average of its shares, rounded
/// down.
pub proof fn joining_rows_get_the_average(rows: Seq<Row>)
    requires
        rows.len() > 0,
    ensures
        average_share(rows) * rows.len() <= share_total(rows) < (average_share(rows) + 1)
            * rows.len(),
{
    let (t, n, a) = (share_total(rows), rows.len() as int, average_share(rows));
    lemma_shares_nonneg(rows, n);
    assert(a * n <= t < (a + 1) * n) by (nonlinear_arith)
        requires
            a == t / n,
            0 < n,
    ;
}

/// Law: a move beside a split is refused exactly where it would change
/// nothing: the split is the other one, or is alone in a column right there
/// already.
pub proof fn moves_beside_are_refused_in_place(v: Strip, src: NodeId, dst: NodeId, before: bool)
    requires
        v.live(src),
        v.live(dst),
    ensures
        ({
            let (p, q) = (v.pos_of(src), v.pos_of(dst));
            let there = v.columns[p.col as int].rows.len() == 1 && (before && p.col + 1 == q.col
                || !before && q.col + 1 == p.col);
            v.moves_beside(src, dst, before) <==> src != dst && !there
        }),
        !v.moves_beside(src, src, before),
        !v.moves_into_stack(src, src, before),
{
}

/// Law: a move into a stack is refused only where it would change nothing.
pub proof fn moves_into_stacks_change_something(v: Strip, src: NodeId, dst: NodeId, before: bool)
    requires
        v.live(src),
        v.live(dst),
        src != dst,
    ensures
        v.moves_into_stack(src, dst, before) <==> v.moved_into_stack(src, dst, before) != v,
{
}

} // verus!
