//! Laying the strip out on the canvas.

use super::{ColWidth, Dir, Layout, NodeId, Row, Strip};
use crate::geom::{fits_i32, half, half_i32, imax, max_i32, Rect};
use crate::sizes::{
    child_sizes, lemma_count_bounds, lemma_size_bounds, size_of_child, sizes_of,
    sizes_sum, sum_to, normal_count, Child,
};
use vstd::prelude::*;

verus! {

/// Where a "+" insert button adds a new empty split. Every margin and gap
/// carries exactly one `Insert`: the outer margins and inter-column gaps
/// insert a column, a column's top and bottom margins and inter-row gaps
/// insert a row into its stack.
#[derive(Clone, Copy, PartialEq, Eq, Debug, Structural)]
pub enum Insert {
    /// A new column at strip position `idx` (`0` = far left, `ncols()` =
    /// far right).
    Col(usize),
    /// A new row at stack position `idx` of column `col` (`0` = top, the
    /// row count = bottom).
    Row { col: usize, idx: usize },
}

/// A gap between two adjacent columns, or two adjacent rows of one stack.
#[derive(Clone, Copy, PartialEq, Eq, Debug, Structural)]
pub enum GapAt {
    /// Between column `idx` and `idx + 1` (a vertical gap).
    Col(usize),
    /// Between rows `idx` and `idx + 1` of column `col` (horizontal).
    Row { col: usize, idx: usize },
}

impl GapAt {
    /// The gap's orientation.
    pub fn dir(self) -> (d: Dir)
        ensures
            d == (match self {
                GapAt::Col(_) => Dir::H,
                GapAt::Row { .. } => Dir::V,
            }),
    {
        match self {
            GapAt::Col(_) => Dir::H,
            GapAt::Row { .. } => Dir::V,
        }
    }
}

/// A gap's laid-out slot: the place a drag handle and a "+" insert button
/// sit. Coordinates are canvas-space.
#[derive(Clone, Copy, PartialEq, Eq, Debug, Structural)]
pub struct Boundary {
    pub at: GapAt,
    /// Gap centre along the drag axis.
    pub pos: i32,
    /// First neighbour's start along the drag axis.
    pub start: i32,
    /// First neighbour's size along the drag axis.
    pub first: i32,
    /// Second neighbour's size along the drag axis.
    pub second: i32,
    /// Strip start on the cross axis.
    pub cross: i32,
    /// Strip extent on the cross axis.
    pub cross_len: i32,
    /// Whether dragging this gap can actually resize: not when a pinned
    /// (minimized) neighbour is involved, whose pixel size ignores the
    /// stored share.
    pub resizable: bool,
}

/// The height of every column.
pub open spec fn strip_h(wa: Rect, gap: int) -> int {
    imax(wa.h - 2 * gap, 0)
}

impl Strip {
    /// Whether every row of column `c` is minimized, so that the whole
    /// column is pinned to the gap width.
    pub open spec fn pinned(self, c: int) -> bool {
        forall|r: int|
            0 <= r < self.columns[c].rows.len() ==> (
            #[trigger] self.columns[c].rows[r]).leaf.minimized
    }

    /// Column `c`'s laid-out width.
    pub open spec fn px(self, c: int, viewport_w: int, gap: int) -> int {
        if self.pinned(c) {
            gap
        } else {
            match self.columns[c].width {
                ColWidth::Viewport => imax(viewport_w - 2 * gap, gap),
                ColWidth::Px(w) => imax(w as int, gap),
            }
        }
    }

    /// The widths of the first `n` columns together.
    pub open spec fn px_to(self, n: int, viewport_w: int, gap: int) -> int
        decreases n,
    {
        if n <= 0 {
            0
        } else {
            self.px_to(n - 1, viewport_w, gap) + self.px(n - 1, viewport_w, gap)
        }
    }

    /// The whole strip's width: the columns end to end, plus the outer
    /// margins and inter-column gaps.
    pub open spec fn width(self, viewport_w: int, gap: int) -> int {
        let n = self.columns.len() as int;
        2 * gap + self.px_to(n, viewport_w, gap) + gap * (n - 1)
    }

    /// Where column `c` starts.
    pub open spec fn col_x(self, c: int, wa: Rect, gap: int) -> int {
        wa.x + gap + self.px_to(c, wa.w as int, gap) + gap * c
    }

    /// The rows of column `c` as the height allocation sees them: a
    /// minimized row collapses to the gap, except in a pinned column, whose
    /// rows share its full height.
    pub open spec fn kids(self, c: int) -> Seq<Child> {
        let rows = self.columns[c].rows;
        Seq::new(
            rows.len(),
            |r: int| (!self.pinned(c) && rows[r].leaf.minimized, rows[r].frac),
        )
    }

    /// The pixels rows of column `c` share at height `h`.
    pub open spec fn usable(self, c: int, h: int, gap: int) -> int {
        imax(h - gap * (self.columns[c].rows.len() - 1), 0)
    }

    /// The height of row `r` of column `c`.
    pub open spec fn row_h(self, c: int, r: int, h: int, gap: int) -> int {
        size_of_child(self.kids(c), self.usable(c, h, gap), gap, r)
    }

    /// How far below the column's top row `r` of column `c` starts.
    pub open spec fn row_off(self, c: int, r: int, h: int, gap: int) -> int {
        sum_to(sizes_of(self.kids(c), self.usable(c, h, gap), gap), r) + gap * r
    }

    /// The canvas-space rect of the split at (`c`, `r`).
    pub open spec fn rect(self, c: int, r: int, wa: Rect, gap: int) -> Rect {
        let h = strip_h(wa, gap);
        Rect {
            x: self.col_x(c, wa, gap) as i32,
            y: (wa.y + gap + self.row_off(c, r, h, gap)) as i32,
            w: self.px(c, wa.w as int, gap) as i32,
            h: self.row_h(c, r, h, gap) as i32,
        }
    }

    /// The rects of the splits in the first `n` columns, in strip order.
    pub open spec fn rects_to(self, n: int, wa: Rect, gap: int) -> Seq<(NodeId, Rect)>
        decreases n,
    {
        if n <= 0 {
            Seq::empty()
        } else {
            self.rects_to(n - 1, wa, gap) + Seq::new(
                self.columns[n - 1].rows.len(),
                |r: int| (self.columns[n - 1].rows[r].id, self.rect(n - 1, r, wa, gap)),
            )
        }
    }

    /// The gap right of column `c`.
    pub open spec fn col_gap(self, c: int, wa: Rect, gap: int) -> Boundary {
        let (a, b) = (self.px(c, wa.w as int, gap), self.px(c + 1, wa.w as int, gap));
        Boundary {
            at: GapAt::Col(c as usize),
            pos: (self.col_x(c, wa, gap) + a + gap / 2) as i32,
            start: self.col_x(c, wa, gap) as i32,
            first: a as i32,
            second: b as i32,
            cross: (wa.y + gap) as i32,
            cross_len: strip_h(wa, gap) as i32,
            resizable: !self.pinned(c) && !self.pinned(c + 1),
        }
    }

    /// The gap below row `r` of column `c`.
    pub open spec fn row_gap(self, c: int, r: int, wa: Rect, gap: int) -> Boundary {
        let h = strip_h(wa, gap);
        let rows = self.columns[c].rows;
        let y = wa.y + gap + self.row_off(c, r, h, gap);
        Boundary {
            at: GapAt::Row { col: c as usize, idx: r as usize },
            pos: (y + self.row_h(c, r, h, gap) + gap / 2) as i32,
            start: y as i32,
            first: self.row_h(c, r, h, gap) as i32,
            second: self.row_h(c, r + 1, h, gap) as i32,
            cross: self.col_x(c, wa, gap) as i32,
            cross_len: self.px(c, wa.w as int, gap) as i32,
            resizable: !rows[r].leaf.minimized && !rows[r + 1].leaf.minimized,
        }
    }

    /// The gaps that belong to column `c`: the one right of it, unless it
    /// is the last, then the ones between its rows.
    pub open spec fn gaps_of(self, c: int, wa: Rect, gap: int) -> Seq<Boundary> {
        let right = if c + 1 < self.columns.len() {
            seq![self.col_gap(c, wa, gap)]
        } else {
            Seq::empty()
        };
        right + Seq::new(
            (self.columns[c].rows.len() - 1) as nat,
            |r: int| self.row_gap(c, r, wa, gap),
        )
    }

    /// The gaps of the first `n` columns.
    pub open spec fn gaps_to(self, n: int, wa: Rect, gap: int) -> Seq<Boundary>
        decreases n,
    {
        if n <= 0 {
            Seq::empty()
        } else {
            self.gaps_to(n - 1, wa, gap) + self.gaps_of(n - 1, wa, gap)
        }
    }

    /// The insert slots of column `c`: the one right of it, then one per
    /// row position.
    pub open spec fn slots_of(self, c: int, wa: Rect, gap: int) -> Seq<(i32, i32, Insert)> {
        let h = strip_h(wa, gap);
        let x = self.col_x(c, wa, gap);
        let w = self.px(c, wa.w as int, gap);
        seq![((x + w + gap / 2) as i32, (wa.y + half(wa.h as int)) as i32, Insert::Col((c + 1) as usize))]
            + Seq::new(
            (self.columns[c].rows.len() + 1) as nat,
            |r: int|
                (
                    (x + w / 2) as i32,
                    (wa.y + gap + self.row_off(c, r, h, gap) - gap / 2) as i32,
                    Insert::Row { col: c as usize, idx: r as usize },
                ),
        )
    }

    /// The insert slots up to column `n`, the far-left one first.
    pub open spec fn slots_to(self, n: int, wa: Rect, gap: int) -> Seq<(i32, i32, Insert)>
        decreases n,
    {
        if n <= 0 {
            seq![((wa.x + gap / 2) as i32, (wa.y + half(wa.h as int)) as i32, Insert::Col(0))]
        } else {
            self.slots_to(n - 1, wa, gap) + self.slots_of(n - 1, wa, gap)
        }
    }

    /// Whether the strip laid out in `wa` stays within the coordinate
    /// range.
    pub open spec fn fits(self, wa: Rect, gap: int) -> bool {
        &&& 0 <= gap
        &&& fits_i32(2 * gap)
        &&& fits_i32(wa.w - 2 * gap)
        &&& fits_i32(wa.h - 2 * gap)
        &&& fits_i32(wa.y + half(wa.h as int))
        &&& self.columns.len() <= i32::MAX
        &&& self.col_x(self.columns.len() as int, wa, gap) <= i32::MAX
        &&& forall|c: int|
            0 <= c < self.columns.len() ==> {
                let n = (#[trigger] self.columns[c]).rows.len();
                &&& n <= i32::MAX
                &&& n * gap <= i32::MAX
                &&& wa.y + gap + strip_h(wa, gap) + 2 * (n * gap) <= i32::MAX
            }
    }
}

/// Column widths are at least the gap, and columns start left of their
/// successors.
pub proof fn lemma_px_to(v: Strip, i: int, j: int, vw: int, gap: int)
    requires
        0 <= i <= j,
        0 <= gap,
    ensures
        v.px_to(i, vw, gap) + gap * (j - i) <= v.px_to(j, vw, gap),
    decreases j - i,
{
    if i < j {
        lemma_px_to(v, i, j - 1, vw, gap);
        assert(gap * (j - i) == gap * (j - 1 - i) + gap) by (nonlinear_arith);
    } else {
        assert(gap * 0 == 0) by (nonlinear_arith);
    }
}

pub(crate) proof fn lemma_col_x_bounds(v: Strip, c: int, wa: Rect, gap: int)
    requires
        v.fits(wa, gap),
        0 <= c <= v.columns.len(),
    ensures
        fits_i32(v.col_x(c, wa, gap)),
        wa.x + gap <= v.col_x(c, wa, gap),
        0 <= v.px_to(c, wa.w as int, gap),
        0 <= gap * c,
        c < v.columns.len() ==> v.col_x(c + 1, wa, gap) == v.col_x(c, wa, gap) + v.px(
            c,
            wa.w as int,
            gap,
        ) + gap,
        c < v.columns.len() ==> fits_i32(v.col_x(c + 1, wa, gap)),
        c < v.columns.len() ==> gap <= v.px(c, wa.w as int, gap) <= i32::MAX,
{
    let n = v.columns.len() as int;
    lemma_px_to(v, 0, c, wa.w as int, gap);
    lemma_px_to(v, c, n, wa.w as int, gap);
    assert(0 <= gap * c && 0 <= gap * (n - c) && gap * n == gap * c + gap * (n - c))
        by (nonlinear_arith)
        requires
            0 <= gap,
            0 <= c <= n,
    ;
    assert(0 <= gap * (c - 0)) by (nonlinear_arith)
        requires
            0 <= gap,
            0 <= c,
    ;
    if c < n {
        lemma_px_to(v, c + 1, n, wa.w as int, gap);
        assert(gap * (c + 1) == gap * c + gap) by (nonlinear_arith);
        assert(0 <= gap * (n - (c + 1)) && gap * n == gap * (c + 1) + gap * (n - (c + 1)))
            by (nonlinear_arith)
            requires
                0 <= gap,
                c + 1 <= n,
        ;
    }
}

proof fn lemma_sum_nonneg(kids: Seq<Child>, usable: int, gap: int, i: int, j: int)
    requires
        0 <= i <= j <= kids.len(),
        0 <= gap,
    ensures
        0 <= sum_to(sizes_of(kids, usable, gap), i) <= sum_to(sizes_of(kids, usable, gap), j),
    decreases j,
{
    if j > 0 {
        lemma_size_bounds(kids, usable, gap, j - 1);
        if i < j {
            lemma_sum_nonneg(kids, usable, gap, i, j - 1);
        } else {
            lemma_sum_nonneg(kids, usable, gap, i - 1, j - 1);
        }
    }
}

/// Rows start at or below the column's top and stay in range.
pub(crate) proof fn lemma_row_bounds(v: Strip, c: int, r: int, wa: Rect, gap: int)
    requires
        v.fits(wa, gap),
        0 <= c < v.columns.len(),
        0 <= r <= v.columns[c].rows.len(),
    ensures
        0 <= v.row_off(c, r, strip_h(wa, gap), gap),
        fits_i32(wa.y + gap + v.row_off(c, r, strip_h(wa, gap), gap)),
        r < v.columns[c].rows.len() ==> v.row_off(c, r + 1, strip_h(wa, gap), gap) == v.row_off(
            c,
            r,
            strip_h(wa, gap),
            gap,
        ) + v.row_h(c, r, strip_h(wa, gap), gap) + gap,
        r < v.columns[c].rows.len() ==> 0 <= v.row_h(c, r, strip_h(wa, gap), gap) <= i32::MAX,
        r < v.columns[c].rows.len() ==> fits_i32(
            wa.y + gap + v.row_off(c, r + 1, strip_h(wa, gap), gap),
        ),
{
    let h = strip_h(wa, gap);
    let kids = v.kids(c);
    let u = v.usable(c, h, gap);
    let n = v.columns[c].rows.len() as int;
    lemma_sum_nonneg(kids, u, gap, r, n);
    sizes_sum(kids, u, gap);
    lemma_count_bounds(kids, n);
    let m = n - normal_count(kids, n);
    assert(0 <= m * gap <= n * gap && gap * n == n * gap) by (nonlinear_arith)
        requires
            0 <= m <= n,
            0 <= gap,
    ;
    assert(0 <= gap * (n - 1) || n == 0) by (nonlinear_arith)
        requires
            0 <= gap,
            0 <= n,
    ;
    assert(0 <= gap * r <= gap * n) by (nonlinear_arith)
        requires
            0 <= gap,
            0 <= r <= n,
    ;
    assert(n == 0 ==> u >= 0);
    assert(n > 0 ==> u <= h);
    if n == 0 {
        assert(kids.len() == 0);
    }
    if r < n {
        lemma_sum_nonneg(kids, u, gap, r + 1, n);
        lemma_size_bounds(kids, u, gap, r);
        assert(sizes_of(kids, u, gap)[r] == size_of_child(kids, u, gap, r));
        assert(gap * (r + 1) == gap * r + gap) by (nonlinear_arith);
        assert(gap * (r + 1) <= gap * n) by (nonlinear_arith)
            requires
                0 <= gap,
                r + 1 <= n,
        ;
    }
}

impl Layout {
    /// Whether the whole column is pinned to the gap width: every row
    /// minimized.
    pub fn col_pinned(&self, col: usize) -> (b: bool)
        requires
            col < self@.columns.len(),
        ensures
            b == self@.pinned(col as int),
    {
        let mut r: usize = 0;
        while r < self.columns[col].rows.len()
            invariant
                col < self.columns@.len(),
                r <= self.columns@[col as int].rows@.len(),
                forall|k: int|
                    0 <= k < r ==> (#[trigger] self@.columns[col as int].rows[k]).leaf.minimized,
            decreases self.columns@[col as int].rows@.len() - r,
        {
            if !self.columns[col].rows[r].leaf.minimized {
                assert(!self@.columns[col as int].rows[r as int].leaf.minimized);
                return false;
            }
            r = r + 1;
        }
        true
    }

    /// Column `col`'s laid-out pixel width: `Viewport` resolves against the
    /// viewport minus the outer margins, a pinned column to the gap.
    pub fn col_px(&self, col: usize, viewport_w: i32, gap: i32) -> (w: i32)
        requires
            col < self@.columns.len(),
            fits_i32(2 * gap),
            fits_i32(viewport_w - 2 * gap),
        ensures
            w == self@.px(col as int, viewport_w as int, gap as int),
    {
        if self.col_pinned(col) {
            gap
        } else {
            match self.columns[col].width {
                ColWidth::Viewport => max_i32(viewport_w - 2 * gap, gap),
                ColWidth::Px(w) => max_i32(w, gap),
            }
        }
    }

    /// Each column's laid-out pixel width, left to right.
    pub fn widths(&self, viewport_w: i32, gap: i32) -> (ws: Vec<i32>)
        requires
            fits_i32(2 * gap),
            fits_i32(viewport_w - 2 * gap),
        ensures
            ws@.len() == self@.columns.len(),
            forall|c: int|
                0 <= c < ws@.len() ==> #[trigger] ws@[c] == self@.px(
                    c,
                    viewport_w as int,
                    gap as int,
                ),
    {
        let mut out: Vec<i32> = Vec::new();
        let mut c: usize = 0;
        while c < self.columns.len()
            invariant
                c <= self.columns@.len(),
                out@.len() == c,
                fits_i32(2 * gap),
                fits_i32(viewport_w - 2 * gap),
                forall|k: int|
                    0 <= k < c ==> #[trigger] out@[k] == self@.px(
                        k,
                        viewport_w as int,
                        gap as int,
                    ),
            decreases self.columns@.len() - c,
        {
            out.push(self.col_px(c, viewport_w, gap));
            c = c + 1;
        }
        out
    }

    /// The scrollable strip's total width.
    pub fn strip_w(&self, viewport_w: i32, gap: i32) -> (w: i32)
        requires
            0 <= gap,
            fits_i32(2 * gap),
            fits_i32(viewport_w - 2 * gap),
            self@.columns.len() <= i32::MAX,
            0 < self@.columns.len(),
            fits_i32(self@.width(viewport_w as int, gap as int)),
        ensures
            w == self@.width(viewport_w as int, gap as int),
    {
        let n: usize = self.columns.len();
        let mut sum: i32 = 0;
        let mut c: usize = 0;
        while c < n
            invariant
                c <= n,
                n == self@.columns.len(),
                n == self.columns@.len(),
                0 < n <= i32::MAX,
                0 <= gap,
                fits_i32(2 * gap),
                fits_i32(viewport_w - 2 * gap),
                fits_i32(self@.width(viewport_w as int, gap as int)),
                sum == self@.px_to(c as int, viewport_w as int, gap as int),
                0 <= sum,
            decreases n - c,
        {
            proof {
                lemma_px_to(self@, c as int, n as int, viewport_w as int, gap as int);
                lemma_px_to(self@, c + 1, n as int, viewport_w as int, gap as int);
                let m = n as int;
                assert(0 <= gap * (m - 1) && 0 <= gap * (m - (c + 1))) by (nonlinear_arith)
                    requires
                        0 <= gap,
                        c + 1 <= m,
                        0 <= c,
                ;
            }
            let w: i32 = self.col_px(c, viewport_w, gap);
            sum = sum + w;
            c = c + 1;
        }
        proof {
            let m = n as int;
            assert(0 <= gap * (m - 1)) by (nonlinear_arith)
                requires
                    0 <= gap,
                    1 <= m,
            ;
        }
        2 * gap + sum + gap * (n as i32 - 1)
    }

    /// Per-row pixel heights within column `ci` at column height `h`.
    fn row_sizes(&self, ci: usize, h: i32, gap: i32) -> (sizes: Vec<i32>)
        requires
            ci < self@.columns.len(),
            0 <= gap,
            0 <= h,
            0 < self@.columns[ci as int].rows.len() <= i32::MAX,
            self@.columns[ci as int].rows.len() * gap <= i32::MAX,
        ensures
            sizes@.len() == self@.columns[ci as int].rows.len(),
            forall|r: int|
                0 <= r < sizes@.len() ==> #[trigger] sizes@[r] == self@.row_h(
                    ci as int,
                    r,
                    h as int,
                    gap as int,
                ),
    {
        let pinned = self.col_pinned(ci);
        let n: usize = self.columns[ci].rows.len();
        let mut kids: Vec<Child> = Vec::new();
        let mut r: usize = 0;
        while r < n
            invariant
                r <= n,
                ci < self.columns@.len(),
                n == self.columns@[ci as int].rows@.len(),
                pinned == self@.pinned(ci as int),
                kids@.len() == r,
                forall|k: int| 0 <= k < r ==> #[trigger] kids@[k] == self@.kids(ci as int)[k],
            decreases n - r,
        {
            let row = self.columns[ci].rows[r];
            kids.push((!pinned && row.leaf.minimized, row.frac));
            r = r + 1;
        }
        assert(kids@ =~= self@.kids(ci as int));
        proof {
            let m = n as int;
            assert(0 <= gap * (m - 1) <= m * gap) by (nonlinear_arith)
                requires
                    0 <= gap,
                    1 <= m,
            ;
            assert(0 <= m * gap) by (nonlinear_arith)
                requires
                    0 <= gap,
                    1 <= m,
            ;
        }
        let usable: i32 = max_i32(h - gap * (n as i32 - 1), 0);
        child_sizes(kids.as_slice(), usable, gap)
    }

    /// Canvas-space rect of each column, before its rows divide it.
    pub fn col_rects(&self, wa: Rect, gap: i32) -> (rects: Vec<Rect>)
        requires
            self@.wf(),
            self@.fits(wa, gap as int),
        ensures
            rects@ == Seq::new(
                self@.columns.len(),
                |c: int|
                    Rect {
                        x: self@.col_x(c, wa, gap as int) as i32,
                        y: (wa.y + gap) as i32,
                        w: self@.px(c, wa.w as int, gap as int) as i32,
                        h: strip_h(wa, gap as int) as i32,
                    },
            ),
    {
        let mut out: Vec<Rect> = Vec::new();
        let h: i32 = max_i32(wa.h - 2 * gap, 0);
        let ghost g = gap as int;
        proof {
            lemma_col_x_bounds(self@, 0, wa, g);
            assert(self@.columns[0].rows.len() > 0);
            lemma_row_bounds(self@, 0, 0, wa, g);
        }
        let y: i32 = wa.y + gap;
        let mut x: i32 = wa.x + gap;
        let mut c: usize = 0;
        while c < self.columns.len()
            invariant
                c <= self.columns@.len(),
                self@.fits(wa, g),
                g == gap,
                h == strip_h(wa, g),
                y == wa.y + gap,
                x == self@.col_x(c as int, wa, g),
                out@ == Seq::new(
                    c as nat,
                    |k: int|
                        Rect {
                            x: self@.col_x(k, wa, g) as i32,
                            y: (wa.y + gap) as i32,
                            w: self@.px(k, wa.w as int, g) as i32,
                            h: strip_h(wa, g) as i32,
                        },
                ),
            decreases self.columns@.len() - c,
        {
            proof {
                lemma_col_x_bounds(self@, c as int, wa, g);
            }
            let w: i32 = self.col_px(c, wa.w, gap);
            out.push(Rect { x, y, w, h });
            x = x + w + gap;
            c = c + 1;
        }
        out
    }

    /// Canvas-space rect of every split, in strip order. `wa` is the
    /// *viewport*: the strip extends past its right edge and the caller
    /// applies the scroll offset.
    pub fn compute(&self, wa: Rect, gap: i32) -> (geos: Vec<(NodeId, Rect)>)
        requires
            self@.wf(),
            self@.fits(wa, gap as int),
        ensures
            geos@ == self@.rects_to(self@.columns.len() as int, wa, gap as int),
    {
        let mut out: Vec<(NodeId, Rect)> = Vec::new();
        let h: i32 = max_i32(wa.h - 2 * gap, 0);
        let ghost g = gap as int;
        let mut c: usize = 0;
        proof {
            lemma_col_x_bounds(self@, 0, wa, g);
        }
        let mut x: i32 = wa.x + gap;
        while c < self.columns.len()
            invariant
                c <= self.columns@.len(),
                self@.wf(),
                self@.fits(wa, g),
                g == gap,
                h == strip_h(wa, g),
                x == self@.col_x(c as int, wa, g),
                out@ == self@.rects_to(c as int, wa, g),
            decreases self.columns@.len() - c,
        {
            proof {
                lemma_col_x_bounds(self@, c as int, wa, g);
                assert(self@.columns[c as int].rows.len() > 0);
                lemma_row_bounds(self@, c as int, 0, wa, g);
            }
            let w: i32 = self.col_px(c, wa.w, gap);
            let sizes = self.row_sizes(c, h, gap);
            let ghost start = out@;
            let ghost part = Seq::new(
                self@.columns[c as int].rows.len(),
                |r: int|
                    (self@.columns[c as int].rows[r].id, self@.rect(c as int, r, wa, g)),
            );
            let mut y: i32 = wa.y + gap;
            let mut r: usize = 0;
            while r < self.columns[c].rows.len()
                invariant
                    c < self.columns@.len(),
                    r <= self.columns@[c as int].rows@.len(),
                    self@.wf(),
                    self@.fits(wa, g),
                    g == gap,
                    h == strip_h(wa, g),
                    x == self@.col_x(c as int, wa, g),
                    w == self@.px(c as int, wa.w as int, g),
                    sizes@.len() == self@.columns[c as int].rows.len(),
                    forall|k: int|
                        0 <= k < sizes@.len() ==> #[trigger] sizes@[k] == self@.row_h(
                            c as int,
                            k,
                            h as int,
                            g,
                        ),
                    y == wa.y + gap + self@.row_off(c as int, r as int, h as int, g),
                    part == Seq::new(
                        self@.columns[c as int].rows.len(),
                        |r: int|
                            (self@.columns[c as int].rows[r].id, self@.rect(c as int, r, wa, g)),
                    ),
                    out@ == start + part.take(r as int),
                decreases self.columns@[c as int].rows@.len() - r,
            {
                proof {
                    lemma_row_bounds(self@, c as int, r as int, wa, g);
                }
                out.push((self.columns[c].rows[r].id, Rect { x, y, w, h: sizes[r] }));
                assert(part.take(r + 1) =~= part.take(r as int).push(part[r as int]));
                y = y + sizes[r] + gap;
                r = r + 1;
            }
            assert(part.take(r as int) =~= part);
            x = x + w + gap;
            c = c + 1;
        }
        out
    }

    /// Every gap's laid-out slot: between adjacent columns, and between
    /// adjacent rows within each stack.
    pub fn boundaries(&self, wa: Rect, gap: i32) -> (gaps: Vec<Boundary>)
        requires
            self@.wf(),
            self@.fits(wa, gap as int),
        ensures
            gaps@ == self@.gaps_to(self@.columns.len() as int, wa, gap as int),
    {
        let mut out: Vec<Boundary> = Vec::new();
        let h: i32 = max_i32(wa.h - 2 * gap, 0);
        let ghost g = gap as int;
        let mut c: usize = 0;
        proof {
            lemma_col_x_bounds(self@, 0, wa, g);
        }
        let mut x: i32 = wa.x + gap;
        while c < self.columns.len()
            invariant
                c <= self.columns@.len(),
                self@.wf(),
                self@.fits(wa, g),
                g == gap,
                h == strip_h(wa, g),
                x == self@.col_x(c as int, wa, g),
                out@ == self@.gaps_to(c as int, wa, g),
            decreases self.columns@.len() - c,
        {
            let ghost ci = c as int;
            proof {
                lemma_col_x_bounds(self@, ci, wa, g);
                assert(self@.columns[ci].rows.len() > 0);
                lemma_row_bounds(self@, ci, 0, wa, g);
            }
            let w: i32 = self.col_px(c, wa.w, gap);
            let ghost start = out@;
            let ghost right = if ci + 1 < self@.columns.len() {
                seq![self@.col_gap(ci, wa, g)]
            } else {
                Seq::empty()
            };
            if c + 1 < self.columns.len() {
                proof {
                    lemma_col_x_bounds(self@, ci + 1, wa, g);
                }
                let next: i32 = self.col_px(c + 1, wa.w, gap);
                let resizable = !self.col_pinned(c) && !self.col_pinned(c + 1);
                out.push(
                    Boundary {
                        at: GapAt::Col(c),
                        pos: x + w + gap / 2,
                        start: x,
                        first: w,
                        second: next,
                        cross: wa.y + gap,
                        cross_len: h,
                        resizable,
                    },
                );
            }
            assert(out@ =~= start + right);
            let sizes = self.row_sizes(c, h, gap);
            let ghost part = Seq::new(
                (self@.columns[ci].rows.len() - 1) as nat,
                |r: int| self@.row_gap(ci, r, wa, g),
            );
            let mut y: i32 = wa.y + gap;
            let mut r: usize = 0;
            while r + 1 < sizes.len()
                invariant
                    ci == c,
                    c < self.columns@.len(),
                    r < self.columns@[ci].rows@.len(),
                    self@.wf(),
                    self@.fits(wa, g),
                    g == gap,
                    h == strip_h(wa, g),
                    x == self@.col_x(ci, wa, g),
                    w == self@.px(ci, wa.w as int, g),
                    sizes@.len() == self@.columns[ci].rows.len(),
                    forall|k: int|
                        0 <= k < sizes@.len() ==> #[trigger] sizes@[k] == self@.row_h(
                            ci,
                            k,
                            h as int,
                            g,
                        ),
                    y == wa.y + gap + self@.row_off(ci, r as int, h as int, g),
                    part == Seq::new(
                        (self@.columns[ci].rows.len() - 1) as nat,
                        |r: int| self@.row_gap(ci, r, wa, g),
                    ),
                    out@ == start + right + part.take(r as int),
                decreases self.columns@[ci].rows@.len() - r,
            {
                proof {
                    lemma_row_bounds(self@, ci, r as int, wa, g);
                    lemma_row_bounds(self@, ci, r + 1, wa, g);
                }
                let resizable = !self.columns[c].rows[r].leaf.minimized
                    && !self.columns[c].rows[r + 1].leaf.minimized;
                out.push(
                    Boundary {
                        at: GapAt::Row { col: c, idx: r },
                        pos: y + sizes[r] + gap / 2,
                        start: y,
                        first: sizes[r],
                        second: sizes[r + 1],
                        cross: x,
                        cross_len: w,
                        resizable,
                    },
                );
                assert(part.take(r + 1) =~= part.take(r as int).push(part[r as int]));
                y = y + sizes[r] + gap;
                r = r + 1;
            }
            proof {
                assert(part.take(r as int) =~= part);
                assert(out@ =~= start + (right + part));
            }
            x = x + w + gap;
            c = c + 1;
        }
        out
    }

    /// Every place a new split can be inserted, as the canvas-space centre
    /// its "+" button sits on: one slot per column position (the outer
    /// margins and every inter-column gap, centred in the strip's height)
    /// and one slot per row position of every column (its top and bottom
    /// margins and every inter-row gap, centred on the column's width).
    pub fn insert_slots(&self, wa: Rect, gap: i32) -> (slots: Vec<(i32, i32, Insert)>)
        requires
            self@.wf(),
            self@.fits(wa, gap as int),
        ensures
            slots@ == self@.slots_to(self@.columns.len() as int, wa, gap as int),
    {
        let mut out: Vec<(i32, i32, Insert)> = Vec::new();
        let h: i32 = max_i32(wa.h - 2 * gap, 0);
        let ghost g = gap as int;
        let mut c: usize = 0;
        proof {
            lemma_col_x_bounds(self@, 0, wa, g);
        }
        let strip_cy: i32 = wa.y + half_i32(wa.h);
        out.push((wa.x + gap / 2, strip_cy, Insert::Col(0)));
        let mut x: i32 = wa.x + gap;
        assert(out@ =~= self@.slots_to(0, wa, g));
        while c < self.columns.len()
            invariant
                c <= self.columns@.len(),
                self@.wf(),
                self@.fits(wa, g),
                g == gap,
                h == strip_h(wa, g),
                strip_cy == wa.y + half(wa.h as int),
                x == self@.col_x(c as int, wa, g),
                out@ == self@.slots_to(c as int, wa, g),
            decreases self.columns@.len() - c,
        {
            let ghost ci = c as int;
            proof {
                lemma_col_x_bounds(self@, ci, wa, g);
                assert(self@.columns[ci].rows.len() > 0);
                lemma_row_bounds(self@, ci, 0, wa, g);
                reveal_with_fuel(sum_to, 1);
                assert(gap * 0 == 0) by (nonlinear_arith);
            }
            let w: i32 = self.col_px(c, wa.w, gap);
            let ghost start = out@;
            let ghost right = seq![
                (
                    (x + w + g / 2) as i32,
                    (wa.y + half(wa.h as int)) as i32,
                    Insert::Col((ci + 1) as usize),
                ),
            ];
            let ghost part = Seq::new(
                (self@.columns[ci].rows.len() + 1) as nat,
                |r: int|
                    (
                        (x + w as int / 2) as i32,
                        (wa.y + g + self@.row_off(ci, r, h as int, g) - g / 2) as i32,
                        Insert::Row { col: ci as usize, idx: r as usize },
                    ),
            );
            out.push((x + w + gap / 2, strip_cy, Insert::Col(c + 1)));
            let cx: i32 = x + w / 2;
            out.push((cx, wa.y + gap - gap / 2, Insert::Row { col: c, idx: 0 }));
            assert(part.take(1) =~= seq![part[0]]);
            assert(out@ =~= start + right + part.take(1));
            let sizes = self.row_sizes(c, h, gap);
            let mut y: i32 = wa.y + gap;
            let mut r: usize = 0;
            while r < sizes.len()
                invariant
                    ci == c,
                    c < self.columns@.len(),
                    r <= self.columns@[ci].rows@.len(),
                    self@.wf(),
                    self@.fits(wa, g),
                    g == gap,
                    h == strip_h(wa, g),
                    cx == x + w as int / 2,
                    sizes@.len() == self@.columns[ci].rows.len(),
                    forall|k: int|
                        0 <= k < sizes@.len() ==> #[trigger] sizes@[k] == self@.row_h(
                            ci,
                            k,
                            h as int,
                            g,
                        ),
                    y == wa.y + gap + self@.row_off(ci, r as int, h as int, g),
                    part == Seq::new(
                        (self@.columns[ci].rows.len() + 1) as nat,
                        |r: int|
                            (
                                (x + w as int / 2) as i32,
                                (wa.y + g + self@.row_off(ci, r, h as int, g) - g / 2) as i32,
                                Insert::Row { col: ci as usize, idx: r as usize },
                            ),
                    ),
                    out@ == start + right + part.take(r + 1),
                decreases self.columns@[ci].rows@.len() - r,
            {
                proof {
                    lemma_row_bounds(self@, ci, r as int, wa, g);
                    lemma_row_bounds(self@, ci, r + 1, wa, g);
                }
                y = y + sizes[r] + gap;
                out.push((cx, y - gap / 2, Insert::Row { col: c, idx: r + 1 }));
                assert(part.take(r + 2) =~= part.take(r + 1).push(part[r + 1]));
                r = r + 1;
            }
            proof {
                assert(part.take(r + 1) =~= part);
                assert(self@.slots_of(ci, wa, g) =~= right + part);
                assert(out@ =~= start + (right + part));
            }
            x = x + w + gap;
            c = c + 1;
        }
        out
    }
}

} // verus!
