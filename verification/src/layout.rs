//! The flat column strip.
//!
//! The layout is a left-to-right list of *columns*; a column holds one
//! split, or one vertical *stack* of splits. That is the entire shape:
//! deeper nesting is unrepresentable. Columns own their width in pixels
//! (the scrollable strip is exactly the columns laid end to end), while
//! rows within a stack hold shares of the column's height, which is always
//! the viewport's.

pub mod geometry;
pub mod laws;

use crate::geom::imin;
use crate::sizes::{Share, SHARE_ONE};
use crate::{Index, Win};
use vstd::prelude::*;

verus! {

/// Stable identity of one split, minted by `Layout` and kept for the
/// split's whole life across moves and resizes. A newtype, so that a split
/// id and a `Win` can never be swapped at a call site.
#[derive(Clone, Copy, PartialEq, Eq, Hash, Debug, Structural)]
pub struct NodeId(pub u32);

/// A gap's orientation: `H` is a vertical gap between columns (dragged
/// along x), `V` a horizontal gap between stacked rows (dragged along y).
#[derive(Clone, Copy, PartialEq, Eq, Debug, Structural)]
pub enum Dir {
    H,
    V,
}

/// One split's own data.
#[derive(Clone, Copy, PartialEq, Eq, Debug, Structural)]
pub struct Leaf {
    /// The single window shown in this split, if any. An empty leaf is a
    /// placeholder awaiting the next new window.
    pub client: Option<Win>,
    pub minimized: bool,
    /// Persistent accent palette index of this split.
    pub color: Index,
}

impl Default for Leaf {
    fn default() -> (l: Leaf)
        ensures
            l == (Leaf { client: None, minimized: false, color: 0 }),
    {
        Leaf { client: None, minimized: false, color: 0 }
    }
}

impl Leaf {
    /// Show `c` in this leaf. A leaf showing a window is never minimized: a
    /// minimized leaf's window is never mapped, so assigning a client
    /// without clearing the flag would leave the window unviewable.
    pub fn show(&mut self, c: Win)
        ensures
            *final(self) == (Leaf { client: Some(c), minimized: false, color: old(self).color }),
    {
        self.client = Some(c);
        self.minimized = false;
    }
}

/// A split's place in the strip: which column, and which row within it.
#[derive(Clone, Copy, PartialEq, Eq, Debug, Structural)]
pub struct Pos {
    pub col: usize,
    pub row: usize,
}

/// A column's width. `Viewport` tracks the viewport (the bootstrap column
/// fills the screen until something resizes it); every other column is a
/// plain pixel width.
#[derive(Clone, Copy, PartialEq, Eq, Debug, Structural)]
pub enum ColWidth {
    Viewport,
    Px(i32),
}

/// One stacked split: its identity, its share of the column's height, and
/// the split's own data. The leaf lives inline: a row without leaf data, or
/// an orphaned leaf, is unrepresentable.
#[derive(Clone, Copy, PartialEq, Eq, Debug, Structural)]
pub struct Row {
    pub id: NodeId,
    pub frac: Share,
    pub leaf: Leaf,
}

/// One column of the strip.
pub struct Column {
    width: ColWidth,
    rows: Vec<Row>,
}

/// The column strip.
pub struct Layout {
    columns: Vec<Column>,
    next_id: u32,
    /// The accent colours splits are given, in order of preference.
    palette: Vec<Index>,
}

/// What a column is: its width and its rows, top to bottom.
pub struct StripColumn {
    pub width: ColWidth,
    pub rows: Seq<Row>,
}

/// What a layout is: its columns, left to right, the next identity to hand
/// out, and the colours to hand out.
pub struct Strip {
    pub columns: Seq<StripColumn>,
    pub next_id: u32,
    pub palette: Seq<Index>,
}

/// The sum of the shares of the first `n` rows.
pub open spec fn shares_to(rows: Seq<Row>, n: int) -> int
    decreases n,
{
    if n <= 0 {
        0
    } else {
        shares_to(rows, n - 1) + rows[n - 1].frac
    }
}

/// The sum of all shares.
pub open spec fn share_total(rows: Seq<Row>) -> int {
    shares_to(rows, rows.len() as int)
}

/// `row` with another share.
pub open spec fn with_frac(row: Row, frac: int) -> Row {
    Row { id: row.id, frac: frac as u64, leaf: row.leaf }
}

/// The rows of a stack scaled so that their shares make one whole again,
/// each rounded down; rows that all have no share stay as they are.
pub open spec fn renormalised(rows: Seq<Row>) -> Seq<Row> {
    let s = share_total(rows);
    Seq::new(
        rows.len(),
        |i: int|
            if s > 0 {
                with_frac(rows[i], rows[i].frac * SHARE_ONE / s)
            } else {
                rows[i]
            },
    )
}

/// The rows of a stack after one with share `freed` left: each survivor
/// takes its proportional part of it, rounded down.
pub open spec fn reclaimed(rows: Seq<Row>, freed: int) -> Seq<Row> {
    let s = share_total(rows);
    Seq::new(
        rows.len(),
        |i: int|
            if s > 0 {
                with_frac(rows[i], rows[i].frac + freed * rows[i].frac / s)
            } else {
                rows[i]
            },
    )
}

/// The average share of a stack, rounded down.
pub open spec fn average_share(rows: Seq<Row>) -> int {
    share_total(rows) / rows.len() as int
}

/// The colour cycled to for the `n`th split once the palette ran out.
pub open spec fn cycled_leaf_color(palette: Seq<Index>, n: u32) -> Index {
    palette[(n as int) % (palette.len() as int)]
}

impl Strip {
    /// Whether `p` is a place in the strip.
    pub open spec fn has(self, p: Pos) -> bool {
        p.col < self.columns.len() && p.row < self.columns[p.col as int].rows.len()
    }

    /// The row at `p`.
    pub open spec fn row(self, p: Pos) -> Row {
        self.columns[p.col as int].rows[p.row as int]
    }

    /// Whether `p` comes before `q` in strip order: columns left to right,
    /// rows top to bottom.
    pub open spec fn precedes(p: Pos, q: Pos) -> bool {
        p.col < q.col || (p.col == q.col && p.row < q.row)
    }

    /// Whether split `id` sits at `p`.
    pub open spec fn sits(self, id: NodeId, p: Pos) -> bool {
        self.has(p) && self.row(p).id == id
    }

    /// Whether `id` names a split of this strip.
    pub open spec fn live(self, id: NodeId) -> bool {
        exists|p: Pos| #[trigger] self.sits(id, p)
    }

    /// Where `id` sits.
    pub open spec fn pos_of(self, id: NodeId) -> Pos {
        choose|p: Pos| #[trigger] self.sits(id, p)
    }

    /// The data of split `id`.
    pub open spec fn leaf_of(self, id: NodeId) -> Leaf {
        self.row(self.pos_of(id)).leaf
    }

    /// No two places hold the same split.
    pub open spec fn ids_unique(self) -> bool {
        forall|p: Pos, q: Pos|
            #![trigger self.row(p), self.row(q)]
            self.has(p) && self.has(q) && self.row(p).id == self.row(q).id ==> p == q
    }

    /// Every identity was handed out earlier.
    pub open spec fn ids_old(self) -> bool {
        forall|p: Pos| self.has(p) ==> (#[trigger] self.row(p)).id.0 < self.next_id
    }

    /// What always holds of a layout: at least one column, no empty column,
    /// unique identities, shares that add up within the machine's range,
    /// and a colour to give.
    pub open spec fn wf(self) -> bool {
        &&& self.columns.len() > 0
        &&& self.palette.len() > 0
        &&& forall|c: int| 0 <= c < self.columns.len() ==> (#[trigger] self.columns[c]).rows.len() > 0
        &&& forall|c: int|
            0 <= c < self.columns.len() ==> share_total((#[trigger] self.columns[c]).rows)
                <= u64::MAX
        &&& self.ids_unique()
        &&& self.ids_old()
    }

    /// Whether the strip is down to its one guaranteed split.
    pub open spec fn sole(self) -> bool {
        self.columns.len() == 1 && self.columns[0].rows.len() == 1
    }

    /// Whether some split has colour `c`.
    pub open spec fn uses_color(self, c: Index) -> bool {
        exists|p: Pos| self.has(p) && (#[trigger] self.row(p)).leaf.color == c
    }

    /// The first palette colour from `k` on that no split has, or the
    /// cycled one when there is none.
    pub open spec fn free_color_from(self, n: u32, k: int) -> Index
        decreases self.palette.len() - k,
    {
        if k >= self.palette.len() {
            cycled_leaf_color(self.palette, n)
        } else if !self.uses_color(self.palette[k]) {
            self.palette[k]
        } else {
            self.free_color_from(n, k + 1)
        }
    }

    /// The split the strip would mint next, with share `frac`.
    pub open spec fn fresh_row(self, frac: int) -> Row {
        Row {
            id: NodeId(self.next_id),
            frac: frac as u64,
            leaf: Leaf {
                client: None,
                minimized: false,
                color: self.free_color_from(self.next_id, 0),
            },
        }
    }

    /// The strip with other columns.
    pub open spec fn with_columns(self, columns: Seq<StripColumn>) -> Strip {
        Strip { columns, next_id: self.next_id, palette: self.palette }
    }

    /// The strip with the rows of column `c` replaced.
    pub open spec fn with_rows(self, c: int, rows: Seq<Row>) -> Strip {
        self.with_columns(
            self.columns.update(c, StripColumn { width: self.columns[c].width, rows }),
        )
    }

    /// The strip with `row` replaced at `p`.
    pub open spec fn with_row(self, p: Pos, row: Row) -> Strip {
        self.with_rows(p.col as int, self.columns[p.col as int].rows.update(p.row as int, row))
    }

    /// The strip with a one-row column put in at `at`.
    pub open spec fn with_column(self, at: int, width: ColWidth, row: Row) -> Strip {
        self.with_columns(self.columns.insert(at, StripColumn { width, rows: seq![row] }))
    }

    /// The strip once its next identity has been handed out.
    pub open spec fn minted(self) -> Strip {
        Strip { columns: self.columns, next_id: (self.next_id + 1) as u32, palette: self.palette }
    }

    /// The strip after the split at `p` left: a row leaving a stack hands
    /// its share to the surviving rows; a lone row takes its column along.
    pub open spec fn removed(self, p: Pos) -> Strip {
        let rows = self.columns[p.col as int].rows;
        if rows.len() > 1 {
            self.with_rows(
                p.col as int,
                reclaimed(rows.remove(p.row as int), rows[p.row as int].frac as int),
            )
        } else {
            self.with_columns(self.columns.remove(p.col as int))
        }
    }

    /// The split that focus lands on after the one at `p` left: the nearest
    /// surviving row of its column, else the nearest column's first row.
    pub open spec fn focus_after(self, p: Pos) -> NodeId {
        let rows = self.columns[p.col as int].rows;
        let next = self.removed(p);
        if rows.len() > 1 {
            next.columns[p.col as int].rows[imin(p.row as int, rows.len() - 2)].id
        } else {
            next.columns[imin(p.col as int, self.columns.len() - 2)].rows[0].id
        }
    }

    /// Whether a move of `src` to a column of its own next to `dst` changes
    /// anything: both are live and distinct, and `src` is not already a lone
    /// column on that side.
    pub open spec fn moves_beside(self, src: NodeId, dst: NodeId, before: bool) -> bool {
        let (sp, dp) = (self.pos_of(src), self.pos_of(dst));
        &&& src != dst
        &&& self.live(src)
        &&& self.live(dst)
        &&& !(self.columns[sp.col as int].rows.len() == 1 && sp.col == (if before {
            dp.col - 1
        } else {
            dp.col + 1
        }))
    }

    /// The strip after that move: a split that was a whole column keeps its
    /// width, one pulled out of a stack gets `default_w`.
    pub open spec fn moved_beside(
        self,
        src: NodeId,
        dst: NodeId,
        before: bool,
        default_w: ColWidth,
    ) -> Strip {
        let sp = self.pos_of(src);
        let lone = self.columns[sp.col as int].rows.len() == 1;
        let rest = self.removed(sp);
        let dcol = rest.pos_of(dst).col as int;
        rest.with_column(
            if before {
                dcol
            } else {
                dcol + 1
            },
            if lone {
                self.columns[sp.col as int].width
            } else {
                default_w
            },
            with_frac(self.row(sp), SHARE_ONE as int),
        )
    }

    /// Whether a move of `src` into `dst`'s stack changes anything: both are
    /// live and distinct, and `src` does not already sit there at that share.
    pub open spec fn moves_into_stack(self, src: NodeId, dst: NodeId, before: bool) -> bool {
        &&& src != dst
        &&& self.live(src)
        &&& self.live(dst)
        &&& self.moved_into_stack(src, dst, before) != self
    }

    /// The strip after `src` joined `dst`'s stack, directly above or below
    /// it, at the average share.
    pub open spec fn moved_into_stack(self, src: NodeId, dst: NodeId, before: bool) -> Strip {
        let sp = self.pos_of(src);
        let rest = self.removed(sp);
        let dp = rest.pos_of(dst);
        let rows = rest.columns[dp.col as int].rows;
        let at = if before {
            dp.row as int
        } else {
            dp.row + 1
        };
        rest.with_rows(
            dp.col as int,
            renormalised(rows.insert(at, with_frac(self.row(sp), average_share(rows)))),
        )
    }
}

impl Column {
    closed spec fn v(self) -> StripColumn {
        StripColumn { width: self.width, rows: self.rows@ }
    }
}

impl View for Layout {
    type V = Strip;

    closed spec fn view(&self) -> Strip {
        Strip {
            columns: self.columns@.map_values(|c: Column| c.v()),
            next_id: self.next_id,
            palette: self.palette@,
        }
    }
}

// --- shares ---

pub proof fn lemma_shares_nonneg(rows: Seq<Row>, n: int)
    requires
        0 <= n <= rows.len(),
    ensures
        0 <= shares_to(rows, n) <= n * (u64::MAX as int),
    decreases n,
{
    if n > 0 {
        lemma_shares_nonneg(rows, n - 1);
        assert(n * (u64::MAX as int) == (n - 1) * (u64::MAX as int) + u64::MAX as int)
            by (nonlinear_arith);
    }
}

pub proof fn lemma_share_le_total(rows: Seq<Row>, i: int, n: int)
    requires
        0 <= i < n <= rows.len(),
    ensures
        rows[i].frac <= shares_to(rows, n),
        shares_to(rows, i) + rows[i].frac <= shares_to(rows, n),
    decreases n,
{
    lemma_shares_nonneg(rows, n - 1);
    lemma_shares_nonneg(rows, i);
    if i < n - 1 {
        lemma_share_le_total(rows, i, n - 1);
    }
}

proof fn lemma_shares_agree(a: Seq<Row>, b: Seq<Row>, n: int)
    requires
        0 <= n <= a.len(),
        n <= b.len(),
        forall|i: int| 0 <= i < n ==> (#[trigger] a[i]).frac == b[i].frac,
    ensures
        shares_to(a, n) == shares_to(b, n),
    decreases n,
{
    if n > 0 {
        lemma_shares_agree(a, b, n - 1);
    }
}

proof fn lemma_shares_insert(rows: Seq<Row>, at: int, row: Row, n: int)
    requires
        0 <= at <= rows.len(),
        0 <= n <= rows.len() + 1,
    ensures
        n > at ==> shares_to(rows.insert(at, row), n) == shares_to(rows, n - 1) + row.frac,
        n <= at ==> shares_to(rows.insert(at, row), n) == shares_to(rows, n),
    decreases n,
{
    if n > 0 {
        lemma_shares_insert(rows, at, row, n - 1);
        if n - 1 > at {
            assert(rows.insert(at, row)[n - 1] == rows[n - 2]);
        } else if n - 1 == at {
            assert(rows.insert(at, row)[n - 1] == row);
        } else {
            assert(rows.insert(at, row)[n - 1] == rows[n - 1]);
        }
    }
}

proof fn lemma_shares_remove(rows: Seq<Row>, at: int, n: int)
    requires
        0 <= at < rows.len(),
        0 <= n < rows.len(),
    ensures
        n > at ==> shares_to(rows.remove(at), n) == shares_to(rows, n + 1) - rows[at].frac,
        n <= at ==> shares_to(rows.remove(at), n) == shares_to(rows, n),
    decreases n,
{
    if n > 0 {
        lemma_shares_remove(rows, at, n - 1);
        if n - 1 >= at {
            assert(rows.remove(at)[n - 1] == rows[n]);
        } else {
            assert(rows.remove(at)[n - 1] == rows[n - 1]);
        }
    }
}

proof fn lemma_share_total_remove(rows: Seq<Row>, at: int)
    requires
        0 <= at < rows.len(),
    ensures
        share_total(rows.remove(at)) == share_total(rows) - rows[at].frac,
{
    lemma_shares_remove(rows, at, rows.len() - 1);
    if at == rows.len() - 1 {
        assert(shares_to(rows, rows.len() as int) == shares_to(rows, at) + rows[at].frac);
    }
}

proof fn lemma_share_total_insert(rows: Seq<Row>, at: int, row: Row)
    requires
        0 <= at <= rows.len(),
    ensures
        share_total(rows.insert(at, row)) == share_total(rows) + row.frac,
{
    lemma_shares_insert(rows, at, row, rows.len() as int + 1);
}

/// What a survivor takes of a freed share fits, and the survivors together
/// take no more than was freed.
proof fn lemma_reclaimed(rows: Seq<Row>, freed: int, n: int)
    requires
        0 <= n <= rows.len(),
        0 <= freed,
        share_total(rows) + freed <= u64::MAX,
        share_total(rows) > 0,
    ensures
        share_total(rows) * (shares_to(reclaimed(rows, freed), n) - shares_to(rows, n)) <= freed
            * shares_to(rows, n),
        shares_to(rows, n) <= shares_to(reclaimed(rows, freed), n) <= shares_to(rows, n) + freed,
        forall|i: int|
            0 <= i < n ==> 0 <= #[trigger] rows[i].frac + freed * rows[i].frac / share_total(rows)
                <= u64::MAX,
    decreases n,
{
    let s = share_total(rows);
    if n > 0 {
        lemma_reclaimed(rows, freed, n - 1);
        lemma_share_le_total(rows, n - 1, rows.len() as int);
        let f = rows[n - 1].frac as int;
        let part = freed * f / s;
        assert(0 <= part && s * part <= freed * f && part <= freed) by (nonlinear_arith)
            requires
                0 <= freed,
                0 <= f <= s,
                0 < s,
                part == freed * f / s,
        ;
        assert(reclaimed(rows, freed)[n - 1].frac == f + part);
        let d = shares_to(reclaimed(rows, freed), n - 1) - shares_to(rows, n - 1);
        let t = shares_to(rows, n - 1);
        assert(s * (d + part) == s * d + s * part) by (nonlinear_arith);
        assert(freed * (t + f) == freed * t + freed * f) by (nonlinear_arith);
        lemma_shares_nonneg(rows, n);
        if n < rows.len() {
            lemma_share_le_total(rows, n, rows.len() as int);
        }
        assert(d + part <= freed) by (nonlinear_arith)
            requires
                s * (d + part) <= freed * (t + f),
                t + f <= s,
                0 < s,
                0 <= freed,
        ;
    } else {
        assert(s * 0 == 0 && freed * 0 == 0) by (nonlinear_arith);
    }
}

/// Renormalised shares fit, and add up to at most one whole.
proof fn lemma_renormalised(rows: Seq<Row>, n: int)
    requires
        0 <= n <= rows.len(),
        share_total(rows) > 0,
    ensures
        share_total(rows) * shares_to(renormalised(rows), n) <= shares_to(rows, n) * SHARE_ONE,
        0 <= shares_to(renormalised(rows), n) <= SHARE_ONE,
        forall|i: int|
            0 <= i < n ==> 0 <= #[trigger] rows[i].frac * SHARE_ONE / share_total(rows)
                <= SHARE_ONE,
    decreases n,
{
    let s = share_total(rows);
    if n > 0 {
        lemma_renormalised(rows, n - 1);
        lemma_share_le_total(rows, n - 1, rows.len() as int);
        let f = rows[n - 1].frac as int;
        let one = SHARE_ONE as int;
        let part = f * one / s;
        assert(0 <= part && s * part <= f * one && part <= one) by (nonlinear_arith)
            requires
                0 <= f <= s,
                0 < s,
                0 < one,
                part == f * one / s,
        ;
        let d = shares_to(renormalised(rows), n - 1);
        let t = shares_to(rows, n - 1);
        assert(renormalised(rows)[n - 1].frac == part);
        assert(s * (d + part) == s * d + s * part) by (nonlinear_arith);
        assert((t + f) * one == t * one + f * one) by (nonlinear_arith);
        if n < rows.len() {
            lemma_share_le_total(rows, n, rows.len() as int);
        }
        assert(d + part <= one) by (nonlinear_arith)
            requires
                s * (d + part) <= (t + f) * one,
                t + f <= s,
                0 < s,
                0 < one,
        ;
    } else {
        assert(s * 0 == 0) by (nonlinear_arith);
    }
}

// --- places ---

/// A split sits at one place only.
pub proof fn lemma_pos(v: Strip, id: NodeId, p: Pos)
    requires
        v.ids_unique(),
        v.sits(id, p),
    ensures
        v.live(id),
        v.pos_of(id) == p,
{
    let q = v.pos_of(id);
    assert(v.sits(id, q));
    assert(v.row(p).id == v.row(q).id);
}

/// Where the row now at `q` sat before the split at `p` was removed.
spec fn before_removal(v: Strip, p: Pos, q: Pos) -> Pos {
    if v.columns[p.col as int].rows.len() > 1 {
        if q.col == p.col && q.row >= p.row {
            Pos { col: q.col, row: (q.row + 1) as usize }
        } else {
            q
        }
    } else if q.col >= p.col {
        Pos { col: (q.col + 1) as usize, row: q.row }
    } else {
        q
    }
}

/// Where the row at `q` sits after the split at `p` was removed.
spec fn after_removal(v: Strip, p: Pos, q: Pos) -> Pos {
    if v.columns[p.col as int].rows.len() > 1 {
        if q.col == p.col && q.row > p.row {
            Pos { col: q.col, row: (q.row - 1) as usize }
        } else {
            q
        }
    } else if q.col > p.col {
        Pos { col: (q.col - 1) as usize, row: q.row }
    } else {
        q
    }
}

/// The machine's address space bounds every position.
pub open spec fn small(v: Strip) -> bool {
    &&& v.columns.len() <= usize::MAX
    &&& forall|c: int|
        0 <= c < v.columns.len() ==> (#[trigger] v.columns[c]).rows.len() <= usize::MAX
}

proof fn lemma_removed_row(v: Strip, p: Pos, q: Pos)
    requires
        v.wf(),
        small(v),
        v.has(p),
        v.removed(p).has(q),
    ensures
        v.has(before_removal(v, p, q)),
        v.row(before_removal(v, p, q)).id == v.removed(p).row(q).id,
        v.row(before_removal(v, p, q)).leaf == v.removed(p).row(q).leaf,
        before_removal(v, p, q) != p,
        after_removal(v, p, before_removal(v, p, q)) == q,
{
    let rows = v.columns[p.col as int].rows;
    let r = before_removal(v, p, q);
    if rows.len() > 1 {
        let left = rows.remove(p.row as int);
        if q.col == p.col {
            assert(v.removed(p).columns[q.col as int].rows == reclaimed(
                left,
                rows[p.row as int].frac as int,
            ));
            assert(left[q.row as int] == rows[r.row as int]);
        } else {
            assert(v.removed(p).columns[q.col as int] == v.columns[q.col as int]);
        }
    } else {
        assert(v.removed(p).columns[q.col as int] == v.columns[r.col as int]);
    }
}

proof fn lemma_kept_row(v: Strip, p: Pos, q: Pos)
    requires
        v.wf(),
        small(v),
        v.has(p),
        v.has(q),
        q != p,
    ensures
        v.removed(p).has(after_removal(v, p, q)),
        v.removed(p).row(after_removal(v, p, q)).id == v.row(q).id,
{
    let rows = v.columns[p.col as int].rows;
    let r = after_removal(v, p, q);
    if rows.len() > 1 {
        let left = rows.remove(p.row as int);
        if q.col == p.col {
            assert(v.removed(p).columns[q.col as int].rows == reclaimed(
                left,
                rows[p.row as int].frac as int,
            ));
            assert(left[r.row as int] == rows[q.row as int]);
        } else {
            assert(v.removed(p).columns[q.col as int] == v.columns[q.col as int]);
        }
    } else {
        assert(v.columns[p.col as int].rows.len() == 1);
        if q.col == p.col {
            assert(q.row == 0 && p.row == 0);
        }
        assert(v.removed(p).columns[r.col as int] == v.columns[q.col as int]);
    }
}

/// Removing a split keeps the strip well-formed and every other split with
/// its data.
pub(crate) proof fn lemma_removed(v: Strip, p: Pos)
    requires
        v.wf(),
        small(v),
        v.has(p),
        !v.sole(),
    ensures
        v.removed(p).wf(),
        small(v.removed(p)),
        forall|id: NodeId|
            #[trigger] v.removed(p).live(id) <==> v.live(id) && id != v.row(p).id,
        forall|id: NodeId|
            #[trigger] v.removed(p).live(id) ==> v.removed(p).leaf_of(id) == v.leaf_of(id),
{
    let n = v.removed(p);
    let rows = v.columns[p.col as int].rows;
    assert forall|c: int| 0 <= c < n.columns.len() implies (#[trigger] n.columns[c]).rows.len() > 0
        && n.columns[c].rows.len() <= usize::MAX && share_total(n.columns[c].rows)
        <= u64::MAX by {
        if rows.len() > 1 {
            if c == p.col {
                let left = rows.remove(p.row as int);
                let freed = rows[p.row as int].frac as int;
                lemma_share_total_remove(rows, p.row as int);
                assert(n.columns[c].rows == reclaimed(left, freed));
                if share_total(left) > 0 {
                    lemma_reclaimed(left, freed, left.len() as int);
                } else {
                    lemma_shares_agree(reclaimed(left, freed), left, left.len() as int);
                }
            } else {
                assert(n.columns[c] == v.columns[c]);
            }
        } else if c < p.col {
            assert(n.columns[c] == v.columns[c]);
        } else {
            assert(n.columns[c] == v.columns[c + 1]);
        }
    }
    if rows.len() <= 1 {
        assert(rows.len() == 1);
        assert(v.columns.len() > 1) by {
            if v.columns.len() == 1 {
                assert(p.col == 0);
                assert(v.sole());
            }
        }
    }
    assert forall|a: Pos, b: Pos|
        #![trigger n.row(a), n.row(b)]
        n.has(a) && n.has(b) && n.row(a).id == n.row(b).id implies a == b by {
        lemma_removed_row(v, p, a);
        lemma_removed_row(v, p, b);
        let x = before_removal(v, p, a);
        let y = before_removal(v, p, b);
        assert(v.row(x).id == v.row(y).id);
    }
    assert forall|a: Pos| n.has(a) implies (#[trigger] n.row(a)).id.0 < n.next_id by {
        lemma_removed_row(v, p, a);
        assert(v.row(before_removal(v, p, a)).id.0 < v.next_id);
    }
    assert forall|id: NodeId| #[trigger] n.live(id) <==> v.live(id) && id != v.row(p).id by {
        if n.live(id) {
            let q = n.pos_of(id);
            assert(n.sits(id, q));
            lemma_removed_row(v, p, q);
            let x = before_removal(v, p, q);
            assert(v.sits(id, x));
            if id == v.row(p).id {
                assert(v.row(x).id == v.row(p).id);
            }
        }
        if v.live(id) && id != v.row(p).id {
            let q = v.pos_of(id);
            assert(v.sits(id, q));
            lemma_kept_row(v, p, q);
            assert(n.sits(id, after_removal(v, p, q)));
        }
    }
    assert forall|id: NodeId| #[trigger] n.live(id) implies n.leaf_of(id) == v.leaf_of(id) by {
        let q = n.pos_of(id);
        assert(n.sits(id, q));
        lemma_removed_row(v, p, q);
        let x = before_removal(v, p, q);
        assert(v.sits(id, x));
        lemma_pos(v, id, x);
    }
}

/// Where the row now at `q` sat before a row was put into column `c` at
/// `at`.
spec fn before_row(c: int, at: int, q: Pos) -> Pos {
    if q.col == c && q.row > at {
        Pos { col: q.col, row: (q.row - 1) as usize }
    } else {
        q
    }
}

/// Putting a split with a new identity into a stack, with whatever shares,
/// keeps the strip well-formed and every other split with its data.
proof fn lemma_row_added(v: Strip, c: int, at: int, rows: Seq<Row>, row: Row)
    requires
        v.wf(),
        small(v),
        0 <= c < v.columns.len(),
        0 <= at <= v.columns[c].rows.len(),
        rows.len() == v.columns[c].rows.len() + 1,
        rows.len() <= usize::MAX,
        forall|i: int|
            0 <= i < rows.len() ==> (#[trigger] rows[i]).id == v.columns[c].rows.insert(
                at,
                row,
            )[i].id && rows[i].leaf == v.columns[c].rows.insert(at, row)[i].leaf,
        share_total(rows) <= u64::MAX,
        !v.live(row.id),
        row.id.0 < v.next_id,
    ensures
        v.with_rows(c, rows).wf(),
        small(v.with_rows(c, rows)),
        forall|id: NodeId|
            #[trigger] v.with_rows(c, rows).live(id) <==> v.live(id) || id == row.id,
        forall|id: NodeId| #[trigger]
            v.live(id) ==> v.with_rows(c, rows).leaf_of(id) == v.leaf_of(id),
        v.with_rows(c, rows).leaf_of(row.id) == row.leaf,
        v.with_rows(c, rows).pos_of(row.id) == (Pos { col: c as usize, row: at as usize }),
{
    let n = v.with_rows(c, rows);
    let olds = v.columns[c].rows;
    let home = Pos { col: c as usize, row: at as usize };
    assert(n.columns[c].rows == rows);
    assert(n.sits(row.id, home)) by {
        assert(olds.insert(at, row)[at] == row);
    }
    assert forall|q: Pos| #![trigger n.row(q)] n.has(q) && q != home implies v.has(
        before_row(c, at, q),
    ) && v.row(before_row(c, at, q)).id == n.row(q).id && v.row(before_row(c, at, q)).leaf == n.row(
        q,
    ).leaf by {
        if q.col == c {
            let i = q.row as int;
            if i > at {
                assert(olds.insert(at, row)[i] == olds[i - 1]);
            } else {
                assert(olds.insert(at, row)[i] == olds[i]);
            }
        } else {
            assert(n.columns[q.col as int] == v.columns[q.col as int]);
        }
    }
    assert forall|q: Pos| #![trigger n.row(q)] n.has(q) && q != home implies n.row(q).id
        != row.id by {
        assert(v.sits(n.row(q).id, before_row(c, at, q)));
    }
    assert forall|a: Pos, b: Pos|
        #![trigger n.row(a), n.row(b)]
        n.has(a) && n.has(b) && n.row(a).id == n.row(b).id implies a == b by {
        assert(n.row(home).id == row.id);
        if a != home && b != home {
            let x = before_row(c, at, a);
            let y = before_row(c, at, b);
            assert(v.row(x).id == v.row(y).id);
        }
    }
    assert forall|a: Pos| n.has(a) implies (#[trigger] n.row(a)).id.0 < n.next_id by {
        if a != home {
            assert(v.row(before_row(c, at, a)).id.0 < v.next_id);
        }
    }
    assert forall|k: int| 0 <= k < n.columns.len() implies (#[trigger] n.columns[k]).rows.len() > 0
        && n.columns[k].rows.len() <= usize::MAX && share_total(n.columns[k].rows)
        <= u64::MAX by {
        if k != c {
            assert(n.columns[k] == v.columns[k]);
        }
    }
    assert forall|id: NodeId| #[trigger] v.live(id) implies n.live(id) && n.leaf_of(id)
        == v.leaf_of(id) by {
        let q = v.pos_of(id);
        assert(v.sits(id, q));
        let r = if q.col == c && q.row >= at {
            Pos { col: q.col, row: (q.row + 1) as usize }
        } else {
            q
        };
        assert(n.has(r) && r != home) by {
            if q.col != c {
                assert(n.columns[q.col as int] == v.columns[q.col as int]);
            }
        }
        assert(before_row(c, at, r) == q);
        assert(n.row(r).id == id);
        assert(n.sits(id, r));
        lemma_pos(n, id, r);
    }
    assert forall|id: NodeId| #[trigger] n.live(id) implies v.live(id) || id == row.id by {
        let q = n.pos_of(id);
        assert(n.sits(id, q));
        if q != home {
            assert(n.row(q).id == id);
            assert(v.sits(id, before_row(c, at, q)));
        }
    }
    lemma_pos(n, row.id, home);
}

/// Where a split sits once another one was removed.
proof fn lemma_removed_pos(v: Strip, p: Pos, id: NodeId)
    requires
        v.wf(),
        small(v),
        v.has(p),
        !v.sole(),
        v.live(id),
        id != v.row(p).id,
    ensures
        v.removed(p).live(id),
        v.removed(p).pos_of(id) == after_removal(v, p, v.pos_of(id)),
{
    let q = v.pos_of(id);
    assert(v.sits(id, q));
    lemma_removed(v, p);
    lemma_kept_row(v, p, q);
    assert(v.removed(p).sits(id, after_removal(v, p, q)));
    lemma_pos(v.removed(p), id, after_removal(v, p, q));
}

/// Where a split sits once another row was put into a stack.
proof fn lemma_row_added_pos(v: Strip, c: int, at: int, rows: Seq<Row>, row: Row, id: NodeId)
    requires
        v.wf(),
        small(v),
        0 <= c < v.columns.len(),
        0 <= at <= v.columns[c].rows.len(),
        rows.len() == v.columns[c].rows.len() + 1,
        rows.len() <= usize::MAX,
        forall|i: int|
            0 <= i < rows.len() ==> (#[trigger] rows[i]).id == v.columns[c].rows.insert(
                at,
                row,
            )[i].id,
        v.with_rows(c, rows).ids_unique(),
        v.live(id),
    ensures
        v.with_rows(c, rows).live(id),
        v.with_rows(c, rows).pos_of(id) == ({
            let q = v.pos_of(id);
            if q.col == c && q.row >= at {
                Pos { col: q.col, row: (q.row + 1) as usize }
            } else {
                q
            }
        }),
{
    let n = v.with_rows(c, rows);
    let olds = v.columns[c].rows;
    let q = v.pos_of(id);
    assert(v.sits(id, q));
    let r = if q.col == c && q.row >= at {
        Pos { col: q.col, row: (q.row + 1) as usize }
    } else {
        q
    };
    assert(n.columns[c].rows == rows);
    if q.col == c {
        if q.row >= at {
            assert(olds.insert(at, row)[q.row + 1] == olds[q.row as int]);
            assert(rows[q.row + 1].id == id);
        } else {
            assert(olds.insert(at, row)[q.row as int] == olds[q.row as int]);
            assert(rows[q.row as int].id == id);
        }
    } else {
        assert(n.columns[q.col as int] == v.columns[q.col as int]);
    }
    assert(n.sits(id, r));
    lemma_pos(n, id, r);
}

/// Where a split sits once a one-row column was put into the strip.
proof fn lemma_column_added_pos(v: Strip, at: int, width: ColWidth, row: Row, id: NodeId)
    requires
        v.wf(),
        small(v),
        v.columns.len() < usize::MAX,
        0 <= at <= v.columns.len(),
        v.with_column(at, width, row).ids_unique(),
        v.live(id),
    ensures
        v.with_column(at, width, row).live(id),
        v.with_column(at, width, row).pos_of(id) == ({
            let q = v.pos_of(id);
            if q.col >= at {
                Pos { col: (q.col + 1) as usize, row: q.row }
            } else {
                q
            }
        }),
{
    let n = v.with_column(at, width, row);
    let q = v.pos_of(id);
    assert(v.sits(id, q));
    let r = if q.col >= at {
        Pos { col: (q.col + 1) as usize, row: q.row }
    } else {
        q
    };
    assert(n.columns[r.col as int] == v.columns[q.col as int]);
    assert(n.sits(id, r));
    lemma_pos(n, id, r);
}

/// Putting a one-row column with a new identity into the strip keeps it
/// well-formed and every other split with its data.
pub(crate) proof fn lemma_column_added(v: Strip, at: int, width: ColWidth, row: Row)
    requires
        v.wf(),
        small(v),
        v.columns.len() < usize::MAX,
        0 <= at <= v.columns.len(),
        !v.live(row.id),
        row.id.0 < v.next_id,
    ensures
        v.with_column(at, width, row).wf(),
        small(v.with_column(at, width, row)),
        forall|id: NodeId|
            #[trigger] v.with_column(at, width, row).live(id) <==> v.live(id) || id == row.id,
        forall|id: NodeId| #[trigger]
            v.live(id) ==> v.with_column(at, width, row).leaf_of(id) == v.leaf_of(id),
        v.with_column(at, width, row).leaf_of(row.id) == row.leaf,
        v.with_column(at, width, row).pos_of(row.id) == (Pos { col: at as usize, row: 0 }),
{
    let n = v.with_column(at, width, row);
    let home = Pos { col: at as usize, row: 0 };
    let back = |q: Pos|
        if q.col > at {
            Pos { col: (q.col - 1) as usize, row: q.row }
        } else {
            q
        };
    assert(n.columns[at].rows == seq![row]);
    assert(n.sits(row.id, home));
    assert forall|q: Pos| #![trigger n.row(q)] n.has(q) && q != home implies v.has(back(q))
        && v.row(back(q)) == n.row(q) by {
        if q.col > at {
            assert(n.columns[q.col as int] == v.columns[q.col - 1]);
        } else if q.col < at {
            assert(n.columns[q.col as int] == v.columns[q.col as int]);
        }
    }
    assert forall|q: Pos| #![trigger n.row(q)] n.has(q) && q != home implies n.row(q).id
        != row.id by {
        assert(v.sits(n.row(q).id, back(q)));
    }
    assert forall|a: Pos, b: Pos|
        #![trigger n.row(a), n.row(b)]
        n.has(a) && n.has(b) && n.row(a).id == n.row(b).id implies a == b by {
        assert(n.row(home).id == row.id);
        if a != home && b != home {
            assert(v.row(back(a)).id == v.row(back(b)).id);
            assert(back(a) == back(b));
        }
    }
    assert forall|a: Pos| n.has(a) implies (#[trigger] n.row(a)).id.0 < n.next_id by {
        if a != home {
            assert(v.row(back(a)).id.0 < v.next_id);
        }
    }
    assert forall|k: int| 0 <= k < n.columns.len() implies (#[trigger] n.columns[k]).rows.len() > 0
        && n.columns[k].rows.len() <= usize::MAX && share_total(n.columns[k].rows)
        <= u64::MAX by {
        if k < at {
            assert(n.columns[k] == v.columns[k]);
        } else if k > at {
            assert(n.columns[k] == v.columns[k - 1]);
        } else {
            reveal_with_fuel(shares_to, 2);
        }
    }
    assert forall|id: NodeId| #[trigger] v.live(id) implies n.live(id) && n.leaf_of(id)
        == v.leaf_of(id) by {
        let q = v.pos_of(id);
        assert(v.sits(id, q));
        let r = if q.col >= at {
            Pos { col: (q.col + 1) as usize, row: q.row }
        } else {
            q
        };
        assert(n.has(r) && r != home) by {
            if q.col >= at {
                assert(n.columns[q.col + 1] == v.columns[q.col as int]);
            } else {
                assert(n.columns[q.col as int] == v.columns[q.col as int]);
            }
        }
        assert(n.row(r).id == id);
        assert(n.sits(id, r));
        lemma_pos(n, id, r);
    }
    assert forall|id: NodeId| #[trigger] n.live(id) implies v.live(id) || id == row.id by {
        let q = n.pos_of(id);
        assert(n.sits(id, q));
        if q != home {
            assert(n.row(q).id == id);
            assert(v.sits(id, back(q)));
        }
    }
    lemma_pos(n, row.id, home);
}

// --- operations ---

impl Layout {
    pub(crate) proof fn lemma_small(&self)
        ensures
            small(self@),
    {
        assert forall|c: int| 0 <= c < self@.columns.len() implies (
        #[trigger] self@.columns[c]).rows.len() <= usize::MAX by {
            let rows = self.columns@[c].rows;
            assert(rows.len() == rows@.len());
        }
        assert(self.columns.len() == self.columns@.len());
    }

    /// A strip of one empty split that fills the viewport. `palette` holds
    /// the accent colours to give to splits.
    pub fn new(palette: Vec<Index>) -> (l: Layout)
        requires
            palette@.len() > 0,
        ensures
            l@.wf(),
            l@.columns == seq![
                StripColumn {
                    width: ColWidth::Viewport,
                    rows: seq![
                        Row {
                            id: NodeId(1),
                            frac: SHARE_ONE,
                            leaf: Leaf {
                                client: None,
                                minimized: false,
                                color: cycled_leaf_color(palette@, 1),
                            },
                        },
                    ],
                },
            ],
            l@.next_id == 2,
            l@.palette == palette@,
    {
        let color: Index = palette[1 % palette.len()];
        let row = Row {
            id: NodeId(1),
            frac: SHARE_ONE,
            leaf: Leaf { client: None, minimized: false, color },
        };
        let mut rows: Vec<Row> = Vec::new();
        rows.push(row);
        let mut columns: Vec<Column> = Vec::new();
        columns.push(Column { width: ColWidth::Viewport, rows });
        let l = Layout { columns, next_id: 2, palette };
        proof {
            assert(l@.columns[0].rows =~= seq![row]);
            reveal_with_fuel(shares_to, 2);
            assert(l@.columns =~= seq![
                StripColumn { width: ColWidth::Viewport, rows: seq![row] },
            ]);
        }
        l
    }

    /// Where `id` sits in the strip, or `None` for a dead id.
    pub fn locate(&self, id: NodeId) -> (res: Option<Pos>)
        requires
            self@.wf(),
        ensures
            res == (if self@.live(id) {
                Some(self@.pos_of(id))
            } else {
                None
            }),
    {
        let mut c: usize = 0;
        while c < self.columns.len()
            invariant
                self@.wf(),
                c <= self.columns@.len(),
                forall|p: Pos| p.col < c ==> !#[trigger] self@.sits(id, p),
            decreases self.columns@.len() - c,
        {
            let mut r: usize = 0;
            while r < self.columns[c].rows.len()
                invariant
                    self@.wf(),
                    c < self.columns@.len(),
                    r <= self.columns@[c as int].rows@.len(),
                    forall|p: Pos| p.col < c ==> !#[trigger] self@.sits(id, p),
                    forall|p: Pos| p.col == c && p.row < r ==> !#[trigger] self@.sits(id, p),
                decreases self.columns@[c as int].rows@.len() - r,
            {
                let p = Pos { col: c, row: r };
                assert(self@.row(p) == self.columns@[c as int].rows@[r as int]);
                if self.columns[c].rows[r].id == id {
                    proof {
                        assert(self@.sits(id, p));
                        lemma_pos(self@, id, p);
                    }
                    return Some(p);
                }
                assert(!self@.sits(id, p));
                r = r + 1;
            }
            c = c + 1;
        }
        None
    }

    /// Whether `id` names a split of this strip.
    pub fn is_leaf(&self, id: NodeId) -> (b: bool)
        requires
            self@.wf(),
        ensures
            b == self@.live(id),
    {
        self.locate(id).is_some()
    }

    /// The data of split `id`.
    pub fn leaf(&self, id: NodeId) -> (res: Option<&Leaf>)
        requires
            self@.wf(),
        ensures
            res == (if self@.live(id) {
                Some(&self@.leaf_of(id))
            } else {
                None
            }),
    {
        match self.locate(id) {
            Some(p) => {
                proof {
                    assert(self@.sits(id, self@.pos_of(id)));
                }
                Some(&self.columns[p.col].rows[p.row].leaf)
            },
            None => None,
        }
    }

    /// The split at `pos`, or `None` past the strip's edges.
    pub fn leaf_at(&self, pos: Pos) -> (res: Option<NodeId>)
        ensures
            res == (if self@.has(pos) {
                Some(self@.row(pos).id)
            } else {
                None
            }),
    {
        if pos.col < self.columns.len() && pos.row < self.columns[pos.col].rows.len() {
            Some(self.columns[pos.col].rows[pos.row].id)
        } else {
            None
        }
    }

    /// The strip's first split (top-left).
    pub fn first_leaf(&self) -> (id: NodeId)
        requires
            self@.wf(),
        ensures
            id == self@.row(Pos { col: 0, row: 0 }).id,
            self@.live(id),
    {
        proof {
            assert(self@.columns[0].rows.len() > 0);
            assert(self@.sits(self@.row(Pos { col: 0, row: 0 }).id, Pos { col: 0, row: 0 }));
        }
        self.columns[0].rows[0].id
    }

    /// How many more splits the identities last for.
    pub fn ids_left(&self) -> (n: u32)
        ensures
            n == u32::MAX - self@.next_id,
    {
        u32::MAX - self.next_id
    }

    pub fn ncols(&self) -> (n: usize)
        ensures
            n == self@.columns.len(),
    {
        self.columns.len()
    }

    /// How many rows column `col` has; none for a dead column.
    pub fn col_len(&self, col: usize) -> (n: usize)
        ensures
            n == (if col < self@.columns.len() {
                self@.columns[col as int].rows.len()
            } else {
                0
            }),
    {
        if col < self.columns.len() {
            self.columns[col].rows.len()
        } else {
            0
        }
    }

    /// The stored width of column `col`.
    pub fn col_width(&self, col: usize) -> (res: Option<ColWidth>)
        ensures
            res == (if col < self@.columns.len() {
                Some(self@.columns[col as int].width)
            } else {
                None
            }),
    {
        if col < self.columns.len() {
            Some(self.columns[col].width)
        } else {
            None
        }
    }

    /// Whether `id` shares its column with other rows: its minimized form
    /// is a horizontal strip, and stack semantics apply on close.
    pub fn stacked(&self, id: NodeId) -> (b: bool)
        requires
            self@.wf(),
        ensures
            b == (self@.live(id) && self@.columns[self@.pos_of(id).col as int].rows.len() > 1),
    {
        match self.locate(id) {
            Some(p) => {
                proof {
                    assert(self@.sits(id, self@.pos_of(id)));
                }
                self.columns[p.col].rows.len() > 1
            },
            None => false,
        }
    }

    /// Whether the strip is down to its one guaranteed split, the split
    /// that can't be closed or minimized.
    pub fn sole_split(&self) -> (b: bool)
        requires
            self@.wf(),
        ensures
            b == self@.sole(),
    {
        self.columns.len() == 1 && self.columns[0].rows.len() == 1
    }

    /// The share of the row at `pos`.
    pub fn row_frac(&self, pos: Pos) -> (res: Option<Share>)
        ensures
            res == (if self@.has(pos) {
                Some(self@.row(pos).frac)
            } else {
                None
            }),
    {
        if pos.col < self.columns.len() && pos.row < self.columns[pos.col].rows.len() {
            Some(self.columns[pos.col].rows[pos.row].frac)
        } else {
            None
        }
    }
}

/// Add up the shares of a stack.
fn total_of(rows: &Vec<Row>) -> (total: u128)
    ensures
        total == share_total(rows@),
{
    let mut total: u128 = 0;
    let mut i: usize = 0;
    while i < rows.len()
        invariant
            i <= rows@.len(),
            total == shares_to(rows@, i as int),
        decreases rows@.len() - i,
    {
        proof {
            lemma_shares_nonneg(rows@, i as int);
            lemma_shares_nonneg(rows@, i + 1);
            let n = i + 1;
            assert(n * (u64::MAX as int) <= usize::MAX * (u64::MAX as int)) by (nonlinear_arith)
                requires
                    0 <= n <= usize::MAX,
            ;
            assert(usize::MAX * (u64::MAX as int) <= u128::MAX) by (nonlinear_arith)
                requires
                    usize::MAX <= u64::MAX,
                    u64::MAX * (u64::MAX as int) <= u128::MAX,
                    usize::MAX >= 0,
            ;
        }
        total = total + rows[i].frac as u128;
        i = i + 1;
    }
    total
}

fn copied_rows(rows: &Vec<Row>) -> (out: Vec<Row>)
    ensures
        out@ == rows@,
{
    let mut out: Vec<Row> = Vec::new();
    let mut i: usize = 0;
    while i < rows.len()
        invariant
            i <= rows@.len(),
            out@ == rows@.take(i as int),
        decreases rows@.len() - i,
    {
        out.push(rows[i]);
        i = i + 1;
        assert(rows@.take(i as int) =~= rows@.take(i - 1).push(rows@[i - 1]));
    }
    assert(rows@.take(i as int) =~= rows@);
    out
}

fn same_rows(a: &Vec<Row>, b: &Vec<Row>) -> (same: bool)
    ensures
        same == (a@ == b@),
{
    if a.len() != b.len() {
        return false;
    }
    let mut i: usize = 0;
    while i < a.len()
        invariant
            i <= a@.len(),
            a@.len() == b@.len(),
            forall|k: int| 0 <= k < i ==> a@[k] == b@[k],
        decreases a@.len() - i,
    {
        if a[i] != b[i] {
            return false;
        }
        i = i + 1;
    }
    assert(a@ =~= b@);
    true
}

/// Scale the shares of a stack so that they make one whole again.
fn renormalise(rows: &mut Vec<Row>)
    ensures
        final(rows)@ == renormalised(old(rows)@),
{
    let ghost olds = rows@;
    let total: u128 = total_of(rows);
    if total == 0 {
        assert(rows@ =~= renormalised(olds));
        return;
    }
    let mut i: usize = 0;
    while i < rows.len()
        invariant
            i <= rows@.len(),
            rows@.len() == olds.len(),
            total == share_total(olds),
            total > 0,
            forall|j: int| 0 <= j < i ==> #[trigger] rows@[j] == renormalised(olds)[j],
            forall|j: int| i <= j < olds.len() ==> #[trigger] rows@[j] == olds[j],
        decreases rows@.len() - i,
    {
        proof {
            lemma_renormalised(olds, i + 1);
            assert(0 <= olds[i as int].frac * SHARE_ONE / total as int <= SHARE_ONE);
        }
        let row = rows[i];
        assert(row.frac * SHARE_ONE <= u64::MAX * (SHARE_ONE as int)) by (nonlinear_arith)
            requires
                row.frac <= u64::MAX,
                SHARE_ONE > 0,
        ;
        let part: u128 = (row.frac as u128) * (SHARE_ONE as u128) / total;
        rows.set(i, Row { id: row.id, frac: part as u64, leaf: row.leaf });
        i = i + 1;
    }
    assert(rows@ =~= renormalised(olds));
}

/// Hand a freed share to the rows of a stack.
fn reclaim(rows: &mut Vec<Row>, freed: Share)
    requires
        share_total(old(rows)@) + freed <= u64::MAX,
    ensures
        final(rows)@ == reclaimed(old(rows)@, freed as int),
{
    let ghost olds = rows@;
    let total: u128 = total_of(rows);
    if total == 0 {
        assert(rows@ =~= reclaimed(olds, freed as int));
        return;
    }
    let mut i: usize = 0;
    while i < rows.len()
        invariant
            i <= rows@.len(),
            rows@.len() == olds.len(),
            total == share_total(olds),
            total > 0,
            share_total(olds) + freed <= u64::MAX,
            forall|j: int|
                0 <= j < i ==> #[trigger] rows@[j] == reclaimed(olds, freed as int)[j],
            forall|j: int| i <= j < olds.len() ==> #[trigger] rows@[j] == olds[j],
        decreases rows@.len() - i,
    {
        let row = rows[i];
        proof {
            lemma_reclaimed(olds, freed as int, i + 1);
            assert(0 <= olds[i as int].frac + freed * olds[i as int].frac / total as int
                <= u64::MAX);
            assert(0 <= freed * row.frac <= u64::MAX * u64::MAX) by (nonlinear_arith)
                requires
                    0 <= freed <= u64::MAX,
                    0 <= row.frac <= u64::MAX,
            ;
            let t = total as int;
            let x = freed * row.frac;
            assert(0 <= x / t) by (nonlinear_arith)
                requires
                    0 <= x,
                    0 < t,
            ;
        }
        let part: u128 = (freed as u128) * (row.frac as u128) / total;
        rows.set(i, Row { id: row.id, frac: row.frac + part as u64, leaf: row.leaf });
        i = i + 1;
    }
    assert(rows@ =~= reclaimed(olds, freed as int));
}

impl Layout {
    fn color_used(&self, color: Index) -> (b: bool)
        ensures
            b == self@.uses_color(color),
    {
        let mut c: usize = 0;
        while c < self.columns.len()
            invariant
                c <= self.columns@.len(),
                forall|p: Pos|
                    self@.has(p) && p.col < c ==> (#[trigger] self@.row(p)).leaf.color != color,
            decreases self.columns@.len() - c,
        {
            let mut r: usize = 0;
            while r < self.columns[c].rows.len()
                invariant
                    c < self.columns@.len(),
                    r <= self.columns@[c as int].rows@.len(),
                    forall|p: Pos|
                        self@.has(p) && p.col < c ==> (#[trigger] self@.row(p)).leaf.color
                            != color,
                    forall|p: Pos|
                        self@.has(p) && p.col == c && p.row < r ==> (
                        #[trigger] self@.row(p)).leaf.color != color,
                decreases self.columns@[c as int].rows@.len() - r,
            {
                let ghost p = Pos { col: c, row: r };
                assert(self@.row(p) == self.columns@[c as int].rows@[r as int]);
                if self.columns[c].rows[r].leaf.color == color {
                    assert(self@.has(p));
                    return true;
                }
                r = r + 1;
            }
            c = c + 1;
        }
        false
    }

    /// An accent colour no existing split has, so that two splits never
    /// look the same while a free colour remains; the cycled one after.
    fn unused_leaf_color(&self, n: u32) -> (color: Index)
        requires
            self@.wf(),
        ensures
            color == self@.free_color_from(n, 0),
    {
        let mut k: usize = 0;
        while k < self.palette.len()
            invariant
                self@.wf(),
                k <= self.palette@.len(),
                self@.free_color_from(n, 0) == self@.free_color_from(n, k as int),
            decreases self.palette@.len() - k,
        {
            if !self.color_used(self.palette[k]) {
                return self.palette[k];
            }
            k = k + 1;
        }
        let len: usize = self.palette.len();
        let at: u64 = (n as u64) % (len as u64);
        self.palette[at as usize]
    }

    /// Mint a split with share `frac`.
    fn make_row(&mut self, frac: Share) -> (row: Row)
        requires
            old(self)@.wf(),
            old(self)@.next_id < u32::MAX,
        ensures
            final(self)@ == old(self)@.minted(),
            row == old(self)@.fresh_row(frac as int),
            final(self)@.wf(),
            !final(self)@.live(row.id),
    {
        let id: u32 = self.next_id;
        let color: Index = self.unused_leaf_color(id);
        let ghost was = self@;
        self.next_id = id + 1;
        let row = Row {
            id: NodeId(id),
            frac,
            leaf: Leaf { client: None, minimized: false, color },
        };
        proof {
            assert(self@.columns =~= was.columns);
            lemma_minted(was);
        }
        row
    }

    /// Insert a new empty column at `at` (clamped) with the given width.
    /// Returns the new split.
    pub fn insert_column(&mut self, at: usize, width: ColWidth) -> (id: NodeId)
        requires
            old(self)@.wf(),
            old(self)@.next_id < u32::MAX,
        ensures
            final(self)@.wf(),
            id == NodeId(old(self)@.next_id),
            final(self)@ == column_opened(
                old(self)@,
                imin(at as int, old(self)@.columns.len() as int),
                width,
            ),
    {
        let row = self.make_row(SHARE_ONE);
        let ghost was = self@;
        proof {
            self.lemma_small();
        }
        let mut rows: Vec<Row> = Vec::new();
        rows.push(row);
        let at: usize = if at <= self.columns.len() {
            at
        } else {
            self.columns.len()
        };
        self.columns.insert(at, Column { width, rows });
        proof {
            assert(rows@ =~= seq![row]);
            assert(self.columns.len() == self.columns@.len());
            assert(self@.columns =~= was.columns.insert(
                at as int,
                StripColumn { width, rows: seq![row] },
            ));
            lemma_column_added(was, at as int, width, row);
        }
        row.id
    }

    /// Insert a new empty row into `col`'s stack at `at` (clamped), taking
    /// the average share of the column's height, all renormalised. Returns
    /// the new split, or `None` for a dead column index.
    pub fn insert_row(&mut self, col: usize, at: usize) -> (res: Option<NodeId>)
        requires
            old(self)@.wf(),
            old(self)@.next_id < u32::MAX,
        ensures
            final(self)@.wf(),
            col >= old(self)@.columns.len() ==> res is None && final(self)@ == old(self)@,
            col < old(self)@.columns.len() ==> {
                let rows = old(self)@.columns[col as int].rows;
                &&& res == Some(NodeId(old(self)@.next_id))
                &&& final(self)@ == row_opened(
                    old(self)@,
                    col as int,
                    imin(at as int, rows.len() as int),
                )
            },
    {
        if col >= self.columns.len() {
            return None;
        }
        let ghost start = self@;
        proof {
            assert(self@.columns[col as int].rows.len() > 0);
        }
        let n: usize = self.columns[col].rows.len();
        let total: u128 = total_of(&self.columns[col].rows);
        let avg: u128 = total / (n as u128);
        proof {
            let rows = self@.columns[col as int].rows;
            lemma_average(rows);
        }
        let row = self.make_row(avg as u64);
        let ghost was = self@;
        proof {
            self.lemma_small();
        }
        let at: usize = if at <= n {
            at
        } else {
            n
        };
        let ghost olds = was.columns[col as int].rows;
        self.columns[col].rows.insert(at, row);
        renormalise(&mut self.columns[col].rows);
        proof {
            let news = renormalised(olds.insert(at as int, row));
            assert(self.columns@[col as int].rows@ == news);
            assert(self@.columns =~= was.with_rows(col as int, news).columns);
            lemma_renormalised_fits(olds.insert(at as int, row));
            lemma_share_total_insert(olds, at as int, row);
            assert(self.columns@[col as int].rows.len() == news.len());
            lemma_row_added(was, col as int, at as int, news, row);
        }
        Some(row.id)
    }
}

pub(crate) proof fn lemma_minted(v: Strip)
    requires
        v.wf(),
        v.next_id < u32::MAX,
    ensures
        v.minted().wf(),
        !v.minted().live(NodeId(v.next_id)),
        forall|id: NodeId| #[trigger] v.minted().live(id) <==> v.live(id),
{
    let n = v.minted();
    assert forall|p: Pos, q: Pos|
        #![trigger n.row(p), n.row(q)]
        n.has(p) && n.has(q) && n.row(p).id == n.row(q).id implies p == q by {
        assert(v.row(p).id == v.row(q).id);
    }
    assert forall|p: Pos| n.has(p) implies (#[trigger] n.row(p)).id.0 < n.next_id by {
        assert(v.row(p).id.0 < v.next_id);
    }
    assert forall|id: NodeId| #[trigger] n.live(id) <==> v.live(id) by {
        if n.live(id) {
            let p = n.pos_of(id);
            assert(n.sits(id, p));
            assert(v.sits(id, p));
        }
        if v.live(id) {
            let p = v.pos_of(id);
            assert(v.sits(id, p));
            assert(n.sits(id, p));
        }
    }
    if n.live(NodeId(v.next_id)) {
        let p = n.pos_of(NodeId(v.next_id));
        assert(n.sits(NodeId(v.next_id), p));
        assert(v.row(p).id.0 < v.next_id);
    }
}

proof fn lemma_average(rows: Seq<Row>)
    requires
        rows.len() > 0,
    ensures
        0 <= average_share(rows) <= u64::MAX,
        average_share(rows) <= share_total(rows),
{
    let n = rows.len() as int;
    lemma_shares_nonneg(rows, n);
    let t = share_total(rows);
    assert(0 <= t / n <= u64::MAX && t / n <= t) by (nonlinear_arith)
        requires
            0 <= t <= n * (u64::MAX as int),
            0 < n,
    ;
}

proof fn lemma_renormalised_fits(rows: Seq<Row>)
    ensures
        share_total(renormalised(rows)) <= u64::MAX,
        share_total(rows) > 0 ==> share_total(renormalised(rows)) <= SHARE_ONE,
{
    lemma_shares_nonneg(rows, rows.len() as int);
    if share_total(rows) > 0 {
        lemma_renormalised(rows, rows.len() as int);
    } else {
        lemma_shares_agree(renormalised(rows), rows, rows.len() as int);
    }
}

/// The strip with a fresh empty row put into column `c` at `at`, taking the
/// average share, all renormalised.
pub open spec fn row_opened(v: Strip, c: int, at: int) -> Strip {
    let rows = v.columns[c].rows;
    v.minted().with_rows(c, renormalised(rows.insert(at, v.fresh_row(average_share(rows)))))
}

/// The strip with a fresh empty row directly below `id`, which keeps `ratio`
/// of its share and hands on the rest.
pub open spec fn split_off(v: Strip, id: NodeId, ratio: int) -> Strip {
    let p = v.pos_of(id);
    let rows = v.columns[p.col as int].rows;
    let whole = rows[p.row as int].frac;
    let kept = whole * ratio / SHARE_ONE as int;
    v.minted().with_rows(
        p.col as int,
        rows.update(p.row as int, with_frac(rows[p.row as int], kept)).insert(
            p.row + 1,
            v.fresh_row(whole - kept),
        ),
    )
}

/// The strip with a fresh empty column of width `width` put in at `at`.
pub open spec fn column_opened(v: Strip, at: int, width: ColWidth) -> Strip {
    v.minted().with_column(at, width, v.fresh_row(SHARE_ONE as int))
}

/// A fresh row joins its stack and leaves every other split as it was.
pub(crate) proof fn lemma_row_opened(v: Strip, c: int, at: int)
    requires
        v.wf(),
        small(v),
        v.next_id < u32::MAX,
        0 <= c < v.columns.len(),
        0 <= at <= v.columns[c].rows.len(),
        v.columns[c].rows.len() < usize::MAX,
    ensures
        row_opened(v, c, at).wf(),
        small(row_opened(v, c, at)),
        forall|id: NodeId|
            #[trigger] row_opened(v, c, at).live(id) <==> v.live(id) || id == NodeId(v.next_id),
        forall|id: NodeId| #[trigger]
            v.live(id) ==> row_opened(v, c, at).leaf_of(id) == v.leaf_of(id),
        row_opened(v, c, at).leaf_of(NodeId(v.next_id)) == v.fresh_row(0).leaf,
        row_opened(v, c, at).pos_of(NodeId(v.next_id)) == (Pos { col: c as usize, row: at as usize }),
{
    let rows = v.columns[c].rows;
    let row = v.fresh_row(average_share(rows));
    let m = v.minted();
    lemma_minted(v);
    lemma_average(rows);
    lemma_renormalised_fits(rows.insert(at, row));
    lemma_row_added(m, c, at, renormalised(rows.insert(at, row)), row);
    assert forall|k: NodeId| #[trigger] v.live(k) implies m.live(k) && m.leaf_of(k)
        == v.leaf_of(k) by {
        let q = v.pos_of(k);
        assert(v.sits(k, q));
        assert(m.sits(k, q));
        lemma_pos(m, k, q);
    }
}

/// A fresh column joins the strip and leaves every split as it was.
pub(crate) proof fn lemma_column_opened(v: Strip, at: int, width: ColWidth)
    requires
        v.wf(),
        small(v),
        v.next_id < u32::MAX,
        v.columns.len() < usize::MAX,
        0 <= at <= v.columns.len(),
    ensures
        ({
            let n = v.minted().with_column(at, width, v.fresh_row(SHARE_ONE as int));
            &&& n.wf()
            &&& small(n)
            &&& forall|id: NodeId| #[trigger] n.live(id) <==> v.live(id) || id == NodeId(v.next_id)
            &&& forall|id: NodeId| #[trigger] v.live(id) ==> n.leaf_of(id) == v.leaf_of(id)
            &&& n.leaf_of(NodeId(v.next_id)) == v.fresh_row(0).leaf
            &&& n.pos_of(NodeId(v.next_id)) == (Pos { col: at as usize, row: 0 })
        }),
{
    let m = v.minted();
    lemma_minted(v);
    lemma_column_added(m, at, width, v.fresh_row(SHARE_ONE as int));
    assert forall|k: NodeId| #[trigger] v.live(k) implies m.live(k) && m.leaf_of(k)
        == v.leaf_of(k) by {
        let q = v.pos_of(k);
        assert(v.sits(k, q));
        assert(m.sits(k, q));
        lemma_pos(m, k, q);
    }
}

impl Layout {
    /// Stack a new empty row directly below `id`, the existing row keeping
    /// `ratio` of its own share. Returns the new split, or `None` for a
    /// dead id.
    pub fn split_below(&mut self, id: NodeId, ratio: Share) -> (res: Option<NodeId>)
        requires
            old(self)@.wf(),
            old(self)@.next_id < u32::MAX,
            ratio <= SHARE_ONE,
        ensures
            final(self)@.wf(),
            !old(self)@.live(id) ==> res is None && final(self)@ == old(self)@,
            old(self)@.live(id) ==> {
                &&& res == Some(NodeId(old(self)@.next_id))
                &&& final(self)@ == split_off(old(self)@, id, ratio as int)
            },
    {
        let p = match self.locate(id) {
            Some(p) => p,
            None => {
                return None;
            },
        };
        proof {
            assert(self@.sits(id, p));
        }
        let was_row = self.columns[p.col].rows[p.row];
        let whole: u64 = was_row.frac;
        proof {
            let one = SHARE_ONE as int;
            assert(0 <= whole * ratio / one <= whole && 0 <= whole * ratio <= u64::MAX * one)
                by (nonlinear_arith)
                requires
                    0 <= ratio <= one,
                    0 < one,
                    0 <= whole <= u64::MAX,
            ;
        }
        let kept: u128 = (whole as u128) * (ratio as u128) / (SHARE_ONE as u128);
        let kept: u64 = kept as u64;
        let ghost start = self@;
        let row = self.make_row(whole - kept);
        let ghost was = self@;
        proof {
            self.lemma_small();
        }
        let ghost olds = was.columns[p.col as int].rows;
        self.columns[p.col].rows.set(p.row, Row { id: was_row.id, frac: kept, leaf: was_row.leaf });
        self.columns[p.col].rows.insert(p.row + 1, row);
        proof {
            let mid = olds.update(p.row as int, with_frac(olds[p.row as int], kept as int));
            let news = mid.insert(p.row + 1, row);
            assert(self.columns@[p.col as int].rows@ == news);
            assert(self.columns@[p.col as int].rows.len() == news.len());
            assert(self@.columns =~= was.with_rows(p.col as int, news).columns);
            lemma_share_total_insert(mid, p.row + 1, row);
            lemma_shares_update(olds, p.row as int, mid[p.row as int]);
            assert forall|i: int| 0 <= i < news.len() implies (#[trigger] news[i]).id
                == olds.insert(p.row + 1, row)[i].id && news[i].leaf == olds.insert(
                p.row + 1,
                row,
            )[i].leaf by {
                if i <= p.row {
                    assert(news[i] == mid[i]);
                } else if i > p.row + 1 {
                    assert(news[i] == mid[i - 1]);
                    assert(olds.insert(p.row + 1, row)[i] == olds[i - 1]);
                }
            }
            lemma_row_added(was, p.col as int, p.row + 1, news, row);
        }
        Some(row.id)
    }

    /// Unhook the split at `p`: a row leaving a stack hands its share to
    /// the survivors, a lone row takes its column along. Returns the row
    /// and, for a whole column, that column's width.
    fn detach(&mut self, p: Pos) -> (res: (Row, Option<ColWidth>))
        requires
            old(self)@.wf(),
            old(self)@.has(p),
            !old(self)@.sole(),
        ensures
            final(self)@ == old(self)@.removed(p),
            final(self)@.wf(),
            res.0 == old(self)@.row(p),
            res.1 == (if old(self)@.columns[p.col as int].rows.len() == 1 {
                Some(old(self)@.columns[p.col as int].width)
            } else {
                None
            }),
    {
        let ghost was = self@;
        proof {
            self.lemma_small();
            lemma_removed(was, p);
        }
        if self.columns[p.col].rows.len() > 1 {
            let ghost olds = was.columns[p.col as int].rows;
            proof {
                lemma_share_total_remove(olds, p.row as int);
                assert(share_total(was.columns[p.col as int].rows) <= u64::MAX);
            }
            let row = self.columns[p.col].rows.remove(p.row);
            reclaim(&mut self.columns[p.col].rows, row.frac);
            proof {
                assert(self@.columns =~= was.removed(p).columns);
            }
            (row, None)
        } else {
            assert(was.columns[p.col as int].rows.len() == 1);
            let column = self.columns.remove(p.col);
            proof {
                assert(self@.columns =~= was.removed(p).columns);
            }
            (column.rows[0], Some(column.width))
        }
    }

    /// Remove the split `id`. A row leaving a stack hands its share to the
    /// surviving rows; a lone row takes its whole column with it, and the
    /// strip just gets shorter. Refused (`None`) for the strip's sole split
    /// and for a dead id. Returns the split focus should land on.
    pub fn remove(&mut self, id: NodeId) -> (res: Option<NodeId>)
        requires
            old(self)@.wf(),
        ensures
            final(self)@.wf(),
            old(self)@.sole() || !old(self)@.live(id) ==> res is None && final(self)@ == old(
                self,
            )@,
            !old(self)@.sole() && old(self)@.live(id) ==> {
                let p = old(self)@.pos_of(id);
                &&& final(self)@ == old(self)@.removed(p)
                &&& res == Some(old(self)@.focus_after(p))
            },
    {
        if self.sole_split() {
            return None;
        }
        let p = match self.locate(id) {
            Some(p) => p,
            None => {
                return None;
            },
        };
        proof {
            assert(self@.sits(id, p));
        }
        let ghost was = self@;
        let stacked = self.columns[p.col].rows.len() > 1;
        let _gone = self.detach(p);
        proof {
            assert(self@.columns.len() > 0);
        }
        if stacked {
            let n: usize = self.columns[p.col].rows.len();
            let at: usize = if p.row <= n - 1 {
                p.row
            } else {
                n - 1
            };
            Some(self.columns[p.col].rows[at].id)
        } else {
            let n: usize = self.columns.len();
            let at: usize = if p.col <= n - 1 {
                p.col
            } else {
                n - 1
            };
            proof {
                assert(self@.columns[at as int].rows.len() > 0);
            }
            Some(self.columns[at].rows[0].id)
        }
    }

    /// Relocate split `src`, window, colour and all, into its own column
    /// left (`before`) or right of `dst`'s column. A `src` that was a whole
    /// column keeps its width; one pulled out of a stack gets `default_w`.
    /// Returns whether the strip changed.
    pub fn move_beside_column(
        &mut self,
        src: NodeId,
        dst: NodeId,
        before: bool,
        default_w: ColWidth,
    ) -> (changed: bool)
        requires
            old(self)@.wf(),
        ensures
            final(self)@.wf(),
            changed == old(self)@.moves_beside(src, dst, before),
            final(self)@ == (if changed {
                old(self)@.moved_beside(src, dst, before, default_w)
            } else {
                old(self)@
            }),
    {
        if src == dst {
            return false;
        }
        let sp = match self.locate(src) {
            Some(p) => p,
            None => {
                return false;
            },
        };
        let dp = match self.locate(dst) {
            Some(p) => p,
            None => {
                return false;
            },
        };
        proof {
            assert(self@.sits(src, sp));
            assert(self@.sits(dst, dp));
        }
        let adjacent = if before {
            dp.col > 0 && sp.col == dp.col - 1
        } else {
            sp.col > 0 && sp.col - 1 == dp.col
        };
        if self.columns[sp.col].rows.len() == 1 && adjacent {
            return false;
        }
        let ghost was = self@;
        proof {
            self.lemma_small();
            assert(!was.sole()) by {
                if was.sole() {
                    assert(sp == dp);
                }
            }
            lemma_removed(was, sp);
        }
        let (row, width) = self.detach(sp);
        let ghost rest = self@;
        let dcol: usize = match self.locate(dst) {
            Some(p) => p.col,
            None => {
                proof {
                    assert(was.live(dst));
                    assert(dst != was.row(sp).id);
                    assert(was.removed(sp).live(dst));
                }
                return false;
            },
        };
        proof {
            assert(rest.sits(dst, rest.pos_of(dst)));
            self.lemma_small();
        }
        let at: usize = if before {
            dcol
        } else {
            dcol + 1
        };
        let w = match width {
            Some(w) => w,
            None => default_w,
        };
        let moved = Row { id: row.id, frac: SHARE_ONE, leaf: row.leaf };
        let mut rows: Vec<Row> = Vec::new();
        rows.push(moved);
        self.columns.insert(at, Column { width: w, rows });
        proof {
            assert(rows@ =~= seq![moved]);
            assert(self.columns.len() == self.columns@.len());
            assert(self@.columns =~= rest.columns.insert(
                at as int,
                StripColumn { width: w, rows: seq![moved] },
            ));
            assert(was.row(sp).id.0 < was.next_id);
            lemma_column_added(rest, at as int, w, moved);
        }
        true
    }

    /// Relocate split `src` into `dst`'s stack, directly above (`before`)
    /// or below `dst`'s row, at the average share. Returns whether the
    /// strip changed.
    pub fn move_into_stack(&mut self, src: NodeId, dst: NodeId, before: bool) -> (changed: bool)
        requires
            old(self)@.wf(),
        ensures
            final(self)@.wf(),
            changed == old(self)@.moves_into_stack(src, dst, before),
            final(self)@ == (if changed {
                old(self)@.moved_into_stack(src, dst, before)
            } else {
                old(self)@
            }),
    {
        if src == dst {
            return false;
        }
        let home = match self.locate(dst) {
            Some(p) => p,
            None => {
                return false;
            },
        };
        let sp = match self.locate(src) {
            Some(p) => p,
            None => {
                return false;
            },
        };
        let ghost was = self@;
        proof {
            assert(was.sits(src, sp));
            assert(was.sits(dst, was.pos_of(dst)));
            self.lemma_small();
            assert(!was.sole()) by {
                if was.sole() {
                    assert(sp == was.pos_of(dst));
                }
            }
            lemma_removed(was, sp);
            lemma_kept_row(was, sp, home);
            assert(home == was.pos_of(dst));
        }
        let before_rows = copied_rows(&self.columns[sp.col].rows);
        let (row, _width) = self.detach(sp);
        let ghost rest = self@;
        let dp = match self.locate(dst) {
            Some(p) => p,
            None => {
                proof {
                    assert(was.live(dst));
                    assert(was.removed(sp).live(dst));
                }
                return false;
            },
        };
        proof {
            assert(rest.sits(dst, dp));
            lemma_pos(rest, dst, after_removal(was, sp, home));
            self.lemma_small();
            assert(rest.columns[dp.col as int].rows.len() > 0);
            lemma_average(rest.columns[dp.col as int].rows);
        }
        let n: usize = self.columns[dp.col].rows.len();
        let total: u128 = total_of(&self.columns[dp.col].rows);
        let avg: u128 = total / (n as u128);
        let moved = Row { id: row.id, frac: avg as u64, leaf: row.leaf };
        let at: usize = if before {
            dp.row
        } else {
            dp.row + 1
        };
        let ghost olds = rest.columns[dp.col as int].rows;
        self.columns[dp.col].rows.insert(at, moved);
        renormalise(&mut self.columns[dp.col].rows);
        proof {
            let news = renormalised(olds.insert(at as int, moved));
            assert(self.columns@[dp.col as int].rows@ == news);
            assert(self.columns@[dp.col as int].rows.len() == news.len());
            assert(self@.columns =~= rest.with_rows(dp.col as int, news).columns);
            lemma_renormalised_fits(olds.insert(at as int, moved));
            assert(was.row(sp).id.0 < was.next_id);
            lemma_row_added(rest, dp.col as int, at as int, news, moved);
        }
        let ghost now = self@;
        if home.col != sp.col {
            proof {
                if was.columns[sp.col as int].rows.len() > 1 {
                    assert(now.columns[sp.col as int] == rest.columns[sp.col as int]);
                    assert(now.columns[sp.col as int].rows.len() + 1
                        == was.columns[sp.col as int].rows.len());
                } else {
                    assert(now.columns.len() + 1 == was.columns.len());
                }
            }
            return true;
        }
        proof {
            assert(was.columns[sp.col as int].rows.len() > 1);
            assert(dp.col == sp.col);
            assert(now.columns.len() == was.columns.len());
            assert(now.columns[sp.col as int].width == was.columns[sp.col as int].width);
            assert forall|c: int| 0 <= c < was.columns.len() && c != sp.col implies now.columns[c]
                == was.columns[c] by {
                assert(rest.columns[c] == was.columns[c]);
            }
        }
        let same = same_rows(&before_rows, &self.columns[sp.col].rows);
        proof {
            if same {
                assert(now.columns[sp.col as int].rows == was.columns[sp.col as int].rows);
                assert(now.columns =~= was.columns);
                assert(now == was);
            }
        }
        !same
    }

    /// Give column `col` another width; a dead column is left alone.
    pub fn set_col_width(&mut self, col: usize, width: ColWidth)
        requires
            old(self)@.wf(),
        ensures
            final(self)@.wf(),
            final(self)@ == (if col < old(self)@.columns.len() {
                old(self)@.with_columns(
                    old(self)@.columns.update(
                        col as int,
                        StripColumn { width, rows: old(self)@.columns[col as int].rows },
                    ),
                )
            } else {
                old(self)@
            }),
    {
        if col < self.columns.len() {
            let ghost was = self@;
            self.columns[col].width = width;
            proof {
                assert(self@.columns =~= was.columns.update(
                    col as int,
                    StripColumn { width, rows: was.columns[col as int].rows },
                ));
                lemma_same_rows(was, self@);
            }
        }
    }

    /// Give the row at `pos` another share; a dead position is left alone.
    pub fn set_row_frac(&mut self, pos: Pos, frac: Share)
        requires
            old(self)@.wf(),
            old(self)@.has(pos) ==> share_total(old(self)@.columns[pos.col as int].rows) - old(
                self,
            )@.row(pos).frac + frac <= u64::MAX,
        ensures
            final(self)@.wf(),
            final(self)@ == (if old(self)@.has(pos) {
                old(self)@.with_row(pos, with_frac(old(self)@.row(pos), frac as int))
            } else {
                old(self)@
            }),
    {
        if pos.col < self.columns.len() && pos.row < self.columns[pos.col].rows.len() {
            let ghost was = self@;
            let row = self.columns[pos.col].rows[pos.row];
            let new = Row { id: row.id, frac, leaf: row.leaf };
            self.columns[pos.col].rows.set(pos.row, new);
            proof {
                let olds = was.columns[pos.col as int].rows;
                let news = olds.update(pos.row as int, new);
                lemma_shares_update(olds, pos.row as int, new);
                assert(self@.columns =~= was.with_row(pos, new).columns);
                lemma_row_updated(was, pos, new);
            }
        }
    }
}

pub(crate) proof fn lemma_shares_update(rows: Seq<Row>, at: int, row: Row)
    requires
        0 <= at < rows.len(),
    ensures
        share_total(rows.update(at, row)) == share_total(rows) - rows[at].frac + row.frac,
{
    lemma_share_total_remove(rows, at);
    lemma_share_total_remove(rows.update(at, row), at);
    assert(rows.update(at, row).remove(at) =~= rows.remove(at));
}

/// Changing widths only keeps a strip well-formed.
proof fn lemma_same_rows(v: Strip, n: Strip)
    requires
        v.wf(),
        n.next_id == v.next_id,
        n.palette == v.palette,
        n.columns.len() == v.columns.len(),
        forall|c: int| 0 <= c < v.columns.len() ==> (#[trigger] n.columns[c]).rows
            == v.columns[c].rows,
    ensures
        n.wf(),
{
    assert forall|p: Pos, q: Pos|
        #![trigger n.row(p), n.row(q)]
        n.has(p) && n.has(q) && n.row(p).id == n.row(q).id implies p == q by {
        assert(v.row(p).id == v.row(q).id);
    }
    assert forall|p: Pos| n.has(p) implies (#[trigger] n.row(p)).id.0 < n.next_id by {
        assert(v.row(p).id.0 < v.next_id);
    }
}

/// Changing a row's share or data, but not its identity, keeps a strip
/// well-formed.
pub(crate) proof fn lemma_row_updated(v: Strip, at: Pos, row: Row)
    requires
        v.wf(),
        v.has(at),
        row.id == v.row(at).id,
        share_total(v.columns[at.col as int].rows) - v.row(at).frac + row.frac <= u64::MAX,
    ensures
        v.with_row(at, row).wf(),
{
    let n = v.with_row(at, row);
    let olds = v.columns[at.col as int].rows;
    lemma_shares_update(olds, at.row as int, row);
    assert forall|p: Pos| n.has(p) implies v.has(p) && (#[trigger] n.row(p)).id == v.row(p).id by {
        if p.col != at.col {
            assert(n.columns[p.col as int] == v.columns[p.col as int]);
        }
    }
    assert forall|p: Pos, q: Pos|
        #![trigger n.row(p), n.row(q)]
        n.has(p) && n.has(q) && n.row(p).id == n.row(q).id implies p == q by {
        assert(v.row(p).id == v.row(q).id);
    }
    assert forall|p: Pos| n.has(p) implies (#[trigger] n.row(p)).id.0 < n.next_id by {
        assert(v.row(p).id.0 < v.next_id);
    }
    assert forall|c: int| 0 <= c < n.columns.len() implies (#[trigger] n.columns[c]).rows.len() > 0
        && share_total(n.columns[c].rows) <= u64::MAX by {
        if c != at.col {
            assert(n.columns[c] == v.columns[c]);
        }
    }
}

impl Strip {
    /// The splits of the first `n` columns in strip order.
    pub open spec fn ids_to(self, n: int) -> Seq<NodeId>
        decreases n,
    {
        if n <= 0 {
            Seq::empty()
        } else {
            self.ids_to(n - 1) + self.columns[n - 1].rows.map_values(|r: Row| r.id)
        }
    }

    /// Whether the row at `p` shows window `c`.
    pub open spec fn shows(self, c: Win, p: Pos) -> bool {
        self.has(p) && self.row(p).leaf.client == Some(c)
    }
}

impl Layout {
    /// The data of split `id`, to change.
    pub fn leaf_mut(&mut self, id: NodeId) -> (res: Option<&mut Leaf>)
        requires
            old(self)@.wf(),
        ensures
            final(self)@.wf(),
            match res {
                Some(l) => {
                    let p = old(self)@.pos_of(id);
                    let row = old(self)@.row(p);
                    &&& old(self)@.live(id)
                    &&& *l == row.leaf
                    &&& final(self)@ == old(self)@.with_row(
                        p,
                        Row { id: row.id, frac: row.frac, leaf: *final(l) },
                    )
                },
                None => !old(self)@.live(id) && final(self)@ == old(self)@,
            },
    {
        let p = match self.locate(id) {
            Some(p) => p,
            None => {
                return None;
            },
        };
        let ghost was = self@;
        proof {
            assert(was.sits(id, p));
            assert forall|leaf: Leaf| #[trigger]
                was.with_row(p, Row { id: was.row(p).id, frac: was.row(p).frac, leaf }).wf() by {
                lemma_row_updated(
                    was,
                    p,
                    Row { id: was.row(p).id, frac: was.row(p).frac, leaf },
                );
            }
        }
        let l = &mut self.columns[p.col].rows[p.row].leaf;
        proof {
            let row = Row { id: was.row(p).id, frac: was.row(p).frac, leaf: *final(l) };
            assert(after_borrow(self)@.columns =~= was.with_row(p, row).columns);
        }
        Some(l)
    }

    /// Split ids in strip order: columns left to right, rows top to bottom.
    pub fn collect_leaves(&self) -> (ids: Vec<NodeId>)
        ensures
            ids@ == self@.ids_to(self@.columns.len() as int),
    {
        let mut out: Vec<NodeId> = Vec::new();
        let mut c: usize = 0;
        while c < self.columns.len()
            invariant
                c <= self.columns@.len(),
                out@ == self@.ids_to(c as int),
            decreases self.columns@.len() - c,
        {
            let ghost start = out@;
            let ghost ids = self@.columns[c as int].rows.map_values(|r: Row| r.id);
            let mut r: usize = 0;
            while r < self.columns[c].rows.len()
                invariant
                    c < self.columns@.len(),
                    r <= self.columns@[c as int].rows@.len(),
                    ids == self@.columns[c as int].rows.map_values(|r: Row| r.id),
                    out@ == start + ids.take(r as int),
                decreases self.columns@[c as int].rows@.len() - r,
            {
                out.push(self.columns[c].rows[r].id);
                assert(ids.take(r + 1) =~= ids.take(r as int).push(ids[r as int]));
                r = r + 1;
            }
            assert(ids.take(r as int) =~= ids);
            c = c + 1;
        }
        out
    }

    /// The first split in strip order that shows window `c`.
    pub fn find_leaf_for_client(&self, c: Win) -> (res: Option<NodeId>)
        ensures
            match res {
                Some(id) => exists|p: Pos|
                    {
                        &&& #[trigger] self@.shows(c, p)
                        &&& self@.row(p).id == id
                        &&& forall|q: Pos| #[trigger]
                            self@.shows(c, q) ==> !Strip::precedes(q, p)
                    },
                None => forall|p: Pos| !#[trigger] self@.shows(c, p),
            },
    {
        let mut col: usize = 0;
        while col < self.columns.len()
            invariant
                col <= self.columns@.len(),
                forall|p: Pos| p.col < col ==> !#[trigger] self@.shows(c, p),
            decreases self.columns@.len() - col,
        {
            let mut r: usize = 0;
            while r < self.columns[col].rows.len()
                invariant
                    col < self.columns@.len(),
                    r <= self.columns@[col as int].rows@.len(),
                    forall|p: Pos| p.col < col ==> !#[trigger] self@.shows(c, p),
                    forall|p: Pos| p.col == col && p.row < r ==> !#[trigger] self@.shows(c, p),
                decreases self.columns@[col as int].rows@.len() - r,
            {
                let ghost p = Pos { col, row: r };
                assert(self@.row(p) == self.columns@[col as int].rows@[r as int]);
                if self.columns[col].rows[r].leaf.client == Some(c) {
                    assert(self@.shows(c, p));
                    return Some(self.columns[col].rows[r].id);
                }
                assert(!self@.shows(c, p));
                r = r + 1;
            }
            col = col + 1;
        }
        None
    }
}

} // verus!
