//! The chrome drawn in one go: the order in which splits, buttons and the bar
//! are painted over the base picture.

use crate::arrange::Placement;
use crate::chrome::BtnIcon;
use crate::geom::{fits_i32, half, half_i32, Rect};
use crate::layout::{Layout, NodeId, Strip};
use crate::pieces::BtnPaint;
use crate::pointer::{BtnKind, Region, TaskTile};
use crate::Index;
use vstd::prelude::*;

verus! {

/// One step of painting the chrome.
#[derive(Clone, Copy, PartialEq, Eq, Debug)]
pub enum ChromeOp {
    /// A split's frame, titlebar or restore strip, by the placement's number.
    Leaf(usize, Rect),
    /// The outline of the focused split.
    Outline(Rect),
    /// An insert button: its centre and its side.
    Plus(i32, i32, i32),
    /// A titlebar button at its place on screen.
    Button(BtnPaint),
    /// A window's tile on the bar, by its number.
    Tile(usize, Rect),
    /// A tile's close badge: its corner and its side.
    Badge(i32, i32, i32),
    Separator(Rect),
    /// A quick-launch item, by its slot.
    Quick(usize, Rect),
}

/// A quick-launch item's place.
#[derive(Clone, Copy, PartialEq, Eq, Debug, Structural)]
pub struct QuickSpot {
    pub rect: Rect,
    pub slot: usize,
}

/// The first `n` placements: each split, then its outline if it is focused.
pub open spec fn leaf_ops(placed: Seq<Placement>, n: int) -> Seq<ChromeOp>
    decreases n,
{
    if n <= 0 {
        Seq::empty()
    } else {
        let p = placed[n - 1];
        let s = leaf_ops(placed, n - 1).push(ChromeOp::Leaf((n - 1) as usize, p.target));
        if p.focused {
            s.push(ChromeOp::Outline(p.target))
        } else {
            s
        }
    }
}

/// The insert buttons at their regions' centres.
pub open spec fn plus_ops(regions: Seq<Rect>) -> Seq<ChromeOp> {
    Seq::new(
        regions.len(),
        |i: int|
            ChromeOp::Plus(
                (regions[i].x + half(regions[i].w as int)) as i32,
                (regions[i].y + half(regions[i].h as int)) as i32,
                regions[i].w,
            ),
    )
}

/// What a split's measures make of its split button: whether it is wider
/// than high, and whether it is large enough to be divided.
#[derive(Clone, Copy, PartialEq, Eq, Debug, Structural)]
pub struct SplitLook {
    pub wider: bool,
    pub can_split: bool,
}

/// The first placement of a split from `k` on; the length if none.
pub open spec fn placement_from(placed: Seq<Placement>, leaf: NodeId, k: int) -> int
    decreases placed.len() - k,
{
    if k >= placed.len() {
        placed.len() as int
    } else if placed[k].leaf == leaf {
        k
    } else {
        placement_from(placed, leaf, k + 1)
    }
}

/// A button at its rect. A stacked split collapses to a row, so that its
/// button previews that, and the split button previews its divider. A sole
/// split can be neither minimized nor closed.
pub open spec fn titlebar_button(
    kind: BtnKind,
    r: Rect,
    stacked: bool,
    sole: bool,
    look: SplitLook,
    accent: Index,
) -> BtnPaint {
    BtnPaint {
        cx: (r.x + half(r.w as int)) as i32,
        cy: (r.y + half(r.h as int)) as i32,
        icon: match kind {
            BtnKind::Minimize => if stacked {
                BtnIcon::MinimizeH
            } else {
                BtnIcon::Minimize
            },
            BtnKind::Split => if look.wider {
                BtnIcon::VSplit
            } else {
                BtnIcon::HSplit
            },
            BtnKind::Close => BtnIcon::Close,
        },
        disabled: match kind {
            BtnKind::Minimize => sole,
            BtnKind::Split => !look.can_split,
            BtnKind::Close => sole,
        },
        accent,
    }
}

/// A titlebar button: only of a live split that is on screen and not
/// minimized, whose restore strip is the button.
pub open spec fn button_op(
    v: Strip,
    placed: Seq<Placement>,
    looks: Seq<SplitLook>,
    r: Region<(NodeId, BtnKind)>,
) -> Option<ChromeOp> {
    let leaf = r.item.0;
    let at = placement_from(placed, leaf, 0);
    if at >= placed.len() || !v.live(leaf) || v.leaf_of(leaf).minimized {
        None
    } else {
        Some(
            ChromeOp::Button(
                titlebar_button(
                    r.item.1,
                    r.rect,
                    v.columns[v.pos_of(leaf).col as int].rows.len() > 1,
                    v.sole(),
                    looks[at],
                    v.leaf_of(leaf).color,
                ),
            ),
        )
    }
}

/// The buttons among the first `n` regions.
pub open spec fn button_ops(
    v: Strip,
    placed: Seq<Placement>,
    looks: Seq<SplitLook>,
    regions: Seq<Region<(NodeId, BtnKind)>>,
    n: int,
) -> Seq<ChromeOp>
    decreases n,
{
    if n <= 0 {
        Seq::empty()
    } else {
        let rest = button_ops(v, placed, looks, regions, n - 1);
        match button_op(v, placed, looks, regions[n - 1]) {
            Some(op) => rest.push(op),
            None => rest,
        }
    }
}

/// The first `n` tiles, each with its badge.
pub open spec fn tile_ops(tiles: Seq<TaskTile>, n: int) -> Seq<ChromeOp>
    decreases n,
{
    if n <= 0 {
        Seq::empty()
    } else {
        let t = tiles[n - 1];
        tile_ops(tiles, n - 1).push(ChromeOp::Tile((n - 1) as usize, t.rect)).push(
            ChromeOp::Badge(t.close.x, t.close.y, t.close.w),
        )
    }
}

/// The quick-launch items among the first `n` whose slot exists.
pub open spec fn quick_ops(quick: Seq<QuickSpot>, slots: int, n: int) -> Seq<ChromeOp>
    decreases n,
{
    if n <= 0 {
        Seq::empty()
    } else {
        let q = quick[n - 1];
        let rest = quick_ops(quick, slots, n - 1);
        if q.slot < slots {
            rest.push(ChromeOp::Quick(q.slot, q.rect))
        } else {
            rest
        }
    }
}

/// Everything that is painted, in order: splits with the focus outline, the
/// insert buttons, the titlebar buttons, the bar's tiles with their badges,
/// the separator, the quick-launch items.
pub open spec fn chrome_ops(
    v: Strip,
    placed: Seq<Placement>,
    looks: Seq<SplitLook>,
    plus: Seq<Rect>,
    buttons: Seq<Region<(NodeId, BtnKind)>>,
    tiles: Seq<TaskTile>,
    sep: Option<Rect>,
    quick: Seq<QuickSpot>,
    slots: int,
) -> Seq<ChromeOp> {
    leaf_ops(placed, placed.len() as int) + plus_ops(plus) + button_ops(
        v,
        placed,
        looks,
        buttons,
        buttons.len() as int,
    ) + tile_ops(tiles, tiles.len() as int) + (match sep {
        Some(r) => seq![ChromeOp::Separator(r)],
        None => Seq::empty(),
    }) + quick_ops(quick, slots, quick.len() as int)
}

fn leaf_steps(placed: &Vec<Placement>, out: &mut Vec<ChromeOp>)
    ensures
        final(out)@ == old(out)@ + leaf_ops(placed@, placed@.len() as int),
{
    let ghost start = out@;
    let mut k: usize = 0;
    while k < placed.len()
        invariant
            k <= placed@.len(),
            out@ == start + leaf_ops(placed@, k as int),
        decreases placed@.len() - k,
    {
        let p = placed[k];
        out.push(ChromeOp::Leaf(k, p.target));
        if p.focused {
            out.push(ChromeOp::Outline(p.target));
        }
        k = k + 1;
        proof {
            assert(out@ =~= start + leaf_ops(placed@, k as int));
        }
    }
}

fn plus_steps(regions: &Vec<Rect>, out: &mut Vec<ChromeOp>)
    requires
        forall|i: int|
            0 <= i < regions@.len() ==> fits_i32(
                (#[trigger] regions@[i]).x + half(regions@[i].w as int),
            ) && fits_i32(regions@[i].y + half(regions@[i].h as int)),
    ensures
        final(out)@ == old(out)@ + plus_ops(regions@),
{
    let ghost start = out@;
    let mut k: usize = 0;
    while k < regions.len()
        invariant
            k <= regions@.len(),
            forall|i: int|
                0 <= i < regions@.len() ==> fits_i32(
                    (#[trigger] regions@[i]).x + half(regions@[i].w as int),
                ) && fits_i32(regions@[i].y + half(regions@[i].h as int)),
            out@ == start + plus_ops(regions@).take(k as int),
        decreases regions@.len() - k,
    {
        let r = regions[k];
        out.push(ChromeOp::Plus(r.x + half_i32(r.w), r.y + half_i32(r.h), r.w));
        k = k + 1;
        proof {
            let all = plus_ops(regions@);
            assert(all.take(k as int) =~= all.take(k - 1).push(all[k - 1]));
            assert(out@ =~= start + all.take(k as int));
        }
    }
    proof {
        assert(plus_ops(regions@).take(k as int) =~= plus_ops(regions@));
    }
}

fn placement_of(placed: &Vec<Placement>, leaf: NodeId) -> (at: usize)
    ensures
        at == placement_from(placed@, leaf, 0),
        at <= placed@.len(),
{
    let mut k: usize = 0;
    while k < placed.len()
        invariant
            k <= placed@.len(),
            placement_from(placed@, leaf, 0) == placement_from(placed@, leaf, k as int),
        decreases placed@.len() - k,
    {
        if placed[k].leaf == leaf {
            return k;
        }
        k = k + 1;
    }
    k
}

fn button_steps(
    layout: &Layout,
    placed: &Vec<Placement>,
    looks: &Vec<SplitLook>,
    regions: &Vec<Region<(NodeId, BtnKind)>>,
    out: &mut Vec<ChromeOp>,
)
    requires
        layout@.wf(),
        looks@.len() == placed@.len(),
        forall|i: int|
            0 <= i < regions@.len() ==> fits_i32(
                (#[trigger] regions@[i]).rect.x + half(regions@[i].rect.w as int),
            ) && fits_i32(regions@[i].rect.y + half(regions@[i].rect.h as int)),
    ensures
        final(out)@ == old(out)@ + button_ops(layout@, placed@, looks@, regions@, regions@.len() as int),
{
    let ghost start = out@;
    let mut k: usize = 0;
    while k < regions.len()
        invariant
            k <= regions@.len(),
            layout@.wf(),
            looks@.len() == placed@.len(),
            forall|i: int|
                0 <= i < regions@.len() ==> fits_i32(
                    (#[trigger] regions@[i]).rect.x + half(regions@[i].rect.w as int),
                ) && fits_i32(regions@[i].rect.y + half(regions@[i].rect.h as int)),
            out@ == start + button_ops(layout@, placed@, looks@, regions@, k as int),
        decreases regions@.len() - k,
    {
        let (leaf, kind) = regions[k].item;
        let rect = regions[k].rect;
        let at: usize = placement_of(placed, leaf);
        if at < placed.len() {
            if let Some(l) = layout.leaf(leaf) {
                if !l.minimized {
                    let look = looks[at];
                    let sole = layout.sole_split();
                    let (icon, disabled) = match kind {
                        BtnKind::Minimize => (
                            if layout.stacked(leaf) {
                                BtnIcon::MinimizeH
                            } else {
                                BtnIcon::Minimize
                            },
                            sole,
                        ),
                        BtnKind::Split => (
                            if look.wider {
                                BtnIcon::VSplit
                            } else {
                                BtnIcon::HSplit
                            },
                            !look.can_split,
                        ),
                        BtnKind::Close => (BtnIcon::Close, sole),
                    };
                    out.push(
                        ChromeOp::Button(
                            BtnPaint {
                                cx: rect.x + half_i32(rect.w),
                                cy: rect.y + half_i32(rect.h),
                                icon,
                                disabled,
                                accent: l.color,
                            },
                        ),
                    );
                }
            }
        }
        k = k + 1;
        proof {
            assert(out@ =~= start + button_ops(layout@, placed@, looks@, regions@, k as int));
        }
    }
}

fn bar_steps(
    tiles: &Vec<TaskTile>,
    sep: Option<Rect>,
    quick: &Vec<QuickSpot>,
    slots: usize,
    out: &mut Vec<ChromeOp>,
)
    ensures
        final(out)@ == old(out)@ + tile_ops(tiles@, tiles@.len() as int) + (match sep {
            Some(r) => seq![ChromeOp::Separator(r)],
            None => Seq::empty(),
        }) + quick_ops(quick@, slots as int, quick@.len() as int),
{
    let ghost start = out@;
    let mut k: usize = 0;
    while k < tiles.len()
        invariant
            k <= tiles@.len(),
            out@ == start + tile_ops(tiles@, k as int),
        decreases tiles@.len() - k,
    {
        let t = tiles[k];
        out.push(ChromeOp::Tile(k, t.rect));
        out.push(ChromeOp::Badge(t.close.x, t.close.y, t.close.w));
        k = k + 1;
        proof {
            assert(out@ =~= start + tile_ops(tiles@, k as int));
        }
    }
    if let Some(r) = sep {
        out.push(ChromeOp::Separator(r));
    }
    let ghost mid = out@;
    proof {
        assert(mid =~= start + tile_ops(tiles@, tiles@.len() as int) + (match sep {
            Some(r) => seq![ChromeOp::Separator(r)],
            None => Seq::empty(),
        }));
    }
    let mut n: usize = 0;
    while n < quick.len()
        invariant
            n <= quick@.len(),
            out@ == mid + quick_ops(quick@, slots as int, n as int),
        decreases quick@.len() - n,
    {
        let q = quick[n];
        if q.slot < slots {
            out.push(ChromeOp::Quick(q.slot, q.rect));
        }
        n = n + 1;
        proof {
            assert(out@ =~= mid + quick_ops(quick@, slots as int, n as int));
        }
    }
}

/// Paint the whole chrome: what is painted later covers what was painted
/// before. `looks` is what the measures of each placed split say.
pub fn compose_chrome(
    layout: &Layout,
    placed: &Vec<Placement>,
    looks: &Vec<SplitLook>,
    plus: &Vec<Rect>,
    buttons: &Vec<Region<(NodeId, BtnKind)>>,
    tiles: &Vec<TaskTile>,
    sep: Option<Rect>,
    quick: &Vec<QuickSpot>,
    slots: usize,
) -> (ops: Vec<ChromeOp>)
    requires
        layout@.wf(),
        looks@.len() == placed@.len(),
        forall|i: int|
            0 <= i < plus@.len() ==> fits_i32((#[trigger] plus@[i]).x + half(plus@[i].w as int))
                && fits_i32(plus@[i].y + half(plus@[i].h as int)),
        forall|i: int|
            0 <= i < buttons@.len() ==> fits_i32(
                (#[trigger] buttons@[i]).rect.x + half(buttons@[i].rect.w as int),
            ) && fits_i32(buttons@[i].rect.y + half(buttons@[i].rect.h as int)),
    ensures
        ops@ == chrome_ops(
            layout@,
            placed@,
            looks@,
            plus@,
            buttons@,
            tiles@,
            sep,
            quick@,
            slots as int,
        ),
{
    let mut ops: Vec<ChromeOp> = Vec::new();
    leaf_steps(placed, &mut ops);
    plus_steps(plus, &mut ops);
    button_steps(layout, placed, looks, buttons, &mut ops);
    bar_steps(tiles, sep, quick, slots, &mut ops);
    proof {
        assert(ops@ =~= chrome_ops(
            layout@,
            placed@,
            looks@,
            plus@,
            buttons@,
            tiles@,
            sep,
            quick@,
            slots as int,
        ));
    }
    ops
}

/// Law: a button is drawn in the middle of its region, in its split's colour.
/// The last split can be neither closed nor minimized, and one too small
/// cannot be divided; the split button shows the way it divides and the
/// minimize button the way its split folds.
pub proof fn buttons_show_what_they_can_do(
    kind: BtnKind,
    r: Rect,
    stacked: bool,
    sole: bool,
    look: SplitLook,
    accent: Index,
)
    requires
        0 <= r.w,
        0 <= r.h,
        fits_i32(r.x + half(r.w as int)),
        fits_i32(r.y + half(r.h as int)),
    ensures
        ({
            let b = titlebar_button(kind, r, stacked, sole, look, accent);
            &&& 0 <= (r.x + r.w - b.cx) - (b.cx - r.x) <= 1
            &&& 0 <= (r.y + r.h - b.cy) - (b.cy - r.y) <= 1
            &&& b.accent == accent
            &&& kind is Close || kind is Minimize ==> b.disabled == sole
            &&& kind is Split ==> b.disabled == !look.can_split
            &&& kind is Close ==> b.icon is Close
            &&& kind is Minimize && stacked ==> b.icon is MinimizeH
            &&& kind is Minimize && !stacked ==> b.icon is Minimize
            &&& kind is Split && look.wider ==> b.icon is VSplit
            &&& kind is Split && !look.wider ==> b.icon is HSplit
        }),
{
}

proof fn lemma_placement_from(placed: Seq<Placement>, leaf: NodeId, k: int, i: int)
    requires
        0 <= k <= i <= placed.len(),
        forall|j: int| k <= j < i ==> (#[trigger] placed[j]).leaf != leaf,
        i < placed.len() ==> placed[i].leaf == leaf,
    ensures
        placement_from(placed, leaf, k) == i,
    decreases i - k,
{
    if k < i {
        lemma_placement_from(placed, leaf, k + 1, i);
    }
}

/// Law: only a split that is on screen and not minimized has its buttons
/// drawn.
pub proof fn only_open_splits_have_buttons(
    v: Strip,
    placed: Seq<Placement>,
    looks: Seq<SplitLook>,
    r: Region<(NodeId, BtnKind)>,
    i: int,
)
    requires
        0 <= i <= placed.len(),
        forall|j: int| 0 <= j < i ==> (#[trigger] placed[j]).leaf != r.item.0,
        i < placed.len() ==> placed[i].leaf == r.item.0,
    ensures
        button_op(v, placed, looks, r) is Some <==> i < placed.len() && v.live(r.item.0)
            && !v.leaf_of(r.item.0).minimized,
        button_op(v, placed, looks, r) is Some ==> button_op(v, placed, looks, r)->0
            == ChromeOp::Button(
            titlebar_button(
                r.item.1,
                r.rect,
                v.columns[v.pos_of(r.item.0).col as int].rows.len() > 1,
                v.columns.len() == 1 && v.columns[0].rows.len() == 1,
                looks[i],
                v.leaf_of(r.item.0).color,
            ),
        ),
{
    lemma_placement_from(placed, r.item.0, 0, i);
}

/// Law: every split on screen is drawn, and the focused one is outlined right
/// after it is drawn.
pub proof fn the_focused_split_is_outlined(placed: Seq<Placement>, n: int, i: int)
    requires
        0 <= i < n <= placed.len() <= usize::MAX,
    ensures
        leaf_ops(placed, n).contains(ChromeOp::Leaf(i as usize, placed[i].target)),
        placed[i].focused ==> leaf_ops(placed, n).contains(ChromeOp::Outline(placed[i].target)),
        (forall|j: int| 0 <= j < n ==> !(#[trigger] placed[j]).focused) ==> leaf_ops(
            placed,
            n,
        ).len() == n,
    decreases n,
{
    let before = leaf_ops(placed, n - 1);
    let all = leaf_ops(placed, n);
    let leaf = ChromeOp::Leaf(i as usize, placed[i].target);
    let outline = ChromeOp::Outline(placed[i].target);
    if i < n - 1 {
        the_focused_split_is_outlined(placed, n - 1, i);
        let k = choose|k: int| 0 <= k < before.len() && before[k] == leaf;
        assert(all[k] == leaf);
        if placed[i].focused {
            let m = choose|m: int| 0 <= m < before.len() && before[m] == outline;
            assert(all[m] == outline);
        }
    } else {
        if n > 1 {
            the_focused_split_is_outlined(placed, n - 1, 0);
        }
        assert(all[before.len() as int] == leaf);
        if placed[i].focused {
            assert(all[before.len() as int + 1] == outline);
        }
    }
}

/// Law: a plus is drawn in the middle of its region.
pub proof fn pluses_are_centred(regions: Seq<Rect>, i: int)
    requires
        0 <= i < regions.len(),
        0 <= regions[i].w,
        0 <= regions[i].h,
        fits_i32(regions[i].x + half(regions[i].w as int)),
        fits_i32(regions[i].y + half(regions[i].h as int)),
    ensures
        ({
            let (r, op) = (regions[i], plus_ops(regions)[i]);
            &&& op is Plus
            &&& 0 <= (r.x + r.w - op->Plus_0) - (op->Plus_0 - r.x) <= 1
            &&& 0 <= (r.y + r.h - op->Plus_1) - (op->Plus_1 - r.y) <= 1
        }),
{
}

/// Law: a tile is drawn where it is hit, and its badge right after it.
pub proof fn tiles_are_drawn_with_their_badges(tiles: Seq<TaskTile>, n: int, i: int)
    requires
        0 <= i < n <= tiles.len() <= usize::MAX,
    ensures
        tile_ops(tiles, n).len() == 2 * n,
        tile_ops(tiles, n)[2 * i] == ChromeOp::Tile(i as usize, tiles[i].rect),
        tile_ops(tiles, n)[2 * i + 1] == ChromeOp::Badge(
            tiles[i].close.x,
            tiles[i].close.y,
            tiles[i].close.w,
        ),
    decreases n,
{
    if n > 1 {
        tiles_are_drawn_with_their_badges(
            tiles,
            n - 1,
            if i < n - 1 {
                i
            } else {
                0
            },
        );
    } else {
        assert(tile_ops(tiles, 0).len() == 0);
    }
}

/// Law: a quick icon is drawn where it is, unless its slot is none.
pub proof fn quick_icons_are_drawn_in_place(quick: Seq<QuickSpot>, slots: int, n: int)
    requires
        0 < n <= quick.len(),
    ensures
        quick[n - 1].slot < slots ==> quick_ops(quick, slots, n) == quick_ops(
            quick,
            slots,
            n - 1,
        ).push(ChromeOp::Quick(quick[n - 1].slot, quick[n - 1].rect)),
        quick[n - 1].slot >= slots ==> quick_ops(quick, slots, n) == quick_ops(quick, slots, n - 1),
{
}

/// Law: the chrome is drawn in one order: the splits, the pluses, their
/// buttons, the tiles, the separator and the quick icons.
pub proof fn chrome_is_drawn_in_one_order(
    v: Strip,
    placed: Seq<Placement>,
    looks: Seq<SplitLook>,
    plus: Seq<Rect>,
    buttons: Seq<Region<(NodeId, BtnKind)>>,
    tiles: Seq<TaskTile>,
    sep: Option<Rect>,
    quick: Seq<QuickSpot>,
    slots: int,
)
    ensures
        ({
            let ops = chrome_ops(v, placed, looks, plus, buttons, tiles, sep, quick, slots);
            let a = leaf_ops(placed, placed.len() as int);
            let b = plus_ops(plus);
            let c = button_ops(v, placed, looks, buttons, buttons.len() as int);
            let d = tile_ops(tiles, tiles.len() as int);
            let f = quick_ops(quick, slots, quick.len() as int);
            let n = (a.len() + b.len() + c.len() + d.len()) as int;
            &&& ops.take(a.len() as int) == a
            &&& ops.subrange(a.len() as int, (a.len() + b.len()) as int) == b
            &&& ops.subrange((a.len() + b.len()) as int, (a.len() + b.len() + c.len()) as int) == c
            &&& ops.subrange((a.len() + b.len() + c.len()) as int, n) == d
            &&& sep is Some ==> ops[n] == ChromeOp::Separator(sep->0) && ops.skip(n + 1) == f
            &&& sep is None ==> ops.skip(n) == f
        }),
{
    let ops = chrome_ops(v, placed, looks, plus, buttons, tiles, sep, quick, slots);
    let a = leaf_ops(placed, placed.len() as int);
    let b = plus_ops(plus);
    let c = button_ops(v, placed, looks, buttons, buttons.len() as int);
    let d = tile_ops(tiles, tiles.len() as int);
    let f = quick_ops(quick, slots, quick.len() as int);
    let n = (a.len() + b.len() + c.len() + d.len()) as int;
    assert(ops.take(a.len() as int) =~= a);
    assert(ops.subrange(a.len() as int, (a.len() + b.len()) as int) =~= b);
    assert(ops.subrange((a.len() + b.len()) as int, (a.len() + b.len() + c.len()) as int) =~= c);
    assert(ops.subrange((a.len() + b.len() + c.len()) as int, n) =~= d);
    if sep is Some {
        assert(ops.skip(n + 1) =~= f);
    } else {
        assert(ops.skip(n) =~= f);
    }
}

} // verus!
