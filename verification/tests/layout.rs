use splitwm::geom::Rect;
use splitwm::layout::geometry::{GapAt, Insert};
use splitwm::layout::{ColWidth, Dir, Layout, NodeId, Pos};
use splitwm::sizes::{child_sizes, Share, SHARE_ONE};

const WA: Rect = Rect { x: 0, y: 0, w: 1280, h: 800 };
const GAP: i32 = 20;

fn share(f: f64) -> Share {
    (f * SHARE_ONE as f64).round() as u64
}

fn palette() -> Vec<u8> {
    (1..=12).collect()
}

fn fresh() -> Layout {
    Layout::new(palette())
}

fn columns(l: &mut Layout, n: usize) -> Vec<NodeId> {
    for i in 1..n {
        l.insert_column(i, ColWidth::Px(400));
    }
    l.collect_leaves()
}

fn geo(l: &Layout, id: NodeId) -> Rect {
    l.compute(WA, GAP).into_iter().find(|(i, _)| *i == id).unwrap().1
}

#[test]
fn sizes_fill_usable_exactly() {
    // Rounding must never leave the last child short or long.
    let kids = [(false, share(0.3)), (false, share(0.3)), (false, share(0.4))];
    assert_eq!(child_sizes(&kids, 100, 10).iter().sum::<i32>(), 100);
}

#[test]
fn decimal_shares_come_out_whole() {
    let kids = [(false, share(0.3)), (false, share(0.3)), (false, share(0.4))];
    assert_eq!(child_sizes(&kids, 100, 10), vec![30, 30, 40]);
    let thirds = vec![(false, SHARE_ONE / 3); 3];
    assert_eq!(child_sizes(&thirds, 99, 10), vec![33, 33, 33]);
}

#[test]
fn minimized_children_get_min_size() {
    let kids = [(true, share(0.5)), (false, share(0.5))];
    assert_eq!(child_sizes(&kids, 100, 10), vec![10, 90]);
}

#[test]
fn all_minimized_does_not_panic_or_go_negative() {
    let kids = [(true, share(0.5)), (true, share(0.5))];
    assert_eq!(child_sizes(&kids, 100, 10), vec![10, 10]);
}

#[test]
fn skewed_ratios_never_sum_past_usable() {
    let kids = [(false, share(100.0)), (false, share(0.0001))];
    let sizes = child_sizes(&kids, 50, 10);
    assert!(sizes.iter().sum::<i32>() <= 50);
    assert!(sizes.iter().all(|&s| s >= 0));
}

#[test]
fn more_children_than_pixels_never_overlaps() {
    let kids = vec![(false, share(0.1)); 20];
    let sizes = child_sizes(&kids, 5, 3);
    assert!(sizes.iter().sum::<i32>() <= 5);
    assert!(sizes.iter().all(|&s| s >= 0));
}

#[test]
fn zero_ratio_sum_falls_back() {
    let kids = [(false, share(0.0)), (false, share(0.0))];
    let sizes = child_sizes(&kids, 100, 10);
    assert!(sizes.iter().sum::<i32>() <= 100);
}

#[test]
fn usable_smaller_than_min_total_clamps() {
    let kids = [(true, share(0.5)), (true, share(0.5)), (false, share(1.0))];
    let sizes = child_sizes(&kids, 5, 10);
    assert!(sizes.iter().all(|&s| s >= 0));
}

#[test]
fn bootstrap_column_fills_the_viewport() {
    let l = fresh();
    let g = geo(&l, l.first_leaf());
    assert_eq!(g.w, WA.w - 2 * GAP);
    assert_eq!(l.strip_w(WA.w, GAP), WA.w);
}

#[test]
fn inserting_a_column_never_resizes_the_others() {
    let mut l = fresh();
    let ids = columns(&mut l, 3);
    let before: Vec<i32> = ids.iter().map(|&id| geo(&l, id).w).collect();
    l.insert_column(1, ColWidth::Px(300));
    let after: Vec<i32> = ids.iter().map(|&id| geo(&l, id).w).collect();
    assert_eq!(before, after);
    assert_eq!(l.strip_w(WA.w, GAP), WA.w + 300 + GAP + 400 + GAP + 400 + GAP);
}

#[test]
fn removing_a_column_never_resizes_the_others() {
    let mut l = fresh();
    let ids = columns(&mut l, 3);
    let before: Vec<i32> = ids.iter().map(|&id| geo(&l, id).w).collect();
    let strip = l.strip_w(WA.w, GAP);
    let focus = l.remove(ids[1]).expect("removable");
    assert_eq!(focus, ids[2], "nearest surviving column's row");
    assert_eq!(before[0], geo(&l, ids[0]).w);
    assert_eq!(before[2], geo(&l, ids[2]).w);
    assert_eq!(l.strip_w(WA.w, GAP), strip - before[1] - GAP);
}

#[test]
fn removing_a_stacked_row_hands_its_share_to_the_stack() {
    let mut l = fresh();
    let top = l.first_leaf();
    let bottom = l.split_below(top, share(0.618)).expect("splittable");
    let full = geo(&l, top).h + geo(&l, bottom).h + GAP;
    let focus = l.remove(bottom).expect("removable");
    assert_eq!(focus, top);
    assert_eq!(geo(&l, top).h, full, "height reclaimed");
    assert_eq!(l.ncols(), 1);
}

#[test]
fn sole_split_cannot_be_removed() {
    let mut l = fresh();
    let sole = l.first_leaf();
    assert!(l.remove(sole).is_none());
    assert_eq!(l.collect_leaves().len(), 1);
}

#[test]
fn split_below_keeps_ratio_and_identity() {
    let mut l = fresh();
    columns(&mut l, 2);
    let top = l.collect_leaves()[1];
    let bottom = l.split_below(top, share(0.618)).expect("splittable");
    assert!(geo(&l, top).h > geo(&l, bottom).h, "content keeps the major share");
    assert_eq!(l.locate(top), Some(Pos { col: 1, row: 0 }));
    assert_eq!(l.locate(bottom), Some(Pos { col: 1, row: 1 }));
}

#[test]
fn insert_row_takes_the_average_share() {
    let mut l = fresh();
    let top = l.first_leaf();
    l.split_below(top, share(0.618)).expect("splittable");
    let mid = l.insert_row(0, 1).expect("live column");
    let usable = WA.h - 2 * GAP - 2 * GAP;
    let third = usable / 3;
    assert!((geo(&l, mid).h - third).abs() <= usable / 10, "roughly a third");
    assert_eq!(l.col_len(0), 3);
}

#[test]
fn move_beside_column_reorders_and_carries_width() {
    let mut l = fresh();
    let ids = columns(&mut l, 3);
    l.set_col_width(2, ColWidth::Px(555));
    assert!(l.move_beside_column(ids[2], ids[0], true, ColWidth::Px(1)));
    assert_eq!(l.collect_leaves(), vec![ids[2], ids[0], ids[1]]);
    assert_eq!(l.col_width(0), Some(ColWidth::Px(555)), "width travels");
    // Already in place: a repeat is a no-op.
    assert!(!l.move_beside_column(ids[2], ids[0], true, ColWidth::Px(1)));
}

#[test]
fn move_out_of_a_stack_gets_the_default_width() {
    let mut l = fresh();
    let ids = columns(&mut l, 2);
    let bottom = l.split_below(ids[0], share(0.5)).expect("splittable");
    assert!(l.move_beside_column(bottom, ids[1], false, ColWidth::Px(321)));
    assert_eq!(l.col_width(2), Some(ColWidth::Px(321)));
    assert_eq!(l.col_len(0), 1, "the stack dissolved to a lone row");
}

#[test]
fn move_into_stack_joins_at_the_drop_side() {
    let mut l = fresh();
    let ids = columns(&mut l, 2);
    assert!(l.move_into_stack(ids[1], ids[0], false));
    assert_eq!(l.ncols(), 1);
    assert_eq!(l.locate(ids[1]), Some(Pos { col: 0, row: 1 }));
    // Detaching a lone column while targeting a stack keeps working.
    let third = l.insert_column(1, ColWidth::Px(200));
    assert!(l.move_into_stack(third, ids[0], true));
    assert_eq!(l.locate(third), Some(Pos { col: 0, row: 0 }));
    assert_eq!(l.col_len(0), 3);
}

#[test]
fn joining_a_stack_where_one_stands_changes_nothing() {
    let mut l = fresh();
    let a = l.first_leaf();
    let b = l.split_below(a, SHARE_ONE / 2).unwrap();
    let order = l.collect_leaves();
    assert!(!l.move_into_stack(a, b, true));
    assert!(!l.move_into_stack(b, a, false));
    assert_eq!(l.collect_leaves(), order);
    for row in 0..2 {
        assert_eq!(l.row_frac(Pos { col: 0, row }), Some(SHARE_ONE / 2));
    }
    assert!(l.move_into_stack(a, b, false));
    assert_ne!(l.collect_leaves(), order);
    // Shares that are not the average one are evened out by the same drop.
    let c = l.split_below(a, SHARE_ONE / 4).unwrap();
    assert!(l.move_into_stack(a, c, true));
}

#[test]
fn detached_leaf_keeps_its_window_and_color() {
    let mut l = fresh();
    let ids = columns(&mut l, 2);
    l.leaf_mut(ids[1]).expect("live").show(7);
    let color = l.leaf(ids[1]).expect("live").color;
    assert!(l.move_beside_column(ids[1], ids[0], true, ColWidth::Px(1)));
    assert_eq!(l.leaf(ids[1]).expect("live").client, Some(7));
    assert_eq!(l.leaf(ids[1]).expect("live").color, color);
}

#[test]
fn minimized_lone_column_pins_to_the_gap() {
    let mut l = fresh();
    let ids = columns(&mut l, 2);
    l.leaf_mut(ids[0]).expect("live").minimized = true;
    assert_eq!(l.widths(WA.w, GAP)[0], GAP);
    let b = l.boundaries(WA, GAP);
    assert!(b.iter().all(|b| !matches!(b.at, GapAt::Col(_)) || !b.resizable));
}

#[test]
fn pinned_column_rows_span_the_full_height() {
    let mut l = fresh();
    let ids = columns(&mut l, 2);
    let bottom = l.split_below(ids[0], share(0.5)).expect("splittable");
    l.leaf_mut(ids[0]).expect("live").minimized = true;
    l.leaf_mut(bottom).expect("live").minimized = true;
    let (a, b) = (geo(&l, ids[0]), geo(&l, bottom));
    let strip_h = WA.h - 2 * GAP;
    assert_eq!(a.h + b.h + GAP, strip_h, "rows share the column's full height");
    // Taller than the gap-wide column, so each renders as the vertical
    // restore strip, not the stacked-row one.
    assert!(a.h > a.w);
    assert!(b.h > b.w);
}

#[test]
fn minimized_row_pins_within_its_stack_only() {
    let mut l = fresh();
    let ids = columns(&mut l, 2);
    let bottom = l.split_below(ids[0], share(0.5)).expect("splittable");
    l.leaf_mut(bottom).expect("live").minimized = true;
    assert_eq!(geo(&l, bottom).h, GAP, "row pinned");
    assert_eq!(l.widths(WA.w, GAP)[0], WA.w - 2 * GAP, "width kept");
}

#[test]
fn splits_get_unique_colors_up_to_palette_size() {
    let mut l = fresh();
    let n = palette().len();
    for i in 1..n {
        l.insert_column(i, ColWidth::Px(100));
    }
    let mut colors: Vec<_> =
        l.collect_leaves().iter().map(|&id| l.leaf(id).expect("live").color).collect();
    colors.sort_unstable();
    colors.dedup();
    assert_eq!(colors.len(), n, "no colour repeats before the palette runs out");
}

#[test]
fn boundaries_cover_every_gap_once() {
    let mut l = fresh();
    let ids = columns(&mut l, 3);
    l.split_below(ids[1], share(0.5)).expect("splittable");
    let b = l.boundaries(WA, GAP);
    let cols = b.iter().filter(|b| matches!(b.at, GapAt::Col(_))).count();
    let rows = b.iter().filter(|b| matches!(b.at, GapAt::Row { .. })).count();
    assert_eq!((cols, rows), (2, 1));
}

/// One slot per insert position: column slots at both margins and each gap,
/// and per column a row slot at its top and bottom margins and each stack
/// gap, each exactly once.
#[test]
fn insert_slots_cover_every_position_once() {
    let mut l = fresh();
    let ids = columns(&mut l, 3);
    l.split_below(ids[1], share(0.5)).expect("splittable");
    let mut inserts: Vec<Insert> =
        l.insert_slots(WA, GAP).into_iter().map(|(_, _, at)| at).collect();
    let mut expected: Vec<Insert> = (0..=3).map(Insert::Col).collect();
    for (col, rows) in [(0, 1), (1, 2), (2, 1)] {
        expected.extend((0..=rows).map(|idx| Insert::Row { col, idx }));
    }
    let key = |at: &Insert| format!("{at:?}");
    inserts.sort_by_key(key);
    expected.sort_by_key(key);
    assert_eq!(inserts, expected);
}

#[test]
fn gap_directions_follow_their_kind() {
    assert_eq!(GapAt::Col(0).dir(), Dir::H);
    assert_eq!(GapAt::Row { col: 0, idx: 0 }.dir(), Dir::V);
}

#[test]
fn splits_never_overlap_on_the_strip() {
    let mut l = fresh();
    let ids = columns(&mut l, 3);
    l.split_below(ids[1], share(0.5)).expect("splittable");
    let geos = l.compute(WA, GAP);
    assert_eq!(geos.len(), 4);
    for (i, (_, a)) in geos.iter().enumerate() {
        for (_, b) in geos.iter().skip(i + 1) {
            assert!(
                a.x + a.w <= b.x || b.x + b.w <= a.x || a.y + a.h <= b.y || b.y + b.h <= a.y
            );
        }
    }
}

#[test]
fn fresh_identities_are_never_handed_out_twice() {
    let mut l = fresh();
    let ids = columns(&mut l, 3);
    l.remove(ids[1]).unwrap();
    let next = l.insert_column(0, ColWidth::Px(100));
    assert!(!ids.contains(&next));
    assert_eq!(l.locate(ids[1]), None);
    assert!(!l.is_leaf(ids[1]));
}

#[test]
fn windows_are_found_by_their_split() {
    let mut l = fresh();
    let ids = columns(&mut l, 2);
    l.leaf_mut(ids[1]).unwrap().show(7);
    assert_eq!(l.find_leaf_for_client(7), Some(ids[1]));
    assert_eq!(l.find_leaf_for_client(8), None);
    assert_eq!(l.leaf_at(Pos { col: 1, row: 0 }), Some(ids[1]));
    assert_eq!(l.leaf_at(Pos { col: 1, row: 1 }), None);
    assert!(!l.stacked(ids[1]));
    assert!(!l.sole_split());
}

#[test]
fn refused_moves_change_nothing() {
    let mut l = fresh();
    let ids = columns(&mut l, 2);
    assert!(!l.move_beside_column(ids[0], ids[0], true, ColWidth::Px(1)));
    assert!(!l.move_into_stack(ids[0], ids[0], true));
    assert!(!l.move_beside_column(NodeId(999), ids[0], true, ColWidth::Px(1)));
    assert_eq!(l.collect_leaves(), ids);
    assert_eq!(l.split_below(NodeId(999), SHARE_ONE / 2), None);
    assert_eq!(l.insert_row(9, 0), None);
}
