use splitwm::arrange::{bar_order, Placement};
use splitwm::geom::Rect;
use splitwm::input::CloseOutcome;
use splitwm::interaction::MoveDrop;
use splitwm::layout::{ColWidth, NodeId, Pos};
use splitwm::manage::{Hints, Managing, NewWindow, WindowRoles};
use splitwm::pointer::Side;
use splitwm::shell::{Kind, Managed};
use splitwm::sizes::SHARE_ONE;
use splitwm::state::{Activation, State};
use splitwm::theme::Theme;

const GAP: i32 = 20;
const WA: Rect = Rect { x: 0, y: 0, w: 800, h: 600 };

const TH: Theme = Theme {
    gap: GAP,
    border_left: 4,
    border_right: 4,
    border_top: 30,
    border_bottom: 6,
    tb_h: 30,
    taskbar_h: 40,
    btn_size: 16,
    scroll_step: 60,
};

/// Windows 1, 2 and 3 in columns of 400 pixels each, but for the first, which
/// fills the viewport.
fn three() -> State {
    let mut s = State::new(vec![1, 2, 3, 4]);
    s.place_new_window(1, Some(400));
    s.place_new_window(2, Some(400));
    s.place_new_window(3, Some(400));
    s
}

fn clients(s: &State) -> Vec<u32> {
    bar_order(&s.layout).iter().map(|(w, _)| *w).collect()
}

fn home(s: &State, win: u32) -> NodeId {
    s.layout.find_leaf_for_client(win).unwrap()
}

#[test]
fn new_windows_fill_the_placeholder_then_open_columns() {
    let mut s = State::new(vec![1, 2, 3]);
    let first = s.focused_leaf_valid();
    assert_eq!(s.focused_client(), None);
    s.place_new_window(1, Some(300));
    assert_eq!(s.focused_leaf_valid(), first);
    assert_eq!(s.layout.ncols(), 1);
    s.place_new_window(2, Some(300));
    assert_eq!(s.layout.ncols(), 2);
    assert_eq!(s.layout.col_width(1), Some(ColWidth::Px(300)));
    s.focus_leaf(first);
    s.place_new_window(3, None);
    assert_eq!(clients(&s), vec![1, 3, 2]);
    assert_eq!(s.layout.col_width(1), Some(ColWidth::Viewport));
    assert_eq!(s.focused_client(), Some(3));
}

#[test]
fn aimed_windows_open_on_their_side() {
    let order = |side| {
        let mut s = three();
        s.activate_client(2);
        s.aim_next_window(side);
        s.place_new_window(9, Some(300));
        assert_eq!((s.focused_client(), s.aim), (Some(9), None));
        let at = s.layout.locate(home(&s, 9)).unwrap();
        (clients(&s), s.layout.ncols(), at)
    };
    assert_eq!(order(Side::Left), (vec![1, 9, 2, 3], 4, Pos { col: 1, row: 0 }));
    assert_eq!(order(Side::Right), (vec![1, 2, 9, 3], 4, Pos { col: 2, row: 0 }));
    assert_eq!(order(Side::Up), (vec![1, 9, 2, 3], 3, Pos { col: 1, row: 0 }));
    assert_eq!(order(Side::Down), (vec![1, 2, 9, 3], 3, Pos { col: 1, row: 1 }));
    // A placeholder is left alone by a window that was aimed.
    let mut s = State::new(vec![1, 2, 3]);
    s.aim_next_window(Side::Down);
    s.place_new_window(1, None);
    assert_eq!(s.layout.col_len(0), 2);
    // The next one is not aimed any more.
    s.place_new_window(2, Some(300));
    assert_eq!(s.layout.ncols(), 2);
    assert_eq!(s.layout.col_width(1), Some(ColWidth::Px(300)));
}

#[test]
fn badge_closed_windows_leave_a_placeholder() {
    let mut s = three();
    let leaf = home(&s, 2);
    s.close_by_badge(2);
    assert!(!s.unpin_client(2));
    assert_eq!(clients(&s), vec![1, 3]);
    assert_eq!(s.layout.ncols(), 3);
    assert_eq!(s.layout.leaf(leaf).unwrap().client, None);
    // Another window in that place dies as any other.
    s.focus_leaf(leaf);
    s.place_new_window(2, None);
    assert_eq!(home(&s, 2), leaf);
    assert!(s.unpin_client(2));
    assert_eq!(s.layout.ncols(), 2);
}

#[test]
fn dying_windows_take_their_split_but_for_the_last() {
    let mut s = three();
    assert!(s.unpin_client(2));
    assert_eq!(clients(&s), vec![1, 3]);
    assert_eq!(s.focused_client(), Some(3));
    assert!(s.unpin_client(3));
    assert_eq!(s.focused_client(), Some(1));
    assert!(!s.unpin_client(9));
    assert!(!s.unpin_client(1));
    assert_eq!(s.layout.ncols(), 1);
    assert_eq!(s.focused_client(), None);
    assert!(clients(&s).is_empty());
}

#[test]
fn store_and_strip_stay_in_step() {
    let (mut m, mut roles) = (Managed::default(), WindowRoles::default());
    let mut s = State::new(vec![1, 2, 3]);
    let hints = Hints {
        has_parent: false,
        x11: false,
        transient: false,
        dialog: false,
        min_w: 0,
        min_h: 0,
        max_w: 0,
        max_h: 0,
    };
    let plain = NewWindow {
        dock_match: false,
        hints,
        w: 300,
        h: 200,
        parent: None,
        accent: 1,
        fullscreen: false,
    };
    for _ in 0..3 {
        match roles.classify_and_manage(&mut m, &plain, None, WA, &TH) {
            Managing::Tiled(win, want) => {
                assert_eq!(want, Some(308));
                s.place_new_window(win, want);
            }
            other => panic!("{other:?}"),
        }
    }
    assert_eq!(m.tiled(), clients(&s));
    roles.unmanage_tiled(&mut m, 2);
    s.unpin_client(2);
    assert_eq!(m.tiled(), vec![1, 3]);
    assert_eq!(m.tiled(), clients(&s));
}

#[test]
fn windows_are_managed_as_what_they_are() {
    let (mut m, mut roles) = (Managed::default(), WindowRoles::default());
    let hints = Hints {
        has_parent: true,
        x11: false,
        transient: false,
        dialog: false,
        min_w: 0,
        min_h: 0,
        max_w: 0,
        max_h: 0,
    };
    let dialog = NewWindow {
        dock_match: false,
        hints,
        w: 100,
        h: 50,
        parent: Some(7),
        accent: 3,
        fullscreen: true,
    };
    let frame = Rect { x: 200, y: 100, w: 300, h: 250 };
    let float = roles.classify_and_manage(&mut m, &dialog, Some(frame), WA, &TH);
    assert_eq!(float, Managing::Float(1));
    match m.kind_of(1) {
        Some(Kind::Float(f)) => {
            assert_eq!((f.x, f.y, f.w, f.h), (300, 200, 100, 50));
            assert_eq!(f.accent, 3);
        }
        _ => panic!("not a float"),
    }
    assert_eq!(roles.fullscreen(&m), None);
    assert_eq!(roles.focused_float(&m), Some(1));
    let panel = NewWindow { dock_match: true, ..dialog };
    assert_eq!(roles.classify_and_manage(&mut m, &panel, None, WA, &TH), Managing::Dock(2));
    let second = roles.classify_and_manage(&mut m, &panel, None, WA, &TH);
    assert_eq!(second, Managing::Float(3));
}

#[test]
fn activating_brings_a_window_back() {
    let mut s = three();
    let leaf = home(&s, 1);
    assert!(s.toggle_minimize(leaf));
    assert!(s.layout.leaf(leaf).unwrap().minimized);
    assert_eq!(s.activate_client(1), Activation::Unminimized);
    assert_eq!(s.activate_client(1), Activation::Unchanged);
    assert_eq!(s.focused_client(), Some(1));
    assert_eq!(s.activate_client(9), Activation::Unchanged);
    assert_eq!(s.focused_client(), Some(1));
    assert!(!s.toggle_minimize(NodeId(999)));
}

#[test]
fn windows_are_brought_into_view() {
    let mut s = three();
    let leaf = home(&s, 2);
    s.toggle_minimize(leaf);
    assert!(s.bring_into_layout(2, WA, GAP, true, false));
    assert_eq!(s.focused_client(), Some(2));
    assert_eq!((s.scroll_x, s.scroll_target), (420, 420));
    // Nothing moved, so the viewport glides instead of a transition.
    assert!(!s.bring_into_layout(1, WA, GAP, true, true));
    assert_eq!((s.scroll_x, s.scroll_target), (420, 0));
    // A transition that is due already lands it.
    assert!(s.bring_into_layout(3, WA, GAP, false, true));
    assert_eq!((s.scroll_x, s.scroll_target), (840, 840));
}

#[test]
fn focus_goes_round_the_strip() {
    let mut s = three();
    assert!(s.focus_direction(true));
    assert_eq!(s.focused_client(), Some(1));
    assert!(s.focus_direction(false));
    assert_eq!(s.focused_client(), Some(3));
    let mut lone = State::new(vec![1]);
    assert!(!lone.focus_direction(true));
}

#[test]
fn the_viewport_stays_on_the_canvas() {
    let mut s = three();
    // 20 + 760 + 20 + 400 + 20 + 400 + 20
    assert_eq!(s.canvas_w(WA, GAP), 1640);
    s.scroll_delta(WA, GAP, 5000);
    assert_eq!((s.scroll_x, s.scroll_target), (0, 840));
    s.dock_extra = 60;
    s.scroll_delta(WA, GAP, 5000);
    assert_eq!(s.scroll_target, 900);
    s.dock_extra = 0;
    s.clamp_scroll(WA, GAP);
    assert_eq!(s.scroll_target, 840);
    s.scroll_delta(WA, GAP, -5000);
    assert_eq!(s.scroll_target, 0);
    s.scroll_target = 5000;
    s.commit_layout(WA, GAP, false);
    assert_eq!((s.scroll_x, s.scroll_target), (0, 840));
    s.commit_layout(WA, GAP, true);
    assert_eq!((s.scroll_x, s.scroll_target), (840, 840));
}

#[test]
fn the_focused_split_comes_into_view() {
    let mut s = three();
    s.commit_layout(WA, GAP, true);
    assert_eq!(s.scroll_x, 840);
    s.activate_client(2);
    s.commit_layout(WA, GAP, true);
    assert_eq!(s.scroll_x, 780);
    s.activate_client(1);
    s.commit_layout(WA, GAP, true);
    assert_eq!(s.scroll_x, 0);
    s.activate_client(2);
    s.scroll_focus_into_view(WA, GAP);
    assert_eq!((s.scroll_x, s.scroll_target), (420, 420));
}

#[test]
fn glides_end_where_they_aim() {
    let mut s = three();
    assert!(!s.scroll_animating());
    s.scroll_delta(WA, GAP, 10);
    let mut seen = vec![];
    while s.scroll_animating() {
        s.step_scroll();
        seen.push(s.scroll_x);
    }
    assert_eq!(seen, vec![3, 5, 7, 8, 9, 10]);
    s.scroll_delta(WA, GAP, -100);
    s.step_scroll();
    assert_eq!((s.scroll_x, s.scroll_target), (7, 0));
    // A swipe that goes on re-aims the glide.
    s.scroll_delta(WA, GAP, 400);
    s.step_scroll();
    assert_eq!((s.scroll_x, s.scroll_target), (106, 400));
    s.shift_scroll(20);
    assert_eq!((s.scroll_x, s.scroll_target), (126, 420));
    s.land_scroll();
    assert_eq!(s.scroll_x, 420);
    s.step_scroll();
    assert_eq!(s.scroll_x, 420);
}

#[test]
fn only_splits_in_view_are_placed() {
    let mut s = three();
    s.activate_client(1);
    s.scroll_x = 420;
    let placed = s.compute_placements(WA, GAP);
    assert_eq!(
        placed,
        vec![
            Placement {
                leaf: home(&s, 1),
                target: Rect { x: -400, y: 20, w: 760, h: 560 },
                active_client: Some(1),
                focused: true,
            },
            Placement {
                leaf: home(&s, 2),
                target: Rect { x: 380, y: 20, w: 400, h: 560 },
                active_client: Some(2),
                focused: false,
            },
        ]
    );
}

#[test]
fn columns_are_resized_within_bounds() {
    let mut s = three();
    assert_eq!(s.resize_col(WA, GAP, 1, 500, 64, 1000), 100);
    assert_eq!(s.resize_col(WA, GAP, 1, 5000, 64, 1000), 500);
    assert_eq!(s.resize_col(WA, GAP, 1, 1, 64, 1000), -936);
    assert_eq!(s.resize_col(WA, GAP, 9, 500, 64, 1000), 0);
    s.shift_scroll(30);
    assert_eq!(s.scroll_x, 30);
    s.shift_scroll(-50);
    assert_eq!(s.scroll_x, 0);
    assert!(s.resize_focused(WA, GAP, true, 60, 64, 1000));
    assert_eq!(s.layout.col_px(2, WA.w, GAP), 460);
    assert!(s.resize_focused(WA, GAP, false, 1000, 64, 1000));
    assert!(!s.resize_focused(WA, GAP, false, 1000, 64, 1000));
    let leaf = home(&s, 2);
    s.toggle_minimize(leaf);
    assert_eq!(s.resize_col(WA, GAP, 1, 500, 64, 1000), 0);
}

#[test]
fn stacked_rows_share_their_height() {
    let mut s = three();
    assert!(!s.stack_below(WA, GAP, 300));
    assert!(s.stack_below(WA, GAP, 60));
    assert_eq!(s.layout.col_len(2), 2);
    assert_eq!(s.focused_client(), None);
    assert!(s.resize_rows(2, 0, 135, 540));
    assert_eq!(s.layout.row_frac(Pos { col: 2, row: 0 }), Some(SHARE_ONE / 4));
    assert_eq!(s.layout.row_frac(Pos { col: 2, row: 1 }), Some(SHARE_ONE / 4 * 3));
    assert!(!s.resize_rows(2, 1, 135, 540));
    assert!(!s.resize_rows(2, 0, 1, 1));
    assert_eq!(clients(&s), vec![1, 2, 3]);
}

#[test]
fn placeholders_close_and_windows_are_asked() {
    let mut s = three();
    assert_eq!(s.close_leaf(home(&s, 2)), CloseOutcome::Ask(2));
    s.stack_below(WA, GAP, 60);
    let empty = s.focused_leaf_valid();
    assert_eq!(s.close_leaf(empty), CloseOutcome::Removed(home(&s, 3)));
    assert_eq!(s.focused_client(), Some(3));
    assert_eq!(s.close_leaf(empty), CloseOutcome::Kept);
}

#[test]
fn moved_splits_keep_their_windows_and_the_focus() {
    let mut s = three();
    assert!(s.drop_leaf(home(&s, 3), MoveDrop::Column(home(&s, 1), true), ColWidth::Px(400)));
    assert_eq!(clients(&s), vec![3, 1, 2]);
    assert_eq!(s.focused_client(), Some(3));
    assert!(s.move_focused_split(true, ColWidth::Px(400)));
    assert_eq!(clients(&s), vec![1, 3, 2]);
    assert!(!s.drop_leaf(home(&s, 3), MoveDrop::Column(home(&s, 1), false), ColWidth::Px(400)));
}

#[test]
fn dropping_a_row_where_it_is_changes_nothing() {
    let mut s = three();
    let top = home(&s, 3);
    s.stack_below(WA, GAP, 60);
    let below = s.focused_leaf_valid();
    assert!(!s.drop_leaf(top, MoveDrop::Stack(below, true), ColWidth::Px(400)));
    assert!(s.drop_leaf(top, MoveDrop::Stack(below, false), ColWidth::Px(400)));
    assert_eq!(s.layout.leaf_at(Pos { col: 2, row: 1 }), Some(top));
}
