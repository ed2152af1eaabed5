use splitwm::geom::Rect;
use splitwm::input::{
    binding_action, click_split_button, close_focused_window, close_split, do_action, drop_split,
    epilogue, mask_of, process_key, vt_switch_target, Action, ActionStep, Binding, ButtonClick,
    CloseOutcome, Intercepted, Mods, MOD4, SHIFT,
};
use splitwm::interaction::{
    axis_plan, float_frame_at, hover_target, hscroll_allowed, move_drop_target, ButtonStep,
    DragStep, FloatFrame, HoverSurface, Interaction, MoveDrop, Press, Under, BTN_LEFT, CLICK_ONE,
};
use splitwm::layout::{ColWidth, Layout, NodeId};
use splitwm::pointer::{
    compass_zone, hit_test, hover_cursor, quick_compass_zone, ActiveDrag, BtnKind, CursorShape,
    Hit, MoveDrag, QuickTile, Region, Side, TaskTile, Widgets,
};
use splitwm::theme::Theme;

fn r(x: i32, y: i32, w: i32, h: i32) -> Rect {
    Rect { x, y, w, h }
}

const TH: Theme = Theme {
    gap: 20,
    border_left: 4,
    border_right: 4,
    border_top: 30,
    border_bottom: 6,
    tb_h: 30,
    taskbar_h: 40,
    btn_size: 16,
    scroll_step: 60,
};

fn no_mods() -> Mods {
    Mods { shift: false, ctrl: false, alt: false, logo: false }
}

fn bindings() -> Vec<Binding> {
    vec![
        Binding { mask: MOD4, sym: 0x63, action: Action::Close },
        Binding { mask: MOD4 | SHIFT, sym: 0x63, action: Action::CloseWindow },
    ]
}

fn widgets() -> Widgets {
    Widgets {
        btn_regions: vec![],
        taskbar_regions: vec![],
        taskbar_sep: None,
        quick_regions: vec![],
        title_regions: vec![],
        handle_regions: vec![],
        edge_handle_regions: vec![],
    }
}

#[test]
fn terminal_switches_are_recognised() {
    assert_eq!(vt_switch_target(0x1008_FE01), Some(1));
    assert_eq!(vt_switch_target(0x1008_FE0C), Some(12));
    assert_eq!(vt_switch_target(0x1008_FE0D), None);
    assert_eq!(vt_switch_target(0x1008_FE00), None);
}

#[test]
fn chords_match_exactly() {
    let logo = Mods { logo: true, ..no_mods() };
    assert_eq!(mask_of(&logo), MOD4);
    assert_eq!(binding_action(&bindings(), &logo, 0x63), Some(Action::Close));
    let more = Mods { shift: true, ..logo };
    assert_eq!(binding_action(&bindings(), &more, 0x63), Some(Action::CloseWindow));
    let ctrl = Mods { ctrl: true, ..logo };
    assert_eq!(binding_action(&bindings(), &ctrl, 0x63), None);
}

#[test]
fn clients_never_see_half_of_a_chord() {
    let mut i = Interaction::new();
    let logo = Mods { logo: true, ..no_mods() };
    let down = process_key(&mut i, &bindings(), 54, true, &logo, 0x63, 0x63);
    assert!(!down.forward);
    assert_eq!(down.fire, Some(Intercepted::Action(Action::Close)));
    // The release is swallowed too, though the modifier is up by then.
    let up = process_key(&mut i, &bindings(), 54, false, &no_mods(), 0x63, 0x63);
    assert!(!up.forward && up.fire.is_none());
    // A press that repeats after the modifier went up stays swallowed.
    process_key(&mut i, &bindings(), 54, true, &logo, 0x63, 0x63);
    let again = process_key(&mut i, &bindings(), 54, true, &no_mods(), 0x63, 0x63);
    assert!(!again.forward && again.fire.is_none());
    let up = process_key(&mut i, &bindings(), 54, false, &no_mods(), 0x63, 0x63);
    assert!(!up.forward && up.fire.is_none());
    let plain = process_key(&mut i, &bindings(), 55, true, &no_mods(), 0x64, 0x64);
    assert!(plain.forward && plain.fire.is_none());
    i.release_all_keys();
    assert!(i.held_bound_keys.is_empty());
}

#[test]
fn actions_say_what_they_ask_for() {
    assert_eq!(do_action(Action::BrightnessDown, 5), ActionStep::Brightness(-5));
    assert_eq!(do_action(Action::FocusNext, 5), ActionStep::MoveFocus(true));
    assert!(epilogue(ActionStep::MoveFocus(true), true).arrange);
    assert_eq!(close_focused_window(Some(1), Some(2)), Some(1));
    assert_eq!(close_focused_window(None, Some(2)), Some(2));
    assert_eq!(close_focused_window(None, None), None);
}

fn two() -> (Layout, NodeId, NodeId) {
    let mut l = Layout::new(vec![1, 2, 3]);
    let a = l.first_leaf();
    let b = l.insert_column(1, ColWidth::Px(400));
    (l, a, b)
}

#[test]
fn closing_asks_windows_and_removes_placeholders() {
    let (mut l, a, b) = two();
    l.leaf_mut(a).unwrap().show(7);
    assert_eq!(close_split(&mut l, a), CloseOutcome::Ask(7));
    assert_eq!(close_split(&mut l, b), CloseOutcome::Removed(a));
    assert_eq!(close_split(&mut l, b), CloseOutcome::Kept);
    l.leaf_mut(a).unwrap().client = None;
    assert_eq!(close_split(&mut l, a), CloseOutcome::Kept);
    assert_eq!(click_split_button(&l, a, BtnKind::Close), ButtonClick::Nothing);
    l.leaf_mut(a).unwrap().show(7);
    assert_eq!(click_split_button(&l, a, BtnKind::Close), ButtonClick::Ask(7));
    assert_eq!(click_split_button(&l, a, BtnKind::Minimize), ButtonClick::ToggleMinimize(a));
    assert_eq!(click_split_button(&l, a, BtnKind::Split), ButtonClick::Divide(a));
}

#[test]
fn dropped_splits_land_where_they_were_dropped() {
    let (mut l, a, b) = two();
    assert!(drop_split(&mut l, b, MoveDrop::Column(a, true), ColWidth::Px(1)));
    assert_eq!(l.collect_leaves(), vec![b, a]);
    assert!(drop_split(&mut l, b, MoveDrop::Stack(a, false), ColWidth::Px(1)));
    assert_eq!(l.ncols(), 1);
    assert_eq!(l.collect_leaves(), vec![a, b]);
}

/// The nearer axis, sideways on the diagonals.
fn quarters(dx: i32, dy: i32) -> Side {
    if dx.abs() >= dy.abs() {
        if dx < 0 {
            Side::Left
        } else {
            Side::Right
        }
    } else if dy < 0 {
        Side::Up
    } else {
        Side::Down
    }
}

#[test]
fn launches_name_the_side_they_were_aimed_at() {
    let (l, _, _) = two();
    let mut w = widgets();
    let icon = r(100, 100, 20, 20);
    w.quick_regions.push(QuickTile { slot: 3, icon, hover: icon, compass: r(80, 80, 60, 60) });
    let at = |hover, x, y| hit_test(&w, &l, &vec![], hover, &TH, x, y, quarters);
    // Before the compass is up, the icon's own wedges count.
    assert_eq!(at(None, 101, 109), Hit::QuickLaunch(3, Side::Left));
    assert_eq!(at(None, 118, 110), Hit::QuickLaunch(3, Side::Right));
    assert_eq!(at(None, 110, 101), Hit::QuickLaunch(3, Side::Up));
    assert_eq!(at(None, 110, 118), Hit::QuickLaunch(3, Side::Down));
    assert_eq!(at(None, 82, 110), Hit::Miss);
    assert_eq!(at(Some(3), 82, 110), Hit::QuickLaunch(3, Side::Left));
    assert_eq!(at(Some(3), 110, 138), Hit::QuickLaunch(3, Side::Down));
    // The offset is that of the pixel's middle, doubled.
    let seen = std::cell::Cell::new((0, 0));
    compass_zone(icon, 100, 119, |dx, dy| {
        seen.set((dx, dy));
        Side::Up
    });
    assert_eq!(seen.get(), (-19, 19));
    let zone = |hover| quick_compass_zone(&w.quick_regions, hover, 110, 0, quarters);
    assert_eq!((zone(Some(3)), zone(None), zone(Some(4))), (Some(Side::Up), None, None));
    let mut i = Interaction::new();
    let hit = at(Some(3), 82, 110);
    let o = i.on_chrome_button(&vec![], false, hit, 82, 110, false);
    assert_eq!(o.press, Press::Launch(3, Side::Left));
}

#[test]
fn hits_are_resolved_in_priority_order() {
    let (l, a, b) = two();
    let mut w = widgets();
    let at = |w: &Widgets, x, y| hit_test(w, &l, &vec![], None, &TH, x, y, quarters);
    assert_eq!(at(&w, 5, 5), Hit::Miss);
    w.title_regions.push(Region { rect: r(0, 0, 100, 30), item: a });
    assert_eq!(at(&w, 5, 5), Hit::Title(a));
    let tile = |x, win| TaskTile { rect: r(x, 0, 30, 30), close: r(x, 20, 10, 10), win, leaf: b };
    w.taskbar_regions.push(tile(0, 1));
    w.taskbar_regions.push(tile(10, 2));
    // The rightmost of two that overlap is on top, its badge before its body.
    assert_eq!(at(&w, 15, 5), Hit::TaskbarTile(2, b));
    assert_eq!(at(&w, 15, 25), Hit::TaskbarClose(2));
    assert_eq!(at(&w, 5, 25), Hit::TaskbarClose(1));
    w.btn_regions.push(Region { rect: r(0, 0, 100, 30), item: (a, BtnKind::Close) });
    assert_eq!(at(&w, 15, 5), Hit::Btn(a, BtnKind::Close));
    assert_eq!(hover_cursor(&l, false, Hit::Btn(a, BtnKind::Close)), CursorShape::Pointer);
}

#[test]
fn frames_have_side_borders_and_a_body() {
    let (l, a, _) = two();
    let frames = vec![Region { rect: r(100, 100, 200, 200), item: a }];
    let at = |x| hit_test(&widgets(), &l, &frames, None, &TH, x, 200, quarters);
    assert_eq!(at(101), Hit::Border(a, true));
    assert_eq!(at(299), Hit::Border(a, false));
    assert_eq!(at(200), Hit::LeafBody(a));
    assert_eq!(at(99), Hit::Miss);
}

#[test]
fn the_compass_stays_while_the_pointer_roams_it() {
    let q = |slot, x| QuickTile {
        slot,
        icon: r(x, 0, 20, 20),
        hover: r(x, 0, 20, 20),
        compass: r(x - 20, -20, 60, 60),
    };
    let tiles = vec![q(0, 100), q(1, 140)];
    let mut i = Interaction::new();
    i.update_quick_hover(&tiles, 105, 5);
    assert_eq!(i.quick_hover, Some(0));
    i.update_quick_hover(&tiles, 85, 30);
    assert_eq!(i.quick_hover, Some(0));
    i.update_quick_hover(&tiles, 145, 5);
    assert_eq!(i.quick_hover, Some(1));
    i.update_quick_hover(&tiles, 500, 500);
    assert_eq!(i.quick_hover, None);
}

#[test]
fn float_frames_are_grabbed_by_their_band() {
    let f = FloatFrame { win: 9, frame: r(0, 0, 100, 100), client: r(5, 30, 90, 60) };
    let floats = vec![f];
    assert_eq!(float_frame_at(&floats, 50, 10), Some(9));
    assert_eq!(float_frame_at(&floats, 50, 50), None);
    let mut i = Interaction::new();
    let o = i.on_chrome_button(&floats, false, Hit::Miss, 50, 10, false);
    assert_eq!(o.press, Press::RaiseFloat(9));
    assert!(!o.reclaim);
    assert!(i.on_chrome_button(&floats, false, Hit::LeafBody(NodeId(1)), 500, 500, false).reclaim);
    assert!(!i.on_chrome_button(&floats, false, Hit::LeafBody(NodeId(1)), 500, 500, true).reclaim);
    assert!(!i.on_chrome_button(&floats, false, Hit::Edge(true), 500, 500, false).reclaim);
    i.on_chrome_button(&floats, false, Hit::Miss, 50, 10, false);
    assert_eq!(i.on_drag_motion(60, 12), DragStep::MoveFloat(9, 15, 32));
}

#[test]
fn titles_arm_a_move_and_the_threshold_starts_it() {
    let (l, a, _) = two();
    let mut i = Interaction::new();
    let o = i.on_chrome_button(&vec![], true, Hit::Title(a), 10, 10, false);
    assert_eq!((o.press, o.settle, o.consumed), (Press::Focus(a), true, true));
    assert!(o.reclaim);
    assert_eq!(i.on_drag_motion(17, 10), DragStep::Free);
    assert!(matches!(i.drag, Some(ActiveDrag::Move(MoveDrag::Armed { .. }))));
    assert_eq!(i.on_drag_motion(18, 10), DragStep::Hold);
    assert!(matches!(i.drag, Some(ActiveDrag::Move(MoveDrag::Active { .. }))));
    assert_eq!(i.end_drag(&l), Some(a));
    assert!(i.drag.is_none());
    i.on_chrome_button(&vec![], false, Hit::Title(a), 10, 10, false);
    assert_eq!(i.end_drag(&l), None);
    i.on_chrome_button(&vec![], false, Hit::Title(a), 10, 10, false);
    i.layout_changed();
    assert!(i.drag.is_none());
}

#[test]
fn secondary_presses_are_consumed_without_effect() {
    let (_, a, _) = two();
    let mut i = Interaction::new();
    let o = i.on_chrome_button(&vec![], false, Hit::Title(a), 10, 10, true);
    assert_eq!((o.press, o.consumed), (Press::Nothing, true));
    assert!(i.drag.is_none());
}

#[test]
fn presses_on_windows_reach_them() {
    let (l, _, _) = two();
    let mut i = Interaction::new();
    let o = i.pointer_button(
        &l, BTN_LEFT, true, false, false, Under::Tiled(3), &vec![], false, Hit::Miss, 1, 1,
    );
    assert_eq!(o.step, ButtonStep::FocusTiled(3));
    assert!(o.forward);
    let o = i.pointer_button(
        &l, BTN_LEFT, true, false, true, Under::Tiled(3), &vec![], false, Hit::Miss, 1, 1,
    );
    assert_eq!(o.step, ButtonStep::DismissNote);
    assert!(!o.forward);
}

#[test]
fn slow_swipes_add_up_to_a_pixel() {
    let mut i = Interaction::new();
    let step = (CLICK_ONE / 120) as i32;
    // Sixty pixels a click: a click's hundred-and-twentieth is half a pixel.
    assert_eq!(i.apply_hscroll(step, &TH), 0);
    assert_eq!(i.apply_hscroll(step + 1, &TH), 1);
    assert_eq!(i.apply_hscroll(CLICK_ONE as i32, &TH), 60);
    // The remainder is carried over, and what is left is cut towards zero.
    assert_eq!(i.apply_hscroll(-(2 * CLICK_ONE) as i32, &TH), -119);
}

#[test]
fn swipes_pan_over_chrome_or_with_the_logo_key() {
    assert!(hscroll_allowed(false, false));
    assert!(!hscroll_allowed(true, false));
    assert!(hscroll_allowed(true, true));
    let p = axis_plan(true, true, false, false, false, false, false);
    assert!(p.pan && !p.horizontal && p.vertical);
    let p = axis_plan(true, false, false, false, false, true, false);
    assert!(!p.pan && p.horizontal);
    let mut i = Interaction::new();
    i.swipe_begin(3);
    let panning = i.swipe_pan;
    i.swipe_end();
    assert!(!i.swipe_pan);
    i.swipe_begin(2);
    assert!(!i.swipe_pan || !panning);
}

#[test]
fn drags_resize_what_was_grabbed() {
    let (_, a, _) = two();
    let mut i = Interaction::new();
    i.grab_edge(false, 100, 400, 50);
    assert!(matches!(i.on_drag_motion(130, 5), DragStep::ResizeEdge(false, _)));
    i.grab_border(a, true, r(100, 0, 200, 100), 0);
    assert!(matches!(i.on_drag_motion(130, 5), DragStep::ResizeBorder(_, true, _)));
}

#[test]
fn hovering_finds_the_window() {
    let (mut l, a, _) = two();
    l.leaf_mut(a).unwrap().show(7);
    let frames = vec![Region { rect: r(0, 0, 100, 100), item: a }];
    let at = |under, x| {
        hover_target(&l, &frames, None, false, under, None, None, None, x, 50)
    };
    assert_eq!(at(HoverSurface::Tiled(7), 50), Some(7));
    assert_eq!(at(HoverSurface::Nothing, 50), Some(7));
    assert_eq!(at(HoverSurface::Nothing, 500), None);
}

#[test]
fn splits_drop_beside_or_into_others() {
    let (l, a, b) = two();
    let placed = vec![
        Region { rect: r(20, 20, 400, 700), item: a },
        Region { rect: r(440, 20, 400, 700), item: b },
    ];
    let at = |x, y| move_drop_target(&widgets(), &l, &placed, 800, &TH, None, x, y);
    assert!(at(30, 300).is_some());
    assert_eq!(at(5000, 300), None);
}
