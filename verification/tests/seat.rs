use splitwm::geom::Rect;
use splitwm::input::{Action, Binding, Intercepted, Mods, MOD4};
use splitwm::interaction::{
    AxisPlan, ButtonStep, DragStep, FloatFrame, Interaction, Press, Under, BTN_LEFT, BTN_RIGHT,
};
use splitwm::layout::Layout;
use splitwm::pointer::{ActiveDrag, CursorShape, Hit};
use splitwm::seat::{pointer_moved, process_input_event, SeatEvent, SeatStep, Seen};
use splitwm::theme::Theme;

const TH: Theme = Theme {
    gap: 20,
    border_left: 4,
    border_right: 4,
    border_top: 30,
    border_bottom: 6,
    tb_h: 30,
    taskbar_h: 40,
    btn_size: 16,
    scroll_step: 60,
};

fn seen(mx: i32, my: i32, under: Under, hit: Hit) -> Seen {
    Seen {
        mx,
        my,
        grabbed: false,
        note_here: false,
        under,
        floats: vec![],
        over_float_frame: false,
        animating: false,
        hit,
        over_client: false,
        logo: false,
    }
}

fn press(button: u32, pressed: bool) -> SeatEvent {
    SeatEvent::Button { button, pressed }
}

fn axis(clicks: i32) -> SeatEvent {
    SeatEvent::Axis {
        horizontal: true,
        vertical: false,
        finger: false,
        horizontal_zero: false,
        vertical_zero: false,
        clicks,
    }
}

#[test]
fn chords_go_through_the_seat() {
    let (mut i, l) = (Interaction::new(), Layout::new(vec![1]));
    let bindings = vec![Binding { mask: MOD4, sym: 0x63, action: Action::Close }];
    let mods = Mods { shift: false, ctrl: false, alt: false, logo: true };
    let s = seen(0, 0, Under::Nothing, Hit::Miss);
    let key = |pressed| SeatEvent::Key { raw: 54, pressed, mods, sym: 0x63, modified_sym: 0x63 };
    match process_input_event(&mut i, &l, &bindings, &TH, &s, key(true)) {
        SeatStep::Key(o) => {
            assert!(!o.forward);
            assert_eq!(o.fire, Some(Intercepted::Action(Action::Close)));
        }
        other => panic!("{other:?}"),
    }
    match process_input_event(&mut i, &l, &bindings, &TH, &s, key(false)) {
        SeatStep::Key(o) => assert!(!o.forward && o.fire.is_none()),
        other => panic!("{other:?}"),
    }
}

#[test]
fn motion_over_a_surface_is_delivered() {
    let (mut i, l) = (Interaction::new(), Layout::new(vec![1]));
    let m = pointer_moved(&mut i, &l, &seen(10, 10, Under::Tiled(1), Hit::Miss));
    assert!(m.deliver);
    assert_eq!((m.drag, m.cursor), (DragStep::Free, None));
    let leaf = l.first_leaf();
    let m = pointer_moved(&mut i, &l, &seen(10, 10, Under::Nothing, Hit::Title(leaf)));
    assert!(!m.deliver);
    assert_eq!(m.cursor, Some(CursorShape::Pointer));
    let m = pointer_moved(&mut i, &l, &seen(10, 10, Under::Nothing, Hit::Edge(true)));
    assert_eq!(m.cursor, Some(CursorShape::EwResize));
}

#[test]
fn chrome_keeps_both_halves_of_a_click() {
    let (mut i, l) = (Interaction::new(), Layout::new(vec![1]));
    let leaf = l.first_leaf();
    let on_title = seen(10, 10, Under::Nothing, Hit::Title(leaf));
    match process_input_event(&mut i, &l, &vec![], &TH, &on_title, press(BTN_LEFT, true)) {
        SeatStep::Button(o) => {
            assert!(!o.forward);
            match o.step {
                ButtonStep::Chrome(p) => assert_eq!(p.press, Press::Focus(leaf)),
                other => panic!("{other:?}"),
            }
        }
        other => panic!("{other:?}"),
    }
    assert_eq!(i.chrome_presses, vec![BTN_LEFT]);
    let on_client = seen(300, 300, Under::Tiled(1), Hit::Miss);
    match process_input_event(&mut i, &l, &vec![], &TH, &on_client, press(BTN_LEFT, false)) {
        SeatStep::Button(o) => assert!(!o.forward),
        other => panic!("{other:?}"),
    }
    assert!(i.chrome_presses.is_empty());
    match process_input_event(&mut i, &l, &vec![], &TH, &on_client, press(BTN_LEFT, true)) {
        SeatStep::Button(o) => {
            assert!(o.forward);
            assert_eq!(o.step, ButtonStep::FocusTiled(1));
        }
        other => panic!("{other:?}"),
    }
    match process_input_event(&mut i, &l, &vec![], &TH, &on_title, press(BTN_LEFT, false)) {
        SeatStep::Button(o) => assert!(o.forward),
        other => panic!("{other:?}"),
    }
}

#[test]
fn two_buttons_keep_their_clicks_apart() {
    let (mut i, l) = (Interaction::new(), Layout::new(vec![1]));
    let on_title = seen(10, 10, Under::Nothing, Hit::Title(l.first_leaf()));
    let on_client = seen(300, 300, Under::Tiled(1), Hit::Miss);
    let mut forwarded = |s: &Seen, button: u32, pressed: bool| {
        match process_input_event(&mut i, &l, &vec![], &TH, s, press(button, pressed)) {
            SeatStep::Button(o) => o.forward,
            other => panic!("{other:?}"),
        }
    };
    // The chrome takes the left press, a client the right one.
    assert!(!forwarded(&on_title, BTN_LEFT, true));
    assert!(forwarded(&on_client, BTN_RIGHT, true));
    assert!(!forwarded(&on_client, BTN_LEFT, false));
    assert!(forwarded(&on_title, BTN_RIGHT, false));
    // And the other way round.
    assert!(forwarded(&on_client, BTN_LEFT, true));
    assert!(!forwarded(&on_title, BTN_RIGHT, true));
    assert!(forwarded(&on_title, BTN_LEFT, false));
    assert!(!forwarded(&on_client, BTN_RIGHT, false));
}

#[test]
fn floats_are_dragged_through_the_seat() {
    let (mut i, l) = (Interaction::new(), Layout::new(vec![1]));
    let mut s = seen(110, 105, Under::Nothing, Hit::Miss);
    s.floats = vec![FloatFrame {
        win: 4,
        frame: Rect { x: 100, y: 100, w: 50, h: 80 },
        client: Rect { x: 104, y: 130, w: 42, h: 44 },
    }];
    s.over_float_frame = true;
    process_input_event(&mut i, &l, &vec![], &TH, &s, press(BTN_RIGHT, true));
    assert_eq!(i.drag, None);
    process_input_event(&mut i, &l, &vec![], &TH, &s, press(BTN_RIGHT, false));
    process_input_event(&mut i, &l, &vec![], &TH, &s, press(BTN_LEFT, true));
    assert!(matches!(i.drag, Some(ActiveDrag::Float(_))));
    s.mx = 120;
    match process_input_event(&mut i, &l, &vec![], &TH, &s, SeatEvent::Motion) {
        SeatStep::Moved(m) => {
            assert_eq!(m.drag, DragStep::MoveFloat(4, 114, 130));
            assert_eq!(m.cursor, Some(CursorShape::Pointer));
        }
        other => panic!("{other:?}"),
    }
}

#[test]
fn scrolling_pans_off_the_clients() {
    let (mut i, l) = (Interaction::new(), Layout::new(vec![1]));
    let mut s = seen(0, 0, Under::Nothing, Hit::Miss);
    match process_input_event(&mut i, &l, &vec![], &TH, &s, axis(0x8000)) {
        SeatStep::Axis(plan, px) => {
            assert_eq!(
                plan,
                AxisPlan {
                    pan: true,
                    horizontal: false,
                    vertical: false,
                    stop_horizontal: false,
                    stop_vertical: false,
                }
            );
            assert_eq!(px, 30);
        }
        other => panic!("{other:?}"),
    }
    s.over_client = true;
    match process_input_event(&mut i, &l, &vec![], &TH, &s, axis(0x8000)) {
        SeatStep::Axis(plan, px) => {
            assert!(!plan.pan && plan.horizontal);
            assert_eq!(px, 0);
        }
        other => panic!("{other:?}"),
    }
}

#[test]
fn slow_swipes_through_the_seat_lose_nothing() {
    let (mut i, l) = (Interaction::new(), Layout::new(vec![1]));
    let s = seen(0, 0, Under::Nothing, Hit::Miss);
    let swipe = SeatEvent::SwipeUpdate { clicks: 1000 };
    assert_eq!(process_input_event(&mut i, &l, &vec![], &TH, &s, swipe), SeatStep::Nothing);
    let begin = SeatEvent::SwipeBegin { fingers: 3 };
    assert_eq!(process_input_event(&mut i, &l, &vec![], &TH, &s, begin), SeatStep::Nothing);
    let mut total = 0;
    for _ in 0..100 {
        match process_input_event(&mut i, &l, &vec![], &TH, &s, swipe) {
            SeatStep::Pan(px) => total += px,
            other => panic!("{other:?}"),
        }
    }
    // 100 * 1000 * 60 / 65536
    assert_eq!(total, 91);
    assert_eq!(i64::from(total) * 0x1_0000 + i.hscroll_frac, 6_000_000);
    let end = SeatEvent::SwipeEnd;
    assert_eq!(process_input_event(&mut i, &l, &vec![], &TH, &s, end), SeatStep::Nothing);
    assert!(!i.swipe_pan);
    let other = SeatEvent::Other;
    assert_eq!(process_input_event(&mut i, &l, &vec![], &TH, &s, other), SeatStep::Nothing);
}
