use splitwm::geom::Rect;
use splitwm::icons::{
    assign_icon_slot, icon_for, on_icon_result, refresh_icon_rotations, siblings, IconResult,
    IconStep, WinClass,
};
use splitwm::manage::{
    classify, dock_extra, dock_geometry, fixed_size, matches_dock, place_float,
    popup_grab_refused, wanted_width, wants_float, Class, Destroyed, Hints, Pending, WindowRoles,
};
use splitwm::shell::{client_rect_in_frame, DockData, FrameTex, Kind, Managed};
use splitwm::theme::{layout_area, Theme};
use splitwm::xwayland::{
    configure_request, resize_float, x11_holds_focus, ConfigureReply, ConfigureRequest, OrWindows,
};

fn r(x: i32, y: i32, w: i32, h: i32) -> Rect {
    Rect { x, y, w, h }
}

const TH: Theme = Theme {
    gap: 20,
    border_left: 4,
    border_right: 4,
    border_top: 30,
    border_bottom: 6,
    tb_h: 30,
    taskbar_h: 40,
    btn_size: 16,
    scroll_step: 60,
};

const PLAIN: Hints = Hints {
    has_parent: false,
    x11: false,
    transient: false,
    dialog: false,
    min_w: 0,
    min_h: 0,
    max_w: 0,
    max_h: 0,
};

#[test]
fn stale_strips_keep_their_texture() {
    let mut t: FrameTex<u32> = FrameTex::Fresh(7);
    assert!(!t.is_stale());
    t.mark_stale();
    assert!(t.is_stale());
    assert_eq!(t.texture(), Some(&7));
    assert_eq!(t.take(), Some(7));
    assert!(t.is_stale());
    assert_eq!(t.texture(), None);
    assert!(FrameTex::<u32>::uploaded(None).is_stale());
    assert!(!FrameTex::uploaded(Some(1u32)).is_stale());
}

#[test]
fn window_ids_are_never_reused() {
    let mut m = Managed::default();
    let a = m.insert(Kind::Tiled);
    let b = m.insert(Kind::Tiled);
    assert!(m.remove(a).is_some());
    assert!(m.remove(a).is_none());
    let c = m.insert(Kind::Dock(DockData { w: 300 }));
    assert!(c != a && c != b);
    assert!(!m.contains(a));
    assert_eq!(m.tiled(), vec![b]);
    assert_eq!(m.windows(), vec![b, c]);
    assert_eq!(m.dock(), Some((c, DockData { w: 300 })));
}

#[test]
fn client_areas_lie_inside_the_chrome() {
    assert_eq!(client_rect_in_frame(r(10, 20, 200, 100), (0, 0), &TH), r(14, 50, 192, 64));
    assert_eq!(client_rect_in_frame(r(10, 20, 200, 100), (500, 90), &TH), r(14, 50, 500, 90));
    assert_eq!(client_rect_in_frame(r(0, 0, 2, 2), (0, 0), &TH).w, 1);
}

#[test]
fn layout_areas_leave_the_bar_free() {
    assert_eq!(layout_area(r(0, 0, 1280, 800), 800, &TH), r(0, 0, 1280, 760));
    assert_eq!(layout_area(r(0, 10, 1280, 700), 800, &TH), r(0, 10, 1280, 700));
}

#[test]
fn windows_are_classified() {
    assert!(!wants_float(&PLAIN));
    assert!(wants_float(&Hints { has_parent: true, ..PLAIN }));
    let fixed = Hints { min_w: 5, max_w: 5, min_h: 6, max_h: 6, ..PLAIN };
    assert!(fixed_size(&fixed) && wants_float(&fixed));
    assert!(!fixed_size(&Hints { min_w: 5, max_w: 5, ..PLAIN }));
    assert_eq!(classify(true, false, &PLAIN), Class::Dock);
    assert_eq!(classify(true, true, &PLAIN), Class::Tiled);
    assert_eq!(classify(false, false, &fixed), Class::Float);
    assert!(matches_dock("cairo", "", "cairo"));
    assert!(!matches_dock("other", "x", "cairo"));
}

#[test]
fn floats_are_placed_over_their_parent() {
    let wa = r(0, 0, 1000, 700);
    assert_eq!(place_float(None, wa, 200, 100), r(400, 300, 200, 100));
    assert_eq!(place_float(Some(r(0, 0, 100, 100)), wa, 200, 100), r(0, 0, 200, 100));
    assert_eq!(place_float(Some(r(900, 600, 100, 100)), wa, 200, 200), r(800, 500, 200, 200));
    assert_eq!(wanted_width(100, &TH), Some(108));
    assert_eq!(wanted_width(0, &TH), None);
}

#[test]
fn docks_park_at_the_end_of_the_canvas() {
    let d = DockData { w: 300 };
    assert_eq!(dock_geometry(d, 0, 2000, 10, 1500, 800), r(490, 0, 300, 800));
    assert_eq!(dock_extra(Some(d), 10, 7), 290);
    assert_eq!(dock_extra(None, 10, 7), 7);
}

#[test]
fn toplevels_wait_for_their_first_buffer() {
    let mut p = Pending { list: Vec::new() };
    p.new_toplevel(1);
    p.set_fullscreen(1, true);
    assert_eq!(p.commit(1, false), None);
    let w = p.commit(1, true).unwrap();
    assert!(w.fullscreen);
    assert_eq!(p.commit(1, true), None);
    p.new_toplevel(2);
    p.forget(2);
    assert!(p.list.is_empty());
    assert!(popup_grab_refused(true, false, false, false));
    assert!(!popup_grab_refused(true, true, false, false));
}

#[test]
fn floats_take_and_give_back_focus() {
    let (mut m, mut w) = (Managed::default(), WindowRoles::default());
    let t = w.manage_tiled(&mut m, false);
    let a = w.manage_float(&mut m, Some(t), r(0, 0, 10, 10), 3);
    let b = w.manage_float(&mut m, None, r(0, 0, 10, 10), 3);
    assert_eq!(w.float_stack, vec![b, a]);
    assert!(w.focus_float(&m, a));
    assert_eq!(w.float_stack, vec![a, b]);
    assert_eq!(w.focused_float(&m), Some(a));
    assert!(!w.focus_float(&m, t));
    assert!(matches!(w.window_destroyed(&mut m, a), Destroyed::Float(_)));
    assert_eq!(w.float_stack, vec![b]);
    assert_eq!(w.focused_float(&m), None);
    assert!(matches!(w.window_destroyed(&mut m, a), Destroyed::Unknown));
    assert!(matches!(w.window_destroyed(&mut m, t), Destroyed::Tiled));
    let d = w.manage_dock(&mut m, 200);
    assert!(matches!(w.window_destroyed(&mut m, d), Destroyed::Dock));
}

#[test]
fn fullscreen_ends_with_its_window() {
    let (mut m, mut w) = (Managed::default(), WindowRoles::default());
    let t = w.manage_tiled(&mut m, true);
    assert_eq!(w.fullscreen(&m), Some(t));
    w.unfullscreen_request(Some(t + 1));
    assert_eq!(w.fullscreen(&m), Some(t));
    w.unfullscreen_request(Some(t));
    assert_eq!(w.fullscreen(&m), None);
    w.fullscreen_request(t);
    w.unmanage_tiled(&mut m, t);
    assert_eq!(w.fullscreen(&m), None);
}

#[test]
fn moving_a_float_keeps_its_strip_and_resizing_does_not() {
    let (mut m, mut w) = (Managed::default(), WindowRoles::default());
    let f = w.manage_float(&mut m, None, r(0, 0, 10, 10), 3);
    assert_eq!(m.stale_floats(), vec![f]);
    m.move_float(f, 5, 6);
    assert_eq!((m.float(f).unwrap().x, m.float(f).unwrap().y), (5, 6));
    resize_float(&mut m, f, 30, 40);
    assert_eq!((m.float(f).unwrap().w, m.float(f).unwrap().h), (30, 40));
    assert_eq!(m.floats(), vec![f]);
}

#[test]
fn x11_requests_are_granted_to_floats_only() {
    let (mut m, mut w) = (Managed::default(), WindowRoles::default());
    let t = w.manage_tiled(&mut m, false);
    let req = ConfigureRequest { x: Some(1), y: None, w: Some(50), h: None };
    assert!(matches!(
        configure_request(&mut m, Some(t), r(0, 0, 10, 10), req),
        ConfigureReply::Deny
    ));
    match configure_request(&mut m, None, r(3, 4, 10, 10), req) {
        ConfigureReply::Grant(g) => assert_eq!((g.w, g.h), (50, 10)),
        ConfigureReply::Deny => panic!("an unmanaged window places itself"),
    }
}

#[test]
fn override_redirect_windows_stack_newest_on_top() {
    let mut o = OrWindows { list: Vec::new() };
    o.mapped(1, Some(r(0, 0, 10, 10)), r(9, 9, 9, 9), true);
    o.mapped(2, None, r(5, 5, 10, 10), false);
    assert!(o.contains(2));
    assert_eq!(o.or_surface_under(6, 6).unwrap().id, 1);
    assert!(o.surface_associated(2));
    assert_eq!(o.or_surface_under(6, 6).unwrap().id, 2);
    assert!(!o.surface_associated(9));
    o.configure_notify(2, r(50, 50, 10, 10));
    assert_eq!(o.or_surface_under(6, 6).unwrap().id, 1);
    assert!(o.forget(1));
    assert!(!o.forget(1));
    assert_eq!(o.or_surface_under(6, 6), None);
    assert!(x11_holds_focus(Some(3), &vec![1, 3]));
    assert!(!x11_holds_focus(Some(2), &vec![1, 3]));
    assert!(!x11_holds_focus(None, &vec![1, 3]));
}

#[test]
fn siblings_get_distinct_hue_slots() {
    let (mut m, mut w) = (Managed::default(), WindowRoles::default());
    let a = w.manage_tiled(&mut m, false);
    let b = w.manage_tiled(&mut m, false);
    let c = |win, class: &str| WinClass { win, class: class.into() };
    let tiled = vec![c(a, "x"), c(b, "x")];
    assert_eq!(siblings(&tiled, "x"), 2);
    assert_eq!(siblings(&tiled, "y"), 0);
    let first = assign_icon_slot(&m, &tiled, "x", 6).unwrap();
    m.set_icons(a, Some(1), None, Some(first));
    let second = assign_icon_slot(&m, &tiled, "x", 6).unwrap();
    assert_ne!(first, second);
    m.set_icons(b, Some(2), None, Some(second));
    let turns = refresh_icon_rotations(&m, &tiled, "x");
    assert!(turns.len() <= 2);
    assert_eq!(on_icon_result(&mut m, IconResult { win: 999, icon: Some(1) }), IconStep::Nothing);
    assert!(icon_for(&m, &tiled, a, "x").is_some());
    assert_eq!(icon_for(&m, &tiled, 999, "x"), None);
}
