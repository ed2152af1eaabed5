use splitwm::arrange::{
    apply_placements, arm_animation, bar_order, finish_animation, focus_outline, lerp_rect,
    popup_root_loc, popup_target, refocus, settled_rects, settled_tiled_places, tick_layout, tiled_places,
    tiled_under, ClientSize, KeyTarget, LayoutAnim, Placement, Tick, TiledPlace,
};
use splitwm::chrome::{BtnIcon, TitleInfo};
use splitwm::compose::{compose_chrome, ChromeOp, QuickSpot, SplitLook};
use splitwm::frame::{redraw, Around, Buffer};
use splitwm::geom::Rect;
use splitwm::layers::{
    dock_layer, dock_zone, exclusive_layer_surface, layer_commit, layer_dock_extra,
    layer_dock_place, pointer_candidates, sync_layer_zone, Canvas, ExclusiveZone, LayerInfo,
};
use splitwm::layout::{ColWidth, Dir, Layout, NodeId};
use splitwm::manage::WindowRoles;
use splitwm::pieces::{
    frame_dst, in_strip, leaf_buttons, leaf_elements, leaf_paint, plus_elements, render_taskbar,
    taskbar_paint, taskbar_strip, ArtSizes, BarOp, BtnPaint, ChromePaint, ChromePieces, FrameMode,
    LeafMeta, LeafPaint, LeafPieces, LeafStep, QuickLook, TaskbarPaint, TileLook, Upload,
};
use splitwm::pointer::{BtnKind, QuickTile, Region, TaskTile};
use splitwm::scene::{
    output_elements, stretch, surface_under, Element, LayerSurface, Plane, PlaneHits, Scene,
    SceneLeaf, TiledView,
};
use splitwm::shell::Managed;
use splitwm::theme::Theme;

fn r(x: i32, y: i32, w: i32, h: i32) -> Rect {
    Rect { x, y, w, h }
}

const TH: Theme = Theme {
    gap: 20,
    border_left: 4,
    border_right: 4,
    border_top: 30,
    border_bottom: 6,
    tb_h: 30,
    taskbar_h: 40,
    btn_size: 16,
    scroll_step: 60,
};

/// Two splits, each with a window.
fn two() -> (Layout, Managed, WindowRoles, [NodeId; 2], [u32; 2]) {
    let (mut m, mut w) = (Managed::default(), WindowRoles::default());
    let mut l = Layout::new(vec![1, 2, 3]);
    let a = l.first_leaf();
    let b = l.insert_column(1, ColWidth::Px(400));
    let (x, y) = (w.manage_tiled(&mut m, false), w.manage_tiled(&mut m, false));
    l.leaf_mut(a).unwrap().show(x);
    l.leaf_mut(b).unwrap().show(y);
    (l, m, w, [a, b], [x, y])
}

fn place(leaf: NodeId, target: Rect, win: u32, focused: bool) -> Placement {
    Placement { leaf, target, active_client: Some(win), focused }
}

#[test]
fn every_window_is_shown_or_hidden() {
    let (mut l, _, _, [a, b], [x, y]) = two();
    l.leaf_mut(b).unwrap().minimized = true;
    let placed = vec![
        place(a, r(0, 0, 200, 100), x, true),
        place(b, r(220, 0, 20, 100), y, false),
    ];
    let sizes = vec![ClientSize { win: x, w: 10, h: 10 }, ClientSize { win: y, w: 10, h: 10 }];
    let out = apply_placements(&l, &placed, &sizes, &vec![x, y], None, false, 800, 600, &TH);
    assert_eq!(out.shown.len(), 1);
    assert_eq!(out.shown[0].win, x);
    assert_eq!(out.shown[0].rect, r(4, 30, 192, 64));
    assert_eq!(out.hidden, vec![y]);
}

#[test]
fn shrinking_windows_wait_for_the_transition() {
    let (l, _, _, [a, b], [x, y]) = two();
    let placed = vec![
        place(a, r(0, 0, 200, 100), x, true),
        place(b, r(220, 0, 200, 100), y, false),
    ];
    let sizes = vec![
        ClientSize { win: x, w: 500, h: 64 },
        ClientSize { win: y, w: 100, h: 10 },
    ];
    let out = apply_placements(&l, &placed, &sizes, &vec![x, y], None, true, 800, 600, &TH);
    assert!(out.shown[0].deferred);
    assert!(!out.shown[1].deferred);
    let out = apply_placements(&l, &placed, &sizes, &vec![x, y], None, false, 800, 600, &TH);
    assert!(!out.shown[0].deferred);
}

#[test]
fn transitions_meet_their_ends() {
    let (s, e) = (r(0, 0, 100, 100), r(50, 10, 200, 1));
    assert_eq!(lerp_rect(s, e, &|_| 0), s);
    assert_eq!(lerp_rect(s, e, &|way| way), e);
    assert_eq!(lerp_rect(s, e, &|way| way / 2), r(25, 5, 150, 51));
    // A tenth past the target, and never empty.
    let past = |way: i32| (way as f32 * 1.1) as i32;
    assert_eq!(lerp_rect(s, e, &past), r(55, 11, 210, 1));
}

#[test]
fn transitions_end_with_the_configures_they_held_back() {
    let (l, m, _, [a, _], [x, _]) = two();
    let placed = vec![place(a, r(100, 0, 200, 100), x, true)];
    let prev = vec![Region { rect: r(0, 0, 200, 100), item: a }];
    let held = vec![(x, r(104, 30, 192, 64))];
    assert!(arm_animation(&l, false, &placed, &prev, held.clone(), 0).is_none());
    let mut anim = arm_animation(&l, true, &placed, &prev, held.clone(), 0);
    assert!(anim.is_some());
    let t = tick_layout(&m, &mut anim, &placed, 100, |way| way / 2);
    assert_eq!(t.rects[0].rect, r(50, 0, 200, 100));
    assert!(t.configures.is_empty());
    let t = tick_layout(&m, &mut anim, &placed, 280, |way| way);
    assert_eq!(t.rects[0].rect, r(100, 0, 200, 100));
    assert_eq!(t.configures, held);
    assert!(anim.is_none());
    let anim = LayoutAnim { start: 0, placed: vec![], deferred: vec![(999, r(0, 0, 1, 1))] };
    assert!(finish_animation(&m, anim).is_empty());
    assert_eq!(settled_rects(&placed).1, Some(r(100, 0, 200, 100)));
}

#[test]
fn the_bar_follows_the_strip() {
    let (mut l, _, _, [a, b], [x, y]) = two();
    assert_eq!(bar_order(&l), vec![(x, a), (y, b)]);
    l.move_beside_column(b, a, true, ColWidth::Px(1));
    assert_eq!(bar_order(&l), vec![(y, b), (x, a)]);
}

#[test]
fn windows_are_found_where_they_are_shown() {
    let (l, m, _, [a, b], [x, y]) = two();
    let rects = vec![
        Region { rect: r(0, 0, 200, 100), item: a },
        Region { rect: r(220, 0, 200, 100), item: b },
    ];
    let places = tiled_places(&l, &m, None, &rects, 800, 600, &TH);
    assert_eq!(places.len(), 2);
    assert_eq!(places[0], TiledPlace { win: x, rect: r(4, 30, 192, 64) });
    assert_eq!(tiled_under(&places, 230, 50), Some(y));
    assert_eq!(tiled_under(&places, 230, 10), None);
    let full = tiled_places(&l, &m, Some(y), &rects, 800, 600, &TH);
    assert!(full.iter().any(|p| p.win == y && p.rect == r(0, 0, 800, 600)));
    assert_eq!(popup_root_loc(&m, &places, r(0, 0, 1, 1), Some(x), None, None), Some((4, 30)));
    assert_eq!(popup_root_loc(&m, &places, r(0, 0, 1, 1), None, None, Some((7, 8))), Some((7, 8)));
}

#[test]
fn popups_are_kept_on_the_output() {
    assert_eq!(popup_target(800, 600, (100, 40), (7, -3)), r(-107, -37, 800, 600));
    assert_eq!(popup_target(800, 600, (0, 0), (0, 0)), r(0, 0, 800, 600));
    let far = popup_target(1, 1, (i32::MAX, i32::MIN), (i32::MAX, i32::MIN));
    assert_eq!((far.x, far.y), (-i32::MAX, i32::MAX));
}

#[test]
fn the_keyboard_goes_to_the_topmost_claim() {
    let (_, m, _, _, [x, y]) = two();
    assert_eq!(refocus(&m, true, Some(x), Some(y)).1, KeyTarget::Layer);
    assert_eq!(refocus(&m, false, Some(x), Some(y)).1, KeyTarget::Window(x));
    assert_eq!(refocus(&m, false, None, Some(y)).1, KeyTarget::Window(y));
    assert_eq!(refocus(&m, false, None, None).1, KeyTarget::Nothing);
    assert_eq!(
        focus_outline(Some(r(0, 0, 10, 10))),
        vec![r(0, 0, 10, 2), r(0, 8, 10, 2), r(0, 2, 2, 6), r(8, 2, 2, 6)]
    );
    assert!(focus_outline(None).is_empty());
}

fn empty_scene() -> Scene {
    Scene {
        overlay: vec![],
        or_windows: vec![],
        note_rects: vec![],
        notes: vec![],
        top: vec![],
        frame_art: true,
        tiled: vec![],
        dock: None,
        bottom: vec![],
        layer_dock: None,
        outline: vec![],
        taskbar: false,
        plus: 0,
        leaves: vec![],
        wallpaper: true,
        background: vec![],
    }
}

#[test]
fn scenes_are_drawn_front_to_back() {
    let (_, m, w, _, [x, _]) = two();
    let mut sc = empty_scene();
    sc.overlay.push(LayerSurface { id: 1, loc: Some((0, 0)) });
    sc.top.push(LayerSurface { id: 2, loc: None });
    sc.taskbar = true;
    sc.leaves.push(SceneLeaf { rect: r(0, 0, 100, 100), titlebar: true });
    sc.tiled.push(TiledView {
        place: TiledPlace { win: x, rect: r(4, 30, 92, 64) },
        has_surface: true,
        geo_w: 92,
        geo_h: 64,
    });
    let out = output_elements(&sc, &w, &m, &TH);
    assert!(matches!(out[0], Element::Layer(_, 1, (0, 0))));
    assert!(matches!(out.last(), Some(Element::Wallpaper)));
    let at = |f: &dyn Fn(&Element) -> bool| out.iter().position(|e| f(e)).unwrap();
    let tiled = at(&|e| matches!(e, Element::Tiled(..)));
    let strip = at(&|e| matches!(e, Element::Titlebar(_)));
    let frame = at(&|e| matches!(e, Element::Frame(..)));
    assert!(tiled < strip && strip < frame);
    assert!(!out.iter().any(|e| matches!(e, Element::Layer(_, 2, _))));
    let s = stretch(200, 100);
    assert_eq!((s.num * 100) / s.den, 200);
}

#[test]
fn input_goes_to_the_topmost_plane() {
    let none = PlaneHits {
        overlay: false,
        override_redirect: false,
        top: false,
        float: false,
        tiled: false,
        dock: false,
        bottom: false,
    };
    assert_eq!(surface_under(&none), None);
    let hits = PlaneHits { tiled: true, float: true, bottom: true, ..none };
    assert_eq!(surface_under(&hits), Some(Plane::Float));
    assert_eq!(surface_under(&PlaneHits { overlay: true, ..hits }), Some(Plane::Overlay));
}

fn layer(id: u32, namespace: &str, zone: ExclusiveZone) -> LayerInfo {
    LayerInfo {
        id,
        namespace: namespace.into(),
        anchor_top: true,
        anchor_bottom: true,
        anchor_left: false,
        anchor_right: true,
        zone,
        margin_right: 0,
        exclusive_keyboard: false,
        geo: Some(r(0, 5, 310, 700)),
    }
}

#[test]
fn the_dock_panel_is_revealable() {
    let bottom = vec![
        layer(1, "bar", ExclusiveZone::Neutral),
        layer(2, "dock", ExclusiveZone::Exclusive(300)),
    ];
    let at = dock_layer(&bottom, "dock");
    assert_eq!(at, 1);
    assert_eq!(dock_zone(&bottom[at]), 300);
    assert_eq!(layer_dock_extra(&bottom, "dock"), 300);
    assert_eq!(layer_dock_extra(&bottom, "none"), 0);
    let c = Canvas { x: 0, w: 2000, scroll_x: 1500 };
    assert_eq!(layer_dock_place(&bottom, "dock", c), Some((2, (490, 5))));
    let mut cached = r(0, 0, 10, 10);
    assert!(sync_layer_zone(&mut cached, r(0, 0, 1000, 800), &bottom, "dock"));
    assert!(!sync_layer_zone(&mut cached, r(0, 0, 1000, 800), &bottom, "dock"));
    assert_eq!(pointer_candidates(&bottom, Some((2, (490, 5)))).len(), 2);
}

#[test]
fn exclusive_panels_take_the_keyboard() {
    let mut top = vec![layer(1, "a", ExclusiveZone::DontCare), layer(2, "b", ExclusiveZone::DontCare)];
    assert_eq!(exclusive_layer_surface(&vec![], &top), None);
    top[0].exclusive_keyboard = true;
    top[1].exclusive_keyboard = true;
    assert_eq!(exclusive_layer_surface(&vec![], &top), Some(2));
    let mut over = vec![layer(3, "c", ExclusiveZone::DontCare)];
    over[0].exclusive_keyboard = true;
    assert_eq!(exclusive_layer_surface(&over, &top), Some(3));
    let c = layer_commit(true, 0, 0, true, false, false);
    assert!(c.arrange && !c.configure);
    assert!(layer_commit(false, 0, 0, false, false, false).configure);
    assert!(!layer_commit(false, 0, 0, true, false, false).arrange);
}

#[test]
fn minimized_frames_are_centred_strips() {
    let rect = r(10, 20, 30, 100);
    assert_eq!(frame_dst(rect, FrameMode::Border, (9, 9)), rect);
    assert_eq!(frame_dst(rect, FrameMode::MinV, (20, 60)), r(15, 20, 20, 100));
    assert_eq!(frame_dst(rect, FrameMode::MinV, (50, 60)), rect);
    assert_eq!(frame_dst(r(0, 0, 100, 31), FrameMode::MinH, (60, 20)), r(0, 5, 100, 20));
}

#[test]
fn titlebar_buttons_preview_what_they_do() {
    let regions = vec![(BtnKind::Minimize, r(160, 27, 16, 16)), (BtnKind::Close, r(180, 27, 16, 16))];
    let meta = LeafMeta { stacked: true, sole: true, occupied: false, split_dir: None };
    let out = leaf_buttons(&regions, r(100, 20, 100, 80), meta, false, 3);
    assert_eq!(
        out[0],
        BtnPaint { cx: 68, cy: 15, icon: BtnIcon::MinimizeH, disabled: true, accent: 3 }
    );
    assert_eq!(out[1].icon, BtnIcon::Close);
    assert!(out[1].disabled);
    let open =
        LeafMeta { stacked: false, sole: false, occupied: true, split_dir: Some(Dir::H) };
    let out = leaf_buttons(&regions, r(100, 20, 100, 80), open, false, 3);
    assert_eq!((out[0].icon, out[0].disabled), (BtnIcon::Minimize, false));
    // An occupied sole split can be closed here, an empty one cannot.
    let lone = LeafMeta { stacked: false, sole: true, occupied: true, split_dir: None };
    let out = leaf_buttons(&regions, r(100, 20, 100, 80), lone, false, 3);
    assert!(out[0].disabled && !out[1].disabled);
    // The split button previews the divider it draws.
    let split = vec![(BtnKind::Split, r(160, 27, 16, 16))];
    for (dir, icon, disabled) in [
        (Some(Dir::H), BtnIcon::VSplit, false),
        (Some(Dir::V), BtnIcon::HSplit, false),
        (None, BtnIcon::HSplit, true),
    ] {
        let meta = LeafMeta { split_dir: dir, ..open };
        let out = leaf_buttons(&split, r(100, 20, 100, 80), meta, false, 3);
        assert_eq!((out[0].icon, out[0].disabled), (icon, disabled));
    }
    assert!(leaf_buttons(&regions, r(100, 20, 100, 80), open, true, 3).is_empty());
}

fn paint(title: &str, accent: u8) -> LeafPaint {
    let info = TitleInfo { label: 'T', icon: Some(4), title: title.into() };
    leaf_paint(r(0, 0, 200, 100), false, accent, Some(info), vec![])
}

#[test]
fn pieces_are_drawn_again_only_when_they_change() {
    let mut p = LeafPieces::new();
    let id = NodeId(1);
    let step = |recommit, redraw| LeafStep { recommit, redraw };
    assert_eq!(p.update_leaf(id, &paint("a", 3)), step(false, true));
    assert_eq!(p.update_leaf(id, &paint("a", 3)), step(false, false));
    assert_eq!(p.update_leaf(id, &paint("b", 3)), step(false, true));
    assert_eq!(p.update_leaf(id, &paint("b", 4)), step(true, true));
    let min = leaf_paint(r(0, 0, 20, 100), true, 4, None, vec![]);
    assert_eq!(min.mode(), FrameMode::MinV);
    assert_eq!(p.update_leaf(id, &min), step(true, false));
    p.retain(&vec![NodeId(2)]);
    assert!(p.list.is_empty());
    assert_eq!(paint("a", 3).view(30, 4).bw, 4);
}

fn bar() -> TaskbarPaint {
    let tiles = vec![TaskTile { rect: r(10, 765, 30, 30), close: r(30, 785, 10, 10), win: 1, leaf: NodeId(0) }];
    let looks = vec![TileLook { icon: None, label: None, accent: 2 }];
    let quick_tiles = vec![
        QuickTile { slot: 0, icon: r(100, 765, 30, 30), hover: r(0, 0, 0, 0), compass: r(0, 0, 0, 0) },
        QuickTile { slot: 7, icon: r(140, 765, 30, 30), hover: r(0, 0, 0, 0), compass: r(0, 0, 0, 0) },
    ];
    let quick = vec![QuickLook { icon: Some(3), label: 'F', grown: 0, spread: 0, hover: None }];
    let strip = taskbar_strip(1280, 800, 40);
    taskbar_paint(strip, &tiles, &looks, Some(r(90, 770, 4, 20)), &quick_tiles, &quick)
}

#[test]
fn the_bar_is_drawn_in_its_strip() {
    let p = bar();
    assert_eq!((p.w, p.h, p.origin), (1280, 40, (0, 760)));
    assert_eq!(p.tiles[0].label, '?');
    assert_eq!(p.quick.len(), 1);
    assert_eq!(
        render_taskbar(&p),
        vec![
            BarOp::Tile(0, r(10, 5, 30, 30)),
            BarOp::Badge(30, 25, 10),
            BarOp::Separator(r(90, 10, 4, 20)),
            BarOp::Quick(0, r(100, 5, 30, 30)),
        ]
    );
    assert_eq!(in_strip(r(1, 765, 2, 3), 760), r(1, 5, 2, 3));
    assert_eq!(taskbar_strip(100, 20, 40).y, 0);
}

fn frame(title: &str, plus: Vec<i32>) -> ChromePaint {
    ChromePaint {
        size: (1280, 800),
        leaves: vec![(NodeId(1), paint(title, 3))],
        plus,
        taskbar: bar(),
    }
}

#[test]
fn steady_frames_draw_nothing_again() {
    let mut p = ChromePieces::new();
    let (up, again) = p.update_chrome_pieces(frame("a", vec![20, 20]));
    assert_eq!(
        up,
        vec![
            Upload::Art,
            Upload::Wallpaper,
            Upload::Strip(NodeId(1)),
            Upload::Plus(20),
            Upload::Taskbar,
        ]
    );
    assert!(again.is_empty());
    let (up, again) = p.update_chrome_pieces(frame("a", vec![20]));
    assert!(up.is_empty() && again.is_empty());
    let (up, _) = p.update_chrome_pieces(frame("b", vec![20]));
    assert_eq!(up, vec![Upload::Strip(NodeId(1))]);
    p.invalidate_chrome();
    assert_eq!(p.update_chrome_pieces(frame("b", vec![])).0.len(), 4);
}

#[test]
fn frames_follow_their_rects() {
    let mut p = LeafPieces::new();
    p.update_leaf(NodeId(1), &paint("a", 3));
    let rects = vec![
        Region { rect: r(5, 6, 200, 100), item: NodeId(1) },
        Region { rect: r(0, 0, 9, 9), item: NodeId(2) },
    ];
    let art = ArtSizes { border: (250, 100), min_v: (20, 60), min_h: (60, 20) };
    let out = leaf_elements(&p, &rects, &art);
    assert_eq!(out.len(), 1);
    assert_eq!((out[0].dst, out[0].titlebar), (r(5, 6, 200, 100), Some((5, 6))));
    let regions = vec![r(1, 2, 20, 20), r(3, 4, 30, 30)];
    assert_eq!(plus_elements(&vec![20], &regions, false), vec![(1, 2, 20)]);
    assert!(plus_elements(&vec![20], &regions, true).is_empty());
}

fn nothing_around() -> Around {
    Around {
        overlay: vec![],
        or_windows: vec![],
        note_rects: vec![],
        notes: vec![],
        top: vec![],
        dock: None,
        bottom: vec![],
        layer_dock: None,
        background: vec![],
        plus_regions: vec![],
    }
}

#[test]
fn frames_are_planned_from_the_layout() {
    let (l, m, roles, [a, b], [x, y]) = two();
    let placed = vec![
        place(a, r(0, 0, 200, 100), x, true),
        place(b, r(220, 0, 200, 100), y, false),
    ];
    let (rects, focus) = settled_rects(&placed);
    let tick = Tick { rects, focus, configures: vec![] };
    let art = ArtSizes { border: (250, 100), min_v: (20, 60), min_h: (60, 20) };
    // A window without a buffer yet is left out.
    let buffers = vec![Buffer { win: x, w: 192, h: 64 }];
    let mut around = nothing_around();
    around.plus_regions = vec![r(205, 40, 20, 20)];
    let mut pieces = ChromePieces::new();
    pieces.plus = vec![20];
    let plan = redraw(&l, &m, &roles, &tick, &pieces, &art, false, &buffers, 800, 600, &TH, around);
    assert!(plan.repaint.is_empty());
    assert!(plan.frames.is_empty());
    assert_eq!(plan.pluses, vec![(205, 40, 20)]);
    let wins: Vec<u32> = plan
        .elements
        .iter()
        .filter_map(|e| match e {
            Element::Tiled(win, _, _, _) => Some(*win),
            _ => None,
        })
        .collect();
    assert_eq!(wins, vec![x]);
    assert_eq!(plan.elements.iter().filter(|e| matches!(e, Element::Outline(_))).count(), 4);
    let sliding =
        redraw(&l, &m, &roles, &tick, &pieces, &art, true, &buffers, 800, 600, &TH, nothing_around());
    assert!(sliding.pluses.is_empty());
}

#[test]
fn input_sees_the_settled_places() {
    let (l, m, _, [a, b], [x, y]) = two();
    let placed = vec![
        place(a, r(0, 0, 200, 100), x, true),
        place(b, r(220, 0, 200, 100), y, false),
    ];
    let places = settled_tiled_places(&l, &m, None, &placed, 800, 600, &TH);
    let rects = vec![
        Region { rect: r(0, 0, 200, 100), item: a },
        Region { rect: r(220, 0, 200, 100), item: b },
    ];
    assert_eq!(places, tiled_places(&l, &m, None, &rects, 800, 600, &TH));
    assert_eq!(places[1], TiledPlace { win: y, rect: r(224, 30, 192, 64) });
}

#[test]
fn chrome_is_painted_back_to_front() {
    let (mut l, _, _, [a, b], [x, y]) = two();
    l.leaf_mut(b).unwrap().minimized = true;
    let placed = vec![
        place(a, r(0, 0, 200, 100), x, true),
        place(b, r(220, 0, 20, 100), y, false),
    ];
    let plus = vec![r(205, 40, 20, 20)];
    let buttons = vec![
        Region { rect: r(180, 7, 16, 16), item: (a, BtnKind::Close) },
        Region { rect: r(222, 7, 16, 16), item: (b, BtnKind::Close) },
    ];
    let tiles = vec![TaskTile { rect: r(20, 562, 36, 36), close: r(44, 562, 12, 12), win: x, leaf: a }];
    let quick =
        vec![QuickSpot { rect: r(700, 562, 36, 36), slot: 0 }, QuickSpot { rect: r(740, 562, 36, 36), slot: 5 }];
    let looks = vec![SplitLook { wider: true, can_split: true }; 2];
    let sep = Some(r(690, 562, 2, 36));
    let ops = compose_chrome(&l, &placed, &looks, &plus, &buttons, &tiles, sep, &quick, 1);
    assert_eq!(ops.len(), 9);
    assert_eq!(ops[0], ChromeOp::Leaf(0, r(0, 0, 200, 100)));
    assert_eq!(ops[1], ChromeOp::Outline(r(0, 0, 200, 100)));
    assert_eq!(ops[2], ChromeOp::Leaf(1, r(220, 0, 20, 100)));
    assert_eq!(ops[3], ChromeOp::Plus(215, 50, 20));
    assert!(matches!(ops[4], ChromeOp::Button(b) if b.icon == BtnIcon::Close && !b.disabled));
    assert_eq!(ops[5], ChromeOp::Tile(0, r(20, 562, 36, 36)));
    assert_eq!(ops[6], ChromeOp::Badge(44, 562, 12));
    assert_eq!(ops[7], ChromeOp::Separator(r(690, 562, 2, 36)));
    assert_eq!(ops[8], ChromeOp::Quick(0, r(700, 562, 36, 36)));
}

#[test]
fn a_sole_splits_buttons_are_greyed() {
    let mut l = Layout::new(vec![1]);
    let a = l.first_leaf();
    l.leaf_mut(a).unwrap().show(7);
    let placed = vec![place(a, r(0, 0, 200, 100), 7, false)];
    let at = |kind| Region { rect: r(180, 7, 16, 16), item: (a, kind) };
    let buttons = vec![at(BtnKind::Minimize), at(BtnKind::Split), at(BtnKind::Close)];
    let painted = |wider, can_split| -> Vec<(BtnIcon, bool)> {
        let looks = vec![SplitLook { wider, can_split }];
        compose_chrome(&l, &placed, &looks, &vec![], &buttons, &vec![], None, &vec![], 0)
            .into_iter()
            .filter_map(|op| match op {
                ChromeOp::Button(b) => Some((b.icon, b.disabled)),
                _ => None,
            })
            .collect()
    };
    assert_eq!(
        painted(true, false),
        vec![(BtnIcon::Minimize, true), (BtnIcon::VSplit, true), (BtnIcon::Close, true)]
    );
    assert_eq!(painted(false, true)[1], (BtnIcon::HSplit, false));
}
