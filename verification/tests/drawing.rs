use splitwm::bubble::{
    draw_note, estimated_width, mirrored, note_lines, note_runs, note_size, paragraphs, NoteLines,
    Run,
};
use splitwm::cache::IconKey;
use splitwm::chrome::{
    draw_button, draw_glyph, draw_leaf, draw_title, draw_titlebar, draw_titlebar_strip,
    float_strip, BtnIcon, LeafArt, LeafView, TitleInfo, TitleStyle, TitleText,
};
use splitwm::draw::{
    accent_swap, clip, draw_focus_outline, draw_minimized_axis, fill_paint, minimized_art,
    take_screen_base, tile_swapped, Colors, Fill, NineSlice, Paint, Part, SliceSpec, Tile,
    TRANSPARENT,
};
use splitwm::geom::Rect;
use splitwm::icon_cache::{cached_icon_indices, draw_icon, IconCache, ICON_CACHE_CAP};
use splitwm::image::{Icon, IconIds, Rgb};
use splitwm::indexed::{palette_rgba, upload_into, IndexedTexture, UploadStep};
use splitwm::manage::WindowRoles;
use splitwm::pointer::Side;
use splitwm::shell::Managed;
use splitwm::taskbar::{
    border_stamp, draw_close_badge, draw_plus, draw_quick_item, draw_rounded_box, draw_taskbar_sep,
    draw_taskbar_tile, for_each_glyph_pixel, for_each_icon_pixel, for_each_slot_pixel, quick_trace,
    walk_indices, Dot, Shards, Silhouette, SlotIcon, Trace, QUICK_ICON_REACH,
};
use splitwm::theme::Theme;

fn r(x: i32, y: i32, w: i32, h: i32) -> Rect {
    Rect { x, y, w, h }
}

const C: Colors =
    Colors { black: 15, gunmetal: 14, cream: 5, lavender: 0, purple: 1, lime: 6, crimson: 9 };

fn solid(rect: Rect, i: u8) -> Fill {
    Fill { rect, paint: Paint::Solid(i) }
}

#[test]
fn fills_are_clipped_to_the_buffer() {
    assert_eq!(clip(10, 10, -2, 3, 5, 20), Some(r(0, 3, 3, 7)));
    assert_eq!(clip(10, 10, 10, 0, 5, 5), None);
    assert_eq!(clip(10, 10, 0, 0, 0, 5), None);
    let mut out = Vec::new();
    fill_paint(&mut out, (10, 10), 8, 8, 5, 5, Paint::Checker(1, 2));
    fill_paint(&mut out, (10, 10), -8, 8, 5, 5, Paint::Solid(1));
    assert_eq!(out, vec![Fill { rect: r(8, 8, 2, 2), paint: Paint::Checker(1, 2) }]);
}

#[test]
fn the_focus_outline_is_two_pixels_thick() {
    assert_eq!(
        draw_focus_outline((100, 100), 10, 20, 30, 40, 5),
        vec![
            solid(r(10, 20, 30, 2), 5),
            solid(r(10, 58, 30, 2), 5),
            solid(r(10, 22, 2, 36), 5),
            solid(r(38, 22, 2, 36), 5),
        ]
    );
}

#[test]
fn parts_repeat_from_the_first_visible_copy() {
    let part = Part { src: r(0, 0, 4, 4), dst: r(-6, 0, 12, 6) };
    let (c, tiles) = tile_swapped(part, (100, 100)).unwrap();
    assert_eq!(c, r(0, 0, 6, 6));
    assert_eq!(
        tiles,
        vec![
            Tile { x: -2, y: 0 },
            Tile { x: 2, y: 0 },
            Tile { x: -2, y: 4 },
            Tile { x: 2, y: 4 },
        ]
    );
    assert!(tile_swapped(Part { src: r(0, 0, 0, 4), dst: r(0, 0, 9, 9) }, (9, 9)).is_none());
    assert!(tile_swapped(Part { src: r(0, 0, 4, 4), dst: r(9, 0, 9, 9) }, (9, 9)).is_none());
}

#[test]
fn frames_are_sliced_in_nine() {
    let nine = NineSlice { sw: 250, sh: 100, l: 4, t: 30, r: 5, b: 6 };
    let parts = nine.draw(10, 20, 100, 80);
    assert_eq!(parts.len(), 9);
    assert_eq!(parts[0], Part { src: r(0, 0, 4, 30), dst: r(10, 20, 4, 30) });
    assert_eq!(parts[3], Part { src: r(245, 94, 5, 6), dst: r(105, 94, 5, 6) });
    assert_eq!(parts[4], Part { src: r(20, 0, 160, 30), dst: r(14, 20, 91, 30) });
    assert_eq!(parts[8], Part { src: r(20, 30, 160, 64), dst: r(14, 50, 91, 44) });
    for px in 10..110 {
        for py in 20..100 {
            assert_eq!(parts.iter().filter(|p| p.dst.contains(px, py)).count(), 1);
        }
    }
    let small = NineSlice { sw: 8, sh: 100, l: 4, t: 30, r: 5, b: 6 };
    assert!(small.draw(0, 0, 100, 80).is_empty());
    assert_eq!(
        nine.border_art(),
        SliceSpec { l: 4, t: 30, r: 5, b: 6, edge0: 20, edge1: 180 }
    );
}

#[test]
fn restore_strips_have_caps_and_a_body() {
    let v = draw_minimized_axis(20, 60, 0, 0, 30, 100, true);
    assert_eq!(v[0], Part { src: r(0, 0, 20, 18), dst: r(5, 0, 20, 18) });
    assert_eq!(v[1], Part { src: r(0, 42, 20, 18), dst: r(5, 82, 20, 18) });
    assert_eq!(v[2], Part { src: r(0, 18, 20, 24), dst: r(5, 18, 20, 64) });
    let h = draw_minimized_axis(60, 20, 0, 0, 100, 10, false);
    assert_eq!(h[2], Part { src: r(18, 0, 24, 20), dst: r(18, -5, 64, 20) });
    assert_eq!(
        minimized_art(60, false),
        SliceSpec { l: 18, t: 0, r: 18, b: 0, edge0: 18, edge1: 42 }
    );
    assert_eq!(
        minimized_art(20, true),
        SliceSpec { l: 0, t: 18, r: 0, b: 18, edge0: 0, edge1: 20 }
    );
}

#[test]
fn frames_are_recycled_and_cleared_as_needed() {
    let b = take_screen_base(4, 0, Some((4, 1)), Some((4, 1)));
    assert_eq!((b.size, b.recycle, b.clear), ((4, 1), true, false));
    let b = take_screen_base(4, 4, Some((4, 1)), Some((4, 1)));
    assert_eq!((b.size, b.recycle, b.clear), ((4, 4), false, true));
    assert!(take_screen_base(4, 4, None, None).clear);
}

#[test]
fn accents_swap_fill_outline_and_highlight() {
    assert_eq!(accent_swap(&C, 7, 8, 9), vec![(0, 7), (1, 8), (5, 9)]);
    let (at, swap) = draw_button(50, 60, (11, 7), true, &C, 7, 8, 9);
    assert_eq!(at, (45, 57));
    assert_eq!(swap, vec![(0, 7), (1, 8), (5, 9), (6, 0)]);
    assert_eq!(draw_button(50, 60, (11, 7), false, &C, 7, 8, 9).1.len(), 3);
}

fn view(w: i32, title: &str, icon: Option<u64>, buttons: bool) -> LeafView {
    LeafView {
        w,
        tb_h: 30,
        bw: 4,
        accent_index: 3,
        titlebar: Some(TitleInfo { label: 'X', icon, title: title.into() }),
        buttons,
    }
}

const STYLE: TitleStyle = TitleStyle {
    btn_size: 16,
    min_split_w: 120,
    btn_strip_left: 150,
    fg: 5,
    fg_dark: 15,
    accent_is_light: false,
    lighter: 11,
    darker: 12,
};

#[test]
fn titles_stop_at_the_buttons() {
    let bar = draw_titlebar(&view(200, "t", Some(1), true), &STYLE, 0, 0, Some(12)).unwrap();
    assert_eq!(bar.icon, Some(r(8, 7, 16, 16)));
    assert_eq!(bar.letter, None);
    let want = TitleText {
        x: 28,
        y: 9,
        color: 5,
        shadow_y: 8,
        shadow_color: 12,
        shadow: true,
        clip_x: 28,
        clip_w: 122,
    };
    assert_eq!(bar.text, Some(want));
    let bar = draw_titlebar(&view(200, "t", None, false), &STYLE, 0, 0, Some(12)).unwrap();
    assert_eq!(bar.letter, Some((16, 15)));
    assert_eq!(bar.text.unwrap().clip_w, 168);
}

#[test]
fn titles_without_room_are_dropped() {
    let at = |v: &LeafView, s: &TitleStyle| draw_title(v, s, "t", 0, 0, 24, 12);
    assert!(at(&view(100, "t", None, true), &STYLE).is_none());
    assert!(draw_title(&view(200, "", None, true), &STYLE, "", 0, 0, 24, 12).is_none());
    let cramped = TitleStyle { btn_strip_left: 28, ..STYLE };
    assert!(at(&view(200, "t", None, true), &cramped).is_none());
    assert!(draw_title(&view(200, "t", None, true), &STYLE, "t", 0, -20, 24, 12).is_none());
    let light = TitleStyle { accent_is_light: true, ..STYLE };
    let t = at(&view(200, "t", None, true), &light).unwrap();
    assert_eq!((t.color, t.shadow_y, t.shadow_color), (15, 10, 11));
    let empty = LeafView { titlebar: None, ..view(200, "t", None, true) };
    assert!(draw_titlebar(&empty, &STYLE, 0, 0, Some(12)).is_none());
    let no_font = draw_titlebar(&view(200, "t", None, true), &STYLE, 0, 0, None).unwrap();
    assert!(no_font.text.is_none());
}

#[test]
fn letters_past_the_top_are_dropped() {
    assert_eq!(draw_glyph(10, 10, 7, 12), Some((7, 4)));
    assert_eq!(draw_glyph(10, 5, 7, 12), None);
    assert_eq!(draw_glyph(1, 10, 7, 12), Some((-2, 4)));
}

#[test]
fn buttons_have_their_own_art() {
    assert_eq!(BtnIcon::Close.index(), 0);
    assert_eq!(BtnIcon::Minimize.index(), 1);
    assert_eq!(BtnIcon::MinimizeH.index(), 2);
    assert_eq!(BtnIcon::HSplit.index(), 3);
    assert_eq!(BtnIcon::VSplit.index(), 4);
    assert_eq!(BtnIcon::COUNT, 5);
}

#[test]
fn transparent_pixels_are_walked_over() {
    let t = TRANSPARENT;
    let idx = vec![t, 1, 2, t];
    assert_eq!(
        walk_indices(&idx, 2, 10, 20),
        vec![Dot { x: 11, y: 20, index: 1 }, Dot { x: 10, y: 21, index: 2 }]
    );
    assert!(for_each_icon_pixel((0, 5), &idx, 0, 0, 2).is_empty());
    assert_eq!(for_each_icon_pixel((5, 5), &idx, 0, 0, 2).len(), 2);
    assert_eq!(
        for_each_glyph_pixel(&vec![7, t], 2, 1, 10, 20),
        vec![Dot { x: 9, y: 20, index: 7 }]
    );
}

#[test]
fn slot_icons_sit_inside_their_slot() {
    let s = SlotIcon::new(r(100, 200, 40, 36), 0, 0);
    assert_eq!(s, SlotIcon { x: 105, y: 203, size: 30, spread: 0 });
    assert_eq!(s.centre(), (120, 218));
    let s = SlotIcon::new(r(100, 200, 40, 36), 10, 5);
    assert_eq!(s, SlotIcon { x: 100, y: 198, size: 40, spread: 5 });
    assert_eq!(s.centre(), (120, 218));
    assert!(s.y - 5 - 2 >= 200 - QUICK_ICON_REACH);
}

#[test]
fn stamps_round_their_corners_off() {
    let stamp = border_stamp();
    assert_eq!(stamp.len(), 21);
    assert!(stamp.contains(&(0, 0)) && stamp.contains(&(2, 1)));
    assert!(!stamp.contains(&(2, 2)) && !stamp.contains(&(-2, 2)));
    assert_eq!(stamp[0], (-1, -2));
}

#[test]
fn shards_slide_along_their_own_axis() {
    let slot = SlotIcon { x: 10, y: 20, size: 30, spread: 5 };
    let s = Shards::new(&slot, Trace::Aimed(Side::Up));
    assert_eq!((s.cx2, s.cy2), (50, 70));
    assert_eq!(s.wedge_offset(25, 35), (1, 1));
    assert_eq!(s.place(Side::Left, 1, 2), (-4, 2));
    assert_eq!(s.place(Side::Right, 1, 2), (6, 2));
    assert_eq!(s.place(Side::Up, 1, 2), (1, -3));
    assert_eq!(s.place(Side::Down, 1, 2), (1, 7));
    assert_eq!(s.traced(Side::Up, 5), Some(5));
    assert_eq!(s.traced(Side::Down, 5), None);
    assert_eq!(Shards { trace: Trace::Whole(9), ..s }.traced(Side::Down, 5), Some(9));
    assert_eq!(Shards { trace: Trace::Nothing, ..s }.traced(Side::Down, 5), None);
    assert_eq!(quick_trace(Some(Side::Left)), Trace::Aimed(Side::Left));
    assert_eq!(quick_trace(None), Trace::Nothing);
}

#[test]
fn slots_are_drawn_shadow_first_and_icon_last() {
    let slot = SlotIcon { x: 0, y: 0, size: 4, spread: 1 };
    let s = Shards::new(&slot, Trace::Aimed(Side::Up));
    let dots = vec![Dot { x: 1, y: 0, index: 3 }, Dot { x: 0, y: 2, index: 4 }];
    let sides = vec![Side::Up, Side::Left];
    let out = s.draw_slot(&dots, &sides, &C);
    assert_eq!(out.len(), 1 + 21 + 2);
    assert_eq!(out[0], Dot { x: 1, y: 4, index: 15 });
    assert_eq!(out[1], Dot { x: 0, y: -3, index: 5 });
    assert_eq!(out[22], Dot { x: 1, y: -1, index: 3 });
    assert_eq!(out[23], Dot { x: -1, y: 2, index: 4 });
    let whole = Shards::new(&SlotIcon { spread: 0, ..slot }, Trace::Nothing);
    let out = whole.draw_slot(&dots, &sides, &C);
    assert_eq!(out[2..], dots[..]);
}

#[test]
fn the_bar_draws_its_widgets() {
    assert_eq!(
        draw_taskbar_sep((100, 100), r(10, 20, 6, 30), &C),
        vec![solid(r(11, 20, 4, 30), 5), solid(r(10, 22, 6, 26), 5)]
    );
    let (fills, cross) = draw_close_badge((100, 100), 0, 0, 10, &C);
    assert_eq!(
        fills,
        vec![solid(r(1, 0, 8, 10), 15), solid(r(0, 1, 1, 8), 15), solid(r(9, 1, 1, 8), 15)]
    );
    // Inset three, span four: four columns of four pixels.
    assert_eq!(cross.len(), 16);
    assert_eq!(cross[0], Dot { x: 3, y: 3, index: 5 });
    assert_eq!(cross[1], Dot { x: 3, y: 6, index: 5 });
    assert_eq!(cross[15], Dot { x: 6, y: 4, index: 5 });
    let plus = draw_plus((100, 100), 50, 50, 20, &C);
    assert_eq!(plus.len(), 5);
    assert_eq!(plus[0], Fill { rect: r(42, 40, 16, 20), paint: Paint::Checker(15, 14) });
    assert_eq!(plus[3], solid(r(45, 49, 10, 2), 5));
    let ring = draw_rounded_box((100, 100), 10, 10, 20, 20, 7);
    assert_eq!(ring[0], solid(r(12, 10, 16, 2), 7));
    assert_eq!(ring[3], solid(r(28, 12, 2, 16), 7));
}

#[test]
fn notes_show_their_summary_and_then_their_body() {
    let words = |t: String| -> Vec<String> { t.split(' ').map(String::from).collect() };
    let n = note_lines("a b\n\nc", "d\ne f", words);
    assert_eq!(n.lines, vec!["a", "b", "c", "d", "e", "f"]);
    assert_eq!(n.bold, vec![true, true, true, false, false, false]);
    let n = note_lines("1 2 3", "4 5 6 7 8 9\nx", words);
    assert_eq!(n.lines, vec!["1", "2", "3", "4", "5", "6", "7", "8"]);
    assert_eq!(n.bold.iter().filter(|b| **b).count(), 3);
    // A full bubble wraps nothing more, and a long text is cut first.
    let asked = std::cell::RefCell::new(Vec::new());
    let tall = |t: String| -> Vec<String> {
        asked.borrow_mut().push(t.chars().count());
        vec![String::from("x"); 5]
    };
    let n = note_lines(&"s".repeat(5000), "b\nc", tall);
    assert_eq!(n.lines.len(), 8);
    assert_eq!(*asked.borrow(), vec![2240, 1]);
    assert!(note_lines("", "", words).lines.is_empty());
}

#[test]
fn notes_are_split_into_paragraphs() {
    assert_eq!(paragraphs("a\n\nbc\n"), vec!["a", "bc"]);
    assert!(paragraphs("").is_empty());
    let mut n = NoteLines::new();
    assert_eq!(n.next_paragraph("abc"), Some("abc"));
    n.wrapped((0..7).map(|i| i.to_string()).collect(), true);
    let long = "x".repeat(300);
    assert_eq!(n.next_paragraph(&long).unwrap().len(), 280);
    n.wrapped(vec!["a".into(), "b".into()], false);
    assert_eq!(n.next_paragraph("c"), None);
    n.truncate();
    assert_eq!(n.lines.len(), 8);
    assert_eq!(n.bold, vec![true, true, true, true, true, true, true, false]);
}

#[test]
fn bubbles_fit_their_text() {
    assert_eq!(note_size(&vec![100, 50], 14, 60), (130, 54));
    assert_eq!(note_size(&vec![400], 14, 60), (310, 40));
    assert_eq!(note_size(&vec![], 2, 60), (60, 35));
    assert_eq!(mirrored(60, 0), 59);
    assert_eq!(estimated_width("abc"), 24);
    let runs = note_runs(&vec![true, false], 14, true, &C);
    assert_eq!(
        runs,
        vec![
            Run { line: 0, x: 14, y: 10, color: 9 },
            Run { line: 0, x: 15, y: 10, color: 9 },
            Run { line: 1, x: 14, y: 24, color: 15 },
        ]
    );
    assert_eq!(note_runs(&vec![true], 14, false, &C)[0].color, 15);
}

#[test]
fn palettes_become_padded_texels() {
    let data = palette_rgba(&vec![Rgb { r: 1, g: 2, b: 3 }]);
    assert_eq!(data.len(), 128);
    assert_eq!(&data[0..8], &[1, 2, 3, 255, 0, 0, 0, 0]);
}

#[test]
fn textures_of_the_same_size_are_written_over() {
    let mut t = None;
    assert_eq!(upload_into(&mut t, (4, 4), false), UploadStep::Create);
    assert_eq!(upload_into(&mut t, (4, 4), false), UploadStep::InPlace);
    assert_eq!(upload_into(&mut t, (4, 5), true), UploadStep::Create);
    assert_eq!(t, Some(IndexedTexture { size: (4, 5), opaque: true }));
}

fn leaf_view(w: i32) -> LeafView {
    LeafView {
        w,
        tb_h: 30,
        bw: 4,
        accent_index: 7,
        titlebar: Some(TitleInfo { label: 'a', icon: Some(3), title: String::from("abc") }),
        buttons: true,
    }
}

fn title_style() -> TitleStyle {
    TitleStyle {
        btn_size: 16,
        min_split_w: 100,
        btn_strip_left: 250,
        fg: 5,
        fg_dark: 15,
        accent_is_light: false,
        lighter: 6,
        darker: 8,
    }
}

#[test]
fn splits_are_framed_and_minimized_ones_are_strips() {
    let border = NineSlice { sw: 200, sh: 60, l: 4, t: 30, r: 4, b: 6 };
    let (view, style) = (leaf_view(300), title_style());
    match draw_leaf(&border, (20, 100), (100, 20), &view, 200, false, &style, 10, 20, Some(12)) {
        LeafArt::Framed { parts, bar } => {
            assert_eq!(parts, border.draw(10, 20, 300, 200));
            assert_eq!(parts.len(), 9);
            assert_eq!(bar.unwrap().icon, draw_titlebar(&view, &style, 10, 20, Some(12)).unwrap().icon);
        }
        LeafArt::Strip { .. } => panic!("not minimized"),
    }
    let thin = leaf_view(20);
    match draw_leaf(&border, (20, 100), (100, 20), &thin, 200, true, &style, 0, 0, Some(12)) {
        LeafArt::Strip { vertical, parts } => {
            assert!(vertical);
            assert_eq!(parts, draw_minimized_axis(20, 100, 0, 0, 20, 200, true));
        }
        LeafArt::Framed { .. } => panic!("minimized"),
    }
    match draw_leaf(&border, (20, 100), (100, 20), &view, 20, true, &style, 0, 0, Some(12)) {
        LeafArt::Strip { vertical, .. } => assert!(!vertical),
        LeafArt::Framed { .. } => panic!("minimized"),
    }
}

#[test]
fn notes_are_as_large_as_their_text() {
    let mut lines = NoteLines::new();
    lines.wrapped(vec![String::from("head")], true);
    lines.wrapped(vec![String::from("body"), String::from("more")], false);
    lines.truncate();
    let widths = vec![40, 60, 30];
    let note = draw_note(&lines, &widths, 12, 42, true, &C);
    assert_eq!((note.w, note.h), note_size(&widths, 12, 42));
    assert_eq!(note.runs, note_runs(&lines.bold, 12, true, &C));
    // The bold line is struck twice.
    let drawn: Vec<usize> = note.runs.iter().map(|run| run.line).collect();
    assert_eq!(drawn, vec![0, 0, 1, 2]);
    assert_eq!(note.runs[0].x + 1, note.runs[1].x);
    assert_eq!(note.runs[0].y + 12, note.runs[2].y);
}

fn nearest(c: Rgb) -> u8 {
    c.r / 16
}

#[test]
fn icons_are_rendered_once_and_drawn_opaque() {
    let mut ids = IconIds { next: 1 };
    let icon = Icon::new(&mut ids, 2, 2, vec![0xFF20_0000, 0, 0xFF40_0000, 0xFF60_0000]);
    let mut cache = IconCache::new();
    let dots = draw_icon(&mut cache, &icon, 10, 20, 2, nearest);
    assert_eq!(
        dots,
        vec![
            Dot { x: 10, y: 20, index: 2 },
            Dot { x: 10, y: 21, index: 4 },
            Dot { x: 11, y: 21, index: 6 },
        ]
    );
    let key = IconKey { id: icon.id(), size: 2 };
    assert_eq!(cache.get(&key), Some(&vec![2, TRANSPARENT, 4, 6]));
    // What is kept is not worked out again.
    cached_icon_indices(&mut cache, &icon, 2, |_| 9);
    assert_eq!(cache.get(&key), Some(&vec![2, TRANSPARENT, 4, 6]));
    assert!(draw_icon(&mut cache, &icon, 0, 0, 0, nearest).is_empty());
    assert_eq!(cache.entries.len(), 1);
}

#[test]
fn a_full_icon_cache_starts_over() {
    let mut ids = IconIds { next: 1 };
    let mut cache = IconCache::new();
    for _ in 0..ICON_CACHE_CAP {
        let icon = Icon::new(&mut ids, 1, 1, vec![0xFFFF_FFFF]);
        cached_icon_indices(&mut cache, &icon, 1, nearest);
    }
    assert_eq!(cache.entries.len(), ICON_CACHE_CAP);
    let icon = Icon::new(&mut ids, 1, 1, vec![0xFFFF_FFFF]);
    cached_icon_indices(&mut cache, &icon, 1, nearest);
    assert_eq!(cache.entries.len(), 1);
}

fn compass(dx: i32, dy: i32) -> Side {
    if dx.abs() >= dy.abs() {
        if dx < 0 {
            Side::Left
        } else {
            Side::Right
        }
    } else if dy < 0 {
        Side::Up
    } else {
        Side::Down
    }
}

#[test]
fn tiles_are_traced_in_their_accent() {
    let slot = SlotIcon::new(r(0, 0, 8, 8), 0, 0);
    assert_eq!(slot.size, 2);
    let face = Silhouette::Icon { w: 2, h: 2, idx: vec![3, 3, TRANSPARENT, 3] };
    let pixels = for_each_slot_pixel(&slot, &face);
    assert_eq!(pixels.len(), 3);
    let tile = draw_taskbar_tile(r(0, 0, 8, 8), &face, 12, compass, &C);
    // The pixels come last, over the trace of each in the accent.
    assert_eq!(tile[tile.len() - 3..].to_vec(), pixels);
    assert!(tile[..tile.len() - 3].iter().any(|d| d.index == 12));
    let blank = draw_taskbar_tile(r(0, 0, 8, 8), &Silhouette::Blank, 12, compass, &C);
    assert!(blank.is_empty());
}

#[test]
fn resting_quick_icons_are_drawn_whole() {
    let face = Silhouette::Icon { w: 2, h: 2, idx: vec![3, 3, TRANSPARENT, 3] };
    let quick = draw_quick_item(r(0, 0, 8, 8), &face, 0, 0, None, compass, &C);
    let pixels = for_each_slot_pixel(&SlotIcon::new(r(0, 0, 8, 8), 0, 0), &face);
    assert_eq!(quick.len(), 6);
    assert_eq!(quick[3..].to_vec(), pixels);
    assert_eq!((quick[0].x, quick[0].y), (pixels[0].x + 2, pixels[0].y + 2));
    let aimed = draw_quick_item(r(0, 0, 8, 8), &face, 0, 0, Some(Side::Left), compass, &C);
    assert!(aimed.len() > quick.len());
}

#[test]
fn float_strips_are_as_wide_as_the_frame() {
    let th = Theme {
        gap: 20,
        border_left: 4,
        border_right: 4,
        border_top: 30,
        border_bottom: 6,
        tb_h: 30,
        taskbar_h: 40,
        btn_size: 16,
        scroll_step: 60,
    };
    let (mut m, mut roles) = (Managed::default(), WindowRoles::default());
    let tiled = roles.manage_tiled(&mut m, false);
    let float = roles.manage_float(&mut m, None, r(50, 60, 100, 80), 11);
    let title = || TitleInfo { label: 'f', icon: None, title: String::from("find") };
    assert!(float_strip(&m, tiled, title(), &th).is_none());
    let v = float_strip(&m, float, title(), &th).unwrap();
    assert_eq!((v.w, v.accent_index, v.buttons), (108, 11, false));
    let style = title_style();
    let bar = draw_titlebar_strip(&v, &style, Some(12)).unwrap();
    let same = draw_titlebar(&v, &style, 0, 0, Some(12)).unwrap();
    assert_eq!(bar.letter, same.letter);
    assert!(bar.icon.is_none());
}
