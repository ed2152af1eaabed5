use splitwm::backend::{
    pick_connector, pick_session, switched_on, Backend, ConnectorInfo, ModeInfo, Reconnect,
    Session, Tty,
};
use splitwm::backlight::step_brightness;
use splitwm::cursor::{
    hotspot, load_cursor, nearest_image, shown_cursor, sprite, sprite_place, CursorImage,
    CursorStatus, Sprite,
};
use splitwm::debug::{
    chord_action, command, err_line, feed, ok_line, parse_chord, read_line, split_xy, Command,
};
use splitwm::geom::Rect;
use splitwm::input::{Action, Binding, MOD4, SHIFT};
use splitwm::notifications::{NotePopup, NotePopups};
use splitwm::notify::{
    cap_chars, CloseError, CloseReason, NoteMsg, Notifications, MAX_NOTES, NOTE_TEXT_CAP,
};
use splitwm::pointer::CursorShape;
use splitwm::screencopy::{
    capture_region, covers, new_frame, ready, shm_matches, write_shm, CopyStep, FrameData,
    Screencopy, ShmLayout,
};
use splitwm::text::{
    ascii_upper, chars_of, eq_ignore_ascii_case, hex16, parse_number, split_on, string_of,
    trim_str, white,
};
use splitwm::theme::Theme;

fn r(x: i32, y: i32, w: i32, h: i32) -> Rect {
    Rect { x, y, w, h }
}

const TH: Theme = Theme {
    gap: 20,
    border_left: 4,
    border_right: 4,
    border_top: 30,
    border_bottom: 6,
    tb_h: 30,
    taskbar_h: 40,
    btn_size: 16,
    scroll_step: 60,
};

#[test]
fn notes_expire_unless_they_are_critical() {
    let mut n = Notifications::new();
    let (a, msgs) = n.notify(0, "me", "s", "b", None, -1, 1000);
    assert!(matches!(&msgs[..], [NoteMsg::Show(note)] if note.id == a && note.summary == "s"));
    let (b, _) = n.notify(0, "me", "s", "b", Some(2), 10, 1000);
    let (gone, closed) = n.tick(&vec![], 5999);
    assert!(gone.is_empty() && closed.is_empty());
    let (gone, closed) = n.tick(&vec![], 6000);
    assert_eq!(gone, vec![a]);
    assert_eq!(closed, vec![(a, CloseReason::Expired)]);
    let (gone, _) = n.tick(&vec![], 10_000_000);
    assert!(gone.is_empty());
    assert!(matches!(n.close_notification(b), Ok(NoteMsg::Close(id)) if id == b));
    assert!(matches!(n.close_notification(b), Err(CloseError::NoSuchNotification)));
}

#[test]
fn foreign_notes_cannot_be_replaced() {
    let mut n = Notifications::new();
    let (a, _) = n.notify(0, "me", "s", "b", None, 0, 0);
    let (b, _) = n.notify(a, "other", "s", "b", None, 0, 0);
    assert_ne!(a, b);
    let (c, _) = n.notify(a, "me", "s2", "b", None, 0, 0);
    assert_eq!(a, c);
}

#[test]
fn the_oldest_note_makes_room() {
    let mut n = Notifications::new();
    let ids: Vec<u32> =
        (0..MAX_NOTES).map(|_| n.notify(0, "me", "s", "b", None, 0, 0).0).collect();
    let (_, msgs) = n.notify(0, "me", "s", "b", None, 0, 0);
    assert!(msgs.iter().any(|m| matches!(m, NoteMsg::Close(id) if *id == ids[0])));
    let (_, closed) = n.tick(&vec![], 0);
    assert!(closed.contains(&(ids[0], CloseReason::Undefined)));
    let (_, closed) = n.tick(&vec![(ids[1], CloseReason::Dismissed)], 0);
    assert_eq!(closed, vec![(ids[1], CloseReason::Dismissed)]);
}

#[test]
fn texts_are_capped() {
    assert_eq!(cap_chars("äbc", 2), "äb");
    assert_eq!(cap_chars("äbc", 5), "äbc");
    let mut n = Notifications::new();
    let (_, msgs) = n.notify(0, "me", &"x".repeat(5000), "b", None, 0, 0);
    assert!(matches!(&msgs[0], NoteMsg::Show(note) if note.summary.len() == NOTE_TEXT_CAP));
    assert_eq!(CloseReason::Expired.number(), 1);
    assert_eq!(CloseReason::Dismissed.number(), 2);
    assert_eq!(CloseReason::Closed.number(), 3);
    assert_eq!(CloseReason::Undefined.number(), 4);
}

#[test]
fn bubbles_stack_upward_from_the_corner() {
    let mut p = NotePopups { list: Vec::new() };
    p.show(NotePopup { id: 1, w: 100, h: 50 });
    p.show(NotePopup { id: 2, w: 120, h: 30 });
    assert_eq!(
        p.note_rects(1280, 800, &TH),
        vec![(1, r(1160, 710, 100, 50)), (2, r(1140, 660, 120, 30))]
    );
    p.show(NotePopup { id: 1, w: 100, h: 60 });
    assert_eq!(p.note_rects(1280, 800, &TH)[0].1.h, 60);
    assert_eq!(p.dismiss_note_at(1280, 800, &TH, 0, 0), None);
    assert_eq!(p.dismiss_note_at(1280, 800, &TH, 1170, 750), Some(1));
    p.close(2);
    assert!(p.list.is_empty());
}

#[test]
fn captures_are_cut_to_the_output() {
    let full = r(0, 0, 100, 50);
    assert_eq!(capture_region(full, None), Some(full));
    assert_eq!(capture_region(full, Some(r(90, -5, 30, 20))), Some(r(90, 0, 10, 15)));
    assert_eq!(capture_region(full, Some(r(100, 0, 5, 5))), None);
    assert_eq!(capture_region(full, Some(r(0, 0, 0, 5))), None);
}

#[test]
fn shared_buffers_are_written_row_by_row() {
    let d = ShmLayout { format_ok: true, width: 1, height: 2, stride: 8, offset: 1 };
    assert!(covers(&d, 13, 1, 2) && !covers(&d, 12, 1, 2));
    assert!(shm_matches(&d, 13, 1, 2));
    assert!(!shm_matches(&ShmLayout { format_ok: false, ..d }, 13, 1, 2));
    assert!(!shm_matches(&ShmLayout { width: 2, ..d }, 13, 1, 2));
    let mut pool = vec![0u8; 13];
    assert!(write_shm(&mut pool, &d, 1, 2, &[1, 2, 3, 4, 5, 6, 7, 8]));
    assert_eq!(&pool[9..13].len(), &4);
    assert_eq!(pool[0], 0);
    assert_eq!(&pool[5..9], &[0, 0, 0, 0]);
    assert_ne!(&pool[1..5], &[0, 0, 0, 0]);
    let mut short = vec![0u8; 12];
    assert!(!write_shm(&mut short, &d, 1, 2, &[1, 2, 3, 4, 5, 6, 7, 8]));
}

#[test]
fn frames_are_copied_once() {
    let mut f = new_frame(Some(r(0, 0, 10, 10)), true);
    assert!(matches!(f.copy(7, true, true), CopyStep::Queued(c) if c.frame == 7 && c.with_damage));
    assert!(matches!(f.copy(7, true, true), CopyStep::AlreadyUsed));
    let mut g = new_frame(Some(r(0, 0, 10, 10)), false);
    assert!(matches!(g.copy(1, false, false), CopyStep::InvalidBuffer));
    let mut dead = new_frame(None, false);
    assert!(matches!(dead, FrameData::Failed));
    assert!(matches!(dead.copy(1, true, false), CopyStep::Ignored));
}

#[test]
fn captures_of_gone_frames_are_dropped() {
    let mut s = Screencopy { pending: Vec::new() };
    let mut queue = |frame, w| {
        if let CopyStep::Queued(c) = new_frame(Some(r(0, 0, w, 10)), false).copy(frame, true, false) {
            assert!(s.queue(c));
        }
    };
    queue(1, 10);
    queue(2, 10);
    queue(3, 200);
    s.destroyed(2);
    let served = s.serve(&vec![1, 3], 100, 50);
    assert_eq!(served.len(), 2);
    assert!(served[0].1);
    assert!(!served[1].1);
    assert!(s.pending.is_empty());
    let done = ready(true, 10, 20, 0x1_0000_0002, 3);
    assert_eq!((done.damage, done.secs_hi, done.secs_lo, done.nanos), (Some((10, 20)), 1, 2, 3));
    assert_eq!(ready(false, 10, 20, 0, 0).damage, None);
}

#[test]
fn brightness_never_goes_dark() {
    assert_eq!(step_brightness(500, 1000, 5), 550);
    assert_eq!(step_brightness(550, 1000, -5), 500);
    assert_eq!(step_brightness(20, 1000, -5), 10);
    assert_eq!(step_brightness(990, 1000, 5), 1000);
    assert_eq!(step_brightness(1, 10, -50), 1);
}

fn image(size: u32) -> CursorImage {
    CursorImage { size, width: 1, height: 1, xhot: 0, yhot: 0, pixels_rgba: vec![] }
}

#[test]
fn cursors_take_the_nearest_size() {
    assert_eq!(nearest_image(&vec![image(16), image(32), image(24)], 25), Some(2));
    assert_eq!(nearest_image(&vec![], 25), None);
    assert_eq!(sprite(CursorShape::Text), Sprite::Text);
    assert_eq!(sprite(CursorShape::Pointer), Sprite::Hand);
    assert_eq!(sprite(CursorShape::NotAllowed), Sprite::Disabled);
    assert_eq!(sprite(CursorShape::Default), Sprite::Arrow);
    let hot = hotspot(Sprite::Text, 10, 20);
    assert_eq!(sprite_place(100, 100, hot), (100 - hot.0, 100 - hot.1));
}

/// A cursor file with one image, a pixel wide and high.
fn cursor_file(magic: &[u8; 4]) -> Vec<u8> {
    let word = |v: u32| v.to_le_bytes().to_vec();
    let mut f = magic.to_vec();
    for v in [16, 0x1_0000, 1, 0xfffd_0002, 24, 28] {
        f.extend(word(v));
    }
    for v in [36, 0xfffd_0002, 24, 1, 1, 1, 0, 0, 0] {
        f.extend(word(v));
    }
    f.extend([1, 2, 3, 4]);
    f
}

#[test]
fn cursor_files_are_read() {
    let img = load_cursor(&cursor_file(b"Xcur"), 24).unwrap();
    assert_eq!((img.size, img.width, img.height), (24, 1, 1));
    assert_eq!(img.pixels_rgba.len(), 4);
    assert!(load_cursor(&cursor_file(b"Nope"), 24).is_none());
    assert!(load_cursor(b"", 24).is_none());
}

#[test]
fn sessions_are_picked_from_the_environment() {
    assert!(switched_on(Some("1")));
    assert!(!switched_on(None));
    assert_eq!(pick_session(Some("1"), true), Session::Headless);
    assert_eq!(pick_session(None, true), Session::Nested);
    assert_eq!(pick_session(None, false), Session::Tty);
}

#[test]
fn terminals_render_only_while_they_can() {
    let mut t = Tty::new();
    assert!(!t.can_render());
    assert!(matches!(t.reconnect(Some(5)), Reconnect::Drive(5)));
    t.driven(5, true);
    assert!(t.can_render());
    t.rendered(false, true);
    assert!(!t.can_render());
    t.vblank();
    assert!(t.can_render());
    t.pause();
    assert!(!t.can_render());
    t.activate();
    assert!(t.can_render());
    assert!(matches!(t.reconnect(Some(5)), Reconnect::Keep));
    assert!(matches!(t.reconnect(None), Reconnect::Dark));
    assert!(!t.can_render());
}

#[test]
fn connectors_are_picked_with_their_preferred_mode() {
    let mode = |w, preferred| ModeInfo { w, h: 10, preferred };
    let con = |handle, connected, modes: Vec<ModeInfo>| ConnectorInfo {
        handle,
        connected,
        modes,
        encoders: vec![vec![9]],
    };
    let all = vec![
        con(1, false, vec![mode(1, true)]),
        con(2, true, vec![]),
        con(3, true, vec![mode(1, false), mode(2, true)]),
    ];
    let p = pick_connector(&all).unwrap();
    assert_eq!((p.handle, p.pipe, p.mode.w), (3, 9, 2));
    assert!(pick_connector(&vec![]).is_none());
}

#[test]
fn only_headless_backends_take_shots() {
    let mut b = Backend::Headless(None);
    assert!(b.request_shot("/x"));
    assert_eq!(b.take_shot().as_deref(), Some("/x"));
    assert_eq!(b.take_shot(), None);
    assert!(!Backend::Winit.request_shot("/x"));
    assert_eq!(Backend::Winit.change_vt(3), None);
    assert_eq!(Backend::Tty(Tty::new()).change_vt(3), Some(3));
    assert!(!Backend::Winit.redraw_paced_externally());
}

#[test]
fn driver_lines_are_kept_whole() {
    let mut pending = Vec::new();
    assert!(feed(&mut pending, b"ab").is_empty());
    let lines = feed(&mut pending, b"c\nd\ne");
    assert_eq!(lines, vec![b"abc\n".to_vec(), b"d\n".to_vec()]);
    assert_eq!(pending, b"e");
}

#[test]
fn driver_commands_are_told_apart() {
    assert!(matches!(command("key super+c"), Command::Key(c) if c == "super+c"));
    assert!(matches!(command("spawn a b"), Command::Spawn(c) if c == "a b"));
    assert!(matches!(command("focus"), Command::Focus));
    assert!(matches!(command("cursor"), Command::Cursor));
    assert!(matches!(command(""), Command::Empty));
    assert!(matches!(command("focus now"), Command::Unknown));
    assert_eq!(split_xy("1 2"), Some(("1".into(), "2".into())));
    assert_eq!(split_xy("12"), None);
    assert_eq!(ok_line("key", "c"), "ok key c");
    assert_eq!(err_line("key", "c", "no such binding"), "err key c: no such binding");
}

#[test]
fn driver_lines_are_decoded_and_trimmed() {
    let (text, c) = read_line(b"  spawn a b \r\n");
    assert_eq!(text, "spawn a b");
    assert!(matches!(c, Command::Spawn(cmd) if cmd == "a b"));
    let (text, c) = read_line("shot /tmp/\u{e4}\n".as_bytes());
    assert_eq!(text, "shot /tmp/\u{e4}");
    assert!(matches!(c, Command::Shot(path) if path == "/tmp/\u{e4}"));
    let (text, c) = read_line(b"spawn \xff\n");
    assert_eq!(text, "spawn \u{fffd}");
    assert!(matches!(c, Command::Spawn(cmd) if cmd == "\u{fffd}"));
    assert!(matches!(read_line(b"\n").1, Command::Empty));
}

#[test]
fn chords_reach_the_bindings() {
    let bindings = vec![
        Binding { mask: MOD4 | SHIFT, sym: 0x63, action: Action::CloseWindow },
        Binding { mask: 0, sym: 0x1008_ff13, action: Action::VolumeUp },
    ];
    let sym = |name: String| match name.as_str() {
        "c" => 0x63,
        "XF86AudioRaiseVolume" => 0x1008_ff13,
        _ => 0,
    };
    assert_eq!(chord_action(&bindings, "super+Shift+c", sym), Some(Action::CloseWindow));
    assert_eq!(chord_action(&bindings, "XF86AudioRaiseVolume", sym), Some(Action::VolumeUp));
    assert_eq!(chord_action(&bindings, "super+c", sym), None);
    assert_eq!(chord_action(&bindings, "hyper+c", sym), None);
    assert_eq!(chord_action(&bindings, "super+", sym), None);
    let never = |_: String| -> u32 { panic!("no keysym is asked for") };
    assert_eq!(chord_action(&bindings, "super+c\0", never), None);
}

#[test]
fn dead_cursor_surfaces_give_way_to_the_arrow() {
    let surface = CursorStatus::Surface(7);
    assert_eq!(shown_cursor(surface, true), surface);
    assert_eq!(shown_cursor(surface, false), CursorStatus::Named(CursorShape::Default));
    assert_eq!(shown_cursor(CursorStatus::Hidden, false), CursorStatus::Hidden);
    let hand = CursorStatus::Named(CursorShape::Pointer);
    assert_eq!(shown_cursor(hand, false), hand);
}

#[test]
fn chords_name_modifiers_and_a_key() {
    let (mods, key) = parse_chord("Super+SHIFT+c").unwrap();
    assert!(mods.logo && mods.shift && !mods.ctrl && !mods.alt);
    assert_eq!(key, "c");
    let (mods, key) = parse_chord("XF86AudioRaiseVolume").unwrap();
    assert!(!mods.logo);
    assert_eq!(key, "XF86AudioRaiseVolume");
    assert!(parse_chord("hyper+c").is_none());
}

#[test]
fn texts_are_cut_and_compared() {
    assert!(eq_ignore_ascii_case("TrUe", "true") && !eq_ignore_ascii_case("tru", "true"));
    assert_eq!(ascii_upper('a'), 'A');
    assert_eq!(ascii_upper('ä'), 'ä');
    assert!(white('\u{3000}') && !white('x'));
    assert_eq!(trim_str(" \u{a0}a b\t"), "a b");
    assert_eq!(split_on("a;;b", ';'), vec!["a", "", "b"]);
    assert_eq!(hex16(0xabc), "0000000000000abc");
    let n = |s: &str| {
        let c = chars_of(s);
        let len = c.len();
        parse_number(&c, 0, len)
    };
    assert_eq!((n("042"), n("+7"), n(""), n("-1"), n("1x")), (Some(42), Some(7), None, None, None));
    assert_eq!(n("99999999999999999999999"), None);
    assert_eq!(string_of(&vec!['a', 'b']), "ab");
}
