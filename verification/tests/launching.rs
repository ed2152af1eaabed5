use splitwm::cache::{Capped, IconKey};
use splitwm::launch::{
    configured_icon_theme, desktop_entry_cmd, entry_cmd, have_systemd_run, icon_query,
    quick_label, quick_launches, settings_path, shell_quote, spawn_line, IconLookups, IconQuery,
    LookupStep, Probe, ProbeStep, QuickEntry,
};
use splitwm::menu::{
    app_dirs, build, clean_exec, data_dirs, find_icon_file, first_main_category, frame_size,
    parse_desktop, quick_icon, scan, App, DesktopFile, Item, Quick, OTHER,
};

#[test]
fn quoting_is_safe_for_the_shell() {
    assert_eq!(shell_quote("a b"), "'a b'");
    assert_eq!(shell_quote("it's"), "'it'\\''s'");
    assert_eq!(shell_quote(""), "''");
}

#[test]
fn commands_are_started_detached() {
    assert_eq!(spawn_line("a; b", false), "/bin/sh -c 'a; b' &");
    assert_eq!(
        spawn_line("a", true),
        "systemd-run --user --scope --slice=app.slice --collect --quiet -- /bin/sh -c 'a' &"
    );
}

#[test]
fn hung_probes_count_as_a_no() {
    assert_eq!(have_systemd_run(Probe::Missing, 0, 0), ProbeStep::Answer(false));
    assert_eq!(have_systemd_run(Probe::Exited(true), 5, 0), ProbeStep::Answer(true));
    assert_eq!(have_systemd_run(Probe::Running, 1999, 0), ProbeStep::Wait);
    assert_eq!(have_systemd_run(Probe::Running, 2000, 0), ProbeStep::Kill);
    assert_eq!(have_systemd_run(Probe::Lost, 0, 0), ProbeStep::Kill);
}

#[test]
fn desktop_entries_become_quoted_commands() {
    let text = "[Desktop Entry]\nType=Application\nName=A\nExec=foo --bar %f it's\nPath=/tmp/x y\n";
    assert_eq!(
        desktop_entry_cmd("/usr/share/applications/a.desktop", text).unwrap(),
        "cd '/tmp/x y' && 'foo' '--bar' 'it'\\''s'"
    );
    let text = "[Desktop Entry]\nType=Application\nName=A\nExec=foo %k\n";
    assert_eq!(
        desktop_entry_cmd("/a/b.desktop", text).unwrap(),
        "'foo' '/a/b.desktop'"
    );
    assert_eq!(desktop_entry_cmd("/a/b.desktop", "[Desktop Entry]\nName=A\n"), None);
}

#[test]
fn entry_commands_follow_their_parts() {
    let s = |x: &str| x.to_string();
    assert_eq!(entry_cmd(None, None), None);
    assert_eq!(entry_cmd(Some(vec![]), Some(s("/d"))), None);
    assert_eq!(entry_cmd(Some(vec![s("a"), s("b")]), None).unwrap(), "'a' 'b'");
    assert_eq!(entry_cmd(Some(vec![s("a")]), Some(s(""))).unwrap(), "'a'");
    assert_eq!(entry_cmd(Some(vec![s("a")]), Some(s("/d"))).unwrap(), "cd '/d' && 'a'");
}

#[test]
fn quick_entries_take_their_override() {
    let e = |set: Option<&str>| QuickEntry {
        label: "Files".into(),
        set: set.map(|s| s.to_string()),
        default: "xdg-open .".into(),
        icon: "folder".into(),
        show: 2,
    };
    let q = quick_launches(vec![e(None), e(Some("nautilus"))]);
    assert_eq!(q[0].cmd, "xdg-open .");
    assert_eq!(q[1].cmd, "nautilus");
    assert_eq!((q[1].label.as_str(), q[1].icon.as_str()), ("Files", "folder"));
    assert_eq!(q[1].show, 2);
    assert_eq!(quick_label("files"), 'F');
    assert_eq!(quick_label(""), '?');
}

#[test]
fn failed_lookups_are_tried_again_after_a_while() {
    let mut l = IconLookups::new();
    assert!(matches!(l.find_icon_file("a", 0), LookupStep::Search));
    l.searched("a", None, 0);
    assert!(matches!(l.find_icon_file("a", 59_999), LookupStep::Known(None)));
    assert!(matches!(l.find_icon_file("a", 60_000), LookupStep::Search));
    l.searched("a", Some("/x.png".into()), 60_000);
    match l.find_icon_file("a", 10_000_000) {
        LookupStep::Known(Some(p)) => assert_eq!(p, "/x.png"),
        _ => panic!("found files are believed forever"),
    }
}

#[test]
fn caches_empty_themselves_when_full() {
    let mut c: Capped<IconKey, u8> = Capped::new();
    let k = |id| IconKey { id, size: 16 };
    c.insert_capped(2, k(1), 10);
    c.insert_capped(2, k(1), 11);
    assert_eq!((c.get(&k(1)), c.entries.len()), (Some(&11), 1));
    c.insert_capped(2, k(2), 20);
    assert_eq!(c.entries.len(), 2);
    assert_eq!(c.get(&k(1)), Some(&11));
    c.insert_capped(2, k(3), 30);
    assert_eq!(c.entries.len(), 1);
    assert_eq!(c.get(&k(1)), None);
    assert_eq!(c.get(&k(2)), None);
    assert_eq!(c.get(&k(3)), Some(&30));
}

#[test]
fn icons_are_looked_up_by_path_or_theme() {
    assert!(matches!(icon_query("/a.png", None), IconQuery::File(p) if p == "/a.png"));
    match icon_query("firefox", Some("Adwaita".into())) {
        IconQuery::Themed(name, theme) => {
            assert_eq!((name.as_str(), theme.as_deref()), ("firefox", Some("Adwaita")))
        }
        _ => panic!("a name is looked up in the theme"),
    }
}

#[test]
fn the_icon_theme_is_read_from_the_settings() {
    let text = "[Settings]\r\nfoo=1\n gtk-icon-theme-name = \"Papirus\" \ngtk-icon-theme-name=B\n";
    assert_eq!(configured_icon_theme(text).as_deref(), Some("Papirus"));
    assert_eq!(configured_icon_theme("nothing here\n"), None);
    assert_eq!(
        settings_path(Some("/c"), Some("/h")).as_deref(),
        Some("/c/gtk-3.0/settings.ini")
    );
    assert_eq!(
        settings_path(Some(""), Some("/h")).as_deref(),
        Some("/h/.config/gtk-3.0/settings.ini")
    );
    assert_eq!(settings_path(None, None), None);
}

#[test]
fn field_codes_are_stripped() {
    assert_eq!(clean_exec("foo %U --x=%%1 %"), "foo  --x=%1");
    assert_eq!(clean_exec("  "), "");
}

#[test]
fn categories_are_the_first_main_one() {
    assert_eq!(first_main_category("GTK;Graphics;Office;"), 4);
    assert_eq!(first_main_category("Other;"), OTHER);
    assert_eq!(first_main_category(""), OTHER);
    assert_eq!(first_main_category("Utility"), 10);
}

fn entry(name: &str, exec: &str, more: &str) -> String {
    format!("[Desktop Entry]\nType=Application\nName={name}\nExec={exec}\n{more}")
}

#[test]
fn entries_not_to_be_shown_are_left_out() {
    let (app, cat) = parse_desktop(&entry("A", "a %f", "Categories=Game;\nIcon=ai\n")).unwrap();
    assert_eq!((app.name.as_str(), app.command.as_str(), cat), ("A", "a", 3));
    assert_eq!(app.icon.as_deref(), Some("ai"));
    assert!(parse_desktop(&entry("A", "a", "NoDisplay=TRUE\n")).is_none());
    assert!(parse_desktop(&entry("A", "a", "Hidden=true\n")).is_none());
    assert!(parse_desktop(&entry("A", "%f", "")).is_none());
    assert!(parse_desktop("[Desktop Entry]\nName=A\nExec=a\nType=Link\n").is_none());
    assert!(parse_desktop("[Desktop Entry]\nExec=a\n").is_none());
    assert!(parse_desktop("[Other]\nName=A\nExec=a\n").is_none());
    // Another group's keys are not the entry's.
    let (app, _) = parse_desktop(&entry("A", "a", "Icon=\n[Action x]\nExec=b\n")).unwrap();
    assert_eq!((app.command.as_str(), app.icon), ("a", None));
}

#[test]
fn hidden_entries_still_have_a_command() {
    let cmd = splitwm::menu::desktop_entry_cmd;
    assert_eq!(cmd(&entry("A", "a %f", "NoDisplay=true\n")).as_deref(), Some("a"));
    assert_eq!(cmd(&entry("A", "a", "Path=/p q\n")).as_deref(), Some("cd '/p q' && a"));
    assert_eq!(cmd("[Desktop Entry]\nName=A\n"), None);
}

#[test]
fn data_directories_put_the_user_first() {
    assert_eq!(
        data_dirs(Some("/h"), None, None),
        vec!["/h/.local/share", "/usr/local/share", "/usr/share"]
    );
    assert_eq!(data_dirs(Some("/h"), Some("/d"), Some("/x::/y")), vec!["/d", "/x", "/y"]);
    assert_eq!(data_dirs(None, Some("/d"), Some("/x")), vec!["/x"]);
    assert_eq!(app_dirs(None, None, Some("/x")), vec!["/x/applications"]);
}

#[test]
fn icon_files_are_tried_best_first() {
    let dirs = vec!["/d".to_string()];
    let places = || {
        let tried = std::cell::RefCell::new(Vec::new());
        let none = find_icon_file("app", &dirs, |p: String| {
            tried.borrow_mut().push(p);
            false
        });
        assert_eq!(none, None);
        tried.into_inner()
    };
    let places = places();
    assert_eq!(places.len(), 9);
    assert_eq!(places[0], "/d/icons/hicolor/16x16/apps/app.png");
    assert_eq!(places[1], "/d/icons/hicolor/32x32/apps/app.png");
    assert_eq!(places[8], "/d/pixmaps/app.png");
}

#[test]
fn the_first_icon_file_that_exists_is_taken() {
    let dirs = vec!["/d".to_string(), "/e".to_string()];
    let on = |files: &[&str], icon: &str| {
        find_icon_file(icon, &dirs, |p: String| files.contains(&p.as_str()))
    };
    let small = "/e/icons/hicolor/16x16/apps/app.png";
    let large = "/d/icons/hicolor/256x256/apps/app.png";
    let pixmap = "/d/pixmaps/app.png";
    assert_eq!(on(&[small, pixmap, large], "app").as_deref(), Some(large));
    assert_eq!(on(&[small, pixmap], "app").as_deref(), Some(pixmap));
    assert_eq!(on(&[small], "app").as_deref(), Some(small));
    assert_eq!(on(&[], "app"), None);
    assert_eq!(on(&["/a/b.png"], "/a/b.png").as_deref(), Some("/a/b.png"));
    assert_eq!(on(&[], "/a/b.png"), None);
    assert_eq!(on(&["/a/b.svg"], "/a/b.svg"), None);
    assert_eq!(on(&["/a/.png"], "/a/.png"), None);
    assert_eq!(on(&["/a/b.png/./"], "/a/b.png/./").as_deref(), Some("/a/b.png/./"));
}

fn file(stem: &str, text: Option<String>) -> DesktopFile {
    DesktopFile { stem: stem.into(), text }
}

#[test]
fn scanning_groups_and_sorts() {
    let files = vec![
        file("b", Some(entry("beta", "b", "Categories=Game;"))),
        file("a", Some(entry("Alpha", "a", "Categories=Game;"))),
        file("b", Some(entry("shadowed", "s", "Categories=Game;"))),
        file("c", None),
        file("d", Some(entry("Delta", "d", "NoDisplay=true"))),
        file("e", Some(entry("ALPHA", "e", "Categories=Game;"))),
        file("f", Some(entry("Übung", "f", ""))),
    ];
    let groups = scan(&files);
    let names: Vec<&str> = groups[3].iter().map(|a| a.name.as_str()).collect();
    assert_eq!(names, vec!["Alpha", "ALPHA", "beta"]);
    assert_eq!(groups[OTHER][0].name, "Übung");
    assert_eq!(groups.iter().map(|g| g.len()).sum::<usize>(), 4);
}

#[test]
fn sorting_ignores_case_beyond_ascii() {
    let files = vec![
        file("a", Some(entry("éclair", "a", ""))),
        file("b", Some(entry("Ébène", "b", ""))),
    ];
    let groups = scan(&files);
    let names: Vec<&str> = groups[OTHER].iter().map(|a| a.name.as_str()).collect();
    assert_eq!(names, vec!["Ébène", "éclair"]);
}

fn app(name: &str, command: &str, icon: Option<&str>) -> App {
    App { name: name.into(), command: command.into(), icon: icon.map(|i| i.to_string()) }
}

#[test]
fn shortcuts_take_the_icon_of_their_program() {
    let groups = vec![vec![app("A", "/usr/bin/foo --x", Some("fooicon")), app("B", "bar", None)]];
    assert_eq!(quick_icon(&groups, "foo -y").as_deref(), Some("fooicon"));
    assert_eq!(quick_icon(&groups, "/opt/bar").as_deref(), Some("bar"));
    assert_eq!(quick_icon(&groups, "  "), None);
}

#[test]
fn menus_hold_categories_then_shortcuts() {
    let mut groups: Vec<Vec<App>> = (0..11).map(|_| Vec::new()).collect();
    groups[3].push(app("G", "g", Some("gi")));
    groups[10].push(app("U", "u", None));
    let quick = vec![Quick { label: "Terminal".into(), cmd: "g -e".into() }];
    let tree = build(groups, &quick);
    assert_eq!(tree.main.labels, vec!["Game", "Utility", "", "Terminal"]);
    assert_eq!(tree.main.arrows, vec![true, true, false, false]);
    assert!(matches!(tree.main.items[1], Item::Submenu(1)));
    assert!(matches!(tree.main.items[2], Item::Separator));
    assert!(matches!(&tree.main.items[3], Item::Launch(c) if c == "g -e"));
    assert_eq!(tree.main.icons[3].as_deref(), Some("gi"));
    assert_eq!(tree.subs.len(), 2);
    assert_eq!(tree.subs[0].labels, vec!["G"]);
    assert_eq!(tree.subs[0].icons[0].as_deref(), Some("gi"));
}

#[test]
fn menu_frames_have_a_border() {
    assert_eq!(frame_size(3, 100), (116, 94));
}
