//! The application menu: reading desktop entries, grouping them by
//! category, and the tree of menus over them.

use crate::launch::string_view;
use crate::text::{
    chars_of, eq_ignore_ascii_case, fields, find_char, find_from, fold_eq, is_text, is_white, same_str,
    slice_string, split_on, trim, trim_of, trim_str, trimmed, views, white,
};
use crate::wallpaper::{join, joined, text_view};
use vstd::prelude::*;
use vstd::string::*;

pub mod laws;

verus! {

/// Height of a row, and width of the border around the rows.
pub const MENU_ROW_H: i32 = 26;

pub const MENU_BORDER: i32 = 8;

/// The width of a menu around content `w` wide.
pub open spec fn framed_w(w: int) -> int {
    w + 16
}

/// The height of a menu of so many rows.
pub open spec fn framed_h(rows: int) -> int {
    rows * 26 + 16
}

/// Outer size of a menu frame holding `rows` rows of `content_w`.
pub fn frame_size(rows: i32, content_w: i32) -> (r: (i32, i32))
    requires
        i32::MIN <= content_w + 16 <= i32::MAX,
        i32::MIN <= rows * 26,
        rows * 26 + 16 <= i32::MAX,
    ensures
        r.0 == framed_w(content_w as int),
        r.1 == framed_h(rows as int),
{
    (content_w + 2 * MENU_BORDER, rows * MENU_ROW_H + 2 * MENU_BORDER)
}

/// One launchable application.
pub struct App {
    pub name: String,
    pub command: String,
    /// A themed icon name or an absolute path.
    pub icon: Option<String>,
}

/// An application, mathematically.
pub struct AppView {
    pub name: Seq<char>,
    pub command: Seq<char>,
    pub icon: Option<Seq<char>>,
}

impl View for App {
    type V = AppView;

    open spec fn view(&self) -> AppView {
        AppView { name: self.name@, command: self.command@, icon: string_view(self.icon) }
    }
}

/// What activating a row does.
pub enum Item {
    /// Spawn this command.
    Launch(String),
    /// Open the submenu with this index.
    Submenu(usize),
    /// Inert divider row.
    Separator,
}

/// What a row does, mathematically.
pub enum ItemView {
    Launch(Seq<char>),
    Submenu(usize),
    Separator,
}

impl View for Item {
    type V = ItemView;

    open spec fn view(&self) -> ItemView {
        match self {
            Item::Launch(cmd) => ItemView::Launch(cmd@),
            Item::Submenu(i) => ItemView::Submenu(*i),
            Item::Separator => ItemView::Separator,
        }
    }
}

/// A row, mathematically.
pub struct RowView {
    pub label: Seq<char>,
    pub item: ItemView,
    pub arrow: bool,
    pub icon: Option<Seq<char>>,
}

/// A single column of rows.
pub struct Menu {
    pub labels: Vec<String>,
    pub items: Vec<Item>,
    /// Rows that open a submenu get a trailing arrow.
    pub arrows: Vec<bool>,
    /// Each row's icon name or path.
    pub icons: Vec<Option<String>>,
}

impl Menu {
    /// Every row has all its parts.
    pub open spec fn wf(self) -> bool {
        &&& self.items@.len() == self.labels@.len()
        &&& self.arrows@.len() == self.labels@.len()
        &&& self.icons@.len() == self.labels@.len()
    }

    /// The rows.
    pub open spec fn rows(self) -> Seq<RowView> {
        Seq::new(
            self.labels@.len(),
            |i: int|
                RowView {
                    label: self.labels@[i]@,
                    item: self.items@[i]@,
                    arrow: self.arrows@[i],
                    icon: string_view(self.icons@[i]),
                },
        )
    }

    pub fn new() -> (m: Menu)
        ensures
            m.wf(),
            m.rows() == Seq::<RowView>::empty(),
    {
        let m = Menu {
            labels: Vec::new(),
            items: Vec::new(),
            arrows: Vec::new(),
            icons: Vec::new(),
        };
        proof {
            assert(m.rows() =~= Seq::empty());
        }
        m
    }

    /// Add a row.
    pub fn push(&mut self, label: String, item: Item, arrow: bool, icon: Option<String>)
        requires
            old(self).wf(),
        ensures
            final(self).wf(),
            final(self).rows() == old(self).rows().push(
                RowView { label: label@, item: item@, arrow, icon: string_view(icon) },
            ),
    {
        self.labels.push(label);
        self.items.push(item);
        self.arrows.push(arrow);
        self.icons.push(icon);
        proof {
            assert(self.rows() =~= old(self).rows().push(
                RowView { label: label@, item: item@, arrow, icon: string_view(icon) },
            ));
        }
    }
}

/// The whole menu tree: rows of the main menu may open submenus by index.
pub struct MenuTree {
    pub main: Menu,
    pub subs: Vec<Menu>,
}

/// How many categories there are.
pub const CATEGORIES: usize = 11;

/// The name of a category, in display order.
pub open spec fn category_name(i: int) -> Seq<char> {
    if i == 0 {
        "AudioVideo"@
    } else if i == 1 {
        "Development"@
    } else if i == 2 {
        "Education"@
    } else if i == 3 {
        "Game"@
    } else if i == 4 {
        "Graphics"@
    } else if i == 5 {
        "Network"@
    } else if i == 6 {
        "Office"@
    } else if i == 7 {
        "Other"@
    } else if i == 8 {
        "Settings"@
    } else if i == 9 {
        "System"@
    } else {
        "Utility"@
    }
}

/// The category for everything that names none.
pub const OTHER: usize = 7;

fn category_str(i: usize) -> (s: &'static str)
    ensures
        s@ == category_name(i as int),
{
    if i == 0 {
        "AudioVideo"
    } else if i == 1 {
        "Development"
    } else if i == 2 {
        "Education"
    } else if i == 3 {
        "Game"
    } else if i == 4 {
        "Graphics"
    } else if i == 5 {
        "Network"
    } else if i == 6 {
        "Office"
    } else if i == 7 {
        "Other"
    } else if i == 8 {
        "Settings"
    } else if i == 9 {
        "System"
    } else {
        "Utility"
    }
}

/// The main category with this name, from the `k`th on. The catch-all is
/// no main category.
pub open spec fn category_from(name: Seq<char>, k: int) -> Option<int>
    decreases 11 - k,
{
    if k >= 11 {
        None
    } else if k != 7 && name == category_name(k) {
        Some(k)
    } else {
        category_from(name, k + 1)
    }
}

/// The first main category among the names from `k` on; the catch-all if
/// none.
pub open spec fn main_category(names: Seq<Seq<char>>, k: int) -> int
    decreases names.len() - k,
{
    if k >= names.len() {
        7
    } else {
        match category_from(names[k], 0) {
            Some(c) => c,
            None => main_category(names, k + 1),
        }
    }
}

fn category_of(name: &str) -> (c: Option<usize>)
    ensures
        match category_from(name@, 0) {
            Some(i) => c is Some && c->0 == i && i < 11,
            None => c is None,
        },
{
    let mut k: usize = 0;
    while k < CATEGORIES
        invariant
            k <= 11,
            category_from(name@, 0) == category_from(name@, k as int),
        decreases 11 - k,
    {
        if k != OTHER && same_str(name, category_str(k)) {
            return Some(k);
        }
        k = k + 1;
    }
    None
}

/// The first main category that a list of categories names.
pub fn first_main_category(cats: &str) -> (c: usize)
    ensures
        c == main_category(fields(cats@, ';'), 0),
        c < CATEGORIES,
{
    let names = split_on(cats, ';');
    let ghost all = fields(cats@, ';');
    let mut k: usize = 0;
    while k < names.len()
        invariant
            k <= names@.len(),
            views(names@) == all,
            main_category(all, 0) == main_category(all, k as int),
            all == fields(cats@, ';'),
        decreases names@.len() - k,
    {
        proof {
            assert(all[k as int] == names@[k as int]@);
        }
        if let Some(c) = category_of(names[k].as_str()) {
            return c;
        }
        k = k + 1;
    }
    OTHER
}

/// The text from `k` on without field codes; a doubled percent sign stands
/// for one.
pub open spec fn cleaned_from(s: Seq<char>, k: int) -> Seq<char>
    decreases s.len() - k,
{
    if k >= s.len() {
        Seq::empty()
    } else if s[k] == '%' {
        if k + 1 < s.len() && s[k + 1] == '%' {
            seq!['%'] + cleaned_from(s, k + 2)
        } else if k + 1 < s.len() {
            cleaned_from(s, k + 2)
        } else {
            Seq::empty()
        }
    } else {
        seq![s[k]] + cleaned_from(s, k + 1)
    }
}

/// A command line without field codes.
pub open spec fn cleaned(s: Seq<char>) -> Seq<char> {
    trim_of(cleaned_from(s, 0))
}

/// Strip the field codes from a command line.
pub fn clean_exec(command: &str) -> (out: String)
    ensures
        out@ == cleaned(command@),
{
    let s = chars_of(command);
    let n: usize = s.len();
    let mut out = String::new();
    let mut k: usize = 0;
    proof {
        assert(out@ + cleaned_from(s@, 0) =~= cleaned_from(s@, 0));
    }
    while k < n
        invariant
            k <= n,
            n == s@.len(),
            out@ + cleaned_from(s@, k as int) == cleaned_from(s@, 0),
        decreases n - k,
    {
        let ghost before = out@;
        if s[k] == '%' {
            if k + 1 >= n {
                proof {
                    assert(out@ + cleaned_from(s@, k as int) =~= out@);
                    assert(cleaned_from(s@, n as int) =~= Seq::empty());
                    assert(out@ + cleaned_from(s@, n as int) =~= out@);
                }
                k = n;
            } else {
                if s[k + 1] == '%' {
                    out.push('%');
                    proof {
                        assert(before + (seq!['%'] + cleaned_from(s@, k + 2)) =~= out@
                            + cleaned_from(s@, k + 2));
                    }
                }
                k = k + 2;
            }
        } else {
            out.push(s[k]);
            proof {
                assert(before + (seq![s@[k as int]] + cleaned_from(s@, k + 1)) =~= out@
                    + cleaned_from(s@, k + 1));
            }
            k = k + 1;
        }
    }
    proof {
        assert(out@ + cleaned_from(s@, k as int) =~= out@);
    }
    trim_str(out.as_str())
}

/// What was read of an entry so far.
pub struct EntryView {
    pub in_entry: bool,
    pub name: Option<Seq<char>>,
    pub command: Option<Seq<char>>,
    pub cats: Seq<char>,
    pub icon: Option<Seq<char>>,
    pub dir: Option<Seq<char>>,
    pub no_display: bool,
    pub hidden: bool,
    pub is_app: bool,
}

struct Entry {
    in_entry: bool,
    name: Option<String>,
    command: Option<String>,
    cats: String,
    icon: Option<String>,
    dir: Option<String>,
    no_display: bool,
    hidden: bool,
    is_app: bool,
}

impl View for Entry {
    type V = EntryView;

    closed spec fn view(&self) -> EntryView {
        EntryView {
            in_entry: self.in_entry,
            name: string_view(self.name),
            command: string_view(self.command),
            cats: self.cats@,
            icon: string_view(self.icon),
            dir: string_view(self.dir),
            no_display: self.no_display,
            hidden: self.hidden,
            is_app: self.is_app,
        }
    }
}

/// An entry before anything was read.
pub open spec fn blank_entry() -> EntryView {
    EntryView {
        in_entry: false,
        name: None,
        command: None,
        cats: Seq::empty(),
        icon: None,
        dir: None,
        no_display: false,
        hidden: false,
        is_app: true,
    }
}

/// The first value of a key stands.
pub open spec fn first_of(was: Option<Seq<char>>, v: Seq<char>) -> Option<Seq<char>> {
    if was is Some {
        was
    } else {
        Some(v)
    }
}

/// What a key and its value change.
pub open spec fn keyed(e: EntryView, key: Seq<char>, v: Seq<char>) -> EntryView {
    if key == "Name"@ {
        EntryView { name: first_of(e.name, v), ..e }
    } else if key == "Exec"@ {
        EntryView { command: first_of(e.command, cleaned(v)), ..e }
    } else if key == "Categories"@ {
        EntryView { cats: v, ..e }
    } else if key == "Icon"@ {
        EntryView { icon: first_of(e.icon, v), ..e }
    } else if key == "Path"@ {
        EntryView { dir: first_of(e.dir, v), ..e }
    } else if key == "NoDisplay"@ {
        EntryView { no_display: fold_eq(v, "true"@), ..e }
    } else if key == "Hidden"@ {
        EntryView { hidden: fold_eq(v, "true"@), ..e }
    } else if key == "Type"@ {
        EntryView { is_app: v == "Application"@, ..e }
    } else {
        e
    }
}

/// What a line, white space around it left out, changes: a group's header
/// says whether the entry's own group follows, and within that a key gets
/// its value.
pub open spec fn lined(e: EntryView, line: Seq<char>) -> EntryView {
    let n = line.len() as int;
    let p = find_from(line, '=', 0, n);
    if n > 0 && line[0] == '[' {
        EntryView { in_entry: line == "[Desktop Entry]"@, ..e }
    } else if !e.in_entry || p >= n {
        e
    } else {
        keyed(e, trimmed(line, 0, p), trimmed(line, p + 1, n))
    }
}

/// What the first `n` lines say.
pub open spec fn entry_to(lines: Seq<Seq<char>>, n: int) -> EntryView
    decreases n,
{
    if n <= 0 {
        blank_entry()
    } else {
        lined(entry_to(lines, n - 1), trim_of(lines[n - 1]))
    }
}

/// What an entry says.
pub open spec fn entry_of(text: Seq<char>) -> EntryView {
    let lines = fields(text, '\n');
    entry_to(lines, lines.len() as int)
}

fn set_first(was: &mut Option<String>, v: String)
    ensures
        string_view(*final(was)) == first_of(string_view(*old(was)), v@),
{
    if was.is_none() {
        *was = Some(v);
    }
}

fn read_key(e: &mut Entry, key: &str, v: String)
    ensures
        final(e)@ == keyed(old(e)@, key@, v@),
{
    if same_str(key, "Name") {
        set_first(&mut e.name, v);
    } else if same_str(key, "Exec") {
        let command = clean_exec(v.as_str());
        set_first(&mut e.command, command);
    } else if same_str(key, "Categories") {
        e.cats = v;
    } else if same_str(key, "Icon") {
        set_first(&mut e.icon, v);
    } else if same_str(key, "Path") {
        set_first(&mut e.dir, v);
    } else if same_str(key, "NoDisplay") {
        e.no_display = eq_ignore_ascii_case(v.as_str(), "true");
    } else if same_str(key, "Hidden") {
        e.hidden = eq_ignore_ascii_case(v.as_str(), "true");
    } else if same_str(key, "Type") {
        e.is_app = same_str(v.as_str(), "Application");
    }
}

fn read_line(e: &mut Entry, line: &str)
    ensures
        final(e)@ == lined(old(e)@, line@),
{
    let s = chars_of(line);
    let n: usize = s.len();
    if n > 0 && s[0] == '[' {
        e.in_entry = same_str(line, "[Desktop Entry]");
        return;
    }
    if !e.in_entry {
        return;
    }
    let p: usize = find_char(&s, '=', 0, n);
    if p >= n {
        return;
    }
    let (a, b) = trim(&s, 0, p);
    let key = slice_string(&s, a, b);
    let (a, b) = trim(&s, p + 1, n);
    let value = slice_string(&s, a, b);
    read_key(e, key.as_str(), value);
}

fn read_entry(text: &str) -> (e: Entry)
    ensures
        e@ == entry_of(text@),
{
    let lines = split_on(text, '\n');
    let ghost all = fields(text@, '\n');
    let mut e = Entry {
        in_entry: false,
        name: None,
        command: None,
        cats: String::new(),
        icon: None,
        dir: None,
        no_display: false,
        hidden: false,
        is_app: true,
    };
    let mut k: usize = 0;
    proof {
        assert(e@ == blank_entry());
    }
    while k < lines.len()
        invariant
            k <= lines@.len(),
            views(lines@) == all,
            e@ == entry_to(all, k as int),
        decreases lines@.len() - k,
    {
        proof {
            assert(all[k as int] == lines@[k as int]@);
        }
        let line = trim_str(lines[k].as_str());
        read_line(&mut e, line.as_str());
        k = k + 1;
    }
    proof {
        assert(views(lines@).len() == lines@.len());
    }
    e
}

/// The application an entry describes, and its category: one that is to be
/// shown, with a name and a command.
pub open spec fn app_of(e: EntryView) -> Option<(AppView, int)> {
    if e.no_display || e.hidden || !e.is_app || e.command is None || e.command->0.len() == 0 || e.name is None {
        None
    } else {
        Some(
            (
                AppView {
                    name: e.name->0,
                    command: e.command->0,
                    icon: if e.icon is Some && e.icon->0.len() == 0 {
                        None
                    } else {
                        e.icon
                    },
                },
                main_category(fields(e.cats, ';'), 0),
            ),
        )
    }
}

/// Read a desktop entry: the application and its category, if it is one to
/// be shown.
pub fn parse_desktop(text: &str) -> (r: Option<(App, usize)>)
    ensures
        match app_of(entry_of(text@)) {
            Some((app, cat)) => r is Some && ({
                let (a, c) = r->0;
                a@ == app && c == cat && c < CATEGORIES
            }),
            None => r is None,
        },
{
    let e = read_entry(text);
    if e.no_display || e.hidden || !e.is_app {
        return None;
    }
    let cat: usize = first_main_category(e.cats.as_str());
    match (e.name, e.command) {
        (Some(name), Some(command)) => {
            if command.as_str().unicode_len() == 0 {
                return None;
            }
            let icon = match e.icon {
                Some(i) => if i.as_str().unicode_len() == 0 {
                    None
                } else {
                    Some(i)
                },
                None => None,
            };
            Some((App { name, command, icon }, cat))
        },
        _ => None,
    }
}

/// The command of an entry, whether or not it is to be shown.
pub open spec fn entry_command_of(e: EntryView) -> Option<Seq<char>> {
    if e.command is None || e.command->0.len() == 0 {
        None
    } else if e.dir is Some && e.dir->0.len() > 0 {
        Some("cd '"@ + e.dir->0 + "' && "@ + e.command->0)
    } else {
        e.command
    }
}

/// The command of a desktop entry: its command line, after a change into
/// its working directory where it asks for one.
pub fn desktop_entry_cmd(text: &str) -> (cmd: Option<String>)
    ensures
        string_view(cmd) == entry_command_of(entry_of(text@)),
{
    let e = read_entry(text);
    match e.command {
        Some(command) => {
            if command.as_str().unicode_len() == 0 {
                return None;
            }
            match e.dir {
                Some(dir) => if dir.as_str().unicode_len() > 0 {
                    let mut cmd = "cd '".to_owned();
                    cmd.append(dir.as_str());
                    cmd.append("' && ");
                    cmd.append(command.as_str());
                    Some(cmd)
                } else {
                    Some(command)
                },
                None => Some(command),
            }
        },
        None => None,
    }
}

/// Those of the names from `k` on that are not empty.
pub open spec fn nonempty_from(names: Seq<Seq<char>>, k: int) -> Seq<Seq<char>>
    decreases names.len() - k,
{
    if k >= names.len() {
        Seq::empty()
    } else if names[k].len() > 0 {
        seq![names[k]] + nonempty_from(names, k + 1)
    } else {
        nonempty_from(names, k + 1)
    }
}

/// The data directories: the user's own first, then the system's.
pub open spec fn data_dirs_of(
    home: Option<Seq<char>>,
    data_home: Option<Seq<char>>,
    dirs: Option<Seq<char>>,
) -> Seq<Seq<char>> {
    let own = match home {
        Some(h) => match data_home {
            Some(d) => seq![d],
            None => seq![h + "/.local/share"@],
        },
        None => Seq::empty(),
    };
    let system = match dirs {
        Some(d) => d,
        None => "/usr/local/share:/usr/share"@,
    };
    own + nonempty_from(fields(system, ':'), 0)
}

/// The data directories, given the variables that are set.
pub fn data_dirs(home: Option<&str>, data_home: Option<&str>, dirs: Option<&str>) -> (out: Vec<
    String,
>)
    ensures
        views(out@) == data_dirs_of(text_view(home), text_view(data_home), text_view(dirs)),
{
    let mut out: Vec<String> = Vec::new();
    if let Some(h) = home {
        match data_home {
            Some(d) => {
                out.push(d.to_owned());
            },
            None => {
                let mut d = h.to_owned();
                d.append("/.local/share");
                out.push(d);
            },
        }
    }
    let ghost own = views(out@);
    proof {
        let first = match text_view(home) {
            Some(h) => match text_view(data_home) {
                Some(d) => seq![d],
                None => seq![h + "/.local/share"@],
            },
            None => Seq::empty(),
        };
        assert(own =~= first);
    }
    let system = match dirs {
        Some(d) => d,
        None => "/usr/local/share:/usr/share",
    };
    let names = split_on(system, ':');
    let ghost all = fields(system@, ':');
    let mut k: usize = 0;
    while k < names.len()
        invariant
            k <= names@.len(),
            views(names@) == all,
            views(out@) + nonempty_from(all, k as int) == own + nonempty_from(all, 0),
        decreases names@.len() - k,
    {
        proof {
            assert(all[k as int] == names@[k as int]@);
        }
        let ghost before = out@;
        if names[k].as_str().unicode_len() > 0 {
            let d = names[k].as_str().to_owned();
            out.push(d);
            proof {
                assert(views(out@) =~= views(before).push(d@));
                assert(views(before) + (seq![d@] + nonempty_from(all, k + 1)) =~= views(out@)
                    + nonempty_from(all, k + 1));
            }
        }
        k = k + 1;
    }
    proof {
        assert(all.len() == names@.len());
        assert(views(out@) + nonempty_from(all, k as int) =~= views(out@));
    }
    out
}

/// Where the desktop entries are.
pub fn app_dirs(home: Option<&str>, data_home: Option<&str>, dirs: Option<&str>) -> (out: Vec<String>)
    ensures
        views(out@) == data_dirs_of(
            text_view(home),
            text_view(data_home),
            text_view(dirs),
        ).map_values(|d: Seq<char>| joined(d, "applications"@)),
{
    let data = data_dirs(home, data_home, dirs);
    let ghost all = views(data@);
    let mut out: Vec<String> = Vec::new();
    let mut k: usize = 0;
    while k < data.len()
        invariant
            k <= data@.len(),
            all == views(data@),
            views(out@) == all.take(k as int).map_values(
                |d: Seq<char>| joined(d, "applications"@),
            ),
        decreases data@.len() - k,
    {
        let ghost before = out@;
        let d = join(data[k].as_str(), "applications");
        out.push(d);
        k = k + 1;
        proof {
            assert(views(out@) =~= views(before).push(d@));
            assert(all.take(k as int) =~= all.take(k - 1).push(all[k - 1]));
            assert(views(out@) =~= all.take(k as int).map_values(
                |d: Seq<char>| joined(d, "applications"@),
            ));
        }
    }
    proof {
        assert(all.take(k as int) =~= all);
    }
    out
}

/// The icon sizes looked for, best first: native, then clean downscales.
pub open spec fn icon_size_name(i: int) -> Seq<char> {
    if i == 0 {
        "16x16"@
    } else if i == 1 {
        "32x32"@
    } else if i == 2 {
        "24x24"@
    } else if i == 3 {
        "22x22"@
    } else if i == 4 {
        "48x48"@
    } else if i == 5 {
        "64x64"@
    } else if i == 6 {
        "128x128"@
    } else {
        "256x256"@
    }
}

fn icon_size_str(i: usize) -> (s: &'static str)
    ensures
        s@ == icon_size_name(i as int),
{
    if i == 0 {
        "16x16"
    } else if i == 1 {
        "32x32"
    } else if i == 2 {
        "24x24"
    } else if i == 3 {
        "22x22"
    } else if i == 4 {
        "48x48"
    } else if i == 5 {
        "64x64"
    } else if i == 6 {
        "128x128"
    } else {
        "256x256"
    }
}

/// An icon of this size in a data directory.
pub open spec fn themed_path(dir: Seq<char>, size: Seq<char>, file: Seq<char>) -> Seq<char> {
    joined(joined(joined(joined(dir, "icons/hicolor"@), size), "apps"@), file)
}

/// The first `n` themed places of a directory.
pub open spec fn themed_to(dir: Seq<char>, file: Seq<char>, n: int) -> Seq<Seq<char>>
    decreases n,
{
    if n <= 0 {
        Seq::empty()
    } else {
        themed_to(dir, file, n - 1).push(themed_path(dir, icon_size_name(n - 1), file))
    }
}

/// The places an icon file is looked for in the first `n` directories.
pub open spec fn places_to(dirs: Seq<Seq<char>>, file: Seq<char>, n: int) -> Seq<Seq<char>>
    decreases n,
{
    if n <= 0 {
        Seq::empty()
    } else {
        places_to(dirs, file, n - 1) + themed_to(dirs[n - 1], file, 8).push(
            joined(joined(dirs[n - 1], "pixmaps"@), file),
        )
    }
}

/// Where the last `c` before `to` is; -1 if none.
pub open spec fn find_last(s: Seq<char>, c: char, to: int) -> int
    decreases to,
{
    if to <= 0 {
        -1
    } else if s[to - 1] == c {
        to - 1
    } else {
        find_last(s, c, to - 1)
    }
}

/// What follows the last slash.
pub open spec fn base_name(s: Seq<char>) -> Seq<char> {
    s.skip(find_last(s, '/', s.len() as int) + 1)
}

fn base_of(s: &str) -> (b: String)
    ensures
        b@ == base_name(s@),
{
    let c = chars_of(s);
    let mut k: usize = c.len();
    while k > 0 && c[k - 1] != '/'
        invariant
            k <= c@.len(),
            find_last(c@, '/', c@.len() as int) == find_last(c@, '/', k as int),
        decreases k,
    {
        k = k - 1;
    }
    let b = slice_string(&c, k, c.len());
    proof {
        assert(find_last(c@, '/', k as int) == k - 1);
        assert(b@ =~= base_name(s@));
    }
    b
}

/// Where the first `to` characters of a path end without the slashes, and
/// the dots behind slashes, that trail them.
pub open spec fn bare_end(s: Seq<char>, to: int) -> int
    decreases to,
{
    if to > 0 && (s[to - 1] == '/' || (to > 1 && s[to - 1] == '.' && s[to - 2] == '/')) {
        bare_end(s, to - 1)
    } else {
        to
    }
}

/// Whether a path names a file with the extension of the one format that
/// is taken.
pub open spec fn is_png(path: Seq<char>) -> bool {
    let b = base_name(path.take(bare_end(path, path.len() as int)));
    b.len() > 4 && b.skip(b.len() - 4) == ".png"@
}

fn names_png(path: &str) -> (p: bool)
    ensures
        p == is_png(path@),
{
    let all = chars_of(path);
    let mut end: usize = all.len();
    while end > 0 && (all[end - 1] == '/' || (end > 1 && all[end - 1] == '.' && all[end - 2]
        == '/'))
        invariant
            end <= all@.len(),
            bare_end(all@, all@.len() as int) == bare_end(all@, end as int),
        decreases end,
    {
        end = end - 1;
    }
    let bare = slice_string(&all, 0, end);
    proof {
        assert(bare@ =~= path@.take(end as int));
    }
    let b = base_of(bare.as_str());
    let c = chars_of(b.as_str());
    if c.len() <= 4 {
        return false;
    }
    proof {
        assert(c@.subrange(c@.len() - 4, c@.len() as int) =~= c@.skip(c@.len() - 4));
    }
    is_text(&c, c.len() - 4, c.len(), ".png")
}

/// The files an icon may be, best first: an absolute path itself, where it
/// has the right extension, or the name in every place of every directory.
pub open spec fn icon_places(icon: Seq<char>, dirs: Seq<Seq<char>>) -> Seq<Seq<char>> {
    if icon.len() > 0 && icon[0] == '/' {
        if is_png(icon) {
            seq![icon]
        } else {
            Seq::empty()
        }
    } else {
        places_to(dirs, icon + ".png"@, dirs.len() as int)
    }
}

/// Whether asking `is_file` about a path can be answered so.
pub open spec fn tells<F: Fn(String) -> bool>(is_file: F, path: Seq<char>, yes: bool) -> bool {
    exists|s: String| s@ == path && #[trigger] call_ensures(is_file, (s,), yes)
}

/// Whether `found` is the first of the places that `is_file` holds of, and
/// nothing if it holds of none.
pub open spec fn found_among<F: Fn(String) -> bool>(
    is_file: F,
    places: Seq<Seq<char>>,
    found: Option<Seq<char>>,
) -> bool {
    match found {
        Some(p) => exists|k: int|
            0 <= k < places.len() && p == #[trigger] places[k] && tells(is_file, places[k], true) && (
            forall|j: int| 0 <= j < k ==> tells(is_file, #[trigger] places[j], false)),
        None => forall|j: int|
            0 <= j < places.len() ==> tells(is_file, #[trigger] places[j], false),
    }
}

/// The first of the places from `k` on that exists.
pub open spec fn first_file(
    places: Seq<Seq<char>>,
    exists_at: spec_fn(Seq<char>) -> bool,
    k: int,
) -> Option<Seq<char>>
    decreases places.len() - k,
{
    if k >= places.len() {
        None
    } else if exists_at(places[k]) {
        Some(places[k])
    } else {
        first_file(places, exists_at, k + 1)
    }
}

/// Where asking about a path always tells whether it exists, what is found
/// is the first place that does.
pub proof fn first_existing_file_is_found<F: Fn(String) -> bool>(
    is_file: F,
    places: Seq<Seq<char>>,
    found: Option<Seq<char>>,
    exists_at: spec_fn(Seq<char>) -> bool,
)
    requires
        found_among(is_file, places, found),
        forall|s: String, yes: bool| #[trigger]
            call_ensures(is_file, (s,), yes) ==> yes == exists_at(s@),
    ensures
        found == first_file(places, exists_at, 0),
{
    let k = match found {
        Some(p) => choose|k: int|
            0 <= k < places.len() && p == #[trigger] places[k] && tells(is_file, places[k], true)
                && (forall|j: int| 0 <= j < k ==> tells(is_file, #[trigger] places[j], false)),
        None => places.len() as int,
    };
    assert forall|j: int| 0 <= j < k implies !exists_at(#[trigger] places[j]) by {
        assert(tells(is_file, places[j], false));
    }
    if found is Some {
        assert(tells(is_file, places[k], true));
        assert(exists_at(places[k]));
    }
    lemma_first_file(places, exists_at, 0, k);
}

proof fn lemma_first_file(
    places: Seq<Seq<char>>,
    exists_at: spec_fn(Seq<char>) -> bool,
    k: int,
    at: int,
)
    requires
        0 <= k <= at <= places.len(),
        forall|j: int| k <= j < at ==> !exists_at(#[trigger] places[j]),
        at < places.len() ==> exists_at(places[at]),
    ensures
        first_file(places, exists_at, k) == (if at < places.len() {
            Some(places[at])
        } else {
            None
        }),
    decreases at - k,
{
    if k < at {
        assert(!exists_at(places[k]));
        lemma_first_file(places, exists_at, k + 1, at);
    }
}

/// Resolve an icon to a file: the first of the files to try that exists,
/// given the data directories. `is_file` tells whether a path names a file.
pub fn find_icon_file<F: Fn(String) -> bool>(
    icon: &str,
    dirs: &Vec<String>,
    is_file: F,
) -> (found: Option<String>)
    requires
        forall|s: String| call_requires(is_file, (s,)),
    ensures
        found_among(is_file, icon_places(icon@, views(dirs@)), string_view(found)),
{
    let places = icon_files(icon, dirs);
    let ghost all = icon_places(icon@, views(dirs@));
    let mut k: usize = 0;
    while k < places.len()
        invariant
            k <= places@.len(),
            views(places@) == all,
            all == icon_places(icon@, views(dirs@)),
            forall|s: String| call_requires(is_file, (s,)),
            forall|j: int| 0 <= j < k ==> tells(is_file, #[trigger] all[j], false),
        decreases places@.len() - k,
    {
        let path = places[k].as_str().to_owned();
        let asked = places[k].as_str().to_owned();
        let ghost name = asked;
        let yes = is_file(asked);
        proof {
            assert(all[k as int] == name@);
            assert(call_ensures(is_file, (name,), yes));
            assert(tells(is_file, all[k as int], yes));
        }
        if yes {
            return Some(path);
        }
        k = k + 1;
    }
    None
}

/// The files to try for an icon, in order, given the data directories.
fn icon_files(icon: &str, dirs: &Vec<String>) -> (out: Vec<String>)
    ensures
        views(out@) == icon_places(icon@, views(dirs@)),
{
    let mut out: Vec<String> = Vec::new();
    if icon.unicode_len() > 0 && icon.get_char(0) == '/' {
        if names_png(icon) {
            out.push(icon.to_owned());
            proof {
                assert(views(out@) =~= seq![icon@]);
            }
        } else {
            proof {
                assert(views(out@) =~= Seq::empty());
            }
        }
        return out;
    }
    let mut file = icon.to_owned();
    file.append(".png");
    let ghost all = views(dirs@);
    let ghost f = file@;
    let mut k: usize = 0;
    proof {
        assert(views(out@) =~= places_to(all, f, 0));
    }
    while k < dirs.len()
        invariant
            k <= dirs@.len(),
            all == views(dirs@),
            f == file@,
            views(out@) == places_to(all, f, k as int),
        decreases dirs@.len() - k,
    {
        let ghost before = views(out@);
        let dir = dirs[k].as_str();
        let mut i: usize = 0;
        proof {
            assert(views(out@) =~= before + themed_to(dir@, f, 0));
        }
        while i < 8
            invariant
                i <= 8,
                f == file@,
                views(out@) == before + themed_to(dir@, f, i as int),
            decreases 8 - i,
        {
            let ghost sofar = views(out@);
            let p = join(dir, "icons/hicolor");
            let p = join(p.as_str(), icon_size_str(i));
            let p = join(p.as_str(), "apps");
            let p = join(p.as_str(), file.as_str());
            out.push(p);
            i = i + 1;
            proof {
                assert(views(out@) =~= sofar.push(p@));
                assert(views(out@) =~= before + themed_to(dir@, f, i as int));
            }
        }
        let ghost sofar = views(out@);
        let p = join(dir, "pixmaps");
        let p = join(p.as_str(), file.as_str());
        out.push(p);
        k = k + 1;
        proof {
            assert(views(out@) =~= sofar.push(p@));
            assert(all[k - 1] == dir@);
            assert(views(out@) =~= places_to(all, f, k as int));
        }
    }
    out
}

/// The lower-case form of a text, as the standard library computes it.
pub uninterp spec fn lowercase(s: Seq<char>) -> Seq<char>;

/// `str::to_lowercase`: the lower-case form of a text, which the text alone
/// decides.
#[verifier::external_body]
fn to_lower(s: &str) -> (t: String)
    ensures
        t@ == lowercase(s@),
{
    s.to_lowercase()
}

/// Whether `a` sorts after `b` from character `k` on, character by
/// character, a longer text after its own beginning.
pub open spec fn after_from(a: Seq<char>, b: Seq<char>, k: int) -> bool
    decreases a.len() - k,
{
    if k >= a.len() {
        false
    } else if k >= b.len() {
        true
    } else if a[k] != b[k] {
        a[k] as int > b[k] as int
    } else {
        after_from(a, b, k + 1)
    }
}

fn comes_after(a: char, b: char) -> (r: bool)
    ensures
        r == (a as int > b as int),
{
    let (x, y) = (a as u32, b as u32);
    x > y
}

fn sorts_after(a: &str, b: &str) -> (r: bool)
    ensures
        r == after_from(a@, b@, 0),
{
    let (x, y) = (chars_of(a), chars_of(b));
    let mut k: usize = 0;
    while k < x.len()
        invariant
            k <= x@.len(),
            x@ == a@,
            y@ == b@,
            after_from(a@, b@, 0) == after_from(a@, b@, k as int),
        decreases x@.len() - k,
    {
        if k >= y.len() {
            return true;
        }
        if x[k] != y[k] {
            return comes_after(x[k], y[k]);
        }
        k = k + 1;
    }
    false
}

/// Where an application goes among the first `k` sorted ones: after every
/// one that does not sort after it.
pub open spec fn place_in(s: Seq<AppView>, key: Seq<char>, k: int) -> int
    decreases k,
{
    if k <= 0 {
        0
    } else if after_from(lowercase(s[k - 1].name), key, 0) {
        place_in(s, key, k - 1)
    } else {
        k
    }
}

/// An application put in its place.
pub open spec fn inserted(s: Seq<AppView>, app: AppView) -> Seq<AppView> {
    s.insert(place_in(s, lowercase(app.name), s.len() as int), app)
}

/// A desktop file: the identity its name gives it, and its text where it
/// could be read.
pub struct DesktopFile {
    pub stem: String,
    pub text: Option<String>,
}

/// Whether one of the first `n` files has this identity.
pub open spec fn seen_in(files: Seq<DesktopFile>, stem: Seq<char>, n: int) -> bool {
    exists|i: int| 0 <= i < n && (#[trigger] files[i]).stem@ == stem
}

/// The application of file `n` and its category: nothing if an earlier file
/// has its identity, if it could not be read, or is not to be shown.
pub open spec fn file_app(files: Seq<DesktopFile>, n: int) -> Option<(AppView, int)> {
    if seen_in(files, files[n].stem@, n) || files[n].text is None {
        None
    } else {
        app_of(entry_of(files[n].text->0@))
    }
}

/// The applications of a category among the first `n` files, sorted by
/// name, ties in the files' order.
pub open spec fn grouped_to(files: Seq<DesktopFile>, cat: int, n: int) -> Seq<AppView>
    decreases n,
{
    if n <= 0 {
        Seq::empty()
    } else {
        let before = grouped_to(files, cat, n - 1);
        match file_app(files, n - 1) {
            Some((app, c)) => if c == cat {
                inserted(before, app)
            } else {
                before
            },
            None => before,
        }
    }
}

/// The views of applications.
pub open spec fn app_views(s: Seq<App>) -> Seq<AppView> {
    s.map_values(|a: App| a@)
}

fn was_seen(files: &Vec<DesktopFile>, n: usize) -> (b: bool)
    requires
        n < files@.len(),
    ensures
        b == seen_in(files@, files@[n as int].stem@, n as int),
{
    let mut k: usize = 0;
    while k < n
        invariant
            k <= n < files@.len(),
            forall|i: int| 0 <= i < k ==> (#[trigger] files@[i]).stem@ != files@[n as int].stem@,
        decreases n - k,
    {
        if same_str(files[k].stem.as_str(), files[n].stem.as_str()) {
            return true;
        }
        k = k + 1;
    }
    false
}

fn insert_app(apps: &mut Vec<App>, app: App)
    ensures
        app_views(final(apps)@) == inserted(app_views(old(apps)@), app@),
{
    let ghost before = app_views(apps@);
    let key = to_lower(app.name.as_str());
    let mut k: usize = apps.len();
    while k > 0 && sorts_after(to_lower(apps[k - 1].name.as_str()).as_str(), key.as_str())
        invariant
            k <= apps@.len(),
            before == app_views(apps@),
            key@ == lowercase(app@.name),
            place_in(before, key@, before.len() as int) == place_in(before, key@, k as int),
        decreases k,
    {
        proof {
            assert(before[k - 1] == apps@[k - 1]@);
        }
        k = k - 1;
    }
    proof {
        if k > 0 {
            assert(before[k - 1] == apps@[k - 1]@);
        }
        assert(place_in(before, key@, k as int) == k);
    }
    apps.insert(k, app);
    proof {
        assert(app_views(apps@) =~= before.insert(k as int, app@));
    }
}

/// Group the desktop files, in the order of their directories: earlier
/// directories win where two files have the same identity. Returns the
/// applications of every category, in display order.
pub fn scan(files: &Vec<DesktopFile>) -> (groups: Vec<Vec<App>>)
    ensures
        groups@.len() == CATEGORIES,
        forall|c: int|
            0 <= c < 11 ==> app_views((#[trigger] groups@[c])@) == grouped_to(
                files@,
                c,
                files@.len() as int,
            ),
{
    let mut groups: Vec<Vec<App>> = Vec::new();
    let mut c: usize = 0;
    while c < CATEGORIES
        invariant
            c <= 11,
            groups@.len() == c,
            forall|i: int| 0 <= i < c ==> (#[trigger] groups@[i])@.len() == 0,
        decreases 11 - c,
    {
        groups.push(Vec::new());
        c = c + 1;
    }
    let mut n: usize = 0;
    proof {
        assert forall|c: int| 0 <= c < 11 implies app_views((#[trigger] groups@[c])@) == grouped_to(
            files@,
            c,
            0,
        ) by {
            assert(app_views(groups@[c]@) =~= Seq::empty());
        }
    }
    while n < files.len()
        invariant
            n <= files@.len(),
            groups@.len() == 11,
            forall|c: int|
                0 <= c < 11 ==> app_views((#[trigger] groups@[c])@) == grouped_to(
                    files@,
                    c,
                    n as int,
                ),
        decreases files@.len() - n,
    {
        let ghost before = groups@;
        if !was_seen(files, n) {
            if let Some(text) = &files[n].text {
                if let Some((app, cat)) = parse_desktop(text.as_str()) {
                    let ghost added = app@;
                    insert_app(&mut groups[cat], app);
                    proof {
                        assert forall|c: int| 0 <= c < 11 implies app_views((#[trigger] groups@[c])@)
                            == grouped_to(files@, c, n + 1) by {
                            assert(app_views(before[c]@) == grouped_to(files@, c, n as int));
                            if c != cat {
                                assert(groups@[c] == before[c]);
                            }
                        }
                    }
                }
            }
        }
        proof {
            assert forall|c: int| 0 <= c < 11 implies app_views((#[trigger] groups@[c])@)
                == grouped_to(files@, c, n + 1) by {
                assert(app_views(before[c]@) == grouped_to(files@, c, n as int));
            }
        }
        n = n + 1;
    }
    groups
}

proof fn lemma_order_chain(a: Seq<char>, b: Seq<char>, c: Seq<char>, k: int)
    requires
        0 <= k,
        !after_from(a, b, k),
        !after_from(b, c, k),
    ensures
        !after_from(a, c, k),
    decreases a.len() - k,
{
    if k < a.len() && k < b.len() && k < c.len() && a[k] == b[k] && b[k] == c[k] {
        lemma_order_chain(a, b, c, k + 1);
    }
}

proof fn lemma_order_total(a: Seq<char>, b: Seq<char>, k: int)
    requires
        0 <= k,
        after_from(a, b, k),
    ensures
        !after_from(b, a, k),
    decreases a.len() - k,
{
    if k < a.len() && k < b.len() && a[k] == b[k] {
        lemma_order_total(a, b, k + 1);
    }
}

/// Whether applications are in the order of their names, case apart.
pub open spec fn in_order(s: Seq<AppView>) -> bool {
    forall|i: int, j: int|
        0 <= i < j < s.len() ==> !after_from(
            lowercase((#[trigger] s[i]).name),
            lowercase((#[trigger] s[j]).name),
            0,
        )
}

proof fn lemma_place(s: Seq<AppView>, key: Seq<char>, k: int)
    requires
        0 <= k <= s.len(),
    ensures
        0 <= place_in(s, key, k) <= k,
        forall|j: int|
            place_in(s, key, k) <= j < k ==> after_from(lowercase((#[trigger] s[j]).name), key, 0),
        place_in(s, key, k) > 0 ==> !after_from(
            lowercase(s[place_in(s, key, k) - 1].name),
            key,
            0,
        ),
    decreases k,
{
    if k > 0 && after_from(lowercase(s[k - 1].name), key, 0) {
        lemma_place(s, key, k - 1);
    }
}

proof fn lemma_inserted_in_order(s: Seq<AppView>, app: AppView)
    requires
        in_order(s),
    ensures
        in_order(inserted(s, app)),
{
    let key = lowercase(app.name);
    let p = place_in(s, key, s.len() as int);
    lemma_place(s, key, s.len() as int);
    let t = inserted(s, app);
    assert forall|i: int, j: int| 0 <= i < j < t.len() implies !after_from(
        lowercase((#[trigger] t[i]).name),
        lowercase((#[trigger] t[j]).name),
        0,
    ) by {
        if j == p {
            assert(t[i] == s[i] && t[j] == app);
            if i < p - 1 {
                assert(!after_from(lowercase(s[i].name), lowercase(s[p - 1].name), 0));
                lemma_order_chain(
                    lowercase(s[i].name),
                    lowercase(s[p - 1].name),
                    key,
                    0,
                );
            }
        } else if i == p {
            assert(t[i] == app && t[j] == s[j - 1]);
            assert(after_from(lowercase(s[j - 1].name), key, 0));
            lemma_order_total(lowercase(s[j - 1].name), key, 0);
        } else {
            let i0 = if i < p {
                i
            } else {
                i - 1
            };
            let j0 = if j < p {
                j
            } else {
                j - 1
            };
            assert(t[i] == s[i0] && t[j] == s[j0]);
        }
    }
}

/// The applications of a category are listed by name, case apart.
pub proof fn applications_are_listed_by_name(files: Seq<DesktopFile>, cat: int, n: int)
    requires
        0 <= n <= files.len(),
    ensures
        in_order(grouped_to(files, cat, n)),
    decreases n,
{
    if n > 0 {
        applications_are_listed_by_name(files, cat, n - 1);
        if let Some((app, c)) = file_app(files, n - 1) {
            if c == cat {
                lemma_inserted_in_order(grouped_to(files, cat, n - 1), app);
            }
        }
    }
}

/// The first word of a text: from the first character that is no white
/// space up to the next that is.
pub open spec fn word_end(s: Seq<char>, k: int) -> int
    decreases s.len() - k,
{
    if k >= s.len() || is_white(s[k]) {
        k
    } else {
        word_end(s, k + 1)
    }
}

/// Where the first word starts.
pub open spec fn word_start(s: Seq<char>, k: int) -> int
    decreases s.len() - k,
{
    if k < s.len() && is_white(s[k]) {
        word_start(s, k + 1)
    } else {
        k
    }
}

/// The first word of a text, empty if there is none.
pub open spec fn first_word(s: Seq<char>) -> Seq<char> {
    let a = word_start(s, 0);
    s.subrange(a, word_end(s, a))
}

fn word_of(s: &str) -> (w: String)
    ensures
        w@ == first_word(s@),
{
    let c = chars_of(s);
    let mut a: usize = 0;
    while a < c.len() && white(c[a])
        invariant
            a <= c@.len(),
            word_start(c@, 0) == word_start(c@, a as int),
        decreases c@.len() - a,
    {
        a = a + 1;
    }
    let mut b: usize = a;
    while b < c.len() && !white(c[b])
        invariant
            a <= b <= c@.len(),
            word_end(c@, a as int) == word_end(c@, b as int),
        decreases c@.len() - b,
    {
        b = b + 1;
    }
    slice_string(&c, a, b)
}

/// The icon of the first application from `k` on that starts the program
/// `bin` and has one.
pub open spec fn app_icon_from(apps: Seq<AppView>, bin: Seq<char>, k: int) -> Option<Seq<char>>
    decreases apps.len() - k,
{
    if k >= apps.len() {
        None
    } else if base_name(first_word(apps[k].command)) == bin && apps[k].icon is Some {
        apps[k].icon
    } else {
        app_icon_from(apps, bin, k + 1)
    }
}

/// The same over the groups from `g` on.
pub open spec fn group_icon_from(groups: Seq<Seq<AppView>>, bin: Seq<char>, g: int) -> Option<
    Seq<char>,
>
    decreases groups.len() - g,
{
    if g >= groups.len() {
        None
    } else if app_icon_from(groups[g], bin, 0) is Some {
        app_icon_from(groups[g], bin, 0)
    } else {
        group_icon_from(groups, bin, g + 1)
    }
}

/// The views of groups of applications.
pub open spec fn group_views(s: Seq<Vec<App>>) -> Seq<Seq<AppView>> {
    s.map_values(|g: Vec<App>| app_views(g@))
}

/// The icon of a quick-launch command: that of an application that starts
/// the same program, else the program's own name. None for a command
/// without a program.
pub open spec fn quick_icon_of(groups: Seq<Seq<AppView>>, cmd: Seq<char>) -> Option<Seq<char>> {
    let prog = first_word(cmd);
    if prog.len() == 0 {
        None
    } else {
        let bin = base_name(prog);
        match group_icon_from(groups, bin, 0) {
            Some(icon) => Some(icon),
            None => Some(bin),
        }
    }
}

fn app_icon(apps: &Vec<App>, bin: &str) -> (icon: Option<String>)
    ensures
        string_view(icon) == app_icon_from(app_views(apps@), bin@, 0),
{
    let ghost all = app_views(apps@);
    let mut k: usize = 0;
    while k < apps.len()
        invariant
            k <= apps@.len(),
            all == app_views(apps@),
            app_icon_from(all, bin@, 0) == app_icon_from(all, bin@, k as int),
        decreases apps@.len() - k,
    {
        proof {
            assert(all[k as int] == apps@[k as int]@);
        }
        let prog = word_of(apps[k].command.as_str());
        let base = base_of(prog.as_str());
        if same_str(base.as_str(), bin) {
            if let Some(icon) = &apps[k].icon {
                return Some(icon.as_str().to_owned());
            }
        }
        k = k + 1;
    }
    None
}

/// The icon of a quick-launch command.
pub fn quick_icon(groups: &Vec<Vec<App>>, cmd: &str) -> (icon: Option<String>)
    ensures
        string_view(icon) == quick_icon_of(group_views(groups@), cmd@),
{
    let prog = word_of(cmd);
    if prog.as_str().unicode_len() == 0 {
        return None;
    }
    let bin = base_of(prog.as_str());
    let ghost all = group_views(groups@);
    let mut g: usize = 0;
    while g < groups.len()
        invariant
            g <= groups@.len(),
            all == group_views(groups@),
            prog@ == first_word(cmd@),
            prog@.len() > 0,
            bin@ == base_name(prog@),
            group_icon_from(all, bin@, 0) == group_icon_from(all, bin@, g as int),
        decreases groups@.len() - g,
    {
        proof {
            assert(all[g as int] == app_views(groups@[g as int]@));
        }
        let icon = app_icon(&groups[g], bin.as_str());
        if icon.is_some() {
            return icon;
        }
        g = g + 1;
    }
    Some(bin)
}

/// A shortcut at the end of the main menu: its label and its command.
pub struct Quick {
    pub label: String,
    pub cmd: String,
}

/// The row of an application.
pub open spec fn app_row(a: AppView) -> RowView {
    RowView { label: a.name, item: ItemView::Launch(a.command), arrow: false, icon: a.icon }
}

/// The main menu's rows and the submenus for the first `n` categories:
/// those that hold an application, each opening its own submenu.
pub open spec fn category_rows(groups: Seq<Seq<AppView>>, n: int) -> (
    Seq<RowView>,
    Seq<Seq<RowView>>,
)
    decreases n,
{
    if n <= 0 {
        (Seq::empty(), Seq::empty())
    } else {
        let (rows, subs) = category_rows(groups, n - 1);
        if groups[n - 1].len() == 0 {
            (rows, subs)
        } else {
            (
                rows.push(
                    RowView {
                        label: category_name(n - 1),
                        item: ItemView::Submenu(subs.len() as usize),
                        arrow: true,
                        icon: None,
                    },
                ),
                subs.push(groups[n - 1].map_values(|a: AppView| app_row(a))),
            )
        }
    }
}

/// The rows of the first `n` shortcuts.
pub open spec fn quick_rows(groups: Seq<Seq<AppView>>, quick: Seq<Quick>, n: int) -> Seq<RowView>
    decreases n,
{
    if n <= 0 {
        Seq::empty()
    } else {
        quick_rows(groups, quick, n - 1).push(
            RowView {
                label: quick[n - 1].label@,
                item: ItemView::Launch(quick[n - 1].cmd@),
                arrow: false,
                icon: quick_icon_of(groups, quick[n - 1].cmd@),
            },
        )
    }
}

/// The divider.
pub open spec fn divider() -> RowView {
    RowView { label: Seq::empty(), item: ItemView::Separator, arrow: false, icon: None }
}

/// The rows of the submenus.
pub open spec fn sub_rows(subs: Seq<Menu>) -> Seq<Seq<RowView>> {
    subs.map_values(|m: Menu| m.rows())
}

fn app_menu(apps: Vec<App>) -> (m: Menu)
    ensures
        m.wf(),
        m.rows() == app_views(apps@).map_values(|a: AppView| app_row(a)),
{
    let mut m = Menu::new();
    let ghost all = app_views(apps@);
    let mut k: usize = 0;
    proof {
        assert(all.take(0).map_values(|a: AppView| app_row(a)) =~= Seq::empty());
    }
    while k < apps.len()
        invariant
            k <= apps@.len(),
            m.wf(),
            all == app_views(apps@),
            m.rows() == all.take(k as int).map_values(|a: AppView| app_row(a)),
        decreases apps@.len() - k,
    {
        let a = &apps[k];
        let icon = match &a.icon {
            Some(i) => Some(i.as_str().to_owned()),
            None => None,
        };
        let ghost before = m.rows();
        m.push(a.name.as_str().to_owned(), Item::Launch(a.command.as_str().to_owned()), false, icon);
        k = k + 1;
        proof {
            assert(all[k - 1] == apps@[k - 1]@);
            assert(m.rows() =~= before.push(app_row(all[k - 1])));
            assert(all.take(k as int) =~= all.take(k - 1).push(all[k - 1]));
            assert(m.rows() =~= all.take(k as int).map_values(|a: AppView| app_row(a)));
        }
    }
    proof {
        assert(all.take(k as int) =~= all);
    }
    m
}

/// Build the menu tree over the scanned applications and the shortcuts: a
/// submenu for every category that holds something, a divider, then the
/// shortcuts.
pub fn build(groups: Vec<Vec<App>>, quick: &Vec<Quick>) -> (tree: MenuTree)
    requires
        groups@.len() == CATEGORIES,
    ensures
        tree.main.wf(),
        forall|i: int| 0 <= i < tree.subs@.len() ==> (#[trigger] tree.subs@[i]).wf(),
        ({
            let g = group_views(groups@);
            let (rows, subs) = category_rows(g, 11);
            &&& tree.main.rows() == rows.push(divider()) + quick_rows(g, quick@, quick@.len() as int)
            &&& sub_rows(tree.subs@) == subs
        }),
{
    let ghost g = group_views(groups@);
    let mut icons: Vec<Option<String>> = Vec::new();
    let mut k: usize = 0;
    while k < quick.len()
        invariant
            k <= quick@.len(),
            g == group_views(groups@),
            icons@.len() == k,
            forall|i: int|
                0 <= i < k ==> string_view(#[trigger] icons@[i]) == quick_icon_of(g, quick@[i].cmd@),
        decreases quick@.len() - k,
    {
        icons.push(quick_icon(&groups, quick[k].cmd.as_str()));
        k = k + 1;
    }
    let mut main = Menu::new();
    let mut subs: Vec<Menu> = Vec::new();
    let mut groups = groups;
    let mut n: usize = 0;
    proof {
        assert(sub_rows(subs@) =~= Seq::empty());
    }
    while n < CATEGORIES
        invariant
            n <= 11,
            g.len() == 11,
            groups@.len() == 11,
            main.wf(),
            subs@.len() <= n,
            forall|i: int| 0 <= i < subs@.len() ==> (#[trigger] subs@[i]).wf(),
            forall|i: int| n <= i < 11 ==> app_views((#[trigger] groups@[i])@) == g[i],
            (main.rows(), sub_rows(subs@)) == category_rows(g, n as int),
        decreases 11 - n,
    {
        proof {
            assert(app_views(groups@[n as int]@) == g[n as int]);
        }
        let mut apps: Vec<App> = Vec::new();
        std::mem::swap(&mut apps, &mut groups[n]);
        if apps.len() > 0 {
            let idx: usize = subs.len();
            let ghost before = subs@;
            let sub = app_menu(apps);
            subs.push(sub);
            main.push(category_str(n).to_owned(), Item::Submenu(idx), true, None);
            proof {
                assert(sub_rows(subs@) =~= sub_rows(before).push(sub.rows()));
                assert(sub_rows(before).len() == before.len());
            }
        }
        n = n + 1;
    }
    main.push(String::new(), Item::Separator, false, None);
    let ghost front = main.rows();
    proof {
        let (rows, s) = category_rows(g, 11);
        assert(front =~= rows.push(divider()));
        assert(front + quick_rows(g, quick@, 0) =~= front);
    }
    let mut k: usize = 0;
    while k < quick.len()
        invariant
            k <= quick@.len(),
            main.wf(),
            icons@.len() == quick@.len(),
            forall|i: int|
                0 <= i < icons@.len() ==> string_view(#[trigger] icons@[i]) == quick_icon_of(
                    g,
                    quick@[i].cmd@,
                ),
            main.rows() == front + quick_rows(g, quick@, k as int),
        decreases quick@.len() - k,
    {
        let icon = match &icons[k] {
            Some(i) => Some(i.as_str().to_owned()),
            None => None,
        };
        let ghost before = main.rows();
        main.push(
            quick[k].label.as_str().to_owned(),
            Item::Launch(quick[k].cmd.as_str().to_owned()),
            false,
            icon,
        );
        k = k + 1;
        proof {
            assert(main.rows() =~= front + quick_rows(g, quick@, k as int));
        }
    }
    MenuTree { main, subs }
}

proof fn lemma_category_rows(groups: Seq<Seq<AppView>>, n: int)
    requires
        0 <= n <= groups.len(),
        groups.len() <= CATEGORIES,
    ensures
        category_rows(groups, n).1.len() <= n,
        forall|i: int|
            0 <= i < category_rows(groups, n).0.len() ==> ({
                let row = #[trigger] category_rows(groups, n).0[i];
                row.item matches ItemView::Submenu(s) && s < category_rows(groups, n).1.len()
                    && category_rows(groups, n).1[s as int].len() > 0
            }),
    decreases n,
{
    if n > 0 {
        lemma_category_rows(groups, n - 1);
        let (rows0, subs0) = category_rows(groups, n - 1);
        let (rows, subs) = category_rows(groups, n);
        assert forall|i: int| 0 <= i < rows.len() implies ({
            let row = #[trigger] rows[i];
            row.item matches ItemView::Submenu(s) && s < subs.len() && subs[s as int].len() > 0
        }) by {
            if i < rows0.len() {
                assert(rows[i] == rows0[i]);
                let s = rows0[i].item->Submenu_0;
                assert(subs[s as int] == subs0[s as int]);
            }
        }
    }
}

/// Every row that opens a submenu opens one that is there and is not
/// empty.
pub proof fn submenus_are_never_empty(groups: Seq<Seq<AppView>>, i: int)
    requires
        groups.len() == CATEGORIES,
        0 <= i < category_rows(groups, 11).0.len(),
    ensures
        ({
            let (rows, subs) = category_rows(groups, 11);
            rows[i].item matches ItemView::Submenu(s) && s < subs.len() && subs[s as int].len() > 0
        }),
{
    lemma_category_rows(groups, 11);
    let row = category_rows(groups, 11).0[i];
}

} // verus!
