//! What the application menu promises.

use super::{
    after_from, app_icon_from, app_of, app_row, bare_end, base_name, category_from, category_name,
    category_rows, cleaned_from, data_dirs_of, divider, entry_command_of, file_app, find_last,
    first_word, framed_h, framed_w, grouped_to, icon_places, is_png, keyed, lined, main_category,
    place_in, places_to, quick_icon_of, quick_rows, themed_to, word_end, word_start, AppView,
    DesktopFile, EntryView, ItemView, Quick, MENU_BORDER, MENU_ROW_H,
};
use crate::text::{find_from, fold_eq, is_white};
use vstd::prelude::*;

verus! {

/// Law: a menu is its content with a border all round, and every row more
/// makes it one row higher.
pub proof fn menus_have_a_border_all_round(w: int, rows: int)
    ensures
        framed_w(w) == MENU_BORDER + w + MENU_BORDER,
        framed_h(rows + 1) == framed_h(rows) + MENU_ROW_H,
        framed_h(0) == MENU_BORDER + MENU_BORDER,
{
}

// --- reading entries ---

/// Law: an entry is filed under the first main category it names, and under
/// "other" where it names none.
pub proof fn the_first_main_category_decides(names: Seq<Seq<char>>, k: int, i: int)
    requires
        0 <= k <= i <= names.len(),
        forall|j: int| k <= j < i ==> category_from(#[trigger] names[j], 0) is None,
        i < names.len() ==> category_from(names[i], 0) is Some,
    ensures
        i < names.len() ==> main_category(names, k) == category_from(names[i], 0)->0,
        i == names.len() ==> main_category(names, k) == 7,
    decreases i - k,
{
    if k < i {
        the_first_main_category_decides(names, k + 1, i);
    }
}

/// Law: a command is kept letter by letter but for its field codes: a percent
/// sign and the letter after it are left out, and two percent signs are one.
pub proof fn field_codes_are_left_out(s: Seq<char>, k: int)
    requires
        0 <= k < s.len(),
    ensures
        s[k] != '%' ==> cleaned_from(s, k) == seq![s[k]] + cleaned_from(s, k + 1),
        s[k] == '%' && k + 1 < s.len() && s[k + 1] == '%' ==> cleaned_from(s, k) == seq!['%']
            + cleaned_from(s, k + 2),
        s[k] == '%' && k + 1 < s.len() && s[k + 1] != '%' ==> cleaned_from(s, k) == cleaned_from(
            s,
            k + 2,
        ),
        s[k] == '%' && k + 1 == s.len() ==> cleaned_from(s, k) == Seq::<char>::empty(),
{
}

/// Law: a command without field codes is kept as it is.
pub proof fn plain_commands_are_kept(s: Seq<char>, k: int)
    requires
        0 <= k <= s.len(),
        forall|i: int| k <= i < s.len() ==> s[i] != '%',
    ensures
        cleaned_from(s, k) == s.skip(k),
    decreases s.len() - k,
{
    if k < s.len() {
        plain_commands_are_kept(s, k + 1);
        assert(seq![s[k]] + s.skip(k + 1) =~= s.skip(k));
    } else {
        assert(s.skip(k) =~= Seq::<char>::empty());
    }
}

/// Law: only the lines of the entry itself count: outside it no line changes
/// anything but a heading, and a line without an equals sign says nothing.
pub proof fn only_the_entrys_own_lines_count(e: EntryView, line: Seq<char>)
    requires
        line.len() > 0,
        line[0] != '[',
    ensures
        !e.in_entry ==> lined(e, line) == e,
        find_from(line, '=', 0, line.len() as int) >= line.len() ==> lined(e, line) == e,
        lined(e, line).in_entry == e.in_entry,
{
}

/// Law: the first name, command, icon and directory an entry states stand;
/// the last category list, the last visibility and the last type do.
pub proof fn first_values_stand(e: EntryView, v: Seq<char>, w: Seq<char>)
    ensures
        e.name is None ==> keyed(keyed(e, "Name"@, v), "Name"@, w).name == Some(v),
        e.icon is None ==> keyed(keyed(e, "Icon"@, v), "Icon"@, w).icon == Some(v),
        e.dir is None ==> keyed(keyed(e, "Path"@, v), "Path"@, w).dir == Some(v),
        e.command is None ==> keyed(e, "Exec"@, v).command is Some && keyed(
            keyed(e, "Exec"@, v),
            "Exec"@,
            w,
        ).command == keyed(e, "Exec"@, v).command,
        keyed(keyed(e, "Categories"@, v), "Categories"@, w).cats == w,
        keyed(e, "NoDisplay"@, v).no_display <==> fold_eq(v, "true"@),
        keyed(e, "Hidden"@, v).hidden <==> fold_eq(v, "true"@),
        keyed(e, "Type"@, v).is_app <==> v == "Application"@,
        keyed(e, "Name"@, v).command == e.command && keyed(e, "Name"@, v).icon == e.icon,
{
    reveal_strlit("Name");
    reveal_strlit("Exec");
    reveal_strlit("Categories");
    reveal_strlit("Icon");
    reveal_strlit("Path");
    reveal_strlit("NoDisplay");
    reveal_strlit("Hidden");
    reveal_strlit("Type");
    assert("Exec"@[0] != "Name"@[0]);
    assert("Icon"@[0] != "Name"@[0] && "Icon"@[0] != "Exec"@[0]);
    assert("Path"@[0] != "Name"@[0] && "Path"@[0] != "Exec"@[0] && "Path"@[0] != "Icon"@[0]);
    assert("Type"@[0] != "Name"@[0] && "Type"@[0] != "Exec"@[0] && "Type"@[0] != "Icon"@[0]
        && "Type"@[0] != "Path"@[0]);
    assert("Categories"@.len() == 10);
    assert("NoDisplay"@.len() == 9);
    assert("Hidden"@.len() == 6);
}

/// Law: an entry is an application of the menu exactly where it is one, has a
/// name and a command, and is neither hidden nor kept off display.
pub proof fn only_visible_applications_are_listed(e: EntryView)
    ensures
        app_of(e) is Some ==> e.is_app && !e.hidden && !e.no_display && e.name is Some
            && e.command is Some && e.command->0.len() > 0,
        app_of(e) is Some ==> (app_of(e)->0).0.name == e.name->0 && (app_of(e)->0).0.command
            == e.command->0,
        app_of(e) is Some && e.icon is Some && e.icon->0.len() > 0 ==> (app_of(e)->0).0.icon
            == e.icon,
        app_of(e) is Some && (e.icon is None || e.icon->0.len() == 0) ==> (app_of(e)->0).0.icon
            is None,
        e.is_app && !e.hidden && !e.no_display && e.name is Some && e.name->0.len() > 0
            && e.command is Some && e.command->0.len() > 0 ==> app_of(e) is Some,
{
}

/// Law: an entry's command is run from the directory it names, and as it is
/// where it names none.
pub proof fn entries_run_from_their_directory(e: EntryView)
    requires
        e.command is Some,
        e.command->0.len() > 0,
    ensures
        e.dir is None || e.dir->0.len() == 0 ==> entry_command_of(e) == e.command,
        e.dir is Some && e.dir->0.len() > 0 ==> entry_command_of(e) == Some(
            "cd '"@ + e.dir->0 + "' && "@ + e.command->0,
        ),
{
}

// --- looking things up ---

/// Law: the user's own data comes before the system's: below the directory
/// named for it, else below the home directory, and nowhere without one.
pub proof fn own_data_comes_first(home: Seq<char>, own: Seq<char>, dirs: Option<Seq<char>>)
    ensures
        data_dirs_of(Some(home), Some(own), dirs)[0] == own,
        data_dirs_of(Some(home), None, dirs)[0] == home + "/.local/share"@,
        data_dirs_of(Some(home), Some(own), dirs).skip(1) == data_dirs_of(None, None, dirs),
        data_dirs_of(None, Some(own), dirs) == data_dirs_of(None, None, dirs),
        data_dirs_of(None, None, None) == data_dirs_of(
            None,
            None,
            Some("/usr/local/share:/usr/share"@),
        ),
{
    assert(data_dirs_of(Some(home), Some(own), dirs).skip(1) =~= data_dirs_of(None, None, dirs));
}

proof fn lemma_themed_len(dir: Seq<char>, file: Seq<char>, n: int)
    requires
        0 <= n,
    ensures
        themed_to(dir, file, n).len() == n,
    decreases n,
{
    if n > 0 {
        lemma_themed_len(dir, file, n - 1);
    }
}

/// Law: an icon's name is looked for as a picture file below each data
/// directory in turn, nine places in each; a path is looked for as it is and
/// nowhere else.
pub proof fn icons_are_looked_for_in_turn(icon: Seq<char>, dirs: Seq<Seq<char>>, n: int)
    requires
        0 <= n <= dirs.len(),
    ensures
        icon.len() > 0 && icon[0] == '/' ==> icon_places(icon, dirs).len() <= 1,
        icon.len() > 0 && icon[0] == '/' && icon_places(icon, dirs).len() == 1 ==> icon_places(
            icon,
            dirs,
        )[0] == icon,
        places_to(dirs, icon, n).len() == 9 * n,
        n > 0 ==> places_to(dirs, icon, n).take(9 * (n - 1)) == places_to(dirs, icon, n - 1),
        icon.len() > 0 && icon[0] != '/' ==> icon_places(icon, dirs) == places_to(
            dirs,
            icon + ".png"@,
            dirs.len() as int,
        ),
    decreases n,
{
    if n > 0 {
        icons_are_looked_for_in_turn(icon, dirs, n - 1);
        lemma_themed_len(dirs[n - 1], icon, 8);
        assert(places_to(dirs, icon, n).take(9 * (n - 1)) =~= places_to(dirs, icon, n - 1));
    }
}

proof fn lemma_find_last(s: Seq<char>, c: char, to: int)
    requires
        0 <= to <= s.len(),
    ensures
        -1 <= find_last(s, c, to) < to,
        find_last(s, c, to) >= 0 ==> s[find_last(s, c, to)] == c,
        forall|i: int| find_last(s, c, to) < i < to ==> s[i] != c,
    decreases to,
{
    if to > 0 && s[to - 1] != c {
        lemma_find_last(s, c, to - 1);
    }
}

/// Law: a file's name is all that follows the last slash of its path.
pub proof fn names_follow_the_last_slash(dir: Seq<char>, name: Seq<char>)
    requires
        forall|i: int| 0 <= i < name.len() ==> name[i] != '/',
    ensures
        base_name(dir + seq!['/'] + name) == name,
        base_name(name) == name,
{
    let s = dir + seq!['/'] + name;
    let p = find_last(s, '/', s.len() as int);
    lemma_find_last(s, '/', s.len() as int);
    assert(s[dir.len() as int] == '/');
    if p > dir.len() {
        assert(s[p] == name[p - dir.len() - 1]);
    }
    assert(s.skip(dir.len() as int + 1) =~= name);
    lemma_find_last(name, '/', name.len() as int);
    assert(name.skip(0) =~= name);
}

proof fn lemma_word_end(s: Seq<char>, k: int, e: int)
    requires
        0 <= k <= e <= s.len(),
        forall|i: int| k <= i < e ==> !is_white(#[trigger] s[i]),
        e < s.len() ==> is_white(s[e]),
    ensures
        word_end(s, k) == e,
    decreases e - k,
{
    if k < e {
        lemma_word_end(s, k + 1, e);
    }
}

/// Law: a command's first word is what stands before its first white space.
pub proof fn programs_are_the_first_word(word: Seq<char>, rest: Seq<char>)
    requires
        word.len() > 0,
        forall|i: int| 0 <= i < word.len() ==> !is_white(#[trigger] word[i]),
        rest.len() > 0 ==> is_white(rest[0]),
    ensures
        first_word(word + rest) == word,
{
    let s = word + rest;
    assert(s[0] == word[0]);
    assert(!is_white(word[0]));
    assert(word_start(s, 0) == 0);
    assert forall|i: int| 0 <= i < word.len() implies !is_white(#[trigger] s[i]) by {
        assert(s[i] == word[i]);
    }
    if rest.len() > 0 {
        assert(s[word.len() as int] == rest[0]);
    }
    lemma_word_end(s, 0, word.len() as int);
    assert(s.subrange(0, word.len() as int) =~= word);
}

/// Law: of the applications that run a program the first with an icon lends
/// its icon; where none does, the program's own name is looked for.
pub proof fn quick_icons_come_from_applications(
    apps: Seq<AppView>,
    bin: Seq<char>,
    k: int,
    i: int,
)
    requires
        0 <= k <= i <= apps.len(),
        forall|j: int|
            k <= j < i ==> base_name(first_word((#[trigger] apps[j]).command)) != bin
                || apps[j].icon is None,
        i < apps.len() ==> base_name(first_word(apps[i].command)) == bin && apps[i].icon is Some,
    ensures
        i < apps.len() ==> app_icon_from(apps, bin, k) == apps[i].icon,
        i == apps.len() ==> app_icon_from(apps, bin, k) is None,
    decreases i - k,
{
    if k < i {
        quick_icons_come_from_applications(apps, bin, k + 1, i);
    }
}

// --- the menu itself ---

proof fn lemma_place_in(s: Seq<AppView>, key: Seq<char>, k: int)
    requires
        0 <= k <= s.len(),
    ensures
        0 <= place_in(s, key, k) <= k,
    decreases k,
{
    if k > 0 {
        lemma_place_in(s, key, k - 1);
    }
}

/// Law: every application that a file states is listed under its category,
/// and a file whose name was seen before states none.
pub proof fn every_application_is_listed(
    files: Seq<DesktopFile>,
    cat: int,
    n: int,
    i: int,
    app: AppView,
)
    requires
        0 <= i < n <= files.len(),
        file_app(files, i) == Some((app, cat)),
    ensures
        grouped_to(files, cat, n).contains(app),
        forall|j: int| 0 <= j < i ==> (#[trigger] files[j]).stem@ != files[i].stem@,
    decreases n,
{
    let before = grouped_to(files, cat, n - 1);
    let all = grouped_to(files, cat, n);
    assert forall|j: int| 0 <= j < i implies (#[trigger] files[j]).stem@ != files[i].stem@ by {
        if files[j].stem@ == files[i].stem@ {
            assert(super::seen_in(files, files[i].stem@, i));
        }
    }
    if i == n - 1 {
        let at = place_in(before, super::lowercase(app.name), before.len() as int);
        lemma_place_in(before, super::lowercase(app.name), before.len() as int);
        assert(all[at] == app);
    } else {
        every_application_is_listed(files, cat, n - 1, i, app);
        let k = choose|k: int| 0 <= k < before.len() && before[k] == app;
        match file_app(files, n - 1) {
            Some((other, c)) => {
                if c == cat {
                    let at = place_in(before, super::lowercase(other.name), before.len() as int);
                    lemma_place_in(before, super::lowercase(other.name), before.len() as int);
                    if k < at {
                        assert(all[k] == app);
                    } else {
                        assert(all[k + 1] == app);
                    }
                }
            },
            None => {},
        }
    }
}

/// Law: a quick entry's row runs its command under its own label; an
/// application's row runs the application.
pub proof fn rows_run_what_they_name(
    groups: Seq<Seq<AppView>>,
    quick: Seq<Quick>,
    n: int,
    i: int,
    a: AppView,
)
    requires
        0 <= i < n <= quick.len(),
    ensures
        quick_rows(groups, quick, n).len() == n,
        ({
            let row = quick_rows(groups, quick, n)[i];
            &&& row.label == quick[i].label@
            &&& row.item == ItemView::Launch(quick[i].cmd@)
            &&& !row.arrow
            &&& row.icon == quick_icon_of(groups, quick[i].cmd@)
        }),
        app_row(a).label == a.name,
        app_row(a).item == ItemView::Launch(a.command),
        app_row(a).icon == a.icon,
        !app_row(a).arrow,
        divider().item is Separator,
    decreases n,
{
    if n > 1 {
        rows_run_what_they_name(
            groups,
            quick,
            n - 1,
            if i < n - 1 {
                i
            } else {
                0
            },
            a,
        );
    } else {
        assert(quick_rows(groups, quick, 0).len() == 0);
    }
}

/// Law: a file that could not be read states no application.
pub proof fn unread_files_state_nothing(files: Seq<DesktopFile>, n: int)
    requires
        0 <= n < files.len(),
        files[n].text is None,
    ensures
        file_app(files, n) is None,
{
}

/// Law: names are sorted as in a dictionary: the first character in which
/// they differ decides, and a beginning comes before what it begins.
pub proof fn the_first_difference_decides(a: Seq<char>, b: Seq<char>, k: int, i: int)
    requires
        0 <= k <= i <= a.len(),
        i <= b.len(),
        forall|j: int| k <= j < i ==> a[j] == b[j],
    ensures
        i < a.len() && i == b.len() ==> after_from(a, b, k),
        i == a.len() ==> !after_from(a, b, k),
        i < a.len() && i < b.len() && a[i] as int > b[i] as int ==> after_from(a, b, k),
        i < a.len() && i < b.len() && (a[i] as int) < b[i] as int ==> !after_from(a, b, k),
    decreases i - k,
{
    if k < i {
        the_first_difference_decides(a, b, k + 1, i);
    }
}

/// Law: the categories stand in the order of their names.
pub proof fn categories_are_in_order(i: int)
    requires
        0 <= i < 10,
    ensures
        after_from(category_name(i + 1), category_name(i), 0),
{
    reveal_strlit("AudioVideo");
    reveal_strlit("Development");
    reveal_strlit("Education");
    reveal_strlit("Game");
    reveal_strlit("Graphics");
    reveal_strlit("Network");
    reveal_strlit("Office");
    reveal_strlit("Other");
    reveal_strlit("Settings");
    reveal_strlit("System");
    reveal_strlit("Utility");
    let (a, b) = (category_name(i + 1), category_name(i));
    if i == 3 || i == 6 || i == 8 {
        the_first_difference_decides(a, b, 0, 1);
    } else {
        the_first_difference_decides(a, b, 0, 0);
    }
}

/// Law: every row of the main menu's categories opens a submenu of its own,
/// shows so, and is named after a category that holds an application; the
/// submenu has a row for each of them.
pub proof fn categories_open_their_submenu(groups: Seq<Seq<AppView>>, n: int, i: int)
    requires
        0 <= n <= groups.len(),
        n <= usize::MAX,
        0 <= i < category_rows(groups, n).0.len(),
    ensures
        ({
            let (rows, subs) = category_rows(groups, n);
            &&& rows.len() == subs.len() <= n
            &&& rows[i].arrow
            &&& rows[i].icon is None
            &&& rows[i].item == ItemView::Submenu(i as usize)
            &&& exists|c: int|
                0 <= c < n && rows[i].label == category_name(c) && (#[trigger] groups[c]).len() > 0
                    && subs[i].len() == groups[c].len()
        }),
    decreases n,
{
    lemma_category_rows(groups, n);
    if n > 0 {
        let (before, _) = category_rows(groups, n - 1);
        lemma_category_rows(groups, n - 1);
        if i < before.len() {
            categories_open_their_submenu(groups, n - 1, i);
            let c = choose|c: int|
                0 <= c < n - 1 && before[i].label == category_name(c) && (#[trigger] groups[c]).len()
                    > 0 && category_rows(groups, n - 1).1[i].len() == groups[c].len();
            assert(groups[c].len() > 0);
        } else {
            assert(groups[n - 1].len() > 0);
        }
    }
}

proof fn lemma_category_rows(groups: Seq<Seq<AppView>>, n: int)
    requires
        0 <= n <= groups.len(),
    ensures
        category_rows(groups, n).0.len() == category_rows(groups, n).1.len() <= n,
    decreases n,
{
    if n > 0 {
        lemma_category_rows(groups, n - 1);
    } else {
        assert(category_rows(groups, n).0.len() == 0);
    }
}

/// Law: a path is taken for a picture exactly where its file has a name
/// before the extension `.png`; another ending, or the extension alone, is
/// not taken.
pub proof fn pictures_go_by_their_extension(dir: Seq<char>, name: Seq<char>, last: char)
    requires
        forall|i: int| 0 <= i < name.len() ==> name[i] != '/',
        name.len() > 0,
        last != 'g',
        last != '/',
        last != '.',
    ensures
        is_png(dir + seq!['/'] + (name + ".png"@)),
        !is_png(dir + seq!['/'] + ".png"@),
        !is_png(dir + seq!['/'] + name.push(last)),
{
    reveal_strlit(".png");
    let full = name + ".png"@;
    let a = dir + seq!['/'] + full;
    let b = dir + seq!['/'] + ".png"@;
    let c = dir + seq!['/'] + name.push(last);
    assert(a.last() == 'g' && b.last() == 'g' && c.last() == last);
    assert(bare_end(a, a.len() as int) == a.len());
    assert(bare_end(b, b.len() as int) == b.len());
    assert(bare_end(c, c.len() as int) == c.len());
    assert(a.take(a.len() as int) =~= a);
    assert(b.take(b.len() as int) =~= b);
    assert(c.take(c.len() as int) =~= c);
    names_follow_the_last_slash(dir, full);
    names_follow_the_last_slash(dir, ".png"@);
    names_follow_the_last_slash(dir, name.push(last));
    assert(full.skip(full.len() - 4) =~= ".png"@);
    let d = name.push(last);
    if d.len() > 4 {
        assert(d.skip(d.len() - 4)[3] == last);
        assert(".png"@[3] == 'g');
    }
}

} // verus!
