//! Launching: quoting a command for the shell, resolving desktop entries
//! and quick-launch entries to commands, and the cache behind the icon
//! lookup.

use crate::cache::Capped;
use crate::text::{
    chars_of, find_char, find_from, is_text, slice_string, split_on, trim, trimmed,
    fields, upper, ascii_upper, views,
};
use crate::wallpaper::text_view;
use vstd::prelude::*;
use vstd::string::*;

pub mod laws;

verus! {

/// One character within single quotes: a quote ends them, stands escaped,
/// and opens them again.
pub open spec fn escaped_char(c: char) -> Seq<char> {
    if c == '\'' {
        seq!['\'', '\\', '\'', '\'']
    } else {
        seq![c]
    }
}

/// The text from `k` on, each character escaped.
pub open spec fn escaped_from(s: Seq<char>, k: int) -> Seq<char>
    decreases s.len() - k,
{
    if k >= s.len() {
        Seq::empty()
    } else {
        escaped_char(s[k]) + escaped_from(s, k + 1)
    }
}

/// A text in single quotes.
pub open spec fn quoted(s: Seq<char>) -> Seq<char> {
    seq!['\''] + escaped_from(s, 0) + seq!['\'']
}

/// Single-quote `s` for use as one word of the shell.
pub fn shell_quote(s: &str) -> (q: String)
    ensures
        q@ == quoted(s@),
{
    let c = chars_of(s);
    let mut q = String::new();
    q.push('\'');
    proof {
        assert(q@ =~= seq!['\'']);
    }
    let ghost front = q@;
    let mut k: usize = 0;
    while k < c.len()
        invariant
            k <= c@.len(),
            q@ + escaped_from(c@, k as int) == front + escaped_from(c@, 0),
        decreases c@.len() - k,
    {
        let ghost before = q@;
        let x = c[k];
        if x == '\'' {
            q.push('\'');
            q.push('\\');
            q.push('\'');
            q.push('\'');
        } else {
            q.push(x);
        }
        proof {
            assert(q@ =~= before + escaped_char(x));
            assert(before + (escaped_char(x) + escaped_from(c@, k + 1)) =~= q@ + escaped_from(
                c@,
                k + 1,
            ));
        }
        k = k + 1;
    }
    proof {
        assert(q@ + escaped_from(c@, k as int) =~= q@);
    }
    q.push('\'');
    proof {
        assert(q@ =~= quoted(s@));
    }
    q
}

/// What the shell makes of a word written in single quotes and backslashes
/// alone: within quotes every character stands for itself, outside a
/// backslash makes the next character stand for itself. Nothing for a word
/// that does not end, or that holds anything unquoted.
pub open spec fn shell_word(w: Seq<char>, quotes: bool) -> Option<Seq<char>>
    decreases w.len(),
{
    if w.len() == 0 {
        if quotes {
            None
        } else {
            Some(Seq::empty())
        }
    } else if quotes {
        if w[0] == '\'' {
            shell_word(w.skip(1), false)
        } else {
            match shell_word(w.skip(1), true) {
                Some(rest) => Some(seq![w[0]] + rest),
                None => None,
            }
        }
    } else if w[0] == '\'' {
        shell_word(w.skip(1), true)
    } else if w[0] == '\\' && w.len() >= 2 {
        match shell_word(w.skip(2), false) {
            Some(rest) => Some(seq![w[1]] + rest),
            None => None,
        }
    } else {
        None
    }
}

proof fn lemma_escaped_word(s: Seq<char>, k: int)
    requires
        0 <= k <= s.len(),
    ensures
        shell_word(escaped_from(s, k) + seq!['\''], true) == Some(s.skip(k)),
    decreases s.len() - k,
{
    let w = escaped_from(s, k) + seq!['\''];
    if k >= s.len() {
        assert(w =~= seq!['\'']);
        assert(w.skip(1) =~= Seq::empty());
        assert(shell_word(w.skip(1), false) == Some(Seq::<char>::empty()));
        assert(s.skip(k) =~= Seq::empty());
    } else {
        lemma_escaped_word(s, k + 1);
        let tail = escaped_from(s, k + 1) + seq!['\''];
        assert(seq![s[k]] + s.skip(k + 1) =~= s.skip(k));
        if s[k] == '\'' {
            assert(w =~= seq!['\'', '\\', '\'', '\''] + tail);
            let w1 = w.skip(1);
            assert(w1[0] == '\\' && w1[1] == '\'');
            let w3 = w1.skip(2);
            assert(w3[0] == '\'');
            assert(w3.skip(1) =~= tail);
            assert(shell_word(w3, false) == Some(s.skip(k + 1)));
            assert(shell_word(w1, false) == Some(seq!['\''] + s.skip(k + 1)));
            assert(shell_word(w, true) == shell_word(w1, false));
        } else {
            assert(w =~= seq![s[k]] + tail);
            assert(w.skip(1) =~= tail);
            assert(shell_word(w, true) == Some(seq![s[k]] + s.skip(k + 1)));
        }
    }
}

/// A quoted text is one word of the shell, and the shell reads it as the
/// text itself, whatever characters it holds.
pub proof fn quoting_survives_the_shell(s: Seq<char>)
    ensures
        shell_word(quoted(s), false) == Some(s),
{
    lemma_escaped_word(s, 0);
    let w = quoted(s);
    assert(w.skip(1) =~= escaped_from(s, 0) + seq!['\'']);
    assert(s.skip(0) =~= s);
}

/// The line that starts `cmd` in the background, in a scope of its own where
/// `systemd-run` is there.
pub open spec fn spawn_text(cmd: Seq<char>, systemd_run: bool) -> Seq<char> {
    (if systemd_run {
        "systemd-run --user --scope --slice=app.slice --collect --quiet -- /bin/sh -c "@
    } else {
        "/bin/sh -c "@
    }) + quoted(cmd) + " &"@
}

/// The shell line that starts a command detached: in a scope of its own
/// where one can be had. Either way the command is one quoted word, so that
/// a compound command behaves the same.
pub fn spawn_line(cmd: &str, systemd_run: bool) -> (line: String)
    ensures
        line@ == spawn_text(cmd@, systemd_run),
{
    let mut line = if systemd_run {
        "systemd-run --user --scope --slice=app.slice --collect --quiet -- /bin/sh -c ".to_owned()
    } else {
        "/bin/sh -c ".to_owned()
    };
    line.append(shell_quote(cmd).as_str());
    line.append(" &");
    line
}

/// How long the probe for systemd-run may take, in milliseconds.
pub const PROBE_TIMEOUT_MS: u64 = 2000;

/// How long to wait between two looks at the probe, in milliseconds.
pub const PROBE_POLL_MS: u64 = 10;

/// What became of the probe so far.
#[derive(Clone, Copy, PartialEq, Eq, Debug, Structural)]
pub enum Probe {
    /// There is no such program.
    Missing,
    Exited(bool),
    Running,
    /// It cannot be waited for.
    Lost,
}

/// What to do about the probe.
#[derive(Clone, Copy, PartialEq, Eq, Debug, Structural)]
pub enum ProbeStep {
    /// The answer.
    Answer(bool),
    /// Look again after the poll interval.
    Wait,
    /// Kill it and reap it; the answer is no.
    Kill,
}

/// What a probe that was started at `started` has come to at `now`.
pub open spec fn probe_step(probe: Probe, now: int, started: int) -> ProbeStep {
    match probe {
        Probe::Missing => ProbeStep::Answer(false),
        Probe::Exited(ok) => ProbeStep::Answer(ok),
        Probe::Running => if now - started < PROBE_TIMEOUT_MS {
            ProbeStep::Wait
        } else {
            ProbeStep::Kill
        },
        Probe::Lost => ProbeStep::Kill,
    }
}

/// Whether commands can be started in a scope of their own: the probe has
/// to succeed before its deadline. A probe that hangs counts as a no.
pub fn have_systemd_run(probe: Probe, now: u64, started: u64) -> (step: ProbeStep)
    ensures
        step == probe_step(probe, now as int, started as int),
{
    match probe {
        Probe::Missing => ProbeStep::Answer(false),
        Probe::Exited(ok) => ProbeStep::Answer(ok),
        Probe::Running => if now < started || now - started < PROBE_TIMEOUT_MS {
            ProbeStep::Wait
        } else {
            ProbeStep::Kill
        },
        Probe::Lost => ProbeStep::Kill,
    }
}

/// The arguments that the `freedesktop_desktop_entry` crate reads from the
/// `Exec` line of the entry `text` at `path`; nothing if the entry cannot
/// be read, or has no command.
pub uninterp spec fn exec_args(path: Seq<char>, text: Seq<char>) -> Option<Seq<Seq<char>>>;

/// The `Path` value that the `freedesktop_desktop_entry` crate reads from
/// the entry `text` at `path`.
pub uninterp spec fn entry_dir(path: Seq<char>, text: Seq<char>) -> Option<Seq<char>>;

/// `DesktopEntry::from_str`, then `DesktopEntry::parse_exec`: the arguments
/// of the entry's command, field codes expanded away. They depend on the
/// entry's text and on its path alone, which a field code can stand for and
/// which must name a file; an entry that cannot be read and one without a
/// command both give nothing.
#[verifier::external_body]
fn read_exec(path: &str, text: &str) -> (args: Option<Vec<String>>)
    ensures
        match exec_args(path@, text@) {
            Some(s) => args is Some && views(args->0@) == s,
            None => args is None,
        },
{
    freedesktop_desktop_entry::DesktopEntry::from_str(path, text, None::<&[String]>).ok()?.parse_exec().ok()
}

/// `DesktopEntry::from_str`, then `DesktopEntry::desktop_entry("Path")`: the
/// working directory the entry asks for, which its text and path decide.
#[verifier::external_body]
fn read_dir(path: &str, text: &str) -> (dir: Option<String>)
    ensures
        match entry_dir(path@, text@) {
            Some(s) => dir is Some && dir->0@ == s,
            None => dir is None,
        },
{
    freedesktop_desktop_entry::DesktopEntry::from_str(path, text, None::<&[String]>).ok()?
        .desktop_entry("Path").map(|p| p.to_owned())
}

/// The first `n` arguments, each quoted, a space between them.
pub open spec fn quoted_to(args: Seq<Seq<char>>, n: int) -> Seq<char>
    decreases n,
{
    if n <= 0 {
        Seq::empty()
    } else if n == 1 {
        quoted(args[0])
    } else {
        quoted_to(args, n - 1) + " "@ + quoted(args[n - 1])
    }
}

/// The command of an entry with these arguments and this working
/// directory.
pub open spec fn entry_command(args: Option<Seq<Seq<char>>>, dir: Option<Seq<char>>) -> Option<
    Seq<char>,
> {
    match args {
        Some(a) => if a.len() == 0 {
            None
        } else {
            let exec = quoted_to(a, a.len() as int);
            Some(
                if dir is Some && dir->0.len() > 0 {
                    "cd "@ + quoted(dir->0) + " && "@ + exec
                } else {
                    exec
                },
            )
        },
        None => None,
    }
}

/// The view of an optional list of texts.
pub open spec fn list_view(s: Option<Vec<String>>) -> Option<Seq<Seq<char>>> {
    match s {
        Some(v) => Some(views(v@)),
        None => None,
    }
}

/// The view of an optional text.
pub open spec fn string_view(s: Option<String>) -> Option<Seq<char>> {
    match s {
        Some(t) => Some(t@),
        None => None,
    }
}

/// The command of an entry: its arguments, each quoted, after a change into
/// its working directory where it asks for one.
pub fn entry_cmd(args: Option<Vec<String>>, dir: Option<String>) -> (cmd: Option<String>)
    ensures
        string_view(cmd) == entry_command(list_view(args), string_view(dir)),
{
    let args = match args {
        Some(a) => a,
        None => {
            return None;
        }};
    if args.len() == 0 {
        return None;
    }
    let ghost all = views(args@);
    let mut exec = shell_quote(args[0].as_str());
    let mut k: usize = 1;
    while k < args.len()
        invariant
            1 <= k <= args@.len(),
            all == views(args@),
            exec@ == quoted_to(all, k as int),
        decreases args@.len() - k,
    {
        exec.append(" ");
        exec.append(shell_quote(args[k].as_str()).as_str());
        k = k + 1;
    }
    match dir {
        Some(dir) => {
            if dir.as_str().unicode_len() > 0 {
                let mut cmd = "cd ".to_owned();
                cmd.append(shell_quote(dir.as_str()).as_str());
                cmd.append(" && ");
                cmd.append(exec.as_str());
                Some(cmd)
            } else {
                Some(exec)
            }
        },
        None => Some(exec),
    }
}

/// The command of the desktop entry `text` at `path`. Whether the entry is
/// to be shown in launchers does not matter here.
pub fn desktop_entry_cmd(path: &str, text: &str) -> (cmd: Option<String>)
    ensures
        string_view(cmd) == entry_command(exec_args(path@, text@), entry_dir(path@, text@)),
{
    let args = read_exec(path, text);
    let dir = read_dir(path, text);
    entry_cmd(args, dir)
}

/// A configured quick-launch entry, with the value its variable has.
pub struct QuickEntry {
    pub label: String,
    pub set: Option<String>,
    pub default: String,
    pub icon: String,
    /// When the entry is shown, as the settings number it.
    pub show: u32,
}

/// A quick-launch entry of the bar.
pub struct QuickLaunch {
    pub label: String,
    /// The command to spawn: the entry's override or its default.
    pub cmd: String,
    /// The icon's name in the icon theme.
    pub icon: String,
    /// When the entry is shown, as the settings number it.
    pub show: u32,
}

impl QuickEntry {
    /// The command the entry starts.
    pub open spec fn command(self) -> Seq<char> {
        match self.set {
            Some(cmd) => cmd@,
            None => self.default@,
        }
    }
}

/// Resolve the quick-launch entries.
pub fn quick_launches(entries: Vec<QuickEntry>) -> (out: Vec<QuickLaunch>)
    ensures
        out@.len() == entries@.len(),
        forall|i: int|
            0 <= i < out@.len() ==> {
                &&& (#[trigger] out@[i]).label@ == entries@[i].label@
                &&& out@[i].cmd@ == entries@[i].command()
                &&& out@[i].icon@ == entries@[i].icon@
                &&& out@[i].show == entries@[i].show
            },
{
    let mut out: Vec<QuickLaunch> = Vec::new();
    let mut k: usize = 0;
    while k < entries.len()
        invariant
            k <= entries@.len(),
            out@.len() == k,
            forall|i: int|
                0 <= i < k ==> {
                    &&& (#[trigger] out@[i]).label@ == entries@[i].label@
                    &&& out@[i].cmd@ == entries@[i].command()
                    &&& out@[i].icon@ == entries@[i].icon@
                    &&& out@[i].show == entries@[i].show
                },
        decreases entries@.len() - k,
    {
        let e = &entries[k];
        let cmd = match &e.set {
            Some(cmd) => cmd.as_str().to_owned(),
            None => e.default.as_str().to_owned()};
        out.push(
            QuickLaunch {
                label: e.label.as_str().to_owned(),
                cmd,
                icon: e.icon.as_str().to_owned(),
                show: e.show,
            },
        );
        k = k + 1;
    }
    out
}

/// The letter that stands for a quick entry without an icon.
pub open spec fn label_of(label: Seq<char>) -> char {
    if label.len() == 0 {
        '?'
    } else {
        upper(label[0])
    }
}

/// The letter that stands in for an entry without an icon.
pub fn quick_label(label: &str) -> (c: char)
    ensures
        c == label_of(label@),
{
    if label.unicode_len() == 0 {
        return '?';
    }
    ascii_upper(label.get_char(0))
}

/// How long a failed icon lookup is believed, in milliseconds.
pub const NEG_TTL_MS: u64 = 60_000;

/// How many icon lookups are remembered.
pub const ICON_LOOKUPS: usize = 1024;

/// A remembered lookup: what was found, and when.
pub struct Lookup {
    pub found: Option<String>,
    pub at: u64,
}

/// Whether a remembered lookup answers at `now`: what was found is believed
/// forever, a failure only for a while.
pub open spec fn answers(l: Lookup, now: u64) -> bool {
    l.found is Some || now - l.at < NEG_TTL_MS
}

/// What to do for an icon.
pub enum LookupStep {
    /// The answer.
    Known(Option<String>),
    /// Look for it.
    Search,
}

/// The icon lookups so far.
pub struct IconLookups {
    pub cache: Capped<String, Lookup>,
}

impl IconLookups {
    /// What is remembered for an icon.
    pub open spec fn known(self, icon: Seq<char>) -> Option<Lookup> {
        self.cache.held(icon)
    }

    pub fn new() -> (l: IconLookups)
        ensures
            forall|icon: Seq<char>| #[trigger] l.known(icon) is None,
    {
        IconLookups { cache: Capped::new() }
    }

    /// The icon's file, if it is known at `now`.
    pub fn find_icon_file(&self, icon: &str, now: u64) -> (step: LookupStep)
        ensures
            match self.known(icon@) {
                Some(l) => if answers(l, now) {
                    step is Known && string_view(step->Known_0) == string_view(l.found)
                } else {
                    step is Search
                },
                None => step is Search,
            },
    {
        let key = icon.to_owned();
        match self.cache.get(&key) {
            Some(l) => match &l.found {
                Some(f) => LookupStep::Known(Some(f.as_str().to_owned())),
                None => if now < l.at || now - l.at < NEG_TTL_MS {
                    LookupStep::Known(None)
                } else {
                    LookupStep::Search
                },
            },
            None => LookupStep::Search,
        }
    }

    /// Remember what a search came to.
    pub fn searched(&mut self, icon: &str, found: Option<String>, now: u64)
        ensures
            final(self).known(icon@) == Some(Lookup { found, at: now }),
            forall|other: Seq<char>|
                other != icon@ ==> #[trigger] final(self).known(other) == (if old(
                    self,
                ).cache.entries@.len() >= ICON_LOOKUPS {
                    None
                } else {
                    old(self).known(other)
                }),
            old(self).cache.entries@.len() <= ICON_LOOKUPS
                ==> final(self).cache.entries@.len() <= ICON_LOOKUPS,
    {
        let key = icon.to_owned();
        self.cache.insert_capped(ICON_LOOKUPS, key, Lookup { found, at: now });
    }
}

/// What to look for, and how.
pub enum IconQuery {
    /// The file itself, if there is one.
    File(String),
    /// A name in the icon theme, in the configured one where there is one.
    Themed(String, Option<String>),
}

/// The size icons are looked up at: the smallest that scales down cleanly
/// to a tile.
pub const ICON_LOOKUP_SIZE: u16 = 48;

/// How to look for an icon: an absolute path is the file itself, anything
/// else a name in the theme.
pub fn icon_query(icon: &str, theme: Option<String>) -> (q: IconQuery)
    ensures
        if icon@.len() > 0 && icon@[0] == '/' {
            q is File && q->File_0@ == icon@
        } else {
            q is Themed && q->Themed_0@ == icon@ && q->Themed_1 == theme
        },
{
    if icon.unicode_len() > 0 && icon.get_char(0) == '/' {
        return IconQuery::File(icon.to_owned());
    }
    IconQuery::Themed(icon.to_owned(), theme)
}

/// Where the settings that name the icon theme are.
pub open spec fn settings_at(config: Option<Seq<char>>, home: Option<Seq<char>>) -> Option<
    Seq<char>,
> {
    if config is Some && config->0.len() > 0 {
        Some(config->0 + "/gtk-3.0/settings.ini"@)
    } else {
        match home {
            Some(h) => Some(h + "/.config"@ + "/gtk-3.0/settings.ini"@),
            None => None,
        }
    }
}

/// The file the icon theme is named in, given the configuration directory
/// and the home directory that are set.
pub fn settings_path(config: Option<&str>, home: Option<&str>) -> (p: Option<String>)
    ensures
        string_view(p) == settings_at(text_view(config), text_view(home)),
{
    if let Some(dir) = config {
        if dir.unicode_len() > 0 {
            let mut p = dir.to_owned();
            p.append("/gtk-3.0/settings.ini");
            return Some(p);
        }
    }
    match home {
        Some(dir) => {
            let mut p = dir.to_owned();
            p.append("/.config");
            p.append("/gtk-3.0/settings.ini");
            Some(p)
        },
        None => None,
    }
}

/// Where the text between `from` and `to` starts without leading double
/// quotes.
pub open spec fn unquoted_start(s: Seq<char>, from: int, to: int) -> int
    decreases to - from,
{
    if from < to && s[from] == '"' {
        unquoted_start(s, from + 1, to)
    } else {
        from
    }
}

/// Where it ends without trailing ones.
pub open spec fn unquoted_end(s: Seq<char>, from: int, to: int) -> int
    decreases to - from,
{
    if from < to && s[to - 1] == '"' {
        unquoted_end(s, from, to - 1)
    } else {
        to
    }
}

/// A text without the double quotes around it.
pub open spec fn unquoted(s: Seq<char>) -> Seq<char> {
    let a = unquoted_start(s, 0, s.len() as int);
    s.subrange(a, unquoted_end(s, a, s.len() as int))
}

fn unquote(s: &Vec<char>) -> (t: String)
    ensures
        t@ == unquoted(s@),
{
    let n: usize = s.len();
    let mut a: usize = 0;
    while a < n && s[a] == '"'
        invariant
            a <= n == s@.len(),
            unquoted_start(s@, 0, n as int) == unquoted_start(s@, a as int, n as int),
        decreases n - a,
    {
        a = a + 1;
    }
    let mut b: usize = n;
    while a < b && s[b - 1] == '"'
        invariant
            a <= b <= n == s@.len(),
            unquoted_end(s@, a as int, n as int) == unquoted_end(s@, a as int, b as int),
        decreases b - a,
    {
        b = b - 1;
    }
    slice_string(s, a, b)
}

/// The icon theme a line of the settings names.
pub open spec fn theme_line(line: Seq<char>) -> Option<Seq<char>> {
    let n = line.len() as int;
    let p = find_from(line, '=', 0, n);
    if p < n && trimmed(line, 0, p) == "gtk-icon-theme-name"@ {
        Some(unquoted(trimmed(line, p + 1, n)))
    } else {
        None
    }
}

/// The icon theme the lines from `k` on name, the first that does.
pub open spec fn theme_from(lines: Seq<Seq<char>>, k: int) -> Option<Seq<char>>
    decreases lines.len() - k,
{
    if k >= lines.len() {
        None
    } else if theme_line(lines[k]) is Some {
        theme_line(lines[k])
    } else {
        theme_from(lines, k + 1)
    }
}

fn line_theme(line: &str) -> (t: Option<String>)
    ensures
        string_view(t) == theme_line(line@),
{
    let s = chars_of(line);
    let n: usize = s.len();
    let p: usize = find_char(&s, '=', 0, n);
    if p >= n {
        return None;
    }
    let (a, b) = trim(&s, 0, p);
    if !is_text(&s, a, b, "gtk-icon-theme-name") {
        return None;
    }
    let (a, b) = trim(&s, p + 1, n);
    let value = slice_string(&s, a, b);
    let chars = chars_of(value.as_str());
    Some(unquote(&chars))
}

/// The user's icon theme, from the text of the settings.
pub fn configured_icon_theme(text: &str) -> (theme: Option<String>)
    ensures
        string_view(theme) == theme_from(fields(text@, '\n'), 0),
{
    let lines = split_on(text, '\n');
    let ghost all = fields(text@, '\n');
    let mut k: usize = 0;
    while k < lines.len()
        invariant
            k <= lines@.len(),
            views(lines@) == all,
            all == fields(text@, '\n'),
            theme_from(all, 0) == theme_from(all, k as int),
        decreases lines@.len() - k,
    {
        proof {
            assert(all[k as int] == lines@[k as int]@);
        }
        let t = line_theme(lines[k].as_str());
        if t.is_some() {
            return t;
        }
        k = k + 1;
    }
    None
}

} // verus!
