//! What launching programs promises.

use super::{
    answers, entry_command, label_of, probe_step, quoted, quoted_to, settings_at, spawn_text,
    theme_from, unquoted, unquoted_end, unquoted_start, Lookup, Probe, ProbeStep, QuickEntry,
};
use crate::text::upper;
use vstd::prelude::*;

verus! {

/// Law: a command is started the same way with and without a scope of its
/// own: the scope only goes before the shell that runs it.
pub proof fn scopes_go_before_the_shell(cmd: Seq<char>)
    ensures
        exists|scope: Seq<char>| #[trigger]
            (scope + spawn_text(cmd, false)) == spawn_text(cmd, true),
        spawn_text(cmd, false) == "/bin/sh -c "@ + quoted(cmd) + " &"@,
{
    reveal_strlit("systemd-run --user --scope --slice=app.slice --collect --quiet -- /bin/sh -c ");
    reveal_strlit("/bin/sh -c ");
    let long = "systemd-run --user --scope --slice=app.slice --collect --quiet -- /bin/sh -c "@;
    let short = "/bin/sh -c "@;
    let scope = long.take(long.len() - short.len());
    assert(scope + short =~= long);
    assert(scope + spawn_text(cmd, false) =~= spawn_text(cmd, true));
}

/// Law: a probe that ended has its answer, a program that is not there
/// answers no, and one that still runs is given two seconds, then killed.
pub proof fn probes_end_within_two_seconds(ok: bool, started: int, t: int)
    requires
        0 <= t,
    ensures
        probe_step(Probe::Exited(ok), started + t, started) == ProbeStep::Answer(ok),
        probe_step(Probe::Missing, started + t, started) == ProbeStep::Answer(false),
        t < 2000 ==> probe_step(Probe::Running, started + t, started) is Wait,
        t >= 2000 ==> probe_step(Probe::Running, started + t, started) is Kill,
        probe_step(Probe::Lost, started + t, started) is Kill,
{
}

/// Law: an entry's command is its arguments in order, each one quoted and one
/// space between two; one that names a directory is run from there, and one
/// without arguments is no command.
pub proof fn entries_run_their_arguments_in_order(
    args: Seq<Seq<char>>,
    last: Seq<char>,
    dir: Seq<char>,
)
    requires
        args.len() > 0,
        dir.len() > 0,
    ensures
        entry_command(Some(seq![last]), None) == Some(quoted(last)),
        entry_command(Some(args.push(last)), None) is Some,
        entry_command(Some(args.push(last)), None)->0 == entry_command(Some(args), None)->0 + " "@
            + quoted(last),
        entry_command(Some(args), Some(dir)) == Some(
            "cd "@ + quoted(dir) + " && "@ + entry_command(Some(args), None)->0,
        ),
        entry_command(Some(args), Some(Seq::empty())) == entry_command(Some(args), None),
        entry_command(None, Some(dir)) is None,
        entry_command(Some(Seq::empty()), Some(dir)) is None,
{
    let all = args.push(last);
    lemma_quoted_prefix(args, last, args.len() as int);
    assert(all[all.len() - 1] == last);
}

proof fn lemma_quoted_prefix(args: Seq<Seq<char>>, last: Seq<char>, n: int)
    requires
        0 <= n <= args.len(),
    ensures
        quoted_to(args.push(last), n) == quoted_to(args, n),
    decreases n,
{
    if n > 0 {
        lemma_quoted_prefix(args, last, n - 1);
        assert(args.push(last)[n - 1] == args[n - 1]);
        assert(args.push(last)[0] == args[0]);
    }
}

/// Law: an icon that was found is known for good; one that was not is looked
/// for again after a minute.
pub proof fn missing_icons_are_looked_for_again(found: Option<String>, at: u64, t: int)
    requires
        0 <= t,
        at + t <= u64::MAX,
    ensures
        found is Some ==> answers(Lookup { found, at }, (at + t) as u64),
        found is None ==> (answers(Lookup { found, at }, (at + t) as u64) <==> t < 60_000),
{
}

/// Law: a quick entry runs what it was set to, and its default only where it
/// was set to nothing; without an icon it shows its first letter, in
/// capitals.
pub proof fn quick_entries_run_what_they_are_set_to(e: QuickEntry, label: Seq<char>)
    ensures
        e.set is Some ==> e.command() == e.set->0@,
        e.set is None ==> e.command() == e.default@,
        label.len() > 0 ==> label_of(label) == upper(label[0]),
        label_of(Seq::empty()) == '?',
{
}

/// Law: the settings are looked for below the configuration directory, and
/// below the home directory's own one where none is named.
pub proof fn settings_are_below_the_configuration(
    config: Seq<char>,
    home: Option<Seq<char>>,
    h: Seq<char>,
)
    requires
        config.len() > 0,
    ensures
        settings_at(Some(config), home) == Some(config + "/gtk-3.0/settings.ini"@),
        settings_at(None, Some(h)) == settings_at(Some(h + "/.config"@), home),
        settings_at(Some(Seq::empty()), home) == settings_at(None, home),
        settings_at(None, None) is None,
{
    reveal_strlit("/.config");
}

proof fn lemma_unquoted_start(s: Seq<char>, from: int, to: int)
    requires
        0 <= from <= to <= s.len(),
    ensures
        from <= unquoted_start(s, from, to) <= to,
        forall|i: int| from <= i < unquoted_start(s, from, to) ==> #[trigger] s[i] == '"',
        unquoted_start(s, from, to) < to ==> s[unquoted_start(s, from, to)] != '"',
    decreases to - from,
{
    if from < to && s[from] == '"' {
        lemma_unquoted_start(s, from + 1, to);
    }
}

proof fn lemma_unquoted_end(s: Seq<char>, from: int, to: int)
    requires
        0 <= from <= to <= s.len(),
    ensures
        from <= unquoted_end(s, from, to) <= to,
        forall|i: int| unquoted_end(s, from, to) <= i < to ==> #[trigger] s[i] == '"',
        unquoted_end(s, from, to) > from ==> s[unquoted_end(s, from, to) - 1] != '"',
    decreases to - from,
{
    if from < to && s[to - 1] == '"' {
        lemma_unquoted_end(s, from, to - 1);
    }
}

/// Law: a value is read without the quotes around it: all that are at its two
/// ends and nothing else.
pub proof fn quotes_around_a_value_are_left_out(s: Seq<char>) -> (at: (int, int))
    ensures
        0 <= at.0 <= at.1 <= s.len(),
        unquoted(s) == s.subrange(at.0, at.1),
        forall|i: int| 0 <= i < at.0 || at.1 <= i < s.len() ==> #[trigger] s[i] == '"',
        at.0 < at.1 ==> s[at.0] != '"' && s[at.1 - 1] != '"',
{
    let n = s.len() as int;
    let a = unquoted_start(s, 0, n);
    lemma_unquoted_start(s, 0, n);
    lemma_unquoted_end(s, a, n);
    (a, unquoted_end(s, a, n))
}

/// Law: the first line that names an icon theme decides.
pub proof fn the_first_theme_line_decides(lines: Seq<Seq<char>>, k: int, i: int)
    requires
        0 <= k <= i <= lines.len(),
        forall|j: int| k <= j < i ==> super::theme_line(#[trigger] lines[j]) is None,
        i < lines.len() ==> super::theme_line(lines[i]) is Some,
    ensures
        i < lines.len() ==> theme_from(lines, k) == super::theme_line(lines[i]),
        i == lines.len() ==> theme_from(lines, k) is None,
    decreases i - k,
{
    if k < i {
        the_first_theme_line_decides(lines, k + 1, i);
    }
}

} // verus!
