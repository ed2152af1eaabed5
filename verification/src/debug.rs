//! The driver's channel: a line protocol that drives the compositor the way
//! the keyboard would. Every command is acknowledged, so that a driver can
//! synchronize on completion.

use crate::input::{binding_action, bound_from, Action, Binding, Mods};
use crate::text::{
    chars_of, find_char, find_from, fold_eq, eq_ignore_ascii_case, is_text, lemma_find,
    slice_string, trim, trimmed,
};
use vstd::prelude::*;
use vstd::string::*;
use vstd::utf8::*;

pub mod laws;

verus! {

/// The newline byte.
pub const NEWLINE: u8 = 10;

/// The first newline from `k` on; the length if none.
pub open spec fn newline_from(s: Seq<u8>, k: int) -> int
    decreases s.len() - k,
{
    if k >= s.len() {
        s.len() as int
    } else if s[k] == NEWLINE {
        k
    } else {
        newline_from(s, k + 1)
    }
}

/// The complete lines of a stream from `k` on, each with its newline.
pub open spec fn lines_from(s: Seq<u8>, k: int) -> Seq<Seq<u8>>
    decreases s.len() - k,
    when 0 <= k
    via lines_from_ends
{
    let e = newline_from(s, k);
    if k >= s.len() || e >= s.len() {
        Seq::empty()
    } else {
        seq![s.subrange(k, e + 1)] + lines_from(s, e + 1)
    }
}

/// Where the rest after the complete lines from `k` on starts.
pub open spec fn rest_from(s: Seq<u8>, k: int) -> int
    decreases s.len() - k,
    when 0 <= k
    via rest_from_ends
{
    let e = newline_from(s, k);
    if k >= s.len() || e >= s.len() {
        k
    } else {
        rest_from(s, e + 1)
    }
}

#[via_fn]
proof fn lines_from_ends(s: Seq<u8>, k: int) {
    lemma_newline(s, k);
}

#[via_fn]
proof fn rest_from_ends(s: Seq<u8>, k: int) {
    lemma_newline(s, k);
}

proof fn lemma_newline(s: Seq<u8>, k: int)
    requires
        0 <= k,
    ensures
        k <= s.len() ==> k <= newline_from(s, k) <= s.len(),
        newline_from(s, k) < s.len() ==> s[newline_from(s, k)] == NEWLINE && k <= newline_from(
            s,
            k,
        ),
        forall|j: int| k <= j < newline_from(s, k) ==> s[j] != NEWLINE,
    decreases s.len() - k,
{
    if k < s.len() && s[k] != NEWLINE {
        lemma_newline(s, k + 1);
    }
}

/// The bytes of these lines, one after another.
pub open spec fn joined(lines: Seq<Seq<u8>>) -> Seq<u8>
    decreases lines.len(),
{
    if lines.len() == 0 {
        Seq::empty()
    } else {
        lines[0] + joined(lines.skip(1))
    }
}

/// No byte is lost or reordered: the lines handed out, followed by what is
/// kept for later, are the bytes that came in; the rest holds no newline.
pub proof fn lines_keep_every_byte(s: Seq<u8>, k: int)
    requires
        0 <= k <= s.len(),
    ensures
        k <= rest_from(s, k) <= s.len(),
        joined(lines_from(s, k)) + s.skip(rest_from(s, k)) == s.skip(k),
        forall|j: int| rest_from(s, k) <= j < s.len() ==> s[j] != NEWLINE,
    decreases s.len() - k,
{
    lemma_newline(s, k);
    let e = newline_from(s, k);
    if k >= s.len() || e >= s.len() {
        assert(joined(lines_from(s, k)) =~= Seq::empty());
        assert(joined(lines_from(s, k)) + s.skip(k) =~= s.skip(k));
    } else {
        lines_keep_every_byte(s, e + 1);
        let first = s.subrange(k, e + 1);
        let more = lines_from(s, e + 1);
        assert((seq![first] + more).skip(1) =~= more);
        assert((seq![first] + more)[0] == first);
        assert(joined(lines_from(s, k)) == first + joined(more));
        assert(first + joined(more) + s.skip(rest_from(s, e + 1)) =~= first + (joined(more)
            + s.skip(rest_from(s, e + 1))));
        assert(first + s.skip(e + 1) =~= s.skip(k));
    }
}

fn newline_at(s: &Vec<u8>, from: usize) -> (at: usize)
    requires
        from <= s@.len(),
    ensures
        at == newline_from(s@, from as int),
        from <= at <= s@.len(),
{
    let mut k: usize = from;
    while k < s.len()
        invariant
            from <= k <= s@.len(),
            newline_from(s@, from as int) == newline_from(s@, k as int),
        decreases s@.len() - k,
    {
        if s[k] == NEWLINE {
            return k;
        }
        k = k + 1;
    }
    k
}

fn copy_part(s: &Vec<u8>, from: usize, to: usize) -> (v: Vec<u8>)
    requires
        from <= to <= s@.len(),
    ensures
        v@ == s@.subrange(from as int, to as int),
{
    let mut v: Vec<u8> = Vec::new();
    let mut k: usize = from;
    while k < to
        invariant
            from <= k <= to <= s@.len(),
            v@ == s@.subrange(from as int, k as int),
        decreases to - k,
    {
        v.push(s[k]);
        k = k + 1;
        proof {
            assert(s@.subrange(from as int, k as int) =~= s@.subrange(from as int, k - 1).push(
                s@[k - 1],
            ));
        }
    }
    v
}

/// Take bytes in. Returns the lines that are complete now, each with its
/// newline; what follows the last newline stays pending.
pub fn feed(pending: &mut Vec<u8>, chunk: &[u8]) -> (lines: Vec<Vec<u8>>)
    ensures
        ({
            let all = old(pending)@ + chunk@;
            &&& lines@.map_values(|l: Vec<u8>| l@) == lines_from(all, 0)
            &&& final(pending)@ == all.skip(rest_from(all, 0))
        }),
{
    let ghost was = pending@;
    pending.extend_from_slice(chunk);
    let ghost all = was + chunk@;
    proof {
        assert(pending@ =~= all);
    }
    let mut lines: Vec<Vec<u8>> = Vec::new();
    let mut k: usize = 0;
    let mut e: usize = newline_at(pending, 0);
    proof {
        assert(lines@.map_values(|l: Vec<u8>| l@) + lines_from(all, 0) =~= lines_from(all, 0));
    }
    while e < pending.len()
        invariant
            pending@ == all,
            0 <= k <= e <= all.len(),
            e == newline_from(all, k as int),
            lines@.map_values(|l: Vec<u8>| l@) + lines_from(all, k as int) == lines_from(all, 0),
            rest_from(all, k as int) == rest_from(all, 0),
        decreases all.len() - k,
    {
        let line = copy_part(pending, k, e + 1);
        let ghost before = lines@.map_values(|l: Vec<u8>| l@);
        lines.push(line);
        proof {
            assert(lines@.map_values(|l: Vec<u8>| l@) =~= before.push(line@));
            assert(lines_from(all, k as int) == seq![line@] + lines_from(all, e + 1));
            assert(before.push(line@) + lines_from(all, e + 1) =~= before + (seq![line@]
                + lines_from(all, e + 1)));
        }
        k = e + 1;
        e = newline_at(pending, k);
    }
    proof {
        assert(lines_from(all, k as int) =~= Seq::empty());
        assert(lines@.map_values(|l: Vec<u8>| l@) + Seq::<Seq<u8>>::empty() =~= lines@.map_values(
            |l: Vec<u8>| l@,
        ));
        assert(all.skip(k as int) =~= all.subrange(k as int, all.len() as int));
    }
    let n: usize = pending.len();
    let rest = copy_part(pending, k, n);
    *pending = rest;
    lines
}

/// What a line asks for, its argument uninterpreted.
#[derive(Debug)]
pub enum Command {
    /// A blank line.
    Empty,
    /// Dispatch a chord.
    Key(String),
    /// Launch a client.
    Spawn(String),
    /// Move the pointer.
    Motion(String),
    /// Move there and click.
    Click(String),
    /// Pan the canvas by wheel clicks.
    Scroll(String),
    /// Write the next composited frame to a file.
    Shot(String),
    /// Report who holds the keyboard.
    Focus,
    /// Report what the pointer shows.
    Cursor,
    Unknown,
}

/// What a command is.
pub enum Parsed {
    Empty,
    Key(Seq<char>),
    Spawn(Seq<char>),
    Motion(Seq<char>),
    Click(Seq<char>),
    Scroll(Seq<char>),
    Shot(Seq<char>),
    Focus,
    Cursor,
    Unknown,
}

impl Command {
    pub open spec fn v(self) -> Parsed {
        match self {
            Command::Empty => Parsed::Empty,
            Command::Key(a) => Parsed::Key(a@),
            Command::Spawn(a) => Parsed::Spawn(a@),
            Command::Motion(a) => Parsed::Motion(a@),
            Command::Click(a) => Parsed::Click(a@),
            Command::Scroll(a) => Parsed::Scroll(a@),
            Command::Shot(a) => Parsed::Shot(a@),
            Command::Focus => Parsed::Focus,
            Command::Cursor => Parsed::Cursor,
            Command::Unknown => Parsed::Unknown,
        }
    }
}

/// What a line means: a word, and after the first space its argument.
pub open spec fn meaning(line: Seq<char>) -> Parsed {
    let p = find_from(line, ' ', 0, line.len() as int);
    let word = line.subrange(0, p);
    let arg = line.subrange(p + 1, line.len() as int);
    if line.len() == 0 {
        Parsed::Empty
    } else if p < line.len() {
        if word == "key"@ {
            Parsed::Key(arg)
        } else if word == "spawn"@ {
            Parsed::Spawn(arg)
        } else if word == "motion"@ {
            Parsed::Motion(arg)
        } else if word == "click"@ {
            Parsed::Click(arg)
        } else if word == "scroll"@ {
            Parsed::Scroll(arg)
        } else if word == "shot"@ {
            Parsed::Shot(arg)
        } else {
            Parsed::Unknown
        }
    } else if line == "focus"@ {
        Parsed::Focus
    } else if line == "cursor"@ {
        Parsed::Cursor
    } else {
        Parsed::Unknown
    }
}

/// Read a line, white space around it taken off.
pub fn command(line: &str) -> (c: Command)
    ensures
        c.v() == meaning(trimmed(line@, 0, line@.len() as int)),
{
    let raw = chars_of(line);
    let (a, b) = trim(&raw, 0, raw.len());
    let text = slice_string(&raw, a, b);
    let s = chars_of(text.as_str());
    let n: usize = s.len();
    if n == 0 {
        return Command::Empty;
    }
    let p: usize = find_char(&s, ' ', 0, n);
    if p < n {
        let arg = slice_string(&s, p + 1, n);
        if is_text(&s, 0, p, "key") {
            Command::Key(arg)
        } else if is_text(&s, 0, p, "spawn") {
            Command::Spawn(arg)
        } else if is_text(&s, 0, p, "motion") {
            Command::Motion(arg)
        } else if is_text(&s, 0, p, "click") {
            Command::Click(arg)
        } else if is_text(&s, 0, p, "scroll") {
            Command::Scroll(arg)
        } else if is_text(&s, 0, p, "shot") {
            Command::Shot(arg)
        } else {
            Command::Unknown
        }
    } else {
        proof {
            assert(s@.subrange(0, n as int) =~= s@);
        }
        if is_text(&s, 0, n, "focus") {
            Command::Focus
        } else if is_text(&s, 0, n, "cursor") {
            Command::Cursor
        } else {
            Command::Unknown
        }
    }
}

/// What `String::from_utf8_lossy` makes of bytes.
pub uninterp spec fn lossy_text(bytes: Seq<u8>) -> Seq<char>;

/// `String::from_utf8_lossy`: the text the bytes encode, with replacement
/// characters for what is not valid UTF-8. The bytes alone decide it, and
/// bytes that are valid UTF-8 come back as the text they encode; where the
/// replacements go is not said here.
#[verifier::external_body]
fn decode_lossy(bytes: &[u8]) -> (s: String)
    ensures
        s@ == lossy_text(bytes@),
        valid_utf8(bytes@) ==> encode_utf8(s@) == bytes@,
{
    String::from_utf8_lossy(bytes).into_owned()
}

/// Read a line as it came in: its text, white space around it taken off, and
/// the command it is.
pub fn read_line(line: &[u8]) -> (res: (String, Command))
    ensures
        res.0@ == trimmed(lossy_text(line@), 0, lossy_text(line@).len() as int),
        res.1.v() == meaning(res.0@),
{
    let text = decode_lossy(line);
    let c = command(text.as_str());
    let raw = chars_of(text.as_str());
    let (a, b) = trim(&raw, 0, raw.len());
    (slice_string(&raw, a, b), c)
}

/// The two parts of a position: what is before and after the first space,
/// white space around each taken off.
pub fn split_xy(xy: &str) -> (res: Option<(String, String)>)
    ensures
        ({
            let s = xy@;
            let p = find_from(s, ' ', 0, s.len() as int);
            &&& res is Some == (p < s.len())
            &&& res is Some ==> {
                let (x, y) = res->0;
                &&& x@ == trimmed(s, 0, p)
                &&& y@ == trimmed(s, p + 1, s.len() as int)
            }
        }),
{
    let s = chars_of(xy);
    let n: usize = s.len();
    let p: usize = find_char(&s, ' ', 0, n);
    if p >= n {
        return None;
    }
    let (a, b) = trim(&s, 0, p);
    let (c, d) = trim(&s, p + 1, n);
    Some((slice_string(&s, a, b), slice_string(&s, c, d)))
}

/// The modifier a name stands for, in either case.
#[derive(Clone, Copy, PartialEq, Eq, Debug, Structural)]
pub enum Modifier {
    Logo,
    Shift,
    Alt,
    Ctrl,
}

/// The modifier a name stands for, in either case.
pub open spec fn modifier_named(name: Seq<char>) -> Option<Modifier> {
    if fold_eq(name, "super"@) || fold_eq(name, "mod4"@) || fold_eq(name, "logo"@) {
        Some(Modifier::Logo)
    } else if fold_eq(name, "shift"@) {
        Some(Modifier::Shift)
    } else if fold_eq(name, "alt"@) || fold_eq(name, "mod1"@) {
        Some(Modifier::Alt)
    } else if fold_eq(name, "ctrl"@) || fold_eq(name, "control"@) {
        Some(Modifier::Ctrl)
    } else {
        None
    }
}

fn modifier(name: &str) -> (m: Option<Modifier>)
    ensures
        m == modifier_named(name@),
{
    if eq_ignore_ascii_case(name, "super") || eq_ignore_ascii_case(name, "mod4")
        || eq_ignore_ascii_case(name, "logo") {
        Some(Modifier::Logo)
    } else if eq_ignore_ascii_case(name, "shift") {
        Some(Modifier::Shift)
    } else if eq_ignore_ascii_case(name, "alt") || eq_ignore_ascii_case(name, "mod1") {
        Some(Modifier::Alt)
    } else if eq_ignore_ascii_case(name, "ctrl") || eq_ignore_ascii_case(name, "control") {
        Some(Modifier::Ctrl)
    } else {
        None
    }
}

/// These modifiers and one more.
pub open spec fn with_modifier(mods: Mods, m: Modifier) -> Mods {
    match m {
        Modifier::Logo => Mods { logo: true, ..mods },
        Modifier::Shift => Mods { shift: true, ..mods },
        Modifier::Alt => Mods { alt: true, ..mods },
        Modifier::Ctrl => Mods { ctrl: true, ..mods },
    }
}

/// The modifiers of a chord from `from` on, and where its key name starts:
/// the parts between plus signs, of which the last is the key.
pub open spec fn chord_from(s: Seq<char>, from: int, mods: Mods) -> Option<(Mods, int)>
    decreases s.len() - from,
    when 0 <= from
    via chord_from_ends
{
    let p = find_from(s, '+', from, s.len() as int);
    if p >= s.len() || from > s.len() {
        Some((mods, from))
    } else {
        match modifier_named(s.subrange(from, p)) {
            Some(m) => chord_from(s, p + 1, with_modifier(mods, m)),
            None => None,
        }
    }
}

#[via_fn]
proof fn chord_from_ends(s: Seq<char>, from: int, mods: Mods) {
    if from <= s.len() {
        lemma_find(s, '+', from, s.len() as int);
    }
}

/// No modifier at all.
pub open spec fn no_mods() -> Mods {
    Mods { shift: false, ctrl: false, alt: false, logo: false }
}

/// Take a chord apart: its modifiers, and the name of its key. Nothing if
/// one of the modifiers is unknown.
pub fn parse_chord(chord: &str) -> (res: Option<(Mods, String)>)
    ensures
        ({
            let c = chord_from(chord@, 0, no_mods());
            &&& res is Some == c is Some
            &&& res is Some ==> {
                let (mods, at) = c->0;
                let (got, key) = res->0;
                &&& 0 <= at <= chord@.len()
                &&& got == mods
                &&& key@ == chord@.skip(at)
            }
        }),
{
    let s = chars_of(chord);
    let n: usize = s.len();
    let mut mods = Mods { shift: false, ctrl: false, alt: false, logo: false };
    let mut from: usize = 0;
    let mut p: usize = find_char(&s, '+', 0, n);
    while p < n
        invariant
            s@ == chord@,
            n == s@.len(),
            from <= p <= n,
            p == find_from(s@, '+', from as int, n as int),
            chord_from(s@, 0, no_mods()) == chord_from(s@, from as int, mods),
        decreases n - from,
    {
        let name = slice_string(&s, from, p);
        match modifier(name.as_str()) {
            Some(Modifier::Logo) => {
                mods.logo = true;
            },
            Some(Modifier::Shift) => {
                mods.shift = true;
            },
            Some(Modifier::Alt) => {
                mods.alt = true;
            },
            Some(Modifier::Ctrl) => {
                mods.ctrl = true;
            },
            None => {
                return None;
            },
        }
        from = p + 1;
        p = find_char(&s, '+', from, n);
    }
    let key = slice_string(&s, from, n);
    proof {
        assert(chord@.skip(from as int) =~= s@.subrange(from as int, n as int));
    }
    Some((mods, key))
}

/// The answer to a command that was carried out: "ok", the command's word,
/// and its argument.
pub fn ok_line(word: &str, arg: &str) -> (s: String)
    ensures
        s@ == "ok "@ + word@ + " "@ + arg@,
{
    let mut s = "ok ".to_owned();
    s.append(word);
    s.append(" ");
    s.append(arg);
    s
}

/// The answer to a command that failed: "err", its word and argument, and
/// why.
pub fn err_line(word: &str, arg: &str, why: &str) -> (s: String)
    ensures
        s@ == "err "@ + word@ + " "@ + arg@ + ": "@ + why@,
{
    let mut s = "err ".to_owned();
    s.append(word);
    s.append(" ");
    s.append(arg);
    s.append(": ");
    s.append(why);
    s
}

/// Resolve a chord against the bindings, through the same lookup the
/// keyboard goes through. `keysym` gives the keysym a key name stands for; a
/// name with a null character stands for none.
pub fn chord_action<F: Fn(String) -> u32>(
    bindings: &Vec<Binding>,
    chord: &str,
    keysym: F,
) -> (action: Option<Action>)
    requires
        forall|name: String| !name@.contains('\0') ==> call_requires(keysym, (name,)),
    ensures
        match chord_from(chord@, 0, no_mods()) {
            None => action is None,
            Some((mods, at)) => if chord@.skip(at).contains('\0') {
                action is None
            } else {
                exists|name: String, sym: u32| #[trigger]
                    call_ensures(keysym, (name,), sym) && name@ == chord@.skip(at) && action
                        == bound_from(bindings@, mods.mask(), sym, 0)
            },
        },
{
    match parse_chord(chord) {
        None => None,
        Some((mods, key)) => {
            let letters = chars_of(key.as_str());
            let n: usize = letters.len();
            let at: usize = find_char(&letters, '\0', 0, n);
            proof {
                lemma_find(letters@, '\0', 0, n as int);
            }
            if at < n {
                proof {
                    assert(key@[at as int] == '\0');
                }
                return None;
            }
            let ghost name = key;
            let sym: u32 = keysym(key);
            let action = binding_action(bindings, &mods, sym);
            proof {
                assert(call_ensures(keysym, (name,), sym));
            }
            action
        },
    }
}

} // verus!
