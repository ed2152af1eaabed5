//! What the debug commands mean.

use super::{chord_from, meaning, modifier_named, no_mods, with_modifier, Modifier, Parsed};
use crate::input::Mods;
use crate::text::{find_from, lemma_find};
use vstd::prelude::*;

verus! {

proof fn lemma_word(line: Seq<char>, word: Seq<char>, arg: Seq<char>)
    requires
        line == word + seq![' '] + arg,
        forall|i: int| 0 <= i < word.len() ==> word[i] != ' ',
    ensures
        find_from(line, ' ', 0, line.len() as int) == word.len(),
        line.subrange(0, word.len() as int) == word,
        line.subrange(word.len() as int + 1, line.len() as int) == arg,
{
    let p = find_from(line, ' ', 0, line.len() as int);
    lemma_find(line, ' ', 0, line.len() as int);
    assert(line[word.len() as int] == ' ');
    if p < word.len() {
        assert(line[p] == word[p]);
    }
    assert(line.subrange(0, word.len() as int) =~= word);
    assert(line.subrange(word.len() as int + 1, line.len() as int) =~= arg);
}

/// Law: a command is its first word, and all that follows the first space is
/// its argument, spaces included; a word of its own names the two commands
/// that take none, and anything else is not known.
pub proof fn commands_are_their_first_word(arg: Seq<char>)
    ensures
        meaning("key"@ + seq![' '] + arg) == Parsed::Key(arg),
        meaning("spawn"@ + seq![' '] + arg) == Parsed::Spawn(arg),
        meaning("motion"@ + seq![' '] + arg) == Parsed::Motion(arg),
        meaning("click"@ + seq![' '] + arg) == Parsed::Click(arg),
        meaning("scroll"@ + seq![' '] + arg) == Parsed::Scroll(arg),
        meaning("shot"@ + seq![' '] + arg) == Parsed::Shot(arg),
        meaning("focus"@) is Focus,
        meaning("cursor"@) is Cursor,
        meaning("focus"@ + seq![' '] + arg) is Unknown,
{
    reveal_strlit("key");
    reveal_strlit("spawn");
    reveal_strlit("motion");
    reveal_strlit("click");
    reveal_strlit("scroll");
    reveal_strlit("shot");
    reveal_strlit("focus");
    reveal_strlit("cursor");
    lemma_word("key"@ + seq![' '] + arg, "key"@, arg);
    lemma_word("spawn"@ + seq![' '] + arg, "spawn"@, arg);
    lemma_word("motion"@ + seq![' '] + arg, "motion"@, arg);
    lemma_word("click"@ + seq![' '] + arg, "click"@, arg);
    lemma_word("scroll"@ + seq![' '] + arg, "scroll"@, arg);
    lemma_word("shot"@ + seq![' '] + arg, "shot"@, arg);
    lemma_word("focus"@ + seq![' '] + arg, "focus"@, arg);
    lemma_find("focus"@, ' ', 0, 5);
    lemma_find("cursor"@, ' ', 0, 6);
    assert("spawn"@.len() != "key"@.len());
    assert("motion"@.len() != "key"@.len() && "motion"@.len() != "spawn"@.len());
    assert("click"@[0] != "spawn"@[0]);
    assert("scroll"@[0] != "motion"@[0]);
    assert("shot"@.len() == 4);
    assert("focus"@[0] != "spawn"@[0] && "focus"@[0] != "click"@[0]);
    assert("cursor"@.len() != "focus"@.len());
}

/// Law: a chord's modifiers are all those named before its last plus sign,
/// and naming one twice or in another order makes no difference.
pub proof fn modifiers_add_up(mods: Mods, a: Modifier, b: Modifier)
    ensures
        with_modifier(with_modifier(mods, a), b) == with_modifier(with_modifier(mods, b), a),
        with_modifier(with_modifier(mods, a), a) == with_modifier(mods, a),
        with_modifier(no_mods(), Modifier::Logo).logo,
        with_modifier(no_mods(), Modifier::Shift).shift,
        with_modifier(no_mods(), Modifier::Alt).alt,
        with_modifier(no_mods(), Modifier::Ctrl).ctrl,
        with_modifier(mods, a).logo <==> mods.logo || a is Logo,
        with_modifier(mods, a).shift <==> mods.shift || a is Shift,
        with_modifier(mods, a).alt <==> mods.alt || a is Alt,
        with_modifier(mods, a).ctrl <==> mods.ctrl || a is Ctrl,
{
}

/// Law: a name followed by a plus sign adds its modifier to the rest of the
/// chord, and a name that is no modifier spoils it; without a plus sign all
/// of it is the key.
pub proof fn a_chord_is_read_from_the_left(s: Seq<char>, from: int, mods: Mods, p: int)
    requires
        0 <= from <= p <= s.len(),
        forall|i: int| from <= i < p ==> s[i] != '+',
        p < s.len() ==> s[p] == '+',
    ensures
        p == s.len() ==> chord_from(s, from, mods) == Some((mods, from)),
        p < s.len() && modifier_named(s.subrange(from, p)) is None ==> chord_from(s, from, mods)
            is None,
        p < s.len() && modifier_named(s.subrange(from, p)) is Some ==> chord_from(s, from, mods)
            == chord_from(
            s,
            p + 1,
            with_modifier(mods, modifier_named(s.subrange(from, p))->0),
        ),
{
    lemma_find(s, '+', from, s.len() as int);
    let q = find_from(s, '+', from, s.len() as int);
    if q < p {
        assert(s[q] == '+');
    } else if p < q {
        assert(s[p] != '+');
    }
}

} // verus!
