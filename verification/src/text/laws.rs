//! What reading text promises.

use super::{
    all_digits, digits_value, fields, fields_from, find_from, fold, fold_eq, hex_digit, hex_of,
    is_white, lemma_find, number_of, trim_end, trim_start, trimmed, upper,
};
use vstd::prelude::*;

verus! {

/// Law: two texts are alike exactly where they agree letter by letter but for
/// the case of ASCII letters; every text is like itself, and likeness goes
/// both ways and on.
pub proof fn likeness_ignores_only_case(a: Seq<char>, b: Seq<char>, c: Seq<char>, x: char, y: char)
    ensures
        fold_eq(a, a),
        fold_eq(a, b) <==> fold_eq(b, a),
        fold_eq(a, b) && fold_eq(b, c) ==> fold_eq(a, c),
        fold(x) == fold(y) <==> upper(x) == upper(y),
        !('a' <= x <= 'z') && !('A' <= x <= 'Z') && fold(x) == fold(y) && !('a' <= y <= 'z') && !(
        'A' <= y <= 'Z') ==> x == y,
        'a' <= x <= 'z' ==> upper(x) as int == x as int - 0x20,
        !('a' <= x <= 'z') ==> upper(x) == x,
{
}

proof fn lemma_trim_start(s: Seq<char>, from: int, to: int)
    requires
        0 <= from <= to <= s.len(),
    ensures
        from <= trim_start(s, from, to) <= to,
        forall|i: int| from <= i < trim_start(s, from, to) ==> is_white(#[trigger] s[i]),
        trim_start(s, from, to) < to ==> !is_white(s[trim_start(s, from, to)]),
    decreases to - from,
{
    if from < to && is_white(s[from]) {
        lemma_trim_start(s, from + 1, to);
    }
}

proof fn lemma_trim_end(s: Seq<char>, from: int, to: int)
    requires
        0 <= from <= to <= s.len(),
    ensures
        from <= trim_end(s, from, to) <= to,
        forall|i: int| trim_end(s, from, to) <= i < to ==> is_white(#[trigger] s[i]),
        trim_end(s, from, to) > from ==> !is_white(s[trim_end(s, from, to) - 1]),
    decreases to - from,
{
    if from < to && is_white(s[to - 1]) {
        lemma_trim_end(s, from, to - 1);
    }
}

/// Law: trimming takes off white space at both ends, all of it and nothing
/// else.
pub proof fn trimming_takes_off_white_space(s: Seq<char>, from: int, to: int) -> (at: (int, int))
    requires
        0 <= from <= to <= s.len(),
    ensures
        from <= at.0 <= at.1 <= to,
        trimmed(s, from, to) == s.subrange(at.0, at.1),
        forall|i: int| from <= i < at.0 ==> is_white(#[trigger] s[i]),
        forall|i: int| at.1 <= i < to ==> is_white(#[trigger] s[i]),
        at.0 < at.1 ==> !is_white(s[at.0]) && !is_white(s[at.1 - 1]),
{
    let a = trim_start(s, from, to);
    lemma_trim_start(s, from, to);
    lemma_trim_end(s, a, to);
    (a, trim_end(s, a, to))
}

/// Law: white space is a space, a tab, a line end or one of the other blank
/// characters, and no printing character of ASCII.
pub proof fn letters_are_not_white(c: char)
    ensures
        '!' <= c <= '~' ==> !is_white(c),
        is_white(' '),
        is_white('\t'),
        is_white('\n'),
        is_white('\r'),
{
}

/// Law: a number is read digit by digit from the left, each place worth ten
/// times the next; a plus sign may stand before it, and nothing else may.
pub proof fn numbers_are_read_in_tens(s: Seq<char>, d: char)
    requires
        '0' <= d <= '9',
        s.len() > 0,
        all_digits(s),
        digits_value(s.push(d)) <= usize::MAX,
        s[0] != '+',
    ensures
        number_of(s.push(d)) is Some,
        number_of(s) is Some,
        number_of(s.push(d))->0 == 10 * number_of(s)->0 + (d as int - '0' as int),
        number_of(seq!['+'] + s) == number_of(s),
        number_of(Seq::<char>::empty()) is None,
        number_of(seq![d]) is Some && number_of(seq![d])->0 == d as int - '0' as int,
{
    let t = s.push(d);
    assert(t.drop_last() =~= s);
    assert(t.last() == d);
    assert(all_digits(t)) by {
        assert forall|i: int| 0 <= i < t.len() implies '0' <= #[trigger] t[i] <= '9' by {
            if i < s.len() {
                assert(t[i] == s[i]);
            }
        }
    }
    lemma_digits_nonneg(s);
    assert(t[0] == s[0]);
    let plus = seq!['+'] + s;
    assert(plus.skip(1) =~= s);
    let one = seq![d];
    assert(one.drop_last() =~= Seq::<char>::empty());
    assert(digits_value(Seq::<char>::empty()) == 0);
    assert(digits_value(one) == d as int - '0' as int);
    assert(all_digits(one));
}

proof fn lemma_digits_nonneg(s: Seq<char>)
    requires
        all_digits(s),
    ensures
        0 <= digits_value(s),
    decreases s.len(),
{
    if s.len() > 0 {
        assert(all_digits(s.drop_last())) by {
            assert forall|i: int| 0 <= i < s.drop_last().len() implies '0'
                <= #[trigger] s.drop_last()[i] <= '9' by {
                assert(s.drop_last()[i] == s[i]);
            }
        }
        lemma_digits_nonneg(s.drop_last());
        assert('0' <= s[s.len() - 1] <= '9');
    }
}

/// Law: two numbers written in hexadecimal with as many places as they need
/// are written alike only if they are one.
pub proof fn hexadecimal_tells_numbers_apart(v: int, w: int, n: int)
    requires
        0 <= n,
        0 <= v,
        0 <= w,
        hex_of(v, n) == hex_of(w, n),
        n == 0 ==> v == 0 && w == 0,
        n > 0 ==> v / 16 < pow16(n - 1) && w / 16 < pow16(n - 1),
    ensures
        v == w,
        hex_of(v, n).len() == n,
    decreases n,
{
    if n > 0 {
        let (a, b) = (hex_of(v, n), hex_of(w, n));
        assert(a.last() == hex_digit(v % 16) && b.last() == hex_digit(w % 16));
        assert(a.drop_last() =~= hex_of(v / 16, n - 1));
        assert(b.drop_last() =~= hex_of(w / 16, n - 1));
        if n > 1 {
            assert(v / 16 / 16 < pow16(n - 2)) by (nonlinear_arith)
                requires
                    v / 16 < pow16(n - 1),
                    pow16(n - 1) == 16 * pow16(n - 2),
                    0 <= v,
            ;
            assert(w / 16 / 16 < pow16(n - 2)) by (nonlinear_arith)
                requires
                    w / 16 < pow16(n - 1),
                    pow16(n - 1) == 16 * pow16(n - 2),
                    0 <= w,
            ;
        }
        hexadecimal_tells_numbers_apart(v / 16, w / 16, n - 1);
    }
}

/// Sixteen to the power of `n`.
pub open spec fn pow16(n: int) -> int
    decreases n,
{
    if n <= 0 {
        1
    } else {
        16 * pow16(n - 1)
    }
}

/// The fields put together again with `c` between them.
pub open spec fn rejoined(fields: Seq<Seq<char>>, c: char) -> Seq<char>
    decreases fields.len(),
{
    if fields.len() == 0 {
        Seq::empty()
    } else if fields.len() == 1 {
        fields[0]
    } else {
        fields[0] + seq![c] + rejoined(fields.skip(1), c)
    }
}

proof fn lemma_fields(s: Seq<char>, c: char, k: int)
    requires
        0 <= k <= s.len(),
    ensures
        fields_from(s, c, k).len() > 0,
        rejoined(fields_from(s, c, k), c) == s.skip(k),
        forall|i: int|
            0 <= i < fields_from(s, c, k).len() ==> !(#[trigger] fields_from(s, c, k)[i]).contains(
                c,
            ),
    decreases s.len() - k,
{
    let n = s.len() as int;
    let e = find_from(s, c, k, n);
    lemma_find(s, c, k, n);
    let first = s.subrange(k, e);
    let rest = fields_from(s, c, e + 1);
    let all = fields_from(s, c, k);
    assert(all == seq![first] + rest);
    assert(!first.contains(c)) by {
        if first.contains(c) {
            let i = choose|i: int| 0 <= i < first.len() && first[i] == c;
            assert(s[k + i] == c);
        }
    }
    if e < n {
        lemma_fields(s, c, e + 1);
        assert(all.skip(1) =~= rest);
        assert(first + seq![c] + s.skip(e + 1) =~= s.skip(k));
        assert forall|i: int| 0 <= i < all.len() implies !(#[trigger] all[i]).contains(c) by {
            if i > 0 {
                assert(all[i] == rest[i - 1]);
            }
        }
    } else {
        assert(rest =~= Seq::<Seq<char>>::empty());
        assert(all =~= seq![first]);
        assert(first =~= s.skip(k));
    }
}

/// Law: a text split at a character is the fields between those characters:
/// put together again they are the text, and none of them holds it.
pub proof fn splitting_loses_nothing(s: Seq<char>, c: char)
    ensures
        rejoined(fields(s, c), c) == s,
        forall|i: int| 0 <= i < fields(s, c).len() ==> !(#[trigger] fields(s, c)[i]).contains(c),
{
    lemma_fields(s, c, 0);
    assert(s.skip(0) =~= s);
}

} // verus!
