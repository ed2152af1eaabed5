//! Text as characters: the small string operations that names, entries and
//! commands are compared and cut with.

use vstd::prelude::*;
use vstd::string::*;

pub mod laws;

verus! {

/// `String::push`: the character becomes the last one of the string.
pub assume_specification[ String::push ](s: &mut String, c: char)
    ensures
        final(s)@ == old(s)@.push(c),
;

/// The characters of `s`.
pub fn chars_of(s: &str) -> (v: Vec<char>)
    ensures
        v@ == s@,
{
    let mut v: Vec<char> = Vec::new();
    for c in it: s.chars()
        invariant
            v@ == s@.take(it.index() as int),
            it.seq() == s@,
    {
        proof {
            assert(s@.take(it.index() as int + 1) =~= s@.take(it.index() as int).push(c));
        }
        v.push(c);
    }
    proof {
        assert(s@.take(s@.len() as int) =~= s@);
    }
    v
}

/// The string made of the characters from `from` up to `to`.
pub fn slice_string(v: &Vec<char>, from: usize, to: usize) -> (s: String)
    requires
        from <= to <= v@.len(),
    ensures
        s@ == v@.subrange(from as int, to as int),
{
    let mut s = String::new();
    let mut k: usize = from;
    while k < to
        invariant
            from <= k <= to <= v@.len(),
            s@ == v@.subrange(from as int, k as int),
        decreases to - k,
    {
        s.push(v[k]);
        proof {
            assert(v@.subrange(from as int, k + 1) =~= v@.subrange(from as int, k as int).push(
                v@[k as int],
            ));
        }
        k = k + 1;
    }
    s
}

/// The string made of these characters.
pub fn string_of(v: &Vec<char>) -> (s: String)
    ensures
        s@ == v@,
{
    let s = slice_string(v, 0, v.len());
    proof {
        assert(v@.subrange(0, v@.len() as int) =~= v@);
    }
    s
}

/// Whether two strings hold the same characters.
pub fn same_str(a: &str, b: &str) -> (same: bool)
    ensures
        same == (a@ == b@),
{
    let s = a.to_owned();
    let t = b.to_owned();
    s == t
}

/// A character's value with ASCII capitals taken as small letters.
pub open spec fn fold(c: char) -> int {
    if 'A' <= c <= 'Z' {
        c as int + 32
    } else {
        c as int
    }
}

fn fold_char(c: char) -> (v: u32)
    ensures
        v == fold(c),
{
    if 'A' <= c && c <= 'Z' {
        c as u32 + 32
    } else {
        c as u32
    }
}

/// Whether two texts are the same but for the case of ASCII letters.
pub open spec fn fold_eq(a: Seq<char>, b: Seq<char>) -> bool {
    &&& a.len() == b.len()
    &&& forall|i: int| 0 <= i < a.len() ==> fold(#[trigger] a[i]) == fold(b[i])
}

/// Whether two strings are the same but for the case of ASCII letters.
pub fn eq_ignore_ascii_case(a: &str, b: &str) -> (same: bool)
    ensures
        same == fold_eq(a@, b@),
{
    let x = chars_of(a);
    let y = chars_of(b);
    if x.len() != y.len() {
        return false;
    }
    let mut k: usize = 0;
    while k < x.len()
        invariant
            k <= x@.len(),
            x@ == a@,
            y@ == b@,
            x@.len() == y@.len(),
            forall|i: int| 0 <= i < k ==> fold(#[trigger] a@[i]) == fold(b@[i]),
        decreases x@.len() - k,
    {
        if fold_char(x[k]) != fold_char(y[k]) {
            assert(fold(a@[k as int]) != fold(b@[k as int]));
            return false;
        }
        k = k + 1;
    }
    true
}

/// `c` with an ASCII small letter made a capital.
pub open spec fn upper(c: char) -> char {
    if 'a' <= c <= 'z' {
        (c as int - 32) as char
    } else {
        c
    }
}

/// `c` with an ASCII small letter made a capital.
pub fn ascii_upper(c: char) -> (u: char)
    ensures
        u == upper(c),
{
    if 'a' <= c && c <= 'z' {
        (c as u8 - 32) as char
    } else {
        c
    }
}

/// The white space of Unicode.
pub open spec fn is_white(c: char) -> bool {
    let v = c as int;
    ||| 0x09 <= v <= 0x0d
    ||| v == 0x20
    ||| v == 0x85
    ||| v == 0xa0
    ||| v == 0x1680
    ||| 0x2000 <= v <= 0x200a
    ||| v == 0x2028
    ||| v == 0x2029
    ||| v == 0x202f
    ||| v == 0x205f
    ||| v == 0x3000
}

/// Whether `c` is white space.
pub fn white(c: char) -> (w: bool)
    ensures
        w == is_white(c),
{
    let v: u32 = c as u32;
    (0x09 <= v && v <= 0x0d) || v == 0x20 || v == 0x85 || v == 0xa0 || v == 0x1680 || (0x2000 <= v
        && v <= 0x200a) || v == 0x2028 || v == 0x2029 || v == 0x202f || v == 0x205f || v == 0x3000
}

/// The first place from `from` on, before `to`, that holds `c`; `to` if
/// none.
pub open spec fn find_from(s: Seq<char>, c: char, from: int, to: int) -> int
    decreases to - from,
{
    if from >= to {
        to
    } else if s[from] == c {
        from
    } else {
        find_from(s, c, from + 1, to)
    }
}

/// Look for `c` between `from` and `to`.
pub fn find_char(s: &Vec<char>, c: char, from: usize, to: usize) -> (at: usize)
    requires
        from <= to <= s@.len(),
    ensures
        at == find_from(s@, c, from as int, to as int),
        from <= at <= to,
        at < to ==> s@[at as int] == c,
{
    let mut k: usize = from;
    while k < to
        invariant
            from <= k <= to <= s@.len(),
            find_from(s@, c, from as int, to as int) == find_from(s@, c, k as int, to as int),
        decreases to - k,
    {
        if s[k] == c {
            return k;
        }
        k = k + 1;
    }
    k
}

/// `find_from` stays within its bounds and finds what it says.
pub proof fn lemma_find(s: Seq<char>, c: char, from: int, to: int)
    requires
        0 <= from <= to <= s.len(),
    ensures
        from <= find_from(s, c, from, to) <= to,
        find_from(s, c, from, to) < to ==> s[find_from(s, c, from, to)] == c,
        forall|j: int| from <= j < find_from(s, c, from, to) ==> s[j] != c,
    decreases to - from,
{
    if from < to && s[from] != c {
        lemma_find(s, c, from + 1, to);
    }
}

/// Where the text between `from` and `to` starts once leading white space
/// is left out.
pub open spec fn trim_start(s: Seq<char>, from: int, to: int) -> int
    decreases to - from,
{
    if from < to && is_white(s[from]) {
        trim_start(s, from + 1, to)
    } else {
        from
    }
}

/// Where it ends once trailing white space is left out.
pub open spec fn trim_end(s: Seq<char>, from: int, to: int) -> int
    decreases to - from,
{
    if from < to && is_white(s[to - 1]) {
        trim_end(s, from, to - 1)
    } else {
        to
    }
}

/// The text between `from` and `to` without white space around it.
pub open spec fn trimmed(s: Seq<char>, from: int, to: int) -> Seq<char> {
    let a = trim_start(s, from, to);
    s.subrange(a, trim_end(s, a, to))
}

/// The bounds of the text between `from` and `to` without white space
/// around it.
pub fn trim(s: &Vec<char>, from: usize, to: usize) -> (r: (usize, usize))
    requires
        from <= to <= s@.len(),
    ensures
        from <= r.0 <= r.1 <= to,
        r.0 == trim_start(s@, from as int, to as int),
        r.1 == trim_end(s@, r.0 as int, to as int),
        s@.subrange(r.0 as int, r.1 as int) == trimmed(s@, from as int, to as int),
{
    let mut a: usize = from;
    while a < to && white(s[a])
        invariant
            from <= a <= to <= s@.len(),
            trim_start(s@, from as int, to as int) == trim_start(s@, a as int, to as int),
        decreases to - a,
    {
        a = a + 1;
    }
    let mut b: usize = to;
    while a < b && white(s[b - 1])
        invariant
            from <= a <= b <= to <= s@.len(),
            trim_end(s@, a as int, to as int) == trim_end(s@, a as int, b as int),
        decreases b - a,
    {
        b = b - 1;
    }
    (a, b)
}

/// Whether the text between `from` and `to` is exactly `lit`.
pub fn is_text(s: &Vec<char>, from: usize, to: usize, lit: &str) -> (same: bool)
    requires
        from <= to <= s@.len(),
    ensures
        same == (s@.subrange(from as int, to as int) == lit@),
{
    let part = slice_string(s, from, to);
    same_str(part.as_str(), lit)
}

/// Whether the text between `from` and `to` starts with `lit`.
pub open spec fn starts_at(s: Seq<char>, from: int, to: int, lit: Seq<char>) -> bool {
    from + lit.len() <= to && s.subrange(from, from + lit.len()) == lit
}

/// Whether the text between `from` and `to` starts with `lit`.
pub fn starts_with(s: &Vec<char>, from: usize, to: usize, lit: &str) -> (b: bool)
    requires
        from <= to <= s@.len(),
    ensures
        b == starts_at(s@, from as int, to as int, lit@),
{
    let n: usize = lit.unicode_len();
    if n > to - from {
        return false;
    }
    is_text(s, from, from + n, lit)
}

/// The value of a text of decimal digits.
pub open spec fn digits_value(s: Seq<char>) -> int
    decreases s.len(),
{
    if s.len() == 0 {
        0
    } else {
        digits_value(s.drop_last()) * 10 + (s.last() as int - '0' as int)
    }
}

/// Whether every character is a decimal digit.
pub open spec fn all_digits(s: Seq<char>) -> bool {
    forall|i: int| 0 <= i < s.len() ==> '0' <= #[trigger] s[i] <= '9'
}

/// The digits of a number, a plus sign before them left out.
pub open spec fn unsigned_digits(s: Seq<char>) -> Seq<char> {
    if s.len() > 0 && s[0] == '+' {
        s.skip(1)
    } else {
        s
    }
}

/// The number a text stands for: decimal digits, at least one, perhaps
/// after a plus sign, that fit.
pub open spec fn number_of(s: Seq<char>) -> Option<usize> {
    let d = unsigned_digits(s);
    if d.len() > 0 && all_digits(d) && digits_value(d) <= usize::MAX {
        Some(digits_value(d) as usize)
    } else {
        None
    }
}

proof fn lemma_digits_grow(s: Seq<char>, n: int)
    requires
        all_digits(s),
        0 <= n <= s.len(),
    ensures
        0 <= digits_value(s.take(n)) <= digits_value(s),
    decreases s.len() - n,
{
    if n == s.len() {
        assert(s.take(n) =~= s);
        lemma_digits_nonneg(s);
    } else {
        let t = s.take(n + 1);
        assert(t.drop_last() =~= s.take(n));
        lemma_digits_nonneg(s.take(n));
        lemma_digits_grow(s, n + 1);
    }
}

proof fn lemma_digits_nonneg(s: Seq<char>)
    requires
        all_digits(s),
    ensures
        0 <= digits_value(s),
    decreases s.len(),
{
    if s.len() > 0 {
        assert(all_digits(s.drop_last()));
        assert('0' <= s[s.len() - 1] <= '9');
        lemma_digits_nonneg(s.drop_last());
    }
}

/// Read the number between `from` and `to`.
pub fn parse_number(s: &Vec<char>, from: usize, to: usize) -> (n: Option<usize>)
    requires
        from <= to <= s@.len(),
    ensures
        n == number_of(s@.subrange(from as int, to as int)),
{
    let ghost text = s@.subrange(from as int, to as int);
    let start: usize = if from < to && s[from] == '+' {
        from + 1
    } else {
        from
    };
    let ghost d = unsigned_digits(text);
    proof {
        assert(d =~= s@.subrange(start as int, to as int));
    }
    if start >= to {
        return None;
    }
    let mut value: usize = 0;
    let mut k: usize = start;
    while k < to
        invariant
            from <= start <= k <= to <= s@.len(),
            text == s@.subrange(from as int, to as int),
            d == s@.subrange(start as int, to as int),
            d.len() > 0,
            d == unsigned_digits(text),
            number_of(text) == (if all_digits(d) && digits_value(d) <= usize::MAX {
                Some(digits_value(d) as usize)
            } else {
                None
            }),
            all_digits(d.take(k - start)),
            value == digits_value(d.take(k - start)),
        decreases to - k,
    {
        let c = s[k];
        let ghost at = k - start;
        proof {
            assert(d[at] == c);
            assert(d.take(at + 1).drop_last() =~= d.take(at));
            assert(d.take(at + 1).last() == c);
        }
        if !('0' <= c && c <= '9') {
            return None;
        }
        let digit: usize = (c as u32 - '0' as u32) as usize;
        proof {
            if all_digits(d) {
                lemma_digits_grow(d, at + 1);
            }
            assert forall|i: int| 0 <= i < at + 1 implies '0' <= #[trigger] d.take(
                at + 1,
            )[i] <= '9' by {
                if i < at {
                    assert(d.take(at)[i] == d.take(at + 1)[i]);
                }
            }
        }
        let scaled = match value.checked_mul(10) {
            Some(v) => v,
            None => {
                return None;
            },
        };
        value = match scaled.checked_add(digit) {
            Some(v) => v,
            None => {
                return None;
            },
        };
        k = k + 1;
    }
    proof {
        assert(d.take(k - start) =~= d);
    }
    Some(value)
}

/// A hexadecimal digit.
pub open spec fn hex_digit(v: int) -> char {
    if v < 10 {
        (v + '0' as int) as char
    } else {
        (v - 10 + 'a' as int) as char
    }
}

/// The last `n` hexadecimal digits of `v`.
pub open spec fn hex_of(v: int, n: int) -> Seq<char>
    decreases n,
{
    if n <= 0 {
        Seq::empty()
    } else {
        hex_of(v / 16, n - 1).push(hex_digit(v % 16))
    }
}

fn hex_char(v: u8) -> (c: char)
    requires
        v < 16,
    ensures
        c == hex_digit(v as int),
{
    if v < 10 {
        (v + 48) as char
    } else {
        (v - 10 + 97) as char
    }
}

/// `v` in sixteen hexadecimal digits.
pub fn hex16(v: u64) -> (s: String)
    ensures
        s@ == hex_of(v as int, 16),
{
    let mut rev: Vec<char> = Vec::new();
    let mut rest: u64 = v;
    let mut k: usize = 0;
    proof {
        assert(rev@.reverse() =~= Seq::empty());
        assert(hex_of(rest as int, 16) + Seq::<char>::empty() =~= hex_of(rest as int, 16));
    }
    while k < 16
        invariant
            k <= 16,
            hex_of(rest as int, 16 - k) + rev@.reverse() == hex_of(v as int, 16),
        decreases 16 - k,
    {
        let ghost before = rev@;
        let c = hex_char((rest % 16) as u8);
        proof {
            assert(hex_of(rest as int, 16 - k) == hex_of(rest as int / 16, 16 - k - 1).push(c));
        }
        rev.push(c);
        proof {
            assert(rev@.reverse() =~= seq![c] + before.reverse());
            assert(hex_of(rest as int / 16, 16 - k - 1).push(c) + before.reverse() =~= hex_of(
                rest as int / 16,
                16 - k - 1,
            ) + rev@.reverse());
        }
        rest = rest / 16;
        k = k + 1;
    }
    proof {
        assert(hex_of(rest as int, 0) + rev@.reverse() =~= rev@.reverse());
    }
    let mut s = String::new();
    let mut j: usize = rev.len();
    let ghost all = rev@.reverse();
    proof {
        assert(all.take(0) =~= Seq::empty());
    }
    while j > 0
        invariant
            j <= rev@.len(),
            all == rev@.reverse(),
            s@ == all.take(rev@.len() - j),
        decreases j,
    {
        j = j - 1;
        s.push(rev[j]);
        proof {
            let n = rev@.len() - j;
            assert(all.take(n) =~= all.take(n - 1).push(all[n - 1]));
        }
    }
    proof {
        assert(all.take(rev@.len() as int) =~= all);
    }
    s
}

/// The views of strings.
pub open spec fn views(s: Seq<String>) -> Seq<Seq<char>> {
    s.map_values(|x: String| x@)
}

/// The text as a sequence of its own, without white space around it.
pub open spec fn trim_of(s: Seq<char>) -> Seq<char> {
    trimmed(s, 0, s.len() as int)
}

/// A text without white space around it.
pub fn trim_str(s: &str) -> (t: String)
    ensures
        t@ == trim_of(s@),
{
    let c = chars_of(s);
    let (a, b) = trim(&c, 0, c.len());
    slice_string(&c, a, b)
}

/// The pieces of a text from `k` on between occurrences of `c`.
pub open spec fn fields_from(s: Seq<char>, c: char, k: int) -> Seq<Seq<char>>
    decreases s.len() + 1 - k,
    when 0 <= k
    via fields_end
{
    if k > s.len() {
        Seq::empty()
    } else {
        let e = find_from(s, c, k, s.len() as int);
        seq![s.subrange(k, e)] + fields_from(s, c, e + 1)
    }
}

#[via_fn]
proof fn fields_end(s: Seq<char>, c: char, k: int) {
    if k <= s.len() {
        lemma_find(s, c, k, s.len() as int);
    }
}

/// The pieces of a text between occurrences of `c`.
pub open spec fn fields(s: Seq<char>, c: char) -> Seq<Seq<char>> {
    fields_from(s, c, 0)
}

/// Split a text at every `c`.
pub fn split_on(text: &str, c: char) -> (out: Vec<String>)
    ensures
        views(out@) == fields(text@, c),
{
    let s = chars_of(text);
    let n: usize = s.len();
    let mut out: Vec<String> = Vec::new();
    let mut k: usize = 0;
    proof {
        assert(views(out@) + fields_from(s@, c, 0) =~= fields_from(s@, c, 0));
    }
    loop
        invariant
            n == s@.len(),
            s@ == text@,
            k <= n,
            views(out@) + fields_from(s@, c, k as int) == fields_from(s@, c, 0),
        decreases n - k,
    {
        let e: usize = find_char(&s, c, k, n);
        let ghost before = out@;
        let ghost rest = fields_from(s@, c, e + 1);
        let piece = slice_string(&s, k, e);
        out.push(piece);
        proof {
            assert(views(out@) =~= views(before).push(piece@));
            assert(views(before) + (seq![piece@] + rest) =~= views(out@) + rest);
        }
        if e >= n {
            proof {
                assert(fields_from(s@, c, n + 1) =~= Seq::empty());
                assert(views(out@) + rest =~= views(out@));
            }
            return out;
        }
        k = e + 1;
    }
}

} // verus!
