//! What reading and scaling images promises.

use super::{
    header_line, packed, pam_of, sample, scaled_size, snapped_to, unpacked, HeaderLine, Rgb, Rgba,
};
use crate::text::{find_from, lemma_find, number_of, trimmed};
use vstd::prelude::*;

verus! {

/// Law: an icon drawn at its own size is drawn pixel for pixel: what is at
/// least half opaque in its colour, the rest not at all.
pub proof fn icons_at_their_own_size_are_unchanged(argb: Seq<u32>, sz: int, x: int, y: int)
    requires
        0 <= x < sz,
        0 <= y < sz,
    ensures
        ({
            let p = unpacked(argb[y * sz + x]);
            let s = sample(argb, sz, sz, sz, y * sz + x);
            &&& p.a >= 128 ==> s == Some(Rgb { r: p.r, g: p.g, b: p.b })
            &&& p.a < 128 ==> s is None
        }),
{
    let n = y * sz + x;
    assert(n % sz == x && n / sz == y) by (nonlinear_arith)
        requires
            n == y * sz + x,
            0 <= x < sz,
            0 <= y,
    ;
    assert(sz * sz / sz == sz) by (nonlinear_arith)
        requires
            0 < sz,
    ;
    assert(y * sz / sz == y && x * sz / sz == x) by (nonlinear_arith)
        requires
            0 < sz,
            0 <= x,
            0 <= y,
    ;
}

/// Law: a scaled icon keeps its proportions, rounded down, and stands in the
/// middle of its square with nothing drawn around it.
pub proof fn scaled_icons_keep_their_proportions(iw: int, ih: int, sz: int)
    requires
        1 <= ih <= iw,
        1 <= sz,
        iw <= ih * sz,
    ensures
        ({
            let (dw, dh) = scaled_size(iw, ih, sz);
            &&& dw == sz
            &&& dh * iw <= ih * sz < (dh + 1) * iw
            &&& scaled_size(ih, iw, sz) == (dh, dw) || iw == ih
        }),
{
    let dh = ih * sz / iw;
    assert(1 <= dh && dh * iw <= ih * sz < (dh + 1) * iw) by (nonlinear_arith)
        requires
            dh == ih * sz / iw,
            iw <= ih * sz,
            1 <= iw,
    ;
}

/// Law: nothing is drawn outside the scaled icon, whose margins differ by one
/// pixel at most.
pub proof fn margins_stay_empty(argb: Seq<u32>, iw: int, ih: int, sz: int, x: int, y: int)
    requires
        1 <= iw,
        1 <= ih,
        0 <= x < sz,
        0 <= y < sz,
    ensures
        ({
            let (dw, dh) = scaled_size(iw, ih, sz);
            let (left, top) = ((sz - dw) / 2, (sz - dh) / 2);
            &&& 0 <= (sz - dw - left) - left <= 1
            &&& 0 <= (sz - dh - top) - top <= 1
            &&& x < left || x >= left + dw || y < top || y >= top + dh ==> sample(
                argb,
                iw,
                ih,
                sz,
                y * sz + x,
            ) is None
        }),
{
    let n = y * sz + x;
    assert(n % sz == x && n / sz == y) by (nonlinear_arith)
        requires
            n == y * sz + x,
            0 <= x < sz,
            0 <= y,
    ;
}

/// Law: a pixel snapped to a palette colour keeps how opaque it is, and one
/// that is not to be seen stays as it is.
pub proof fn snapping_keeps_opacity(p: Rgba, c: Rgb)
    ensures
        p.a == 0 ==> snapped_to(packed(p) as u32, c) == packed(p),
        p.a > 0 ==> unpacked(snapped_to(packed(p) as u32, c) as u32) == (Rgba {
            r: c.r,
            g: c.g,
            b: c.b,
            a: p.a,
        }),
{
    super::packing_round_trips(p, 0);
    let v = packed(p) as u32;
    assert(v / 0x100_0000 == p.a);
    super::packing_round_trips(Rgba { r: c.r, g: c.g, b: c.b, a: p.a }, 0);
}

/// Law: a packed pixel has its opacity in the highest byte, then red, green
/// and blue.
pub proof fn pixels_are_packed_opacity_first(p: Rgba)
    ensures
        packed(p) / 0x100_0000 == p.a,
        packed(p) / 0x1_0000 % 0x100 == p.r,
        packed(p) / 0x100 % 0x100 == p.g,
        packed(p) % 0x100 == p.b,
        0 <= packed(p) <= u32::MAX,
{
}

/// Law: an image that is read is neither empty nor larger than allowed, and
/// every pixel it claims is there.
pub proof fn images_that_are_read_are_whole(s: Seq<u8>, max_dim: usize)
    requires
        pam_of(s, max_dim) is Some,
    ensures
        ({
            let (w, h, at) = pam_of(s, max_dim)->0;
            &&& 0 < w <= max_dim
            &&& 0 < h <= max_dim
            &&& at + 4 * (w * h) <= s.len()
            &&& s[0] == 'P' as int && s[1] == '7' as int && s[2] == '\n' as int
        }),
{
}

proof fn lemma_key(line: Seq<char>, key: Seq<char>, value: Seq<char>)
    requires
        line == key + seq![' '] + value,
        forall|i: int| 0 <= i < key.len() ==> key[i] != ' ',
    ensures
        find_from(line, ' ', 0, line.len() as int) == key.len(),
        line.subrange(0, key.len() as int) == key,
        line.subrange(key.len() as int + 1, line.len() as int) == value,
{
    let p = find_from(line, ' ', 0, line.len() as int);
    lemma_find(line, ' ', 0, line.len() as int);
    assert(line[key.len() as int] == ' ');
    if p < key.len() {
        assert(line[p] == key[p]);
    }
    assert(line.subrange(0, key.len() as int) =~= key);
    assert(line.subrange(key.len() as int + 1, line.len() as int) =~= value);
}

/// Law: a header states the width and the height under their own names, ends
/// with its end line, and is refused for any other depth, range or kind than
/// four bytes of red, green, blue and opacity a pixel.
pub proof fn headers_state_one_kind_of_image(value: Seq<char>)
    ensures
        header_line("ENDHDR"@) is End,
        ({
            let line = "WIDTH"@ + seq![' '] + value;
            header_line(line) == HeaderLine::Width(
                number_of(trimmed(line, 6, line.len() as int)),
            )
        }),
        ({
            let line = "HEIGHT"@ + seq![' '] + value;
            header_line(line) == HeaderLine::Height(
                number_of(trimmed(line, 7, line.len() as int)),
            )
        }),
        header_line("DEPTH"@ + seq![' '] + value) is Refused <==> value != "4"@,
        header_line("MAXVAL"@ + seq![' '] + value) is Refused <==> value != "255"@,
        header_line("TUPLTYPE"@ + seq![' '] + value) is Refused <==> value != "RGB_ALPHA"@,
{
    reveal_strlit("ENDHDR");
    reveal_strlit("WIDTH");
    reveal_strlit("HEIGHT");
    reveal_strlit("DEPTH");
    reveal_strlit("MAXVAL");
    reveal_strlit("TUPLTYPE");
    lemma_key("WIDTH"@ + seq![' '] + value, "WIDTH"@, value);
    lemma_key("HEIGHT"@ + seq![' '] + value, "HEIGHT"@, value);
    lemma_key("DEPTH"@ + seq![' '] + value, "DEPTH"@, value);
    lemma_key("MAXVAL"@ + seq![' '] + value, "MAXVAL"@, value);
    lemma_key("TUPLTYPE"@ + seq![' '] + value, "TUPLTYPE"@, value);
    let end = "ENDHDR"@;
    assert(("WIDTH"@ + seq![' '] + value)[0] != end[0]);
    assert(("HEIGHT"@ + seq![' '] + value)[0] != end[0]);
    assert(("DEPTH"@ + seq![' '] + value)[0] != end[0]);
    assert(("MAXVAL"@ + seq![' '] + value)[0] != end[0]);
    assert(("TUPLTYPE"@ + seq![' '] + value)[0] != end[0]);
    assert("HEIGHT"@.len() != "WIDTH"@.len());
    assert("DEPTH"@[0] != "WIDTH"@[0]);
    assert("MAXVAL"@[0] != "HEIGHT"@[0]);
    assert("TUPLTYPE"@.len() == 8);
}

} // verus!
