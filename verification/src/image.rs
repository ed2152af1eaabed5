//! Decoded images: parsing the decoder's output, and icons as pixels.

use crate::text::{chars_of, find_char, find_from, is_text, number_of, parse_number, trim, trimmed};
use vstd::prelude::*;
use vstd::utf8::*;

pub mod laws;

verus! {

/// A colour.
#[derive(Clone, Copy, PartialEq, Eq, Debug, Structural)]
pub struct Rgb {
    pub r: u8,
    pub g: u8,
    pub b: u8,
}

/// A colour with straight alpha.
#[derive(Clone, Copy, PartialEq, Eq, Debug, Structural)]
pub struct Rgba {
    pub r: u8,
    pub g: u8,
    pub b: u8,
    pub a: u8,
}

/// Widest icon dimension worth keeping.
pub const MAX_ICON_DIM: usize = 2048;

/// Widest wallpaper dimension worth keeping.
pub const MAX_WALLPAPER_DIM: usize = 16384;

/// `std::str::from_utf8`: the text these bytes encode, or nothing if they
/// are not valid UTF-8.
#[verifier::external_body]
fn decode_line(bytes: &[u8]) -> (s: Option<String>)
    ensures
        s is Some == valid_utf8(bytes@),
        s is Some ==> encode_utf8(s->0@) == bytes@,
{
    std::str::from_utf8(bytes).ok().map(|s| s.to_owned())
}

/// The first newline from `k` on; the length if none.
pub open spec fn line_end(s: Seq<u8>, k: int) -> int
    decreases s.len() - k,
{
    if k >= s.len() {
        s.len() as int
    } else if s[k] == 10u8 {
        k
    } else {
        line_end(s, k + 1)
    }
}

proof fn lemma_line_end(s: Seq<u8>, k: int)
    requires
        0 <= k <= s.len(),
    ensures
        k <= line_end(s, k) <= s.len(),
    decreases s.len() - k,
{
    if k < s.len() && s[k] != 10u8 {
        lemma_line_end(s, k + 1);
    }
}

/// What one header line says.
pub enum HeaderLine {
    /// The header ends.
    End,
    Width(Option<usize>),
    Height(Option<usize>),
    /// A shape other than the one that is decoded.
    Refused,
    Other,
}

/// What a header line says: a key, and after the first space its value.
pub open spec fn header_line(line: Seq<char>) -> HeaderLine {
    let p = find_from(line, ' ', 0, line.len() as int);
    let key = line.subrange(0, p);
    let value = line.subrange(p + 1, line.len() as int);
    if line == "ENDHDR"@ {
        HeaderLine::End
    } else if p >= line.len() {
        HeaderLine::Other
    } else if key == "WIDTH"@ {
        HeaderLine::Width(number_of(trimmed(line, p + 1, line.len() as int)))
    } else if key == "HEIGHT"@ {
        HeaderLine::Height(number_of(trimmed(line, p + 1, line.len() as int)))
    } else if key == "DEPTH"@ {
        if value == "4"@ {
            HeaderLine::Other
        } else {
            HeaderLine::Refused
        }
    } else if key == "MAXVAL"@ {
        if value == "255"@ {
            HeaderLine::Other
        } else {
            HeaderLine::Refused
        }
    } else if key == "TUPLTYPE"@ {
        if value == "RGB_ALPHA"@ {
            HeaderLine::Other
        } else {
            HeaderLine::Refused
        }
    } else {
        HeaderLine::Other
    }
}

/// The dimensions a header declares from `k` on, those known before in
/// hand, and where the samples start. Nothing if the header has no end, is
/// not text, or declares another shape.
pub open spec fn header_from(s: Seq<u8>, k: int, w: Option<usize>, h: Option<usize>) -> Option<
    (Option<usize>, Option<usize>, int),
>
    decreases s.len() - k,
    when 0 <= k <= s.len()
    via header_from_ends
{
    let e = line_end(s, k);
    if e >= s.len() {
        None
    } else {
        let line = s.subrange(k, e);
        if !valid_utf8(line) {
            None
        } else {
            match header_line(decode_utf8(line)) {
                HeaderLine::End => Some((w, h, e + 1)),
                HeaderLine::Width(v) => header_from(s, e + 1, v, h),
                HeaderLine::Height(v) => header_from(s, e + 1, w, v),
                HeaderLine::Refused => None,
                HeaderLine::Other => header_from(s, e + 1, w, h),
            }
        }
    }
}

#[via_fn]
proof fn header_from_ends(s: Seq<u8>, k: int, w: Option<usize>, h: Option<usize>) {
    lemma_line_end(s, k);
}

/// The magic number an image starts with.
pub open spec fn has_magic(s: Seq<u8>) -> bool {
    s.len() >= 3 && s[0] == 80u8 && s[1] == 55u8 && s[2] == 10u8
}

/// The pixel whose samples start at `at`.
pub open spec fn pixel_at(s: Seq<u8>, at: int) -> Rgba {
    Rgba { r: s[at], g: s[at + 1], b: s[at + 2], a: s[at + 3] }
}

/// What an image is: its size and where its samples start, if it has the
/// one shape that is decoded, is not empty, is within the cap, and has all
/// its samples.
pub open spec fn pam_of(s: Seq<u8>, max_dim: usize) -> Option<(usize, usize, int)> {
    if !has_magic(s) {
        None
    } else {
        match header_from(s, 3, None, None) {
            Some((Some(w), Some(h), at)) => if w == 0 || h == 0 || w > max_dim || h > max_dim
                || s.len() - at < w * h * 4 {
                None
            } else {
                Some((w, h, at))
            },
            _ => None,
        }
    }
}

/// Read one header line.
fn read_line(line: &str) -> (l: HeaderLine)
    ensures
        l == header_line(line@),
{
    let s = chars_of(line);
    let n: usize = s.len();
    proof {
        assert(s@.subrange(0, n as int) =~= s@);
    }
    if is_text(&s, 0, n, "ENDHDR") {
        return HeaderLine::End;
    }
    let p: usize = find_char(&s, ' ', 0, n);
    if p >= n {
        return HeaderLine::Other;
    }
    if is_text(&s, 0, p, "WIDTH") {
        let (a, b) = trim(&s, p + 1, n);
        HeaderLine::Width(parse_number(&s, a, b))
    } else if is_text(&s, 0, p, "HEIGHT") {
        let (a, b) = trim(&s, p + 1, n);
        HeaderLine::Height(parse_number(&s, a, b))
    } else if is_text(&s, 0, p, "DEPTH") {
        if is_text(&s, p + 1, n, "4") {
            HeaderLine::Other
        } else {
            HeaderLine::Refused
        }
    } else if is_text(&s, 0, p, "MAXVAL") {
        if is_text(&s, p + 1, n, "255") {
            HeaderLine::Other
        } else {
            HeaderLine::Refused
        }
    } else if is_text(&s, 0, p, "TUPLTYPE") {
        if is_text(&s, p + 1, n, "RGB_ALPHA") {
            HeaderLine::Other
        } else {
            HeaderLine::Refused
        }
    } else {
        HeaderLine::Other
    }
}

fn copy_bytes(s: &[u8], from: usize, to: usize) -> (v: Vec<u8>)
    requires
        from <= to <= s@.len(),
    ensures
        v@ == s@.subrange(from as int, to as int),
{
    let mut v: Vec<u8> = Vec::new();
    let mut k: usize = from;
    while k < to
        invariant
            from <= k <= to <= s@.len(),
            v@ == s@.subrange(from as int, k as int),
        decreases to - k,
    {
        v.push(s[k]);
        k = k + 1;
        proof {
            assert(s@.subrange(from as int, k as int) =~= s@.subrange(from as int, k - 1).push(
                s@[k - 1],
            ));
        }
    }
    v
}

/// Read the header from byte three on.
fn read_header(s: &[u8]) -> (r: Option<(Option<usize>, Option<usize>, usize)>)
    requires
        s@.len() >= 3,
    ensures
        match header_from(s@, 3, None, None) {
            Some((w, h, at)) => r is Some && ({
                let (rw, rh, rat) = r->0;
                rw == w && rh == h && rat == at && at <= s@.len()
            }),
            None => r is None,
        },
{
    let mut w: Option<usize> = None;
    let mut h: Option<usize> = None;
    let mut k: usize = 3;
    let n: usize = s.len();
    while k <= n
        invariant
            n == s@.len(),
            3 <= k <= n,
            header_from(s@, 3, None, None) == header_from(s@, k as int, w, h),
        decreases n - k,
    {
        let mut e: usize = k;
        while e < n && s[e] != 10
            invariant
                n == s@.len(),
                k <= e <= n,
                line_end(s@, k as int) == line_end(s@, e as int),
            decreases n - e,
        {
            e = e + 1;
        }
        if e >= n {
            return None;
        }
        let bytes = copy_bytes(s, k, e);
        let line = match decode_line(bytes.as_slice()) {
            Some(line) => line,
            None => {
                return None;
            }};
        proof {
            encode_utf8_decode_utf8(line@);
        }
        match read_line(line.as_str()) {
            HeaderLine::End => {
                return Some((w, h, e + 1));
            },
            HeaderLine::Width(v) => {
                w = v;
            },
            HeaderLine::Height(v) => {
                h = v;
            },
            HeaderLine::Refused => {
                return None;
            },
            HeaderLine::Other => {},
        }
        k = e + 1;
    }
    None
}

/// Parse an image in the one shape the decoder is asked for: a header of
/// key and value lines, then raw samples of four bytes a pixel. Dimensions
/// above the cap are refused before any pixel is copied.
pub fn parse_pam_rgba(bytes: &[u8], max_dim: usize) -> (img: Option<(usize, usize, Vec<Rgba>)>)
    requires
        max_dim * max_dim * 4 <= usize::MAX,
    ensures
        match pam_of(bytes@, max_dim) {
            None => img is None,
            Some((w, h, at)) => img is Some && ({
                let (iw, ih, pixels) = img->0;
                &&& iw == w
                &&& ih == h
                &&& pixels@.len() == w * h
                &&& forall|i: int|
                    0 <= i < w * h ==> #[trigger] pixels@[i] == pixel_at(bytes@, at + 4 * i)
            }),
        },
{
    if bytes.len() < 3 || bytes[0] != 80 || bytes[1] != 55 || bytes[2] != 10 {
        return None;
    }
    let (w, h, at) = match read_header(bytes) {
        Some((Some(w), Some(h), at)) => (w, h, at),
        _ => {
            return None;
        }};
    if w == 0 || h == 0 || w > max_dim || h > max_dim {
        return None;
    }
    proof {
        assert(w * h <= max_dim * max_dim) by (nonlinear_arith)
            requires
                0 <= w <= max_dim,
                0 <= h <= max_dim,
        ;
    }
    let count: usize = w * h;
    if bytes.len() - at < count * 4 {
        return None;
    }
    let mut pixels: Vec<Rgba> = Vec::new();
    let mut i: usize = 0;
    while i < count
        invariant
            i <= count,
            at + count * 4 <= bytes@.len(),
            bytes@.len() <= usize::MAX,
            pixels@.len() == i,
            forall|j: int|
                0 <= j < i ==> #[trigger] pixels@[j] == pixel_at(bytes@, at + 4 * j),
        decreases count - i,
    {
        let p: usize = at + i * 4;
        pixels.push(Rgba { r: bytes[p], g: bytes[p + 1], b: bytes[p + 2], a: bytes[p + 3] });
        i = i + 1;
    }
    Some((w, h, pixels))
}

/// The source of icon identities.
pub struct IconIds {
    pub next: u64,
}

/// A decoded application icon: straight-alpha pixels, row by row, as
/// 0xaarrggbb.
#[derive(Debug)]
pub struct Icon {
    pub w: u32,
    pub h: u32,
    pub argb: Vec<u32>,
    /// Unique within the process: a render-cache key.
    pub id: u64,
}

impl Icon {
    /// Every pixel is there.
    pub open spec fn wf(self) -> bool {
        self.argb@.len() >= self.w * self.h
    }

    /// An icon of these pixels. A short buffer is padded with transparent
    /// pixels, so that every pixel of the size is there by construction.
    pub fn new(ids: &mut IconIds, w: u32, h: u32, argb: Vec<u32>) -> (icon: Icon)
        requires
            old(ids).next < u64::MAX,
            w * h <= usize::MAX,
        ensures
            icon.wf(),
            icon.w == w,
            icon.h == h,
            icon.id == old(ids).next,
            final(ids).next == old(ids).next + 1,
            icon.argb@ == (if argb@.len() < w * h {
                argb@ + Seq::new((w * h - argb@.len()) as nat, |i: int| 0u32)
            } else {
                argb@
            }),
    {
        let mut argb = argb;
        let ghost was = argb@;
        proof {
            assert(w * h <= 0xffff_ffff * 0xffff_ffff) by (nonlinear_arith)
                requires
                    0 <= w <= 0xffff_ffff,
                    0 <= h <= 0xffff_ffff,
            ;
        }
        let need: usize = (w as u64 * h as u64) as usize;
        if argb.len() < need {
            argb.resize(need, 0);
            proof {
                assert(argb@ =~= was + Seq::new((w * h - was.len()) as nat, |i: int| 0u32));
            }
        }
        let id: u64 = ids.next;
        ids.next = id + 1;
        Icon { w, h, argb, id }
    }

    pub fn id(&self) -> (id: u64)
        ensures
            id == self.id,
    {
        self.id
    }
}

/// A pixel packed as 0xaarrggbb.
pub open spec fn packed(p: Rgba) -> int {
    p.a * 0x100_0000 + p.r * 0x1_0000 + p.g * 0x100 + p.b
}

/// Pack a pixel.
pub fn pack(p: Rgba) -> (v: u32)
    ensures
        v == packed(p),
{
    p.a as u32 * 0x100_0000 + p.r as u32 * 0x1_0000 + p.g as u32 * 0x100 + p.b as u32
}

/// The pixel a packed value holds.
pub open spec fn unpacked(v: u32) -> Rgba {
    Rgba {
        r: (v / 0x1_0000 % 0x100) as u8,
        g: (v / 0x100 % 0x100) as u8,
        b: (v % 0x100) as u8,
        a: (v / 0x100_0000) as u8,
    }
}

/// Unpack a pixel.
pub fn unpack(v: u32) -> (p: Rgba)
    ensures
        p == unpacked(v),
{
    Rgba {
        r: (v / 0x1_0000 % 0x100) as u8,
        g: (v / 0x100 % 0x100) as u8,
        b: (v % 0x100) as u8,
        a: (v / 0x100_0000) as u8,
    }
}

/// Unpacking gives back what was packed, and packing what was unpacked.
pub proof fn packing_round_trips(p: Rgba, v: u32)
    ensures
        unpacked(packed(p) as u32) == p,
        packed(unpacked(v)) == v,
{
    assert(v / 0x100_0000 < 0x100 && v / 0x100_0000 * 0x100_0000 + v / 0x1_0000 % 0x100 * 0x1_0000
        + v / 0x100 % 0x100 * 0x100 + v % 0x100 == v) by (bit_vector);
    let (r, g, b, a) = (p.r, p.g, p.b, p.a);
    let w = packed(p) as u32;
    assert(w / 0x100_0000 == a && w / 0x1_0000 % 0x100 == r && w / 0x100 % 0x100 == g && w % 0x100
        == b) by (bit_vector)
        requires
            w == a * 0x100_0000 + r * 0x1_0000 + g * 0x100 + b,
    ;
}

/// The icon of a decoded image.
pub fn load_image(ids: &mut IconIds, bytes: &[u8]) -> (icon: Option<Icon>)
    requires
        old(ids).next < u64::MAX,
    ensures
        match pam_of(bytes@, MAX_ICON_DIM) {
            None => icon is None && final(ids).next == old(ids).next,
            Some((w, h, at)) => {
                &&& icon is Some
                &&& final(ids).next == old(ids).next + 1
                &&& icon->0.id == old(ids).next
                &&& icon->0.w == w
                &&& icon->0.h == h
                &&& icon->0.argb@ == Seq::new(
                    (w * h) as nat,
                    |i: int| packed(pixel_at(bytes@, at + 4 * i)) as u32,
                )
            },
        },
{
    let (w, h, pixels) = match parse_pam_rgba(bytes, MAX_ICON_DIM) {
        Some(img) => img,
        None => {
            return None;
        }};
    proof {
        assert(w * h <= MAX_ICON_DIM * MAX_ICON_DIM) by (nonlinear_arith)
            requires
                0 <= w <= MAX_ICON_DIM,
                0 <= h <= MAX_ICON_DIM,
        ;
    }
    let mut argb: Vec<u32> = Vec::new();
    let mut i: usize = 0;
    while i < pixels.len()
        invariant
            i <= pixels@.len(),
            argb@ == Seq::new(i as nat, |j: int| packed(pixels@[j]) as u32),
        decreases pixels@.len() - i,
    {
        argb.push(pack(pixels[i]));
        i = i + 1;
        proof {
            assert(argb@ =~= Seq::new(i as nat, |j: int| packed(pixels@[j]) as u32));
        }
    }
    let icon = Icon::new(ids, w as u32, h as u32, argb);
    proof {
        let (_w, _h, at) = pam_of(bytes@, MAX_ICON_DIM)->0;
        assert(icon.argb@ =~= Seq::new(
            (w * h) as nat,
            |j: int| packed(pixel_at(bytes@, at + 4 * j)) as u32,
        ));
    }
    Some(icon)
}

/// Another icon, every pixel mapped.
pub fn map_argb<F: Fn(u32) -> u32>(ids: &mut IconIds, icon: &Icon, f: F) -> (out: Icon)
    requires
        old(ids).next < u64::MAX,
        icon.wf(),
        icon.w * icon.h <= usize::MAX,
        forall|px: u32| call_requires(f, (px,)),
    ensures
        out.wf(),
        out.w == icon.w,
        out.h == icon.h,
        out.id == old(ids).next,
        final(ids).next == old(ids).next + 1,
        out.argb@.len() == icon.argb@.len(),
        forall|i: int|
            0 <= i < icon.argb@.len() ==> call_ensures(f, (icon.argb@[i],), #[trigger] out.argb@[i]),
{
    let mut argb: Vec<u32> = Vec::new();
    let mut i: usize = 0;
    while i < icon.argb.len()
        invariant
            i <= icon.argb@.len(),
            argb@.len() == i,
            forall|px: u32| call_requires(f, (px,)),
            forall|j: int|
                0 <= j < i ==> call_ensures(f, (icon.argb@[j],), #[trigger] argb@[j]),
        decreases icon.argb@.len() - i,
    {
        argb.push(f(icon.argb[i]));
        i = i + 1;
    }
    Icon::new(ids, icon.w, icon.h, argb)
}

/// A pixel snapped to a palette colour: alpha is kept, and a transparent
/// pixel is left alone.
pub open spec fn snapped_to(px: u32, c: Rgb) -> int {
    if px / 0x100_0000 == 0 {
        px as int
    } else {
        packed(Rgba { r: c.r, g: c.g, b: c.b, a: (px / 0x100_0000) as u8 })
    }
}

/// Snap a pixel to the palette colour that was chosen for it.
pub fn quantize_argb(px: u32, nearest: Rgb) -> (out: u32)
    ensures
        out == snapped_to(px, nearest),
{
    let p = unpack(px);
    if p.a == 0 {
        return px;
    }
    pack(Rgba { r: nearest.r, g: nearest.g, b: nearest.b, a: p.a })
}

/// The size an `iw` by `ih` icon is drawn at in a box of side `sz`: its
/// larger dimension fills the box, the other keeps the proportion.
pub open spec fn scaled_size(iw: int, ih: int, sz: int) -> (int, int) {
    if iw >= ih {
        (sz, if ih * sz / iw >= 1 {
            ih * sz / iw
        } else {
            1
        })
    } else {
        (if iw * sz / ih >= 1 {
            iw * sz / ih
        } else {
            1
        }, sz)
    }
}

/// An icon in its box keeps within it, fills it along its larger dimension,
/// and is never drawn empty.
pub proof fn icons_are_letterboxed(iw: int, ih: int, sz: int)
    requires
        iw >= 1,
        ih >= 1,
        sz >= 1,
    ensures
        1 <= scaled_size(iw, ih, sz).0 <= sz,
        1 <= scaled_size(iw, ih, sz).1 <= sz,
        iw >= ih ==> scaled_size(iw, ih, sz).0 == sz,
        ih >= iw ==> scaled_size(iw, ih, sz).1 == sz,
{
    if iw >= ih {
        assert(ih * sz / iw <= sz) by (nonlinear_arith)
            requires
                1 <= ih <= iw,
                sz >= 1,
        ;
        if ih == iw {
            assert(iw * sz / iw == sz) by (nonlinear_arith)
                requires
                    iw >= 1,
            ;
        }
    } else {
        assert(iw * sz / ih <= sz) by (nonlinear_arith)
            requires
                1 <= iw <= ih,
                sz >= 1,
        ;
    }
}

/// The colour of pixel `n` of a box of side `sz`, row by row: that of the
/// nearest source pixel, or nothing beside the icon and where the source is
/// less than half opaque.
pub open spec fn sample(argb: Seq<u32>, iw: int, ih: int, sz: int, n: int) -> Option<Rgb> {
    let (dw, dh) = scaled_size(iw, ih, sz);
    let (tx, ty) = (n % sz - (sz - dw) / 2, n / sz - (sz - dh) / 2);
    if 0 <= tx < dw && 0 <= ty < dh {
        let p = unpacked(argb[ty * ih / dh * iw + tx * iw / dw]);
        if p.a < 128 {
            None
        } else {
            Some(Rgb { r: p.r, g: p.g, b: p.b })
        }
    } else {
        None
    }
}

/// The nearest source coordinate is one of the source.
proof fn lemma_source(t: int, len: int, d: int)
    requires
        0 <= t < d,
        1 <= len,
    ensures
        0 <= t * len / d < len,
{
    assert(0 <= t * len / d < len) by (nonlinear_arith)
        requires
            0 <= t < d,
            1 <= len,
    ;
}

fn nearest_coord(t: usize, len: usize, d: usize) -> (s: usize)
    requires
        t < d,
        1 <= len <= 0xffff_ffff,
        d <= 0x7fff_ffff,
    ensures
        s == t * len / d as int,
        s < len,
{
    proof {
        lemma_source(t as int, len as int, d as int);
        assert(0 <= t * len <= 0x7fff_ffff * 0xffff_ffff) by (nonlinear_arith)
            requires
                0 <= t <= 0x7fff_ffff,
                1 <= len <= 0xffff_ffff,
        ;
    }
    ((t as u64) * (len as u64) / (d as u64)) as usize
}

fn scaled_other(a: usize, b: usize, sz: usize) -> (d: usize)
    requires
        1 <= a <= b,
        b <= 0xffff_ffff,
        1 <= sz <= 0x7fff_ffff,
    ensures
        d == (if a * sz / b as int >= 1 {
            a * sz / b as int
        } else {
            1
        }),
        1 <= d <= sz,
{
    proof {
        assert(0 <= a * sz <= 0xffff_ffff * 0x7fff_ffff) by (nonlinear_arith)
            requires
                1 <= a <= 0xffff_ffff,
                1 <= sz <= 0x7fff_ffff,
        ;
        assert(a * sz / b as int <= sz) by (nonlinear_arith)
            requires
                1 <= a <= b,
                sz >= 1,
        ;
    }
    let q: usize = ((a as u64) * (sz as u64) / (b as u64)) as usize;
    if q >= 1 {
        q
    } else {
        1
    }
}

/// An icon scaled into a box of side `size`, row by row: the colour of each
/// pixel, nothing where it is transparent. The icon keeps its proportions
/// and is centred.
pub fn icon_samples(img: &Icon, size: i32) -> (out: Vec<Option<Rgb>>)
    requires
        img.wf(),
        img.w > 0,
        img.h > 0,
        size >= 1,
        size * size <= usize::MAX,
    ensures
        out@ == Seq::new(
            (size * size) as nat,
            |n: int| sample(img.argb@, img.w as int, img.h as int, size as int, n),
        ),
{
    let sz: usize = size as usize;
    let (iw, ih) = (img.w as usize, img.h as usize);
    let (dw, dh) = if iw >= ih {
        (sz, scaled_other(ih, iw, sz))
    } else {
        (scaled_other(iw, ih, sz), sz)
    };
    let (ox, oy) = ((sz - dw) / 2, (sz - dh) / 2);
    let ghost argb = img.argb@;
    let mut out: Vec<Option<Rgb>> = Vec::new();
    let count: usize = sz * sz;
    let len: usize = img.argb.len();
    let mut n: usize = 0;
    while n < count
        invariant
            n <= count,
            len == img.argb@.len(),
            count == sz * sz,
            1 <= sz <= 0x7fff_ffff,
            argb == img.argb@,
            img.wf(),
            iw == img.w,
            ih == img.h,
            1 <= iw,
            1 <= ih,
            (dw as int, dh as int) == scaled_size(iw as int, ih as int, sz as int),
            1 <= dw <= sz,
            1 <= dh <= sz,
            ox == (sz - dw) / 2,
            oy == (sz - dh) / 2,
            out@ == Seq::new(
                n as nat,
                |k: int| sample(argb, iw as int, ih as int, sz as int, k),
            ),
        decreases count - n,
    {
        let (x, y) = (n % sz, n / sz);
        let mut c: Option<Rgb> = None;
        if x >= ox && x - ox < dw && y >= oy && y - oy < dh {
            let sy: usize = nearest_coord(y - oy, ih, dh);
            let sx: usize = nearest_coord(x - ox, iw, dw);
            proof {
                assert(0 <= sy * iw <= sy * iw + sx < iw * ih) by (nonlinear_arith)
                    requires
                        0 <= sy < ih,
                        0 <= sx < iw,
                ;
                assert(iw * ih == img.w * img.h);
            }
            let p = unpack(img.argb[sy * iw + sx]);
            if p.a >= 128 {
                c = Some(Rgb { r: p.r, g: p.g, b: p.b });
            }
        }
        out.push(c);
        n = n + 1;
        proof {
            assert(out@ =~= Seq::new(
                n as nat,
                |k: int| sample(argb, iw as int, ih as int, sz as int, k),
            ));
        }
    }
    out
}

} // verus!
