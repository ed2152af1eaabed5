//! Palette-indexed textures: the palette as texels, when a texture is
//! refreshed in place, and how the frame shader picks a texel.

use crate::draw::{in_part, roomy, NineSlice};
use crate::image::Rgb;
use vstd::prelude::*;

verus! {

/// The width of the palette lookup texture: the palette's entries, padded
/// with transparent texels.
pub const PALETTE_TEX_W: usize = 32;

/// The components of texel `i`: an opaque palette colour, or all zero past
/// the palette.
pub open spec fn palette_byte(palette: Seq<Rgb>, n: int) -> u8 {
    let (i, ch) = (n / 4, n % 4);
    if i >= palette.len() {
        0
    } else if ch == 0 {
        palette[i].r
    } else if ch == 1 {
        palette[i].g
    } else if ch == 2 {
        palette[i].b
    } else {
        255
    }
}

/// The palette as a row of premultiplied texels, every texel past it
/// transparent.
pub fn palette_rgba(palette: &Vec<Rgb>) -> (data: Vec<u8>)
    requires
        palette@.len() <= PALETTE_TEX_W,
    ensures
        data@ == Seq::new(128, |n: int| palette_byte(palette@, n)),
{
    let mut data: Vec<u8> = Vec::new();
    let mut i: usize = 0;
    while i < PALETTE_TEX_W
        invariant
            i <= 32,
            palette@.len() <= 32,
            data@ == Seq::new((4 * i) as nat, |n: int| palette_byte(palette@, n)),
        decreases 32 - i,
    {
        let (r, g, b, a) = if i < palette.len() {
            (palette[i].r, palette[i].g, palette[i].b, 255u8)
        } else {
            (0u8, 0u8, 0u8, 0u8)
        };
        data.push(r);
        data.push(g);
        data.push(b);
        data.push(a);
        i = i + 1;
        proof {
            assert(data@ =~= Seq::new((4 * i) as nat, |n: int| palette_byte(palette@, n)));
        }
    }
    data
}

/// A texture that is up: its size, and whether every texel is a palette
/// colour.
#[derive(Clone, Copy, PartialEq, Eq, Debug)]
pub struct IndexedTexture {
    pub size: (i32, i32),
    pub opaque: bool,
}

/// How an upload goes.
#[derive(Clone, Copy, PartialEq, Eq, Debug, Structural)]
pub enum UploadStep {
    /// The texture is there at this size: it is written over, and repainted
    /// under the same identity.
    InPlace,
    /// A new texture, under a new identity.
    Create,
}

/// How a texture of `size` is uploaded over what is there.
pub open spec fn upload_step(target: Option<IndexedTexture>, size: (i32, i32)) -> UploadStep {
    match target {
        Some(t) => if t.size == size {
            UploadStep::InPlace
        } else {
            UploadStep::Create
        },
        None => UploadStep::Create,
    }
}

/// Upload a buffer of this size into `target`.
pub fn upload_into(target: &mut Option<IndexedTexture>, size: (i32, i32), opaque: bool) -> (step:
    UploadStep)
    ensures
        step == upload_step(*old(target), size),
        *final(target) == (match step {
            UploadStep::InPlace => *old(target),
            UploadStep::Create => Some(IndexedTexture { size, opaque }),
        }),
{
    if let Some(t) = *target {
        if t.size.0 == size.0 && t.size.1 == size.1 {
            return UploadStep::InPlace;
        }
    }
    *target = Some(IndexedTexture { size, opaque });
    UploadStep::Create
}

/// One axis of the frame shader: the sprite's texel for pixel `p` of `d`,
/// the sprite being `s` long, with fixed margins `lo` and `hi` and the
/// middle repeating `e0..e1`. The far margin is tested first.
pub open spec fn slice(p: int, d: int, s: int, lo: int, hi: int, e0: int, e1: int) -> int {
    if p >= d - hi {
        s - (d - p)
    } else if p < lo {
        p
    } else {
        e0 + (p - lo) % (e1 - e0)
    }
}

/// The shader shows what the drawn parts show: the texel it picks for a
/// pixel is the one that the part covering that pixel repeats there.
pub proof fn shader_slices_like_the_parts(
    nine: NineSlice,
    ox: int,
    oy: int,
    w: int,
    h: int,
    i: int,
    px: int,
    py: int,
)
    requires
        nine.wf(),
        nine.covers_margins(),
        nine.sh > nine.t + nine.b,
        roomy(ox, oy, w, h),
        w > nine.l + nine.r,
        h > nine.t + nine.b,
        in_part(nine.parts_of(ox, oy, w, h), i, px, py),
    ensures
        ({
            let p = nine.parts_of(ox, oy, w, h)[i];
            &&& p.src.x + (px - p.dst.x) % p.src.w as int == slice(
                px - ox,
                w,
                nine.sw as int,
                nine.l as int,
                nine.r as int,
                20,
                180,
            )
            &&& p.src.y + (py - p.dst.y) % p.src.h as int == slice(
                py - oy,
                h,
                nine.sh as int,
                nine.t as int,
                nine.b as int,
                nine.t as int,
                nine.sh - nine.b,
            )
        }),
{
    let parts = nine.parts_of(ox, oy, w, h);
    let p = parts[i];
    assert(parts.len() == 9);
    let (cx, cy) = (px - p.dst.x, py - p.dst.y);
    if 0 <= cx < p.src.w {
        assert(cx % p.src.w as int == cx) by (nonlinear_arith)
            requires
                0 <= cx < p.src.w,
        ;
    }
    if 0 <= cy < p.src.h {
        assert(cy % p.src.h as int == cy) by (nonlinear_arith)
            requires
                0 <= cy < p.src.h,
        ;
    }
    assert(i == 0 || i == 1 || i == 2 || i == 3 || i == 4 || i == 5 || i == 6 || i == 7 || i == 8);
}

/// Law: the palette texture holds each colour at its index, as red, green,
/// blue and an opaque byte, and nothing past the palette.
pub proof fn palettes_are_stored_by_index(palette: Seq<Rgb>, i: int)
    requires
        0 <= i,
    ensures
        i < palette.len() ==> {
            &&& palette_byte(palette, 4 * i) == palette[i].r
            &&& palette_byte(palette, 4 * i + 1) == palette[i].g
            &&& palette_byte(palette, 4 * i + 2) == palette[i].b
            &&& palette_byte(palette, 4 * i + 3) == 255
        },
        i >= palette.len() ==> palette_byte(palette, 4 * i) == 0 && palette_byte(
            palette,
            4 * i + 3,
        ) == 0,
{
}

/// Law: a texture is written over only where its size stays the same.
pub proof fn textures_are_reused_at_their_size(t: IndexedTexture, size: (i32, i32))
    ensures
        upload_step(Some(t), t.size) is InPlace,
        t.size != size ==> upload_step(Some(t), size) is Create,
        upload_step(None, size) is Create,
{
}

} // verus!
