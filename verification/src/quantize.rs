//! Colour depths: the cycle of output modes, the lattice each quantizes to,
//! and the remap of lattice points to palette colours.

use vstd::prelude::*;

verus! {

/// The output colour depths a session cycles through.
#[derive(Clone, Copy, PartialEq, Eq, Debug, Structural)]
pub enum ColorMode {
    /// Pass-through.
    True,
    /// A 256-colour lattice, dithered per channel.
    Rgb332,
    /// A 24-colour lattice, each point remapped to a palette colour.
    Palette,
}

/// A lattice's steps per channel: its level counts minus one.
#[derive(Clone, Copy, PartialEq, Eq, Debug, Structural)]
pub struct Levels {
    pub r: u32,
    pub g: u32,
    pub b: u32,
}

impl ColorMode {
    pub open spec fn after(self) -> ColorMode {
        match self {
            ColorMode::True => ColorMode::Rgb332,
            ColorMode::Rgb332 => ColorMode::Palette,
            ColorMode::Palette => ColorMode::True,
        }
    }

    pub open spec fn lattice(self) -> Option<Levels> {
        match self {
            ColorMode::True => None,
            ColorMode::Rgb332 => Some(Levels { r: 7, g: 7, b: 3 }),
            ColorMode::Palette => Some(Levels { r: 2, g: 3, b: 1 }),
        }
    }

    /// The next mode of the cycle.
    pub fn next(self) -> (m: ColorMode)
        ensures
            m == self.after(),
    {
        match self {
            ColorMode::True => ColorMode::Rgb332,
            ColorMode::Rgb332 => ColorMode::Palette,
            ColorMode::Palette => ColorMode::True,
        }
    }

    /// The dither lattice's steps per channel; none in pass-through mode.
    pub fn levels(self) -> (l: Option<Levels>)
        ensures
            l == self.lattice(),
    {
        match self {
            ColorMode::True => None,
            ColorMode::Rgb332 => Some(Levels { r: 7, g: 7, b: 3 }),
            ColorMode::Palette => Some(Levels { r: 2, g: 3, b: 1 }),
        }
    }
}

/// The cycle visits every mode and comes back around.
pub proof fn modes_cycle(m: ColorMode)
    ensures
        m.after() != m,
        m.after().after() != m,
        m.after().after().after() == m,
{
}

/// The palette colour standing in for a lattice point, as 0xrrggbb.
pub open spec fn lut_color(r: int, g: int, b: int) -> u32 {
    if r == 0 {
        if g == 0 {
            if b == 0 {
                0x1f0e1c
            } else {
                0x000080
            }
        } else if g == 1 {
            if b == 0 {
                0x004000
            } else {
                0x17434b
            }
        } else if g == 2 {
            if b == 0 {
                0x008000
            } else {
                0x34859d
            }
        } else {
            if b == 0 {
                0x00bf00
            } else {
                0x00bf80
            }
        }
    } else if r == 1 {
        if g == 0 {
            if b == 0 {
                0x3e2137
            } else {
                0x584563
            }
        } else if g == 1 {
            if b == 0 {
                0x9d303b
            } else {
                0x70377f
            }
        } else if g == 2 {
            if b == 0 {
                0x647d34
            } else {
                0x8c8fae
            }
        } else {
            if b == 0 {
                0x80bf00
            } else {
                0x7ec4c1
            }
        }
    } else {
        if g == 0 {
            if b == 0 {
                0xff0000
            } else {
                0xff0080
            }
        } else if g == 1 {
            if b == 0 {
                0x9a6348
            } else {
                0xd26471
            }
        } else if g == 2 {
            if b == 0 {
                0xe4943a
            } else {
                0xd79b7d
            }
        } else {
            if b == 0 {
                0xc0c741
            } else {
                0xf5edba
            }
        }
    }
}

/// The palette colours, by lattice point: red slowest, blue fastest. Every
/// colour of the chrome's palette is among them, and eight saturated
/// brights that palette lacks.
pub fn palette_lut() -> (lut: Vec<u32>)
    ensures
        lut@.len() == 24,
        forall|r: int, g: int, b: int|
            0 <= r < 3 && 0 <= g < 4 && 0 <= b < 2 ==> lut@[r * 8 + g * 2 + b]
                == #[trigger] lut_color(r, g, b),
{
    let lut: Vec<u32> = vec![
        0x1f0e1c, 0x000080, 0x004000, 0x17434b, 0x008000, 0x34859d, 0x00bf00, 0x00bf80,
        0x3e2137, 0x584563, 0x9d303b, 0x70377f, 0x647d34, 0x8c8fae, 0x80bf00, 0x7ec4c1,
        0xff0000, 0xff0080, 0x9a6348, 0xd26471, 0xe4943a, 0xd79b7d, 0xc0c741, 0xf5edba,
    ];
    lut
}

/// No two lattice points share a colour.
pub proof fn lut_has_no_duplicates(r: int, g: int, b: int, r2: int, g2: int, b2: int)
    requires
        0 <= r < 3,
        0 <= g < 4,
        0 <= b < 2,
        0 <= r2 < 3,
        0 <= g2 < 4,
        0 <= b2 < 2,
        lut_color(r, g, b) == lut_color(r2, g2, b2),
    ensures
        r == r2,
        g == g2,
        b == b2,
{
}

/// Byte `k` of texel `i` of the remap: red, green, blue, opaque; texels run
/// along red, then green, then blue.
pub open spec fn lut_texel(i: int, k: int) -> int {
    let rgb = lut_color(i % 3, (i / 3) % 4, i / 12) as int;
    if k == 0 {
        rgb / 0x10000
    } else if k == 1 {
        (rgb / 0x100) % 0x100
    } else if k == 2 {
        rgb % 0x100
    } else {
        0xff
    }
}

/// The remap as texels of a volume: width red, height green, depth blue, so
/// that a lattice colour addresses it directly.
pub fn lut_texels() -> (texels: Vec<u8>)
    ensures
        texels@.len() == 96,
        forall|i: int, k: int|
            0 <= i < 24 && 0 <= k < 4 ==> texels@[4 * i + k] == #[trigger] lut_texel(i, k),
{
    let lut = palette_lut();
    let mut texels: Vec<u8> = Vec::new();
    let mut n: usize = 0;
    while n < 24
        invariant
            n <= 24,
            lut@.len() == 24,
            forall|r: int, g: int, b: int|
                0 <= r < 3 && 0 <= g < 4 && 0 <= b < 2 ==> lut@[r * 8 + g * 2 + b]
                    == #[trigger] lut_color(r, g, b),
            texels@.len() == 4 * n,
            forall|i: int, k: int|
                0 <= i < n && 0 <= k < 4 ==> texels@[4 * i + k] == #[trigger] lut_texel(i, k),
        decreases 24 - n,
    {
        let r: usize = n % 3;
        let g: usize = (n / 3) % 4;
        let b: usize = n / 12;
        let rgb: u32 = lut[r * 8 + g * 2 + b];
        proof {
            assert(rgb == lut_color(r as int, g as int, b as int));
            assert(rgb <= 0xffffff);
        }
        texels.push((rgb / 0x10000) as u8);
        texels.push((rgb / 0x100 % 0x100) as u8);
        texels.push((rgb % 0x100) as u8);
        texels.push(0xff);
        n = n + 1;
    }
    texels
}

/// The post-pass' state: the mode, whether its GPU objects exist, and
/// whether they turned out not to be available.
#[derive(Clone, Copy, PartialEq, Eq, Debug, Structural)]
pub struct Quantize {
    pub mode: ColorMode,
    pub gpu: bool,
    pub unsupported: bool,
}

/// What a frame needs.
#[derive(Clone, Copy, PartialEq, Eq, Debug, Structural)]
pub enum WrapStep {
    /// The elements are drawn as they are.
    PassThrough,
    /// The GPU objects must be created first.
    Compile,
    /// The elements go through the post-pass with this lattice, remapped to
    /// palette colours if the flag says so.
    Render(Levels, bool),
}

impl Quantize {
    /// The state one cycle step on.
    pub open spec fn cycled(self) -> Quantize {
        if self.unsupported {
            self
        } else {
            Quantize { mode: self.mode.after(), ..self }
        }
    }

    /// The state after an attempt to create the GPU objects.
    pub open spec fn after_compile(self, ok: bool) -> Quantize {
        if ok {
            Quantize { gpu: true, ..self }
        } else {
            Quantize { mode: ColorMode::True, unsupported: true, ..self }
        }
    }

    /// True colour, nothing created.
    pub fn new() -> (q: Quantize)
        ensures
            q == (Quantize { mode: ColorMode::True, gpu: false, unsupported: false }),
    {
        Quantize { mode: ColorMode::True, gpu: false, unsupported: false }
    }

    /// Step to the next mode; ignored once the post-pass is known to be
    /// unavailable. Returns whether the whole output must be repainted.
    pub fn cycle(&mut self) -> (repaint: bool)
        ensures
            *final(self) == old(self).cycled(),
            repaint == (!old(self).unsupported && old(self).gpu),
    {
        if self.unsupported {
            return false;
        }
        self.mode = self.mode.next();
        self.gpu
    }

    /// Drop the GPU objects; they are created again when next needed.
    pub fn invalidate(&mut self)
        ensures
            *final(self) == (Quantize { gpu: false, ..*old(self) }),
    {
        self.gpu = false;
    }

    /// What the next frame needs.
    pub open spec fn needs(self) -> WrapStep {
        match self.mode.lattice() {
            None => WrapStep::PassThrough,
            Some(l) => if self.unsupported {
                WrapStep::PassThrough
            } else if !self.gpu {
                WrapStep::Compile
            } else {
                WrapStep::Render(l, self.mode == ColorMode::Palette)
            },
        }
    }

    /// What the next frame needs.
    pub fn wrap(&self) -> (step: WrapStep)
        ensures
            step == self.needs(),
    {
        match self.mode.levels() {
            None => WrapStep::PassThrough,
            Some(l) => if self.unsupported {
                WrapStep::PassThrough
            } else if !self.gpu {
                WrapStep::Compile
            } else {
                WrapStep::Render(l, self.mode == ColorMode::Palette)
            },
        }
    }

    /// Creating the GPU objects succeeded, or never will: then the session
    /// stays true-colour.
    pub fn compiled(&mut self, ok: bool)
        ensures
            *final(self) == old(self).after_compile(ok),
    {
        if ok {
            self.gpu = true;
        } else {
            self.unsupported = true;
            self.mode = ColorMode::True;
        }
    }
}

/// Once creating the GPU objects failed, every frame passes through, and
/// cycling changes nothing.
pub proof fn unsupported_stays_true_colour(q: Quantize)
    ensures
        q.after_compile(false).needs() == WrapStep::PassThrough,
        q.after_compile(false).cycled() == q.after_compile(false),
{
}

/// Law: true colour is shown as it is; the eight-bit mode has eight reds,
/// eight greens and four blues, and the palette mode a palette colour for
/// each of three reds, four greens and two blues.
pub proof fn modes_show_as_many_colours_as_they_say(q: Quantize)
    requires
        q.gpu,
        !q.unsupported,
    ensures
        q.mode is True <==> q.needs() is PassThrough,
        q.mode is Rgb332 ==> q.needs() == WrapStep::Render(Levels { r: 7, g: 7, b: 3 }, false),
        q.mode is Palette ==> q.needs() == WrapStep::Render(Levels { r: 2, g: 3, b: 1 }, true),
        !(q.mode is True) ==> (Quantize { gpu: false, ..q }).needs() is Compile,
        (Quantize { gpu: false, ..q }).after_compile(true) == q,
        q.cycled().cycled().cycled() == q,
        q.cycled() != q,
{
}

/// Law: the texture holds each palette colour once, at its red step, then its
/// green step three texels apart, then its blue step twelve apart, as red,
/// green, blue and an opaque byte.
pub proof fn texels_hold_the_palette(r: int, g: int, b: int)
    requires
        0 <= r < 3,
        0 <= g < 4,
        0 <= b < 2,
    ensures
        ({
            let i = r + 3 * g + 12 * b;
            &&& lut_texel(i, 0) * 0x10000 + lut_texel(i, 1) * 0x100 + lut_texel(i, 2) == lut_color(
                r,
                g,
                b,
            )
            &&& 0 <= lut_texel(i, 0) < 0x100
            &&& 0 <= lut_texel(i, 1) < 0x100
            &&& 0 <= lut_texel(i, 2) < 0x100
            &&& lut_texel(i, 3) == 0xff
        }),
{
    let i = r + 3 * g + 12 * b;
    assert(i % 3 == r && (i / 3) % 4 == g && i / 12 == b);
}

} // verus!
