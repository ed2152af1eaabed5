//! Screen captures: which region a client gets, whether its buffer fits,
//! and how rows of pixels are laid into it.

use crate::geom::{imax, imin, max_i32, Rect};
use vstd::arithmetic::div_mod::{lemma_fundamental_div_mod, lemma_fundamental_div_mod_converse};
use vstd::prelude::*;

pub mod laws;

verus! {

/// The first protocol version whose clients expect the end of the buffer
/// description to be announced.
pub const BUFFER_DONE_SINCE: u32 = 3;

/// The part of `full` that `asked` covers, if any.
pub open spec fn overlap(full: Rect, asked: Rect) -> Option<Rect> {
    let x0 = imax(full.x as int, asked.x as int);
    let y0 = imax(full.y as int, asked.y as int);
    let x1 = imin(full.right(), asked.right());
    let y1 = imin(full.bottom(), asked.bottom());
    if x0 < x1 && y0 < y1 {
        Some(Rect { x: x0 as i32, y: y0 as i32, w: (x1 - x0) as i32, h: (y1 - y0) as i32 })
    } else {
        None
    }
}

/// The part of the output that a capture shows.
pub open spec fn region_of(full: Rect, asked: Option<Rect>) -> Option<Rect> {
    match asked {
        None => Some(full),
        Some(a) => if a.w > 0 && a.h > 0 {
            overlap(full, a)
        } else {
            None
        },
    }
}

/// The output pixels a capture grabs: the whole output, or what an asked
/// region has in common with it. Nothing if the region is empty or out of
/// view.
pub fn capture_region(full: Rect, asked: Option<Rect>) -> (region: Option<Rect>)
    requires
        full.w >= 0,
        full.h >= 0,
    ensures
        region == region_of(full, asked),
        region is Some ==> full.encloses(region->0),
{
    match asked {
        None => Some(full),
        Some(a) => {
            if a.w > 0 && a.h > 0 {
                let x0: i32 = max_i32(full.x, a.x);
                let y0: i32 = max_i32(full.y, a.y);
                let fr: i64 = full.x as i64 + full.w as i64;
                let ar: i64 = a.x as i64 + a.w as i64;
                let fb: i64 = full.y as i64 + full.h as i64;
                let ab: i64 = a.y as i64 + a.h as i64;
                let x1: i64 = if fr <= ar {
                    fr
                } else {
                    ar
                };
                let y1: i64 = if fb <= ab {
                    fb
                } else {
                    ab
                };
                if (x0 as i64) < x1 && (y0 as i64) < y1 {
                    Some(
                        Rect {
                            x: x0,
                            y: y0,
                            w: (x1 - x0 as i64) as i32,
                            h: (y1 - y0 as i64) as i32,
                        },
                    )
                } else {
                    None
                }
            } else {
                None
            }
        },
    }
}

/// How a client's shared buffer lies in its pool.
#[derive(Clone, Copy, PartialEq, Eq, Debug, Structural)]
pub struct ShmLayout {
    /// Whether it is in the one format captures are served in.
    pub format_ok: bool,
    pub width: i32,
    pub height: i32,
    pub stride: i32,
    pub offset: i32,
}

/// Whether a pool of `len` bytes covers `h` rows of `w` pixels.
pub open spec fn covered(d: ShmLayout, len: int, w: int, h: int) -> bool {
    &&& d.offset >= 0
    &&& d.stride >= w * 4
    &&& d.offset + d.stride * (h - 1) + w * 4 <= len
}

/// Whether the pool actually covers the rows of pixels that are written.
pub fn covers(d: &ShmLayout, len: usize, w: i32, h: i32) -> (b: bool)
    requires
        w > 0,
        h > 0,
        len <= 0x7fff_ffff_ffff_ffff,
    ensures
        b == covered(*d, len as int, w as int, h as int),
{
    proof {
        assert(-0x8000_0000 * 0x7fff_ffff <= d.stride * (h - 1) <= 0x7fff_ffff * 0x7fff_ffff)
            by (nonlinear_arith)
            requires
                -0x8000_0000 <= d.stride <= 0x7fff_ffff,
                0 <= h - 1 <= 0x7fff_ffff,
        ;
    }
    let end: i64 = d.offset as i64 + d.stride as i64 * (h as i64 - 1) + w as i64 * 4;
    d.offset >= 0 && d.stride as i64 >= w as i64 * 4 && end <= len as i64
}

/// Whether a client's buffer is one that a capture of `w` by `h` pixels can be
/// copied to.
pub open spec fn accepted(d: ShmLayout, len: int, w: int, h: int) -> bool {
    d.format_ok && d.width == w && d.height == h && covered(d, len, w, h)
}

/// Whether a buffer is the one the frame asked for. A larger stride is
/// fine; a different format or size is not.
pub fn shm_matches(d: &ShmLayout, len: usize, w: i32, h: i32) -> (b: bool)
    requires
        w > 0,
        h > 0,
        len <= 0x7fff_ffff_ffff_ffff,
    ensures
        b == accepted(*d, len as int, w as int, h as int),
{
    d.format_ok && d.width == w && d.height == h && covers(d, len, w, h)
}

/// Byte `c` of a row of pixels that starts at `src` in `rgba`: blue, green,
/// red, and an opaque fourth byte.
pub open spec fn bgrx(rgba: Seq<u8>, src: int, c: int) -> u8 {
    if c % 4 == 0 {
        rgba[src + c + 2]
    } else if c % 4 == 1 {
        rgba[src + c]
    } else if c % 4 == 2 {
        rgba[src + c - 2]
    } else {
        0xff
    }
}

/// Byte `i` of the pool after the first `n` rows were written: the pixels'
/// bytes inside those rows, and what was there everywhere else.
pub open spec fn pool_byte(
    was: Seq<u8>,
    rgba: Seq<u8>,
    d: ShmLayout,
    w: int,
    n: int,
    i: int,
) -> u8 {
    let rel = i - d.offset;
    let y = rel / d.stride as int;
    let c = rel % d.stride as int;
    if rel >= 0 && y < n && c < w * 4 {
        bgrx(rgba, y * (w * 4), c)
    } else {
        was[i]
    }
}

/// Write one row of pixels at `base`.
fn write_row(pool: &mut Vec<u8>, base: usize, rgba: &[u8], src: usize, w: usize)
    requires
        base + w * 4 <= old(pool)@.len(),
        src + w * 4 <= rgba@.len(),
    ensures
        final(pool)@.len() == old(pool)@.len(),
        forall|i: int|
            0 <= i < old(pool)@.len() ==> #[trigger] final(pool)@[i] == (if base <= i < base + w
                * 4 {
                bgrx(rgba@, src as int, i - base)
            } else {
                old(pool)@[i]
            }),
{
    let ghost was = pool@;
    let len: usize = pool.len();
    let from_len: usize = rgba.len();
    let mut x: usize = 0;
    while x < w
        invariant
            x <= w,
            len == pool@.len(),
            from_len == rgba@.len(),
            base + w * 4 <= pool@.len(),
            src + w * 4 <= rgba@.len(),
            pool@.len() == was.len(),
            forall|i: int|
                0 <= i < was.len() ==> #[trigger] pool@[i] == (if base <= i < base + x * 4 {
                    bgrx(rgba@, src as int, i - base)
                } else {
                    was[i]
                }),
        decreases w - x,
    {
        let at: usize = base + x * 4;
        let from: usize = src + x * 4;
        pool.set(at, rgba[from + 2]);
        pool.set(at + 1, rgba[from + 1]);
        pool.set(at + 2, rgba[from]);
        pool.set(at + 3, 0xff);
        x = x + 1;
    }
}

/// Copy the readback's rows into the client's buffer: red, green, blue,
/// alpha bytes become blue, green, red and an opaque byte. Refused, with
/// nothing written, if there are too few pixels or the pool does not cover
/// what it promised.
pub fn write_shm(pool: &mut Vec<u8>, d: &ShmLayout, w: i32, h: i32, rgba: &[u8]) -> (ok: bool)
    requires
        w > 0,
        h > 0,
        w * 4 <= i32::MAX,
        old(pool)@.len() <= 0x7fff_ffff_ffff_ffff,
    ensures
        ok == (rgba@.len() >= w * 4 * h && covered(
            *d,
            old(pool)@.len() as int,
            w as int,
            h as int,
        )),
        final(pool)@.len() == old(pool)@.len(),
        !ok ==> final(pool)@ == old(pool)@,
        ok ==> forall|i: int|
            0 <= i < old(pool)@.len() ==> #[trigger] final(pool)@[i] == pool_byte(
                old(pool)@,
                rgba@,
                *d,
                w as int,
                h as int,
                i,
            ),
{
    let ghost was = pool@;
    let row: usize = (w * 4) as usize;
    proof {
        assert(0 <= w * 4 * h <= 0x7fff_ffff * 0x7fff_ffff) by (nonlinear_arith)
            requires
                0 < w * 4 <= 0x7fff_ffff,
                0 < h <= 0x7fff_ffff,
        ;
    }
    let need: u64 = row as u64 * h as u64;
    if (rgba.len() as u64) < need {
        return false;
    }
    if !covers(d, pool.len(), w, h) {
        return false;
    }
    let stride: usize = d.stride as usize;
    let offset: usize = d.offset as usize;
    let rows: usize = h as usize;
    let len: usize = pool.len();
    let pixels: usize = rgba.len();
    let mut y: usize = 0;
    while y < rows
        invariant
            y <= rows,
            len == was.len(),
            rows == h,
            w > 0,
            h > 0,
            row == w * 4,
            pixels == rgba@.len(),
            row * rows <= pixels,
            stride == d.stride,
            offset == d.offset,
            stride >= row,
            row > 0,
            offset + stride * (rows - 1) + row <= was.len(),
            was.len() <= 0x7fff_ffff_ffff_ffff,
            pool@.len() == was.len(),
            forall|i: int|
                0 <= i < was.len() ==> #[trigger] pool@[i] == pool_byte(
                    was,
                    rgba@,
                    *d,
                    w as int,
                    y as int,
                    i,
                ),
        decreases rows - y,
    {
        proof {
            assert(0 <= stride * y <= stride * (rows - 1)) by (nonlinear_arith)
                requires
                    0 <= y <= rows - 1,
                    stride >= 0,
            ;
            assert(0 <= row * y && row * y + row <= row * rows) by (nonlinear_arith)
                requires
                    0 <= y,
                    y + 1 <= rows,
                    row >= 0,
            ;
        }
        let base: usize = offset + stride * y;
        let src: usize = row * y;
        let ghost before = pool@;
        write_row(pool, base, rgba, src, w as usize);
        proof {
            assert forall|i: int| 0 <= i < was.len() implies #[trigger] pool@[i] == pool_byte(
                was,
                rgba@,
                *d,
                w as int,
                y + 1,
                i,
            ) by {
                let rel = i - offset;
                let s = stride as int;
                if rel >= 0 {
                    lemma_fundamental_div_mod(rel, s);
                    if base <= i < base + row {
                        assert(rel == (y as int) * s + (i - base)) by (nonlinear_arith)
                            requires
                                rel == i - offset,
                                base == offset + stride * y,
                                s == stride,
                        ;
                        lemma_fundamental_div_mod_converse(rel, s, y as int, i - base);
                        assert((y as int) * (w * 4) == src) by (nonlinear_arith)
                            requires
                                src == row * y,
                                row == w * 4,
                        ;
                    } else if rel / s == y {
                        assert(s * (rel / s) == s * (y as int));
                        assert(rel % s == i - base);
                    }
                } else {
                    assert(i < base);
                }
                assert(before[i] == pool_byte(was, rgba@, *d, w as int, y as int, i));
            }
        }
        y = y + 1;
    }
    true
}

/// A frame object's state. It is created armed with everything its capture
/// needs and stays that way until its one copy, or it is born failed, which
/// no copy can revive.
#[derive(Clone, Copy, PartialEq, Eq, Debug, Structural)]
pub enum FrameData {
    Armed {
        /// The output pixels to grab, already clipped to the output.
        region: Rect,
        /// Draw the pointer into the capture.
        overlay_cursor: bool,
        /// Latches on the first copy.
        used: bool,
    },
    Failed,
}

/// The frame of a capture of `region`, not copied yet.
pub open spec fn frame_of(region: Option<Rect>, overlay_cursor: bool) -> FrameData {
    match region {
        Some(region) => FrameData::Armed { region, overlay_cursor, used: false },
        None => FrameData::Failed,
    }
}

/// What a new frame starts as, and what its client is told: the buffer's
/// size and stride, or failure.
pub fn new_frame(region: Option<Rect>, overlay_cursor: bool) -> (f: FrameData)
    ensures
        f == frame_of(region, overlay_cursor),
{
    match region {
        Some(region) => FrameData::Armed { region, overlay_cursor, used: false },
        None => FrameData::Failed,
    }
}

/// What a copy request comes to.
#[derive(Clone, Copy, PartialEq, Eq, Debug, Structural)]
pub enum CopyStep {
    /// The frame was born failed.
    Ignored,
    /// A protocol error: the frame has copied a buffer already.
    AlreadyUsed,
    /// A protocol error: not the buffer this frame asked for.
    InvalidBuffer,
    /// Queued for the next composited frame.
    Queued(Capture),
}

/// A copy request waiting for the next composited frame.
#[derive(Clone, Copy, PartialEq, Eq, Debug, Structural)]
pub struct Capture {
    /// The frame object, by number.
    pub frame: u32,
    pub region: Rect,
    pub overlay_cursor: bool,
    /// The client waits for the screen to change rather than asking for a
    /// frame of its own.
    pub with_damage: bool,
}

impl FrameData {
    /// What a copy with this buffer comes to.
    pub open spec fn copy_step(self, frame: u32, buffer_matches: bool, with_damage: bool) -> CopyStep {
        match self {
            FrameData::Failed => CopyStep::Ignored,
            FrameData::Armed { region, overlay_cursor, used } => if used {
                CopyStep::AlreadyUsed
            } else if !buffer_matches {
                CopyStep::InvalidBuffer
            } else {
                CopyStep::Queued(Capture { frame, region, overlay_cursor, with_damage })
            },
        }
    }

    /// The frame after a copy.
    pub open spec fn copied(self) -> FrameData {
        match self {
            FrameData::Failed => FrameData::Failed,
            FrameData::Armed { region, overlay_cursor, used } => FrameData::Armed {
                region,
                overlay_cursor,
                used: true,
            },
        }
    }

    /// The one copy of a frame. A second one is an error, whatever its
    /// buffer.
    pub fn copy(&mut self, frame: u32, buffer_matches: bool, with_damage: bool) -> (step: CopyStep)
        ensures
            step == old(self).copy_step(frame, buffer_matches, with_damage),
            *final(self) == old(self).copied(),
    {
        match *self {
            FrameData::Failed => CopyStep::Ignored,
            FrameData::Armed { region, overlay_cursor, used } => {
                *self = FrameData::Armed { region, overlay_cursor, used: true };
                if used {
                    CopyStep::AlreadyUsed
                } else if !buffer_matches {
                    CopyStep::InvalidBuffer
                } else {
                    CopyStep::Queued(Capture { frame, region, overlay_cursor, with_damage })
                }
            },
        }
    }
}

/// A frame copies at most one buffer: whatever its first copy came to, no
/// later one is queued.
pub proof fn frames_copy_at_most_once(f: FrameData, frame: u32, ok: bool, with_damage: bool)
    ensures
        !(f.copied().copy_step(frame, ok, with_damage) is Queued),
{
}

/// The captures queued against the screen, in request order.
pub struct Screencopy {
    pub pending: Vec<Capture>,
}

/// `s` without the captures of this frame.
pub open spec fn without_frame(s: Seq<Capture>, frame: u32) -> Seq<Capture>
    decreases s.len(),
{
    if s.len() == 0 {
        s
    } else if s.last().frame == frame {
        without_frame(s.drop_last(), frame)
    } else {
        without_frame(s.drop_last(), frame).push(s.last())
    }
}

/// Whether a capture can still be served: the output has not shrunk under
/// what was promised.
pub open spec fn grabs(c: Capture, output_w: int, output_h: int) -> bool {
    Rect { x: 0, y: 0, w: output_w as i32, h: output_h as i32 }.encloses(c.region)
}

/// The captures of the first `n` that belong to live frames, each with
/// whether it can be served.
pub open spec fn served_to(
    s: Seq<Capture>,
    live: Seq<u32>,
    output_w: int,
    output_h: int,
    n: int,
) -> Seq<(Capture, bool)>
    decreases n,
{
    if n <= 0 {
        Seq::empty()
    } else {
        let rest = served_to(s, live, output_w, output_h, n - 1);
        if live.contains(s[n - 1].frame) {
            rest.push((s[n - 1], grabs(s[n - 1], output_w, output_h)))
        } else {
            rest
        }
    }
}

/// Whether a queued capture asks for a frame of its own.
pub open spec fn redraws(c: Capture) -> bool {
    !c.with_damage
}

impl Screencopy {
    /// Queue a capture. Returns whether it is its own reason to composite a
    /// frame: one that waits for damage is not.
    pub fn queue(&mut self, c: Capture) -> (redraw: bool)
        ensures
            final(self).pending@ == old(self).pending@.push(c),
            redraw == redraws(c),
    {
        self.pending.push(c);
        !c.with_damage
    }

    /// A frame object was destroyed: whatever it queued is dropped.
    pub fn destroyed(&mut self, frame: u32)
        ensures
            final(self).pending@ == without_frame(old(self).pending@, frame),
    {
        let mut kept: Vec<Capture> = Vec::new();
        let mut k: usize = 0;
        while k < self.pending.len()
            invariant
                k <= self.pending@.len(),
                self.pending@ == old(self).pending@,
                kept@ == without_frame(self.pending@.take(k as int), frame),
            decreases self.pending@.len() - k,
        {
            proof {
                assert(self.pending@.take(k + 1).drop_last() =~= self.pending@.take(k as int));
                assert(self.pending@.take(k + 1).last() == self.pending@[k as int]);
            }
            if self.pending[k].frame != frame {
                kept.push(self.pending[k]);
            }
            k = k + 1;
        }
        proof {
            assert(self.pending@.take(k as int) =~= self.pending@);
        }
        self.pending = kept;
    }

    /// Take every capture queued since the last frame. Those of frames that
    /// are gone are dropped; every other comes with whether it still fits
    /// the output, and the caller fails it where it does not.
    pub fn serve(&mut self, live: &Vec<u32>, output_w: i32, output_h: i32) -> (served: Vec<
        (Capture, bool),
    >)
        ensures
            final(self).pending@ == Seq::<Capture>::empty(),
            served@ == served_to(
                old(self).pending@,
                live@,
                output_w as int,
                output_h as int,
                old(self).pending@.len() as int,
            ),
    {
        let mut pending: Vec<Capture> = Vec::new();
        std::mem::swap(&mut pending, &mut self.pending);
        let mut served: Vec<(Capture, bool)> = Vec::new();
        let mut k: usize = 0;
        while k < pending.len()
            invariant
                k <= pending@.len(),
                served@ == served_to(
                    pending@,
                    live@,
                    output_w as int,
                    output_h as int,
                    k as int,
                ),
            decreases pending@.len() - k,
        {
            let c = pending[k];
            if is_live(live, c.frame) {
                let r = c.region;
                let fits = 0 <= r.x && 0 <= r.y && r.x as i64 + r.w as i64 <= output_w as i64
                    && r.y as i64 + r.h as i64 <= output_h as i64;
                served.push((c, fits));
            }
            k = k + 1;
        }
        served
    }
}

fn is_live(live: &Vec<u32>, frame: u32) -> (b: bool)
    ensures
        b == live@.contains(frame),
{
    let mut k: usize = 0;
    while k < live.len()
        invariant
            k <= live@.len(),
            forall|i: int| 0 <= i < k ==> live@[i] != frame,
        decreases live@.len() - k,
    {
        if live[k] == frame {
            assert(live@[k as int] == frame);
            return true;
        }
        k = k + 1;
    }
    false
}

/// What a finished capture tells its client: the damage, where it was asked
/// for, and when the frame was taken, the seconds in two halves.
#[derive(Clone, Copy, PartialEq, Eq, Debug)]
pub struct Ready {
    pub damage: Option<(u32, u32)>,
    pub secs_hi: u32,
    pub secs_lo: u32,
    pub nanos: u32,
}

/// Announce a finished capture of a region `w` by `h`, taken at this time.
/// The whole region counts as damaged.
pub fn ready(with_damage: bool, w: i32, h: i32, secs: u64, nanos: u32) -> (r: Ready)
    requires
        0 <= w,
        0 <= h,
    ensures
        r.damage == (if with_damage {
            Some((w as u32, h as u32))
        } else {
            None
        }),
        r.secs_hi * 0x1_0000_0000 + r.secs_lo == secs,
        r.nanos == nanos,
{
    Ready {
        damage: if with_damage {
            Some((w as u32, h as u32))
        } else {
            None
        },
        secs_hi: (secs / 0x1_0000_0000) as u32,
        secs_lo: (secs % 0x1_0000_0000) as u32,
        nanos,
    }
}

} // verus!
