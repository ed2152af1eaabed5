//! What drawing promises.

use super::{outline_fills, remapped, roomy, screen_base, strip_parts, MIN_CAP};
use crate::Index;
use vstd::prelude::*;

verus! {

/// Law: a colour that is swapped becomes its partner, the last one named for
/// it; every other colour stays.
pub proof fn swaps_change_only_what_they_name(swap: Seq<(Index, Index)>, i: Index, n: int, k: int)
    requires
        0 <= k <= n <= swap.len(),
        forall|j: int| k <= j < n ==> (#[trigger] swap[j]).0 != i,
        k > 0 ==> swap[k - 1].0 == i,
    ensures
        k > 0 ==> remapped(swap, i, n) == swap[k - 1].1,
        k == 0 ==> remapped(swap, i, n) == i,
    decreases n - k,
{
    if k < n {
        assert(swap[n - 1].0 != i);
        swaps_change_only_what_they_name(swap, i, n - 1, k);
    }
}

/// Law: an outline that is all on the buffer is four strips two pixels wide
/// along the four sides, and no pixel of it is drawn twice.
pub proof fn outlines_run_along_the_sides(
    size: (i32, i32),
    x: int,
    y: int,
    w: int,
    h: int,
    fg: Index,
    px: int,
    py: int,
)
    requires
        roomy(x, y, w, h),
        5 <= w,
        5 <= h,
        0 <= x,
        0 <= y,
        x + w <= size.0,
        y + h <= size.1,
    ensures
        ({
            let s = outline_fills(size, x, y, w, h, fg);
            let inside = x <= px < x + w && y <= py < y + h;
            let inner = x + 2 <= px < x + w - 2 && y + 2 <= py < y + h - 2;
            &&& s.len() == 4
            &&& (s[0].rect.has(px, py) || s[1].rect.has(px, py) || s[2].rect.has(px, py)
                || s[3].rect.has(px, py)) <==> inside && !inner
        }),
{
}

/// Law: a buffer is as large as the screen and never empty; the last frame's
/// is used again only at that size, and it is cleared first unless the
/// wallpaper covers it.
pub proof fn screens_are_drawn_on_a_buffer_of_their_size(
    w: int,
    h: int,
    frame: Option<(usize, usize)>,
    ww: usize,
    wh: usize,
)
    requires
        1 <= w <= u32::MAX,
        1 <= h <= u32::MAX,
    ensures
        ({
            let b = screen_base(w, h, frame, Some((ww, wh)));
            &&& b.size.0 == w && b.size.1 == h
            &&& b.recycle ==> frame is Some && (frame->0).0 == w && (frame->0).1 == h
            &&& b.clear <==> ww < w || wh < h
            &&& screen_base(w, h, frame, None).clear
            &&& screen_base(w, h, Some((w as usize, h as usize)), None).recycle
            &&& screen_base(0, 0, frame, None).size == (1usize, 1usize)
        }),
{
}

/// Law: the strip of a minimized split runs the whole length of its frame,
/// its two caps at the ends and its middle between them, in the middle of
/// its width.
pub proof fn strips_run_the_length_of_the_frame(sw: int, sh: int, ox: int, oy: int, w: int, h: int)
    requires
        roomy(ox, oy, w, h),
        0 <= sw <= 0x100_0000,
        0 <= sh <= 0x100_0000,
        2 * MIN_CAP < w,
        2 * MIN_CAP < h,
    ensures
        ({
            let s = strip_parts(sw, sh, ox, oy, w, h, true);
            let (left, right) = (s[0].dst.x - ox, ox + w - s[0].dst.x - sw);
            &&& s[0].dst.y == oy
            &&& s[2].dst.y == s[0].dst.y + s[0].dst.h
            &&& s[1].dst.y == s[2].dst.y + s[2].dst.h
            &&& s[1].dst.y + s[1].dst.h == oy + h
            &&& -1 <= left - right <= 1
            &&& s[1].dst.x == s[0].dst.x && s[2].dst.x == s[0].dst.x
        }),
        ({
            let s = strip_parts(sw, sh, ox, oy, w, h, false);
            let (above, below) = (s[0].dst.y - oy, oy + h - s[0].dst.y - sh);
            &&& s[0].dst.x == ox
            &&& s[2].dst.x == s[0].dst.x + s[0].dst.w
            &&& s[1].dst.x == s[2].dst.x + s[2].dst.w
            &&& s[1].dst.x + s[1].dst.w == ox + w
            &&& -1 <= above - below <= 1
            &&& s[1].dst.y == s[0].dst.y && s[2].dst.y == s[0].dst.y
        }),
{
}

} // verus!
