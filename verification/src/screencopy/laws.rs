//! What capturing the screen promises.

use super::{
    accepted, bgrx, covered, frame_of, grabs, pool_byte, redraws, region_of, served_to,
    without_frame, Capture, CopyStep, ShmLayout,
};
use crate::geom::Rect;
use vstd::prelude::*;

verus! {

/// Law: a captured region holds exactly the pixels that are both on the
/// output and asked for; asking for none of it, or for nothing, captures
/// nothing, and asking for no region captures all.
pub proof fn captures_hold_what_was_asked_for(full: Rect, asked: Rect, px: int, py: int)
    requires
        0 <= full.w,
        0 <= full.h,
    ensures
        ({
            let on = full.x <= px < full.x + full.w && full.y <= py < full.y + full.h;
            let wanted = asked.x <= px < asked.x + asked.w && asked.y <= py < asked.y + asked.h;
            let r = region_of(full, Some(asked));
            &&& on && wanted ==> r is Some
            &&& r is Some ==> (r->0.x <= px < r->0.x + r->0.w && r->0.y <= py < r->0.y + r->0.h
                <==> on && wanted)
            &&& region_of(full, None) == Some(full)
        }),
{
}

/// Law: each pixel is handed over as blue, green, red and an opaque byte.
pub proof fn pixels_are_handed_over_blue_first(rgba: Seq<u8>, src: int, k: int)
    requires
        0 <= k,
    ensures
        bgrx(rgba, src, 4 * k) == rgba[src + 4 * k + 2],
        bgrx(rgba, src, 4 * k + 1) == rgba[src + 4 * k + 1],
        bgrx(rgba, src, 4 * k + 2) == rgba[src + 4 * k],
        bgrx(rgba, src, 4 * k + 3) == 255,
{
}

/// Law: the pixel in column `x` and row `y` is written at its place of the
/// client's buffer, `offset` bytes in and `stride` bytes per row; what lies
/// before the image, between its rows and after it stays as it was.
pub proof fn pixels_are_written_at_their_place(
    was: Seq<u8>,
    rgba: Seq<u8>,
    d: ShmLayout,
    w: int,
    h: int,
    x: int,
    y: int,
    i: int,
)
    requires
        0 < w,
        0 < h,
        covered(d, was.len() as int, w, h),
        0 <= x < w,
        0 <= y < h,
        0 <= i < was.len(),
    ensures
        ({
            let at = d.offset + y * d.stride + 4 * x;
            let from = (y * w + x) * 4;
            &&& pool_byte(was, rgba, d, w, h, at) == rgba[from + 2]
            &&& pool_byte(was, rgba, d, w, h, at + 1) == rgba[from + 1]
            &&& pool_byte(was, rgba, d, w, h, at + 2) == rgba[from]
            &&& pool_byte(was, rgba, d, w, h, at + 3) == 255
        }),
        i < d.offset ==> pool_byte(was, rgba, d, w, h, i) == was[i],
        d.offset + y * d.stride + 4 * w <= i < d.offset + (y + 1) * d.stride ==> pool_byte(
            was,
            rgba,
            d,
            w,
            h,
            i,
        ) == was[i],
        i >= d.offset + h * d.stride ==> pool_byte(was, rgba, d, w, h, i) == was[i],
{
    let st = d.stride as int;
    let at = d.offset + y * st + 4 * x;
    assert forall|c: int| 0 <= c < 4 implies #[trigger] pool_byte(was, rgba, d, w, h, at + c)
        == bgrx(rgba, y * (w * 4), 4 * x + c) by {
        assert((y * st + 4 * x + c) / st == y && (y * st + 4 * x + c) % st == 4 * x + c)
            by (nonlinear_arith)
            requires
                0 <= 4 * x + c < st,
                0 <= y,
                0 < st,
        ;
        assert(at + c - d.offset == y * st + 4 * x + c);
        assert(0 <= y * st) by (nonlinear_arith)
            requires
                0 <= y,
                0 < st,
        ;
    }
    assert((y * w + x) * 4 == y * (w * 4) + 4 * x) by (nonlinear_arith);
    pixels_are_handed_over_blue_first(rgba, y * (w * 4), x);
    assert(pool_byte(was, rgba, d, w, h, at + 0) == bgrx(rgba, y * (w * 4), 4 * x + 0));
    let rel = i - d.offset;
    if d.offset + y * st + 4 * w <= i < d.offset + (y + 1) * st {
        assert(rel / st == y && rel % st >= 4 * w) by (nonlinear_arith)
            requires
                y * st + 4 * w <= rel < (y + 1) * st,
                0 <= y,
                0 < st,
                0 < w,
        ;
    }
    if i >= d.offset + h * st {
        assert(rel / st >= h) by (nonlinear_arith)
            requires
                rel >= h * st,
                0 < st,
        ;
    }
}

/// Law: a buffer is accepted exactly where every byte of the image fits into
/// it: rows do not run into each other, and the last one ends within it.
pub proof fn accepted_buffers_hold_the_image(d: ShmLayout, len: int, w: int, h: int, x: int, y: int)
    requires
        0 < w,
        0 < h,
        covered(d, len, w, h),
        0 <= x < w,
        0 <= y < h,
    ensures
        0 <= d.offset + y * d.stride + 4 * x,
        d.offset + y * d.stride + 4 * x + 4 <= len,
        y + 1 < h ==> d.offset + y * d.stride + 4 * x + 4 <= d.offset + (y + 1) * d.stride,
{
    let st = d.stride as int;
    assert(0 <= y * st <= st * (h - 1) && (y + 1) * st == y * st + st) by (nonlinear_arith)
        requires
            0 <= y < h,
            0 < st,
    ;
}

/// Law: every capture whose frame still lives is served, in the order they
/// came, and fails exactly where its region is not all on the output.
pub proof fn living_captures_are_served(
    s: Seq<Capture>,
    live: Seq<u32>,
    output_w: int,
    output_h: int,
    n: int,
    i: int,
)
    requires
        0 <= i < n <= s.len(),
        0 <= output_w <= i32::MAX,
        0 <= output_h <= i32::MAX,
    ensures
        live.contains(s[i].frame) ==> served_to(s, live, output_w, output_h, n).contains(
            (s[i], grabs(s[i], output_w, output_h)),
        ),
        grabs(s[i], output_w, output_h) <==> 0 <= s[i].region.x && 0 <= s[i].region.y
            && s[i].region.x + s[i].region.w <= output_w && s[i].region.y + s[i].region.h
            <= output_h,
        forall|k: int|
            0 <= k < served_to(s, live, output_w, output_h, n).len() ==> live.contains(
                (#[trigger] served_to(s, live, output_w, output_h, n)[k]).0.frame,
            ),
    decreases n,
{
    let before = served_to(s, live, output_w, output_h, n - 1);
    let all = served_to(s, live, output_w, output_h, n);
    let one = (s[i], grabs(s[i], output_w, output_h));
    if n > 1 {
        living_captures_are_served(
            s,
            live,
            output_w,
            output_h,
            n - 1,
            if i < n - 1 {
                i
            } else {
                0
            },
        );
    }
    if live.contains(s[i].frame) {
        if i < n - 1 {
            let k = choose|k: int| 0 <= k < before.len() && before[k] == one;
            assert(all[k] == one);
        } else {
            assert(all[before.len() as int] == one);
        }
    }
    assert forall|k: int| 0 <= k < all.len() implies live.contains((#[trigger] all[k]).0.frame) by {
        if k < before.len() {
            assert(all[k] == before[k]);
        }
    }
}

/// Law: a frame that goes takes its own captures along and no other's.
pub proof fn dead_frames_take_their_captures_along(s: Seq<Capture>, frame: u32, c: Capture)
    ensures
        without_frame(s, frame).contains(c) <==> s.contains(c) && c.frame != frame,
    decreases s.len(),
{
    if s.len() > 0 {
        let rest = s.drop_last();
        dead_frames_take_their_captures_along(rest, frame, c);
        let n = without_frame(s, frame);
        let b = without_frame(rest, frame);
        if s.contains(c) && c.frame != frame {
            let k = choose|k: int| 0 <= k < s.len() && s[k] == c;
            if k < rest.len() {
                assert(rest[k] == c);
                let m = choose|m: int| 0 <= m < b.len() && b[m] == c;
                assert(n[m] == c);
            } else {
                assert(n[b.len() as int] == c);
            }
        }
        if n.contains(c) {
            let m = choose|m: int| 0 <= m < n.len() && n[m] == c;
            if m < b.len() {
                assert(b[m] == c);
                let k = choose|k: int| 0 <= k < rest.len() && rest[k] == c;
                assert(s[k] == c);
            } else {
                assert(s[s.len() - 1] == c);
            }
        }
    }
}

/// Law: a capture that waits for damage waits for the next frame that is
/// drawn anyway; any other asks for a frame at once.
pub proof fn captures_without_damage_redraw(c: Capture)
    ensures
        redraws(c) <==> !c.with_damage,
{
}

/// Law: a frame can be copied once, to a buffer that matches, with what was
/// asked of it; a region that is not there gives a frame that never can.
pub proof fn new_frames_can_be_copied(
    region: Rect,
    cursor: bool,
    frame: u32,
    with_damage: bool,
)
    ensures
        frame_of(Some(region), cursor).copy_step(frame, true, with_damage) == CopyStep::Queued(
            Capture { frame, region, overlay_cursor: cursor, with_damage },
        ),
        frame_of(Some(region), cursor).copy_step(frame, false, with_damage) is InvalidBuffer,
        frame_of(Some(region), cursor).copied().copy_step(frame, true, with_damage) is AlreadyUsed,
        frame_of(None, cursor).copy_step(frame, true, with_damage) is Ignored,
{
}

/// Law: a buffer of another size, or of a format that is not offered, is
/// never copied to, however large it is.
pub proof fn other_buffers_are_refused(d: ShmLayout, len: int, w: int, h: int)
    ensures
        accepted(d, len, w, h) ==> d.width == w && d.height == h && d.format_ok,
        accepted(d, len, w, h) ==> covered(d, len, w, h),
        d.width == w && d.height == h && d.format_ok && covered(d, len, w, h) ==> accepted(
            d,
            len,
            w,
            h,
        ),
{
}

} // verus!
