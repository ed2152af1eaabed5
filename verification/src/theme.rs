//! The measurements the chrome is drawn and hit-tested with.

use crate::geom::{fits_i32, max_i32, imax, Rect};
use vstd::prelude::*;

verus! {

/// Sizes in pixels that the look of the chrome fixes.
#[derive(Clone, Copy, PartialEq, Eq, Debug, Structural)]
pub struct Theme {
    /// Space between splits and around the strip.
    pub gap: i32,
    /// The window border art's insets.
    pub border_left: i32,
    pub border_right: i32,
    pub border_top: i32,
    pub border_bottom: i32,
    /// Titlebar height of a tiled split.
    pub tb_h: i32,
    /// Height of the bottom bar.
    pub taskbar_h: i32,
    /// Side of a titlebar button and of the icon beside a title.
    pub btn_size: i32,
    /// Pixels the canvas pans per wheel click.
    pub scroll_step: i32,
}

/// The largest measurement a theme may hold.
pub const THEME_MAX: i32 = 0x10_0000;

impl Theme {
    pub open spec fn wf(self) -> bool {
        &&& 0 <= self.gap <= THEME_MAX
        &&& 0 <= self.border_left <= THEME_MAX
        &&& 0 <= self.border_right <= THEME_MAX
        &&& 0 <= self.border_top <= THEME_MAX
        &&& 0 <= self.border_bottom <= THEME_MAX
        &&& 0 <= self.tb_h <= THEME_MAX
        &&& 0 <= self.taskbar_h <= THEME_MAX
        &&& 0 <= self.btn_size <= THEME_MAX
        &&& 0 <= self.scroll_step <= THEME_MAX
    }
}

/// The split-layout area of an output: the zone its panels leave free,
/// minus the bottom taskbar strip, never empty.
pub open spec fn layout_area_of(zone: Rect, output_h: int, taskbar_h: int) -> Rect {
    let bottom = if zone.bottom() <= output_h - taskbar_h {
        zone.bottom()
    } else {
        output_h - taskbar_h
    };
    Rect {
        x: zone.x,
        y: zone.y,
        w: imax(zone.w as int, 1) as i32,
        h: imax(bottom - zone.y, 1) as i32,
    }
}

/// The split-layout area: the output minus the bottom taskbar strip,
/// further shrunk by layer-shell exclusive zones.
pub fn layout_area(zone: Rect, output_h: i32, th: &Theme) -> (wa: Rect)
    requires
        th.wf(),
        0 <= output_h,
        fits_i32(zone.bottom()),
        fits_i32(output_h - zone.y),
        fits_i32(output_h - th.taskbar_h - zone.y),
    ensures
        wa == layout_area_of(zone, output_h as int, th.taskbar_h as int),
        wa.w >= 1,
        wa.h >= 1,
{
    let zone_bottom: i32 = zone.y + zone.h;
    let bar: i32 = output_h - th.taskbar_h;
    let bottom: i32 = if zone_bottom <= bar {
        zone_bottom
    } else {
        bar
    };
    Rect { x: zone.x, y: zone.y, w: max_i32(zone.w, 1), h: max_i32(bottom - zone.y, 1) }
}

/// Law: the splits have every pixel of the free zone that is above the
/// taskbar, and no other.
pub proof fn splits_have_the_free_zone_above_the_bar(
    zone: Rect,
    output_h: int,
    taskbar_h: int,
    px: int,
    py: int,
)
    requires
        1 <= zone.w,
        1 <= zone.h,
        0 <= taskbar_h,
        zone.y < output_h - taskbar_h,
        fits_i32(zone.bottom()),
        fits_i32(zone.right()),
        fits_i32(output_h - taskbar_h - zone.y),
        fits_i32(zone.bottom() - zone.y),
    ensures
        layout_area_of(zone, output_h, taskbar_h).has(px, py) <==> zone.has(px, py) && py
            < output_h - taskbar_h,
{
}

} // verus!
