//! Screen backlight steps.

use vstd::prelude::*;

verus! {

/// `a` divided by 100, rounded towards zero.
pub open spec fn percent_of(a: int) -> int {
    if a >= 0 {
        a / 100
    } else {
        -((-a) / 100)
    }
}

/// The brightness after a step of `delta_percent` of the maximum: never a
/// fully dark panel, so that the screen stays readable enough to step back
/// up, and never past the maximum.
pub open spec fn stepped(cur: int, max: int, delta_percent: int) -> int {
    let floor = if max / 100 >= 1 {
        max / 100
    } else {
        1
    };
    let new = cur + percent_of(max * delta_percent);
    if new < floor {
        floor
    } else if new > max {
        max
    } else {
        new
    }
}

/// Step a device's brightness by `delta_percent` of its maximum, which is
/// at least one.
pub fn step_brightness(cur: i64, max: i64, delta_percent: i32) -> (new: i64)
    requires
        1 <= max,
        i64::MIN < max * delta_percent <= i64::MAX,
        i64::MIN <= cur + percent_of(max * delta_percent) <= i64::MAX,
    ensures
        new == stepped(cur as int, max as int, delta_percent as int),
        1 <= new <= max,
{
    let scaled: i64 = max * delta_percent as i64;
    let step: i64 = if scaled >= 0 {
        scaled / 100
    } else {
        -((-scaled) / 100)
    };
    let floor: i64 = if max / 100 >= 1 {
        max / 100
    } else {
        1
    };
    let new: i64 = cur + step;
    if new < floor {
        floor
    } else if new > max {
        max
    } else {
        new
    }
}

/// Stepping up and then down by as much ends where it began, away from the
/// limits.
pub proof fn brightness_steps_undo(cur: int, max: int, delta_percent: int)
    requires
        1 <= max,
        0 <= delta_percent,
        max / 100 <= cur,
        1 <= cur,
        cur + percent_of(max * delta_percent) <= max,
    ensures
        stepped(stepped(cur, max, delta_percent), max, -delta_percent) == cur,
{
    assert(max * delta_percent >= 0) by (nonlinear_arith)
        requires
            1 <= max,
            0 <= delta_percent,
    ;
    assert(max * (-delta_percent) == -(max * delta_percent)) by (nonlinear_arith);
}

/// Law: a brightness step goes up or down by that many hundredths of the
/// brightest, rounded towards where it was; it never leaves the range from
/// one hundredth, at least one, to the brightest, and at an end it stays.
pub proof fn brightness_steps_are_hundredths(cur: int, max: int, delta_percent: int)
    requires
        1 <= max,
        1 <= cur <= max,
        max / 100 <= cur,
    ensures
        ({
            let new = stepped(cur, max, delta_percent);
            let d = max * delta_percent;
            &&& 1 <= new <= max
            &&& new >= max / 100
            &&& delta_percent >= 0 && new < max ==> 100 * (new - cur) <= d < 100 * (new - cur) + 100
            &&& delta_percent <= 0 && new > 1 && new > max / 100 ==> 100 * (cur - new) <= -d < 100
                * (cur - new) + 100
            &&& delta_percent >= 0 ==> new >= cur
            &&& delta_percent <= 0 ==> new <= cur
            &&& delta_percent == 0 ==> new == cur
        }),
{
    let d = max * delta_percent;
    assert(delta_percent >= 0 ==> d >= 0) by (nonlinear_arith)
        requires
            1 <= max,
            d == max * delta_percent,
    ;
    assert(delta_percent <= 0 ==> d <= 0) by (nonlinear_arith)
        requires
            1 <= max,
            d == max * delta_percent,
    ;
}

} // verus!
