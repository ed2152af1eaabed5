//! One entry for everything the seat's devices report: each event is routed
//! to the part of the interaction it belongs to.

use crate::geom::fits_i32;
use crate::input::{intercepted_as, process_key, Binding, Intercepted, KeyOutcome, Mods};
use crate::interaction::{
    axis_plan, button_of, chrome_drag_of, drag_after, drag_fits, drag_moved, drag_step, offsets_fit,
    press_of, shape_of, whole_px, AxisPlan, ButtonOutcome, ButtonStep, DragStep, FloatFrame, Interaction,
    Press, Under, BTN_RIGHT, CLICK_ONE,
};
use crate::layout::{Layout, Strip};
use crate::pointer::{cursor_for, ActiveDrag, CursorShape, Hit};
use crate::theme::Theme;
use vstd::prelude::*;

verus! {

/// What a device reported.
#[derive(Clone, Copy, PartialEq, Eq, Debug)]
pub enum SeatEvent {
    /// A key, with its level-0 keysym and the one its modifiers make of it.
    Key { raw: u32, pressed: bool, mods: Mods, sym: u32, modified_sym: u32 },
    /// The pointer is at the place the surroundings describe.
    Motion,
    Button { button: u32, pressed: bool },
    /// Scrolling: which axes carry an amount, whether fingers did it, which
    /// axes report an explicit zero, and the horizontal amount in fractions
    /// of a wheel click.
    Axis {
        horizontal: bool,
        vertical: bool,
        finger: bool,
        horizontal_zero: bool,
        vertical_zero: bool,
        clicks: i32,
    },
    SwipeBegin { fingers: u32 },
    /// A swipe moved by this many fractions of a wheel click.
    SwipeUpdate { clicks: i32 },
    SwipeEnd,
    /// Anything else.
    Other,
}

/// What surrounds the pointer when an event arrives.
pub struct Seen {
    pub mx: i32,
    pub my: i32,
    /// Somebody holds a pointer grab.
    pub grabbed: bool,
    /// A notification bubble is under the pointer.
    pub note_here: bool,
    /// The client surface under the pointer.
    pub under: Under,
    /// The floats' frames, topmost first, and whether the pointer is on one.
    pub floats: Vec<FloatFrame>,
    pub over_float_frame: bool,
    /// A layout transition is running.
    pub animating: bool,
    /// What the chrome has under the pointer.
    pub hit: Hit,
    /// The pointer is over a tiled client.
    pub over_client: bool,
    /// The logo key is down.
    pub logo: bool,
}

/// What motion brings: the drag's step, whether the surface under the
/// pointer sees the motion, and the shape the compositor gives the pointer
/// where no surface decides it.
#[derive(Clone, Copy, PartialEq, Eq, Debug, Structural)]
pub struct MotionOutcome {
    pub drag: DragStep,
    pub deliver: bool,
    pub cursor: Option<CursorShape>,
}

/// What an event asks of the compositor.
#[derive(Clone, Copy, PartialEq, Eq, Debug)]
pub enum SeatStep {
    Nothing,
    Key(KeyOutcome),
    Moved(MotionOutcome),
    Button(ButtonOutcome),
    /// What of a scroll reaches the client, and the pixels the canvas pans.
    Axis(AxisPlan, i32),
    /// The canvas pans by this many pixels.
    Pan(i32),
}

/// The pointer's shape off every surface, with `drag` in flight.
pub open spec fn shape_off_surfaces(
    drag: Option<ActiveDrag>,
    v: Strip,
    over_float_frame: bool,
    hit: Hit,
) -> CursorShape {
    shape_of(drag, v, over_float_frame, hit)
}

/// What motion brings.
pub open spec fn motion_of(was: Interaction, v: Strip, s: Seen) -> MotionOutcome {
    let step = drag_step(was.drag, s.mx as int, s.my as int);
    let deliver = step is Free && s.under !is Nothing;
    MotionOutcome {
        drag: step,
        deliver,
        cursor: if deliver {
            None
        } else {
            Some(
                shape_off_surfaces(
                    drag_moved(was.drag, s.mx as int, s.my as int),
                    v,
                    s.over_float_frame,
                    s.hit,
                ),
            )
        },
    }
}

/// What a key event brings, `hit` being what its chord asks for.
pub open spec fn key_of(held: bool, hit: Option<Intercepted>, pressed: bool) -> KeyOutcome {
    if pressed {
        KeyOutcome {
            forward: !held && hit is None,
            fire: if held {
                None
            } else {
                hit
            },
        }
    } else {
        KeyOutcome { forward: !held, fire: None }
    }
}

/// What a scroll delivers and whether it pans.
pub open spec fn axis_of(
    horizontal: bool,
    vertical: bool,
    finger: bool,
    horizontal_zero: bool,
    vertical_zero: bool,
    s: Seen,
) -> AxisPlan {
    crate::interaction::axis_of(
        horizontal,
        vertical,
        finger,
        horizontal_zero,
        vertical_zero,
        s.over_client,
        s.logo,
    )
}

/// The pixels a fixed-point amount of clicks pans, with what was left over.
pub open spec fn panned(was: Interaction, clicks: int, th: Theme) -> int {
    whole_px(clicks * th.scroll_step + was.hscroll_frac)
}

/// What is left over after panning.
pub open spec fn left_over(was: Interaction, clicks: int, th: Theme) -> int {
    clicks * th.scroll_step + was.hscroll_frac - panned(was, clicks, th) * CLICK_ONE
}

/// What an event asks of the compositor.
pub open spec fn step_of(
    was: Interaction,
    v: Strip,
    bindings: Seq<Binding>,
    th: Theme,
    s: Seen,
    event: SeatEvent,
) -> SeatStep {
    match event {
        SeatEvent::Key { raw, pressed, mods, sym, modified_sym } => SeatStep::Key(
            key_of(
                was.held().contains(raw),
                intercepted_as(bindings, mods, sym, modified_sym),
                pressed,
            ),
        ),
        SeatEvent::Motion => SeatStep::Moved(motion_of(was, v, s)),
        SeatEvent::Button { button, pressed } => SeatStep::Button(
            button_of(
                was,
                v,
                button,
                pressed,
                s.grabbed,
                s.note_here,
                s.under,
                s.floats@,
                s.animating,
                s.hit,
                s.mx,
                s.my,
            ),
        ),
        SeatEvent::Axis { horizontal, vertical, finger, horizontal_zero, vertical_zero, clicks } => {
            let plan = axis_of(horizontal, vertical, finger, horizontal_zero, vertical_zero, s);
            SeatStep::Axis(
                plan,
                if plan.pan {
                    panned(was, clicks as int, th) as i32
                } else {
                    0
                },
            )
        },
        SeatEvent::SwipeUpdate { clicks } => if was.swipe_pan {
            SeatStep::Pan(panned(was, clicks as int, th) as i32)
        } else {
            SeatStep::Nothing
        },
        _ => SeatStep::Nothing,
    }
}

/// Whether an event's arithmetic is in range.
pub open spec fn event_fits(was: Interaction, th: Theme, s: Seen, event: SeatEvent) -> bool {
    match event {
        SeatEvent::Motion => drag_fits(was.drag, s.mx as int, s.my as int),
        SeatEvent::Button { .. } => offsets_fit(s.floats@, s.mx as int, s.my as int),
        SeatEvent::Axis { clicks, .. } => fits_i32(panned(was, clicks as int, th)),
        SeatEvent::SwipeUpdate { clicks } => fits_i32(panned(was, clicks as int, th)),
        _ => true,
    }
}

/// The buttons whose release no client sees, after an event that came to
/// `step`.
pub open spec fn swallowed_after(was: Set<u32>, event: SeatEvent, step: SeatStep) -> Set<u32> {
    match event {
        SeatEvent::Button { button, pressed } => if pressed && !(step->Button_0.forward) {
            was.insert(button)
        } else {
            was.remove(button)
        },
        _ => was,
    }
}

/// The drag in flight after an event that came to `step`.
pub open spec fn drag_then(was: Interaction, s: Seen, event: SeatEvent, step: SeatStep) -> Option<
    ActiveDrag,
> {
    match event {
        SeatEvent::Motion => drag_moved(was.drag, s.mx as int, s.my as int),
        SeatEvent::Button { button, pressed } => if !pressed {
            None
        } else {
            match step {
                SeatStep::Button(ButtonOutcome { step: ButtonStep::Chrome(_), .. }) =>
                    chrome_drag_of(was.drag, s.floats@, s.hit, s.mx, s.my, button == BTN_RIGHT),
                _ => was.drag,
            }
        },
        _ => was.drag,
    }
}

/// The fraction of a pixel owed after an event that came to `step`.
pub open spec fn frac_then(was: Interaction, th: Theme, event: SeatEvent, step: SeatStep) -> int {
    match event {
        SeatEvent::Axis { clicks, .. } => match step {
            SeatStep::Axis(plan, _) => if plan.pan {
                left_over(was, clicks as int, th)
            } else {
                was.hscroll_frac as int
            },
            _ => was.hscroll_frac as int,
        },
        SeatEvent::SwipeUpdate { clicks } => if was.swipe_pan {
            left_over(was, clicks as int, th)
        } else {
            was.hscroll_frac as int
        },
        _ => was.hscroll_frac as int,
    }
}

/// Whether a swipe pans the canvas after an event.
pub open spec fn swipe_then(was: bool, event: SeatEvent) -> bool {
    match event {
        SeatEvent::SwipeBegin { fingers } => fingers == 3,
        SeatEvent::SwipeEnd => false,
        _ => was,
    }
}

/// A pointer position, from any device: an active drag consumes the motion,
/// and off every surface the pointer's shape is the compositor's.
pub fn pointer_moved(interaction: &mut Interaction, layout: &Layout, s: &Seen) -> (m: MotionOutcome)
    requires
        layout@.wf(),
        drag_fits(old(interaction).drag, s.mx as int, s.my as int),
    ensures
        m == motion_of(*old(interaction), layout@, *s),
        *final(interaction) == (Interaction {
            drag: drag_moved(old(interaction).drag, s.mx as int, s.my as int),
            ..*old(interaction)
        }),
{
    let drag = interaction.on_drag_motion(s.mx, s.my);
    let free = matches!(drag, DragStep::Free);
    let bare = matches!(s.under, Under::Nothing);
    let deliver = free && !bare;
    let cursor = if deliver {
        None
    } else {
        Some(interaction.drag_cursor(layout, s.over_float_frame, s.hit))
    };
    MotionOutcome { drag, deliver, cursor }
}

/// An input event, before any client sees it.
pub fn process_input_event(
    interaction: &mut Interaction,
    layout: &Layout,
    bindings: &Vec<Binding>,
    th: &Theme,
    s: &Seen,
    event: SeatEvent,
) -> (step: SeatStep)
    requires
        old(interaction).wf(),
        layout@.wf(),
        th.wf(),
        event_fits(*old(interaction), *th, *s, event),
    ensures
        final(interaction).wf(),
        step == step_of(*old(interaction), layout@, bindings@, *th, *s, event),
        final(interaction).held() == (match event {
            SeatEvent::Key { raw, pressed, mods, sym, modified_sym } => if !pressed {
                old(interaction).held().remove(raw)
            } else if intercepted_as(bindings@, mods, sym, modified_sym) is Some {
                old(interaction).held().insert(raw)
            } else {
                old(interaction).held()
            },
            _ => old(interaction).held(),
        }),
        final(interaction).drag == drag_then(*old(interaction), *s, event, step),
        final(interaction).swallowed() == swallowed_after(old(interaction).swallowed(), event, step),
        final(interaction).hscroll_frac == frac_then(*old(interaction), *th, event, step),
        final(interaction).swipe_pan == swipe_then(old(interaction).swipe_pan, event),
        final(interaction).quick_hover == old(interaction).quick_hover,
        final(interaction).hover_win == old(interaction).hover_win,
{
    match event {
        SeatEvent::Key { raw, pressed, mods, sym, modified_sym } => {
            let o = process_key(interaction, bindings, raw, pressed, &mods, sym, modified_sym);
            SeatStep::Key(o)
        },
        SeatEvent::Motion => SeatStep::Moved(pointer_moved(interaction, layout, s)),
        SeatEvent::Button { button, pressed } => {
            let o = interaction.pointer_button(
                layout,
                button,
                pressed,
                s.grabbed,
                s.note_here,
                s.under,
                &s.floats,
                s.animating,
                s.hit,
                s.mx,
                s.my,
            );
            SeatStep::Button(o)
        },
        SeatEvent::Axis { horizontal, vertical, finger, horizontal_zero, vertical_zero, clicks } => {
            let plan = axis_plan(
                horizontal,
                vertical,
                finger,
                horizontal_zero,
                vertical_zero,
                s.over_client,
                s.logo,
            );
            let px: i32 = if plan.pan {
                interaction.apply_hscroll(clicks, th)
            } else {
                0
            };
            SeatStep::Axis(plan, px)
        },
        SeatEvent::SwipeBegin { fingers } => {
            interaction.swipe_begin(fingers);
            SeatStep::Nothing
        },
        SeatEvent::SwipeUpdate { clicks } => {
            if interaction.swipe_pan {
                SeatStep::Pan(interaction.apply_hscroll(clicks, th))
            } else {
                SeatStep::Nothing
            }
        },
        SeatEvent::SwipeEnd => {
            interaction.swipe_end();
            SeatStep::Nothing
        },
        SeatEvent::Other => SeatStep::Nothing,
    }
}

/// One event with what it met: the interaction before it, the strip, and the
/// surroundings.
pub struct Turn {
    pub was: Interaction,
    pub v: Strip,
    pub seen: Seen,
    pub event: SeatEvent,
}

/// What the event of a turn comes to.
pub open spec fn came_to(t: Turn, bindings: Seq<Binding>, th: Theme) -> SeatStep {
    step_of(t.was, t.v, bindings, th, t.seen, t.event)
}

/// Whether each turn starts from the swallowed buttons the one before left.
pub open spec fn in_turn(turns: Seq<Turn>, bindings: Seq<Binding>, th: Theme) -> bool {
    forall|i: int|
        0 <= i < turns.len() - 1 ==> turns[i + 1].was.swallowed() == swallowed_after(
            (#[trigger] turns[i]).was.swallowed(),
            turns[i].event,
            came_to(turns[i], bindings, th),
        )
}

/// A client sees both halves of a click or neither: what of a press the
/// chrome keeps, its release is kept too, whatever the other buttons, the
/// keys and the pointer do in between and whatever lies under the pointer by
/// then.
pub proof fn clients_never_see_half_a_click(
    turns: Seq<Turn>,
    bindings: Seq<Binding>,
    th: Theme,
    button: u32,
    down: int,
    up: int,
)
    requires
        in_turn(turns, bindings, th),
        0 <= down < up < turns.len(),
        turns[down].event == (SeatEvent::Button { button, pressed: true }),
        turns[up].event == (SeatEvent::Button { button, pressed: false }),
        forall|i: int|
            down < i < up ==> (match (#[trigger] turns[i]).event {
                SeatEvent::Button { button: other, .. } => other != button,
                _ => true,
            }),
    ensures
        came_to(turns[up], bindings, th)->Button_0.forward == came_to(
            turns[down],
            bindings,
            th,
        )->Button_0.forward,
{
    lemma_kept_between(turns, bindings, th, button, down, up);
}

proof fn lemma_kept_between(
    turns: Seq<Turn>,
    bindings: Seq<Binding>,
    th: Theme,
    button: u32,
    down: int,
    n: int,
)
    requires
        in_turn(turns, bindings, th),
        0 <= down < n < turns.len(),
        turns[down].event == (SeatEvent::Button { button, pressed: true }),
        forall|i: int|
            down < i < n ==> (match (#[trigger] turns[i]).event {
                SeatEvent::Button { button: other, .. } => other != button,
                _ => true,
            }),
    ensures
        turns[n].was.swallowed().contains(button) == !(came_to(
            turns[down],
            bindings,
            th,
        )->Button_0.forward),
    decreases n,
{
    assert(turns[n - 1 + 1].was.swallowed() == swallowed_after(
        turns[n - 1].was.swallowed(),
        turns[n - 1].event,
        came_to(turns[n - 1], bindings, th),
    ));
    if n > down + 1 {
        lemma_kept_between(turns, bindings, th, button, down, n - 1);
    }
}

/// The fixed-point amounts of a run of scroll events, added up.
pub open spec fn sum_of(clicks: Seq<i32>) -> int
    decreases clicks.len(),
{
    if clicks.len() == 0 {
        0
    } else {
        sum_of(clicks.drop_last()) + clicks.last()
    }
}

/// The pixels a run of scroll events pans in all, and what is left over,
/// starting from `frac`.
pub open spec fn run_of(clicks: Seq<i32>, frac: int, th: Theme) -> (int, int)
    decreases clicks.len(),
{
    if clicks.len() == 0 {
        (0, frac)
    } else {
        let (px, rest) = run_of(clicks.drop_last(), frac, th);
        let total = clicks.last() * th.scroll_step + rest;
        (px + whole_px(total), total - whole_px(total) * CLICK_ONE)
    }
}

/// Slow scrolling loses nothing: however a distance is cut into events, the
/// pixels panned and what is left over make up the distance exactly, and
/// what is left over is always less than a pixel.
pub proof fn slow_scrolling_loses_nothing(clicks: Seq<i32>, was: Interaction, th: Theme)
    requires
        was.wf(),
    ensures
        ({
            let (px, rest) = run_of(clicks, was.hscroll_frac as int, th);
            &&& px * CLICK_ONE + rest == sum_of(clicks) * th.scroll_step + was.hscroll_frac
            &&& -CLICK_ONE < rest < CLICK_ONE
        }),
    decreases clicks.len(),
{
    if clicks.len() > 0 {
        slow_scrolling_loses_nothing(clicks.drop_last(), was, th);
        let (px, rest) = run_of(clicks.drop_last(), was.hscroll_frac as int, th);
        let total = clicks.last() * th.scroll_step + rest;
        let more = whole_px(total);
        assert((px + more) * CLICK_ONE == px * CLICK_ONE + more * CLICK_ONE) by (nonlinear_arith);
        assert((sum_of(clicks.drop_last()) + clicks.last()) * th.scroll_step == sum_of(
            clicks.drop_last(),
        ) * th.scroll_step + clicks.last() * th.scroll_step) by (nonlinear_arith);
    }
}

/// The pointer's shape tells what a press would do: resize arrows stand
/// exactly where a press takes hold of an edge, a border or a gap that can
/// move, and wherever a press is a click on something, the hand is shown.
pub proof fn the_shape_matches_the_press(v: Strip, hit: Hit, mx: i32, my: i32)
    ensures
        cursor_for(v, hit) is EwResize <==> (match press_of(hit) {
            Press::GrabEdge(_) => true,
            Press::GrabBorder(leaf, _) => v.live(leaf) && !v.pinned(v.pos_of(leaf).col as int),
            _ => false,
        }),
        cursor_for(v, hit) is NsResize <==> (match drag_after(None, hit, mx, my) {
            Some(ActiveDrag::Gap(_)) => true,
            _ => false,
        }),
        cursor_for(v, hit) is Pointer <==> (match press_of(hit) {
            Press::Button(_, _) => true,
            Press::CloseWindow(_) => true,
            Press::ShowWindow(_, _) => true,
            Press::Launch(_, _) => true,
            Press::Focus(_) => drag_after(None, hit, mx, my) is Some,
            _ => false,
        }),
{
}

/// Law: only a swipe of three fingers pans the canvas, from its beginning to
/// its end; a swipe that does not pan does nothing here.
pub proof fn three_fingers_pan(
    was: Interaction,
    v: Strip,
    bindings: Seq<Binding>,
    th: Theme,
    s: Seen,
    fingers: u32,
    clicks: i32,
    before: bool,
)
    ensures
        swipe_then(before, SeatEvent::SwipeBegin { fingers }) <==> fingers == 3,
        !swipe_then(before, SeatEvent::SwipeEnd),
        swipe_then(before, SeatEvent::SwipeUpdate { clicks }) == before,
        swipe_then(before, SeatEvent::Motion) == before,
        !was.swipe_pan ==> step_of(
            was,
            v,
            bindings,
            th,
            s,
            SeatEvent::SwipeUpdate { clicks },
        ) is Nothing,
        was.swipe_pan ==> step_of(
            was,
            v,
            bindings,
            th,
            s,
            SeatEvent::SwipeUpdate { clicks },
        ) is Pan,
{
}

/// Law: the canvas pans the way the fingers go, by whole pixels, a wheel
/// click making one scroll step; the fraction of a pixel that is left never
/// reaches one.
pub proof fn panning_goes_the_way_of_the_fingers(was: Interaction, clicks: int, th: Theme)
    ensures
        ({
            let total = clicks * th.scroll_step + was.hscroll_frac;
            let px = panned(was, clicks, th);
            let left = left_over(was, clicks, th);
            &&& px * 0x1_0000 + left == total
            &&& -0x1_0000 < left < 0x1_0000
            &&& total >= 0 ==> px >= 0 && left >= 0
            &&& total <= 0 ==> px <= 0 && left <= 0
        }),
{
    let total = clicks * th.scroll_step + was.hscroll_frac;
    if total < 0 {
        let q = (-total) / 0x1_0000;
        assert(0 <= (-total) - q * 0x1_0000 < 0x1_0000);
    }
}

/// Law: letting go of any button ends every drag; a motion, a key or a
/// scroll never starts one.
pub proof fn letting_go_ends_the_drag(
    was: Interaction,
    s: Seen,
    event: SeatEvent,
    step: SeatStep,
    button: u32,
)
    ensures
        drag_then(was, s, SeatEvent::Button { button, pressed: false }, step) is None,
        was.drag is None && !(event is Button) ==> drag_then(was, s, event, step) is None,
        !(event is Button) && !(event is Motion) ==> drag_then(was, s, event, step) == was.drag,
{
}

/// Law: a client sees pointer motion only while no drag holds it back and
/// the pointer is over a surface; whenever it does not, the compositor's own
/// pointer shape is shown.
pub proof fn motion_is_seen_off_drags(was: Interaction, v: Strip, s: Seen)
    ensures
        motion_of(was, v, s).deliver <==> drag_step(was.drag, s.mx as int, s.my as int) is Free
            && !(s.under is Nothing),
        motion_of(was, v, s).deliver <==> motion_of(was, v, s).cursor is None,
        motion_of(was, v, s).drag == drag_step(was.drag, s.mx as int, s.my as int),
{
}

/// Law: a key reaches the client as the chord rules say, and fires on its
/// press only.
pub proof fn keys_go_by_the_chords(held: bool, hit: Option<Intercepted>)
    ensures
        key_of(held, hit, true).fire == (if held {
            None
        } else {
            hit
        }),
        key_of(held, hit, false).fire is None,
        key_of(held, hit, true).forward <==> !held && hit is None,
        key_of(held, hit, false).forward <==> !held,
{
}

/// Law: the fraction of a pixel that is owed changes only where the canvas
/// pans: a scroll that goes to a client, and every other event, leave it.
pub proof fn only_panning_uses_the_fraction(
    was: Interaction,
    th: Theme,
    event: SeatEvent,
    step: SeatStep,
    clicks: i32,
)
    ensures
        !(event is Axis) && !(event is SwipeUpdate) ==> frac_then(was, th, event, step)
            == was.hscroll_frac,
        event is Axis && step is Axis && !step->Axis_0.pan ==> frac_then(was, th, event, step)
            == was.hscroll_frac,
        !was.swipe_pan ==> frac_then(was, th, SeatEvent::SwipeUpdate { clicks }, step)
            == was.hscroll_frac,
        was.swipe_pan ==> frac_then(was, th, SeatEvent::SwipeUpdate { clicks }, step) + panned(
            was,
            clicks as int,
            th,
        ) * 0x1_0000 == clicks * th.scroll_step + was.hscroll_frac,
{
}

} // verus!
