//! In-flight input interaction: presses, drags, held chords and panning,
//! as one state that input events step.

use crate::geom::{fits_i32, half, half_i32, Rect};
use crate::layout::geometry::GapAt;
use crate::layout::{Layout, NodeId, Pos, Strip};
use crate::pointer::{
    compass_of, cursor_for, first_hit, hover_cursor, hovered_quick,
    live_frame, live_frame_at, quick_compass, quick_hovered_at, region_at, ActiveDrag, BorderDrag,
    BtnKind, CursorShape, EdgeDrag, FloatDrag, Hit, MoveDrag, QuickTile, Region, Side, TaskTile,
    Widgets, MOVE_DRAG_THRESHOLD,
};
use crate::theme::Theme;
use crate::Win;
use vstd::prelude::*;

pub mod laws;

verus! {

/// The left and right pointer buttons.
pub const BTN_LEFT: u32 = 0x110;

pub const BTN_RIGHT: u32 = 0x111;

/// One wheel click, in the fixed-point units scroll amounts come in.
pub const CLICK_ONE: i64 = 0x1_0000;

/// A float on screen: its chrome frame and the client rect inside it.
#[derive(Clone, Copy, PartialEq, Eq, Debug, Structural)]
pub struct FloatFrame {
    pub win: Win,
    pub frame: Rect,
    pub client: Rect,
}

/// What a chrome press asks the compositor to do.
#[derive(Clone, Copy, PartialEq, Eq, Debug, Structural)]
pub enum Press {
    Nothing,
    /// A split-control button was clicked.
    Button(NodeId, BtnKind),
    /// Politely close a window by its tile's badge: its split stays.
    CloseWindow(Win),
    /// Show a window and scroll its split into view.
    ShowWindow(Win, NodeId),
    /// Launch a quick entry, its window aimed at a side of the focused split.
    Launch(usize, Side),
    /// Focus a split by its titlebar or body.
    Focus(NodeId),
    /// Start dragging an outer canvas edge.
    GrabEdge(bool),
    /// Focus a split and start dragging its border.
    GrabBorder(NodeId, bool),
    /// Raise and focus a float; its frame is being dragged.
    RaiseFloat(Win),
}

/// The outcome of a chrome press: what to do, whether an animation must be
/// settled first, and whether the press was consumed.
#[derive(Clone, Copy, PartialEq, Eq, Debug, Structural)]
pub struct PressOutcome {
    pub press: Press,
    pub settle: bool,
    pub consumed: bool,
    /// The keyboard goes back to the layout from a clicked panel.
    pub reclaim: bool,
}

/// What pointer motion does to an active drag.
#[derive(Clone, Copy, PartialEq, Eq, Debug, Structural)]
pub enum DragStep {
    /// No drag consumes the motion.
    Free,
    /// A drag consumes it without effect.
    Hold,
    MoveFloat(Win, i32, i32),
    ResizeEdge(bool, i32),
    ResizeBorder(NodeId, bool, i32),
    /// Give row `idx` of column `col` the first size out of the combined.
    ResizeRows(usize, usize, i32, i32),
}

/// Where a dragged split is dropped.
#[derive(Clone, Copy, PartialEq, Eq, Debug, Structural)]
pub enum MoveDrop {
    /// A new column at a strip position.
    ColumnAt(usize),
    /// A column of its own, before or after a split's column.
    Column(NodeId, bool),
    /// Into a split's stack, above or below it.
    Stack(NodeId, bool),
}

/// What lies under the pointer, as button handling sees it.
#[derive(Clone, Copy, PartialEq, Eq, Debug, Structural)]
pub enum Under {
    /// No client surface at all.
    Nothing,
    Tiled(Win),
    Float(Win),
    Dock(Win),
    /// An unmanaged surface that takes the keyboard on click: an
    /// override-redirect window or a keyboard-focusable layer surface.
    Focusable,
    /// Any other unmanaged surface.
    Unmanaged,
}

/// What a pointer button asks for.
#[derive(Clone, Copy, PartialEq, Eq, Debug, Structural)]
pub enum ButtonStep {
    Nothing,
    /// The release ended a drag; a split being moved drops here.
    Drop(Option<NodeId>),
    DismissNote,
    Chrome(PressOutcome),
    FocusTiled(Win),
    FocusFloat(Win),
    FocusDock(Win),
    /// Hand the keyboard to the surface under the pointer.
    GrantKeyboard,
}

/// The outcome of a pointer button: what to do, and whether the client
/// under the pointer sees the event.
#[derive(Clone, Copy, PartialEq, Eq, Debug, Structural)]
pub struct ButtonOutcome {
    pub step: ButtonStep,
    pub forward: bool,
}

/// What becomes of a key event.
#[derive(Clone, Copy, PartialEq, Eq, Debug, Structural)]
pub enum KeyStep {
    /// The client sees it.
    Forward,
    /// Swallowed: part of a chord's key cycle.
    Swallow,
    /// A chord fires; the client does not see it.
    Fire,
}

/// In-flight input interaction state.
pub struct Interaction {
    pub drag: Option<ActiveDrag>,
    /// The buttons whose press the chrome consumed: their releases must be
    /// swallowed too, so that no client sees half a click.
    pub chrome_presses: Vec<u32>,
    /// Sub-pixel scroll remainder carried between axis events.
    pub hscroll_frac: i64,
    /// A three-finger touchpad swipe is panning the canvas.
    pub swipe_pan: bool,
    /// Keycodes whose press was intercepted for a binding.
    pub held_bound_keys: Vec<u32>,
    /// The quick-launch slot whose compass is up.
    pub quick_hover: Option<usize>,
    /// The window keystrokes land in.
    pub hover_win: Option<Win>,
}

/// The topmost float from `k` on whose frame holds the point; the length if
/// none.
pub open spec fn float_hit(floats: Seq<FloatFrame>, px: int, py: int, k: int) -> int
    decreases floats.len() - k,
{
    if k >= floats.len() {
        floats.len() as int
    } else if floats[k].frame.has(px, py) {
        k
    } else {
        float_hit(floats, px, py, k + 1)
    }
}

/// The topmost float from `k` on whose frame band, not its client, holds the
/// point; the length if none.
pub open spec fn band_hit(floats: Seq<FloatFrame>, px: int, py: int, k: int) -> int
    decreases floats.len() - k,
{
    if k >= floats.len() {
        floats.len() as int
    } else if floats[k].frame.has(px, py) && !floats[k].client.has(px, py) {
        k
    } else {
        band_hit(floats, px, py, k + 1)
    }
}

fn float_at(floats: &Vec<FloatFrame>, mx: i32, my: i32) -> (at: usize)
    ensures
        at == float_hit(floats@, mx as int, my as int, 0),
        at <= floats@.len(),
        at < floats@.len() ==> floats@[at as int].frame.has(mx as int, my as int),
{
    let mut k: usize = 0;
    while k < floats.len()
        invariant
            k <= floats@.len(),
            float_hit(floats@, mx as int, my as int, 0) == float_hit(
                floats@,
                mx as int,
                my as int,
                k as int,
            ),
        decreases floats@.len() - k,
    {
        if floats[k].frame.contains(mx, my) {
            return k;
        }
        k = k + 1;
    }
    k
}

/// The topmost float whose chrome frame band (frame rect minus client rect)
/// holds the point. Frames overlap whatever lies beneath them, so the button
/// handler checks this before surface routing.
pub fn float_frame_at(floats: &Vec<FloatFrame>, mx: i32, my: i32) -> (res: Option<Win>)
    ensures
        res == ({
            let k = band_hit(floats@, mx as int, my as int, 0);
            if k < floats@.len() {
                Some(floats@[k].win)
            } else {
                None
            }
        }),
{
    let mut k: usize = 0;
    while k < floats.len()
        invariant
            k <= floats@.len(),
            band_hit(floats@, mx as int, my as int, 0) == band_hit(
                floats@,
                mx as int,
                my as int,
                k as int,
            ),
        decreases floats@.len() - k,
    {
        if floats[k].frame.contains(mx, my) && !floats[k].client.contains(mx, my) {
            return Some(floats[k].win);
        }
        k = k + 1;
    }
    None
}

/// What a press that resolved to `hit` asks for.
pub open spec fn press_of(hit: Hit) -> Press {
    match hit {
        Hit::Btn(leaf, kind) => Press::Button(leaf, kind),
        Hit::TaskbarClose(win) => Press::CloseWindow(win),
        Hit::TaskbarTile(win, leaf) => Press::ShowWindow(win, leaf),
        Hit::QuickLaunch(slot, side) => Press::Launch(slot, side),
        Hit::Title(leaf) => Press::Focus(leaf),
        Hit::LeafBody(leaf) => Press::Focus(leaf),
        Hit::RowGap(_, _) => Press::Nothing,
        Hit::Edge(left) => Press::GrabEdge(left),
        Hit::Border(leaf, left) => Press::GrabBorder(leaf, left),
        Hit::Miss => Press::Nothing,
    }
}

/// Whether a press is a deliberate move of the focus: on a tile, a titlebar
/// or a split's body. It takes the keyboard back from a clicked panel.
pub open spec fn reclaims(hit: Hit) -> bool {
    match hit {
        Hit::TaskbarTile(_, _) => true,
        Hit::Title(_) => true,
        Hit::LeafBody(_) => true,
        _ => false,
    }
}

/// The drag a press that resolved to `hit` leaves in flight: a tile or
/// titlebar arms a split move, a gap that can move starts its drag, and
/// anything else leaves what was there.
pub open spec fn drag_after(
    was: Option<ActiveDrag>,
    hit: Hit,
    mx: i32,
    my: i32,
) -> Option<ActiveDrag> {
    match hit {
        Hit::TaskbarTile(_, leaf) => Some(
            ActiveDrag::Move(MoveDrag::Armed { leaf, press: (mx, my) }),
        ),
        Hit::Title(leaf) => Some(ActiveDrag::Move(MoveDrag::Armed { leaf, press: (mx, my) })),
        Hit::RowGap(drag, resizable) => if resizable {
            Some(ActiveDrag::Gap(drag))
        } else {
            was
        },
        _ => was,
    }
}

/// The outcome of a chrome press: button 1 on a float's frame moves that
/// float; otherwise an animation is settled and the hit decides, button 3
/// being consumed without effect.
pub open spec fn chrome_press_of(
    floats: Seq<FloatFrame>,
    animating: bool,
    hit: Hit,
    mx: i32,
    my: i32,
    secondary: bool,
) -> PressOutcome {
    let f = float_hit(floats, mx as int, my as int, 0);
    if !secondary && f < floats.len() {
        PressOutcome {
            press: Press::RaiseFloat(floats[f].win),
            settle: false,
            consumed: true,
            reclaim: false,
        }
    } else if secondary {
        PressOutcome {
            press: Press::Nothing,
            settle: animating,
            consumed: true,
            reclaim: false,
        }
    } else {
        PressOutcome {
            press: press_of(hit),
            settle: animating,
            consumed: hit !is Miss,
            reclaim: reclaims(hit),
        }
    }
}

/// The drag in flight after a chrome press.
pub open spec fn chrome_drag_of(
    was: Option<ActiveDrag>,
    floats: Seq<FloatFrame>,
    hit: Hit,
    mx: i32,
    my: i32,
    secondary: bool,
) -> Option<ActiveDrag> {
    let f = float_hit(floats, mx as int, my as int, 0);
    if !secondary && f < floats.len() {
        Some(
            ActiveDrag::Float(
                FloatDrag {
                    win: floats[f].win,
                    dx: (mx - floats[f].client.x) as i32,
                    dy: (my - floats[f].client.y) as i32,
                },
            ),
        )
    } else if secondary {
        was
    } else {
        drag_after(was, hit, mx, my)
    }
}

/// Whether the pointer's offsets into the floats are in range.
pub open spec fn offsets_fit(floats: Seq<FloatFrame>, mx: int, my: int) -> bool {
    forall|i: int|
        0 <= i < floats.len() ==> fits_i32(mx - (#[trigger] floats[i]).client.x) && fits_i32(
            my - floats[i].client.y,
        )
}

/// The drag of an outer edge that spans `start_x` to `start_x + w` on the
/// canvas: it remembers the far end, on screen.
pub open spec fn edge_grab(left: bool, start_x: int, w: int, scroll_x: int) -> Option<ActiveDrag> {
    Some(
        ActiveDrag::Edge(
            EdgeDrag {
                left,
                anchor_x: ((if left {
                    start_x + w
                } else {
                    start_x
                }) - scroll_x) as i32,
            },
        ),
    )
}

/// The drag of a border of `leaf`, whose column spans `geo` on the canvas: it
/// remembers the column's far edge, on screen.
pub open spec fn border_grab(leaf: NodeId, left: bool, geo: Rect, scroll_x: int) -> Option<
    ActiveDrag,
> {
    Some(
        ActiveDrag::Border(
            BorderDrag {
                leaf,
                left,
                anchor_x: ((if left {
                    geo.right()
                } else {
                    geo.x as int
                }) - scroll_x) as i32,
            },
        ),
    )
}

/// Whether the pointer travelled far enough for a press to become a drag.
pub open spec fn travelled(press: (i32, i32), mx: int, my: int) -> bool {
    ||| mx - press.0 >= MOVE_DRAG_THRESHOLD
    ||| press.0 - mx >= MOVE_DRAG_THRESHOLD
    ||| my - press.1 >= MOVE_DRAG_THRESHOLD
    ||| press.1 - my >= MOVE_DRAG_THRESHOLD
}

/// What motion to (`mx`, `my`) does to the drag.
pub open spec fn drag_step(drag: Option<ActiveDrag>, mx: int, my: int) -> DragStep {
    match drag {
        None => DragStep::Free,
        Some(ActiveDrag::Float(d)) => DragStep::MoveFloat(
            d.win,
            (mx - d.dx) as i32,
            (my - d.dy) as i32,
        ),
        Some(ActiveDrag::Edge(d)) => DragStep::ResizeEdge(
            d.left,
            (if d.left {
                d.anchor_x - mx
            } else {
                mx - d.anchor_x
            }) as i32,
        ),
        Some(ActiveDrag::Border(d)) => DragStep::ResizeBorder(
            d.leaf,
            d.left,
            (if d.left {
                d.anchor_x - mx
            } else {
                mx - d.anchor_x
            }) as i32,
        ),
        Some(ActiveDrag::Gap(d)) => if d.combined <= 0 {
            DragStep::Hold
        } else {
            DragStep::ResizeRows(
                d.col,
                d.idx,
                (my - d.start - half(d.gap as int)) as i32,
                d.combined,
            )
        },
        Some(ActiveDrag::Move(MoveDrag::Armed { press, .. })) => if travelled(press, mx, my) {
            DragStep::Hold
        } else {
            DragStep::Free
        },
        Some(ActiveDrag::Move(MoveDrag::Active { .. })) => DragStep::Hold,
    }
}

/// Whether the drag's arithmetic at (`mx`, `my`) is in range.
pub open spec fn drag_fits(drag: Option<ActiveDrag>, mx: int, my: int) -> bool {
    match drag {
        Some(ActiveDrag::Float(d)) => fits_i32(mx - d.dx) && fits_i32(my - d.dy),
        Some(ActiveDrag::Edge(d)) => fits_i32(mx - d.anchor_x) && fits_i32(d.anchor_x - mx),
        Some(ActiveDrag::Border(d)) => fits_i32(mx - d.anchor_x) && fits_i32(d.anchor_x - mx),
        Some(ActiveDrag::Gap(d)) => fits_i32(my - d.start) && fits_i32(
            my - d.start - half(d.gap as int),
        ),
        _ => true,
    }
}

/// The drag after motion to (`mx`, `my`): an armed split move becomes active
/// once it travelled.
pub open spec fn drag_moved(drag: Option<ActiveDrag>, mx: int, my: int) -> Option<ActiveDrag> {
    match drag {
        Some(ActiveDrag::Move(MoveDrag::Armed { leaf, press })) => if travelled(press, mx, my) {
            Some(ActiveDrag::Move(MoveDrag::Active { leaf }))
        } else {
            drag
        },
        _ => drag,
    }
}

/// The outcome of a pointer button.
pub open spec fn button_of(
    was: Interaction,
    v: Strip,
    button: u32,
    pressed: bool,
    grabbed: bool,
    note_here: bool,
    under: Under,
    floats: Seq<FloatFrame>,
    animating: bool,
    hit: Hit,
    mx: i32,
    my: i32,
) -> ButtonOutcome {
    if !pressed {
        ButtonOutcome { step: ButtonStep::Drop(dropped(was.drag, v)), forward: !was.swallowed().contains(button) }
    } else if grabbed {
        ButtonOutcome { step: ButtonStep::Nothing, forward: true }
    } else if note_here {
        ButtonOutcome { step: ButtonStep::DismissNote, forward: false }
    } else if button == BTN_LEFT && band_hit(floats, mx as int, my as int, 0) < floats.len() {
        ButtonOutcome {
            step: ButtonStep::Chrome(chrome_press_of(floats, animating, hit, mx, my, false)),
            forward: false,
        }
    } else {
        match under {
            Under::Tiled(w) => ButtonOutcome {
                step: if button == BTN_LEFT {
                    ButtonStep::FocusTiled(w)
                } else {
                    ButtonStep::Nothing
                },
                forward: true,
            },
            Under::Float(w) => ButtonOutcome {
                step: if button == BTN_LEFT {
                    ButtonStep::FocusFloat(w)
                } else {
                    ButtonStep::Nothing
                },
                forward: true,
            },
            Under::Dock(w) => ButtonOutcome {
                step: if button == BTN_LEFT {
                    ButtonStep::FocusDock(w)
                } else {
                    ButtonStep::Nothing
                },
                forward: true,
            },
            Under::Nothing => if button == BTN_LEFT || button == BTN_RIGHT {
                let o = chrome_press_of(floats, animating, hit, mx, my, button == BTN_RIGHT);
                ButtonOutcome { step: ButtonStep::Chrome(o), forward: !o.consumed }
            } else {
                ButtonOutcome { step: ButtonStep::Nothing, forward: true }
            },
            Under::Focusable => ButtonOutcome { step: ButtonStep::GrantKeyboard, forward: true },
            Under::Unmanaged => ButtonOutcome { step: ButtonStep::Nothing, forward: true },
        }
    }
}

/// The split a released drag drops: the one being moved, if it still lives.
pub open spec fn dropped(drag: Option<ActiveDrag>, v: Strip) -> Option<NodeId> {
    match drag {
        Some(ActiveDrag::Move(MoveDrag::Active { leaf })) => if v.live(leaf) {
            Some(leaf)
        } else {
            None
        },
        _ => None,
    }
}

/// What becomes of a key event while the keys in `held` belong to chords.
pub open spec fn key_step(held: Set<u32>, raw: u32, pressed: bool, bound: bool) -> KeyStep {
    if held.contains(raw) {
        KeyStep::Swallow
    } else if pressed && bound {
        KeyStep::Fire
    } else {
        KeyStep::Forward
    }
}

/// The keys that belong to chords after a key event.
pub open spec fn held_then(held: Set<u32>, raw: u32, pressed: bool, bound: bool) -> Set<u32> {
    if !pressed {
        held.remove(raw)
    } else if bound {
        held.insert(raw)
    } else {
        held
    }
}

/// The whole pixels in a fixed-point amount, rounded towards zero.
pub open spec fn whole_px(total: int) -> int {
    if total >= 0 {
        total / CLICK_ONE as int
    } else {
        -((-total) / CLICK_ONE as int)
    }
}

/// Where `x` stands among `keys`; the length if nowhere.
fn place_in(keys: &Vec<u32>, x: u32) -> (at: usize)
    ensures
        at <= keys@.len(),
        at < keys@.len() ==> keys@[at as int] == x,
        (at < keys@.len()) == keys@.to_set().contains(x),
{
    let n: usize = keys.len();
    let mut at: usize = 0;
    while at < n && keys[at] != x
        invariant
            at <= n,
            n == keys@.len(),
            forall|j: int| 0 <= j < at ==> keys@[j] != x,
        decreases n - at,
    {
        at = at + 1;
    }
    proof {
        if at < n {
            assert(keys@[at as int] == x);
        }
    }
    at
}

/// Record that `x` is among `keys`, or that it is not; whether it was.
fn recorded(keys: &mut Vec<u32>, x: u32, there: bool) -> (was: bool)
    requires
        old(keys)@.no_duplicates(),
    ensures
        was == old(keys)@.to_set().contains(x),
        final(keys)@.no_duplicates(),
        final(keys)@.to_set() == (if there {
            old(keys)@.to_set().insert(x)
        } else {
            old(keys)@.to_set().remove(x)
        }),
{
    let ghost before = keys@;
    let at = place_in(keys, x);
    if at < keys.len() {
        if there {
            assert(before.to_set().insert(x) =~= before.to_set());
        } else {
            keys.swap_remove(at);
            proof {
                lemma_swap_remove_set(before, at as int, keys@);
            }
        }
        true
    } else {
        if there {
            keys.push(x);
            proof {
                lemma_push_set(before, x);
            }
        } else {
            assert(before.to_set().remove(x) =~= before.to_set());
        }
        false
    }
}

impl Interaction {
    /// No key and no button is recorded twice.
    pub open spec fn wf(self) -> bool {
        &&& self.held_bound_keys@.no_duplicates()
        &&& self.chrome_presses@.no_duplicates()
        &&& -CLICK_ONE < self.hscroll_frac < CLICK_ONE
    }

    /// The keys whose cycle a chord owns.
    pub open spec fn held(self) -> Set<u32> {
        self.held_bound_keys@.to_set()
    }

    /// The buttons whose release no client sees.
    pub open spec fn swallowed(self) -> Set<u32> {
        self.chrome_presses@.to_set()
    }

    /// Nothing in flight.
    pub fn new() -> (s: Interaction)
        ensures
            s.wf(),
            s.drag is None,
            s.chrome_presses@ == Seq::<u32>::empty(),
            s.hscroll_frac == 0,
            !s.swipe_pan,
            s.held_bound_keys@ == Seq::<u32>::empty(),
            s.quick_hover is None,
            s.hover_win is None,
    {
        Interaction {
            drag: None,
            chrome_presses: Vec::new(),
            hscroll_frac: 0,
            swipe_pan: false,
            held_bound_keys: Vec::new(),
            quick_hover: None,
            hover_win: None,
        }
    }

    /// A button-1 or button-3 press that landed on the chrome.
    pub fn on_chrome_button(
        &mut self,
        floats: &Vec<FloatFrame>,
        animating: bool,
        hit: Hit,
        mx: i32,
        my: i32,
        secondary: bool,
    ) -> (outcome: PressOutcome)
        requires
            offsets_fit(floats@, mx as int, my as int),
        ensures
            outcome == chrome_press_of(floats@, animating, hit, mx, my, secondary),
            final(self).drag == chrome_drag_of(old(self).drag, floats@, hit, mx, my, secondary),
            *final(self) == (Interaction { drag: final(self).drag, ..*old(self) }),
    {
        if !secondary {
            let f: usize = float_at(floats, mx, my);
            if f < floats.len() {
                let fl = floats[f];
                self.drag = Some(
                    ActiveDrag::Float(
                        FloatDrag { win: fl.win, dx: mx - fl.client.x, dy: my - fl.client.y },
                    ),
                );
                return PressOutcome {
                    press: Press::RaiseFloat(fl.win),
                    settle: false,
                    consumed: true,
                    reclaim: false,
                };
            }
        }
        if secondary {
            return PressOutcome {
                press: Press::Nothing,
                settle: animating,
                consumed: true,
                reclaim: false,
            };
        }
        let (press, consumed) = match hit {
            Hit::Btn(leaf, kind) => (Press::Button(leaf, kind), true),
            Hit::TaskbarClose(win) => (Press::CloseWindow(win), true),
            Hit::TaskbarTile(win, leaf) => {
                self.drag = Some(ActiveDrag::Move(MoveDrag::Armed { leaf, press: (mx, my) }));
                (Press::ShowWindow(win, leaf), true)
            },
            Hit::QuickLaunch(slot, side) => (Press::Launch(slot, side), true),
            Hit::Title(leaf) => {
                self.drag = Some(ActiveDrag::Move(MoveDrag::Armed { leaf, press: (mx, my) }));
                (Press::Focus(leaf), true)
            },
            Hit::LeafBody(leaf) => (Press::Focus(leaf), true),
            Hit::RowGap(drag, resizable) => {
                if resizable {
                    self.drag = Some(ActiveDrag::Gap(drag));
                }
                (Press::Nothing, true)
            },
            Hit::Edge(left) => (Press::GrabEdge(left), true),
            Hit::Border(leaf, left) => (Press::GrabBorder(leaf, left), true),
            Hit::Miss => (Press::Nothing, false)};
        let reclaim = match hit {
            Hit::TaskbarTile(_, _) => true,
            Hit::Title(_) => true,
            Hit::LeafBody(_) => true,
            _ => false,
        };
        PressOutcome { press, settle: animating, consumed, reclaim }
    }

    /// The outer edge that was grabbed spans `start_x` to `start_x + w` on
    /// the canvas: its far end, on screen, stays put while it is dragged.
    pub fn grab_edge(&mut self, left: bool, start_x: i32, w: i32, scroll_x: i32)
        requires
            fits_i32(start_x + w),
            fits_i32(start_x - scroll_x),
            fits_i32(start_x + w - scroll_x),
        ensures
            *final(self) == (Interaction {
                drag: edge_grab(left, start_x as int, w as int, scroll_x as int),
                ..*old(self)
            }),
    {
        let anchor: i32 = if left {
            start_x + w
        } else {
            start_x
        };
        self.drag = Some(ActiveDrag::Edge(EdgeDrag { left, anchor_x: anchor - scroll_x }));
    }

    /// The border of `leaf`, whose column spans `geo` on the canvas, was
    /// grabbed: the column's far edge stays put while it is dragged.
    pub fn grab_border(&mut self, leaf: NodeId, left: bool, geo: Rect, scroll_x: i32)
        requires
            fits_i32(geo.right()),
            fits_i32(geo.x - scroll_x),
            fits_i32(geo.right() - scroll_x),
        ensures
            *final(self) == (Interaction {
                drag: border_grab(leaf, left, geo, scroll_x as int),
                ..*old(self)
            }),
    {
        let anchor: i32 = if left {
            geo.x + geo.w
        } else {
            geo.x
        };
        self.drag = Some(
            ActiveDrag::Border(BorderDrag { leaf, left, anchor_x: anchor - scroll_x }),
        );
    }

    /// Feed pointer motion into an active drag. Anything but `Free` means
    /// that the client under the pointer must not also see the motion.
    pub fn on_drag_motion(&mut self, mx: i32, my: i32) -> (step: DragStep)
        requires
            drag_fits(old(self).drag, mx as int, my as int),
        ensures
            step == drag_step(old(self).drag, mx as int, my as int),
            *final(self) == (Interaction {
                drag: drag_moved(old(self).drag, mx as int, my as int),
                ..*old(self)
            }),
    {
        match self.drag {
            None => DragStep::Free,
            Some(ActiveDrag::Float(d)) => DragStep::MoveFloat(d.win, mx - d.dx, my - d.dy),
            Some(ActiveDrag::Edge(d)) => {
                let w: i32 = if d.left {
                    d.anchor_x - mx
                } else {
                    mx - d.anchor_x
                };
                DragStep::ResizeEdge(d.left, w)
            },
            Some(ActiveDrag::Border(d)) => {
                let w: i32 = if d.left {
                    d.anchor_x - mx
                } else {
                    mx - d.anchor_x
                };
                DragStep::ResizeBorder(d.leaf, d.left, w)
            },
            Some(ActiveDrag::Gap(d)) => {
                if d.combined <= 0 {
                    DragStep::Hold
                } else {
                    DragStep::ResizeRows(
                        d.col,
                        d.idx,
                        my - d.start - half_i32(d.gap),
                        d.combined,
                    )
                }
            },
            Some(ActiveDrag::Move(MoveDrag::Armed { leaf, press })) => {
                let dx: i64 = mx as i64 - press.0 as i64;
                let dy: i64 = my as i64 - press.1 as i64;
                let t: i64 = MOVE_DRAG_THRESHOLD as i64;
                if dx >= t || -dx >= t || dy >= t || -dy >= t {
                    self.drag = Some(ActiveDrag::Move(MoveDrag::Active { leaf }));
                    DragStep::Hold
                } else {
                    DragStep::Free
                }
            },
            Some(ActiveDrag::Move(MoveDrag::Active { .. })) => DragStep::Hold,
        }
    }

    /// Button release: every drag ends. Returns the split an active move
    /// drops.
    pub fn end_drag(&mut self, layout: &Layout) -> (leaf: Option<NodeId>)
        requires
            layout@.wf(),
        ensures
            leaf == dropped(old(self).drag, layout@),
            *final(self) == (Interaction { drag: None, ..*old(self) }),
    {
        let drag = self.drag;
        self.drag = None;
        match drag {
            Some(ActiveDrag::Move(MoveDrag::Active { leaf })) => {
                if layout.is_leaf(leaf) {
                    Some(leaf)
                } else {
                    None
                }
            },
            _ => None,
        }
    }

    /// A layout-mutating action happened: a drag's snapshot of the layout
    /// went stale.
    pub fn layout_changed(&mut self)
        ensures
            *final(self) == (Interaction { drag: None, ..*old(self) }),
    {
        self.drag = None;
    }

    /// A pointer button at the pointer position: notification bubbles, float
    /// frames, click-to-focus, chrome, and forwarding, in that order.
    pub fn pointer_button(
        &mut self,
        layout: &Layout,
        button: u32,
        pressed: bool,
        grabbed: bool,
        note_here: bool,
        under: Under,
        floats: &Vec<FloatFrame>,
        animating: bool,
        hit: Hit,
        mx: i32,
        my: i32,
    ) -> (outcome: ButtonOutcome)
        requires
            old(self).wf(),
            layout@.wf(),
            offsets_fit(floats@, mx as int, my as int),
        ensures
            final(self).wf(),
            outcome == button_of(
                *old(self),
                layout@,
                button,
                pressed,
                grabbed,
                note_here,
                under,
                floats@,
                animating,
                hit,
                mx,
                my,
            ),
            final(self).swallowed() == (if pressed && !outcome.forward {
                old(self).swallowed().insert(button)
            } else {
                old(self).swallowed().remove(button)
            }),
            final(self).drag == (if !pressed {
                None
            } else {
                match outcome.step {
                    ButtonStep::Chrome(_) => chrome_drag_of(
                        old(self).drag,
                        floats@,
                        hit,
                        mx,
                        my,
                        button == BTN_RIGHT,
                    ),
                    _ => old(self).drag,
                }
            }),
            *final(self) == (Interaction {
                drag: final(self).drag,
                chrome_presses: final(self).chrome_presses,
                ..*old(self)
            }),
    {
        if !pressed {
            let leaf = self.end_drag(layout);
            let swallowed = recorded(&mut self.chrome_presses, button, false);
            return ButtonOutcome { step: ButtonStep::Drop(leaf), forward: !swallowed };
        }
        let outcome = self.press_outcome(
            button,
            grabbed,
            note_here,
            under,
            floats,
            animating,
            hit,
            mx,
            my,
        );
        let _was = recorded(&mut self.chrome_presses, button, !outcome.forward);
        outcome
    }

    /// What a press comes to, with the drag it starts.
    fn press_outcome(
        &mut self,
        button: u32,
        grabbed: bool,
        note_here: bool,
        under: Under,
        floats: &Vec<FloatFrame>,
        animating: bool,
        hit: Hit,
        mx: i32,
        my: i32,
    ) -> (outcome: ButtonOutcome)
        requires
            offsets_fit(floats@, mx as int, my as int),
        ensures
            forall|v: Strip|
                outcome == #[trigger] button_of(
                    *old(self),
                    v,
                    button,
                    true,
                    grabbed,
                    note_here,
                    under,
                    floats@,
                    animating,
                    hit,
                    mx,
                    my,
                ),
            final(self).drag == (match outcome.step {
                ButtonStep::Chrome(_) => chrome_drag_of(
                    old(self).drag,
                    floats@,
                    hit,
                    mx,
                    my,
                    button == BTN_RIGHT,
                ),
                _ => old(self).drag,
            }),
            *final(self) == (Interaction { drag: final(self).drag, ..*old(self) }),
    {
        if grabbed {
            return ButtonOutcome { step: ButtonStep::Nothing, forward: true };
        }
        if note_here {
            return ButtonOutcome { step: ButtonStep::DismissNote, forward: false };
        }
        if button == BTN_LEFT && float_frame_at(floats, mx, my).is_some() {
            let o = self.on_chrome_button(floats, animating, hit, mx, my, false);
            return ButtonOutcome { step: ButtonStep::Chrome(o), forward: false };
        }
        let left = button == BTN_LEFT;
        match under {
            Under::Tiled(w) => ButtonOutcome {
                step: if left {
                    ButtonStep::FocusTiled(w)
                } else {
                    ButtonStep::Nothing
                },
                forward: true,
            },
            Under::Float(w) => ButtonOutcome {
                step: if left {
                    ButtonStep::FocusFloat(w)
                } else {
                    ButtonStep::Nothing
                },
                forward: true,
            },
            Under::Dock(w) => ButtonOutcome {
                step: if left {
                    ButtonStep::FocusDock(w)
                } else {
                    ButtonStep::Nothing
                },
                forward: true,
            },
            Under::Nothing => {
                if left || button == BTN_RIGHT {
                    let o = self.on_chrome_button(
                        floats,
                        animating,
                        hit,
                        mx,
                        my,
                        button == BTN_RIGHT,
                    );
                    ButtonOutcome { step: ButtonStep::Chrome(o), forward: !o.consumed }
                } else {
                    ButtonOutcome { step: ButtonStep::Nothing, forward: true }
                }
            },
            Under::Focusable => ButtonOutcome { step: ButtonStep::GrantKeyboard, forward: true },
            Under::Unmanaged => ButtonOutcome { step: ButtonStep::Nothing, forward: true },
        }
    }

    /// A key event. A press that `bound` says a chord owns fires once; its
    /// auto-repeats and its release are swallowed, so clients never see half
    /// a press.
    pub fn on_key(&mut self, raw: u32, pressed: bool, bound: bool) -> (step: KeyStep)
        requires
            old(self).wf(),
        ensures
            final(self).wf(),
            step == key_step(old(self).held(), raw, pressed, bound),
            final(self).held() == held_then(old(self).held(), raw, pressed, bound),
            *final(self) == (Interaction {
                held_bound_keys: final(self).held_bound_keys,
                ..*old(self)
            }),
    {
        if pressed {
            if place_in(&self.held_bound_keys, raw) < self.held_bound_keys.len() {
                proof {
                    assert(self.held().insert(raw) =~= self.held());
                }
                return KeyStep::Swallow;
            }
            if !bound {
                return KeyStep::Forward;
            }
            let _was = recorded(&mut self.held_bound_keys, raw, true);
            KeyStep::Fire
        } else if recorded(&mut self.held_bound_keys, raw, false) {
            KeyStep::Swallow
        } else {
            KeyStep::Forward
        }
    }

    /// The session was suspended and resumed: releases of held chords were
    /// lost, so nothing counts as held any more.
    pub fn release_all_keys(&mut self)
        requires
            old(self).wf(),
        ensures
            final(self).wf(),
            final(self).held_bound_keys@ == Seq::<u32>::empty(),
            *final(self) == (Interaction {
                held_bound_keys: final(self).held_bound_keys,
                ..*old(self)
            }),
    {
        self.held_bound_keys.clear();
    }

    /// A swipe gesture began: three fingers pan the canvas.
    pub fn swipe_begin(&mut self, fingers: u32)
        ensures
            *final(self) == (Interaction { swipe_pan: fingers == 3, ..*old(self) }),
    {
        self.swipe_pan = fingers == 3;
    }

    /// A swipe gesture ended.
    pub fn swipe_end(&mut self)
        ensures
            *final(self) == (Interaction { swipe_pan: false, ..*old(self) }),
    {
        self.swipe_pan = false;
    }

    /// Accumulated horizontal scroll, in fractions of a wheel click, pans
    /// the canvas by whole pixels. The sub-pixel remainder is carried to the
    /// next event: a slow swipe can deliver less than a pixel per event.
    pub fn apply_hscroll(&mut self, delta: i32, th: &Theme) -> (px: i32)
        requires
            old(self).wf(),
            th.wf(),
            fits_i32(whole_px(delta * th.scroll_step + old(self).hscroll_frac)),
        ensures
            final(self).wf(),
            px == whole_px(delta * th.scroll_step + old(self).hscroll_frac),
            px * CLICK_ONE + final(self).hscroll_frac == delta * th.scroll_step + old(
                self,
            ).hscroll_frac,
            delta * th.scroll_step + old(self).hscroll_frac >= 0 ==> px >= 0
                && final(self).hscroll_frac >= 0,
            delta * th.scroll_step + old(self).hscroll_frac <= 0 ==> px <= 0
                && final(self).hscroll_frac <= 0,
            *final(self) == (Interaction {
                hscroll_frac: final(self).hscroll_frac,
                ..*old(self)
            }),
    {
        let step: i64 = th.scroll_step as i64;
        proof {
            assert(-0x8000_0000_0000_0000 <= delta * step - 0x10000 && delta * step + 0x10000
                <= 0x7fff_ffff_ffff_ffff) by (nonlinear_arith)
                requires
                    -0x8000_0000 <= delta <= 0x7fff_ffff,
                    0 <= step <= 0x10_0000,
            ;
        }
        let total: i64 = (delta as i64) * step + self.hscroll_frac;
        let px: i64;
        if total >= 0 {
            px = total / CLICK_ONE;
        } else {
            px = -((-total) / CLICK_ONE);
        }
        self.hscroll_frac = total - px * CLICK_ONE;
        px as i32
    }

    /// Re-aim the compass at the pointer: it appears as soon as the pointer
    /// is over a quick-launch icon's hover rect, stays while the pointer
    /// roams that icon's own compass, and is handed straight over when a
    /// neighbouring icon's rect is entered.
    pub fn update_quick_hover(&mut self, tiles: &Vec<QuickTile>, mx: i32, my: i32)
        ensures
            *final(self) == (Interaction {
                quick_hover: quick_hover_of(tiles@, old(self).quick_hover, mx as int, my as int),
                ..*old(self)
            }),
    {
        let k: usize = quick_hovered_at(tiles, mx, my);
        if k < tiles.len() {
            self.quick_hover = Some(tiles[k].slot);
            return;
        }
        self.quick_hover = match quick_compass(tiles, self.quick_hover) {
            Some(c) => if c.compass.contains(mx, my) {
                Some(c.slot)
            } else {
                None
            },
            None => None};
    }

    /// The pointer shape while no client surface is under the pointer: a
    /// drag's own shape wherever the pointer strays, hover feedback
    /// otherwise. An armed press that has not moved still reads as a click.
    pub fn drag_cursor(&self, layout: &Layout, over_float_frame: bool, hit: Hit) -> (shape:
        CursorShape)
        requires
            layout@.wf(),
        ensures
            shape == shape_of(self.drag, layout@, over_float_frame, hit),
    {
        match self.drag {
            Some(ActiveDrag::Gap(_)) => CursorShape::NsResize,
            Some(ActiveDrag::Edge(_)) => CursorShape::EwResize,
            Some(ActiveDrag::Border(_)) => CursorShape::EwResize,
            Some(ActiveDrag::Float(_)) => CursorShape::Pointer,
            Some(ActiveDrag::Move(MoveDrag::Active { .. })) => CursorShape::Grabbing,
            Some(ActiveDrag::Move(MoveDrag::Armed { .. })) => hover_cursor(
                layout,
                over_float_frame,
                hit,
            ),
            None => hover_cursor(layout, over_float_frame, hit),
        }
    }
}

proof fn lemma_push_set(s: Seq<u32>, x: u32)
    requires
        s.no_duplicates(),
        !s.to_set().contains(x),
    ensures
        s.push(x).no_duplicates(),
        s.push(x).to_set() == s.to_set().insert(x),
{
    assert forall|y: u32| s.push(x).to_set().contains(y) <==> s.to_set().insert(x).contains(y) by {
        if s.push(x).contains(y) {
            let i = choose|i: int| 0 <= i < s.push(x).len() && s.push(x)[i] == y;
            if i < s.len() {
                assert(s[i] == y);
            }
        }
        if s.contains(y) {
            let i = choose|i: int| 0 <= i < s.len() && s[i] == y;
            assert(s.push(x)[i] == y);
        }
        assert(s.push(x)[s.len() as int] == x);
    }
    assert(s.push(x).to_set() =~= s.to_set().insert(x));
}

proof fn lemma_swap_remove_set(s: Seq<u32>, at: int, n: Seq<u32>)
    requires
        s.no_duplicates(),
        0 <= at < s.len(),
        n == s.update(at, s.last()).drop_last(),
    ensures
        n.no_duplicates(),
        n.to_set() == s.to_set().remove(s[at]),
{
    assert forall|i: int| 0 <= i < n.len() implies #[trigger] n[i] == (if i == at {
        s.last()
    } else {
        s[i]
    }) by {}
    assert forall|y: u32| n.to_set().contains(y) <==> s.to_set().remove(s[at]).contains(y) by {
        if n.contains(y) {
            let i = choose|i: int| 0 <= i < n.len() && n[i] == y;
            if i == at {
                assert(s[s.len() - 1] == y);
            } else {
                assert(s[i] == y);
            }
        }
        if s.contains(y) && y != s[at] {
            let i = choose|i: int| 0 <= i < s.len() && s[i] == y;
            if i == s.len() - 1 {
                assert(n[at] == y);
            } else {
                assert(n[i] == y);
            }
        }
    }
    assert(n.to_set() =~= s.to_set().remove(s[at]));
}

/// The quick-launch slot whose compass is up once the pointer is at
/// (`mx`, `my`).
pub open spec fn quick_hover_of(
    tiles: Seq<QuickTile>,
    was: Option<usize>,
    mx: int,
    my: int,
) -> Option<usize> {
    let entered = hovered_quick(tiles, mx, my, 0);
    match compass_of(tiles, was) {
        _ if entered < tiles.len() => Some(tiles[entered].slot),
        Some(c) => if c.compass.has(mx, my) {
            Some(c.slot)
        } else {
            None
        },
        None => None,
    }
}

/// The pointer shape while `drag` is in flight and no client surface is under
/// the pointer.
pub open spec fn shape_of(
    drag: Option<ActiveDrag>,
    v: Strip,
    over_float_frame: bool,
    hit: Hit,
) -> CursorShape {
    match drag {
        Some(ActiveDrag::Gap(_)) => CursorShape::NsResize,
        Some(ActiveDrag::Edge(_)) => CursorShape::EwResize,
        Some(ActiveDrag::Border(_)) => CursorShape::EwResize,
        Some(ActiveDrag::Float(_)) => CursorShape::Pointer,
        Some(ActiveDrag::Move(MoveDrag::Active { .. })) => CursorShape::Grabbing,
        _ => if over_float_frame {
            CursorShape::Pointer
        } else {
            cursor_for(v, hit)
        },
    }
}

/// Where a split-move drop at (`mx`, `my`) lands.
pub open spec fn drop_of(
    w: Widgets,
    v: Strip,
    placed: Seq<Region<NodeId>>,
    output_h: int,
    taskbar_h: int,
    margin: Option<MoveDrop>,
    mx: int,
    my: int,
) -> Option<MoveDrop> {
    let h = first_hit(w.handle_regions@, mx, my, 0);
    let p = first_hit(placed, mx, my, 0);
    if h < w.handle_regions@.len() {
        match w.handle_regions@[h].item.at {
            GapAt::Col(idx) => Some(MoveDrop::ColumnAt((idx + 1) as usize)),
            GapAt::Row { col, idx } => {
                let at = Pos { col, row: idx };
                if v.has(at) {
                    Some(MoveDrop::Stack(v.row(at).id, false))
                } else {
                    None
                }
            },
        }
    } else if my >= output_h - taskbar_h {
        bar_drop(w.taskbar_regions@, w.taskbar_sep, mx)
    } else if p < placed.len() {
        Some(
            MoveDrop::Column(
                placed[p].item,
                mx < placed[p].rect.x + half(placed[p].rect.w as int),
            ),
        )
    } else {
        margin
    }
}

/// The first tile from `k` on whose centre lies right of `mx`; the length if
/// none.
pub open spec fn tile_right_of(tiles: Seq<TaskTile>, mx: int, k: int) -> int
    decreases tiles.len() - k,
{
    if k >= tiles.len() {
        tiles.len() as int
    } else if mx < tiles[k].rect.x + half(tiles[k].rect.w as int) {
        k
    } else {
        tile_right_of(tiles, mx, k + 1)
    }
}

/// A drop over the taskbar re-slots by tile centres: before the first tile
/// whose centre lies right of the pointer, after the last one otherwise. The
/// quick-launch icons past the separator take no drop.
pub open spec fn bar_drop(tiles: Seq<TaskTile>, sep: Option<Rect>, mx: int) -> Option<MoveDrop> {
    let k = tile_right_of(tiles, mx, 0);
    let past = match sep {
        Some(s) => mx >= s.x,
        None => mx >= i32::MAX};
    if past {
        None
    } else if k < tiles.len() {
        Some(MoveDrop::Column(tiles[k].leaf, true))
    } else if tiles.len() > 0 {
        Some(MoveDrop::Column(tiles[tiles.len() - 1].leaf, false))
    } else {
        None
    }
}

/// Where a split-move drop lands, by what is under the pointer: a gap adopts
/// the gap's own orientation, the taskbar re-slots by tile centres, a split
/// frame places it before or after the target's column, and `margin` is what
/// bare wallpaper means.
pub fn move_drop_target(
    w: &Widgets,
    layout: &Layout,
    placed: &Vec<Region<NodeId>>,
    output_h: i32,
    th: &Theme,
    margin: Option<MoveDrop>,
    mx: i32,
    my: i32,
) -> (drop: Option<MoveDrop>)
    requires
        th.wf(),
        forall|i: int|
            0 <= i < w.handle_regions@.len() ==> match (#[trigger] w.handle_regions@[i]).item.at {
                GapAt::Col(idx) => idx < usize::MAX,
                GapAt::Row { .. } => true,
            },
    ensures
        drop == drop_of(
            *w,
            layout@,
            placed@,
            output_h as int,
            th.taskbar_h as int,
            margin,
            mx as int,
            my as int,
        ),
{
    let h: usize = region_at(&w.handle_regions, mx, my);
    if h < w.handle_regions.len() {
        return match w.handle_regions[h].item.at {
            GapAt::Col(idx) => Some(MoveDrop::ColumnAt(idx + 1)),
            GapAt::Row { col, idx } => match layout.leaf_at(Pos { col, row: idx }) {
                Some(dst) => Some(MoveDrop::Stack(dst, false)),
                None => None,
            }};
    }
    if my as i64 >= output_h as i64 - th.taskbar_h as i64 {
        let strip_end: i32 = match w.taskbar_sep {
            Some(s) => s.x,
            None => i32::MAX};
        let tiles = &w.taskbar_regions;
        let mut k: usize = 0;
        while k < tiles.len() && mx as i64 >= tiles[k].rect.x as i64 + half_i32(
            tiles[k].rect.w,
        ) as i64
            invariant
                k <= tiles@.len(),
                tile_right_of(tiles@, mx as int, 0) == tile_right_of(tiles@, mx as int, k as int),
            decreases tiles@.len() - k,
        {
            k = k + 1;
        }
        if mx >= strip_end {
            return None;
        }
        if k < tiles.len() {
            return Some(MoveDrop::Column(tiles[k].leaf, true));
        }
        if tiles.len() > 0 {
            return Some(MoveDrop::Column(tiles[tiles.len() - 1].leaf, false));
        }
        return None;
    }
    let p: usize = region_at(placed, mx, my);
    if p < placed.len() {
        let r = placed[p].rect;
        let before = (mx as i64) < r.x as i64 + half_i32(r.w) as i64;
        return Some(MoveDrop::Column(placed[p].item, before));
    }
    margin
}

/// What the surface under the pointer says about keyboard delivery.
#[derive(Clone, Copy, PartialEq, Eq, Debug, Structural)]
pub enum HoverSurface {
    /// No surface.
    Nothing,
    /// A tiled window, its popups included.
    Tiled(Win),
    /// Another managed window: a float or the dock.
    Managed,
    /// An override-redirect X11 window.
    OverrideRedirect,
    /// Any other surface.
    Other,
}

/// The tiled window keystrokes land in for the pointer position.
pub open spec fn hover_target_of(
    v: Strip,
    frames: Seq<Region<NodeId>>,
    fullscreen: Option<Win>,
    over_float_frame: bool,
    under: HoverSurface,
    hover_win: Option<Win>,
    focused_frame: Option<Rect>,
    focused_client: Option<Win>,
    mx: int,
    my: int,
) -> Option<Win> {
    let f = live_frame(v, frames, mx, my, 0);
    if fullscreen is Some {
        fullscreen
    } else if over_float_frame || under is Managed || under is Other {
        None
    } else if under is OverrideRedirect {
        hover_win
    } else if focused_frame is Some && focused_client is Some && focused_frame->0.x <= mx
        < focused_frame->0.right() {
        focused_client
    } else if under is Tiled {
        Some(under->Tiled_0)
    } else if f < frames.len() {
        let leaf = v.leaf_of(frames[f].item);
        if leaf.minimized {
            None
        } else {
            leaf.client
        }
    } else {
        None
    }
}

/// The tiled window keystrokes land in: keyboard delivery follows the mouse.
/// Within the focused column's horizontal span the focused window wins; a
/// fullscreen client is hovered wherever the pointer is; floats, the dock
/// and layer surfaces are opaque to hover; over an override-redirect window
/// the keyboard holds still; a minimized split takes nothing.
pub fn hover_target(
    layout: &Layout,
    frames: &Vec<Region<NodeId>>,
    fullscreen: Option<Win>,
    over_float_frame: bool,
    under: HoverSurface,
    hover_win: Option<Win>,
    focused_frame: Option<Rect>,
    focused_client: Option<Win>,
    mx: i32,
    my: i32,
) -> (res: Option<Win>)
    requires
        layout@.wf(),
    ensures
        res == hover_target_of(
            layout@,
            frames@,
            fullscreen,
            over_float_frame,
            under,
            hover_win,
            focused_frame,
            focused_client,
            mx as int,
            my as int,
        ),
{
    if fullscreen.is_some() {
        return fullscreen;
    }
    if over_float_frame {
        return None;
    }
    let direct = match under {
        HoverSurface::Nothing => None,
        HoverSurface::Tiled(w) => Some(w),
        HoverSurface::Managed => {
            return None;
        },
        HoverSurface::OverrideRedirect => {
            return hover_win;
        },
        HoverSurface::Other => {
            return None;
        }};
    if let (Some(frame), Some(_)) = (focused_frame, focused_client) {
        if frame.x <= mx && (mx as i64) < frame.x as i64 + frame.w as i64 {
            return focused_client;
        }
    }
    if direct.is_some() {
        return direct;
    }
    let f: usize = live_frame_at(layout, frames, mx, my);
    if f < frames.len() {
        return match layout.leaf(frames[f].item) {
            Some(leaf) => if leaf.minimized {
                None
            } else {
                leaf.client
            },
            None => None};
    }
    None
}

/// Whether a swipe pans the canvas: always over the chrome, only with the
/// logo key held over a client window.
pub fn hscroll_allowed(over_client: bool, logo: bool) -> (b: bool)
    ensures
        b == (!over_client || logo),
{
    !over_client || logo
}

/// What an axis event delivers: whether it pans the canvas, and which parts
/// reach the client.
#[derive(Clone, Copy, PartialEq, Eq, Debug, Structural)]
pub struct AxisPlan {
    pub pan: bool,
    pub horizontal: bool,
    pub vertical: bool,
    pub stop_horizontal: bool,
    pub stop_vertical: bool,
}

/// Where the parts of an axis event go.
pub open spec fn axis_of(
    horizontal: bool,
    vertical: bool,
    finger: bool,
    horizontal_zero: bool,
    vertical_zero: bool,
    over_client: bool,
    logo: bool,
) -> AxisPlan {
    AxisPlan {
        pan: horizontal && (!over_client || logo),
        horizontal: horizontal && over_client && !logo,
        vertical,
        stop_horizontal: finger && horizontal_zero,
        stop_vertical: finger && vertical_zero,
    }
}

/// Route an axis event. A horizontal amount pans the canvas where that is
/// allowed and is then never also delivered to the client; a finger source
/// reporting an explicit zero stops that axis.
pub fn axis_plan(
    horizontal: bool,
    vertical: bool,
    finger: bool,
    horizontal_zero: bool,
    vertical_zero: bool,
    over_client: bool,
    logo: bool,
) -> (p: AxisPlan)
    ensures
        p == axis_of(
            horizontal,
            vertical,
            finger,
            horizontal_zero,
            vertical_zero,
            over_client,
            logo,
        ),
{
    let pan = horizontal && hscroll_allowed(over_client, logo);
    AxisPlan {
        pan,
        horizontal: horizontal && !pan,
        vertical,
        stop_horizontal: finger && horizontal_zero,
        stop_vertical: finger && vertical_zero,
    }
}

impl AxisPlan {
    /// Whether the client gets an axis frame at all.
    pub fn any(&self) -> (b: bool)
        ensures
            b == (self.horizontal || self.vertical || self.stop_horizontal || self.stop_vertical),
    {
        self.horizontal || self.vertical || self.stop_horizontal || self.stop_vertical
    }
}

} // verus!
