//! Keyboard chords and the actions they name: matching intercepted keys
//! against the bindings, and what each action asks of the layout.

use crate::layout::{ColWidth, Layout, NodeId, Pos, Strip};
use crate::interaction::{Interaction, KeyStep, MoveDrop};
use crate::pointer::BtnKind;
use crate::Win;
use vstd::prelude::*;

pub mod laws;

verus! {

/// Modifier bits of a binding's mask.
pub const SHIFT: u16 = 0x01;

/// Never part of a binding, but it takes part in the exact match, so that
/// Ctrl with a chord does not trigger the chord without it.
pub const CTRL: u16 = 0x04;

pub const MOD1: u16 = 0x08;

pub const MOD4: u16 = 0x40;

/// The keysyms Ctrl+Alt+Fn arrives as, one per virtual terminal.
#[allow(non_upper_case_globals)]
pub const XF86_Switch_VT_1: u32 = 0x1008_FE01;

#[allow(non_upper_case_globals)]
pub const XF86_Switch_VT_12: u32 = 0x1008_FE0C;

/// What a chord does.
#[derive(Clone, Copy, PartialEq, Eq, Debug, Structural)]
pub enum Action {
    StackBelow,
    Close,
    FocusNext,
    FocusPrev,
    MoveSplitNext,
    MoveSplitPrev,
    Grow,
    Shrink,
    SpawnTerminal,
    SpawnLauncher,
    CloseWindow,
    VolumeUp,
    VolumeDown,
    VolumeMuteToggle,
    BrightnessUp,
    BrightnessDown,
    CycleColorMode,
}

/// One chord: the exact modifier mask, the level-0 keysym, the action.
#[derive(Clone, Copy, PartialEq, Eq, Debug, Structural)]
pub struct Binding {
    pub mask: u16,
    pub sym: u32,
    pub action: Action,
}

/// The modifiers held during a key event.
#[derive(Clone, Copy, PartialEq, Eq, Debug, Structural)]
pub struct Mods {
    pub shift: bool,
    pub ctrl: bool,
    pub alt: bool,
    pub logo: bool,
}

/// What an intercepted key press asks of the compositor: a bound action, or
/// a switch to another virtual terminal.
#[derive(Clone, Copy, PartialEq, Eq, Debug, Structural)]
pub enum Intercepted {
    Action(Action),
    SwitchVt(i32),
}

/// The virtual terminal a keysym switches to.
pub open spec fn vt_of(sym: u32) -> Option<i32> {
    if XF86_Switch_VT_1 <= sym <= XF86_Switch_VT_12 {
        Some((sym - XF86_Switch_VT_1 + 1) as i32)
    } else {
        None
    }
}

/// Ctrl+Alt+Fn arrives as one dedicated keysym per virtual terminal.
pub fn vt_switch_target(sym: u32) -> (vt: Option<i32>)
    ensures
        vt == vt_of(sym),
{
    if XF86_Switch_VT_1 <= sym && sym <= XF86_Switch_VT_12 {
        Some((sym - XF86_Switch_VT_1 + 1) as i32)
    } else {
        None
    }
}

impl Mods {
    /// The mask with exactly the held modifiers' bits.
    pub open spec fn mask(self) -> int {
        (if self.shift {
            SHIFT as int
        } else {
            0
        }) + (if self.ctrl {
            CTRL as int
        } else {
            0
        }) + (if self.alt {
            MOD1 as int
        } else {
            0
        }) + (if self.logo {
            MOD4 as int
        } else {
            0
        })
    }
}

/// The held modifiers as a mask.
pub fn mask_of(mods: &Mods) -> (mask: u16)
    ensures
        mask == mods.mask(),
{
    let mut mask: u16 = 0;
    if mods.shift {
        mask = mask + SHIFT;
    }
    if mods.ctrl {
        mask = mask + CTRL;
    }
    if mods.alt {
        mask = mask + MOD1;
    }
    if mods.logo {
        mask = mask + MOD4;
    }
    mask
}

/// The first binding from `k` on for this mask and keysym.
pub open spec fn bound_from(bindings: Seq<Binding>, mask: int, sym: u32, k: int) -> Option<Action>
    decreases bindings.len() - k,
{
    if k >= bindings.len() {
        None
    } else if bindings[k].mask == mask && bindings[k].sym == sym {
        Some(bindings[k].action)
    } else {
        bound_from(bindings, mask, sym, k + 1)
    }
}

/// The action bound to these modifiers and this keysym, if any. `sym` is
/// the level-0 keysym: bindings name the key as printed on the cap.
pub fn binding_action(bindings: &Vec<Binding>, mods: &Mods, sym: u32) -> (res: Option<Action>)
    ensures
        res == bound_from(bindings@, mods.mask(), sym, 0),
{
    let mask: u16 = mask_of(mods);
    let mut k: usize = 0;
    while k < bindings.len()
        invariant
            k <= bindings@.len(),
            mask == mods.mask(),
            bound_from(bindings@, mods.mask(), sym, 0) == bound_from(
                bindings@,
                mods.mask(),
                sym,
                k as int,
            ),
        decreases bindings@.len() - k,
    {
        if bindings[k].mask == mask && bindings[k].sym == sym {
            return Some(bindings[k].action);
        }
        k = k + 1;
    }
    None
}

/// What a pressed key is intercepted as: a terminal switch by the modified
/// keysym first, then a binding by the level-0 one.
pub open spec fn intercepted_as(
    bindings: Seq<Binding>,
    mods: Mods,
    sym: u32,
    modified_sym: u32,
) -> Option<Intercepted> {
    match (vt_of(modified_sym), bound_from(bindings, mods.mask(), sym, 0)) {
        (Some(vt), _) => Some(Intercepted::SwitchVt(vt)),
        (None, Some(a)) => Some(Intercepted::Action(a)),
        (None, None) => None,
    }
}

/// What the keyboard filter decided: whether the client sees the event, and
/// what it asks of the compositor.
#[derive(Clone, Copy, PartialEq, Eq, Debug, Structural)]
pub struct KeyOutcome {
    pub forward: bool,
    pub fire: Option<Intercepted>,
}

/// The outcome of a key event that names `hit`, while the keys in `held`
/// belong to chords.
pub open spec fn key_outcome(
    held: Set<u32>,
    raw: u32,
    pressed: bool,
    hit: Option<Intercepted>,
) -> KeyOutcome {
    let event = KeyEvent { raw, pressed, bound: hit is Some };
    KeyOutcome {
        forward: seen(held, event),
        fire: if pressed && !held.contains(raw) {
            hit
        } else {
            None
        },
    }
}

/// A key event, before the client sees anything. A chord that is
/// intercepted owns the whole key cycle: its auto-repeats and its release
/// are swallowed too.
pub fn process_key(
    interaction: &mut Interaction,
    bindings: &Vec<Binding>,
    raw: u32,
    pressed: bool,
    mods: &Mods,
    sym: u32,
    modified_sym: u32,
) -> (outcome: KeyOutcome)
    requires
        old(interaction).wf(),
    ensures
        final(interaction).wf(),
        outcome == key_outcome(
            old(interaction).held(),
            raw,
            pressed,
            intercepted_as(bindings@, *mods, sym, modified_sym),
        ),
        final(interaction).held() == held_after(
            old(interaction).held(),
            KeyEvent {
                raw,
                pressed,
                bound: intercepted_as(bindings@, *mods, sym, modified_sym) is Some,
            },
        ),
        *final(interaction) == (Interaction {
            held_bound_keys: final(interaction).held_bound_keys,
            ..*old(interaction)
        }),
{
    let hit = if pressed {
        match vt_switch_target(modified_sym) {
            Some(vt) => Some(Intercepted::SwitchVt(vt)),
            None => match binding_action(bindings, mods, sym) {
                Some(a) => Some(Intercepted::Action(a)),
                None => None,
            },
        }
    } else {
        None
    };
    match interaction.on_key(raw, pressed, hit.is_some()) {
        KeyStep::Forward => KeyOutcome { forward: true, fire: None },
        KeyStep::Swallow => KeyOutcome { forward: false, fire: None },
        KeyStep::Fire => KeyOutcome { forward: false, fire: hit },
    }
}

/// A key event as the keyboard filter gets it: the keycode, whether it is a
/// press, and whether a chord claims it.
pub struct KeyEvent {
    pub raw: u32,
    pub pressed: bool,
    pub bound: bool,
}

/// The keys a chord owns after one more event.
pub open spec fn held_after(held: Set<u32>, e: KeyEvent) -> Set<u32> {
    if e.pressed {
        if e.bound {
            held.insert(e.raw)
        } else {
            held
        }
    } else {
        held.remove(e.raw)
    }
}

/// Whether the client sees an event.
pub open spec fn seen(held: Set<u32>, e: KeyEvent) -> bool {
    !held.contains(e.raw) && !(e.pressed && e.bound)
}

/// The keys a chord owns after the first `n` events.
pub open spec fn held_at(events: Seq<KeyEvent>, n: int) -> Set<u32>
    decreases n,
{
    if n <= 0 {
        Set::empty()
    } else {
        held_after(held_at(events, n - 1), events[n - 1])
    }
}

/// Clients never see half a press: from a key's press to its release the
/// client sees all of its events or none, the auto-repeats in between among
/// them, whatever modifiers and other keys do meanwhile. This is so unless a
/// chord claims a repeat of a key whose press the client saw.
pub proof fn clients_never_see_half_a_press(events: Seq<KeyEvent>, down: int, up: int)
    requires
        0 <= down < up < events.len(),
        events[down].pressed,
        !events[up].pressed,
        events[up].raw == events[down].raw,
        !held_at(events, down).contains(events[down].raw),
        forall|i: int|
            down < i < up && (#[trigger] events[i]).raw == events[down].raw ==> events[i].pressed
                && (events[i].bound ==> events[down].bound),
    ensures
        seen(held_at(events, up), events[up]) == seen(held_at(events, down), events[down]),
        forall|i: int|
            down < i < up && (#[trigger] events[i]).raw == events[down].raw ==> seen(
                held_at(events, i),
                events[i],
            ) == seen(held_at(events, down), events[down]),
{
    lemma_held_between(events, down, up);
    assert forall|i: int|
        down < i < up && (#[trigger] events[i]).raw == events[down].raw implies seen(
        held_at(events, i),
        events[i],
    ) == seen(held_at(events, down), events[down]) by {
        lemma_held_between(events, down, i);
    }
}

proof fn lemma_held_between(events: Seq<KeyEvent>, down: int, n: int)
    requires
        0 <= down < n <= events.len(),
        events[down].pressed,
        !held_at(events, down).contains(events[down].raw),
        forall|i: int|
            down < i < n && (#[trigger] events[i]).raw == events[down].raw ==> events[i].pressed
                && (events[i].bound ==> events[down].bound),
    ensures
        held_at(events, n).contains(events[down].raw) == events[down].bound,
    decreases n,
{
    if n > down + 1 {
        lemma_held_between(events, down, n - 1);
    }
}

/// What an action asks for.
#[derive(Clone, Copy, PartialEq, Eq, Debug, Structural)]
pub enum ActionStep {
    StackBelow,
    /// Close the focused split as its titlebar button would.
    CloseSplit,
    /// Move focus to the next or previous split.
    MoveFocus(bool),
    /// Move the focused split forward or back.
    MoveSplit(bool),
    /// Grow or shrink the focused split.
    Resize(bool),
    SpawnTerminal,
    SpawnLauncher,
    CloseWindow,
    VolumeUp,
    VolumeDown,
    VolumeMuteToggle,
    /// Step the backlight by so many percent.
    Brightness(i32),
    CycleColorMode,
}

/// What an action does, brightness moving by `percent` per step.
pub open spec fn step_of(action: Action, percent: int) -> ActionStep {
    match action {
        Action::StackBelow => ActionStep::StackBelow,
        Action::Close => ActionStep::CloseSplit,
        Action::FocusNext => ActionStep::MoveFocus(true),
        Action::FocusPrev => ActionStep::MoveFocus(false),
        Action::MoveSplitNext => ActionStep::MoveSplit(true),
        Action::MoveSplitPrev => ActionStep::MoveSplit(false),
        Action::Grow => ActionStep::Resize(true),
        Action::Shrink => ActionStep::Resize(false),
        Action::SpawnTerminal => ActionStep::SpawnTerminal,
        Action::SpawnLauncher => ActionStep::SpawnLauncher,
        Action::CloseWindow => ActionStep::CloseWindow,
        Action::VolumeUp => ActionStep::VolumeUp,
        Action::VolumeDown => ActionStep::VolumeDown,
        Action::VolumeMuteToggle => ActionStep::VolumeMuteToggle,
        Action::BrightnessUp => ActionStep::Brightness(percent as i32),
        Action::BrightnessDown => ActionStep::Brightness((-percent) as i32),
        Action::CycleColorMode => ActionStep::CycleColorMode,
    }
}

/// What an action asks for, brightness moving by `percent` per step.
pub fn do_action(action: Action, percent: i32) -> (step: ActionStep)
    requires
        percent > i32::MIN,
    ensures
        step == step_of(action, percent as int),
{
    match action {
        Action::StackBelow => ActionStep::StackBelow,
        Action::Close => ActionStep::CloseSplit,
        Action::FocusNext => ActionStep::MoveFocus(true),
        Action::FocusPrev => ActionStep::MoveFocus(false),
        Action::MoveSplitNext => ActionStep::MoveSplit(true),
        Action::MoveSplitPrev => ActionStep::MoveSplit(false),
        Action::Grow => ActionStep::Resize(true),
        Action::Shrink => ActionStep::Resize(false),
        Action::SpawnTerminal => ActionStep::SpawnTerminal,
        Action::SpawnLauncher => ActionStep::SpawnLauncher,
        Action::CloseWindow => ActionStep::CloseWindow,
        Action::VolumeUp => ActionStep::VolumeUp,
        Action::VolumeDown => ActionStep::VolumeDown,
        Action::VolumeMuteToggle => ActionStep::VolumeMuteToggle,
        Action::BrightnessUp => ActionStep::Brightness(percent),
        Action::BrightnessDown => ActionStep::Brightness(-percent),
        Action::CycleColorMode => ActionStep::CycleColorMode,
    }
}

/// What follows a layout step: whether the keyboard leaves any focused
/// float first, whether the viewport jumps to the focused split, and
/// whether everything is placed anew.
#[derive(Clone, Copy, PartialEq, Eq, Debug, Structural)]
pub struct Epilogue {
    pub clear_float: bool,
    pub scroll_into_view: bool,
    pub arrange: bool,
}

/// What follows an action that changed something, or did not.
pub open spec fn epilogue_of(step: ActionStep, changed: bool) -> Epilogue {
    Epilogue {
        clear_float: step is MoveFocus || step is MoveSplit,
        scroll_into_view: changed && (step is MoveFocus || step is MoveSplit),
        arrange: step is MoveFocus || (changed && (step is MoveSplit || step is Resize
            || step is StackBelow)),
    }
}

/// The epilogue of a step whose layout operation reported `changed`. A
/// focus move always re-places, the others only when something changed;
/// deliberate focus moves take the keyboard off any float.
pub fn epilogue(step: ActionStep, changed: bool) -> (e: Epilogue)
    ensures
        e == epilogue_of(step, changed),
{
    match step {
        ActionStep::MoveFocus(_) => Epilogue {
            clear_float: true,
            scroll_into_view: changed,
            arrange: true,
        },
        ActionStep::MoveSplit(_) => Epilogue {
            clear_float: true,
            scroll_into_view: changed,
            arrange: changed,
        },
        ActionStep::Resize(_) => Epilogue {
            clear_float: false,
            scroll_into_view: false,
            arrange: changed,
        },
        ActionStep::StackBelow => Epilogue {
            clear_float: false,
            scroll_into_view: false,
            arrange: changed,
        },
        _ => Epilogue { clear_float: false, scroll_into_view: false, arrange: false },
    }
}

/// The window that the close chord asks to close.
pub open spec fn closed_by_key(focused_float: Option<Win>, focused_client: Option<Win>) -> Option<
    Win,
> {
    if focused_float is Some {
        focused_float
    } else {
        focused_client
    }
}

/// The window a close request goes to: the focused float before the focused
/// split's client, so that the dialog the user is looking at closes.
pub fn close_focused_window(focused_float: Option<Win>, focused_client: Option<Win>) -> (win:
    Option<Win>)
    ensures
        win == closed_by_key(focused_float, focused_client),
{
    if focused_float.is_some() {
        focused_float
    } else {
        focused_client
    }
}

/// What closing a split came to.
#[derive(Clone, Copy, PartialEq, Eq, Debug, Structural)]
pub enum CloseOutcome {
    /// Its window is asked to close; the split follows when it dies.
    Ask(Win),
    /// The empty placeholder is gone, and focus lands here.
    Removed(NodeId),
    /// Nothing to do: a dead split, or the sole one.
    Kept,
}

/// What closing a split comes to: a window is asked to close, an empty split
/// leaves unless it is the last one.
pub open spec fn close_of(v: Strip, leaf: NodeId) -> CloseOutcome {
    if !v.live(leaf) {
        CloseOutcome::Kept
    } else if v.leaf_of(leaf).client is Some {
        CloseOutcome::Ask(v.leaf_of(leaf).client->0)
    } else if v.sole() {
        CloseOutcome::Kept
    } else {
        CloseOutcome::Removed(v.focus_after(v.pos_of(leaf)))
    }
}

/// Close the split at `leaf`. Window and split live and die together: an
/// occupied split's window is asked to close, an empty placeholder is
/// removed on the spot, and the sole placeholder stays.
pub fn close_split(layout: &mut Layout, leaf: NodeId) -> (outcome: CloseOutcome)
    requires
        old(layout)@.wf(),
    ensures
        final(layout)@.wf(),
        outcome == close_of(old(layout)@, leaf),
        final(layout)@ == (if outcome is Removed {
            old(layout)@.removed(old(layout)@.pos_of(leaf))
        } else {
            old(layout)@
        }),
{
    let client = match layout.leaf(leaf) {
        Some(l) => l.client,
        None => {
            return CloseOutcome::Kept;
        },
    };
    match client {
        Some(win) => CloseOutcome::Ask(win),
        None => match layout.remove(leaf) {
            Some(next) => CloseOutcome::Removed(next),
            None => CloseOutcome::Kept,
        },
    }
}

/// Where the column of a drop at strip position `idx` goes: beside this
/// split of the column left of the position.
pub open spec fn beside_of(v: Strip, src: NodeId, idx: int) -> NodeId {
    let rows = v.columns[idx - 1].rows;
    if rows[0].id == src && rows.len() > 1 {
        rows[1].id
    } else {
        rows[0].id
    }
}

/// Whether a drop of `leaf` changes the strip.
pub open spec fn drop_changes(v: Strip, leaf: NodeId, drop: MoveDrop) -> bool {
    match drop {
        MoveDrop::ColumnAt(idx) => 1 <= idx <= v.columns.len() && v.moves_beside(
            leaf,
            beside_of(v, leaf, idx as int),
            false,
        ),
        MoveDrop::Column(dst, before) => v.moves_beside(leaf, dst, before),
        MoveDrop::Stack(dst, before) => v.moves_into_stack(leaf, dst, before),
    }
}

/// The strip after a drop of `leaf` that changes it.
pub open spec fn dropped_strip(
    v: Strip,
    leaf: NodeId,
    drop: MoveDrop,
    default_w: ColWidth,
) -> Strip {
    match drop {
        MoveDrop::ColumnAt(idx) => v.moved_beside(
            leaf,
            beside_of(v, leaf, idx as int),
            false,
            default_w,
        ),
        MoveDrop::Column(dst, before) => v.moved_beside(leaf, dst, before, default_w),
        MoveDrop::Stack(dst, before) => v.moved_into_stack(leaf, dst, before),
    }
}

/// Carry out a split-move drop. Returns whether the strip changed, and so
/// whether the move is animated and committed.
pub fn drop_split(layout: &mut Layout, leaf: NodeId, drop: MoveDrop, default_w: ColWidth) -> (changed:
    bool)
    requires
        old(layout)@.wf(),
    ensures
        final(layout)@.wf(),
        changed == drop_changes(old(layout)@, leaf, drop),
        final(layout)@ == (if changed {
            dropped_strip(old(layout)@, leaf, drop, default_w)
        } else {
            old(layout)@
        }),
{
    match drop {
        MoveDrop::ColumnAt(idx) => {
            if idx < 1 || idx > layout.ncols() {
                return false;
            }
            let first = match layout.leaf_at(Pos { col: idx - 1, row: 0 }) {
                Some(id) => id,
                None => {
                    proof {
                        assert(layout@.columns[idx - 1].rows.len() > 0);
                    }
                    return false;
                },
            };
            let dst = if first == leaf {
                match layout.leaf_at(Pos { col: idx - 1, row: 1 }) {
                    Some(id) => id,
                    None => first,
                }
            } else {
                first
            };
            layout.move_beside_column(leaf, dst, false, default_w)
        },
        MoveDrop::Column(dst, before) => layout.move_beside_column(leaf, dst, before, default_w),
        MoveDrop::Stack(dst, before) => layout.move_into_stack(leaf, dst, before),
    }
}

/// What a click on a split-control button asks for.
#[derive(Clone, Copy, PartialEq, Eq, Debug, Structural)]
pub enum ButtonClick {
    /// The window is asked to close. Its split follows on its death, so
    /// that a refusal keeps it.
    Ask(Win),
    /// The split collapses to its restore strip, or comes back from it.
    ToggleMinimize(NodeId),
    /// The split is divided, as its button previews.
    Divide(NodeId),
    Nothing,
}

/// What a click on a split's button asks for.
pub open spec fn click_of(v: Strip, leaf: NodeId, kind: BtnKind) -> ButtonClick {
    match kind {
        BtnKind::Minimize => ButtonClick::ToggleMinimize(leaf),
        BtnKind::Split => ButtonClick::Divide(leaf),
        BtnKind::Close => if v.live(leaf) && v.leaf_of(leaf).client is Some {
            ButtonClick::Ask(v.leaf_of(leaf).client->0)
        } else {
            ButtonClick::Nothing
        },
    }
}

/// Act on a split-control button click.
pub fn click_split_button(layout: &Layout, leaf: NodeId, kind: BtnKind) -> (c: ButtonClick)
    requires
        layout@.wf(),
    ensures
        c == click_of(layout@, leaf, kind),
{
    match kind {
        BtnKind::Minimize => ButtonClick::ToggleMinimize(leaf),
        BtnKind::Split => ButtonClick::Divide(leaf),
        BtnKind::Close => match layout.leaf(leaf) {
            Some(l) => match l.client {
                Some(win) => ButtonClick::Ask(win),
                None => ButtonClick::Nothing,
            },
            None => ButtonClick::Nothing,
        },
    }
}

} // verus!
