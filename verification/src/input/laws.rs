//! What chords and the actions behind them promise for every input.

use super::{
    beside_of, bound_from, click_of, close_of, closed_by_key, drop_changes, dropped_strip,
    epilogue_of, held_after, intercepted_as, key_outcome, step_of, vt_of, Action, ActionStep,
    Binding, ButtonClick, CloseOutcome, Intercepted, KeyEvent, Mods,
};
use crate::interaction::MoveDrop;
use crate::layout::laws::{
    addressable, moving_beside_keeps_splits, moving_beside_lands_next_to_the_target, stand_alike,
};
use crate::layout::{lemma_pos, ColWidth, NodeId, Pos, Strip};
use crate::pointer::BtnKind;
use crate::Win;
use vstd::prelude::*;

verus! {

/// Law: each set of held modifiers has a mask of its own, so a chord never
/// fires with a modifier more or less than it names.
pub proof fn masks_tell_modifiers_apart(a: Mods, b: Mods)
    ensures
        a.mask() == b.mask() <==> a == b,
{
}

/// Law: the first binding with exactly the held modifiers and the key's
/// symbol decides; without one the chord is nobody's.
pub proof fn the_first_binding_wins(bindings: Seq<Binding>, mask: int, sym: u32, k: int, i: int)
    requires
        0 <= k <= i <= bindings.len(),
        forall|j: int|
            k <= j < i ==> (#[trigger] bindings[j]).mask != mask || bindings[j].sym != sym,
        i < bindings.len() ==> bindings[i].mask == mask && bindings[i].sym == sym,
    ensures
        i < bindings.len() ==> bound_from(bindings, mask, sym, k) == Some(bindings[i].action),
        i == bindings.len() ==> bound_from(bindings, mask, sym, k) is None,
    decreases i - k,
{
    if k < i {
        the_first_binding_wins(bindings, mask, sym, k + 1, i);
    }
}

/// Law: the twelve terminal-switch symbols, and no others, switch to the
/// terminals one to twelve, whatever is bound.
pub proof fn switch_symbols_switch_terminals(
    bindings: Seq<Binding>,
    mods: Mods,
    sym: u32,
    modified_sym: u32,
    n: int,
)
    ensures
        1 <= n <= 12 && modified_sym == 0x1008_FE00 + n ==> intercepted_as(
            bindings,
            mods,
            sym,
            modified_sym,
        ) == Some(Intercepted::SwitchVt(n as i32)),
        modified_sym <= 0x1008_FE00 || modified_sym > 0x1008_FE0C ==> vt_of(modified_sym) is None,
{
}

/// Law: a chord fires on its press and only there. Its repeats and its
/// release fire nothing and reach no client, even if the chord has been
/// rebound meanwhile; then the key is free again. A key that names nothing
/// reaches the client both ways.
pub proof fn a_chord_fires_on_its_press(
    held: Set<u32>,
    raw: u32,
    hit: Option<Intercepted>,
    again: Option<Intercepted>,
)
    requires
        !held.contains(raw),
    ensures
        ({
            let down = held_after(held, KeyEvent { raw, pressed: true, bound: hit is Some });
            let press = key_outcome(held, raw, true, hit);
            let repeat = key_outcome(down, raw, true, again);
            let release = key_outcome(down, raw, false, again);
            let up = held_after(down, KeyEvent { raw, pressed: false, bound: again is Some });
            &&& press.fire == hit
            &&& press.forward == (hit is None)
            &&& hit is Some ==> repeat.fire is None && !repeat.forward
            &&& release.fire is None
            &&& release.forward == (hit is None)
            &&& !up.contains(raw)
        }),
{
}

/// Law: actions come in pairs that go opposite ways: next and previous, grow
/// and shrink, brighter and darker by the same amount.
pub proof fn paired_actions_go_opposite_ways(percent: int)
    requires
        i32::MIN < percent <= i32::MAX,
    ensures
        step_of(Action::FocusNext, percent) == ActionStep::MoveFocus(true),
        step_of(Action::FocusPrev, percent) == ActionStep::MoveFocus(false),
        step_of(Action::MoveSplitNext, percent) == ActionStep::MoveSplit(true),
        step_of(Action::MoveSplitPrev, percent) == ActionStep::MoveSplit(false),
        step_of(Action::Grow, percent) == ActionStep::Resize(true),
        step_of(Action::Shrink, percent) == ActionStep::Resize(false),
        ({
            let (up, down) = (
                step_of(Action::BrightnessUp, percent),
                step_of(Action::BrightnessDown, percent),
            );
            &&& up is Brightness && down is Brightness
            &&& up->Brightness_0 == percent
            &&& up->Brightness_0 + down->Brightness_0 == 0
        }),
        step_of(Action::VolumeUp, percent) is VolumeUp,
        step_of(Action::VolumeDown, percent) is VolumeDown,
        step_of(Action::VolumeMuteToggle, percent) is VolumeMuteToggle,
{
}

/// Law: only an action that changed the layout arranges it anew, but for a
/// focus move, whose borders change colour anyway; the view follows the
/// focus only where it moved, and moving it always leaves a float.
pub proof fn only_changes_are_arranged(step: ActionStep, changed: bool)
    ensures
        epilogue_of(step, false).arrange ==> step is MoveFocus,
        !epilogue_of(step, false).scroll_into_view,
        epilogue_of(step, changed).scroll_into_view ==> epilogue_of(step, changed).clear_float,
        epilogue_of(step, changed).clear_float <==> step is MoveFocus || step is MoveSplit,
        epilogue_of(step, true).clear_float ==> epilogue_of(step, true).scroll_into_view
            && epilogue_of(step, true).arrange,
        step is Resize || step is StackBelow ==> epilogue_of(step, true).arrange
            && !epilogue_of(step, true).clear_float,
{
}

/// Law: closing never drops a window and never empties the strip: a split
/// with a window has that window asked, an empty one leaves, and the last
/// one stays. The button of a split asks its window, too.
pub proof fn closing_asks_before_it_removes(v: Strip, leaf: NodeId)
    requires
        v.live(leaf),
    ensures
        v.leaf_of(leaf).client is Some ==> close_of(v, leaf) == CloseOutcome::Ask(
            v.leaf_of(leaf).client->0,
        ) && click_of(v, leaf, BtnKind::Close) == ButtonClick::Ask(v.leaf_of(leaf).client->0),
        v.leaf_of(leaf).client is None ==> (close_of(v, leaf) is Kept <==> v.columns.len() == 1
            && v.columns[0].rows.len() == 1) && click_of(v, leaf, BtnKind::Close) is Nothing,
        v.leaf_of(leaf).client is None && !(close_of(v, leaf) is Kept) ==> close_of(v, leaf)
            is Removed,
        click_of(v, leaf, BtnKind::Minimize) == ButtonClick::ToggleMinimize(leaf),
        click_of(v, leaf, BtnKind::Split) == ButtonClick::Divide(leaf),
{
}

/// Law: closing a split that is not there does nothing.
pub proof fn closing_a_dead_split_does_nothing(v: Strip, leaf: NodeId)
    requires
        !v.live(leaf),
    ensures
        close_of(v, leaf) is Kept,
        click_of(v, leaf, BtnKind::Close) is Nothing,
{
}

/// Law: a split dropped between two columns becomes a column there: every
/// other split of the columns left of that place stays left of it, every
/// other split of the columns right of it stays right of it.
pub proof fn a_split_dropped_between_columns_lands_there(
    v: Strip,
    leaf: NodeId,
    idx: usize,
    default_w: ColWidth,
)
    requires
        v.wf(),
        addressable(v),
        v.live(leaf),
        drop_changes(v, leaf, MoveDrop::ColumnAt(idx)),
    ensures
        ({
            let n = dropped_strip(v, leaf, MoveDrop::ColumnAt(idx), default_w);
            let c = n.pos_of(leaf).col;
            &&& n.columns[c as int].rows.len() == 1
            &&& forall|a: NodeId| #[trigger]
                v.live(a) && a != leaf && v.pos_of(a).col < idx ==> n.pos_of(a).col < c
            &&& forall|a: NodeId| #[trigger]
                v.live(a) && a != leaf && v.pos_of(a).col >= idx ==> n.pos_of(a).col > c
        }),
{
    let dst = beside_of(v, leaf, idx as int);
    let rows = v.columns[idx - 1].rows;
    let q = Pos {
        col: (idx - 1) as usize,
        row: if rows[0].id == leaf && rows.len() > 1 {
            1
        } else {
            0
        },
    };
    assert(v.sits(dst, q));
    lemma_pos(v, dst, q);
    let n = dropped_strip(v, leaf, MoveDrop::ColumnAt(idx), default_w);
    moving_beside_lands_next_to_the_target(v, leaf, dst, false, default_w);
    moving_beside_keeps_splits(v, leaf, dst, false, default_w);
    let c = n.pos_of(leaf).col;
    assert forall|a: NodeId| #[trigger] v.live(a) && a != leaf && v.pos_of(a).col < idx implies n.pos_of(
        a,
    ).col < c by {
        assert(stand_alike(v, n, a, dst));
    }
    assert forall|a: NodeId| #[trigger] v.live(a) && a != leaf && v.pos_of(a).col >= idx implies n.pos_of(
        a,
    ).col > c by {
        assert(stand_alike(v, n, dst, a));
        assert(n.live(a));
        assert(n.sits(a, n.pos_of(a)));
        assert(n.live(leaf));
        assert(n.sits(leaf, n.pos_of(leaf)));
        if n.pos_of(a).col == c {
            assert(n.row(n.pos_of(a)).id == n.row(n.pos_of(leaf)).id);
        }
    }
}

/// Law: a drop beside or onto a split does what the same move does, and a
/// drop on itself changes nothing.
pub proof fn a_drop_is_the_move_it_names(
    v: Strip,
    leaf: NodeId,
    dst: NodeId,
    before: bool,
    default_w: ColWidth,
)
    ensures
        dropped_strip(v, leaf, MoveDrop::Column(dst, before), default_w) == v.moved_beside(
            leaf,
            dst,
            before,
            default_w,
        ),
        dropped_strip(v, leaf, MoveDrop::Stack(dst, before), default_w) == v.moved_into_stack(
            leaf,
            dst,
            before,
        ),
        !drop_changes(v, leaf, MoveDrop::Column(leaf, before)),
        !drop_changes(v, leaf, MoveDrop::Stack(leaf, before)),
        !v.live(leaf) || !v.live(dst) ==> !drop_changes(v, leaf, MoveDrop::Column(dst, before))
            && !drop_changes(v, leaf, MoveDrop::Stack(dst, before)),
{
}

/// Law: the close chord closes the focused float, and the focused split's
/// window only where no float has the focus.
pub proof fn the_close_chord_closes_what_has_the_focus(float: Win, client: Option<Win>)
    ensures
        closed_by_key(Some(float), client) == Some(float),
        closed_by_key(None, client) == client,
{
}

} // verus!
