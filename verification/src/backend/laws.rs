//! What driving a screen promises.

use super::{
    mode_of, pick_from, pipe_from, preferred_from, session_of, ConnectorInfo, ModeInfo, Reconnect,
    Tty,
};
use vstd::prelude::*;

verus! {

/// Law: a headless session is run exactly when its switch is set to anything
/// but zero; else a nested one inside another session, and one of its own
/// only outside.
pub proof fn the_session_is_the_one_asked_for(value: Seq<char>, nested: bool)
    ensures
        value != "0"@ ==> session_of(Some(value), nested) is Headless,
        value == "0"@ ==> session_of(Some(value), nested) == session_of(None, nested),
        session_of(None, true) is Nested,
        session_of(None, false) is Tty,
{
}

/// Law: no frame is rendered between queueing one and showing it, however
/// often that is tried; a frame that changed nothing, or could not be
/// queued, holds nothing up.
pub proof fn frames_are_shown_before_the_next(t: Tty, empty: bool, ok: bool)
    requires
        t.renders(),
    ensures
        !t.after_render(false, true).renders(),
        t.after_render(false, true).paced(),
        !t.after_render(false, true).after_render(empty, ok).renders(),
        t.after_render(false, true).after_vblank().renders(),
        t.after_render(true, ok).renders(),
        t.after_render(empty, false).renders(),
{
}

/// Law: a suspended session renders nothing until it is resumed, whatever the
/// screen does meanwhile; resuming forgets a frame that was queued.
pub proof fn suspended_sessions_render_nothing(t: Tty)
    requires
        t.scanout,
    ensures
        !t.after_pause().renders(),
        !t.after_pause().after_vblank().renders(),
        t.after_pause().paced(),
        t.after_pause().after_activate().renders(),
        t.after_render(false, true).after_pause().after_activate().renders(),
{
}

/// Law: the screen in use is kept where it is still the one to use; another
/// one is driven anew, rendering nothing until it runs, and without any
/// screen nothing is rendered.
pub proof fn screens_are_changed_only_where_needed(t: Tty, c: u32)
    ensures
        t.connector == Some(c) && t.scanout ==> t.reconnects(Some(c)) is Keep && t.after_reconnect(
            Some(c),
        ) == t,
        t.connector != Some(c) || !t.scanout ==> t.reconnects(Some(c)) == Reconnect::Drive(c),
        t.connector != Some(c) ==> !t.after_reconnect(Some(c)).renders(),
        t.reconnects(None) is Dark,
        !t.after_reconnect(None).renders() && t.after_reconnect(None).connector is None,
        ({
            let n = t.after_reconnect(Some(c)).after_drive(c, true);
            !t.paused && t.connector != Some(c) ==> n.renders() && n.connector == Some(c)
        }),
        t.after_drive(c, false).connector is None,
        t.after_drive(c, true).reconnects(Some(c)) is Keep,
{
}

proof fn lemma_preferred(modes: Seq<ModeInfo>, k: int, i: int)
    requires
        0 <= k <= i <= modes.len(),
        forall|j: int| k <= j < i ==> !(#[trigger] modes[j]).preferred,
        i < modes.len() ==> modes[i].preferred,
    ensures
        i < modes.len() ==> preferred_from(modes, k) == Some(modes[i]),
        i == modes.len() ==> preferred_from(modes, k) is None,
    decreases i - k,
{
    if k < i {
        lemma_preferred(modes, k + 1, i);
    }
}

/// Law: a screen runs in its first preferred mode, and in its first mode
/// where it prefers none.
pub proof fn preferred_modes_come_first(modes: Seq<ModeInfo>, i: int)
    requires
        0 <= i <= modes.len(),
        forall|j: int| 0 <= j < i ==> !(#[trigger] modes[j]).preferred,
        i < modes.len() ==> modes[i].preferred,
    ensures
        i < modes.len() ==> mode_of(modes) == Some(modes[i]),
        i == modes.len() && modes.len() > 0 ==> mode_of(modes) == Some(modes[0]),
        modes.len() == 0 ==> mode_of(modes) is None,
{
    lemma_preferred(modes, 0, i);
}

proof fn lemma_pipe(encoders: Seq<Vec<u32>>, k: int)
    requires
        0 <= k <= encoders.len(),
    ensures
        pipe_from(encoders, k) is Some <==> exists|j: int|
            k <= j < encoders.len() && (#[trigger] encoders[j])@.len() > 0,
    decreases encoders.len() - k,
{
    if k < encoders.len() {
        lemma_pipe(encoders, k + 1);
    }
}

proof fn lemma_pick(all: Seq<ConnectorInfo>, k: int, i: int)
    requires
        0 <= k <= i <= all.len(),
        forall|j: int| k <= j < i ==> (#[trigger] all[j]).pick() is None,
        i < all.len() ==> all[i].pick() is Some,
    ensures
        i < all.len() ==> pick_from(all, k) == all[i].pick(),
        i == all.len() ==> pick_from(all, k) is None,
    decreases i - k,
{
    if k < i {
        lemma_pick(all, k + 1, i);
    }
}

/// Law: the first connector that is connected, has a mode and has a pipe is
/// driven, and no other; with none, no screen is.
pub proof fn the_first_usable_connector_is_driven(all: Seq<ConnectorInfo>, i: int)
    requires
        0 <= i <= all.len(),
        forall|j: int|
            0 <= j < i ==> !(#[trigger] all[j]).connected || all[j].modes@.len() == 0 || (forall|
                e: int,
            |
                0 <= e < all[j].encoders@.len() ==> (#[trigger] all[j].encoders@[e])@.len() == 0),
        i < all.len() ==> all[i].connected && all[i].modes@.len() > 0 && exists|e: int|
            0 <= e < all[i].encoders@.len() && (#[trigger] all[i].encoders@[e])@.len() > 0,
    ensures
        i < all.len() ==> pick_from(all, 0) is Some && pick_from(all, 0)->0.handle == all[i].handle
            && mode_of(all[i].modes@) == Some(pick_from(all, 0)->0.mode),
        i == all.len() ==> pick_from(all, 0) is None,
{
    assert forall|j: int| 0 <= j < i implies (#[trigger] all[j]).pick() is None by {
        lemma_pipe(all[j].encoders@, 0);
        lemma_some_mode(all[j].modes@, 0);
    }
    if i < all.len() {
        lemma_pipe(all[i].encoders@, 0);
        assert(mode_of(all[i].modes@) is Some);
    }
    lemma_pick(all, 0, i);
}

proof fn lemma_some_mode(modes: Seq<ModeInfo>, k: int)
    requires
        0 <= k <= modes.len(),
    ensures
        modes.len() == 0 ==> preferred_from(modes, k) is None,
{
}

} // verus!
