//! App icons: persistent hue slots that keep windows of one app apart, and
//! which icon a window is drawn with.

use crate::shell::{IconId, Kind, Managed, ManagedWindow, Store};
use crate::text::{eq_ignore_ascii_case, fold_eq};
use crate::Win;
use vstd::prelude::*;

verus! {

/// An icon fetch's outcome.
#[derive(Clone, Copy, PartialEq, Eq, Debug, Structural)]
pub struct IconResult {
    pub win: Win,
    pub icon: Option<IconId>,
}

/// A tiled window and the class it declares.
pub struct WinClass {
    pub win: Win,
    pub class: String,
}

/// Whether entry `i` is a window of this class.
pub open spec fn of_class(tiled: Seq<WinClass>, class: Seq<char>, i: int) -> bool {
    0 <= i < tiled.len() && fold_eq(tiled[i].class@, class)
}

/// Whether a tiled window of this class holds this hue slot.
pub open spec fn slot_used(s: Store, tiled: Seq<WinClass>, class: Seq<char>, slot: usize) -> bool {
    exists|i: int|
        #[trigger] of_class(tiled, class, i) && s.has(tiled[i].win) && s.entry(
            tiled[i].win,
        ).icon_slot == Some(slot)
}

/// The first slot from `k` on that no window of the class holds.
pub open spec fn free_slot(
    s: Store,
    tiled: Seq<WinClass>,
    class: Seq<char>,
    steps: usize,
    k: int,
) -> Option<usize>
    decreases steps - k,
{
    if k >= steps {
        None
    } else if !slot_used(s, tiled, class, k as usize) {
        Some(k as usize)
    } else {
        free_slot(s, tiled, class, steps, k + 1)
    }
}

fn is_used(managed: &Managed, tiled: &Vec<WinClass>, class: &str, slot: usize) -> (b: bool)
    requires
        managed@.wf(),
    ensures
        b == slot_used(managed@, tiled@, class@, slot),
{
    let mut k: usize = 0;
    while k < tiled.len()
        invariant
            k <= tiled@.len(),
            managed@.wf(),
            forall|i: int|
                0 <= i < k && #[trigger] of_class(tiled@, class@, i) ==> !(managed@.has(
                    tiled@[i].win,
                ) && managed@.entry(tiled@[i].win).icon_slot == Some(slot)),
        decreases tiled@.len() - k,
    {
        if eq_ignore_ascii_case(tiled[k].class.as_str(), class) {
            if let Some(m) = managed.entry(tiled[k].win) {
                if m.icon_slot == Some(slot) {
                    assert(of_class(tiled@, class@, k as int));
                    return true;
                }
            }
        }
        k = k + 1;
    }
    false
}

/// The first hue-rotation slot not held by another open tiled window of
/// `class`, so that windows of one app stay distinguishable while a free
/// slot remains. Past the last slot there is none, instead of a hue used
/// twice.
pub fn assign_icon_slot(managed: &Managed, tiled: &Vec<WinClass>, class: &str, steps: usize) -> (slot:
    Option<usize>)
    requires
        managed@.wf(),
    ensures
        slot == free_slot(managed@, tiled@, class@, steps, 0),
        slot is Some ==> slot->0 < steps && !slot_used(managed@, tiled@, class@, slot->0),
{
    let mut k: usize = 0;
    while k < steps
        invariant
            k <= steps,
            managed@.wf(),
            free_slot(managed@, tiled@, class@, steps, 0) == free_slot(
                managed@,
                tiled@,
                class@,
                steps,
                k as int,
            ),
        decreases steps - k,
    {
        if !is_used(managed, tiled, class, k) {
            return Some(k);
        }
        k = k + 1;
    }
    None
}

/// How many of the first `n` windows are of this class.
pub open spec fn siblings_to(tiled: Seq<WinClass>, class: Seq<char>, n: int) -> int
    decreases n,
{
    if n <= 0 {
        0
    } else {
        siblings_to(tiled, class, n - 1) + (if fold_eq(tiled[n - 1].class@, class) {
            1int
        } else {
            0
        })
    }
}

/// How many tiled windows are of this class.
pub fn siblings(tiled: &Vec<WinClass>, class: &str) -> (n: usize)
    ensures
        n == siblings_to(tiled@, class@, tiled@.len() as int),
{
    let mut n: usize = 0;
    let mut k: usize = 0;
    while k < tiled.len()
        invariant
            k <= tiled@.len(),
            n <= k,
            n == siblings_to(tiled@, class@, k as int),
        decreases tiled@.len() - k,
    {
        if eq_ignore_ascii_case(tiled[k].class.as_str(), class) {
            n = n + 1;
        }
        k = k + 1;
    }
    n
}

/// The rotation a window is owed: it has an icon and a slot other than the
/// plain one, and no rotated variant yet.
pub open spec fn rotation_of(m: ManagedWindow) -> Option<(Win, usize, IconId)> {
    match (m.icon_rotated, m.icon_slot, m.icon) {
        (None, Some(slot), Some(icon)) => if slot != 0 {
            Some((m.win, slot, icon))
        } else {
            None
        },
        _ => None,
    }
}

/// The rotations owed among the first `n` windows of the class.
pub open spec fn rotations_to(s: Store, tiled: Seq<WinClass>, class: Seq<char>, n: int) -> Seq<
    (Win, usize, IconId),
>
    decreases n,
{
    if n <= 0 {
        Seq::empty()
    } else {
        let rest = rotations_to(s, tiled, class, n - 1);
        let w = tiled[n - 1].win;
        if fold_eq(tiled[n - 1].class@, class) && s.has(w) && rotation_of(s.entry(w)) is Some {
            rest.push(rotation_of(s.entry(w))->0)
        } else {
            rest
        }
    }
}

/// The hue-rotated variants to render, once the class has two windows open.
/// The first slot is no rotation and keeps the base icon; variants that
/// exist are kept.
pub fn refresh_icon_rotations(managed: &Managed, tiled: &Vec<WinClass>, class: &str) -> (out: Vec<
    (Win, usize, IconId),
>)
    requires
        managed@.wf(),
    ensures
        out@ == (if siblings_to(tiled@, class@, tiled@.len() as int) < 2 {
            Seq::empty()
        } else {
            rotations_to(managed@, tiled@, class@, tiled@.len() as int)
        }),
{
    let mut out: Vec<(Win, usize, IconId)> = Vec::new();
    if siblings(tiled, class) < 2 {
        return out;
    }
    let mut k: usize = 0;
    while k < tiled.len()
        invariant
            k <= tiled@.len(),
            managed@.wf(),
            out@ == rotations_to(managed@, tiled@, class@, k as int),
        decreases tiled@.len() - k,
    {
        let win: Win = tiled[k].win;
        if eq_ignore_ascii_case(tiled[k].class.as_str(), class) {
            if let Some(m) = managed.entry(win) {
                if m.icon_rotated.is_none() {
                    if let (Some(slot), Some(icon)) = (m.icon_slot, m.icon) {
                        if slot != 0 {
                            proof {
                                assert(managed@.sits(win, managed@.at(win)));
                            }
                            out.push((win, slot, icon));
                        }
                    }
                }
            }
        }
        k = k + 1;
    }
    out
}

/// What an icon that arrived calls for.
#[derive(Clone, Copy, PartialEq, Eq, Debug, Structural)]
pub enum IconStep {
    /// No icon, or its window closed while the fetch ran.
    Nothing,
    /// The rotations of the window's class are derived again.
    Rotations,
    /// Its float frame is due for a repaint.
    Repaint,
}

/// What an icon that was found asks for.
pub open spec fn icon_step(s: Store, r: IconResult) -> IconStep {
    if r.icon is None || !s.has(r.win) {
        IconStep::Nothing
    } else {
        match s.entry(r.win).kind {
            Kind::Tiled => IconStep::Rotations,
            Kind::Float(_) => IconStep::Repaint,
            Kind::Dock(_) => IconStep::Nothing,
        }
    }
}

/// The store once an icon was found.
pub open spec fn with_icon(s: Store, r: IconResult) -> Store {
    if r.icon is None || !s.has(r.win) {
        s
    } else {
        s.replaced(
            r.win,
            ManagedWindow { icon: r.icon, icon_rotated: None, ..s.entry(r.win) },
        )
    }
}

/// A fetched icon arrived, quantized as `icon`: it is stored, any rotated
/// variant of an older one is dropped.
pub fn on_icon_result(managed: &mut Managed, r: IconResult) -> (step: IconStep)
    requires
        old(managed)@.wf(),
    ensures
        final(managed)@.wf(),
        step == icon_step(old(managed)@, r),
        final(managed)@ == with_icon(old(managed)@, r),
{
    let icon = match r.icon {
        Some(icon) => icon,
        None => {
            return IconStep::Nothing;
        },
    };
    let (slot, step) = match managed.entry(r.win) {
        Some(m) => (
            m.icon_slot,
            match &m.kind {
                Kind::Tiled => IconStep::Rotations,
                Kind::Float(_) => IconStep::Repaint,
                Kind::Dock(_) => IconStep::Nothing,
            },
        ),
        None => {
            return IconStep::Nothing;
        },
    };
    managed.set_icons(r.win, Some(icon), None, slot);
    step
}

/// The icon a window is shown with.
pub open spec fn shown_icon(s: Store, tiled: Seq<WinClass>, win: Win, class: Seq<char>) -> Option<
    IconId,
> {
    if !s.has(win) {
        None
    } else {
        let m = s.entry(win);
        if siblings_to(tiled, class, tiled.len() as int) > 1 && m.icon_rotated is Some {
            m.icon_rotated
        } else {
            m.icon
        }
    }
}

/// The icon to draw for a window: the hue-rotated variant while another
/// window of its class is open, the plain icon otherwise.
pub fn icon_for(managed: &Managed, tiled: &Vec<WinClass>, win: Win, class: &str) -> (icon: Option<
    IconId,
>)
    requires
        managed@.wf(),
    ensures
        icon == shown_icon(managed@, tiled@, win, class@),
{
    match managed.entry(win) {
        None => None,
        Some(m) => if siblings(tiled, class) > 1 && m.icon_rotated.is_some() {
            m.icon_rotated
        } else {
            m.icon
        },
    }
}

/// Two windows of one app never share a hue slot: the slot a new window is
/// given is held by no other of its class.
pub proof fn hue_slots_are_distinct(
    s: Store,
    tiled: Seq<WinClass>,
    class: Seq<char>,
    steps: usize,
    other: int,
)
    requires
        free_slot(s, tiled, class, steps, 0) is Some,
        of_class(tiled, class, other),
        s.has(tiled[other].win),
    ensures
        s.entry(tiled[other].win).icon_slot != free_slot(s, tiled, class, steps, 0),
{
    lemma_free(s, tiled, class, steps, 0);
    let slot = free_slot(s, tiled, class, steps, 0)->0;
    assert(of_class(tiled, class, other));
    assert(!slot_used(s, tiled, class, slot));
}

proof fn lemma_free(s: Store, tiled: Seq<WinClass>, class: Seq<char>, steps: usize, k: int)
    requires
        0 <= k,
    ensures
        free_slot(s, tiled, class, steps, k) is Some ==> !slot_used(
            s,
            tiled,
            class,
            free_slot(s, tiled, class, steps, k)->0,
        ),
    decreases steps - k,
{
    if k < steps && slot_used(s, tiled, class, k as usize) {
        lemma_free(s, tiled, class, steps, k + 1);
    }
}

/// Law: a window gets the lowest hue that no window of its class has.
pub proof fn the_lowest_free_hue_is_taken(
    s: Store,
    tiled: Seq<WinClass>,
    class: Seq<char>,
    steps: usize,
    k: int,
    i: int,
)
    requires
        0 <= k <= i <= steps,
        forall|j: int| k <= j < i ==> slot_used(s, tiled, class, #[trigger] (j as usize)),
        i < steps ==> !slot_used(s, tiled, class, i as usize),
    ensures
        i < steps ==> free_slot(s, tiled, class, steps, k) == Some(i as usize),
        i == steps ==> free_slot(s, tiled, class, steps, k) is None,
    decreases i - k,
{
    if k < i {
        assert(slot_used(s, tiled, class, (k as usize)));
        the_lowest_free_hue_is_taken(s, tiled, class, steps, k + 1, i);
    }
}

/// Law: a window alone of its class is shown with its own icon, and so is the
/// first of several; the others are shown with a recoloured one as soon as
/// they have it.
pub proof fn icons_differ_only_among_siblings(
    s: Store,
    tiled: Seq<WinClass>,
    win: Win,
    class: Seq<char>,
)
    requires
        s.has(win),
    ensures
        siblings_to(tiled, class, tiled.len() as int) <= 1 ==> shown_icon(s, tiled, win, class)
            == s.entry(win).icon,
        s.entry(win).icon_rotated is None ==> shown_icon(s, tiled, win, class) == s.entry(win).icon,
        siblings_to(tiled, class, tiled.len() as int) > 1 && s.entry(win).icon_rotated is Some
            ==> shown_icon(s, tiled, win, class) == s.entry(win).icon_rotated,
        s.entry(win).icon_slot == Some(0usize) ==> rotation_of(s.entry(win)) is None,
        s.entry(win).icon_rotated is Some || s.entry(win).icon is None ==> rotation_of(s.entry(win))
            is None,
        rotation_of(s.entry(win)) is Some ==> (rotation_of(s.entry(win))->0).1
            == s.entry(win).icon_slot->0 && (rotation_of(s.entry(win))->0).2
            == s.entry(win).icon->0,
{
}

/// Law: the siblings of a class are the windows of that name in whatever
/// case, each counted once.
pub proof fn siblings_are_counted_once(tiled: Seq<WinClass>, class: Seq<char>, n: int)
    requires
        0 <= n < tiled.len(),
    ensures
        fold_eq(tiled[n].class@, class) ==> siblings_to(tiled, class, n + 1) == siblings_to(
            tiled,
            class,
            n,
        ) + 1,
        !fold_eq(tiled[n].class@, class) ==> siblings_to(tiled, class, n + 1) == siblings_to(
            tiled,
            class,
            n,
        ),
        siblings_to(tiled, class, 0) == 0,
{
}

/// Law: an icon that was found is its window's, and the recoloured one is
/// made anew; nothing is done for a window that is gone or an icon that is
/// not there. A tiled window's siblings are recoloured, a float's frame is
/// drawn again.
pub proof fn found_icons_reach_their_window(s: Store, r: IconResult)
    requires
        s.wf(),
    ensures
        s.has(r.win) && r.icon is Some ==> {
            let m = with_icon(s, r).entries[s.at(r.win)];
            &&& m.win == r.win
            &&& m.icon == r.icon
            &&& m.icon_rotated is None
            &&& m.icon_slot == s.entry(r.win).icon_slot
            &&& m.kind == s.entry(r.win).kind
        },
        s.is_tiled(r.win) && r.icon is Some ==> icon_step(s, r) is Rotations,
        s.is_float(r.win) && r.icon is Some ==> icon_step(s, r) is Repaint,
        s.is_dock(r.win) ==> icon_step(s, r) is Nothing,
        !s.has(r.win) || r.icon is None ==> icon_step(s, r) is Nothing && with_icon(s, r) == s,
{
    if s.has(r.win) {
        assert(s.sits(r.win, s.at(r.win)));
    }
}

} // verus!
