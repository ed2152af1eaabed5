//! What the notification ledger promises over time.

use super::{
    expired_to, lemma_fresh, lemma_without_distinct, lemma_without_id, minus_dismissed, minus_ids,
    outstanding, without_id, CloseReason, Entry, Ledger, MAX_NOTES,
};
use vstd::prelude::*;

verus! {

proof fn lemma_minus_dismissed(notes: Seq<Entry>, dismissed: Seq<(u32, CloseReason)>, n: int)
    requires
        0 <= n <= dismissed.len(),
    ensures
        forall|e: Entry| #[trigger]
            minus_dismissed(notes, dismissed, n).contains(e) <==> notes.contains(e) && (forall|j: int|
                0 <= j < n ==> (#[trigger] dismissed[j]).0 != e.id),
    decreases n,
{
    if n > 0 {
        lemma_minus_dismissed(notes, dismissed, n - 1);
        let before = minus_dismissed(notes, dismissed, n - 1);
        let after = minus_dismissed(notes, dismissed, n);
        let id = dismissed[n - 1].0;
        lemma_without_id(before, id);
        assert forall|e: Entry| #[trigger] after.contains(e) <==> notes.contains(e) && (forall|
            j: int,
        |
            0 <= j < n ==> (#[trigger] dismissed[j]).0 != e.id) by {
            if after.contains(e) {
                assert(before.contains(e) && e.id != id);
            }
            if notes.contains(e) && (forall|j: int|
                0 <= j < n ==> (#[trigger] dismissed[j]).0 != e.id) {
                assert(before.contains(e));
                assert(dismissed[n - 1].0 != e.id);
            }
        }
    }
}

proof fn lemma_minus_ids(notes: Seq<Entry>, ids: Seq<u32>, n: int)
    requires
        0 <= n <= ids.len(),
    ensures
        forall|e: Entry| #[trigger]
            minus_ids(notes, ids, n).contains(e) <==> notes.contains(e) && (forall|j: int|
                0 <= j < n ==> #[trigger] ids[j] != e.id),
    decreases n,
{
    if n > 0 {
        lemma_minus_ids(notes, ids, n - 1);
        let before = minus_ids(notes, ids, n - 1);
        let after = minus_ids(notes, ids, n);
        lemma_without_id(before, ids[n - 1]);
        assert forall|e: Entry| #[trigger] after.contains(e) <==> notes.contains(e) && (forall|
            j: int,
        |
            0 <= j < n ==> #[trigger] ids[j] != e.id) by {
            if after.contains(e) {
                assert(before.contains(e) && e.id != ids[n - 1]);
            }
            if notes.contains(e) && (forall|j: int| 0 <= j < n ==> #[trigger] ids[j] != e.id) {
                assert(before.contains(e));
                assert(ids[n - 1] != e.id);
            }
        }
    }
}

proof fn lemma_expired_to(notes: Seq<Entry>, now: u64, n: int)
    requires
        0 <= n <= notes.len(),
    ensures
        forall|id: u32| #[trigger]
            expired_to(notes, now, n).contains(id) <==> exists|i: int|
                0 <= i < n && (#[trigger] notes[i]).id == id && notes[i].expiry is Some
                    && notes[i].expiry->0 <= now,
    decreases n,
{
    if n > 0 {
        lemma_expired_to(notes, now, n - 1);
        let before = expired_to(notes, now, n - 1);
        let after = expired_to(notes, now, n);
        let e = notes[n - 1];
        assert forall|id: u32| #[trigger] after.contains(id) <==> exists|i: int|
            0 <= i < n && (#[trigger] notes[i]).id == id && notes[i].expiry is Some
                && notes[i].expiry->0 <= now by {
            if after.contains(id) {
                let k = choose|k: int| 0 <= k < after.len() && after[k] == id;
                if k < before.len() {
                    assert(before[k] == id);
                    assert(before.contains(id));
                } else {
                    assert(notes[n - 1].id == id);
                }
            }
            if exists|i: int|
                0 <= i < n && (#[trigger] notes[i]).id == id && notes[i].expiry is Some
                    && notes[i].expiry->0 <= now {
                let i = choose|i: int|
                    0 <= i < n && (#[trigger] notes[i]).id == id && notes[i].expiry is Some
                        && notes[i].expiry->0 <= now;
                if i < n - 1 {
                    assert(before.contains(id));
                    let k = choose|k: int| 0 <= k < before.len() && before[k] == id;
                    assert(after[k] == id);
                } else {
                    assert(after[before.len() as int] == id);
                }
            }
        }
    } else {
        assert(expired_to(notes, now, n).len() == 0);
    }
}

/// What a tick does to one note, given by its entry.
proof fn lemma_tick(s: Ledger, e: Entry, dismissed: Seq<(u32, CloseReason)>, then: u64)
    requires
        s.wf(),
        s.notes.contains(e),
        forall|j: int| 0 <= j < dismissed.len() ==> (#[trigger] dismissed[j]).0 != e.id,
    ensures
        s.due(dismissed, then).contains(e.id) <==> e.expiry is Some && e.expiry->0 <= then,
        outstanding(s.ticked(dismissed, then).notes, e.id) <==> !(e.expiry is Some && e.expiry->0
            <= then),
        e.expiry is Some && e.expiry->0 <= then ==> s.signals(dismissed, then).contains(
            (e.id, CloseReason::Expired),
        ),
{
    let left = minus_dismissed(s.notes, dismissed, dismissed.len() as int);
    let gone = s.due(dismissed, then);
    let after = s.ticked(dismissed, then).notes;
    lemma_minus_dismissed(s.notes, dismissed, dismissed.len() as int);
    lemma_expired_to(left, then, left.len() as int);
    lemma_minus_ids(left, gone, gone.len() as int);
    assert(left.contains(e));
    let k = choose|k: int| 0 <= k < left.len() && left[k] == e;
    assert(left[k].id == e.id);
    assert forall|f: Entry| s.notes.contains(f) && f.id == e.id implies f == e by {
        let a = choose|a: int| 0 <= a < s.notes.len() && s.notes[a] == f;
        let b = choose|b: int| 0 <= b < s.notes.len() && s.notes[b] == e;
        if a < b {
            assert(s.notes[a].id != s.notes[b].id);
        } else if b < a {
            assert(s.notes[b].id != s.notes[a].id);
        }
    }
    if gone.contains(e.id) {
        let i = choose|i: int|
            0 <= i < left.len() && (#[trigger] left[i]).id == e.id && left[i].expiry is Some
                && left[i].expiry->0 <= then;
        assert(left.contains(left[i]));
        assert(left[i] == e);
    }
    if e.expiry is Some && e.expiry->0 <= then {
        assert(gone.contains(e.id));
        let j = choose|j: int| 0 <= j < gone.len() && gone[j] == e.id;
        let told = gone.map_values(|id: u32| (id, CloseReason::Expired));
        assert(told[j] == (e.id, CloseReason::Expired));
        assert(s.signals(dismissed, then)[dismissed.len() + j] == told[j]);
        if outstanding(after, e.id) {
            let i = choose|i: int| 0 <= i < after.len() && (#[trigger] after[i]).id == e.id;
            assert(after.contains(after[i]));
            assert(gone[j] != after[i].id);
        }
    } else {
        assert(!gone.contains(e.id));
        assert(after.contains(e)) by {
            assert forall|j: int| 0 <= j < gone.len() implies #[trigger] gone[j] != e.id by {
                assert(gone.contains(gone[j]));
            }
        }
        let i = choose|i: int| 0 <= i < after.len() && after[i] == e;
        assert(after[i].id == e.id);
    }
}

/// A note just taken in is outstanding, under its id and with its expiry.
proof fn lemma_taken(
    s: Ledger,
    replaces_id: u32,
    sender: Seq<char>,
    urgency: u8,
    timeout: i32,
    now: int,
)
    requires
        s.wf(),
    ensures
        ({
            let n = s.taken(replaces_id, sender, urgency, timeout, now);
            let e = s.entry_for(replaces_id, sender, urgency, timeout, now);
            &&& n.wf()
            &&& n.notes.len() > 0
            &&& n.notes.last() == e
            &&& n.notes.contains(e)
        }),
{
    let n = s.taken(replaces_id, sender, urgency, timeout, now);
    let e = s.entry_for(replaces_id, sender, urgency, timeout, now);
    lemma_fresh(s.notes, s.next_id, 1);
    lemma_without_id(s.notes, e.id);
    lemma_without_distinct(s.notes, e.id);
    let kept = without_id(s.notes, e.id);
    let all = kept.push(e);
    let off: int = if all.len() > MAX_NOTES {
        1
    } else {
        0
    };
    assert(e.id != 0);
    assert forall|i: int| 0 <= i < n.notes.len() implies (#[trigger] n.notes[i]) == all[i + off] by {}
    assert forall|i: int| 0 <= i < n.notes.len() implies (#[trigger] n.notes[i]).id != 0 by {
        if i + off < kept.len() {
            assert(s.notes.contains(kept[i + off]));
        }
    }
    assert forall|i: int, j: int|
        #![trigger n.notes[i], n.notes[j]]
        0 <= i < j < n.notes.len() implies n.notes[i].id != n.notes[j].id by {
        if j + off < kept.len() {
            assert(kept[i + off].id != kept[j + off].id);
        } else {
            assert(kept[i + off].id != e.id);
        }
    }
    assert(n.notes[n.notes.len() - 1] == e);
}

/// Law: a note below critical urgency with a timeout of `timeout`
/// milliseconds, taken in at `now`, expires exactly from `now + timeout` on:
/// a tick before then keeps it, and a tick at or after then reports it
/// expired and drops it. A negative timeout stands for five seconds.
pub proof fn notes_expire_on_time(
    s: Ledger,
    replaces_id: u32,
    sender: Seq<char>,
    urgency: u8,
    timeout: i32,
    now: u64,
    dismissed: Seq<(u32, CloseReason)>,
    then: u64,
)
    requires
        s.wf(),
        now <= 0xffff_ffff_0000_0000,
        urgency < 2,
        timeout != 0,
        forall|j: int|
            0 <= j < dismissed.len() ==> (#[trigger] dismissed[j]).0 != s.id_for(
                replaces_id,
                sender,
            ),
    ensures
        ({
            let n = s.taken(replaces_id, sender, urgency, timeout, now as int);
            let id = s.id_for(replaces_id, sender);
            let wait = if timeout > 0 {
                timeout as int
            } else {
                5000
            };
            &&& then < now + wait ==> !n.due(dismissed, then).contains(id) && outstanding(
                n.ticked(dismissed, then).notes,
                id,
            )
            &&& then >= now + wait ==> n.due(dismissed, then).contains(id) && n.signals(
                dismissed,
                then,
            ).contains((id, CloseReason::Expired)) && !outstanding(
                n.ticked(dismissed, then).notes,
                id,
            )
        }),
{
    lemma_taken(s, replaces_id, sender, urgency, timeout, now as int);
    let n = s.taken(replaces_id, sender, urgency, timeout, now as int);
    let e = s.entry_for(replaces_id, sender, urgency, timeout, now as int);
    lemma_tick(n, e, dismissed, then);
}

/// Law: no tick ever expires a critical note, nor one that asked for no
/// timeout: it stays until it is dismissed, closed or pushed out.
pub proof fn notes_without_a_timeout_stay(
    s: Ledger,
    replaces_id: u32,
    sender: Seq<char>,
    urgency: u8,
    timeout: i32,
    now: u64,
    dismissed: Seq<(u32, CloseReason)>,
    then: u64,
)
    requires
        s.wf(),
        urgency >= 2 || timeout == 0,
        forall|j: int|
            0 <= j < dismissed.len() ==> (#[trigger] dismissed[j]).0 != s.id_for(
                replaces_id,
                sender,
            ),
    ensures
        ({
            let n = s.taken(replaces_id, sender, urgency, timeout, now as int);
            let id = s.id_for(replaces_id, sender);
            &&& !n.due(dismissed, then).contains(id)
            &&& outstanding(n.ticked(dismissed, then).notes, id)
        }),
{
    lemma_taken(s, replaces_id, sender, urgency, timeout, now as int);
    let n = s.taken(replaces_id, sender, urgency, timeout, now as int);
    let e = s.entry_for(replaces_id, sender, urgency, timeout, now as int);
    lemma_tick(n, e, dismissed, then);
}

/// Law: a dismissed note is gone after the tick, is reported with the reason
/// it was dismissed for, and is not also reported as expired.
pub proof fn dismissed_notes_leave_once(
    s: Ledger,
    dismissed: Seq<(u32, CloseReason)>,
    then: u64,
    j: int,
)
    requires
        s.wf(),
        0 <= j < dismissed.len(),
    ensures
        !outstanding(s.ticked(dismissed, then).notes, dismissed[j].0),
        s.signals(dismissed, then)[j] == dismissed[j],
        !s.due(dismissed, then).contains(dismissed[j].0),
{
    let left = minus_dismissed(s.notes, dismissed, dismissed.len() as int);
    let gone = s.due(dismissed, then);
    let after = s.ticked(dismissed, then).notes;
    let id = dismissed[j].0;
    lemma_minus_dismissed(s.notes, dismissed, dismissed.len() as int);
    lemma_expired_to(left, then, left.len() as int);
    lemma_minus_ids(left, gone, gone.len() as int);
    if gone.contains(id) {
        let i = choose|i: int|
            0 <= i < left.len() && (#[trigger] left[i]).id == id && left[i].expiry is Some
                && left[i].expiry->0 <= then;
        assert(left.contains(left[i]));
    }
    if outstanding(after, id) {
        let i = choose|i: int| 0 <= i < after.len() && (#[trigger] after[i]).id == id;
        assert(after.contains(after[i]));
        assert(left.contains(after[i]));
    }
}

/// Law: a tick hands out every signal that was owed, and owes nothing after.
pub proof fn a_tick_owes_nothing(
    s: Ledger,
    dismissed: Seq<(u32, CloseReason)>,
    then: u64,
    j: int,
)
    requires
        0 <= j < s.pending.len(),
    ensures
        s.signals(dismissed, then).contains(s.pending[j]),
        s.ticked(dismissed, then).pending.len() == 0,
{
    let at = dismissed.len() + s.due(dismissed, then).len() + j;
    assert(s.signals(dismissed, then)[at] == s.pending[j]);
}

/// Law: a note closed on request is gone and reported as closed; the others
/// stay as they were.
pub proof fn closing_a_note_closes_only_it(s: Ledger, id: u32, e: Entry)
    requires
        s.notes.contains(e),
    ensures
        !outstanding(s.closed(id).notes, id),
        e.id != id ==> s.closed(id).notes.contains(e),
        s.closed(id).pending.last() == (id, CloseReason::Closed),
        s.closed(id).next_id == s.next_id,
{
    lemma_without_id(s.notes, id);
}

/// Law: a ninth note pushes out the oldest one, which is reported closed for
/// no stated reason; all the others stay, in their order, and the new note
/// is the newest.
pub proof fn the_oldest_note_is_pushed_out(
    s: Ledger,
    replaces_id: u32,
    sender: Seq<char>,
    urgency: u8,
    timeout: i32,
    now: int,
)
    requires
        s.wf(),
        !outstanding(s.notes, s.id_for(replaces_id, sender)),
    ensures
        ({
            let n = s.taken(replaces_id, sender, urgency, timeout, now);
            &&& n.notes.last().id == s.id_for(replaces_id, sender)
            &&& n.notes.last().owner == sender
            &&& s.notes.len() < 8 ==> n.notes.drop_last() == s.notes && n.pending == s.pending
            &&& s.notes.len() == 8 ==> n.notes.drop_last() == s.notes.drop_first() && n.pending
                == s.pending.push((s.notes[0].id, CloseReason::Undefined))
        }),
{
    lemma_taken(s, replaces_id, sender, urgency, timeout, now);
    let n = s.taken(replaces_id, sender, urgency, timeout, now);
    let e = s.entry_for(replaces_id, sender, urgency, timeout, now);
    lemma_without_id(s.notes, e.id);
    let all = s.notes.push(e);
    assert(without_id(s.notes, e.id).push(e) == all);
    if s.notes.len() < 8 {
        assert(n.notes.drop_last() =~= s.notes);
    } else {
        assert(n.notes.drop_last() =~= s.notes.drop_first());
    }
}

/// Law: a note that replaces none of its sender's own gets the next number
/// after the last one given, skipping zero and every number still in use.
pub proof fn fresh_ids_count_up(s: Ledger, replaces_id: u32, sender: Seq<char>)
    requires
        s.wf(),
        s.id_for(replaces_id, sender) != replaces_id || replaces_id == 0,
    ensures
        ({
            let id = s.id_for(replaces_id, sender);
            let next = if s.next_id == u32::MAX {
                1u32
            } else {
                (s.next_id + 1) as u32
            };
            &&& id != 0
            &&& !outstanding(s.notes, id)
            &&& !outstanding(s.notes, next) ==> id == next
            &&& s.next_after(replaces_id, sender) == id
        }),
{
    lemma_fresh(s.notes, s.next_id, 1);
}

} // verus!
