//! The notification ledger: id allocation, replacement, expiry and the
//! closed signals owed, without the bus they travel on.

use crate::text::same_str;
use vstd::prelude::*;
use vstd::string::*;

pub mod laws;

verus! {

/// What "server decides" becomes, in milliseconds.
pub const DEFAULT_TIMEOUT_MS: u64 = 5000;

/// Cap on outstanding notifications; the oldest is evicted past this.
pub const MAX_NOTES: usize = 8;

/// Cap on the characters of a summary or a body.
pub const NOTE_TEXT_CAP: usize = 4096;

/// Why a notification closed.
#[derive(Clone, Copy, PartialEq, Eq, Debug, Structural)]
pub enum CloseReason {
    /// Its timeout elapsed.
    Expired,
    /// The user dismissed it.
    Dismissed,
    /// A call closed it.
    Closed,
    /// Evicted for space.
    Undefined,
}

impl CloseReason {
    /// The reason's number on the bus.
    pub open spec fn code(self) -> u32 {
        match self {
            CloseReason::Expired => 1,
            CloseReason::Dismissed => 2,
            CloseReason::Closed => 3,
            CloseReason::Undefined => 4,
        }
    }

    /// The reason's number on the bus.
    pub fn number(self) -> (n: u32)
        ensures
            n == self.code(),
    {
        match self {
            CloseReason::Expired => 1,
            CloseReason::Dismissed => 2,
            CloseReason::Closed => 3,
            CloseReason::Undefined => 4,
        }
    }
}

/// One notification's payload, as the compositor renders it.
#[derive(Debug)]
pub struct Note {
    pub id: u32,
    pub summary: String,
    pub body: String,
    /// 0 low, 1 normal, 2 critical.
    pub urgency: u8,
}

/// What the daemon tells the compositor.
#[derive(Debug)]
pub enum NoteMsg {
    Show(Note),
    Close(u32),
}

/// Why a close request fails.
#[derive(Clone, Copy, PartialEq, Eq, Debug, Structural)]
pub enum CloseError {
    NoSuchNotification,
}

/// The first `cap` characters of `s`.
pub fn cap_chars(s: &str, cap: usize) -> (t: &str)
    ensures
        t@ == (if s@.len() <= cap {
            s@
        } else {
            s@.take(cap as int)
        }),
{
    let n: usize = s.unicode_len();
    if n <= cap {
        s
    } else {
        let t = s.substring_char(0, cap);
        proof {
            assert(s@.subrange(0, cap as int) =~= s@.take(cap as int));
        }
        t
    }
}

/// `s` without anything past its first `cap` characters.
pub open spec fn capped(s: Seq<char>, cap: int) -> Seq<char> {
    if s.len() <= cap {
        s
    } else {
        s.take(cap)
    }
}

/// One outstanding notification.
pub struct Outstanding {
    pub id: u32,
    /// Bus name of the caller; a replacement is honoured only for the same
    /// sender.
    pub owner: String,
    /// When the note closes by itself, in milliseconds; never if `None`.
    pub expiry: Option<u64>,
}

/// What an outstanding notification is.
pub struct Entry {
    pub id: u32,
    pub owner: Seq<char>,
    pub expiry: Option<u64>,
}

impl Outstanding {
    pub open spec fn v(self) -> Entry {
        Entry { id: self.id, owner: self.owner@, expiry: self.expiry }
    }
}

/// The ledger of outstanding notifications.
pub struct Notifications {
    next_id: u32,
    notes: Vec<Outstanding>,
    /// Closed signals queued for the next tick.
    pending_closed: Vec<(u32, CloseReason)>,
}

/// What the ledger is: the newest id handed out, the outstanding
/// notifications, oldest first, and the closed signals owed.
#[verifier::ext_equal]
pub struct Ledger {
    pub next_id: u32,
    pub notes: Seq<Entry>,
    pub pending: Seq<(u32, CloseReason)>,
}

/// Whether some entry has this id.
pub open spec fn outstanding(notes: Seq<Entry>, id: u32) -> bool {
    exists|i: int| 0 <= i < notes.len() && (#[trigger] notes[i]).id == id
}

/// Whether some entry has this id and this owner.
pub open spec fn owned(notes: Seq<Entry>, id: u32, owner: Seq<char>) -> bool {
    exists|i: int|
        0 <= i < notes.len() && (#[trigger] notes[i]).id == id && notes[i].owner == owner
}

/// `notes` without the entries of this id.
pub open spec fn without_id(notes: Seq<Entry>, id: u32) -> Seq<Entry>
    decreases notes.len(),
{
    if notes.len() == 0 {
        notes
    } else if notes.last().id == id {
        without_id(notes.drop_last(), id)
    } else {
        without_id(notes.drop_last(), id).push(notes.last())
    }
}

/// The `j`th id after `next`, counting up and wrapping from the largest to
/// one: zero is never handed out.
pub open spec fn nth_id(next: u32, j: int) -> u32 {
    if next + j <= u32::MAX {
        (next + j) as u32
    } else {
        (next + j - u32::MAX) as u32
    }
}

/// The first id after `next`, from the `j`th on, that no entry has.
pub open spec fn fresh_from(notes: Seq<Entry>, next: u32, j: int) -> u32
    decreases notes.len() + 1 - j,
{
    if j > notes.len() || !outstanding(notes, nth_id(next, j)) {
        nth_id(next, j)
    } else {
        fresh_from(notes, next, j + 1)
    }
}

impl Ledger {
    /// At most `MAX_NOTES` notifications are outstanding, under distinct
    /// ids, none of them zero.
    pub open spec fn wf(self) -> bool {
        &&& self.notes.len() <= MAX_NOTES
        &&& forall|i: int| 0 <= i < self.notes.len() ==> (#[trigger] self.notes[i]).id != 0
        &&& forall|i: int, j: int|
            #![trigger self.notes[i], self.notes[j]]
            0 <= i < j < self.notes.len() ==> self.notes[i].id != self.notes[j].id
    }

    /// The id a notification gets: the one it replaces, if its sender owns
    /// that, else a fresh one.
    pub open spec fn id_for(self, replaces_id: u32, sender: Seq<char>) -> u32 {
        if replaces_id != 0 && owned(self.notes, replaces_id, sender) {
            replaces_id
        } else {
            fresh_from(self.notes, self.next_id, 1)
        }
    }

    /// The newest id handed out after that.
    pub open spec fn next_after(self, replaces_id: u32, sender: Seq<char>) -> u32 {
        if replaces_id != 0 && owned(self.notes, replaces_id, sender) {
            self.next_id
        } else {
            fresh_from(self.notes, self.next_id, 1)
        }
    }

    /// The entries with one more: an entry of the same id moves to newest,
    /// and past the cap the oldest goes.
    pub open spec fn noted(self, e: Entry) -> Seq<Entry> {
        let all = without_id(self.notes, e.id).push(e);
        if all.len() > MAX_NOTES {
            all.remove(0)
        } else {
            all
        }
    }

    /// The id evicted to make room for one more.
    pub open spec fn evicted(self, e: Entry) -> Option<u32> {
        let all = without_id(self.notes, e.id).push(e);
        if all.len() > MAX_NOTES {
            Some(all[0].id)
        } else {
            None
        }
    }
}

/// When a notification expires: never if critical or asked not to, else
/// after the timeout asked for, or the default.
pub open spec fn expiry_of(urgency: u8, timeout: i32, now: int) -> Option<u64> {
    if urgency >= 2 || timeout == 0 {
        None
    } else if timeout > 0 {
        Some((now + timeout) as u64)
    } else {
        Some((now + DEFAULT_TIMEOUT_MS) as u64)
    }
}

/// The urgency a hint gives; normal without one.
pub open spec fn urgency_of(hint: Option<u8>) -> u8 {
    match hint {
        Some(u) => u,
        None => 1,
    }
}

impl Ledger {
    /// The entry a notification taken in at `now` becomes.
    pub open spec fn entry_for(
        self,
        replaces_id: u32,
        sender: Seq<char>,
        urgency: u8,
        timeout: i32,
        now: int,
    ) -> Entry {
        Entry {
            id: self.id_for(replaces_id, sender),
            owner: sender,
            expiry: expiry_of(urgency, timeout, now),
        }
    }

    /// The ledger once a notification was taken in at `now`.
    pub open spec fn taken(
        self,
        replaces_id: u32,
        sender: Seq<char>,
        urgency: u8,
        timeout: i32,
        now: int,
    ) -> Ledger {
        let e = self.entry_for(replaces_id, sender, urgency, timeout, now);
        Ledger {
            next_id: self.next_after(replaces_id, sender),
            notes: self.noted(e),
            pending: match self.evicted(e) {
                Some(id) => self.pending.push((id, CloseReason::Undefined)),
                None => self.pending,
            },
        }
    }

    /// The ledger once the notification `id` was closed on request.
    pub open spec fn closed(self, id: u32) -> Ledger {
        Ledger {
            notes: without_id(self.notes, id),
            pending: self.pending.push((id, CloseReason::Closed)),
            ..self
        }
    }

    /// The ids that expire in a tick at `now`, oldest first.
    pub open spec fn due(self, dismissed: Seq<(u32, CloseReason)>, now: u64) -> Seq<u32> {
        let left = minus_dismissed(self.notes, dismissed, dismissed.len() as int);
        expired_to(left, now, left.len() as int)
    }

    /// The signals a tick at `now` hands out.
    pub open spec fn signals(self, dismissed: Seq<(u32, CloseReason)>, now: u64) -> Seq<
        (u32, CloseReason),
    > {
        dismissed + self.due(dismissed, now).map_values(|id: u32| (id, CloseReason::Expired))
            + self.pending
    }

    /// The ledger after a tick at `now`.
    pub open spec fn ticked(self, dismissed: Seq<(u32, CloseReason)>, now: u64) -> Ledger {
        let left = minus_dismissed(self.notes, dismissed, dismissed.len() as int);
        let gone = self.due(dismissed, now);
        Ledger {
            next_id: self.next_id,
            notes: minus_ids(left, gone, gone.len() as int),
            pending: Seq::empty(),
        }
    }
}

impl View for Notifications {
    type V = Ledger;

    closed spec fn view(&self) -> Ledger {
        Ledger {
            next_id: self.next_id,
            notes: self.notes@.map_values(|o: Outstanding| o.v()),
            pending: self.pending_closed@,
        }
    }
}

/// Leaving an id out keeps the other entries, in their order.
pub proof fn lemma_without_id(notes: Seq<Entry>, id: u32)
    ensures
        without_id(notes, id).len() <= notes.len(),
        outstanding(notes, id) ==> without_id(notes, id).len() < notes.len(),
        forall|i: int| 0 <= i < without_id(notes, id).len() ==> (#[trigger] without_id(
            notes,
            id,
        )[i]).id != id,
        forall|i: int|
            0 <= i < without_id(notes, id).len() ==> notes.contains(
                #[trigger] without_id(notes, id)[i],
            ),
        forall|e: Entry| #[trigger]
            notes.contains(e) && e.id != id ==> without_id(notes, id).contains(e),
        !outstanding(notes, id) ==> without_id(notes, id) == notes,
    decreases notes.len(),
{
    if notes.len() > 0 {
        let rest = notes.drop_last();
        let out = without_id(notes, id);
        let part = without_id(rest, id);
        lemma_without_id(rest, id);
        assert(notes =~= rest.push(notes.last()));
        assert forall|e: Entry| #[trigger] notes.contains(e) && e.id != id implies out.contains(
            e,
        ) by {
            let i = choose|i: int| 0 <= i < notes.len() && notes[i] == e;
            if i < rest.len() {
                assert(rest[i] == e);
                assert(rest.contains(e));
                let k = choose|k: int| 0 <= k < part.len() && part[k] == e;
                assert(out[k] == e);
            } else {
                assert(out[out.len() - 1] == e);
            }
        }
        assert forall|i: int| 0 <= i < out.len() implies notes.contains(#[trigger] out[i]) by {
            if i < part.len() {
                assert(out[i] == part[i]);
                assert(rest.contains(part[i]));
                let k = choose|k: int| 0 <= k < rest.len() && rest[k] == part[i];
                assert(notes[k] == out[i]);
            } else {
                assert(notes[notes.len() - 1] == out[i]);
            }
        }
        if outstanding(notes, id) && notes.last().id != id {
            let i = choose|i: int| 0 <= i < notes.len() && (#[trigger] notes[i]).id == id;
            assert(rest[i].id == id);
            assert(outstanding(rest, id));
        }
        if !outstanding(notes, id) {
            assert(notes[notes.len() - 1].id != id);
            if outstanding(rest, id) {
                let i = choose|i: int| 0 <= i < rest.len() && (#[trigger] rest[i]).id == id;
                assert(notes[i].id == id);
            }
            assert(out =~= notes);
        }
    }
}

proof fn lemma_without_distinct(notes: Seq<Entry>, id: u32)
    requires
        forall|i: int, j: int|
            #![trigger notes[i], notes[j]]
            0 <= i < j < notes.len() ==> notes[i].id != notes[j].id,
    ensures
        forall|i: int, j: int|
            #![trigger without_id(notes, id)[i], without_id(notes, id)[j]]
            0 <= i < j < without_id(notes, id).len() ==> without_id(notes, id)[i].id != without_id(
                notes,
                id,
            )[j].id,
    decreases notes.len(),
{
    if notes.len() > 0 {
        let rest = notes.drop_last();
        let out = without_id(notes, id);
        let part = without_id(rest, id);
        assert forall|i: int, j: int|
            #![trigger rest[i], rest[j]]
            0 <= i < j < rest.len() implies rest[i].id != rest[j].id by {
            assert(notes[i].id != notes[j].id);
        }
        lemma_without_distinct(rest, id);
        lemma_without_id(rest, id);
        assert forall|i: int, j: int|
            #![trigger out[i], out[j]]
            0 <= i < j < out.len() implies out[i].id != out[j].id by {
            if j < part.len() {
                assert(part[i].id != part[j].id);
            } else {
                assert(rest.contains(part[i]));
                let k = choose|k: int| 0 <= k < rest.len() && rest[k] == part[i];
                assert(notes[k].id != notes[notes.len() - 1].id);
            }
        }
    }
}

/// Among the ids after `next`, one more than there are entries, some id is
/// free.
proof fn lemma_some_free(notes: Seq<Entry>, next: u32)
    requires
        notes.len() < u32::MAX,
    ensures
        exists|j: int|
            1 <= j <= notes.len() + 1 && !outstanding(notes, #[trigger] nth_id(next, j)),
{
    if forall|j: int|
        1 <= j <= notes.len() + 1 ==> outstanding(notes, #[trigger] nth_id(next, j)) {
        let n = notes.len();
        let tried = Seq::new(n + 1, |i: int| nth_id(next, i + 1));
        let taken = notes.map_values(|e: Entry| e.id);
        assert(tried.no_duplicates());
        tried.unique_seq_to_set();
        taken.lemma_cardinality_of_set();
        assert(tried.to_set().subset_of(taken.to_set())) by {
            assert forall|x: u32| tried.to_set().contains(x) implies taken.to_set().contains(x) by {
                let i = choose|i: int| 0 <= i < tried.len() && tried[i] == x;
                assert(outstanding(notes, nth_id(next, i + 1)));
                let k = choose|k: int| 0 <= k < notes.len() && (#[trigger] notes[k]).id == x;
                assert(taken[k] == x);
            }
        }
        vstd::set_lib::lemma_len_subset(tried.to_set(), taken.to_set());
    }
}

/// A fresh id is not outstanding and not zero.
proof fn lemma_fresh(notes: Seq<Entry>, next: u32, j: int)
    requires
        notes.len() < u32::MAX,
        1 <= j <= notes.len() + 1,
        forall|i: int| 1 <= i < j ==> outstanding(notes, #[trigger] nth_id(next, i)),
    ensures
        !outstanding(notes, fresh_from(notes, next, j)),
        fresh_from(notes, next, j) != 0,
    decreases notes.len() + 1 - j,
{
    if outstanding(notes, nth_id(next, j)) {
        if j > notes.len() {
            assert forall|i: int| 1 <= i <= notes.len() + 1 implies outstanding(
                notes,
                #[trigger] nth_id(next, i),
            ) by {}
            lemma_some_free(notes, next);
        } else {
            lemma_fresh(notes, next, j + 1);
        }
    }
}

impl Notifications {
    /// An empty ledger.
    pub fn new() -> (n: Notifications)
        ensures
            n@.wf(),
            n@ == (Ledger { next_id: 0, notes: Seq::empty(), pending: Seq::empty() }),
    {
        let n = Notifications { next_id: 0, notes: Vec::new(), pending_closed: Vec::new() };
        proof {
            assert(n@.notes =~= Seq::empty());
            assert(n@.pending =~= Seq::empty());
        }
        n
    }

    fn is_outstanding(&self, id: u32) -> (b: bool)
        ensures
            b == outstanding(self@.notes, id),
    {
        let mut k: usize = 0;
        while k < self.notes.len()
            invariant
                k <= self.notes@.len(),
                self@.notes.len() == self.notes@.len(),
                forall|i: int| 0 <= i < k ==> (#[trigger] self@.notes[i]).id != id,
            decreases self.notes@.len() - k,
        {
            if self.notes[k].id == id {
                assert(self@.notes[k as int].id == id);
                return true;
            }
            k = k + 1;
        }
        false
    }

    fn is_owned(&self, id: u32, owner: &str) -> (b: bool)
        ensures
            b == owned(self@.notes, id, owner@),
    {
        let mut k: usize = 0;
        while k < self.notes.len()
            invariant
                k <= self.notes@.len(),
                self@.notes.len() == self.notes@.len(),
                forall|i: int|
                    0 <= i < k ==> !((#[trigger] self@.notes[i]).id == id && self@.notes[i].owner
                        == owner@),
            decreases self.notes@.len() - k,
        {
            if self.notes[k].id == id && same_str(self.notes[k].owner.as_str(), owner) {
                assert(self@.notes[k as int].id == id);
                return true;
            }
            k = k + 1;
        }
        false
    }

    /// The id for a notification. A replacement keeps its id only for the
    /// sender that owns it; otherwise a fresh id is taken, skipping any
    /// outstanding one, so that a wrapped counter can never alias a
    /// notification that never expires.
    pub fn allocate_id(&mut self, replaces_id: u32, sender: &str) -> (id: u32)
        requires
            old(self)@.wf(),
        ensures
            id == old(self)@.id_for(replaces_id, sender@),
            id != 0,
            replaces_id != id ==> !outstanding(old(self)@.notes, id),
            final(self)@ == (Ledger {
                next_id: old(self)@.next_after(replaces_id, sender@),
                ..old(self)@
            }),
    {
        if replaces_id != 0 && self.is_owned(replaces_id, sender) {
            return replaces_id;
        }
        let ghost was = self@;
        let ghost next = self.next_id;
        let ghost mut j: int = 1;
        let mut cand: u32 = if self.next_id == u32::MAX {
            1
        } else {
            self.next_id + 1
        };
        while self.is_outstanding(cand)
            invariant
                was.wf(),
                self@ == was,
                1 <= j <= was.notes.len() + 1,
                cand == nth_id(next, j),
                forall|i: int| 1 <= i < j ==> outstanding(was.notes, #[trigger] nth_id(next, i)),
                fresh_from(was.notes, next, 1) == fresh_from(was.notes, next, j),
            decreases was.notes.len() + 1 - j,
        {
            proof {
                if j == was.notes.len() + 1 {
                    lemma_some_free(was.notes, next);
                }
                j = j + 1;
            }
            cand = if cand == u32::MAX {
                1
            } else {
                cand + 1
            };
        }
        self.next_id = cand;
        proof {
            lemma_fresh(was.notes, next, 1);
            assert(self@.notes =~= was.notes);
        }
        cand
    }

    fn retain_other(&mut self, id: u32)
        ensures
            final(self)@ == (Ledger { notes: without_id(old(self)@.notes, id), ..old(self)@ }),
    {
        let ghost was = self@;
        let mut kept: Vec<Outstanding> = Vec::new();
        let mut rest: Vec<Outstanding> = Vec::new();
        std::mem::swap(&mut rest, &mut self.notes);
        let ghost all = rest@;
        let ghost views = all.map_values(|o: Outstanding| o.v());
        rest = reversed(rest);
        let ghost n = all.len();
        proof {
            assert(views.take(0) =~= Seq::empty());
        }
        while rest.len() > 0
            invariant
                n == all.len(),
                rest@.len() <= n,
                views == all.map_values(|o: Outstanding| o.v()),
                forall|i: int| 0 <= i < rest@.len() ==> #[trigger] rest@[i] == all[n - 1 - i],
                kept@.map_values(|o: Outstanding| o.v()) == without_id(
                    views.take(n - rest@.len()),
                    id,
                ),
            decreases rest@.len(),
        {
            let ghost at = n - rest@.len();
            let o = rest.pop();
            if let Some(o) = o {
                proof {
                    assert(o == all[at]);
                    assert(views.take(at + 1).drop_last() =~= views.take(at));
                    assert(views.take(at + 1).last() == o.v());
                }
                if o.id != id {
                    kept.push(o);
                }
                proof {
                    assert(kept@.map_values(|o: Outstanding| o.v()) =~= without_id(
                        views.take(at + 1),
                        id,
                    ));
                }
            }
        }
        proof {
            assert(views.take(n as int) =~= views);
        }
        self.notes = kept;
    }

    /// Take a notification in. Returns its id and what the compositor is
    /// told: the eviction it caused, if any, then the note to show.
    pub fn notify(
        &mut self,
        replaces_id: u32,
        sender: &str,
        summary: &str,
        body: &str,
        urgency_hint: Option<u8>,
        expire_timeout: i32,
        now: u64,
    ) -> (res: (u32, Vec<NoteMsg>))
        requires
            old(self)@.wf(),
            now <= 0xffff_ffff_0000_0000,
        ensures
            final(self)@.wf(),
            res.0 == old(self)@.id_for(replaces_id, sender@),
            final(self)@ == old(self)@.taken(
                replaces_id,
                sender@,
                urgency_of(urgency_hint),
                expire_timeout,
                now as int,
            ),
            ({
                let was = old(self)@;
                let urgency = urgency_of(urgency_hint);
                let e = was.entry_for(replaces_id, sender@, urgency, expire_timeout, now as int);
                let msgs = res.1@;
                &&& msgs.len() == (if was.evicted(e) is Some {
                    2int
                } else {
                    1
                })
                &&& was.evicted(e) is Some ==> msgs[0] == NoteMsg::Close(was.evicted(e)->0)
                &&& msgs.last() is Show
                &&& msgs.last()->Show_0.id == res.0
                &&& msgs.last()->Show_0.summary@ == capped(summary@, NOTE_TEXT_CAP as int)
                &&& msgs.last()->Show_0.body@ == capped(body@, NOTE_TEXT_CAP as int)
                &&& msgs.last()->Show_0.urgency == urgency
            }),
    {
        let ghost was = self@;
        let id: u32 = self.allocate_id(replaces_id, sender);
        let urgency: u8 = match urgency_hint {
            Some(u) => u,
            None => 1,
        };
        let expiry = if urgency >= 2 {
            None
        } else if expire_timeout == 0 {
            None
        } else if expire_timeout > 0 {
            Some(now + expire_timeout as u64)
        } else {
            Some(now + DEFAULT_TIMEOUT_MS)
        };
        let ghost e = Entry { id, owner: sender@, expiry };
        self.retain_other(id);
        let ghost kept = self@.notes;
        proof {
            lemma_without_id(was.notes, id);
            lemma_without_distinct(was.notes, id);
            assert forall|i: int| 0 <= i < kept.len() implies (#[trigger] kept[i]).id != 0 by {
                assert(was.notes.contains(kept[i]));
            }
        }
        self.notes.push(Outstanding { id, owner: sender.to_owned(), expiry });
        let ghost all = kept.push(e);
        proof {
            assert(self@.notes =~= all);
        }
        let mut msgs: Vec<NoteMsg> = Vec::new();
        if self.notes.len() > MAX_NOTES {
            let gone = self.notes.remove(0);
            proof {
                assert(gone.v() == all[0]);
                assert(self@.notes =~= all.remove(0));
            }
            msgs.push(NoteMsg::Close(gone.id));
            self.pending_closed.push((gone.id, CloseReason::Undefined));
        }
        msgs.push(
            NoteMsg::Show(
                Note {
                    id,
                    summary: cap_chars(summary, NOTE_TEXT_CAP).to_owned(),
                    body: cap_chars(body, NOTE_TEXT_CAP).to_owned(),
                    urgency,
                },
            ),
        );
        proof {
            assert(self@.notes =~= was.noted(e));
            assert(self@.notes.len() <= MAX_NOTES);
            let off: int = if all.len() > MAX_NOTES {
                1
            } else {
                0
            };
            assert forall|i: int| 0 <= i < self@.notes.len() implies (#[trigger] self@.notes[i])
                == all[i + off] by {}
            assert forall|i: int, j: int|
                #![trigger self@.notes[i], self@.notes[j]]
                0 <= i < j < self@.notes.len() implies self@.notes[i].id != self@.notes[j].id by {
                if j + off < kept.len() {
                    assert(kept[i + off].id != kept[j + off].id);
                } else {
                    assert(kept[i + off].id != id);
                }
            }
            assert(self@.pending =~= (match was.evicted(e) {
                Some(id) => was.pending.push((id, CloseReason::Undefined)),
                None => was.pending,
            }));
        }
        (id, msgs)
    }

    /// A request to close a notification. It fails, and emits nothing, when
    /// the id names none that is outstanding.
    pub fn close_notification(&mut self, id: u32) -> (res: Result<NoteMsg, CloseError>)
        requires
            old(self)@.wf(),
        ensures
            final(self)@.wf(),
            res is Err <==> !outstanding(old(self)@.notes, id),
            res is Err ==> res->Err_0 == CloseError::NoSuchNotification && final(self)@ == old(
                self,
            )@,
            res is Ok ==> res->Ok_0 == NoteMsg::Close(id) && final(self)@ == old(self)@.closed(id),
    {
        if !self.is_outstanding(id) {
            return Err(CloseError::NoSuchNotification);
        }
        let ghost was = self@;
        self.retain_other(id);
        proof {
            lemma_kept_wf(was, id);
        }
        self.pending_closed.push((id, CloseReason::Closed));
        proof {
            assert(self@.notes =~= without_id(was.notes, id));
        }
        Ok(NoteMsg::Close(id))
    }

    /// The ids whose time has come, oldest first.
    fn expired(&self, now: u64) -> (ids: Vec<u32>)
        ensures
            ids@ == expired_to(self@.notes, now, self@.notes.len() as int),
    {
        let mut ids: Vec<u32> = Vec::new();
        let mut k: usize = 0;
        while k < self.notes.len()
            invariant
                k <= self.notes@.len(),
                self@.notes.len() == self.notes@.len(),
                ids@ == expired_to(self@.notes, now, k as int),
            decreases self.notes@.len() - k,
        {
            let n = &self.notes[k];
            proof {
                assert(self@.notes[k as int] == n.v());
            }
            if let Some(t) = n.expiry {
                if t <= now {
                    ids.push(n.id);
                }
            }
            k = k + 1;
        }
        ids
    }

    /// One tick of the relay: dismissals reported by the compositor leave
    /// the ledger, expired notifications leave it and are closed on screen,
    /// and the signals owed are handed out: the dismissals', the expiries',
    /// then those that were queued.
    pub fn tick(&mut self, dismissed: &Vec<(u32, CloseReason)>, now: u64) -> (res: (
        Vec<u32>,
        Vec<(u32, CloseReason)>,
    ))
        requires
            old(self)@.wf(),
        ensures
            final(self)@.wf(),
            res.0@ == old(self)@.due(dismissed@, now),
            res.1@ == old(self)@.signals(dismissed@, now),
            final(self)@ == old(self)@.ticked(dismissed@, now),
    {
        let ghost was = self@;
        let mut signals: Vec<(u32, CloseReason)> = Vec::new();
        let mut k: usize = 0;
        while k < dismissed.len()
            invariant
                k <= dismissed@.len(),
                self@.wf(),
                self@ == (Ledger {
                    notes: minus_dismissed(was.notes, dismissed@, k as int),
                    ..was
                }),
                signals@ == dismissed@.take(k as int),
            decreases dismissed@.len() - k,
        {
            let d = dismissed[k];
            let ghost before = self@;
            self.retain_other(d.0);
            proof {
                lemma_kept_wf(before, d.0);
                assert(dismissed@.take(k + 1) =~= dismissed@.take(k as int).push(d));
            }
            signals.push(d);
            k = k + 1;
        }
        proof {
            assert(dismissed@.take(k as int) =~= dismissed@);
        }
        let ghost left = self@.notes;
        let gone = self.expired(now);
        let ghost gone_signals = gone@.map_values(|id: u32| (id, CloseReason::Expired));
        let mut j: usize = 0;
        while j < gone.len()
            invariant
                j <= gone@.len(),
                gone_signals == gone@.map_values(|id: u32| (id, CloseReason::Expired)),
                self@.wf(),
                self@ == (Ledger { notes: minus_ids(left, gone@, j as int), ..was }),
                signals@ == dismissed@ + gone_signals.take(j as int),
            decreases gone@.len() - j,
        {
            let ghost before = self@;
            self.retain_other(gone[j]);
            proof {
                lemma_kept_wf(before, gone@[j as int]);
            }
            signals.push((gone[j], CloseReason::Expired));
            j = j + 1;
            proof {
                assert(gone_signals.take(j as int) =~= gone_signals.take(j - 1).push(
                    gone_signals[j - 1],
                ));
                assert(signals@ =~= dismissed@ + gone_signals.take(j as int));
            }
        }
        proof {
            assert(gone_signals.take(j as int) =~= gone_signals);
        }
        let ghost pre = self@;
        signals.append(&mut self.pending_closed);
        proof {
            assert(self@.notes =~= pre.notes);
            assert(self@.pending =~= Seq::empty());
        }
        (gone, signals)
    }
}

/// The ids among the first `n` entries whose time has come.
pub open spec fn expired_to(notes: Seq<Entry>, now: u64, n: int) -> Seq<u32>
    decreases n,
{
    if n <= 0 {
        Seq::empty()
    } else {
        let rest = expired_to(notes, now, n - 1);
        match notes[n - 1].expiry {
            Some(t) => if t <= now {
                rest.push(notes[n - 1].id)
            } else {
                rest
            },
            None => rest,
        }
    }
}

/// The entries after the first `n` dismissals.
pub open spec fn minus_dismissed(
    notes: Seq<Entry>,
    dismissed: Seq<(u32, CloseReason)>,
    n: int,
) -> Seq<Entry>
    decreases n,
{
    if n <= 0 {
        notes
    } else {
        without_id(minus_dismissed(notes, dismissed, n - 1), dismissed[n - 1].0)
    }
}

/// The entries without the first `n` of these ids.
pub open spec fn minus_ids(notes: Seq<Entry>, ids: Seq<u32>, n: int) -> Seq<Entry>
    decreases n,
{
    if n <= 0 {
        notes
    } else {
        without_id(minus_ids(notes, ids, n - 1), ids[n - 1])
    }
}

proof fn lemma_kept_wf(s: Ledger, id: u32)
    requires
        s.wf(),
    ensures
        (Ledger { notes: without_id(s.notes, id), ..s }).wf(),
{
    lemma_without_id(s.notes, id);
    lemma_without_distinct(s.notes, id);
    let kept = without_id(s.notes, id);
    assert forall|i: int| 0 <= i < kept.len() implies (#[trigger] kept[i]).id != 0 by {
        assert(s.notes.contains(kept[i]));
    }
}

/// The entries in reverse.
fn reversed(v: Vec<Outstanding>) -> (r: Vec<Outstanding>)
    ensures
        r@.len() == v@.len(),
        forall|i: int| 0 <= i < r@.len() ==> #[trigger] r@[i] == v@[v@.len() - 1 - i],
{
    let mut v = v;
    let ghost all = v@;
    let mut r: Vec<Outstanding> = Vec::new();
    while v.len() > 0
        invariant
            v@.len() + r@.len() == all.len(),
            forall|i: int| 0 <= i < v@.len() ==> #[trigger] v@[i] == all[i],
            forall|i: int| 0 <= i < r@.len() ==> #[trigger] r@[i] == all[all.len() - 1 - i],
        decreases v@.len(),
    {
        if let Some(o) = v.pop() {
            r.push(o);
        }
    }
    r
}

/// A critical notification, and one asked never to expire, never does.
pub proof fn critical_notes_never_expire(urgency: u8, timeout: i32, now: int)
    requires
        urgency >= 2 || timeout == 0,
    ensures
        expiry_of(urgency, timeout, now) is None,
{
}

/// One sender cannot replace another's live notification: asking to
/// replace an id it does not own gets it a fresh one.
pub proof fn foreign_ids_are_never_replaced(s: Ledger, id: u32, sender: Seq<char>)
    requires
        s.wf(),
        outstanding(s.notes, id),
        !owned(s.notes, id, sender),
    ensures
        s.id_for(id, sender) != id,
        !outstanding(s.notes, s.id_for(id, sender)),
{
    lemma_fresh(s.notes, s.next_id, 1);
}

/// A replacement stays the only notification of its id, as the newest, with
/// its own expiry.
pub proof fn replacement_moves_to_newest(s: Ledger, e: Entry)
    requires
        s.wf(),
        e.id != 0,
        outstanding(s.notes, e.id),
    ensures
        s.noted(e).last() == e,
        s.noted(e).len() == s.notes.len(),
        s.evicted(e) is None,
        forall|i: int| 0 <= i < s.noted(e).len() - 1 ==> (#[trigger] s.noted(e)[i]).id != e.id,
{
    lemma_without_id(s.notes, e.id);
    lemma_one_less(s.notes, e.id);
}

proof fn lemma_one_less(notes: Seq<Entry>, id: u32)
    requires
        forall|i: int, j: int|
            #![trigger notes[i], notes[j]]
            0 <= i < j < notes.len() ==> notes[i].id != notes[j].id,
        outstanding(notes, id),
    ensures
        without_id(notes, id).len() == notes.len() - 1,
    decreases notes.len(),
{
    let rest = notes.drop_last();
    let at = choose|i: int| 0 <= i < notes.len() && (#[trigger] notes[i]).id == id;
    assert forall|i: int, j: int|
        #![trigger rest[i], rest[j]]
        0 <= i < j < rest.len() implies rest[i].id != rest[j].id by {
        assert(notes[i].id != notes[j].id);
    }
    if notes.last().id == id {
        if outstanding(rest, id) {
            let k = choose|i: int| 0 <= i < rest.len() && (#[trigger] rest[i]).id == id;
            assert(notes[k].id != notes[notes.len() - 1].id);
        }
        lemma_without_id(rest, id);
    } else {
        assert(rest[at].id == id);
        lemma_one_less(rest, id);
    }
}

/// Law: each reason has a number of its own: expired, dismissed, closed on
/// request and undefined are one to four.
pub proof fn reasons_have_their_own_numbers(a: CloseReason, b: CloseReason)
    ensures
        a.code() == b.code() ==> a == b,
        CloseReason::Expired.code() == 1,
        CloseReason::Dismissed.code() == 2,
        CloseReason::Closed.code() == 3,
        CloseReason::Undefined.code() == 4,
{
}

/// Law: text is kept from its beginning, as much of it as the cap allows; a
/// note without an urgency is of normal urgency.
pub proof fn long_text_is_cut_at_the_end(s: Seq<char>, cap: int, u: u8)
    requires
        0 <= cap,
    ensures
        s.len() <= cap ==> capped(s, cap) == s,
        s.len() > cap ==> capped(s, cap).len() == cap,
        forall|i: int| 0 <= i < capped(s, cap).len() ==> #[trigger] capped(s, cap)[i] == s[i],
        urgency_of(Some(u)) == u,
        urgency_of(None) == 1,
{
}

} // verus!
