//! Notification popups: speech bubbles stacked bottom-right above the
//! taskbar, oldest nearest the corner. Any click dismisses one.

use crate::geom::{fits_i32, Rect};
use crate::theme::Theme;
use vstd::prelude::*;

verus! {

/// One bubble on screen.
#[derive(Clone, Copy, PartialEq, Eq, Debug, Structural)]
pub struct NotePopup {
    pub id: u32,
    pub w: i32,
    pub h: i32,
}

/// The bubbles, oldest first.
pub struct NotePopups {
    pub list: Vec<NotePopup>,
}

/// The first bubble with this id from `k` on; the length if none.
pub open spec fn popup_from(s: Seq<NotePopup>, id: u32, k: int) -> int
    decreases s.len() - k,
{
    if k >= s.len() {
        s.len() as int
    } else if s[k].id == id {
        k
    } else {
        popup_from(s, id, k + 1)
    }
}

/// `s` without the bubbles of this id.
pub open spec fn without_popup(s: Seq<NotePopup>, id: u32) -> Seq<NotePopup>
    decreases s.len(),
{
    if s.len() == 0 {
        s
    } else if s.last().id == id {
        without_popup(s.drop_last(), id)
    } else {
        without_popup(s.drop_last(), id).push(s.last())
    }
}

/// The lowest row free above the first `n` bubbles.
pub open spec fn pile_top(s: Seq<NotePopup>, floor: int, gap: int, n: int) -> int
    decreases n,
{
    if n <= 0 {
        floor
    } else {
        pile_top(s, floor, gap, n - 1) - gap - s[n - 1].h
    }
}

/// Where bubble `i` is drawn: right-aligned a gap from the edge, resting on
/// what is below it.
pub open spec fn popup_rect(s: Seq<NotePopup>, output_w: int, floor: int, gap: int, i: int) -> Rect {
    Rect {
        x: (output_w - gap - s[i].w) as i32,
        y: (pile_top(s, floor, gap, i + 1) + gap) as i32,
        w: s[i].w,
        h: s[i].h,
    }
}

/// Whether the pile's coordinates are in range.
pub open spec fn pile_fits(s: Seq<NotePopup>, output_w: int, floor: int, gap: int) -> bool {
    forall|i: int|
        0 <= i < s.len() ==> fits_i32(output_w - gap - (#[trigger] s[i]).w) && fits_i32(
            pile_top(s, floor, gap, i + 1) + gap,
        ) && fits_i32(pile_top(s, floor, gap, i + 1))
}

/// The first rect from `k` on that holds the point; the length if none.
pub open spec fn note_hit(rects: Seq<(u32, Rect)>, px: int, py: int, k: int) -> int
    decreases rects.len() - k,
{
    if k >= rects.len() {
        rects.len() as int
    } else if rects[k].1.has(px, py) {
        k
    } else {
        note_hit(rects, px, py, k + 1)
    }
}

/// Every bubble with its screen rect.
pub open spec fn pile(s: Seq<NotePopup>, output_w: int, floor: int, gap: int) -> Seq<(u32, Rect)> {
    Seq::new(s.len(), |i: int| (s[i].id, popup_rect(s, output_w, floor, gap, i)))
}

/// The bubbles once `popup` is up: in the place of the one with its id, else
/// on top of the pile.
pub open spec fn with_popup(s: Seq<NotePopup>, popup: NotePopup) -> Seq<NotePopup> {
    let k = popup_from(s, popup.id, 0);
    if k < s.len() {
        s.update(k, popup)
    } else {
        s.push(popup)
    }
}

/// The bubble at a point.
pub open spec fn popup_at(
    s: Seq<NotePopup>,
    output_w: int,
    floor: int,
    gap: int,
    px: int,
    py: int,
) -> Option<u32> {
    let rects = pile(s, output_w, floor, gap);
    let k = note_hit(rects, px, py, 0);
    if k < rects.len() {
        Some(rects[k].0)
    } else {
        None
    }
}

impl NotePopups {
    /// Show a bubble: one that is shown already keeps its slot, a new one
    /// joins as newest.
    pub fn show(&mut self, popup: NotePopup)
        ensures
            final(self).list@ == with_popup(old(self).list@, popup),
    {
        let mut k: usize = 0;
        while k < self.list.len()
            invariant
                k <= self.list@.len(),
                self.list@ == old(self).list@,
                popup_from(self.list@, popup.id, 0) == popup_from(
                    self.list@,
                    popup.id,
                    k as int,
                ),
            decreases self.list@.len() - k,
        {
            if self.list[k].id == popup.id {
                self.list.set(k, popup);
                return;
            }
            k = k + 1;
        }
        self.list.push(popup);
    }

    /// Take a bubble off the screen.
    pub fn close(&mut self, id: u32)
        ensures
            final(self).list@ == without_popup(old(self).list@, id),
    {
        let mut kept: Vec<NotePopup> = Vec::new();
        let mut k: usize = 0;
        while k < self.list.len()
            invariant
                k <= self.list@.len(),
                self.list@ == old(self).list@,
                kept@ == without_popup(self.list@.take(k as int), id),
            decreases self.list@.len() - k,
        {
            proof {
                assert(self.list@.take(k + 1).drop_last() =~= self.list@.take(k as int));
                assert(self.list@.take(k + 1).last() == self.list@[k as int]);
            }
            if self.list[k].id != id {
                kept.push(self.list[k]);
            }
            k = k + 1;
        }
        proof {
            assert(self.list@.take(k as int) =~= self.list@);
        }
        self.list = kept;
    }

    /// Screen rects of the bubbles, stacked bottom-right above the taskbar,
    /// oldest nearest the corner, growing upward.
    pub fn note_rects(&self, output_w: i32, output_h: i32, th: &Theme) -> (rects: Vec<(u32, Rect)>)
        requires
            th.wf(),
            fits_i32(output_h - th.taskbar_h),
            fits_i32(output_w - th.gap),
            pile_fits(self.list@, output_w as int, output_h - th.taskbar_h, th.gap as int),
        ensures
            rects@ == pile(self.list@, output_w as int, output_h - th.taskbar_h, th.gap as int),
    {
        let gap: i32 = th.gap;
        let ghost floor = output_h - th.taskbar_h;
        let mut bottom: i64 = output_h as i64 - th.taskbar_h as i64;
        let mut rects: Vec<(u32, Rect)> = Vec::new();
        let mut k: usize = 0;
        while k < self.list.len()
            invariant
                k <= self.list@.len(),
                th.wf(),
                gap == th.gap,
                floor == output_h - th.taskbar_h,
                fits_i32(output_w - th.gap),
                pile_fits(self.list@, output_w as int, floor, gap as int),
                bottom == pile_top(self.list@, floor, gap as int, k as int),
                i32::MIN <= bottom <= i32::MAX,
                rects@ == pile(self.list@, output_w as int, floor, gap as int).take(k as int),
            decreases self.list@.len() - k,
        {
            let p = self.list[k];
            bottom = bottom - gap as i64 - p.h as i64;
            rects.push(
                (
                    p.id,
                    Rect {
                        x: output_w - gap - p.w,
                        y: (bottom + gap as i64) as i32,
                        w: p.w,
                        h: p.h,
                    },
                ),
            );
            k = k + 1;
            proof {
                let all = pile(self.list@, output_w as int, floor, gap as int);
                assert(all.take(k as int) =~= all.take(k - 1).push(all[k - 1]));
            }
        }
        proof {
            let all = pile(self.list@, output_w as int, floor, gap as int);
            assert(all.take(k as int) =~= all);
        }
        rects
    }

    /// Any click on a bubble dismisses it. Returns the id of the one that
    /// was clicked.
    pub fn dismiss_note_at(
        &mut self,
        output_w: i32,
        output_h: i32,
        th: &Theme,
        mx: i32,
        my: i32,
    ) -> (id: Option<u32>)
        requires
            th.wf(),
            fits_i32(output_h - th.taskbar_h),
            fits_i32(output_w - th.gap),
            pile_fits(old(self).list@, output_w as int, output_h - th.taskbar_h, th.gap as int),
        ensures
            id == popup_at(
                old(self).list@,
                output_w as int,
                output_h - th.taskbar_h,
                th.gap as int,
                mx as int,
                my as int,
            ),
            final(self).list@ == (match id {
                Some(id) => without_popup(old(self).list@, id),
                None => old(self).list@,
            }),
    {
        let rects = self.note_rects(output_w, output_h, th);
        let mut k: usize = 0;
        while k < rects.len()
            invariant
                k <= rects@.len(),
                self.list@ == old(self).list@,
                rects@ == pile(
                    old(self).list@,
                    output_w as int,
                    output_h - th.taskbar_h,
                    th.gap as int,
                ),
                note_hit(rects@, mx as int, my as int, 0) == note_hit(
                    rects@,
                    mx as int,
                    my as int,
                    k as int,
                ),
            decreases rects@.len() - k,
        {
            if rects[k].1.contains(mx, my) {
                let id: u32 = rects[k].0;
                self.close(id);
                return Some(id);
            }
            k = k + 1;
        }
        None
    }
}

/// Bubbles rest on the taskbar and on one another, a gap apart: the oldest
/// ends where the taskbar starts, and each further one ends a gap above the
/// one below it.
pub proof fn bubbles_stack_upward(s: Seq<NotePopup>, output_w: int, floor: int, gap: int, i: int)
    requires
        0 <= i < s.len(),
        pile_fits(s, output_w, floor, gap),
    ensures
        i == 0 ==> popup_rect(s, output_w, floor, gap, i).bottom() == floor,
        i > 0 ==> popup_rect(s, output_w, floor, gap, i).bottom() == popup_rect(
            s,
            output_w,
            floor,
            gap,
            i - 1,
        ).y - gap,
        popup_rect(s, output_w, floor, gap, i).right() == output_w - gap,
{
    assert(fits_i32(output_w - gap - s[i].w));
    assert(pile_top(s, floor, gap, 0) == floor);
    assert(pile_top(s, floor, gap, i + 1) == pile_top(s, floor, gap, i) - gap - s[i].h);
    if i > 0 {
        assert(fits_i32(output_w - gap - s[i - 1].w));
    }
}

proof fn lemma_popup_from(s: Seq<NotePopup>, id: u32, k: int, i: int)
    requires
        0 <= k <= i <= s.len(),
        forall|j: int| k <= j < i ==> (#[trigger] s[j]).id != id,
        i < s.len() ==> s[i].id == id,
    ensures
        popup_from(s, id, k) == i,
    decreases i - k,
{
    if k < i {
        lemma_popup_from(s, id, k + 1, i);
    }
}

/// Law: a note shown again changes its bubble where it is; a new one goes on
/// top of the pile, and no other bubble changes.
pub proof fn bubbles_keep_their_places(s: Seq<NotePopup>, popup: NotePopup, i: int)
    requires
        0 <= i <= s.len(),
        forall|j: int| 0 <= j < i ==> (#[trigger] s[j]).id != popup.id,
        i < s.len() ==> s[i].id == popup.id,
    ensures
        ({
            let n = with_popup(s, popup);
            &&& i < s.len() ==> n.len() == s.len()
            &&& i == s.len() ==> n.len() == s.len() + 1
            &&& n[i] == popup
            &&& forall|j: int| 0 <= j < s.len() && j != i ==> #[trigger] n[j] == s[j]
        }),
{
    lemma_popup_from(s, popup.id, 0, i);
}

proof fn lemma_without_popup(s: Seq<NotePopup>, id: u32, e: NotePopup)
    ensures
        without_popup(s, id).contains(e) <==> s.contains(e) && e.id != id,
    decreases s.len(),
{
    if s.len() > 0 {
        let rest = s.drop_last();
        lemma_without_popup(rest, id, e);
        let n = without_popup(s, id);
        let b = without_popup(rest, id);
        if s.contains(e) && e.id != id {
            let k = choose|k: int| 0 <= k < s.len() && s[k] == e;
            if k < rest.len() {
                assert(rest[k] == e);
                let m = choose|m: int| 0 <= m < b.len() && b[m] == e;
                assert(n[m] == e);
            } else {
                assert(n[b.len() as int] == e);
            }
        }
        if n.contains(e) {
            let m = choose|m: int| 0 <= m < n.len() && n[m] == e;
            if m < b.len() {
                assert(b[m] == e);
                let k = choose|k: int| 0 <= k < rest.len() && rest[k] == e;
                assert(s[k] == e);
            } else {
                assert(s[s.len() - 1] == e);
            }
        }
    }
}

proof fn lemma_note_hit(rects: Seq<(u32, Rect)>, px: int, py: int, k: int, i: int)
    requires
        0 <= k <= i <= rects.len(),
        forall|j: int| k <= j < i ==> !(#[trigger] rects[j]).1.has(px, py),
        i < rects.len() ==> rects[i].1.has(px, py),
    ensures
        note_hit(rects, px, py, k) == i,
    decreases i - k,
{
    if k < i {
        lemma_note_hit(rects, px, py, k + 1, i);
    }
}

/// Law: a click dismisses the bubble it lands on, and only that one; a click
/// beside every bubble dismisses none.
pub proof fn a_click_dismisses_the_bubble_it_hits(
    s: Seq<NotePopup>,
    output_w: int,
    floor: int,
    gap: int,
    px: int,
    py: int,
    i: int,
    e: NotePopup,
)
    requires
        0 <= i <= s.len(),
        forall|j: int|
            0 <= j < i ==> !(#[trigger] popup_rect(s, output_w, floor, gap, j)).has(px, py),
        i < s.len() ==> popup_rect(s, output_w, floor, gap, i).has(px, py),
        s.contains(e),
    ensures
        i < s.len() ==> popup_at(s, output_w, floor, gap, px, py) == Some(s[i].id),
        i == s.len() ==> popup_at(s, output_w, floor, gap, px, py) is None,
        i < s.len() ==> (without_popup(s, s[i].id).contains(e) <==> e.id != s[i].id),
{
    let rects = pile(s, output_w, floor, gap);
    assert forall|j: int| 0 <= j < i implies !(#[trigger] rects[j]).1.has(px, py) by {
        assert(!popup_rect(s, output_w, floor, gap, j).has(px, py));
    }
    lemma_note_hit(rects, px, py, 0, i);
    if i < s.len() {
        lemma_without_popup(s, s[i].id, e);
    }
}

} // verus!
