//! A notification as a speech bubble: which lines it shows, how large it is
//! and where its text goes.

use crate::draw::Colors;
use crate::notify::{cap_chars, capped};
use crate::text::{chars_of, find_char, find_from, lemma_find, slice_string, views};
use crate::Index;
use vstd::prelude::*;
use vstd::string::*;

verus! {

/// Fixed margins of the bubble's art.
pub const BUBBLE_CAP_X: usize = 21;

pub const BUBBLE_CAP_TOP: usize = 17;

pub const BUBBLE_CAP_BOTTOM: usize = 17;

/// Text padding inside the bubble; the bottom leaves room for the tail.
pub const NOTE_PAD_LEFT: usize = 14;

pub const NOTE_PAD_RIGHT: usize = 16;

pub const NOTE_PAD_TOP: usize = 10;

pub const NOTE_PAD_BOTTOM: usize = 16;

/// The widest a line of text is, and how many lines are shown.
pub const NOTE_TEXT_MAX_W: usize = 280;

pub const NOTE_MAX_LINES: usize = 8;

/// The lines of a text from `k` on that are not empty.
pub open spec fn paragraphs_from(s: Seq<char>, k: int) -> Seq<Seq<char>>
    decreases s.len() + 1 - k,
    when 0 <= k
    via paragraphs_end
{
    if k > s.len() {
        Seq::empty()
    } else {
        let e = find_from(s, '\n', k, s.len() as int);
        let rest = paragraphs_from(s, e + 1);
        if e > k {
            seq![s.subrange(k, e)] + rest
        } else {
            rest
        }
    }
}

#[via_fn]
proof fn paragraphs_end(s: Seq<char>, k: int) {
    if k <= s.len() {
        lemma_find(s, '\n', k, s.len() as int);
    }
}

/// The paragraphs of a text: its lines, without the empty ones.
pub fn paragraphs(text: &str) -> (out: Vec<String>)
    ensures
        views(out@) == paragraphs_from(text@, 0),
{
    let s = chars_of(text);
    let n: usize = s.len();
    let mut out: Vec<String> = Vec::new();
    let mut k: usize = 0;
    proof {
        assert(views(out@) + paragraphs_from(s@, 0) =~= paragraphs_from(s@, 0));
    }
    loop
        invariant
            n == s@.len(),
            s@ == text@,
            k <= n,
            views(out@) + paragraphs_from(s@, k as int) == paragraphs_from(s@, 0),
        decreases n - k,
    {
        let e: usize = find_char(&s, '\n', k, n);
        proof {
            lemma_find(s@, '\n', k as int, n as int);
        }
        let ghost before = out@;
        let ghost rest = paragraphs_from(s@, e + 1);
        if e > k {
            let line = slice_string(&s, k, e);
            out.push(line);
            proof {
                assert(views(out@) =~= views(before).push(line@));
                assert(views(before) + (seq![line@] + rest) =~= views(out@) + rest);
            }
        }
        if e >= n {
            proof {
                assert(paragraphs_from(s@, n + 1) =~= Seq::empty());
                assert(views(out@) + rest =~= views(out@));
            }
            return out;
        }
        k = e + 1;
    }
}

/// The lines shown so far, the summary's in bold.
pub struct NoteLines {
    pub lines: Vec<String>,
    pub bold: Vec<bool>,
}

impl NoteLines {
    pub open spec fn wf(self) -> bool {
        self.lines@.len() == self.bold@.len()
    }

    pub fn new() -> (n: NoteLines)
        ensures
            n.wf(),
            n.lines@.len() == 0,
    {
        NoteLines { lines: Vec::new(), bold: Vec::new() }
    }

    /// What of a paragraph is worth wrapping: no more than can still be
    /// shown, every character being at least one pixel wide. Nothing once
    /// the bubble is full.
    pub fn next_paragraph<'a>(&self, para: &'a str) -> (t: Option<&'a str>)
        ensures
            if self.lines@.len() >= NOTE_MAX_LINES {
                t is None
            } else {
                let budget = (8 - self.lines@.len()) * 280;
                t is Some && t->0@ == (if para@.len() <= budget {
                    para@
                } else {
                    para@.take(budget)
                })
            },
    {
        if self.lines.len() >= NOTE_MAX_LINES {
            return None;
        }
        let budget: usize = (NOTE_MAX_LINES - self.lines.len()) * 280;
        Some(cap_chars(para, budget))
    }

    /// Take the lines a paragraph was wrapped to.
    pub fn wrapped(&mut self, lines: Vec<String>, bold: bool)
        requires
            old(self).wf(),
        ensures
            final(self).wf(),
            final(self).lines@ == old(self).lines@ + lines@,
            final(self).bold@ == old(self).bold@ + Seq::new(lines@.len(), |i: int| bold),
    {
        let ghost added = lines@;
        let mut lines = lines;
        let n: usize = lines.len();
        self.lines.append(&mut lines);
        let ghost before = self.bold@;
        let mut k: usize = 0;
        proof {
            assert(self.bold@ =~= before + Seq::new(0, |i: int| bold));
        }
        while k < n
            invariant
                k <= n,
                self.lines@ == old(self).lines@ + added,
                self.bold@ == before + Seq::new(k as nat, |i: int| bold),
            decreases n - k,
        {
            self.bold.push(bold);
            k = k + 1;
            proof {
                assert(self.bold@ =~= before + Seq::new(k as nat, |i: int| bold));
            }
        }
    }

    /// Drop what is past the last line that is shown.
    pub fn truncate(&mut self)
        requires
            old(self).wf(),
        ensures
            final(self).wf(),
            final(self).lines@ == (if old(self).lines@.len() <= 8 {
                old(self).lines@
            } else {
                old(self).lines@.take(8)
            }),
            final(self).bold@ == (if old(self).bold@.len() <= 8 {
                old(self).bold@
            } else {
                old(self).bold@.take(8)
            }),
    {
        if self.lines.len() > NOTE_MAX_LINES {
            self.lines.truncate(NOTE_MAX_LINES);
            self.bold.truncate(NOTE_MAX_LINES);
            proof {
                assert(self.lines@ =~= old(self).lines@.take(8));
                assert(self.bold@ =~= old(self).bold@.take(8));
            }
        }
    }
}

/// The lines of the first `n` paragraphs, each wrapped as `wraps` says.
pub open spec fn lines_to(wraps: Seq<Seq<Seq<char>>>, n: int) -> Seq<Seq<char>>
    decreases n,
{
    if n <= 0 {
        Seq::empty()
    } else {
        lines_to(wraps, n - 1) + wraps[n - 1]
    }
}

/// Which of those lines are bold: those of the first `cut` paragraphs.
pub open spec fn bolds_to(wraps: Seq<Seq<Seq<char>>>, cut: int, n: int) -> Seq<bool>
    decreases n,
{
    if n <= 0 {
        Seq::empty()
    } else {
        bolds_to(wraps, cut, n - 1) + Seq::new(wraps[n - 1].len(), |i: int| n - 1 < cut)
    }
}

/// Whether `lines` is what `wrap` makes of a paragraph once `shown` lines are
/// there: of no more of it than can still be shown. Nothing is wrapped once
/// the bubble is full.
pub open spec fn wrapped_as<F: Fn(String) -> Vec<String>>(
    wrap: F,
    para: Seq<char>,
    shown: int,
    lines: Seq<Seq<char>>,
) -> bool {
    if shown >= NOTE_MAX_LINES {
        lines == Seq::<Seq<char>>::empty()
    } else {
        exists|s: String, v: Vec<String>|
            s@ == capped(para, (NOTE_MAX_LINES - shown) * NOTE_TEXT_MAX_W) && #[trigger] call_ensures(
                wrap,
                (s,),
                v,
            ) && views(v@) == lines
    }
}

/// Whether `wraps` is what `wrap` makes of the paragraphs, one after another.
pub open spec fn wraps_note<F: Fn(String) -> Vec<String>>(
    wrap: F,
    paras: Seq<Seq<char>>,
    wraps: Seq<Seq<Seq<char>>>,
) -> bool {
    &&& wraps.len() == paras.len()
    &&& forall|i: int|
        0 <= i < paras.len() ==> wrapped_as(
            wrap,
            paras[i],
            lines_to(wraps, i).len() as int,
            #[trigger] wraps[i],
        )
}

/// A note's paragraphs: those of its summary, then those of its body.
pub open spec fn note_paragraphs(summary: Seq<char>, body: Seq<char>) -> Seq<Seq<char>> {
    paragraphs_from(summary, 0) + paragraphs_from(body, 0)
}

/// The first `n` items, or all there are.
pub open spec fn at_most<T>(s: Seq<T>, n: int) -> Seq<T> {
    if s.len() <= n {
        s
    } else {
        s.take(n)
    }
}

proof fn lemma_wraps_pushed(wraps: Seq<Seq<Seq<char>>>, w: Seq<Seq<char>>, cut: int, n: int)
    requires
        0 <= n <= wraps.len(),
    ensures
        lines_to(wraps.push(w), n) == lines_to(wraps, n),
        bolds_to(wraps.push(w), cut, n) == bolds_to(wraps, cut, n),
    decreases n,
{
    if n > 0 {
        lemma_wraps_pushed(wraps, w, cut, n - 1);
    }
}

/// The lines a note shows: its summary's paragraphs, in bold, then its
/// body's, wrapped by `wrap` and cut after the last line that is shown.
pub fn note_lines<F: Fn(String) -> Vec<String>>(summary: &str, body: &str, wrap: F) -> (n: NoteLines)
    requires
        forall|s: String| call_requires(wrap, (s,)),
    ensures
        n.wf(),
        n.lines@.len() <= NOTE_MAX_LINES,
        exists|wraps: Seq<Seq<Seq<char>>>| #[trigger]
            wraps_note(wrap, note_paragraphs(summary@, body@), wraps) && views(n.lines@) == at_most(
                lines_to(wraps, wraps.len() as int),
                NOTE_MAX_LINES as int,
            ) && n.bold@ == at_most(
                bolds_to(wraps, paragraphs_from(summary@, 0).len() as int, wraps.len() as int),
                NOTE_MAX_LINES as int,
            ),
{
    let mut paras = paragraphs(summary);
    let cut: usize = paras.len();
    let ghost heads = views(paras@);
    let mut rest = paragraphs(body);
    let ghost (front, back) = (paras@, rest@);
    paras.append(&mut rest);
    let ghost all = views(paras@);
    proof {
        assert(all =~= heads + views(back));
    }
    let mut n = NoteLines::new();
    let ghost mut wraps: Seq<Seq<Seq<char>>> = Seq::empty();
    let mut k: usize = 0;
    proof {
        assert(views(n.lines@) =~= lines_to(wraps, 0));
        assert(n.bold@ =~= bolds_to(wraps, cut as int, 0));
    }
    while k < paras.len()
        invariant
            k <= paras@.len(),
            all == views(paras@),
            n.wf(),
            forall|s: String| call_requires(wrap, (s,)),
            wraps.len() == k,
            views(n.lines@) == lines_to(wraps, k as int),
            n.bold@ == bolds_to(wraps, cut as int, k as int),
            forall|i: int|
                0 <= i < k ==> wrapped_as(
                    wrap,
                    all[i],
                    lines_to(wraps, i).len() as int,
                    #[trigger] wraps[i],
                ),
        decreases paras@.len() - k,
    {
        let ghost (before, bolds, was) = (n.lines@, n.bold@, wraps);
        let ghost mut added: Seq<Seq<char>> = Seq::empty();
        proof {
            assert(views(before).len() == before.len());
        }
        match n.next_paragraph(paras[k].as_str()) {
            Some(text) => {
                let text = text.to_owned();
                let ghost asked = text;
                let lines = wrap(text);
                let ghost got = lines;
                n.wrapped(lines, k < cut);
                proof {
                    added = views(got@);
                    assert(views(n.lines@) =~= views(before) + added);
                    assert(n.bold@ =~= bolds + Seq::new(added.len(), |i: int| k < cut));
                    assert(all[k as int] == paras@[k as int]@);
                    assert(asked@ == capped(
                        all[k as int],
                        (NOTE_MAX_LINES - before.len()) * NOTE_TEXT_MAX_W,
                    ));
                    assert(call_ensures(wrap, (asked,), got));
                }
            },
            None => {
                proof {
                    assert(views(before) =~= views(before) + added);
                    assert(bolds =~= bolds + Seq::new(added.len(), |i: int| k < cut));
                }
            },
        }
        proof {
            assert(wrapped_as(wrap, all[k as int], before.len() as int, added));
            wraps = was.push(added);
            assert forall|i: int| 0 <= i < k + 1 implies wrapped_as(
                wrap,
                all[i],
                lines_to(wraps, i).len() as int,
                #[trigger] wraps[i],
            ) by {
                lemma_wraps_pushed(was, added, cut as int, i);
                if i < k {
                    assert(wraps[i] == was[i]);
                }
            }
            lemma_wraps_pushed(was, added, cut as int, k as int);
            assert(lines_to(wraps, k + 1) == lines_to(was, k as int) + added);
            assert(bolds_to(wraps, cut as int, k + 1) =~= bolds_to(was, cut as int, k as int)
                + Seq::new(added.len(), |i: int| k < cut));
        }
        k = k + 1;
    }
    let ghost (full, marks) = (n.lines@, n.bold@);
    n.truncate();
    proof {
        assert(views(full).len() == full.len());
        assert(views(n.lines@) =~= at_most(views(full), NOTE_MAX_LINES as int));
        assert(n.bold@ =~= at_most(marks, NOTE_MAX_LINES as int));
        assert(all == note_paragraphs(summary@, body@));
        assert(wraps_note(wrap, all, wraps));
    }
    n
}

/// The widest of the first `n` lines.
pub open spec fn widest_to(widths: Seq<usize>, n: int) -> int
    decreases n,
{
    if n <= 0 {
        0
    } else if widths[n - 1] > widest_to(widths, n - 1) {
        widths[n - 1] as int
    } else {
        widest_to(widths, n - 1)
    }
}

/// How wide and how high a bubble is.
pub open spec fn bubble_size(widths: Seq<usize>, line_h: int, art_w: int) -> (int, int) {
    let text = widest_to(widths, widths.len() as int) + 30;
    let w = if text > 310 {
        310
    } else {
        text
    };
    let rows = if widths.len() >= 1 {
        widths.len() as int
    } else {
        1
    };
    let h = rows * line_h + 26;
    (if w < art_w {
        art_w
    } else {
        w
    }, if h < 35 {
        35
    } else {
        h
    })
}

/// The size of a bubble whose lines have these widths: the text and its
/// padding, no wider than the cap, but never smaller than its art allows.
pub fn note_size(widths: &Vec<usize>, line_h: usize, art_w: usize) -> (r: (usize, usize))
    requires
        widths@.len() <= NOTE_MAX_LINES,
        line_h <= 0x10_0000,
    ensures
        r.0 == bubble_size(widths@, line_h as int, art_w as int).0,
        r.1 == bubble_size(widths@, line_h as int, art_w as int).1,
{
    let mut widest: usize = 0;
    let mut k: usize = 0;
    while k < widths.len()
        invariant
            k <= widths@.len(),
            widest == widest_to(widths@, k as int),
        decreases widths@.len() - k,
    {
        if widths[k] > widest {
            widest = widths[k];
        }
        k = k + 1;
    }
    let pad: usize = NOTE_PAD_LEFT + NOTE_PAD_RIGHT;
    let w: usize = if widest > NOTE_TEXT_MAX_W {
        NOTE_TEXT_MAX_W + pad
    } else {
        widest + pad
    };
    let rows: usize = if widths.len() >= 1 {
        widths.len()
    } else {
        1
    };
    proof {
        assert(0 <= rows * line_h <= 8 * 0x10_0000) by (nonlinear_arith)
            requires
                0 <= rows <= 8,
                0 <= line_h <= 0x10_0000,
        ;
    }
    let h: usize = rows * line_h + NOTE_PAD_TOP + NOTE_PAD_BOTTOM;
    let least: usize = BUBBLE_CAP_TOP + BUBBLE_CAP_BOTTOM + 1;
    (
        if w < art_w {
            art_w
        } else {
            w
        },
        if h < least {
            least
        } else {
            h
        },
    )
}

/// The column opposite `sx`.
pub open spec fn mirror_of(art_w: int, sx: int) -> int {
    art_w - 1 - sx
}

/// The art's column that is shown for column `sx` of the unmirrored bubble:
/// the art is mirrored, so that its tail points to the bottom right.
pub fn mirrored(art_w: usize, sx: usize) -> (c: usize)
    requires
        sx < art_w,
    ensures
        c == mirror_of(art_w as int, sx as int),
{
    art_w - 1 - sx
}

/// A line of text to draw.
#[derive(Clone, Copy, PartialEq, Eq, Debug, Structural)]
pub struct Run {
    /// Which line.
    pub line: usize,
    pub x: usize,
    pub y: usize,
    pub color: Index,
}

/// What is drawn for the first `n` lines: each at its row, bold ones twice,
/// a pixel apart. The summary of a critical note is crimson.
pub open spec fn runs_to(bold: Seq<bool>, line_h: int, critical: bool, c: Colors, n: int) -> Seq<Run>
    decreases n,
{
    if n <= 0 {
        Seq::empty()
    } else {
        let color = if bold[n - 1] && critical {
            c.crimson
        } else {
            c.black
        };
        let y = (10 + (n - 1) * line_h) as usize;
        let line = (n - 1) as usize;
        let s = runs_to(bold, line_h, critical, c, n - 1).push(Run { line, x: 14, y, color });
        if bold[n - 1] {
            s.push(Run { line, x: 15, y, color })
        } else {
            s
        }
    }
}

/// Where the lines of a note are drawn, and in which colours.
pub fn note_runs(bold: &Vec<bool>, line_h: usize, is_critical: bool, c: &Colors) -> (runs: Vec<Run>)
    requires
        bold@.len() <= NOTE_MAX_LINES,
        line_h <= 0x10_0000,
    ensures
        runs@ == runs_to(bold@, line_h as int, is_critical, *c, bold@.len() as int),
{
    let mut runs: Vec<Run> = Vec::new();
    let mut y: usize = NOTE_PAD_TOP;
    let mut k: usize = 0;
    while k < bold.len()
        invariant
            k <= bold@.len(),
            bold@.len() <= 8,
            line_h <= 0x10_0000,
            y == 10 + k * line_h,
            0 <= k * line_h <= 8 * 0x10_0000,
            runs@ == runs_to(bold@, line_h as int, is_critical, *c, k as int),
        decreases bold@.len() - k,
    {
        let color: Index = if bold[k] && is_critical {
            c.crimson
        } else {
            c.black
        };
        runs.push(Run { line: k, x: NOTE_PAD_LEFT, y, color });
        if bold[k] {
            runs.push(Run { line: k, x: NOTE_PAD_LEFT + 1, y, color });
        }
        proof {
            assert((k + 1) * line_h == k * line_h + line_h) by (nonlinear_arith);
            assert((k + 1) * line_h <= 8 * 0x10_0000) by (nonlinear_arith)
                requires
                    k + 1 <= 8,
                    0 <= line_h <= 0x10_0000,
            ;
        }
        y = y + line_h;
        k = k + 1;
    }
    runs
}

/// A notification's bubble: its size, and the text drawn on it.
pub struct Bubble {
    pub w: usize,
    pub h: usize,
    pub runs: Vec<Run>,
}

/// Lay a note out as a bubble: as large as its lines need, the summary's
/// lines first and in bold. Without a font there are no lines and no text.
pub fn draw_note(
    lines: &NoteLines,
    widths: &Vec<usize>,
    line_h: usize,
    art_w: usize,
    is_critical: bool,
    c: &Colors,
) -> (b: Bubble)
    requires
        lines.wf(),
        lines.lines@.len() <= NOTE_MAX_LINES,
        widths@.len() == lines.lines@.len(),
        line_h <= 0x10_0000,
    ensures
        b.w == bubble_size(widths@, line_h as int, art_w as int).0,
        b.h == bubble_size(widths@, line_h as int, art_w as int).1,
        b.runs@ == runs_to(
            lines.bold@,
            line_h as int,
            is_critical,
            *c,
            lines.bold@.len() as int,
        ),
{
    let (w, h) = note_size(widths, line_h, art_w);
    Bubble { w, h, runs: note_runs(&lines.bold, line_h, is_critical, c) }
}

/// The text of a bubble fits into it: every row that is drawn ends above
/// the bubble's bottom padding.
pub proof fn note_text_fits_the_bubble(widths: Seq<usize>, line_h: int, art_w: int, k: int)
    requires
        0 <= k < widths.len() <= NOTE_MAX_LINES,
        0 <= line_h,
    ensures
        10 + k * line_h + line_h + 16 <= bubble_size(widths, line_h, art_w).1,
        widths[k] <= 280 ==> 14 + widths[k] + 16 <= bubble_size(widths, line_h, art_w).0,
{
    assert(k * line_h + line_h <= widths.len() * line_h) by (nonlinear_arith)
        requires
            k + 1 <= widths.len(),
            0 <= line_h,
    ;
    lemma_widest(widths, widths.len() as int, k);
}

proof fn lemma_widest(widths: Seq<usize>, n: int, k: int)
    requires
        0 <= k < n <= widths.len(),
    ensures
        widths[k] <= widest_to(widths, n),
    decreases n,
{
    if k < n - 1 {
        lemma_widest(widths, n - 1, k);
    }
}

/// The width of a text where no font could be read: a rough estimate that
/// keeps the bubble's geometry sane.
pub fn estimated_width(s: &str) -> (w: i32)
    requires
        s@.len() <= 0x1000_0000 - 1,
    ensures
        w == 8 * s@.len(),
{
    8 * s.unicode_len() as i32
}

/// Law: mirroring twice gives a column back, and the outermost columns are
/// each other's mirror.
pub proof fn mirroring_twice_changes_nothing(art_w: int, sx: int)
    requires
        0 <= sx < art_w,
    ensures
        mirror_of(art_w, mirror_of(art_w, sx)) == sx,
        mirror_of(art_w, 0) == art_w - 1,
        0 <= mirror_of(art_w, sx) < art_w,
{
}

/// Law: the widest line is as wide as any and is one of the lines.
pub proof fn the_widest_line_is_the_widest(widths: Seq<usize>, n: int)
    requires
        0 <= n <= widths.len(),
    ensures
        forall|i: int| 0 <= i < n ==> #[trigger] widths[i] <= widest_to(widths, n),
        n > 0 ==> exists|i: int| 0 <= i < n && #[trigger] widths[i] == widest_to(widths, n),
        n == 0 ==> widest_to(widths, n) == 0,
    decreases n,
{
    if n > 0 {
        the_widest_line_is_the_widest(widths, n - 1);
        if widths[n - 1] > widest_to(widths, n - 1) {
            assert(widths[n - 1] == widest_to(widths, n));
        } else if n == 1 {
            assert(widths[0] == widest_to(widths, n));
        } else {
            let i = choose|i: int| 0 <= i < n - 1 && #[trigger] widths[i] == widest_to(widths, n - 1);
            assert(widths[i] == widest_to(widths, n));
        }
    }
}

/// Law: a bubble is no larger than its text needs, its art and the longest
/// line allowed apart: it is as wide as its widest line with the padding,
/// and one line higher for every line more.
pub proof fn bubbles_are_no_larger_than_needed(widths: Seq<usize>, line_h: int, art_w: int)
    requires
        1 <= widths.len(),
        0 <= line_h,
        9 <= widths.len() * line_h,
    ensures
        ({
            let widest = widest_to(widths, widths.len() as int);
            let (w, h) = bubble_size(widths, line_h, art_w);
            &&& widest <= 280 && widest + 30 >= art_w ==> w == 14 + widest + 16
            &&& widest <= 280 && widest + 30 < art_w ==> w == art_w
            &&& widest > 280 && art_w <= 310 ==> w == 14 + 280 + 16
            &&& h == 10 + widths.len() * line_h + 16
        }),
{
}

/// Law: each line of a note is written once at its height, fourteen pixels
/// in, and a line of the summary once more a pixel to the right; only a
/// critical note's summary is crimson, everything else black.
pub proof fn lines_are_written_top_to_bottom(
    bold: Seq<bool>,
    line_h: int,
    critical: bool,
    c: Colors,
    n: int,
    k: int,
)
    requires
        0 <= k < n <= bold.len() <= NOTE_MAX_LINES,
        0 <= line_h <= 0x10_0000,
    ensures
        ({
            let color = if bold[k] && critical {
                c.crimson
            } else {
                c.black
            };
            let y = (10 + k * line_h) as usize;
            let runs = runs_to(bold, line_h, critical, c, n);
            &&& runs.contains(Run { line: k as usize, x: 14, y, color })
            &&& runs.contains(Run { line: k as usize, x: 15, y, color }) <==> bold[k]
        }),
    decreases n,
{
    let before = runs_to(bold, line_h, critical, c, n - 1);
    let runs = runs_to(bold, line_h, critical, c, n);
    let color = if bold[k] && critical {
        c.crimson
    } else {
        c.black
    };
    let y = (10 + k * line_h) as usize;
    let first = Run { line: k as usize, x: 14, y, color };
    let second = Run { line: k as usize, x: 15, y, color };
    if k < n - 1 {
        lines_are_written_top_to_bottom(bold, line_h, critical, c, n - 1, k);
        let i = choose|i: int| 0 <= i < before.len() && before[i] == first;
        assert(runs[i] == first);
        if bold[k] {
            let j = choose|j: int| 0 <= j < before.len() && before[j] == second;
            assert(runs[j] == second);
        } else if runs.contains(second) {
            let j = choose|j: int| 0 <= j < runs.len() && runs[j] == second;
            if j < before.len() {
                assert(before[j] == second);
            } else {
                assert(runs[j].line == n - 1);
            }
        }
    } else {
        assert(runs[before.len() as int] == first);
        if bold[k] {
            assert(runs[before.len() as int + 1] == second);
        } else if runs.contains(second) {
            let j = choose|j: int| 0 <= j < runs.len() && runs[j] == second;
            lemma_earlier_lines(bold, line_h, critical, c, n - 1);
            if j < before.len() {
                assert(before[j] == second);
                assert(before[j].line < n - 1);
            }
        }
    }
}

proof fn lemma_earlier_lines(bold: Seq<bool>, line_h: int, critical: bool, c: Colors, n: int)
    requires
        0 <= n <= bold.len() <= NOTE_MAX_LINES,
    ensures
        forall|i: int|
            0 <= i < runs_to(bold, line_h, critical, c, n).len() ==> (#[trigger] runs_to(
                bold,
                line_h,
                critical,
                c,
                n,
            )[i]).line < n,
    decreases n,
{
    if n > 0 {
        lemma_earlier_lines(bold, line_h, critical, c, n - 1);
        let before = runs_to(bold, line_h, critical, c, n - 1);
        let runs = runs_to(bold, line_h, critical, c, n);
        assert forall|i: int| 0 <= i < runs.len() implies (#[trigger] runs[i]).line < n by {
            if i < before.len() {
                assert(runs[i] == before[i]);
            }
        }
    }
}

proof fn lemma_bolds(wraps: Seq<Seq<Seq<char>>>, cut: int, n: int)
    requires
        0 <= n <= wraps.len(),
    ensures
        bolds_to(wraps, cut, n).len() == lines_to(wraps, n).len(),
    decreases n,
{
    if n > 0 {
        lemma_bolds(wraps, cut, n - 1);
    }
}

/// Law: the lines of the summary are bold and those of the body are not: a
/// line is bold exactly where it stands before the first line of the body.
pub proof fn the_summary_is_bold(wraps: Seq<Seq<Seq<char>>>, cut: int, n: int, k: int)
    requires
        0 <= cut <= wraps.len(),
        0 <= n <= wraps.len(),
        0 <= k < lines_to(wraps, n).len(),
    ensures
        k < bolds_to(wraps, cut, n).len(),
        bolds_to(wraps, cut, n)[k] <==> k < lines_to(wraps, cut).len(),
    decreases n,
{
    lemma_bolds(wraps, cut, n);
    lemma_bolds(wraps, cut, n - 1);
    if k < lines_to(wraps, n - 1).len() {
        the_summary_is_bold(wraps, cut, n - 1, k);
    } else {
        lemma_lines_grow(wraps, cut, n - 1);
        lemma_lines_grow(wraps, n, cut);
    }
}

proof fn lemma_lines_grow(wraps: Seq<Seq<Seq<char>>>, a: int, b: int)
    ensures
        a <= b ==> lines_to(wraps, a).len() <= lines_to(wraps, b).len(),
    decreases b,
{
    if a < b && b > 0 {
        lemma_lines_grow(wraps, a, b - 1);
    }
}

/// Law: a text's paragraphs are its lines that are not empty, in their order:
/// none of them holds a line end.
pub proof fn paragraphs_are_lines_that_say_something(s: Seq<char>, k: int)
    requires
        0 <= k <= s.len() + 1,
    ensures
        forall|i: int|
            0 <= i < paragraphs_from(s, k).len() ==> (#[trigger] paragraphs_from(s, k)[i]).len() > 0
                && !paragraphs_from(s, k)[i].contains('\n'),
    decreases s.len() + 1 - k,
{
    if k <= s.len() {
        let e = find_from(s, '\n', k, s.len() as int);
        lemma_find(s, '\n', k, s.len() as int);
        paragraphs_are_lines_that_say_something(s, e + 1);
        let rest = paragraphs_from(s, e + 1);
        let all = paragraphs_from(s, k);
        assert forall|i: int| 0 <= i < all.len() implies (#[trigger] all[i]).len() > 0
            && !all[i].contains('\n') by {
            if e > k {
                if i == 0 {
                    let first = s.subrange(k, e);
                    assert(all[0] == first);
                    if first.contains('\n') {
                        let j = choose|j: int| 0 <= j < first.len() && first[j] == '\n';
                        assert(s[k + j] == '\n');
                    }
                } else {
                    assert(all[i] == rest[i - 1]);
                }
            }
        }
    }
}

/// Law: a text that is one line is one paragraph, whole, and an empty text is
/// none; the summary's paragraphs come before the body's.
pub proof fn a_line_is_a_paragraph(s: Seq<char>, body: Seq<char>)
    requires
        s.len() > 0,
        !s.contains('\n'),
    ensures
        paragraphs_from(s, 0) == seq![s],
        paragraphs_from(Seq::empty(), 0) == Seq::<Seq<char>>::empty(),
        note_paragraphs(s, body)[0] == s,
        note_paragraphs(s, body).skip(1) == paragraphs_from(body, 0),
{
    let n = s.len() as int;
    let e = find_from(s, '\n', 0, n);
    lemma_find(s, '\n', 0, n);
    if e < n {
        assert(s[e] == '\n');
    }
    assert(s.subrange(0, n) =~= s);
    assert(paragraphs_from(s, n + 1) == Seq::<Seq<char>>::empty());
    assert(paragraphs_from(s, 0) =~= seq![s]);
    let none = Seq::<char>::empty();
    assert(paragraphs_from(none, 1) == Seq::<Seq<char>>::empty());
    assert(find_from(none, '\n', 0, 0) == 0);
    assert(paragraphs_from(none, 0) =~= Seq::<Seq<char>>::empty());
    assert(note_paragraphs(s, body).skip(1) =~= paragraphs_from(body, 0));
}

/// Law: what is too long is cut at its end.
pub proof fn only_the_first_lines_are_shown<T>(s: Seq<T>, n: int)
    requires
        0 <= n,
    ensures
        s.len() <= n ==> at_most(s, n) == s,
        s.len() > n ==> at_most(s, n).len() == n,
        forall|i: int| 0 <= i < at_most(s, n).len() ==> #[trigger] at_most(s, n)[i] == s[i],
{
}

/// Law: a note without lines has a bubble as high as a note of one line.
pub proof fn empty_notes_have_one_line(line_h: int, art_w: int, w: usize)
    requires
        0 <= line_h,
    ensures
        bubble_size(Seq::empty(), line_h, art_w).1 == bubble_size(seq![w], line_h, art_w).1,
        9 <= line_h ==> bubble_size(Seq::empty(), line_h, art_w).1 == 10 + line_h + 16,
        line_h <= 9 ==> bubble_size(Seq::empty(), line_h, art_w).1 == 35,
{
}

} // verus!
