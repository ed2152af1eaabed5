//! Splitting one axis of a stack among its rows.

use crate::geom::{fits_i32, imax, imin, max_i32, min_i32};
use vstd::prelude::*;

verus! {

/// A row's share of its stack, as a fixed-point fraction: `SHARE_ONE` is
/// the whole stack. Only the proportions between the shares of one stack
/// matter.
pub type Share = u64;

/// The share that stands for a whole. Decimal fractions of it are whole, and
/// so are equal parts of a stack of up to sixteen rows.
pub const SHARE_ONE: u64 = 720_720_000_000_000;

/// One row as the allocation sees it: whether it is collapsed, and its
/// share.
pub type Child = (bool, Share);

/// The sum of the shares of the first `n` rows that are not collapsed.
pub open spec fn normal_shares(kids: Seq<Child>, n: int) -> int
    decreases n,
{
    if n <= 0 {
        0
    } else {
        normal_shares(kids, n - 1) + if kids[n - 1].0 {
            0
        } else {
            kids[n - 1].1 as int
        }
    }
}

/// How many of the first `n` rows are not collapsed.
pub open spec fn normal_count(kids: Seq<Child>, n: int) -> int
    decreases n,
{
    if n <= 0 {
        0
    } else {
        normal_count(kids, n - 1) + if kids[n - 1].0 {
            0int
        } else {
            1
        }
    }
}

/// What the shares are measured against: their sum, or one whole when
/// every share is zero.
pub open spec fn share_base(kids: Seq<Child>) -> int {
    let s = normal_shares(kids, kids.len() as int);
    if s <= 0 {
        SHARE_ONE as int
    } else {
        s
    }
}

/// The pixels left for rows that are not collapsed, once each collapsed
/// one took `min_sz`.
pub open spec fn usable_normal(kids: Seq<Child>, usable: int, min_sz: int) -> int {
    imax(usable - (kids.len() - normal_count(kids, kids.len() as int)) * min_sz, 0)
}

/// The pixel every uncollapsed row is promised: one, or none when there
/// are more such rows than pixels.
pub open spec fn pixel_floor(kids: Seq<Child>, usable: int, min_sz: int) -> int {
    if usable_normal(kids, usable, min_sz) >= normal_count(kids, kids.len() as int) {
        1
    } else {
        0
    }
}

/// Whether row `i` is the last one that is not collapsed.
pub open spec fn is_last_normal(kids: Seq<Child>, i: int) -> bool {
    &&& 0 <= i < kids.len()
    &&& !kids[i].0
    &&& normal_count(kids, i + 1) == normal_count(kids, kids.len() as int)
}

/// The size of row `i` when the uncollapsed rows before it took `taken`
/// pixels: a collapsed row gets `min_sz`; any other its proportional part
/// rounded down, at least the pixel floor and leaving that floor for each
/// later row; the last uncollapsed row gets the rest.
pub open spec fn size_after(kids: Seq<Child>, usable: int, min_sz: int, i: int, taken: int) -> int {
    let un = usable_normal(kids, usable, min_sz);
    let floor = pixel_floor(kids, usable, min_sz);
    let later = normal_count(kids, kids.len() as int) - normal_count(kids, i + 1);
    if kids[i].0 {
        min_sz
    } else if is_last_normal(kids, i) {
        imax(un - taken, floor)
    } else {
        imin(imax(un * kids[i].1 / share_base(kids), floor), imax(un - taken - later * floor, floor))
    }
}

/// The pixels handed to uncollapsed rows before row `i`.
pub open spec fn allocated(kids: Seq<Child>, usable: int, min_sz: int, i: int) -> int
    decreases i,
{
    if i <= 0 {
        0
    } else {
        let before = allocated(kids, usable, min_sz, i - 1);
        before + if kids[i - 1].0 {
            0
        } else {
            size_after(kids, usable, min_sz, i - 1, before)
        }
    }
}

/// The size of row `i`.
pub open spec fn size_of_child(kids: Seq<Child>, usable: int, min_sz: int, i: int) -> int {
    size_after(kids, usable, min_sz, i, allocated(kids, usable, min_sz, i))
}

/// Every row's size.
pub open spec fn sizes_of(kids: Seq<Child>, usable: int, min_sz: int) -> Seq<int> {
    Seq::new(kids.len(), |i: int| size_of_child(kids, usable, min_sz, i))
}

/// The sum of the first `n` entries.
pub open spec fn sum_to(s: Seq<int>, n: int) -> int
    decreases n,
{
    if n <= 0 {
        0
    } else {
        sum_to(s, n - 1) + s[n - 1]
    }
}

/// What the allocation can be asked for without leaving the `i32` range.
pub open spec fn sizes_fit(n: int, usable: int, min_sz: int) -> bool {
    &&& 0 <= min_sz
    &&& 0 <= n <= i32::MAX
    &&& n * min_sz <= i32::MAX
    &&& fits_i32(usable)
    &&& i32::MIN <= usable - n * min_sz
}

pub proof fn lemma_count_bounds(kids: Seq<Child>, n: int)
    requires
        0 <= n <= kids.len(),
    ensures
        0 <= normal_count(kids, n) <= n,
        0 <= normal_shares(kids, n),
        normal_count(kids, n) == 0 ==> normal_shares(kids, n) == 0,
        normal_shares(kids, n) <= n * (u64::MAX as int),
    decreases n,
{
    if n > 0 {
        lemma_count_bounds(kids, n - 1);
        assert(n * (u64::MAX as int) == (n - 1) * (u64::MAX as int) + u64::MAX as int)
            by (nonlinear_arith);
    }
}

pub proof fn lemma_count_monotonic(kids: Seq<Child>, i: int, j: int)
    requires
        0 <= i <= j <= kids.len(),
    ensures
        normal_count(kids, i) <= normal_count(kids, j),
        normal_count(kids, j) <= normal_count(kids, i) + (j - i),
        normal_shares(kids, i) <= normal_shares(kids, j),
    decreases j - i,
{
    if i < j {
        lemma_count_monotonic(kids, i, j - 1);
    }
}

/// What is handed out before row `i` never eats into the floors of the
/// rows from `i` on.
proof fn lemma_allocated(kids: Seq<Child>, usable: int, min_sz: int, i: int)
    requires
        0 <= i <= kids.len(),
        normal_count(kids, i) < normal_count(kids, kids.len() as int) || i == 0,
    ensures
        0 <= allocated(kids, usable, min_sz, i),
        allocated(kids, usable, min_sz, i) + (normal_count(kids, kids.len() as int) - normal_count(
            kids,
            i,
        )) * pixel_floor(kids, usable, min_sz) <= usable_normal(kids, usable, min_sz),
    decreases i,
{
    let total = normal_count(kids, kids.len() as int);
    let floor = pixel_floor(kids, usable, min_sz);
    lemma_count_bounds(kids, kids.len() as int);
    assert(floor == 0 ==> (total - normal_count(kids, i)) * floor == 0);
    assert(floor == 1 ==> (total - normal_count(kids, i)) * floor == total - normal_count(kids, i));
    if i > 0 {
        lemma_count_monotonic(kids, i - 1, i);
        lemma_allocated(kids, usable, min_sz, i - 1);
        assert((total - normal_count(kids, i - 1)) * floor == (if floor == 1 {
            total - normal_count(kids, i - 1)
        } else {
            0
        }));
        if !kids[i - 1].0 {
            let un = usable_normal(kids, usable, min_sz);
            lemma_count_bounds(kids, kids.len() as int);
            let base = share_base(kids);
            assert(un * kids[i - 1].1 >= 0) by (nonlinear_arith)
                requires
                    un >= 0,
                    kids[i - 1].1 >= 0,
            ;
            assert(un * kids[i - 1].1 / base >= 0) by (nonlinear_arith)
                requires
                    un * kids[i - 1].1 >= 0,
                    base > 0,
            ;
        }
    }
}

/// Every size is non-negative, and an uncollapsed row gets at least the
/// pixel floor.
pub proof fn lemma_size_bounds(kids: Seq<Child>, usable: int, min_sz: int, i: int)
    requires
        0 <= i < kids.len(),
        0 <= min_sz,
    ensures
        0 <= size_of_child(kids, usable, min_sz, i),
        !kids[i].0 ==> pixel_floor(kids, usable, min_sz) <= size_of_child(kids, usable, min_sz, i),
        !kids[i].0 ==> size_of_child(kids, usable, min_sz, i) <= usable_normal(
            kids,
            usable,
            min_sz,
        ),
        kids[i].0 ==> size_of_child(kids, usable, min_sz, i) == min_sz,
{
    if !kids[i].0 {
        lemma_count_monotonic(kids, i, i + 1);
        lemma_count_monotonic(kids, i + 1, kids.len() as int);
        lemma_allocated(kids, usable, min_sz, i);
        lemma_count_bounds(kids, i);
        let total = normal_count(kids, kids.len() as int);
        let floor = pixel_floor(kids, usable, min_sz);
        assert((total - normal_count(kids, i)) * floor == (if floor == 1 {
            total - normal_count(kids, i)
        } else {
            0
        }));
        assert((total - normal_count(kids, i + 1)) * floor == (if floor == 1 {
            total - normal_count(kids, i + 1)
        } else {
            0
        }));
    }
}

/// Law: the uncollapsed rows of a stack share its free pixels exactly,
/// however the shares round.
pub proof fn sizes_fill_free_space(kids: Seq<Child>, usable: int, min_sz: int)
    requires
        normal_count(kids, kids.len() as int) > 0,
    ensures
        allocated(kids, usable, min_sz, kids.len() as int) == usable_normal(kids, usable, min_sz),
{
    lemma_fill(kids, usable, min_sz, kids.len() as int);
}

proof fn lemma_fill(kids: Seq<Child>, usable: int, min_sz: int, n: int)
    requires
        0 < n <= kids.len(),
        normal_count(kids, kids.len() as int) > 0,
        normal_count(kids, n) == normal_count(kids, kids.len() as int),
    ensures
        allocated(kids, usable, min_sz, n) == usable_normal(kids, usable, min_sz),
    decreases n,
{
    lemma_count_bounds(kids, n);
    if kids[n - 1].0 {
        assert(normal_count(kids, n - 1) == normal_count(kids, n));
        assert(n > 1);
        lemma_fill(kids, usable, min_sz, n - 1);
    } else {
        assert(is_last_normal(kids, n - 1));
        lemma_allocated(kids, usable, min_sz, n - 1);
        let total = normal_count(kids, kids.len() as int);
        let floor = pixel_floor(kids, usable, min_sz);
        assert((total - normal_count(kids, n - 1)) * floor == floor);
    }
}

/// Law: the rows of a stack with an uncollapsed row add up to the stack,
/// whenever the collapsed ones leave room; without one they add up to
/// `min_sz` each.
pub proof fn sizes_sum(kids: Seq<Child>, usable: int, min_sz: int)
    requires
        0 <= min_sz,
    ensures
        sum_to(sizes_of(kids, usable, min_sz), kids.len() as int) == (kids.len() - normal_count(
            kids,
            kids.len() as int,
        )) * min_sz + (if normal_count(kids, kids.len() as int) > 0 {
            usable_normal(kids, usable, min_sz)
        } else {
            0
        }),
        normal_count(kids, kids.len() as int) > 0 && (kids.len() - normal_count(
            kids,
            kids.len() as int,
        )) * min_sz <= usable ==> sum_to(sizes_of(kids, usable, min_sz), kids.len() as int)
            == usable,
{
    lemma_sum_split(kids, usable, min_sz, kids.len() as int);
    if normal_count(kids, kids.len() as int) > 0 {
        sizes_fill_free_space(kids, usable, min_sz);
    } else {
        lemma_count_bounds(kids, kids.len() as int);
        lemma_none_allocated(kids, usable, min_sz, kids.len() as int);
    }
}

proof fn lemma_none_allocated(kids: Seq<Child>, usable: int, min_sz: int, n: int)
    requires
        0 <= n <= kids.len(),
        normal_count(kids, n) == 0,
    ensures
        allocated(kids, usable, min_sz, n) == 0,
    decreases n,
{
    if n > 0 {
        lemma_count_bounds(kids, n - 1);
        lemma_none_allocated(kids, usable, min_sz, n - 1);
    }
}

pub proof fn lemma_sum_split(kids: Seq<Child>, usable: int, min_sz: int, n: int)
    requires
        0 <= n <= kids.len(),
    ensures
        sum_to(sizes_of(kids, usable, min_sz), n) == allocated(kids, usable, min_sz, n) + (n
            - normal_count(kids, n)) * min_sz,
    decreases n,
{
    if n > 0 {
        lemma_sum_split(kids, usable, min_sz, n - 1);
        assert(sizes_of(kids, usable, min_sz)[n - 1] == size_of_child(kids, usable, min_sz, n - 1));
        let k = n - 1 - normal_count(kids, n - 1);
        assert((k + 1) * min_sz == k * min_sz + min_sz) by (nonlinear_arith);
        assert(n - normal_count(kids, n) == if kids[n - 1].0 {
            k + 1
        } else {
            k
        });
    } else {
        assert(0 * min_sz == 0);
    }
}

/// Split `usable` pixels among the rows of a stack: `children` is
/// (is-collapsed, share) per row. A collapsed row gets `min_sz`; the rest
/// split what remains by their shares.
pub fn child_sizes(children: &[Child], usable: i32, min_sz: i32) -> (sizes: Vec<i32>)
    requires
        sizes_fit(children@.len() as int, usable as int, min_sz as int),
    ensures
        sizes@.len() == children@.len(),
        forall|i: int|
            0 <= i < sizes@.len() ==> #[trigger] sizes@[i] == size_of_child(
                children@,
                usable as int,
                min_sz as int,
                i,
            ),
{
    let n: usize = children.len();
    let ghost kids = children@;
    let mut min_count: i32 = 0;
    let mut normals_total: i32 = 0;
    let mut share_sum: u128 = 0;
    let mut k: usize = 0;
    while k < n
        invariant
            k <= n,
            n == kids.len(),
            n <= i32::MAX,
            kids == children@,
            normals_total == normal_count(kids, k as int),
            min_count == k - normals_total,
            0 <= min_count <= k,
            0 <= normals_total <= k,
            share_sum == normal_shares(kids, k as int),
        decreases n - k,
    {
        proof {
            lemma_count_bounds(kids, k as int);
            lemma_count_bounds(kids, k + 1);
            assert((k + 1) * (u64::MAX as int) <= i32::MAX * (u64::MAX as int))
                by (nonlinear_arith)
                requires
                    k + 1 <= i32::MAX,
            ;
        }
        let (is_min, share) = children[k];
        if is_min {
            min_count = min_count + 1;
        } else {
            share_sum = share_sum + share as u128;
            normals_total = normals_total + 1;
        }
        k = k + 1;
    }
    let base: u128 = if share_sum == 0 {
        SHARE_ONE as u128
    } else {
        share_sum
    };
    proof {
        lemma_count_bounds(kids, n as int);
        assert(min_count * min_sz <= n * min_sz) by (nonlinear_arith)
            requires
                min_count <= n,
                0 <= min_sz,
        ;
        assert(0 <= min_count * min_sz) by (nonlinear_arith)
            requires
                0 <= min_count,
                0 <= min_sz,
        ;
    }
    let free: i32 = max_i32(usable - min_count * min_sz, 0);
    assert(free == usable_normal(kids, usable as int, min_sz as int));
    let floor: i32 = if free >= normals_total {
        1
    } else {
        0
    };
    let mut sizes: Vec<i32> = Vec::new();
    let mut taken: i32 = 0;
    let mut seen: i32 = 0;
    let mut i: usize = 0;
    while i < n
        invariant
            i <= n,
            n == kids.len(),
            n <= i32::MAX,
            kids == children@,
            0 <= min_sz,
            base == share_base(kids),
            base > 0,
            normals_total == normal_count(kids, n as int),
            0 <= normals_total,
            free == usable_normal(kids, usable as int, min_sz as int),
            floor == pixel_floor(kids, usable as int, min_sz as int),
            floor == 0 || floor == 1,
            0 <= free,
            seen == normal_count(kids, i as int),
            0 <= seen <= i,
            sizes@.len() == i,
            taken == allocated(kids, usable as int, min_sz as int, i as int),
            0 <= taken <= free,
            forall|j: int|
                0 <= j < i ==> #[trigger] sizes@[j] == size_of_child(
                    kids,
                    usable as int,
                    min_sz as int,
                    j,
                ),
        decreases n - i,
    {
        proof {
            lemma_count_bounds(kids, i as int);
            lemma_count_monotonic(kids, i as int, i + 1);
            lemma_count_monotonic(kids, i + 1, n as int);
            lemma_size_bounds(kids, usable as int, min_sz as int, i as int);
        }
        let (is_min, share) = children[i];
        if is_min {
            sizes.push(min_sz);
        } else {
            seen = seen + 1;
            proof {
                lemma_allocated(kids, usable as int, min_sz as int, i as int);
                let r = normals_total - seen;
                assert(r * floor == (if floor == 1 {
                    r
                } else {
                    0
                }));
                assert((r + 1) * floor == (if floor == 1 {
                    r + 1
                } else {
                    0
                }));
            }
            let sz: i32;
            if seen == normals_total {
                assert(is_last_normal(kids, i as int));
                sz = max_i32(free - taken, floor);
            } else {
                assert(!is_last_normal(kids, i as int));
                let left: i32 = free - taken - (normals_total - seen) * floor;
                proof {
                    assert(0 <= free * share <= i32::MAX * (u64::MAX as int)) by (nonlinear_arith)
                        requires
                            0 <= free <= i32::MAX,
                            0 <= share <= u64::MAX,
                    ;
                    lemma_part_fits(kids, i as int, free as int);
                }
                let part: u128 = (free as u128) * (share as u128) / base;
                sz = min_i32(max_i32(part as i32, floor), max_i32(left, floor));
            }
            sizes.push(sz);
            taken = taken + sz;
        }
        proof {
            if i + 1 < n && normal_count(kids, i + 1) < normals_total {
                lemma_allocated(kids, usable as int, min_sz as int, i + 1);
                let r = normals_total - normal_count(kids, i + 1);
                assert(0 <= r * floor) by (nonlinear_arith)
                    requires
                        0 <= r,
                        0 <= floor,
                ;
            } else if normals_total > 0 {
                if normal_count(kids, i + 1) == normals_total {
                    lemma_fill(kids, usable as int, min_sz as int, i + 1);
                }
            } else {
                lemma_count_bounds(kids, i + 1);
                lemma_none_allocated(kids, usable as int, min_sz as int, i + 1);
            }
        }
        i = i + 1;
    }
    sizes
}

proof fn lemma_part_fits(kids: Seq<Child>, i: int, free: int)
    requires
        0 <= i < kids.len(),
        !kids[i].0,
        0 <= free,
    ensures
        0 <= free * kids[i].1 / share_base(kids) <= free,
{
    lemma_count_bounds(kids, i);
    lemma_count_monotonic(kids, i + 1, kids.len() as int);
    let s = kids[i].1 as int;
    let b = share_base(kids);
    assert(s <= b);
    assert(0 <= free * s / b <= free) by (nonlinear_arith)
        requires
            0 <= s <= b,
            0 < b,
            0 <= free,
    ;
}

} // verus!
