//! Icons as palette indices at a size, worked out once and drawn many times.

use crate::cache::{Capped, IconKey};
use crate::draw::TRANSPARENT;
use crate::image::{icon_samples, sample, Icon, Rgb};
use crate::taskbar::{dots_to, for_each_icon_pixel, Dot};
use crate::Index;
use vstd::prelude::*;

verus! {

/// How many renderings are kept.
pub const ICON_CACHE_CAP: usize = 256;

/// The renderings of icons.
pub type IconCache = Capped<IconKey, Vec<Index>>;

/// Every rendering fills its box.
pub open spec fn filled_boxes(cache: IconCache) -> bool {
    forall|key: IconKey|
        #![trigger cache.held(key)]
        cache.held(key) is Some && key.size >= 1 ==> cache.held(key)->0@.len() == key.size
            * key.size
}

/// Whether `idx` is the icon at a size: transparent where the sample is,
/// elsewhere the palette entry that is nearest to it.
pub open spec fn is_rendering<F: Fn(Rgb) -> Index>(
    nearest: F,
    img: Icon,
    size: int,
    idx: Seq<Index>,
) -> bool {
    &&& idx.len() == size * size
    &&& forall|n: int|
        0 <= n < idx.len() ==> match sample(img.argb@, img.w as int, img.h as int, size, n) {
            None => #[trigger] idx[n] == TRANSPARENT,
            Some(c) => call_ensures(nearest, (c,), idx[n]),
        }
}

/// Work out the icon at a size, unless it is kept already. `nearest` answers
/// which palette entry is closest to a colour.
pub fn cached_icon_indices<F: Fn(Rgb) -> Index>(
    cache: &mut IconCache,
    img: &Icon,
    size: i32,
    nearest: F,
)
    requires
        img.wf(),
        img.w > 0,
        img.h > 0,
        size >= 1,
        size * size <= usize::MAX,
        filled_boxes(*old(cache)),
        forall|c: Rgb| call_requires(nearest, (c,)),
    ensures
        filled_boxes(*final(cache)),
        ({
            let key = IconKey { id: img.id, size };
            match old(cache).held(key) {
                Some(_) => *final(cache) == *old(cache),
                None => {
                    &&& final(cache).held(key) is Some
                    &&& is_rendering(nearest, *img, size as int, final(cache).held(key)->0@)
                    &&& forall|other: IconKey|
                        other != key ==> #[trigger] final(cache).held(other) == (if old(
                            cache,
                        ).entries@.len() >= ICON_CACHE_CAP {
                            None
                        } else {
                            old(cache).held(other)
                        })
                },
            }
        }),
        old(cache).entries@.len() <= ICON_CACHE_CAP ==> final(cache).entries@.len()
            <= ICON_CACHE_CAP,
{
    let key = IconKey { id: img.id, size };
    if cache.get(&key).is_some() {
        return;
    }
    let samples = icon_samples(img, size);
    let mut idx: Vec<Index> = Vec::new();
    let mut n: usize = 0;
    while n < samples.len()
        invariant
            n <= samples@.len(),
            idx@.len() == n,
            forall|c: Rgb| call_requires(nearest, (c,)),
            forall|k: int|
                0 <= k < n ==> match samples@[k] {
                    None => #[trigger] idx@[k] == TRANSPARENT,
                    Some(c) => call_ensures(nearest, (c,), idx@[k]),
                },
        decreases samples@.len() - n,
    {
        let i: Index = match samples[n] {
            None => TRANSPARENT,
            Some(c) => nearest(c),
        };
        idx.push(i);
        n = n + 1;
    }
    let ghost was = *cache;
    let ghost made = idx;
    cache.insert_capped(ICON_CACHE_CAP, key, idx);
    proof {
        assert forall|k: int| 0 <= k < made@.len() implies (match sample(
            img.argb@,
            img.w as int,
            img.h as int,
            size as int,
            k,
        ) {
            None => #[trigger] made@[k] == TRANSPARENT,
            Some(c) => call_ensures(nearest, (c,), made@[k]),
        }) by {
            assert(samples@[k] == sample(
                img.argb@,
                img.w as int,
                img.h as int,
                size as int,
                k,
            ));
        }
        assert forall|other: IconKey|
            #![trigger cache.held(other)]
            cache.held(other) is Some && other.size >= 1 implies cache.held(other)->0@.len()
            == other.size * other.size by {
            if other != key {
                assert(was.held(other) == cache.held(other));
            }
        }
    }
}

/// Draw an icon scaled into a box: each opaque pixel at its place. An icon or
/// a box without pixels draws nothing.
pub fn draw_icon<F: Fn(Rgb) -> Index>(
    cache: &mut IconCache,
    img: &Icon,
    dx: i32,
    dy: i32,
    size: i32,
    nearest: F,
) -> (dots: Vec<Dot>)
    requires
        img.wf(),
        size <= 0x1000_0000,
        size >= 1 ==> size * size <= usize::MAX,
        -0x3000_0000 <= dx <= 0x3000_0000,
        -0x3000_0000 <= dy <= 0x3000_0000,
        filled_boxes(*old(cache)),
        forall|c: Rgb| call_requires(nearest, (c,)),
    ensures
        filled_boxes(*final(cache)),
        ({
            let key = IconKey { id: img.id, size };
            if img.w == 0 || img.h == 0 || size < 1 {
                dots@ == Seq::<Dot>::empty() && *final(cache) == *old(cache)
            } else {
                &&& final(cache).held(key) is Some
                &&& dots@ == dots_to(
                    final(cache).held(key)->0@,
                    size as int,
                    dx as int,
                    dy as int,
                    size * size,
                )
                &&& match old(cache).held(key) {
                    Some(v) => final(cache).held(key) == Some(v),
                    None => is_rendering(nearest, *img, size as int, final(cache).held(key)->0@),
                }
            }
        }),
{
    if img.w == 0 || img.h == 0 || size < 1 {
        return Vec::new();
    }
    cached_icon_indices(cache, img, size, nearest);
    let key = IconKey { id: img.id, size };
    match cache.get(&key) {
        Some(idx) => for_each_icon_pixel((img.w, img.h), idx, dx, dy, size),
        None => Vec::new(),
    }
}

} // verus!
