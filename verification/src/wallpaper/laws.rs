//! What preparing and caching wallpapers promises.

use super::{
    at_least_one, band_start, bands_of, cache_base, cache_dir, is_band, joined, wallpapers_to,
    Band, CacheFile, Wallpaper,
};
use vstd::prelude::*;

verus! {

/// Law: two parts of a path are joined by exactly one slash.
pub proof fn paths_are_joined_by_one_slash(base: Seq<char>, name: Seq<char>)
    requires
        base.len() > 0,
        base.last() != '/',
    ensures
        joined(base, name) == base + seq!['/'] + name,
        joined(base + seq!['/'], name) == joined(base, name),
        joined(Seq::empty(), name) == name,
{
    reveal_strlit("/");
    assert("/"@ =~= seq!['/']);
    assert((base + seq!['/']).last() == '/');
    assert(Seq::<char>::empty() + name =~= name);
}

/// Law: the cache is below the directory named for caches, and below the home
/// directory's own one where none is named.
pub proof fn the_cache_is_where_caches_are(xdg: Seq<char>, home: Seq<char>)
    requires
        xdg.len() > 0,
        home.len() > 0,
    ensures
        cache_base(Some(xdg), Some(home)) == Some(xdg),
        cache_base(Some(xdg), None) == Some(xdg),
        cache_base(None, Some(home)) == Some(joined(home, ".cache"@)),
        cache_base(Some(Seq::empty()), Some(home)) == cache_base(None, Some(home)),
        cache_base(None, None) is None,
        cache_dir(Some(xdg), None) == Some(joined(xdg, "splitwm"@)),
{
}

/// Law: a wallpaper is loaded again exactly where its file or the size it is
/// wanted at changed.
pub proof fn wallpapers_are_loaded_once(w: Wallpaper, path: Seq<char>, x: i32, y: i32)
    ensures
        w.answers(w.path@, w.w, w.h),
        path != w.path@ ==> !w.answers(path, w.w, w.h),
        x != w.w ==> !w.answers(w.path@, x, w.h),
        y != w.h ==> !w.answers(w.path@, w.w, y),
{
}

/// Law: a picture is prepared at the size it is wanted at, and never empty.
pub proof fn pictures_are_never_empty(v: int)
    ensures
        v >= 1 ==> at_least_one(v) == v,
        v < 1 ==> at_least_one(v) == 1,
{
}

/// Law: a band has, above and below its own rows, the six rows that they
/// reach into, as far as the picture has them.
pub proof fn bands_have_what_they_reach(band: Band, dh: int, bands: int, b: int, row: int, d: int)
    requires
        is_band(band, dh, bands, b),
        band.rows.0 <= row < band.rows.1 <= dh,
        -6 <= d <= 6,
        0 <= row + d < dh,
    ensures
        band.ext.0 <= row + d < band.ext.1,
        band.ext.0 <= band.rows.0,
        band.rows.1 <= band.ext.1 <= dh,
        band.rows.0 == band_start(dh, bands, b),
        band.rows.1 == band_start(dh, bands, b + 1),
{
}

/// Law: there are no more bands than two for each processor, and none of
/// fewer than twelve rows, but for one.
pub proof fn bands_are_worth_their_work(dh: int, cores: int)
    requires
        0 <= dh,
        1 <= cores,
    ensures
        1 <= bands_of(dh, cores) <= 2 * cores,
        bands_of(dh, cores) > 1 ==> 12 * bands_of(dh, cores) <= dh,
        bands_of(dh, cores) < 2 * cores && bands_of(dh, cores) > 1 ==> dh < 12 * (bands_of(
            dh,
            cores,
        ) + 1),
{
}

/// Law: only wallpapers are counted and evicted, every one of them.
pub proof fn only_wallpapers_are_evicted(files: Seq<CacheFile>, n: int)
    requires
        0 <= n <= files.len() <= usize::MAX,
    ensures
        forall|i: int|
            0 <= i < n && (#[trigger] files[i]).is_wallpaper() ==> wallpapers_to(files, n).contains(
                i as usize,
            ),
        forall|k: int|
            0 <= k < wallpapers_to(files, n).len() ==> (#[trigger] wallpapers_to(files, n)[k]) < n
                && files[wallpapers_to(files, n)[k] as int].is_wallpaper(),
    decreases n,
{
    if n > 0 {
        only_wallpapers_are_evicted(files, n - 1);
        let before = wallpapers_to(files, n - 1);
        let all = wallpapers_to(files, n);
        assert forall|i: int| 0 <= i < n && (#[trigger] files[i]).is_wallpaper() implies all.contains(
            i as usize,
        ) by {
            if i < n - 1 {
                let k = choose|k: int| 0 <= k < before.len() && before[k] == i as usize;
                assert(all[k] == i as usize);
            } else {
                assert(all[before.len() as int] == i as usize);
            }
        }
        assert forall|k: int| 0 <= k < all.len() implies (#[trigger] all[k]) < n
            && files[all[k] as int].is_wallpaper() by {
            if k < before.len() {
                assert(all[k] == before[k]);
            }
        }
    }
}

} // verus!
