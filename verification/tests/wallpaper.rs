use splitwm::image::Rgb;
use splitwm::wallpaper::{
    band_layout, evict_stale_wallpaper_caches, fnv1a, join, load_cached_wallpaper, needs_load,
    split_rows, stored_bytes, target_size, wallpaper_cache_path, CacheFile, Source, Wallpaper,
    MAX_CACHED_WALLPAPERS,
};

#[test]
fn fnv1a_is_deterministic_and_sensitive_to_input() {
    assert_eq!(fnv1a(b"hello"), fnv1a(b"hello"));
    assert_ne!(fnv1a(b"hello"), fnv1a(b"hellp"));
}

#[test]
fn fnv1a_gives_the_published_values() {
    assert_eq!(fnv1a(b""), 0xcbf2_9ce4_8422_2325);
    assert_eq!(fnv1a(b"a"), 0xaf63_dc4c_8601_ec8c);
}

#[test]
fn render_wallpaper_cache_round_trips_and_rejects_stale_headers() {
    let indices: Vec<u8> = vec![0, 1, 2, 3, 4, 5];
    let header = b"splitwm-wallpaper-v1\ntest-header".to_vec();
    let stored = stored_bytes(&header, &indices);
    assert_eq!(
        load_cached_wallpaper(stored.clone(), &header, 3, 2).as_deref(),
        Some(indices.as_slice())
    );
    // Any header mismatch is a miss, as is a body of the wrong length.
    assert!(
        load_cached_wallpaper(stored.clone(), b"splitwm-wallpaper-v1\nother", 3, 2).is_none()
    );
    assert!(load_cached_wallpaper(stored, &header, 4, 2).is_none());
}

#[test]
fn render_wallpaper_cache_path_varies_with_header() {
    let at = |h: &[u8]| wallpaper_cache_path(Some("/c"), None, h).unwrap();
    let a = at(b"splitwm-wallpaper-v1\nfoo.png-100x100");
    let b = at(b"splitwm-wallpaper-v1\nbar.png-200x200");
    assert_ne!(a, b);
    let dir = |p: &str| p.rsplit_once('/').unwrap().0.to_string();
    assert_eq!(dir(&a), dir(&b));
    assert_eq!(a, at(b"splitwm-wallpaper-v1\nfoo.png-100x100"));
}

#[test]
fn wallpaper_wallpaper_cache_round_trips_and_rejects_stale_headers() {
    let indices: Vec<u8> = vec![0, 1, 2, 3, 4, 5];
    let header = b"splitwm-wallpaper-v2\ntest-header".to_vec();
    let stored = stored_bytes(&header, &indices);
    assert_eq!(
        load_cached_wallpaper(stored.clone(), &header, 3, 2).as_deref(),
        Some(indices.as_slice())
    );
    assert!(
        load_cached_wallpaper(stored.clone(), b"splitwm-wallpaper-v2\nother", 3, 2).is_none()
    );
    assert!(load_cached_wallpaper(stored, &header, 4, 2).is_none());
}

#[test]
fn wallpaper_wallpaper_cache_path_varies_with_header() {
    let at = |h: &[u8]| wallpaper_cache_path(None, Some("/home/me"), h).unwrap();
    let a = at(b"splitwm-wallpaper-v2\nfoo.png-100x100");
    let b = at(b"splitwm-wallpaper-v2\nbar.png-200x200");
    assert_ne!(a, b);
    let dir = |p: &str| p.rsplit_once('/').unwrap().0.to_string();
    assert_eq!(dir(&a), dir(&b));
    assert_eq!(dir(&a), "/home/me/.cache/splitwm");
    assert_eq!(a, at(b"splitwm-wallpaper-v2\nfoo.png-100x100"));
}

#[test]
fn store_evicts_all_but_the_most_recent_n() {
    // More distinct entries than the cap: each store should leave only the
    // newest ones behind.
    let n = MAX_CACHED_WALLPAPERS + 3;
    let mut files: Vec<CacheFile> = Vec::new();
    for i in 0..n {
        files.push(CacheFile { name: format!("wallpaper-{i:016x}"), mtime: i as i128 * 10 });
        let gone = evict_stale_wallpaper_caches(&files);
        let mut k = 0;
        files.retain(|_| {
            k += 1;
            !gone.contains(&(k - 1))
        });
    }
    let remaining: Vec<String> = files.iter().map(|f| f.name.clone()).collect();
    assert_eq!(remaining.len(), MAX_CACHED_WALLPAPERS);
    for i in (n - MAX_CACHED_WALLPAPERS)..n {
        assert!(
            remaining.contains(&format!("wallpaper-{i:016x}")),
            "expected the most recent entry {i} to survive eviction, got {remaining:?}"
        );
    }
}

#[test]
fn eviction_spares_other_files_and_goes_oldest_first() {
    let f = |name: &str, mtime| CacheFile { name: name.into(), mtime };
    let files = vec![
        f("wallpaper-a", 3),
        f("notes", -5),
        f("wallpaper-b", 1),
        f("wallpaper-c", 9),
        f("wallpaper-d", 1),
        f("wallpaper-e", 7),
        f("wallpaper-f", 8),
    ];
    assert_eq!(evict_stale_wallpaper_caches(&files), vec![2, 4]);
}

#[test]
fn unset_directories_leave_no_cache() {
    assert_eq!(wallpaper_cache_path(None, None, b"h"), None);
    assert_eq!(wallpaper_cache_path(Some(""), Some(""), b"h"), None);
    assert_eq!(
        wallpaper_cache_path(Some("/x/"), Some("/y"), b"").unwrap(),
        "/x/splitwm/wallpaper-cbf29ce484222325"
    );
}

fn source(path: &str, dw: usize, palette: Vec<Rgb>) -> Source {
    Source { dw, dh: 2, len: 3, secs: 4, nanos: 5, path: path.into(), palette }
}

#[test]
fn headers_hold_every_part() {
    let c = Rgb { r: 1, g: 2, b: 3 };
    let h = source("p", 1, vec![c]).wallpaper_cache_header();
    let mut want = b"splitwm-wallpaper-v2\n".to_vec();
    want.extend([1, 0, 0, 0, 0, 0, 0, 0, 2, 0, 0, 0, 0, 0, 0, 0]);
    want.extend([3, 0, 0, 0, 0, 0, 0, 0, 4, 0, 0, 0, 0, 0, 0, 0]);
    want.extend([5, 0, 0, 0, 1, 0, 0, 0, 0, 0, 0, 0, b'p', 1, 1, 2, 3]);
    assert_eq!(h, want);
    assert_ne!(h, source("q", 1, vec![c]).wallpaper_cache_header());
    assert_ne!(h, source("p", 2, vec![c]).wallpaper_cache_header());
    assert_ne!(h, source("p", 1, vec![]).wallpaper_cache_header());
}

#[test]
fn the_same_request_is_not_loaded_again() {
    let wp = Some(Wallpaper { path: "a".into(), w: 1, h: 2, indices: vec![0, 0] });
    assert!(!needs_load(&wp, "a", 1, 2));
    assert!(needs_load(&wp, "b", 1, 2));
    assert!(needs_load(&wp, "a", 2, 2));
    assert!(needs_load(&None, "a", 1, 2));
    assert_eq!(target_size(0, -3), (1, 1));
    assert_eq!(target_size(10, 20), (10, 20));
}

#[test]
fn bands_tile_the_rows_and_keep_their_distance() {
    let bands = band_layout(100, 4);
    assert_eq!(bands.len(), 8);
    assert_eq!(bands[0].rows, (0, 12));
    assert_eq!(bands[0].ext, (0, 18));
    assert_eq!(bands[7].rows, (87, 100));
    assert_eq!(bands[7].ext, (81, 100));
    for b in 0..6 {
        assert!(bands[b].ext.1 <= bands[b + 2].ext.0);
    }
    assert_eq!(band_layout(11, 4).len(), 1);
    assert_eq!(band_layout(1000, 1).len(), 2);
}

#[test]
fn rows_are_split_off_in_place() {
    let mut v: Vec<u8> = (0..12).collect();
    let (chunk, tail) = split_rows(&mut v, 1, 2, 3);
    assert_eq!(chunk, &[3, 4, 5, 6, 7, 8]);
    assert_eq!(tail, &[9, 10, 11]);
    chunk[0] = 99;
    assert_eq!(v[3], 99);
}

#[test]
fn paths_join_with_one_slash() {
    assert_eq!(join("/a", "b"), "/a/b");
    assert_eq!(join("/a/", "b"), "/a/b");
    assert_eq!(join("", "b"), "b");
}
