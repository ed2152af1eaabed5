//! The wallpaper cache: what identifies a quantized wallpaper, where it is
//! kept, when it is used again and when it is thrown away. And the bands the
//! halftone is refined in.

use crate::image::Rgb;
use crate::text::{chars_of, hex16, hex_digit, hex_of, same_str, starts_at, starts_with};
use crate::Index;
use vstd::arithmetic::power::{lemma_pow0, lemma_pow1, lemma_pow_adds, pow};
use vstd::bytes::*;
use vstd::prelude::*;
use vstd::string::*;
use vstd::utf8::*;

pub mod laws;

verus! {

/// What a cached quantization is a function of: the target size, the
/// source file's length, modification time and path, and the palette.
pub struct Source {
    pub dw: usize,
    pub dh: usize,
    pub len: u64,
    pub secs: u64,
    pub nanos: u32,
    pub path: String,
    pub palette: Vec<Rgb>,
}

/// The components of the first `n` colours.
pub open spec fn palette_bytes(p: Seq<Rgb>, n: int) -> Seq<u8>
    decreases n,
{
    if n <= 0 {
        Seq::empty()
    } else {
        palette_bytes(p, n - 1) + seq![p[n - 1].r, p[n - 1].g, p[n - 1].b]
    }
}

impl Source {
    /// The header a cached quantization must carry.
    pub open spec fn header(self) -> Seq<u8> {
        encode_utf8("splitwm-wallpaper-v2\n"@) + spec_u64_to_le_bytes(self.dw as u64)
            + spec_u64_to_le_bytes(self.dh as u64) + spec_u64_to_le_bytes(self.len)
            + spec_u64_to_le_bytes(self.secs) + spec_u32_to_le_bytes(self.nanos)
            + spec_u64_to_le_bytes(encode_utf8(self.path@).len() as u64) + encode_utf8(self.path@)
            + seq![self.palette@.len() as u8] + palette_bytes(
            self.palette@,
            self.palette@.len() as int,
        )
    }

    /// The header a cached quantization must carry. The version in it moves
    /// with the dither algorithm, which is part of what is cached.
    pub fn wallpaper_cache_header(&self) -> (h: Vec<u8>)
        requires
            self.palette@.len() <= 255,
        ensures
            h@ == self.header(),
    {
        let mut h: Vec<u8> = Vec::new();
        h.extend_from_slice("splitwm-wallpaper-v2\n".as_bytes());
        proof {
            assert(h@ =~= encode_utf8("splitwm-wallpaper-v2\n"@));
        }
        h.extend_from_slice(u64_to_le_bytes(self.dw as u64).as_slice());
        h.extend_from_slice(u64_to_le_bytes(self.dh as u64).as_slice());
        h.extend_from_slice(u64_to_le_bytes(self.len).as_slice());
        h.extend_from_slice(u64_to_le_bytes(self.secs).as_slice());
        h.extend_from_slice(u32_to_le_bytes(self.nanos).as_slice());
        let path = self.path.as_str().as_bytes();
        h.extend_from_slice(u64_to_le_bytes(path.len() as u64).as_slice());
        h.extend_from_slice(path);
        h.push(self.palette.len() as u8);
        let ghost front = h@;
        let mut i: usize = 0;
        proof {
            assert(h@ =~= front + palette_bytes(self.palette@, 0));
        }
        while i < self.palette.len()
            invariant
                i <= self.palette@.len(),
                h@ == front + palette_bytes(self.palette@, i as int),
            decreases self.palette@.len() - i,
        {
            let c = self.palette[i];
            let ghost before = h@;
            h.push(c.r);
            h.push(c.g);
            h.push(c.b);
            i = i + 1;
            proof {
                assert(h@ =~= front + palette_bytes(self.palette@, i as int));
            }
        }
        proof {
            assert(h@ =~= self.header());
        }
        h
    }
}

proof fn lemma_palette_len(p: Seq<Rgb>, n: int)
    requires
        0 <= n,
    ensures
        palette_bytes(p, n).len() == 3 * n,
    decreases n,
{
    if n > 0 {
        lemma_palette_len(p, n - 1);
    }
}

proof fn lemma_palette_same(p: Seq<Rgb>, q: Seq<Rgb>, n: int)
    requires
        0 <= n <= p.len(),
        n <= q.len(),
        palette_bytes(p, n) == palette_bytes(q, n),
    ensures
        forall|i: int| 0 <= i < n ==> p[i] == q[i],
    decreases n,
{
    if n > 0 {
        lemma_palette_len(p, n - 1);
        lemma_palette_len(q, n - 1);
        let (a, b) = (palette_bytes(p, n), palette_bytes(q, n));
        assert(a.take(3 * (n - 1)) =~= palette_bytes(p, n - 1));
        assert(b.take(3 * (n - 1)) =~= palette_bytes(q, n - 1));
        lemma_palette_same(p, q, n - 1);
        assert(a[3 * n - 3] == p[n - 1].r && a[3 * n - 2] == p[n - 1].g && a[3 * n - 1] == p[n
            - 1].b);
        assert(b[3 * n - 3] == q[n - 1].r && b[3 * n - 2] == q[n - 1].g && b[3 * n - 1] == q[n
            - 1].b);
    }
}

/// What follows a common front is common too.
proof fn lemma_cancel(a: Seq<u8>, b: Seq<u8>, x: Seq<u8>, y: Seq<u8>)
    requires
        a + x == b + y,
        a.len() == b.len(),
    ensures
        a == b,
        x == y,
{
    assert(a =~= (a + x).take(a.len() as int));
    assert(b =~= (b + y).take(b.len() as int));
    assert(x =~= (a + x).skip(a.len() as int));
    assert(y =~= (b + y).skip(b.len() as int));
}

/// Two identities with the same header are the same identity: a cached
/// quantization is never taken for that of another file, size or palette.
pub proof fn headers_tell_sources_apart(a: Source, b: Source)
    requires
        a.header() == b.header(),
        a.palette@.len() <= 255,
        b.palette@.len() <= 255,
        encode_utf8(a.path@).len() <= u64::MAX,
        encode_utf8(b.path@).len() <= u64::MAX,
    ensures
        a.dw == b.dw,
        a.dh == b.dh,
        a.len == b.len,
        a.secs == b.secs,
        a.nanos == b.nanos,
        a.path@ == b.path@,
        a.palette@ == b.palette@,
{
    lemma_auto_spec_u64_to_from_le_bytes();
    lemma_auto_spec_u32_to_from_le_bytes();
    let m = encode_utf8("splitwm-wallpaper-v2\n"@);
    let (a1, b1) = (spec_u64_to_le_bytes(a.dw as u64), spec_u64_to_le_bytes(b.dw as u64));
    let (a2, b2) = (spec_u64_to_le_bytes(a.dh as u64), spec_u64_to_le_bytes(b.dh as u64));
    let (a3, b3) = (spec_u64_to_le_bytes(a.len), spec_u64_to_le_bytes(b.len));
    let (a4, b4) = (spec_u64_to_le_bytes(a.secs), spec_u64_to_le_bytes(b.secs));
    let (a5, b5) = (spec_u32_to_le_bytes(a.nanos), spec_u32_to_le_bytes(b.nanos));
    let (pa, pb) = (encode_utf8(a.path@), encode_utf8(b.path@));
    let (a6, b6) = (spec_u64_to_le_bytes(pa.len() as u64), spec_u64_to_le_bytes(pb.len() as u64));
    let (a7, b7) = (seq![a.palette@.len() as u8], seq![b.palette@.len() as u8]);
    let (na, nb) = (a.palette@.len() as int, b.palette@.len() as int);
    let (a8, b8) = (palette_bytes(a.palette@, na), palette_bytes(b.palette@, nb));
    let fixed_a = m + a1 + a2 + a3 + a4 + a5 + a6;
    let fixed_b = m + b1 + b2 + b3 + b4 + b5 + b6;
    assert(a.header() =~= fixed_a + (pa + a7 + a8));
    assert(b.header() =~= fixed_b + (pb + b7 + b8));
    assert(fixed_a.len() == fixed_b.len());
    lemma_cancel(fixed_a, fixed_b, pa + a7 + a8, pb + b7 + b8);
    lemma_cancel(m + a1 + a2 + a3 + a4 + a5, m + b1 + b2 + b3 + b4 + b5, a6, b6);
    lemma_cancel(m + a1 + a2 + a3 + a4, m + b1 + b2 + b3 + b4, a5, b5);
    lemma_cancel(m + a1 + a2 + a3, m + b1 + b2 + b3, a4, b4);
    lemma_cancel(m + a1 + a2, m + b1 + b2, a3, b3);
    lemma_cancel(m + a1, m + b1, a2, b2);
    lemma_cancel(m, m, a1, b1);
    assert(pa.len() == pb.len());
    assert(pa + a7 + a8 =~= pa + (a7 + a8));
    assert(pb + b7 + b8 =~= pb + (b7 + b8));
    lemma_cancel(pa, pb, a7 + a8, b7 + b8);
    encode_utf8_decode_utf8(a.path@);
    encode_utf8_decode_utf8(b.path@);
    lemma_cancel(a7, b7, a8, b8);
    assert(a7[0] == b7[0]);
    assert(na == nb);
    lemma_palette_same(a.palette@, b.palette@, na);
    assert(a.palette@ =~= b.palette@);
}

/// One step of the hash.
pub open spec fn fnv_step(h: u64, b: u8) -> u64 {
    (((h ^ (b as u64)) * 0x0100_0000_01b3) % 0x1_0000_0000_0000_0000) as u64
}

/// FNV-1a of the first `n` bytes.
pub open spec fn fnv_of(s: Seq<u8>, n: int) -> u64
    decreases n,
{
    if n <= 0 {
        0xcbf2_9ce4_8422_2325u64
    } else {
        fnv_step(fnv_of(s, n - 1), s[n - 1])
    }
}

/// FNV-1a over `bytes`: a stable function of them, whatever the toolchain.
pub fn fnv1a(bytes: &[u8]) -> (h: u64)
    ensures
        h == fnv_of(bytes@, bytes@.len() as int),
{
    let mut h: u64 = 0xcbf2_9ce4_8422_2325;
    let mut i: usize = 0;
    while i < bytes.len()
        invariant
            i <= bytes@.len(),
            h == fnv_of(bytes@, i as int),
        decreases bytes@.len() - i,
    {
        h = (h ^ (bytes[i] as u64)).wrapping_mul(0x0100_0000_01b3);
        i = i + 1;
    }
    h
}

/// A path component after another.
pub open spec fn joined(base: Seq<char>, name: Seq<char>) -> Seq<char> {
    if base.len() == 0 || base.last() == '/' {
        base + name
    } else {
        base + "/"@ + name
    }
}

/// Put a path component after another.
pub fn join(base: &str, name: &str) -> (p: String)
    ensures
        p@ == joined(base@, name@),
{
    let chars = chars_of(base);
    let mut p = base.to_owned();
    if chars.len() != 0 && chars[chars.len() - 1] != '/' {
        p.append("/");
    }
    p.append(name);
    p
}

/// The directory caches go to: the cache directory if one is set, else
/// `.cache` in the home directory. An empty value counts as unset.
pub open spec fn cache_base(xdg: Option<Seq<char>>, home: Option<Seq<char>>) -> Option<Seq<char>> {
    if xdg is Some && xdg->0.len() > 0 {
        xdg
    } else if home is Some && home->0.len() > 0 {
        Some(joined(home->0, ".cache"@))
    } else {
        None
    }
}

/// Where the quantization with this header is kept.
pub open spec fn cache_path(
    xdg: Option<Seq<char>>,
    home: Option<Seq<char>>,
    header: Seq<u8>,
) -> Option<Seq<char>> {
    match cache_base(xdg, home) {
        Some(base) => Some(
            joined(
                joined(base, "splitwm"@),
                "wallpaper-"@ + hex_of(fnv_of(header, header.len() as int) as int, 16),
            ),
        ),
        None => None,
    }
}

/// The directory cached quantizations are kept in.
pub open spec fn cache_dir(xdg: Option<Seq<char>>, home: Option<Seq<char>>) -> Option<Seq<char>> {
    match cache_base(xdg, home) {
        Some(base) => Some(joined(base, "splitwm"@)),
        None => None,
    }
}

proof fn lemma_hex_len(v: int, n: int)
    requires
        0 <= n,
    ensures
        hex_of(v, n).len() == n,
    decreases n,
{
    if n > 0 {
        lemma_hex_len(v / 16, n - 1);
    }
}

/// As many digits as it takes tell numbers apart.
proof fn lemma_hex_tells_apart(v: int, w: int, n: int)
    requires
        0 <= n,
        0 <= v < pow(16, n as nat),
        0 <= w < pow(16, n as nat),
        hex_of(v, n) == hex_of(w, n),
    ensures
        v == w,
    decreases n,
{
    if n == 0 {
        lemma_pow0(16);
    } else {
        lemma_pow_adds(16, (n - 1) as nat, 1);
        lemma_pow1(16);
        let (a, b) = (hex_of(v, n), hex_of(w, n));
        assert(a.drop_last() =~= hex_of(v / 16, n - 1));
        assert(b.drop_last() =~= hex_of(w / 16, n - 1));
        assert(a.last() == hex_digit(v % 16) && b.last() == hex_digit(w % 16));
        assert(v % 16 == w % 16);
        lemma_hex_tells_apart(v / 16, w / 16, n - 1);
    }
}

/// Every cached quantization is kept in one directory, if one is known.
/// Headers with different hashes are kept in different files there.
pub proof fn files_differ_as_hashes_do(
    xdg: Option<Seq<char>>,
    home: Option<Seq<char>>,
    a: Seq<u8>,
    b: Seq<u8>,
)
    ensures
        cache_path(xdg, home, a) is Some <==> cache_dir(xdg, home) is Some,
        cache_dir(xdg, home) is Some <==> (xdg is Some && xdg->0.len() > 0) || (home is Some
            && home->0.len() > 0),
        cache_dir(xdg, home) is Some ==> exists|name: Seq<char>|
            #![trigger joined(cache_dir(xdg, home)->0, name)]
            cache_path(xdg, home, a) == Some(joined(cache_dir(xdg, home)->0, name))
                && !name.contains('/'),
        cache_dir(xdg, home) is Some && fnv_of(a, a.len() as int) != fnv_of(b, b.len() as int)
            ==> cache_path(xdg, home, a) != cache_path(xdg, home, b),
{
    if cache_dir(xdg, home) is Some {
        let dir = cache_dir(xdg, home)->0;
        let (ha, hb) = (fnv_of(a, a.len() as int) as int, fnv_of(b, b.len() as int) as int);
        let (na, nb) = ("wallpaper-"@ + hex_of(ha, 16), "wallpaper-"@ + hex_of(hb, 16));
        reveal_strlit("wallpaper-");
        lemma_hex_len(ha, 16);
        lemma_hex_len(hb, 16);
        lemma_no_slash(ha, 16);
        assert(!na.contains('/'));
        assert(cache_path(xdg, home, a) == Some(joined(dir, na)));
        if ha != hb && joined(dir, na) == joined(dir, nb) {
            let (pa, pb) = (joined(dir, na), joined(dir, nb));
            assert(pa.skip(pa.len() - 16) =~= hex_of(ha, 16));
            assert(pb.skip(pb.len() - 16) =~= hex_of(hb, 16));
            lemma_pow16();
            lemma_hex_tells_apart(ha, hb, 16);
        }
    }
}

proof fn lemma_pow16()
    ensures
        pow(16, 16) == 0x1_0000_0000_0000_0000,
{
    reveal_with_fuel(pow, 17);
    lemma_pow_adds(16, 8, 8);
    assert(pow(16, 8) == 0x1_0000_0000);
}

proof fn lemma_no_slash(v: int, n: int)
    requires
        0 <= v,
    ensures
        !hex_of(v, n).contains('/'),
    decreases n,
{
    if n > 0 {
        lemma_no_slash(v / 16, n - 1);
        let rest = hex_of(v / 16, n - 1);
        assert forall|i: int| 0 <= i < hex_of(v, n).len() implies hex_of(v, n)[i] != '/' by {
            if i < rest.len() {
                assert(hex_of(v, n)[i] == rest[i]);
            }
        }
    }
}

/// The bytes of an ASCII text.
pub open spec fn ascii_bytes(s: Seq<char>) -> Seq<u8> {
    s.map_values(|c: char| c as u8)
}

proof fn lemma_two_hashes()
    by (bit_vector)
    ensures
        ({
            let h = 0xcbf2_9ce4_8422_2325u64;
            let h = fnv_step(h, 115);
            let h = fnv_step(h, 112);
            let h = fnv_step(h, 108);
            let h = fnv_step(h, 105);
            let h = fnv_step(h, 116);
            let h = fnv_step(h, 119);
            let h = fnv_step(h, 109);
            let h = fnv_step(h, 45);
            let h = fnv_step(h, 119);
            let h = fnv_step(h, 97);
            let h = fnv_step(h, 108);
            let h = fnv_step(h, 108);
            let h = fnv_step(h, 112);
            let h = fnv_step(h, 97);
            let h = fnv_step(h, 112);
            let h = fnv_step(h, 101);
            let h = fnv_step(h, 114);
            let h = fnv_step(h, 45);
            let h = fnv_step(h, 118);
            let h = fnv_step(h, 50);
            let h = fnv_step(h, 10);
            let foo = {
                let h = fnv_step(h, 102);
                let h = fnv_step(h, 111);
                let h = fnv_step(h, 111);
                let h = fnv_step(h, 46);
                let h = fnv_step(h, 112);
                let h = fnv_step(h, 110);
                let h = fnv_step(h, 103);
                let h = fnv_step(h, 45);
                let h = fnv_step(h, 49);
                let h = fnv_step(h, 48);
                let h = fnv_step(h, 48);
                let h = fnv_step(h, 120);
                let h = fnv_step(h, 49);
                let h = fnv_step(h, 48);
                let h = fnv_step(h, 48);
                h
            };
            let bar = {
                let h = fnv_step(h, 98);
                let h = fnv_step(h, 97);
                let h = fnv_step(h, 114);
                let h = fnv_step(h, 46);
                let h = fnv_step(h, 112);
                let h = fnv_step(h, 110);
                let h = fnv_step(h, 103);
                let h = fnv_step(h, 45);
                let h = fnv_step(h, 50);
                let h = fnv_step(h, 48);
                let h = fnv_step(h, 48);
                let h = fnv_step(h, 120);
                let h = fnv_step(h, 50);
                let h = fnv_step(h, 48);
                let h = fnv_step(h, 48);
                h
            };
            foo != bar
        }),
{
}

/// Two wallpapers, of two sizes, are kept in two files of one directory.
pub proof fn two_wallpapers_have_two_files(xdg: Option<Seq<char>>, home: Option<Seq<char>>)
    requires
        cache_dir(xdg, home) is Some,
    ensures
        ({
            let foo = ascii_bytes("splitwm-wallpaper-v2\nfoo.png-100x100"@);
            let bar = ascii_bytes("splitwm-wallpaper-v2\nbar.png-200x200"@);
            cache_path(xdg, home, foo) != cache_path(xdg, home, bar)
        }),
{
    let foo = ascii_bytes("splitwm-wallpaper-v2\nfoo.png-100x100"@);
    let bar = ascii_bytes("splitwm-wallpaper-v2\nbar.png-200x200"@);
    reveal_strlit("splitwm-wallpaper-v2\nfoo.png-100x100");
    reveal_strlit("splitwm-wallpaper-v2\nbar.png-200x200");
    reveal_with_fuel(fnv_of, 38);
    lemma_two_hashes();
    files_differ_as_hashes_do(xdg, home, foo, bar);
}

/// The view of an optional text.
pub open spec fn text_view(s: Option<&str>) -> Option<Seq<char>> {
    match s {
        Some(t) => Some(t@),
        None => None,
    }
}

/// The file the quantization with this header is kept in, given the cache
/// directory and the home directory that are set. Distinct headers land in
/// distinct files as far as the hash tells them apart. Nothing if neither
/// directory is known.
pub fn wallpaper_cache_path(xdg: Option<&str>, home: Option<&str>, header: &[u8]) -> (p: Option<
    String,
>)
    ensures
        match cache_path(text_view(xdg), text_view(home), header@) {
            Some(s) => p is Some && p->0@ == s,
            None => p is None,
        },
{
    let mut base: Option<String> = None;
    if let Some(dir) = xdg {
        if dir.unicode_len() > 0 {
            base = Some(dir.to_owned());
        }
    }
    if base.is_none() {
        if let Some(dir) = home {
            if dir.unicode_len() > 0 {
                base = Some(join(dir, ".cache"));
            }
        }
    }
    match base {
        Some(base) => {
            let dir = join(base.as_str(), "splitwm");
            let mut name = "wallpaper-".to_owned();
            name.append(hex16(fnv1a(header)).as_str());
            Some(join(dir.as_str(), name.as_str()))
        },
        None => None,
    }
}

/// What is kept for a quantization: its header, then the indices.
pub fn stored_bytes(header: &[u8], indices: &[Index]) -> (bytes: Vec<u8>)
    ensures
        bytes@ == header@ + indices@,
{
    let mut bytes: Vec<u8> = Vec::new();
    bytes.extend_from_slice(header);
    bytes.extend_from_slice(indices);
    proof {
        assert(bytes@ =~= header@ + indices@);
    }
    bytes
}

/// The indices kept in `bytes`, if they carry this header and are as many
/// as the size needs.
pub open spec fn cached_indices(bytes: Seq<u8>, header: Seq<u8>, dw: int, dh: int) -> Option<
    Seq<u8>,
> {
    if bytes.len() >= header.len() && bytes.take(header.len() as int) == header && bytes.len()
        - header.len() == dw * dh {
        Some(bytes.skip(header.len() as int))
    } else {
        None
    }
}

fn has_prefix(bytes: &Vec<u8>, header: &[u8]) -> (b: bool)
    ensures
        b == (bytes@.len() >= header@.len() && bytes@.take(header@.len() as int) == header@),
{
    let n: usize = header.len();
    if bytes.len() < n {
        return false;
    }
    let mut i: usize = 0;
    while i < n
        invariant
            i <= n <= bytes@.len(),
            n == header@.len(),
            forall|j: int| 0 <= j < i ==> bytes@[j] == header@[j],
        decreases n - i,
    {
        if bytes[i] != header[i] {
            proof {
                assert(bytes@.take(n as int)[i as int] != header@[i as int]);
            }
            return false;
        }
        i = i + 1;
    }
    proof {
        assert(bytes@.take(n as int) =~= header@);
    }
    true
}

/// Read a cached quantization back. Any mismatch is a miss: a stale source,
/// another size or palette, a truncated file. The values of the indices are
/// not looked at.
pub fn load_cached_wallpaper(bytes: Vec<u8>, header: &[u8], dw: usize, dh: usize) -> (indices: Option<
    Vec<Index>,
>)
    requires
        dw * dh <= usize::MAX,
    ensures
        match cached_indices(bytes@, header@, dw as int, dh as int) {
            Some(s) => indices is Some && indices->0@ == s,
            None => indices is None,
        },
{
    let mut bytes = bytes;
    let n: usize = header.len();
    if !has_prefix(&bytes, header) {
        return None;
    }
    if bytes.len() - n != dw * dh {
        return None;
    }
    let ghost all = bytes@;
    let rest = bytes.split_off(n);
    proof {
        assert(rest@ =~= all.skip(n as int));
    }
    Some(rest)
}

/// A read gives back what a write kept, under the same header and size. Any
/// other size is a miss, and so is any header that what was written does
/// not start with.
pub proof fn cache_round_trips(
    header: Seq<u8>,
    indices: Seq<u8>,
    other: Seq<u8>,
    dw: int,
    dh: int,
)
    ensures
        indices.len() == dw * dh ==> cached_indices(header + indices, header, dw, dh) == Some(indices),
        indices.len() != dw * dh ==> cached_indices(header + indices, header, dw, dh) is None,
        other.len() == header.len() && other != header ==> cached_indices(
            header + indices,
            other,
            dw,
            dh,
        ) is None,
{
    let all = header + indices;
    assert(all.take(header.len() as int) =~= header);
    assert(all.skip(header.len() as int) =~= indices);
}

/// Cap on the wallpapers kept in the cache directory.
pub const MAX_CACHED_WALLPAPERS: usize = 4;

/// A file of the cache directory: its name, and when it was last written.
pub struct CacheFile {
    pub name: String,
    pub mtime: i128,
}

impl CacheFile {
    /// Whether it is a cached wallpaper.
    pub open spec fn is_wallpaper(self) -> bool {
        starts_at(self.name@, 0, self.name@.len() as int, "wallpaper-"@)
    }
}

/// The positions of the cached wallpapers among the first `n` files.
pub open spec fn wallpapers_to(files: Seq<CacheFile>, n: int) -> Seq<usize>
    decreases n,
{
    if n <= 0 {
        Seq::empty()
    } else if files[n - 1].is_wallpaper() {
        wallpapers_to(files, n - 1).push((n - 1) as usize)
    } else {
        wallpapers_to(files, n - 1)
    }
}

/// Where in `at` the oldest file stands, the first of several, `best` being
/// the oldest so far.
pub open spec fn oldest_from(files: Seq<CacheFile>, at: Seq<usize>, k: int, best: int) -> int
    decreases at.len() - k,
{
    if k >= at.len() {
        best
    } else if files[at[k] as int].mtime < files[at[best] as int].mtime {
        oldest_from(files, at, k + 1, k)
    } else {
        oldest_from(files, at, k + 1, best)
    }
}

/// What is left of `at` once all but the `keep` newest are gone.
pub open spec fn kept(files: Seq<CacheFile>, at: Seq<usize>, keep: int) -> Seq<usize>
    decreases at.len(),
    when 0 <= keep
    via kept_ends
{
    if at.len() <= keep {
        at
    } else {
        kept(files, at.remove(oldest_from(files, at, 0, 0)), keep)
    }
}

/// What goes of `at`, oldest first, so that the `keep` newest are left.
pub open spec fn stale(files: Seq<CacheFile>, at: Seq<usize>, keep: int) -> Seq<usize>
    decreases at.len(),
    when 0 <= keep
    via stale_ends
{
    if at.len() <= keep {
        Seq::empty()
    } else {
        let o = oldest_from(files, at, 0, 0);
        seq![at[o]] + stale(files, at.remove(o), keep)
    }
}

#[via_fn]
proof fn kept_ends(files: Seq<CacheFile>, at: Seq<usize>, keep: int) {
    if at.len() > keep {
        lemma_oldest(files, at, 0, 0);
    }
}

#[via_fn]
proof fn stale_ends(files: Seq<CacheFile>, at: Seq<usize>, keep: int) {
    if at.len() > keep {
        lemma_oldest(files, at, 0, 0);
    }
}

proof fn lemma_oldest(files: Seq<CacheFile>, at: Seq<usize>, k: int, best: int)
    requires
        0 <= k <= at.len(),
        0 <= best < at.len(),
        forall|j: int|
            0 <= j < k ==> files[at[best] as int].mtime <= files[#[trigger] at[j] as int].mtime,
    ensures
        0 <= oldest_from(files, at, k, best) < at.len(),
        forall|j: int|
            0 <= j < at.len() ==> files[at[oldest_from(files, at, k, best)] as int].mtime
                <= files[#[trigger] at[j] as int].mtime,
    decreases at.len() - k,
{
    if k < at.len() {
        if files[at[k] as int].mtime < files[at[best] as int].mtime {
            lemma_oldest(files, at, k + 1, k);
        } else {
            lemma_oldest(files, at, k + 1, best);
        }
    }
}

proof fn lemma_kept_from(files: Seq<CacheFile>, at: Seq<usize>, keep: int)
    requires
        0 <= keep,
    ensures
        kept(files, at, keep).len() == (if at.len() <= keep {
            at.len() as int
        } else {
            keep
        }),
        forall|i: int|
            0 <= i < kept(files, at, keep).len() ==> at.contains(
                #[trigger] kept(files, at, keep)[i],
            ),
        forall|i: int|
            0 <= i < stale(files, at, keep).len() ==> at.contains(
                #[trigger] stale(files, at, keep)[i],
            ),
    decreases at.len(),
{
    if at.len() > keep {
        lemma_oldest(files, at, 0, 0);
        let o = oldest_from(files, at, 0, 0);
        let rest = at.remove(o);
        lemma_kept_from(files, rest, keep);
        assert forall|x: usize| rest.contains(x) implies at.contains(x) by {
            let j = choose|j: int| 0 <= j < rest.len() && rest[j] == x;
            assert(rest[j] == at[if j < o {
                j
            } else {
                j + 1
            }]);
        }
        let s = stale(files, at, keep);
        assert forall|i: int| 0 <= i < s.len() implies at.contains(#[trigger] s[i]) by {
            if i > 0 {
                assert(s[i] == stale(files, rest, keep)[i - 1]);
            } else {
                assert(s[i] == at[o]);
            }
        }
    } else {
        assert forall|i: int| 0 <= i < at.len() implies at.contains(#[trigger] at[i]) by {}
    }
}

/// Eviction keeps the newest: no more than the cap is left, and nothing
/// that goes is newer than anything that stays.
pub proof fn eviction_keeps_the_newest(files: Seq<CacheFile>, at: Seq<usize>, keep: int)
    requires
        0 <= keep,
    ensures
        kept(files, at, keep).len() <= keep,
        kept(files, at, keep).len() + stale(files, at, keep).len() == at.len(),
        forall|i: int, j: int|
            0 <= i < stale(files, at, keep).len() && 0 <= j < kept(files, at, keep).len()
                ==> files[#[trigger] stale(files, at, keep)[i] as int].mtime
                <= files[#[trigger] kept(files, at, keep)[j] as int].mtime,
    decreases at.len(),
{
    lemma_kept_from(files, at, keep);
    if at.len() > keep {
        lemma_oldest(files, at, 0, 0);
        let o = oldest_from(files, at, 0, 0);
        let rest = at.remove(o);
        eviction_keeps_the_newest(files, rest, keep);
        let (s, k) = (stale(files, at, keep), kept(files, at, keep));
        assert forall|i: int, j: int| 0 <= i < s.len() && 0 <= j < k.len() implies files[
        #[trigger] s[i] as int].mtime <= files[#[trigger] k[j] as int].mtime by {
            if i > 0 {
                assert(s[i] == stale(files, rest, keep)[i - 1]);
            } else {
                assert(at.contains(k[j]));
                let m = choose|m: int| 0 <= m < at.len() && at[m] == k[j];
                assert(files[at[o] as int].mtime <= files[at[m] as int].mtime);
            }
        }
    }
}

proof fn lemma_wallpapers_in_range(files: Seq<CacheFile>, n: int)
    requires
        0 <= n <= files.len(),
        files.len() <= usize::MAX,
    ensures
        forall|i: int|
            0 <= i < wallpapers_to(files, n).len() ==> #[trigger] wallpapers_to(files, n)[i] < n,
    decreases n,
{
    if n > 0 {
        lemma_wallpapers_in_range(files, n - 1);
        let before = wallpapers_to(files, n - 1);
        let all = wallpapers_to(files, n);
        assert forall|i: int| 0 <= i < all.len() implies #[trigger] all[i] < n by {
            if i < before.len() {
                assert(all[i] == before[i]);
            }
        }
    }
}

/// Which files of the cache directory go: all but the most recently written
/// wallpapers, oldest first; other files stay.
pub fn evict_stale_wallpaper_caches(files: &Vec<CacheFile>) -> (gone: Vec<usize>)
    ensures
        gone@ == stale(
            files@,
            wallpapers_to(files@, files@.len() as int),
            MAX_CACHED_WALLPAPERS as int,
        ),
{
    let mut at: Vec<usize> = Vec::new();
    let mut n: usize = 0;
    while n < files.len()
        invariant
            n <= files@.len(),
            at@ == wallpapers_to(files@, n as int),
        decreases files@.len() - n,
    {
        let name = chars_of(files[n].name.as_str());
        if starts_with(&name, 0, name.len(), "wallpaper-") {
            at.push(n);
        }
        n = n + 1;
    }
    proof {
        lemma_wallpapers_in_range(files@, files@.len() as int);
    }
    let mut gone: Vec<usize> = Vec::new();
    let ghost all = stale(files@, at@, MAX_CACHED_WALLPAPERS as int);
    proof {
        assert(gone@ + all =~= all);
    }
    while at.len() > MAX_CACHED_WALLPAPERS
        invariant
            gone@ + stale(files@, at@, MAX_CACHED_WALLPAPERS as int) == all,
            forall|i: int| 0 <= i < at@.len() ==> #[trigger] at@[i] < files@.len(),
        decreases at@.len(),
    {
        let mut best: usize = 0;
        let mut k: usize = 0;
        while k < at.len()
            invariant
                k <= at@.len(),
                best < at@.len(),
                oldest_from(files@, at@, 0, 0) == oldest_from(files@, at@, k as int, best as int),
                forall|i: int| 0 <= i < at@.len() ==> #[trigger] at@[i] < files@.len(),
            decreases at@.len() - k,
        {
            if files[at[k]].mtime < files[at[best]].mtime {
                best = k;
            }
            k = k + 1;
        }
        let ghost before = at@;
        let ghost sofar = gone@;
        let oldest: usize = at.remove(best);
        gone.push(oldest);
        proof {
            assert(at@ =~= before.remove(best as int));
            assert(gone@ + stale(files@, at@, MAX_CACHED_WALLPAPERS as int) =~= sofar + stale(
                files@,
                before,
                MAX_CACHED_WALLPAPERS as int,
            ));
        }
    }
    proof {
        assert(gone@ =~= all);
    }
    gone
}

/// A loaded wallpaper together with the request it was produced for.
pub struct Wallpaper {
    pub path: String,
    pub w: i32,
    pub h: i32,
    pub indices: Vec<Index>,
}

impl Wallpaper {
    /// Whether this is what a request asks for.
    pub open spec fn answers(self, path: Seq<char>, w: i32, h: i32) -> bool {
        self.path@ == path && self.w == w && self.h == h
    }
}

/// Whether a request has to be loaded: not if the same wallpaper is there at
/// this size already.
pub fn needs_load(loaded: &Option<Wallpaper>, path: &str, w: i32, h: i32) -> (b: bool)
    ensures
        b == !(loaded is Some && loaded->0.answers(path@, w, h)),
{
    match loaded {
        Some(wp) => !(same_str(wp.path.as_str(), path) && wp.w == w && wp.h == h),
        None => true,
    }
}

/// A side of a picture, never empty.
pub open spec fn at_least_one(v: int) -> int {
    if v < 1 {
        1
    } else {
        v
    }
}

/// The size a wallpaper is quantized at: at least one pixel each way.
pub fn target_size(w: i32, h: i32) -> (r: (usize, usize))
    ensures
        r.0 == at_least_one(w as int),
        r.1 == at_least_one(h as int),
{
    let dw: usize = if w < 1 {
        1
    } else {
        w as usize
    };
    let dh: usize = if h < 1 {
        1
    } else {
        h as usize
    };
    (dw, dh)
}

/// How many rows a change reaches, up and down.
pub const REACH: usize = 6;

/// How many bands `dh` rows are refined in: none shorter than twice the
/// reach, unless it is the only one, and no more than two for a core.
pub open spec fn bands_of(dh: int, cores: int) -> int {
    let most = dh / 12;
    if most < 1 {
        1
    } else if most > 2 * cores {
        2 * cores
    } else {
        most
    }
}

/// The first row of band `b`.
pub open spec fn band_start(dh: int, bands: int, b: int) -> int {
    dh * b / bands
}

/// A band, with the rows above and below that its changes reach.
#[derive(Clone, Copy, PartialEq, Eq, Debug)]
pub struct Band {
    /// The first row, and the row after the last.
    pub rows: (usize, usize),
    /// The same, with the reach.
    pub ext: (usize, usize),
}

/// Band `b` of `bands`.
pub open spec fn is_band(band: Band, dh: int, bands: int, b: int) -> bool {
    let (start, end) = (band_start(dh, bands, b), band_start(dh, bands, b + 1));
    &&& band.rows.0 == start
    &&& band.rows.1 == end
    &&& band.ext.0 == (if start < 6 {
        0
    } else {
        start - 6
    })
    &&& band.ext.1 == (if end + 6 > dh {
        dh
    } else {
        end + 6
    })
}

/// The bands `dh` rows are refined in.
pub fn band_layout(dh: usize, cores: usize) -> (bands: Vec<Band>)
    requires
        1 <= cores,
        2 * cores <= usize::MAX,
        dh + REACH <= usize::MAX,
        dh * bands_of(dh as int, cores as int) <= usize::MAX,
    ensures
        bands@.len() == bands_of(dh as int, cores as int),
        forall|b: int|
            0 <= b < bands@.len() ==> is_band(
                #[trigger] bands@[b],
                dh as int,
                bands_of(dh as int, cores as int),
                b,
            ),
{
    let most: usize = dh / 12;
    let n: usize = if most < 1 {
        1
    } else if most > 2 * cores {
        2 * cores
    } else {
        most
    };
    let mut bands: Vec<Band> = Vec::new();
    let mut b: usize = 0;
    while b < n
        invariant
            b <= n,
            1 <= n,
            n == bands_of(dh as int, cores as int),
            dh * n <= usize::MAX,
            dh + REACH <= usize::MAX,
            bands@.len() == b,
            forall|k: int|
                0 <= k < b ==> is_band(#[trigger] bands@[k], dh as int, n as int, k),
        decreases n - b,
    {
        proof {
            assert(0 <= dh * b <= dh * (b + 1) <= dh * n) by (nonlinear_arith)
                requires
                    0 <= dh,
                    0 <= b < n,
            ;
            assert(dh * (b + 1) / n as int <= dh) by (nonlinear_arith)
                requires
                    0 <= dh * (b + 1) <= dh * n,
                    1 <= n,
            ;
        }
        let start: usize = dh * b / n;
        let end: usize = dh * (b + 1) / n;
        bands.push(
            Band {
                rows: (start, end),
                ext: (
                    if start < 6 {
                        0
                    } else {
                        start - 6
                    },
                    if end + 6 > dh {
                        dh
                    } else {
                        end + 6
                    },
                ),
            },
        );
        b = b + 1;
    }
    bands
}

/// The bands tile the image, and bands two apart do not touch each other
/// even with their reach: they can be refined side by side.
pub proof fn bands_two_apart_are_disjoint(dh: int, cores: int, b: int)
    requires
        0 <= dh,
        1 <= cores,
        0 <= b < bands_of(dh, cores),
    ensures
        band_start(dh, bands_of(dh, cores), 0) == 0,
        band_start(dh, bands_of(dh, cores), bands_of(dh, cores)) == dh,
        band_start(dh, bands_of(dh, cores), b) <= band_start(dh, bands_of(dh, cores), b + 1),
        b + 2 < bands_of(dh, cores) ==> band_start(dh, bands_of(dh, cores), b + 1) + 6
            <= band_start(dh, bands_of(dh, cores), b + 2) - 6,
{
    let n = bands_of(dh, cores);
    assert(dh * n / n == dh) by (nonlinear_arith)
        requires
            n >= 1,
    ;
    assert(dh * 0 / n == 0) by (nonlinear_arith)
        requires
            n >= 1,
    ;
    assert(dh * b / n <= dh * (b + 1) / n) by (nonlinear_arith)
        requires
            n >= 1,
            0 <= dh,
            0 <= b,
    ;
    if b + 2 < n {
        assert(dh >= 12 * n);
        let p = dh * (b + 1);
        assert(dh * (b + 2) == p + dh) by (nonlinear_arith)
            requires
                p == dh * (b + 1),
        ;
        assert((p + dh) / n >= p / n + 12) by (nonlinear_arith)
            requires
                dh >= 12 * n,
                n >= 1,
        ;
    }
}

/// Detach the chunk of `rows` rows from the front of `rest` after `skip`
/// rows, and hand back what follows it.
pub fn split_rows<T>(rest: &mut [T], skip: usize, rows: usize, dw: usize) -> (r: (
    &mut [T],
    &mut [T],
))
    requires
        skip * dw + rows * dw <= old(rest)@.len(),
        old(rest)@.len() <= usize::MAX,
    ensures
        r.0@ == old(rest)@.subrange(skip * dw, skip * dw + rows * dw),
        r.1@ == old(rest)@.skip(skip * dw + rows * dw),
        final(rest)@ == old(rest)@.take(skip * dw) + final(r.0)@ + final(r.1)@,
{
    proof {
        assert(0 <= skip * dw && 0 <= rows * dw) by (nonlinear_arith);
    }
    let (_front, tail) = rest.split_at_mut(skip * dw);
    let (chunk, tail) = tail.split_at_mut(rows * dw);
    (chunk, tail)
}

} // verus!
