//! The compositor-drawn pointer: which sprite a named shape is drawn as,
//! where its hotspot is, and which image of a cursor theme fits best.

use crate::pointer::CursorShape;
use vstd::prelude::*;

verus! {

/// The hand-drawn sprites.
#[derive(Clone, Copy, PartialEq, Eq, Debug, Structural)]
pub enum Sprite {
    Text,
    Hand,
    Disabled,
    Arrow,
}

/// The sprite for a shape: an I-beam for text, a hand for links and drags,
/// a circle-slash for refusals, an arrow for everything else.
pub open spec fn sprite_of(shape: CursorShape) -> Sprite {
    match shape {
        CursorShape::Text => Sprite::Text,
        CursorShape::VerticalText => Sprite::Text,
        CursorShape::Pointer => Sprite::Hand,
        CursorShape::Grab => Sprite::Hand,
        CursorShape::Grabbing => Sprite::Hand,
        CursorShape::Move => Sprite::Hand,
        CursorShape::AllScroll => Sprite::Hand,
        CursorShape::NotAllowed => Sprite::Disabled,
        CursorShape::NoDrop => Sprite::Disabled,
        _ => Sprite::Arrow,
    }
}

/// A sprite's hotspot: the fingertip, the circle's centre, the arrow's tip,
/// and the I-beam's own centre.
pub open spec fn hotspot_of(sprite: Sprite, width: int, height: int) -> (i32, i32) {
    match sprite {
        Sprite::Text => ((width / 2) as i32, (height / 2) as i32),
        Sprite::Hand => (11, 0),
        Sprite::Disabled => (12, 12),
        Sprite::Arrow => (4, 0),
    }
}

/// What the pointer is to look like: nothing, a named shape, or the surface
/// a client put up for it.
#[derive(Clone, Copy, PartialEq, Eq, Debug, Structural)]
pub enum CursorStatus {
    Hidden,
    Named(CursorShape),
    Surface(u32),
}

/// The cursor that is shown while its surface is `alive`, or is not.
pub open spec fn shown_of(status: CursorStatus, alive: bool) -> CursorStatus {
    if status is Surface && !alive {
        CursorStatus::Named(CursorShape::Default)
    } else {
        status
    }
}

/// What the pointer looks like this frame. A client that dies mid-hover
/// leaves its surface behind, and the arrow takes its place.
pub fn shown_cursor(status: CursorStatus, alive: bool) -> (shown: CursorStatus)
    ensures
        shown == shown_of(status, alive),
{
    match status {
        CursorStatus::Surface(_) => if alive {
            status
        } else {
            CursorStatus::Named(CursorShape::Default)
        },
        _ => status,
    }
}

/// The sprite a named shape is drawn as.
pub fn sprite(shape: CursorShape) -> (s: Sprite)
    ensures
        s == sprite_of(shape),
{
    match shape {
        CursorShape::Text => Sprite::Text,
        CursorShape::VerticalText => Sprite::Text,
        CursorShape::Pointer => Sprite::Hand,
        CursorShape::Grab => Sprite::Hand,
        CursorShape::Grabbing => Sprite::Hand,
        CursorShape::Move => Sprite::Hand,
        CursorShape::AllScroll => Sprite::Hand,
        CursorShape::NotAllowed => Sprite::Disabled,
        CursorShape::NoDrop => Sprite::Disabled,
        _ => Sprite::Arrow,
    }
}

/// The hotspot of a sprite of this size.
pub fn hotspot(sprite: Sprite, width: i32, height: i32) -> (h: (i32, i32))
    requires
        width >= 0,
        height >= 0,
    ensures
        h == hotspot_of(sprite, width as int, height as int),
{
    match sprite {
        Sprite::Text => (width / 2, height / 2),
        Sprite::Hand => (11, 0),
        Sprite::Disabled => (12, 12),
        Sprite::Arrow => (4, 0),
    }
}

/// One image of a cursor file.
#[derive(Debug)]
pub struct CursorImage {
    /// The nominal size.
    pub size: u32,
    pub width: u32,
    pub height: u32,
    pub xhot: u32,
    pub yhot: u32,
    pub pixels_rgba: Vec<u8>,
}

/// What an image of a cursor file is.
pub struct CursorPixels {
    pub size: u32,
    pub width: u32,
    pub height: u32,
    pub xhot: u32,
    pub yhot: u32,
    pub pixels_rgba: Seq<u8>,
}

impl CursorImage {
    pub open spec fn v(self) -> CursorPixels {
        CursorPixels {
            size: self.size,
            width: self.width,
            height: self.height,
            xhot: self.xhot,
            yhot: self.yhot,
            pixels_rgba: self.pixels_rgba@,
        }
    }
}

/// The images of a file, each with its pixels.
pub open spec fn views(images: Seq<CursorImage>) -> Seq<CursorPixels> {
    images.map_values(|i: CursorImage| i.v())
}

/// The images `xcursor::parser::parse_xcursor` finds in a file's bytes.
pub uninterp spec fn xcursor_images(content: Seq<u8>) -> Option<Seq<CursorPixels>>;

/// `xcursor::parser::parse_xcursor`: the images of a cursor file, or
/// nothing if the bytes are none. The images are a function of the bytes;
/// each is at most 0x7fff pixels a side and not empty, has its hotspot
/// inside or on the edge, and four bytes for every pixel.
#[verifier::external_body]
fn parse_cursor(content: &[u8]) -> (images: Option<Vec<CursorImage>>)
    ensures
        images is Some == xcursor_images(content@) is Some,
        images is Some ==> views(images->0@) == xcursor_images(content@)->0,
        images is Some ==> forall|i: int|
            0 <= i < images->0@.len() ==> {
                let m = #[trigger] images->0@[i];
                &&& 1 <= m.width <= 0x7fff
                &&& 1 <= m.height <= 0x7fff
                &&& m.xhot <= m.width
                &&& m.yhot <= m.height
                &&& m.pixels_rgba@.len() == 4 * m.width * m.height
            },
{
    let images = xcursor::parser::parse_xcursor(content)?;
    Some(images.into_iter().map(|i| CursorImage {
        size: i.size,
        width: i.width,
        height: i.height,
        xhot: i.xhot,
        yhot: i.yhot,
        pixels_rgba: i.pixels_rgba,
    }).collect())
}

/// How far an image's nominal size is from the wanted one.
pub open spec fn size_gap(size: u32, want: i32) -> int {
    if size >= want {
        size - want
    } else {
        want - size
    }
}

/// The first image among the first `n` whose nominal size is nearest.
pub open spec fn nearest_to(images: Seq<CursorPixels>, want: i32, n: int) -> int
    decreases n,
{
    if n <= 1 {
        0
    } else {
        let best = nearest_to(images, want, n - 1);
        if size_gap(images[n - 1].size, want) < size_gap(images[best].size, want) {
            n - 1
        } else {
            best
        }
    }
}

/// Choose the image whose nominal size is nearest the wanted one; among
/// equals, the first.
pub fn nearest_image(images: &Vec<CursorImage>, want: i32) -> (at: Option<usize>)
    ensures
        at is Some == (images@.len() > 0),
        at is Some ==> at->0 == nearest_to(views(images@), want, images@.len() as int),
        at is Some ==> at->0 < images@.len(),
        at is Some ==> forall|i: int|
            0 <= i < images@.len() ==> size_gap(images@[at->0 as int].size, want) <= size_gap(
                (#[trigger] images@[i]).size,
                want,
            ),
{
    if images.len() == 0 {
        return None;
    }
    let mut best: usize = 0;
    let mut k: usize = 1;
    while k < images.len()
        invariant
            1 <= k <= images@.len(),
            best < k,
            best == nearest_to(views(images@), want, k as int),
            forall|i: int|
                0 <= i < k ==> size_gap(images@[best as int].size, want) <= size_gap(
                    (#[trigger] images@[i]).size,
                    want,
                ),
        decreases images@.len() - k,
    {
        let a: i64 = images[k].size as i64 - want as i64;
        let b: i64 = images[best].size as i64 - want as i64;
        let ga: i64 = if a >= 0 {
            a
        } else {
            -a
        };
        let gb: i64 = if b >= 0 {
            b
        } else {
            -b
        };
        if ga < gb {
            best = k;
        }
        k = k + 1;
    }
    Some(best)
}

/// The pointer image of a cursor file for the wanted size, if the file
/// holds one.
pub fn load_cursor(content: &[u8], want: i32) -> (image: Option<CursorImage>)
    ensures
        image is Some == (xcursor_images(content@) is Some && xcursor_images(content@)->0.len()
            > 0),
        image is Some ==> ({
            let all = xcursor_images(content@)->0;
            image->0.v() == all[nearest_to(all, want, all.len() as int)]
        }),
        image is Some ==> image->0.xhot <= image->0.width && image->0.yhot <= image->0.height,
{
    match parse_cursor(content) {
        Some(images) => {
            proof {
                assert(views(images@).len() == images@.len());
            }
            match nearest_image(&images, want) {
                Some(at) => {
                    let mut images = images;
                    proof {
                        assert(views(images@)[at as int] == images@[at as int].v());
                    }
                    Some(images.swap_remove(at))
                },
                None => None,
            }
        },
        None => None,
    }
}

/// Where a cursor image goes whose hotspot is to be at (`x`, `y`).
pub open spec fn place_at(x: int, y: int, hot: (i32, i32)) -> (i32, i32) {
    ((x - hot.0) as i32, (y - hot.1) as i32)
}

/// Where a pointer sprite is drawn: its hotspot on the pointer's position.
pub fn sprite_place(x: i32, y: i32, hot: (i32, i32)) -> (at: (i32, i32))
    requires
        i32::MIN <= x - hot.0 <= i32::MAX,
        i32::MIN <= y - hot.1 <= i32::MAX,
    ensures
        at == place_at(x as int, y as int, hot),
{
    (x - hot.0, y - hot.1)
}

/// Law: a cursor's hotspot is where the pointer is.
pub proof fn the_hotspot_is_at_the_pointer(x: int, y: int, hot: (i32, i32))
    requires
        i32::MIN <= x - hot.0 <= i32::MAX,
        i32::MIN <= y - hot.1 <= i32::MAX,
    ensures
        place_at(x, y, hot).0 + hot.0 == x,
        place_at(x, y, hot).1 + hot.1 == y,
{
}

/// Law: of the images of a cursor the one nearest to the wanted size is
/// taken, and of two equally near the first.
pub proof fn the_nearest_image_is_taken(images: Seq<CursorPixels>, want: i32, n: int)
    requires
        1 <= n <= images.len(),
    ensures
        ({
            let at = nearest_to(images, want, n);
            let away = |i: int|
                if images[i].size >= want {
                    images[i].size - want
                } else {
                    want - images[i].size
                };
            &&& 0 <= at < n
            &&& forall|i: int|
                #![trigger images[i]]
                0 <= i < n ==> away(at) <= away(i)
            &&& forall|i: int|
                #![trigger images[i]]
                0 <= i < at ==> away(at) < away(i)
        }),
    decreases n,
{
    if n > 1 {
        the_nearest_image_is_taken(images, want, n - 1);
    }
}

/// Law: a client's own cursor is shown while its surface lives and never
/// after; a cursor by name is always shown as it is.
pub proof fn dead_cursors_are_not_shown(status: CursorStatus, alive: bool)
    ensures
        shown_of(status, true) == status,
        !(status is Surface) ==> shown_of(status, alive) == status,
        status is Surface ==> shown_of(status, false) == CursorStatus::Named(CursorShape::Default),
{
}

/// Law: the text cursor points with its middle, every other one with a point
/// at its top or its middle that does not depend on its size.
pub proof fn the_text_cursor_points_with_its_middle(w: int, h: int)
    requires
        0 <= w <= i32::MAX,
        0 <= h <= i32::MAX,
    ensures
        ({
            let hot = hotspot_of(Sprite::Text, w, h);
            &&& 2 * hot.0 <= w < 2 * hot.0 + 2
            &&& 2 * hot.1 <= h < 2 * hot.1 + 2
        }),
        hotspot_of(Sprite::Arrow, w, h) == hotspot_of(Sprite::Arrow, 0, 0),
        hotspot_of(Sprite::Hand, w, h).1 == 0,
        hotspot_of(Sprite::Arrow, w, h).1 == 0,
{
}

/// Law: text is pointed at with the text cursor, what can be clicked or moved
/// with the hand, what is not allowed with the forbidding one, and the rest
/// with the arrow.
pub proof fn shapes_have_their_sprite()
    ensures
        sprite_of(CursorShape::Text) is Text && sprite_of(CursorShape::VerticalText) is Text,
        sprite_of(CursorShape::Pointer) is Hand && sprite_of(CursorShape::Grab) is Hand,
        sprite_of(CursorShape::Grabbing) is Hand && sprite_of(CursorShape::Move) is Hand,
        sprite_of(CursorShape::AllScroll) is Hand,
        sprite_of(CursorShape::NotAllowed) is Disabled && sprite_of(CursorShape::NoDrop)
            is Disabled,
        sprite_of(CursorShape::Default) is Arrow && sprite_of(CursorShape::EwResize) is Arrow,
        sprite_of(CursorShape::NsResize) is Arrow,
{
}

} // verus!
