//! A split's own chrome: where the titlebar's icon, title and buttons are
//! drawn, and in which colours.

use crate::draw::{
    accent_swap, draw_minimized_axis, remapped, roomy, strip_parts, Colors, NineSlice, Part, MIN_CAP,
};
use crate::geom::{fits_i32, half, half_i32, max_i32, Rect};
use crate::shell::Managed;
use crate::theme::Theme;
use crate::{Index, Win};
use vstd::prelude::*;

verus! {

/// Gap between the window border and the titlebar's icon, and between the
/// icon and the title.
pub const TITLEBAR_ICON_PAD: i32 = 4;

/// What a titlebar shows of its window.
pub struct TitleInfo {
    pub label: char,
    /// The identity of the icon to draw, if one was found.
    pub icon: Option<u64>,
    pub title: String,
}

/// What a titlebar strip is drawn from.
pub struct LeafView {
    pub w: i32,
    pub tb_h: i32,
    pub bw: i32,
    /// Palette index the border and the buttons are swapped to.
    pub accent_index: Index,
    /// The split's window, if any.
    pub titlebar: Option<TitleInfo>,
    /// Whether split-control buttons are drawn over this titlebar: the title
    /// stops short of them only where they will be.
    pub buttons: bool,
}

impl LeafView {
    /// The measurements are of a size that can be worked with.
    pub open spec fn wf(self) -> bool {
        &&& -0x1000_0000 <= self.w <= 0x1000_0000
        &&& -0x1000_0000 <= self.tb_h <= 0x1000_0000
        &&& -0x1000_0000 <= self.bw <= 0x1000_0000
    }
}

/// What the look fixes for titles.
#[derive(Clone, Copy, PartialEq, Eq, Debug, Structural)]
pub struct TitleStyle {
    /// Side of the icon.
    pub btn_size: i32,
    /// Narrowest split that has room for the button strip.
    pub min_split_w: i32,
    /// Left edge of the button strip of this split.
    pub btn_strip_left: i32,
    /// The text colour on dark accents, and on light ones.
    pub fg: Index,
    pub fg_dark: Index,
    /// Whether this split's accent is light, and its two shades.
    pub accent_is_light: bool,
    pub lighter: Index,
    pub darker: Index,
}

/// A title to draw: where, clipped to what, in which colours. The shadow is
/// the same text a row off, drawn first.
#[derive(Clone, Copy, PartialEq, Eq, Debug, Structural)]
pub struct TitleText {
    pub x: i32,
    pub y: i32,
    pub color: Index,
    pub shadow_y: i32,
    pub shadow_color: Index,
    /// Whether the shadow lies on the buffer.
    pub shadow: bool,
    pub clip_x: i32,
    pub clip_w: i32,
}

/// The middle of the titlebar's icon.
pub open spec fn icon_centre(ox: int, oy: int, bw: int, tb_h: int, isz: int) -> (int, int) {
    (ox + bw + half(isz) + 4, oy + half(tb_h))
}

/// Where the title ends: at the buttons, or at the border.
pub open spec fn title_limit(v: LeafView, style: TitleStyle, ox: int) -> int {
    if v.buttons {
        style.btn_strip_left as int
    } else {
        ox + v.w - v.bw
    }
}

/// The title of a split, if there is room for any of it.
pub open spec fn title_of(
    v: LeafView,
    style: TitleStyle,
    title: Seq<char>,
    ox: int,
    oy: int,
    icon_right: int,
    cell_h: int,
) -> Option<TitleText> {
    let text_x = icon_right + 4;
    let limit = title_limit(v, style, ox);
    let y = oy + half(v.tb_h - cell_h);
    if title.len() == 0 || (v.buttons && v.w < style.min_split_w) || limit <= text_x || y < 0 {
        None
    } else {
        let shadow_y = if style.accent_is_light {
            y + 1
        } else {
            y - 1
        };
        Some(
            TitleText {
                x: text_x as i32,
                y: y as i32,
                color: if style.accent_is_light {
                    style.fg_dark
                } else {
                    style.fg
                },
                shadow_y: shadow_y as i32,
                shadow_color: if style.accent_is_light {
                    style.lighter
                } else {
                    style.darker
                },
                shadow: shadow_y >= 0,
                clip_x: if text_x >= 0 {
                    text_x as i32
                } else {
                    0
                },
                clip_w: (limit - text_x) as i32,
            },
        )
    }
}

/// Draw the title after the icon, clipped so that it never runs under the
/// buttons or past the split's right edge. Nothing is drawn where the split
/// is too narrow for the button strip, or no room is left.
pub fn draw_title(
    v: &LeafView,
    style: &TitleStyle,
    title: &str,
    ox: i32,
    oy: i32,
    icon_right: i32,
    cell_h: i32,
) -> (t: Option<TitleText>)
    requires
        v.wf(),
        -0x2000_0000 <= ox <= 0x2000_0000,
        -0x2000_0000 <= oy <= 0x2000_0000,
        -0x4000_0000 <= icon_right <= 0x4000_0000,
        -0x2000_0000 <= style.btn_strip_left <= 0x3000_0000,
        0 <= cell_h <= 0x1000_0000,
    ensures
        t == title_of(
            *v,
            *style,
            title@,
            ox as int,
            oy as int,
            icon_right as int,
            cell_h as int,
        ),
{
    if title.unicode_len() == 0 {
        return None;
    }
    let text_x: i32 = icon_right + TITLEBAR_ICON_PAD;
    if v.buttons && v.w < style.min_split_w {
        return None;
    }
    let limit: i32 = if v.buttons {
        style.btn_strip_left
    } else {
        ox + v.w - v.bw
    };
    if limit <= text_x {
        return None;
    }
    let y: i32 = oy + half_i32(v.tb_h - cell_h);
    if y < 0 {
        return None;
    }
    let (color, shadow_y, shadow_color) = if style.accent_is_light {
        (style.fg_dark, y + 1, style.lighter)
    } else {
        (style.fg, y - 1, style.darker)
    };
    Some(
        TitleText {
            x: text_x,
            y,
            color,
            shadow_y,
            shadow_color,
            shadow: shadow_y >= 0,
            clip_x: max_i32(text_x, 0),
            clip_w: limit - text_x,
        },
    )
}

/// A title is clipped to end where the buttons begin, or at the border, and
/// starts clear of the icon.
pub proof fn titles_never_run_under_the_buttons(
    v: LeafView,
    style: TitleStyle,
    title: Seq<char>,
    ox: int,
    oy: int,
    icon_right: int,
    cell_h: int,
)
    requires
        v.wf(),
        -0x2000_0000 <= ox <= 0x2000_0000,
        0 <= icon_right <= 0x3000_0000,
        -0x2000_0000 <= style.btn_strip_left <= 0x3000_0000,
    ensures
        match title_of(v, style, title, ox, oy, icon_right, cell_h) {
            Some(t) => {
                &&& t.clip_x > icon_right
                &&& t.clip_w > 0
                &&& t.clip_x + t.clip_w == title_limit(v, style, ox)
            },
            None => true,
        },
{
}

/// What a titlebar draws: the box of its icon, or the middle of the letter
/// that stands in for one, and the title.
#[derive(Clone, Copy, PartialEq, Eq, Debug)]
pub struct Titlebar {
    /// The icon's box, if there is an icon.
    pub icon: Option<Rect>,
    /// The middle of the letter, if there is none.
    pub letter: Option<(i32, i32)>,
    pub text: Option<TitleText>,
}

/// Whether `bar` is the titlebar of a strip with its corner at (`ox`, `oy`):
/// the icon, or the letter that stands in for it, and the title.
pub open spec fn is_titlebar(
    v: LeafView,
    style: TitleStyle,
    ox: int,
    oy: int,
    cell_h: Option<i32>,
    bar: Option<Titlebar>,
) -> bool {
    match v.titlebar {
        None => bar is None,
        Some(info) => {
            let c = icon_centre(
                ox,
                oy,
                v.bw as int,
                v.tb_h as int,
                style.btn_size as int,
            );
            let h = half(style.btn_size as int);
            &&& bar is Some
            &&& bar->0.icon == (if info.icon is Some {
                Some(
                    Rect {
                        x: (c.0 - h) as i32,
                        y: (c.1 - h) as i32,
                        w: style.btn_size,
                        h: style.btn_size,
                    },
                )
            } else {
                None
            })
            &&& bar->0.letter == (if info.icon is Some {
                None
            } else {
                Some((c.0 as i32, c.1 as i32))
            })
            &&& bar->0.text == (match cell_h {
                Some(ch) => title_of(
                    v,
                    style,
                    info.title@,
                    ox,
                    oy,
                    c.0 + h,
                    ch as int,
                ),
                None => None,
            })
        },
    }
}

/// The titlebar's contents, for a strip with its corner at (`ox`, `oy`).
/// `cell_h` is the font's height, where one could be read: without a font
/// there is no title. A split without a window draws nothing.
pub fn draw_titlebar(
    v: &LeafView,
    style: &TitleStyle,
    ox: i32,
    oy: i32,
    cell_h: Option<i32>,
) -> (bar: Option<Titlebar>)
    requires
        v.wf(),
        -0x2000_0000 <= ox <= 0x2000_0000,
        -0x2000_0000 <= oy <= 0x2000_0000,
        0 <= style.btn_size <= 0x100_0000,
        -0x2000_0000 <= style.btn_strip_left <= 0x3000_0000,
        cell_h is Some ==> 0 <= cell_h->0 <= 0x1000_0000,
    ensures
        is_titlebar(*v, *style, ox as int, oy as int, cell_h, bar),
{
    match &v.titlebar {
        None => None,
        Some(info) => {
            let isz: i32 = style.btn_size;
            let cx: i32 = ox + v.bw + half_i32(isz) + TITLEBAR_ICON_PAD;
            let cy: i32 = oy + half_i32(v.tb_h);
            let h: i32 = half_i32(isz);
            let (icon, letter) = if info.icon.is_some() {
                (Some(Rect { x: cx - h, y: cy - h, w: isz, h: isz }), None)
            } else {
                (None, Some((cx, cy)))
            };
            let text = match cell_h {
                Some(ch) => draw_title(v, style, info.title.as_str(), ox, oy, cx + h, ch),
                None => None,
            };
            Some(Titlebar { icon, letter, text })
        },
    }
}

/// The titlebar's contents at the corner of a strip of their own; the band
/// behind them is the frame's.
pub fn draw_titlebar_strip(v: &LeafView, style: &TitleStyle, cell_h: Option<i32>) -> (bar: Option<
    Titlebar,
>)
    requires
        v.wf(),
        0 <= style.btn_size <= 0x100_0000,
        -0x2000_0000 <= style.btn_strip_left <= 0x3000_0000,
        cell_h is Some ==> 0 <= cell_h->0 <= 0x1000_0000,
    ensures
        is_titlebar(*v, *style, 0, 0, cell_h, bar),
{
    draw_titlebar(v, style, 0, 0, cell_h)
}

/// What a float's strip shows: as wide as its frame, in its accent, without
/// buttons. Nothing for a window that is no float.
pub fn float_strip(managed: &Managed, win: Win, title: TitleInfo, th: &Theme) -> (v: Option<LeafView>)
    requires
        managed@.wf(),
        th.wf(),
        managed@.is_float(win) ==> managed@.entry(win).kind->Float_0.fits(*th),
    ensures
        match v {
            Some(v) => {
                let f = managed@.entry(win).kind->Float_0;
                &&& managed@.is_float(win)
                &&& v == (LeafView {
                    w: f.framed(*th).w,
                    tb_h: th.tb_h,
                    bw: th.border_left,
                    accent_index: f.accent,
                    titlebar: Some(title),
                    buttons: false,
                })
            },
            None => !managed@.is_float(win),
        },
{
    match managed.float(win) {
        Some(f) => Some(
            LeafView {
                w: f.frame_rect(th).w,
                tb_h: th.tb_h,
                bw: th.border_left,
                accent_index: f.accent,
                titlebar: Some(title),
                buttons: false,
            },
        ),
        None => None,
    }
}

/// A split's chrome.
pub enum LeafArt {
    /// The restore strip of a minimized split, along its long axis.
    Strip { vertical: bool, parts: Vec<Part> },
    /// The border, and the titlebar's contents over it.
    Framed { parts: Vec<Part>, bar: Option<Titlebar> },
}

/// Whether `art` is a split's chrome at (`ox`, `oy`), `h` high: a minimized
/// split is a restore strip, upright if it is higher than wide.
pub open spec fn is_leaf_art(
    border: NineSlice,
    min_v: (i32, i32),
    min_h: (i32, i32),
    v: LeafView,
    h: int,
    minimized: bool,
    style: TitleStyle,
    ox: int,
    oy: int,
    cell_h: Option<i32>,
    art: LeafArt,
) -> bool {
    match art {
        LeafArt::Strip { vertical, parts } => {
            &&& minimized
            &&& vertical == (v.w < h)
            &&& parts@ == (if vertical {
                strip_parts(min_v.0 as int, min_v.1 as int, ox, oy, v.w as int, h, true)
            } else {
                strip_parts(min_h.0 as int, min_h.1 as int, ox, oy, v.w as int, h, false)
            })
        },
        LeafArt::Framed { parts, bar } => {
            &&& !minimized
            &&& parts@ == (if border.covers_margins() {
                border.parts_of(ox, oy, v.w as int, h)
            } else {
                Seq::empty()
            })
            &&& is_titlebar(v, style, ox, oy, cell_h, bar)
        },
    }
}

/// Draw a split's chrome: the restore strip of a minimized one, else the
/// border with the titlebar over it. `min_v` and `min_h` are the sizes of the
/// restore strips' sprites.
pub fn draw_leaf(
    border: &NineSlice,
    min_v: (i32, i32),
    min_h: (i32, i32),
    v: &LeafView,
    h: i32,
    minimized: bool,
    style: &TitleStyle,
    ox: i32,
    oy: i32,
    cell_h: Option<i32>,
) -> (art: LeafArt)
    requires
        border.wf(),
        0 <= min_v.0 <= 0x100_0000,
        2 * MIN_CAP <= min_v.1 <= 0x100_0000,
        2 * MIN_CAP <= min_h.0 <= 0x100_0000,
        0 <= min_h.1 <= 0x100_0000,
        v.wf(),
        roomy(ox as int, oy as int, v.w as int, h as int),
        -0x2000_0000 <= ox <= 0x2000_0000,
        -0x2000_0000 <= oy <= 0x2000_0000,
        0 <= style.btn_size <= 0x100_0000,
        -0x2000_0000 <= style.btn_strip_left <= 0x3000_0000,
        cell_h is Some ==> 0 <= cell_h->0 <= 0x1000_0000,
    ensures
        is_leaf_art(
            *border,
            min_v,
            min_h,
            *v,
            h as int,
            minimized,
            *style,
            ox as int,
            oy as int,
            cell_h,
            art,
        ),
{
    if minimized {
        let vertical = v.w < h;
        let parts = if vertical {
            draw_minimized_axis(min_v.0, min_v.1, ox, oy, v.w, h, true)
        } else {
            draw_minimized_axis(min_h.0, min_h.1, ox, oy, v.w, h, false)
        };
        return LeafArt::Strip { vertical, parts };
    }
    let parts = border.draw(ox, oy, v.w, h);
    let bar = draw_titlebar(v, style, ox, oy, cell_h);
    LeafArt::Framed { parts, bar }
}

/// Where a glyph centred on (`cx`, `cy`) starts.
pub open spec fn glyph_place(cx: int, cy: int, w: int, h: int) -> Option<(i32, i32)> {
    if cy - h / 2 < 0 {
        None
    } else {
        Some(((cx - w / 2) as i32, (cy - h / 2) as i32))
    }
}

/// Where a letter `w` by `h` centred at (`cx`, `cy`) is drawn. One that
/// pokes past the top edge is dropped.
pub fn draw_glyph(cx: i32, cy: i32, w: i32, h: i32) -> (p: Option<(i32, i32)>)
    requires
        0 <= w,
        0 <= h,
        fits_i32(cx - w / 2),
        fits_i32(cy - h / 2),
    ensures
        p == glyph_place(cx as int, cy as int, w as int, h as int),
{
    let x: i32 = cx - w / 2;
    let y: i32 = cy - h / 2;
    if y < 0 {
        return None;
    }
    Some((x, y))
}

/// The split-control buttons drawn at the right of every titlebar.
#[derive(Clone, Copy, PartialEq, Eq, Debug, Structural)]
pub enum BtnIcon {
    Close,
    /// A split alone in its column collapses to a narrow column.
    Minimize,
    /// A stacked split collapses to a short row.
    MinimizeH,
    /// A horizontal divider: another split below.
    HSplit,
    /// A vertical divider: another column.
    VSplit,
}

impl BtnIcon {
    /// How many there are.
    pub const COUNT: usize = 5;

    /// The slot of the button's art.
    pub fn index(self) -> (i: usize)
        ensures
            i == (match self {
                BtnIcon::Close => 0int,
                BtnIcon::Minimize => 1,
                BtnIcon::MinimizeH => 2,
                BtnIcon::HSplit => 3,
                BtnIcon::VSplit => 4,
            }),
            i < Self::COUNT,
    {
        match self {
            BtnIcon::Close => 0,
            BtnIcon::Minimize => 1,
            BtnIcon::MinimizeH => 2,
            BtnIcon::HSplit => 3,
            BtnIcon::VSplit => 4,
        }
    }
}

/// A button's place and colours: the corner its art is drawn at, and the
/// remap of its indices, in order.
pub fn draw_button(
    cx: i32,
    cy: i32,
    sprite: (i32, i32),
    disabled: bool,
    c: &Colors,
    accent: Index,
    darker: Index,
    lighter: Index,
) -> (b: ((i32, i32), Vec<(Index, Index)>))
    requires
        0 <= sprite.0,
        0 <= sprite.1,
        fits_i32(cx - sprite.0 / 2),
        fits_i32(cy - sprite.1 / 2),
    ensures
        b.0 == ((cx - sprite.0 / 2) as i32, (cy - sprite.1 / 2) as i32),
        b.1@ == button_swap(*c, accent, darker, lighter, disabled),
{
    let mut swap = accent_swap(c, accent, darker, lighter);
    if disabled {
        swap.push((c.lime, c.lavender));
    }
    proof {
        assert(swap@ =~= button_swap(*c, accent, darker, lighter, disabled));
    }
    ((cx - sprite.0 / 2, cy - sprite.1 / 2), swap)
}

/// The remap of a button's indices: the accent's, and a disabled button
/// shows no lime, which reads as too live for one.
pub open spec fn button_swap(
    c: Colors,
    accent: Index,
    darker: Index,
    lighter: Index,
    disabled: bool,
) -> Seq<(Index, Index)> {
    let swap = seq![(c.lavender, accent), (c.purple, darker), (c.cream, lighter)];
    if disabled {
        swap.push((c.lime, c.lavender))
    } else {
        swap
    }
}

/// Disabled or not, a button's fill, outline and highlight follow the
/// accent; a disabled button's lime becomes lavender whatever the accent.
pub proof fn buttons_follow_the_accent(
    c: Colors,
    accent: Index,
    darker: Index,
    lighter: Index,
    disabled: bool,
)
    requires
        c.lavender != c.purple,
        c.lavender != c.cream,
        c.purple != c.cream,
        c.lime != c.lavender,
        c.lime != c.purple,
        c.lime != c.cream,
    ensures
        ({
            let s = button_swap(c, accent, darker, lighter, disabled);
            let n = s.len() as int;
            &&& remapped(s, c.lavender, n) == accent
            &&& remapped(s, c.purple, n) == darker
            &&& remapped(s, c.cream, n) == lighter
            &&& disabled ==> remapped(s, c.lime, n) == c.lavender
        }),
{
    reveal_with_fuel(remapped, 5);
    let s = button_swap(c, accent, darker, lighter, disabled);
    assert(s[0] == (c.lavender, accent) && s[1] == (c.purple, darker) && s[2] == (c.cream, lighter));
}

/// Law: a glyph is drawn around its middle, one pixel off at most, and one
/// that would start above the buffer is not drawn.
pub proof fn glyphs_are_drawn_around_their_middle(cx: int, cy: int, w: int, h: int)
    requires
        0 <= w,
        0 <= h,
        fits_i32(cx - w / 2),
        fits_i32(cy - h / 2),
    ensures
        ({
            let p = glyph_place(cx, cy, w, h);
            &&& p is None ==> 2 * cy < h
            &&& p is Some ==> {
                let (x, y) = p->0;
                &&& 0 <= y
                &&& 0 <= (x + w - cx) - (cx - x) <= 1
                &&& 0 <= (y + h - cy) - (cy - y) <= 1
            }
        }),
{
}

/// Law: a title is dark with a light edge below it on a light accent, and
/// light with a dark edge above it on a dark one; it stands in the middle of
/// the titlebar's height, to the right of the icon.
pub proof fn titles_stand_out_from_the_accent(
    v: LeafView,
    style: TitleStyle,
    title: Seq<char>,
    ox: int,
    oy: int,
    icon_right: int,
    cell_h: int,
)
    requires
        v.wf(),
        -0x2000_0000 <= ox <= 0x2000_0000,
        -0x2000_0000 <= oy <= 0x2000_0000,
        -0x4000_0000 <= icon_right <= 0x4000_0000,
        0 <= cell_h <= v.tb_h,
        title_of(v, style, title, ox, oy, icon_right, cell_h) is Some,
    ensures
        ({
            let t = title_of(v, style, title, ox, oy, icon_right, cell_h)->0;
            let (above, below) = (t.y - oy, oy + v.tb_h - t.y - cell_h);
            &&& style.accent_is_light ==> t.color == style.fg_dark && t.shadow_color
                == style.lighter && t.shadow_y == t.y + 1
            &&& !style.accent_is_light ==> t.color == style.fg && t.shadow_color == style.darker
                && t.shadow_y == t.y - 1
            &&& 0 <= below - above <= 1
            &&& t.x == icon_right + TITLEBAR_ICON_PAD
            &&& t.shadow <==> t.shadow_y >= 0
        }),
{
}

/// Law: a title is left out only where it is empty, where the split is too
/// narrow for its buttons, where the icon leaves no room before its limit,
/// or where it would start above the buffer.
pub proof fn titles_are_shown_where_they_fit(
    v: LeafView,
    style: TitleStyle,
    title: Seq<char>,
    ox: int,
    oy: int,
    icon_right: int,
    cell_h: int,
)
    requires
        0 <= cell_h <= v.tb_h,
        0 <= oy,
    ensures
        title_of(v, style, title, ox, oy, icon_right, cell_h) is Some <==> title.len() > 0 && (
        v.buttons ==> v.w >= style.min_split_w && icon_right + 4 < style.btn_strip_left) && (
        !v.buttons ==> icon_right + 4 < ox + v.w - v.bw),
{
}

/// Law: a minimized split is drawn as a strip along its longer side.
pub proof fn minimized_splits_are_strips(
    border: NineSlice,
    min_v: (i32, i32),
    min_h: (i32, i32),
    v: LeafView,
    h: int,
    minimized: bool,
    style: TitleStyle,
    ox: int,
    oy: int,
    cell_h: Option<i32>,
    art: LeafArt,
)
    requires
        is_leaf_art(border, min_v, min_h, v, h, minimized, style, ox, oy, cell_h, art),
    ensures
        minimized <==> art is Strip,
        !minimized <==> art is Framed,
        minimized ==> (art->vertical <==> h > v.w),
{
}

/// Law: the titlebar's icon starts four pixels inside the border and stands
/// in the middle of the titlebar's height, up to a pixel.
pub proof fn icons_start_inside_the_border(ox: int, oy: int, bw: int, tb_h: int, isz: int)
    requires
        0 <= isz,
        0 <= tb_h,
    ensures
        ({
            let (x, y) = icon_centre(ox, oy, bw, tb_h, isz);
            &&& 0 <= isz - 2 * (x - (ox + bw + 4)) <= 1
            &&& 0 <= tb_h - 2 * (y - oy) <= 1
        }),
{
}

} // verus!
