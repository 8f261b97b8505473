//! Tiles: one themed, labelled, icon-bearing square of a board.

use vstd::prelude::*;
use crate::canvas::{
    Canvas, bordered, filled, height_of, is_grid, mapped, pasted, resampled, same_shape,
    shows_opaque, width_of,
};
use crate::palette::Color;
use crate::text::{TextRenderOptions, TextRenderer};

verus! {

/// One cell of a board.
pub struct Tile {
    pub number: u8,
    pub name: String,
    /// The icon shown between the two labels.
    pub image: Canvas,
    /// Locked tiles are drawn in the locked theme, their icon greyed out.
    pub unlocked: bool,
}

/// The colours of a tile.
#[derive(Clone, Copy, Debug)]
pub struct TileTheme {
    pub border_color: Color,
    pub inset_color: Color,
    pub background_color: Color,
    pub text_color: Color,
}

/// How tiles are drawn. All lengths are in pixels.
#[derive(Clone, Copy, Debug)]
pub struct TileRenderOptions {
    /// Free space between the inset and the content, and between the labels
    /// and the icon.
    pub padding: u32,
    /// Thickness of the outer border.
    pub border_size: u32,
    /// Thickness of the inner border, which lies against the outer one.
    pub inset_size: u32,
    pub text_size: u16,
    pub locked_theme: TileTheme,
    pub unlocked_theme: TileTheme,
}

impl TileRenderOptions {
    /// The stock options: 6 pixels of padding, a border and an inset of 4
    /// pixels each, labels of 20 pixels, orange on locked tiles and green
    /// on unlocked ones.
    pub open spec fn stock() -> TileRenderOptions {
        TileRenderOptions {
            padding: 6,
            border_size: 4,
            inset_size: 4,
            text_size: 20,
            locked_theme: TileTheme {
                border_color: crate::palette::spec_default_border_color(),
                inset_color: crate::palette::spec_default_inset_color(),
                background_color: crate::palette::spec_default_background_locked_color(),
                text_color: crate::palette::spec_orange(),
            },
            unlocked_theme: TileTheme {
                border_color: crate::palette::spec_default_border_color(),
                inset_color: crate::palette::spec_default_inset_color(),
                background_color: crate::palette::spec_default_background_unlocked_color(),
                text_color: crate::palette::spec_green(),
            },
        }
    }

    /// The theme for a tile that is unlocked, or not.
    pub open spec fn theme(&self, unlocked: bool) -> TileTheme {
        if unlocked {
            self.unlocked_theme
        } else {
            self.locked_theme
        }
    }

    /// Distance from an edge of the tile to its content.
    pub open spec fn content_offset(&self) -> int {
        self.border_size + self.inset_size + self.padding
    }

    /// A tile of side `tile_size` has room for its borders and padding, and
    /// is no larger than a canvas can be.
    pub open spec fn fits(&self, tile_size: u32) -> bool {
        &&& 1 <= tile_size <= 0xffff
        &&& 2 * self.content_offset() <= tile_size
    }

    /// Decides [`Self::fits`].
    pub fn check_fits(&self, tile_size: u32) -> (ok: bool)
        ensures
            ok == self.fits(tile_size),
    {
        let offset: u64 = self.border_size as u64 + self.inset_size as u64 + self.padding as u64;
        1 <= tile_size && tile_size <= 0xffff && 2 * offset <= tile_size as u64
    }
}

impl Default for TileRenderOptions {
    fn default() -> (options: Self)
        ensures
            options == TileRenderOptions::stock(),
    {
        TileRenderOptions {
            padding: 6,
            border_size: 4,
            inset_size: 4,
            text_size: 20,
            locked_theme: TileTheme {
                border_color: crate::palette::default_border_color(),
                inset_color: crate::palette::default_inset_color(),
                background_color: crate::palette::default_background_locked_color(),
                text_color: crate::palette::orange(),
            },
            unlocked_theme: TileTheme {
                border_color: crate::palette::default_border_color(),
                inset_color: crate::palette::default_inset_color(),
                background_color: crate::palette::default_background_unlocked_color(),
                text_color: crate::palette::green(),
            },
        }
    }
}

/// The rectangle `(x1, y1, x2, y2)` of a tile that labels and icon may use:
/// the tile inset from all four edges by border, inset and padding.
pub open spec fn content_bounds(tile_size: u32, options: TileRenderOptions) -> (
    int,
    int,
    int,
    int,
) {
    let offset = options.content_offset();
    (offset, offset, tile_size - offset, tile_size - offset)
}

/// Computes [`content_bounds`].
pub fn compute_content_bounds(tile_size: u32, options: &TileRenderOptions) -> (bounds: (
    u32,
    u32,
    u32,
    u32,
))
    requires
        options.content_offset() <= tile_size,
    ensures
        (bounds.0 as int, bounds.1 as int, bounds.2 as int, bounds.3 as int) == content_bounds(
            tile_size,
            *options,
        ),
{
    let offset = options.border_size + options.inset_size + options.padding;
    let x2 = tile_size - offset;
    let y2 = tile_size - offset;
    (offset, offset, x2, y2)
}

/// The background of a tile: a square of the background colour, framed by a
/// border flush with its edge and, against that, an inset.
pub open spec fn template(
    size: u32,
    border_size: u32,
    inset_size: u32,
    background_color: Color,
    border_color: Color,
    inset_color: Color,
) -> Seq<Seq<Color>> {
    let ground = filled(size as int, size as int, background_color);
    let framed = bordered(ground, 0, 0, size as int, size as int, border_size as int, border_color);
    bordered(
        framed,
        border_size as int,
        border_size as int,
        size - border_size,
        size - border_size,
        inset_size as int,
        inset_color,
    )
}

/// Draws [`template`].
pub fn render_tile_template(
    size: u32,
    border_size: u32,
    inset_size: u32,
    background_color: Color,
    border_color: Color,
    inset_color: Color,
) -> (image: Canvas)
    requires
        1 <= size <= 0xffff,
        2 * (border_size + inset_size) <= size,
    ensures
        image@ == template(
            size,
            border_size,
            inset_size,
            background_color,
            border_color,
            inset_color,
        ),
        is_grid(image@, size as int, size as int),
{
    assert(size * size <= 0xffff * 0xffff) by (nonlinear_arith)
        requires
            0 <= size <= 0xffff,
    ;
    let mut image = Canvas::new(size, size, background_color);
    image.draw_border(0, 0, size, size, border_size, border_color);
    image.draw_border(
        border_size,
        border_size,
        size - border_size,
        size - border_size,
        inset_size,
        inset_color,
    );
    image
}

/// A hundred times the luma of a colour, `0.3 R + 0.6 G + 0.1 B`.
pub open spec fn luma_percent(c: Color) -> int {
    30 * c.r + 60 * c.g + 10 * c.b
}

/// One channel of `c` moved `percent` hundredths of the way toward the luma
/// of `c`, rounded down: `channel + percent / 100 * (luma - channel)`.
pub open spec fn toward_luma(channel: u8, c: Color, percent: u8) -> int {
    ((100 - percent) * 100 * channel + percent * luma_percent(c)) / 10000
}

/// `c` with red, green and blue each moved `percent` hundredths of the way
/// toward its luma. Alpha stays.
pub open spec fn desaturated(c: Color, percent: u8) -> Color {
    Color {
        r: toward_luma(c.r, c, percent) as u8,
        g: toward_luma(c.g, c, percent) as u8,
        b: toward_luma(c.b, c, percent) as u8,
        a: c.a,
    }
}

/// A blended channel is a channel: it lies between 0 and 255.
pub proof fn lemma_toward_luma_in_range(channel: u8, c: Color, percent: u8)
    requires
        percent <= 100,
    ensures
        0 <= toward_luma(channel, c, percent) <= 255,
{
    let l = luma_percent(c);
    let p = percent as int;
    assert(0 <= l <= 25500);
    assert(0 <= (100 - p) * 100 * channel <= (100 - p) * 25500) by (nonlinear_arith)
        requires
            0 <= p <= 100,
            0 <= channel <= 255,
    ;
    assert(0 <= p * l <= p * 25500) by (nonlinear_arith)
        requires
            0 <= p <= 100,
            0 <= l <= 25500,
    ;
}

/// Desaturation moves a channel toward the luma of its pixel and never past
/// it: a channel at or below the luma does not fall and stays at or below
/// it; a channel at or above the luma does not rise and stays above the
/// luma less one; and a channel above the luma falls, unless nothing is
/// blended in at all.
pub proof fn lemma_desaturation_moves_toward_luma(channel: u8, c: Color, percent: u8)
    requires
        percent <= 100,
    ensures
        100 * channel <= luma_percent(c) ==> channel <= toward_luma(channel, c, percent) && 100
            * toward_luma(channel, c, percent) <= luma_percent(c),
        100 * channel >= luma_percent(c) ==> toward_luma(channel, c, percent) <= channel
            && luma_percent(c) < 100 * toward_luma(channel, c, percent) + 100,
        100 * channel > luma_percent(c) && percent > 0 ==> toward_luma(channel, c, percent)
            < channel,
{
    let l = luma_percent(c);
    let p = percent as int;
    let ch = channel as int;
    let blend = (100 - p) * 100 * ch + p * l;
    let q = blend / 10000;
    assert(q * 10000 <= blend < q * 10000 + 10000) by {
        vstd::arithmetic::div_mod::lemma_fundamental_div_mod(blend, 10000);
    }
    if 100 * ch <= l {
        assert(10000 * ch <= blend && blend <= 100 * l) by (nonlinear_arith)
            requires
                blend == (100 - p) * 100 * ch + p * l,
                0 <= p <= 100,
                100 * ch <= l,
        ;
    }
    if 100 * ch >= l {
        assert(blend <= 10000 * ch && 100 * l <= blend) by (nonlinear_arith)
            requires
                blend == (100 - p) * 100 * ch + p * l,
                0 <= p <= 100,
                100 * ch >= l,
        ;
    }
    if 100 * ch > l && p > 0 {
        assert(blend < 10000 * ch) by (nonlinear_arith)
            requires
                blend == (100 - p) * 100 * ch + p * l,
                0 < p <= 100,
                100 * ch > l,
        ;
    }
}

/// Desaturation keeps the luma of a pixel, but for what rounding each
/// channel down takes away: less than one.
pub proof fn lemma_desaturation_keeps_luma(c: Color, percent: u8)
    requires
        percent <= 100,
    ensures
        luma_percent(c) - 100 < luma_percent(desaturated(c, percent)) <= luma_percent(c),
{
    let l = luma_percent(c);
    let p = percent as int;
    lemma_toward_luma_in_range(c.r, c, percent);
    lemma_toward_luma_in_range(c.g, c, percent);
    lemma_toward_luma_in_range(c.b, c, percent);
    let br = (100 - p) * 100 * c.r + p * l;
    let bg = (100 - p) * 100 * c.g + p * l;
    let bb = (100 - p) * 100 * c.b + p * l;
    vstd::arithmetic::div_mod::lemma_fundamental_div_mod(br, 10000);
    vstd::arithmetic::div_mod::lemma_fundamental_div_mod(bg, 10000);
    vstd::arithmetic::div_mod::lemma_fundamental_div_mod(bb, 10000);
    let r = br / 10000;
    let g = bg / 10000;
    let b = bb / 10000;
    assert(30 * br + 60 * bg + 10 * bb == 10000 * l) by (nonlinear_arith)
        requires
            br == (100 - p) * 100 * c.r + p * l,
            bg == (100 - p) * 100 * c.g + p * l,
            bb == (100 - p) * 100 * c.b + p * l,
            l == 30 * c.r + 60 * c.g + 10 * c.b,
    ;
    assert(desaturated(c, percent).r == r);
    assert(desaturated(c, percent).g == g);
    assert(desaturated(c, percent).b == b);
}

fn blend_channel(channel: u8, c: Color, percent: u8) -> (r: u8)
    requires
        percent <= 100,
    ensures
        r == toward_luma(channel, c, percent),
{
    let luma: u32 = 30 * (c.r as u32) + 60 * (c.g as u32) + 10 * (c.b as u32);
    let p: u32 = percent as u32;
    proof {
        lemma_toward_luma_in_range(channel, c, percent);
        assert((100 - p) * 100 * channel <= 100 * 100 * 255) by (nonlinear_arith)
            requires
                0 <= p <= 100,
                0 <= channel <= 255,
        ;
        assert(p * luma <= 100 * 25500) by (nonlinear_arith)
            requires
                0 <= p <= 100,
                0 <= luma <= 25500,
        ;
    }
    let blended: u32 = ((100 - p) * 100 * (channel as u32) + p * luma) / 10000;
    blended as u8
}

/// Computes [`desaturated`].
pub fn desaturate_pixel(c: Color, percent: u8) -> (r: Color)
    requires
        percent <= 100,
    ensures
        r == desaturated(c, percent),
{
    Color {
        r: blend_channel(c.r, c, percent),
        g: blend_channel(c.g, c, percent),
        b: blend_channel(c.b, c, percent),
        a: c.a,
    }
}

/// Greys a canvas out in place: every pixel is moved `percent` hundredths
/// of the way toward its own luma.
pub fn desaturate(image: &mut Canvas, percent: u8)
    requires
        percent <= 100,
    ensures
        final(image)@ == mapped(old(image)@, |c: Color| desaturated(c, percent)),
{
    let grey = |c: Color| -> (r: Color)
        ensures
            r == desaturated(c, percent),
        { desaturate_pixel(c, percent) };
    image.map_pixels(grey);
    assert(image@ =~~= mapped(old(image)@, |c: Color| desaturated(c, percent)));
}

/// The size an image of `width` by `height` is drawn at in a box of
/// `max_width` by `max_height`: its own if it fits, else the largest of its
/// aspect ratio that fits, with the side that does not bind rounded down.
pub open spec fn fitted(width: int, height: int, max_width: int, max_height: int) -> (int, int) {
    if width <= max_width && height <= max_height {
        (width, height)
    } else if width * max_height > max_width * height {
        // relatively wider than the box: the width binds
        (max_width, height * max_width / width)
    } else {
        (width * max_height / height, max_height)
    }
}

/// Scaling to fit never leaves the box and never enlarges.
pub proof fn lemma_fitted_bounds(width: int, height: int, max_width: int, max_height: int)
    requires
        width >= 1,
        height >= 1,
        max_width >= 0,
        max_height >= 0,
    ensures
        0 <= fitted(width, height, max_width, max_height).0 <= max_width,
        0 <= fitted(width, height, max_width, max_height).1 <= max_height,
        fitted(width, height, max_width, max_height).0 <= width,
        fitted(width, height, max_width, max_height).1 <= height,
{
    if width <= max_width && height <= max_height {
    } else if width * max_height > max_width * height {
        let q = height * max_width / width;
        assert(0 <= q && q * width <= height * max_width) by (nonlinear_arith)
            requires
                q == height * max_width / width,
                width >= 1,
                height >= 1,
                max_width >= 0,
        ;
        assert(q <= max_height && q <= height && max_width <= width) by (nonlinear_arith)
            requires
                q * width <= height * max_width,
                width * max_height > max_width * height,
                width > max_width || height > max_height,
                width >= 1,
                height >= 1,
                max_width >= 0,
                max_height >= 0,
                q >= 0,
        ;
    } else {
        let q = width * max_height / height;
        assert(0 <= q && q * height <= width * max_height) by (nonlinear_arith)
            requires
                q == width * max_height / height,
                width >= 1,
                height >= 1,
                max_height >= 0,
        ;
        assert(q <= max_width && q <= width && max_height <= height) by (nonlinear_arith)
            requires
                q * height <= width * max_height,
                width * max_height <= max_width * height,
                width > max_width || height > max_height,
                width >= 1,
                height >= 1,
                max_width >= 0,
                max_height >= 0,
                q >= 0,
        ;
    }
}

/// Scaling to fit keeps the aspect ratio to within one pixel: one side is
/// scaled exactly, the other is what the ratio gives, rounded down.
pub proof fn lemma_fitted_keeps_aspect(width: int, height: int, max_width: int, max_height: int)
    requires
        width >= 1,
        height >= 1,
        max_width >= 0,
        max_height >= 0,
    ensures
        ({
            let (w, h) = fitted(width, height, max_width, max_height);
            ||| h * width <= height * w < (h + 1) * width
            ||| w * height <= width * h < (w + 1) * height
        }),
{
    let (w, h) = fitted(width, height, max_width, max_height);
    if width <= max_width && height <= max_height {
        assert(h * width <= height * w < (h + 1) * width) by (nonlinear_arith)
            requires
                w == width,
                h == height,
                width >= 1,
        ;
    } else if width * max_height > max_width * height {
        vstd::arithmetic::div_mod::lemma_fundamental_div_mod(height * max_width, width);
        assert(h * width <= height * w < (h + 1) * width) by (nonlinear_arith)
            requires
                w == max_width,
                height * max_width == width * h + (height * max_width) % width,
                0 <= (height * max_width) % width < width,
        ;
    } else {
        vstd::arithmetic::div_mod::lemma_fundamental_div_mod(width * max_height, height);
        assert(w * height <= width * h < (w + 1) * height) by (nonlinear_arith)
            requires
                h == max_height,
                width * max_height == height * w + (width * max_height) % height,
                0 <= (width * max_height) % height < height,
        ;
    }
}

/// Where an image has the very aspect ratio of its box, either side may be
/// taken to bind: both give the size of the box.
pub proof fn lemma_fitted_at_the_ratio_of_the_box(
    width: int,
    height: int,
    max_width: int,
    max_height: int,
)
    requires
        width >= 1,
        height >= 1,
        max_width >= 0,
        max_height >= 0,
        width * max_height == max_width * height,
    ensures
        height * max_width / width == max_height,
        width * max_height / height == max_width,
{
    assert(height * max_width == width * max_height && width * max_height == height * max_width)
        by (nonlinear_arith)
        requires
            width * max_height == max_width * height,
    ;
    vstd::arithmetic::div_mod::lemma_div_multiples_vanish(max_height, width);
    vstd::arithmetic::div_mod::lemma_div_multiples_vanish(max_width, height);
}

/// Computes [`fitted`].
pub fn fit_within(width: u32, height: u32, max_width: u32, max_height: u32) -> (size: (u32, u32))
    requires
        width >= 1,
        height >= 1,
    ensures
        (size.0 as int, size.1 as int) == fitted(
            width as int,
            height as int,
            max_width as int,
            max_height as int,
        ),
        size.0 <= max_width,
        size.1 <= max_height,
        size.0 <= width,
        size.1 <= height,
{
    proof {
        lemma_fitted_bounds(width as int, height as int, max_width as int, max_height as int);
    }
    if width <= max_width && height <= max_height {
        (width, height)
    } else {
        let w = width as u64;
        let h = height as u64;
        let mw = max_width as u64;
        let mh = max_height as u64;
        assert(w * mh <= 0xffff_ffff * 0xffff_ffff && mw * h <= 0xffff_ffff * 0xffff_ffff)
            by (nonlinear_arith)
            requires
                0 <= w <= 0xffff_ffff,
                0 <= h <= 0xffff_ffff,
                0 <= mw <= 0xffff_ffff,
                0 <= mh <= 0xffff_ffff,
        ;
        if w * mh > mw * h {
            (max_width, (h * mw / w) as u32)
        } else {
            ((w * mh / h) as u32, max_height)
        }
    }
}

/// Drawing a template is a function of its arguments: two calls with the
/// same arguments return canvases that hold the same pixels.
pub proof fn lemma_template_is_a_function(
    size: u32,
    border_size: u32,
    inset_size: u32,
    background_color: Color,
    border_color: Color,
    inset_color: Color,
    first: Canvas,
    second: Canvas,
)
    requires
        call_ensures(
            render_tile_template,
            (size, border_size, inset_size, background_color, border_color, inset_color),
            first,
        ),
        call_ensures(
            render_tile_template,
            (size, border_size, inset_size, background_color, border_color, inset_color),
            second,
        ),
    ensures
        first@ == second@,
{
}

/// The decimal digit `d` as a character.
pub open spec fn digit(d: int) -> char {
    if d == 0 {
        '0'
    } else if d == 1 {
        '1'
    } else if d == 2 {
        '2'
    } else if d == 3 {
        '3'
    } else if d == 4 {
        '4'
    } else if d == 5 {
        '5'
    } else if d == 6 {
        '6'
    } else if d == 7 {
        '7'
    } else if d == 8 {
        '8'
    } else {
        '9'
    }
}

/// A tile number in decimal, without leading zeros.
pub open spec fn decimal(n: u8) -> Seq<char> {
    if n >= 100 {
        seq![digit(n as int / 100), digit(n as int / 10 % 10), digit(n as int % 10)]
    } else if n >= 10 {
        seq![digit(n as int / 10), digit(n as int % 10)]
    } else {
        seq![digit(n as int)]
    }
}

fn digit_str(d: u8) -> (s: &'static str)
    requires
        d <= 9,
    ensures
        s@ == seq![digit(d as int)],
{
    proof {
        reveal_strlit("0");
        reveal_strlit("1");
        reveal_strlit("2");
        reveal_strlit("3");
        reveal_strlit("4");
        reveal_strlit("5");
        reveal_strlit("6");
        reveal_strlit("7");
        reveal_strlit("8");
        reveal_strlit("9");
    }
    let s = if d == 0 {
        "0"
    } else if d == 1 {
        "1"
    } else if d == 2 {
        "2"
    } else if d == 3 {
        "3"
    } else if d == 4 {
        "4"
    } else if d == 5 {
        "5"
    } else if d == 6 {
        "6"
    } else if d == 7 {
        "7"
    } else if d == 8 {
        "8"
    } else {
        "9"
    };
    assert(s@ =~= seq![digit(d as int)]);
    s
}

/// The text of a number label.
pub fn number_text(n: u8) -> (s: String)
    ensures
        s@ == decimal(n),
{
    let mut s = String::new();
    if n >= 100 {
        s.append(digit_str(n / 100));
    }
    if n >= 10 {
        s.append(digit_str(n / 10 % 10));
    }
    s.append(digit_str(n % 10));
    assert(s@ =~= decimal(n));
    s
}

/// Where a label of width `inner` starts in a span of width `outer` so that
/// it is centred; a label wider than the span starts at its beginning.
pub open spec fn centred(outer: int, inner: int) -> int {
    if inner < outer {
        (outer - inner) / 2
    } else {
        0
    }
}

/// The icon as it is pasted into a box of `max_width` by `max_height`:
/// scaled down if it exceeds the box, and greyed out on a locked tile.
pub open spec fn prepared_icon(
    icon: Seq<Seq<Color>>,
    max_width: int,
    max_height: int,
    unlocked: bool,
) -> Seq<Seq<Color>> {
    let (w, h) = fitted(width_of(icon), height_of(icon), max_width, max_height);
    let scaled = if width_of(icon) > max_width || height_of(icon) > max_height {
        resampled(icon, w, h)
    } else {
        icon
    };
    if unlocked {
        scaled
    } else {
        mapped(scaled, |c: Color| desaturated(c, 90))
    }
}

/// Where the pieces of a tile go, given the content bounds of the tile and
/// the sizes of its two labels.
pub struct TileLayout {
    /// Top-left corner of the number label.
    pub number_at: (int, int),
    /// Top-left corner of the name label.
    pub name_at: (int, int),
    /// The rectangle `(x1, y1, x2, y2)` left for the icon between the labels.
    pub icon_box: (int, int, int, int),
}

/// The number label sits in the top-left corner of the content bounds. The
/// name label is centred on the bottom edge. The icon gets what is left
/// between them, less the padding on either side.
pub open spec fn layout(
    bounds: (int, int, int, int),
    padding: int,
    number_size: (int, int),
    name_size: (int, int),
) -> TileLayout {
    let (x1, y1, x2, y2) = bounds;
    TileLayout {
        number_at: (x1, y1),
        name_at: (x1 + centred(x2 - x1, name_size.0), y2 - name_size.1),
        icon_box: (x1, y1 + number_size.1 + padding, x2, y2 - (name_size.1 + padding)),
    }
}

/// The labels leave a box for the icon, the icon can be scaled into it,
/// and every position fits the machine's integers.
pub open spec fn layout_fits(
    bounds: (int, int, int, int),
    padding: int,
    number_size: (int, int),
    name_size: (int, int),
    icon_size: (int, int),
) -> bool {
    let (x1, y1, x2, y2) = bounds;
    let place = layout(bounds, padding, number_size, name_size);
    let (_, top, _, bottom) = place.icon_box;
    let drawn = fitted(icon_size.0, icon_size.1, x2 - x1, bottom - top);
    &&& 0 <= x1 <= x2 <= u32::MAX
    &&& 0 <= y1 <= y2 <= u32::MAX
    &&& top <= bottom
    &&& x1 + number_size.0 <= u32::MAX
    &&& place.name_at.0 + name_size.0 <= u32::MAX
    &&& drawn.0 >= 1
    &&& drawn.1 >= 1
}

/// Size of a grid as a pair.
pub open spec fn size_of(rows: Seq<Seq<Color>>) -> (int, int) {
    (width_of(rows), height_of(rows))
}

/// The size an icon of the size `icon_size` is shown at in the box
/// `(x1, y1, x2, y2)` between the labels.
pub open spec fn shown_size(icon_size: (int, int), icon_box: (int, int, int, int)) -> (int, int) {
    fitted(icon_size.0, icon_size.1, icon_box.2 - icon_box.0, icon_box.3 - icon_box.1)
}

/// The top-left corner an icon of the size `icon_size` is shown at: such
/// that it is centred in its box, an odd pixel going to the right and bottom.
pub open spec fn shown_at(icon_size: (int, int), icon_box: (int, int, int, int)) -> (int, int) {
    let (w, h) = shown_size(icon_size, icon_box);
    (
        icon_box.0 + (icon_box.2 - icon_box.0 - w) / 2,
        icon_box.1 + (icon_box.3 - icon_box.1 - h) / 2,
    )
}

/// The shown icon lies in its box, and is no larger than the icon itself.
pub proof fn lemma_shown_icon_lies_in_its_box(
    icon_size: (int, int),
    icon_box: (int, int, int, int),
)
    requires
        icon_size.0 >= 1,
        icon_size.1 >= 1,
        icon_box.0 <= icon_box.2,
        icon_box.1 <= icon_box.3,
    ensures
        ({
            let (w, h) = shown_size(icon_size, icon_box);
            let (x, y) = shown_at(icon_size, icon_box);
            &&& 0 <= w <= icon_size.0
            &&& 0 <= h <= icon_size.1
            &&& icon_box.0 <= x
            &&& x + w <= icon_box.2
            &&& icon_box.1 <= y
            &&& y + h <= icon_box.3
        }),
{
    lemma_fitted_bounds(
        icon_size.0,
        icon_size.1,
        icon_box.2 - icon_box.0,
        icon_box.3 - icon_box.1,
    );
}

/// A finished tile: the template with the number label, the name label and
/// the prepared icon, centred in its box, blended onto it in this order.
pub open spec fn composed_tile(
    template: Seq<Seq<Color>>,
    number_label: Seq<Seq<Color>>,
    name_label: Seq<Seq<Color>>,
    icon: Seq<Seq<Color>>,
    bounds: (int, int, int, int),
    padding: int,
    unlocked: bool,
) -> Seq<Seq<Color>> {
    let place = layout(bounds, padding, size_of(number_label), size_of(name_label));
    let (left, top, right, bottom) = place.icon_box;
    let icon = prepared_icon(icon, right - left, bottom - top, unlocked);
    let with_number = pasted(template, number_label, place.number_at.0, place.number_at.1);
    let with_name = pasted(with_number, name_label, place.name_at.0, place.name_at.1);
    pasted(
        with_name,
        icon,
        left + (right - left - width_of(icon)) / 2,
        top + (bottom - top - height_of(icon)) / 2,
    )
}

/// An icon that fits its box goes onto an unlocked tile as it is: neither
/// scaled nor greyed out.
pub proof fn lemma_fitting_icon_is_kept(icon: Seq<Seq<Color>>, max_width: int, max_height: int)
    requires
        width_of(icon) <= max_width,
        height_of(icon) <= max_height,
    ensures
        prepared_icon(icon, max_width, max_height, true) == icon,
{
}

/// On an unlocked tile, an icon of exactly the size of the box between the
/// labels is blended in unchanged, at the top-left corner of that box.
pub proof fn lemma_exact_icon_fills_box(
    template: Seq<Seq<Color>>,
    number_label: Seq<Seq<Color>>,
    name_label: Seq<Seq<Color>>,
    icon: Seq<Seq<Color>>,
    bounds: (int, int, int, int),
    padding: int,
)
    requires
        ({
            let place = layout(bounds, padding, size_of(number_label), size_of(name_label));
            &&& width_of(icon) == place.icon_box.2 - place.icon_box.0
            &&& height_of(icon) == place.icon_box.3 - place.icon_box.1
        }),
    ensures
        ({
            let place = layout(bounds, padding, size_of(number_label), size_of(name_label));
            composed_tile(template, number_label, name_label, icon, bounds, padding, true)
                == pasted(
                pasted(
                    pasted(template, number_label, place.number_at.0, place.number_at.1),
                    name_label,
                    place.name_at.0,
                    place.name_at.1,
                ),
                icon,
                place.icon_box.0,
                place.icon_box.1,
            )
        }),
{
}

/// Where the pieces of a tile go does not depend on whether the tile is
/// locked: a locked and an unlocked tile of the same labels and icon differ
/// in their template and in the icon being greyed out, and in nothing else.
pub proof fn lemma_lock_keeps_layout(
    locked_template: Seq<Seq<Color>>,
    unlocked_template: Seq<Seq<Color>>,
    number_label: Seq<Seq<Color>>,
    name_label: Seq<Seq<Color>>,
    icon: Seq<Seq<Color>>,
    bounds: (int, int, int, int),
    padding: int,
)
    ensures
        ({
            let place = layout(bounds, padding, size_of(number_label), size_of(name_label));
            let (left, top, right, bottom) = place.icon_box;
            let shown = prepared_icon(icon, right - left, bottom - top, true);
            let greyed = mapped(shown, |c: Color| desaturated(c, 90));
            let x = left + (right - left - width_of(shown)) / 2;
            let y = top + (bottom - top - height_of(shown)) / 2;
            &&& composed_tile(
                unlocked_template,
                number_label,
                name_label,
                icon,
                bounds,
                padding,
                true,
            ) == pasted(
                pasted(
                    pasted(unlocked_template, number_label, place.number_at.0, place.number_at.1),
                    name_label,
                    place.name_at.0,
                    place.name_at.1,
                ),
                shown,
                x,
                y,
            )
            &&& composed_tile(
                locked_template,
                number_label,
                name_label,
                icon,
                bounds,
                padding,
                false,
            ) == pasted(
                pasted(
                    pasted(locked_template, number_label, place.number_at.0, place.number_at.1),
                    name_label,
                    place.name_at.0,
                    place.name_at.1,
                ),
                greyed,
                x,
                y,
            )
        }),
{
    let place = layout(bounds, padding, size_of(number_label), size_of(name_label));
    let (left, top, right, bottom) = place.icon_box;
    let shown = prepared_icon(icon, right - left, bottom - top, true);
    let greyed = mapped(shown, |c: Color| desaturated(c, 90));
    assert(prepared_icon(icon, right - left, bottom - top, false) == greyed);
    assert(height_of(greyed) == height_of(shown));
    assert(width_of(greyed) == width_of(shown));
}

/// Decides [`layout_fits`].
pub fn check_layout(
    bounds: (u32, u32, u32, u32),
    padding: u32,
    number_size: (u32, u32),
    name_size: (u32, u32),
    icon_size: (u32, u32),
) -> (ok: bool)
    requires
        icon_size.0 >= 1,
        icon_size.1 >= 1,
    ensures
        ok == layout_fits(
            (bounds.0 as int, bounds.1 as int, bounds.2 as int, bounds.3 as int),
            padding as int,
            (number_size.0 as int, number_size.1 as int),
            (name_size.0 as int, name_size.1 as int),
            (icon_size.0 as int, icon_size.1 as int),
        ),
{
    let (x1, y1, x2, y2) = bounds;
    if x1 > x2 || y1 > y2 {
        return false;
    }
    let top: u64 = y1 as u64 + number_size.1 as u64 + padding as u64;
    let below: u64 = name_size.1 as u64 + padding as u64;
    if below > y2 as u64 || top > y2 as u64 - below {
        return false;
    }
    let bottom: u64 = y2 as u64 - below;
    let content_width = x2 - x1;
    let x_offset = if name_size.0 < content_width {
        (content_width - name_size.0) / 2
    } else {
        0
    };
    if x1 as u64 + number_size.0 as u64 > u32::MAX as u64 || x1 as u64 + x_offset as u64
        + name_size.0 as u64 > u32::MAX as u64 {
        return false;
    }
    let drawn = fit_within(icon_size.0, icon_size.1, content_width, (bottom - top) as u32);
    drawn.0 >= 1 && drawn.1 >= 1
}

/// Composes one tile from its parts: blends the two labels and the icon onto
/// a copy of `template`.
///
/// The number label goes to the top-left corner of `bounds`, the name label
/// centred to its bottom edge. The icon is scaled down, keeping its aspect
/// ratio, if it exceeds the box the labels leave; on a locked tile it is
/// greyed out by 90 percent; then it is centred in that box, an odd pixel
/// going to the right and bottom.
pub fn compose_tile(
    template: &Canvas,
    number_label: &Canvas,
    name_label: &Canvas,
    icon: &Canvas,
    bounds: (u32, u32, u32, u32),
    padding: u32,
    unlocked: bool,
) -> (image: Canvas)
    requires
        layout_fits(
            (bounds.0 as int, bounds.1 as int, bounds.2 as int, bounds.3 as int),
            padding as int,
            size_of(number_label@),
            size_of(name_label@),
            size_of(icon@),
        ),
    ensures
        image@ == composed_tile(
            template@,
            number_label@,
            name_label@,
            icon@,
            (bounds.0 as int, bounds.1 as int, bounds.2 as int, bounds.3 as int),
            padding as int,
            unlocked,
        ),
        same_shape(image@, template@),
        ({
            let place = layout(
                (bounds.0 as int, bounds.1 as int, bounds.2 as int, bounds.3 as int),
                padding as int,
                size_of(number_label@),
                size_of(name_label@),
            );
            let (left, top, right, bottom) = place.icon_box;
            let shown = prepared_icon(icon@, right - left, bottom - top, unlocked);
            let (w, h) = shown_size(size_of(icon@), place.icon_box);
            let (x, y) = shown_at(size_of(icon@), place.icon_box);
            // the icon as shown has the fitted size, and its opaque pixels
            // are those of the tile where it lies
            &&& is_grid(shown, w, h)
            &&& shows_opaque(image@, shown, x, y)
        }),
{
    let mut image = template.clone();
    let (x1, y1, x2, y2) = bounds;
    let (number_width, number_height) = number_label.dimensions();
    let (name_width, name_height) = name_label.dimensions();
    image.paste(number_label, x1, y1);
    let content_width = x2 - x1;
    let x_offset = if name_width < content_width {
        (content_width - name_width) / 2
    } else {
        0
    };
    image.paste(name_label, x1 + x_offset, y2 - name_height);
    // the icon must not overlap either label
    let top = y1 + number_height + padding;
    let bottom = y2 - (name_height + padding);
    let content_height = bottom - top;
    let mut item_image = icon.clone();
    let (icon_width, icon_height) = item_image.dimensions();
    if icon_width > content_width || icon_height > content_height {
        let (new_width, new_height) = fit_within(
            icon_width,
            icon_height,
            content_width,
            content_height,
        );
        assert(new_width * new_height <= icon_width * icon_height) by (nonlinear_arith)
            requires
                0 <= new_width <= icon_width,
                0 <= new_height <= icon_height,
        ;
        item_image.resize(new_width, new_height);
    }
    // locked tiles are greyed out
    if !unlocked {
        desaturate(&mut item_image, 90);
    }
    assert(item_image@ == prepared_icon(
        icon@,
        content_width as int,
        content_height as int,
        unlocked,
    ));
    let (drawn_width, drawn_height) = item_image.dimensions();
    proof {
        lemma_fitted_bounds(
            icon_width as int,
            icon_height as int,
            content_width as int,
            content_height as int,
        );
    }
    let x_pad = (content_width - drawn_width) / 2;
    let y_pad = (content_height - drawn_height) / 2;
    image.paste(&item_image, x1 + x_pad, top + y_pad);
    image
}

/// Renders tiles of one size and one set of options.
///
/// The two themed backgrounds are drawn once, when the renderer is made, and
/// copied for every tile.
pub struct TileRenderer<'a> {
    text_renderer: &'a TextRenderer,
    tile_size: u32,
    options: TileRenderOptions,
    locked_template: Canvas,
    unlocked_template: Canvas,
}

/// The background of a tile of side `tile_size` in the locked or the
/// unlocked theme of `options`.
pub open spec fn themed_template(tile_size: u32, options: TileRenderOptions, unlocked: bool) -> Seq<
    Seq<Color>,
> {
    let theme = options.theme(unlocked);
    template(
        tile_size,
        options.border_size,
        options.inset_size,
        theme.background_color,
        theme.border_color,
        theme.inset_color,
    )
}

fn render_themed_template(tile_size: u32, options: &TileRenderOptions, unlocked: bool) -> (image:
    Canvas)
    requires
        options.fits(tile_size),
    ensures
        image@ == themed_template(tile_size, *options, unlocked),
        is_grid(image@, tile_size as int, tile_size as int),
{
    let theme = if unlocked {
        options.unlocked_theme
    } else {
        options.locked_theme
    };
    render_tile_template(
        tile_size,
        options.border_size,
        options.inset_size,
        theme.background_color,
        theme.border_color,
        theme.inset_color,
    )
}

impl<'a> TileRenderer<'a> {
    #[verifier::type_invariant]
    spec fn well_formed(self) -> bool {
        &&& self.options.fits(self.tile_size)
        &&& self.locked_template@ == themed_template(self.tile_size, self.options, false)
        &&& self.unlocked_template@ == themed_template(self.tile_size, self.options, true)
        &&& is_grid(self.locked_template@, self.tile_size as int, self.tile_size as int)
        &&& is_grid(self.unlocked_template@, self.tile_size as int, self.tile_size as int)
    }

    /// The renderer the labels are made with.
    pub closed spec fn text_renderer(&self) -> TextRenderer {
        *self.text_renderer
    }

    /// Side length of the tiles this renderer makes.
    pub closed spec fn tile_size(&self) -> u32 {
        self.tile_size
    }

    pub closed spec fn options(&self) -> TileRenderOptions {
        self.options
    }

    /// How the labels of a tile are rendered: at the text size of the
    /// options, in the text colour of the tile's theme, without pixelation.
    pub open spec fn label_options(&self, unlocked: bool) -> TextRenderOptions {
        TextRenderOptions {
            size: self.options().text_size,
            color: self.options().theme(unlocked).text_color,
            pixelation: None,
        }
    }

    /// Size of the label for `text`.
    pub open spec fn label_size(&self, text: Seq<char>) -> (int, int) {
        let (w, h) = self.text_renderer().extent(text, self.options().text_size);
        (w + 1, h + 1)
    }

    /// The box `(x1, y1, x2, y2)` of the tile that the labels leave the icon.
    pub open spec fn icon_box(&self, tile: &Tile) -> (int, int, int, int) {
        layout(
            content_bounds(self.tile_size(), self.options()),
            self.options().padding as int,
            self.label_size(decimal(tile.number)),
            self.label_size(tile.name@),
        ).icon_box
    }

    /// The icon of the tile as it is shown: scaled into its box if it is
    /// too large, and greyed out if the tile is locked.
    pub open spec fn shown_icon(&self, tile: &Tile) -> Seq<Seq<Color>> {
        let (left, top, right, bottom) = self.icon_box(tile);
        prepared_icon(tile.image@, right - left, bottom - top, tile.unlocked)
    }

    /// The tile can be drawn: both labels have a size a canvas can have and
    /// leave room for the icon.
    pub open spec fn can_render(&self, tile: &Tile) -> bool {
        &&& self.text_renderer().can_render(decimal(tile.number), self.options().text_size)
        &&& self.text_renderer().can_render(tile.name@, self.options().text_size)
        &&& layout_fits(
            content_bounds(self.tile_size(), self.options()),
            self.options().padding as int,
            self.label_size(decimal(tile.number)),
            self.label_size(tile.name@),
            size_of(tile.image@),
        )
    }

    /// `picture` shows the icon of `tile` as a picture of the tile must:
    /// at the size that fits its box, never larger than the icon itself,
    /// centred in the box and within the tile, every opaque pixel of it
    /// as it is.
    pub open spec fn shows_icon(&self, tile: &Tile, picture: Seq<Seq<Color>>) -> bool {
        let icon_box = self.icon_box(tile);
        let shown = self.shown_icon(tile);
        let (w, h) = shown_size(size_of(tile.image@), icon_box);
        let (x, y) = shown_at(size_of(tile.image@), icon_box);
        &&& is_grid(shown, w, h)
        &&& 1 <= w <= width_of(tile.image@)
        &&& 1 <= h <= height_of(tile.image@)
        &&& 0 <= icon_box.0 <= x
        &&& x + w <= icon_box.2 <= self.tile_size()
        &&& 0 <= icon_box.1 <= y
        &&& y + h <= icon_box.3 <= self.tile_size()
        &&& shows_opaque(picture, shown, x, y)
    }

    /// The picture of `tile`.
    pub open spec fn rendered(&self, tile: &Tile) -> Seq<Seq<Color>> {
        composed_tile(
            themed_template(self.tile_size(), self.options(), tile.unlocked),
            self.text_renderer().rendered(decimal(tile.number), self.label_options(tile.unlocked)),
            self.text_renderer().rendered(tile.name@, self.label_options(tile.unlocked)),
            tile.image@,
            content_bounds(self.tile_size(), self.options()),
            self.options().padding as int,
            tile.unlocked,
        )
    }

    /// A renderer for tiles of side `tile_size`. Draws the background of
    /// each theme.
    pub fn new(
        text_renderer: &'a TextRenderer,
        tile_size: u32,
        options: TileRenderOptions,
    ) -> (renderer: Self)
        requires
            options.fits(tile_size),
        ensures
            renderer.text_renderer() == *text_renderer,
            renderer.tile_size() == tile_size,
            renderer.options() == options,
    {
        let locked_template = render_themed_template(tile_size, &options, false);
        let unlocked_template = render_themed_template(tile_size, &options, true);
        TileRenderer { text_renderer, tile_size, options, locked_template, unlocked_template }
    }

    /// Side length of the tiles this renderer makes.
    pub fn size(&self) -> (tile_size: u32)
        ensures
            tile_size == self.tile_size(),
            self.options().fits(tile_size),
    {
        proof {
            use_type_invariant(self);
        }
        self.tile_size
    }

    fn label_render_options(&self, unlocked: bool) -> (options: TextRenderOptions)
        ensures
            options == self.label_options(unlocked),
    {
        let text_color = if unlocked {
            self.options.unlocked_theme.text_color
        } else {
            self.options.locked_theme.text_color
        };
        TextRenderOptions { size: self.options.text_size, color: text_color, pixelation: None }
    }

    /// Decides [`Self::can_render`].
    pub fn check_can_render(&self, tile: &Tile) -> (ok: bool)
        ensures
            ok == self.can_render(tile),
    {
        proof {
            use_type_invariant(self);
        }
        let number = number_text(tile.number);
        let size = self.options.text_size;
        let number_size = match self.text_renderer.measure(number.as_str(), size) {
            Some(size) => size,
            None => { return false; },
        };
        let name_size = match self.text_renderer.measure(tile.name.as_str(), size) {
            Some(size) => size,
            None => { return false; },
        };
        let bounds = compute_content_bounds(self.tile_size, &self.options);
        check_layout(
            bounds,
            self.options.padding,
            number_size,
            name_size,
            tile.image.dimensions(),
        )
    }

    /// Renders one tile: the themed background, the number in the top-left
    /// corner of the content bounds, the name centred on their bottom edge,
    /// and the icon centred between the two.
    pub fn render(&self, tile: &Tile) -> (image: Canvas)
        requires
            self.can_render(tile),
        ensures
            image@ == self.rendered(tile),
            is_grid(image@, self.tile_size() as int, self.tile_size() as int),
            self.shows_icon(tile, image@),
    {
        proof {
            use_type_invariant(self);
            lemma_shown_icon_lies_in_its_box(size_of(tile.image@), self.icon_box(tile));
        }
        let options = self.label_render_options(tile.unlocked);
        let number = number_text(tile.number);
        let number_label = self.text_renderer.render(number.as_str(), &options);
        let name_label = self.text_renderer.render(tile.name.as_str(), &options);
        let bounds = compute_content_bounds(self.tile_size, &self.options);
        let template = if tile.unlocked {
            &self.unlocked_template
        } else {
            &self.locked_template
        };
        compose_tile(
            template,
            &number_label,
            &name_label,
            &tile.image,
            bounds,
            self.options.padding,
            tile.unlocked,
        )
    }

    /// [`Self::render`], or nothing where the tile cannot be drawn.
    pub fn try_render(&self, tile: &Tile) -> (image: Option<Canvas>)
        ensures
            image is Some <==> self.can_render(tile),
            image matches Some(image) ==> image@ == self.rendered(tile) && is_grid(
                image@,
                self.tile_size() as int,
                self.tile_size() as int,
            ) && self.shows_icon(tile, image@),
    {
        if self.check_can_render(tile) {
            Some(self.render(tile))
        } else {
            None
        }
    }
}

/// A picture of an unlocked tile whose icon has exactly the size of its box
/// shows the icon unscaled and not greyed, its top-left corner in that of
/// the box: every opaque pixel of the icon is a pixel of the picture.
pub proof fn lemma_exact_icon_is_shown(
    renderer: &TileRenderer,
    tile: &Tile,
    picture: Seq<Seq<Color>>,
)
    requires
        renderer.shows_icon(tile, picture),
        is_grid(picture, renderer.tile_size() as int, renderer.tile_size() as int),
        tile.unlocked,
        width_of(tile.image@) == renderer.icon_box(tile).2 - renderer.icon_box(tile).0,
        height_of(tile.image@) == renderer.icon_box(tile).3 - renderer.icon_box(tile).1,
    ensures
        renderer.shown_icon(tile) == tile.image@,
        shows_opaque(picture, tile.image@, renderer.icon_box(tile).0, renderer.icon_box(tile).1),
        forall|i: int, j: int|
            0 <= i < width_of(tile.image@) && 0 <= j < height_of(tile.image@) && (
            #[trigger] tile.image@[j][i]).a == 255 ==> picture[renderer.icon_box(tile).1
                + j][renderer.icon_box(tile).0 + i] == tile.image@[j][i],
{
    let icon = tile.image@;
    let icon_box = renderer.icon_box(tile);
    assert(shown_at(size_of(icon), icon_box) == (icon_box.0, icon_box.1));
    assert forall|i: int, j: int|
        0 <= i < width_of(icon) && 0 <= j < height_of(icon) && (#[trigger] icon[j][i]).a
            == 255 implies picture[icon_box.1 + j][icon_box.0 + i] == icon[j][i] by {
        assert(crate::canvas::holds(icon, i, j));
        assert(crate::canvas::holds(picture, icon_box.0 + i, icon_box.1 + j));
    }
}

/// Whether a tile is locked changes nothing about where its pieces go: a
/// locked and an unlocked tile of the same number, name and icon can be
/// drawn on the same conditions, their labels have the same sizes, and
/// their icons are shown in the same box, at the same size and place. The
/// locked one shows the icon of the unlocked one greyed out by 90 percent.
pub proof fn lemma_lock_keeps_places(renderer: &TileRenderer, locked: &Tile, unlocked: &Tile)
    requires
        !locked.unlocked,
        unlocked.unlocked,
        locked.number == unlocked.number,
        locked.name@ == unlocked.name@,
        locked.image@ == unlocked.image@,
    ensures
        renderer.can_render(locked) == renderer.can_render(unlocked),
        renderer.icon_box(locked) == renderer.icon_box(unlocked),
        shown_size(size_of(locked.image@), renderer.icon_box(locked)) == shown_size(
            size_of(unlocked.image@),
            renderer.icon_box(unlocked),
        ),
        shown_at(size_of(locked.image@), renderer.icon_box(locked)) == shown_at(
            size_of(unlocked.image@),
            renderer.icon_box(unlocked),
        ),
        renderer.shown_icon(locked) == mapped(
            renderer.shown_icon(unlocked),
            |c: Color| desaturated(c, 90),
        ),
{
}

} // verus!
