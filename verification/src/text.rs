//! Text labels: a string rasterised in one colour over a one-pixel drop shadow.

use vstd::prelude::*;
use crate::canvas::{
    Canvas, filled, height_of, is_grid, mapped, pasted, pixel_rows, same_shape, width_of,
};
use crate::error::AppError;
use crate::palette::{Color, black, transparent};

verus! {

#[verifier::external_type_specification]
#[verifier::external_body]
pub struct ExFont(ril::Font);

/// What a font holds: the bytes of the font file it was loaded from.
pub uninterp spec fn font_face(font: ril::Font) -> Seq<u8>;

/// The pixel size a font was tuned for when it was loaded.
pub uninterp spec fn font_optimal_size(font: ril::Font) -> int;

/// Whether `ril` makes a font of the bytes of a font file, to be tuned for
/// `optimal_size` pixels.
pub uninterp spec fn font_parses(bytes: Seq<u8>, optimal_size: int) -> bool;

/// Width and height of the bounding box `ril` lays `text` out in, without
/// wrapping and at `size` pixels, in the font of the file `face` tuned for
/// `optimal_size` pixels. Lines are broken at line breaks in `text` only.
pub uninterp spec fn text_extent(
    face: Seq<u8>,
    optimal_size: int,
    text: Seq<char>,
    size: int,
) -> (int, int);

/// The rows `ril` leaves when it draws `text` on `rows` at `size` pixels and
/// in `color`, without wrapping and from the top-left corner, in the font of
/// the file `face` tuned for `optimal_size` pixels. The rasteriser rounds
/// as the target it is built for does, so the rows are those of one target.
pub uninterp spec fn text_drawn(
    rows: Seq<Seq<Color>>,
    face: Seq<u8>,
    optimal_size: int,
    text: Seq<char>,
    size: int,
    color: Color,
) -> Seq<Seq<Color>>;

/// Wraps `ril::Font::from_bytes`: parses a TrueType or OpenType font,
/// tuned for rasterising at `optimal_size` pixels. Whether bytes parse
/// depends on them and on the size alone.
#[verifier::external_body]
fn load_font(font_bytes: &[u8], optimal_size: u16) -> (r: Result<ril::Font, ril::Error>)
    ensures
        r is Ok <==> font_parses(font_bytes@, optimal_size as int),
        r matches Ok(font) ==> font_face(font) == font_bytes@ && font_optimal_size(font)
            == optimal_size,
{
    ril::Font::from_bytes(font_bytes, optimal_size.into())
}

/// Wraps `ril::TextLayout::dimensions` of a layout at the origin, without
/// wrapping, holding `text` as its one segment.
#[verifier::external_body]
fn measure(font: &ril::Font, text: &str, size: u16) -> (d: (u32, u32))
    ensures
        d.0 == text_extent(font_face(*font), font_optimal_size(*font), text@, size as int).0,
        d.1 == text_extent(font_face(*font), font_optimal_size(*font), text@, size as int).1,
{
    let segment = ril::TextSegment::new(font, text, ril::Rgba::default()).with_size(size.into());
    ril::TextLayout::new()
        .with_position(0, 0)
        .with_wrap(ril::WrapStyle::None)
        .with_segment(&segment)
        .dimensions()
}

/// Wraps `ril::Image::draw` of the layout that [`measure`] measures, in
/// `color`. Drawing text changes pixels, never the shape of the image.
#[verifier::external_body]
fn draw_text(canvas: &mut Canvas, font: &ril::Font, text: &str, size: u16, color: Color)
    ensures
        pixel_rows(*final(canvas)) == text_drawn(
            pixel_rows(*old(canvas)),
            font_face(*font),
            font_optimal_size(*font),
            text@,
            size as int,
            color,
        ),
        same_shape(pixel_rows(*final(canvas)), pixel_rows(*old(canvas))),
{
    let fill = ril::Rgba { r: color.r, g: color.g, b: color.b, a: color.a };
    let segment = ril::TextSegment::new(font, text, fill).with_size(size.into());
    let layout = ril::TextLayout::new()
        .with_position(0, 0)
        .with_wrap(ril::WrapStyle::None)
        .with_segment(&segment);
    canvas.image.draw(&layout);
}

/// Options for pixelating text.
#[derive(Clone, Copy, Debug)]
pub struct TextPixelationOptions {
    /// Antialiased pixels with an alpha at or below this value become fully
    /// transparent; all other pixels become fully opaque.
    pub alpha_threshold: u8,
}

/// Configures one rendering of a text.
#[derive(Clone, Copy, Debug)]
pub struct TextRenderOptions {
    /// The font size, in pixels.
    pub size: u16,
    /// Colour of the text itself; its shadow is always black.
    pub color: Color,
    /// If present, undoes the antialiasing of the rasteriser.
    pub pixelation: Option<TextPixelationOptions>,
}

impl Default for TextRenderOptions {
    fn default() -> (options: Self)
        ensures
            options.size == 16,
            options.color == crate::palette::spec_yellow(),
            options.pixelation is None,
    {
        TextRenderOptions { size: 16, color: crate::palette::yellow(), pixelation: None }
    }
}

/// `c` with its alpha pushed to one of the two extremes: transparent at or
/// below `cutoff`, opaque above it.
pub open spec fn thresholded(c: Color, cutoff: u8) -> Color {
    Color { r: c.r, g: c.g, b: c.b, a: if c.a <= cutoff { 0u8 } else { 255u8 } }
}

/// `c` with the red, green and blue of `tint` and its own alpha; the fully
/// transparent black pixel stays as it is.
pub open spec fn tinted(c: Color, tint: Color) -> Color {
    if c == transparent() {
        c
    } else {
        Color { r: tint.r, g: tint.g, b: tint.b, a: c.a }
    }
}

/// The stamp a label is printed with: the rasterised text, pixelated if asked.
pub open spec fn stamp_of(layer: Seq<Seq<Color>>, pixelation: Option<TextPixelationOptions>) -> Seq<
    Seq<Color>,
> {
    match pixelation {
        Some(p) => mapped(layer, |c: Color| thresholded(c, p.alpha_threshold)),
        None => layer,
    }
}

/// A finished label: on a transparent ground of the layer's size, the stamp
/// one pixel right and down as the shadow, and over it the stamp in `color`.
pub open spec fn composed_text(
    layer: Seq<Seq<Color>>,
    color: Color,
    pixelation: Option<TextPixelationOptions>,
) -> Seq<Seq<Color>> {
    let stamp = stamp_of(layer, pixelation);
    let ground = filled(width_of(layer), height_of(layer), transparent());
    let shadowed = pasted(ground, stamp, 1, 1);
    pasted(shadowed, mapped(stamp, |c: Color| tinted(c, color)), 0, 0)
}

/// See [`thresholded`].
pub fn threshold_pixel(c: Color, cutoff: u8) -> (r: Color)
    ensures
        r == thresholded(c, cutoff),
{
    Color { r: c.r, g: c.g, b: c.b, a: if c.a <= cutoff { 0 } else { 255 } }
}

/// See [`tinted`].
pub fn tint_pixel(c: Color, tint: Color) -> (r: Color)
    ensures
        r == tinted(c, tint),
{
    if c.r == 0 && c.g == 0 && c.b == 0 && c.a == 0 {
        c
    } else {
        Color { r: tint.r, g: tint.g, b: tint.b, a: c.a }
    }
}

/// Applies an alpha threshold to a canvas in place: pixels whose alpha is at
/// or below `cutoff` become fully transparent, the others fully opaque.
pub fn alpha_threshold(image: &mut Canvas, cutoff: u8)
    ensures
        final(image)@ == mapped(old(image)@, |c: Color| thresholded(c, cutoff)),
{
    let threshold = |c: Color| -> (r: Color)
        ensures
            r == thresholded(c, cutoff),
        { threshold_pixel(c, cutoff) };
    image.map_pixels(threshold);
    assert(image@ =~~= mapped(old(image)@, |c: Color| thresholded(c, cutoff)));
}

/// Gives every pixel of a canvas but the fully transparent black ones the
/// red, green and blue of `tint`, in place. Alpha is left alone.
pub fn tint(image: &mut Canvas, tint: Color)
    ensures
        final(image)@ == mapped(old(image)@, |c: Color| tinted(c, tint)),
{
    let recolor = |c: Color| -> (r: Color)
        ensures
            r == tinted(c, tint),
        { tint_pixel(c, tint) };
    image.map_pixels(recolor);
    assert(image@ =~~= mapped(old(image)@, |c: Color| tinted(c, tint)));
}

/// Turns rasterised text into a finished label: shadow first, one pixel
/// right and down, then the text in the colour asked for.
///
/// `layer` is the text drawn in black on a transparent ground.
pub fn compose_text(layer: Canvas, options: &TextRenderOptions) -> (label: Canvas)
    requires
        width_of(layer@) < u32::MAX,
        height_of(layer@) < u32::MAX,
    ensures
        label@ == composed_text(layer@, options.color, options.pixelation),
        same_shape(label@, layer@),
{
    let mut stamp = layer;
    let (width, height) = stamp.dimensions();
    if let Some(pixelation) = options.pixelation {
        alpha_threshold(&mut stamp, pixelation.alpha_threshold);
    }
    assert(stamp@ == stamp_of(layer@, options.pixelation));
    let mut label = Canvas::new(width, height, transparent());
    label.paste(&stamp, 1, 1);
    tint(&mut stamp, options.color);
    label.paste(&stamp, 0, 0);
    label
}

/// Rasterises strings in one font.
pub struct TextRenderer {
    font: ril::Font,
}

impl TextRenderer {
    /// The bytes of the font file this renderer draws with.
    pub closed spec fn face(&self) -> Seq<u8> {
        font_face(self.font)
    }

    /// The pixel size the font was tuned for when it was loaded.
    pub closed spec fn optimal_size(&self) -> int {
        font_optimal_size(self.font)
    }

    /// Bounding box of `text` at `size` pixels: width, then height.
    pub open spec fn extent(&self, text: Seq<char>, size: u16) -> (int, int) {
        text_extent(self.face(), self.optimal_size(), text, size as int)
    }

    /// The label for `text` has a size a canvas can have.
    pub open spec fn can_render(&self, text: Seq<char>, size: u16) -> bool {
        let (w, h) = self.extent(text, size);
        &&& 0 <= w
        &&& 0 <= h
        &&& w + 2 <= u32::MAX
        &&& h + 2 <= u32::MAX
        &&& (w + 1) * (h + 1) <= u32::MAX
    }

    /// `text` in black on a transparent ground one pixel wider and higher
    /// than its bounding box.
    pub open spec fn rasterised(&self, text: Seq<char>, size: u16) -> Seq<Seq<Color>> {
        let (w, h) = self.extent(text, size);
        text_drawn(
            filled(w + 1, h + 1, transparent()),
            self.face(),
            self.optimal_size(),
            text,
            size as int,
            black(),
        )
    }

    /// The finished label for `text`.
    pub open spec fn rendered(&self, text: Seq<char>, options: TextRenderOptions) -> Seq<
        Seq<Color>,
    > {
        composed_text(self.rasterised(text, options.size), options.color, options.pixelation)
    }

    pub fn from_font(font: ril::Font) -> (renderer: Self)
        ensures
            renderer.face() == font_face(font),
            renderer.optimal_size() == font_optimal_size(font),
    {
        TextRenderer { font }
    }

    /// What loading a font amounts to: a renderer for the font, or the
    /// loader's error passed on.
    pub fn from_loaded(loaded: Result<ril::Font, ril::Error>) -> (r: Result<Self, AppError>)
        ensures
            match loaded {
                Ok(font) => r matches Ok(renderer) && renderer.face() == font_face(font)
                    && renderer.optimal_size() == font_optimal_size(font),
                Err(e) => r matches Err(AppError::RILError(cause)) && cause == e,
            },
    {
        match loaded {
            Ok(font) => Ok(TextRenderer::from_font(font)),
            Err(e) => Err(AppError::RILError(e)),
        }
    }

    /// Loads a TrueType or OpenType font from memory. `optimal_size` is the
    /// pixel size the rasteriser is tuned for, not a limit.
    ///
    /// Fails exactly when `ril` rejects the bytes, with its error.
    pub fn from_font_bytes(font_bytes: &[u8], optimal_size: u16) -> (r: Result<Self, AppError>)
        ensures
            r is Ok <==> font_parses(font_bytes@, optimal_size as int),
            r matches Ok(renderer) ==> renderer.face() == font_bytes@ && renderer.optimal_size()
                == optimal_size,
            r matches Err(e) ==> e is RILError,
    {
        TextRenderer::from_loaded(load_font(font_bytes, optimal_size))
    }

    /// Width and height of the label [`Self::render`] makes for `text`, if a
    /// canvas can have that size.
    pub fn measure(&self, text: &str, size: u16) -> (d: Option<(u32, u32)>)
        ensures
            d is Some <==> self.can_render(text@, size),
            d matches Some(d) ==> d.0 == self.extent(text@, size).0 + 1 && d.1 == self.extent(
                text@,
                size,
            ).1 + 1,
    {
        let (w, h) = measure(&self.font, text, size);
        if w >= u32::MAX - 1 || h >= u32::MAX - 1 {
            return None;
        }
        assert((w + 1) * (h + 1) <= 0xffff_ffff * 0xffff_ffff) by (nonlinear_arith)
            requires
                0 <= w < 0xffff_ffff,
                0 <= h < 0xffff_ffff,
        ;
        let area: u64 = (w as u64 + 1) * (h as u64 + 1);
        if area > u32::MAX as u64 {
            None
        } else {
            Some((w + 1, h + 1))
        }
    }

    /// Renders `text` as a label: the text in `options.color` over a black
    /// shadow one pixel to the right and down, on a transparent ground one
    /// pixel wider and higher than the bounding box of the text.
    pub fn render(&self, text: &str, options: &TextRenderOptions) -> (label: Canvas)
        requires
            self.can_render(text@, options.size),
        ensures
            label@ == self.rendered(text@, *options),
            is_grid(
                label@,
                self.extent(text@, options.size).0 + 1,
                self.extent(text@, options.size).1 + 1,
            ),
            width_of(label@) == self.extent(text@, options.size).0 + 1,
            height_of(label@) == self.extent(text@, options.size).1 + 1,
    {
        let (text_width, text_height) = measure(&self.font, text, options.size);
        // one more in each direction makes room for the shadow
        let width = text_width + 1;
        let height = text_height + 1;
        let mut layer = Canvas::new(width, height, transparent());
        draw_text(&mut layer, &self.font, text, options.size, black());
        compose_text(layer, options)
    }

    /// [`Self::render`], or nothing where the label would be too large for
    /// a canvas.
    pub fn try_render(&self, text: &str, options: &TextRenderOptions) -> (label: Option<Canvas>)
        ensures
            label is Some <==> self.can_render(text@, options.size),
            label matches Some(label) ==> label@ == self.rendered(text@, *options) && is_grid(
                label@,
                self.extent(text@, options.size).0 + 1,
                self.extent(text@, options.size).1 + 1,
            ),
    {
        match self.measure(text, options.size) {
            Some(_) => Some(self.render(text, options)),
            None => None,
        }
    }
}

} // verus!
