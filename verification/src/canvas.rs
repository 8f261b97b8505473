//! The canvas: an RGBA pixel buffer backed by a `ril` image, seen in contracts
//! as a grid of colours, and the `ril` operations the renderer draws with.
//!
//! The drawing operations of this module are thin calls into `ril`. Their
//! contracts are not proved here; each says what the `ril` source does.

use vstd::prelude::*;
use crate::palette::Color;

verus! {

/// A pixel buffer of at least one pixel.
///
/// Holds a `ril::Image<ril::Rgba>`. In contracts a canvas is its [`View`]: the
/// rows of the image from the top, each row from the left.
#[verifier::external_body]
pub struct Canvas {
    pub(crate) image: ril::Image<ril::Rgba>,
}

/// The pixels an image holds, row by row from the top, each row from the left.
pub uninterp spec fn pixel_rows(canvas: Canvas) -> Seq<Seq<Color>>;

/// What `ril`'s `Rgba::merge` gives for a pixel `over` blended onto `base`
/// (alpha-over compositing, computed by `ril` in floating point).
pub uninterp spec fn merged(base: Color, over: Color) -> Color;

/// The rows `ril` produces when it resamples `rows` to `width` by `height`
/// with its bicubic filter.
pub uninterp spec fn resampled(rows: Seq<Seq<Color>>, width: int, height: int) -> Seq<Seq<Color>>;

impl View for Canvas {
    type V = Seq<Seq<Color>>;

    open spec fn view(&self) -> Seq<Seq<Color>> {
        pixel_rows(*self)
    }
}

/// `rows` is a grid of `height` rows, each `width` long.
pub open spec fn is_grid(rows: Seq<Seq<Color>>, width: int, height: int) -> bool {
    &&& rows.len() == height
    &&& forall|y: int| 0 <= y < height ==> (#[trigger] rows[y]).len() == width
}

/// Number of columns of a grid (0 for the empty grid).
pub open spec fn width_of(rows: Seq<Seq<Color>>) -> int {
    if rows.len() > 0 {
        rows[0].len() as int
    } else {
        0
    }
}

/// Number of rows of a grid.
pub open spec fn height_of(rows: Seq<Seq<Color>>) -> int {
    rows.len() as int
}

/// Two grids have the same number of rows, and row by row the same length.
pub open spec fn same_shape(a: Seq<Seq<Color>>, b: Seq<Seq<Color>>) -> bool {
    &&& a.len() == b.len()
    &&& forall|y: int| 0 <= y < a.len() ==> (#[trigger] a[y]).len() == b[y].len()
}

/// A grid holds a pixel at column `x`, row `y`.
pub open spec fn holds(rows: Seq<Seq<Color>>, x: int, y: int) -> bool {
    0 <= y < rows.len() && 0 <= x < rows[y].len()
}

/// A `width` by `height` grid of one colour.
pub open spec fn filled(width: int, height: int, fill: Color) -> Seq<Seq<Color>> {
    Seq::new(height as nat, |y: int| Seq::new(width as nat, |x: int| fill))
}

/// `rows` with `f` applied to every pixel.
pub open spec fn mapped(rows: Seq<Seq<Color>>, f: spec_fn(Color) -> Color) -> Seq<Seq<Color>> {
    Seq::new(rows.len(), |y: int| Seq::new(rows[y].len(), |x: int| f(rows[y][x])))
}

/// `base` with `top` blended onto it, the top-left corner of `top` at column
/// `x0`, row `y0`. Pixels of `top` that fall outside `base` are dropped.
pub open spec fn pasted(base: Seq<Seq<Color>>, top: Seq<Seq<Color>>, x0: int, y0: int) -> Seq<
    Seq<Color>,
> {
    Seq::new(
        base.len(),
        |y: int|
            Seq::new(
                base[y].len(),
                |x: int|
                    if holds(top, x - x0, y - y0) {
                        merged(base[y][x], top[y - y0][x - x0])
                    } else {
                        base[y][x]
                    },
            ),
    )
}

/// `image` shows every opaque pixel of `top` that lies within it when `top`
/// is placed with its top-left corner at `(x0, y0)`.
pub open spec fn shows_opaque(
    image: Seq<Seq<Color>>,
    top: Seq<Seq<Color>>,
    x0: int,
    y0: int,
) -> bool {
    forall|i: int, j: int|
        holds(top, i, j) && holds(image, x0 + i, y0 + j) && (#[trigger] top[j][i]).a == 255
            ==> image[y0 + j][x0 + i] == top[j][i]
}

/// A grid placed with its top-left corner at `(x0, y0)` covers column `x`,
/// row `y`.
pub open spec fn covers(rows: Seq<Seq<Color>>, x0: int, y0: int, x: int, y: int) -> bool {
    holds(rows, x - x0, y - y0)
}

/// The rectangles that two grids cover when placed at `(ax, ay)` and at
/// `(bx, by)` have no pixel in common.
pub open spec fn apart(
    a: Seq<Seq<Color>>,
    ax: int,
    ay: int,
    b: Seq<Seq<Color>>,
    bx: int,
    by: int,
) -> bool {
    forall|x: int, y: int| !(#[trigger] covers(a, ax, ay, x, y) && covers(b, bx, by, x, y))
}

/// Blending two grids onto a base gives the same picture in either order,
/// as long as the two do not overlap.
pub proof fn lemma_pastes_apart_commute(
    base: Seq<Seq<Color>>,
    a: Seq<Seq<Color>>,
    ax: int,
    ay: int,
    b: Seq<Seq<Color>>,
    bx: int,
    by: int,
)
    requires
        apart(a, ax, ay, b, bx, by),
    ensures
        pasted(pasted(base, a, ax, ay), b, bx, by) == pasted(pasted(base, b, bx, by), a, ax, ay),
{
    let first = pasted(pasted(base, a, ax, ay), b, bx, by);
    let second = pasted(pasted(base, b, bx, by), a, ax, ay);
    assert forall|y: int| 0 <= y < base.len() implies #[trigger] first[y] =~= second[y] by {
        assert forall|x: int| 0 <= x < base[y].len() implies first[y][x] == second[y][x] by {
            assert(!(covers(a, ax, ay, x, y) && covers(b, bx, by, x, y)));
        }
    }
    assert(first =~= second);
}

/// Column `x`, row `y` lies on the border of thickness `t` drawn just inside
/// the rectangle from `(x1, y1)` to `(x2, y2)` (right and bottom exclusive).
pub open spec fn on_inset_border(
    x: int,
    y: int,
    x1: int,
    y1: int,
    x2: int,
    y2: int,
    t: int,
) -> bool {
    &&& x1 <= x < x2
    &&& y1 <= y < y2
    &&& (x < x1 + t || x >= x2 - t || y < y1 + t || y >= y2 - t)
}

/// `base` with an inset border of colour `color` and thickness `t` painted
/// over it along the four edges of the rectangle from `(x1, y1)` to `(x2, y2)`.
pub open spec fn bordered(
    base: Seq<Seq<Color>>,
    x1: int,
    y1: int,
    x2: int,
    y2: int,
    t: int,
    color: Color,
) -> Seq<Seq<Color>> {
    Seq::new(
        base.len(),
        |y: int|
            Seq::new(
                base[y].len(),
                |x: int|
                    if on_inset_border(x, y, x1, y1, x2, y2, t) {
                        color
                    } else {
                        base[y][x]
                    },
            ),
    )
}

impl Canvas {
    /// Wraps `ril::Image::new`: an image of `width` by `height` pixels, all
    /// of them `fill`. `ril` panics on a zero side and multiplies the sides
    /// in `u32`.
    #[verifier::external_body]
    fn blank(width: u32, height: u32, fill: Color) -> (canvas: Canvas)
        requires
            width >= 1,
            height >= 1,
            width * height <= u32::MAX,
        ensures
            pixel_rows(canvas) == filled(width as int, height as int, fill),
    {
        let fill = ril::Rgba { r: fill.r, g: fill.g, b: fill.b, a: fill.a };
        Canvas { image: ril::Image::new(width, height, fill) }
    }

    /// Wraps `ril::Image::from_fn`: an image of `width` by `height` pixels,
    /// the pixel at column `x`, row `y` being what `f` makes of `(x, y)`.
    /// As `ril::Image::new`, it panics on a zero side and multiplies the
    /// sides in `u32`.
    #[verifier::external_body]
    fn generate<F: Fn(u32, u32) -> Color>(width: u32, height: u32, f: F) -> (canvas: Canvas)
        requires
            width >= 1,
            height >= 1,
            width * height <= u32::MAX,
            forall|x: u32, y: u32| x < width && y < height ==> #[trigger] f.requires((x, y)),
        ensures
            is_grid(pixel_rows(canvas), width as int, height as int),
            forall|x: u32, y: u32|
                x < width && y < height ==> f.ensures(
                    (x, y),
                    #[trigger] pixel_rows(canvas)[y as int][x as int],
                ),
    {
        Canvas {
            image: ril::Image::from_fn(
                width,
                height,
                |x, y|
                    {
                        let c = f(x, y);
                        ril::Rgba { r: c.r, g: c.g, b: c.b, a: c.a }
                    },
            ),
        }
    }

    /// Wraps `ril::Image::dimensions`. A `ril` image holds `height` rows of
    /// `width` pixels; both sides are non-zero and their product fits `u32`.
    #[verifier::external_body]
    fn size(&self) -> (d: (u32, u32))
        ensures
            is_grid(pixel_rows(*self), d.0 as int, d.1 as int),
            d.0 >= 1,
            d.1 >= 1,
            d.0 * d.1 <= u32::MAX,
    {
        self.image.dimensions()
    }

    /// Wraps `Clone::clone` of `ril::Image`: a canvas with the same pixels.
    #[verifier::external_body]
    fn copy(&self) -> (canvas: Canvas)
        ensures
            pixel_rows(canvas) == pixel_rows(*self),
    {
        Canvas { image: self.image.clone() }
    }

    /// Wraps `ril::Image::pixel`: the pixel at column `x`, row `y`. `ril`
    /// panics outside the image.
    #[verifier::external_body]
    fn get(&self, x: u32, y: u32) -> (c: Color)
        requires
            holds(pixel_rows(*self), x as int, y as int),
        ensures
            c == pixel_rows(*self)[y as int][x as int],
    {
        let p = self.image.pixel(x, y);
        Color { r: p.r, g: p.g, b: p.b, a: p.a }
    }

    /// Wraps `ril::Image::set_pixel`: replaces the pixel at column `x`, row
    /// `y`. `ril` panics outside the image.
    #[verifier::external_body]
    fn put(&mut self, x: u32, y: u32, c: Color)
        requires
            holds(pixel_rows(*old(self)), x as int, y as int),
        ensures
            pixel_rows(*final(self)) == pixel_rows(*old(self)).update(
                y as int,
                pixel_rows(*old(self))[y as int].update(x as int, c),
            ),
    {
        self.image.set_pixel(x, y, ril::Rgba { r: c.r, g: c.g, b: c.b, a: c.a });
    }

    /// Wraps `ril::Paste` drawn in `OverlayMode::Merge` without a mask. The
    /// shape of the image stays; every pixel of `top` that lands inside it
    /// is merged (`Rgba::merge`) onto the pixel below, the others are
    /// skipped. `Rgba::merge` gives the upper pixel where that is opaque
    /// and the lower one where the upper is fully transparent. `ril` adds
    /// position and size of `top` in `u32`.
    #[verifier::external_body]
    fn merge_onto(&mut self, top: &Canvas, x0: u32, y0: u32)
        requires
            x0 + width_of(pixel_rows(*top)) <= u32::MAX,
            y0 + height_of(pixel_rows(*top)) <= u32::MAX,
        ensures
            same_shape(pixel_rows(*final(self)), pixel_rows(*old(self))),
            forall|x: int, y: int|
                holds(pixel_rows(*old(self)), x, y) ==> #[trigger] pixel_rows(*final(self))[y][x]
                    == if holds(pixel_rows(*top), x - x0, y - y0) {
                    merged(pixel_rows(*old(self))[y][x], pixel_rows(*top)[y - y0][x - x0])
                } else {
                    pixel_rows(*old(self))[y][x]
                },
            forall|x: int, y: int|
                holds(pixel_rows(*old(self)), x, y) && holds(pixel_rows(*top), x - x0, y - y0)
                    && pixel_rows(*top)[y - y0][x - x0].a == 255 ==> #[trigger] pixel_rows(
                    *final(self),
                )[y][x] == pixel_rows(*top)[y - y0][x - x0],
            forall|x: int, y: int|
                holds(pixel_rows(*old(self)), x, y) && holds(pixel_rows(*top), x - x0, y - y0)
                    && pixel_rows(*top)[y - y0][x - x0].a == 0 ==> #[trigger] pixel_rows(
                    *final(self),
                )[y][x] == pixel_rows(*old(self))[y][x],
    {
        self.image.draw(
            &ril::Paste {
                position: (x0, y0),
                image: &top.image,
                mask: None,
                overlay: Some(ril::OverlayMode::Merge),
            },
        );
    }

    /// Wraps `ril::Rectangle` with an inset `ril::Border` and no fill, drawn
    /// in `OverlayMode::Replace`: the border colour replaces every pixel of
    /// the image that lies within `thickness` of an edge of the rectangle,
    /// inside it. `ril` panics on a zero thickness and on an empty
    /// rectangle, and subtracts the thickness from the far edges in `u32`.
    #[verifier::external_body]
    fn stroke_inset(&mut self, x1: u32, y1: u32, x2: u32, y2: u32, thickness: u32, color: Color)
        requires
            thickness >= 1,
            x1 + thickness <= x2,
            y1 + thickness <= y2,
        ensures
            same_shape(pixel_rows(*final(self)), pixel_rows(*old(self))),
            forall|x: int, y: int|
                holds(pixel_rows(*old(self)), x, y) ==> #[trigger] pixel_rows(*final(self))[y][x]
                    == if on_inset_border(
                    x,
                    y,
                    x1 as int,
                    y1 as int,
                    x2 as int,
                    y2 as int,
                    thickness as int,
                ) {
                    color
                } else {
                    pixel_rows(*old(self))[y][x]
                },
    {
        let color = ril::Rgba { r: color.r, g: color.g, b: color.b, a: color.a };
        let border = ril::Border::new(color, thickness).with_position(ril::BorderPosition::Inset);
        self.image.draw(
            &ril::Rectangle::<ril::Rgba>::from_bounding_box(x1, y1, x2, y2)
                .with_border(border)
                .with_overlay_mode(ril::OverlayMode::Replace),
        );
    }

    /// Wraps `ril::Image::map_in_place`: every pixel is replaced by what `f`
    /// makes of it; the shape of the image stays.
    #[verifier::external_body]
    fn map_in_place<F: Fn(Color) -> Color>(&mut self, f: F)
        requires
            forall|c: Color| #[trigger] f.requires((c,)),
        ensures
            same_shape(pixel_rows(*final(self)), pixel_rows(*old(self))),
            forall|x: int, y: int|
                holds(pixel_rows(*old(self)), x, y) ==> f.ensures(
                    (pixel_rows(*old(self))[y][x],),
                    #[trigger] pixel_rows(*final(self))[y][x],
                ),
    {
        self.image.map_in_place(
            |_, _, p|
                {
                    let c = f(Color { r: p.r, g: p.g, b: p.b, a: p.a });
                    *p = ril::Rgba { r: c.r, g: c.g, b: c.b, a: c.a };
                },
        );
    }

    /// Wraps `ril::Image::resize` with `ResizeAlgorithm::Bicubic`: the image
    /// becomes `width` by `height`, its pixels resampled from the old ones.
    /// `ril` panics on a zero side.
    #[verifier::external_body]
    fn resample(&mut self, width: u32, height: u32)
        requires
            width >= 1,
            height >= 1,
            width * height <= u32::MAX,
        ensures
            pixel_rows(*final(self)) == resampled(
                pixel_rows(*old(self)),
                width as int,
                height as int,
            ),
            is_grid(pixel_rows(*final(self)), width as int, height as int),
    {
        self.image.resize(width, height, ril::ResizeAlgorithm::Bicubic);
    }

    /// A canvas of `width` by `height` pixels, all of them `fill`.
    pub fn new(width: u32, height: u32, fill: Color) -> (canvas: Canvas)
        requires
            width >= 1,
            height >= 1,
            width * height <= u32::MAX,
        ensures
            canvas@ == filled(width as int, height as int, fill),
    {
        Canvas::blank(width, height, fill)
    }

    /// A canvas of `width` by `height` pixels, the pixel at column `x`, row
    /// `y` being what `f` makes of `(x, y)`.
    pub fn from_fn<F: Fn(u32, u32) -> Color>(width: u32, height: u32, f: F) -> (canvas: Canvas)
        requires
            width >= 1,
            height >= 1,
            width * height <= u32::MAX,
            forall|x: u32, y: u32| x < width && y < height ==> #[trigger] f.requires((x, y)),
        ensures
            is_grid(canvas@, width as int, height as int),
            forall|x: u32, y: u32|
                x < width && y < height ==> f.ensures(
                    (x, y),
                    #[trigger] canvas@[y as int][x as int],
                ),
    {
        Canvas::generate(width, height, f)
    }

    /// Width and height in pixels.
    pub fn dimensions(&self) -> (d: (u32, u32))
        ensures
            is_grid(self@, d.0 as int, d.1 as int),
            d.0 == width_of(self@),
            d.1 == height_of(self@),
            d.0 >= 1,
            d.1 >= 1,
            d.0 * d.1 <= u32::MAX,
    {
        self.size()
    }

    /// Width in pixels.
    pub fn width(&self) -> (w: u32)
        ensures
            w == width_of(self@),
            w >= 1,
    {
        self.size().0
    }

    /// Height in pixels.
    pub fn height(&self) -> (h: u32)
        ensures
            h == height_of(self@),
            h >= 1,
    {
        self.size().1
    }

    /// The pixel at column `x`, row `y`, if the canvas has one there.
    pub fn get_pixel(&self, x: u32, y: u32) -> (p: Option<Color>)
        ensures
            p == if holds(self@, x as int, y as int) {
                Some(self@[y as int][x as int])
            } else {
                None
            },
    {
        let (w, h) = self.size();
        if x < w && y < h {
            Some(self.get(x, y))
        } else {
            None
        }
    }

    /// Replaces the pixel at column `x`, row `y`.
    pub fn set_pixel(&mut self, x: u32, y: u32, c: Color)
        requires
            holds(old(self)@, x as int, y as int),
        ensures
            final(self)@ == old(self)@.update(y as int, old(self)@[y as int].update(x as int, c)),
    {
        self.put(x, y, c)
    }

    /// Blends `top` onto this canvas with its top-left corner at `(x, y)`.
    /// What falls outside the canvas is clipped. Opaque pixels of `top`
    /// replace what they cover, fully transparent ones leave it as it is.
    pub fn paste(&mut self, top: &Canvas, x: u32, y: u32)
        requires
            x + width_of(top@) <= u32::MAX,
            y + height_of(top@) <= u32::MAX,
        ensures
            final(self)@ == pasted(old(self)@, top@, x as int, y as int),
            same_shape(final(self)@, old(self)@),
            shows_opaque(final(self)@, top@, x as int, y as int),
            forall|i: int, j: int|
                holds(old(self)@, i, j) && holds(top@, i - x, j - y) && top@[j - y][i - x].a == 0
                    ==> #[trigger] final(self)@[j][i] == old(self)@[j][i],
    {
        self.merge_onto(top, x, y);
        assert(self@ =~~= pasted(old(self)@, top@, x as int, y as int));
        assert forall|i: int, j: int|
            holds(top@, i, j) && holds(self@, x + i, y + j) && (#[trigger] top@[j][i]).a
                == 255 implies self@[y + j][x + i] == top@[j][i] by {
            assert(holds(old(self)@, x + i, y + j));
            assert(holds(top@, (x + i) - x, (y + j) - y));
        }
    }

    /// Paints a border of `thickness` pixels along the four edges of the
    /// rectangle from `(x1, y1)` to `(x2, y2)`, inside the rectangle. A
    /// thickness of zero paints nothing.
    pub fn draw_border(&mut self, x1: u32, y1: u32, x2: u32, y2: u32, thickness: u32, color: Color)
        requires
            x1 + thickness <= x2,
            y1 + thickness <= y2,
        ensures
            final(self)@ == bordered(
                old(self)@,
                x1 as int,
                y1 as int,
                x2 as int,
                y2 as int,
                thickness as int,
                color,
            ),
    {
        if thickness > 0 {
            self.stroke_inset(x1, y1, x2, y2, thickness, color);
        }
        assert(self@ =~~= bordered(
            old(self)@,
            x1 as int,
            y1 as int,
            x2 as int,
            y2 as int,
            thickness as int,
            color,
        ));
    }

    /// Applies `f` to every pixel in place.
    pub fn map_pixels<F: Fn(Color) -> Color>(&mut self, f: F)
        requires
            forall|c: Color| #[trigger] f.requires((c,)),
        ensures
            same_shape(final(self)@, old(self)@),
            forall|x: int, y: int|
                holds(old(self)@, x, y) ==> f.ensures(
                    (old(self)@[y][x],),
                    #[trigger] final(self)@[y][x],
                ),
    {
        self.map_in_place(f)
    }

    /// Resamples the canvas to `width` by `height` pixels.
    pub fn resize(&mut self, width: u32, height: u32)
        requires
            width >= 1,
            height >= 1,
            width * height <= u32::MAX,
        ensures
            final(self)@ == resampled(old(self)@, width as int, height as int),
            is_grid(final(self)@, width as int, height as int),
    {
        self.resample(width, height)
    }
}

impl Clone for Canvas {
    fn clone(&self) -> (canvas: Canvas)
        ensures
            canvas@ == self@,
    {
        self.copy()
    }
}

} // verus!
