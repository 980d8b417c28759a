//! The pixel grid of one frame.
//!
//! A viewport is `width` by `height` pixels, neither of them zero, stored row
//! by row. Every pixel is shaded once and independently of the others. Where
//! a pixel lies on the screen is given as an exact fraction, so that the host
//! can aim a ray through its centre; the screen runs from -1 to 1 on both
//! axes.

use vstd::prelude::*;

verus! {

/// What a `Viewport` stands for: its size in pixels.
pub ghost struct Extent {
    pub width: int,
    pub height: int,
}

/// The size of a frame in pixels. Neither side is zero, so the aspect ratio
/// is a positive number.
#[derive(Clone, Copy, Debug, PartialEq, Eq, Structural)]
pub struct Viewport {
    width: u32,
    height: u32,
}

impl View for Viewport {
    type V = Extent;

    closed spec fn view(&self) -> Extent {
        Extent { width: self.width as int, height: self.height as int }
    }
}

/// Where pixel `(x, y)` is stored in a frame of the given width.
pub open spec fn pixel_index(x: int, y: int, width: int) -> int {
    y * width + x
}

/// Numerator of the screen coordinate of a pixel centre, over the
/// denominator `extent`: the axis runs from -1 at the outer edge of pixel 0
/// to 1 at the outer edge of pixel `extent - 1`, and pixel `index` spans
/// the `index`-th of `extent` equal parts of it.
pub open spec fn centre_numerator(index: int, extent: int) -> int {
    2 * index + 1 - extent
}

impl Viewport {
    #[verifier::type_invariant]
    spec fn not_empty(self) -> bool {
        self.width >= 1 && self.height >= 1
    }

    /// A viewport of the given size; `None` for one without pixels, which
    /// has no aspect ratio and is not rendered.
    pub fn new(width: u32, height: u32) -> (viewport: Option<Self>)
        ensures
            viewport is Some <==> width >= 1 && height >= 1,
            viewport matches Some(v) ==> v@ == (Extent {
                width: width as int,
                height: height as int,
            }),
    {
        if width >= 1 && height >= 1 {
            Some(Viewport { width, height })
        } else {
            None
        }
    }

    /// Pixels in a row.
    pub fn width(&self) -> (w: u32)
        ensures
            w == self@.width,
            w >= 1,
    {
        proof {
            use_type_invariant(self);
        }
        self.width
    }

    /// Rows.
    pub fn height(&self) -> (h: u32)
        ensures
            h == self@.height,
            h >= 1,
    {
        proof {
            use_type_invariant(self);
        }
        self.height
    }

    /// The screen coordinates of the centre of pixel `(x, y)`, as the
    /// numerators of two fractions: the first over the width, the second
    /// over the height. Both fractions lie strictly between -1 and 1.
    pub fn centre(&self, x: u32, y: u32) -> (numerators: (i64, i64))
        requires
            x < self@.width,
            y < self@.height,
        ensures
            numerators.0 == centre_numerator(x as int, self@.width),
            numerators.1 == centre_numerator(y as int, self@.height),
            -self@.width < numerators.0 < self@.width,
            -self@.height < numerators.1 < self@.height,
    {
        (
            2 * (x as i64) + 1 - (self.width as i64),
            2 * (y as i64) + 1 - (self.height as i64),
        )
    }

    /// The pixel in the middle of the viewport; where a side has an even
    /// number of pixels, the one just past the middle. Its centre is the
    /// middle of the screen wherever a side has an odd number of pixels.
    pub fn middle(&self) -> (pixel: (u32, u32))
        ensures
            pixel.0 == self@.width / 2,
            pixel.1 == self@.height / 2,
            pixel.0 < self@.width,
            pixel.1 < self@.height,
            centre_numerator(pixel.0 as int, self@.width) == (self@.width + 1) % 2,
            centre_numerator(pixel.1 as int, self@.height) == (self@.height + 1) % 2,
    {
        proof {
            use_type_invariant(self);
        }
        (self.width / 2, self.height / 2)
    }

    /// Shades a frame: calls `shade` once for each pixel, row by row, and
    /// returns what it gave, stored row by row.
    pub fn render<T, P: Fn(u32, u32) -> T>(&self, shade: P) -> (frame: Vec<T>)
        requires
            forall|x: u32, y: u32|
                x < self@.width && y < self@.height ==> call_requires(shade, (x, y)),
        ensures
            frame.len() == self@.width * self@.height,
            forall|x: u32, y: u32|
                x < self@.width && y < self@.height ==> call_ensures(
                    shade,
                    (x, y),
                    #[trigger] frame[pixel_index(x as int, y as int, self@.width)],
                ),
    {
        let width: u32 = self.width;
        let height: u32 = self.height;
        let mut frame: Vec<T> = Vec::new();
        let mut y: u32 = 0;
        while y < height
            invariant
                y <= height,
                frame.len() == y * width,
                forall|x: u32, y: u32| x < width && y < height ==> call_requires(shade, (x, y)),
                forall|px: u32, py: u32|
                    px < width && py < y ==> call_ensures(
                        shade,
                        (px, py),
                        #[trigger] frame[pixel_index(px as int, py as int, width as int)],
                    ),
            decreases height - y,
        {
            let mut x: u32 = 0;
            while x < width
                invariant
                    y < height,
                    x <= width,
                    frame.len() == y * width + x,
                    forall|x: u32, y: u32| x < width && y < height ==> call_requires(shade, (x, y)),
                    forall|px: u32, py: u32|
                        px < width && (py < y || (py == y && px < x)) ==> call_ensures(
                            shade,
                            (px, py),
                            #[trigger] frame[pixel_index(px as int, py as int, width as int)],
                        ),
                decreases width - x,
            {
                let colour = shade(x, y);
                let ghost before = frame@;
                frame.push(colour);
                proof {
                    assert forall|px: u32, py: u32|
                        px < width && (py < y || (py == y && px < x + 1)) implies call_ensures(
                        shade,
                        (px, py),
                        #[trigger] frame[pixel_index(px as int, py as int, width as int)],
                    ) by {
                        // The new pixel went to the end of the frame; the
                        // earlier ones lie before it and kept their places.
                        let at = pixel_index(px as int, py as int, width as int);
                        lemma_pixel_order(px as int, py as int, x as int, y as int, width as int);
                        if py == y && px == x {
                            assert(at == before.len());
                        } else {
                            assert(frame[at] == before[at]);
                        }
                    }
                }
                x = x + 1;
            }
            proof {
                assert((y + 1) * width == y * width + width) by (nonlinear_arith);
            }
            y = y + 1;
        }
        proof {
            assert(height * width == width * height) by (nonlinear_arith);
        }
        frame
    }
}

/// Pixels are stored in reading order: one that comes earlier in its row, or
/// in an earlier row, has the lower index, and no two share an index.
pub proof fn lemma_pixel_order(x1: int, y1: int, x2: int, y2: int, width: int)
    requires
        0 <= x1 < width,
        0 <= x2 < width,
        0 <= y1,
        0 <= y2,
    ensures
        0 <= pixel_index(x1, y1, width),
        y1 < y2 || (y1 == y2 && x1 < x2) <==> pixel_index(x1, y1, width) < pixel_index(
            x2,
            y2,
            width,
        ),
        pixel_index(x1, y1, width) == pixel_index(x2, y2, width) <==> x1 == x2 && y1 == y2,
{
    assert(0 <= y1 * width) by (nonlinear_arith)
        requires
            0 <= y1,
            0 <= width,
    ;
    if y1 < y2 {
        assert(y1 * width + width <= y2 * width) by (nonlinear_arith)
            requires
                y1 + 1 <= y2,
                0 <= width,
        ;
    }
    if y2 < y1 {
        assert(y2 * width + width <= y1 * width) by (nonlinear_arith)
            requires
                y2 + 1 <= y1,
                0 <= width,
        ;
    }
}

/// Every pixel of a frame has its place within the frame.
pub proof fn lemma_pixel_in_frame(x: int, y: int, width: int, height: int)
    requires
        0 <= x < width,
        0 <= y < height,
    ensures
        0 <= pixel_index(x, y, width) < width * height,
{
    assert(y * width + width <= height * width) by (nonlinear_arith)
        requires
            y + 1 <= height,
            0 <= width,
    ;
    assert(0 <= y * width) by (nonlinear_arith)
        requires
            0 <= y,
            0 <= width,
    ;
}

/// Every place within a frame belongs to a pixel: place `index` holds the
/// pixel in column `index % width` of row `index / width`. With
/// `lemma_pixel_order`, pixels and places correspond one to one.
pub proof fn lemma_place_is_pixel(index: int, width: int, height: int)
    requires
        0 < width,
        0 <= index < width * height,
    ensures
        0 <= index % width < width,
        0 <= index / width < height,
        pixel_index(index % width, index / width, width) == index,
{
    vstd::arithmetic::div_mod::lemma_fundamental_div_mod(index, width);
    vstd::arithmetic::div_mod::lemma_multiply_divide_lt(index, width, height);
    assert(width * (index / width) == (index / width) * width) by (nonlinear_arith);
}

/// Pixel centres are mirror images about the middle of the axis, two
/// numerator steps apart, and strictly inside the screen.
pub proof fn lemma_centres_are_symmetric(index: int, extent: int)
    requires
        0 <= index < extent,
    ensures
        centre_numerator(extent - 1 - index, extent) == -centre_numerator(index, extent),
        centre_numerator(index + 1, extent) == centre_numerator(index, extent) + 2,
        -extent < centre_numerator(index, extent) < extent,
{
}

} // verus!
