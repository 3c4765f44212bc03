//! Texture images and nearest-pixel sampling.
//!
//! A decoded texture is a row-major grid of RGBA pixels.  Sampling takes a
//! pair of unit-interval texture coordinates, scales them by the image
//! dimensions, truncates, and reads the addressed pixel.  A coordinate
//! outside the unit interval, or any lookup against an empty image, is
//! answered with `None` rather than a wrapped or clamped read; the far edge
//! of the unit interval is clamped to the last pixel.

use crate::scalar::{in_unit, spec_pixel, Scalar, ScalarView};
use vstd::arithmetic::mul::lemma_mul_inequality;
use vstd::prelude::*;

verus! {

/// One RGBA pixel, four bytes.
#[derive(Debug, Clone, Copy, PartialEq, Eq, Structural)]
pub struct Rgba {
    pub r: u8,
    pub g: u8,
    pub b: u8,
    pub a: u8,
}

/// The view of an image: its dimensions and its pixel grid in row-major
/// order.
pub ghost struct ImageView {
    pub width: nat,
    pub height: nat,
    pub pixels: Seq<Rgba>,
}

/// A well-formed image holds exactly one pixel per grid cell.
pub open spec fn image_wf(v: ImageView) -> bool {
    v.pixels.len() == v.width * v.height
}

/// What sampling answers: `None` outside the unit square or against an
/// image with no pixels, otherwise the pixel whose row and column the two
/// coordinates select.
pub open spec fn spec_sample(img: ImageView, u: ScalarView, v: ScalarView) -> Option<Rgba> {
    if img.width == 0 || img.height == 0 || !in_unit(u) || !in_unit(v) {
        None
    } else {
        let px: int = spec_pixel(u, img.width as int);
        let py: int = spec_pixel(v, img.height as int);
        Some(img.pixels[py * img.width + px])
    }
}

/// Sampling is deterministic: equal images and equal coordinate pairs
/// always answer with the same colour.
pub proof fn lemma_sample_deterministic(
    img1: ImageView,
    img2: ImageView,
    u1: ScalarView,
    u2: ScalarView,
    v1: ScalarView,
    v2: ScalarView,
)
    requires
        img1 == img2,
        u1 == u2,
        v1 == v2,
    ensures
        spec_sample(img1, u1, v1) == spec_sample(img2, u2, v2),
{
}

/// An image with no pixels — the 0x0 image that is current before any
/// material is loaded among them — refuses every sample, whatever the
/// coordinates.
pub proof fn lemma_empty_image_refuses_samples(img: ImageView, u: ScalarView, v: ScalarView)
    requires
        img.width == 0 || img.height == 0,
    ensures
        spec_sample(img, u, v) is None,
{
}

/// A decoded texture image.
#[derive(Debug)]
pub struct Image {
    width: u32,
    height: u32,
    pixels: Vec<Rgba>,
}

impl View for Image {
    type V = ImageView;

    closed spec fn view(&self) -> ImageView {
        ImageView {
            width: self.width as nat,
            height: self.height as nat,
            pixels: self.pixels@,
        }
    }
}

impl Image {
    #[verifier::type_invariant]
    closed spec fn inv(self) -> bool {
        image_wf(self@)
    }

    /// The 0x0 image that is current before any material is loaded.
    /// Every sample against it is out of range.
    pub fn empty() -> (r: Image)
        ensures
            r@.width == 0,
            r@.height == 0,
            r@.pixels == Seq::<Rgba>::empty(),
    {
        Image { width: 0, height: 0, pixels: Vec::new() }
    }

    /// Wrap a decoded pixel grid.  Refused unless the grid holds exactly
    /// `width * height` pixels.
    pub fn new(width: u32, height: u32, pixels: Vec<Rgba>) -> (r: Option<Image>)
        ensures
            match r {
                Some(img) => img@ == (ImageView {
                    width: width as nat,
                    height: height as nat,
                    pixels: pixels@,
                }),
                None => pixels@.len() != width * height,
            },
    {
        proof {
            assert((width as int) * (height as int) <= 0xffff_ffff * 0xffff_ffff)
                by (nonlinear_arith)
                requires
                    width <= 0xffff_ffffu32,
                    height <= 0xffff_ffffu32,
            ;
        }
        if pixels.len() as u64 == (width as u64) * (height as u64) {
            Some(Image { width, height, pixels })
        } else {
            None
        }
    }

    /// The image width in pixels.
    pub fn width(&self) -> (r: u32)
        ensures
            r == self@.width,
    {
        self.width
    }

    /// The image height in pixels.
    pub fn height(&self) -> (r: u32)
        ensures
            r == self@.height,
    {
        self.height
    }

    /// Nearest-pixel sampling of the coordinate pair `(u, v)`.
    pub fn sample(&self, u: &Scalar, v: &Scalar) -> (r: Option<Rgba>)
        ensures
            r == spec_sample(self@, u@, v@),
    {
        proof {
            use_type_invariant(self);
        }
        if self.width == 0 || self.height == 0 {
            return None;
        }
        if !u.in_unit_range() || !v.in_unit_range() {
            return None;
        }
        let px: u32 = u.pixel_index(self.width);
        let py: u32 = v.pixel_index(self.height);
        let ghost w: int = self@.width as int;
        let ghost h: int = self@.height as int;
        proof {
            assert(py * w + px < w * h && w * h <= 0xffff_ffff * 0xffff_ffff)
                by (nonlinear_arith)
                requires
                    py <= h - 1,
                    px <= w - 1,
                    1 <= w <= 0xffff_ffff,
                    1 <= h <= 0xffff_ffff,
            ;
            assert((py as int) * self@.width + (px as int) < self@.pixels.len());
        }
        let idx: u64 = (py as u64) * (self.width as u64) + (px as u64);
        let n: usize = self.pixels.len();
        proof {
            assert(idx < n as u64);
        }
        Some(self.pixels[idx as usize])
    }
}

} // verus!
