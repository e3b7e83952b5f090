//! The pixel buffer that is encoded into an icon set and decoded out of one.

use vstd::prelude::*;

verus! {

/// What a [`RasterImage`] holds, as plain values: the dimensions in pixels and
/// the samples, row by row, four bytes (red, green, blue, alpha) per pixel.
pub struct Raster {
    pub width: u32,
    pub height: u32,
    pub pixels: Seq<u8>,
}

impl Raster {
    /// The buffer holds exactly four bytes for each pixel.
    pub open spec fn wf(self) -> bool {
        self.pixels.len() == 4 * self.width * self.height
    }
}

/// An RGBA image with 8 bits per channel. A value always holds exactly
/// `4 * width * height` bytes.
#[derive(Debug)]
pub struct RasterImage {
    pub(crate) width: u32,
    pub(crate) height: u32,
    pub(crate) pixels: Vec<u8>,
}

impl View for RasterImage {
    type V = Raster;

    closed spec fn view(&self) -> Raster {
        Raster { width: self.width, height: self.height, pixels: self.pixels@ }
    }
}

impl RasterImage {
    #[verifier::type_invariant]
    spec fn well_formed(self) -> bool {
        self.pixels@.len() == 4 * self.width * self.height
    }

    /// Makes an image of `width` by `height` pixels out of its samples. Gives
    /// `None` exactly when `pixels` is not `4 * width * height` bytes long.
    pub fn new(width: u32, height: u32, pixels: Vec<u8>) -> (made: Option<RasterImage>)
        ensures
            pixels@.len() == 4 * width * height <==> made is Some,
            made is Some ==> made->Some_0@ == (Raster { width, height, pixels: pixels@ }),
    {
        assert(0 <= width * height <= 0xffff_ffff * 0xffff_ffff) by (nonlinear_arith)
            requires
                0 <= width <= 0xffff_ffff,
                0 <= height <= 0xffff_ffff,
        ;
        assert(4 * (width * height) == 4 * width * height) by (nonlinear_arith);
        let wanted: u128 = 4u128 * (width as u128 * height as u128);
        if pixels.len() as u128 == wanted {
            Some(RasterImage { width, height, pixels })
        } else {
            None
        }
    }

    /// Width in pixels.
    pub fn width(&self) -> (w: u32)
        ensures
            w == self@.width,
    {
        self.width
    }

    /// Height in pixels.
    pub fn height(&self) -> (h: u32)
        ensures
            h == self@.height,
    {
        self.height
    }

    /// Width and height in pixels.
    pub fn dimensions(&self) -> (d: (u32, u32))
        ensures
            d == (self@.width, self@.height),
    {
        (self.width, self.height)
    }

    /// The samples, four bytes per pixel.
    pub fn as_raw(&self) -> (raw: &Vec<u8>)
        ensures
            raw@ == self@.pixels,
            self@.wf(),
    {
        proof {
            use_type_invariant(self);
        }
        &self.pixels
    }

    /// Gives up the image for its samples.
    pub fn into_vec(self) -> (raw: Vec<u8>)
        ensures
            raw@ == self@.pixels,
            self@.wf(),
    {
        proof {
            use_type_invariant(&self);
        }
        self.pixels
    }
}

impl Clone for RasterImage {
    fn clone(&self) -> (copy: RasterImage)
        ensures
            copy@ == self@,
    {
        proof {
            use_type_invariant(self);
        }
        RasterImage { width: self.width, height: self.height, pixels: self.pixels.clone() }
    }
}

} // verus!
