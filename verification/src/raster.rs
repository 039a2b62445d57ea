//! The image raster: one gray level for each pixel of a photo, row by row.

use crate::bitplane::MAX_LEVEL;
use crate::layout::IMAGE_RASTER_SIZE;
use vstd::prelude::*;

verus! {

/// Whether `pixels` is the content of an image raster: one gray level, from
/// zero to `MAX_LEVEL`, for each pixel of a photo.
pub open spec fn is_raster(pixels: Seq<u8>) -> bool {
    &&& pixels.len() == IMAGE_RASTER_SIZE
    &&& forall|index: int| 0 <= index < pixels.len() ==> #[trigger] pixels[index] <= MAX_LEVEL
}

/// A flat buffer of gray levels, one for each pixel of a photo, in row-major
/// order. It is made once and decoded into again for each photo.
#[derive(Debug, PartialEq, Eq)]
pub struct ImageRaster {
    pixels: Vec<u8>,
}

impl View for ImageRaster {
    type V = Seq<u8>;

    closed spec fn view(&self) -> Seq<u8> {
        self.pixels@
    }
}

impl ImageRaster {
    /// The raster's invariant: it holds `IMAGE_RASTER_SIZE` gray levels.
    pub open spec fn wf(&self) -> bool {
        is_raster(self@)
    }

    /// Makes a raster whose pixels all have level zero.
    pub fn new() -> (raster: Self)
        ensures
            raster.wf(),
            forall|index: int| 0 <= index < IMAGE_RASTER_SIZE ==> raster@[index] == 0,
    {
        let mut pixels: Vec<u8> = Vec::new();
        let mut count: usize = 0;
        while count < IMAGE_RASTER_SIZE
            invariant
                count <= IMAGE_RASTER_SIZE,
                pixels@.len() == count,
                forall|index: int| 0 <= index < count ==> pixels@[index] == 0,
            decreases IMAGE_RASTER_SIZE - count,
        {
            pixels.push(0);
            count += 1;
        }
        ImageRaster { pixels }
    }

    /// Gray level of the pixel at raster index `index`.
    pub fn pixel(&self, index: usize) -> (level: u8)
        requires
            self.wf(),
            index < IMAGE_RASTER_SIZE,
        ensures
            level == self@[index as int],
            level <= MAX_LEVEL,
    {
        self.pixels[index]
    }

    /// Sets the pixel at raster index `index` to `level`.
    pub fn set_pixel(&mut self, index: usize, level: u8)
        requires
            old(self).wf(),
            index < IMAGE_RASTER_SIZE,
            level <= MAX_LEVEL,
        ensures
            final(self).wf(),
            final(self)@ == old(self)@.update(index as int, level),
    {
        self.pixels.set(index, level);
    }

    /// The gray levels of all pixels, in raster order.
    pub fn as_slice(&self) -> (pixels: &[u8])
        ensures
            pixels@ == self@,
    {
        self.pixels.as_slice()
    }
}

} // verus!
