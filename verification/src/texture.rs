use vstd::prelude::*;
use image::DynamicImage;
use crate::math::{clamp_u32, clamped};

verus! {

/// The raster type of the `image` crate. Nothing inside it is visible here:
/// what the library knows of a raster it knows through the three names below.
#[verifier::external_type_specification]
#[verifier::external_body]
pub struct ExDynamicImage(DynamicImage);

/// The number of columns of a raster: what `DynamicImage::width` returns.
pub uninterp spec fn raster_width(image: DynamicImage) -> u32;

/// The number of rows of a raster: what `DynamicImage::height` returns.
pub uninterp spec fn raster_height(image: DynamicImage) -> u32;

/// Whether a raster holds whole numbers: it is one of the variants of
/// `DynamicImage` whose samples are 8 or 16 bits wide. The other variants hold
/// floating-point samples, among which there may be some that are no number
/// and that cannot be read as bytes.
pub uninterp spec fn raster_whole(image: DynamicImage) -> bool;

/// The colour that a raster holds at column `x` of row `y`, rows counted from
/// the top, as red, green, blue and opacity: what `GenericImageView::get_pixel`
/// returns for a `DynamicImage`.
pub uninterp spec fn raster_pixel(image: DynamicImage, x: u32, y: u32) -> (u8, u8, u8, u8);

/// One picture element: red, green, blue and opacity, each from 0 to 255.
#[derive(Clone, Copy, Debug, PartialEq, Eq, Structural)]
pub struct Texel {
    pub r: u8,
    pub g: u8,
    pub b: u8,
    pub a: u8,
}

impl Texel {
    /// The texel of the four given channels.
    pub open spec fn of(channels: (u8, u8, u8, u8)) -> Texel {
        Texel { r: channels.0, g: channels.1, b: channels.2, a: channels.3 }
    }
}

/// Calls `DynamicImage::width`, which gives the width of the raster.
#[verifier::external_body]
fn image_width(image: &DynamicImage) -> (width: u32)
    ensures
        width == raster_width(*image),
{
    image.width()
}

/// Calls `DynamicImage::height`, which gives the height of the raster.
#[verifier::external_body]
fn image_height(image: &DynamicImage) -> (height: u32)
    ensures
        height == raster_height(*image),
{
    image.height()
}

/// Tells the variants of `DynamicImage` apart: those of 8-bit and of 16-bit
/// samples hold whole numbers, every other does not.
#[verifier::external_body]
fn image_is_whole(image: &DynamicImage) -> (whole: bool)
    ensures
        whole == raster_whole(*image),
{
    match image {
        DynamicImage::ImageLuma8(_) => true,
        DynamicImage::ImageLumaA8(_) => true,
        DynamicImage::ImageRgb8(_) => true,
        DynamicImage::ImageRgba8(_) => true,
        DynamicImage::ImageLuma16(_) => true,
        DynamicImage::ImageLumaA16(_) => true,
        DynamicImage::ImageRgb16(_) => true,
        DynamicImage::ImageRgba16(_) => true,
        _ => false,
    }
}

/// Calls `GenericImageView::get_pixel` on a `DynamicImage`, which gives the
/// colour at a place inside the raster as four bytes. It panics for a place
/// outside the raster, and may panic for a raster of floating-point samples,
/// where it meets a sample that is no number.
#[verifier::external_body]
fn image_pixel(image: &DynamicImage, x: u32, y: u32) -> (texel: Texel)
    requires
        raster_whole(*image),
        x < raster_width(*image),
        y < raster_height(*image),
    ensures
        texel == Texel::of(raster_pixel(*image, x, y)),
{
    let rgba = image::GenericImageView::get_pixel(image, x, y);
    Texel { r: rgba.0[0], g: rgba.0[1], b: rgba.0[2], a: rgba.0[3] }
}

/// `v` brought into the range of a `u32`.
pub open spec fn saturated(v: int) -> u32 {
    clamped(v, 0, u32::MAX as int) as u32
}

/// Brings `v` into the range of a `u32`.
pub fn saturate_u32(v: i64) -> (r: u32)
    ensures
        r == saturated(v as int),
{
    if v < 0 {
        0
    } else if v > u32::MAX as i64 {
        u32::MAX
    } else {
        v as u32
    }
}

/// A texture backed by a raster of whole numbers that has at least one row
/// and one column.
pub struct ImageTexture {
    image: DynamicImage,
}

impl ImageTexture {
    #[verifier::type_invariant]
    spec fn not_empty(self) -> bool {
        &&& raster_width(self.image) >= 1
        &&& raster_height(self.image) >= 1
        &&& raster_whole(self.image)
    }

    /// The raster of this texture.
    pub closed spec fn raster(&self) -> DynamicImage {
        self.image
    }

    /// The number of columns of the raster.
    pub open spec fn width(&self) -> u32 {
        raster_width(self.raster())
    }

    /// The number of rows of the raster.
    pub open spec fn height(&self) -> u32 {
        raster_height(self.raster())
    }

    /// The texel that is read for the place `(x, y)`, where `y` counts upwards
    /// and row `height - y` of the raster is meant. A place outside the raster
    /// is moved to the nearest column and row inside it.
    pub open spec fn screen_texel(&self, x: u32, y: u32) -> Texel {
        Texel::of(
            raster_pixel(
                self.raster(),
                clamped(x as int, 0, self.width() - 1) as u32,
                clamped(self.height() - y, 0, self.height() - 1) as u32,
            ),
        )
    }

    /// The texels between which a point is blended whose whole parts are
    /// `(x, y)`: those of the places `(x, y)`, `(x, y + 1)`, `(x + 1, y)` and
    /// `(x + 1, y + 1)`, in this order, each coordinate brought into the range
    /// of a `u32`.
    pub open spec fn screen_quad(&self, x: i64, y: i64) -> (Texel, Texel, Texel, Texel) {
        (
            self.screen_texel(saturated(x as int), saturated(y as int)),
            self.screen_texel(saturated(x as int), saturated(y + 1)),
            self.screen_texel(saturated(x + 1), saturated(y as int)),
            self.screen_texel(saturated(x + 1), saturated(y + 1)),
        )
    }

    /// Makes a texture of a raster, unless the raster has no row or no
    /// column, or holds floating-point samples.
    pub fn from_image(image: DynamicImage) -> (texture: Option<ImageTexture>)
        ensures
            texture is Some <==> raster_width(image) >= 1 && raster_height(image) >= 1
                && raster_whole(image),
            texture is Some ==> texture->0.raster() == image,
    {
        if image_width(&image) >= 1 && image_height(&image) >= 1 && image_is_whole(&image) {
            Some(ImageTexture { image })
        } else {
            None
        }
    }

    /// The raster behind this texture.
    pub fn image(&self) -> (image: &DynamicImage)
        ensures
            *image == self.raster(),
            raster_width(*image) >= 1,
            raster_height(*image) >= 1,
            raster_whole(*image),
    {
        proof {
            use_type_invariant(self);
        }
        &self.image
    }

    /// Reads the texel for the place `(x, y)`.
    pub fn sample_nearest_screen(&self, x: u32, y: u32) -> (texel: Texel)
        ensures
            texel == self.screen_texel(x, y),
    {
        proof {
            use_type_invariant(self);
        }
        let width = image_width(&self.image);
        let height = image_height(&self.image);
        let column = clamp_u32(x, 0, width - 1);
        let row = if y >= height {
            0
        } else {
            clamp_u32(height - y, 0, height - 1)
        };
        image_pixel(&self.image, column, row)
    }

    /// Reads the four texels around a point whose whole parts are `(x, y)`.
    pub fn sample_quad(&self, x: i64, y: i64) -> (quad: (Texel, Texel, Texel, Texel))
        ensures
            quad == self.screen_quad(x, y),
    {
        let x1 = saturate_u32(x);
        let y1 = saturate_u32(y);
        let x2 = if x == i64::MAX {
            u32::MAX
        } else {
            saturate_u32(x + 1)
        };
        let y2 = if y == i64::MAX {
            u32::MAX
        } else {
            saturate_u32(y + 1)
        };
        (
            self.sample_nearest_screen(x1, y1),
            self.sample_nearest_screen(x1, y2),
            self.sample_nearest_screen(x2, y1),
            self.sample_nearest_screen(x2, y2),
        )
    }
}

} // verus!
