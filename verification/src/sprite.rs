//! Sprites: immutable raster images with a draw-order key, and the
//! rounded world-space positions the compositor consumes.

use vstd::prelude::*;
use crate::color::Color;

verus! {

/// A sprite's declared size in virtual pixels.
#[derive(Clone, Copy, Debug, PartialEq, Eq, Structural)]
pub struct Dims {
    pub x: u16,
    pub y: u16,
}

/// A world-space position, rounded to the nearest integer before the
/// compositor sees it, so that fractional (smoothed) positions project to
/// stable buffer cells. The embedding application rounds its own floating
/// transform once per frame and hands the result over as a `Placement`.
#[derive(Clone, Copy, Debug, PartialEq, Eq, Structural)]
pub struct Placement {
    pub x: i32,
    pub y: i32,
}

/// An immutable raster image: a row-major sequence of colours, its declared
/// size, and a draw-order key.
///
/// If the `x` of your `size` is inaccurate, the sprite will be warped.
/// However, if the `y` is inaccurate, the sprite will simply be cut off or
/// padded with empty space. `wf` is the shape every constructor of this
/// crate establishes; the compositor requires it.
pub struct Sprite {
    pub colors: Vec<Color>,
    pub size: Dims,
    pub z_index: i32,
}

impl Sprite {
    /// The shape invariant: the declared area matches the colour count.
    pub open spec fn wf(self) -> bool {
        self.colors@.len() == self.size.x as int * self.size.y as int
    }

    /// The texel in column `dx` of row `dy` of the row-major grid.
    pub open spec fn pixel(self, dx: int, dy: int) -> Color {
        self.colors@[dy * self.size.x as int + dx]
    }

    /// Builds a sprite from an already-decoded RGBA byte buffer: four bytes
    /// per pixel, row-major, `width * height` pixels read from the front of
    /// the buffer.
    pub fn from_rgba8(bytes: &Vec<u8>, width: u16, height: u16, z_index: i32) -> (s: Sprite)
        requires
            bytes@.len() >= width as int * height as int * 4,
        ensures
            s.wf(),
            s.size == (Dims { x: width, y: height }),
            s.z_index == z_index,
            s.colors@.len() == width as int * height as int,
            forall|i: int| 0 <= i < s.colors@.len() ==> s.colors@[i] == (Color {
                r: bytes@[4 * i],
                g: bytes@[4 * i + 1],
                b: bytes@[4 * i + 2],
                a: bytes@[4 * i + 3],
            }),
    {
        let _blen = bytes.len();
        let total: usize = (width as usize) * (height as usize);
        let mut colors: Vec<Color> = Vec::new();
        let mut i: usize = 0;
        while i < total
            invariant
                total == width as int * height as int,
                bytes@.len() >= 4 * total,
                bytes@.len() <= usize::MAX as int,
                i <= total,
                colors@.len() == i as int,
                forall|k: int| 0 <= k < i ==> colors@[k] == (Color {
                    r: bytes@[4 * k],
                    g: bytes@[4 * k + 1],
                    b: bytes@[4 * k + 2],
                    a: bytes@[4 * k + 3],
                }),
            decreases total - i,
        {
            colors.push(Color {
                r: bytes[4 * i],
                g: bytes[4 * i + 1],
                b: bytes[4 * i + 2],
                a: bytes[4 * i + 3],
            });
            i = i + 1;
        }
        Sprite { colors, size: Dims { x: width, y: height }, z_index }
    }

    /// Builds a sprite from an externally decoded image plus a draw-order
    /// key: the image is converted to RGBA and its pixels copied row-major.
    /// An image wider or taller than the 16-bit sprite size can express
    /// comes back as the empty sprite.
    pub fn from_image(image: &image::DynamicImage, z_index: i32) -> (s: Sprite)
        ensures
            s.wf(),
            s.z_index == z_index,
            image_width(*image) <= 65535 && image_height(*image) <= 65535 ==> {
                &&& s.size.x as int == image_width(*image) as int
                &&& s.size.y as int == image_height(*image) as int
                &&& s.colors@.len() == image_width(*image) as int * image_height(*image) as int
                &&& forall|i: int| 0 <= i < s.colors@.len() ==> s.colors@[i] == (Color {
                    r: rgba_of(*image)[4 * i],
                    g: rgba_of(*image)[4 * i + 1],
                    b: rgba_of(*image)[4 * i + 2],
                    a: rgba_of(*image)[4 * i + 3],
                })
            },
            !(image_width(*image) <= 65535 && image_height(*image) <= 65535)
                ==> s.size == (Dims { x: 0, y: 0 }) && s.colors@.len() == 0,
    {
        let (bytes, width, height) = image_rgba_bytes(image);
        if width <= 65535 && height <= 65535 {
            Sprite::from_rgba8(&bytes, width as u16, height as u16, z_index)
        } else {
            Sprite { colors: Vec::new(), size: Dims { x: 0, y: 0 }, z_index }
        }
    }
}

/// The raw RGBA samples of an image once converted to RGBA8: a function of
/// the image value alone, named rather than written out.
pub uninterp spec fn rgba_of(img: image::DynamicImage) -> Seq<u8>;

/// The pixel width of an image, a function of the image value alone.
pub uninterp spec fn image_width(img: image::DynamicImage) -> u32;

/// The pixel height of an image, a function of the image value alone.
pub uninterp spec fn image_height(img: image::DynamicImage) -> u32;

/// An externally decoded image, opaque to this crate; only its conversion
/// to raw RGBA samples is relied on.
#[verifier::external_type_specification]
#[verifier::external_body]
pub struct ExDynamicImage(image::DynamicImage);

/// Relies on `image::DynamicImage::to_rgba8`, `image::ImageBuffer::dimensions`
/// and `image::ImageBuffer::into_raw`: the conversion to RGBA8 and the
/// dimensions depend on the image value alone (named `rgba_of`,
/// `image_width`, `image_height`), and an RGBA8 image of those dimensions
/// holds its pixels row-major, four bytes per pixel, in the front
/// `width * height * 4` bytes of its sample container (the container may be
/// longer, since `ImageBuffer::from_raw` accepts any big-enough buffer).
#[verifier::external_body]
fn image_rgba_bytes(image: &image::DynamicImage) -> (out: (Vec<u8>, u32, u32))
    ensures
        out.0@ == rgba_of(*image),
        out.1 == image_width(*image),
        out.2 == image_height(*image),
        out.0@.len() >= out.1 as int * out.2 as int * 4,
{
    let rgba = image.to_rgba8();
    let (width, height) = rgba.dimensions();
    (rgba.into_raw(), width, height)
}

} // verus!
