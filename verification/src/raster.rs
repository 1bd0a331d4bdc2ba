//! RGBA images: an `image::RgbaImage` behind a verified interface.
//!
//! The buffer itself is opaque to the verifier. Contracts speak of its
//! size and of the pixel stored at each coordinate.

use vstd::prelude::*;

verus! {

/// One pixel: red, green, blue and alpha, eight bits each.
#[derive(Clone, Copy, Debug, PartialEq, Eq, Structural)]
pub struct Color {
    pub r: u8,
    pub g: u8,
    pub b: u8,
    pub a: u8,
}

impl Color {
    /// Opaque black, the colour that flat dithering paints.
    pub open spec fn black() -> Color {
        Color { r: 0, g: 0, b: 0, a: 255 }
    }

    /// Transparent black, the colour of every pixel of a freshly made image.
    pub open spec fn clear() -> Color {
        Color { r: 0, g: 0, b: 0, a: 0 }
    }
}

/// Luma of a colour: the weighted sum of its red, green and blue channels
/// with the sRGB weights 0.2126, 0.7152 and 0.0722, rounded down.
pub open spec fn luma_of(c: Color) -> int {
    (2126 * c.r + 7152 * c.g + 722 * c.b) / 10000
}

/// An 8-bit RGBA image.
///
/// It holds an `image::RgbaImage`, which the verifier does not look into.
/// `image_size` and `image_pixels` name what the buffer holds, and each
/// function of this file that calls into `image` says over those two names
/// what the call does; those statements are taken on trust.
#[verifier::external_body]
pub struct Image {
    buf: image::RgbaImage,
}

/// Width and height of an image, in pixels.
pub uninterp spec fn image_size(img: Image) -> (nat, nat);

/// The pixel of an image at each coordinate `(x, y)` inside it.
pub uninterp spec fn image_pixels(img: Image) -> Map<(int, int), Color>;

/// What an image is to a contract: its size and its pixels.
pub ghost struct Raster {
    pub width: nat,
    pub height: nat,
    pub pixels: Map<(int, int), Color>,
}

impl Raster {
    /// Whether `(x, y)` lies inside the raster.
    pub open spec fn contains(self, x: int, y: int) -> bool {
        0 <= x < self.width && 0 <= y < self.height
    }

    /// Width and height as a pair.
    pub open spec fn size(self) -> (nat, nat) {
        (self.width, self.height)
    }

    /// The pixels are given exactly at the coordinates inside the raster.
    pub open spec fn wf(self) -> bool {
        forall|x: int, y: int| self.pixels.dom().contains((x, y)) <==> self.contains(x, y)
    }
}

/// The pixel that a row-major run of RGBA samples holds for `(x, y)`, in an
/// image of the given width.
pub open spec fn pixel_from(samples: Seq<u8>, width: nat, x: int, y: int) -> Color {
    let k = 4 * (y * width + x);
    Color { r: samples[k], g: samples[k + 1], b: samples[k + 2], a: samples[k + 3] }
}

/// The raster of the given size that a row-major run of RGBA samples holds.
pub open spec fn raster_of(samples: Seq<u8>, width: nat, height: nat) -> Raster {
    Raster {
        width,
        height,
        pixels: Map::new(
            |c: (int, int)| 0 <= c.0 < width && 0 <= c.1 < height,
            |c: (int, int)| pixel_from(samples, width, c.0, c.1),
        ),
    }
}

impl View for Image {
    type V = Raster;

    open spec fn view(&self) -> Raster {
        let size = image_size(*self);
        Raster {
            width: size.0,
            height: size.1,
            pixels: Map::new(
                |c: (int, int)| 0 <= c.0 < size.0 && 0 <= c.1 < size.1,
                |c: (int, int)| image_pixels(*self)[c],
            ),
        }
    }
}

/// `RgbaImage::new`: a buffer of the given size with every channel of every
/// pixel zero. The call panics when the buffer, of four bytes for each
/// pixel, is larger than a vector can be, which the precondition rules out.
#[verifier::external_body]
pub(crate) fn blank(width: u32, height: u32) -> (img: Image)
    requires
        4 * width * height <= isize::MAX,
    ensures
        image_size(img) == (width as nat, height as nat),
        forall|x: int, y: int|
            0 <= x < width && 0 <= y < height ==> #[trigger] image_pixels(img)[(x, y)] == Color::clear(),
{
    Image { buf: image::RgbaImage::new(width, height) }
}

/// `ImageBuffer::dimensions`: the width and height the buffer was made
/// with. A buffer holds four bytes for each of its pixels in one vector, and
/// no vector is larger than `isize::MAX` bytes.
#[verifier::external_body]
pub(crate) fn dimensions(img: &Image) -> (d: (u32, u32))
    ensures
        image_size(*img) == (d.0 as nat, d.1 as nat),
        4 * d.0 * d.1 <= isize::MAX,
{
    img.buf.dimensions()
}

/// `ImageBuffer::get_pixel`: the four channels stored at `(x, y)`. The call
/// panics outside the image, which the precondition rules out.
#[verifier::external_body]
pub(crate) fn get_pixel(img: &Image, x: u32, y: u32) -> (c: Color)
    requires
        x < image_size(*img).0,
        y < image_size(*img).1,
    ensures
        c == image_pixels(*img)[(x as int, y as int)],
{
    let p = img.buf.get_pixel(x, y).0;
    Color { r: p[0], g: p[1], b: p[2], a: p[3] }
}

/// `ImageBuffer::put_pixel`: stores the four channels at `(x, y)` and leaves
/// the size and every other pixel as they were. The call panics outside the
/// image, which the precondition rules out.
#[verifier::external_body]
pub(crate) fn put_pixel(img: &mut Image, x: u32, y: u32, c: Color)
    requires
        x < image_size(*old(img)).0,
        y < image_size(*old(img)).1,
    ensures
        image_size(*final(img)) == image_size(*old(img)),
        image_pixels(*final(img)) == image_pixels(*old(img)).insert((x as int, y as int), c),
{
    img.buf.put_pixel(x, y, image::Rgba([c.r, c.g, c.b, c.a]));
}

/// The side below which an image can be resampled, to a size below it as
/// well: `2^23`. The resampler places its samples in `f32`, which holds
/// every pixel index and every half-pixel centre below this side exactly.
pub const RESAMPLE_LIMIT: u32 = 0x0080_0000;

/// Whether resizing an image of the size `from` to the size `to` has to
/// resample: the image has pixels, and its size is another.
pub open spec fn resamples(from: (nat, nat), to: (nat, nat)) -> bool {
    from.0 > 0 && from.1 > 0 && from != to
}

/// Whether an image of the size `from` can be resized to the size `to`.
/// Where it has to be resampled, each side of either size lies below
/// `RESAMPLE_LIMIT`, and the grid that is held between the vertical and the
/// horizontal pass, as wide as the image, as high as the result and of
/// sixteen bytes for each pixel, is no larger than a vector can be.
pub open spec fn can_resize(from: (nat, nat), to: (nat, nat)) -> bool {
    resamples(from, to) ==> {
        &&& from.0 < RESAMPLE_LIMIT
        &&& from.1 < RESAMPLE_LIMIT
        &&& to.0 < RESAMPLE_LIMIT
        &&& to.1 < RESAMPLE_LIMIT
        &&& 16 * from.0 * to.1 <= isize::MAX
    }
}

/// `imageops::resize` with the Lanczos filter of window 3: a new image of
/// the given size. The call copies an image that has that size already,
/// and gives back zeros where the image has no pixels to sample. Else the
/// pixels come out of floating-point sums, of which nothing is claimed.
///
/// The call panics when a buffer is larger than a vector can be: the
/// result, of four bytes for each pixel, or the grid that it holds between
/// its two passes. It also panics when the weights of the pixels that go
/// into one sample sum to zero, since the sample is then not a number. The
/// call places each sample by `f32` arithmetic on sides and indices. From
/// `2^25` on `f32` no longer holds every index, and every pixel in reach of
/// a sample can get the weight zero. Below `2^23` every index and every
/// half-pixel centre is exact, the centre of a sample falls less than one
/// pixel outside the row or column that it is taken from, and the pixel
/// nearest to it has a weight above zero that the others do not cancel.
/// The precondition rules out the large buffers and asks for sides below
/// `2^23`.
#[verifier::external_body]
pub(crate) fn resize(img: &Image, width: u32, height: u32) -> (out: Image)
    requires
        4 * width * height <= isize::MAX,
        can_resize(image_size(*img), (width as nat, height as nat)),
    ensures
        image_size(out) == (width as nat, height as nat),
        image_size(*img) == (width as nat, height as nat) ==> forall|x: int, y: int|
            0 <= x < width && 0 <= y < height ==> #[trigger] image_pixels(out)[(x, y)]
                == image_pixels(*img)[(x, y)],
        image_size(*img).0 == 0 || image_size(*img).1 == 0 ==> forall|x: int, y: int|
            0 <= x < width && 0 <= y < height ==> #[trigger] image_pixels(out)[(x, y)]
                == Color::clear(),
{
    let filter = image::imageops::FilterType::Lanczos3;
    Image { buf: image::imageops::resize(&img.buf, width, height, filter) }
}

/// `Pixel::to_luma` on an `Rgba<u8>`: the crate weighs red, green and blue
/// by 2126, 7152 and 722, sums them in 32 bits and divides by 10000; alpha
/// takes no part.
#[verifier::external_body]
pub(crate) fn to_luma(c: Color) -> (l: u8)
    ensures
        l == luma_of(c),
{
    image::Pixel::to_luma(&image::Rgba([c.r, c.g, c.b, c.a])).0[0]
}

impl Image {
    /// Makes an image of the given size with every pixel transparent black.
    /// A size whose samples, four for each pixel, number more than
    /// `isize::MAX` is refused: no buffer can hold them.
    pub fn new(width: u32, height: u32) -> (out: Option<Image>)
        ensures
            out.is_some() == (4 * width * height <= isize::MAX),
            out matches Some(img) ==> {
                &&& img@.width == width
                &&& img@.height == height
                &&& forall|x: int, y: int|
                    img@.contains(x, y) ==> #[trigger] img@.pixels[(x, y)] == Color::clear()
            },
    {
        assert(4 * width * height <= 0x4_0000_0000_0000_0000) by (nonlinear_arith)
            requires
                width <= 0xffff_ffff,
                height <= 0xffff_ffff,
        ;
        if 4 * (width as u128) * (height as u128) > isize::MAX as u128 {
            None
        } else {
            Some(blank(width, height))
        }
    }

    /// Makes an image of the given size from its samples: four for each
    /// pixel, red, green, blue and alpha, the pixels row by row from the top
    /// left. Any other number of samples is refused, and so is a number
    /// greater than `isize::MAX`, which no buffer can hold.
    pub fn from_raw(width: u32, height: u32, samples: &Vec<u8>) -> (out: Option<Image>)
        ensures
            out.is_some() == (samples@.len() == 4 * width * height && samples@.len() <= isize::MAX),
            out matches Some(img) ==> img@ == raster_of(samples@, width as nat, height as nat),
    {
        assert(4 * width * height <= 0x4_0000_0000_0000_0000) by (nonlinear_arith)
            requires
                width <= 0xffff_ffff,
                height <= 0xffff_ffff,
        ;
        let need: u128 = 4 * (width as u128) * (height as u128);
        if samples.len() as u128 != need || need > isize::MAX as u128 {
            return None;
        }
        let mut img = blank(width, height);
        let mut k: usize = 0;
        let mut y: u32 = 0;
        while y < height
            invariant
                y <= height,
                samples@.len() == 4 * width * height,
                samples@.len() <= usize::MAX,
                image_size(img) == (width as nat, height as nat),
                k == 4 * (y * width),
                forall|cx: int, cy: int|
                    0 <= cx < width && 0 <= cy < y ==> #[trigger] image_pixels(img)[(cx, cy)]
                        == pixel_from(samples@, width as nat, cx, cy),
            decreases height - y,
        {
            let mut x: u32 = 0;
            while x < width
                invariant
                    x <= width,
                    y < height,
                    samples@.len() == 4 * width * height,
                    samples@.len() <= usize::MAX,
                    image_size(img) == (width as nat, height as nat),
                    k == 4 * (y * width + x),
                    forall|cx: int, cy: int|
                        0 <= cx < width && (0 <= cy < y || (cy == y && cx < x))
                            ==> #[trigger] image_pixels(img)[(cx, cy)] == pixel_from(
                            samples@,
                            width as nat,
                            cx,
                            cy,
                        ),
                decreases width - x,
            {
                proof {
                    lemma_pixel_index(x as int, y as int, width as int, height as int);
                }
                let c = Color { r: samples[k], g: samples[k + 1], b: samples[k + 2], a: samples[k + 3] };
                put_pixel(&mut img, x, y, c);
                k += 4;
                x += 1;
            }
            assert(y * width + width == (y + 1) * width) by (nonlinear_arith);
            y += 1;
        }
        assert(img@.pixels =~= raster_of(samples@, width as nat, height as nat).pixels);
        Some(img)
    }

    /// The samples of the image: four for each pixel, red, green, blue and
    /// alpha, the pixels row by row from the top left.
    pub fn to_raw(&self) -> (samples: Vec<u8>)
        ensures
            samples@.len() == 4 * self@.width * self@.height,
            raster_of(samples@, self@.width, self@.height) == self@,
    {
        let (width, height) = dimensions(self);
        let mut samples: Vec<u8> = Vec::new();
        let mut y: u32 = 0;
        while y < height
            invariant
                y <= height,
                image_size(*self) == (width as nat, height as nat),
                samples@.len() == 4 * (y * width),
                forall|cx: int, cy: int|
                    0 <= cx < width && 0 <= cy < y ==> #[trigger] image_pixels(*self)[(cx, cy)]
                        == pixel_from(samples@, width as nat, cx, cy),
            decreases height - y,
        {
            let mut x: u32 = 0;
            while x < width
                invariant
                    x <= width,
                    y < height,
                    image_size(*self) == (width as nat, height as nat),
                    samples@.len() == 4 * (y * width + x),
                    forall|cx: int, cy: int|
                        0 <= cx < width && (0 <= cy < y || (cy == y && cx < x))
                            ==> #[trigger] image_pixels(*self)[(cx, cy)] == pixel_from(
                            samples@,
                            width as nat,
                            cx,
                            cy,
                        ),
                decreases width - x,
            {
                let c = get_pixel(self, x, y);
                let ghost before = samples@;
                samples.push(c.r);
                samples.push(c.g);
                samples.push(c.b);
                samples.push(c.a);
                proof {
                    assert forall|cx: int, cy: int|
                        0 <= cx < width && (0 <= cy < y || (cy == y && cx < x)) implies pixel_from(
                        samples@,
                        width as nat,
                        cx,
                        cy,
                    ) == pixel_from(before, width as nat, cx, cy) by {
                        lemma_index_before(cx, cy, x as int, y as int, width as int);
                    }
                }
                x += 1;
            }
            assert(y * width + width == (y + 1) * width) by (nonlinear_arith);
            y += 1;
        }
        assert(4 * (height * width) == 4 * width * height) by (nonlinear_arith);
        assert(raster_of(samples@, self@.width, self@.height).pixels =~= self@.pixels);
        samples
    }

    /// Width in pixels.
    pub fn width(&self) -> (w: u32)
        ensures
            w == self@.width,
    {
        dimensions(self).0
    }

    /// Height in pixels.
    pub fn height(&self) -> (h: u32)
        ensures
            h == self@.height,
    {
        dimensions(self).1
    }

    /// The pixel at `(x, y)`, if the coordinate lies inside the image.
    pub fn pixel(&self, x: u32, y: u32) -> (c: Option<Color>)
        ensures
            c.is_some() == self@.contains(x as int, y as int),
            c matches Some(p) ==> p == self@.pixels[(x as int, y as int)],
    {
        let (width, height) = dimensions(self);
        if x < width && y < height {
            Some(get_pixel(self, x, y))
        } else {
            None
        }
    }
}

/// The row-major index of a coordinate inside an image lies inside its run
/// of pixels.
proof fn lemma_pixel_index(x: int, y: int, width: int, height: int)
    by (nonlinear_arith)
    requires
        0 <= x < width,
        0 <= y < height,
    ensures
        0 <= y * width + x < width * height,
        4 * (y * width + x) + 4 <= 4 * width * height,
{
}

/// A coordinate that comes before another in row-major order has the
/// smaller index.
proof fn lemma_index_before(cx: int, cy: int, x: int, y: int, width: int)
    by (nonlinear_arith)
    requires
        0 <= cx < width,
        0 <= cy,
        cy < y || (cy == y && cx < x),
        0 <= x,
    ensures
        0 <= cy * width + cx < y * width + x,
{
}

} // verus!
