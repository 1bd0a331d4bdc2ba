//! The dithering pass: one walk over an image against a tiled matrix.
//!
//! A pixel is replaced where the threshold that the matrix puts on its
//! coordinate is greater than its luma, and stays as it is elsewhere. The
//! flat mode replaces by one colour, the layered mode by the pixel that a
//! second image of the same size has at the same coordinate.

use vstd::prelude::*;
use crate::error::DitherError;
use crate::matrix::{threshold_at, Matrix, LIMIT, ONE};
use crate::raster::{
    dimensions, get_pixel, image_pixels, image_size, luma_of, put_pixel, to_luma, Color, Image,
    Raster,
};

verus! {

/// Whether the threshold `t` replaces a pixel of colour `c`: `t`, a
/// fixed-point number, is greater than the luma of `c`.
pub open spec fn exceeds(t: u32, c: Color) -> bool {
    t > luma_of(c) * ONE
}

/// The raster `img` after a pass against the tiled grid `m`, where `fill`
/// gives the replacement for each coordinate.
pub open spec fn composited(img: Raster, m: Seq<Seq<u32>>, fill: spec_fn(int, int) -> Color) -> Raster {
    Raster {
        width: img.width,
        height: img.height,
        pixels: Map::new(
            |c: (int, int)| img.contains(c.0, c.1),
            |c: (int, int)|
                if exceeds(threshold_at(m, c.0, c.1), img.pixels[c]) {
                    fill(c.0, c.1)
                } else {
                    img.pixels[c]
                },
        ),
    }
}

/// Flat mode: every replaced pixel becomes `fill`.
pub open spec fn flat_dithered(img: Raster, m: Seq<Seq<u32>>, fill: Color) -> Raster {
    composited(img, m, |x: int, y: int| fill)
}

/// Layered mode: every replaced pixel becomes the pixel of `layer` at the
/// same coordinate.
pub open spec fn layer_dithered(img: Raster, layer: Raster, m: Seq<Seq<u32>>) -> Raster {
    composited(img, m, |x: int, y: int| layer.pixels[(x, y)])
}

/// Whether two rasters have the same width and the same height.
pub open spec fn same_size(a: Raster, b: Raster) -> bool {
    a.width == b.width && a.height == b.height
}

/// What a pass puts in the place of a pixel that it replaces.
pub enum Mode<'a> {
    /// One colour for every replaced pixel.
    Flat(Color),
    /// The pixel that this image has at the coordinate of the replaced one.
    Layered(&'a Image),
}

/// The replacement that a pass in the given mode has for the coordinate
/// `(x, y)`.
pub open spec fn replacement(mode: Mode, x: int, y: int) -> Color {
    match mode {
        Mode::Flat(fill) => fill,
        Mode::Layered(layer) => layer@.pixels[(x, y)],
    }
}

/// Whether the fixed-point threshold `t` is greater than the luma `l`.
fn over(t: u32, l: u8) -> (b: bool)
    ensures
        b == (t > l * ONE),
{
    t > (l as u32) * ONE
}

/// The pass that both modes share: walks every pixel of `target` and
/// replaces those whose threshold is greater than their luma.
fn pass(target: Image, matrix: &Matrix, mode: &Mode) -> (img: Image)
    requires
        mode matches Mode::Layered(layer) ==> same_size(target@, layer@),
    ensures
        img@ == composited(target@, matrix@, |x: int, y: int| replacement(*mode, x, y)),
{
    let (w, h) = dimensions(&target);
    let ghost before = target@;
    let ghost after = composited(before, matrix@, |x: int, y: int| replacement(*mode, x, y));
    let mut img = target;
    let mut y: u32 = 0;
    while y < h
        invariant
            y <= h,
            before.width == w,
            before.height == h,
            image_size(img) == (w as nat, h as nat),
            mode matches Mode::Layered(layer) ==> layer@.width == w && layer@.height == h,
            after == composited(before, matrix@, |x: int, y: int| replacement(*mode, x, y)),
            forall|cx: int, cy: int|
                0 <= cx < w && 0 <= cy < y
                    ==> #[trigger] image_pixels(img)[(cx, cy)] == after.pixels[(cx, cy)],
            forall|cx: int, cy: int|
                0 <= cx < w && y <= cy < h
                    ==> #[trigger] image_pixels(img)[(cx, cy)] == before.pixels[(cx, cy)],
        decreases h - y,
    {
        let mut x: u32 = 0;
        while x < w
            invariant
                x <= w,
                y < h,
                before.width == w,
                before.height == h,
                image_size(img) == (w as nat, h as nat),
                mode matches Mode::Layered(layer) ==> layer@.width == w && layer@.height == h,
                after == composited(before, matrix@, |x: int, y: int| replacement(*mode, x, y)),
                forall|cx: int, cy: int|
                    0 <= cx < w && (0 <= cy < y || (cy == y && cx < x))
                        ==> #[trigger] image_pixels(img)[(cx, cy)] == after.pixels[(cx, cy)],
                forall|cx: int, cy: int|
                    0 <= cx < w && (y < cy < h || (cy == y && x <= cx))
                        ==> #[trigger] image_pixels(img)[(cx, cy)] == before.pixels[(cx, cy)],
            decreases w - x,
        {
            let p = get_pixel(&img, x, y);
            let t = matrix.threshold(x, y);
            assert(p == before.pixels[(x as int, y as int)]);
            if over(t, to_luma(p)) {
                let q = match mode {
                    Mode::Flat(fill) => *fill,
                    Mode::Layered(layer) => get_pixel(layer, x, y),
                };
                assert(q == replacement(*mode, x as int, y as int));
                put_pixel(&mut img, x, y, q);
            }
            x += 1;
        }
        y += 1;
    }
    assert(img@.pixels =~= after.pixels);
    img
}

/// One pass over `target` in the given mode. A layer of another size than
/// the target is refused.
pub fn composite(target: Image, matrix: Matrix, mode: Mode) -> (out: Result<Image, DitherError>)
    ensures
        match mode {
            Mode::Flat(fill) => out matches Ok(img) && img@ == flat_dithered(target@, matrix@, fill),
            Mode::Layered(layer) => if same_size(target@, layer@) {
                out matches Ok(img) && img@ == layer_dithered(target@, layer@, matrix@)
            } else {
                out matches Err(e) && e == DitherError::DimensionMismatch
            },
        },
{
    match mode {
        Mode::Flat(fill) => {
            assert((|x: int, y: int| replacement(mode, x, y)) == (|x: int, y: int| fill));
        },
        Mode::Layered(layer) => {
            let (w, h) = dimensions(&target);
            let (lw, lh) = dimensions(layer);
            if lw != w || lh != h {
                return Err(DitherError::DimensionMismatch);
            }
            assert((|x: int, y: int| replacement(mode, x, y)) == (|x: int, y: int|
                layer@.pixels[(x, y)]));
        },
    }
    Ok(pass(target, &matrix, &mode))
}

/// Dithers `image` against `matrix`: every pixel whose threshold is
/// greater than its luma becomes opaque black.
pub fn black_dither(image: Image, matrix: Matrix) -> (out: Image)
    ensures
        out@ == flat_dithered(image@, matrix@, Color::black()),
{
    let mode = Mode::Flat(Color { r: 0, g: 0, b: 0, a: 255 });
    assert((|x: int, y: int| replacement(mode, x, y)) == (|x: int, y: int| Color::black()));
    pass(image, &matrix, &mode)
}

/// Dithers `image` against `matrix` with `layer` behind it: every pixel
/// whose threshold is greater than its luma becomes the pixel of `layer` at
/// the same coordinate. A layer of another size is refused.
pub fn layer_dither(image: Image, layer: Image, matrix: Matrix) -> (out: Result<Image, DitherError>)
    ensures
        same_size(image@, layer@) ==> (out matches Ok(img) && img@ == layer_dithered(
            image@,
            layer@,
            matrix@,
        )),
        !same_size(image@, layer@) ==> (out matches Err(e) && e == DitherError::DimensionMismatch),
{
    composite(image, matrix, Mode::Layered(&layer))
}

/// Flat dithering keeps the size, and leaves each pixel as it was or
/// paints it with the fill colour: it paints exactly the pixels whose
/// threshold is greater than their luma. A pixel therefore differs from
/// what it was exactly where its threshold is greater than its luma and it
/// did not have the fill colour already.
pub proof fn lemma_flat_dither_pixels(img: Raster, m: Seq<Seq<u32>>, fill: Color)
    ensures
        same_size(flat_dithered(img, m, fill), img),
        forall|x: int, y: int|
            img.contains(x, y) ==> {
                let before = img.pixels[(x, y)];
                let after = #[trigger] flat_dithered(img, m, fill).pixels[(x, y)];
                &&& after == before || after == fill
                &&& exceeds(threshold_at(m, x, y), before) ==> after == fill
                &&& !exceeds(threshold_at(m, x, y), before) ==> after == before
                &&& after != before <==> exceeds(threshold_at(m, x, y), before) && before != fill
            },
{
}

/// Layered dithering against a matrix of zeros changes nothing.
pub proof fn lemma_layer_dither_zero_matrix(target: Image, layer: Image, matrix: Matrix)
    requires
        matrix@.len() >= 1,
        same_size(target@, layer@),
        forall|i: int, j: int|
            0 <= i < matrix@.len() && 0 <= j < matrix@.len() ==> #[trigger] matrix@[i][j] == 0,
    ensures
        layer_dithered(target@, layer@, matrix@) == target@,
{
    let out = layer_dithered(target@, layer@, matrix@);
    assert forall|c: (int, int)| target@.contains(c.0, c.1) implies !exceeds(
        threshold_at(matrix@, c.0, c.1),
        target@.pixels[c],
    ) by {
        lemma_tile_index(matrix@, c.0, c.1);
    }
    assert(out.pixels =~= target@.pixels);
}

/// Layered dithering against a matrix whose every threshold is 255 turns a
/// target without a pixel of luma 255 into the layer.
pub proof fn lemma_layer_dither_full_matrix(target: Image, layer: Image, matrix: Matrix)
    requires
        matrix@.len() >= 1,
        same_size(target@, layer@),
        forall|i: int, j: int|
            0 <= i < matrix@.len() && 0 <= j < matrix@.len() ==> #[trigger] matrix@[i][j] == LIMIT,
        forall|x: int, y: int|
            target@.contains(x, y) ==> luma_of(#[trigger] target@.pixels[(x, y)]) < 255,
    ensures
        layer_dithered(target@, layer@, matrix@) == layer@,
{
    let out = layer_dithered(target@, layer@, matrix@);
    assert forall|c: (int, int)| target@.contains(c.0, c.1) implies exceeds(
        threshold_at(matrix@, c.0, c.1),
        target@.pixels[c],
    ) by {
        lemma_tile_index(matrix@, c.0, c.1);
        assert(luma_of(target@.pixels[(c.0, c.1)]) < 255);
    }
    assert(out.pixels =~= layer@.pixels);
}

/// The tiled grid reads the grid at a row and a column below its side, at
/// every coordinate.
proof fn lemma_tile_index(g: Seq<Seq<u32>>, x: int, y: int)
    requires
        g.len() >= 1,
        0 <= x,
        0 <= y,
    ensures
        0 <= x % (g.len() as int) < g.len(),
        0 <= y % (g.len() as int) < g.len(),
        threshold_at(g, x, y) == g[x % (g.len() as int)][y % (g.len() as int)],
{
}

} // verus!
