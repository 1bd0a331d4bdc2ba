//! Composition: several layers dithered onto one image, one after another.
//!
//! Every pass draws a matrix of its own, and the layers are resampled by
//! floating-point arithmetic, so the contracts here say what holds of every
//! outcome. What a pass does with a given matrix and a given layer is the
//! matter of the dithering functions.

use vstd::prelude::*;
use crate::dither::{black_dither, flat_dithered, layer_dither, layer_dithered, same_size};
use crate::error::DitherError;
use crate::matrix::{create_matrix, generated};
use crate::raster::{can_resize, dimensions, resize, Color, Image, Raster};

verus! {

/// `out` is `img` dithered to black against some matrix generated with
/// dimension `n` and resolution `r`.
pub open spec fn dither_outcome(img: Raster, n: nat, r: nat, out: Raster) -> bool {
    exists|m: Seq<Seq<u32>>| #[trigger] generated(m, n, r) && out == flat_dithered(img, m, Color::black())
}

/// `out` may come of resampling `layer` to the given size: it has that
/// size, it is `layer` itself where `layer` has that size already, and it
/// is transparent black throughout where `layer` has no pixels.
pub open spec fn resize_outcome(layer: Raster, width: nat, height: nat, out: Raster) -> bool {
    &&& out.wf()
    &&& out.width == width
    &&& out.height == height
    &&& same_size(layer, out) ==> out == layer
    &&& layer.width == 0 || layer.height == 0 ==> forall|x: int, y: int|
        out.contains(x, y) ==> #[trigger] out.pixels[(x, y)] == Color::clear()
}

/// `out` may come of adding `layer` to `target`: the layer is resampled to
/// the size of the target, dithered to black against a generated matrix if
/// `predither` is set, and then dithered onto the target against another
/// generated matrix.
pub open spec fn layer_outcome(target: Raster, layer: Raster, predither: bool, n: nat, r: nat, out: Raster) -> bool {
    exists|resized: Raster, back: Raster, m: Seq<Seq<u32>>|
        #![trigger resize_outcome(layer, target.width, target.height, resized), layer_dithered(target, back, m)]
        {
            &&& resize_outcome(layer, target.width, target.height, resized)
            &&& if predither {
                dither_outcome(resized, n, r, back)
            } else {
                back == resized
            }
            &&& generated(m, n, r)
            &&& out == layer_dithered(target, back, m)
        }
}

/// `out` may come of composing `layers` onto `primary` in their order: the
/// primary image is dithered to black first if `predither` is set, and each
/// layer is then added to what the layers before it have left.
pub open spec fn compose_outcome(
    primary: Raster,
    layers: Seq<Raster>,
    predither: bool,
    n: nat,
    r: nat,
    out: Raster,
) -> bool
    decreases layers.len(),
{
    if layers.len() == 0 {
        if predither {
            dither_outcome(primary, n, r, out)
        } else {
            out == primary
        }
    } else {
        exists|mid: Raster|
            {
                &&& compose_outcome(primary, layers.drop_last(), predither, n, r, mid)
                &&& #[trigger] layer_outcome(mid, layers.last(), predither, n, r, out)
            }
    }
}

/// Adding the last layer to an outcome of composing the layers before it
/// gives an outcome of composing them all.
pub proof fn lemma_compose_step(
    primary: Raster,
    layers: Seq<Raster>,
    predither: bool,
    n: nat,
    r: nat,
    mid: Raster,
    out: Raster,
)
    requires
        layers.len() > 0,
        compose_outcome(primary, layers.drop_last(), predither, n, r, mid),
        layer_outcome(mid, layers.last(), predither, n, r, out),
    ensures
        compose_outcome(primary, layers, predither, n, r, out),
{
}

/// The rasters of a run of images.
pub open spec fn rasters(layers: Seq<Image>) -> Seq<Raster> {
    Seq::new(layers.len(), |i: int| layers[i]@)
}

/// Dithers `image` to black against a freshly generated matrix of
/// dimension `msize` and resolution `mres`.
pub fn random_dither(image: Image, msize: usize, mres: usize) -> (out: Result<Image, DitherError>)
    requires
        msize * mres <= usize::MAX,
    ensures
        out.is_err() == (msize == 0 || mres == 0),
        out matches Err(e) ==> e == DitherError::ZeroDimension,
        out matches Ok(img) ==> same_size(img@, image@) && dither_outcome(
            image@,
            msize as nat,
            mres as nat,
            img@,
        ),
{
    match create_matrix(msize, mres) {
        Ok(matrix) => Ok(black_dither(image, matrix)),
        Err(e) => Err(e),
    }
}

/// Adds one layer to `target`: resamples `layer` to the size of the
/// target, dithers it to black first if `predither` is set, and dithers it
/// onto the target. Each dithering draws a matrix of its own, of dimension
/// `msize` and resolution `mres`. The layer has to be one that can be
/// resized to the size of the target: see `can_resize`.
pub fn add_layer(target: Image, layer: &Image, predither: bool, msize: usize, mres: usize) -> (out: Result<
    Image,
    DitherError,
>)
    requires
        msize * mres <= usize::MAX,
        can_resize(layer@.size(), target@.size()),
    ensures
        out.is_err() == (msize == 0 || mres == 0),
        out matches Err(e) ==> e == DitherError::ZeroDimension,
        out matches Ok(img) ==> same_size(img@, target@) && layer_outcome(
            target@,
            layer@,
            predither,
            msize as nat,
            mres as nat,
            img@,
        ),
{
    if msize == 0 || mres == 0 {
        return Err(DitherError::ZeroDimension);
    }
    let (width, height) = dimensions(&target);
    let resized = resize(layer, width, height);
    let ghost resized_view = resized@;
    proof {
        if same_size(layer@, resized@) {
            assert(resized@.pixels =~= layer@.pixels);
        }
        assert(resize_outcome(layer@, target@.width, target@.height, resized_view));
    }
    let back = if predither {
        match random_dither(resized, msize, mres) {
            Ok(b) => b,
            Err(_) => {
                return Err(DitherError::ZeroDimension);
            },
        }
    } else {
        resized
    };
    match create_matrix(msize, mres) {
        Ok(matrix) => {
            let ghost back_view = back@;
            let ghost m = matrix@;
            let out = layer_dither(target, back, matrix);
            proof {
                assert(out matches Ok(img) && img@ == layer_dithered(target@, back_view, m));
            }
            out
        },
        Err(e) => Err(e),
    }
}

/// Composes `layers` onto `primary` in their order. The primary image is
/// dithered to black first if `predither` is set; each layer is then added
/// to what the layers before it have left. A matrix is drawn for every
/// dithering, so zero for `msize` or `mres` is refused as soon as there is
/// anything to dither. Each layer has to be one that can be resized to the
/// size of the primary image: see `can_resize`.
pub fn compose(primary: Image, layers: &Vec<Image>, predither: bool, msize: usize, mres: usize) -> (out: Result<
    Image,
    DitherError,
>)
    requires
        msize * mres <= usize::MAX,
        forall|i: int| 0 <= i < layers@.len() ==> can_resize((#[trigger] layers@[i])@.size(), primary@.size()),
    ensures
        out.is_err() == ((msize == 0 || mres == 0) && (predither || layers@.len() > 0)),
        out matches Err(e) ==> e == DitherError::ZeroDimension,
        out matches Ok(img) ==> same_size(img@, primary@) && compose_outcome(
            primary@,
            rasters(layers@),
            predither,
            msize as nat,
            mres as nat,
            img@,
        ),
{
    let ghost all = rasters(layers@);
    let mut current = if predither {
        match random_dither(primary, msize, mres) {
            Ok(img) => img,
            Err(e) => {
                return Err(e);
            },
        }
    } else {
        primary
    };
    assert(all.take(0) =~= Seq::<Raster>::empty());
    let mut i: usize = 0;
    while i < layers.len()
        invariant
            i <= layers@.len(),
            all == rasters(layers@),
            msize * mres <= usize::MAX,
            i > 0 || predither ==> msize != 0 && mres != 0,
            same_size(current@, primary@),
            forall|k: int|
                0 <= k < layers@.len() ==> can_resize((#[trigger] layers@[k])@.size(), primary@.size()),
            compose_outcome(primary@, all.take(i as int), predither, msize as nat, mres as nat, current@),
        decreases layers@.len() - i,
    {
        let ghost mid = current@;
        match add_layer(current, &layers[i], predither, msize, mres) {
            Ok(img) => {
                current = img;
            },
            Err(e) => {
                return Err(e);
            },
        }
        proof {
            let next = all.take(i + 1);
            assert(next.drop_last() =~= all.take(i as int));
            assert(next.last() == layers@[i as int]@);
            lemma_compose_step(primary@, next, predither, msize as nat, mres as nat, mid, current@);
        }
        i += 1;
    }
    assert(all.take(i as int) =~= all);
    Ok(current)
}

} // verus!
