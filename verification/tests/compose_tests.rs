use rdith::raster::{Color, Image};
use rdith::{add_layer, compose, random_dither, DitherError};

const BLACK: [u8; 4] = [0, 0, 0, 255];
const WHITE: [u8; 4] = [255, 255, 255, 255];
const RED: [u8; 4] = [255, 0, 0, 255];
const GRAY: [u8; 4] = [128, 128, 128, 255];

fn solid(width: u32, height: u32, c: [u8; 4]) -> Image {
    let mut samples = Vec::new();
    for _ in 0..width * height {
        samples.extend_from_slice(&c);
    }
    Image::from_raw(width, height, &samples).unwrap()
}

fn count(samples: &[u8], c: [u8; 4]) -> usize {
    samples.chunks(4).filter(|p| *p == &c[..]).count()
}

#[test]
fn random_dither_keeps_or_blackens_each_pixel() {
    let out = random_dither(solid(32, 32, GRAY), 8, 1).unwrap();
    assert_eq!((out.width(), out.height()), (32, 32));
    let raw = out.to_raw();
    let kept = count(&raw, GRAY);
    let black = count(&raw, BLACK);
    assert_eq!(kept + black, 32 * 32);
    // 64 thresholds, uniform below 255, against luma 128: both outcomes occur
    assert!(kept > 0);
    assert!(black > 0);
}

#[test]
fn random_dither_leaves_white_alone() {
    let out = random_dither(solid(8, 8, WHITE), 5, 2).unwrap();
    assert_eq!(count(&out.to_raw(), WHITE), 64);
}

#[test]
fn random_dither_refuses_zero() {
    assert_eq!(random_dither(solid(2, 2, GRAY), 0, 1).err(), Some(DitherError::ZeroDimension));
    assert_eq!(random_dither(solid(2, 2, GRAY), 1, 0).err(), Some(DitherError::ZeroDimension));
}

#[test]
fn add_layer_of_the_same_size_mixes_target_and_layer() {
    let out = add_layer(solid(32, 32, GRAY), &solid(32, 32, RED), false, 8, 1).unwrap();
    assert_eq!((out.width(), out.height()), (32, 32));
    let raw = out.to_raw();
    let kept = count(&raw, GRAY);
    let red = count(&raw, RED);
    assert_eq!(kept + red, 32 * 32);
    assert!(kept > 0);
    assert!(red > 0);
}

#[test]
fn add_layer_with_predither_mixes_in_black() {
    let out = add_layer(solid(32, 32, GRAY), &solid(32, 32, [200, 200, 200, 255]), true, 32, 1).unwrap();
    let raw = out.to_raw();
    let kept = count(&raw, GRAY);
    let layer = count(&raw, [200, 200, 200, 255]);
    let black = count(&raw, BLACK);
    assert_eq!(kept + layer + black, 32 * 32);
    assert!(kept > 0);
    assert!(layer > 0);
    assert!(black > 0);
}

#[test]
fn add_layer_resamples_to_the_size_of_the_target() {
    let out = add_layer(solid(6, 4, GRAY), &solid(3, 9, RED), false, 5, 1).unwrap();
    assert_eq!((out.width(), out.height()), (6, 4));
    let out = add_layer(solid(2, 2, GRAY), &solid(4, 4, RED), false, 5, 1).unwrap();
    assert_eq!((out.width(), out.height()), (2, 2));
    let out = add_layer(solid(4, 4, GRAY), &solid(1, 1, RED), true, 5, 1).unwrap();
    assert_eq!((out.width(), out.height()), (4, 4));
}

#[test]
fn add_layer_takes_an_empty_layer_as_transparent_black() {
    let out = add_layer(solid(16, 16, GRAY), &solid(0, 0, RED), false, 4, 1).unwrap();
    let raw = out.to_raw();
    let kept = count(&raw, GRAY);
    let clear = count(&raw, [0, 0, 0, 0]);
    assert_eq!(kept + clear, 256);
}

#[test]
fn add_layer_leaves_white_alone() {
    let out = add_layer(solid(8, 8, WHITE), &solid(8, 8, RED), false, 5, 1).unwrap();
    assert_eq!(count(&out.to_raw(), WHITE), 64);
}

#[test]
fn add_layer_refuses_zero() {
    let r = add_layer(solid(2, 2, GRAY), &solid(2, 2, RED), false, 0, 1);
    assert_eq!(r.err(), Some(DitherError::ZeroDimension));
    let r = add_layer(solid(2, 2, GRAY), &solid(2, 2, RED), true, 3, 0);
    assert_eq!(r.err(), Some(DitherError::ZeroDimension));
}

#[test]
fn compose_without_layers_gives_the_primary_image() {
    let samples: Vec<u8> = (0..64).collect();
    let out = compose(Image::from_raw(4, 4, &samples).unwrap(), &vec![], false, 5, 1).unwrap();
    assert_eq!(out.to_raw(), samples);
    // no matrix is drawn, so zero is not looked at
    let out = compose(Image::from_raw(4, 4, &samples).unwrap(), &vec![], false, 0, 0).unwrap();
    assert_eq!(out.to_raw(), samples);
}

#[test]
fn compose_refuses_zero_when_it_has_to_dither() {
    let r = compose(solid(2, 2, GRAY), &vec![], true, 0, 1);
    assert_eq!(r.err(), Some(DitherError::ZeroDimension));
    let r = compose(solid(2, 2, GRAY), &vec![solid(2, 2, RED)], false, 2, 0);
    assert_eq!(r.err(), Some(DitherError::ZeroDimension));
    let r = compose(solid(2, 2, GRAY), &vec![solid(2, 2, RED)], true, 0, 0);
    assert_eq!(r.err(), Some(DitherError::ZeroDimension));
}

#[test]
fn compose_with_predither_alone_dithers_the_primary_image() {
    let out = compose(solid(32, 32, GRAY), &vec![], true, 8, 1).unwrap();
    let raw = out.to_raw();
    let kept = count(&raw, GRAY);
    let black = count(&raw, BLACK);
    assert_eq!(kept + black, 32 * 32);
    assert!(black > 0);
}

#[test]
fn compose_adds_the_layers_in_their_order() {
    let green = [0, 255, 0, 255];
    let layers = vec![solid(32, 32, RED), solid(32, 32, green)];
    let out = compose(solid(32, 32, GRAY), &layers, false, 32, 1).unwrap();
    assert_eq!((out.width(), out.height()), (32, 32));
    let raw = out.to_raw();
    let kept = count(&raw, GRAY);
    let red = count(&raw, RED);
    let green = count(&raw, green);
    assert_eq!(kept + red + green, 32 * 32);
    assert!(kept > 0);
    assert!(red > 0);
    assert!(green > 0);
}

#[test]
fn compose_keeps_the_size_of_the_primary_image() {
    let layers = vec![solid(3, 3, RED), solid(20, 1, WHITE), solid(0, 0, BLACK)];
    let out = compose(solid(7, 5, GRAY), &layers, true, 2, 3).unwrap();
    assert_eq!((out.width(), out.height()), (7, 5));
    assert_eq!(out.to_raw().len(), 7 * 5 * 4);
}

#[test]
fn compose_leaves_an_empty_image_empty() {
    let out = compose(solid(0, 0, GRAY), &vec![solid(3, 3, RED)], true, 2, 3).unwrap();
    assert_eq!((out.width(), out.height()), (0, 0));
    assert_eq!(out.pixel(0, 0), None::<Color>);
}
