use slideshow::geometry::Rect;
use slideshow::raster::{can_resample, push_zeros, Raster, CHANNELS, MAX_SIDE};

/// A picture whose pixel at `(x, y)` is `(x, y, x + y)`.
fn gradient(width: u32, height: u32) -> Raster {
    let mut pixels = Vec::new();
    for y in 0..height {
        for x in 0..width {
            pixels.extend_from_slice(&[x as u8, y as u8, (x + y) as u8]);
        }
    }
    Raster::from_pixels(width, height, pixels).unwrap()
}

fn pixel(raster: &Raster, x: u32, y: u32) -> [u8; 3] {
    let at = ((y * raster.width + x) as usize) * CHANNELS;
    [raster.pixels[at], raster.pixels[at + 1], raster.pixels[at + 2]]
}

#[test]
fn pictures_need_three_bytes_a_pixel() {
    assert!(Raster::from_pixels(2, 3, vec![0; 18]).is_some());
    assert!(Raster::from_pixels(2, 3, vec![0; 17]).is_none());
    assert!(Raster::from_pixels(2, 3, vec![0; 19]).is_none());
    assert!(Raster::from_pixels(0, 3, vec![]).is_some());
    assert!(Raster::from_pixels(0, 0, vec![1]).is_none());
    assert!(Raster::from_pixels(u32::MAX, u32::MAX, vec![]).is_none());
    let raster = Raster { width: 2, height: 2, pixels: vec![0; 11] };
    assert!(!raster.is_well_formed());
    let raster = Raster { width: 2, height: 2, pixels: vec![0; 12] };
    assert!(raster.is_well_formed());
}

#[test]
fn blank_pictures_are_black() {
    let raster = Raster::blank(4, 3).unwrap();
    assert_eq!((raster.width, raster.height), (4, 3));
    assert_eq!(raster.pixels, vec![0u8; 36]);
    let raster = Raster::blank(0, 7).unwrap();
    assert!(raster.pixels.is_empty());
    assert!(Raster::blank(u32::MAX, u32::MAX).is_none());
}

#[test]
fn crop_takes_the_pixels_of_the_rectangle() {
    let source = gradient(8, 6);
    let out = source.crop(Rect { x: 2, y: 1, width: 3, height: 4 }).unwrap();
    assert_eq!((out.width, out.height), (3, 4));
    assert!(out.is_well_formed());
    for y in 0..4 {
        for x in 0..3 {
            assert_eq!(pixel(&out, x, y), pixel(&source, x + 2, y + 1));
        }
    }
}

#[test]
fn crop_of_everything_and_of_nothing() {
    let source = gradient(5, 4);
    let all = source.crop(Rect { x: 0, y: 0, width: 5, height: 4 }).unwrap();
    assert_eq!(all.pixels, source.pixels);
    let none = source.crop(Rect { x: 5, y: 4, width: 0, height: 0 }).unwrap();
    assert_eq!((none.width, none.height), (0, 0));
    assert!(none.pixels.is_empty());
    let thin = source.crop(Rect { x: 1, y: 0, width: 0, height: 4 }).unwrap();
    assert_eq!((thin.width, thin.height), (0, 4));
    assert!(thin.pixels.is_empty());
    let corner = source.crop(Rect { x: 4, y: 3, width: 1, height: 1 }).unwrap();
    assert_eq!(corner.pixels, vec![4, 3, 7]);
}

#[test]
fn crop_outside_the_picture_is_refused() {
    let source = gradient(5, 4);
    assert!(source.crop(Rect { x: 1, y: 0, width: 5, height: 4 }).is_none());
    assert!(source.crop(Rect { x: 0, y: 1, width: 5, height: 4 }).is_none());
    assert!(source.crop(Rect { x: 6, y: 0, width: 0, height: 0 }).is_none());
    assert!(source.crop(Rect { x: u32::MAX, y: 0, width: 1, height: 1 }).is_none());
    assert!(source.crop(Rect { x: 0, y: u32::MAX, width: 1, height: u32::MAX }).is_none());
    let broken = Raster { width: 5, height: 4, pixels: vec![0; 59] };
    assert!(broken.crop(Rect { x: 0, y: 0, width: 1, height: 1 }).is_none());
}

#[test]
fn zeros_are_appended() {
    let mut bytes = vec![1u8, 2];
    push_zeros(&mut bytes, 3);
    assert_eq!(bytes, vec![1, 2, 0, 0, 0]);
    push_zeros(&mut bytes, 0);
    assert_eq!(bytes.len(), 5);
}

#[test]
fn resampling_has_its_limits() {
    assert!(can_resample(800, 600, 1080, 640));
    assert!(can_resample(0, 0, 1080, 640));
    assert!(can_resample(MAX_SIDE, 1, 1, 1));
    assert!(!can_resample(MAX_SIDE + 1, 1, 1, 1));
    assert!(!can_resample(1, MAX_SIDE + 1, 1, 1));
    assert!(!can_resample(1, 1, MAX_SIDE + 1, 1));
    assert!(!can_resample(1, 1, 1, MAX_SIDE + 1));
    assert_eq!(
        can_resample(MAX_SIDE, 1, 1, MAX_SIDE),
        16u128 * (MAX_SIDE as u128) * (MAX_SIDE as u128) <= isize::MAX as u128
    );
}
