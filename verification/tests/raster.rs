use tile_stitcher::bitmap::Rgba8;
use tile_stitcher::raster::Raster;

fn px(red: u8, green: u8, blue: u8, alpha: u8) -> Rgba8 {
    Rgba8 { red, green, blue, alpha }
}

#[test]
fn new_raster_is_transparent() {
    let r = Raster::new(3, 2).unwrap();
    assert_eq!(r.dimensions(), (3, 2));
    for y in 0..2 {
        for x in 0..3 {
            assert_eq!(r.get_pixel(x, y), Some(px(0, 0, 0, 0)));
        }
    }
    assert_eq!(r.into_samples(), vec![0u8; 24]);
}

#[test]
fn new_raster_may_be_empty() {
    let r = Raster::new(0, 5).unwrap();
    assert_eq!(r.dimensions(), (0, 5));
    assert_eq!(r.get_pixel(0, 0), None);
    assert_eq!(r.into_samples(), Vec::<u8>::new());
}

#[test]
fn new_raster_too_large_is_refused() {
    assert!(Raster::new(u32::MAX, u32::MAX).is_none());
    assert!(Raster::new(2147483648, 2147483648).is_none());
}

#[test]
fn from_samples_keeps_the_samples() {
    let samples: Vec<u8> = (0..24).collect();
    let r = Raster::from_samples(2, 3, samples.clone()).unwrap();
    assert_eq!(r.dimensions(), (2, 3));
    assert_eq!(r.into_samples(), samples);
}

#[test]
fn from_samples_wants_four_samples_per_pixel() {
    assert!(Raster::from_samples(2, 3, vec![0u8; 23]).is_none());
    assert!(Raster::from_samples(2, 3, vec![0u8; 25]).is_none());
    assert!(Raster::from_samples(2, 3, Vec::new()).is_none());
    assert!(Raster::from_samples(0, 0, vec![0u8; 1]).is_none());
    assert!(Raster::from_samples(0, 3, Vec::new()).is_some());
    assert!(Raster::from_samples(u32::MAX, u32::MAX, vec![0u8; 4]).is_none());
}

#[test]
fn pixels_are_read_row_by_row() {
    let samples: Vec<u8> = (0..24).collect();
    let r = Raster::from_samples(3, 2, samples).unwrap();
    assert_eq!(r.get_pixel(0, 0), Some(px(0, 1, 2, 3)));
    assert_eq!(r.get_pixel(1, 0), Some(px(4, 5, 6, 7)));
    assert_eq!(r.get_pixel(2, 0), Some(px(8, 9, 10, 11)));
    assert_eq!(r.get_pixel(0, 1), Some(px(12, 13, 14, 15)));
    assert_eq!(r.get_pixel(2, 1), Some(px(20, 21, 22, 23)));
}

#[test]
fn no_pixel_outside_the_raster() {
    let r = Raster::from_samples(3, 2, vec![9u8; 24]).unwrap();
    assert_eq!(r.get_pixel(3, 0), None);
    assert_eq!(r.get_pixel(0, 2), None);
    assert_eq!(r.get_pixel(u32::MAX, u32::MAX), None);
    assert_eq!(r.get_pixel(2, 1), Some(px(9, 9, 9, 9)));
}

#[test]
fn raster_reads_what_the_image_crate_wrote() {
    let mut img = image::RgbaImage::new(4, 3);
    img.put_pixel(1, 2, image::Rgba([10, 20, 30, 40]));
    img.put_pixel(3, 0, image::Rgba([50, 60, 70, 80]));
    let r = Raster::from_samples(4, 3, img.into_raw()).unwrap();
    assert_eq!(r.get_pixel(1, 2), Some(px(10, 20, 30, 40)));
    assert_eq!(r.get_pixel(3, 0), Some(px(50, 60, 70, 80)));
    assert_eq!(r.get_pixel(2, 1), Some(px(0, 0, 0, 0)));
}

#[test]
fn a_row_must_be_countable_even_without_rows() {
    let countable = (1u128 << 32) <= usize::MAX as u128;
    assert_eq!(Raster::new(0x4000_0000, 0).is_some(), countable);
    assert_eq!(Raster::from_samples(0x4000_0000, 0, Vec::new()).is_some(), countable);
    assert!(Raster::new(0x3fff_ffff, 0).is_some());
    assert!(Raster::from_samples(0x3fff_ffff, 0, Vec::new()).is_some());
    assert_eq!(Raster::new(u32::MAX, 0).is_some(), countable);
}
