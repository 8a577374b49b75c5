use tile_stitcher::compose::{compose, create_image_buffer, place_tile, tiles_used, ComposeError};
use tile_stitcher::layout::{GridConfig, Placement};
use tile_stitcher::bitmap::Rgba8;
use tile_stitcher::raster::Raster;

fn tile_pixel(index: usize, x: u32, y: u32) -> Rgba8 {
    Rgba8 { red: index as u8 + 1, green: x as u8, blue: y as u8, alpha: 255 }
}

fn tile(index: usize, width: u32, height: u32) -> Raster {
    let mut samples = Vec::new();
    for y in 0..height {
        for x in 0..width {
            let p = tile_pixel(index, x, y);
            samples.extend_from_slice(&[p.red, p.green, p.blue, p.alpha]);
        }
    }
    Raster::from_samples(width, height, samples).unwrap()
}

fn tiles(count: usize, width: u32, height: u32) -> Vec<Raster> {
    (0..count).map(|i| tile(i, width, height)).collect()
}

fn clear() -> Rgba8 {
    Rgba8 { red: 0, green: 0, blue: 0, alpha: 0 }
}

fn forward() -> GridConfig {
    GridConfig::standard(Placement::Forward)
}

fn reversed() -> GridConfig {
    GridConfig::standard(Placement::Reversed)
}

#[test]
fn canvas_of_32_pixel_tiles_is_256_by_192() {
    let sheet = compose(&tiles(48, 32, 32), 32, 32, &reversed()).unwrap();
    assert_eq!(sheet.dimensions(), (256, 192));
    assert_eq!(sheet.into_samples().len(), 4 * 256 * 192);
    let blank = create_image_buffer(32, 32, &forward()).unwrap();
    assert_eq!(blank.dimensions(), (256, 192));
    assert_eq!(blank.into_samples(), vec![0u8; 4 * 256 * 192]);
}

#[test]
fn every_tile_pixel_appears_in_its_cell_forward() {
    let sheet = compose(&tiles(48, 5, 3), 5, 3, &forward()).unwrap();
    assert_eq!(sheet.dimensions(), (40, 18));
    for index in 0..48usize {
        let col = (index % 8) as u32;
        let row = (index / 8) as u32;
        for y in 0..3 {
            for x in 0..5 {
                assert_eq!(
                    sheet.get_pixel(col * 5 + x, row * 3 + y),
                    Some(tile_pixel(index, x, y))
                );
            }
        }
    }
}

#[test]
fn every_tile_pixel_appears_in_its_cell_reversed() {
    let sheet = compose(&tiles(48, 5, 3), 5, 3, &reversed()).unwrap();
    for index in 0..48usize {
        let col = 7 - (index % 8) as u32;
        let row = 5 - (index / 8) as u32;
        for y in 0..3 {
            for x in 0..5 {
                assert_eq!(
                    sheet.get_pixel(col * 5 + x, row * 3 + y),
                    Some(tile_pixel(index, x, y))
                );
            }
        }
    }
}

#[test]
fn first_tile_lands_top_left_forward_and_bottom_right_reversed() {
    let batch = tiles(1, 2, 2);
    let sheet = compose(&batch, 2, 2, &forward()).unwrap();
    assert_eq!(sheet.get_pixel(0, 0), Some(tile_pixel(0, 0, 0)));
    assert_eq!(sheet.get_pixel(1, 1), Some(tile_pixel(0, 1, 1)));
    assert_eq!(sheet.get_pixel(14, 10), Some(clear()));
    let sheet = compose(&batch, 2, 2, &reversed()).unwrap();
    assert_eq!(sheet.get_pixel(14, 10), Some(tile_pixel(0, 0, 0)));
    assert_eq!(sheet.get_pixel(15, 11), Some(tile_pixel(0, 1, 1)));
    assert_eq!(sheet.get_pixel(0, 0), Some(clear()));
}

#[test]
fn sheet_samples_are_row_major() {
    let sheet = compose(&tiles(48, 1, 1), 1, 1, &forward()).unwrap();
    let samples = sheet.into_samples();
    assert_eq!(samples.len(), 4 * 48);
    for index in 0..48usize {
        assert_eq!(&samples[4 * index..4 * index + 4], &[index as u8 + 1, 0, 0, 255]);
    }
    let sheet = compose(&tiles(48, 1, 1), 1, 1, &reversed()).unwrap();
    let samples = sheet.into_samples();
    for index in 0..48usize {
        let at = 4 * (47 - index);
        assert_eq!(&samples[at..at + 4], &[index as u8 + 1, 0, 0, 255]);
    }
}

#[test]
fn cells_without_a_tile_stay_transparent() {
    let sheet = compose(&tiles(10, 4, 4), 4, 4, &forward()).unwrap();
    for index in 0..48u32 {
        let col = index % 8;
        let row = index / 8;
        for y in 0..4 {
            for x in 0..4 {
                let expected =
                    if index < 10 { tile_pixel(index as usize, x, y) } else { clear() };
                assert_eq!(sheet.get_pixel(col * 4 + x, row * 4 + y), Some(expected));
            }
        }
    }
}

#[test]
fn empty_batch_gives_a_transparent_sheet() {
    let sheet = compose(&Vec::new(), 3, 2, &reversed()).unwrap();
    assert_eq!(sheet.dimensions(), (24, 12));
    assert_eq!(sheet.into_samples(), vec![0u8; 4 * 24 * 12]);
}

#[test]
fn batch_of_fifty_uses_the_first_forty_eight() {
    let all = tiles(50, 3, 3);
    let first = tiles(48, 3, 3);
    for config in [forward(), reversed()] {
        let from_all = compose(&all, 3, 3, &config).unwrap().into_samples();
        let from_first = compose(&first, 3, 3, &config).unwrap().into_samples();
        assert_eq!(from_all, from_first);
        assert!(!from_all.chunks(4).any(|p| p[0] == 49 || p[0] == 50));
    }
    assert_eq!(tiles_used(50, &forward()), 48);
    assert_eq!(tiles_used(48, &forward()), 48);
    assert_eq!(tiles_used(47, &forward()), 47);
    assert_eq!(tiles_used(0, &forward()), 0);
}

#[test]
fn tiles_beyond_the_grid_are_not_looked_at() {
    let mut batch = tiles(48, 3, 3);
    batch.push(tile(48, 7, 1));
    batch.push(tile(49, 1, 9));
    let sheet = compose(&batch, 3, 3, &forward()).unwrap();
    let first = compose(&tiles(48, 3, 3), 3, 3, &forward()).unwrap();
    assert_eq!(sheet.into_samples(), first.into_samples());
}

#[test]
fn composing_twice_gives_identical_samples() {
    let batch = tiles(48, 6, 5);
    for config in [forward(), reversed()] {
        let first = compose(&batch, 6, 5, &config).unwrap().into_samples();
        let second = compose(&batch, 6, 5, &config).unwrap().into_samples();
        assert_eq!(first, second);
        let again = compose(&tiles(48, 6, 5), 6, 5, &config).unwrap().into_samples();
        assert_eq!(first, again);
    }
}

#[test]
fn placing_order_does_not_matter() {
    let batch = tiles(48, 4, 3);
    for config in [forward(), reversed()] {
        let expected = compose(&batch, 4, 3, &config).unwrap().into_samples();
        let mut backwards = create_image_buffer(4, 3, &config).unwrap();
        for index in (0..48usize).rev() {
            place_tile(&mut backwards, &batch[index], index, &config);
        }
        assert_eq!(backwards.into_samples(), expected);
        let mut shuffled = create_image_buffer(4, 3, &config).unwrap();
        for step in 0..48usize {
            let index = (step * 29 + 11) % 48;
            place_tile(&mut shuffled, &batch[index], index, &config);
        }
        assert_eq!(shuffled.into_samples(), expected);
    }
}

#[test]
fn place_tile_changes_its_cell_only() {
    let config = forward();
    let mut canvas = create_image_buffer(2, 2, &config).unwrap();
    place_tile(&mut canvas, &tile(0, 2, 2), 9, &config);
    for y in 0..12 {
        for x in 0..16 {
            let expected = if (2..4).contains(&x) && (2..4).contains(&y) {
                tile_pixel(0, x - 2, y - 2)
            } else {
                clear()
            };
            assert_eq!(canvas.get_pixel(x, y), Some(expected));
        }
    }
    place_tile(&mut canvas, &tile(5, 2, 2), 9, &config);
    assert_eq!(canvas.get_pixel(3, 2), Some(tile_pixel(5, 1, 0)));
    assert_eq!(canvas.get_pixel(4, 2), Some(clear()));
}

#[test]
fn other_grids_compose_too() {
    let config = GridConfig { grid_width: 3, grid_height: 2, placement: Placement::Reversed };
    let sheet = compose(&tiles(7, 2, 1), 2, 1, &config).unwrap();
    assert_eq!(sheet.dimensions(), (6, 2));
    assert_eq!(
        sheet.into_samples(),
        vec![
            6, 0, 0, 255, 6, 1, 0, 255, 5, 0, 0, 255, 5, 1, 0, 255, 4, 0, 0, 255, 4, 1, 0, 255,
            3, 0, 0, 255, 3, 1, 0, 255, 2, 0, 0, 255, 2, 1, 0, 255, 1, 0, 0, 255, 1, 1, 0, 255,
        ]
    );
}

#[test]
fn a_tile_of_another_size_is_refused() {
    let mut batch = tiles(10, 4, 4);
    batch[6] = tile(6, 4, 5);
    batch[8] = tile(8, 3, 4);
    assert_eq!(
        compose(&batch, 4, 4, &forward()).unwrap_err(),
        ComposeError::TileSizeMismatch { index: 6 }
    );
    assert_eq!(
        compose(&tiles(3, 4, 4), 4, 5, &forward()).unwrap_err(),
        ComposeError::TileSizeMismatch { index: 0 }
    );
}

#[test]
fn a_canvas_beyond_the_limits_is_refused() {
    assert_eq!(
        compose(&Vec::new(), 536870912, 1, &forward()).unwrap_err(),
        ComposeError::CanvasTooLarge
    );
    assert_eq!(
        compose(&tiles(1, 2, 2), 1, 715827883, &forward()).unwrap_err(),
        ComposeError::CanvasTooLarge
    );
    assert_eq!(
        compose(&Vec::new(), 536870911, 715827882, &forward()).unwrap_err(),
        ComposeError::CanvasTooLarge
    );
    assert!(create_image_buffer(536870911, 715827882, &forward()).is_none());
    assert!(create_image_buffer(536870912, 1, &forward()).is_none());
}

#[test]
fn tiles_without_pixels_give_a_sheet_without_pixels() {
    let batch = vec![Raster::new(0, 3).unwrap(), Raster::new(0, 3).unwrap()];
    let sheet = compose(&batch, 0, 3, &forward()).unwrap();
    assert_eq!(sheet.dimensions(), (0, 18));
    assert_eq!(sheet.get_pixel(0, 0), None);
    assert_eq!(sheet.into_samples(), Vec::<u8>::new());
}

#[test]
fn a_grid_without_cells_uses_no_tile() {
    let config = GridConfig { grid_width: 0, grid_height: 6, placement: Placement::Forward };
    assert_eq!(tiles_used(5, &config), 0);
    let sheet = compose(&tiles(5, 2, 2), 2, 2, &config).unwrap();
    assert_eq!(sheet.dimensions(), (0, 12));
}

#[test]
fn sheet_matches_the_image_crate_pixel_by_pixel() {
    let mut sources = Vec::new();
    let mut batch = Vec::new();
    for index in 0..48u32 {
        let img = image::RgbaImage::from_fn(3, 2, |x, y| {
            image::Rgba([index as u8, (x * 40) as u8, (y * 90) as u8, 200])
        });
        batch.push(Raster::from_samples(3, 2, img.clone().into_raw()).unwrap());
        sources.push(img);
    }
    let sheet = compose(&batch, 3, 2, &reversed()).unwrap();
    let (width, height) = sheet.dimensions();
    let out = image::RgbaImage::from_raw(width, height, sheet.into_samples()).unwrap();
    for (i, img) in sources.iter().enumerate() {
        let x0 = (8 - 1 - (i as u32 % 8)) * 3;
        let y0 = (6 - 1 - (i as u32 / 8)) * 2;
        for (x, y, pixel) in img.enumerate_pixels() {
            assert_eq!(out.get_pixel(x0 + x, y0 + y), pixel);
        }
    }
}

#[test]
fn a_wide_canvas_without_rows_needs_countable_rows() {
    let countable = (1u128 << 32) <= usize::MAX as u128;
    assert_eq!(compose(&[], 1 << 27, 0, &forward()).is_ok(), countable);
    assert_eq!(create_image_buffer(1 << 27, 0, &forward()).is_some(), countable);
    let sheet = compose(&[], (1 << 27) - 1, 0, &forward()).unwrap();
    assert_eq!(sheet.dimensions(), (0x3fff_fff8, 0));
}
