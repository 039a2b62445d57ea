use obscurus::layout::{
    image_raster_pixel_index_from_tile, IMAGE_HEIGHT, IMAGE_RASTER_SIZE, IMAGE_WIDTH,
    PHOTO_TILE_COUNT, PHOTO_TILE_HEIGHT, PHOTO_TILE_WIDTH, TILE_SIDES,
};

#[test]
fn test_image_raster_pixel_index_from_tile() {
    assert_eq!(image_raster_pixel_index_from_tile(8, 8, 8), 1096);
}

#[test]
fn test_photo_dimensions() {
    assert_eq!(PHOTO_TILE_WIDTH, 16);
    assert_eq!(PHOTO_TILE_HEIGHT, 14);
    assert_eq!(TILE_SIDES, 8);
    assert_eq!(PHOTO_TILE_COUNT, 224);
    assert_eq!(IMAGE_WIDTH, 128);
    assert_eq!(IMAGE_HEIGHT, 112);
    assert_eq!(IMAGE_RASTER_SIZE, 14336);
}

#[test]
fn test_pixel_index_of_first_tile() {
    assert_eq!(image_raster_pixel_index_from_tile(0, 0, 0), 0);
    assert_eq!(image_raster_pixel_index_from_tile(0, 7, 0), 7);
    assert_eq!(image_raster_pixel_index_from_tile(0, 0, 1), 128);
    assert_eq!(image_raster_pixel_index_from_tile(0, 7, 7), 903);
}

#[test]
fn test_pixel_index_moves_right_then_down() {
    assert_eq!(image_raster_pixel_index_from_tile(1, 0, 0), 8);
    assert_eq!(image_raster_pixel_index_from_tile(15, 7, 0), 127);
    assert_eq!(image_raster_pixel_index_from_tile(16, 0, 0), 1024);
    assert_eq!(image_raster_pixel_index_from_tile(17, 3, 2), 1024 + 2 * 128 + 8 + 3);
}

#[test]
fn test_pixel_index_of_last_pixel() {
    assert_eq!(image_raster_pixel_index_from_tile(223, 7, 7), 14335);
}

#[test]
fn test_pixel_index_is_one_to_one() {
    let mut seen: Vec<bool> = vec![false; IMAGE_RASTER_SIZE];
    for tile in 0..PHOTO_TILE_COUNT {
        for y in 0..TILE_SIDES {
            for x in 0..TILE_SIDES {
                let index: usize = image_raster_pixel_index_from_tile(tile, x, y);
                assert!(index < IMAGE_RASTER_SIZE);
                assert!(!seen[index]);
                seen[index] = true;
            }
        }
    }
    assert!(seen.iter().all(|&hit| hit));
}
