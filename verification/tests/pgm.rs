use obscurus::decimal::{append_decimal, decimal_digits_of, push_decimal_ascii};
use obscurus::layout::IMAGE_RASTER_SIZE;
use obscurus::pgm::{
    pgm_from_image_raster, pgm_open_and_initialize, PgmFile, LEVEL_STEP, MAX_SAMPLE,
    PGM_HEADER_SIZE,
};
use obscurus::raster::ImageRaster;
use obscurus::save_ram::image_raster_from_game_boy_save_ram;

#[test]
fn test_decimal_digits_of_small_numbers() {
    assert_eq!(decimal_digits_of(0), vec![0]);
    assert_eq!(decimal_digits_of(7), vec![7]);
    assert_eq!(decimal_digits_of(9), vec![9]);
    assert_eq!(decimal_digits_of(10), vec![1, 0]);
}

#[test]
fn test_decimal_digits_of_large_numbers() {
    assert_eq!(decimal_digits_of(128), vec![1, 2, 8]);
    assert_eq!(decimal_digits_of(1096), vec![1, 0, 9, 6]);
    assert_eq!(decimal_digits_of(4294967295), vec![4, 2, 9, 4, 9, 6, 7, 2, 9, 5]);
}

#[test]
fn test_decimal_digits_agree_with_formatting() {
    for n in 0..2000usize {
        let mut text: String = String::new();
        append_decimal(&mut text, n);
        assert_eq!(text, format!("{}", n));
    }
}

#[test]
fn test_append_decimal_keeps_what_was_there() {
    let mut text: String = String::from("slot ");
    append_decimal(&mut text, 30);
    assert_eq!(text, "slot 30");
}

#[test]
fn test_push_decimal_ascii() {
    let mut text: Vec<u8> = vec![0x23];
    push_decimal_ascii(&mut text, 255);
    assert_eq!(text, vec![0x23, 0x32, 0x35, 0x35]);
    push_decimal_ascii(&mut text, 0);
    assert_eq!(text, vec![0x23, 0x32, 0x35, 0x35, 0x30]);
}

#[test]
fn test_pgm_constants() {
    assert_eq!(MAX_SAMPLE, 255);
    assert_eq!(LEVEL_STEP, 85);
    assert_eq!(PGM_HEADER_SIZE, 15);
}

#[test]
fn test_header() {
    let file: PgmFile = pgm_open_and_initialize("image", 1);
    assert_eq!(file.contents, b"P5\n128 112\n255\n".to_vec());
    assert_eq!(file.contents.len(), PGM_HEADER_SIZE);
}

#[test]
fn test_file_name() {
    assert_eq!(pgm_open_and_initialize("image", 1).name, "image-1.pgm");
    assert_eq!(pgm_open_and_initialize("image", 30).name, "image-30.pgm");
    assert_eq!(pgm_open_and_initialize("photo", 0).name, "photo-0.pgm");
    assert_eq!(pgm_open_and_initialize("", 12345).name, "-12345.pgm");
}

#[test]
fn test_files_are_numbered_from_one() {
    let raster: ImageRaster = ImageRaster::new();
    assert_eq!(pgm_from_image_raster(&raster, 0).name, "image-1.pgm");
    assert_eq!(pgm_from_image_raster(&raster, 9).name, "image-10.pgm");
    assert_eq!(pgm_from_image_raster(&raster, 29).name, "image-30.pgm");
}

#[test]
fn test_file_of_a_new_raster() {
    let raster: ImageRaster = ImageRaster::new();
    let file: PgmFile = pgm_from_image_raster(&raster, 0);
    assert_eq!(file.contents.len(), 15 + IMAGE_RASTER_SIZE);
    assert_eq!(&file.contents[..15], b"P5\n128 112\n255\n");
    assert!(file.contents[15..].iter().all(|&sample| sample == 0));
}

#[test]
fn test_levels_are_spread_over_the_sample_range() {
    let mut raster: ImageRaster = ImageRaster::new();
    raster.set_pixel(0, 0);
    raster.set_pixel(1, 1);
    raster.set_pixel(2, 2);
    raster.set_pixel(3, 3);
    raster.set_pixel(IMAGE_RASTER_SIZE - 1, 3);
    let file: PgmFile = pgm_from_image_raster(&raster, 0);
    assert_eq!(&file.contents[15..19], &[0u8, 85, 170, 255]);
    assert_eq!(file.contents[15 + IMAGE_RASTER_SIZE - 1], 255);
    assert_eq!(file.contents[15 + IMAGE_RASTER_SIZE - 2], 0);
}

#[test]
fn test_samples_are_one_of_four_values() {
    let mut save_ram: Vec<u8> = vec![0u8; 0x20000];
    for (position, byte) in save_ram.iter_mut().enumerate() {
        *byte = (position * 13 + position / 5) as u8;
    }
    let mut raster: ImageRaster = ImageRaster::new();
    let mut seen: [bool; 256] = [false; 256];
    for slot in 0..30 {
        assert_eq!(image_raster_from_game_boy_save_ram(&save_ram, &mut raster, slot), Ok(()));
        let file: PgmFile = pgm_from_image_raster(&raster, slot);
        for &sample in file.contents[15..].iter() {
            seen[sample as usize] = true;
        }
    }
    for sample in 0..256usize {
        assert_eq!(seen[sample], sample == 0 || sample == 85 || sample == 170 || sample == 255);
    }
}

#[test]
fn test_file_of_a_decoded_photo() {
    // Slot 1: tile 0 darkest, everything else brightest.
    let mut save_ram: Vec<u8> = vec![0u8; 0x20000];
    for byte in save_ram[0x3000..0x3010].iter_mut() {
        *byte = 0xff;
    }
    let mut raster: ImageRaster = ImageRaster::new();
    assert_eq!(image_raster_from_game_boy_save_ram(&save_ram, &mut raster, 1), Ok(()));
    let file: PgmFile = pgm_from_image_raster(&raster, 1);
    assert_eq!(file.name, "image-2.pgm");
    assert_eq!(file.contents.len(), 14351);
    for index in 0..IMAGE_RASTER_SIZE {
        let in_first_tile: bool = index % 128 < 8 && index / 128 < 8;
        assert_eq!(file.contents[15 + index], if in_first_tile { 0 } else { 255 });
    }
}

#[test]
fn test_same_input_gives_the_same_file() {
    let mut save_ram: Vec<u8> = vec![0u8; 0x20000];
    for (position, byte) in save_ram.iter_mut().enumerate() {
        *byte = (position * 7 + position / 3) as u8;
    }
    let mut first: ImageRaster = ImageRaster::new();
    let mut second: ImageRaster = ImageRaster::new();
    assert_eq!(image_raster_from_game_boy_save_ram(&save_ram, &mut second, 0), Ok(()));
    assert_eq!(image_raster_from_game_boy_save_ram(&save_ram, &mut first, 4), Ok(()));
    assert_eq!(image_raster_from_game_boy_save_ram(&save_ram, &mut second, 4), Ok(()));
    assert_eq!(pgm_from_image_raster(&first, 4), pgm_from_image_raster(&second, 4));
}
