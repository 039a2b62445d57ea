//! Rendering of an image raster as a binary PGM file.
//!
//! The file starts with three lines of ASCII text: the format's magic
//! token, the width and the height of the image, and the largest sample
//! value. One byte for each pixel follows, in raster order.

use crate::bitplane::MAX_LEVEL;
use crate::decimal::{
    append_decimal, decimal_ascii, decimal_chars, decimal_digits, push_decimal_ascii,
};
use crate::layout::{IMAGE_HEIGHT, IMAGE_RASTER_SIZE, IMAGE_WIDTH};
use crate::raster::{is_raster, ImageRaster};
use crate::save_ram::{
    lemma_all_tiles_overwrite_raster, photo_raster, raster_after_tiles, read_outcome, whole_tiles,
    PHOTO_COUNT,
};
use vstd::prelude::*;
use vstd::string::StringExecFns;

verus! {

/// Largest sample value of the image file.
pub const MAX_SAMPLE: u8 = 255;

/// Sample value of gray level one: the levels are spread evenly from zero to
/// `MAX_SAMPLE`.
pub const LEVEL_STEP: u8 = 85;

/// Length of the header, in bytes.
pub const PGM_HEADER_SIZE: usize = 15;

/// An image file to be written: its name and its content.
#[derive(Debug, PartialEq, Eq)]
pub struct PgmFile {
    /// Name of the file.
    pub name: String,
    /// Content of the file, from its first byte to its last.
    pub contents: Vec<u8>,
}

/// Name of the image file with base name `filename` and number `postfix`.
pub open spec fn pgm_file_name(filename: Seq<char>, postfix: nat) -> Seq<char> {
    filename + seq!['-'] + decimal_chars(postfix) + seq!['.', 'p', 'g', 'm']
}

/// Base name of the image files of the photo slots.
pub open spec fn image_file_base() -> Seq<char> {
    seq!['i', 'm', 'a', 'g', 'e']
}

/// Header of the image file of a photo: the token `P5`, the width and the
/// height with a space between them, and the largest sample value, each
/// line ended by a line feed.
pub open spec fn pgm_header() -> Seq<u8> {
    seq![0x50u8, 0x35u8, 0x0au8] + decimal_ascii(IMAGE_WIDTH as nat) + seq![0x20u8]
        + decimal_ascii(IMAGE_HEIGHT as nat) + seq![0x0au8] + decimal_ascii(MAX_SAMPLE as nat)
        + seq![0x0au8]
}

/// Sample value of gray level `level`.
pub open spec fn gray_sample(level: u8) -> u8 {
    (level * LEVEL_STEP) as u8
}

/// Sample values of the pixels of a raster, in raster order.
pub open spec fn gray_samples(pixels: Seq<u8>) -> Seq<u8> {
    pixels.map_values(|level: u8| gray_sample(level))
}

/// The header is the text `P5`, `128 112`, `255`, a line feed after each:
/// fifteen bytes.
pub proof fn lemma_pgm_header()
    ensures
        pgm_header() == seq![
            0x50u8,
            0x35u8,
            0x0au8,
            0x31u8,
            0x32u8,
            0x38u8,
            0x20u8,
            0x31u8,
            0x31u8,
            0x32u8,
            0x0au8,
            0x32u8,
            0x35u8,
            0x35u8,
            0x0au8,
        ],
        pgm_header().len() == PGM_HEADER_SIZE,
{
    reveal_with_fuel(decimal_digits, 3);
    assert(decimal_digits(128) =~= seq![1u8, 2u8, 8u8]);
    assert(decimal_digits(112) =~= seq![1u8, 1u8, 2u8]);
    assert(decimal_digits(255) =~= seq![2u8, 5u8, 5u8]);
    assert(decimal_ascii(128) =~= seq![0x31u8, 0x32u8, 0x38u8]);
    assert(decimal_ascii(112) =~= seq![0x31u8, 0x31u8, 0x32u8]);
    assert(decimal_ascii(255) =~= seq![0x32u8, 0x35u8, 0x35u8]);
    assert(pgm_header() =~= seq![
        0x50u8,
        0x35u8,
        0x0au8,
        0x31u8,
        0x32u8,
        0x38u8,
        0x20u8,
        0x31u8,
        0x31u8,
        0x32u8,
        0x0au8,
        0x32u8,
        0x35u8,
        0x35u8,
        0x0au8,
    ]);
}

/// The gray levels map onto the sample range from end to end: level zero
/// to sample zero, the highest level to the largest sample.
pub proof fn lemma_gray_sample_range()
    ensures
        gray_sample(0) == 0,
        gray_sample(MAX_LEVEL) == MAX_SAMPLE,
        forall|level: u8, other: u8|
            level < other <= MAX_LEVEL ==> #[trigger] gray_sample(level) < #[trigger] gray_sample(
                other,
            ),
{
}

/// Every sample of a raster is one of the four values 0, 85, 170 and 255,
/// and there is one sample for each pixel.
pub proof fn lemma_gray_samples(pixels: Seq<u8>)
    requires
        is_raster(pixels),
    ensures
        gray_samples(pixels).len() == IMAGE_RASTER_SIZE,
        forall|index: int|
            0 <= index < IMAGE_RASTER_SIZE ==> {
                let sample = #[trigger] gray_samples(pixels)[index];
                sample == 0 || sample == 85 || sample == 170 || sample == 255
            },
{
}

/// Content of the image file of photo slot `photo_index` of a save RAM.
pub open spec fn image_file_contents(save_ram: Seq<u8>, photo_index: int) -> Seq<u8> {
    pgm_header() + gray_samples(photo_raster(save_ram, photo_index))
}

/// The image file of a photo slot is determined by the save RAM and the
/// slot: where the slot is read whole, rendering the raster that it was
/// decoded into gives the same content whatever the raster held before.
pub proof fn lemma_image_file_is_determined(before: Seq<u8>, save_ram: Seq<u8>, photo_index: int)
    requires
        read_outcome(save_ram.len() as int, photo_index) is Ok,
    ensures
        pgm_header() + gray_samples(
            raster_after_tiles(
                before,
                save_ram,
                photo_index,
                whole_tiles(save_ram.len() as int, photo_index),
            ),
        ) == image_file_contents(save_ram, photo_index),
{
    lemma_all_tiles_overwrite_raster(before, save_ram, photo_index);
}

/// Names the image file with base name `filename` and number `postfix`, and
/// starts its content with the header.
pub fn pgm_open_and_initialize(filename: &str, postfix: usize) -> (file: PgmFile)
    ensures
        file.name@ == pgm_file_name(filename@, postfix as nat),
        file.contents@ == pgm_header(),
        file.contents@.len() == PGM_HEADER_SIZE,
{
    let mut name: String = String::from_str(filename);
    name.append("-");
    append_decimal(&mut name, postfix);
    name.append(".pgm");
    proof {
        reveal_strlit("-");
        reveal_strlit(".pgm");
        assert("-"@ =~= seq!['-']);
        assert(".pgm"@ =~= seq!['.', 'p', 'g', 'm']);
    }

    let mut pgm: Vec<u8> = Vec::new();
    pgm.push(0x50);
    pgm.push(0x35);
    pgm.push(0x0a);
    assert(pgm@ =~= seq![0x50u8, 0x35u8, 0x0au8]);
    push_decimal_ascii(&mut pgm, IMAGE_WIDTH);
    pgm.push(0x20);
    push_decimal_ascii(&mut pgm, IMAGE_HEIGHT);
    pgm.push(0x0a);
    push_decimal_ascii(&mut pgm, MAX_SAMPLE as usize);
    pgm.push(0x0a);
    proof {
        assert(pgm@ =~= pgm_header());
        lemma_pgm_header();
    }

    PgmFile { name, contents: pgm }
}

/// Renders the image raster of photo slot `photo_index` as the image file
/// of that slot. The files are numbered from one.
pub fn pgm_from_image_raster(image_raster: &ImageRaster, photo_index: usize) -> (file: PgmFile)
    requires
        image_raster.wf(),
        photo_index < PHOTO_COUNT,
    ensures
        file.name@ == pgm_file_name(image_file_base(), (photo_index + 1) as nat),
        file.contents@ == pgm_header() + gray_samples(image_raster@),
        file.contents@.len() == PGM_HEADER_SIZE + IMAGE_RASTER_SIZE,
        forall|index: int|
            PGM_HEADER_SIZE <= index < file.contents@.len() ==> {
                let sample = #[trigger] file.contents@[index];
                sample == 0 || sample == 85 || sample == 170 || sample == 255
            },
{
    let mut image: PgmFile = pgm_open_and_initialize("image", photo_index + 1);
    proof {
        reveal_strlit("image");
        assert("image"@ =~= image_file_base());
        lemma_pgm_header();
        lemma_gray_samples(image_raster@);
    }
    let mut i: usize = 0;
    while i < IMAGE_RASTER_SIZE
        invariant
            i <= IMAGE_RASTER_SIZE,
            image_raster.wf(),
            image.name@ == pgm_file_name(image_file_base(), (photo_index + 1) as nat),
            image.contents@ == pgm_header() + gray_samples(image_raster@).take(i as int),
        decreases IMAGE_RASTER_SIZE - i,
    {
        image.contents.push(image_raster.pixel(i) * LEVEL_STEP);
        assert(gray_samples(image_raster@).take(i + 1) =~= gray_samples(image_raster@).take(
            i as int,
        ).push(gray_sample(image_raster@[i as int])));
        i += 1;
    }
    assert(gray_samples(image_raster@).take(i as int) =~= gray_samples(image_raster@));
    image
}

} // verus!
