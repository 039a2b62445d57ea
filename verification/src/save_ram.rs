//! Photo slots of a Game Boy Camera save-RAM dump, and their decoding into an
//! image raster.
//!
//! The dump holds `PHOTO_COUNT` photo slots at fixed positions. A slot starts
//! with the photo's tiles, one after the other in row-major order of the tile
//! grid, each tile `TILE_SIZE` bytes: two bitplane bytes for each of its rows,
//! top row first.

use crate::bitplane::{
    lemma_pixel_level_range, pixel_level, pixel_value_from_bitplanes, MAX_LEVEL,
};
use crate::layout::{
    image_raster_pixel_index_from_tile, is_tile_pixel, lemma_pixel_index_in_raster,
    lemma_pixel_index_inverse, lemma_raster_index_is_tile_pixel, pixel_index, pixel_tile, pixel_x,
    pixel_y, IMAGE_RASTER_SIZE, PHOTO_TILE_COUNT, TILE_SIDES,
};
use crate::raster::{is_raster, ImageRaster};
use vstd::prelude::*;
use vstd::slice::slice_subrange;

verus! {

/// Position, in the save RAM, of the first photo slot.
pub const FIRST_PHOTO_POSITION: usize = 0x2000;

/// Distance, in bytes, from one photo slot to the next.
pub const PHOTO_OFFSET: usize = 0x1000;

/// Number of photo slots in the save RAM.
pub const PHOTO_COUNT: usize = 30;

/// Size of an encoded tile, in bytes.
pub const TILE_SIZE: usize = 16;

/// Size of the tile data of one photo, in bytes.
pub const PHOTO_DATA_SIZE: usize = PHOTO_TILE_COUNT * TILE_SIZE;

/// Size of a save RAM that holds all photo slots.
pub const SAVE_RAM_SIZE: usize = FIRST_PHOTO_POSITION + PHOTO_COUNT * PHOTO_OFFSET;

/// Why the tile data of a photo could not be read from the save RAM.
#[derive(Clone, Copy, Debug, PartialEq, Eq, Structural)]
pub enum ReadError {
    /// The photo slot starts beyond the end of the save RAM.
    SeekBeyondEnd,
    /// The save RAM ends before the end of tile `tile`: the tiles before it
    /// were read whole.
    ShortRead { tile: usize },
}

/// Position, in the save RAM, of photo slot `photo_index`.
pub open spec fn photo_position(photo_index: int) -> int {
    FIRST_PHOTO_POSITION + PHOTO_OFFSET * photo_index
}

/// Position, in the save RAM, of tile `tile_index` of photo slot
/// `photo_index`.
pub open spec fn tile_position(photo_index: int, tile_index: int) -> int {
    photo_position(photo_index) + TILE_SIZE * tile_index
}

/// Bytes of tile `tile_index` of photo slot `photo_index`.
pub open spec fn photo_tile(save_ram: Seq<u8>, photo_index: int, tile_index: int) -> Seq<u8> {
    save_ram.subrange(
        tile_position(photo_index, tile_index),
        tile_position(photo_index, tile_index) + TILE_SIZE,
    )
}

/// Gray level of the pixel at column `x`, row `y` of an encoded tile. Row `y`
/// is the byte pair at `2 * y`; the leftmost column is the highest bit.
pub open spec fn tile_pixel(tile: Seq<u8>, x: int, y: int) -> u8 {
    pixel_level(tile[2 * y], tile[2 * y + 1], (TILE_SIDES - 1 - x) as nat) as u8
}

/// Gray level of the pixel at raster index `index` of photo slot
/// `photo_index`.
pub open spec fn photo_pixel(save_ram: Seq<u8>, photo_index: int, index: int) -> u8 {
    tile_pixel(
        photo_tile(save_ram, photo_index, pixel_tile(index)),
        pixel_x(index),
        pixel_y(index),
    )
}

/// The raster `before` with tile `tile_index` overwritten by the pixels of
/// the encoded tile `tile`.
pub open spec fn raster_with_tile(before: Seq<u8>, tile: Seq<u8>, tile_index: int) -> Seq<u8> {
    Seq::new(
        IMAGE_RASTER_SIZE as nat,
        |index: int|
            if pixel_tile(index) == tile_index {
                tile_pixel(tile, pixel_x(index), pixel_y(index))
            } else {
                before[index]
            },
    )
}

/// The raster `before` with its first `tiles` tiles overwritten by those of
/// photo slot `photo_index`.
pub open spec fn raster_after_tiles(
    before: Seq<u8>,
    save_ram: Seq<u8>,
    photo_index: int,
    tiles: int,
) -> Seq<u8> {
    Seq::new(
        IMAGE_RASTER_SIZE as nat,
        |index: int|
            if pixel_tile(index) < tiles {
                photo_pixel(save_ram, photo_index, index)
            } else {
                before[index]
            },
    )
}

/// The raster of photo slot `photo_index`.
pub open spec fn photo_raster(save_ram: Seq<u8>, photo_index: int) -> Seq<u8> {
    Seq::new(IMAGE_RASTER_SIZE as nat, |index: int| photo_pixel(save_ram, photo_index, index))
}

/// Number of tiles of photo slot `photo_index` that a save RAM of `length`
/// bytes holds whole.
pub open spec fn whole_tiles(length: int, photo_index: int) -> int {
    if length < photo_position(photo_index) {
        0
    } else if length >= photo_position(photo_index) + PHOTO_DATA_SIZE {
        PHOTO_TILE_COUNT as int
    } else {
        (length - photo_position(photo_index)) / TILE_SIZE as int
    }
}

/// What reading photo slot `photo_index` from a save RAM of `length` bytes
/// comes to.
pub open spec fn read_outcome(length: int, photo_index: int) -> Result<(), ReadError> {
    if length < photo_position(photo_index) {
        Err(ReadError::SeekBeyondEnd)
    } else if length < photo_position(photo_index) + PHOTO_DATA_SIZE {
        Err(ReadError::ShortRead { tile: whole_tiles(length, photo_index) as usize })
    } else {
        Ok(())
    }
}

/// The tile data of a photo slot ends before the next slot starts.
pub proof fn lemma_photo_slots_apart(photo_a: int, photo_b: int)
    requires
        0 <= photo_a < photo_b,
    ensures
        photo_position(photo_a) + PHOTO_DATA_SIZE <= photo_position(photo_b),
{
}

/// Two save RAMs that hold the same bytes in the tile data of a photo slot
/// hold the same photo there, whatever else they hold.
pub proof fn lemma_photo_raster_reads_its_slot(
    save_ram_a: Seq<u8>,
    save_ram_b: Seq<u8>,
    photo_index: int,
)
    requires
        0 <= photo_index,
        save_ram_a.len() >= photo_position(photo_index) + PHOTO_DATA_SIZE,
        save_ram_b.len() >= photo_position(photo_index) + PHOTO_DATA_SIZE,
        forall|position: int|
            photo_position(photo_index) <= position < photo_position(photo_index) + PHOTO_DATA_SIZE
                ==> save_ram_a[position] == save_ram_b[position],
    ensures
        photo_raster(save_ram_a, photo_index) == photo_raster(save_ram_b, photo_index),
{
    assert forall|index: int| 0 <= index < IMAGE_RASTER_SIZE implies photo_pixel(
        save_ram_a,
        photo_index,
        index,
    ) == photo_pixel(save_ram_b, photo_index, index) by {
        lemma_raster_index_is_tile_pixel(index);
        assert(photo_tile(save_ram_a, photo_index, pixel_tile(index)) =~= photo_tile(
            save_ram_b,
            photo_index,
            pixel_tile(index),
        ));
    }
    assert(photo_raster(save_ram_a, photo_index) =~= photo_raster(save_ram_b, photo_index));
}

/// Once all tiles of a photo slot are decoded, nothing of what the raster
/// held before is left in it.
pub proof fn lemma_all_tiles_overwrite_raster(
    before: Seq<u8>,
    save_ram: Seq<u8>,
    photo_index: int,
)
    ensures
        raster_after_tiles(before, save_ram, photo_index, PHOTO_TILE_COUNT as int) == photo_raster(
            save_ram,
            photo_index,
        ),
{
    assert forall|index: int| 0 <= index < IMAGE_RASTER_SIZE implies pixel_tile(index)
        < PHOTO_TILE_COUNT by {
        lemma_raster_index_is_tile_pixel(index);
    }
    assert(raster_after_tiles(before, save_ram, photo_index, PHOTO_TILE_COUNT as int)
        =~= photo_raster(save_ram, photo_index));
}

/// In the raster of a photo slot, each pixel of each tile has the gray
/// level that the tile's bytes encode for it.
pub proof fn lemma_photo_raster_pixel(
    save_ram: Seq<u8>,
    photo_index: int,
    tile_index: int,
    x: int,
    y: int,
)
    requires
        is_tile_pixel(tile_index, x, y),
    ensures
        0 <= pixel_index(tile_index, x, y) < IMAGE_RASTER_SIZE,
        photo_raster(save_ram, photo_index)[pixel_index(tile_index, x, y)] == tile_pixel(
            photo_tile(save_ram, photo_index, tile_index),
            x,
            y,
        ),
{
    lemma_pixel_index_in_raster(tile_index, x, y);
    lemma_pixel_index_inverse(tile_index, x, y);
}

/// The raster of a photo slot holds one gray level for each pixel.
pub proof fn lemma_photo_raster_is_raster(save_ram: Seq<u8>, photo_index: int)
    ensures
        is_raster(photo_raster(save_ram, photo_index)),
{
    assert forall|index: int| 0 <= index < IMAGE_RASTER_SIZE implies #[trigger] photo_raster(
        save_ram,
        photo_index,
    )[index] <= MAX_LEVEL by {
        let tile = photo_tile(save_ram, photo_index, pixel_tile(index));
        lemma_pixel_level_range(
            tile[2 * pixel_y(index)],
            tile[2 * pixel_y(index) + 1],
            (TILE_SIDES - 1 - pixel_x(index)) as nat,
        );
    }
}

/// Reading a photo slot succeeds exactly if the save RAM holds all of the
/// slot's tile data, and a save RAM too short for one slot is too short for
/// every later one.
pub proof fn lemma_read_outcome(length: int, photo_a: int, photo_b: int)
    requires
        0 <= photo_a <= photo_b,
    ensures
        read_outcome(length, photo_a) is Ok <==> length >= photo_position(photo_a)
            + PHOTO_DATA_SIZE,
        read_outcome(length, photo_a) is Err ==> read_outcome(length, photo_b) is Err,
{
}

/// A save RAM of full size holds every photo slot whole.
pub proof fn lemma_full_save_ram_is_read(length: int, photo_index: int)
    requires
        length >= SAVE_RAM_SIZE,
        0 <= photo_index < PHOTO_COUNT,
    ensures
        read_outcome(length, photo_index) is Ok,
{
}

/// The raster `before` with the first pixels of tile `tile_index`
/// overwritten by those of the encoded tile `tile`: the rows above row `y`
/// and, of row `y`, the pixels held at the bits below `k`.
spec fn raster_with_tile_part(
    before: Seq<u8>,
    tile: Seq<u8>,
    tile_index: int,
    y: int,
    k: int,
) -> Seq<u8> {
    Seq::new(
        IMAGE_RASTER_SIZE as nat,
        |index: int|
            if pixel_tile(index) == tile_index && (pixel_y(index) < y || (pixel_y(index) == y
                && pixel_x(index) > TILE_SIDES - 1 - k)) {
                tile_pixel(tile, pixel_x(index), pixel_y(index))
            } else {
                before[index]
            },
    )
}

/// Decodes the encoded tile `tile` into the place of tile `tile_index` in
/// the image raster. The rest of the raster stays as it is.
pub fn image_raster_tile_from_bytes(
    tile: &[u8],
    image_raster: &mut ImageRaster,
    tile_index: usize,
)
    requires
        tile@.len() == TILE_SIZE,
        old(image_raster).wf(),
        tile_index < PHOTO_TILE_COUNT,
    ensures
        final(image_raster).wf(),
        final(image_raster)@ == raster_with_tile(old(image_raster)@, tile@, tile_index as int),
{
    let ghost before = image_raster@;
    let mut y: usize = 0;
    assert(image_raster@ =~= raster_with_tile_part(before, tile@, tile_index as int, 0, 0));
    while y < TILE_SIDES
        invariant
            y <= TILE_SIDES,
            tile@.len() == TILE_SIZE,
            tile_index < PHOTO_TILE_COUNT,
            before.len() == IMAGE_RASTER_SIZE,
            image_raster.wf(),
            image_raster@ == raster_with_tile_part(before, tile@, tile_index as int, y as int, 0),
        decreases TILE_SIDES - y,
    {
        let low: u8 = tile[2 * y];
        let high: u8 = tile[2 * y + 1];
        let mut k: u8 = 0;
        while k < 8
            invariant
                k <= 8,
                y < TILE_SIDES,
                tile@.len() == TILE_SIZE,
                low == tile@[2 * y],
                high == tile@[2 * y + 1],
                tile_index < PHOTO_TILE_COUNT,
                before.len() == IMAGE_RASTER_SIZE,
                image_raster.wf(),
                image_raster@ == raster_with_tile_part(
                    before,
                    tile@,
                    tile_index as int,
                    y as int,
                    k as int,
                ),
            decreases 8 - k,
        {
            let x: usize = TILE_SIDES - 1 - k as usize;
            let level: u8 = pixel_value_from_bitplanes(low, high, k);
            proof {
                lemma_pixel_index_in_raster(tile_index as int, x as int, y as int);
                lemma_pixel_index_inverse(tile_index as int, x as int, y as int);
            }
            let pixel: usize = image_raster_pixel_index_from_tile(tile_index, x, y);
            image_raster.set_pixel(pixel, level);
            proof {
                let after = raster_with_tile_part(
                    before,
                    tile@,
                    tile_index as int,
                    y as int,
                    k + 1,
                );
                assert forall|index: int| 0 <= index < IMAGE_RASTER_SIZE implies image_raster@[index]
                    == after[index] by {
                    lemma_raster_index_is_tile_pixel(index);
                }
                assert(image_raster@ =~= after);
            }
            k += 1;
        }
        proof {
            let after = raster_with_tile_part(before, tile@, tile_index as int, y + 1, 0);
            assert forall|index: int| 0 <= index < IMAGE_RASTER_SIZE implies image_raster@[index]
                == after[index] by {
                lemma_raster_index_is_tile_pixel(index);
            }
            assert(image_raster@ =~= after);
        }
        y += 1;
    }
    proof {
        let after = raster_with_tile(before, tile@, tile_index as int);
        assert forall|index: int| 0 <= index < IMAGE_RASTER_SIZE implies image_raster@[index]
            == after[index] by {
            lemma_raster_index_is_tile_pixel(index);
        }
        assert(image_raster@ =~= after);
    }
}

/// Decodes photo slot `photo_index` of a Game Boy Camera save RAM into the
/// image raster. A valid index is between 0 and `PHOTO_COUNT - 1`.
///
/// The tiles are read one after the other from the position of the slot and
/// decoded as they come. Where the save RAM ends before the last tile, the
/// tiles that it holds whole have been decoded into the raster, the rest of
/// the raster is as it was, and the result says at which tile reading failed.
pub fn image_raster_from_game_boy_save_ram(
    save_ram: &[u8],
    image_raster: &mut ImageRaster,
    photo_index: usize,
) -> (result: Result<(), ReadError>)
    requires
        old(image_raster).wf(),
        photo_index < PHOTO_COUNT,
    ensures
        final(image_raster).wf(),
        result == read_outcome(save_ram@.len() as int, photo_index as int),
        result is Ok <==> save_ram@.len() >= photo_position(photo_index as int) + PHOTO_DATA_SIZE,
        result is Ok ==> final(image_raster)@ == photo_raster(save_ram@, photo_index as int),
        final(image_raster)@ == raster_after_tiles(
            old(image_raster)@,
            save_ram@,
            photo_index as int,
            whole_tiles(save_ram@.len() as int, photo_index as int),
        ),
{
    let ghost before = image_raster@;
    let position: usize = FIRST_PHOTO_POSITION + PHOTO_OFFSET * photo_index;
    if save_ram.len() < position {
        assert(image_raster@ =~= raster_after_tiles(before, save_ram@, photo_index as int, 0));
        return Err(ReadError::SeekBeyondEnd);
    }
    let mut i: usize = 0;
    while i < PHOTO_TILE_COUNT
        invariant
            i <= PHOTO_TILE_COUNT,
            photo_index < PHOTO_COUNT,
            position == photo_position(photo_index as int),
            position + TILE_SIZE * i <= save_ram@.len(),
            before == old(image_raster)@,
            before.len() == IMAGE_RASTER_SIZE,
            image_raster.wf(),
            image_raster@ == raster_after_tiles(before, save_ram@, photo_index as int, i as int),
        decreases PHOTO_TILE_COUNT - i,
    {
        let start: usize = position + TILE_SIZE * i;
        if save_ram.len() - start < TILE_SIZE {
            assert(whole_tiles(save_ram@.len() as int, photo_index as int) == i) by {
                let rest = save_ram@.len() - position;
                assert(TILE_SIZE * i <= rest < TILE_SIZE * i + TILE_SIZE);
                assert(rest / TILE_SIZE as int == i);
            }
            return Err(ReadError::ShortRead { tile: i });
        }
        let tile: &[u8] = slice_subrange(save_ram, start, start + TILE_SIZE);
        image_raster_tile_from_bytes(tile, image_raster, i);
        assert(image_raster@ =~= raster_after_tiles(
            before,
            save_ram@,
            photo_index as int,
            i + 1,
        ));
        i += 1;
    }
    proof {
        lemma_all_tiles_overwrite_raster(before, save_ram@, photo_index as int);
    }
    Ok(())
}

} // verus!
