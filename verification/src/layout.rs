//! Geometry of a photo: the tile grid and the place of each tile pixel in the
//! flat image raster.

use vstd::prelude::*;

verus! {

/// Number of tiles in one row of a photo.
pub const PHOTO_TILE_WIDTH: usize = 16;

/// Number of tile rows in a photo.
pub const PHOTO_TILE_HEIGHT: usize = 14;

/// Width and height of a tile, in pixels.
pub const TILE_SIDES: usize = 8;

/// Number of tiles in a photo.
pub const PHOTO_TILE_COUNT: usize = PHOTO_TILE_WIDTH * PHOTO_TILE_HEIGHT;

/// Width of a photo, in pixels.
pub const IMAGE_WIDTH: usize = PHOTO_TILE_WIDTH * TILE_SIDES;

/// Height of a photo, in pixels.
pub const IMAGE_HEIGHT: usize = PHOTO_TILE_HEIGHT * TILE_SIDES;

/// Number of pixels in a photo.
pub const IMAGE_RASTER_SIZE: usize = PHOTO_TILE_WIDTH * PHOTO_TILE_HEIGHT * TILE_SIDES * TILE_SIDES;

/// Raster index of the pixel at column `x`, row `y` of tile `tile_index`.
///
/// Tiles are laid out row by row, `PHOTO_TILE_WIDTH` to a row; the raster is
/// row-major over the whole image.
pub open spec fn pixel_index(tile_index: int, x: int, y: int) -> int {
    let image_x = x + (tile_index % PHOTO_TILE_WIDTH as int) * TILE_SIDES as int;
    let image_y = y + (tile_index / PHOTO_TILE_WIDTH as int) * TILE_SIDES as int;
    IMAGE_WIDTH as int * image_y + image_x
}

/// Returns the image raster index of a pixel, given its tile and its
/// coordinates within the tile.
pub fn image_raster_pixel_index_from_tile(tile_index: usize, x: usize, y: usize) -> (index: usize)
    requires
        pixel_index(tile_index as int, x as int, y as int) <= usize::MAX,
    ensures
        index == pixel_index(tile_index as int, x as int, y as int),
{
    let image_x: usize = x + (tile_index % PHOTO_TILE_WIDTH) * TILE_SIDES;
    let image_y: usize = y + (tile_index / PHOTO_TILE_WIDTH) * TILE_SIDES;
    PHOTO_TILE_WIDTH * TILE_SIDES * image_y + image_x
}

/// Whether `(tile_index, x, y)` names a pixel of a photo: a tile of the grid
/// and a position inside it.
pub open spec fn is_tile_pixel(tile_index: int, x: int, y: int) -> bool {
    &&& 0 <= tile_index < PHOTO_TILE_COUNT
    &&& 0 <= x < TILE_SIDES
    &&& 0 <= y < TILE_SIDES
}

/// Tile that holds the pixel at raster index `index`.
pub open spec fn pixel_tile(index: int) -> int {
    let image_x = index % IMAGE_WIDTH as int;
    let image_y = index / IMAGE_WIDTH as int;
    (image_y / TILE_SIDES as int) * PHOTO_TILE_WIDTH as int + image_x / TILE_SIDES as int
}

/// Column, within its tile, of the pixel at raster index `index`.
pub open spec fn pixel_x(index: int) -> int {
    (index % IMAGE_WIDTH as int) % TILE_SIDES as int
}

/// Row, within its tile, of the pixel at raster index `index`.
pub open spec fn pixel_y(index: int) -> int {
    (index / IMAGE_WIDTH as int) % TILE_SIDES as int
}

/// Every pixel of every tile has a raster index inside the raster.
pub proof fn lemma_pixel_index_in_raster(tile_index: int, x: int, y: int)
    requires
        is_tile_pixel(tile_index, x, y),
    ensures
        0 <= pixel_index(tile_index, x, y) < IMAGE_RASTER_SIZE,
{
}

/// The tile and the coordinates of a pixel can be read back from its raster
/// index.
pub proof fn lemma_pixel_index_inverse(tile_index: int, x: int, y: int)
    requires
        is_tile_pixel(tile_index, x, y),
    ensures
        pixel_tile(pixel_index(tile_index, x, y)) == tile_index,
        pixel_x(pixel_index(tile_index, x, y)) == x,
        pixel_y(pixel_index(tile_index, x, y)) == y,
{
}

/// Every raster index is the index of a tile pixel, namely of the one that
/// `pixel_tile`, `pixel_x` and `pixel_y` give for it.
pub proof fn lemma_raster_index_is_tile_pixel(index: int)
    requires
        0 <= index < IMAGE_RASTER_SIZE,
    ensures
        is_tile_pixel(pixel_tile(index), pixel_x(index), pixel_y(index)),
        pixel_index(pixel_tile(index), pixel_x(index), pixel_y(index)) == index,
{
}

/// No two tile pixels share a raster index.
pub proof fn lemma_pixel_index_injective(
    tile_a: int,
    x_a: int,
    y_a: int,
    tile_b: int,
    x_b: int,
    y_b: int,
)
    requires
        is_tile_pixel(tile_a, x_a, y_a),
        is_tile_pixel(tile_b, x_b, y_b),
        pixel_index(tile_a, x_a, y_a) == pixel_index(tile_b, x_b, y_b),
    ensures
        tile_a == tile_b,
        x_a == x_b,
        y_a == y_b,
{
    lemma_pixel_index_inverse(tile_a, x_a, y_a);
    lemma_pixel_index_inverse(tile_b, x_b, y_b);
}

/// Every raster index is the index of some tile pixel: together with
/// injectivity, the tile pixels and the raster indices correspond one to one.
pub proof fn lemma_pixel_index_surjective(index: int)
    requires
        0 <= index < IMAGE_RASTER_SIZE,
    ensures
        exists|tile_index: int, x: int, y: int|
            is_tile_pixel(tile_index, x, y) && #[trigger] pixel_index(tile_index, x, y) == index,
{
    lemma_raster_index_is_tile_pixel(index);
    assert(pixel_index(pixel_tile(index), pixel_x(index), pixel_y(index)) == index);
}

} // verus!
