//! Decoder for the photographs held in a Game Boy Camera cartridge's save RAM.
//!
//! A photo is stored as a grid of Game Boy tiles, each tile two interleaved
//! bitplanes. The library turns a photo slot of a save-RAM dump into a flat
//! four-level grayscale raster and renders that raster as a binary PGM file.
//!
//! - [`layout`]: the tile grid, and the raster index of each tile pixel.
//! - [`bitplane`]: the gray level that two bitplane bytes hold at a bit.
//! - [`raster`]: the image raster.
//! - [`save_ram`]: the photo slots of a save RAM, decoded tile by tile.
//! - [`pgm`]: the image file of a raster, its name and its content.
//! - [`decimal`]: decimal notation, for the file's name and header.

pub mod bitplane;
pub mod decimal;
pub mod layout;
pub mod pgm;
pub mod raster;
pub mod save_ram;
