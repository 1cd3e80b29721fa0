//! Approximates a grayscale raster image by a mosaic of fixed-size glyph
//! bitmaps: the image is tiled into glyph-sized cells, each cell gets a
//! three-component visual signature (brightness, horizontal edge energy,
//! vertical edge energy), both the cell signatures and the glyph signatures
//! are normalized onto a common scale, and every cell is assigned the glyph
//! whose signature is nearest under a weighted squared distance.

pub mod codec;
pub mod compose;
pub mod extract;
pub mod glyphs;
pub mod gray;
pub mod matcher;
pub mod normalize;
pub mod pipeline;
pub mod sig;
