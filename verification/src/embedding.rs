//! The bridge from pipeline tiles to encoder images.
use vstd::prelude::*;

use crate::encoder::{Image, PixelFormat};
use crate::tile::Tile;

verus! {

/// Adapts an encoder backend `E` to the pipeline: tiles are handed to it as
/// images (see [`tile_image`]).
pub struct EncoderEmbedder<E> {
    inner: E,
}

impl<E> EncoderEmbedder<E> {
    /// Wrap an encoder backend.
    pub fn new(inner: E) -> (r: Self)
        ensures
            r.inner() == inner,
    {
        EncoderEmbedder { inner }
    }

    /// The wrapped backend.
    pub closed spec fn inner(&self) -> E {
        self.inner
    }

    /// The wrapped backend.
    pub fn backend(&self) -> (r: &E)
        ensures
            *r == self.inner(),
    {
        &self.inner
    }
}

/// A tile as the encoder sees it: its bytes as a one-row grayscale image as
/// wide as the byte count (truncated to 32 bits).
pub fn tile_image(tile: &Tile) -> (r: Image)
    ensures
        r.pixels@ == tile.image@,
        r.width == tile.image@.len() as u32,
        r.height == 1,
        r.format == PixelFormat::Gray8,
{
    let pixels = tile.image.clone();
    let width = pixels.len() as u32;
    Image { pixels, width, height: 1, format: PixelFormat::Gray8 }
}

} // verus!
