//! The image encoder: a pixel grid as the bytes of a PNG image.

use vstd::prelude::*;
use image::codecs::png::PngEncoder;
use image::{ExtendedColorType, ImageEncoder, ImageError};
use crate::color::{Pixel, PixelGrid};

verus! {

/// `image::ImageError`, the encoder's error, carried through as it is.
#[verifier::external_type_specification]
#[verifier::external_body]
pub struct ExImageError(image::ImageError);

/// What the PNG encoder makes of a `width` by `height` image whose pixels are
/// given as bytes, four per pixel (red, green, blue, opacity), row by row
/// from the top: the bytes of the PNG file, or `None` where it refuses the
/// image.
pub uninterp spec fn png_encoding(width: u32, height: u32, rgba: Seq<u8>) -> Option<Seq<u8>>;

/// `PngEncoder::new` on a byte vector, then `ImageEncoder::write_image` with
/// `ExtendedColorType::Rgba8`. The encoder panics on a buffer whose length is
/// not four bytes per pixel, so that is required. Nothing is claimed of the
/// outcome but that it depends on the dimensions and the pixels alone.
#[verifier::external_body]
fn write_png(width: u32, height: u32, rgba: &Vec<u8>) -> (written: Result<Vec<u8>, ImageError>)
    requires
        rgba.len() == 4 * width * height,
    ensures
        match written {
            Ok(bytes) => png_encoding(width, height, rgba@) == Some(bytes@),
            Err(_) => png_encoding(width, height, rgba@) is None,
        },
{
    let mut bytes: Vec<u8> = Vec::new();
    let encoder = PngEncoder::new(&mut bytes);
    let written = encoder.write_image(rgba, width, height, ExtendedColorType::Rgba8);
    written.map(|_| bytes)
}

/// Why a pixel grid could not be written as an image.
#[derive(Clone, Copy, Debug, PartialEq, Eq, Structural)]
pub enum EncodeError {
    /// The encoder refused the image.
    Rejected,
}

/// One of the four bytes of a pixel: red, green, blue, opacity.
pub open spec fn channel(pixel: Pixel, c: int) -> u8 {
    if c == 0 {
        pixel.red
    } else if c == 1 {
        pixel.green
    } else if c == 2 {
        pixel.blue
    } else {
        pixel.alpha
    }
}

/// The pixels as bytes, four per pixel.
pub open spec fn rgba_bytes(pixels: Seq<Pixel>) -> Seq<u8> {
    Seq::new(4 * pixels.len(), |i: int| channel(pixels[i / 4], i % 4))
}

/// Lays the pixels of a grid out as bytes, four per pixel.
pub fn to_rgba(grid: &PixelGrid) -> (bytes: Vec<u8>)
    ensures
        bytes@ == rgba_bytes(grid@),
        bytes@.len() == 4 * grid.width() * grid.height(),
{
    let pixels = grid.pixels();
    let mut bytes: Vec<u8> = Vec::new();
    let mut k: usize = 0;
    while k < pixels.len()
        invariant
            k <= pixels.len(),
            bytes@.len() == 4 * k,
            forall|i: int| 0 <= i < 4 * k ==> bytes@[i] == channel(pixels@[i / 4], i % 4),
        decreases pixels.len() - k,
    {
        let pixel = pixels[k];
        bytes.push(pixel.red);
        bytes.push(pixel.green);
        bytes.push(pixel.blue);
        bytes.push(pixel.alpha);
        k += 1;
    }
    proof {
        assert(bytes@ =~= rgba_bytes(grid@));
        assert(4 * (grid.width() * grid.height()) == 4 * grid.width() * grid.height())
            by (nonlinear_arith);
    }
    bytes
}

/// Turns what the encoder handed back into the result of this crate: the
/// bytes as they are, and any refusal as [`EncodeError::Rejected`].
pub fn outcome(written: Result<Vec<u8>, ImageError>) -> (image: Result<Vec<u8>, EncodeError>)
    ensures
        match written {
            Ok(bytes) => image == Ok::<Vec<u8>, EncodeError>(bytes),
            Err(_) => image == Err::<Vec<u8>, EncodeError>(EncodeError::Rejected),
        },
{
    match written {
        Ok(bytes) => Ok(bytes),
        Err(_) => Err(EncodeError::Rejected),
    }
}

/// Writes a pixel grid as a PNG image in memory.
pub fn encode_png(pixels: &PixelGrid) -> (image: Result<Vec<u8>, EncodeError>)
    ensures
        match image {
            Ok(bytes) => png_encoding(pixels.width(), pixels.height(), rgba_bytes(pixels@))
                == Some(bytes@),
            Err(e) => e == EncodeError::Rejected && png_encoding(
                pixels.width(),
                pixels.height(),
                rgba_bytes(pixels@),
            ) is None,
        },
{
    let rgba = to_rgba(pixels);
    outcome(write_png(pixels.width(), pixels.height(), &rgba))
}

} // verus!
