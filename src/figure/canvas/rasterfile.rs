//! Encoding the raster canvas as an image file.

use vstd::prelude::*;

use crate::figure::canvas::pixelcanvas::{CanvasError, PixelCanvas};
use image::ImageEncoder;

verus! {

#[verifier::external_type_specification]
#[verifier::external_body]
pub struct ExImageError(image::ImageError);

/// The PNG file that image's encoder writes for an 8-bit RGB raster of the
/// given size.
pub uninterp spec fn png_encoding(pixels: Seq<u8>, width: nat, height: nat) -> Seq<u8>;

/// Relies on image's `PngEncoder::write_image` with `ExtendedColorType::Rgb8`,
/// which panics unless the buffer holds exactly `width * height * 3` bytes
/// and otherwise writes the PNG file for those pixels into a `Vec`. Writing
/// to a `Vec` cannot fail; png's encoder refuses only a zero width or height.
#[verifier::external_body]
fn encode_png(pixels: &Vec<u8>, width: u32, height: u32) -> (r: Result<Vec<u8>, image::ImageError>)
    requires
        pixels@.len() == width as int * height as int * 3,
    ensures
        r is Ok ==> r->Ok_0@ == png_encoding(pixels@, width as nat, height as nat),
        width > 0 && height > 0 ==> r is Ok,
{
    let mut out: Vec<u8> = Vec::new();
    let encoder = image::codecs::png::PngEncoder::new(&mut out);
    match encoder.write_image(pixels, width, height, image::ExtendedColorType::Rgb8) {
        Ok(()) => Ok(out),
        Err(e) => Err(e),
    }
}

impl PixelCanvas {
    /// Whether the buffer holds exactly `width * height * 3` bytes, as an
    /// image file of the canvas's size needs.
    pub fn has_exact_buffer(&self) -> (r: bool)
        ensures
            r == (self.buffer@.len() == self.width as int * self.height as int * 3),
    {
        let n = self.buffer.len() as u128;
        let w = self.width as u128;
        let h = self.height as u128;
        assert(w * h <= 0xffff_ffff * 0xffff_ffff) by (nonlinear_arith)
            requires w <= 0xffff_ffff, h <= 0xffff_ffff;
        w * h * 3 == n
    }

    /// Encodes the canvas as a PNG file. Fails with `BufferSizeMismatch`
    /// exactly when the buffer does not hold `width * height * 3` bytes, and
    /// with `EncodingFailed` when the encoder reports an error, which happens
    /// only for a zero width or height.
    pub fn to_png(&self) -> (r: Result<Vec<u8>, CanvasError>)
        ensures
            (r == Err::<Vec<u8>, CanvasError>(CanvasError::BufferSizeMismatch)) <==> self.buffer@.len()
                != self.width as int * self.height as int * 3,
            r is Ok ==> r->Ok_0@ == png_encoding(self.buffer@, self.width as nat, self.height as nat),
            self.width > 0 && self.height > 0 && self.buffer@.len() == self.width as int * self.height as int
                * 3 ==> r is Ok,
            r is Err ==> r == Err::<Vec<u8>, CanvasError>(CanvasError::BufferSizeMismatch) || r == Err::<
                Vec<u8>,
                CanvasError,
            >(CanvasError::EncodingFailed),
    {
        if !self.has_exact_buffer() {
            return Err(CanvasError::BufferSizeMismatch);
        }
        match encode_png(&self.buffer, self.width, self.height) {
            Ok(bytes) => Ok(bytes),
            Err(_) => Err(CanvasError::EncodingFailed),
        }
    }
}

} // verus!
