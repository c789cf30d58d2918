use vstd::prelude::*;
use crate::color::Rgb;
use crate::encode::{blank, covers, image_bytes, is_blank, pack_rgb, ppm_text, write_ppm};

verus! {

/// What a PNG encoder produces for a picture of the given width and height
/// whose packed RGB bytes are `raw`.
pub uninterp spec fn png_stream(width: u32, height: u32, raw: Seq<u8>) -> Seq<u8>;

#[verifier::external_type_specification]
#[verifier::external_body]
pub struct ExImageError(image::ImageError);

/// Why a picture could not be exported.
pub enum ExportError {
    /// The PNG encoder refused the picture.
    Png(image::ImageError),
}

/// Calls `image::codecs::png::PngEncoder::write_image` (through the
/// `ImageEncoder` trait) on a fresh encoder that writes into a byte vector,
/// with colour type `Rgb8`. The encoder panics unless `raw` holds exactly
/// three bytes for each pixel, which the precondition asks for. Whether it
/// succeeds is left open; on success the bytes written are the encoder's
/// output for these arguments, which the contract names `png_stream`.
#[verifier::external_body]
fn png_encode(width: u32, height: u32, raw: &Vec<u8>) -> (out: Result<Vec<u8>, image::ImageError>)
    requires
        raw@.len() == 3 * width * height,
    ensures
        out matches Ok(bytes) ==> bytes@ == png_stream(width, height, raw@),
{
    let mut bytes: Vec<u8> = Vec::new();
    let encoder = image::codecs::png::PngEncoder::new(&mut bytes);
    match image::ImageEncoder::write_image(
        encoder,
        raw.as_slice(),
        width,
        height,
        image::ExtendedColorType::Rgb8,
    ) {
        Ok(()) => Ok(bytes),
        Err(e) => Err(e),
    }
}

/// What `export_png` returns once the encoder has answered.
pub fn png_outcome(
    encoded: Result<Vec<u8>, image::ImageError>,
) -> (out: Result<Vec<u8>, ExportError>)
    ensures
        match encoded {
            Ok(bytes) => out == Ok::<Vec<u8>, ExportError>(bytes),
            Err(e) => out == Err::<Vec<u8>, ExportError>(ExportError::Png(e)),
        },
{
    match encoded {
        Ok(bytes) => Ok(bytes),
        Err(e) => Err(ExportError::Png(e)),
    }
}

/// A picture: `h` rows of `w` pixels, top row first.
pub struct Canvas {
    pub h: u32,
    pub w: u32,
    pub data: Vec<Vec<Rgb>>,
}

impl Canvas {
    /// Whether the pixel store holds every pixel of the declared size.
    pub open spec fn wf(&self) -> bool {
        covers(self.data@, self.w as nat, self.h as nat)
    }

    /// A black picture of `h` rows by `w` columns.
    pub fn new(h: u32, w: u32) -> (c: Self)
        ensures
            c.h == h,
            c.w == w,
            is_blank(c.data@, w as nat, h as nat),
            c.wf(),
    {
        let data = blank(h as usize, w as usize);
        Canvas { h, w, data }
    }

    /// The picture as a plain-text PPM file.
    pub fn export_ppm(&self) -> (out: Vec<u8>)
        requires
            self.wf(),
        ensures
            out@ == ppm_text(self.data@, self.w as nat, self.h as nat),
    {
        write_ppm(&self.data, self.w as usize, self.h as usize)
    }

    /// The picture as a PNG file: the encoder's output for the packed pixels,
    /// or the encoder's error.
    pub fn export_png(&self) -> (out: Result<Vec<u8>, ExportError>)
        requires
            self.wf(),
        ensures
            out matches Ok(bytes) ==> bytes@ == png_stream(
                self.w,
                self.h,
                image_bytes(self.data@, self.w as nat, self.h as nat),
            ),
    {
        let raw = pack_rgb(&self.data, self.w as usize, self.h as usize);
        png_outcome(png_encode(self.w, self.h, &raw))
    }
}

} // verus!
