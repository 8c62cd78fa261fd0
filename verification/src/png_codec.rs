//! The PNG step, done by the `png` crate: encoding a decoded prop for a human
//! or a thumbnail, and decoding the still frame a big prop embeds.

use std::io::Cursor;

use png::{ColorType, Decoder, Transformations};
use vstd::prelude::*;

verus! {

/// The PNG file `png`'s encoder writes for an 8-bit RGBA image of this size
/// and these bytes, or `None` when the encoder refuses them.
pub uninterp spec fn png_encoded(width: u32, height: u32, rgba: Seq<u8>) -> Option<Seq<u8>>;

/// Encode `rgba` as an 8-bit RGBA PNG with `png::Encoder`, into memory.
///
/// Trusted: the bytes are the `png` crate's, named by [`png_encoded`]; the
/// error's text is left unsaid. The buffer must hold exactly the image's
/// bytes: the encoder sizes rows from the dimensions with unchecked
/// arithmetic, which stays in range only then.
#[verifier::external_body]
pub(crate) fn png_encode_rgba(width: u32, height: u32, rgba: &[u8]) -> (r: Result<Vec<u8>, String>)
    requires
        rgba@.len() == width as int * height as int * 4,
    ensures
        r matches Ok(v) ==> png_encoded(width, height, rgba@) == Some(v@),
        r is Err ==> png_encoded(width, height, rgba@) is None,
{
    let mut out: Vec<u8> = Vec::new();
    let mut encoder = png::Encoder::new(&mut out, width, height);
    encoder.set_color(png::ColorType::Rgba);
    encoder.set_depth(png::BitDepth::Eight);
    let mut writer = match encoder.write_header() {
        Ok(w) => w,
        Err(e) => return Err(e.to_string()),
    };
    if let Err(e) = writer.write_image_data(rgba) {
        return Err(e.to_string());
    }
    if let Err(e) = writer.finish() {
        return Err(e.to_string());
    }
    Ok(out)
}

/// The colour type of a decoded PNG frame.
#[derive(Debug, Clone, Copy, PartialEq, Eq, Structural)]
pub enum PngColor {
    /// One grey sample per pixel.
    Grayscale,
    /// Red, green and blue samples.
    Rgb,
    /// Palette indices.
    Indexed,
    /// Grey and alpha samples.
    GrayscaleAlpha,
    /// Red, green, blue and alpha samples.
    Rgba,
}

/// The dimensions `png`'s decoder reads from a PNG file's header, or `None`
/// when it refuses the file.
pub uninterp spec fn png_size(data: Seq<u8>) -> Option<(u32, u32)>;

/// The first frame `png`'s decoder produces from a PNG file, with palettes,
/// sub-8-bit depths and transparency expanded to 8-bit samples and 16-bit
/// samples stripped to 8: its width, height, colour type and samples.
pub uninterp spec fn png_frame(data: Seq<u8>) -> Option<(u32, u32, PngColor, Seq<u8>)>;

/// Whether `png`'s decoder can size an output buffer for a PNG file.
pub uninterp spec fn png_buffer_sized(data: Seq<u8>) -> bool;

/// Why reading a PNG frame failed.
#[derive(Debug, Clone, PartialEq, Eq)]
pub enum PngReadError {
    /// The decoder could not size an output buffer.
    BufferSize,
    /// The decoder refused the file; its message.
    Decode(String),
}

/// Read a PNG file's header with `png::Decoder::read_info` and return its
/// size.
///
/// Trusted: the dimensions are the `png` crate's, named by [`png_size`]; the
/// error's text is left unsaid.
#[verifier::external_body]
pub(crate) fn png_read_size(data: &[u8]) -> (r: Result<(u32, u32), String>)
    ensures
        r matches Ok(d) ==> png_size(data@) == Some(d),
        r is Err ==> png_size(data@) is None,
{
    let mut decoder = Decoder::new(Cursor::new(data));
    decoder.set_transformations(Transformations::normalize_to_color8());
    match decoder.read_info() {
        Ok(reader) => Ok(reader.info().size()),
        Err(e) => Err(e.to_string()),
    }
}

/// Decode a PNG file's first frame with `png::Decoder`, expanding to 8-bit
/// samples (`Transformations::normalize_to_color8`).
///
/// Trusted: the frame is the `png` crate's, named by [`png_frame`]; whether
/// it could size a buffer by [`png_buffer_sized`]. A decode error comes
/// either from reading the header (so [`png_size`] refuses the file too) or
/// after the buffer was sized. The error's text is left unsaid.
#[verifier::external_body]
pub(crate) fn png_read_frame(data: &[u8]) -> (r: Result<(u32, u32, PngColor, Vec<u8>), PngReadError>)
    ensures
        r matches Ok(f) ==> png_frame(data@) == Some((f.0, f.1, f.2, f.3@)) && png_buffer_sized(data@),
        r matches Err(PngReadError::BufferSize) ==> !png_buffer_sized(data@),
        r matches Err(PngReadError::Decode(_)) ==> png_frame(data@) is None && (png_size(data@) is None
            || png_buffer_sized(data@)),
{
    let mut decoder = Decoder::new(Cursor::new(data));
    decoder.set_transformations(Transformations::normalize_to_color8());
    let mut reader = decoder.read_info().map_err(|e| PngReadError::Decode(e.to_string()))?;
    let mut buffer = vec![0u8; reader.output_buffer_size().ok_or(PngReadError::BufferSize)?];
    let info = reader.next_frame(&mut buffer).map_err(|e| PngReadError::Decode(e.to_string()))?;
    buffer.truncate(info.buffer_size());
    let color = match info.color_type {
        ColorType::Grayscale => PngColor::Grayscale,
        ColorType::Rgb => PngColor::Rgb,
        ColorType::Indexed => PngColor::Indexed,
        ColorType::GrayscaleAlpha => PngColor::GrayscaleAlpha,
        ColorType::Rgba => PngColor::Rgba,
    };
    Ok((info.width, info.height, color, buffer))
}

} // verus!
