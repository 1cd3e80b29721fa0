//! The raster codec boundary: PNG decoding and encoding through the `png`
//! crate, behind trusted wrappers, and the verified logic that turns a
//! decoded frame into the one buffer format the pipeline works on —
//! single-byte grayscale. Only 8-bit grayscale and 8-bit RGBA frames are
//! accepted; anything else is a configuration error.

use vstd::prelude::*;

verus! {

use crate::gray::{gray_of_rgba, rgba_to_gray};

/// The color type code of a decoded frame, as PNG defines it: 0 is
/// grayscale.
pub const COLOR_GRAYSCALE: u8 = 0;

/// The color type code of an RGBA frame, as PNG defines it.
pub const COLOR_RGBA: u8 = 6;

/// The bit depth code of a single-byte-per-sample frame.
pub const DEPTH_EIGHT: u8 = 8;

/// Why reading or writing an image failed.
#[derive(Clone, Copy, PartialEq, Eq, Structural, Debug)]
pub enum CodecError {
    /// The byte stream is not a well-formed PNG.
    Malformed,
    /// The frame decoded, but its color type is neither grayscale nor RGBA.
    UnsupportedColor,
    /// The frame decoded, but its samples are not single bytes.
    UnsupportedDepth,
    /// The decoded pixel data does not cover width * height pixels.
    SizeMismatch,
    /// The encoder refused the buffer or its dimensions.
    EncodeFailed,
}

/// A decoded frame as the decoder hands it over: dimensions, color type
/// code, bit depth code, and the raw pixel bytes.
pub struct RawImage {
    pub width: u32,
    pub height: u32,
    pub color: u8,
    pub depth: u8,
    pub pixels: Vec<u8>,
}

/// Whether the PNG decoder accepts this byte stream.
pub uninterp spec fn png_parses(data: Seq<u8>) -> bool;

/// The pixel width of the frame the decoder reads from this byte stream.
pub uninterp spec fn png_width(data: Seq<u8>) -> u32;

/// The pixel height of the frame the decoder reads from this byte stream.
pub uninterp spec fn png_height(data: Seq<u8>) -> u32;

/// The color type code of the decoded frame.
pub uninterp spec fn png_color(data: Seq<u8>) -> u8;

/// The bit depth code of the decoded frame.
pub uninterp spec fn png_depth(data: Seq<u8>) -> u8;

/// The pixel bytes of the decoded frame.
pub uninterp spec fn png_pixels(data: Seq<u8>) -> Seq<u8>;

/// Whether the PNG encoder accepts a grayscale buffer of these dimensions.
pub uninterp spec fn png_encodes(pixels: Seq<u8>, width: u32, height: u32) -> bool;

/// The PNG byte stream the encoder produces for a grayscale buffer.
pub uninterp spec fn png_encoding(pixels: Seq<u8>, width: u32, height: u32) -> Seq<u8>;

#[verifier::external_type_specification]
#[verifier::external_body]
pub struct ExDecodingError(png::DecodingError);

#[verifier::external_type_specification]
#[verifier::external_body]
pub struct ExEncodingError(png::EncodingError);

/// Relies on png's Decoder::read_info and Reader::next_frame: decoding one
/// frame from an in-memory byte stream is a pure function of the bytes, and
/// the frame's dimensions, color type, bit depth and pixel bytes are as the
/// stream states them.
#[verifier::external_body]
fn decode_png(data: &Vec<u8>) -> (r: Result<RawImage, png::DecodingError>)
    ensures
        r is Ok <==> png_parses(data@),
        r matches Ok(img) ==> img.width == png_width(data@) && img.height == png_height(data@)
            && img.color == png_color(data@) && img.depth == png_depth(data@) && img.pixels@
            == png_pixels(data@),
{
    let decoder = png::Decoder::new(std::io::Cursor::new(data.as_slice()));
    let mut reader = decoder.read_info()?;
    let n = reader.output_buffer_size().ok_or(png::DecodingError::LimitsExceeded)?;
    let mut buf = vec![0u8; n];
    let info = reader.next_frame(&mut buf)?;
    buf.truncate(info.buffer_size());
    let (width, height) = (info.width, info.height);
    let (color, depth) = (info.color_type as u8, info.bit_depth as u8);
    Ok(RawImage { width, height, color, depth, pixels: buf })
}

/// Relies on png's Encoder and Writer::write_image_data: encoding a
/// grayscale 8-bit buffer is a pure function of the buffer and its
/// dimensions.
#[verifier::external_body]
fn encode_png(pixels: &Vec<u8>, width: u32, height: u32) -> (r: Result<
    Vec<u8>,
    png::EncodingError,
>)
    requires
        pixels@.len() == (width as int) * (height as int),
    ensures
        r is Ok <==> png_encodes(pixels@, width, height),
        r matches Ok(v) ==> v@ == png_encoding(pixels@, width, height),
{
    let mut out: Vec<u8> = Vec::new();
    {
        let mut encoder = png::Encoder::new(&mut out, width, height);
        encoder.set_color(png::ColorType::Grayscale);
        encoder.set_depth(png::BitDepth::Eight);
        let mut writer = encoder.write_header()?;
        writer.write_image_data(pixels)?;
        writer.finish()?;
    }
    Ok(out)
}

/// Whether a byte stream decodes to a frame the pipeline accepts: a
/// well-formed PNG whose frame is 8-bit grayscale or 8-bit RGBA with pixel
/// data covering exactly width * height pixels.
pub open spec fn decodes_ok(data: Seq<u8>) -> bool {
    &&& png_parses(data)
    &&& png_depth(data) == DEPTH_EIGHT
    &&& {
        ||| (png_color(data) == COLOR_GRAYSCALE && png_pixels(data).len() == png_width(data)
            * png_height(data))
        ||| (png_color(data) == COLOR_RGBA && png_pixels(data).len() == 4 * png_width(data)
            * png_height(data))
    }
}

/// The grayscale buffer a byte stream decodes to: the frame's own pixels for
/// a grayscale frame, the alpha-weighted conversion for an RGBA frame.
pub open spec fn decoded_gray(data: Seq<u8>) -> Seq<u8> {
    if png_color(data) == COLOR_GRAYSCALE {
        png_pixels(data)
    } else {
        gray_of_rgba(png_pixels(data))
    }
}

/// Decodes a PNG byte stream to a grayscale buffer and its dimensions. An
/// 8-bit grayscale frame is returned as it is; an 8-bit RGBA frame is
/// converted pixel by pixel to (R + G + B) * A / 765. Any other frame, and
/// any stream the decoder refuses, is an error.
pub fn decode_image(data: &Vec<u8>) -> (r: Result<(u32, u32, Vec<u8>), CodecError>)
    ensures
        r is Ok <==> decodes_ok(data@),
        r matches Ok(img) ==> img.0 == png_width(data@) && img.1 == png_height(data@) && img.2@
            == decoded_gray(data@) && img.2@.len() == (img.0 as int) * (img.1 as int),
        r == Err::<(u32, u32, Vec<u8>), CodecError>(CodecError::Malformed) <==> !png_parses(data@),
        r == Err::<(u32, u32, Vec<u8>), CodecError>(CodecError::UnsupportedDepth) <==> (png_parses(
            data@,
        ) && png_depth(data@) != DEPTH_EIGHT),
        r == Err::<(u32, u32, Vec<u8>), CodecError>(CodecError::UnsupportedColor) <==> (png_parses(
            data@,
        ) && png_depth(data@) == DEPTH_EIGHT && png_color(data@) != COLOR_GRAYSCALE && png_color(
            data@,
        ) != COLOR_RGBA),
        r == Err::<(u32, u32, Vec<u8>), CodecError>(CodecError::SizeMismatch) <==> (png_parses(
            data@,
        ) && png_depth(data@) == DEPTH_EIGHT && ((png_color(data@) == COLOR_GRAYSCALE && png_pixels(
            data@,
        ).len() != png_width(data@) * png_height(data@)) || (png_color(data@) == COLOR_RGBA
            && png_pixels(data@).len() != 4 * png_width(data@) * png_height(data@)))),
{
    let raw = match decode_png(data) {
        Ok(raw) => raw,
        Err(_) => {
            return Err(CodecError::Malformed);
        },
    };
    if raw.depth != DEPTH_EIGHT {
        return Err(CodecError::UnsupportedDepth);
    }
    proof {
        assert((raw.width as int) * (raw.height as int) < 0x10000000000000000) by (nonlinear_arith)
            requires
                0 <= raw.width as int,
                (raw.width as int) < 0x100000000,
                0 <= raw.height as int,
                (raw.height as int) < 0x100000000,
        ;
    }
    let wh = (raw.width as u128) * (raw.height as u128);
    proof {
        assert((4 * (raw.width as int)) * (raw.height as int) == 4 * ((raw.width as int)
            * (raw.height as int))) by (nonlinear_arith);
    }
    if raw.color == COLOR_GRAYSCALE {
        if raw.pixels.len() as u128 != wh {
            return Err(CodecError::SizeMismatch);
        }
        Ok((raw.width, raw.height, raw.pixels))
    } else if raw.color == COLOR_RGBA {
        if raw.pixels.len() as u128 != 4 * wh {
            return Err(CodecError::SizeMismatch);
        }
        let gray = rgba_to_gray(&raw.pixels);
        proof {
            let whi = (raw.width as int) * (raw.height as int);
            assert(raw.pixels@.len() == 4 * whi);
            vstd::arithmetic::div_mod::lemma_div_multiples_vanish(whi, 4);
            assert(whi * 4 == 4 * whi) by (nonlinear_arith);
            assert(gray@.len() == whi);
        }
        Ok((raw.width, raw.height, gray))
    } else {
        Err(CodecError::UnsupportedColor)
    }
}

/// Encodes a grayscale buffer of the given dimensions as a PNG byte stream.
pub fn encode_image(pixels: &Vec<u8>, width: u32, height: u32) -> (r: Result<Vec<u8>, CodecError>)
    requires
        pixels@.len() == (width as int) * (height as int),
    ensures
        r is Ok <==> png_encodes(pixels@, width, height),
        r matches Ok(v) ==> v@ == png_encoding(pixels@, width, height),
        r is Err ==> r == Err::<Vec<u8>, CodecError>(CodecError::EncodeFailed),
{
    match encode_png(pixels, width, height) {
        Ok(v) => Ok(v),
        Err(_) => Err(CodecError::EncodeFailed),
    }
}

} // verus!
