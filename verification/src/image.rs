//! Turning PNG screenshots into RGBA8 frames, and frames into PNG images.
use crate::model::Frame;
use vstd::prelude::*;
use vstd::slice::slice_to_vec;

verus! {

/// How the samples of a decoded image are laid out.
#[derive(Clone, Copy, Debug, PartialEq, Eq, Structural)]
pub enum ColorType {
    Grayscale,
    Rgb,
    Indexed,
    GrayscaleAlpha,
    Rgba,
}

/// Channel `channel` (0 = red .. 3 = alpha) of pixel `pixel` once `source`, laid out
/// as `color`, is expanded to RGBA; missing alpha is opaque.
pub open spec fn rgba_channel(source: Seq<u8>, color: ColorType, pixel: int, channel: int) -> u8 {
    match color {
        ColorType::Rgb => if channel == 3 {
            255u8
        } else {
            source[3 * pixel + channel]
        },
        ColorType::Grayscale => if channel == 3 {
            255u8
        } else {
            source[pixel]
        },
        ColorType::GrayscaleAlpha => if channel == 3 {
            source[2 * pixel + 1]
        } else {
            source[2 * pixel]
        },
        _ => source[4 * pixel + channel],
    }
}

/// Number of whole pixels in `len` samples laid out as `color`.
pub open spec fn whole_pixels(len: int, color: ColorType) -> int {
    match color {
        ColorType::Rgb => len / 3,
        ColorType::Grayscale => len,
        ColorType::GrayscaleAlpha => len / 2,
        _ => len / 4,
    }
}

/// The RGBA8 samples of `source`; a trailing partial pixel is dropped. Indexed
/// images are refused.
pub open spec fn to_rgba_spec(source: Seq<u8>, color: ColorType) -> Result<Seq<u8>, ColorType> {
    match color {
        ColorType::Rgba => Ok(source),
        ColorType::Indexed => Err(ColorType::Indexed),
        _ => Ok(
            Seq::new(
                (4 * whole_pixels(source.len() as int, color)) as nat,
                |i: int| rgba_channel(source, color, i / 4, i % 4),
            ),
        ),
    }
}

/// Expands decoded samples to RGBA8.
pub fn to_rgba(source: &[u8], color: ColorType) -> (r: Result<Vec<u8>, ColorType>)
    ensures
        match to_rgba_spec(source@, color) {
            Ok(rgba) => r matches Ok(v) && v@ == rgba,
            Err(c) => r matches Err(e) && e == c,
        },
{
    match color {
        ColorType::Rgba => return Ok(slice_to_vec(source)),
        ColorType::Indexed => return Err(ColorType::Indexed),
        _ => {},
    }
    let len = source.len();
    let (pixels, stride): (usize, usize) = match color {
        ColorType::Rgb => (len / 3, 3),
        ColorType::Grayscale => (len, 1),
        _ => (len / 2, 2),
    };
    let ghost target = to_rgba_spec(source@, color)->Ok_0;
    let mut out: Vec<u8> = Vec::new();
    let mut p: usize = 0;
    while p < pixels
        invariant
            color != ColorType::Rgba && color != ColorType::Indexed,
            len == source@.len(),
            pixels == whole_pixels(len as int, color),
            stride == (match color {
                ColorType::Rgb => 3usize,
                ColorType::Grayscale => 1usize,
                _ => 2usize,
            }),
            target == to_rgba_spec(source@, color)->Ok_0,
            p <= pixels,
            out@.len() == 4 * p,
            forall|i: int| 0 <= i < 4 * p ==> #[trigger] out@[i] == target[i],
        decreases pixels - p,
    {
        let base = p * stride;
        let (r, g, b, a) = match color {
            ColorType::Rgb => (source[base], source[base + 1], source[base + 2], 255u8),
            ColorType::Grayscale => (source[base], source[base], source[base], 255u8),
            _ => (source[base], source[base], source[base], source[base + 1]),
        };
        out.push(r);
        out.push(g);
        out.push(b);
        out.push(a);
        p = p + 1;
    }
    assert(out@ =~= target);
    Ok(out)
}

/// Bits per sample of a decoded image.
#[derive(Clone, Copy, Debug, PartialEq, Eq, Structural)]
pub enum BitDepth {
    One,
    Two,
    Four,
    Eight,
    Sixteen,
}

/// Why a screenshot could not be turned into a frame, or a frame into a PNG image.
#[derive(Clone, Copy, Debug, PartialEq, Eq, Structural)]
pub enum ImageError {
    /// The bytes are not a PNG image that the decoder accepts.
    Undecodable,
    /// The decoder reported a bit depth that PNG does not define.
    UnknownBitDepth(u8),
    /// The decoder reported a colour type that PNG does not define.
    UnknownColorType(u8),
    /// The decoded samples are not 8 bits wide.
    UnsupportedBitDepth(BitDepth),
    /// The samples are palette indices.
    UnsupportedColorType(ColorType),
    /// The encoder refused the frame.
    Unencodable,
}

/// What `frame_from_samples` returns.
pub open spec fn frame_from_samples_spec(
    width: u32,
    height: u32,
    color: ColorType,
    depth: BitDepth,
    samples: Seq<u8>,
) -> Option<Seq<u8>> {
    if depth != BitDepth::Eight {
        None
    } else {
        match to_rgba_spec(samples, color) {
            Ok(rgba) => Some(rgba),
            Err(_) => None,
        }
    }
}

/// Builds a frame from decoded samples: only 8-bit samples are accepted, and they
/// are expanded to RGBA8.
pub fn frame_from_samples(
    width: u32,
    height: u32,
    color: ColorType,
    depth: BitDepth,
    samples: &[u8],
) -> (r: Result<Frame, ImageError>)
    ensures
        depth != BitDepth::Eight ==> (r matches Err(ImageError::UnsupportedBitDepth(d)) && d
            == depth),
        depth == BitDepth::Eight && color == ColorType::Indexed ==> (r matches Err(
            ImageError::UnsupportedColorType(c),
        ) && c == color),
        match frame_from_samples_spec(width, height, color, depth, samples@) {
            Some(rgba) => r matches Ok(f) && f.width == width && f.height == height && f.rgba@
                == rgba,
            None => r is Err,
        },
{
    if depth != BitDepth::Eight {
        return Err(ImageError::UnsupportedBitDepth(depth));
    }
    match to_rgba(samples, color) {
        Ok(rgba) => Ok(Frame { width, height, rgba }),
        Err(c) => Err(ImageError::UnsupportedColorType(c)),
    }
}

/// The colour type that a PNG header code stands for.
pub open spec fn color_type_of_code(code: u8) -> Option<ColorType> {
    if code == 0 {
        Some(ColorType::Grayscale)
    } else if code == 2 {
        Some(ColorType::Rgb)
    } else if code == 3 {
        Some(ColorType::Indexed)
    } else if code == 4 {
        Some(ColorType::GrayscaleAlpha)
    } else if code == 6 {
        Some(ColorType::Rgba)
    } else {
        None
    }
}

/// The bit depth that a PNG header code stands for.
pub open spec fn bit_depth_of_code(code: u8) -> Option<BitDepth> {
    if code == 1 {
        Some(BitDepth::One)
    } else if code == 2 {
        Some(BitDepth::Two)
    } else if code == 4 {
        Some(BitDepth::Four)
    } else if code == 8 {
        Some(BitDepth::Eight)
    } else if code == 16 {
        Some(BitDepth::Sixteen)
    } else {
        None
    }
}

fn color_type_from_code(code: u8) -> (r: Option<ColorType>)
    ensures
        r == color_type_of_code(code),
{
    match code {
        0 => Some(ColorType::Grayscale),
        2 => Some(ColorType::Rgb),
        3 => Some(ColorType::Indexed),
        4 => Some(ColorType::GrayscaleAlpha),
        6 => Some(ColorType::Rgba),
        _ => None,
    }
}

fn bit_depth_from_code(code: u8) -> (r: Option<BitDepth>)
    ensures
        r == bit_depth_of_code(code),
{
    match code {
        1 => Some(BitDepth::One),
        2 => Some(BitDepth::Two),
        4 => Some(BitDepth::Four),
        8 => Some(BitDepth::Eight),
        16 => Some(BitDepth::Sixteen),
        _ => None,
    }
}

/// The RGBA8 samples of a decoded image given by its colour-type and bit-depth codes,
/// or why there are none.
pub open spec fn decoded_rgba(color_code: u8, depth_code: u8, samples: Seq<u8>) -> Result<
    Seq<u8>,
    ImageError,
> {
    match bit_depth_of_code(depth_code) {
        None => Err(ImageError::UnknownBitDepth(depth_code)),
        Some(depth) => if depth != BitDepth::Eight {
            Err(ImageError::UnsupportedBitDepth(depth))
        } else {
            match color_type_of_code(color_code) {
                None => Err(ImageError::UnknownColorType(color_code)),
                Some(color) => match to_rgba_spec(samples, color) {
                    Ok(rgba) => Ok(rgba),
                    Err(c) => Err(ImageError::UnsupportedColorType(c)),
                },
            }
        },
    }
}

/// Builds a frame from what a PNG decoder reports: width, height, colour-type and
/// bit-depth codes, and the decoded samples.
pub fn frame_from_decoded(
    width: u32,
    height: u32,
    color_code: u8,
    depth_code: u8,
    samples: &[u8],
) -> (r: Result<Frame, ImageError>)
    ensures
        match decoded_rgba(color_code, depth_code, samples@) {
            Ok(rgba) => r matches Ok(f) && f.width == width && f.height == height && f.rgba@
                == rgba,
            Err(e) => r matches Err(e2) && e2 == e,
        },
{
    let depth = match bit_depth_from_code(depth_code) {
        Some(depth) => depth,
        None => return Err(ImageError::UnknownBitDepth(depth_code)),
    };
    if depth != BitDepth::Eight {
        return Err(ImageError::UnsupportedBitDepth(depth));
    }
    let color = match color_type_from_code(color_code) {
        Some(color) => color,
        None => return Err(ImageError::UnknownColorType(color_code)),
    };
    frame_from_samples(width, height, color, depth, samples)
}

/// What the png crate decodes from `bytes`, with palettes and low bit depths expanded
/// and 16-bit samples stripped: width, height, colour-type code, bit-depth code and the
/// samples of the first frame; `None` where it refuses the bytes.
pub uninterp spec fn png_decoded(bytes: Seq<u8>) -> Option<(u32, u32, u8, u8, Seq<u8>)>;

/// Samples per pixel of a PNG colour-type code.
pub open spec fn samples_per_pixel(color_code: u8) -> int {
    if color_code == 2 {
        3
    } else if color_code == 4 {
        2
    } else if color_code == 6 {
        4
    } else {
        1
    }
}

/// Calls the png crate's `Decoder` (`read_info`, then `next_frame` into a buffer of
/// `output_buffer_size` bytes, cut to the frame's `buffer_size`); the result is named
/// `png_decoded`. At 8 bits per sample a row holds `width` pixels of whole samples,
/// so the frame holds `width * height` pixels.
#[verifier::external_body]
fn decode_png_samples(bytes: &[u8]) -> (r: Option<(u32, u32, u8, u8, Vec<u8>)>)
    ensures
        r is None <==> png_decoded(bytes@) is None,
        r matches Some(v) ==> png_decoded(bytes@) == Some((v.0, v.1, v.2, v.3, v.4@)),
        r matches Some(v) ==> (v.3 == 8 ==> v.4@.len() == v.0 * v.1 * samples_per_pixel(v.2)),
{
    let mut decoder = png::Decoder::new(std::io::Cursor::new(bytes));
    decoder.set_transformations(png::Transformations::EXPAND | png::Transformations::STRIP_16);
    let mut reader = decoder.read_info().ok()?;
    let mut buffer = vec![0; reader.output_buffer_size()?];
    let info = reader.next_frame(&mut buffer).ok()?;
    buffer.truncate(info.buffer_size());
    Some((info.width, info.height, info.color_type as u8, info.bit_depth as u8, buffer))
}

/// Decodes a PNG screenshot into an RGBA8 frame.
pub fn decode_png(bytes: &[u8]) -> (r: Result<Frame, ImageError>)
    ensures
        match png_decoded(bytes@) {
            None => r == Err::<Frame, ImageError>(ImageError::Undecodable),
            Some((width, height, color_code, depth_code, samples)) => match decoded_rgba(
                color_code,
                depth_code,
                samples,
            ) {
                Ok(rgba) => r matches Ok(f) && f.width == width && f.height == height && f.rgba@
                    == rgba,
                Err(e) => r matches Err(e2) && e2 == e,
            },
        },
        r matches Ok(f) ==> f.rgba@.len() == f.width * f.height * 4,
{
    match decode_png_samples(bytes) {
        None => Err(ImageError::Undecodable),
        Some((width, height, color_code, depth_code, samples)) => {
            let r = frame_from_decoded(width, height, color_code, depth_code, samples.as_slice());
            proof {
                if r is Ok {
                    let pixels = width * height;
                    let len = samples@.len() as int;
                    assert(depth_code == 8);
                    assert(len == pixels * samples_per_pixel(color_code)) by (nonlinear_arith)
                        requires
                            len == width * height * samples_per_pixel(color_code),
                            pixels == width * height,
                    ;
                    assert(pixels * 3 / 3 == pixels && pixels * 2 / 2 == pixels) by (nonlinear_arith)
                        requires
                            pixels >= 0,
                    ;
                    assert(pixels * 4 == width * height * 4) by (nonlinear_arith)
                        requires
                            pixels == width * height,
                    ;
                }
            }
            r
        },
    }
}

/// The PNG image, RGBA with 8 bits per sample, that the png crate's encoder writes
/// for the given size and samples; `None` where it refuses them.
pub uninterp spec fn png_encoded(width: u32, height: u32, rgba: Seq<u8>) -> Option<Seq<u8>>;

/// The frame sizes and buffers that the encoder is handed: both sides non-zero,
/// `width * height * 4` within `usize`, and exactly that many samples.
pub open spec fn encodable(width: u32, height: u32, rgba: Seq<u8>) -> bool {
    &&& width > 0
    &&& height > 0
    &&& width * height * 4 <= usize::MAX
    &&& rgba.len() == width * height * 4
}

/// Calls the png crate's `Encoder` (RGBA, 8-bit: `write_header`, `write_image_data`,
/// `finish`) into memory; the result is named `png_encoded`. The encoder multiplies
/// the row length by the height unchecked, so it is only handed buffers whose length
/// is that product.
#[verifier::external_body]
fn encode_png_rgba8(width: u32, height: u32, rgba: &[u8]) -> (r: Option<Vec<u8>>)
    requires
        encodable(width, height, rgba@),
    ensures
        r is None <==> png_encoded(width, height, rgba@) is None,
        r matches Some(v) ==> png_encoded(width, height, rgba@) == Some(v@),
{
    let mut out = Vec::new();
    let mut encoder = png::Encoder::new(&mut out, width, height);
    encoder.set_color(png::ColorType::Rgba);
    encoder.set_depth(png::BitDepth::Eight);
    let mut writer = encoder.write_header().ok()?;
    writer.write_image_data(rgba).ok()?;
    writer.finish().ok()?;
    Some(out)
}

/// Encodes a frame as an RGBA8 PNG image; a frame with an empty side, or whose buffer
/// is not `width * height * 4` bytes, is refused.
pub fn encode_png(frame: &Frame) -> (r: Result<Vec<u8>, ImageError>)
    ensures
        !encodable(frame.width, frame.height, frame.rgba@) ==> r == Err::<Vec<u8>, ImageError>(
            ImageError::Unencodable,
        ),
        encodable(frame.width, frame.height, frame.rgba@) ==> match png_encoded(
            frame.width,
            frame.height,
            frame.rgba@,
        ) {
            None => r == Err::<Vec<u8>, ImageError>(ImageError::Unencodable),
            Some(bytes) => r matches Ok(v) && v@ == bytes,
        },
{
    if frame.width == 0 || frame.height == 0 {
        return Err(ImageError::Unencodable);
    }
    let expected = match (frame.width as usize).checked_mul(frame.height as usize) {
        Some(pixels) => match pixels.checked_mul(4) {
            Some(len) => len,
            None => return Err(ImageError::Unencodable),
        },
        None => return Err(ImageError::Unencodable),
    };
    if frame.rgba.len() != expected {
        return Err(ImageError::Unencodable);
    }
    match encode_png_rgba8(frame.width, frame.height, frame.rgba.as_slice()) {
        None => Err(ImageError::Unencodable),
        Some(bytes) => Ok(bytes),
    }
}

} // verus!
