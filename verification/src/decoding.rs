//! From the bytes of a camera frame to its image.

use vstd::prelude::*;

use crate::arithmetic::Raster;
use crate::preview::{build_preview, PreviewFrame, PREVIEW_WIDTH};
#[allow(unused_imports)]
use crate::preview::is_preview;

verus! {

/// How the bytes of a frame hold its pixels.
#[derive(Debug, Clone, Copy, PartialEq, Eq, Structural)]
pub enum SourceFormat {
    /// Two pixels in four bytes: brightness, blue, brightness, red.
    Yuyv,
    /// The brightness of all pixels, then the colour of blocks of four.
    Nv12,
    /// One byte a pixel.
    Gray,
    /// Red, green, blue.
    RawRgb,
    /// Blue, green, red.
    RawBgr,
}

/// Why a frame has no image.
#[derive(Debug, Clone, Copy, PartialEq, Eq, Structural)]
pub enum DecodeError {
    /// The frame is beyond what can be decoded: sizes do not fit their types.
    OutOfRange,
    /// The bytes do not make up an image of the size.
    Malformed,
    /// The image has columns to be scaled and no row.
    NoRows,
}

/// The image that the bytes of a frame decode to: rows of pixels of three bytes
/// each, red, green and blue. `None` where they make up no image.
pub uninterp spec fn decoded_rgb(
    format: SourceFormat,
    width: u32,
    height: u32,
    data: Seq<u8>,
) -> Option<Seq<u8>>;

/// A frame of `len` bytes can be decoded: what is computed and allocated on the way
/// fits its type.
pub open spec fn is_decodable(format: SourceFormat, width: u32, height: u32, len: nat) -> bool {
    match format {
        SourceFormat::Yuyv => 2 * len <= usize::MAX / 2,
        SourceFormat::Nv12 => {
            &&& 3 * width <= u32::MAX
            &&& 3 * (width * height) <= u32::MAX
            &&& 3 * (width * height) <= usize::MAX / 2
            &&& width == 0 ==> height % 2 != 0 || len > 0
        },
        SourceFormat::Gray => 6 * len <= usize::MAX / 2,
        SourceFormat::RawRgb | SourceFormat::RawBgr => true,
    }
}

/// The number of bytes that `len` bytes decode to.
pub open spec fn decoded_len(format: SourceFormat, width: u32, height: u32, len: nat) -> int {
    match format {
        SourceFormat::Yuyv => (len / 4 * 6) as int,
        SourceFormat::Nv12 => 3 * (width * height),
        SourceFormat::Gray => (3 * len) as int,
        SourceFormat::RawRgb | SourceFormat::RawBgr => len as int,
    }
}

/// A frame of `len` bytes makes up an image: the format can hold that many bytes,
/// and they decode to no fewer than the image has.
pub open spec fn is_well_formed(format: SourceFormat, width: u32, height: u32, len: nat) -> bool {
    &&& match format {
        SourceFormat::Yuyv => len % 4 == 0,
        SourceFormat::Nv12 => width % 2 == 0 && height % 2 == 0 && 2 * len == 3 * (width * height),
        SourceFormat::Gray | SourceFormat::RawRgb | SourceFormat::RawBgr => true,
    }
    &&& 3 * width <= usize::MAX
    &&& 3 * (width * height) <= decoded_len(format, width, height, len)
}

/// Byte `k` of an image in a format without coded colour. Bytes that make up no
/// whole pixel of blue, green and red are left at zero.
pub open spec fn plain_byte(format: SourceFormat, data: Seq<u8>, k: int) -> u8 {
    match format {
        SourceFormat::Gray => data[k / 3],
        SourceFormat::RawBgr => if k < data.len() / 3 * 3 {
            data[k / 3 * 3 + (2 - k % 3)]
        } else {
            0
        },
        _ => data[k],
    }
}

/// The format holds levels of red, green and blue, or of grey, as they are.
pub open spec fn is_plain(format: SourceFormat) -> bool {
    format == SourceFormat::Gray || format == SourceFormat::RawRgb || format
        == SourceFormat::RawBgr
}

/// Decodes the bytes of a frame by `nokhwa`'s `Buffer::decode_image` for
/// `RgbFormat`. Taken from its source: it succeeds exactly on well-formed frames,
/// its result is determined by the format, the size and the bytes, and it has
/// `decoded_len` bytes, which in the formats without coded colour are those of the
/// frame, rearranged. How the coded colours of the other two formats turn into red,
/// green and blue is left to the name.
#[verifier::external_body]
fn decode_rgb(format: SourceFormat, width: u32, height: u32, data: &[u8]) -> (r: Option<Vec<u8>>)
    requires
        is_decodable(format, width, height, data@.len()),
    ensures
        r is Some <==> is_well_formed(format, width, height, data@.len()),
        match r {
            Some(rgb) => {
                &&& decoded_rgb(format, width, height, data@) == Some(rgb@)
                &&& rgb@.len() == decoded_len(format, width, height, data@.len())
                &&& is_plain(format) ==> forall|k: int|
                    0 <= k < rgb@.len() ==> #[trigger] rgb@[k] == plain_byte(format, data@, k)
            },
            None => decoded_rgb(format, width, height, data@) is None,
        },
{
    let source = match format {
        SourceFormat::Yuyv => nokhwa::utils::FrameFormat::YUYV,
        SourceFormat::Nv12 => nokhwa::utils::FrameFormat::NV12,
        SourceFormat::Gray => nokhwa::utils::FrameFormat::GRAY,
        SourceFormat::RawRgb => nokhwa::utils::FrameFormat::RAWRGB,
        SourceFormat::RawBgr => nokhwa::utils::FrameFormat::RAWBGR,
    };
    let size = nokhwa::utils::Resolution::new(width, height);
    match nokhwa::Buffer::new(size, data, source).decode_image::<nokhwa::pixel_format::RgbFormat>() {
        Ok(image) => Some(image.into_raw()),
        Err(_) => None,
    }
}

/// Tells whether a frame of `len` bytes can be decoded.
pub fn check_decodable(format: SourceFormat, width: u32, height: u32, len: usize) -> (ok: bool)
    ensures
        ok == is_decodable(format, width, height, len as nat),
{
    match format {
        SourceFormat::Yuyv => len <= usize::MAX / 4,
        SourceFormat::Nv12 => {
            assert(width * height <= u32::MAX * u32::MAX) by (nonlinear_arith)
                requires
                    width <= u32::MAX,
                    height <= u32::MAX,
            ;
            let area: u64 = width as u64 * height as u64;
            width <= u32::MAX / 3 && area <= (u32::MAX / 3) as u64 && area as u128 <= (usize::MAX
                / 6) as u128 && (width != 0 || height % 2 != 0 || len > 0)
        },
        SourceFormat::Gray => len <= usize::MAX / 12,
        SourceFormat::RawRgb | SourceFormat::RawBgr => true,
    }
}

/// `r` is the outcome of decoding a frame.
pub open spec fn is_decoding(
    format: SourceFormat,
    width: u32,
    height: u32,
    data: Seq<u8>,
    r: Result<Seq<u8>, DecodeError>,
) -> bool {
    match r {
        Ok(rgb) => {
            &&& is_decodable(format, width, height, data.len())
            &&& is_well_formed(format, width, height, data.len())
            &&& decoded_rgb(format, width, height, data) == Some(rgb)
            &&& rgb.len() == decoded_len(format, width, height, data.len())
            &&& is_plain(format) ==> forall|k: int|
                0 <= k < rgb.len() ==> #[trigger] rgb[k] == plain_byte(format, data, k)
        },
        Err(DecodeError::OutOfRange) => !is_decodable(format, width, height, data.len()),
        Err(DecodeError::Malformed) => {
            &&& is_decodable(format, width, height, data.len())
            &&& !is_well_formed(format, width, height, data.len())
            &&& decoded_rgb(format, width, height, data) is None
        },
        Err(DecodeError::NoRows) => false,
    }
}

/// The view of an outcome.
pub open spec fn image_of(r: Result<Vec<u8>, DecodeError>) -> Result<Seq<u8>, DecodeError> {
    match r {
        Ok(rgb) => Ok(rgb@),
        Err(e) => Err(e),
    }
}

/// Decodes the bytes of a frame.
pub fn decode_frame(format: SourceFormat, width: u32, height: u32, data: &[u8]) -> (r: Result<
    Vec<u8>,
    DecodeError,
>)
    ensures
        is_decoding(format, width, height, data@, image_of(r)),
{
    if !check_decodable(format, width, height, data.len()) {
        return Err(DecodeError::OutOfRange);
    }
    match decode_rgb(format, width, height, data) {
        Some(rgb) => Ok(rgb),
        None => Err(DecodeError::Malformed),
    }
}

/// A camera image, and what is shown of it.
#[derive(Debug, Clone)]
pub struct CameraImage {
    pub width: usize,
    pub height: usize,
    pub rgb: Vec<u8>,
    pub preview: PreviewFrame,
}

/// `r` is the image of a frame with its preview.
pub open spec fn is_camera_image<A: Raster>(
    format: SourceFormat,
    width: u32,
    height: u32,
    data: Seq<u8>,
    r: Result<CameraImage, DecodeError>,
) -> bool {
    match r {
        Ok(image) => {
            &&& is_decoding(format, width, height, data, Ok(image.rgb@))
            &&& width <= PREVIEW_WIDTH || height > 0
            &&& image.width == width
            &&& image.height == height
            &&& is_preview::<A>(image.rgb@, image.width, image.height, PREVIEW_WIDTH, image.preview)
        },
        Err(DecodeError::NoRows) => {
            &&& width > PREVIEW_WIDTH
            &&& height == 0
            &&& exists|rgb: Seq<u8>| #[trigger] is_decoding(format, width, height, data, Ok(rgb))
        },
        Err(e) => is_decoding(format, width, height, data, Err(e)),
    }
}

/// Decodes the bytes of a frame, and makes the preview of its image.
pub fn camera_image<A: Raster>(format: SourceFormat, width: u32, height: u32, data: &[u8]) -> (r:
    Result<CameraImage, DecodeError>)
    ensures
        is_camera_image::<A>(format, width, height, data@, r),
{
    let decoded = decode_frame(format, width, height, data);
    assert(is_decoding(format, width, height, data@, image_of(decoded)));
    match decoded {
        Err(e) => Err(e),
        Ok(rgb) => {
            assert(is_decoding(format, width, height, data@, Ok(rgb@)));
            let (w, h) = (width as usize, height as usize);
            if w > PREVIEW_WIDTH && h == 0 {
                return Err(DecodeError::NoRows);
            }
            let preview = build_preview::<A>(rgb.as_slice(), w, h, PREVIEW_WIDTH);
            Ok(CameraImage { width: w, height: h, rgb, preview })
        },
    }
}

/// Whether a frame has an image depends on its format, its size and the number of
/// its bytes alone, and the image has all pixels of the size.
pub proof fn law_images_are_whole(
    format: SourceFormat,
    width: u32,
    height: u32,
    data: Seq<u8>,
    r: Result<Seq<u8>, DecodeError>,
)
    requires
        is_decoding(format, width, height, data, r),
    ensures
        r is Ok <==> is_decodable(format, width, height, data.len()) && is_well_formed(
            format,
            width,
            height,
            data.len(),
        ),
        r matches Ok(rgb) ==> 3 * (width * height) <= rgb.len(),
{
}

/// An image in a format without coded colour, byte by byte. Grey levels are those of
/// all three colours; red, green and blue stay in place, and blue, green and red turn
/// round within their pixel. Such an image is there where the bytes make up all pixels
/// of the size, as far as sizes fit their types.
pub proof fn law_plain_images(
    format: SourceFormat,
    width: u32,
    height: u32,
    data: Seq<u8>,
    r: Result<Seq<u8>, DecodeError>,
    p: int,
    c: int,
)
    requires
        is_decoding(format, width, height, data, r),
        0 <= p,
        0 <= c < 3,
    ensures
        format == SourceFormat::RawRgb || format == SourceFormat::RawBgr ==> {
            &&& r is Ok <==> 3 * (width * height) <= data.len() && 3 * width <= usize::MAX
            &&& r matches Ok(rgb) ==> rgb.len() == data.len()
        },
        format == SourceFormat::Gray ==> {
            &&& r is Ok ==> width * height <= data.len()
            &&& width * height <= data.len() && 3 * width <= usize::MAX && 6 * data.len()
                <= usize::MAX / 2 ==> r is Ok
            &&& r matches Ok(rgb) ==> rgb.len() == 3 * data.len()
        },
        format == SourceFormat::RawRgb ==> (r matches Ok(rgb) ==> (3 * p + c < data.len() ==> rgb[3
            * p + c] == data[3 * p + c])),
        format == SourceFormat::RawBgr ==> (r matches Ok(rgb) ==> (3 * p + 2 < data.len() ==> rgb[3
            * p + c] == data[3 * p + 2 - c])),
        format == SourceFormat::Gray ==> (r matches Ok(rgb) ==> (p < data.len() ==> rgb[3 * p + c]
            == data[p])),
{
    let k = 3 * p + c;
    assert(k / 3 == p && k % 3 == c);
    if let Ok(rgb) = r {
        if is_plain(format) && k < rgb.len() {
            assert(rgb[k] == plain_byte(format, data, k));
        }
    }
}

/// The image of a frame has the frame's size, is what its bytes decode to, and goes
/// with its preview: itself where it is at most 640 pixels wide, else scaled to 640
/// pixels. It is missing where the bytes do not decode, and where it has columns to be
/// scaled and no row.
pub proof fn law_camera_images<A: Raster>(
    format: SourceFormat,
    width: u32,
    height: u32,
    data: Seq<u8>,
    r: Result<CameraImage, DecodeError>,
)
    requires
        is_camera_image::<A>(format, width, height, data, r),
    ensures
        r matches Ok(image) ==> {
            &&& is_decoding(format, width, height, data, Ok(image.rgb@))
            &&& image.width == width
            &&& image.height == height
            &&& 3 * (width * height) <= image.rgb@.len()
            &&& width <= 640 ==> image.preview.width == width && image.preview.height == height
                && image.preview.rgb@ == image.rgb@
            &&& width > 640 ==> image.preview.width == 640 && height > 0
        },
        r == Err::<CameraImage, DecodeError>(DecodeError::NoRows) ==> width > 640 && height == 0,
        r matches Err(e) ==> (e != DecodeError::NoRows ==> is_decoding(
            format,
            width,
            height,
            data,
            Err(e),
        )),
{
}

/// An image in a format with coded colour is there where the bytes make up all pixels of
/// the size, and has three bytes a pixel: as many pixels as there are pairs of bytes, or
/// those of the size.
pub proof fn law_coded_images(
    format: SourceFormat,
    width: u32,
    height: u32,
    data: Seq<u8>,
    r: Result<Seq<u8>, DecodeError>,
)
    requires
        is_decoding(format, width, height, data, r),
        3 * width <= usize::MAX,
    ensures
        format == SourceFormat::Yuyv && 2 * data.len() <= usize::MAX / 2 ==> {
            &&& r is Ok <==> data.len() % 4 == 0 && 2 * (width * height) <= data.len()
            &&& r matches Ok(rgb) ==> 2 * rgb.len() == 3 * data.len()
        },
        format == SourceFormat::Nv12 && 0 < 3 * width <= u32::MAX && 3 * (width * height)
            <= u32::MAX && 3 * (width * height) <= usize::MAX / 2 ==> {
            &&& r is Ok <==> width % 2 == 0 && height % 2 == 0 && 2 * data.len() == 3 * (width
                * height)
            &&& r matches Ok(rgb) ==> rgb.len() == 3 * (width * height)
        },
{
}

} // verus!
