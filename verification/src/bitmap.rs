//! The region bitmap: a BMP file decoded into a flat buffer of RGB bytes.
//!
//! Decoding is the work of the `image` crate. What is decided here is which
//! files are taken: those whose pixels are 8-bit RGB, and whose pixel data
//! fits in memory.

use image::codecs::bmp::BmpDecoder;
use image::{ColorType, ImageDecoder, ImageError};
use std::io::Cursor;
use vstd::prelude::*;

verus! {

/// How a decoder hands out the pixels of a file.
#[derive(Debug, Clone, Copy, PartialEq, Eq, Structural)]
pub enum PixelEncoding {
    /// Three bytes a pixel: red, green, blue.
    Rgb8,
    /// Any other encoding.
    Other,
}

/// What the header of a bitmap file says of the image.
#[derive(Debug, Clone, Copy, PartialEq, Eq, Structural)]
pub struct BitmapHeader {
    pub width: u32,
    pub height: u32,
    pub encoding: PixelEncoding,
}

/// `image::ImageError`, the error of the decoder. It is carried through as
/// it comes; nothing is claimed of what it holds.
#[verifier::external_type_specification]
#[verifier::external_body]
pub struct ExImageError(ImageError);

/// Why no image could be loaded.
#[derive(Debug)]
pub enum ImageLoadError {
    /// The decoder refused the file; its own error says why.
    Decode(ImageError),
    /// The pixels of the file are not 8-bit RGB.
    UnsupportedEncoding,
    /// The pixel data is larger than a buffer can be.
    TooLarge,
}

/// The header that `BmpDecoder::new` reads from a file of these bytes, or
/// `None` where it refuses them.
pub uninterp spec fn bitmap_header(data: Seq<u8>) -> Option<BitmapHeader>;

/// The pixel bytes that `read_image` decodes from a file of these bytes
/// into a zeroed buffer, row by row from the top, or `None` where decoding
/// fails.
pub uninterp spec fn bitmap_pixels(data: Seq<u8>) -> Option<Seq<u8>>;

/// The number of bytes that the pixels of an RGB image of this size take.
pub open spec fn rgb_len(width: u32, height: u32) -> int {
    width * height * 3
}

/// `BmpDecoder::new` on an in-memory reader, followed by `dimensions` and
/// `color_type`: the decoder reads the headers of the file. The result is
/// the header it found, as a function of the bytes; an error where it found
/// none.
#[verifier::external_body]
fn read_header(data: &[u8]) -> (r: Result<BitmapHeader, ImageError>)
    ensures
        match r {
            Ok(header) => bitmap_header(data@) == Some(header),
            Err(_) => bitmap_header(data@) is None,
        },
{
    let decoder = BmpDecoder::new(Cursor::new(data))?;
    let (width, height) = decoder.dimensions();
    let encoding = match decoder.color_type() {
        ColorType::Rgb8 => PixelEncoding::Rgb8,
        _ => PixelEncoding::Other,
    };
    Ok(BitmapHeader { width, height, encoding })
}

/// `read_image` of a `BmpDecoder` on an in-memory reader: the decoder fills
/// `buf` with the pixels of the file. It panics unless `buf` has the length
/// it asks for, which for RGB pixels is three bytes for each pixel; the
/// precondition rules that out. It also asks for a zeroed buffer, so that
/// what comes out does not depend on what was in it. The length of `buf`
/// stays; on success its content is the pixel data, as a function of the
/// bytes of the file.
#[verifier::external_body]
fn read_pixels(data: &[u8], buf: &mut Vec<u8>) -> (r: Result<(), ImageError>)
    requires
        bitmap_header(data@) matches Some(header) && header.encoding == PixelEncoding::Rgb8
            && old(buf)@.len() == rgb_len(header.width, header.height),
        forall|i: int| 0 <= i < old(buf)@.len() ==> old(buf)@[i] == 0,
    ensures
        final(buf)@.len() == old(buf)@.len(),
        match r {
            Ok(_) => bitmap_pixels(data@) == Some(final(buf)@),
            Err(_) => bitmap_pixels(data@) is None,
        },
{
    BmpDecoder::new(Cursor::new(data))?.read_image(buf)
}

/// An image as a flat buffer of RGB bytes: row after row from the top,
/// three bytes for each pixel.
pub struct MapImage {
    width: u32,
    height: u32,
    bytes: Vec<u8>,
}

/// The view of a [`MapImage`].
pub struct Raster {
    pub width: u32,
    pub height: u32,
    pub bytes: Seq<u8>,
}

impl View for MapImage {
    type V = Raster;

    closed spec fn view(&self) -> Raster {
        Raster { width: self.width, height: self.height, bytes: self.bytes@ }
    }
}

impl MapImage {
    #[verifier::type_invariant]
    spec fn sized(self) -> bool {
        self.bytes@.len() == rgb_len(self.width, self.height)
    }

    /// An image of the given size over the given bytes, where there are
    /// three bytes for each pixel, and `None` where there are not.
    pub fn new(width: u32, height: u32, bytes: Vec<u8>) -> (r: Option<MapImage>)
        ensures
            match r {
                Some(image) => {
                    &&& bytes@.len() == rgb_len(width, height)
                    &&& image@.width == width
                    &&& image@.height == height
                    &&& image@.bytes == bytes@
                },
                None => bytes@.len() != rgb_len(width, height),
            },
    {
        let given = bytes.len();
        match buffer_len(width, height) {
            Some(len) => if len == given {
                Some(MapImage { width, height, bytes })
            } else {
                None
            },
            None => None,
        }
    }

    /// The number of pixels in a row.
    pub fn width(&self) -> (w: u32)
        ensures
            w == self@.width,
    {
        self.width
    }

    /// The number of rows.
    pub fn height(&self) -> (h: u32)
        ensures
            h == self@.height,
    {
        self.height
    }

    /// The pixel bytes, three for each pixel.
    pub fn bytes(&self) -> (b: &[u8])
        ensures
            b@ == self@.bytes,
            b@.len() == rgb_len(self@.width, self@.height),
    {
        proof {
            use_type_invariant(self);
        }
        self.bytes.as_slice()
    }
}

/// The length of the buffer that holds an RGB image of this size, where a
/// buffer can be that long.
pub fn buffer_len(width: u32, height: u32) -> (r: Option<usize>)
    ensures
        match r {
            Some(len) => len == rgb_len(width, height),
            None => rgb_len(width, height) > usize::MAX,
        },
{
    assert(width * height <= 0xffff_fffe_0000_0001) by (nonlinear_arith)
        requires
            width <= 0xffff_ffff,
            height <= 0xffff_ffff,
    ;
    let pixels: u64 = (width as u64) * (height as u64);
    let total: u128 = (pixels as u128) * 3;
    if total <= usize::MAX as u128 {
        Some(total as usize)
    } else {
        None
    }
}

/// Decides what to do with a file whose header is `header`: the length of
/// the buffer to decode it into, or the reason why it is not taken.
pub fn plan_buffer(header: BitmapHeader) -> (r: Result<usize, ImageLoadError>)
    ensures
        match r {
            Ok(len) => header.encoding == PixelEncoding::Rgb8 && len == rgb_len(
                header.width,
                header.height,
            ),
            Err(ImageLoadError::UnsupportedEncoding) => header.encoding != PixelEncoding::Rgb8,
            Err(ImageLoadError::TooLarge) => header.encoding == PixelEncoding::Rgb8 && rgb_len(
                header.width,
                header.height,
            ) > usize::MAX,
            Err(ImageLoadError::Decode(_)) => false,
        },
{
    match header.encoding {
        PixelEncoding::Rgb8 => match buffer_len(header.width, header.height) {
            Some(len) => Ok(len),
            None => Err(ImageLoadError::TooLarge),
        },
        PixelEncoding::Other => Err(ImageLoadError::UnsupportedEncoding),
    }
}

/// Decodes the bitmap file that `data` holds into an image.
///
/// The file is taken where its header can be read, its pixels are 8-bit
/// RGB, the pixel data fits in a buffer, and the pixels can be decoded; the
/// image then has the size the header gives and the pixels the decoder
/// produced. A file of another encoding is refused, never converted.
pub fn parse_region_image(data: &[u8]) -> (r: Result<MapImage, ImageLoadError>)
    ensures
        match r {
            Ok(image) => {
                &&& bitmap_header(data@) matches Some(header)
                &&& header.encoding == PixelEncoding::Rgb8
                &&& image@.width == header.width
                &&& image@.height == header.height
                &&& bitmap_pixels(data@) == Some(image@.bytes)
            },
            Err(ImageLoadError::UnsupportedEncoding) => {
                &&& bitmap_header(data@) matches Some(header)
                &&& header.encoding != PixelEncoding::Rgb8
            },
            Err(ImageLoadError::TooLarge) => {
                &&& bitmap_header(data@) matches Some(header)
                &&& header.encoding == PixelEncoding::Rgb8
                &&& rgb_len(header.width, header.height) > usize::MAX
            },
            Err(ImageLoadError::Decode(_)) => {
                ||| bitmap_header(data@) is None
                ||| {
                    &&& bitmap_header(data@) matches Some(header)
                    &&& header.encoding == PixelEncoding::Rgb8
                    &&& rgb_len(header.width, header.height) <= usize::MAX
                    &&& bitmap_pixels(data@) is None
                }
            },
        },
{
    let header = match read_header(data) {
        Ok(header) => header,
        Err(e) => {
            return Err(ImageLoadError::Decode(e));
        },
    };
    let len = match plan_buffer(header) {
        Ok(len) => len,
        Err(e) => {
            return Err(e);
        },
    };
    let mut bytes: Vec<u8> = vec![0u8; len];
    match read_pixels(data, &mut bytes) {
        Ok(_) => Ok(MapImage { width: header.width, height: header.height, bytes }),
        Err(e) => Err(ImageLoadError::Decode(e)),
    }
}

} // verus!
