//! Image decoding and encoding (the `image` crate) and zlib inflation (the
//! `flate2` crate).
use vstd::prelude::*;
use image::DynamicImage;

verus! {

#[verifier::external_type_specification]
#[verifier::external_body]
pub struct ExDynamicImage(image::DynamicImage);

/// What `flate2`'s zlib decoder yields from `data` read to its end, or `None`
/// where it reports an error.
pub uninterp spec fn zlib_inflated(data: Seq<u8>) -> Option<Seq<u8>>;

/// `flate2::read::ZlibDecoder` read to its end: the inflated bytes, or `None`
/// where the decoder reports an error (partial output is dropped).
#[verifier::external_body]
pub(crate) fn zlib_decompress(data: &[u8]) -> (r: Option<Vec<u8>>)
    ensures
        r is Some <==> zlib_inflated(data@) is Some,
        r matches Some(v) ==> zlib_inflated(data@) == Some(v@),
{
    let mut decoder = flate2::read::ZlibDecoder::new(data);
    let mut buf = Vec::with_capacity(data.len());
    match std::io::Read::read_to_end(&mut decoder, &mut buf) {
        Ok(_) => Some(buf),
        Err(_) => None,
    }
}

/// An image as plain values: its size, its number of channels and of bytes
/// per sample, its sample bytes, and an index of the colour-space tag
/// (CICP) it carries.
pub struct ImageModel {
    pub width: u32,
    pub height: u32,
    pub channels: u8,
    pub sample_bytes: u8,
    pub bytes: Seq<u8>,
    pub color_tag: int,
}

/// An image of `width` by `height` pixels of `channels` 8-bit samples,
/// whose sample bytes are `pixels`.
pub open spec fn raw_pixels(img: ImageModel, width: u32, height: u32, channels: u8, pixels: Seq<u8>) -> bool {
    &&& img.width == width
    &&& img.height == height
    &&& img.channels == channels
    &&& img.sample_bytes == 1
    &&& img.bytes == pixels
}

/// The plain values of an image.
pub uninterp spec fn image_view(img: DynamicImage) -> ImageModel;

/// The image `ImageBuffer::from_raw` makes of `width * height` pixels of
/// `channels` 8-bit samples, given exactly that many bytes.
pub uninterp spec fn raw_image(width: u32, height: u32, channels: u8, pixels: Seq<u8>) -> ImageModel;

/// What `image::load_from_memory` decodes from `data`, or `None`.
pub uninterp spec fn decoded_image(data: Seq<u8>) -> Option<ImageModel>;

/// What `DynamicImage::resize` with the `Triangle` filter makes of an image
/// for the bounds `width` by `height`.
pub uninterp spec fn resized_image(img: ImageModel, width: u32, height: u32) -> ImageModel;

/// The bytes `JpegEncoder::new_with_quality` writes for an image at a
/// quality, or `None` where encoding fails.
pub uninterp spec fn jpeg_encoded(img: ImageModel, quality: u8) -> Option<Seq<u8>>;

/// `ImageBuffer::from_raw` for 8-bit grey pixels: an image exactly when the
/// buffer holds at least `width * height` bytes.
#[verifier::external_body]
pub(crate) fn gray_image(width: u32, height: u32, pixels: Vec<u8>) -> (r: Option<DynamicImage>)
    ensures
        r is Some <==> width * height <= pixels@.len(),
        r matches Some(img) ==> (width * height == pixels@.len() ==> image_view(img) == raw_image(
            width,
            height,
            1,
            pixels@,
        ) && raw_pixels(image_view(img), width, height, 1, pixels@)),
{
    image::ImageBuffer::from_raw(width, height, pixels).map(DynamicImage::ImageLuma8)
}

/// `ImageBuffer::from_raw` for 8-bit RGB pixels: an image exactly when the
/// buffer holds at least `width * height * 3` bytes.
#[verifier::external_body]
pub(crate) fn rgb_image(width: u32, height: u32, pixels: Vec<u8>) -> (r: Option<DynamicImage>)
    ensures
        r is Some <==> width * height * 3 <= pixels@.len(),
        r matches Some(img) ==> (width * height * 3 == pixels@.len() ==> image_view(img)
            == raw_image(width, height, 3, pixels@) && raw_pixels(image_view(img), width, height, 3, pixels@)),
{
    image::ImageBuffer::from_raw(width, height, pixels).map(DynamicImage::ImageRgb8)
}

/// `ImageBuffer::from_raw` for 8-bit RGBA pixels: an image exactly when the
/// buffer holds at least `width * height * 4` bytes.
#[verifier::external_body]
pub(crate) fn rgba_image(width: u32, height: u32, pixels: Vec<u8>) -> (r: Option<DynamicImage>)
    ensures
        r is Some <==> width * height * 4 <= pixels@.len(),
        r matches Some(img) ==> (width * height * 4 == pixels@.len() ==> image_view(img)
            == raw_image(width, height, 4, pixels@) && raw_pixels(image_view(img), width, height, 4, pixels@)),
{
    image::ImageBuffer::from_raw(width, height, pixels).map(DynamicImage::ImageRgba8)
}

/// `image::load_from_memory`: the image encoded in `data` in a format the
/// crate recognizes, or `None`.
#[verifier::external_body]
pub(crate) fn decode_image(data: &[u8]) -> (r: Option<DynamicImage>)
    ensures
        r is Some <==> decoded_image(data@) is Some,
        r matches Some(img) ==> decoded_image(data@) == Some(image_view(img)),
{
    image::load_from_memory(data).ok()
}

/// `DynamicImage::resize` with the `Triangle` (bilinear) filter: the image
/// scaled to fit within `width` by `height`, keeping its aspect ratio.
#[verifier::external_body]
pub(crate) fn resize_bilinear(img: &DynamicImage, width: u32, height: u32) -> (r: DynamicImage)
    ensures
        image_view(r) == resized_image(image_view(*img), width, height),
{
    img.resize(width, height, image::imageops::FilterType::Triangle)
}

/// Encodes an image as JPEG at the given quality (`JpegEncoder`, which clamps
/// the quality to `1..=100`), or `None` where encoding fails.
#[verifier::external_body]
pub(crate) fn encode_jpeg(img: &DynamicImage, quality: u8) -> (r: Option<Vec<u8>>)
    ensures
        r is Some <==> jpeg_encoded(image_view(*img), quality) is Some,
        r matches Some(v) ==> jpeg_encoded(image_view(*img), quality) == Some(v@),
{
    let mut buffer = Vec::new();
    let encoder = image::codecs::jpeg::JpegEncoder::new_with_quality(&mut buffer, quality);
    img.write_with_encoder(encoder).ok()?;
    Some(buffer)
}

} // verus!
