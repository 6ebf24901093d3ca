use vstd::prelude::*;
use image::DynamicImage;
use lopdf::{Dictionary, Document};
use crate::codec::{
    decode_image, decoded_image, encode_jpeg, gray_image, image_view, jpeg_encoded, raw_image, raw_pixels,
    resize_bilinear, resized_image, rgb_image, rgba_image, zlib_decompress, zlib_inflated,
    ImageModel,
};
use crate::config::presets::CompressionConfig;
use crate::pdf::{
    dict_clone, dict_model, dict_set_integer, dict_set_name, doc_pages, doc_set_stream,
    doc_objects, dict_entries, opt_texts, image_views, PdfValue, page_image_view, page_images, page_images_of, page_list, set_int_model,
    set_name_model, stored_streams, DictModel, ObjectId, PageImage, PageImageModel, StreamModel,
};
use crate::text::{any_equals, opt_text, seq_contains, text_contains, text_eq, texts};
use crate::utils::binary64::{
    lemma_scaled_within_limit, saturate_u32, scaled_dimension, scaled_dimension_u32,
};
use vstd::string::StringSliceAdditionalSpecFns;

verus! {

/// Statistics of image re-encoding.
#[derive(Clone, Copy, Debug, PartialEq, Eq, Structural)]
pub struct ImageStats {
    /// How many images were replaced by a smaller JPEG.
    pub images_processed: usize,
    /// Their total size before.
    pub images_original_bytes: u64,
    /// Their total size after.
    pub images_compressed_bytes: u64,
    /// How many JPEG 2000 images were skipped, which cannot be re-encoded.
    pub images_skipped_jpeg2000: usize,
}

impl Default for ImageStats {
    fn default() -> (s: ImageStats)
        ensures
            s == zero_image_stats(),
    {
        ImageStats {
            images_processed: 0,
            images_original_bytes: 0,
            images_compressed_bytes: 0,
            images_skipped_jpeg2000: 0,
        }
    }
}

/// No image replaced.
pub open spec fn zero_image_stats() -> ImageStats {
    ImageStats {
        images_processed: 0,
        images_original_bytes: 0,
        images_compressed_bytes: 0,
        images_skipped_jpeg2000: 0,
    }
}

/// Some entry of `items` is `t`.
pub open spec fn lists(items: Option<Seq<Seq<char>>>, t: Seq<char>) -> bool {
    match items {
        Some(v) => exists|i: int| 0 <= i < v.len() && #[trigger] v[i] == t,
        None => false,
    }
}

/// The filter chain inflates zlib data first (`FlateDecode`, or
/// `LZWDecode`, which is attempted the same way).
pub open spec fn inflates(filters: Option<Seq<Seq<char>>>) -> bool {
    lists(filters, "FlateDecode"@) || lists(filters, "LZWDecode"@)
}

/// A losslessly compressed (PNG-style) image: its data is inflated and is
/// not a JPEG.
pub open spec fn lossless(filters: Option<Seq<Seq<char>>>) -> bool {
    inflates(filters) && !lists(filters, "DCTDecode"@)
}

/// The number of colour components assumed for an image's colour space:
/// one for `DeviceGray`, three otherwise.
pub open spec fn color_components(cs: Option<Seq<char>>) -> usize {
    match cs {
        Some(s) => if s == "DeviceGray"@ {
            1
        } else {
            3
        },
        None => 3,
    }
}

/// Whether an image is worth re-encoding: at least 1 KiB of data, not CMYK or
/// ICC-based (which would shift colours), not JPEG 2000, and 8 bits per
/// component where the depth is given. A lossless (PNG-style) image is
/// re-encoded only where the settings convert PNG to JPEG and it has colour
/// (grayscale keeps its format).
pub open spec fn image_qualifies(img: PageImageModel, config: CompressionConfig) -> bool {
    &&& img.content.len() >= 1024
    &&& match img.color_space {
        Some(cs) => !seq_contains(cs, "CMYK"@) && !seq_contains(cs, "ICCBased"@),
        None => true,
    }
    &&& !lists(img.filters, "JPXDecode"@)
    &&& match img.bits_per_component {
        Some(b) => b == 8,
        None => true,
    }
    &&& lossless(img.filters) ==> config.png_to_jpeg && color_components(img.color_space) >= 3
}

/// Whether some entry of `items` is `t`.
fn lists_text(items: &Option<Vec<String>>, t: &str) -> (b: bool)
    ensures
        b == lists(opt_texts(*items), t@),
{
    match items {
        Some(v) => {
            let b = any_equals(v, t);
            proof {
                let w = texts(v@);
                let o = opt_texts(*items);
                assert(o matches Some(x) && x == w);
                assert(w.len() == v@.len());
                if b {
                    let i = choose|i: int| 0 <= i < v@.len() && #[trigger] v@[i]@ == t@;
                    assert(w[i] == v@[i]@);
                    assert(exists|k: int| 0 <= k < w.len() && #[trigger] w[k] == t@);
                    assert(lists(o, t@));
                } else {
                    assert forall|i: int| 0 <= i < w.len() implies #[trigger] w[i] != t@ by {
                        assert(w[i] == v@[i]@);
                        assert(!(v@[i]@ == t@));
                    }
                    assert(!lists(o, t@));
                }
            }
            b
        },
        None => false,
    }
}

/// The number of colour components assumed for a colour space.
pub fn components_of(cs: &Option<String>) -> (n: usize)
    ensures
        n == color_components(opt_text(*cs)),
{
    match cs {
        Some(s) => if text_eq(s.as_str(), "DeviceGray") {
            1
        } else {
            3
        },
        None => 3,
    }
}

/// Whether an image is worth re-encoding with these settings.
pub fn qualifies(img: &PageImage, config: &CompressionConfig) -> (b: bool)
    ensures
        b == image_qualifies(page_image_view(*img), *config),
{
    if img.content.len() < 1024 {
        return false;
    }
    let color_ok = match &img.color_space {
        Some(cs) => !text_contains(cs.as_str(), "CMYK") && !text_contains(cs.as_str(), "ICCBased"),
        None => true,
    };
    if !color_ok {
        return false;
    }
    if lists_text(&img.filters, "JPXDecode") {
        return false;
    }
    let depth_ok = match img.bits_per_component {
        Some(b) => b == 8,
        None => true,
    };
    if !depth_ok {
        return false;
    }
    let lossless_data = (lists_text(&img.filters, "FlateDecode") || lists_text(&img.filters, "LZWDecode"))
        && !lists_text(&img.filters, "DCTDecode");
    !lossless_data || (config.png_to_jpeg && components_of(&img.color_space) >= 3)
}

/// The bytes an image's pixels are read from: the inflated data where the
/// filters inflate and inflation succeeds, else the data as stored.
pub open spec fn pixel_source(data: Seq<u8>, filters: Option<Seq<Seq<char>>>) -> Seq<u8> {
    if inflates(filters) {
        match zlib_inflated(data) {
            Some(v) => v,
            None => data,
        }
    } else {
        data
    }
}

/// The image decoded from a PDF image's data: none for an empty size; raw
/// 8-bit pixels where the pixel data holds exactly `width * height *
/// components` bytes (for one, three or four components); otherwise what
/// `image::load_from_memory` decodes.
pub open spec fn decoded_pdf_image(
    data: Seq<u8>,
    width: u32,
    height: u32,
    components: usize,
    filters: Option<Seq<Seq<char>>>,
) -> Option<ImageModel> {
    let pixels = pixel_source(data, filters);
    if width == 0 || height == 0 {
        None
    } else if pixels.len() == width * height * components {
        if components == 1 || components == 3 || components == 4 {
            Some(raw_image(width, height, components as u8, pixels))
        } else {
            None
        }
    } else {
        decoded_image(pixels)
    }
}

/// Decodes the data of a PDF image: inflated first where its filters call for
/// it; taken as raw 8-bit pixels where its length is exactly
/// `width * height * components`; otherwise read as an encoded image (a
/// JPEG, for DCTDecode data).
pub fn decode_pdf_image(
    data: &[u8],
    width: u32,
    height: u32,
    components: usize,
    filters: &Option<Vec<String>>,
) -> (r: Option<DynamicImage>)
    ensures
        r is Some <==> decoded_pdf_image(data@, width, height, components, opt_texts(*filters))
            is Some,
        r matches Some(img) ==> decoded_pdf_image(data@, width, height, components, opt_texts(*filters))
            == Some(image_view(img)),
        r matches Some(img) ==> (pixel_source(data@, opt_texts(*filters)).len() == width * height
            * components ==> raw_pixels(
            image_view(img),
            width,
            height,
            components as u8,
            pixel_source(data@, opt_texts(*filters)),
        )),
{
    if width == 0 || height == 0 {
        return None;
    }
    let has_flate = lists_text(filters, "FlateDecode") || lists_text(filters, "LZWDecode");
    let decompressed: Option<Vec<u8>> = if has_flate {
        zlib_decompress(data)
    } else {
        None
    };
    let pixel_data: &[u8] = match &decompressed {
        Some(d) => d.as_slice(),
        None => data,
    };
    assert(pixel_data@ == pixel_source(data@, opt_texts(*filters)));
    let plen = pixel_data.len();
    assert((width as u128) * (height as u128) < 0x1_0000_0000_0000_0000) by (nonlinear_arith)
        requires
            width <= u32::MAX,
            height <= u32::MAX,
    ;
    let area: u128 = (width as u128) * (height as u128);
    assert(area * components < 0x1_0000_0000_0000_0000_0000_0000_0000_0000) by (nonlinear_arith)
        requires
            area < 0x1_0000_0000_0000_0000,
            components < 0x1_0000_0000_0000_0000,
            area >= 0,
    ;
    let expected: u128 = area * (components as u128);
    let raw = plen as u128 == expected;
    proof {
        if raw {
            assert(plen == width * height * components);
            assert(width * height * 1 == width * height);
        }
    }
    if raw {
        let pixels = vstd::slice::slice_to_vec(pixel_data);
        return match components {
            1 => gray_image(width, height, pixels),
            3 => rgb_image(width, height, pixels),
            4 => rgba_image(width, height, pixels),
            _ => None,
        };
    }
    decode_image(pixel_data)
}

/// The dimensions an image is scaled to: where a limit is set and a side
/// exceeds it, both sides times `limit / longest side`, computed in `f64`
/// and truncated; `None` where the image is kept at its size.
pub open spec fn target_dimensions(width: u32, height: u32, limit: u32) -> Option<(u32, u32)> {
    if limit > 0 && (width > limit || height > limit) {
        let longest: u32 = if width > height {
            width
        } else {
            height
        };
        Some(
            (
                saturate_u32(scaled_dimension(width as nat, limit as nat, longest as nat)),
                saturate_u32(scaled_dimension(height as nat, limit as nat, longest as nat)),
            ),
        )
    } else {
        None
    }
}

/// A downscaled image fits within the limit: neither new side exceeds it.
/// An image with no side above the limit, or with no limit set, is kept at
/// its size.
pub proof fn lemma_downscaled_fits(width: u32, height: u32, limit: u32)
    ensures
        target_dimensions(width, height, limit) matches Some((w, h)) ==> w <= limit && h <= limit,
        target_dimensions(width, height, limit) is None <==> (limit == 0 || (width <= limit
            && height <= limit)),
{
    if limit > 0 && (width > limit || height > limit) {
        let longest: u32 = if width > height {
            width
        } else {
            height
        };
        lemma_scaled_within_limit(width as nat, limit as nat, longest as nat);
        lemma_scaled_within_limit(height as nat, limit as nat, longest as nat);
    }
}

/// The dimensions an image is scaled to, or `None` where it keeps its size.
pub fn downscaled_dimensions(width: u32, height: u32, limit: u32) -> (r: Option<(u32, u32)>)
    ensures
        r == target_dimensions(width, height, limit),
{
    if limit > 0 && (width > limit || height > limit) {
        let longest = if width > height {
            width
        } else {
            height
        };
        Some(
            (
                scaled_dimension_u32(width, limit, longest),
                scaled_dimension_u32(height, limit, longest),
            ),
        )
    } else {
        None
    }
}

/// The dictionary of a re-encoded image: the original entries, with
/// `/Width` and `/Height` set to the new size, `/Filter /DCTDecode`, and
/// `/Length` set to the JPEG data's length.
pub open spec fn image_dict_model(m: DictModel, width: u32, height: u32, length: int) -> DictModel {
    set_int_model(
        set_name_model(
            set_int_model(
                set_int_model(m, "Width".spec_bytes(), width as i64),
                "Height".spec_bytes(),
                height as i64,
            ),
            "Filter".spec_bytes(),
            "DCTDecode".spec_bytes(),
        ),
        "Length".spec_bytes(),
        length as i64,
    )
}

/// The entries of a re-encoded image's dictionary: the original entries,
/// with `/Width` and `/Height` the new size, `/Filter /DCTDecode`, and
/// `/Length` the JPEG data's length.
pub open spec fn image_entries(e: Map<Seq<u8>, PdfValue>, width: u32, height: u32, length: int) -> Map<
    Seq<u8>,
    PdfValue,
> {
    e.insert("Width".spec_bytes(), PdfValue::Integer(width as i64)).insert(
        "Height".spec_bytes(),
        PdfValue::Integer(height as i64),
    ).insert("Filter".spec_bytes(), PdfValue::Name("DCTDecode".spec_bytes())).insert(
        "Length".spec_bytes(),
        PdfValue::Integer(length as i64),
    )
}

/// The stream dictionary of a re-encoded image: the original entries, with
/// `/Width`, `/Height`, `/Filter /DCTDecode` and `/Length` set.
pub fn image_stream_dict(original: &Dictionary, width: u32, height: u32, length: usize) -> (d:
    Dictionary)
    ensures
        dict_model(d) == image_dict_model(dict_model(*original), width, height, length as int),
        dict_entries(d) == image_entries(dict_entries(*original), width, height, length as int),
{
    let mut d = dict_clone(original);
    dict_set_integer(&mut d, "Width", width as i64);
    dict_set_integer(&mut d, "Height", height as i64);
    dict_set_name(&mut d, "Filter", "DCTDecode");
    dict_set_integer(&mut d, "Length", length as i64);
    d
}

/// The stored stream of a re-encoded image: the original entries with
/// `/Width`, `/Height`, `/Filter /DCTDecode` and `/Length` set, holding the
/// JPEG data.
pub open spec fn replaced_stream(original: DictModel, new_data: Seq<u8>, width: u32, height: u32) -> StreamModel {
    StreamModel { dict: image_dict_model(original, width, height, new_data.len() as int), content: new_data }
}

/// Setting an integer entry twice to the same value is setting it once.
proof fn lemma_set_int_twice(m: DictModel, key: Seq<u8>, value: i64)
    ensures
        set_int_model(set_int_model(m, key, value), key, value) == set_int_model(m, key, value),
{
    let once = set_int_model(m, key, value);
    let twice = set_int_model(once, key, value);
    assert(twice.keys =~= once.keys);
    assert(twice.names =~= once.names);
    assert(twice.texts =~= once.texts);
    assert(twice.arrays =~= once.arrays);
    assert(twice.ints =~= once.ints);
    assert(twice.refs =~= once.refs);
}

/// Replaces an image's stream with JPEG data, keeping the other entries of
/// its dictionary; the document's other stored streams stay as they were.
pub fn replace_image_stream(
    doc: &mut Document,
    object_id: ObjectId,
    new_data: Vec<u8>,
    width: u32,
    height: u32,
    original_entries: &Dictionary,
)
    ensures
        stored_streams(*final(doc)) == stored_streams(*old(doc)).insert(
            object_id,
            replaced_stream(dict_model(*original_entries), new_data@, width, height),
        ),
        doc_objects(*final(doc)) == doc_objects(*old(doc)).insert(
            object_id,
            PdfValue::Stream(
                image_entries(dict_entries(*original_entries), width, height, new_data@.len() as int),
                new_data@,
            ),
        ),
{
    let ghost data = new_data@;
    let dict = image_stream_dict(original_entries, width, height, new_data.len());
    doc_set_stream(doc, object_id, dict, new_data);
    proof {
        let m = dict_model(*original_entries);
        let named = set_name_model(
            set_int_model(
                set_int_model(m, "Width".spec_bytes(), width as i64),
                "Height".spec_bytes(),
                height as i64,
            ),
            "Filter".spec_bytes(),
            "DCTDecode".spec_bytes(),
        );
        lemma_set_int_twice(named, "Length".spec_bytes(), data.len() as i64);
        let e = image_entries(dict_entries(*original_entries), width, height, data.len() as int);
        assert(e.insert("Length".spec_bytes(), PdfValue::Integer(data.len() as i64)) =~= e);
    }
}

/// The least total a number of replaced images can have had: each held at
/// least 1 KiB (saturating at `u64::MAX`).
pub open spec fn min_replaced_bytes(count: nat) -> nat {
    if 1024 * count > u64::MAX {
        u64::MAX as nat
    } else {
        1024 * count
    }
}

/// `a + b`, saturating at `u64::MAX`.
pub open spec fn sat_add(a: u64, b: int) -> u64 {
    if a + b > u64::MAX {
        u64::MAX
    } else {
        (a + b) as u64
    }
}

/// The size an image is given: scaled down to the limit where it exceeds
/// it, else its own (both read as `u32`).
pub open spec fn image_size(img: PageImageModel, config: CompressionConfig) -> (u32, u32) {
    match target_dimensions(img.width as u32, img.height as u32, config.max_dimension) {
        Some(d) => d,
        None => (img.width as u32, img.height as u32),
    }
}

/// The JPEG data that replaces an image: its decoded pixels, scaled to
/// `image_size` where that differs from its own size, encoded at the
/// configured quality; `None` where decoding or encoding fails or the JPEG
/// is not smaller than the stored data.
pub open spec fn image_jpeg(img: PageImageModel, config: CompressionConfig) -> Option<Seq<u8>> {
    let w = img.width as u32;
    let h = img.height as u32;
    match decoded_pdf_image(img.content, w, h, color_components(img.color_space), img.filters) {
        None => None,
        Some(pic) => {
            let scaled = match target_dimensions(w, h, config.max_dimension) {
                Some((nw, nh)) => resized_image(pic, nw, nh),
                None => pic,
            };
            match jpeg_encoded(scaled, config.jpeg_quality) {
                Some(j) => if j.len() < img.content.len() {
                    Some(j)
                } else {
                    None
                },
                None => None,
            }
        },
    }
}

/// The stored streams and statistics after one more queued image was
/// handled: replaced by its JPEG, with the counts updated, where it has one.
pub open spec fn after_image(
    state: (Map<ObjectId, StreamModel>, ImageStats),
    img: PageImageModel,
    config: CompressionConfig,
) -> (Map<ObjectId, StreamModel>, ImageStats) {
    match image_jpeg(img, config) {
        Some(j) => {
            let (w, h) = image_size(img, config);
            (
                state.0.insert(img.id, replaced_stream(img.dict, j, w, h)),
                ImageStats {
                    images_processed: (state.1.images_processed + 1) as usize,
                    images_original_bytes: sat_add(
                        state.1.images_original_bytes,
                        img.content.len() as int,
                    ),
                    images_compressed_bytes: sat_add(
                        state.1.images_compressed_bytes,
                        j.len() as int,
                    ),
                    images_skipped_jpeg2000: state.1.images_skipped_jpeg2000,
                },
            )
        },
        None => state,
    }
}

/// The stored streams and statistics after the queued images were handled in
/// order, starting from `start`.
pub open spec fn run_images(
    queue: Seq<PageImageModel>,
    config: CompressionConfig,
    start: (Map<ObjectId, StreamModel>, ImageStats),
) -> (Map<ObjectId, StreamModel>, ImageStats)
    decreases queue.len(),
{
    if queue.len() == 0 {
        start
    } else {
        after_image(run_images(queue.drop_last(), config, start), queue.last(), config)
    }
}

/// Every object of the document after the queued images were handled in
/// order: each image that has a JPEG becomes a stream of it, its entries
/// updated as `image_entries` says.
pub open spec fn objects_after_images(
    queue: Seq<PageImageModel>,
    config: CompressionConfig,
    start: Map<ObjectId, PdfValue>,
) -> Map<ObjectId, PdfValue>
    decreases queue.len(),
{
    if queue.len() == 0 {
        start
    } else {
        let prev = objects_after_images(queue.drop_last(), config, start);
        let img = queue.last();
        match image_jpeg(img, config) {
            Some(j) => {
                let (w, h) = image_size(img, config);
                prev.insert(img.id, PdfValue::Stream(image_entries(img.entries, w, h, j.len() as int), j))
            },
            None => prev,
        }
    }
}

/// The images of `images` that qualify, in order.
pub open spec fn qualifying(images: Seq<PageImageModel>, config: CompressionConfig) -> Seq<
    PageImageModel,
>
    decreases images.len(),
{
    if images.len() == 0 {
        seq![]
    } else if image_qualifies(images.last(), config) {
        qualifying(images.drop_last(), config).push(images.last())
    } else {
        qualifying(images.drop_last(), config)
    }
}

/// The images `Document::get_page_images` reports for a page (none where it
/// reports an error).
pub open spec fn page_image_models(doc: Document, page: ObjectId) -> Seq<PageImageModel> {
    match page_images_of(doc, page) {
        Some(v) => v,
        None => seq![],
    }
}

/// The qualifying images of the pages, page by page.
pub open spec fn queued_images(
    doc: Document,
    pages: Seq<(u32, ObjectId)>,
    config: CompressionConfig,
) -> Seq<PageImageModel>
    decreases pages.len(),
{
    if pages.len() == 0 {
        seq![]
    } else {
        queued_images(doc, pages.drop_last(), config) + qualifying(
            page_image_models(doc, pages.last().1),
            config,
        )
    }
}

/// How many of `images` are JPEG 2000 images.
pub open spec fn jpx_in(images: Seq<PageImageModel>) -> nat
    decreases images.len(),
{
    if images.len() == 0 {
        0
    } else {
        jpx_in(images.drop_last()) + if lists(images.last().filters, "JPXDecode"@) {
            1nat
        } else {
            0nat
        }
    }
}

/// How many JPEG 2000 images the pages show, page by page.
pub open spec fn jpx_images(doc: Document, pages: Seq<(u32, ObjectId)>) -> nat
    decreases pages.len(),
{
    if pages.len() == 0 {
        0
    } else {
        jpx_images(doc, pages.drop_last()) + jpx_in(page_image_models(doc, pages.last().1))
    }
}

/// `n`, saturating at `usize::MAX`.
pub open spec fn sat_usize(n: nat) -> usize {
    if n > usize::MAX {
        usize::MAX
    } else {
        n as usize
    }
}

/// Where the image stage starts from: the document's stored streams, and no
/// image replaced yet, with the JPEG 2000 images of its pages counted as
/// skipped.
pub open spec fn image_stage_start(doc: Document) -> (Map<ObjectId, StreamModel>, ImageStats) {
    (
        stored_streams(doc),
        ImageStats {
            images_processed: 0,
            images_original_bytes: 0,
            images_compressed_bytes: 0,
            images_skipped_jpeg2000: sat_usize(jpx_images(doc, page_list(doc))),
        },
    )
}

/// Re-encodes one image: its JPEG data and new size, where the JPEG is
/// smaller than the stored data.
fn reencode_image(img: &PageImage, config: &CompressionConfig) -> (r: Option<(Vec<u8>, u32, u32)>)
    ensures
        match r {
            Some((j, w, h)) => image_jpeg(page_image_view(*img), *config) == Some(j@) && image_size(
                page_image_view(*img),
                *config,
            ) == (w, h),
            None => image_jpeg(page_image_view(*img), *config) is None,
        },
{
    let width = #[verifier::truncate] (img.width as u32);
    let height = #[verifier::truncate] (img.height as u32);
    let components = components_of(&img.color_space);
    let mut picture = match decode_pdf_image(img.content.as_slice(), width, height, components, &img.filters) {
        Some(pic) => pic,
        None => return None,
    };
    let (new_width, new_height) = match downscaled_dimensions(width, height, config.max_dimension) {
        Some((w, h)) => {
            picture = resize_bilinear(&picture, w, h);
            (w, h)
        },
        None => (width, height),
    };
    let jpeg = match encode_jpeg(&picture, config.jpeg_quality) {
        Some(data) => data,
        None => return None,
    };
    if jpeg.len() >= img.content.len() {
        return None;
    }
    Some((jpeg, new_width, new_height))
}

/// Re-encodes the images of a document as JPEG where that makes them smaller.
///
/// Every image of every page that qualifies is decoded, scaled down to the
/// configured limit where it exceeds it, and encoded at the configured
/// quality; the stream is replaced only where the JPEG is smaller than the
/// data it replaces. Images that fail to decode or encode are left as they
/// are. A quality of 0 turns the stage off. Byte totals saturate at
/// `u64::MAX`.
pub fn compress_images(doc: &mut Document, config: &CompressionConfig) -> (stats: ImageStats)
    ensures
        config.jpeg_quality == 0 ==> stats == zero_image_stats() && *final(doc) == *old(doc),
        config.jpeg_quality != 0 ==> (stored_streams(*final(doc)), stats) == run_images(
            queued_images(*old(doc), page_list(*old(doc)), *config),
            *config,
            image_stage_start(*old(doc)),
        ),
        config.jpeg_quality != 0 ==> doc_objects(*final(doc)) == objects_after_images(
            queued_images(*old(doc), page_list(*old(doc)), *config),
            *config,
            doc_objects(*old(doc)),
        ),
        stats.images_compressed_bytes <= stats.images_original_bytes,
        stats.images_processed > 0 && stats.images_original_bytes < u64::MAX
            ==> stats.images_compressed_bytes < stats.images_original_bytes,
        stats.images_processed == 0 ==> stats.images_original_bytes == 0
            && stats.images_compressed_bytes == 0,
        stats.images_processed == 0 ==> stored_streams(*final(doc)) == stored_streams(*old(doc)),
        stats.images_original_bytes >= min_replaced_bytes(stats.images_processed as nat),
{
    let mut stats = ImageStats::default();
    if config.jpeg_quality == 0 {
        return stats;
    }
    let pages = doc_pages(doc);
    let mut to_process: Vec<PageImage> = Vec::new();
    let mut skipped: usize = 0;
    let npages = pages.len();
    let mut p: usize = 0;
    while p < npages
        invariant
            npages == pages@.len(),
            pages@ == page_list(*doc),
            p <= npages,
            skipped == sat_usize(jpx_images(*doc, pages@.take(p as int))),
            image_views(to_process@) == queued_images(
                *doc,
                pages@.take(p as int),
                *config,
            ),
        decreases npages - p,
    {
        let (_page_number, page_id) = pages[p];
        proof {
            assert(pages@.take(p + 1).drop_last() =~= pages@.take(p as int));
            assert(pages@.take(p + 1).last() == pages@[p as int]);
        }
        let ghost before = image_views(to_process@);
        let ghost prev_jpx = jpx_images(*doc, pages@.take(p as int));
        match page_images(doc, page_id) {
            None => {
                assert(page_image_models(*doc, page_id) =~= seq![]);
                assert(jpx_in(page_image_models(*doc, page_id)) == 0);
                assert(qualifying(seq![], *config) =~= seq![]);
                assert(before + qualifying(page_image_models(*doc, page_id), *config) =~= before);
            },
            Some(mut images) => {
                let ghost all = image_views(images@);
                let ghost mut taken: int = 0;
                while images.len() > 0
                    invariant
                        0 <= taken <= all.len(),
                        images@.len() == all.len() - taken,
                        image_views(images@) =~= all.skip(taken),
                        image_views(to_process@) =~= before
                            + qualifying(all.take(taken), *config),
                        skipped == sat_usize(prev_jpx + jpx_in(all.take(taken))),
                    decreases images.len(),
                {
                    let ghost rest = images@;
                    proof {
                        assert(image_views(rest)[0] == all.skip(taken)[0]);
                    }
                    let img = images.remove(0);
                    proof {
                        assert(page_image_view(img) == all[taken]);
                        assert(all.take(taken + 1).drop_last() =~= all.take(taken));
                        assert(all.take(taken + 1).last() == all[taken]);
                    }
                    if lists_text(&img.filters, "JPXDecode") {
                        skipped = skipped.saturating_add(1);
                    }
                    let ghost pre = to_process@;
                    if qualifies(&img, config) {
                        to_process.push(img);
                        proof {
                            assert(to_process@ == pre.push(img));
                            assert(image_views(to_process@)
                                =~= image_views(pre).push(
                                page_image_view(img),
                            ));
                        }
                    }
                    proof {
                        let t0 = taken;
                        taken = taken + 1;
                        assert(images@ =~= rest.subrange(1, rest.len() as int));
                        assert forall|k: int| 0 <= k < images@.len() implies #[trigger] image_views(images@)[k] == all.skip(taken)[k] by {
                            assert(images@[k] == rest[k + 1]);
                            assert(image_views(rest)[k + 1] == all.skip(
                                t0,
                            )[k + 1]);
                        }
                        assert(image_views(images@) =~= all.skip(taken));
                    }
                }
                proof {
                    assert(all.skip(taken).len() == 0);
                    assert(all.take(taken) =~= all);
                }
            },
        }
        p = p + 1;
    }
    proof {
        assert(pages@.take(npages as int) =~= pages@);
    }
    stats.images_skipped_jpeg2000 = skipped;
    let ghost queue = image_views(to_process@);
    let ghost start = image_stage_start(*doc);
    proof {
        lemma_queued_qualify(*doc, pages@, *config);
    }
    let n = to_process.len();
    let mut j: usize = 0;
    while j < n
        invariant
            n == to_process@.len(),
            j <= n,
            queue == image_views(to_process@),
            forall|i: int| 0 <= i < queue.len() ==> image_qualifies(#[trigger] queue[i], *config),
            (stored_streams(*doc), stats) == run_images(queue.take(j as int), *config, start),
            doc_objects(*doc) == objects_after_images(queue.take(j as int), *config, doc_objects(*old(doc))),
            start == image_stage_start(*old(doc)),
            stats.images_compressed_bytes <= stats.images_original_bytes,
            stats.images_processed == 0 ==> stats.images_original_bytes == 0
                && stats.images_compressed_bytes == 0,
            stats.images_processed > 0 && stats.images_original_bytes < u64::MAX
                ==> stats.images_compressed_bytes < stats.images_original_bytes,
            stats.images_processed == 0 ==> stored_streams(*doc) == stored_streams(*old(doc)),
            stats.images_original_bytes >= min_replaced_bytes(stats.images_processed as nat),
            stats.images_processed + (n - j) <= usize::MAX,
            config.jpeg_quality != 0,
        decreases n - j,
    {
        let img = &to_process[j];
        proof {
            assert(queue.take(j + 1).drop_last() =~= queue.take(j as int));
            assert(queue.take(j + 1).last() == page_image_view(*img));
            assert(image_qualifies(queue[j as int], *config));
        }
        match reencode_image(img, config) {
            Some((jpeg, new_width, new_height)) => {
                let compressed_bytes = jpeg.len() as u64;
                let original_bytes = img.content.len() as u64;
                replace_image_stream(doc, img.id, jpeg, new_width, new_height, &img.dict);
                stats.images_processed = stats.images_processed + 1;
                stats.images_original_bytes = stats.images_original_bytes.saturating_add(original_bytes);
                stats.images_compressed_bytes = stats.images_compressed_bytes.saturating_add(compressed_bytes);
            },
            None => {},
        }
        j = j + 1;
    }
    proof {
        assert(queue.take(n as int) =~= queue);
    }
    stats
}

/// Every queued image qualifies.
proof fn lemma_queued_qualify(doc: Document, pages: Seq<(u32, ObjectId)>, config: CompressionConfig)
    ensures
        forall|i: int|
            0 <= i < queued_images(doc, pages, config).len() ==> image_qualifies(
                #[trigger] queued_images(doc, pages, config)[i],
                config,
            ),
    decreases pages.len(),
{
    if pages.len() > 0 {
        lemma_queued_qualify(doc, pages.drop_last(), config);
        let prev = queued_images(doc, pages.drop_last(), config);
        let more = qualifying(page_image_models(doc, pages.last().1), config);
        lemma_qualifying_qualify(page_image_models(doc, pages.last().1), config);
        assert forall|i: int| 0 <= i < queued_images(doc, pages, config).len() implies image_qualifies(
            #[trigger] queued_images(doc, pages, config)[i],
            config,
        ) by {
            if i < prev.len() {
                assert(queued_images(doc, pages, config)[i] == prev[i]);
            } else {
                assert(queued_images(doc, pages, config)[i] == more[i - prev.len()]);
            }
        }
    }
}

/// Every image `qualifying` keeps qualifies.
proof fn lemma_qualifying_qualify(images: Seq<PageImageModel>, config: CompressionConfig)
    ensures
        forall|i: int|
            0 <= i < qualifying(images, config).len() ==> image_qualifies(
                #[trigger] qualifying(images, config)[i],
                config,
            ),
    decreases images.len(),
{
    if images.len() > 0 {
        lemma_qualifying_qualify(images.drop_last(), config);
        let prev = qualifying(images.drop_last(), config);
        assert forall|i: int| 0 <= i < qualifying(images, config).len() implies image_qualifies(
            #[trigger] qualifying(images, config)[i],
            config,
        ) by {
            if i < prev.len() {
                assert(qualifying(images, config)[i] == prev[i]);
            }
        }
    }
}

/// A re-encoded image is given a size within the configured limit: scaled
/// down where a side exceeds a set limit, its own size otherwise.
pub proof fn lemma_image_size_within_limit(img: PageImageModel, config: CompressionConfig)
    ensures
        ({
            let (w, h) = image_size(img, config);
            let (ow, oh) = (img.width as u32, img.height as u32);
            &&& (config.max_dimension == 0 || (ow <= config.max_dimension && oh
                <= config.max_dimension)) ==> w == ow && h == oh
            &&& (config.max_dimension > 0 && (ow > config.max_dimension || oh
                > config.max_dimension)) ==> w <= config.max_dimension && h <= config.max_dimension
        }),
{
    lemma_downscaled_fits(img.width as u32, img.height as u32, config.max_dimension);
}

/// Handling the queued images changes only their own streams: every other
/// stored stream stays as it was, and only a queued image's id can be added.
pub proof fn lemma_run_images_touches_queued(
    queue: Seq<PageImageModel>,
    config: CompressionConfig,
    start: (Map<ObjectId, StreamModel>, ImageStats),
    id: ObjectId,
)
    requires
        forall|i: int| 0 <= i < queue.len() ==> (#[trigger] queue[i]).id != id,
    ensures
        run_images(queue, config, start).0.contains_key(id) == start.0.contains_key(id),
        start.0.contains_key(id) ==> run_images(queue, config, start).0[id] == start.0[id],
    decreases queue.len(),
{
    if queue.len() > 0 {
        assert forall|i: int| 0 <= i < queue.drop_last().len() implies (
        #[trigger] queue.drop_last()[i]).id != id by {
            assert(queue.drop_last()[i] == queue[i]);
        }
        lemma_run_images_touches_queued(queue.drop_last(), config, start, id);
        assert(queue.last().id != id);
    }
}

/// `pat` occurs somewhere in `text`.
pub open spec fn occurs_in(pat: Seq<char>, text: Seq<char>) -> bool {
    exists|k: int| 0 <= k && k + pat.len() <= text.len() && #[trigger] text.subrange(k, k + pat.len()) == pat
}

/// An image whose colour space names CMYK or an ICC profile is never
/// re-encoded, whatever the settings: converting it to a plain RGB JPEG
/// would shift its colours.
pub proof fn lemma_cmyk_and_icc_images_never_qualify(img: PageImageModel, config: CompressionConfig)
    requires
        img.color_space matches Some(cs) && (occurs_in("CMYK"@, cs) || occurs_in("ICCBased"@, cs)),
    ensures
        !image_qualifies(img, config),
{
    let cs = img.color_space.unwrap();
    if occurs_in("CMYK"@, cs) {
        let k = choose|k: int| 0 <= k && k + "CMYK"@.len() <= cs.len() && #[trigger] cs.subrange(
            k,
            k + "CMYK"@.len(),
        ) == "CMYK"@;
        assert(seq_contains(cs, "CMYK"@));
    } else {
        let k = choose|k: int| 0 <= k && k + "ICCBased"@.len() <= cs.len() && #[trigger] cs.subrange(
            k,
            k + "ICCBased"@.len(),
        ) == "ICCBased"@;
        assert(seq_contains(cs, "ICCBased"@));
    }
}

/// The colour space of an image names neither CMYK nor an ICC profile.
pub open spec fn plain_color_space(img: PageImageModel) -> bool {
    match img.color_space {
        Some(cs) => !occurs_in("CMYK"@, cs) && !occurs_in("ICCBased"@, cs),
        None => true,
    }
}

/// The image stage never queues an image whose colour space names CMYK or an
/// ICC profile, so such an image's stream is never replaced on its account
/// and it adds nothing to the statistics.
pub proof fn lemma_cmyk_and_icc_images_never_queued(
    doc: Document,
    pages: Seq<(u32, ObjectId)>,
    config: CompressionConfig,
)
    ensures
        forall|i: int|
            0 <= i < queued_images(doc, pages, config).len() ==> plain_color_space(
                #[trigger] queued_images(doc, pages, config)[i],
            ),
{
    lemma_queued_qualify(doc, pages, config);
    assert forall|i: int| 0 <= i < queued_images(doc, pages, config).len() implies plain_color_space(
        #[trigger] queued_images(doc, pages, config)[i],
    ) by {
        let img = queued_images(doc, pages, config)[i];
        if !plain_color_space(img) {
            lemma_cmyk_and_icc_images_never_qualify(img, config);
        }
    }
}

/// Some filter of an image is `name`.
pub open spec fn has_filter(img: PageImageModel, name: Seq<char>) -> bool {
    img.filters matches Some(v) && exists|i: int| 0 <= i < v.len() && #[trigger] v[i] == name
}

/// What never qualifies for re-encoding: images under 1 KiB, JPEG 2000
/// images, images of other than 8 bits per component, and losslessly
/// (Flate) compressed images that are grayscale or come with settings that
/// keep PNG-style images.
pub proof fn lemma_images_kept_as_they_are(img: PageImageModel, config: CompressionConfig)
    ensures
        img.content.len() < 1024 ==> !image_qualifies(img, config),
        has_filter(img, "JPXDecode"@) ==> !image_qualifies(img, config),
        (img.bits_per_component matches Some(b) && b != 8) ==> !image_qualifies(img, config),
        has_filter(img, "FlateDecode"@) && !has_filter(img, "DCTDecode"@) && (!config.png_to_jpeg
            || img.color_space == Some("DeviceGray"@)) ==> !image_qualifies(img, config),
{
    if has_filter(img, "JPXDecode"@) {
        let v = img.filters.unwrap();
        let i = choose|i: int| 0 <= i < v.len() && #[trigger] v[i] == "JPXDecode"@;
        assert(lists(img.filters, "JPXDecode"@));
    }
    if has_filter(img, "FlateDecode"@) {
        let v = img.filters.unwrap();
        let i = choose|i: int| 0 <= i < v.len() && #[trigger] v[i] == "FlateDecode"@;
        assert(lists(img.filters, "FlateDecode"@));
    }
    if !has_filter(img, "DCTDecode"@) {
        assert(!lists(img.filters, "DCTDecode"@));
    }
}

/// An unfiltered 8-bit RGB image of at least 1 KiB qualifies for
/// re-encoding, whatever the settings.
pub proof fn lemma_plain_rgb_image_qualifies(img: PageImageModel, config: CompressionConfig)
    requires
        img.content.len() >= 1024,
        img.color_space == Some("DeviceRGB"@),
        img.filters == Some(Seq::<Seq<char>>::empty()),
        img.bits_per_component == Some(8i64),
    ensures
        image_qualifies(img, config),
{
    reveal_strlit("DeviceRGB");
    reveal_strlit("CMYK");
    reveal_strlit("ICCBased");
    let cs = "DeviceRGB"@;
    assert forall|i: int| 0 <= i <= cs.len() - "CMYK"@.len() implies #[trigger] cs.subrange(
        i,
        i + "CMYK"@.len(),
    ) != "CMYK"@ by {
        assert(cs.subrange(i, i + 4)[0] != 'C' || cs.subrange(i, i + 4)[1] != 'M' || cs.subrange(
            i,
            i + 4,
        )[2] != 'Y');
    }
    assert forall|i: int| 0 <= i <= cs.len() - "ICCBased"@.len() implies #[trigger] cs.subrange(
        i,
        i + "ICCBased"@.len(),
    ) != "ICCBased"@ by {
        assert(cs.subrange(i, i + 8)[0] != 'I');
    }
}

} // verus!
