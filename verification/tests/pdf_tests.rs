use std::io::Write;
use lopdf::{Dictionary, Document, Object, Stream, StringFormat};
use pdf_slim::analyze::info::{analyze_document, collect_fonts, info_text, FontInfo, ImageInfo, PdfInfo};
use pdf_slim::analyze::{acroform_signature, check_digital_signature, FieldSignature};
use pdf_slim::compress::images::{compress_images, qualifies};
use pdf_slim::compress::streams::compress_streams;
use pdf_slim::compress::{prepare_document, DocumentOutcome};
use pdf_slim::config::cli::Preset;
use pdf_slim::config::presets::build_config;
use pdf_slim::pdf::PageImage;

/// The id of the first page.
fn first_page(doc: &Document) -> lopdf::ObjectId {
    *doc.get_pages().values().next().unwrap()
}

/// The images of a page, as the library's image records.
fn page_image_list(doc: &Document, page_id: lopdf::ObjectId) -> Vec<PageImage> {
    doc.get_page_images(page_id)
        .unwrap()
        .into_iter()
        .map(|img| PageImage {
            id: img.id,
            width: img.width,
            height: img.height,
            color_space: img.color_space,
            filters: img.filters,
            bits_per_component: img.bits_per_component,
            content: img.content.to_vec(),
            dict: img.origin_dict.clone(),
        })
        .collect()
}

fn name(s: &str) -> Object {
    Object::Name(s.as_bytes().to_vec())
}

/// A one-page document whose page has the given resources and a padded,
/// uncompressed content stream.
fn document_with(resources: Option<Dictionary>, catalog_extra: Vec<(&str, Object)>) -> Document {
    let mut doc = Document::new();
    let mut root = Dictionary::new();
    root.set("Type", name("Catalog"));
    for (k, v) in catalog_extra {
        root.set(k, v);
    }
    let root_id = doc.add_object(root);
    doc.trailer.set("Root", Object::Reference(root_id));
    let mut page = Dictionary::new();
    page.set("Type", name("Page"));
    page.set(
        "MediaBox",
        Object::Array(vec![Object::Integer(0), Object::Integer(0), Object::Integer(612), Object::Integer(792)]),
    );
    if let Some(r) = resources {
        let rid = doc.add_object(r);
        page.set("Resources", Object::Reference(rid));
    }
    let content = format!("BT /F1 12 Tf 100 700 Td (Hello World) Tj ET{}", " ".repeat(4096));
    let cid = doc.add_object(Stream::new(Dictionary::new(), content.into_bytes()));
    page.set("Contents", Object::Reference(cid));
    let page_id = doc.add_object(page);
    let mut pages = Dictionary::new();
    pages.set("Type", name("Pages"));
    pages.set("Count", Object::Integer(1));
    pages.set("Kids", Object::Array(vec![Object::Reference(page_id)]));
    let pages_id = doc.add_object(pages);
    doc.get_object_mut(root_id).unwrap().as_dict_mut().unwrap().set("Pages", Object::Reference(pages_id));
    doc
}

fn sig_field(doc: &mut Document, signer: Option<&str>) -> Object {
    let mut f = Dictionary::new();
    f.set("FT", name("Sig"));
    if let Some(s) = signer {
        f.set("Name", Object::String(s.as_bytes().to_vec(), StringFormat::Literal));
    }
    Object::Reference(doc.add_object(f))
}

#[test]
fn clean_document_has_no_signature() {
    let doc = document_with(None, vec![]);
    assert!(check_digital_signature(&doc).is_none());
}

#[test]
fn acroform_signature_fields_are_detected() {
    let mut doc = document_with(None, vec![]);
    let text_field = {
        let mut f = Dictionary::new();
        f.set("FT", name("Tx"));
        f.set("Name", Object::String(b"Ignored".to_vec(), StringFormat::Literal));
        Object::Reference(doc.add_object(f))
    };
    let unsigned = sig_field(&mut doc, None);
    let alice = sig_field(&mut doc, Some("Alice"));
    let bob = sig_field(&mut doc, Some("Bob"));
    let mut acro = Dictionary::new();
    acro.set("Fields", Object::Array(vec![text_field, Object::Integer(3), unsigned, alice, bob]));
    let root_id = doc.trailer.get(b"Root").unwrap().as_reference().unwrap();
    doc.get_object_mut(root_id).unwrap().as_dict_mut().unwrap().set("AcroForm", Object::Dictionary(acro));
    let d = check_digital_signature(&doc).unwrap();
    assert_eq!(d.sig_type, "AcroForm/Sig");
    assert_eq!(d.certificates_count, 3);
    assert_eq!(d.signer.as_deref(), Some("Alice"));
}

#[test]
fn referenced_acroform_signature_is_detected() {
    let mut doc = document_with(None, vec![]);
    let signed = sig_field(&mut doc, Some("Dana"));
    let mut acro = Dictionary::new();
    acro.set("Fields", Object::Array(vec![signed]));
    let acro_id = doc.add_object(acro);
    let root_id = doc.trailer.get(b"Root").unwrap().as_reference().unwrap();
    doc.get_object_mut(root_id).unwrap().as_dict_mut().unwrap().set("AcroForm", Object::Reference(acro_id));
    let d = check_digital_signature(&doc).unwrap();
    assert_eq!(d.sig_type, "AcroForm/Sig");
    assert_eq!(d.certificates_count, 1);
    assert_eq!(d.signer.as_deref(), Some("Dana"));
}

#[test]
fn referenced_fields_array_is_followed() {
    let mut doc = document_with(None, vec![]);
    let signed = sig_field(&mut doc, None);
    let fields_id = doc.add_object(Object::Array(vec![signed]));
    let mut acro = Dictionary::new();
    acro.set("Fields", Object::Reference(fields_id));
    let root_id = doc.trailer.get(b"Root").unwrap().as_reference().unwrap();
    doc.get_object_mut(root_id).unwrap().as_dict_mut().unwrap().set("AcroForm", Object::Dictionary(acro));
    let d = check_digital_signature(&doc).unwrap();
    assert_eq!(d.sig_type, "AcroForm/Sig");
    assert_eq!(d.signer, None);
}

#[test]
fn referenced_docmdp_form_is_detected() {
    let mut doc = document_with(None, vec![]);
    let mut acro = Dictionary::new();
    acro.set("DOCMDP", Object::Dictionary(Dictionary::new()));
    let acro_id = doc.add_object(acro);
    let root_id = doc.trailer.get(b"Root").unwrap().as_reference().unwrap();
    doc.get_object_mut(root_id).unwrap().as_dict_mut().unwrap().set("AcroForm", Object::Reference(acro_id));
    assert_eq!(check_digital_signature(&doc).unwrap().sig_type, "DocMDP");
}

#[test]
fn docmdp_is_detected() {
    let mut acro = Dictionary::new();
    acro.set("DOCMDP", Object::Dictionary(Dictionary::new()));
    let doc = document_with(None, vec![("AcroForm", Object::Dictionary(acro))]);
    let d = check_digital_signature(&doc).unwrap();
    assert_eq!(d.sig_type, "DocMDP");
    assert_eq!(d.signer, None);
    assert_eq!(d.certificates_count, 1);
}

#[test]
fn permissions_dictionary_is_detected() {
    let doc = document_with(None, vec![("Permissions", Object::Dictionary(Dictionary::new()))]);
    let d = check_digital_signature(&doc).unwrap();
    assert_eq!(d.sig_type, "Permissions");
    assert_eq!(d.certificates_count, 1);
}

#[test]
fn form_without_signature_fields_is_clean() {
    let mut acro = Dictionary::new();
    acro.set("Fields", Object::Array(vec![]));
    let doc = document_with(None, vec![("AcroForm", Object::Dictionary(acro))]);
    assert!(check_digital_signature(&doc).is_none());
}

#[test]
fn signature_from_fields_takes_first_named_signer() {
    let fields = vec![
        FieldSignature { is_signature: false, signer: None },
        FieldSignature { is_signature: true, signer: None },
        FieldSignature { is_signature: true, signer: Some("Carol".to_string()) },
    ];
    let d = acroform_signature(&fields).unwrap();
    assert_eq!(d.certificates_count, 2);
    assert_eq!(d.signer.as_deref(), Some("Carol"));
    assert!(acroform_signature(&vec![FieldSignature { is_signature: false, signer: None }]).is_none());
}

#[test]
fn signed_document_is_left_untouched() {
    let doc0 = document_with(None, vec![("Permissions", Object::Dictionary(Dictionary::new()))]);
    let mut doc = doc0.clone();
    let config = build_config(Preset::Balanced, None, None);
    match prepare_document(&mut doc, &config) {
        DocumentOutcome::Signed { pages, details } => {
            assert_eq!(pages, 1);
            assert_eq!(details.sig_type, "Permissions");
        }
        other => panic!("unexpected outcome {:?}", other),
    }
    assert!(doc.objects == doc0.objects && doc.trailer == doc0.trailer);
}

#[test]
fn encrypted_document_is_reported() {
    let mut doc = document_with(None, vec![]);
    let enc = doc.add_object(Dictionary::new());
    doc.trailer.set("Encrypt", Object::Reference(enc));
    let config = build_config(Preset::Balanced, None, None);
    match prepare_document(&mut doc, &config) {
        DocumentOutcome::Encrypted { pages } => assert_eq!(pages, 1),
        other => panic!("unexpected outcome {:?}", other),
    }
}

fn gradient(w: u32, h: u32) -> Vec<u8> {
    let mut v = Vec::new();
    for y in 0..h {
        for x in 0..w {
            v.push((x * 4) as u8);
            v.push((y * 4) as u8);
            v.push(128);
        }
    }
    v
}

fn image_resources(doc: &mut Document, w: u32, h: u32, data: Vec<u8>, cs: &str) -> Dictionary {
    let mut img = Dictionary::new();
    img.set("Type", name("XObject"));
    img.set("Subtype", name("Image"));
    img.set("Width", Object::Integer(w as i64));
    img.set("Height", Object::Integer(h as i64));
    img.set("ColorSpace", name(cs));
    img.set("BitsPerComponent", Object::Integer(8));
    let id = doc.add_object(Stream::new(img, data));
    let mut xobjects = Dictionary::new();
    xobjects.set("Im1", Object::Reference(id));
    let mut res = Dictionary::new();
    res.set("XObject", Object::Dictionary(xobjects));
    res
}

#[test]
fn raw_rgb_image_is_reencoded_as_jpeg() {
    let mut doc = document_with(None, vec![]);
    let res = image_resources(&mut doc, 64, 64, gradient(64, 64), "DeviceRGB");
    let page_id = first_page(&doc);
    let rid = doc.add_object(res);
    doc.get_object_mut(page_id).unwrap().as_dict_mut().unwrap().set("Resources", Object::Reference(rid));
    let imgs = page_image_list(&doc, page_id);
    assert_eq!(imgs.len(), 1);
    assert!(qualifies(&imgs[0], &build_config(Preset::Balanced, None, None)));
    let id = imgs[0].id;
    let config = build_config(Preset::Balanced, None, None);
    let stats = compress_images(&mut doc, &config);
    assert_eq!(stats.images_processed, 1);
    assert_eq!(stats.images_original_bytes, 64 * 64 * 3);
    assert!(stats.images_compressed_bytes < stats.images_original_bytes);
    let stream = doc.get_object(id).unwrap().as_stream().unwrap();
    assert_eq!(stream.dict.get(b"Filter").unwrap().as_name().unwrap(), b"DCTDecode");
    assert_eq!(stream.dict.get(b"Width").unwrap().as_i64().unwrap(), 64);
    assert_eq!(stream.dict.get(b"ColorSpace").unwrap().as_name().unwrap(), b"DeviceRGB");
    assert_eq!(stream.dict.get(b"Length").unwrap().as_i64().unwrap() as u64, stats.images_compressed_bytes);
}

#[test]
fn large_image_is_downscaled_to_limit() {
    let mut doc = document_with(None, vec![]);
    let res = image_resources(&mut doc, 120, 60, gradient(120, 60), "DeviceRGB");
    let page_id = first_page(&doc);
    let rid = doc.add_object(res);
    doc.get_object_mut(page_id).unwrap().as_dict_mut().unwrap().set("Resources", Object::Reference(rid));
    let id = page_image_list(&doc, page_id)[0].id;
    let config = build_config(Preset::Balanced, None, Some(40));
    let stats = compress_images(&mut doc, &config);
    assert_eq!(stats.images_processed, 1);
    let stream = doc.get_object(id).unwrap().as_stream().unwrap();
    assert_eq!(stream.dict.get(b"Width").unwrap().as_i64().unwrap(), 40);
    assert_eq!(stream.dict.get(b"Height").unwrap().as_i64().unwrap(), 20);
    let jpeg = image::load_from_memory(&stream.content).unwrap();
    assert_eq!((jpeg.width(), jpeg.height()), (40, 20));
}

#[test]
fn small_cmyk_and_jpeg2000_images_are_kept() {
    let mut doc = document_with(None, vec![]);
    let res = image_resources(&mut doc, 2, 2, vec![255, 0, 0, 0, 255, 0, 0, 0, 255, 255, 255, 255], "DeviceRGB");
    let page_id = first_page(&doc);
    let rid = doc.add_object(res);
    doc.get_object_mut(page_id).unwrap().as_dict_mut().unwrap().set("Resources", Object::Reference(rid));
    let imgs = page_image_list(&doc, page_id);
    assert!(!qualifies(&imgs[0], &build_config(Preset::Aggressive, None, None)));
    let config = build_config(Preset::Aggressive, None, None);
    assert_eq!(compress_images(&mut doc, &config).images_processed, 0);

    let mut doc2 = document_with(None, vec![]);
    let res2 = image_resources(&mut doc2, 64, 64, gradient(64, 64), "DeviceCMYK");
    let page2 = first_page(&doc2);
    let rid2 = doc2.add_object(res2);
    doc2.get_object_mut(page2).unwrap().as_dict_mut().unwrap().set("Resources", Object::Reference(rid2));
    assert!(!qualifies(&page_image_list(&doc2, page2)[0], &build_config(Preset::Aggressive, None, None)));
}

/// Pseudo-random samples, which zlib cannot shrink much.
fn noise(len: usize) -> Vec<u8> {
    let mut x: u32 = 12345;
    (0..len)
        .map(|_| {
            x = x.wrapping_mul(1103515245).wrapping_add(12345);
            (x >> 16) as u8
        })
        .collect()
}

fn zlib(data: &[u8]) -> Vec<u8> {
    let mut e = flate2::write::ZlibEncoder::new(Vec::new(), flate2::Compression::default());
    e.write_all(data).unwrap();
    e.finish().unwrap()
}

/// A document whose page shows one Flate-compressed (PNG-style) image.
fn flate_image_document(w: u32, h: u32, cs: &str, channels: usize) -> (Document, lopdf::ObjectId) {
    let mut doc = document_with(None, vec![]);
    let data = zlib(&noise(w as usize * h as usize * channels));
    let mut res = image_resources(&mut doc, w, h, data, cs);
    let xobjects = res.get(b"XObject").unwrap().as_dict().unwrap().clone();
    let id = xobjects.get(b"Im1").unwrap().as_reference().unwrap();
    doc.get_object_mut(id).unwrap().as_stream_mut().unwrap().dict.set("Filter", name("FlateDecode"));
    res.set("XObject", Object::Dictionary(xobjects));
    let page_id = first_page(&doc);
    let rid = doc.add_object(res);
    doc.get_object_mut(page_id).unwrap().as_dict_mut().unwrap().set("Resources", Object::Reference(rid));
    (doc, id)
}

#[test]
fn jpeg2000_image_is_skipped_and_counted() {
    let (mut doc, id) = flate_image_document(64, 64, "DeviceRGB", 3);
    doc.get_object_mut(id).unwrap().as_stream_mut().unwrap().dict.set("Filter", name("JPXDecode"));
    let before = doc.get_object(id).unwrap().as_stream().unwrap().content.clone();
    let stats = compress_images(&mut doc, &build_config(Preset::Aggressive, None, None));
    assert_eq!(stats.images_processed, 0);
    assert_eq!(stats.images_skipped_jpeg2000, 1);
    assert_eq!(doc.get_object(id).unwrap().as_stream().unwrap().content, before);
}

#[test]
fn gentle_preset_keeps_png_style_images() {
    let (mut doc, id) = flate_image_document(64, 64, "DeviceRGB", 3);
    let page_id = first_page(&doc);
    let imgs = page_image_list(&doc, page_id);
    let gentle = build_config(Preset::Gentle, None, None);
    assert!(!qualifies(&imgs[0], &gentle));
    assert!(qualifies(&imgs[0], &build_config(Preset::Balanced, None, None)));
    let before = doc.get_object(id).unwrap().as_stream().unwrap().content.clone();
    assert_eq!(compress_images(&mut doc, &gentle).images_processed, 0);
    let after = doc.get_object(id).unwrap().as_stream().unwrap();
    assert_eq!(after.content, before);
    assert_eq!(after.dict.get(b"Filter").unwrap().as_name().unwrap(), b"FlateDecode");
}

#[test]
fn grayscale_png_style_images_keep_their_format() {
    let (mut doc, id) = flate_image_document(64, 64, "DeviceGray", 1);
    let page_id = first_page(&doc);
    let imgs = page_image_list(&doc, page_id);
    let aggressive = build_config(Preset::Aggressive, None, None);
    assert!(!qualifies(&imgs[0], &aggressive));
    assert_eq!(compress_images(&mut doc, &aggressive).images_processed, 0);
    let after = doc.get_object(id).unwrap().as_stream().unwrap();
    assert_eq!(after.dict.get(b"Filter").unwrap().as_name().unwrap(), b"FlateDecode");
}

#[test]
fn quality_zero_turns_image_stage_off() {
    let mut doc = document_with(None, vec![]);
    let res = image_resources(&mut doc, 64, 64, gradient(64, 64), "DeviceRGB");
    let page_id = first_page(&doc);
    let rid = doc.add_object(res);
    doc.get_object_mut(page_id).unwrap().as_dict_mut().unwrap().set("Resources", Object::Reference(rid));
    let config = build_config(Preset::Balanced, Some(0), None);
    let stats = compress_images(&mut doc, &config);
    assert_eq!(stats.images_processed, 0);
    assert_eq!(stats.images_original_bytes, 0);
}

#[test]
fn uncompressed_streams_are_compressed() {
    let mut doc = document_with(None, vec![]);
    let stats = compress_streams(&mut doc);
    assert_eq!(stats.streams_compressed, 1);
    let page_id = first_page(&doc);
    let cid = doc.get_dictionary(page_id).unwrap().get(b"Contents").unwrap().as_reference().unwrap();
    let stream = doc.get_object(cid).unwrap().as_stream().unwrap();
    assert_eq!(stream.dict.get(b"Filter").unwrap().as_name().unwrap(), b"FlateDecode");
    assert!(stream.content.len() < 4096);
}

#[test]
fn filtered_and_incompressible_streams_are_not_counted() {
    let mut doc = document_with(None, vec![]);
    let mut filtered = Dictionary::new();
    filtered.set("Filter", name("FlateDecode"));
    let filtered_id = doc.add_object(Stream::new(filtered, zlib(&vec![b'a'; 5000])));
    let tiny_id = doc.add_object(Stream::new(Dictionary::new(), b"q Q".to_vec()));
    let page_id = first_page(&doc);
    let page = doc.get_object_mut(page_id).unwrap().as_dict_mut().unwrap();
    page.set("Thumb", Object::Reference(filtered_id));
    page.set("PieceInfo", Object::Reference(tiny_id));
    let before = doc.get_object(filtered_id).unwrap().as_stream().unwrap().content.clone();
    let stats = compress_streams(&mut doc);
    assert_eq!(stats.streams_compressed, 1);
    assert_eq!(doc.get_object(filtered_id).unwrap().as_stream().unwrap().content, before);
    let tiny = doc.get_object(tiny_id).unwrap().as_stream().unwrap();
    assert_eq!(tiny.content, b"q Q".to_vec());
    assert!(tiny.dict.get(b"Filter").is_err());
}

#[test]
fn prepare_clean_document_compresses() {
    let mut doc = document_with(None, vec![]);
    let config = build_config(Preset::Gentle, None, None);
    match prepare_document(&mut doc, &config) {
        DocumentOutcome::Compressed { pages, images, streams } => {
            assert_eq!(pages, 1);
            assert_eq!(images.images_processed, 0);
            assert_eq!(streams.streams_compressed, 1);
        }
        other => panic!("unexpected outcome {:?}", other),
    }
}

fn font(doc: &mut Document, subtype: &str) -> Object {
    let mut f = Dictionary::new();
    f.set("Type", name("Font"));
    f.set("Subtype", name(subtype));
    Object::Reference(doc.add_object(f))
}

#[test]
fn analyze_lists_fonts_once_by_name_and_images_by_page() {
    let mut doc = document_with(None, vec![]);
    let f2 = font(&mut doc, "TrueType");
    let f1 = font(&mut doc, "Type1");
    let mut fonts = Dictionary::new();
    fonts.set("F2", f2);
    fonts.set("F1", f1);
    let mut res = image_resources(&mut doc, 64, 64, gradient(64, 64), "DeviceRGB");
    res.set("Font", Object::Dictionary(fonts));
    let page_id = first_page(&doc);
    let rid = doc.add_object(res);
    doc.get_object_mut(page_id).unwrap().as_dict_mut().unwrap().set("Resources", Object::Reference(rid));
    let info = analyze_document(&doc, "t.pdf".to_string(), 1234);
    assert_eq!(info.path, "t.pdf");
    assert_eq!(info.size_bytes, 1234);
    assert_eq!(info.page_count, 1);
    assert!(!info.is_encrypted);
    assert!(!info.has_signature);
    assert_eq!(info.fonts.len(), 2);
    assert_eq!(info.fonts[0].name, "F1");
    assert_eq!(info.fonts[0].font_type, "Type1");
    assert_eq!(info.fonts[1].name, "F2");
    assert_eq!(info.fonts[1].font_type, "TrueType");
    assert_eq!(info.images.len(), 1);
    let img = &info.images[0];
    assert_eq!(img.page, 1);
    assert_eq!((img.width, img.height), (64, 64));
    assert_eq!(img.color_space, "DeviceRGB");
    assert_eq!(img.filters, "");
    assert_eq!(img.size_bytes, 64 * 64 * 3);
    assert_eq!(info.total_image_bytes(), 64 * 64 * 3);
}

#[test]
fn font_listing_dedups_and_sorts() {
    let f = |n: &str, t: &str| FontInfo { name: n.to_string(), font_type: t.to_string() };
    let listing = collect_fonts(vec![f("F3", "Type1"), f("F1", "Type1"), f("F3", "Type1"), f("F2", "TrueType"), f("F1", "Type0")]);
    let names: Vec<(String, String)> = listing.into_iter().map(|x| (x.name, x.font_type)).collect();
    assert_eq!(
        names,
        vec![
            ("F1".to_string(), "Type1".to_string()),
            ("F1".to_string(), "Type0".to_string()),
            ("F2".to_string(), "TrueType".to_string()),
            ("F3".to_string(), "Type1".to_string()),
        ]
    );
}

#[test]
fn info_text_layout() {
    let info = PdfInfo {
        path: "docs/a.pdf".to_string(),
        size_bytes: 2048,
        page_count: 3,
        images: vec![ImageInfo {
            page: 2,
            width: 640,
            height: 480,
            color_space: "DeviceRGB".to_string(),
            filters: "FlateDecode, DCTDecode".to_string(),
            size_bytes: 1536,
        }],
        fonts: vec![FontInfo { name: "F1".to_string(), font_type: "Type1".to_string() }],
        is_encrypted: false,
        has_signature: true,
    };
    let rule = "=".repeat(50);
    let expected = format!(
        "\n{rule}\n  docs/a.pdf\n  Size: 2.00 KB\n  Pages: 3\n  Encrypted: false\n  Digital Signature: true\n\n  Images: 1\n  Total image size: 1.50 KB\n    Page 2  640x480  DeviceRGB  FlateDecode, DCTDecode  1.50 KB\n\n  Fonts: 1\n    F1 (Type1)\n{rule}\n"
    );
    assert_eq!(info_text(&info), expected);
}
