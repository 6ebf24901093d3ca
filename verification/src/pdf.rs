//! The PDF object model of `lopdf`, as the library reads and changes it.
//!
//! A `lopdf::Document` and its dictionaries are opaque here. Each function
//! below performs one `lopdf` operation (a lookup followed by the variant
//! test that reads its value, for instance) and hands back plain values.
//! What the library reads of a dictionary (its keys, its name, text and
//! array entries, the dictionaries it holds directly) and of a document (its
//! catalog, the dictionaries and streams its objects resolve to, its pages,
//! the objects reachable from its trailer) is named by the specification
//! functions below, and each wrapper states its result over those names.
//! Not modelled: the pixels of images and the bytes that compression
//! produces.
use vstd::prelude::*;
use lopdf::{Dictionary, Document, Object};
use vstd::string::StringSliceAdditionalSpecFns;
use crate::codec::zlib_inflated;
use crate::text::{opt_text, texts};

verus! {

#[verifier::external_type_specification]
#[verifier::external_body]
pub struct ExDocument(lopdf::Document);

#[verifier::external_type_specification]
#[verifier::external_body]
pub struct ExDictionary(lopdf::Dictionary);

/// The keys of a PDF dictionary, as bytes.
pub uninterp spec fn dict_keys(d: Dictionary) -> Set<Seq<u8>>;

/// The entries of a PDF dictionary whose value is a name: key to name bytes.
pub uninterp spec fn dict_names(d: Dictionary) -> Map<Seq<u8>, Seq<u8>>;

/// The entries of a PDF dictionary whose value is a string that
/// `lopdf::decode_text_string` decodes: key to the decoded text.
pub uninterp spec fn dict_texts(d: Dictionary) -> Map<Seq<u8>, Seq<char>>;

/// The entries of a PDF dictionary whose value is an array held directly:
/// key to, for each item in order, the id it refers to where it is a
/// reference.
pub uninterp spec fn dict_arrays(d: Dictionary) -> Map<Seq<u8>, Seq<Option<(u32, u16)>>>;

/// A PDF object as plain values: a real number by the bits of its `f32`, a
/// string by its bytes and whether it is written in hexadecimal, a stream by
/// its dictionary's entries and its content.
pub enum PdfValue {
    Null,
    Boolean(bool),
    Integer(i64),
    Real(u32),
    Name(Seq<u8>),
    Text(Seq<u8>, bool),
    Array(Seq<PdfValue>),
    Dictionary(Map<Seq<u8>, PdfValue>),
    Stream(Map<Seq<u8>, PdfValue>, Seq<u8>),
    Reference((u32, u16)),
}

/// Every entry of a PDF dictionary, key to value.
pub uninterp spec fn dict_entries(d: Dictionary) -> Map<Seq<u8>, PdfValue>;

/// Every object of a document, by id.
pub uninterp spec fn doc_objects(doc: Document) -> Map<(u32, u16), PdfValue>;

/// A stream object after `Stream::compress` replaced its content with `c`:
/// its entries with `/Filter /FlateDecode` and the new `/Length`.
pub open spec fn compressed_object(v: PdfValue, c: Seq<u8>) -> PdfValue {
    match v {
        PdfValue::Stream(e, _) => PdfValue::Stream(
            e.insert("Filter".spec_bytes(), PdfValue::Name("FlateDecode".spec_bytes())).insert(
                "Length".spec_bytes(),
                PdfValue::Integer(c.len() as i64),
            ),
            c,
        ),
        other => other,
    }
}

/// The entries of a PDF dictionary whose value is an integer: key to value.
pub uninterp spec fn dict_ints(d: Dictionary) -> Map<Seq<u8>, i64>;

/// The entries of a PDF dictionary whose value is a reference: key to the
/// id referred to.
pub uninterp spec fn dict_refs(d: Dictionary) -> Map<Seq<u8>, (u32, u16)>;

/// What the library reads of a PDF dictionary, as plain values.
pub struct DictModel {
    pub keys: Set<Seq<u8>>,
    pub names: Map<Seq<u8>, Seq<u8>>,
    pub texts: Map<Seq<u8>, Seq<char>>,
    pub arrays: Map<Seq<u8>, Seq<Option<(u32, u16)>>>,
    pub ints: Map<Seq<u8>, i64>,
    pub refs: Map<Seq<u8>, (u32, u16)>,
}

/// The plain-valued model of a dictionary.
pub open spec fn dict_model(d: Dictionary) -> DictModel {
    DictModel {
        keys: dict_keys(d),
        names: dict_names(d),
        texts: dict_texts(d),
        arrays: dict_arrays(d),
        ints: dict_ints(d),
        refs: dict_refs(d),
    }
}

/// A dictionary model with `key` set to the integer `value`.
pub open spec fn set_int_model(m: DictModel, key: Seq<u8>, value: i64) -> DictModel {
    DictModel {
        keys: m.keys.insert(key),
        names: m.names.remove(key),
        texts: m.texts.remove(key),
        arrays: m.arrays.remove(key),
        ints: m.ints.insert(key, value),
        refs: m.refs.remove(key),
    }
}

/// A dictionary model with `key` set to the name `name`.
pub open spec fn set_name_model(m: DictModel, key: Seq<u8>, name: Seq<u8>) -> DictModel {
    DictModel {
        keys: m.keys.insert(key),
        names: m.names.insert(key, name),
        texts: m.texts.remove(key),
        arrays: m.arrays.remove(key),
        ints: m.ints.remove(key),
        refs: m.refs.remove(key),
    }
}

/// The entries of a PDF dictionary whose value is a dictionary held directly
/// (not a reference to one): key to that dictionary's model.
pub uninterp spec fn dict_inner(d: Dictionary) -> Map<Seq<u8>, DictModel>;

/// The document catalog as `Document::catalog` finds it (the dictionary the
/// trailer's `/Root` refers to), with the dictionaries it holds directly;
/// `None` where there is none.
pub uninterp spec fn catalog_of(doc: Document) -> Option<(DictModel, Map<Seq<u8>, DictModel>)>;

/// The ids that `Document::get_object` resolves (following references) to a
/// dictionary, with that dictionary's model.
pub uninterp spec fn doc_dicts(doc: Document) -> Map<(u32, u16), DictModel>;

/// The ids that `Document::get_object` resolves (following references) to
/// an array: for each item in order, the id it refers to where it is a
/// reference.
pub uninterp spec fn doc_arrays(doc: Document) -> Map<(u32, u16), Seq<Option<(u32, u16)>>>;

/// The model of a document's trailer dictionary.
pub uninterp spec fn trailer_of(doc: Document) -> DictModel;

/// Whether a document is encrypted as `Document::is_encrypted` decides it:
/// the trailer's `/Encrypt` refers to an object that resolves to a
/// dictionary.
pub open spec fn doc_encrypted(doc: Document) -> bool {
    &&& trailer_of(doc).refs.contains_key("Encrypt".spec_bytes())
    &&& doc_dicts(doc).contains_key(trailer_of(doc).refs["Encrypt".spec_bytes()])
}

/// The ids of the objects reachable from a document's trailer, each once, in
/// the order `Document::traverse_objects` reaches them.
pub uninterp spec fn reachable_ids(doc: Document) -> Seq<(u32, u16)>;

/// The pages of a document as `Document::get_pages` lists them: page number
/// and page object id, in page-number order.
pub uninterp spec fn page_list(doc: Document) -> Seq<(u32, (u32, u16))>;

/// The ids that `Document::get_object_mut` (or `get_object`) resolves,
/// following references, to a stream object, each mapped to the id under
/// which that stream is stored.
pub uninterp spec fn stream_target(doc: Document) -> Map<(u32, u16), (u32, u16)>;

/// A stream object as stored: the model of its dictionary, and its content.
pub struct StreamModel {
    pub dict: DictModel,
    pub content: Seq<u8>,
}

/// What `lopdf`'s `zlib_compress` makes of `content` at the level
/// `Stream::compress` uses (flate2's `ZlibEncoder` at its best level), or
/// `None` where it reports an error.
pub uninterp spec fn zlib_compressed(content: Seq<u8>) -> Option<Seq<u8>>;

/// What `Stream::compress` makes of a stream, where it changes it: a stream
/// without a `/Filter` whose compressed content saves more than 19 bytes
/// gets `/Filter /FlateDecode`, that content, and the new `/Length`.
pub open spec fn compress_effect(s: StreamModel) -> Option<StreamModel> {
    if s.dict.keys.contains("Filter".spec_bytes()) {
        None
    } else {
        match zlib_compressed(s.content) {
            Some(c) => if c.len() + 19 < s.content.len() {
                Some(
                    StreamModel {
                        dict: set_int_model(
                            set_name_model(s.dict, "Filter".spec_bytes(), "FlateDecode".spec_bytes()),
                            "Length".spec_bytes(),
                            c.len() as i64,
                        ),
                        content: c,
                    },
                )
            } else {
                None
            },
            None => None,
        }
    }
}

/// The objects of a document stored directly as streams, by id.
pub uninterp spec fn stored_streams(doc: Document) -> Map<(u32, u16), StreamModel>;

/// The object number and generation of an indirect object.
pub type ObjectId = (u32, u16);

/// What an image XObject of a page holds, as `lopdf::Document::get_page_images`
/// reports it, with a copy of its data and of its stream dictionary.
pub struct PageImage {
    pub id: ObjectId,
    pub width: i64,
    pub height: i64,
    pub color_space: Option<String>,
    pub filters: Option<Vec<String>>,
    pub bits_per_component: Option<i64>,
    pub content: Vec<u8>,
    pub dict: Dictionary,
}

/// What an image XObject of a page holds, as plain values.
pub struct PageImageModel {
    pub id: (u32, u16),
    pub width: i64,
    pub height: i64,
    pub color_space: Option<Seq<char>>,
    pub filters: Option<Seq<Seq<char>>>,
    pub bits_per_component: Option<i64>,
    pub content: Seq<u8>,
    pub dict: DictModel,
    pub entries: Map<Seq<u8>, PdfValue>,
}

/// The texts of an optional list of strings.
pub open spec fn opt_texts(items: Option<Vec<String>>) -> Option<Seq<Seq<char>>> {
    match items {
        Some(v) => Some(texts(v@)),
        None => None,
    }
}

/// The plain values of a page image.
pub open spec fn page_image_view(img: PageImage) -> PageImageModel {
    PageImageModel {
        id: img.id,
        width: img.width,
        height: img.height,
        color_space: opt_text(img.color_space),
        filters: opt_texts(img.filters),
        bits_per_component: img.bits_per_component,
        content: img.content@,
        dict: dict_model(img.dict),
        entries: dict_entries(img.dict),
    }
}

/// The plain values of a list of page images.
pub open spec fn image_views(images: Seq<PageImage>) -> Seq<PageImageModel> {
    images.map_values(|img: PageImage| page_image_view(img))
}

/// The image XObjects `Document::get_page_images` reports for a page, or
/// `None` where it reports an error.
pub uninterp spec fn page_images_of(doc: Document, page: (u32, u16)) -> Option<Seq<PageImageModel>>;

/// `Document::is_encrypted`: whether the trailer's `/Encrypt` entry is a
/// reference that `Document::get_object` resolves to a dictionary.
#[verifier::external_body]
pub(crate) fn doc_is_encrypted(doc: &Document) -> (b: bool)
    ensures
        b == (trailer_of(*doc).refs.contains_key("Encrypt".spec_bytes()) && doc_dicts(
            *doc,
        ).contains_key(trailer_of(*doc).refs["Encrypt".spec_bytes()])),
{
    doc.is_encrypted()
}

/// `Document::get_pages`: the page object ids in page-tree order, with their
/// page numbers. `lopdf` numbers the pages from 1 in that order (`enumerate`
/// plus one), so entry `i` has page number `i + 1`.
#[verifier::external_body]
pub(crate) fn doc_pages(doc: &Document) -> (pages: Vec<(u32, ObjectId)>)
    ensures
        pages@ == page_list(*doc),
        forall|i: int| 0 <= i < pages@.len() ==> #[trigger] pages@[i].0 == i + 1,
{
    doc.get_pages().into_iter().collect()
}

/// `Document::catalog`: the dictionary the trailer's `/Root` refers to, if
/// any.
#[verifier::external_body]
pub(crate) fn doc_catalog<'a>(doc: &'a Document) -> (r: Option<&'a Dictionary>)
    ensures
        r is Some <==> catalog_of(*doc) is Some,
        r matches Some(c) ==> catalog_of(*doc) == Some((dict_model(*c), dict_inner(*c))),
{
    doc.catalog().ok()
}

/// `Document::get_object` followed by `Object::as_dict`: the dictionary
/// object `id` resolves to, if it resolves to a dictionary.
#[verifier::external_body]
pub(crate) fn doc_get_dict<'a>(doc: &'a Document, id: ObjectId) -> (r: Option<&'a Dictionary>)
    ensures
        r is Some <==> doc_dicts(*doc).contains_key(id),
        r matches Some(d) ==> doc_dicts(*doc)[id] == dict_model(*d),
{
    match doc.get_object(id) {
        Ok(Object::Dictionary(d)) => Some(d),
        _ => None,
    }
}

/// `Dictionary::has`: whether `key` is a key of `d`.
#[verifier::external_body]
pub(crate) fn dict_has(d: &Dictionary, key: &str) -> (b: bool)
    ensures
        b == dict_keys(*d).contains(key.spec_bytes()),
{
    d.has(key.as_bytes())
}

/// `Document::get_dict_in_dict`: the value of `key` in `node` if it is a
/// dictionary held directly, or a reference that `Document::get_object`
/// resolves to a dictionary.
#[verifier::external_body]
pub(crate) fn doc_dict_in_dict<'a>(doc: &'a Document, node: &'a Dictionary, key: &str) -> (r: Option<
    &'a Dictionary,
>)
    ensures
        r is Some <==> dict_inner(*node).contains_key(key.spec_bytes()) || (dict_refs(
            *node,
        ).contains_key(key.spec_bytes()) && doc_dicts(*doc).contains_key(
            dict_refs(*node)[key.spec_bytes()],
        )),
        r matches Some(d) ==> dict_model(*d) == if dict_inner(*node).contains_key(
            key.spec_bytes(),
        ) {
            dict_inner(*node)[key.spec_bytes()]
        } else {
            doc_dicts(*doc)[dict_refs(*node)[key.spec_bytes()]]
        },
{
    doc.get_dict_in_dict(node, key.as_bytes()).ok()
}

/// `Dictionary::get`, then for a reference `Document::get_object`, and
/// `Object::as_array`: for the value of `key`, where it is an array or a
/// reference that `get_object` resolves to one, each item's
/// `Object::as_reference` (the id it refers to, or `None`).
#[verifier::external_body]
pub(crate) fn doc_get_refs_in(doc: &Document, d: &Dictionary, key: &str) -> (r: Option<Vec<Option<ObjectId>>>)
    ensures
        r is Some <==> dict_arrays(*d).contains_key(key.spec_bytes()) || (dict_refs(
            *d,
        ).contains_key(key.spec_bytes()) && doc_arrays(*doc).contains_key(
            dict_refs(*d)[key.spec_bytes()],
        )),
        r matches Some(items) ==> items@ == if dict_arrays(*d).contains_key(key.spec_bytes()) {
            dict_arrays(*d)[key.spec_bytes()]
        } else {
            doc_arrays(*doc)[dict_refs(*d)[key.spec_bytes()]]
        },
{
    let items = match d.get(key.as_bytes()) {
        Ok(Object::Reference(id)) => doc.get_object(*id).and_then(Object::as_array).ok()?,
        Ok(obj) => obj.as_array().ok()?,
        Err(_) => return None,
    };
    Some(items.iter().map(|item| item.as_reference().ok()).collect())
}

/// `Dictionary::get` followed by `Object::as_name`: the bytes of the value of
/// `key` if it is a name.
#[verifier::external_body]
pub(crate) fn dict_get_name(d: &Dictionary, key: &str) -> (r: Option<Vec<u8>>)
    ensures
        r is Some <==> dict_names(*d).contains_key(key.spec_bytes()),
        r matches Some(n) ==> n@ == dict_names(*d)[key.spec_bytes()],
        r is Some ==> dict_keys(*d).contains(key.spec_bytes()),
{
    match d.get(key.as_bytes()) {
        Ok(Object::Name(name)) => Some(name.clone()),
        _ => None,
    }
}

/// `Dictionary::get` followed by `lopdf::decode_text_string`: the text of the
/// value of `key` if it is a string that decodes.
#[verifier::external_body]
pub(crate) fn dict_get_text(d: &Dictionary, key: &str) -> (r: Option<String>)
    ensures
        r is Some <==> dict_texts(*d).contains_key(key.spec_bytes()),
        r matches Some(t) ==> t@ == dict_texts(*d)[key.spec_bytes()],
        r is Some ==> dict_keys(*d).contains(key.spec_bytes()),
{
    match d.get(key.as_bytes()) {
        Ok(obj) => lopdf::decode_text_string(obj).ok(),
        Err(_) => None,
    }
}

/// `Document::get_page_images`: the image XObjects of a page, or `None`
/// where `lopdf` reports an error. `lopdf` always reports a filter list
/// (empty where the stream has none).
#[verifier::external_body]
pub(crate) fn page_images(doc: &Document, page: ObjectId) -> (r: Option<Vec<PageImage>>)
    ensures
        r is Some <==> page_images_of(*doc, page) is Some,
        r matches Some(images) ==> page_images_of(*doc, page) == Some(image_views(images@)),
        r matches Some(images) ==> forall|i: int|
            0 <= i < images@.len() ==> (#[trigger] images@[i]).filters is Some,
{
    match doc.get_page_images(page) {
        Ok(images) => Some(
            images.into_iter().map(|img| PageImage {
                id: img.id,
                width: img.width,
                height: img.height,
                color_space: img.color_space,
                filters: img.filters,
                bits_per_component: img.bits_per_component,
                content: img.content.to_vec(),
                dict: img.origin_dict.clone(),
            }).collect(),
        ),
        Err(_) => None,
    }
}

/// The fonts `Document::get_page_fonts` reports for a page, by resource
/// name in name order, with their dictionaries' models; `None` where it
/// reports an error.
pub uninterp spec fn page_fonts_of(doc: Document, page: (u32, u16)) -> Option<Seq<(Seq<u8>, DictModel)>>;

/// The plain values of a list of fonts.
pub open spec fn font_entry_views(fonts: Seq<(Vec<u8>, &Dictionary)>) -> Seq<(Seq<u8>, DictModel)> {
    fonts.map_values(|e: (Vec<u8>, &Dictionary)| (e.0@, dict_model(*e.1)))
}

/// `Document::get_page_fonts`: the fonts of a page (its own and inherited
/// resources) by resource name, or `None` where `lopdf` reports an error.
#[verifier::external_body]
pub(crate) fn page_fonts<'a>(doc: &'a Document, page: ObjectId) -> (r: Option<
    Vec<(Vec<u8>, &'a Dictionary)>,
>)
    ensures
        r is Some <==> page_fonts_of(*doc, page) is Some,
        r matches Some(v) ==> page_fonts_of(*doc, page) == Some(font_entry_views(v@)),
{
    doc.get_page_fonts(page).ok().map(|fonts| fonts.into_iter().collect())
}

/// `Dictionary::clone`: a dictionary with the same entries.
#[verifier::external_body]
pub(crate) fn dict_clone(d: &Dictionary) -> (r: Dictionary)
    ensures
        dict_model(r) == dict_model(*d),
        dict_entries(r) == dict_entries(*d),
{
    d.clone()
}

/// `Dictionary::set` with an integer value: `key` now maps to `value`,
/// replacing any earlier value.
#[verifier::external_body]
pub(crate) fn dict_set_integer(d: &mut Dictionary, key: &str, value: i64)
    ensures
        dict_model(*final(d)) == set_int_model(dict_model(*old(d)), key.spec_bytes(), value),
        dict_ints(*final(d)) == dict_ints(*old(d)).insert(key.spec_bytes(), value),
        dict_entries(*final(d)) == dict_entries(*old(d)).insert(
            key.spec_bytes(),
            PdfValue::Integer(value),
        ),
{
    d.set(key.as_bytes().to_vec(), Object::Integer(value))
}

/// `Dictionary::set` with a name value: `key` now maps to the name `name`,
/// replacing any earlier value.
#[verifier::external_body]
pub(crate) fn dict_set_name(d: &mut Dictionary, key: &str, name: &str)
    ensures
        dict_model(*final(d)) == set_name_model(
            dict_model(*old(d)),
            key.spec_bytes(),
            name.spec_bytes(),
        ),
        dict_entries(*final(d)) == dict_entries(*old(d)).insert(
            key.spec_bytes(),
            PdfValue::Name(name.spec_bytes()),
        ),
{
    d.set(key.as_bytes().to_vec(), Object::Name(name.as_bytes().to_vec()))
}

/// `Document::set_object` with `Stream::new(dict, content)`: object `id`
/// becomes a stream of `content` whose dictionary is `dict` with `/Length`
/// set to the content's length; the other stored streams stay as they were.
#[verifier::external_body]
pub(crate) fn doc_set_stream(doc: &mut Document, id: ObjectId, dict: Dictionary, content: Vec<u8>)
    ensures
        stored_streams(*final(doc)) == stored_streams(*old(doc)).insert(
            id,
            StreamModel {
                dict: set_int_model(dict_model(dict), "Length".spec_bytes(), content@.len() as i64),
                content: content@,
            },
        ),
        doc_objects(*final(doc)) == doc_objects(*old(doc)).insert(
            id,
            PdfValue::Stream(
                dict_entries(dict).insert(
                    "Length".spec_bytes(),
                    PdfValue::Integer(content@.len() as i64),
                ),
                content@,
            ),
        ),
{
    doc.set_object(id, lopdf::Stream::new(dict, content))
}

/// `Document::traverse_objects` with an action that does nothing: the ids of
/// the objects reachable from the trailer, each once, in the order they are
/// reached. The document is left as it was.
#[verifier::external_body]
pub(crate) fn doc_reachable_ids(doc: &mut Document) -> (ids: Vec<ObjectId>)
    ensures
        *final(doc) == *old(doc),
        ids@ == reachable_ids(*old(doc)),
{
    doc.traverse_objects(|_| {})
}

/// `Document::get_object` followed by a test for `/Filter` in the stream's
/// dictionary (`Dictionary::has`): `None` where `id` does not resolve to a
/// stream.
#[verifier::external_body]
pub(crate) fn doc_stream_has_filter(doc: &Document, id: ObjectId) -> (r: Option<bool>)
    ensures
        r is Some <==> stream_target(*doc).contains_key(id),
        r is Some ==> stored_streams(*doc).contains_key(stream_target(*doc)[id]),
        r matches Some(b) ==> b == stored_streams(*doc)[stream_target(
            *doc,
        )[id]].dict.keys.contains("Filter".spec_bytes()),
{
    match doc.get_object(id) {
        Ok(Object::Stream(stream)) => Some(stream.dict.has(b"Filter")),
        _ => None,
    }
}

/// `Document::get_object_mut`, `Object::as_stream_mut` and
/// `Stream::compress`: where object `id` resolves to a stream, that stream
/// becomes what `Stream::compress` makes of it (compressed content inflates
/// back to the old content). Compressing a stream changes its dictionary
/// and content only, so the same ids resolve to the same streams afterwards
/// and the dictionary objects stay as they were.
#[verifier::external_body]
pub(crate) fn doc_compress_stream(doc: &mut Document, id: ObjectId)
    ensures
        stream_target(*final(doc)) == stream_target(*old(doc)),
        doc_dicts(*final(doc)) == doc_dicts(*old(doc)),
        stored_streams(*final(doc)) == if stream_target(*old(doc)).contains_key(id)
            && stored_streams(*old(doc)).contains_key(stream_target(*old(doc))[id]) {
            match compress_effect(stored_streams(*old(doc))[stream_target(*old(doc))[id]]) {
                Some(n) => stored_streams(*old(doc)).insert(stream_target(*old(doc))[id], n),
                None => stored_streams(*old(doc)),
            }
        } else {
            stored_streams(*old(doc))
        },
        stream_target(*old(doc)).contains_key(id) && stored_streams(*old(doc)).contains_key(
            stream_target(*old(doc))[id],
        ) && compress_effect(stored_streams(*old(doc))[stream_target(*old(doc))[id]]) is Some
            ==> zlib_compressed(stored_streams(*old(doc))[stream_target(*old(doc))[id]].content)
            == Some(stored_streams(*final(doc))[stream_target(*old(doc))[id]].content)
            && zlib_inflated(stored_streams(*final(doc))[stream_target(*old(doc))[id]].content)
            == Some(stored_streams(*old(doc))[stream_target(*old(doc))[id]].content),
        doc_objects(*final(doc)) == if stream_target(*old(doc)).contains_key(id)
            && stored_streams(*old(doc)).contains_key(stream_target(*old(doc))[id]) {
            match compress_effect(stored_streams(*old(doc))[stream_target(*old(doc))[id]]) {
                Some(n) => doc_objects(*old(doc)).insert(
                    stream_target(*old(doc))[id],
                    compressed_object(doc_objects(*old(doc))[stream_target(*old(doc))[id]], n.content),
                ),
                None => doc_objects(*old(doc)),
            }
        } else {
            doc_objects(*old(doc))
        },
{
    if let Ok(obj) = doc.get_object_mut(id) {
        if let Ok(stream) = obj.as_stream_mut() {
            let _ = stream.compress();
        }
    }
}

} // verus!
