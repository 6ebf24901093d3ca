use vstd::prelude::*;
use lopdf::Document;
use crate::analyze::{check_digital_signature, has_signature};
use crate::utils::{decimal, format_size, format_size_spec, push_decimal};
use crate::pdf::{
    dict_get_name, dict_model, doc_encrypted, doc_is_encrypted, doc_pages, font_entry_views,
    image_views, page_fonts, page_fonts_of, page_image_view, page_images, page_list, DictModel,
    ObjectId, PageImage, PageImageModel,
};
use crate::compress::images::page_image_models;
use vstd::string::StringSliceAdditionalSpecFns;
use crate::text::{
    join_texts, lemma_text_lt_irreflexive, lemma_text_lt_total, lemma_text_lt_transitive,
    seq_join, text_eq, text_from_bytes, text_less, text_lt, texts, utf8_lossy,
};

verus! {

/// Information gathered about a PDF for the info mode.
#[derive(Debug)]
pub struct PdfInfo {
    pub path: String,
    pub size_bytes: u64,
    pub page_count: usize,
    pub images: Vec<ImageInfo>,
    pub fonts: Vec<FontInfo>,
    pub is_encrypted: bool,
    pub has_signature: bool,
}

/// One image of a page.
#[derive(Clone, Debug)]
pub struct ImageInfo {
    /// The page number, from 1.
    pub page: usize,
    pub width: u32,
    pub height: u32,
    /// The colour space name, or empty.
    pub color_space: String,
    /// The filters, joined with `, `.
    pub filters: String,
    /// The size of the stored data.
    pub size_bytes: usize,
}

/// One font used by the document.
#[derive(Clone, Debug, PartialEq, Eq, Hash)]
pub struct FontInfo {
    /// The font's resource name.
    pub name: String,
    /// Its `/Subtype` (such as `Type1` or `TrueType`), or empty.
    pub font_type: String,
}

/// What identifies a font in the listing.
pub open spec fn font_key(f: FontInfo) -> (Seq<char>, Seq<char>) {
    (f.name@, f.font_type@)
}

/// The listing is ordered by name.
pub open spec fn sorted_by_name(fonts: Seq<FontInfo>) -> bool {
    forall|i: int, j: int|
        0 <= i < j < fonts.len() ==> !text_lt(#[trigger] fonts[j].name@, #[trigger] fonts[i].name@)
}

/// No font is listed twice.
pub open spec fn distinct_fonts(fonts: Seq<FontInfo>) -> bool {
    forall|i: int, j: int|
        0 <= i < j < fonts.len() ==> font_key(#[trigger] fonts[i]) != font_key(#[trigger] fonts[j])
}

/// Some font of `fonts` has key `k`.
pub open spec fn has_font(fonts: Seq<FontInfo>, k: (Seq<char>, Seq<char>)) -> bool {
    exists|i: int| 0 <= i < fonts.len() && font_key(#[trigger] fonts[i]) == k
}

/// `listing` lists exactly the fonts of `found`, each once, ordered by name.
pub open spec fn is_font_listing(listing: Seq<FontInfo>, found: Seq<FontInfo>) -> bool {
    &&& sorted_by_name(listing)
    &&& distinct_fonts(listing)
    &&& forall|i: int| 0 <= i < listing.len() ==> has_font(found, font_key(#[trigger] listing[i]))
    &&& forall|j: int| 0 <= j < found.len() ==> has_font(listing, font_key(#[trigger] found[j]))
}

/// Whether `fonts` holds a font with the same name and type as `f`.
fn contains_font(fonts: &Vec<FontInfo>, f: &FontInfo) -> (b: bool)
    ensures
        b == has_font(fonts@, font_key(*f)),
{
    let n = fonts.len();
    let mut i: usize = 0;
    while i < n
        invariant
            n == fonts@.len(),
            i <= n,
            forall|k: int| 0 <= k < i ==> font_key(#[trigger] fonts@[k]) != font_key(*f),
        decreases n - i,
    {
        if text_eq(fonts[i].name.as_str(), f.name.as_str()) && text_eq(
            fonts[i].font_type.as_str(),
            f.font_type.as_str(),
        ) {
            return true;
        }
        i = i + 1;
    }
    false
}

/// Inserts a font into a listing ordered by name, after the fonts whose name
/// does not follow its own.
fn insert_by_name(fonts: &mut Vec<FontInfo>, f: FontInfo) -> (k: usize)
    requires
        sorted_by_name(old(fonts)@),
    ensures
        k <= old(fonts)@.len(),
        final(fonts)@ == old(fonts)@.insert(k as int, f),
        sorted_by_name(final(fonts)@),
{
    let n = fonts.len();
    let mut k: usize = 0;
    while k < n && !text_less(f.name.as_str(), fonts[k].name.as_str())
        invariant
            n == fonts@.len(),
            k <= n,
            sorted_by_name(fonts@),
            forall|i: int| 0 <= i < k ==> !text_lt(f.name@, #[trigger] fonts@[i].name@),
        decreases n - k,
    {
        k = k + 1;
    }
    let ghost before = fonts@;
    proof {
        assert forall|i: int| 0 <= i < k implies !text_lt(f.name@, #[trigger] before[i].name@) by {}
        assert forall|j: int| k <= j < n implies text_lt(f.name@, #[trigger] before[j].name@) by {
            if j > k {
                lemma_text_lt_total(before[k as int].name@, before[j].name@);
                if before[k as int].name@ != before[j].name@ {
                    lemma_text_lt_transitive(f.name@, before[k as int].name@, before[j].name@);
                }
            }
        }
    }
    fonts.insert(k, f);
    proof {
        let after = fonts@;
        assert forall|i: int, j: int| 0 <= i < j < after.len() implies !text_lt(
            #[trigger] after[j].name@,
            #[trigger] after[i].name@,
        ) by {
            if i < k && j == k {
            } else if i == k && j > k {
                lemma_text_lt_total(f.name@, before[j - 1].name@);
            } else if i < k && j > k {
                assert(!text_lt(before[j - 1].name@, before[i].name@));
            } else if j < k {
                assert(!text_lt(before[j].name@, before[i].name@));
            } else {
                assert(!text_lt(before[j - 1].name@, before[i - 1].name@));
            }
        }
    }
    k
}

/// The fonts of a document as listed: each distinct name and type once,
/// ordered by name.
pub fn collect_fonts(found: Vec<FontInfo>) -> (listing: Vec<FontInfo>)
    ensures
        is_font_listing(listing@, found@),
{
    let ghost all = found@;
    let mut rest = found;
    let mut listing: Vec<FontInfo> = Vec::new();
    let ghost mut taken: int = 0;
    while rest.len() > 0
        invariant
            0 <= taken <= all.len(),
            rest@ == all.skip(taken),
            sorted_by_name(listing@),
            distinct_fonts(listing@),
            forall|i: int|
                0 <= i < listing@.len() ==> has_font(all.take(taken), font_key(#[trigger] listing@[i])),
            forall|j: int|
                0 <= j < taken ==> has_font(listing@, font_key(#[trigger] all[j])),
        decreases rest.len(),
    {
        let f = rest.remove(0);
        let ghost before = listing@;
        assert(f == all[taken]);
        if !contains_font(&listing, &f) {
            let ghost fk = font_key(f);
            let k = insert_by_name(&mut listing, f);
            proof {
                let after = listing@;
                assert forall|i: int, j: int| 0 <= i < j < after.len() implies font_key(
                    #[trigger] after[i],
                ) != font_key(#[trigger] after[j]) by {
                    if i == k {
                        assert(!has_font(before, fk));
                        assert(font_key(before[j - 1]) != fk);
                    } else if j == k {
                        assert(font_key(before[i]) != fk);
                    } else {
                        let ii = if i < k { i } else { i - 1 };
                        let jj = if j < k { j } else { j - 1 };
                        assert(font_key(before[ii]) != font_key(before[jj]));
                    }
                }
                assert forall|i: int| 0 <= i < after.len() implies has_font(
                    all.take(taken + 1),
                    font_key(#[trigger] after[i]),
                ) by {
                    if i == k {
                        assert(all.take(taken + 1)[taken] == all[taken]);
                    } else {
                        let ii = if i < k { i } else { i - 1 };
                        assert(has_font(all.take(taken), font_key(before[ii])));
                        let w = choose|w: int|
                            0 <= w < all.take(taken).len() && font_key(
                                #[trigger] all.take(taken)[w],
                            ) == font_key(before[ii]);
                        assert(all.take(taken + 1)[w] == all.take(taken)[w]);
                    }
                }
                assert forall|j: int| 0 <= j < taken + 1 implies has_font(
                    after,
                    font_key(#[trigger] all[j]),
                ) by {
                    if j == taken {
                        assert(after[k as int] == f);
                    } else {
                        assert(has_font(before, font_key(all[j])));
                        let w = choose|w: int|
                            0 <= w < before.len() && font_key(#[trigger] before[w]) == font_key(
                                all[j],
                            );
                        if w < k {
                            assert(after[w] == before[w]);
                        } else {
                            assert(after[w + 1] == before[w]);
                        }
                    }
                }
            }
        } else {
            proof {
                assert forall|i: int| 0 <= i < listing@.len() implies has_font(
                    all.take(taken + 1),
                    font_key(#[trigger] listing@[i]),
                ) by {
                    assert(has_font(all.take(taken), font_key(listing@[i])));
                    let w = choose|w: int|
                        0 <= w < all.take(taken).len() && font_key(#[trigger] all.take(taken)[w])
                            == font_key(listing@[i]);
                    assert(all.take(taken + 1)[w] == all.take(taken)[w]);
                }
            }
        }
        proof {
            taken = taken + 1;
            assert(rest@ =~= all.skip(taken));
        }
    }
    proof {
        assert(all.take(taken) =~= all);
    }
    listing
}

/// The total stored size of `images`.
pub open spec fn image_bytes(images: Seq<ImageInfo>) -> nat
    decreases images.len(),
{
    if images.len() == 0 {
        0
    } else {
        image_bytes(images.drop_last()) + images.last().size_bytes as nat
    }
}

/// No image, no bytes.
pub proof fn lemma_image_bytes_empty()
    ensures
        image_bytes(Seq::<ImageInfo>::empty()) == 0,
{
}

/// One more image adds its size to the total.
pub proof fn lemma_image_bytes_push(images: Seq<ImageInfo>, x: ImageInfo)
    ensures
        image_bytes(images.push(x)) == image_bytes(images) + x.size_bytes,
{
    assert(images.push(x).drop_last() =~= images);
}

impl PdfInfo {
    /// The total stored size of the document's images (saturating at
    /// `u64::MAX`).
    pub fn total_image_bytes(&self) -> (t: u64)
        ensures
            t == if image_bytes(self.images@) > u64::MAX {
                u64::MAX as nat
            } else {
                image_bytes(self.images@)
            },
    {
        let n = self.images.len();
        let mut total: u64 = 0;
        let mut i: usize = 0;
        while i < n
            invariant
                n == self.images@.len(),
                i <= n,
                total == if image_bytes(self.images@.take(i as int)) > u64::MAX {
                    u64::MAX as nat
                } else {
                    image_bytes(self.images@.take(i as int))
                },
            decreases n - i,
        {
            proof {
                assert(self.images@.take(i + 1).drop_last() =~= self.images@.take(i as int));
            }
            total = total.saturating_add(self.images[i].size_bytes as u64);
            i = i + 1;
        }
        proof {
            assert(self.images@.take(n as int) =~= self.images@);
        }
        total
    }
}

/// The text of an optional string, or empty.
pub open spec fn text_or_empty(s: Option<Seq<char>>) -> Seq<char> {
    match s {
        Some(t) => t,
        None => seq![],
    }
}

/// The filter names of an image joined with `, `, or empty.
pub open spec fn filters_text(filters: Option<Seq<Seq<char>>>) -> Seq<char> {
    match filters {
        Some(v) => seq_join(v, ", "@),
        None => seq![],
    }
}

/// `info` is what the info mode reports of the image `m` of page `page`.
pub open spec fn image_info_of(info: ImageInfo, page: u32, m: PageImageModel) -> bool {
    &&& info.page == page
    &&& info.width == m.width as u32
    &&& info.height == m.height as u32
    &&& info.color_space@ == text_or_empty(m.color_space)
    &&& info.filters@ == filters_text(m.filters)
    &&& info.size_bytes == m.content.len()
}

/// What the info mode reports of an image of page `page`.
pub fn image_info(page: u32, img: &PageImage) -> (info: ImageInfo)
    ensures
        image_info_of(info, page, page_image_view(*img)),
        info.page == page,
        info.width == img.width as u32,
        info.height == img.height as u32,
        info.size_bytes == img.content@.len(),
{
    let color_space = match &img.color_space {
        Some(cs) => cs.clone(),
        None => String::new(),
    };
    let filters = match &img.filters {
        Some(v) => join_texts(v, ", "),
        None => String::new(),
    };
    ImageInfo {
        page: page as usize,
        width: #[verifier::truncate] (img.width as u32),
        height: #[verifier::truncate] (img.height as u32),
        color_space,
        filters,
        size_bytes: img.content.len(),
    }
}

/// The images of the pages, page by page, each with its page number.
pub open spec fn page_image_entries(doc: Document, pages: Seq<(u32, ObjectId)>) -> Seq<
    (u32, PageImageModel),
>
    decreases pages.len(),
{
    if pages.len() == 0 {
        seq![]
    } else {
        let number = pages.last().0;
        page_image_entries(doc, pages.drop_last()) + page_image_models(doc, pages.last().1).map_values(
            |m: PageImageModel| (number, m),
        )
    }
}

/// `infos` reports exactly the images of `entries`, in order.
pub open spec fn reports_images(infos: Seq<ImageInfo>, entries: Seq<(u32, PageImageModel)>) -> bool {
    &&& infos.len() == entries.len()
    &&& forall|i: int|
        0 <= i < infos.len() ==> image_info_of(#[trigger] infos[i], entries[i].0, entries[i].1)
}

/// Each reported image shows the page it is on, the `/Width` and `/Height`
/// that `get_page_images` reports for it (read as `u32`), and the size of its
/// stored data.
pub proof fn lemma_reported_image_fields(infos: Seq<ImageInfo>, entries: Seq<(u32, PageImageModel)>)
    requires
        reports_images(infos, entries),
    ensures
        infos.len() == entries.len(),
        forall|i: int|
            0 <= i < infos.len() ==> {
                &&& (#[trigger] infos[i]).page == entries[i].0
                &&& infos[i].width == entries[i].1.width as u32
                &&& infos[i].height == entries[i].1.height as u32
                &&& infos[i].size_bytes == entries[i].1.content.len()
            },
{
}

/// The fonts `Document::get_page_fonts` reports for a page (none where it
/// reports an error).
pub open spec fn page_font_models(doc: Document, page: ObjectId) -> Seq<(Seq<u8>, DictModel)> {
    match page_fonts_of(doc, page) {
        Some(v) => v,
        None => seq![],
    }
}

/// The name and type a font is listed with: its resource name and its
/// `/Subtype` name, read as UTF-8 (lossily), the type empty where there is
/// none.
pub open spec fn font_entry_key(entry: (Seq<u8>, DictModel)) -> (Seq<char>, Seq<char>) {
    (
        utf8_lossy(entry.0),
        if entry.1.names.contains_key("Subtype".spec_bytes()) {
            utf8_lossy(entry.1.names["Subtype".spec_bytes()])
        } else {
            seq![]
        },
    )
}

/// The fonts of the pages, page by page, as name and type.
pub open spec fn page_font_keys(doc: Document, pages: Seq<(u32, ObjectId)>) -> Seq<
    (Seq<char>, Seq<char>),
>
    decreases pages.len(),
{
    if pages.len() == 0 {
        seq![]
    } else {
        page_font_keys(doc, pages.drop_last()) + page_font_models(doc, pages.last().1).map_values(
            |e: (Seq<u8>, DictModel)| font_entry_key(e),
        )
    }
}

/// `listing` lists each font of `keys` once, and no other, ordered by name.
pub open spec fn lists_fonts(listing: Seq<FontInfo>, keys: Seq<(Seq<char>, Seq<char>)>) -> bool {
    &&& sorted_by_name(listing)
    &&& distinct_fonts(listing)
    &&& forall|i: int| 0 <= i < listing.len() ==> has_key(keys, font_key(#[trigger] listing[i]))
    &&& forall|j: int| 0 <= j < keys.len() ==> has_font(listing, #[trigger] keys[j])
}

/// Some entry of `keys` is `k`.
pub open spec fn has_key(keys: Seq<(Seq<char>, Seq<char>)>, k: (Seq<char>, Seq<char>)) -> bool {
    exists|j: int| 0 <= j < keys.len() && #[trigger] keys[j] == k
}

/// A listing of fonts whose keys are `keys` lists the fonts of `keys`.
proof fn lemma_listing_of_keys(
    listing: Seq<FontInfo>,
    found: Seq<FontInfo>,
    keys: Seq<(Seq<char>, Seq<char>)>,
)
    requires
        is_font_listing(listing, found),
        found.len() == keys.len(),
        forall|j: int| 0 <= j < found.len() ==> font_key(#[trigger] found[j]) == keys[j],
    ensures
        lists_fonts(listing, keys),
{
    assert forall|i: int| 0 <= i < listing.len() implies has_key(keys, font_key(#[trigger] listing[i])) by {
        assert(has_font(found, font_key(listing[i])));
        let j = choose|j: int| 0 <= j < found.len() && font_key(#[trigger] found[j]) == font_key(
            listing[i],
        );
        assert(keys[j] == font_key(found[j]));
    }
    assert forall|j: int| 0 <= j < keys.len() implies has_font(listing, #[trigger] keys[j]) by {
        assert(font_key(found[j]) == keys[j]);
        assert(has_font(listing, font_key(found[j])));
    }
}

/// Analyzes a loaded PDF: its encryption and signature status, page count,
/// the images of each page in page order, and the fonts it uses, each once
/// and ordered by name.
pub fn analyze_document(doc: &Document, path: String, size_bytes: u64) -> (info: PdfInfo)
    ensures
        info.path@ == path@,
        info.size_bytes == size_bytes,
        info.page_count == page_list(*doc).len(),
        info.is_encrypted == doc_encrypted(*doc),
        info.has_signature == has_signature(*doc),
        reports_images(info.images@, page_image_entries(*doc, page_list(*doc))),
        lists_fonts(info.fonts@, page_font_keys(*doc, page_list(*doc))),
        forall|i: int|
            0 <= i < info.images@.len() ==> 1 <= (#[trigger] info.images@[i]).page
                <= info.page_count,
        forall|i: int, j: int|
            0 <= i < j < info.images@.len() ==> (#[trigger] info.images@[i]).page
                <= (#[trigger] info.images@[j]).page,
{
    let is_encrypted = doc_is_encrypted(doc);
    let has_signature = check_digital_signature(doc).is_some();
    let pages = doc_pages(doc);
    let page_count = pages.len();
    let mut images: Vec<ImageInfo> = Vec::new();
    let mut found: Vec<FontInfo> = Vec::new();
    let mut p: usize = 0;
    while p < page_count
        invariant
            page_count == pages@.len(),
            pages@ == page_list(*doc),
            p <= page_count,
            forall|i: int| 0 <= i < pages@.len() ==> #[trigger] pages@[i].0 == i + 1,
            forall|i: int| 0 <= i < images@.len() ==> 1 <= (#[trigger] images@[i]).page <= p,
            forall|i: int, j: int|
                0 <= i < j < images@.len() ==> (#[trigger] images@[i]).page
                    <= (#[trigger] images@[j]).page,
            reports_images(images@, page_image_entries(*doc, pages@.take(p as int))),
            found@.len() == page_font_keys(*doc, pages@.take(p as int)).len(),
            forall|j: int|
                0 <= j < found@.len() ==> font_key(#[trigger] found@[j]) == page_font_keys(
                    *doc,
                    pages@.take(p as int),
                )[j],
        decreases page_count - p,
    {
        let (page_number, page_id) = pages[p];
        assert(page_number == p + 1);
        let ghost prev_pages = pages@.take(p as int);
        let ghost next_pages = pages@.take(p + 1);
        proof {
            assert(next_pages.drop_last() =~= prev_pages);
            assert(next_pages.last() == pages@[p as int]);
        }
        let ghost prev_entries = page_image_entries(*doc, prev_pages);
        let ghost models = page_image_models(*doc, page_id);
        match page_images(doc, page_id) {
            Some(page_imgs) => {
                let n = page_imgs.len();
                let mut i: usize = 0;
                while i < n
                    invariant
                        n == page_imgs@.len(),
                        i <= n,
                        page_number == p + 1,
                        p < page_count,
                        models == image_views(page_imgs@),
                        forall|k: int| 0 <= k < images@.len() ==> 1 <= (#[trigger] images@[k]).page <= p + 1,
                        forall|a: int, b: int|
                            0 <= a < b < images@.len() ==> (#[trigger] images@[a]).page
                                <= (#[trigger] images@[b]).page,
                        reports_images(
                            images@,
                            prev_entries + models.take(i as int).map_values(
                                |m: PageImageModel| (page_number, m),
                            ),
                        ),
                    decreases n - i,
                {
                    let info = image_info(page_number, &page_imgs[i]);
                    let ghost before = images@;
                    images.push(info);
                    proof {
                        let target = prev_entries + models.take(i + 1).map_values(
                            |m: PageImageModel| (page_number, m),
                        );
                        let old_target = prev_entries + models.take(i as int).map_values(
                            |m: PageImageModel| (page_number, m),
                        );
                        assert(models[i as int] == page_image_view(page_imgs@[i as int]));
                        assert forall|k: int| 0 <= k < images@.len() implies image_info_of(
                            #[trigger] images@[k],
                            target[k].0,
                            target[k].1,
                        ) by {
                            if k < before.len() {
                                assert(images@[k] == before[k]);
                                assert(target[k] == old_target[k]);
                            } else {
                                assert(target[k] == (page_number, models[i as int]));
                            }
                        }
                    }
                    i = i + 1;
                }
                proof {
                    assert(models.take(n as int) =~= models);
                    assert(prev_entries + models.map_values(|m: PageImageModel| (page_number, m))
                        =~= page_image_entries(*doc, next_pages));
                }
            },
            None => {
                proof {
                    assert(models =~= seq![]);
                    assert(page_image_entries(*doc, next_pages) =~= prev_entries);
                }
            },
        }
        let ghost prev_keys = page_font_keys(*doc, prev_pages);
        let ghost font_models = page_font_models(*doc, page_id);
        match page_fonts(doc, page_id) {
            Some(fonts) => {
                let n = fonts.len();
                let mut i: usize = 0;
                while i < n
                    invariant
                        n == fonts@.len(),
                        i <= n,
                        font_models == font_entry_views(fonts@),
                        found@.len() == prev_keys.len() + i,
                        forall|j: int|
                            0 <= j < found@.len() ==> font_key(#[trigger] found@[j]) == (prev_keys
                                + font_models.take(i as int).map_values(
                                |e: (Seq<u8>, DictModel)| font_entry_key(e),
                            ))[j],
                    decreases n - i,
                {
                    let (font_name, font_dict) = &fonts[i];
                    let name = text_from_bytes(font_name.as_slice());
                    let font_type = match dict_get_name(font_dict, "Subtype") {
                        Some(n) => text_from_bytes(n.as_slice()),
                        None => String::new(),
                    };
                    let ghost before = found@;
                    let f = FontInfo { name, font_type };
                    proof {
                        assert(font_models[i as int] == (font_name@, dict_model(**font_dict)));
                        assert(font_key(f) == font_entry_key(font_models[i as int]));
                    }
                    found.push(f);
                    proof {
                        let target = prev_keys + font_models.take(i + 1).map_values(
                            |e: (Seq<u8>, DictModel)| font_entry_key(e),
                        );
                        let old_target = prev_keys + font_models.take(i as int).map_values(
                            |e: (Seq<u8>, DictModel)| font_entry_key(e),
                        );
                        assert forall|j: int| 0 <= j < found@.len() implies font_key(
                            #[trigger] found@[j],
                        ) == target[j] by {
                            if j < before.len() {
                                assert(found@[j] == before[j]);
                                assert(target[j] == old_target[j]);
                            }
                        }
                    }
                    i = i + 1;
                }
                proof {
                    assert(font_models.take(n as int) =~= font_models);
                    assert(prev_keys + font_models.map_values(|e: (Seq<u8>, DictModel)| font_entry_key(e))
                        =~= page_font_keys(*doc, next_pages));
                }
            },
            None => {
                proof {
                    assert(font_models =~= seq![]);
                    assert(page_font_keys(*doc, next_pages) =~= prev_keys);
                }
            },
        }
        p = p + 1;
    }
    proof {
        assert(pages@.take(page_count as int) =~= pages@);
    }
    let ghost all_found = found@;
    let fonts = collect_fonts(found);
    proof {
        lemma_listing_of_keys(fonts@, all_found, page_font_keys(*doc, page_list(*doc)));
    }
    PdfInfo { path, size_bytes, page_count, images, fonts, is_encrypted, has_signature }
}

/// A line of fifty `=`.
pub open spec fn rule_text() -> Seq<char> {
    Seq::new(50, |_i: int| '=')
}

/// How a flag is printed.
pub open spec fn flag_text(b: bool) -> Seq<char> {
    if b {
        "true"@
    } else {
        "false"@
    }
}

/// The info-mode line of an image.
pub open spec fn image_line(img: ImageInfo) -> Seq<char> {
    "    Page "@ + decimal(img.page as nat) + "  "@ + decimal(img.width as nat) + "x"@ + decimal(
        img.height as nat,
    ) + "  "@ + img.color_space@ + "  "@ + img.filters@ + "  "@ + format_size_spec(
        img.size_bytes as nat,
    ) + "\n"@
}

/// The info-mode lines of the images, in order.
pub open spec fn image_lines(images: Seq<ImageInfo>) -> Seq<char>
    decreases images.len(),
{
    if images.len() == 0 {
        seq![]
    } else {
        image_lines(images.drop_last()) + image_line(images.last())
    }
}

/// The info-mode line of a font.
pub open spec fn font_line(f: FontInfo) -> Seq<char> {
    "    "@ + f.name@ + " ("@ + f.font_type@ + ")\n"@
}

/// The info-mode lines of the fonts, in order.
pub open spec fn font_lines(fonts: Seq<FontInfo>) -> Seq<char>
    decreases fonts.len(),
{
    if fonts.len() == 0 {
        seq![]
    } else {
        font_lines(fonts.drop_last()) + font_line(fonts.last())
    }
}

/// The saturated total image size, as reported.
pub open spec fn reported_image_bytes(images: Seq<ImageInfo>) -> nat {
    if image_bytes(images) > u64::MAX {
        u64::MAX as nat
    } else {
        image_bytes(images)
    }
}

/// The summary block printed by the info mode, up to the image lines.
pub open spec fn info_head(info: PdfInfo) -> Seq<char> {
    "\n"@ + rule_text() + "\n"@ + "  "@ + info.path@ + "\n"@ + "  Size: "@ + format_size_spec(
        info.size_bytes as nat,
    ) + "\n"@ + "  Pages: "@ + decimal(info.page_count as nat) + "\n"@ + "  Encrypted: "@
        + flag_text(info.is_encrypted) + "\n"@ + "  Digital Signature: "@ + flag_text(
        info.has_signature,
    ) + "\n"@ + "\n"@ + "  Images: "@ + decimal(info.images@.len()) + "\n"@
        + "  Total image size: "@ + format_size_spec(reported_image_bytes(info.images@)) + "\n"@
}

/// The whole text printed by the info mode for a document.
pub open spec fn info_text_spec(info: PdfInfo) -> Seq<char> {
    info_head(info) + image_lines(info.images@) + "\n"@ + "  Fonts: "@ + decimal(
        info.fonts@.len(),
    ) + "\n"@ + font_lines(info.fonts@) + rule_text() + "\n"@
}

/// Appends a line of fifty `=`.
fn push_rule(s: &mut String)
    ensures
        final(s)@ == old(s)@ + rule_text(),
{
    let text = "==================================================";
    proof {
        reveal_strlit("==================================================");
        assert(text@ =~= rule_text());
    }
    s.append(text);
}

/// Appends a flag as `true` or `false`.
fn push_flag(s: &mut String, b: bool)
    ensures
        final(s)@ == old(s)@ + flag_text(b),
{
    if b {
        s.append("true");
    } else {
        s.append("false");
    }
}

/// Appends the info-mode line of an image.
fn push_image_line(s: &mut String, img: &ImageInfo)
    ensures
        final(s)@ == old(s)@ + image_line(*img),
{
    let ghost start = s@;
    s.append("    Page ");
    push_decimal(s, img.page as u64);
    s.append("  ");
    push_decimal(s, img.width as u64);
    s.append("x");
    push_decimal(s, img.height as u64);
    s.append("  ");
    s.append(img.color_space.as_str());
    s.append("  ");
    s.append(img.filters.as_str());
    s.append("  ");
    let size = format_size(img.size_bytes as u64);
    s.append(size.as_str());
    s.append("\n");
    assert(s@ =~= start + image_line(*img));
}

/// Appends the info-mode line of a font.
fn push_font_line(s: &mut String, f: &FontInfo)
    ensures
        final(s)@ == old(s)@ + font_line(*f),
{
    let ghost start = s@;
    s.append("    ");
    s.append(f.name.as_str());
    s.append(" (");
    s.append(f.font_type.as_str());
    s.append(")\n");
    assert(s@ =~= start + font_line(*f));
}

/// The text the info mode prints for a document: path, size, page count,
/// encryption and signature flags, the images with their page, dimensions,
/// colour space, filters and size, and the fonts.
pub fn info_text(info: &PdfInfo) -> (s: String)
    ensures
        s@ == info_text_spec(*info),
{
    let mut s = String::new();
    s.append("\n");
    push_rule(&mut s);
    s.append("\n");
    s.append("  ");
    s.append(info.path.as_str());
    s.append("\n");
    s.append("  Size: ");
    let size = format_size(info.size_bytes);
    s.append(size.as_str());
    s.append("\n");
    s.append("  Pages: ");
    push_decimal(&mut s, info.page_count as u64);
    s.append("\n");
    s.append("  Encrypted: ");
    push_flag(&mut s, info.is_encrypted);
    s.append("\n");
    s.append("  Digital Signature: ");
    push_flag(&mut s, info.has_signature);
    s.append("\n");
    s.append("\n");
    s.append("  Images: ");
    push_decimal(&mut s, info.images.len() as u64);
    s.append("\n");
    s.append("  Total image size: ");
    let total = format_size(info.total_image_bytes());
    s.append(total.as_str());
    s.append("\n");
    assert(s@ =~= info_head(*info));
    let n = info.images.len();
    let mut i: usize = 0;
    while i < n
        invariant
            n == info.images@.len(),
            i <= n,
            s@ == info_head(*info) + image_lines(info.images@.take(i as int)),
        decreases n - i,
    {
        proof {
            assert(info.images@.take(i + 1).drop_last() =~= info.images@.take(i as int));
        }
        push_image_line(&mut s, &info.images[i]);
        proof {
            assert(s@ =~= info_head(*info) + image_lines(info.images@.take(i + 1)));
        }
        i = i + 1;
    }
    proof {
        assert(info.images@.take(n as int) =~= info.images@);
    }
    let ghost mid = s@;
    s.append("\n");
    s.append("  Fonts: ");
    push_decimal(&mut s, info.fonts.len() as u64);
    s.append("\n");
    let ghost fonts_start = s@;
    let m = info.fonts.len();
    let mut j: usize = 0;
    while j < m
        invariant
            m == info.fonts@.len(),
            j <= m,
            s@ == fonts_start + font_lines(info.fonts@.take(j as int)),
        decreases m - j,
    {
        proof {
            assert(info.fonts@.take(j + 1).drop_last() =~= info.fonts@.take(j as int));
        }
        push_font_line(&mut s, &info.fonts[j]);
        proof {
            assert(s@ =~= fonts_start + font_lines(info.fonts@.take(j + 1)));
        }
        j = j + 1;
    }
    proof {
        assert(info.fonts@.take(m as int) =~= info.fonts@);
    }
    push_rule(&mut s);
    s.append("\n");
    assert(s@ =~= info_text_spec(*info));
    s
}

} // verus!
