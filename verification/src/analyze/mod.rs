//! PDF analysis: digital-signature detection, document information and the
//! report of a run.
pub mod info;
pub mod report;
pub mod summary;

use vstd::prelude::*;
use lopdf::{Dictionary, Document};
use crate::analyze::report::SignatureDetails;
use crate::text::opt_text;
use vstd::string::StringSliceAdditionalSpecFns;
use crate::pdf::{
    catalog_of, doc_dict_in_dict, dict_get_name, doc_arrays, doc_get_refs_in, dict_get_text, dict_has, dict_keys,
    dict_model, dict_texts, doc_catalog, doc_dicts, doc_get_dict, DictModel, ObjectId,
};

verus! {

/// What one entry of the `/AcroForm /Fields` array shows of a signature:
/// whether it refers to a field dictionary whose `/FT` is the name `Sig`,
/// and, for such a field, the text of its `/Name` entry.
#[derive(Debug)]
pub struct FieldSignature {
    pub is_signature: bool,
    pub signer: Option<String>,
}

/// A field as plain values: whether it is a signature field, and its signer.
pub open spec fn field_view(f: FieldSignature) -> (bool, Option<Seq<char>>) {
    (f.is_signature, opt_text(f.signer))
}

/// The plain values of a list of fields.
pub open spec fn field_views(fields: Seq<FieldSignature>) -> Seq<(bool, Option<Seq<char>>)> {
    fields.map_values(|f: FieldSignature| field_view(f))
}

/// The name `Sig`, as bytes.
pub open spec fn sig_name() -> Seq<u8> {
    seq![83u8, 105u8, 103u8]
}

/// How many of `fields` are signature fields.
pub open spec fn signature_count(fields: Seq<(bool, Option<Seq<char>>)>) -> nat
    decreases fields.len(),
{
    if fields.len() == 0 {
        0
    } else {
        signature_count(fields.drop_last()) + if fields.last().0 {
            1nat
        } else {
            0nat
        }
    }
}

/// The signer of the first signature field that names one.
pub open spec fn first_signer(fields: Seq<(bool, Option<Seq<char>>)>) -> Option<Seq<char>>
    decreases fields.len(),
{
    if fields.len() == 0 {
        None
    } else {
        match first_signer(fields.drop_last()) {
            Some(s) => Some(s),
            None => {
                let f = fields.last();
                if f.0 && f.1 is Some {
                    f.1
                } else {
                    None
                }
            },
        }
    }
}

/// A field dictionary whose `/FT` is the name `Sig`.
pub open spec fn model_is_signature(m: DictModel) -> bool {
    &&& m.names.contains_key("FT".spec_bytes())
    &&& m.names["FT".spec_bytes()] == sig_name()
}

/// The text of a dictionary's `/Name`, where it is a string that decodes.
pub open spec fn model_signer(m: DictModel) -> Option<Seq<char>> {
    if m.texts.contains_key("Name".spec_bytes()) {
        Some(m.texts["Name".spec_bytes()])
    } else {
        None
    }
}

/// What one entry of `/Fields` shows: a signature field (with its signer)
/// where it refers to a dictionary whose `/FT` is `Sig`, else nothing.
pub open spec fn item_view(dicts: Map<ObjectId, DictModel>, item: Option<ObjectId>) -> (
    bool,
    Option<Seq<char>>,
) {
    match item {
        Some(id) => if dicts.contains_key(id) && model_is_signature(dicts[id]) {
            (true, model_signer(dicts[id]))
        } else {
            (false, None)
        },
        None => (false, None),
    }
}

/// What the entries of `/Fields` show.
pub open spec fn item_views(dicts: Map<ObjectId, DictModel>, items: Seq<Option<ObjectId>>) -> Seq<
    (bool, Option<Seq<char>>),
> {
    items.map_values(|item: Option<ObjectId>| item_view(dicts, item))
}

/// The form dictionary of a document: the catalog's `/AcroForm`, held
/// directly or through a reference to a dictionary object.
pub open spec fn acroform_of(doc: Document) -> Option<DictModel> {
    match catalog_of(doc) {
        Some((c, inner)) => if inner.contains_key("AcroForm".spec_bytes()) {
            Some(inner["AcroForm".spec_bytes()])
        } else if c.refs.contains_key("AcroForm".spec_bytes()) && doc_dicts(doc).contains_key(
            c.refs["AcroForm".spec_bytes()],
        ) {
            Some(doc_dicts(doc)[c.refs["AcroForm".spec_bytes()]])
        } else {
            None
        },
        None => None,
    }
}

/// The entries of the form's `/Fields` array (held in the form or referred
/// to from it), where there is one.
pub open spec fn form_field_refs(doc: Document) -> Option<Seq<Option<ObjectId>>> {
    match acroform_of(doc) {
        Some(form) => if form.arrays.contains_key("Fields".spec_bytes()) {
            Some(form.arrays["Fields".spec_bytes()])
        } else if form.refs.contains_key("Fields".spec_bytes()) && doc_arrays(doc).contains_key(
            form.refs["Fields".spec_bytes()],
        ) {
            Some(doc_arrays(doc)[form.refs["Fields".spec_bytes()]])
        } else {
            None
        },
        None => None,
    }
}

/// What the entries of the form's `/Fields` array show, where the form has
/// such an array.
pub open spec fn form_fields(doc: Document) -> Option<Seq<(bool, Option<Seq<char>>)>> {
    match form_field_refs(doc) {
        Some(items) => Some(item_views(doc_dicts(doc), items)),
        None => None,
    }
}

/// The form lists at least one signature field.
pub open spec fn has_acroform_signature(doc: Document) -> bool {
    form_fields(doc) matches Some(v) && signature_count(v) > 0
}

/// The form dictionary has a `/DOCMDP` entry: a certified document.
pub open spec fn has_docmdp(doc: Document) -> bool {
    acroform_of(doc) matches Some(form) && form.keys.contains("DOCMDP".spec_bytes())
}

/// The catalog has a `/Permissions` entry.
pub open spec fn has_permissions(doc: Document) -> bool {
    catalog_of(doc) matches Some((c, _)) && c.keys.contains("Permissions".spec_bytes())
}

/// The document carries a signature in one of the places looked at.
pub open spec fn has_signature(doc: Document) -> bool {
    has_acroform_signature(doc) || has_docmdp(doc) || has_permissions(doc)
}

/// `d` is what is reported of the signature of `doc`: the form's signature
/// fields first, then a certification, then a `/Permissions` dictionary.
pub open spec fn found_signature(doc: Document, d: SignatureDetails) -> bool {
    &&& has_acroform_signature(doc) ==> (form_fields(doc) matches Some(v) && is_acroform_details(
        d,
        v,
    ))
    &&& !has_acroform_signature(doc) && has_docmdp(doc) ==> is_docmdp_details(d)
    &&& !has_acroform_signature(doc) && !has_docmdp(doc) && has_permissions(doc)
        ==> is_permissions_details(d)
}

/// The details reported for a document whose form has signature fields.
pub open spec fn is_acroform_details(d: SignatureDetails, fields: Seq<(bool, Option<Seq<char>>)>) -> bool {
    &&& d.sig_type@ == "AcroForm/Sig"@
    &&& d.certificates_count == signature_count(fields)
    &&& opt_text(d.signer) == first_signer(fields)
}

/// The details reported for a certified (DocMDP) document.
pub open spec fn is_docmdp_details(d: SignatureDetails) -> bool {
    &&& d.sig_type@ == "DocMDP"@
    &&& d.signer is None
    &&& d.certificates_count == 1
}

/// The details reported for a document with a `/Permissions` dictionary.
pub open spec fn is_permissions_details(d: SignatureDetails) -> bool {
    &&& d.sig_type@ == "Permissions"@
    &&& d.signer is None
    &&& d.certificates_count == 1
}

proof fn lemma_signature_count_le(fields: Seq<(bool, Option<Seq<char>>)>)
    ensures
        signature_count(fields) <= fields.len(),
    decreases fields.len(),
{
    if fields.len() > 0 {
        lemma_signature_count_le(fields.drop_last());
    }
}

/// Whether a name's bytes are `Sig`.
fn is_sig_name(n: &Vec<u8>) -> (b: bool)
    ensures
        b == (n@ == sig_name()),
{
    if n.len() == 3 && n[0] == 83 && n[1] == 105 && n[2] == 103 {
        assert(n@ =~= sig_name());
        true
    } else {
        false
    }
}

/// The signature found among the fields of a form: none if no field is a
/// signature field, else their number and the first signer named.
pub fn acroform_signature(fields: &Vec<FieldSignature>) -> (r: Option<SignatureDetails>)
    ensures
        r is Some <==> signature_count(field_views(fields@)) > 0,
        r matches Some(d) ==> is_acroform_details(d, field_views(fields@)),
{
    let ghost views = field_views(fields@);
    let mut count: usize = 0;
    let mut signer: Option<String> = None;
    let n = fields.len();
    let mut i: usize = 0;
    while i < n
        invariant
            n == fields@.len(),
            views == field_views(fields@),
            i <= n,
            count == signature_count(views.take(i as int)),
            opt_text(signer) == first_signer(views.take(i as int)),
        decreases n - i,
    {
        let f = &fields[i];
        proof {
            assert(views.take(i + 1).drop_last() =~= views.take(i as int));
            assert(views.take(i + 1).last() == field_view(fields@[i as int]));
            lemma_signature_count_le(views.take(i as int));
        }
        if f.is_signature {
            count = count + 1;
            if signer.is_none() {
                signer = match &f.signer {
                    Some(s) => Some(s.clone()),
                    None => None,
                };
            }
        }
        i = i + 1;
    }
    proof {
        assert(views.take(n as int) =~= views);
    }
    if count > 0 {
        Some(SignatureDetails { sig_type: String::from_str("AcroForm/Sig"), signer, certificates_count: count })
    } else {
        None
    }
}

/// The signer named by a signature dictionary: the text of its `/Name`, where
/// that is a string that decodes as text.
pub fn extract_signer(sig_dict: &Dictionary) -> (r: Option<String>)
    ensures
        r is Some <==> dict_texts(*sig_dict).contains_key("Name".spec_bytes()),
        r matches Some(t) ==> t@ == dict_texts(*sig_dict)["Name".spec_bytes()],
{
    dict_get_text(sig_dict, "Name")
}

/// What a field dictionary shows of a signature: whether it is a signature
/// field, and if so the text of its `/Name`.
pub fn signature_field(field_dict: &Dictionary) -> (f: FieldSignature)
    ensures
        f.is_signature == model_is_signature(dict_model(*field_dict)),
        opt_text(f.signer) == if f.is_signature {
            model_signer(dict_model(*field_dict))
        } else {
            None
        },
{
    let is_signature = match dict_get_name(field_dict, "FT") {
        Some(name) => is_sig_name(&name),
        None => false,
    };
    if is_signature {
        FieldSignature { is_signature, signer: extract_signer(field_dict) }
    } else {
        FieldSignature { is_signature, signer: None }
    }
}

/// What one entry of `/Fields` shows of a signature: nothing unless it is a
/// reference to a dictionary.
fn field_signature(doc: &Document, field: Option<ObjectId>) -> (f: FieldSignature)
    ensures
        field_view(f) == item_view(doc_dicts(*doc), field),
{
    match field {
        None => FieldSignature { is_signature: false, signer: None },
        Some(id) => match doc_get_dict(doc, id) {
            None => FieldSignature { is_signature: false, signer: None },
            Some(field_dict) => signature_field(field_dict),
        },
    }
}

/// The certification found in a form dictionary: a `/DOCMDP` entry.
pub fn docmdp_signature(acroform: &Dictionary) -> (r: Option<SignatureDetails>)
    ensures
        r is Some <==> dict_keys(*acroform).contains("DOCMDP".spec_bytes()),
        r matches Some(d) ==> is_docmdp_details(d),
{
    if dict_has(acroform, "DOCMDP") {
        Some(SignatureDetails { sig_type: String::from_str("DocMDP"), signer: None, certificates_count: 1 })
    } else {
        None
    }
}

/// The signature found in a catalog's `/Permissions` entry.
pub fn permissions_signature(root: &Dictionary) -> (r: Option<SignatureDetails>)
    ensures
        r is Some <==> dict_keys(*root).contains("Permissions".spec_bytes()),
        r matches Some(d) ==> is_permissions_details(d),
{
    if dict_has(root, "Permissions") {
        Some(
            SignatureDetails {
                sig_type: String::from_str("Permissions"),
                signer: None,
                certificates_count: 1,
            },
        )
    } else {
        None
    }
}

/// Looks for signature fields in the catalog's `/AcroForm /Fields` (the form
/// dictionary held in the catalog or referred to from it).
pub fn check_acroform_signatures(doc: &Document) -> (r: Option<SignatureDetails>)
    ensures
        r is Some <==> has_acroform_signature(*doc),
        r matches Some(d) ==> form_fields(*doc) matches Some(v) && is_acroform_details(d, v),
{
    let root = doc_catalog(doc)?;
    let acroform = doc_dict_in_dict(doc, root, "AcroForm")?;
    let items = doc_get_refs_in(doc, acroform, "Fields")?;
    let ghost dicts = doc_dicts(*doc);
    let ghost expected = item_views(dicts, items@);
    assert(form_fields(*doc) == Some(expected));
    let mut fields: Vec<FieldSignature> = Vec::new();
    let n = items.len();
    let mut i: usize = 0;
    while i < n
        invariant
            n == items@.len(),
            i <= n,
            dicts == doc_dicts(*doc),
            expected == item_views(dicts, items@),
            fields@.len() == i,
            field_views(fields@) =~= expected.take(i as int),
        decreases n - i,
    {
        let f = field_signature(doc, items[i]);
        let ghost before = fields@;
        fields.push(f);
        proof {
            assert forall|k: int| 0 <= k < i + 1 implies #[trigger] field_views(fields@)[k]
                == expected.take(i + 1)[k] by {
                assert(fields@ == before.push(f));
                if k < i {
                    assert(fields@[k] == before[k]);
                    assert(field_views(before)[k] == expected.take(i as int)[k]);
                }
            }
            assert(field_views(fields@) =~= expected.take(i + 1));
        }
        i = i + 1;
    }
    proof {
        assert(expected.take(n as int) =~= expected);
    }
    acroform_signature(&fields)
}

/// Looks for a `/DOCMDP` entry in the catalog's `/AcroForm`: a certified
/// document.
pub fn check_docmdp(doc: &Document) -> (r: Option<SignatureDetails>)
    ensures
        r is Some <==> has_docmdp(*doc),
        r matches Some(d) ==> is_docmdp_details(d),
{
    let root = doc_catalog(doc)?;
    let acroform = doc_dict_in_dict(doc, root, "AcroForm")?;
    docmdp_signature(acroform)
}

/// Looks for a `/Permissions` entry in the catalog.
pub fn check_permissions_dict(doc: &Document) -> (r: Option<SignatureDetails>)
    ensures
        r is Some <==> has_permissions(*doc),
        r matches Some(d) ==> is_permissions_details(d),
{
    let root = doc_catalog(doc)?;
    permissions_signature(root)
}

/// Whether a PDF carries a digital signature, and what was found of it:
/// signature fields in the form first, then a certification, then a
/// `/Permissions` dictionary.
pub fn check_digital_signature(doc: &Document) -> (r: Option<SignatureDetails>)
    ensures
        r is Some <==> has_signature(*doc),
        r matches Some(d) ==> found_signature(*doc, d),
{
    let acroform = check_acroform_signatures(doc);
    if acroform.is_some() {
        return acroform;
    }
    let docmdp = check_docmdp(doc);
    if docmdp.is_some() {
        return docmdp;
    }
    check_permissions_dict(doc)
}

} // verus!
