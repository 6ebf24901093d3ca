//! The compression pipeline: image re-encoding, stream compression, and the
//! decisions around writing each file and reporting the run.
pub mod images;
pub mod streams;

use vstd::prelude::*;
use lopdf::Document;
use crate::analyze::{check_digital_signature, found_signature, has_signature};
use crate::analyze::report::{
    lemma_count_le_len, lemma_statuses_partition,
    count_status, summary_of, total_original, total_output, totals_fit_spec, CompressionDetails,
    FileResult, FileStatus, Report, SignatureDetails, SkipReason, summarize,
};
use crate::compress::images::{
    compress_images, image_stage_start, objects_after_images, queued_images, run_images, zero_image_stats, ImageStats,
};
use crate::compress::streams::{compress_streams, stream_stage, StreamStats};
use crate::config::presets::CompressionConfig;
use crate::pdf::{
    doc_encrypted, doc_is_encrypted, doc_pages, page_list, stored_streams,
    doc_objects, ObjectId, PdfValue, StreamModel,
};
use crate::text::{opt_text, seq_contains, text_contains};
use crate::utils::{backup_path, backup_path_spec, default_output_path, default_output_path_spec};
use crate::utils::path_ops::{file_name_of, path_file_name, path_with_extension, with_extension};

verus! {

/// What the in-memory stages made of a loaded document.
#[derive(Debug)]
pub enum DocumentOutcome {
    /// The document is encrypted and was not touched.
    Encrypted { pages: usize },
    /// The document carries a digital signature and was not touched.
    Signed { pages: usize, details: SignatureDetails },
    /// Images and streams were compressed; the document is ready to be written.
    Compressed { pages: usize, images: ImageStats, streams: StreamStats },
}

/// The stored streams after the image stage: as they were where the stage
/// is off, else with the qualifying images replaced.
pub open spec fn images_stage_streams(doc: Document, config: CompressionConfig) -> Map<
    ObjectId,
    StreamModel,
> {
    if config.jpeg_quality == 0 {
        stored_streams(doc)
    } else {
        run_images(queued_images(doc, page_list(doc), config), config, image_stage_start(doc)).0
    }
}

/// Every object of the document after the image stage: as it was where the
/// stage is off, else with the qualifying images replaced.
pub open spec fn images_stage_objects(doc: Document, config: CompressionConfig) -> Map<
    ObjectId,
    PdfValue,
> {
    if config.jpeg_quality == 0 {
        doc_objects(doc)
    } else {
        objects_after_images(queued_images(doc, page_list(doc), config), config, doc_objects(doc))
    }
}

/// Runs the in-memory stages on a loaded document: encrypted and signed
/// documents are left alone; any other has its images re-encoded and then its
/// streams compressed.
pub fn prepare_document(doc: &mut Document, config: &CompressionConfig) -> (o: DocumentOutcome)
    ensures
        o is Encrypted || o is Signed ==> *final(doc) == *old(doc),
        o matches DocumentOutcome::Compressed { images, .. } ==> {
            &&& images.images_compressed_bytes <= images.images_original_bytes
            &&& config.jpeg_quality == 0 ==> images == zero_image_stats()
            &&& config.jpeg_quality != 0 ==> images == run_images(
                queued_images(*old(doc), page_list(*old(doc)), *config),
                *config,
                image_stage_start(*old(doc)),
            ).1
        },
        o matches DocumentOutcome::Compressed { streams, .. } ==> exists|mid: Document|
            {
                &&& stored_streams(mid) == images_stage_streams(*old(doc), *config)
                &&& doc_objects(mid) == images_stage_objects(*old(doc), *config)
                &&& doc_objects(*final(doc)) == stream_stage(mid).2
                &&& config.jpeg_quality == 0 ==> mid == *old(doc)
                &&& stored_streams(*final(doc)) == stream_stage(mid).0
                &&& streams.streams_compressed == stream_stage(mid).1
            },
        (o is Encrypted) == doc_encrypted(*old(doc)),
        (o is Signed) == (!doc_encrypted(*old(doc)) && has_signature(*old(doc))),
        o matches DocumentOutcome::Signed { details, .. } ==> found_signature(*old(doc), details),
        o matches DocumentOutcome::Signed { details, .. } ==> details.certificates_count > 0,
        o matches DocumentOutcome::Encrypted { pages } ==> pages == page_list(*old(doc)).len(),
        o matches DocumentOutcome::Signed { pages, .. } ==> pages == page_list(*old(doc)).len(),
        o matches DocumentOutcome::Compressed { pages, .. } ==> pages == page_list(
            *old(doc),
        ).len(),
{
    if doc_is_encrypted(doc) {
        let pages = doc_pages(doc).len();
        return DocumentOutcome::Encrypted { pages };
    }
    if let Some(details) = check_digital_signature(doc) {
        let pages = doc_pages(doc).len();
        return DocumentOutcome::Signed { pages, details };
    }
    let pages = doc_pages(doc).len();
    let images = compress_images(doc, config);
    let ghost mid = *doc;
    let streams = compress_streams(doc);
    proof {
        assert(stored_streams(mid) == images_stage_streams(*old(doc), *config));
        assert(doc_objects(mid) == images_stage_objects(*old(doc), *config));
    }
    DocumentOutcome::Compressed { pages, images, streams }
}

/// A result whose fields agree with its status: only a compressed file has
/// an output path and size, and its output is smaller than the original;
/// exactly the skipped files give a reason, and exactly the failed ones an
/// error; signature details come only with a signature skip.
pub open spec fn result_consistent(f: FileResult) -> bool {
    &&& (f.status == FileStatus::Compressed) <==> f.output_path is Some
    &&& (f.status == FileStatus::Compressed) <==> f.output_size_bytes is Some
    &&& (f.status == FileStatus::Skipped) <==> f.skip_reason is Some
    &&& (f.status == FileStatus::Error) <==> f.error is Some
    &&& f.signature_details is Some ==> f.skip_reason == Some(SkipReason::DigitalSignatureDetected)
    &&& f.output_size_bytes matches Some(out) ==> out < f.original_size_bytes
}

/// The result of a file the in-memory stages settled without writing: an
/// error for an encrypted document, a skip for a signed one; `None` for a
/// document that is to be written.
pub fn settled_result(input_path: &str, original_size: u64, outcome: &DocumentOutcome) -> (r:
    Option<FileResult>)
    ensures
        r is Some <==> !(outcome is Compressed),
        r matches Some(f) ==> {
            &&& result_consistent(f)
            &&& f.input_path@ == input_path@
            &&& f.original_size_bytes == original_size
            &&& f.details is None
            &&& *outcome matches DocumentOutcome::Encrypted { pages } ==> {
                &&& f.status == FileStatus::Error
                &&& f.error matches Some(e) && e@ == "PDF is encrypted"@
                &&& f.pages == Some(pages)
                &&& f.signature_details is None
            }
            &&& *outcome matches DocumentOutcome::Signed { pages, details } ==> {
                &&& f.status == FileStatus::Skipped
                &&& f.skip_reason == Some(SkipReason::DigitalSignatureDetected)
                &&& f.pages == Some(pages)
                &&& f.signature_details matches Some(d) && d.sig_type@ == details.sig_type@
                    && d.certificates_count == details.certificates_count && opt_text(d.signer)
                    == opt_text(details.signer)
            }
        },
{
    match outcome {
        DocumentOutcome::Encrypted { pages } => Some(
            FileResult {
                input_path: String::from_str(input_path),
                output_path: None,
                status: FileStatus::Error,
                original_size_bytes: original_size,
                output_size_bytes: None,
                pages: Some(*pages),
                skip_reason: None,
                signature_details: None,
                error: Some(String::from_str("PDF is encrypted")),
                details: None,
            },
        ),
        DocumentOutcome::Signed { pages, details } => Some(
            FileResult {
                input_path: String::from_str(input_path),
                output_path: None,
                status: FileStatus::Skipped,
                original_size_bytes: original_size,
                output_size_bytes: None,
                pages: Some(*pages),
                skip_reason: Some(SkipReason::DigitalSignatureDetected),
                signature_details: Some(
                    SignatureDetails {
                        sig_type: details.sig_type.clone(),
                        signer: match &details.signer {
                            Some(s) => Some(s.clone()),
                            None => None,
                        },
                        certificates_count: details.certificates_count,
                    },
                ),
                error: None,
                details: None,
            },
        ),
        DocumentOutcome::Compressed { .. } => None,
    }
}

/// The statistics reported for a written document.
pub open spec fn stage_details(images: ImageStats, streams: StreamStats) -> CompressionDetails {
    CompressionDetails {
        images_processed: Some(images.images_processed),
        images_original_bytes: Some(images.images_original_bytes),
        images_compressed_bytes: Some(images.images_compressed_bytes),
        streams_compressed: Some(streams.streams_compressed),
        images_skipped_jpeg2000: Some(images.images_skipped_jpeg2000),
        fonts_deduplicated: None,
        metadata_removed_bytes: None,
    }
}

/// The result of a document that was written to a temporary file of
/// `written_size` bytes: compressed, with the output at `output_path`, where
/// it is smaller than the original; otherwise skipped for lack of benefit
/// (and the temporary file is to be removed).
pub fn written_result(
    input_path: &str,
    original_size: u64,
    pages: usize,
    images: ImageStats,
    streams: StreamStats,
    output_path: &str,
    written_size: u64,
) -> (f: FileResult)
    ensures
        result_consistent(f),
        f.input_path@ == input_path@,
        f.original_size_bytes == original_size,
        f.pages == Some(pages),
        f.details == Some(stage_details(images, streams)),
        f.signature_details is None,
        written_size < original_size ==> {
            &&& f.status == FileStatus::Compressed
            &&& f.output_path matches Some(p) && p@ == output_path@
            &&& f.output_size_bytes == Some(written_size)
        },
        written_size >= original_size ==> {
            &&& f.status == FileStatus::Skipped
            &&& f.skip_reason == Some(SkipReason::NoCompressionBenefit)
        },
{
    let details = CompressionDetails {
        images_processed: Some(images.images_processed),
        images_original_bytes: Some(images.images_original_bytes),
        images_compressed_bytes: Some(images.images_compressed_bytes),
        streams_compressed: Some(streams.streams_compressed),
        images_skipped_jpeg2000: Some(images.images_skipped_jpeg2000),
        fonts_deduplicated: None,
        metadata_removed_bytes: None,
    };
    if written_size >= original_size {
        FileResult {
            input_path: String::from_str(input_path),
            output_path: None,
            status: FileStatus::Skipped,
            original_size_bytes: original_size,
            output_size_bytes: None,
            pages: Some(pages),
            skip_reason: Some(SkipReason::NoCompressionBenefit),
            signature_details: None,
            error: None,
            details: Some(details),
        }
    } else {
        FileResult {
            input_path: String::from_str(input_path),
            output_path: Some(String::from_str(output_path)),
            status: FileStatus::Compressed,
            original_size_bytes: original_size,
            output_size_bytes: Some(written_size),
            pages: Some(pages),
            skip_reason: None,
            signature_details: None,
            error: None,
            details: Some(details),
        }
    }
}

/// The result of a document whose output path is already taken: skipped,
/// with the file there left alone.
pub fn existing_output_result(
    input_path: &str,
    original_size: u64,
    pages: usize,
    images: ImageStats,
    streams: StreamStats,
) -> (f: FileResult)
    ensures
        result_consistent(f),
        f.input_path@ == input_path@,
        f.status == FileStatus::Skipped,
        f.skip_reason == Some(SkipReason::OutputExists),
        f.original_size_bytes == original_size,
        f.pages == Some(pages),
        f.details == Some(stage_details(images, streams)),
        f.signature_details is None,
{
    FileResult {
        input_path: String::from_str(input_path),
        output_path: None,
        status: FileStatus::Skipped,
        original_size_bytes: original_size,
        output_size_bytes: None,
        pages: Some(pages),
        skip_reason: Some(SkipReason::OutputExists),
        signature_details: None,
        error: None,
        details: Some(
            CompressionDetails {
                images_processed: Some(images.images_processed),
                images_original_bytes: Some(images.images_original_bytes),
                images_compressed_bytes: Some(images.images_compressed_bytes),
                streams_compressed: Some(streams.streams_compressed),
                images_skipped_jpeg2000: Some(images.images_skipped_jpeg2000),
                fonts_deduplicated: None,
                metadata_removed_bytes: None,
            },
        ),
    }
}

/// A written document's result: compressed, with the output path and size,
/// where the written output is smaller than the original; otherwise skipped
/// for lack of benefit.
pub open spec fn written_outcome(f: FileResult, written: Option<(&str, u64)>, original_size: u64) -> bool {
    match written {
        Some((p, n)) => if n < original_size {
            &&& f.status == FileStatus::Compressed
            &&& f.output_path matches Some(o) && o@ == p@
            &&& f.output_size_bytes == Some(n)
        } else {
            &&& f.status == FileStatus::Skipped
            &&& f.skip_reason == Some(SkipReason::NoCompressionBenefit)
        },
        None => false,
    }
}

/// The result of a processed file, whatever happened to it: an encrypted
/// document is an error, a signed one is skipped, a compressed one is
/// skipped where its output path is taken, else it is compressed where the
/// written output (at `written.0`, of `written.1` bytes) is smaller than the
/// original and skipped for lack of benefit where it is not. Every such
/// result agrees with its status.
pub fn outcome_result(
    input_path: &str,
    original_size: u64,
    outcome: &DocumentOutcome,
    output_taken: bool,
    written: Option<(&str, u64)>,
) -> (f: FileResult)
    requires
        outcome is Compressed && !output_taken ==> written is Some,
    ensures
        result_consistent(f),
        f.input_path@ == input_path@,
        f.original_size_bytes == original_size,
        outcome is Encrypted ==> f.status == FileStatus::Error,
        outcome is Signed ==> f.status == FileStatus::Skipped && f.skip_reason == Some(
            SkipReason::DigitalSignatureDetected,
        ),
        outcome is Compressed && output_taken ==> f.status == FileStatus::Skipped && f.skip_reason
            == Some(SkipReason::OutputExists),
        outcome is Compressed && !output_taken ==> written_outcome(f, written, original_size),
{
    match outcome {
        DocumentOutcome::Compressed { pages, images, streams } => {
            if output_taken {
                existing_output_result(input_path, original_size, *pages, *images, *streams)
            } else {
                let (path, size) = written.unwrap();
                written_result(input_path, original_size, *pages, *images, *streams, path, size)
            }
        },
        _ => settled_result(input_path, original_size, outcome).unwrap(),
    }
}

/// The result of a file that could not be processed at all.
pub fn failed_result(input_path: &str, message: &str) -> (f: FileResult)
    ensures
        result_consistent(f),
        f.input_path@ == input_path@,
        f.status == FileStatus::Error,
        f.original_size_bytes == 0,
        f.error matches Some(e) && e@ == "Processing error: "@ + message@,
        f.pages is None,
        f.details is None,
{
    let mut error = String::from_str("Processing error: ");
    error.append(message);
    FileResult {
        input_path: String::from_str(input_path),
        output_path: None,
        status: FileStatus::Error,
        original_size_bytes: 0,
        output_size_bytes: None,
        pages: None,
        skip_reason: None,
        signature_details: None,
        error: Some(error),
        details: None,
    }
}

/// Where the compressed document goes: the path given with `--output` where
/// there is one; else over the input in force mode; else the default
/// `<name>.slim.pdf` next to it, or `None` where the input has no file name
/// to derive that from.
pub open spec fn output_path_spec(input: Seq<char>, force: bool, output: Option<Seq<char>>) -> Option<
    Seq<char>,
> {
    if output is Some {
        output
    } else if force {
        Some(input)
    } else if path_file_name(input) is Some {
        Some(default_output_path_spec(input))
    } else {
        None
    }
}

/// Where the compressed document goes.
pub fn output_path_for(input: &str, force: bool, output: Option<&str>) -> (r: Option<String>)
    ensures
        match r {
            Some(p) => output_path_spec(input@, force, opt_str(output)) == Some(p@),
            None => output_path_spec(input@, force, opt_str(output)) is None,
        },
{
    if let Some(o) = output {
        return Some(String::from_str(o));
    }
    if force {
        return Some(String::from_str(input));
    }
    match file_name_of(input) {
        Some(_) => Some(default_output_path(input)),
        None => None,
    }
}

/// The text of an optional string slice.
pub open spec fn opt_str(s: Option<&str>) -> Option<Seq<char>> {
    match s {
        Some(t) => Some(t@),
        None => None,
    }
}

/// The temporary file the document is first written to: the output path
/// with its extension replaced by `.tmp`.
pub fn temp_path_for(output_path: &str) -> (r: String)
    ensures
        r@ == path_with_extension(output_path@, ".tmp"@),
{
    proof {
        reveal_strlit(".tmp");
    }
    with_extension(output_path, ".tmp")
}

/// The files involved in writing a compressed document.
#[derive(Debug)]
pub struct WritePlan {
    /// Where the compressed document ends up.
    pub output_path: String,
    /// Where it is written first.
    pub temp_path: String,
    /// Where the input is copied first, in force mode.
    pub backup_path: Option<String>,
    /// Whether a file already at the output path makes the document be
    /// skipped (everywhere but when overwriting the input in force mode).
    pub skip_if_exists: bool,
}

/// How a compressed document is written: to the `--output` path where one
/// is given; otherwise in force mode over the input, after a backup copy of
/// it; otherwise to `<name>.slim.pdf` next to it, leaving the input alone.
/// Either way it goes to a temporary file first. `None` where the output
/// path has to be derived from an input that has no file name.
pub fn plan_write(input: &str, force: bool, output: Option<&str>) -> (r: Option<WritePlan>)
    ensures
        r is Some <==> output_path_spec(input@, force, opt_str(output)) is Some,
        r matches Some(plan) ==> {
            &&& output_path_spec(input@, force, opt_str(output)) == Some(plan.output_path@)
            &&& plan.temp_path@ == path_with_extension(plan.output_path@, ".tmp"@)
            &&& output matches Some(o) ==> plan.output_path@ == o@ && plan.backup_path is None
            &&& output is None && force ==> plan.output_path@ == input@
            &&& output is None && force ==> (plan.backup_path matches Some(b) && b@
                == backup_path_spec(input@))
            &&& !force ==> plan.backup_path is None
            &&& plan.skip_if_exists == !(output is None && force)
        },
{
    let output_path = output_path_for(input, force, output)?;
    let temp_path = temp_path_for(output_path.as_str());
    let backup = if force && output.is_none() {
        Some(backup_path(input))
    } else {
        None
    };
    let skip_if_exists = !(force && output.is_none());
    Some(WritePlan { output_path, temp_path, backup_path: backup, skip_if_exists })
}

/// The message for a document that failed to load, with a repair hint where
/// the cross-reference table (or, with `trailer_hint`, the trailer) is named
/// in the loader's message.
pub open spec fn load_error_text(message: Seq<char>, path: Seq<char>, trailer_hint: bool) -> Seq<
    char,
> {
    let hint = "\nTry repairing with: qpdf --repair "@ + path + " - > "@ + path + "_fixed.pdf"@;
    if seq_contains(message, "cross-reference"@) || seq_contains(message, "cross reference"@) {
        "PDF has a damaged or non-standard cross-reference table: "@ + message + hint
    } else if trailer_hint && (seq_contains(message, "trailer"@) || seq_contains(
        message,
        "Trailer"@,
    )) {
        "PDF has a missing or invalid file trailer: "@ + message + hint
    } else {
        "Failed to load PDF: "@ + message
    }
}

/// Describes a failure to load a document.
pub fn describe_load_error(message: &str, path: &str, trailer_hint: bool) -> (r: String)
    ensures
        r@ == load_error_text(message@, path@, trailer_hint),
{
    let xref = text_contains(message, "cross-reference") || text_contains(message, "cross reference");
    let trailer = trailer_hint && (text_contains(message, "trailer") || text_contains(
        message,
        "Trailer",
    ));
    if xref || trailer {
        let mut r = if xref {
            String::from_str("PDF has a damaged or non-standard cross-reference table: ")
        } else {
            String::from_str("PDF has a missing or invalid file trailer: ")
        };
        r.append(message);
        r.append("\nTry repairing with: qpdf --repair ");
        r.append(path);
        r.append(" - > ");
        r.append(path);
        r.append("_fixed.pdf");
        r
    } else {
        let mut r = String::from_str("Failed to load PDF: ");
        r.append(message);
        r
    }
}

/// Results that all agree with their status never report more output than
/// input, and report strictly less as soon as one file was compressed: each
/// output size is below its file's original size.
pub proof fn lemma_output_below_original(files: Seq<FileResult>)
    requires
        forall|i: int| 0 <= i < files.len() ==> result_consistent(#[trigger] files[i]),
    ensures
        total_output(files) <= total_original(files),
        (exists|i: int| 0 <= i < files.len() && (#[trigger] files[i]).status == FileStatus::Compressed)
            ==> total_output(files) < total_original(files),
    decreases files.len(),
{
    if files.len() > 0 {
        let init = files.drop_last();
        assert forall|i: int| 0 <= i < init.len() implies result_consistent(#[trigger] init[i]) by {
            assert(init[i] == files[i]);
        }
        lemma_output_below_original(init);
        assert(result_consistent(files[files.len() - 1]));
        if exists|i: int| 0 <= i < files.len() && (#[trigger] files[i]).status == FileStatus::Compressed {
            let i = choose|i: int| 0 <= i < files.len() && (#[trigger] files[i]).status == FileStatus::Compressed;
            if i < files.len() - 1 {
                assert(init[i] == files[i]);
            }
        }
    }
}

/// Builds the report of a run from its files' results.
pub fn build_report(version: String, timestamp: String, preset: String, files: Vec<FileResult>) -> (r:
    Report)
    requires
        totals_fit_spec(files@),
    ensures
        r.version@ == version@,
        r.timestamp@ == timestamp@,
        r.preset@ == preset@,
        r.files@ == files@,
        r.summary == summary_of(files@),
        r.summary.compressed + r.summary.skipped + r.summary.errors == r.summary.total_files,
{
    let summary = summarize(&files);
    proof {
        lemma_statuses_partition(files@);
        lemma_count_le_len(files@, FileStatus::Compressed);
        lemma_count_le_len(files@, FileStatus::Skipped);
        lemma_count_le_len(files@, FileStatus::Error);
        assert(files@.len() == files.len());
    }
    Report { version, timestamp, preset, summary, files }
}

} // verus!
