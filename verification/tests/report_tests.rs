use pdf_slim::analyze::report::{
    CompressionDetails, FileResult, FileStatus, SignatureDetails, SkipReason, summarize, totals_fit,
};
use pdf_slim::compress::images::ImageStats;
use pdf_slim::compress::streams::StreamStats;
use pdf_slim::compress::{
    build_report, describe_load_error, failed_result, settled_result, written_result, DocumentOutcome,
};

#[test]
fn status_words() {
    assert_eq!(FileStatus::Compressed.to_string(), "compressed");
    assert_eq!(FileStatus::Skipped.to_string(), "skipped");
    assert_eq!(FileStatus::Error.to_string(), "error");
}

#[test]
fn skip_reason_phrases() {
    assert_eq!(SkipReason::DigitalSignatureDetected.to_string(), "digital signature detected");
    assert_eq!(SkipReason::NoCompressionBenefit.to_string(), "no compression benefit");
    assert_eq!(SkipReason::OutputExists.to_string(), "output exists");
}

#[test]
fn existing_output_is_skipped() {
    let (images, streams) = stats(0, 0, 0, 2);
    let f = pdf_slim::compress::existing_output_result("a.pdf", 5000, 3, images, streams);
    assert_eq!(f.status, FileStatus::Skipped);
    assert_eq!(f.skip_reason, Some(SkipReason::OutputExists));
    assert_eq!(f.output_path, None);
    assert_eq!(f.pages, Some(3));
}

#[test]
fn compression_details_default_is_empty() {
    let d = CompressionDetails::default();
    assert_eq!(d.images_processed, None);
    assert_eq!(d.streams_compressed, None);
    assert_eq!(d.images_skipped_jpeg2000, None);
    assert_eq!(d.metadata_removed_bytes, None);
}

fn stats(processed: usize, orig: u64, comp: u64, streams: usize) -> (ImageStats, StreamStats) {
    (
        ImageStats {
            images_processed: processed,
            images_original_bytes: orig,
            images_compressed_bytes: comp,
            images_skipped_jpeg2000: 0,
        },
        StreamStats { streams_compressed: streams },
    )
}

#[test]
fn written_result_smaller_is_compressed() {
    let (i, s) = stats(1, 5000, 1200, 3);
    let f = written_result("a.pdf", 10_000, 2, i, s, "a.slim.pdf", 4_000);
    assert_eq!(f.status, FileStatus::Compressed);
    assert_eq!(f.output_path.as_deref(), Some("a.slim.pdf"));
    assert_eq!(f.output_size_bytes, Some(4_000));
    assert_eq!(f.pages, Some(2));
    assert_eq!(f.skip_reason, None);
    let d = f.details.unwrap();
    assert_eq!(d.images_processed, Some(1));
    assert_eq!(d.images_original_bytes, Some(5000));
    assert_eq!(d.images_compressed_bytes, Some(1200));
    assert_eq!(d.streams_compressed, Some(3));
    assert_eq!(d.fonts_deduplicated, None);
}

#[test]
fn written_result_not_smaller_is_skipped() {
    let (i, s) = stats(0, 0, 0, 1);
    for size in [10_000u64, 12_000] {
        let f = written_result("a.pdf", 10_000, 1, i, s, "a.slim.pdf", size);
        assert_eq!(f.status, FileStatus::Skipped);
        assert_eq!(f.skip_reason, Some(SkipReason::NoCompressionBenefit));
        assert_eq!(f.output_path, None);
        assert_eq!(f.output_size_bytes, None);
        assert!(f.details.is_some());
    }
}

#[test]
fn settled_results() {
    let enc = settled_result("e.pdf", 99, &DocumentOutcome::Encrypted { pages: 4 }).unwrap();
    assert_eq!(enc.status, FileStatus::Error);
    assert_eq!(enc.error.as_deref(), Some("PDF is encrypted"));
    assert_eq!(enc.pages, Some(4));
    assert_eq!(enc.original_size_bytes, 99);

    let details = SignatureDetails { sig_type: "DocMDP".to_string(), signer: None, certificates_count: 1 };
    let signed = settled_result("s.pdf", 7, &DocumentOutcome::Signed { pages: 1, details }).unwrap();
    assert_eq!(signed.status, FileStatus::Skipped);
    assert_eq!(signed.skip_reason, Some(SkipReason::DigitalSignatureDetected));
    assert_eq!(signed.signature_details.unwrap().sig_type, "DocMDP");

    let (i, s) = stats(0, 0, 0, 0);
    assert!(settled_result("c.pdf", 7, &DocumentOutcome::Compressed { pages: 1, images: i, streams: s }).is_none());
}

#[test]
fn failed_result_message() {
    let f = failed_result("missing.pdf", "No such file or directory (os error 2)");
    assert_eq!(f.status, FileStatus::Error);
    assert_eq!(f.original_size_bytes, 0);
    assert_eq!(f.error.as_deref(), Some("Processing error: No such file or directory (os error 2)"));
    assert_eq!(f.pages, None);
}

#[test]
fn load_error_messages() {
    assert_eq!(
        describe_load_error("invalid cross-reference table", "x.pdf", true),
        "PDF has a damaged or non-standard cross-reference table: invalid cross-reference table\nTry repairing with: qpdf --repair x.pdf - > x.pdf_fixed.pdf"
    );
    assert_eq!(
        describe_load_error("Trailer not found", "x.pdf", true),
        "PDF has a missing or invalid file trailer: Trailer not found\nTry repairing with: qpdf --repair x.pdf - > x.pdf_fixed.pdf"
    );
    assert_eq!(describe_load_error("Trailer not found", "x.pdf", false), "Failed to load PDF: Trailer not found");
    assert_eq!(describe_load_error("bad header", "x.pdf", true), "Failed to load PDF: bad header");
}

fn file(status: FileStatus, orig: u64, out: Option<u64>) -> FileResult {
    FileResult {
        input_path: "f.pdf".to_string(),
        output_path: out.map(|_| "f.slim.pdf".to_string()),
        status,
        original_size_bytes: orig,
        output_size_bytes: out,
        pages: Some(1),
        skip_reason: None,
        signature_details: None,
        error: None,
        details: None,
    }
}

#[test]
fn summary_counts_and_totals() {
    let files = vec![
        file(FileStatus::Compressed, 1000, Some(400)),
        file(FileStatus::Skipped, 500, None),
        file(FileStatus::Error, 0, None),
        file(FileStatus::Compressed, 2000, Some(1500)),
    ];
    let s = summarize(&files);
    assert_eq!(s.total_files, 4);
    assert_eq!(s.compressed, 2);
    assert_eq!(s.skipped, 1);
    assert_eq!(s.errors, 1);
    assert_eq!(s.compressed + s.skipped + s.errors, s.total_files);
    assert_eq!(s.total_original_size_bytes, 3500);
    assert_eq!(s.total_output_size_bytes, 1900);
}

#[test]
fn output_total_below_original_once_compressed() {
    let (i, st) = stats(0, 0, 0, 0);
    let files = vec![
        written_result("a.pdf", 1000, 1, i, st, "a.slim.pdf", 999),
        written_result("b.pdf", 500, 1, i, st, "b.slim.pdf", 800),
        failed_result("c.pdf", "boom"),
    ];
    let s = summarize(&files);
    assert_eq!(s.compressed, 1);
    assert_eq!(s.skipped, 1);
    assert_eq!(s.errors, 1);
    assert_eq!(s.total_output_size_bytes, 999);
    assert!(s.total_output_size_bytes < s.total_original_size_bytes);
}

#[test]
fn totals_fit_detects_overflow() {
    let ok = vec![file(FileStatus::Skipped, u64::MAX - 1, None), file(FileStatus::Skipped, 1, None)];
    assert!(totals_fit(&ok));
    let over = vec![file(FileStatus::Skipped, u64::MAX, None), file(FileStatus::Skipped, 1, None)];
    assert!(!totals_fit(&over));
}

#[test]
fn report_of_batch() {
    let files = vec![file(FileStatus::Compressed, 100, Some(50)), file(FileStatus::Compressed, 300, Some(100))];
    let r = build_report("0.1.0".to_string(), "2024-01-01T00:00:00+00:00".to_string(), "balanced".to_string(), files);
    assert_eq!(r.files.len(), 2);
    assert_eq!(r.summary.total_files, 2);
    assert_eq!(r.summary.compressed, 2);
    assert_eq!(r.summary.total_original_size_bytes, 400);
    assert_eq!(r.summary.total_output_size_bytes, 150);
    assert_eq!(r.preset, "balanced");
}

#[test]
fn summary_text_layout() {
    let mut skipped = file(FileStatus::Skipped, 2048, None);
    skipped.skip_reason = Some(SkipReason::DigitalSignatureDetected);
    let mut failed = file(FileStatus::Error, 0, None);
    failed.error = Some("Processing error: boom".to_string());
    failed.skip_reason = None;
    let files = vec![file(FileStatus::Compressed, 4096, Some(1024)), skipped, failed];
    let r = build_report("0.1.0".to_string(), "t".to_string(), "balanced".to_string(), files);
    let reductions = vec!["75.0".to_string(), "0.0".to_string(), "0.0".to_string()];
    let text = pdf_slim::analyze::summary::summary_text(&r, "42.9", "0.12", &reductions);
    let rule = "=".repeat(60);
    let paths: Vec<String> = r.files.iter().map(|f| f.input_path.clone()).collect();
    let expected = format!(
        "\n{rule}\n  pdf-slim 0.1.0 — balanced\n{rule}\n  Files: 3 total, 1 compressed, 1 skipped, 1 error\n  Size:  6.00 KB → 1.00 KB (42.9% reduction)\n  Time: 0.12s\n  ✓ {} 4.00 KB → 1.00 KB (75.0%)\n  ⚠ {} 2.00 KB (digital signature detected)\n  ✗ {} 0 B\n       — Processing error: boom\n{rule}\n",
        paths[0], paths[1], paths[2]
    );
    assert_eq!(text, expected);
}

#[test]
fn outcome_results_agree_with_status() {
    let (i, s) = stats(1, 4000, 1000, 2);
    let compressed = DocumentOutcome::Compressed { pages: 2, images: i, streams: s };
    let taken = pdf_slim::compress::outcome_result("a.pdf", 9000, &compressed, true, None);
    assert_eq!(taken.skip_reason, Some(SkipReason::OutputExists));
    let smaller = pdf_slim::compress::outcome_result("a.pdf", 9000, &compressed, false, Some(("a.slim.pdf", 5000)));
    assert_eq!(smaller.status, FileStatus::Compressed);
    assert_eq!(smaller.output_path.as_deref(), Some("a.slim.pdf"));
    let larger = pdf_slim::compress::outcome_result("a.pdf", 9000, &compressed, false, Some(("a.slim.pdf", 9000)));
    assert_eq!(larger.skip_reason, Some(SkipReason::NoCompressionBenefit));
    let enc = pdf_slim::compress::outcome_result("a.pdf", 9000, &DocumentOutcome::Encrypted { pages: 1 }, false, None);
    assert_eq!(enc.status, FileStatus::Error);
}
