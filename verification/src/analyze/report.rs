use vstd::prelude::*;

verus! {

/// Outcome class of one processed file.
#[derive(Clone, Copy, Debug, PartialEq, Eq, Structural)]
pub enum FileStatus {
    Compressed,
    Skipped,
    Error,
}

/// The word a status is reported by.
pub open spec fn file_status_text(s: FileStatus) -> Seq<char> {
    match s {
        FileStatus::Compressed => "compressed"@,
        FileStatus::Skipped => "skipped"@,
        FileStatus::Error => "error"@,
    }
}

impl FileStatus {
    /// The word this status is reported by.
    pub fn to_string(&self) -> (s: String)
        ensures
            s@ == file_status_text(*self),
    {
        match self {
            FileStatus::Compressed => String::from_str("compressed"),
            FileStatus::Skipped => String::from_str("skipped"),
            FileStatus::Error => String::from_str("error"),
        }
    }
}

/// Why a file was left as it was.
#[derive(Clone, Copy, Debug, PartialEq, Eq, Structural)]
pub enum SkipReason {
    /// The document carries a digital signature, which compression would break.
    DigitalSignatureDetected,
    /// The compressed document was not smaller than the original.
    NoCompressionBenefit,
    /// A file is already at the output path; it is not overwritten.
    OutputExists,
}

/// The phrase a skip reason is reported by.
pub open spec fn skip_reason_text(r: SkipReason) -> Seq<char> {
    match r {
        SkipReason::DigitalSignatureDetected => "digital signature detected"@,
        SkipReason::NoCompressionBenefit => "no compression benefit"@,
        SkipReason::OutputExists => "output exists"@,
    }
}

impl SkipReason {
    /// The phrase this reason is reported by.
    pub fn to_string(&self) -> (s: String)
        ensures
            s@ == skip_reason_text(*self),
    {
        match self {
            SkipReason::DigitalSignatureDetected => String::from_str("digital signature detected"),
            SkipReason::NoCompressionBenefit => String::from_str("no compression benefit"),
            SkipReason::OutputExists => String::from_str("output exists"),
        }
    }
}

/// What was found of a digital signature.
#[derive(Clone, Debug)]
pub struct SignatureDetails {
    /// Where the signature was found: `AcroForm/Sig`, `DocMDP` or `Permissions`.
    pub sig_type: String,
    /// The name of the first signer that gives one.
    pub signer: Option<String>,
    /// How many signatures were found.
    pub certificates_count: usize,
}

/// Per-file statistics of the compression stages.
#[derive(Clone, Copy, Debug, PartialEq, Eq, Structural)]
pub struct CompressionDetails {
    pub images_processed: Option<usize>,
    pub images_original_bytes: Option<u64>,
    pub images_compressed_bytes: Option<u64>,
    pub streams_compressed: Option<usize>,
    /// How many JPEG 2000 images were skipped.
    pub images_skipped_jpeg2000: Option<usize>,
    pub fonts_deduplicated: Option<usize>,
    pub metadata_removed_bytes: Option<u64>,
}

impl Default for CompressionDetails {
    fn default() -> (d: CompressionDetails)
        ensures
            d.images_processed is None,
            d.images_original_bytes is None,
            d.images_compressed_bytes is None,
            d.streams_compressed is None,
            d.images_skipped_jpeg2000 is None,
            d.fonts_deduplicated is None,
            d.metadata_removed_bytes is None,
    {
        CompressionDetails {
            images_processed: None,
            images_original_bytes: None,
            images_compressed_bytes: None,
            streams_compressed: None,
            images_skipped_jpeg2000: None,
            fonts_deduplicated: None,
            metadata_removed_bytes: None,
        }
    }
}

/// The result of processing one file. The reduction percentage, a
/// floating-point figure, is derived from `original_size_bytes` and
/// `output_size_bytes` where the report is written.
#[derive(Clone, Debug)]
pub struct FileResult {
    pub input_path: String,
    pub output_path: Option<String>,
    pub status: FileStatus,
    pub original_size_bytes: u64,
    pub output_size_bytes: Option<u64>,
    pub pages: Option<usize>,
    pub skip_reason: Option<SkipReason>,
    pub signature_details: Option<SignatureDetails>,
    pub error: Option<String>,
    pub details: Option<CompressionDetails>,
}

/// Totals over the files of one run. The reduction percentage and the elapsed
/// time, floating-point figures, are added where the report is written.
#[derive(Clone, Copy, Debug, PartialEq, Eq, Structural)]
pub struct Summary {
    pub total_files: usize,
    pub compressed: usize,
    pub skipped: usize,
    pub errors: usize,
    pub total_original_size_bytes: u64,
    pub total_output_size_bytes: u64,
}

/// The report of one run.
#[derive(Clone, Debug)]
pub struct Report {
    pub version: String,
    pub timestamp: String,
    pub preset: String,
    pub summary: Summary,
    pub files: Vec<FileResult>,
}

/// How many of `files` have status `st`.
pub open spec fn count_status(files: Seq<FileResult>, st: FileStatus) -> nat
    decreases files.len(),
{
    if files.len() == 0 {
        0
    } else {
        count_status(files.drop_last(), st) + if files.last().status == st {
            1nat
        } else {
            0nat
        }
    }
}

/// The sum of the original sizes of `files`.
pub open spec fn total_original(files: Seq<FileResult>) -> nat
    decreases files.len(),
{
    if files.len() == 0 {
        0
    } else {
        total_original(files.drop_last()) + files.last().original_size_bytes as nat
    }
}

/// The sum of the output sizes of `files` that have one.
pub open spec fn total_output(files: Seq<FileResult>) -> nat
    decreases files.len(),
{
    if files.len() == 0 {
        0
    } else {
        total_output(files.drop_last()) + match files.last().output_size_bytes {
            Some(n) => n as nat,
            None => 0nat,
        }
    }
}

/// The summary of `files`.
pub open spec fn summary_of(files: Seq<FileResult>) -> Summary {
    Summary {
        total_files: files.len() as usize,
        compressed: count_status(files, FileStatus::Compressed) as usize,
        skipped: count_status(files, FileStatus::Skipped) as usize,
        errors: count_status(files, FileStatus::Error) as usize,
        total_original_size_bytes: total_original(files) as u64,
        total_output_size_bytes: total_output(files) as u64,
    }
}

/// No status is counted for more files than there are.
pub proof fn lemma_count_le_len(files: Seq<FileResult>, st: FileStatus)
    ensures
        count_status(files, st) <= files.len(),
    decreases files.len(),
{
    if files.len() > 0 {
        lemma_count_le_len(files.drop_last(), st);
    }
}

proof fn lemma_totals_monotone(files: Seq<FileResult>, i: int)
    requires
        0 <= i <= files.len(),
    ensures
        total_original(files.take(i)) <= total_original(files),
        total_output(files.take(i)) <= total_output(files),
    decreases files.len() - i,
{
    if i < files.len() {
        lemma_totals_monotone(files, i + 1);
        assert(files.take(i + 1).drop_last() =~= files.take(i));
    } else {
        assert(files.take(i) =~= files);
    }
}

/// Every file is counted under exactly one status: the three counts add up to
/// the number of files.
pub proof fn lemma_statuses_partition(files: Seq<FileResult>)
    ensures
        count_status(files, FileStatus::Compressed) + count_status(files, FileStatus::Skipped)
            + count_status(files, FileStatus::Error) == files.len(),
    decreases files.len(),
{
    if files.len() > 0 {
        lemma_statuses_partition(files.drop_last());
    }
}

/// Whether the totals of `files` fit the report's 64-bit fields.
pub open spec fn totals_fit_spec(files: Seq<FileResult>) -> bool {
    &&& total_original(files) <= u64::MAX
    &&& total_output(files) <= u64::MAX
}

/// Counts the files by status and adds up their sizes.
pub fn summarize(files: &Vec<FileResult>) -> (s: Summary)
    requires
        totals_fit_spec(files@),
    ensures
        s == summary_of(files@),
{
    let mut compressed: usize = 0;
    let mut skipped: usize = 0;
    let mut errors: usize = 0;
    let mut original: u64 = 0;
    let mut output: u64 = 0;
    let n = files.len();
    let mut i: usize = 0;
    while i < n
        invariant
            n == files@.len(),
            i <= n,
            totals_fit_spec(files@),
            compressed == count_status(files@.take(i as int), FileStatus::Compressed),
            skipped == count_status(files@.take(i as int), FileStatus::Skipped),
            errors == count_status(files@.take(i as int), FileStatus::Error),
            original == total_original(files@.take(i as int)),
            output == total_output(files@.take(i as int)),
        decreases n - i,
    {
        let f = &files[i];
        proof {
            let t = files@.take(i + 1);
            assert(t.drop_last() =~= files@.take(i as int));
            lemma_statuses_partition(files@.take(i as int));
            lemma_totals_monotone(files@, i + 1);
        }
        match f.status {
            FileStatus::Compressed => compressed = compressed + 1,
            FileStatus::Skipped => skipped = skipped + 1,
            FileStatus::Error => errors = errors + 1,
        }
        original = original + f.original_size_bytes;
        if let Some(out) = f.output_size_bytes {
            output = output + out;
        }
        i = i + 1;
    }
    proof {
        assert(files@.take(n as int) =~= files@);
    }
    Summary {
        total_files: n,
        compressed,
        skipped,
        errors,
        total_original_size_bytes: original,
        total_output_size_bytes: output,
    }
}

/// Whether the totals of `files` fit the report's 64-bit fields.
pub fn totals_fit(files: &Vec<FileResult>) -> (b: bool)
    ensures
        b == totals_fit_spec(files@),
{
    let mut original: u64 = 0;
    let mut output: u64 = 0;
    let n = files.len();
    let mut i: usize = 0;
    while i < n
        invariant
            n == files@.len(),
            i <= n,
            original == total_original(files@.take(i as int)),
            output == total_output(files@.take(i as int)),
        decreases n - i,
    {
        let f = &files[i];
        proof {
            assert(files@.take(i + 1).drop_last() =~= files@.take(i as int));
        }
        let out: u64 = match f.output_size_bytes {
            Some(o) => o,
            None => 0,
        };
        match (original.checked_add(f.original_size_bytes), output.checked_add(out)) {
            (Some(a), Some(b)) => {
                original = a;
                output = b;
            },
            _ => {
                proof {
                    lemma_totals_monotone(files@, i + 1);
                }
                return false;
            },
        }
        i = i + 1;
    }
    proof {
        assert(files@.take(n as int) =~= files@);
    }
    true
}

} // verus!
