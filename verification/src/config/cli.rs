use vstd::prelude::*;

verus! {

/// Options of one run of the tool, as the command line gives them.
///
/// Paths are held as text; `image_quality` has already been checked to lie in
/// `1..=100` by whoever parsed the command line.
#[derive(Clone, Debug)]
pub struct Cli {
    /// Input PDF files to process.
    pub input: Vec<String>,
    /// Output file path (default: `<name>.slim.pdf`).
    pub output: Option<String>,
    /// Compression preset.
    pub preset: Preset,
    /// JPEG quality (1-100), overriding the preset.
    pub image_quality: Option<u8>,
    /// Maximum image dimension (0 = no downsampling), overriding the preset.
    pub max_dimension: Option<u32>,
    /// Overwrite the original file, keeping a backup.
    pub force: bool,
    /// Analyze the PDF without compressing it.
    pub info: bool,
    /// Write the full report as JSON to standard output.
    pub json: bool,
    /// Write the JSON report to this file.
    pub json_file: Option<String>,
}

/// The three compression presets.
#[derive(Clone, Copy, Debug, PartialEq, Eq, Structural)]
pub enum Preset {
    /// JPEG quality 85, no downsampling, PNG kept.
    Gentle,
    /// JPEG quality 70, at most 1920 px, PNG to JPEG (the default).
    Balanced,
    /// JPEG quality 50, at most 1280 px, all PNG to JPEG.
    Aggressive,
}

impl Default for Preset {
    fn default() -> (p: Preset)
        ensures
            p == Preset::Balanced,
    {
        Preset::Balanced
    }
}

/// The name by which a preset is chosen on the command line.
pub open spec fn preset_name(p: Preset) -> Seq<char> {
    match p {
        Preset::Gentle => "gentle"@,
        Preset::Balanced => "balanced"@,
        Preset::Aggressive => "aggressive"@,
    }
}

impl Preset {
    /// The preset's command-line name.
    pub fn name(&self) -> (s: &'static str)
        ensures
            s@ == preset_name(*self),
    {
        match self {
            Preset::Gentle => "gentle",
            Preset::Balanced => "balanced",
            Preset::Aggressive => "aggressive",
        }
    }
}

/// Distinct presets have distinct names, so a name selects one preset.
pub proof fn lemma_preset_names_distinct(a: Preset, b: Preset)
    requires
        a != b,
    ensures
        preset_name(a) != preset_name(b),
{
    reveal_strlit("gentle");
    reveal_strlit("balanced");
    reveal_strlit("aggressive");
    assert("gentle"@.len() == 6);
    assert("balanced"@.len() == 8);
    assert("aggressive"@.len() == 10);
}

} // verus!
