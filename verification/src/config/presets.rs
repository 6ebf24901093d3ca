use vstd::prelude::*;
use crate::config::cli::Preset;

verus! {

/// Compression settings derived from a preset and command-line overrides.
#[derive(Clone, Copy, Debug, PartialEq, Eq, Structural)]
pub struct CompressionConfig {
    pub jpeg_quality: u8,
    pub max_dimension: u32,
    pub png_to_jpeg: bool,
    pub compress_streams: bool,
    pub remove_unused_fonts: bool,
}

/// The settings each preset stands for.
pub open spec fn preset_config(p: Preset) -> CompressionConfig {
    match p {
        Preset::Gentle => CompressionConfig {
            jpeg_quality: 85,
            max_dimension: 0,
            png_to_jpeg: false,
            compress_streams: true,
            remove_unused_fonts: false,
        },
        Preset::Balanced => CompressionConfig {
            jpeg_quality: 70,
            max_dimension: 1920,
            png_to_jpeg: true,
            compress_streams: true,
            remove_unused_fonts: false,
        },
        Preset::Aggressive => CompressionConfig {
            jpeg_quality: 50,
            max_dimension: 1280,
            png_to_jpeg: true,
            compress_streams: true,
            remove_unused_fonts: true,
        },
    }
}

/// The preset's settings with the given overrides applied.
pub open spec fn overridden_config(
    p: Preset,
    image_quality: Option<u8>,
    max_dimension: Option<u32>,
) -> CompressionConfig {
    let base = preset_config(p);
    CompressionConfig {
        jpeg_quality: match image_quality {
            Some(q) => q,
            None => base.jpeg_quality,
        },
        max_dimension: match max_dimension {
            Some(d) => d,
            None => base.max_dimension,
        },
        ..base
    }
}

impl Preset {
    /// The settings of this preset.
    pub fn to_config(&self) -> (c: CompressionConfig)
        ensures
            c == preset_config(*self),
    {
        match self {
            Preset::Gentle => CompressionConfig {
                jpeg_quality: 85,
                max_dimension: 0,
                png_to_jpeg: false,
                compress_streams: true,
                remove_unused_fonts: false,
            },
            Preset::Balanced => CompressionConfig {
                jpeg_quality: 70,
                max_dimension: 1920,
                png_to_jpeg: true,
                compress_streams: true,
                remove_unused_fonts: false,
            },
            Preset::Aggressive => CompressionConfig {
                jpeg_quality: 50,
                max_dimension: 1280,
                png_to_jpeg: true,
                compress_streams: true,
                remove_unused_fonts: true,
            },
        }
    }
}

/// Applies the command-line overrides on top of the preset's settings.
pub fn build_config(
    preset: Preset,
    image_quality: Option<u8>,
    max_dimension: Option<u32>,
) -> (config: CompressionConfig)
    ensures
        config == overridden_config(preset, image_quality, max_dimension),
{
    let mut config = preset.to_config();
    if let Some(q) = image_quality {
        config.jpeg_quality = q;
    }
    if let Some(d) = max_dimension {
        config.max_dimension = d;
    }
    config
}

/// Without overrides, the settings are exactly the preset's.
pub proof fn lemma_no_override_is_preset(p: Preset)
    ensures
        overridden_config(p, None, None) == preset_config(p),
{
}

/// An override changes only the setting it names: every other setting stays
/// the preset's.
pub proof fn lemma_override_keeps_other_settings(
    p: Preset,
    image_quality: Option<u8>,
    max_dimension: Option<u32>,
)
    ensures
        ({
            let c = overridden_config(p, image_quality, max_dimension);
            let base = preset_config(p);
            &&& c.png_to_jpeg == base.png_to_jpeg
            &&& c.compress_streams == base.compress_streams
            &&& c.remove_unused_fonts == base.remove_unused_fonts
            &&& image_quality is None ==> c.jpeg_quality == base.jpeg_quality
            &&& max_dimension is None ==> c.max_dimension == base.max_dimension
            &&& image_quality matches Some(q) ==> c.jpeg_quality == q
            &&& max_dimension matches Some(d) ==> c.max_dimension == d
        }),
{
}

/// Every preset compresses uncompressed streams and re-encodes images at a
/// quality in `1..=100`; only the gentle preset keeps full image size.
pub proof fn lemma_presets_compress(p: Preset)
    ensures
        preset_config(p).compress_streams,
        1 <= preset_config(p).jpeg_quality <= 100,
        (preset_config(p).max_dimension == 0) <==> (p == Preset::Gentle),
{
}

} // verus!
