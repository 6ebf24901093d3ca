use pdf_slim::config::cli::Preset;
use pdf_slim::config::presets::{build_config, CompressionConfig};

#[test]
fn preset_names() {
    assert_eq!(Preset::Gentle.name(), "gentle");
    assert_eq!(Preset::Balanced.name(), "balanced");
    assert_eq!(Preset::Aggressive.name(), "aggressive");
}

#[test]
fn default_preset_is_balanced() {
    assert_eq!(Preset::default(), Preset::Balanced);
}

#[test]
fn gentle_preset_settings() {
    let c = Preset::Gentle.to_config();
    assert_eq!(c.jpeg_quality, 85);
    assert_eq!(c.max_dimension, 0);
    assert!(!c.png_to_jpeg);
    assert!(c.compress_streams);
    assert!(!c.remove_unused_fonts);
}

#[test]
fn balanced_preset_settings() {
    let c = Preset::Balanced.to_config();
    assert_eq!(c.jpeg_quality, 70);
    assert_eq!(c.max_dimension, 1920);
    assert!(c.png_to_jpeg);
    assert!(c.compress_streams);
    assert!(!c.remove_unused_fonts);
}

#[test]
fn aggressive_preset_settings() {
    let c = Preset::Aggressive.to_config();
    assert_eq!(c.jpeg_quality, 50);
    assert_eq!(c.max_dimension, 1280);
    assert!(c.png_to_jpeg);
    assert!(c.compress_streams);
    assert!(c.remove_unused_fonts);
}

#[test]
fn build_config_without_overrides_is_preset() {
    for p in [Preset::Gentle, Preset::Balanced, Preset::Aggressive] {
        assert_eq!(build_config(p, None, None), p.to_config());
    }
}

#[test]
fn quality_override_keeps_other_aggressive_settings() {
    let c = build_config(Preset::Aggressive, Some(90), None);
    assert_eq!(
        c,
        CompressionConfig {
            jpeg_quality: 90,
            max_dimension: 1280,
            png_to_jpeg: true,
            compress_streams: true,
            remove_unused_fonts: true,
        }
    );
}

#[test]
fn both_overrides_on_gentle() {
    let c = build_config(Preset::Gentle, Some(75), Some(1600));
    assert_eq!(c.jpeg_quality, 75);
    assert_eq!(c.max_dimension, 1600);
    assert!(!c.png_to_jpeg);
    assert!(!c.remove_unused_fonts);
}

#[test]
fn dimension_override_zero_disables_downsampling() {
    let c = build_config(Preset::Balanced, None, Some(0));
    assert_eq!(c.max_dimension, 0);
    assert_eq!(c.jpeg_quality, 70);
}
