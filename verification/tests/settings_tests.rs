use asset_optimizer::path::AssetPath;
use asset_optimizer::settings::{ConfigError, ConversionSettings};

fn out() -> AssetPath {
    AssetPath::new(vec!["out".to_string()])
}

#[test]
fn settings_are_read_from_text() {
    let s = ConversionSettings::parse("30", "85", out(), "4", false).unwrap();
    assert_eq!(s.video_crf, 30);
    assert_eq!(s.webp_quality, 85);
    assert_eq!(s.output_dir, out());
    assert_eq!(s.max_concurrent, 4);
    assert!(!s.dry_run);
    let s = ConversionSettings::parse("0", "255", out(), "1", true).unwrap();
    assert_eq!((s.video_crf, s.webp_quality, s.max_concurrent, s.dry_run), (0, 255, 1, true));
}

#[test]
fn zero_concurrency_is_refused() {
    assert_eq!(
        ConversionSettings::parse("30", "85", out(), "0", false),
        Err(ConfigError::NoConcurrency)
    );
    assert_eq!(
        ConversionSettings::parse("30", "85", out(), "000", true),
        Err(ConfigError::NoConcurrency)
    );
    assert_eq!(
        ConversionSettings::new(30, 85, out(), 0, false),
        Err(ConfigError::NoConcurrency)
    );
}

#[test]
fn negative_concurrency_is_refused() {
    assert_eq!(
        ConversionSettings::parse("30", "85", out(), "-1", false),
        Err(ConfigError::InvalidConcurrency)
    );
    assert_eq!(
        ConversionSettings::parse("30", "85", out(), "-0", false),
        Err(ConfigError::InvalidConcurrency)
    );
}

#[test]
fn concurrency_that_is_no_number_is_refused() {
    for text in ["", "four", "4.0", " 4", "99999999999999999999999999"] {
        assert_eq!(
            ConversionSettings::parse("30", "85", out(), text, false),
            Err(ConfigError::InvalidConcurrency)
        );
    }
}

#[test]
fn invalid_video_quality_is_refused_first() {
    assert_eq!(
        ConversionSettings::parse("256", "x", out(), "0", false),
        Err(ConfigError::InvalidVideoCrf)
    );
    assert_eq!(
        ConversionSettings::parse("-3", "85", out(), "4", false),
        Err(ConfigError::InvalidVideoCrf)
    );
}

#[test]
fn invalid_image_quality_is_refused_before_concurrency() {
    assert_eq!(
        ConversionSettings::parse("30", "high", out(), "0", false),
        Err(ConfigError::InvalidWebpQuality)
    );
    assert_eq!(
        ConversionSettings::parse("30", "300", out(), "4", false),
        Err(ConfigError::InvalidWebpQuality)
    );
}

#[test]
fn every_fault_has_its_message() {
    assert_eq!(ConfigError::InvalidVideoCrf.message(), "Invalid video CRF value");
    assert_eq!(ConfigError::InvalidWebpQuality.message(), "Invalid WebP quality value");
    assert_eq!(ConfigError::InvalidConcurrency.message(), "Invalid concurrent value");
    assert_eq!(
        ConfigError::NoConcurrency.message(),
        "Invalid concurrent value: must be at least 1"
    );
}

#[test]
fn new_keeps_its_values() {
    let s = ConversionSettings::new(12, 34, out(), 56, true).unwrap();
    assert_eq!(
        s,
        ConversionSettings {
            video_crf: 12,
            webp_quality: 34,
            output_dir: out(),
            max_concurrent: 56,
            dry_run: true
        }
    );
}
