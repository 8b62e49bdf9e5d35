//! The settings of a batch, fixed before the batch starts and shared by all
//! of its jobs.
use crate::path::AssetPath;
use crate::text::{parse_number, parse_unsigned};
use vstd::prelude::*;

verus! {

/// The settings of a batch.
#[derive(Clone, Debug, PartialEq, Eq)]
pub struct ConversionSettings {
    /// The quality parameter for videos; lower is better.
    pub video_crf: u8,
    /// The quality parameter for images; higher is better.
    pub webp_quality: u8,
    /// The directory below which the results are written.
    pub output_dir: AssetPath,
    /// How many conversions may run at the same time.
    pub max_concurrent: usize,
    /// Whether the batch only lists what it would convert.
    pub dry_run: bool,
}

/// Why a batch cannot be set up as asked.
#[derive(Clone, Copy, Debug, PartialEq, Eq, Structural)]
pub enum ConfigError {
    /// The video quality is not a number from 0 to 255.
    InvalidVideoCrf,
    /// The image quality is not a number from 0 to 255.
    InvalidWebpQuality,
    /// The limit on concurrent conversions is not a number that a machine
    /// word holds; a negative number is none.
    InvalidConcurrency,
    /// The limit on concurrent conversions is zero, so that no job could ever
    /// start.
    NoConcurrency,
}

/// What is said of a fault in the settings.
pub open spec fn config_error_text(error: ConfigError) -> Seq<char> {
    match error {
        ConfigError::InvalidVideoCrf => "Invalid video CRF value"@,
        ConfigError::InvalidWebpQuality => "Invalid WebP quality value"@,
        ConfigError::InvalidConcurrency => "Invalid concurrent value"@,
        ConfigError::NoConcurrency => "Invalid concurrent value: must be at least 1"@,
    }
}

impl ConfigError {
    /// What is said of this fault.
    pub fn message(&self) -> (text: String)
        ensures
            text@ == config_error_text(*self),
    {
        match self {
            ConfigError::InvalidVideoCrf => "Invalid video CRF value".to_owned(),
            ConfigError::InvalidWebpQuality => "Invalid WebP quality value".to_owned(),
            ConfigError::InvalidConcurrency => "Invalid concurrent value".to_owned(),
            ConfigError::NoConcurrency => "Invalid concurrent value: must be at least 1".to_owned(),
        }
    }
}

/// What is wrong with the three numbers of the settings as they were
/// written, if anything is: the first fault counts, in this order.
pub open spec fn config_error(
    video_crf: Seq<char>,
    webp_quality: Seq<char>,
    max_concurrent: Seq<char>,
) -> Option<ConfigError> {
    if parse_unsigned(video_crf, u8::MAX as nat) is None {
        Some(ConfigError::InvalidVideoCrf)
    } else if parse_unsigned(webp_quality, u8::MAX as nat) is None {
        Some(ConfigError::InvalidWebpQuality)
    } else if parse_unsigned(max_concurrent, usize::MAX as nat) is None {
        Some(ConfigError::InvalidConcurrency)
    } else if parse_unsigned(max_concurrent, usize::MAX as nat) == Some(0nat) {
        Some(ConfigError::NoConcurrency)
    } else {
        None
    }
}

impl ConversionSettings {
    /// Settings that a batch can run with: at least one conversion at a time.
    pub open spec fn wf(&self) -> bool {
        self.max_concurrent >= 1
    }

    /// The settings with these values, unless they allow no conversion at all.
    pub fn new(
        video_crf: u8,
        webp_quality: u8,
        output_dir: AssetPath,
        max_concurrent: usize,
        dry_run: bool,
    ) -> (settings: Result<ConversionSettings, ConfigError>)
        ensures
            settings is Err <==> max_concurrent == 0,
            settings matches Err(e) ==> e == ConfigError::NoConcurrency,
            settings matches Ok(s) ==> s.wf() && s.video_crf == video_crf && s.webp_quality
                == webp_quality && s.output_dir == output_dir && s.max_concurrent
                == max_concurrent && s.dry_run == dry_run,
    {
        if max_concurrent == 0 {
            Err(ConfigError::NoConcurrency)
        } else {
            Ok(ConversionSettings { video_crf, webp_quality, output_dir, max_concurrent, dry_run })
        }
    }

    /// The settings with the numbers as they were written, in decimal. Fails
    /// on the first number that is none or is out of range, and on a limit of
    /// zero concurrent conversions.
    pub fn parse(
        video_crf: &str,
        webp_quality: &str,
        output_dir: AssetPath,
        max_concurrent: &str,
        dry_run: bool,
    ) -> (settings: Result<ConversionSettings, ConfigError>)
        ensures
            match settings {
                Ok(s) => {
                    &&& config_error(video_crf@, webp_quality@, max_concurrent@) is None
                    &&& s.wf()
                    &&& Some(s.video_crf as nat) == parse_unsigned(video_crf@, u8::MAX as nat)
                    &&& Some(s.webp_quality as nat) == parse_unsigned(
                        webp_quality@,
                        u8::MAX as nat,
                    )
                    &&& Some(s.max_concurrent as nat) == parse_unsigned(
                        max_concurrent@,
                        usize::MAX as nat,
                    )
                    &&& s.output_dir == output_dir
                    &&& s.dry_run == dry_run
                },
                Err(e) => config_error(video_crf@, webp_quality@, max_concurrent@) == Some(e),
            },
    {
        let crf = match parse_number(video_crf, u8::MAX as u64) {
            Some(n) => n as u8,
            None => {
                return Err(ConfigError::InvalidVideoCrf);
            },
        };
        let quality = match parse_number(webp_quality, u8::MAX as u64) {
            Some(n) => n as u8,
            None => {
                return Err(ConfigError::InvalidWebpQuality);
            },
        };
        let limit = match parse_number(max_concurrent, usize::MAX as u64) {
            Some(n) => n as usize,
            None => {
                return Err(ConfigError::InvalidConcurrency);
            },
        };
        ConversionSettings::new(crf, quality, output_dir, limit, dry_run)
    }
}

/// A limit of zero or of less than zero concurrent conversions is refused,
/// whatever the other settings are.
pub proof fn lemma_nonpositive_concurrency_is_refused(
    video_crf: Seq<char>,
    webp_quality: Seq<char>,
    max_concurrent: Seq<char>,
)
    requires
        parse_unsigned(max_concurrent, usize::MAX as nat) == Some(0nat) || (max_concurrent.len() > 0
            && max_concurrent[0] == '-'),
    ensures
        config_error(video_crf, webp_quality, max_concurrent) is Some,
{
    if max_concurrent.len() > 0 && max_concurrent[0] == '-' {
        crate::text::lemma_negative_is_rejected(max_concurrent, usize::MAX as nat);
    }
}

} // verus!
