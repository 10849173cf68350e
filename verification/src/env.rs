//! Locating the Equalizer APO installation.
//!
//! APO records its config directory in the registry under
//! `HKLM\SOFTWARE\EqualizerAPO\ConfigPath`; the install location is
//! user-selectable, so it is read rather than guessed. Reading the registry
//! is the caller's; this module turns what was read into an installation or
//! the reason there is none.

use crate::paths::{join, joined};
use crate::text;
use vstd::prelude::*;

verus! {

/// A detected Equalizer APO installation.
#[derive(Debug, Clone, PartialEq, Eq)]
pub struct ApoInstall {
    /// The directory containing `config.txt` and included preset files.
    pub config_path: String,
}

/// The name of the live config file APO watches.
pub open spec fn config_file_name() -> Seq<char> {
    seq!['c', 'o', 'n', 'f', 'i', 'g', '.', 't', 'x', 't']
}

proof fn lemma_config_literal()
    ensures
        "config.txt"@ == config_file_name(),
        crate::paths::plain_component(config_file_name()),
{
    reveal_strlit("config.txt");
    assert("config.txt"@ =~= config_file_name());
}

impl ApoInstall {
    /// The path to the live `config.txt` that APO watches.
    pub fn config_file(&self) -> (p: String)
        ensures
            p@ == joined(self.config_path@, config_file_name()),
    {
        proof {
            lemma_config_literal();
        }
        join(self.config_path.as_str(), "config.txt")
    }
}

/// Why detection failed.
#[derive(Debug, Clone, PartialEq, Eq)]
pub enum DetectError {
    /// The APO registry key is absent — APO is (probably) not installed.
    NotInstalled,
    /// Detection isn't supported on this platform (APO is Windows-only).
    UnsupportedPlatform,
    /// The registry key exists but couldn't be read as expected.
    Registry(String),
}

/// What reading APO's registry key gave.
#[derive(Debug, Clone, PartialEq, Eq)]
pub enum RegistryReading {
    /// There is no registry on this platform.
    Unsupported,
    /// `HKLM\SOFTWARE\EqualizerAPO` could not be opened.
    KeyMissing,
    /// The key opened, but `ConfigPath` could not be read; the reader's words.
    ValueUnreadable(String),
    /// The `ConfigPath` value.
    ConfigPath(String),
}

/// The user-facing wording of each detection failure.
pub open spec fn detect_error_text(e: DetectError) -> Seq<char> {
    match e {
        DetectError::NotInstalled => "Equalizer APO is not installed"@,
        DetectError::UnsupportedPlatform => "Equalizer APO detection is only supported on Windows"@,
        DetectError::Registry(msg) => "could not read APO registry: "@ + msg@,
    }
}

impl DetectError {
    /// The message shown for this failure.
    pub fn message(&self) -> (s: String)
        ensures
            s@ == detect_error_text(*self),
    {
        match self {
            DetectError::NotInstalled => text::owned("Equalizer APO is not installed"),
            DetectError::UnsupportedPlatform => text::owned(
                "Equalizer APO detection is only supported on Windows",
            ),
            DetectError::Registry(msg) => text::concat("could not read APO registry: ", msg.as_str()),
        }
    }
}

/// The installation a registry reading describes.
pub open spec fn detected(reading: RegistryReading) -> Result<Seq<char>, DetectError> {
    match reading {
        RegistryReading::Unsupported => Err(DetectError::UnsupportedPlatform),
        RegistryReading::KeyMissing => Err(DetectError::NotInstalled),
        RegistryReading::ValueUnreadable(msg) => Err(DetectError::Registry(msg)),
        RegistryReading::ConfigPath(p) => Ok(p@),
    }
}

/// Detect the Equalizer APO installation from what the registry held: the
/// `ConfigPath` value becomes the install's config directory; a missing key
/// means APO is not installed; an unreadable value carries the reader's
/// words; and a platform without a registry is unsupported.
pub fn detect(reading: RegistryReading) -> (r: Result<ApoInstall, DetectError>)
    ensures
        match (r, detected(reading)) {
            (Ok(install), Ok(p)) => install.config_path@ == p,
            (Err(e), Err(f)) => e == f,
            _ => false,
        },
{
    match reading {
        RegistryReading::Unsupported => Err(DetectError::UnsupportedPlatform),
        RegistryReading::KeyMissing => Err(DetectError::NotInstalled),
        RegistryReading::ValueUnreadable(msg) => Err(DetectError::Registry(msg)),
        RegistryReading::ConfigPath(p) => Ok(ApoInstall { config_path: p }),
    }
}

} // verus!
