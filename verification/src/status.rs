//! What the UI is told about Equalizer APO and the hardware offload.

use crate::hardware::{DetectedDevice, RuntimeStatus};
use crate::manager::Manager;
use crate::offload::OffloadMode;
use crate::text;
use vstd::prelude::*;

verus! {

/// Reported to the UI so it can show APO status / errors.
#[derive(Debug, Clone)]
pub struct ApoStatus {
    pub installed: bool,
    pub config_path: Option<String>,
    pub error: Option<String>,
}

/// Reported to the UI's hardware panel.
#[derive(Debug, Clone)]
pub struct HardwareStatus {
    /// The global toggle: offload to the active output when it supports it.
    pub enabled: bool,
    /// Whether EQ is currently being offloaded.
    pub active: bool,
    /// The device currently being offloaded to.
    pub device: Option<DetectedDevice>,
    /// Device firmware version, once read.
    pub version: Option<String>,
    /// The last worker error, if any.
    pub error: Option<String>,
    /// How many bands run on the device.
    pub max_filters: Option<usize>,
    /// Which strategy picks the bands sent to hardware.
    pub mode: OffloadMode,
}

fn copy_opt(o: &Option<String>) -> (r: Option<String>)
    ensures
        match (o, r) {
            (Some(a), Some(b)) => a@ == b@,
            (None, None) => true,
            _ => false,
        },
{
    match o {
        Some(s) => Some(text::owned(s.as_str())),
        None => None,
    }
}

impl ApoStatus {
    /// The APO status: installed with its live config file when a manager
    /// could be set up, otherwise not installed, with the detection error.
    pub fn of(manager: Option<&Manager>, apo_error: &Option<String>) -> (s: ApoStatus)
        ensures
            match manager {
                Some(m) => s.installed && (s.config_path matches Some(p) && p@ == crate::paths::joined(
                    m.install_view(),
                    crate::env::config_file_name(),
                )) && s.error is None,
                None => !s.installed && s.config_path is None && match (apo_error, s.error) {
                    (Some(a), Some(b)) => a@ == b@,
                    (None, None) => true,
                    _ => false,
                },
            },
    {
        match manager {
            Some(m) => ApoStatus { installed: true, config_path: Some(m.install().config_file()), error: None },
            None => ApoStatus { installed: false, config_path: None, error: copy_opt(apo_error) },
        }
    }
}

/// A running hardware session, as the status report reads it.
pub struct SessionView<'a> {
    pub descriptor: &'a DetectedDevice,
    pub max_filters: usize,
    pub runtime: &'a RuntimeStatus,
}

impl HardwareStatus {
    /// The hardware panel's status: with a session, active while offload is
    /// enabled, with the session's device, version, error and band budget;
    /// without one, inactive with nothing else known.
    pub fn of(enabled: bool, mode: OffloadMode, session: Option<SessionView>) -> (s: HardwareStatus)
        ensures
            s.enabled == enabled,
            s.mode == mode,
            match session {
                Some(v) => s.active == enabled && (s.device matches Some(d) && d@ == v.descriptor@)
                    && s.max_filters == Some(v.max_filters) && match (v.runtime.version, s.version) {
                    (Some(a), Some(b)) => a@ == b@,
                    (None, None) => true,
                    _ => false,
                } && match (v.runtime.error, s.error) {
                    (Some(a), Some(b)) => a@ == b@,
                    (None, None) => true,
                    _ => false,
                },
                None => !s.active && s.device is None && s.version is None && s.error is None
                    && s.max_filters is None,
            },
    {
        match session {
            Some(v) => HardwareStatus {
                enabled,
                active: enabled,
                device: Some(crate::hardware::copy_device(v.descriptor)),
                version: copy_opt(&v.runtime.version),
                error: copy_opt(&v.runtime.error),
                max_filters: Some(v.max_filters),
                mode,
            },
            None => HardwareStatus {
                enabled,
                active: false,
                device: None,
                version: None,
                error: None,
                max_filters: None,
                mode,
            },
        }
    }
}

} // verus!
