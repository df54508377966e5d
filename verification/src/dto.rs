//! Data types exchanged between the capture core and its callers.

use vstd::prelude::*;

verus! {

/// A capturable source as presented to the UI: identifier, title, an
/// optional thumbnail and icon (both base64-encoded images), and pixel size.
#[derive(Debug, Clone, PartialEq, Eq)]
pub struct CaptureSource {
    pub id: String,
    pub title: String,
    /// base64-encoded image
    pub thumbnail: String,
    /// base64-encoded icon
    pub icon: Option<String>,
    /// "monitor" or "window"
    pub source_type: String,
    pub width: i32,
    pub height: i32,
}

/// A local session-description offer for one preview stream.
#[derive(Debug, Clone, PartialEq, Eq)]
pub struct PreviewOffer {
    pub id: String,
    pub sdp: String,
}

/// Immutable per-stream capture settings. A stream keeps its config from
/// `start` to `stop`; changing it requires stop + start.
#[derive(Debug, Clone, Copy, PartialEq, Eq, Structural)]
pub struct CaptureConfig {
    pub fps: i32,
    pub width: i32,
    pub height: i32,
    pub show_border_indicator: bool,
}

impl CaptureConfig {
    /// A config is acceptable exactly when fps, width and height are positive.
    pub open spec fn valid(self) -> bool {
        self.fps > 0 && self.width > 0 && self.height > 0
    }

    /// Returns whether this config is acceptable for starting a stream.
    pub fn is_valid(&self) -> (r: bool)
        ensures
            r == self.valid(),
    {
        self.fps > 0 && self.width > 0 && self.height > 0
    }
}

/// A snapshot of one monitor: OS handle, device name, geometry, and whether
/// it is the primary monitor.
#[derive(Debug, Clone, PartialEq, Eq)]
pub struct MonitorInfo {
    pub hmonitor: isize,
    pub name: String,
    pub width: i32,
    pub height: i32,
    pub x: i32,
    pub y: i32,
    pub is_primary: bool,
}

/// A rectangle in screen coordinates, as the OS reports monitor and window
/// bounds: `left`/`top` inclusive, `right`/`bottom` exclusive.
#[derive(Debug, Clone, Copy, PartialEq, Eq, Structural)]
pub struct MonitorRect {
    pub left: i32,
    pub top: i32,
    pub right: i32,
    pub bottom: i32,
}

/// A snapshot of one application window: OS handle, title, geometry, an
/// optional icon (PNG bytes) and, when computed, its capturability.
#[derive(Debug, Clone, PartialEq, Eq)]
pub struct WindowInfo {
    pub hwnd: isize,
    pub title: String,
    pub width: i32,
    pub height: i32,
    pub icon: Option<Vec<u8>>,
    pub is_capturable: Option<bool>,
}

/// An audio render endpoint; enumerated but not wired into the media track.
#[derive(Debug, Clone, PartialEq, Eq)]
pub struct AudioDevice {
    pub id: String,
    pub name: String,
    pub is_default: bool,
}

/// The typed errors the capture core reports. All are recoverable by the
/// caller; none terminates the process.
#[derive(Debug, Clone, PartialEq, Eq)]
pub enum CaptureError {
    /// Stale or invalid handle, or unknown stream id.
    SourceNotFound(String),
    /// A stream for this source is already running.
    CaptureAlreadyActive(String),
    /// Non-positive fps, width or height; rejected before any resource opens.
    InvalidConfig(String),
    /// A capture or GPU API call failed; carries the failing operation.
    PlatformError(String),
    /// A signaling or negotiation failure in the transport layer.
    WebRTCError(String),
}

/// What `CaptureError::message` returns for each variant.
pub open spec fn error_message_spec(e: &CaptureError) -> Seq<char> {
    match e {
        CaptureError::SourceNotFound(s) => "Source not found: "@ + s@,
        CaptureError::CaptureAlreadyActive(s) => "Capture already active: "@ + s@,
        CaptureError::InvalidConfig(s) => "Invalid configuration: "@ + s@,
        CaptureError::PlatformError(s) => "Platform error: "@ + s@,
        CaptureError::WebRTCError(s) => "WebRTC error: "@ + s@,
    }
}

impl CaptureError {
    /// The human-readable description of this error.
    pub fn message(&self) -> (r: String)
        ensures
            r@ == error_message_spec(self),
    {
        match self {
            CaptureError::SourceNotFound(s) => {
                let mut m = String::from_str("Source not found: ");
                m.append(s.as_str());
                m
            },
            CaptureError::CaptureAlreadyActive(s) => {
                let mut m = String::from_str("Capture already active: ");
                m.append(s.as_str());
                m
            },
            CaptureError::InvalidConfig(s) => {
                let mut m = String::from_str("Invalid configuration: ");
                m.append(s.as_str());
                m
            },
            CaptureError::PlatformError(s) => {
                let mut m = String::from_str("Platform error: ");
                m.append(s.as_str());
                m
            },
            CaptureError::WebRTCError(s) => {
                let mut m = String::from_str("WebRTC error: ");
                m.append(s.as_str());
                m
            },
        }
    }
}

/// The error shape handed to the command-dispatch layer: a plain message.
#[derive(Debug, Clone, PartialEq, Eq)]
pub struct CmdError {
    pub message: String,
}

impl CmdError {
    /// Wraps a capture error's description for the command layer.
    pub fn from_capture_error(e: &CaptureError) -> (r: CmdError)
        ensures
            r.message@ == error_message_spec(e),
    {
        CmdError { message: e.message() }
    }
}

} // verus!
