//! The capture backend facade.
//!
//! The backend is a capability interface: enumerate sources, describe one,
//! capture a single-shot thumbnail, run a continuous session. The GPU-backed
//! session itself is platform work owned by the embedding shell; on a host
//! without that backend every method answers the way the interface promises:
//! enumerations are empty and per-source operations report a platform error.
//! The source-independent rules — which windows are capturable, how frames
//! are processed and ordered — live beside it in this crate and are verified.

pub mod monitor;
pub mod windows;

use vstd::prelude::*;

use crate::dto::AudioDevice;
use crate::dto::CaptureError;
use crate::dto::MonitorInfo;
use crate::dto::WindowInfo;
use monitor::MonitorCapture;
use windows::WindowCapture;

verus! {

/// What every per-source operation reports while no platform backend is
/// compiled in.
pub open spec fn not_supported_spec() -> Seq<char> {
    "Not supported"@
}

/// The capture device: one window backend and one monitor backend.
#[derive(Clone)]
pub struct CaptureDevice {
    pub window_capture: WindowCapture,
    pub monitor_capture: MonitorCapture,
}

impl CaptureDevice {
    /// A fresh capture device.
    pub fn new() -> (r: CaptureDevice) {
        CaptureDevice { window_capture: WindowCapture::new(), monitor_capture: MonitorCapture::new() }
    }

    /// Lists the monitors the backend can see: none without a platform
    /// backend, and never an error.
    pub fn enumerate_monitors(&self) -> (r: Result<Vec<MonitorInfo>, CaptureError>)
        ensures
            r matches Ok(v) && v@ == Seq::<MonitorInfo>::empty(),
    {
        Ok(Vec::new())
    }

    /// Lists the windows the backend can see: none without a platform
    /// backend, and never an error.
    pub fn enumerate_windows(&self) -> (r: Result<Vec<WindowInfo>, CaptureError>)
        ensures
            r matches Ok(v) && v@ == Seq::<WindowInfo>::empty(),
    {
        Ok(Vec::new())
    }

    /// Describes one monitor; without a platform backend this is a platform
    /// error, never a stale answer.
    pub fn get_monitor_info(&self, hmonitor: isize) -> (r: Result<MonitorInfo, CaptureError>)
        ensures
            r matches Err(e) && e matches CaptureError::PlatformError(m) && m@
                == not_supported_spec(),
    {
        Err(CaptureError::PlatformError(String::from_str("Not supported")))
    }

    /// Describes one window; without a platform backend this is a platform
    /// error, never a stale answer.
    pub fn get_window_info(&self, hwnd: isize) -> (r: Result<WindowInfo, CaptureError>)
        ensures
            r matches Err(e) && e matches CaptureError::PlatformError(m) && m@
                == not_supported_spec(),
    {
        Err(CaptureError::PlatformError(String::from_str("Not supported")))
    }

    /// Lists audio render endpoints: none without a platform backend.
    pub fn enumerate_audio_devices(&self) -> (r: Result<Vec<AudioDevice>, CaptureError>)
        ensures
            r matches Ok(v) && v@ == Seq::<AudioDevice>::empty(),
    {
        Ok(Vec::new())
    }
}

} // verus!
