//! Screen-share core: source enumeration, capture lifecycle, frame
//! processing, and signaling for a live preview stream.
//!
//! The library is organised as:
//! - [`dto`]: the data types exchanged with callers;
//! - [`source_id`]: the canonical string identifier of a capture source;
//! - [`capture`]: the capture backend facade and window capturability rules;
//! - [`listing`]: the live source list pushed to the UI;
//! - [`pipeline`]: the frame-processing path from raw pixels to track feed;
//! - [`manager`]: the active-stream registry and its lifecycle rules;
//! - [`webrtc`]: the per-stream signaling state machine;
//! - [`thumbnail`]: thumbnail image encoding.

pub mod capture;
pub mod dto;
pub mod listing;
pub mod manager;
pub mod pipeline;
pub mod source_id;
pub mod text;
pub mod thumbnail;
pub mod webrtc;

pub use capture::CaptureDevice;
pub use dto::AudioDevice;
pub use dto::CaptureConfig;
pub use dto::CaptureError;
pub use dto::CaptureSource;
pub use dto::CmdError;
pub use dto::MonitorInfo;
pub use dto::MonitorRect;
pub use dto::PreviewOffer;
pub use dto::WindowInfo;
pub use listing::DisplayInfo;
pub use listing::SourcesUpdate;
pub use manager::CaptureManager;
pub use manager::CaptureStream;
pub use pipeline::EncodedPacket;
pub use source_id::CaptureSourceType;
pub use webrtc::PreviewConnection;
pub use webrtc::WebRTCServer;
