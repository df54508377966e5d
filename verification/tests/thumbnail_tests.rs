use base64::Engine;
use share_screen::dto::CaptureError;
use share_screen::dto::CmdError;
use share_screen::dto::MonitorInfo;
use share_screen::dto::WindowInfo;
use share_screen::listing::sources_update;
use share_screen::manager::build_monitor_sources;
use share_screen::manager::monitor_source;
use share_screen::manager::window_source;
use share_screen::thumbnail::bgra_to_rgba;
use share_screen::thumbnail::pixels_to_base64_png;

fn monitor() -> MonitorInfo {
    MonitorInfo {
        hmonitor: 7,
        name: "DISPLAY1".to_string(),
        width: 1920,
        height: 1080,
        x: 0,
        y: 0,
        is_primary: true,
    }
}

fn window(icon: Option<Vec<u8>>) -> WindowInfo {
    WindowInfo {
        hwnd: 42,
        title: "Editor".to_string(),
        width: 800,
        height: 600,
        icon,
        is_capturable: Some(true),
    }
}

#[test]
fn bgra_pixels_reorder_to_rgba() {
    let bgra = vec![1, 2, 3, 4, 10, 20, 30, 40];
    assert_eq!(bgra_to_rgba(&bgra), vec![3, 2, 1, 4, 30, 20, 10, 40]);
}

#[test]
fn a_monitor_source_carries_its_canonical_id() {
    let source = monitor_source(monitor(), &Vec::new());
    assert_eq!(source.id, "monitor_7");
    assert_eq!(source.title, "DISPLAY1");
    assert_eq!(source.thumbnail, "");
    assert_eq!(source.icon, None);
    assert_eq!(source.source_type, "monitor");
    assert_eq!(source.width, 1920);
    assert_eq!(source.height, 1080);
}

#[test]
fn a_window_source_encodes_its_icon() {
    let source = window_source(window(Some(vec![0, 0, 0])), &vec![1, 2, 3]);
    assert_eq!(source.id, "window_42");
    assert_eq!(source.source_type, "window");
    // Three zero bytes become four alphabet characters, not the input.
    assert_eq!(source.icon, Some("AAAA".to_string()));
    assert_eq!(source.thumbnail, "AQID");

    let bare = window_source(window(None), &Vec::new());
    assert_eq!(bare.icon, None);
    assert_eq!(bare.thumbnail, "");
}

#[test]
fn monitor_listings_keep_enumeration_order() {
    let mut second = monitor();
    second.hmonitor = 9;
    second.name = "DISPLAY2".to_string();
    let sources = build_monitor_sources(vec![monitor(), second]);
    assert_eq!(sources.len(), 2);
    assert_eq!(sources[0].id, "monitor_7");
    assert_eq!(sources[1].id, "monitor_9");
}

#[test]
fn a_thumbnail_becomes_a_png_data_url() {
    // One blue pixel, interleaved as blue-green-red-alpha.
    let pixels = vec![255u8, 0, 0, 255];
    let url = pixels_to_base64_png(&pixels, 1, 1).unwrap();
    let b64 = url.strip_prefix("data:image/png;base64,").unwrap();
    let png = base64::engine::general_purpose::STANDARD
        .decode(b64)
        .unwrap();
    // The payload is a real PNG stream, not the pixels handed in.
    assert_eq!(&png[..8], &[0x89, 0x50, 0x4E, 0x47, 0x0D, 0x0A, 0x1A, 0x0A]);
    assert_ne!(png, pixels);
}

#[test]
fn a_mismatched_buffer_degrades_to_nothing() {
    let pixels = vec![0u8; 4];
    assert!(pixels_to_base64_png(&pixels, 3, 3).is_none());
    assert!(pixels_to_base64_png(&pixels, 0, 1).is_none());
    assert!(pixels_to_base64_png(&pixels, 1, 0).is_none());
}

#[test]
fn a_matching_buffer_always_encodes() {
    let pixels = vec![0u8; 4 * 6];
    assert!(pixels_to_base64_png(&pixels, 3, 2).is_some());
    assert!(pixels_to_base64_png(&pixels, 2, 3).is_some());
    assert!(pixels_to_base64_png(&pixels, 6, 1).is_some());
}

#[test]
fn one_tick_combines_windows_before_monitors() {
    let windows = vec![window_source(window(None), &Vec::new())];
    let monitors = vec![monitor_source(monitor(), &Vec::new())];
    let update = sources_update(windows, monitors, 24);
    assert_eq!(update.fps, 24);
    assert_eq!(update.sources.len(), 2);
    assert_eq!(update.sources[0].id, "window_42");
    assert_eq!(update.sources[1].id, "monitor_7");
}

#[test]
fn errors_describe_themselves() {
    let e = CaptureError::SourceNotFound("monitor_1".to_string());
    assert_eq!(e.message(), "Source not found: monitor_1");
    let e = CaptureError::CaptureAlreadyActive("window_2".to_string());
    assert_eq!(e.message(), "Capture already active: window_2");
    let e = CaptureError::InvalidConfig("fps".to_string());
    assert_eq!(e.message(), "Invalid configuration: fps");
    let e = CaptureError::PlatformError("CreateTexture2D".to_string());
    assert_eq!(e.message(), "Platform error: CreateTexture2D");
    let e = CaptureError::WebRTCError("negotiation".to_string());
    assert_eq!(e.message(), "WebRTC error: negotiation");
    let cmd = CmdError::from_capture_error(&CaptureError::PlatformError("Map".to_string()));
    assert_eq!(cmd.message, "Platform error: Map");
}
