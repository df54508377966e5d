use share_screen::dto::CaptureConfig;
use share_screen::dto::CaptureError;
use share_screen::manager::CaptureManager;
use share_screen::source_id::CaptureSourceType;
use share_screen::webrtc::WebRTCServer;

fn config() -> CaptureConfig {
    CaptureConfig { fps: 30, width: 640, height: 360, show_border_indicator: false }
}

const VP8_OFFER: &str = "v=0\r\nm=video 9 UDP/TLS/RTP/SAVPF 96\r\na=rtpmap:96 VP8/90000\r\n";

#[test]
fn a_second_start_for_the_same_source_loses() {
    let mut manager = CaptureManager::new();
    let mut server = WebRTCServer::new();
    let source = CaptureSourceType::Monitor(1);
    assert!(manager.start_preview(&mut server, source, config()).is_ok());
    match manager.start_preview(&mut server, source, config()) {
        Err(CaptureError::CaptureAlreadyActive(id)) => assert_eq!(id, "monitor_1"),
        other => panic!("expected CaptureAlreadyActive, got {:?}", other),
    }
    assert!(manager.is_active("monitor_1"));
}

#[test]
fn different_sources_start_independently() {
    let mut manager = CaptureManager::new();
    let mut server = WebRTCServer::new();
    assert!(manager
        .start_preview(&mut server, CaptureSourceType::Monitor(1), config())
        .is_ok());
    assert!(manager
        .start_preview(&mut server, CaptureSourceType::Window(1), config())
        .is_ok());
    assert!(manager.is_active("monitor_1"));
    assert!(manager.is_active("window_1"));
}

#[test]
fn stop_always_succeeds_and_is_idempotent() {
    let mut manager = CaptureManager::new();
    let mut server = WebRTCServer::new();
    let source = CaptureSourceType::Window(9);
    assert!(manager.start_preview(&mut server, source, config()).is_ok());
    assert!(manager.is_active("window_9"));
    assert!(manager.stop_preview(&mut server, "window_9").is_ok());
    assert!(!manager.is_active("window_9"));
    assert!(manager.stop_preview(&mut server, "window_9").is_ok());
    assert!(!manager.is_active("window_9"));
    // And the id can be started again afterwards.
    assert!(manager.start_preview(&mut server, source, config()).is_ok());
}

#[test]
fn an_invalid_config_is_rejected_before_anything_opens() {
    let mut manager = CaptureManager::new();
    let mut server = WebRTCServer::new();
    for bad in [
        CaptureConfig { fps: 0, width: 640, height: 360, show_border_indicator: false },
        CaptureConfig { fps: -1, width: 640, height: 360, show_border_indicator: false },
        CaptureConfig { fps: 30, width: 0, height: 360, show_border_indicator: false },
        CaptureConfig { fps: 30, width: 640, height: -5, show_border_indicator: false },
    ] {
        match manager.start_preview(&mut server, CaptureSourceType::Monitor(1), bad) {
            Err(CaptureError::InvalidConfig(_)) => {}
            other => panic!("expected InvalidConfig, got {:?}", other),
        }
        assert!(!manager.is_active("monitor_1"));
    }
    assert!(config().is_valid());
}

#[test]
fn listings_without_a_platform_backend_are_empty() {
    let manager = CaptureManager::new();
    assert!(manager.get_monitors(config()).unwrap().is_empty());
    assert!(manager.get_windows(config()).unwrap().is_empty());
    assert!(manager.get_audio_devices().unwrap().is_empty());
}

#[test]
fn an_offer_before_start_is_source_not_found() {
    let mut server = WebRTCServer::new();
    match server.get_preview_offer("monitor_1", VP8_OFFER.to_string()) {
        Err(CaptureError::SourceNotFound(id)) => assert_eq!(id, "monitor_1"),
        other => panic!("expected SourceNotFound, got {:?}", other),
    }
}

#[test]
fn preview_offer_flows_until_stop_and_not_after() {
    let mut manager = CaptureManager::new();
    let mut server = WebRTCServer::new();
    let source = CaptureSourceType::Monitor(1);
    assert!(manager.start_preview(&mut server, source, config()).is_ok());

    let offer = server
        .get_preview_offer("monitor_1", VP8_OFFER.to_string())
        .unwrap();
    assert_eq!(offer.id, "monitor_1");
    assert!(offer.sdp.contains("m=video"));
    assert!(offer.sdp.contains("VP8"));

    assert!(manager.stop_preview(&mut server, "monitor_1").is_ok());
    match server.get_preview_offer("monitor_1", VP8_OFFER.to_string()) {
        Err(CaptureError::SourceNotFound(id)) => assert_eq!(id, "monitor_1"),
        other => panic!("expected SourceNotFound, got {:?}", other),
    }
}

#[test]
fn candidates_on_unknown_or_closed_ids_are_source_not_found() {
    let mut manager = CaptureManager::new();
    let mut server = WebRTCServer::new();

    // Unknown id.
    match server.add_preview_ice_candidate("monitor_3".to_string(), "candidate".to_string(), None, None) {
        Err(CaptureError::SourceNotFound(_)) => {}
        other => panic!("expected SourceNotFound, got {:?}", other),
    }

    // Session exists but has no peer connection yet.
    let source = CaptureSourceType::Monitor(3);
    assert!(manager.start_preview(&mut server, source, config()).is_ok());
    match server.add_preview_ice_candidate("monitor_3".to_string(), "candidate".to_string(), None, None) {
        Err(CaptureError::SourceNotFound(_)) => {}
        other => panic!("expected SourceNotFound, got {:?}", other),
    }

    // After the offer, candidates are accepted.
    server
        .get_preview_offer("monitor_3", VP8_OFFER.to_string())
        .unwrap();
    assert!(server
        .add_preview_ice_candidate("monitor_3".to_string(), "candidate".to_string(), Some("0".to_string()), Some(0))
        .is_ok());

    // Closed (stopped) id.
    assert!(manager.stop_preview(&mut server, "monitor_3").is_ok());
    match server.add_preview_ice_candidate("monitor_3".to_string(), "candidate".to_string(), None, None) {
        Err(CaptureError::SourceNotFound(_)) => {}
        other => panic!("expected SourceNotFound, got {:?}", other),
    }
}

#[test]
fn an_answer_needs_an_offered_session() {
    let mut manager = CaptureManager::new();
    let mut server = WebRTCServer::new();
    let sdp = "v=0\r\n".to_string();

    match server.accept_preview_answer("window_2", sdp.clone()) {
        Err(CaptureError::SourceNotFound(_)) => {}
        other => panic!("expected SourceNotFound, got {:?}", other),
    }

    let source = CaptureSourceType::Window(2);
    assert!(manager.start_preview(&mut server, source, config()).is_ok());
    match server.accept_preview_answer("window_2", sdp.clone()) {
        Err(CaptureError::SourceNotFound(_)) => {}
        other => panic!("expected SourceNotFound, got {:?}", other),
    }

    server
        .get_preview_offer("window_2", VP8_OFFER.to_string())
        .unwrap();
    assert!(server.accept_preview_answer("window_2", sdp.clone()).is_ok());
    // Re-applying an answer to a negotiated session is accepted.
    assert!(server.accept_preview_answer("window_2", sdp).is_ok());
}

#[test]
fn closing_all_previews_forgets_every_session() {
    let mut manager = CaptureManager::new();
    let mut server = WebRTCServer::new();
    assert!(manager
        .start_preview(&mut server, CaptureSourceType::Monitor(1), config())
        .is_ok());
    assert!(manager
        .start_preview(&mut server, CaptureSourceType::Window(2), config())
        .is_ok());
    server.close_all_previews();
    match server.get_preview_offer("monitor_1", VP8_OFFER.to_string()) {
        Err(CaptureError::SourceNotFound(_)) => {}
        other => panic!("expected SourceNotFound, got {:?}", other),
    }
}
