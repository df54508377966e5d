use share_screen::source_id::CaptureSourceType;

fn round_trips(t: CaptureSourceType) {
    let id = t.to_id();
    assert_eq!(CaptureSourceType::from_id(id.as_str()), Some(t));
}

#[test]
fn monitor_id_round_trips() {
    round_trips(CaptureSourceType::Monitor(0));
    round_trips(CaptureSourceType::Monitor(1));
    round_trips(CaptureSourceType::Monitor(65537));
    round_trips(CaptureSourceType::Monitor(-8));
    round_trips(CaptureSourceType::Monitor(isize::MAX));
    round_trips(CaptureSourceType::Monitor(isize::MIN));
}

#[test]
fn window_id_round_trips() {
    round_trips(CaptureSourceType::Window(0));
    round_trips(CaptureSourceType::Window(123456789));
    round_trips(CaptureSourceType::Window(-1));
    round_trips(CaptureSourceType::Window(isize::MAX));
    round_trips(CaptureSourceType::Window(isize::MIN));
}

#[test]
fn encoding_is_the_canonical_string() {
    assert_eq!(CaptureSourceType::Monitor(5).to_id(), "monitor_5");
    assert_eq!(CaptureSourceType::Monitor(0).to_id(), "monitor_0");
    assert_eq!(CaptureSourceType::Window(42).to_id(), "window_42");
    assert_eq!(CaptureSourceType::Window(-3).to_id(), "window_-3");
    assert_eq!(
        CaptureSourceType::Monitor(9223372036854775807).to_id(),
        "monitor_9223372036854775807"
    );
}

#[test]
fn decoding_accepts_canonical_ids() {
    assert_eq!(
        CaptureSourceType::from_id("monitor_1"),
        Some(CaptureSourceType::Monitor(1))
    );
    assert_eq!(
        CaptureSourceType::from_id("window_-17"),
        Some(CaptureSourceType::Window(-17))
    );
    assert_eq!(
        CaptureSourceType::from_id("monitor_-9223372036854775808"),
        Some(CaptureSourceType::Monitor(isize::MIN))
    );
}

#[test]
fn decoding_rejects_unprefixed_strings() {
    assert_eq!(CaptureSourceType::from_id(""), None);
    assert_eq!(CaptureSourceType::from_id("screen_5"), None);
    assert_eq!(CaptureSourceType::from_id("Monitor_5"), None);
    assert_eq!(CaptureSourceType::from_id("monitor5"), None);
    assert_eq!(CaptureSourceType::from_id("5"), None);
    assert_eq!(CaptureSourceType::from_id("windowish_5"), None);
}

#[test]
fn decoding_rejects_malformed_handles() {
    assert_eq!(CaptureSourceType::from_id("monitor_"), None);
    assert_eq!(CaptureSourceType::from_id("window_"), None);
    assert_eq!(CaptureSourceType::from_id("monitor_abc"), None);
    assert_eq!(CaptureSourceType::from_id("monitor_5x"), None);
    assert_eq!(CaptureSourceType::from_id("monitor_ 5"), None);
    assert_eq!(CaptureSourceType::from_id("monitor_05"), None);
    assert_eq!(CaptureSourceType::from_id("monitor_+5"), None);
    assert_eq!(CaptureSourceType::from_id("monitor_-"), None);
    assert_eq!(CaptureSourceType::from_id("monitor_-0"), None);
    assert_eq!(CaptureSourceType::from_id("monitor_-05"), None);
}

#[test]
fn decoding_rejects_out_of_range_handles() {
    assert_eq!(
        CaptureSourceType::from_id("monitor_9223372036854775808"),
        None
    );
    assert_eq!(
        CaptureSourceType::from_id("window_-9223372036854775809"),
        None
    );
    assert_eq!(
        CaptureSourceType::from_id("monitor_99999999999999999999999999999999999999999"),
        None
    );
}
