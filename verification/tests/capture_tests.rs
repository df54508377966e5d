use share_screen::capture::CaptureDevice;
use share_screen::capture::windows::collect_capturable_windows;
use share_screen::capture::windows::window_is_capturable;
use share_screen::capture::windows::WindowProbe;
use share_screen::dto::MonitorRect;
use share_screen::capture::windows::audio_device_entry;
use share_screen::listing::annotate_windows;

fn screen() -> MonitorRect {
    MonitorRect { left: 0, top: 0, right: 1920, bottom: 1080 }
}

fn ordinary_window(hwnd: isize, title: &str) -> WindowProbe {
    WindowProbe {
        hwnd,
        title: title.to_string(),
        class_name: "SomeAppWindow".to_string(),
        rect: MonitorRect { left: 100, top: 100, right: 900, bottom: 700 },
        ex_style: 0,
        is_cloaked: false,
        is_visible: true,
        icon: None,
    }
}

#[test]
fn headless_enumeration_is_empty_not_an_error() {
    let device = CaptureDevice::new();
    let windows = device.enumerate_windows().unwrap();
    assert!(windows.is_empty());
    let monitors = device.enumerate_monitors().unwrap();
    assert!(monitors.is_empty());
    let audio = device.enumerate_audio_devices().unwrap();
    assert!(audio.is_empty());
}

#[test]
fn describing_a_source_without_a_backend_is_a_platform_error() {
    let device = CaptureDevice::new();
    assert!(device.get_monitor_info(1).is_err());
    assert!(device.get_window_info(1).is_err());
}

#[test]
fn zero_windows_filter_to_an_empty_list() {
    let listed = collect_capturable_windows(Vec::new(), &vec![screen()], &Vec::new());
    assert!(listed.is_empty());
}

#[test]
fn an_ordinary_window_is_capturable() {
    assert!(window_is_capturable(
        &ordinary_window(7, "Editor"),
        &vec![screen()],
        &Vec::new()
    ));
}

#[test]
fn each_rule_disqualifies_a_window() {
    let monitors = vec![screen()];
    let own: Vec<isize> = Vec::new();

    let mut w = ordinary_window(7, "Editor");
    w.is_visible = false;
    assert!(!window_is_capturable(&w, &monitors, &own));

    let w = ordinary_window(7, "");
    assert!(!window_is_capturable(&w, &monitors, &own));

    let mut w = ordinary_window(7, "Editor");
    w.rect = MonitorRect { left: 0, top: 0, right: 99, bottom: 500 };
    assert!(!window_is_capturable(&w, &monitors, &own));

    let mut w = ordinary_window(7, "Editor");
    w.rect = MonitorRect { left: 0, top: 0, right: 500, bottom: 99 };
    assert!(!window_is_capturable(&w, &monitors, &own));

    let mut w = ordinary_window(7, "Editor");
    w.is_cloaked = true;
    assert!(!window_is_capturable(&w, &monitors, &own));

    let mut w = ordinary_window(7, "Editor");
    w.ex_style = 0x80;
    assert!(!window_is_capturable(&w, &monitors, &own));

    for class in [
        "Windows.UI.Core.CoreWindow",
        "ApplicationFrameWindow",
        "RainmeterMeterWindow0",
        "RainmeterMeterWindow",
        "CEF-OSC-WIDGET",
    ] {
        let mut w = ordinary_window(7, "Editor");
        w.class_name = class.to_string();
        assert!(!window_is_capturable(&w, &monitors, &own));
    }

    let w = ordinary_window(7, "Program Manager");
    assert!(!window_is_capturable(&w, &monitors, &own));

    let w = ordinary_window(7, "Editor");
    assert!(!window_is_capturable(&w, &monitors, &vec![7]));

    // Entirely off every monitor.
    let mut w = ordinary_window(7, "Editor");
    w.rect = MonitorRect { left: 5000, top: 5000, right: 5900, bottom: 5900 };
    assert!(!window_is_capturable(&w, &monitors, &own));

    // No monitors at all.
    let w = ordinary_window(7, "Editor");
    assert!(!window_is_capturable(&w, &Vec::new(), &own));
}

#[test]
fn a_tool_window_style_with_other_bits_still_disqualifies() {
    let mut w = ordinary_window(7, "Editor");
    w.ex_style = 0x80 | 0x8;
    assert!(!window_is_capturable(&w, &vec![screen()], &Vec::new()));
    let mut w = ordinary_window(7, "Editor");
    w.ex_style = 0x8;
    assert!(window_is_capturable(&w, &vec![screen()], &Vec::new()));
}

#[test]
fn filtering_keeps_capturable_windows_in_enumeration_order() {
    let monitors = vec![screen()];
    let own: Vec<isize> = Vec::new();
    let mut hidden = ordinary_window(2, "Hidden");
    hidden.is_visible = false;
    let probes = vec![
        ordinary_window(1, "First"),
        hidden,
        ordinary_window(3, "Third"),
    ];
    let listed = collect_capturable_windows(probes, &monitors, &own);
    assert_eq!(listed.len(), 2);
    assert_eq!(listed[0].hwnd, 1);
    assert_eq!(listed[0].title, "First");
    assert_eq!(listed[0].width, 800);
    assert_eq!(listed[0].height, 600);
    assert_eq!(listed[0].is_capturable, Some(true));
    assert_eq!(listed[1].hwnd, 3);
    assert_eq!(listed[1].title, "Third");
}

#[test]
fn a_window_straddling_a_monitor_edge_is_still_listed() {
    let mut w = ordinary_window(9, "Half Off");
    w.rect = MonitorRect { left: 1800, top: 900, right: 2700, bottom: 1800 };
    assert!(window_is_capturable(&w, &vec![screen()], &Vec::new()));
}

#[test]
fn the_live_list_annotates_every_window() {
    let monitors = vec![screen()];
    let own: Vec<isize> = Vec::new();
    let mut cloaked = ordinary_window(2, "Cloaked");
    cloaked.is_cloaked = true;
    let probes = vec![ordinary_window(1, "First"), cloaked];
    let listed = annotate_windows(probes, &monitors, &own);
    assert_eq!(listed.len(), 2);
    assert_eq!(listed[0].handle, 1);
    assert_eq!(listed[0].title, "First");
    assert_eq!(listed[0].class_name, "SomeAppWindow");
    assert!(listed[0].is_capturable);
    assert_eq!(listed[1].handle, 2);
    assert!(!listed[1].is_capturable);
}

#[test]
fn audio_devices_are_named_by_position_and_marked_default() {
    let default_id = "{0.0.0.00000000}".to_string();
    let d = audio_device_entry(default_id.clone(), 0, Some(&default_id));
    assert_eq!(d.name, "Audio Device 0");
    assert!(d.is_default);
    let other = audio_device_entry("{1.1.1}".to_string(), 12, Some(&default_id));
    assert_eq!(other.name, "Audio Device 12");
    assert!(!other.is_default);
    let lone = audio_device_entry("{2}".to_string(), 3, None);
    assert_eq!(lone.name, "Audio Device 3");
    assert!(!lone.is_default);
}

#[test]
fn an_inverted_rectangle_is_not_capturable() {
    let mut w = ordinary_window(7, "Editor");
    w.rect = MonitorRect { left: 900, top: 700, right: 100, bottom: 100 };
    assert!(!window_is_capturable(&w, &vec![screen()], &Vec::new()));
    let listed = collect_capturable_windows(vec![w], &vec![screen()], &Vec::new());
    assert!(listed.is_empty());
}
