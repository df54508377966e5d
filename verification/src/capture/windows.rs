//! The window capture backend and the window capturability rules.
//!
//! Whether a window may be offered for capture is recomputed on every
//! enumeration from a snapshot of what the OS reports about the window; it
//! is never cached, because window state changes continuously. The rules:
//! the window is visible, not cloaked, not a tool window, has a non-empty
//! title, is none of the excluded shell/overlay classes, is not one of the
//! host application's own windows, is at least 100x100 pixels, and
//! intersects at least one monitor.

use vstd::prelude::*;

use crate::dto::AudioDevice;
use crate::dto::MonitorRect;
use crate::dto::WindowInfo;
use crate::source_id::dec_rep;
use crate::source_id::decimal_string;
use crate::text::has_prefix;
use crate::text::str_equal;

verus! {

/// The extended window style bit that marks a tool window.
pub const WS_EX_TOOLWINDOW: u32 = 0x80;

/// The window-side capture backend. Enumeration and session opening run in
/// the embedding shell against the platform's capture API; the rules below
/// decide which of the enumerated windows are offered.
#[derive(Clone, Copy)]
pub struct WindowCapture;

impl WindowCapture {
    /// A fresh window backend.
    pub fn new() -> (r: WindowCapture) {
        WindowCapture
    }
}

/// Describes one enumerated audio render endpoint: the endpoint id the OS
/// reported, a name derived from its position in the enumeration, and
/// whether its id matches the default endpoint's.
pub fn audio_device_entry(id: String, index: u64, default_id: Option<&String>) -> (r: AudioDevice)
    ensures
        r.id == id,
        r.name@ == "Audio Device "@ + dec_rep(index as nat),
        r.is_default == (default_id matches Some(d) && d@ == id@),
{
    let is_default = match default_id {
        Some(d) => str_equal(d.as_str(), id.as_str()),
        None => false,
    };
    let mut name = String::from_str("Audio Device ");
    name.append(decimal_string(index).as_str());
    AudioDevice { id, name, is_default }
}

/// A snapshot of what the OS reports about one top-level window at
/// enumeration time.
pub struct WindowProbe {
    pub hwnd: isize,
    pub title: String,
    pub class_name: String,
    pub rect: MonitorRect,
    pub ex_style: u32,
    pub is_cloaked: bool,
    pub is_visible: bool,
    /// PNG bytes of the window icon, when one could be read.
    pub icon: Option<Vec<u8>>,
}

/// Whether two screen rectangles overlap in a region of positive area.
pub open spec fn rects_intersect(a: MonitorRect, b: MonitorRect) -> bool {
    a.left < b.right && a.right > b.left && a.top < b.bottom && a.bottom > b.top
}

/// The class names excluded outright: shell chrome, frame-window wrappers,
/// and overlay widgets.
pub open spec fn is_excluded_class(c: Seq<char>) -> bool {
    ||| c == "Windows.UI.Core.CoreWindow"@
    ||| c == "ApplicationFrameWindow"@
    ||| c.len() >= "RainmeterMeterWindow"@.len() && c.subrange(
        0,
        "RainmeterMeterWindow"@.len() as int,
    ) == "RainmeterMeterWindow"@
    ||| c == "CEF-OSC-WIDGET"@
}

/// Whether the window described by `p` is offered for capture, given the
/// monitor layout and the host application's own window handles.
pub open spec fn window_capturable_spec(
    p: WindowProbe,
    monitors: Seq<MonitorRect>,
    own_windows: Seq<isize>,
) -> bool {
    &&& p.is_visible
    &&& p.title@.len() > 0
    &&& p.rect.right - p.rect.left >= 100
    &&& p.rect.bottom - p.rect.top >= 100
    &&& !p.is_cloaked
    &&& p.ex_style & WS_EX_TOOLWINDOW == 0
    &&& !is_excluded_class(p.class_name@)
    &&& p.title@ != "Program Manager"@
    &&& !own_windows.contains(p.hwnd)
    &&& exists|j: int| 0 <= j < monitors.len() && rects_intersect(p.rect, #[trigger] monitors[j])
}

/// Whether `v` holds `h`.
#[verifier::loop_isolation(false)]
fn contains_handle(v: &Vec<isize>, h: isize) -> (r: bool)
    ensures
        r == v@.contains(h),
{
    let mut i: usize = 0;
    while i < v.len()
        invariant
            i <= v@.len(),
            forall|j: int| 0 <= j < i ==> v@[j] != h,
        decreases v@.len() - i,
    {
        if v[i] == h {
            return true;
        }
        i = i + 1;
    }
    false
}

/// Whether `rect` intersects at least one of `monitors`.
#[verifier::loop_isolation(false)]
fn intersects_any_monitor(rect: &MonitorRect, monitors: &Vec<MonitorRect>) -> (r: bool)
    ensures
        r == exists|j: int|
            0 <= j < monitors@.len() && rects_intersect(*rect, #[trigger] monitors@[j]),
{
    let mut i: usize = 0;
    while i < monitors.len()
        invariant
            i <= monitors@.len(),
            forall|j: int| 0 <= j < i ==> !rects_intersect(*rect, #[trigger] monitors@[j]),
        decreases monitors@.len() - i,
    {
        let m = &monitors[i];
        if rect.left < m.right && rect.right > m.left && rect.top < m.bottom && rect.bottom
            > m.top {
            return true;
        }
        i = i + 1;
    }
    false
}

/// Applies the capturability rules to one window snapshot.
pub fn window_is_capturable(
    p: &WindowProbe,
    monitors: &Vec<MonitorRect>,
    own_windows: &Vec<isize>,
) -> (r: bool)
    ensures
        r == window_capturable_spec(*p, monitors@, own_windows@),
{
    if !p.is_visible {
        return false;
    }
    if p.title.as_str().is_empty() {
        return false;
    }
    // Differences of raw coordinates can exceed the pixel type, so they
    // are taken in a wider type; an inverted rectangle simply fails the
    // size floor, as it should.
    let probe_width = p.rect.right as i64 - p.rect.left as i64;
    let probe_height = p.rect.bottom as i64 - p.rect.top as i64;
    if probe_width < 100 || probe_height < 100 {
        return false;
    }
    if p.is_cloaked {
        return false;
    }
    if p.ex_style & WS_EX_TOOLWINDOW != 0 {
        return false;
    }
    let class = p.class_name.as_str();
    if str_equal(class, "Windows.UI.Core.CoreWindow") {
        return false;
    }
    if str_equal(class, "ApplicationFrameWindow") {
        return false;
    }
    if has_prefix(class, "RainmeterMeterWindow") {
        return false;
    }
    if str_equal(class, "CEF-OSC-WIDGET") {
        return false;
    }
    if str_equal(p.title.as_str(), "Program Manager") {
        return false;
    }
    if contains_handle(own_windows, p.hwnd) {
        return false;
    }
    intersects_any_monitor(&p.rect, monitors)
}

/// What the filtered listing of `ps` holds: the capturable windows, in
/// enumeration order, each described for the UI.
pub open spec fn listed_windows_spec(
    ps: Seq<WindowProbe>,
    monitors: Seq<MonitorRect>,
    own_windows: Seq<isize>,
) -> Seq<WindowInfo>
    decreases ps.len(),
{
    if ps.len() == 0 {
        Seq::empty()
    } else {
        let rest = listed_windows_spec(ps.drop_last(), monitors, own_windows);
        if window_capturable_spec(ps.last(), monitors, own_windows) {
            rest.push(window_info_of(ps.last()))
        } else {
            rest
        }
    }
}

/// The UI description of a capturable window.
pub open spec fn window_info_of(p: WindowProbe) -> WindowInfo {
    WindowInfo {
        hwnd: p.hwnd,
        title: p.title,
        width: (p.rect.right - p.rect.left) as i32,
        height: (p.rect.bottom - p.rect.top) as i32,
        icon: p.icon,
        is_capturable: Some(true),
    }
}

/// Filters one enumeration pass down to the capturable windows, in order.
/// The rules are re-evaluated here on every call and nothing is cached.
#[verifier::loop_isolation(false)]
pub fn collect_capturable_windows(
    probes: Vec<WindowProbe>,
    monitors: &Vec<MonitorRect>,
    own_windows: &Vec<isize>,
) -> (r: Vec<WindowInfo>)
    ensures
        r@ == listed_windows_spec(probes@, monitors@, own_windows@),
{
    let ghost orig = probes@;
    let mut probes = probes;
    let total: usize = probes.len();
    let mut r: Vec<WindowInfo> = Vec::new();
    let mut i: usize = 0;
    while probes.len() > 0
        invariant
            total == orig.len(),
            i + probes@.len() == orig.len(),
            probes@ == orig.subrange(i as int, orig.len() as int),
            r@ == listed_windows_spec(orig.subrange(0, i as int), monitors@, own_windows@),
        decreases probes@.len(),
    {
        let p = probes.remove(0);
        proof {
            assert(p == orig[i as int]);
            assert(orig.subrange(0, i + 1).drop_last() =~= orig.subrange(0, i as int));
            assert(orig.subrange(0, i + 1).last() == orig[i as int]);
            assert(probes@ =~= orig.subrange(i + 1, orig.len() as int));
        }
        if window_is_capturable(&p, monitors, own_windows) {
            let info = WindowInfo {
                hwnd: p.hwnd,
                title: p.title,
                width: (p.rect.right as i64 - p.rect.left as i64) as i32,
                height: (p.rect.bottom as i64 - p.rect.top as i64) as i32,
                icon: p.icon,
                is_capturable: Some(true),
            };
            proof {
                assert(info == window_info_of(orig[i as int]));
            }
            r.push(info);
        }
        i = i + 1;
    }
    proof {
        assert(orig.subrange(0, orig.len() as int) =~= orig);
    }
    r
}

} // verus!
