//! The live source list pushed to the UI: every visible window, annotated
//! with its capturability, and the combined update of window and monitor
//! sources for one enumeration tick.

use vstd::prelude::*;

use crate::capture::windows::WindowProbe;
use crate::capture::windows::window_capturable_spec;
use crate::capture::windows::window_is_capturable;
use crate::dto::CaptureSource;
use crate::dto::MonitorRect;

verus! {

/// One enumerated top-level window, as the live list reports it: identity,
/// title and class, geometry, and whether it may be captured right now.
pub struct DisplayInfo {
    pub handle: isize,
    pub title: String,
    pub class_name: String,
    pub rect: MonitorRect,
    pub is_capturable: bool,
}

/// What the annotated listing of one probe must say.
pub open spec fn display_matches_probe(
    d: DisplayInfo,
    p: WindowProbe,
    monitors: Seq<MonitorRect>,
    own_windows: Seq<isize>,
) -> bool {
    &&& d.handle == p.hwnd
    &&& d.title == p.title
    &&& d.class_name == p.class_name
    &&& d.rect == p.rect
    &&& d.is_capturable == window_capturable_spec(p, monitors, own_windows)
}

/// Annotates one enumeration pass: every probed window, in order, with the
/// capturability rules re-evaluated on this pass — never cached, because
/// window state changes between passes.
#[verifier::loop_isolation(false)]
pub fn annotate_windows(
    probes: Vec<WindowProbe>,
    monitors: &Vec<MonitorRect>,
    own_windows: &Vec<isize>,
) -> (r: Vec<DisplayInfo>)
    ensures
        r@.len() == probes@.len(),
        forall|i: int|
            0 <= i < probes@.len() ==> display_matches_probe(
                #[trigger] r@[i],
                probes@[i],
                monitors@,
                own_windows@,
            ),
{
    let ghost orig = probes@;
    let mut probes = probes;
    let total = probes.len();
    let mut r: Vec<DisplayInfo> = Vec::new();
    let mut i: usize = 0;
    while probes.len() > 0
        invariant
            total == orig.len(),
            i + probes@.len() == orig.len(),
            probes@ == orig.subrange(i as int, orig.len() as int),
            r@.len() == i,
            forall|j: int|
                0 <= j < i ==> display_matches_probe(
                    #[trigger] r@[j],
                    orig[j],
                    monitors@,
                    own_windows@,
                ),
        decreases probes@.len(),
    {
        let p = probes.remove(0);
        proof {
            assert(p == orig[i as int]);
            assert(probes@ =~= orig.subrange(i + 1, orig.len() as int));
        }
        let is_capturable = window_is_capturable(&p, monitors, own_windows);
        r.push(
            DisplayInfo {
                handle: p.hwnd,
                title: p.title,
                class_name: p.class_name,
                rect: p.rect,
                is_capturable,
            },
        );
        i = i + 1;
    }
    r
}

/// One tick of the live source list: the window sources, then the monitor
/// sources, and the rate the list is refreshed at.
pub struct SourcesUpdate {
    pub sources: Vec<CaptureSource>,
    pub fps: i32,
}

/// Combines one tick's window and monitor sources into the update pushed
/// to the UI: windows first, then monitors, both in enumeration order.
pub fn sources_update(
    window_sources: Vec<CaptureSource>,
    monitor_sources: Vec<CaptureSource>,
    fps: i32,
) -> (u: SourcesUpdate)
    ensures
        u.sources@ == window_sources@ + monitor_sources@,
        u.fps == fps,
{
    let mut sources = window_sources;
    let mut monitor_sources = monitor_sources;
    sources.append(&mut monitor_sources);
    SourcesUpdate { sources, fps }
}

} // verus!
