//! The active-stream registry and its lifecycle rules.
//!
//! The manager is the single source of truth for "is this source currently
//! being streamed": an entry in its map IS the active state, with no
//! separate status flag. The map is a concurrent map, locked shard by
//! shard, so starts and stops of different streams do not contend on one
//! lock; `start` claims an id with an atomic check-and-insert, so of two
//! concurrent starts for one id exactly one wins.

use vstd::prelude::*;

use crate::capture::CaptureDevice;
use crate::capture::not_supported_spec;
use crate::dto::AudioDevice;
use crate::dto::CaptureConfig;
use crate::dto::CaptureError;
use crate::dto::CaptureSource;
use crate::dto::MonitorInfo;
use crate::dto::WindowInfo;
use crate::source_id::CaptureSourceType;
use crate::source_id::to_id_spec;
use crate::thumbnail::base64_of;
use crate::thumbnail::base64_encode;
use crate::webrtc::PreviewState;
use crate::webrtc::WebRTCServer;
use dashmap::DashMap;

verus! {

#[verifier::external_type_specification]
#[verifier::external_body]
#[verifier::reject_recursive_types(K)]
#[verifier::reject_recursive_types(V)]
#[verifier::reject_recursive_types(S)]
pub struct ExDashMap<K, V, S>(DashMap<K, V, S>);

/// One active stream: its canonical id, its source, and the settings it
/// was started with. The running capture task and its output channel are
/// owned by the embedding shell under the same id.
pub struct CaptureStream {
    pub id: String,
    pub source_type: CaptureSourceType,
    pub config: CaptureConfig,
}

/// What a stream map holds: each active stream under its canonical id.
pub uninterp spec fn stream_map_contents(m: DashMap<String, CaptureStream>) -> Map<
    Seq<char>,
    CaptureStream,
>;

/// Relies on dashmap::DashMap::new. What the fresh map holds is pinned by
/// the `stream_map_clear` call that follows every use of this.
#[verifier::external_body]
fn stream_map_new() -> DashMap<String, CaptureStream> {
    DashMap::new()
}

/// The contents of a registry with no active streams.
pub open spec fn no_streams() -> Map<Seq<char>, CaptureStream> {
    Map::empty()
}

/// Relies on dashmap::DashMap::clear: it removes every entry.
#[verifier::external_body]
fn stream_map_clear(m: &mut DashMap<String, CaptureStream>)
    ensures
        stream_map_contents(*final(m)) == no_streams(),
{
    m.clear()
}

/// Relies on dashmap::DashMap::entry: the entry holds the shard's write
/// lock, so checking for the key and inserting behind it is one atomic
/// step; the vacant arm inserts the value, the occupied arm changes
/// nothing.
#[verifier::external_body]
fn stream_map_try_insert(
    m: &mut DashMap<String, CaptureStream>,
    key: &str,
    value: CaptureStream,
) -> (claimed: bool)
    ensures
        claimed == !stream_map_contents(*old(m)).contains_key(key@),
        claimed ==> stream_map_contents(*final(m)) == stream_map_contents(*old(m)).insert(
            key@,
            value,
        ),
        !claimed ==> stream_map_contents(*final(m)) == stream_map_contents(*old(m)),
{
    match m.entry(key.to_string()) {
        dashmap::Entry::Occupied(_) => false,
        dashmap::Entry::Vacant(slot) => {
            slot.insert(value);
            true
        },
    }
}

/// Relies on dashmap::DashMap::remove: takes the entry under the key out
/// of the map and returns it, or returns nothing when the key is absent.
#[verifier::external_body]
fn stream_map_remove(m: &mut DashMap<String, CaptureStream>, key: &str) -> (r: Option<
    CaptureStream,
>)
    ensures
        stream_map_contents(*final(m)) == stream_map_contents(*old(m)).remove(key@),
        r matches Some(v) ==> stream_map_contents(*old(m)).contains_key(key@) && v
            == stream_map_contents(*old(m))[key@],
        r is None ==> !stream_map_contents(*old(m)).contains_key(key@),
{
    m.remove(key).map(|entry| entry.1)
}

/// Relies on dashmap::DashMap::contains_key.
#[verifier::external_body]
fn stream_map_contains(m: &DashMap<String, CaptureStream>, key: &str) -> (r: bool)
    ensures
        r == stream_map_contents(*m).contains_key(key@),
{
    m.contains_key(key)
}

/// The stream manager: the active-stream registry and the capture device.
pub struct CaptureManager {
    active_streams: DashMap<String, CaptureStream>,
    capture_device: CaptureDevice,
}

/// What one listed monitor source must look like: identified by the
/// monitor's canonical id, described by its name and geometry, with the
/// thumbnail bytes base64-encoded and no icon.
pub open spec fn source_matches_monitor(
    s: CaptureSource,
    m: MonitorInfo,
    thumbnail: Seq<u8>,
) -> bool {
    &&& s.id@ == to_id_spec(CaptureSourceType::Monitor(m.hmonitor))
    &&& s.title == m.name
    &&& s.thumbnail@ == base64_of(thumbnail)
    &&& s.icon is None
    &&& s.source_type@ == "monitor"@
    &&& s.width == m.width
    &&& s.height == m.height
}

/// What one listed window source must look like: identified by the
/// window's canonical id, with thumbnail and icon base64-encoded.
pub open spec fn source_matches_window(s: CaptureSource, w: WindowInfo, thumbnail: Seq<u8>) -> bool {
    &&& s.id@ == to_id_spec(CaptureSourceType::Window(w.hwnd))
    &&& s.title == w.title
    &&& s.thumbnail@ == base64_of(thumbnail)
    &&& (match w.icon {
        Some(bytes) => s.icon matches Some(enc) && enc@ == base64_of(bytes@),
        None => s.icon is None,
    })
    &&& s.source_type@ == "window"@
    &&& s.width == w.width
    &&& s.height == w.height
}

/// Describes one monitor for the UI, with its thumbnail bytes (possibly
/// empty, when thumbnail capture degraded) already in hand.
pub fn monitor_source(monitor: MonitorInfo, thumbnail: &Vec<u8>) -> (s: CaptureSource)
    ensures
        source_matches_monitor(s, monitor, thumbnail@),
{
    let id = CaptureSourceType::Monitor(monitor.hmonitor).to_id();
    CaptureSource {
        id,
        title: monitor.name,
        thumbnail: base64_encode(thumbnail),
        icon: None,
        source_type: String::from_str("monitor"),
        width: monitor.width,
        height: monitor.height,
    }
}

/// Describes one window for the UI, with its thumbnail bytes (possibly
/// empty, when thumbnail capture degraded) already in hand.
pub fn window_source(window: WindowInfo, thumbnail: &Vec<u8>) -> (s: CaptureSource)
    ensures
        source_matches_window(s, window, thumbnail@),
{
    let id = CaptureSourceType::Window(window.hwnd).to_id();
    let icon = match window.icon {
        Some(bytes) => Some(base64_encode(&bytes)),
        None => None,
    };
    CaptureSource {
        id,
        title: window.title,
        thumbnail: base64_encode(thumbnail),
        icon,
        source_type: String::from_str("window"),
        width: window.width,
        height: window.height,
    }
}

/// Describes every enumerated monitor, in order, with an empty thumbnail
/// placeholder for each: a failed single-shot capture degrades to the
/// placeholder rather than failing the whole listing.
#[verifier::loop_isolation(false)]
pub fn build_monitor_sources(monitors: Vec<MonitorInfo>) -> (r: Vec<CaptureSource>)
    ensures
        r@.len() == monitors@.len(),
        forall|i: int|
            0 <= i < monitors@.len() ==> source_matches_monitor(
                #[trigger] r@[i],
                monitors@[i],
                Seq::<u8>::empty(),
            ),
{
    let ghost orig = monitors@;
    let mut monitors = monitors;
    let total = monitors.len();
    let empty_thumbnail: Vec<u8> = Vec::new();
    let mut r: Vec<CaptureSource> = Vec::new();
    let mut i: usize = 0;
    while monitors.len() > 0
        invariant
            total == orig.len(),
            i + monitors@.len() == orig.len(),
            monitors@ == orig.subrange(i as int, orig.len() as int),
            empty_thumbnail@ == Seq::<u8>::empty(),
            r@.len() == i,
            forall|j: int|
                0 <= j < i ==> source_matches_monitor(
                    #[trigger] r@[j],
                    orig[j],
                    Seq::<u8>::empty(),
                ),
        decreases monitors@.len(),
    {
        let m = monitors.remove(0);
        proof {
            assert(m == orig[i as int]);
            assert(monitors@ =~= orig.subrange(i + 1, orig.len() as int));
        }
        r.push(monitor_source(m, &empty_thumbnail));
        i = i + 1;
    }
    r
}

/// Describes every enumerated window, in order, with an empty thumbnail
/// placeholder for each.
#[verifier::loop_isolation(false)]
pub fn build_window_sources(windows: Vec<WindowInfo>) -> (r: Vec<CaptureSource>)
    ensures
        r@.len() == windows@.len(),
        forall|i: int|
            0 <= i < windows@.len() ==> source_matches_window(
                #[trigger] r@[i],
                windows@[i],
                Seq::<u8>::empty(),
            ),
{
    let ghost orig = windows@;
    let mut windows = windows;
    let total = windows.len();
    let empty_thumbnail: Vec<u8> = Vec::new();
    let mut r: Vec<CaptureSource> = Vec::new();
    let mut i: usize = 0;
    while windows.len() > 0
        invariant
            total == orig.len(),
            i + windows@.len() == orig.len(),
            windows@ == orig.subrange(i as int, orig.len() as int),
            empty_thumbnail@ == Seq::<u8>::empty(),
            r@.len() == i,
            forall|j: int|
                0 <= j < i ==> source_matches_window(#[trigger] r@[j], orig[j], Seq::<u8>::empty()),
        decreases windows@.len(),
    {
        let w = windows.remove(0);
        proof {
            assert(w == orig[i as int]);
            assert(windows@ =~= orig.subrange(i + 1, orig.len() as int));
        }
        r.push(window_source(w, &empty_thumbnail));
        i = i + 1;
    }
    r
}

impl CaptureManager {
    /// The active streams, by canonical id.
    pub closed spec fn active(&self) -> Map<Seq<char>, CaptureStream> {
        stream_map_contents(self.active_streams)
    }

    /// A fresh manager with no active streams.
    pub fn new() -> (r: CaptureManager)
        ensures
            r.active() == no_streams(),
    {
        let mut active_streams = stream_map_new();
        stream_map_clear(&mut active_streams);
        CaptureManager { active_streams, capture_device: CaptureDevice::new() }
    }

    /// Whether a stream for `id` is currently active.
    pub fn is_active(&self, id: &str) -> (r: bool)
        ensures
            r == self.active().contains_key(id@),
    {
        stream_map_contains(&self.active_streams, id)
    }

    /// Lists the capturable monitors for the UI.
    pub fn get_monitors(&self, config: CaptureConfig) -> (r: Result<Vec<CaptureSource>, CaptureError>)
        ensures
            r matches Ok(v) && v@.len() == 0,
    {
        match self.capture_device.enumerate_monitors() {
            Ok(monitors) => Ok(build_monitor_sources(monitors)),
            Err(e) => Err(e),
        }
    }

    /// Lists the capturable windows for the UI.
    pub fn get_windows(&self, config: CaptureConfig) -> (r: Result<Vec<CaptureSource>, CaptureError>)
        ensures
            r matches Ok(v) && v@.len() == 0,
    {
        match self.capture_device.enumerate_windows() {
            Ok(windows) => Ok(build_window_sources(windows)),
            Err(e) => Err(e),
        }
    }

    /// Describes one monitor, with a single-shot thumbnail; without a
    /// platform backend the lookup itself reports the platform error.
    pub fn get_monitor_by_hmonitor(&self, hmonitor: isize, config: CaptureConfig) -> (r: Result<
        CaptureSource,
        CaptureError,
    >)
        ensures
            r matches Ok(s) ==> exists|m: MonitorInfo|
                #![auto]
                m.hmonitor == hmonitor && source_matches_monitor(s, m, Seq::<u8>::empty()),
            r matches Err(e) && e matches CaptureError::PlatformError(m) && m@
                == not_supported_spec(),
    {
        match self.capture_device.get_monitor_info(hmonitor) {
            Ok(monitor) => {
                let empty_thumbnail: Vec<u8> = Vec::new();
                proof {
                    assert(monitor.hmonitor == hmonitor);
                }
                Ok(monitor_source(monitor, &empty_thumbnail))
            },
            Err(e) => Err(e),
        }
    }

    /// Describes one window, with a single-shot thumbnail; without a
    /// platform backend the lookup itself reports the platform error.
    pub fn get_window_by_hwnd(&self, hwnd: isize, config: CaptureConfig) -> (r: Result<
        CaptureSource,
        CaptureError,
    >)
        ensures
            r matches Ok(s) ==> exists|w: WindowInfo|
                #![auto]
                w.hwnd == hwnd && source_matches_window(s, w, Seq::<u8>::empty()),
            r matches Err(e) && e matches CaptureError::PlatformError(m) && m@
                == not_supported_spec(),
    {
        match self.capture_device.get_window_info(hwnd) {
            Ok(window) => {
                let empty_thumbnail: Vec<u8> = Vec::new();
                proof {
                    assert(window.hwnd == hwnd);
                }
                Ok(window_source(window, &empty_thumbnail))
            },
            Err(e) => Err(e),
        }
    }

    /// The audio render endpoints.
    pub fn get_audio_devices(&self) -> (r: Result<Vec<AudioDevice>, CaptureError>)
        ensures
            r matches Ok(v) && v@.len() == 0,
    {
        self.capture_device.enumerate_audio_devices()
    }

    /// Starts a preview stream for one source.
    ///
    /// The config is rejected first, before any resource opens. Then the
    /// id is claimed with one atomic check-and-insert, so of two racing
    /// starts exactly one claims it and the other answers
    /// `CaptureAlreadyActive`. On the winning path the signaling session
    /// and its track are registered before this returns: a started stream
    /// always has a sink.
    pub fn start_preview(
        &mut self,
        server: &mut WebRTCServer,
        source_type: CaptureSourceType,
        config: CaptureConfig,
    ) -> (r: Result<(), CaptureError>)
        requires
            old(server).wf(),
        ensures
            final(server).wf(),
            !config.valid() ==> ({
                &&& r matches Err(e) && e is InvalidConfig
                &&& final(self).active() == old(self).active()
                &&& final(server).sessions() == old(server).sessions()
            }),
            config.valid() && old(self).active().contains_key(to_id_spec(source_type)) ==> ({
                &&& r matches Err(e) && e matches CaptureError::CaptureAlreadyActive(m) && m@
                    == to_id_spec(source_type)
                &&& final(self).active() == old(self).active()
                &&& final(server).sessions() == old(server).sessions()
            }),
            config.valid() && !old(self).active().contains_key(to_id_spec(source_type)) ==> ({
                &&& r is Ok
                &&& final(self).active().contains_key(to_id_spec(source_type))
                &&& ({
                    let entry = final(self).active()[to_id_spec(source_type)];
                    entry.id@ == to_id_spec(source_type) && entry.source_type == source_type
                        && entry.config == config
                })
                &&& final(self).active() == old(self).active().insert(
                    to_id_spec(source_type),
                    final(self).active()[to_id_spec(source_type)],
                )
                &&& final(server).sessions() == old(server).sessions().insert(
                    to_id_spec(source_type),
                    PreviewState::Created,
                )
            }),
    {
        if !config.is_valid() {
            return Err(
                CaptureError::InvalidConfig(
                    String::from_str("fps, width and height must be positive"),
                ),
            );
        }
        let id = source_type.to_id();
        let stream = CaptureStream { id: id.clone(), source_type, config };
        if !stream_map_try_insert(&mut self.active_streams, id.as_str(), stream) {
            return Err(CaptureError::CaptureAlreadyActive(id));
        }
        let track = server.create_preview_track(id.as_str());
        match track {
            Ok(_) => Ok(()),
            Err(e) => Err(e),
        }
    }

    /// Stops the preview stream for `id` and tears its signaling session
    /// down with it. Stopping an id that is not active is a no-op, not an
    /// error: stop is idempotent.
    pub fn stop_preview(&mut self, server: &mut WebRTCServer, id: &str) -> (r: Result<
        (),
        CaptureError,
    >)
        requires
            old(server).wf(),
        ensures
            final(server).wf(),
            r is Ok,
            final(self).active() == old(self).active().remove(id@),
            final(server).sessions() == old(server).sessions().remove(id@),
    {
        let _removed = stream_map_remove(&mut self.active_streams, id);
        server.close_preview(id);
        Ok(())
    }
}

/// Law: when a source is not active, a start claims its id, and any
/// further start for the same id finds it claimed. With the registry's
/// check-and-insert being one atomic step, of two racing starts with an
/// acceptable config exactly one inserts and succeeds; the other answers
/// `CaptureAlreadyActive`, as `start_preview`'s contract states for a
/// claimed id. (An unacceptable config is rejected before the id is ever
/// examined, so the race presupposes a valid config.)
pub proof fn lemma_start_exclusive(
    active: Map<Seq<char>, CaptureStream>,
    entry: CaptureStream,
    t: CaptureSourceType,
)
    requires
        !active.contains_key(to_id_spec(t)),
    ensures
        active.insert(to_id_spec(t), entry).contains_key(to_id_spec(t)),
        active.insert(to_id_spec(t), entry) != active,
{
    assert(active.insert(to_id_spec(t), entry).contains_key(to_id_spec(t)));
}

/// Law: after a start of a source succeeds, stopping it always succeeds
/// (`stop_preview` returns nothing but `Ok`), and a second stop is a
/// no-op: the first stop leaves the id inactive, and removing an absent
/// id changes nothing.
pub proof fn lemma_stop_idempotent(
    active: Map<Seq<char>, CaptureStream>,
    entry: CaptureStream,
    t: CaptureSourceType,
)
    ensures
        ({
            let id = to_id_spec(t);
            let started = active.insert(id, entry);
            let stopped = started.remove(id);
            let stopped_again = stopped.remove(id);
            !stopped.contains_key(id) && stopped_again == stopped
        }),
{
    let id = to_id_spec(t);
    let stopped = active.insert(id, entry).remove(id);
    assert(stopped.remove(id) =~= stopped);
}

/// Law: the signaling sessions track the active streams exactly — a peer
/// session never outlives its stream, and a stream always has its session.
/// A start inserts the stream and its session under the same id, and a
/// stop removes both, so the correspondence of the two registries is
/// preserved by both transitions.
pub proof fn lemma_sessions_track_streams(
    active: Map<Seq<char>, CaptureStream>,
    sessions: Map<Seq<char>, PreviewState>,
    entry: CaptureStream,
    state: PreviewState,
    id: Seq<char>,
)
    requires
        active.dom() == sessions.dom(),
    ensures
        active.insert(id, entry).dom() == sessions.insert(id, state).dom(),
        active.remove(id).dom() == sessions.remove(id).dom(),
{
    assert(active.insert(id, entry).dom() =~= sessions.insert(id, state).dom());
    assert(active.remove(id).dom() =~= sessions.remove(id).dom());
}

} // verus!
