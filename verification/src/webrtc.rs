//! The per-stream signaling state machine.
//!
//! Each active stream, keyed by its canonical string id, owns at most one
//! signaling session. A session is `Created` when the media track exists but
//! no peer connection; `Offered` once a local offer was produced and the
//! peer connection stored; `Negotiated` once the remote answer was applied.
//! Closing removes the session: every operation on a closed or unknown id
//! reports `SourceNotFound`.
//!
//! The transport itself (peer connections, tracks, SDP and ICE handling)
//! runs in the embedding shell; this type is the single source of truth for
//! which sessions exist and what each one may do next.

use vstd::prelude::*;

use crate::dto::CaptureError;
use crate::dto::PreviewOffer;

verus! {

/// The signaling state of one preview session. A closed session is absent
/// from the server rather than in a terminal state.
#[derive(Debug, Clone, Copy, PartialEq, Eq, Structural)]
pub enum PreviewState {
    /// The track exists; no peer connection yet.
    Created,
    /// A peer connection exists and the local offer is set.
    Offered,
    /// The remote answer has been applied.
    Negotiated,
}

/// One preview session: the stream it belongs to and how far signaling got.
pub struct PreviewConnection {
    pub stream_id: String,
    pub state: PreviewState,
}

/// The signaling server: every live session, at most one per stream id.
pub struct WebRTCServer {
    connections: Vec<PreviewConnection>,
}

/// The sessions a connection list holds, as a map from id to state. Later
/// entries win, so on a well-formed list this is exact.
pub open spec fn sessions_map(s: Seq<PreviewConnection>) -> Map<Seq<char>, PreviewState>
    decreases s.len(),
{
    if s.len() == 0 {
        Map::empty()
    } else {
        sessions_map(s.drop_last()).insert(s.last().stream_id@, s.last().state)
    }
}

/// Whether a connection list names each stream id at most once.
pub open spec fn distinct_ids(s: Seq<PreviewConnection>) -> bool {
    forall|i: int, j: int|
        0 <= i < j < s.len() ==> (#[trigger] s[i].stream_id@) != (#[trigger] s[j].stream_id@)
}

/// A key is in the session map exactly when some entry carries it.
proof fn lemma_sessions_map_contains(s: Seq<PreviewConnection>, id: Seq<char>)
    ensures
        sessions_map(s).contains_key(id) <==> exists|i: int|
            0 <= i < s.len() && (#[trigger] s[i].stream_id@) == id,
    decreases s.len(),
{
    if s.len() == 0 {
    } else {
        lemma_sessions_map_contains(s.drop_last(), id);
        if s.last().stream_id@ == id {
            assert(s[s.len() - 1].stream_id@ == id);
        } else {
            if sessions_map(s).contains_key(id) {
                let i = choose|i: int|
                    0 <= i < s.drop_last().len() && (#[trigger] s.drop_last()[i].stream_id@) == id;
                assert(s[i].stream_id@ == id);
            }
            if exists|i: int| 0 <= i < s.len() && (#[trigger] s[i].stream_id@) == id {
                let i = choose|i: int| 0 <= i < s.len() && (#[trigger] s[i].stream_id@) == id;
                assert(i < s.len() - 1);
                assert(s.drop_last()[i].stream_id@ == id);
            }
        }
    }
}

/// On a well-formed list, the map holds each entry's state under its id.
proof fn lemma_sessions_map_value(s: Seq<PreviewConnection>, i: int)
    requires
        0 <= i < s.len(),
        distinct_ids(s),
    ensures
        sessions_map(s).contains_key(s[i].stream_id@),
        sessions_map(s)[s[i].stream_id@] == s[i].state,
    decreases s.len(),
{
    if i == s.len() - 1 {
    } else {
        assert(distinct_ids(s.drop_last()));
        assert(s.drop_last()[i] == s[i]);
        lemma_sessions_map_value(s.drop_last(), i);
        assert(s.last().stream_id@ != s[i].stream_id@);
    }
}

/// Replacing an entry by one with the same id updates the map at that id.
proof fn lemma_sessions_map_update(s: Seq<PreviewConnection>, i: int, c: PreviewConnection)
    requires
        0 <= i < s.len(),
        distinct_ids(s),
        c.stream_id@ == s[i].stream_id@,
    ensures
        sessions_map(s.update(i, c)) =~= sessions_map(s).insert(c.stream_id@, c.state),
    decreases s.len(),
{
    let s2 = s.update(i, c);
    if i == s.len() - 1 {
        assert(s2.drop_last() =~= s.drop_last());
        assert(s2.last() == c);
    } else {
        assert(distinct_ids(s.drop_last()));
        assert(s.drop_last()[i] == s[i]);
        lemma_sessions_map_update(s.drop_last(), i, c);
        assert(s2.drop_last() =~= s.drop_last().update(i, c));
        assert(s2.last() == s.last());
        assert(s.last().stream_id@ != c.stream_id@);
    }
}

/// Removing an entry removes exactly its id from the map.
proof fn lemma_sessions_map_remove(s: Seq<PreviewConnection>, i: int)
    requires
        0 <= i < s.len(),
        distinct_ids(s),
    ensures
        sessions_map(s.remove(i)) =~= sessions_map(s).remove(s[i].stream_id@),
    decreases s.len(),
{
    if i == s.len() - 1 {
        assert(s.remove(i) =~= s.drop_last());
        lemma_sessions_map_contains(s.drop_last(), s[i].stream_id@);
        assert(forall|j: int|
            0 <= j < s.drop_last().len() ==> (#[trigger] s.drop_last()[j].stream_id@)
                != s[i].stream_id@);
        assert(!sessions_map(s.drop_last()).contains_key(s[i].stream_id@));
    } else {
        assert(distinct_ids(s.drop_last()));
        assert(s.drop_last()[i] == s[i]);
        lemma_sessions_map_remove(s.drop_last(), i);
        assert(s.remove(i).drop_last() =~= s.drop_last().remove(i));
        assert(s.remove(i).last() == s.last());
        assert(s.last().stream_id@ != s[i].stream_id@);
    }
}

impl WebRTCServer {
    /// The sessions this server holds, by stream id.
    pub closed spec fn sessions(&self) -> Map<Seq<char>, PreviewState> {
        sessions_map(self.connections@)
    }

    /// The server's internal invariant: one session per id.
    pub closed spec fn wf(&self) -> bool {
        distinct_ids(self.connections@)
    }

    /// A fresh server with no sessions.
    pub fn new() -> (r: WebRTCServer)
        ensures
            r.wf(),
            r.sessions() == Map::<Seq<char>, PreviewState>::empty(),
    {
        WebRTCServer { connections: Vec::new() }
    }

    /// The index of the session for `id`, if one exists.
    fn find_session(&self, id: &str) -> (r: Option<usize>)
        ensures
            match r {
                Some(i) => i < self.connections@.len() && self.connections@[i as int].stream_id@
                    == id@,
                None => !self.sessions().contains_key(id@),
            },
    {
        let mut i: usize = 0;
        while i < self.connections.len()
            invariant
                i <= self.connections@.len(),
                forall|j: int|
                    0 <= j < i ==> (#[trigger] self.connections@[j].stream_id@) != id@,
            decreases self.connections@.len() - i,
        {
            if crate::text::str_equal(self.connections[i].stream_id.as_str(), id) {
                return Some(i);
            }
            i = i + 1;
        }
        proof {
            lemma_sessions_map_contains(self.connections@, id@);
        }
        None
    }

    /// Registers the session for a newly started stream: its track exists
    /// from this moment, so frames are never dropped for lack of a sink.
    /// Re-registering an id resets its session to `Created`.
    pub fn create_preview_track(&mut self, id: &str) -> (r: Result<(), CaptureError>)
        requires
            old(self).wf(),
        ensures
            final(self).wf(),
            final(self).sessions() == old(self).sessions().insert(id@, PreviewState::Created),
            r is Ok,
    {
        let entry = PreviewConnection {
            stream_id: id.to_owned(),
            state: PreviewState::Created,
        };
        match self.find_session(id) {
            Some(i) => {
                proof {
                    lemma_sessions_map_update(self.connections@, i as int, entry);
                }
                let _ = self.connections.set(i, entry);
            },
            None => {
                proof {
                    assert(self.connections@.push(entry).drop_last() =~= self.connections@);
                    lemma_sessions_map_contains(self.connections@, id@);
                }
                self.connections.push(entry);
            },
        }
        Ok(())
    }

    /// Records that a local offer for `id` was produced with description
    /// `sdp`: the peer connection now exists and the session is `Offered`.
    /// Before the stream is started (or after it stops) there is no session,
    /// and the answer is `SourceNotFound`.
    pub fn get_preview_offer(&mut self, id: &str, sdp: String) -> (r: Result<
        PreviewOffer,
        CaptureError,
    >)
        requires
            old(self).wf(),
        ensures
            final(self).wf(),
            !old(self).sessions().contains_key(id@) ==> {
                &&& r matches Err(e) && e matches CaptureError::SourceNotFound(m) && m@ == id@
                &&& final(self).sessions() == old(self).sessions()
            },
            old(self).sessions().contains_key(id@) ==> {
                &&& r matches Ok(o) && o.id@ == id@ && o.sdp == sdp
                &&& final(self).sessions() == old(self).sessions().insert(
                    id@,
                    PreviewState::Offered,
                )
            },
    {
        match self.find_session(id) {
            Some(i) => {
                let entry = PreviewConnection {
                    stream_id: id.to_owned(),
                    state: PreviewState::Offered,
                };
                proof {
                    lemma_sessions_map_value(self.connections@, i as int);
                    lemma_sessions_map_update(self.connections@, i as int, entry);
                }
                let _ = self.connections.set(i, entry);
                Ok(PreviewOffer { id: id.to_owned(), sdp })
            },
            None => Err(CaptureError::SourceNotFound(id.to_owned())),
        }
    }

    /// Applies the remote answer for `id`: valid once the session is
    /// `Offered` (or already `Negotiated`); the session becomes
    /// `Negotiated`. Without a peer connection — unknown id or a session
    /// still in `Created` — the answer is `SourceNotFound`.
    pub fn accept_preview_answer(&mut self, id: &str, sdp: String) -> (r: Result<
        (),
        CaptureError,
    >)
        requires
            old(self).wf(),
        ensures
            final(self).wf(),
            (!old(self).sessions().contains_key(id@) || old(self).sessions()[id@]
                == PreviewState::Created) ==> {
                &&& r matches Err(e) && e matches CaptureError::SourceNotFound(m) && m@ == id@
                &&& final(self).sessions() == old(self).sessions()
            },
            (old(self).sessions().contains_key(id@) && old(self).sessions()[id@]
                != PreviewState::Created) ==> {
                &&& r is Ok
                &&& final(self).sessions() == old(self).sessions().insert(
                    id@,
                    PreviewState::Negotiated,
                )
            },
    {
        match self.find_session(id) {
            Some(i) => {
                proof {
                    lemma_sessions_map_value(self.connections@, i as int);
                }
                match self.connections[i].state {
                    PreviewState::Created => Err(CaptureError::SourceNotFound(id.to_owned())),
                    _ => {
                        let entry = PreviewConnection {
                            stream_id: id.to_owned(),
                            state: PreviewState::Negotiated,
                        };
                        proof {
                            lemma_sessions_map_update(self.connections@, i as int, entry);
                        }
                        let _ = self.connections.set(i, entry);
                        Ok(())
                    },
                }
            },
            None => Err(CaptureError::SourceNotFound(id.to_owned())),
        }
    }

    /// Records one trickled remote candidate for `id`: valid exactly while
    /// the session has a peer connection (`Offered` or `Negotiated`). On an
    /// unknown or closed id, or a session without a peer connection, the
    /// answer is `SourceNotFound`; the sessions never change.
    pub fn add_preview_ice_candidate(
        &mut self,
        id: String,
        candidate: String,
        sdp_mid: Option<String>,
        sdp_mline_index: Option<u16>,
    ) -> (r: Result<(), CaptureError>)
        requires
            old(self).wf(),
        ensures
            final(self).wf(),
            final(self).sessions() == old(self).sessions(),
            (!old(self).sessions().contains_key(id@) || old(self).sessions()[id@]
                == PreviewState::Created) ==> (r matches Err(e) && e
                matches CaptureError::SourceNotFound(m) && m@ == id@),
            (old(self).sessions().contains_key(id@) && old(self).sessions()[id@]
                != PreviewState::Created) ==> r is Ok,
    {
        match self.find_session(id.as_str()) {
            Some(i) => {
                proof {
                    lemma_sessions_map_value(self.connections@, i as int);
                }
                match self.connections[i].state {
                    PreviewState::Created => Err(CaptureError::SourceNotFound(id)),
                    _ => Ok(()),
                }
            },
            None => Err(CaptureError::SourceNotFound(id)),
        }
    }

    /// Closes the session for `id`, if any: the peer connection and track go
    /// away and the id becomes unknown. Closing an unknown id is a no-op.
    pub fn close_preview(&mut self, id: &str)
        requires
            old(self).wf(),
        ensures
            final(self).wf(),
            final(self).sessions() == old(self).sessions().remove(id@),
    {
        match self.find_session(id) {
            Some(i) => {
                proof {
                    lemma_sessions_map_remove(self.connections@, i as int);
                    assert(sessions_map(self.connections@).remove(
                        self.connections@[i as int].stream_id@,
                    ) =~= sessions_map(self.connections@).remove(id@));
                }
                let _ = self.connections.remove(i);
            },
            None => {
                proof {
                    assert(sessions_map(self.connections@).remove(id@) =~= sessions_map(
                        self.connections@,
                    ));
                }
            },
        }
    }

    /// Closes every session.
    pub fn close_all_previews(&mut self)
        requires
            old(self).wf(),
        ensures
            final(self).wf(),
            final(self).sessions() == Map::<Seq<char>, PreviewState>::empty(),
    {
        self.connections = Vec::new();
    }
}

} // verus!
