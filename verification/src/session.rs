//! Per-peer sessions and the mesh manager that owns them.
//!
//! A session walks the negotiation states `New -> OfferSent | OfferReceived
//! -> AnswerPending -> Connected -> Closed`. The manager is the single owner
//! of the session map, decides every transition, and prepares the payloads
//! (encoded descriptions, serialized control messages) that the transport
//! layer then carries; the transport itself, and its asynchronous delivery
//! of inbound channels, stays outside.

use vstd::prelude::*;

use crate::signaling::{render, ConnectionOffer, SignalingMessage};

verus! {

broadcast use vstd::string::to_string_from_display_ensures_for_str;

/// Negotiation state of one peer session.
#[derive(Clone, Copy, PartialEq, Eq, Structural, Debug)]
pub enum SessionState {
    /// Created, nothing exchanged yet.
    New,
    /// A local offer went out; waiting for the remote answer.
    OfferSent,
    /// A remote offer arrived but no answer was produced yet.
    OfferReceived,
    /// A remote offer was answered; waiting for the inbound channel.
    AnswerPending,
    /// Description exchange complete; sending may begin.
    Connected,
    /// Torn down; the id may be reused by a fresh session.
    Closed,
}

/// Why a mesh operation could not be carried out.
#[derive(Clone, Copy, PartialEq, Eq, Structural, Debug)]
pub enum MeshError {
    /// No session exists for the peer id.
    NoSession,
    /// The session has no attached control channel yet.
    NoChannel,
    /// The offered text is not a base64-encoded description.
    BadEncoding,
}

impl MeshError {
    /// Human-readable error text.
    pub fn message(&self) -> String {
        match self {
            MeshError::NoSession => "no session for peer".to_string(),
            MeshError::NoChannel => "no control channel for peer".to_string(),
            MeshError::BadEncoding => "malformed base64 description".to_string(),
        }
    }
}

/// Identity of a peer as listed to the application layer.
#[derive(Debug)]
pub struct PeerInfo {
    /// Identifier the mesh routes by.
    pub peer_id: String,
    /// The remote user's name.
    pub username: String,
}

/// One peer's bundle of negotiation state and logical channels.
#[derive(Debug)]
pub struct PeerSession {
    /// Identifier the mesh routes by.
    pub peer_id: String,
    /// The remote user's name.
    pub username: String,
    /// Where this session stands in the negotiation.
    pub state: SessionState,
    /// Whether the reliable control channel is in place.
    pub control_attached: bool,
    /// Whether a send-capable media channel was set up (only when local
    /// audio was enabled at session creation).
    pub media_send: bool,
}

/// Base64 text of a byte sequence under the standard padded alphabet.
pub uninterp spec fn b64_of(bytes: Seq<u8>) -> Seq<char>;

/// Relies on the base64 crate's standard padded encoder.
#[verifier::external_body]
pub(crate) fn b64_encode(data: &Vec<u8>) -> (r: String)
    ensures
        r@ == b64_of(data@),
{
    base64::Engine::encode(&base64::engine::general_purpose::STANDARD, data)
}

/// Relies on the base64 crate's standard padded decoder. The `STANDARD`
/// engine demands canonical padding and rejects non-zero trailing bits, so
/// exactly the texts the encoder produces decode, each to the bytes that
/// produced it.
#[verifier::external_body]
fn b64_decode(s: &str) -> (r: Result<Vec<u8>, String>)
    ensures
        r matches Ok(v) ==> s@ == b64_of(v@) && (forall|w: Seq<u8>| b64_of(w) == s@ ==> w == v@),
        r is Err ==> forall|w: Seq<u8>| b64_of(w) != s@,
{
    match base64::Engine::decode(&base64::engine::general_purpose::STANDARD, s) {
        Ok(v) => Ok(v),
        Err(e) => Err(format!("{}", e)),
    }
}

/// Whether some session carries this peer id with its control channel
/// attached.
pub open spec fn has_attached(sessions: Seq<PeerSession>, id: Seq<char>) -> bool {
    exists|k: int|
        0 <= k < sessions.len() && (#[trigger] sessions[k]).peer_id@ == id
            && sessions[k].control_attached
}

/// Whether some session carries this peer id with a send-capable media
/// channel.
pub open spec fn has_media(sessions: Seq<PeerSession>, id: Seq<char>) -> bool {
    exists|k: int|
        0 <= k < sessions.len() && (#[trigger] sessions[k]).peer_id@ == id && sessions[k].media_send
}

/// Ids of the sessions with an attached control channel, in session
/// order.
pub open spec fn attached_ids(sessions: Seq<PeerSession>) -> Seq<String>
    decreases sessions.len(),
{
    if sessions.len() == 0 {
        Seq::empty()
    } else {
        let rest = attached_ids(sessions.drop_last());
        if sessions.last().control_attached {
            rest.push(sessions.last().peer_id)
        } else {
            rest
        }
    }
}

/// Ids of the sessions with a send-capable media channel, in session
/// order.
pub open spec fn media_ids(sessions: Seq<PeerSession>) -> Seq<String>
    decreases sessions.len(),
{
    if sessions.len() == 0 {
        Seq::empty()
    } else {
        let rest = media_ids(sessions.drop_last());
        if sessions.last().media_send {
            rest.push(sessions.last().peer_id)
        } else {
            rest
        }
    }
}

/// Whether the id list contains this peer id.
pub open spec fn contains_id(ids: Seq<String>, id: Seq<char>) -> bool {
    exists|j: int| 0 <= j < ids.len() && (#[trigger] ids[j])@ == id
}

/// Owner of the peer-session map; entry point for negotiation and for
/// broadcasting control payloads.
pub struct MeshManager {
    /// All live sessions, ids unique.
    pub sessions: Vec<PeerSession>,
    /// The local user's name, once set.
    pub local_username: Option<String>,
    /// Whether newly created sessions get a send-capable media channel.
    pub local_audio_enabled: bool,
}

impl MeshManager {
    /// Invariant: one session per peer id.
    pub open spec fn wf(&self) -> bool {
        forall|i: int, j: int|
            0 <= i < j < self.sessions@.len() ==> self.sessions@[i].peer_id@
                != self.sessions@[j].peer_id@
    }

    /// Fresh manager: no sessions, no username, audio off.
    pub fn new() -> (r: MeshManager)
        ensures
            r.wf(),
            r.sessions@.len() == 0,
            r.local_username is None,
            !r.local_audio_enabled,
    {
        MeshManager { sessions: Vec::new(), local_username: None, local_audio_enabled: false }
    }

    /// Record the local user's name.
    pub fn set_username(&mut self, username: String)
        requires
            old(self).wf(),
        ensures
            final(self).wf(),
            final(self).local_username matches Some(u) && u == username,
            final(self).sessions@ == old(self).sessions@,
            final(self).local_audio_enabled == old(self).local_audio_enabled,
    {
        self.local_username = Some(username);
    }

    /// The local user's name, if set.
    pub fn get_local_username(&self) -> (r: Option<String>)
        ensures
            match r {
                Some(u) => self.local_username matches Some(v) && u == v,
                None => self.local_username is None,
            },
    {
        match &self.local_username {
            Some(u) => Some(u.clone()),
            None => None,
        }
    }

    /// Turn local audio on or off for sessions created from now on;
    /// existing sessions keep their channels (no renegotiation).
    pub fn enable_local_audio(&mut self, enabled: bool)
        requires
            old(self).wf(),
        ensures
            final(self).wf(),
            final(self).local_audio_enabled == enabled,
            final(self).sessions@ == old(self).sessions@,
            final(self).local_username == old(self).local_username,
    {
        self.local_audio_enabled = enabled;
    }

    /// Whether new sessions get a send-capable media channel.
    pub fn is_audio_enabled(&self) -> (r: bool)
        ensures
            r == self.local_audio_enabled,
    {
        self.local_audio_enabled
    }

    /// Number of live sessions.
    pub fn peer_count(&self) -> (r: usize)
        ensures
            r == self.sessions@.len(),
    {
        self.sessions.len()
    }

    /// Usernames of all live sessions, in insertion order.
    pub fn get_connected_peers(&self) -> (r: Vec<String>)
        ensures
            r@.len() == self.sessions@.len(),
            forall|i: int|
                0 <= i < r@.len() ==> r@[i]@ == (#[trigger] self.sessions@[i]).username@,
    {
        let mut out: Vec<String> = Vec::new();
        let mut i: usize = 0;
        let n: usize = self.sessions.len();
        while i < n
            invariant
                i <= n,
                n == self.sessions@.len(),
                out@.len() == i,
                forall|j: int|
                    0 <= j < i ==> out@[j]@ == (#[trigger] self.sessions@[j]).username@,
            decreases n - i,
        {
            out.push(self.sessions[i].username.clone());
            i = i + 1;
        }
        out
    }

    /// Index of the session for `peer_id`, if one exists.
    fn find_session(&self, peer_id: &str) -> (r: Option<usize>)
        requires
            self.wf(),
        ensures
            match r {
                Some(ix) => ix < self.sessions@.len() && self.sessions@[ix as int].peer_id@
                    == peer_id@,
                None => forall|i: int|
                    0 <= i < self.sessions@.len() ==> (#[trigger] self.sessions@[i]).peer_id@
                        != peer_id@,
            },
    {
        let key: String = peer_id.to_string();
        let n: usize = self.sessions.len();
        let mut i: usize = 0;
        while i < n
            invariant
                n == self.sessions@.len(),
                i <= n,
                key@ == peer_id@,
                forall|j: int|
                    0 <= j < i ==> (#[trigger] self.sessions@[j]).peer_id@ != peer_id@,
            decreases n - i,
        {
            if self.sessions[i].peer_id == key {
                return Some(i);
            }
            i = i + 1;
        }
        None
    }

    /// Register (or replace) a session for `peer_id` moving it to
    /// `OfferSent`, and encode the local description for the signaling
    /// path. The initiator creates the control channel itself, and a media
    /// channel exactly when local audio is enabled.
    pub fn create_offer_for_peer(
        &mut self,
        peer_id: &str,
        peer_username: &str,
        local_sdp: &Vec<u8>,
    ) -> (r: ConnectionOffer)
        requires
            old(self).wf(),
        ensures
            final(self).wf(),
            final(self).local_username == old(self).local_username,
            final(self).local_audio_enabled == old(self).local_audio_enabled,
            r.is_offer,
            r.sdp_base64@ == b64_of(local_sdp@),
            (exists|i: int|
                0 <= i < old(self).sessions@.len() && (#[trigger] old(self).sessions@[i]).peer_id@
                    == peer_id@) ==> final(self).sessions@.len() == old(self).sessions@.len(),
            (forall|i: int|
                0 <= i < old(self).sessions@.len() ==> (#[trigger] old(self).sessions@[i]).peer_id@
                    != peer_id@) ==> final(self).sessions@.len() == old(self).sessions@.len() + 1,
            exists|ix: int|
                0 <= ix < final(self).sessions@.len() && {
                    let s = #[trigger] final(self).sessions@[ix];
                    &&& s.peer_id@ == peer_id@
                    &&& s.username@ == peer_username@
                    &&& s.state == SessionState::OfferSent
                    &&& s.control_attached
                    &&& s.media_send == old(self).local_audio_enabled
                },
            forall|j: int|
                0 <= j < old(self).sessions@.len() && (#[trigger] old(self).sessions@[j]).peer_id@ != peer_id@ ==> exists|k: int|
                    0 <= k < final(self).sessions@.len() && final(self).sessions@[k] == old(self).sessions@[j],
    {
        let entry = PeerSession {
            peer_id: peer_id.to_string(),
            username: peer_username.to_string(),
            state: SessionState::OfferSent,
            control_attached: true,
            media_send: self.local_audio_enabled,
        };
        let found = self.find_session(peer_id);
        match found {
            Some(ix) => {
                self.sessions[ix] = entry;
                proof {
                    let gix = ix as int;
                    assert(self.sessions@[gix].peer_id@ == peer_id@);
                    assert forall|j: int|
                        0 <= j < old(self).sessions@.len() && (#[trigger] old(self).sessions@[j]).peer_id@ != peer_id@ implies exists|k: int|
                        0 <= k < self.sessions@.len() && self.sessions@[k] == old(self).sessions@[j] by {
                        assert(self.sessions@[j] == old(self).sessions@[j]);
                    }
                }
            },
            None => {
                self.sessions.push(entry);
                proof {
                    let gix = self.sessions@.len() - 1;
                    assert(self.sessions@[gix].peer_id@ == peer_id@);
                    assert forall|j: int|
                        0 <= j < old(self).sessions@.len() && (#[trigger] old(self).sessions@[j]).peer_id@ != peer_id@ implies exists|k: int|
                        0 <= k < self.sessions@.len() && self.sessions@[k] == old(self).sessions@[j] by {
                        assert(self.sessions@[j] == old(self).sessions@[j]);
                    }
                }
            },
        }
        ConnectionOffer { sdp_base64: b64_encode(local_sdp), is_offer: true }
    }

    /// Accept a remote offer: decode it, register (or replace) the session
    /// directly in `AnswerPending`, and hand back the encoded local answer
    /// together with the decoded remote description for the transport. The
    /// inbound control channel arrives asynchronously and is attached via
    /// `attach_control_channel`.
    ///
    /// Fails with `BadEncoding` exactly when the text is not base64.
    pub fn accept_offer_from_peer(
        &mut self,
        peer_id: &str,
        peer_username: &str,
        offer_base64: &str,
        local_answer_sdp: &Vec<u8>,
    ) -> (r: Result<(ConnectionOffer, Vec<u8>), MeshError>)
        requires
            old(self).wf(),
        ensures
            final(self).wf(),
            final(self).local_username == old(self).local_username,
            final(self).local_audio_enabled == old(self).local_audio_enabled,
            r is Err <==> (forall|w: Seq<u8>| b64_of(w) != offer_base64@),
            r matches Err(e) ==> e == MeshError::BadEncoding && *final(self) == *old(self),
            r matches Ok(p) ==> {
                &&& !p.0.is_offer
                &&& p.0.sdp_base64@ == b64_of(local_answer_sdp@)
                &&& b64_of(p.1@) == offer_base64@
                &&& ((exists|i: int|
                    0 <= i < old(self).sessions@.len() && (#[trigger] old(
                        self,
                    ).sessions@[i]).peer_id@ == peer_id@) ==> final(self).sessions@.len() == old(
                    self,
                ).sessions@.len())
                &&& ((forall|i: int|
                    0 <= i < old(self).sessions@.len() ==> (#[trigger] old(
                        self,
                    ).sessions@[i]).peer_id@ != peer_id@) ==> final(self).sessions@.len() == old(
                    self,
                ).sessions@.len() + 1)
                &&& (forall|j: int|
                    0 <= j < old(self).sessions@.len() && (#[trigger] old(
                        self,
                    ).sessions@[j]).peer_id@ != peer_id@ ==> exists|k: int|
                        0 <= k < final(self).sessions@.len() && final(self).sessions@[k] == old(
                            self,
                        ).sessions@[j])
                &&& exists|ix: int|
                    0 <= ix < final(self).sessions@.len() && {
                        let s = #[trigger] final(self).sessions@[ix];
                        &&& s.peer_id@ == peer_id@
                        &&& s.username@ == peer_username@
                        &&& s.state == SessionState::AnswerPending
                        &&& !s.control_attached
                        &&& s.media_send == old(self).local_audio_enabled
                    }
            },
    {
        let decoded: Vec<u8> = match b64_decode(offer_base64) {
            Ok(v) => v,
            Err(_) => {
                return Err(MeshError::BadEncoding);
            },
        };
        let entry = PeerSession {
            peer_id: peer_id.to_string(),
            username: peer_username.to_string(),
            state: SessionState::AnswerPending,
            control_attached: false,
            media_send: self.local_audio_enabled,
        };
        let found = self.find_session(peer_id);
        match found {
            Some(ix) => {
                self.sessions[ix] = entry;
                proof {
                    assert(self.sessions@[ix as int].peer_id@ == peer_id@);
                    assert forall|j: int|
                        0 <= j < old(self).sessions@.len() && (#[trigger] old(
                            self,
                        ).sessions@[j]).peer_id@ != peer_id@ implies exists|k: int|
                        0 <= k < self.sessions@.len() && self.sessions@[k] == old(
                            self,
                        ).sessions@[j] by {
                        assert(self.sessions@[j] == old(self).sessions@[j]);
                    }
                }
            },
            None => {
                self.sessions.push(entry);
                proof {
                    assert(self.sessions@[self.sessions@.len() - 1].peer_id@ == peer_id@);
                    assert forall|j: int|
                        0 <= j < old(self).sessions@.len() && (#[trigger] old(
                            self,
                        ).sessions@[j]).peer_id@ != peer_id@ implies exists|k: int|
                        0 <= k < self.sessions@.len() && self.sessions@[k] == old(
                            self,
                        ).sessions@[j] by {
                        assert(self.sessions@[j] == old(self).sessions@[j]);
                    }
                }
            },
        }
        Ok((ConnectionOffer { sdp_base64: b64_encode(local_answer_sdp), is_offer: false }, decoded))
    }

    /// Accept the remote answer for a session this side offered to: decode
    /// it and, for a session in `OfferSent`, move to `Connected`
    /// (description exchange completion is treated as sufficient to begin
    /// sending). The decoded answer is handed back for the transport.
    ///
    /// Fails with `NoSession` exactly when no session exists for the id,
    /// and with `BadEncoding` exactly when the session exists but the text
    /// is not base64.
    pub fn accept_answer_from_peer(&mut self, peer_id: &str, answer_base64: &str) -> (r: Result<
        Vec<u8>,
        MeshError,
    >)
        requires
            old(self).wf(),
        ensures
            final(self).wf(),
            final(self).local_username == old(self).local_username,
            final(self).local_audio_enabled == old(self).local_audio_enabled,
            r == Err::<Vec<u8>, MeshError>(MeshError::NoSession) <==> (forall|i: int|
                0 <= i < old(self).sessions@.len() ==> (#[trigger] old(self).sessions@[i]).peer_id@ != peer_id@),
            r matches Err(e) ==> *final(self) == *old(self) && (e == MeshError::NoSession || e
                == MeshError::BadEncoding),
            r == Err::<Vec<u8>, MeshError>(MeshError::BadEncoding) ==> (forall|w: Seq<u8>|
                b64_of(w) != answer_base64@),
            r matches Ok(v) ==> {
                &&& b64_of(v@) == answer_base64@
                &&& final(self).sessions@.len() == old(self).sessions@.len()
                &&& forall|i: int|
                    0 <= i < old(self).sessions@.len() && (#[trigger] old(self).sessions@[i]).peer_id@ != peer_id@ ==> final(self).sessions@[i] == old(self).sessions@[i]
                &&& forall|i: int|
                    0 <= i < old(self).sessions@.len() && (#[trigger] old(self).sessions@[i]).peer_id@ == peer_id@ ==> {
                        let s0 = old(self).sessions@[i];
                        let s1 = final(self).sessions@[i];
                        &&& s1.peer_id@ == s0.peer_id@
                        &&& s1.username == s0.username
                        &&& s1.control_attached == s0.control_attached
                        &&& s1.media_send == s0.media_send
                        &&& s1.state == (if s0.state == SessionState::OfferSent {
                            SessionState::Connected
                        } else {
                            s0.state
                        })
                    }
            },
    {
        let found = self.find_session(peer_id);
        let ix = match found {
            Some(ix) => ix,
            None => {
                return Err(MeshError::NoSession);
            },
        };
        let decoded: Vec<u8> = match b64_decode(answer_base64) {
            Ok(v) => v,
            Err(_) => {
                return Err(MeshError::BadEncoding);
            },
        };
        if self.sessions[ix].state == SessionState::OfferSent {
            self.sessions[ix].state = SessionState::Connected;
        }
        Ok(decoded)
    }

    /// Attach the asynchronously delivered inbound control channel to the
    /// session; a session waiting in `AnswerPending` becomes `Connected`.
    ///
    /// Fails with `NoSession` exactly when no session exists for the id.
    pub fn attach_control_channel(&mut self, peer_id: &str) -> (r: Result<(), MeshError>)
        requires
            old(self).wf(),
        ensures
            final(self).wf(),
            final(self).local_username == old(self).local_username,
            final(self).local_audio_enabled == old(self).local_audio_enabled,
            r == Err::<(), MeshError>(MeshError::NoSession) <==> (forall|i: int|
                0 <= i < old(self).sessions@.len() ==> (#[trigger] old(self).sessions@[i]).peer_id@ != peer_id@),
            r is Err ==> *final(self) == *old(self),
            r is Ok ==> {
                &&& final(self).sessions@.len() == old(self).sessions@.len()
                &&& forall|i: int|
                    0 <= i < old(self).sessions@.len() && (#[trigger] old(self).sessions@[i]).peer_id@ != peer_id@ ==> final(self).sessions@[i] == old(self).sessions@[i]
                &&& forall|i: int|
                    0 <= i < old(self).sessions@.len() && (#[trigger] old(self).sessions@[i]).peer_id@ == peer_id@ ==> {
                        let s0 = old(self).sessions@[i];
                        let s1 = final(self).sessions@[i];
                        &&& s1.peer_id@ == s0.peer_id@
                        &&& s1.username == s0.username
                        &&& s1.control_attached
                        &&& s1.media_send == s0.media_send
                        &&& s1.state == (if s0.state == SessionState::AnswerPending {
                            SessionState::Connected
                        } else {
                            s0.state
                        })
                    }
            },
    {
        let found = self.find_session(peer_id);
        let ix = match found {
            Some(ix) => ix,
            None => {
                return Err(MeshError::NoSession);
            },
        };
        self.sessions[ix].control_attached = true;
        if self.sessions[ix].state == SessionState::AnswerPending {
            self.sessions[ix].state = SessionState::Connected;
        }
        Ok(())
    }

    /// Remove a peer's session; removing an unknown id is a no-op. The
    /// transport's teardown is fire-and-forget and happens outside; the
    /// session map is the source of truth for routing.
    pub fn remove_peer(&mut self, peer_id: &str)
        requires
            old(self).wf(),
        ensures
            final(self).wf(),
            final(self).local_username == old(self).local_username,
            final(self).local_audio_enabled == old(self).local_audio_enabled,
            (forall|i: int|
                0 <= i < old(self).sessions@.len() ==> (#[trigger] old(self).sessions@[i]).peer_id@ != peer_id@) ==> *final(self) == *old(self),
            forall|ix: int|
                0 <= ix < old(self).sessions@.len() && (#[trigger] old(self).sessions@[ix]).peer_id@ == peer_id@ ==> final(self).sessions@ == old(self).sessions@.remove(ix),
            forall|i: int|
                0 <= i < final(self).sessions@.len() ==> (#[trigger] final(self).sessions@[i]).peer_id@ != peer_id@,
    {
        let found = self.find_session(peer_id);
        if let Some(ix) = found {
            let ghost s0 = self.sessions@;
            self.sessions.remove(ix);
            proof {
                assert forall|i: int, j: int|
                    0 <= i < j < self.sessions@.len() implies self.sessions@[i].peer_id@
                    != self.sessions@[j].peer_id@ by {
                    assert(self.sessions@[i] == if i < ix {
                        s0[i]
                    } else {
                        s0[i + 1]
                    });
                    assert(self.sessions@[j] == if j < ix {
                        s0[j]
                    } else {
                        s0[j + 1]
                    });
                }
                assert forall|ix2: int|
                    0 <= ix2 < s0.len() && s0[ix2].peer_id@ == peer_id@ implies self.sessions@
                    =~= s0.remove(ix2) by {
                    assert(ix2 == ix);
                }
                assert forall|i: int|
                    0 <= i < self.sessions@.len() implies (#[trigger] self.sessions@[i]).peer_id@
                    != peer_id@ by {
                    assert(self.sessions@[i] == if i < ix {
                        s0[i]
                    } else {
                        s0[i + 1]
                    });
                }
            }
        }
    }

    /// Tear down every session.
    pub fn close_all(&mut self)
        requires
            old(self).wf(),
        ensures
            final(self).wf(),
            final(self).sessions@.len() == 0,
            final(self).local_username == old(self).local_username,
            final(self).local_audio_enabled == old(self).local_audio_enabled,
    {
        self.sessions.clear();
    }

    /// Whether any session has a control channel in place.
    pub fn is_connected(&self) -> (r: bool)
        ensures
            r == exists|i: int|
                0 <= i < self.sessions@.len() && (#[trigger] self.sessions@[i]).control_attached,
    {
        let n: usize = self.sessions.len();
        let mut i: usize = 0;
        while i < n
            invariant
                i <= n,
                n == self.sessions@.len(),
                forall|j: int| 0 <= j < i ==> !(#[trigger] self.sessions@[j]).control_attached,
            decreases n - i,
        {
            if self.sessions[i].control_attached {
                return true;
            }
            i = i + 1;
        }
        false
    }

    /// Validate a unicast send: the message comes back as the payload to
    /// hand to the peer's control channel.
    ///
    /// Fails with `NoSession` exactly when no session exists for the id,
    /// and with `NoChannel` exactly when the session has no control channel
    /// attached yet.
    pub fn send_to_peer(&self, peer_id: &str, message: &str) -> (r: Result<String, MeshError>)
        requires
            self.wf(),
        ensures
            r is Ok <==> has_attached(self.sessions@, peer_id@),
            r == Err::<String, MeshError>(MeshError::NoSession) <==> (forall|i: int|
                0 <= i < self.sessions@.len() ==> (#[trigger] self.sessions@[i]).peer_id@
                    != peer_id@),
            r == Err::<String, MeshError>(MeshError::NoChannel) <==> exists|i: int|
                0 <= i < self.sessions@.len() && (#[trigger] self.sessions@[i]).peer_id@
                    == peer_id@ && !self.sessions@[i].control_attached,
            r matches Ok(p) ==> p@ == message@,
    {
        let found = self.find_session(peer_id);
        match found {
            Some(ix) => {
                if self.sessions[ix].control_attached {
                    proof {
                        assert(!(exists|i: int|
                            0 <= i < self.sessions@.len()
                                && (#[trigger] self.sessions@[i]).peer_id@ == peer_id@
                                && !self.sessions@[i].control_attached)) by {
                            assert forall|i: int|
                                0 <= i < self.sessions@.len()
                                    && (#[trigger] self.sessions@[i]).peer_id@ == peer_id@
                                implies self.sessions@[i].control_attached by {
                                if i != ix as int {
                                    assert(self.sessions@[i].peer_id@ != self.sessions@[
                                        ix as int].peer_id@);
                                }
                            }
                        }
                    }
                    Ok(message.to_string())
                } else {
                    Err(MeshError::NoChannel)
                }
            },
            None => Err(MeshError::NoSession),
        }
    }

    /// Ids of the sessions a broadcast reaches: every session whose control
    /// channel is attached, in order. A peer that cannot be reached is
    /// simply absent; delivery is not atomic across peers.
    pub fn broadcast_targets(&self) -> (r: Vec<String>)
        requires
            self.wf(),
        ensures
            r@ == attached_ids(self.sessions@),
            forall|i: int|
                0 <= i < r@.len() ==> has_attached(self.sessions@, (#[trigger] r@[i])@),
            forall|k: int|
                0 <= k < self.sessions@.len() && (#[trigger] self.sessions@[k]).control_attached
                    ==> contains_id(r@, self.sessions@[k].peer_id@),
    {
        let mut out: Vec<String> = Vec::new();
        let n: usize = self.sessions.len();
        let mut i: usize = 0;
        proof {
            assert(self.sessions@.take(0) =~= Seq::<PeerSession>::empty());
        }
        while i < n
            invariant
                i <= n,
                n == self.sessions@.len(),
                out@ == attached_ids(self.sessions@.take(i as int)),
                forall|j: int|
                    0 <= j < out@.len() ==> has_attached(self.sessions@, (#[trigger] out@[j])@),
                forall|k: int|
                    0 <= k < i && (#[trigger] self.sessions@[k]).control_attached ==> contains_id(
                        out@,
                        self.sessions@[k].peer_id@,
                    ),
            decreases n - i,
        {
            proof {
                assert(self.sessions@.take(i + 1).drop_last() =~= self.sessions@.take(i as int));
                assert(self.sessions@.take(i + 1).last() == self.sessions@[i as int]);
            }
            if self.sessions[i].control_attached {
                let ghost out0 = out@;
                out.push(self.sessions[i].peer_id.clone());
                proof {
                    let gi = i as int;
                    let last = out@.len() - 1;
                    assert(out@[last]@ == self.sessions@[gi].peer_id@);
                    assert(has_attached(self.sessions@, out@[last]@));
                    assert forall|k: int|
                        0 <= k < i + 1 && (#[trigger] self.sessions@[k]).control_attached
                        implies contains_id(out@, self.sessions@[k].peer_id@) by {
                        if k < i {
                            let j = choose|j: int|
                                0 <= j < out0.len() && (#[trigger] out0[j])@
                                    == self.sessions@[k].peer_id@;
                            assert(out@[j]@ == self.sessions@[k].peer_id@);
                        } else {
                            assert(out@[last]@ == self.sessions@[k].peer_id@);
                        }
                    }
                }
            } else {
                proof {
                    assert forall|k: int|
                        0 <= k < i + 1 && (#[trigger] self.sessions@[k]).control_attached
                        implies contains_id(out@, self.sessions@[k].peer_id@) by {}
                }
            }
            i = i + 1;
        }
        proof {
            assert(self.sessions@.take(n as int) =~= self.sessions@);
        }
        out
    }

    /// Build the chat payload for a broadcast: the serialized message
    /// (sender defaults to "Anonymous") and the ids it goes to.
    pub fn send_chat_message(&self, content: &str, timestamp: u64) -> (r: (String, Vec<String>))
        requires
            self.wf(),
        ensures
            ({
                let sender = match self.local_username {
                    Some(u) => u@,
                    None => "Anonymous"@,
                };
                exists|sv: String, cv: String|
                    sv@ == sender && cv@ == content@ && r.0@ == render(
                        SignalingMessage::Chat { sender: sv, content: cv, timestamp },
                    )
            }),
            r.1@ == attached_ids(self.sessions@),
            forall|i: int|
                0 <= i < r.1@.len() ==> has_attached(self.sessions@, (#[trigger] r.1@[i])@),
            forall|k: int|
                0 <= k < self.sessions@.len() && (#[trigger] self.sessions@[k]).control_attached
                    ==> contains_id(r.1@, self.sessions@[k].peer_id@),
    {
        let sender: String = match &self.local_username {
            Some(u) => u.clone(),
            None => "Anonymous".to_string(),
        };
        let msg = SignalingMessage::chat(sender, content.to_string(), timestamp);
        let json: String = msg.to_json();
        let targets: Vec<String> = self.broadcast_targets();
        proof {
            if let SignalingMessage::Chat { sender: sv, content: cv, timestamp: tv } = msg {
                assert(sv@ == (match self.local_username {
                    Some(u) => u@,
                    None => "Anonymous"@,
                }));
                assert(cv@ == content@);
            }
        }
        (json, targets)
    }

    /// Build the relay payload that forwards a peer's offer through this
    /// node to `to_peer_id`. Errors exactly as `send_to_peer` does.
    pub fn relay_peer_offer(&self, from_peer_id: &str, to_peer_id: &str, offer_base64: &str) -> (r:
        Result<String, MeshError>)
        requires
            self.wf(),
        ensures
            r matches Ok(p) ==> exists|fv: String, sv: String|
                fv@ == from_peer_id@ && sv@ == offer_base64@ && p@ == render(
                    SignalingMessage::PeerOffer { from_peer: fv, sdp_base64: sv },
                ),
            r is Err ==> !has_attached(self.sessions@, to_peer_id@),
    {
        let msg = SignalingMessage::PeerOffer {
            from_peer: from_peer_id.to_string(),
            sdp_base64: offer_base64.to_string(),
        };
        let json: String = msg.to_json();
        match self.send_to_peer(to_peer_id, json.as_str()) {
            Ok(_) => Ok(json),
            Err(e) => Err(e),
        }
    }

    /// Build the relay payload that forwards a peer's answer through this
    /// node to `to_peer_id`. Errors exactly as `send_to_peer` does.
    pub fn relay_peer_answer(
        &self,
        from_peer_id: &str,
        to_peer_id: &str,
        answer_base64: &str,
    ) -> (r: Result<String, MeshError>)
        requires
            self.wf(),
        ensures
            r matches Ok(p) ==> exists|fv: String, sv: String|
                fv@ == from_peer_id@ && sv@ == answer_base64@ && p@ == render(
                    SignalingMessage::PeerAnswer { from_peer: fv, sdp_base64: sv },
                ),
            r is Err ==> !has_attached(self.sessions@, to_peer_id@),
    {
        let msg = SignalingMessage::PeerAnswer {
            from_peer: from_peer_id.to_string(),
            sdp_base64: answer_base64.to_string(),
        };
        let json: String = msg.to_json();
        match self.send_to_peer(to_peer_id, json.as_str()) {
            Ok(_) => Ok(json),
            Err(e) => Err(e),
        }
    }

    /// Build the announcement payload for a newly joined peer and the ids
    /// it goes to.
    pub fn announce_new_peer(&self, new_peer_username: &str) -> (r: (String, Vec<String>))
        requires
            self.wf(),
        ensures
            exists|uv: String|
                uv@ == new_peer_username@ && r.0@ == render(
                    SignalingMessage::NewPeerAnnounce { username: uv },
                ),
            r.1@ == attached_ids(self.sessions@),
            forall|i: int|
                0 <= i < r.1@.len() ==> has_attached(self.sessions@, (#[trigger] r.1@[i])@),
    {
        let msg = SignalingMessage::NewPeerAnnounce { username: new_peer_username.to_string() };
        let json: String = msg.to_json();
        let targets: Vec<String> = self.broadcast_targets();
        (json, targets)
    }

    /// Ids of the sessions outgoing audio goes to: every session created
    /// with a send-capable media channel, in order.
    pub fn audio_targets(&self) -> (r: Vec<String>)
        requires
            self.wf(),
        ensures
            r@ == media_ids(self.sessions@),
            forall|i: int|
                0 <= i < r@.len() ==> has_media(self.sessions@, (#[trigger] r@[i])@),
            forall|k: int|
                0 <= k < self.sessions@.len() && (#[trigger] self.sessions@[k]).media_send
                    ==> contains_id(r@, self.sessions@[k].peer_id@),
    {
        let mut out: Vec<String> = Vec::new();
        let n: usize = self.sessions.len();
        let mut i: usize = 0;
        proof {
            assert(self.sessions@.take(0) =~= Seq::<PeerSession>::empty());
        }
        while i < n
            invariant
                i <= n,
                n == self.sessions@.len(),
                out@ == media_ids(self.sessions@.take(i as int)),
                forall|j: int|
                    0 <= j < out@.len() ==> has_media(self.sessions@, (#[trigger] out@[j])@),
                forall|k: int|
                    0 <= k < i && (#[trigger] self.sessions@[k]).media_send ==> contains_id(
                        out@,
                        self.sessions@[k].peer_id@,
                    ),
            decreases n - i,
        {
            proof {
                assert(self.sessions@.take(i + 1).drop_last() =~= self.sessions@.take(i as int));
                assert(self.sessions@.take(i + 1).last() == self.sessions@[i as int]);
            }
            if self.sessions[i].media_send {
                let ghost out0 = out@;
                out.push(self.sessions[i].peer_id.clone());
                proof {
                    let gi = i as int;
                    let last = out@.len() - 1;
                    assert(out@[last]@ == self.sessions@[gi].peer_id@);
                    assert(has_media(self.sessions@, out@[last]@));
                    assert forall|k: int|
                        0 <= k < i + 1 && (#[trigger] self.sessions@[k]).media_send
                        implies contains_id(out@, self.sessions@[k].peer_id@) by {
                        if k < i {
                            let j = choose|j: int|
                                0 <= j < out0.len() && (#[trigger] out0[j])@
                                    == self.sessions@[k].peer_id@;
                            assert(out@[j]@ == self.sessions@[k].peer_id@);
                        } else {
                            assert(out@[last]@ == self.sessions@[k].peer_id@);
                        }
                    }
                }
            } else {
                proof {
                    assert forall|k: int|
                        0 <= k < i + 1 && (#[trigger] self.sessions@[k]).media_send
                        implies contains_id(out@, self.sessions@[k].peer_id@) by {}
                }
            }
            i = i + 1;
        }
        proof {
            assert(self.sessions@.take(n as int) =~= self.sessions@);
        }
        out
    }

    /// State of the session for `peer_id`, if one exists.
    pub fn session_state(&self, peer_id: &str) -> (r: Option<SessionState>)
        requires
            self.wf(),
        ensures
            match r {
                Some(st) => exists|i: int|
                    0 <= i < self.sessions@.len() && (#[trigger] self.sessions@[i]).peer_id@
                        == peer_id@ && self.sessions@[i].state == st,
                None => forall|i: int|
                    0 <= i < self.sessions@.len() ==> (#[trigger] self.sessions@[i]).peer_id@
                        != peer_id@,
            },
    {
        let found = self.find_session(peer_id);
        match found {
            Some(ix) => Some(self.sessions[ix].state),
            None => None,
        }
    }
}

} // verus!
