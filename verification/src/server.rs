//! Host/join bookkeeping for a voice server: the persisted identity (code
//! and username), whether this process hosts or joined, and the peer list.
//! Loading and saving the configuration file is the caller's concern; this
//! state machine works on the plain values.

use vstd::prelude::*;

use crate::room::{generate_room_code, to_upper, upper_of};

verus! {

broadcast use vstd::string::to_string_from_display_ensures_for_str;

/// Why a server operation failed.
#[derive(Debug)]
pub enum ServerError {
    /// No server is running.
    NotRunning,
    /// This process already hosts a server.
    AlreadyHosting,
    /// This process is already connected to a server.
    AlreadyConnected,
    /// The configuration could not be handled.
    ConfigError(String),
}

impl ServerError {
    /// Human-readable error text.
    pub fn message(&self) -> String {
        match self {
            ServerError::NotRunning => "server not running".to_string(),
            ServerError::AlreadyHosting => "already hosting".to_string(),
            ServerError::AlreadyConnected => "already connected to a server".to_string(),
            ServerError::ConfigError(d) => d.clone(),
        }
    }
}

/// Persisted identity of this installation.
#[derive(Debug)]
pub struct ServerConfig {
    /// The server code handed to others to join.
    pub code: String,
    /// The local display name.
    pub username: String,
}

/// One connected peer as the UI lists it.
#[derive(Debug)]
pub struct Peer {
    /// Stable id ("local" for this process).
    pub id: String,
    /// Display name.
    pub username: String,
    /// Whether this peer hosts the server.
    pub is_host: bool,
}

/// Snapshot of the current server for the UI.
#[derive(Debug)]
pub struct ServerInfo {
    /// Code of the hosted or joined server.
    pub code: String,
    /// Whether this process hosts it.
    pub is_hosting: bool,
    /// The local display name.
    pub username: String,
    /// Everyone connected.
    pub peers: Vec<Peer>,
}

/// The peers kept when every entry with the given id is removed: the rest
/// survive in order, multiplicities preserved.
pub open spec fn without_peer_id(ps: Seq<Peer>, id: Seq<char>) -> Seq<Peer>
    decreases ps.len(),
{
    if ps.len() == 0 {
        Seq::empty()
    } else {
        let rest = without_peer_id(ps.drop_last(), id);
        if ps.last().id@ == id {
            rest
        } else {
            rest.push(ps.last())
        }
    }
}

/// Host/join state of this process.
pub struct ServerState {
    /// Persisted identity, once known.
    pub config: Option<ServerConfig>,
    /// Whether this process hosts.
    pub is_hosting: bool,
    /// Code of the joined server, when connected as a guest.
    pub connected_to: Option<String>,
    /// Connected peers.
    pub peers: Vec<Peer>,
}

impl ServerState {
    /// Fresh state around a configuration the caller may have loaded.
    pub fn new(config: Option<ServerConfig>) -> (r: ServerState)
        ensures
            r.config == config,
            !r.is_hosting,
            r.connected_to is None,
            r.peers@.len() == 0,
    {
        ServerState { config, is_hosting: false, connected_to: None, peers: Vec::new() }
    }

    /// The configuration, updating the username if it changed, or a fresh
    /// one with a generated code. The caller persists the result.
    pub fn get_or_create_config(&mut self, username: String) -> (r: ServerConfig)
        ensures
            r.username == username,
            final(self).config matches Some(c) && c.code == r.code && c.username == username,
            old(self).config matches Some(c0) ==> r.code == c0.code,
            final(self).is_hosting == old(self).is_hosting,
            final(self).connected_to == old(self).connected_to,
            final(self).peers@ == old(self).peers@,
    {
        match &self.config {
            Some(cfg) => {
                let updated = ServerConfig { code: cfg.code.clone(), username: username.clone() };
                let r = ServerConfig { code: cfg.code.clone(), username };
                self.config = Some(updated);
                r
            },
            None => {
                let code: String = generate_room_code();
                let fresh = ServerConfig { code: code.clone(), username: username.clone() };
                self.config = Some(fresh);
                ServerConfig { code, username }
            },
        }
    }

    /// The current configuration, if any.
    pub fn get_config(&self) -> (r: Option<ServerConfig>)
        ensures
            match r {
                Some(c) => self.config matches Some(c0) && c.code == c0.code && c.username
                    == c0.username,
                None => self.config is None,
            },
    {
        match &self.config {
            Some(c) => Some(ServerConfig { code: c.code.clone(), username: c.username.clone() }),
            None => None,
        }
    }

    /// Update the stored username (a no-op without a configuration). The
    /// caller persists the change.
    pub fn set_username(&mut self, username: String) -> (r: Result<(), ServerError>)
        ensures
            r is Ok,
            old(self).config matches Some(c0) ==> final(self).config matches Some(c) && c.code
                == c0.code && c.username == username,
            old(self).config is None ==> final(self).config is None,
            final(self).is_hosting == old(self).is_hosting,
            final(self).connected_to == old(self).connected_to,
            final(self).peers@ == old(self).peers@,
    {
        match &self.config {
            Some(cfg) => {
                let updated = ServerConfig { code: cfg.code.clone(), username };
                self.config = Some(updated);
            },
            None => {},
        }
        Ok(())
    }

    /// Begin hosting: fails with `AlreadyHosting` when this process hosts,
    /// else with `AlreadyConnected` when it joined a server; otherwise the
    /// peer list starts over with the local host.
    pub fn start_hosting(&mut self, username: String) -> (r: Result<ServerInfo, ServerError>)
        ensures
            r matches Err(e) ==> *final(self) == *old(self),
            (r matches Err(e) && e is AlreadyHosting) <==> old(self).is_hosting,
            (r matches Err(e) && e is AlreadyConnected) <==> (!old(self).is_hosting && old(
                self,
            ).connected_to is Some),
            r matches Ok(info) ==> {
                &&& final(self).is_hosting
                &&& final(self).peers@.len() == 1
                &&& final(self).peers@[0].is_host
                &&& final(self).peers@[0].username == username
                &&& info.is_hosting
                &&& info.username == username
                &&& info.peers@.len() == 1
            },
    {
        if self.is_hosting {
            return Err(ServerError::AlreadyHosting);
        }
        if self.connected_to.is_some() {
            return Err(ServerError::AlreadyConnected);
        }
        let config = self.get_or_create_config(username.clone());
        self.is_hosting = true;
        self.peers.clear();
        self.peers.push(Peer { id: "local".to_string(), username: username.clone(), is_host: true });
        let peers_copy = clone_peers(&self.peers);
        Ok(ServerInfo { code: config.code, is_hosting: true, username, peers: peers_copy })
    }

    /// Join a server by code, stored in its uppercase form: fails as
    /// `start_hosting` does; otherwise the peer list starts over with the
    /// local guest.
    pub fn join_server(&mut self, code: String, username: String) -> (r: Result<
        ServerInfo,
        ServerError,
    >)
        ensures
            r matches Err(e) ==> *final(self) == *old(self),
            (r matches Err(e) && e is AlreadyHosting) <==> old(self).is_hosting,
            (r matches Err(e) && e is AlreadyConnected) <==> (!old(self).is_hosting && old(
                self,
            ).connected_to is Some),
            r matches Ok(info) ==> {
                &&& !final(self).is_hosting
                &&& final(self).connected_to matches Some(c) && c@ == upper_of(code@)
                &&& final(self).peers@.len() == 1
                &&& !final(self).peers@[0].is_host
                &&& final(self).peers@[0].username == username
                &&& !info.is_hosting
                &&& info.code@ == upper_of(code@)
                &&& info.username == username
                &&& info.peers@.len() == 1
            },
    {
        if self.is_hosting {
            return Err(ServerError::AlreadyHosting);
        }
        if self.connected_to.is_some() {
            return Err(ServerError::AlreadyConnected);
        }
        let code_up: String = to_upper(code.as_str());
        self.connected_to = Some(code_up.clone());
        let _config = self.get_or_create_config(username.clone());
        self.peers.clear();
        self.peers.push(
            Peer { id: "local".to_string(), username: username.clone(), is_host: false },
        );
        let peers_copy = clone_peers(&self.peers);
        Ok(ServerInfo { code: code_up, is_hosting: false, username, peers: peers_copy })
    }

    /// Stop hosting or leave the joined server; always succeeds.
    pub fn disconnect(&mut self) -> (r: Result<(), ServerError>)
        ensures
            r is Ok,
            !final(self).is_hosting,
            final(self).connected_to is None,
            final(self).peers@.len() == 0,
            final(self).config == old(self).config,
    {
        self.is_hosting = false;
        self.connected_to = None;
        self.peers.clear();
        Ok(())
    }

    /// Snapshot of the current server: hosting takes precedence, then a
    /// joined server; `None` when neither holds or no configuration exists.
    pub fn get_server_info(&self) -> (r: Option<ServerInfo>)
        ensures
            r is Some ==> self.config is Some && (self.is_hosting || self.connected_to is Some),
            (self.config is Some && (self.is_hosting || self.connected_to is Some)) ==> r
                is Some,
            r matches Some(info) ==> {
                &&& info.is_hosting == self.is_hosting
                &&& info.peers@ == self.peers@
                &&& (self.is_hosting ==> (self.config matches Some(c) && info.code == c.code
                    && info.username == c.username))
                &&& (!self.is_hosting ==> (self.connected_to matches Some(code) && info.code
                    == code))
            },
    {
        match &self.config {
            Some(cfg) => {
                if self.is_hosting {
                    Some(
                        ServerInfo {
                            code: cfg.code.clone(),
                            is_hosting: true,
                            username: cfg.username.clone(),
                            peers: clone_peers(&self.peers),
                        },
                    )
                } else {
                    match &self.connected_to {
                        Some(code) => Some(
                            ServerInfo {
                                code: code.clone(),
                                is_hosting: false,
                                username: cfg.username.clone(),
                                peers: clone_peers(&self.peers),
                            },
                        ),
                        None => None,
                    }
                }
            },
            None => None,
        }
    }

    /// Add a peer unless one with the same id is already listed.
    pub fn add_peer(&mut self, peer: Peer)
        ensures
            final(self).config == old(self).config,
            final(self).is_hosting == old(self).is_hosting,
            final(self).connected_to == old(self).connected_to,
            (exists|i: int|
                0 <= i < old(self).peers@.len() && (#[trigger] old(self).peers@[i]).id@
                    == peer.id@) ==> final(self).peers@ == old(self).peers@,
            (forall|i: int|
                0 <= i < old(self).peers@.len() ==> (#[trigger] old(self).peers@[i]).id@
                    != peer.id@) ==> final(self).peers@ == old(self).peers@.push(peer),
    {
        let n: usize = self.peers.len();
        let mut i: usize = 0;
        while i < n
            invariant
                i <= n,
                n == self.peers@.len(),
                forall|j: int| 0 <= j < i ==> (#[trigger] self.peers@[j]).id@ != peer.id@,
            decreases n - i,
        {
            if self.peers[i].id == peer.id {
                return ;
            }
            i = i + 1;
        }
        self.peers.push(peer);
    }

    /// Remove every peer with the given id; the rest keep their order.
    /// Removing an unknown id changes nothing.
    pub fn remove_peer(&mut self, peer_id: &str)
        ensures
            final(self).config == old(self).config,
            final(self).is_hosting == old(self).is_hosting,
            final(self).connected_to == old(self).connected_to,
            final(self).peers@ == without_peer_id(old(self).peers@, peer_id@),
            forall|i: int|
                0 <= i < final(self).peers@.len() ==> (#[trigger] final(self).peers@[i]).id@
                    != peer_id@,
    {
        let key: String = peer_id.to_string();
        let n: usize = self.peers.len();
        let mut kept: Vec<Peer> = Vec::new();
        let mut i: usize = 0;
        let ghost p0 = self.peers@;
        proof {
            assert(p0.take(0) =~= Seq::<Peer>::empty());
        }
        while i < n
            invariant
                i <= n,
                n == p0.len(),
                self.peers@ == p0,
                key@ == peer_id@,
                kept@ == without_peer_id(p0.take(i as int), peer_id@),
                forall|j: int| 0 <= j < kept@.len() ==> (#[trigger] kept@[j]).id@ != peer_id@,
            decreases n - i,
        {
            proof {
                assert(p0.take(i + 1).drop_last() =~= p0.take(i as int));
                assert(p0.take(i + 1).last() == p0[i as int]);
            }
            if !(self.peers[i].id == key) {
                kept.push(
                    Peer {
                        id: self.peers[i].id.clone(),
                        username: self.peers[i].username.clone(),
                        is_host: self.peers[i].is_host,
                    },
                );
                proof {
                    assert(kept@.last() == p0[i as int]);
                }
            }
            i = i + 1;
        }
        proof {
            assert(p0.take(n as int) =~= p0);
        }
        self.peers = kept;
    }

    /// Whether this process hosts or joined a server.
    pub fn is_connected(&self) -> (r: bool)
        ensures
            r == (self.is_hosting || self.connected_to is Some),
    {
        self.is_hosting || self.connected_to.is_some()
    }
}

/// Element-for-element copy of a peer list.
fn clone_peers(v: &Vec<Peer>) -> (r: Vec<Peer>)
    ensures
        r@ == v@,
{
    let mut out: Vec<Peer> = Vec::new();
    let mut i: usize = 0;
    let n: usize = v.len();
    while i < n
        invariant
            i <= n,
            n == v@.len(),
            out@ =~= v@.subrange(0, i as int),
        decreases n - i,
    {
        out.push(
            Peer { id: v[i].id.clone(), username: v[i].username.clone(), is_host: v[i].is_host },
        );
        i = i + 1;
    }
    proof {
        assert(out@ =~= v@);
    }
    out
}

} // verus!
