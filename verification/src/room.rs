//! Room bookkeeping: participants, join codes, and the single current room
//! of this process. Codes are six characters drawn from an unambiguous
//! alphabet; participant ids are freshly generated UUIDs.

use vstd::prelude::*;

verus! {

broadcast use vstd::string::to_string_from_display_ensures_for_str;

/// Alphabet for room and server codes: no easily confused characters.
pub const CODE_ALPHABET: &'static str = "ABCDEFGHJKLMNPQRSTUVWXYZ23456789";

/// Number of characters in a join code.
pub const CODE_LEN: usize = 6;

/// Largest number of participants in one room.
pub const ROOM_CAPACITY: usize = 5;

/// Why a room operation failed.
#[derive(Debug)]
pub enum RoomError {
    /// No such room.
    NotFound,
    /// The room already holds its maximum number of participants.
    Full(usize),
    /// The code is not a valid room code.
    InvalidCode,
    /// This process is already in a room.
    AlreadyInRoom,
    /// This process is in no room.
    NotInRoom,
}

impl RoomError {
    /// Human-readable error text.
    pub fn message(&self) -> String {
        match self {
            RoomError::NotFound => "room not found".to_string(),
            RoomError::Full(_) => "room is full".to_string(),
            RoomError::InvalidCode => "invalid room code".to_string(),
            RoomError::AlreadyInRoom => "already in a room".to_string(),
            RoomError::NotInRoom => "not in a room".to_string(),
        }
    }
}

/// One member of a room.
#[derive(Debug)]
pub struct Participant {
    /// Fresh unique id.
    pub id: String,
    /// Display name.
    pub username: String,
    /// Microphone muted (participants start muted).
    pub is_muted: bool,
    /// Currently sharing a screen.
    pub is_screen_sharing: bool,
    /// Whether this participant created the room.
    pub is_host: bool,
}

/// Uppercase form of a string under Unicode case mapping.
pub uninterp spec fn upper_of(s: Seq<char>) -> Seq<char>;

/// Relies on std's `str::to_uppercase`: the result depends on the
/// characters alone.
#[verifier::external_body]
pub(crate) fn to_upper(s: &str) -> (r: String)
    ensures
        r@ == upper_of(s@),
{
    s.to_uppercase()
}

/// Relies on the uuid crate's `Uuid::new_v4` and its hyphenated text form:
/// a fresh random identifier, always 36 characters.
#[verifier::external_body]
fn new_uuid_string() -> (r: String)
    ensures
        r@.len() == 36,
{
    uuid::Uuid::new_v4().to_string()
}

/// Relies on the rand crate's `thread_rng` and `Rng::gen_range`: a uniform
/// index below `bound`. Nothing is assumed beyond the range.
#[verifier::external_body]
fn random_below(bound: usize) -> (r: usize)
    requires
        bound > 0,
    ensures
        r < bound,
{
    rand::Rng::gen_range(&mut rand::thread_rng(), 0..bound)
}

/// Random join code: `CODE_LEN` characters from `CODE_ALPHABET`.
pub fn generate_room_code() -> (r: String)
    ensures
        r@.len() == CODE_LEN,
        forall|i: int| 0 <= i < r@.len() ==> CODE_ALPHABET@.contains(#[trigger] r@[i]),
{
    proof {
        reveal_strlit("ABCDEFGHJKLMNPQRSTUVWXYZ23456789");
    }
    let n: usize = CODE_ALPHABET.unicode_len();
    let mut out: String = String::new();
    let mut i: usize = 0;
    while i < CODE_LEN
        invariant
            i <= CODE_LEN,
            n == CODE_ALPHABET@.len(),
            n > 0,
            out@.len() == i,
            forall|j: int| 0 <= j < out@.len() ==> CODE_ALPHABET@.contains(#[trigger] out@[j]),
        decreases CODE_LEN - i,
    {
        let ix: usize = random_below(n);
        let piece: &str = CODE_ALPHABET.substring_char(ix, ix + 1);
        out.append(piece);
        proof {
            assert(out@.last() == CODE_ALPHABET@[ix as int]);
        }
        i = i + 1;
    }
    out
}

impl Participant {
    /// Fresh participant with a generated id; everyone starts muted and not
    /// sharing.
    pub fn new(username: String, is_host: bool) -> (r: Participant)
        ensures
            r.username == username,
            r.is_host == is_host,
            r.is_muted,
            !r.is_screen_sharing,
            r.id@.len() == 36,
    {
        Participant {
            id: new_uuid_string(),
            username,
            is_muted: true,
            is_screen_sharing: false,
            is_host,
        }
    }
}

/// The members kept when every entry with the given id is removed: the
/// rest survive in order, multiplicities preserved.
pub open spec fn without_id(ps: Seq<Participant>, id: Seq<char>) -> Seq<Participant>
    decreases ps.len(),
{
    if ps.len() == 0 {
        Seq::empty()
    } else {
        let rest = without_id(ps.drop_last(), id);
        if ps.last().id@ == id {
            rest
        } else {
            rest.push(ps.last())
        }
    }
}

/// A room: its join code and its members.
#[derive(Debug)]
pub struct Room {
    /// Join code, from `CODE_ALPHABET`.
    pub code: String,
    /// Current members, host first.
    pub participants: Vec<Participant>,
    /// Capacity bound.
    pub max_participants: usize,
    /// Creation time in seconds since the epoch.
    pub created_at: u64,
}

impl Room {
    /// Fresh room with a generated code, holding only its host.
    pub fn new(host: Participant, created_at: u64) -> (r: Room)
        ensures
            r.participants@.len() == 1,
            r.participants@[0] == host,
            r.max_participants == ROOM_CAPACITY,
            r.created_at == created_at,
            r.code@.len() == CODE_LEN,
            forall|i: int| 0 <= i < r.code@.len() ==> CODE_ALPHABET@.contains(#[trigger] r.code@[i]),
    {
        let mut participants: Vec<Participant> = Vec::new();
        participants.push(host);
        Room { code: generate_room_code(), participants, max_participants: ROOM_CAPACITY, created_at }
    }

    /// Add a member; fails exactly when the room is full, reporting the
    /// capacity.
    pub fn add_participant(&mut self, participant: Participant) -> (r: Result<(), RoomError>)
        ensures
            old(self).participants@.len() >= old(self).max_participants <==> (r matches Err(e)
                && e matches RoomError::Full(m) && m == old(self).max_participants),
            r is Err ==> *final(self) == *old(self),
            r is Ok ==> {
                &&& final(self).participants@ == old(self).participants@.push(participant)
                &&& final(self).code == old(self).code
                &&& final(self).max_participants == old(self).max_participants
                &&& final(self).created_at == old(self).created_at
            },
    {
        if self.participants.len() >= self.max_participants {
            return Err(RoomError::Full(self.max_participants));
        }
        self.participants.push(participant);
        Ok(())
    }

    /// Remove every member with the given id; the rest keep their order.
    /// Removing an absent id changes nothing.
    pub fn remove_participant(&mut self, id: &str)
        ensures
            final(self).code == old(self).code,
            final(self).max_participants == old(self).max_participants,
            final(self).created_at == old(self).created_at,
            final(self).participants@ == without_id(old(self).participants@, id@),
            forall|i: int|
                0 <= i < final(self).participants@.len() ==> (#[trigger] final(self).participants@[i]).id@ != id@,
    {
        let key: String = id.to_string();
        let n: usize = self.participants.len();
        let mut kept: Vec<Participant> = Vec::new();
        let mut i: usize = 0;
        let ghost p0 = self.participants@;
        proof {
            assert(p0.take(0) =~= Seq::<Participant>::empty());
        }
        while i < n
            invariant
                i <= n,
                n == p0.len(),
                self.participants@ == p0,
                key@ == id@,
                kept@ == without_id(p0.take(i as int), id@),
                forall|j: int| 0 <= j < kept@.len() ==> (#[trigger] kept@[j]).id@ != id@,
            decreases n - i,
        {
            proof {
                assert(p0.take(i + 1).drop_last() =~= p0.take(i as int));
                assert(p0.take(i + 1).last() == p0[i as int]);
            }
            let keep: bool = !(self.participants[i].id == key);
            if keep {
                kept.push(self.participants[i].clone());
            }
            i = i + 1;
        }
        proof {
            assert(p0.take(n as int) =~= p0);
        }
        self.participants = kept;
    }
}

/// The single current room of this process (with the local participant),
/// if any.
pub struct RoomState {
    /// Joined or created room.
    pub current_room: Option<Room>,
    /// The local user's participant record within it.
    pub local_participant: Option<Participant>,
}

impl RoomState {
    /// Not in any room.
    pub fn new() -> (r: RoomState)
        ensures
            r.current_room is None,
            r.local_participant is None,
    {
        RoomState { current_room: None, local_participant: None }
    }

    /// Create a fresh room hosted by `username`; fails exactly when this
    /// process is already in a room.
    pub fn create_room(&mut self, username: String, created_at: u64) -> (r: Result<
        Room,
        RoomError,
    >)
        ensures
            old(self).current_room is Some <==> (r matches Err(e) && e is AlreadyInRoom),
            r is Err ==> *final(self) == *old(self),
            r matches Ok(room) ==> {
                &&& room.participants@.len() == 1
                &&& room.participants@[0].username == username
                &&& room.participants@[0].is_host
                &&& room.created_at == created_at
                &&& final(self).current_room matches Some(st) && st.code == room.code
                    && st.participants@ == room.participants@ && st.max_participants
                    == room.max_participants && st.created_at == room.created_at
                &&& final(self).local_participant matches Some(lp) && lp
                    == room.participants@[0]
            },
    {
        if self.current_room.is_some() {
            return Err(RoomError::AlreadyInRoom);
        }
        let host = Participant::new(username, true);
        let host_copy = host.clone();
        let room = Room::new(host, created_at);
        let room_copy = Room {
            code: room.code.clone(),
            participants: clone_participants(&room.participants),
            max_participants: room.max_participants,
            created_at: room.created_at,
        };
        self.local_participant = Some(host_copy);
        self.current_room = Some(room);
        Ok(room_copy)
    }

    /// Join the room with the given code, stored in its uppercase form
    /// (locally: the mesh connection itself is established separately);
    /// fails exactly when this process is already in a room.
    pub fn join_room(&mut self, code: String, username: String, created_at: u64) -> (r: Result<
        Room,
        RoomError,
    >)
        ensures
            old(self).current_room is Some <==> (r matches Err(e) && e is AlreadyInRoom),
            r is Err ==> *final(self) == *old(self),
            r matches Ok(room) ==> {
                &&& room.participants@.len() == 1
                &&& room.participants@[0].username == username
                &&& !room.participants@[0].is_host
                &&& room.code@ == upper_of(code@)
                &&& room.created_at == created_at
                &&& final(self).current_room matches Some(st) && st.code == room.code
                    && st.participants@ == room.participants@ && st.max_participants
                    == room.max_participants && st.created_at == room.created_at
                &&& final(self).local_participant matches Some(lp) && lp
                    == room.participants@[0]
            },
    {
        if self.current_room.is_some() {
            return Err(RoomError::AlreadyInRoom);
        }
        let participant = Participant::new(username, false);
        let participant_copy = participant.clone();
        let mut members: Vec<Participant> = Vec::new();
        members.push(participant);
        let room = Room {
            code: to_upper(code.as_str()),
            participants: members,
            max_participants: ROOM_CAPACITY,
            created_at,
        };
        let room_copy = Room {
            code: room.code.clone(),
            participants: clone_participants(&room.participants),
            max_participants: room.max_participants,
            created_at: room.created_at,
        };
        self.local_participant = Some(participant_copy);
        self.current_room = Some(room);
        Ok(room_copy)
    }

    /// Leave the current room; fails exactly when there is none.
    pub fn leave_room(&mut self) -> (r: Result<(), RoomError>)
        ensures
            old(self).current_room is None <==> (r matches Err(e) && e is NotInRoom),
            r is Err ==> *final(self) == *old(self),
            r is Ok ==> final(self).current_room is None && final(self).local_participant
                is None,
    {
        if self.current_room.is_none() {
            return Err(RoomError::NotInRoom);
        }
        self.current_room = None;
        self.local_participant = None;
        Ok(())
    }
}

/// Field-for-field copy of a participant.
impl Clone for Participant {
    fn clone(&self) -> (r: Participant)
        ensures
            r == *self,
    {
        Participant {
            id: self.id.clone(),
            username: self.username.clone(),
            is_muted: self.is_muted,
            is_screen_sharing: self.is_screen_sharing,
            is_host: self.is_host,
        }
    }
}

/// Element-for-element copy of a participant list.
fn clone_participants(v: &Vec<Participant>) -> (r: Vec<Participant>)
    ensures
        r@ == v@,
{
    let mut out: Vec<Participant> = Vec::new();
    let mut i: usize = 0;
    let n: usize = v.len();
    while i < n
        invariant
            i <= n,
            n == v@.len(),
            out@ =~= v@.subrange(0, i as int),
        decreases n - i,
    {
        out.push(v[i].clone());
        i = i + 1;
    }
    proof {
        assert(out@ =~= v@);
    }
    out
}

} // verus!
