//! The rooms of the signaling server: in each at most one home agent and one
//! browser.

use crate::access::{valid_room, Access};
use crate::table::{names_distinct, Table};
use crate::text::{text_equal, valid_name};
use vstd::prelude::*;

verus! {

/// Most rooms at once.
pub const MAX_ROOMS: usize = 128;

/// Which side of a room a peer is.
#[derive(Clone, Copy, Debug, PartialEq, Eq, Structural)]
pub enum Role {
    Home,
    Browser,
}

/// A peer that was let into a room.
#[derive(Clone, Copy, Debug, PartialEq, Eq, Structural)]
pub struct Peer {
    pub id: u128,
    /// Its connection is open.
    pub active: bool,
}

/// The two places of a room.
#[derive(Clone, Copy, Debug, PartialEq, Eq, Structural)]
pub struct Room {
    pub home: Option<Peer>,
    pub browser: Option<Peer>,
}

impl Room {
    /// The place of a role.
    pub open spec fn place(self, role: Role) -> Option<Peer> {
        match role {
            Role::Home => self.home,
            Role::Browser => self.browser,
        }
    }

    /// The place opposite a role.
    pub open spec fn opposite(self, role: Role) -> Option<Peer> {
        match role {
            Role::Home => self.browser,
            Role::Browser => self.home,
        }
    }

    /// The room with another peer in the place of a role.
    pub open spec fn with(self, role: Role, peer: Option<Peer>) -> Room {
        match role {
            Role::Home => Room { home: peer, ..self },
            Role::Browser => Room { browser: peer, ..self },
        }
    }

    /// Nobody is in the room.
    pub open spec fn empty(self) -> bool {
        self.home is None && self.browser is None
    }

    /// The peer in the place of a role.
    pub fn slot(&self, role: Role) -> (peer: Option<Peer>)
        ensures
            peer == self.place(role),
    {
        match role {
            Role::Home => self.home,
            Role::Browser => self.browser,
        }
    }

    /// The peer opposite a role.
    pub fn other(&self, role: Role) -> (peer: Option<Peer>)
        ensures
            peer == self.opposite(role),
    {
        match role {
            Role::Home => self.browser,
            Role::Browser => self.home,
        }
    }

    /// The room with another peer in the place of a role.
    fn set(&self, role: Role, peer: Option<Peer>) -> (room: Room)
        ensures
            room == self.with(role, peer),
    {
        match role {
            Role::Home => Room { home: peer, ..*self },
            Role::Browser => Room { browser: peer, ..*self },
        }
    }
}

/// Why a peer is not let into a room.
#[derive(Clone, Copy, Debug, PartialEq, Eq, Structural)]
pub enum Refusal {
    Unauthorized,
    InvalidRoom,
    Full,
    Taken,
}

/// The HTTP status of a refusal.
pub open spec fn refusal_status(refusal: Refusal) -> u16 {
    match refusal {
        Refusal::Unauthorized => 401,
        Refusal::InvalidRoom => 400,
        Refusal::Full => 503,
        Refusal::Taken => 409,
    }
}

/// A refusal in words.
pub open spec fn refusal_words(refusal: Refusal) -> Seq<char> {
    match refusal {
        Refusal::Unauthorized => "invalid room or token"@,
        Refusal::InvalidRoom => "invalid room"@,
        Refusal::Full => "room capacity reached"@,
        Refusal::Taken => "role already connected"@,
    }
}

impl Refusal {
    /// The HTTP status that says so.
    pub fn status(&self) -> (status: u16)
        ensures
            status == refusal_status(*self),
    {
        match self {
            Refusal::Unauthorized => 401,
            Refusal::InvalidRoom => 400,
            Refusal::Full => 503,
            Refusal::Taken => 409,
        }
    }

    /// The reason in words.
    pub fn message(&self) -> (text: &'static str)
        ensures
            text@ == refusal_words(*self),
    {
        match self {
            Refusal::Unauthorized => "invalid room or token",
            Refusal::InvalidRoom => "invalid room",
            Refusal::Full => "room capacity reached",
            Refusal::Taken => "role already connected",
        }
    }
}

/// The rooms that somebody is in.
pub struct Rooms {
    rooms: Table<Room>,
}

impl View for Rooms {
    type V = Map<Seq<char>, Room>;

    closed spec fn view(&self) -> Map<Seq<char>, Room> {
        self.rooms@
    }
}

/// A room in which nobody is yet.
pub open spec fn no_room() -> Room {
    Room { home: None, browser: None }
}

/// The room of that name.
pub open spec fn room_of(rooms: Map<Seq<char>, Room>, name: Seq<char>) -> Room {
    if rooms.contains_key(name) {
        rooms[name]
    } else {
        no_room()
    }
}

/// The rooms are not too many, somebody is in each, and each has a valid name.
pub open spec fn rooms_valid(rooms: Map<Seq<char>, Room>) -> bool {
    &&& rooms.dom().finite()
    &&& rooms.dom().len() <= MAX_ROOMS
    &&& forall|name: Seq<char>| #[trigger]
        rooms.contains_key(name) ==> valid_name(name) && !rooms[name].empty()
}

/// What keeps a peer out, `None` where it is let in.
pub open spec fn refused(
    rooms: Map<Seq<char>, Room>,
    access: Access,
    name: Seq<char>,
    role: Role,
    token: Seq<char>,
) -> Option<Refusal> {
    if !access.opens(name, token) {
        Some(Refusal::Unauthorized)
    } else if !valid_name(name) {
        Some(Refusal::InvalidRoom)
    } else if !rooms.contains_key(name) && rooms.dom().len() >= MAX_ROOMS {
        Some(Refusal::Full)
    } else if room_of(rooms, name).place(role) is Some {
        Some(Refusal::Taken)
    } else {
        None
    }
}

/// The rooms once a peer took its place, its connection not open yet.
pub open spec fn joined_room(
    rooms: Map<Seq<char>, Room>,
    name: Seq<char>,
    role: Role,
    id: u128,
) -> Map<Seq<char>, Room> {
    rooms.insert(name, room_of(rooms, name).with(role, Some(Peer { id, active: false })))
}

/// The peer stands in its place.
pub open spec fn holds_place(room: Room, role: Role, id: u128) -> bool {
    room.place(role) matches Some(peer) && peer.id == id
}

/// The rooms once a peer has gone: its place is free where it was still its
/// own, and a room that nobody is in is gone too.
pub open spec fn left_room(
    rooms: Map<Seq<char>, Room>,
    name: Seq<char>,
    role: Role,
    id: u128,
) -> Map<Seq<char>, Room> {
    if !rooms.contains_key(name) {
        rooms
    } else {
        let room = rooms[name];
        let rest = if holds_place(room, role, id) {
            room.with(role, None)
        } else {
            room
        };
        if rest.empty() {
            rooms.remove(name)
        } else {
            rooms.insert(name, rest)
        }
    }
}

/// Who is told that a peer has gone: the peer opposite, where the one that goes
/// held its place and its connection had been open.
pub open spec fn told_of_leaving(
    rooms: Map<Seq<char>, Room>,
    name: Seq<char>,
    role: Role,
    id: u128,
) -> Option<u128> {
    if rooms.contains_key(name) && holds_place(rooms[name], role, id)
        && rooms[name].place(role)->0.active {
        match rooms[name].opposite(role) {
            Some(peer) => Some(peer.id),
            None => None,
        }
    } else {
        None
    }
}

/// The peer opposite a role whose connection is open.
pub open spec fn open_opposite(
    rooms: Map<Seq<char>, Room>,
    name: Seq<char>,
    role: Role,
) -> Option<u128> {
    match room_of(rooms, name).opposite(role) {
        Some(peer) => if peer.active {
            Some(peer.id)
        } else {
            None
        },
        None => None,
    }
}

/// The rooms once the connection of the peer in a place is open.
pub open spec fn opened_place(rooms: Map<Seq<char>, Room>, name: Seq<char>, role: Role) -> Map<
    Seq<char>,
    Room,
> {
    match rooms[name].place(role) {
        Some(peer) => rooms.insert(
            name,
            rooms[name].with(role, Some(Peer { active: true, ..peer })),
        ),
        None => rooms,
    }
}

/// Who is in a room.
pub struct RoomInfo {
    pub name: String,
    pub has_home: bool,
    pub has_browser: bool,
}

/// A peer whose connection is open is in the place.
pub open spec fn present(peer: Option<Peer>) -> bool {
    peer matches Some(peer) && peer.active
}

/// The room is shown: a token of one room shows that room alone.
pub open spec fn shown(own_room_only: bool, own: Seq<char>, name: Seq<char>) -> bool {
    !own_room_only || name == own
}

/// The list holds each room that is shown once, with who is in it, and no other room.
pub open spec fn lists_rooms(
    list: Seq<RoomInfo>,
    rooms: Map<Seq<char>, Room>,
    own_room_only: bool,
    own: Seq<char>,
) -> bool {
    &&& forall|i: int, j: int|
        0 <= i < j < list.len() ==> (#[trigger] list[i]).name@ != (#[trigger] list[j]).name@
    &&& forall|i: int|
        0 <= i < list.len() ==> {
            let info = #[trigger] list[i];
            &&& rooms.contains_key(info.name@)
            &&& shown(own_room_only, own, info.name@)
            &&& info.has_home == present(rooms[info.name@].home)
            &&& info.has_browser == present(rooms[info.name@].browser)
        }
    &&& forall|name: Seq<char>| #[trigger]
        rooms.contains_key(name) && shown(own_room_only, own, name) ==> exists|i: int|
            0 <= i < list.len() && (#[trigger] list[i]).name@ == name
}

/// A number for a peer, made by `uuid::Uuid::new_v4`. Nothing is said of it.
#[verifier::external_body]
fn new_peer_id() -> (id: u128) {
    uuid::Uuid::new_v4().as_u128()
}

impl Rooms {
    /// The rooms are valid, and no name stands twice.
    pub closed spec fn wf(&self) -> bool {
        self.rooms.wf() && rooms_valid(self@)
    }

    /// The rooms are valid.
    pub proof fn lemma_valid(&self)
        requires
            self.wf(),
        ensures
            rooms_valid(self@),
    {
    }

    /// No rooms yet.
    pub fn new() -> (rooms: Rooms)
        ensures
            rooms.wf(),
            rooms@ == Map::<Seq<char>, Room>::empty(),
    {
        Rooms { rooms: Table::new() }
    }

    /// Number of rooms.
    pub fn len(&self) -> (n: usize)
        requires
            self.wf(),
        ensures
            n == self@.dom().len(),
    {
        self.rooms.len()
    }

    /// The room of that name.
    pub fn get(&self, name: &str) -> (room: Option<Room>)
        requires
            self.wf(),
        ensures
            room == if self@.contains_key(name@) {
                Some(self@[name@])
            } else {
                None
            },
    {
        match self.rooms.get(name) {
            Some(room) => Some(*room),
            None => None,
        }
    }

    /// Lets a peer into a room under the number that it is given.
    pub fn let_in(&mut self, access: &Access, name: &str, role: Role, token: &str, id: u128) -> (
        result: Result<(), Refusal>)
        requires
            old(self).wf(),
            access.wf(),
        ensures
            final(self).wf(),
            match result {
                Ok(_) => {
                    &&& refused(old(self)@, *access, name@, role, token@) is None
                    &&& final(self)@ == joined_room(old(self)@, name@, role, id)
                },
                Err(refusal) => {
                    &&& refused(old(self)@, *access, name@, role, token@) == Some(refusal)
                    &&& final(self)@ == old(self)@
                },
            },
    {
        let ghost before = self@;
        if !access.authorizes(name, token) {
            return Err(Refusal::Unauthorized);
        }
        if !valid_room(name) {
            return Err(Refusal::InvalidRoom);
        }
        let room = match self.rooms.get(name) {
            Some(room) => *room,
            None => {
                if self.rooms.len() >= MAX_ROOMS {
                    return Err(Refusal::Full);
                }
                Room { home: None, browser: None }
            },
        };
        if room.slot(role).is_some() {
            return Err(Refusal::Taken);
        }
        self.rooms.insert(name.to_owned(), room.set(role, Some(Peer { id, active: false })));
        proof {
            assert(self@.dom() =~= before.dom().insert(name@));
        }
        Ok(())
    }

    /// Lets a peer into a room, and gives it a number.
    pub fn connect(&mut self, access: &Access, name: &str, role: Role, token: &str) -> (result:
        Result<u128, Refusal>)
        requires
            old(self).wf(),
            access.wf(),
        ensures
            final(self).wf(),
            match result {
                Ok(id) => {
                    &&& refused(old(self)@, *access, name@, role, token@) is None
                    &&& final(self)@ == joined_room(old(self)@, name@, role, id)
                },
                Err(refusal) => {
                    &&& refused(old(self)@, *access, name@, role, token@) == Some(refusal)
                    &&& final(self)@ == old(self)@
                },
            },
    {
        let id: u128 = new_peer_id();
        match self.let_in(access, name, role, token, id) {
            Ok(_) => Ok(id),
            Err(refusal) => Err(refusal),
        }
    }

    /// Frees the place of a peer that has gone, and says who is told so.
    pub fn cleanup(&mut self, name: &str, role: Role, id: u128) -> (told: Option<u128>)
        requires
            old(self).wf(),
        ensures
            final(self).wf(),
            final(self)@ == left_room(old(self)@, name@, role, id),
            told == told_of_leaving(old(self)@, name@, role, id),
    {
        let ghost before = self@;
        let room = match self.rooms.get(name) {
            Some(room) => *room,
            None => return None,
        };
        let mut told: Option<u128> = None;
        let mut rest = room;
        if let Some(peer) = room.slot(role) {
            if peer.id == id {
                rest = room.set(role, None);
                if peer.active {
                    if let Some(other) = room.other(role) {
                        told = Some(other.id);
                    }
                }
            }
        }
        if rest.home.is_none() && rest.browser.is_none() {
            self.rooms.remove(name);
            proof {
                assert(self@.dom() =~= before.dom().remove(name@));
                assert forall|other: Seq<char>| #[trigger] self@.contains_key(other) implies
                    valid_name(other) && !self@[other].empty() by {
                    assert(before.contains_key(other));
                }
            }
        } else {
            self.rooms.insert(name.to_owned(), rest);
            proof {
                assert(self@.dom() =~= before.dom());
                assert forall|other: Seq<char>| #[trigger] self@.contains_key(other) implies
                    valid_name(other) && !self@[other].empty() by {
                    assert(before.contains_key(other));
                }
            }
        }
        told
    }

    /// Opens the connection of the peer in a place, and says who is told that it
    /// joined: the peer opposite, where its connection is open.
    pub fn activate(&mut self, name: &str, role: Role) -> (told: Option<u128>)
        requires
            old(self).wf(),
            old(self)@.contains_key(name@),
        ensures
            final(self).wf(),
            final(self)@ == opened_place(old(self)@, name@, role),
            told == open_opposite(old(self)@, name@, role),
    {
        let ghost before = self@;
        let room = match self.rooms.get(name) {
            Some(room) => *room,
            None => return None,
        };
        if let Some(peer) = room.slot(role) {
            let changed = room.set(role, Some(Peer { active: true, ..peer }));
            self.rooms.insert(name.to_owned(), changed);
            proof {
                assert(self@.dom() =~= before.dom());
                assert forall|other: Seq<char>| #[trigger] self@.contains_key(other) implies
                    valid_name(other) && !self@[other].empty() by {
                    assert(before.contains_key(other));
                }
            }
        }
        match room.other(role) {
            Some(peer) if peer.active => Some(peer.id),
            _ => None,
        }
    }

    /// Lists who is in the rooms: in all of them, or in `own` alone. The order is
    /// left open.
    pub fn online(&self, own_room_only: bool, own: &str) -> (list: Vec<RoomInfo>)
        requires
            self.wf(),
        ensures
            lists_rooms(list@, self@, own_room_only, own@),
    {
        let ghost entries = self.rooms.list();
        let mut list: Vec<RoomInfo> = Vec::new();
        let total: usize = self.rooms.len();
        proof {
            self.rooms.lemma_list();
        }
        for i in 0..total
            invariant
                self.wf(),
                entries == self.rooms.list(),
                total == entries.len(),
                names_distinct(entries),
                forall|k: int|
                    0 <= k < entries.len() ==> {
                        &&& self@.contains_key((#[trigger] entries[k]).0@)
                        &&& self@[entries[k].0@] == entries[k].1
                    },
                forall|k: int, j: int|
                    0 <= k < j < list@.len() ==> (#[trigger] list@[k]).name@ != (
                    #[trigger] list@[j]).name@,
                forall|k: int|
                    0 <= k < list@.len() ==> {
                        let info = #[trigger] list@[k];
                        &&& self@.contains_key(info.name@)
                        &&& shown(own_room_only, own@, info.name@)
                        &&& info.has_home == present(self@[info.name@].home)
                        &&& info.has_browser == present(self@[info.name@].browser)
                    },
                forall|k: int, j: int|
                    0 <= k < list@.len() && i <= j < entries.len() ==> (#[trigger] list@[k]).name@
                        != (#[trigger] entries[j]).0@,
                forall|j: int|
                    0 <= j < i && shown(own_room_only, own@, (#[trigger] entries[j]).0@)
                        ==> exists|k: int|
                        0 <= k < list@.len() && (#[trigger] list@[k]).name@ == entries[j].0@,
        {
            let (name, room) = self.rooms.at(i);
            let ghost before = list@;
            assert(entries[i as int].0@ == name@);
            if !own_room_only || text_equal(name.as_str(), own) {
                let has_home = match room.home {
                    Some(peer) => peer.active,
                    None => false,
                };
                let has_browser = match room.browser {
                    Some(peer) => peer.active,
                    None => false,
                };
                list.push(RoomInfo { name: name.clone(), has_home, has_browser });
                proof {
                    let last = list@.len() - 1;
                    assert(list@[last].name@ == name@);
                    assert forall|k: int| 0 <= k < last implies list@[k] == before[k] by {}
                    assert forall|j: int|
                        0 <= j < i + 1 && shown(
                            own_room_only,
                            own@,
                            (#[trigger] entries[j]).0@,
                        ) implies exists|k: int|
                        0 <= k < list@.len() && (#[trigger] list@[k]).name@ == entries[j].0@ by {
                        if j < i {
                            let k = choose|k: int|
                                0 <= k < before.len() && (#[trigger] before[k]).name@
                                    == entries[j].0@;
                            assert(list@[k].name@ == entries[j].0@);
                        }
                    }
                }
            }
        }
        proof {
            assert forall|name: Seq<char>| #[trigger]
                self@.contains_key(name) && shown(own_room_only, own@, name) implies exists|i: int|
                0 <= i < list@.len() && (#[trigger] list@[i]).name@ == name by {
                let j = choose|j: int| 0 <= j < entries.len() && (#[trigger] entries[j]).0@ == name;
                assert(shown(own_room_only, own@, entries[j].0@));
            }
        }
        list
    }

    /// Who a message is passed to: the peer opposite, where its connection is open.
    pub fn target(&self, name: &str, role: Role) -> (peer: Option<u128>)
        requires
            self.wf(),
        ensures
            peer == open_opposite(self@, name@, role),
    {
        match self.rooms.get(name) {
            Some(room) => match room.other(role) {
                Some(peer) if peer.active => Some(peer.id),
                _ => None,
            },
            None => None,
        }
    }
}

/// A peer whose place another one has taken since frees nothing and tells nobody.
pub proof fn lemma_old_cleanup_keeps_replacement(
    rooms: Map<Seq<char>, Room>,
    name: Seq<char>,
    role: Role,
    id: u128,
)
    requires
        rooms_valid(rooms),
        !holds_place(room_of(rooms, name), role, id),
    ensures
        left_room(rooms, name, role, id) == rooms,
        told_of_leaving(rooms, name, role, id) is None,
{
    if rooms.contains_key(name) {
        assert(!rooms[name].empty());
        assert(rooms.insert(name, rooms[name]) =~= rooms);
    }
}

/// A peer that joins and leaves again leaves the rooms as they were.
pub proof fn lemma_join_and_leave(
    rooms: Map<Seq<char>, Room>,
    access: Access,
    name: Seq<char>,
    role: Role,
    token: Seq<char>,
    id: u128,
)
    requires
        rooms_valid(rooms),
        refused(rooms, access, name, role, token) is None,
    ensures
        left_room(joined_room(rooms, name, role, id), name, role, id) == rooms,
        told_of_leaving(joined_room(rooms, name, role, id), name, role, id) is None,
{
    let joined = joined_room(rooms, name, role, id);
    let room = room_of(rooms, name);
    assert(joined[name].with(role, None) == room);
    if rooms.contains_key(name) {
        assert(!rooms[name].empty());
        assert(joined.insert(name, room) =~= rooms);
    } else {
        assert(joined.remove(name) =~= rooms);
    }
}

/// A place is given to one peer at a time: the second is refused until the first has gone.
pub proof fn lemma_one_peer_per_place(
    rooms: Map<Seq<char>, Room>,
    access: Access,
    name: Seq<char>,
    role: Role,
    token: Seq<char>,
    id: u128,
)
    requires
        refused(rooms, access, name, role, token) is None,
    ensures
        refused(joined_room(rooms, name, role, id), access, name, role, token) == Some(
            Refusal::Taken,
        ),
{
}

/// Whoever does not know the token of a room is refused, whatever the room
/// holds, and learns nothing of it.
pub proof fn lemma_token_comes_first(
    rooms: Map<Seq<char>, Room>,
    access: Access,
    name: Seq<char>,
    role: Role,
    token: Seq<char>,
)
    requires
        !access.opens(name, token),
    ensures
        refused(rooms, access, name, role, token) == Some(Refusal::Unauthorized),
{
}

/// Joining, opening and leaving in one room change no other room.
pub proof fn lemma_rooms_are_apart(
    rooms: Map<Seq<char>, Room>,
    name: Seq<char>,
    other: Seq<char>,
    role: Role,
    id: u128,
)
    requires
        name != other,
    ensures
        room_of(joined_room(rooms, name, role, id), other) == room_of(rooms, other),
        room_of(left_room(rooms, name, role, id), other) == room_of(rooms, other),
        rooms.contains_key(name) ==> room_of(opened_place(rooms, name, role), other) == room_of(
            rooms,
            other,
        ),
{
}

/// The two peers of a room find each other once both connections are open, and
/// each is told of the other: the first when the second joins.
pub proof fn lemma_peers_find_each_other(
    rooms: Map<Seq<char>, Room>,
    name: Seq<char>,
    role: Role,
    first: u128,
    second: u128,
)
    requires
        !rooms.contains_key(name),
    ensures
        ({
            let other = match role {
                Role::Home => Role::Browser,
                Role::Browser => Role::Home,
            };
            let one = opened_place(joined_room(rooms, name, role, first), name, role);
            let both = joined_room(one, name, other, second);
            let open = opened_place(both, name, other);
            &&& open_opposite(one, name, role) is None
            &&& open_opposite(both, name, other) == Some(first)
            &&& open_opposite(both, name, role) is None
            &&& open_opposite(open, name, role) == Some(second)
            &&& open_opposite(open, name, other) == Some(first)
        }),
{
}

/// A room has a place for the home agent and one for the browser, each opposite
/// the other; changing one leaves the other.
pub proof fn lemma_places(room: Room, peer: Option<Peer>)
    ensures
        room.place(Role::Home) == room.home && room.place(Role::Browser) == room.browser,
        room.opposite(Role::Home) == room.browser && room.opposite(Role::Browser) == room.home,
        room.with(Role::Home, peer).home == peer && room.with(Role::Home, peer).browser
            == room.browser,
        room.with(Role::Browser, peer).browser == peer && room.with(Role::Browser, peer).home
            == room.home,
        room.empty() <==> room.home is None && room.browser is None,
{
}

/// A peer is let in exactly where its token opens the room, the name of the room
/// is valid, its place is free, and the room is known or fewer than 128 are.
/// Otherwise the first of these that is wrong is named.
pub proof fn lemma_let_in(
    rooms: Map<Seq<char>, Room>,
    access: Access,
    name: Seq<char>,
    role: Role,
    token: Seq<char>,
)
    ensures
        ({
            let result = refused(rooms, access, name, role, token);
            let opens = access.opens(name, token);
            let room_left = rooms.contains_key(name) || rooms.dom().len() < 128;
            let taken = rooms.contains_key(name) && match role {
                Role::Home => rooms[name].home is Some,
                Role::Browser => rooms[name].browser is Some,
            };
            &&& result is None <==> opens && valid_name(name) && room_left && !taken
            &&& result == Some(Refusal::Unauthorized) <==> !opens
            &&& result == Some(Refusal::InvalidRoom) <==> opens && !valid_name(name)
            &&& result == Some(Refusal::Full) <==> opens && valid_name(name) && !room_left
            &&& result == Some(Refusal::Taken) <==> opens && valid_name(name) && taken
        }),
{
}

/// A peer that is let in stands in its place, with its number and without an
/// open connection; whoever is opposite stays.
pub proof fn lemma_joined(rooms: Map<Seq<char>, Room>, name: Seq<char>, role: Role, id: u128)
    ensures
        ({
            let after = joined_room(rooms, name, role, id);
            &&& after.dom() == rooms.dom().insert(name)
            &&& after[name].place(role) == Some(Peer { id, active: false })
            &&& rooms.contains_key(name) ==> after[name].opposite(role) == rooms[name].opposite(
                role,
            )
            &&& !rooms.contains_key(name) ==> after[name].opposite(role) is None
        }),
{
    assert(joined_room(rooms, name, role, id).dom() =~= rooms.dom().insert(name));
}

/// A peer that goes frees its place; whoever is opposite stays and is told, where
/// the connection of the one that goes had been open. A room that nobody is left
/// in is gone.
pub proof fn lemma_left(
    rooms: Map<Seq<char>, Room>,
    name: Seq<char>,
    role: Role,
    id: u128,
    active: bool,
)
    requires
        rooms.contains_key(name),
        rooms[name].place(role) == Some(Peer { id, active }),
    ensures
        ({
            let after = left_room(rooms, name, role, id);
            let opposite = rooms[name].opposite(role);
            &&& opposite is None ==> after == rooms.remove(name)
            &&& opposite is Some ==> after.contains_key(name) && after[name].place(role) is None
                && after[name].opposite(role) == opposite
            &&& active ==> (opposite matches Some(peer) ==> told_of_leaving(rooms, name, role, id)
                == Some(peer.id))
            &&& !active || opposite is None ==> told_of_leaving(rooms, name, role, id) is None
        }),
{
}

/// Opening a connection marks the peer in its place and nobody else; it keeps its
/// number.
pub proof fn lemma_opened_place(rooms: Map<Seq<char>, Room>, name: Seq<char>, role: Role)
    requires
        rooms.contains_key(name),
    ensures
        ({
            let after = opened_place(rooms, name, role);
            &&& after.dom() == rooms.dom()
            &&& after[name].opposite(role) == rooms[name].opposite(role)
            &&& rooms[name].place(role) matches Some(peer) ==> after[name].place(role) == Some(
                Peer { id: peer.id, active: true },
            )
            &&& rooms[name].place(role) is None ==> after == rooms
        }),
{
    assert(opened_place(rooms, name, role).dom() =~= rooms.dom());
}

/// A message of the home agent goes to the browser in its room, one of the browser
/// to the home agent, exactly where that one's connection is open.
pub proof fn lemma_open_opposite(
    rooms: Map<Seq<char>, Room>,
    name: Seq<char>,
    role: Role,
    id: u128,
)
    ensures
        open_opposite(rooms, name, Role::Home) == Some(id) <==> rooms.contains_key(name) && (
        rooms[name].browser matches Some(peer) && peer.active && peer.id == id),
        open_opposite(rooms, name, Role::Browser) == Some(id) <==> rooms.contains_key(name) && (
        rooms[name].home matches Some(peer) && peer.active && peer.id == id),
        !rooms.contains_key(name) ==> open_opposite(rooms, name, role) is None,
{
}

/// A list of the rooms shows each with who is in it, a peer only where its
/// connection is open: every room, or the caller's own alone.
pub proof fn lemma_listed(
    list: Seq<RoomInfo>,
    rooms: Map<Seq<char>, Room>,
    own_room_only: bool,
    own: Seq<char>,
    name: Seq<char>,
)
    requires
        lists_rooms(list, rooms, own_room_only, own),
    ensures
        rooms.contains_key(name) && (!own_room_only || name == own) ==> exists|i: int|
            0 <= i < list.len() && {
                let info = #[trigger] list[i];
                &&& info.name@ == name
                &&& info.has_home == (rooms[name].home matches Some(peer) && peer.active)
                &&& info.has_browser == (rooms[name].browser matches Some(peer) && peer.active)
            },
        forall|i: int|
            0 <= i < list.len() ==> rooms.contains_key((#[trigger] list[i]).name@) && (
            own_room_only ==> list[i].name@ == own),
{
    if rooms.contains_key(name) && (!own_room_only || name == own) {
        assert(shown(own_room_only, own, name));
        let i = choose|i: int| 0 <= i < list.len() && (#[trigger] list[i]).name@ == name;
        assert(list[i].has_home == present(rooms[list[i].name@].home));
    }
}

/// What the server answers to a peer that it does not let in.
pub proof fn lemma_refusals()
    ensures
        refusal_status(Refusal::Unauthorized) == 401 && refusal_words(Refusal::Unauthorized)
            == "invalid room or token"@,
        refusal_status(Refusal::InvalidRoom) == 400 && refusal_words(Refusal::InvalidRoom)
            == "invalid room"@,
        refusal_status(Refusal::Full) == 503 && refusal_words(Refusal::Full)
            == "room capacity reached"@,
        refusal_status(Refusal::Taken) == 409 && refusal_words(Refusal::Taken)
            == "role already connected"@,
{
}

/// There are never more than 128 rooms, and somebody is in each.
pub proof fn lemma_rooms_valid(rooms: Map<Seq<char>, Room>, name: Seq<char>)
    requires
        rooms_valid(rooms),
    ensures
        rooms.dom().len() <= 128,
        rooms.contains_key(name) ==> valid_name(name) && (rooms[name].home is Some
            || rooms[name].browser is Some),
{
}

} // verus!
