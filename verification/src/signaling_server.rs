//! The signaling relay: pairs a host with its guests by a short numeric code
//! and passes on whatever they send each other.
//!
//! The relay never looks into a payload. The video itself is peer to peer and
//! never comes here.

use crate::json;
use crate::signaling_client::{ClientMessage, ClientMessageView, SignalingEventView};
use crate::text;
use rand::RngExt;
use serde_json::Value;
use std::collections::HashMap;
use vstd::prelude::*;
use vstd::string::*;

verus! {

broadcast use vstd::std_specs::hash::group_hash_axioms;

/// Identifies one guest within a room, in join order from 0.
pub type GuestId = u32;

/// Identifies one connection to the relay.
pub type ConnId = u64;

/// A guest's place in a room.
#[derive(Clone, Copy, PartialEq, Eq, Structural)]
pub struct Guest {
    pub id: GuestId,
    pub conn: ConnId,
}

/// What a connection is in its room.
#[derive(Clone, Copy, PartialEq, Eq, Structural)]
pub enum Role {
    Host,
    Guest(GuestId),
}

/// Messages the relay sends to a client.
pub enum ServerMessage {
    /// The code to share with whoever is going to watch.
    Hosting { code: String },
    /// To the host, the id of the guest that joined; to a guest, `None`.
    Paired { guest_id: Option<GuestId> },
    /// To the host, the id of the guest that left; to a guest, `None`.
    PeerLeft { guest_id: Option<GuestId> },
    /// A payload from the other side; to the host, with the sender's id.
    Relay { guest_id: Option<GuestId>, payload: Value },
    /// A request was refused.
    Error { message: String },
}

/// What a [`ServerMessage`] says.
pub enum ServerMessageView {
    Hosting { code: Seq<char> },
    Paired { guest_id: Option<GuestId> },
    PeerLeft { guest_id: Option<GuestId> },
    Relay { guest_id: Option<GuestId>, payload: Value },
    Error { message: Seq<char> },
}

impl View for ServerMessage {
    type V = ServerMessageView;

    open spec fn view(&self) -> ServerMessageView {
        match *self {
            ServerMessage::Hosting { code } => ServerMessageView::Hosting { code: code@ },
            ServerMessage::Paired { guest_id } => ServerMessageView::Paired { guest_id },
            ServerMessage::PeerLeft { guest_id } => ServerMessageView::PeerLeft { guest_id },
            ServerMessage::Relay { guest_id, payload } => ServerMessageView::Relay {
                guest_id,
                payload,
            },
            ServerMessage::Error { message } => ServerMessageView::Error { message: message@ },
        }
    }
}

/// A message says what it is: the same news, with the same code, guest,
/// payload and words.
pub proof fn law_a_message_says_what_it_is(message: ServerMessage)
    ensures
        match (message, message@) {
            (ServerMessage::Hosting { code }, ServerMessageView::Hosting { code: said }) => said
                == code@,
            (
                ServerMessage::Paired { guest_id },
                ServerMessageView::Paired { guest_id: said },
            ) => said == guest_id,
            (
                ServerMessage::PeerLeft { guest_id },
                ServerMessageView::PeerLeft { guest_id: said },
            ) => said == guest_id,
            (
                ServerMessage::Relay { guest_id, payload },
                ServerMessageView::Relay { guest_id: named, payload: said },
            ) => named == guest_id && said == payload,
            (ServerMessage::Error { message: words }, ServerMessageView::Error { message: said }) =>
                said == words@,
            _ => false,
        },
{
}

/// A message and the connection it goes to.
pub struct Outgoing {
    pub to: ConnId,
    pub message: ServerMessage,
}

/// What an [`Outgoing`] says.
pub struct OutgoingView {
    pub to: ConnId,
    pub message: ServerMessageView,
}

impl View for Outgoing {
    type V = OutgoingView;

    open spec fn view(&self) -> OutgoingView {
        OutgoingView { to: self.to, message: self.message@ }
    }
}

/// The messages of a list, in order.
pub open spec fn outgoing_views(out: Seq<Outgoing>) -> Seq<OutgoingView> {
    out.map_values(|o: Outgoing| o@)
}

struct Room {
    code: String,
    host: ConnId,
    guests: Vec<Guest>,
    max_viewers: Option<u32>,
    next_guest_id: GuestId,
}

/// One room: its host and its guests, in join order.
pub struct RoomView {
    pub host: ConnId,
    pub guests: Seq<Guest>,
    pub max_viewers: Option<u32>,
    pub next_guest_id: GuestId,
}

impl Room {
    spec fn room(self) -> RoomView {
        RoomView {
            host: self.host,
            guests: self.guests@,
            max_viewers: self.max_viewers,
            next_guest_id: self.next_guest_id,
        }
    }
}

impl RoomView {
    /// Whether the room takes no further guest.
    pub open spec fn is_full(self) -> bool {
        self.max_viewers matches Some(max) && self.guests.len() >= max
    }

    /// Whether guest `id` is in the room.
    pub open spec fn has_guest(self, id: GuestId) -> bool {
        exists|i: int| 0 <= i < self.guests.len() && (#[trigger] self.guests[i]).id == id
    }

    /// Whether guest `id` is in the room, behind `conn`.
    pub open spec fn holds(self, id: GuestId, conn: ConnId) -> bool {
        self.guests.contains(Guest { id, conn })
    }

    /// The connection of guest `id`.
    pub open spec fn guest_conn(self, id: GuestId) -> ConnId {
        let i = choose|i: int| 0 <= i < self.guests.len() && (#[trigger] self.guests[i]).id == id;
        self.guests[i].conn
    }

    /// The room with one more guest.
    pub open spec fn with_guest(self, conn: ConnId) -> RoomView {
        RoomView {
            guests: self.guests.push(Guest { id: self.next_guest_id, conn }),
            next_guest_id: (self.next_guest_id + 1) as u32,
            ..self
        }
    }

    /// The room without guest `id`.
    pub open spec fn without_guest(self, id: GuestId) -> RoomView {
        RoomView { guests: self.guests.filter(|g: Guest| g.id != id), ..self }
    }

    /// Guest ids are handed out in join order and never twice, and the room
    /// never holds more guests than its host allowed.
    pub open spec fn inv(self) -> bool {
        &&& forall|i: int|
            0 <= i < self.guests.len() ==> (#[trigger] self.guests[i]).id < self.next_guest_id
        &&& forall|i: int, j: int|
            0 <= i < j < self.guests.len() ==> (#[trigger] self.guests[i]).id < (
            #[trigger] self.guests[j]).id
        &&& self.guests.len() <= self.next_guest_id
        &&& self.max_viewers matches Some(max) ==> self.guests.len() <= max
    }
}

struct Membership {
    code: String,
    role: Role,
}

/// The room a connection is in, and as what.
pub struct MembershipView {
    pub code: Seq<char>,
    pub role: Role,
}

impl Membership {
    spec fn membership(self) -> MembershipView {
        MembershipView { code: self.code@, role: self.role }
    }
}

/// The whole state of the relay.
#[verifier::ext_equal]
pub struct ServerView {
    /// The open rooms, by pairing code.
    pub rooms: Map<Seq<char>, RoomView>,
    /// The room each connection asked to be in. It outlives the room: a guest
    /// stays a member when the host closes the room under it.
    pub members: Map<ConnId, MembershipView>,
    /// The id of the next connection.
    pub next_conn: ConnId,
}

/// A pairing code: the numeral of a six-digit number.
pub open spec fn is_pairing_code(code: Seq<char>) -> bool {
    exists|n: nat| 100_000 <= n < 1_000_000 && code == #[trigger] text::decimal_text(n)
}

/// A message to one connection.
pub open spec fn say(to: ConnId, message: ServerMessageView) -> OutgoingView {
    OutgoingView { to, message }
}

/// The refusal of a request.
pub open spec fn refusal(to: ConnId, message: Seq<char>) -> OutgoingView {
    say(to, ServerMessageView::Error { message })
}

impl ServerView {
    /// What every operation keeps: the rooms are sound, their codes are
    /// pairing codes, everyone in a room is a member of that room in that
    /// role, so nobody is in two rooms or in one room twice, and every host
    /// has its room.
    pub open spec fn inv(self) -> bool {
        &&& forall|code: Seq<char>| #[trigger]
            self.rooms.contains_key(code) ==> {
                &&& is_pairing_code(code)
                &&& self.rooms[code].inv()
                &&& self.members.contains_key(self.rooms[code].host)
                &&& self.members[self.rooms[code].host] == (MembershipView {
                    code,
                    role: Role::Host,
                })
            }
        &&& forall|code: Seq<char>, i: int|
            #![trigger self.rooms[code].guests[i]]
            self.rooms.contains_key(code) && 0 <= i < self.rooms[code].guests.len() ==> {
                let guest = self.rooms[code].guests[i];
                &&& self.members.contains_key(guest.conn)
                &&& self.members[guest.conn] == (MembershipView {
                    code,
                    role: Role::Guest(guest.id),
                })
            }
        &&& forall|conn: ConnId| #[trigger]
            self.members.contains_key(conn) ==> {
                &&& conn < self.next_conn
                &&& self.members[conn].role is Host ==> {
                    &&& self.rooms.contains_key(self.members[conn].code)
                    &&& self.rooms[self.members[conn].code].host == conn
                }
            }
    }

    /// Whether a request of `conn` to join the room `code` lets it in.
    pub open spec fn lets_in(self, conn: ConnId, code: Seq<char>) -> bool {
        &&& !self.members.contains_key(conn)
        &&& self.rooms.contains_key(code)
        &&& !self.rooms[code].is_full()
    }

    /// Whether a message of `conn` can be handled: the guest that it lets in,
    /// if it lets one in, can be numbered.
    pub open spec fn can_number(self, conn: ConnId, message: ClientMessageView) -> bool {
        message matches ClientMessageView::Join(code) ==> self.lets_in(conn, code)
            ==> self.rooms[code].next_guest_id < u32::MAX
    }

    /// The state and the replies after `conn` asks to host a room for which
    /// the code `code` was drawn.
    pub open spec fn host_step(
        self,
        conn: ConnId,
        max_viewers: Option<u32>,
        code: Seq<char>,
    ) -> (ServerView, Seq<OutgoingView>) {
        if self.members.contains_key(conn) {
            (self, seq![refusal(conn, "já está em uma sala"@)])
        } else {
            let room = RoomView {
                host: conn,
                guests: Seq::empty(),
                max_viewers,
                next_guest_id: 0,
            };
            (
                ServerView {
                    rooms: self.rooms.insert(code, room),
                    members: self.members.insert(
                        conn,
                        MembershipView { code, role: Role::Host },
                    ),
                    ..self
                },
                seq![say(conn, ServerMessageView::Hosting { code })],
            )
        }
    }

    /// The state and the replies after `conn` asks to join the room `code`.
    pub open spec fn join_step(self, conn: ConnId, code: Seq<char>) -> (
        ServerView,
        Seq<OutgoingView>,
    ) {
        if self.members.contains_key(conn) {
            (self, seq![refusal(conn, "já está em uma sala"@)])
        } else if !self.rooms.contains_key(code) {
            (self, seq![refusal(conn, "código não encontrado"@)])
        } else if self.rooms[code].is_full() {
            (self, seq![refusal(conn, "sala já está cheia"@)])
        } else {
            let room = self.rooms[code];
            let id = room.next_guest_id;
            (
                ServerView {
                    rooms: self.rooms.insert(code, room.with_guest(conn)),
                    members: self.members.insert(
                        conn,
                        MembershipView { code, role: Role::Guest(id) },
                    ),
                    ..self
                },
                seq![
                    say(room.host, ServerMessageView::Paired { guest_id: Some(id) }),
                    say(conn, ServerMessageView::Paired { guest_id: None }),
                ],
            )
        }
    }

    /// The messages sent after `conn` asks to pass on `payload`. A guest whose
    /// room was closed reaches nobody, even where another room has got the
    /// same code since.
    pub open spec fn relay_step(self, conn: ConnId, payload: Value, to: Option<GuestId>) -> Seq<
        OutgoingView,
    > {
        if !self.members.contains_key(conn) {
            seq![refusal(conn, "entre numa sala primeiro"@)]
        } else if !self.rooms.contains_key(self.members[conn].code) {
            Seq::empty()
        } else {
            let room = self.rooms[self.members[conn].code];
            match self.members[conn].role {
                Role::Host => match to {
                    Some(id) => if room.has_guest(id) {
                        seq![
                            say(
                                room.guest_conn(id),
                                ServerMessageView::Relay { guest_id: None, payload },
                            ),
                        ]
                    } else {
                        Seq::empty()
                    },
                    None => Seq::empty(),
                },
                Role::Guest(id) => if room.holds(id, conn) {
                    seq![
                        say(room.host, ServerMessageView::Relay { guest_id: Some(id), payload }),
                    ]
                } else {
                    Seq::empty()
                },
            }
        }
    }

    /// Whether a pairing code is left for a new room.
    pub open spec fn has_free_code(self) -> bool {
        exists|code: Seq<char>| #[trigger]
            is_pairing_code(code) && !self.rooms.contains_key(code)
    }

    /// Whether `after` and `sends` are what a message of `conn` may lead to.
    /// Only the code of a new room is left to chance. A host that asks for a
    /// room when no code is left gets no answer.
    pub open spec fn message_step(
        self,
        conn: ConnId,
        message: ClientMessageView,
        after: ServerView,
        sends: Seq<OutgoingView>,
    ) -> bool {
        match message {
            ClientMessageView::Host { max_viewers } => if self.members.contains_key(conn) {
                after == self && sends == seq![refusal(conn, "já está em uma sala"@)]
            } else if self.has_free_code() {
                exists|code: Seq<char>|
                    {
                        &&& #[trigger] is_pairing_code(code)
                        &&& !self.rooms.contains_key(code)
                        &&& (after, sends) == self.host_step(conn, max_viewers, code)
                    }
            } else {
                after == self && sends.len() == 0
            },
            ClientMessageView::Join(code) => (after, sends) == self.join_step(conn, code),
            ClientMessageView::Relay { payload, to } => after == self && sends == self.relay_step(
                conn,
                payload,
                to,
            ),
            ClientMessageView::Leave => (after, sends) == self.depart_step(conn),
        }
    }

    /// The state and the messages after `conn` is gone, on purpose or not. A
    /// guest whose room was closed is in no room any more, even where another
    /// room has got the same code since.
    pub open spec fn depart_step(self, conn: ConnId) -> (ServerView, Seq<OutgoingView>) {
        if !self.members.contains_key(conn) {
            (self, Seq::empty())
        } else {
            let code = self.members[conn].code;
            let members = self.members.remove(conn);
            if !self.rooms.contains_key(code) {
                (ServerView { members, ..self }, Seq::empty())
            } else {
                let room = self.rooms[code];
                match self.members[conn].role {
                    Role::Host => (
                        ServerView { rooms: self.rooms.remove(code), members, ..self },
                        room.guests.map_values(
                            |g: Guest| say(g.conn, ServerMessageView::PeerLeft { guest_id: None }),
                        ),
                    ),
                    Role::Guest(id) => if room.holds(id, conn) {
                        (
                            ServerView {
                                rooms: self.rooms.insert(code, room.without_guest(id)),
                                members,
                                ..self
                            },
                            seq![
                                say(room.host, ServerMessageView::PeerLeft { guest_id: Some(id) }),
                            ],
                        )
                    } else {
                        (ServerView { members, ..self }, Seq::empty())
                    },
                }
            }
        }
    }
}

/// How many random codes are tried before the free ones are searched in
/// order.
const CODE_DRAWS: u32 = 1000;

/// `rand`'s `random_range` on the thread's generator: a number from `low` up
/// to, but not including, `high`. Which one is left to chance. The range must
/// not be empty, or `random_range` panics.
#[verifier::external_body]
fn random_in(low: u32, high: u32) -> (n: u32)
    requires
        low < high,
    ensures
        low <= n < high,
{
    rand::rng().random_range(low..high)
}

/// The relay: its open rooms and who is in them.
pub struct SignalingServer {
    rooms: Vec<Room>,
    members: HashMap<ConnId, Membership>,
    next_conn: ConnId,
}

spec fn has_code(rooms: Seq<Room>, code: Seq<char>) -> bool {
    exists|i: int| 0 <= i < rooms.len() && (#[trigger] rooms[i]).code@ == code
}

spec fn code_index(rooms: Seq<Room>, code: Seq<char>) -> int {
    choose|i: int| 0 <= i < rooms.len() && (#[trigger] rooms[i]).code@ == code
}

spec fn codes_distinct(rooms: Seq<Room>) -> bool {
    forall|i: int, j: int|
        0 <= i < j < rooms.len() ==> (#[trigger] rooms[i]).code@ != (#[trigger] rooms[j]).code@
}

spec fn rooms_by_code(rooms: Seq<Room>) -> Map<Seq<char>, RoomView> {
    Map::new(
        |code: Seq<char>| has_code(rooms, code),
        |code: Seq<char>| rooms[code_index(rooms, code)].room(),
    )
}

proof fn lemma_room_at(rooms: Seq<Room>, i: int)
    requires
        codes_distinct(rooms),
        0 <= i < rooms.len(),
    ensures
        rooms_by_code(rooms).contains_key(rooms[i].code@),
        rooms_by_code(rooms)[rooms[i].code@] == rooms[i].room(),
{
    assert(has_code(rooms, rooms[i].code@));
    let k = code_index(rooms, rooms[i].code@);
    assert(0 <= k < rooms.len() && rooms[k].code@ == rooms[i].code@);
    assert(k == i);
}

proof fn lemma_rooms_push(rooms: Seq<Room>, room: Room)
    requires
        codes_distinct(rooms),
        !has_code(rooms, room.code@),
    ensures
        codes_distinct(rooms.push(room)),
        rooms_by_code(rooms.push(room)) == rooms_by_code(rooms).insert(room.code@, room.room()),
{
    let after = rooms.push(room);
    assert(codes_distinct(after)) by {
        assert forall|i: int, j: int| 0 <= i < j < after.len() implies (#[trigger] after[i]).code@
            != (#[trigger] after[j]).code@ by {
            assert(after[i] == rooms[i]);
            if j < rooms.len() {
                assert(after[j] == rooms[j]);
            }
        }
    }
    assert forall|code: Seq<char>| has_code(after, code) == (has_code(rooms, code) || code
        == room.code@) by {
        if has_code(rooms, code) {
            let i = code_index(rooms, code);
            assert(after[i].code@ == code);
        }
        if code == room.code@ {
            assert(after[rooms.len() as int].code@ == code);
        }
        if has_code(after, code) {
            let i = code_index(after, code);
            if i < rooms.len() {
                assert(rooms[i].code@ == code);
            }
        }
    }
    assert forall|code: Seq<char>| has_code(after, code) implies #[trigger] rooms_by_code(
        after,
    )[code] == rooms_by_code(rooms).insert(room.code@, room.room())[code] by {
        let i = code_index(after, code);
        lemma_room_at(after, i);
        if i < rooms.len() {
            assert(after[i] == rooms[i]);
            lemma_room_at(rooms, i);
        }
    }
    assert(rooms_by_code(after) =~= rooms_by_code(rooms).insert(room.code@, room.room()));
}

proof fn lemma_rooms_remove(rooms: Seq<Room>, at: int)
    requires
        codes_distinct(rooms),
        0 <= at < rooms.len(),
    ensures
        codes_distinct(rooms.remove(at)),
        rooms_by_code(rooms.remove(at)) == rooms_by_code(rooms).remove(rooms[at].code@),
{
    let after = rooms.remove(at);
    let gone = rooms[at].code@;
    assert forall|i: int| 0 <= i < after.len() implies #[trigger] after[i] == rooms[if i < at {
        i
    } else {
        i + 1
    }] by {}
    assert(codes_distinct(after));
    assert forall|code: Seq<char>| has_code(after, code) == (has_code(rooms, code) && code
        != gone) by {
        if has_code(rooms, code) && code != gone {
            let i = code_index(rooms, code);
            let k = if i < at {
                i
            } else {
                i - 1
            };
            assert(after[k].code@ == code);
        }
        if has_code(after, code) {
            let i = code_index(after, code);
            assert(after[i].code@ == code);
            let k = if i < at {
                i
            } else {
                i + 1
            };
            assert(rooms[k].code@ == code);
        }
    }
    assert forall|code: Seq<char>| has_code(after, code) implies #[trigger] rooms_by_code(
        after,
    )[code] == rooms_by_code(rooms)[code] by {
        let i = code_index(after, code);
        lemma_room_at(after, i);
        let k = if i < at {
            i
        } else {
            i + 1
        };
        assert(after[i] == rooms[k]);
        lemma_room_at(rooms, k);
    }
    assert(rooms_by_code(after) =~= rooms_by_code(rooms).remove(gone));
}

proof fn lemma_rooms_update(rooms: Seq<Room>, at: int, room: Room)
    requires
        codes_distinct(rooms),
        0 <= at < rooms.len(),
        room.code@ == rooms[at].code@,
    ensures
        codes_distinct(rooms.update(at, room)),
        rooms_by_code(rooms.update(at, room)) == rooms_by_code(rooms).insert(
            room.code@,
            room.room(),
        ),
{
    let after = rooms.update(at, room);
    assert forall|i: int| 0 <= i < after.len() implies (#[trigger] after[i]).code@
        == rooms[i].code@ by {}
    assert(codes_distinct(after)) by {
        assert forall|i: int, j: int| 0 <= i < j < after.len() implies (#[trigger] after[i]).code@
            != (#[trigger] after[j]).code@ by {
            assert(rooms[i].code@ != rooms[j].code@);
        }
    }
    assert forall|code: Seq<char>| has_code(after, code) == has_code(rooms, code) by {
        if has_code(rooms, code) {
            let i = code_index(rooms, code);
            assert(after[i].code@ == code);
        }
        if has_code(after, code) {
            let i = code_index(after, code);
            assert(rooms[i].code@ == code);
        }
    }
    lemma_room_at(rooms, at);
    assert forall|code: Seq<char>| has_code(after, code) implies #[trigger] rooms_by_code(
        after,
    )[code] == rooms_by_code(rooms).insert(room.code@, room.room())[code] by {
        let i = code_index(after, code);
        lemma_room_at(after, i);
        lemma_room_at(rooms, i);
    }
    assert(rooms_by_code(after) =~= rooms_by_code(rooms).insert(room.code@, room.room()));
}

impl SignalingServer {
    /// The rooms, the members and the connection counter.
    pub closed spec fn state(self) -> ServerView {
        ServerView {
            rooms: rooms_by_code(self.rooms@),
            members: self.members@.map_values(|m: Membership| m.membership()),
            next_conn: self.next_conn,
        }
    }

    /// Whether the relay's own tables are sound.
    pub closed spec fn wf(self) -> bool {
        &&& codes_distinct(self.rooms@)
        &&& self.state().inv()
    }

    /// A sound relay keeps the invariant of its rooms and members.
    pub proof fn law_a_sound_relay_keeps_its_invariant(self)
        requires
            self.wf(),
        ensures
            self.state().inv(),
    {
    }

    /// A relay with no rooms.
    pub fn new() -> (server: SignalingServer)
        ensures
            server.wf(),
            (server.state() == ServerView {
                rooms: Map::empty(),
                members: Map::empty(),
                next_conn: 0,
            }),
    {
        let server = SignalingServer { rooms: Vec::new(), members: HashMap::new(), next_conn: 0 };
        assert(server.state().rooms =~= Map::empty());
        assert(server.state().members =~= Map::empty());
        server
    }

    fn find_room(&self, code: &String) -> (r: Option<usize>)
        ensures
            match r {
                Some(i) => i < self.rooms@.len() && self.rooms@[i as int].code@ == code@,
                None => !has_code(self.rooms@, code@),
            },
    {
        let mut i: usize = 0;
        while i < self.rooms.len()
            invariant
                i <= self.rooms@.len(),
                forall|k: int| 0 <= k < i ==> (#[trigger] self.rooms@[k]).code@ != code@,
            decreases self.rooms@.len() - i,
        {
            if self.rooms[i].code == *code {
                return Some(i);
            }
            i += 1;
        }
        None
    }

    /// A pairing code that no open room has: a random one, or, should a
    /// thousand draws all be taken, the smallest free one. `None` only when
    /// every code is taken.
    pub fn generate_unique_code(&self) -> (r: Option<String>)
        requires
            self.wf(),
        ensures
            match r {
                Some(code) => is_pairing_code(code@) && !self.state().rooms.contains_key(code@),
                None => forall|code: Seq<char>| #[trigger]
                    is_pairing_code(code) ==> self.state().rooms.contains_key(code),
            },
    {
        let mut draws: u32 = 0;
        while draws < CODE_DRAWS
            invariant
                self.wf(),
            decreases CODE_DRAWS - draws,
        {
            let n: u32 = random_in(100_000, 1_000_000);
            let code = text::decimal(n as u64);
            if self.find_room(&code).is_none() {
                assert(code@ == text::decimal_text(n as nat));
                return Some(code);
            }
            draws += 1;
        }
        let mut n: u32 = 100_000;
        while n < 1_000_000
            invariant
                self.wf(),
                100_000 <= n <= 1_000_000,
                forall|k: nat|
                    100_000 <= k < n ==> has_code(self.rooms@, #[trigger] text::decimal_text(k)),
            decreases 1_000_000 - n,
        {
            let code = text::decimal(n as u64);
            if self.find_room(&code).is_none() {
                assert(code@ == text::decimal_text(n as nat));
                return Some(code);
            }
            assert(has_code(self.rooms@, text::decimal_text(n as nat)));
            n += 1;
        }
        None
    }

    /// Registers a new connection. `None` only when all ids are used up.
    pub fn connect(&mut self) -> (r: Option<ConnId>)
        requires
            old(self).wf(),
        ensures
            final(self).wf(),
            match r {
                Some(conn) => {
                    &&& conn == old(self).state().next_conn
                    &&& !old(self).state().members.contains_key(conn)
                    &&& final(self).state() == ServerView {
                        next_conn: (conn + 1) as u64,
                        ..old(self).state()
                    }
                },
                None => {
                    &&& old(self).state().next_conn == u64::MAX
                    &&& final(self).state() == old(self).state()
                },
            },
    {
        if self.next_conn == u64::MAX {
            return None;
        }
        let conn = self.next_conn;
        self.next_conn = conn + 1;
        Some(conn)
    }

    /// Whether a message of `conn` can be handled. Any can, unless it lets a
    /// guest into a room that has used up its guest ids.
    pub fn can_handle(&self, conn: ConnId, message: &ClientMessage) -> (r: bool)
        requires
            self.wf(),
        ensures
            r == self.state().can_number(conn, message@),
    {
        match message {
            ClientMessage::Join(code) => {
                if self.members.contains_key(&conn) {
                    return true;
                }
                match self.find_room(code) {
                    Some(at) => {
                        proof {
                            lemma_room_at(self.rooms@, at as int);
                        }
                        self.rooms[at].next_guest_id < u32::MAX || self.is_full(at)
                    },
                    None => true,
                }
            },
            _ => true,
        }
    }

    fn is_full(&self, at: usize) -> (r: bool)
        requires
            at < self.rooms@.len(),
        ensures
            r == self.rooms@[at as int].room().is_full(),
    {
        match self.rooms[at].max_viewers {
            Some(max) => self.rooms[at].guests.len() >= max as usize,
            None => false,
        }
    }

    fn membership(&self, conn: ConnId) -> (r: Option<Membership>)
        ensures
            match r {
                Some(m) => {
                    &&& self.state().members.contains_key(conn)
                    &&& self.state().members[conn] == m.membership()
                },
                None => !self.state().members.contains_key(conn),
            },
    {
        match self.members.get(&conn) {
            Some(m) => Some(Membership { code: m.code.clone(), role: m.role }),
            None => None,
        }
    }

    /// Opens a room under `code` for `conn`, unless `conn` is in a room
    /// already.
    pub fn host_room(&mut self, conn: ConnId, max_viewers: Option<u32>, code: String) -> (out: Vec<
        Outgoing,
    >)
        requires
            old(self).wf(),
            conn < old(self).state().next_conn,
            is_pairing_code(code@),
            !old(self).state().rooms.contains_key(code@),
        ensures
            final(self).wf(),
            (final(self).state(), outgoing_views(out@)) == old(self).state().host_step(
                conn,
                max_viewers,
                code@,
            ),
    {
        let ghost before = self.state();
        if self.members.contains_key(&conn) {
            let out = vec![refuse(conn, "já está em uma sala")];
            assert(outgoing_views(out@) =~= before.host_step(conn, max_viewers, code@).1);
            return out;
        }
        let room = Room {
            code: code.clone(),
            host: conn,
            guests: Vec::new(),
            max_viewers,
            next_guest_id: 0,
        };
        proof {
            lemma_rooms_push(self.rooms@, room);
            lemma_host_keeps_inv(before, conn, max_viewers, code@);
        }
        self.rooms.push(room);
        self.members.insert(conn, Membership { code: code.clone(), role: Role::Host });
        let out = vec![Outgoing { to: conn, message: ServerMessage::Hosting { code } }];
        proof {
            let step = before.host_step(conn, max_viewers, code@);
            assert(room.room().guests =~= Seq::empty());
            assert(self.state().rooms =~= step.0.rooms);
            assert(self.state().members =~= step.0.members);
            assert(outgoing_views(out@) =~= step.1);
        }
        out
    }

    /// Lets `conn` into the room `code`, unless it is in a room already,
    /// there is no such room, or the room is full.
    pub fn join_room(&mut self, conn: ConnId, code: String) -> (out: Vec<Outgoing>)
        requires
            old(self).wf(),
            conn < old(self).state().next_conn,
            old(self).state().can_number(conn, ClientMessageView::Join(code@)),
        ensures
            final(self).wf(),
            (final(self).state(), outgoing_views(out@)) == old(self).state().join_step(conn, code@),
    {
        let ghost before = self.state();
        let ghost step = before.join_step(conn, code@);
        if self.members.contains_key(&conn) {
            let out = vec![refuse(conn, "já está em uma sala")];
            assert(outgoing_views(out@) =~= step.1);
            return out;
        }
        let at = match self.find_room(&code) {
            Some(at) => at,
            None => {
                let out = vec![refuse(conn, "código não encontrado")];
                assert(outgoing_views(out@) =~= step.1);
                return out;
            },
        };
        proof {
            lemma_room_at(self.rooms@, at as int);
        }
        let ghost rooms = self.rooms@;
        assert(before.rooms[code@] == rooms[at as int].room());
        assert(before.rooms[code@].inv());
        if self.is_full(at) {
            let out = vec![refuse(conn, "sala já está cheia")];
            assert(outgoing_views(out@) =~= step.1);
            return out;
        }
        let host = self.rooms[at].host;
        let id = self.rooms[at].next_guest_id;
        self.rooms[at].guests.push(Guest { id, conn });
        self.rooms[at].next_guest_id = id + 1;
        self.members.insert(conn, Membership { code: code.clone(), role: Role::Guest(id) });
        let out = vec![
            Outgoing { to: host, message: ServerMessage::Paired { guest_id: Some(id) } },
            Outgoing { to: conn, message: ServerMessage::Paired { guest_id: None } },
        ];
        proof {
            let room = self.rooms@[at as int];
            assert(self.rooms@ =~= rooms.update(at as int, room));
            lemma_rooms_update(rooms, at as int, room);
            lemma_join_keeps_inv(before, conn, code@);
            assert(room.room() == before.rooms[code@].with_guest(conn));
            assert(self.state().rooms =~= step.0.rooms);
            assert(self.state().members =~= step.0.members);
            assert(outgoing_views(out@) =~= step.1);
        }
        out
    }

    /// Passes `payload` on from `conn`: from a host to the guest `to`, from a
    /// guest to its host.
    pub fn relay(&self, conn: ConnId, payload: Value, to: Option<GuestId>) -> (out: Vec<Outgoing>)
        requires
            self.wf(),
        ensures
            outgoing_views(out@) == self.state().relay_step(conn, payload, to),
    {
        let ghost step = self.state().relay_step(conn, payload, to);
        let membership = match self.membership(conn) {
            Some(m) => m,
            None => {
                let out = vec![refuse(conn, "entre numa sala primeiro")];
                assert(outgoing_views(out@) =~= step);
                return out;
            },
        };
        let at = match self.find_room(&membership.code) {
            Some(at) => at,
            None => {
                let out: Vec<Outgoing> = Vec::new();
                assert(outgoing_views(out@) =~= step);
                return out;
            },
        };
        proof {
            lemma_room_at(self.rooms@, at as int);
        }
        let ghost room = self.rooms@[at as int].room();
        assert(self.state().rooms[membership.code@] == room);
        let mut out: Vec<Outgoing> = Vec::new();
        match membership.role {
            Role::Host => {
                if let Some(id) = to {
                    if let Some(guest_conn) = find_guest(&self.rooms[at].guests, id) {
                        out.push(
                            Outgoing {
                                to: guest_conn,
                                message: ServerMessage::Relay { guest_id: None, payload },
                            },
                        );
                    }
                }
            },
            Role::Guest(id) => {
                if holds_guest(&self.rooms[at].guests, id, conn) {
                    out.push(
                        Outgoing {
                            to: self.rooms[at].host,
                            message: ServerMessage::Relay { guest_id: Some(id), payload },
                        },
                    );
                }
            },
        }
        assert(outgoing_views(out@) =~= step);
        out
    }

    /// Takes `conn` out of its room. A host that goes closes the room and
    /// every guest is told; a guest that goes leaves the room open and its
    /// host is told.
    pub fn depart(&mut self, conn: ConnId) -> (out: Vec<Outgoing>)
        requires
            old(self).wf(),
        ensures
            final(self).wf(),
            (final(self).state(), outgoing_views(out@)) == old(self).state().depart_step(conn),
    {
        let ghost before = self.state();
        let ghost step = before.depart_step(conn);
        let mut out: Vec<Outgoing> = Vec::new();
        let membership = match self.membership(conn) {
            Some(m) => m,
            None => {
                assert(outgoing_views(out@) =~= step.1);
                return out;
            },
        };
        proof {
            lemma_depart_keeps_inv(before, conn);
        }
        self.members.remove(&conn);
        assert(self.state().members =~= step.0.members);
        let at = match self.find_room(&membership.code) {
            Some(at) => at,
            None => {
                assert(outgoing_views(out@) =~= step.1);
                return out;
            },
        };
        let ghost rooms = self.rooms@;
        proof {
            lemma_room_at(rooms, at as int);
        }
        match membership.role {
            Role::Host => {
                proof {
                    lemma_rooms_remove(rooms, at as int);
                }
                let room = self.rooms.remove(at);
                let mut i: usize = 0;
                while i < room.guests.len()
                    invariant
                        i <= room.guests@.len(),
                        out@.len() == i,
                        forall|k: int|
                            0 <= k < i ==> (#[trigger] out@[k])@ == say(
                                room.guests@[k].conn,
                                ServerMessageView::PeerLeft { guest_id: None },
                            ),
                    decreases room.guests@.len() - i,
                {
                    out.push(
                        Outgoing {
                            to: room.guests[i].conn,
                            message: ServerMessage::PeerLeft { guest_id: None },
                        },
                    );
                    i += 1;
                }
                assert(outgoing_views(out@) =~= step.1);
                assert(self.state().rooms =~= step.0.rooms);
            },
            Role::Guest(id) => {
                if !holds_guest(&self.rooms[at].guests, id, conn) {
                    assert(outgoing_views(out@) =~= step.1);
                    return out;
                }
                let kept = guests_without(&self.rooms[at].guests, id);
                let host = self.rooms[at].host;
                self.rooms[at].guests = kept;
                out.push(
                    Outgoing { to: host, message: ServerMessage::PeerLeft { guest_id: Some(id) } },
                );
                proof {
                    let room = self.rooms@[at as int];
                    assert(self.rooms@ =~= rooms.update(at as int, room));
                    lemma_rooms_update(rooms, at as int, room);
                    assert(room.room() == before.rooms[membership.code@].without_guest(id));
                    assert(self.state().rooms =~= step.0.rooms);
                    assert(outgoing_views(out@) =~= step.1);
                }
            },
        }
        out
    }
}

/// What a client message calls for.
pub struct Reaction {
    /// The messages to send, in order.
    pub sends: Vec<Outgoing>,
    /// Whether the connection is to be closed.
    pub done: bool,
}

impl SignalingServer {
    /// Handles one message of the client behind `conn`.
    pub fn handle_message(&mut self, conn: ConnId, message: ClientMessage) -> (r: Reaction)
        requires
            old(self).wf(),
            conn < old(self).state().next_conn,
            old(self).state().can_number(conn, message@),
        ensures
            final(self).wf(),
            old(self).state().message_step(
                conn,
                message@,
                final(self).state(),
                outgoing_views(r.sends@),
            ),
            r.done == (message@ is Leave),
    {
        match message {
            ClientMessage::Host { max_viewers } => {
                if self.members.contains_key(&conn) {
                    let sends = vec![refuse(conn, "já está em uma sala")];
                    assert(outgoing_views(sends@) =~= seq![
                        refusal(conn, "já está em uma sala"@),
                    ]);
                    return Reaction { sends, done: false };
                }
                match self.generate_unique_code() {
                    Some(code) => Reaction {
                        sends: self.host_room(conn, max_viewers, code),
                        done: false,
                    },
                    None => {
                        let sends: Vec<Outgoing> = Vec::new();
                        assert(outgoing_views(sends@) =~= Seq::empty());
                        Reaction { sends, done: false }
                    },
                }
            },
            ClientMessage::Join(code) => Reaction {
                sends: self.join_room(conn, code),
                done: false,
            },
            ClientMessage::Relay { payload, to } => Reaction {
                sends: self.relay(conn, payload, to),
                done: false,
            },
            ClientMessage::Leave => Reaction { sends: self.depart(conn), done: true },
        }
    }
}

/// The answer to a frame that is no client message.
pub fn refuse_unreadable(conn: ConnId) -> (out: Outgoing)
    ensures
        out@ == refusal(conn, "mensagem inválida"@),
{
    refuse(conn, "mensagem inválida")
}

/// The members of the JSON object that a message is sent as, in order: the
/// type comes first. A guest id that does not apply is left out, but for a
/// peer that left: there it is null.
pub open spec fn message_members(message: ServerMessageView) -> Seq<(Seq<char>, Value)> {
    match message {
        ServerMessageView::Hosting { code } => seq![
            ("type"@, json::json_string("hosting"@)),
            ("code"@, json::json_string(code)),
        ],
        ServerMessageView::Paired { guest_id } => seq![
            ("type"@, json::json_string("paired"@)),
        ] + guest_member(guest_id),
        ServerMessageView::PeerLeft { guest_id } => seq![
            ("type"@, json::json_string("peer_left"@)),
            ("guest_id"@, json::json_optional_number(guest_id)),
        ],
        ServerMessageView::Relay { guest_id, payload } => seq![
            ("type"@, json::json_string("relay"@)),
        ] + guest_member(guest_id) + seq![("payload"@, payload)],
        ServerMessageView::Error { message } => seq![
            ("type"@, json::json_string("error"@)),
            ("message"@, json::json_string(message)),
        ],
    }
}

/// The member with the guest's id, where there is one.
pub open spec fn guest_member(guest_id: Option<GuestId>) -> Seq<(Seq<char>, Value)> {
    match guest_id {
        Some(_) => seq![("guest_id"@, json::json_optional_number(guest_id))],
        None => Seq::empty(),
    }
}

/// The event that a client makes of a message of the relay.
pub open spec fn heard(message: ServerMessageView) -> SignalingEventView {
    match message {
        ServerMessageView::Hosting { code } => SignalingEventView::Hosting(code),
        ServerMessageView::Paired { guest_id } => SignalingEventView::Paired { guest_id },
        ServerMessageView::PeerLeft { guest_id } => SignalingEventView::PeerLeft { guest_id },
        ServerMessageView::Relay { guest_id, payload } => SignalingEventView::Relay {
            guest_id,
            payload,
        },
        ServerMessageView::Error { message } => SignalingEventView::Error(message),
    }
}

/// What each message is on the wire: its type first, then what it says, under
/// these names and in this order, and nothing else. A guest that is not named
/// is left out, but for a peer that left: there it is null.
pub proof fn law_what_a_message_is_on_the_wire(
    text: Seq<char>,
    guest: GuestId,
    payload: Value,
)
    ensures
        message_members(ServerMessageView::Hosting { code: text }) =~= seq![
            ("type"@, json::json_string("hosting"@)),
            ("code"@, json::json_string(text)),
        ],
        message_members(ServerMessageView::Error { message: text }) =~= seq![
            ("type"@, json::json_string("error"@)),
            ("message"@, json::json_string(text)),
        ],
        message_members(ServerMessageView::Paired { guest_id: Some(guest) }) =~= seq![
            ("type"@, json::json_string("paired"@)),
            ("guest_id"@, json::json_optional_number(Some(guest))),
        ],
        message_members(ServerMessageView::Paired { guest_id: None }) =~= seq![
            ("type"@, json::json_string("paired"@)),
        ],
        message_members(ServerMessageView::PeerLeft { guest_id: Some(guest) }) =~= seq![
            ("type"@, json::json_string("peer_left"@)),
            ("guest_id"@, json::json_optional_number(Some(guest))),
        ],
        message_members(ServerMessageView::PeerLeft { guest_id: None }) =~= seq![
            ("type"@, json::json_string("peer_left"@)),
            ("guest_id"@, json::json_optional_number(None)),
        ],
        message_members(ServerMessageView::Relay { guest_id: Some(guest), payload }) =~= seq![
            ("type"@, json::json_string("relay"@)),
            ("guest_id"@, json::json_optional_number(Some(guest))),
            ("payload"@, payload),
        ],
        message_members(ServerMessageView::Relay { guest_id: None, payload }) =~= seq![
            ("type"@, json::json_string("relay"@)),
            ("payload"@, payload),
        ],
{
}

/// What a client hears is what was said: the same code, guest, payload or
/// message, and no two messages are heard as the same event.
pub proof fn law_what_is_heard_is_what_was_said(a: ServerMessageView, b: ServerMessageView)
    ensures
        heard(a) == heard(b) ==> a == b,
        match (a, heard(a)) {
            (ServerMessageView::Hosting { code }, SignalingEventView::Hosting(c)) => c == code,
            (
                ServerMessageView::Paired { guest_id },
                SignalingEventView::Paired { guest_id: g },
            ) => g == guest_id,
            (
                ServerMessageView::PeerLeft { guest_id },
                SignalingEventView::PeerLeft { guest_id: g },
            ) => g == guest_id,
            (
                ServerMessageView::Relay { guest_id, payload },
                SignalingEventView::Relay { guest_id: g, payload: p },
            ) => g == guest_id && p == payload,
            (ServerMessageView::Error { message }, SignalingEventView::Error(m)) => m == message,
            _ => false,
        },
{
}

/// A refusal is an error message to whoever asked, in the words given.
pub proof fn law_a_refusal_goes_to_whoever_asked(to: ConnId, message: Seq<char>)
    ensures
        refusal(to, message) == (OutgoingView { to, message: ServerMessageView::Error { message } }),
{
}

/// The messages of a list are looked at one by one, each as it is.
pub proof fn law_a_list_is_its_messages(out: Seq<Outgoing>)
    ensures
        outgoing_views(out).len() == out.len(),
        forall|i: int|
            0 <= i < out.len() ==> (#[trigger] outgoing_views(out)[i]).to == out[i].to
                && outgoing_views(out)[i].message == out[i].message@,
{
}

impl ServerMessage {
    /// The members of the JSON object that says this message.
    fn members(&self) -> (members: Vec<(&'static str, Value)>)
        ensures
            json::pair_views(members@) == message_members(self@),
            !(self@ is Relay) ==> json::all_scalar(json::pairs_map(message_members(self@))),
            json::names_differ(message_members(self@)),
            forall|value: Value| #[trigger]
                json::holds_members(value, json::pairs_map(message_members(self@)))
                    ==> crate::signaling_client::frame_event(
                    crate::signaling_client::value_frame(value),
                ) == Some(heard(self@)),
    {
        let mut members: Vec<(&'static str, Value)> = Vec::new();
        match self {
            ServerMessage::Hosting { code } => {
                members.push(("type", json::string("hosting")));
                members.push(("code", json::string(code.as_str())));
            },
            ServerMessage::Paired { guest_id } => {
                members.push(("type", json::string("paired")));
                if guest_id.is_some() {
                    members.push(("guest_id", json::optional_number(*guest_id)));
                }
            },
            ServerMessage::PeerLeft { guest_id } => {
                members.push(("type", json::string("peer_left")));
                members.push(("guest_id", json::optional_number(*guest_id)));
            },
            ServerMessage::Relay { guest_id, payload } => {
                members.push(("type", json::string("relay")));
                if guest_id.is_some() {
                    members.push(("guest_id", json::optional_number(*guest_id)));
                }
                members.push(("payload", json::copy(payload)));
            },
            ServerMessage::Error { message } => {
                members.push(("type", json::string("error")));
                members.push(("message", json::string(message.as_str())));
            },
        }
        proof {
            lemma_wire_words();
            let pairs = message_members(self@);
            assert(json::pair_views(members@) =~= pairs);
            let named = json::pairs_map(pairs);
            reveal_with_fuel(json::pairs_map, 4);
            json::lemma_pairs_map(pairs);
            assert(pairs[0].0 == "type"@);
            assert(named.contains_key("type"@) && named["type"@] == pairs[0].1);
            assert(pairs.len() > 1 ==> named.contains_key(pairs[1].0) && named[pairs[1].0]
                == pairs[1].1);
            assert(pairs.len() > 2 ==> named.contains_key(pairs[2].0) && named[pairs[2].0]
                == pairs[2].1);
        }
        members
    }

    /// The text frame that carries this message to a client. A client that
    /// reads it hears this message, unless it carries a payload that does not
    /// survive being written and read.
    pub fn to_text(&self) -> (text: String)
        ensures
            text@ == json::pairs_text(message_members(self@)),
            !(self@ is Relay) || json::json_parse(text@) == Some(
                json::json_object(json::pairs_map(message_members(self@))),
            ) ==> crate::signaling_client::text_event(text@) == Some(heard(self@)),
    {
        json::object_text(&self.members())
    }
}

proof fn lemma_wire_words()
    ensures
        "type"@ != "code"@,
        "type"@ != "message"@,
        "type"@ != "payload"@,
        "type"@ != "guest_id"@,
        "guest_id"@ != "code"@,
        "guest_id"@ != "message"@,
        "guest_id"@ != "payload"@,
        "hosting"@ != "paired"@,
        "hosting"@ != "peer_left"@,
        "hosting"@ != "relay"@,
        "hosting"@ != "error"@,
        "paired"@ != "peer_left"@,
        "paired"@ != "relay"@,
        "paired"@ != "error"@,
        "peer_left"@ != "relay"@,
        "peer_left"@ != "error"@,
        "relay"@ != "error"@,
{
    reveal_strlit("type");
    reveal_strlit("code");
    reveal_strlit("message");
    reveal_strlit("payload");
    reveal_strlit("guest_id");
    reveal_strlit("hosting");
    reveal_strlit("paired");
    reveal_strlit("peer_left");
    reveal_strlit("relay");
    reveal_strlit("error");
    assert("type"@[0] == 't' && "code"@[0] == 'c');
    assert("type"@.len() == 4 && "message"@.len() == 7 && "payload"@.len() == 7);
    assert("guest_id"@.len() == 8 && "code"@.len() == 4);
    assert("hosting"@.len() == 7 && "paired"@.len() == 6 && "peer_left"@.len() == 9);
    assert("relay"@.len() == 5 && "error"@.len() == 5);
    assert("relay"@[0] == 'r' && "error"@[0] == 'e');
}

fn holds_guest(guests: &Vec<Guest>, id: GuestId, conn: ConnId) -> (r: bool)
    ensures
        r == guests@.contains(Guest { id, conn }),
{
    let mut i: usize = 0;
    while i < guests.len()
        invariant
            i <= guests@.len(),
            forall|k: int| 0 <= k < i ==> #[trigger] guests@[k] != (Guest { id, conn }),
        decreases guests@.len() - i,
    {
        if guests[i].id == id && guests[i].conn == conn {
            assert(guests@[i as int] == Guest { id, conn });
            return true;
        }
        i += 1;
    }
    false
}

fn find_guest(guests: &Vec<Guest>, id: GuestId) -> (r: Option<ConnId>)
    ensures
        match r {
            Some(conn) => exists|i: int|
                0 <= i < guests@.len() && (#[trigger] guests@[i]).id == id && guests@[i].conn
                    == conn,
            None => forall|i: int| 0 <= i < guests@.len() ==> (#[trigger] guests@[i]).id != id,
        },
{
    let mut i: usize = 0;
    while i < guests.len()
        invariant
            i <= guests@.len(),
            forall|k: int| 0 <= k < i ==> (#[trigger] guests@[k]).id != id,
        decreases guests@.len() - i,
    {
        if guests[i].id == id {
            return Some(guests[i].conn);
        }
        i += 1;
    }
    None
}

fn guests_without(guests: &Vec<Guest>, id: GuestId) -> (kept: Vec<Guest>)
    ensures
        kept@ == guests@.filter(|g: Guest| g.id != id),
{
    let ghost stays = |g: Guest| g.id != id;
    let mut kept: Vec<Guest> = Vec::new();
    let mut i: usize = 0;
    assert(guests@.take(0).filter(stays) =~= Seq::empty()) by {
        reveal(Seq::filter);
    }
    while i < guests.len()
        invariant
            i <= guests@.len(),
            stays == (|g: Guest| g.id != id),
            kept@ == guests@.take(i as int).filter(stays),
        decreases guests@.len() - i,
    {
        proof {
            reveal(Seq::filter);
            assert(guests@.take(i + 1).drop_last() =~= guests@.take(i as int));
        }
        if guests[i].id != id {
            kept.push(guests[i]);
        }
        i += 1;
    }
    assert(guests@.take(i as int) =~= guests@);
    kept
}

pub(crate) proof fn lemma_join_keeps_inv(before: ServerView, conn: ConnId, code: Seq<char>)
    requires
        before.inv(),
        conn < before.next_conn,
        before.can_number(conn, ClientMessageView::Join(code)),
    ensures
        before.join_step(conn, code).0.inv(),
{
    let after = before.join_step(conn, code).0;
    if !before.members.contains_key(conn) && before.rooms.contains_key(code)
        && !before.rooms[code].is_full() {
        let room = before.rooms[code];
        assert(room.inv());
        assert(room.next_guest_id < u32::MAX);
        assert(after.rooms[code] == room.with_guest(conn));
        assert(after.rooms[code].inv());
        assert forall|c: Seq<char>, i: int|
            #![trigger after.rooms[c].guests[i]]
            after.rooms.contains_key(c) && 0 <= i < after.rooms[c].guests.len() implies {
            let guest = after.rooms[c].guests[i];
            &&& after.members.contains_key(guest.conn)
            &&& after.members[guest.conn] == (MembershipView {
                code: c,
                role: Role::Guest(guest.id),
            })
        } by {
            if c != code || i < room.guests.len() {
                assert(after.rooms[c].guests[i] == before.rooms[c].guests[i]);
            }
        }
    }
}

proof fn lemma_without_guest(room: RoomView, id: GuestId)
    requires
        room.inv(),
    ensures
        room.without_guest(id).inv(),
        room.without_guest(id).guests.len() <= room.guests.len(),
        forall|i: int|
            0 <= i < room.without_guest(id).guests.len() ==> room.guests.contains(
                #[trigger] room.without_guest(id).guests[i],
            ) && room.without_guest(id).guests[i].id != id,
        forall|i: int|
            0 <= i < room.guests.len() && (#[trigger] room.guests[i]).id != id
                ==> room.without_guest(id).guests.contains(room.guests[i]),
    decreases room.guests.len(),
{
    reveal(Seq::filter);
    let stays = |g: Guest| g.id != id;
    if room.guests.len() > 0 {
        let shorter = RoomView { guests: room.guests.drop_last(), ..room };
        lemma_without_guest(shorter, id);
        let kept = shorter.without_guest(id).guests;
        let all = room.without_guest(id).guests;
        assert forall|i: int| 0 <= i < kept.len() implies (#[trigger] kept[i]).id
            < room.guests.last().id by {
            assert(shorter.guests.contains(kept[i]));
            let k = choose|k: int| 0 <= k < shorter.guests.len() && shorter.guests[k] == kept[i];
            assert(room.guests[k] == kept[i]);
        }
        assert(all == if stays(room.guests.last()) {
            kept.push(room.guests.last())
        } else {
            kept
        });
        assert forall|i: int| 0 <= i < all.len() implies room.guests.contains(#[trigger] all[i])
            && all[i].id != id by {
            if i < kept.len() {
                assert(all[i] == kept[i]);
                assert(shorter.guests.contains(kept[i]));
                let k = choose|k: int| 0 <= k < shorter.guests.len() && shorter.guests[k] == kept[i];
                assert(room.guests[k] == kept[i]);
            } else {
                assert(room.guests[room.guests.len() - 1] == all[i]);
            }
        }
        assert forall|i: int| 0 <= i < room.guests.len() && (#[trigger] room.guests[i]).id
            != id implies all.contains(room.guests[i]) by {
            if i < shorter.guests.len() {
                assert(shorter.guests[i] == room.guests[i]);
                assert(kept.contains(room.guests[i]));
                let k = choose|k: int| 0 <= k < kept.len() && kept[k] == room.guests[i];
                assert(all[k] == room.guests[i]);
            } else {
                assert(all[kept.len() as int] == room.guests[i]);
            }
        }
        assert forall|i: int| 0 <= i < all.len() implies (#[trigger] all[i]).id
            < room.next_guest_id by {
            let k = choose|k: int| 0 <= k < room.guests.len() && room.guests[k] == all[i];
            assert(room.guests.contains(all[i]));
            assert(room.guests[k].id < room.next_guest_id);
        }
        assert forall|i: int, j: int| 0 <= i < j < all.len() implies (#[trigger] all[i]).id < (
        #[trigger] all[j]).id by {
            assert(all[i] == kept[i]);
            if j < kept.len() {
                assert(all[j] == kept[j]);
            }
        }
    }
}

pub(crate) proof fn lemma_depart_keeps_inv(before: ServerView, conn: ConnId)
    requires
        before.inv(),
    ensures
        before.depart_step(conn).0.inv(),
{
    let after = before.depart_step(conn).0;
    if before.members.contains_key(conn) {
        let gone = before.members[conn];
        if before.rooms.contains_key(gone.code) && gone.role is Guest {
            lemma_without_guest(before.rooms[gone.code], gone.role->Guest_0);
        }
        assert forall|c: Seq<char>| #[trigger] after.rooms.contains_key(c) implies {
            &&& is_pairing_code(c)
            &&& after.rooms[c].inv()
            &&& after.members.contains_key(after.rooms[c].host)
            &&& after.members[after.rooms[c].host] == (MembershipView { code: c, role: Role::Host })
        } by {
            assert(before.rooms.contains_key(c));
            assert(after.rooms[c].host == before.rooms[c].host);
        }
        assert forall|c: Seq<char>, i: int|
            #![trigger after.rooms[c].guests[i]]
            after.rooms.contains_key(c) && 0 <= i < after.rooms[c].guests.len() implies {
            let guest = after.rooms[c].guests[i];
            &&& after.members.contains_key(guest.conn)
            &&& after.members[guest.conn] == (MembershipView {
                code: c,
                role: Role::Guest(guest.id),
            })
        } by {
            let guest = after.rooms[c].guests[i];
            assert(before.rooms.contains_key(c));
            assert(before.rooms[c].guests.contains(guest));
            let k = choose|k: int|
                0 <= k < before.rooms[c].guests.len() && before.rooms[c].guests[k] == guest;
            assert(before.rooms[c].guests[k] == guest);
            assert(before.members[guest.conn] == (MembershipView {
                code: c,
                role: Role::Guest(guest.id),
            }));
        }
    }
}

fn refuse(to: ConnId, message: &str) -> (out: Outgoing)
    ensures
        out@ == refusal(to, message@),
{
    Outgoing { to, message: ServerMessage::Error { message: message.to_owned() } }
}

pub(crate) proof fn lemma_host_keeps_inv(
    before: ServerView,
    conn: ConnId,
    max_viewers: Option<u32>,
    code: Seq<char>,
)
    requires
        before.inv(),
        conn < before.next_conn,
        is_pairing_code(code),
        !before.rooms.contains_key(code),
    ensures
        before.host_step(conn, max_viewers, code).0.inv(),
{
    let after = before.host_step(conn, max_viewers, code).0;
    if !before.members.contains_key(conn) {
        assert forall|c: Seq<char>, i: int|
            #![trigger after.rooms[c].guests[i]]
            after.rooms.contains_key(c) && 0 <= i < after.rooms[c].guests.len() implies {
            let guest = after.rooms[c].guests[i];
            &&& after.members.contains_key(guest.conn)
            &&& after.members[guest.conn] == (MembershipView {
                code: c,
                role: Role::Guest(guest.id),
            })
        } by {
            assert(c != code);
            assert(after.rooms[c].guests[i] == before.rooms[c].guests[i]);
        }
    }
}

} // verus!
