//! What holds of the signaling relay as a whole.

use crate::signaling_client::ClientMessageView;
use crate::signaling_server::{
    ConnId, Guest, GuestId, MembershipView, OutgoingView, Role, RoomView, ServerMessageView,
    ServerView,
};
use crate::signaling_server;
use crate::text;
use serde_json::Value;
use vstd::prelude::*;

verus! {

/// Whatever a client sends, the relay stays sound: codes are unique pairing
/// codes, guest ids in a room are distinct, no room is over its cap, and
/// nobody is in two places.
pub proof fn law_every_message_keeps_the_relay_sound(
    before: ServerView,
    conn: ConnId,
    message: ClientMessageView,
    after: ServerView,
    sends: Seq<OutgoingView>,
)
    requires
        before.inv(),
        before.can_number(conn, message),
        conn < before.next_conn,
        before.message_step(conn, message, after, sends),
    ensures
        after.inv(),
        after.next_conn == before.next_conn,
{
    match message {
        ClientMessageView::Host { max_viewers } => {
            if !before.members.contains_key(conn) && before.has_free_code() {
                let code = choose|code: Seq<char>|
                    {
                        &&& #[trigger] signaling_server::is_pairing_code(code)
                        &&& !before.rooms.contains_key(code)
                        &&& (after, sends) == before.host_step(conn, max_viewers, code)
                    };
                signaling_server::lemma_host_keeps_inv(before, conn, max_viewers, code);
            }
        },
        ClientMessageView::Join(code) => {
            signaling_server::lemma_join_keeps_inv(before, conn, code);
        },
        ClientMessageView::Relay { payload, to } => {},
        ClientMessageView::Leave => {
            signaling_server::lemma_depart_keeps_inv(before, conn);
        },
    }
}

/// A pairing code has six decimal digits.
pub proof fn law_pairing_codes_have_six_digits(code: Seq<char>)
    requires
        signaling_server::is_pairing_code(code),
    ensures
        code.len() == 6,
        forall|i: int| 0 <= i < 6 ==> '0' <= #[trigger] code[i] <= '9',
{
    let n = choose|n: nat|
        100_000 <= n < 1_000_000 && code == #[trigger] text::decimal_text(n);
    text::lemma_six_digits(n);
    text::lemma_decimal_digits(n);
}

/// A pairing code is six decimal digits of which the first is no zero, and all
/// of these are pairing codes.
pub proof fn law_any_six_digits_are_a_pairing_code(code: Seq<char>)
    ensures
        signaling_server::is_pairing_code(code) <==> {
            &&& code.len() == 6
            &&& forall|i: int| 0 <= i < 6 ==> '0' <= #[trigger] code[i] <= '9'
            &&& code[0] != '0'
        },
{
    if signaling_server::is_pairing_code(code) {
        law_pairing_codes_have_six_digits(code);
        let n = choose|n: nat|
            100_000 <= n < 1_000_000 && code == #[trigger] text::decimal_text(n);
        text::law_a_numeral_stands_for_its_number(n);
    }
    if code.len() == 6 && (forall|i: int| 0 <= i < 6 ==> '0' <= #[trigger] code[i] <= '9') && code[0]
        != '0' {
        text::law_a_number_has_one_numeral(code);
        reveal_with_fuel(text::decimal_value, 7);
        assert('0' <= code[0] <= '9');
        assert('0' <= code[1] <= '9');
        assert('0' <= code[2] <= '9');
        assert('0' <= code[3] <= '9');
        assert('0' <= code[4] <= '9');
        assert('0' <= code[5] <= '9');
        assert(code.drop_last().drop_last().drop_last().drop_last().drop_last().drop_last().len()
            == 0);
        let n = text::decimal_value(code) as nat;
        assert(100_000 <= n < 1_000_000);
        assert(code == text::decimal_text(n));
    }
}

/// Whoever is in no room gets the one it asks for, under a code that is free,
/// whatever other rooms are open: it is the host, nobody else is in, the cap is
/// the one it asked for, guests are numbered from zero, and it alone is told
/// the code. Everybody and everything else stays as it was.
pub proof fn law_hosting_opens_an_empty_room_with_the_cap_asked_for(
    before: ServerView,
    conn: ConnId,
    max_viewers: Option<u32>,
    code: Seq<char>,
)
    requires
        !before.members.contains_key(conn),
        !before.rooms.contains_key(code),
    ensures
        ({
            let (after, sends) = before.host_step(conn, max_viewers, code);
            let room = after.rooms[code];
            &&& after.rooms.dom() == before.rooms.dom().insert(code)
            &&& room.host == conn
            &&& room.guests.len() == 0
            &&& room.max_viewers == max_viewers
            &&& room.next_guest_id == 0
            &&& forall|other: Seq<char>| #[trigger]
                before.rooms.contains_key(other) ==> after.rooms[other] == before.rooms[other]
            &&& after.members == before.members.insert(
                conn,
                MembershipView { code, role: Role::Host },
            )
            &&& after.next_conn == before.next_conn
            &&& sends == seq![
                OutgoingView { to: conn, message: ServerMessageView::Hosting { code } },
            ]
        }),
{
    let after = before.host_step(conn, max_viewers, code).0;
    assert(after.rooms.dom() =~= before.rooms.dom().insert(code));
}

/// Whoever is in a room can neither open nor join one: it is told so, and
/// nothing changes.
pub proof fn law_nobody_is_in_two_rooms(
    before: ServerView,
    conn: ConnId,
    max_viewers: Option<u32>,
    code: Seq<char>,
)
    requires
        before.members.contains_key(conn),
    ensures
        ({
            let told = seq![
                OutgoingView {
                    to: conn,
                    message: ServerMessageView::Error { message: "já está em uma sala"@ },
                },
            ];
            &&& before.host_step(conn, max_viewers, code) == (before, told)
            &&& before.join_step(conn, code) == (before, told)
        }),
{
}

/// A join with a code that no room has is refused in those words, and one to a
/// room with as many guests as its host allowed in others. Nothing changes.
pub proof fn law_a_refused_join_is_told_why(before: ServerView, conn: ConnId, code: Seq<char>)
    requires
        !before.members.contains_key(conn),
    ensures
        !before.rooms.contains_key(code) ==> before.join_step(conn, code) == (
            before,
            seq![
                OutgoingView {
                    to: conn,
                    message: ServerMessageView::Error { message: "código não encontrado"@ },
                },
            ],
        ),
        before.rooms.contains_key(code) && (before.rooms[code].max_viewers matches Some(max)
            && before.rooms[code].guests.len() >= max) ==> before.join_step(conn, code) == (
            before,
            seq![
                OutgoingView {
                    to: conn,
                    message: ServerMessageView::Error { message: "sala já está cheia"@ },
                },
            ],
        ),
{
}

/// Whoever is in no room and asks for one that has a place left is let in,
/// behind those that are in, under the room's next number; the host is told
/// that number, then the guest that it is in. Everybody and everything else
/// stays as it was.
pub proof fn law_a_join_is_let_in_while_there_is_a_place(
    before: ServerView,
    conn: ConnId,
    code: Seq<char>,
)
    requires
        !before.members.contains_key(conn),
        before.rooms.contains_key(code),
        before.rooms[code].max_viewers matches Some(max) ==> before.rooms[code].guests.len() < max,
        before.rooms[code].next_guest_id < u32::MAX,
    ensures
        ({
            let (after, sends) = before.join_step(conn, code);
            let was = before.rooms[code];
            let room = after.rooms[code];
            let id = was.next_guest_id;
            &&& after.rooms.dom() == before.rooms.dom()
            &&& room.host == was.host
            &&& room.guests == was.guests.push(Guest { id, conn })
            &&& room.max_viewers == was.max_viewers
            &&& room.next_guest_id == id + 1
            &&& forall|other: Seq<char>| #[trigger]
                before.rooms.contains_key(other) && other != code ==> after.rooms[other]
                    == before.rooms[other]
            &&& after.members == before.members.insert(
                conn,
                MembershipView { code, role: Role::Guest(id) },
            )
            &&& after.next_conn == before.next_conn
            &&& sends == seq![
                OutgoingView {
                    to: was.host,
                    message: ServerMessageView::Paired { guest_id: Some(id) },
                },
                OutgoingView { to: conn, message: ServerMessageView::Paired { guest_id: None } },
            ]
        }),
{
    let after = before.join_step(conn, code).0;
    assert(after.rooms.dom() =~= before.rooms.dom());
}

/// The relay after these clients asked to join the room `code`, one after the
/// other.
pub open spec fn after_joins(state: ServerView, code: Seq<char>, conns: Seq<ConnId>) -> ServerView
    decreases conns.len(),
{
    if conns.len() == 0 {
        state
    } else {
        after_joins(state, code, conns.drop_last()).join_step(conns.last(), code).0
    }
}

/// Whether these clients are distinct and none of them is in a room.
pub open spec fn are_strangers(state: ServerView, conns: Seq<ConnId>) -> bool {
    &&& conns.no_duplicates()
    &&& forall|i: int| 0 <= i < conns.len() ==> !state.members.contains_key(#[trigger] conns[i])
}

proof fn lemma_after_joins(
    opened: ServerView,
    code: Seq<char>,
    max_viewers: Option<u32>,
    conns: Seq<ConnId>,
)
    requires
        opened.rooms.contains_key(code),
        opened.rooms[code].guests.len() == 0,
        opened.rooms[code].next_guest_id == 0,
        opened.rooms[code].max_viewers == max_viewers,
        are_strangers(opened, conns),
        conns.len() <= u32::MAX,
    ensures
        ({
            let now = after_joins(opened, code, conns);
            let room = now.rooms[code];
            let let_in = if max_viewers is Some && max_viewers->0 < conns.len() {
                max_viewers->0 as int
            } else {
                conns.len() as int
            };
            &&& now.rooms.contains_key(code)
            &&& room.host == opened.rooms[code].host
            &&& room.max_viewers == max_viewers
            &&& room.guests.len() == let_in
            &&& room.next_guest_id == let_in
            &&& forall|i: int|
                0 <= i < let_in ==> #[trigger] room.guests[i] == (Guest {
                    id: i as u32,
                    conn: conns[i],
                })
            &&& forall|conn: ConnId|
                now.members.contains_key(conn) ==> opened.members.contains_key(conn)
                    || conns.contains(conn)
        }),
    decreases conns.len(),
{
    if conns.len() > 0 {
        let init = conns.drop_last();
        let last = conns.last();
        assert forall|i: int| 0 <= i < init.len() implies !opened.members.contains_key(
            #[trigger] init[i],
        ) by {
            assert(init[i] == conns[i]);
        }
        lemma_after_joins(opened, code, max_viewers, init);
        let before = after_joins(opened, code, init);
        assert(!opened.members.contains_key(conns[conns.len() - 1]));
        assert(!init.contains(last)) by {
            if init.contains(last) {
                let i = choose|i: int| 0 <= i < init.len() && init[i] == last;
                assert(conns[i] == conns[conns.len() - 1]);
            }
        }
        assert(!before.members.contains_key(last));
        let now = after_joins(opened, code, conns);
        assert forall|conn: ConnId| now.members.contains_key(conn) implies opened.members.contains_key(
            conn,
        ) || conns.contains(conn) by {
            if before.members.contains_key(conn) && init.contains(conn) {
                let i = choose|i: int| 0 <= i < init.len() && init[i] == conn;
                assert(conns[i] == conn);
            }
            if conn == last {
                assert(conns[conns.len() - 1] == conn);
            }
        }
    }
}

/// A room takes as many guests as its host asked for, and no more: of the
/// clients that ask to join it, in whatever state the relay was when it was
/// opened, the first so many are in, numbered in that order, and the next is
/// refused. Without a cap every one is let in.
pub proof fn law_a_room_takes_as_many_as_its_host_asked_for(
    before: ServerView,
    host: ConnId,
    max_viewers: Option<u32>,
    code: Seq<char>,
    conns: Seq<ConnId>,
    next: ConnId,
)
    requires
        !before.members.contains_key(host),
        !before.rooms.contains_key(code),
        are_strangers(before.host_step(host, max_viewers, code).0, conns.push(next)),
        conns.len() < u32::MAX,
    ensures
        ({
            let now = after_joins(before.host_step(host, max_viewers, code).0, code, conns);
            let guests = now.rooms[code].guests;
            let sends = now.join_step(next, code).1;
            &&& guests.len() == if max_viewers is Some && max_viewers->0 < conns.len() {
                max_viewers->0 as int
            } else {
                conns.len() as int
            }
            &&& forall|i: int|
                0 <= i < guests.len() ==> #[trigger] guests[i] == (Guest {
                    id: i as u32,
                    conn: conns[i],
                })
            &&& max_viewers is None || conns.len() < max_viewers->0 ==> sends == seq![
                OutgoingView {
                    to: host,
                    message: ServerMessageView::Paired { guest_id: Some(conns.len() as u32) },
                },
                OutgoingView { to: next, message: ServerMessageView::Paired { guest_id: None } },
            ]
            &&& max_viewers is Some && conns.len() >= max_viewers->0 ==> sends == seq![
                OutgoingView {
                    to: next,
                    message: ServerMessageView::Error { message: "sala já está cheia"@ },
                },
            ]
        }),
{
    let opened = before.host_step(host, max_viewers, code).0;
    let all = conns.push(next);
    law_hosting_opens_an_empty_room_with_the_cap_asked_for(before, host, max_viewers, code);
    assert(opened.rooms.contains_key(code));
    assert(are_strangers(opened, conns)) by {
        assert forall|i: int| 0 <= i < conns.len() implies !opened.members.contains_key(
            #[trigger] conns[i],
        ) by {
            assert(all[i] == conns[i]);
        }
        assert forall|i: int, j: int| 0 <= i < conns.len() && 0 <= j < conns.len() && i
            != j implies conns[i] != conns[j] by {
            assert(all[i] != all[j]);
        }
    }
    lemma_after_joins(opened, code, max_viewers, conns);
    let now = after_joins(opened, code, conns);
    assert(all[conns.len() as int] == next);
    assert(!conns.contains(next)) by {
        if conns.contains(next) {
            let i = choose|i: int| 0 <= i < conns.len() && conns[i] == next;
            assert(all[i] == all[conns.len() as int]);
        }
    }
    assert(!now.members.contains_key(next));
}

/// Opening a room gives a host nobody else's code, and touches no room that
/// is open.
pub proof fn law_a_new_room_takes_nothing_from_the_others(
    before: ServerView,
    conn: ConnId,
    max_viewers: Option<u32>,
    code: Seq<char>,
    other: Seq<char>,
)
    requires
        before.inv(),
        !before.members.contains_key(conn),
        !before.rooms.contains_key(code),
        before.rooms.contains_key(other),
    ensures
        ({
            let (after, sends) = before.host_step(conn, max_viewers, code);
            &&& after.rooms[code].host == conn
            &&& after.rooms[code].guests.len() == 0
            &&& after.rooms[code].max_viewers == max_viewers
            &&& after.rooms.contains_key(other)
            &&& after.rooms[other] == before.rooms[other]
            &&& sends == seq![
                signaling_server::say(conn, ServerMessageView::Hosting { code }),
            ]
        }),
{
}

/// A join is refused if the sender is in a room, the code is unknown or the
/// room is full. A refusal goes to the sender alone and changes nothing.
pub proof fn law_a_refused_join_changes_nothing(before: ServerView, conn: ConnId, code: Seq<char>)
    requires
        before.members.contains_key(conn) || !before.rooms.contains_key(code)
            || before.rooms[code].is_full(),
    ensures
        before.join_step(conn, code).0 == before,
        before.join_step(conn, code).1.len() == 1,
        before.join_step(conn, code).1[0].to == conn,
        before.join_step(conn, code).1[0].message is Error,
{
}

/// Any other join succeeds: the guest gets an id that no guest of the room
/// has, the host alone learns it, and everyone already in the room keeps
/// their place.
pub proof fn law_a_join_under_the_cap_is_admitted(before: ServerView, conn: ConnId, code: Seq<char>)
    requires
        before.inv(),
        before.lets_in(conn, code),
    ensures
        ({
            let (after, sends) = before.join_step(conn, code);
            let room = before.rooms[code];
            let id = room.next_guest_id;
            &&& !room.has_guest(id)
            &&& after.rooms[code].guests == room.guests.push(Guest { id, conn })
            &&& after.rooms[code].host == room.host
            &&& after.rooms[code].max_viewers == room.max_viewers
            &&& after.members[conn] == (MembershipView { code, role: Role::Guest(id) })
            &&& sends == seq![
                signaling_server::say(
                    room.host,
                    ServerMessageView::Paired { guest_id: Some(id) },
                ),
                signaling_server::say(conn, ServerMessageView::Paired { guest_id: None }),
            ]
        }),
{
}

/// A room without a cap is never full.
pub proof fn law_an_unlimited_room_is_never_full(room: RoomView)
    requires
        room.max_viewers is None,
    ensures
        !room.is_full(),
{
}

/// What the host addresses to a guest reaches that guest, unchanged, and
/// nobody else.
pub proof fn law_the_host_reaches_the_guest_it_addresses(
    state: ServerView,
    code: Seq<char>,
    i: int,
    payload: Value,
)
    requires
        state.inv(),
        state.rooms.contains_key(code),
        0 <= i < state.rooms[code].guests.len(),
    ensures
        ({
            let room = state.rooms[code];
            state.relay_step(room.host, payload, Some(room.guests[i].id)) == seq![
                signaling_server::say(
                    room.guests[i].conn,
                    ServerMessageView::Relay { guest_id: None, payload },
                ),
            ]
        }),
{
    let room = state.rooms[code];
    let id = room.guests[i].id;
    assert(room.has_guest(id));
    let k = choose|k: int| 0 <= k < room.guests.len() && (#[trigger] room.guests[k]).id == id;
    assert(room.inv());
    assert(k == i);
}

/// What the host addresses to nobody, or to an id that no guest has, goes
/// nowhere.
pub proof fn law_the_host_must_name_a_guest(
    state: ServerView,
    code: Seq<char>,
    payload: Value,
    to: Option<GuestId>,
)
    requires
        state.inv(),
        state.rooms.contains_key(code),
        to matches Some(id) ==> !state.rooms[code].has_guest(id),
    ensures
        state.relay_step(state.rooms[code].host, payload, to).len() == 0,
{
}

/// What a guest sends reaches its host, unchanged and under the guest's own
/// id, and nobody else.
pub proof fn law_a_guest_reaches_its_host(
    state: ServerView,
    code: Seq<char>,
    i: int,
    payload: Value,
    to: Option<GuestId>,
)
    requires
        state.inv(),
        state.rooms.contains_key(code),
        0 <= i < state.rooms[code].guests.len(),
    ensures
        ({
            let room = state.rooms[code];
            state.relay_step(room.guests[i].conn, payload, to) == seq![
                signaling_server::say(
                    room.host,
                    ServerMessageView::Relay { guest_id: Some(room.guests[i].id), payload },
                ),
            ]
        }),
{
    let room = state.rooms[code];
    assert(state.members[room.guests[i].conn] == (MembershipView {
        code,
        role: Role::Guest(room.guests[i].id),
    }));
}

/// A host that goes ends the broadcast: every guest is told, once each, the
/// room is gone, its code opens nothing any more, and every other room stays
/// as it was.
pub proof fn law_a_host_that_leaves_closes_its_room(
    before: ServerView,
    code: Seq<char>,
    late: ConnId,
    other: Seq<char>,
)
    requires
        before.inv(),
        before.rooms.contains_key(code),
        other != code,
        !before.members.contains_key(late),
    ensures
        ({
            let room = before.rooms[code];
            let (after, sends) = before.depart_step(room.host);
            &&& !after.rooms.contains_key(code)
            &&& !after.members.contains_key(room.host)
            &&& sends.len() == room.guests.len()
            &&& forall|i: int|
                0 <= i < sends.len() ==> #[trigger] sends[i] == signaling_server::say(
                    room.guests[i].conn,
                    ServerMessageView::PeerLeft { guest_id: None },
                )
            &&& after.join_step(late, code) == (
                after,
                seq![signaling_server::refusal(late, "código não encontrado"@)],
            )
            &&& after.rooms.contains_key(other) == before.rooms.contains_key(other)
            &&& before.rooms.contains_key(other) ==> after.rooms[other] == before.rooms[other]
        }),
{
}

/// A guest whose host is gone reaches nobody and is still taken for a member,
/// until it leaves.
pub proof fn law_a_guest_without_a_host_reaches_nobody(
    before: ServerView,
    code: Seq<char>,
    i: int,
    payload: Value,
    to: Option<GuestId>,
    next: Seq<char>,
)
    requires
        before.inv(),
        before.rooms.contains_key(code),
        0 <= i < before.rooms[code].guests.len(),
    ensures
        ({
            let guest = before.rooms[code].guests[i].conn;
            let after = before.depart_step(before.rooms[code].host).0;
            &&& after.relay_step(guest, payload, to).len() == 0
            &&& after.join_step(guest, next) == (
                after,
                seq![signaling_server::refusal(guest, "já está em uma sala"@)],
            )
            &&& !after.depart_step(guest).0.members.contains_key(guest)
        }),
{
    let guest = before.rooms[code].guests[i].conn;
    assert(before.members[guest] == (MembershipView {
        code,
        role: Role::Guest(before.rooms[code].guests[i].id),
    }));
}

proof fn lemma_filter_one_out(guests: Seq<Guest>, at: int, id: GuestId)
    requires
        0 <= at < guests.len(),
        guests[at].id == id,
        forall|i: int| 0 <= i < guests.len() && i != at ==> (#[trigger] guests[i]).id != id,
    ensures
        guests.filter(|g: Guest| g.id != id) == guests.remove(at),
    decreases guests.len(),
{
    reveal(Seq::filter);
    let stays = |g: Guest| g.id != id;
    let head = guests.drop_last();
    if at == guests.len() - 1 {
        lemma_filter_none_out(head, id);
        assert(guests.remove(at) =~= head);
    } else {
        assert forall|i: int| 0 <= i < head.len() && i != at implies (#[trigger] head[i]).id
            != id by {
            assert(head[i] == guests[i]);
        }
        lemma_filter_one_out(head, at, id);
        assert(guests[guests.len() - 1].id != id);
        assert(guests.remove(at) =~= head.remove(at).push(guests.last()));
    }
}

proof fn lemma_filter_none_out(guests: Seq<Guest>, id: GuestId)
    requires
        forall|i: int| 0 <= i < guests.len() ==> (#[trigger] guests[i]).id != id,
    ensures
        guests.filter(|g: Guest| g.id != id) == guests,
    decreases guests.len(),
{
    reveal(Seq::filter);
    if guests.len() > 0 {
        let head = guests.drop_last();
        assert forall|i: int| 0 <= i < head.len() implies (#[trigger] head[i]).id != id by {
            assert(head[i] == guests[i]);
        }
        lemma_filter_none_out(head, id);
        assert(guests[guests.len() - 1].id != id);
        assert(guests =~= head.push(guests.last()));
    } else {
        assert(guests.filter(|g: Guest| g.id != id) =~= guests);
    }
}

/// A guest that goes from a room takes only itself out: the host is told its
/// id, nobody else hears anything, the room stays open with the others in their places,
/// a place under the cap is free again, and no other room changes.
pub proof fn law_a_guest_that_leaves_affects_only_itself(
    before: ServerView,
    code: Seq<char>,
    i: int,
    other: Seq<char>,
)
    requires
        before.inv(),
        before.rooms.contains_key(code),
        0 <= i < before.rooms[code].guests.len(),
        other != code,
    ensures
        ({
            let room = before.rooms[code];
            let guest = room.guests[i];
            let (after, sends) = before.depart_step(guest.conn);
            &&& sends == seq![
                signaling_server::say(
                    room.host,
                    ServerMessageView::PeerLeft { guest_id: Some(guest.id) },
                ),
            ]
            &&& after.rooms.contains_key(code)
            &&& after.rooms[code] == (RoomView { guests: room.guests.remove(i), ..room })
            &&& !after.rooms[code].is_full()
            &&& !after.members.contains_key(guest.conn)
            &&& after.rooms.contains_key(other) == before.rooms.contains_key(other)
            &&& before.rooms.contains_key(other) ==> after.rooms[other] == before.rooms[other]
        }),
{
    let room = before.rooms[code];
    let guest = room.guests[i];
    assert(room.inv());
    assert(before.members[guest.conn] == (MembershipView { code, role: Role::Guest(guest.id) }));
    lemma_filter_one_out(room.guests, i, guest.id);
}

/// Whoever goes that joined as a guest, whether its room is still the one it
/// joined, was closed, or has given its code to another since: no other client
/// loses its place or its membership, and only the host of the room that it is
/// in, if it is in one, is told.
pub proof fn law_a_former_guest_affects_only_itself(
    before: ServerView,
    conn: ConnId,
    code: Seq<char>,
    guest: Guest,
)
    requires
        before.inv(),
        before.members.contains_key(conn),
        before.members[conn].role is Guest,
    ensures
        ({
            let own = before.members[conn].code;
            let id = before.members[conn].role->Guest_0;
            let (after, sends) = before.depart_step(conn);
            &&& after.members == before.members.remove(conn)
            &&& after.rooms.contains_key(code) == before.rooms.contains_key(code)
            &&& before.rooms.contains_key(code) ==> {
                let (was, is) = (before.rooms[code], after.rooms[code]);
                &&& is.host == was.host
                &&& is.max_viewers == was.max_viewers
                &&& is.next_guest_id == was.next_guest_id
                &&& is.guests.contains(guest) == (was.guests.contains(guest) && guest.conn != conn)
            }
            &&& sends == (if before.rooms.contains_key(own) && before.rooms[own].holds(id, conn) {
                seq![
                    signaling_server::say(
                        before.rooms[own].host,
                        ServerMessageView::PeerLeft { guest_id: Some(id) },
                    ),
                ]
            } else {
                Seq::empty()
            })
        }),
{
    let own = before.members[conn].code;
    let id = before.members[conn].role->Guest_0;
    if before.rooms.contains_key(code) {
        let was = before.rooms[code];
        assert(was.inv());
        if was.guests.contains(guest) {
            let k = choose|k: int| 0 <= k < was.guests.len() && was.guests[k] == guest;
            assert(before.rooms[code].guests[k] == guest);
            assert(before.members[guest.conn] == (MembershipView {
                code,
                role: Role::Guest(guest.id),
            }));
        }
        if code == own && was.holds(id, conn) {
            let i = choose|i: int| 0 <= i < was.guests.len() && was.guests[i] == (Guest {
                id,
                conn,
            });
            lemma_filter_one_out(was.guests, i, id);
            let kept = was.guests.remove(i);
            if was.guests.contains(guest) && guest.conn != conn {
                let k = choose|k: int| 0 <= k < was.guests.len() && was.guests[k] == guest;
                if k < i {
                    assert(kept[k] == guest);
                } else {
                    assert(kept[k - 1] == guest);
                }
            }
            if kept.contains(guest) {
                let k = choose|k: int| 0 <= k < kept.len() && kept[k] == guest;
                if k < i {
                    assert(was.guests[k] == guest);
                } else {
                    assert(was.guests[k + 1] == guest);
                }
            }
        }
    }
}

/// A guest that is in no room any more passes nothing on, even where another
/// room has got the code of its own since.
pub proof fn law_a_former_guest_reaches_nobody(
    state: ServerView,
    conn: ConnId,
    payload: Value,
    to: Option<GuestId>,
)
    requires
        state.members.contains_key(conn),
        state.members[conn].role is Guest,
        state.rooms.contains_key(state.members[conn].code)
            ==> !state.rooms[state.members[conn].code].holds(
            state.members[conn].role->Guest_0,
            conn,
        ),
    ensures
        state.relay_step(conn, payload, to).len() == 0,
{
}

proof fn lemma_guest_in_and_out(room: RoomView, conn: ConnId)
    requires
        room.inv(),
        room.next_guest_id < u32::MAX,
    ensures
        room.with_guest(conn).without_guest(room.next_guest_id) == (RoomView {
            next_guest_id: (room.next_guest_id + 1) as u32,
            ..room
        }),
{
    let id = room.next_guest_id;
    let at = room.guests.len() as int;
    let guests = room.with_guest(conn).guests;
    assert(guests[at] == Guest { id, conn });
    assert forall|i: int| 0 <= i < guests.len() && i != at implies (#[trigger] guests[i]).id
        != id by {
        assert(guests[i] == room.guests[i]);
    }
    lemma_filter_one_out(guests, at, id);
    assert(guests.remove(at) =~= room.guests);
}

proof fn lemma_leave_after_join(before: ServerView, conn: ConnId, code: Seq<char>)
    requires
        before.lets_in(conn, code),
    ensures
        ({
            let left = before.join_step(conn, code).0.depart_step(conn).0;
            let room = before.rooms[code];
            &&& left.members == before.members
            &&& left.rooms == before.rooms.insert(
                code,
                room.with_guest(conn).without_guest(room.next_guest_id),
            )
        }),
{
    let joined = before.join_step(conn, code).0;
    let left = joined.depart_step(conn).0;
    let room = before.rooms[code];
    assert(joined.rooms[code].guests[room.guests.len() as int] == Guest {
        id: room.next_guest_id,
        conn,
    });
    assert(left.members =~= before.members);
    assert(left.rooms =~= before.rooms.insert(
        code,
        before.rooms[code].with_guest(conn).without_guest(before.rooms[code].next_guest_id),
    ));
}

/// Leaving undoes joining: the room and the members are as before. Only the
/// guest's id is used up and never handed out again in that room.
pub proof fn law_leaving_undoes_joining(before: ServerView, conn: ConnId, code: Seq<char>)
    requires
        before.inv(),
        before.can_number(conn, ClientMessageView::Join(code)),
        before.lets_in(conn, code),
    ensures
        ({
            let joined = before.join_step(conn, code).0;
            let left = joined.depart_step(conn).0;
            &&& left.members == before.members
            &&& left.rooms == before.rooms.insert(
                code,
                RoomView {
                    next_guest_id: (before.rooms[code].next_guest_id + 1) as u32,
                    ..before.rooms[code]
                },
            )
        }),
{
    assert(before.rooms[code].inv());
    lemma_guest_in_and_out(before.rooms[code], conn);
    lemma_leave_after_join(before, conn, code);
}

/// A client that is in no room can pass nothing on, and leaving costs it
/// nothing.
pub proof fn law_a_stranger_reaches_nobody(
    state: ServerView,
    conn: ConnId,
    payload: Value,
    to: Option<GuestId>,
)
    requires
        !state.members.contains_key(conn),
    ensures
        state.relay_step(conn, payload, to) == seq![
            signaling_server::refusal(conn, "entre numa sala primeiro"@),
        ],
        state.depart_step(conn) == (state, Seq::<OutgoingView>::empty()),
{
}

/// The host reaches the one guest that it names, and no other; the payload is
/// passed on as it came. Whom it does not name, or names wrongly, it does not
/// reach.
pub proof fn law_the_host_reaches_exactly_whom_it_names(
    state: ServerView,
    code: Seq<char>,
    payload: Value,
    to: Option<GuestId>,
    i: int,
)
    requires
        state.inv(),
        state.rooms.contains_key(code),
    ensures
        ({
            let room = state.rooms[code];
            let sends = state.relay_step(room.host, payload, to);
            &&& 0 <= i < room.guests.len() && to == Some(room.guests[i].id) ==> sends == seq![
                OutgoingView {
                    to: room.guests[i].conn,
                    message: ServerMessageView::Relay { guest_id: None, payload },
                },
            ]
            &&& (forall|k: int|
                0 <= k < room.guests.len() ==> to != Some((#[trigger] room.guests[k]).id))
                ==> sends.len() == 0
        }),
{
    let room = state.rooms[code];
    if 0 <= i < room.guests.len() && to == Some(room.guests[i].id) {
        law_the_host_reaches_the_guest_it_addresses(state, code, i, payload);
    }
    if forall|k: int| 0 <= k < room.guests.len() ==> to != Some((#[trigger] room.guests[k]).id) {
        law_the_host_must_name_a_guest(state, code, payload, to);
    }
}

/// A guest reaches its host, whomever it names; the payload is passed on as it
/// came, under the guest's number.
pub proof fn law_a_guest_reaches_exactly_its_host(
    state: ServerView,
    code: Seq<char>,
    guest: Guest,
    payload: Value,
    to: Option<GuestId>,
)
    requires
        state.inv(),
        state.rooms.contains_key(code),
        state.rooms[code].guests.contains(guest),
    ensures
        state.relay_step(guest.conn, payload, to) == seq![
            OutgoingView {
                to: state.rooms[code].host,
                message: ServerMessageView::Relay { guest_id: Some(guest.id), payload },
            },
        ],
{
    let room = state.rooms[code];
    let i = choose|i: int| 0 <= i < room.guests.len() && room.guests[i] == guest;
    law_a_guest_reaches_its_host(state, code, i, payload, to);
}

/// Whoever is in no room is told to join one first.
pub proof fn law_a_stranger_is_told_to_join_first(
    state: ServerView,
    conn: ConnId,
    payload: Value,
    to: Option<GuestId>,
)
    requires
        !state.members.contains_key(conn),
    ensures
        state.relay_step(conn, payload, to) == seq![
            OutgoingView {
                to: conn,
                message: ServerMessageView::Error { message: "entre numa sala primeiro"@ },
            },
        ],
{
}

/// Passing on is all or nothing: a client in a room never gets an answer of
/// its own, and whoever holds no place in an open room reaches nobody.
pub proof fn law_without_a_place_nothing_is_passed_on(
    state: ServerView,
    conn: ConnId,
    payload: Value,
    to: Option<GuestId>,
)
    requires
        state.inv(),
        state.members.contains_key(conn),
        forall|code: Seq<char>| #[trigger]
            state.rooms.contains_key(code) ==> state.rooms[code].host != conn && forall|i: int|
                0 <= i < state.rooms[code].guests.len() ==> (#[trigger] state.rooms[code].guests[i]).conn
                    != conn,
    ensures
        state.relay_step(conn, payload, to).len() == 0,
{
    let own = state.members[conn].code;
    if state.rooms.contains_key(own) && state.members[conn].role is Guest {
        let id = state.members[conn].role->Guest_0;
        let room = state.rooms[own];
        if room.holds(id, conn) {
            let i = choose|i: int| 0 <= i < room.guests.len() && room.guests[i] == (Guest {
                id,
                conn,
            });
            assert(state.rooms[own].guests[i].conn == conn);
        }
    }
}

/// When a host goes, its room goes with it and nothing else: the guests are
/// told, each once and in the order in which they joined, and every other
/// client and room stays as it was.
pub proof fn law_a_host_takes_only_its_room_along(before: ServerView, code: Seq<char>)
    requires
        before.inv(),
        before.rooms.contains_key(code),
    ensures
        ({
            let room = before.rooms[code];
            let (after, sends) = before.depart_step(room.host);
            &&& after.rooms == before.rooms.remove(code)
            &&& after.members == before.members.remove(room.host)
            &&& after.next_conn == before.next_conn
            &&& sends.len() == room.guests.len()
            &&& forall|i: int|
                0 <= i < sends.len() ==> (#[trigger] sends[i]) == (OutgoingView {
                    to: room.guests[i].conn,
                    message: ServerMessageView::PeerLeft { guest_id: None },
                })
        }),
{
}

/// When a guest goes, its place goes and nothing else: the host is told which
/// guest it was, the others stay in their order, and every other client and
/// room stays as it was.
pub proof fn law_a_guest_takes_only_its_place_along(before: ServerView, code: Seq<char>, i: int)
    requires
        before.inv(),
        before.rooms.contains_key(code),
        0 <= i < before.rooms[code].guests.len(),
    ensures
        ({
            let room = before.rooms[code];
            let guest = room.guests[i];
            let (after, sends) = before.depart_step(guest.conn);
            &&& after.rooms == before.rooms.insert(
                code,
                RoomView { guests: room.guests.remove(i), ..room },
            )
            &&& after.members == before.members.remove(guest.conn)
            &&& after.next_conn == before.next_conn
            &&& sends == seq![
                OutgoingView {
                    to: room.host,
                    message: ServerMessageView::PeerLeft { guest_id: Some(guest.id) },
                },
            ]
        }),
{
    let room = before.rooms[code];
    let guest = room.guests[i];
    assert(room.inv());
    assert(before.members[guest.conn] == (MembershipView { code, role: Role::Guest(guest.id) }));
    lemma_filter_one_out(room.guests, i, guest.id);
}

/// Whoever holds no place in an open room goes unnoticed: at most its own
/// membership ends.
pub proof fn law_without_a_place_nobody_is_told(before: ServerView, conn: ConnId)
    requires
        before.inv(),
        forall|code: Seq<char>| #[trigger]
            before.rooms.contains_key(code) ==> before.rooms[code].host != conn && forall|i: int|
                0 <= i < before.rooms[code].guests.len() ==> (
                #[trigger] before.rooms[code].guests[i]).conn != conn,
    ensures
        ({
            let (after, sends) = before.depart_step(conn);
            &&& after.rooms == before.rooms
            &&& after.members == before.members.remove(conn)
            &&& after.next_conn == before.next_conn
            &&& sends.len() == 0
        }),
{
    if before.members.contains_key(conn) {
        let own = before.members[conn].code;
        if before.rooms.contains_key(own) && before.members[conn].role is Guest {
            let id = before.members[conn].role->Guest_0;
            let room = before.rooms[own];
            if room.holds(id, conn) {
                let i = choose|i: int| 0 <= i < room.guests.len() && room.guests[i] == (Guest {
                    id,
                    conn,
                });
                assert(before.rooms[own].guests[i].conn == conn);
            }
        }
    } else {
        assert(before.members.remove(conn) =~= before.members);
    }
}

/// Only one thing cannot be handled: a join that has a place, in a room whose
/// numbers are used up.
pub proof fn law_nearly_every_message_can_be_handled(
    state: ServerView,
    conn: ConnId,
    message: ClientMessageView,
)
    ensures
        !state.can_number(conn, message) <==> {
            &&& message is Join
            &&& !state.members.contains_key(conn)
            &&& state.rooms.contains_key(message->Join_0)
            &&& state.rooms[message->Join_0].max_viewers matches Some(max)
                ==> state.rooms[message->Join_0].guests.len() < max
            &&& state.rooms[message->Join_0].next_guest_id == u32::MAX
        },
{
}

/// Each message is handled as what it asks for. A request to host gets a code
/// that is free while there is one; with none left nothing happens.
pub proof fn law_a_message_is_handled_as_what_it_asks_for(
    before: ServerView,
    conn: ConnId,
    message: ClientMessageView,
    after: ServerView,
    sends: Seq<OutgoingView>,
    free: Seq<char>,
)
    requires
        before.message_step(conn, message, after, sends),
    ensures
        match message {
            ClientMessageView::Host { max_viewers } => {
                &&& before.members.contains_key(conn) ==> (after, sends) == before.host_step(
                    conn,
                    max_viewers,
                    free,
                )
                &&& !before.members.contains_key(conn) && signaling_server::is_pairing_code(free)
                    && !before.rooms.contains_key(free) ==> exists|code: Seq<char>|
                    !before.rooms.contains_key(code) && #[trigger] signaling_server::is_pairing_code(
                        code,
                    ) && (after, sends) == before.host_step(conn, max_viewers, code)
                &&& !before.members.contains_key(conn) && (forall|code: Seq<char>| #[trigger]
                    signaling_server::is_pairing_code(code) ==> before.rooms.contains_key(code))
                    ==> after == before && sends.len() == 0
            },
            ClientMessageView::Join(code) => (after, sends) == before.join_step(conn, code),
            ClientMessageView::Relay { payload, to } => after == before && sends
                == before.relay_step(conn, payload, to),
            ClientMessageView::Leave => (after, sends) == before.depart_step(conn),
        },
{
}

/// Everything the relay sends on account of a client that is in a room goes
/// to that client or to someone in the same room.
pub proof fn law_messages_stay_in_the_room(
    before: ServerView,
    conn: ConnId,
    message: ClientMessageView,
    after: ServerView,
    sends: Seq<OutgoingView>,
    k: int,
)
    requires
        before.inv(),
        before.members.contains_key(conn),
        before.message_step(conn, message, after, sends),
        0 <= k < sends.len(),
    ensures
        ({
            let code = before.members[conn].code;
            ||| sends[k].to == conn
            ||| {
                &&& before.rooms.contains_key(code)
                &&& before.members.contains_key(sends[k].to)
                &&& before.members[sends[k].to].code == code
            }
        }),
{
    let code = before.members[conn].code;
    if before.rooms.contains_key(code) {
        let room = before.rooms[code];
        match message {
            ClientMessageView::Relay { payload, to } => {
                if before.members[conn].role is Host && to is Some && room.has_guest(to->0) {
                    let i = choose|i: int|
                        0 <= i < room.guests.len() && (#[trigger] room.guests[i]).id == to->0;
                    assert(before.rooms[code].guests[i].conn == sends[k].to);
                }
            },
            ClientMessageView::Leave => {
                if before.members[conn].role is Host {
                    assert(before.rooms[code].guests[k].conn == sends[k].to);
                }
            },
            _ => {},
        }
    }
}

/// A client that leaves on purpose is gone just as one whose connection drops:
/// the same happens and the same is said. That its connection then ends as
/// well changes nothing and says nothing.
pub proof fn law_leaving_is_disconnecting(
    before: ServerView,
    conn: ConnId,
    after: ServerView,
    sends: Seq<OutgoingView>,
)
    requires
        before.message_step(conn, ClientMessageView::Leave, after, sends),
    ensures
        (after, sends) == before.depart_step(conn),
        after.depart_step(conn) == (after, Seq::<OutgoingView>::empty()),
{
}

/// The messages of a connection that are handled: those up to the first that
/// ends it.
pub open spec fn handled(messages: Seq<ClientMessageView>) -> Seq<ClientMessageView>
    decreases messages.len(),
{
    if messages.len() == 0 {
        messages
    } else if messages[0] is Leave {
        messages.take(1)
    } else {
        seq![messages[0]] + handled(messages.skip(1))
    }
}

/// All that was said, in order.
pub open spec fn all_said(said: Seq<Seq<OutgoingView>>) -> Seq<OutgoingView>
    decreases said.len(),
{
    if said.len() == 0 {
        Seq::empty()
    } else {
        all_said(said.drop_last()) + said.last()
    }
}

/// Whether the messages of a connection can lead through `states`, with
/// `said` being sent on account of each.
pub open spec fn leads_through(
    conn: ConnId,
    messages: Seq<ClientMessageView>,
    states: Seq<ServerView>,
    said: Seq<Seq<OutgoingView>>,
) -> bool {
    &&& states.len() == messages.len() + 1
    &&& said.len() == messages.len()
    &&& forall|i: int|
        0 <= i < messages.len() ==> (#[trigger] states[i]).message_step(
            conn,
            messages[i],
            states[i + 1],
            said[i],
        )
}

/// Whether `after` and `sends` are what a connection may lead to on which
/// these messages arrive, with no other client acting. They are handled one
/// by one, up to one that ends the connection; then, or when the messages
/// end, the client is gone.
pub open spec fn connection_run(
    before: ServerView,
    conn: ConnId,
    messages: Seq<ClientMessageView>,
    after: ServerView,
    sends: Seq<OutgoingView>,
) -> bool {
    exists|states: Seq<ServerView>, said: Seq<Seq<OutgoingView>>|
        {
            &&& #[trigger] leads_through(conn, handled(messages), states, said)
            &&& states[0] == before
            &&& after == states.last().depart_step(conn).0
            &&& sends == all_said(said) + states.last().depart_step(conn).1
        }
}

proof fn lemma_handled(messages: Seq<ClientMessageView>, ignored: Seq<ClientMessageView>)
    requires
        forall|i: int| 0 <= i < messages.len() ==> (#[trigger] messages[i]) !is Leave,
    ensures
        handled(messages) == messages,
        handled(messages + seq![ClientMessageView::Leave] + ignored) == messages.push(
            ClientMessageView::Leave,
        ),
    decreases messages.len(),
{
    let all = messages + seq![ClientMessageView::Leave] + ignored;
    if messages.len() == 0 {
        assert(all[0] is Leave);
        assert(all.take(1) =~= messages.push(ClientMessageView::Leave));
    } else {
        let rest = messages.skip(1);
        assert forall|i: int| 0 <= i < rest.len() implies (#[trigger] rest[i]) !is Leave by {
            assert(rest[i] == messages[i + 1]);
        }
        lemma_handled(rest, ignored);
        assert(all[0] == messages[0] && messages[0] !is Leave);
        assert(all.skip(1) =~= rest + seq![ClientMessageView::Leave] + ignored);
        assert(seq![messages[0]] + rest =~= messages);
        assert(seq![messages[0]] + rest.push(ClientMessageView::Leave) =~= messages.push(
            ClientMessageView::Leave,
        ));
    }
}

/// After its messages, a client may leave on purpose or just be gone: what
/// becomes of the relay, and what everybody is told, is the same. Whatever it
/// sends after it left has no effect.
pub proof fn law_nothing_counts_after_leaving(
    before: ServerView,
    conn: ConnId,
    messages: Seq<ClientMessageView>,
    ignored: Seq<ClientMessageView>,
    after: ServerView,
    sends: Seq<OutgoingView>,
)
    requires
        forall|i: int| 0 <= i < messages.len() ==> (#[trigger] messages[i]) !is Leave,
    ensures
        connection_run(
            before,
            conn,
            messages + seq![ClientMessageView::Leave] + ignored,
            after,
            sends,
        ) <==> connection_run(before, conn, messages, after, sends),
{
    let all = messages + seq![ClientMessageView::Leave] + ignored;
    let with_leave = messages.push(ClientMessageView::Leave);
    let n = messages.len() as int;
    lemma_handled(messages, ignored);
    if connection_run(before, conn, messages, after, sends) {
        let (states, said) = choose|states: Seq<ServerView>, said: Seq<Seq<OutgoingView>>|
            {
                &&& #[trigger] leads_through(conn, handled(messages), states, said)
                &&& states[0] == before
                &&& after == states.last().depart_step(conn).0
                &&& sends == all_said(said) + states.last().depart_step(conn).1
            };
        let (left, last_said) = states.last().depart_step(conn);
        law_leaving_is_disconnecting(states.last(), conn, left, last_said);
        let longer = states.push(left);
        let told = said.push(last_said);
        assert forall|i: int| 0 <= i < with_leave.len() implies (
        #[trigger] longer[i]).message_step(conn, with_leave[i], longer[i + 1], told[i]) by {
            assert(longer[i] == states[i]);
            if i < n {
                assert(longer[i + 1] == states[i + 1]);
            }
        }
        assert(leads_through(conn, handled(all), longer, told));
        assert(told.drop_last() =~= said);
        assert(all_said(told) + Seq::<OutgoingView>::empty() =~= all_said(said) + last_said);
    }
    if connection_run(before, conn, all, after, sends) {
        let (states, said) = choose|states: Seq<ServerView>, said: Seq<Seq<OutgoingView>>|
            {
                &&& #[trigger] leads_through(conn, handled(all), states, said)
                &&& states[0] == before
                &&& after == states.last().depart_step(conn).0
                &&& sends == all_said(said) + states.last().depart_step(conn).1
            };
        assert(states[n].message_step(conn, with_leave[n], states[n + 1], said[n]));
        law_leaving_is_disconnecting(states[n], conn, states[n + 1], said[n]);
        let shorter = states.drop_last();
        let told = said.drop_last();
        assert forall|i: int| 0 <= i < n implies (#[trigger] shorter[i]).message_step(
            conn,
            messages[i],
            shorter[i + 1],
            told[i],
        ) by {
            assert(states[i].message_step(conn, with_leave[i], states[i + 1], said[i]));
        }
        assert(leads_through(conn, handled(messages), shorter, told));
        assert(all_said(said) + Seq::<OutgoingView>::empty() =~= all_said(told) + said[n]);
    }
}

/// Something that happens to the relay.
pub enum Happening {
    /// A client connects.
    Connect,
    /// A client's message is handled.
    Message(ConnId, ClientMessageView),
    /// A client is gone.
    Gone(ConnId),
}

/// Whether `after` and `sends` are what something may lead to.
pub open spec fn happening_step(
    before: ServerView,
    happening: Happening,
    after: ServerView,
    sends: Seq<OutgoingView>,
) -> bool {
    match happening {
        Happening::Connect => {
            &&& before.next_conn < u64::MAX
            &&& after == ServerView { next_conn: (before.next_conn + 1) as u64, ..before }
            &&& sends.len() == 0
        },
        Happening::Message(conn, message) => {
            &&& conn < before.next_conn
            &&& before.can_number(conn, message)
            &&& before.message_step(conn, message, after, sends)
        },
        Happening::Gone(conn) => (after, sends) == before.depart_step(conn),
    }
}

/// A stretch of the relay's life: what happened, the state before and after
/// each happening, and what was sent on account of it.
pub struct History {
    pub states: Seq<ServerView>,
    pub happenings: Seq<Happening>,
    pub sends: Seq<Seq<OutgoingView>>,
}

impl History {
    /// Whether each happening led from the state before it to the one after.
    pub open spec fn is_valid(self) -> bool {
        &&& self.states.len() == self.happenings.len() + 1
        &&& self.sends.len() == self.happenings.len()
        &&& forall|i: int|
            0 <= i < self.happenings.len() ==> happening_step(
                self.states[i],
                #[trigger] self.happenings[i],
                self.states[i + 1],
                self.sends[i],
            )
    }

    /// Whether the room `code` is open all the while.
    pub open spec fn keeps_open(self, code: Seq<char>) -> bool {
        forall|i: int|
            0 <= i < self.states.len() ==> (#[trigger] self.states[i]).rooms.contains_key(code)
    }

    /// Whether the happening at `i` lets a client into the room `code`.
    pub open spec fn lets_in_at(self, code: Seq<char>, i: int) -> bool {
        self.happenings[i] matches Happening::Message(conn, ClientMessageView::Join(c)) && c == code
            && self.states[i].lets_in(conn, code)
    }

    /// How many clients the first `n` happenings let into the room `code`.
    pub open spec fn let_in(self, code: Seq<char>, n: nat) -> nat
        decreases n,
    {
        if n == 0 {
            0
        } else {
            self.let_in(code, (n - 1) as nat) + if self.lets_in_at(code, n - 1) {
                1nat
            } else {
                0nat
            }
        }
    }
}

proof fn lemma_ids_count_joins(
    before: ServerView,
    happening: Happening,
    after: ServerView,
    sends: Seq<OutgoingView>,
    code: Seq<char>,
)
    requires
        happening_step(before, happening, after, sends),
        before.rooms.contains_key(code),
        after.rooms.contains_key(code),
    ensures
        ({
            let joins = happening matches Happening::Message(conn, ClientMessageView::Join(c)) && c
                == code && before.lets_in(conn, code);
            after.rooms[code].next_guest_id == before.rooms[code].next_guest_id + if joins {
                1int
            } else {
                0int
            }
        }),
        after.rooms[code].host == before.rooms[code].host,
{
}

proof fn lemma_ids_count_joins_so_far(history: History, code: Seq<char>, n: nat)
    requires
        history.is_valid(),
        history.keeps_open(code),
        history.states[0].rooms[code].next_guest_id == 0,
        n < history.states.len(),
    ensures
        history.states[n as int].rooms[code].next_guest_id == history.let_in(code, n),
        history.states[n as int].rooms[code].host == history.states[0].rooms[code].host,
    decreases n,
{
    if n > 0 {
        let i = n - 1;
        lemma_ids_count_joins_so_far(history, code, i as nat);
        assert(history.states[i].rooms.contains_key(code));
        assert(history.states[i + 1].rooms.contains_key(code));
        assert(happening_step(
            history.states[i],
            history.happenings[i],
            history.states[i + 1],
            history.sends[i],
        ));
        lemma_ids_count_joins(
            history.states[i],
            history.happenings[i],
            history.states[i + 1],
            history.sends[i],
            code,
        );
    }
}

/// Over the life of a room, whoever comes and goes in between, the client that
/// is let in after `k` others is announced to the host as guest `k`, and is
/// told itself that it is in.
pub proof fn law_guests_are_numbered_in_join_order(history: History, code: Seq<char>, i: int)
    requires
        history.is_valid(),
        history.keeps_open(code),
        history.states[0].rooms[code].next_guest_id == 0,
        0 <= i < history.happenings.len(),
        history.lets_in_at(code, i),
    ensures
        history.let_in(code, i as nat) < u32::MAX,
        history.happenings[i] matches Happening::Message(conn, _) && history.sends[i] == seq![
            signaling_server::say(
                history.states[0].rooms[code].host,
                ServerMessageView::Paired {
                    guest_id: Some(history.let_in(code, i as nat) as u32),
                },
            ),
            signaling_server::say(conn, ServerMessageView::Paired { guest_id: None }),
        ],
{
    lemma_ids_count_joins_so_far(history, code, i as nat);
    assert(history.states[i].rooms.contains_key(code));
    assert(happening_step(
        history.states[i],
        history.happenings[i],
        history.states[i + 1],
        history.sends[i],
    ));
}

/// A guest id is never given again in the life of a room, not even after its
/// guest has left.
pub proof fn law_guest_ids_are_never_given_again(
    history: History,
    code: Seq<char>,
    i: int,
    j: int,
)
    requires
        0 <= i < j,
        history.lets_in_at(code, i),
    ensures
        history.let_in(code, i as nat) < history.let_in(code, j as nat),
    decreases j,
{
    if j > i + 1 {
        law_guest_ids_are_never_given_again(history, code, i, j - 1);
    }
}

} // verus!
