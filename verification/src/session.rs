//! The per-connection session handler: decoded client messages are
//! dispatched against the shared room registry, moving the connection from
//! unbound to bound and producing the response to send back.

use vstd::prelude::*;

use crate::hexid::is_hex_seq;
use crate::hexid::random_hex;
use crate::registry::Rooms;
use crate::registry::created;
use crate::registry::fetched;
use crate::registry::index_of_room;
use crate::registry::room_of;
use crate::room::ParticipantModel;
use crate::room::Room;
use crate::room::RoomModel;
use crate::room::RoomView;
use crate::room::initial_buffer;
use crate::room::view_renders;

verus! {

/// A decoded client message.
pub enum ClientMsg {
    /// Create a fresh room and join it.
    NewRoom { socket_id: Option<String> },
    /// Join the room with the given id, creating it when unknown.
    FetchRoom { id: String, socket_id: Option<String> },
    /// An edit keystroke; a no-op in current scope.
    KeyPress { key: String, cursor_pos: Option<u64> },
}

/// A response to send back to the client.
pub enum ServerMsg {
    /// Reply to a new-room request.
    RoomCreated(RoomView),
    /// Reply to a fetch-room request.
    GotRoom(RoomView),
}

/// The connection's binding state: unbound at first, then bound to one
/// room and one participant id.
pub enum SessionState {
    Connected,
    InRoom { room_id: String, participant_id: String },
}

/// Whether a chosen participant id correctly resolves an optional
/// client-supplied one: the supplied value when present, else a fresh
/// 20-digit lowercase hexadecimal id.
pub open spec fn id_resolved(given: Option<String>, chosen: Seq<char>) -> bool {
    match given {
        Option::Some(s) => chosen == s@,
        Option::None => chosen.len() == 20 && is_hex_seq(chosen),
    }
}

/// The room a new-room request registers: the generated id and the sole
/// requesting participant with its initial buffer.
pub open spec fn new_room_model(id: Seq<char>, pid: Seq<char>) -> RoomModel {
    RoomModel { id: id, parts: seq![(ParticipantModel { id: pid, buffer: initial_buffer() })] }
}

/// Resolves an optional client-supplied participant id.
fn resolve_participant_id(given: Option<String>) -> (r: String)
    ensures
        id_resolved(given, r@),
{
    match given {
        Some(s) => s,
        None => random_hex(20),
    }
}

/// Dispatches one decoded client message: a new-room request creates,
/// joins and registers a fresh room; a fetch-room request joins the room
/// with the given id, creating it when unknown; a key press changes
/// nothing. The first two bind the connection and answer with a rendered
/// view; a key press answers with silence.
pub fn handle_message(rooms: &mut Rooms, state: &mut SessionState, msg: ClientMsg) -> (resp: Option<
    ServerMsg,
>)
    requires
        old(rooms).wf(),
    ensures
        final(rooms).wf(),
        (msg matches ClientMsg::KeyPress { .. }) ==> *final(rooms) == *old(rooms)
            && *final(state) == *old(state) && (resp matches Option::None),
        msg matches ClientMsg::NewRoom { socket_id } ==> (match (resp, *final(state)) {
            (
                Option::Some(ServerMsg::RoomCreated(v)),
                SessionState::InRoom { room_id, participant_id },
            ) => {
                &&& id_resolved(socket_id, participant_id@)
                &&& room_id@.len() == 6
                &&& is_hex_seq(room_id@)
                &&& final(rooms)@ == created(
                    old(rooms)@,
                    new_room_model(room_id@, participant_id@),
                )
                &&& view_renders(v, new_room_model(room_id@, participant_id@), participant_id@)
            },
            _ => false,
        }),
        msg matches ClientMsg::FetchRoom { id, socket_id } ==> (match (resp, *final(state)) {
            (
                Option::Some(ServerMsg::GotRoom(v)),
                SessionState::InRoom { room_id, participant_id },
            ) => {
                &&& room_id@ == id@
                &&& id_resolved(socket_id, participant_id@)
                &&& final(rooms)@ == fetched(old(rooms)@, id@, participant_id@)
                &&& view_renders(
                    v,
                    room_of(fetched(old(rooms)@, id@, participant_id@), id@),
                    participant_id@,
                )
            },
            _ => false,
        }),
{
    match msg {
        ClientMsg::NewRoom { socket_id } => {
            let sid = resolve_participant_id(socket_id);
            let rid = random_hex(6);
            let mut room = Room::new(rid.clone());
            room.join(sid.clone());
            proof {
                assert(room@.parts =~= new_room_model(rid@, sid@).parts);
                assert(room@ =~= new_room_model(rid@, sid@));
            }
            let view = room.render(&sid);
            rooms.create_room(room);
            *state = SessionState::InRoom { room_id: rid, participant_id: sid };
            Some(ServerMsg::RoomCreated(view))
        },
        ClientMsg::FetchRoom { id, socket_id } => {
            let sid = resolve_participant_id(socket_id);
            let i = rooms.get_or_create_room(&id);
            let ghost mid = rooms@;
            let mut room = rooms.rooms.remove(i);
            proof {
                assert(room@ == mid[i as int]);
                assert(crate::room::unique_ids(room@.parts));
            }
            room.join(sid.clone());
            let view = room.render(&sid);
            rooms.rooms.insert(i, room);
            proof {
                assert(rooms@ =~= mid.update(i as int, room@));
                assert(room@.id == id@);
                if crate::registry::contains_room(old(rooms)@, id@) {
                    assert(mid == old(rooms)@);
                    assert(i == index_of_room(old(rooms)@, id@));
                    assert(room@ =~= (RoomModel {
                        id: old(rooms)@[i as int].id,
                        parts: crate::room::joined(old(rooms)@[i as int].parts, sid@),
                    }));
                    assert(rooms@ =~= fetched(old(rooms)@, id@, sid@));
                } else {
                    assert(mid == old(rooms)@.push((RoomModel { id: id@, parts: Seq::empty() })));
                    assert(i == old(rooms)@.len());
                    assert(room@ =~= (RoomModel {
                        id: id@,
                        parts: crate::room::joined(Seq::empty(), sid@),
                    }));
                    assert(rooms@ =~= fetched(old(rooms)@, id@, sid@));
                }
                assert(rooms@ == fetched(old(rooms)@, id@, sid@));
                assert forall|a: int, b: int| 0 <= a < b < rooms@.len()
                    implies rooms@[a].id != rooms@[b].id by {
                    assert(mid[a].id != mid[b].id);
                }
                assert(rooms.wf());
                assert(rooms@[i as int] == room@);
                let j = index_of_room(rooms@, id@);
                assert(0 <= j < rooms@.len() && rooms@[j].id == id@);
                assert(j == i);
                assert(room_of(fetched(old(rooms)@, id@, sid@), id@) == room@);
            }
            *state = SessionState::InRoom { room_id: id, participant_id: sid };
            Some(ServerMsg::GotRoom(view))
        },
        ClientMsg::KeyPress { key: _, cursor_pos: _ } => None,
    }
}

} // verus!
