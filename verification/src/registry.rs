//! The room registry: the process-wide table mapping room id to room,
//! owning every room and serializing creation and lookup.

use vstd::prelude::*;
use vstd::pervasive::VecAdditionalExecFns;

use crate::room::Room;
use crate::room::RoomModel;
use crate::room::buffer_of;
use crate::room::contains_id;
use crate::room::joined;
use crate::room::lemma_join_preserves_others;
use crate::room::unique_ids;

verus! {

/// Whether some room in the sequence has the given id.
pub open spec fn contains_room(rs: Seq<RoomModel>, id: Seq<char>) -> bool {
    exists|i: int| 0 <= i < rs.len() && rs[i].id == id
}

/// The position of the room with the given id.
pub open spec fn index_of_room(rs: Seq<RoomModel>, id: Seq<char>) -> int {
    choose|i: int| 0 <= i < rs.len() && rs[i].id == id
}

/// The room with the given id.
pub open spec fn room_of(rs: Seq<RoomModel>, id: Seq<char>) -> RoomModel {
    rs[index_of_room(rs, id)]
}

/// No two rooms share an id.
pub open spec fn unique_room_ids(rs: Seq<RoomModel>) -> bool {
    forall|i: int, j: int| 0 <= i < j < rs.len() ==> rs[i].id != rs[j].id
}

/// Registry well-formedness: room ids are unique and every room is
/// well-formed.
pub open spec fn registry_wf(rs: Seq<RoomModel>) -> bool {
    &&& unique_room_ids(rs)
    &&& forall|i: int| 0 <= i < rs.len() ==> unique_ids(#[trigger] rs[i].parts)
}

/// The registry after a room is registered under its id: an existing room
/// with that id is overwritten, else the room is appended.
pub open spec fn created(rs: Seq<RoomModel>, room: RoomModel) -> Seq<RoomModel> {
    if contains_room(rs, room.id) {
        rs.update(index_of_room(rs, room.id), room)
    } else {
        rs.push(room)
    }
}

/// The registry after a fetch of the given room id by the given
/// participant: the participant joins the room with that id, the room
/// being created empty first when the id is unknown.
pub open spec fn fetched(rs: Seq<RoomModel>, id: Seq<char>, pid: Seq<char>) -> Seq<RoomModel> {
    if contains_room(rs, id) {
        let i = index_of_room(rs, id);
        rs.update(i, RoomModel { id: rs[i].id, parts: joined(rs[i].parts, pid) })
    } else {
        rs.push(RoomModel { id: id, parts: joined(Seq::empty(), pid) })
    }
}

/// The process-wide table of rooms, keyed by room id.
pub struct Rooms {
    pub rooms: Vec<Room>,
}

impl View for Rooms {
    type V = Seq<RoomModel>;

    open spec fn view(&self) -> Seq<RoomModel> {
        self.rooms.deep_view()
    }
}

impl Default for Rooms {
    /// An empty registry.
    fn default() -> (r: Rooms)
        ensures
            r@ == Seq::<RoomModel>::empty(),
            r.wf(),
    {
        let r = Rooms { rooms: Vec::new() };
        proof {
            assert(r@ =~= Seq::<RoomModel>::empty());
        }
        r
    }
}

impl Rooms {
    /// Registry well-formedness.
    pub open spec fn wf(self) -> bool {
        registry_wf(self@)
    }

    /// The index of the room with the given id, if any.
    fn find_room(&self, id: &String) -> (r: Option<usize>)
        requires
            self.wf(),
        ensures
            (r matches Option::None) <==> !contains_room(self@, id@),
            r matches Option::Some(i) ==> 0 <= i < self@.len() && self@[i as int].id == id@
                && i == index_of_room(self@, id@),
    {
        let mut i: usize = 0;
        while i < self.rooms.len()
            invariant
                self.wf(),
                0 <= i <= self.rooms@.len(),
                self.rooms@.len() == self@.len(),
                forall|k: int| 0 <= k < i ==> self@[k].id != id@,
            decreases self.rooms@.len() - i,
        {
            if self.rooms[i].id == *id {
                proof {
                    assert(self@[i as int].id == id@);
                    assert(contains_room(self@, id@));
                    let j = index_of_room(self@, id@);
                    assert(0 <= j < self@.len() && self@[j].id == id@);
                    assert(j == i);
                }
                return Some(i);
            }
            i += 1;
        }
        proof {
            assert(forall|k: int| 0 <= k < self@.len() ==> #[trigger] self@[k].id != id@);
        }
        None
    }

    /// Registers a room under its id, overwriting any room already held
    /// under that id.
    pub fn create_room(&mut self, room: Room)
        requires
            old(self).wf(),
            room.wf(),
        ensures
            final(self).wf(),
            final(self)@ == created(old(self)@, room@),
    {
        let found = self.find_room(&room.id);
        match found {
            Some(i) => {
                self.rooms.set(i, room);
                proof {
                    assert(self@ =~= old(self)@.update(i as int, room@));
                }
            }
            None => {
                self.rooms.push(room);
                proof {
                    assert(self@ =~= old(self)@.push(room@));
                }
            }
        }
        proof {
            assert forall|a: int, b: int| 0 <= a < b < self@.len()
                implies self@[a].id != self@[b].id by {
                assert(old(self)@.len() == self@.len() || old(self)@.len() + 1 == self@.len());
                if b < old(self)@.len() {
                    assert(old(self)@[a].id != old(self)@[b].id);
                }
            }
        }
    }

    /// Atomic lookup-or-insert: returns the index of the room with the
    /// given id, constructing a new empty room for it first when absent.
    pub fn get_or_create_room(&mut self, id: &String) -> (i: usize)
        requires
            old(self).wf(),
        ensures
            final(self).wf(),
            0 <= i < final(self)@.len(),
            final(self)@[i as int].id == id@,
            i == index_of_room(final(self)@, id@),
            contains_room(old(self)@, id@) ==> *final(self) == *old(self),
            !contains_room(old(self)@, id@) ==> i == old(self)@.len()
                && final(self)@ == old(self)@.push((RoomModel { id: id@, parts: Seq::empty() })),
    {
        let found = self.find_room(id);
        match found {
            Some(i) => i,
            None => {
                let i = self.rooms.len();
                let room = Room::new(id.clone());
                self.rooms.push(room);
                proof {
                    assert(self@ =~= old(self)@.push((RoomModel { id: id@, parts: Seq::empty() })));
                    assert(self@[i as int].id == id@);
                    assert forall|a: int, b: int| 0 <= a < b < self@.len()
                        implies self@[a].id != self@[b].id by {
                        if b < old(self)@.len() {
                            assert(old(self)@[a].id != old(self)@[b].id);
                        } else {
                            assert(old(self)@[a].id != id@);
                        }
                    }
                    let j = index_of_room(self@, id@);
                    assert(0 <= j < self@.len() && self@[j].id == id@);
                    assert(j == i);
                }
                i
            }
        }
    }
}

/// A fetch of an unknown room id creates exactly one room, holding exactly
/// one participant; a second fetch of the same id, by any participant,
/// creates no further room.
pub proof fn lemma_fetch_creates_once(
    rs: Seq<RoomModel>,
    id: Seq<char>,
    p1: Seq<char>,
    p2: Seq<char>,
)
    requires
        registry_wf(rs),
        !contains_room(rs, id),
    ensures
        fetched(rs, id, p1).len() == rs.len() + 1,
        contains_room(fetched(rs, id, p1), id),
        room_of(fetched(rs, id, p1), id).parts.len() == 1,
        fetched(fetched(rs, id, p1), id, p2).len() == fetched(rs, id, p1).len(),
{
    let after = fetched(rs, id, p1);
    assert(!contains_id(Seq::<crate::room::ParticipantModel>::empty(), p1));
    assert(after == rs.push(RoomModel { id: id, parts: joined(Seq::empty(), p1) }));
    assert(after[rs.len() as int].id == id);
    assert(contains_room(after, id));
    assert forall|a: int, b: int| 0 <= a < b < after.len()
        implies after[a].id != after[b].id by {
        if b < rs.len() {
            assert(rs[a].id != rs[b].id);
        } else {
            assert(rs[a].id != id);
        }
    }
    let j = index_of_room(after, id);
    assert(0 <= j < after.len() && after[j].id == id);
    assert(j == rs.len());
    assert(room_of(after, id).parts.len() == 1);
}

/// Fetching an existing room with a new participant id grows that room's
/// count by exactly one, leaves every other participant's buffer in it
/// unchanged, and leaves every other room unchanged.
pub proof fn lemma_fetch_existing(
    rs: Seq<RoomModel>,
    id: Seq<char>,
    pid: Seq<char>,
    q: Seq<char>,
)
    requires
        registry_wf(rs),
        contains_room(rs, id),
        !contains_id(room_of(rs, id).parts, pid),
    ensures
        fetched(rs, id, pid).len() == rs.len(),
        room_of(fetched(rs, id, pid), id).parts.len() == room_of(rs, id).parts.len() + 1,
        q != pid && contains_id(room_of(rs, id).parts, q)
            ==> buffer_of(room_of(fetched(rs, id, pid), id).parts, q)
                == buffer_of(room_of(rs, id).parts, q),
        forall|k: int| 0 <= k < rs.len() && rs[k].id != id
            ==> #[trigger] fetched(rs, id, pid)[k] == rs[k],
{
    let i = index_of_room(rs, id);
    assert(0 <= i < rs.len() && rs[i].id == id);
    let after = fetched(rs, id, pid);
    assert(after == rs.update(i, RoomModel { id: rs[i].id, parts: joined(rs[i].parts, pid) }));
    assert forall|a: int, b: int| 0 <= a < b < after.len()
        implies after[a].id != after[b].id by {
        assert(rs[a].id != rs[b].id);
    }
    assert(after[i].id == id);
    let j = index_of_room(after, id);
    assert(0 <= j < after.len() && after[j].id == id);
    assert(j == i);
    lemma_join_preserves_others(rs[i].parts, pid, q);
    assert forall|k: int| 0 <= k < rs.len() && rs[k].id != id
        implies #[trigger] after[k] == rs[k] by {
        assert(k != i);
    }
}

} // verus!
