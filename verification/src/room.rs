//! Rooms: a named shared session holding one text buffer per participant,
//! together with the read-only view rendered for one participant.

use vstd::prelude::*;

verus! {

/// One connected identity within a room, holding one text buffer
/// (an ordered sequence of lines).
pub struct Participant {
    pub id: String,
    pub buffer: Vec<String>,
}

/// The mathematical value of a participant: its identifier and its buffer.
#[verifier::ext_equal]
pub struct ParticipantModel {
    pub id: Seq<char>,
    pub buffer: Seq<Seq<char>>,
}

impl View for Participant {
    type V = ParticipantModel;

    open spec fn view(&self) -> ParticipantModel {
        ParticipantModel { id: self.id@, buffer: self.buffer.deep_view() }
    }
}

impl DeepView for Participant {
    type V = ParticipantModel;

    open spec fn deep_view(&self) -> ParticipantModel {
        self.view()
    }
}

/// The buffer every participant starts with: one empty line.
pub open spec fn initial_buffer() -> Seq<Seq<char>> {
    seq![Seq::<char>::empty()]
}

/// Whether some participant in the sequence has the given id.
pub open spec fn contains_id(parts: Seq<ParticipantModel>, id: Seq<char>) -> bool {
    exists|i: int| 0 <= i < parts.len() && parts[i].id == id
}

/// The position of the participant with the given id.
pub open spec fn index_of_id(parts: Seq<ParticipantModel>, id: Seq<char>) -> int {
    choose|i: int| 0 <= i < parts.len() && parts[i].id == id
}

/// The buffer of the participant with the given id.
pub open spec fn buffer_of(parts: Seq<ParticipantModel>, id: Seq<char>) -> Seq<Seq<char>> {
    parts[index_of_id(parts, id)].buffer
}

/// No two participants share an id.
pub open spec fn unique_ids(parts: Seq<ParticipantModel>) -> bool {
    forall|i: int, j: int| 0 <= i < j < parts.len() ==> parts[i].id != parts[j].id
}

/// The ids of all participants, in join order.
pub open spec fn ids_of(parts: Seq<ParticipantModel>) -> Seq<Seq<char>> {
    parts.map(|i: int, p: ParticipantModel| p.id)
}

/// The given sequence of ids with every occurrence of one id removed,
/// keeping the order of the rest.
pub open spec fn seq_without(ids: Seq<Seq<char>>, id: Seq<char>) -> Seq<Seq<char>>
    decreases ids.len(),
{
    if ids.len() == 0 {
        Seq::empty()
    } else {
        let rest = seq_without(ids.drop_last(), id);
        if ids.last() == id {
            rest
        } else {
            rest.push(ids.last())
        }
    }
}

/// The ids of all participants other than the given one, in join order.
pub open spec fn other_ids(parts: Seq<ParticipantModel>, id: Seq<char>) -> Seq<Seq<char>> {
    seq_without(ids_of(parts), id)
}

/// The participant sequence after an id joins: unchanged when the id is
/// already present, else extended with a fresh one-empty-line buffer.
pub open spec fn joined(parts: Seq<ParticipantModel>, id: Seq<char>) -> Seq<ParticipantModel> {
    if contains_id(parts, id) {
        parts
    } else {
        parts.push(ParticipantModel { id: id, buffer: initial_buffer() })
    }
}

/// A named shared session: an immutable id and the participants' buffers,
/// kept in join order.
pub struct Room {
    pub id: String,
    pub participants: Vec<Participant>,
}

/// The mathematical value of a room.
#[verifier::ext_equal]
pub struct RoomModel {
    pub id: Seq<char>,
    pub parts: Seq<ParticipantModel>,
}

impl View for Room {
    type V = RoomModel;

    open spec fn view(&self) -> RoomModel {
        RoomModel { id: self.id@, parts: self.participants.deep_view() }
    }
}

impl DeepView for Room {
    type V = RoomModel;

    open spec fn deep_view(&self) -> RoomModel {
        self.view()
    }
}

/// The read-only snapshot of room state sent to a client after a join.
pub struct RoomView {
    pub messages: Vec<Participant>,
    pub participants: usize,
    pub id: String,
    pub your_id: String,
    pub their_id: Option<String>,
    pub other_participant_ids: Vec<String>,
}

/// What a rendered view says of a room for one requesting participant:
/// the full buffer snapshot, the participant count, the requester's own
/// id, the other participants' ids in join order, and a representative
/// other id exactly when one exists.
pub open spec fn view_renders(v: RoomView, rm: RoomModel, pid: Seq<char>) -> bool {
    &&& v.id@ == rm.id
    &&& v.your_id@ == pid
    &&& v.participants == rm.parts.len()
    &&& v.messages.deep_view() == rm.parts
    &&& v.other_participant_ids.deep_view() == other_ids(rm.parts, pid)
    &&& ((v.their_id matches Option::None) <==> other_ids(rm.parts, pid).len() == 0)
    &&& (other_ids(rm.parts, pid).len() > 0 ==> (v.their_id matches Option::Some(t)
        && t@ == other_ids(rm.parts, pid)[0]))
}

/// An equal copy of a line buffer.
fn clone_lines(v: &Vec<String>) -> (r: Vec<String>)
    ensures
        r.deep_view() == v.deep_view(),
{
    let mut r: Vec<String> = Vec::new();
    let mut i: usize = 0;
    while i < v.len()
        invariant
            0 <= i <= v@.len(),
            r@.len() == i,
            forall|k: int| 0 <= k < i ==> r@[k]@ == v@[k]@,
        decreases v@.len() - i,
    {
        r.push(v[i].clone());
        i += 1;
    }
    proof {
        assert(r.deep_view() =~= v.deep_view());
    }
    r
}

/// An equal copy of a participant sequence.
fn clone_participants(v: &Vec<Participant>) -> (r: Vec<Participant>)
    ensures
        r.deep_view() == v.deep_view(),
{
    let mut r: Vec<Participant> = Vec::new();
    let mut i: usize = 0;
    while i < v.len()
        invariant
            0 <= i <= v@.len(),
            r@.len() == i,
            forall|k: int| 0 <= k < i ==> r@[k]@ == v@[k]@,
        decreases v@.len() - i,
    {
        let p = Participant { id: v[i].id.clone(), buffer: clone_lines(&v[i].buffer) };
        proof {
            assert(p@ =~= v@[i as int]@);
        }
        r.push(p);
        i += 1;
    }
    proof {
        assert(r.deep_view() =~= v.deep_view());
    }
    r
}

impl Room {
    /// Room well-formedness: participant ids are unique.
    pub open spec fn wf(self) -> bool {
        unique_ids(self@.parts)
    }

    /// Creates an empty room with the given id.
    pub fn new(id: String) -> (r: Room)
        ensures
            r@ == (RoomModel { id: id@, parts: Seq::empty() }),
            r.wf(),
    {
        let r = Room { id, participants: Vec::new() };
        proof {
            assert(r@ =~= (RoomModel { id: id@, parts: Seq::empty() }));
        }
        r
    }

    /// Inserts the participant with a fresh one-empty-line buffer, only if
    /// absent: rejoining with an id already present leaves the room
    /// unchanged.
    pub fn join(&mut self, socket_id: String)
        requires
            old(self).wf(),
        ensures
            final(self).wf(),
            final(self)@.id == old(self)@.id,
            final(self)@.parts == joined(old(self)@.parts, socket_id@),
    {
        let n = self.participants.len();
        let mut i: usize = 0;
        while i < n
            invariant
                old(self).wf(),
                n == self.participants.len(),
                0 <= i <= n,
                forall|k: int| 0 <= k < i ==> self.participants@[k]@.id != socket_id@,
                *self == *old(self),
            decreases n - i,
        {
            if self.participants[i].id == socket_id {
                proof {
                    assert(self@.parts[i as int].id == socket_id@);
                    assert(contains_id(self@.parts, socket_id@));
                    assert(self@.parts == old(self)@.parts);
                    assert(unique_ids(self@.parts));
                    assert(self.wf());
                }
                return;
            }
            i += 1;
        }
        proof {
            assert(forall|k: int| 0 <= k < self@.parts.len()
                ==> #[trigger] self@.parts[k].id != socket_id@);
            assert(!contains_id(self@.parts, socket_id@));
        }
        let mut buffer: Vec<String> = Vec::new();
        buffer.push(String::new());
        let p = Participant { id: socket_id, buffer };
        proof {
            assert(p@.buffer =~= initial_buffer());
            assert(p@ =~= (ParticipantModel { id: socket_id@, buffer: initial_buffer() }));
        }
        self.participants.push(p);
        proof {
            assert(self@.parts =~= old(self)@.parts.push(
                ParticipantModel { id: socket_id@, buffer: initial_buffer() },
            ));
            assert(self@.parts == joined(old(self)@.parts, socket_id@));
            assert forall|a: int, b: int| 0 <= a < b < self@.parts.len()
                implies self@.parts[a].id != self@.parts[b].id by {
                if b + 1 < self@.parts.len() {
                    assert(old(self)@.parts[a].id != old(self)@.parts[b].id);
                }
            }
        }
    }

    /// A point-in-time snapshot of the room rendered for one participant:
    /// the full buffer map, the participant count, the other participants'
    /// ids in join order, and a representative other id, if any.
    pub fn render(&self, socket_id: &String) -> (v: RoomView)
        ensures
            view_renders(v, self@, socket_id@),
    {
        let ghost all_ids = ids_of(self@.parts);
        let messages = clone_participants(&self.participants);
        let participants = self.participants.len();
        let mut others: Vec<String> = Vec::new();
        let mut i: usize = 0;
        while i < self.participants.len()
            invariant
                0 <= i <= self.participants@.len(),
                all_ids == ids_of(self@.parts),
                all_ids.len() == self@.parts.len(),
                self.participants@.len() == self@.parts.len(),
                others.deep_view() == seq_without(all_ids.subrange(0, i as int), socket_id@),
            decreases self.participants@.len() - i,
        {
            proof {
                assert(all_ids.subrange(0, i + 1).drop_last() =~= all_ids.subrange(0, i as int));
                assert(all_ids.subrange(0, i + 1).last() == self@.parts[i as int].id);
            }
            if !(self.participants[i].id == *socket_id) {
                let ghost before = others.deep_view();
                others.push(self.participants[i].id.clone());
                proof {
                    assert(others.deep_view() =~= before.push(self@.parts[i as int].id));
                }
            }
            i += 1;
        }
        proof {
            assert(all_ids.subrange(0, all_ids.len() as int) =~= all_ids);
        }
        let their_id: Option<String> = if others.len() > 0 {
            proof {
                assert(others.deep_view()[0] == others@[0]@);
            }
            Some(others[0].clone())
        } else {
            None
        };
        RoomView {
            messages,
            participants,
            id: self.id.clone(),
            your_id: socket_id.clone(),
            their_id,
            other_participant_ids: others,
        }
    }
}

/// Joining is idempotent: a second join with the same id changes nothing,
/// and rejoining never alters the participant's existing buffer.
pub proof fn lemma_join_idempotent(parts: Seq<ParticipantModel>, id: Seq<char>)
    requires
        unique_ids(parts),
    ensures
        joined(joined(parts, id), id) == joined(parts, id),
        contains_id(parts, id) ==> joined(parts, id) == parts,
        contains_id(parts, id) ==> buffer_of(joined(parts, id), id) == buffer_of(parts, id),
{
    if !contains_id(parts, id) {
        let pushed = parts.push(ParticipantModel { id: id, buffer: initial_buffer() });
        assert(pushed[parts.len() as int].id == id);
        assert(contains_id(pushed, id));
    }
}

/// Joining one id leaves every other participant's buffer unchanged and
/// grows the count by exactly one when the id is new, by zero otherwise.
pub proof fn lemma_join_preserves_others(parts: Seq<ParticipantModel>, id: Seq<char>, q: Seq<char>)
    requires
        unique_ids(parts),
    ensures
        contains_id(parts, id) ==> joined(parts, id).len() == parts.len(),
        !contains_id(parts, id) ==> joined(parts, id).len() == parts.len() + 1,
        q != id && contains_id(parts, q) ==> contains_id(joined(parts, id), q)
            && buffer_of(joined(parts, id), q) == buffer_of(parts, q),
{
    if !contains_id(parts, id) && q != id && contains_id(parts, q) {
        let after = joined(parts, id);
        let j = index_of_id(parts, q);
        assert(after[j].id == q);
        assert(contains_id(after, q));
        let k = index_of_id(after, q);
        assert(0 <= k < after.len() && after[k].id == q);
        assert(k < parts.len());
        assert(parts[k].id == q);
        assert(k == j);
    }
}

/// Participant visibility: in a two-participant room each participant sees
/// exactly the other one; in a single-participant room there is no other.
pub proof fn lemma_two_participant_visibility(a: ParticipantModel, b: ParticipantModel)
    requires
        a.id != b.id,
    ensures
        other_ids(seq![a], a.id) == Seq::<Seq<char>>::empty(),
        other_ids(seq![a, b], a.id) == seq![b.id],
        other_ids(seq![a, b], b.id) == seq![a.id],
{
    let one = seq![a];
    let two = seq![a, b];
    assert(ids_of(one) =~= seq![a.id]);
    assert(ids_of(two) =~= seq![a.id, b.id]);
    assert(seq![a.id].drop_last() =~= Seq::<Seq<char>>::empty());
    assert(seq_without(Seq::<Seq<char>>::empty(), a.id) =~= Seq::<Seq<char>>::empty());
    assert(seq_without(seq![a.id], a.id) =~= Seq::<Seq<char>>::empty());
    assert(seq![a.id, b.id].drop_last() =~= seq![a.id]);
    assert(seq_without(seq![a.id, b.id], a.id) =~= seq![b.id]);
    assert(seq_without(Seq::<Seq<char>>::empty(), b.id) =~= Seq::<Seq<char>>::empty());
    assert(seq_without(seq![a.id], b.id) =~= seq![a.id]);
    assert(seq_without(seq![a.id, b.id], b.id) =~= seq![a.id]);
}

} // verus!
