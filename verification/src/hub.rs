//! The hub: the vote store, the room registry and the connection registry
//! held together, so that a participant is in all three or in none.

use crate::channel::{close_message, send, Outbound};
use crate::connection_registry::{
    channels_of, ids_of, lemma_list_with_ids, lemma_list_without_ids, lemma_registered_wf,
    lemma_unregistered_wf, list_without, registered, registry_wf, unregistered,
    Connection, ConnectionRegistry,
};
use crate::id_list::lemma_push_contains;
use crate::models::{CreateRoomForm, Point, PointView, Room};
use crate::room_registry::{
    lemma_created_wf, lemma_deleted_wf, lemma_entered_wf, lemma_left_wf, lemma_with_shown_wf,
    RegistryView, RoomRegistry,
};
use crate::vote::{is_numeral, numeral_value, Estimate};
use crate::vote_store::{cleared, VoteError, VoteStore};
use vstd::prelude::*;

verus! {

/// What the hub holds.
#[verifier::ext_equal]
pub struct HubView {
    /// The vote store.
    pub votes: Map<usize, PointView>,
    /// The room registry.
    pub registry: RegistryView,
    /// The connection registry.
    pub connections: Map<usize, Seq<Connection>>,
    /// The id that the next participant gets.
    pub next_user_id: usize,
}

impl HubView {
    /// No room and nobody; the first room gets the id `first_room_id` and
    /// the first participant the id `first_user_id`.
    pub open spec fn starting_at(first_room_id: usize, first_user_id: usize) -> HubView {
        HubView {
            votes: Map::empty(),
            registry: RegistryView::starting_at(first_room_id),
            connections: Map::empty(),
            next_user_id: first_user_id,
        }
    }

    /// No room and nobody; the first room and the first participant get the
    /// id 1.
    pub open spec fn empty() -> HubView {
        HubView::starting_at(1, 1)
    }

    /// The participant has an entry in the vote store.
    pub open spec fn in_vote_store(self, id: usize) -> bool {
        self.votes.contains_key(id)
    }

    /// The participant is listed as a member of the room.
    pub open spec fn in_room(self, room_id: usize, id: usize) -> bool {
        self.registry.members_of(room_id).contains(id)
    }

    /// The participant has a queue registered for the room.
    pub open spec fn connected_to(self, room_id: usize, id: usize) -> bool {
        ids_of(channels_of(self.connections, room_id)).contains(id)
    }

    /// The three stores agree: who has a vote is in a room, and the queues of
    /// a room are those of its members, in the same order. No participant
    /// has an id at or beyond the next one.
    pub open spec fn stores_agree(self) -> bool {
        &&& forall|p: usize| self.votes.contains_key(p) <==> self.registry.room_of.contains_key(p)
        &&& forall|r: usize|
            #![trigger channels_of(self.connections, r)]
            #![trigger self.registry.members_of(r)]
            ids_of(channels_of(self.connections, r)) == self.registry.members_of(r)
        &&& forall|p: usize| self.votes.contains_key(p) ==> p < self.next_user_id
    }

    /// What holds of every hub.
    pub open spec fn wf(self) -> bool {
        &&& self.registry.wf()
        &&& registry_wf(self.connections)
        &&& self.stores_agree()
    }

    /// Whether a join to this room succeeds.
    pub open spec fn can_join(self, room_id: usize) -> bool {
        self.registry.rooms.contains_key(room_id) && self.next_user_id < usize::MAX
    }

    /// The hub after a join: the new participant has the next id, a vote of
    /// zero, and stands behind the others in the room.
    pub open spec fn joined(self, room_id: usize, name: Seq<char>, tx: Outbound) -> HubView {
        let id = self.next_user_id;
        HubView {
            votes: self.votes.insert(id, PointView { point: Estimate::zero(), name }),
            registry: self.registry.entered(room_id, id),
            connections: registered(self.connections, room_id, Connection { id, tx }),
            next_user_id: (id + 1) as usize,
        }
    }

    /// The hub without a participant.
    pub open spec fn left(self, id: usize) -> HubView {
        HubView {
            votes: self.votes.remove(id),
            registry: self.registry.left(id),
            connections: if self.registry.room_of.contains_key(id) {
                unregistered(self.connections, self.registry.room_of[id], id)
            } else {
                self.connections
            },
            next_user_id: self.next_user_id,
        }
    }

    /// The hub after a participant has voted.
    pub open spec fn voted(self, id: usize, vote: Estimate) -> HubView {
        if self.votes.contains_key(id) {
            HubView { votes: self.votes.insert(id, self.votes[id].with_vote(vote)), ..self }
        } else {
            self
        }
    }

    /// The hub after the request to show the votes of a room is set.
    pub open spec fn revealed(self, room_id: usize, shown: bool) -> HubView {
        HubView { registry: self.registry.with_shown(room_id, shown), ..self }
    }

    /// The hub after every vote of a room is taken back to zero.
    pub open spec fn cleared_room(self, room_id: usize) -> HubView {
        HubView { votes: cleared(self.votes, self.registry.members_of(room_id)), ..self }
    }

    /// The hub with one more room.
    pub open spec fn room_created(self, name: Seq<char>) -> HubView {
        HubView { registry: self.registry.created(name), ..self }
    }

    /// The hub without a room and without those who were in it.
    pub open spec fn room_deleted(self, room_id: usize) -> HubView {
        HubView {
            votes: Map::new(
                |p: usize|
                    self.votes.contains_key(p) && !self.registry.members_of(room_id).contains(p),
                |p: usize| self.votes[p],
            ),
            registry: self.registry.deleted(room_id),
            connections: self.connections.remove(room_id),
            next_user_id: self.next_user_id,
        }
    }
}

/// In a hub, a participant is in all three stores or in none, and in one
/// room at most.
pub proof fn lemma_all_or_nothing(hub: HubView, id: usize)
    requires
        hub.wf(),
    ensures
        hub.in_vote_store(id) <==> exists|r: usize| hub.in_room(r, id),
        forall|r: usize| hub.in_room(r, id) <==> hub.connected_to(r, id),
        forall|r: usize, q: usize| hub.in_room(r, id) && hub.in_room(q, id) ==> r == q,
{
    let registry = hub.registry;
    if hub.in_vote_store(id) {
        assert(registry.room_of.contains_key(id));
        assert(hub.in_room(registry.room_of[id], id));
    }
    assert forall|r: usize| hub.in_room(r, id) implies registry.room_of.contains_key(id)
        && registry.room_of[id] == r by {
        assert(registry.members[r].contains(id));
    }
    assert forall|r: usize| hub.in_room(r, id) <==> hub.connected_to(r, id) by {
        assert(ids_of(channels_of(hub.connections, r)) == registry.members_of(r));
    }
}

/// A join that succeeds keeps the hub well formed, and puts the new
/// participant into all three stores, for that room and for no other.
pub proof fn lemma_joined(hub: HubView, room_id: usize, name: Seq<char>, tx: Outbound)
    requires
        hub.wf(),
        hub.can_join(room_id),
    ensures
        hub.joined(room_id, name, tx).wf(),
        !hub.in_vote_store(hub.next_user_id),
        hub.joined(room_id, name, tx).in_vote_store(hub.next_user_id),
        forall|r: usize|
            hub.joined(room_id, name, tx).in_room(r, hub.next_user_id) <==> r == room_id,
        forall|r: usize|
            hub.joined(room_id, name, tx).connected_to(r, hub.next_user_id) <==> r == room_id,
{
    let id = hub.next_user_id;
    let after = hub.joined(room_id, name, tx);
    assert(!hub.votes.contains_key(id));
    assert(!hub.registry.room_of.contains_key(id));
    lemma_entered_wf(hub.registry, room_id, id);
    lemma_registered_wf(hub.connections, room_id, Connection { id, tx });
    let list = channels_of(hub.connections, room_id);
    assert(ids_of(list) == hub.registry.members_of(room_id));
    assert(!ids_of(list).contains(id)) by {
        if hub.registry.members_of(room_id).contains(id) {
            assert(hub.registry.members[room_id].contains(id));
        }
    }
    assert(ids_of(list).no_duplicates());
    lemma_list_with_ids(list, Connection { id, tx });
    assert forall|r: usize|
        ids_of(#[trigger] channels_of(after.connections, r)) == after.registry.members_of(r) by {
        if r != room_id {
            assert(channels_of(after.connections, r) == channels_of(hub.connections, r));
            assert(after.registry.members_of(r) == hub.registry.members_of(r));
        }
    }
    assert forall|p: usize|
        after.votes.contains_key(p) <==> after.registry.room_of.contains_key(p) by {
        assert(hub.votes.contains_key(p) <==> hub.registry.room_of.contains_key(p));
    }
    assert(after.stores_agree());
    lemma_push_contains(hub.registry.members_of(room_id), id);
    lemma_all_or_nothing(after, id);
    assert(after.in_room(room_id, id));
}

/// A leave keeps the hub well formed, and the participant is then in none of
/// the three stores.
pub proof fn lemma_left(hub: HubView, id: usize)
    requires
        hub.wf(),
    ensures
        hub.left(id).wf(),
        !hub.left(id).in_vote_store(id),
        forall|r: usize| !hub.left(id).in_room(r, id),
        forall|r: usize| !hub.left(id).connected_to(r, id),
{
    let after = hub.left(id);
    lemma_left_wf(hub.registry, id);
    if hub.registry.room_of.contains_key(id) {
        let room_id = hub.registry.room_of[id];
        let list = channels_of(hub.connections, room_id);
        lemma_unregistered_wf(hub.connections, room_id, id);
        lemma_list_without_ids(list, id);
        assert(ids_of(list) == hub.registry.members_of(room_id));
        assert forall|r: usize|
            ids_of(#[trigger] channels_of(after.connections, r)) == after.registry.members_of(
                r,
            ) by {
            if r != room_id {
                assert(channels_of(after.connections, r) == channels_of(hub.connections, r));
                assert(after.registry.members_of(r) == hub.registry.members_of(r));
            } else {
                let rest = list_without(list, id);
                if rest.len() == 0 {
                    assert(ids_of(rest) =~= Seq::<usize>::empty());
                    assert(ids_of(channels_of(after.connections, r)) =~= Seq::<usize>::empty());
                }
            }
        }
    } else {
        assert(!hub.votes.contains_key(id));
        assert(after.votes =~= hub.votes);
        assert(after.registry == hub.registry);
        assert forall|r: usize|
            ids_of(#[trigger] channels_of(after.connections, r)) == after.registry.members_of(
                r,
            ) by {
            assert(ids_of(channels_of(hub.connections, r)) == hub.registry.members_of(r));
        }
    }
    assert forall|p: usize|
        after.votes.contains_key(p) <==> after.registry.room_of.contains_key(p) by {
        assert(hub.votes.contains_key(p) <==> hub.registry.room_of.contains_key(p));
    }
    assert(after.stores_agree());
    assert forall|r: usize| !after.connected_to(r, id) by {
        assert(ids_of(channels_of(after.connections, r)) == after.registry.members_of(r));
    }
}

/// A vote keeps the hub well formed and changes nobody's membership.
pub proof fn lemma_voted(hub: HubView, id: usize, vote: Estimate)
    requires
        hub.wf(),
    ensures
        hub.voted(id, vote).wf(),
{
    let after = hub.voted(id, vote);
    assert forall|p: usize|
        after.votes.contains_key(p) <==> after.registry.room_of.contains_key(p) by {
        assert(hub.votes.contains_key(p) <==> hub.registry.room_of.contains_key(p));
    }
    assert forall|r: usize|
        ids_of(#[trigger] channels_of(after.connections, r)) == after.registry.members_of(r) by {
        assert(ids_of(channels_of(hub.connections, r)) == hub.registry.members_of(r));
    }
}

/// Setting the request to show the votes keeps the hub well formed.
pub proof fn lemma_revealed(hub: HubView, room_id: usize, shown: bool)
    requires
        hub.wf(),
    ensures
        hub.revealed(room_id, shown).wf(),
        hub.revealed(room_id, shown).registry.members == hub.registry.members,
{
    let after = hub.revealed(room_id, shown);
    lemma_with_shown_wf(hub.registry, room_id, shown);
    assert forall|p: usize|
        after.votes.contains_key(p) <==> after.registry.room_of.contains_key(p) by {
        assert(hub.votes.contains_key(p) <==> hub.registry.room_of.contains_key(p));
    }
    assert forall|r: usize|
        ids_of(#[trigger] channels_of(after.connections, r)) == after.registry.members_of(r) by {
        assert(ids_of(channels_of(hub.connections, r)) == hub.registry.members_of(r));
        assert(after.registry.members_of(r) == hub.registry.members_of(r));
    }
}

/// Clearing the votes of a room keeps the hub well formed.
pub proof fn lemma_cleared_room(hub: HubView, room_id: usize)
    requires
        hub.wf(),
    ensures
        hub.cleared_room(room_id).wf(),
{
    let after = hub.cleared_room(room_id);
    assert forall|p: usize|
        after.votes.contains_key(p) <==> after.registry.room_of.contains_key(p) by {
        assert(hub.votes.contains_key(p) <==> hub.registry.room_of.contains_key(p));
    }
    assert forall|r: usize|
        ids_of(#[trigger] channels_of(after.connections, r)) == after.registry.members_of(r) by {
        assert(ids_of(channels_of(hub.connections, r)) == hub.registry.members_of(r));
    }
}

/// A new room keeps the hub well formed.
pub proof fn lemma_room_created(hub: HubView, name: Seq<char>)
    requires
        hub.wf(),
        hub.registry.next_id < usize::MAX,
    ensures
        hub.room_created(name).wf(),
{
    let after = hub.room_created(name);
    let id = hub.registry.next_id;
    lemma_created_wf(hub.registry, name);
    assert(!hub.registry.rooms.contains_key(id)) by {
        if hub.registry.rooms.contains_key(id) {
            assert(hub.registry.rooms[id].room_id < hub.registry.next_id);
        }
    }
    assert forall|p: usize|
        after.votes.contains_key(p) <==> after.registry.room_of.contains_key(p) by {
        assert(hub.votes.contains_key(p) <==> hub.registry.room_of.contains_key(p));
    }
    assert forall|r: usize|
        ids_of(#[trigger] channels_of(after.connections, r)) == after.registry.members_of(r) by {
        assert(ids_of(channels_of(hub.connections, r)) == hub.registry.members_of(r));
        if r == id {
            assert(hub.registry.members_of(r) =~= Seq::<usize>::empty());
            assert(after.registry.members_of(r) =~= Seq::<usize>::empty());
        } else {
            assert(after.registry.members_of(r) == hub.registry.members_of(r));
        }
    }
}

/// Deleting a room keeps the hub well formed, and those who were in the
/// room are then in none of the three stores.
pub proof fn lemma_room_deleted(hub: HubView, room_id: usize)
    requires
        hub.wf(),
    ensures
        hub.room_deleted(room_id).wf(),
        forall|p: usize|
            hub.in_room(room_id, p) ==> !hub.room_deleted(room_id).in_vote_store(p) && forall|
                r: usize,
            |
                !hub.room_deleted(room_id).in_room(r, p) && !hub.room_deleted(
                    room_id,
                ).connected_to(r, p),
{
    let after = hub.room_deleted(room_id);
    lemma_deleted_wf(hub.registry, room_id);
    assert forall|r: usize| after.connections.contains_key(r) implies (
    #[trigger] after.connections[r]).len() > 0 && ids_of(after.connections[r]).no_duplicates() by {
        assert(hub.connections[r].len() > 0);
    }
    assert forall|p: usize|
        after.votes.contains_key(p) <==> after.registry.room_of.contains_key(p) by {
        assert(hub.votes.contains_key(p) <==> hub.registry.room_of.contains_key(p));
        if hub.registry.room_of.contains_key(p) {
            if hub.registry.room_of[p] == room_id {
                assert(hub.registry.members[room_id].contains(p));
            }
            if hub.registry.members_of(room_id).contains(p) {
                assert(hub.registry.members[room_id].contains(p));
            }
        }
    }
    assert forall|r: usize|
        ids_of(#[trigger] channels_of(after.connections, r)) == after.registry.members_of(r) by {
        assert(ids_of(channels_of(hub.connections, r)) == hub.registry.members_of(r));
        if r == room_id {
            assert(ids_of(channels_of(after.connections, r)) =~= Seq::<usize>::empty());
        } else {
            assert(after.registry.members_of(r) == hub.registry.members_of(r));
        }
    }
    assert(after.stores_agree());
    assert forall|p: usize| hub.in_room(room_id, p) implies !after.in_vote_store(p) && forall|
        r: usize,
    |
        !after.in_room(r, p) && !after.connected_to(r, p) by {
        lemma_all_or_nothing(after, p);
    }
}

/// Why a join did not succeed.
#[derive(Clone, Copy, Debug, PartialEq, Eq, Structural)]
pub enum JoinError {
    /// There is no room with this id.
    UnknownRoom,
    /// Every participant id is used up.
    Exhausted,
}

/// The rooms with their participants, votes and outbound queues.
pub struct Hub {
    votes: VoteStore,
    rooms: RoomRegistry,
    connections: ConnectionRegistry,
    next_user_id: usize,
}

impl View for Hub {
    type V = HubView;

    closed spec fn view(&self) -> HubView {
        HubView {
            votes: self.votes@,
            registry: self.rooms@,
            connections: self.connections@,
            next_user_id: self.next_user_id,
        }
    }
}

impl Hub {
    /// What holds of every hub.
    pub open spec fn wf(&self) -> bool {
        self@.wf()
    }

    /// A hub without rooms. The first room and the first participant get the
    /// id 1.
    pub fn new() -> (hub: Hub)
        ensures
            hub.wf(),
            hub@ == HubView::empty(),
    {
        Hub::starting_at(1, 1)
    }

    /// A hub without rooms, in which the first room gets the id
    /// `first_room_id` and the first participant the id `first_user_id`.
    pub fn starting_at(first_room_id: usize, first_user_id: usize) -> (hub: Hub)
        ensures
            hub.wf(),
            hub@ == HubView::starting_at(first_room_id, first_user_id),
    {
        let hub = Hub {
            votes: VoteStore::new(),
            rooms: RoomRegistry::starting_at(first_room_id),
            connections: ConnectionRegistry::new(),
            next_user_id: first_user_id,
        };
        assert(hub@ =~= HubView::starting_at(first_room_id, first_user_id));
        assert(hub@.wf()) by {
            assert forall|r: usize|
                ids_of(#[trigger] channels_of(hub@.connections, r)) == hub@.registry.members_of(
                    r,
                ) by {
                assert(ids_of(channels_of(hub@.connections, r)) =~= Seq::<usize>::empty());
            }
        }
        hub
    }

    /// Creates a room under the name of the form and gives its id, which no
    /// room had before. Only when the ids are used up is no room created.
    pub fn create_room(&mut self, form: CreateRoomForm) -> (created: Option<usize>)
        requires
            old(self).wf(),
        ensures
            final(self).wf(),
            old(self)@.registry.next_id < usize::MAX ==> created == Some(
                old(self)@.registry.next_id,
            ) && final(self)@ == old(self)@.room_created(form.name@),
            old(self)@.registry.next_id == usize::MAX ==> created is None && final(self)@ == old(
                self,
            )@,
    {
        let created = self.rooms.create(form.name);
        proof {
            if created is Some {
                assert(self@ =~= old(self)@.room_created(form.name@));
                lemma_room_created(old(self)@, form.name@);
            } else {
                assert(self@ =~= old(self)@);
            }
        }
        created
    }

    /// Deletes a room, takes those who were in it out of every store, and
    /// queues for each of them the message that closes the connection. Gives
    /// their ids, in the order in which they had entered.
    pub fn delete_room(&mut self, room_id: usize) -> (orphans: Vec<usize>)
        requires
            old(self).wf(),
        ensures
            final(self).wf(),
            final(self)@ == old(self)@.room_deleted(room_id),
            orphans@ == old(self)@.registry.members_of(room_id),
    {
        let channels = self.connections.channels_for(room_id);
        let orphans = self.rooms.delete(room_id);
        self.connections.drop_room(room_id);
        let ghost start = self.votes@;
        let mut i: usize = 0;
        while i < orphans.len()
            invariant
                0 <= i <= orphans.len(),
                self.votes@ =~= Map::new(
                    |p: usize| start.contains_key(p) && !orphans@.take(i as int).contains(p),
                    |p: usize| start[p],
                ),
                self.rooms@ == old(self).rooms@.deleted(room_id),
                self.connections@ == old(self).connections@.remove(room_id),
                self.next_user_id == old(self).next_user_id,
            decreases orphans.len() - i,
        {
            let participant: usize = orphans[i];
            self.votes.remove(participant);
            proof {
                let done = orphans@.take(i as int);
                assert(orphans@.take(i + 1) =~= done.push(participant));
                lemma_push_contains(done, participant);
            }
            i = i + 1;
        }
        proof {
            assert(orphans@.take(orphans.len() as int) =~= orphans@);
            assert(self@ =~= old(self)@.room_deleted(room_id));
            lemma_room_deleted(old(self)@, room_id);
        }
        let mut k: usize = 0;
        while k < channels.len()
            invariant
                0 <= k <= channels.len(),
            decreases channels.len() - k,
        {
            send(&channels[k].tx, close_message());
            k = k + 1;
        }
        orphans
    }

    /// The room with this id.
    pub fn room(&self, room_id: usize) -> (found: Option<&Room>)
        ensures
            found is Some <==> self@.registry.rooms.contains_key(room_id),
            found matches Some(room) ==> room@ == self@.registry.rooms[room_id],
    {
        self.rooms.get(room_id)
    }

    /// The rooms in the order in which they were created.
    pub fn rooms(&self) -> (rooms: Vec<Room>)
        requires
            self.wf(),
        ensures
            rooms@.len() == self@.registry.order.len(),
            forall|i: int|
                0 <= i < rooms@.len() ==> (#[trigger] rooms@[i])@
                    == self@.registry.rooms[self@.registry.order[i]],
    {
        self.rooms.list()
    }

    /// Those who are in a room, in the order in which they entered.
    pub fn members(&self, room_id: usize) -> (list: Vec<usize>)
        ensures
            list@ == self@.registry.members_of(room_id),
    {
        self.rooms.members(room_id)
    }

    /// The room that a participant is in.
    pub fn room_of(&self, id: usize) -> (room: Option<usize>)
        ensures
            room is Some <==> self@.registry.room_of.contains_key(id),
            room matches Some(room_id) ==> room_id == self@.registry.room_of[id],
    {
        self.rooms.room_of(id)
    }

    /// The name and vote of a participant.
    pub fn point(&self, id: usize) -> (found: Option<&Point>)
        ensures
            found is Some <==> self@.votes.contains_key(id),
            found matches Some(point) ==> point@ == self@.votes[id],
    {
        self.votes.get(id)
    }

    /// The queues of a room as they are now, each with its participant.
    pub fn channels_for(&self, room_id: usize) -> (snapshot: Vec<Connection>)
        ensures
            snapshot@ == channels_of(self@.connections, room_id),
    {
        self.connections.channels_for(room_id)
    }

    /// Lets a new participant into a room: gives them the next id and enters
    /// them into the vote store, the members of the room and the connection
    /// registry. Where the join fails, nothing has changed.
    pub fn join(&mut self, room_id: usize, name: String, tx: Outbound) -> (joined: Result<
        usize,
        JoinError,
    >)
        requires
            old(self).wf(),
        ensures
            final(self).wf(),
            !old(self)@.registry.rooms.contains_key(room_id) ==> joined == Err::<usize, JoinError>(
                JoinError::UnknownRoom,
            ),
            old(self)@.registry.rooms.contains_key(room_id) && old(self)@.next_user_id
                == usize::MAX ==> joined == Err::<usize, JoinError>(JoinError::Exhausted),
            old(self)@.can_join(room_id) ==> joined == Ok::<usize, JoinError>(
                old(self)@.next_user_id,
            ),
            joined is Ok ==> final(self)@ == old(self)@.joined(room_id, name@, tx),
            joined is Err ==> final(self)@ == old(self)@,
    {
        let id: usize = self.next_user_id;
        if id == usize::MAX {
            return if self.rooms.contains(room_id) {
                Err(JoinError::Exhausted)
            } else {
                Err(JoinError::UnknownRoom)
            };
        }
        assert(!self@.votes.contains_key(id));
        assert(!self@.registry.room_of.contains_key(id));
        self.votes.insert(id, name);
        if !self.rooms.enter(room_id, id) {
            self.votes.remove(id);
            assert(self@ =~= old(self)@);
            return Err(JoinError::UnknownRoom);
        }
        self.connections.register(room_id, id, tx);
        self.next_user_id = id + 1;
        proof {
            assert(self@ =~= old(self)@.joined(room_id, name@, tx));
            lemma_joined(old(self)@, room_id, name@, tx);
        }
        Ok(id)
    }

    /// Takes a participant out of every store, and gives the room that they
    /// were in.
    pub fn leave(&mut self, id: usize) -> (room: Option<usize>)
        requires
            old(self).wf(),
        ensures
            final(self).wf(),
            final(self)@ == old(self)@.left(id),
            room is Some <==> old(self)@.registry.room_of.contains_key(id),
            room matches Some(room_id) ==> room_id == old(self)@.registry.room_of[id],
    {
        let room = self.rooms.leave(id);
        match room {
            Some(room_id) => {
                self.connections.unregister(room_id, id);
            },
            None => {},
        }
        self.votes.remove(id);
        proof {
            assert(self@ =~= old(self)@.left(id));
            lemma_left(old(self)@, id);
        }
        room
    }

    /// Sets a participant's vote from text. A text that is no numeral
    /// changes nothing.
    pub fn set_vote(&mut self, id: usize, raw: &str) -> (outcome: Result<(), VoteError>)
        requires
            old(self).wf(),
        ensures
            final(self).wf(),
            !is_numeral(raw@) ==> outcome == Err::<(), VoteError>(VoteError::InvalidVote),
            is_numeral(raw@) && !old(self)@.votes.contains_key(id) ==> outcome == Err::<
                (),
                VoteError,
            >(VoteError::UnknownParticipant),
            is_numeral(raw@) && old(self)@.votes.contains_key(id) ==> outcome is Ok,
            outcome is Ok ==> final(self)@ == old(self)@.voted(id, numeral_value(raw@)),
            outcome is Err ==> final(self)@ == old(self)@,
    {
        let outcome = self.votes.set_vote(id, raw);
        proof {
            if outcome is Ok {
                assert(self@ =~= old(self)@.voted(id, numeral_value(raw@)));
                lemma_voted(old(self)@, id, numeral_value(raw@));
            } else {
                assert(self@ =~= old(self)@);
            }
        }
        outcome
    }

    /// Sets the request to show the votes of a room, and tells whether there
    /// is such a room.
    pub fn set_reveal_shown(&mut self, room_id: usize, shown: bool) -> (found: bool)
        requires
            old(self).wf(),
        ensures
            final(self).wf(),
            found == old(self)@.registry.rooms.contains_key(room_id),
            final(self)@ == old(self)@.revealed(room_id, shown),
    {
        let found = self.rooms.set_reveal_shown(room_id, shown);
        proof {
            assert(self@ =~= old(self)@.revealed(room_id, shown));
            lemma_revealed(old(self)@, room_id, shown);
        }
        found
    }

    /// Takes every vote of a room back to zero. Nobody leaves the room.
    pub fn clear_votes(&mut self, room_id: usize)
        requires
            old(self).wf(),
        ensures
            final(self).wf(),
            final(self)@ == old(self)@.cleared_room(room_id),
    {
        let members = self.rooms.members(room_id);
        self.votes.clear_all(&members);
        proof {
            assert(self@ =~= old(self)@.cleared_room(room_id));
            lemma_cleared_room(old(self)@, room_id);
        }
    }
}

} // verus!
