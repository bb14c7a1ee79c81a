//! The room registry: the rooms by id, and who is in which room.

use crate::id_list::{
    lemma_push_contains, lemma_push_no_duplicates, lemma_without_contains,
    lemma_without_no_duplicates, take_out, without,
};
use crate::models::{Room, RoomView};
use std::collections::HashMap;
use vstd::prelude::*;

verus! {

broadcast use vstd::std_specs::hash::group_hash_axioms;

/// What the registry holds.
#[verifier::ext_equal]
pub struct RegistryView {
    /// The rooms by id.
    pub rooms: Map<usize, RoomView>,
    /// The participants of each room, in the order in which they entered.
    pub members: Map<usize, Seq<usize>>,
    /// The room of each participant who is in one.
    pub room_of: Map<usize, usize>,
    /// The ids of the rooms, in the order in which they were created.
    pub order: Seq<usize>,
    /// The id that the next room gets.
    pub next_id: usize,
}

impl RegistryView {
    /// No room yet; the first one gets the id `first_id`.
    pub open spec fn starting_at(first_id: usize) -> RegistryView {
        RegistryView {
            rooms: Map::empty(),
            members: Map::empty(),
            room_of: Map::empty(),
            order: Seq::empty(),
            next_id: first_id,
        }
    }

    /// No room yet; the first one gets the id 1.
    pub open spec fn empty() -> RegistryView {
        RegistryView::starting_at(1)
    }

    /// The participants of a room; nobody where there is no such room.
    pub open spec fn members_of(self, room_id: usize) -> Seq<usize> {
        if self.members.contains_key(room_id) {
            self.members[room_id]
        } else {
            Seq::empty()
        }
    }

    /// Every room has its list of members and its place in the order of
    /// creation, under an id that is its own and below the next one.
    pub open spec fn rooms_wf(self) -> bool {
        &&& forall|r: usize| self.rooms.contains_key(r) <==> self.members.contains_key(r)
        &&& forall|r: usize| self.rooms.contains_key(r) <==> self.order.contains(r)
        &&& self.order.no_duplicates()
        &&& forall|r: usize|
            self.rooms.contains_key(r) ==> (#[trigger] self.rooms[r]).room_id == r && r
                < self.next_id
    }

    /// Nobody is listed twice, and the two sides of the membership agree: a
    /// participant is listed in a room exactly when that room is theirs.
    pub open spec fn members_wf(self) -> bool {
        &&& forall|r: usize|
            self.members.contains_key(r) ==> (#[trigger] self.members[r]).no_duplicates()
        &&& forall|p: usize| #[trigger]
            self.room_of.contains_key(p) ==> self.members.contains_key(self.room_of[p])
                && self.members[self.room_of[p]].contains(p)
        &&& forall|r: usize, p: usize|
            self.members.contains_key(r) && #[trigger] self.members[r].contains(p)
                ==> self.room_of.contains_key(p) && self.room_of[p] == r
    }

    /// What holds of every registry.
    pub open spec fn wf(self) -> bool {
        self.rooms_wf() && self.members_wf()
    }

    /// The registry with one more room, empty and with its votes hidden.
    pub open spec fn created(self, name: Seq<char>) -> RegistryView {
        let id = self.next_id;
        RegistryView {
            rooms: self.rooms.insert(id, RoomView { room_id: id, name, board_shown: false }),
            members: self.members.insert(id, Seq::empty()),
            room_of: self.room_of,
            order: self.order.push(id),
            next_id: (id + 1) as usize,
        }
    }

    /// The registry without a room and without the membership of those who
    /// were in it.
    pub open spec fn deleted(self, room_id: usize) -> RegistryView {
        RegistryView {
            rooms: self.rooms.remove(room_id),
            members: self.members.remove(room_id),
            room_of: Map::new(
                |p: usize| self.room_of.contains_key(p) && self.room_of[p] != room_id,
                |p: usize| self.room_of[p],
            ),
            order: without(self.order, room_id),
            next_id: self.next_id,
        }
    }

    /// The registry with the request to show the votes of a room set.
    pub open spec fn with_shown(self, room_id: usize, shown: bool) -> RegistryView {
        if self.rooms.contains_key(room_id) {
            RegistryView {
                rooms: self.rooms.insert(room_id, self.rooms[room_id].with_shown(shown)),
                ..self
            }
        } else {
            self
        }
    }

    /// Whether a participant may enter a room: the room is there and the
    /// participant is in no room.
    pub open spec fn admits(self, room_id: usize, participant: usize) -> bool {
        self.rooms.contains_key(room_id) && !self.room_of.contains_key(participant)
    }

    /// The registry with one more participant in a room, behind those who
    /// are in it.
    pub open spec fn entered(self, room_id: usize, participant: usize) -> RegistryView {
        RegistryView {
            members: self.members.insert(room_id, self.members_of(room_id).push(participant)),
            room_of: self.room_of.insert(participant, room_id),
            ..self
        }
    }

    /// The registry without a participant.
    pub open spec fn left(self, participant: usize) -> RegistryView {
        if self.room_of.contains_key(participant) {
            let room_id = self.room_of[participant];
            RegistryView {
                members: self.members.insert(
                    room_id,
                    without(self.members_of(room_id), participant),
                ),
                room_of: self.room_of.remove(participant),
                ..self
            }
        } else {
            self
        }
    }
}

/// A new room keeps the registry well formed.
pub proof fn lemma_created_wf(v: RegistryView, name: Seq<char>)
    requires
        v.wf(),
        v.next_id < usize::MAX,
    ensures
        v.created(name).wf(),
{
    let w = v.created(name);
    let id = v.next_id;
    assert(!v.rooms.contains_key(id)) by {
        if v.rooms.contains_key(id) {
            assert(v.rooms[id].room_id < v.next_id);
        }
    }
    assert(!v.order.contains(id));
    lemma_push_contains(v.order, id);
    lemma_push_no_duplicates(v.order, id);
    assert forall|r: usize, p: usize|
        w.members.contains_key(r) && #[trigger] w.members[r].contains(p) implies w.room_of.contains_key(
        p,
    ) && w.room_of[p] == r by {
        if r != id {
            assert(v.members[r].contains(p));
        }
    }
    assert forall|p: usize| #[trigger] w.room_of.contains_key(p) implies w.members.contains_key(
        w.room_of[p],
    ) && w.members[w.room_of[p]].contains(p) by {
        assert(v.room_of.contains_key(p));
    }
    assert forall|r: usize| w.rooms.contains_key(r) <==> w.order.contains(r) by {
        assert(v.rooms.contains_key(r) <==> v.order.contains(r));
    }
    assert forall|r: usize| w.rooms.contains_key(r) implies (#[trigger] w.rooms[r]).room_id == r
        && r < w.next_id by {
        if r != id {
            assert(v.rooms[r].room_id == r);
        }
    }
}

/// Deleting a room keeps the registry well formed.
pub proof fn lemma_deleted_wf(v: RegistryView, room_id: usize)
    requires
        v.wf(),
    ensures
        v.deleted(room_id).wf(),
{
    let w = v.deleted(room_id);
    lemma_without_contains(v.order, room_id);
    lemma_without_no_duplicates(v.order, room_id);
    assert forall|p: usize| #[trigger] w.room_of.contains_key(p) implies w.members.contains_key(
        w.room_of[p],
    ) && w.members[w.room_of[p]].contains(p) by {
        assert(v.room_of.contains_key(p));
    }
    assert forall|r: usize, p: usize|
        w.members.contains_key(r) && #[trigger] w.members[r].contains(p) implies w.room_of.contains_key(
        p,
    ) && w.room_of[p] == r by {
        assert(v.members[r].contains(p));
    }
}

/// Setting the request to show the votes keeps the registry well formed.
pub proof fn lemma_with_shown_wf(v: RegistryView, room_id: usize, shown: bool)
    requires
        v.wf(),
    ensures
        v.with_shown(room_id, shown).wf(),
{
    let w = v.with_shown(room_id, shown);
    if v.rooms.contains_key(room_id) {
        assert forall|r: usize| w.rooms.contains_key(r) implies (#[trigger] w.rooms[r]).room_id
            == r && r < w.next_id by {
            if r != room_id {
                assert(v.rooms[r].room_id == r);
            } else {
                assert(v.rooms[room_id].room_id == r);
            }
        }
    }
}

/// A participant who enters a room that admits them keeps the registry well
/// formed.
pub proof fn lemma_entered_wf(v: RegistryView, room_id: usize, participant: usize)
    requires
        v.wf(),
        v.admits(room_id, participant),
    ensures
        v.entered(room_id, participant).wf(),
{
    let w = v.entered(room_id, participant);
    let before = v.members[room_id];
    assert(!before.contains(participant));
    lemma_push_contains(before, participant);
    lemma_push_no_duplicates(before, participant);
    assert forall|r: usize| w.members.contains_key(r) implies (#[trigger] w.members[r]).no_duplicates() by {
        if r != room_id {
            assert(v.members[r].no_duplicates());
        }
    }
    assert forall|p: usize| #[trigger] w.room_of.contains_key(p) implies w.members.contains_key(
        w.room_of[p],
    ) && w.members[w.room_of[p]].contains(p) by {
        if p != participant {
            assert(v.room_of.contains_key(p));
            assert(v.members[v.room_of[p]].contains(p));
        }
    }
    assert forall|r: usize, p: usize|
        w.members.contains_key(r) && #[trigger] w.members[r].contains(p) implies w.room_of.contains_key(
        p,
    ) && w.room_of[p] == r by {
        if r != room_id {
            assert(v.members[r].contains(p));
        } else if p != participant {
            assert(v.members[r].contains(p));
        }
    }
}

/// A participant who leaves keeps the registry well formed, and is then in
/// no room.
pub proof fn lemma_left_wf(v: RegistryView, participant: usize)
    requires
        v.wf(),
    ensures
        v.left(participant).wf(),
        !v.left(participant).room_of.contains_key(participant),
        forall|r: usize| !(#[trigger] v.left(participant).members_of(r)).contains(participant),
{
    let w = v.left(participant);
    if v.room_of.contains_key(participant) {
        let room_id = v.room_of[participant];
        let before = v.members[room_id];
        lemma_without_contains(before, participant);
        lemma_without_no_duplicates(before, participant);
        assert forall|r: usize| w.members.contains_key(r) implies (#[trigger] w.members[r]).no_duplicates() by {
            if r != room_id {
                assert(v.members[r].no_duplicates());
            }
        }
        assert forall|p: usize| #[trigger] w.room_of.contains_key(p) implies w.members.contains_key(
            w.room_of[p],
        ) && w.members[w.room_of[p]].contains(p) by {
            assert(v.room_of.contains_key(p));
            assert(v.members[v.room_of[p]].contains(p));
        }
        assert forall|r: usize, p: usize|
            w.members.contains_key(r) && #[trigger] w.members[r].contains(p) implies w.room_of.contains_key(
            p,
        ) && w.room_of[p] == r by {
            assert(v.members[r].contains(p));
        }
        assert forall|r: usize| !(#[trigger] w.members_of(r)).contains(participant) by {
            if w.members.contains_key(r) && r != room_id {
                if v.members[r].contains(participant) {
                    assert(v.room_of[participant] == r);
                }
            }
        }
    } else {
        assert forall|r: usize| !(#[trigger] w.members_of(r)).contains(participant) by {
            if v.members.contains_key(r) && v.members[r].contains(participant) {
                assert(v.room_of.contains_key(participant));
            }
        }
    }
}

/// The rooms and their membership.
pub struct RoomRegistry {
    rooms: HashMap<usize, Room>,
    members: HashMap<usize, Vec<usize>>,
    room_of: HashMap<usize, usize>,
    order: Vec<usize>,
    next_id: usize,
}

impl View for RoomRegistry {
    type V = RegistryView;

    closed spec fn view(&self) -> RegistryView {
        RegistryView {
            rooms: Map::new(|r: usize| self.rooms@.contains_key(r), |r: usize| self.rooms@[r]@),
            members: Map::new(
                |r: usize| self.members@.contains_key(r),
                |r: usize| self.members@[r]@,
            ),
            room_of: self.room_of@,
            order: self.order@,
            next_id: self.next_id,
        }
    }
}

impl RoomRegistry {
    /// What holds of every registry.
    pub open spec fn wf(&self) -> bool {
        self@.wf()
    }

    /// A registry without rooms. The first room gets the id 1.
    pub fn new() -> (registry: RoomRegistry)
        ensures
            registry.wf(),
            registry@ == RegistryView::empty(),
    {
        RoomRegistry::starting_at(1)
    }

    /// A registry without rooms, in which the first room gets the id
    /// `first_id`.
    pub fn starting_at(first_id: usize) -> (registry: RoomRegistry)
        ensures
            registry.wf(),
            registry@ == RegistryView::starting_at(first_id),
    {
        let registry = RoomRegistry {
            rooms: HashMap::new(),
            members: HashMap::new(),
            room_of: HashMap::new(),
            order: Vec::new(),
            next_id: first_id,
        };
        assert(registry@ =~= RegistryView::starting_at(first_id));
        registry
    }

    /// Creates a room and gives its id, which no room had before. Only when
    /// the ids are used up is no room created.
    pub fn create(&mut self, name: String) -> (created: Option<usize>)
        requires
            old(self).wf(),
        ensures
            final(self).wf(),
            old(self)@.next_id < usize::MAX ==> created == Some(old(self)@.next_id)
                && final(self)@ == old(self)@.created(name@),
            old(self)@.next_id == usize::MAX ==> created is None && final(self)@ == old(self)@,
    {
        if self.next_id == usize::MAX {
            return None;
        }
        let id: usize = self.next_id;
        self.rooms.insert(id, Room { room_id: id, name, board_shown: false });
        self.members.insert(id, Vec::new());
        self.order.push(id);
        self.next_id = id + 1;
        proof {
            assert(self@ =~= old(self)@.created(name@));
            lemma_created_wf(old(self)@, name@);
        }
        Some(id)
    }

    /// Whether there is a room with this id.
    pub fn contains(&self, room_id: usize) -> (held: bool)
        ensures
            held == self@.rooms.contains_key(room_id),
    {
        self.rooms.contains_key(&room_id)
    }

    /// The room with this id.
    pub fn get(&self, room_id: usize) -> (found: Option<&Room>)
        ensures
            found is Some <==> self@.rooms.contains_key(room_id),
            found matches Some(room) ==> room@ == self@.rooms[room_id],
    {
        self.rooms.get(&room_id)
    }

    /// Deletes a room together with its membership, and gives those who
    /// were in it.
    pub fn delete(&mut self, room_id: usize) -> (orphans: Vec<usize>)
        requires
            old(self).wf(),
        ensures
            final(self).wf(),
            final(self)@ == old(self)@.deleted(room_id),
            orphans@ == old(self)@.members_of(room_id),
    {
        self.rooms.remove(&room_id);
        let orphans: Vec<usize> = match self.members.remove(&room_id) {
            Some(list) => list,
            None => Vec::new(),
        };
        take_out(&mut self.order, room_id);
        let ghost start = self.room_of@;
        let mut i: usize = 0;
        while i < orphans.len()
            invariant
                0 <= i <= orphans.len(),
                self.room_of@ =~= Map::new(
                    |p: usize| start.contains_key(p) && !orphans@.take(i as int).contains(p),
                    |p: usize| start[p],
                ),
                self.next_id == old(self).next_id,
                self.order@ == without(old(self).order@, room_id),
                self.rooms@ == old(self).rooms@.remove(room_id),
                self.members@ == old(self).members@.remove(room_id),
            decreases orphans.len() - i,
        {
            let participant: usize = orphans[i];
            self.room_of.remove(&participant);
            proof {
                let done = orphans@.take(i as int);
                assert(orphans@.take(i + 1) =~= done.push(participant));
                lemma_push_contains(done, participant);
            }
            i = i + 1;
        }
        proof {
            assert(orphans@.take(orphans.len() as int) =~= orphans@);
            let v = old(self)@;
            assert(orphans@ == v.members_of(room_id));
            assert forall|p: usize| start.contains_key(p) implies (start[p] != room_id
                <==> !orphans@.contains(p)) by {
                assert(v.room_of.contains_key(p));
                if orphans@.contains(p) {
                    assert(v.members[room_id].contains(p));
                }
            }
            assert(self@.room_of =~= v.deleted(room_id).room_of);
            assert(self@ =~= v.deleted(room_id));
            lemma_deleted_wf(v, room_id);
        }
        orphans
    }

    /// Sets the request to show the votes of a room, and tells whether
    /// there is such a room.
    pub fn set_reveal_shown(&mut self, room_id: usize, shown: bool) -> (found: bool)
        requires
            old(self).wf(),
        ensures
            final(self).wf(),
            found == old(self)@.rooms.contains_key(room_id),
            final(self)@ == old(self)@.with_shown(room_id, shown),
    {
        let found: bool = match self.rooms.remove(&room_id) {
            Some(room) => {
                self.rooms.insert(
                    room_id,
                    Room { room_id: room.room_id, name: room.name, board_shown: shown },
                );
                true
            },
            None => false,
        };
        proof {
            assert(self@ =~= old(self)@.with_shown(room_id, shown));
            lemma_with_shown_wf(old(self)@, room_id, shown);
        }
        found
    }

    /// Those who are in a room, in the order in which they entered.
    pub fn members(&self, room_id: usize) -> (list: Vec<usize>)
        ensures
            list@ == self@.members_of(room_id),
    {
        match self.members.get(&room_id) {
            Some(list) => list.clone(),
            None => Vec::new(),
        }
    }

    /// The room that a participant is in.
    pub fn room_of(&self, participant: usize) -> (room: Option<usize>)
        ensures
            room is Some <==> self@.room_of.contains_key(participant),
            room matches Some(room_id) ==> room_id == self@.room_of[participant],
    {
        match self.room_of.get(&participant) {
            Some(room_id) => Some(*room_id),
            None => None,
        }
    }

    /// Lets a participant enter a room, behind those who are in it. Nothing
    /// changes where the room is missing or the participant is in a room
    /// already.
    pub fn enter(&mut self, room_id: usize, participant: usize) -> (entered: bool)
        requires
            old(self).wf(),
        ensures
            final(self).wf(),
            entered == old(self)@.admits(room_id, participant),
            entered ==> final(self)@ == old(self)@.entered(room_id, participant),
            !entered ==> final(self)@ == old(self)@,
    {
        if !self.rooms.contains_key(&room_id) || self.room_of.contains_key(&participant) {
            return false;
        }
        let mut list: Vec<usize> = match self.members.remove(&room_id) {
            Some(list) => list,
            None => Vec::new(),
        };
        list.push(participant);
        self.members.insert(room_id, list);
        self.room_of.insert(participant, room_id);
        proof {
            assert(self@ =~= old(self)@.entered(room_id, participant));
            lemma_entered_wf(old(self)@, room_id, participant);
        }
        true
    }

    /// Takes a participant out of their room, and gives that room.
    pub fn leave(&mut self, participant: usize) -> (room: Option<usize>)
        requires
            old(self).wf(),
        ensures
            final(self).wf(),
            final(self)@ == old(self)@.left(participant),
            room is Some <==> old(self)@.room_of.contains_key(participant),
            room matches Some(room_id) ==> room_id == old(self)@.room_of[participant],
    {
        let room: Option<usize> = self.room_of.remove(&participant);
        match room {
            Some(room_id) => {
                let mut list: Vec<usize> = match self.members.remove(&room_id) {
                    Some(list) => list,
                    None => Vec::new(),
                };
                take_out(&mut list, participant);
                self.members.insert(room_id, list);
            },
            None => {},
        }
        proof {
            assert(self@ =~= old(self)@.left(participant));
            lemma_left_wf(old(self)@, participant);
        }
        room
    }

    /// The rooms in the order in which they were created.
    pub fn list(&self) -> (rooms: Vec<Room>)
        requires
            self.wf(),
        ensures
            rooms@.len() == self@.order.len(),
            forall|i: int|
                0 <= i < rooms@.len() ==> (#[trigger] rooms@[i])@ == self@.rooms[self@.order[i]],
    {
        let mut rooms: Vec<Room> = Vec::new();
        let mut i: usize = 0;
        while i < self.order.len()
            invariant
                0 <= i <= self.order.len(),
                self.wf(),
                rooms@.len() == i,
                forall|j: int|
                    0 <= j < i ==> (#[trigger] rooms@[j])@ == self@.rooms[self@.order[j]],
            decreases self.order.len() - i,
        {
            let room_id: usize = self.order[i];
            assert(self@.order.contains(room_id));
            match self.rooms.get(&room_id) {
                Some(room) => {
                    rooms.push(room.clone());
                },
                None => {},
            }
            i = i + 1;
        }
        rooms
    }
}

} // verus!
