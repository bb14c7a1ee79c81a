//! The board of a room and how it is sent out: one snapshot, rendered once,
//! queued for every connection of the room. A queue that turns out dead has
//! its participant taken out of the hub once all queues were tried.

use crate::channel::{send, text_message};
use crate::connection_registry::{ids_of, Connection};
use crate::hub::{lemma_all_or_nothing, lemma_left, Hub, HubView};
use crate::id_list::lemma_push_contains;
use crate::models::PointView;
use crate::vote::{Estimate, Vote};
use crate::vote_store::{all_zero, lemma_all_zero_push, lemma_cleared_is_all_zero};
use vstd::prelude::*;

verus! {

/// One line of the board.
pub struct BoardEntry {
    pub name: String,
    pub vote: Vote,
    /// Whether the line carries the mark of a vote of one or more.
    pub checked: bool,
}

/// What a [`BoardEntry`] holds.
pub struct EntryView {
    pub name: Seq<char>,
    pub vote: Estimate,
    pub checked: bool,
}

impl View for BoardEntry {
    type V = EntryView;

    open spec fn view(&self) -> EntryView {
        EntryView { name: self.name@, vote: self.vote@, checked: self.checked }
    }
}

/// What the control that shows and hides the votes offers next.
#[derive(Clone, Copy, Debug, PartialEq, Eq, Structural)]
pub enum Toggle {
    /// The votes are hidden; the control offers to show them.
    Show,
    /// The votes are shown; the control offers to hide them.
    Hide,
}

/// The state of a room as it is rendered for its participants.
pub struct Board {
    pub room_id: usize,
    pub room_name: String,
    /// Whether the votes are shown as numbers.
    pub shown: bool,
    /// The participants, in the order in which they entered.
    pub entries: Vec<BoardEntry>,
}

/// What a [`Board`] holds.
#[verifier::ext_equal]
pub struct BoardView {
    pub room_id: usize,
    pub room_name: Seq<char>,
    pub shown: bool,
    pub entries: Seq<EntryView>,
}

impl View for Board {
    type V = BoardView;

    open spec fn view(&self) -> BoardView {
        BoardView {
            room_id: self.room_id,
            room_name: self.room_name@,
            shown: self.shown,
            entries: Seq::new(self.entries@.len(), |i: int| self.entries@[i]@),
        }
    }
}

impl Board {
    /// What the control that shows and hides the votes offers next: the
    /// opposite of what the board shows.
    pub fn toggle(&self) -> (next: Toggle)
        ensures
            next == if self@.shown {
                Toggle::Hide
            } else {
                Toggle::Show
            },
    {
        if self.shown {
            Toggle::Hide
        } else {
            Toggle::Show
        }
    }
}

/// The line of the board for a participant.
pub open spec fn entry_of(point: PointView) -> EntryView {
    EntryView { name: point.name, vote: point.point, checked: point.point.at_least_one() }
}

/// Whether the votes are shown: they were asked to be shown, and not every
/// vote is zero.
pub open spec fn effective_shown(
    requested: bool,
    votes: Map<usize, PointView>,
    members: Seq<usize>,
) -> bool {
    requested && !all_zero(votes, members)
}

/// The board of a room.
pub open spec fn board_of(hub: HubView, room_id: usize) -> BoardView {
    let members = hub.registry.members_of(room_id);
    let room = hub.registry.rooms[room_id];
    BoardView {
        room_id,
        room_name: room.name,
        shown: effective_shown(room.board_shown, hub.votes, members),
        entries: Seq::new(members.len(), |i: int| entry_of(hub.votes[members[i]])),
    }
}

/// In a hub, the votes of a room are all zero exactly when the vote of each
/// of its members is zero: every member has a vote.
pub proof fn lemma_all_zero_members(hub: HubView, room_id: usize)
    requires
        hub.wf(),
    ensures
        all_zero(hub.votes, hub.registry.members_of(room_id)) <==> forall|i: int|
            0 <= i < hub.registry.members_of(room_id).len() ==> hub.votes.contains_key(
                #[trigger] hub.registry.members_of(room_id)[i],
            ) && hub.votes[hub.registry.members_of(room_id)[i]].point.is_zero(),
{
    let members = hub.registry.members_of(room_id);
    assert forall|i: int| 0 <= i < members.len() implies hub.votes.contains_key(
        #[trigger] members[i],
    ) by {
        assert(hub.registry.members[room_id].contains(members[i]));
    }
    if all_zero(hub.votes, members) {
        assert forall|i: int| 0 <= i < members.len() implies (#[trigger] hub.votes[members[i]])
            .point.is_zero() by {
            assert(members.contains(members[i]));
        }
    }
}

/// While every vote of a room is zero its board hides the votes, whatever
/// was asked for.
pub proof fn lemma_all_zero_is_hidden(hub: HubView, room_id: usize)
    requires
        all_zero(hub.votes, hub.registry.members_of(room_id)),
    ensures
        !board_of(hub, room_id).shown,
        !board_of(hub.revealed(room_id, true), room_id).shown,
{
    let after = hub.revealed(room_id, true);
    assert(after.registry.members_of(room_id) == hub.registry.members_of(room_id));
}

/// Right after the votes of a room are cleared its board hides the votes,
/// whatever was asked for.
pub proof fn lemma_cleared_is_hidden(hub: HubView, room_id: usize)
    ensures
        !board_of(hub.cleared_room(room_id), room_id).shown,
{
    lemma_cleared_is_all_zero(hub.votes, hub.registry.members_of(room_id));
}

/// The participants whose queue did not take the board: those of `ids` for
/// which `delivered` says no, in the order of `ids`. An id for which
/// `delivered` says nothing counts as served.
pub open spec fn undelivered(ids: Seq<usize>, delivered: Seq<bool>) -> Seq<usize>
    decreases ids.len(),
{
    if ids.len() == 0 {
        ids
    } else if ids.len() <= delivered.len() && !delivered[ids.len() - 1] {
        undelivered(ids.drop_last(), delivered).push(ids.last())
    } else {
        undelivered(ids.drop_last(), delivered)
    }
}

/// The hub after each of `ids` has left, one after the other.
pub open spec fn left_all(hub: HubView, ids: Seq<usize>) -> HubView
    decreases ids.len(),
{
    if ids.len() == 0 {
        hub
    } else {
        left_all(hub, ids.drop_last()).left(ids.last())
    }
}

/// Those who left are in none of the three stores, and the hub is still well
/// formed.
pub proof fn lemma_left_all(hub: HubView, ids: Seq<usize>)
    requires
        hub.wf(),
    ensures
        left_all(hub, ids).wf(),
        forall|p: usize| ids.contains(p) ==> !(#[trigger] left_all(hub, ids).in_vote_store(p)),
        forall|p: usize, r: usize|
            ids.contains(p) ==> !(#[trigger] left_all(hub, ids).in_room(r, p)),
        forall|p: usize, r: usize|
            ids.contains(p) ==> !(#[trigger] left_all(hub, ids).connected_to(r, p)),
        forall|p: usize| #[trigger] left_all(hub, ids).in_vote_store(p) ==> hub.in_vote_store(p),
    decreases ids.len(),
{
    if ids.len() > 0 {
        let front = ids.drop_last();
        let before = left_all(hub, front);
        let after = left_all(hub, ids);
        lemma_left_all(hub, front);
        lemma_left(before, ids.last());
        assert(ids =~= front.push(ids.last()));
        lemma_push_contains(front, ids.last());
        assert forall|p: usize| ids.contains(p) implies !(#[trigger] after.in_vote_store(p)) by {
            if front.contains(p) {
                assert(!before.in_vote_store(p));
            }
        }
        assert forall|p: usize, r: usize| ids.contains(p) implies !(#[trigger] after.in_room(
            r,
            p,
        )) by {
            lemma_all_or_nothing(after, p);
        }
        assert forall|p: usize, r: usize| ids.contains(p) implies !(#[trigger] after.connected_to(
            r,
            p,
        )) by {
            lemma_all_or_nothing(after, p);
        }
        assert forall|p: usize| #[trigger] after.in_vote_store(p) implies hub.in_vote_store(p) by {
            assert(before.in_vote_store(p));
        }
    }
}

/// `reaped` are the participants of the room whose queue did not take the
/// board, where `delivered` tells for each member whether it did.
pub open spec fn answers(
    hub: HubView,
    room_id: usize,
    reaped: Seq<usize>,
    delivered: Seq<bool>,
) -> bool {
    let members = hub.registry.members_of(room_id);
    delivered.len() == members.len() && reaped == undelivered(members, delivered)
}

/// What holds of those who are taken out after a board was sent to a room,
/// however the queues answered: they are the members whose queue did not take
/// it, in the order of the members.
pub open spec fn sent_to(hub: HubView, room_id: usize, reaped: Seq<usize>) -> bool {
    exists|delivered: Seq<bool>| #[trigger] answers(hub, room_id, reaped, delivered)
}

/// Those who are taken out after a board was sent to a room were members of
/// it, and nobody is taken out of a room that is not there.
pub proof fn lemma_sent_to_members(hub: HubView, room_id: usize, reaped: Seq<usize>)
    requires
        hub.wf(),
        sent_to(hub, room_id, reaped),
    ensures
        forall|i: int| 0 <= i < reaped.len() ==> hub.in_room(room_id, #[trigger] reaped[i]),
        !hub.registry.rooms.contains_key(room_id) ==> reaped.len() == 0,
{
    let delivered = choose|delivered: Seq<bool>| #[trigger]
        answers(hub, room_id, reaped, delivered);
    let members = hub.registry.members_of(room_id);
    lemma_undelivered_within(members, delivered);
    assert forall|i: int| 0 <= i < reaped.len() implies members.contains(#[trigger] reaped[i]) by {
        assert(reaped.contains(reaped[i]));
    }
}

/// Every participant whose queue did not take the board is one of those it
/// was sent to.
pub proof fn lemma_undelivered_within(ids: Seq<usize>, delivered: Seq<bool>)
    ensures
        forall|p: usize| #[trigger] undelivered(ids, delivered).contains(p) ==> ids.contains(p),
    decreases ids.len(),
{
    if ids.len() > 0 {
        let front = ids.drop_last();
        let last = ids.last();
        lemma_undelivered_within(front, delivered);
        lemma_push_contains(undelivered(front, delivered), last);
        assert(ids =~= front.push(last));
        lemma_push_contains(front, last);
        assert forall|p: usize| #[trigger]
            undelivered(ids, delivered).contains(p) implies ids.contains(p) by {
            if p != last {
                assert(undelivered(front, delivered).contains(p));
                assert(front.contains(p));
            }
        }
    }
}

/// Queues `payload` for every connection, and tells for each whether its
/// queue took it. Each queue is tried once.
pub fn fan_out(channels: &Vec<Connection>, payload: &str) -> (delivered: Vec<bool>)
    ensures
        delivered@.len() == channels@.len(),
{
    let mut delivered: Vec<bool> = Vec::new();
    let mut i: usize = 0;
    while i < channels.len()
        invariant
            0 <= i <= channels.len(),
            delivered@.len() == i,
        decreases channels.len() - i,
    {
        delivered.push(send(&channels[i].tx, text_message(payload)));
        i = i + 1;
    }
    delivered
}

/// The participants whose queue did not take the board.
pub fn failed_recipients(channels: &Vec<Connection>, delivered: &Vec<bool>) -> (failed: Vec<usize>)
    ensures
        failed@ == undelivered(ids_of(channels@), delivered@),
{
    let mut failed: Vec<usize> = Vec::new();
    let mut i: usize = 0;
    let ghost ids = ids_of(channels@);
    assert(ids.take(0) =~= Seq::<usize>::empty());
    while i < channels.len()
        invariant
            0 <= i <= channels.len(),
            ids == ids_of(channels@),
            failed@ == undelivered(ids.take(i as int), delivered@),
        decreases channels.len() - i,
    {
        proof {
            let next = ids.take(i + 1);
            assert(next.drop_last() =~= ids.take(i as int));
            assert(next.last() == channels@[i as int].id);
        }
        if i < delivered.len() && !delivered[i] {
            failed.push(channels[i].id);
        }
        i = i + 1;
    }
    assert(ids.take(channels.len() as int) =~= ids);
    failed
}

impl Hub {
    /// The board of a room as it is now; nothing where there is no such
    /// room.
    pub fn board(&self, room_id: usize) -> (board: Option<Board>)
        requires
            self.wf(),
        ensures
            board is Some <==> self@.registry.rooms.contains_key(room_id),
            board matches Some(b) ==> b@ == board_of(self@, room_id),
            board matches Some(b) ==> b.shown == (self@.registry.rooms[room_id].board_shown
                && !all_zero(self@.votes, self@.registry.members_of(room_id))),
    {
        let (room_name, requested) = match self.room(room_id) {
            Some(room) => (room.name.clone(), room.board_shown),
            None => {
                return None;
            },
        };
        let members = self.members(room_id);
        let mut entries: Vec<BoardEntry> = Vec::new();
        let mut every_vote_zero: bool = true;
        let mut i: usize = 0;
        while i < members.len()
            invariant
                0 <= i <= members.len(),
                self.wf(),
                members@ == self@.registry.members_of(room_id),
                self@.registry.rooms.contains_key(room_id),
                entries@.len() == i,
                forall|j: int|
                    0 <= j < i ==> (#[trigger] entries@[j])@ == entry_of(
                        self@.votes[members@[j]],
                    ),
                every_vote_zero == all_zero(self@.votes, members@.take(i as int)),
            decreases members.len() - i,
        {
            let id: usize = members[i];
            proof {
                assert(self@.registry.members[room_id].contains(id));
                assert(self@.votes.contains_key(id));
                let done = members@.take(i as int);
                assert(members@.take(i + 1) =~= done.push(id));
                lemma_all_zero_push(self@.votes, done, id);
            }
            match self.point(id) {
                Some(point) => {
                    if !point.point.is_zero() {
                        every_vote_zero = false;
                    }
                    entries.push(
                        BoardEntry {
                            name: point.name.clone(),
                            vote: point.point.clone(),
                            checked: point.point.at_least_one(),
                        },
                    );
                },
                None => {},
            }
            i = i + 1;
        }
        assert(members@.take(members.len() as int) =~= members@);
        let board = Board { room_id, room_name, shown: requested && !every_vote_zero, entries };
        assert(board@ =~= board_of(self@, room_id));
        Some(board)
    }

    /// Takes every participant of `ids` out of the hub.
    pub fn reap(&mut self, ids: &Vec<usize>)
        requires
            old(self).wf(),
        ensures
            final(self).wf(),
            final(self)@ == left_all(old(self)@, ids@),
    {
        let mut i: usize = 0;
        assert(ids@.take(0) =~= Seq::<usize>::empty());
        while i < ids.len()
            invariant
                0 <= i <= ids.len(),
                self.wf(),
                self@ == left_all(old(self)@, ids@.take(i as int)),
            decreases ids.len() - i,
        {
            assert(ids@.take(i + 1).drop_last() =~= ids@.take(i as int));
            self.leave(ids[i]);
            i = i + 1;
        }
        assert(ids@.take(ids.len() as int) =~= ids@);
    }

    /// Takes out of the hub the participants of a room whose queue did not
    /// take the board, and gives them. `delivered` tells for each connection
    /// of the room, in the order of [`Hub::channels_for`], whether its queue
    /// took it.
    pub fn settle(&mut self, room_id: usize, delivered: &Vec<bool>) -> (reaped: Vec<usize>)
        requires
            old(self).wf(),
        ensures
            final(self).wf(),
            reaped@ == undelivered(old(self)@.registry.members_of(room_id), delivered@),
            final(self)@ == left_all(old(self)@, reaped@),
    {
        let channels = self.channels_for(room_id);
        let reaped = failed_recipients(&channels, delivered);
        self.reap(&reaped);
        reaped
    }

    /// Sends the board of a room to everyone in it. The board is taken once
    /// and rendered once, and the text is queued for every connection of the
    /// room. When all were tried, the participants whose queue did not take
    /// it are taken out of the hub; they are what the call gives. Nothing is
    /// sent where there is no such room.
    pub fn broadcast_point<F: Fn(&Board) -> String>(&mut self, room_id: usize, render: F) -> (reaped:
        Vec<usize>)
        requires
            old(self).wf(),
            forall|board: &Board| #[trigger] render.requires((board,)),
        ensures
            final(self).wf(),
            final(self)@ == left_all(old(self)@, reaped@),
            sent_to(old(self)@, room_id, reaped@),
    {
        match self.board(room_id) {
            Some(board) => {
                let payload = render(&board);
                let channels = self.channels_for(room_id);
                let delivered = fan_out(&channels, payload.as_str());
                let reaped = self.settle(room_id, &delivered);
                assert(answers(old(self)@, room_id, reaped@, delivered@));
                reaped
            },
            None => {
                let reaped: Vec<usize> = Vec::new();
                assert(answers(old(self)@, room_id, reaped@, Seq::<bool>::empty()));
                reaped
            },
        }
    }
}

} // verus!
