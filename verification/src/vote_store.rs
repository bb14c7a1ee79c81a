//! The vote store: each participant's display name and current vote, by
//! participant id.

use crate::id_list::lemma_push_contains;
use crate::models::{Point, PointView};
use crate::vote::{is_numeral, numeral_value, Estimate, Vote};
use std::collections::HashMap;
use vstd::prelude::*;

verus! {

broadcast use vstd::std_specs::hash::group_hash_axioms;

/// Why a vote was not taken.
#[derive(Clone, Copy, Debug, PartialEq, Eq, Structural)]
pub enum VoteError {
    /// The text is no non-negative decimal numeral.
    InvalidVote,
    /// The store holds no such participant.
    UnknownParticipant,
}

/// The store after the votes of `ids` are taken back to zero. Ids that the
/// store does not hold are passed over.
pub open spec fn cleared(votes: Map<usize, PointView>, ids: Seq<usize>) -> Map<usize, PointView> {
    Map::new(
        |id: usize| votes.contains_key(id),
        |id: usize|
            if ids.contains(id) {
                votes[id].cleared()
            } else {
                votes[id]
            },
    )
}

/// Every one of `ids` that the store holds has a vote of exactly zero.
pub open spec fn all_zero(votes: Map<usize, PointView>, ids: Seq<usize>) -> bool {
    forall|id: usize|
        #![trigger ids.contains(id)]
        ids.contains(id) && votes.contains_key(id) ==> votes[id].point.is_zero()
}

/// Right after the votes of some participants are cleared, all of them are
/// zero.
pub proof fn lemma_cleared_is_all_zero(votes: Map<usize, PointView>, ids: Seq<usize>)
    ensures
        all_zero(cleared(votes, ids), ids),
{
}

/// Clearing changes neither who is in the store nor any name.
pub proof fn lemma_cleared_keeps_participants(votes: Map<usize, PointView>, ids: Seq<usize>)
    ensures
        cleared(votes, ids).dom() == votes.dom(),
        forall|id: usize|
            votes.contains_key(id) ==> (#[trigger] cleared(votes, ids)[id]).name == votes[id].name,
{
    assert(cleared(votes, ids).dom() =~= votes.dom());
}

/// With one more participant, every vote is zero exactly when it was so
/// before and the vote of the new one is zero too.
pub proof fn lemma_all_zero_push(votes: Map<usize, PointView>, ids: Seq<usize>, id: usize)
    ensures
        all_zero(votes, ids.push(id)) <==> all_zero(votes, ids) && (votes.contains_key(id)
            ==> votes[id].point.is_zero()),
{
    let next = ids.push(id);
    lemma_push_contains(ids, id);
    if all_zero(votes, next) {
        assert forall|k: usize|
            #![trigger ids.contains(k)]
            ids.contains(k) && votes.contains_key(k) implies votes[k].point.is_zero() by {
            assert(next.contains(k));
        }
        assert(next.contains(id));
    }
    if all_zero(votes, ids) && (votes.contains_key(id) ==> votes[id].point.is_zero()) {
        assert forall|k: usize|
            #![trigger next.contains(k)]
            next.contains(k) && votes.contains_key(k) implies votes[k].point.is_zero() by {
            if k != id {
                assert(ids.contains(k));
            }
        }
    }
}

/// The votes and display names of the participants.
pub struct VoteStore {
    points: HashMap<usize, Point>,
}

impl View for VoteStore {
    type V = Map<usize, PointView>;

    closed spec fn view(&self) -> Map<usize, PointView> {
        Map::new(|id: usize| self.points@.contains_key(id), |id: usize| self.points@[id]@)
    }
}

impl VoteStore {
    /// A store without participants.
    pub fn new() -> (store: VoteStore)
        ensures
            store@ == Map::<usize, PointView>::empty(),
    {
        let store = VoteStore { points: HashMap::new() };
        assert(store@ =~= Map::<usize, PointView>::empty());
        store
    }

    /// Enters a participant under `id`, with a vote of zero. An entry that
    /// was there under the same id is replaced.
    pub fn insert(&mut self, id: usize, name: String)
        ensures
            final(self)@ == old(self)@.insert(
                id,
                PointView { point: Estimate::zero(), name: name@ },
            ),
    {
        self.points.insert(id, Point { point: Vote::zero(), name });
        assert(self@ =~= old(self)@.insert(
            id,
            PointView { point: Estimate::zero(), name: name@ },
        ));
    }

    /// Whether the store holds the participant.
    pub fn contains(&self, id: usize) -> (held: bool)
        ensures
            held == self@.contains_key(id),
    {
        self.points.contains_key(&id)
    }

    /// The participant's entry.
    pub fn get(&self, id: usize) -> (found: Option<&Point>)
        ensures
            found is Some <==> self@.contains_key(id),
            found matches Some(point) ==> point@ == self@[id],
    {
        self.points.get(&id)
    }

    /// Sets the participant's vote from text. A text that is no numeral
    /// leaves the store as it was, whoever the participant is.
    pub fn set_vote(&mut self, id: usize, raw: &str) -> (outcome: Result<(), VoteError>)
        ensures
            !is_numeral(raw@) ==> outcome == Err::<(), VoteError>(VoteError::InvalidVote),
            is_numeral(raw@) && !old(self)@.contains_key(id) ==> outcome == Err::<(), VoteError>(
                VoteError::UnknownParticipant,
            ),
            is_numeral(raw@) && old(self)@.contains_key(id) ==> outcome is Ok,
            outcome is Err ==> final(self)@ == old(self)@,
            outcome is Ok ==> final(self)@ == old(self)@.insert(
                id,
                old(self)@[id].with_vote(numeral_value(raw@)),
            ),
    {
        match Vote::parse(raw) {
            None => Err(VoteError::InvalidVote),
            Some(vote) => match self.points.remove(&id) {
                None => {
                    assert(self@ =~= old(self)@);
                    Err(VoteError::UnknownParticipant)
                },
                Some(point) => {
                    self.points.insert(id, Point { point: vote, name: point.name });
                    assert(self@ =~= old(self)@.insert(
                        id,
                        old(self)@[id].with_vote(numeral_value(raw@)),
                    ));
                    Ok(())
                },
            },
        }
    }

    /// Takes the participant out of the store.
    pub fn remove(&mut self, id: usize)
        ensures
            final(self)@ == old(self)@.remove(id),
    {
        self.points.remove(&id);
        assert(self@ =~= old(self)@.remove(id));
    }

    /// Takes the votes of `ids` back to zero. Nobody leaves the store.
    pub fn clear_all(&mut self, ids: &Vec<usize>)
        ensures
            final(self)@ == cleared(old(self)@, ids@),
    {
        let mut i: usize = 0;
        assert(self@ =~= cleared(old(self)@, ids@.take(0)));
        while i < ids.len()
            invariant
                0 <= i <= ids.len(),
                self@ == cleared(old(self)@, ids@.take(i as int)),
            decreases ids.len() - i,
        {
            let id: usize = ids[i];
            let ghost before = self@;
            match self.points.remove(&id) {
                None => {},
                Some(point) => {
                    self.points.insert(id, Point { point: Vote::zero(), name: point.name });
                },
            }
            proof {
                let done = ids@.take(i as int);
                let next = ids@.take(i + 1);
                assert(next =~= done.push(id));
                lemma_push_contains(done, id);
                let target = cleared(old(self)@, next);
                assert forall|k: usize| self@.contains_key(k) implies #[trigger] self@[k]
                    == target[k] by {
                    if k == id {
                        assert(next.contains(id));
                        assert(before.contains_key(id));
                        assert(self@[k].name == before[id].name);
                    } else {
                        assert(self@[k] == before[k]);
                        assert(next.contains(k) == done.contains(k));
                    }
                }
                assert(self@.dom() =~= target.dom());
                assert(self@ =~= target);
            }
            i = i + 1;
        }
        assert(ids@.take(ids.len() as int) =~= ids@);
    }

    /// Whether every vote of `ids` is exactly zero. Ids that the store does
    /// not hold are passed over.
    pub fn all_cleared(&self, ids: &Vec<usize>) -> (zero: bool)
        ensures
            zero == all_zero(self@, ids@),
    {
        let mut i: usize = 0;
        while i < ids.len()
            invariant
                0 <= i <= ids.len(),
                all_zero(self@, ids@.take(i as int)),
            decreases ids.len() - i,
        {
            let id: usize = ids[i];
            match self.points.get(&id) {
                Some(point) => {
                    if !point.point.is_zero() {
                        assert(ids@.contains(id));
                        return false;
                    }
                },
                None => {},
            }
            proof {
                let done = ids@.take(i as int);
                let next = ids@.take(i + 1);
                assert(next =~= done.push(id));
                lemma_push_contains(done, id);
            }
            i = i + 1;
        }
        assert(ids@.take(ids.len() as int) =~= ids@);
        true
    }
}

} // verus!
