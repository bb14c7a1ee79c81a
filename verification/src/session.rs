//! The life of one connection: it starts unconnected to any room, joins one,
//! sends votes and requests, and is closed. Leaving is the time inside
//! [`Hub::disconnect`].

use crate::broadcast::{left_all, sent_to, Board};
use crate::channel::{clone_outbound, Outbound};
use crate::hub::{
    lemma_cleared_room, lemma_joined, lemma_left, lemma_revealed, lemma_voted, Hub, HubView,
    JoinError,
};
use crate::ident::{id_of_text, is_id_text, parse_id};
use crate::models::{Request, WSMessage, WSMessageView};
use crate::vote::{is_numeral, numeral_value};
use crate::vote_store::VoteError;
use vstd::prelude::*;

verus! {

/// Where a connection stands.
#[derive(Clone, Copy, Debug, PartialEq, Eq, Structural)]
pub enum Session {
    /// Connected, in no room yet.
    Connecting,
    /// In a room, as the participant `id`.
    Joined { id: usize, room_id: usize },
    /// Closed for good: no message is taken any more.
    Closed,
}

/// Why a message changed nothing.
#[derive(Clone, Copy, Debug, PartialEq, Eq, Structural)]
pub enum SessionError {
    /// The vote is no non-negative decimal numeral. The connection stays as
    /// it is.
    InvalidVote,
    /// The join names no room that exists. The connection is closed.
    UnknownRoom,
    /// The message asks for nothing that can be done in this state. It is
    /// dropped; the connection stays as it is.
    MalformedMessage,
    /// The connection is closed, or its participant is no longer in the
    /// room: the room was deleted or the queue was found dead. The connection
    /// is closed.
    Closed,
    /// Every participant id is used up. The connection is closed.
    Exhausted,
}

/// What the text of a request to show or hide asks for; nothing for any
/// text but `true` and `false`.
pub open spec fn show_request(text: Seq<char>) -> Option<bool> {
    if text == "true"@ {
        Some(true)
    } else if text == "false"@ {
        Some(false)
    } else {
        None
    }
}

/// The hub and the session after a message, and what the message came to:
/// the room whose board is to be sent out again, or why nothing changed.
pub struct Step {
    pub hub: HubView,
    pub session: Session,
    pub outcome: Result<usize, SessionError>,
}

/// The participant of a joined session is still in its room.
pub open spec fn holds(hub: HubView, id: usize, room_id: usize) -> bool {
    hub.registry.room_of.contains_key(id) && hub.registry.room_of[id] == room_id
}

/// A join from a connection that is in no room.
pub open spec fn join_step(hub: HubView, room: Seq<char>, name: Seq<char>, tx: Outbound) -> Step {
    let room_id = id_of_text(room) as usize;
    if !is_id_text(room) || !hub.registry.rooms.contains_key(room_id) {
        Step { hub, session: Session::Closed, outcome: Err(SessionError::UnknownRoom) }
    } else if hub.next_user_id == usize::MAX {
        Step { hub, session: Session::Closed, outcome: Err(SessionError::Exhausted) }
    } else {
        Step {
            hub: hub.joined(room_id, name, tx),
            session: Session::Joined { id: hub.next_user_id, room_id },
            outcome: Ok(room_id),
        }
    }
}

/// A message from a participant who is in a room.
pub open spec fn joined_step(hub: HubView, id: usize, room_id: usize, msg: WSMessageView) -> Step {
    let session = Session::Joined { id, room_id };
    match msg.request() {
        Request::Vote => if is_numeral(msg.point->0) {
            Step { hub: hub.voted(id, numeral_value(msg.point->0)), session, outcome: Ok(room_id) }
        } else {
            Step { hub, session, outcome: Err(SessionError::InvalidVote) }
        },
        Request::Reveal => Step {
            hub: match show_request(msg.show->0) {
                Some(shown) => hub.revealed(room_id, shown),
                None => hub,
            },
            session,
            outcome: Ok(room_id),
        },
        Request::Clear => Step { hub: hub.cleared_room(room_id), session, outcome: Ok(room_id) },
        _ => Step { hub, session, outcome: Err(SessionError::MalformedMessage) },
    }
}

/// What a message does, in every state of the connection.
pub open spec fn step(hub: HubView, session: Session, msg: WSMessageView, tx: Outbound) -> Step {
    match session {
        Session::Closed => Step { hub, session, outcome: Err(SessionError::Closed) },
        Session::Connecting => match msg.request() {
            Request::Join => join_step(hub, msg.room_id->0, msg.name->0, tx),
            _ => Step { hub, session, outcome: Err(SessionError::MalformedMessage) },
        },
        Session::Joined { id, room_id } => if holds(hub, id, room_id) {
            joined_step(hub, id, room_id, msg)
        } else {
            Step { hub, session: Session::Closed, outcome: Err(SessionError::Closed) }
        },
    }
}

/// The hub after a connection has ended.
pub open spec fn disconnected(hub: HubView, session: Session) -> HubView {
    match session {
        Session::Joined { id, room_id } => hub.left(id),
        _ => hub,
    }
}

/// The room whose board is to be sent out again after a connection has
/// ended.
pub open spec fn room_left(session: Session) -> Option<usize> {
    match session {
        Session::Joined { id, room_id } => Some(room_id),
        _ => None,
    }
}

/// Once a connection has ended, its participant is in none of the three
/// stores.
pub proof fn lemma_disconnected(hub: HubView, id: usize, room_id: usize)
    requires
        hub.wf(),
    ensures
        disconnected(hub, Session::Joined { id, room_id }).wf(),
        !disconnected(hub, Session::Joined { id, room_id }).in_vote_store(id),
        forall|r: usize| !disconnected(hub, Session::Joined { id, room_id }).in_room(r, id),
        forall|r: usize| !disconnected(hub, Session::Joined { id, room_id }).connected_to(r, id),
{
    lemma_left(hub, id);
}

/// No message breaks the hub, and no message takes back an id: the ids that
/// the next room and the next participant get never go down.
pub proof fn lemma_step_wf(hub: HubView, session: Session, msg: WSMessageView, tx: Outbound)
    requires
        hub.wf(),
    ensures
        step(hub, session, msg, tx).hub.wf(),
        step(hub, session, msg, tx).hub.next_user_id >= hub.next_user_id,
        step(hub, session, msg, tx).hub.registry.next_id == hub.registry.next_id,
{
    match session {
        Session::Closed => {},
        Session::Connecting => {
            if msg.request() == Request::Join {
                let room = msg.room_id->0;
                let room_id = id_of_text(room) as usize;
                if is_id_text(room) && hub.can_join(room_id) {
                    lemma_joined(hub, room_id, msg.name->0, tx);
                }
            }
        },
        Session::Joined { id, room_id } => {
            if holds(hub, id, room_id) {
                match msg.request() {
                    Request::Vote => {
                        lemma_voted(hub, id, numeral_value(msg.point->0));
                    },
                    Request::Reveal => {
                        if let Some(shown) = show_request(msg.show->0) {
                            lemma_revealed(hub, room_id, shown);
                        }
                    },
                    Request::Clear => {
                        lemma_cleared_room(hub, room_id);
                    },
                    _ => {},
                }
            }
        },
    }
}

/// A message that is no valid vote changes no vote, whatever else it is.
pub proof fn lemma_invalid_vote_changes_nothing(
    hub: HubView,
    id: usize,
    room_id: usize,
    msg: WSMessageView,
    tx: Outbound,
)
    requires
        holds(hub, id, room_id),
        msg.request() == Request::Vote,
        !is_numeral(msg.point->0),
    ensures
        step(hub, Session::Joined { id, room_id }, msg, tx).hub == hub,
        step(hub, Session::Joined { id, room_id }, msg, tx).session == (Session::Joined {
            id,
            room_id,
        }),
        step(hub, Session::Joined { id, room_id }, msg, tx).outcome == Err::<usize, SessionError>(
            SessionError::InvalidVote,
        ),
{
}

/// Reads what a request to show or hide asks for.
fn read_show(text: &String) -> (shown: Option<bool>)
    ensures
        shown == show_request(text@),
{
    let yes: String = "true".to_owned();
    let no: String = "false".to_owned();
    if *text == yes {
        Some(true)
    } else if *text == no {
        Some(false)
    } else {
        None
    }
}

impl Hub {
    /// Takes one message from a connection. What it does is [`step`]: it
    /// changes the hub and the session, and tells the room whose board is to
    /// be sent out again, or why nothing is to be sent.
    pub fn consume_message(&mut self, session: &mut Session, msg: &WSMessage, tx: &Outbound) -> (outcome:
        Result<usize, SessionError>)
        requires
            old(self).wf(),
        ensures
            final(self).wf(),
            final(self)@ == step(old(self)@, *old(session), msg@, *tx).hub,
            *final(session) == step(old(self)@, *old(session), msg@, *tx).session,
            outcome == step(old(self)@, *old(session), msg@, *tx).outcome,
    {
        let request = msg.request();
        match *session {
            Session::Closed => Err(SessionError::Closed),
            Session::Connecting => match request {
                Request::Join => match (&msg.room_id, &msg.name) {
                    (Some(room), Some(name)) => {
                        let joined = match parse_id(room.as_str()) {
                            Some(room_id) => match self.join(
                                room_id,
                                name.clone(),
                                clone_outbound(tx),
                            ) {
                                Ok(id) => Ok((id, room_id)),
                                Err(JoinError::UnknownRoom) => Err(SessionError::UnknownRoom),
                                Err(JoinError::Exhausted) => Err(SessionError::Exhausted),
                            },
                            None => Err(SessionError::UnknownRoom),
                        };
                        match joined {
                            Ok((id, room_id)) => {
                                *session = Session::Joined { id, room_id };
                                Ok(room_id)
                            },
                            Err(error) => {
                                *session = Session::Closed;
                                Err(error)
                            },
                        }
                    },
                    _ => Err(SessionError::MalformedMessage),
                },
                _ => Err(SessionError::MalformedMessage),
            },
            Session::Joined { id, room_id } => {
                if self.room_of(id) != Some(room_id) {
                    *session = Session::Closed;
                    return Err(SessionError::Closed);
                }
                match request {
                    Request::Vote => match &msg.point {
                        Some(point) => match self.set_vote(id, point.as_str()) {
                            Ok(()) => Ok(room_id),
                            Err(VoteError::InvalidVote) => Err(SessionError::InvalidVote),
                            Err(VoteError::UnknownParticipant) => Err(SessionError::Closed),
                        },
                        None => Err(SessionError::MalformedMessage),
                    },
                    Request::Reveal => match &msg.show {
                        Some(show) => {
                            match read_show(show) {
                                Some(shown) => {
                                    self.set_reveal_shown(room_id, shown);
                                },
                                None => {},
                            }
                            Ok(room_id)
                        },
                        None => Err(SessionError::MalformedMessage),
                    },
                    Request::Clear => {
                        self.clear_votes(room_id);
                        Ok(room_id)
                    },
                    _ => Err(SessionError::MalformedMessage),
                }
            },
        }
    }

    /// Ends a connection: takes its participant out of every store and
    /// closes the session. Gives the room whose board is to be sent out
    /// again, for a connection that was in one.
    pub fn disconnect(&mut self, session: &mut Session) -> (room: Option<usize>)
        requires
            old(self).wf(),
        ensures
            final(self).wf(),
            final(self)@ == disconnected(old(self)@, *old(session)),
            *final(session) == Session::Closed,
            room == room_left(*old(session)),
    {
        let room = match *session {
            Session::Joined { id, room_id } => {
                self.leave(id);
                Some(room_id)
            },
            _ => None,
        };
        *session = Session::Closed;
        room
    }

    /// Takes one message from a connection and, where the message was
    /// taken, sends the board of the room out again. Gives those who were
    /// taken out because their queue did not take the board, or why the
    /// message changed nothing; then no board is sent.
    pub fn receive<F: Fn(&Board) -> String>(
        &mut self,
        session: &mut Session,
        msg: &WSMessage,
        tx: &Outbound,
        render: F,
    ) -> (outcome: Result<Vec<usize>, SessionError>)
        requires
            old(self).wf(),
            forall|board: &Board| #[trigger] render.requires((board,)),
        ensures
            final(self).wf(),
            *final(session) == step(old(self)@, *old(session), msg@, *tx).session,
            match outcome {
                Ok(reaped) => {
                    let taken = step(old(self)@, *old(session), msg@, *tx);
                    &&& taken.outcome matches Ok(room_id)
                    &&& sent_to(taken.hub, room_id, reaped@)
                    &&& final(self)@ == left_all(taken.hub, reaped@)
                },
                Err(error) => {
                    let dropped = step(old(self)@, *old(session), msg@, *tx);
                    &&& dropped.outcome == Err::<usize, SessionError>(error)
                    &&& final(self)@ == dropped.hub
                },
            },
    {
        match self.consume_message(session, msg, tx) {
            Ok(room_id) => Ok(self.broadcast_point(room_id, render)),
            Err(error) => Err(error),
        }
    }

    /// Ends a connection and sends the board of its room out again, so that
    /// those who stay see the departure. Gives those who were taken out
    /// because their queue did not take the board.
    pub fn hang_up<F: Fn(&Board) -> String>(&mut self, session: &mut Session, render: F) -> (reaped:
        Vec<usize>)
        requires
            old(self).wf(),
            forall|board: &Board| #[trigger] render.requires((board,)),
        ensures
            final(self).wf(),
            *final(session) == Session::Closed,
            final(self)@ == left_all(disconnected(old(self)@, *old(session)), reaped@),
            match room_left(*old(session)) {
                Some(room_id) => sent_to(
                    disconnected(old(self)@, *old(session)),
                    room_id,
                    reaped@,
                ),
                None => reaped@.len() == 0,
            },
    {
        match self.disconnect(session) {
            Some(room_id) => self.broadcast_point(room_id, render),
            None => Vec::new(),
        }
    }
}

} // verus!
