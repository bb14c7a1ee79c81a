//! The records that travel between the clients and the rooms.

use crate::vote::{Estimate, Vote};
use vstd::prelude::*;

verus! {

/// One participant's entry in the vote store: the display name and the vote.
pub struct Point {
    pub point: Vote,
    pub name: String,
}

/// What a [`Point`] holds.
pub struct PointView {
    pub point: Estimate,
    pub name: Seq<char>,
}

impl View for Point {
    type V = PointView;

    open spec fn view(&self) -> PointView {
        PointView { point: self.point@, name: self.name@ }
    }
}

impl Clone for Point {
    fn clone(&self) -> (copy: Point)
        ensures
            copy@ == self@,
    {
        Point { point: self.point.clone(), name: self.name.clone() }
    }
}

impl PointView {
    /// The same participant with the vote taken back to zero.
    pub open spec fn cleared(self) -> PointView {
        PointView { point: Estimate::zero(), name: self.name }
    }

    /// The same participant with another vote.
    pub open spec fn with_vote(self, vote: Estimate) -> PointView {
        PointView { point: vote, name: self.name }
    }
}

/// A voting room.
pub struct Room {
    pub room_id: usize,
    pub name: String,
    /// Whether the votes were asked to be shown. What the board shows also
    /// depends on the votes themselves.
    pub board_shown: bool,
}

/// What a [`Room`] holds.
pub struct RoomView {
    pub room_id: usize,
    pub name: Seq<char>,
    pub board_shown: bool,
}

impl View for Room {
    type V = RoomView;

    open spec fn view(&self) -> RoomView {
        RoomView { room_id: self.room_id, name: self.name@, board_shown: self.board_shown }
    }
}

impl Clone for Room {
    fn clone(&self) -> (copy: Room)
        ensures
            copy@ == self@,
    {
        Room { room_id: self.room_id, name: self.name.clone(), board_shown: self.board_shown }
    }
}

impl RoomView {
    /// The same room with the request to show the votes set to `shown`.
    pub open spec fn with_shown(self, shown: bool) -> RoomView {
        RoomView { room_id: self.room_id, name: self.name, board_shown: shown }
    }
}

/// The form that creates a room.
pub struct CreateRoomForm {
    pub name: String,
}

/// A message from a client. Every field may be missing; which of them are
/// there says what the client asks for.
pub struct WSMessage {
    pub room_id: Option<String>,
    pub name: Option<String>,
    pub point: Option<String>,
    pub id: Option<String>,
    pub show: Option<String>,
    pub clear: Option<String>,
}

/// What a [`WSMessage`] holds.
pub struct WSMessageView {
    pub room_id: Option<Seq<char>>,
    pub name: Option<Seq<char>>,
    pub point: Option<Seq<char>>,
    pub id: Option<Seq<char>>,
    pub show: Option<Seq<char>>,
    pub clear: Option<Seq<char>>,
}

/// The text of an optional field.
pub open spec fn field_view(field: Option<String>) -> Option<Seq<char>> {
    match field {
        Some(text) => Some(text@),
        None => None,
    }
}

impl View for WSMessage {
    type V = WSMessageView;

    open spec fn view(&self) -> WSMessageView {
        WSMessageView {
            room_id: field_view(self.room_id),
            name: field_view(self.name),
            point: field_view(self.point),
            id: field_view(self.id),
            show: field_view(self.show),
            clear: field_view(self.clear),
        }
    }
}

/// What a client asks for.
#[derive(Clone, Copy, Debug, PartialEq, Eq, Structural)]
pub enum Request {
    /// To enter a room under a display name.
    Join,
    /// To change the own vote.
    Vote,
    /// To show or hide the votes of the room.
    Reveal,
    /// To take every vote of the room back to zero.
    Clear,
    /// Nothing that can be told: the message is dropped.
    Malformed,
}

impl WSMessageView {
    /// The message carries the mark of a join: an `id` that is there and
    /// empty.
    pub open spec fn asks_join(self) -> bool {
        self.id matches Some(id) && id.len() == 0
    }

    /// How many of the four requests the message carries.
    pub open spec fn requests(self) -> nat {
        let join: nat = if self.asks_join() {
            1
        } else {
            0
        };
        let vote: nat = if self.point is Some {
            1
        } else {
            0
        };
        let reveal: nat = if self.show is Some {
            1
        } else {
            0
        };
        let clear: nat = if self.clear is Some {
            1
        } else {
            0
        };
        join + vote + reveal + clear
    }

    /// What the message asks for. A message that carries no request, or
    /// more than one, is malformed, and so is a join without a room or
    /// without a name.
    pub open spec fn request(self) -> Request {
        if self.requests() != 1 {
            Request::Malformed
        } else if self.asks_join() {
            if self.room_id is Some && self.name is Some {
                Request::Join
            } else {
                Request::Malformed
            }
        } else if self.point is Some {
            Request::Vote
        } else if self.show is Some {
            Request::Reveal
        } else {
            Request::Clear
        }
    }
}

impl WSMessage {
    /// Tells what the message asks for.
    pub fn request(&self) -> (request: Request)
        ensures
            request == self@.request(),
    {
        let join: bool = match &self.id {
            Some(id) => id.as_str().is_empty(),
            None => false,
        };
        let vote: bool = self.point.is_some();
        let reveal: bool = self.show.is_some();
        let clear: bool = self.clear.is_some();
        if join {
            if vote || reveal || clear || self.room_id.is_none() || self.name.is_none() {
                Request::Malformed
            } else {
                Request::Join
            }
        } else if vote {
            if reveal || clear {
                Request::Malformed
            } else {
                Request::Vote
            }
        } else if reveal {
            if clear {
                Request::Malformed
            } else {
                Request::Reveal
            }
        } else if clear {
            Request::Clear
        } else {
            Request::Malformed
        }
    }
}

} // verus!
