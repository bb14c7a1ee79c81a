//! What the pages show: the list of rooms, the form that creates one, and the
//! board page of one room.

use crate::hub::Hub;
use crate::models::Room;
use crate::room_registry::RegistryView;
use vstd::prelude::*;

verus! {

/// The board page of a room, before the visitor has joined.
pub struct PointingPageTemplate {
    pub id: String,
    pub point: String,
    pub room_id: u32,
    pub room_name: String,
}

/// The page with the form that creates a room.
pub struct CreateRoomTemplate {}

/// The page that lists the rooms.
pub struct RoomTemplate {
    pub rooms: Vec<Room>,
}

/// What is served under the address of a room.
pub enum Page {
    /// The board page of the room.
    Pointing(PointingPageTemplate),
    /// The list of rooms, where there is no such room.
    Rooms(RoomTemplate),
}

/// `rooms` are the rooms of the registry, in the order in which they were
/// created.
pub open spec fn lists(rooms: Seq<Room>, registry: RegistryView) -> bool {
    &&& rooms.len() == registry.order.len()
    &&& forall|i: int|
        0 <= i < rooms.len() ==> (#[trigger] rooms[i])@ == registry.rooms[registry.order[i]]
}

impl Hub {
    /// The page that lists the rooms.
    pub fn get_rooms(&self) -> (page: RoomTemplate)
        requires
            self.wf(),
        ensures
            lists(page.rooms@, self@.registry),
    {
        RoomTemplate { rooms: self.rooms() }
    }

    /// What is served under the address of the room `id`: its board page,
    /// with nothing filled in, or the list of rooms where there is no such
    /// room.
    pub fn points_page(&self, id: u32) -> (page: Page)
        requires
            self.wf(),
        ensures
            match page {
                Page::Pointing(pointing) => {
                    &&& self@.registry.rooms.contains_key(id as usize)
                    &&& pointing.room_id == id
                    &&& pointing.room_name@ == self@.registry.rooms[id as usize].name
                    &&& pointing.id@.len() == 0
                    &&& pointing.point@.len() == 0
                },
                Page::Rooms(listing) => {
                    &&& !self@.registry.rooms.contains_key(id as usize)
                    &&& lists(listing.rooms@, self@.registry)
                },
            },
    {
        match self.room(id as usize) {
            Some(room) => Page::Pointing(
                PointingPageTemplate {
                    id: String::new(),
                    point: String::new(),
                    room_id: id,
                    room_name: room.name.clone(),
                },
            ),
            None => Page::Rooms(self.get_rooms()),
        }
    }
}

} // verus!
