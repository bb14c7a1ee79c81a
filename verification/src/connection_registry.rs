//! The connection registry: for each room, the outbound queues of those who
//! are connected to it.

use crate::channel::{clone_outbound, Outbound};
use crate::id_list::{lemma_push_no_duplicates, lemma_without_no_duplicates, without};
use std::collections::HashMap;
use vstd::prelude::*;

verus! {

broadcast use vstd::std_specs::hash::group_hash_axioms;

/// One participant's way out: the id and the queue that leads to the client.
pub struct Connection {
    pub id: usize,
    pub tx: Outbound,
}

/// The ids of a list of connections, in its order.
pub open spec fn ids_of(list: Seq<Connection>) -> Seq<usize> {
    Seq::new(list.len(), |i: int| list[i].id)
}

/// The list with `connection` in it: in place of the one with the same id
/// where there is one, else at the end.
pub open spec fn list_with(list: Seq<Connection>, connection: Connection) -> Seq<Connection> {
    if ids_of(list).contains(connection.id) {
        list.update(ids_of(list).index_of(connection.id), connection)
    } else {
        list.push(connection)
    }
}

/// The list without the connections of `id`, the rest in the order it had.
pub open spec fn list_without(list: Seq<Connection>, id: usize) -> Seq<Connection>
    decreases list.len(),
{
    if list.len() == 0 {
        list
    } else if list.last().id == id {
        list_without(list.drop_last(), id)
    } else {
        list_without(list.drop_last(), id).push(list.last())
    }
}

/// The connections of a room; none where the registry has no entry for it.
pub open spec fn channels_of(registry: Map<usize, Seq<Connection>>, room_id: usize) -> Seq<
    Connection,
> {
    if registry.contains_key(room_id) {
        registry[room_id]
    } else {
        Seq::empty()
    }
}

/// The registry with `connection` registered for a room.
pub open spec fn registered(
    registry: Map<usize, Seq<Connection>>,
    room_id: usize,
    connection: Connection,
) -> Map<usize, Seq<Connection>> {
    registry.insert(room_id, list_with(channels_of(registry, room_id), connection))
}

/// The registry without the connection of `id` to a room. A room that is
/// left without connections has no entry.
pub open spec fn unregistered(
    registry: Map<usize, Seq<Connection>>,
    room_id: usize,
    id: usize,
) -> Map<usize, Seq<Connection>> {
    let rest = list_without(channels_of(registry, room_id), id);
    if rest.len() == 0 {
        registry.remove(room_id)
    } else {
        registry.insert(room_id, rest)
    }
}

/// No entry is empty, and no participant is connected twice to a room.
pub open spec fn registry_wf(registry: Map<usize, Seq<Connection>>) -> bool {
    forall|r: usize|
        registry.contains_key(r) ==> (#[trigger] registry[r]).len() > 0 && ids_of(
            registry[r],
        ).no_duplicates()
}

/// The ids of a list without the connections of `id` are its ids without
/// `id`.
pub proof fn lemma_list_without_ids(list: Seq<Connection>, id: usize)
    ensures
        ids_of(list_without(list, id)) == without(ids_of(list), id),
    decreases list.len(),
{
    if list.len() == 0 {
        assert(ids_of(list_without(list, id)) =~= without(ids_of(list), id));
    } else {
        let front = list.drop_last();
        lemma_list_without_ids(front, id);
        assert(ids_of(list).drop_last() =~= ids_of(front));
        if list.last().id == id {
        } else {
            assert(ids_of(list_without(front, id).push(list.last())) =~= ids_of(
                list_without(front, id),
            ).push(list.last().id));
        }
    }
}

/// The ids of a list with a connection in it: unchanged where the id was
/// there, else with the id at the end. The connection of that id is the new
/// one, and the others are the ones that were there.
pub proof fn lemma_list_with_ids(list: Seq<Connection>, connection: Connection)
    requires
        ids_of(list).no_duplicates(),
    ensures
        ids_of(list_with(list, connection)) == if ids_of(list).contains(connection.id) {
            ids_of(list)
        } else {
            ids_of(list).push(connection.id)
        },
        ids_of(list_with(list, connection)).no_duplicates(),
        list_with(list, connection).len() > 0,
{
    let ids = ids_of(list);
    let next = list_with(list, connection);
    if ids.contains(connection.id) {
        let at = ids.index_of(connection.id);
        assert(ids[at] == connection.id);
        assert(ids_of(next) =~= ids);
    } else {
        assert(ids_of(next) =~= ids.push(connection.id));
        lemma_push_no_duplicates(ids, connection.id);
    }
}

/// In a list without repetitions, taking out the connections of an id
/// removes the one place where it stands.
pub proof fn lemma_list_without_is_remove(list: Seq<Connection>, at: int)
    requires
        ids_of(list).no_duplicates(),
        0 <= at < list.len(),
    ensures
        list_without(list, list[at].id) == list.remove(at),
    decreases list.len(),
{
    let id = list[at].id;
    let front = list.drop_last();
    assert forall|i: int, j: int| 0 <= i < front.len() && 0 <= j < front.len() && i
        != j implies ids_of(front)[i] != ids_of(front)[j] by {
        assert(ids_of(list)[i] == ids_of(front)[i]);
        assert(ids_of(list)[j] == ids_of(front)[j]);
    }
    if at == list.len() - 1 {
        assert forall|i: int| 0 <= i < front.len() implies front[i].id != id by {
            assert(ids_of(list)[i] == front[i].id);
            assert(ids_of(list)[at] == id);
        }
        lemma_list_without_absent(front, id);
        assert(list.remove(at) =~= front);
    } else {
        assert(ids_of(list)[list.len() - 1] == list.last().id);
        assert(ids_of(list)[at] == id);
        assert(list.last().id != id);
        lemma_list_without_is_remove(front, at);
        assert(front.remove(at).push(list.last()) =~= list.remove(at));
    }
}

/// Taking out the connections of an id that has none changes nothing.
pub proof fn lemma_list_without_absent(list: Seq<Connection>, id: usize)
    requires
        forall|i: int| 0 <= i < list.len() ==> list[i].id != id,
    ensures
        list_without(list, id) == list,
    decreases list.len(),
{
    if list.len() > 0 {
        let front = list.drop_last();
        lemma_list_without_absent(front, id);
        assert(front.push(list.last()) =~= list);
    }
}

/// Registering keeps the registry well formed.
pub proof fn lemma_registered_wf(
    registry: Map<usize, Seq<Connection>>,
    room_id: usize,
    connection: Connection,
)
    requires
        registry_wf(registry),
    ensures
        registry_wf(registered(registry, room_id, connection)),
{
    let list = channels_of(registry, room_id);
    if !registry.contains_key(room_id) {
        assert(ids_of(list) =~= Seq::<usize>::empty());
    }
    lemma_list_with_ids(list, connection);
    let next = registered(registry, room_id, connection);
    assert forall|r: usize| next.contains_key(r) implies (#[trigger] next[r]).len() > 0
        && ids_of(next[r]).no_duplicates() by {
        if r != room_id {
            assert(registry[r].len() > 0);
        }
    }
}

/// Unregistering keeps the registry well formed.
pub proof fn lemma_unregistered_wf(registry: Map<usize, Seq<Connection>>, room_id: usize, id: usize)
    requires
        registry_wf(registry),
    ensures
        registry_wf(unregistered(registry, room_id, id)),
{
    let list = channels_of(registry, room_id);
    if !registry.contains_key(room_id) {
        assert(ids_of(list) =~= Seq::<usize>::empty());
    }
    lemma_list_without_ids(list, id);
    lemma_without_no_duplicates(ids_of(list), id);
    let next = unregistered(registry, room_id, id);
    assert forall|r: usize| next.contains_key(r) implies (#[trigger] next[r]).len() > 0
        && ids_of(next[r]).no_duplicates() by {
        if r != room_id {
            assert(registry[r].len() > 0);
        }
    }
}

/// The outbound queues by room.
pub struct ConnectionRegistry {
    channels: HashMap<usize, Vec<Connection>>,
}

impl View for ConnectionRegistry {
    type V = Map<usize, Seq<Connection>>;

    closed spec fn view(&self) -> Map<usize, Seq<Connection>> {
        Map::new(|r: usize| self.channels@.contains_key(r), |r: usize| self.channels@[r]@)
    }
}

/// The place of the connection of `id` in the list.
fn position(list: &Vec<Connection>, id: usize) -> (at: Option<usize>)
    ensures
        at is Some <==> ids_of(list@).contains(id),
        at matches Some(i) ==> i < list@.len() && list@[i as int].id == id,
{
    let mut i: usize = 0;
    while i < list.len()
        invariant
            0 <= i <= list.len(),
            forall|j: int| 0 <= j < i ==> list@[j].id != id,
        decreases list.len() - i,
    {
        if list[i].id == id {
            assert(ids_of(list@)[i as int] == id);
            return Some(i);
        }
        i = i + 1;
    }
    assert forall|j: int| 0 <= j < ids_of(list@).len() implies ids_of(list@)[j] != id by {
        assert(list@[j].id != id);
    }
    None
}

impl ConnectionRegistry {
    /// What holds of every registry.
    pub open spec fn wf(&self) -> bool {
        registry_wf(self@)
    }

    /// A registry without connections.
    pub fn new() -> (registry: ConnectionRegistry)
        ensures
            registry.wf(),
            registry@ == Map::<usize, Seq<Connection>>::empty(),
    {
        let registry = ConnectionRegistry { channels: HashMap::new() };
        assert(registry@ =~= Map::<usize, Seq<Connection>>::empty());
        registry
    }

    /// Registers the queue of a participant for a room. A second
    /// registration under the same id replaces the queue and keeps the place.
    pub fn register(&mut self, room_id: usize, id: usize, tx: Outbound)
        requires
            old(self).wf(),
        ensures
            final(self).wf(),
            final(self)@ == registered(old(self)@, room_id, Connection { id, tx }),
    {
        let mut list: Vec<Connection> = match self.channels.remove(&room_id) {
            Some(list) => list,
            None => Vec::new(),
        };
        let ghost before = list@;
        assert(before == channels_of(old(self)@, room_id));
        assert(ids_of(before).no_duplicates()) by {
            if !old(self)@.contains_key(room_id) {
                assert(ids_of(before) =~= Seq::<usize>::empty());
            }
        }
        match position(&list, id) {
            Some(at) => {
                list.set(at, Connection { id, tx });
                assert(ids_of(before)[at as int] == id);
                assert(ids_of(before).index_of(id) == at);
            },
            None => {
                list.push(Connection { id, tx });
            },
        }
        assert(list@ == list_with(before, Connection { id, tx }));
        self.channels.insert(room_id, list);
        proof {
            assert(self@ =~= registered(old(self)@, room_id, Connection { id, tx }));
            lemma_registered_wf(old(self)@, room_id, Connection { id, tx });
        }
    }

    /// Takes the queue of a participant out of a room.
    pub fn unregister(&mut self, room_id: usize, id: usize)
        requires
            old(self).wf(),
        ensures
            final(self).wf(),
            final(self)@ == unregistered(old(self)@, room_id, id),
    {
        match self.channels.remove(&room_id) {
            Some(list) => {
                let mut list: Vec<Connection> = list;
                let ghost before = list@;
                assert(before == channels_of(old(self)@, room_id));
                match position(&list, id) {
                    Some(at) => {
                        list.remove(at);
                        proof {
                            lemma_list_without_is_remove(before, at as int);
                        }
                    },
                    None => {
                        proof {
                            assert forall|i: int| 0 <= i < before.len() implies before[i].id
                                != id by {
                                assert(ids_of(before)[i] == before[i].id);
                            }
                            lemma_list_without_absent(before, id);
                        }
                    },
                }
                assert(list@ == list_without(before, id));
                if list.len() > 0 {
                    self.channels.insert(room_id, list);
                }
            },
            None => {},
        }
        proof {
            assert(self@ =~= unregistered(old(self)@, room_id, id));
            lemma_unregistered_wf(old(self)@, room_id, id);
        }
    }

    /// Takes every queue out of a room.
    pub fn drop_room(&mut self, room_id: usize)
        requires
            old(self).wf(),
        ensures
            final(self).wf(),
            final(self)@ == old(self)@.remove(room_id),
    {
        self.channels.remove(&room_id);
        assert(self@ =~= old(self)@.remove(room_id));
        assert forall|r: usize| self@.contains_key(r) implies (#[trigger] self@[r]).len() > 0
            && ids_of(self@[r]).no_duplicates() by {
            assert(old(self)@[r].len() > 0);
        }
    }

    /// The queues of a room as they are now, each with its participant, in
    /// the order in which they were first registered. The handles are copies:
    /// what the registry holds later does not change them.
    pub fn channels_for(&self, room_id: usize) -> (snapshot: Vec<Connection>)
        ensures
            snapshot@ == channels_of(self@, room_id),
    {
        let mut snapshot: Vec<Connection> = Vec::new();
        match self.channels.get(&room_id) {
            Some(list) => {
                let mut i: usize = 0;
                while i < list.len()
                    invariant
                        0 <= i <= list.len(),
                        snapshot@ == list@.take(i as int),
                    decreases list.len() - i,
                {
                    let connection = &list[i];
                    snapshot.push(
                        Connection { id: connection.id, tx: clone_outbound(&connection.tx) },
                    );
                    assert(list@.take(i + 1) =~= list@.take(i as int).push(list@[i as int]));
                    i = i + 1;
                }
                assert(list@.take(list.len() as int) =~= list@);
            },
            None => {},
        }
        snapshot
    }
}

} // verus!
