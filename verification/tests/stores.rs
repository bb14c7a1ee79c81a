use axum::extract::ws::Message;
use planning_poker::connection_registry::ConnectionRegistry;
use planning_poker::id_list::take_out;
use planning_poker::room_registry::RoomRegistry;
use planning_poker::vote_store::{VoteError, VoteStore};
use tokio::sync::mpsc::unbounded_channel;

fn vote_of(store: &VoteStore, id: usize) -> Option<String> {
    store.get(id).map(|point| point.point.to_text())
}

#[test]
fn a_new_participant_has_a_vote_of_zero() {
    let mut store = VoteStore::new();
    assert!(!store.contains(1));
    assert!(store.get(1).is_none());
    store.insert(1, "Alice".to_string());
    assert!(store.contains(1));
    let point = store.get(1).unwrap();
    assert_eq!(point.name, "Alice");
    assert!(point.point.is_zero());
}

#[test]
fn a_vote_is_set_from_text() {
    let mut store = VoteStore::new();
    store.insert(1, "Alice".to_string());
    store.insert(2, "Bob".to_string());
    assert_eq!(store.set_vote(1, "5"), Ok(()));
    assert_eq!(store.set_vote(2, "0.50"), Ok(()));
    assert_eq!(vote_of(&store, 1), Some("5".to_string()));
    assert_eq!(vote_of(&store, 2), Some("0.5".to_string()));
    assert_eq!(store.get(1).unwrap().name, "Alice");
    assert_eq!(store.get(2).unwrap().name, "Bob");
}

#[test]
fn an_invalid_vote_leaves_the_vote_as_it_was() {
    let mut store = VoteStore::new();
    store.insert(1, "Alice".to_string());
    assert_eq!(store.set_vote(1, "8"), Ok(()));
    for raw in ["", "eight", "-8", "inf", "NaN", "8 ", "1e1", "8.0.0"] {
        assert_eq!(store.set_vote(1, raw), Err(VoteError::InvalidVote), "{raw:?}");
        assert_eq!(vote_of(&store, 1), Some("8".to_string()), "{raw:?}");
        assert_eq!(store.get(1).unwrap().name, "Alice");
    }
}

#[test]
fn an_invalid_vote_is_told_before_an_unknown_participant() {
    let mut store = VoteStore::new();
    assert_eq!(store.set_vote(9, "x"), Err(VoteError::InvalidVote));
    assert_eq!(store.set_vote(9, "3"), Err(VoteError::UnknownParticipant));
    assert!(!store.contains(9));
}

#[test]
fn a_removed_participant_is_gone() {
    let mut store = VoteStore::new();
    store.insert(1, "Alice".to_string());
    store.insert(2, "Bob".to_string());
    store.remove(1);
    assert!(!store.contains(1));
    assert!(store.contains(2));
    store.remove(1);
    assert!(store.contains(2));
}

#[test]
fn all_cleared_holds_exactly_when_every_vote_is_zero() {
    let mut store = VoteStore::new();
    store.insert(1, "Alice".to_string());
    store.insert(2, "Bob".to_string());
    store.insert(3, "Carol".to_string());
    assert!(store.all_cleared(&vec![1, 2, 3]));
    store.set_vote(2, "0.5").unwrap();
    assert!(!store.all_cleared(&vec![1, 2, 3]));
    assert!(!store.all_cleared(&vec![2]));
    assert!(store.all_cleared(&vec![1, 3]));
    assert!(store.all_cleared(&vec![]));
    store.set_vote(2, "0.0").unwrap();
    assert!(store.all_cleared(&vec![1, 2, 3]));
}

#[test]
fn all_cleared_passes_over_ids_that_are_not_held() {
    let mut store = VoteStore::new();
    store.insert(1, "Alice".to_string());
    assert!(store.all_cleared(&vec![1, 7]));
    store.set_vote(1, "3").unwrap();
    assert!(store.all_cleared(&vec![7]));
    assert!(!store.all_cleared(&vec![7, 1]));
}

#[test]
fn clear_all_zeroes_the_listed_votes_and_keeps_everyone() {
    let mut store = VoteStore::new();
    store.insert(1, "Alice".to_string());
    store.insert(2, "Bob".to_string());
    store.insert(3, "Carol".to_string());
    store.set_vote(1, "5").unwrap();
    store.set_vote(2, "8").unwrap();
    store.set_vote(3, "13").unwrap();
    store.clear_all(&vec![1, 2, 9]);
    assert!(store.all_cleared(&vec![1, 2]));
    assert_eq!(vote_of(&store, 1), Some("0".to_string()));
    assert_eq!(vote_of(&store, 2), Some("0".to_string()));
    assert_eq!(vote_of(&store, 3), Some("13".to_string()));
    assert_eq!(store.get(1).unwrap().name, "Alice");
    assert_eq!(store.get(2).unwrap().name, "Bob");
    assert!(!store.contains(9));
}

#[test]
fn rooms_get_ids_that_grow_and_are_not_used_again() {
    let mut rooms = RoomRegistry::new();
    assert_eq!(rooms.create("one".to_string()), Some(1));
    assert_eq!(rooms.create("two".to_string()), Some(2));
    rooms.delete(2);
    assert_eq!(rooms.create("three".to_string()), Some(3));
    rooms.delete(1);
    rooms.delete(3);
    assert_eq!(rooms.create("four".to_string()), Some(4));
}

#[test]
fn a_new_room_hides_its_votes_and_is_empty() {
    let mut rooms = RoomRegistry::new();
    let id = rooms.create("sprint".to_string()).unwrap();
    assert!(rooms.contains(id));
    let room = rooms.get(id).unwrap();
    assert_eq!(room.room_id, id);
    assert_eq!(room.name, "sprint");
    assert!(!room.board_shown);
    assert!(rooms.members(id).is_empty());
    assert!(!rooms.contains(id + 1));
    assert!(rooms.get(id + 1).is_none());
}

#[test]
fn the_request_to_show_is_set_per_room() {
    let mut rooms = RoomRegistry::new();
    let a = rooms.create("a".to_string()).unwrap();
    let b = rooms.create("b".to_string()).unwrap();
    assert!(rooms.set_reveal_shown(a, true));
    assert!(rooms.get(a).unwrap().board_shown);
    assert!(!rooms.get(b).unwrap().board_shown);
    assert_eq!(rooms.get(a).unwrap().name, "a");
    assert!(rooms.set_reveal_shown(a, false));
    assert!(!rooms.get(a).unwrap().board_shown);
    assert!(!rooms.set_reveal_shown(99, true));
}

#[test]
fn members_enter_in_order_and_into_one_room_only() {
    let mut rooms = RoomRegistry::new();
    let a = rooms.create("a".to_string()).unwrap();
    let b = rooms.create("b".to_string()).unwrap();
    assert!(rooms.enter(a, 10));
    assert!(rooms.enter(a, 11));
    assert!(rooms.enter(b, 12));
    assert!(!rooms.enter(b, 10));
    assert!(!rooms.enter(a, 10));
    assert!(!rooms.enter(99, 13));
    assert_eq!(rooms.members(a), vec![10, 11]);
    assert_eq!(rooms.members(b), vec![12]);
    assert_eq!(rooms.room_of(10), Some(a));
    assert_eq!(rooms.room_of(12), Some(b));
    assert_eq!(rooms.room_of(13), None);
    assert!(rooms.members(99).is_empty());
}

#[test]
fn a_member_who_leaves_is_in_no_room() {
    let mut rooms = RoomRegistry::new();
    let a = rooms.create("a".to_string()).unwrap();
    rooms.enter(a, 10);
    rooms.enter(a, 11);
    rooms.enter(a, 12);
    assert_eq!(rooms.leave(11), Some(a));
    assert_eq!(rooms.members(a), vec![10, 12]);
    assert_eq!(rooms.room_of(11), None);
    assert_eq!(rooms.leave(11), None);
    assert_eq!(rooms.members(a), vec![10, 12]);
    assert!(rooms.enter(a, 11));
    assert_eq!(rooms.members(a), vec![10, 12, 11]);
}

#[test]
fn deleting_a_room_gives_its_members_and_frees_them() {
    let mut rooms = RoomRegistry::new();
    let a = rooms.create("a".to_string()).unwrap();
    let b = rooms.create("b".to_string()).unwrap();
    rooms.enter(a, 10);
    rooms.enter(b, 11);
    rooms.enter(a, 12);
    assert_eq!(rooms.delete(a), vec![10, 12]);
    assert!(!rooms.contains(a));
    assert!(rooms.members(a).is_empty());
    assert_eq!(rooms.room_of(10), None);
    assert_eq!(rooms.room_of(12), None);
    assert_eq!(rooms.room_of(11), Some(b));
    assert_eq!(rooms.members(b), vec![11]);
    assert!(rooms.delete(a).is_empty());
    assert!(rooms.enter(b, 10));
}

#[test]
fn rooms_are_listed_in_the_order_of_their_creation() {
    let mut rooms = RoomRegistry::new();
    assert!(rooms.list().is_empty());
    rooms.create("a".to_string());
    rooms.create("b".to_string());
    rooms.create("c".to_string());
    rooms.delete(2);
    rooms.create("d".to_string());
    rooms.set_reveal_shown(3, true);
    let list = rooms.list();
    let ids: Vec<usize> = list.iter().map(|room| room.room_id).collect();
    let names: Vec<String> = list.iter().map(|room| room.name.clone()).collect();
    let shown: Vec<bool> = list.iter().map(|room| room.board_shown).collect();
    assert_eq!(ids, vec![1, 3, 4]);
    assert_eq!(names, vec!["a", "c", "d"]);
    assert_eq!(shown, vec![false, true, false]);
}

#[test]
fn a_registered_queue_is_found_under_its_room() {
    let mut registry = ConnectionRegistry::new();
    let (tx, mut rx) = unbounded_channel::<Message>();
    registry.register(1, 10, tx);
    assert!(registry.channels_for(2).is_empty());
    let snapshot = registry.channels_for(1);
    assert_eq!(snapshot.len(), 1);
    assert_eq!(snapshot[0].id, 10);
    snapshot[0].tx.send(Message::Text("hello".to_string())).unwrap();
    assert_eq!(rx.try_recv().unwrap(), Message::Text("hello".to_string()));
}

#[test]
fn a_second_registration_replaces_the_queue_and_keeps_the_place() {
    let mut registry = ConnectionRegistry::new();
    let (first, mut first_rx) = unbounded_channel::<Message>();
    let (other, _other_rx) = unbounded_channel::<Message>();
    let (second, mut second_rx) = unbounded_channel::<Message>();
    registry.register(1, 10, first);
    registry.register(1, 11, other);
    registry.register(1, 10, second);
    let snapshot = registry.channels_for(1);
    let ids: Vec<usize> = snapshot.iter().map(|connection| connection.id).collect();
    assert_eq!(ids, vec![10, 11]);
    snapshot[0].tx.send(Message::Text("again".to_string())).unwrap();
    assert_eq!(second_rx.try_recv().unwrap(), Message::Text("again".to_string()));
    assert!(first_rx.try_recv().is_err());
}

#[test]
fn an_unregistered_queue_is_gone_from_its_room_only() {
    let mut registry = ConnectionRegistry::new();
    let (a, _a_rx) = unbounded_channel::<Message>();
    let (b, _b_rx) = unbounded_channel::<Message>();
    let (c, _c_rx) = unbounded_channel::<Message>();
    registry.register(1, 10, a);
    registry.register(1, 11, b);
    registry.register(2, 12, c);
    registry.unregister(1, 10);
    registry.unregister(2, 10);
    registry.unregister(3, 10);
    let ids: Vec<usize> = registry.channels_for(1).iter().map(|connection| connection.id).collect();
    assert_eq!(ids, vec![11]);
    assert_eq!(registry.channels_for(2).len(), 1);
    registry.unregister(1, 11);
    assert!(registry.channels_for(1).is_empty());
    registry.drop_room(2);
    assert!(registry.channels_for(2).is_empty());
}

#[test]
fn a_snapshot_is_not_changed_by_what_comes_later() {
    let mut registry = ConnectionRegistry::new();
    let (a, mut a_rx) = unbounded_channel::<Message>();
    registry.register(1, 10, a);
    let snapshot = registry.channels_for(1);
    registry.unregister(1, 10);
    assert!(registry.channels_for(1).is_empty());
    assert_eq!(snapshot.len(), 1);
    snapshot[0].tx.send(Message::Text("late".to_string())).unwrap();
    assert_eq!(a_rx.try_recv().unwrap(), Message::Text("late".to_string()));
}

#[test]
fn taking_out_of_an_id_list_keeps_the_rest_in_order() {
    let mut ids = vec![3, 1, 4, 1, 5];
    take_out(&mut ids, 1);
    assert_eq!(ids, vec![3, 4, 5]);
    take_out(&mut ids, 9);
    assert_eq!(ids, vec![3, 4, 5]);
    take_out(&mut ids, 3);
    take_out(&mut ids, 5);
    take_out(&mut ids, 4);
    assert!(ids.is_empty());
}

#[test]
fn the_last_id_of_a_registry_is_given_once() {
    let mut rooms = RoomRegistry::starting_at(usize::MAX - 1);
    assert_eq!(rooms.create("last".to_string()), Some(usize::MAX - 1));
    assert_eq!(rooms.create("none".to_string()), None);
    assert!(rooms.contains(usize::MAX - 1));
    assert!(!rooms.contains(usize::MAX));
    assert_eq!(rooms.list().len(), 1);
}
