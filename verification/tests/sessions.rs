use axum::extract::ws::Message;
use planning_poker::broadcast::{Board, Toggle};
use planning_poker::hub::Hub;
use planning_poker::models::{CreateRoomForm, WSMessage};
use planning_poker::session::{Session, SessionError};
use tokio::sync::mpsc::{unbounded_channel, UnboundedReceiver, UnboundedSender};

fn channel() -> (UnboundedSender<Message>, UnboundedReceiver<Message>) {
    unbounded_channel::<Message>()
}

fn empty() -> WSMessage {
    WSMessage { room_id: None, name: None, point: None, id: None, show: None, clear: None }
}

fn some(text: &str) -> Option<String> {
    Some(text.to_string())
}

fn join(room: &str, name: &str) -> WSMessage {
    WSMessage { id: some(""), room_id: some(room), name: some(name), ..empty() }
}

fn vote(point: &str) -> WSMessage {
    WSMessage { point: some(point), ..empty() }
}

fn show(value: &str, room: &str) -> WSMessage {
    WSMessage { show: some(value), room_id: some(room), ..empty() }
}

fn clear(room: &str) -> WSMessage {
    WSMessage { clear: some("true"), room_id: some(room), ..empty() }
}

fn hub_with_rooms(count: usize) -> Hub {
    let mut hub = Hub::new();
    for i in 0..count {
        hub.create_room(CreateRoomForm { name: format!("room {}", i + 1) }).unwrap();
    }
    hub
}

fn render(board: &Board) -> String {
    let mut text = String::new();
    text.push_str(if board.shown { "shown" } else { "hidden" });
    for entry in &board.entries {
        text.push_str(&format!(" {}:{}", entry.name, entry.vote.to_text()));
    }
    text
}

fn received(rx: &mut UnboundedReceiver<Message>) -> Vec<String> {
    let mut texts = Vec::new();
    while let Ok(message) = rx.try_recv() {
        match message {
            Message::Text(text) => texts.push(text),
            other => texts.push(format!("{other:?}")),
        }
    }
    texts
}

#[test]
fn a_join_moves_the_session_into_the_room() {
    let mut hub = hub_with_rooms(2);
    let (tx, _rx) = channel();
    let mut session = Session::Connecting;
    assert_eq!(hub.consume_message(&mut session, &join("2", "Alice"), &tx), Ok(2));
    assert_eq!(session, Session::Joined { id: 1, room_id: 2 });
    assert_eq!(hub.members(2), vec![1]);
    assert_eq!(hub.point(1).unwrap().name, "Alice");
    assert_eq!(hub.channels_for(2).len(), 1);
    assert!(hub.members(1).is_empty());
}

#[test]
fn the_queue_of_the_join_is_the_one_that_is_served() {
    let mut hub = hub_with_rooms(1);
    let (tx, mut rx) = channel();
    let mut session = Session::Connecting;
    hub.consume_message(&mut session, &join("1", "Alice"), &tx).unwrap();
    hub.broadcast_point(1, render);
    assert_eq!(received(&mut rx), vec!["hidden Alice:0"]);
}

#[test]
fn a_join_to_an_unknown_room_closes_the_session() {
    let mut hub = hub_with_rooms(1);
    hub.create_room(CreateRoomForm { name: "gone".to_string() });
    hub.delete_room(2);
    let (tx, mut rx) = channel();
    for room in ["2", "3", "0", "abc", "", "-1", "1.0", "99999999999999999999999999"] {
        let mut session = Session::Connecting;
        assert_eq!(
            hub.consume_message(&mut session, &join(room, "Mallory"), &tx),
            Err(SessionError::UnknownRoom),
            "{room:?}"
        );
        assert_eq!(session, Session::Closed);
    }
    for room_id in 0..5 {
        assert!(hub.members(room_id).is_empty());
        assert!(hub.channels_for(room_id).is_empty());
    }
    assert!(hub.point(1).is_none());
    assert!(received(&mut rx).is_empty());
    // The failed joins took no id.
    let mut session = Session::Connecting;
    assert_eq!(hub.consume_message(&mut session, &join("1", "Alice"), &tx), Ok(1));
    assert_eq!(session, Session::Joined { id: 1, room_id: 1 });
}

#[test]
fn before_the_join_every_other_message_is_dropped() {
    let mut hub = hub_with_rooms(1);
    let (tx, _rx) = channel();
    let mut session = Session::Connecting;
    for msg in [vote("3"), show("true", "1"), clear("1"), empty()] {
        assert_eq!(
            hub.consume_message(&mut session, &msg, &tx),
            Err(SessionError::MalformedMessage)
        );
        assert_eq!(session, Session::Connecting);
    }
    assert!(!hub.room(1).unwrap().board_shown);
    assert_eq!(hub.consume_message(&mut session, &join("1", "Alice"), &tx), Ok(1));
}

#[test]
fn a_second_join_is_dropped() {
    let mut hub = hub_with_rooms(2);
    let (tx, _rx) = channel();
    let mut session = Session::Connecting;
    hub.consume_message(&mut session, &join("1", "Alice"), &tx).unwrap();
    assert_eq!(
        hub.consume_message(&mut session, &join("2", "Alice"), &tx),
        Err(SessionError::MalformedMessage)
    );
    assert_eq!(session, Session::Joined { id: 1, room_id: 1 });
    assert_eq!(hub.members(1), vec![1]);
    assert!(hub.members(2).is_empty());
}

#[test]
fn a_vote_changes_the_vote_of_the_sender_only() {
    let mut hub = hub_with_rooms(1);
    let (tx, _rx) = channel();
    let mut alice = Session::Connecting;
    let mut bob = Session::Connecting;
    hub.consume_message(&mut alice, &join("1", "Alice"), &tx).unwrap();
    hub.consume_message(&mut bob, &join("1", "Bob"), &tx).unwrap();
    assert_eq!(hub.consume_message(&mut bob, &vote("8"), &tx), Ok(1));
    assert_eq!(hub.point(1).unwrap().point.to_text(), "0");
    assert_eq!(hub.point(2).unwrap().point.to_text(), "8");
    assert_eq!(bob, Session::Joined { id: 2, room_id: 1 });
}

#[test]
fn an_invalid_vote_changes_nothing_and_keeps_the_session() {
    let mut hub = hub_with_rooms(1);
    let (tx, mut rx) = channel();
    let mut session = Session::Connecting;
    hub.consume_message(&mut session, &join("1", "Alice"), &tx).unwrap();
    hub.consume_message(&mut session, &vote("3"), &tx).unwrap();
    for raw in ["", "three", "-3", "inf", "nan", "3e0"] {
        assert_eq!(
            hub.consume_message(&mut session, &vote(raw), &tx),
            Err(SessionError::InvalidVote),
            "{raw:?}"
        );
        assert_eq!(session, Session::Joined { id: 1, room_id: 1 });
        assert_eq!(hub.point(1).unwrap().point.to_text(), "3");
    }
    assert!(received(&mut rx).is_empty());
    assert_eq!(hub.consume_message(&mut session, &vote("5"), &tx), Ok(1));
    assert_eq!(hub.point(1).unwrap().point.to_text(), "5");
}

#[test]
fn show_sets_the_request_of_the_own_room() {
    let mut hub = hub_with_rooms(2);
    let (tx, _rx) = channel();
    let mut session = Session::Connecting;
    hub.consume_message(&mut session, &join("1", "Alice"), &tx).unwrap();
    assert_eq!(hub.consume_message(&mut session, &show("true", "2"), &tx), Ok(1));
    assert!(hub.room(1).unwrap().board_shown);
    assert!(!hub.room(2).unwrap().board_shown);
    assert_eq!(hub.consume_message(&mut session, &show("false", "1"), &tx), Ok(1));
    assert!(!hub.room(1).unwrap().board_shown);
}

#[test]
fn a_show_that_is_neither_true_nor_false_changes_nothing() {
    let mut hub = hub_with_rooms(1);
    let (tx, _rx) = channel();
    let mut session = Session::Connecting;
    hub.consume_message(&mut session, &join("1", "Alice"), &tx).unwrap();
    for value in ["", "True", "TRUE", "yes", "1", "true ", "fals"] {
        assert_eq!(hub.consume_message(&mut session, &show(value, "1"), &tx), Ok(1));
        assert!(!hub.room(1).unwrap().board_shown, "{value:?}");
    }
    hub.consume_message(&mut session, &show("true", "1"), &tx).unwrap();
    for value in ["", "False", "no", "0"] {
        assert_eq!(hub.consume_message(&mut session, &show(value, "1"), &tx), Ok(1));
        assert!(hub.room(1).unwrap().board_shown, "{value:?}");
    }
}

#[test]
fn clear_zeroes_every_vote_of_the_own_room() {
    let mut hub = hub_with_rooms(2);
    let (tx, _rx) = channel();
    let mut alice = Session::Connecting;
    let mut bob = Session::Connecting;
    let mut zed = Session::Connecting;
    hub.consume_message(&mut alice, &join("1", "Alice"), &tx).unwrap();
    hub.consume_message(&mut bob, &join("1", "Bob"), &tx).unwrap();
    hub.consume_message(&mut zed, &join("2", "Zed"), &tx).unwrap();
    hub.consume_message(&mut alice, &vote("3"), &tx).unwrap();
    hub.consume_message(&mut bob, &vote("5"), &tx).unwrap();
    hub.consume_message(&mut zed, &vote("8"), &tx).unwrap();
    assert_eq!(hub.consume_message(&mut bob, &clear("2"), &tx), Ok(1));
    assert!(hub.point(1).unwrap().point.is_zero());
    assert!(hub.point(2).unwrap().point.is_zero());
    assert_eq!(hub.point(3).unwrap().point.to_text(), "8");
    assert_eq!(hub.members(1), vec![1, 2]);
}

#[test]
fn a_malformed_message_is_dropped_and_the_connection_goes_on() {
    let mut hub = hub_with_rooms(1);
    let (tx, _rx) = channel();
    let mut session = Session::Connecting;
    hub.consume_message(&mut session, &join("1", "Alice"), &tx).unwrap();
    let both = WSMessage { point: some("3"), show: some("true"), ..empty() };
    assert_eq!(
        hub.consume_message(&mut session, &both, &tx),
        Err(SessionError::MalformedMessage)
    );
    assert_eq!(
        hub.consume_message(&mut session, &empty(), &tx),
        Err(SessionError::MalformedMessage)
    );
    assert_eq!(session, Session::Joined { id: 1, room_id: 1 });
    assert!(hub.point(1).unwrap().point.is_zero());
    assert!(!hub.room(1).unwrap().board_shown);
    assert_eq!(hub.consume_message(&mut session, &vote("3"), &tx), Ok(1));
}

#[test]
fn a_closed_session_takes_no_message() {
    let mut hub = hub_with_rooms(1);
    let (tx, _rx) = channel();
    let mut session = Session::Closed;
    for msg in [join("1", "Alice"), vote("3"), show("true", "1"), clear("1"), empty()] {
        assert_eq!(hub.consume_message(&mut session, &msg, &tx), Err(SessionError::Closed));
        assert_eq!(session, Session::Closed);
    }
    assert!(hub.members(1).is_empty());
}

#[test]
fn a_disconnect_takes_the_participant_out_and_names_the_room() {
    let mut hub = hub_with_rooms(1);
    let (tx, _rx) = channel();
    let mut alice = Session::Connecting;
    let mut bob = Session::Connecting;
    hub.consume_message(&mut alice, &join("1", "Alice"), &tx).unwrap();
    hub.consume_message(&mut bob, &join("1", "Bob"), &tx).unwrap();
    assert_eq!(hub.disconnect(&mut alice), Some(1));
    assert_eq!(alice, Session::Closed);
    assert_eq!(hub.members(1), vec![2]);
    assert!(hub.point(1).is_none());
    assert_eq!(hub.channels_for(1).len(), 1);
    assert_eq!(hub.disconnect(&mut alice), None);
    assert_eq!(hub.members(1), vec![2]);
}

#[test]
fn a_disconnect_before_the_join_changes_nothing() {
    let mut hub = hub_with_rooms(1);
    let mut session = Session::Connecting;
    assert_eq!(hub.disconnect(&mut session), None);
    assert_eq!(session, Session::Closed);
}

#[test]
fn a_session_of_a_deleted_room_is_closed_at_its_next_message() {
    let mut hub = hub_with_rooms(2);
    let (tx, mut rx) = channel();
    let mut alice = Session::Connecting;
    hub.consume_message(&mut alice, &join("1", "Alice"), &tx).unwrap();
    assert_eq!(hub.delete_room(1), vec![1]);
    assert_eq!(received(&mut rx), vec!["Close(None)"]);
    assert_eq!(hub.consume_message(&mut alice, &vote("3"), &tx), Err(SessionError::Closed));
    assert_eq!(alice, Session::Closed);
    assert!(hub.point(1).is_none());
    assert!(hub.broadcast_point(1, render).is_empty());
}

#[test]
fn a_session_with_another_room_than_its_own_is_closed() {
    let mut hub = hub_with_rooms(2);
    let (tx, _rx) = channel();
    let mut alice = Session::Connecting;
    hub.consume_message(&mut alice, &join("1", "Alice"), &tx).unwrap();
    let mut forged = Session::Joined { id: 1, room_id: 2 };
    assert_eq!(hub.consume_message(&mut forged, &clear("2"), &tx), Err(SessionError::Closed));
    assert_eq!(forged, Session::Closed);
    assert_eq!(hub.members(1), vec![1]);
    assert!(hub.members(2).is_empty());
}

#[test]
fn a_disconnect_takes_the_participant_out_of_whatever_room() {
    let mut hub = hub_with_rooms(2);
    let (tx, _rx) = channel();
    let mut alice = Session::Connecting;
    hub.consume_message(&mut alice, &join("1", "Alice"), &tx).unwrap();
    let mut other = Session::Joined { id: 1, room_id: 2 };
    assert_eq!(hub.disconnect(&mut other), Some(2));
    assert_eq!(other, Session::Closed);
    assert!(hub.members(1).is_empty());
    assert!(hub.point(1).is_none());
    assert!(hub.channels_for(1).is_empty());
}

#[test]
fn a_message_that_is_taken_sends_the_board_out() {
    let mut hub = hub_with_rooms(1);
    let (a_tx, mut a_rx) = channel();
    let (b_tx, mut b_rx) = channel();
    let mut a = Session::Connecting;
    let mut b = Session::Connecting;
    assert_eq!(hub.receive(&mut a, &join("1", "A"), &a_tx, render), Ok(vec![]));
    assert_eq!(hub.receive(&mut b, &join("1", "B"), &b_tx, render), Ok(vec![]));
    assert_eq!(hub.receive(&mut b, &vote("8"), &b_tx, render), Ok(vec![]));
    assert_eq!(hub.receive(&mut a, &show("true", "1"), &a_tx, render), Ok(vec![]));
    assert_eq!(hub.receive(&mut a, &show("perhaps", "1"), &a_tx, render), Ok(vec![]));
    assert_eq!(hub.receive(&mut b, &clear("1"), &b_tx, render), Ok(vec![]));
    assert_eq!(
        received(&mut a_rx),
        vec![
            "hidden A:0",
            "hidden A:0 B:0",
            "hidden A:0 B:8",
            "shown A:0 B:8",
            "shown A:0 B:8",
            "hidden A:0 B:0"
        ]
    );
    assert_eq!(
        received(&mut b_rx),
        vec!["hidden A:0 B:0", "hidden A:0 B:8", "shown A:0 B:8", "shown A:0 B:8", "hidden A:0 B:0"]
    );
}

#[test]
fn a_message_that_changes_nothing_sends_no_board() {
    let mut hub = hub_with_rooms(1);
    let (tx, mut rx) = channel();
    let mut session = Session::Connecting;
    assert_eq!(
        hub.receive(&mut session, &vote("3"), &tx, render),
        Err(SessionError::MalformedMessage)
    );
    assert_eq!(
        hub.receive(&mut session, &join("9", "A"), &tx, render),
        Err(SessionError::UnknownRoom)
    );
    assert_eq!(session, Session::Closed);
    assert_eq!(hub.receive(&mut session, &join("1", "A"), &tx, render), Err(SessionError::Closed));
    let mut session = Session::Connecting;
    hub.receive(&mut session, &join("1", "A"), &tx, render).unwrap();
    assert_eq!(received(&mut rx), vec!["hidden A:0"]);
    assert_eq!(
        hub.receive(&mut session, &vote("x"), &tx, render),
        Err(SessionError::InvalidVote)
    );
    assert_eq!(
        hub.receive(&mut session, &empty(), &tx, render),
        Err(SessionError::MalformedMessage)
    );
    assert!(received(&mut rx).is_empty());
    assert_eq!(session, Session::Joined { id: 1, room_id: 1 });
}

#[test]
fn a_message_tells_who_was_reaped_by_its_broadcast() {
    let mut hub = hub_with_rooms(1);
    let (a_tx, a_rx) = channel();
    let (b_tx, mut b_rx) = channel();
    let mut a = Session::Connecting;
    let mut b = Session::Connecting;
    hub.receive(&mut a, &join("1", "A"), &a_tx, render).unwrap();
    hub.receive(&mut b, &join("1", "B"), &b_tx, render).unwrap();
    drop(a_rx);
    assert_eq!(hub.receive(&mut b, &vote("2"), &b_tx, render), Ok(vec![1]));
    assert_eq!(hub.receive(&mut b, &vote("3"), &b_tx, render), Ok(vec![]));
    assert_eq!(received(&mut b_rx), vec!["hidden A:0 B:0", "hidden A:0 B:2", "hidden B:3"]);
    assert_eq!(hub.receive(&mut a, &vote("1"), &a_tx, render), Err(SessionError::Closed));
}

#[test]
fn hanging_up_shows_the_departure_to_those_who_stay() {
    let mut hub = hub_with_rooms(1);
    let (a_tx, mut a_rx) = channel();
    let (b_tx, mut b_rx) = channel();
    let mut a = Session::Connecting;
    let mut b = Session::Connecting;
    hub.receive(&mut a, &join("1", "A"), &a_tx, render).unwrap();
    hub.receive(&mut b, &join("1", "B"), &b_tx, render).unwrap();
    received(&mut a_rx);
    received(&mut b_rx);
    assert!(hub.hang_up(&mut a, render).is_empty());
    assert_eq!(a, Session::Closed);
    assert_eq!(received(&mut b_rx), vec!["hidden B:0"]);
    assert!(received(&mut a_rx).is_empty());
    assert_eq!(hub.members(1), vec![2]);
    assert!(hub.point(1).is_none());
    assert!(hub.hang_up(&mut a, render).is_empty());
    assert!(received(&mut b_rx).is_empty());
}

#[test]
fn hanging_up_before_the_join_sends_nothing() {
    let mut hub = hub_with_rooms(1);
    let (tx, mut rx) = channel();
    let mut a = Session::Connecting;
    hub.receive(&mut a, &join("1", "A"), &tx, render).unwrap();
    received(&mut rx);
    let mut idle = Session::Connecting;
    assert!(hub.hang_up(&mut idle, render).is_empty());
    assert_eq!(idle, Session::Closed);
    assert!(received(&mut rx).is_empty());
    assert_eq!(hub.members(1), vec![1]);
}

// Alice joins room 1, votes, the votes are revealed, then cleared.
#[test]
fn one_participant_votes_reveals_and_clears() {
    let mut hub = hub_with_rooms(1);
    let (tx, mut rx) = channel();
    let mut alice = Session::Connecting;

    let room = hub.consume_message(&mut alice, &join("1", "Alice"), &tx).unwrap();
    assert_eq!(room, 1);
    let board = hub.board(room).unwrap();
    assert_eq!(board.entries.len(), 1);
    assert_eq!(board.entries[0].name, "Alice");
    assert_eq!(board.entries[0].vote.to_text(), "0");
    assert!(board.entries[0].vote.is_zero());
    assert!(!board.shown);
    assert!(hub.broadcast_point(room, render).is_empty());

    let room = hub.consume_message(&mut alice, &vote("5"), &tx).unwrap();
    let board = hub.board(room).unwrap();
    assert_eq!(board.entries[0].name, "Alice");
    assert_eq!(board.entries[0].vote.to_text(), "5");
    assert!(board.entries[0].checked);
    assert!(!board.shown);
    assert_eq!(board.toggle(), Toggle::Show);
    assert!(hub.broadcast_point(room, render).is_empty());

    let room = hub.consume_message(&mut alice, &show("true", "1"), &tx).unwrap();
    let board = hub.board(room).unwrap();
    assert!(board.shown);
    assert_eq!(board.toggle(), Toggle::Hide);
    assert_eq!(board.entries[0].vote.to_text(), "5");
    assert!(hub.broadcast_point(room, render).is_empty());

    let room = hub.consume_message(&mut alice, &clear("1"), &tx).unwrap();
    let board = hub.board(room).unwrap();
    assert_eq!(board.entries[0].vote.to_text(), "0");
    assert!(!board.entries[0].checked);
    assert!(!board.shown);
    assert_eq!(board.toggle(), Toggle::Show);
    assert!(hub.room(1).unwrap().board_shown);
    assert!(hub.broadcast_point(room, render).is_empty());

    assert_eq!(
        received(&mut rx),
        vec!["hidden Alice:0", "hidden Alice:5", "shown Alice:5", "hidden Alice:0"]
    );
}

// Two participants; the queue of the first one dies.
#[test]
fn a_participant_whose_queue_died_is_missing_from_the_next_board() {
    let mut hub = hub_with_rooms(1);
    let (a_tx, a_rx) = channel();
    let (b_tx, mut b_rx) = channel();
    let mut a = Session::Connecting;
    let mut b = Session::Connecting;
    let room = hub.consume_message(&mut a, &join("1", "A"), &a_tx).unwrap();
    hub.broadcast_point(room, render);
    let room = hub.consume_message(&mut b, &join("1", "B"), &b_tx).unwrap();
    hub.broadcast_point(room, render);
    assert_eq!(received(&mut b_rx), vec!["hidden A:0 B:0"]);

    drop(a_rx);
    let room = hub.consume_message(&mut b, &vote("3"), &b_tx).unwrap();
    assert_eq!(hub.broadcast_point(room, render), vec![1]);
    assert_eq!(received(&mut b_rx), vec!["hidden A:0 B:3"]);
    let ids: Vec<usize> = hub.channels_for(1).iter().map(|connection| connection.id).collect();
    assert_eq!(ids, vec![2]);
    assert_eq!(hub.members(1), vec![2]);
    assert!(hub.point(1).is_none());

    let room = hub.consume_message(&mut b, &vote("5"), &b_tx).unwrap();
    assert!(hub.broadcast_point(room, render).is_empty());
    assert_eq!(received(&mut b_rx), vec!["hidden B:5"]);
    let board = hub.board(1).unwrap();
    assert_eq!(board.entries.len(), 1);
    assert_eq!(board.entries[0].name, "B");

    // What is left of the first connection is closed at its next message.
    assert_eq!(hub.consume_message(&mut a, &vote("1"), &a_tx), Err(SessionError::Closed));
    assert_eq!(a, Session::Closed);
    assert_eq!(hub.disconnect(&mut a), None);
    assert_eq!(hub.members(1), vec![2]);
}

// A join that names a room that was deleted, or never was.
#[test]
fn a_join_to_a_deleted_room_is_rejected_and_leaves_no_trace() {
    let mut hub = hub_with_rooms(2);
    hub.delete_room(1);
    let (tx, mut rx) = channel();
    let mut deleted = Session::Connecting;
    assert_eq!(
        hub.consume_message(&mut deleted, &join("1", "Alice"), &tx),
        Err(SessionError::UnknownRoom)
    );
    assert_eq!(deleted, Session::Closed);
    let mut never = Session::Connecting;
    assert_eq!(
        hub.consume_message(&mut never, &join("7", "Alice"), &tx),
        Err(SessionError::UnknownRoom)
    );
    assert_eq!(never, Session::Closed);
    for room_id in [1, 2, 7] {
        assert!(hub.members(room_id).is_empty());
        assert!(hub.channels_for(room_id).is_empty());
    }
    assert!(hub.point(1).is_none());
    assert!(hub.point(2).is_none());
    assert!(received(&mut rx).is_empty());
    assert_eq!(hub.consume_message(&mut deleted, &vote("3"), &tx), Err(SessionError::Closed));
}

#[test]
fn a_join_without_a_free_id_closes_the_session() {
    let mut hub = Hub::starting_at(1, usize::MAX);
    hub.create_room(CreateRoomForm { name: "a".to_string() }).unwrap();
    let (tx, mut rx) = channel();
    let mut session = Session::Connecting;
    assert_eq!(
        hub.consume_message(&mut session, &join("1", "Alice"), &tx),
        Err(SessionError::Exhausted)
    );
    assert_eq!(session, Session::Closed);
    assert!(hub.members(1).is_empty());
    assert!(hub.channels_for(1).is_empty());
    let mut session = Session::Connecting;
    assert_eq!(
        hub.consume_message(&mut session, &join("2", "Alice"), &tx),
        Err(SessionError::UnknownRoom)
    );
    assert!(received(&mut rx).is_empty());
}
