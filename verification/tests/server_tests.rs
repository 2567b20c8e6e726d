use trust_chat::contracts::{
    ChatRoomContract, ChatRoomError, ChatServerError, Delivery, DisconnectContract,
};
use trust_chat::room::Room;
use trust_chat::server::TrustServer;

fn join(server: &mut TrustServer, id: &str, room: &str, name: &str) -> (
    Result<String, ChatServerError>,
    Vec<Delivery>,
) {
    server.handle_command(ChatRoomContract::Join {
        user_id: String::from(id),
        username: String::from(name),
        room_name: String::from(room),
        raw: format!("join {} {}", room, name),
    })
}

fn say(server: &mut TrustServer, id: &str, text: &str) -> (
    Result<String, ChatServerError>,
    Vec<Delivery>,
) {
    server.handle_command(ChatRoomContract::BroadcastMessage {
        user_id: String::from(id),
        content: String::from(text),
    })
}

fn texts_for<'a>(deliveries: &'a [Delivery], id: &str) -> Vec<&'a str> {
    deliveries
        .iter()
        .filter(|d| d.user_id == id)
        .map(|d| d.message.0.as_str())
        .collect()
}

#[test]
fn connect_returns_distinct_ids() {
    let mut server = TrustServer::default();
    let a = server.handle_new_connection().unwrap();
    let b = server.handle_new_connection().unwrap();
    let c = server.handle_new_connection().unwrap();
    assert_ne!(a, b);
    assert_ne!(a, c);
    assert_ne!(b, c);
}

#[test]
fn registering_an_issued_id_again_is_a_collision() {
    let mut server = TrustServer::default();
    let a = server.handle_new_connection().unwrap();
    let r = server.register_connection(a.clone());
    assert!(r.is_err());
    // even after the session disconnects, its id stays issued
    server.handle_disconnect(DisconnectContract { user_id: a.clone() });
    assert!(server.register_connection(a).is_err());
}

#[test]
fn join_with_unknown_id_is_invalid_and_changes_nothing() {
    let mut server = TrustServer::default();
    let a = server.handle_new_connection().unwrap();
    join(&mut server, &a, "lobby", "alice").0.unwrap();

    let (res, deliveries) = join(&mut server, "no-such-id", "lobby", "mallory");
    assert!(matches!(
        res,
        Err(ChatServerError::ChatRoomError(ChatRoomError::InvalidUserId(_)))
    ));
    assert!(deliveries.is_empty());

    // the room still holds exactly alice
    let (_, echo) = say(&mut server, &a, "still here");
    assert_eq!(echo.len(), 1);
    assert_eq!(echo[0].user_id, a);
    assert_eq!(echo[0].message.0, "alice: still here<NL>");
}

#[test]
fn join_then_disconnect_removes_the_empty_room() {
    let mut server = TrustServer::default();
    let a = server.handle_new_connection().unwrap();
    join(&mut server, &a, "room", "alice").0.unwrap();
    let excl: Vec<String> = Vec::new();
    assert_eq!(server.broadcast_to_room("room", "ping", &excl).len(), 1);

    let out = server.handle_disconnect(DisconnectContract { user_id: a });
    assert!(out.is_empty()); // nobody left to hear the notice
    assert!(server.broadcast_to_room("room", "ping", &excl).is_empty());
}

#[test]
fn broadcast_reaches_every_member_including_the_sender() {
    let mut server = TrustServer::default();
    let a = server.handle_new_connection().unwrap();
    let b = server.handle_new_connection().unwrap();
    join(&mut server, &a, "lobby", "alice").0.unwrap();
    join(&mut server, &b, "lobby", "bob").0.unwrap();

    let (res, deliveries) = say(&mut server, &a, "hello");
    assert!(res.is_ok());
    assert_eq!(deliveries.len(), 2);
    assert_eq!(texts_for(&deliveries, &a), vec!["alice: hello<NL>"]);
    assert_eq!(texts_for(&deliveries, &b), vec!["alice: hello<NL>"]);
}

#[test]
fn two_joins_of_the_same_new_room_share_one_room() {
    let mut server = TrustServer::default();
    let a = server.handle_new_connection().unwrap();
    let b = server.handle_new_connection().unwrap();
    let (res_a, out_a) = join(&mut server, &a, "fresh", "alice");
    let (res_b, out_b) = join(&mut server, &b, "fresh", "bob");
    assert!(res_a.is_ok());
    assert!(res_b.is_ok());
    // first joined notice reaches the one member, the second reaches both
    assert_eq!(out_a.len(), 1);
    assert_eq!(out_b.len(), 2);
    assert_eq!(texts_for(&out_b, &a), vec!["bob has joined<NL>"]);
    assert_eq!(texts_for(&out_b, &b), vec!["bob has joined<NL>"]);
}

#[test]
fn rejoining_the_same_room_is_rejected() {
    let mut server = TrustServer::default();
    let a = server.handle_new_connection().unwrap();
    join(&mut server, &a, "lobby", "alice").0.unwrap();
    let (res, deliveries) = join(&mut server, &a, "lobby", "alice");
    assert!(matches!(
        res,
        Err(ChatServerError::ChatRoomError(ChatRoomError::DuplicateSessionId(_)))
    ));
    assert!(deliveries.is_empty());
}

#[test]
fn join_with_an_overlong_name_is_rejected() {
    let mut server = TrustServer::default();
    let a = server.handle_new_connection().unwrap();
    let (res, deliveries) = join(&mut server, &a, "aaaaaaaaaaaaaaaaaaaa", "alice");
    assert!(matches!(
        res,
        Err(ChatServerError::ChatRoomError(ChatRoomError::InvalidName))
    ));
    assert!(deliveries.is_empty());
}

#[test]
fn broadcast_without_a_room_answers_the_sender_alone() {
    let mut server = TrustServer::default();
    let a = server.handle_new_connection().unwrap();
    let (res, deliveries) = say(&mut server, &a, "anyone?");
    assert!(res.is_ok());
    assert_eq!(deliveries.len(), 1);
    assert_eq!(deliveries[0].user_id, a);
    assert_eq!(deliveries[0].message.0, "ERROR<NL>");
}

#[test]
fn broadcast_from_an_unknown_id_delivers_nothing() {
    let mut server = TrustServer::default();
    let (res, deliveries) = say(&mut server, "ghost", "boo");
    assert!(res.is_ok());
    assert!(deliveries.is_empty());
}

#[test]
fn disconnect_is_idempotent_and_notifies_the_room() {
    let mut server = TrustServer::default();
    let a = server.handle_new_connection().unwrap();
    let b = server.handle_new_connection().unwrap();
    join(&mut server, &a, "lobby", "alice").0.unwrap();
    join(&mut server, &b, "lobby", "bob").0.unwrap();

    let out = server.handle_disconnect(DisconnectContract {
        user_id: a.clone(),
    });
    assert_eq!(out.len(), 1);
    assert_eq!(out[0].user_id, b);
    assert_eq!(out[0].message.0, "alice has left<NL>");

    let out2 = server.handle_disconnect(DisconnectContract { user_id: a });
    assert!(out2.is_empty());
}

#[test]
fn joining_another_room_moves_the_session() {
    let mut server = TrustServer::default();
    let a = server.handle_new_connection().unwrap();
    join(&mut server, &a, "first", "alice").0.unwrap();
    let (res, _) = join(&mut server, &a, "second", "alice");
    assert!(res.is_ok());
    let excl: Vec<String> = Vec::new();
    // the first room emptied and vanished; the second holds the session
    assert!(server.broadcast_to_room("first", "ping", &excl).is_empty());
    assert_eq!(server.broadcast_to_room("second", "ping", &excl).len(), 1);
}

#[test]
fn message_user_addresses_exactly_one_session() {
    let mut server = TrustServer::default();
    let a = server.handle_new_connection().unwrap();
    let d = server.message_user(&a, "psst").unwrap();
    assert_eq!(d.user_id, a);
    assert_eq!(d.message.0, "psst");
    assert!(server.message_user("ghost", "psst").is_none());
}

#[test]
fn room_membership_operations() {
    let mut room = Room::new();
    assert!(room.is_empty());
    room.add("id-1", "alice").unwrap();
    room.add("id-2", "bob").unwrap();
    assert!(matches!(
        room.add("id-1", "alice"),
        Err(ChatRoomError::DuplicateSessionId(_))
    ));
    assert_eq!(room.get_username("id-1"), Some(String::from("alice")));
    assert_eq!(room.get_username("id-3"), None);
    room.remove("id-3"); // absent: no-op
    room.remove("id-1");
    assert_eq!(room.get_username("id-1"), None);
    assert!(!room.is_empty());
}

#[test]
fn room_broadcast_excludes_the_given_sessions() {
    let mut room = Room::new();
    room.add("id-1", "alice").unwrap();
    room.add("id-2", "bob").unwrap();
    room.add("id-3", "carol").unwrap();
    let excluding = vec![String::from("id-2")];
    let out = room.broadcast_to_excluding("note", &excluding);
    assert_eq!(out.len(), 2);
    assert_eq!(out[0].user_id, "id-1");
    assert_eq!(out[1].user_id, "id-3");
    assert!(out.iter().all(|d| d.message.0 == "note"));
}
