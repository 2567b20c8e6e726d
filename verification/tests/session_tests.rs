use trust_chat::contracts::{ChatRoomCommand, ChatRoomContract};
use trust_chat::session::{
    ChatSession, SessionAction, SessionHeartbeat, SessionPhase, User, UserAction, UserHeartbeat,
    TCP_CLIENT_TIMEOUT_MS, WS_CLIENT_TIMEOUT_MS,
};

#[test]
fn heartbeat_within_timeout_probes() {
    let mut user = User::new(1_000);
    user.handle_connect_reply(Some(String::from("id-1")));
    let action = user.heartbeat(1_000 + TCP_CLIENT_TIMEOUT_MS);
    assert_eq!(action, UserHeartbeat::Probe);
    assert!(matches!(user.phase, SessionPhase::Active));
}

#[test]
fn heartbeat_timeout_terminates_with_exactly_one_disconnect() {
    let mut user = User::new(1_000);
    user.handle_connect_reply(Some(String::from("id-1")));
    let action = user.heartbeat(1_001 + TCP_CLIENT_TIMEOUT_MS);
    match action {
        UserHeartbeat::Terminate(Some(d)) => assert_eq!(d.user_id, "id-1"),
        other => panic!("unexpected action: {:?}", other),
    }
    assert!(matches!(user.phase, SessionPhase::Disconnecting));
    // the stop that follows owes no second notice
    assert_eq!(user.stopping(), None);
    assert!(matches!(user.phase, SessionPhase::Terminated));
}

#[test]
fn heartbeat_timeout_without_registration_sends_nothing() {
    let mut user = User::new(0);
    let action = user.heartbeat(TCP_CLIENT_TIMEOUT_MS + 1);
    assert_eq!(action, UserHeartbeat::Terminate(None));
    assert_eq!(user.stopping(), None);
}

#[test]
fn stopping_notifies_the_registry_once() {
    let mut user = User::new(0);
    user.handle_connect_reply(Some(String::from("id-7")));
    let first = user.stopping();
    assert!(matches!(first, Some(d) if d.user_id == "id-7"));
    assert_eq!(user.stopping(), None);
}

#[test]
fn connect_reply_failure_stops_the_session() {
    let mut user = User::new(0);
    let proceed = user.handle_connect_reply(None);
    assert!(!proceed);
    assert!(matches!(user.phase, SessionPhase::Disconnecting));
    assert_eq!(user.id, None);
}

#[test]
fn inbound_message_resets_the_heartbeat_clock() {
    let mut user = User::new(0);
    user.handle_connect_reply(Some(String::from("id-1")));
    let _ = user.handle_message(5_000, "hi");
    assert_eq!(user.last_heartbeat_time, 5_000);
    assert_eq!(user.heartbeat(5_000 + TCP_CLIENT_TIMEOUT_MS), UserHeartbeat::Probe);
}

#[test]
fn inbound_join_is_forwarded_with_the_session_id() {
    let mut user = User::new(0);
    user.handle_connect_reply(Some(String::from("id-1")));
    match user.handle_message(1, "join lobby alice") {
        UserAction::Forward(ChatRoomContract::Join {
            user_id,
            username,
            room_name,
            raw,
        }) => {
            assert_eq!(user_id, "id-1");
            assert_eq!(username, "alice");
            assert_eq!(room_name, "lobby");
            assert_eq!(raw, "join lobby alice");
        }
        other => panic!("unexpected action: {:?}", other),
    }
}

#[test]
fn inbound_text_is_forwarded_as_broadcast() {
    let mut user = User::new(0);
    user.handle_connect_reply(Some(String::from("id-1")));
    match user.handle_message(1, "hello all") {
        UserAction::Forward(ChatRoomContract::BroadcastMessage { user_id, content }) => {
            assert_eq!(user_id, "id-1");
            assert_eq!(content, "hello all");
        }
        other => panic!("unexpected action: {:?}", other),
    }
}

#[test]
fn malformed_or_unregistered_input_answers_an_error_frame() {
    let mut user = User::new(0);
    // not yet registered: even a good command only earns an error frame
    assert_eq!(user.handle_message(1, "join lobby alice"), UserAction::ReplyError);
    user.handle_connect_reply(Some(String::from("id-1")));
    assert_eq!(user.handle_message(2, ""), UserAction::ReplyError);
    assert_eq!(user.handle_message(3, "join lobby"), UserAction::ReplyError);
}

#[test]
fn websocket_heartbeat_uses_the_short_timeout() {
    let mut session = ChatSession::new(0);
    session.handle_connect_reply(Some(String::from("ws-1")));
    assert_eq!(session.heartbeat(WS_CLIENT_TIMEOUT_MS), SessionHeartbeat::Probe);
    match session.heartbeat(WS_CLIENT_TIMEOUT_MS + 1) {
        SessionHeartbeat::Terminate(Some(d)) => assert_eq!(d.user_id, "ws-1"),
        other => panic!("unexpected action: {:?}", other),
    }
    assert_eq!(session.stopping(), None);
}

#[test]
fn websocket_chunked_message_reassembles_before_parsing() {
    let mut session = ChatSession::new(0);
    session.handle_connect_reply(Some(String::from("ws-1")));
    session.handle_chunk(1, b"join ro");
    session.handle_chunk(2, b"om al");
    match session.handle_last_chunk(3, b"ice") {
        SessionAction::Forward(ChatRoomCommand::Join {
            user_id,
            username,
            room_name,
            ..
        }) => {
            assert_eq!(user_id, "ws-1");
            assert_eq!(room_name, "room");
            assert_eq!(username, "alice");
        }
        other => panic!("unexpected action: {:?}", other),
    }
    assert!(session.buffer.is_empty());
    assert_eq!(session.last_heartbeat_time, 3);
}

#[test]
fn websocket_complete_text_frame_is_parsed_directly() {
    let mut session = ChatSession::new(0);
    session.handle_connect_reply(Some(String::from("ws-1")));
    match session.handle_complete_message(1, "hi folks") {
        SessionAction::Forward(ChatRoomCommand::BroadcastMessage { user_id, content }) => {
            assert_eq!(user_id, "ws-1");
            assert_eq!(content, "hi folks");
        }
        other => panic!("unexpected action: {:?}", other),
    }
    assert_eq!(session.handle_complete_message(2, ""), SessionAction::ReplyError);
}
