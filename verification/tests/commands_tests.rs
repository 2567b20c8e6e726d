use trust_chat::commands::{
    tokenize, valid_chatroom_name, valid_username, ChatSessionCommand, UserCommand,
};
use trust_chat::response::{
    error_message, new_chat_message, user_joined_message, user_left_message,
};

#[test]
fn tokenize_splits_on_ascii_whitespace() {
    let toks = tokenize("  join\tlobby  alice ");
    let views: Vec<&str> = toks.iter().map(|t| t.as_str()).collect();
    assert_eq!(views, vec!["join", "lobby", "alice"]);
    assert!(tokenize("").is_empty());
    assert!(tokenize("   \t ").is_empty());
}

#[test]
fn parse_join_takes_room_then_username() {
    match UserCommand::from_str("join lobby alice") {
        Ok(UserCommand::JoinChatRoom {
            username,
            room_name,
        }) => {
            assert_eq!(username, "alice");
            assert_eq!(room_name, "lobby");
        }
        other => panic!("unexpected parse: {:?}", other),
    }
}

#[test]
fn parse_join_keyword_is_case_insensitive() {
    assert!(matches!(
        UserCommand::from_str("JOIN lobby alice"),
        Ok(UserCommand::JoinChatRoom { .. })
    ));
    assert!(matches!(
        UserCommand::from_str("JoIn lobby alice"),
        Ok(UserCommand::JoinChatRoom { .. })
    ));
}

#[test]
fn parse_join_rejects_bad_argument_counts() {
    assert_eq!(
        UserCommand::from_str("join"),
        Err(String::from("Invalid room name"))
    );
    assert_eq!(
        UserCommand::from_str("join lobby"),
        Err(String::from("Invalid username"))
    );
    assert_eq!(
        UserCommand::from_str("join lobby alice extra"),
        Err(String::from("Invalid join command specified"))
    );
}

#[test]
fn parse_join_rejects_names_of_twenty_characters() {
    let long = "aaaaaaaaaaaaaaaaaaaa"; // twenty characters
    let ok = "aaaaaaaaaaaaaaaaaaa"; // nineteen characters
    assert_eq!(
        UserCommand::from_str(&format!("join {} alice", long)),
        Err(String::from("Invalid room name"))
    );
    assert_eq!(
        UserCommand::from_str(&format!("join lobby {}", long)),
        Err(String::from("Invalid username"))
    );
    assert!(matches!(
        UserCommand::from_str(&format!("join {} {}", ok, ok)),
        Ok(UserCommand::JoinChatRoom { .. })
    ));
}

#[test]
fn parse_empty_line_is_an_error() {
    assert_eq!(
        UserCommand::from_str(""),
        Err(String::from("Command cannot be empty"))
    );
    assert_eq!(
        UserCommand::from_str("   "),
        Err(String::from("Command cannot be empty"))
    );
}

#[test]
fn parse_other_text_is_implicit_broadcast() {
    assert_eq!(
        UserCommand::from_str("hello there everyone"),
        Ok(UserCommand::BroadcastMessage(String::from(
            "hello there everyone"
        )))
    );
    assert_eq!(
        UserCommand::from_str("joinery is a craft"),
        Ok(UserCommand::BroadcastMessage(String::from(
            "joinery is a craft"
        )))
    );
}

#[test]
fn session_command_shares_the_grammar() {
    match ChatSessionCommand::from_str("join lobby alice") {
        Ok(ChatSessionCommand::JoinChatRoom {
            username,
            room_name,
        }) => {
            assert_eq!(username, "alice");
            assert_eq!(room_name, "lobby");
        }
        other => panic!("unexpected parse: {:?}", other),
    }
    assert_eq!(
        ChatSessionCommand::from_str("hi"),
        Ok(ChatSessionCommand::BroadcastMessage(String::from("hi")))
    );
    assert!(ChatSessionCommand::from_str("").is_err());
}

#[test]
fn name_validators_enforce_the_length_rule() {
    assert!(valid_username(Some("alice")));
    assert!(!valid_username(Some("")));
    assert!(!valid_username(None));
    assert!(valid_username(Some("aaaaaaaaaaaaaaaaaaa")));
    assert!(!valid_username(Some("aaaaaaaaaaaaaaaaaaaa")));
    assert!(valid_chatroom_name(Some("lobby")));
    assert!(!valid_chatroom_name(Some("")));
    assert!(!valid_chatroom_name(None));
    assert!(!valid_chatroom_name(Some("aaaaaaaaaaaaaaaaaaaa")));
}

#[test]
fn response_templates_are_exact() {
    assert_eq!(user_joined_message("alice"), "alice has joined<NL>");
    assert_eq!(user_left_message("bob"), "bob has left<NL>");
    assert_eq!(new_chat_message("alice", "hello"), "alice: hello<NL>");
    assert_eq!(error_message(), "ERROR<NL>");
}
