//! The messages exchanged with the registry, and the error taxonomy.
//!
//! The TCP transport speaks to the registry through `ChatRoomContract` /
//! `DisconnectContract` / `PlainTextMessage`; the WebSocket transport
//! through the equivalent `ChatRoomCommand` / `Disconnect` / `Message`.

use vstd::prelude::*;

verus! {

/// User session identifier.
pub type UserSessionId = String;

/// Chat room name.
pub type RoomName = String;

/// One text line addressed to a session, as the registry hands it to the
/// TCP transport.
#[derive(Debug, PartialEq, Eq)]
pub struct PlainTextMessage(pub String);

/// One text line addressed to a session, as the registry hands it to the
/// WebSocket transport.
#[derive(Debug, PartialEq, Eq)]
pub struct Message(pub String);

/// One outbound delivery: which session gets which line. The transport
/// resolves the session id to its socket and performs the write.
#[derive(Debug, PartialEq, Eq)]
pub struct Delivery {
    pub user_id: UserSessionId,
    pub message: PlainTextMessage,
}

impl Delivery {
    /// The view of a delivery: target and text.
    pub open spec fn view_pair(self) -> (Seq<char>, Seq<char>) {
        (self.user_id@, self.message.0@)
    }
}

/// The views of a list of deliveries, in order.
pub open spec fn delivery_views(v: Seq<Delivery>) -> Seq<(Seq<char>, Seq<char>)> {
    v.map_values(|d: Delivery| d.view_pair())
}

/// The view of an optional string.
pub open spec fn opt_view(o: Option<String>) -> Option<Seq<char>> {
    match o {
        Some(s) => Some(s@),
        None => None,
    }
}

/// A command for the registry, from the TCP transport.
#[derive(Debug, PartialEq, Eq)]
pub enum ChatRoomContract {
    Join { user_id: UserSessionId, username: String, room_name: RoomName, raw: String },
    BroadcastMessage { user_id: UserSessionId, content: String },
}

/// A command for the registry, from the WebSocket transport.
#[derive(Debug, PartialEq, Eq)]
pub enum ChatRoomCommand {
    Join { user_id: UserSessionId, username: String, room_name: RoomName, raw: String },
    BroadcastMessage { user_id: UserSessionId, content: String },
}

impl ChatRoomCommand {
    /// Both transports drive the same registry transitions.
    pub fn into_contract(self) -> (r: ChatRoomContract)
        ensures
            match (self, r) {
                (
                    ChatRoomCommand::Join { user_id, username, room_name, raw },
                    ChatRoomContract::Join {
                        user_id: user_id2,
                        username: username2,
                        room_name: room_name2,
                        raw: raw2,
                    },
                ) => user_id == user_id2 && username == username2 && room_name == room_name2 && raw
                    == raw2,
                (
                    ChatRoomCommand::BroadcastMessage { user_id, content },
                    ChatRoomContract::BroadcastMessage { user_id: user_id2, content: content2 },
                ) => user_id == user_id2 && content == content2,
                _ => false,
            },
    {
        match self {
            ChatRoomCommand::Join { user_id, username, room_name, raw } => ChatRoomContract::Join {
                user_id,
                username,
                room_name,
                raw,
            },
            ChatRoomCommand::BroadcastMessage { user_id, content } => {
                ChatRoomContract::BroadcastMessage { user_id, content }
            },
        }
    }
}

/// Tell the registry a session ended (TCP transport).
#[derive(Debug, PartialEq, Eq)]
pub struct DisconnectContract {
    pub user_id: UserSessionId,
}

/// Tell the registry a session ended (WebSocket transport).
#[derive(Debug, PartialEq, Eq)]
pub struct Disconnect {
    pub user_id: UserSessionId,
}

/// Chat room error.
#[derive(Debug, PartialEq, Eq)]
pub enum ChatRoomError {
    /// The command referenced a session id the registry does not hold.
    InvalidUserId(UserSessionId),
    /// The session is already a member of that room.
    DuplicateSessionId(UserSessionId),
    /// The room or display name breaks the length rule of the grammar.
    InvalidName,
}

/// Chat server error.
#[derive(Debug, PartialEq, Eq)]
pub enum ChatServerError {
    ChatRoomError(ChatRoomError),
}

/// Registration error: the freshly drawn session id collided.
#[derive(Debug, PartialEq, Eq)]
pub enum TrustServerError {
    RegistrationError,
}

} // verus!
