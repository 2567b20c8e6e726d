//! The per-connection state machines.
//!
//! `User` is the TCP connection, `ChatSession` the WebSocket one. Each
//! owns the connection's registered id, its last-seen timestamp and its
//! lifecycle phase, and decides — as pure transitions — what the
//! transport must do: probe the peer, forward a command to the registry,
//! answer an error frame, or terminate and tell the registry exactly
//! once that the session is gone. The timers, sockets and actor plumbing
//! around these transitions stay with the transport.

use crate::commands::{ChatSessionCommand, SpecCommand, SpecParse, UserCommand, spec_parse};
use crate::contracts::{
    ChatRoomCommand, ChatRoomContract, Disconnect, DisconnectContract, UserSessionId,
};
use crate::external::lossy_decode;
use vstd::prelude::*;

verus! {

/// How often the TCP transport probes its peer, in milliseconds.
pub const TCP_HEARTBEAT_INTERVAL_MS: u64 = 60_000;

/// The TCP heartbeat gap beyond which the peer counts as dead.
pub const TCP_CLIENT_TIMEOUT_MS: u64 = 300_000;

/// How often the WebSocket transport probes its peer, in milliseconds.
pub const WS_HEARTBEAT_INTERVAL_MS: u64 = 5_000;

/// The WebSocket heartbeat gap beyond which the peer counts as dead.
pub const WS_CLIENT_TIMEOUT_MS: u64 = 10_000;

/// The lifecycle of a connection.
#[derive(Debug, Clone, Copy, PartialEq, Eq, Structural)]
pub enum SessionPhase {
    Connecting,
    Active,
    Disconnecting,
    Terminated,
}

/// The heartbeat gap: how long the peer has been silent.
pub open spec fn spec_gap(now_ms: u64, last_ms: u64) -> u64 {
    if now_ms >= last_ms {
        (now_ms - last_ms) as u64
    } else {
        0
    }
}

/// What a heartbeat tick of the TCP connection decides.
#[derive(Debug, PartialEq, Eq)]
pub enum UserHeartbeat {
    /// The peer is alive: write an empty keepalive.
    Probe,
    /// The gap passed the timeout: stop, after handing the registry the
    /// disconnect notice if one is still owed.
    Terminate(Option<DisconnectContract>),
}

/// What an inbound TCP line decides.
#[derive(Debug, PartialEq, Eq)]
pub enum UserAction {
    /// Forward the parsed command to the registry.
    Forward(ChatRoomContract),
    /// Answer the peer with one error frame.
    ReplyError,
}

/// The TCP connection's state machine.
pub struct User {
    /// The session id the registry assigned, once the connect reply came.
    pub id: Option<UserSessionId>,
    /// When the peer was last heard from, in milliseconds.
    pub last_heartbeat_time: u64,
    /// Where the connection stands in its lifecycle.
    pub phase: SessionPhase,
    /// Whether the registry was already told this session is gone.
    pub disconnect_sent: bool,
}

/// The TCP tick transition: a live peer is probed; a silent one is
/// terminated, with the disconnect notice handed out at most once.
pub open spec fn spec_user_tick(s: User, now_ms: u64) -> (User, UserHeartbeat) {
    if spec_gap(now_ms, s.last_heartbeat_time) <= TCP_CLIENT_TIMEOUT_MS {
        (s, UserHeartbeat::Probe)
    } else {
        let d = if s.id is Some && !s.disconnect_sent {
            Some(DisconnectContract { user_id: s.id->Some_0 })
        } else {
            None
        };
        (
            User {
                phase: SessionPhase::Disconnecting,
                disconnect_sent: s.disconnect_sent || s.id is Some,
                ..s
            },
            UserHeartbeat::Terminate(d),
        )
    }
}

/// The TCP stop transition: reaching `Terminated` hands out the
/// disconnect notice exactly when it was not handed out before.
pub open spec fn spec_user_stopping(s: User) -> (User, Option<DisconnectContract>) {
    let d = if s.id is Some && !s.disconnect_sent {
        Some(DisconnectContract { user_id: s.id->Some_0 })
    } else {
        None
    };
    (
        User {
            phase: SessionPhase::Terminated,
            disconnect_sent: s.disconnect_sent || s.id is Some,
            ..s
        },
        d,
    )
}

/// Does the contract carry this parsed command, stamped with this
/// session id and raw line?
pub open spec fn contract_of(
    cmd: SpecCommand,
    uid: Seq<char>,
    raw: Seq<char>,
    c: ChatRoomContract,
) -> bool {
    match cmd {
        SpecCommand::JoinChatRoom { username, room_name } => {
            &&& c matches ChatRoomContract::Join {
                user_id: cu,
                username: cn,
                room_name: cr,
                raw: craw,
            }
            &&& cu@ == uid
            &&& cn@ == username
            &&& cr@ == room_name
            &&& craw@ == raw
        },
        SpecCommand::BroadcastMessage(content) => {
            &&& c matches ChatRoomContract::BroadcastMessage { user_id: cu, content: cc }
            &&& cu@ == uid
            &&& cc@ == content
        },
    }
}

/// The same, for the WebSocket command type.
pub open spec fn command_of(
    cmd: SpecCommand,
    uid: Seq<char>,
    raw: Seq<char>,
    c: ChatRoomCommand,
) -> bool {
    match cmd {
        SpecCommand::JoinChatRoom { username, room_name } => {
            &&& c matches ChatRoomCommand::Join {
                user_id: cu,
                username: cn,
                room_name: cr,
                raw: craw,
            }
            &&& cu@ == uid
            &&& cn@ == username
            &&& cr@ == room_name
            &&& craw@ == raw
        },
        SpecCommand::BroadcastMessage(content) => {
            &&& c matches ChatRoomCommand::BroadcastMessage { user_id: cu, content: cc }
            &&& cu@ == uid
            &&& cc@ == content
        },
    }
}

impl User {
    /// A fresh TCP connection: no id yet, last seen now.
    pub fn new(now_ms: u64) -> (r: User)
        ensures
            r.id is None,
            r.last_heartbeat_time == now_ms,
            r.phase is Connecting,
            !r.disconnect_sent,
    {
        User {
            id: None,
            last_heartbeat_time: now_ms,
            phase: SessionPhase::Connecting,
            disconnect_sent: false,
        }
    }

    /// The registry's reply to the connect request: an id makes the
    /// session active; a failure makes it stop.
    pub fn handle_connect_reply(&mut self, reply: Option<UserSessionId>) -> (proceed: bool)
        ensures
            reply is Some ==> final(self).id == reply && final(self).phase is Active && proceed,
            reply is None ==> final(self).id == old(self).id && final(self).phase
                is Disconnecting && !proceed,
            final(self).last_heartbeat_time == old(self).last_heartbeat_time,
            final(self).disconnect_sent == old(self).disconnect_sent,
    {
        match reply {
            Some(id) => {
                self.id = Some(id);
                self.phase = SessionPhase::Active;
                true
            },
            None => {
                self.phase = SessionPhase::Disconnecting;
                false
            },
        }
    }

    /// One heartbeat tick.
    pub fn heartbeat(&mut self, now_ms: u64) -> (action: UserHeartbeat)
        ensures
            (*final(self), action) == spec_user_tick(*old(self), now_ms),
    {
        let gap: u64 = if now_ms >= self.last_heartbeat_time {
            now_ms - self.last_heartbeat_time
        } else {
            0
        };
        if gap <= TCP_CLIENT_TIMEOUT_MS {
            UserHeartbeat::Probe
        } else {
            self.phase = SessionPhase::Disconnecting;
            match &self.id {
                Some(uid) => {
                    if self.disconnect_sent {
                        UserHeartbeat::Terminate(None)
                    } else {
                        let d = DisconnectContract { user_id: uid.clone() };
                        self.disconnect_sent = true;
                        UserHeartbeat::Terminate(Some(d))
                    }
                },
                None => UserHeartbeat::Terminate(None),
            }
        }
    }

    /// Map a parsed command to a registry command, stamped with this
    /// session's id; without an id there is nothing to stamp.
    pub fn map_to_server_command(&self, cmd: UserCommand, message: &str) -> (r: Option<
        ChatRoomContract,
    >)
        ensures
            self.id is None ==> r is None,
            self.id matches Some(uid) ==> (r matches Some(c) && contract_of(
                cmd@,
                uid@,
                message@,
                c,
            )),
    {
        let uid = match &self.id {
            Some(uid) => uid.clone(),
            None => {
                return None;
            },
        };
        match cmd {
            UserCommand::JoinChatRoom { username, room_name } => Some(
                ChatRoomContract::Join {
                    user_id: uid,
                    username,
                    room_name,
                    raw: message.to_owned(),
                },
            ),
            UserCommand::BroadcastMessage(content) => Some(
                ChatRoomContract::BroadcastMessage { user_id: uid, content },
            ),
        }
    }

    /// One decoded inbound line: the peer is alive, so the timestamp
    /// resets first; a well-formed command from a registered session is
    /// forwarded, anything else is answered with one error frame.
    pub fn handle_message(&mut self, now_ms: u64, message: &str) -> (action: UserAction)
        ensures
            final(self).last_heartbeat_time == now_ms,
            final(self).id == old(self).id,
            final(self).phase == old(self).phase,
            final(self).disconnect_sent == old(self).disconnect_sent,
            (spec_parse(message@) is Rejected || old(self).id is None) ==> action
                is ReplyError,
            (spec_parse(message@) is Parsed && old(self).id is Some) ==> (action
                matches UserAction::Forward(c) && contract_of(
                spec_parse(message@)->Parsed_0,
                (old(self).id->Some_0)@,
                message@,
                c,
            )),
    {
        self.last_heartbeat_time = now_ms;
        match UserCommand::from_str(message) {
            Ok(cmd) => {
                let ghost cmdv = cmd@;
                proof {
                    assert(spec_parse(message@) == SpecParse::Parsed(cmdv));
                }
                match self.map_to_server_command(cmd, message) {
                    Some(c) => UserAction::Forward(c),
                    None => UserAction::ReplyError,
                }
            },
            Err(_) => UserAction::ReplyError,
        }
    }

    /// The actor is stopping: hand the registry the disconnect notice if
    /// it is still owed, and never a second one.
    pub fn stopping(&mut self) -> (d: Option<DisconnectContract>)
        ensures
            (*final(self), d) == spec_user_stopping(*old(self)),
    {
        self.phase = SessionPhase::Terminated;
        match &self.id {
            Some(uid) => {
                if self.disconnect_sent {
                    None
                } else {
                    let d = DisconnectContract { user_id: uid.clone() };
                    self.disconnect_sent = true;
                    Some(d)
                }
            },
            None => None,
        }
    }
}

/// A heartbeat gap above the timeout self-terminates the TCP connection
/// and yields exactly one disconnect notice for a registered session:
/// the tick hands it out and marks it sent, and the stop transition that
/// follows yields none; a gap within the timeout only probes and sends
/// nothing.
pub proof fn lemma_user_timeout_disconnects_once(s: User, now_ms: u64)
    requires
        s.id is Some,
        !s.disconnect_sent,
    ensures
        spec_gap(now_ms, s.last_heartbeat_time) > TCP_CLIENT_TIMEOUT_MS ==> {
            let (s1, a) = spec_user_tick(s, now_ms);
            &&& a matches UserHeartbeat::Terminate(Some(d)) && d.user_id == s.id->Some_0
            &&& s1.phase is Disconnecting
            &&& spec_user_stopping(s1).1 is None
        },
        spec_gap(now_ms, s.last_heartbeat_time) <= TCP_CLIENT_TIMEOUT_MS ==> spec_user_tick(
            s,
            now_ms,
        ) == (s, UserHeartbeat::Probe),
{
}

/// What a heartbeat tick of the WebSocket connection decides.
#[derive(Debug, PartialEq, Eq)]
pub enum SessionHeartbeat {
    /// The peer is alive: send a protocol ping.
    Probe,
    /// The gap passed the timeout: stop, after handing the registry the
    /// disconnect notice if one is still owed.
    Terminate(Option<Disconnect>),
}

/// What an inbound WebSocket text frame decides.
#[derive(Debug, PartialEq, Eq)]
pub enum SessionAction {
    /// Forward the parsed command to the registry.
    Forward(ChatRoomCommand),
    /// Answer the peer with one error frame.
    ReplyError,
}

/// The WebSocket connection's state machine. Continuation frames gather
/// in the buffer until the last one arrives.
pub struct ChatSession {
    /// The session id the registry assigned, once the connect reply came.
    pub user_id: Option<UserSessionId>,
    /// When the peer was last heard from, in milliseconds.
    pub last_heartbeat_time: u64,
    /// Where the connection stands in its lifecycle.
    pub phase: SessionPhase,
    /// Whether the registry was already told this session is gone.
    pub disconnect_sent: bool,
    /// The bytes of an unfinished chunked message.
    pub buffer: Vec<u8>,
}

/// The WebSocket tick transition, the counterpart of `spec_user_tick`
/// with the short timeout.
pub open spec fn spec_session_tick(s: ChatSession, now_ms: u64) -> (ChatSession, SessionHeartbeat) {
    if spec_gap(now_ms, s.last_heartbeat_time) <= WS_CLIENT_TIMEOUT_MS {
        (s, SessionHeartbeat::Probe)
    } else {
        let d = if s.user_id is Some && !s.disconnect_sent {
            Some(Disconnect { user_id: s.user_id->Some_0 })
        } else {
            None
        };
        (
            ChatSession {
                phase: SessionPhase::Disconnecting,
                disconnect_sent: s.disconnect_sent || s.user_id is Some,
                ..s
            },
            SessionHeartbeat::Terminate(d),
        )
    }
}

/// The WebSocket stop transition.
pub open spec fn spec_session_stopping(s: ChatSession) -> (ChatSession, Option<Disconnect>) {
    let d = if s.user_id is Some && !s.disconnect_sent {
        Some(Disconnect { user_id: s.user_id->Some_0 })
    } else {
        None
    };
    (
        ChatSession {
            phase: SessionPhase::Terminated,
            disconnect_sent: s.disconnect_sent || s.user_id is Some,
            ..s
        },
        d,
    )
}

impl ChatSession {
    /// A fresh WebSocket connection: no id yet, empty buffer, last seen
    /// now.
    pub fn new(now_ms: u64) -> (r: ChatSession)
        ensures
            r.user_id is None,
            r.last_heartbeat_time == now_ms,
            r.phase is Connecting,
            !r.disconnect_sent,
            r.buffer@ == Seq::<u8>::empty(),
    {
        ChatSession {
            user_id: None,
            last_heartbeat_time: now_ms,
            phase: SessionPhase::Connecting,
            disconnect_sent: false,
            buffer: Vec::new(),
        }
    }

    /// The registry's reply to the connect request.
    pub fn handle_connect_reply(&mut self, reply: Option<UserSessionId>) -> (proceed: bool)
        ensures
            reply is Some ==> final(self).user_id == reply && final(self).phase is Active
                && proceed,
            reply is None ==> final(self).user_id == old(self).user_id && final(self).phase
                is Disconnecting && !proceed,
            final(self).last_heartbeat_time == old(self).last_heartbeat_time,
            final(self).disconnect_sent == old(self).disconnect_sent,
            final(self).buffer == old(self).buffer,
    {
        match reply {
            Some(id) => {
                self.user_id = Some(id);
                self.phase = SessionPhase::Active;
                true
            },
            None => {
                self.phase = SessionPhase::Disconnecting;
                false
            },
        }
    }

    /// One heartbeat tick.
    pub fn heartbeat(&mut self, now_ms: u64) -> (action: SessionHeartbeat)
        ensures
            (*final(self), action) == spec_session_tick(*old(self), now_ms),
    {
        let gap: u64 = if now_ms >= self.last_heartbeat_time {
            now_ms - self.last_heartbeat_time
        } else {
            0
        };
        if gap <= WS_CLIENT_TIMEOUT_MS {
            SessionHeartbeat::Probe
        } else {
            self.phase = SessionPhase::Disconnecting;
            match &self.user_id {
                Some(uid) => {
                    if self.disconnect_sent {
                        SessionHeartbeat::Terminate(None)
                    } else {
                        let d = Disconnect { user_id: uid.clone() };
                        self.disconnect_sent = true;
                        SessionHeartbeat::Terminate(Some(d))
                    }
                },
                None => SessionHeartbeat::Terminate(None),
            }
        }
    }

    /// Map a parsed command to a registry command, stamped with this
    /// session's id.
    pub fn map_to_server_command(&self, cmd: ChatSessionCommand, message: &str) -> (r: Option<
        ChatRoomCommand,
    >)
        ensures
            self.user_id is None ==> r is None,
            self.user_id matches Some(uid) ==> (r matches Some(c) && command_of(
                cmd@,
                uid@,
                message@,
                c,
            )),
    {
        let uid = match &self.user_id {
            Some(uid) => uid.clone(),
            None => {
                return None;
            },
        };
        match cmd {
            ChatSessionCommand::JoinChatRoom { username, room_name } => Some(
                ChatRoomCommand::Join {
                    user_id: uid,
                    username,
                    room_name,
                    raw: message.to_owned(),
                },
            ),
            ChatSessionCommand::BroadcastMessage(content) => Some(
                ChatRoomCommand::BroadcastMessage { user_id: uid, content },
            ),
        }
    }

    /// One complete inbound text frame: the timestamp resets, then the
    /// line is parsed and either forwarded or answered with an error
    /// frame.
    pub fn handle_complete_message(&mut self, now_ms: u64, message: &str) -> (action: SessionAction)
        ensures
            final(self).last_heartbeat_time == now_ms,
            final(self).user_id == old(self).user_id,
            final(self).phase == old(self).phase,
            final(self).disconnect_sent == old(self).disconnect_sent,
            final(self).buffer == old(self).buffer,
            (spec_parse(message@) is Rejected || old(self).user_id is None) ==> action
                is ReplyError,
            (spec_parse(message@) is Parsed && old(self).user_id is Some) ==> (action
                matches SessionAction::Forward(c) && command_of(
                spec_parse(message@)->Parsed_0,
                (old(self).user_id->Some_0)@,
                message@,
                c,
            )),
    {
        self.last_heartbeat_time = now_ms;
        match ChatSessionCommand::from_str(message) {
            Ok(cmd) => {
                let ghost cmdv = cmd@;
                proof {
                    assert(spec_parse(message@) == SpecParse::Parsed(cmdv));
                }
                match self.map_to_server_command(cmd, message) {
                    Some(c) => SessionAction::Forward(c),
                    None => SessionAction::ReplyError,
                }
            },
            Err(_) => SessionAction::ReplyError,
        }
    }

    /// A continuation chunk: the bytes queue up behind the buffered ones,
    /// and the peer counts as alive.
    pub fn handle_chunk(&mut self, now_ms: u64, chunk: &[u8])
        ensures
            final(self).buffer@ == old(self).buffer@ + chunk@,
            final(self).last_heartbeat_time == now_ms,
            final(self).user_id == old(self).user_id,
            final(self).phase == old(self).phase,
            final(self).disconnect_sent == old(self).disconnect_sent,
    {
        self.last_heartbeat_time = now_ms;
        self.buffer.extend_from_slice(chunk);
    }

    /// The last chunk of a chunked message: the buffered bytes and this
    /// chunk together decode into one text, the buffer empties, and the
    /// text is handled as a complete message.
    pub fn handle_last_chunk(&mut self, now_ms: u64, chunk: &[u8]) -> (action: SessionAction)
        ensures
            final(self).buffer@ == Seq::<u8>::empty(),
            final(self).last_heartbeat_time == now_ms,
            final(self).user_id == old(self).user_id,
            final(self).phase == old(self).phase,
            final(self).disconnect_sent == old(self).disconnect_sent,
            ({
                let text = lossy_decode(old(self).buffer@ + chunk@);
                &&& ((spec_parse(text) is Rejected || old(self).user_id is None) ==> action
                    is ReplyError)
                &&& ((spec_parse(text) is Parsed && old(self).user_id is Some) ==> (action
                    matches SessionAction::Forward(c) && command_of(
                    spec_parse(text)->Parsed_0,
                    (old(self).user_id->Some_0)@,
                    text,
                    c,
                )))
            }),
    {
        self.buffer.extend_from_slice(chunk);
        proof {
            assert(self.buffer@ == old(self).buffer@ + chunk@);
        }
        let text = crate::external::from_utf8_lossy(self.buffer.as_slice());
        proof {
            assert(text@ == lossy_decode(old(self).buffer@ + chunk@));
        }
        let action = self.handle_complete_message(now_ms, text.as_str());
        self.buffer.clear();
        action
    }

    /// The actor is stopping: hand the registry the disconnect notice if
    /// it is still owed, and never a second one.
    pub fn stopping(&mut self) -> (d: Option<Disconnect>)
        ensures
            (*final(self), d) == spec_session_stopping(*old(self)),
    {
        self.phase = SessionPhase::Terminated;
        match &self.user_id {
            Some(uid) => {
                if self.disconnect_sent {
                    None
                } else {
                    let d = Disconnect { user_id: uid.clone() };
                    self.disconnect_sent = true;
                    Some(d)
                }
            },
            None => None,
        }
    }
}

/// The WebSocket counterpart of the timeout law: one disconnect notice,
/// never a second.
pub proof fn lemma_session_timeout_disconnects_once(s: ChatSession, now_ms: u64)
    requires
        s.user_id is Some,
        !s.disconnect_sent,
    ensures
        spec_gap(now_ms, s.last_heartbeat_time) > WS_CLIENT_TIMEOUT_MS ==> {
            let (s1, a) = spec_session_tick(s, now_ms);
            &&& a matches SessionHeartbeat::Terminate(Some(d)) && d.user_id == s.user_id->Some_0
            &&& s1.phase is Disconnecting
            &&& spec_session_stopping(s1).1 is None
        },
        spec_gap(now_ms, s.last_heartbeat_time) <= WS_CLIENT_TIMEOUT_MS ==> spec_session_tick(
            s,
            now_ms,
        ) == (s, SessionHeartbeat::Probe),
{
}

} // verus!
