//! The full pipeline, as the TCP transport drives it: bytes through the
//! codec, lines through the session state machine, commands through the
//! registry, deliveries back to each client.

use bytes::BytesMut;
use trust_chat::codec::TrustTcpCodec;
use trust_chat::contracts::Delivery;
use trust_chat::server::TrustServer;
use trust_chat::session::{User, UserAction};

struct Client {
    id: String,
    session: User,
    inbound: BytesMut,
    codec: TrustTcpCodec,
    received: Vec<String>,
}

impl Client {
    fn connect(server: &mut TrustServer) -> Client {
        let id = server.handle_new_connection().unwrap();
        let mut session = User::new(0);
        session.handle_connect_reply(Some(id.clone()));
        Client {
            id,
            session,
            inbound: BytesMut::new(),
            codec: TrustTcpCodec,
            received: Vec::new(),
        }
    }

    /// Feed raw bytes from the peer and run every complete line through
    /// the session and the registry, fanning deliveries back out.
    fn send(&mut self, server: &mut TrustServer, bytes: &[u8], others: &mut [&mut Client]) {
        self.inbound.extend_from_slice(bytes);
        while let Some(line) = self.codec.decode(&mut self.inbound) {
            match self.session.handle_message(0, &line) {
                UserAction::Forward(cmd) => {
                    let (_, deliveries) = server.handle_command(cmd);
                    deliver(&deliveries, self, others);
                }
                UserAction::ReplyError => {
                    self.received.push(String::from("ERROR<NL>"));
                }
            }
        }
    }
}

fn deliver(deliveries: &[Delivery], me: &mut Client, others: &mut [&mut Client]) {
    for d in deliveries {
        if d.user_id == me.id {
            me.received.push(d.message.0.clone());
        } else {
            for other in others.iter_mut() {
                if d.user_id == other.id {
                    other.received.push(d.message.0.clone());
                }
            }
        }
    }
}

#[test]
fn two_clients_join_and_chat() {
    let mut server = TrustServer::default();
    let mut a = Client::connect(&mut server);
    let mut b = Client::connect(&mut server);

    a.send(&mut server, b"join lobby alice<NL>", &mut [&mut b]);
    b.send(&mut server, b"join lobby bob<NL>", &mut [&mut a]);
    a.send(&mut server, b"hi<NL>", &mut [&mut b]);

    assert_eq!(
        a.received,
        vec![
            String::from("alice has joined<NL>"),
            String::from("bob has joined<NL>"),
            String::from("alice: hi<NL>"),
        ]
    );
    assert_eq!(
        b.received,
        vec![
            String::from("bob has joined<NL>"),
            String::from("alice: hi<NL>"),
        ]
    );
}

#[test]
fn malformed_line_earns_an_error_frame_and_nothing_else() {
    let mut server = TrustServer::default();
    let mut a = Client::connect(&mut server);
    let mut b = Client::connect(&mut server);
    a.send(&mut server, b"join lobby alice<NL>", &mut [&mut b]);
    b.send(&mut server, b"join lobby bob<NL>", &mut [&mut a]);

    // an empty line is a parse error answered to the sender alone
    b.send(&mut server, b"<NL>", &mut [&mut a]);
    assert_eq!(
        b.received,
        vec![
            String::from("bob has joined<NL>"),
            String::from("ERROR<NL>"),
        ]
    );
    assert_eq!(
        a.received,
        vec![
            String::from("alice has joined<NL>"),
            String::from("bob has joined<NL>"),
        ]
    );
}

#[test]
fn split_writes_decode_into_one_command() {
    let mut server = TrustServer::default();
    let mut a = Client::connect(&mut server);
    a.send(&mut server, b"jo", &mut []);
    assert!(a.received.is_empty());
    a.send(&mut server, b"in room al<NL>", &mut []);
    assert_eq!(a.received, vec![String::from("al has joined<NL>")]);
}
