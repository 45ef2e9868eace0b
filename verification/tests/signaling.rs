use screen_streaming::signaling_client::{ClientMessage, ServerFrame, SignalingEvent};
use screen_streaming::signaling_server::{
    refuse_unreadable, ConnId, ServerMessage, SignalingServer,
};
use serde_json::Value;
use std::collections::HashMap;
use std::collections::VecDeque;

/// A relay with the frames that each connection has yet to read.
struct Relay {
    server: SignalingServer,
    inboxes: HashMap<ConnId, VecDeque<Value>>,
}

impl Relay {
    fn new() -> Relay {
        Relay { server: SignalingServer::new(), inboxes: HashMap::new() }
    }

    fn connect(&mut self) -> ConnId {
        let conn = self.server.connect().expect("connects");
        self.inboxes.insert(conn, VecDeque::new());
        conn
    }

    fn send(&mut self, conn: ConnId, message: ClientMessage) -> bool {
        assert!(self.server.can_handle(conn, &message));
        let reaction = self.server.handle_message(conn, message);
        for out in reaction.sends {
            let frame = serde_json::from_str(&out.message.to_text()).expect("valid JSON");
            self.inboxes.get_mut(&out.to).expect("known connection").push_back(frame);
        }
        reaction.done
    }

    fn disconnect(&mut self, conn: ConnId) {
        for out in self.server.depart(conn) {
            let frame = serde_json::from_str(&out.message.to_text()).expect("valid JSON");
            self.inboxes.get_mut(&out.to).expect("known connection").push_back(frame);
        }
    }

    fn recv(&mut self, conn: ConnId) -> Value {
        self.inboxes.get_mut(&conn).expect("known connection").pop_front().expect("a frame")
    }

    fn silent(&self, conn: ConnId) -> bool {
        self.inboxes[&conn].is_empty()
    }

    fn host(&mut self, conn: ConnId, max_viewers: Option<u32>) -> String {
        self.send(conn, ClientMessage::Host { max_viewers });
        let hosting = self.recv(conn);
        assert_eq!(hosting["type"], "hosting");
        hosting["code"].as_str().unwrap().to_owned()
    }
}

fn json(text: &str) -> Value {
    serde_json::from_str(text).expect("valid JSON")
}

#[test]
fn pairs_two_clients_and_relays_messages_between_them() {
    let mut relay = Relay::new();
    let host = relay.connect();
    let guest = relay.connect();

    relay.send(host, ClientMessage::Host { max_viewers: None });
    let hosting = relay.recv(host);
    assert_eq!(hosting["type"], "hosting");
    let code = hosting["code"].as_str().unwrap().to_owned();
    assert_eq!(code.len(), 6, "expected a 6-digit pairing code, got {code:?}");

    relay.send(guest, ClientMessage::Join(code));
    assert_eq!(relay.recv(guest)["type"], "paired");
    let host_paired = relay.recv(host);
    assert_eq!(host_paired["type"], "paired");
    let guest_id = host_paired["guest_id"].as_u64().expect("host should learn the guest's id");

    relay.send(
        host,
        ClientMessage::Relay {
            payload: json(r#"{"kind": "offer", "sdp": "v=0..."}"#),
            to: Some(guest_id as u32),
        },
    );
    let relayed = relay.recv(guest);
    assert_eq!(relayed["type"], "relay");
    assert_eq!(relayed["payload"]["kind"], "offer");
    assert_eq!(relayed["payload"]["sdp"], "v=0...");

    relay.send(guest, ClientMessage::Relay { payload: json(r#"{"kind": "answer"}"#), to: None });
    let relayed_back = relay.recv(host);
    assert_eq!(relayed_back["type"], "relay");
    assert_eq!(relayed_back["guest_id"], guest_id);
    assert_eq!(relayed_back["payload"]["kind"], "answer");

    relay.disconnect(guest);
    let peer_left = relay.recv(host);
    assert_eq!(peer_left["type"], "peer_left");
    assert_eq!(peer_left["guest_id"], guest_id);
}

#[test]
fn multiple_guests_can_join_the_same_unlimited_room() {
    let mut relay = Relay::new();
    let host = relay.connect();
    let code = relay.host(host, None);

    let guest_a = relay.connect();
    relay.send(guest_a, ClientMessage::Join(code.clone()));
    assert_eq!(relay.recv(guest_a)["type"], "paired");
    let guest_a_id = relay.recv(host)["guest_id"].as_u64().unwrap();

    let guest_b = relay.connect();
    relay.send(guest_b, ClientMessage::Join(code));
    assert_eq!(relay.recv(guest_b)["type"], "paired");
    let guest_b_id = relay.recv(host)["guest_id"].as_u64().unwrap();

    assert_ne!(guest_a_id, guest_b_id, "each guest should get a distinct id");

    relay.send(
        host,
        ClientMessage::Relay { payload: json(r#"{"for": "b"}"#), to: Some(guest_b_id as u32) },
    );
    assert_eq!(relay.recv(guest_b)["payload"]["for"], "b");
    assert!(relay.silent(guest_a));

    relay.disconnect(guest_a);
    let left = relay.recv(host);
    assert_eq!(left["type"], "peer_left");
    assert_eq!(left["guest_id"], guest_a_id);

    relay.send(
        host,
        ClientMessage::Relay { payload: json(r#"{"still": "here"}"#), to: Some(guest_b_id as u32) },
    );
    assert_eq!(relay.recv(guest_b)["payload"]["still"], "here");
}

#[test]
fn rejects_joins_past_max_viewers() {
    let mut relay = Relay::new();
    let host = relay.connect();
    let code = relay.host(host, Some(1));

    let guest_a = relay.connect();
    relay.send(guest_a, ClientMessage::Join(code.clone()));
    assert_eq!(relay.recv(guest_a)["type"], "paired");
    let _ = relay.recv(host);

    let guest_b = relay.connect();
    relay.send(guest_b, ClientMessage::Join(code));
    let rejection = relay.recv(guest_b);
    assert_eq!(rejection["type"], "error");
    assert_eq!(rejection["message"], "sala já está cheia");
    assert!(relay.silent(host));
}

#[test]
fn host_leaving_notifies_every_guest_and_closes_the_room() {
    let mut relay = Relay::new();
    let host = relay.connect();
    let code = relay.host(host, None);

    let guest_a = relay.connect();
    relay.send(guest_a, ClientMessage::Join(code.clone()));
    assert_eq!(relay.recv(guest_a)["type"], "paired");
    let _ = relay.recv(host);

    let guest_b = relay.connect();
    relay.send(guest_b, ClientMessage::Join(code.clone()));
    assert_eq!(relay.recv(guest_b)["type"], "paired");
    let _ = relay.recv(host);

    assert!(relay.send(host, ClientMessage::Leave));

    assert_eq!(relay.recv(guest_a)["type"], "peer_left");
    assert_eq!(relay.recv(guest_b)["type"], "peer_left");

    let late = relay.connect();
    relay.send(late, ClientMessage::Join(code));
    assert_eq!(relay.recv(late)["message"], "código não encontrado");
}

#[test]
fn leave_notifies_the_peer_without_closing_the_sender_socket() {
    let mut relay = Relay::new();
    let host = relay.connect();
    let guest = relay.connect();
    let code = relay.host(host, None);

    relay.send(guest, ClientMessage::Join(code));
    assert_eq!(relay.recv(guest)["type"], "paired");
    assert_eq!(relay.recv(host)["type"], "paired");

    relay.send(guest, ClientMessage::Leave);
    assert_eq!(relay.recv(host)["type"], "peer_left");

    let next = relay.connect();
    relay.send(next, ClientMessage::Host { max_viewers: None });
    assert_eq!(relay.recv(next)["type"], "hosting");
}

#[test]
fn rejects_an_unknown_pairing_code() {
    let mut relay = Relay::new();
    let conn = relay.connect();
    relay.send(conn, ClientMessage::Join("000000".to_owned()));
    let response = relay.recv(conn);
    assert_eq!(response["type"], "error");
    assert_eq!(response["message"], "código não encontrado");
}

#[test]
fn a_client_is_in_one_room_only() {
    let mut relay = Relay::new();
    let host = relay.connect();
    let code = relay.host(host, None);
    relay.send(host, ClientMessage::Host { max_viewers: None });
    assert_eq!(relay.recv(host)["message"], "já está em uma sala");
    relay.send(host, ClientMessage::Join(code));
    assert_eq!(relay.recv(host)["message"], "já está em uma sala");
}

#[test]
fn a_stranger_cannot_relay() {
    let mut relay = Relay::new();
    let conn = relay.connect();
    relay.send(conn, ClientMessage::Relay { payload: json("1"), to: Some(0) });
    assert_eq!(relay.recv(conn)["message"], "entre numa sala primeiro");
}

#[test]
fn a_host_that_names_nobody_reaches_nobody() {
    let mut relay = Relay::new();
    let host = relay.connect();
    let guest = relay.connect();
    let code = relay.host(host, None);
    relay.send(guest, ClientMessage::Join(code));
    let _ = relay.recv(guest);
    let _ = relay.recv(host);
    relay.send(host, ClientMessage::Relay { payload: json("1"), to: None });
    relay.send(host, ClientMessage::Relay { payload: json("1"), to: Some(7) });
    assert!(relay.silent(guest));
    assert!(relay.silent(host));
}

#[test]
fn guests_are_numbered_in_join_order() {
    let mut relay = Relay::new();
    let host = relay.connect();
    let code = relay.host(host, Some(2));
    for expected in 0..4u64 {
        let guest = relay.connect();
        relay.send(guest, ClientMessage::Join(code.clone()));
        assert_eq!(relay.recv(guest)["type"], "paired");
        assert_eq!(relay.recv(host)["guest_id"], expected);
        relay.send(guest, ClientMessage::Leave);
        assert_eq!(relay.recv(host)["guest_id"], expected);
    }
}

#[test]
fn a_room_for_nobody_refuses_everybody() {
    let mut relay = Relay::new();
    let host = relay.connect();
    let code = relay.host(host, Some(0));
    let guest = relay.connect();
    relay.send(guest, ClientMessage::Join(code));
    assert_eq!(relay.recv(guest)["message"], "sala já está cheia");
}

#[test]
fn a_guest_whose_host_left_reaches_nobody() {
    let mut relay = Relay::new();
    let host = relay.connect();
    let guest = relay.connect();
    let code = relay.host(host, None);
    relay.send(guest, ClientMessage::Join(code));
    let _ = relay.recv(guest);
    let _ = relay.recv(host);
    relay.disconnect(host);
    assert_eq!(relay.recv(guest), json(r#"{"type": "peer_left", "guest_id": null}"#));
    relay.send(guest, ClientMessage::Relay { payload: json("1"), to: None });
    assert!(relay.silent(guest));
    assert!(relay.silent(host));
}

#[test]
fn rooms_have_different_codes() {
    let mut relay = Relay::new();
    let mut codes: Vec<String> = Vec::new();
    for _ in 0..200 {
        let conn = relay.connect();
        let code = relay.host(conn, None);
        assert!(code.bytes().all(|b| b.is_ascii_digit()));
        assert!(!code.starts_with('0'));
        assert!(!codes.contains(&code));
        codes.push(code);
    }
}

#[test]
fn an_unreadable_frame_is_refused() {
    let out = refuse_unreadable(3);
    assert_eq!(out.to, 3);
    assert_eq!(
        json(&out.message.to_text()),
        json(r#"{"type": "error", "message": "mensagem inválida"}"#)
    );
}

#[test]
fn server_messages_are_sent_as_json_objects() {
    let cases = vec![
        (ServerMessage::Hosting { code: "482193".to_owned() }, r#"{"type":"hosting","code":"482193"}"#),
        (ServerMessage::Paired { guest_id: Some(3) }, r#"{"type":"paired","guest_id":3}"#),
        (ServerMessage::Paired { guest_id: None }, r#"{"type":"paired"}"#),
        (ServerMessage::PeerLeft { guest_id: Some(0) }, r#"{"type":"peer_left","guest_id":0}"#),
        (ServerMessage::PeerLeft { guest_id: None }, r#"{"type":"peer_left","guest_id":null}"#),
        (
            ServerMessage::Relay { guest_id: Some(4), payload: json("[1,null]") },
            r#"{"type":"relay","guest_id":4,"payload":[1,null]}"#,
        ),
        (
            ServerMessage::Relay { guest_id: None, payload: json("\"x\"") },
            r#"{"type":"relay","payload":"x"}"#,
        ),
        (
            ServerMessage::Relay { guest_id: None, payload: json(r#"{ "b": 1.5, "a": {} }"#) },
            r#"{"type":"relay","payload":{"a":{},"b":1.5}}"#,
        ),
        (
            ServerMessage::Error { message: "n\u{e3}o \"x\"\n".to_owned() },
            "{\"type\":\"error\",\"message\":\"n\u{e3}o \\\"x\\\"\\n\"}",
        ),
    ];
    for (message, expected) in cases {
        assert_eq!(message.to_text(), expected);
    }
}

#[test]
fn client_messages_are_sent_as_json_objects() {
    let cases = vec![
        (ClientMessage::Host { max_viewers: None }, r#"{"type":"host","max_viewers":null}"#),
        (ClientMessage::Host { max_viewers: Some(5) }, r#"{"type":"host","max_viewers":5}"#),
        (ClientMessage::Join("482193".to_owned()), r#"{"type":"join","code":"482193"}"#),
        (
            ClientMessage::Relay { payload: json(r#"{"a":[1]}"#), to: Some(2) },
            r#"{"type":"relay","payload":{"a":[1]},"to":2}"#,
        ),
        (
            ClientMessage::Relay { payload: json("7"), to: None },
            r#"{"type":"relay","payload":7,"to":null}"#,
        ),
        (ClientMessage::Leave, r#"{"type":"leave"}"#),
    ];
    for (message, expected) in cases {
        assert_eq!(json(&message.to_text()), json(expected));
    }
}

#[test]
fn a_former_guest_does_not_touch_a_later_room() {
    let mut relay = Relay::new();
    let host = relay.connect();
    let former = relay.connect();
    let code = relay.host(host, None);
    relay.send(former, ClientMessage::Join(code.clone()));
    let _ = relay.recv(former);
    relay.disconnect(host);
    let _ = relay.recv(former);

    let next_host = relay.connect();
    relay.server.host_room(next_host, None, code.clone());
    let guest = relay.connect();
    relay.send(guest, ClientMessage::Join(code));
    assert_eq!(relay.recv(next_host)["guest_id"], 0);
    let _ = relay.recv(guest);

    relay.send(former, ClientMessage::Relay { payload: json("1"), to: None });
    relay.disconnect(former);
    assert!(relay.silent(next_host));
    assert!(relay.silent(guest));

    relay.send(next_host, ClientMessage::Relay { payload: json("2"), to: Some(0) });
    assert_eq!(relay.recv(guest)["payload"], 2);
    relay.send(guest, ClientMessage::Relay { payload: json("3"), to: None });
    assert_eq!(relay.recv(next_host)["payload"], 3);
}

#[test]
fn leaving_is_disconnecting() {
    for on_purpose in [true, false] {
        let mut relay = Relay::new();
        let host = relay.connect();
        let guest = relay.connect();
        let code = relay.host(host, Some(1));
        relay.send(guest, ClientMessage::Join(code.clone()));
        let _ = relay.recv(guest);
        let _ = relay.recv(host);
        if on_purpose {
            assert!(relay.send(guest, ClientMessage::Leave));
        }
        relay.disconnect(guest);
        assert_eq!(relay.recv(host), json(r#"{"type": "peer_left", "guest_id": 0}"#));
        assert!(relay.silent(host));
        assert!(relay.silent(guest));
        let next = relay.connect();
        relay.send(next, ClientMessage::Join(code));
        assert_eq!(relay.recv(next), json(r#"{"type": "paired"}"#));
        assert_eq!(relay.recv(host)["guest_id"], 1);
    }
}

#[test]
fn a_client_hears_what_the_server_says() {
    let hears = |message: ServerMessage| SignalingEvent::from_text(&message.to_text());
    assert!(matches!(
        hears(ServerMessage::Hosting { code: "482193".to_owned() }),
        Some(SignalingEvent::Hosting(code)) if code == "482193"
    ));
    assert!(matches!(
        hears(ServerMessage::Paired { guest_id: Some(9) }),
        Some(SignalingEvent::Paired { guest_id: Some(9) })
    ));
    assert!(matches!(
        hears(ServerMessage::Paired { guest_id: None }),
        Some(SignalingEvent::Paired { guest_id: None })
    ));
    assert!(matches!(
        hears(ServerMessage::PeerLeft { guest_id: Some(1) }),
        Some(SignalingEvent::PeerLeft { guest_id: Some(1) })
    ));
    assert!(matches!(
        hears(ServerMessage::PeerLeft { guest_id: None }),
        Some(SignalingEvent::PeerLeft { guest_id: None })
    ));
    assert!(matches!(
        hears(ServerMessage::Relay { guest_id: Some(4), payload: json("[1]") }),
        Some(SignalingEvent::Relay { guest_id: Some(4), payload }) if payload == json("[1]")
    ));
    for text in ["não", "", "a \"quoted\" \\ line\r\n\u{0}", "\u{1f600}"] {
        assert!(matches!(
            hears(ServerMessage::Error { message: text.to_owned() }),
            Some(SignalingEvent::Error(message)) if message == text
        ));
    }
}

#[test]
fn a_client_passes_over_what_it_does_not_know() {
    assert!(SignalingEvent::from_text("not json").is_none());
    assert!(SignalingEvent::from_text(r#"{"type":"other"}"#).is_none());
    assert!(SignalingEvent::from_text(r#"{"code":"482193"}"#).is_none());
    assert!(SignalingEvent::from_text("[1,2]").is_none());
}

#[test]
fn missing_members_read_as_empty() {
    assert!(matches!(
        SignalingEvent::from_text(r#"{"type":"hosting"}"#),
        Some(SignalingEvent::Hosting(code)) if code.is_empty()
    ));
    assert!(matches!(
        SignalingEvent::from_text(r#"{"type":"error","message":5}"#),
        Some(SignalingEvent::Error(message)) if message.is_empty()
    ));
    assert!(matches!(
        SignalingEvent::from_text(r#"{"type":"relay"}"#),
        Some(SignalingEvent::Relay { guest_id: None, payload: Value::Null })
    ));
    assert!(matches!(
        SignalingEvent::from_text(r#"{"type":"paired","guest_id":4294967297}"#),
        Some(SignalingEvent::Paired { guest_id: Some(1) })
    ));
    assert!(matches!(
        SignalingEvent::from_text(r#"{"type":"paired","guest_id":-1}"#),
        Some(SignalingEvent::Paired { guest_id: None })
    ));
}

#[test]
fn a_frame_is_read_member_by_member() {
    let frame = ServerFrame::of_value(&json(
        r#"{"type":"relay","guest_id":2,"code":"c","message":"m","payload":{"k":1}}"#,
    ));
    assert_eq!(frame.kind.as_deref(), Some("relay"));
    assert_eq!(frame.guest_id, Some(2));
    assert_eq!(frame.code.as_deref(), Some("c"));
    assert_eq!(frame.message.as_deref(), Some("m"));
    assert_eq!(frame.payload, json(r#"{"k":1}"#));
}
