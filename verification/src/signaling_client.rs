//! The client's side of the signaling protocol: the messages a client sends
//! to the relay, the events it hears back, and how both read as JSON text.

use crate::json;
use crate::text;
use serde_json::Value;
use vstd::prelude::*;
use vstd::string::*;

verus! {

/// Messages a client can send to the signaling server.
pub enum ClientMessage {
    /// Opens a new room. `max_viewers: None` means no cap on the guests that
    /// can join with the resulting code.
    Host { max_viewers: Option<u32> },
    /// Joins the room with this pairing code.
    Join(String),
    /// Passes `payload` to the other side. `to` says which guest a host is
    /// talking to; a guest has one peer only and leaves it `None`.
    Relay { payload: Value, to: Option<u32> },
    /// Ends the session on purpose, as a disconnect would.
    Leave,
}

/// What a [`ClientMessage`] says.
pub enum ClientMessageView {
    Host { max_viewers: Option<u32> },
    Join(Seq<char>),
    Relay { payload: Value, to: Option<u32> },
    Leave,
}

impl View for ClientMessage {
    type V = ClientMessageView;

    open spec fn view(&self) -> ClientMessageView {
        match *self {
            ClientMessage::Host { max_viewers } => ClientMessageView::Host { max_viewers },
            ClientMessage::Join(code) => ClientMessageView::Join(code@),
            ClientMessage::Relay { payload, to } => ClientMessageView::Relay { payload, to },
            ClientMessage::Leave => ClientMessageView::Leave,
        }
    }
}

/// A message says what it is: the same request, with the same cap, code,
/// payload and guest.
pub proof fn law_a_message_says_what_it_is(message: ClientMessage)
    ensures
        match (message, message@) {
            (
                ClientMessage::Host { max_viewers },
                ClientMessageView::Host { max_viewers: said },
            ) => said == max_viewers,
            (ClientMessage::Join(code), ClientMessageView::Join(said)) => said == code@,
            (
                ClientMessage::Relay { payload, to },
                ClientMessageView::Relay { payload: said, to: named },
            ) => said == payload && named == to,
            (ClientMessage::Leave, ClientMessageView::Leave) => true,
            _ => false,
        },
{
}

/// The members of the JSON object that a message is sent as.
pub open spec fn message_members(message: ClientMessageView) -> Map<Seq<char>, Value> {
    match message {
        ClientMessageView::Host { max_viewers } => map![
            "type"@ => json::json_string("host"@),
            "max_viewers"@ => json::json_optional_number(max_viewers)
        ],
        ClientMessageView::Join(code) => map![
            "type"@ => json::json_string("join"@),
            "code"@ => json::json_string(code)
        ],
        ClientMessageView::Relay { payload, to } => map![
            "type"@ => json::json_string("relay"@),
            "payload"@ => payload,
            "to"@ => json::json_optional_number(to)
        ],
        ClientMessageView::Leave => map!["type"@ => json::json_string("leave"@)],
    }
}

/// What an optional number among some members is: `Some(None)` where it is
/// null or not there, `None` where it is anything but a 32-bit number.
pub open spec fn optional_member(members: Map<Seq<char>, Value>, name: Seq<char>) -> Option<
    Option<u32>,
> {
    if !members.contains_key(name) {
        Some(None)
    } else {
        match json::json_as_u64(members[name]) {
            Some(n) => if n <= u32::MAX {
                Some(Some(n as u32))
            } else {
                None
            },
            None => if members[name] == json::json_optional_number(None) {
                Some(None)
            } else {
                None
            },
        }
    }
}

/// The message that an object with these members says: `None` where its type
/// is unknown, a member that it needs is missing, or one is not of the type
/// that it must have. Members that it does not need are passed over.
pub open spec fn message_said(members: Map<Seq<char>, Value>) -> Option<ClientMessageView> {
    let kind = if members.contains_key("type"@) {
        json::json_as_str(members["type"@])
    } else {
        None
    };
    if kind == Some("host"@) {
        match optional_member(members, "max_viewers"@) {
            Some(max_viewers) => Some(ClientMessageView::Host { max_viewers }),
            None => None,
        }
    } else if kind == Some("join"@) {
        if members.contains_key("code"@) && json::json_as_str(members["code"@]) is Some {
            Some(ClientMessageView::Join(json::json_as_str(members["code"@])->0))
        } else {
            None
        }
    } else if kind == Some("relay"@) {
        match optional_member(members, "to"@) {
            Some(to) => if members.contains_key("payload"@) {
                Some(ClientMessageView::Relay { payload: members["payload"@], to })
            } else {
                None
            },
            None => None,
        }
    } else if kind == Some("leave"@) {
        Some(ClientMessageView::Leave)
    } else {
        None
    }
}

proof fn lemma_message_words()
    ensures
        "type"@ != "max_viewers"@,
        "type"@ != "code"@,
        "type"@ != "payload"@,
        "type"@ != "to"@,
        "payload"@ != "to"@,
        "host"@ != "join"@,
        "host"@ != "relay"@,
        "host"@ != "leave"@,
        "join"@ != "relay"@,
        "join"@ != "leave"@,
        "relay"@ != "leave"@,
{
    reveal_strlit("type");
    reveal_strlit("max_viewers");
    reveal_strlit("code");
    reveal_strlit("payload");
    reveal_strlit("to");
    reveal_strlit("host");
    reveal_strlit("join");
    reveal_strlit("relay");
    reveal_strlit("leave");
    assert("type"@[0] == 't' && "code"@[0] == 'c' && "type"@.len() == 4);
    assert("max_viewers"@.len() == 11 && "payload"@.len() == 7 && "to"@.len() == 2);
    assert("host"@.len() == 4 && "host"@[0] == 'h' && "join"@.len() == 4 && "join"@[0] == 'j');
    assert("relay"@.len() == 5 && "relay"@[0] == 'r' && "leave"@.len() == 5 && "leave"@[0] == 'l');
}

/// What each message is on the wire: its type and what it says, under these
/// names, and nothing else. A cap or a guest that is not given is null.
pub proof fn law_what_a_message_is_on_the_wire(
    number: Option<u32>,
    code: Seq<char>,
    payload: Value,
)
    ensures
        ({
            let members = message_members(ClientMessageView::Host { max_viewers: number });
            &&& members.dom() =~= set!["type"@, "max_viewers"@]
            &&& members["type"@] == json::json_string("host"@)
            &&& members["max_viewers"@] == json::json_optional_number(number)
        }),
        ({
            let members = message_members(ClientMessageView::Join(code));
            &&& members.dom() =~= set!["type"@, "code"@]
            &&& members["type"@] == json::json_string("join"@)
            &&& members["code"@] == json::json_string(code)
        }),
        ({
            let members = message_members(ClientMessageView::Relay { payload, to: number });
            &&& members.dom() =~= set!["type"@, "payload"@, "to"@]
            &&& members["type"@] == json::json_string("relay"@)
            &&& members["payload"@] == payload
            &&& members["to"@] == json::json_optional_number(number)
        }),
        ({
            let members = message_members(ClientMessageView::Leave);
            &&& members.dom() =~= set!["type"@]
            &&& members["type"@] == json::json_string("leave"@)
        }),
{
    lemma_message_words();
}

impl ClientMessage {
    /// The JSON object that says this message, and no other.
    pub fn to_value(&self) -> (value: Value)
        ensures
            value == json::json_object(message_members(self@)),
            forall|key: Seq<char>| #[trigger]
                message_members(self@).contains_key(key) ==> json::json_field(value, key)
                    == message_members(self@)[key],
            message_said(message_members(self@)) == Some(self@),
            !(self@ is Relay) ==> json::reads_back(value),
    {
        let mut members = json::no_members();
        match self {
            ClientMessage::Host { max_viewers } => {
                json::add_member(&mut members, "type", json::string("host"));
                json::add_member(&mut members, "max_viewers", json::optional_number(*max_viewers));
            },
            ClientMessage::Join(code) => {
                json::add_member(&mut members, "type", json::string("join"));
                json::add_member(&mut members, "code", json::string(code.as_str()));
            },
            ClientMessage::Relay { payload, to } => {
                json::add_member(&mut members, "type", json::string("relay"));
                json::add_member(&mut members, "payload", json::copy(payload));
                json::add_member(&mut members, "to", json::optional_number(*to));
            },
            ClientMessage::Leave => {
                json::add_member(&mut members, "type", json::string("leave"));
            },
        }
        assert(json::json_members(members) =~= message_members(self@));
        assert(!(self@ is Relay) ==> json::all_scalar(json::json_members(members)));
        let value = json::object(members);
        proof {
            lemma_message_words();
            let named = json::json_members(members);
            assert(named.contains_key("type"@));
            match self@ {
                ClientMessageView::Host { .. } => {
                    assert(named.contains_key("max_viewers"@));
                },
                ClientMessageView::Join(_) => {
                    assert(named.contains_key("code"@));
                },
                ClientMessageView::Relay { .. } => {
                    assert(named.contains_key("payload"@));
                    assert(named.contains_key("to"@));
                },
                ClientMessageView::Leave => {},
            }
        }
        value
    }

    /// The text frame that carries this message to the server. It reads as an
    /// object with the members that say this message, unless it carries a
    /// payload that does not survive being written and read.
    pub fn to_text(&self) -> (text: String)
        ensures
            text@ == json::json_text(json::json_object(message_members(self@))),
            !(self@ is Relay) ==> json::json_parse(text@) == Some(
                json::json_object(message_members(self@)),
            ),
            message_said(message_members(self@)) == Some(self@),
    {
        json::to_text(&self.to_value())
    }
}

/// What the signaling server tells a client.
#[derive(Debug)]
pub enum SignalingEvent {
    /// The pairing code of the room this client now hosts.
    Hosting(String),
    /// For the host, the id of a guest that joined. For a guest, `None`.
    Paired { guest_id: Option<u32> },
    /// For the host, the id of the one guest that left. For a guest, `None`:
    /// its one peer, the host, is gone.
    PeerLeft { guest_id: Option<u32> },
    /// A payload from the other side; for the host, with the guest's id.
    Relay { guest_id: Option<u32>, payload: Value },
    /// The server refused a request.
    Error(String),
    /// The connection to the signaling server itself dropped.
    Disconnected,
}

/// What a [`SignalingEvent`] says.
pub enum SignalingEventView {
    Hosting(Seq<char>),
    Paired { guest_id: Option<u32> },
    PeerLeft { guest_id: Option<u32> },
    Relay { guest_id: Option<u32>, payload: Value },
    Error(Seq<char>),
    Disconnected,
}

impl View for SignalingEvent {
    type V = SignalingEventView;

    open spec fn view(&self) -> SignalingEventView {
        match *self {
            SignalingEvent::Hosting(code) => SignalingEventView::Hosting(code@),
            SignalingEvent::Paired { guest_id } => SignalingEventView::Paired { guest_id },
            SignalingEvent::PeerLeft { guest_id } => SignalingEventView::PeerLeft { guest_id },
            SignalingEvent::Relay { guest_id, payload } => SignalingEventView::Relay {
                guest_id,
                payload,
            },
            SignalingEvent::Error(message) => SignalingEventView::Error(message@),
            SignalingEvent::Disconnected => SignalingEventView::Disconnected,
        }
    }
}

/// An event says what it is: the same news, with the same code, guest, payload
/// and message.
pub proof fn law_an_event_says_what_it_is(event: SignalingEvent)
    ensures
        match (event, event@) {
            (SignalingEvent::Hosting(code), SignalingEventView::Hosting(said)) => said == code@,
            (
                SignalingEvent::Paired { guest_id },
                SignalingEventView::Paired { guest_id: said },
            ) => said == guest_id,
            (
                SignalingEvent::PeerLeft { guest_id },
                SignalingEventView::PeerLeft { guest_id: said },
            ) => said == guest_id,
            (
                SignalingEvent::Relay { guest_id, payload },
                SignalingEventView::Relay { guest_id: named, payload: said },
            ) => named == guest_id && said == payload,
            (SignalingEvent::Error(message), SignalingEventView::Error(said)) => said == message@,
            (SignalingEvent::Disconnected, SignalingEventView::Disconnected) => true,
            _ => false,
        },
{
}

/// The members of a server frame that a client looks at.
pub struct ServerFrame {
    /// `type`, where it is a string.
    pub kind: Option<String>,
    /// `guest_id`, where it is a number.
    pub guest_id: Option<u64>,
    /// `code`, where it is a string.
    pub code: Option<String>,
    /// `message`, where it is a string.
    pub message: Option<String>,
    /// `payload`, or null where there is none.
    pub payload: Value,
}

/// What a [`ServerFrame`] holds.
pub struct ServerFrameView {
    pub kind: Option<Seq<char>>,
    pub guest_id: Option<u64>,
    pub code: Option<Seq<char>>,
    pub message: Option<Seq<char>>,
    pub payload: Value,
}

/// The characters of an optional string.
pub open spec fn optional_text(s: Option<String>) -> Option<Seq<char>> {
    match s {
        Some(t) => Some(t@),
        None => None,
    }
}

/// The characters of an optional string, none where it is absent.
pub open spec fn text_or_empty(s: Option<Seq<char>>) -> Seq<char> {
    match s {
        Some(t) => t,
        None => Seq::empty(),
    }
}

impl View for ServerFrame {
    type V = ServerFrameView;

    open spec fn view(&self) -> ServerFrameView {
        ServerFrameView {
            kind: optional_text(self.kind),
            guest_id: self.guest_id,
            code: optional_text(self.code),
            message: optional_text(self.message),
            payload: self.payload,
        }
    }
}

/// The guest that a frame names: the low 32 bits of its number.
pub open spec fn frame_guest(guest_id: Option<u64>) -> Option<u32> {
    match guest_id {
        Some(n) => Some((n as nat % 0x1_0000_0000) as u32),
        None => None,
    }
}

/// The event that a server frame stands for: `None` for a frame of no known
/// type, which a client passes over.
pub open spec fn frame_event(frame: ServerFrameView) -> Option<SignalingEventView> {
    let guest_id = frame_guest(frame.guest_id);
    if frame.kind == Some("hosting"@) {
        Some(SignalingEventView::Hosting(text_or_empty(frame.code)))
    } else if frame.kind == Some("paired"@) {
        Some(SignalingEventView::Paired { guest_id })
    } else if frame.kind == Some("peer_left"@) {
        Some(SignalingEventView::PeerLeft { guest_id })
    } else if frame.kind == Some("relay"@) {
        Some(SignalingEventView::Relay { guest_id, payload: frame.payload })
    } else if frame.kind == Some("error"@) {
        Some(SignalingEventView::Error(text_or_empty(frame.message)))
    } else {
        None
    }
}

/// The frame that a JSON value holds.
pub open spec fn value_frame(value: Value) -> ServerFrameView {
    ServerFrameView {
        kind: json::json_as_str(json::json_field(value, "type"@)),
        guest_id: json::json_as_u64(json::json_field(value, "guest_id"@)),
        code: json::json_as_str(json::json_field(value, "code"@)),
        message: json::json_as_str(json::json_field(value, "message"@)),
        payload: json::json_field(value, "payload"@),
    }
}

/// The view of an optional event.
pub open spec fn optional_event(event: Option<SignalingEvent>) -> Option<SignalingEventView> {
    match event {
        Some(e) => Some(e@),
        None => None,
    }
}

fn owned_or_empty(s: Option<String>) -> (r: String)
    ensures
        r@ == text_or_empty(optional_text(s)),
{
    match s {
        Some(t) => t,
        None => String::new(),
    }
}

impl ServerFrame {
    /// Picks out of a JSON value the members that a client looks at.
    pub fn of_value(value: &Value) -> (frame: ServerFrame)
        ensures
            frame@ == value_frame(*value),
    {
        ServerFrame {
            kind: json::as_text(json::field(value, "type")),
            guest_id: json::as_number(json::field(value, "guest_id")),
            code: json::as_text(json::field(value, "code")),
            message: json::as_text(json::field(value, "message")),
            payload: json::copy(json::field(value, "payload")),
        }
    }

    /// The event that this frame stands for, if its type is known.
    pub fn into_event(self) -> (event: Option<SignalingEvent>)
        ensures
            optional_event(event) == frame_event(self@),
    {
        let guest_id: Option<u32> = match self.guest_id {
            Some(n) => Some((n % 0x1_0000_0000) as u32),
            None => None,
        };
        let kind = match self.kind {
            Some(kind) => kind,
            None => {
                return None;
            },
        };
        if text::same_text(&kind, "hosting") {
            Some(SignalingEvent::Hosting(owned_or_empty(self.code)))
        } else if text::same_text(&kind, "paired") {
            Some(SignalingEvent::Paired { guest_id })
        } else if text::same_text(&kind, "peer_left") {
            Some(SignalingEvent::PeerLeft { guest_id })
        } else if text::same_text(&kind, "relay") {
            Some(SignalingEvent::Relay { guest_id, payload: self.payload })
        } else if text::same_text(&kind, "error") {
            Some(SignalingEvent::Error(owned_or_empty(self.message)))
        } else {
            None
        }
    }
}

/// The event that one text frame of the server stands for.
pub open spec fn text_event(text: Seq<char>) -> Option<SignalingEventView> {
    match json::json_parse(text) {
        Some(value) => frame_event(value_frame(value)),
        None => None,
    }
}

impl SignalingEvent {
    /// The event that one text frame of the server stands for. A text that is
    /// no JSON, or a frame of no known type, stands for none.
    pub fn from_text(text: &str) -> (event: Option<SignalingEvent>)
        ensures
            optional_event(event) == text_event(text@),
    {
        match json::parse(text) {
            Some(value) => ServerFrame::of_value(&value).into_event(),
            None => None,
        }
    }
}

/// A frame is taken for what its type says, with what it holds under the names
/// for that type: a text that is missing is empty, a guest that is missing is
/// none, and of a guest the low 32 bits count. What is no JSON, or has no type
/// that is known, is passed over.
pub proof fn law_a_frame_is_heard_by_its_type(text: Seq<char>, value: Value)
    requires
        json::json_parse(text) == Some(value),
    ensures
        ({
            let kind = json::json_as_str(json::json_field(value, "type"@));
            let code = json::json_as_str(json::json_field(value, "code"@));
            let message = json::json_as_str(json::json_field(value, "message"@));
            let number = json::json_as_u64(json::json_field(value, "guest_id"@));
            let guest_id: Option<u32> = if number is Some {
                Some((number->0 as int % 0x1_0000_0000) as u32)
            } else {
                None
            };
            let payload = json::json_field(value, "payload"@);
            &&& kind == Some("hosting"@) ==> text_event(text) == Some(
                SignalingEventView::Hosting(
                    if code is Some {
                        code->0
                    } else {
                        Seq::empty()
                    },
                ),
            )
            &&& kind == Some("paired"@) ==> text_event(text) == Some(
                SignalingEventView::Paired { guest_id },
            )
            &&& kind == Some("peer_left"@) ==> text_event(text) == Some(
                SignalingEventView::PeerLeft { guest_id },
            )
            &&& kind == Some("relay"@) ==> text_event(text) == Some(
                SignalingEventView::Relay { guest_id, payload },
            )
            &&& kind == Some("error"@) ==> text_event(text) == Some(
                SignalingEventView::Error(
                    if message is Some {
                        message->0
                    } else {
                        Seq::empty()
                    },
                ),
            )
            &&& kind != Some("hosting"@) && kind != Some("paired"@) && kind != Some("peer_left"@)
                && kind != Some("relay"@) && kind != Some("error"@) ==> text_event(text) is None
        }),
{
    reveal_strlit("hosting");
    reveal_strlit("paired");
    reveal_strlit("peer_left");
    reveal_strlit("relay");
    reveal_strlit("error");
    assert("hosting"@.len() == 7 && "paired"@.len() == 6 && "peer_left"@.len() == 9);
    assert("relay"@.len() == 5 && "error"@.len() == 5);
    assert("relay"@[0] == 'r' && "error"@[0] == 'e');
}

/// What is no JSON is no event.
pub proof fn law_what_is_no_json_is_passed_over(text: Seq<char>)
    requires
        json::json_parse(text) is None,
    ensures
        text_event(text) is None,
{
}

} // verus!
