//! The handshake of a session over the signaling relay: what each side makes
//! of the events it hears, from the first reply of the server until the
//! session ends.
//!
//! A host talks to one guest at a time through a session, and knows its guest
//! by the id that the relay gave it. A guest has one peer only.

use crate::peer::MediaKind;
use crate::signaling_client;
use crate::signaling_client::{ClientMessage, ClientMessageView, SignalingEvent, SignalingEventView};
use rtc::peer_connection::sdp::{RTCSdpType, RTCSessionDescription};
use rtc::peer_connection::transport::RTCIceCandidateInit;
use rtc::shared::error::Error;
use serde_json::Value;
use vstd::prelude::*;
use vstd::string::*;

verus! {

/// A session description of `rtc`: its type, its text, and the parsed form of
/// the text where one of the constructors made it.
#[verifier::external_type_specification]
#[verifier::external_body]
pub struct ExSessionDescription(rtc::peer_connection::sdp::RTCSessionDescription);

/// An ICE candidate of `rtc`, carried through as it came.
#[verifier::external_type_specification]
#[verifier::external_body]
pub struct ExIceCandidateInit(rtc::peer_connection::transport::RTCIceCandidateInit);

/// The role of a session description in the offer/answer exchange.
#[derive(Debug, Clone, Copy, PartialEq, Eq, Structural)]
pub enum SdpType {
    Unspecified,
    Offer,
    Pranswer,
    Answer,
    Rollback,
}

/// One relayed handshake message: the description of one side, or a single
/// ICE candidate. A description travels as its type and text alone, since its
/// parsed form does not survive the trip.
pub enum RelayPayload {
    Sdp { sdp_type: SdpType, sdp: String },
    IceCandidate(RTCIceCandidateInit),
}

/// What a [`RelayPayload`] says.
pub enum RelayPayloadView {
    Sdp { sdp_type: SdpType, sdp: Seq<char> },
    IceCandidate(RTCIceCandidateInit),
}

impl View for RelayPayload {
    type V = RelayPayloadView;

    open spec fn view(&self) -> RelayPayloadView {
        match *self {
            RelayPayload::Sdp { sdp_type, sdp } => RelayPayloadView::Sdp { sdp_type, sdp: sdp@ },
            RelayPayload::IceCandidate(candidate) => RelayPayloadView::IceCandidate(candidate),
        }
    }
}

/// A payload says what it is: a description with its type and text, or that
/// very candidate.
pub proof fn law_a_payload_says_what_it_is(payload: RelayPayload)
    ensures
        match (payload, payload@) {
            (
                RelayPayload::Sdp { sdp_type, sdp },
                RelayPayloadView::Sdp { sdp_type: said_type, sdp: said },
            ) => said_type == sdp_type && said == sdp@,
            (RelayPayload::IceCandidate(candidate), RelayPayloadView::IceCandidate(said)) => said
                == candidate,
            _ => false,
        },
{
}

/// The view of an optional payload.
pub open spec fn optional_payload(payload: Option<RelayPayload>) -> Option<RelayPayloadView> {
    match payload {
        Some(p) => Some(p@),
        None => None,
    }
}

/// At which point of a session an unexpected event came.
#[derive(Debug, Clone, Copy, PartialEq, Eq, Structural)]
pub enum Phase {
    Hosting,
    Waiting,
    Joining,
}

/// Why a session came to nothing.
pub enum SessionError {
    /// The signaling server refused a request, with this message.
    Signaling(String),
    /// The signaling server said something else than it should, or nothing.
    Unexpected { during: Phase, event: Option<SignalingEvent> },
    /// The other side left before it joined.
    LeftBeforeJoining,
    /// The other side left in the middle of the handshake.
    LeftDuringHandshake,
    /// The connection to the signaling server dropped.
    LostSignaling,
    /// The events of the signaling client ended without a word.
    SignalingClosed,
    /// The signaling client takes no more messages.
    ChannelClosed,
    /// A relayed description did not say what it is.
    UnspecifiedSdpType,
    /// The text of a relayed description is no session description.
    BadSdp(Error),
    /// A track was added but no codec was negotiated for it.
    NoNegotiatedCodec(MediaKind),
}

/// What a [`SessionError`] says.
pub enum SessionErrorView {
    Signaling(Seq<char>),
    Unexpected { during: Phase, event: Option<SignalingEventView> },
    LeftBeforeJoining,
    LeftDuringHandshake,
    LostSignaling,
    SignalingClosed,
    ChannelClosed,
    UnspecifiedSdpType,
    BadSdp(Error),
    NoNegotiatedCodec(MediaKind),
}

impl View for SessionError {
    type V = SessionErrorView;

    open spec fn view(&self) -> SessionErrorView {
        match *self {
            SessionError::Signaling(message) => SessionErrorView::Signaling(message@),
            SessionError::Unexpected { during, event } => SessionErrorView::Unexpected {
                during,
                event: signaling_client::optional_event(event),
            },
            SessionError::LeftBeforeJoining => SessionErrorView::LeftBeforeJoining,
            SessionError::LeftDuringHandshake => SessionErrorView::LeftDuringHandshake,
            SessionError::LostSignaling => SessionErrorView::LostSignaling,
            SessionError::SignalingClosed => SessionErrorView::SignalingClosed,
            SessionError::ChannelClosed => SessionErrorView::ChannelClosed,
            SessionError::UnspecifiedSdpType => SessionErrorView::UnspecifiedSdpType,
            SessionError::BadSdp(error) => SessionErrorView::BadSdp(error),
            SessionError::NoNegotiatedCodec(kind) => SessionErrorView::NoNegotiatedCodec(kind),
        }
    }
}

/// An error says what it is: the same failure, with the same message, event
/// and cause.
pub proof fn law_an_error_says_what_it_is(error: SessionError)
    ensures
        match (error, error@) {
            (SessionError::Signaling(message), SessionErrorView::Signaling(said)) => said
                == message@,
            (
                SessionError::Unexpected { during, event },
                SessionErrorView::Unexpected { during: said, event: shown },
            ) => said == during && match (event, shown) {
                (Some(e), Some(v)) => e@ == v,
                (None, None) => true,
                _ => false,
            },
            (SessionError::LeftBeforeJoining, SessionErrorView::LeftBeforeJoining) => true,
            (SessionError::LeftDuringHandshake, SessionErrorView::LeftDuringHandshake) => true,
            (SessionError::LostSignaling, SessionErrorView::LostSignaling) => true,
            (SessionError::SignalingClosed, SessionErrorView::SignalingClosed) => true,
            (SessionError::ChannelClosed, SessionErrorView::ChannelClosed) => true,
            (SessionError::UnspecifiedSdpType, SessionErrorView::UnspecifiedSdpType) => true,
            (SessionError::BadSdp(cause), SessionErrorView::BadSdp(said)) => said == cause,
            (SessionError::NoNegotiatedCodec(kind), SessionErrorView::NoNegotiatedCodec(said)) => said
                == kind,
            _ => false,
        },
{
}

/// The text of an error. `shown` is how the unexpected event, or the error in
/// the description, prints.
pub open spec fn error_text(error: SessionErrorView, shown: Seq<char>) -> Seq<char> {
    match error {
        SessionErrorView::Signaling(message) => "signaling error: "@ + message,
        SessionErrorView::Unexpected { during: Phase::Hosting, .. } =>
            "unexpected signaling response: "@ + shown,
        SessionErrorView::Unexpected { during: Phase::Waiting, .. } =>
            "unexpected signaling response while waiting: "@ + shown,
        SessionErrorView::Unexpected { during: Phase::Joining, .. } =>
            "unexpected signaling response while joining: "@ + shown,
        SessionErrorView::LeftBeforeJoining => "the other side left before joining"@,
        SessionErrorView::LeftDuringHandshake =>
            "the other side left before completing the handshake"@,
        SessionErrorView::LostSignaling => "lost connection to the signaling server"@,
        SessionErrorView::SignalingClosed => "signaling channel closed unexpectedly"@,
        SessionErrorView::ChannelClosed => "signaling channel closed"@,
        SessionErrorView::UnspecifiedSdpType => "relayed SDP with an unspecified type"@,
        SessionErrorView::BadSdp(_) => shown,
        SessionErrorView::NoNegotiatedCodec(MediaKind::Video) => "sender has no negotiated codec"@,
        SessionErrorView::NoNegotiatedCodec(MediaKind::Audio) =>
            "sender has no negotiated audio codec"@,
    }
}

/// What an error says to the user is what was said to this side: a refusal
/// its message, an unexpected event and an unreadable description how they
/// print. Every other error says the same whatever is shown.
pub proof fn law_an_error_passes_on_what_was_said(
    message: Seq<char>,
    event: Option<SignalingEventView>,
    error: Error,
    shown: Seq<char>,
)
    ensures
        error_text(SessionErrorView::Signaling(message), shown) == "signaling error: "@ + message,
        error_text(SessionErrorView::Unexpected { during: Phase::Hosting, event }, shown)
            == "unexpected signaling response: "@ + shown,
        error_text(SessionErrorView::Unexpected { during: Phase::Waiting, event }, shown)
            == "unexpected signaling response while waiting: "@ + shown,
        error_text(SessionErrorView::Unexpected { during: Phase::Joining, event }, shown)
            == "unexpected signaling response while joining: "@ + shown,
        error_text(SessionErrorView::BadSdp(error), shown) == shown,
        error_text(SessionErrorView::LeftBeforeJoining, shown)
            == "the other side left before joining"@,
        error_text(SessionErrorView::LeftDuringHandshake, shown)
            == "the other side left before completing the handshake"@,
        error_text(SessionErrorView::LostSignaling, shown)
            == "lost connection to the signaling server"@,
        error_text(SessionErrorView::SignalingClosed, shown)
            == "signaling channel closed unexpectedly"@,
        error_text(SessionErrorView::ChannelClosed, shown) == "signaling channel closed"@,
        error_text(SessionErrorView::UnspecifiedSdpType, shown)
            == "relayed SDP with an unspecified type"@,
        error_text(SessionErrorView::NoNegotiatedCodec(MediaKind::Video), shown)
            == "sender has no negotiated codec"@,
        error_text(SessionErrorView::NoNegotiatedCodec(MediaKind::Audio), shown)
            == "sender has no negotiated audio codec"@,
{
}

impl SessionError {
    /// Says in words what went wrong. `shown` is how the unexpected event, or
    /// the error in the description, prints; the other errors do not use it.
    pub fn describe(&self, shown: &str) -> (text: String)
        ensures
            text@ == error_text(self@, shown@),
    {
        match self {
            SessionError::Signaling(message) => "signaling error: ".to_owned().concat(
                message.as_str(),
            ),
            SessionError::Unexpected { during, .. } => match during {
                Phase::Hosting => "unexpected signaling response: ".to_owned().concat(shown),
                Phase::Waiting => "unexpected signaling response while waiting: ".to_owned().concat(
                    shown,
                ),
                Phase::Joining => "unexpected signaling response while joining: ".to_owned().concat(
                    shown,
                ),
            },
            SessionError::LeftBeforeJoining => "the other side left before joining".to_owned(),
            SessionError::LeftDuringHandshake =>
                "the other side left before completing the handshake".to_owned(),
            SessionError::LostSignaling => "lost connection to the signaling server".to_owned(),
            SessionError::SignalingClosed => "signaling channel closed unexpectedly".to_owned(),
            SessionError::ChannelClosed => "signaling channel closed".to_owned(),
            SessionError::UnspecifiedSdpType => "relayed SDP with an unspecified type".to_owned(),
            SessionError::BadSdp(_) => shown.to_owned(),
            SessionError::NoNegotiatedCodec(kind) => match kind {
                MediaKind::Video => "sender has no negotiated codec".to_owned(),
                MediaKind::Audio => "sender has no negotiated audio codec".to_owned(),
            },
        }
    }
}

/// What `RTCSessionDescription::unmarshal` reports of a text: `None` where it
/// can read the text as a session description.
pub uninterp spec fn sdp_error(sdp: Seq<char>) -> Option<Error>;

/// The type and the text of a session description: its two public fields.
pub uninterp spec fn description_parts(desc: RTCSessionDescription) -> (SdpType, Seq<char>);

/// Whether a session description carries the parsed form of its text, without
/// which it cannot be applied to a connection.
pub uninterp spec fn description_is_parsed(desc: RTCSessionDescription) -> bool;

/// `RTCSessionDescription::offer`: parses the text and keeps it, with its
/// parsed form, as an offer; fails where the text cannot be parsed.
#[verifier::external_body]
fn offer(sdp: String) -> (r: Result<RTCSessionDescription, Error>)
    ensures
        (match r {
            Ok(desc) => sdp_error(sdp@) is None && description_parts(desc) == (SdpType::Offer, sdp@)
                && description_is_parsed(desc),
            Err(e) => sdp_error(sdp@) == Some(e),
        }),
{
    RTCSessionDescription::offer(sdp)
}

/// `RTCSessionDescription::answer`: the same, as an answer.
#[verifier::external_body]
fn answer(sdp: String) -> (r: Result<RTCSessionDescription, Error>)
    ensures
        (match r {
            Ok(desc) => sdp_error(sdp@) is None && description_parts(desc) == (SdpType::Answer, sdp@)
                && description_is_parsed(desc),
            Err(e) => sdp_error(sdp@) == Some(e),
        }),
{
    RTCSessionDescription::answer(sdp)
}

/// `RTCSessionDescription::pranswer`: the same, as a provisional answer.
#[verifier::external_body]
fn pranswer(sdp: String) -> (r: Result<RTCSessionDescription, Error>)
    ensures
        (match r {
            Ok(desc) => sdp_error(sdp@) is None && description_parts(desc) == (SdpType::Pranswer, sdp@)
                && description_is_parsed(desc),
            Err(e) => sdp_error(sdp@) == Some(e),
        }),
{
    RTCSessionDescription::pranswer(sdp)
}

/// `RTCSessionDescription::rollback` of a text: the same, as a rollback,
/// except that an empty text is kept without being parsed.
#[verifier::external_body]
fn rollback(sdp: String) -> (r: Result<RTCSessionDescription, Error>)
    ensures
        (match r {
            Ok(desc) => (sdp@.len() == 0 || sdp_error(sdp@) is None) && description_parts(desc) == (
                SdpType::Rollback,
                sdp@,
            ) && description_is_parsed(desc) == (sdp@.len() > 0),
            Err(e) => sdp@.len() > 0 && sdp_error(sdp@) == Some(e),
        }),
{
    RTCSessionDescription::rollback(Some(sdp))
}

/// The `sdp_type` and `sdp` fields of a session description.
#[verifier::external_body]
fn parts_of(desc: &RTCSessionDescription) -> (r: (SdpType, String))
    ensures
        (r.0, r.1@) == description_parts(*desc),
{
    let sdp_type = match desc.sdp_type {
        RTCSdpType::Unspecified => SdpType::Unspecified,
        RTCSdpType::Offer => SdpType::Offer,
        RTCSdpType::Pranswer => SdpType::Pranswer,
        RTCSdpType::Answer => SdpType::Answer,
        RTCSdpType::Rollback => SdpType::Rollback,
    };
    (sdp_type, desc.sdp.clone())
}

/// The payload that carries a session description to the other side.
pub open spec fn description_payload(desc: RTCSessionDescription) -> RelayPayloadView {
    RelayPayloadView::Sdp { sdp_type: description_parts(desc).0, sdp: description_parts(desc).1 }
}

impl RelayPayload {
    /// The payload that carries a session description to the other side.
    pub fn from_description(desc: &RTCSessionDescription) -> (payload: RelayPayload)
        ensures
            payload@ == description_payload(*desc),
    {
        let (sdp_type, sdp) = parts_of(desc);
        RelayPayload::Sdp { sdp_type, sdp }
    }
}

/// Why a relayed type and text make no session description: `None` where they
/// make one.
pub open spec fn description_error(sdp_type: SdpType, sdp: Seq<char>) -> Option<SessionErrorView> {
    if sdp_type == SdpType::Unspecified {
        Some(SessionErrorView::UnspecifiedSdpType)
    } else if sdp_type == SdpType::Rollback && sdp.len() == 0 {
        None
    } else {
        match sdp_error(sdp) {
            Some(e) => Some(SessionErrorView::BadSdp(e)),
            None => None,
        }
    }
}

/// Whether a session description is the one that a relayed type and text
/// make: the same parts, and the parsed form of any text there is.
pub open spec fn is_rebuilt(
    desc: RTCSessionDescription,
    sdp_type: SdpType,
    sdp: Seq<char>,
) -> bool {
    &&& description_parts(desc) == (sdp_type, sdp)
    &&& description_is_parsed(desc) == !(sdp_type == SdpType::Rollback && sdp.len() == 0)
}

/// Makes a session description of a relayed type and text, by the constructor
/// of its type, so that it carries its parsed form.
pub fn session_description_from_parts(sdp_type: SdpType, sdp: String) -> (r: Result<
    RTCSessionDescription,
    SessionError,
>)
    ensures
        match r {
            Ok(desc) => description_error(sdp_type, sdp@) is None && is_rebuilt(
                desc,
                sdp_type,
                sdp@,
            ),
            Err(e) => description_error(sdp_type, sdp@) == Some(e@),
        },
{
    let made = match sdp_type {
        SdpType::Offer => offer(sdp),
        SdpType::Answer => answer(sdp),
        SdpType::Pranswer => pranswer(sdp),
        SdpType::Rollback => rollback(sdp),
        SdpType::Unspecified => {
            return Err(SessionError::UnspecifiedSdpType);
        },
    };
    match made {
        Ok(desc) => Ok(desc),
        Err(e) => Err(SessionError::BadSdp(e)),
    }
}

/// A relayed description is refused if and only if it does not say what it is
/// or its text cannot be read; a rollback may go without a text. The refusal
/// says which.
pub proof fn law_a_description_is_refused_only_for_a_reason(sdp_type: SdpType, sdp: Seq<char>)
    ensures
        sdp_type == SdpType::Unspecified ==> description_error(sdp_type, sdp) == Some(
            SessionErrorView::UnspecifiedSdpType,
        ),
        sdp_type != SdpType::Unspecified && sdp_error(sdp) is None ==> description_error(
            sdp_type,
            sdp,
        ) is None,
        description_error(SdpType::Rollback, Seq::empty()) is None,
        sdp_type != SdpType::Unspecified && sdp_error(sdp) is Some && (sdp_type != SdpType::Rollback
            || sdp.len() > 0) ==> description_error(sdp_type, sdp) == Some(
            SessionErrorView::BadSdp(sdp_error(sdp)->0),
        ),
{
}

/// What a description is sent as makes the same description again on the
/// other side, ready to be applied.
pub proof fn law_a_description_survives_the_relay(
    sent: RTCSessionDescription,
    received: RTCSessionDescription,
)
    requires
        description_payload(sent) matches RelayPayloadView::Sdp { sdp_type, sdp } && is_rebuilt(
            received,
            sdp_type,
            sdp,
        ),
    ensures
        description_parts(received) == description_parts(sent),
        description_parts(sent).0 != SdpType::Rollback || description_parts(sent).1.len() > 0
            ==> description_is_parsed(received),
{
}

/// The message that takes a payload to the peer of a session. A host names
/// its guest; a guest has no one to name.
pub fn relay_to_peer(peer: Option<u32>, payload: Value) -> (message: ClientMessage)
    ensures
        message@ == (ClientMessageView::Relay { payload, to: peer }),
{
    ClientMessage::Relay { payload, to: peer }
}

/// Whether an event about `guest_id` is about the peer of a session.
pub open spec fn concerns(peer: Option<u32>, guest_id: Option<u32>) -> bool {
    peer is None || guest_id == peer
}

fn is_about(peer: Option<u32>, guest_id: Option<u32>) -> (r: bool)
    ensures
        r == concerns(peer, guest_id),
{
    match peer {
        None => true,
        Some(p) => match guest_id {
            None => false,
            Some(g) => p == g,
        },
    }
}

/// The pairing code in the reply to a request to host, or why there is none.
pub open spec fn hosting_reply(event: Option<SignalingEventView>) -> Result<
    Seq<char>,
    SessionErrorView,
> {
    match event {
        Some(SignalingEventView::Hosting(code)) => Ok(code),
        Some(SignalingEventView::Error(message)) => Err(SessionErrorView::Signaling(message)),
        _ => Err(SessionErrorView::Unexpected { during: Phase::Hosting, event }),
    }
}

/// Reads the reply to a request to host.
pub fn hosting_code(event: Option<SignalingEvent>) -> (r: Result<String, SessionError>)
    ensures
        match r {
            Ok(code) => hosting_reply(signaling_client::optional_event(event)) == Ok::<
                Seq<char>,
                SessionErrorView,
            >(code@),
            Err(e) => hosting_reply(signaling_client::optional_event(event)) == Err::<
                Seq<char>,
                SessionErrorView,
            >(e@),
        },
{
    match event {
        Some(SignalingEvent::Hosting(code)) => Ok(code),
        Some(SignalingEvent::Error(message)) => Err(SessionError::Signaling(message)),
        other => Err(SessionError::Unexpected { during: Phase::Hosting, event: other }),
    }
}

/// The guest that joined a hosted room, or why none did.
pub open spec fn host_reply(event: Option<SignalingEventView>) -> Result<
    Option<u32>,
    SessionErrorView,
> {
    match event {
        Some(SignalingEventView::Paired { guest_id }) => Ok(guest_id),
        Some(SignalingEventView::PeerLeft { .. }) => Err(SessionErrorView::LeftBeforeJoining),
        Some(SignalingEventView::Error(message)) => Err(SessionErrorView::Signaling(message)),
        _ => Err(SessionErrorView::Unexpected { during: Phase::Waiting, event }),
    }
}

/// Reads the event that a host waits for once it has a code: who joined.
pub fn host_paired(event: Option<SignalingEvent>) -> (r: Result<Option<u32>, SessionError>)
    ensures
        match r {
            Ok(guest) => host_reply(signaling_client::optional_event(event)) == Ok::<
                Option<u32>,
                SessionErrorView,
            >(guest),
            Err(e) => host_reply(signaling_client::optional_event(event)) == Err::<
                Option<u32>,
                SessionErrorView,
            >(e@),
        },
{
    match event {
        Some(SignalingEvent::Paired { guest_id }) => Ok(guest_id),
        Some(SignalingEvent::PeerLeft { .. }) => Err(SessionError::LeftBeforeJoining),
        Some(SignalingEvent::Error(message)) => Err(SessionError::Signaling(message)),
        other => Err(SessionError::Unexpected { during: Phase::Waiting, event: other }),
    }
}

/// Whether a guest got into the room, or why it did not.
pub open spec fn guest_reply(event: Option<SignalingEventView>) -> Result<(), SessionErrorView> {
    match event {
        Some(SignalingEventView::Paired { .. }) => Ok(()),
        Some(SignalingEventView::Error(message)) => Err(SessionErrorView::Signaling(message)),
        _ => Err(SessionErrorView::Unexpected { during: Phase::Joining, event }),
    }
}

/// Reads the reply to a request to join.
pub fn guest_paired(event: Option<SignalingEvent>) -> (r: Result<(), SessionError>)
    ensures
        match r {
            Ok(()) => guest_reply(signaling_client::optional_event(event)) is Ok,
            Err(e) => guest_reply(signaling_client::optional_event(event)) == Err::<
                (),
                SessionErrorView,
            >(e@),
        },
{
    match event {
        Some(SignalingEvent::Paired { .. }) => Ok(()),
        Some(SignalingEvent::Error(message)) => Err(SessionError::Signaling(message)),
        other => Err(SessionError::Unexpected { during: Phase::Joining, event: other }),
    }
}

/// A reply to a request to host gives a code if and only if it is one with
/// that code; a refusal is reported with its message, and anything else as it
/// came.
pub proof fn law_hosting_takes_the_code_it_is_given(
    event: Option<SignalingEventView>,
    text: Seq<char>,
)
    ensures
        hosting_reply(Some(SignalingEventView::Hosting(text))) == Ok::<Seq<char>, SessionErrorView>(
            text,
        ),
        hosting_reply(Some(SignalingEventView::Error(text))) == Err::<Seq<char>, SessionErrorView>(
            SessionErrorView::Signaling(text),
        ),
        !(event matches Some(SignalingEventView::Hosting(_))) && !(event matches Some(
            SignalingEventView::Error(_),
        )) ==> hosting_reply(event) == Err::<Seq<char>, SessionErrorView>(
            SessionErrorView::Unexpected { during: Phase::Hosting, event },
        ),
{
}

/// A host that waits takes whoever joins first. That somebody left is reported
/// as such, a refusal with its message, and anything else as it came.
pub proof fn law_a_host_takes_whoever_joins(
    event: Option<SignalingEventView>,
    guest_id: Option<u32>,
    text: Seq<char>,
)
    ensures
        host_reply(Some(SignalingEventView::Paired { guest_id })) == Ok::<
            Option<u32>,
            SessionErrorView,
        >(guest_id),
        host_reply(Some(SignalingEventView::PeerLeft { guest_id })) == Err::<
            Option<u32>,
            SessionErrorView,
        >(SessionErrorView::LeftBeforeJoining),
        host_reply(Some(SignalingEventView::Error(text))) == Err::<Option<u32>, SessionErrorView>(
            SessionErrorView::Signaling(text),
        ),
        !(event matches Some(SignalingEventView::Paired { .. })) && !(event matches Some(
            SignalingEventView::PeerLeft { .. },
        )) && !(event matches Some(SignalingEventView::Error(_))) ==> host_reply(event) == Err::<
            Option<u32>,
            SessionErrorView,
        >(SessionErrorView::Unexpected { during: Phase::Waiting, event }),
{
}

/// A guest is in if and only if it is told so. A refusal is reported with its
/// message, and anything else as it came.
pub proof fn law_a_guest_is_in_when_it_is_told_so(
    event: Option<SignalingEventView>,
    guest_id: Option<u32>,
    text: Seq<char>,
)
    ensures
        guest_reply(Some(SignalingEventView::Paired { guest_id })) == Ok::<(), SessionErrorView>(()),
        guest_reply(Some(SignalingEventView::Error(text))) == Err::<(), SessionErrorView>(
            SessionErrorView::Signaling(text),
        ),
        !(event matches Some(SignalingEventView::Paired { .. })) && !(event matches Some(
            SignalingEventView::Error(_),
        )) ==> guest_reply(event) == Err::<(), SessionErrorView>(
            SessionErrorView::Unexpected { during: Phase::Joining, event },
        ),
{
}

/// Where the wait for the other side's description stands.
pub enum WaitView {
    /// It goes on, with these candidates kept for later.
    Waiting(Seq<RTCIceCandidateInit>),
    /// The description came, after these candidates.
    Done { sdp_type: SdpType, sdp: Seq<char>, candidates: Seq<RTCIceCandidateInit> },
    /// It came to nothing.
    Failed(SessionErrorView),
}

/// What one more event does to the wait for the other side's description.
/// `event` is `None` where the events ended; `read` is what the payload of a
/// relayed event reads as, if it reads as anything.
pub open spec fn wait_step(
    peer: Option<u32>,
    buffered: Seq<RTCIceCandidateInit>,
    event: Option<SignalingEventView>,
    read: Option<RelayPayloadView>,
) -> WaitView {
    match event {
        None => WaitView::Failed(SessionErrorView::SignalingClosed),
        Some(SignalingEventView::Relay { guest_id, .. }) => if !concerns(peer, guest_id) {
            WaitView::Waiting(buffered)
        } else {
            match read {
                Some(RelayPayloadView::Sdp { sdp_type, sdp }) => match description_error(
                    sdp_type,
                    sdp,
                ) {
                    None => WaitView::Done { sdp_type, sdp, candidates: buffered },
                    Some(e) => WaitView::Failed(e),
                },
                Some(RelayPayloadView::IceCandidate(candidate)) => WaitView::Waiting(
                    buffered.push(candidate),
                ),
                None => WaitView::Waiting(buffered),
            }
        },
        Some(SignalingEventView::PeerLeft { guest_id }) => if concerns(peer, guest_id) {
            WaitView::Failed(SessionErrorView::LeftDuringHandshake)
        } else {
            WaitView::Waiting(buffered)
        },
        Some(SignalingEventView::Disconnected) => WaitView::Failed(SessionErrorView::LostSignaling),
        Some(SignalingEventView::Error(message)) => WaitView::Failed(
            SessionErrorView::Signaling(message),
        ),
        Some(_) => WaitView::Waiting(buffered),
    }
}

/// The wait for the other side's description. Candidates that arrive before
/// it are kept: they cannot be applied without it.
pub struct RemoteSdpWait {
    pub peer: Option<u32>,
    pub buffered: Vec<RTCIceCandidateInit>,
}

/// What one event made of the wait.
pub enum WaitOutcome {
    Waiting(RemoteSdpWait),
    Done(RTCSessionDescription, Vec<RTCIceCandidateInit>),
    Failed(SessionError),
}

impl WaitOutcome {
    /// Whether this is the outcome that `view` describes.
    pub open spec fn shows(&self, peer: Option<u32>, view: WaitView) -> bool {
        match (*self, view) {
            (WaitOutcome::Waiting(wait), WaitView::Waiting(buffered)) => wait.peer == peer
                && wait.buffered@ == buffered,
            (
                WaitOutcome::Done(desc, candidates),
                WaitView::Done { sdp_type, sdp, candidates: kept },
            ) => is_rebuilt(desc, sdp_type, sdp) && candidates@ == kept,
            (WaitOutcome::Failed(e), WaitView::Failed(error)) => e@ == error,
            _ => false,
        }
    }
}

impl RemoteSdpWait {
    /// Starts to wait for the description of `peer`: the guest's id on the
    /// host's side, `None` on the guest's.
    pub fn new(peer: Option<u32>) -> (wait: RemoteSdpWait)
        ensures
            wait.peer == peer,
            wait.buffered@ == Seq::<RTCIceCandidateInit>::empty(),
    {
        RemoteSdpWait { peer, buffered: Vec::new() }
    }

    /// Takes in one event. `read` is what the payload of a relayed event
    /// reads as; a payload that reads as nothing is passed over.
    pub fn step(self, event: Option<SignalingEvent>, read: Option<RelayPayload>) -> (outcome:
        WaitOutcome)
        ensures
            outcome.shows(
                self.peer,
                wait_step(
                    self.peer,
                    self.buffered@,
                    signaling_client::optional_event(event),
                    optional_payload(read),
                ),
            ),
    {
        match event {
            None => WaitOutcome::Failed(SessionError::SignalingClosed),
            Some(SignalingEvent::Relay { guest_id, .. }) => {
                if !is_about(self.peer, guest_id) {
                    return WaitOutcome::Waiting(self);
                }
                match read {
                    Some(RelayPayload::Sdp { sdp_type, sdp }) => {
                        match session_description_from_parts(sdp_type, sdp) {
                            Ok(desc) => WaitOutcome::Done(desc, self.buffered),
                            Err(e) => WaitOutcome::Failed(e),
                        }
                    },
                    Some(RelayPayload::IceCandidate(candidate)) => {
                        let mut buffered = self.buffered;
                        buffered.push(candidate);
                        WaitOutcome::Waiting(RemoteSdpWait { peer: self.peer, buffered })
                    },
                    None => WaitOutcome::Waiting(self),
                }
            },
            Some(SignalingEvent::PeerLeft { guest_id }) => {
                if is_about(self.peer, guest_id) {
                    WaitOutcome::Failed(SessionError::LeftDuringHandshake)
                } else {
                    WaitOutcome::Waiting(self)
                }
            },
            Some(SignalingEvent::Disconnected) => WaitOutcome::Failed(SessionError::LostSignaling),
            Some(SignalingEvent::Error(message)) => WaitOutcome::Failed(
                SessionError::Signaling(message),
            ),
            Some(_) => WaitOutcome::Waiting(self),
        }
    }
}

/// What comes out of a step is what it was meant to be: a wait for the same
/// peer with the same candidates, a description ready to be applied with the
/// candidates kept, or the error.
pub proof fn law_an_outcome_is_what_it_shows(
    outcome: WaitOutcome,
    peer: Option<u32>,
    view: WaitView,
)
    requires
        outcome.shows(peer, view),
    ensures
        match view {
            WaitView::Waiting(buffered) => outcome matches WaitOutcome::Waiting(wait) && wait.peer
                == peer && wait.buffered@ == buffered,
            WaitView::Done { sdp_type, sdp, candidates } => outcome matches WaitOutcome::Done(
                desc,
                kept,
            ) && description_parts(desc) == (sdp_type, sdp) && (sdp.len() > 0
                ==> description_is_parsed(desc)) && kept@ == candidates,
            WaitView::Failed(error) => outcome matches WaitOutcome::Failed(e) && e@ == error,
        },
{
}

/// One event of the signaling client, with what its payload reads as.
pub struct Arrival {
    pub event: Option<SignalingEventView>,
    pub read: Option<RelayPayloadView>,
}

/// Where the wait stands after these events.
pub open spec fn wait_run(peer: Option<u32>, arrivals: Seq<Arrival>) -> WaitView
    decreases arrivals.len(),
{
    if arrivals.len() == 0 {
        WaitView::Waiting(Seq::empty())
    } else {
        match wait_run(peer, arrivals.drop_last()) {
            WaitView::Waiting(buffered) => wait_step(
                peer,
                buffered,
                arrivals.last().event,
                arrivals.last().read,
            ),
            ended => ended,
        }
    }
}

/// The candidates that the peer sent in these events, in order.
pub open spec fn candidates_from(peer: Option<u32>, arrivals: Seq<Arrival>) -> Seq<
    RTCIceCandidateInit,
>
    decreases arrivals.len(),
{
    if arrivals.len() == 0 {
        Seq::empty()
    } else {
        let earlier = candidates_from(peer, arrivals.drop_last());
        match (arrivals.last().event, arrivals.last().read) {
            (
                Some(SignalingEventView::Relay { guest_id, .. }),
                Some(RelayPayloadView::IceCandidate(candidate)),
            ) => if peer is None || guest_id == peer {
                earlier.push(candidate)
            } else {
                earlier
            },
            _ => earlier,
        }
    }
}

/// No candidate of the peer is lost or put out of order while its description
/// is awaited.
pub proof fn law_waiting_keeps_every_candidate(peer: Option<u32>, arrivals: Seq<Arrival>)
    ensures
        wait_run(peer, arrivals) matches WaitView::Waiting(buffered) ==> buffered
            == candidates_from(peer, arrivals),
    decreases arrivals.len(),
{
    if arrivals.len() > 0 {
        law_waiting_keeps_every_candidate(peer, arrivals.drop_last());
    }
}

/// When the description comes, every candidate that the peer sent before it
/// comes with it, in order.
pub proof fn law_the_description_comes_with_the_candidates_before_it(
    peer: Option<u32>,
    arrivals: Seq<Arrival>,
)
    requires
        arrivals.len() > 0,
        wait_run(peer, arrivals.drop_last()) is Waiting,
        wait_run(peer, arrivals) is Done,
    ensures
        wait_run(peer, arrivals)->candidates == candidates_from(peer, arrivals.drop_last()),
        arrivals.last().read == Some(
            RelayPayloadView::Sdp {
                sdp_type: wait_run(peer, arrivals)->sdp_type,
                sdp: wait_run(peer, arrivals)->sdp,
            },
        ),
{
    law_waiting_keeps_every_candidate(peer, arrivals.drop_last());
}

/// Nothing that the relay passes on from another guest touches the wait.
pub proof fn law_other_guests_do_not_disturb_the_handshake(
    peer: u32,
    other: u32,
    buffered: Seq<RTCIceCandidateInit>,
    payload: Value,
    read: Option<RelayPayloadView>,
)
    requires
        other != peer,
    ensures
        wait_step(
            Some(peer),
            buffered,
            Some(SignalingEventView::Relay { guest_id: Some(other), payload }),
            read,
        ) == WaitView::Waiting(buffered),
        wait_step(
            Some(peer),
            buffered,
            Some(SignalingEventView::PeerLeft { guest_id: Some(other) }),
            read,
        ) == WaitView::Waiting(buffered),
        wait_step(
            Some(peer),
            buffered,
            Some(SignalingEventView::Paired { guest_id: Some(other) }),
            read,
        ) == WaitView::Waiting(buffered),
{
}

/// A readable description of the peer ends the wait, whatever was kept before
/// it, and comes with all that was kept.
pub proof fn law_the_peers_description_ends_the_wait(
    peer: Option<u32>,
    buffered: Seq<RTCIceCandidateInit>,
    guest_id: Option<u32>,
    payload: Value,
    sdp_type: SdpType,
    sdp: Seq<char>,
)
    requires
        peer is None || guest_id == peer,
        sdp_type != SdpType::Unspecified,
        sdp_error(sdp) is None || (sdp_type == SdpType::Rollback && sdp.len() == 0),
    ensures
        wait_step(
            peer,
            buffered,
            Some(SignalingEventView::Relay { guest_id, payload }),
            Some(RelayPayloadView::Sdp { sdp_type, sdp }),
        ) == (WaitView::Done { sdp_type, sdp, candidates: buffered }),
{
}

/// A description of the peer that makes none ends the wait in failure, with
/// the reason.
pub proof fn law_an_unreadable_description_fails_the_wait(
    peer: Option<u32>,
    buffered: Seq<RTCIceCandidateInit>,
    guest_id: Option<u32>,
    payload: Value,
    sdp_type: SdpType,
    sdp: Seq<char>,
)
    requires
        peer is None || guest_id == peer,
        sdp_type == SdpType::Unspecified || (sdp_error(sdp) is Some && (sdp_type
            != SdpType::Rollback || sdp.len() > 0)),
    ensures
        wait_step(
            peer,
            buffered,
            Some(SignalingEventView::Relay { guest_id, payload }),
            Some(RelayPayloadView::Sdp { sdp_type, sdp }),
        ) == WaitView::Failed(
            if sdp_type == SdpType::Unspecified {
                SessionErrorView::UnspecifiedSdpType
            } else {
                SessionErrorView::BadSdp(sdp_error(sdp)->0)
            },
        ),
{
}

/// A candidate of the peer that comes before its description is kept behind
/// those that came before it.
pub proof fn law_an_early_candidate_is_kept(
    peer: Option<u32>,
    buffered: Seq<RTCIceCandidateInit>,
    guest_id: Option<u32>,
    payload: Value,
    candidate: RTCIceCandidateInit,
)
    requires
        peer is None || guest_id == peer,
    ensures
        wait_step(
            peer,
            buffered,
            Some(SignalingEventView::Relay { guest_id, payload }),
            Some(RelayPayloadView::IceCandidate(candidate)),
        ) == WaitView::Waiting(buffered.push(candidate)),
{
}

/// The wait fails when the events end, the connection drops, the server
/// refuses or the peer leaves, and says which of these it was.
pub proof fn law_a_wait_that_fails_says_why(
    peer: Option<u32>,
    buffered: Seq<RTCIceCandidateInit>,
    guest_id: Option<u32>,
    message: Seq<char>,
    read: Option<RelayPayloadView>,
)
    ensures
        wait_step(peer, buffered, None, read) == WaitView::Failed(SessionErrorView::SignalingClosed),
        wait_step(peer, buffered, Some(SignalingEventView::Disconnected), read) == WaitView::Failed(
            SessionErrorView::LostSignaling,
        ),
        wait_step(peer, buffered, Some(SignalingEventView::Error(message)), read)
            == WaitView::Failed(SessionErrorView::Signaling(message)),
        peer is None || guest_id == peer ==> wait_step(
            peer,
            buffered,
            Some(SignalingEventView::PeerLeft { guest_id }),
            read,
        ) == WaitView::Failed(SessionErrorView::LeftDuringHandshake),
{
}

/// Nothing else touches the wait: not what comes from or of somebody else,
/// not a payload that reads as nothing, and not news of rooms and guests.
pub proof fn law_nothing_else_touches_the_wait(
    peer: Option<u32>,
    buffered: Seq<RTCIceCandidateInit>,
    guest_id: Option<u32>,
    payload: Value,
    code: Seq<char>,
    read: Option<RelayPayloadView>,
)
    ensures
        wait_step(peer, buffered, Some(SignalingEventView::Hosting(code)), read)
            == WaitView::Waiting(buffered),
        wait_step(peer, buffered, Some(SignalingEventView::Paired { guest_id }), read)
            == WaitView::Waiting(buffered),
        wait_step(peer, buffered, Some(SignalingEventView::Relay { guest_id, payload }), None)
            == WaitView::Waiting(buffered),
        peer is Some && guest_id != peer ==> {
            &&& wait_step(peer, buffered, Some(SignalingEventView::Relay { guest_id, payload }), read)
                == WaitView::Waiting(buffered)
            &&& wait_step(peer, buffered, Some(SignalingEventView::PeerLeft { guest_id }), read)
                == WaitView::Waiting(buffered)
        },
{
}

/// Whether an event leaves the wait for the description of `peer` going.
pub open spec fn goes_on(peer: Option<u32>, arrival: Arrival) -> bool {
    match arrival.event {
        None => false,
        Some(SignalingEventView::Disconnected) => false,
        Some(SignalingEventView::Error(_)) => false,
        Some(SignalingEventView::PeerLeft { guest_id }) => peer is Some && guest_id != peer,
        Some(SignalingEventView::Relay { guest_id, .. }) => peer is Some && guest_id != peer
            || !(arrival.read matches Some(RelayPayloadView::Sdp { .. })),
        _ => true,
    }
}

proof fn lemma_waiting_goes_on(peer: Option<u32>, arrivals: Seq<Arrival>)
    requires
        forall|i: int| 0 <= i < arrivals.len() ==> goes_on(peer, #[trigger] arrivals[i]),
    ensures
        wait_run(peer, arrivals) == WaitView::Waiting(candidates_from(peer, arrivals)),
    decreases arrivals.len(),
{
    if arrivals.len() > 0 {
        let init = arrivals.drop_last();
        assert forall|i: int| 0 <= i < init.len() implies goes_on(peer, #[trigger] init[i]) by {
            assert(init[i] == arrivals[i]);
        }
        lemma_waiting_goes_on(peer, init);
        assert(goes_on(peer, arrivals[arrivals.len() - 1]));
    }
}

/// Whatever comes in between, as long as neither side goes and nothing fails,
/// the handshake gets the peer's description and all of its candidates that
/// came before.
pub proof fn law_the_handshake_gets_through(
    peer: Option<u32>,
    arrivals: Seq<Arrival>,
    guest_id: Option<u32>,
    payload: Value,
    sdp_type: SdpType,
    sdp: Seq<char>,
)
    requires
        forall|i: int| 0 <= i < arrivals.len() ==> goes_on(peer, #[trigger] arrivals[i]),
        peer is None || guest_id == peer,
        sdp_type != SdpType::Unspecified,
        sdp_error(sdp) is None,
    ensures
        wait_run(
            peer,
            arrivals.push(
                Arrival {
                    event: Some(SignalingEventView::Relay { guest_id, payload }),
                    read: Some(RelayPayloadView::Sdp { sdp_type, sdp }),
                },
            ),
        ) == (WaitView::Done { sdp_type, sdp, candidates: candidates_from(peer, arrivals) }),
{
    lemma_waiting_goes_on(peer, arrivals);
    let last = Arrival {
        event: Some(SignalingEventView::Relay { guest_id, payload }),
        read: Some(RelayPayloadView::Sdp { sdp_type, sdp }),
    };
    assert(arrivals.push(last).drop_last() =~= arrivals);
}

/// What to do about one event once the session stands.
pub enum PumpAction {
    /// Apply this candidate.
    AddCandidate(RTCIceCandidateInit),
    /// Nothing.
    Ignore,
    /// The session is over. `close` says whether the connection is still to
    /// be closed, and `stop_capture` whether the capture is to be stopped.
    End { close: bool, stop_capture: bool },
}

/// What to do about one event once the session stands. `event` is `None`
/// where the events ended.
pub open spec fn pump_step(
    hosting: bool,
    peer: Option<u32>,
    event: Option<SignalingEventView>,
    read: Option<RelayPayloadView>,
) -> PumpAction {
    match event {
        None => PumpAction::End { close: false, stop_capture: false },
        Some(SignalingEventView::Relay { guest_id, .. }) => match read {
            Some(RelayPayloadView::IceCandidate(candidate)) => if concerns(peer, guest_id) {
                PumpAction::AddCandidate(candidate)
            } else {
                PumpAction::Ignore
            },
            _ => PumpAction::Ignore,
        },
        Some(SignalingEventView::PeerLeft { guest_id }) => if concerns(peer, guest_id) {
            PumpAction::End { close: true, stop_capture: hosting }
        } else {
            PumpAction::Ignore
        },
        Some(SignalingEventView::Disconnected) => PumpAction::End {
            close: true,
            stop_capture: hosting,
        },
        Some(_) => PumpAction::Ignore,
    }
}

/// Decides what to do about one event once the session stands. When the peer
/// leaves, or the signaling connection drops, a host has to stop its capture
/// as well: a closed connection alone would leave it running for nobody.
pub fn pump(
    hosting: bool,
    peer: Option<u32>,
    event: Option<SignalingEvent>,
    read: Option<RelayPayload>,
) -> (action: PumpAction)
    ensures
        action == pump_step(
            hosting,
            peer,
            signaling_client::optional_event(event),
            optional_payload(read),
        ),
{
    match event {
        None => PumpAction::End { close: false, stop_capture: false },
        Some(SignalingEvent::Relay { guest_id, .. }) => match read {
            Some(RelayPayload::IceCandidate(candidate)) => if is_about(peer, guest_id) {
                PumpAction::AddCandidate(candidate)
            } else {
                PumpAction::Ignore
            },
            _ => PumpAction::Ignore,
        },
        Some(SignalingEvent::PeerLeft { guest_id }) => if is_about(peer, guest_id) {
            PumpAction::End { close: true, stop_capture: hosting }
        } else {
            PumpAction::Ignore
        },
        Some(SignalingEvent::Disconnected) => PumpAction::End {
            close: true,
            stop_capture: hosting,
        },
        Some(_) => PumpAction::Ignore,
    }
}

/// A host whose guest leaves stops capturing.
pub proof fn law_a_guest_that_leaves_stops_the_capture(
    guest: u32,
    read: Option<RelayPayloadView>,
)
    ensures
        pump_step(
            true,
            Some(guest),
            Some(SignalingEventView::PeerLeft { guest_id: Some(guest) }),
            read,
        ) == (PumpAction::End { close: true, stop_capture: true }),
{
}

/// A session ends if and only if the peer leaves, the signaling connection
/// drops, or the events end; a guest never stops a capture.
pub proof fn law_a_session_ends_only_for_a_reason(
    hosting: bool,
    peer: Option<u32>,
    event: Option<SignalingEventView>,
    read: Option<RelayPayloadView>,
)
    ensures
        pump_step(hosting, peer, event, read) is End <==> match event {
            None => true,
            Some(SignalingEventView::PeerLeft { guest_id }) => peer is None || guest_id == peer,
            Some(SignalingEventView::Disconnected) => true,
            _ => false,
        },
        pump_step(hosting, peer, event, read) matches PumpAction::End { stop_capture, .. }
            ==> stop_capture ==> hosting,
{
}

/// A candidate that the peer sends once the session stands is applied, on
/// either side.
pub proof fn law_a_late_candidate_is_applied(
    hosting: bool,
    peer: Option<u32>,
    guest_id: Option<u32>,
    payload: Value,
    candidate: RTCIceCandidateInit,
)
    requires
        peer is None || guest_id == peer,
    ensures
        pump_step(
            hosting,
            peer,
            Some(SignalingEventView::Relay { guest_id, payload }),
            Some(RelayPayloadView::IceCandidate(candidate)),
        ) == PumpAction::AddCandidate(candidate),
{
}

/// A candidate is applied only where the peer sent that very candidate.
pub proof fn law_only_the_peers_candidates_are_applied(
    hosting: bool,
    peer: Option<u32>,
    event: Option<SignalingEventView>,
    read: Option<RelayPayloadView>,
)
    requires
        pump_step(hosting, peer, event, read) is AddCandidate,
    ensures
        read == Some(
            RelayPayloadView::IceCandidate(pump_step(hosting, peer, event, read)->AddCandidate_0),
        ),
        event matches Some(SignalingEventView::Relay { guest_id, .. }) && (peer is None || guest_id
            == peer),
{
}

/// How a session ends: when its peer leaves or the signaling connection drops,
/// the connection is closed, and a host stops its capture; when the events end
/// there is nothing left to do.
pub proof fn law_a_session_ends_with_its_peer(
    hosting: bool,
    peer: Option<u32>,
    guest_id: Option<u32>,
    read: Option<RelayPayloadView>,
)
    ensures
        peer is None || guest_id == peer ==> pump_step(
            hosting,
            peer,
            Some(SignalingEventView::PeerLeft { guest_id }),
            read,
        ) == (PumpAction::End { close: true, stop_capture: hosting }),
        pump_step(hosting, peer, Some(SignalingEventView::Disconnected), read) == (PumpAction::End {
            close: true,
            stop_capture: hosting,
        }),
        pump_step(hosting, peer, None, read) == (PumpAction::End {
            close: false,
            stop_capture: false,
        }),
{
}

/// What somebody else sends or does leaves a session alone, and so do errors
/// and news of rooms and guests.
pub proof fn law_a_session_goes_on_for_anything_else(
    hosting: bool,
    peer: Option<u32>,
    guest_id: Option<u32>,
    payload: Value,
    text: Seq<char>,
    read: Option<RelayPayloadView>,
)
    ensures
        pump_step(hosting, peer, Some(SignalingEventView::Hosting(text)), read)
            == PumpAction::Ignore,
        pump_step(hosting, peer, Some(SignalingEventView::Error(text)), read) == PumpAction::Ignore,
        pump_step(hosting, peer, Some(SignalingEventView::Paired { guest_id }), read)
            == PumpAction::Ignore,
        !(read matches Some(RelayPayloadView::IceCandidate(_))) ==> pump_step(
            hosting,
            peer,
            Some(SignalingEventView::Relay { guest_id, payload }),
            read,
        ) == PumpAction::Ignore,
        peer is Some && guest_id != peer ==> {
            &&& pump_step(
                hosting,
                peer,
                Some(SignalingEventView::Relay { guest_id, payload }),
                read,
            ) == PumpAction::Ignore
            &&& pump_step(hosting, peer, Some(SignalingEventView::PeerLeft { guest_id }), read)
                == PumpAction::Ignore
        },
{
}

/// The payload number negotiated for a track, or the error that there is none.
pub fn negotiated_payload_type(kind: MediaKind, payload_types: &Vec<u8>) -> (r: Result<
    u8,
    SessionError,
>)
    ensures
        match r {
            Ok(n) => payload_types@.len() > 0 && n == payload_types@[0],
            Err(e) => payload_types@.len() == 0 && e@ == SessionErrorView::NoNegotiatedCodec(kind),
        },
{
    match crate::peer::first_payload_type(payload_types) {
        Some(n) => Ok(n),
        None => Err(SessionError::NoNegotiatedCodec(kind)),
    }
}

/// One step of the handshake that someone has to carry out.
#[derive(Debug, Clone, Copy, PartialEq, Eq, Structural)]
pub enum HandshakeStep {
    BuildConnection,
    AddVideoTrack,
    AddAudioTrack,
    CreateDescription,
    SetLocalDescription,
    SendDescription,
    AwaitRemoteDescription,
    SetRemoteDescription,
    AddKeptCandidates,
    Established,
}

/// Which side of a session this is.
#[derive(Debug, Clone, Copy, PartialEq, Eq, Structural)]
pub enum Side {
    /// Sends the offer; streams audio too if `audio` is set.
    Host { audio: bool },
    /// Answers it.
    Guest,
}

/// The step that comes after `step`. A host adds its tracks before it creates
/// the offer: an offer without them has no media to negotiate.
pub open spec fn following(side: Side, step: HandshakeStep) -> HandshakeStep {
    match (side, step) {
        (Side::Host { .. }, HandshakeStep::BuildConnection) => HandshakeStep::AddVideoTrack,
        (Side::Guest, HandshakeStep::BuildConnection) => HandshakeStep::AwaitRemoteDescription,
        (Side::Host { audio: true }, HandshakeStep::AddVideoTrack) => HandshakeStep::AddAudioTrack,
        (_, HandshakeStep::AddVideoTrack) => HandshakeStep::CreateDescription,
        (_, HandshakeStep::AddAudioTrack) => HandshakeStep::CreateDescription,
        (_, HandshakeStep::CreateDescription) => HandshakeStep::SetLocalDescription,
        (_, HandshakeStep::SetLocalDescription) => HandshakeStep::SendDescription,
        (Side::Host { .. }, HandshakeStep::SendDescription) => HandshakeStep::AwaitRemoteDescription,
        (Side::Guest, HandshakeStep::SendDescription) => HandshakeStep::Established,
        (_, HandshakeStep::AwaitRemoteDescription) => HandshakeStep::SetRemoteDescription,
        (_, HandshakeStep::SetRemoteDescription) => HandshakeStep::AddKeptCandidates,
        (Side::Host { .. }, HandshakeStep::AddKeptCandidates) => HandshakeStep::Established,
        (Side::Guest, HandshakeStep::AddKeptCandidates) => HandshakeStep::CreateDescription,
        (_, HandshakeStep::Established) => HandshakeStep::Established,
    }
}

/// Whether the handshake goes on when this step fails: a broadcast is not
/// given up for want of sound, nor a session for one bad candidate.
pub open spec fn may_fail(step: HandshakeStep) -> bool {
    step == HandshakeStep::AddAudioTrack || step == HandshakeStep::AddKeptCandidates
}

impl HandshakeStep {
    /// The step after this one, given whether this one worked: `None` where
    /// the handshake has failed.
    pub fn next(self, side: Side, worked: bool) -> (r: Option<HandshakeStep>)
        ensures
            r == (if worked || may_fail(self) {
                Some(following(side, self))
            } else {
                None
            }),
    {
        if !worked {
            match self {
                HandshakeStep::AddAudioTrack | HandshakeStep::AddKeptCandidates => {},
                _ => {
                    return None;
                },
            }
        }
        Some(
            match self {
                HandshakeStep::BuildConnection => match side {
                    Side::Host { .. } => HandshakeStep::AddVideoTrack,
                    Side::Guest => HandshakeStep::AwaitRemoteDescription,
                },
                HandshakeStep::AddVideoTrack => match side {
                    Side::Host { audio } => if audio {
                        HandshakeStep::AddAudioTrack
                    } else {
                        HandshakeStep::CreateDescription
                    },
                    Side::Guest => HandshakeStep::CreateDescription,
                },
                HandshakeStep::AddAudioTrack => HandshakeStep::CreateDescription,
                HandshakeStep::CreateDescription => HandshakeStep::SetLocalDescription,
                HandshakeStep::SetLocalDescription => HandshakeStep::SendDescription,
                HandshakeStep::SendDescription => match side {
                    Side::Host { .. } => HandshakeStep::AwaitRemoteDescription,
                    Side::Guest => HandshakeStep::Established,
                },
                HandshakeStep::AwaitRemoteDescription => HandshakeStep::SetRemoteDescription,
                HandshakeStep::SetRemoteDescription => HandshakeStep::AddKeptCandidates,
                HandshakeStep::AddKeptCandidates => match side {
                    Side::Host { .. } => HandshakeStep::Established,
                    Side::Guest => HandshakeStep::CreateDescription,
                },
                HandshakeStep::Established => HandshakeStep::Established,
            },
        )
    }
}

/// The step reached from the start after `n` steps.
pub open spec fn step_after(side: Side, n: nat) -> HandshakeStep
    decreases n,
{
    if n == 0 {
        HandshakeStep::BuildConnection
    } else {
        following(side, step_after(side, (n - 1) as nat))
    }
}

/// A host's handshake: the connection, its tracks, its offer, then the answer
/// and the candidates that came before it.
pub proof fn law_the_host_offers_its_tracks(audio: bool, n: nat)
    ensures
        ({
            let side = Side::Host { audio };
            let k: nat = if audio {
                1
            } else {
                0
            };
            &&& step_after(side, 0) == HandshakeStep::BuildConnection
            &&& step_after(side, 1) == HandshakeStep::AddVideoTrack
            &&& audio ==> step_after(side, 2) == HandshakeStep::AddAudioTrack
            &&& step_after(side, 2 + k) == HandshakeStep::CreateDescription
            &&& step_after(side, 3 + k) == HandshakeStep::SetLocalDescription
            &&& step_after(side, 4 + k) == HandshakeStep::SendDescription
            &&& step_after(side, 5 + k) == HandshakeStep::AwaitRemoteDescription
            &&& step_after(side, 6 + k) == HandshakeStep::SetRemoteDescription
            &&& step_after(side, 7 + k) == HandshakeStep::AddKeptCandidates
            &&& n >= 8 + k ==> step_after(side, n) == HandshakeStep::Established
        }),
    decreases n,
{
    reveal_with_fuel(step_after, 11);
    if n > 9 {
        law_the_host_offers_its_tracks(audio, (n - 1) as nat);
    }
}

/// A guest's handshake: the connection, the offer and the candidates that
/// came before it, then its answer.
pub proof fn law_the_guest_answers_the_offer(n: nat)
    ensures
        step_after(Side::Guest, 0) == HandshakeStep::BuildConnection,
        step_after(Side::Guest, 1) == HandshakeStep::AwaitRemoteDescription,
        step_after(Side::Guest, 2) == HandshakeStep::SetRemoteDescription,
        step_after(Side::Guest, 3) == HandshakeStep::AddKeptCandidates,
        step_after(Side::Guest, 4) == HandshakeStep::CreateDescription,
        step_after(Side::Guest, 5) == HandshakeStep::SetLocalDescription,
        step_after(Side::Guest, 6) == HandshakeStep::SendDescription,
        n >= 7 ==> step_after(Side::Guest, n) == HandshakeStep::Established,
    decreases n,
{
    reveal_with_fuel(step_after, 9);
    if n > 7 {
        law_the_guest_answers_the_offer((n - 1) as nat);
    }
}

/// Where a handshake is after `n` steps, given which steps work: `None` where
/// it has failed.
pub open spec fn handshake_after(
    side: Side,
    works: spec_fn(HandshakeStep) -> bool,
    n: nat,
) -> Option<HandshakeStep>
    decreases n,
{
    if n == 0 {
        Some(HandshakeStep::BuildConnection)
    } else {
        match handshake_after(side, works, (n - 1) as nat) {
            Some(step) => if works(step) || may_fail(step) {
                Some(following(side, step))
            } else {
                None
            },
            None => None,
        }
    }
}

/// A host gets its session if and only if every step works but, at most, the
/// audio track and the candidates that were kept.
pub proof fn law_a_host_needs_all_but_sound(audio: bool, works: spec_fn(HandshakeStep) -> bool)
    ensures
        handshake_after(
            Side::Host { audio },
            works,
            if audio {
                9
            } else {
                8
            },
        ) == (if works(HandshakeStep::BuildConnection) && works(HandshakeStep::AddVideoTrack)
            && works(HandshakeStep::CreateDescription) && works(HandshakeStep::SetLocalDescription)
            && works(HandshakeStep::SendDescription) && works(HandshakeStep::AwaitRemoteDescription)
            && works(HandshakeStep::SetRemoteDescription) {
            Some(HandshakeStep::Established)
        } else {
            None
        }),
{
    reveal_with_fuel(handshake_after, 10);
}

/// A guest gets its session if and only if every step works but, at most, the
/// candidates that were kept.
pub proof fn law_a_guest_needs_all_but_candidates(works: spec_fn(HandshakeStep) -> bool)
    ensures
        handshake_after(Side::Guest, works, 7) == (if works(HandshakeStep::BuildConnection)
            && works(HandshakeStep::AwaitRemoteDescription) && works(
            HandshakeStep::SetRemoteDescription,
        ) && works(HandshakeStep::CreateDescription) && works(HandshakeStep::SetLocalDescription)
            && works(HandshakeStep::SendDescription) {
            Some(HandshakeStep::Established)
        } else {
            None
        }),
{
    reveal_with_fuel(handshake_after, 8);
}

} // verus!
