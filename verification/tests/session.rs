use rtc::peer_connection::sdp::{RTCSdpType, RTCSessionDescription};
use rtc::peer_connection::transport::RTCIceCandidateInit;
use screen_streaming::network::{
    local_signaling_urls, usable_local_addrs, InterfaceAddress, SIGNALING_PORT,
};
use screen_streaming::peer::MediaKind;
use screen_streaming::session::{
    guest_paired, host_paired, hosting_code, negotiated_payload_type, pump, relay_to_peer,
    session_description_from_parts, HandshakeStep, Phase, PumpAction, RelayPayload, RemoteSdpWait,
    SdpType, SessionError, Side, WaitOutcome,
};
use screen_streaming::signaling_client::{ClientMessage, SignalingEvent};
use serde_json::Value;

const SDP: &str = "v=0\r\no=- 1 2 IN IP4 127.0.0.1\r\ns=-\r\nt=0 0\r\n";

fn interfaces() -> Vec<InterfaceAddress> {
    local_ip_address::list_afinet_netifas()
        .unwrap_or_default()
        .into_iter()
        .map(|(_, ip)| match ip.to_string().split('.').map(|p| p.parse::<u8>()).collect() {
            Ok(parts) => {
                let parts: Vec<u8> = parts;
                InterfaceAddress::V4(parts[0], parts[1], parts[2], parts[3])
            }
            Err(_) => InterfaceAddress::V6,
        })
        .collect()
}

#[test]
fn prints_usable_local_addrs() {
    println!("{:?}", usable_local_addrs(&interfaces()));
}

#[test]
fn prints_local_signaling_urls() {
    println!("{:?}", local_signaling_urls(&interfaces()));
}

#[test]
fn addresses_are_filtered_sorted_and_listed_once() {
    let list = vec![
        InterfaceAddress::V4(192, 168, 0, 9),
        InterfaceAddress::V6,
        InterfaceAddress::V4(169, 254, 3, 4),
        InterfaceAddress::V4(127, 0, 0, 1),
        InterfaceAddress::V4(192, 168, 0, 10),
        InterfaceAddress::V4(10, 0, 0, 2),
        InterfaceAddress::V4(192, 168, 0, 9),
        InterfaceAddress::V4(169, 253, 3, 4),
    ];
    assert_eq!(
        usable_local_addrs(&list),
        vec!["10.0.0.2:0", "127.0.0.1:0", "169.253.3.4:0", "192.168.0.10:0", "192.168.0.9:0"]
    );
    assert_eq!(
        local_signaling_urls(&list),
        vec![
            "ws://10.0.0.2:9876",
            "ws://169.253.3.4:9876",
            "ws://192.168.0.10:9876",
            "ws://192.168.0.9:9876"
        ]
    );
    let mut reversed = list.clone();
    reversed.reverse();
    assert_eq!(usable_local_addrs(&list), usable_local_addrs(&reversed));
    assert_eq!(local_signaling_urls(&list), local_signaling_urls(&reversed));
}

#[test]
fn the_wildcard_stands_in_for_no_address() {
    assert_eq!(usable_local_addrs(&vec![]), vec!["0.0.0.0:0"]);
    let useless = vec![InterfaceAddress::V6, InterfaceAddress::V4(169, 254, 0, 1)];
    assert_eq!(usable_local_addrs(&useless), vec!["0.0.0.0:0"]);
    assert!(local_signaling_urls(&useless).is_empty());
    assert_eq!(SIGNALING_PORT, 9876);
}

fn relay(guest_id: Option<u32>) -> Option<SignalingEvent> {
    Some(SignalingEvent::Relay { guest_id, payload: Value::Null })
}

fn candidate(text: &str) -> RTCIceCandidateInit {
    RTCIceCandidateInit { candidate: text.to_owned(), ..Default::default() }
}

fn text<T>(r: Result<T, SessionError>) -> String {
    match r {
        Ok(_) => panic!("expected an error"),
        Err(e) => e.describe("SHOWN"),
    }
}

#[test]
fn a_description_is_rebuilt_by_its_type() {
    let types = vec![
        (SdpType::Offer, RTCSdpType::Offer),
        (SdpType::Answer, RTCSdpType::Answer),
        (SdpType::Pranswer, RTCSdpType::Pranswer),
        (SdpType::Rollback, RTCSdpType::Rollback),
    ];
    for (sdp_type, expected) in types {
        let desc = match session_description_from_parts(sdp_type, SDP.to_owned()) {
            Ok(desc) => desc,
            Err(e) => panic!("{}", e.describe("")),
        };
        assert_eq!(desc.sdp_type, expected);
        assert_eq!(desc.sdp, SDP);
        match RelayPayload::from_description(&desc) {
            RelayPayload::Sdp { sdp_type: again, sdp } => {
                assert_eq!(again, sdp_type);
                assert_eq!(sdp, SDP);
            }
            RelayPayload::IceCandidate(_) => panic!("expected a description"),
        }
    }
}

#[test]
fn a_bad_description_is_refused() {
    assert!(matches!(
        session_description_from_parts(SdpType::Offer, "nonsense".to_owned()),
        Err(SessionError::BadSdp(_))
    ));
    assert!(matches!(
        session_description_from_parts(SdpType::Answer, String::new()),
        Err(SessionError::BadSdp(_))
    ));
    assert!(matches!(
        session_description_from_parts(SdpType::Pranswer, "v=1\r\n".to_owned()),
        Err(SessionError::BadSdp(_))
    ));
    assert!(matches!(
        session_description_from_parts(SdpType::Rollback, "x".to_owned()),
        Err(SessionError::BadSdp(_))
    ));
    assert!(session_description_from_parts(SdpType::Rollback, String::new()).is_ok());
    assert_eq!(
        text(session_description_from_parts(SdpType::Unspecified, SDP.to_owned())),
        "relayed SDP with an unspecified type"
    );
}

#[test]
fn a_payload_carries_the_type_and_text_of_a_description() {
    let desc = RTCSessionDescription::default();
    match RelayPayload::from_description(&desc) {
        RelayPayload::Sdp { sdp_type, sdp } => {
            assert_eq!(sdp_type, SdpType::Unspecified);
            assert_eq!(sdp, "");
        }
        RelayPayload::IceCandidate(_) => panic!("expected a description"),
    }
}

#[test]
fn candidates_wait_for_the_description() {
    let mut wait = RemoteSdpWait::new(Some(1));
    let arrivals = vec![
        (relay(Some(1)), Some(RelayPayload::IceCandidate(candidate("a")))),
        (relay(Some(2)), Some(RelayPayload::IceCandidate(candidate("x")))),
        (relay(Some(1)), None),
        (relay(None), Some(RelayPayload::IceCandidate(candidate("y")))),
        (Some(SignalingEvent::PeerLeft { guest_id: Some(2) }), None),
        (Some(SignalingEvent::Paired { guest_id: Some(3) }), None),
        (
            relay(Some(2)),
            Some(RelayPayload::Sdp { sdp_type: SdpType::Answer, sdp: SDP.to_owned() }),
        ),
        (relay(Some(1)), Some(RelayPayload::IceCandidate(candidate("b")))),
    ];
    for (event, read) in arrivals {
        wait = match wait.step(event, read) {
            WaitOutcome::Waiting(wait) => wait,
            _ => panic!("expected to go on waiting"),
        };
    }
    let sdp = RelayPayload::Sdp { sdp_type: SdpType::Answer, sdp: SDP.to_owned() };
    match wait.step(relay(Some(1)), Some(sdp)) {
        WaitOutcome::Done(desc, candidates) => {
            assert_eq!(desc.sdp_type, RTCSdpType::Answer);
            assert_eq!(desc.sdp, SDP);
            assert_eq!(candidates, vec![candidate("a"), candidate("b")]);
        }
        _ => panic!("expected the answer"),
    }
}

#[test]
fn a_guest_listens_to_whatever_it_is_told() {
    let sdp = RelayPayload::Sdp { sdp_type: SdpType::Offer, sdp: SDP.to_owned() };
    assert!(matches!(
        RemoteSdpWait::new(None).step(relay(None), Some(sdp)),
        WaitOutcome::Done(_, candidates) if candidates.is_empty()
    ));
}

#[test]
fn the_wait_for_a_description_fails_for_a_reason() {
    let fails = |event: Option<SignalingEvent>| match RemoteSdpWait::new(Some(1)).step(event, None) {
        WaitOutcome::Failed(e) => e.describe(""),
        _ => panic!("expected a failure"),
    };
    assert_eq!(
        fails(Some(SignalingEvent::PeerLeft { guest_id: Some(1) })),
        "the other side left before completing the handshake"
    );
    assert_eq!(fails(Some(SignalingEvent::Disconnected)), "lost connection to the signaling server");
    assert_eq!(fails(Some(SignalingEvent::Error("no".to_owned()))), "signaling error: no");
    assert_eq!(fails(None), "signaling channel closed unexpectedly");
    let bad = RelayPayload::Sdp { sdp_type: SdpType::Answer, sdp: "nonsense".to_owned() };
    assert!(matches!(
        RemoteSdpWait::new(Some(1)).step(relay(Some(1)), Some(bad)),
        WaitOutcome::Failed(SessionError::BadSdp(_))
    ));
}

#[test]
fn the_first_replies_are_read() {
    assert!(matches!(
        hosting_code(Some(SignalingEvent::Hosting("482193".to_owned()))),
        Ok(code) if code == "482193"
    ));
    assert_eq!(
        text(hosting_code(Some(SignalingEvent::Error("no".to_owned())))),
        "signaling error: no"
    );
    assert_eq!(text(hosting_code(None)), "unexpected signaling response: SHOWN");

    assert!(matches!(
        host_paired(Some(SignalingEvent::Paired { guest_id: Some(4) })),
        Ok(Some(4))
    ));
    assert_eq!(
        text(host_paired(Some(SignalingEvent::PeerLeft { guest_id: Some(4) }))),
        "the other side left before joining"
    );
    assert_eq!(
        text(host_paired(Some(SignalingEvent::Error("no".to_owned())))),
        "signaling error: no"
    );
    assert_eq!(
        text(host_paired(Some(SignalingEvent::Disconnected))),
        "unexpected signaling response while waiting: SHOWN"
    );

    assert!(guest_paired(Some(SignalingEvent::Paired { guest_id: None })).is_ok());
    assert_eq!(
        text(guest_paired(Some(SignalingEvent::Error("no".to_owned())))),
        "signaling error: no"
    );
    assert!(matches!(
        guest_paired(Some(SignalingEvent::Disconnected)),
        Err(SessionError::Unexpected {
            during: Phase::Joining,
            event: Some(SignalingEvent::Disconnected),
        })
    ));
    assert_eq!(text(guest_paired(None)), "unexpected signaling response while joining: SHOWN");
}

#[test]
fn errors_say_what_went_wrong() {
    assert_eq!(SessionError::ChannelClosed.describe(""), "signaling channel closed");
    assert_eq!(
        SessionError::NoNegotiatedCodec(MediaKind::Video).describe(""),
        "sender has no negotiated codec"
    );
    assert_eq!(
        SessionError::NoNegotiatedCodec(MediaKind::Audio).describe(""),
        "sender has no negotiated audio codec"
    );
    let bad = session_description_from_parts(SdpType::Offer, "nonsense".to_owned());
    assert_eq!(text(bad), "SHOWN");
}

#[test]
fn guest_leaving_stops_the_hosts_capture() {
    assert!(matches!(
        pump(true, Some(1), Some(SignalingEvent::PeerLeft { guest_id: Some(1) }), None),
        PumpAction::End { close: true, stop_capture: true }
    ));
    assert!(matches!(
        pump(true, Some(1), Some(SignalingEvent::PeerLeft { guest_id: Some(2) }), None),
        PumpAction::Ignore
    ));
    assert!(matches!(
        pump(false, None, Some(SignalingEvent::PeerLeft { guest_id: None }), None),
        PumpAction::End { close: true, stop_capture: false }
    ));
    assert!(matches!(
        pump(true, Some(1), Some(SignalingEvent::Disconnected), None),
        PumpAction::End { close: true, stop_capture: true }
    ));
    assert!(matches!(
        pump(true, Some(1), None, None),
        PumpAction::End { close: false, stop_capture: false }
    ));
}

#[test]
fn later_candidates_are_applied() {
    assert!(matches!(
        pump(false, None, relay(None), Some(RelayPayload::IceCandidate(candidate("a")))),
        PumpAction::AddCandidate(c) if c == candidate("a")
    ));
    assert!(matches!(
        pump(true, Some(1), relay(Some(2)), Some(RelayPayload::IceCandidate(candidate("a")))),
        PumpAction::Ignore
    ));
    let sdp = RelayPayload::Sdp { sdp_type: SdpType::Offer, sdp: SDP.to_owned() };
    assert!(matches!(pump(false, None, relay(None), Some(sdp)), PumpAction::Ignore));
    assert!(matches!(pump(false, None, relay(None), None), PumpAction::Ignore));
}

#[test]
fn a_host_names_its_guest() {
    assert!(matches!(
        relay_to_peer(Some(3), Value::from(7)),
        ClientMessage::Relay { payload, to: Some(3) } if payload == Value::from(7)
    ));
    assert!(matches!(
        relay_to_peer(None, Value::Null),
        ClientMessage::Relay { payload: Value::Null, to: None }
    ));
}

#[test]
fn the_first_codec_is_the_negotiated_one() {
    assert!(matches!(negotiated_payload_type(MediaKind::Video, &vec![102, 111]), Ok(102)));
    assert!(matches!(
        negotiated_payload_type(MediaKind::Audio, &vec![]),
        Err(SessionError::NoNegotiatedCodec(MediaKind::Audio))
    ));
}

fn steps(side: Side) -> Vec<HandshakeStep> {
    let mut taken = vec![HandshakeStep::BuildConnection];
    while *taken.last().unwrap() != HandshakeStep::Established {
        let next = taken.last().unwrap().next(side, true).expect("the step worked");
        taken.push(next);
    }
    taken
}

#[test]
fn the_handshake_runs_in_order() {
    assert_eq!(
        steps(Side::Host { audio: true }),
        vec![
            HandshakeStep::BuildConnection,
            HandshakeStep::AddVideoTrack,
            HandshakeStep::AddAudioTrack,
            HandshakeStep::CreateDescription,
            HandshakeStep::SetLocalDescription,
            HandshakeStep::SendDescription,
            HandshakeStep::AwaitRemoteDescription,
            HandshakeStep::SetRemoteDescription,
            HandshakeStep::AddKeptCandidates,
            HandshakeStep::Established,
        ]
    );
    assert!(!steps(Side::Host { audio: false }).contains(&HandshakeStep::AddAudioTrack));
    assert_eq!(
        steps(Side::Guest),
        vec![
            HandshakeStep::BuildConnection,
            HandshakeStep::AwaitRemoteDescription,
            HandshakeStep::SetRemoteDescription,
            HandshakeStep::AddKeptCandidates,
            HandshakeStep::CreateDescription,
            HandshakeStep::SetLocalDescription,
            HandshakeStep::SendDescription,
            HandshakeStep::Established,
        ]
    );
}

#[test]
fn a_failed_step_ends_the_handshake_unless_it_is_sound() {
    let host = Side::Host { audio: true };
    assert_eq!(
        HandshakeStep::AddAudioTrack.next(host, false),
        Some(HandshakeStep::CreateDescription)
    );
    assert_eq!(
        HandshakeStep::AddKeptCandidates.next(host, false),
        Some(HandshakeStep::Established)
    );
    assert_eq!(HandshakeStep::AddVideoTrack.next(host, false), None);
    assert_eq!(HandshakeStep::SetRemoteDescription.next(Side::Guest, false), None);
}
