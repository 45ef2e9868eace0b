//! What both peers agree on before any media flows: the codecs they speak,
//! the tracks they announce, and how received packets are counted.

use rtc::peer_connection::configuration::media_engine::MediaEngine;
use rtc::peer_connection::configuration::{
    RTCConfiguration, RTCConfigurationBuilder, RTCIceServer,
};
use rtc::rtp_transceiver::rtp_sender::{
    RTCPFeedback, RTCRtpCodec, RTCRtpCodecParameters, RtpCodecKind,
};
use rtc::shared::error::Error;
use vstd::prelude::*;
use vstd::string::*;

verus! {

/// The codecs that a connection can speak, as `rtc` keeps them.
#[verifier::external_type_specification]
#[verifier::external_body]
pub struct ExMediaEngine(rtc::peer_connection::configuration::media_engine::MediaEngine);

/// The settings of a connection, as `rtc` keeps them.
#[verifier::external_type_specification]
#[verifier::external_body]
pub struct ExConfiguration(rtc::peer_connection::configuration::RTCConfiguration);

/// Any failure that `rtc` reports.
#[verifier::external_type_specification]
#[verifier::external_body]
pub struct ExRtcError(rtc::shared::error::Error);

/// Whether a codec or a track carries pictures or sound.
#[derive(Debug, Clone, Copy, PartialEq, Eq, Structural)]
pub enum MediaKind {
    Audio,
    Video,
}

/// A kind of RTCP feedback that a codec asks for.
#[derive(Debug)]
pub struct FeedbackKind {
    pub kind: String,
    pub parameter: String,
}

/// One codec as it is negotiated.
#[derive(Debug)]
pub struct CodecParameters {
    pub mime_type: String,
    pub clock_rate: u32,
    pub channels: u16,
    pub sdp_fmtp_line: String,
    pub rtcp_feedback: Vec<FeedbackKind>,
    pub payload_type: u8,
}

/// What a [`CodecParameters`] says.
pub struct CodecView {
    pub mime_type: Seq<char>,
    pub clock_rate: u32,
    pub channels: u16,
    pub sdp_fmtp_line: Seq<char>,
    /// The kind and the parameter of each feedback asked for.
    pub rtcp_feedback: Seq<(Seq<char>, Seq<char>)>,
    pub payload_type: u8,
}

impl View for CodecParameters {
    type V = CodecView;

    open spec fn view(&self) -> CodecView {
        CodecView {
            mime_type: self.mime_type@,
            clock_rate: self.clock_rate,
            channels: self.channels,
            sdp_fmtp_line: self.sdp_fmtp_line@,
            rtcp_feedback: self.rtcp_feedback@.map_values(
                |f: FeedbackKind| (f.kind@, f.parameter@),
            ),
            payload_type: self.payload_type,
        }
    }
}

/// The H.264 definition that both peers share.
pub open spec fn h264_view() -> CodecView {
    CodecView {
        mime_type: "video/H264"@,
        clock_rate: 90000,
        channels: 0,
        sdp_fmtp_line:
            "level-asymmetry-allowed=1;packetization-mode=1;profile-level-id=42e01f"@,
        rtcp_feedback: Seq::empty(),
        payload_type: 102,
    }
}

/// The Opus definition that both peers share.
pub open spec fn opus_view() -> CodecView {
    CodecView {
        mime_type: "audio/opus"@,
        clock_rate: 48000,
        channels: 2,
        sdp_fmtp_line: ""@,
        rtcp_feedback: Seq::empty(),
        payload_type: 111,
    }
}

/// The definition of the one codec of each kind.
pub open spec fn codec_view(kind: MediaKind) -> CodecView {
    match kind {
        MediaKind::Audio => opus_view(),
        MediaKind::Video => h264_view(),
    }
}

/// H.264, as both peers must define it to agree on it.
pub fn h264_codec_parameters() -> (codec: CodecParameters)
    ensures
        codec@ == h264_view(),
{
    let codec = CodecParameters {
        mime_type: "video/H264".to_owned(),
        clock_rate: 90000,
        channels: 0,
        sdp_fmtp_line:
            "level-asymmetry-allowed=1;packetization-mode=1;profile-level-id=42e01f".to_owned(),
        rtcp_feedback: Vec::new(),
        payload_type: 102,
    };
    assert(codec@.rtcp_feedback =~= Seq::empty());
    codec
}

/// Opus, as both peers must define it to agree on it: stereo at 48 kHz.
pub fn opus_codec_parameters() -> (codec: CodecParameters)
    ensures
        codec@ == opus_view(),
{
    let codec = CodecParameters {
        mime_type: "audio/opus".to_owned(),
        clock_rate: 48000,
        channels: 2,
        sdp_fmtp_line: "".to_owned(),
        rtcp_feedback: Vec::new(),
        payload_type: 111,
    };
    assert(codec@.rtcp_feedback =~= Seq::empty());
    codec
}

/// The video codecs registered with an engine, in order.
pub uninterp spec fn engine_video_codecs(engine: MediaEngine) -> Seq<CodecView>;

/// The audio codecs registered with an engine, in order.
pub uninterp spec fn engine_audio_codecs(engine: MediaEngine) -> Seq<CodecView>;

/// Whether a list of codecs has one of this type under this payload number.
pub open spec fn has_codec(codecs: Seq<CodecView>, codec: CodecView) -> bool {
    exists|i: int|
        0 <= i < codecs.len() && (#[trigger] codecs[i]).mime_type == codec.mime_type
            && codecs[i].payload_type == codec.payload_type
}

/// The codecs after one more is registered.
pub open spec fn with_codec(codecs: Seq<CodecView>, codec: CodecView) -> Seq<CodecView> {
    if has_codec(codecs, codec) {
        codecs
    } else {
        codecs.push(codec)
    }
}

/// `MediaEngine::default`: an engine with no codecs.
#[verifier::external_body]
fn empty_media_engine() -> (engine: MediaEngine)
    ensures
        engine_video_codecs(engine) == Seq::<CodecView>::empty(),
        engine_audio_codecs(engine) == Seq::<CodecView>::empty(),
{
    MediaEngine::default()
}

/// `MediaEngine::register_codec`. It appends the codec to those of its kind,
/// unless one of the same type stands there under the same payload number,
/// leaves the other kind alone, and does not fail for audio or video.
#[verifier::external_body]
fn register_codec(engine: &mut MediaEngine, codec: CodecParameters, kind: MediaKind) -> (r: Result<
    (),
    Error,
>)
    ensures
        r is Ok,
        engine_video_codecs(*final(engine)) == (match kind {
            MediaKind::Audio => engine_video_codecs(*old(engine)),
            MediaKind::Video => with_codec(engine_video_codecs(*old(engine)), codec@),
        }),
        engine_audio_codecs(*final(engine)) == (match kind {
            MediaKind::Audio => with_codec(engine_audio_codecs(*old(engine)), codec@),
            MediaKind::Video => engine_audio_codecs(*old(engine)),
        }),
{
    let feedback =
        codec.rtcp_feedback.into_iter().map(|f| RTCPFeedback { typ: f.kind, parameter: f.parameter });
    let rtp_codec = RTCRtpCodec {
        mime_type: codec.mime_type,
        clock_rate: codec.clock_rate,
        channels: codec.channels,
        sdp_fmtp_line: codec.sdp_fmtp_line,
        rtcp_feedback: feedback.collect(),
    };
    let kind = match kind {
        MediaKind::Audio => RtpCodecKind::Audio,
        MediaKind::Video => RtpCodecKind::Video,
    };
    engine.register_codec(RTCRtpCodecParameters { rtp_codec, payload_type: codec.payload_type }, kind)
}

/// An engine for video alone: H.264.
pub fn video_media_engine() -> (r: Result<MediaEngine, Error>)
    ensures
        r matches Ok(engine) && engine_video_codecs(engine) == seq![h264_view()]
            && engine_audio_codecs(engine) == Seq::<CodecView>::empty(),
{
    let mut engine = empty_media_engine();
    match register_codec(&mut engine, h264_codec_parameters(), MediaKind::Video) {
        Ok(()) => {},
        Err(e) => {
            return Err(e);
        },
    }
    assert(engine_video_codecs(engine) =~= seq![h264_view()]);
    Ok(engine)
}

/// The engine of every session: H.264 for video and Opus for audio. Both are
/// registered on both sides, whether or not an audio track is ever added.
pub fn new_media_engine() -> (r: Result<MediaEngine, Error>)
    ensures
        r matches Ok(engine) && engine_video_codecs(engine) == seq![h264_view()]
            && engine_audio_codecs(engine) == seq![opus_view()],
{
    let mut engine = match video_media_engine() {
        Ok(engine) => engine,
        Err(e) => {
            return Err(e);
        },
    };
    match register_codec(&mut engine, opus_codec_parameters(), MediaKind::Audio) {
        Ok(()) => {},
        Err(e) => {
            return Err(e);
        },
    }
    assert(engine_audio_codecs(engine) =~= seq![opus_view()]);
    Ok(engine)
}

/// The URLs of the ICE servers that a configuration names, one list for each
/// server.
pub uninterp spec fn configuration_ice_urls(config: RTCConfiguration) -> Seq<Seq<Seq<char>>>;

/// `RTCConfigurationBuilder` with one ICE server, reached without a user name
/// or a credential; every other setting keeps its default.
#[verifier::external_body]
fn one_server_configuration(url: &str) -> (config: RTCConfiguration)
    ensures
        configuration_ice_urls(config) == seq![seq![url@]],
{
    RTCConfigurationBuilder::new()
        .with_ice_servers(vec![RTCIceServer { urls: vec![url.to_owned()], ..Default::default() }])
        .build()
}

/// The configuration of every session: one public STUN server, so that peers
/// behind different routers can find each other.
pub fn stun_config() -> (config: RTCConfiguration)
    ensures
        configuration_ice_urls(config) == seq![seq!["stun:stun.l.google.com:19302"@]],
{
    one_server_configuration("stun:stun.l.google.com:19302")
}

/// A local track before it is added to a connection.
#[derive(Debug)]
pub struct TrackDescription {
    pub stream_id: String,
    pub track_id: String,
    pub label: String,
    pub kind: MediaKind,
    pub ssrc: u32,
    pub codec: CodecParameters,
}

impl TrackDescription {
    /// Whether this is the track of `kind` that goes out under `ssrc`.
    pub open spec fn describes(&self, kind: MediaKind, ssrc: u32) -> bool {
        &&& self.stream_id@ == "screen-streaming-stream"@
        &&& self.track_id@ == (match kind {
            MediaKind::Audio => "screen-streaming-audio"@,
            MediaKind::Video => "screen-streaming-video"@,
        })
        &&& self.label@ == (match kind {
            MediaKind::Audio => "audio"@,
            MediaKind::Video => "screen"@,
        })
        &&& self.kind == kind
        &&& self.ssrc == ssrc
        &&& self.codec@ == codec_view(kind)
    }

    /// The track of `kind` that goes out under `ssrc`. Both kinds belong to
    /// one stream.
    pub fn with_ssrc(kind: MediaKind, ssrc: u32) -> (track: TrackDescription)
        ensures
            track.describes(kind, ssrc),
    {
        match kind {
            MediaKind::Audio => TrackDescription {
                stream_id: "screen-streaming-stream".to_owned(),
                track_id: "screen-streaming-audio".to_owned(),
                label: "audio".to_owned(),
                kind,
                ssrc,
                codec: opus_codec_parameters(),
            },
            MediaKind::Video => TrackDescription {
                stream_id: "screen-streaming-stream".to_owned(),
                track_id: "screen-streaming-video".to_owned(),
                label: "screen".to_owned(),
                kind,
                ssrc,
                codec: h264_codec_parameters(),
            },
        }
    }

    /// The track of `kind`, under a random source identifier.
    pub fn new(kind: MediaKind) -> (track: TrackDescription)
        ensures
            track.describes(kind, track.ssrc),
    {
        TrackDescription::with_ssrc(kind, random_ssrc())
    }
}

/// `rand::random::<u32>`: any number at all.
#[verifier::external_body]
fn random_ssrc() -> u32 {
    rand::random::<u32>()
}

/// The payload number that a sender negotiated: that of the first of its
/// codecs, if it has any.
pub fn first_payload_type(payload_types: &Vec<u8>) -> (r: Option<u8>)
    ensures
        r == (if payload_types@.len() > 0 {
            Some(payload_types@[0])
        } else {
            None
        }),
{
    if payload_types.len() > 0 {
        Some(payload_types[0])
    } else {
        None
    }
}

/// What a trial run of the video path saw.
#[derive(Debug)]
pub struct VideoTrackStats {
    pub frames_captured: u32,
    pub rtp_packets_received: u32,
    pub rtp_bytes_received: usize,
}

/// How many received packets are proof enough that video flows.
pub const ENOUGH_PACKETS: u32 = 3;

/// The packets received so far on a trial run.
#[derive(Debug)]
pub struct PacketTally {
    pub packets: u32,
    pub bytes: usize,
}

/// The bytes in payloads of these lengths.
pub open spec fn total_bytes(lengths: Seq<usize>) -> int
    decreases lengths.len(),
{
    if lengths.len() == 0 {
        0
    } else {
        total_bytes(lengths.drop_last()) + lengths.last() as int
    }
}

impl PacketTally {
    /// Whether this counts packets of exactly these payload lengths.
    pub open spec fn counts(&self, lengths: Seq<usize>) -> bool {
        &&& self.packets == lengths.len()
        &&& self.bytes == total_bytes(lengths)
    }

    pub fn new() -> (tally: PacketTally)
        ensures
            tally.counts(Seq::empty()),
    {
        PacketTally { packets: 0, bytes: 0 }
    }

    /// Counts one more packet. Says whether the trial has seen enough.
    pub fn receive(&mut self, payload_len: usize) -> (enough: bool)
        requires
            old(self).packets < u32::MAX,
            old(self).bytes + payload_len <= usize::MAX,
        ensures
            final(self).packets == old(self).packets + 1,
            final(self).bytes == old(self).bytes + payload_len,
            enough == (final(self).packets >= ENOUGH_PACKETS),
            forall|lengths: Seq<usize>| #[trigger]
                old(self).counts(lengths) ==> final(self).counts(lengths.push(payload_len)),
    {
        proof {
            assert forall|lengths: Seq<usize>| #[trigger] self.counts(lengths) implies total_bytes(
                lengths.push(payload_len),
            ) == self.bytes + payload_len by {
                assert(lengths.push(payload_len).drop_last() =~= lengths);
            }
        }
        self.packets = self.packets + 1;
        self.bytes = self.bytes + payload_len;
        self.packets >= ENOUGH_PACKETS
    }
}

/// The captured frames that went through the encoder on a trial run.
#[derive(Debug)]
pub struct EncodeTally {
    pub frames_captured: u32,
}

impl EncodeTally {
    pub fn new() -> (tally: EncodeTally)
        ensures
            tally.frames_captured == 0,
    {
        EncodeTally { frames_captured: 0 }
    }

    /// Counts one more captured frame, whatever became of it. Gives back what
    /// to send: the encoded bytes, unless the encoder failed or gave none.
    pub fn encoded(&mut self, outcome: Option<Vec<u8>>) -> (send: Option<Vec<u8>>)
        requires
            old(self).frames_captured < u32::MAX,
        ensures
            final(self).frames_captured == old(self).frames_captured + 1,
            send == (if outcome is Some && outcome->0@.len() > 0 {
                outcome
            } else {
                None
            }),
    {
        self.frames_captured = self.frames_captured + 1;
        match outcome {
            Some(bytes) => if bytes.len() > 0 {
                Some(bytes)
            } else {
                None
            },
            None => None,
        }
    }
}

/// What both peers must define alike for any media to flow: the name, the
/// rates and the number of each codec, with fragmented video allowed and no
/// feedback asked for. The two have different numbers.
pub proof fn law_the_codecs_are_what_peers_agree_on()
    ensures
        h264_view().mime_type == "video/H264"@,
        h264_view().clock_rate == 90000,
        h264_view().channels == 0,
        h264_view().sdp_fmtp_line
            == "level-asymmetry-allowed=1;packetization-mode=1;profile-level-id=42e01f"@,
        h264_view().rtcp_feedback.len() == 0,
        h264_view().payload_type == 102,
        opus_view().mime_type == "audio/opus"@,
        opus_view().clock_rate == crate::audio::SAMPLE_RATE,
        opus_view().clock_rate == 48000,
        opus_view().channels == crate::audio::CHANNELS,
        opus_view().channels == 2,
        opus_view().sdp_fmtp_line == ""@,
        opus_view().rtcp_feedback.len() == 0,
        opus_view().payload_type == 111,
{
}

/// A track carries the codec of its kind. Sound and pictures belong to one
/// stream, under track names of their own.
pub proof fn law_both_tracks_belong_to_one_stream(
    video: TrackDescription,
    audio: TrackDescription,
    ssrc: u32,
)
    requires
        video.describes(MediaKind::Video, ssrc),
        audio.describes(MediaKind::Audio, ssrc),
    ensures
        video.stream_id@ == "screen-streaming-stream"@,
        audio.stream_id@ == "screen-streaming-stream"@,
        video.track_id@ == "screen-streaming-video"@,
        audio.track_id@ == "screen-streaming-audio"@,
        video.label@ == "screen"@,
        audio.label@ == "audio"@,
        video.kind == MediaKind::Video,
        audio.kind == MediaKind::Audio,
        video.codec@ == h264_view(),
        audio.codec@ == opus_view(),
        video.ssrc == ssrc,
        audio.ssrc == ssrc,
{
}

/// Bytes add up over packets, one packet having the bytes of its payload.
pub proof fn law_bytes_add_up(first: Seq<usize>, rest: Seq<usize>, len: usize)
    ensures
        total_bytes(Seq::empty()) == 0,
        total_bytes(seq![len]) == len,
        total_bytes(first + rest) == total_bytes(first) + total_bytes(rest),
    decreases rest.len(),
{
    assert(seq![len].drop_last() =~= Seq::empty());
    assert(total_bytes(seq![len].drop_last()) == 0);
    if rest.len() == 0 {
        assert(first + rest =~= first);
    } else {
        law_bytes_add_up(first, rest.drop_last(), len);
        assert((first + rest).drop_last() =~= first + rest.drop_last());
        assert((first + rest).last() == rest.last());
    }
}

/// A tally counts each packet once and every byte of it.
pub proof fn law_a_tally_counts_packets_and_bytes(tally: PacketTally, lengths: Seq<usize>)
    requires
        tally.counts(lengths),
    ensures
        tally.packets == lengths.len(),
        tally.bytes == total_bytes(lengths),
        ENOUGH_PACKETS == 3,
{
}

} // verus!
