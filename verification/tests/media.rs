use rtc::peer_connection::configuration::media_engine::{MIME_TYPE_H264, MIME_TYPE_OPUS};
use rtc::peer_connection::RTCPeerConnectionBuilder;
use rtc::rtp_transceiver::rtp_sender::RtpCodecKind;
use screen_streaming::audio::{
    decoded_pcm, encoded_packet, opus_frame, pcm_bytes, sample_from_le_bytes, sample_to_le_bytes,
    take_chunk, CHANNELS, CHUNK_BYTES, DECODE_ROOM, FRAME_SAMPLES_PER_CHANNEL,
    FRAME_SAMPLES_TOTAL, PACKET_ROOM,
};
use screen_streaming::capture::{
    blank, capture_ends, capture_source, list_capturable_windows, CaptureSource, FrameCounter,
    WindowInfo,
};
use screen_streaming::commands::{arrived, greet, joined, take_hosting, CommandError};
use screen_streaming::encoding::{holds_picture, EncodeError, H264Encoder};
use screen_streaming::hw_encoding::{
    drain, encoder_settings, low_latency_options, EncoderSearch, FrameClock, Received,
};
use screen_streaming::peer::{
    h264_codec_parameters, new_media_engine, opus_codec_parameters, stun_config,
    video_media_engine, EncodeTally, MediaKind, PacketTally, TrackDescription,
};
use screen_streaming::pipeline::EncoderRequest;
use screen_streaming::video_preview::{
    is_depacketizable, pack_rows, part_end, part_header, stream_header, stream_url,
    AccessUnitAssembler,
};
use std::collections::VecDeque;

#[test]
fn a_single_unit_comes_out_behind_a_start_code() {
    let mut assembler = AccessUnitAssembler::new();
    assert_eq!(assembler.push(&[0x65, 1, 2], true), Some(vec![0, 0, 0, 1, 0x65, 1, 2]));
    assert_eq!(assembler.push(&[0x09, 0x10], true), Some(vec![0, 0, 0, 1, 0x09, 0x10]));
}

#[test]
fn units_of_one_frame_come_out_together() {
    let mut assembler = AccessUnitAssembler::new();
    assert_eq!(assembler.push(&[0x67, 1, 2], false), None);
    assert_eq!(assembler.push(&[0x68, 3, 4], false), None);
    assert_eq!(
        assembler.push(&[0x65, 5, 6], true),
        Some(vec![0, 0, 0, 1, 0x67, 1, 2, 0, 0, 0, 1, 0x68, 3, 4, 0, 0, 0, 1, 0x65, 5, 6])
    );
    assert_eq!(assembler.push(&[0x41, 7, 8], true), Some(vec![0, 0, 0, 1, 0x41, 7, 8]));
}

#[test]
fn fragments_are_put_together() {
    let mut assembler = AccessUnitAssembler::new();
    assert_eq!(assembler.push(&[0x7c, 0x85, 1, 2], false), None);
    assert_eq!(assembler.push(&[0x7c, 0x05, 3], false), None);
    assert_eq!(
        assembler.push(&[0x7c, 0x45, 4, 5], true),
        Some(vec![0, 0, 0, 1, 0x65, 1, 2, 3, 4, 5])
    );
}

#[test]
fn an_unfinished_fragment_is_kept_past_a_marker() {
    let mut assembler = AccessUnitAssembler::new();
    assert_eq!(assembler.push(&[0x7c, 0x85, 1], true), None);
    assert_eq!(assembler.push(&[0x41, 8, 9], false), None);
    assert_eq!(
        assembler.push(&[0x7c, 0x45, 2], true),
        Some(vec![0, 0, 0, 1, 0x41, 8, 9, 0, 0, 0, 1, 0x65, 1, 2])
    );
}

#[test]
fn aggregates_are_taken_apart() {
    let mut assembler = AccessUnitAssembler::new();
    let aggregate = [0x78, 0, 2, 0x67, 1, 0, 3, 0x68, 2, 3];
    assert!(is_depacketizable(&aggregate));
    assert_eq!(
        assembler.push(&aggregate, true),
        Some(vec![0, 0, 0, 1, 0x67, 1, 0, 0, 0, 1, 0x68, 2, 3])
    );
    let too_long = [0x78, 0, 9, 0x67, 1];
    assert!(is_depacketizable(&too_long));
    assert_eq!(assembler.push(&too_long, true), None);
    assert!(!is_depacketizable(&[0x78, 0, 1, 0x67, 0]));
    assert!(!is_depacketizable(&[0x78, 0, 0, 0]));
    assert!(is_depacketizable(&[0x78, 0]));
}

#[test]
fn unreadable_payloads_add_nothing() {
    let mut assembler = AccessUnitAssembler::new();
    assert_eq!(assembler.push(&[0x65, 1, 2], false), None);
    assert_eq!(assembler.push(&[], false), None);
    assert_eq!(assembler.push(&[0x65], false), None);
    assert_eq!(assembler.push(&[0x65, 1], false), None);
    assert_eq!(assembler.push(&[0x60, 1, 2], false), None);
    assert_eq!(assembler.push(&[0x7d, 1, 2], false), None);
    assert_eq!(assembler.push(&[0x41, 3, 4], true), Some(vec![
        0, 0, 0, 1, 0x65, 1, 2, 0, 0, 0, 1, 0x41, 3, 4
    ]));
    assert_eq!(assembler.push(&[0x60, 1, 2], true), None);
}

#[test]
fn rows_are_laid_out_by_stride() {
    let rgba: Vec<u8> = (1..=16).collect();
    let mut dst = vec![0u8; 20];
    pack_rows(&rgba, 2, 2, 12, &mut dst);
    assert_eq!(
        dst,
        vec![1, 2, 3, 4, 5, 6, 7, 8, 0, 0, 0, 0, 9, 10, 11, 12, 13, 14, 15, 16]
    );
    let mut packed = vec![9u8; 17];
    pack_rows(&rgba, 2, 2, 8, &mut packed);
    assert_eq!(&packed[..16], &rgba[..]);
    assert_eq!(packed[16], 9);
}

#[test]
fn pictures_are_framed_for_the_preview() {
    assert_eq!(
        stream_header(),
        "HTTP/1.1 200 OK\r\nContent-Type: multipart/x-mixed-replace; boundary=frame\r\n\
         Cache-Control: no-cache\r\nConnection: close\r\n\r\n"
    );
    assert_eq!(
        part_header(&[0; 1234]),
        "--frame\r\nContent-Type: image/jpeg\r\nContent-Length: 1234\r\n\r\n"
    );
    assert_eq!(
        part_header(&[]),
        "--frame\r\nContent-Type: image/jpeg\r\nContent-Length: 0\r\n\r\n"
    );
    assert_eq!(part_end(), "\r\n");
    assert_eq!(stream_url("127.0.0.1:5000"), "http://127.0.0.1:5000/stream");
}

#[test]
fn a_chunk_is_one_opus_frame() {
    let mut queue: VecDeque<u8> = VecDeque::new();
    for i in 0..(CHUNK_BYTES + 3) {
        queue.push_back((i % 251) as u8);
    }
    let bytes: Vec<u8> = queue.iter().copied().collect();
    let chunk = take_chunk(&mut queue).expect("a whole chunk");
    assert_eq!(chunk.samples.len(), FRAME_SAMPLES_TOTAL);
    assert_eq!(chunk.samples.len(), FRAME_SAMPLES_PER_CHANNEL * CHANNELS);
    for (i, sample) in chunk.samples.iter().enumerate() {
        assert_eq!(*sample, i16::from_le_bytes([bytes[2 * i], bytes[2 * i + 1]]));
    }
    assert_eq!(queue.len(), 3);
    assert!(take_chunk(&mut queue).is_none());
    assert_eq!(queue.len(), 3);
    assert_eq!(pcm_bytes(&chunk.samples), &bytes[..CHUNK_BYTES]);
}

#[test]
fn samples_and_bytes_are_little_endian() {
    for sample in i16::MIN..=i16::MAX {
        let [lo, hi] = sample.to_le_bytes();
        assert_eq!(sample_to_le_bytes(sample), (lo, hi));
        assert_eq!(sample_from_le_bytes(lo, hi), sample);
    }
    assert_eq!(pcm_bytes(&[1, -1, 256]), vec![1, 0, 255, 255, 0, 1]);
    assert!(pcm_bytes(&[]).is_empty());
}

#[test]
fn an_opus_packet_holds_one_frame() {
    assert_eq!(opus_frame(&[1, 2, 3]), Some(vec![1, 2, 3]));
    assert_eq!(opus_frame(&[]), None);
}

#[test]
fn decoded_audio_is_cut_to_what_came_out() {
    let room: Vec<i16> = vec![7; DECODE_ROOM];
    assert_eq!(decoded_pcm(room, FRAME_SAMPLES_PER_CHANNEL).len(), FRAME_SAMPLES_TOTAL);
    assert_eq!(decoded_pcm(vec![1, 2], 5), vec![1, 2]);
    assert_eq!(
        decoded_pcm(vec![7; DECODE_ROOM], 6 * FRAME_SAMPLES_PER_CHANNEL).len(),
        6 * FRAME_SAMPLES_TOTAL
    );
    assert_eq!(encoded_packet(&[5, 6, 7, 8], 3), vec![5, 6, 7]);
    assert_eq!(encoded_packet(&[0; PACKET_ROOM], PACKET_ROOM).len(), 4000);
    assert_eq!(
        screen_streaming::audio::stream_url("127.0.0.1:5000"),
        "ws://127.0.0.1:5000/audio"
    );
}

#[test]
fn white_space_is_that_of_unicode() {
    for c in '\0'..=char::MAX {
        assert_eq!(blank(&c.to_string()), c.is_whitespace(), "at {:x}", c as u32);
    }
    assert!(blank(""));
    assert!(blank(" \t\u{3000}\n"));
    assert!(!blank(" a "));
}

fn window(title: Option<&str>, valid: bool, width: Option<i32>) -> WindowInfo {
    WindowInfo {
        valid,
        title: title.map(|t| t.to_owned()),
        process_name: Some("app.exe".to_owned()),
        width,
        height: Some(600),
    }
}

#[test]
fn only_titled_windows_are_offered() {
    let windows = vec![
        window(Some("One"), true, Some(800)),
        window(Some("Two"), false, Some(800)),
        window(Some("  "), true, Some(800)),
        window(None, true, Some(800)),
        window(Some(" Three "), true, Some(-5)),
        WindowInfo {
            valid: true,
            title: Some("Four".to_owned()),
            process_name: None,
            width: None,
            height: None,
        },
    ];
    let offered = list_capturable_windows(&windows);
    let shown: Vec<(&str, &str, u32, u32)> = offered
        .iter()
        .map(|w| (w.title.as_str(), w.process_name.as_str(), w.width, w.height))
        .collect();
    assert_eq!(
        shown,
        vec![("One", "app.exe", 800, 600), (" Three ", "app.exe", 0, 600), ("Four", "", 0, 0)]
    );
}

#[test]
fn a_title_picks_a_window() {
    assert!(matches!(capture_source(None), CaptureSource::Monitor));
    assert!(matches!(capture_source(Some(" \t".to_owned())), CaptureSource::Monitor));
    assert!(matches!(
        capture_source(Some(" Game".to_owned())),
        CaptureSource::Window(title) if title == " Game"
    ));
}

#[test]
fn only_the_first_frame_is_read() {
    let mut counter = FrameCounter::new();
    assert!(counter.arrived());
    counter.keep_first(1920, 1080, 8_294_400);
    assert!(!counter.arrived());
    assert_eq!(counter.count, 2);
    assert_eq!((counter.first_width, counter.first_height), (1920, 1080));
    assert_eq!(counter.first_buffer_len, 8_294_400);
    counter.count = u32::MAX;
    assert!(!counter.arrived());
    assert_eq!(counter.count, 0);
}

#[test]
fn a_capture_ends_with_its_time_or_its_listener() {
    assert!(!capture_ends(true, 2, 3));
    assert!(capture_ends(true, 3, 3));
    assert!(capture_ends(false, 0, 3));
}

#[test]
fn commands_need_what_went_before() {
    let mut hosting = Some(5);
    assert_eq!(take_hosting(&mut hosting), Ok(5));
    assert_eq!(take_hosting(&mut hosting), Err(CommandError::NotHosting));
    assert_eq!(joined(Some(1)), Ok(1));
    assert_eq!(joined::<u8>(None), Err(CommandError::NotJoined));
    assert_eq!(arrived(Some(1)), Ok(1));
    assert_eq!(arrived::<u8>(None), Err(CommandError::NoVideo));
    assert_eq!(
        CommandError::NotHosting.describe(),
        "no hosting session in progress — call start_hosting_session first"
    );
    assert_eq!(
        CommandError::NotJoined.describe(),
        "no active session — call join_signaling_session first"
    );
    assert_eq!(CommandError::NoVideo.describe(), "connection closed before a video track arrived");
    assert_eq!(greet("Ana"), "Hello, Ana! You've been greeted from Rust!");
}

#[test]
fn a_picture_is_encoded() {
    let mut encoder = match H264Encoder::new(2_000_000, 30) {
        Ok(encoder) => encoder,
        Err(_) => panic!("the encoder starts"),
    };
    let rgba = vec![128u8; 64 * 48 * 4];
    assert!(holds_picture(&rgba, 64, 48));
    match encoder.encode_rgba(&rgba, 64, 48) {
        Ok(bytes) => assert_eq!(&bytes[..4], &[0, 0, 0, 1]),
        Err(_) => panic!("the picture encodes"),
    }
    let wide = vec![0u8; 3842 * 2 * 4];
    assert!(holds_picture(&wide, 3842, 2));
    assert!(matches!(encoder.encode_rgba(&wide, 3842, 2), Err(EncodeError::Frame(_))));
    match encoder.encode_rgba(&rgba, 64, 48) {
        Ok(_) => {}
        Err(_) => panic!("the encoder goes on"),
    }
}

#[test]
fn the_same_pictures_encode_alike() {
    let encode = || {
        let mut encoder = match H264Encoder::new(2_000_000, 30) {
            Ok(encoder) => encoder,
            Err(_) => panic!("the encoder starts"),
        };
        let mut all: Vec<Vec<u8>> = Vec::new();
        for shade in [10u8, 200, 200, 90] {
            let rgba: Vec<u8> = (0..64 * 48 * 4u32).map(|i| (i as u8) ^ shade).collect();
            match encoder.encode_rgba(&rgba, 64, 48) {
                Ok(bytes) => all.push(bytes),
                Err(_) => panic!("the picture encodes"),
            }
        }
        all
    };
    let first = encode();
    assert!(!first[0].is_empty());
    assert_eq!(first, encode());
}

#[test]
fn a_picture_has_even_sides_and_no_padding() {
    assert!(!holds_picture(&[0; 16], 3, 2));
    assert!(!holds_picture(&[0; 24], 2, 3));
    assert!(!holds_picture(&[0; 17], 2, 2));
    assert!(!holds_picture(&[0; 20], 2, 2));
    assert!(holds_picture(&[0; 16], 2, 2));
    assert!(holds_picture(&[], 0, 0));
    assert!(!holds_picture(&[], usize::MAX - 1, usize::MAX - 1));
}

#[test]
fn encoders_are_tried_in_order() {
    let mut search = EncoderSearch::new();
    for name in ["h264_nvenc", "h264_amf", "h264_qsv", "h264_mf"] {
        assert_eq!(search.candidate(), Some(name));
        search.failed("not here");
    }
    assert_eq!(search.candidate(), None);
    assert_eq!(
        search.failure(),
        "no hardware H.264 encoder available on this machine. Tried:\n\
         h264_nvenc: not here\nh264_amf: not here\nh264_qsv: not here\nh264_mf: not here"
    );
    assert_eq!(
        EncoderSearch::new().failure(),
        "no hardware H.264 encoder available on this machine. Tried:\n"
    );
}

#[test]
fn encoders_are_tuned_for_speed() {
    assert_eq!(
        low_latency_options("h264_nvenc"),
        vec![("preset", "p1"), ("tune", "ll"), ("rc", "cbr"), ("rc-lookahead", "0")]
    );
    assert_eq!(
        low_latency_options("h264_qsv"),
        vec![("preset", "veryfast"), ("look_ahead", "0")]
    );
    assert_eq!(
        low_latency_options("h264_amf"),
        vec![("quality", "speed"), ("usage", "lowlatency")]
    );
    assert_eq!(
        low_latency_options("h264_mf"),
        vec![("scenario", "display_remoting"), ("rate_control", "cbr")]
    );
    assert!(low_latency_options("libx264").is_empty());
}

fn request(fps: u32) -> EncoderRequest {
    EncoderRequest {
        capture_width: 1920,
        capture_height: 1080,
        output_width: 1280,
        output_height: 720,
        bitrate_bps: 6_000_000,
        fps,
    }
}

#[test]
fn encoder_settings_follow_the_request() {
    let settings = encoder_settings(&request(60));
    assert_eq!((settings.width, settings.height), (1280, 720));
    assert_eq!(settings.time_base, (1, 60));
    assert_eq!(settings.frame_rate, (60, 1));
    assert_eq!((settings.bit_rate, settings.max_bit_rate), (6_000_000, 6_000_000));
    assert_eq!(settings.gop, 60);
    assert_eq!(settings.max_b_frames, 0);
    assert_eq!(encoder_settings(&request(0)).gop, 1);
    for fps in [0, 1, i32::MAX as u32, i32::MAX as u32 + 1, u32::MAX] {
        assert_eq!(encoder_settings(&request(fps)).time_base, (1, fps as i32));
        assert_eq!(encoder_settings(&request(fps)).frame_rate, (fps as i32, 1));
    }
}

#[test]
fn frames_are_numbered_from_zero() {
    let mut clock = FrameClock::new();
    assert_eq!(clock.tick(), 0);
    assert_eq!(clock.tick(), 1);
    assert_eq!(clock.tick(), 2);
}

#[test]
fn packets_are_drained_until_there_are_none() {
    let mut packets = Vec::new();
    assert!(drain(&mut packets, Received::Packet(Some(vec![1]))));
    assert!(drain(&mut packets, Received::Packet(None)));
    assert!(drain(&mut packets, Received::Packet(Some(vec![2, 3]))));
    assert!(!drain(&mut packets, Received::NeedsInput));
    assert!(!drain(&mut packets, Received::Ended));
    assert!(!drain(&mut packets, Received::Failed));
    assert_eq!(packets, vec![vec![1], vec![2, 3]]);
}

#[test]
fn both_peers_define_the_same_codecs() {
    let h264 = h264_codec_parameters();
    assert_eq!(h264.mime_type, "video/H264");
    assert_eq!((h264.clock_rate, h264.channels, h264.payload_type), (90000, 0, 102));
    assert_eq!(
        h264.sdp_fmtp_line,
        "level-asymmetry-allowed=1;packetization-mode=1;profile-level-id=42e01f"
    );
    assert!(h264.rtcp_feedback.is_empty());
    let opus = opus_codec_parameters();
    assert!(opus.rtcp_feedback.is_empty());
    assert_eq!(opus.mime_type, "audio/opus");
    assert_eq!((opus.clock_rate, opus.channels, opus.payload_type), (48000, 2, 111));
    assert_eq!(opus.sdp_fmtp_line, "");
}

#[test]
fn the_codec_names_are_those_of_the_engine() {
    assert_eq!(h264_codec_parameters().mime_type, MIME_TYPE_H264);
    assert_eq!(opus_codec_parameters().mime_type, MIME_TYPE_OPUS);
}

#[test]
fn tracks_are_described_alike() {
    let video = TrackDescription::with_ssrc(MediaKind::Video, 7);
    assert_eq!(video.stream_id, "screen-streaming-stream");
    assert_eq!(video.track_id, "screen-streaming-video");
    assert_eq!(video.label, "screen");
    assert_eq!(video.ssrc, 7);
    assert_eq!(video.codec.payload_type, 102);
    let audio = TrackDescription::new(MediaKind::Audio);
    assert_eq!(audio.stream_id, "screen-streaming-stream");
    assert_eq!(audio.track_id, "screen-streaming-audio");
    assert_eq!(audio.label, "audio");
    assert_eq!(audio.codec.payload_type, 111);
}

#[test]
fn three_packets_are_enough() {
    let mut tally = PacketTally::new();
    assert!(!tally.receive(100));
    assert!(!tally.receive(0));
    assert!(tally.receive(23));
    assert_eq!((tally.packets, tally.bytes), (3, 123));
}

#[test]
fn only_encoded_bytes_are_sent() {
    let mut tally = EncodeTally::new();
    assert_eq!(tally.encoded(Some(vec![1, 2])), Some(vec![1, 2]));
    assert_eq!(tally.encoded(Some(vec![])), None);
    assert_eq!(tally.encoded(None), None);
    assert_eq!(tally.frames_captured, 3);
}

#[test]
fn an_offer_names_both_codecs() {
    let engine = new_media_engine().expect("both codecs register");
    let mut pc = RTCPeerConnectionBuilder::new()
        .with_configuration(stun_config())
        .with_media_engine(engine)
        .build()
        .expect("the connection builds");
    pc.add_transceiver_from_kind(RtpCodecKind::Video, None).expect("a video line");
    pc.add_transceiver_from_kind(RtpCodecKind::Audio, None).expect("an audio line");
    let sdp = pc.create_offer(None).expect("an offer").sdp;
    assert_eq!(sdp.matches("a=rtpmap:").count(), 2);
    assert!(sdp.contains("a=rtpmap:102 H264/90000"));
    assert!(sdp.contains(
        "a=fmtp:102 level-asymmetry-allowed=1;packetization-mode=1;profile-level-id=42e01f"
    ));
    assert!(sdp.contains("a=rtpmap:111 opus/48000/2"));
}

#[test]
fn a_video_engine_names_video_only() {
    let mut pc = RTCPeerConnectionBuilder::new()
        .with_media_engine(video_media_engine().expect("the codec registers"))
        .build()
        .expect("the connection builds");
    pc.add_transceiver_from_kind(RtpCodecKind::Video, None).expect("a video line");
    let sdp = pc.create_offer(None).expect("an offer").sdp;
    assert_eq!(sdp.matches("a=rtpmap:").count(), 1);
    assert!(sdp.contains("a=rtpmap:102 H264/90000"));
}

#[test]
fn one_public_stun_server_is_asked() {
    let config = stun_config();
    assert_eq!(config.ice_servers().len(), 1);
    assert_eq!(config.ice_servers()[0].urls, vec!["stun:stun.l.google.com:19302"]);
    assert_eq!(config.ice_servers()[0].username, "");
}
