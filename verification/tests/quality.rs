use screen_streaming::pipeline::{EncodeStage, PreviewAction};
use screen_streaming::quality::{StreamQuality, UNLIMITED_FPS};
use std::time::Duration;

fn quality(resolution_height: u32, fps: u32) -> StreamQuality {
    StreamQuality {
        resolution_height,
        fps,
        audio: false,
        audio_device_id: None,
        boost_performance: false,
    }
}

#[test]
fn downscales_keeping_aspect_ratio_and_evenness() {
    let quality = StreamQuality {
        resolution_height: 480,
        fps: 30,
        audio: false,
        audio_device_id: None,
        boost_performance: false,
    };
    let (w, h) = quality.target_dimensions(1920, 1080);
    assert_eq!(h, 480);
    assert_eq!(w, 854);
    assert_eq!(w % 2, 0);
}

#[test]
fn never_scales_up_past_the_source() {
    let quality = StreamQuality {
        resolution_height: 1080,
        fps: 30,
        audio: false,
        audio_device_id: None,
        boost_performance: false,
    };
    let (w, h) = quality.target_dimensions(640, 480);
    assert_eq!((w, h), (640, 480));
}

#[test]
fn empty_sources_are_left_alone() {
    assert_eq!(quality(480, 30).target_dimensions(0, 1080), (0, 1080));
    assert_eq!(quality(480, 30).target_dimensions(1920, 0), (1920, 0));
}

#[test]
fn tiny_sources_get_two_pixels() {
    assert_eq!(quality(480, 30).target_dimensions(1, 1), (2, 2));
    assert_eq!(quality(0, 30).target_dimensions(1920, 1080), (4, 2));
    assert_eq!(quality(144, 30).target_dimensions(1, 2000), (2, 144));
}

#[test]
fn a_low_source_is_never_widened() {
    assert_eq!(quality(1080, 30).target_dimensions(100, 1), (100, 2));
    assert_eq!(quality(1080, 30).target_dimensions(101, 1), (102, 2));
    assert_eq!(quality(0, 30).target_dimensions(100, 1), (100, 2));
    assert_eq!(quality(1080, 30).target_dimensions(u32::MAX - 1, 1), (u32::MAX - 1, 2));
}

#[test]
fn nearly_every_source_can_be_scaled() {
    assert!(quality(1080, 30).can_scale(0, u32::MAX));
    assert!(quality(1080, 30).can_scale(u32::MAX - 1, 1080));
    assert!(!quality(1080, 30).can_scale(u32::MAX, 1080));
    assert!(quality(1080, 30).can_scale(u32::MAX, 1081));
    assert!(!quality(u32::MAX, 30).can_scale(2, u32::MAX));
}

#[test]
fn scaling_twice_is_scaling_once() {
    for (ceiling, width, height) in
        [(480, 1920, 1080), (480, 0, 7), (481, 1920, 400), (481, 100, 1080), (1, 9, 9)]
    {
        let q = quality(ceiling, 30);
        let (w, h) = q.target_dimensions(width, height);
        assert_eq!(q.target_dimensions(w, h), (w, h));
    }
    let odd = quality(481, 30);
    assert_eq!(odd.target_dimensions(1920, 1080), (856, 482));
    assert_eq!(odd.target_dimensions(856, 482), (854, 482));
}

#[test]
fn intervals_divide_a_second() {
    assert_eq!(quality(480, 30).frame_interval(), Duration::from_nanos(33_333_333));
    assert_eq!(quality(480, 60).frame_interval(), Duration::from_nanos(16_666_667));
    assert_eq!(quality(480, 1).frame_interval(), Duration::from_secs(1));
    assert_eq!(quality(480, UNLIMITED_FPS).frame_interval(), Duration::ZERO);
}

#[test]
fn intervals_are_those_of_floating_point() {
    let mut rates: Vec<u32> = (1..5000).collect();
    rates.push(16_000_000);
    rates.push(80_000_000);
    rates.push(400_000_000);
    rates.push(2_000_000_000);
    rates.push(u32::MAX);
    for fps in rates {
        assert_eq!(
            quality(480, fps).frame_interval(),
            Duration::from_secs_f64(1.0 / fps as f64),
            "at {fps} frames per second"
        );
    }
}

#[test]
fn the_encoder_always_has_a_rate() {
    assert_eq!(quality(480, 30).nominal_fps(), 30);
    assert_eq!(quality(480, UNLIMITED_FPS).nominal_fps(), 120);
}

#[test]
fn bitrates_come_in_steps() {
    let steps = vec![
        (0, 300_000),
        (144, 300_000),
        (145, 700_000),
        (240, 700_000),
        (241, 1_200_000),
        (360, 1_200_000),
        (361, 2_500_000),
        (480, 2_500_000),
        (481, 6_000_000),
        (720, 6_000_000),
        (721, 12_000_000),
        (1080, 12_000_000),
        (1081, 24_000_000),
        (1440, 24_000_000),
        (1441, 50_000_000),
        (u32::MAX, 50_000_000),
    ];
    for (height, bps) in steps {
        assert_eq!(quality(height, 30).bitrate_bps(), bps);
    }
}

#[test]
fn frames_over_the_ceiling_are_dropped() {
    let mut stage = EncodeStage::new(quality(480, 50));
    let ms = 1_000_000u64;
    assert!(stage.take_frame(0));
    assert!(!stage.take_frame(19 * ms));
    assert!(stage.take_frame(20 * ms));
    assert!(!stage.take_frame(39 * ms));
    assert!(stage.take_frame(45 * ms));
    assert!(!stage.take_frame(60 * ms));
    assert!(stage.take_frame(65 * ms));
}

#[test]
fn an_unlimited_rate_drops_nothing() {
    let mut stage = EncodeStage::new(quality(480, UNLIMITED_FPS));
    for now in [0u64, 0, 1, 1, 2] {
        assert!(stage.take_frame(now));
    }
}

#[test]
fn the_preview_gets_two_frames_a_second() {
    let mut stage = EncodeStage::new(quality(480, 30));
    assert_eq!(stage.preview(false, 0), PreviewAction::Skip);
    assert_eq!(stage.preview(true, 0), PreviewAction::Open);
    assert!(!stage.preview_opened(false));
    assert_eq!(stage.preview(true, 499_999_999), PreviewAction::Skip);
    assert_eq!(stage.preview(true, 500_000_000), PreviewAction::Open);
    assert!(stage.preview_opened(true));
    assert_eq!(stage.preview(true, 999_999_999), PreviewAction::Skip);
    assert_eq!(stage.preview(true, 1_000_000_000), PreviewAction::Encode);
    assert_eq!(stage.preview(false, 2_000_000_000), PreviewAction::Skip);
}

#[test]
fn the_encoder_is_opened_for_the_first_frame() {
    let mut stage = EncodeStage::new(quality(480, UNLIMITED_FPS));
    assert!(!stage.needs_flush());
    let request = stage.encoder_request(1920, 1080).expect("no encoder yet");
    assert_eq!((request.capture_width, request.capture_height), (1920, 1080));
    assert_eq!((request.output_width, request.output_height), (854, 480));
    assert_eq!(request.bitrate_bps, 2_500_000);
    assert_eq!(request.fps, 120);
    assert!(stage.encoder_opened(true));
    assert!(stage.encoder_request(1920, 1080).is_none());
    assert!(stage.can_request(u32::MAX, 2));
    assert!(stage.encoder_request(u32::MAX, 2).is_none());
    assert!(stage.needs_flush());
    assert!(!EncodeStage::new(quality(480, 30)).can_request(u32::MAX, 2));
    assert!(EncodeStage::new(quality(480, 30)).can_request(1920, 1080));
    assert!(!EncodeStage::new(quality(480, 30)).encoder_opened(false));
}
