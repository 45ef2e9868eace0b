//! The encode stage of a broadcast: what becomes of each captured frame on its
//! way to the encoder, to the preview, or nowhere.
//!
//! Time is in nanoseconds since the stage started.

use crate::audio;
use crate::quality;
use crate::quality::StreamQuality;
use vstd::prelude::*;

verus! {

/// How often the broadcaster's own preview gets a fresh frame, in
/// nanoseconds. It is a quick look, not something that needs to be smooth.
pub const PREVIEW_INTERVAL_NANOS: u64 = 500_000_000;

/// The duration of one audio sample handed to its track, in milliseconds.
pub const AUDIO_FRAME_MILLIS: u64 = 20;

/// How many raw video frames may wait for the encoder. A frame that finds the
/// place taken is dropped: the encoder always works on a recent one.
pub const RAW_FRAME_QUEUE: usize = 1;

/// How many audio chunks may wait for the encoder. A dropped chunk is an
/// audible click, so a little slack is worth it.
pub const RAW_AUDIO_QUEUE: usize = 4;

/// The time from `since` to `now`: none where the clock went back.
pub open spec fn elapsed(since: int, now: int) -> int {
    if now >= since {
        now - since
    } else {
        0
    }
}

/// Whether something that must be `interval` apart is due at `now`, when it
/// last happened at `last`, if ever.
pub open spec fn is_due(interval: int, last: Option<u64>, now: int) -> bool {
    match last {
        None => true,
        Some(t) => elapsed(t as int, now) >= interval,
    }
}

fn due(interval: u64, last: Option<u64>, now: u64) -> (r: bool)
    ensures
        r == is_due(interval as int, last, now as int),
{
    match last {
        None => true,
        Some(t) => if now >= t {
            now - t >= interval
        } else {
            interval == 0
        },
    }
}

/// The settings that a hardware encoder is opened with.
#[derive(Debug, Clone, Copy, PartialEq, Eq, Structural)]
pub struct EncoderRequest {
    pub capture_width: u32,
    pub capture_height: u32,
    pub output_width: u32,
    pub output_height: u32,
    pub bitrate_bps: usize,
    pub fps: u32,
}

/// What to do for the preview when a frame arrives.
#[derive(Debug, Clone, Copy, PartialEq, Eq, Structural)]
pub enum PreviewAction {
    /// Nothing: nobody watches, or the last preview is too recent.
    Skip,
    /// Start the preview encoder, then say whether that worked.
    Open,
    /// Encode this frame for the preview.
    Encode,
}

/// The state of the encode stage.
pub struct EncodeStage {
    quality: StreamQuality,
    interval: u64,
    last_encoded: Option<u64>,
    last_preview: Option<u64>,
    encoder_open: bool,
    preview_open: bool,
}

/// What an [`EncodeStage`] is in.
pub struct EncodeStageView {
    /// The resolution ceiling.
    pub resolution_height: u32,
    /// The frame rate ceiling.
    pub fps: u32,
    /// When a frame was last let through to the encoder.
    pub last_encoded: Option<u64>,
    /// When a frame was last taken for the preview.
    pub last_preview: Option<u64>,
    /// Whether the encoder is open.
    pub encoder_open: bool,
    /// Whether the preview encoder is open.
    pub preview_open: bool,
}

impl EncodeStageView {
    /// Whether the encoder is open, or the dimensions that it would be opened
    /// with for such a frame can be counted in 32 bits.
    pub open spec fn can_request(self, width: u32, height: u32) -> bool {
        self.encoder_open || {
            let (w, h) = quality::scaled_dimensions(
                self.resolution_height as int,
                width as int,
                height as int,
            );
            w <= u32::MAX && h <= u32::MAX
        }
    }

    /// Whether `request` is the encoder for frames of these dimensions: scaled
    /// to the ceiling, at the bitrate for it, timed by the ceiling on the
    /// frame rate or by a fixed rate where there is none.
    pub open spec fn asks_for(self, request: EncoderRequest, width: u32, height: u32) -> bool {
        &&& request.capture_width == width
        &&& request.capture_height == height
        &&& (request.output_width as int, request.output_height as int)
            == quality::scaled_dimensions(
            self.resolution_height as int,
            width as int,
            height as int,
        )
        &&& request.bitrate_bps == quality::bitrate_for(self.resolution_height)
        &&& request.fps == (if self.fps == quality::UNLIMITED_FPS {
            120
        } else {
            self.fps
        })
    }
}

impl View for EncodeStage {
    type V = EncodeStageView;

    closed spec fn view(&self) -> EncodeStageView {
        EncodeStageView {
            resolution_height: self.quality.resolution_height,
            fps: self.quality.fps,
            last_encoded: self.last_encoded,
            last_preview: self.last_preview,
            encoder_open: self.encoder_open,
            preview_open: self.preview_open,
        }
    }
}

impl EncodeStage {
    /// The frame interval kept is the one that the quality asks for.
    pub closed spec fn wf(&self) -> bool {
        self.interval == quality::interval_nanos(self.quality.fps)
    }

    /// A stage that has seen no frame yet. Its encoder cannot be open: it
    /// needs the dimensions of the first frame.
    pub fn new(quality: StreamQuality) -> (stage: EncodeStage)
        ensures
            stage.wf(),
            stage@ == (EncodeStageView {
                resolution_height: quality.resolution_height,
                fps: quality.fps,
                last_encoded: None,
                last_preview: None,
                encoder_open: false,
                preview_open: false,
            }),
    {
        let interval: u64 = quality.frame_interval_nanos();
        EncodeStage {
            quality,
            interval,
            last_encoded: None,
            last_preview: None,
            encoder_open: false,
            preview_open: false,
        }
    }

    /// What the preview does with a frame that arrives at `now`. `wanted` says
    /// whether somebody watches the preview.
    pub fn preview(&mut self, wanted: bool, now: u64) -> (action: PreviewAction)
        requires
            old(self).wf(),
        ensures
            final(self).wf(),
            action == (if !wanted || !is_due(
                PREVIEW_INTERVAL_NANOS as int,
                old(self)@.last_preview,
                now as int,
            ) {
                PreviewAction::Skip
            } else if old(self)@.preview_open {
                PreviewAction::Encode
            } else {
                PreviewAction::Open
            }),
            final(self)@ == (EncodeStageView {
                last_preview: if action == PreviewAction::Skip {
                    old(self)@.last_preview
                } else {
                    Some(now)
                },
                ..old(self)@
            }),
    {
        if !wanted || !due(PREVIEW_INTERVAL_NANOS, self.last_preview, now) {
            return PreviewAction::Skip;
        }
        self.last_preview = Some(now);
        if self.preview_open {
            PreviewAction::Encode
        } else {
            PreviewAction::Open
        }
    }

    /// Takes note of whether the preview encoder started. Where it did, the
    /// frame at hand is encoded for the preview; where not, the next frame
    /// that is due tries again.
    pub fn preview_opened(&mut self, worked: bool) -> (encode: bool)
        requires
            old(self).wf(),
        ensures
            final(self).wf(),
            encode == worked,
            final(self)@ == (EncodeStageView { preview_open: worked, ..old(self)@ }),
    {
        self.preview_open = worked;
        worked
    }

    /// Whether [`EncodeStage::encoder_request`] can be asked about a frame of
    /// these dimensions.
    pub fn can_request(&self, width: u32, height: u32) -> (r: bool)
        requires
            self.wf(),
        ensures
            r == self@.can_request(width, height),
    {
        self.encoder_open || self.quality.can_scale(width, height)
    }

    /// The encoder to open for a frame of these dimensions: `None` where it is
    /// open already.
    pub fn encoder_request(&self, width: u32, height: u32) -> (request: Option<EncoderRequest>)
        requires
            self.wf(),
            self@.can_request(width, height),
        ensures
            match request {
                None => self@.encoder_open,
                Some(r) => !self@.encoder_open && self@.asks_for(r, width, height),
            },
    {
        if self.encoder_open {
            return None;
        }
        let (output_width, output_height) = self.quality.target_dimensions(width, height);
        Some(
            EncoderRequest {
                capture_width: width,
                capture_height: height,
                output_width,
                output_height,
                bitrate_bps: self.quality.bitrate_bps(),
                fps: self.quality.nominal_fps(),
            },
        )
    }

    /// Takes note of whether the encoder opened. Where it did not, the stage
    /// ends: there is nothing else to encode with.
    pub fn encoder_opened(&mut self, worked: bool) -> (go_on: bool)
        requires
            old(self).wf(),
        ensures
            final(self).wf(),
            go_on == worked,
            final(self)@ == (EncodeStageView { encoder_open: worked, ..old(self)@ }),
    {
        self.encoder_open = worked;
        worked
    }

    /// Whether the frame at `now` goes to the encoder. One that comes sooner
    /// after the last than the frame rate ceiling allows is dropped.
    pub fn take_frame(&mut self, now: u64) -> (encode: bool)
        requires
            old(self).wf(),
        ensures
            final(self).wf(),
            encode == is_due(
                quality::interval_nanos(old(self)@.fps) as int,
                old(self)@.last_encoded,
                now as int,
            ),
            final(self)@ == (EncodeStageView {
                last_encoded: if encode {
                    Some(now)
                } else {
                    old(self)@.last_encoded
                },
                ..old(self)@
            }),
    {
        if !due(self.interval, self.last_encoded, now) {
            return false;
        }
        self.last_encoded = Some(now);
        true
    }

    /// Whether the encoder has to be drained when the frames end.
    pub fn needs_flush(&self) -> (flush: bool)
        ensures
            flush == self@.encoder_open,
    {
        self.encoder_open
    }
}

/// When a frame was last let through, if any was, of those that arrive at
/// `times` and must be `interval` apart.
pub open spec fn last_admitted(interval: int, times: Seq<u64>) -> Option<u64>
    decreases times.len(),
{
    if times.len() == 0 {
        None
    } else {
        let last = last_admitted(interval, times.drop_last());
        if is_due(interval, last, times.last() as int) {
            Some(times.last())
        } else {
            last
        }
    }
}

/// Whether the frame at position `i` is let through.
pub open spec fn is_admitted(interval: int, times: Seq<u64>, i: int) -> bool {
    is_due(interval, last_admitted(interval, times.take(i)), times[i] as int)
}

/// Frames arrive one after the other.
pub open spec fn in_time(times: Seq<u64>) -> bool {
    forall|i: int, j: int| 0 <= i <= j < times.len() ==> times[i] <= times[j]
}

proof fn lemma_last_admitted(interval: int, times: Seq<u64>, i: int)
    requires
        interval >= 0,
        in_time(times),
        0 <= i < times.len(),
        is_admitted(interval, times, i),
    ensures
        last_admitted(interval, times) matches Some(t) && times[i] <= t,
    decreases times.len(),
{
    let init = times.drop_last();
    assert(times.take(times.len() - 1) =~= init);
    if i < times.len() - 1 {
        assert(init.take(i) =~= times.take(i));
        assert(in_time(init)) by {
            assert forall|a: int, b: int| 0 <= a <= b < init.len() implies init[a] <= init[b] by {
                assert(times[a] <= times[b]);
            }
        }
        lemma_last_admitted(interval, init, i);
        assert(times[i] <= times[times.len() - 1]);
    }
}

proof fn lemma_apart(interval: int, times: Seq<u64>, i: int, j: int)
    requires
        interval >= 0,
        in_time(times),
        0 <= i < j < times.len(),
        is_admitted(interval, times, i),
        is_admitted(interval, times, j),
    ensures
        times[j] - times[i] >= interval,
{
    let before = times.take(j);
    assert(before.take(i) =~= times.take(i));
    assert(in_time(before)) by {
        assert forall|a: int, b: int| 0 <= a <= b < before.len() implies before[a] <= before[b] by {
            assert(times[a] <= times[b]);
        }
    }
    lemma_last_admitted(interval, before, i);
    assert(times[i] <= times[j]);
}

/// The frame rate stays under its ceiling: any two frames that reach the
/// encoder are at least the frame interval apart.
pub proof fn law_encoded_frames_are_apart(fps: u32, times: Seq<u64>, i: int, j: int)
    requires
        in_time(times),
        0 <= i < j < times.len(),
        is_admitted(quality::interval_nanos(fps) as int, times, i),
        is_admitted(quality::interval_nanos(fps) as int, times, j),
    ensures
        times[j] - times[i] >= quality::interval_nanos(fps),
{
    lemma_apart(quality::interval_nanos(fps) as int, times, i, j);
}

/// Of the frames that arrive while somebody watches the preview, any two that
/// are taken for it are at least half a second apart.
pub proof fn law_previews_are_apart(times: Seq<u64>, i: int, j: int)
    requires
        in_time(times),
        0 <= i < j < times.len(),
        is_admitted(PREVIEW_INTERVAL_NANOS as int, times, i),
        is_admitted(PREVIEW_INTERVAL_NANOS as int, times, j),
    ensures
        times[j] - times[i] >= 500_000_000,
{
    lemma_apart(PREVIEW_INTERVAL_NANOS as int, times, i, j);
}

/// Without a ceiling every frame reaches the encoder.
pub proof fn law_an_unlimited_rate_drops_nothing(times: Seq<u64>, i: int)
    requires
        0 <= i < times.len(),
    ensures
        is_admitted(quality::interval_nanos(quality::UNLIMITED_FPS) as int, times, i),
{
}

/// The first frame always reaches the encoder.
pub proof fn law_the_first_frame_is_encoded(fps: u32, times: Seq<u64>)
    requires
        times.len() > 0,
    ensures
        is_admitted(quality::interval_nanos(fps) as int, times, 0),
{
}

/// A frame is dropped only where one at most a frame interval before it went
/// to the encoder.
pub proof fn law_a_frame_is_dropped_only_after_another(fps: u32, times: Seq<u64>, j: int)
    requires
        in_time(times),
        0 <= j < times.len(),
        !is_admitted(quality::interval_nanos(fps) as int, times, j),
    ensures
        exists|i: int|
            0 <= i < j && #[trigger] is_admitted(quality::interval_nanos(fps) as int, times, i)
                && times[j] - times[i] < quality::interval_nanos(fps),
{
    let interval = quality::interval_nanos(fps) as int;
    lemma_last_admitted_exists(interval, times, j);
}

proof fn lemma_last_admitted_exists(interval: int, times: Seq<u64>, n: int)
    requires
        0 <= n <= times.len(),
    ensures
        last_admitted(interval, times.take(n)) matches Some(t) ==> exists|i: int|
            0 <= i < n && #[trigger] is_admitted(interval, times, i) && times[i] == t,
    decreases n,
{
    if n > 0 {
        lemma_last_admitted_exists(interval, times, n - 1);
        assert(times.take(n).drop_last() =~= times.take(n - 1));
        assert(times.take(n).last() == times[n - 1]);
        if is_due(interval, last_admitted(interval, times.take(n - 1)), times[n - 1] as int) {
            assert(is_admitted(interval, times, n - 1));
        }
    }
}

/// The stage lets frames through as the sequence of their times says: one
/// more frame, taken in by a stage that has seen those before it.
pub proof fn law_the_stage_follows_the_times(
    before: EncodeStageView,
    after: EncodeStageView,
    encode: bool,
    times: Seq<u64>,
    now: u64,
)
    requires
        before.last_encoded == last_admitted(quality::interval_nanos(before.fps) as int, times),
        encode == is_due(
            quality::interval_nanos(before.fps) as int,
            before.last_encoded,
            now as int,
        ),
        after == (EncodeStageView {
            last_encoded: if encode {
                Some(now)
            } else {
                before.last_encoded
            },
            ..before
        }),
    ensures
        encode == is_admitted(
            quality::interval_nanos(before.fps) as int,
            times.push(now),
            times.len() as int,
        ),
        after.last_encoded == last_admitted(
            quality::interval_nanos(before.fps) as int,
            times.push(now),
        ),
{
    assert(times.push(now).drop_last() =~= times);
    assert(times.push(now).take(times.len() as int) =~= times);
}

/// Something that must be `interval` apart is due the first time, then as soon
/// as that much time has gone by and not a moment sooner. A clock that went
/// back counts as no time gone by.
pub proof fn law_due_as_soon_as_the_interval_is_over(interval: int, last: u64, now: int)
    requires
        interval >= 0,
    ensures
        is_due(interval, None, now),
        now >= last ==> (is_due(interval, Some(last), now) <==> now - last >= interval),
        now < last ==> (is_due(interval, Some(last), now) <==> interval == 0),
{
}

/// A frame goes without a preview only where one less than half a second
/// before it was taken for one.
pub proof fn law_a_preview_is_skipped_only_after_another(times: Seq<u64>, j: int)
    requires
        in_time(times),
        0 <= j < times.len(),
        !is_admitted(PREVIEW_INTERVAL_NANOS as int, times, j),
    ensures
        exists|i: int|
            0 <= i < j && #[trigger] is_admitted(PREVIEW_INTERVAL_NANOS as int, times, i)
                && times[j] - times[i] < 500_000_000,
{
    lemma_last_admitted_exists(PREVIEW_INTERVAL_NANOS as int, times, j);
}

/// Frames that come no faster than the ceiling all reach the encoder.
pub proof fn law_a_rate_under_the_ceiling_drops_nothing(fps: u32, times: Seq<u64>, j: int)
    requires
        forall|i: int|
            0 < i < times.len() ==> #[trigger] times[i] - times[i - 1] >= quality::interval_nanos(
                fps,
            ),
        0 <= j < times.len(),
    ensures
        is_admitted(quality::interval_nanos(fps) as int, times, j),
    decreases j,
{
    let interval = quality::interval_nanos(fps) as int;
    if j > 0 {
        law_a_rate_under_the_ceiling_drops_nothing(fps, times, j - 1);
        assert(times.take(j).drop_last() =~= times.take(j - 1));
        assert(times.take(j).last() == times[j - 1]);
        assert(last_admitted(interval, times.take(j)) == Some(times[j - 1]));
        assert(times[j] - times[j - 1] >= interval);
    }
}

/// The encoder that is asked for takes frames as they are captured, gives them
/// at the size and bitrate of the resolution that the user chose, and runs at
/// the frame rate that the user chose, or at 120 where that is unlimited.
pub proof fn law_the_encoder_is_the_one_the_user_chose(
    stage: EncodeStageView,
    request: EncoderRequest,
    width: u32,
    height: u32,
)
    requires
        stage.asks_for(request, width, height),
    ensures
        request.capture_width == width,
        request.capture_height == height,
        request.output_width == quality::scaled_dimensions(
            stage.resolution_height as int,
            width as int,
            height as int,
        ).0,
        request.output_height == quality::scaled_dimensions(
            stage.resolution_height as int,
            width as int,
            height as int,
        ).1,
        request.bitrate_bps == quality::bitrate_for(stage.resolution_height),
        stage.fps > 0 ==> request.fps == stage.fps,
        stage.fps == 0 ==> request.fps == 120,
{
}

/// An encoder can be asked for whatever is captured, but for a frame of the
/// largest width or height that there is.
pub proof fn law_nearly_every_frame_can_be_encoded(stage: EncodeStageView, width: u32, height: u32)
    requires
        stage.encoder_open || (width < u32::MAX && height < u32::MAX),
    ensures
        stage.can_request(width, height),
{
    if width < u32::MAX && height < u32::MAX {
        quality::law_nearly_every_source_can_be_scaled(stage.resolution_height, width, height);
    }
}

/// What waits for an encoder is one frame, so that it is a recent one, and four
/// chunks of audio. An audio sample lasts as long as the chunk that it was
/// made of.
pub proof fn law_little_waits_for_an_encoder()
    ensures
        RAW_FRAME_QUEUE == 1,
        RAW_AUDIO_QUEUE == 4,
        AUDIO_FRAME_MILLIS * audio::SAMPLE_RATE == 1000 * audio::FRAME_SAMPLES_PER_CHANNEL,
{
}

} // verus!
