//! The streaming quality a user chose: a ceiling on the resolution, a ceiling
//! on the frame rate, and whether system audio is sent.
//!
//! Capture itself always runs at the source's own resolution and refresh
//! rate; the ceilings are applied where frames are encoded.

use std::time::Duration;
use vstd::prelude::*;

verus! {

/// The `fps` value that means "no ceiling": every captured frame is encoded.
pub const UNLIMITED_FPS: u32 = 0;

/// The whole nanoseconds of a duration, as `Duration::as_nanos` gives them.
pub uninterp spec fn duration_nanos(d: Duration) -> nat;

/// `Duration::from_nanos`: the duration of that many nanoseconds.
pub assume_specification[ std::time::Duration::from_nanos ](nanos: u64) -> (d: Duration)
    ensures
        duration_nanos(d) == nanos as nat,
;

/// What the user chose to stream.
#[derive(Debug, Clone)]
pub struct StreamQuality {
    /// Target output height in pixels. The width follows from the source's
    /// aspect ratio.
    pub resolution_height: u32,
    /// Ceiling on the frames per second, or [`UNLIMITED_FPS`].
    pub fps: u32,
    /// Whether to capture and send system audio as well.
    pub audio: bool,
    /// Which playback device to capture system audio from; `None` for the
    /// system's current default.
    pub audio_device_id: Option<String>,
    /// Whether the capture and encode threads run at a raised priority. Off
    /// unless the user asks for it: it takes time from other programs.
    pub boost_performance: bool,
}

/// `v` rounded up to an even number.
pub open spec fn even_up(v: int) -> int {
    v + v % 2
}

/// The height a source is scaled to before rounding: the ceiling or the
/// source's own height, whichever is smaller, and at least 2.
pub open spec fn fitted_height(ceiling: int, source_height: int) -> int {
    let h = if ceiling < source_height {
        ceiling
    } else {
        source_height
    };
    if h < 2 {
        2
    } else {
        h
    }
}

/// The width that keeps the source's aspect ratio at the fitted height,
/// rounded down, and at least 2. A source lower than the least height keeps
/// its width.
pub open spec fn fitted_width(ceiling: int, source_width: int, source_height: int) -> int
    recommends
        source_height > 0,
{
    let fitted = fitted_height(ceiling, source_height);
    let h = if fitted < source_height {
        fitted
    } else {
        source_height
    };
    let w = (source_width * h) / source_height;
    if w < 2 {
        2
    } else {
        w
    }
}

/// The dimensions a source is encoded at.
pub open spec fn scaled_dimensions(ceiling: int, source_width: int, source_height: int) -> (
    int,
    int,
) {
    if source_width == 0 || source_height == 0 {
        (source_width, source_height)
    } else {
        (
            even_up(fitted_width(ceiling, source_width, source_height)),
            even_up(fitted_height(ceiling, source_height)),
        )
    }
}

/// The bitrate, in bits per second, for a resolution.
pub open spec fn bitrate_for(resolution_height: u32) -> usize {
    if resolution_height <= 144 {
        300_000
    } else if resolution_height <= 240 {
        700_000
    } else if resolution_height <= 360 {
        1_200_000
    } else if resolution_height <= 480 {
        2_500_000
    } else if resolution_height <= 720 {
        6_000_000
    } else if resolution_height <= 1080 {
        12_000_000
    } else if resolution_height <= 1440 {
        24_000_000
    } else {
        50_000_000
    }
}

/// One second divided by `fps`, in nanoseconds: the nearest whole number. An
/// exact half goes up, except at the three rates whose reciprocal, as a
/// double, does not exceed the half.
pub open spec fn interval_nanos(fps: u32) -> nat {
    if fps == UNLIMITED_FPS {
        0
    } else {
        let nearest = ((2_000_000_000 + fps as nat) / (2 * fps as nat)) as nat;
        if fps == 1024 || fps == 16_000_000 || fps == 80_000_000 {
            (nearest - 1) as nat
        } else {
            nearest
        }
    }
}

impl StreamQuality {
    /// The width and the height before rounding to even.
    fn fit(&self, source_width: u32, source_height: u32) -> (r: (u32, u32))
        requires
            source_width > 0,
            source_height > 0,
        ensures
            r.0 == fitted_width(
                self.resolution_height as int,
                source_width as int,
                source_height as int,
            ),
            r.1 == fitted_height(self.resolution_height as int, source_height as int),
    {
        let lower: u32 = if self.resolution_height < source_height {
            self.resolution_height
        } else {
            source_height
        };
        let target_height: u32 = if lower < 2 {
            2
        } else {
            lower
        };
        let h: u32 = if target_height < source_height {
            target_height
        } else {
            source_height
        };
        assert(source_width as u64 * h as u64 <= 0xffff_ffff * 0xffff_ffff) by (nonlinear_arith)
            requires
                source_width <= 0xffff_ffff,
                h <= 0xffff_ffff,
        ;
        let exact: u64 = (source_width as u64 * h as u64) / source_height as u64;
        proof {
            lemma_not_wider(source_width as int, h as int, source_height as int);
        }
        let target_width: u32 = if exact < 2 {
            2
        } else {
            exact as u32
        };
        (target_width, target_height)
    }

    /// Whether the scaled dimensions of a source can be counted in 32 bits.
    /// All but a source of the largest odd width or height there is can.
    pub fn can_scale(&self, source_width: u32, source_height: u32) -> (r: bool)
        ensures
            r == ({
                let (w, h) = scaled_dimensions(
                    self.resolution_height as int,
                    source_width as int,
                    source_height as int,
                );
                w <= u32::MAX && h <= u32::MAX
            }),
    {
        if source_width == 0 || source_height == 0 {
            return true;
        }
        let (width, height) = self.fit(source_width, source_height);
        width < u32::MAX && height < u32::MAX
    }

    /// Scales the source's dimensions down to fit the resolution ceiling,
    /// keeping the aspect ratio and never scaling up. Both come out even.
    pub fn target_dimensions(&self, source_width: u32, source_height: u32) -> (r: (u32, u32))
        requires
            ({
                let (w, h) = scaled_dimensions(
                    self.resolution_height as int,
                    source_width as int,
                    source_height as int,
                );
                w <= u32::MAX && h <= u32::MAX
            }),
        ensures
            (r.0 as int, r.1 as int) == scaled_dimensions(
                self.resolution_height as int,
                source_width as int,
                source_height as int,
            ),
    {
        if source_width == 0 || source_height == 0 {
            return (source_width, source_height);
        }
        let (width, height) = self.fit(source_width, source_height);
        (width + width % 2, height + height % 2)
    }

    /// The least time between two frames handed to the encoder, in
    /// nanoseconds.
    pub fn frame_interval_nanos(&self) -> (nanos: u64)
        ensures
            nanos == interval_nanos(self.fps),
            nanos <= 1_000_000_000,
    {
        if self.fps == UNLIMITED_FPS {
            return 0;
        }
        let fps: u64 = self.fps as u64;
        let nearest: u64 = (2_000_000_000 + fps) / (2 * fps);
        proof {
            lemma_interval_bounds(self.fps);
        }
        if fps == 1024 || fps == 16_000_000 || fps == 80_000_000 {
            nearest - 1
        } else {
            nearest
        }
    }

    /// The least time between two frames handed to the encoder. Frames that
    /// arrive sooner are dropped; with [`UNLIMITED_FPS`] none is.
    pub fn frame_interval(&self) -> (interval: Duration)
        ensures
            duration_nanos(interval) == interval_nanos(self.fps),
    {
        Duration::from_nanos(self.frame_interval_nanos())
    }

    /// A frame rate for the encoder's own timing: the ceiling, or a fixed
    /// rate where there is none.
    pub fn nominal_fps(&self) -> (fps: u32)
        ensures
            fps == (if self.fps == UNLIMITED_FPS {
                120
            } else {
                self.fps
            }),
            fps > 0,
    {
        if self.fps == UNLIMITED_FPS {
            120
        } else {
            self.fps
        }
    }

    /// A bitrate for the chosen resolution, in hand-picked steps.
    pub fn bitrate_bps(&self) -> (bps: usize)
        ensures
            bps == bitrate_for(self.resolution_height),
    {
        let height = self.resolution_height;
        if height <= 144 {
            300_000
        } else if height <= 240 {
            700_000
        } else if height <= 360 {
            1_200_000
        } else if height <= 480 {
            2_500_000
        } else if height <= 720 {
            6_000_000
        } else if height <= 1080 {
            12_000_000
        } else if height <= 1440 {
            24_000_000
        } else {
            50_000_000
        }
    }
}

proof fn lemma_not_wider(width: int, h: int, height: int)
    requires
        0 <= width,
        0 <= h <= height,
        height > 0,
    ensures
        0 <= (width * h) / height <= width,
{
    let exact = (width * h) / height;
    assert(0 <= exact <= width) by (nonlinear_arith)
        requires
            0 <= width,
            0 <= h <= height,
            height > 0,
            exact == (width * h) / height,
    ;
}

proof fn lemma_interval_bounds(fps: u32)
    requires
        fps > 0,
    ensures
        (2_000_000_000 + fps as nat) / (2 * fps as nat) <= 1_000_000_000,
        2 * fps as int * ((2_000_000_000 + fps as nat) / (2 * fps as nat)) as int
            <= 2_000_000_000 + fps,
        2_000_000_000 + fps < 2 * fps as int * (((2_000_000_000 + fps as nat) / (2 * fps as nat))
            as int + 1),
{
    let a = 2_000_000_000 + fps as int;
    let b = 2 * fps as int;
    let q = a / b;
    assert(b * q <= a && a < b * (q + 1)) by (nonlinear_arith)
        requires
            b > 0,
            q == a / b,
    ;
    assert(q <= 1_000_000_000) by (nonlinear_arith)
        requires
            fps >= 1,
            b == 2 * fps,
            b * q <= a,
            a == 2_000_000_000 + fps,
    ;
}

/// At these rates the nanoseconds of a second divide into an exact half.
proof fn lemma_exact_half(fps: u32)
    requires
        fps == 1024 || fps == 16_000_000 || fps == 80_000_000,
    ensures
        2 * fps * (((2_000_000_000 + fps as nat) / (2 * fps as nat)) as int) == 2_000_000_000 + fps,
{
    lemma_interval_bounds(fps);
    let q = ((2_000_000_000 + fps as nat) / (2 * fps as nat)) as int;
    if fps == 1024 {
        assert(2 * fps * q == 2_000_000_000 + fps) by (nonlinear_arith)
            requires
                fps == 1024,
                2 * fps * q <= 2_000_000_000 + fps,
                2_000_000_000 + fps < 2 * fps * (q + 1),
        ;
    } else if fps == 16_000_000 {
        assert(2 * fps * q == 2_000_000_000 + fps) by (nonlinear_arith)
            requires
                fps == 16_000_000,
                2 * fps * q <= 2_000_000_000 + fps,
                2_000_000_000 + fps < 2 * fps * (q + 1),
        ;
    } else {
        assert(2 * fps * q == 2_000_000_000 + fps) by (nonlinear_arith)
            requires
                fps == 80_000_000,
                2 * fps * q <= 2_000_000_000 + fps,
                2_000_000_000 + fps < 2 * fps * (q + 1),
        ;
    }
}

/// Both encoded dimensions are even, as chroma subsampling needs.
pub proof fn law_dimensions_are_even(ceiling: u32, source_width: u32, source_height: u32)
    requires
        source_width > 0,
        source_height > 0,
    ensures
        scaled_dimensions(ceiling as int, source_width as int, source_height as int).0 % 2 == 0,
        scaled_dimensions(ceiling as int, source_width as int, source_height as int).1 % 2 == 0,
{
}

/// Scaling never enlarges a source: rounding to even, and the minimum of two
/// pixels, are all that can exceed it. The height fits the ceiling likewise.
pub proof fn law_scaling_never_enlarges(ceiling: u32, source_width: u32, source_height: u32)
    ensures
        ({
            let (w, h) = scaled_dimensions(
                ceiling as int,
                source_width as int,
                source_height as int,
            );
            &&& source_width != 1 ==> w <= even_up(source_width as int)
            &&& source_height != 1 ==> h <= even_up(source_height as int)
            &&& source_width == 1 ==> w <= 2
            &&& source_height == 1 ==> h <= 2
            &&& source_width > 0 && ceiling >= 2 ==> h <= even_up(ceiling as int)
        }),
{
    if source_width > 0 && source_height > 0 {
        let fitted = fitted_height(ceiling as int, source_height as int);
        let h = if fitted < source_height {
            fitted
        } else {
            source_height as int
        };
        lemma_not_wider(source_width as int, h, source_height as int);
    }
}

/// A source under the ceiling, with even sides, is encoded as it is.
pub proof fn law_a_source_under_the_ceiling_is_kept(
    ceiling: u32,
    source_width: u32,
    source_height: u32,
)
    requires
        2 <= source_height <= ceiling,
        2 <= source_width,
        source_width % 2 == 0,
        source_height % 2 == 0,
    ensures
        scaled_dimensions(ceiling as int, source_width as int, source_height as int) == (
            source_width as int,
            source_height as int,
        ),
{
    assert((source_width * source_height) / source_height as int == source_width)
        by (nonlinear_arith)
        requires
            source_height > 0,
    ;
}

/// The aspect ratio is kept up to rounding: at the fitted height `h`, the
/// encoded width is within one pixel below and less than two above
/// `source_width * h / source_height`.
pub proof fn law_the_aspect_ratio_is_kept(ceiling: u32, source_width: u32, source_height: u32)
    requires
        source_width > 0,
        source_height >= 2,
        source_width * fitted_height(ceiling as int, source_height as int) >= 2 * source_height,
    ensures
        ({
            let w = scaled_dimensions(
                ceiling as int,
                source_width as int,
                source_height as int,
            ).0;
            let h = fitted_height(ceiling as int, source_height as int);
            &&& (w + 1) * source_height > source_width * h
            &&& (w - 1) * source_height <= source_width * h
        }),
{
    let h = fitted_height(ceiling as int, source_height as int);
    let a = source_width * h;
    let b = source_height as int;
    let exact = a / b;
    assert(b * exact <= a && a < b * (exact + 1)) by (nonlinear_arith)
        requires
            b > 0,
            exact == a / b,
    ;
    assert(exact >= 2 && exact <= source_width) by (nonlinear_arith)
        requires
            b > 0,
            a >= 2 * b,
            a == source_width * h,
            h <= b,
            0 <= source_width,
            b * exact <= a,
            a < b * (exact + 1),
    ;
    let w = even_up(exact);
    assert((w + 1) * b > a && (w - 1) * b <= a) by (nonlinear_arith)
        requires
            b > 0,
            exact <= w <= exact + 1,
            b * exact <= a,
            a < b * (exact + 1),
    ;
}

/// A source at least as high as the ceiling is encoded at the ceiling, and one
/// under it at its own height, the next even number where that is odd.
pub proof fn law_the_height_is_the_ceiling_or_the_sources_own(
    ceiling: u32,
    source_width: u32,
    source_height: u32,
)
    requires
        source_width > 0,
        source_height > 0,
    ensures
        ({
            let h = scaled_dimensions(
                ceiling as int,
                source_width as int,
                source_height as int,
            ).1;
            &&& h % 2 == 0
            &&& 2 <= ceiling <= source_height ==> ceiling <= h <= ceiling + 1
            &&& 2 <= source_height <= ceiling ==> source_height <= h <= source_height + 1
            &&& ceiling < 2 || source_height < 2 ==> h == 2
        }),
{
}

/// The width of a source that is scaled down: of the even numbers, the one
/// within a pixel of the width that keeps the aspect ratio at the ceiling, the
/// higher of two, and at least 2.
pub proof fn law_a_higher_source_keeps_its_shape(
    ceiling: u32,
    source_width: u32,
    source_height: u32,
)
    requires
        source_width > 0,
        2 <= ceiling <= source_height,
    ensures
        ({
            let w = scaled_dimensions(
                ceiling as int,
                source_width as int,
                source_height as int,
            ).0;
            &&& w % 2 == 0
            &&& w >= 2
            &&& (w + 1) * source_height > source_width * ceiling
            &&& w > 2 ==> (w - 1) * source_height <= source_width * ceiling
        }),
{
    lemma_width_at(source_width as int, ceiling as int, source_height as int);
}

proof fn lemma_width_at(width: int, h: int, height: int)
    requires
        width > 0,
        0 < h <= height,
    ensures
        ({
            let exact = (width * h) / height;
            let w = even_up(if exact < 2 {
                2
            } else {
                exact
            });
            &&& (w + 1) * height > width * h
            &&& w > 2 ==> (w - 1) * height <= width * h
        }),
{
    let exact = (width * h) / height;
    assert(height * exact <= width * h && width * h < height * (exact + 1)) by (nonlinear_arith)
        requires
            height > 0,
            exact == (width * h) / height,
    ;
    let w = even_up(if exact < 2 {
        2
    } else {
        exact
    });
    assert((w + 1) * height > width * h) by (nonlinear_arith)
        requires
            height > 0,
            w >= exact,
            width * h < height * (exact + 1),
    ;
    if w > 2 {
        assert((w - 1) * height <= width * h) by (nonlinear_arith)
            requires
                height > 0,
                w - 1 <= exact,
                height * exact <= width * h,
        ;
    }
}

/// A source that is not scaled down keeps its width, the next even number
/// where that is odd.
pub proof fn law_a_lower_source_keeps_its_width(
    ceiling: u32,
    source_width: u32,
    source_height: u32,
)
    requires
        source_width > 0,
        0 < source_height <= ceiling || source_height == 1,
    ensures
        ({
            let w = scaled_dimensions(
                ceiling as int,
                source_width as int,
                source_height as int,
            ).0;
            w % 2 == 0 && source_width <= w <= source_width + 1
        }),
{
    assert((source_width * source_height) / source_height as int == source_width)
        by (nonlinear_arith)
        requires
            source_height > 0,
    ;
    assert((source_width * 1) / 1 == source_width);
}

/// A ceiling under two pixels counts as one of two.
pub proof fn law_the_least_ceiling_is_two(ceiling: u32, source_width: u32, source_height: u32)
    requires
        ceiling < 2,
    ensures
        scaled_dimensions(ceiling as int, source_width as int, source_height as int)
            == scaled_dimensions(2, source_width as int, source_height as int),
{
}

/// A source without pixels stays as it is.
pub proof fn law_an_empty_source_is_kept(ceiling: u32, side: u32)
    ensures
        scaled_dimensions(ceiling as int, side as int, 0) == (side as int, 0int),
        scaled_dimensions(ceiling as int, 0, side as int) == (0int, side as int),
{
}

/// Every source can be scaled but one of the largest odd width or height that
/// there is.
pub proof fn law_nearly_every_source_can_be_scaled(
    ceiling: u32,
    source_width: u32,
    source_height: u32,
)
    requires
        source_width < u32::MAX,
        source_height < u32::MAX || ceiling < u32::MAX,
    ensures
        scaled_dimensions(ceiling as int, source_width as int, source_height as int).0 <= u32::MAX,
        scaled_dimensions(ceiling as int, source_width as int, source_height as int).1 <= u32::MAX,
{
    if source_width > 0 && source_height > 0 {
        let fitted = fitted_height(ceiling as int, source_height as int);
        let h = if fitted < source_height {
            fitted
        } else {
            source_height as int
        };
        lemma_not_wider(source_width as int, h, source_height as int);
    }
}

/// Scaling what was scaled changes nothing. The one exception is an odd
/// ceiling that the source reaches, where the height that was rounded up is
/// over the ceiling, and the picture is wide enough for that to take pixels
/// off its width.
pub proof fn law_scaling_twice_is_scaling_once(
    ceiling: u32,
    source_width: u32,
    source_height: u32,
)
    requires
        ({
            ||| ceiling % 2 == 0
            ||| ceiling == 1
            ||| source_width == 0
            ||| source_height < ceiling
            ||| scaled_dimensions(
                ceiling as int,
                source_width as int,
                source_height as int,
            ).0 <= ceiling + 1
        }),
    ensures
        ({
            let (w, h) = scaled_dimensions(
                ceiling as int,
                source_width as int,
                source_height as int,
            );
            scaled_dimensions(ceiling as int, w, h) == (w, h)
        }),
{
    let c = ceiling as int;
    let (w, h) = scaled_dimensions(c, source_width as int, source_height as int);
    if source_width > 0 && source_height > 0 {
        if h <= c || c < 2 {
            assert(fitted_height(c, h) == h);
            assert((w * h) / h == w) by (nonlinear_arith)
                requires
                    h > 0,
            ;
        } else {
            assert(h == c + 1);
            assert((w * c) / h == w - 1) by (nonlinear_arith)
                requires
                    h == c + 1,
                    c >= 2,
                    2 <= w <= c + 1,
            ;
        }
    }
}

/// Each step of resolution has its bitrate, up to and with its own height.
pub proof fn law_each_resolution_has_its_bitrate(resolution_height: u32)
    ensures
        resolution_height <= 144 ==> bitrate_for(resolution_height) == 300_000,
        144 < resolution_height <= 240 ==> bitrate_for(resolution_height) == 700_000,
        240 < resolution_height <= 360 ==> bitrate_for(resolution_height) == 1_200_000,
        360 < resolution_height <= 480 ==> bitrate_for(resolution_height) == 2_500_000,
        480 < resolution_height <= 720 ==> bitrate_for(resolution_height) == 6_000_000,
        720 < resolution_height <= 1080 ==> bitrate_for(resolution_height) == 12_000_000,
        1080 < resolution_height <= 1440 ==> bitrate_for(resolution_height) == 24_000_000,
        1440 < resolution_height ==> bitrate_for(resolution_height) == 50_000_000,
{
}

/// A higher resolution never gets a lower bitrate.
pub proof fn law_bitrate_grows_with_resolution(lower: u32, higher: u32)
    requires
        lower <= higher,
    ensures
        bitrate_for(lower) <= bitrate_for(higher),
{
}

/// Without a frame rate ceiling no frame is ever too early.
pub proof fn law_unlimited_means_no_wait()
    ensures
        interval_nanos(UNLIMITED_FPS) == 0,
{
}

/// `fps` intervals make one second, up to half a nanosecond each.
pub proof fn law_intervals_make_a_second(fps: u32)
    requires
        fps != UNLIMITED_FPS,
    ensures
        2 * fps * interval_nanos(fps) <= 2_000_000_000 + fps,
        2_000_000_000 <= 2 * fps * interval_nanos(fps) + fps,
{
    lemma_interval_bounds(fps);
    let q = ((2_000_000_000 + fps as nat) / (2 * fps as nat)) as int;
    assert(2 * fps * (q + 1) == 2 * fps * q + 2 * fps) by (nonlinear_arith);
    if fps == 1024 || fps == 16_000_000 || fps == 80_000_000 {
        lemma_exact_half(fps);
        assert(2 * fps * (q - 1) == 2 * fps * q - 2 * fps) by (nonlinear_arith);
    }
}

/// Where a second divides into an exact half of a nanosecond, the half goes up
/// at every rate but three, where it goes down.
pub proof fn law_an_exact_half_goes_up_but_at_three_rates(fps: u32)
    requires
        fps != UNLIMITED_FPS,
    ensures
        2 * fps * interval_nanos(fps) == 2_000_000_000 - fps <==> fps == 1024 || fps == 16_000_000
            || fps == 80_000_000,
{
    lemma_interval_bounds(fps);
    let q = ((2_000_000_000 + fps as nat) / (2 * fps as nat)) as int;
    assert(2 * fps * (q + 1) == 2 * fps * q + 2 * fps) by (nonlinear_arith);
    if fps == 1024 || fps == 16_000_000 || fps == 80_000_000 {
        lemma_exact_half(fps);
        assert(2 * fps * (q - 1) == 2 * fps * q - 2 * fps) by (nonlinear_arith);
    }
}

/// A higher frame rate never waits longer between two frames.
pub proof fn law_faster_means_no_longer_wait(slower: u32, faster: u32)
    requires
        UNLIMITED_FPS < slower < faster,
    ensures
        interval_nanos(faster) <= interval_nanos(slower),
{
    lemma_interval_bounds(slower);
    lemma_interval_bounds(faster);
    let s = ((2_000_000_000 + slower as nat) / (2 * slower as nat)) as int;
    let f = ((2_000_000_000 + faster as nat) / (2 * faster as nat)) as int;
    assert(f <= s) by (nonlinear_arith)
        requires
            0 < slower < faster,
            2_000_000_000 + slower < 2 * slower * (s + 1),
            2 * faster * f <= 2_000_000_000 + faster,
    ;
    if slower == 1024 || slower == 16_000_000 || slower == 80_000_000 {
        lemma_exact_half(slower);
        assert(f <= s - 1) by (nonlinear_arith)
            requires
                0 < slower < faster,
                2 * slower * s == 2_000_000_000 + slower,
                2 * faster * f <= 2_000_000_000 + faster,
        ;
    }
}

} // verus!
