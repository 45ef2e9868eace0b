//! Software H.264 encoding, by OpenH264.

use openh264::encoder::{BitRate, Encoder, EncoderConfig, FrameRate, UsageType};
use openh264::formats::{RgbaSliceU8, YUVBuffer};
use openh264::OpenH264API;
use vstd::prelude::*;

verus! {

/// An encoder of `openh264`.
#[verifier::external_type_specification]
#[verifier::external_body]
pub struct ExEncoder(openh264::encoder::Encoder);

/// Any failure that `openh264` reports.
#[verifier::external_type_specification]
#[verifier::external_body]
pub struct ExOpenH264Error(openh264::Error);

/// What an encoder is tuned for.
#[derive(Debug, Clone, Copy, PartialEq, Eq, Structural)]
pub enum ContentKind {
    /// Camera pictures in real time.
    Camera,
    /// Screen content in real time.
    Screen,
}

/// The bitrate, the frame rate ceiling and the kind of content that an encoder
/// was made for.
pub uninterp spec fn encoder_settings(encoder: Encoder) -> (u32, u16, ContentKind);

/// A tightly packed RGBA picture.
pub struct Picture {
    pub rgba: Seq<u8>,
    pub width: usize,
    pub height: usize,
}

/// The pictures that an encoder has taken in since it was made, in order. What
/// it makes of the next one depends on them.
pub uninterp spec fn encoder_taken(encoder: Encoder) -> Seq<Picture>;

/// What `Encoder::encode` makes of a picture, by an encoder with these settings
/// that has taken in these pictures before: the H.264 bytes, or `None` where it
/// reports an error.
pub uninterp spec fn encoded_picture(
    settings: (u32, u16, ContentKind),
    taken: Seq<Picture>,
    picture: Picture,
) -> Option<Seq<u8>>;

/// Why software encoding failed.
pub enum EncodeError {
    /// The encoder could not be made.
    Start(openh264::Error),
    /// A frame could not be encoded.
    Frame(openh264::Error),
}

/// Whether a picture of these dimensions, as the encoder counts them, is
/// larger than it can encode, lying or standing.
pub open spec fn is_oversized(width: int, height: int) -> bool {
    &&& width <= i32::MAX
    &&& height <= i32::MAX
    &&& (width > 3840 || height > 3840 || (width > 2160 && height > 2160))
}

/// Whether `rgba` is a tightly packed picture of these dimensions, both even.
pub open spec fn is_picture(rgba: Seq<u8>, width: int, height: int) -> bool {
    &&& rgba.len() == width * height * 4
    &&& width % 2 == 0
    &&& height % 2 == 0
}

/// `Encoder::with_api_config` with a configuration that sets the bitrate, the
/// frame rate ceiling and the kind of content, and leaves the rest at its
/// default. Making an encoder can fail for reasons of the library's own.
#[verifier::external_body]
fn open_encoder(bitrate_bps: u32, max_fps: u16, content: ContentKind) -> (r: Result<
    Encoder,
    openh264::Error,
>)
    ensures
        (match r {
            Ok(encoder) => encoder_settings(encoder) == (bitrate_bps, max_fps, content)
                && encoder_taken(encoder) == Seq::<Picture>::empty(),
            Err(_) => true,
        }),
{
    let usage = match content {
        ContentKind::Camera => UsageType::CameraVideoRealTime,
        ContentKind::Screen => UsageType::ScreenContentRealTime,
    };
    let config = EncoderConfig::new()
        .usage_type(usage)
        .bitrate(BitRate::from_bps(bitrate_bps))
        .max_frame_rate(FrameRate::from_hz(max_fps.into()));
    Encoder::with_api_config(OpenH264API::from_source(), config)
}

/// `Encoder::encode` of an RGBA picture, converted by `YUVBuffer`. With the one
/// slice that an encoder without a slice limit uses, one thread does the work
/// and every picture has the same timestamp, so what comes out is a function
/// of the settings, of the pictures before and of this one. A picture that was
/// encoded counts as taken in; of one that was not, that is left open, unless
/// it is oversized: that is an error before anything else happens. The
/// settings stay as they are. `RgbaSliceU8::new` panics on anything that is no
/// picture.
#[verifier::external_body]
fn encode_picture(encoder: &mut Encoder, rgba: &[u8], width: usize, height: usize) -> (r: Result<
    Vec<u8>,
    openh264::Error,
>)
    requires
        is_picture(rgba@, width as int, height as int),
    ensures
        encoder_settings(*final(encoder)) == encoder_settings(*old(encoder)),
        (match r {
            Ok(bytes) => encoded_picture(
                encoder_settings(*old(encoder)),
                encoder_taken(*old(encoder)),
                (Picture { rgba: rgba@, width, height }),
            ) == Some(bytes@) && encoder_taken(*final(encoder)) == encoder_taken(
                *old(encoder),
            ).push((Picture { rgba: rgba@, width, height })),
            Err(_) => encoded_picture(
                encoder_settings(*old(encoder)),
                encoder_taken(*old(encoder)),
                (Picture { rgba: rgba@, width, height }),
            ) is None && (encoder_taken(*final(encoder)) == encoder_taken(*old(encoder))
                || encoder_taken(*final(encoder)) == encoder_taken(*old(encoder)).push(
                (Picture { rgba: rgba@, width, height }),
            )),
        }),
        is_oversized(width as int, height as int) ==> r is Err && encoder_taken(*final(encoder))
            == encoder_taken(*old(encoder)),
{
    let yuv = YUVBuffer::from_rgb_source(RgbaSliceU8::new(rgba, (width, height)));
    encoder.encode(&yuv).map(|stream| stream.to_vec())
}

/// A software H.264 encoder for screen content.
pub struct H264Encoder {
    encoder: Encoder,
}

impl H264Encoder {
    /// The bitrate, the frame rate ceiling and the kind of content of this
    /// encoder.
    pub closed spec fn settings(&self) -> (u32, u16, ContentKind) {
        encoder_settings(self.encoder)
    }

    /// The pictures that this encoder has taken in, in order.
    pub closed spec fn taken(&self) -> Seq<Picture> {
        encoder_taken(self.encoder)
    }

    /// What OpenH264 makes of a picture, as this encoder stands now: `None`
    /// where it fails.
    pub open spec fn encodes_to(&self, picture: Picture) -> Option<Seq<u8>> {
        encoded_picture(self.settings(), self.taken(), picture)
    }

    /// Makes an encoder for screen content.
    pub fn new(bitrate_bps: u32, max_fps: u16) -> (r: Result<H264Encoder, EncodeError>)
        ensures
            match r {
                Ok(encoder) => encoder.settings() == (bitrate_bps, max_fps, ContentKind::Screen)
                    && encoder.taken() == Seq::<Picture>::empty(),
                Err(e) => e is Start,
            },
    {
        match open_encoder(bitrate_bps, max_fps, ContentKind::Screen) {
            Ok(encoder) => Ok(H264Encoder { encoder }),
            Err(e) => Err(EncodeError::Start(e)),
        }
    }

    /// Encodes one tightly packed RGBA picture into H.264 NAL units, each
    /// behind a start code. An oversized picture is refused and changes
    /// nothing.
    pub fn encode_rgba(&mut self, rgba: &[u8], width: usize, height: usize) -> (r: Result<
        Vec<u8>,
        EncodeError,
    >)
        requires
            is_picture(rgba@, width as int, height as int),
        ensures
            final(self).settings() == old(self).settings(),
            ({
                let picture = Picture { rgba: rgba@, width, height };
                match r {
                    Ok(bytes) => {
                        &&& old(self).encodes_to(picture) == Some(bytes@)
                        &&& final(self).taken() == old(self).taken().push(picture)
                    },
                    Err(e) => {
                        &&& old(self).encodes_to(picture) is None
                        &&& e is Frame
                        &&& final(self).taken() == old(self).taken() || final(self).taken()
                            == old(self).taken().push(picture)
                    },
                }
            }),
            is_oversized(width as int, height as int) ==> r is Err && final(self).taken() == old(
                self,
            ).taken(),
    {
        match encode_picture(&mut self.encoder, rgba, width, height) {
            Ok(bytes) => Ok(bytes),
            Err(e) => Err(EncodeError::Frame(e)),
        }
    }
}

/// Whether a buffer is a tightly packed picture of these dimensions, both
/// even: what [`H264Encoder::encode_rgba`] takes.
pub fn holds_picture(rgba: &[u8], width: usize, height: usize) -> (r: bool)
    ensures
        r == is_picture(rgba@, width as int, height as int),
{
    if width % 2 != 0 || height % 2 != 0 {
        return false;
    }
    let wide: u128 = width as u128;
    let high: u128 = height as u128;
    assert(wide * high <= 0xffff_ffff_ffff_ffff * 0xffff_ffff_ffff_ffff) by (nonlinear_arith)
        requires
            wide <= 0xffff_ffff_ffff_ffff,
            high <= 0xffff_ffff_ffff_ffff,
    ;
    let pixels: u128 = wide * high;
    rgba.len() % 4 == 0 && (rgba.len() / 4) as u128 == pixels
}

/// A buffer is a picture if and only if both sides are even and it holds four
/// bytes for each pixel, however large it is.
pub proof fn law_a_picture_has_four_bytes_a_pixel(rgba: Seq<u8>, width: nat, height: nat)
    ensures
        is_picture(rgba, width as int, height as int) <==> {
            &&& exists|columns: int| #[trigger] (2 * columns) == width
            &&& exists|rows: int| #[trigger] (2 * rows) == height
            &&& rgba.len() == 4 * (width * height)
        },
{
    if width % 2 == 0 {
        assert(2 * (width as int / 2) == width);
    }
    if height % 2 == 0 {
        assert(2 * (height as int / 2) == height);
    }
}

} // verus!
