//! System audio: captured bytes cut into chunks of one Opus frame, received
//! packets taken apart, and decoded samples laid out for the listener.

use bytes::Bytes;
use rtc::rtp::codec::opus::OpusPacket;
use rtc::rtp::packetizer::Depacketizer;
use rtc::shared::error::Error;
use std::collections::VecDeque;
use vstd::prelude::*;
use vstd::string::*;

verus! {

/// Samples per second on each channel.
pub const SAMPLE_RATE: u32 = 48_000;

/// Channels of a chunk, interleaved.
pub const CHANNELS: usize = 2;

/// Samples of a chunk on each channel: 20 ms, one Opus frame.
pub const FRAME_SAMPLES_PER_CHANNEL: usize = 960;

/// Samples of a chunk.
pub const FRAME_SAMPLES_TOTAL: usize = 1920;

/// Bytes of a chunk.
pub const CHUNK_BYTES: usize = 3840;

/// Bytes of room for one encoded packet. The encoder never needs more.
pub const PACKET_ROOM: usize = 4000;

/// Samples of room for one decoded packet: six frames, so that no packet is
/// cut.
pub const DECODE_ROOM: usize = 11_520;

/// One chunk of interleaved samples: one Opus frame.
pub struct CapturedAudio {
    pub samples: Vec<i16>,
}

/// The sample whose low byte is `lo` and whose high byte is `hi`.
pub open spec fn sample_of(lo: u8, hi: u8) -> int {
    let n = lo as int + hi as int * 256;
    if n < 0x8000 {
        n
    } else {
        n - 0x1_0000
    }
}

/// The low byte of a sample.
pub open spec fn low_byte(sample: i16) -> u8 {
    (sample as int % 256) as u8
}

/// The high byte of a sample.
pub open spec fn high_byte(sample: i16) -> u8 {
    ((sample as int / 256) % 256) as u8
}

/// The samples that little-endian bytes stand for.
pub open spec fn samples_of(bytes: Seq<u8>) -> Seq<i16> {
    Seq::new(
        (bytes.len() / 2) as nat,
        |i: int| sample_of(bytes[2 * i], bytes[2 * i + 1]) as i16,
    )
}

/// The little-endian bytes of samples.
pub open spec fn bytes_of(samples: Seq<i16>) -> Seq<u8> {
    Seq::new(
        samples.len() * 2,
        |i: int|
            if i % 2 == 0 {
                low_byte(samples[i / 2])
            } else {
                high_byte(samples[i / 2])
            },
    )
}

/// The sample that two bytes stand for, the low one first.
pub fn sample_from_le_bytes(lo: u8, hi: u8) -> (sample: i16)
    ensures
        sample == sample_of(lo, hi),
{
    let n: i32 = lo as i32 + hi as i32 * 256;
    if n < 0x8000 {
        n as i16
    } else {
        (n - 0x1_0000) as i16
    }
}

/// The two bytes of a sample, the low one first.
pub fn sample_to_le_bytes(sample: i16) -> (bytes: (u8, u8))
    ensures
        bytes == (low_byte(sample), high_byte(sample)),
{
    let n: i32 = if sample >= 0 {
        sample as i32
    } else {
        sample as i32 + 0x1_0000
    };
    assert(n % 256 == sample as int % 256 && n / 256 == (sample as int / 256) % 256);
    ((n % 256) as u8, (n / 256) as u8)
}

/// The sample in the two bytes is the sample they were made of.
pub proof fn law_samples_survive_their_bytes(sample: i16)
    ensures
        sample_of(low_byte(sample), high_byte(sample)) == sample,
{
}

/// The bytes of the sample that two bytes stand for are those two bytes.
pub proof fn law_bytes_survive_their_sample(lo: u8, hi: u8)
    ensures
        low_byte(sample_of(lo, hi) as i16) == lo,
        high_byte(sample_of(lo, hi) as i16) == hi,
{
}

/// Audio that is written out as bytes and read back is the same audio.
pub proof fn law_audio_survives_its_bytes(samples: Seq<i16>)
    ensures
        samples_of(bytes_of(samples)) == samples,
{
    let bytes = bytes_of(samples);
    assert forall|i: int| 0 <= i < samples.len() implies samples_of(bytes)[i] == samples[i] by {
        assert((2 * i) / 2 == i && (2 * i + 1) / 2 == i);
        law_samples_survive_their_bytes(samples[i]);
    }
    assert(samples_of(bytes) =~= samples);
}

/// Samples are little-endian: the first byte counts ones, the second counts
/// 256s, and what does not fit the positive half stands for the negative.
pub proof fn law_samples_are_little_endian(lo: u8, hi: u8)
    ensures
        -0x8000 <= sample_of(lo, hi) < 0x8000,
        (lo + 256 * hi - sample_of(lo, hi)) % 0x1_0000 == 0,
{
}

/// Audio is laid out sample after sample, two bytes each, the low one first.
pub proof fn law_audio_is_laid_out_sample_by_sample(samples: Seq<i16>, i: int)
    requires
        0 <= i < samples.len(),
    ensures
        bytes_of(samples).len() == 2 * samples.len(),
        (bytes_of(samples)[2 * i] + 256 * bytes_of(samples)[2 * i + 1] - samples[i]) % 0x1_0000
            == 0,
{
    assert((2 * i) / 2 == i && (2 * i + 1) / 2 == i);
    assert((2 * i) % 2 == 0 && (2 * i + 1) % 2 == 1);
}

/// Captured bytes are read two by two, the low one first; an odd one at the
/// end is not read.
pub proof fn law_audio_is_read_two_bytes_at_a_time(bytes: Seq<u8>, i: int)
    requires
        0 <= i,
        2 * i + 1 < bytes.len(),
    ensures
        samples_of(bytes).len() == bytes.len() / 2,
        (bytes[2 * i] + 256 * bytes[2 * i + 1] - samples_of(bytes)[i]) % 0x1_0000 == 0,
{
}

/// A chunk is 20 milliseconds of stereo at 48 kHz, two bytes to a sample.
pub proof fn law_a_chunk_is_twenty_milliseconds(milliseconds: int)
    ensures
        SAMPLE_RATE == 48_000,
        CHANNELS == 2,
        FRAME_SAMPLES_PER_CHANNEL * 1000 == SAMPLE_RATE * milliseconds <==> milliseconds == 20,
        FRAME_SAMPLES_TOTAL == FRAME_SAMPLES_PER_CHANNEL * 2,
        CHUNK_BYTES == FRAME_SAMPLES_TOTAL * 2,
        DECODE_ROOM == 6 * FRAME_SAMPLES_TOTAL,
        PACKET_ROOM == 4000,
{
}

/// Takes one chunk off the front of the captured bytes, if there is one.
pub fn take_chunk(queue: &mut VecDeque<u8>) -> (chunk: Option<CapturedAudio>)
    ensures
        match chunk {
            Some(audio) => old(queue)@.len() >= CHUNK_BYTES && audio.samples@ == samples_of(
                old(queue)@.take(CHUNK_BYTES as int),
            ) && final(queue)@ == old(queue)@.skip(CHUNK_BYTES as int),
            None => old(queue)@.len() < CHUNK_BYTES && final(queue)@ == old(queue)@,
        },
{
    if queue.len() < CHUNK_BYTES {
        return None;
    }
    let ghost before = queue@;
    let mut samples: Vec<i16> = Vec::new();
    let mut taken: usize = 0;
    while taken < FRAME_SAMPLES_TOTAL
        invariant
            taken <= FRAME_SAMPLES_TOTAL,
            before.len() >= CHUNK_BYTES,
            queue@ == before.skip(2 * taken),
            samples@ == samples_of(before.take(2 * taken)),
        decreases FRAME_SAMPLES_TOTAL - taken,
    {
        let ghost held = samples@;
        let lo: u8 = match queue.pop_front() {
            Some(b) => b,
            None => 0,
        };
        assert(lo == before[2 * taken]);
        let hi: u8 = match queue.pop_front() {
            Some(b) => b,
            None => 0,
        };
        assert(hi == before[2 * taken + 1]);
        samples.push(sample_from_le_bytes(lo, hi));
        taken = taken + 1;
        assert(queue@ =~= before.skip(2 * taken));
        assert(samples@ =~= samples_of(before.take(2 * taken)));
    }
    Some(CapturedAudio { samples })
}

/// A chunk is exactly one Opus frame.
pub proof fn law_a_chunk_is_one_frame(bytes: Seq<u8>)
    requires
        bytes.len() >= CHUNK_BYTES,
    ensures
        samples_of(bytes.take(CHUNK_BYTES as int)).len() == FRAME_SAMPLES_PER_CHANNEL * CHANNELS,
{
}

/// The samples of the first `n` chunks that come off the captured bytes.
pub open spec fn first_chunks(bytes: Seq<u8>, n: nat) -> Seq<i16>
    decreases n,
{
    if n == 0 {
        Seq::empty()
    } else {
        samples_of(bytes.take(CHUNK_BYTES as int)) + first_chunks(
            bytes.skip(CHUNK_BYTES as int),
            (n - 1) as nat,
        )
    }
}

/// Cutting the captured bytes into chunks loses nothing and keeps the order:
/// the chunks one after the other are the samples of the bytes they came from.
pub proof fn law_chunks_are_the_captured_audio(bytes: Seq<u8>, n: nat)
    requires
        n * CHUNK_BYTES <= bytes.len(),
    ensures
        first_chunks(bytes, n) == samples_of(bytes.take(n * CHUNK_BYTES)),
    decreases n,
{
    if n == 0 {
        assert(samples_of(bytes.take(0)) =~= Seq::empty());
    } else {
        let rest = bytes.skip(CHUNK_BYTES as int);
        let m = (n - 1) as nat;
        law_chunks_are_the_captured_audio(rest, m);
        let head = bytes.take(CHUNK_BYTES as int);
        let tail = rest.take(m * CHUNK_BYTES);
        let whole = bytes.take(n * CHUNK_BYTES);
        assert(whole =~= head + tail);
        assert forall|i: int| 0 <= i < samples_of(whole).len() implies samples_of(whole)[i] == (
        samples_of(head) + samples_of(tail))[i] by {
            if i < FRAME_SAMPLES_TOTAL {
                assert(whole[2 * i] == head[2 * i] && whole[2 * i + 1] == head[2 * i + 1]);
            } else {
                let k = i - FRAME_SAMPLES_TOTAL;
                assert(whole[2 * i] == tail[2 * k] && whole[2 * i + 1] == tail[2 * k + 1]);
            }
        }
        assert(samples_of(whole) =~= samples_of(head) + samples_of(tail));
    }
}

/// Lays samples out as little-endian bytes, as the listener takes them.
pub fn pcm_bytes(pcm: &[i16]) -> (bytes: Vec<u8>)
    ensures
        bytes@ == bytes_of(pcm@),
{
    let mut bytes: Vec<u8> = Vec::new();
    let mut i: usize = 0;
    while i < pcm.len()
        invariant
            i <= pcm@.len(),
            bytes@ == bytes_of(pcm@.take(i as int)),
        decreases pcm@.len() - i,
    {
        let (lo, hi) = sample_to_le_bytes(pcm[i]);
        bytes.push(lo);
        bytes.push(hi);
        i = i + 1;
        assert(bytes@ =~= bytes_of(pcm@.take(i as int)));
    }
    assert(pcm@.take(i as int) =~= pcm@);
    bytes
}

/// `OpusPacket::depacketize`: the payload as it is, or an error where it is
/// empty.
#[verifier::external_body]
fn depacketize(payload: &[u8]) -> (r: Result<Vec<u8>, Error>)
    ensures
        (match r {
            Ok(frame) => payload@.len() > 0 && frame@ == payload@,
            Err(_) => payload@.len() == 0,
        }),
{
    OpusPacket.depacketize(&Bytes::copy_from_slice(payload)).map(|frame| frame.to_vec())
}

/// The Opus frame in the payload of one packet: `None` where it is empty. A
/// packet holds exactly one frame.
pub fn opus_frame(payload: &[u8]) -> (frame: Option<Vec<u8>>)
    ensures
        match frame {
            Some(bytes) => payload@.len() > 0 && bytes@ == payload@,
            None => payload@.len() == 0,
        },
{
    match depacketize(payload) {
        Ok(frame) => Some(frame),
        Err(_) => None,
    }
}

/// The packet that the encoder wrote: the first `len` bytes of its room.
pub fn encoded_packet(room: &[u8], len: usize) -> (packet: Vec<u8>)
    requires
        len <= room@.len(),
    ensures
        packet@ == room@.take(len as int),
{
    let mut packet: Vec<u8> = Vec::new();
    let mut i: usize = 0;
    while i < len
        invariant
            i <= len <= room@.len(),
            packet@ == room@.take(i as int),
        decreases len - i,
    {
        packet.push(room[i]);
        i = i + 1;
        assert(packet@ =~= room@.take(i as int));
    }
    packet
}

/// The samples of a decoded packet, given the room that the decoder wrote to
/// and how many samples it reported on each channel.
pub open spec fn decoded(room: Seq<i16>, samples_per_channel: int) -> Seq<i16> {
    if samples_per_channel * CHANNELS <= room.len() {
        room.take(samples_per_channel * CHANNELS)
    } else {
        room
    }
}

/// Cuts the room for a decoded packet down to the samples that came out.
pub fn decoded_pcm(room: Vec<i16>, samples_per_channel: usize) -> (pcm: Vec<i16>)
    requires
        samples_per_channel * CHANNELS <= usize::MAX,
    ensures
        pcm@ == decoded(room@, samples_per_channel as int),
{
    let mut pcm = room;
    if samples_per_channel * CHANNELS <= pcm.len() {
        pcm.truncate(samples_per_channel * CHANNELS);
    }
    pcm
}

/// A decoded packet is what the decoder wrote: two samples for each that it
/// reported, from the beginning of the room, or all of the room where it
/// reported more.
pub proof fn law_a_decoded_packet_is_what_was_written(room: Seq<i16>, samples_per_channel: int)
    requires
        samples_per_channel >= 0,
    ensures
        2 * samples_per_channel <= room.len() ==> decoded(room, samples_per_channel) == room.take(
            2 * samples_per_channel,
        ),
        2 * samples_per_channel > room.len() ==> decoded(room, samples_per_channel) == room,
{
}

/// A packet for which the decoder reports one frame comes out as many samples
/// as a chunk went in with, and with nothing of the room behind them.
pub proof fn law_a_decoded_frame_is_as_long_as_a_chunk(room: Seq<i16>, captured: Seq<u8>)
    requires
        room.len() == DECODE_ROOM,
        captured.len() >= CHUNK_BYTES,
    ensures
        decoded(room, FRAME_SAMPLES_PER_CHANNEL as int).len() == samples_of(
            captured.take(CHUNK_BYTES as int),
        ).len(),
        decoded(room, FRAME_SAMPLES_PER_CHANNEL as int) == room.take(FRAME_SAMPLES_TOTAL as int),
{
}

/// Up to six frames in one packet come out whole: the room cuts none short.
pub proof fn law_six_frames_fit_the_room(room: Seq<i16>, samples_per_channel: int)
    requires
        room.len() == DECODE_ROOM,
        0 <= samples_per_channel <= 6 * FRAME_SAMPLES_PER_CHANNEL,
    ensures
        decoded(room, samples_per_channel).len() == samples_per_channel * CHANNELS,
{
}

/// Where the audio stream of a server that listens on `addr` is.
pub fn stream_url(addr: &str) -> (url: String)
    ensures
        url@ == "ws://"@ + addr@ + "/audio"@,
{
    "ws://".to_owned().concat(addr).concat("/audio")
}

} // verus!
