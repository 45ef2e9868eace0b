//! Hardware H.264 encoding: which encoder to try, how to set it up, and what
//! to make of what it gives back.

use crate::pipeline::EncoderRequest;
use vstd::prelude::*;
use vstd::string::*;

verus! {

/// The hardware encoders, in the order in which they are tried.
pub open spec fn candidates() -> Seq<Seq<char>> {
    seq!["h264_nvenc"@, "h264_amf"@, "h264_qsv"@, "h264_mf"@]
}

/// The name of the hardware encoder at a place in the order.
pub fn candidate(index: usize) -> (name: Option<&'static str>)
    ensures
        match name {
            Some(n) => index < candidates().len() && n@ == candidates()[index as int],
            None => index >= candidates().len(),
        },
{
    match index {
        0 => Some("h264_nvenc"),
        1 => Some("h264_amf"),
        2 => Some("h264_qsv"),
        3 => Some("h264_mf"),
        _ => None,
    }
}

/// The options that tune an encoder for speed, as names and values. Each
/// encoder knows names of its own.
pub open spec fn options_for(name: Seq<char>) -> Seq<(Seq<char>, Seq<char>)> {
    if name == "h264_nvenc"@ {
        seq![
            ("preset"@, "p1"@),
            ("tune"@, "ll"@),
            ("rc"@, "cbr"@),
            ("rc-lookahead"@, "0"@),
        ]
    } else if name == "h264_qsv"@ {
        seq![("preset"@, "veryfast"@), ("look_ahead"@, "0"@)]
    } else if name == "h264_amf"@ {
        seq![("quality"@, "speed"@), ("usage"@, "lowlatency"@)]
    } else if name == "h264_mf"@ {
        seq![("scenario"@, "display_remoting"@), ("rate_control"@, "cbr"@)]
    } else {
        Seq::empty()
    }
}

/// The characters of each name and value of a list of options.
pub open spec fn option_texts(options: Seq<(&'static str, &'static str)>) -> Seq<
    (Seq<char>, Seq<char>),
> {
    Seq::new(options.len(), |i: int| (options[i].0@, options[i].1@))
}

/// The options of a list are looked at one by one, each as it is.
pub proof fn law_a_list_is_its_options(options: Seq<(&'static str, &'static str)>)
    ensures
        option_texts(options).len() == options.len(),
        forall|i: int|
            0 <= i < options.len() ==> #[trigger] option_texts(options)[i] == (
                options[i].0@,
                options[i].1@,
            ),
{
}

/// The options that tune an encoder for speed: sustaining the frame rate under
/// motion matters more than a few percent of bitrate.
pub fn low_latency_options(name: &str) -> (options: Vec<(&'static str, &'static str)>)
    ensures
        option_texts(options@) == options_for(name@),
{
    let mut options: Vec<(&'static str, &'static str)> = Vec::new();
    let name = name.to_owned();
    if crate::text::same_text(&name, "h264_nvenc") {
        options.push(("preset", "p1"));
        options.push(("tune", "ll"));
        options.push(("rc", "cbr"));
        options.push(("rc-lookahead", "0"));
    } else if crate::text::same_text(&name, "h264_qsv") {
        options.push(("preset", "veryfast"));
        options.push(("look_ahead", "0"));
    } else if crate::text::same_text(&name, "h264_amf") {
        options.push(("quality", "speed"));
        options.push(("usage", "lowlatency"));
    } else if crate::text::same_text(&name, "h264_mf") {
        options.push(("scenario", "display_remoting"));
        options.push(("rate_control", "cbr"));
    }
    assert(option_texts(options@) =~= options_for(name@));
    options
}

/// The encoders of the graphics vendors are tried before the one that comes
/// with the system, which is the last resort.
pub proof fn law_the_systems_own_encoder_is_the_last_resort()
    ensures
        candidates().len() == 4,
        candidates()[0] == "h264_nvenc"@,
        candidates()[1] == "h264_amf"@,
        candidates()[2] == "h264_qsv"@,
        candidates()[3] == "h264_mf"@,
{
}

/// Each encoder is tuned in its own terms, and one that is not known in none.
pub proof fn law_each_encoder_is_tuned_in_its_own_terms(name: Seq<char>)
    ensures
        options_for("h264_nvenc"@) == seq![
            ("preset"@, "p1"@),
            ("tune"@, "ll"@),
            ("rc"@, "cbr"@),
            ("rc-lookahead"@, "0"@),
        ],
        options_for("h264_amf"@) == seq![("quality"@, "speed"@), ("usage"@, "lowlatency"@)],
        options_for("h264_qsv"@) == seq![("preset"@, "veryfast"@), ("look_ahead"@, "0"@)],
        options_for("h264_mf"@) == seq![
            ("scenario"@, "display_remoting"@),
            ("rate_control"@, "cbr"@),
        ],
        !candidates().contains(name) ==> options_for(name).len() == 0,
{
    reveal_strlit("h264_nvenc");
    reveal_strlit("h264_amf");
    reveal_strlit("h264_qsv");
    reveal_strlit("h264_mf");
    assert("h264_nvenc"@.len() == 10 && "h264_amf"@.len() == 8 && "h264_qsv"@.len() == 8
        && "h264_mf"@.len() == 7);
    assert("h264_amf"@[5] == 'a' && "h264_qsv"@[5] == 'q');
    assert(candidates()[0] == "h264_nvenc"@ && candidates()[1] == "h264_amf"@ && candidates()[2]
        == "h264_qsv"@ && candidates()[3] == "h264_mf"@);
}

/// How an encoder is set up before it is opened.
#[derive(Debug, Clone, Copy)]
pub struct EncoderSettings {
    pub width: u32,
    pub height: u32,
    /// One tick, in seconds, as a fraction.
    pub time_base: (i32, i32),
    /// Frames per second, as a fraction.
    pub frame_rate: (i32, i32),
    pub bit_rate: usize,
    pub max_bit_rate: usize,
    /// Frames from one key frame to the next.
    pub gop: u32,
    /// How many frames may refer to later ones: none, since that costs time.
    pub max_b_frames: usize,
}

/// The signed number with the same 32 bits.
pub open spec fn as_signed(n: u32) -> int {
    if n <= i32::MAX {
        n as int
    } else {
        n - 0x1_0000_0000
    }
}

/// Whether these are the settings for a request: one tick for each frame, a
/// key frame each second.
pub open spec fn settings_match(settings: EncoderSettings, request: EncoderRequest) -> bool {
    &&& settings.width == request.output_width
    &&& settings.height == request.output_height
    &&& settings.time_base.0 == 1
    &&& settings.time_base.1 == as_signed(request.fps)
    &&& settings.frame_rate.0 == as_signed(request.fps)
    &&& settings.frame_rate.1 == 1
    &&& settings.bit_rate == request.bitrate_bps
    &&& settings.max_bit_rate == request.bitrate_bps
    &&& settings.gop == (if request.fps == 0 {
        1
    } else {
        request.fps
    })
    &&& settings.max_b_frames == 0
}

fn signed(n: u32) -> (r: i32)
    ensures
        r == as_signed(n),
{
    if n <= 0x7fff_ffff {
        n as i32
    } else {
        -((0xffff_ffff - n) as i32) - 1
    }
}

/// The settings of an encoder for a request.
pub fn encoder_settings(request: &EncoderRequest) -> (settings: EncoderSettings)
    ensures
        settings_match(settings, *request),
{
    EncoderSettings {
        width: request.output_width,
        height: request.output_height,
        time_base: (1, signed(request.fps)),
        frame_rate: (signed(request.fps), 1),
        bit_rate: request.bitrate_bps,
        max_bit_rate: request.bitrate_bps,
        gop: if request.fps == 0 {
            1
        } else {
            request.fps
        },
        max_b_frames: 0,
    }
}

/// A rate keeps its 32 bits when it is handed over as a signed number.
pub proof fn law_a_rate_keeps_its_bits(n: u32)
    ensures
        i32::MIN <= as_signed(n) <= i32::MAX,
        (n - as_signed(n)) % 0x1_0000_0000 == 0,
{
}

/// An encoder is set up for the size, the bitrate and the rate asked for: a
/// tick lasts one frame, a key frame comes each second, the bitrate is never
/// exceeded, and no frame waits for a later one.
pub proof fn law_an_encoder_is_set_up_as_asked(settings: EncoderSettings, request: EncoderRequest)
    requires
        settings_match(settings, request),
        0 < request.fps <= i32::MAX,
    ensures
        settings.width == request.output_width,
        settings.height == request.output_height,
        settings.time_base.0 == 1 && settings.time_base.1 == request.fps,
        settings.frame_rate.0 == request.fps && settings.frame_rate.1 == 1,
        settings.bit_rate == request.bitrate_bps,
        settings.max_bit_rate == settings.bit_rate,
        settings.gop == request.fps,
        settings.max_b_frames == 0,
{
}

/// At rates outside the range of a signed number an encoder is set up likewise,
/// with the same bits; a rate of none still has key frames.
pub proof fn law_an_encoder_is_set_up_at_any_rate(
    settings: EncoderSettings,
    request: EncoderRequest,
)
    requires
        settings_match(settings, request),
    ensures
        settings.width == request.output_width,
        settings.height == request.output_height,
        settings.time_base.0 == 1,
        (settings.time_base.1 - request.fps) % 0x1_0000_0000 == 0,
        settings.frame_rate == (settings.time_base.1, 1i32),
        settings.bit_rate == request.bitrate_bps,
        settings.max_bit_rate == request.bitrate_bps,
        settings.gop >= 1,
        request.fps > 0 ==> settings.gop == request.fps,
        request.fps == 0 ==> settings.gop == 1,
        settings.max_b_frames == 0,
{
}

/// The search for a hardware encoder that opens on this machine.
pub struct EncoderSearch {
    next: usize,
    report: String,
}

/// One line for each candidate that did not open: its name and why.
pub open spec fn attempt_line(name: Seq<char>, error: Seq<char>) -> Seq<char> {
    name + ": "@ + error
}

/// The lines of the first candidates, which did not open for these reasons.
pub open spec fn attempt_lines(errors: Seq<Seq<char>>) -> Seq<char>
    decreases errors.len(),
{
    if errors.len() == 0 {
        Seq::empty()
    } else {
        let line = attempt_line(candidates()[errors.len() - 1], errors.last());
        if errors.len() == 1 {
            line
        } else {
            attempt_lines(errors.drop_last()) + "\n"@ + line
        }
    }
}

/// What is reported when no candidate opens.
pub open spec fn search_failure(errors: Seq<Seq<char>>) -> Seq<char> {
    "no hardware H.264 encoder available on this machine. Tried:\n"@ + attempt_lines(errors)
}

/// Each encoder that did not open has its line in the report, in the order of
/// trying: its name and why. The lines stand behind the fixed words.
pub proof fn law_each_failed_encoder_has_its_line(errors: Seq<Seq<char>>, error: Seq<char>)
    ensures
        attempt_lines(seq![error]) == candidates()[0] + ": "@ + error,
        0 < errors.len() ==> attempt_lines(errors.push(error)) == attempt_lines(errors) + "\n"@ + (
        candidates()[errors.len() as int] + ": "@ + error),
        search_failure(errors) == "no hardware H.264 encoder available on this machine. Tried:\n"@
            + attempt_lines(errors),
{
    assert(errors.push(error).drop_last() =~= errors);
}

impl EncoderSearch {
    /// Whether these are the reasons why each candidate tried so far did not
    /// open, in order.
    pub closed spec fn has_tried(&self, errors: Seq<Seq<char>>) -> bool {
        &&& self.next == errors.len()
        &&& errors.len() <= candidates().len()
        &&& self.report@ == attempt_lines(errors)
    }

    /// How many candidates have been tried.
    pub closed spec fn tried(&self) -> nat {
        self.next as nat
    }

    pub fn new() -> (search: EncoderSearch)
        ensures
            search.has_tried(Seq::empty()),
            search.tried() == 0,
    {
        let search = EncoderSearch { next: 0, report: String::new() };
        assert(search.report@ =~= attempt_lines(Seq::empty()));
        search
    }

    /// The candidate to try now: `None` once every one has been tried.
    pub fn candidate(&self) -> (name: Option<&'static str>)
        ensures
            match name {
                Some(n) => self.tried() < candidates().len() && n@
                    == candidates()[self.tried() as int],
                None => self.tried() >= candidates().len(),
            },
    {
        candidate(self.next)
    }

    /// Takes note that the candidate at hand did not open, and why.
    pub fn failed(&mut self, error: &str)
        requires
            old(self).tried() < candidates().len(),
        ensures
            final(self).tried() == old(self).tried() + 1,
            forall|errors: Seq<Seq<char>>| #[trigger]
                old(self).has_tried(errors) ==> final(self).has_tried(errors.push(error@)),
    {
        let ghost before = *self;
        match candidate(self.next) {
            Some(name) => {
                let line = name.to_owned().concat(": ").concat(error);
                if self.next == 0 {
                    self.report = line;
                } else {
                    self.report = self.report.clone().concat("\n").concat(line.as_str());
                }
            },
            None => {},
        }
        self.next = self.next + 1;
        proof {
            assert forall|errors: Seq<Seq<char>>| #[trigger] before.has_tried(
                errors,
            ) implies self.has_tried(errors.push(error@)) by {
                assert(errors.push(error@).drop_last() =~= errors);
                assert(self.report@ =~= attempt_lines(errors.push(error@)));
            }
        }
    }

    /// What to report when no candidate opened.
    pub fn failure(&self) -> (text: String)
        ensures
            forall|errors: Seq<Seq<char>>| #[trigger]
                self.has_tried(errors) ==> text@ == search_failure(errors),
    {
        let text = "no hardware H.264 encoder available on this machine. Tried:\n".to_owned().concat(
            self.report.as_str(),
        );
        proof {
            assert forall|errors: Seq<Seq<char>>| #[trigger] self.has_tried(errors) implies text@
                == search_failure(errors) by {
                assert(text@ =~= search_failure(errors));
            }
        }
        text
    }
}

/// Where a search that has tried `n` candidates ends: at the place of the one
/// that opens, or nowhere. `opens` says of each how trying it goes: with an
/// error, or with `None` where it opens.
pub open spec fn search_from(opens: Map<Seq<char>, Option<Seq<char>>>, n: nat) -> Option<nat>
    decreases candidates().len() - n,
{
    if n >= candidates().len() {
        None
    } else if opens[candidates()[n as int]] is None {
        Some(n)
    } else {
        search_from(opens, n + 1)
    }
}

/// The search ends at the first candidate that opens, and gives up only when
/// none does.
pub proof fn law_the_first_encoder_that_opens_is_used(
    opens: Map<Seq<char>, Option<Seq<char>>>,
    n: nat,
)
    requires
        n <= candidates().len(),
    ensures
        match search_from(opens, n) {
            Some(k) => n <= k < candidates().len() && opens[candidates()[k as int]] is None
                && forall|i: int| n <= i < k ==> opens[#[trigger] candidates()[i]] is Some,
            None => forall|i: int|
                n <= i < candidates().len() ==> opens[#[trigger] candidates()[i]] is Some,
        },
    decreases candidates().len() - n,
{
    if n < candidates().len() && opens[candidates()[n as int]] is Some {
        law_the_first_encoder_that_opens_is_used(opens, n + 1);
    }
}

/// Numbers frames in the order in which they are encoded, from 0.
#[derive(Debug)]
pub struct FrameClock {
    pub next_pts: i64,
}

impl FrameClock {
    pub fn new() -> (clock: FrameClock)
        ensures
            clock.next_pts == 0,
    {
        FrameClock { next_pts: 0 }
    }

    /// The number of the next frame.
    pub fn tick(&mut self) -> (pts: i64)
        requires
            old(self).next_pts < i64::MAX,
        ensures
            pts == old(self).next_pts,
            final(self).next_pts == pts + 1,
    {
        let pts: i64 = self.next_pts;
        self.next_pts = pts + 1;
        pts
    }
}

/// What an encoder says when it is asked for a packet.
pub enum Received {
    /// A packet, with its bytes if it has any.
    Packet(Option<Vec<u8>>),
    /// It needs more frames first.
    NeedsInput,
    /// There will be no more.
    Ended,
    /// It failed.
    Failed,
}

/// The bytes of each packet.
pub open spec fn packet_bytes(packets: Seq<Vec<u8>>) -> Seq<Seq<u8>> {
    Seq::new(packets.len(), |i: int| packets[i]@)
}

/// The packets after one more answer of an encoder.
pub open spec fn drained(packets: Seq<Seq<u8>>, received: Received) -> Seq<Seq<u8>> {
    match received {
        Received::Packet(Some(data)) => packets.push(data@),
        _ => packets,
    }
}

/// Takes in one answer of an encoder. Says whether to ask again: encoders
/// buffer, so one frame may give several packets or none.
pub fn drain(packets: &mut Vec<Vec<u8>>, received: Received) -> (again: bool)
    ensures
        packet_bytes(final(packets)@) == drained(packet_bytes(old(packets)@), received),
        again == (received is Packet),
{
    let ghost before = packets@;
    match received {
        Received::Packet(data) => {
            match data {
                Some(bytes) => {
                    packets.push(bytes);
                },
                None => {},
            }
            assert(packet_bytes(packets@) =~= drained(packet_bytes(before), received));
            true
        },
        _ => false,
    }
}

/// Every packet with bytes is kept, behind those before it and as it came; no
/// other answer of an encoder adds anything or takes anything away.
pub proof fn law_every_packet_is_kept(packets: Seq<Seq<u8>>, data: Vec<u8>, received: Received)
    ensures
        drained(packets, Received::Packet(Some(data))) == packets.push(data@),
        !(received matches Received::Packet(Some(_))) ==> drained(packets, received) == packets,
{
}

/// The packets of a list are looked at one by one, each as it is.
pub proof fn law_a_list_is_its_packets(packets: Seq<Vec<u8>>)
    ensures
        packet_bytes(packets).len() == packets.len(),
        forall|i: int| 0 <= i < packets.len() ==> #[trigger] packet_bytes(packets)[i] == packets[i]@,
{
}

} // verus!
