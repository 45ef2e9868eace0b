//! Video on its way to a viewer: received packets put together into whole
//! access units, raw frames laid out for a codec, and pictures framed for the
//! local preview stream.

use bytes::Bytes;
use rtc::rtp::codec::h264::H264Packet;
use rtc::rtp::packetizer::Depacketizer;
use rtc::shared::error::Error;
use crate::text;
use vstd::prelude::*;
use vstd::string::*;

verus! {

/// The depacketizer of `rtc` for H.264.
#[verifier::external_type_specification]
#[verifier::external_body]
pub struct ExH264Packet(rtc::rtp::codec::h264::H264Packet);

/// The part of a fragmented NAL unit that a depacketizer holds: nothing where
/// none is under way.
pub uninterp spec fn h264_pending(depacketizer: H264Packet) -> Seq<u8>;

/// The public field `is_avc` of a depacketizer: whether it writes lengths
/// before NAL units, not start codes.
pub uninterp spec fn h264_writes_lengths(depacketizer: H264Packet) -> bool;

/// The type of the NAL unit that a payload begins with.
pub open spec fn nal_type(payload: Seq<u8>) -> int {
    payload[0] as int % 32
}

/// The four bytes that stand before each NAL unit of an access unit.
pub open spec fn start_code() -> Seq<u8> {
    seq![0u8, 0u8, 0u8, 1u8]
}

/// The length field at `offset` of an aggregate.
pub open spec fn unit_length(payload: Seq<u8>, offset: int) -> int {
    payload[offset] as int * 256 + payload[offset + 1] as int
}

/// Whether every length field of an aggregate that is reached from `offset`
/// on lies whole in the payload.
pub open spec fn lengths_are_whole(payload: Seq<u8>, offset: int) -> bool
    decreases payload.len() - offset,
{
    if offset >= payload.len() || offset < 0 {
        true
    } else if offset + 1 >= payload.len() {
        false
    } else {
        let next = offset + 2 + unit_length(payload, offset);
        next > payload.len() || lengths_are_whole(payload, next)
    }
}

/// Whether a payload can be depacketized: it is no aggregate of NAL units, or
/// none of its length fields is cut in two.
pub open spec fn can_depacketize(payload: Seq<u8>) -> bool {
    payload.len() <= 2 || nal_type(payload) != 24 || lengths_are_whole(payload, 1)
}

/// Whether a payload can be depacketized.
pub fn is_depacketizable(payload: &[u8]) -> (r: bool)
    ensures
        r == can_depacketize(payload@),
{
    if payload.len() <= 2 || payload[0] % 32 != 24 {
        return true;
    }
    let mut offset: usize = 1;
    while offset < payload.len()
        invariant
            payload@.len() > 2,
            nal_type(payload@) == 24,
            1 <= offset,
            lengths_are_whole(payload@, 1) == lengths_are_whole(payload@, offset as int),
        decreases payload@.len() - offset,
    {
        if payload.len() - offset < 2 {
            return false;
        }
        let length: usize = payload[offset] as usize * 256 + payload[offset + 1] as usize;
        offset = offset + 2;
        if payload.len() - offset < length {
            return true;
        }
        offset = offset + length;
    }
    true
}

/// Whether a payload is too short to hold anything: under three bytes, or
/// under two for an access unit delimiter.
pub open spec fn is_too_short(payload: Seq<u8>) -> bool {
    payload.len() <= 1 || (payload.len() == 2 && nal_type(payload) != 9)
}

/// Whether a payload is a fragment of a NAL unit.
pub open spec fn is_fragment(payload: Seq<u8>) -> bool {
    !is_too_short(payload) && nal_type(payload) == 28
}

/// Whether a fragment is the last of its NAL unit.
pub open spec fn is_last_fragment(payload: Seq<u8>) -> bool {
    payload[1] as int / 64 % 2 == 1
}

/// The header of the NAL unit that a fragment belongs to: its importance from
/// the first byte, its type from the second.
pub open spec fn fragment_header(payload: Seq<u8>) -> u8 {
    (payload[0] as int / 32 % 4 * 32 + payload[1] as int % 32) as u8
}

/// The NAL units of an aggregate from `offset` on, each behind a start code:
/// `None` where one is longer than what is left.
pub open spec fn aggregate_units(payload: Seq<u8>, offset: int) -> Option<Seq<u8>>
    decreases payload.len() - offset,
{
    if offset >= payload.len() || offset < 0 {
        Some(Seq::empty())
    } else {
        let next = offset + 2 + unit_length(payload, offset);
        if next > payload.len() {
            None
        } else {
            match aggregate_units(payload, next) {
                Some(rest) => Some(start_code() + payload.subrange(offset + 2, next) + rest),
                None => None,
            }
        }
    }
}

/// What a payload completes, by the H.264 payload format of RFC 6184, after
/// the fragments in `pending`: NAL units, each behind a start code. `None`
/// where the payload cannot be read.
pub open spec fn depacketized(pending: Seq<u8>, payload: Seq<u8>) -> Option<Seq<u8>> {
    if is_too_short(payload) {
        None
    } else if 1 <= nal_type(payload) <= 23 {
        Some(start_code() + payload)
    } else if nal_type(payload) == 24 {
        aggregate_units(payload, 1)
    } else if !is_fragment(payload) {
        None
    } else if is_last_fragment(payload) {
        Some(start_code().push(fragment_header(payload)) + pending + payload.skip(2))
    } else {
        Some(Seq::empty())
    }
}

/// The fragments held after a payload.
pub open spec fn pending_after(pending: Seq<u8>, payload: Seq<u8>) -> Seq<u8> {
    if !is_fragment(payload) {
        pending
    } else if is_last_fragment(payload) {
        Seq::empty()
    } else {
        pending + payload.skip(2)
    }
}

/// `H264Packet::default`: a depacketizer that holds nothing and writes start
/// codes.
#[verifier::external_body]
fn new_depacketizer() -> (depacketizer: H264Packet)
    ensures
        h264_pending(depacketizer) == Seq::<u8>::empty(),
        !h264_writes_lengths(depacketizer),
{
    H264Packet::default()
}

/// `H264Packet::depacketize`, of a depacketizer that writes start codes. A
/// NAL unit comes out as it is, an aggregate as its parts, and a fragmented
/// unit with its last fragment; whatever else comes in is an error. An
/// aggregate whose walk ends in half a length field makes it panic, and is
/// left out.
#[verifier::external_body]
fn depacketize(depacketizer: &mut H264Packet, payload: &[u8]) -> (r: Result<Vec<u8>, Error>)
    requires
        can_depacketize(payload@),
        !h264_writes_lengths(*old(depacketizer)),
    ensures
        !h264_writes_lengths(*final(depacketizer)),
        h264_pending(*final(depacketizer)) == pending_after(
            h264_pending(*old(depacketizer)),
            payload@,
        ),
        (match r {
            Ok(units) => depacketized(h264_pending(*old(depacketizer)), payload@) == Some(units@),
            Err(_) => depacketized(h264_pending(*old(depacketizer)), payload@) is None,
        }),
{
    depacketizer.depacketize(&Bytes::copy_from_slice(payload)).map(|units| units.to_vec())
}

/// Puts depacketized NAL units together into access units, one for each video
/// frame. The marker bit of a packet says that it is the last of its frame.
pub struct AccessUnitAssembler {
    depacketizer: H264Packet,
    buffer: Vec<u8>,
}

/// What an [`AccessUnitAssembler`] holds.
#[verifier::ext_equal]
pub struct AssemblerView {
    /// The fragments of a NAL unit under way.
    pub pending: Seq<u8>,
    /// The part of the next access unit that is there already.
    pub buffer: Seq<u8>,
}

impl View for AccessUnitAssembler {
    type V = AssemblerView;

    closed spec fn view(&self) -> AssemblerView {
        AssemblerView { pending: h264_pending(self.depacketizer), buffer: self.buffer@ }
    }
}

/// What a payload adds to the access unit under way. A payload that cannot be
/// read adds nothing.
pub open spec fn units_in(pending: Seq<u8>, payload: Seq<u8>) -> Seq<u8> {
    match depacketized(pending, payload) {
        Some(units) => units,
        None => Seq::empty(),
    }
}

impl AssemblerView {
    /// An assembler that has seen nothing.
    pub open spec fn start() -> AssemblerView {
        AssemblerView { pending: Seq::empty(), buffer: Seq::empty() }
    }

    /// The access unit under way, with one more payload.
    pub open spec fn gathered(self, payload: Seq<u8>) -> Seq<u8> {
        self.buffer + units_in(self.pending, payload)
    }

    /// The access unit that a payload completes: the frame's last payload
    /// does, if there is anything of the frame.
    pub open spec fn completed(self, payload: Seq<u8>, marker: bool) -> Option<Seq<u8>> {
        if marker && self.gathered(payload).len() > 0 {
            Some(self.gathered(payload))
        } else {
            None
        }
    }

    /// The assembler after a payload.
    pub open spec fn push(self, payload: Seq<u8>, marker: bool) -> AssemblerView {
        AssemblerView {
            pending: pending_after(self.pending, payload),
            buffer: if self.completed(payload, marker) is Some {
                Seq::empty()
            } else {
                self.gathered(payload)
            },
        }
    }
}

impl AccessUnitAssembler {
    /// The depacketizer writes start codes.
    pub closed spec fn wf(&self) -> bool {
        !h264_writes_lengths(self.depacketizer)
    }

    pub fn new() -> (assembler: AccessUnitAssembler)
        ensures
            assembler.wf(),
            assembler@ == AssemblerView::start(),
    {
        AccessUnitAssembler { depacketizer: new_depacketizer(), buffer: Vec::new() }
    }

    /// Takes in the payload of one packet. Gives the access unit once the
    /// frame's last packet, the one with the marker bit, is in.
    pub fn push(&mut self, payload: &[u8], marker: bool) -> (unit: Option<Vec<u8>>)
        requires
            old(self).wf(),
            can_depacketize(payload@),
        ensures
            final(self).wf(),
            final(self)@ == old(self)@.push(payload@, marker),
            match unit {
                Some(bytes) => old(self)@.completed(payload@, marker) == Some(bytes@),
                None => old(self)@.completed(payload@, marker) is None,
            },
    {
        match depacketize(&mut self.depacketizer, payload) {
            Ok(units) => {
                let mut units = units;
                self.buffer.append(&mut units);
            },
            Err(_) => {},
        }
        assert(self.buffer@ =~= old(self)@.gathered(payload@));
        if !marker || self.buffer.len() == 0 {
            return None;
        }
        let mut unit: Vec<u8> = Vec::new();
        std::mem::swap(&mut unit, &mut self.buffer);
        Some(unit)
    }
}

/// One received packet: its payload and its marker bit.
pub struct Packet {
    pub payload: Seq<u8>,
    pub marker: bool,
}

/// The assembler after these packets.
pub open spec fn assembled(packets: Seq<Packet>) -> AssemblerView
    decreases packets.len(),
{
    if packets.len() == 0 {
        AssemblerView::start()
    } else {
        assembled(packets.drop_last()).push(packets.last().payload, packets.last().marker)
    }
}

/// The access units that these packets completed, in order.
pub open spec fn access_units(packets: Seq<Packet>) -> Seq<Seq<u8>>
    decreases packets.len(),
{
    if packets.len() == 0 {
        Seq::empty()
    } else {
        let earlier = access_units(packets.drop_last());
        match assembled(packets.drop_last()).completed(
            packets.last().payload,
            packets.last().marker,
        ) {
            Some(unit) => earlier.push(unit),
            None => earlier,
        }
    }
}

/// The payloads of these packets.
pub open spec fn payloads(packets: Seq<Packet>) -> Seq<Seq<u8>> {
    Seq::new(packets.len(), |i: int| packets[i].payload)
}

/// The fragments held after these payloads.
pub open spec fn pending_of(payloads: Seq<Seq<u8>>) -> Seq<u8>
    decreases payloads.len(),
{
    if payloads.len() == 0 {
        Seq::empty()
    } else {
        pending_after(pending_of(payloads.drop_last()), payloads.last())
    }
}

/// All that was depacketized from these payloads, one after the other.
pub open spec fn all_units(payloads: Seq<Seq<u8>>) -> Seq<u8>
    decreases payloads.len(),
{
    if payloads.len() == 0 {
        Seq::empty()
    } else {
        all_units(payloads.drop_last()) + units_in(
            pending_of(payloads.drop_last()),
            payloads.last(),
        )
    }
}

/// The bytes of these access units, one after the other.
pub open spec fn joined(units: Seq<Seq<u8>>) -> Seq<u8>
    decreases units.len(),
{
    if units.len() == 0 {
        Seq::empty()
    } else {
        joined(units.drop_last()) + units.last()
    }
}

/// Assembling neither loses nor adds nor reorders a byte: the access units,
/// with what is still under way, are all that was depacketized.
pub proof fn law_assembling_keeps_every_byte(packets: Seq<Packet>)
    ensures
        assembled(packets).pending == pending_of(payloads(packets)),
        joined(access_units(packets)) + assembled(packets).buffer == all_units(payloads(packets)),
    decreases packets.len(),
{
    if packets.len() == 0 {
        assert(payloads(packets) =~= Seq::empty());
        assert(joined(access_units(packets)) + assembled(packets).buffer =~= Seq::<u8>::empty());
    } else {
        let init = packets.drop_last();
        let last = packets.last();
        law_assembling_keeps_every_byte(init);
        let before = assembled(init);
        assert(payloads(packets).drop_last() =~= payloads(init));
        assert(payloads(packets) =~= payloads(init).push(last.payload));
        let units = access_units(init);
        match before.completed(last.payload, last.marker) {
            Some(unit) => {
                assert(units.push(unit).drop_last() =~= units);
                assert(joined(units.push(unit)) + Seq::empty() =~= (joined(units) + before.buffer)
                    + units_in(before.pending, last.payload));
            },
            None => {
                assert(joined(units) + before.gathered(last.payload) =~= (joined(units)
                    + before.buffer) + units_in(before.pending, last.payload));
            },
        }
    }
}

/// The fragments that a NAL unit is sent in: its header is split over the
/// first two bytes of each, and its body over what follows them.
pub open spec fn are_fragments_of(
    fragments: Seq<Seq<u8>>,
    header: u8,
    body: Seq<u8>,
    last: bool,
) -> bool
    decreases fragments.len(),
{
    if fragments.len() == 0 {
        !last && body.len() == 0
    } else {
        let fragment = fragments.last();
        let size = fragment.len() - 2;
        &&& is_fragment(fragment)
        &&& fragment_header(fragment) == header
        &&& is_last_fragment(fragment) == last
        &&& size <= body.len()
        &&& fragment.skip(2) == body.skip(body.len() - size)
        &&& are_fragments_of(fragments.drop_last(), header, body.take(body.len() - size), false)
    }
}

proof fn lemma_fragments_are_kept(fragments: Seq<Seq<u8>>, header: u8, body: Seq<u8>)
    requires
        are_fragments_of(fragments, header, body, false),
    ensures
        pending_of(fragments) == body,
        all_units(fragments) == Seq::<u8>::empty(),
    decreases fragments.len(),
{
    if fragments.len() == 0 {
        assert(body =~= Seq::empty());
    } else {
        let fragment = fragments.last();
        let cut = body.len() - (fragment.len() - 2);
        lemma_fragments_are_kept(fragments.drop_last(), header, body.take(cut));
        assert(body.take(cut) + body.skip(cut) =~= body);
        assert(all_units(fragments) =~= Seq::empty());
    }
}

/// A NAL unit that was sent in fragments comes back whole, behind a start
/// code, and nothing of it is held any longer.
pub proof fn law_a_fragmented_unit_comes_back_whole(
    fragments: Seq<Seq<u8>>,
    header: u8,
    body: Seq<u8>,
)
    requires
        are_fragments_of(fragments, header, body, true),
    ensures
        all_units(fragments) == start_code().push(header) + body,
        pending_of(fragments) == Seq::<u8>::empty(),
{
    let fragment = fragments.last();
    let cut = body.len() - (fragment.len() - 2);
    lemma_fragments_are_kept(fragments.drop_last(), header, body.take(cut));
    assert(all_units(fragments) =~= start_code().push(header) + body);
}

/// No access unit is empty.
pub proof fn law_access_units_are_not_empty(packets: Seq<Packet>, i: int)
    requires
        0 <= i < access_units(packets).len(),
    ensures
        access_units(packets)[i].len() > 0,
    decreases packets.len(),
{
    let earlier = access_units(packets.drop_last());
    if i < earlier.len() {
        law_access_units_are_not_empty(packets.drop_last(), i);
    }
}

/// Without a marker bit no access unit comes out.
pub proof fn law_only_a_marker_completes_a_frame(packets: Seq<Packet>)
    requires
        forall|i: int| 0 <= i < packets.len() ==> !(#[trigger] packets[i]).marker,
    ensures
        access_units(packets) == Seq::<Seq<u8>>::empty(),
    decreases packets.len(),
{
    if packets.len() > 0 {
        let init = packets.drop_last();
        assert forall|i: int| 0 <= i < init.len() implies !(#[trigger] init[i]).marker by {
            assert(init[i] == packets[i]);
        }
        law_only_a_marker_completes_a_frame(init);
        assert(!packets[packets.len() - 1].marker);
    }
}

/// A frame leaves nothing behind: whatever its packets held, and however much
/// of it there was, the packet with the marker bit clears the way for the next
/// frame.
pub proof fn law_a_marker_leaves_nothing_behind(packets: Seq<Packet>)
    requires
        packets.len() > 0,
        packets.last().marker,
    ensures
        assembled(packets).buffer == Seq::<u8>::empty(),
{
    let before = assembled(packets.drop_last());
    if before.completed(packets.last().payload, true) is None {
        assert(before.gathered(packets.last().payload) =~= Seq::empty());
    }
}

/// Whether these packets are one video frame: the last has the marker bit and
/// no other.
pub open spec fn is_one_frame(frame: Seq<Packet>) -> bool {
    &&& frame.len() > 0
    &&& forall|i: int| 0 <= i < frame.len() ==> (#[trigger] frame[i]).marker == (i == frame.len() - 1)
}

proof fn lemma_nothing_before_the_marker(packets: Seq<Packet>, more: Seq<Packet>)
    requires
        forall|i: int| 0 <= i < more.len() ==> !(#[trigger] more[i]).marker,
    ensures
        access_units(packets + more) == access_units(packets),
    decreases more.len(),
{
    if more.len() == 0 {
        assert(packets + more =~= packets);
    } else {
        let fewer = more.drop_last();
        assert forall|i: int| 0 <= i < fewer.len() implies !(#[trigger] fewer[i]).marker by {
            assert(fewer[i] == more[i]);
        }
        lemma_nothing_before_the_marker(packets, fewer);
        assert((packets + more).drop_last() =~= packets + fewer);
        assert((packets + more).last() == more[more.len() - 1]);
    }
}

/// One video frame is one access unit: all that its packets brought, and
/// nothing else, comes out with the last of them, however many they are and
/// however long it is. Only a frame that brought nothing gives none.
pub proof fn law_one_frame_is_one_access_unit(packets: Seq<Packet>, frame: Seq<Packet>)
    requires
        packets.len() > 0 ==> packets.last().marker,
        is_one_frame(frame),
    ensures
        ({
            let earlier = all_units(payloads(packets));
            let all = all_units(payloads(packets + frame));
            let brought = all.skip(earlier.len() as int);
            &&& all == earlier + brought
            &&& brought.len() > 0 ==> access_units(packets + frame) == access_units(packets).push(
                brought,
            )
            &&& brought.len() == 0 ==> access_units(packets + frame) == access_units(packets)
        }),
{
    let all = packets + frame;
    let init = frame.drop_last();
    assert(frame[frame.len() - 1].marker);
    assert(all.last() == frame.last());
    assert(all.drop_last() =~= packets + init);
    assert forall|i: int| 0 <= i < init.len() implies !(#[trigger] init[i]).marker by {
        assert(init[i] == frame[i]);
    }
    lemma_nothing_before_the_marker(packets, init);
    law_a_marker_leaves_nothing_behind(all);
    if packets.len() > 0 {
        law_a_marker_leaves_nothing_behind(packets);
    }
    law_assembling_keeps_every_byte(packets);
    law_assembling_keeps_every_byte(all);
    let units = access_units(packets);
    let earlier = all_units(payloads(packets));
    let now = all_units(payloads(all));
    assert(joined(units) =~= earlier);
    assert(joined(access_units(all)) =~= now);
    match assembled(all.drop_last()).completed(all.last().payload, all.last().marker) {
        Some(unit) => {
            assert(access_units(all) == units.push(unit));
            assert(units.push(unit).drop_last() =~= units);
            assert(now =~= earlier + unit);
            assert(now.skip(earlier.len() as int) =~= unit);
        },
        None => {
            assert(now.skip(earlier.len() as int) =~= Seq::empty());
            assert(now =~= earlier + now.skip(earlier.len() as int));
        },
    }
}

/// These payloads as the packets of one video frame.
pub open spec fn framed(payloads: Seq<Seq<u8>>) -> Seq<Packet> {
    Seq::new(
        payloads.len(),
        |i: int| Packet { payload: payloads[i], marker: i == payloads.len() - 1 },
    )
}

/// A frame that is one NAL unit in fragments comes out as that unit behind a
/// start code, however long it is, after whatever frames came before it.
pub proof fn law_a_fragmented_frame_comes_out_whole(
    packets: Seq<Packet>,
    fragments: Seq<Seq<u8>>,
    header: u8,
    body: Seq<u8>,
)
    requires
        packets.len() > 0 ==> packets.last().marker,
        pending_of(payloads(packets)) == Seq::<u8>::empty(),
        are_fragments_of(fragments, header, body, true),
    ensures
        access_units(packets + framed(fragments)) == access_units(packets).push(
            seq![0u8, 0u8, 0u8, 1u8, header] + body,
        ),
        assembled(packets + framed(fragments)) == AssemblerView::start(),
{
    let frame = framed(fragments);
    let all = packets + frame;
    assert forall|i: int| 0 <= i < frame.len() implies (#[trigger] frame[i]).marker == (i
        == frame.len() - 1) by {}
    law_one_frame_is_one_access_unit(packets, frame);
    law_a_fragmented_unit_comes_back_whole(fragments, header, body);
    lemma_units_of_both(payloads(packets), fragments);
    assert(payloads(all) =~= payloads(packets) + fragments);
    let earlier = all_units(payloads(packets));
    let unit = seq![0u8, 0u8, 0u8, 1u8, header] + body;
    assert(start_code().push(header) + body =~= unit);
    assert((earlier + unit).skip(earlier.len() as int) =~= unit);
    law_assembling_keeps_every_byte(all);
    assert(all.last() == frame.last());
    law_a_marker_leaves_nothing_behind(all);
    assert(assembled(all) =~= AssemblerView::start());
}

proof fn lemma_units_of_both(first: Seq<Seq<u8>>, second: Seq<Seq<u8>>)
    requires
        pending_of(first) == Seq::<u8>::empty(),
    ensures
        all_units(first + second) == all_units(first) + all_units(second),
        pending_of(first + second) == pending_of(second),
    decreases second.len(),
{
    if second.len() == 0 {
        assert(first + second =~= first);
        assert(all_units(first) + all_units(second) =~= all_units(first));
    } else {
        lemma_units_of_both(first, second.drop_last());
        assert((first + second).drop_last() =~= first + second.drop_last());
        assert((first + second).last() == second.last());
        assert(all_units(first + second) =~= all_units(first) + all_units(second));
    }
}

/// One fragment of a NAL unit, as RFC 6184 has it: the importance of the unit
/// with the type of a fragment, the type of the unit with the marks of a first
/// and a last fragment, then a part of the unit's body.
pub open spec fn fragment(header: u8, part: Seq<u8>, first: bool, last: bool) -> Seq<u8> {
    let start: int = if first {
        128
    } else {
        0
    };
    let end: int = if last {
        64
    } else {
        0
    };
    seq![(header as int / 32 * 32 + 28) as u8, (start + end + header as int % 32) as u8] + part
}

/// The fragments that a NAL unit is sent in, a part of its body in each.
/// `ends` says whether the last of them is the last of the unit.
pub open spec fn fragmented(header: u8, parts: Seq<Seq<u8>>, ends: bool) -> Seq<Seq<u8>> {
    Seq::new(
        parts.len(),
        |i: int| fragment(header, parts[i], i == 0, ends && i == parts.len() - 1),
    )
}

proof fn lemma_fragmented(header: u8, parts: Seq<Seq<u8>>, ends: bool)
    requires
        header < 128,
        ends ==> parts.len() > 0,
        forall|i: int| 0 <= i < parts.len() ==> (#[trigger] parts[i]).len() > 0,
    ensures
        are_fragments_of(fragmented(header, parts, ends), header, joined(parts), ends),
    decreases parts.len(),
{
    let fragments = fragmented(header, parts, ends);
    if parts.len() > 0 {
        let init = parts.drop_last();
        let part = parts[parts.len() - 1];
        assert forall|i: int| 0 <= i < init.len() implies (#[trigger] init[i]).len() > 0 by {
            assert(init[i] == parts[i]);
        }
        lemma_fragmented(header, init, false);
        assert(fragments.drop_last() =~= fragmented(header, init, false));
        let sent = fragments.last();
        let body = joined(parts);
        assert(sent == fragment(header, part, parts.len() == 1, ends));
        assert(sent.skip(2) =~= part);
        assert(body.skip(body.len() - part.len()) =~= part);
        assert(body.take(body.len() - part.len()) =~= joined(init));
        let kind = header as int % 32;
        assert(sent[0] == header as int / 32 * 32 + 28);
        assert(sent[1] as int % 32 == kind);
        assert((sent[1] as int / 64 % 2 == 1) == ends);
    }
}

/// A NAL unit of any length, cut anywhere into parts and sent in a frame of
/// its own, comes out as one access unit: a start code, its header and its
/// body.
pub proof fn law_a_unit_can_be_cut_anywhere(header: u8, parts: Seq<Seq<u8>>)
    requires
        header < 128,
        parts.len() > 0,
        forall|i: int| 0 <= i < parts.len() ==> (#[trigger] parts[i]).len() > 0,
    ensures
        access_units(framed(fragmented(header, parts, true))) == seq![
            seq![0u8, 0u8, 0u8, 1u8, header] + joined(parts),
        ],
{
    let fragments = fragmented(header, parts, true);
    let packets: Seq<Packet> = Seq::empty();
    lemma_fragmented(header, parts, true);
    assert(payloads(packets) =~= Seq::empty());
    law_a_fragmented_frame_comes_out_whole(packets, fragments, header, joined(parts));
    assert(packets + framed(fragments) =~= framed(fragments));
    assert(access_units(framed(fragments)) =~= seq![
        seq![0u8, 0u8, 0u8, 1u8, header] + joined(parts),
    ]);
}

/// A NAL unit that fills a packet of its own comes out as it is, behind a
/// start code, and leaves fragments under way alone.
pub proof fn law_a_whole_unit_comes_out_as_it_is(pending: Seq<u8>, payload: Seq<u8>)
    requires
        payload.len() >= 3 || (payload.len() == 2 && payload[0] % 32 == 9),
        1 <= payload[0] % 32 <= 23,
    ensures
        can_depacketize(payload),
        units_in(pending, payload) == seq![0u8, 0u8, 0u8, 1u8] + payload,
        pending_after(pending, payload) == pending,
{
}

/// A payload that is of no known type, or too short to be of any, adds nothing
/// and leaves fragments under way alone.
pub proof fn law_an_unreadable_payload_adds_nothing(pending: Seq<u8>, payload: Seq<u8>)
    requires
        payload.len() < 2 || (payload.len() == 2 && payload[0] % 32 != 9) || payload[0] % 32 == 0
            || payload[0] % 32 == 25 || payload[0] % 32 == 26 || payload[0] % 32 == 27 || payload[0]
            % 32 >= 29,
    ensures
        can_depacketize(payload),
        units_in(pending, payload) == Seq::<u8>::empty(),
        pending_after(pending, payload) == pending,
{
}

/// NAL units as an aggregate holds them, each behind its length.
pub open spec fn aggregated(units: Seq<Seq<u8>>) -> Seq<u8>
    decreases units.len(),
{
    if units.len() == 0 {
        Seq::empty()
    } else {
        seq![(units[0].len() / 256) as u8, (units[0].len() % 256) as u8] + units[0] + aggregated(
            units.skip(1),
        )
    }
}

/// NAL units as an access unit holds them, each behind a start code.
pub open spec fn marked_off(units: Seq<Seq<u8>>) -> Seq<u8>
    decreases units.len(),
{
    if units.len() == 0 {
        Seq::empty()
    } else {
        seq![0u8, 0u8, 0u8, 1u8] + units[0] + marked_off(units.skip(1))
    }
}

proof fn lemma_aggregate(payload: Seq<u8>, offset: int, units: Seq<Seq<u8>>)
    requires
        0 <= offset <= payload.len(),
        payload.skip(offset) == aggregated(units),
        forall|i: int| 0 <= i < units.len() ==> (#[trigger] units[i]).len() <= 0xffff,
    ensures
        lengths_are_whole(payload, offset),
        aggregate_units(payload, offset) == Some(marked_off(units)),
    decreases units.len(),
{
    let rest = payload.skip(offset);
    if units.len() == 0 {
        assert(rest.len() == 0);
    } else {
        let unit = units[0];
        assert(unit.len() <= 0xffff);
        let later = units.skip(1);
        assert forall|i: int| 0 <= i < later.len() implies (#[trigger] later[i]).len() <= 0xffff by {
            assert(later[i] == units[i + 1]);
        }
        let size = 2 + unit.len() as int;
        let next = offset + size;
        assert(rest.len() == 2 + unit.len() + aggregated(later).len());
        assert(rest[0] == payload[offset] && rest[1] == payload[offset + 1]);
        assert(rest[0] == (unit.len() / 256) as u8 && rest[1] == (unit.len() % 256) as u8);
        assert(unit_length(payload, offset) == unit.len());
        assert(payload.skip(next) =~= rest.skip(size));
        assert(rest.skip(size) =~= aggregated(later));
        lemma_aggregate(payload, next, later);
        assert(payload.subrange(offset + 2, next) =~= rest.subrange(2, size));
        assert(rest.subrange(2, size) =~= unit);
    }
}

/// NAL units that share a packet all come out, in order, each behind a start
/// code, and leave fragments under way alone.
pub proof fn law_aggregated_units_come_apart(pending: Seq<u8>, header: u8, units: Seq<Seq<u8>>)
    requires
        header % 32 == 24,
        units.len() > 0,
        forall|i: int| 0 <= i < units.len() ==> (#[trigger] units[i]).len() <= 0xffff,
    ensures
        can_depacketize(seq![header] + aggregated(units)),
        units_in(pending, seq![header] + aggregated(units)) == marked_off(units),
        pending_after(pending, seq![header] + aggregated(units)) == pending,
{
    let payload = seq![header] + aggregated(units);
    assert(payload.skip(1) =~= aggregated(units));
    assert(payload[0] == header);
    assert(aggregated(units).len() >= 2);
    lemma_aggregate(payload, 1, units);
}

proof fn lemma_aggregate_and_more(
    payload: Seq<u8>,
    offset: int,
    units: Seq<Seq<u8>>,
    tail: Seq<u8>,
)
    requires
        0 <= offset <= payload.len(),
        payload.skip(offset) == aggregated(units) + tail,
        forall|i: int| 0 <= i < units.len() ==> (#[trigger] units[i]).len() <= 0xffff,
        tail.len() == 1 || (tail.len() >= 2 && tail[0] * 256 + tail[1] > tail.len() - 2),
    ensures
        lengths_are_whole(payload, offset) <==> tail.len() >= 2,
        tail.len() >= 2 ==> aggregate_units(payload, offset) is None,
    decreases units.len(),
{
    let rest = payload.skip(offset);
    if units.len() == 0 {
        assert(rest =~= tail);
        assert(rest[0] == payload[offset]);
        if tail.len() >= 2 {
            assert(rest[1] == payload[offset + 1]);
            assert(unit_length(payload, offset) == tail[0] * 256 + tail[1]);
        }
    } else {
        let unit = units[0];
        assert(unit.len() <= 0xffff);
        let later = units.skip(1);
        assert forall|i: int| 0 <= i < later.len() implies (#[trigger] later[i]).len() <= 0xffff by {
            assert(later[i] == units[i + 1]);
        }
        let size = 2 + unit.len() as int;
        let next = offset + size;
        assert(rest.len() == size + aggregated(later).len() + tail.len());
        assert(rest[0] == payload[offset] && rest[1] == payload[offset + 1]);
        assert(rest[0] == (unit.len() / 256) as u8 && rest[1] == (unit.len() % 256) as u8);
        assert(unit_length(payload, offset) == unit.len());
        assert(payload.skip(next) =~= rest.skip(size));
        assert(rest.skip(size) =~= aggregated(later) + tail);
        lemma_aggregate_and_more(payload, next, later, tail);
    }
}

/// An aggregate that ends in the middle of a NAL unit adds nothing at all. One
/// that ends in the middle of a length cannot be depacketized.
pub proof fn law_an_aggregate_that_is_cut_off_adds_nothing(
    pending: Seq<u8>,
    header: u8,
    units: Seq<Seq<u8>>,
    tail: Seq<u8>,
)
    requires
        header % 32 == 24,
        forall|i: int| 0 <= i < units.len() ==> (#[trigger] units[i]).len() <= 0xffff,
        tail.len() == 1 || (tail.len() >= 2 && tail[0] * 256 + tail[1] > tail.len() - 2),
        units.len() > 0 || tail.len() >= 2,
    ensures
        ({
            let payload = seq![header] + aggregated(units) + tail;
            &&& can_depacketize(payload) <==> tail.len() >= 2
            &&& tail.len() >= 2 ==> units_in(pending, payload) == Seq::<u8>::empty()
            &&& pending_after(pending, payload) == pending
        }),
{
    let payload = seq![header] + aggregated(units) + tail;
    assert(payload.skip(1) =~= aggregated(units) + tail);
    assert(payload[0] == header);
    assert(units.len() > 0 ==> aggregated(units).len() >= 2);
    lemma_aggregate_and_more(payload, 1, units, tail);
}

/// Whatever is no aggregate can be depacketized.
pub proof fn law_only_an_aggregate_can_be_refused(payload: Seq<u8>)
    requires
        payload.len() <= 2 || payload[0] % 32 != 24,
    ensures
        can_depacketize(payload),
{
}

/// `s` with `row` written over it from `at` on.
pub open spec fn written(s: Seq<u8>, at: int, row: Seq<u8>) -> Seq<u8> {
    Seq::new(
        s.len(),
        |i: int|
            if at <= i < at + row.len() {
                row[i - at]
            } else {
                s[i]
            },
    )
}

/// `before` with the first `rows` rows of a tightly packed picture written
/// over it, each `stride` bytes after the one before.
pub open spec fn laid_out(
    before: Seq<u8>,
    rgba: Seq<u8>,
    row_bytes: int,
    stride: int,
    rows: int,
) -> Seq<u8>
    decreases rows,
{
    if rows <= 0 {
        before
    } else {
        written(
            laid_out(before, rgba, row_bytes, stride, rows - 1),
            (rows - 1) * stride,
            rgba.subrange((rows - 1) * row_bytes, rows * row_bytes),
        )
    }
}

fn copy_row(dst: &mut [u8], at: usize, rgba: &[u8], from: usize, len: usize)
    requires
        at + len <= old(dst)@.len(),
        from + len <= rgba@.len(),
    ensures
        final(dst)@ == written(
            old(dst)@,
            at as int,
            rgba@.subrange(from as int, from + len),
        ),
{
    let ghost before = dst@;
    let room: usize = dst.len();
    let available: usize = rgba.len();
    let mut x: usize = 0;
    while x < len
        invariant
            x <= len,
            room == before.len(),
            available == rgba@.len(),
            at + len <= before.len(),
            dst@.len() == before.len(),
            from + len <= rgba@.len(),
            dst@ == written(before, at as int, rgba@.subrange(from as int, from + x)),
        decreases len - x,
    {
        dst[at + x] = rgba[from + x];
        x = x + 1;
        assert(dst@ =~= written(before, at as int, rgba@.subrange(from as int, from + x)));
    }
    assert(dst@ =~= written(before, at as int, rgba@.subrange(from as int, from + len)));
}

/// Whether a tightly packed picture of these dimensions can be laid out: the
/// buffer holds all its rows, and there is room for them.
pub open spec fn rows_fit_in(
    available: int,
    width: u32,
    height: u32,
    stride: usize,
    room: int,
) -> bool {
    &&& width * 4 <= u32::MAX
    &&& height * (width * 4) <= available
    &&& height > 0 ==> (height - 1) * stride + width * 4 <= room
}

/// Whether a tightly packed picture of these dimensions can be laid out in a
/// buffer of `room` bytes.
pub fn rows_fit(rgba: &[u8], width: u32, height: u32, stride: usize, room: usize) -> (r: bool)
    ensures
        r == rows_fit_in(rgba@.len() as int, width, height, stride, room as int),
{
    if width > 0x3fff_ffff {
        return false;
    }
    let row_bytes: u128 = width as u128 * 4;
    let rows: u128 = height as u128;
    let step: u128 = stride as u128;
    assert(rows * row_bytes <= 0xffff_ffff * 0xffff_ffff) by (nonlinear_arith)
        requires
            rows <= 0xffff_ffff,
            row_bytes <= 0xffff_ffff,
    ;
    if rows * row_bytes > rgba.len() as u128 {
        return false;
    }
    if height == 0 {
        return true;
    }
    assert((rows - 1) * step <= 0xffff_ffff * 0xffff_ffff_ffff_ffff) by (nonlinear_arith)
        requires
            0 < rows <= 0xffff_ffff,
            step <= 0xffff_ffff_ffff_ffff,
    ;
    (rows - 1) * step + row_bytes <= room as u128
}

/// Lays a tightly packed RGBA picture out for a codec whose rows are `stride`
/// bytes apart. What lies between the rows is left alone.
pub fn pack_rows(rgba: &[u8], width: u32, height: u32, stride: usize, dst: &mut [u8])
    requires
        rows_fit_in(rgba@.len() as int, width, height, stride, old(dst)@.len() as int),
    ensures
        final(dst)@ == laid_out(old(dst)@, rgba@, width * 4, stride as int, height as int),
{
    let ghost before = dst@;
    let room: usize = dst.len();
    let available: usize = rgba.len();
    let row_bytes: usize = (width * 4) as usize;
    let mut y: u32 = 0;
    let mut at: usize = 0;
    let mut from: usize = 0;
    while y < height
        invariant
            y <= height,
            room == before.len(),
            available == rgba@.len(),
            row_bytes == width * 4,
            height * row_bytes <= rgba@.len(),
            height > 0 ==> (height - 1) * stride + row_bytes <= before.len(),
            dst@.len() == before.len(),
            from == y * row_bytes,
            y < height ==> at == y * stride,
            dst@ == laid_out(before, rgba@, row_bytes as int, stride as int, y as int),
        decreases height - y,
    {
        assert(y * stride <= (height - 1) * stride && (y + 1) * row_bytes <= height * row_bytes
            && (y + 1) * row_bytes == y * row_bytes + row_bytes) by (nonlinear_arith)
            requires
                y < height,
                stride >= 0,
                row_bytes >= 0,
        ;
        copy_row(dst, at, rgba, from, row_bytes);
        y = y + 1;
        from = from + row_bytes;
        if y < height {
            assert(y * stride <= (height - 1) * stride && y * stride == (y - 1) * stride + stride)
                by (nonlinear_arith)
                requires
                    0 < y < height,
                    stride >= 0,
            ;
            at = at + stride;
        }
    }
}

proof fn lemma_laid_out_len(
    before: Seq<u8>,
    rgba: Seq<u8>,
    row_bytes: int,
    stride: int,
    rows: int,
)
    ensures
        laid_out(before, rgba, row_bytes, stride, rows).len() == before.len(),
    decreases rows,
{
    if rows > 0 {
        lemma_laid_out_len(before, rgba, row_bytes, stride, rows - 1);
    }
}

/// Every pixel is where the codec looks for it: row by row, `stride` bytes
/// apart.
pub proof fn law_every_pixel_is_in_its_row(
    before: Seq<u8>,
    rgba: Seq<u8>,
    row_bytes: int,
    stride: int,
    rows: int,
    y: int,
    x: int,
)
    requires
        0 <= row_bytes <= stride,
        rows * row_bytes <= rgba.len(),
        (rows - 1) * stride + row_bytes <= before.len(),
        0 <= y < rows,
        0 <= x < row_bytes,
    ensures
        laid_out(before, rgba, row_bytes, stride, rows)[y * stride + x] == rgba[y * row_bytes + x],
    decreases rows,
{
    lemma_laid_out_len(before, rgba, row_bytes, stride, rows - 1);
    let last = rows - 1;
    assert(y * stride <= last * stride && 0 <= y * stride && 0 <= y * row_bytes && (y + 1)
        * row_bytes <= rows * row_bytes && (y + 1) * row_bytes == y * row_bytes + row_bytes)
        by (nonlinear_arith)
        requires
            0 <= y <= last,
            rows == last + 1,
            0 <= row_bytes,
            0 <= stride,
    ;
    if y < last {
        assert((y + 1) * stride <= last * stride && (y + 1) * stride == y * stride + stride && (last
            - 1) * stride <= last * stride && last * row_bytes <= rows * row_bytes)
            by (nonlinear_arith)
            requires
                0 <= y < last,
                rows == last + 1,
                0 <= row_bytes,
                0 <= stride,
        ;
        law_every_pixel_is_in_its_row(before, rgba, row_bytes, stride, last, y, x);
    }
}

/// Nothing but the rows is written: a byte that lies in none of them keeps its
/// value.
pub proof fn law_padding_is_left_alone(
    before: Seq<u8>,
    rgba: Seq<u8>,
    row_bytes: int,
    stride: int,
    rows: int,
    i: int,
)
    requires
        0 <= row_bytes,
        0 <= rows,
        rows * row_bytes <= rgba.len(),
        0 <= i < before.len(),
        forall|y: int| 0 <= y < rows ==> !(#[trigger] (y * stride) <= i < y * stride + row_bytes),
    ensures
        laid_out(before, rgba, row_bytes, stride, rows)[i] == before[i],
    decreases rows,
{
    if rows > 0 {
        lemma_laid_out_len(before, rgba, row_bytes, stride, rows - 1);
        assert((rows - 1) * row_bytes <= rows * row_bytes && rows * row_bytes == (rows - 1)
            * row_bytes + row_bytes && 0 <= (rows - 1) * row_bytes) by (nonlinear_arith)
            requires
                0 <= row_bytes,
                rows > 0,
        ;
        let last = rows - 1;
        assert(!(last * stride <= i < last * stride + row_bytes));
        law_padding_is_left_alone(before, rgba, row_bytes, stride, last, i);
    }
}

/// Where rows overlap, the later one is on top: a byte in some row is that of
/// the last row over it. The buffer keeps its length.
pub proof fn law_the_last_row_is_on_top(
    before: Seq<u8>,
    rgba: Seq<u8>,
    row_bytes: int,
    stride: int,
    rows: int,
    y: int,
    i: int,
)
    requires
        0 <= row_bytes,
        rows * row_bytes <= rgba.len(),
        0 <= y < rows,
        0 <= i < before.len(),
        y * stride <= i < y * stride + row_bytes,
        forall|later: int|
            y < later < rows ==> !(#[trigger] (later * stride) <= i < later * stride + row_bytes),
    ensures
        laid_out(before, rgba, row_bytes, stride, rows).len() == before.len(),
        laid_out(before, rgba, row_bytes, stride, rows)[i] == rgba[y * row_bytes + (i - y * stride)],
    decreases rows,
{
    lemma_laid_out_len(before, rgba, row_bytes, stride, rows);
    lemma_laid_out_len(before, rgba, row_bytes, stride, rows - 1);
    let last = rows - 1;
    assert(last * row_bytes <= rows * row_bytes && rows * row_bytes == last * row_bytes + row_bytes
        && 0 <= last * row_bytes) by (nonlinear_arith)
        requires
            0 <= row_bytes,
            0 <= last,
            rows == last + 1,
    ;
    if y < last {
        assert(!(last * stride <= i < last * stride + row_bytes));
        law_the_last_row_is_on_top(before, rgba, row_bytes, stride, last, y, i);
    }
}

/// A picture fits if and only if its rows can be counted in 32 bits and each
/// of them lies whole in the picture's bytes and in the room.
pub proof fn law_a_picture_fits_row_by_row(
    available: int,
    width: u32,
    height: u32,
    stride: usize,
    room: int,
)
    requires
        0 <= available,
    ensures
        rows_fit_in(available, width, height, stride, room) <==> {
            &&& width <= 0x3fff_ffff
            &&& forall|y: int|
                0 <= y < height ==> #[trigger] ((y + 1) * (width * 4)) <= available && y * stride
                    + width * 4 <= room
        },
{
    let row_bytes = width * 4;
    if rows_fit_in(available, width, height, stride, room) {
        assert forall|y: int| 0 <= y < height implies #[trigger] ((y + 1) * row_bytes) <= available
            && y * stride + row_bytes <= room by {
            assert((y + 1) * row_bytes <= height * row_bytes && y * stride <= (height - 1) * stride)
                by (nonlinear_arith)
                requires
                    0 <= y < height,
                    0 <= row_bytes,
                    0 <= stride,
            ;
        }
    }
    if width <= 0x3fff_ffff && (forall|y: int|
        0 <= y < height ==> #[trigger] ((y + 1) * (width * 4)) <= available && y * stride + width
            * 4 <= room) {
        if height > 0 {
            let y = height - 1;
            assert((y + 1) * (width * 4) <= available);
        } else {
            assert(height * row_bytes == 0) by (nonlinear_arith)
                requires
                    height == 0,
            ;
        }
    }
}

/// How the encoder of preview pictures is set up.
#[derive(Debug, Clone, Copy)]
pub struct JpegSettings {
    pub width: u32,
    pub height: u32,
    /// One tick, in seconds, as a fraction.
    pub time_base: (i32, i32),
    pub bit_rate: usize,
}

/// The settings for preview pictures of these dimensions.
pub fn jpeg_settings(width: u32, height: u32) -> (settings: JpegSettings)
    ensures
        settings == (JpegSettings { width, height, time_base: (1, 90), bit_rate: 6_000_000 }),
{
    JpegSettings { width, height, time_base: (1, 90), bit_rate: 6_000_000 }
}

/// The head of the response that a preview client gets: one part after the
/// other, each replacing the one before.
pub open spec fn stream_header_text() -> Seq<char> {
    "HTTP/1.1 200 OK\r\nContent-Type: multipart/x-mixed-replace; boundary=frame\r\nCache-Control: no-cache\r\nConnection: close\r\n\r\n"@
}

/// The head of the response that a preview client gets.
pub fn stream_header() -> (header: String)
    ensures
        header@ == stream_header_text(),
        header@ == "HTTP/1.1 200 OK\r\nContent-Type: multipart/x-mixed-replace; boundary=frame\r\nCache-Control: no-cache\r\nConnection: close\r\n\r\n"@,
{
    "HTTP/1.1 200 OK\r\nContent-Type: multipart/x-mixed-replace; boundary=frame\r\nCache-Control: no-cache\r\nConnection: close\r\n\r\n".to_owned()
}

/// What stands before a picture of `len` bytes in the preview stream.
pub open spec fn part_header_text(len: nat) -> Seq<char> {
    "--frame\r\nContent-Type: image/jpeg\r\nContent-Length: "@ + text::decimal_text(len)
        + "\r\n\r\n"@
}

/// What stands before a picture in the preview stream. It says how many bytes
/// the picture has.
pub fn part_header(jpeg: &[u8]) -> (header: String)
    ensures
        header@ == part_header_text(jpeg@.len()),
{
    "--frame\r\nContent-Type: image/jpeg\r\nContent-Length: ".to_owned().concat(
        text::decimal(jpeg.len() as u64).as_str(),
    ).concat("\r\n\r\n")
}

/// What stands before a picture is the boundary that the head of the response
/// announces, the type of a picture, and the number of its bytes.
pub proof fn law_a_part_says_how_long_its_picture_is(len: nat)
    ensures
        exists|numeral: Seq<char>|
            part_header_text(len) == "--frame\r\nContent-Type: image/jpeg\r\nContent-Length: "@
                + numeral + "\r\n\r\n"@ && #[trigger] text::is_numeral(numeral)
                && text::decimal_value(numeral) == len,
{
    text::law_a_numeral_stands_for_its_number(len);
    assert(text::is_numeral(text::decimal_text(len)));
}

/// What stands after a picture in the preview stream.
pub fn part_end() -> (end: String)
    ensures
        end@ == "\r\n"@,
{
    "\r\n".to_owned()
}

/// Where the preview stream of a server that listens on `addr` is.
pub fn stream_url(addr: &str) -> (url: String)
    ensures
        url@ == "http://"@ + addr@ + "/stream"@,
{
    "http://".to_owned().concat(addr).concat("/stream")
}

} // verus!
