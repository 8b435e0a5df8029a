//! Decoding a file: which packets are decoded, what an error means, and how the planes of
//! decoded audio become interleaved samples.
use vstd::arithmetic::div_mod::*;
use vstd::arithmetic::mul::*;
use vstd::prelude::*;

use crate::metadata::{all_metadata, merge_all_metadata, MetadataRevision, TrackMetadata};
use crate::stream_info::{
    bit_depth_of, channels_of, duration_known_by, is_first_audio, no_audio, plan_stream, AudioInfo,
    Codec, DurationBasis, StreamError, StreamPlan, StreamTrack,
};

verus! {

/// What reading the next packet came to.
#[derive(Clone, Copy, Debug, PartialEq, Eq, Structural)]
pub enum ReadEvent {
    Packet { track_id: u32 },
    /// The end of the file, or any other failure to read it.
    IoError,
    /// The tracks have changed; the decoder must start anew.
    ResetRequired,
    OtherError,
}

/// What is done about it.
#[derive(Clone, Copy, Debug, PartialEq, Eq, Structural)]
pub enum ReadAction {
    Decode,
    /// Read the next packet.
    ReadOn,
    /// Reset the decoder, then read the next packet.
    ResetAndReadOn,
    /// The file has come to its end: no samples.
    EndOfFile,
    Fail,
}

/// What decoding a packet came to.
#[derive(Clone, Copy, Debug, PartialEq, Eq, Structural)]
pub enum DecodeEvent {
    Decoded,
    /// The packet is malformed.
    DecodeError,
    OtherError,
}

/// What is done about it.
#[derive(Clone, Copy, Debug, PartialEq, Eq, Structural)]
pub enum DecodeAction {
    Deliver,
    /// Read the next packet.
    ReadOn,
    Fail,
}

/// What is done about a packet when `track` is decoded: packets of other tracks are passed over,
/// and a file that cannot be read further is at its end.
pub open spec fn read_action(track: u32, event: ReadEvent) -> ReadAction {
    match event {
        ReadEvent::Packet { track_id } => if track_id == track {
            ReadAction::Decode
        } else {
            ReadAction::ReadOn
        },
        ReadEvent::IoError => ReadAction::EndOfFile,
        ReadEvent::ResetRequired => ReadAction::ResetAndReadOn,
        ReadEvent::OtherError => ReadAction::Fail,
    }
}

/// What is done about a packet that went to the decoder: a malformed one is passed over.
pub open spec fn decode_action(event: DecodeEvent) -> DecodeAction {
    match event {
        DecodeEvent::Decoded => DecodeAction::Deliver,
        DecodeEvent::DecodeError => DecodeAction::ReadOn,
        DecodeEvent::OtherError => DecodeAction::Fail,
    }
}

/// What came of reading a packet, and of decoding it where it was decoded.
pub struct PacketEvent {
    pub read: ReadEvent,
    pub decode: DecodeEvent,
}

/// What asking for samples comes to.
pub enum DecodeResult {
    /// The samples of the packet at the index.
    Samples(int),
    /// No samples: the end of the file.
    EndOfFile,
    Failed,
    /// Every packet was passed over.
    Pending,
}

/// Whether the packet is passed over.
pub open spec fn passed_over(track: u32, event: PacketEvent) -> bool {
    match read_action(track, event.read) {
        ReadAction::ReadOn | ReadAction::ResetAndReadOn => true,
        ReadAction::Decode => decode_action(event.decode) == DecodeAction::ReadOn,
        ReadAction::EndOfFile | ReadAction::Fail => false,
    }
}

/// What asking for samples comes to, when the packets from `from` on are read one by one.
pub open spec fn decode_run(track: u32, events: Seq<PacketEvent>, from: int) -> DecodeResult
    decreases events.len() - from,
{
    if from >= events.len() {
        DecodeResult::Pending
    } else {
        let event = events[from];
        match read_action(track, event.read) {
            ReadAction::Decode => match decode_action(event.decode) {
                DecodeAction::Deliver => DecodeResult::Samples(from),
                DecodeAction::ReadOn => decode_run(track, events, from + 1),
                DecodeAction::Fail => DecodeResult::Failed,
            },
            ReadAction::ReadOn | ReadAction::ResetAndReadOn => decode_run(track, events, from + 1),
            ReadAction::EndOfFile => DecodeResult::EndOfFile,
            ReadAction::Fail => DecodeResult::Failed,
        }
    }
}

/// The samples that are handed out are those of the first packet that is not passed over, and
/// that packet is of the decoded track.
pub proof fn law_first_good_packet_is_delivered(
    track: u32,
    events: Seq<PacketEvent>,
    from: int,
    at: int,
)
    requires
        0 <= from <= at < events.len(),
        forall|i: int| from <= i < at ==> passed_over(track, #[trigger] events[i]),
        !passed_over(track, events[at]),
    ensures
        decode_run(track, events, from) == match read_action(track, events[at].read) {
            ReadAction::Decode => if events[at].decode == DecodeEvent::Decoded {
                DecodeResult::Samples(at)
            } else {
                DecodeResult::Failed
            },
            ReadAction::EndOfFile => DecodeResult::EndOfFile,
            _ => DecodeResult::Failed,
        },
        decode_run(track, events, from) is Samples ==> events[at].read == (ReadEvent::Packet {
            track_id: track,
        }),
    decreases at - from,
{
    if from < at {
        assert(passed_over(track, events[from]));
        law_first_good_packet_is_delivered(track, events, from + 1, at);
    }
}

/// A file that is being decoded.
#[derive(Debug)]
pub struct FileDecoder {
    track_id: u32,
    info: AudioInfo,
    meta: TrackMetadata,
    /// Decoded samples that have not been handed out yet.
    pending: Vec<u32>,
}

/// The samples that one block hands out: as many whole frames as fit into `capacity` samples, and
/// all where they fit.
pub open spec fn block_len(pending: nat, capacity: nat, channels: u32) -> nat {
    if pending <= capacity {
        pending
    } else if channels == 0 {
        capacity
    } else {
        (capacity - capacity % (channels as nat)) as nat
    }
}

impl FileDecoder {
    /// The track that is decoded.
    pub closed spec fn track(self) -> u32 {
        self.track_id
    }

    /// The format of its audio.
    pub closed spec fn format(self) -> AudioInfo {
        self.info
    }

    /// What is known of it.
    pub closed spec fn metadata(self) -> TrackMetadata {
        self.meta
    }

    /// The decoded samples that have not been handed out yet.
    pub closed spec fn pending(self) -> Seq<u32> {
        self.pending@
    }

    /// A file with its track picked and the length of that worked out. What is known of it is
    /// what was found while probing it, then what its container holds.
    pub fn open(
        plan: &StreamPlan,
        duration_bits: u64,
        probed: &[MetadataRevision],
        container: &[MetadataRevision],
    ) -> (r: FileDecoder)
        ensures
            r.track() == plan.track_id,
            r.format() == (AudioInfo {
                sample_rate: plan.sample_rate,
                channels: plan.channels,
                bit_depth: plan.bit_depth,
                duration_bits,
            }),
            r.metadata()@ == all_metadata(probed@, container@),
            r.pending() == Seq::<u32>::empty(),
    {
        FileDecoder {
            track_id: plan.track_id,
            info: plan.info(duration_bits),
            meta: merge_all_metadata(probed, container),
            pending: Vec::new(),
        }
    }

    /// Whether the track, the format and the metadata are the same.
    pub open spec fn same_file(self, other: FileDecoder) -> bool {
        &&& self.track() == other.track()
        &&& self.format() == other.format()
        &&& self.metadata() == other.metadata()
    }

    /// Whether decoded samples have not been handed out yet.
    pub fn has_pending(&self) -> (r: bool)
        ensures
            r == (self.pending().len() > 0),
    {
        self.pending.len() > 0
    }

    /// Takes the samples of a decoded packet, after those that have not been handed out yet.
    pub fn accept(&mut self, samples: Vec<u32>)
        ensures
            final(self).same_file(*old(self)),
            final(self).pending() == old(self).pending() + samples@,
    {
        let mut more = samples;
        self.pending.append(&mut more);
    }

    /// Hands out a block of at most `capacity` decoded samples. The rest waits for the next
    /// block.
    pub fn take_block(&mut self, capacity: usize) -> (r: Vec<u32>)
        ensures
            final(self).same_file(*old(self)),
            ({
                let n = block_len(
                    old(self).pending().len(),
                    capacity as nat,
                    old(self).format().channels,
                ) as int;
                &&& r@ == old(self).pending().take(n)
                &&& final(self).pending() == old(self).pending().skip(n)
            }),
    {
        let held: usize = self.pending.len();
        let n: usize = if held <= capacity {
            held
        } else if self.info.channels == 0 {
            capacity
        } else {
            proof {
                lemma_mod_decreases(capacity as nat, self.info.channels as nat);
            }
            capacity - capacity % (self.info.channels as usize)
        };
        let rest = self.pending.split_off(n);
        let mut block = rest;
        std::mem::swap(&mut block, &mut self.pending);
        assert(block@ =~= old(self).pending().take(n as int));
        assert(self.pending@ =~= old(self).pending().skip(n as int));
        block
    }

    /// Drops what has not been handed out, when the file goes to another position.
    pub fn on_seek(&mut self)
        ensures
            final(self).same_file(*old(self)),
            final(self).pending() == Seq::<u32>::empty(),
    {
        self.pending = Vec::new();
    }

    /// The track that is decoded.
    pub fn get_track_id(&self) -> (r: u32)
        ensures
            r == self.track(),
    {
        self.track_id
    }

    /// The format of the audio.
    pub fn get_info(&self) -> (r: &AudioInfo)
        ensures
            *r == self.format(),
    {
        &self.info
    }

    /// What is known of the track.
    pub fn get_metadata(&self) -> (r: &TrackMetadata)
        ensures
            *r == self.metadata(),
    {
        &self.meta
    }

    /// Decides what is done about a packet: only packets of the track are decoded, and a file
    /// that cannot be read further is at its end.
    pub fn on_read(&self, event: ReadEvent) -> (r: ReadAction)
        ensures
            r == read_action(self.track(), event),
    {
        match event {
            ReadEvent::Packet { track_id } => if track_id != self.track_id {
                ReadAction::ReadOn
            } else {
                ReadAction::Decode
            },
            ReadEvent::IoError => ReadAction::EndOfFile,
            ReadEvent::ResetRequired => ReadAction::ResetAndReadOn,
            ReadEvent::OtherError => ReadAction::Fail,
        }
    }

    /// Decides what is done about a decoded packet: a malformed one is skipped.
    pub fn on_decode(&self, event: DecodeEvent) -> (r: DecodeAction)
        ensures
            r == decode_action(event),
    {
        match event {
            DecodeEvent::Decoded => DecodeAction::Deliver,
            DecodeEvent::DecodeError => DecodeAction::ReadOn,
            DecodeEvent::OtherError => DecodeAction::Fail,
        }
    }
}

/// Nothing of a packet is lost for want of room: what a block hands out and what waits are
/// together what was there, in order. A block has no more samples than asked for, holds something
/// where something waits and a frame fits, and a block that leaves a rest is of whole frames.
pub proof fn law_blocks_lose_nothing(pending: Seq<u32>, capacity: nat, channels: u32)
    requires
        channels > 0,
    ensures
        ({
            let n = block_len(pending.len(), capacity, channels) as int;
            &&& pending == pending.take(n) + pending.skip(n)
            &&& pending.take(n).len() <= capacity
            &&& pending.len() > 0 && capacity >= channels ==> pending.take(n).len() > 0
            &&& pending.skip(n).len() > 0 ==> pending.take(n).len() % (channels as nat) == 0
        }),
{
    let n = block_len(pending.len(), capacity, channels) as int;
    lemma_fundamental_div_mod(capacity as int, channels as int);
    lemma_mod_bound(capacity as int, channels as int);
    lemma_mul_is_commutative(channels as int, capacity as int / (channels as int));
    lemma_mod_multiples_basic(capacity as int / (channels as int), channels as int);
    assert(pending =~= pending.take(n) + pending.skip(n));
}

/// What is known of a file, and how its length is known. It fails exactly where no track holds
/// audio.
pub fn probe_metadata(
    tracks: &[StreamTrack],
    file_size: u64,
    probed: &[MetadataRevision],
    container: &[MetadataRevision],
) -> (r: Result<(TrackMetadata, DurationBasis), StreamError>)
    requires
        forall|i: int| #[trigger] is_first_audio(tracks@, i) ==> tracks@[i].wf(),
    ensures
        match r {
            Ok((meta, basis)) => {
                &&& meta@ == all_metadata(probed@, container@)
                &&& exists|at: int| #[trigger]
                    is_first_audio(tracks@, at) && duration_known_by(
                        basis,
                        tracks@[at],
                        file_size,
                        bit_depth_of(tracks@[at]),
                        channels_of(tracks@[at]) as u32,
                    )
            },
            Err(error) => error == StreamError::NoAudioTracks && no_audio(tracks@),
        },
{
    match plan_stream(tracks, file_size) {
        Ok(plan) => {
            assert(is_first_audio(tracks@, plan.track_index as int));
            Ok((merge_all_metadata(probed, container), plan.duration))
        },
        Err(error) => Err(error),
    }
}

/// Interleaved samples of the first `width` planes: frame after frame, and within a frame plane
/// after plane.
pub open spec fn interleaved<T>(planes: Seq<&[T]>, width: nat, frames: nat) -> Seq<T> {
    Seq::new(
        frames * width,
        |k: int| planes[k % (width as int)]@[k / (width as int)],
    )
}

/// The planes that go into a frame.
pub open spec fn frame_width(planes: nat, channels: u32) -> nat {
    if channels < planes {
        channels as nat
    } else {
        planes
    }
}

/// The frames that go into `capacity` samples.
pub open spec fn frames_to_copy(plane_len: nat, capacity: nat, channels: u32) -> nat {
    if plane_len < capacity / (channels as nat) {
        plane_len
    } else {
        capacity / (channels as nat)
    }
}

/// Whether the planes can be interleaved: there is one, there are channels, and every plane that
/// goes into a frame holds the frames that are copied.
pub open spec fn planes_suffice<T>(planes: Seq<&[T]>, capacity: nat, channels: u32) -> bool {
    &&& planes.len() > 0
    &&& channels > 0
    &&& forall|ch: int|
        0 <= ch < frame_width(planes.len(), channels) ==> (#[trigger] planes[ch])@.len()
            >= frames_to_copy(planes[0]@.len(), capacity, channels)
}

/// Interleaves planes of one channel each, as many frames as fit into `capacity` samples.
pub fn interleave_planes<T: Copy>(planes: &[&[T]], capacity: usize, channels: u32) -> (r: Vec<T>)
    requires
        planes_suffice(planes@, capacity as nat, channels),
    ensures
        r@ == interleaved(
            planes@,
            frame_width(planes@.len(), channels),
            frames_to_copy(planes@[0]@.len(), capacity as nat, channels),
        ),
{
    let count: usize = planes.len();
    let per_frame: usize = channels as usize;
    let width: usize = if per_frame < count {
        per_frame
    } else {
        count
    };
    let room: usize = capacity / per_frame;
    let frames: usize = if planes[0].len() < room {
        planes[0].len()
    } else {
        room
    };
    let mut out: Vec<T> = Vec::new();
    let mut frame: usize = 0;
    while frame < frames
        invariant
            planes_suffice(planes@, capacity as nat, channels),
            width == frame_width(planes@.len(), channels),
            width > 0,
            frames == frames_to_copy(planes@[0]@.len(), capacity as nat, channels),
            frame <= frames,
            out@ == interleaved(planes@, width as nat, frame as nat),
        decreases frames - frame,
    {
        let mut ch: usize = 0;
        while ch < width
            invariant
                planes_suffice(planes@, capacity as nat, channels),
                width == frame_width(planes@.len(), channels),
                width > 0,
                frames == frames_to_copy(planes@[0]@.len(), capacity as nat, channels),
                frame < frames,
                ch <= width,
                out@.len() == frame * width + ch,
                forall|k: int|
                    0 <= k < out@.len() ==> out@[k] == planes@[k % (width as int)]@[k / (
                    width as int)],
            decreases width - ch,
        {
            assert(planes@[ch as int]@.len() >= frames);
            let sample = planes[ch][frame];
            proof {
                lemma_fundamental_div_mod_converse(
                    frame * width + ch,
                    width as int,
                    frame as int,
                    ch as int,
                );
                lemma_mul_is_commutative(frame as int, width as int);
            }
            out.push(sample);
            ch = ch + 1;
        }
        proof {
            lemma_mul_is_distributive_add_other_way(width as int, frame as int, 1);
            assert((frame + 1) * width == frame * width + width);
        }
        frame = frame + 1;
        assert(out@ =~= interleaved(planes@, width as nat, frame as nat));
    }
    out
}

/// The interleaved samples of decoded planes. A single plane is taken as it is, as many samples
/// as fit; more planes hold one channel each.
pub open spec fn interleaved_output<T>(planes: Seq<&[T]>, capacity: nat, channels: u32) -> Seq<T> {
    if planes.len() == 1 {
        if planes[0]@.len() < capacity {
            planes[0]@
        } else {
            planes[0]@.take(capacity as int)
        }
    } else {
        interleaved(
            planes,
            frame_width(planes.len(), channels),
            frames_to_copy(planes[0]@.len(), capacity, channels),
        )
    }
}

/// Turns decoded planes into at most `capacity` interleaved samples.
pub fn convert_planar_to_interleaved<T: Copy>(
    planes: &[&[T]],
    capacity: usize,
    channels: u32,
) -> (r: Vec<T>)
    requires
        planes@.len() == 1 || planes_suffice(planes@, capacity as nat, channels),
    ensures
        r@ == interleaved_output(planes@, capacity as nat, channels),
{
    if planes.len() == 1 {
        let plane = planes[0];
        let count: usize = if plane.len() < capacity {
            plane.len()
        } else {
            capacity
        };
        let mut out: Vec<T> = Vec::new();
        for i in 0..count
            invariant
                plane@ == planes@[0]@,
                count <= plane@.len(),
                out@ == plane@.take(i as int),
        {
            out.push(plane[i]);
            assert(plane@.take(i + 1) =~= plane@.take(i as int).push(plane@[i as int]));
        }
        assert(out@ =~= interleaved_output(planes@, capacity as nat, channels));
        return out;
    }
    interleave_planes(planes, capacity, channels)
}

/// The samples that a whole packet may take, at most what can be counted.
pub open spec fn packet_capacity_of(plane_len: nat, channels: u32) -> nat {
    let wanted = if channels == 0 {
        plane_len
    } else {
        plane_len * (channels as nat)
    };
    if wanted <= usize::MAX {
        wanted
    } else {
        usize::MAX as nat
    }
}

/// The samples that a whole packet may take.
pub fn packet_capacity(plane_len: usize, channels: u32) -> (r: usize)
    ensures
        r == packet_capacity_of(plane_len as nat, channels),
{
    if channels == 0 {
        return plane_len;
    }
    match plane_len.checked_mul(channels as usize) {
        Some(wanted) => wanted,
        None => usize::MAX,
    }
}

/// With room for the whole packet, every frame of it is converted.
pub proof fn law_whole_packet_is_converted<T>(planes: Seq<&[T]>, channels: u32)
    requires
        planes.len() > 0,
        channels > 0,
        planes[0]@.len() * (channels as nat) <= usize::MAX,
    ensures
        ({
            let capacity = packet_capacity_of(planes[0]@.len(), channels);
            interleaved_output(planes, capacity, channels) == if planes.len() == 1 {
                planes[0]@
            } else {
                interleaved(planes, frame_width(planes.len(), channels), planes[0]@.len())
            }
        }),
{
    let len = planes[0]@.len();
    let capacity = packet_capacity_of(len, channels);
    lemma_div_by_multiple(len as int, channels as int);
    if planes.len() == 1 {
        assert(len <= capacity) by (nonlinear_arith)
            requires
                capacity == len * (channels as nat),
                channels > 0,
        ;
        if len == capacity {
            assert(planes[0]@.take(capacity as int) =~= planes[0]@);
        }
    }
}

/// Nothing is lost in interleaving: the sample of a channel in a frame stands in that frame, at
/// the place of that channel.
pub proof fn law_interleaving_keeps_every_sample<T>(
    planes: Seq<&[T]>,
    width: nat,
    frames: nat,
    frame: nat,
    channel: nat,
)
    requires
        frame < frames,
        channel < width,
    ensures
        frame * width + channel < interleaved(planes, width, frames).len(),
        interleaved(planes, width, frames)[(frame * width + channel) as int]
            == planes[channel as int]@[frame as int],
{
    lemma_mul_is_commutative(frame as int, width as int);
    lemma_fundamental_div_mod_converse(
        (frame * width + channel) as int,
        width as int,
        frame as int,
        channel as int,
    );
    assert(frame * width + channel < frames * width) by (nonlinear_arith)
        requires
            frame < frames,
            channel < width,
    ;
}

/// The output never has more samples than there is room for.
pub proof fn law_interleaving_fits<T>(planes: Seq<&[T]>, capacity: nat, channels: u32)
    requires
        planes.len() == 1 || planes_suffice(planes, capacity, channels),
    ensures
        interleaved_output(planes, capacity, channels).len() <= capacity,
{
    if planes.len() != 1 {
        let width = frame_width(planes.len(), channels);
        let frames = frames_to_copy(planes[0]@.len(), capacity, channels);
        lemma_fundamental_div_mod(capacity as int, channels as int);
        assert(frames * width <= capacity) by (nonlinear_arith)
            requires
                frames <= capacity / (channels as nat),
                width <= channels,
                channels > 0,
                capacity as int == (channels as int) * (capacity as int / (channels as int)) + (
                capacity as int % (channels as int)),
                0 <= capacity as int % (channels as int),
        ;
    }
}

/// A file plays at its own sample rate: where the first audio track says one, the file can be
/// planned, and both the plan and the decoder that is opened from it have that very rate. So it is
/// with the bits of a sample, and the decoder takes the packets of that track.
pub proof fn law_file_plays_at_its_own_rate(
    tracks: &[StreamTrack],
    file_size: u64,
    planned: Result<StreamPlan, StreamError>,
    duration_bits: u64,
    probed: &[MetadataRevision],
    container: &[MetadataRevision],
    decoder: FileDecoder,
    at: int,
)
    requires
        call_ensures(plan_stream, (tracks, file_size), planned),
        planned matches Ok(plan) ==> call_ensures(
            FileDecoder::open,
            (&plan, duration_bits, probed, container),
            decoder,
        ),
        0 <= at < tracks@.len(),
        tracks@[at].codec != Codec::Null,
        forall|i: int| 0 <= i < at ==> (#[trigger] tracks@[i]).codec == Codec::Null,
    ensures
        planned is Ok,
        tracks@[at].sample_rate matches Some(rate) ==> {
            &&& planned->Ok_0.sample_rate == rate
            &&& decoder.format().sample_rate == rate
        },
        tracks@[at].bits_per_sample matches Some(bits) ==> decoder.format().bit_depth == bits,
        tracks@[at].channel_mask is None ==> decoder.format().channels == 2,
        decoder.track() == tracks@[at].id,
        decoder.format().duration_bits == duration_bits,
{
}

/// Exactly the packets of the decoder's own track are decoded; those of other tracks are passed
/// over. A file that cannot be read on is at its end, changed tracks reset the decoder and reading
/// goes on, and any other failure is one.
pub proof fn law_packets_of_the_track_are_decoded(
    decoder: &FileDecoder,
    event: ReadEvent,
    r: ReadAction,
)
    requires
        call_ensures(FileDecoder::on_read, (decoder, event), r),
    ensures
        event matches ReadEvent::Packet { track_id } ==> {
            &&& track_id == decoder.track() ==> r is Decode
            &&& track_id != decoder.track() ==> r is ReadOn
        },
        event is IoError ==> r is EndOfFile,
        event is ResetRequired ==> r is ResetAndReadOn,
        event is OtherError ==> r is Fail,
{
}

/// Decoded samples are delivered, a malformed packet is passed over, and any other failure is one.
pub proof fn law_malformed_packets_are_passed_over(
    decoder: &FileDecoder,
    event: DecodeEvent,
    r: DecodeAction,
)
    requires
        call_ensures(FileDecoder::on_decode, (decoder, event), r),
    ensures
        event is Decoded ==> r is Deliver,
        event is DecodeError ==> r is ReadOn,
        event is OtherError ==> r is Fail,
{
}

/// Asking for samples goes on exactly past packets of other tracks, changed tracks and malformed
/// packets, and comes to a packet of the track that was decoded, to the end of the file, or to a
/// failure, whichever is first.
pub proof fn law_asking_for_samples_stops_at_the_first_that_matters(
    track: u32,
    events: Seq<PacketEvent>,
    at: int,
)
    requires
        0 <= at < events.len(),
        forall|i: int|
            0 <= i < at ==> match (#[trigger] events[i]).read {
                ReadEvent::Packet { track_id } => track_id != track || events[i].decode
                    is DecodeError,
                ReadEvent::ResetRequired => true,
                _ => false,
            },
    ensures
        events[at].read == (ReadEvent::Packet { track_id: track }) && events[at].decode is Decoded
            ==> decode_run(track, events, 0) == DecodeResult::Samples(at),
        events[at].read == (ReadEvent::Packet { track_id: track }) && events[at].decode
            is OtherError ==> decode_run(track, events, 0) is Failed,
        events[at].read is IoError ==> decode_run(track, events, 0) is EndOfFile,
        events[at].read is OtherError ==> decode_run(track, events, 0) is Failed,
{
    assert forall|i: int| 0 <= i < at implies passed_over(track, #[trigger] events[i]) by {}
    if !passed_over(track, events[at]) {
        law_first_good_packet_is_delivered(track, events, 0, at);
    }
}

/// A block is as large as the room allows: it holds everything that waits, or so much that no
/// further whole frame would fit.
pub proof fn law_blocks_are_as_large_as_fits(pending: nat, capacity: nat, channels: u32)
    ensures
        pending <= capacity ==> block_len(pending, capacity, channels) == pending,
        pending > capacity && channels > 0 ==> {
            &&& block_len(pending, capacity, channels) <= capacity
            &&& capacity < block_len(pending, capacity, channels) + channels
            &&& block_len(pending, capacity, channels) % (channels as nat) == 0
        },
        pending > capacity && channels == 0 ==> block_len(pending, capacity, channels) == capacity,
{
    if channels > 0 {
        lemma_fundamental_div_mod(capacity as int, channels as int);
        lemma_mod_bound(capacity as int, channels as int);
        lemma_mul_is_commutative(channels as int, capacity as int / (channels as int));
        lemma_mod_multiples_basic(capacity as int / (channels as int), channels as int);
    }
}

/// A single plane is handed on as it is, up to the room; of several planes the frames that fit are
/// handed on, all of them where there is room, each frame with one sample of each plane, in the
/// order of the planes.
pub proof fn law_output_has_every_frame_that_fits<T>(
    planes: Seq<&[T]>,
    capacity: nat,
    channels: u32,
    frame: nat,
    channel: nat,
)
    requires
        planes.len() > 0,
        channels > 0,
    ensures
        planes.len() == 1 ==> {
            let out = interleaved_output(planes, capacity, channels);
            &&& out.len() <= capacity
            &&& out.len() <= planes[0]@.len()
            &&& out.len() == capacity || out.len() == planes[0]@.len()
            &&& out == planes[0]@.take(out.len() as int)
        },
        planes.len() >= 2 ==> {
            let out = interleaved_output(planes, capacity, channels);
            &&& channels <= planes.len() && channel < channels && frame < planes[0]@.len() && (
            frame + 1) * channels <= capacity ==> {
                &&& frame * channels + channel < out.len()
                &&& out[(frame * channels + channel) as int] == planes[channel as int]@[frame as int]
            }
            &&& channels > planes.len() && channel < planes.len() && frame < planes[0]@.len() && (
            frame + 1) * channels <= capacity ==> {
                &&& frame * planes.len() + channel < out.len()
                &&& out[(frame * planes.len() + channel) as int]
                    == planes[channel as int]@[frame as int]
            }
            &&& out.len() == (if channels < planes.len() {
                channels as nat
            } else {
                planes.len()
            }) * (if planes[0]@.len() * channels <= capacity {
                planes[0]@.len()
            } else {
                capacity / (channels as nat)
            })
        },
{
    let out = interleaved_output(planes, capacity, channels);
    if planes.len() == 1 {
        assert(planes[0]@ =~= planes[0]@.take(planes[0]@.len() as int));
    } else {
        let width = frame_width(planes.len(), channels);
        let frames = frames_to_copy(planes[0]@.len(), capacity, channels);
        lemma_fundamental_div_mod(capacity as int, channels as int);
        lemma_mod_bound(capacity as int, channels as int);
        if frame < planes[0]@.len() && (frame + 1) * channels <= capacity {
            assert(frame < capacity / (channels as nat)) by (nonlinear_arith)
                requires
                    (frame + 1) * channels <= capacity,
                    channels > 0,
                    capacity as int == (channels as int) * (capacity as int / (channels as int)) + (
                    capacity as int % (channels as int)),
                    capacity as int % (channels as int) < channels,
            ;
            if channel < width {
                law_interleaving_keeps_every_sample(planes, width, frames, frame, channel);
            }
        }
        let len = planes[0]@.len();
        let room = capacity / (channels as nat);
        assert(len * channels <= capacity <==> len <= room) by (nonlinear_arith)
            requires
                channels > 0,
                capacity == channels * room + capacity as int % (channels as int),
                0 <= capacity as int % (channels as int) < channels,
        ;
        assert(frames * width == width * frames) by (nonlinear_arith);
    }
}

/// The room for a whole packet is that of its frames times its channels, as long as that can be
/// counted; a packet without channels counts as it is.
pub proof fn law_packet_room_is_frames_times_channels(plane_len: usize, channels: u32, r: usize)
    requires
        call_ensures(packet_capacity, (plane_len, channels), r),
    ensures
        channels == 0 ==> r == plane_len,
        channels > 0 && plane_len * channels <= usize::MAX ==> r == plane_len * channels,
        channels > 0 && plane_len * channels > usize::MAX ==> r == usize::MAX,
{
}

/// Probing a file finds the metadata and the length that opening it does: it succeeds exactly where
/// some track holds audio, and the length is known as that of the first of these.
pub proof fn law_probing_agrees_with_opening(
    tracks: &[StreamTrack],
    file_size: u64,
    probed: &[MetadataRevision],
    container: &[MetadataRevision],
    found: Result<(TrackMetadata, DurationBasis), StreamError>,
    planned: Result<StreamPlan, StreamError>,
    duration_bits: u64,
    decoder: FileDecoder,
)
    requires
        call_ensures(probe_metadata, (tracks, file_size, probed, container), found),
        call_ensures(plan_stream, (tracks, file_size), planned),
        planned matches Ok(plan) ==> call_ensures(
            FileDecoder::open,
            (&plan, duration_bits, probed, container),
            decoder,
        ),
    ensures
        found is Ok <==> planned is Ok,
        found matches Err(error) ==> planned == Err::<StreamPlan, StreamError>(error),
        found matches Ok((meta, basis)) ==> {
            &&& meta@ == decoder.metadata()@
            &&& basis == planned->Ok_0.duration
        },
{
    if let Ok((meta, basis)) = found {
        let at = choose|at: int| #[trigger]
            is_first_audio(tracks@, at) && duration_known_by(
                basis,
                tracks@[at],
                file_size,
                bit_depth_of(tracks@[at]),
                channels_of(tracks@[at]) as u32,
            );
        assert(tracks@[at].codec != Codec::Null);
        if let Ok(plan) = planned {
            let other = plan.track_index as int;
            if at < other {
                assert(tracks@[at].codec == Codec::Null);
            }
            if other < at {
                assert(tracks@[other].codec == Codec::Null);
            }
        }
    } else if let Ok(plan) = planned {
        assert(tracks@[plan.track_index as int].codec != Codec::Null);
    }
}

/// The samples of a packet wait behind those that waited before, and nothing else changes.
pub proof fn law_packets_wait_in_order(decoder: &mut FileDecoder, samples: Vec<u32>)
    requires
        call_ensures(FileDecoder::accept, (decoder, samples), ()),
    ensures
        final(decoder).pending() == old(decoder).pending() + samples@,
        final(decoder).format() == old(decoder).format(),
        final(decoder).track() == old(decoder).track(),
        final(decoder).metadata() == old(decoder).metadata(),
{
}

/// A block and what waits after it are together what waited before, in order. The block is as large
/// as fits: all that waits, or so much that no further whole frame would fit.
pub proof fn law_block_is_the_front_of_what_waits(
    decoder: &mut FileDecoder,
    capacity: usize,
    block: Vec<u32>,
)
    requires
        call_ensures(FileDecoder::take_block, (decoder, capacity), block),
    ensures
        block@ + final(decoder).pending() == old(decoder).pending(),
        block@.len() <= capacity,
        old(decoder).pending().len() <= capacity ==> final(decoder).pending().len() == 0,
        old(decoder).format().channels == 0 && final(decoder).pending().len() > 0 ==> block@.len()
            == capacity,
        old(decoder).format().channels > 0 && final(decoder).pending().len() > 0 ==> capacity
            < block@.len() + old(decoder).format().channels && block@.len() % (
        old(decoder).format().channels as nat) == 0,
        final(decoder).format() == old(decoder).format(),
        final(decoder).track() == old(decoder).track(),
        final(decoder).metadata() == old(decoder).metadata(),
{
    let pending = old(decoder).pending();
    let channels = old(decoder).format().channels;
    let n = block_len(pending.len(), capacity as nat, channels) as int;
    law_blocks_are_as_large_as_fits(pending.len(), capacity as nat, channels);
    assert(pending.take(n) + pending.skip(n) =~= pending);
}

/// Going to another position drops what waits, and nothing else.
pub proof fn law_nothing_waits_after_a_seek(decoder: &mut FileDecoder, waits: bool)
    requires
        call_ensures(FileDecoder::on_seek, (decoder,), ()),
        call_ensures(FileDecoder::has_pending, (&*decoder,), waits),
    ensures
        final(decoder).pending().len() == 0,
        final(decoder).format() == old(decoder).format(),
        final(decoder).track() == old(decoder).track(),
        final(decoder).metadata() == old(decoder).metadata(),
        waits <==> old(decoder).pending().len() > 0,
{
}

/// A decoder tells the track, the format and the metadata that it was opened with.
pub proof fn law_decoder_tells_what_it_was_opened_with(
    plan: &StreamPlan,
    duration_bits: u64,
    probed: &[MetadataRevision],
    container: &[MetadataRevision],
    merged: TrackMetadata,
    decoder: &FileDecoder,
    track: u32,
    info: &AudioInfo,
    meta: &TrackMetadata,
)
    requires
        call_ensures(FileDecoder::open, (plan, duration_bits, probed, container), *decoder),
        call_ensures(merge_all_metadata, (probed, container), merged),
        call_ensures(FileDecoder::get_track_id, (decoder,), track),
        call_ensures(FileDecoder::get_info, (decoder,), info),
        call_ensures(FileDecoder::get_metadata, (decoder,), meta),
    ensures
        track == plan.track_id,
        info.sample_rate == plan.sample_rate,
        info.channels == plan.channels,
        info.bit_depth == plan.bit_depth,
        info.duration_bits == duration_bits,
        meta@ == merged@,
        decoder.pending().len() == 0,
{
}

/// The planes of a packet become its frames: with room for all of it, the sample of each channel in
/// each frame stands in that frame, at the place of that channel, and nothing else is there.
pub proof fn law_planes_become_frames(
    planes: &[&[u32]],
    capacity: usize,
    channels: u32,
    out: Vec<u32>,
    frame: nat,
    channel: nat,
)
    requires
        call_ensures(convert_planar_to_interleaved::<u32>, (planes, capacity, channels), out),
        planes@.len() == channels,
        channels >= 2,
        planes@[0]@.len() * channels <= capacity,
        frame < planes@[0]@.len(),
        channel < channels,
    ensures
        out@.len() == planes@[0]@.len() * channels,
        out@[(frame * channels + channel) as int] == planes@[channel as int]@[frame as int],
{
    let len = planes@[0]@.len();
    assert((frame + 1) * channels <= len * channels) by (nonlinear_arith)
        requires
            frame < len,
    ;
    law_output_has_every_frame_that_fits(planes@, capacity as nat, channels, frame, channel);
    lemma_div_is_ordered((len * channels) as int, capacity as int, channels as int);
    lemma_div_by_multiple(len as int, channels as int);
}

/// A single plane is handed on as it is where there is room for it, and its front where there is
/// not.
pub proof fn law_single_plane_is_handed_on(
    planes: &[&[u32]],
    capacity: usize,
    channels: u32,
    out: Vec<u32>,
)
    requires
        call_ensures(convert_planar_to_interleaved::<u32>, (planes, capacity, channels), out),
        planes@.len() == 1,
    ensures
        planes@[0]@.len() <= capacity ==> out@ == planes@[0]@,
        planes@[0]@.len() > capacity ==> out@ == planes@[0]@.take(capacity as int),
{
    if planes@[0]@.len() == capacity {
        assert(planes@[0]@.take(capacity as int) =~= planes@[0]@);
    }
}

} // verus!
