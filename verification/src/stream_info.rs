//! What a media file says of its audio: which track is played, its sample format, and how its
//! length is known.
use vstd::arithmetic::div_mod::*;
use vstd::arithmetic::power2::*;
use vstd::prelude::*;

verus! {

/// The codecs that the player tells apart.
#[derive(Clone, Copy, Debug, PartialEq, Eq, Structural)]
pub enum Codec {
    /// Not audio.
    Null,
    Flac,
    PcmS16le,
    PcmS24le,
    PcmS32le,
    PcmF32le,
    Other,
}

/// The unit of a track's time stamps, in seconds: `numer / denom`.
#[derive(Clone, Copy, Debug, PartialEq, Eq, Structural)]
pub struct TimeUnit {
    pub numer: u32,
    pub denom: u32,
}

/// What the container says of one track.
#[derive(Clone, Copy, Debug, PartialEq, Eq, Structural)]
pub struct StreamTrack {
    pub id: u32,
    pub codec: Codec,
    pub sample_rate: Option<u32>,
    /// One bit for each channel that is present.
    pub channel_mask: Option<u32>,
    pub bits_per_sample: Option<u32>,
    pub time_unit: Option<TimeUnit>,
    pub n_frames: Option<u64>,
}

impl StreamTrack {
    /// The length can be worked out: where it is given in time units, the unit is above zero.
    pub open spec fn wf(self) -> bool {
        match self.time_unit {
            Some(unit) => self.n_frames is Some ==> unit.numer > 0 && unit.denom > 0,
            None => true,
        }
    }
}

/// How the length of a track is known.
#[derive(Clone, Copy, Debug, PartialEq, Eq, Structural)]
pub enum DurationBasis {
    Unknown,
    /// Whole seconds, and the bit pattern of the 64-bit fraction of a second on top of them.
    Timed { seconds: u64, fraction_bits: u64 },
    /// The file's size over the bytes that a second of audio takes.
    Estimated { file_size: u64, sample_rate: u32, channels: u32, bit_depth: u32 },
}

/// The format of the audio that is played.
#[derive(Clone, Copy, Debug, PartialEq, Eq, Structural)]
pub struct AudioInfo {
    pub sample_rate: u32,
    pub channels: u32,
    pub bit_depth: u32,
    /// The bit pattern of the length in seconds, a 64-bit floating-point number.
    pub duration_bits: u64,
}

/// Why a file cannot be played.
#[derive(Clone, Copy, Debug, PartialEq, Eq, Structural)]
pub enum StreamError {
    NoAudioTracks,
}

/// The track to play and its format.
#[derive(Clone, Copy, Debug, PartialEq, Eq, Structural)]
pub struct StreamPlan {
    pub track_index: usize,
    pub track_id: u32,
    pub sample_rate: u32,
    pub channels: u32,
    pub bit_depth: u32,
    pub duration: DurationBasis,
}

/// The number of ones in the binary form of `n`.
pub open spec fn ones(n: nat) -> nat
    decreases n,
{
    if n == 0 {
        0
    } else {
        n % 2 + ones(n / 2)
    }
}

/// The channels that a mask names: its ones below the 26th position.
pub open spec fn mask_channels(mask: u32) -> nat {
    ones((mask % 0x0400_0000) as nat)
}

/// Calls `symphonia::core::audio::Channels::count`, which counts the ones of the mask. The
/// positions that no channel has are cut off before.
#[verifier::external_body]
fn count_channels(mask: u32) -> (r: usize)
    ensures
        r == mask_channels(mask),
        r <= 26,
{
    symphonia::core::audio::Channels::from_bits_truncate(mask).count()
}

/// The bit pattern of the fraction of a second that `TimeBase::calc_time` finds. How that
/// fraction is rounded is not restated here.
pub uninterp spec fn time_fraction(n_frames: u64, numer: u32, denom: u32) -> u64;

/// The whole seconds in `n_frames` time units, wrapped to 64 bits.
pub open spec fn whole_seconds(n_frames: u64, numer: u32, denom: u32) -> int {
    ((n_frames * numer) / (denom as int)) % 0x1_0000_0000_0000_0000
}

/// Calls `symphonia::core::units::TimeBase::calc_time`, which panics where a part of the unit is
/// zero. The whole seconds are the exact quotient, wrapped where it is more than 64 bits hold;
/// the fraction on top depends on the arguments alone.
#[verifier::external_body]
fn calc_time(n_frames: u64, numer: u32, denom: u32) -> (r: (u64, u64))
    requires
        numer > 0,
        denom > 0,
    ensures
        r.0 == whole_seconds(n_frames, numer, denom),
        r.1 == time_fraction(n_frames, numer, denom),
{
    let time = symphonia::core::units::TimeBase::new(numer, denom).calc_time(n_frames);
    (time.seconds, time.frac.to_bits())
}

/// The bits per sample, as the container says or else as the codec implies.
pub open spec fn bit_depth_of(track: StreamTrack) -> u32 {
    match track.bits_per_sample {
        Some(bits) => bits,
        None => match track.codec {
            Codec::Flac | Codec::PcmS24le => 24,
            Codec::PcmS32le | Codec::PcmF32le => 32,
            _ => 16,
        },
    }
}

/// The number of channels; two where the container does not say.
pub open spec fn channels_of(track: StreamTrack) -> nat {
    match track.channel_mask {
        Some(mask) => mask_channels(mask),
        None => 2,
    }
}

/// The samples per second; 44100 where the container does not say.
pub open spec fn sample_rate_of(track: StreamTrack) -> u32 {
    match track.sample_rate {
        Some(rate) => rate,
        None => 44100,
    }
}

/// Whether `basis` is how the length of `track` is known. Without a time unit it is not known;
/// with a number of frames it is that many units; else it is estimated from the file's size,
/// where the sample rate is known.
pub open spec fn duration_known_by(
    basis: DurationBasis,
    track: StreamTrack,
    file_size: u64,
    bit_depth: u32,
    channels: u32,
) -> bool {
    match track.time_unit {
        None => basis == DurationBasis::Unknown,
        Some(unit) => match track.n_frames {
            Some(n) => basis matches DurationBasis::Timed { seconds, fraction_bits } && {
                &&& seconds == whole_seconds(n, unit.numer, unit.denom)
                &&& fraction_bits == time_fraction(n, unit.numer, unit.denom)
            },
            None => match track.sample_rate {
                Some(sample_rate) => basis == (DurationBasis::Estimated {
                    file_size,
                    sample_rate,
                    channels,
                    bit_depth,
                }),
                None => basis == DurationBasis::Unknown,
            },
        },
    }
}

/// How the length of a track is known.
pub fn compute_duration(
    track: &StreamTrack,
    file_size: u64,
    bit_depth: u32,
    channels: u32,
) -> (r: DurationBasis)
    requires
        track.wf(),
    ensures
        duration_known_by(r, *track, file_size, bit_depth, channels),
{
    match track.time_unit {
        None => DurationBasis::Unknown,
        Some(unit) => match track.n_frames {
            Some(n) => {
                let (seconds, fraction_bits) = calc_time(n, unit.numer, unit.denom);
                DurationBasis::Timed { seconds, fraction_bits }
            },
            None => match track.sample_rate {
                Some(sample_rate) => DurationBasis::Estimated {
                    file_size,
                    sample_rate,
                    channels,
                    bit_depth,
                },
                None => DurationBasis::Unknown,
            },
        },
    }
}

/// The bits per sample of a track.
pub fn bit_depth(track: &StreamTrack) -> (r: u32)
    ensures
        r == bit_depth_of(*track),
{
    match track.bits_per_sample {
        Some(bits) => bits,
        None => match track.codec {
            Codec::Flac => 24,
            Codec::PcmS16le => 16,
            Codec::PcmS24le => 24,
            Codec::PcmS32le => 32,
            Codec::PcmF32le => 32,
            _ => 16,
        },
    }
}

/// The number of channels of a track.
pub fn channel_count(track: &StreamTrack) -> (r: u32)
    ensures
        r == channels_of(*track),
{
    match track.channel_mask {
        Some(mask) => count_channels(mask) as u32,
        None => 2,
    }
}

/// The first track that holds audio.
pub open spec fn is_first_audio(tracks: Seq<StreamTrack>, index: int) -> bool {
    &&& 0 <= index < tracks.len()
    &&& tracks[index].codec != Codec::Null
    &&& forall|i: int| 0 <= i < index ==> (#[trigger] tracks[i]).codec == Codec::Null
}

/// Whether no track holds audio.
pub open spec fn no_audio(tracks: Seq<StreamTrack>) -> bool {
    forall|i: int| 0 <= i < tracks.len() ==> (#[trigger] tracks[i]).codec == Codec::Null
}

/// Finds the first track that holds audio.
pub fn first_audio_track(tracks: &[StreamTrack]) -> (r: Option<usize>)
    ensures
        match r {
            Some(index) => is_first_audio(tracks@, index as int),
            None => no_audio(tracks@),
        },
{
    let n: usize = tracks.len();
    for i in 0..n
        invariant
            n == tracks@.len(),
            forall|k: int| 0 <= k < i ==> (#[trigger] tracks@[k]).codec == Codec::Null,
    {
        if tracks[i].codec != Codec::Null {
            return Some(i);
        }
    }
    None
}

/// Picks the track to play and finds its format. It fails exactly where no track holds audio.
pub fn plan_stream(tracks: &[StreamTrack], file_size: u64) -> (r: Result<StreamPlan, StreamError>)
    requires
        forall|i: int| #[trigger] is_first_audio(tracks@, i) ==> tracks@[i].wf(),
    ensures
        match r {
            Ok(plan) => {
                &&& is_first_audio(tracks@, plan.track_index as int)
                &&& plan.track_id == tracks@[plan.track_index as int].id
                &&& plan.sample_rate == sample_rate_of(tracks@[plan.track_index as int])
                &&& plan.channels == channels_of(tracks@[plan.track_index as int])
                &&& plan.bit_depth == bit_depth_of(tracks@[plan.track_index as int])
                &&& duration_known_by(
                    plan.duration,
                    tracks@[plan.track_index as int],
                    file_size,
                    plan.bit_depth,
                    plan.channels,
                )
            },
            Err(error) => error == StreamError::NoAudioTracks && no_audio(tracks@),
        },
{
    match first_audio_track(tracks) {
        None => Err(StreamError::NoAudioTracks),
        Some(track_index) => {
            let track = tracks[track_index];
            let sample_rate: u32 = match track.sample_rate {
                Some(rate) => rate,
                None => 44100,
            };
            let channels: u32 = channel_count(&track);
            let bit_depth: u32 = bit_depth(&track);
            let duration = compute_duration(&track, file_size, bit_depth, channels);
            Ok(
                StreamPlan {
                    track_index,
                    track_id: track.id,
                    sample_rate,
                    channels,
                    bit_depth,
                    duration,
                },
            )
        },
    }
}

impl StreamPlan {
    /// The format, once the length is worked out.
    pub fn info(&self, duration_bits: u64) -> (r: AudioInfo)
        ensures
            r == (AudioInfo {
                sample_rate: self.sample_rate,
                channels: self.channels,
                bit_depth: self.bit_depth,
                duration_bits,
            }),
    {
        AudioInfo {
            sample_rate: self.sample_rate,
            channels: self.channels,
            bit_depth: self.bit_depth,
            duration_bits,
        }
    }
}

impl StreamError {
    /// What the user is told.
    pub fn message(&self) -> (r: &'static str)
        ensures
            r@ == "No audio tracks found"@,
    {
        "No audio tracks found"
    }
}

/// The bytes to buffer when reading a file: a tenth of it, at least 64 KiB and at most 1 MiB.
pub open spec fn read_buffer_size_of(file_size: u64) -> int {
    let tenth = file_size as int / 10;
    if tenth < 0x1_0000 {
        0x1_0000
    } else if tenth > 0x10_0000 {
        0x10_0000
    } else {
        tenth
    }
}

/// The bytes to buffer when reading a file.
pub fn read_buffer_size(file_size: u64) -> (r: usize)
    ensures
        r == read_buffer_size_of(file_size),
{
    let tenth: u64 = file_size / 10;
    if tenth < 0x1_0000 {
        0x1_0000
    } else if tenth > 0x10_0000 {
        0x10_0000
    } else {
        tenth as usize
    }
}

/// A file is planned exactly where some track holds audio, and it is the first of these that is
/// played, whatever stands before or behind it.
pub proof fn law_first_audio_track_is_played(
    tracks: &[StreamTrack],
    file_size: u64,
    planned: Result<StreamPlan, StreamError>,
    at: int,
)
    requires
        call_ensures(plan_stream, (tracks, file_size), planned),
        0 <= at < tracks@.len(),
        tracks@[at].codec != Codec::Null,
        forall|i: int| 0 <= i < at ==> (#[trigger] tracks@[i]).codec == Codec::Null,
    ensures
        planned matches Ok(plan) && plan.track_index == at && plan.track_id == tracks@[at].id,
{
}

/// Where no track holds audio there is no plan.
pub proof fn law_nothing_is_played_without_audio(
    tracks: &[StreamTrack],
    file_size: u64,
    planned: Result<StreamPlan, StreamError>,
)
    requires
        call_ensures(plan_stream, (tracks, file_size), planned),
        forall|i: int| 0 <= i < tracks@.len() ==> (#[trigger] tracks@[i]).codec == Codec::Null,
    ensures
        planned == Err::<StreamPlan, StreamError>(StreamError::NoAudioTracks),
{
}

/// What the container says of the format is what is planned: the sample rate, and the bits of a
/// sample, are those of the track that is played, whatever they are. Where it does not say, the
/// rate is that of a compact disc, there are two channels, and the codec tells the bits.
pub proof fn law_plan_has_the_format_of_the_track(
    tracks: &[StreamTrack],
    file_size: u64,
    plan: StreamPlan,
)
    requires
        call_ensures(plan_stream, (tracks, file_size), Ok::<StreamPlan, StreamError>(plan)),
    ensures
        ({
            let track = tracks@[plan.track_index as int];
            &&& track.sample_rate matches Some(rate) ==> plan.sample_rate == rate
            &&& track.sample_rate is None ==> plan.sample_rate == 44100
            &&& track.bits_per_sample matches Some(bits) ==> plan.bit_depth == bits
            &&& track.bits_per_sample is None ==> {
                &&& track.codec == Codec::Flac ==> plan.bit_depth == 24
                &&& track.codec == Codec::PcmS16le ==> plan.bit_depth == 16
                &&& track.codec == Codec::PcmS24le ==> plan.bit_depth == 24
                &&& track.codec == Codec::PcmS32le ==> plan.bit_depth == 32
                &&& track.codec == Codec::PcmF32le ==> plan.bit_depth == 32
                &&& track.codec == Codec::Other ==> plan.bit_depth == 16
            }
            &&& track.channel_mask is None ==> plan.channels == 2
            &&& track.channel_mask == Some(0u32) ==> plan.channels == 0
        }),
{
    assert(ones(0) == 0);
}

/// One more channel in the mask is one more channel that is played.
pub proof fn law_every_position_of_the_mask_counts(
    tracks: &[StreamTrack],
    others: &[StreamTrack],
    file_size: u64,
    plan: StreamPlan,
    other: StreamPlan,
    mask: u32,
    position: nat,
)
    requires
        call_ensures(plan_stream, (tracks, file_size), Ok::<StreamPlan, StreamError>(plan)),
        call_ensures(plan_stream, (others, file_size), Ok::<StreamPlan, StreamError>(other)),
        position < 26,
        mask < 0x0400_0000,
        (mask as nat / pow2(position)) % 2 == 0,
        mask + pow2(position) < 0x0400_0000,
        tracks@[plan.track_index as int].channel_mask == Some(mask),
        others@[other.track_index as int].channel_mask == Some((mask + pow2(position)) as u32),
    ensures
        other.channels == plan.channels + 1,
{
    lemma_one_more(mask as nat, position);
}

proof fn lemma_one_more(n: nat, position: nat)
    requires
        (n / pow2(position)) % 2 == 0,
    ensures
        ones(n + pow2(position)) == ones(n) + 1,
    decreases position,
{
    lemma_pow2_pos(position);
    if position == 0 {
        lemma2_to64();
        assert(n / 1 == n);
        assert((n + 1) / 2 == n / 2);
        assert(ones(n + 1) == (n + 1) % 2 + ones((n + 1) / 2));
        if n > 0 {
            assert(ones(n) == n % 2 + ones(n / 2));
        } else {
            assert(ones(0) == 0);
        }
    } else {
        let unit = pow2((position - 1) as nat);
        lemma_pow2_unfold(position);
        lemma_pow2_pos((position - 1) as nat);
        assert(pow2(position) == 2 * unit);
        lemma_div_denominator(n as int, 2, unit as int);
        assert((n / 2) / unit == n / pow2(position));
        lemma_one_more(n / 2, (position - 1) as nat);
        assert((n + 2 * unit) / 2 == n / 2 + unit);
        assert((n + 2 * unit) % 2 == n % 2);
        assert(ones(n + 2 * unit) == (n + 2 * unit) % 2 + ones((n + 2 * unit) / 2));
        if n > 0 {
            assert(ones(n) == n % 2 + ones(n / 2));
        } else {
            assert(n / 2 == 0);
            assert(ones(0) == 0);
        }
    }
}

/// The length of a track is known from its own frames where it counts them and says how long one
/// is: as many whole seconds as they fill, as long as 64 bits hold that. With a time unit but no
/// count it is estimated, from the size of the file and the format of the track; without a unit, or
/// with neither count nor rate, it is not known.
pub proof fn law_length_is_that_of_the_frames(
    tracks: &[StreamTrack],
    file_size: u64,
    plan: StreamPlan,
)
    requires
        call_ensures(plan_stream, (tracks, file_size), Ok::<StreamPlan, StreamError>(plan)),
        tracks@[plan.track_index as int].wf(),
    ensures
        ({
            let track = tracks@[plan.track_index as int];
            &&& track.time_unit is None ==> plan.duration == DurationBasis::Unknown
            &&& track.time_unit matches Some(unit) ==> (track.n_frames matches Some(n) ==> {
                &&& plan.duration is Timed
                &&& n * unit.numer < 0x1_0000_0000_0000_0000 * unit.denom ==> {
                    &&& plan.duration->seconds * unit.denom <= n * unit.numer
                    &&& n * unit.numer < (plan.duration->seconds + 1) * unit.denom
                }
            })
            &&& track.time_unit is Some && track.n_frames is None ==> {
                &&& track.sample_rate matches Some(rate) ==> plan.duration
                    == (DurationBasis::Estimated {
                    file_size,
                    sample_rate: rate,
                    channels: plan.channels,
                    bit_depth: plan.bit_depth,
                })
                &&& track.sample_rate is None ==> plan.duration == DurationBasis::Unknown
            }
        }),
{
    let track = tracks@[plan.track_index as int];
    if let (Some(unit), Some(n)) = (track.time_unit, track.n_frames) {
        let total = n * unit.numer;
        let denom = unit.denom as int;
        let whole = total / denom;
        assert(0 <= total) by (nonlinear_arith)
            requires
                total == n * unit.numer,
        ;
        lemma_fundamental_div_mod(total, denom);
        lemma_mod_bound(total, denom);
        if total < 0x1_0000_0000_0000_0000 * denom {
            assert(0 <= whole < 0x1_0000_0000_0000_0000 && whole * denom <= total && total < (whole
                + 1) * denom) by (nonlinear_arith)
                requires
                    denom > 0,
                    0 <= total < 0x1_0000_0000_0000_0000 * denom,
                    total == denom * whole + total % denom,
                    0 <= total % denom < denom,
            ;
        }
    }
}

/// A file is read in pieces of a tenth of its size, but never of less than 64 KiB nor of more than
/// 1 MiB, and a larger file is never read in smaller pieces.
pub proof fn law_pieces_are_a_tenth_of_the_file(file_size: u64, larger: u64)
    requires
        file_size <= larger,
    ensures
        65536 <= read_buffer_size_of(file_size) <= 1048576,
        655360 <= file_size < 10485770 ==> 10 * read_buffer_size_of(file_size) <= file_size < 10 * (
        read_buffer_size_of(file_size) + 1),
        file_size < 655360 ==> read_buffer_size_of(file_size) == 65536,
        file_size >= 10485760 ==> read_buffer_size_of(file_size) == 1048576,
        read_buffer_size_of(file_size) <= read_buffer_size_of(larger),
{
}

/// A file is read in pieces of a tenth of its size, within the two bounds.
pub proof fn law_reading_in_pieces(file_size: u64, r: usize)
    requires
        call_ensures(read_buffer_size, (file_size,), r),
    ensures
        65536 <= r <= 1048576,
        655360 <= file_size < 10485760 ==> 10 * r <= file_size < 10 * (r + 1),
        file_size < 655360 ==> r == 65536,
        file_size >= 10485760 ==> r == 1048576,
{
    law_pieces_are_a_tenth_of_the_file(file_size, file_size);
}

/// How the length of a track is known depends on what the track itself says, and on the size of the
/// file, the bits and the channels where it is estimated.
pub proof fn law_knowing_the_length(
    track: &StreamTrack,
    file_size: u64,
    bits: u32,
    channels: u32,
    r: DurationBasis,
)
    requires
        call_ensures(compute_duration, (track, file_size, bits, channels), r),
    ensures
        track.time_unit is None ==> r == DurationBasis::Unknown,
        track.time_unit is Some && track.n_frames is Some ==> r is Timed,
        track.time_unit is Some && track.n_frames is None ==> {
            &&& track.sample_rate matches Some(rate) ==> r == (DurationBasis::Estimated {
                file_size,
                sample_rate: rate,
                channels,
                bit_depth: bits,
            })
            &&& track.sample_rate is None ==> r == DurationBasis::Unknown
        },
{
}

} // verus!
