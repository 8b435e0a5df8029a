//! The playback engine: what plays, how far it has come, and what the audio output is given.
use vstd::arithmetic::div_mod::*;
use vstd::prelude::*;

use crate::float_bits::{
    f32_nan, f32_rank, f32_unit_clamp, f32_unit_clamped, f64_clamp, f64_clamped, f64_is_less,
    f64_less, law_loudness_inside_is_left_alone, F32_FOUR_FIFTHS, F32_ONE, F64_ZERO,
};
use crate::ring::{after_write, write_fits, SampleRing};
use crate::stream_info::AudioInfo;

verus! {

/// The number of samples that the queue between decoder and output holds.
pub const RING_BUFFER_SIZE: usize = 2_097_152;

/// What the decoder thread is told.
#[derive(Debug)]
pub enum DecoderCommand {
    Play,
    Pause,
    Stop,
    /// Open the file anew and go to a position, given by the bit pattern of its seconds.
    Reload(String, u64),
}

/// What the engine wants done to the audio unit and to the decoder thread.
#[derive(Clone, Copy, Debug, PartialEq, Eq, Structural)]
pub enum Effect {
    /// Set up an audio unit that plays on the device.
    SetUpUnit { device: u32 },
    StartUnit,
    StopUnit,
    SendPlay,
    SendPause,
    SendStop,
    JoinDecoder,
}

/// How far playback has come.
#[derive(Clone, Copy, Debug, PartialEq, Eq, Structural)]
pub enum PositionReading {
    /// Everything has been played: the position is the length of the file.
    AtEnd { duration_bits: u64 },
    /// So many frames have been played, at so many frames a second.
    Played { frames: u64, sample_rate: u32 },
}

/// What the audio output is given.
#[derive(Debug)]
pub struct Rendered {
    /// Interleaved samples, silence after the frames that were read.
    pub samples: Vec<u32>,
    pub frames_read: usize,
}

/// The format of the stream that the audio unit is fed with.
#[derive(Clone, Copy, Debug, PartialEq, Eq, Structural)]
pub struct StreamFormat {
    pub sample_rate: u32,
    pub format_id: u32,
    pub format_flags: u32,
    pub bytes_per_packet: u32,
    pub frames_per_packet: u32,
    pub bytes_per_frame: u32,
    pub channels_per_frame: u32,
    pub bits_per_channel: u32,
}

/// What an audio unit is set up with.
#[derive(Clone, Copy, Debug, PartialEq, Eq, Structural)]
pub struct UnitSettings {
    /// The device that it plays on.
    pub device: u32,
    pub format: StreamFormat,
}

/// The playback engine.
pub struct AudioEngine {
    current_device: u32,
    has_unit: bool,
    sample_rate: u32,
    channels: u32,
    bit_depth: u32,
    duration_bits: u64,
    is_playing: bool,
    position_frames: u64,
    decoded_frames: u64,
    volume_bits: u32,
    current_file_path: Option<String>,
    is_eof: bool,
    ring: Option<SampleRing>,
    has_decoder: bool,
    underrun_count: u64,
    buffer_level: u64,
}

/// The state of an engine.
pub struct EngineState {
    pub current_device: u32,
    /// Whether an audio unit has been set up, for the sample rate and the channels below.
    pub has_unit: bool,
    pub sample_rate: u32,
    pub channels: u32,
    pub bit_depth: u32,
    pub duration_bits: u64,
    pub is_playing: bool,
    /// Frames given to the output.
    pub position_frames: u64,
    /// Frames taken from the decoder.
    pub decoded_frames: u64,
    pub volume_bits: u32,
    pub file_path: Option<Seq<char>>,
    /// Whether the decoder has come to the end of the file.
    pub is_eof: bool,
    /// The queued samples, where a file is loaded.
    pub queue: Option<Seq<u32>>,
    /// Whether a decoder thread takes commands.
    pub has_decoder: bool,
    pub underrun_count: u64,
    /// The number of queued samples when one end of the queue last looked.
    pub buffer_level: u64,
}

impl View for AudioEngine {
    type V = EngineState;

    closed spec fn view(&self) -> EngineState {
        EngineState {
            current_device: self.current_device,
            has_unit: self.has_unit,
            sample_rate: self.sample_rate,
            channels: self.channels,
            bit_depth: self.bit_depth,
            duration_bits: self.duration_bits,
            is_playing: self.is_playing,
            position_frames: self.position_frames,
            decoded_frames: self.decoded_frames,
            volume_bits: self.volume_bits,
            file_path: match self.current_file_path {
                Some(path) => Some(path@),
                None => None,
            },
            is_eof: self.is_eof,
            queue: match self.ring {
                Some(ring) => Some(ring@),
                None => None,
            },
            has_decoder: self.has_decoder,
            underrun_count: self.underrun_count,
            buffer_level: self.buffer_level,
        }
    }
}

/// A volume from zero to one, or not a number.
pub open spec fn volume_in_range(bits: u32) -> bool {
    f32_nan(bits) || 0 <= f32_rank(bits) <= f32_rank(F32_ONE)
}

impl EngineState {
    /// What holds of every engine.
    pub open spec fn valid(self) -> bool {
        &&& volume_in_range(self.volume_bits)
        &&& self.buffer_level <= RING_BUFFER_SIZE
        &&& match self.queue {
            Some(queue) => queue.len() <= RING_BUFFER_SIZE,
            None => true,
        }
    }

    /// The whole frames that can be given to an output that wants `frames` of them.
    pub open spec fn readable_frames(self, frames: nat, channels: nat) -> nat
        recommends
            channels > 0,
    {
        match self.queue {
            Some(queue) => if queue.len() / channels < frames {
                queue.len() / channels
            } else {
                frames
            },
            None => 0,
        }
    }

    /// What an output that wants `frames` frames is given: the oldest queued samples, in whole
    /// frames, and silence after them.
    pub open spec fn rendered(self, frames: nat, channels: nat) -> Seq<u32>
        recommends
            channels > 0,
    {
        let read = self.readable_frames(frames, channels) * channels;
        match self.queue {
            Some(queue) => queue.take(read as int) + silence((frames * channels - read) as nat),
            None => silence(frames * channels),
        }
    }

    /// The state after an output was given `frames` frames. An output that got less than it
    /// wanted counts as an underrun, unless the end of the file has been decoded.
    pub open spec fn after_render(self, frames: nat, channels: nat) -> EngineState
        recommends
            channels > 0,
    {
        let read = self.readable_frames(frames, channels);
        match self.queue {
            Some(queue) => EngineState {
                buffer_level: queue.len() as u64,
                queue: Some(queue.skip((read * channels) as int)),
                underrun_count: if read < frames && !self.is_eof {
                    self.underrun_count.wrapping_add(1)
                } else {
                    self.underrun_count
                },
                position_frames: self.position_frames.wrapping_add(read as u64),
                ..self
            },
            None => self,
        }
    }

    /// Whether playback has come to its end: the file is decoded, and the queue was found empty
    /// or all the decoded frames have been played.
    pub open spec fn finished(self) -> bool {
        self.is_eof && (self.buffer_level == 0 || self.position_frames >= self.decoded_frames)
    }

    /// How far playback has come.
    pub open spec fn position(self) -> PositionReading {
        if self.is_eof && self.buffer_level == 0 && f64_less(F64_ZERO, self.duration_bits) {
            PositionReading::AtEnd { duration_bits: self.duration_bits }
        } else {
            PositionReading::Played {
                frames: self.position_frames,
                sample_rate: if self.sample_rate == 0 {
                    1
                } else {
                    self.sample_rate
                },
            }
        }
    }

    /// A position that is not beyond the end of the file, where its length is known.
    pub open spec fn capped(self, position_bits: u64) -> u64 {
        if f64_less(F64_ZERO, self.duration_bits) && f64_less(self.duration_bits, position_bits) {
            self.duration_bits
        } else {
            position_bits
        }
    }

    /// The stream format of the audio unit: interleaved, packed 32-bit floating-point samples.
    pub open spec fn format(self) -> StreamFormat {
        StreamFormat {
            sample_rate: self.sample_rate,
            format_id: 1819304813,
            format_flags: 9,
            bytes_per_packet: (self.channels * 4) as u32,
            frames_per_packet: 1,
            bytes_per_frame: (self.channels * 4) as u32,
            channels_per_frame: self.channels,
            bits_per_channel: 32,
        }
    }

    /// What has to be done before another file is loaded.
    pub open spec fn unload_effects(self) -> Seq<Effect> {
        effects_if(self.has_decoder, seq![Effect::SendStop, Effect::JoinDecoder]) + effects_if(
            self.has_unit,
            seq![Effect::StopUnit],
        )
    }

    /// What has to be done to play. A unit that is set up for it plays on the current device.
    pub open spec fn play_effects(self) -> Seq<Effect> {
        effects_if(!self.has_unit, seq![Effect::SetUpUnit { device: self.current_device }])
            + effects_if(self.has_decoder, seq![Effect::SendPlay]) + seq![Effect::StartUnit]
    }

    /// What has to be done to pause: the decoder first, then the output.
    pub open spec fn pause_effects(self) -> Seq<Effect> {
        effects_if(self.has_decoder, seq![Effect::SendPause]) + effects_if(
            self.has_unit,
            seq![Effect::StopUnit],
        )
    }

    /// The state once no file is loaded any more.
    pub open spec fn unloaded(self) -> EngineState {
        EngineState { has_decoder: false, is_playing: false, ..self }
    }

    /// Whether a file has the stream format that the audio unit was set up for.
    pub open spec fn same_format(self, info: AudioInfo) -> bool {
        self.sample_rate == info.sample_rate && self.channels == info.channels
    }

    /// The state once `info` and its file are loaded. An audio unit is kept only for a file of
    /// its own stream format; for any other, one has to be set up anew.
    pub open spec fn loaded(self, info: AudioInfo, file_path: Seq<char>) -> EngineState {
        EngineState {
            has_unit: self.has_unit && self.same_format(info),
            sample_rate: info.sample_rate,
            channels: info.channels,
            bit_depth: info.bit_depth,
            duration_bits: info.duration_bits,
            file_path: Some(file_path),
            position_frames: 0,
            decoded_frames: 0,
            underrun_count: 0,
            is_eof: false,
            queue: Some(Seq::empty()),
            has_decoder: true,
            ..self
        }
    }

    /// The state once another output device is chosen. An audio unit that has been set up stops.
    pub open spec fn selected(self, device: u32) -> EngineState {
        EngineState {
            current_device: device,
            is_playing: self.is_playing && !self.has_unit,
            ..self
        }
    }

    /// What has to be done to switch to a device: where an audio unit has been set up, it stops and
    /// is set up anew there.
    pub open spec fn select_effects(self, device: u32) -> Seq<Effect> {
        effects_if(self.has_unit, seq![Effect::StopUnit]) + effects_if(
            self.has_unit && self.has_decoder,
            seq![Effect::SendPause],
        ) + effects_if(self.has_unit, seq![Effect::SetUpUnit { device }])
    }

    /// What has to be done to stop: the output first, then the decoder, which only pauses.
    pub open spec fn stop_effects(self) -> Seq<Effect> {
        effects_if(self.has_unit, seq![Effect::StopUnit]) + effects_if(
            self.has_decoder,
            seq![Effect::SendPause],
        )
    }

    /// The state once an audio unit has been set up.
    pub open spec fn with_unit(self) -> EngineState {
        EngineState { has_unit: true, ..self }
    }

    /// The state once playback has started, or no longer runs.
    pub open spec fn playing(self, is_playing: bool) -> EngineState {
        EngineState { is_playing, ..self }
    }

    /// The state once the volume is set, brought between zero and one.
    pub open spec fn with_volume(self, volume_bits: u32) -> EngineState {
        EngineState { volume_bits: f32_unit_clamped(volume_bits), ..self }
    }

    /// The file to open anew on a seek, and where: none without a decoder thread or a path.
    pub open spec fn seek_order(self, target_bits: u64) -> Option<(Seq<char>, u64)> {
        match self.file_path {
            Some(path) => if self.has_decoder && path.len() > 0 {
                Some((path, target_bits))
            } else {
                None
            },
            None => None,
        }
    }

    /// The state after a seek to the frame `frames`.
    pub open spec fn after_seek(self, frames: u64) -> EngineState {
        EngineState {
            position_frames: frames,
            queue: match self.queue {
                Some(queue) => Some(Seq::empty()),
                None => None,
            },
            ..self
        }
    }
}

/// So many samples of silence.
pub open spec fn silence(n: nat) -> Seq<u32> {
    Seq::new(n, |i: int| 0u32)
}

/// Effects that are wanted only under a condition.
pub open spec fn effects_if(wanted: bool, effects: Seq<Effect>) -> Seq<Effect> {
    if wanted {
        effects
    } else {
        Seq::empty()
    }
}

impl AudioEngine {
    /// The queue, where there is one, is whole and has its full capacity.
    pub closed spec fn ring_ok(self) -> bool {
        match self.ring {
            Some(ring) => ring.wf() && ring.capacity() == RING_BUFFER_SIZE,
            None => true,
        }
    }

    /// The state is valid and the queue has its full capacity.
    pub open spec fn wf(self) -> bool {
        self.ring_ok() && self@.valid()
    }

    /// An engine with nothing loaded, for the given output device.
    pub fn new(default_device: u32) -> (r: AudioEngine)
        ensures
            r.wf(),
            r@ == (EngineState {
                current_device: default_device,
                has_unit: false,
                sample_rate: 44100,
                channels: 2,
                bit_depth: 16,
                duration_bits: F64_ZERO,
                is_playing: false,
                position_frames: 0,
                decoded_frames: 0,
                volume_bits: F32_FOUR_FIFTHS,
                file_path: None,
                is_eof: false,
                queue: None,
                has_decoder: false,
                underrun_count: 0,
                buffer_level: 0,
            }),
    {
        AudioEngine {
            current_device: default_device,
            has_unit: false,
            sample_rate: 44100,
            channels: 2,
            bit_depth: 16,
            duration_bits: F64_ZERO,
            is_playing: false,
            position_frames: 0,
            decoded_frames: 0,
            volume_bits: F32_FOUR_FIFTHS,
            current_file_path: None,
            is_eof: false,
            ring: None,
            has_decoder: false,
            underrun_count: 0,
            buffer_level: 0,
        }
    }

    /// Gives the audio output `frames` frames of `channels` samples.
    pub fn render(&mut self, frames: usize, channels: usize) -> (r: Rendered)
        requires
            old(self).wf(),
            channels > 0,
            frames * channels <= usize::MAX,
        ensures
            final(self).wf(),
            r.frames_read == old(self)@.readable_frames(frames as nat, channels as nat),
            r.samples@ == old(self)@.rendered(frames as nat, channels as nat),
            final(self)@ == old(self)@.after_render(frames as nat, channels as nat),
    {
        let needed: usize = frames * channels;
        let mut samples: Vec<u32> = Vec::new();
        let mut frames_read: usize = 0;
        let ghost queue: Seq<u32> = match self@.queue {
            Some(queue) => queue,
            None => Seq::empty(),
        };
        if let Some(ring) = &mut self.ring {
            let available: usize = ring.held();
            let frames_available: usize = available / channels;
            frames_read = if frames_available < frames {
                frames_available
            } else {
                frames
            };
            proof {
                assert(frames_read * channels <= frames * channels) by (nonlinear_arith)
                    requires
                        frames_read <= frames,
                ;
                assert(frames_read * channels <= available) by (nonlinear_arith)
                    requires
                        frames_read <= available / channels,
                        channels > 0,
                ;
            }
            if let Some(read) = ring.read(frames_read * channels) {
                samples = read;
            }
            self.buffer_level = available as u64;
            if frames_read < frames && !self.is_eof {
                self.underrun_count = self.underrun_count.wrapping_add(1);
            }
            self.position_frames = self.position_frames.wrapping_add(frames_read as u64);
        }
        let ghost read_samples = samples@;
        while samples.len() < needed
            invariant
                read_samples.len() <= samples@.len() <= needed,
                samples@ == read_samples + silence((samples@.len() - read_samples.len()) as nat),
            decreases needed - samples@.len(),
        {
            samples.push(0);
            assert(samples@ =~= read_samples + silence(
                (samples@.len() - read_samples.len()) as nat,
            ));
        }
        assert(samples@ =~= old(self)@.rendered(frames as nat, channels as nat));
        Rendered { samples, frames_read }
    }

    /// What has to be done before another file is loaded: the decoder thread ends and the output
    /// stops.
    pub fn unload(&mut self) -> (r: Vec<Effect>)
        requires
            old(self).wf(),
        ensures
            final(self).wf(),
            final(self)@ == old(self)@.unloaded(),
            r@ == old(self)@.unload_effects(),
    {
        let mut effects: Vec<Effect> = Vec::new();
        if self.has_decoder {
            effects.push(Effect::SendStop);
            effects.push(Effect::JoinDecoder);
        }
        if self.has_unit {
            effects.push(Effect::StopUnit);
        }
        self.has_decoder = false;
        self.is_playing = false;
        assert(effects@ =~= old(self)@.unload_effects());
        effects
    }

    /// Loads a file: its format is taken over, all counts start anew and the queue is empty. An
    /// audio unit of another stream format is given up.
    pub fn load_decoder(&mut self, info: AudioInfo, file_path: String)
        requires
            old(self).wf(),
        ensures
            final(self).wf(),
            final(self)@ == old(self)@.loaded(info, file_path@),
    {
        if self.sample_rate != info.sample_rate || self.channels != info.channels {
            self.has_unit = false;
        }
        self.sample_rate = info.sample_rate;
        self.channels = info.channels;
        self.bit_depth = info.bit_depth;
        self.duration_bits = info.duration_bits;
        self.current_file_path = Some(file_path);
        self.position_frames = 0;
        self.decoded_frames = 0;
        self.underrun_count = 0;
        self.is_eof = false;
        self.ring = Some(SampleRing::new(RING_BUFFER_SIZE));
        self.has_decoder = true;
    }

    /// Switches to another output device. An audio unit that has been set up is stopped and set
    /// up anew, on that device.
    pub fn select_device(&mut self, device_id: u32) -> (r: Vec<Effect>)
        requires
            old(self).wf(),
        ensures
            final(self).wf(),
            final(self)@ == old(self)@.selected(device_id),
            r@ == old(self)@.select_effects(device_id),
    {
        self.current_device = device_id;
        let mut effects: Vec<Effect> = Vec::new();
        if self.has_unit {
            effects = self.stop();
            effects.push(Effect::SetUpUnit { device: device_id });
        }
        assert(effects@ =~= old(self)@.select_effects(device_id));
        effects
    }

    /// The stream format of the audio unit: interleaved, packed 32-bit floating-point samples.
    pub fn stream_format(&self) -> (r: StreamFormat)
        requires
            self@.channels * 4 <= u32::MAX,
        ensures
            r == self@.format(),
    {
        StreamFormat {
            sample_rate: self.sample_rate,
            format_id: 1819304813,
            format_flags: 9,
            bytes_per_packet: self.channels * 4,
            frames_per_packet: 1,
            bytes_per_frame: self.channels * 4,
            channels_per_frame: self.channels,
            bits_per_channel: 32,
        }
    }

    /// What an audio unit is set up with: the current device and the stream format.
    pub fn unit_settings(&self) -> (r: UnitSettings)
        requires
            self@.channels * 4 <= u32::MAX,
        ensures
            r.device == self@.current_device,
            r.format == self@.format(),
    {
        UnitSettings { device: self.current_device, format: self.stream_format() }
    }

    /// Takes note that an audio unit has been set up.
    pub fn unit_set_up(&mut self)
        requires
            old(self).wf(),
        ensures
            final(self).wf(),
            final(self)@ == old(self)@.with_unit(),
    {
        self.has_unit = true;
    }

    /// What has to be done to play.
    pub fn play(&self) -> (r: Vec<Effect>)
        ensures
            r@ == self@.play_effects(),
    {
        let mut effects: Vec<Effect> = Vec::new();
        if !self.has_unit {
            effects.push(Effect::SetUpUnit { device: self.current_device });
        }
        if self.has_decoder {
            effects.push(Effect::SendPlay);
        }
        effects.push(Effect::StartUnit);
        assert(effects@ =~= self@.play_effects());
        effects
    }

    /// Takes note that the audio unit has started.
    pub fn playback_started(&mut self)
        requires
            old(self).wf(),
        ensures
            final(self).wf(),
            final(self)@ == old(self)@.playing(true),
    {
        self.is_playing = true;
    }

    /// Pauses: the decoder first, then the output.
    pub fn pause(&mut self) -> (r: Vec<Effect>)
        requires
            old(self).wf(),
        ensures
            final(self).wf(),
            final(self)@ == old(self)@.playing(false),
            r@ == old(self)@.pause_effects(),
    {
        self.is_playing = false;
        let mut effects: Vec<Effect> = Vec::new();
        if self.has_decoder {
            effects.push(Effect::SendPause);
        }
        if self.has_unit {
            effects.push(Effect::StopUnit);
        }
        assert(effects@ =~= old(self)@.pause_effects());
        effects
    }

    /// Stops: the output first, then the decoder, which only pauses. The position stays.
    pub fn stop(&mut self) -> (r: Vec<Effect>)
        requires
            old(self).wf(),
        ensures
            final(self).wf(),
            final(self)@ == old(self)@.playing(false),
            r@ == old(self)@.stop_effects(),
    {
        self.is_playing = false;
        let mut effects: Vec<Effect> = Vec::new();
        if self.has_unit {
            effects.push(Effect::StopUnit);
        }
        if self.has_decoder {
            effects.push(Effect::SendPause);
        }
        assert(effects@ =~= old(self)@.stop_effects());
        effects
    }

    /// The position that a seek goes to: the wanted one, brought between the start and the end
    /// of the file.
    pub fn seek_target(&self, position_bits: u64) -> (r: u64)
        ensures
            r == f64_clamped(position_bits, self@.duration_bits),
    {
        f64_clamp(position_bits, self.duration_bits)
    }

    /// Seeks to `target_bits` seconds, which is the frame `frames`: the position shows it at
    /// once, what is queued is dropped, and the decoder thread is told to open the file anew
    /// there, where there is such a thread and a file.
    pub fn seek(&mut self, target_bits: u64, frames: u64) -> (r: Option<DecoderCommand>)
        requires
            old(self).wf(),
        ensures
            final(self).wf(),
            final(self)@ == old(self)@.after_seek(frames),
            match old(self)@.seek_order(target_bits) {
                Some((path, position_bits)) => {
                    r matches Some(DecoderCommand::Reload(file, at)) && file@ == path && at
                        == position_bits
                },
                None => r is None,
            },
    {
        self.position_frames = frames;
        if let Some(ring) = &mut self.ring {
            ring.clear();
        }
        if self.has_decoder {
            if let Some(path) = &self.current_file_path {
                if !path.as_str().is_empty() {
                    return Some(DecoderCommand::Reload(path.clone(), target_bits));
                }
            }
        }
        None
    }

    /// Sets the volume, brought between zero and one.
    pub fn set_volume(&mut self, volume_bits: u32)
        requires
            old(self).wf(),
        ensures
            final(self).wf(),
            final(self)@ == old(self)@.with_volume(volume_bits),
    {
        self.volume_bits = f32_unit_clamp(volume_bits);
    }

    /// The volume.
    pub fn get_volume(&self) -> (r: u32)
        ensures
            r == self@.volume_bits,
    {
        self.volume_bits
    }

    /// How far playback has come.
    pub fn get_position(&self) -> (r: PositionReading)
        ensures
            r == self@.position(),
    {
        if self.is_eof && self.buffer_level == 0 && f64_is_less(F64_ZERO, self.duration_bits) {
            return PositionReading::AtEnd { duration_bits: self.duration_bits };
        }
        let sample_rate: u32 = if self.sample_rate == 0 {
            1
        } else {
            self.sample_rate
        };
        PositionReading::Played { frames: self.position_frames, sample_rate }
    }

    /// A position that is not beyond the end of the file, where its length is known.
    pub fn cap_position(&self, position_bits: u64) -> (r: u64)
        ensures
            r == self@.capped(position_bits),
    {
        if f64_is_less(F64_ZERO, self.duration_bits) && f64_is_less(
            self.duration_bits,
            position_bits,
        ) {
            self.duration_bits
        } else {
            position_bits
        }
    }

    /// The frames per second of the loaded file.
    pub fn get_sample_rate(&self) -> (r: u32)
        ensures
            r == self@.sample_rate,
    {
        self.sample_rate
    }

    /// The channels of the loaded file.
    pub fn get_channels(&self) -> (r: u32)
        ensures
            r == self@.channels,
    {
        self.channels
    }

    /// The bits per sample of the loaded file.
    pub fn get_bit_depth(&self) -> (r: u32)
        ensures
            r == self@.bit_depth,
    {
        self.bit_depth
    }

    /// Whether the output device is held for this player alone. It never is.
    pub fn is_exclusive_mode(&self) -> (r: bool)
        ensures
            !r,
    {
        false
    }

    /// The samples queued and the samples that the queue holds.
    pub fn get_buffer_stats(&self) -> (r: (usize, usize))
        requires
            self.wf(),
        ensures
            r.0 == self@.buffer_level,
            r.1 == RING_BUFFER_SIZE,
            r.0 <= r.1,
    {
        (self.buffer_level as usize, RING_BUFFER_SIZE)
    }

    /// How often the output got less than it wanted.
    pub fn get_underrun_count(&self) -> (r: u64)
        ensures
            r == self@.underrun_count,
    {
        self.underrun_count
    }

    /// The length of the loaded file.
    pub fn get_duration(&self) -> (r: u64)
        ensures
            r == self@.duration_bits,
    {
        self.duration_bits
    }

    /// The output device.
    pub fn get_device(&self) -> (r: u32)
        ensures
            r == self@.current_device,
    {
        self.current_device
    }

    /// Whether playback has come to its end.
    pub fn should_stop_playback(&self) -> (r: bool)
        ensures
            r == self@.finished(),
    {
        self.is_eof && (self.buffer_level == 0 || self.position_frames >= self.decoded_frames)
    }

    /// Looks for room in the queue, and takes note of how full it is. Without a queue there is
    /// none.
    pub fn look_for_room(&mut self) -> (r: Option<usize>)
        requires
            old(self).wf(),
        ensures
            final(self).wf(),
            match old(self)@.queue {
                Some(queue) => {
                    &&& r == Some((RING_BUFFER_SIZE - queue.len()) as usize)
                    &&& final(self)@ == (EngineState {
                        buffer_level: queue.len() as u64,
                        ..old(self)@
                    })
                },
                None => r is None && final(self)@ == old(self)@,
            },
    {
        match &self.ring {
            Some(ring) => {
                let free: usize = ring.free();
                self.buffer_level = (RING_BUFFER_SIZE - free) as u64;
                Some(free)
            },
            None => None,
        }
    }

    /// Queues all the samples, or none of them where they do not all fit.
    pub fn queue_samples(&mut self, samples: &[u32]) -> (r: bool)
        requires
            old(self).wf(),
        ensures
            final(self).wf(),
            match old(self)@.queue {
                Some(queue) => {
                    &&& r == write_fits(queue, RING_BUFFER_SIZE as nat, samples@)
                    &&& final(self)@ == (EngineState {
                        queue: Some(after_write(queue, RING_BUFFER_SIZE as nat, samples@)),
                        ..old(self)@
                    })
                },
                None => !r && final(self)@ == old(self)@,
            },
    {
        if let Some(ring) = &mut self.ring {
            ring.write(samples)
        } else {
            false
        }
    }

    /// Takes note of the frames decoded so far.
    pub fn set_decoded(&mut self, frames: u64)
        requires
            old(self).wf(),
        ensures
            final(self).wf(),
            final(self)@ == (EngineState { decoded_frames: frames, ..old(self)@ }),
    {
        self.decoded_frames = frames;
    }

    /// Takes note of whether the decoder has come to the end of the file.
    pub fn set_eof(&mut self, is_eof: bool)
        requires
            old(self).wf(),
        ensures
            final(self).wf(),
            final(self)@ == (EngineState { is_eof, ..old(self)@ }),
    {
        self.is_eof = is_eof;
    }
}

/// An engine starts on the given device with nothing loaded and nothing played, at four fifths of
/// the full volume.
pub proof fn law_engine_starts_empty(default_device: u32, r: AudioEngine)
    requires
        call_ensures(AudioEngine::new, (default_device,), r),
    ensures
        r@.current_device == default_device,
        r@.volume_bits == 0x3f4c_cccd,
        !r@.has_unit && !r@.has_decoder && !r@.is_playing && !r@.is_eof,
        r@.queue is None && r@.file_path is None,
        r@.position_frames == 0 && r@.decoded_frames == 0 && r@.underrun_count == 0,
        r@.buffer_level == 0 && r@.duration_bits == 0,
        r@.sample_rate == 44100 && r@.channels == 2 && r@.bit_depth == 16,
{
}

/// What the engine tells is what it is: its rate, bits, channels, length, device, volume and
/// underruns, and how many samples were last found queued, out of two mebisamples.
pub proof fn law_engine_tells_its_state(
    engine: &AudioEngine,
    rate: u32,
    bits: u32,
    channels: u32,
    duration: u64,
    device: u32,
    volume: u32,
    underruns: u64,
    stats: (usize, usize),
)
    requires
        call_ensures(AudioEngine::get_sample_rate, (engine,), rate),
        call_ensures(AudioEngine::get_bit_depth, (engine,), bits),
        call_ensures(AudioEngine::get_channels, (engine,), channels),
        call_ensures(AudioEngine::get_duration, (engine,), duration),
        call_ensures(AudioEngine::get_device, (engine,), device),
        call_ensures(AudioEngine::get_volume, (engine,), volume),
        call_ensures(AudioEngine::get_underrun_count, (engine,), underruns),
        call_ensures(AudioEngine::get_buffer_stats, (engine,), stats),
    ensures
        rate == engine@.sample_rate,
        bits == engine@.bit_depth,
        channels == engine@.channels,
        duration == engine@.duration_bits,
        device == engine@.current_device,
        volume == engine@.volume_bits,
        underruns == engine@.underrun_count,
        stats.0 == engine@.buffer_level,
        stats.1 == 2 * 1024 * 1024,
{
}

/// A volume from nothing to full is taken as it is, one below as nothing and one above as full; and
/// nothing else changes.
pub proof fn law_volume_is_taken_as_it_is(engine: EngineState, volume_bits: u32)
    ensures
        volume_bits <= 0x3f80_0000 ==> engine.with_volume(volume_bits).volume_bits == volume_bits,
        0x3f80_0000 < volume_bits <= 0x7f80_0000 ==> engine.with_volume(volume_bits).volume_bits
            == 0x3f80_0000,
        0x8000_0000 < volume_bits <= 0xff80_0000 ==> engine.with_volume(volume_bits).volume_bits
            == 0,
        engine.with_volume(volume_bits) == (EngineState {
            volume_bits: engine.with_volume(volume_bits).volume_bits,
            ..engine
        }),
{
    law_loudness_inside_is_left_alone(volume_bits);
}

/// A seek goes to the wanted position where that lies in the file, to its start where it is before
/// that, and to its end where it is beyond.
pub proof fn law_seek_goes_where_it_is_wanted(engine: &AudioEngine, position_bits: u64, r: u64)
    requires
        call_ensures(AudioEngine::seek_target, (engine, position_bits), r),
        engine@.duration_bits <= 0x7ff0_0000_0000_0000,
    ensures
        position_bits <= engine@.duration_bits ==> r == position_bits,
        engine@.duration_bits < position_bits <= 0x7ff0_0000_0000_0000 ==> r
            == engine@.duration_bits,
        0x8000_0000_0000_0000 < position_bits <= 0xfff0_0000_0000_0000 ==> r == 0,
        0x7ff0_0000_0000_0000 < position_bits < 0x8000_0000_0000_0000 || position_bits
            > 0xfff0_0000_0000_0000 ==> r == 0,
{
}

/// After a seek the position is that of the wanted frame and nothing is queued; nothing else
/// changes.
pub proof fn law_seek_changes_position_and_queue(engine: EngineState, frames: u64)
    ensures
        engine.after_seek(frames).position_frames == frames,
        engine.queue is Some ==> engine.after_seek(frames).queue == Some(Seq::<u32>::empty()),
        engine.queue is None ==> engine.after_seek(frames).queue is None,
        engine.after_seek(frames) == (EngineState {
            position_frames: engine.after_seek(frames).position_frames,
            queue: engine.after_seek(frames).queue,
            ..engine
        }),
{
}

/// The decoder thread is told to open the very file that is loaded, at the very position that is
/// sought, wherever there is such a thread and the file has a path; and otherwise nothing.
pub proof fn law_seek_opens_the_loaded_file_anew(
    engine: EngineState,
    path: Seq<char>,
    target_bits: u64,
)
    ensures
        engine.has_decoder && engine.file_path == Some(path) && path.len() > 0
            ==> engine.seek_order(target_bits) == Some((path, target_bits)),
        !engine.has_decoder || engine.file_path is None || engine.file_path == Some(
            Seq::<char>::empty(),
        ) ==> engine.seek_order(target_bits) is None,
{
}

/// Playback is at its end exactly where the file is decoded to its end, and either the queue was
/// found empty or every decoded frame has been played.
pub proof fn law_end_is_told_exactly(engine: &AudioEngine, r: bool)
    requires
        call_ensures(AudioEngine::should_stop_playback, (engine,), r),
    ensures
        !engine@.is_eof ==> !r,
        engine@.is_eof && engine@.buffer_level == 0 ==> r,
        engine@.is_eof && engine@.position_frames >= engine@.decoded_frames ==> r,
        engine@.buffer_level > 0 && engine@.position_frames < engine@.decoded_frames ==> !r,
{
}

/// The position is the frames that were played, over the frames of a second, of which there is at
/// least one; once the file is decoded and the queue was found empty it is the length of the file,
/// where that is known.
pub proof fn law_position_is_what_was_played(engine: &AudioEngine, r: PositionReading)
    requires
        call_ensures(AudioEngine::get_position, (engine,), r),
    ensures
        engine@.is_eof && engine@.buffer_level == 0 && 0 < engine@.duration_bits
            <= 0x7ff0_0000_0000_0000 ==> r == (PositionReading::AtEnd {
            duration_bits: engine@.duration_bits,
        }),
        !engine@.is_eof || engine@.buffer_level > 0 || engine@.duration_bits == 0 ==> {
            &&& r matches PositionReading::Played { frames, sample_rate } && frames
                == engine@.position_frames && (engine@.sample_rate > 0 ==> sample_rate
                == engine@.sample_rate) && (engine@.sample_rate == 0 ==> sample_rate == 1)
        },
{
}

/// A position in the file is shown as it is, one beyond its end as the end; where the length is not
/// known every position is shown as it is.
pub proof fn law_position_is_shown_within_the_file(
    engine: &AudioEngine,
    position_bits: u64,
    r: u64,
)
    requires
        call_ensures(AudioEngine::cap_position, (engine, position_bits), r),
    ensures
        0 < engine@.duration_bits < position_bits <= 0x7ff0_0000_0000_0000 ==> r
            == engine@.duration_bits,
        position_bits <= engine@.duration_bits <= 0x7ff0_0000_0000_0000 ==> r == position_bits,
        engine@.duration_bits == 0 ==> r == position_bits,
{
}

/// An audio unit is set up on the current device, at the rate and with the channels of the loaded
/// file, for packed 32-bit floating-point samples: four bytes for each channel of a frame.
pub proof fn law_unit_is_set_up_for_the_file(engine: &AudioEngine, r: UnitSettings)
    requires
        call_ensures(AudioEngine::unit_settings, (engine,), r),
        engine@.channels * 4 <= u32::MAX,
    ensures
        r.device == engine@.current_device,
        r.format.sample_rate == engine@.sample_rate,
        r.format.channels_per_frame == engine@.channels,
        r.format.bytes_per_frame == 4 * engine@.channels,
        r.format.bytes_per_packet == 4 * engine@.channels,
        r.format.frames_per_packet == 1,
        r.format.bits_per_channel == 32,
        r.format.format_flags == 0x1 + 0x8,
        r.format.format_id == 0x6c70_636d,
{
}

/// A loaded file brings its own format and length, starts at its first frame with nothing queued,
/// and keeps an audio unit exactly where that was set up for the same rate and channels. Device,
/// volume and whether playback runs stay.
pub proof fn law_loaded_file_brings_its_format(
    engine: EngineState,
    info: AudioInfo,
    path: Seq<char>,
)
    ensures
        ({
            let loaded = engine.loaded(info, path);
            &&& loaded.sample_rate == info.sample_rate
            &&& loaded.channels == info.channels
            &&& loaded.bit_depth == info.bit_depth
            &&& loaded.duration_bits == info.duration_bits
            &&& loaded.file_path == Some(path)
            &&& loaded.has_unit <==> engine.has_unit && engine.sample_rate == info.sample_rate
                && engine.channels == info.channels
            &&& loaded.has_decoder
            &&& !loaded.is_eof
            &&& loaded.queue == Some(Seq::<u32>::empty())
            &&& loaded.position_frames == 0
            &&& loaded.decoded_frames == 0
            &&& loaded.underrun_count == 0
            &&& loaded.current_device == engine.current_device
            &&& loaded.volume_bits == engine.volume_bits
            &&& loaded.is_playing == engine.is_playing
            &&& loaded.buffer_level == engine.buffer_level
        }),
{
}

/// To play, an audio unit is set up first where there is none, on the current device; the decoder
/// thread is told to play where there is one; and the unit starts, as the last thing.
pub proof fn law_playing_starts_the_unit_last(engine: EngineState)
    ensures
        ({
            let effects = engine.play_effects();
            &&& effects.last() == Effect::StartUnit
            &&& effects.contains(Effect::SendPlay) <==> engine.has_decoder
            &&& !engine.has_unit ==> effects[0] == (Effect::SetUpUnit {
                device: engine.current_device,
            })
            &&& effects.len() == 1 + (if engine.has_decoder {
                1int
            } else {
                0
            }) + (if engine.has_unit {
                0int
            } else {
                1
            })
        }),
{
    let effects = engine.play_effects();
    if engine.has_decoder {
        let at = effects.len() - 2;
        assert(effects[at] == Effect::SendPlay);
    } else {
        assert forall|i: int| 0 <= i < effects.len() implies effects[i] != Effect::SendPlay by {}
    }
}

/// Pausing tells the decoder thread first and then stops the unit, stopping the other way round:
/// each exactly where it is there, and nothing else.
pub proof fn law_pausing_and_stopping_hold_both_ends(engine: EngineState)
    ensures
        engine.has_decoder && engine.has_unit ==> {
            &&& engine.pause_effects() == seq![Effect::SendPause, Effect::StopUnit]
            &&& engine.stop_effects() == seq![Effect::StopUnit, Effect::SendPause]
        },
        engine.has_decoder && !engine.has_unit ==> {
            &&& engine.pause_effects() == seq![Effect::SendPause]
            &&& engine.stop_effects() == seq![Effect::SendPause]
        },
        !engine.has_decoder && engine.has_unit ==> {
            &&& engine.pause_effects() == seq![Effect::StopUnit]
            &&& engine.stop_effects() == seq![Effect::StopUnit]
        },
        !engine.has_decoder && !engine.has_unit ==> {
            &&& engine.pause_effects().len() == 0
            &&& engine.stop_effects().len() == 0
        },
        engine.playing(false) == (EngineState { is_playing: false, ..engine }),
        engine.playing(true) == (EngineState { is_playing: true, ..engine }),
        engine.with_unit() == (EngineState { has_unit: true, ..engine }),
{
}

/// Before another file is loaded the decoder thread is told to end and is awaited, and the unit
/// stops, each exactly where it is there. Then nothing plays and there is no thread; all else
/// stays.
pub proof fn law_unloading_ends_the_thread(engine: EngineState)
    ensures
        engine.has_decoder && engine.has_unit ==> engine.unload_effects() == seq![
            Effect::SendStop,
            Effect::JoinDecoder,
            Effect::StopUnit,
        ],
        engine.has_decoder && !engine.has_unit ==> engine.unload_effects() == seq![
            Effect::SendStop,
            Effect::JoinDecoder,
        ],
        !engine.has_decoder && engine.has_unit ==> engine.unload_effects() == seq![
            Effect::StopUnit,
        ],
        !engine.has_decoder && !engine.has_unit ==> engine.unload_effects().len() == 0,
        engine.unloaded() == (EngineState { has_decoder: false, is_playing: false, ..engine }),
{
}

/// Switching to a device makes it the current one. A unit that has been set up stops, its decoder
/// thread pauses, and it is set up anew on the device as the last thing; without one there is
/// nothing to do, and what plays goes on playing. Nothing else changes.
pub proof fn law_switching_moves_the_unit(engine: EngineState, device: u32)
    ensures
        engine.selected(device).current_device == device,
        engine.has_unit ==> {
            &&& !engine.selected(device).is_playing
            &&& engine.select_effects(device)[0] == Effect::StopUnit
            &&& engine.select_effects(device).last() == (Effect::SetUpUnit { device })
            &&& engine.select_effects(device).len() == if engine.has_decoder {
                3nat
            } else {
                2
            }
            &&& engine.has_decoder ==> engine.select_effects(device)[1] == Effect::SendPause
        },
        !engine.has_unit ==> {
            &&& engine.select_effects(device).len() == 0
            &&& engine.selected(device).is_playing == engine.is_playing
        },
        engine.selected(device) == (EngineState {
            current_device: device,
            is_playing: engine.selected(device).is_playing,
            ..engine
        }),
{
}

/// Setting the volume changes the volume alone: to the wanted one where that is from nothing to
/// full, and to the nearer of these otherwise.
pub proof fn law_setting_the_volume(engine: &mut AudioEngine, volume_bits: u32)
    requires
        call_ensures(AudioEngine::set_volume, (engine, volume_bits), ()),
    ensures
        volume_bits <= 0x3f80_0000 ==> final(engine)@.volume_bits == volume_bits,
        0x3f80_0000 < volume_bits <= 0x7f80_0000 ==> final(engine)@.volume_bits == 0x3f80_0000,
        0x8000_0000 < volume_bits <= 0xff80_0000 ==> final(engine)@.volume_bits == 0,
        final(engine)@ == (EngineState {
            volume_bits: final(engine)@.volume_bits,
            ..old(engine)@
        }),
{
    law_volume_is_taken_as_it_is(old(engine)@, volume_bits);
}

/// A seek shows the wanted frame at once, drops what is queued, and has the loaded file opened anew
/// at the wanted position wherever there is a decoder thread and a path.
pub proof fn law_seeking(
    engine: &mut AudioEngine,
    target_bits: u64,
    frames: u64,
    r: Option<DecoderCommand>,
    path: Seq<char>,
)
    requires
        call_ensures(AudioEngine::seek, (engine, target_bits, frames), r),
    ensures
        final(engine)@.position_frames == frames,
        final(engine)@.queue matches Some(queue) ==> queue.len() == 0,
        final(engine)@.queue is Some <==> old(engine)@.queue is Some,
        old(engine)@.has_decoder && old(engine)@.file_path == Some(path) && path.len() > 0 ==> (
        r matches Some(DecoderCommand::Reload(file, at)) && file@ == path && at == target_bits),
        !old(engine)@.has_decoder || old(engine)@.file_path is None ==> r is None,
        final(engine)@ == (EngineState {
            position_frames: frames,
            queue: final(engine)@.queue,
            ..old(engine)@
        }),
{
}

/// Loading a file takes over its format and its length, keeps its path and starts it at its first
/// frame, with nothing queued; a unit of another rate or of other channels is given up.
pub proof fn law_loading(engine: &mut AudioEngine, info: AudioInfo, file_path: String)
    requires
        call_ensures(AudioEngine::load_decoder, (engine, info, file_path), ()),
    ensures
        final(engine)@.sample_rate == info.sample_rate,
        final(engine)@.channels == info.channels,
        final(engine)@.bit_depth == info.bit_depth,
        final(engine)@.duration_bits == info.duration_bits,
        final(engine)@.file_path == Some(file_path@),
        final(engine)@.queue == Some(Seq::<u32>::empty()),
        final(engine)@.position_frames == 0 && final(engine)@.decoded_frames == 0,
        final(engine)@.underrun_count == 0 && !final(engine)@.is_eof,
        final(engine)@.has_decoder,
        final(engine)@.has_unit <==> old(engine)@.has_unit && old(engine)@.sample_rate
            == info.sample_rate && old(engine)@.channels == info.channels,
        final(engine)@.volume_bits == old(engine)@.volume_bits,
        final(engine)@.current_device == old(engine)@.current_device,
        final(engine)@.is_playing == old(engine)@.is_playing,
{
}

/// Pausing, stopping and unloading end playback, and starting begins it. Pausing and stopping leave
/// the position, the queue and the thread; unloading gives up the thread. A unit that is set up is
/// there from then on.
pub proof fn law_playback_starts_and_ends(
    paused: &mut AudioEngine,
    stopped: &mut AudioEngine,
    unloaded: &mut AudioEngine,
    started: &mut AudioEngine,
    equipped: &mut AudioEngine,
    pause_effects: Vec<Effect>,
    stop_effects: Vec<Effect>,
    unload_effects: Vec<Effect>,
)
    requires
        call_ensures(AudioEngine::pause, (paused,), pause_effects),
        call_ensures(AudioEngine::stop, (stopped,), stop_effects),
        call_ensures(AudioEngine::unload, (unloaded,), unload_effects),
        call_ensures(AudioEngine::playback_started, (started,), ()),
        call_ensures(AudioEngine::unit_set_up, (equipped,), ()),
    ensures
        final(paused)@ == (EngineState { is_playing: false, ..old(paused)@ }),
        final(stopped)@ == (EngineState { is_playing: false, ..old(stopped)@ }),
        final(unloaded)@ == (EngineState {
            is_playing: false,
            has_decoder: false,
            ..old(unloaded)@
        }),
        final(started)@ == (EngineState { is_playing: true, ..old(started)@ }),
        final(equipped)@ == (EngineState { has_unit: true, ..old(equipped)@ }),
        pause_effects@.contains(Effect::SendPause) <==> old(paused)@.has_decoder,
        pause_effects@.contains(Effect::StopUnit) <==> old(paused)@.has_unit,
        stop_effects@.contains(Effect::SendPause) <==> old(stopped)@.has_decoder,
        stop_effects@.contains(Effect::StopUnit) <==> old(stopped)@.has_unit,
        unload_effects@.contains(Effect::SendStop) <==> old(unloaded)@.has_decoder,
        unload_effects@.contains(Effect::JoinDecoder) <==> old(unloaded)@.has_decoder,
        unload_effects@.contains(Effect::StopUnit) <==> old(unloaded)@.has_unit,
{
    law_pausing_and_stopping_hold_both_ends(old(paused)@);
    law_pausing_and_stopping_hold_both_ends(old(stopped)@);
    law_unloading_ends_the_thread(old(unloaded)@);
    let a = pause_effects@;
    let b = stop_effects@;
    let c = unload_effects@;
    if old(paused)@.has_decoder {
        assert(a[0] == Effect::SendPause);
    }
    if old(paused)@.has_unit {
        assert(a[a.len() - 1] == Effect::StopUnit);
    }
    if old(stopped)@.has_unit {
        assert(b[0] == Effect::StopUnit);
    }
    if old(stopped)@.has_decoder {
        assert(b[b.len() - 1] == Effect::SendPause);
    }
    if old(unloaded)@.has_decoder {
        assert(c[0] == Effect::SendStop && c[1] == Effect::JoinDecoder);
    }
    if old(unloaded)@.has_unit {
        assert(c[c.len() - 1] == Effect::StopUnit);
    }
}

/// Playing has the decoder thread told where there is one, and the unit started, set up before
/// where there is none.
pub proof fn law_playing(engine: &AudioEngine, r: Vec<Effect>)
    requires
        call_ensures(AudioEngine::play, (engine,), r),
    ensures
        r@.last() == Effect::StartUnit,
        r@.contains(Effect::SendPlay) <==> engine@.has_decoder,
        !engine@.has_unit ==> r@[0] == (Effect::SetUpUnit { device: engine@.current_device }),
        engine@.has_unit ==> !r@.contains(Effect::SetUpUnit { device: engine@.current_device }),
{
    law_playing_starts_the_unit_last(engine@);
}

/// Choosing a device makes it the current one. A unit that has been set up stops and is set up anew
/// on it, and playback ends; without one, nothing has to be done.
pub proof fn law_choosing_a_device(engine: &mut AudioEngine, device_id: u32, r: Vec<Effect>)
    requires
        call_ensures(AudioEngine::select_device, (engine, device_id), r),
    ensures
        final(engine)@.current_device == device_id,
        old(engine)@.has_unit ==> !final(engine)@.is_playing && r@[0] == Effect::StopUnit
            && r@.last() == (Effect::SetUpUnit { device: device_id }),
        !old(engine)@.has_unit ==> r@.len() == 0 && final(engine)@.is_playing
            == old(engine)@.is_playing,
        final(engine)@ == (EngineState {
            current_device: device_id,
            is_playing: final(engine)@.is_playing,
            ..old(engine)@
        }),
{
    law_switching_moves_the_unit(old(engine)@, device_id);
}

/// The output is given the oldest queued samples in whole frames, sample for sample, and silence
/// behind them; the queue keeps the rest, and the position goes on by the frames that were given.
pub proof fn law_rendering(
    engine: &mut AudioEngine,
    frames: usize,
    channels: usize,
    r: Rendered,
    queue: Seq<u32>,
)
    requires
        call_ensures(AudioEngine::render, (engine, frames, channels), r),
        old(engine)@.queue == Some(queue),
        channels > 0,
        queue.len() <= RING_BUFFER_SIZE,
        old(engine)@.position_frames + queue.len() <= u64::MAX,
    ensures
        r.samples@.len() == frames * channels,
        r.frames_read <= frames,
        r.frames_read * channels <= queue.len(),
        r.frames_read < frames ==> queue.len() < (r.frames_read + 1) * channels,
        final(engine)@.queue == Some(queue.skip(r.frames_read * channels)),
        forall|i: int|
            0 <= i < frames * channels ==> #[trigger] r.samples@[i] == if i < r.frames_read
                * channels {
                queue[i]
            } else {
                0
            },
        final(engine)@.position_frames == old(engine)@.position_frames + r.frames_read,
{
    let read = r.frames_read as int;
    let n = channels as int;
    let whole = queue.len() as int / n;
    lemma_fundamental_div_mod(queue.len() as int, n);
    lemma_mod_bound(queue.len() as int, n);
    assert(0 <= read * n <= queue.len() && read <= queue.len()) by (nonlinear_arith)
        requires
            0 <= read <= whole,
            queue.len() == n * whole + queue.len() as int % n,
            queue.len() as int % n >= 0,
            n > 0,
    ;
    assert(read * n <= frames * n) by (nonlinear_arith)
        requires
            read <= frames,
            n > 0,
    ;
    if read < frames {
        assert((read + 1) * n == n * whole + n) by (nonlinear_arith)
            requires
                read == whole,
        ;
    }
}

} // verus!
