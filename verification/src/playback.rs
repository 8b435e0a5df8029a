//! What holds of playback as a whole: every queued sample is played once, in order and
//! unchanged, the frame counts agree, and playback ends when everything has been played.
use vstd::arithmetic::div_mod::*;
use vstd::arithmetic::mul::*;
use vstd::prelude::*;

use crate::engine::{
    silence, DecoderCommand, Effect, EngineState, PositionReading, RING_BUFFER_SIZE,
};
use crate::float_bits::{f64_less, f64_nan, F64_ZERO};
use crate::ring::write_fits;
use crate::stream_info::AudioInfo;
use crate::worker::{DecoderWorker, WorkerAction, DECODE_BUFFER_SIZE};

verus! {

/// The frames played, together with the whole frames still queued, are the frames decoded, and
/// the thread and the engine agree on those.
pub open spec fn frames_accounted(worker: DecoderWorker, engine: EngineState) -> bool {
    &&& worker.channels > 0
    &&& engine.decoded_frames == worker.total_frames
    &&& engine.queue matches Some(queue) && {
        &&& queue.len() % (worker.channels as nat) == 0
        &&& engine.position_frames + queue.len() / (worker.channels as nat)
            == engine.decoded_frames
    }
}

/// What the output is given is a prefix of the queue in whole frames, sample for sample, then
/// silence to the end; and the queue keeps exactly the rest.
pub proof fn law_render_hands_out_the_queue(engine: EngineState, frames: nat, channels: nat)
    requires
        engine.queue is Some,
        channels > 0,
    ensures
        ({
            let queue = engine.queue.unwrap();
            let read = engine.readable_frames(frames, channels) * channels;
            let out = engine.rendered(frames, channels);
            let rest = engine.after_render(frames, channels).queue.unwrap();
            &&& read <= queue.len()
            &&& read <= frames * channels
            &&& out.len() == frames * channels
            &&& queue == out.take(read as int) + rest
            &&& out.skip(read as int) == silence((frames * channels - read) as nat)
        }),
{
    let queue = engine.queue.unwrap();
    let n = engine.readable_frames(frames, channels);
    let read = n * channels;
    lemma_mul_inequality(n as int, frames as int, channels as int);
    assert(read <= queue.len()) by {
        lemma_mul_inequality(n as int, (queue.len() / channels) as int, channels as int);
        lemma_fundamental_div_mod(queue.len() as int, channels as int);
        lemma_mul_is_commutative((queue.len() / channels) as int, channels as int);
    }
    let out = engine.rendered(frames, channels);
    let rest = engine.after_render(frames, channels).queue.unwrap();
    assert(out.take(read as int) =~= queue.take(read as int));
    assert(queue =~= out.take(read as int) + rest);
    assert(out.skip(read as int) =~= silence((frames * channels - read) as nat));
}

/// An output that wants no more than is queued, in whole frames, hears no silence.
pub proof fn law_no_silence_while_queued(engine: EngineState, frames: nat, channels: nat)
    requires
        engine.queue is Some,
        channels > 0,
        frames * channels <= engine.queue.unwrap().len(),
    ensures
        engine.readable_frames(frames, channels) == frames,
        engine.rendered(frames, channels) == engine.queue.unwrap().take((frames * channels) as int),
        engine.after_render(frames, channels).underrun_count == engine.underrun_count,
{
    let queue = engine.queue.unwrap();
    lemma_div_is_ordered((frames * channels) as int, queue.len() as int, channels as int);
    lemma_div_by_multiple(frames as int, channels as int);
    assert(engine.rendered(frames, channels) =~= queue.take((frames * channels) as int));
}

/// Underruns are counted only while the file is being decoded: draining the queue at its end adds
/// none, however little is left.
pub proof fn law_no_underrun_while_draining(engine: EngineState, frames: nat, channels: nat)
    requires
        engine.is_eof,
        channels > 0,
    ensures
        engine.after_render(frames, channels).underrun_count == engine.underrun_count,
{
}

/// A file is played in its own stream format: an audio unit that is kept when it is loaded has
/// that format already, and where there is none to keep, playing starts by setting one up on the
/// current device.
pub proof fn law_unit_fits_the_file(engine: EngineState, info: AudioInfo, path: Seq<char>)
    ensures
        ({
            let loaded = engine.loaded(info, path);
            &&& loaded.format().sample_rate == info.sample_rate
            &&& loaded.format().channels_per_frame == info.channels
            &&& loaded.has_unit ==> engine.has_unit && engine.format() == loaded.format()
            &&& !loaded.has_unit ==> loaded.play_effects().len() > 0 && loaded.play_effects()[0]
                == (Effect::SetUpUnit { device: engine.current_device })
        }),
{
}

/// The frame counts agree when a file has been loaded and its decoder thread starts.
pub proof fn law_accounted_at_start(engine: EngineState, info: AudioInfo, path: Seq<char>)
    requires
        info.channels > 0,
    ensures
        frames_accounted(
            DecoderWorker {
                is_paused: true,
                eof_reached: false,
                total_frames: 0,
                channels: info.channels,
            },
            engine.loaded(info, path),
        ),
{
    assert(Seq::<u32>::empty().len() == 0);
    lemma_div_basics_1(info.channels as int);
}

/// The frame counts keep agreeing when whole frames have been decoded, or the end of the file.
pub proof fn law_accounted_after_decoding(
    worker: DecoderWorker,
    engine: EngineState,
    samples: Seq<u32>,
)
    requires
        frames_accounted(worker, engine),
        samples.len() % (worker.channels as nat) == 0,
        worker.total_frames + samples.len() / (worker.channels as nat) <= u64::MAX,
    ensures
        frames_accounted(
            worker.decoded(engine, samples).worker,
            worker.decoded(engine, samples).engine,
        ),
{
    let channels = worker.channels as int;
    let queue = engine.queue.unwrap();
    if samples.len() > 0 && write_fits(queue, RING_BUFFER_SIZE as nat, samples) {
        let a = queue.len() as int;
        let b = samples.len() as int;
        lemma_fundamental_div_mod(a, channels);
        lemma_fundamental_div_mod(b, channels);
        assert(a + b == channels * (a / channels + b / channels)) by {
            lemma_mul_is_distributive_add(channels, a / channels, b / channels);
        }
        lemma_div_multiples_vanish(a / channels + b / channels, channels);
        lemma_mod_multiples_basic(a / channels + b / channels, channels);
        lemma_mul_is_commutative(channels, a / channels + b / channels);
    }
}

/// The frame counts keep agreeing when the output is given frames of the file's channels.
pub proof fn law_accounted_after_render(worker: DecoderWorker, engine: EngineState, frames: nat)
    requires
        frames_accounted(worker, engine),
    ensures
        frames_accounted(worker, engine.after_render(frames, worker.channels as nat)),
{
    let channels = worker.channels as int;
    let queue = engine.queue.unwrap();
    let len = queue.len() as int;
    let n = engine.readable_frames(frames, worker.channels as nat) as int;
    law_render_hands_out_the_queue(engine, frames, worker.channels as nat);
    lemma_fundamental_div_mod(len, channels);
    assert(len - n * channels == channels * (len / channels - n)) by {
        lemma_mul_is_distributive_sub(channels, len / channels, n);
        lemma_mul_is_commutative(channels, n);
    }
    lemma_div_multiples_vanish(len / channels - n, channels);
    lemma_mod_multiples_basic(len / channels - n, channels);
    lemma_mul_is_commutative(channels, len / channels - n);
}

/// Commands and looking for room do not disturb the frame counts.
pub proof fn law_accounted_after_poll(
    worker: DecoderWorker,
    engine: EngineState,
    command: Option<DecoderCommand>,
)
    requires
        frames_accounted(worker, engine),
    ensures
        frames_accounted(worker.commanded(command), engine),
        frames_accounted(worker, worker.polled(engine).engine),
{
}

/// The frame counts agree again when the file has been opened anew at the frame of a seek, with
/// nothing queued in between.
pub proof fn law_accounted_after_seek(worker: DecoderWorker, engine: EngineState, frame: u64)
    requires
        frames_accounted(worker, engine),
    ensures
        ({
            let (after, state) = worker.reopened(engine.after_seek(frame), frame);
            frames_accounted(after, state) && !state.is_eof && !after.eof_reached
        }),
{
    lemma_div_basics_1(worker.channels as int);
}

/// After a seek nothing that was queued before it is heard: the output is given silence until
/// something is decoded.
pub proof fn law_seek_drops_what_was_queued(
    engine: EngineState,
    frame: u64,
    frames: nat,
    channels: nat,
)
    requires
        channels > 0,
    ensures
        engine.after_seek(frame).rendered(frames, channels) == silence(frames * channels),
        engine.after_seek(frame).after_render(frames, channels).position_frames == frame,
{
    let state = engine.after_seek(frame);
    lemma_div_basics_1(channels as int);
    assert(state.readable_frames(frames, channels) == 0);
    assert(state.rendered(frames, channels) =~= silence(frames * channels));
}

/// When the decoder has come to the end of the file and everything queued has been played,
/// playback is at its end.
pub proof fn law_ends_when_all_is_played(worker: DecoderWorker, engine: EngineState)
    requires
        frames_accounted(worker, engine),
        engine.is_eof,
        engine.queue.unwrap().len() == 0,
    ensures
        engine.finished(),
{
    lemma_div_basics_1(worker.channels as int);
}

/// While something is still queued, and the last look at the queue found it so, playback is not
/// at its end.
pub proof fn law_goes_on_while_queued(worker: DecoderWorker, engine: EngineState)
    requires
        frames_accounted(worker, engine),
        engine.queue.unwrap().len() > 0,
        engine.buffer_level > 0,
    ensures
        !engine.finished(),
{
    let channels = worker.channels as int;
    let len = engine.queue.unwrap().len() as int;
    lemma_fundamental_div_mod(len, channels);
    if len / channels <= 0 {
        lemma_div_pos_is_pos(len, channels);
        assert(len == channels * 0);
    }
}

/// Once the file is decoded and the queue is empty, one more call for frames lets everyone see
/// the end: the position reads as the length of the file, where that is known.
pub proof fn law_drained_output_shows_the_end(engine: EngineState, frames: nat, channels: nat)
    requires
        channels > 0,
        engine.is_eof,
        engine.queue == Some(Seq::<u32>::empty()),
    ensures
        engine.after_render(frames, channels).finished(),
        f64_less(F64_ZERO, engine.duration_bits) ==> engine.after_render(
            frames,
            channels,
        ).position() == (PositionReading::AtEnd { duration_bits: engine.duration_bits }),
        engine.after_render(frames, channels).underrun_count == engine.underrun_count,
{
}

/// The thread decodes only when a whole decode buffer fits, so nothing that it decodes is ever
/// dropped.
pub proof fn law_decoded_samples_are_never_dropped(
    worker: DecoderWorker,
    engine: EngineState,
    samples: Seq<u32>,
)
    requires
        worker.polled(engine).action == WorkerAction::Decode,
        samples.len() <= DECODE_BUFFER_SIZE,
    ensures
        write_fits(engine.queue.unwrap(), RING_BUFFER_SIZE as nat, samples),
        worker.decoded(worker.polled(engine).engine, samples).action == WorkerAction::Again,
        worker.decoded(worker.polled(engine).engine, samples).engine.queue == Some(
            engine.queue.unwrap() + samples,
        ),
{
    if samples.len() == 0 {
        assert(engine.queue.unwrap() + samples =~= engine.queue.unwrap());
    }
}

/// A step of playback: what the decoder thread does, what the output is given, and seeks.
pub enum PlayStep {
    /// The thread takes a command, or finds none.
    Command(Option<DecoderCommand>),
    /// The thread has opened the file anew at a frame.
    Reopened(u64),
    /// The thread decides what comes next.
    Polled,
    /// The thread has decoded samples; none mean the end of the file.
    Decoded(Seq<u32>),
    /// Decoding has failed.
    DecodeFailed,
    /// The output is given so many frames, of the file's channels: an audio unit is kept only for
    /// a file of its own stream format.
    Rendered(nat),
    /// The user has gone to a frame.
    Sought(u64),
    /// The thread has come to its end.
    Ended,
}

/// Playback so far.
pub struct PlayRun {
    pub worker: DecoderWorker,
    pub engine: EngineState,
    /// Whether the thread has decided to decode, and has not done so yet.
    pub asked: bool,
    /// Every sample that was decoded since the last seek.
    pub decoded: Seq<u32>,
    /// Every sample that the output was given since the last seek, without the silence.
    pub played: Seq<u32>,
    /// The frame at which the file was last opened.
    pub base: int,
    /// The whole frames of everything that was decoded since then.
    pub frames: int,
    /// Whether the latest decoding since then found the end of the file.
    pub at_end: bool,
    /// The frames of the seeks for which the file has not been opened anew yet, oldest first.
    pub seeks: Seq<u64>,
}

impl PlayRun {
    /// Playback of a file that was loaded just now.
    pub open spec fn start(engine: EngineState, info: AudioInfo, path: Seq<char>) -> PlayRun {
        PlayRun {
            worker: DecoderWorker {
                is_paused: true,
                eof_reached: false,
                total_frames: 0,
                channels: info.channels,
            },
            engine: engine.loaded(info, path),
            asked: false,
            decoded: Seq::empty(),
            played: Seq::empty(),
            base: 0,
            frames: 0,
            at_end: false,
            seeks: Seq::empty(),
        }
    }

    /// Whether a step can come next. Once the thread has decided to decode, that is what it does
    /// next; it decodes only then, at most a decode buffer of samples, and their frames are
    /// counted within 64 bits. The output and the user may come in at any time.
    pub open spec fn allows(self, step: PlayStep) -> bool {
        match step {
            PlayStep::Decoded(samples) => {
                &&& self.asked
                &&& samples.len() <= DECODE_BUFFER_SIZE
                &&& self.worker.total_frames + samples.len() / (self.worker.channels as nat)
                    <= u64::MAX
            },
            PlayStep::DecodeFailed => self.asked,
            PlayStep::Rendered(_) | PlayStep::Sought(_) => true,
            PlayStep::Command(_) | PlayStep::Reopened(_) | PlayStep::Polled | PlayStep::Ended => {
                !self.asked
            },
        }
    }

    /// Playback after one more step.
    pub open spec fn after(self, step: PlayStep) -> PlayRun {
        match step {
            PlayStep::Command(command) => PlayRun {
                worker: self.worker.commanded(command),
                ..self
            },
            PlayStep::Reopened(frame) => {
                let (worker, engine) = self.worker.reopened(self.engine, frame);
                PlayRun {
                    worker,
                    engine,
                    asked: false,
                    base: frame as int,
                    frames: 0,
                    at_end: false,
                    seeks: if self.seeks.len() > 0 {
                        self.seeks.skip(1)
                    } else {
                        self.seeks
                    },
                    ..self
                }
            },
            PlayStep::Polled => {
                let next = self.worker.polled(self.engine);
                PlayRun {
                    worker: next.worker,
                    engine: next.engine,
                    asked: next.action == WorkerAction::Decode,
                    ..self
                }
            },
            PlayStep::Decoded(samples) => {
                let next = self.worker.decoded(self.engine, samples);
                PlayRun {
                    worker: next.worker,
                    engine: next.engine,
                    asked: false,
                    decoded: self.decoded + samples,
                    frames: self.frames + samples.len() / (self.worker.channels as nat),
                    at_end: samples.len() == 0,
                    ..self
                }
            },
            PlayStep::DecodeFailed => PlayRun { asked: false, ..self },
            PlayStep::Rendered(frames) => {
                let channels = self.worker.channels as nat;
                let read = self.engine.readable_frames(frames, channels) * channels;
                PlayRun {
                    engine: self.engine.after_render(frames, channels),
                    played: self.played + self.engine.rendered(frames, channels).take(read as int),
                    ..self
                }
            },
            PlayStep::Sought(frame) => PlayRun {
                engine: self.engine.after_seek(frame),
                decoded: Seq::empty(),
                played: Seq::empty(),
                seeks: self.seeks.push(frame),
                ..self
            },
            PlayStep::Ended => PlayRun {
                engine: self.worker.ended(self.engine),
                asked: false,
                ..self
            },
        }
    }

    /// Playback after some more steps.
    pub open spec fn after_all(self, steps: Seq<PlayStep>) -> PlayRun
        decreases steps.len(),
    {
        if steps.len() == 0 {
            self
        } else {
            self.after_all(steps.drop_last()).after(steps.last())
        }
    }

    /// Whether the steps can come one after the other.
    pub open spec fn allows_all(self, steps: Seq<PlayStep>) -> bool
        decreases steps.len(),
    {
        steps.len() == 0 || self.allows_all(steps.drop_last()) && self.after_all(
            steps.drop_last(),
        ).allows(steps.last())
    }

    /// Whether a step keeps to the order of the seeks: the file is opened anew for the oldest of
    /// them, at its frame, and blocks of whole frames are only decoded once it has been opened
    /// anew for all of them.
    pub open spec fn in_order(self, step: PlayStep) -> bool {
        match step {
            PlayStep::Reopened(frame) => self.seeks.len() > 0 && self.seeks[0] == frame,
            PlayStep::Decoded(samples) => {
                self.seeks.len() == 0 && samples.len() % (self.worker.channels as nat) == 0
            },
            _ => true,
        }
    }

    /// Whether all of the steps keep to the order of the seeks.
    pub open spec fn in_order_all(self, steps: Seq<PlayStep>) -> bool
        decreases steps.len(),
    {
        steps.len() == 0 || self.in_order_all(steps.drop_last()) && self.after_all(
            steps.drop_last(),
        ).in_order(steps.last())
    }

    /// The frame counts agree; or the file has yet to be opened anew, and until then nothing is
    /// queued and the position is that of the last seek.
    pub open spec fn accounted(self) -> bool {
        if self.seeks.len() == 0 {
            frames_accounted(self.worker, self.engine)
        } else {
            self.engine.queue == Some(Seq::<u32>::empty()) && self.engine.position_frames
                == self.seeks.last()
        }
    }

    /// What holds throughout playback.
    pub open spec fn holds(self) -> bool {
        &&& self.worker.channels > 0
        &&& self.engine.queue matches Some(queue) && {
            &&& self.decoded == self.played + queue
            &&& self.asked ==> queue.len() + DECODE_BUFFER_SIZE <= RING_BUFFER_SIZE
            &&& queue.len() <= RING_BUFFER_SIZE
            &&& self.asked || self.at_end ==> queue.len() <= self.engine.buffer_level
        }
        &&& self.asked ==> !self.worker.eof_reached && !self.worker.is_paused
        &&& self.engine.decoded_frames == self.base + self.frames
        &&& self.worker.total_frames == self.base + self.frames
        &&& self.engine.is_eof == self.at_end
        &&& self.worker.eof_reached == self.at_end
    }
}

proof fn lemma_step_holds(run: PlayRun, step: PlayStep)
    requires
        run.holds(),
        run.allows(step),
    ensures
        run.after(step).holds(),
{
    let next = run.after(step);
    let queue = run.engine.queue.unwrap();
    match step {
        PlayStep::Decoded(samples) => {
            assert(write_fits(queue, RING_BUFFER_SIZE as nat, samples));
            if samples.len() == 0 {
                lemma_div_basics_1(run.worker.channels as int);
            }
            assert(next.decoded =~= next.played + next.engine.queue.unwrap());
        },
        PlayStep::Rendered(frames) => {
            law_render_hands_out_the_queue(run.engine, frames, run.worker.channels as nat);
            assert(next.decoded =~= next.played + next.engine.queue.unwrap());
        },
        PlayStep::Sought(frame) => {
            assert(next.decoded =~= next.played + next.engine.queue.unwrap());
        },
        _ => {},
    }
}

proof fn lemma_run_holds(start: PlayRun, steps: Seq<PlayStep>)
    requires
        start.holds(),
        start.allows_all(steps),
    ensures
        start.after_all(steps).holds(),
    decreases steps.len(),
{
    if steps.len() > 0 {
        lemma_run_holds(start, steps.drop_last());
        lemma_step_holds(start.after_all(steps.drop_last()), steps.last());
    }
}

proof fn lemma_start_holds(engine: EngineState, info: AudioInfo, path: Seq<char>)
    requires
        info.channels > 0,
    ensures
        PlayRun::start(engine, info, path).holds(),
{
    let start = PlayRun::start(engine, info, path);
    assert(start.decoded =~= start.played + start.engine.queue.unwrap());
}

/// Playback is bit-perfect: whatever happens, every sample that was decoded since the last seek
/// is either given to the output or still queued; none is lost, repeated, changed or reordered.
pub proof fn law_playback_is_bit_perfect(
    engine: EngineState,
    info: AudioInfo,
    path: Seq<char>,
    steps: Seq<PlayStep>,
)
    requires
        info.channels > 0,
        PlayRun::start(engine, info, path).allows_all(steps),
    ensures
        ({
            let run = PlayRun::start(engine, info, path).after_all(steps);
            run.engine.queue is Some && run.decoded == run.played + run.engine.queue.unwrap()
        }),
{
    lemma_start_holds(engine, info, path);
    lemma_run_holds(PlayRun::start(engine, info, path), steps);
}

/// At all times the count of decoded frames is the frame at which the file was last opened, plus
/// the whole frames of every block that was decoded since. The file counts as at its end exactly
/// when the latest decoding since then found the end, and then nothing more is decoded before it
/// is opened anew.
pub proof fn law_decoded_frames_are_counted(
    engine: EngineState,
    info: AudioInfo,
    path: Seq<char>,
    steps: Seq<PlayStep>,
)
    requires
        info.channels > 0,
        PlayRun::start(engine, info, path).allows_all(steps),
    ensures
        ({
            let run = PlayRun::start(engine, info, path).after_all(steps);
            &&& run.engine.decoded_frames == run.base + run.frames
            &&& run.after(PlayStep::Ended).engine.decoded_frames == run.base + run.frames
            &&& run.engine.is_eof == run.at_end
            &&& run.at_end ==> !run.asked
            &&& run.at_end ==> !run.after(PlayStep::Polled).asked
        }),
{
    lemma_start_holds(engine, info, path);
    lemma_run_holds(PlayRun::start(engine, info, path), steps);
}

proof fn lemma_step_while_paused(run: PlayRun, step: PlayStep)
    requires
        run.holds(),
        run.allows(step),
        run.worker.is_paused,
        step != PlayStep::Command(Some(DecoderCommand::Play)),
    ensures
        !(step is Decoded),
        run.after(step).worker.is_paused,
        run.after(step).engine.queue.unwrap().is_suffix_of(run.engine.queue.unwrap()),
{
    let queue = run.engine.queue.unwrap();
    let later = run.after(step).engine.queue.unwrap();
    if let PlayStep::Rendered(frames) = step {
        law_render_hands_out_the_queue(run.engine, frames, run.worker.channels as nat);
    }
    assert(later =~= queue.skip(queue.len() - later.len()));
}

/// Nothing is decoded or queued before the first play, nor between a pause and the next play:
/// from the start of a file, or from a pause on, and up to the next play, no step is one of
/// decoding, and the queue only ever gets shorter at its front.
pub proof fn law_nothing_is_decoded_while_paused(
    engine: EngineState,
    info: AudioInfo,
    path: Seq<char>,
    steps: Seq<PlayStep>,
    from: int,
)
    requires
        info.channels > 0,
        PlayRun::start(engine, info, path).allows_all(steps),
        0 <= from <= steps.len(),
        from == 0 || steps[from - 1] == PlayStep::Command(Some(DecoderCommand::Pause)),
        forall|i: int|
            from <= i < steps.len() ==> #[trigger] steps[i] != PlayStep::Command(
                Some(DecoderCommand::Play),
            ),
    ensures
        forall|i: int| from <= i < steps.len() ==> !((#[trigger] steps[i]) is Decoded),
        PlayRun::start(engine, info, path).after_all(steps).worker.is_paused,
        PlayRun::start(engine, info, path).after_all(steps).engine.queue.unwrap().is_suffix_of(
            PlayRun::start(engine, info, path).after_all(steps.take(from)).engine.queue.unwrap(),
        ),
    decreases steps.len(),
{
    let start = PlayRun::start(engine, info, path);
    lemma_start_holds(engine, info, path);
    if from == steps.len() {
        assert(steps.take(from) =~= steps);
        let queue = start.after_all(steps).engine.queue.unwrap();
        assert(queue =~= queue.skip(0));
    } else {
        let before = steps.drop_last();
        law_nothing_is_decoded_while_paused(engine, info, path, before, from);
        lemma_run_holds(start, before);
        lemma_step_while_paused(start.after_all(before), steps.last());
        assert(before.take(from) =~= steps.take(from));
        let first = start.after_all(steps.take(from)).engine.queue.unwrap();
        let middle = start.after_all(before).engine.queue.unwrap();
        let last = start.after_all(steps).engine.queue.unwrap();
        assert(last =~= first.skip(first.len() - last.len()));
        assert forall|i: int| from <= i < steps.len() implies !((#[trigger] steps[i])
            is Decoded) by {
            if i < before.len() {
                assert(before[i] == steps[i]);
            }
        }
    }
}

proof fn lemma_step_accounted(run: PlayRun, step: PlayStep)
    requires
        run.holds(),
        run.allows(step),
        run.in_order(step),
        run.accounted(),
    ensures
        run.after(step).accounted(),
{
    let next = run.after(step);
    let channels = run.worker.channels as nat;
    match step {
        PlayStep::Command(command) => {},
        PlayStep::Reopened(frame) => {
            lemma_div_basics_1(channels as int);
        },
        PlayStep::Decoded(samples) => {
            law_accounted_after_decoding(run.worker, run.engine, samples);
        },
        PlayStep::Rendered(frames) => {
            if run.seeks.len() == 0 {
                law_accounted_after_render(run.worker, run.engine, frames);
            } else {
                lemma_div_basics_1(channels as int);
                assert(run.engine.readable_frames(frames, channels) == 0);
                assert(0 * channels == 0);
                assert(next.engine.queue.unwrap() =~= Seq::<u32>::empty());
            }
        },
        _ => {},
    }
}

proof fn lemma_run_accounted(start: PlayRun, steps: Seq<PlayStep>)
    requires
        start.holds(),
        start.accounted(),
        start.allows_all(steps),
        start.in_order_all(steps),
    ensures
        start.after_all(steps).accounted(),
    decreases steps.len(),
{
    if steps.len() > 0 {
        lemma_run_accounted(start, steps.drop_last());
        lemma_run_holds(start, steps.drop_last());
        lemma_step_accounted(start.after_all(steps.drop_last()), steps.last());
    }
}

/// Throughout playback the frames played and the frames queued are the frames decoded, over any
/// number of seeks, as long as the file is opened anew for each seek before the next block is
/// decoded, and blocks hold whole frames. Between a seek and that opening nothing is queued, and
/// the position is that of the last seek.
pub proof fn law_frames_are_accounted(
    engine: EngineState,
    info: AudioInfo,
    path: Seq<char>,
    steps: Seq<PlayStep>,
)
    requires
        info.channels > 0,
        PlayRun::start(engine, info, path).allows_all(steps),
        PlayRun::start(engine, info, path).in_order_all(steps),
    ensures
        ({
            let run = PlayRun::start(engine, info, path).after_all(steps);
            &&& run.seeks.len() == 0 ==> frames_accounted(run.worker, run.engine)
            &&& run.seeks.len() > 0 ==> run.engine.queue == Some(Seq::<u32>::empty())
                && run.engine.position_frames == run.seeks.last()
        }),
{
    lemma_start_holds(engine, info, path);
    law_accounted_at_start(engine, info, path);
    lemma_run_accounted(PlayRun::start(engine, info, path), steps);
}

/// Where the position shows the end, or an empty queue is what ends playback, everything that was
/// decoded since the last seek has been given to the output.
pub proof fn law_shown_end_is_the_end(
    engine: EngineState,
    info: AudioInfo,
    path: Seq<char>,
    steps: Seq<PlayStep>,
)
    requires
        info.channels > 0,
        PlayRun::start(engine, info, path).allows_all(steps),
    ensures
        ({
            let run = PlayRun::start(engine, info, path).after_all(steps);
            run.engine.position() is AtEnd || run.engine.is_eof && run.engine.buffer_level == 0
                ==> run.engine.queue == Some(Seq::<u32>::empty()) && run.played == run.decoded
        }),
{
    lemma_start_holds(engine, info, path);
    lemma_run_holds(PlayRun::start(engine, info, path), steps);
    let run = PlayRun::start(engine, info, path).after_all(steps);
    if run.engine.is_eof && run.engine.buffer_level == 0 {
        assert(run.engine.queue.unwrap() =~= Seq::<u32>::empty());
        assert(run.played =~= run.played + Seq::<u32>::empty());
    }
}

/// Whether the position `later` is not before the position `earlier`. The end is after everything
/// that was played; what was played is compared by frames over frames a second.
pub open spec fn not_before(earlier: PositionReading, later: PositionReading) -> bool {
    match (earlier, later) {
        (_, PositionReading::AtEnd { .. }) => true,
        (PositionReading::AtEnd { .. }, PositionReading::Played { .. }) => false,
        (
            PositionReading::Played { frames: a, sample_rate: rate_a },
            PositionReading::Played { frames: b, sample_rate: rate_b },
        ) => a * rate_b <= b * rate_a,
    }
}

/// The position never goes back as the frames given to the output grow.
pub proof fn law_position_never_goes_back(engine: EngineState, frames: u64)
    requires
        engine.position_frames <= frames,
    ensures
        not_before(
            engine.position(),
            EngineState { position_frames: frames, ..engine }.position(),
        ),
{
    let rate: int = if engine.sample_rate == 0 {
        1
    } else {
        engine.sample_rate as int
    };
    lemma_mul_inequality(engine.position_frames as int, frames as int, rate);
}

/// Giving frames to the output never moves the position back. Left out are a count of frames
/// beyond 64 bits, and an engine that shows the end although something is still queued.
pub proof fn law_rendering_never_moves_back(engine: EngineState, frames: nat, channels: nat)
    requires
        channels > 0,
        engine.position_frames + engine.readable_frames(frames, channels) <= u64::MAX,
        engine.position() is AtEnd ==> (engine.queue matches Some(queue) ==> queue.len() == 0),
    ensures
        not_before(engine.position(), engine.after_render(frames, channels).position()),
{
    let after = engine.after_render(frames, channels);
    let rate: int = if engine.sample_rate == 0 {
        1
    } else {
        engine.sample_rate as int
    };
    lemma_mul_inequality(engine.position_frames as int, after.position_frames as int, rate);
}

/// Where the length is known, a shown position lies between the start and the end of the file,
/// and capping keeps the order of two positions.
pub proof fn law_shown_position_lies_in_the_file(engine: EngineState, first: u64, second: u64)
    requires
        f64_less(F64_ZERO, engine.duration_bits),
        !f64_nan(first),
        !f64_nan(second),
        !f64_less(first, F64_ZERO),
        !f64_less(second, first),
    ensures
        !f64_less(engine.capped(first), F64_ZERO),
        !f64_less(engine.duration_bits, engine.capped(first)),
        !f64_less(engine.capped(second), engine.capped(first)),
{
}

/// An output that gets less than it wants, while the file is still being decoded, counts as one
/// underrun; one that gets all it wants counts as none.
pub proof fn law_starved_output_is_one_underrun(
    engine: EngineState,
    queue: Seq<u32>,
    frames: nat,
    channels: nat,
)
    requires
        engine.queue == Some(queue),
        channels > 0,
        engine.underrun_count < u64::MAX,
    ensures
        queue.len() < frames * channels && !engine.is_eof ==> engine.after_render(
            frames,
            channels,
        ).underrun_count == engine.underrun_count + 1,
        queue.len() >= frames * channels ==> engine.after_render(frames, channels).underrun_count
            == engine.underrun_count,
{
    lemma_fundamental_div_mod(queue.len() as int, channels as int);
    lemma_mod_bound(queue.len() as int, channels as int);
    let whole = queue.len() / channels;
    if queue.len() < frames * channels {
        assert(whole < frames) by (nonlinear_arith)
            requires
                queue.len() == channels * whole + queue.len() % channels,
                queue.len() < frames * channels,
                channels > 0,
        ;
    } else {
        assert(whole >= frames) by (nonlinear_arith)
            requires
                queue.len() == channels * whole + queue.len() % channels,
                queue.len() % channels < channels,
                queue.len() >= frames * channels,
                channels > 0,
        ;
    }
}

/// The output gets as many whole frames as are queued, up to what it wants, and the position goes
/// on by just that many; what is queued was counted before. Nothing else changes but the underruns.
pub proof fn law_position_goes_on_by_what_is_heard(
    engine: EngineState,
    queue: Seq<u32>,
    frames: nat,
    channels: nat,
)
    requires
        engine.queue == Some(queue),
        channels > 0,
        queue.len() <= RING_BUFFER_SIZE,
        engine.position_frames + queue.len() <= u64::MAX,
    ensures
        ({
            let read = engine.readable_frames(frames, channels);
            let after = engine.after_render(frames, channels);
            &&& read <= frames
            &&& read * channels <= queue.len()
            &&& read < frames ==> queue.len() < (read + 1) * channels
            &&& after.position_frames == engine.position_frames + read
            &&& after.buffer_level == queue.len()
            &&& after == (EngineState {
                position_frames: after.position_frames,
                buffer_level: after.buffer_level,
                queue: after.queue,
                underrun_count: after.underrun_count,
                ..engine
            })
        }),
{
    let read = engine.readable_frames(frames, channels);
    let whole = queue.len() / channels;
    lemma_fundamental_div_mod(queue.len() as int, channels as int);
    lemma_mod_bound(queue.len() as int, channels as int);
    assert(read * channels <= queue.len() && read <= queue.len()) by (nonlinear_arith)
        requires
            read <= whole,
            queue.len() == channels * whole + queue.len() % channels,
            queue.len() % channels >= 0,
            channels > 0,
    ;
    if read < frames {
        assert((read + 1) * channels == channels * whole + channels) by (nonlinear_arith)
            requires
                read == whole,
        ;
    }
}

/// Without a file the output gets silence, and nothing changes.
pub proof fn law_silence_without_a_file(engine: EngineState, frames: nat, channels: nat)
    requires
        engine.queue is None,
        channels > 0,
    ensures
        engine.rendered(frames, channels).len() == frames * channels,
        forall|i: int|
            0 <= i < frames * channels ==> #[trigger] engine.rendered(frames, channels)[i] == 0,
        engine.after_render(frames, channels) == engine,
{
    assert(frames * channels >= 0) by (nonlinear_arith);
}

} // verus!
