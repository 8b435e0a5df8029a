//! The decoder thread as a state machine: what it does with a command, when it waits, when it
//! decodes, and what it makes of what was decoded.
use vstd::prelude::*;

use crate::engine::{AudioEngine, DecoderCommand, EngineState, RING_BUFFER_SIZE};
use crate::ring::write_fits;

verus! {

/// The most samples that are decoded at once.
pub const DECODE_BUFFER_SIZE: usize = 65536;

/// What the thread does about a command.
#[derive(Debug)]
pub enum CommandOutcome {
    /// It goes on.
    GoOn,
    /// It ends.
    End,
    /// It opens the file anew and seeks to the position, given by the bit pattern of its
    /// seconds. A seek that fails leaves the file at its start.
    Reopen { path: String, position_bits: u64 },
}

/// What the thread does about a command.
pub enum CommandOutcomeView {
    GoOn,
    End,
    Reopen { path: Seq<char>, position_bits: u64 },
}

impl View for CommandOutcome {
    type V = CommandOutcomeView;

    open spec fn view(&self) -> CommandOutcomeView {
        match self {
            CommandOutcome::GoOn => CommandOutcomeView::GoOn,
            CommandOutcome::End => CommandOutcomeView::End,
            CommandOutcome::Reopen { path, position_bits } => CommandOutcomeView::Reopen {
                path: path@,
                position_bits: *position_bits,
            },
        }
    }
}

/// What the thread does about a command: a stop ends it, a reload opens the file anew, and anything
/// else lets it go on.
pub open spec fn outcome_of(command: Option<DecoderCommand>) -> CommandOutcomeView {
    match command {
        Some(DecoderCommand::Stop) => CommandOutcomeView::End,
        Some(DecoderCommand::Reload(path, position_bits)) => CommandOutcomeView::Reopen {
            path: path@,
            position_bits,
        },
        _ => CommandOutcomeView::GoOn,
    }
}

/// What the thread does next.
#[derive(Clone, Copy, Debug, PartialEq, Eq, Structural)]
pub enum WorkerAction {
    /// Look for a command again at once.
    Again,
    /// Wait so many milliseconds, then look for a command.
    Wait { millis: u64 },
    /// Decode up to `DECODE_BUFFER_SIZE` samples.
    Decode,
    /// End.
    End,
}

/// The state of the decoder thread.
#[derive(Clone, Copy, Debug, PartialEq, Eq, Structural)]
pub struct DecoderWorker {
    pub is_paused: bool,
    pub eof_reached: bool,
    pub total_frames: u64,
    pub channels: u32,
}

/// What a step of the thread comes to: its own state, the engine's, and what is done next.
pub struct WorkerStep {
    pub worker: DecoderWorker,
    pub engine: EngineState,
    pub action: WorkerAction,
}

impl DecoderWorker {
    /// The state after a command. Only play and pause change it.
    pub open spec fn commanded(self, command: Option<DecoderCommand>) -> DecoderWorker {
        match command {
            Some(DecoderCommand::Play) => DecoderWorker { is_paused: false, ..self },
            Some(DecoderCommand::Pause) => DecoderWorker { is_paused: true, ..self },
            _ => self,
        }
    }

    /// The state and the engine's after the file was opened anew at the frame `start_frame`.
    pub open spec fn reopened(self, engine: EngineState, start_frame: u64) -> (
        DecoderWorker,
        EngineState,
    ) {
        (
            DecoderWorker { eof_reached: false, total_frames: start_frame, ..self },
            EngineState { is_eof: false, decoded_frames: start_frame, ..engine },
        )
    }

    /// The engine once the thread has ended: it has the frame count.
    pub open spec fn ended(self, engine: EngineState) -> EngineState {
        EngineState { decoded_frames: self.total_frames, ..engine }
    }

    /// The step before decoding. A thread that is paused or at the end of the file waits. One
    /// without a queue ends. One whose queue has less room than a whole decode buffer waits, any
    /// other decodes, so that whatever is decoded fits; both take note of how full the queue is.
    pub open spec fn polled(self, engine: EngineState) -> WorkerStep {
        if self.is_paused || self.eof_reached {
            WorkerStep { worker: self, engine, action: WorkerAction::Wait { millis: 10 } }
        } else {
            match engine.queue {
                None => WorkerStep { worker: self, engine, action: WorkerAction::End },
                Some(queue) => WorkerStep {
                    worker: self,
                    engine: EngineState { buffer_level: queue.len() as u64, ..engine },
                    action: if RING_BUFFER_SIZE - queue.len() < DECODE_BUFFER_SIZE {
                        WorkerAction::Wait { millis: 5 }
                    } else {
                        WorkerAction::Decode
                    },
                },
            }
        }
    }

    /// The step after `samples` were decoded. No samples mean the end of the file. Samples that
    /// fit are queued and their frames counted; the rest of an incomplete frame is not. Samples
    /// that do not fit, which a thread that polls before it decodes never has, are not queued,
    /// and the thread waits.
    pub open spec fn decoded(self, engine: EngineState, samples: Seq<u32>) -> WorkerStep {
        if samples.len() == 0 {
            WorkerStep {
                worker: DecoderWorker { eof_reached: true, ..self },
                engine: EngineState { decoded_frames: self.total_frames, is_eof: true, ..engine },
                action: WorkerAction::Again,
            }
        } else {
            match engine.queue {
                None => WorkerStep { worker: self, engine, action: WorkerAction::Wait { millis: 5 } },
                Some(queue) => if write_fits(queue, RING_BUFFER_SIZE as nat, samples) {
                    let total = (self.total_frames + samples.len() / (self.channels as nat)) as u64;
                    WorkerStep {
                        worker: DecoderWorker { total_frames: total, ..self },
                        engine: EngineState {
                            queue: Some(queue + samples),
                            decoded_frames: total,
                            ..engine
                        },
                        action: WorkerAction::Again,
                    }
                } else {
                    WorkerStep {
                        worker: self,
                        engine,
                        action: WorkerAction::Wait { millis: 5 },
                    }
                },
            }
        }
    }

    /// A thread that has just started: paused, with nothing decoded.
    pub fn new(channels: u32) -> (r: DecoderWorker)
        ensures
            r == (DecoderWorker {
                is_paused: true,
                eof_reached: false,
                total_frames: 0,
                channels,
            }),
    {
        DecoderWorker { is_paused: true, eof_reached: false, total_frames: 0, channels }
    }

    /// Takes a command, where there is one.
    pub fn on_command(&mut self, command: Option<DecoderCommand>) -> (r: CommandOutcome)
        ensures
            *final(self) == old(self).commanded(command),
            r@ == outcome_of(command),
            command matches Some(DecoderCommand::Reload(path, position_bits)) ==> r
                == (CommandOutcome::Reopen { path, position_bits }),
    {
        match command {
            Some(DecoderCommand::Play) => {
                self.is_paused = false;
                CommandOutcome::GoOn
            },
            Some(DecoderCommand::Pause) => {
                self.is_paused = true;
                CommandOutcome::GoOn
            },
            Some(DecoderCommand::Stop) => CommandOutcome::End,
            Some(DecoderCommand::Reload(path, position_bits)) => CommandOutcome::Reopen {
                path,
                position_bits,
            },
            None => CommandOutcome::GoOn,
        }
    }

    /// Takes note that the file was opened anew at the frame `start_frame`.
    pub fn on_reopened(&mut self, engine: &mut AudioEngine, start_frame: u64)
        requires
            old(engine).wf(),
        ensures
            final(engine).wf(),
            (*final(self), final(engine)@) == old(self).reopened(old(engine)@, start_frame),
    {
        self.eof_reached = false;
        engine.set_eof(false);
        self.total_frames = start_frame;
        engine.set_decoded(start_frame);
    }

    /// Decides what comes next, before anything is decoded.
    pub fn poll(&self, engine: &mut AudioEngine) -> (r: WorkerAction)
        requires
            old(engine).wf(),
        ensures
            final(engine).wf(),
            final(engine)@ == self.polled(old(engine)@).engine,
            r == self.polled(old(engine)@).action,
    {
        if self.is_paused || self.eof_reached {
            return WorkerAction::Wait { millis: 10 };
        }
        match engine.look_for_room() {
            None => WorkerAction::End,
            Some(free) => if free < DECODE_BUFFER_SIZE {
                WorkerAction::Wait { millis: 5 }
            } else {
                WorkerAction::Decode
            },
        }
    }

    /// Takes what was decoded. Frames are counted by the channels of the file, of which there
    /// must be one, and the count must stay within 64 bits.
    pub fn on_decoded(&mut self, engine: &mut AudioEngine, samples: &[u32]) -> (r: WorkerAction)
        requires
            old(engine).wf(),
            samples@.len() > 0 ==> old(self).channels > 0 && old(self).total_frames
                + samples@.len() / (old(self).channels as nat) <= u64::MAX,
        ensures
            final(engine).wf(),
            *final(self) == old(self).decoded(old(engine)@, samples@).worker,
            final(engine)@ == old(self).decoded(old(engine)@, samples@).engine,
            r == old(self).decoded(old(engine)@, samples@).action,
    {
        if samples.len() == 0 {
            engine.set_decoded(self.total_frames);
            self.eof_reached = true;
            engine.set_eof(true);
            return WorkerAction::Again;
        }
        if engine.queue_samples(samples) {
            self.total_frames = self.total_frames + (samples.len() / self.channels as usize) as u64;
            engine.set_decoded(self.total_frames);
            WorkerAction::Again
        } else {
            WorkerAction::Wait { millis: 5 }
        }
    }

    /// What comes after a decoding error: the thread waits.
    pub fn on_decode_error(&self) -> (r: WorkerAction)
        ensures
            r == (WorkerAction::Wait { millis: 10 }),
    {
        WorkerAction::Wait { millis: 10 }
    }

    /// Hands the frame count over when the thread ends.
    pub fn on_end(&self, engine: &mut AudioEngine)
        requires
            old(engine).wf(),
        ensures
            final(engine).wf(),
            final(engine)@ == self.ended(old(engine)@),
    {
        engine.set_decoded(self.total_frames);
    }
}

/// Playing and pausing set the thread going and hold it, and change nothing else; a stop ends it; a
/// reload opens the very file anew, at the very position; without a command it goes on as it is.
pub proof fn law_commands_are_followed(worker: DecoderWorker, command: Option<DecoderCommand>)
    ensures
        command is None ==> worker.commanded(command) == worker && outcome_of(command) is GoOn,
        command matches Some(DecoderCommand::Play) ==> {
            &&& worker.commanded(command) == (DecoderWorker { is_paused: false, ..worker })
            &&& outcome_of(command) is GoOn
        },
        command matches Some(DecoderCommand::Pause) ==> {
            &&& worker.commanded(command) == (DecoderWorker { is_paused: true, ..worker })
            &&& outcome_of(command) is GoOn
        },
        command matches Some(DecoderCommand::Stop) ==> {
            &&& worker.commanded(command) == worker
            &&& outcome_of(command) is End
        },
        command matches Some(DecoderCommand::Reload(path, position_bits)) ==> {
            &&& worker.commanded(command) == worker
            &&& outcome_of(command) == (CommandOutcomeView::Reopen { path: path@, position_bits })
        },
{
}

/// A thread starts paused, at the first frame, with the channels of its file.
pub proof fn law_thread_starts_paused(channels: u32, r: DecoderWorker)
    requires
        call_ensures(DecoderWorker::new, (channels,), r),
    ensures
        r.is_paused,
        !r.eof_reached,
        r.total_frames == 0,
        r.channels == channels,
{
}

/// A thread that is paused or at the end of its file waits ten milliseconds. Any other decodes
/// where the queue has room for a whole decode buffer, waits five milliseconds where it has not,
/// and ends where there is no queue. It takes note of how full the queue is, and changes nothing
/// else.
pub proof fn law_thread_decodes_where_there_is_room(worker: DecoderWorker, engine: EngineState)
    ensures
        worker.polled(engine).worker == worker,
        worker.is_paused || worker.eof_reached ==> {
            &&& worker.polled(engine).action == (WorkerAction::Wait { millis: 10 })
            &&& worker.polled(engine).engine == engine
        },
        !worker.is_paused && !worker.eof_reached ==> {
            &&& engine.queue is None ==> worker.polled(engine).action is End
            &&& engine.queue matches Some(queue) ==> {
                &&& queue.len() + 65536 <= 2097152 ==> worker.polled(engine).action is Decode
                &&& queue.len() + 65536 > 2097152 ==> worker.polled(engine).action
                    == (WorkerAction::Wait { millis: 5 })
                &&& queue.len() <= 2097152 ==> worker.polled(engine).engine.buffer_level
                    == queue.len()
                &&& worker.polled(engine).engine == (EngineState {
                    buffer_level: worker.polled(engine).engine.buffer_level,
                    ..engine
                })
            }
        },
{
}

/// Decoded samples that fit stand behind what was queued, in order, and so many whole frames more
/// are counted, by the thread and the engine alike. Samples that do not fit change nothing, and the
/// thread waits.
pub proof fn law_decoded_samples_are_queued(
    worker: DecoderWorker,
    engine: EngineState,
    queue: Seq<u32>,
    samples: Seq<u32>,
)
    requires
        engine.queue == Some(queue),
        samples.len() > 0,
        worker.channels > 0,
        worker.total_frames + samples.len() / (worker.channels as nat) <= u64::MAX,
    ensures
        ({
            let step = worker.decoded(engine, samples);
            &&& queue.len() + samples.len() <= 2097152 ==> {
                &&& step.engine.queue == Some(queue + samples)
                &&& step.worker.total_frames == worker.total_frames + samples.len() / (
                worker.channels as nat)
                &&& step.engine.decoded_frames == step.worker.total_frames
                &&& step.action is Again
                &&& step.worker == (DecoderWorker {
                    total_frames: step.worker.total_frames,
                    ..worker
                })
                &&& step.engine == (EngineState {
                    queue: step.engine.queue,
                    decoded_frames: step.engine.decoded_frames,
                    ..engine
                })
            }
            &&& queue.len() + samples.len() > 2097152 ==> {
                &&& step.worker == worker
                &&& step.engine == engine
                &&& step.action == (WorkerAction::Wait { millis: 5 })
            }
        }),
{
}

/// No samples mean the end of the file: the thread and the engine take note of it, and the queue
/// stays.
pub proof fn law_no_samples_mean_the_end(worker: DecoderWorker, engine: EngineState)
    ensures
        ({
            let step = worker.decoded(engine, Seq::empty());
            &&& step.worker == (DecoderWorker { eof_reached: true, ..worker })
            &&& step.engine == (EngineState {
                is_eof: true,
                decoded_frames: worker.total_frames,
                ..engine
            })
            &&& step.action is Again
        }),
{
}

/// A file that is opened anew is no longer at its end and counts its frames from where it was
/// opened, for the thread and the engine alike; whether the thread is paused stays, and so does the
/// queue.
pub proof fn law_reopened_file_counts_from_its_frame(
    worker: DecoderWorker,
    engine: EngineState,
    frame: u64,
)
    ensures
        worker.reopened(engine, frame).0 == (DecoderWorker {
            eof_reached: false,
            total_frames: frame,
            ..worker
        }),
        worker.reopened(engine, frame).1 == (EngineState {
            is_eof: false,
            decoded_frames: frame,
            ..engine
        }),
        worker.ended(engine) == (EngineState { decoded_frames: worker.total_frames, ..engine }),
{
}

/// After a decoding error the thread waits ten milliseconds and goes on.
pub proof fn law_decoding_error_waits(worker: &DecoderWorker, r: WorkerAction)
    requires
        call_ensures(DecoderWorker::on_decode_error, (worker,), r),
    ensures
        r == (WorkerAction::Wait { millis: 10 }),
{
}

/// The thread follows a command: its state and what it does about it.
pub proof fn law_following_a_command(
    worker: &mut DecoderWorker,
    command: Option<DecoderCommand>,
    r: CommandOutcome,
)
    requires
        call_ensures(DecoderWorker::on_command, (worker, command), r),
    ensures
        command is None ==> *final(worker) == *old(worker) && r is GoOn,
        command == Some(DecoderCommand::Play) ==> *final(worker) == (DecoderWorker {
            is_paused: false,
            ..*old(worker)
        }) && r is GoOn,
        command == Some(DecoderCommand::Pause) ==> *final(worker) == (DecoderWorker {
            is_paused: true,
            ..*old(worker)
        }) && r is GoOn,
        command == Some(DecoderCommand::Stop) ==> r is End,
        command matches Some(DecoderCommand::Reload(path, at)) ==> (r matches CommandOutcome::Reopen {
            path: file,
            position_bits,
        } && file@ == path@ && position_bits == at),
{
    law_commands_are_followed(*old(worker), command);
}

/// Before it decodes, the thread waits, ends or goes on as its state and the room in the queue say.
pub proof fn law_polling(worker: &DecoderWorker, engine: &mut AudioEngine, r: WorkerAction)
    requires
        call_ensures(DecoderWorker::poll, (worker, engine), r),
    ensures
        worker.is_paused || worker.eof_reached ==> r == (WorkerAction::Wait { millis: 10 })
            && final(engine)@ == old(engine)@,
        !worker.is_paused && !worker.eof_reached ==> {
            &&& old(engine)@.queue is None ==> r is End
            &&& old(engine)@.queue matches Some(queue) ==> {
                &&& queue.len() + 65536 <= 2097152 ==> r is Decode
                &&& queue.len() + 65536 > 2097152 ==> r == (WorkerAction::Wait { millis: 5 })
            }
        },
        final(engine)@.queue == old(engine)@.queue,
        final(engine)@.position_frames == old(engine)@.position_frames,
        final(engine)@.decoded_frames == old(engine)@.decoded_frames,
{
    law_thread_decodes_where_there_is_room(*worker, old(engine)@);
}

/// What was decoded is queued and counted where it fits; no samples mean the end of the file.
pub proof fn law_taking_decoded_samples(
    worker: &mut DecoderWorker,
    engine: &mut AudioEngine,
    samples: &[u32],
    r: WorkerAction,
    queue: Seq<u32>,
)
    requires
        call_ensures(DecoderWorker::on_decoded, (worker, engine, samples), r),
        old(engine)@.queue == Some(queue),
        old(worker).channels > 0,
        old(worker).total_frames + samples@.len() / (old(worker).channels as nat) <= u64::MAX,
    ensures
        samples@.len() == 0 ==> {
            &&& final(worker).eof_reached
            &&& final(engine)@.is_eof
            &&& final(engine)@.queue == Some(queue)
            &&& final(worker).total_frames == old(worker).total_frames
            &&& r is Again
        },
        samples@.len() > 0 && queue.len() + samples@.len() <= 2097152 ==> {
            &&& final(engine)@.queue == Some(queue + samples@)
            &&& final(worker).total_frames == old(worker).total_frames + samples@.len() / (
            old(worker).channels as nat)
            &&& final(engine)@.decoded_frames == final(worker).total_frames
            &&& final(worker).eof_reached == old(worker).eof_reached
            &&& final(engine)@.is_eof == old(engine)@.is_eof
            &&& r is Again
        },
        samples@.len() > 0 && queue.len() + samples@.len() > 2097152 ==> {
            &&& *final(worker) == *old(worker)
            &&& final(engine)@ == old(engine)@
            &&& r == (WorkerAction::Wait { millis: 5 })
        },
        final(worker).is_paused == old(worker).is_paused,
        final(worker).channels == old(worker).channels,
{
    if samples@.len() > 0 {
        law_decoded_samples_are_queued(*old(worker), old(engine)@, queue, samples@);
    } else {
        law_no_samples_mean_the_end(*old(worker), old(engine)@);
        assert(samples@ =~= Seq::<u32>::empty());
    }
}

/// A file that is opened anew counts from its frame, for the thread and the engine; and a thread
/// that ends hands its count over.
pub proof fn law_reopening_and_ending(
    worker: &mut DecoderWorker,
    engine: &mut AudioEngine,
    start_frame: u64,
    last: &DecoderWorker,
    other: &mut AudioEngine,
)
    requires
        call_ensures(DecoderWorker::on_reopened, (worker, engine, start_frame), ()),
        call_ensures(DecoderWorker::on_end, (last, other), ()),
    ensures
        *final(worker) == (DecoderWorker {
            eof_reached: false,
            total_frames: start_frame,
            ..*old(worker)
        }),
        final(engine)@ == (EngineState {
            is_eof: false,
            decoded_frames: start_frame,
            ..old(engine)@
        }),
        final(other)@ == (EngineState { decoded_frames: last.total_frames, ..old(other)@ }),
{
    law_reopened_file_counts_from_its_frame(*old(worker), old(engine)@, start_frame);
    law_reopened_file_counts_from_its_frame(*last, old(other)@, start_frame);
}

/// Without a queue nothing that was decoded is kept or counted, and the thread waits.
pub proof fn law_nothing_is_queued_without_a_queue(
    worker: DecoderWorker,
    engine: EngineState,
    samples: Seq<u32>,
)
    requires
        engine.queue is None,
        samples.len() > 0,
    ensures
        worker.decoded(engine, samples).worker == worker,
        worker.decoded(engine, samples).engine == engine,
        worker.decoded(engine, samples).action == (WorkerAction::Wait { millis: 5 }),
{
}

} // verus!
