use audiophile_player::engine::{
    AudioEngine, DecoderCommand, Effect, PositionReading, StreamFormat, UnitSettings,
    RING_BUFFER_SIZE,
};
use audiophile_player::float_bits::{f32_unit_clamp, f64_clamp, f64_floor, f64_is_less, f64_is_nan};
use audiophile_player::ring::SampleRing;
use audiophile_player::stream_info::AudioInfo;
use audiophile_player::worker::{
    CommandOutcome, DecoderWorker, WorkerAction, DECODE_BUFFER_SIZE,
};

fn info() -> AudioInfo {
    AudioInfo { sample_rate: 48000, channels: 2, bit_depth: 24, duration_bits: 10.0f64.to_bits() }
}

fn loaded() -> AudioEngine {
    let mut engine = AudioEngine::new(1);
    engine.load_decoder(info(), "/music/a.flac".to_string());
    engine
}

#[test]
fn ring_reads_back_what_was_written() {
    let mut ring = SampleRing::new(4);
    assert!(ring.write(&[1, 2, 3]));
    assert_eq!(ring.held(), 3);
    assert_eq!(ring.free(), 1);
    assert!(!ring.write(&[4, 5]));
    assert_eq!(ring.read(2), Some(vec![1, 2]));
    assert!(ring.write(&[4, 5, 6]));
    assert_eq!(ring.free(), 0);
    assert_eq!(ring.read(5), None);
    assert_eq!(ring.read(4), Some(vec![3, 4, 5, 6]));
    assert_eq!(ring.read(0), Some(vec![]));
    assert!(ring.write(&[7]));
    ring.clear();
    assert_eq!(ring.held(), 0);
}

#[test]
fn new_engine() {
    let engine = AudioEngine::new(42);
    assert_eq!(engine.get_device(), 42);
    assert_eq!(engine.get_sample_rate(), 44100);
    assert_eq!(engine.get_channels(), 2);
    assert_eq!(engine.get_bit_depth(), 16);
    assert_eq!(engine.get_duration(), 0.0f64.to_bits());
    assert_eq!(engine.get_volume(), 0.8f32.to_bits());
    assert_eq!(engine.get_buffer_stats(), (0, RING_BUFFER_SIZE));
    assert_eq!(engine.get_underrun_count(), 0);
    assert!(!engine.is_exclusive_mode());
    assert!(!engine.should_stop_playback());
    assert_eq!(
        engine.get_position(),
        PositionReading::Played { frames: 0, sample_rate: 44100 }
    );
}

#[test]
fn loading_takes_the_format_over() {
    let engine = loaded();
    assert_eq!(engine.get_sample_rate(), 48000);
    assert_eq!(engine.get_channels(), 2);
    assert_eq!(engine.get_bit_depth(), 24);
    assert_eq!(engine.get_duration(), 10.0f64.to_bits());
    assert_eq!(
        engine.stream_format(),
        StreamFormat {
            sample_rate: 48000,
            format_id: 1819304813,
            format_flags: 9,
            bytes_per_packet: 8,
            frames_per_packet: 1,
            bytes_per_frame: 8,
            channels_per_frame: 2,
            bits_per_channel: 32,
        }
    );
}

#[test]
fn render_without_a_queue_is_silent() {
    let mut engine = AudioEngine::new(1);
    let out = engine.render(3, 2);
    assert_eq!(out.samples, vec![0; 6]);
    assert_eq!(out.frames_read, 0);
    assert_eq!(engine.get_underrun_count(), 0);
}

#[test]
fn render_hands_out_whole_frames_and_silence() {
    let mut engine = loaded();
    assert!(engine.queue_samples(&[1, 2, 3, 4, 5]));
    let out = engine.render(4, 2);
    assert_eq!(out.samples, vec![1, 2, 3, 4, 0, 0, 0, 0]);
    assert_eq!(out.frames_read, 2);
    assert_eq!(engine.get_underrun_count(), 1);
    assert_eq!(engine.get_buffer_stats().0, 5);
    assert_eq!(
        engine.get_position(),
        PositionReading::Played { frames: 2, sample_rate: 48000 }
    );
    let rest = engine.render(1, 1);
    assert_eq!(rest.samples, vec![5]);
}

#[test]
fn no_silence_while_queued() {
    let mut engine = loaded();
    assert!(engine.queue_samples(&[1, 2, 3, 4, 5, 6]));
    let out = engine.render(2, 2);
    assert_eq!(out.samples, vec![1, 2, 3, 4]);
    assert_eq!(engine.get_underrun_count(), 0);
}

#[test]
fn no_underrun_at_the_end_of_the_file() {
    let mut engine = loaded();
    engine.set_eof(true);
    engine.render(2, 2);
    assert_eq!(engine.get_underrun_count(), 0);
}

#[test]
fn playback_is_bit_perfect() {
    let mut engine = loaded();
    let mut worker = DecoderWorker::new(2);
    let mut taken: Vec<u32> = Vec::new();
    let mut played: Vec<u32> = Vec::new();
    for round in 0..20u32 {
        let packet: Vec<u32> = (0..6).map(|i| 1 + round * 6 + i).collect();
        assert_eq!(worker.on_decoded(&mut engine, &packet), WorkerAction::Again);
        taken.extend(&packet);
        let out = engine.render(2, 2);
        played.extend(&out.samples[..2 * out.frames_read]);
    }
    loop {
        let out = engine.render(2, 2);
        if out.frames_read == 0 {
            break;
        }
        played.extend(&out.samples[..2 * out.frames_read]);
    }
    assert_eq!(played, taken);
}

#[test]
fn whole_buffers_are_never_dropped() {
    let mut engine = loaded();
    let mut worker = DecoderWorker::new(2);
    worker.on_command(Some(DecoderCommand::Play));
    let mut decoded: Vec<u32> = Vec::new();
    let mut played: Vec<u32> = Vec::new();
    let mut next: u32 = 1;
    for _ in 0..80 {
        if worker.poll(&mut engine) == WorkerAction::Decode {
            let block: Vec<u32> = (next..next + DECODE_BUFFER_SIZE as u32).collect();
            next += DECODE_BUFFER_SIZE as u32;
            decoded.extend(&block);
            assert_eq!(worker.on_decoded(&mut engine, &block), WorkerAction::Again);
        }
        let out = engine.render(9000, 2);
        played.extend(&out.samples[..2 * out.frames_read]);
    }
    assert_eq!(worker.total_frames, decoded.len() as u64 / 2);
    loop {
        let out = engine.render(100_000, 2);
        if out.frames_read == 0 {
            break;
        }
        played.extend(&out.samples[..2 * out.frames_read]);
    }
    assert_eq!(played, decoded);
}

#[test]
fn position_never_goes_back() {
    let mut engine = loaded();
    let mut worker = DecoderWorker::new(2);
    worker.on_decoded(&mut engine, &[1, 2, 3, 4, 5, 6]);
    let mut last: u64 = 0;
    for _ in 0..3 {
        engine.render(1, 2);
        match engine.get_position() {
            PositionReading::Played { frames, sample_rate } => {
                assert_eq!(sample_rate, 48000);
                assert_eq!(frames, last + 1);
                last = frames;
            }
            PositionReading::AtEnd { .. } => unreachable!(),
        }
    }
    worker.on_decoded(&mut engine, &[]);
    engine.render(1, 2);
    assert!(matches!(engine.get_position(), PositionReading::AtEnd { .. }));
}

#[test]
fn frames_are_accounted() {
    let mut engine = loaded();
    let mut worker = DecoderWorker::new(2);
    worker.on_decoded(&mut engine, &[1, 2, 3, 4, 5, 6]);
    assert_eq!(worker.total_frames, 3);
    engine.render(2, 2);
    assert!(!engine.should_stop_playback());
    worker.on_decoded(&mut engine, &[]);
    assert!(worker.eof_reached);
    assert!(!engine.should_stop_playback());
    engine.render(1, 2);
    assert!(engine.should_stop_playback());
}

#[test]
fn drained_output_shows_the_end() {
    let mut engine = loaded();
    let mut worker = DecoderWorker::new(2);
    worker.on_decoded(&mut engine, &[1, 2]);
    worker.on_decoded(&mut engine, &[]);
    engine.render(1, 2);
    engine.render(1, 2);
    assert!(engine.should_stop_playback());
    assert_eq!(
        engine.get_position(),
        PositionReading::AtEnd { duration_bits: 10.0f64.to_bits() }
    );
}

#[test]
fn position_without_a_known_length() {
    let mut engine = AudioEngine::new(1);
    engine.load_decoder(
        AudioInfo { sample_rate: 0, channels: 2, bit_depth: 16, duration_bits: 0 },
        "x".to_string(),
    );
    engine.set_eof(true);
    assert_eq!(
        engine.get_position(),
        PositionReading::Played { frames: 0, sample_rate: 1 }
    );
    assert_eq!(engine.cap_position(99.0f64.to_bits()), 99.0f64.to_bits());
}

#[test]
fn position_is_capped() {
    let engine = loaded();
    assert_eq!(engine.cap_position(11.0f64.to_bits()), 10.0f64.to_bits());
    assert_eq!(engine.cap_position(9.5f64.to_bits()), 9.5f64.to_bits());
}

#[test]
fn playing_and_pausing() {
    let mut engine = AudioEngine::new(1);
    assert_eq!(engine.play(), vec![Effect::SetUpUnit { device: 1 }, Effect::StartUnit]);
    engine.unit_set_up();
    engine.load_decoder(info(), "x".to_string());
    assert_eq!(
        engine.play(),
        vec![Effect::SetUpUnit { device: 1 }, Effect::SendPlay, Effect::StartUnit]
    );
    engine.unit_set_up();
    assert_eq!(engine.play(), vec![Effect::SendPlay, Effect::StartUnit]);
    engine.playback_started();
    assert_eq!(engine.pause(), vec![Effect::SendPause, Effect::StopUnit]);
    assert_eq!(engine.stop(), vec![Effect::StopUnit, Effect::SendPause]);
    assert_eq!(
        engine.unload(),
        vec![Effect::SendStop, Effect::JoinDecoder, Effect::StopUnit]
    );
    assert_eq!(engine.unload(), vec![Effect::StopUnit]);
}

#[test]
fn unit_fits_the_file() {
    let mut engine = loaded();
    engine.unit_set_up();
    let other_depth = AudioInfo { bit_depth: 16, duration_bits: 0, ..info() };
    engine.load_decoder(other_depth, "b".to_string());
    assert_eq!(engine.play(), vec![Effect::SendPlay, Effect::StartUnit]);
    for other in [
        AudioInfo { sample_rate: 96000, ..info() },
        AudioInfo { channels: 1, ..info() },
    ] {
        let mut engine = loaded();
        engine.unit_set_up();
        assert_eq!(
            engine.unload(),
            vec![Effect::SendStop, Effect::JoinDecoder, Effect::StopUnit]
        );
        engine.load_decoder(other, "c".to_string());
        assert_eq!(engine.unit_settings().format.sample_rate, other.sample_rate);
        assert_eq!(engine.unit_settings().format.channels_per_frame, other.channels);
        assert_eq!(engine.pause(), vec![Effect::SendPause]);
        assert_eq!(
            engine.play(),
            vec![Effect::SetUpUnit { device: 1 }, Effect::SendPlay, Effect::StartUnit]
        );
    }
}

#[test]
fn nothing_is_decoded_while_paused() {
    let mut engine = loaded();
    let mut worker = DecoderWorker::new(2);
    let waits = WorkerAction::Wait { millis: 10 };
    assert_eq!(worker.poll(&mut engine), waits);
    worker.on_reopened(&mut engine, 100);
    assert_eq!(worker.poll(&mut engine), waits);
    worker.on_command(Some(DecoderCommand::Play));
    assert_eq!(worker.poll(&mut engine), WorkerAction::Decode);
    worker.on_decoded(&mut engine, &[1, 2, 3, 4]);
    worker.on_command(Some(DecoderCommand::Pause));
    for command in [None, Some(DecoderCommand::Pause), None] {
        worker.on_command(command);
        assert_eq!(worker.poll(&mut engine), waits);
    }
    assert_eq!(engine.render(1, 2).samples, vec![1, 2]);
    assert_eq!(worker.poll(&mut engine), waits);
    assert_eq!(engine.look_for_room(), Some(RING_BUFFER_SIZE - 2));
    worker.on_command(Some(DecoderCommand::Play));
    assert_eq!(worker.poll(&mut engine), WorkerAction::Decode);
}

#[test]
fn frames_are_accounted_over_seeks() {
    let mut engine = loaded();
    let mut worker = DecoderWorker::new(2);
    let accounted = |engine: &mut AudioEngine, worker: &DecoderWorker| {
        let queued = (RING_BUFFER_SIZE - engine.look_for_room().unwrap()) as u64 / 2;
        match engine.get_position() {
            PositionReading::Played { frames, .. } => frames + queued == worker.total_frames,
            PositionReading::AtEnd { .. } => false,
        }
    };
    assert!(accounted(&mut engine, &worker));
    worker.on_decoded(&mut engine, &[1; 20]);
    engine.render(3, 2);
    assert!(accounted(&mut engine, &worker));
    engine.seek(0, 700);
    engine.seek(0, 500);
    assert!(!accounted(&mut engine, &worker));
    engine.render(3, 2);
    worker.on_reopened(&mut engine, 700);
    worker.on_reopened(&mut engine, 500);
    assert!(accounted(&mut engine, &worker));
    worker.on_decoded(&mut engine, &[1; 8]);
    engine.render(1, 2);
    assert!(accounted(&mut engine, &worker));
    assert_eq!(worker.total_frames, 504);
}

#[test]
fn switching_the_device() {
    let mut engine = loaded();
    assert_eq!(engine.select_device(9), vec![]);
    assert_eq!(engine.get_device(), 9);
    engine.unit_set_up();
    assert_eq!(
        engine.select_device(8),
        vec![Effect::StopUnit, Effect::SendPause, Effect::SetUpUnit { device: 8 }]
    );
    assert_eq!(engine.get_device(), 8);
    assert_eq!(
        engine.unit_settings(),
        UnitSettings { device: 8, format: engine.stream_format() }
    );
}

#[test]
fn seeking_drops_what_was_queued() {
    let mut engine = loaded();
    engine.queue_samples(&[1, 2, 3, 4]);
    let target = engine.seek_target(25.0f64.to_bits());
    assert_eq!(target, 10.0f64.to_bits());
    let command = engine.seek(target, 480000);
    assert!(matches!(
        command,
        Some(DecoderCommand::Reload(path, at)) if path == "/music/a.flac" && at == 10.0f64.to_bits()
    ));
    let out = engine.render(1, 2);
    assert_eq!(out.samples, vec![0, 0]);
    assert_eq!(
        engine.get_position(),
        PositionReading::Played { frames: 480000, sample_rate: 48000 }
    );
}

#[test]
fn seeking_without_a_file_sends_nothing() {
    let mut engine = AudioEngine::new(1);
    assert!(engine.seek(0, 0).is_none());
    engine.load_decoder(info(), String::new());
    assert!(engine.seek(0, 0).is_none());
}

#[test]
fn seek_positions_are_clamped() {
    let bits = |x: f64| x.to_bits();
    assert_eq!(f64_clamp(bits(-1.0), bits(10.0)), bits(0.0));
    assert_eq!(f64_clamp(bits(f64::NAN), bits(10.0)), bits(0.0));
    assert_eq!(f64_clamp(bits(3.5), bits(10.0)), bits(3.5));
    assert_eq!(f64_clamp(bits(f64::INFINITY), bits(10.0)), bits(10.0));
    assert_eq!(f64_clamp(bits(3.5), bits(f64::NAN)), bits(3.5));
}

#[test]
fn volume_is_clamped() {
    let bits = |x: f32| x.to_bits();
    assert_eq!(f32_unit_clamp(bits(0.25)), bits(0.25));
    assert_eq!(f32_unit_clamp(bits(-0.5)), bits(0.0));
    assert_eq!(f32_unit_clamp(bits(1.5)), bits(1.0));
    assert_eq!(f32_unit_clamp(bits(f32::INFINITY)), bits(1.0));
    assert_eq!(f32_unit_clamp(bits(-0.0)), bits(-0.0));
    let mut engine = AudioEngine::new(1);
    engine.set_volume(bits(2.0));
    assert_eq!(engine.get_volume(), bits(1.0));
}

#[test]
fn numbers_by_their_bits() {
    let values = [0.0f64, -0.0, 1.0, -1.0, 3.0, 59.999, 1e9, 4503599627370497.5, f64::INFINITY, f64::NAN];
    for a in values {
        assert_eq!(f64_is_nan(a.to_bits()), a.is_nan());
        for b in values {
            assert_eq!(f64_is_less(a.to_bits(), b.to_bits()), a < b);
        }
    }
    for x in [0.0f64, 0.99, 1.0, 59.999, 61.5, 1e9, 1.8e19, 4503599627370497.5, 1e300] {
        assert_eq!(f64_floor(x.to_bits()), x.floor() as u64);
    }
}

#[test]
fn commands_of_the_decoder_thread() {
    let mut worker = DecoderWorker::new(2);
    assert!(worker.is_paused);
    assert!(matches!(worker.on_command(Some(DecoderCommand::Play)), CommandOutcome::GoOn));
    assert!(!worker.is_paused);
    assert!(matches!(worker.on_command(None), CommandOutcome::GoOn));
    assert!(matches!(worker.on_command(Some(DecoderCommand::Pause)), CommandOutcome::GoOn));
    assert!(worker.is_paused);
    assert!(matches!(worker.on_command(Some(DecoderCommand::Stop)), CommandOutcome::End));
    assert!(matches!(
        worker.on_command(Some(DecoderCommand::Reload("p".to_string(), 5))),
        CommandOutcome::Reopen { path, position_bits } if path == "p" && position_bits == 5
    ));
}

#[test]
fn decoder_thread_waits_and_decodes() {
    let mut engine = AudioEngine::new(1);
    let mut worker = DecoderWorker::new(2);
    assert_eq!(worker.poll(&mut engine), WorkerAction::Wait { millis: 10 });
    worker.on_command(Some(DecoderCommand::Play));
    assert_eq!(worker.poll(&mut engine), WorkerAction::End);
    engine.load_decoder(info(), "x".to_string());
    assert_eq!(worker.poll(&mut engine), WorkerAction::Decode);
    let room = RING_BUFFER_SIZE - DECODE_BUFFER_SIZE;
    assert_eq!(worker.on_decoded(&mut engine, &vec![1; room]), WorkerAction::Again);
    assert_eq!(worker.poll(&mut engine), WorkerAction::Decode);
    assert_eq!(engine.get_buffer_stats().0, room);
    assert_eq!(worker.on_decoded(&mut engine, &[1, 2]), WorkerAction::Again);
    assert_eq!(worker.poll(&mut engine), WorkerAction::Wait { millis: 5 });
    assert_eq!(
        worker.on_decoded(&mut engine, &vec![1; DECODE_BUFFER_SIZE]),
        WorkerAction::Wait { millis: 5 }
    );
    assert_eq!(worker.total_frames, (room as u64 + 2) / 2);
    engine.render(1, 2);
    assert_eq!(worker.poll(&mut engine), WorkerAction::Decode);
    assert_eq!(
        worker.on_decoded(&mut engine, &vec![1; DECODE_BUFFER_SIZE]),
        WorkerAction::Again
    );
    assert_eq!(engine.look_for_room(), Some(0));
    assert_eq!(worker.poll(&mut engine), WorkerAction::Wait { millis: 5 });
    assert_eq!(worker.on_decode_error(), WorkerAction::Wait { millis: 10 });
}

#[test]
fn reopening_counts_anew() {
    let mut engine = loaded();
    let mut worker = DecoderWorker::new(2);
    worker.on_command(Some(DecoderCommand::Play));
    worker.on_decoded(&mut engine, &[1, 2, 3, 4]);
    worker.on_decoded(&mut engine, &[]);
    assert!(worker.eof_reached);
    engine.seek(0, 1000);
    worker.on_reopened(&mut engine, 1000);
    assert!(!worker.eof_reached);
    assert_eq!(worker.total_frames, 1000);
    assert!(!engine.should_stop_playback());
    worker.on_decoded(&mut engine, &[1, 2]);
    assert_eq!(worker.total_frames, 1001);
    worker.on_end(&mut engine);
}
