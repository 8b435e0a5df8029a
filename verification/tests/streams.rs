use audiophile_player::decoder::{
    convert_planar_to_interleaved, interleave_planes, packet_capacity, probe_metadata,
    DecodeAction, DecodeEvent, FileDecoder, ReadAction, ReadEvent,
};
use audiophile_player::metadata::{MetadataRevision, Tag, TagKey, TagValue};
use audiophile_player::stream_info::{
    bit_depth, channel_count, compute_duration, first_audio_track, plan_stream, read_buffer_size,
    Codec, DurationBasis, StreamError, StreamTrack, TimeUnit,
};

fn track(id: u32, codec: Codec) -> StreamTrack {
    StreamTrack {
        id,
        codec,
        sample_rate: Some(44100),
        channel_mask: Some(0b11),
        bits_per_sample: None,
        time_unit: Some(TimeUnit { numer: 1, denom: 44100 }),
        n_frames: Some(66150),
    }
}

#[test]
fn bit_depths() {
    assert_eq!(bit_depth(&track(1, Codec::Flac)), 24);
    assert_eq!(bit_depth(&track(1, Codec::PcmS16le)), 16);
    assert_eq!(bit_depth(&track(1, Codec::PcmS24le)), 24);
    assert_eq!(bit_depth(&track(1, Codec::PcmS32le)), 32);
    assert_eq!(bit_depth(&track(1, Codec::PcmF32le)), 32);
    assert_eq!(bit_depth(&track(1, Codec::Other)), 16);
    let mut said = track(1, Codec::Flac);
    said.bits_per_sample = Some(20);
    assert_eq!(bit_depth(&said), 20);
}

#[test]
fn channels_are_counted() {
    assert_eq!(channel_count(&track(1, Codec::Flac)), 2);
    let mut other = track(1, Codec::Flac);
    other.channel_mask = None;
    assert_eq!(channel_count(&other), 2);
    other.channel_mask = Some(0b11_1111);
    assert_eq!(channel_count(&other), 6);
    other.channel_mask = Some(0xfc00_0001);
    assert_eq!(channel_count(&other), 1);
    other.channel_mask = Some(0x03ff_ffff);
    assert_eq!(channel_count(&other), 26);
}

#[test]
fn durations() {
    assert_eq!(
        compute_duration(&track(1, Codec::Flac), 1000, 24, 2),
        DurationBasis::Timed { seconds: 1, fraction_bits: 0.5f64.to_bits() }
    );
    let mut estimated = track(1, Codec::Flac);
    estimated.n_frames = None;
    assert_eq!(
        compute_duration(&estimated, 1000, 24, 2),
        DurationBasis::Estimated { file_size: 1000, sample_rate: 44100, channels: 2, bit_depth: 24 }
    );
    estimated.sample_rate = None;
    assert_eq!(compute_duration(&estimated, 1000, 24, 2), DurationBasis::Unknown);
    let mut unknown = track(1, Codec::Flac);
    unknown.time_unit = None;
    assert_eq!(compute_duration(&unknown, 1000, 24, 2), DurationBasis::Unknown);
}

#[test]
fn first_audio_track_is_planned() {
    let tracks = [track(7, Codec::Null), track(8, Codec::Flac), track(9, Codec::Other)];
    assert_eq!(first_audio_track(&tracks), Some(1));
    let plan = plan_stream(&tracks, 5000).unwrap();
    assert_eq!(plan.track_index, 1);
    assert_eq!(plan.track_id, 8);
    assert_eq!(plan.sample_rate, 44100);
    assert_eq!(plan.channels, 2);
    assert_eq!(plan.bit_depth, 24);
    let mut silent = track(1, Codec::Other);
    silent.sample_rate = None;
    assert_eq!(plan_stream(&[silent], 5000).unwrap().sample_rate, 44100);
}

#[test]
fn zero_time_units_of_other_tracks_do_not_matter() {
    let mut other = track(9, Codec::Flac);
    other.time_unit = Some(TimeUnit { numer: 0, denom: 0 });
    assert_eq!(plan_stream(&[track(8, Codec::Flac), other], 5000).unwrap().track_id, 8);
    other.n_frames = None;
    assert_eq!(
        plan_stream(&[other], 5000).unwrap().duration,
        DurationBasis::Estimated { file_size: 5000, sample_rate: 44100, channels: 2, bit_depth: 24 }
    );
}

#[test]
fn no_audio_track() {
    let error = plan_stream(&[track(7, Codec::Null)], 5000).unwrap_err();
    assert_eq!(error, StreamError::NoAudioTracks);
    assert_eq!(error.message(), "No audio tracks found");
    assert_eq!(plan_stream(&[], 5000).unwrap_err(), StreamError::NoAudioTracks);
    assert!(probe_metadata(&[], 0, &[], &[]).is_err());
}

#[test]
fn read_buffers() {
    assert_eq!(read_buffer_size(0), 65536);
    assert_eq!(read_buffer_size(655_369), 65536);
    assert_eq!(read_buffer_size(1_000_000), 100_000);
    assert_eq!(read_buffer_size(u64::MAX), 1_048_576);
}

#[test]
fn probing_and_opening_agree() {
    let tracks = [track(3, Codec::Flac)];
    let revisions = [MetadataRevision {
        tags: vec![Tag {
            std_key: Some(TagKey::TrackTitle),
            value: TagValue::Text("T".to_string()),
        }],
        visuals: vec![],
    }];
    let (meta, basis) = probe_metadata(&tracks, 9, &revisions, &[]).unwrap();
    assert_eq!(meta.title.as_deref(), Some("T"));
    assert_eq!(basis, DurationBasis::Timed { seconds: 1, fraction_bits: 0.5f64.to_bits() });
    let plan = plan_stream(&tracks, 9).unwrap();
    let decoder = FileDecoder::open(&plan, 1.5f64.to_bits(), &[], &revisions);
    assert_eq!(decoder.get_track_id(), 3);
    assert_eq!(decoder.get_info().sample_rate, 44100);
    assert_eq!(decoder.get_info().duration_bits, 1.5f64.to_bits());
    assert_eq!(decoder.get_metadata().title.as_deref(), Some("T"));
}

#[test]
fn packets_are_decoded_or_passed_over() {
    let plan = plan_stream(&[track(3, Codec::Flac)], 9).unwrap();
    let decoder = FileDecoder::open(&plan, 0, &[], &[]);
    assert_eq!(decoder.on_read(ReadEvent::Packet { track_id: 3 }), ReadAction::Decode);
    assert_eq!(decoder.on_read(ReadEvent::Packet { track_id: 4 }), ReadAction::ReadOn);
    assert_eq!(decoder.on_read(ReadEvent::IoError), ReadAction::EndOfFile);
    assert_eq!(decoder.on_read(ReadEvent::ResetRequired), ReadAction::ResetAndReadOn);
    assert_eq!(decoder.on_read(ReadEvent::OtherError), ReadAction::Fail);
    assert_eq!(decoder.on_decode(DecodeEvent::Decoded), DecodeAction::Deliver);
    assert_eq!(decoder.on_decode(DecodeEvent::DecodeError), DecodeAction::ReadOn);
    assert_eq!(decoder.on_decode(DecodeEvent::OtherError), DecodeAction::Fail);
}

#[test]
fn planes_are_interleaved() {
    let left = [1i16, 2, 3];
    let right = [-1i16, -2, -3];
    let planes: [&[i16]; 2] = [&left, &right];
    assert_eq!(convert_planar_to_interleaved(&planes, 100, 2), vec![1, -1, 2, -2, 3, -3]);
    assert_eq!(convert_planar_to_interleaved(&planes, 5, 2), vec![1, -1, 2, -2]);
    assert_eq!(convert_planar_to_interleaved(&planes, 100, 1), vec![1, 2, 3]);
    assert_eq!(convert_planar_to_interleaved(&planes, 12, 4), vec![1, -1, 2, -2, 3, -3]);
    assert_eq!(convert_planar_to_interleaved(&planes, 11, 4), vec![1, -1, 2, -2]);
}

#[test]
fn single_plane_is_taken_as_it_is() {
    let plane = [1i32, 2, 3, 4];
    let planes: [&[i32]; 1] = [&plane];
    assert_eq!(convert_planar_to_interleaved(&planes, 100, 2), vec![1, 2, 3, 4]);
    assert_eq!(convert_planar_to_interleaved(&planes, 3, 2), vec![1, 2, 3]);
    assert_eq!(interleave_planes(&planes, 3, 2), vec![1]);
}

#[test]
fn uneven_planes_need_only_what_is_copied() {
    let left = [1i16, 2, 3];
    let right = [-1i16, -2];
    let planes: [&[i16]; 2] = [&left, &right];
    assert_eq!(convert_planar_to_interleaved(&planes, 4, 2), vec![1, -1, 2, -2]);
}

#[test]
fn whole_packets_are_converted() {
    assert_eq!(packet_capacity(3, 2), 6);
    assert_eq!(packet_capacity(3, 0), 3);
    assert_eq!(packet_capacity(usize::MAX, 2), usize::MAX);
    let left = [1i16, 2, 3];
    let right = [-1i16, -2, -3];
    let planes: [&[i16]; 2] = [&left, &right];
    assert_eq!(
        convert_planar_to_interleaved(&planes, packet_capacity(3, 2), 2),
        vec![1, -1, 2, -2, 3, -3]
    );
}

#[test]
fn blocks_lose_nothing() {
    let plan = plan_stream(&[track(3, Codec::Flac)], 9).unwrap();
    let mut decoder = FileDecoder::open(&plan, 0, &[], &[]);
    assert!(!decoder.has_pending());
    assert!(decoder.take_block(4).is_empty());
    decoder.accept(vec![1, 2, 3, 4, 5, 6, 7, 8]);
    assert!(decoder.has_pending());
    assert_eq!(decoder.take_block(5), vec![1, 2, 3, 4]);
    assert_eq!(decoder.take_block(5), vec![5, 6, 7, 8]);
    assert!(!decoder.has_pending());
    decoder.accept(vec![9, 10]);
    decoder.on_seek();
    assert!(!decoder.has_pending());
    assert_eq!(decoder.get_track_id(), 3);
}
