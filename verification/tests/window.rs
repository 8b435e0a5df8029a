use audiophile_player::artwork::Picture;
use audiophile_player::controls::{clicked_track, tick, TickAction};
use audiophile_player::devices::{
    bytes_before_zero, default_device, device_count, find_device, get_device_info,
    is_output_device, DeviceError, DeviceInfo, DeviceReply,
};
use audiophile_player::display::{
    file_info, format_duration_hms, playback_info, position_label, track_details,
};
use audiophile_player::engine::{AudioEngine, Effect};
use audiophile_player::enrichment::{
    is_cover_wanted, is_current, lookup_status, lookup_terms, next_sequence, store_cover,
    ui_apply_if_current, year_from, AlbumTrack, CoverBackfill, CoverOutcome, LookupStep,
    PanelUpdate, TrackLookup, TrackPanel,
};
use audiophile_player::library::AlbumEntry;
use audiophile_player::loading::{load_track, LoadAction, LoadEvent, Session, TrackLoad};
use audiophile_player::metadata::TrackMetadata;
use audiophile_player::online_metadata::{search_url, ReleaseSummary};
use audiophile_player::playlist::{
    add_selected, build_playlist, collect_entries, find_path, is_listed, playlist_of_entries,
    selected_is_listed, track_entry, FolderFile, Playlist, PlaylistError, PreviousAction, Probe,
    TrackEntry,
};
use audiophile_player::stream_info::AudioInfo;

fn meta(title: Option<&str>, track: Option<u32>, disc: Option<u32>) -> TrackMetadata {
    let mut meta = TrackMetadata::default();
    meta.title = title.map(String::from);
    meta.track_number = track;
    meta.disc_number = disc;
    meta
}

fn entry(path: &str, track: Option<u32>, disc: Option<u32>) -> TrackEntry {
    track_entry(path.as_bytes().to_vec(), &meta(None, track, disc), 61.5f64.to_bits())
}

fn info() -> AudioInfo {
    AudioInfo { sample_rate: 96000, channels: 2, bit_depth: 24, duration_bits: 10.0f64.to_bits() }
}

fn panel(title: &str, artist: &str, year: &str, status: &str) -> TrackPanel {
    TrackPanel {
        title: title.to_string(),
        artist: artist.to_string(),
        year: year.to_string(),
        status: status.to_string(),
    }
}

fn summary(title: &str, artist: &str, date: &str) -> ReleaseSummary {
    ReleaseSummary {
        title: title.to_string(),
        artist: artist.to_string(),
        date: date.to_string(),
    }
}

fn album(cover_override: Option<Vec<u8>>) -> AlbumEntry {
    AlbumEntry {
        folder: b"/m".to_vec(),
        title: "T".to_string(),
        artist: "A".to_string(),
        cover_override,
    }
}

#[test]
fn durations_as_minutes_and_seconds() {
    let shown = |seconds: f64| format_duration_hms(seconds.to_bits());
    assert_eq!(shown(0.0), "0:00");
    assert_eq!(shown(59.99), "0:59");
    assert_eq!(shown(61.0), "1:01");
    assert_eq!(shown(3600.0), "60:00");
    assert_eq!(shown(-1.0), "0:00");
    assert_eq!(shown(-0.0), "0:00");
    assert_eq!(shown(f64::NAN), "0:00");
    assert_eq!(shown(f64::INFINITY), "0:00");
    assert_eq!(shown(1e300), "307445734561825860:15");
}

#[test]
fn labels() {
    assert_eq!(position_label(Some(3), Some(12)), "Track 3 / 12");
    assert_eq!(position_label(Some(3), None), "Track 3");
    assert_eq!(position_label(None, Some(12)), "");
    assert_eq!(file_info(&info()), "96000 Hz, 24 bit, 2 ch");
}

#[test]
fn details_of_a_track() {
    let mut known = meta(Some("T"), Some(1), None);
    known.artist = Some("A".to_string());
    known.year = Some("1999".to_string());
    let details = track_details(&known, "t.flac", &info());
    assert_eq!(details.title, "T");
    assert_eq!(details.artist, "A");
    assert_eq!(details.album, "");
    assert_eq!(details.album_artist, "");
    assert_eq!(details.year, "1999");
    assert_eq!(details.genre, "");
    assert_eq!(details.composer, "");
    assert_eq!(details.position_label, "Track 1");
    assert_eq!(details.current_file, "t.flac");
    assert_eq!(details.file_info, "96000 Hz, 24 bit, 2 ch");
    assert_eq!(track_details(&TrackMetadata::default(), "t.flac", &info()).title, "t.flac");
}

#[test]
fn line_about_playback() {
    let mut engine = AudioEngine::new(1);
    engine.load_decoder(info(), "x".to_string());
    engine.queue_samples(&[1, 2, 3, 4]);
    engine.look_for_room();
    assert_eq!(
        playback_info(&engine, "0.0"),
        "96000Hz 24bit | Buffer: 0.0% (4/2097152) | Underruns: 0 | Shared"
    );
}

#[test]
fn playlist_of_a_folder() {
    let probe = |title: Option<&str>, track: Option<u32>| {
        Some(Probe { meta: meta(title, track, None), duration_bits: 0 })
    };
    let file = |path: &str, is_file: bool, probe: Option<Probe>| FolderFile {
        path: path.as_bytes().to_vec(),
        is_file,
        probe,
    };
    let mut entries = collect_entries(&[
        file("/m/b.flac", true, probe(None, None)),
        file("/m/a.txt", true, probe(None, Some(1))),
        file("/m/broken.flac", true, None),
        file("/m/dir.flac", false, probe(None, Some(1))),
        file("/m/A.mp3", true, probe(Some("First"), Some(1))),
    ]);
    assert_eq!(entries.len(), 2);
    add_selected(&mut entries, b"/m/x/sel.ogg", probe(None, Some(2)));
    assert_eq!(entries.len(), 3);
    add_selected(&mut entries, b"/m/./b.flac", probe(None, Some(2)));
    assert_eq!(entries.len(), 3);
    add_selected(&mut entries, b"/m/unreadable.flac", None);
    assert_eq!(entries.len(), 3);
    let (playlist, index) = playlist_of_entries(&entries, b"/m/x/sel.ogg").unwrap();
    let titles: Vec<&str> = playlist.tracks.iter().map(|t| t.title.as_str()).collect();
    assert_eq!(titles, vec!["First", "sel.ogg", "b.flac"]);
    assert_eq!(index, 1);
    assert_eq!(playlist.current, Some(1));
    assert_eq!(playlist.tracks[0].sort_name, "a.mp3");
}

#[test]
fn playlist_of_a_folder_and_a_file_elsewhere() {
    let probe = |track: u32| {
        Some(Probe { meta: meta(None, Some(track), None), duration_bits: 0 })
    };
    let files = [
        FolderFile { path: b"/m/b.flac".to_vec(), is_file: true, probe: probe(3) },
        FolderFile { path: b"/m/a.flac".to_vec(), is_file: true, probe: probe(1) },
    ];
    assert!(selected_is_listed(&files, b"/m/b.flac"));
    assert!(!selected_is_listed(&files, b"/m/c.ogg"));
    let (playlist, index) = build_playlist(&files, b"/m/b.flac", None).unwrap();
    assert_eq!(playlist.tracks.len(), 2);
    assert_eq!(index, 1);
    let (playlist, index) = build_playlist(&files, b"/m/c.ogg", probe(2)).unwrap();
    assert_eq!(playlist.tracks.len(), 3);
    assert_eq!(index, 1);
    assert_eq!(playlist.current, Some(1));
    let (playlist, index) = build_playlist(&files, b"/m/c.ogg", None).unwrap();
    assert_eq!(playlist.tracks.len(), 2);
    assert_eq!(index, 0);
}

#[test]
fn steps_of_a_load() {
    let entries = [entry("/m/a.flac", Some(1), None), entry("/m/b.flac", Some(2), None)];
    let mut session = Session::new();
    assert_eq!(session.playlist.current, None);
    session.playlist = playlist_of_entries(&entries, b"/m/a.flac").unwrap().0;
    let mut engine = AudioEngine::new(4);
    let load = TrackLoad { index: 1, play: true };

    assert!(matches!(
        session.load_step(&mut engine, load, LoadEvent::OpenFailed),
        LoadAction::Fail
    ));
    assert_eq!(session.sequence, 0);
    assert_eq!(session.playlist.current, Some(0));
    assert_eq!(engine.get_sample_rate(), 44100);

    assert!(matches!(
        session.load_step(&mut engine, load, LoadEvent::Opened),
        LoadAction::Unload(effects) if effects.is_empty()
    ));
    assert_eq!(session.sequence, 1);
    let event = LoadEvent::Unloaded(info(), "/m/b.flac".to_string());
    assert!(matches!(
        session.load_step(&mut engine, load, event),
        LoadAction::Start(effects)
            if effects == vec![
                Effect::SetUpUnit { device: 4 },
                Effect::SendPlay,
                Effect::StartUnit,
            ]
    ));
    assert_eq!(engine.get_sample_rate(), 96000);
    assert!(matches!(
        session.load_step(&mut engine, load, LoadEvent::StartFailed),
        LoadAction::Fail
    ));
    assert_eq!(session.playlist.current, Some(0));
    assert!(matches!(
        session.load_step(&mut engine, load, LoadEvent::Started),
        LoadAction::Show { track_index: 1, is_playing: true, position_bits: 0 }
    ));
    assert_eq!(session.playlist.current, Some(1));
    assert_eq!(session.sequence, 1);

    let shown = TrackLoad { index: 0, play: false };
    assert!(matches!(
        session.load_step(&mut engine, shown, LoadEvent::Opened),
        LoadAction::Unload(effects) if effects == vec![Effect::SendStop, Effect::JoinDecoder]
    ));
    let event = LoadEvent::Unloaded(info(), "/m/a.flac".to_string());
    assert!(matches!(
        session.load_step(&mut engine, shown, event),
        LoadAction::Start(effects) if effects == vec![Effect::SendPause]
    ));
    assert!(matches!(
        session.load_step(&mut engine, shown, LoadEvent::Started),
        LoadAction::Show { track_index: 0, is_playing: false, position_bits: 0 }
    ));
}

#[test]
fn tracks_play_in_order() {
    let entries = [
        entry("/m/z.flac", None, None),
        entry("/m/c.flac", Some(1), Some(2)),
        entry("/m/B.flac", Some(2), None),
        entry("/m/a.flac", Some(2), Some(1)),
        entry("/m/y.flac", None, None),
        entry("/m/d.flac", Some(9), Some(0)),
    ];
    let (playlist, index) = playlist_of_entries(&entries, b"/m/none.flac").unwrap();
    let names: Vec<&str> = playlist.tracks.iter().map(|t| t.sort_name.as_str()).collect();
    assert_eq!(names, vec!["d.flac", "a.flac", "b.flac", "y.flac", "z.flac", "c.flac"]);
    assert_eq!(index, 0);
}

#[test]
fn selected_file_is_loaded() {
    let entries = [entry("/m/b.flac", None, None), entry("/m/a.flac", None, None)];
    let (playlist, index) = playlist_of_entries(&entries, b"/m//b.flac").unwrap();
    assert_eq!(playlist.tracks[index].path, b"/m/b.flac".to_vec());
    assert_eq!(find_path(&playlist.tracks, b"/m/b.flac"), Some(1));
    assert_eq!(find_path(&playlist.tracks, b"/m/c.flac"), None);
}

#[test]
fn no_playable_files() {
    let error = build_playlist(&[], b"/m/a.flac", None).unwrap_err();
    assert_eq!(error, PlaylistError::NoPlayableFiles);
    assert_eq!(error.message(), "No playable audio files found in this folder");
}

#[test]
fn listed_files() {
    assert!(is_listed(b"/m/a.MP3", true));
    assert!(!is_listed(b"/m/a.MP3", false));
    assert!(!is_listed(b"/m/a.txt", true));
}

#[test]
fn moving_about_in_the_playlist() {
    let entries = [entry("/m/a.flac", Some(1), None), entry("/m/b.flac", Some(12), None)];
    let (mut playlist, _) = playlist_of_entries(&entries, b"/m/a.flac").unwrap();
    assert_eq!(playlist.next_index(), Some(1));
    assert_eq!(playlist.previous_index(), None);
    assert_eq!(playlist.previous_action(0), PreviousAction::Restart);
    playlist.select(1);
    assert_eq!(playlist.next_index(), None);
    assert_eq!(playlist.previous_index(), Some(0));
    assert_eq!(playlist.previous_action(3.0f64.to_bits()), PreviousAction::Load(0));
    assert_eq!(playlist.previous_action(3.01f64.to_bits()), PreviousAction::Restart);
    assert_eq!(playlist.path_at(1), Some(b"/m/b.flac".to_vec()));
    assert_eq!(playlist.path_at(2), None);
    let empty = Playlist::empty();
    assert_eq!(empty.next_index(), None);
    assert_eq!(empty.previous_index(), None);
}

#[test]
fn lines_of_the_track_list() {
    let entries = [
        entry("/m/a.flac", Some(1), None),
        entry("/m/b.flac", Some(112), None),
        entry("/m/c.flac", None, None),
    ];
    let (playlist, _) = playlist_of_entries(&entries, b"/m/a.flac").unwrap();
    let rows = playlist.rows();
    assert_eq!(rows[0].display_number, "01");
    assert_eq!(rows[1].display_number, "112");
    assert_eq!(rows[2].display_number, "3");
    assert_eq!(rows[2].title, "c.flac");
    assert_eq!(rows[2].duration_text, "1:01");
}

#[test]
fn clock_of_the_window() {
    let entries = [entry("/m/a.flac", Some(1), None), entry("/m/b.flac", Some(2), None)];
    let (mut playlist, _) = playlist_of_entries(&entries, b"/m/a.flac").unwrap();
    let mut engine = AudioEngine::new(1);
    assert_eq!(tick(false, &engine, &playlist), TickAction::Wait);
    assert_eq!(tick(true, &engine, &playlist), TickAction::ShowInfo);
    engine.set_eof(true);
    assert_eq!(tick(false, &engine, &playlist), TickAction::Wait);
    assert_eq!(tick(true, &engine, &playlist), TickAction::Load(1));
    playlist.select(1);
    assert_eq!(tick(true, &engine, &playlist), TickAction::Pause);
    assert_eq!(clicked_track(-1), None);
    assert_eq!(clicked_track(0), Some(0));
    assert_eq!(clicked_track(7), Some(7));
}

#[test]
fn terms_of_a_lookup() {
    let mut meta = TrackMetadata::default();
    assert_eq!(lookup_terms(&meta), None);
    meta.artist = Some("A".to_string());
    meta.album = Some(" B ".to_string());
    assert_eq!(lookup_terms(&meta), Some(("A".to_string(), " B ".to_string())));
    meta.album_artist = Some(" ".to_string());
    assert_eq!(lookup_terms(&meta), None);
    meta.album_artist = Some("AA".to_string());
    assert_eq!(lookup_terms(&meta), Some(("AA".to_string(), " B ".to_string())));
    let (artist, album) = lookup_terms(&meta).unwrap();
    assert!(search_url(&artist, &album).is_some());
    meta.album = Some("\t".to_string());
    assert_eq!(lookup_terms(&meta), None);
}

#[test]
fn loading_a_track() {
    let mut known = meta(Some("T"), None, None);
    known.artist = Some("A".to_string());
    known.album = Some("B".to_string());
    let loaded = load_track(b"/m/t\xff.flac", &known, &info(), &Some(vec![1]), 9);
    assert_eq!(loaded.details.title, "T");
    assert_eq!(loaded.details.current_file, "t\u{fffd}.flac");
    assert_eq!(loaded.file_path, "/m/t\u{fffd}.flac");
    assert_eq!(loaded.status, "MusicBrainz: looking up release…");
    assert!(loaded.artwork.is_none());
    let request = loaded.lookup.unwrap();
    assert_eq!(request.artist, "A");
    assert_eq!(request.album, "B");
    assert_eq!(request.lookup, TrackLookup { expected: 9, had_local_art: true });
    let silent = load_track(b"/m/t.flac", &TrackMetadata::default(), &info(), &None, 10);
    assert_eq!(silent.status, "");
    assert!(silent.lookup.is_none());
    assert_eq!(lookup_status(false), "");
}

#[test]
fn lookup_keeps_what_is_shown() {
    let kept = panel("T", "A", "1990", "S").apply_summary(&summary("x", "y", "2001-01-01"));
    assert_eq!(kept.title, "T");
    assert_eq!(kept.artist, "A");
    assert_eq!(kept.year, "1990");
    assert_eq!(kept.status, "S");
}

#[test]
fn lookup_completes_what_is_empty() {
    let completed = panel("", "", "", "").apply_summary(&summary("x", "y", "2001-01-01"));
    assert_eq!(completed.title, "x");
    assert_eq!(completed.artist, "y");
    assert_eq!(completed.year, "2001");
    assert_eq!(completed.status, "Credits/date: MusicBrainz");
    let blank = panel("", "", "", "").apply_summary(&summary("", "", "May"));
    assert_eq!(blank.title, "");
    assert_eq!(blank.artist, "");
    assert_eq!(blank.year, "");
}

#[test]
fn years_of_dates() {
    assert_eq!(year_from("2001"), "2001");
    assert_eq!(year_from("200"), "");
    assert_eq!(year_from("éé"), "");
    assert_eq!(year_from("20x1-"), "");
}

#[test]
fn cover_changes_the_status() {
    let picture = Some(Picture { width: 1, height: 1, rgba: vec![0; 4] });
    let shown = panel("T", "", "", "old").apply_cover(&picture);
    assert_eq!(shown.status, "Artwork: Cover Art Archive (release match)");
    assert_eq!(shown.title, "T");
    assert_eq!(panel("", "", "", "old").apply_cover(&None).status, "old");
}

#[test]
fn earlier_lookup_leaves_the_panel_alone() {
    let found = PanelUpdate::Summary(summary("x", "y", "2001"));
    let late = ui_apply_if_current(panel("", "", "", "S"), 6, 5, &found);
    assert_eq!(late.title, "");
    assert_eq!(late.status, "S");
    let timely = ui_apply_if_current(panel("", "", "", "S"), 5, 5, &found);
    assert_eq!(timely.title, "x");
    assert_eq!(timely.year, "2001");
    assert_eq!(timely.status, "S");
    let cleared = ui_apply_if_current(panel("T", "", "", "S"), 5, 5, &PanelUpdate::ClearStatus);
    assert_eq!(cleared.status, "");
    assert_eq!(cleared.title, "T");
    let picture = Some(Picture { width: 1, height: 1, rgba: vec![0; 4] });
    let covered = ui_apply_if_current(panel("", "", "", ""), 5, 5, &PanelUpdate::Cover(picture));
    assert_eq!(covered.status, "Artwork: Cover Art Archive (release match)");
}

#[test]
fn steps_of_a_lookup() {
    let lookup = TrackLookup { expected: 5, had_local_art: false };
    assert!(matches!(lookup.start(5), LookupStep::FindRelease));
    assert!(matches!(lookup.start(6), LookupStep::Stop));
    assert!(matches!(lookup.on_release(6, None), LookupStep::ClearStatus));
    assert!(matches!(
        lookup.on_release(5, Some("r".to_string())),
        LookupStep::FetchCover(id) if id == "r"
    ));
    assert!(matches!(lookup.on_release(6, Some("r".to_string())), LookupStep::Stop));
    assert!(matches!(
        lookup.on_cover(5, "r".to_string()),
        LookupStep::FetchSummary(id) if id == "r"
    ));
    assert!(matches!(lookup.on_cover(6, "r".to_string()), LookupStep::Stop));
    let own = TrackLookup { expected: 5, had_local_art: true };
    assert!(matches!(
        own.on_release(5, Some("r".to_string())),
        LookupStep::FetchSummary(id) if id == "r"
    ));
}

#[test]
fn later_loads_drop_earlier_lookups() {
    let first = next_sequence(0);
    let second = next_sequence(first);
    assert!(is_current(first, first));
    assert!(!is_current(second, first));
}

#[test]
fn wanted_covers() {
    let readable = |has_artwork, has_folder_cover| AlbumTrack::Readable {
        has_artwork,
        has_folder_cover,
    };
    assert!(is_cover_wanted(&album(None), readable(false, false)));
    assert!(!is_cover_wanted(&album(None), readable(true, false)));
    assert!(!is_cover_wanted(&album(None), readable(false, true)));
    assert!(is_cover_wanted(&album(None), AlbumTrack::Unreadable));
    assert!(!is_cover_wanted(&album(None), AlbumTrack::Missing));
    assert!(!is_cover_wanted(&album(Some(vec![1])), AlbumTrack::Unreadable));
}

#[test]
fn backfill_visits_every_album() {
    let mut search = CoverBackfill::new(3, 2);
    assert_eq!(search.turn(4), None);
    assert_eq!(search.turn(3), Some(0));
    search.skip();
    assert_eq!(search.turn(3), Some(1));
    assert!(matches!(
        search.on_cover(3, Some(vec![9])),
        CoverOutcome::Store(1, bytes) if bytes == vec![9]
    ));
    assert_eq!(search.turn(3), None);
}

#[test]
fn overtaken_backfill_stores_nothing() {
    let mut search = CoverBackfill::new(3, 2);
    assert!(matches!(search.on_cover(4, Some(vec![9])), CoverOutcome::Stop));
    let mut other = CoverBackfill::new(3, 2);
    assert!(matches!(other.on_cover(4, None), CoverOutcome::Skip));
    assert_eq!(other.turn(3), Some(1));
}

#[test]
fn a_whole_search_only_adds_covers() {
    let mut albums = vec![album(Some(vec![1])), album(None), album(None), album(None)];
    let before: Vec<String> = albums.iter().map(|a| a.title.clone()).collect();
    let mut search = CoverBackfill::new(7, albums.len());
    let mut current = 7;
    let mut looked_at = Vec::new();
    while let Some(index) = search.turn(current) {
        looked_at.push(index);
        if !is_cover_wanted(&albums[index], AlbumTrack::Unreadable) {
            search.skip();
            continue;
        }
        if index == 2 {
            current += 1;
        }
        match search.on_cover(current, Some(vec![index as u8, 9])) {
            CoverOutcome::Stop => break,
            CoverOutcome::Skip => {}
            CoverOutcome::Store(at, bytes) => store_cover(&mut albums, at, bytes),
        }
    }
    assert_eq!(looked_at, vec![0, 1, 2]);
    assert_eq!(search.turn(current), None);
    let covers: Vec<Option<Vec<u8>>> = albums.iter().map(|a| a.cover_override.clone()).collect();
    assert_eq!(covers, vec![Some(vec![1]), Some(vec![1, 9]), None, None]);
    let after: Vec<String> = albums.iter().map(|a| a.title.clone()).collect();
    assert_eq!(after, before);
}

#[test]
fn stored_cover_ends_the_search() {
    let mut albums = vec![album(None), album(None)];
    store_cover(&mut albums, 1, vec![7]);
    store_cover(&mut albums, 2, vec![8]);
    assert_eq!(albums[0].cover_override, None);
    assert_eq!(albums[1].cover_override, Some(vec![7]));
    assert!(!is_cover_wanted(&albums[1], AlbumTrack::Unreadable));
}

#[test]
fn devices_that_play() {
    assert!(is_output_device(0, 24));
    assert!(!is_output_device(0, 0));
    assert!(!is_output_device(-50, 24));
    assert_eq!(device_count(13), 3);
    assert_eq!(default_device(0, 77), Ok(77));
    assert_eq!(default_device(1, 77), Err(DeviceError::Default));
    assert_eq!(bytes_before_zero(b"ab\0c"), b"ab");
    assert_eq!(bytes_before_zero(b"ab"), b"ab");
}

#[test]
fn names_of_devices() {
    let device = get_device_info(5, 0, b"Speakers \xff\0junk").unwrap();
    assert_eq!(device.id, 5);
    assert_eq!(device.name, "Speakers \u{fffd}");
    assert_eq!(get_device_info(5, 2, b"x\0").unwrap_err(), DeviceError::Name);
}

#[test]
fn devices_on_offer() {
    let reply = |id: u32, streams_size: u32, name_status: i32, name: &[u8]| DeviceReply {
        id,
        streams_status: 0,
        streams_size,
        name_status,
        name_buffer: name.to_vec(),
    };
    let engine = AudioEngine::new(1);
    let replies = [
        reply(1, 8, 0, b"DAC\0"),
        reply(2, 8, 0, b"Cosmic\0"),
        reply(3, 0, 0, b"Silent\0"),
        reply(4, 8, 1, b"Nameless\0"),
        reply(6, 8, 0, b"Speakers\0"),
    ];
    let devices = engine.enumerate_devices(0, 0, &replies).unwrap();
    let shown: Vec<(u32, &str)> = devices.iter().map(|d| (d.id, d.name.as_str())).collect();
    assert_eq!(shown, vec![(1, "DAC"), (2, "Cosmic"), (6, "Speakers")]);
    assert_eq!(find_device(&devices, "Speakers"), Some(6));
    assert_eq!(find_device(&devices, "Cosmic"), Some(2));
    assert_eq!(find_device(&devices, "None"), None);
    assert_eq!(engine.enumerate_devices(1, 0, &replies).unwrap_err(), DeviceError::ListSize);
    assert_eq!(engine.enumerate_devices(0, 1, &replies).unwrap_err(), DeviceError::List);
    let twins = [
        DeviceInfo { id: 8, name: "X".to_string() },
        DeviceInfo { id: 9, name: "X".to_string() },
    ];
    assert_eq!(find_device(&twins, "X"), Some(8));
}

#[test]
fn device_errors_in_words() {
    assert_eq!(DeviceError::ListSize.message(), "Failed to get device list size");
    assert_eq!(DeviceError::List.message(), "Failed to get device list");
    assert_eq!(DeviceError::Name.message(), "Failed to get device name");
    assert_eq!(DeviceError::Default.message(), "Failed to get default device");
}
