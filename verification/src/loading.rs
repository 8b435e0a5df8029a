//! Loading a track: the steps of a load and what a failed one leaves as it was, what the window
//! shows of the track, the path that the engine keeps, and the lookup that is started for it.
use vstd::prelude::*;

use crate::artwork::{
    artwork_for_track, artwork_of, had_local_art, picture_of, picture_view, Picture,
};
use crate::display::{
    details_of, file_info_of, position_label_of, track_details, TrackDetails,
};
use crate::engine::{AudioEngine, Effect, EngineState};
use crate::enrichment::{
    law_album_artist_is_looked_up_first, law_blank_terms_are_not_looked_up, lookup_status,
    lookup_terms, lookup_terms_of, next_sequence, TrackLookup,
};
use crate::file_path::{file_name_text, file_name_text_of};
use crate::metadata::{bytes_view, TrackMetadata};
use crate::playlist::{shown_name, Playlist};
use crate::stream_info::AudioInfo;
use crate::text::{decode_lossy, utf8_lossy, white_space};

verus! {

/// The lookup that is started for a track.
#[derive(Debug)]
pub struct LookupRequest {
    pub artist: String,
    pub album: String,
    pub lookup: TrackLookup,
}

/// What follows from loading a track.
#[derive(Debug)]
pub struct LoadedTrack {
    pub details: TrackDetails,
    pub artwork: Option<Picture>,
    /// The path as the engine keeps it.
    pub file_path: String,
    pub status: String,
    pub lookup: Option<LookupRequest>,
}

/// What follows from loading the file at `path` under the number `sequence`. A lookup is started
/// exactly where artist and album are known, and it leaves the artwork alone where the track has
/// some or its folder has a cover.
pub fn load_track(
    path: &[u8],
    meta: &TrackMetadata,
    info: &AudioInfo,
    folder_cover: &Option<Vec<u8>>,
    sequence: u64,
) -> (r: LoadedTrack)
    ensures
        r.details@ == details_of(meta@, shown_name(path@), *info),
        picture_view(r.artwork) == artwork_of(meta@.artwork, bytes_view(*folder_cover)),
        r.file_path@ == utf8_lossy(path@),
        r.status@ == if lookup_terms_of(meta@) is Some {
            "MusicBrainz: looking up release…"@
        } else {
            ""@
        },
        match r.lookup {
            Some(request) => {
                &&& lookup_terms_of(meta@) == Some((request.artist@, request.album@))
                &&& request.lookup == (TrackLookup {
                    expected: sequence,
                    had_local_art: meta@.artwork is Some || folder_cover is Some,
                })
            },
            None => lookup_terms_of(meta@) is None,
        },
{
    let file_name = match file_name_text(path) {
        Some(name) => name,
        None => String::new(),
    };
    let has_art = had_local_art(meta, folder_cover);
    let lookup = match lookup_terms(meta) {
        Some((artist, album)) => Some(
            LookupRequest {
                artist,
                album,
                lookup: TrackLookup { expected: sequence, had_local_art: has_art },
            },
        ),
        None => None,
    };
    LoadedTrack {
        details: track_details(meta, file_name.as_str(), info),
        artwork: artwork_for_track(meta, folder_cover),
        file_path: decode_lossy(path),
        status: lookup_status(lookup.is_some()).to_string(),
        lookup,
    }
}

/// What loading tracks changes: the playlist, and the number of the last load.
#[derive(Debug)]
pub struct Session {
    pub playlist: Playlist,
    pub sequence: u64,
}

/// A track that is being loaded, to be played or only shown.
#[derive(Clone, Copy, Debug, PartialEq, Eq, Structural)]
pub struct TrackLoad {
    pub index: usize,
    pub play: bool,
}

/// What has come of the last step of a load.
#[derive(Debug)]
pub enum LoadEvent {
    /// The file could not be opened.
    OpenFailed,
    /// The file is open.
    Opened,
    /// What was loaded before is gone; the file has this format and path.
    Unloaded(AudioInfo, String),
    /// The engine has done what it was told to.
    Started,
    /// The engine could not play.
    StartFailed,
}

/// What has come of the last step of a load.
pub enum LoadEventView {
    OpenFailed,
    Opened,
    Unloaded(AudioInfo, Seq<char>),
    Started,
    StartFailed,
}

impl View for LoadEvent {
    type V = LoadEventView;

    open spec fn view(&self) -> LoadEventView {
        match self {
            LoadEvent::OpenFailed => LoadEventView::OpenFailed,
            LoadEvent::Opened => LoadEventView::Opened,
            LoadEvent::Unloaded(info, path) => LoadEventView::Unloaded(*info, path@),
            LoadEvent::Started => LoadEventView::Started,
            LoadEvent::StartFailed => LoadEventView::StartFailed,
        }
    }
}

/// What a load does next.
#[derive(Debug)]
pub enum LoadAction {
    /// It has failed. The window stays as it is.
    Fail,
    /// Do what ends the file that was loaded before.
    Unload(Vec<Effect>),
    /// Start a decoder thread for the file, then do this.
    Start(Vec<Effect>),
    /// Show the track at its start: its place in the list, and whether it plays.
    Show { track_index: i32, is_playing: bool, position_bits: u64 },
}

/// What a load does next.
pub enum LoadActionView {
    Fail,
    Unload(Seq<Effect>),
    Start(Seq<Effect>),
    Show { track_index: i32, is_playing: bool, position_bits: u64 },
}

impl View for LoadAction {
    type V = LoadActionView;

    open spec fn view(&self) -> LoadActionView {
        match self {
            LoadAction::Fail => LoadActionView::Fail,
            LoadAction::Unload(effects) => LoadActionView::Unload(effects@),
            LoadAction::Start(effects) => LoadActionView::Start(effects@),
            LoadAction::Show { track_index, is_playing, position_bits } => LoadActionView::Show {
                track_index: *track_index,
                is_playing: *is_playing,
                position_bits: *position_bits,
            },
        }
    }
}

/// Where a load stands: the session, the engine, and what is done next.
pub struct LoadState {
    pub session: Session,
    pub engine: EngineState,
    pub action: LoadActionView,
}

impl LoadState {
    /// The state after an event. A file that cannot be opened changes nothing. One that is open
    /// gets the next number, which drops the lookups for the track before; then the engine gives
    /// up what it had, and takes the file. Only once the engine has done what it was told to, the
    /// track is the current one and is shown.
    pub open spec fn after(self, load: TrackLoad, event: LoadEventView) -> LoadState {
        match event {
            LoadEventView::OpenFailed | LoadEventView::StartFailed => LoadState {
                action: LoadActionView::Fail,
                ..self
            },
            LoadEventView::Opened => LoadState {
                session: Session { sequence: (self.session.sequence + 1) as u64, ..self.session },
                engine: self.engine.unloaded(),
                action: LoadActionView::Unload(self.engine.unload_effects()),
            },
            LoadEventView::Unloaded(info, path) => {
                let engine = self.engine.loaded(info, path);
                LoadState {
                    session: self.session,
                    engine: if load.play {
                        engine
                    } else {
                        EngineState { is_playing: false, ..engine }
                    },
                    action: LoadActionView::Start(
                        if load.play {
                            engine.play_effects()
                        } else {
                            engine.pause_effects()
                        },
                    ),
                }
            },
            LoadEventView::Started => LoadState {
                session: Session {
                    playlist: Playlist { current: Some(load.index), ..self.session.playlist },
                    ..self.session
                },
                engine: EngineState {
                    is_playing: self.engine.is_playing || load.play,
                    ..self.engine
                },
                action: LoadActionView::Show {
                    track_index: load.index as i32,
                    is_playing: load.play,
                    position_bits: 0,
                },
            },
        }
    }
}

impl Session {
    /// A session with nothing loaded.
    pub fn new() -> (r: Session)
        ensures
            r.playlist.tracks@.len() == 0,
            r.playlist.current is None,
            r.sequence == 0,
    {
        Session { playlist: Playlist::empty(), sequence: 0 }
    }

    /// Takes an event of a load, and decides what it does next.
    pub fn load_step(
        &mut self,
        engine: &mut AudioEngine,
        load: TrackLoad,
        event: LoadEvent,
    ) -> (r: LoadAction)
        requires
            old(engine).wf(),
            event is Opened ==> old(self).sequence < u64::MAX,
        ensures
            final(engine).wf(),
            ({
                let before = LoadState {
                    session: *old(self),
                    engine: old(engine)@,
                    action: LoadActionView::Fail,
                };
                let after = before.after(load, event@);
                &&& *final(self) == after.session
                &&& final(engine)@ == after.engine
                &&& r@ == after.action
            }),
    {
        match event {
            LoadEvent::OpenFailed => LoadAction::Fail,
            LoadEvent::StartFailed => LoadAction::Fail,
            LoadEvent::Opened => {
                self.sequence = next_sequence(self.sequence);
                LoadAction::Unload(engine.unload())
            },
            LoadEvent::Unloaded(info, path) => {
                engine.load_decoder(info, path);
                if load.play {
                    LoadAction::Start(engine.play())
                } else {
                    LoadAction::Start(engine.pause())
                }
            },
            LoadEvent::Started => {
                if load.play {
                    engine.playback_started();
                }
                self.playlist.select(load.index);
                LoadAction::Show {
                    track_index: #[verifier::truncate] (load.index as i32),
                    is_playing: load.play,
                    position_bits: 0,
                }
            },
        }
    }
}

/// A file that cannot be opened changes nothing: neither the number, nor the playlist, nor the
/// engine, nor what is shown.
pub proof fn law_failed_open_changes_nothing(state: LoadState, load: TrackLoad)
    ensures
        ({
            let after = state.after(load, LoadEventView::OpenFailed);
            &&& after.session == state.session
            &&& after.engine == state.engine
            &&& after.action is Fail
        }),
{
}

/// The state after some more events.
pub open spec fn load_run(
    state: LoadState,
    load: TrackLoad,
    events: Seq<LoadEventView>,
) -> LoadState
    decreases events.len(),
{
    if events.len() == 0 {
        state
    } else {
        load_run(state, load, events.drop_last()).after(load, events.last())
    }
}

/// Until the engine has done what it was told to, the current track stays what it was, and
/// nothing is shown; the tracks never change. So a load that fails leaves the current track.
pub proof fn law_unfinished_load_keeps_the_current_track(
    state: LoadState,
    load: TrackLoad,
    events: Seq<LoadEventView>,
)
    requires
        events.len() > 0,
        forall|i: int| 0 <= i < events.len() ==> !((#[trigger] events[i]) is Started),
    ensures
        load_run(state, load, events).session.playlist == state.session.playlist,
        !(load_run(state, load, events).action is Show),
    decreases events.len(),
{
    if events.len() > 1 {
        law_unfinished_load_keeps_the_current_track(state, load, events.drop_last());
    } else {
        assert(load_run(state, load, events.drop_last()) == state);
    }
}

/// A load that succeeds makes the track the current one, takes the next number, loads the engine
/// with the file, and shows the track at its start.
pub proof fn law_finished_load_is_shown(
    state: LoadState,
    load: TrackLoad,
    info: AudioInfo,
    path: Seq<char>,
)
    requires
        state.session.sequence < u64::MAX,
    ensures
        ({
            let after = state.after(load, LoadEventView::Opened).after(
                load,
                LoadEventView::Unloaded(info, path),
            ).after(load, LoadEventView::Started);
            &&& after.session.playlist.current == Some(load.index)
            &&& after.session.playlist.tracks == state.session.playlist.tracks
            &&& after.session.sequence == state.session.sequence + 1
            &&& after.engine.file_path == Some(path)
            &&& after.engine.position_frames == 0
            &&& after.engine.queue == Some(Seq::<u32>::empty())
            &&& after.engine.is_playing == load.play
            &&& after.action == (LoadActionView::Show {
                track_index: load.index as i32,
                is_playing: load.play,
                position_bits: 0,
            })
        }),
{
}

/// What is shown of a loaded track is what its metadata say, field by field; a title that they do
/// not say is the file name. The path is kept as it is written.
pub proof fn law_loaded_track_is_shown(
    path: &[u8],
    meta: &TrackMetadata,
    info: &AudioInfo,
    folder_cover: &Option<Vec<u8>>,
    sequence: u64,
    r: LoadedTrack,
)
    requires
        call_ensures(load_track, (path, meta, info, folder_cover, sequence), r),
    ensures
        meta.title matches Some(s) ==> r.details.title@ == s@,
        meta.title is None ==> (file_name_text_of(path@) matches Some(name) ==> r.details.title@
            == name),
        meta.artist matches Some(s) ==> r.details.artist@ == s@,
        meta.artist is None ==> r.details.artist@.len() == 0,
        meta.album matches Some(s) ==> r.details.album@ == s@,
        meta.album is None ==> r.details.album@.len() == 0,
        meta.year matches Some(s) ==> r.details.year@ == s@,
        meta.year is None ==> r.details.year@.len() == 0,
        meta.album_artist matches Some(s) ==> r.details.album_artist@ == s@,
        meta.album_artist is None ==> r.details.album_artist@.len() == 0,
        meta.genre matches Some(s) ==> r.details.genre@ == s@,
        meta.genre is None ==> r.details.genre@.len() == 0,
        meta.composer matches Some(s) ==> r.details.composer@ == s@,
        meta.composer is None ==> r.details.composer@.len() == 0,
        r.details.position_label@ == position_label_of(meta.track_number, meta.track_total),
        r.details.file_info@ == file_info_of(*info),
        file_name_text_of(path@) matches Some(name) ==> r.details.current_file@ == name,
        r.file_path@ == utf8_lossy(path@),
        meta.artwork matches Some(bytes) ==> (picture_of(bytes@) is Some ==> picture_view(r.artwork)
            == picture_of(bytes@)),
        meta.artwork is None ==> (*folder_cover matches Some(bytes) ==> picture_view(r.artwork)
            == picture_of(bytes@)),
{
    reveal_strlit("");
}

/// A lookup is started exactly where an artist and an album are known, that of the album before
/// that of the track; it is for these, for this load, and knows whether the track has artwork of
/// its own. The status tells of it, and is blank where none is started.
pub proof fn law_lookup_is_started_for_the_track(
    path: &[u8],
    meta: &TrackMetadata,
    info: &AudioInfo,
    folder_cover: &Option<Vec<u8>>,
    sequence: u64,
    r: LoadedTrack,
    artist: Seq<char>,
    album: Seq<char>,
)
    requires
        call_ensures(load_track, (path, meta, info, folder_cover, sequence), r),
        meta@.album_artist == Some(artist) || meta@.album_artist is None && meta@.artist == Some(
            artist,
        ),
        meta@.album == Some(album),
        exists|i: int| 0 <= i < artist.len() && !white_space(#[trigger] artist[i]),
        exists|i: int| 0 <= i < album.len() && !white_space(#[trigger] album[i]),
    ensures
        r.lookup matches Some(request) && {
            &&& request.artist@ == artist
            &&& request.album@ == album
            &&& request.lookup.expected == sequence
            &&& request.lookup.had_local_art == (meta.artwork is Some || *folder_cover is Some)
        },
        r.status@ == "MusicBrainz: looking up release…"@,
{
    law_album_artist_is_looked_up_first(meta@, artist, album);
}

/// Without an artist or an album nothing is looked up, and the status is blank.
pub proof fn law_nothing_is_looked_up_without_terms(
    path: &[u8],
    meta: &TrackMetadata,
    info: &AudioInfo,
    folder_cover: &Option<Vec<u8>>,
    sequence: u64,
    r: LoadedTrack,
)
    requires
        call_ensures(load_track, (path, meta, info, folder_cover, sequence), r),
        meta.album is None || meta.album_artist is None && meta.artist is None,
    ensures
        r.lookup is None,
        r.status@.len() == 0,
{
    law_blank_terms_are_not_looked_up(meta@);
    reveal_strlit("");
}

/// Each step of a load follows from the one before: a file that is open takes the next number and
/// ends what was loaded; then the engine takes the file in its own format, and is told to play or
/// to pause; then the track is shown. A failure changes nothing.
pub proof fn law_load_goes_step_by_step(
    state: LoadState,
    load: TrackLoad,
    info: AudioInfo,
    path: Seq<char>,
)
    requires
        state.session.sequence < u64::MAX,
    ensures
        ({
            let opened = state.after(load, LoadEventView::Opened);
            &&& opened.session.sequence == state.session.sequence + 1
            &&& opened.session.playlist == state.session.playlist
            &&& opened.action == LoadActionView::Unload(state.engine.unload_effects())
            &&& !opened.engine.is_playing
            &&& !opened.engine.has_decoder
        }),
        ({
            let loaded = state.after(load, LoadEventView::Unloaded(info, path));
            &&& loaded.session == state.session
            &&& loaded.engine.sample_rate == info.sample_rate
            &&& loaded.engine.channels == info.channels
            &&& loaded.engine.bit_depth == info.bit_depth
            &&& loaded.engine.duration_bits == info.duration_bits
            &&& loaded.engine.file_path == Some(path)
            &&& load.play ==> loaded.action == LoadActionView::Start(loaded.engine.play_effects())
            &&& !load.play ==> loaded.action == LoadActionView::Start(
                loaded.engine.pause_effects(),
            ) && !loaded.engine.is_playing
        }),
        ({
            let failed = state.after(load, LoadEventView::StartFailed);
            failed.session == state.session && failed.engine == state.engine && failed.action
                is Fail
        }),
{
}

/// A session starts with nothing in its list, nothing loaded, and no number taken.
pub proof fn law_session_starts_empty(r: Session)
    requires
        call_ensures(Session::new, (), r),
    ensures
        r.playlist.tracks@.len() == 0,
        r.playlist.current is None,
        r.sequence == 0,
{
}

/// A file that cannot be opened, or an engine that cannot play, leaves the session and the engine
/// as they are. An open file takes the next number. A track becomes the current one, and is shown
/// at its start, exactly when the engine has done what it was told to; it then plays where that is
/// wanted.
pub proof fn law_loading_a_track(
    session: &mut Session,
    engine: &mut AudioEngine,
    load: TrackLoad,
    event: LoadEvent,
    r: LoadAction,
)
    requires
        call_ensures(Session::load_step, (session, engine, load, event), r),
        old(session).sequence < u64::MAX,
        load.index <= i32::MAX,
    ensures
        event is OpenFailed || event is StartFailed ==> {
            &&& *final(session) == *old(session)
            &&& final(engine)@ == old(engine)@
            &&& r is Fail
        },
        event is Opened ==> {
            &&& final(session).sequence == old(session).sequence + 1
            &&& final(session).playlist == old(session).playlist
            &&& !final(engine)@.is_playing && !final(engine)@.has_decoder
            &&& r is Unload
        },
        event matches LoadEvent::Unloaded(info, path) ==> {
            &&& *final(session) == *old(session)
            &&& final(engine)@.sample_rate == info.sample_rate
            &&& final(engine)@.channels == info.channels
            &&& final(engine)@.bit_depth == info.bit_depth
            &&& final(engine)@.duration_bits == info.duration_bits
            &&& final(engine)@.file_path == Some(path@)
            &&& final(engine)@.position_frames == 0
            &&& r matches LoadAction::Start(effects) && effects@ == if load.play {
                final(engine)@.play_effects()
            } else {
                final(engine)@.pause_effects()
            }
        },
        event is Started ==> {
            &&& final(session).playlist.current == Some(load.index)
            &&& final(session).playlist.tracks == old(session).playlist.tracks
            &&& final(session).sequence == old(session).sequence
            &&& load.play ==> final(engine)@.is_playing
            &&& !load.play ==> final(engine)@ == old(engine)@
            &&& r matches LoadAction::Show { track_index, is_playing, position_bits } && track_index
                == load.index && is_playing == load.play && position_bits == 0
        },
{
}

} // verus!
