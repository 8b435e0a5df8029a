//! The buttons and the clock of the window: which track is loaded next, and when playback pauses.
use vstd::prelude::*;

use crate::engine::{AudioEngine, EngineState};
use crate::playlist::Playlist;

verus! {

/// What the clock of the window does.
#[derive(Clone, Copy, Debug, PartialEq, Eq, Structural)]
pub enum TickAction {
    /// Nothing.
    Wait,
    /// Show the line about running playback anew.
    ShowInfo,
    /// Load and play the track at the index.
    Load(usize),
    /// Pause: everything has been played.
    Pause,
}

/// What the clock does. `shown_playing` is whether the window shows that playback runs.
pub open spec fn tick_of(
    shown_playing: bool,
    engine: EngineState,
    playlist: Playlist,
) -> TickAction {
    if shown_playing && engine.finished() {
        match playlist.following() {
            Some(index) => TickAction::Load(index),
            None => TickAction::Pause,
        }
    } else if shown_playing {
        TickAction::ShowInfo
    } else {
        TickAction::Wait
    }
}

/// What the clock does.
pub fn tick(shown_playing: bool, engine: &AudioEngine, playlist: &Playlist) -> (r: TickAction)
    ensures
        r == tick_of(shown_playing, engine@, *playlist),
{
    if !shown_playing {
        return TickAction::Wait;
    }
    if engine.should_stop_playback() {
        match playlist.next_index() {
            Some(index) => TickAction::Load(index),
            None => TickAction::Pause,
        }
    } else {
        TickAction::ShowInfo
    }
}

/// The track that was clicked on; nothing for a number below zero.
pub fn clicked_track(index: i32) -> (r: Option<usize>)
    ensures
        r == if index >= 0 {
            Some(index as usize)
        } else {
            None::<usize>
        },
{
    if index >= 0 {
        Some(index as usize)
    } else {
        None
    }
}

/// How many tracks come after the loaded one.
pub open spec fn tracks_left(playlist: Playlist) -> int {
    match playlist.current {
        Some(at) => playlist.tracks@.len() - at,
        None => 0,
    }
}

/// A track that has finished is followed by the next one, so that a playlist comes to its end: of
/// the tracks that are left each load takes one, and after the last one playback pauses.
pub proof fn law_playlist_plays_to_its_end(
    engine: EngineState,
    playlist: Playlist,
    after: Playlist,
)
    requires
        playlist.wf(),
        engine.finished(),
        after.tracks == playlist.tracks,
        tick_of(true, engine, playlist) matches TickAction::Load(index) ==> after.current == Some(
            index,
        ),
    ensures
        match tick_of(true, engine, playlist) {
            TickAction::Load(index) => after.wf() && tracks_left(after) == tracks_left(playlist)
                - 1,
            TickAction::Pause => tracks_left(playlist) <= 1,
            TickAction::Wait => false,
            TickAction::ShowInfo => false,
        },
{
    assert(playlist.tracks.len() <= usize::MAX);
}

/// The clock never leaves a track that still plays.
pub proof fn law_playing_track_is_not_left(
    shown_playing: bool,
    engine: EngineState,
    playlist: Playlist,
)
    requires
        !engine.finished(),
    ensures
        !(tick_of(shown_playing, engine, playlist) is Load),
        !(tick_of(shown_playing, engine, playlist) is Pause),
{
}

/// When a track that is shown to play has finished, the clock loads the track right behind it, or
/// pauses after the last; while it has not finished the line about it is shown anew; and while
/// nothing is shown to play the clock does nothing.
pub proof fn law_clock_loads_the_next_track(
    shown_playing: bool,
    engine: &AudioEngine,
    playlist: &Playlist,
    r: TickAction,
)
    requires
        call_ensures(tick, (shown_playing, engine, playlist), r),
    ensures
        !shown_playing ==> r is Wait,
        shown_playing && !engine@.finished() ==> r is ShowInfo,
        shown_playing && engine@.finished() ==> {
            &&& playlist.current matches Some(at) ==> {
                &&& at + 1 < playlist.tracks@.len() ==> (r matches TickAction::Load(index) && index
                    == at + 1)
                &&& at + 1 >= playlist.tracks@.len() ==> r is Pause
            }
            &&& playlist.current is None ==> r is Pause
        },
{
    assert(playlist.tracks.len() <= usize::MAX);
}

/// A track that is clicked on is that of the number, and a number below zero is none.
pub proof fn law_clicked_number_is_the_track(index: i32, r: Option<usize>)
    requires
        call_ensures(clicked_track, (index,), r),
    ensures
        index >= 0 ==> (r matches Some(at) && at == index),
        index < 0 ==> r is None,
{
}

} // verus!
