//! The playlist: the audio files of a folder in playing order, and moving about in it.
use vstd::prelude::*;

use crate::display::{format_duration_hms, hms_of};
use crate::file_path::{
    audio_path, file_name_text, file_name_text_of, is_audio_file, path_key_of, same_path,
};
use crate::float_bits::{f64_is_less, f64_less, F64_THREE};
use crate::metadata::{MetadataView, TrackMetadata};
use crate::sorting::{
    field_less, goes_before, is_sorted_order, key_less, key_view, keys_view,
    law_fields_are_compared_where_they_part, law_fields_are_ordered,
    law_keys_are_compared_by_their_first_difference, law_keys_are_ordered,
    law_sorted_order_is_stable, lemma_parting, parts_at, sorted_order, text_before,
};
use crate::text::{
    all_digits, copy_bytes, decimal, decimal_of, digits_value, law_decimal_reads_back,
    law_two_digits_read_back, lowercase, lowercase_of, push_two_digits, to_chars, two_digits_of,
};

verus! {

/// A track of a playlist.
#[derive(Clone, Debug)]
pub struct TrackEntry {
    pub path: Vec<u8>,
    pub title: String,
    /// The bit pattern of the length in seconds.
    pub duration_bits: u64,
    pub track_number: Option<u32>,
    pub disc_number: Option<u32>,
    /// The file name in lower case.
    pub sort_name: String,
}

/// The tracks in playing order, and the one that is loaded.
#[derive(Debug)]
pub struct Playlist {
    pub tracks: Vec<TrackEntry>,
    pub current: Option<usize>,
}

/// Why there is no playlist.
#[derive(Clone, Copy, Debug, PartialEq, Eq, Structural)]
pub enum PlaylistError {
    NoPlayableFiles,
}

/// What the button for the previous track does.
#[derive(Clone, Copy, Debug, PartialEq, Eq, Structural)]
pub enum PreviousAction {
    /// The track starts anew.
    Restart,
    /// The track at the index is loaded and played.
    Load(usize),
}

/// A line of the track list.
#[derive(Debug)]
pub struct TrackRow {
    pub display_number: String,
    pub title: String,
    pub duration_text: String,
}

/// What probing an audio file found.
#[derive(Debug)]
pub struct Probe {
    pub meta: TrackMetadata,
    /// The bit pattern of the length in seconds.
    pub duration_bits: u64,
}

/// Something in the folder of the selected file.
#[derive(Debug)]
pub struct FolderFile {
    pub path: Vec<u8>,
    pub is_file: bool,
    /// Nothing where the file could not be read as audio.
    pub probe: Option<Probe>,
}

/// What probing an audio file found.
pub struct ProbeView {
    pub meta: MetadataView,
    pub duration_bits: u64,
}

/// Something in the folder of the selected file.
pub struct FolderFileView {
    pub path: Seq<u8>,
    pub is_file: bool,
    pub probe: Option<ProbeView>,
}

/// A track of a playlist.
pub struct TrackEntryView {
    pub path: Seq<u8>,
    pub title: Seq<char>,
    pub duration_bits: u64,
    pub track_number: Option<u32>,
    pub disc_number: Option<u32>,
    pub sort_name: Seq<char>,
}

/// A line of the track list.
pub struct TrackRowView {
    pub display_number: Seq<char>,
    pub title: Seq<char>,
    pub duration_text: Seq<char>,
}

impl View for Probe {
    type V = ProbeView;

    open spec fn view(&self) -> ProbeView {
        ProbeView { meta: self.meta@, duration_bits: self.duration_bits }
    }
}

/// What probing found, if anything.
pub open spec fn probe_view(probe: Option<Probe>) -> Option<ProbeView> {
    match probe {
        Some(found) => Some(found@),
        None => None,
    }
}

impl View for FolderFile {
    type V = FolderFileView;

    open spec fn view(&self) -> FolderFileView {
        FolderFileView {
            path: self.path@,
            is_file: self.is_file,
            probe: probe_view(self.probe),
        }
    }
}

impl View for TrackEntry {
    type V = TrackEntryView;

    open spec fn view(&self) -> TrackEntryView {
        TrackEntryView {
            path: self.path@,
            title: self.title@,
            duration_bits: self.duration_bits,
            track_number: self.track_number,
            disc_number: self.disc_number,
            sort_name: self.sort_name@,
        }
    }
}

impl View for TrackRow {
    type V = TrackRowView;

    open spec fn view(&self) -> TrackRowView {
        TrackRowView {
            display_number: self.display_number@,
            title: self.title@,
            duration_text: self.duration_text@,
        }
    }
}

/// The tracks of a row of entries.
pub open spec fn entries_view(entries: Seq<TrackEntry>) -> Seq<TrackEntryView> {
    entries.map_values(|entry: TrackEntry| entry@)
}

/// Whether a file of the folder goes into the playlist.
pub open spec fn listed(path: Seq<u8>, is_file: bool) -> bool {
    is_file && audio_path(path)
}

/// Whether a file of the folder goes into the playlist.
pub fn is_listed(path: &[u8], is_file: bool) -> (r: bool)
    ensures
        r == listed(path@, is_file),
{
    is_file && is_audio_file(path)
}

/// The entry of a file whose name, and name in lower case, are given. Its title is that of the
/// metadata, or else the file name.
pub open spec fn named_entry(
    path: Seq<u8>,
    file_name: Seq<char>,
    sort_name: Seq<char>,
    meta: MetadataView,
    duration_bits: u64,
) -> TrackEntryView {
    TrackEntryView {
        path,
        title: match meta.title {
            Some(title) => title,
            None => file_name,
        },
        duration_bits,
        track_number: meta.track_number,
        disc_number: meta.disc_number,
        sort_name,
    }
}

/// The name of a file; empty where its path has none.
pub open spec fn shown_name(path: Seq<u8>) -> Seq<char> {
    match file_name_text_of(path) {
        Some(name) => name,
        None => Seq::empty(),
    }
}

/// The entry of a file.
pub open spec fn entry_of(
    path: Seq<u8>,
    meta: MetadataView,
    duration_bits: u64,
) -> TrackEntryView {
    named_entry(path, shown_name(path), lowercase_of(shown_name(path)), meta, duration_bits)
}

/// The entry of a file whose name, and name in lower case, are given.
pub fn named_track_entry(
    path: Vec<u8>,
    file_name: String,
    sort_name: String,
    meta: &TrackMetadata,
    duration_bits: u64,
) -> (r: TrackEntry)
    ensures
        r@ == named_entry(path@, file_name@, sort_name@, meta@, duration_bits),
{
    let title = match &meta.title {
        Some(title) => title.clone(),
        None => file_name,
    };
    TrackEntry {
        path,
        title,
        duration_bits,
        track_number: meta.track_number,
        disc_number: meta.disc_number,
        sort_name,
    }
}

/// The entry of a file.
pub fn track_entry(path: Vec<u8>, meta: &TrackMetadata, duration_bits: u64) -> (r: TrackEntry)
    ensures
        r@ == entry_of(path@, meta@, duration_bits),
{
    let file_name = match file_name_text(path.as_slice()) {
        Some(name) => name,
        None => String::new(),
    };
    let sort_name = lowercase(file_name.as_str());
    named_track_entry(path, file_name, sort_name, meta, duration_bits)
}

/// The characters of a text as a sorting field.
pub open spec fn text_field(text: Seq<char>) -> Seq<u32> {
    text.map_values(|c: char| c as u32)
}

/// The characters of a text as a sorting field.
pub fn field_of_text(text: &str) -> (r: Vec<u32>)
    ensures
        r@ == text_field(text@),
{
    let chars = to_chars(text);
    let mut field: Vec<u32> = Vec::new();
    let n: usize = chars.len();
    for i in 0..n
        invariant
            n == chars@.len(),
            field@ =~= text_field(chars@.take(i as int)),
    {
        field.push(chars[i] as u32);
    }
    assert(chars@.take(n as int) =~= chars@);
    field
}

/// The playing order: by disc, where one without a number counts as the first; then by track
/// number, where one without comes last; then by file name in lower case.
pub open spec fn track_key_of(entry: TrackEntryView) -> Seq<Seq<u32>> {
    seq![
        seq![
            match entry.disc_number {
                Some(disc) => disc,
                None => 1u32,
            },
        ],
        seq![
            match entry.track_number {
                Some(track) => track,
                None => u32::MAX,
            },
        ],
        text_field(entry.sort_name),
    ]
}

/// The sorting key of a track.
pub fn track_key(entry: &TrackEntry) -> (r: Vec<Vec<u32>>)
    ensures
        key_view(r) == track_key_of(entry@),
{
    let disc: Vec<u32> = vec![
        match entry.disc_number {
            Some(disc) => disc,
            None => 1,
        },
    ];
    let track: Vec<u32> = vec![
        match entry.track_number {
            Some(track) => track,
            None => u32::MAX,
        },
    ];
    let name = field_of_text(entry.sort_name.as_str());
    let ghost fields = track_key_of(entry@);
    assert(disc@ =~= fields[0]);
    assert(track@ =~= fields[1]);
    assert(name@ =~= fields[2]);
    let mut key: Vec<Vec<u32>> = Vec::new();
    key.push(disc);
    key.push(track);
    key.push(name);
    assert(key_view(key) =~= fields);
    key
}

/// The sorting keys of tracks.
pub open spec fn track_keys(entries: Seq<TrackEntryView>) -> Seq<Seq<Seq<u32>>> {
    entries.map_values(|entry: TrackEntryView| track_key_of(entry))
}

/// Whether `tracks` are the entries in the given order.
pub open spec fn in_order(
    entries: Seq<TrackEntryView>,
    order: Seq<usize>,
    tracks: Seq<TrackEntryView>,
) -> bool {
    tracks == order.map_values(|i: usize| entries[i as int])
}

/// Whether `tracks` are the entries in playing order, those with the same key as they stood.
pub open spec fn in_playing_order(
    entries: Seq<TrackEntryView>,
    tracks: Seq<TrackEntryView>,
) -> bool {
    exists|order: Seq<usize>|
        #[trigger] is_sorted_order(track_keys(entries), order) && in_order(entries, order, tracks)
}

/// Whether the entry is of the file at `path`.
pub open spec fn of_path(entry: TrackEntryView, path: Seq<u8>) -> bool {
    path_key_of(entry.path) == path_key_of(path)
}

/// Whether `at` is where the file at `path` first stands among the entries.
pub open spec fn first_of_path(entries: Seq<TrackEntryView>, path: Seq<u8>, at: int) -> bool {
    &&& 0 <= at < entries.len()
    &&& of_path(entries[at], path)
    &&& forall|i: int| 0 <= i < at ==> !of_path(#[trigger] entries[i], path)
}

/// Whether the file at `path` is among the entries.
pub open spec fn lists_path(entries: Seq<TrackEntryView>, path: Seq<u8>) -> bool {
    exists|i: int| 0 <= i < entries.len() && of_path(#[trigger] entries[i], path)
}

/// Finds the file at `path` among the entries.
pub fn find_path(entries: &[TrackEntry], path: &[u8]) -> (r: Option<usize>)
    ensures
        match r {
            Some(at) => first_of_path(entries_view(entries@), path@, at as int),
            None => !lists_path(entries_view(entries@), path@),
        },
{
    let ghost views = entries_view(entries@);
    let n: usize = entries.len();
    for i in 0..n
        invariant
            n == entries@.len(),
            views == entries_view(entries@),
            forall|k: int| 0 <= k < i ==> !of_path(#[trigger] views[k], path@),
    {
        let same = same_path(entries[i].path.as_slice(), path);
        assert(views[i as int] == entries@[i as int]@);
        if same {
            return Some(i);
        }
    }
    None
}

/// The contents of a folder.
pub open spec fn files_view(files: Seq<FolderFile>) -> Seq<FolderFileView> {
    files.map_values(|file: FolderFile| file@)
}

/// The entries of a folder: its audio files that could be probed, as they stand.
pub open spec fn folder_entries(files: Seq<FolderFileView>) -> Seq<TrackEntryView>
    decreases files.len(),
{
    if files.len() == 0 {
        Seq::empty()
    } else {
        let before = folder_entries(files.drop_last());
        let file = files.last();
        match file.probe {
            Some(probe) => if listed(file.path, file.is_file) {
                before.push(entry_of(file.path, probe.meta, probe.duration_bits))
            } else {
                before
            },
            None => before,
        }
    }
}

/// The entries of a folder.
pub fn collect_entries(files: &[FolderFile]) -> (r: Vec<TrackEntry>)
    ensures
        entries_view(r@) == folder_entries(files_view(files@)),
{
    let ghost views = files_view(files@);
    let n: usize = files.len();
    let mut entries: Vec<TrackEntry> = Vec::new();
    assert(entries_view(entries@) =~= folder_entries(views.take(0)));
    for i in 0..n
        invariant
            n == files@.len(),
            views == files_view(files@),
            entries_view(entries@) == folder_entries(views.take(i as int)),
    {
        let ghost before = entries_view(entries@);
        let file = &files[i];
        proof {
            assert(views.take(i + 1).drop_last() =~= views.take(i as int));
            assert(views.take(i + 1).last() == file@);
        }
        if let Some(probe) = &file.probe {
            if is_listed(file.path.as_slice(), file.is_file) {
                let entry = track_entry(
                    copy_bytes(file.path.as_slice()),
                    &probe.meta,
                    probe.duration_bits,
                );
                entries.push(entry);
                assert(entries_view(entries@) =~= before.push(entry@));
            }
        }
    }
    assert(views.take(n as int) =~= views);
    entries
}

/// The entries and, where it is not among them and can be probed, the selected file after them.
pub open spec fn with_selected(
    entries: Seq<TrackEntryView>,
    selected: Seq<u8>,
    probe: Option<ProbeView>,
) -> Seq<TrackEntryView> {
    match probe {
        Some(found) => if lists_path(entries, selected) {
            entries
        } else {
            entries.push(entry_of(selected, found.meta, found.duration_bits))
        },
        None => entries,
    }
}

/// Adds the selected file where it is not among the entries and can be probed.
pub fn add_selected(entries: &mut Vec<TrackEntry>, selected: &[u8], probe: Option<Probe>)
    ensures
        entries_view(final(entries)@) == with_selected(
            entries_view(old(entries)@),
            selected@,
            probe_view(probe),
        ),
{
    let ghost before = entries_view(entries@);
    if let Some(found) = probe {
        let at = find_path(entries.as_slice(), selected);
        if at.is_none() {
            let entry = track_entry(copy_bytes(selected), &found.meta, found.duration_bits);
            entries.push(entry);
            assert(entries_view(entries@) =~= before.push(entry@));
        } else {
            assert(lists_path(before, selected@)) by {
                assert(of_path(before[at.unwrap() as int], selected@));
            }
        }
    }
}

/// A copy of an entry.
pub fn copy_entry(entry: &TrackEntry) -> (r: TrackEntry)
    ensures
        r@ == entry@,
{
    TrackEntry {
        path: copy_bytes(entry.path.as_slice()),
        title: entry.title.clone(),
        duration_bits: entry.duration_bits,
        track_number: entry.track_number,
        disc_number: entry.disc_number,
        sort_name: entry.sort_name.clone(),
    }
}

/// The entries in playing order.
pub fn arrange(entries: &[TrackEntry]) -> (r: Vec<TrackEntry>)
    ensures
        in_playing_order(entries_view(entries@), entries_view(r@)),
        r@.len() == entries@.len(),
{
    let ghost views = entries_view(entries@);
    let n: usize = entries.len();
    let mut keys: Vec<Vec<Vec<u32>>> = Vec::new();
    for i in 0..n
        invariant
            n == entries@.len(),
            views == entries_view(entries@),
            keys_view(keys@) =~= track_keys(views.take(i as int)),
    {
        let ghost before = keys_view(keys@);
        let key = track_key(&entries[i]);
        keys.push(key);
        assert(views[i as int] == entries@[i as int]@);
        assert(keys_view(keys@) =~= before.push(track_key_of(views[i as int])));
        assert(track_keys(views.take(i + 1)) =~= track_keys(views.take(i as int)).push(
            track_key_of(views[i as int]),
        ));
    }
    assert(views.take(n as int) =~= views);
    let order = sorted_order(&keys);
    let mut tracks: Vec<TrackEntry> = Vec::new();
    for i in 0..n
        invariant
            n == entries@.len(),
            n == order@.len(),
            views == entries_view(entries@),
            is_sorted_order(track_keys(views), order@),
            entries_view(tracks@) =~= order@.take(i as int).map_values(|k: usize| views[k as int]),
    {
        let ghost before = entries_view(tracks@);
        let at: usize = order[i];
        assert(order@[i as int] < track_keys(views).len());
        let entry = copy_entry(&entries[at]);
        tracks.push(entry);
        assert(views[at as int] == entries@[at as int]@);
        assert(entries_view(tracks@) =~= before.push(views[at as int]));
        assert(order@.take(i + 1).map_values(|k: usize| views[k as int]) =~= order@.take(
            i as int,
        ).map_values(|k: usize| views[k as int]).push(views[at as int]));
    }
    assert(order@.take(n as int) =~= order@);
    assert(entries_view(tracks@).len() == tracks@.len());
    assert(in_order(views, order@, entries_view(tracks@)));
    tracks
}

/// Whether the playlist is that of the entries, with the selected file loaded; where that is not
/// among them, the first track.
pub open spec fn is_playlist_of(
    entries: Seq<TrackEntryView>,
    selected: Seq<u8>,
    playlist: Playlist,
    index: usize,
) -> bool {
    &&& entries.len() > 0
    &&& playlist.wf()
    &&& in_playing_order(entries, entries_view(playlist.tracks@))
    &&& playlist.current == Some(index)
    &&& if lists_path(entries_view(playlist.tracks@), selected) {
        first_of_path(entries_view(playlist.tracks@), selected, index as int)
    } else {
        index == 0
    }
}

/// The playlist of the entries. It fails exactly where there is no entry.
pub fn playlist_of_entries(entries: &[TrackEntry], selected: &[u8]) -> (r: Result<
    (Playlist, usize),
    PlaylistError,
>)
    ensures
        match r {
            Ok((playlist, index)) => is_playlist_of(
                entries_view(entries@),
                selected@,
                playlist,
                index,
            ),
            Err(error) => error == PlaylistError::NoPlayableFiles && entries@.len() == 0,
        },
{
    if entries.len() == 0 {
        return Err(PlaylistError::NoPlayableFiles);
    }
    let tracks = arrange(entries);
    let index: usize = match find_path(tracks.as_slice(), selected) {
        Some(at) => at,
        None => 0,
    };
    Ok((Playlist { tracks, current: Some(index) }, index))
}

/// Whether the selected file is among the audio files of its folder that could be probed.
pub fn selected_is_listed(files: &[FolderFile], selected: &[u8]) -> (r: bool)
    ensures
        r == lists_path(folder_entries(files_view(files@)), selected@),
{
    let entries = collect_entries(files);
    let at = find_path(entries.as_slice(), selected);
    proof {
        if let Some(i) = at {
            assert(of_path(entries_view(entries@)[i as int], selected@));
        }
    }
    at.is_some()
}

/// Builds the playlist of a folder: its audio files that could be probed and, where it is not
/// among them and could be probed, the selected file, all in playing order, with the selected
/// file loaded; where that is not in the list, the first track. It fails exactly where there is
/// no track.
pub fn build_playlist(files: &[FolderFile], selected: &[u8], probe: Option<Probe>) -> (r: Result<
    (Playlist, usize),
    PlaylistError,
>)
    ensures
        ({
            let entries = with_selected(
                folder_entries(files_view(files@)),
                selected@,
                probe_view(probe),
            );
            match r {
                Ok((playlist, index)) => is_playlist_of(entries, selected@, playlist, index),
                Err(error) => error == PlaylistError::NoPlayableFiles && entries.len() == 0,
            }
        }),
{
    let mut entries = collect_entries(files);
    add_selected(&mut entries, selected, probe);
    assert(entries_view(entries@).len() == entries@.len());
    playlist_of_entries(entries.as_slice(), selected)
}

impl PlaylistError {
    /// What the user is told.
    pub fn message(&self) -> (r: &'static str)
        ensures
            r@ == "No playable audio files found in this folder"@,
    {
        "No playable audio files found in this folder"
    }
}

/// The number of a track in the list: its track number in two digits, or else its place.
pub open spec fn display_number_of(track_number: Option<u32>, index: int) -> Seq<char> {
    match track_number {
        Some(n) => two_digits_of(n as nat),
        None => decimal_of((index + 1) as nat),
    }
}

/// The line of the track at `index`.
pub open spec fn track_row_of(entry: TrackEntryView, index: int) -> TrackRowView {
    TrackRowView {
        display_number: display_number_of(entry.track_number, index),
        title: entry.title,
        duration_text: hms_of(entry.duration_bits),
    }
}

impl Playlist {
    /// The loaded track, where there is one, is in the list.
    pub open spec fn wf(self) -> bool {
        self.current matches Some(at) ==> at < self.tracks@.len()
    }

    /// A playlist without tracks.
    pub fn empty() -> (r: Playlist)
        ensures
            r.wf(),
            r.tracks@.len() == 0,
            r.current is None,
    {
        Playlist { tracks: Vec::new(), current: None }
    }

    /// The path of a track.
    pub fn path_at(&self, index: usize) -> (r: Option<Vec<u8>>)
        ensures
            match r {
                Some(path) => index < self.tracks@.len() && path@ == self.tracks@[index as int].path@,
                None => index >= self.tracks@.len(),
            },
    {
        if index < self.tracks.len() {
            Some(copy_bytes(self.tracks[index].path.as_slice()))
        } else {
            None
        }
    }

    /// Takes note of the loaded track.
    pub fn select(&mut self, index: usize)
        ensures
            final(self).wf() == (index < old(self).tracks@.len()),
            final(self).tracks == old(self).tracks,
            final(self).current == Some(index),
    {
        self.current = Some(index);
    }

    /// The track after the loaded one.
    pub open spec fn following(self) -> Option<usize> {
        match self.current {
            Some(at) => if at + 1 < self.tracks@.len() {
                Some((at + 1) as usize)
            } else {
                None
            },
            None => None,
        }
    }

    /// The track before the loaded one.
    pub open spec fn preceding(self) -> Option<usize> {
        match self.current {
            Some(at) => if at > 0 {
                Some((at - 1) as usize)
            } else {
                None
            },
            None => None,
        }
    }

    /// The track after the loaded one.
    pub fn next_index(&self) -> (r: Option<usize>)
        ensures
            r == self.following(),
    {
        match self.current {
            Some(at) => if at < self.tracks.len() && self.tracks.len() - at > 1 {
                Some(at + 1)
            } else {
                None
            },
            None => None,
        }
    }

    /// The track before the loaded one.
    pub fn previous_index(&self) -> (r: Option<usize>)
        ensures
            r == self.preceding(),
    {
        match self.current {
            Some(at) => if at > 0 {
                Some(at - 1)
            } else {
                None
            },
            None => None,
        }
    }

    /// What the button for the previous track does: more than three seconds into a track, or
    /// without a track before, the track starts anew.
    pub fn previous_action(&self, position_bits: u64) -> (r: PreviousAction)
        ensures
            r == if f64_less(F64_THREE, position_bits) {
                PreviousAction::Restart
            } else {
                match self.preceding() {
                    Some(index) => PreviousAction::Load(index),
                    None => PreviousAction::Restart,
                }
            },
    {
        if f64_is_less(F64_THREE, position_bits) {
            return PreviousAction::Restart;
        }
        match self.previous_index() {
            Some(index) => PreviousAction::Load(index),
            None => PreviousAction::Restart,
        }
    }

    /// The lines of the track list.
    pub fn rows(&self) -> (r: Vec<TrackRow>)
        ensures
            r@.len() == self.tracks@.len(),
            forall|i: int|
                0 <= i < r@.len() ==> (#[trigger] r@[i])@ == track_row_of(self.tracks@[i]@, i),
    {
        let mut rows: Vec<TrackRow> = Vec::new();
        let n: usize = self.tracks.len();
        for i in 0..n
            invariant
                n == self.tracks@.len(),
                rows@.len() == i,
                forall|k: int|
                    0 <= k < i ==> (#[trigger] rows@[k])@ == track_row_of(self.tracks@[k]@, k),
        {
            let track = &self.tracks[i];
            let display_number = match track.track_number {
                Some(number) => {
                    let mut text = String::new();
                    push_two_digits(&mut text, number as u64);
                    assert(text@ =~= two_digits_of(number as nat));
                    text
                },
                None => decimal(i as u64 + 1),
            };
            rows.push(
                TrackRow {
                    display_number,
                    title: track.title.clone(),
                    duration_text: format_duration_hms(track.duration_bits),
                },
            );
        }
        rows
    }
}

/// A selected file that can be probed is among the tracks, so that it is the one loaded.
pub proof fn law_selected_file_is_listed(
    entries: Seq<TrackEntryView>,
    selected: Seq<u8>,
    probe: ProbeView,
    tracks: Seq<TrackEntryView>,
)
    requires
        entries.len() < usize::MAX,
        in_playing_order(with_selected(entries, selected, Some(probe)), tracks),
    ensures
        lists_path(tracks, selected),
{
    let all = with_selected(entries, selected, Some(probe));
    if !lists_path(entries, selected) {
        assert(of_path(all[entries.len() as int], selected));
    }
    law_same_files_in_playing_order(all, tracks, selected);
}

/// Arranging the entries neither adds nor loses a file.
pub proof fn law_same_files_in_playing_order(
    entries: Seq<TrackEntryView>,
    tracks: Seq<TrackEntryView>,
    path: Seq<u8>,
)
    requires
        entries.len() <= usize::MAX,
        in_playing_order(entries, tracks),
    ensures
        tracks.len() == entries.len(),
        lists_path(tracks, path) == lists_path(entries, path),
{
    let order = choose|order: Seq<usize>|
        #[trigger] is_sorted_order(track_keys(entries), order) && in_order(entries, order, tracks);
    assert(track_keys(entries).len() == entries.len());
    if lists_path(tracks, path) {
        let i = choose|i: int| 0 <= i < tracks.len() && of_path(#[trigger] tracks[i], path);
        assert(order[i] < entries.len());
        assert(tracks[i] == entries[order[i] as int]);
    }
    if lists_path(entries, path) {
        let k = choose|k: int| 0 <= k < entries.len() && of_path(#[trigger] entries[k], path);
        assert(order.contains(k as usize));
        let i = choose|i: int| 0 <= i < order.len() && order[i] == k as usize;
        assert(tracks[i] == entries[k]);
    }
}

/// No track of the playlist has a smaller key than one before it.
pub proof fn law_tracks_play_in_order(
    entries: Seq<TrackEntryView>,
    tracks: Seq<TrackEntryView>,
    i: int,
    j: int,
)
    requires
        in_playing_order(entries, tracks),
        0 <= i < j < tracks.len(),
    ensures
        !key_less(track_key_of(tracks[j]), track_key_of(tracks[i])),
{
    let order = choose|order: Seq<usize>|
        #[trigger] is_sorted_order(track_keys(entries), order) && in_order(entries, order, tracks);
    let keys = track_keys(entries);
    assert(tracks[i] == entries[order[i] as int]);
    assert(tracks[j] == entries[order[j] as int]);
    assert(order[i] < keys.len() && order[j] < keys.len());
    assert(goes_before(keys, order[i] as int, order[j] as int));
    law_keys_are_ordered(
        track_key_of(tracks[i]),
        track_key_of(tracks[j]),
        track_key_of(tracks[i]),
    );
}

/// The disc that a track counts for: the first where it does not say.
pub open spec fn disc_or_first(entry: TrackEntryView) -> u32 {
    match entry.disc_number {
        Some(disc) => disc,
        None => 1,
    }
}

/// The number that a track counts for: the largest where it does not say.
pub open spec fn track_or_last(entry: TrackEntryView) -> u32 {
    match entry.track_number {
        Some(track) => track,
        None => u32::MAX,
    }
}

/// The text fields are in the order of the texts.
pub proof fn lemma_text_fields_are_ordered(a: Seq<char>, b: Seq<char>)
    ensures
        field_less(text_field(a), text_field(b)) <==> text_before(a, b),
        text_field(a) == text_field(b) <==> a == b,
{
    let left = text_field(a);
    let right = text_field(b);
    let at = lemma_parting(a, b);
    assert(parts_at(left, right, at)) by {
        assert forall|i: int| 0 <= i < at implies left[i] == #[trigger] right[i] by {
            assert(a[i] == b[i]);
        }
        if at < a.len() && at < b.len() {
            lemma_char_codes_differ(a[at], b[at]);
        }
    }
    law_fields_are_compared_where_they_part(left, right, at);
    if at < a.len() && at < b.len() {
        lemma_char_codes_differ(a[at], b[at]);
        assert(left[at] == a[at] as u32 && right[at] == b[at] as u32);
    }
    if text_before(a, b) {
        let p = choose|p: int| #[trigger]
            parts_at(a, b, p) && p < b.len() && (p == a.len() || a[p] < b[p]);
        if p < at {
            assert(a[p] == b[p]);
        }
        if at < p {
            assert(a[at] == b[at]);
        }
        assert(p == at);
    }
    if left == right {
        assert(left.len() == a.len() && right.len() == b.len());
        assert forall|i: int| 0 <= i < a.len() implies a[i] == b[i] by {
            assert(left[i] == right[i]);
            lemma_char_codes_differ(a[i], b[i]);
        }
        assert(a =~= b);
    }
}

proof fn lemma_char_codes_differ(a: char, b: char)
    ensures
        a as u32 == b as u32 ==> a == b,
        a < b <==> (a as u32) < (b as u32),
{
}

/// Of two tracks of a playlist the later has the higher disc number; or the same, and the higher
/// track number; or both the same, and its name does not come before that of the earlier one. A
/// track that does not say counts for the first disc, and for the last number. Numbers are compared
/// as numbers, and names by their first difference.
pub proof fn law_tracks_play_by_disc_number_and_name(
    entries: Seq<TrackEntryView>,
    tracks: Seq<TrackEntryView>,
    i: int,
    j: int,
)
    requires
        in_playing_order(entries, tracks),
        0 <= i < j < tracks.len(),
    ensures
        ({
            let disc_i = match tracks[i].disc_number {
                Some(disc) => disc,
                None => 1,
            };
            let disc_j = match tracks[j].disc_number {
                Some(disc) => disc,
                None => 1,
            };
            let track_i = match tracks[i].track_number {
                Some(track) => track,
                None => u32::MAX,
            };
            let track_j = match tracks[j].track_number {
                Some(track) => track,
                None => u32::MAX,
            };
            ||| disc_i < disc_j
            ||| disc_i == disc_j && track_i < track_j
            ||| disc_i == disc_j && track_i == track_j && !text_before(
                tracks[j].sort_name,
                tracks[i].sort_name,
            )
        }),
{
    law_tracks_play_in_order(entries, tracks, i, j);
    lemma_track_keys_are_ordered(tracks[j], tracks[i]);
}

proof fn lemma_track_keys_are_ordered(a: TrackEntryView, b: TrackEntryView)
    ensures
        key_less(track_key_of(a), track_key_of(b)) <==> {
            ||| disc_or_first(a) < disc_or_first(b)
            ||| disc_or_first(a) == disc_or_first(b) && track_or_last(a) < track_or_last(b)
            ||| disc_or_first(a) == disc_or_first(b) && track_or_last(a) == track_or_last(b)
                && text_before(a.sort_name, b.sort_name)
        },
        track_key_of(a) == track_key_of(b) <==> {
            &&& disc_or_first(a) == disc_or_first(b)
            &&& track_or_last(a) == track_or_last(b)
            &&& a.sort_name == b.sort_name
        },
{
    let left = track_key_of(a);
    let right = track_key_of(b);
    lemma_text_fields_are_ordered(a.sort_name, b.sort_name);
    assert(left[0] == seq![disc_or_first(a)] && right[0] == seq![disc_or_first(b)]);
    assert(left[1] == seq![track_or_last(a)] && right[1] == seq![track_or_last(b)]);
    assert(left[2] == text_field(a.sort_name) && right[2] == text_field(b.sort_name));
    let at = lemma_parting(left, right);
    law_keys_are_compared_by_their_first_difference(left, right, at);
    assert(left[0] == right[0] <==> disc_or_first(a) == disc_or_first(b)) by {
        assert(left[0][0] == disc_or_first(a) && right[0][0] == disc_or_first(b));
    }
    assert(left[1] == right[1] <==> track_or_last(a) == track_or_last(b)) by {
        assert(left[1][0] == track_or_last(a) && right[1][0] == track_or_last(b));
    }
    if at == 0 {
        law_fields_are_compared_where_they_part(left[0], right[0], 0);
    } else if at == 1 {
        assert(left[0] == right[0]);
        law_fields_are_compared_where_they_part(left[1], right[1], 0);
    } else if at == 2 {
        assert(left[0] == right[0]);
        assert(left[1] == right[1]);
    } else {
        assert(left[0] == right[0]);
        assert(left[1] == right[1]);
        assert(left[2] == right[2]);
        law_fields_are_ordered(left[2], right[2], left[2]);
        assert(left =~= right);
    }
}

/// Every entry is a track exactly once, so that none is lost and none is doubled; and two entries
/// that are the same in disc, number and name stand as they stood.
pub proof fn law_playing_order_keeps_every_entry(
    entries: Seq<TrackEntryView>,
    tracks: Seq<TrackEntryView>,
) -> (places: Seq<int>)
    requires
        entries.len() <= usize::MAX,
        in_playing_order(entries, tracks),
    ensures
        tracks.len() == entries.len(),
        places.len() == entries.len(),
        forall|k: int|
            0 <= k < entries.len() ==> 0 <= #[trigger] places[k] < tracks.len() && tracks[places[k]]
                == entries[k],
        forall|k: int, m: int|
            0 <= k < m < entries.len() ==> #[trigger] places[k] != #[trigger] places[m],
        forall|k: int, m: int|
            0 <= k < m < entries.len() && disc_or_first(entries[k]) == disc_or_first(entries[m])
                && track_or_last(entries[k]) == track_or_last(entries[m]) && entries[k].sort_name
                == entries[m].sort_name ==> #[trigger] places[k] < #[trigger] places[m],
{
    let order = choose|order: Seq<usize>|
        #[trigger] is_sorted_order(track_keys(entries), order) && in_order(entries, order, tracks);
    let keys = track_keys(entries);
    let places = Seq::new(
        entries.len(),
        |k: int| choose|i: int| 0 <= i < order.len() && order[i] == k as usize,
    );
    assert forall|k: int| 0 <= k < entries.len() implies 0 <= #[trigger] places[k] < tracks.len()
        && tracks[places[k]] == entries[k] && order[places[k]] == k as usize by {
        assert(order.contains(k as usize));
    }
    assert forall|k: int, m: int|
        0 <= k < m < entries.len() && disc_or_first(entries[k]) == disc_or_first(entries[m])
            && track_or_last(entries[k]) == track_or_last(entries[m]) && entries[k].sort_name
            == entries[m].sort_name implies #[trigger] places[k] < #[trigger] places[m] by {
        assert(order[places[k]] == k as usize && order[places[m]] == m as usize);
        lemma_track_keys_are_ordered(entries[k], entries[m]);
        if places[m] < places[k] {
            law_sorted_order_is_stable(keys, order, places[m], places[k]);
        }
    }
    assert forall|k: int, m: int| 0 <= k < m < entries.len() implies #[trigger] places[k]
        != #[trigger] places[m] by {
        assert(order[places[k]] == k as usize && order[places[m]] == m as usize);
    }
    places
}

/// Going to the next track and back leads to the track that was loaded.
pub proof fn law_previous_undoes_next(playlist: Playlist, after: Playlist)
    requires
        playlist.following() is Some,
        after.tracks == playlist.tracks,
        after.current == playlist.following(),
    ensures
        after.preceding() == playlist.current,
{
    assert(playlist.tracks.len() <= usize::MAX);
}

/// The next track is the one right behind the loaded one, and the last one has none; the previous
/// track is the one right before it, and the first one has none. Where no track is loaded there is
/// neither.
pub proof fn law_next_and_previous_are_the_neighbours(
    playlist: &Playlist,
    next: Option<usize>,
    previous: Option<usize>,
)
    requires
        call_ensures(Playlist::next_index, (playlist,), next),
        call_ensures(Playlist::previous_index, (playlist,), previous),
    ensures
        playlist.current is None ==> next is None && previous is None,
        playlist.current matches Some(at) ==> {
            &&& at + 1 < playlist.tracks@.len() ==> (next matches Some(n) && n == at + 1)
            &&& at + 1 >= playlist.tracks@.len() ==> next is None
            &&& at > 0 ==> (previous matches Some(p) && p == at - 1)
            &&& at == 0 ==> previous is None
        },
{
    assert(playlist.tracks.len() <= usize::MAX);
}

/// Up to three seconds into a track the button for the previous track goes to the track before,
/// where there is one; after that, and on the first track, it starts the track anew.
pub proof fn law_previous_restarts_after_three_seconds(
    playlist: &Playlist,
    position_bits: u64,
    r: PreviousAction,
)
    requires
        call_ensures(Playlist::previous_action, (playlist, position_bits), r),
    ensures
        position_bits <= 0x4008_0000_0000_0000 ==> {
            &&& playlist.current matches Some(at) ==> (at > 0 ==> (r matches PreviousAction::Load(
                index,
            ) && index == at - 1))
            &&& playlist.current is None || playlist.current == Some(0usize) ==> r is Restart
        },
        0x4008_0000_0000_0000 < position_bits <= 0x7ff0_0000_0000_0000 ==> r is Restart,
{
}

/// The list has a line for every track, in the same order: its number in at least two digits, or
/// else its place counted from one; its title; and its length.
pub proof fn law_rows_show_the_tracks(playlist: &Playlist, rows: Vec<TrackRow>, i: int)
    requires
        call_ensures(Playlist::rows, (playlist,), rows),
        0 <= i < playlist.tracks@.len(),
    ensures
        rows@.len() == playlist.tracks@.len(),
        rows@[i].title@ == playlist.tracks@[i].title@,
        rows@[i].duration_text@ == hms_of(playlist.tracks@[i].duration_bits),
        all_digits(rows@[i].display_number@),
        playlist.tracks@[i].track_number matches Some(n) ==> {
            &&& digits_value(rows@[i].display_number@) == n
            &&& rows@[i].display_number@.len() >= 2
            &&& n < 100 ==> rows@[i].display_number@.len() == 2
            &&& n >= 100 ==> rows@[i].display_number@[0] != '0'
        },
        playlist.tracks@[i].track_number is None ==> {
            &&& digits_value(rows@[i].display_number@) == i + 1
            &&& rows@[i].display_number@[0] != '0'
        },
{
    assert(rows@[i]@ == track_row_of(playlist.tracks@[i]@, i));
    match playlist.tracks@[i].track_number {
        Some(n) => {
            law_two_digits_read_back(n as nat);
            law_decimal_reads_back(n as nat);
        },
        None => {
            law_decimal_reads_back((i + 1) as nat);
        },
    }
}

/// An entry has the path, the length, the disc and the track number that were found for its file;
/// its title is the one in the metadata, whatever the file is called, or else the file name; and it
/// is sorted by the file name in lower case, whatever its title.
pub proof fn law_entry_tells_of_its_file(
    path: Seq<u8>,
    file_name: Seq<char>,
    meta: MetadataView,
    duration_bits: u64,
)
    ensures
        ({
            let entry = entry_of(path, meta, duration_bits);
            &&& entry.path == path
            &&& entry.duration_bits == duration_bits
            &&& entry.track_number == meta.track_number
            &&& entry.disc_number == meta.disc_number
            &&& meta.title matches Some(title) ==> entry.title == title
            &&& file_name_text_of(path) == Some(file_name) ==> {
                &&& meta.title is None ==> entry.title == file_name
                &&& entry.sort_name == lowercase_of(file_name)
            }
            &&& file_name_text_of(path) is None && meta.title is None ==> entry.title.len() == 0
        }),
{
}

/// Every audio file of the folder that could be probed is an entry, in the order of the folder, and
/// nothing else is: taking one more file into account adds its entry at the end, or nothing where
/// it is no file, no audio file, or could not be probed.
pub proof fn law_folder_entries_are_its_audio_files(
    files: Seq<FolderFileView>,
    file: FolderFileView,
)
    ensures
        folder_entries(Seq::empty()).len() == 0,
        file.probe matches Some(probe) ==> (file.is_file && audio_path(file.path) ==> folder_entries(
            files.push(file),
        ) == folder_entries(files).push(entry_of(file.path, probe.meta, probe.duration_bits))),
        file.probe is None || !file.is_file || !audio_path(file.path) ==> folder_entries(
            files.push(file),
        ) == folder_entries(files),
{
    assert(files.push(file).drop_last() =~= files);
}

/// The selected file is added exactly where it could be probed and is not in the list; the entries
/// before it stay as they are.
pub proof fn law_selected_file_is_added_once(
    entries: Seq<TrackEntryView>,
    selected: Seq<u8>,
    probe: ProbeView,
)
    ensures
        with_selected(entries, selected, None) == entries,
        lists_path(with_selected(entries, selected, Some(probe)), selected),
        lists_path(entries, selected) ==> with_selected(entries, selected, Some(probe)) == entries,
        !lists_path(entries, selected) ==> {
            let all = with_selected(entries, selected, Some(probe));
            &&& all.len() == entries.len() + 1
            &&& all.drop_last() == entries
            &&& all.last().path == selected
            &&& all.last().duration_bits == probe.duration_bits
            &&& all.last().track_number == probe.meta.track_number
            &&& all.last().disc_number == probe.meta.disc_number
        },
        with_selected(
            with_selected(entries, selected, Some(probe)),
            selected,
            Some(probe),
        ) == with_selected(entries, selected, Some(probe)),
{
    let all = with_selected(entries, selected, Some(probe));
    if !lists_path(entries, selected) {
        assert(of_path(all[entries.len() as int], selected));
        assert(all.drop_last() =~= entries);
    }
}

/// The playlist of a folder starts at the selected file where that is in the list, and at the first
/// track where it is not; there is one exactly where there is an entry.
pub proof fn law_playlist_starts_at_the_selected_file(
    entries: &[TrackEntry],
    selected: &[u8],
    r: Result<(Playlist, usize), PlaylistError>,
)
    requires
        call_ensures(playlist_of_entries, (entries, selected), r),
    ensures
        r is Ok <==> entries@.len() > 0,
        r matches Ok((playlist, index)) ==> {
            &&& playlist.current == Some(index)
            &&& index < playlist.tracks@.len()
            &&& forall|i: int|
                0 <= i < index ==> path_key_of((#[trigger] playlist.tracks@[i]).path@)
                    != path_key_of(selected@)
            &&& (exists|i: int|
                0 <= i < entries@.len() && path_key_of((#[trigger] entries@[i]).path@)
                    == path_key_of(selected@)) ==> path_key_of(
                playlist.tracks@[index as int].path@,
            ) == path_key_of(selected@)
            &&& (forall|i: int|
                0 <= i < entries@.len() ==> path_key_of((#[trigger] entries@[i]).path@)
                    != path_key_of(selected@)) ==> index == 0
        },
{
    if let Ok((playlist, index)) = r {
        let views = entries_view(entries@);
        let tracks = entries_view(playlist.tracks@);
        assert(entries@.len() == entries.len());
        assert forall|i: int| 0 <= i < index implies path_key_of(
            (#[trigger] playlist.tracks@[i]).path@,
        ) != path_key_of(selected@) by {
            assert(tracks[i] == playlist.tracks@[i]@);
            assert(!of_path(tracks[i], selected@));
        }
        law_same_files_in_playing_order(views, tracks, selected@);
        if exists|i: int|
            0 <= i < entries@.len() && path_key_of((#[trigger] entries@[i]).path@)
                == path_key_of(selected@) {
            let i = choose|i: int|
                0 <= i < entries@.len() && path_key_of((#[trigger] entries@[i]).path@)
                    == path_key_of(selected@);
            assert(of_path(views[i], selected@));
            assert(of_path(tracks[index as int], selected@));
        } else {
            assert(!lists_path(views, selected@)) by {
                if lists_path(views, selected@) {
                    let i = choose|i: int|
                        0 <= i < views.len() && of_path(#[trigger] views[i], selected@);
                    assert(path_key_of(entries@[i].path@) == path_key_of(selected@));
                }
            }
        }
    }
}

/// The tracks of a playlist are in order: of two the later has the higher disc number; or the same,
/// and the higher track number; or both the same, and its name does not come before that of the
/// earlier. A track that does not say counts for the first disc, and for the last number.
pub proof fn law_arranging_tracks(
    entries: &[TrackEntry],
    tracks: Vec<TrackEntry>,
    i: int,
    j: int,
)
    requires
        call_ensures(arrange, (entries,), tracks),
        0 <= i < j < tracks@.len(),
    ensures
        tracks@.len() == entries@.len(),
        ({
            let disc_i = match tracks@[i].disc_number {
                Some(disc) => disc,
                None => 1,
            };
            let disc_j = match tracks@[j].disc_number {
                Some(disc) => disc,
                None => 1,
            };
            let track_i = match tracks@[i].track_number {
                Some(track) => track,
                None => u32::MAX,
            };
            let track_j = match tracks@[j].track_number {
                Some(track) => track,
                None => u32::MAX,
            };
            ||| disc_i < disc_j
            ||| disc_i == disc_j && track_i < track_j
            ||| disc_i == disc_j && track_i == track_j && !text_before(
                tracks@[j].sort_name@,
                tracks@[i].sort_name@,
            )
        }),
{
    let views = entries_view(tracks@);
    assert(views[i] == tracks@[i]@ && views[j] == tracks@[j]@);
    law_tracks_play_by_disc_number_and_name(entries_view(entries@), views, i, j);
}

/// The playlist of a folder holds its audio files that could be probed and, where it could be
/// probed, the selected file, in playing order; it starts at the selected file where that is among
/// them, and there is one exactly where there is a track.
pub proof fn law_building_a_playlist(
    files: &[FolderFile],
    selected: &[u8],
    probe: Option<Probe>,
    r: Result<(Playlist, usize), PlaylistError>,
    k: int,
)
    requires
        call_ensures(build_playlist, (files, selected, probe), r),
        0 <= k < files@.len(),
        files@.len() < usize::MAX,
    ensures
        files@[k].is_file && audio_path(files@[k].path@) && files@[k].probe is Some ==> (
        r matches Ok((playlist, index)) && exists|i: int|
            0 <= i < playlist.tracks@.len() && (#[trigger] playlist.tracks@[i])@ == entry_of(
                files@[k].path@,
                files@[k].probe->Some_0.meta@,
                files@[k].probe->Some_0.duration_bits,
            )),
        probe is Some ==> (r matches Ok((playlist, index)) && index < playlist.tracks@.len()
            && path_key_of(playlist.tracks@[index as int].path@) == path_key_of(selected@)),
        r matches Ok((playlist, index)) ==> playlist.current == Some(index),
{
    let views = files_view(files@);
    let folder = folder_entries(views);
    let found = probe_view(probe);
    let entries = with_selected(folder, selected@, found);
    assert(views[k] == files@[k]@);
    lemma_folder_entries_bound(views);
    let wanted = files@[k].is_file && audio_path(files@[k].path@) && files@[k].probe is Some;
    if wanted {
        lemma_audio_file_is_an_entry(views, k);
    }
    if let Some(p) = probe {
        law_selected_file_is_added_once(folder, selected@, p@);
    }
    if let Ok((playlist, index)) = r {
        let tracks = entries_view(playlist.tracks@);
        assert(tracks.len() == playlist.tracks@.len());
        let places = law_playing_order_keeps_every_entry(entries, tracks);
        if wanted {
            let entry = entry_of(
                views[k].path,
                views[k].probe->Some_0.meta,
                views[k].probe->Some_0.duration_bits,
            );
            let e = choose|e: int| 0 <= e < folder.len() && folder[e] == entry;
            assert(entries[e] == folder[e]);
            assert(tracks[places[e]] == entries[e]);
            assert(playlist.tracks@[places[e]]@ == entry);
        }
        if probe is Some {
            law_same_files_in_playing_order(entries, tracks, selected@);
            assert(of_path(tracks[index as int], selected@));
        }
    } else {
        if wanted {
            let entry = entry_of(
                views[k].path,
                views[k].probe->Some_0.meta,
                views[k].probe->Some_0.duration_bits,
            );
            let e = choose|e: int| 0 <= e < folder.len() && folder[e] == entry;
            assert(entries[e] == folder[e]);
        }
    }
}

proof fn lemma_folder_entries_bound(files: Seq<FolderFileView>)
    ensures
        folder_entries(files).len() <= files.len(),
    decreases files.len(),
{
    if files.len() > 0 {
        lemma_folder_entries_bound(files.drop_last());
    }
}

proof fn lemma_audio_file_is_an_entry(files: Seq<FolderFileView>, k: int)
    requires
        0 <= k < files.len(),
        listed(files[k].path, files[k].is_file),
        files[k].probe is Some,
    ensures
        exists|e: int|
            0 <= e < folder_entries(files).len() && #[trigger] folder_entries(files)[e] == entry_of(
                files[k].path,
                files[k].probe->Some_0.meta,
                files[k].probe->Some_0.duration_bits,
            ),
    decreases files.len(),
{
    let entry = entry_of(
        files[k].path,
        files[k].probe->Some_0.meta,
        files[k].probe->Some_0.duration_bits,
    );
    let rest = files.drop_last();
    let before = folder_entries(rest);
    let all = folder_entries(files);
    if k == files.len() - 1 {
        assert(all[before.len() as int] == entry);
    } else {
        assert(rest[k] == files[k]);
        lemma_audio_file_is_an_entry(rest, k);
        let e = choose|e: int| 0 <= e < before.len() && #[trigger] before[e] == entry;
        assert(all[e] == entry);
    }
}

/// Choosing a track makes it the loaded one and keeps the list; its path is that of the track at
/// its place, and a place behind the list has none. An empty list has neither.
pub proof fn law_choosing_a_track(
    playlist: &mut Playlist,
    index: usize,
    list: &Playlist,
    path: Option<Vec<u8>>,
    blank: Playlist,
)
    requires
        call_ensures(Playlist::select, (playlist, index), ()),
        call_ensures(Playlist::path_at, (list, index), path),
        call_ensures(Playlist::empty, (), blank),
    ensures
        final(playlist).current == Some(index),
        final(playlist).tracks == old(playlist).tracks,
        index < list.tracks@.len() ==> (path matches Some(bytes) && bytes@
            == list.tracks@[index as int].path@),
        index >= list.tracks@.len() ==> path is None,
        blank.tracks@.len() == 0 && blank.current is None,
{
}

/// The selected file is in the list exactly where some audio file of the folder that could be
/// probed has its path.
pub proof fn law_finding_the_selected_file(files: &[FolderFile], selected: &[u8], r: bool)
    requires
        call_ensures(selected_is_listed, (files, selected), r),
    ensures
        r <==> exists|k: int|
            0 <= k < files@.len() && (#[trigger] files@[k]).is_file && audio_path(files@[k].path@)
                && files@[k].probe is Some && path_key_of(files@[k].path@) == path_key_of(selected@),
{
    let views = files_view(files@);
    let entries = folder_entries(views);
    if r {
        let e = choose|e: int| 0 <= e < entries.len() && of_path(#[trigger] entries[e], selected@);
        let k = lemma_entry_is_an_audio_file(views, e);
        assert(views[k] == files@[k]@);
        assert(files@[k].is_file);
    }
    if exists|k: int|
        0 <= k < files@.len() && (#[trigger] files@[k]).is_file && audio_path(files@[k].path@)
            && files@[k].probe is Some && path_key_of(files@[k].path@) == path_key_of(selected@) {
        let k = choose|k: int|
            0 <= k < files@.len() && (#[trigger] files@[k]).is_file && audio_path(files@[k].path@)
                && files@[k].probe is Some && path_key_of(files@[k].path@) == path_key_of(selected@);
        assert(views[k] == files@[k]@);
        lemma_audio_file_is_an_entry(views, k);
        let e = choose|e: int|
            0 <= e < entries.len() && #[trigger] entries[e] == entry_of(
                views[k].path,
                views[k].probe->Some_0.meta,
                views[k].probe->Some_0.duration_bits,
            );
        assert(of_path(entries[e], selected@));
    }
}

/// Every entry of a folder is that of an audio file that could be probed.
proof fn lemma_entry_is_an_audio_file(files: Seq<FolderFileView>, e: int) -> (k: int)
    requires
        0 <= e < folder_entries(files).len(),
    ensures
        0 <= k < files.len(),
        listed(files[k].path, files[k].is_file),
        files[k].probe is Some,
        folder_entries(files)[e] == entry_of(
            files[k].path,
            files[k].probe->Some_0.meta,
            files[k].probe->Some_0.duration_bits,
        ),
    decreases files.len(),
{
    let rest = files.drop_last();
    if e < folder_entries(rest).len() {
        let k = lemma_entry_is_an_audio_file(rest, e);
        assert(rest[k] == files[k]);
        k
    } else {
        files.len() - 1
    }
}

} // verus!
