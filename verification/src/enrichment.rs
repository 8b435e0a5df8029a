//! Completing what is shown of a track, and the covers of the library, from online sources: when
//! a lookup starts, which step follows which, and what becomes of a reply that comes too late.
use vstd::prelude::*;
use vstd::slice::slice_subrange;

use crate::artwork::{picture_view, Picture, PictureView};
use crate::library::{albums_view, AlbumEntry, AlbumView};
use crate::metadata::{bytes_view, text_view, MetadataView, TrackMetadata};
use crate::online_metadata::{search_url_of, text_or_empty, ReleaseSummary, SummaryView};
use crate::text::{
    all_digits, are_digits, ascii_digit, from_chars, lemma_blank_text, to_chars, trim_of, trimmed,
    white_space,
};

verus! {

/// The number of the next load: one more than that of the last.
pub fn next_sequence(last: u64) -> (r: u64)
    requires
        last < u64::MAX,
    ensures
        r == last + 1,
{
    last + 1
}

/// Whether what was started under the number `expected` is still wanted.
pub open spec fn still_current(current: u64, expected: u64) -> bool {
    current == expected
}

/// Whether what was started under the number `expected` is still wanted.
pub fn is_current(current: u64, expected: u64) -> (r: bool)
    ensures
        r == still_current(current, expected),
{
    current == expected
}

/// Every load gets a number of its own, one above the last, and only what was started under the
/// present number is wanted.
pub proof fn law_each_load_has_its_own_number(last: u64, next: u64, other: u64)
    requires
        call_ensures(next_sequence, (last,), next),
    ensures
        next == last + 1,
        still_current(next, next),
        still_current(next, other) ==> other == next,
{
}

/// What was started for one load is not wanted after any number of further loads.
pub proof fn law_later_loads_drop_earlier_lookups(expected: u64, loads: nat)
    requires
        loads > 0,
        expected + loads <= u64::MAX,
    ensures
        !still_current((expected + loads) as u64, expected),
{
}

/// The artist that is looked up: that of the album, or else that of the track.
pub open spec fn lookup_artist(meta: MetadataView) -> Seq<char> {
    text_or_empty(
        if meta.album_artist is Some {
            meta.album_artist
        } else {
            meta.artist
        },
    )
}

/// The artist and the album to look up; nothing where either is blank.
pub open spec fn lookup_terms_of(meta: MetadataView) -> Option<(Seq<char>, Seq<char>)> {
    let artist = lookup_artist(meta);
    let album = text_or_empty(meta.album);
    if trim_of(artist).len() > 0 && trim_of(album).len() > 0 {
        Some((artist, album))
    } else {
        None
    }
}

/// A text, or nothing.
fn text_or_none(text: &Option<String>) -> (r: String)
    ensures
        r@ == text_or_empty(text_view(*text)),
{
    match text {
        Some(s) => s.clone(),
        None => String::new(),
    }
}

/// The artist and the album to look up.
pub fn lookup_terms(meta: &TrackMetadata) -> (r: Option<(String, String)>)
    ensures
        match r {
            Some((artist, album)) => lookup_terms_of(meta@) == Some((artist@, album@)),
            None => lookup_terms_of(meta@) is None,
        },
{
    let artist = match &meta.album_artist {
        Some(s) => s.clone(),
        None => text_or_none(&meta.artist),
    };
    let album = text_or_none(&meta.album);
    let blank_artist = trimmed(artist.as_str()).as_str().is_empty();
    let blank_album = trimmed(album.as_str()).as_str().is_empty();
    if !blank_artist && !blank_album {
        Some((artist, album))
    } else {
        None
    }
}

/// What is looked up can be searched for.
pub proof fn law_lookup_terms_can_be_searched(meta: MetadataView)
    requires
        lookup_terms_of(meta) is Some,
    ensures
        search_url_of(lookup_terms_of(meta).unwrap().0, lookup_terms_of(meta).unwrap().1) is Some,
{
}

/// The artist of the album is looked up where there is one, whatever that of the track; else that
/// of the track; and always the album, both as they are written.
pub proof fn law_album_artist_is_looked_up_first(
    meta: MetadataView,
    artist: Seq<char>,
    album: Seq<char>,
)
    requires
        meta.album_artist == Some(artist) || meta.album_artist is None && meta.artist == Some(
            artist,
        ),
        meta.album == Some(album),
    ensures
        (exists|i: int| 0 <= i < artist.len() && !white_space(#[trigger] artist[i])) && (exists|
            i: int,
        |
            0 <= i < album.len() && !white_space(#[trigger] album[i])) <==> lookup_terms_of(meta)
            == Some((artist, album)),
        lookup_terms_of(meta) is None || lookup_terms_of(meta) == Some((artist, album)),
{
    lemma_blank_text(artist);
    lemma_blank_text(album);
}

/// Without an album, or without any artist, nothing is looked up; neither is a track whose album
/// artist is blank, even where it has an artist.
pub proof fn law_blank_terms_are_not_looked_up(meta: MetadataView)
    ensures
        meta.album is None ==> lookup_terms_of(meta) is None,
        meta.album_artist is None && meta.artist is None ==> lookup_terms_of(meta) is None,
        meta.album_artist matches Some(s) ==> ((forall|i: int|
            0 <= i < s.len() ==> white_space(#[trigger] s[i])) ==> lookup_terms_of(meta) is None),
        meta.album matches Some(s) ==> ((forall|i: int|
            0 <= i < s.len() ==> white_space(#[trigger] s[i])) ==> lookup_terms_of(meta) is None),
{
    lemma_blank_text(Seq::empty());
    if let Some(s) = meta.album_artist {
        lemma_blank_text(s);
    }
    if let Some(s) = meta.album {
        lemma_blank_text(s);
    }
}

/// What is said of a lookup when a track is loaded.
pub fn lookup_status(looked_up: bool) -> (r: &'static str)
    ensures
        r@ == if looked_up {
            "MusicBrainz: looking up release…"@
        } else {
            ""@
        },
{
    if looked_up {
        "MusicBrainz: looking up release…"
    } else {
        ""
    }
}

/// The part of the window that a lookup may complete.
#[derive(Debug)]
pub struct TrackPanel {
    pub title: String,
    pub artist: String,
    pub year: String,
    pub status: String,
}

/// The part of the window that a lookup may complete.
pub struct PanelView {
    pub title: Seq<char>,
    pub artist: Seq<char>,
    pub year: Seq<char>,
    pub status: Seq<char>,
}

impl View for TrackPanel {
    type V = PanelView;

    open spec fn view(&self) -> PanelView {
        PanelView {
            title: self.title@,
            artist: self.artist@,
            year: self.year@,
            status: self.status@,
        }
    }
}

/// `shown`, or `found` where nothing is shown.
pub open spec fn completed(shown: Seq<char>, found: Seq<char>) -> Seq<char> {
    if shown.len() == 0 {
        found
    } else {
        shown
    }
}

/// The year in a date: its first four characters, where they are digits.
pub open spec fn year_in(date: Seq<char>) -> Seq<char> {
    if date.len() >= 4 && all_digits(date.take(4)) {
        date.take(4)
    } else {
        Seq::empty()
    }
}

/// The year in a date.
pub fn year_from(date: &str) -> (r: String)
    ensures
        r@ == year_in(date@),
{
    let chars = to_chars(date);
    if chars.len() >= 4 {
        let year = slice_subrange(chars.as_slice(), 0, 4);
        assert(year@ =~= date@.take(4));
        if are_digits(year) {
            return from_chars(year);
        }
    }
    String::new()
}

impl PanelView {
    /// The panel once a release is known: what was empty is completed, what was there stays.
    pub open spec fn with_summary(self, summary: SummaryView) -> PanelView {
        PanelView {
            title: completed(self.title, summary.title),
            artist: completed(self.artist, summary.artist),
            year: completed(self.year, year_in(summary.date)),
            status: completed(self.status, "Credits/date: MusicBrainz"@),
        }
    }

    /// The panel once a cover is there; one that cannot be decoded changes nothing.
    pub open spec fn with_cover(self, picture: Option<PictureView>) -> PanelView {
        if picture is Some {
            PanelView { status: "Artwork: Cover Art Archive (release match)"@, ..self }
        } else {
            self
        }
    }
}

/// Completes a text that is empty.
fn complete(shown: String, found: &str) -> (r: String)
    ensures
        r@ == completed(shown@, found@),
{
    if shown.as_str().is_empty() {
        found.to_string()
    } else {
        shown
    }
}

impl TrackPanel {
    /// Completes the panel from a release.
    pub fn apply_summary(self, summary: &ReleaseSummary) -> (r: TrackPanel)
        ensures
            r@ == self@.with_summary(summary@),
    {
        let year = year_from(summary.date.as_str());
        TrackPanel {
            title: complete(self.title, summary.title.as_str()),
            artist: complete(self.artist, summary.artist.as_str()),
            year: complete(self.year, year.as_str()),
            status: complete(self.status, "Credits/date: MusicBrainz"),
        }
    }

    /// Says where a cover is from, once it is there.
    pub fn apply_cover(self, picture: &Option<Picture>) -> (r: TrackPanel)
        ensures
            r@ == self@.with_cover(picture_view(*picture)),
    {
        if picture.is_some() {
            TrackPanel {
                status: "Artwork: Cover Art Archive (release match)".to_string(),
                title: self.title,
                artist: self.artist,
                year: self.year,
            }
        } else {
            self
        }
    }
}

/// What a lookup does to the panel.
#[derive(Debug)]
pub enum PanelUpdate {
    /// Nothing was found.
    ClearStatus,
    /// A cover was fetched, and decoded where it could be.
    Cover(Option<Picture>),
    Summary(ReleaseSummary),
}

/// What a lookup does to the panel.
pub enum PanelUpdateView {
    ClearStatus,
    Cover(Option<PictureView>),
    Summary(SummaryView),
}

impl View for PanelUpdate {
    type V = PanelUpdateView;

    open spec fn view(&self) -> PanelUpdateView {
        match self {
            PanelUpdate::ClearStatus => PanelUpdateView::ClearStatus,
            PanelUpdate::Cover(picture) => PanelUpdateView::Cover(picture_view(*picture)),
            PanelUpdate::Summary(summary) => PanelUpdateView::Summary(summary@),
        }
    }
}

impl PanelView {
    /// The panel after an update.
    pub open spec fn updated(self, update: PanelUpdateView) -> PanelView {
        match update {
            PanelUpdateView::ClearStatus => PanelView { status: ""@, ..self },
            PanelUpdateView::Cover(picture) => self.with_cover(picture),
            PanelUpdateView::Summary(summary) => self.with_summary(summary),
        }
    }

    /// The panel after an update that was started under the number `expected`. One that is no
    /// longer wanted changes nothing.
    pub open spec fn updated_if_current(
        self,
        current: u64,
        expected: u64,
        update: PanelUpdateView,
    ) -> PanelView {
        if still_current(current, expected) {
            self.updated(update)
        } else {
            self
        }
    }
}

/// Applies an update to the panel, if it is still wanted.
pub fn ui_apply_if_current(
    panel: TrackPanel,
    current: u64,
    expected: u64,
    update: &PanelUpdate,
) -> (r: TrackPanel)
    ensures
        r@ == panel@.updated_if_current(current, expected, update@),
{
    if !is_current(current, expected) {
        return panel;
    }
    match update {
        PanelUpdate::ClearStatus => TrackPanel {
            status: "".to_string(),
            title: panel.title,
            artist: panel.artist,
            year: panel.year,
        },
        PanelUpdate::Cover(picture) => panel.apply_cover(picture),
        PanelUpdate::Summary(summary) => panel.apply_summary(summary),
    }
}

/// A lookup for an earlier track cannot write into the panel of a later one, whatever it found.
pub proof fn law_earlier_lookup_leaves_the_panel_alone(
    panel: PanelView,
    expected: u64,
    loads: nat,
    update: PanelUpdateView,
)
    requires
        loads > 0,
        expected + loads <= u64::MAX,
    ensures
        panel.updated_if_current((expected + loads) as u64, expected, update) == panel,
{
}

/// A lookup never changes a title, an artist or a year that is already shown.
pub proof fn law_lookup_keeps_what_is_shown(panel: PanelView, update: PanelUpdateView)
    ensures
        panel.title.len() > 0 ==> panel.updated(update).title == panel.title,
        panel.artist.len() > 0 ==> panel.updated(update).artist == panel.artist,
        panel.year.len() > 0 ==> panel.updated(update).year == panel.year,
{
}

/// Each empty field is completed on its own, whatever the other fields show: the title and the
/// artist with those of the release, the year with the first four characters of its date where
/// those are digits, and with nothing otherwise.
pub proof fn law_each_empty_field_is_completed(panel: PanelView, summary: SummaryView)
    ensures
        panel.title.len() == 0 ==> panel.with_summary(summary).title == summary.title,
        panel.artist.len() == 0 ==> panel.with_summary(summary).artist == summary.artist,
        panel.year.len() == 0 && summary.date.len() >= 4 && (forall|i: int|
            0 <= i < 4 ==> '0' <= #[trigger] summary.date[i] <= '9') ==> panel.with_summary(
            summary,
        ).year == summary.date.take(4),
        panel.year.len() == 0 && (summary.date.len() < 4 || exists|i: int|
            0 <= i < 4 && !('0' <= #[trigger] summary.date[i] <= '9')) ==> panel.with_summary(
            summary,
        ).year.len() == 0,
        panel.status.len() == 0 ==> panel.with_summary(summary).status
            == "Credits/date: MusicBrainz"@,
{
    let date = summary.date;
    if date.len() >= 4 {
        let year = date.take(4);
        assert forall|i: int| 0 <= i < 4 implies year[i] == date[i] by {}
        if forall|i: int| 0 <= i < 4 ==> '0' <= #[trigger] date[i] <= '9' {
            assert forall|i: int| 0 <= i < year.len() implies ascii_digit(#[trigger] year[i]) by {
                assert('0' <= date[i] <= '9');
            }
            assert(all_digits(year));
        } else {
            let i = choose|i: int| 0 <= i < 4 && !('0' <= #[trigger] date[i] <= '9');
            assert(!ascii_digit(year[i]));
            assert(!all_digits(year));
        }
    }
}

/// What is shown stays when a release is known, field by field, whatever the release says.
pub proof fn law_summary_keeps_each_shown_field(panel: PanelView, summary: SummaryView)
    ensures
        panel.title.len() > 0 ==> panel.with_summary(summary).title == panel.title,
        panel.artist.len() > 0 ==> panel.with_summary(summary).artist == panel.artist,
        panel.year.len() > 0 ==> panel.with_summary(summary).year == panel.year,
        panel.status.len() > 0 ==> panel.with_summary(summary).status == panel.status,
{
}

/// Completing a panel from the same release again changes nothing more.
pub proof fn law_summary_applied_twice(panel: PanelView, summary: SummaryView)
    ensures
        panel.with_summary(summary).with_summary(summary) == panel.with_summary(summary),
{
    reveal_strlit("Credits/date: MusicBrainz");
}

/// A reply that comes while its track is still loaded is applied: a release completes the panel, a
/// cover that can be decoded is named as the source of the artwork, one that cannot changes
/// nothing, and where nothing was found the status is cleared. Title, artist and year change by a
/// release alone.
pub proof fn law_timely_reply_is_applied(
    panel: PanelView,
    number: u64,
    summary: SummaryView,
    picture: PictureView,
)
    ensures
        panel.updated_if_current(number, number, PanelUpdateView::Summary(summary))
            == panel.with_summary(summary),
        panel.updated_if_current(number, number, PanelUpdateView::Cover(Some(picture)))
            == (PanelView {
            status: "Artwork: Cover Art Archive (release match)"@,
            ..panel
        }),
        panel.updated_if_current(number, number, PanelUpdateView::Cover(None)) == panel,
        panel.updated_if_current(number, number, PanelUpdateView::ClearStatus).status.len() == 0,
        panel.updated_if_current(number, number, PanelUpdateView::ClearStatus) == (PanelView {
            status: panel.updated_if_current(number, number, PanelUpdateView::ClearStatus).status,
            ..panel
        }),
{
    reveal_strlit("");
}

/// A reply to what was started under another number than the present one changes nothing.
pub proof fn law_untimely_reply_is_dropped(
    panel: PanelView,
    current: u64,
    expected: u64,
    update: PanelUpdateView,
)
    requires
        current != expected,
    ensures
        panel.updated_if_current(current, expected, update) == panel,
{
}

/// What the lookup for a track does next.
#[derive(Debug)]
pub enum LookupStep {
    /// Nothing more: another track is loaded.
    Stop,
    /// Look for the release.
    FindRelease,
    /// Say that nothing was found, if the track is still loaded.
    ClearStatus,
    /// Fetch the cover of the release.
    FetchCover(String),
    /// Fetch the summary of the release.
    FetchSummary(String),
}

/// What the lookup for a track does next.
pub enum LookupStepView {
    Stop,
    FindRelease,
    ClearStatus,
    FetchCover(Seq<char>),
    FetchSummary(Seq<char>),
}

impl View for LookupStep {
    type V = LookupStepView;

    open spec fn view(&self) -> LookupStepView {
        match self {
            LookupStep::Stop => LookupStepView::Stop,
            LookupStep::FindRelease => LookupStepView::FindRelease,
            LookupStep::ClearStatus => LookupStepView::ClearStatus,
            LookupStep::FetchCover(mbid) => LookupStepView::FetchCover(mbid@),
            LookupStep::FetchSummary(mbid) => LookupStepView::FetchSummary(mbid@),
        }
    }
}

/// The lookup for a track that was loaded under the number `expected`.
#[derive(Clone, Copy, Debug, PartialEq, Eq, Structural)]
pub struct TrackLookup {
    pub expected: u64,
    pub had_local_art: bool,
}

impl TrackLookup {
    /// The step after the summary of a release is due.
    pub open spec fn summary_step(self, current: u64, mbid: Seq<char>) -> LookupStepView {
        if still_current(current, self.expected) {
            LookupStepView::FetchSummary(mbid)
        } else {
            LookupStepView::Stop
        }
    }

    /// The step after the search for a release: without one there is nothing to fetch; with one,
    /// the cover comes first, unless the track has artwork of its own.
    pub open spec fn release_step(self, current: u64, mbid: Option<Seq<char>>) -> LookupStepView {
        match mbid {
            None => LookupStepView::ClearStatus,
            Some(id) => if !still_current(current, self.expected) {
                LookupStepView::Stop
            } else if self.had_local_art {
                LookupStepView::FetchSummary(id)
            } else {
                LookupStepView::FetchCover(id)
            },
        }
    }

    /// The first step.
    pub fn start(&self, current: u64) -> (r: LookupStep)
        ensures
            r@ == if still_current(current, self.expected) {
                LookupStepView::FindRelease
            } else {
                LookupStepView::Stop
            },
    {
        if is_current(current, self.expected) {
            LookupStep::FindRelease
        } else {
            LookupStep::Stop
        }
    }

    /// The step after the search for a release.
    pub fn on_release(&self, current: u64, mbid: Option<String>) -> (r: LookupStep)
        ensures
            r@ == self.release_step(current, text_view(mbid)),
    {
        match mbid {
            None => LookupStep::ClearStatus,
            Some(id) => if !is_current(current, self.expected) {
                LookupStep::Stop
            } else if self.had_local_art {
                LookupStep::FetchSummary(id)
            } else {
                LookupStep::FetchCover(id)
            },
        }
    }

    /// The step after the cover.
    pub fn on_cover(&self, current: u64, mbid: String) -> (r: LookupStep)
        ensures
            r@ == self.summary_step(current, mbid@),
    {
        if is_current(current, self.expected) {
            LookupStep::FetchSummary(mbid)
        } else {
            LookupStep::Stop
        }
    }
}

/// Once another track is loaded, the lookup fetches nothing more.
pub proof fn law_overtaken_lookup_fetches_nothing(
    lookup: TrackLookup,
    current: u64,
    mbid: Option<Seq<char>>,
)
    requires
        !still_current(current, lookup.expected),
    ensures
        !(lookup.release_step(current, mbid) is FetchCover),
        !(lookup.release_step(current, mbid) is FetchSummary),
        mbid matches Some(id) ==> lookup.summary_step(current, id) is Stop,
{
}

/// The cover of a track that has artwork of its own is never fetched.
pub proof fn law_own_artwork_is_kept(lookup: TrackLookup, current: u64, mbid: Option<Seq<char>>)
    requires
        lookup.had_local_art,
    ensures
        !(lookup.release_step(current, mbid) is FetchCover),
{
}

/// As long as its track is loaded, a lookup that has found a release goes on: to the cover where
/// the track has no artwork of its own, to the summary otherwise, and from the cover to the
/// summary, always with the release that was found.
pub proof fn law_timely_lookup_goes_on(number: u64, had_local_art: bool, mbid: Seq<char>)
    ensures
        ({
            let lookup = TrackLookup { expected: number, had_local_art };
            &&& !had_local_art ==> lookup.release_step(number, Some(mbid))
                == LookupStepView::FetchCover(mbid)
            &&& had_local_art ==> lookup.release_step(number, Some(mbid))
                == LookupStepView::FetchSummary(mbid)
            &&& lookup.summary_step(number, mbid) == LookupStepView::FetchSummary(mbid)
        }),
{
}

/// Without a release the status is cleared, and nothing is fetched, whatever else has happened.
pub proof fn law_lookup_without_release_clears_the_status(lookup: TrackLookup, current: u64)
    ensures
        lookup.release_step(current, None) is ClearStatus,
{
}

/// A lookup starts exactly while its track is loaded.
pub proof fn law_lookup_starts_while_current(lookup: TrackLookup, current: u64, r: LookupStep)
    requires
        call_ensures(TrackLookup::start, (&lookup, current), r),
    ensures
        r is FindRelease <==> current == lookup.expected,
        r is Stop <==> current != lookup.expected,
{
}

/// What is known of the first track of an album.
#[derive(Clone, Copy, Debug, PartialEq, Eq, Structural)]
pub enum AlbumTrack {
    /// The folder holds no audio file any more.
    Missing,
    /// The file cannot be read.
    Unreadable,
    Readable { has_artwork: bool, has_folder_cover: bool },
}

/// Whether a cover is sought for an album: it has none from elsewhere, and its first track has no
/// artwork of its own or cannot be read.
pub open spec fn cover_wanted(entry: AlbumView, track: AlbumTrack) -> bool {
    entry.cover_override is None && match track {
        AlbumTrack::Missing => false,
        AlbumTrack::Unreadable => true,
        AlbumTrack::Readable { has_artwork, has_folder_cover } => !has_artwork
            && !has_folder_cover,
    }
}

/// Whether a cover is sought for an album.
pub fn is_cover_wanted(entry: &AlbumEntry, track: AlbumTrack) -> (r: bool)
    ensures
        r == cover_wanted(entry@, track),
{
    if entry.cover_override.is_some() {
        return false;
    }
    match track {
        AlbumTrack::Missing => false,
        AlbumTrack::Unreadable => true,
        AlbumTrack::Readable { has_artwork, has_folder_cover } => !has_artwork
            && !has_folder_cover,
    }
}

/// The search for the covers of a library, album by album.
#[derive(Clone, Copy, Debug, PartialEq, Eq, Structural)]
pub struct CoverBackfill {
    pub expected: u64,
    /// How many albums there were at the start.
    pub count: usize,
    /// The album that is looked at.
    pub index: usize,
}

/// What becomes of a cover.
#[derive(Debug)]
pub enum CoverOutcome {
    /// The search ends: another library is loaded.
    Stop,
    /// There is none; on to the next album.
    Skip,
    /// It goes to the album at the index, the grid is shown anew, and on to the next album.
    Store(usize, Vec<u8>),
}

/// What becomes of a cover.
pub enum CoverOutcomeView {
    Stop,
    Skip,
    Store(usize, Seq<u8>),
}

impl View for CoverOutcome {
    type V = CoverOutcomeView;

    open spec fn view(&self) -> CoverOutcomeView {
        match self {
            CoverOutcome::Stop => CoverOutcomeView::Stop,
            CoverOutcome::Skip => CoverOutcomeView::Skip,
            CoverOutcome::Store(index, bytes) => CoverOutcomeView::Store(*index, bytes@),
        }
    }
}

impl CoverBackfill {
    /// The album is one of those at the start, or the search is through.
    pub open spec fn wf(self) -> bool {
        self.index <= self.count
    }

    /// The search once the album is done with.
    pub open spec fn advanced(self) -> CoverBackfill {
        CoverBackfill { index: (self.index + 1) as usize, ..self }
    }

    /// The album to look at; nothing where the search is through or another library is loaded.
    pub open spec fn due(self, current: u64) -> Option<usize> {
        if self.index < self.count && still_current(current, self.expected) {
            Some(self.index)
        } else {
            None
        }
    }

    /// What becomes of the cover of the album that is looked at.
    pub open spec fn outcome(self, current: u64, bytes: Option<Seq<u8>>) -> CoverOutcomeView {
        match bytes {
            None => CoverOutcomeView::Skip,
            Some(cover) => if still_current(current, self.expected) {
                CoverOutcomeView::Store(self.index, cover)
            } else {
                CoverOutcomeView::Stop
            },
        }
    }

    /// The search through a library of `count` albums.
    pub fn new(expected: u64, count: usize) -> (r: CoverBackfill)
        ensures
            r.wf(),
            r == (CoverBackfill { expected, count, index: 0 }),
    {
        CoverBackfill { expected, count, index: 0 }
    }

    /// The album to look at.
    pub fn turn(&self, current: u64) -> (r: Option<usize>)
        ensures
            r == self.due(current),
    {
        if self.index < self.count && is_current(current, self.expected) {
            Some(self.index)
        } else {
            None
        }
    }

    /// Goes on to the next album.
    pub fn skip(&mut self)
        requires
            old(self).index < old(self).count,
        ensures
            *final(self) == old(self).advanced(),
            final(self).wf(),
    {
        self.index = self.index + 1;
    }

    /// Decides what becomes of a cover, and goes on to the next album.
    pub fn on_cover(&mut self, current: u64, bytes: Option<Vec<u8>>) -> (r: CoverOutcome)
        requires
            old(self).index < old(self).count,
        ensures
            r@ == old(self).outcome(current, bytes_view(bytes)),
            *final(self) == old(self).advanced(),
            final(self).wf(),
    {
        let at: usize = self.index;
        self.skip();
        match bytes {
            None => CoverOutcome::Skip,
            Some(cover) => if is_current(current, self.expected) {
                CoverOutcome::Store(at, cover)
            } else {
                CoverOutcome::Stop
            },
        }
    }
}

/// A search that is overtaken stores nothing.
pub proof fn law_overtaken_backfill_stores_nothing(
    search: CoverBackfill,
    current: u64,
    bytes: Option<Seq<u8>>,
)
    requires
        !still_current(current, search.expected),
    ensures
        !(search.outcome(current, bytes) is Store),
        search.due(current) is None,
{
}

/// The search after so many albums.
pub open spec fn after_albums(search: CoverBackfill, albums: nat) -> CoverBackfill
    decreases albums,
{
    if albums == 0 {
        search
    } else {
        after_albums(search, (albums - 1) as nat).advanced()
    }
}

/// The search comes to every album of the library once, in order, and then ends.
pub proof fn law_backfill_visits_every_album(expected: u64, count: usize, album: nat)
    requires
        album <= count,
    ensures
        after_albums(CoverBackfill { expected, count, index: 0 }, album).due(expected)
            == if album < count {
            Some(album as usize)
        } else {
            None
        },
{
    lemma_after_albums(expected, count, album);
}

proof fn lemma_after_albums(expected: u64, count: usize, album: nat)
    requires
        album <= count,
    ensures
        after_albums(CoverBackfill { expected, count, index: 0 }, album) == (CoverBackfill {
            expected,
            count,
            index: album as usize,
        }),
    decreases album,
{
    if album > 0 {
        lemma_after_albums(expected, count, (album - 1) as nat);
    }
}

/// The library with a cover for the album at `index`, where there is one.
pub open spec fn with_stored_cover(
    albums: Seq<AlbumView>,
    index: int,
    bytes: Seq<u8>,
) -> Seq<AlbumView> {
    if index < albums.len() {
        albums.update(index, AlbumView { cover_override: Some(bytes), ..albums[index] })
    } else {
        albums
    }
}

/// Gives the album at `index` a cover.
pub fn store_cover(albums: &mut Vec<AlbumEntry>, index: usize, bytes: Vec<u8>)
    ensures
        albums_view(final(albums)@) == with_stored_cover(
            albums_view(old(albums)@),
            index as int,
            bytes@,
        ),
{
    if index < albums.len() {
        let ghost before = albums_view(albums@);
        albums[index].cover_override = Some(bytes);
        assert(albums_view(albums@) =~= with_stored_cover(before, index as int, bytes@));
    }
}

/// An album that was given a cover is not searched for again.
pub proof fn law_stored_cover_ends_the_search(
    albums: Seq<AlbumView>,
    index: int,
    bytes: Seq<u8>,
    track: AlbumTrack,
)
    requires
        0 <= index < albums.len(),
    ensures
        !cover_wanted(with_stored_cover(albums, index, bytes)[index], track),
        forall|i: int|
            0 <= i < albums.len() && i != index ==> #[trigger] with_stored_cover(
                albums,
                index,
                bytes,
            )[i] == albums[i],
{
}

/// A step of a search for covers, or of another library being loaded meanwhile.
pub enum SearchStep {
    /// The search comes to the next album, of whose first track this is known.
    Looked(AlbumTrack),
    /// The reply for that album has come: its cover, or none.
    Replied(Option<Seq<u8>>),
    /// Another library is asked for, and gets the next number.
    NumberTaken,
    /// The other library has been read, and takes the place of this one.
    LibraryRead(Seq<AlbumView>),
}

/// A search for covers so far.
pub struct SearchRun {
    pub search: CoverBackfill,
    /// The number of the last load.
    pub current: u64,
    pub albums: Seq<AlbumView>,
    /// Whether a reply is awaited.
    pub waiting: bool,
    /// Whether the search has ended.
    pub ended: bool,
}

/// Whether an album stayed the same, but for a cover that it lacked.
pub open spec fn only_cover_added(before: AlbumView, after: AlbumView) -> bool {
    &&& after == AlbumView { cover_override: after.cover_override, ..before }
    &&& before.cover_override is Some ==> after.cover_override == before.cover_override
}

/// Whether all albums stayed the same, but for covers that they lacked.
pub open spec fn only_covers_added(before: Seq<AlbumView>, after: Seq<AlbumView>) -> bool {
    &&& after.len() == before.len()
    &&& forall|i: int| 0 <= i < before.len() ==> #[trigger] only_cover_added(before[i], after[i])
}

impl SearchRun {
    /// The search through a library that was loaded under the number `expected`.
    pub open spec fn start(expected: u64, albums: Seq<AlbumView>) -> SearchRun {
        SearchRun {
            search: CoverBackfill { expected, count: albums.len() as usize, index: 0 },
            current: expected,
            albums,
            waiting: false,
            ended: false,
        }
    }

    /// Whether a step can come next. The search takes one album after the other, and awaits the
    /// reply for each. A library is only replaced after the next number has been taken.
    pub open spec fn allows(self, step: SearchStep) -> bool {
        match step {
            SearchStep::Looked(_) => !self.waiting && !self.ended,
            SearchStep::Replied(_) => self.waiting,
            SearchStep::NumberTaken => self.current < u64::MAX,
            SearchStep::LibraryRead(_) => !still_current(self.current, self.search.expected),
        }
    }

    /// The search after one more step.
    pub open spec fn after(self, step: SearchStep) -> SearchRun {
        match step {
            SearchStep::Looked(track) => match self.search.due(self.current) {
                None => SearchRun { ended: true, ..self },
                Some(index) => if index < self.albums.len() && cover_wanted(
                    self.albums[index as int],
                    track,
                ) {
                    SearchRun { waiting: true, ..self }
                } else {
                    SearchRun { search: self.search.advanced(), ..self }
                },
            },
            SearchStep::Replied(bytes) => {
                let next = SearchRun { search: self.search.advanced(), waiting: false, ..self };
                match self.search.outcome(self.current, bytes) {
                    CoverOutcomeView::Stop => SearchRun { ended: true, ..next },
                    CoverOutcomeView::Skip => next,
                    CoverOutcomeView::Store(index, cover) => SearchRun {
                        albums: with_stored_cover(self.albums, index as int, cover),
                        ..next
                    },
                }
            },
            SearchStep::NumberTaken => SearchRun { current: (self.current + 1) as u64, ..self },
            SearchStep::LibraryRead(albums) => SearchRun { albums, ..self },
        }
    }

    /// The search after some more steps.
    pub open spec fn after_all(self, steps: Seq<SearchStep>) -> SearchRun
        decreases steps.len(),
    {
        if steps.len() == 0 {
            self
        } else {
            self.after_all(steps.drop_last()).after(steps.last())
        }
    }

    /// Whether the steps can come one after the other.
    pub open spec fn allows_all(self, steps: Seq<SearchStep>) -> bool
        decreases steps.len(),
    {
        steps.len() == 0 || self.allows_all(steps.drop_last()) && self.after_all(
            steps.drop_last(),
        ).allows(steps.last())
    }

    /// What holds throughout a search through the library `albums`: the numbers only grow, an
    /// album for which a reply is awaited lacks a cover, and while the search is not overtaken,
    /// the library has only gained covers.
    pub open spec fn holds(self, expected: u64, albums: Seq<AlbumView>) -> bool {
        &&& self.search.expected == expected
        &&& self.search.count == albums.len()
        &&& self.search.index <= self.search.count
        &&& self.waiting ==> self.search.index < self.search.count
        &&& self.current >= expected
        &&& self.current == expected ==> {
            &&& only_covers_added(albums, self.albums)
            &&& self.waiting ==> self.albums[self.search.index as int].cover_override is None
        }
    }
}

proof fn lemma_search_step(run: SearchRun, expected: u64, albums: Seq<AlbumView>, step: SearchStep)
    requires
        run.holds(expected, albums),
        run.allows(step),
    ensures
        run.after(step).holds(expected, albums),
        step is Looked || step is Replied ==> only_covers_added(run.albums, run.after(step).albums),
{
    let next = run.after(step);
    if step is Looked || step is Replied {
        assert forall|i: int| 0 <= i < run.albums.len() implies #[trigger] only_cover_added(
            run.albums[i],
            next.albums[i],
        ) by {}
        if run.current == expected {
            assert forall|i: int| 0 <= i < albums.len() implies #[trigger] only_cover_added(
                albums[i],
                next.albums[i],
            ) by {
                assert(only_cover_added(albums[i], run.albums[i]));
                assert(only_cover_added(run.albums[i], next.albums[i]));
            }
        }
    }
}

proof fn lemma_search_run(expected: u64, albums: Seq<AlbumView>, steps: Seq<SearchStep>)
    requires
        albums.len() <= usize::MAX,
        SearchRun::start(expected, albums).allows_all(steps),
    ensures
        SearchRun::start(expected, albums).after_all(steps).holds(expected, albums),
    decreases steps.len(),
{
    let start = SearchRun::start(expected, albums);
    if steps.len() > 0 {
        lemma_search_run(expected, albums, steps.drop_last());
        lemma_search_step(start.after_all(steps.drop_last()), expected, albums, steps.last());
    }
}

/// Over a whole search for covers, whatever else is loaded meanwhile, only covers change, and only
/// from none to some: as long as no other library is asked for, every album is what it was at the
/// start, but for a cover that it lacked then.
pub proof fn law_search_only_adds_covers(
    expected: u64,
    albums: Seq<AlbumView>,
    steps: Seq<SearchStep>,
)
    requires
        albums.len() <= usize::MAX,
        SearchRun::start(expected, albums).allows_all(steps),
    ensures
        ({
            let run = SearchRun::start(expected, albums).after_all(steps);
            still_current(run.current, expected) ==> only_covers_added(albums, run.albums)
        }),
{
    lemma_search_run(expected, albums, steps);
}

/// A search for covers changes the library only while its number is current, and then only covers,
/// from none to some. Once another library has been asked for it changes nothing any more: neither
/// the old library nor the new one.
pub proof fn law_overtaken_search_changes_nothing(
    expected: u64,
    albums: Seq<AlbumView>,
    steps: Seq<SearchStep>,
    step: SearchStep,
)
    requires
        albums.len() <= usize::MAX,
        SearchRun::start(expected, albums).allows_all(steps.push(step)),
        step is Looked || step is Replied,
    ensures
        ({
            let run = SearchRun::start(expected, albums).after_all(steps);
            &&& only_covers_added(run.albums, run.after(step).albums)
            &&& run.after(step).albums != run.albums ==> still_current(run.current, expected)
            &&& steps.contains(SearchStep::NumberTaken) ==> run.after(step).albums == run.albums
        }),
{
    let start = SearchRun::start(expected, albums);
    assert(steps.push(step).drop_last() =~= steps);
    lemma_search_run(expected, albums, steps);
    lemma_search_step(start.after_all(steps), expected, albums, step);
    if steps.contains(SearchStep::NumberTaken) {
        lemma_number_is_gone(expected, albums, steps);
    }
}

proof fn lemma_number_is_gone(expected: u64, albums: Seq<AlbumView>, steps: Seq<SearchStep>)
    requires
        albums.len() <= usize::MAX,
        SearchRun::start(expected, albums).allows_all(steps),
        steps.contains(SearchStep::NumberTaken),
    ensures
        SearchRun::start(expected, albums).after_all(steps).current > expected,
    decreases steps.len(),
{
    let before = steps.drop_last();
    lemma_search_run(expected, albums, before);
    if steps.last() != SearchStep::NumberTaken {
        let at = choose|i: int| 0 <= i < steps.len() && steps[i] == SearchStep::NumberTaken;
        assert(before[at] == SearchStep::NumberTaken);
        lemma_number_is_gone(expected, albums, before);
    }
}

/// A cover is sought exactly for an album that has none from elsewhere, and whose first track is
/// there and shows none: it cannot be read, or has neither artwork nor a cover in its folder.
pub proof fn law_cover_is_sought_where_none_is_known(
    entry: &AlbumEntry,
    track: AlbumTrack,
    r: bool,
)
    requires
        call_ensures(is_cover_wanted, (entry, track), r),
    ensures
        entry.cover_override is Some ==> !r,
        entry.cover_override is None ==> {
            &&& track is Missing ==> !r
            &&& track is Unreadable ==> r
            &&& track matches AlbumTrack::Readable { has_artwork, has_folder_cover } ==> r == !(
            has_artwork || has_folder_cover)
        },
{
}

/// A cover that comes while its library is shown goes to the album that was looked at, as it is;
/// without a cover the search goes on, whatever is shown. Either way the next album is next.
pub proof fn law_timely_cover_is_stored(
    number: u64,
    count: usize,
    index: usize,
    current: u64,
    bytes: Seq<u8>,
)
    requires
        index < count,
    ensures
        ({
            let search = CoverBackfill { expected: number, count, index };
            &&& search.outcome(number, Some(bytes)) == CoverOutcomeView::Store(index, bytes)
            &&& search.outcome(current, None) is Skip
            &&& search.due(number) == Some(index)
            &&& search.advanced().index == index + 1
            &&& search.advanced().count == count
            &&& search.advanced().expected == number
        }),
{
}

/// A stored cover is that of the album, which stays as it is otherwise, as do all the others; where
/// there is no such album nothing changes.
pub proof fn law_stored_cover_is_that_of_the_album(
    albums: Seq<AlbumView>,
    index: int,
    bytes: Seq<u8>,
    other: int,
)
    requires
        0 <= index,
        0 <= other < albums.len(),
    ensures
        with_stored_cover(albums, index, bytes).len() == albums.len(),
        index < albums.len() ==> {
            let album = with_stored_cover(albums, index, bytes)[index];
            &&& album.cover_override == Some(bytes)
            &&& album.folder == albums[index].folder
            &&& album.title == albums[index].title
            &&& album.artist == albums[index].artist
        },
        other != index ==> with_stored_cover(albums, index, bytes)[other] == albums[other],
        index >= albums.len() ==> with_stored_cover(albums, index, bytes) == albums,
{
}

/// A reply that comes in time completes each empty field on its own, whatever the others show; one
/// that comes too late changes nothing.
pub proof fn law_applying_a_summary(
    panel: TrackPanel,
    current: u64,
    expected: u64,
    update: &PanelUpdate,
    summary: ReleaseSummary,
    r: TrackPanel,
)
    requires
        call_ensures(ui_apply_if_current, (panel, current, expected, update), r),
        *update == PanelUpdate::Summary(summary),
    ensures
        current != expected ==> r@ == panel@,
        current == expected ==> {
            &&& r.title@ == if panel.title@.len() == 0 {
                summary.title@
            } else {
                panel.title@
            }
            &&& r.artist@ == if panel.artist@.len() == 0 {
                summary.artist@
            } else {
                panel.artist@
            }
            &&& panel.year@.len() > 0 ==> r.year@ == panel.year@
            &&& panel.year@.len() == 0 && summary.date@.len() >= 4 && (forall|i: int|
                0 <= i < 4 ==> '0' <= #[trigger] summary.date@[i] <= '9') ==> r.year@
                == summary.date@.take(4)
            &&& panel.status@.len() > 0 ==> r.status@ == panel.status@
        },
{
    law_each_empty_field_is_completed(panel@, summary@);
}

/// Completing a panel completes each empty field on its own, whatever the others show.
pub proof fn law_completing_a_panel(panel: TrackPanel, summary: &ReleaseSummary, r: TrackPanel)
    requires
        call_ensures(TrackPanel::apply_summary, (panel, summary), r),
    ensures
        panel.title@.len() == 0 ==> r.title@ == summary.title@,
        panel.artist@.len() == 0 ==> r.artist@ == summary.artist@,
        panel.year@.len() == 0 && summary.date@.len() >= 4 && (forall|i: int|
            0 <= i < 4 ==> '0' <= #[trigger] summary.date@[i] <= '9') ==> r.year@
            == summary.date@.take(4),
        panel.title@.len() > 0 ==> r.title@ == panel.title@,
        panel.artist@.len() > 0 ==> r.artist@ == panel.artist@,
        panel.year@.len() > 0 ==> r.year@ == panel.year@,
{
    law_each_empty_field_is_completed(panel@, summary@);
}

/// A lookup that has found a release goes on to the cover or to the summary while its track is
/// loaded, and stops otherwise; without a release it clears the status.
pub proof fn law_going_on_with_a_lookup(
    lookup: TrackLookup,
    current: u64,
    mbid: Option<String>,
    after_search: LookupStep,
    id: String,
    after_cover: LookupStep,
)
    requires
        call_ensures(TrackLookup::on_release, (&lookup, current, mbid), after_search),
        call_ensures(TrackLookup::on_cover, (&lookup, current, id), after_cover),
    ensures
        mbid is None ==> after_search is ClearStatus,
        mbid matches Some(found) ==> {
            &&& current != lookup.expected ==> after_search is Stop
            &&& current == lookup.expected && lookup.had_local_art ==> (
            after_search matches LookupStep::FetchSummary(wanted) && wanted@ == found@)
            &&& current == lookup.expected && !lookup.had_local_art ==> (
            after_search matches LookupStep::FetchCover(wanted) && wanted@ == found@)
        },
        current == lookup.expected ==> (after_cover matches LookupStep::FetchSummary(wanted)
            && wanted@ == id@),
        current != lookup.expected ==> after_cover is Stop,
{
    assert(after_search@ == lookup.release_step(current, text_view(mbid)));
    assert(after_cover@ == lookup.summary_step(current, id@));
}

/// The search for covers starts at the first album, comes to the album at hand while its library is
/// shown, and goes on to the next one after each, storing a cover that came in time.
pub proof fn law_searching_for_covers(
    expected: u64,
    count: usize,
    start: CoverBackfill,
    search: &mut CoverBackfill,
    current: u64,
    turn: Option<usize>,
    bytes: Option<Vec<u8>>,
    r: CoverOutcome,
    skipped: &mut CoverBackfill,
)
    requires
        call_ensures(CoverBackfill::new, (expected, count), start),
        call_ensures(CoverBackfill::turn, (&*search, current), turn),
        call_ensures(CoverBackfill::on_cover, (search, current, bytes), r),
        call_ensures(CoverBackfill::skip, (skipped,), ()),
        old(search).index < old(search).count,
        old(skipped).index < old(skipped).count,
    ensures
        start.index == 0 && start.count == count && start.expected == expected,
        turn == if current == old(search).expected {
            Some(old(search).index)
        } else {
            None
        },
        bytes is None ==> r is Skip,
        bytes matches Some(cover) ==> {
            &&& current == old(search).expected ==> (r matches CoverOutcome::Store(index, stored)
                && index == old(search).index && stored@ == cover@)
            &&& current != old(search).expected ==> r is Stop
        },
        final(search).index == old(search).index + 1,
        final(search).count == old(search).count && final(search).expected == old(
            search,
        ).expected,
        final(skipped).index == old(skipped).index + 1,
        final(skipped).count == old(skipped).count && final(skipped).expected == old(
            skipped,
        ).expected,
{
    assert(r@ == old(search).outcome(current, bytes_view(bytes)));
}

/// Storing a cover gives it to the album at the index, and changes nothing else.
pub proof fn law_storing_a_cover(
    albums: &mut Vec<AlbumEntry>,
    index: usize,
    bytes: Vec<u8>,
    other: int,
)
    requires
        call_ensures(store_cover, (albums, index, bytes), ()),
        0 <= other < old(albums)@.len(),
    ensures
        final(albums)@.len() == old(albums)@.len(),
        other == index ==> final(albums)@[other]@ == (AlbumView {
            cover_override: Some(bytes@),
            ..old(albums)@[other]@
        }),
        other != index ==> final(albums)@[other]@ == old(albums)@[other]@,
{
    let before = albums_view(old(albums)@);
    let after = albums_view(final(albums)@);
    assert(after.len() == final(albums)@.len() && before.len() == old(albums)@.len());
    assert(before[other] == old(albums)@[other]@);
    assert(after[other] == final(albums)@[other]@);
}

/// A cover that comes in time and can be decoded is named as the source of the artwork, and one
/// that cannot changes nothing; where nothing was found the status is cleared. What comes too late
/// changes nothing.
pub proof fn law_applying_a_cover(
    panel: TrackPanel,
    current: u64,
    expected: u64,
    update: &PanelUpdate,
    r: TrackPanel,
)
    requires
        call_ensures(ui_apply_if_current, (panel, current, expected, update), r),
    ensures
        current != expected ==> r@ == panel@,
        current == expected ==> {
            &&& *update matches PanelUpdate::Cover(Some(picture)) ==> r@ == (PanelView {
                status: "Artwork: Cover Art Archive (release match)"@,
                ..panel@
            })
            &&& *update matches PanelUpdate::Cover(None) ==> r@ == panel@
            &&& *update is ClearStatus ==> r.status@.len() == 0 && r@ == (PanelView {
                status: r.status@,
                ..panel@
            })
        },
{
    reveal_strlit("");
}

} // verus!
