//! What the window shows: durations, labels and the lines about the loaded track.
use vstd::arithmetic::div_mod::*;
use vstd::arithmetic::power2::*;
use vstd::prelude::*;

use crate::float_bits::{
    f64_exponent, f64_floor, f64_infinite, f64_is_less, f64_is_nan, f64_less, f64_nan,
    f64_significand, f64_whole, F64_ZERO,
};
use crate::engine::{AudioEngine, EngineState, RING_BUFFER_SIZE};
use crate::metadata::{text_view, MetadataView, TrackMetadata};
use crate::stream_info::AudioInfo;
use crate::text::{
    all_digits, decimal_of, digits_value, law_decimal_reads_back, law_two_digits_read_back,
    push_decimal, push_text, push_two_digits, two_digits_of, unsigned_of,
};

verus! {

/// A length as minutes and seconds, the seconds in two digits. What is no length shows as zero.
pub open spec fn hms_of(seconds_bits: u64) -> Seq<char> {
    if f64_nan(seconds_bits) || f64_infinite(seconds_bits) || f64_less(seconds_bits, F64_ZERO) {
        "0:00"@
    } else {
        let seconds = f64_whole(seconds_bits);
        decimal_of((seconds / 60) as nat) + ":"@ + two_digits_of((seconds % 60) as nat)
    }
}

/// A length as minutes and seconds.
pub fn format_duration_hms(seconds_bits: u64) -> (r: String)
    ensures
        r@ == hms_of(seconds_bits),
{
    if f64_is_nan(seconds_bits) || seconds_bits % 0x8000_0000_0000_0000 == 0x7ff0_0000_0000_0000
        || f64_is_less(seconds_bits, F64_ZERO) {
        return "0:00".to_string();
    }
    let seconds: u64 = f64_floor(seconds_bits);
    let mut text = String::new();
    push_decimal(&mut text, seconds / 60);
    push_text(&mut text, ":");
    push_two_digits(&mut text, seconds % 60);
    assert(text@ =~= hms_of(seconds_bits));
    text
}

/// What the window shows of the loaded track.
#[derive(Debug)]
pub struct TrackDetails {
    pub title: String,
    pub artist: String,
    pub album: String,
    pub album_artist: String,
    pub year: String,
    pub genre: String,
    pub composer: String,
    pub position_label: String,
    pub current_file: String,
    pub file_info: String,
}

/// What the window shows of the loaded track.
pub struct DetailsView {
    pub title: Seq<char>,
    pub artist: Seq<char>,
    pub album: Seq<char>,
    pub album_artist: Seq<char>,
    pub year: Seq<char>,
    pub genre: Seq<char>,
    pub composer: Seq<char>,
    pub position_label: Seq<char>,
    pub current_file: Seq<char>,
    pub file_info: Seq<char>,
}

impl View for TrackDetails {
    type V = DetailsView;

    open spec fn view(&self) -> DetailsView {
        DetailsView {
            title: self.title@,
            artist: self.artist@,
            album: self.album@,
            album_artist: self.album_artist@,
            year: self.year@,
            genre: self.genre@,
            composer: self.composer@,
            position_label: self.position_label@,
            current_file: self.current_file@,
            file_info: self.file_info@,
        }
    }
}

/// A text, or another where there is none.
pub open spec fn text_or(text: Option<Seq<char>>, other: Seq<char>) -> Seq<char> {
    match text {
        Some(s) => s,
        None => other,
    }
}

/// A text, or another where there is none.
fn copy_or(text: &Option<String>, other: &str) -> (r: String)
    ensures
        r@ == text_or(text_view(*text), other@),
{
    match text {
        Some(s) => s.clone(),
        None => other.to_string(),
    }
}

/// Where the track stands on its disc. Without a track number nothing is said.
pub open spec fn position_label_of(number: Option<u32>, total: Option<u32>) -> Seq<char> {
    match (number, total) {
        (Some(n), Some(t)) => "Track "@ + decimal_of(n as nat) + " / "@ + decimal_of(t as nat),
        (Some(n), None) => "Track "@ + decimal_of(n as nat),
        (None, _) => Seq::empty(),
    }
}

/// Where the track stands on its disc.
pub fn position_label(number: Option<u32>, total: Option<u32>) -> (r: String)
    ensures
        r@ == position_label_of(number, total),
{
    let mut label = String::new();
    if let Some(n) = number {
        push_text(&mut label, "Track ");
        push_decimal(&mut label, n as u64);
        if let Some(t) = total {
            push_text(&mut label, " / ");
            push_decimal(&mut label, t as u64);
        }
    }
    assert(label@ =~= position_label_of(number, total));
    label
}

/// The format of a file in words.
pub open spec fn file_info_of(info: AudioInfo) -> Seq<char> {
    decimal_of(info.sample_rate as nat) + " Hz, "@ + decimal_of(info.bit_depth as nat) + " bit, "@
        + decimal_of(info.channels as nat) + " ch"@
}

/// The format of a file in words.
pub fn file_info(info: &AudioInfo) -> (r: String)
    ensures
        r@ == file_info_of(*info),
{
    let mut text = String::new();
    push_decimal(&mut text, info.sample_rate as u64);
    push_text(&mut text, " Hz, ");
    push_decimal(&mut text, info.bit_depth as u64);
    push_text(&mut text, " bit, ");
    push_decimal(&mut text, info.channels as u64);
    push_text(&mut text, " ch");
    assert(text@ =~= file_info_of(*info));
    text
}

/// What the window shows of a track: its metadata, blank where they are silent, with the file
/// name for a title.
pub open spec fn details_of(
    meta: MetadataView,
    file_name: Seq<char>,
    info: AudioInfo,
) -> DetailsView {
    DetailsView {
        title: text_or(meta.title, file_name),
        artist: text_or(meta.artist, ""@),
        album: text_or(meta.album, ""@),
        album_artist: text_or(meta.album_artist, ""@),
        year: text_or(meta.year, ""@),
        genre: text_or(meta.genre, ""@),
        composer: text_or(meta.composer, ""@),
        position_label: position_label_of(meta.track_number, meta.track_total),
        current_file: file_name,
        file_info: file_info_of(info),
    }
}

/// What the window shows of a track.
pub fn track_details(meta: &TrackMetadata, file_name: &str, info: &AudioInfo) -> (r: TrackDetails)
    ensures
        r@ == details_of(meta@, file_name@, *info),
{
    TrackDetails {
        title: copy_or(&meta.title, file_name),
        artist: copy_or(&meta.artist, ""),
        album: copy_or(&meta.album, ""),
        album_artist: copy_or(&meta.album_artist, ""),
        year: copy_or(&meta.year, ""),
        genre: copy_or(&meta.genre, ""),
        composer: copy_or(&meta.composer, ""),
        position_label: position_label(meta.track_number, meta.track_total),
        current_file: file_name.to_string(),
        file_info: file_info(info),
    }
}

/// The line about running playback. `percentage` is how full the queue is, in words.
pub open spec fn playback_info_of(engine: EngineState, percentage: Seq<char>) -> Seq<char> {
    decimal_of(engine.sample_rate as nat) + "Hz "@ + decimal_of(engine.bit_depth as nat)
        + "bit | Buffer: "@ + percentage + "% ("@ + decimal_of(engine.buffer_level as nat) + "/"@
        + decimal_of(RING_BUFFER_SIZE as nat) + ") | Underruns: "@ + decimal_of(
        engine.underrun_count as nat,
    ) + " | "@ + "Shared"@
}

/// The line about running playback.
pub fn playback_info(engine: &AudioEngine, percentage: &str) -> (r: String)
    requires
        engine.wf(),
    ensures
        r@ == playback_info_of(engine@, percentage@),
{
    let (used, capacity) = engine.get_buffer_stats();
    let mut text = String::new();
    push_decimal(&mut text, engine.get_sample_rate() as u64);
    push_text(&mut text, "Hz ");
    push_decimal(&mut text, engine.get_bit_depth() as u64);
    push_text(&mut text, "bit | Buffer: ");
    push_text(&mut text, percentage);
    push_text(&mut text, "% (");
    push_decimal(&mut text, used as u64);
    push_text(&mut text, "/");
    push_decimal(&mut text, capacity as u64);
    push_text(&mut text, ") | Underruns: ");
    push_decimal(&mut text, engine.get_underrun_count());
    push_text(&mut text, " | ");
    push_text(
        &mut text,
        if engine.is_exclusive_mode() {
            "Exclusive"
        } else {
            "Shared"
        },
    );
    assert(text@ =~= playback_info_of(engine@, percentage@));
    text
}

/// A length is shown as minutes and seconds that make up its whole seconds: digits, a colon and two
/// digits below sixty. What is negative, infinite or no number is shown as no length.
pub proof fn law_shown_length_is_the_length(seconds_bits: u64)
    ensures
        ({
            let text = hms_of(seconds_bits);
            let colon = text.len() - 3;
            let minutes = digits_value(text.take(colon));
            let seconds = digits_value(text.skip(colon + 1));
            &&& colon >= 1
            &&& text[colon] == ':'
            &&& all_digits(text.take(colon))
            &&& all_digits(text.skip(colon + 1))
            &&& seconds < 60
            &&& colon > 1 ==> text[0] != '0'
            &&& seconds_bits < 0x7ff0_0000_0000_0000 ==> minutes * 60 + seconds == f64_whole(
                seconds_bits,
            )
            &&& seconds_bits == 0x8000_0000_0000_0000 ==> minutes == 0 && seconds == 0
            &&& 0x7ff0_0000_0000_0000 <= seconds_bits && seconds_bits != 0x8000_0000_0000_0000
                ==> minutes == 0 && seconds == 0
        }),
{
    let whole = f64_whole(seconds_bits);
    let no_length = f64_nan(seconds_bits) || f64_infinite(seconds_bits) || f64_less(
        seconds_bits,
        F64_ZERO,
    );
    lemma_whole_is_no_less_than_zero(seconds_bits);
    let m = if no_length {
        0nat
    } else {
        (whole / 60) as nat
    };
    let s = if no_length {
        0nat
    } else {
        (whole % 60) as nat
    };
    let text = hms_of(seconds_bits);
    reveal_strlit(":");
    reveal_strlit("0:00");
    law_decimal_reads_back(m);
    law_two_digits_read_back(s);
    if no_length {
        assert(decimal_of(0) =~= seq!['0']);
        assert(two_digits_of(0) =~= seq!['0', '0']);
    }
    assert(text =~= decimal_of(m) + seq![':'] + two_digits_of(s));
    let colon = text.len() - 3;
    assert(text.take(colon) =~= decimal_of(m));
    assert(text.skip(colon + 1) =~= two_digits_of(s));
    if colon > 1 {
        assert(m > 0) by {
            if m == 0 {
                assert(decimal_of(0).len() == 1);
            }
        }
        assert(text[0] == decimal_of(m)[0]);
    }
}

proof fn lemma_whole_is_no_less_than_zero(bits: u64)
    ensures
        f64_whole(bits) >= 0,
        bits == 0x8000_0000_0000_0000 ==> f64_whole(bits) == 0,
{
    let exponent = f64_exponent(bits);
    if 1023 <= exponent <= 1075 {
        lemma_pow2_pos((1075 - exponent) as nat);
        lemma_div_pos_is_pos(
            f64_significand(bits),
            pow2((1075 - exponent) as nat) as int,
        );
    } else if exponent > 1075 {
        lemma_pow2_pos((exponent - 1075) as nat);
        assert(f64_significand(bits) * (pow2((exponent - 1075) as nat) as int) >= 0)
            by (nonlinear_arith)
            requires
                f64_significand(bits) >= 0,
                pow2((exponent - 1075) as nat) > 0,
        ;
    }
}

/// Where a track stands on its disc is told by its number, and by the number of tracks where that
/// is known: the digits after the word read back as these numbers. Without a number nothing is
/// told.
pub proof fn law_position_label_tells_the_numbers(number: u32, total: u32)
    ensures
        position_label_of(Some(number), Some(total)) == "Track "@ + decimal_of(number as nat)
            + " / "@ + decimal_of(total as nat),
        position_label_of(Some(number), None) == "Track "@ + decimal_of(number as nat),
        position_label_of(None, Some(total)).len() == 0,
        position_label_of(None, None).len() == 0,
        unsigned_of(position_label_of(Some(number), None).skip(6)) == Some(number),
{
    reveal_strlit("Track ");
    law_decimal_reads_back(number as nat);
    assert(position_label_of(Some(number), None).skip(6) =~= decimal_of(number as nat));
}

/// The window shows of a track what its metadata say, field by field and whatever the other fields
/// are; a field without a value is blank, but the title is then the file name.
pub proof fn law_details_show_each_field(
    meta: &TrackMetadata,
    file_name: &str,
    info: &AudioInfo,
    shown: TrackDetails,
)
    requires
        call_ensures(track_details, (meta, file_name, info), shown),
    ensures
        meta.title matches Some(s) ==> shown.title@ == s@,
        meta.title is None ==> shown.title@ == file_name@,
        meta.artist matches Some(s) ==> shown.artist@ == s@,
        meta.artist is None ==> shown.artist@.len() == 0,
        meta.album matches Some(s) ==> shown.album@ == s@,
        meta.album is None ==> shown.album@.len() == 0,
        meta.album_artist matches Some(s) ==> shown.album_artist@ == s@,
        meta.album_artist is None ==> shown.album_artist@.len() == 0,
        meta.year matches Some(s) ==> shown.year@ == s@,
        meta.year is None ==> shown.year@.len() == 0,
        meta.genre matches Some(s) ==> shown.genre@ == s@,
        meta.genre is None ==> shown.genre@.len() == 0,
        meta.composer matches Some(s) ==> shown.composer@ == s@,
        meta.composer is None ==> shown.composer@.len() == 0,
        shown.current_file@ == file_name@,
        shown.position_label@ == position_label_of(meta.track_number, meta.track_total),
        shown.file_info@ == decimal_of(info.sample_rate as nat) + " Hz, "@ + decimal_of(
            info.bit_depth as nat,
        ) + " bit, "@ + decimal_of(info.channels as nat) + " ch"@,
{
    reveal_strlit("");
}

/// The line about running playback tells the rate, the bits, how full the queue is, and the
/// underruns of the engine itself, each in decimal.
pub proof fn law_playback_line_tells_the_engine(
    engine: &AudioEngine,
    percentage: &str,
    line: String,
)
    requires
        call_ensures(playback_info, (engine, percentage), line),
    ensures
        line@ == decimal_of(engine@.sample_rate as nat) + "Hz "@ + decimal_of(
            engine@.bit_depth as nat,
        ) + "bit | Buffer: "@ + percentage@ + "% ("@ + decimal_of(engine@.buffer_level as nat)
            + "/"@ + decimal_of(2097152) + ") | Underruns: "@ + decimal_of(
            engine@.underrun_count as nat,
        ) + " | "@ + "Shared"@,
{
}

/// The format of a file is told in words by its own rate, bits and channels, each in decimal.
pub proof fn law_format_is_told_in_words(info: AudioInfo)
    ensures
        file_info_of(info) == decimal_of(info.sample_rate as nat) + " Hz, "@ + decimal_of(
            info.bit_depth as nat,
        ) + " bit, "@ + decimal_of(info.channels as nat) + " ch"@,
{
}

/// A length is written out as minutes and seconds that make up its whole seconds.
pub proof fn law_writing_out_a_length(seconds_bits: u64, r: String)
    requires
        call_ensures(format_duration_hms, (seconds_bits,), r),
        seconds_bits < 0x7ff0_0000_0000_0000,
    ensures
        r@.len() >= 4,
        r@[r@.len() - 3] == ':',
        digits_value(r@.take(r@.len() - 3)) * 60 + digits_value(r@.skip(r@.len() - 2)) == f64_whole(
            seconds_bits,
        ),
        digits_value(r@.skip(r@.len() - 2)) < 60,
{
    law_shown_length_is_the_length(seconds_bits);
}

} // verus!
