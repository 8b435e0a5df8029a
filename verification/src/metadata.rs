//! Track metadata: what tags and embedded pictures say of a track, merged so that the first
//! value wins.
use vstd::prelude::*;
use vstd::slice::slice_subrange;

use crate::text::{
    all_digits, are_digits, ascii_digit, copy_bytes, decimal, decimal_of, digits_value, from_chars,
    law_decimal_reads_back, law_signed_decimal_shows_the_sign,
    law_white_space_around_makes_no_difference, lemma_decimal_is_trimmed, lemma_trim_halves,
    lemma_trim_is_part, lowercase, lowercase_of, parse_unsigned, same_chars, signed_decimal,
    signed_decimal_of, stands_at, to_chars, trim_chars, trim_end_of, trim_of, trim_start_of,
    unsigned_of, white_space,
};

verus! {

/// The tags that the player reads.
#[derive(Clone, Copy, Debug, PartialEq, Eq, Structural)]
pub enum TagKey {
    TrackTitle,
    Artist,
    AlbumArtist,
    Album,
    TrackNumber,
    TrackTotal,
    DiscNumber,
    Date,
    Genre,
    Composer,
    /// Any other tag.
    Other,
}

/// The value of a tag.
#[derive(Debug)]
pub enum TagValue {
    Binary,
    Boolean(bool),
    Flag,
    /// A floating-point number, as it is shown.
    Float(String),
    SignedInt(i64),
    Text(String),
    UnsignedInt(u64),
}

/// A tag. One with no standard key says nothing to the player.
#[derive(Debug)]
pub struct Tag {
    pub std_key: Option<TagKey>,
    pub value: TagValue,
}

/// An embedded picture.
#[derive(Debug)]
pub struct Visual {
    pub media_type: String,
    pub is_front_cover: bool,
    pub data: Vec<u8>,
}

/// One revision of a file's metadata.
#[derive(Debug)]
pub struct MetadataRevision {
    pub tags: Vec<Tag>,
    pub visuals: Vec<Visual>,
}

/// What is known of a track.
#[derive(Clone, Debug)]
pub struct TrackMetadata {
    pub title: Option<String>,
    pub artist: Option<String>,
    pub album_artist: Option<String>,
    pub album: Option<String>,
    pub track_number: Option<u32>,
    pub track_total: Option<u32>,
    pub disc_number: Option<u32>,
    pub year: Option<String>,
    pub genre: Option<String>,
    pub composer: Option<String>,
    /// The bytes of an embedded picture, such as a JPEG or PNG file.
    pub artwork: Option<Vec<u8>>,
}

/// The value of a tag.
pub enum TagContent {
    Binary,
    Boolean(bool),
    Flag,
    Float(Seq<char>),
    SignedInt(i64),
    Text(Seq<char>),
    UnsignedInt(u64),
}

/// A tag.
pub struct TagView {
    pub std_key: Option<TagKey>,
    pub value: TagContent,
}

/// An embedded picture.
pub struct VisualView {
    pub media_type: Seq<char>,
    pub is_front_cover: bool,
    pub data: Seq<u8>,
}

/// One revision of a file's metadata.
pub struct RevisionView {
    pub tags: Seq<TagView>,
    pub visuals: Seq<VisualView>,
}

/// What is known of a track.
pub struct MetadataView {
    pub title: Option<Seq<char>>,
    pub artist: Option<Seq<char>>,
    pub album_artist: Option<Seq<char>>,
    pub album: Option<Seq<char>>,
    pub track_number: Option<u32>,
    pub track_total: Option<u32>,
    pub disc_number: Option<u32>,
    pub year: Option<Seq<char>>,
    pub genre: Option<Seq<char>>,
    pub composer: Option<Seq<char>>,
    pub artwork: Option<Seq<u8>>,
}

/// The characters of a text that may be absent.
pub open spec fn text_view(text: Option<String>) -> Option<Seq<char>> {
    match text {
        Some(s) => Some(s@),
        None => None,
    }
}

/// The bytes of a byte string that may be absent.
pub open spec fn bytes_view(bytes: Option<Vec<u8>>) -> Option<Seq<u8>> {
    match bytes {
        Some(b) => Some(b@),
        None => None,
    }
}

impl View for TagValue {
    type V = TagContent;

    open spec fn view(&self) -> TagContent {
        match self {
            TagValue::Binary => TagContent::Binary,
            TagValue::Boolean(b) => TagContent::Boolean(*b),
            TagValue::Flag => TagContent::Flag,
            TagValue::Float(s) => TagContent::Float(s@),
            TagValue::SignedInt(n) => TagContent::SignedInt(*n),
            TagValue::Text(s) => TagContent::Text(s@),
            TagValue::UnsignedInt(n) => TagContent::UnsignedInt(*n),
        }
    }
}

impl View for Tag {
    type V = TagView;

    open spec fn view(&self) -> TagView {
        TagView { std_key: self.std_key, value: self.value@ }
    }
}

impl View for Visual {
    type V = VisualView;

    open spec fn view(&self) -> VisualView {
        VisualView {
            media_type: self.media_type@,
            is_front_cover: self.is_front_cover,
            data: self.data@,
        }
    }
}

impl View for MetadataRevision {
    type V = RevisionView;

    open spec fn view(&self) -> RevisionView {
        RevisionView {
            tags: self.tags@.map_values(|tag: Tag| tag@),
            visuals: self.visuals@.map_values(|visual: Visual| visual@),
        }
    }
}

impl View for TrackMetadata {
    type V = MetadataView;

    open spec fn view(&self) -> MetadataView {
        MetadataView {
            title: text_view(self.title),
            artist: text_view(self.artist),
            album_artist: text_view(self.album_artist),
            album: text_view(self.album),
            track_number: self.track_number,
            track_total: self.track_total,
            disc_number: self.disc_number,
            year: text_view(self.year),
            genre: text_view(self.genre),
            composer: text_view(self.composer),
            artwork: bytes_view(self.artwork),
        }
    }
}

/// Nothing is known.
pub open spec fn no_metadata() -> MetadataView {
    MetadataView {
        title: None,
        artist: None,
        album_artist: None,
        album: None,
        track_number: None,
        track_total: None,
        disc_number: None,
        year: None,
        genre: None,
        composer: None,
        artwork: None,
    }
}

impl Default for TrackMetadata {
    fn default() -> (r: TrackMetadata)
        ensures
            r@ == no_metadata(),
    {
        TrackMetadata {
            title: None,
            artist: None,
            album_artist: None,
            album: None,
            track_number: None,
            track_total: None,
            disc_number: None,
            year: None,
            genre: None,
            composer: None,
            artwork: None,
        }
    }
}

/// A tag's value as text. Binary values and flags have none.
pub open spec fn value_text(value: TagContent) -> Option<Seq<char>> {
    match value {
        TagContent::Text(s) => Some(s),
        TagContent::UnsignedInt(n) => Some(decimal_of(n as nat)),
        TagContent::SignedInt(n) => Some(signed_decimal_of(n as int)),
        TagContent::Float(s) => Some(s),
        TagContent::Boolean(b) => if b {
            Some("true"@)
        } else {
            Some("false"@)
        },
        _ => None,
    }
}

/// A tag's value as text.
pub fn value_to_string(value: &TagValue) -> (r: Option<String>)
    ensures
        text_view(r) == value_text(value@),
{
    match value {
        TagValue::Text(s) => Some(s.clone()),
        TagValue::UnsignedInt(n) => Some(decimal(*n)),
        TagValue::SignedInt(n) => Some(signed_decimal(*n)),
        TagValue::Float(s) => Some(s.clone()),
        TagValue::Boolean(b) => if *b {
            Some("true".to_string())
        } else {
            Some("false".to_string())
        },
        _ => None,
    }
}

/// The position of the first slash.
pub open spec fn first_slash(s: Seq<char>, at: int) -> bool {
    0 <= at < s.len() && s[at] == '/' && forall|i: int| 0 <= i < at ==> s[i] != '/'
}

/// A number and a total out of `s`, such as "3/12" or "3". Each part is read on its own; one
/// that is no number is absent.
pub open spec fn track_pair_of(s: Seq<char>) -> (Option<u32>, Option<u32>) {
    let text = trim_of(s);
    if text.contains('/') {
        let at = choose|at: int| first_slash(text, at);
        (unsigned_of(trim_of(text.take(at))), unsigned_of(trim_of(text.skip(at + 1))))
    } else {
        (unsigned_of(text), None)
    }
}

/// Reads a number and a total.
pub fn parse_track_pair(s: &str) -> (r: (Option<u32>, Option<u32>))
    ensures
        r == track_pair_of(s@),
{
    let chars = to_chars(s);
    let text = trim_chars(chars.as_slice());
    let n: usize = text.len();
    let mut at: usize = 0;
    while at < n && text[at] != '/'
        invariant
            at <= n,
            n == text@.len(),
            forall|i: int| 0 <= i < at ==> text@[i] != '/',
        decreases n - at,
    {
        at = at + 1;
    }
    if at < n {
        proof {
            assert(first_slash(text@, at as int));
            let found = choose|k: int| first_slash(text@, k);
            assert(found == at);
            assert(text@.contains('/'));
        }
        let number = slice_subrange(text, 0, at);
        let total = slice_subrange(text, at + 1, n);
        assert(number@ =~= text@.take(at as int));
        assert(total@ =~= text@.skip(at + 1));
        (parse_unsigned(trim_chars(number)), parse_unsigned(trim_chars(total)))
    } else {
        (parse_unsigned(text), None)
    }
}

/// The number and the total of a track-number tag. An integer is the number alone, cut to its
/// low 32 bits.
pub open spec fn value_track_pair(value: TagContent) -> (Option<u32>, Option<u32>) {
    match value {
        TagContent::Text(s) => track_pair_of(s),
        TagContent::UnsignedInt(n) => (Some(n as u32), None),
        TagContent::SignedInt(n) => if n >= 0 {
            (Some(n as u32), None)
        } else {
            (None, None)
        },
        _ => (None, None),
    }
}

/// Reads the number and the total of a track-number tag.
pub fn tag_track_pair(tag: &Tag) -> (r: (Option<u32>, Option<u32>))
    ensures
        r == value_track_pair(tag@.value),
{
    match &tag.value {
        TagValue::Text(s) => parse_track_pair(s.as_str()),
        TagValue::UnsignedInt(n) => (Some(#[verifier::truncate] (*n as u32)), None),
        TagValue::SignedInt(n) => if *n >= 0 {
            (Some(#[verifier::truncate] (*n as u32)), None)
        } else {
            (None, None)
        },
        _ => (None, None),
    }
}

/// The number of a tag. An integer is cut to its low 32 bits.
pub open spec fn value_number(value: TagContent) -> Option<u32> {
    match value {
        TagContent::UnsignedInt(n) => Some(n as u32),
        TagContent::SignedInt(n) => if n >= 0 {
            Some(n as u32)
        } else {
            None
        },
        TagContent::Text(s) => unsigned_of(trim_of(s)),
        _ => None,
    }
}

/// Reads the number of a tag.
pub fn tag_u32(tag: &Tag) -> (r: Option<u32>)
    ensures
        r == value_number(tag@.value),
{
    match &tag.value {
        TagValue::UnsignedInt(n) => Some(#[verifier::truncate] (*n as u32)),
        TagValue::SignedInt(n) => if *n >= 0 {
            Some(#[verifier::truncate] (*n as u32))
        } else {
            None
        },
        TagValue::Text(s) => {
            let chars = to_chars(s.as_str());
            parse_unsigned(trim_chars(chars.as_slice()))
        },
        _ => None,
    }
}

/// A field after a value was offered: the first value that is not empty stays.
pub open spec fn first_text(field: Option<Seq<char>>, value: Seq<char>) -> Option<Seq<char>> {
    if field is None && value.len() > 0 {
        Some(value)
    } else {
        field
    }
}

/// A field after a value was offered, where there is one.
pub open spec fn first_text_of(
    field: Option<Seq<char>>,
    value: Option<Seq<char>>,
) -> Option<Seq<char>> {
    match value {
        Some(text) => first_text(field, text),
        None => field,
    }
}

/// A number field after a value was offered: the first value stays.
pub open spec fn first_number(field: Option<u32>, value: Option<u32>) -> Option<u32> {
    if field is None {
        value
    } else {
        field
    }
}

/// Sets a field that is not set yet, to a value that is not empty.
pub fn set_if_empty(opt: &mut Option<String>, val: String)
    ensures
        text_view(*final(opt)) == first_text(text_view(*old(opt)), val@),
{
    if opt.is_none() && !val.as_str().is_empty() {
        *opt = Some(val);
    }
}

/// Sets a field that is not set yet, to the text of a tag's value.
pub fn offer_text(opt: &mut Option<String>, value: &TagValue)
    ensures
        text_view(*final(opt)) == first_text_of(text_view(*old(opt)), value_text(value@)),
{
    if let Some(text) = value_to_string(value) {
        set_if_empty(opt, text);
    }
}

/// The year of a date: its first four characters where they are digits, else the whole of it.
pub open spec fn year_of(date: Seq<char>) -> Seq<char> {
    if date.len() >= 4 && all_digits(date.take(4)) {
        date.take(4)
    } else {
        date
    }
}

/// The year of a date.
pub fn year_text(date: &str) -> (r: String)
    ensures
        r@ == year_of(date@),
{
    let chars = to_chars(date);
    if chars.len() >= 4 {
        let year = slice_subrange(chars.as_slice(), 0, 4);
        assert(year@ =~= date@.take(4));
        if are_digits(year) {
            return from_chars(year);
        }
    }
    from_chars(chars.as_slice())
}

impl MetadataView {
    /// What is known after a tag was read. Each tag fills its own field, if that is not filled
    /// yet; the track number also brings the total.
    pub open spec fn with_tag(self, tag: TagView) -> MetadataView {
        let text = value_text(tag.value);
        match tag.std_key {
            Some(TagKey::TrackTitle) => MetadataView {
                title: first_text_of(self.title, text),
                ..self
            },
            Some(TagKey::Artist) => MetadataView {
                artist: first_text_of(self.artist, text),
                ..self
            },
            Some(TagKey::AlbumArtist) => MetadataView {
                album_artist: first_text_of(self.album_artist, text),
                ..self
            },
            Some(TagKey::Album) => MetadataView {
                album: first_text_of(self.album, text),
                ..self
            },
            Some(TagKey::TrackNumber) => MetadataView {
                track_number: first_number(self.track_number, value_track_pair(tag.value).0),
                track_total: first_number(self.track_total, value_track_pair(tag.value).1),
                ..self
            },
            Some(TagKey::TrackTotal) => MetadataView {
                track_total: first_number(self.track_total, value_number(tag.value)),
                ..self
            },
            Some(TagKey::DiscNumber) => MetadataView {
                disc_number: first_number(self.disc_number, value_number(tag.value)),
                ..self
            },
            Some(TagKey::Date) => MetadataView {
                year: match text {
                    Some(date) => first_text(self.year, year_of(date)),
                    None => self.year,
                },
                ..self
            },
            Some(TagKey::Genre) => MetadataView {
                genre: first_text_of(self.genre, text),
                ..self
            },
            Some(TagKey::Composer) => MetadataView {
                composer: first_text_of(self.composer, text),
                ..self
            },
            _ => self,
        }
    }

    /// What is known after tags were read one after the other.
    pub open spec fn with_tags(self, tags: Seq<TagView>) -> MetadataView
        decreases tags.len(),
    {
        if tags.len() == 0 {
            self
        } else {
            self.with_tags(tags.drop_last()).with_tag(tags.last())
        }
    }

    /// What is known after a picture was read: the first image stays, but a front cover takes
    /// its place.
    pub open spec fn with_visual(self, visual: VisualView) -> MetadataView {
        if image_visual(visual) && (self.artwork is None || visual.is_front_cover) {
            MetadataView { artwork: Some(visual.data), ..self }
        } else {
            self
        }
    }

    /// What is known after pictures were read one after the other.
    pub open spec fn with_visuals(self, visuals: Seq<VisualView>) -> MetadataView
        decreases visuals.len(),
    {
        if visuals.len() == 0 {
            self
        } else {
            self.with_visuals(visuals.drop_last()).with_visual(visuals.last())
        }
    }

    /// What is known after a revision was read: its tags, then its pictures.
    pub open spec fn with_revision(self, revision: RevisionView) -> MetadataView {
        self.with_tags(revision.tags).with_visuals(revision.visuals)
    }

    /// What is known after revisions were read one after the other.
    pub open spec fn with_revisions(self, revisions: Seq<RevisionView>) -> MetadataView
        decreases revisions.len(),
    {
        if revisions.len() == 0 {
            self
        } else {
            self.with_revisions(revisions.drop_last()).with_revision(revisions.last())
        }
    }
}

/// Merges a tag.
pub fn merge_tag(meta: &mut TrackMetadata, tag: &Tag)
    ensures
        final(meta)@ == old(meta)@.with_tag(tag@),
{
    let key = match tag.std_key {
        Some(key) => key,
        None => {
            return;
        },
    };
    match key {
        TagKey::TrackTitle => {
            offer_text(&mut meta.title, &tag.value);
        },
        TagKey::Artist => {
            offer_text(&mut meta.artist, &tag.value);
        },
        TagKey::AlbumArtist => {
            offer_text(&mut meta.album_artist, &tag.value);
        },
        TagKey::Album => {
            offer_text(&mut meta.album, &tag.value);
        },
        TagKey::TrackNumber => {
            let (number, total) = tag_track_pair(tag);
            if meta.track_number.is_none() {
                meta.track_number = number;
            }
            if meta.track_total.is_none() {
                meta.track_total = total;
            }
        },
        TagKey::TrackTotal => {
            if meta.track_total.is_none() {
                meta.track_total = tag_u32(tag);
            }
        },
        TagKey::DiscNumber => {
            if meta.disc_number.is_none() {
                meta.disc_number = tag_u32(tag);
            }
        },
        TagKey::Date => {
            if let Some(date) = value_to_string(&tag.value) {
                set_if_empty(&mut meta.year, year_text(date.as_str()));
            }
        },
        TagKey::Genre => {
            offer_text(&mut meta.genre, &tag.value);
        },
        TagKey::Composer => {
            offer_text(&mut meta.composer, &tag.value);
        },
        TagKey::Other => {},
    }
}

/// Whether the bytes start as a JPEG, PNG or WebP file does.
pub open spec fn image_bytes(data: Seq<u8>) -> bool {
    ||| seq![0xffu8, 0xd8, 0xff].is_prefix_of(data)
    ||| seq![0x89u8, 0x50, 0x4e, 0x47, 0x0d, 0x0a, 0x1a, 0x0a].is_prefix_of(data)
    ||| data.len() > 12 && data.subrange(0, 4) == seq![0x52u8, 0x49, 0x46, 0x46] && data.subrange(
        8,
        12,
    ) == seq![0x57u8, 0x45, 0x42, 0x50]
}

/// Whether the bytes start as a JPEG, PNG or WebP file does.
pub fn looks_like_image_bytes(data: &[u8]) -> (r: bool)
    ensures
        r == image_bytes(data@),
{
    let n: usize = data.len();
    let jpeg = n >= 3 && data[0] == 0xff && data[1] == 0xd8 && data[2] == 0xff;
    let png = n >= 8 && data[0] == 0x89 && data[1] == 0x50 && data[2] == 0x4e && data[3] == 0x47
        && data[4] == 0x0d && data[5] == 0x0a && data[6] == 0x1a && data[7] == 0x0a;
    let webp = n > 12 && data[0] == 0x52 && data[1] == 0x49 && data[2] == 0x46 && data[3] == 0x46
        && data[8] == 0x57 && data[9] == 0x45 && data[10] == 0x42 && data[11] == 0x50;
    proof {
        let s = data@;
        let jpeg_mark = seq![0xffu8, 0xd8, 0xff];
        let png_mark = seq![0x89u8, 0x50, 0x4e, 0x47, 0x0d, 0x0a, 0x1a, 0x0a];
        if n >= 3 {
            assert(s.subrange(0, 3) =~= jpeg_mark <==> jpeg) by {
                assert(s.subrange(0, 3)[0] == s[0] && s.subrange(0, 3)[1] == s[1] && s.subrange(
                    0,
                    3,
                )[2] == s[2]);
            }
        }
        assert(jpeg == jpeg_mark.is_prefix_of(s)) by {
            if jpeg_mark.is_prefix_of(s) {
                assert(s[0] == jpeg_mark[0] && s[1] == jpeg_mark[1] && s[2] == jpeg_mark[2]);
            }
        }
        assert(png == png_mark.is_prefix_of(s)) by {
            if png_mark.is_prefix_of(s) {
                assert forall|i: int| 0 <= i < 8 implies s[i] == png_mark[i] by {}
                assert(s[0] == 0x89 && s[1] == 0x50 && s[2] == 0x4e && s[3] == 0x47);
                assert(s[4] == 0x0d && s[5] == 0x0a && s[6] == 0x1a && s[7] == 0x0a);
            }
            if png {
                assert(s.subrange(0, 8) =~= png_mark);
            }
        }
        if n > 12 {
            let riff = seq![0x52u8, 0x49, 0x46, 0x46];
            let mark = seq![0x57u8, 0x45, 0x42, 0x50];
            let a = s.subrange(0, 4);
            let b = s.subrange(8, 12);
            assert(a[0] == s[0] && a[1] == s[1] && a[2] == s[2] && a[3] == s[3]);
            assert(b[0] == s[8] && b[1] == s[9] && b[2] == s[10] && b[3] == s[11]);
            if webp {
                assert(a =~= riff);
                assert(b =~= mark);
            }
        }
    }
    jpeg || png || webp
}

/// Whether a picture of a media type, given in lower case, is an image. One whose type says
/// nothing is judged by its bytes.
pub open spec fn image_media(lower_type: Seq<char>, data: Seq<u8>) -> bool {
    if "image/"@.is_prefix_of(lower_type) {
        true
    } else if lower_type.len() == 0 || lower_type == "application/octet-stream"@ {
        image_bytes(data)
    } else {
        false
    }
}

/// Whether a picture is an image.
pub open spec fn image_visual(visual: VisualView) -> bool {
    image_media(lowercase_of(visual.media_type), visual.data)
}

/// Whether a picture of a media type, given in lower case, is an image.
pub fn media_is_image(lower_type: &str, data: &[u8]) -> (r: bool)
    ensures
        r == image_media(lower_type@, data@),
{
    let chars = to_chars(lower_type);
    let prefix = to_chars("image/");
    let starts = stands_at(prefix.as_slice(), chars.as_slice(), 0);
    proof {
        if starts {
            assert(lower_type@.subrange(0, prefix@.len() as int) == "image/"@);
            assert("image/"@.is_prefix_of(lower_type@));
        } else if "image/"@.is_prefix_of(lower_type@) {
            assert(lower_type@.subrange(0, prefix@.len() as int) =~= "image/"@);
        }
    }
    if starts {
        return true;
    }
    let octets = to_chars("application/octet-stream");
    if chars.len() == 0 || same_chars(chars.as_slice(), octets.as_slice()) {
        return looks_like_image_bytes(data);
    }
    false
}

/// Whether a picture is an image.
pub fn visual_is_image(visual: &Visual) -> (r: bool)
    ensures
        r == image_visual(visual@),
{
    let lower = lowercase(visual.media_type.as_str());
    media_is_image(lower.as_str(), visual.data.as_slice())
}

/// Merges the pictures of a revision.
pub fn merge_visuals(meta: &mut TrackMetadata, visuals: &[Visual])
    ensures
        final(meta)@ == old(meta)@.with_visuals(visuals@.map_values(|visual: Visual| visual@)),
{
    let ghost views = visuals@.map_values(|visual: Visual| visual@);
    let n: usize = visuals.len();
    for i in 0..n
        invariant
            n == visuals@.len(),
            views == visuals@.map_values(|visual: Visual| visual@),
            meta@ == old(meta)@.with_visuals(views.take(i as int)),
    {
        let visual = &visuals[i];
        let is_image = visual_is_image(visual);
        if is_image && (meta.artwork.is_none() || visual.is_front_cover) {
            meta.artwork = Some(copy_bytes(visual.data.as_slice()));
        }
        proof {
            assert(views.take(i + 1).drop_last() =~= views.take(i as int));
            assert(views.take(i + 1).last() == visual@);
        }
    }
    assert(views.take(n as int) =~= views);
}

/// Merges the tags of a revision.
pub fn merge_tags(meta: &mut TrackMetadata, tags: &[Tag])
    ensures
        final(meta)@ == old(meta)@.with_tags(tags@.map_values(|tag: Tag| tag@)),
{
    let ghost views = tags@.map_values(|tag: Tag| tag@);
    let n: usize = tags.len();
    for i in 0..n
        invariant
            n == tags@.len(),
            views == tags@.map_values(|tag: Tag| tag@),
            meta@ == old(meta)@.with_tags(views.take(i as int)),
    {
        merge_tag(meta, &tags[i]);
        proof {
            assert(views.take(i + 1).drop_last() =~= views.take(i as int));
            assert(views.take(i + 1).last() == tags@[i as int]@);
        }
    }
    assert(views.take(n as int) =~= views);
}

/// Merges a revision.
pub fn merge_revision(meta: &mut TrackMetadata, revision: &MetadataRevision)
    ensures
        final(meta)@ == old(meta)@.with_revision(revision@),
{
    merge_tags(meta, revision.tags.as_slice());
    merge_visuals(meta, revision.visuals.as_slice());
}

/// Merges the revisions of a log, oldest first.
pub fn merge_revision_log(meta: &mut TrackMetadata, revisions: &[MetadataRevision])
    ensures
        final(meta)@ == old(meta)@.with_revisions(
            revisions@.map_values(|revision: MetadataRevision| revision@),
        ),
{
    let ghost views = revisions@.map_values(|revision: MetadataRevision| revision@);
    let n: usize = revisions.len();
    for i in 0..n
        invariant
            n == revisions@.len(),
            views == revisions@.map_values(|revision: MetadataRevision| revision@),
            meta@ == old(meta)@.with_revisions(views.take(i as int)),
    {
        merge_revision(meta, &revisions[i]);
        proof {
            assert(views.take(i + 1).drop_last() =~= views.take(i as int));
            assert(views.take(i + 1).last() == revisions@[i as int]@);
        }
    }
    assert(views.take(n as int) =~= views);
}

/// The metadata of a file: what was found while probing it, then what its container holds.
pub open spec fn all_metadata(
    probed: Seq<MetadataRevision>,
    container: Seq<MetadataRevision>,
) -> MetadataView {
    no_metadata().with_revisions(
        probed.map_values(|revision: MetadataRevision| revision@),
    ).with_revisions(container.map_values(|revision: MetadataRevision| revision@))
}

/// The metadata of a file.
pub fn merge_all_metadata(
    probed: &[MetadataRevision],
    container: &[MetadataRevision],
) -> (r: TrackMetadata)
    ensures
        r@ == all_metadata(probed@, container@),
{
    let mut meta = TrackMetadata::default();
    merge_revision_log(&mut meta, probed);
    merge_revision_log(&mut meta, container);
    meta
}

/// Whether every field that `before` has set is the same in `after`, but for the artwork.
pub open spec fn keeps_fields(before: MetadataView, after: MetadataView) -> bool {
    &&& before.title is Some ==> after.title == before.title
    &&& before.artist is Some ==> after.artist == before.artist
    &&& before.album_artist is Some ==> after.album_artist == before.album_artist
    &&& before.album is Some ==> after.album == before.album
    &&& before.track_number is Some ==> after.track_number == before.track_number
    &&& before.track_total is Some ==> after.track_total == before.track_total
    &&& before.disc_number is Some ==> after.disc_number == before.disc_number
    &&& before.year is Some ==> after.year == before.year
    &&& before.genre is Some ==> after.genre == before.genre
    &&& before.composer is Some ==> after.composer == before.composer
    &&& before.artwork is Some ==> after.artwork is Some
}

/// Whether no text field is set to nothing.
pub open spec fn texts_not_empty(meta: MetadataView) -> bool {
    &&& meta.title matches Some(s) ==> s.len() > 0
    &&& meta.artist matches Some(s) ==> s.len() > 0
    &&& meta.album_artist matches Some(s) ==> s.len() > 0
    &&& meta.album matches Some(s) ==> s.len() > 0
    &&& meta.year matches Some(s) ==> s.len() > 0
    &&& meta.genre matches Some(s) ==> s.len() > 0
    &&& meta.composer matches Some(s) ==> s.len() > 0
}

proof fn lemma_tags_keep(meta: MetadataView, tags: Seq<TagView>)
    ensures
        keeps_fields(meta, meta.with_tags(tags)),
        texts_not_empty(meta) ==> texts_not_empty(meta.with_tags(tags)),
        meta.with_tags(tags).artwork == meta.artwork,
    decreases tags.len(),
{
    if tags.len() > 0 {
        lemma_tags_keep(meta, tags.drop_last());
    }
}

proof fn lemma_visuals_keep(meta: MetadataView, visuals: Seq<VisualView>)
    ensures
        keeps_fields(meta, meta.with_visuals(visuals)),
        texts_not_empty(meta) ==> texts_not_empty(meta.with_visuals(visuals)),
        meta.with_visuals(visuals) == (MetadataView {
            artwork: meta.with_visuals(visuals).artwork,
            ..meta
        }),
    decreases visuals.len(),
{
    if visuals.len() > 0 {
        lemma_visuals_keep(meta, visuals.drop_last());
    }
}

/// The first value wins: whatever revisions follow, a field that is set stays as it is, and no
/// text field is ever set to nothing.
pub proof fn law_first_value_stays(meta: MetadataView, revisions: Seq<RevisionView>)
    ensures
        keeps_fields(meta, meta.with_revisions(revisions)),
        texts_not_empty(meta) ==> texts_not_empty(meta.with_revisions(revisions)),
    decreases revisions.len(),
{
    if revisions.len() > 0 {
        law_first_value_stays(meta, revisions.drop_last());
        let before = meta.with_revisions(revisions.drop_last());
        let revision = revisions.last();
        lemma_tags_keep(before, revision.tags);
        lemma_visuals_keep(before.with_tags(revision.tags), revision.visuals);
    }
}

/// Reading the same tag again changes nothing.
pub proof fn law_tag_read_twice(meta: MetadataView, tag: TagView)
    ensures
        meta.with_tag(tag).with_tag(tag) == meta.with_tag(tag),
{
}

/// A tag without a standard key, or with one that the player does not read, changes nothing.
pub proof fn law_other_tags_are_ignored(meta: MetadataView, tag: TagView)
    requires
        tag.std_key is None || tag.std_key == Some(TagKey::Other),
    ensures
        meta.with_tag(tag) == meta,
{
}

/// Whether `visual` is an image of the front cover.
pub open spec fn front_image(visual: VisualView) -> bool {
    image_visual(visual) && visual.is_front_cover
}

/// The last front cover among the pictures is the artwork, whatever was there before.
pub proof fn law_last_front_cover_wins(
    meta: MetadataView,
    visuals: Seq<VisualView>,
    at: int,
)
    requires
        0 <= at < visuals.len(),
        front_image(visuals[at]),
        forall|i: int| at < i < visuals.len() ==> !front_image(#[trigger] visuals[i]),
    ensures
        meta.with_visuals(visuals).artwork == Some(visuals[at].data),
    decreases visuals.len(),
{
    if at < visuals.len() - 1 {
        let rest = visuals.drop_last();
        assert(rest[at] == visuals[at]);
        law_last_front_cover_wins(meta, rest, at);
        assert(!front_image(visuals[visuals.len() - 1]));
    }
}

/// Without a front cover, artwork that is there stays.
pub proof fn law_artwork_stays_without_front_cover(
    meta: MetadataView,
    visuals: Seq<VisualView>,
)
    requires
        meta.artwork is Some,
        forall|i: int| 0 <= i < visuals.len() ==> !front_image(#[trigger] visuals[i]),
    ensures
        meta.with_visuals(visuals).artwork == meta.artwork,
    decreases visuals.len(),
{
    if visuals.len() > 0 {
        assert forall|i: int| 0 <= i < visuals.drop_last().len() implies !front_image(
            #[trigger] visuals.drop_last()[i],
        ) by {
            assert(!front_image(visuals[i]));
        }
        law_artwork_stays_without_front_cover(meta, visuals.drop_last());
        assert(!front_image(visuals[visuals.len() - 1]));
    }
}

/// Without a front cover and with no artwork yet, the first image becomes the artwork; where no
/// picture is an image there is none.
pub proof fn law_first_image_without_front_cover(
    meta: MetadataView,
    visuals: Seq<VisualView>,
    at: int,
)
    requires
        meta.artwork is None,
        0 <= at <= visuals.len(),
        at < visuals.len() ==> image_visual(visuals[at]),
        forall|i: int| 0 <= i < at ==> !image_visual(#[trigger] visuals[i]),
        forall|i: int| 0 <= i < visuals.len() ==> !front_image(#[trigger] visuals[i]),
    ensures
        at < visuals.len() ==> meta.with_visuals(visuals).artwork == Some(visuals[at].data),
        at == visuals.len() ==> meta.with_visuals(visuals).artwork is None,
    decreases visuals.len(),
{
    if visuals.len() > 0 {
        let rest = visuals.drop_last();
        assert forall|i: int| 0 <= i < rest.len() implies !front_image(#[trigger] rest[i]) by {
            assert(!front_image(visuals[i]));
        }
        assert(!front_image(visuals[visuals.len() - 1]));
        if at < visuals.len() - 1 {
            assert(rest[at] == visuals[at]);
            assert forall|i: int| 0 <= i < at implies !image_visual(#[trigger] rest[i]) by {
                assert(!image_visual(visuals[i]));
            }
            law_first_image_without_front_cover(meta, rest, at);
        } else {
            assert forall|i: int| 0 <= i < rest.len() implies !image_visual(#[trigger] rest[i]) by {
                assert(!image_visual(visuals[i]));
            }
            law_first_image_without_front_cover(meta, rest, rest.len() as int);
            if at == visuals.len() {
                assert(!image_visual(visuals[visuals.len() - 1]));
            }
        }
    }
}

/// Each text tag fills its own field, whatever the other fields hold: a field that is not set is
/// set to the very text of the tag, one that is set stays, and no other field changes.
pub proof fn law_text_tag_fills_its_own_field(meta: MetadataView, tag: TagView, s: Seq<char>)
    requires
        tag.value == TagContent::Text(s),
        s.len() > 0,
    ensures
        tag.std_key == Some(TagKey::TrackTitle) ==> {
            &&& meta.title is None ==> meta.with_tag(tag).title == Some(s)
            &&& meta.title is Some ==> meta.with_tag(tag).title == meta.title
            &&& meta.with_tag(tag) == (MetadataView { title: meta.with_tag(tag).title, ..meta })
        },
        tag.std_key == Some(TagKey::Artist) ==> {
            &&& meta.artist is None ==> meta.with_tag(tag).artist == Some(s)
            &&& meta.artist is Some ==> meta.with_tag(tag).artist == meta.artist
            &&& meta.with_tag(tag) == (MetadataView { artist: meta.with_tag(tag).artist, ..meta })
        },
        tag.std_key == Some(TagKey::AlbumArtist) ==> {
            &&& meta.album_artist is None ==> meta.with_tag(tag).album_artist == Some(s)
            &&& meta.album_artist is Some ==> meta.with_tag(tag).album_artist == meta.album_artist
            &&& meta.with_tag(tag) == (MetadataView {
                album_artist: meta.with_tag(tag).album_artist,
                ..meta
            })
        },
        tag.std_key == Some(TagKey::Album) ==> {
            &&& meta.album is None ==> meta.with_tag(tag).album == Some(s)
            &&& meta.album is Some ==> meta.with_tag(tag).album == meta.album
            &&& meta.with_tag(tag) == (MetadataView { album: meta.with_tag(tag).album, ..meta })
        },
        tag.std_key == Some(TagKey::Genre) ==> {
            &&& meta.genre is None ==> meta.with_tag(tag).genre == Some(s)
            &&& meta.genre is Some ==> meta.with_tag(tag).genre == meta.genre
            &&& meta.with_tag(tag) == (MetadataView { genre: meta.with_tag(tag).genre, ..meta })
        },
        tag.std_key == Some(TagKey::Composer) ==> {
            &&& meta.composer is None ==> meta.with_tag(tag).composer == Some(s)
            &&& meta.composer is Some ==> meta.with_tag(tag).composer == meta.composer
            &&& meta.with_tag(tag) == (MetadataView {
                composer: meta.with_tag(tag).composer,
                ..meta
            })
        },
{
}

/// A date fills the year, whatever the other fields hold: with its first four characters where
/// those are digits, else with the whole of it. No other field changes.
pub proof fn law_date_fills_the_year(meta: MetadataView, tag: TagView, date: Seq<char>)
    requires
        tag.std_key == Some(TagKey::Date),
        tag.value == TagContent::Text(date),
        meta.year is None,
        date.len() > 0,
    ensures
        date.len() >= 4 && (forall|i: int| 0 <= i < 4 ==> '0' <= #[trigger] date[i] <= '9')
            ==> meta.with_tag(tag).year == Some(date.take(4)),
        date.len() < 4 || (exists|i: int| 0 <= i < 4 && !('0' <= #[trigger] date[i] <= '9'))
            ==> meta.with_tag(tag).year == Some(date),
        meta.with_tag(tag) == (MetadataView { year: meta.with_tag(tag).year, ..meta }),
{
    if date.len() >= 4 {
        let year = date.take(4);
        assert forall|i: int| 0 <= i < 4 implies year[i] == date[i] by {}
        if forall|i: int| 0 <= i < 4 ==> '0' <= #[trigger] date[i] <= '9' {
            assert forall|i: int| 0 <= i < year.len() implies ascii_digit(
                #[trigger] year[i],
            ) by {
                assert('0' <= date[i] <= '9');
            }
            assert(all_digits(year));
        } else {
            let i = choose|i: int| 0 <= i < 4 && !('0' <= #[trigger] date[i] <= '9');
            assert(!ascii_digit(year[i]));
            assert(!all_digits(year));
        }
    }
}

/// What a tag shows as text: a text and a floating-point number as they stand, a whole number in
/// decimal, a truth value by its word; what has no text leaves every text field as it is.
pub proof fn law_values_are_shown_as_text(meta: MetadataView, tag: TagView)
    requires
        tag.std_key == Some(TagKey::TrackTitle),
        meta.title is None,
    ensures
        tag.value matches TagContent::Float(s) ==> (s.len() > 0 ==> meta.with_tag(tag).title
            == Some(s)),
        tag.value matches TagContent::UnsignedInt(n) ==> (meta.with_tag(tag).title matches Some(s)
            && all_digits(s) && digits_value(s) == n),
        tag.value matches TagContent::SignedInt(n) ==> (n >= 0 ==> (meta.with_tag(
            tag,
        ).title matches Some(s) && all_digits(s) && digits_value(s) == n)),
        tag.value matches TagContent::SignedInt(n) ==> (n < 0 ==> (meta.with_tag(
            tag,
        ).title matches Some(s) && s[0] == '-' && all_digits(s.skip(1))
            && digits_value(s.skip(1)) == -n)),
        tag.value == TagContent::Boolean(true) ==> meta.with_tag(tag).title == Some(
            seq!['t', 'r', 'u', 'e'],
        ),
        tag.value == TagContent::Boolean(false) ==> meta.with_tag(tag).title == Some(
            seq!['f', 'a', 'l', 's', 'e'],
        ),
        tag.value is Binary || tag.value is Flag || tag.value == TagContent::Text(Seq::empty())
            ==> meta.with_tag(tag) == meta,
{
    reveal_strlit("true");
    reveal_strlit("false");
    assert("true"@ =~= seq!['t', 'r', 'u', 'e']);
    assert("false"@ =~= seq!['f', 'a', 'l', 's', 'e']);
    match tag.value {
        TagContent::UnsignedInt(n) => {
            law_decimal_reads_back(n as nat);
        },
        TagContent::SignedInt(n) => {
            law_signed_decimal_shows_the_sign(n as int);
            if n >= 0 {
                law_decimal_reads_back(n as nat);
            } else {
                law_decimal_reads_back((-n) as nat);
            }
        },
        _ => {},
    }
}

/// What one tag shows as text, every other text tag shows too: the field of a key that is not set
/// becomes the same text under each of the six keys.
pub proof fn law_text_tags_read_alike(meta: MetadataView, value: TagContent)
    requires
        meta.title is None,
        meta.artist is None,
        meta.album_artist is None,
        meta.album is None,
        meta.genre is None,
        meta.composer is None,
    ensures
        ({
            let title = meta.with_tag(
                TagView { std_key: Some(TagKey::TrackTitle), value },
            ).title;
            &&& meta.with_tag(TagView { std_key: Some(TagKey::Artist), value }).artist == title
            &&& meta.with_tag(TagView { std_key: Some(TagKey::AlbumArtist), value }).album_artist
                == title
            &&& meta.with_tag(TagView { std_key: Some(TagKey::Album), value }).album == title
            &&& meta.with_tag(TagView { std_key: Some(TagKey::Genre), value }).genre == title
            &&& meta.with_tag(TagView { std_key: Some(TagKey::Composer), value }).composer == title
        }),
{
}

/// A whole number that 32 bits hold fills the field of its key, whatever the other fields hold: the
/// track number, the number of tracks and the disc number. One below zero fills none, and a field
/// that is set stays.
pub proof fn law_number_tag_fills_its_own_field(meta: MetadataView, tag: TagView, n: int)
    requires
        n <= u32::MAX,
        (tag.value matches TagContent::UnsignedInt(value) && value == n) || (
        tag.value matches TagContent::SignedInt(value) && value == n),
    ensures
        tag.std_key == Some(TagKey::TrackNumber) ==> {
            &&& meta.track_number is None ==> meta.with_tag(tag).track_number == if n >= 0 {
                Some(n as u32)
            } else {
                None
            }
            &&& meta.track_number is Some ==> meta.with_tag(tag).track_number == meta.track_number
            &&& meta.with_tag(tag) == (MetadataView {
                track_number: meta.with_tag(tag).track_number,
                ..meta
            })
        },
        tag.std_key == Some(TagKey::TrackTotal) ==> {
            &&& meta.track_total is None ==> meta.with_tag(tag).track_total == if n >= 0 {
                Some(n as u32)
            } else {
                None
            }
            &&& meta.track_total is Some ==> meta.with_tag(tag).track_total == meta.track_total
            &&& meta.with_tag(tag) == (MetadataView {
                track_total: meta.with_tag(tag).track_total,
                ..meta
            })
        },
        tag.std_key == Some(TagKey::DiscNumber) ==> {
            &&& meta.disc_number is None ==> meta.with_tag(tag).disc_number == if n >= 0 {
                Some(n as u32)
            } else {
                None
            }
            &&& meta.disc_number is Some ==> meta.with_tag(tag).disc_number == meta.disc_number
            &&& meta.with_tag(tag) == (MetadataView {
                disc_number: meta.with_tag(tag).disc_number,
                ..meta
            })
        },
{
}

/// Of a number that 32 bits do not hold, the low 32 bits count.
pub proof fn law_large_numbers_keep_their_low_bits(meta: MetadataView, tag: TagView, n: u64)
    requires
        tag.value == TagContent::UnsignedInt(n) || n <= i64::MAX && tag.value
            == TagContent::SignedInt(n as i64),
        meta.track_number is None,
        meta.track_total is None,
        meta.disc_number is None,
    ensures
        tag.std_key == Some(TagKey::TrackNumber) ==> meta.with_tag(tag).track_number == Some(
            (n % 0x1_0000_0000) as u32,
        ),
        tag.std_key == Some(TagKey::TrackTotal) ==> meta.with_tag(tag).track_total == Some(
            (n % 0x1_0000_0000) as u32,
        ),
        tag.std_key == Some(TagKey::DiscNumber) ==> meta.with_tag(tag).disc_number == Some(
            (n % 0x1_0000_0000) as u32,
        ),
{
    assert(n as u32 == (n % 0x1_0000_0000) as u32) by (bit_vector);
    if n <= i64::MAX {
        let signed = n as i64;
        assert(signed as u32 == (n % 0x1_0000_0000) as u32) by (bit_vector)
            requires
                signed >= 0,
                signed as u64 == n,
        ;
    }
}

/// A text that numbers a track is read on both sides of its first slash: the number before it and
/// the total behind it, each without the white space around it. Without a slash there is a number
/// and no total.
pub proof fn law_track_pair_is_read_on_both_sides(a: Seq<char>, b: Seq<char>)
    requires
        !a.contains('/'),
    ensures
        track_pair_of(a + seq!['/'] + b) == (unsigned_of(trim_of(a)), unsigned_of(trim_of(b))),
        track_pair_of(a) == (unsigned_of(trim_of(a)), None::<u32>),
{
    lemma_trim_halves(a, '/', b);
    let start = trim_start_of(a);
    let end = trim_end_of(b);
    let text = start + seq!['/'] + end;
    let cut = a.len() - start.len();
    assert forall|i: int| 0 <= i < start.len() implies text[i] != '/' by {
        assert(text[i] == a[cut + i]);
        assert(a.contains(a[cut + i]));
    }
    assert(text[start.len() as int] == '/');
    assert(text.contains('/'));
    assert(first_slash(text, start.len() as int));
    let at = choose|at: int| first_slash(text, at);
    assert(at == start.len());
    assert(text.take(at) =~= start);
    assert(text.skip(at + 1) =~= end);
    lemma_trim_is_part(a);
    if trim_of(a).contains('/') {
        let i = choose|i: int| 0 <= i < trim_of(a).len() && trim_of(a)[i] == '/';
        assert(a.contains(trim_of(a)[i]));
    }
}

/// A track tag such as "3/12" brings both numbers, each into its own field where that is not set,
/// whatever the other fields hold.
pub proof fn law_track_tag_brings_number_and_total(
    meta: MetadataView,
    tag: TagView,
    n: u32,
    total: u32,
)
    requires
        tag.std_key == Some(TagKey::TrackNumber),
        tag.value == TagContent::Text(
            decimal_of(n as nat) + seq!['/'] + decimal_of(total as nat),
        ),
    ensures
        meta.with_tag(tag) == (MetadataView {
            track_number: if meta.track_number is None {
                Some(n)
            } else {
                meta.track_number
            },
            track_total: if meta.track_total is None {
                Some(total)
            } else {
                meta.track_total
            },
            ..meta
        }),
{
    lemma_decimal_is_trimmed(n as nat);
    lemma_decimal_is_trimmed(total as nat);
    law_decimal_reads_back(n as nat);
    law_decimal_reads_back(total as nat);
    let a = decimal_of(n as nat);
    if a.contains('/') {
        let i = choose|i: int| 0 <= i < a.len() && a[i] == '/';
        assert(ascii_digit(a[i]));
    }
    law_track_pair_is_read_on_both_sides(a, decimal_of(total as nat));
}

/// A number written out fills the field of its key, with or without white space around it.
pub proof fn law_written_number_fills_its_own_field(
    meta: MetadataView,
    tag: TagView,
    before: Seq<char>,
    n: u32,
    after: Seq<char>,
)
    requires
        forall|k: int| 0 <= k < before.len() ==> white_space(#[trigger] before[k]),
        forall|k: int| 0 <= k < after.len() ==> white_space(#[trigger] after[k]),
        tag.value == TagContent::Text(before + decimal_of(n as nat) + after),
        meta.track_number is None,
        meta.track_total is None,
        meta.disc_number is None,
    ensures
        tag.std_key == Some(TagKey::TrackNumber) ==> meta.with_tag(tag) == (MetadataView {
            track_number: Some(n),
            ..meta
        }),
        tag.std_key == Some(TagKey::TrackTotal) ==> meta.with_tag(tag) == (MetadataView {
            track_total: Some(n),
            ..meta
        }),
        tag.std_key == Some(TagKey::DiscNumber) ==> meta.with_tag(tag) == (MetadataView {
            disc_number: Some(n),
            ..meta
        }),
{
    let digits = decimal_of(n as nat);
    let whole = before + digits + after;
    law_white_space_around_makes_no_difference(before, digits, after);
    lemma_decimal_is_trimmed(n as nat);
    law_decimal_reads_back(n as nat);
    if whole.contains('/') {
        let i = choose|i: int| 0 <= i < whole.len() && whole[i] == '/';
        if i < before.len() {
            assert(white_space(before[i]));
        } else if i < before.len() + digits.len() {
            assert(ascii_digit(digits[i - before.len()]));
        } else {
            assert(white_space(after[i - before.len() - digits.len()]));
        }
    }
    law_track_pair_is_read_on_both_sides(whole, Seq::empty());
}

/// The first of two values that is there.
pub open spec fn first_of<T>(one: Option<T>, other: Option<T>) -> Option<T> {
    if one is Some {
        one
    } else {
        other
    }
}

/// Whether each field of `all` but the artwork is that of `one`, or else that of `other`.
pub open spec fn fields_first_of(
    all: MetadataView,
    one: MetadataView,
    other: MetadataView,
) -> bool {
    &&& all.title == first_of(one.title, other.title)
    &&& all.artist == first_of(one.artist, other.artist)
    &&& all.album_artist == first_of(one.album_artist, other.album_artist)
    &&& all.album == first_of(one.album, other.album)
    &&& all.track_number == first_of(one.track_number, other.track_number)
    &&& all.track_total == first_of(one.track_total, other.track_total)
    &&& all.disc_number == first_of(one.disc_number, other.disc_number)
    &&& all.year == first_of(one.year, other.year)
    &&& all.genre == first_of(one.genre, other.genre)
    &&& all.composer == first_of(one.composer, other.composer)
}

proof fn lemma_tags_fill_fields(meta: MetadataView, tags: Seq<TagView>)
    ensures
        fields_first_of(meta.with_tags(tags), meta, no_metadata().with_tags(tags)),
    decreases tags.len(),
{
    if tags.len() > 0 {
        lemma_tags_fill_fields(meta, tags.drop_last());
    }
}

proof fn lemma_revisions_fill_fields(meta: MetadataView, revisions: Seq<RevisionView>)
    ensures
        fields_first_of(
            meta.with_revisions(revisions),
            meta,
            no_metadata().with_revisions(revisions),
        ),
    decreases revisions.len(),
{
    if revisions.len() > 0 {
        let rest = revisions.drop_last();
        let revision = revisions.last();
        lemma_revisions_fill_fields(meta, rest);
        let before = meta.with_revisions(rest);
        let alone = no_metadata().with_revisions(rest);
        lemma_tags_fill_fields(before, revision.tags);
        lemma_tags_fill_fields(alone, revision.tags);
        lemma_visuals_keep(before.with_tags(revision.tags), revision.visuals);
        lemma_visuals_keep(alone.with_tags(revision.tags), revision.visuals);
    }
}

/// Each field of a file's metadata is what was found while probing it, or else what its container
/// holds, field by field and whatever the others are.
pub proof fn law_probed_values_come_first(
    probed: Seq<MetadataRevision>,
    container: Seq<MetadataRevision>,
)
    ensures
        fields_first_of(
            all_metadata(probed, container),
            all_metadata(probed, Seq::empty()),
            all_metadata(Seq::empty(), container),
        ),
{
    let nothing = Seq::<MetadataRevision>::empty().map_values(
        |revision: MetadataRevision| revision@,
    );
    assert(nothing =~= Seq::<RevisionView>::empty());
    let first = probed.map_values(|revision: MetadataRevision| revision@);
    let second = container.map_values(|revision: MetadataRevision| revision@);
    assert(no_metadata().with_revisions(nothing) == no_metadata());
    lemma_revisions_fill_fields(no_metadata().with_revisions(first), second);
    assert(all_metadata(probed, Seq::empty()) == no_metadata().with_revisions(first));
    assert(all_metadata(Seq::empty(), container) == no_metadata().with_revisions(second));
}

/// The text field of a key.
pub open spec fn text_under(meta: MetadataView, key: TagKey) -> Option<Seq<char>> {
    match key {
        TagKey::TrackTitle => meta.title,
        TagKey::Artist => meta.artist,
        TagKey::AlbumArtist => meta.album_artist,
        TagKey::Album => meta.album,
        TagKey::Genre => meta.genre,
        TagKey::Composer => meta.composer,
        _ => None,
    }
}

/// Of the tags of a kind the first one counts, wherever it stands: the field that it fills has its
/// text once all tags are read.
pub proof fn law_first_tag_of_a_kind_wins(
    meta: MetadataView,
    tags: Seq<TagView>,
    at: int,
    key: TagKey,
    s: Seq<char>,
)
    requires
        key == TagKey::TrackTitle || key == TagKey::Artist || key == TagKey::AlbumArtist || key
            == TagKey::Album || key == TagKey::Genre || key == TagKey::Composer,
        text_under(meta, key) is None,
        0 <= at < tags.len(),
        tags[at] == (TagView { std_key: Some(key), value: TagContent::Text(s) }),
        s.len() > 0,
        forall|i: int| 0 <= i < at ==> (#[trigger] tags[i]).std_key != Some(key),
    ensures
        text_under(meta.with_tags(tags), key) == Some(s),
    decreases tags.len(),
{
    let rest = tags.drop_last();
    if at < rest.len() {
        assert(rest[at] == tags[at]);
        law_first_tag_of_a_kind_wins(meta, rest, at, key, s);
    } else {
        lemma_field_stays_open(meta, rest, key);
    }
}

proof fn lemma_field_stays_open(meta: MetadataView, tags: Seq<TagView>, key: TagKey)
    requires
        text_under(meta, key) is None,
        forall|i: int| 0 <= i < tags.len() ==> (#[trigger] tags[i]).std_key != Some(key),
    ensures
        text_under(meta.with_tags(tags), key) is None,
    decreases tags.len(),
{
    if tags.len() > 0 {
        assert(tags[tags.len() - 1].std_key != Some(key));
        let rest = tags.drop_last();
        assert forall|i: int| 0 <= i < rest.len() implies (#[trigger] rest[i]).std_key != Some(
            key,
        ) by {
            assert(tags[i].std_key != Some(key));
        }
        lemma_field_stays_open(meta, rest, key);
    }
}

/// Every tag, every picture and every revision is read, one after the other: one more at the end is
/// read after all the others.
pub proof fn law_everything_is_read_in_turn(
    meta: MetadataView,
    tags: Seq<TagView>,
    tag: TagView,
    visuals: Seq<VisualView>,
    visual: VisualView,
    revisions: Seq<RevisionView>,
    revision: RevisionView,
)
    ensures
        meta.with_tags(tags.push(tag)) == meta.with_tags(tags).with_tag(tag),
        meta.with_visuals(visuals.push(visual)) == meta.with_visuals(visuals).with_visual(visual),
        meta.with_revisions(revisions.push(revision)) == meta.with_revisions(
            revisions,
        ).with_revision(revision),
        meta.with_tags(Seq::empty()) == meta,
        meta.with_visuals(Seq::empty()) == meta,
        meta.with_revisions(Seq::empty()) == meta,
{
    assert(tags.push(tag).drop_last() =~= tags);
    assert(visuals.push(visual).drop_last() =~= visuals);
    assert(revisions.push(revision).drop_last() =~= revisions);
}

/// A picture becomes the artwork, byte for byte, where it is an image and either is a front cover
/// or finds none yet; otherwise the artwork stays. Nothing else changes.
pub proof fn law_picture_becomes_the_artwork(
    meta: MetadataView,
    visual: VisualView,
    kind: Seq<char>,
)
    ensures
        image_visual(visual) && meta.artwork is None ==> meta.with_visual(visual).artwork == Some(
            visual.data,
        ),
        image_visual(visual) && visual.is_front_cover ==> meta.with_visual(visual).artwork == Some(
            visual.data,
        ),
        !image_visual(visual) || meta.artwork is Some && !visual.is_front_cover ==> meta.with_visual(
            visual,
        ) == meta,
        meta.with_visual(visual) == (MetadataView {
            artwork: meta.with_visual(visual).artwork,
            ..meta
        }),
        lowercase_of(visual.media_type) == seq!['i', 'm', 'a', 'g', 'e', '/'] + kind
            ==> image_visual(visual),
        lowercase_of(visual.media_type).len() == 0 ==> image_visual(visual) == image_bytes(
            visual.data,
        ),
{
    let lower = lowercase_of(visual.media_type);
    law_media_type_is_believed(kind, lower, visual.data);
    if lower.len() == 0 {
        assert(lower =~= Seq::<char>::empty());
    }
}

/// Reading some revisions after others is reading them all in one.
pub proof fn law_reading_goes_on_where_it_stopped(
    meta: MetadataView,
    revisions: Seq<RevisionView>,
    more: Seq<RevisionView>,
)
    ensures
        meta.with_revisions(revisions + more) == meta.with_revisions(revisions).with_revisions(
            more,
        ),
    decreases more.len(),
{
    if more.len() == 0 {
        assert(revisions + more =~= revisions);
    } else {
        assert((revisions + more).drop_last() =~= revisions + more.drop_last());
        law_reading_goes_on_where_it_stopped(meta, revisions, more.drop_last());
    }
}

/// A revision gives its tags to the text and number fields and its pictures to the artwork: what
/// either finds does not depend on the other.
pub proof fn law_pictures_leave_the_fields_alone(meta: MetadataView, revision: RevisionView)
    ensures
        meta.with_revision(revision) == (MetadataView {
            artwork: meta.with_visuals(revision.visuals).artwork,
            ..meta.with_tags(revision.tags)
        }),
{
    lemma_tags_keep(meta, revision.tags);
    lemma_visuals_keep(meta.with_tags(revision.tags), revision.visuals);
    lemma_artwork_is_of_the_pictures(meta.with_tags(revision.tags), meta, revision.visuals);
}

proof fn lemma_artwork_is_of_the_pictures(
    one: MetadataView,
    other: MetadataView,
    visuals: Seq<VisualView>,
)
    requires
        one.artwork == other.artwork,
    ensures
        one.with_visuals(visuals).artwork == other.with_visuals(visuals).artwork,
    decreases visuals.len(),
{
    if visuals.len() > 0 {
        lemma_artwork_is_of_the_pictures(one, other, visuals.drop_last());
    }
}

/// What starts as a JPEG file, a PNG file or a WebP file does is taken for an image, whatever
/// follows.
pub proof fn law_image_files_are_known(rest: Seq<u8>, size: Seq<u8>)
    requires
        size.len() == 4,
    ensures
        image_bytes(seq![0xffu8, 0xd8, 0xff] + rest),
        image_bytes(seq![0x89u8, 0x50, 0x4e, 0x47, 0x0d, 0x0a, 0x1a, 0x0a] + rest),
        image_bytes(
            seq![0x52u8, 0x49, 0x46, 0x46] + size + seq![0x57u8, 0x45, 0x42, 0x50] + rest,
        ) <==> rest.len() > 0,
{
    let jpeg = seq![0xffu8, 0xd8, 0xff];
    let png = seq![0x89u8, 0x50, 0x4e, 0x47, 0x0d, 0x0a, 0x1a, 0x0a];
    let riff = seq![0x52u8, 0x49, 0x46, 0x46];
    let mark = seq![0x57u8, 0x45, 0x42, 0x50];
    assert((jpeg + rest).subrange(0, 3) =~= jpeg);
    assert((png + rest).subrange(0, 8) =~= png);
    let webp = riff + size + mark + rest;
    assert(webp.subrange(0, 4) =~= riff);
    assert(webp.subrange(8, 12) =~= mark);
    assert(webp[0] == 0x52);
    if jpeg.is_prefix_of(webp) {
        assert(webp[0] == jpeg[0]);
    }
    if png.is_prefix_of(webp) {
        assert(webp[0] == png[0]);
    }
}

/// What is taken for an image starts as one of the three kinds does: with the first byte of a JPEG
/// or PNG file or of a container, and then with all the bytes that mark it.
pub proof fn law_other_bytes_are_no_image(data: Seq<u8>)
    ensures
        image_bytes(data) ==> {
            ||| data.len() >= 3 && data[0] == 0xff && data[1] == 0xd8 && data[2] == 0xff
            ||| data.len() >= 8 && data[0] == 0x89 && data[1] == 0x50 && data[2] == 0x4e && data[3]
                == 0x47 && data[4] == 0x0d && data[5] == 0x0a && data[6] == 0x1a && data[7] == 0x0a
            ||| data.len() > 12 && data[0] == 0x52 && data[1] == 0x49 && data[2] == 0x46 && data[3]
                == 0x46 && data[8] == 0x57 && data[9] == 0x45 && data[10] == 0x42 && data[11] == 0x50
        },
{
    let jpeg = seq![0xffu8, 0xd8, 0xff];
    let png = seq![0x89u8, 0x50, 0x4e, 0x47, 0x0d, 0x0a, 0x1a, 0x0a];
    if jpeg.is_prefix_of(data) {
        assert(data[0] == jpeg[0] && data[1] == jpeg[1] && data[2] == jpeg[2]);
    } else if png.is_prefix_of(data) {
        assert forall|i: int| 0 <= i < 8 implies data[i] == png[i] by {}
        assert(data[0] == 0x89 && data[1] == 0x50 && data[2] == 0x4e && data[3] == 0x47);
        assert(data[4] == 0x0d && data[5] == 0x0a && data[6] == 0x1a && data[7] == 0x0a);
    } else if image_bytes(data) {
        let riff = data.subrange(0, 4);
        let mark = data.subrange(8, 12);
        assert(riff[0] == data[0] && riff[1] == data[1] && riff[2] == data[2] && riff[3]
            == data[3]);
        assert(mark[0] == data[8] && mark[1] == data[9] && mark[2] == data[10] && mark[3]
            == data[11]);
    }
}

/// A media type that says "image" is believed, whatever the bytes; one that says nothing leaves it
/// to the bytes; any other is believed too, and is no image.
pub proof fn law_media_type_is_believed(kind: Seq<char>, media: Seq<char>, data: Seq<u8>)
    ensures
        image_media(seq!['i', 'm', 'a', 'g', 'e', '/'] + kind, data),
        image_media(Seq::empty(), data) == image_bytes(data),
        image_media("application/octet-stream"@, data) == image_bytes(data),
        image_media(media, data) && media.len() > 0 && media != "application/octet-stream"@ ==> {
            &&& media.len() >= 6
            &&& media[0] == 'i' && media[1] == 'm' && media[2] == 'a' && media[3] == 'g' && media[4]
                == 'e' && media[5] == '/'
        },
{
    reveal_strlit("image/");
    reveal_strlit("application/octet-stream");
    let mark = "image/"@;
    let image = seq!['i', 'm', 'a', 'g', 'e', '/'] + kind;
    assert(mark =~= seq!['i', 'm', 'a', 'g', 'e', '/']);
    assert(image.subrange(0, 6) =~= mark);
    assert("application/octet-stream"@[0] == 'a');
    if mark.is_prefix_of("application/octet-stream"@) {
        assert("application/octet-stream"@[0] == mark[0]);
    }
    if mark.is_prefix_of(Seq::<char>::empty()) {
        assert(false);
    }
    if mark.is_prefix_of(media) {
        assert forall|i: int| 0 <= i < 6 implies media[i] == mark[i] by {}
        assert(media[0] == mark[0] && media[1] == mark[1] && media[2] == mark[2]);
        assert(media[3] == mark[3] && media[4] == mark[4] && media[5] == mark[5]);
    }
}

/// Merging a tag sets the field of its own key, whatever the other fields hold, to the very text of
/// the tag where the field is not set yet and the text is not blank; every other field, and a field
/// that is set, stays as it is.
pub proof fn law_merged_tag_fills_its_own_field(meta: &mut TrackMetadata, tag: &Tag, s: String)
    requires
        call_ensures(merge_tag, (meta, tag), ()),
        tag.value == TagValue::Text(s),
        s@.len() > 0,
    ensures
        ({
            let before = old(meta)@;
            let after = final(meta)@;
            &&& after.title == if tag.std_key == Some(TagKey::TrackTitle) && before.title is None {
                Some(s@)
            } else {
                before.title
            }
            &&& after.artist == if tag.std_key == Some(TagKey::Artist) && before.artist is None {
                Some(s@)
            } else {
                before.artist
            }
            &&& after.album_artist == if tag.std_key == Some(TagKey::AlbumArtist)
                && before.album_artist is None {
                Some(s@)
            } else {
                before.album_artist
            }
            &&& after.album == if tag.std_key == Some(TagKey::Album) && before.album is None {
                Some(s@)
            } else {
                before.album
            }
            &&& after.genre == if tag.std_key == Some(TagKey::Genre) && before.genre is None {
                Some(s@)
            } else {
                before.genre
            }
            &&& after.composer == if tag.std_key == Some(TagKey::Composer) && before.composer
                is None {
                Some(s@)
            } else {
                before.composer
            }
            &&& tag.std_key != Some(TagKey::Date) ==> after.year == before.year
            &&& after.artwork == before.artwork
        }),
{
    law_text_tag_fills_its_own_field(old(meta)@, tag@, s@);
}

/// A file's metadata are what its revisions say, those found while probing before those of its
/// container.
pub proof fn law_merged_metadata_put_probed_first(
    probed: &[MetadataRevision],
    container: &[MetadataRevision],
    probed_alone: TrackMetadata,
    container_alone: TrackMetadata,
    nothing: &[MetadataRevision],
    r: TrackMetadata,
)
    requires
        nothing@.len() == 0,
        call_ensures(merge_all_metadata, (probed, container), r),
        call_ensures(merge_all_metadata, (probed, nothing), probed_alone),
        call_ensures(merge_all_metadata, (nothing, container), container_alone),
    ensures
        fields_first_of(r@, probed_alone@, container_alone@),
{
    assert(nothing@ =~= Seq::<MetadataRevision>::empty());
    law_probed_values_come_first(probed@, container@);
}

/// A number that is written out is read without the white space around it, from its first to its
/// last digit; what is no number, and a value of another kind, leaves the field open.
pub proof fn law_written_numbers_are_read_whole(meta: MetadataView, tag: TagView, s: Seq<char>)
    requires
        meta.track_number is None,
        meta.track_total is None,
        meta.disc_number is None,
    ensures
        tag.value == TagContent::Text(s) ==> {
            &&& tag.std_key == Some(TagKey::TrackTotal) ==> meta.with_tag(tag).track_total
                == unsigned_of(trim_of(s))
            &&& tag.std_key == Some(TagKey::DiscNumber) ==> meta.with_tag(tag).disc_number
                == unsigned_of(trim_of(s))
            &&& tag.std_key == Some(TagKey::TrackNumber) && !s.contains('/') ==> meta.with_tag(
                tag,
            ).track_number == unsigned_of(trim_of(s))
        },
        tag.value is Binary || tag.value is Flag || tag.value is Boolean || tag.value is Float ==> {
            &&& meta.with_tag(tag).track_number is None
            &&& meta.with_tag(tag).track_total is None
            &&& meta.with_tag(tag).disc_number is None
        },
{
    if !s.contains('/') {
        law_track_pair_is_read_on_both_sides(s, Seq::empty());
    }
}

/// A date of another kind than text is read as the text that it is shown by, and one that is shown
/// by none changes nothing.
pub proof fn law_date_is_read_as_it_is_shown(meta: MetadataView, value: TagContent, s: Seq<char>)
    requires
        meta.title is None,
    ensures
        ({
            let title = meta.with_tag(
                TagView { std_key: Some(TagKey::TrackTitle), value },
            ).title;
            let dated = meta.with_tag(TagView { std_key: Some(TagKey::Date), value });
            &&& title == Some(s) ==> dated == meta.with_tag(
                TagView { std_key: Some(TagKey::Date), value: TagContent::Text(s) },
            )
            &&& title is None ==> dated == meta
        }),
{
    if let Some(text) = value_text(value) {
        if text.len() == 0 {
            assert(year_of(text) == text);
        }
    }
}

} // verus!
