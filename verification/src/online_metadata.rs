//! Looking up releases and covers: the requests to MusicBrainz and the Cover Art Archive, what
//! their replies mean, and how often they may be asked.
use vstd::prelude::*;
use vstd::utf8::encode_utf8;

use crate::json::{
    first_item, first_item_of, json_parsed, law_absent_member_is_not_found,
    law_first_item_is_at_the_start, law_member_is_that_of_the_name, member, member_of, member_text,
    member_text_of, parse_json, Json, JsonTree,
};
use crate::metadata::text_view;
use crate::text::{
    lemma_blank_text, lemma_trim_is_trimmed, push_text, to_chars, trim_of, trimmed, white_space,
};

verus! {

/// The shortest time between two requests to MusicBrainz, in nanoseconds.
pub const REQUEST_INTERVAL_NANOS: u128 = 1_100_000_000;

/// The fewest bytes that a cover has.
pub const MIN_COVER_BYTES: usize = 100;

/// How the player introduces itself.
pub const USER_AGENT: &'static str = "AudiophilePlayer/0.1 (local-audio-player)";

/// How long to wait before a request when the last one was `elapsed` nanoseconds ago.
pub open spec fn delay_of(elapsed: Option<u128>) -> int {
    match elapsed {
        Some(nanos) => if nanos < REQUEST_INTERVAL_NANOS {
            REQUEST_INTERVAL_NANOS - nanos
        } else {
            0
        },
        None => 0,
    }
}

/// How long to wait before a request.
pub fn throttle_delay(elapsed: Option<u128>) -> (r: u128)
    ensures
        r == delay_of(elapsed),
{
    match elapsed {
        Some(nanos) => if nanos < REQUEST_INTERVAL_NANOS {
            REQUEST_INTERVAL_NANOS - nanos
        } else {
            0
        },
        None => 0,
    }
}

/// Two requests are never less than 1.1 seconds apart, and a request is never held back longer
/// than that needs.
pub proof fn law_requests_are_spaced(elapsed: u128)
    ensures
        elapsed + delay_of(Some(elapsed)) >= REQUEST_INTERVAL_NANOS,
        delay_of(Some(elapsed)) > 0 ==> elapsed + delay_of(Some(elapsed))
            == REQUEST_INTERVAL_NANOS,
{
}

/// A character of a quoted search term.
pub open spec fn escaped_char(c: char) -> Seq<char> {
    if c == '\\' || c == '"' {
        seq!['\\', c]
    } else {
        seq![c]
    }
}

/// A text as it stands inside the quotes of a search term: backslashes and quotes have a
/// backslash before them.
pub open spec fn escaped(s: Seq<char>) -> Seq<char>
    decreases s.len(),
{
    if s.len() == 0 {
        Seq::empty()
    } else {
        escaped(s.drop_last()) + escaped_char(s.last())
    }
}

/// A text as it stands inside the quotes of a search term.
pub fn escape_lucene(s: &str) -> (r: String)
    ensures
        r@ == escaped(s@),
{
    let chars = to_chars(s);
    let n: usize = chars.len();
    let mut out = String::new();
    for i in 0..n
        invariant
            n == chars@.len(),
            out@ == escaped(chars@.take(i as int)),
    {
        let ghost before = out@;
        let c: char = chars[i];
        if c == '\\' || c == '"' {
            out.push('\\');
        }
        out.push(c);
        proof {
            let now = chars@.take(i + 1);
            assert(now.drop_last() =~= chars@.take(i as int));
            assert(now.last() == c);
            assert(out@ =~= before + escaped_char(c));
        }
    }
    assert(chars@.take(n as int) =~= chars@);
    out
}

/// The text that an escaped text stands for: a backslash is dropped and the character after it
/// kept.
pub open spec fn unescaped(s: Seq<char>) -> Seq<char>
    decreases s.len(),
{
    if s.len() == 0 {
        Seq::empty()
    } else if s[0] == '\\' && s.len() > 1 {
        seq![s[1]] + unescaped(s.skip(2))
    } else {
        seq![s[0]] + unescaped(s.skip(1))
    }
}

proof fn lemma_escaped_front(c: char, rest: Seq<char>)
    ensures
        escaped(seq![c] + rest) == escaped_char(c) + escaped(rest),
    decreases rest.len(),
{
    let whole = seq![c] + rest;
    if rest.len() == 0 {
        assert(whole.drop_last() =~= rest);
        assert(whole.last() == c);
        assert(escaped(whole) == escaped(rest) + escaped_char(c));
        assert(escaped(rest) =~= Seq::<char>::empty());
        assert(escaped(whole) =~= escaped_char(c) + escaped(rest));
    } else {
        lemma_escaped_front(c, rest.drop_last());
        assert(whole.drop_last() =~= seq![c] + rest.drop_last());
        assert(whole.last() == rest.last());
        assert(escaped(whole) =~= escaped_char(c) + escaped(rest));
    }
}

/// Escaping loses nothing: the escaped text stands for the text itself.
pub proof fn law_escaped_text_stands_for_itself(s: Seq<char>)
    ensures
        unescaped(escaped(s)) == s,
    decreases s.len(),
{
    if s.len() > 0 {
        let c = s[0];
        let rest = s.skip(1);
        assert(s =~= seq![c] + rest);
        lemma_escaped_front(c, rest);
        law_escaped_text_stands_for_itself(rest);
        let e = escaped(s);
        if c == '\\' || c == '"' {
            assert(e[0] == '\\' && e[1] == c);
            assert(e.skip(2) =~= escaped(rest));
        } else {
            assert(e[0] == c);
            assert(e.skip(1) =~= escaped(rest));
        }
        assert(unescaped(e) =~= s);
    }
}

/// The bytes that stand for themselves in a URL: letters, digits, `-`, `.`, `_` and `~`.
pub open spec fn unreserved(b: u8) -> bool {
    ||| 0x30 <= b <= 0x39
    ||| 0x41 <= b <= 0x5a
    ||| 0x61 <= b <= 0x7a
    ||| b == 0x2d
    ||| b == 0x2e
    ||| b == 0x5f
    ||| b == 0x7e
}

/// A hexadecimal digit, letters in upper case.
pub open spec fn hex_digit(n: u8) -> char {
    if n < 10 {
        (0x30 + n) as char
    } else {
        (0x37 + n) as char
    }
}

/// A byte in a URL.
pub open spec fn percent_byte(b: u8) -> Seq<char> {
    if unreserved(b) {
        seq![b as char]
    } else {
        seq!['%', hex_digit(b / 16), hex_digit(b % 16)]
    }
}

/// Bytes in a URL.
pub open spec fn percent_encoded(bytes: Seq<u8>) -> Seq<char>
    decreases bytes.len(),
{
    if bytes.len() == 0 {
        Seq::empty()
    } else {
        percent_encoded(bytes.drop_last()) + percent_byte(bytes.last())
    }
}

/// Calls `urlencoding::encode`, which percent-encodes every byte of the text's UTF-8 form but
/// letters, digits and `-`, `.`, `_`, `~`.
#[verifier::external_body]
fn url_encode(s: &str) -> (r: String)
    ensures
        r@ == percent_encoded(encode_utf8(s@)),
{
    urlencoding::encode(s).into_owned()
}

/// Whether a character stands for itself, or starts an encoded byte.
pub open spec fn url_char(c: char) -> bool {
    c == '%' || (c as u32) < 128 && unreserved(c as u8)
}

/// An encoded text has nothing in it that ends a query parameter: only letters, digits, the four
/// marks and percent signs.
pub proof fn law_encoded_text_is_plain(bytes: Seq<u8>)
    ensures
        forall|i: int|
            0 <= i < percent_encoded(bytes).len() ==> url_char(
                #[trigger] percent_encoded(bytes)[i],
            ),
    decreases bytes.len(),
{
    if bytes.len() > 0 {
        law_encoded_text_is_plain(bytes.drop_last());
        let before = percent_encoded(bytes.drop_last());
        let b = bytes.last();
        let tail = percent_byte(b);
        assert forall|i: int| 0 <= i < tail.len() implies url_char(#[trigger] tail[i]) by {
            if unreserved(b) {
                assert(tail[i] == b as char);
                assert((b as char) as u32 == b as u32);
                assert((b as char) as u8 == b);
            } else if i == 1 {
                lemma_hex_digit(b / 16);
            } else if i == 2 {
                lemma_hex_digit(b % 16);
            }
        }
        assert forall|i: int| 0 <= i < percent_encoded(bytes).len() implies url_char(
            #[trigger] percent_encoded(bytes)[i],
        ) by {
            if i < before.len() {
                assert(url_char(before[i]));
            } else {
                assert(url_char(tail[i - before.len()]));
            }
        }
    }
}

proof fn lemma_hex_digit(n: u8)
    requires
        n < 16,
    ensures
        url_char(hex_digit(n)),
{
    if n < 10 {
        let d = (0x30 + n) as u8;
        assert(hex_digit(n) == d as char);
        assert((d as char) as u8 == d);
    } else {
        let d = (0x37 + n) as u8;
        assert(hex_digit(n) == d as char);
        assert((d as char) as u8 == d);
    }
}

/// Why a reply could not be used.
#[derive(Clone, Copy, Debug, PartialEq, Eq, Structural)]
pub enum ReplyError {
    /// It is no JSON document.
    Malformed,
}

/// The search for a release.
pub open spec fn search_query_of(artist: Seq<char>, album: Seq<char>) -> Seq<char> {
    "artist:\""@ + escaped(artist) + "\" AND release:\""@ + escaped(album) + "\""@
}

/// The URL that searches for a release by artist and album. Without either there is none.
pub open spec fn search_url_of(artist: Seq<char>, album: Seq<char>) -> Option<Seq<char>> {
    let artist = trim_of(artist);
    let album = trim_of(album);
    if artist.len() == 0 || album.len() == 0 {
        None
    } else {
        Some(
            "https://musicbrainz.org/ws/2/release?query="@ + percent_encoded(
                encode_utf8(search_query_of(artist, album)),
            ) + "&fmt=json&limit=5"@,
        )
    }
}

/// The URL that searches for a release.
pub fn search_url(artist: &str, album: &str) -> (r: Option<String>)
    ensures
        text_view(r) == search_url_of(artist@, album@),
{
    let artist = trimmed(artist);
    let album = trimmed(album);
    if artist.as_str().is_empty() || album.as_str().is_empty() {
        return None;
    }
    let mut query = String::new();
    push_text(&mut query, "artist:\"");
    push_text(&mut query, escape_lucene(artist.as_str()).as_str());
    push_text(&mut query, "\" AND release:\"");
    push_text(&mut query, escape_lucene(album.as_str()).as_str());
    push_text(&mut query, "\"");
    assert(query@ =~= search_query_of(artist@, album@));
    let mut url = String::new();
    push_text(&mut url, "https://musicbrainz.org/ws/2/release?query=");
    push_text(&mut url, url_encode(query.as_str()).as_str());
    push_text(&mut url, "&fmt=json&limit=5");
    assert(url@ =~= "https://musicbrainz.org/ws/2/release?query="@ + percent_encoded(
        encode_utf8(search_query_of(artist@, album@)),
    ) + "&fmt=json&limit=5"@);
    Some(url)
}

/// The URL that describes a release.
pub fn release_url(release_mbid: &str) -> (r: String)
    ensures
        r@ == "https://musicbrainz.org/ws/2/release/"@ + release_mbid@
            + "?inc=artist-credits&fmt=json"@,
{
    let mut url = String::new();
    push_text(&mut url, "https://musicbrainz.org/ws/2/release/");
    push_text(&mut url, release_mbid);
    push_text(&mut url, "?inc=artist-credits&fmt=json");
    assert(url@ =~= "https://musicbrainz.org/ws/2/release/"@ + release_mbid@
        + "?inc=artist-credits&fmt=json"@);
    url
}

/// The URL of the front cover of a release.
pub fn cover_url(release_mbid: &str) -> (r: String)
    ensures
        r@ == "https://coverartarchive.org/release/"@ + release_mbid@ + "/front-500"@,
{
    let mut url = String::new();
    push_text(&mut url, "https://coverartarchive.org/release/");
    push_text(&mut url, release_mbid);
    push_text(&mut url, "/front-500");
    assert(url@ =~= "https://coverartarchive.org/release/"@ + release_mbid@ + "/front-500"@);
    url
}

/// Whether an HTTP status means success.
pub open spec fn success(status: u16) -> bool {
    200 <= status < 300
}

/// Whether an HTTP status means success.
pub fn is_success(status: u16) -> (r: bool)
    ensures
        r == success(status),
{
    200 <= status && status < 300
}

/// The release that a search found first: the `id` of the first of its `releases`.
pub open spec fn release_id_of(doc: JsonTree) -> Option<Seq<char>> {
    match member_of(doc, "releases"@) {
        Some(releases) => match first_item_of(releases) {
            Some(release) => member_text_of(release, "id"@),
            None => None,
        },
        None => None,
    }
}

/// The release that a search found first.
pub fn release_id(doc: &Json) -> (r: Option<String>)
    ensures
        text_view(r) == release_id_of(doc.tree()),
{
    match member(doc, "releases") {
        Some(releases) => match first_item(releases) {
            Some(release) => member_text(release, "id"),
            None => None,
        },
        None => None,
    }
}

/// The reply to a search. Without success nothing is found; a successful reply must be a JSON
/// document.
pub fn lookup_release_mbid(status: u16, body: &[u8]) -> (r: Result<Option<String>, ReplyError>)
    ensures
        if !success(status) {
            r matches Ok(id) && id is None
        } else {
            match json_parsed(body@) {
                Some(doc) => r matches Ok(id) && text_view(id) == release_id_of(doc),
                None => r == Err::<Option<String>, ReplyError>(ReplyError::Malformed),
            }
        },
{
    if !is_success(status) {
        return Ok(None);
    }
    match parse_json(body) {
        Some(doc) => Ok(release_id(&doc)),
        None => Err(ReplyError::Malformed),
    }
}

/// What a release is called, who is credited first, and its date; empty where absent.
#[derive(Debug)]
pub struct ReleaseSummary {
    pub title: String,
    pub artist: String,
    pub date: String,
}

/// What a release is called, who is credited first, and its date.
pub struct SummaryView {
    pub title: Seq<char>,
    pub artist: Seq<char>,
    pub date: Seq<char>,
}

impl View for ReleaseSummary {
    type V = SummaryView;

    open spec fn view(&self) -> SummaryView {
        SummaryView { title: self.title@, artist: self.artist@, date: self.date@ }
    }
}

/// A text, or nothing.
pub open spec fn text_or_empty(text: Option<Seq<char>>) -> Seq<char> {
    match text {
        Some(s) => s,
        None => Seq::empty(),
    }
}

/// The summary of a release.
pub open spec fn summary_of(doc: JsonTree) -> SummaryView {
    SummaryView {
        title: text_or_empty(member_text_of(doc, "title"@)),
        date: text_or_empty(member_text_of(doc, "date"@)),
        artist: match member_of(doc, "artist-credit"@) {
            Some(credits) => match first_item_of(credits) {
                Some(credit) => text_or_empty(member_text_of(credit, "name"@)),
                None => Seq::empty(),
            },
            None => Seq::empty(),
        },
    }
}

/// A member's text, or nothing.
fn member_text_or_empty(json: &Json, name: &str) -> (r: String)
    ensures
        r@ == text_or_empty(member_text_of(json.tree(), name@)),
{
    match member_text(json, name) {
        Some(text) => text,
        None => String::new(),
    }
}

/// The summary of a release.
pub fn release_summary(doc: &Json) -> (r: ReleaseSummary)
    ensures
        r@ == summary_of(doc.tree()),
{
    let title = member_text_or_empty(doc, "title");
    let date = member_text_or_empty(doc, "date");
    let artist = match member(doc, "artist-credit") {
        Some(credits) => match first_item(credits) {
            Some(credit) => member_text_or_empty(credit, "name"),
            None => String::new(),
        },
        None => String::new(),
    };
    ReleaseSummary { title, artist, date }
}

/// The reply to a request for a release. Without success there is none; a successful reply must
/// be a JSON document.
pub fn fetch_release_summary(status: u16, body: &[u8]) -> (r: Result<
    Option<ReleaseSummary>,
    ReplyError,
>)
    ensures
        if !success(status) {
            r matches Ok(summary) && summary is None
        } else {
            match json_parsed(body@) {
                Some(doc) => r matches Ok(Some(summary)) && summary@ == summary_of(doc),
                None => r == Err::<Option<ReleaseSummary>, ReplyError>(ReplyError::Malformed),
            }
        },
{
    if !is_success(status) {
        return Ok(None);
    }
    match parse_json(body) {
        Some(doc) => Ok(Some(release_summary(&doc))),
        None => Err(ReplyError::Malformed),
    }
}

/// The reply to a request for a cover: the bytes of a successful one, unless they are too few to
/// be a picture.
pub fn fetch_cover_art_bytes(status: u16, body: Vec<u8>) -> (r: Option<Vec<u8>>)
    ensures
        match r {
            Some(bytes) => success(status) && body@.len() >= MIN_COVER_BYTES && bytes@ == body@,
            None => !success(status) || body@.len() < MIN_COVER_BYTES,
        },
{
    if !is_success(status) {
        return None;
    }
    if body.len() < MIN_COVER_BYTES {
        return None;
    }
    Some(body)
}

/// What a search reply names first is the release that is found: the text under "id" in the first
/// item under "releases", whatever else the reply holds.
pub proof fn law_first_release_is_found(
    members: Seq<(Seq<char>, JsonTree)>,
    at: int,
    fields: Seq<(Seq<char>, JsonTree)>,
    id_at: int,
    others: Seq<JsonTree>,
    id: Seq<char>,
)
    requires
        0 <= at < members.len(),
        members[at] == ("releases"@, JsonTree::Array(seq![JsonTree::Object(fields)] + others)),
        forall|i: int|
            0 <= i < members.len() && i != at ==> (#[trigger] members[i]).0 != "releases"@,
        0 <= id_at < fields.len(),
        fields[id_at] == ("id"@, JsonTree::Text(id)),
        forall|i: int| 0 <= i < fields.len() && i != id_at ==> (#[trigger] fields[i]).0 != "id"@,
    ensures
        release_id_of(JsonTree::Object(members)) == Some(id),
{
    law_member_is_that_of_the_name(members, "releases"@, at);
    law_first_item_is_at_the_start(JsonTree::Object(fields), others, JsonTree::Null);
    law_member_is_that_of_the_name(fields, "id"@, id_at);
}

/// A reply without releases names none: neither one that has no such member, nor one in which the
/// member is empty.
pub proof fn law_reply_without_releases_names_none(
    members: Seq<(Seq<char>, JsonTree)>,
    at: int,
)
    requires
        at == members.len() || 0 <= at < members.len() && members[at] == (
            "releases"@,
            JsonTree::Array(Seq::empty()),
        ),
        forall|i: int|
            0 <= i < members.len() && i != at ==> (#[trigger] members[i]).0 != "releases"@,
    ensures
        release_id_of(JsonTree::Object(members)) is None,
{
    if at < members.len() {
        law_member_is_that_of_the_name(members, "releases"@, at);
        law_first_item_is_at_the_start(JsonTree::Null, Seq::empty(), JsonTree::Null);
    } else {
        law_absent_member_is_not_found(JsonTree::Object(members), "releases"@);
    }
}

/// Each part of a summary is read from its own member, whatever the others are: the title and the
/// date of the release, and the name of the artist who is credited first.
pub proof fn law_summary_reads_each_member(
    members: Seq<(Seq<char>, JsonTree)>,
    at: int,
    text: Seq<char>,
    fields: Seq<(Seq<char>, JsonTree)>,
    name_at: int,
    others: Seq<JsonTree>,
)
    requires
        0 <= at < members.len(),
        forall|i: int|
            0 <= i < members.len() && i != at ==> (#[trigger] members[i]).0 != members[at].0,
        0 <= name_at < fields.len(),
        fields[name_at] == ("name"@, JsonTree::Text(text)),
        forall|i: int| 0 <= i < fields.len() && i != name_at ==> (#[trigger] fields[i]).0 != "name"@,
    ensures
        members[at] == ("title"@, JsonTree::Text(text)) ==> summary_of(
            JsonTree::Object(members),
        ).title == text,
        members[at] == ("date"@, JsonTree::Text(text)) ==> summary_of(
            JsonTree::Object(members),
        ).date == text,
        members[at] == (
            "artist-credit"@,
            JsonTree::Array(seq![JsonTree::Object(fields)] + others),
        ) ==> summary_of(JsonTree::Object(members)).artist == text,
{
    law_member_is_that_of_the_name(members, members[at].0, at);
    law_first_item_is_at_the_start(JsonTree::Object(fields), others, JsonTree::Null);
    law_member_is_that_of_the_name(fields, "name"@, name_at);
}

/// What a release does not say is empty.
pub proof fn law_absent_parts_are_empty(doc: JsonTree)
    ensures
        member_text_of(doc, "title"@) is None ==> summary_of(doc).title.len() == 0,
        member_text_of(doc, "date"@) is None ==> summary_of(doc).date.len() == 0,
        member_of(doc, "artist-credit"@) is None ==> summary_of(doc).artist.len() == 0,
        !(doc is Object) ==> summary_of(doc).title.len() == 0 && summary_of(doc).date.len() == 0
            && summary_of(doc).artist.len() == 0 && release_id_of(doc) is None,
{
    law_absent_member_is_not_found(doc, "title"@);
    law_absent_member_is_not_found(doc, "date"@);
    law_absent_member_is_not_found(doc, "artist-credit"@);
    law_absent_member_is_not_found(doc, "releases"@);
}

/// An answer counts exactly where its status is in the two hundreds, and a cover only with at least
/// a hundred bytes, which are then handed on as they are.
pub proof fn law_cover_is_handed_on_as_it_is(status: u16, body: Vec<u8>, r: Option<Vec<u8>>)
    requires
        call_ensures(fetch_cover_art_bytes, (status, body), r),
    ensures
        200 <= status <= 299 && body@.len() >= 100 ==> (r matches Some(bytes) && bytes@ == body@),
        status < 200 || status > 299 || body@.len() < 100 ==> r is None,
{
}

/// A search that was not answered finds nothing, and is no error; an answer that is no document is
/// one; any other answer finds the release that it names.
pub proof fn law_search_answers(
    status: u16,
    body: &[u8],
    r: Result<Option<String>, ReplyError>,
)
    requires
        call_ensures(lookup_release_mbid, (status, body), r),
    ensures
        status < 200 || status > 299 ==> (r matches Ok(id) && id is None),
        200 <= status <= 299 && json_parsed(body@) is None ==> r is Err,
        200 <= status <= 299 ==> (json_parsed(body@) matches Some(doc) ==> (r matches Ok(id)
            && text_view(id) == release_id_of(doc))),
{
}

/// A request for a release that was not answered gives nothing, and is no error; an answer that is
/// no document is one; any other answer gives the summary that it holds.
pub proof fn law_release_answers(
    status: u16,
    body: &[u8],
    r: Result<Option<ReleaseSummary>, ReplyError>,
)
    requires
        call_ensures(fetch_release_summary, (status, body), r),
    ensures
        status < 200 || status > 299 ==> (r matches Ok(summary) && summary is None),
        200 <= status <= 299 && json_parsed(body@) is None ==> r is Err,
        200 <= status <= 299 ==> (json_parsed(body@) matches Some(doc) ==> (r matches Ok(
            Some(summary),
        ) && summary@ == summary_of(doc))),
{
}

/// White space around an artist or an album makes no difference to the search. There is one exactly
/// where neither is blank, and its query then names both, each escaped and between quotes.
pub proof fn law_search_names_artist_and_album(artist: Seq<char>, album: Seq<char>)
    ensures
        search_url_of(artist, album) == search_url_of(trim_of(artist), trim_of(album)),
        (exists|i: int| 0 <= i < artist.len() && !white_space(#[trigger] artist[i])) && (exists|
            i: int,
        |
            0 <= i < album.len() && !white_space(#[trigger] album[i])) <==> search_url_of(
            artist,
            album,
        ) is Some,
        search_url_of(artist, album) matches Some(url) ==> url
            == "https://musicbrainz.org/ws/2/release?query="@ + percent_encoded(
            encode_utf8(
                "artist:\""@ + escaped(trim_of(artist)) + "\" AND release:\""@ + escaped(
                    trim_of(album),
                ) + "\""@,
            ),
        ) + "&fmt=json&limit=5"@,
{
    lemma_blank_text(artist);
    lemma_blank_text(album);
    lemma_trim_is_trimmed(artist);
    lemma_trim_is_trimmed(album);
}

/// Escaping goes character by character: a backslash or a quote gets a backslash before it, and any
/// other character stays as it is. So no quote of the text ends the quotes around it.
pub proof fn law_escaping_goes_by_character(s: Seq<char>, c: char)
    ensures
        escaped(Seq::empty()).len() == 0,
        c == '"' || c == '\\' ==> escaped(s.push(c)) == escaped(s).push('\\').push(c),
        c != '"' && c != '\\' ==> escaped(s.push(c)) == escaped(s).push(c),
{
    assert(s.push(c).drop_last() =~= s);
    if c == '"' || c == '\\' {
        assert(escaped(s.push(c)) =~= escaped(s).push('\\').push(c));
    } else {
        assert(escaped(s.push(c)) =~= escaped(s).push(c));
    }
}

/// The addresses of a release and of its cover name the release as it was found.
pub proof fn law_addresses_name_the_release(mbid: &str, release: String, cover: String)
    requires
        call_ensures(release_url, (mbid,), release),
        call_ensures(cover_url, (mbid,), cover),
    ensures
        "https://musicbrainz.org/ws/2/release/"@.is_prefix_of(release@),
        release@.skip("https://musicbrainz.org/ws/2/release/"@.len() as int) == mbid@
            + "?inc=artist-credits&fmt=json"@,
        "https://coverartarchive.org/release/"@.is_prefix_of(cover@),
        cover@.skip("https://coverartarchive.org/release/"@.len() as int) == mbid@ + "/front-500"@,
{
    let a = "https://musicbrainz.org/ws/2/release/"@;
    let b = "https://coverartarchive.org/release/"@;
    assert(release@.subrange(0, a.len() as int) =~= a);
    assert(cover@.subrange(0, b.len() as int) =~= b);
    assert(release@.skip(a.len() as int) =~= mbid@ + "?inc=artist-credits&fmt=json"@);
    assert(cover@.skip(b.len() as int) =~= mbid@ + "/front-500"@);
}

/// The first request is made at once, and a later one as soon as eleven hundred milliseconds have
/// gone by since the last.
pub proof fn law_requests_wait_no_longer_than_needed(elapsed: Option<u128>, r: u128)
    requires
        call_ensures(throttle_delay, (elapsed,), r),
    ensures
        elapsed is None ==> r == 0,
        elapsed matches Some(nanos) ==> {
            &&& nanos >= 1_100_000_000 ==> r == 0
            &&& nanos < 1_100_000_000 ==> nanos + r == 1_100_000_000
        },
{
}

/// There is a search exactly where neither the artist nor the album is blank, and its address names
/// both, without the white space around them.
pub proof fn law_searching_for_a_release(artist: &str, album: &str, r: Option<String>)
    requires
        call_ensures(search_url, (artist, album), r),
    ensures
        r is Some <==> (exists|i: int| 0 <= i < artist@.len() && !white_space(#[trigger] artist@[i]))
            && (exists|i: int| 0 <= i < album@.len() && !white_space(#[trigger] album@[i])),
        r matches Some(url) ==> url@ == "https://musicbrainz.org/ws/2/release?query="@
            + percent_encoded(
            encode_utf8(
                "artist:\""@ + escaped(trim_of(artist@)) + "\" AND release:\""@ + escaped(
                    trim_of(album@),
                ) + "\""@,
            ),
        ) + "&fmt=json&limit=5"@,
{
    law_search_names_artist_and_album(artist@, album@);
}

/// Only the first release counts: where it has no text under "id" none is found, whatever the
/// others have.
pub proof fn law_only_the_first_release_counts(
    members: Seq<(Seq<char>, JsonTree)>,
    at: int,
    first: JsonTree,
    others: Seq<JsonTree>,
)
    requires
        0 <= at < members.len(),
        members[at] == ("releases"@, JsonTree::Array(seq![first] + others)),
        forall|i: int|
            0 <= i < members.len() && i != at ==> (#[trigger] members[i]).0 != "releases"@,
        member_text_of(first, "id"@) is None,
    ensures
        release_id_of(JsonTree::Object(members)) is None,
{
    law_member_is_that_of_the_name(members, "releases"@, at);
    law_first_item_is_at_the_start(first, others, JsonTree::Null);
}

/// Only the first credit counts: where it has no text under "name" no artist is found, whatever the
/// others have.
pub proof fn law_only_the_first_credit_counts(
    members: Seq<(Seq<char>, JsonTree)>,
    at: int,
    first: JsonTree,
    others: Seq<JsonTree>,
)
    requires
        0 <= at < members.len(),
        members[at] == ("artist-credit"@, JsonTree::Array(seq![first] + others)),
        forall|i: int|
            0 <= i < members.len() && i != at ==> (#[trigger] members[i]).0 != "artist-credit"@,
        member_text_of(first, "name"@) is None,
    ensures
        summary_of(JsonTree::Object(members)).artist.len() == 0,
{
    law_member_is_that_of_the_name(members, "artist-credit"@, at);
    law_first_item_is_at_the_start(first, others, JsonTree::Null);
}

} // verus!
