use audiophile_player::json::{first_item, member, member_text, parse_json, Json};
use audiophile_player::online_metadata::{
    cover_url, escape_lucene, fetch_cover_art_bytes, fetch_release_summary, is_success,
    lookup_release_mbid, release_id, release_summary, release_url, search_url, throttle_delay,
    ReplyError, MIN_COVER_BYTES, REQUEST_INTERVAL_NANOS, USER_AGENT,
};

#[test]
fn quotes_and_backslashes_are_escaped() {
    assert_eq!(escape_lucene("a\"b\\"), "a\\\"b\\\\");
    assert_eq!(escape_lucene("Björk"), "Björk");
    assert_eq!(escape_lucene(""), "");
}

#[test]
fn escaped_text_stands_for_itself() {
    let text = "\\\"say \\\\ \"hi\"";
    let escaped = escape_lucene(text);
    let mut back = String::new();
    let mut chars = escaped.chars();
    while let Some(c) = chars.next() {
        if c == '\\' {
            back.push(chars.next().unwrap());
        } else {
            assert_ne!(c, '"');
            back.push(c);
        }
    }
    assert_eq!(back, text);
}

#[test]
fn search_url_is_encoded() {
    assert_eq!(
        search_url("  AC/DC ", "Back in \"Black\""),
        Some(
            "https://musicbrainz.org/ws/2/release?query=artist%3A%22AC%2FDC%22%20AND%20release%3A%22Back%20in%20%5C%22Black%5C%22%22&fmt=json&limit=5"
                .to_string()
        )
    );
    assert_eq!(
        search_url("é~a-_.9", "Z"),
        Some(
            "https://musicbrainz.org/ws/2/release?query=artist%3A%22%C3%A9~a-_.9%22%20AND%20release%3A%22Z%22&fmt=json&limit=5"
                .to_string()
        )
    );
}

#[test]
fn blank_terms_are_not_searched() {
    assert_eq!(search_url(" \t", "Album"), None);
    assert_eq!(search_url("Artist", "\u{3000}"), None);
}

#[test]
fn encoded_query_is_plain() {
    let url = search_url("&=?#% ü", "日本").unwrap();
    let query = url
        .strip_prefix("https://musicbrainz.org/ws/2/release?query=")
        .unwrap()
        .strip_suffix("&fmt=json&limit=5")
        .unwrap();
    assert!(query
        .chars()
        .all(|c| c.is_ascii_alphanumeric() || matches!(c, '-' | '.' | '_' | '~' | '%')));
}

#[test]
fn release_and_cover_urls() {
    assert_eq!(
        release_url("abc-1"),
        "https://musicbrainz.org/ws/2/release/abc-1?inc=artist-credits&fmt=json"
    );
    assert_eq!(
        cover_url("abc-1"),
        "https://coverartarchive.org/release/abc-1/front-500"
    );
    assert_eq!(USER_AGENT, "AudiophilePlayer/0.1 (local-audio-player)");
}

#[test]
fn success_is_two_hundred_and_up() {
    assert!(is_success(200));
    assert!(is_success(299));
    assert!(!is_success(199));
    assert!(!is_success(300));
    assert!(!is_success(404));
}

#[test]
fn first_release_is_taken() {
    let body = br#"{"count":2,"releases":[{"id":"first","score":100},{"id":"second"}]}"#;
    assert_eq!(lookup_release_mbid(200, body), Ok(Some("first".to_string())));
}

#[test]
fn search_without_success_finds_nothing() {
    assert_eq!(lookup_release_mbid(503, b"not json"), Ok(None));
}

#[test]
fn search_reply_must_be_json() {
    assert_eq!(lookup_release_mbid(200, b"not json"), Err(ReplyError::Malformed));
    assert_eq!(lookup_release_mbid(200, b""), Err(ReplyError::Malformed));
}

#[test]
fn search_replies_without_a_release() {
    assert_eq!(lookup_release_mbid(200, br#"{"releases":[]}"#), Ok(None));
    assert_eq!(lookup_release_mbid(200, br#"{"releases":"x"}"#), Ok(None));
    assert_eq!(lookup_release_mbid(200, br#"{"releases":[{"id":7}]}"#), Ok(None));
    assert_eq!(lookup_release_mbid(200, br#"[1,2]"#), Ok(None));
    assert_eq!(lookup_release_mbid(200, br#"null"#), Ok(None));
}

#[test]
fn release_id_of_a_document() {
    let doc = Json::Object(vec![(
        "releases".to_string(),
        Json::Array(vec![Json::Object(vec![(
            "id".to_string(),
            Json::Text("r1".to_string()),
        )])]),
    )]);
    assert_eq!(release_id(&doc), Some("r1".to_string()));
    assert_eq!(release_id(&Json::Null), None);
}

#[test]
fn summary_of_a_release() {
    let body = r#"{"title":"Té","date":"1999-05-01","artist-credit":[{"name":"A"},{"name":"B"}]}"#;
    let summary = fetch_release_summary(200, body.as_bytes()).unwrap().unwrap();
    assert_eq!(summary.title, "Té");
    assert_eq!(summary.artist, "A");
    assert_eq!(summary.date, "1999-05-01");
}

#[test]
fn summary_is_blank_where_the_reply_is_silent() {
    let summary = fetch_release_summary(200, br#"{"title":3,"artist-credit":[]}"#)
        .unwrap()
        .unwrap();
    assert_eq!(summary.title, "");
    assert_eq!(summary.artist, "");
    assert_eq!(summary.date, "");
    let blank = release_summary(&Json::Number);
    assert_eq!(blank.title, "");
}

#[test]
fn summary_needs_success_and_json() {
    assert!(matches!(fetch_release_summary(404, b"{}"), Ok(None)));
    assert!(matches!(fetch_release_summary(200, b"{"), Err(ReplyError::Malformed)));
}

#[test]
fn cover_of_a_release() {
    assert_eq!(fetch_cover_art_bytes(200, vec![7; 100]), Some(vec![7; 100]));
    assert_eq!(fetch_cover_art_bytes(200, vec![7; 99]), None);
    assert_eq!(fetch_cover_art_bytes(404, vec![7; 100]), None);
    assert_eq!(fetch_cover_art_bytes(500, vec![7; 100]), None);
    assert_eq!(MIN_COVER_BYTES, 100);
}

#[test]
fn requests_are_spaced() {
    assert_eq!(throttle_delay(None), 0);
    assert_eq!(throttle_delay(Some(0)), 1_100_000_000);
    assert_eq!(throttle_delay(Some(100_000_000)), 1_000_000_000);
    assert_eq!(throttle_delay(Some(1_099_999_999)), 1);
    assert_eq!(throttle_delay(Some(1_100_000_000)), 0);
    assert_eq!(throttle_delay(Some(u128::MAX)), 0);
    assert_eq!(REQUEST_INTERVAL_NANOS, 1_100_000_000);
}

#[test]
fn documents_are_read() {
    let doc = parse_json(br#"{"a":[true,null,"x"],"b":{"c":"d"},"n":1.5}"#).unwrap();
    assert!(matches!(member(&doc, "n"), Some(Json::Number)));
    assert!(matches!(first_item(member(&doc, "a").unwrap()), Some(Json::Bool(true))));
    assert_eq!(member_text(member(&doc, "b").unwrap(), "c"), Some("d".to_string()));
    assert!(member(&doc, "z").is_none());
    assert!(first_item(&doc).is_none());
    assert!(parse_json(b"{").is_none());
}

#[test]
fn last_of_repeated_members_counts() {
    let doc = parse_json(br#"{"a":"one","a":"two"}"#).unwrap();
    assert_eq!(member_text(&doc, "a"), Some("two".to_string()));
}
