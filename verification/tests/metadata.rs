use audiophile_player::metadata::{
    looks_like_image_bytes, media_is_image, merge_all_metadata, merge_revision, merge_revision_log,
    merge_tag, merge_tags, merge_visuals, parse_track_pair, set_if_empty, tag_track_pair, tag_u32,
    value_to_string, visual_is_image, year_text, MetadataRevision, Tag, TagKey, TagValue,
    TrackMetadata, Visual,
};

fn tag(key: TagKey, text: &str) -> Tag {
    Tag { std_key: Some(key), value: TagValue::Text(text.to_string()) }
}

fn visual(media_type: &str, is_front_cover: bool, data: &[u8]) -> Visual {
    Visual { media_type: media_type.to_string(), is_front_cover, data: data.to_vec() }
}

#[test]
fn values_as_text() {
    assert_eq!(value_to_string(&TagValue::Text("x".to_string())), Some("x".to_string()));
    assert_eq!(value_to_string(&TagValue::UnsignedInt(u64::MAX)), Some(u64::MAX.to_string()));
    assert_eq!(value_to_string(&TagValue::SignedInt(i64::MIN)), Some(i64::MIN.to_string()));
    assert_eq!(value_to_string(&TagValue::SignedInt(-7)), Some("-7".to_string()));
    assert_eq!(value_to_string(&TagValue::Float("1.5".to_string())), Some("1.5".to_string()));
    assert_eq!(value_to_string(&TagValue::Boolean(true)), Some("true".to_string()));
    assert_eq!(value_to_string(&TagValue::Boolean(false)), Some("false".to_string()));
    assert_eq!(value_to_string(&TagValue::Binary), None);
    assert_eq!(value_to_string(&TagValue::Flag), None);
}

#[test]
fn track_pairs() {
    assert_eq!(parse_track_pair("3/12"), (Some(3), Some(12)));
    assert_eq!(parse_track_pair("  3 / 12 "), (Some(3), Some(12)));
    assert_eq!(parse_track_pair("7"), (Some(7), None));
    assert_eq!(parse_track_pair("+7"), (Some(7), None));
    assert_eq!(parse_track_pair("/9"), (None, Some(9)));
    assert_eq!(parse_track_pair("3/"), (Some(3), None));
    assert_eq!(parse_track_pair("1/2/3"), (Some(1), None));
    assert_eq!(parse_track_pair("A1"), (None, None));
    assert_eq!(parse_track_pair(""), (None, None));
    assert_eq!(parse_track_pair("4294967295/4294967296"), (Some(u32::MAX), None));
}

#[test]
fn numbers_in_tags() {
    let number = |value: TagValue| Tag { std_key: Some(TagKey::DiscNumber), value };
    assert_eq!(tag_u32(&number(TagValue::UnsignedInt(5))), Some(5));
    assert_eq!(tag_u32(&number(TagValue::UnsignedInt(0x1_0000_0002))), Some(2));
    assert_eq!(tag_u32(&number(TagValue::SignedInt(-1))), None);
    assert_eq!(tag_u32(&number(TagValue::SignedInt(9))), Some(9));
    assert_eq!(tag_u32(&number(TagValue::Text(" 4 ".to_string()))), Some(4));
    assert_eq!(tag_u32(&number(TagValue::Text("4/5".to_string()))), None);
    assert_eq!(tag_u32(&number(TagValue::Flag)), None);
    assert_eq!(tag_track_pair(&number(TagValue::Text("4/5".to_string()))), (Some(4), Some(5)));
    assert_eq!(tag_track_pair(&number(TagValue::UnsignedInt(6))), (Some(6), None));
    assert_eq!(tag_track_pair(&number(TagValue::SignedInt(-6))), (None, None));
    assert_eq!(tag_track_pair(&number(TagValue::Boolean(true))), (None, None));
}

#[test]
fn empty_text_does_not_count() {
    let mut field: Option<String> = None;
    set_if_empty(&mut field, String::new());
    assert_eq!(field, None);
    set_if_empty(&mut field, "a".to_string());
    assert_eq!(field, Some("a".to_string()));
    set_if_empty(&mut field, "b".to_string());
    assert_eq!(field, Some("a".to_string()));
}

#[test]
fn image_signatures() {
    assert!(looks_like_image_bytes(&[0xff, 0xd8, 0xff]));
    assert!(!looks_like_image_bytes(&[0xff, 0xd8]));
    assert!(looks_like_image_bytes(b"\x89PNG\r\n\x1a\n"));
    assert!(!looks_like_image_bytes(b"\x89PNG\r\n\x1a"));
    assert!(looks_like_image_bytes(b"RIFF....WEBPx"));
    assert!(!looks_like_image_bytes(b"RIFF....WEBP"));
    assert!(!looks_like_image_bytes(b"RIFF....WAVEx"));
    assert!(!looks_like_image_bytes(b""));
}

#[test]
fn pictures_by_media_type() {
    assert!(visual_is_image(&visual("IMAGE/Jpeg", false, b"?")));
    assert!(!visual_is_image(&visual("text/html", false, &[0xff, 0xd8, 0xff])));
    assert!(visual_is_image(&visual("", false, &[0xff, 0xd8, 0xff])));
    assert!(!visual_is_image(&visual("", false, b"?")));
    assert!(visual_is_image(&visual("Application/Octet-Stream", false, &[0xff, 0xd8, 0xff])));
    assert!(media_is_image("image/", b""));
    assert!(!media_is_image("image", b""));
}

#[test]
fn years() {
    assert_eq!(year_text("1999-05-01"), "1999");
    assert_eq!(year_text("1999"), "1999");
    assert_eq!(year_text("May 1999"), "May 1999");
    assert_eq!(year_text("99"), "99");
}

#[test]
fn tags_fill_their_fields() {
    let mut meta = TrackMetadata::default();
    merge_tag(&mut meta, &tag(TagKey::TrackTitle, "Title"));
    merge_tag(&mut meta, &tag(TagKey::Artist, "Artist"));
    merge_tag(&mut meta, &tag(TagKey::AlbumArtist, "Album artist"));
    merge_tag(&mut meta, &tag(TagKey::Album, "Album"));
    merge_tag(&mut meta, &tag(TagKey::TrackNumber, "2/10"));
    merge_tag(&mut meta, &tag(TagKey::DiscNumber, "1"));
    merge_tag(&mut meta, &tag(TagKey::Date, "2001-01-01"));
    merge_tag(&mut meta, &tag(TagKey::Genre, "Genre"));
    merge_tag(&mut meta, &tag(TagKey::Composer, "Composer"));
    assert_eq!(meta.title.as_deref(), Some("Title"));
    assert_eq!(meta.artist.as_deref(), Some("Artist"));
    assert_eq!(meta.album_artist.as_deref(), Some("Album artist"));
    assert_eq!(meta.album.as_deref(), Some("Album"));
    assert_eq!(meta.track_number, Some(2));
    assert_eq!(meta.track_total, Some(10));
    assert_eq!(meta.disc_number, Some(1));
    assert_eq!(meta.year.as_deref(), Some("2001"));
    assert_eq!(meta.genre.as_deref(), Some("Genre"));
    assert_eq!(meta.composer.as_deref(), Some("Composer"));
    assert_eq!(meta.artwork, None);
}

#[test]
fn first_value_stays() {
    let mut meta = TrackMetadata::default();
    merge_tags(
        &mut meta,
        &[
            tag(TagKey::TrackTitle, "First"),
            tag(TagKey::TrackTitle, "Second"),
            tag(TagKey::TrackTotal, "9"),
            tag(TagKey::TrackNumber, "1/12"),
        ],
    );
    assert_eq!(meta.title.as_deref(), Some("First"));
    assert_eq!(meta.track_number, Some(1));
    assert_eq!(meta.track_total, Some(9));
}

#[test]
fn tag_read_twice_changes_nothing() {
    let mut once = TrackMetadata::default();
    merge_tag(&mut once, &tag(TagKey::TrackNumber, "3"));
    let before = format!("{:?}", once);
    merge_tag(&mut once, &tag(TagKey::TrackNumber, "3"));
    assert_eq!(format!("{:?}", once), before);
}

#[test]
fn other_tags_are_ignored() {
    let mut meta = TrackMetadata::default();
    merge_tag(&mut meta, &tag(TagKey::Other, "x"));
    merge_tag(&mut meta, &Tag { std_key: None, value: TagValue::Text("x".to_string()) });
    assert_eq!(format!("{:?}", meta), format!("{:?}", TrackMetadata::default()));
}

#[test]
fn last_front_cover_wins() {
    let mut meta = TrackMetadata::default();
    merge_visuals(
        &mut meta,
        &[
            visual("image/png", false, &[1]),
            visual("image/png", true, &[2]),
            visual("image/png", false, &[3]),
            visual("image/png", true, &[4]),
            visual("text/plain", true, &[5]),
        ],
    );
    assert_eq!(meta.artwork, Some(vec![4]));
}

#[test]
fn first_image_without_front_cover() {
    let mut meta = TrackMetadata::default();
    merge_visuals(
        &mut meta,
        &[
            visual("text/plain", false, &[0]),
            visual("image/png", false, &[1]),
            visual("image/png", false, &[2]),
        ],
    );
    assert_eq!(meta.artwork, Some(vec![1]));
}

#[test]
fn revisions_are_merged_in_order() {
    let first = MetadataRevision {
        tags: vec![tag(TagKey::Album, "A")],
        visuals: vec![visual("image/png", false, &[1])],
    };
    let second = MetadataRevision {
        tags: vec![tag(TagKey::Album, "B"), tag(TagKey::Artist, "C")],
        visuals: vec![visual("image/png", true, &[2])],
    };
    let mut meta = TrackMetadata::default();
    merge_revision(&mut meta, &first);
    assert_eq!(meta.artwork, Some(vec![1]));
    merge_revision_log(&mut meta, &[second]);
    assert_eq!(meta.album.as_deref(), Some("A"));
    assert_eq!(meta.artist.as_deref(), Some("C"));
    assert_eq!(meta.artwork, Some(vec![2]));
}

#[test]
fn probed_metadata_come_before_the_container() {
    let probed = [MetadataRevision { tags: vec![tag(TagKey::Album, "probed")], visuals: vec![] }];
    let container = [MetadataRevision {
        tags: vec![tag(TagKey::Album, "container"), tag(TagKey::Genre, "genre")],
        visuals: vec![],
    }];
    let meta = merge_all_metadata(&probed, &container);
    assert_eq!(meta.album.as_deref(), Some("probed"));
    assert_eq!(meta.genre.as_deref(), Some("genre"));
}
