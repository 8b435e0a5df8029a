use audiophile_player::artwork::{
    artwork_for_track, cover_image_for_album_entry, cover_names, decode_picture, first_picture,
    had_local_art, is_cover_file, is_cover_name, load_folder_cover_bytes, FolderItem, Picture,
};
use audiophile_player::file_path::{
    component_names, extension, file_name, file_name_text, is_audio_file, path_key, same_path,
};
use audiophile_player::frames::has_regular_frames;
use audiophile_player::library::{
    album_folder, album_rows_from_library, build_album_entries, discover_album_roots,
    covered_album_tile, earliest_name, empty_album_tile, first_audio_in_folder,
    has_audio_direct_child, AlbumEntry, AlbumScan, CoverSource, DirItem, LibraryDir,
};
use audiophile_player::metadata::TrackMetadata;
use audiophile_player::sorting::{key_is_less, sorted_order};

fn item(path: &str, is_file: bool) -> DirItem {
    DirItem { path: path.as_bytes().to_vec(), is_file }
}

fn dir(path: &str, has_audio: bool) -> LibraryDir {
    LibraryDir { path: path.as_bytes().to_vec(), has_audio }
}

fn album(title: &str) -> AlbumEntry {
    AlbumEntry {
        folder: format!("/m/{}", title).into_bytes(),
        title: title.to_string(),
        artist: "A".to_string(),
        cover_override: None,
    }
}

fn no_sources(count: usize) -> Vec<CoverSource> {
    (0..count).map(|_| CoverSource { meta: None, folder_cover: None }).collect()
}

fn png(red: u8) -> Vec<u8> {
    let picture = image::RgbaImage::from_pixel(2, 1, image::Rgba([red, 20, 30, 255]));
    let mut out = std::io::Cursor::new(Vec::new());
    image::DynamicImage::ImageRgba8(picture)
        .write_to(&mut out, image::ImageFormat::Png)
        .unwrap();
    out.into_inner()
}

/// A WebP picture of one pixel.
const PLAIN_WEBP: [u8; 42] = [
    0x52, 0x49, 0x46, 0x46, 0x22, 0, 0, 0, 0x57, 0x45, 0x42, 0x50, 0x56, 0x50, 0x38, 0x20, 0x16, 0,
    0, 0, 0x30, 0x01, 0, 0x9d, 0x01, 0x2a, 0x01, 0, 0x01, 0, 0x0e, 0xc0, 0xfe, 0x25, 0xa4, 0, 0x03,
    0x70, 0, 0, 0, 0,
];

fn jpeg() -> Vec<u8> {
    let picture = image::RgbImage::from_pixel(20, 10, image::Rgb([128, 128, 128]));
    let mut out = std::io::Cursor::new(Vec::new());
    image::DynamicImage::ImageRgb8(picture)
        .write_to(&mut out, image::ImageFormat::Jpeg)
        .unwrap();
    out.into_inner()
}

/// A frame header with the given marker and, for each component, its sampling factors.
fn frame(marker: u8, size: (u16, u16), factors: &[u8]) -> Vec<u8> {
    let mut bytes = vec![0xff, marker, 0, 8 + 3 * factors.len() as u8, 8];
    bytes.extend(size.1.to_be_bytes());
    bytes.extend(size.0.to_be_bytes());
    bytes.push(factors.len() as u8);
    for (index, factor) in factors.iter().enumerate() {
        bytes.extend([index as u8 + 1, *factor, 0]);
    }
    bytes
}

fn adobe(transform: u8) -> Vec<u8> {
    let mut bytes = vec![0xff, 0xee, 0, 14];
    bytes.extend(b"Adobe");
    bytes.extend([0, 100, 0, 0, 0, 0, transform]);
    bytes
}

fn file(path: &str, is_file: bool, bytes: Option<Vec<u8>>) -> FolderItem {
    FolderItem { path: path.as_bytes().to_vec(), is_file, bytes }
}

#[test]
fn audio_files_by_extension() {
    for name in ["a.flac", "/x/b.WAV", "c.d.AiFf", "e.aif", "f.m4a", "g.Mp3", "/x/h.mp3/"] {
        assert!(is_audio_file(name.as_bytes()), "{}", name);
    }
    for name in ["a.ogg", "flac", ".flac", "a.flac2", "a.", "", "/", "a.mp3/..", "mp3/x"] {
        assert!(!is_audio_file(name.as_bytes()), "{}", name);
    }
    assert!(is_audio_file(b"\xff.mp3"));
}

#[test]
fn parts_of_paths() {
    assert_eq!(
        component_names(b"/a//b/./c/"),
        vec![b"a".to_vec(), b"b".to_vec(), b"c".to_vec()]
    );
    assert_eq!(file_name(b"/a/b.flac"), Some(b"b.flac".to_vec()));
    assert_eq!(file_name(b"/a/.."), None);
    assert_eq!(file_name(b"/"), None);
    assert_eq!(file_name_text(b"/a/\xc3\xa9"), Some("é".to_string()));
    assert_eq!(file_name_text(b"/a/\xff"), Some("\u{fffd}".to_string()));
    assert_eq!(extension(b"b.tar.gz"), Some(&b"gz"[..]));
    assert_eq!(extension(b".hidden"), None);
    assert!(same_path(b"/a/b", b"/a//./b/"));
    assert!(!same_path(b"/a/b", b"a/b"));
}

#[test]
fn paths_compare_like_components() {
    let paths = ["/a/b", "/a b", "/a", "/a/b/c", "a", "../a", "./a", "/", "/A"];
    for x in paths {
        for y in paths {
            let less = std::path::Path::new(x) < std::path::Path::new(y);
            assert_eq!(
                key_is_less(&path_key(x.as_bytes()), &path_key(y.as_bytes())),
                less,
                "{} {}",
                x,
                y
            );
        }
    }
}

#[test]
fn folders_with_audio() {
    assert!(!has_audio_direct_child(&[]));
    assert!(!has_audio_direct_child(&[item("/m/a.txt", true), item("/m/b.flac", false)]));
    assert!(has_audio_direct_child(&[item("/m/a.txt", true), item("/m/b.flac", true)]));
}

#[test]
fn first_audio_by_lower_case_name() {
    let items = [
        item("/m/b.flac", true),
        item("/m/A.flac", true),
        item("/m/a.txt", true),
        item("/m/0.flac", false),
    ];
    assert_eq!(first_audio_in_folder(&items), Some(1));
    assert_eq!(first_audio_in_folder(&[item("/m/a.txt", true)]), None);
    let same = [item("/m/x.MP3", true), item("/m/X.mp3", true)];
    assert_eq!(first_audio_in_folder(&same), Some(0));
    let names = [None, Some("b".to_string()), Some("a".to_string())];
    assert_eq!(earliest_name(&names), Some(2));
}

#[test]
fn album_roots_are_sorted_and_unique() {
    let dirs = [
        dir("/m/b", true),
        dir("/m/a/x", true),
        dir("/m", false),
        dir("/m/a", true),
        dir("/m/a/", true),
    ];
    assert_eq!(
        discover_album_roots(&dirs),
        vec![b"/m/a".to_vec(), b"/m/a/x".to_vec(), b"/m/b".to_vec()]
    );
    assert!(discover_album_roots(&[]).is_empty());
}

#[test]
fn albums_are_named_and_sorted() {
    let meta = |album: Option<&str>, album_artist: Option<&str>, artist: Option<&str>| {
        let mut meta = TrackMetadata::default();
        meta.album = album.map(String::from);
        meta.album_artist = album_artist.map(String::from);
        meta.artist = artist.map(String::from);
        Some(meta)
    };
    let scan = |folder: &str, meta: Option<TrackMetadata>| AlbumScan {
        folder: folder.as_bytes().to_vec(),
        meta,
    };
    let albums = build_album_entries(vec![
        scan("/m/one", meta(Some("zeta"), None, Some("beta"))),
        scan("/m/two", meta(None, Some("BETA"), Some("ignored"))),
        scan("/m/three", None),
        scan("/", meta(None, None, None)),
        scan("/m/four", meta(Some("Alpha"), Some("Aa"), None)),
    ]);
    let shown: Vec<(&str, &str)> =
        albums.iter().map(|a| (a.artist.as_str(), a.title.as_str())).collect();
    assert_eq!(
        shown,
        vec![
            ("Aa", "Alpha"),
            ("BETA", "two"),
            ("beta", "zeta"),
            ("Unknown artist", "Unknown album"),
        ]
    );
    assert!(albums.iter().all(|a| a.cover_override.is_none()));
}

#[test]
fn sorting_keeps_equal_items_in_place() {
    let keys = vec![vec![vec![2]], vec![vec![1]], vec![vec![2]], vec![vec![1, 0]], vec![]];
    assert_eq!(sorted_order(&keys), vec![4, 1, 3, 0, 2]);
}

#[test]
fn grid_has_four_albums_to_a_row() {
    let albums: Vec<AlbumEntry> = ["a", "b", "c", "d", "e"].iter().map(|t| album(t)).collect();
    let rows = album_rows_from_library(&albums, &no_sources(5));
    assert_eq!(rows.len(), 2);
    assert_eq!(rows[0].c0.title, "a");
    assert_eq!(rows[0].c3.album_index, 3);
    assert_eq!(rows[1].c0.title, "e");
    assert_eq!(rows[1].c0.artist, "A");
    assert_eq!(rows[1].c0.album_index, 4);
    assert_eq!(rows[1].c1.album_index, -1);
    assert_eq!(rows[1].c3.title, "");
    assert!(album_rows_from_library(&[], &[]).is_empty());
    assert_eq!(empty_album_tile().album_index, -1);
}

#[test]
fn tiles_carry_their_covers() {
    let mut albums: Vec<AlbumEntry> = ["a", "b", "c", "d", "e"].iter().map(|t| album(t)).collect();
    let mut sources = no_sources(5);
    sources[1].meta = Some(TrackMetadata::default());
    sources[1].folder_cover = Some(png(2));
    sources[3].folder_cover = Some(png(4));
    albums[4].cover_override = Some(png(5));
    let rows = album_rows_from_library(&albums, &sources);
    assert!(rows[0].c0.cover.is_none());
    assert_eq!(rows[0].c1.cover.as_ref().unwrap().rgba[0], 2);
    assert!(rows[0].c3.cover.is_none());
    assert_eq!(rows[1].c0.cover.as_ref().unwrap().rgba[0], 5);
    assert!(rows[1].c1.cover.is_none());
    let cover = Some(Picture { width: 7, height: 1, rgba: vec![] });
    let tile = covered_album_tile(&albums[2], cover, 2);
    assert_eq!(tile.cover.unwrap().width, 7);
    assert_eq!(tile.album_index, 2);
    assert_eq!(tile.title, "c");
}

#[test]
fn tile_opens_its_album() {
    let albums: Vec<AlbumEntry> = ["a", "b", "c", "d", "e"].iter().map(|t| album(t)).collect();
    let rows = album_rows_from_library(&albums, &no_sources(5));
    assert_eq!(album_folder(&albums, rows[1].c0.album_index), Some(b"/m/e".to_vec()));
    assert_eq!(album_folder(&albums, rows[1].c1.album_index), None);
    assert_eq!(album_folder(&albums, 5), None);
}

#[test]
fn pictures_are_decoded() {
    let picture = decode_picture(&png(10)).unwrap();
    assert_eq!((picture.width, picture.height), (2, 1));
    assert_eq!(picture.rgba, vec![10, 20, 30, 255, 10, 20, 30, 255]);
    assert!(decode_picture(b"no picture").is_none());
    assert!(decode_picture(b"").is_none());
}

#[test]
fn jpeg_pictures_are_decoded() {
    let bytes = jpeg();
    assert!(has_regular_frames(&bytes));
    let picture = decode_picture(&bytes).unwrap();
    assert_eq!((picture.width, picture.height), (20, 10));
    assert_eq!(picture.rgba.len(), 800);
    for pixel in picture.rgba.chunks(4) {
        assert!(pixel[..3].iter().all(|c| (126..=130).contains(c)));
        assert_eq!(pixel[3], 255);
    }
}

#[test]
fn unusual_frames_are_not_decoded() {
    let mut finer = vec![0xff, 0xd8, 0xff, 0xdb, 0, 0x43, 0];
    finer.extend([1u8; 64]);
    finer.extend(frame(0xc2, (8, 8), &[0x11, 0x22, 0x22]));
    finer.extend([0xff, 0xda, 0, 0x0c, 3, 1, 0, 2, 0, 3, 0, 0, 0, 0]);
    assert!(!has_regular_frames(&finer));
    assert!(decode_picture(&finer).is_none());

    let mut four = vec![0xff, 0xd8];
    four.extend(frame(0xc2, (8, 8), &[0x22, 0x11, 0x11, 0x22]));
    assert!(has_regular_frames(&four));
    four.extend(adobe(1));
    assert!(!has_regular_frames(&four));
    assert!(decode_picture(&four).is_none());

    let mut meta = TrackMetadata::default();
    meta.artwork = Some(finer);
    assert_eq!(artwork_for_track(&meta, &Some(png(2))).unwrap().rgba[0], 2);
}

#[test]
fn plain_webp_pictures_are_decoded() {
    assert!(has_regular_frames(&PLAIN_WEBP));
    let picture = decode_picture(&PLAIN_WEBP).unwrap();
    assert_eq!((picture.width, picture.height), (1, 1));
    assert_eq!(picture.rgba.len(), 4);
    assert_eq!(picture.rgba[3], 255);

    let shown = image::RgbaImage::from_pixel(2, 1, image::Rgba([1, 2, 3, 255]));
    let mut out = std::io::Cursor::new(Vec::new());
    image::DynamicImage::ImageRgba8(shown)
        .write_to(&mut out, image::ImageFormat::WebP)
        .unwrap();
    let lossless = out.into_inner();
    assert!(!has_regular_frames(&lossless));
    assert!(decode_picture(&lossless).is_none());

    for mark in [b"VP8L", b"ALPH", b"ANMF"] {
        assert!(!has_regular_frames(&[&b"RIFF....WEBP."[..], mark].concat()));
        assert!(has_regular_frames(&[&b"RIFF....WEBP."[..], &mark[..3]].concat()));
        assert!(has_regular_frames(&[&b"RIFF....WAVE."[..], mark].concat()));
    }
    assert!(has_regular_frames(&[&b"RIFF....WEBP"[..], b"VP8 "].concat()));
}

#[test]
fn damaged_pictures_are_taken_in_stride() {
    let whole = [jpeg(), png(1), PLAIN_WEBP.to_vec()];
    for bytes in whole {
        for at in 0..bytes.len() {
            for mask in [0x01, 0x02, 0x10, 0x80, 0xff] {
                let mut damaged = bytes.clone();
                damaged[at] ^= mask;
                if let Some(picture) = decode_picture(&damaged) {
                    let pixels = picture.width as usize * picture.height as usize;
                    assert_eq!(picture.rgba.len(), 4 * pixels);
                }
            }
            assert!(decode_picture(&bytes[..at]).map_or(true, |p| p.rgba.len() % 4 == 0));
        }
    }
}

#[test]
fn usual_frames() {
    for marker in [0xc0, 0xc1, 0xc2] {
        for factors in [&[0x11][..], &[0x22], &[0x22, 0x11, 0x11], &[0x21, 0x11, 0x11]] {
            assert!(has_regular_frames(&frame(marker, (8, 8), factors)));
        }
        for factors in [
            &[0x41, 0x11, 0x11][..],
            &[0x14, 0x11, 0x11],
            &[0x12, 0x21, 0x11],
            &[0x11, 0x11, 0x12],
            &[0x11, 0x11],
            &[0x11; 5],
            &[],
        ] {
            assert!(!has_regular_frames(&frame(marker, (8, 8), factors)));
        }
    }
    // Other markers start no frame, nor does one whose length does not fit.
    assert!(has_regular_frames(&frame(0xc4, (8, 8), &[0x11, 0x22, 0x22])));
    let mut cut = frame(0xc0, (8, 8), &[0x11, 0x22, 0x22]);
    cut.pop();
    assert!(has_regular_frames(&cut));
    cut.push(0);
    assert!(!has_regular_frames(&cut));
    cut[3] += 1;
    assert!(has_regular_frames(&cut));

    // A picture with one component is a little narrower than the format allows.
    assert!(has_regular_frames(&frame(0xc0, (65528, 65528), &[0x11])));
    assert!(!has_regular_frames(&frame(0xc0, (65529, 1), &[0x11])));
    assert!(!has_regular_frames(&frame(0xc0, (1, 65529), &[0x11])));
    assert!(has_regular_frames(&frame(0xc0, (65535, 65535), &[0x22, 0x11, 0x11])));

    // The Adobe segment may come first, and may follow three components.
    for (factors, follows) in [(&[0x11][..], false), (&[0x11; 3], true), (&[0x11; 4], false)] {
        let header = frame(0xc0, (8, 8), factors);
        assert!(has_regular_frames(&[adobe(2), header.clone()].concat()));
        assert_eq!(has_regular_frames(&[header, adobe(2)].concat()), follows);
    }
    assert!(has_regular_frames(b""));
    assert!(has_regular_frames(&[0xff]));
    assert!(has_regular_frames(&png(1)));
}

#[test]
fn embedded_artwork_comes_first() {
    let mut meta = TrackMetadata::default();
    assert!(artwork_for_track(&meta, &None).is_none());
    assert_eq!(artwork_for_track(&meta, &Some(png(2))).unwrap().rgba[0], 2);
    meta.artwork = Some(png(1));
    assert_eq!(artwork_for_track(&meta, &Some(png(2))).unwrap().rgba[0], 1);
    meta.artwork = Some(b"broken".to_vec());
    assert_eq!(artwork_for_track(&meta, &Some(png(2))).unwrap().rgba[0], 2);
    assert!(artwork_for_track(&meta, &Some(b"broken".to_vec())).is_none());
}

#[test]
fn cover_from_elsewhere_wins() {
    let mut entry = album("a");
    let mut meta = TrackMetadata::default();
    meta.artwork = Some(png(1));
    assert!(cover_image_for_album_entry(&entry, &None, &Some(png(2))).is_none());
    let own = cover_image_for_album_entry(&entry, &Some(meta.clone()), &Some(png(2)));
    assert_eq!(own.unwrap().rgba[0], 1);
    entry.cover_override = Some(png(3));
    let other = cover_image_for_album_entry(&entry, &Some(meta.clone()), &Some(png(2)));
    assert_eq!(other.unwrap().rgba[0], 3);
    assert_eq!(cover_image_for_album_entry(&entry, &None, &None).unwrap().rgba[0], 3);
    entry.cover_override = Some(vec![0; 100]);
    let fallen_back = cover_image_for_album_entry(&entry, &Some(meta), &None);
    assert_eq!(fallen_back.unwrap().rgba[0], 1);
}

#[test]
fn first_picture_that_is_there() {
    let picture = |width| Some(Picture { width, height: 1, rgba: vec![] });
    assert_eq!(first_picture(picture(1), picture(2)).unwrap().width, 1);
    assert_eq!(first_picture(None, picture(2)).unwrap().width, 2);
    assert!(first_picture(None, None).is_none());
}

#[test]
fn cover_files() {
    assert_eq!(
        cover_names(),
        vec!["cover.jpg", "cover.jpeg", "cover.png", "folder.jpg", "folder.jpeg", "folder.png"]
    );
    assert!(is_cover_name("folder.jpeg"));
    assert!(!is_cover_name("Folder.jpeg"));
    assert!(!is_cover_name("cover.webp"));
    assert!(is_cover_file(b"/m/Folder.JPEG", true));
    assert!(!is_cover_file(b"/m/Folder.JPEG", false));
    assert!(!is_cover_file(b"/", true));
}

#[test]
fn cover_of_a_folder() {
    let named = [
        file("/m/cover.jpg", false, None),
        file("/m/cover.jpeg", true, None),
        file("/m/cover.png", true, Some(vec![3])),
        file("/m/folder.jpg", true, Some(vec![4])),
    ];
    let items = [
        file("/m/readme", true, Some(vec![9])),
        file("/m/COVER.JPG", true, None),
        file("/m/Cover.png", true, Some(vec![5])),
        file("/m/Folder.png", true, Some(vec![6])),
    ];
    assert_eq!(load_folder_cover_bytes(&named, &items), Some(vec![3]));
    assert_eq!(load_folder_cover_bytes(&named[..2], &items), Some(vec![5]));
    assert_eq!(load_folder_cover_bytes(&named[..2], &items[..2]), None);
    assert_eq!(load_folder_cover_bytes(&[], &[]), None);
}

#[test]
fn artwork_of_its_own() {
    let mut meta = TrackMetadata::default();
    assert!(!had_local_art(&meta, &None));
    assert!(had_local_art(&meta, &Some(vec![])));
    meta.artwork = Some(vec![]);
    assert!(had_local_art(&meta, &None));
}
