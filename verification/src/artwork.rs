//! Pictures: decoding them, the cover files of a folder, and which picture is shown for a track
//! and for an album.
use vstd::prelude::*;

use crate::file_path::{file_name_text, file_name_text_of};
use crate::frames::{has_regular_frames, regular_frames};
use crate::library::{AlbumEntry, AlbumView};
use crate::metadata::{bytes_view, MetadataView, TrackMetadata};
use crate::text::{copy_bytes, lowercase, lowercase_of, same_text};

verus! {

/// A decoded picture: four bytes for each pixel, row by row.
#[derive(Debug)]
pub struct Picture {
    pub width: u32,
    pub height: u32,
    pub rgba: Vec<u8>,
}

/// A decoded picture.
pub struct PictureView {
    pub width: u32,
    pub height: u32,
    pub rgba: Seq<u8>,
}

impl View for Picture {
    type V = PictureView;

    open spec fn view(&self) -> PictureView {
        PictureView { width: self.width, height: self.height, rgba: self.rgba@ }
    }
}

/// A picture, if there is one.
pub open spec fn picture_view(picture: Option<Picture>) -> Option<PictureView> {
    match picture {
        Some(shown) => Some(shown@),
        None => None,
    }
}

/// What `image::load_from_memory` and `DynamicImage::into_rgba8` make of an encoded picture. The
/// picture formats are not restated here.
pub uninterp spec fn decoded_picture(bytes: Seq<u8>) -> Option<PictureView>;

/// Calls `image::load_from_memory`, which guesses the format from the bytes, and
/// `DynamicImage::into_rgba8`. The result is a function of the bytes alone, as no decoding hook
/// is registered anywhere in the player. JPEG data with frames of unusual layouts, and WebP data
/// other than plain pictures, are left out: the decoders panic on some of it. Their arithmetic
/// wraps around, as it does in a build for release.
#[verifier::external_body]
fn load_rgba(bytes: &[u8]) -> (r: Option<Picture>)
    requires
        regular_frames(bytes@),
    ensures
        picture_view(r) == decoded_picture(bytes@),
{
    let picture = image::load_from_memory(bytes).ok()?.into_rgba8();
    let (width, height) = picture.dimensions();
    Some(Picture { width, height, rgba: picture.into_raw() })
}

/// The picture that some bytes hold, if they can be decoded. Bytes with a frame that the decoder
/// is not written for are not decoded.
pub open spec fn picture_of(bytes: Seq<u8>) -> Option<PictureView> {
    if regular_frames(bytes) {
        decoded_picture(bytes)
    } else {
        None
    }
}

/// Decodes a picture.
pub fn decode_picture(bytes: &[u8]) -> (r: Option<Picture>)
    ensures
        picture_view(r) == picture_of(bytes@),
{
    if has_regular_frames(bytes) {
        load_rgba(bytes)
    } else {
        None
    }
}

/// Decodes a picture, if there is one.
pub open spec fn decoded_if_any(bytes: Option<Seq<u8>>) -> Option<PictureView> {
    match bytes {
        Some(b) => picture_of(b),
        None => None,
    }
}

/// Decodes a picture, if there is one.
pub fn decode_if_any(bytes: &Option<Vec<u8>>) -> (r: Option<Picture>)
    ensures
        picture_view(r) == decoded_if_any(bytes_view(*bytes)),
{
    match bytes {
        Some(b) => decode_picture(b.as_slice()),
        None => None,
    }
}

/// The first of two pictures that is there.
pub open spec fn first_of(
    first: Option<PictureView>,
    second: Option<PictureView>,
) -> Option<PictureView> {
    if first is Some {
        first
    } else {
        second
    }
}

/// The first of two pictures that is there.
pub fn first_picture(first: Option<Picture>, second: Option<Picture>) -> (r: Option<Picture>)
    ensures
        picture_view(r) == first_of(picture_view(first), picture_view(second)),
        first is Some ==> r == first,
        first is None ==> r == second,
{
    match first {
        Some(picture) => Some(picture),
        None => second,
    }
}

/// The artwork of a track: the embedded picture, or else the cover of its folder, in so far as
/// they can be decoded.
pub open spec fn artwork_of(
    embedded: Option<Seq<u8>>,
    folder_cover: Option<Seq<u8>>,
) -> Option<PictureView> {
    first_of(decoded_if_any(embedded), decoded_if_any(folder_cover))
}

/// The artwork of a track.
pub fn artwork_for_track(meta: &TrackMetadata, folder_cover: &Option<Vec<u8>>) -> (r: Option<
    Picture,
>)
    ensures
        picture_view(r) == artwork_of(meta@.artwork, bytes_view(*folder_cover)),
{
    first_picture(decode_if_any(&meta.artwork), decode_if_any(folder_cover))
}

/// The cover of an album: the one from elsewhere, or else the artwork of its first track. Without
/// a readable track the folder has none of its own.
pub open spec fn album_cover_of(
    entry: AlbumView,
    meta: Option<MetadataView>,
    folder_cover: Option<Seq<u8>>,
) -> Option<PictureView> {
    first_of(
        decoded_if_any(entry.cover_override),
        match meta {
            Some(m) => artwork_of(m.artwork, folder_cover),
            None => None,
        },
    )
}

/// The cover of an album whose first track has the given metadata, where it can be read.
pub fn cover_image_for_album_entry(
    entry: &AlbumEntry,
    meta: &Option<TrackMetadata>,
    folder_cover: &Option<Vec<u8>>,
) -> (r: Option<Picture>)
    ensures
        picture_view(r) == album_cover_of(
            entry@,
            match *meta {
                Some(m) => Some(m@),
                None => None,
            },
            bytes_view(*folder_cover),
        ),
{
    let own = match meta {
        Some(m) => artwork_for_track(m, folder_cover),
        None => None,
    };
    first_picture(decode_if_any(&entry.cover_override), own)
}

/// A cover from elsewhere that can be decoded is shown, whatever lies in the folder.
pub proof fn law_cover_from_elsewhere_wins(
    entry: AlbumView,
    bytes: Seq<u8>,
    meta: Option<MetadataView>,
    folder_cover: Option<Seq<u8>>,
)
    requires
        entry.cover_override == Some(bytes),
        picture_of(bytes) is Some,
    ensures
        album_cover_of(entry, meta, folder_cover) == picture_of(bytes),
{
}

/// An embedded picture that cannot be decoded counts for nothing: the folder's cover is shown as
/// if there were none.
pub proof fn law_broken_artwork_counts_for_nothing(
    embedded: Seq<u8>,
    folder_cover: Option<Seq<u8>>,
)
    requires
        picture_of(embedded) is None,
    ensures
        artwork_of(Some(embedded), folder_cover) == artwork_of(None, folder_cover),
{
}

/// The names of cover files, in the order in which they are tried.
pub open spec fn cover_names_of() -> Seq<Seq<char>> {
    seq![
        "cover.jpg"@,
        "cover.jpeg"@,
        "cover.png"@,
        "folder.jpg"@,
        "folder.jpeg"@,
        "folder.png"@,
    ]
}

/// The names of cover files, in the order in which they are tried.
pub fn cover_names() -> (r: Vec<&'static str>)
    ensures
        r@.map_values(|name: &'static str| name@) == cover_names_of(),
{
    let names: Vec<&'static str> = vec![
        "cover.jpg",
        "cover.jpeg",
        "cover.png",
        "folder.jpg",
        "folder.jpeg",
        "folder.png",
    ];
    assert(names@.map_values(|name: &'static str| name@) =~= cover_names_of());
    names
}

/// Whether a file name, in lower case, is that of a cover.
pub fn is_cover_name(lower_name: &str) -> (r: bool)
    ensures
        r == cover_names_of().contains(lower_name@),
{
    let names = cover_names();
    let ghost wanted = cover_names_of();
    let n: usize = names.len();
    for i in 0..n
        invariant
            n == names@.len(),
            wanted == cover_names_of(),
            wanted == names@.map_values(|name: &'static str| name@),
            forall|k: int| 0 <= k < i ==> #[trigger] wanted[k] != lower_name@,
    {
        let same = same_text(names[i], lower_name);
        assert(wanted[i as int] == names@[i as int]@);
        if same {
            return true;
        }
    }
    false
}

/// Whether something in a folder is a cover: a file with the name of one, whatever its case.
pub open spec fn cover_file(path: Seq<u8>, is_file: bool) -> bool {
    is_file && match file_name_text_of(path) {
        Some(name) => cover_names_of().contains(lowercase_of(name)),
        None => false,
    }
}

/// Whether something in a folder is a cover.
pub fn is_cover_file(path: &[u8], is_file: bool) -> (r: bool)
    ensures
        r == cover_file(path@, is_file),
{
    if !is_file {
        return false;
    }
    match file_name_text(path) {
        Some(name) => is_cover_name(lowercase(name.as_str()).as_str()),
        None => false,
    }
}

/// A file in the folder of a track, and its bytes where they could be read.
#[derive(Debug)]
pub struct FolderItem {
    pub path: Vec<u8>,
    pub is_file: bool,
    pub bytes: Option<Vec<u8>>,
}

/// A file in the folder of a track.
pub struct FolderItemView {
    pub path: Seq<u8>,
    pub is_file: bool,
    pub bytes: Option<Seq<u8>>,
}

impl View for FolderItem {
    type V = FolderItemView;

    open spec fn view(&self) -> FolderItemView {
        FolderItemView {
            path: self.path@,
            is_file: self.is_file,
            bytes: bytes_view(self.bytes),
        }
    }
}

/// The first bytes that could be read.
pub open spec fn first_bytes(found: Seq<Option<Seq<u8>>>) -> Option<Seq<u8>>
    decreases found.len(),
{
    if found.len() == 0 {
        None
    } else if found[0] is Some {
        found[0]
    } else {
        first_bytes(found.skip(1))
    }
}

/// The bytes of an item, if it is a file that could be read.
pub open spec fn file_bytes(item: FolderItemView) -> Option<Seq<u8>> {
    if item.is_file {
        item.bytes
    } else {
        None
    }
}

/// The bytes of an item, if it is a cover that could be read.
pub open spec fn cover_bytes(item: FolderItemView) -> Option<Seq<u8>> {
    if cover_file(item.path, item.is_file) {
        item.bytes
    } else {
        None
    }
}

/// The cover of a folder: the first of the files with the usual names that can be read; without
/// one, the first file of the folder with such a name in any case that can be read.
pub open spec fn folder_cover_of(
    named: Seq<FolderItemView>,
    items: Seq<FolderItemView>,
) -> Option<Seq<u8>> {
    let usual = first_bytes(named.map_values(|item: FolderItemView| file_bytes(item)));
    if usual is Some {
        usual
    } else {
        first_bytes(items.map_values(|item: FolderItemView| cover_bytes(item)))
    }
}

/// The items of a folder.
pub open spec fn folder_items_view(items: Seq<FolderItem>) -> Seq<FolderItemView> {
    items.map_values(|item: FolderItem| item@)
}

proof fn lemma_first_bytes_at(found: Seq<Option<Seq<u8>>>, at: int)
    requires
        0 <= at <= found.len(),
        forall|i: int| 0 <= i < at ==> (#[trigger] found[i]) is None,
        at < found.len() ==> found[at] is Some,
    ensures
        first_bytes(found) == if at < found.len() {
            found[at]
        } else {
            None
        },
    decreases found.len(),
{
    if at > 0 {
        assert(found[0] is None);
        assert forall|i: int| 0 <= i < at - 1 implies (#[trigger] found.skip(1)[i]) is None by {
            assert(found[i + 1] is None);
        }
        lemma_first_bytes_at(found.skip(1), at - 1);
    }
}

/// The cover of a folder. `named` are the files with the usual names, in the order in which they
/// are tried, and `items` are the contents of the folder.
pub fn load_folder_cover_bytes(named: &[FolderItem], items: &[FolderItem]) -> (r: Option<Vec<u8>>)
    ensures
        bytes_view(r) == folder_cover_of(folder_items_view(named@), folder_items_view(items@)),
{
    let ghost usual = folder_items_view(named@).map_values(
        |item: FolderItemView| file_bytes(item),
    );
    let ghost others = folder_items_view(items@).map_values(
        |item: FolderItemView| cover_bytes(item),
    );
    let n: usize = named.len();
    for i in 0..n
        invariant
            n == named@.len(),
            usual == folder_items_view(named@).map_values(|item: FolderItemView| file_bytes(item)),
            others == folder_items_view(items@).map_values(
                |item: FolderItemView| cover_bytes(item),
            ),
            forall|k: int| 0 <= k < i ==> (#[trigger] usual[k]) is None,
    {
        assert(usual[i as int] == file_bytes(named@[i as int]@));
        if named[i].is_file {
            if let Some(bytes) = &named[i].bytes {
                proof {
                    lemma_first_bytes_at(usual, i as int);
                }
                return Some(copy_bytes(bytes.as_slice()));
            }
        }
    }
    proof {
        lemma_first_bytes_at(usual, n as int);
    }
    let m: usize = items.len();
    for i in 0..m
        invariant
            m == items@.len(),
            first_bytes(usual) is None,
            usual == folder_items_view(named@).map_values(|item: FolderItemView| file_bytes(item)),
            others == folder_items_view(items@).map_values(
                |item: FolderItemView| cover_bytes(item),
            ),
            forall|k: int| 0 <= k < i ==> (#[trigger] others[k]) is None,
    {
        assert(others[i as int] == cover_bytes(items@[i as int]@));
        if is_cover_file(items[i].path.as_slice(), items[i].is_file) {
            if let Some(bytes) = &items[i].bytes {
                proof {
                    lemma_first_bytes_at(others, i as int);
                }
                return Some(copy_bytes(bytes.as_slice()));
            }
        }
    }
    proof {
        lemma_first_bytes_at(others, m as int);
    }
    None
}

/// Whether a track has artwork of its own: a picture in its metadata or a cover in its folder.
pub fn had_local_art(meta: &TrackMetadata, folder_cover: &Option<Vec<u8>>) -> (r: bool)
    ensures
        r == (meta@.artwork is Some || folder_cover is Some),
{
    meta.artwork.is_some() || folder_cover.is_some()
}

/// An embedded picture that can be decoded is shown, whatever the folder has; without one the cover
/// of the folder is shown, where that can be decoded; and without either nothing is.
pub proof fn law_embedded_picture_comes_first(
    embedded: Seq<u8>,
    cover: Seq<u8>,
    folder_cover: Option<Seq<u8>>,
)
    ensures
        picture_of(embedded) is Some ==> artwork_of(Some(embedded), folder_cover) == picture_of(
            embedded,
        ),
        picture_of(embedded) is None ==> artwork_of(Some(embedded), Some(cover)) == picture_of(
            cover,
        ),
        artwork_of(None, Some(cover)) == picture_of(cover),
        artwork_of(None, None) is None,
{
}

/// The window shows for a track what its file and its folder hold, by the bytes of the two
/// pictures.
pub proof fn law_track_shows_its_artwork(
    meta: &TrackMetadata,
    folder_cover: &Option<Vec<u8>>,
    r: Option<Picture>,
)
    requires
        call_ensures(artwork_for_track, (meta, folder_cover), r),
    ensures
        meta.artwork matches Some(bytes) ==> (picture_of(bytes@) is Some ==> picture_view(r)
            == picture_of(bytes@)),
        meta.artwork is None ==> (*folder_cover matches Some(bytes) ==> picture_view(r)
            == picture_of(bytes@)),
        meta.artwork is None && *folder_cover is None ==> r is None,
{
}

/// A cover from elsewhere that is missing or cannot be decoded leaves it to the first track: the
/// album then shows what that track does, and nothing where the track cannot be read.
pub proof fn law_album_shows_its_first_track(
    entry: AlbumView,
    meta: MetadataView,
    folder_cover: Option<Seq<u8>>,
)
    requires
        entry.cover_override matches Some(bytes) ==> picture_of(bytes) is None,
    ensures
        album_cover_of(entry, Some(meta), folder_cover) == artwork_of(meta.artwork, folder_cover),
        album_cover_of(entry, None, folder_cover) is None,
{
}

/// Bytes without a frame that the decoder is not written for are decoded as they are; any others
/// are no picture.
pub proof fn law_regular_bytes_are_decoded(bytes: &[u8], r: Option<Picture>)
    requires
        call_ensures(decode_picture, (bytes,), r),
    ensures
        regular_frames(bytes@) ==> picture_view(r) == decoded_picture(bytes@),
        !regular_frames(bytes@) ==> r is None,
{
}

/// The cover of a folder is the first file with a usual name that can be read, in the order in
/// which the names are tried, whatever else the folder holds.
pub proof fn law_usual_names_come_first(
    named: Seq<FolderItemView>,
    items: Seq<FolderItemView>,
    at: int,
    bytes: Seq<u8>,
)
    requires
        0 <= at < named.len(),
        named[at].is_file,
        named[at].bytes == Some(bytes),
        forall|i: int|
            0 <= i < at ==> !(#[trigger] named[i]).is_file || named[i].bytes is None,
    ensures
        folder_cover_of(named, items) == Some(bytes),
{
    let usual = named.map_values(|item: FolderItemView| file_bytes(item));
    assert forall|i: int| 0 <= i < at implies (#[trigger] usual[i]) is None by {
        assert(!named[i].is_file || named[i].bytes is None);
    }
    assert(usual[at] == Some(bytes));
    lemma_first_bytes_at(usual, at);
}

/// Where no file with a usual name can be read, the cover is the first file of the folder that has
/// such a name in any case and can be read; without one there is none.
pub proof fn law_names_in_any_case_come_second(
    named: Seq<FolderItemView>,
    items: Seq<FolderItemView>,
    at: int,
)
    requires
        forall|i: int|
            0 <= i < named.len() ==> !(#[trigger] named[i]).is_file || named[i].bytes is None,
        0 <= at <= items.len(),
        at < items.len() ==> cover_file(items[at].path, items[at].is_file) && items[at].bytes
            is Some,
        forall|i: int|
            0 <= i < at ==> !cover_file((#[trigger] items[i]).path, items[i].is_file)
                || items[i].bytes is None,
    ensures
        folder_cover_of(named, items) == if at < items.len() {
            items[at].bytes
        } else {
            None
        },
{
    let usual = named.map_values(|item: FolderItemView| file_bytes(item));
    let others = items.map_values(|item: FolderItemView| cover_bytes(item));
    assert forall|i: int| 0 <= i < usual.len() implies (#[trigger] usual[i]) is None by {
        assert(!named[i].is_file || named[i].bytes is None);
    }
    lemma_first_bytes_at(usual, usual.len() as int);
    assert forall|i: int| 0 <= i < at implies (#[trigger] others[i]) is None by {
        assert(!cover_file(items[i].path, items[i].is_file) || items[i].bytes is None);
    }
    lemma_first_bytes_at(others, at);
}

/// A cover is a file whose name, in lower case, is "cover" or "folder" with one of three endings;
/// these six names are tried in this order.
pub proof fn law_cover_names_are_these(path: Seq<u8>, is_file: bool, name: Seq<char>)
    requires
        file_name_text_of(path) == Some(name),
    ensures
        cover_file(path, is_file) <==> is_file && {
            ||| lowercase_of(name) == "cover.jpg"@
            ||| lowercase_of(name) == "cover.jpeg"@
            ||| lowercase_of(name) == "cover.png"@
            ||| lowercase_of(name) == "folder.jpg"@
            ||| lowercase_of(name) == "folder.jpeg"@
            ||| lowercase_of(name) == "folder.png"@
        },
        cover_names_of().len() == 6,
        cover_names_of()[0] == "cover.jpg"@,
        cover_names_of()[1] == "cover.jpeg"@,
        cover_names_of()[2] == "cover.png"@,
        cover_names_of()[3] == "folder.jpg"@,
        cover_names_of()[4] == "folder.jpeg"@,
        cover_names_of()[5] == "folder.png"@,
{
    let names = cover_names_of();
    let lower = lowercase_of(name);
    assert(names[0] == "cover.jpg"@ && names[1] == "cover.jpeg"@ && names[2] == "cover.png"@);
    assert(names[3] == "folder.jpg"@ && names[4] == "folder.jpeg"@ && names[5] == "folder.png"@);
    if names.contains(lower) {
        let k = choose|k: int| 0 <= k < names.len() && names[k] == lower;
        assert(k == 0 || k == 1 || k == 2 || k == 3 || k == 4 || k == 5);
    }
}

/// A path without a file name is no cover.
pub proof fn law_nameless_path_is_no_cover(path: Seq<u8>, is_file: bool)
    requires
        file_name_text_of(path) is None,
    ensures
        !cover_file(path, is_file),
{
}

/// A track has artwork of its own exactly where its metadata hold a picture or its folder a cover,
/// whether or not they can be decoded.
pub proof fn law_own_artwork_counts_undecoded(
    meta: &TrackMetadata,
    folder_cover: &Option<Vec<u8>>,
    r: bool,
)
    requires
        call_ensures(had_local_art, (meta, folder_cover), r),
    ensures
        meta.artwork is Some ==> r,
        *folder_cover is Some ==> r,
        meta.artwork is None && *folder_cover is None ==> !r,
{
}

/// The cover of a folder is read from the first file with a usual name that can be read, or else
/// from the first one that has such a name in any case; its bytes are handed on as they are.
pub proof fn law_reading_the_cover_of_a_folder(
    named: &[FolderItem],
    items: &[FolderItem],
    r: Option<Vec<u8>>,
    at: int,
)
    requires
        call_ensures(load_folder_cover_bytes, (named, items), r),
    ensures
        0 <= at < named@.len() && named@[at].is_file && named@[at].bytes is Some && (forall|i: int|
            0 <= i < at ==> !(#[trigger] named@[i]).is_file || named@[i].bytes is None) ==> (
        r matches Some(bytes) && bytes@ == named@[at].bytes->Some_0@),
        (forall|i: int|
            0 <= i < named@.len() ==> !(#[trigger] named@[i]).is_file || named@[i].bytes is None)
            && 0 <= at < items@.len() && cover_file(items@[at].path@, items@[at].is_file)
            && items@[at].bytes is Some && (forall|i: int|
            0 <= i < at ==> !cover_file((#[trigger] items@[i]).path@, items@[i].is_file)
                || items@[i].bytes is None) ==> (r matches Some(bytes) && bytes@
            == items@[at].bytes->Some_0@),
        (forall|i: int|
            0 <= i < named@.len() ==> !(#[trigger] named@[i]).is_file || named@[i].bytes is None)
            && (forall|i: int|
            0 <= i < items@.len() ==> !cover_file((#[trigger] items@[i]).path@, items@[i].is_file)
                || items@[i].bytes is None) ==> r is None,
{
    let usual = folder_items_view(named@);
    let others = folder_items_view(items@);
    assert forall|i: int| 0 <= i < usual.len() implies #[trigger] usual[i] == named@[i]@ by {}
    assert forall|i: int| 0 <= i < others.len() implies #[trigger] others[i] == items@[i]@ by {}
    if 0 <= at < named@.len() && named@[at].is_file && named@[at].bytes is Some && (forall|i: int|
        0 <= i < at ==> !(#[trigger] named@[i]).is_file || named@[i].bytes is None) {
        assert forall|i: int| 0 <= i < at implies !(#[trigger] usual[i]).is_file || usual[i].bytes
            is None by {
            assert(!named@[i].is_file || named@[i].bytes is None);
        }
        law_usual_names_come_first(usual, others, at, named@[at].bytes->Some_0@);
    }
    if forall|i: int|
        0 <= i < named@.len() ==> !(#[trigger] named@[i]).is_file || named@[i].bytes is None {
        assert forall|i: int| 0 <= i < usual.len() implies !(#[trigger] usual[i]).is_file
            || usual[i].bytes is None by {
            assert(!named@[i].is_file || named@[i].bytes is None);
        }
        if 0 <= at < items@.len() && cover_file(items@[at].path@, items@[at].is_file)
            && items@[at].bytes is Some && (forall|i: int|
            0 <= i < at ==> !cover_file((#[trigger] items@[i]).path@, items@[i].is_file)
                || items@[i].bytes is None) {
            assert forall|i: int| 0 <= i < at implies !cover_file(
                (#[trigger] others[i]).path,
                others[i].is_file,
            ) || others[i].bytes is None by {
                assert(!cover_file(items@[i].path@, items@[i].is_file) || items@[i].bytes is None);
            }
            law_names_in_any_case_come_second(usual, others, at);
        }
        if forall|i: int|
            0 <= i < items@.len() ==> !cover_file((#[trigger] items@[i]).path@, items@[i].is_file)
                || items@[i].bytes is None {
            assert forall|i: int| 0 <= i < others.len() implies !cover_file(
                (#[trigger] others[i]).path,
                others[i].is_file,
            ) || others[i].bytes is None by {
                assert(!cover_file(items@[i].path@, items@[i].is_file) || items@[i].bytes is None);
            }
            law_names_in_any_case_come_second(usual, others, others.len() as int);
        }
    }
}

} // verus!
