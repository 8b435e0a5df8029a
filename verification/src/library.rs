//! The album library: which folders are albums, what they are called, and the grid that shows
//! them.
use vstd::prelude::*;
use vstd::utf8::char_u32_cast;

use crate::artwork::{
    album_cover_of, cover_image_for_album_entry, picture_view, Picture, PictureView,
};
use crate::file_path::{audio_path, file_name_text, file_name_text_of, path_key, path_key_of};
use crate::metadata::{bytes_view, text_view, MetadataView, TrackMetadata};
use crate::playlist::{
    field_of_text, is_listed, lemma_text_fields_are_ordered, listed, shown_name, text_field,
};
use crate::sorting::{
    field_is_less, field_less, goes_before, is_sorted_order, key_is_less, key_less, key_view,
    keys_view, law_fields_are_ordered, law_keys_are_compared_by_their_first_difference,
    law_keys_are_ordered, law_sorted_order_is_stable, lemma_parting, same_key, sorted_order,
    text_before,
};
use crate::text::{copy_bytes, lowercase, lowercase_of};

verus! {

/// Something in a folder.
#[derive(Debug)]
pub struct DirItem {
    pub path: Vec<u8>,
    pub is_file: bool,
}

/// A folder below the library's root.
#[derive(Debug)]
pub struct LibraryDir {
    pub path: Vec<u8>,
    /// Whether an audio file lies directly in it.
    pub has_audio: bool,
}

/// What was found in an album's folder: the metadata of its first audio file, where there is
/// one that can be read.
#[derive(Debug)]
pub struct AlbumScan {
    pub folder: Vec<u8>,
    pub meta: Option<TrackMetadata>,
}

/// An album.
#[derive(Clone, Debug)]
pub struct AlbumEntry {
    pub folder: Vec<u8>,
    pub title: String,
    pub artist: String,
    /// A cover from elsewhere, shown in place of the folder's own.
    pub cover_override: Option<Vec<u8>>,
}

/// What was found in an album's folder to make its cover from: the metadata of its first track,
/// where that can be read, and the cover that lies there.
#[derive(Debug)]
pub struct CoverSource {
    pub meta: Option<TrackMetadata>,
    pub folder_cover: Option<Vec<u8>>,
}

/// A tile of the album grid. The one without an album has the index -1.
#[derive(Debug)]
pub struct AlbumTile {
    pub title: String,
    pub artist: String,
    pub cover: Option<Picture>,
    pub album_index: i32,
}

/// A row of the album grid.
#[derive(Debug)]
pub struct AlbumRow {
    pub c0: AlbumTile,
    pub c1: AlbumTile,
    pub c2: AlbumTile,
    pub c3: AlbumTile,
}

/// Something in a folder.
pub struct DirItemView {
    pub path: Seq<u8>,
    pub is_file: bool,
}

/// A folder below the library's root.
pub struct LibraryDirView {
    pub path: Seq<u8>,
    pub has_audio: bool,
}

/// What was found in an album's folder.
pub struct AlbumScanView {
    pub folder: Seq<u8>,
    pub meta: Option<MetadataView>,
}

/// An album.
pub struct AlbumView {
    pub folder: Seq<u8>,
    pub title: Seq<char>,
    pub artist: Seq<char>,
    pub cover_override: Option<Seq<u8>>,
}

/// What was found in an album's folder to make its cover from.
pub struct CoverSourceView {
    pub meta: Option<MetadataView>,
    pub folder_cover: Option<Seq<u8>>,
}

/// A tile of the album grid.
pub struct TileView {
    pub title: Seq<char>,
    pub artist: Seq<char>,
    pub cover: Option<PictureView>,
    pub album_index: i32,
}

impl View for DirItem {
    type V = DirItemView;

    open spec fn view(&self) -> DirItemView {
        DirItemView { path: self.path@, is_file: self.is_file }
    }
}

impl View for LibraryDir {
    type V = LibraryDirView;

    open spec fn view(&self) -> LibraryDirView {
        LibraryDirView { path: self.path@, has_audio: self.has_audio }
    }
}

impl View for AlbumScan {
    type V = AlbumScanView;

    open spec fn view(&self) -> AlbumScanView {
        AlbumScanView {
            folder: self.folder@,
            meta: match self.meta {
                Some(meta) => Some(meta@),
                None => None,
            },
        }
    }
}

impl View for AlbumEntry {
    type V = AlbumView;

    open spec fn view(&self) -> AlbumView {
        AlbumView {
            folder: self.folder@,
            title: self.title@,
            artist: self.artist@,
            cover_override: bytes_view(self.cover_override),
        }
    }
}

impl View for AlbumTile {
    type V = TileView;

    open spec fn view(&self) -> TileView {
        TileView {
            title: self.title@,
            artist: self.artist@,
            cover: picture_view(self.cover),
            album_index: self.album_index,
        }
    }
}

impl View for CoverSource {
    type V = CoverSourceView;

    open spec fn view(&self) -> CoverSourceView {
        CoverSourceView {
            meta: match self.meta {
                Some(meta) => Some(meta@),
                None => None,
            },
            folder_cover: bytes_view(self.folder_cover),
        }
    }
}

/// What was found in the folders of albums.
pub open spec fn sources_view(sources: Seq<CoverSource>) -> Seq<CoverSourceView> {
    sources.map_values(|source: CoverSource| source@)
}

/// The items of a folder.
pub open spec fn items_view(items: Seq<DirItem>) -> Seq<DirItemView> {
    items.map_values(|item: DirItem| item@)
}

/// The albums of a library.
pub open spec fn albums_view(albums: Seq<AlbumEntry>) -> Seq<AlbumView> {
    albums.map_values(|album: AlbumEntry| album@)
}

/// Whether an audio file lies directly in the folder.
pub fn has_audio_direct_child(items: &[DirItem]) -> (r: bool)
    ensures
        r == exists|i: int|
            0 <= i < items@.len() && listed((#[trigger] items@[i]).path@, items@[i].is_file),
{
    let n: usize = items.len();
    for i in 0..n
        invariant
            n == items@.len(),
            forall|k: int|
                0 <= k < i ==> !listed((#[trigger] items@[k]).path@, items@[k].is_file),
    {
        if is_listed(items[i].path.as_slice(), items[i].is_file) {
            return true;
        }
    }
    false
}

/// Whether the name at `at` is there and comes first: no other name is smaller, and no equal one
/// stands before.
pub open spec fn earliest(names: Seq<Option<Seq<char>>>, at: int) -> bool {
    &&& 0 <= at < names.len()
    &&& names[at] is Some
    &&& forall|i: int|
        0 <= i < names.len() && i != at && (#[trigger] names[i]) is Some ==> field_less(
            text_field(names[at].unwrap()),
            text_field(names[i].unwrap()),
        ) || names[at] == names[i] && at < i
}

/// The names, where there are any.
pub open spec fn names_view(names: Seq<Option<String>>) -> Seq<Option<Seq<char>>> {
    names.map_values(|name: Option<String>| text_view(name))
}

proof fn lemma_text_field_injective(a: Seq<char>, b: Seq<char>)
    requires
        text_field(a) == text_field(b),
    ensures
        a == b,
{
    assert(a.len() == text_field(a).len());
    assert(b.len() == text_field(b).len());
    assert forall|i: int| 0 <= i < a.len() implies a[i] == b[i] by {
        let left: char = a[i];
        let right: char = b[i];
        assert(text_field(a)[i] == left as u32);
        assert(text_field(b)[i] == right as u32);
        char_u32_cast(left, left as u32);
        char_u32_cast(right, right as u32);
    }
    assert(a =~= b);
}

/// Finds the name that comes first.
pub fn earliest_name(names: &[Option<String>]) -> (r: Option<usize>)
    ensures
        match r {
            Some(at) => earliest(names_view(names@), at as int),
            None => forall|i: int| 0 <= i < names@.len() ==> (#[trigger] names@[i]) is None,
        },
{
    let ghost views = names_view(names@);
    let n: usize = names.len();
    let mut best: Option<usize> = None;
    for i in 0..n
        invariant
            n == names@.len(),
            views == names_view(names@),
            match best {
                Some(at) => at < i && earliest(views.take(i as int), at as int),
                None => forall|k: int| 0 <= k < i ==> (#[trigger] names@[k]) is None,
            },
    {
        assert(views[i as int] == text_view(names@[i as int]));
        assert(views.take(i + 1) =~= views.take(i as int).push(views[i as int]));
        let ghost before = views.take(i as int);
        let ghost now = views.take(i + 1);
        if let Some(name) = &names[i] {
            match best {
                None => {
                    best = Some(i);
                    assert forall|k: int| 0 <= k < i implies (#[trigger] now[k]) is None by {
                        assert(names@[k] is None);
                        assert(views[k] == text_view(names@[k]));
                    }
                },
                Some(at) => {
                    assert(before[at as int] == views[at as int]);
                    assert(views[at as int] == text_view(names@[at as int]));
                    if let Some(chosen) = &names[at] {
                        let new_field = field_of_text(name.as_str());
                        let old_field = field_of_text(chosen.as_str());
                        let smaller = field_is_less(new_field.as_slice(), old_field.as_slice());
                        proof {
                            law_fields_are_ordered(new_field@, old_field@, old_field@);
                            if new_field@ == old_field@ {
                                lemma_text_field_injective(name@, chosen@);
                            }
                        }
                        if smaller {
                            best = Some(i);
                            assert forall|k: int|
                                0 <= k < now.len() && k != i && (#[trigger] now[k]) is Some implies field_less(
                                text_field(now[i as int].unwrap()),
                                text_field(now[k].unwrap()),
                            ) || now[i as int] == now[k] && i < k by {
                                assert(now[k] == before[k]);
                                if k != at {
                                    law_fields_are_ordered(
                                        new_field@,
                                        old_field@,
                                        text_field(now[k].unwrap()),
                                    );
                                }
                            }
                        } else {
                            assert forall|k: int|
                                0 <= k < now.len() && k != at && (#[trigger] now[k]) is Some implies field_less(
                                text_field(now[at as int].unwrap()),
                                text_field(now[k].unwrap()),
                            ) || now[at as int] == now[k] && at < k by {
                                if k < i {
                                    assert(now[k] == before[k]);
                                }
                            }
                        }
                    }
                },
            }
        } else {
            if let Some(at) = best {
                assert forall|k: int|
                    0 <= k < now.len() && k != at && (#[trigger] now[k]) is Some implies field_less(
                    text_field(now[at as int].unwrap()),
                    text_field(now[k].unwrap()),
                ) || now[at as int] == now[k] && at < k by {
                    assert(now[k] == before[k]);
                }
            }
        }
    }
    assert(views.take(n as int) =~= views);
    best
}

/// The name by which an item is found: that of its file in lower case, for audio files only.
pub open spec fn audio_name(item: DirItemView) -> Option<Seq<char>> {
    if listed(item.path, item.is_file) {
        Some(lowercase_of(shown_name(item.path)))
    } else {
        None
    }
}

/// The first audio file of a folder, by file name in lower case.
pub fn first_audio_in_folder(items: &[DirItem]) -> (r: Option<usize>)
    ensures
        match r {
            Some(at) => earliest(
                items_view(items@).map_values(|item: DirItemView| audio_name(item)),
                at as int,
            ),
            None => forall|i: int|
                0 <= i < items@.len() ==> !listed((#[trigger] items@[i]).path@, items@[i].is_file),
        },
{
    let ghost wanted = items_view(items@).map_values(|item: DirItemView| audio_name(item));
    let n: usize = items.len();
    let mut names: Vec<Option<String>> = Vec::new();
    for i in 0..n
        invariant
            n == items@.len(),
            names@.len() == i,
            wanted == items_view(items@).map_values(|item: DirItemView| audio_name(item)),
            forall|k: int|
                0 <= k < i ==> {
                    &&& text_view(#[trigger] names@[k]) == wanted[k]
                    &&& (names@[k] is None <==> !listed(items@[k].path@, items@[k].is_file))
                },
    {
        let item = &items[i];
        assert(items_view(items@)[i as int] == item@);
        let name: Option<String> = if is_listed(item.path.as_slice(), item.is_file) {
            let shown = match file_name_text(item.path.as_slice()) {
                Some(name) => name,
                None => String::new(),
            };
            assert(shown@ =~= shown_name(item.path@));
            Some(lowercase(shown.as_str()))
        } else {
            None
        };
        names.push(name);
    }
    assert(names_view(names@) =~= wanted);
    let found = earliest_name(names.as_slice());
    proof {
        if found is None {
            assert forall|i: int| 0 <= i < items@.len() implies !listed(
                (#[trigger] items@[i]).path@,
                items@[i].is_file,
            ) by {
                assert(names@[i] is None);
            }
        }
    }
    found
}

/// The folders.
pub open spec fn dirs_view(dirs: Seq<LibraryDir>) -> Seq<LibraryDirView> {
    dirs.map_values(|dir: LibraryDir| dir@)
}

/// The sorting keys of paths.
pub open spec fn path_keys(paths: Seq<Vec<u8>>) -> Seq<Seq<Seq<u32>>> {
    paths.map_values(|path: Vec<u8>| path_key_of(path@))
}

/// Whether `at` is a folder with audio, the first one of its path.
pub open spec fn first_audio_dir(dirs: Seq<LibraryDirView>, at: int) -> bool {
    &&& 0 <= at < dirs.len()
    &&& dirs[at].has_audio
    &&& forall|i: int|
        0 <= i < at && (#[trigger] dirs[i]).has_audio ==> path_key_of(dirs[i].path)
            != path_key_of(dirs[at].path)
}

/// Whether `path` is that of a folder with audio, as it was first found.
pub open spec fn audio_dir_path(dirs: Seq<LibraryDirView>, path: Seq<u8>) -> bool {
    exists|d: int| #[trigger] first_audio_dir(dirs, d) && dirs[d].path == path
}

/// Whether `roots` are the folders with audio, each path once, in path order.
pub open spec fn are_album_roots(dirs: Seq<LibraryDirView>, roots: Seq<Vec<u8>>) -> bool {
    &&& forall|i: int, j: int|
        0 <= i < j < roots.len() ==> key_less(
            #[trigger] path_keys(roots)[i],
            #[trigger] path_keys(roots)[j],
        )
    &&& forall|i: int|
        0 <= i < roots.len() ==> audio_dir_path(dirs, (#[trigger] roots[i])@)
    &&& forall|d: int|
        0 <= d < dirs.len() && (#[trigger] dirs[d]).has_audio ==> path_keys(roots).contains(
            path_key_of(dirs[d].path),
        )
}

/// The folders that are albums: those with audio, each path once, in path order.
pub fn discover_album_roots(dirs: &[LibraryDir]) -> (r: Vec<Vec<u8>>)
    ensures
        are_album_roots(dirs_view(dirs@), r@),
{
    let ghost views = dirs_view(dirs@);
    let n: usize = dirs.len();
    let mut roots: Vec<Vec<u8>> = Vec::new();
    for i in 0..n
        invariant
            n == dirs@.len(),
            views == dirs_view(dirs@),
            are_album_roots(views.take(i as int), roots@),
    {
        let ghost before = views.take(i as int);
        let ghost now = views.take(i + 1);
        let ghost old_roots = roots@;
        let ghost old_keys = path_keys(old_roots);
        assert(views[i as int] == dirs@[i as int]@);
        assert(now =~= before.push(views[i as int]));
        assert(now.drop_last() =~= before);
        proof {
            assert forall|d: int| #[trigger] first_audio_dir(before, d) implies first_audio_dir(
                now,
                d,
            ) by {
                assert forall|k: int| 0 <= k < d && (#[trigger] now[k]).has_audio implies path_key_of(
                    now[k].path,
                ) != path_key_of(now[d].path) by {
                    assert(now[k] == before[k]);
                }
            }
        }
        if dirs[i].has_audio {
            let key = path_key(dirs[i].path.as_slice());
            let ghost new_key = path_key_of(dirs@[i as int].path@);
            let mut at: usize = 0;
            let mut other = path_key(dirs[i].path.as_slice());
            let mut found = false;
            while at < roots.len() && !found
                invariant
                    roots@ == old_roots,
                    old_keys == path_keys(old_roots),
                    at <= old_roots.len(),
                    key_view(key) == new_key,
                    forall|k: int| 0 <= k < at ==> key_less(#[trigger] old_keys[k], new_key),
                    found ==> at < old_roots.len() && key_view(other) == old_keys[at as int]
                        && !key_less(old_keys[at as int], new_key),
                decreases (if found { 0int } else { old_roots.len() - at + 1 }),
            {
                other = path_key(roots[at].as_slice());
                assert(old_keys[at as int] == path_key_of(old_roots[at as int]@));
                if key_is_less(&other, &key) {
                    at = at + 1;
                } else {
                    found = true;
                }
            }
            if found && same_key(&other, &key) {
                proof {
                    assert(old_keys[at as int] == new_key);
                    lemma_same_roots(before, now, old_roots, new_key);
                }
            } else {
                let root = copy_bytes(dirs[i].path.as_slice());
                roots.insert(at, root);
                proof {
                    if found {
                        law_keys_are_ordered(old_keys[at as int], new_key, new_key);
                    }
                    lemma_new_root(before, now, old_roots, roots@, at as int);
                }
            }
        } else {
            proof {
                lemma_same_roots(before, now, old_roots, path_key_of(now[i as int].path));
            }
        }
    }
    assert(views.take(n as int) =~= views);
    roots
}

proof fn lemma_same_roots(
    before: Seq<LibraryDirView>,
    now: Seq<LibraryDirView>,
    roots: Seq<Vec<u8>>,
    new_key: Seq<Seq<u32>>,
)
    requires
        are_album_roots(before, roots),
        now.len() == before.len() + 1,
        now.drop_last() == before,
        path_key_of(now.last().path) == new_key,
        now.last().has_audio ==> path_keys(roots).contains(new_key),
        forall|d: int| #[trigger] first_audio_dir(before, d) ==> first_audio_dir(now, d),
    ensures
        are_album_roots(now, roots),
{
    assert forall|i: int| 0 <= i < roots.len() implies audio_dir_path(
        now,
        (#[trigger] roots[i])@,
    ) by {
        assert(audio_dir_path(before, roots[i]@));
        let d = choose|d: int| #[trigger] first_audio_dir(before, d) && before[d].path == roots[i]@;
        assert(first_audio_dir(now, d));
        assert(now[d] == before[d]);
    }
    assert forall|d: int| 0 <= d < now.len() && (#[trigger] now[d]).has_audio implies path_keys(
        roots,
    ).contains(path_key_of(now[d].path)) by {
        if d < before.len() {
            assert(before[d] == now[d]);
        }
    }
}

proof fn lemma_new_root(
    before: Seq<LibraryDirView>,
    now: Seq<LibraryDirView>,
    old_roots: Seq<Vec<u8>>,
    roots: Seq<Vec<u8>>,
    at: int,
)
    requires
        are_album_roots(before, old_roots),
        now.len() == before.len() + 1,
        now.drop_last() == before,
        now.last().has_audio,
        forall|d: int| #[trigger] first_audio_dir(before, d) ==> first_audio_dir(now, d),
        0 <= at <= old_roots.len(),
        roots.len() == old_roots.len() + 1,
        roots[at]@ == now.last().path,
        forall|i: int| 0 <= i < at ==> roots[i] == old_roots[i],
        forall|i: int| at < i < roots.len() ==> roots[i] == old_roots[i - 1],
        forall|k: int|
            0 <= k < at ==> key_less(
                #[trigger] path_keys(old_roots)[k],
                path_key_of(now.last().path),
            ),
        at < old_roots.len() ==> key_less(
            path_key_of(now.last().path),
            path_keys(old_roots)[at],
        ),
    ensures
        are_album_roots(now, roots),
{
    let new_key = path_key_of(now.last().path);
    let old_keys = path_keys(old_roots);
    let keys = path_keys(roots);
    assert(keys[at] == new_key);
    assert forall|i: int| 0 <= i < at implies #[trigger] keys[i] == old_keys[i] by {}
    assert forall|i: int| at < i < roots.len() implies #[trigger] keys[i] == old_keys[i - 1] by {
        assert(roots[i] == old_roots[i - 1]);
    }
    assert forall|k: int| at <= k < old_roots.len() implies key_less(
        new_key,
        #[trigger] old_keys[k],
    ) by {
        if k > at {
            assert(key_less(old_keys[at], old_keys[k]));
            law_keys_are_ordered(new_key, old_keys[at], old_keys[k]);
        }
    }
    assert forall|i: int, j: int| 0 <= i < j < roots.len() implies key_less(
        #[trigger] keys[i],
        #[trigger] keys[j],
    ) by {
        if j == at {
            assert(keys[i] == old_keys[i]);
        } else if i == at {
            assert(keys[j] == old_keys[j - 1]);
        } else {
            let p = if i < at {
                i
            } else {
                i - 1
            };
            let q = if j < at {
                j
            } else {
                j - 1
            };
            assert(key_less(old_keys[p], old_keys[q]));
        }
    }
    // No folder before has the new path, since its key would be among the old ones.
    assert forall|k: int| 0 <= k < old_keys.len() implies #[trigger] old_keys[k] != new_key by {
        law_keys_are_ordered(new_key, new_key, new_key);
        if k < at {
            assert(key_less(old_keys[k], new_key));
        }
    }
    let last = now.len() - 1;
    assert(first_audio_dir(now, last)) by {
        assert forall|i: int| 0 <= i < last && (#[trigger] now[i]).has_audio implies path_key_of(
            now[i].path,
        ) != path_key_of(now[last].path) by {
            assert(before[i] == now[i]);
            assert(old_keys.contains(path_key_of(before[i].path)));
        }
    }
    assert forall|i: int| 0 <= i < roots.len() implies audio_dir_path(
        now,
        (#[trigger] roots[i])@,
    ) by {
        if i == at {
            assert(first_audio_dir(now, last));
        } else {
            let k = if i < at {
                i
            } else {
                i - 1
            };
            assert(roots[i] == old_roots[k]);
            assert(audio_dir_path(before, old_roots[k]@));
            let d = choose|d: int|
                #[trigger] first_audio_dir(before, d) && before[d].path == old_roots[k]@;
            assert(first_audio_dir(now, d));
            assert(now[d] == before[d]);
        }
    }
    assert forall|d: int| 0 <= d < now.len() && (#[trigger] now[d]).has_audio implies keys.contains(
        path_key_of(now[d].path),
    ) by {
        if d < before.len() {
            assert(before[d] == now[d]);
            let wanted = path_key_of(before[d].path);
            assert(old_keys.contains(wanted));
            let k = choose|k: int| 0 <= k < old_keys.len() && old_keys[k] == wanted;
            if k < at {
                assert(keys[k] == wanted);
            } else {
                assert(keys[k + 1] == wanted);
            }
        } else {
            assert(keys[at] == new_key);
        }
    }
}

/// The album of a folder whose file name is given, by the metadata of its first track. It is
/// called after its tags, or else after its folder; its artist is that of the album, or else that
/// of the track.
pub open spec fn named_album(
    folder: Seq<u8>,
    folder_name: Option<Seq<char>>,
    meta: MetadataView,
) -> AlbumView {
    AlbumView {
        folder,
        title: match meta.album {
            Some(album) => album,
            None => match folder_name {
                Some(name) => name,
                None => "Unknown album"@,
            },
        },
        artist: match meta.album_artist {
            Some(artist) => artist,
            None => match meta.artist {
                Some(artist) => artist,
                None => "Unknown artist"@,
            },
        },
        cover_override: None,
    }
}

/// The album of a folder.
pub open spec fn album_of(folder: Seq<u8>, meta: MetadataView) -> AlbumView {
    named_album(folder, file_name_text_of(folder), meta)
}

/// The album of a folder whose file name is given.
pub fn named_album_entry(
    folder: Vec<u8>,
    folder_name: Option<String>,
    meta: &TrackMetadata,
) -> (r: AlbumEntry)
    ensures
        r@ == named_album(folder@, text_view(folder_name), meta@),
{
    let title = match &meta.album {
        Some(album) => album.clone(),
        None => match folder_name {
            Some(name) => name,
            None => "Unknown album".to_string(),
        },
    };
    let artist = match &meta.album_artist {
        Some(artist) => artist.clone(),
        None => match &meta.artist {
            Some(artist) => artist.clone(),
            None => "Unknown artist".to_string(),
        },
    };
    AlbumEntry { folder, title, artist, cover_override: None }
}

/// The albums of the folders whose first track could be read, in the order of the folders.
pub open spec fn scanned_albums(scans: Seq<AlbumScanView>) -> Seq<AlbumView>
    decreases scans.len(),
{
    if scans.len() == 0 {
        Seq::empty()
    } else {
        let before = scanned_albums(scans.drop_last());
        match scans.last().meta {
            Some(meta) => before.push(album_of(scans.last().folder, meta)),
            None => before,
        }
    }
}

/// What was found in the folders.
pub open spec fn scans_view(scans: Seq<AlbumScan>) -> Seq<AlbumScanView> {
    scans.map_values(|scan: AlbumScan| scan@)
}

/// The order of the library: by artist, then by title, both given in lower case.
pub open spec fn album_key_of(lower_artist: Seq<char>, lower_title: Seq<char>) -> Seq<Seq<u32>> {
    seq![text_field(lower_artist), text_field(lower_title)]
}

/// The sorting keys of albums.
pub open spec fn album_keys(albums: Seq<AlbumView>) -> Seq<Seq<Seq<u32>>> {
    albums.map_values(
        |album: AlbumView| album_key_of(lowercase_of(album.artist), lowercase_of(album.title)),
    )
}

/// Whether `sorted` are the albums sorted by the keys, those with the same key as they stood.
pub open spec fn albums_sorted_by(
    albums: Seq<AlbumView>,
    keys: Seq<Seq<Seq<u32>>>,
    sorted: Seq<AlbumView>,
) -> bool {
    exists|order: Seq<usize>|
        #[trigger] is_sorted_order(keys, order) && sorted == order.map_values(
            |i: usize| albums[i as int],
        )
}

/// The sorting key of an album, by its artist and title in lower case.
pub fn album_key(lower_artist: &str, lower_title: &str) -> (r: Vec<Vec<u32>>)
    ensures
        key_view(r) == album_key_of(lower_artist@, lower_title@),
{
    let artist = field_of_text(lower_artist);
    let title = field_of_text(lower_title);
    let mut key: Vec<Vec<u32>> = Vec::new();
    key.push(artist);
    key.push(title);
    assert(key_view(key) =~= album_key_of(lower_artist@, lower_title@));
    key
}

/// A copy of an album.
pub fn copy_album(album: &AlbumEntry) -> (r: AlbumEntry)
    ensures
        r@ == album@,
{
    AlbumEntry {
        folder: copy_bytes(album.folder.as_slice()),
        title: album.title.clone(),
        artist: album.artist.clone(),
        cover_override: match &album.cover_override {
            Some(bytes) => Some(copy_bytes(bytes.as_slice())),
            None => None,
        },
    }
}

/// The albums sorted by the given keys.
pub fn sort_albums_by(albums: &[AlbumEntry], keys: &Vec<Vec<Vec<u32>>>) -> (r: Vec<AlbumEntry>)
    requires
        albums@.len() == keys@.len(),
    ensures
        albums_sorted_by(albums_view(albums@), keys_view(keys@), albums_view(r@)),
{
    let ghost views = albums_view(albums@);
    let n: usize = albums.len();
    let order = sorted_order(keys);
    let mut sorted: Vec<AlbumEntry> = Vec::new();
    for i in 0..n
        invariant
            n == albums@.len(),
            n == keys@.len(),
            n == order@.len(),
            views == albums_view(albums@),
            is_sorted_order(keys_view(keys@), order@),
            albums_view(sorted@) =~= order@.take(i as int).map_values(|k: usize| views[k as int]),
    {
        let ghost before = albums_view(sorted@);
        let at: usize = order[i];
        assert(order@[i as int] < keys_view(keys@).len());
        let album = copy_album(&albums[at]);
        sorted.push(album);
        assert(views[at as int] == albums@[at as int]@);
        assert(albums_view(sorted@) =~= before.push(views[at as int]));
        assert(order@.take(i + 1).map_values(|k: usize| views[k as int]) =~= order@.take(
            i as int,
        ).map_values(|k: usize| views[k as int]).push(views[at as int]));
    }
    assert(order@.take(n as int) =~= order@);
    sorted
}

/// Builds the albums of the library: one for each folder whose first track could be read, sorted
/// by artist and title without regard to case.
pub fn build_album_entries(scans: Vec<AlbumScan>) -> (r: Vec<AlbumEntry>)
    ensures
        albums_sorted_by(
            scanned_albums(scans_view(scans@)),
            album_keys(scanned_albums(scans_view(scans@))),
            albums_view(r@),
        ),
{
    let ghost views = scans_view(scans@);
    let n: usize = scans.len();
    let mut albums: Vec<AlbumEntry> = Vec::new();
    let mut keys: Vec<Vec<Vec<u32>>> = Vec::new();
    for i in 0..n
        invariant
            n == scans@.len(),
            views == scans_view(scans@),
            albums@.len() == keys@.len(),
            albums_view(albums@) =~= scanned_albums(views.take(i as int)),
            keys_view(keys@) =~= album_keys(scanned_albums(views.take(i as int))),
    {
        let scan = &scans[i];
        let ghost now = views.take(i + 1);
        assert(now.drop_last() =~= views.take(i as int));
        assert(now.last() == scan@);
        if let Some(meta) = &scan.meta {
            let ghost old_albums = albums_view(albums@);
            let ghost old_keys = keys_view(keys@);
            let name = file_name_text(scan.folder.as_slice());
            let album = named_album_entry(copy_bytes(scan.folder.as_slice()), name, meta);
            assert(album@ == album_of(scan.folder@, meta@));
            let lower_artist = lowercase(album.artist.as_str());
            let lower_title = lowercase(album.title.as_str());
            let key = album_key(lower_artist.as_str(), lower_title.as_str());
            let ghost shown = album@;
            albums.push(album);
            keys.push(key);
            assert(albums_view(albums@) =~= old_albums.push(shown));
            assert(keys_view(keys@) =~= old_keys.push(
                album_key_of(lowercase_of(shown.artist), lowercase_of(shown.title)),
            ));
        }
    }
    assert(views.take(n as int) =~= views);
    sort_albums_by(albums.as_slice(), &keys)
}

/// The sorting key of an album.
pub open spec fn library_key(album: AlbumView) -> Seq<Seq<u32>> {
    album_key_of(lowercase_of(album.artist), lowercase_of(album.title))
}

/// No album of the library comes, by artist and title without regard to case, before one that
/// stands ahead of it.
pub proof fn law_library_is_sorted(
    albums: Seq<AlbumView>,
    sorted: Seq<AlbumView>,
    i: int,
    j: int,
)
    requires
        albums_sorted_by(albums, album_keys(albums), sorted),
        0 <= i < j < sorted.len(),
    ensures
        !key_less(library_key(sorted[j]), library_key(sorted[i])),
{
    let keys = album_keys(albums);
    let order = choose|order: Seq<usize>|
        #[trigger] is_sorted_order(keys, order) && sorted == order.map_values(
            |i: usize| albums[i as int],
        );
    assert(sorted[i] == albums[order[i] as int]);
    assert(sorted[j] == albums[order[j] as int]);
    assert(order[i] < keys.len() && order[j] < keys.len());
    assert(goes_before(keys, order[i] as int, order[j] as int));
    law_keys_are_ordered(library_key(sorted[i]), library_key(sorted[j]), library_key(sorted[i]));
}

/// Sorting neither adds nor loses an album.
pub proof fn law_library_keeps_every_album(
    albums: Seq<AlbumView>,
    sorted: Seq<AlbumView>,
    album: AlbumView,
)
    requires
        albums.len() <= usize::MAX,
        albums_sorted_by(albums, album_keys(albums), sorted),
    ensures
        sorted.len() == albums.len(),
        sorted.contains(album) == albums.contains(album),
{
    let keys = album_keys(albums);
    let order = choose|order: Seq<usize>|
        #[trigger] is_sorted_order(keys, order) && sorted == order.map_values(
            |i: usize| albums[i as int],
        );
    if sorted.contains(album) {
        let i = choose|i: int| 0 <= i < sorted.len() && sorted[i] == album;
        assert(order[i] < keys.len());
        assert(albums[order[i] as int] == album);
    }
    if albums.contains(album) {
        let k = choose|k: int| 0 <= k < albums.len() && albums[k] == album;
        assert(order.contains(k as usize));
        let i = choose|i: int| 0 <= i < order.len() && order[i] == k as usize;
        assert(sorted[i] == album);
    }
}

/// A tile without an album.
pub open spec fn empty_tile() -> TileView {
    TileView { title: ""@, artist: ""@, cover: None, album_index: (-1) as i32 }
}

/// The tile of an album at `index` that has the given cover.
pub open spec fn covered_tile(
    album: AlbumView,
    cover: Option<PictureView>,
    index: int,
) -> TileView {
    TileView { title: album.title, artist: album.artist, cover, album_index: index as i32 }
}

/// The tile at `index` of the grid: that of the album there, with the cover of that album.
pub open spec fn tile_of(
    albums: Seq<AlbumView>,
    sources: Seq<CoverSourceView>,
    index: int,
) -> TileView {
    if 0 <= index < albums.len() {
        covered_tile(
            albums[index],
            album_cover_of(albums[index], sources[index].meta, sources[index].folder_cover),
            index,
        )
    } else {
        empty_tile()
    }
}

/// A tile without an album.
pub fn empty_album_tile() -> (r: AlbumTile)
    ensures
        r@ == empty_tile(),
{
    AlbumTile {
        title: "".to_string(),
        artist: "".to_string(),
        cover: None,
        album_index: (-1) as i32,
    }
}

/// The tile of an album at `index` that has the given cover.
pub fn covered_album_tile(album: &AlbumEntry, cover: Option<Picture>, index: usize) -> (r:
    AlbumTile)
    ensures
        r@ == covered_tile(album@, picture_view(cover), index as int),
{
    AlbumTile {
        title: album.title.clone(),
        artist: album.artist.clone(),
        cover,
        album_index: #[verifier::truncate] (index as i32),
    }
}

/// The tile `column` places after the tile `first` of the grid.
fn album_tile(
    albums: &[AlbumEntry],
    sources: &[CoverSource],
    first: usize,
    column: usize,
) -> (r: AlbumTile)
    requires
        first < albums@.len(),
        sources@.len() == albums@.len(),
    ensures
        r@ == tile_of(albums_view(albums@), sources_view(sources@), first + column),
{
    if column < albums.len() - first {
        let index: usize = first + column;
        let album = &albums[index];
        let source = &sources[index];
        assert(albums_view(albums@)[index as int] == album@);
        assert(sources_view(sources@)[index as int] == source@);
        let cover = cover_image_for_album_entry(album, &source.meta, &source.folder_cover);
        covered_album_tile(album, cover, index)
    } else {
        empty_album_tile()
    }
}

impl AlbumRow {
    /// Whether this is the row `row` of the grid, four albums to a row.
    pub open spec fn shows(
        self,
        albums: Seq<AlbumView>,
        sources: Seq<CoverSourceView>,
        row: int,
    ) -> bool {
        &&& self.c0@ == tile_of(albums, sources, 4 * row)
        &&& self.c1@ == tile_of(albums, sources, 4 * row + 1)
        &&& self.c2@ == tile_of(albums, sources, 4 * row + 2)
        &&& self.c3@ == tile_of(albums, sources, 4 * row + 3)
    }
}

/// The album grid: the albums in rows of four, each with its cover, the last row filled up with
/// empty tiles. There is one source of a cover for each album.
pub fn album_rows_from_library(albums: &[AlbumEntry], sources: &[CoverSource]) -> (r: Vec<AlbumRow>)
    requires
        sources@.len() == albums@.len(),
    ensures
        r@.len() == (albums@.len() + 3) / 4,
        forall|row: int|
            0 <= row < r@.len() ==> (#[trigger] r@[row]).shows(
                albums_view(albums@),
                sources_view(sources@),
                row,
            ),
{
    let whole: usize = albums.len() / 4;
    let count: usize = if albums.len() % 4 > 0 {
        whole + 1
    } else {
        whole
    };
    let mut rows: Vec<AlbumRow> = Vec::new();
    for row in 0..count
        invariant
            count == (albums@.len() + 3) / 4,
            albums@.len() <= usize::MAX,
            sources@.len() == albums@.len(),
            rows@.len() == row,
            forall|k: int|
                0 <= k < row ==> (#[trigger] rows@[k]).shows(
                    albums_view(albums@),
                    sources_view(sources@),
                    k,
                ),
    {
        let first: usize = 4 * row;
        rows.push(
            AlbumRow {
                c0: album_tile(albums, sources, first, 0),
                c1: album_tile(albums, sources, first, 1),
                c2: album_tile(albums, sources, first, 2),
                c3: album_tile(albums, sources, first, 3),
            },
        );
    }
    rows
}

/// The folder of the album that a tile stands for.
pub fn album_folder(albums: &[AlbumEntry], album_index: i32) -> (r: Option<Vec<u8>>)
    ensures
        match r {
            Some(folder) => 0 <= album_index < albums@.len() && folder@
                == albums@[album_index as int].folder@,
            None => album_index < 0 || album_index >= albums@.len(),
        },
{
    if album_index < 0 {
        return None;
    }
    let index: usize = album_index as usize;
    if index < albums.len() {
        Some(copy_bytes(albums[index].folder.as_slice()))
    } else {
        None
    }
}

/// Opening the tile of an album opens that album's folder: the index that a tile carries is the
/// album's place, in the row and column where the tile stands, and the tile shows that album's
/// title, artist and cover.
pub proof fn law_tile_opens_its_album(
    albums: Seq<AlbumView>,
    sources: Seq<CoverSourceView>,
    row: int,
    column: int,
)
    requires
        0 <= row,
        0 <= column < 4,
        4 * row + column < albums.len() <= i32::MAX,
        sources.len() == albums.len(),
    ensures
        ({
            let index = 4 * row + column;
            let tile = tile_of(albums, sources, index);
            &&& tile.album_index == index
            &&& tile.title == albums[index].title
            &&& tile.artist == albums[index].artist
            &&& tile.cover == album_cover_of(
                albums[index],
                sources[index].meta,
                sources[index].folder_cover,
            )
            &&& row < (albums.len() + 3) / 4
        }),
{
}

proof fn lemma_library_keys_are_ordered(a: AlbumView, b: AlbumView)
    ensures
        key_less(library_key(a), library_key(b)) <==> {
            ||| text_before(lowercase_of(a.artist), lowercase_of(b.artist))
            ||| lowercase_of(a.artist) == lowercase_of(b.artist) && text_before(
                lowercase_of(a.title),
                lowercase_of(b.title),
            )
        },
        library_key(a) == library_key(b) <==> lowercase_of(a.artist) == lowercase_of(b.artist)
            && lowercase_of(a.title) == lowercase_of(b.title),
{
    let left = library_key(a);
    let right = library_key(b);
    lemma_text_fields_are_ordered(lowercase_of(a.artist), lowercase_of(b.artist));
    lemma_text_fields_are_ordered(lowercase_of(a.title), lowercase_of(b.title));
    assert(left[0] == text_field(lowercase_of(a.artist)));
    assert(left[1] == text_field(lowercase_of(a.title)));
    assert(right[0] == text_field(lowercase_of(b.artist)));
    assert(right[1] == text_field(lowercase_of(b.title)));
    law_fields_are_ordered(left[0], right[0], left[0]);
    law_fields_are_ordered(left[1], right[1], left[1]);
    let at = lemma_parting(left, right);
    law_keys_are_compared_by_their_first_difference(left, right, at);
    if at >= 1 {
        assert(left[0] == right[0]);
    }
    if at == 2 {
        assert(left[1] == right[1]);
        assert(left =~= right);
    }
    law_fields_are_ordered(left[0], left[0], left[0]);
    law_fields_are_ordered(left[1], left[1], left[1]);
}

/// Of two albums of the library the later has the artist that comes later, in lower case; or the
/// same, and a title that does not come before that of the earlier one, in lower case.
pub proof fn law_library_is_sorted_by_artist_and_title(
    albums: Seq<AlbumView>,
    sorted: Seq<AlbumView>,
    i: int,
    j: int,
)
    requires
        albums_sorted_by(albums, album_keys(albums), sorted),
        0 <= i < j < sorted.len(),
    ensures
        ({
            let artist_i = lowercase_of(sorted[i].artist);
            let artist_j = lowercase_of(sorted[j].artist);
            ||| text_before(artist_i, artist_j)
            ||| artist_i == artist_j && !text_before(
                lowercase_of(sorted[j].title),
                lowercase_of(sorted[i].title),
            )
        }),
{
    law_library_is_sorted(albums, sorted, i, j);
    lemma_library_keys_are_ordered(sorted[j], sorted[i]);
    let artist_i = lowercase_of(sorted[i].artist);
    let artist_j = lowercase_of(sorted[j].artist);
    lemma_text_fields_are_ordered(artist_i, artist_j);
    lemma_text_fields_are_ordered(artist_j, artist_i);
    law_fields_are_ordered(text_field(artist_i), text_field(artist_j), text_field(artist_i));
}

/// Every album is in the library once, and two of the same artist and title, in lower case, stand
/// as they stood.
pub proof fn law_library_keeps_albums_of_the_same_name_in_order(
    albums: Seq<AlbumView>,
    sorted: Seq<AlbumView>,
) -> (places: Seq<int>)
    requires
        albums.len() <= usize::MAX,
        albums_sorted_by(albums, album_keys(albums), sorted),
    ensures
        sorted.len() == albums.len(),
        places.len() == albums.len(),
        forall|k: int|
            0 <= k < albums.len() ==> 0 <= #[trigger] places[k] < sorted.len() && sorted[places[k]]
                == albums[k],
        forall|k: int, m: int|
            0 <= k < m < albums.len() ==> #[trigger] places[k] != #[trigger] places[m],
        forall|k: int, m: int|
            0 <= k < m < albums.len() && lowercase_of(albums[k].artist) == lowercase_of(
                albums[m].artist,
            ) && lowercase_of(albums[k].title) == lowercase_of(albums[m].title)
                ==> #[trigger] places[k] < #[trigger] places[m],
{
    let keys = album_keys(albums);
    let order = choose|order: Seq<usize>|
        #[trigger] is_sorted_order(keys, order) && sorted == order.map_values(
            |i: usize| albums[i as int],
        );
    let places = Seq::new(
        albums.len(),
        |k: int| choose|i: int| 0 <= i < order.len() && order[i] == k as usize,
    );
    assert forall|k: int| 0 <= k < albums.len() implies 0 <= #[trigger] places[k] < sorted.len()
        && sorted[places[k]] == albums[k] && order[places[k]] == k as usize by {
        assert(order.contains(k as usize));
    }
    assert forall|k: int, m: int|
        0 <= k < m < albums.len() && lowercase_of(albums[k].artist) == lowercase_of(
            albums[m].artist,
        ) && lowercase_of(albums[k].title) == lowercase_of(
            albums[m].title,
        ) implies #[trigger] places[k] < #[trigger] places[m] by {
        assert(order[places[k]] == k as usize && order[places[m]] == m as usize);
        lemma_library_keys_are_ordered(albums[k], albums[m]);
        if places[m] < places[k] {
            law_sorted_order_is_stable(keys, order, places[m], places[k]);
        }
    }
    assert forall|k: int, m: int| 0 <= k < m < albums.len() implies #[trigger] places[k]
        != #[trigger] places[m] by {
        assert(order[places[k]] == k as usize && order[places[m]] == m as usize);
    }
    places
}

/// An album is called after its own tag, whatever its folder is called, or else after its folder;
/// its artist is that of the album, whatever that of the track, or else that of the track. Each of
/// the two is found on its own. It has no cover from elsewhere at first.
pub proof fn law_album_is_called_after_its_tags(folder: Seq<u8>, meta: MetadataView)
    ensures
        ({
            let album = album_of(folder, meta);
            &&& album.folder == folder
            &&& album.cover_override is None
            &&& meta.album matches Some(title) ==> album.title == title
            &&& meta.album is None ==> (file_name_text_of(folder) matches Some(name) ==> album.title
                == name)
            &&& meta.album is None && file_name_text_of(folder) is None ==> album.title
                == "Unknown album"@
            &&& meta.album_artist matches Some(artist) ==> album.artist == artist
            &&& meta.album_artist is None ==> (meta.artist matches Some(artist) ==> album.artist
                == artist)
            &&& meta.album_artist is None && meta.artist is None ==> album.artist
                == "Unknown artist"@
        }),
{
}

/// Every folder whose first track could be read is an album, in the order of the folders, and no
/// other is: one more folder adds its album at the end, or nothing.
pub proof fn law_readable_folders_are_albums(scans: Seq<AlbumScanView>, scan: AlbumScanView)
    ensures
        scanned_albums(Seq::empty()).len() == 0,
        scan.meta matches Some(meta) ==> scanned_albums(scans.push(scan)) == scanned_albums(
            scans,
        ).push(album_of(scan.folder, meta)),
        scan.meta is None ==> scanned_albums(scans.push(scan)) == scanned_albums(scans),
{
    assert(scans.push(scan).drop_last() =~= scans);
}

/// The first audio file of a folder is an audio file, and no other audio file has a name that comes
/// before its own, in lower case; of those with the same name it is the first. There is one exactly
/// where the folder has an audio file.
pub proof fn law_first_audio_file_comes_first_by_name(
    items: &[DirItem],
    r: Option<usize>,
    i: int,
)
    requires
        call_ensures(first_audio_in_folder, (items,), r),
        0 <= i < items@.len(),
        items@[i].is_file,
        audio_path(items@[i].path@),
    ensures
        r matches Some(at) && {
            &&& at < items@.len()
            &&& items@[at as int].is_file
            &&& audio_path(items@[at as int].path@)
            &&& !text_before(
                lowercase_of(shown_name(items@[i].path@)),
                lowercase_of(shown_name(items@[at as int].path@)),
            )
            &&& lowercase_of(shown_name(items@[i].path@)) == lowercase_of(
                shown_name(items@[at as int].path@),
            ) ==> at <= i
        },
{
    let names = items_view(items@).map_values(|item: DirItemView| audio_name(item));
    assert(items_view(items@)[i] == items@[i]@);
    assert(names[i] == audio_name(items@[i]@));
    assert(listed(items@[i].path@, items@[i].is_file));
    let at = r->Some_0 as int;
    assert(items_view(items@)[at] == items@[at]@);
    assert(names[at] == audio_name(items@[at]@));
    if at != i {
        assert(names[i] is Some);
        let first = names[at].unwrap();
        let other = names[i].unwrap();
        lemma_text_fields_are_ordered(other, first);
        lemma_text_fields_are_ordered(first, other);
        law_fields_are_ordered(text_field(first), text_field(other), text_field(first));
    } else {
        let first = names[at].unwrap();
        lemma_text_fields_are_ordered(first, first);
        law_fields_are_ordered(text_field(first), text_field(first), text_field(first));
    }
}

/// A folder without an audio file has no first one, and counts as none that holds audio; any other
/// counts as one.
pub proof fn law_folder_without_audio(items: &[DirItem], r: Option<usize>, has: bool)
    requires
        call_ensures(first_audio_in_folder, (items,), r),
        call_ensures(has_audio_direct_child, (items,), has),
    ensures
        r is Some <==> has,
        has <==> exists|i: int|
            0 <= i < items@.len() && (#[trigger] items@[i]).is_file && audio_path(items@[i].path@),
{
    if has {
        let i = choose|i: int|
            0 <= i < items@.len() && listed((#[trigger] items@[i]).path@, items@[i].is_file);
        assert(items@[i].is_file && audio_path(items@[i].path@));
    }
    if exists|i: int|
        0 <= i < items@.len() && (#[trigger] items@[i]).is_file && audio_path(items@[i].path@) {
        let i = choose|i: int|
            0 <= i < items@.len() && (#[trigger] items@[i]).is_file && audio_path(items@[i].path@);
        assert(listed(items@[i].path@, items@[i].is_file));
    }
    if let Some(at) = r {
        let names = items_view(items@).map_values(|item: DirItemView| audio_name(item));
        assert(items_view(items@)[at as int] == items@[at as int]@);
        assert(names[at as int] == audio_name(items@[at as int]@));
        assert(listed(items@[at as int].path@, items@[at as int].is_file));
    }
}

/// Every folder with audio is an album root, under its path; every root is such a folder; and the
/// roots are in the order of their paths, none twice.
pub proof fn law_album_roots_are_the_folders_with_audio(
    dirs: &[LibraryDir],
    roots: Vec<Vec<u8>>,
    d: int,
    i: int,
    j: int,
)
    requires
        call_ensures(discover_album_roots, (dirs,), roots),
        0 <= d < dirs@.len(),
        0 <= i < roots@.len(),
    ensures
        dirs@[d].has_audio ==> exists|k: int|
            0 <= k < roots@.len() && path_key_of((#[trigger] roots@[k])@) == path_key_of(
                dirs@[d].path@,
            ),
        exists|k: int|
            0 <= k < dirs@.len() && (#[trigger] dirs@[k]).has_audio && dirs@[k].path@ == roots@[i]@,
        i < j < roots@.len() ==> key_less(path_key_of(roots@[i]@), path_key_of(roots@[j]@))
            && path_key_of(roots@[i]@) != path_key_of(roots@[j]@),
{
    let views = dirs_view(dirs@);
    let keys = path_keys(roots@);
    assert(views[d] == dirs@[d]@);
    if dirs@[d].has_audio {
        assert(views[d].has_audio);
        assert(keys.contains(path_key_of(views[d].path)));
        let k = choose|k: int| 0 <= k < keys.len() && keys[k] == path_key_of(views[d].path);
        assert(path_key_of(roots@[k]@) == path_key_of(dirs@[d].path@));
    }
    assert(audio_dir_path(views, roots@[i]@));
    let k = choose|k: int| #[trigger] first_audio_dir(views, k) && views[k].path == roots@[i]@;
    assert(views[k] == dirs@[k]@);
    assert(dirs@[k].has_audio);
    if i < j < roots@.len() {
        assert(keys[i] == path_key_of(roots@[i]@) && keys[j] == path_key_of(roots@[j]@));
        assert(key_less(keys[i], keys[j]));
        law_keys_are_ordered(keys[i], keys[i], keys[i]);
    }
}

/// The grid has a tile for every album, four to a row: the one at the place of the album, with its
/// title, its artist and its cover. Tiles behind the last album are blank and have no album.
pub proof fn law_grid_shows_every_album(
    albums: &[AlbumEntry],
    sources: &[CoverSource],
    rows: Vec<AlbumRow>,
    index: int,
    tile: AlbumTile,
)
    requires
        call_ensures(album_rows_from_library, (albums, sources), rows),
        0 <= index < 4 * rows@.len(),
        sources@.len() == albums@.len() <= i32::MAX,
        tile == if index % 4 == 0 {
            rows@[index / 4].c0
        } else if index % 4 == 1 {
            rows@[index / 4].c1
        } else if index % 4 == 2 {
            rows@[index / 4].c2
        } else {
            rows@[index / 4].c3
        },
    ensures
        albums@.len() <= 4 * rows@.len() < albums@.len() + 4,
        index < albums@.len() ==> {
            &&& tile.album_index == index
            &&& tile.title@ == albums@[index].title@
            &&& tile.artist@ == albums@[index].artist@
            &&& picture_view(tile.cover) == album_cover_of(
                albums@[index]@,
                sources@[index]@.meta,
                sources@[index]@.folder_cover,
            )
        },
        index >= albums@.len() ==> {
            &&& tile.album_index == -1
            &&& tile.title@.len() == 0
            &&& tile.artist@.len() == 0
            &&& tile.cover is None
        },
{
    let views = albums_view(albums@);
    let row = index / 4;
    reveal_strlit("");
    assert(rows@[row].shows(views, sources_view(sources@), row));
    assert(tile@ == tile_of(views, sources_view(sources@), index));
    if index < albums@.len() {
        assert(views[index] == albums@[index]@);
        assert(sources_view(sources@)[index] == sources@[index]@);
    }
}

/// A tile opens the folder of its album, and one without an album opens none.
pub proof fn law_tile_index_opens_the_folder(
    albums: &[AlbumEntry],
    album_index: i32,
    r: Option<Vec<u8>>,
)
    requires
        call_ensures(album_folder, (albums, album_index), r),
    ensures
        0 <= album_index < albums@.len() ==> (r matches Some(folder) && folder@
            == albums@[album_index as int].folder@),
        album_index < 0 || album_index >= albums@.len() ==> r is None,
{
}

/// The albums of the library are those of the folders whose first track could be read, each once;
/// of two the later has the artist that comes later, in lower case, or the same and a title that
/// does not come before that of the earlier.
pub proof fn law_building_the_library(
    scans: Vec<AlbumScan>,
    r: Vec<AlbumEntry>,
    k: int,
    i: int,
    j: int,
)
    requires
        call_ensures(build_album_entries, (scans,), r),
        0 <= k < scans@.len(),
        scans@.len() <= usize::MAX,
        0 <= i < j < r@.len(),
    ensures
        r@.len() <= scans@.len(),
        scans@[k].meta matches Some(meta) ==> albums_view(r@).contains(
            album_of(scans@[k].folder@, meta@),
        ),
        ({
            let artist_i = lowercase_of(r@[i].artist@);
            let artist_j = lowercase_of(r@[j].artist@);
            ||| text_before(artist_i, artist_j)
            ||| artist_i == artist_j && !text_before(
                lowercase_of(r@[j].title@),
                lowercase_of(r@[i].title@),
            )
        }),
{
    let views = scans_view(scans@);
    let albums = scanned_albums(views);
    let sorted = albums_view(r@);
    assert(sorted[i] == r@[i]@ && sorted[j] == r@[j]@);
    lemma_scanned_albums(views, k);
    law_library_is_sorted_by_artist_and_title(albums, sorted, i, j);
    assert(views[k] == scans@[k]@);
    if let Some(meta) = scans@[k].meta {
        law_library_keeps_every_album(albums, sorted, album_of(scans@[k].folder@, meta@));
    } else {
        law_library_keeps_every_album(albums, sorted, sorted[i]);
    }
}

proof fn lemma_scanned_albums(scans: Seq<AlbumScanView>, k: int)
    requires
        0 <= k < scans.len(),
    ensures
        scanned_albums(scans).len() <= scans.len(),
        scans[k].meta matches Some(meta) ==> scanned_albums(scans).contains(
            album_of(scans[k].folder, meta),
        ),
    decreases scans.len(),
{
    let rest = scans.drop_last();
    let before = scanned_albums(rest);
    let all = scanned_albums(scans);
    if rest.len() > 0 {
        lemma_scanned_albums(
            rest,
            if k < rest.len() {
                k
            } else {
                0
            },
        );
    }
    if let Some(meta) = scans[k].meta {
        let album = album_of(scans[k].folder, meta);
        if k == rest.len() {
            assert(all[before.len() as int] == album);
        } else {
            assert(rest[k] == scans[k]);
            let e = choose|e: int| 0 <= e < before.len() && before[e] == album;
            assert(all[e] == album);
        }
    }
}

} // verus!
