//! Unix file paths as byte strings: their components, file names and extensions.
use vstd::prelude::*;
use vstd::slice::slice_subrange;

use crate::sorting::{
    key_less, key_view, law_fields_are_compared_where_they_part,
    law_keys_are_compared_by_their_first_difference, law_keys_are_ordered, parts_at, same_key,
};
use crate::text::{copy_bytes, decode_lossy, utf8_lossy};

verus! {

/// The extensions of audio files, in lower case: flac, wav, aiff, aif, m4a and mp3.
pub open spec fn audio_extension(ext: Seq<u8>) -> bool {
    ||| ext == seq![0x66u8, 0x6c, 0x61, 0x63]
    ||| ext == seq![0x77u8, 0x61, 0x76]
    ||| ext == seq![0x61u8, 0x69, 0x66, 0x66]
    ||| ext == seq![0x61u8, 0x69, 0x66]
    ||| ext == seq![0x6du8, 0x34, 0x61]
    ||| ext == seq![0x6du8, 0x70, 0x33]
}

/// The byte strings of a row.
pub open spec fn rows(v: Seq<Vec<u8>>) -> Seq<Seq<u8>> {
    v.map_values(|row: Vec<u8>| row@)
}

/// The parts of a path between slashes, empty ones too.
pub open spec fn segments(path: Seq<u8>) -> Seq<Seq<u8>>
    decreases path.len(),
{
    if path.len() == 0 {
        seq![Seq::empty()]
    } else {
        let before = segments(path.drop_last());
        if path.last() == 0x2f {
            before.push(Seq::empty())
        } else {
            before.drop_last().push(before.last().push(path.last()))
        }
    }
}

/// A component as a sorting field: the root, the current directory, the parent directory, and
/// names by their bytes come in this order.
pub open spec fn component(segment: Seq<u8>) -> Seq<u32> {
    if segment == seq![0x2eu8] {
        seq![1u32]
    } else if segment == seq![0x2eu8, 0x2e] {
        seq![2u32]
    } else {
        seq![3u32] + segment.map_values(|b: u8| b as u32)
    }
}

/// Whether the segment at `i` is a component: empty segments are not, and a single dot is one
/// only at the start of the path.
pub open spec fn is_component(segment: Seq<u8>, i: int) -> bool {
    segment.len() > 0 && (segment != seq![0x2eu8] || i == 0)
}

/// The components among the first `n` segments.
pub open spec fn components_of(parts: Seq<Seq<u8>>, n: nat) -> Seq<Seq<u8>>
    decreases n,
{
    if n == 0 {
        Seq::empty()
    } else {
        let before = components_of(parts, (n - 1) as nat);
        if is_component(parts[n - 1], n - 1) {
            before.push(parts[n - 1])
        } else {
            before
        }
    }
}

/// The components of a path, but for the root.
pub open spec fn path_names(path: Seq<u8>) -> Seq<Seq<u8>> {
    components_of(segments(path), segments(path).len())
}

/// The root, where the path starts with a slash.
pub open spec fn root_fields(path: Seq<u8>) -> Seq<Seq<u32>> {
    if path.len() > 0 && path[0] == 0x2f {
        seq![seq![0u32]]
    } else {
        Seq::empty()
    }
}

/// The components of a path as a sorting key. Two byte strings are the same path exactly where
/// these are the same.
pub open spec fn path_key_of(path: Seq<u8>) -> Seq<Seq<u32>> {
    root_fields(path) + path_names(path).map_values(|name: Seq<u8>| component(name))
}

/// The file name of a path: its last component, where that is a name.
pub open spec fn file_name_of(path: Seq<u8>) -> Option<Seq<u8>> {
    let names = path_names(path);
    if names.len() > 0 && names.last() != seq![0x2eu8] && names.last() != seq![0x2eu8, 0x2e] {
        Some(names.last())
    } else {
        None
    }
}

/// Whether the last dot of a name is at `at`.
pub open spec fn last_dot(name: Seq<u8>, at: int) -> bool {
    &&& 0 <= at < name.len()
    &&& name[at] == 0x2e
    &&& forall|i: int| at < i < name.len() ==> name[i] != 0x2e
}

/// The extension of a file name: what follows its last dot, unless the name starts with that.
pub open spec fn extension_of(name: Seq<u8>) -> Option<Seq<u8>> {
    if exists|at: int| at > 0 && last_dot(name, at) {
        let at = choose|at: int| at > 0 && last_dot(name, at);
        Some(name.skip(at + 1))
    } else {
        None
    }
}

/// One ASCII letter in lower case; any other byte as it is.
pub open spec fn byte_lower(b: u8) -> u8 {
    if 0x41 <= b <= 0x5a {
        (b + 32) as u8
    } else {
        b
    }
}

/// The bytes with ASCII letters in lower case.
pub open spec fn bytes_lower(bytes: Seq<u8>) -> Seq<u8> {
    bytes.map_values(|b: u8| byte_lower(b))
}

/// Whether a path names an audio file: its extension, whatever the case of its letters, is one
/// of those.
pub open spec fn audio_path(path: Seq<u8>) -> bool {
    match file_name_of(path) {
        Some(name) => match extension_of(name) {
            Some(ext) => audio_extension(bytes_lower(ext)),
            None => false,
        },
        None => false,
    }
}

/// The parts of a path between slashes.
fn split_segments(path: &[u8]) -> (r: Vec<Vec<u8>>)
    ensures
        rows(r@) == segments(path@),
{
    let mut done: Vec<Vec<u8>> = Vec::new();
    let mut current: Vec<u8> = Vec::new();
    let n: usize = path.len();
    assert(path@.take(0) =~= Seq::<u8>::empty());
    assert(rows(done@).push(current@) =~= segments(path@.take(0)));
    for i in 0..n
        invariant
            n == path@.len(),
            rows(done@).push(current@) == segments(path@.take(i as int)),
    {
        let ghost before = segments(path@.take(i as int));
        let ghost next = path@.take(i + 1);
        assert(next.drop_last() =~= path@.take(i as int));
        assert(next.last() == path@[i as int]);
        let byte: u8 = path[i];
        if byte == 0x2f {
            let ghost old_done = done@;
            done.push(current);
            current = Vec::new();
            assert(rows(done@) =~= rows(old_done).push(before.last()));
            assert(rows(done@).push(current@) =~= segments(next));
        } else {
            current.push(byte);
            assert(rows(done@) =~= before.drop_last());
            assert(rows(done@).push(current@) =~= segments(next));
        }
    }
    assert(path@.take(n as int) =~= path@);
    let ghost old_done = done@;
    let ghost last = current@;
    done.push(current);
    assert(rows(done@) =~= rows(old_done).push(last));
    done
}

/// Whether the bytes are a single dot.
fn is_dot(bytes: &[u8]) -> (r: bool)
    ensures
        r == (bytes@ == seq![0x2eu8]),
{
    let r = bytes.len() == 1 && bytes[0] == 0x2e;
    proof {
        if r {
            assert(bytes@ =~= seq![0x2eu8]);
        }
    }
    r
}

/// Whether the bytes are two dots.
fn is_dot_dot(bytes: &[u8]) -> (r: bool)
    ensures
        r == (bytes@ == seq![0x2eu8, 0x2e]),
{
    let r = bytes.len() == 2 && bytes[0] == 0x2e && bytes[1] == 0x2e;
    proof {
        if r {
            assert(bytes@ =~= seq![0x2eu8, 0x2e]);
        } else if bytes@ == seq![0x2eu8, 0x2e] {
            assert(bytes@.len() == 2 && bytes@[0] == 0x2e && bytes@[1] == 0x2e);
        }
    }
    r
}

/// The components of a path, but for the root.
pub fn component_names(path: &[u8]) -> (r: Vec<Vec<u8>>)
    ensures
        rows(r@) == path_names(path@),
{
    let parts = split_segments(path);
    let ghost views = segments(path@);
    let mut names: Vec<Vec<u8>> = Vec::new();
    let n: usize = parts.len();
    assert(rows(names@) =~= components_of(views, 0));
    for i in 0..n
        invariant
            n == parts@.len(),
            rows(parts@) == views,
            rows(names@) == components_of(views, i as nat),
    {
        let part = &parts[i];
        assert(views[i as int] == part@);
        if part.len() > 0 && (!is_dot(part.as_slice()) || i == 0) {
            let ghost before = names@;
            let name = copy_bytes(part.as_slice());
            names.push(name);
            assert(rows(names@) =~= rows(before).push(part@));
        }
    }
    names
}

/// A component as a sorting field.
fn component_field(name: &[u8]) -> (r: Vec<u32>)
    ensures
        r@ == component(name@),
{
    let mut field: Vec<u32> = Vec::new();
    if is_dot(name) {
        field.push(1);
        assert(field@ =~= component(name@));
        return field;
    }
    if is_dot_dot(name) {
        field.push(2);
        assert(field@ =~= component(name@));
        return field;
    }
    field.push(3);
    let n: usize = name.len();
    for i in 0..n
        invariant
            n == name@.len(),
            field@ =~= seq![3u32] + name@.take(i as int).map_values(|b: u8| b as u32),
    {
        field.push(name[i] as u32);
    }
    assert(name@.take(n as int) =~= name@);
    field
}

/// The components of a path as a sorting key.
pub fn path_key(path: &[u8]) -> (r: Vec<Vec<u32>>)
    ensures
        key_view(r) == path_key_of(path@),
{
    let names = component_names(path);
    let mut key: Vec<Vec<u32>> = Vec::new();
    if path.len() > 0 && path[0] == 0x2f {
        let mut root: Vec<u32> = Vec::new();
        root.push(0);
        assert(root@ =~= seq![0u32]);
        key.push(root);
    }
    assert(key_view(key) =~= root_fields(path@));
    let n: usize = names.len();
    let ghost fields = path_names(path@).map_values(|name: Seq<u8>| component(name));
    for i in 0..n
        invariant
            n == names@.len(),
            rows(names@) == path_names(path@),
            fields == path_names(path@).map_values(|name: Seq<u8>| component(name)),
            key_view(key) =~= root_fields(path@) + fields.take(i as int),
    {
        let ghost before = key_view(key);
        let field = component_field(names[i].as_slice());
        assert(path_names(path@)[i as int] == names@[i as int]@);
        assert(field@ == fields[i as int]);
        key.push(field);
        assert(key_view(key) =~= before.push(fields[i as int]));
    }
    assert(fields.take(n as int) =~= fields);
    key
}

/// Whether two byte strings are the same path.
pub fn same_path(a: &[u8], b: &[u8]) -> (r: bool)
    ensures
        r == (path_key_of(a@) == path_key_of(b@)),
{
    same_key(&path_key(a), &path_key(b))
}

/// The file name of a path.
pub fn file_name(path: &[u8]) -> (r: Option<Vec<u8>>)
    ensures
        match r {
            Some(name) => file_name_of(path@) == Some(name@),
            None => file_name_of(path@) is None,
        },
{
    let names = component_names(path);
    if names.len() == 0 {
        assert(path_names(path@).len() == 0);
        return None;
    }
    let last = &names[names.len() - 1];
    assert(path_names(path@).last() == last@);
    if is_dot(last.as_slice()) || is_dot_dot(last.as_slice()) {
        return None;
    }
    Some(copy_bytes(last.as_slice()))
}

/// The file name of a path as text; nothing where the path has none.
pub open spec fn file_name_text_of(path: Seq<u8>) -> Option<Seq<char>> {
    match file_name_of(path) {
        Some(name) => Some(utf8_lossy(name)),
        None => None,
    }
}

/// The file name of a path as text.
pub fn file_name_text(path: &[u8]) -> (r: Option<String>)
    ensures
        match r {
            Some(name) => file_name_text_of(path@) == Some(name@),
            None => file_name_text_of(path@) is None,
        },
{
    match file_name(path) {
        Some(name) => Some(decode_lossy(name.as_slice())),
        None => None,
    }
}

/// The extension of a file name.
pub fn extension(name: &[u8]) -> (r: Option<&[u8]>)
    ensures
        match r {
            Some(ext) => extension_of(name@) == Some(ext@),
            None => extension_of(name@) is None,
        },
{
    let n: usize = name.len();
    let mut at: usize = n;
    while at > 0 && name[at - 1] != 0x2e
        invariant
            at <= n,
            n == name@.len(),
            forall|i: int| at <= i < n ==> name@[i] != 0x2e,
        decreases at,
    {
        at = at - 1;
    }
    if at > 1 {
        let ext = slice_subrange(name, at, n);
        proof {
            assert(last_dot(name@, at - 1));
            let found = choose|k: int| k > 0 && last_dot(name@, k);
            assert(found == at - 1);
            assert(ext@ =~= name@.skip(at as int));
        }
        Some(ext)
    } else {
        proof {
            assert forall|k: int| k > 0 implies !last_dot(name@, k) by {}
        }
        None
    }
}

/// Whether the bytes, with ASCII letters in lower case, are `wanted`.
fn matches_lower(bytes: &[u8], wanted: &[u8]) -> (r: bool)
    ensures
        r == (bytes_lower(bytes@) == wanted@),
{
    if bytes.len() != wanted.len() {
        assert(bytes_lower(bytes@).len() != wanted@.len());
        return false;
    }
    let n: usize = bytes.len();
    for i in 0..n
        invariant
            n == bytes@.len(),
            n == wanted@.len(),
            forall|k: int| 0 <= k < i ==> byte_lower(bytes@[k]) == wanted@[k],
    {
        let b: u8 = bytes[i];
        let lower: u8 = if 0x41 <= b && b <= 0x5a {
            b + 32
        } else {
            b
        };
        if lower != wanted[i] {
            assert(bytes_lower(bytes@)[i as int] != wanted@[i as int]);
            return false;
        }
    }
    assert(bytes_lower(bytes@) =~= wanted@);
    true
}

/// Whether a path names an audio file.
pub fn is_audio_file(path: &[u8]) -> (r: bool)
    ensures
        r == audio_path(path@),
{
    let name = match file_name(path) {
        Some(name) => name,
        None => {
            return false;
        },
    };
    match extension(name.as_slice()) {
        None => false,
        Some(ext) => {
            let flac: Vec<u8> = vec![0x66, 0x6c, 0x61, 0x63];
            let wav: Vec<u8> = vec![0x77, 0x61, 0x76];
            let aiff: Vec<u8> = vec![0x61, 0x69, 0x66, 0x66];
            let aif: Vec<u8> = vec![0x61, 0x69, 0x66];
            let m4a: Vec<u8> = vec![0x6d, 0x34, 0x61];
            let mp3: Vec<u8> = vec![0x6d, 0x70, 0x33];
            assert(flac@ =~= seq![0x66u8, 0x6c, 0x61, 0x63]);
            assert(wav@ =~= seq![0x77u8, 0x61, 0x76]);
            assert(aiff@ =~= seq![0x61u8, 0x69, 0x66, 0x66]);
            assert(aif@ =~= seq![0x61u8, 0x69, 0x66]);
            assert(m4a@ =~= seq![0x6du8, 0x34, 0x61]);
            assert(mp3@ =~= seq![0x6du8, 0x70, 0x33]);
            matches_lower(ext, flac.as_slice()) || matches_lower(ext, wav.as_slice())
                || matches_lower(ext, aiff.as_slice()) || matches_lower(ext, aif.as_slice())
                || matches_lower(ext, m4a.as_slice()) || matches_lower(ext, mp3.as_slice())
        },
    }
}

proof fn lemma_lower_segment(segment: Seq<u8>)
    ensures
        bytes_lower(bytes_lower(segment)) == bytes_lower(segment),
        (bytes_lower(segment) == seq![0x2eu8]) == (segment == seq![0x2eu8]),
        (bytes_lower(segment) == seq![0x2eu8, 0x2e]) == (segment == seq![0x2eu8, 0x2e]),
{
    let lower = bytes_lower(segment);
    assert(bytes_lower(lower) =~= lower);
    assert(lower.len() == segment.len());
    if lower == seq![0x2eu8] {
        assert(seq![0x2eu8][0] == 0x2e);
        assert(lower[0] == byte_lower(segment[0]));
        assert(segment =~= seq![0x2eu8]);
    }
    if segment == seq![0x2eu8] {
        assert(lower =~= seq![0x2eu8]);
    }
    if lower == seq![0x2eu8, 0x2e] {
        let dots = seq![0x2eu8, 0x2e];
        assert(dots[0] == 0x2e && dots[1] == 0x2e);
        assert(lower[0] == byte_lower(segment[0]));
        assert(lower[1] == byte_lower(segment[1]));
        assert(segment =~= seq![0x2eu8, 0x2e]);
    }
    if segment == seq![0x2eu8, 0x2e] {
        assert(lower =~= seq![0x2eu8, 0x2e]);
    }
}

proof fn lemma_lower_segments(path: Seq<u8>)
    ensures
        segments(path).len() > 0,
        segments(bytes_lower(path)) == segments(path).map_values(|part: Seq<u8>| bytes_lower(part)),
    decreases path.len(),
{
    let lower = bytes_lower(path);
    let mapped = segments(path).map_values(|part: Seq<u8>| bytes_lower(part));
    if path.len() == 0 {
        assert(lower =~= path);
        assert(bytes_lower(Seq::empty()) =~= Seq::<u8>::empty());
        assert(mapped =~= segments(lower));
    } else {
        lemma_lower_segments(path.drop_last());
        assert(lower.drop_last() =~= bytes_lower(path.drop_last()));
        let before = segments(path.drop_last());
        assert(lower.last() == byte_lower(path.last()));
        if path.last() == 0x2f {
            assert(bytes_lower(Seq::empty()) =~= Seq::<u8>::empty());
            assert(mapped =~= segments(lower));
        } else {
            assert(bytes_lower(before.last().push(path.last())) =~= bytes_lower(
                before.last(),
            ).push(lower.last()));
            assert(mapped =~= segments(lower));
        }
    }
}

proof fn lemma_lower_components(parts: Seq<Seq<u8>>, n: nat)
    requires
        n <= parts.len(),
    ensures
        components_of(parts.map_values(|part: Seq<u8>| bytes_lower(part)), n) == components_of(
            parts,
            n,
        ).map_values(|part: Seq<u8>| bytes_lower(part)),
    decreases n,
{
    let mapped = parts.map_values(|part: Seq<u8>| bytes_lower(part));
    if n == 0 {
        assert(components_of(mapped, n) =~= components_of(parts, n).map_values(
            |part: Seq<u8>| bytes_lower(part),
        ));
    } else {
        lemma_lower_components(parts, (n - 1) as nat);
        lemma_lower_segment(parts[n - 1]);
        assert(mapped[n - 1] == bytes_lower(parts[n - 1]));
        assert(components_of(mapped, n) =~= components_of(parts, n).map_values(
            |part: Seq<u8>| bytes_lower(part),
        ));
    }
}

/// The case of ASCII letters in a path does not decide whether it names an audio file.
pub proof fn law_case_does_not_matter(path: Seq<u8>)
    ensures
        audio_path(bytes_lower(path)) == audio_path(path),
{
    let lower = bytes_lower(path);
    let parts = segments(path);
    lemma_lower_segments(path);
    lemma_lower_components(parts, parts.len());
    let names = path_names(path);
    assert(path_names(lower) == names.map_values(|part: Seq<u8>| bytes_lower(part)));
    if names.len() > 0 {
        let name = names.last();
        let lower_name = bytes_lower(name);
        lemma_lower_segment(name);
        assert(path_names(lower).last() == lower_name);
        assert forall|at: int| last_dot(lower_name, at) == last_dot(name, at) by {
            if last_dot(lower_name, at) {
                assert(byte_lower(name[at]) == 0x2e);
                assert forall|i: int| at < i < name.len() implies name[i] != 0x2e by {
                    assert(lower_name[i] == byte_lower(name[i]));
                }
            }
            if last_dot(name, at) {
                assert(lower_name[at] == byte_lower(name[at]));
                assert forall|i: int| at < i < lower_name.len() implies lower_name[i] != 0x2e by {
                    assert(lower_name[i] == byte_lower(name[i]));
                }
            }
        }
        if exists|at: int| at > 0 && last_dot(name, at) {
            let at = choose|at: int| at > 0 && last_dot(name, at);
            assert(last_dot(lower_name, at));
            let other = choose|k: int| k > 0 && last_dot(lower_name, k);
            assert(other == at);
            assert(lower_name.skip(at + 1) =~= bytes_lower(name.skip(at + 1)));
            lemma_lower_segment(name.skip(at + 1));
        } else {
            assert forall|k: int| k > 0 implies !last_dot(lower_name, k) by {
                assert(!last_dot(name, k));
            }
        }
    }
}

proof fn lemma_segments_not_empty(path: Seq<u8>)
    ensures
        segments(path).len() > 0,
    decreases path.len(),
{
    if path.len() > 0 {
        lemma_segments_not_empty(path.drop_last());
    }
}

proof fn lemma_segments_of_name(name: Seq<u8>)
    requires
        forall|i: int| 0 <= i < name.len() ==> #[trigger] name[i] != 0x2f,
    ensures
        segments(name) == seq![name],
    decreases name.len(),
{
    if name.len() == 0 {
        assert(name =~= Seq::<u8>::empty());
    } else {
        let rest = name.drop_last();
        assert forall|i: int| 0 <= i < rest.len() implies #[trigger] rest[i] != 0x2f by {
            assert(name[i] != 0x2f);
        }
        lemma_segments_of_name(rest);
        assert(name[name.len() - 1] != 0x2f);
        assert(rest.push(name.last()) =~= name);
        assert(segments(name) =~= seq![name]);
    }
}

proof fn lemma_segments_of_child(dir: Seq<u8>, name: Seq<u8>)
    requires
        forall|i: int| 0 <= i < name.len() ==> #[trigger] name[i] != 0x2f,
    ensures
        segments(dir + seq![0x2fu8] + name) == segments(dir).push(name),
    decreases name.len(),
{
    let path = dir + seq![0x2fu8] + name;
    if name.len() == 0 {
        assert(path.drop_last() =~= dir);
        assert(path.last() == 0x2f);
        assert(name =~= Seq::<u8>::empty());
    } else {
        let rest = name.drop_last();
        assert forall|i: int| 0 <= i < rest.len() implies #[trigger] rest[i] != 0x2f by {
            assert(name[i] != 0x2f);
        }
        lemma_segments_of_child(dir, rest);
        assert(path.drop_last() =~= dir + seq![0x2fu8] + rest);
        assert(path.last() == name.last());
        assert(name[name.len() - 1] != 0x2f);
        assert(rest.push(name.last()) =~= name);
        assert(segments(path) =~= segments(dir).push(name));
    }
}

proof fn lemma_components_of_prefix(parts: Seq<Seq<u8>>, more: Seq<Seq<u8>>, n: nat)
    requires
        n <= parts.len(),
    ensures
        components_of(parts + more, n) == components_of(parts, n),
    decreases n,
{
    if n > 0 {
        lemma_components_of_prefix(parts, more, (n - 1) as nat);
    }
}

/// Whether the bytes are an ordinary name: not empty, without a slash, and neither a single dot nor
/// two dots.
pub open spec fn ordinary_name(name: Seq<u8>) -> bool {
    &&& name.len() > 0
    &&& forall|i: int| 0 <= i < name.len() ==> #[trigger] name[i] != 0x2f
    &&& name != seq![0x2eu8]
    &&& name != seq![0x2eu8, 0x2e]
}

/// The components of a path in a folder are those of the folder, and then its name; a slash at the
/// end, or a dot behind it, adds none.
pub proof fn law_path_goes_from_folder_to_name(dir: Seq<u8>, name: Seq<u8>)
    requires
        ordinary_name(name),
    ensures
        path_names(dir + seq![0x2fu8] + name) == path_names(dir).push(name),
        path_names(dir + seq![0x2fu8]) == path_names(dir),
        path_names(dir + seq![0x2fu8, 0x2e]) == path_names(dir),
        path_names(name) == seq![name],
        path_names(Seq::empty()).len() == 0,
{
    let parts = segments(dir);
    let n = parts.len();
    lemma_segments_not_empty(dir);
    lemma_segments_of_child(dir, name);
    lemma_components_of_prefix(parts, seq![name], n);
    assert(parts.push(name) =~= parts + seq![name]);
    assert(components_of(parts.push(name), n + 1) == components_of(parts, n).push(name));
    let nothing = Seq::<u8>::empty();
    lemma_segments_of_child(dir, nothing);
    assert(dir + seq![0x2fu8] + nothing =~= dir + seq![0x2fu8]);
    lemma_components_of_prefix(parts, seq![nothing], n);
    assert(parts.push(nothing) =~= parts + seq![nothing]);
    assert(components_of(parts.push(nothing), n + 1) == components_of(parts, n));
    let dot = seq![0x2eu8];
    lemma_segments_of_child(dir, dot);
    assert(dir + seq![0x2fu8] + dot =~= dir + seq![0x2fu8, 0x2e]);
    lemma_components_of_prefix(parts, seq![dot], n);
    assert(parts.push(dot) =~= parts + seq![dot]);
    assert(components_of(parts.push(dot), n + 1) == components_of(parts, n));
    lemma_segments_of_name(name);
    assert(components_of(seq![name], 0) =~= Seq::<Seq<u8>>::empty());
    assert(components_of(seq![name], 1) =~= seq![name]);
    lemma_segments_of_name(nothing);
    assert(components_of(seq![nothing], 0) =~= Seq::<Seq<u8>>::empty());
    assert(components_of(seq![nothing], 1) =~= Seq::<Seq<u8>>::empty());
}

/// The file name of a path is what stands behind its last slash, whatever the folder, and a slash
/// at the end makes no difference; a path that ends in two dots has none, nor has an empty one.
pub proof fn law_file_name_is_the_last_name(dir: Seq<u8>, name: Seq<u8>)
    requires
        ordinary_name(name),
    ensures
        file_name_of(dir + seq![0x2fu8] + name) == Some(name),
        file_name_of(name) == Some(name),
        file_name_of(dir + seq![0x2fu8]) == file_name_of(dir),
        file_name_of(dir + seq![0x2fu8, 0x2e, 0x2e]) is None,
        file_name_of(Seq::empty()) is None,
{
    law_path_goes_from_folder_to_name(dir, name);
    assert(path_names(dir).push(name).last() == name);
    assert(seq![name].last() == name);
    let up = seq![0x2eu8, 0x2e];
    let parts = segments(dir);
    lemma_segments_not_empty(dir);
    lemma_segments_of_child(dir, up);
    assert(dir + seq![0x2fu8] + up =~= dir + seq![0x2fu8, 0x2e, 0x2e]);
    lemma_components_of_prefix(parts, seq![up], parts.len());
    assert(parts.push(up) =~= parts + seq![up]);
    assert(up != seq![0x2eu8]) by {
        assert(up.len() == 2);
    }
    assert(components_of(parts.push(up), parts.len() + 1) == components_of(
        parts,
        parts.len(),
    ).push(up));
}

/// The extension of a file name is what stands behind its last dot, however many dots stand before
/// that; a name without a dot, or whose only dot is its first byte, has none.
pub proof fn law_extension_is_behind_the_last_dot(stem: Seq<u8>, ext: Seq<u8>)
    requires
        forall|i: int| 0 <= i < ext.len() ==> #[trigger] ext[i] != 0x2e,
    ensures
        stem.len() > 0 ==> extension_of(stem + seq![0x2eu8] + ext) == Some(ext),
        extension_of(seq![0x2eu8] + ext) is None,
        extension_of(ext) is None,
{
    let name = stem + seq![0x2eu8] + ext;
    let n = stem.len() as int;
    if n > 0 {
        assert(name[n] == 0x2e);
        assert forall|i: int| n < i < name.len() implies name[i] != 0x2e by {
            assert(name[i] == ext[i - n - 1]);
        }
        assert(last_dot(name, n));
        let at = choose|at: int| at > 0 && last_dot(name, at);
        assert(at == n) by {
            if at < n {
                assert(name[n] == 0x2e);
            }
            if at > n {
                assert(name[at] != 0x2e);
            }
        }
        assert(name.skip(n + 1) =~= ext);
    }
    let hidden = seq![0x2eu8] + ext;
    assert forall|k: int| k > 0 implies !last_dot(hidden, k) by {
        if 0 < k < hidden.len() {
            assert(hidden[k] == ext[k - 1]);
        }
    }
    assert forall|k: int| k > 0 implies !last_dot(ext, k) by {
        if 0 < k < ext.len() {
            assert(ext[k] != 0x2e);
        }
    }
}

/// The characters that bytes below the middle of their range stand for.
pub open spec fn ascii_chars(bytes: Seq<u8>) -> Seq<char> {
    bytes.map_values(|b: u8| b as char)
}

/// The extensions of audio files are these six, in lower case.
pub proof fn law_audio_extensions_are_these(ext: Seq<u8>)
    ensures
        audio_extension(ext) <==> {
            ||| ascii_chars(ext) == "flac"@
            ||| ascii_chars(ext) == "wav"@
            ||| ascii_chars(ext) == "aiff"@
            ||| ascii_chars(ext) == "aif"@
            ||| ascii_chars(ext) == "m4a"@
            ||| ascii_chars(ext) == "mp3"@
        },
{
    reveal_strlit("flac");
    reveal_strlit("wav");
    reveal_strlit("aiff");
    reveal_strlit("aif");
    reveal_strlit("m4a");
    reveal_strlit("mp3");
    let flac = seq![0x66u8, 0x6c, 0x61, 0x63];
    let wav = seq![0x77u8, 0x61, 0x76];
    let aiff = seq![0x61u8, 0x69, 0x66, 0x66];
    let aif = seq![0x61u8, 0x69, 0x66];
    let m4a = seq![0x6du8, 0x34, 0x61];
    let mp3 = seq![0x6du8, 0x70, 0x33];
    assert(ascii_chars(flac) =~= "flac"@);
    assert(ascii_chars(wav) =~= "wav"@);
    assert(ascii_chars(aiff) =~= "aiff"@);
    assert(ascii_chars(aif) =~= "aif"@);
    assert(ascii_chars(m4a) =~= "m4a"@);
    assert(ascii_chars(mp3) =~= "mp3"@);
    lemma_ascii_chars_injective(ext, flac);
    lemma_ascii_chars_injective(ext, wav);
    lemma_ascii_chars_injective(ext, aiff);
    lemma_ascii_chars_injective(ext, aif);
    lemma_ascii_chars_injective(ext, m4a);
    lemma_ascii_chars_injective(ext, mp3);
}

proof fn lemma_ascii_chars_injective(a: Seq<u8>, b: Seq<u8>)
    ensures
        ascii_chars(a) == ascii_chars(b) <==> a == b,
{
    if ascii_chars(a) == ascii_chars(b) {
        assert(ascii_chars(a).len() == a.len() && ascii_chars(b).len() == b.len());
        assert forall|i: int| 0 <= i < a.len() implies a[i] == b[i] by {
            assert(ascii_chars(a)[i] == a[i] as char);
            assert(ascii_chars(b)[i] == b[i] as char);
            assert((a[i] as char) as u8 == a[i]);
            assert((b[i] as char) as u8 == b[i]);
        }
        assert(a =~= b);
    }
}

/// A file is an audio file by its extension alone, whatever its folder and the rest of its name.
pub proof fn law_audio_file_by_its_extension(dir: Seq<u8>, stem: Seq<u8>, ext: Seq<u8>)
    requires
        stem.len() > 0,
        forall|i: int| 0 <= i < stem.len() ==> #[trigger] stem[i] != 0x2f,
        forall|i: int| 0 <= i < ext.len() ==> #[trigger] ext[i] != 0x2f && ext[i] != 0x2e,
        ext.len() > 0,
    ensures
        audio_path(dir + seq![0x2fu8] + (stem + seq![0x2eu8] + ext)) == audio_extension(
            bytes_lower(ext),
        ),
        audio_path(stem + seq![0x2eu8] + ext) == audio_extension(bytes_lower(ext)),
        !stem.contains(0x2e) ==> !audio_path(dir + seq![0x2fu8] + stem) && !audio_path(stem),
{
    let name = stem + seq![0x2eu8] + ext;
    assert(ordinary_name(name)) by {
        assert forall|i: int| 0 <= i < name.len() implies #[trigger] name[i] != 0x2f by {
            if i < stem.len() {
                assert(stem[i] != 0x2f);
            } else if i > stem.len() {
                assert(ext[i - stem.len() - 1] != 0x2f);
            }
        }
        assert(name.len() >= 3);
    }
    law_file_name_is_the_last_name(dir, name);
    law_extension_is_behind_the_last_dot(stem, ext);
    if !stem.contains(0x2e) {
        assert forall|i: int| 0 <= i < stem.len() implies #[trigger] stem[i] != 0x2e by {
            assert(stem.contains(stem[i]));
        }
        assert(stem != seq![0x2eu8]) by {
            if stem == seq![0x2eu8] {
                assert(stem[0] == 0x2e);
            }
        }
        assert(stem != seq![0x2eu8, 0x2e]) by {
            if stem == seq![0x2eu8, 0x2e] {
                assert(stem[0] == 0x2e);
            }
        }
        law_file_name_is_the_last_name(dir, stem);
        law_extension_is_behind_the_last_dot(seq![0u8], stem);
    }
}

/// Two paths in one folder are the same exactly where their names are, and otherwise they are in
/// the order of their names, by the first byte in which those differ. A slash at the end, or a dot
/// behind it, makes no difference, and a folder comes before what is in it.
pub proof fn law_paths_are_in_the_order_of_their_names(
    dir: Seq<u8>,
    a: Seq<u8>,
    b: Seq<u8>,
    at: int,
)
    requires
        dir.len() > 0,
        ordinary_name(a),
        ordinary_name(b),
        parts_at(a, b, at),
    ensures
        path_key_of(dir + seq![0x2fu8] + a) == path_key_of(dir + seq![0x2fu8] + b) <==> a == b,
        key_less(path_key_of(dir + seq![0x2fu8] + a), path_key_of(dir + seq![0x2fu8] + b)) <==> at
            < b.len() && (at == a.len() || a[at] < b[at]),
        path_key_of(dir + seq![0x2fu8]) == path_key_of(dir),
        path_key_of(dir + seq![0x2fu8, 0x2e]) == path_key_of(dir),
        key_less(path_key_of(dir), path_key_of(dir + seq![0x2fu8] + a)),
{
    law_path_goes_from_folder_to_name(dir, a);
    law_path_goes_from_folder_to_name(dir, b);
    let base = path_key_of(dir);
    let left = path_key_of(dir + seq![0x2fu8] + a);
    let right = path_key_of(dir + seq![0x2fu8] + b);
    assert(root_fields(dir + seq![0x2fu8] + a) == root_fields(dir));
    assert(root_fields(dir + seq![0x2fu8] + b) == root_fields(dir));
    assert(left =~= base.push(component(a)));
    assert(right =~= base.push(component(b)));
    assert(path_key_of(dir + seq![0x2fu8]) =~= base);
    assert(path_key_of(dir + seq![0x2fu8, 0x2e]) =~= base);
    let n = base.len() as int;
    let field_a = component(a);
    let field_b = component(b);
    assert forall|i: int| 0 <= i < at + 1 implies field_a[i] == #[trigger] field_b[i] by {
        if i > 0 {
            assert(a[i - 1] == b[i - 1]);
        }
    }
    assert(parts_at(field_a, field_b, at + 1));
    law_fields_are_compared_where_they_part(field_a, field_b, at + 1);
    assert(left[n] == field_a && right[n] == field_b);
    if a == b {
        law_keys_are_ordered(left, right, left);
    } else {
        assert(field_a != field_b) by {
            if at == a.len() && at == b.len() {
                assert(a =~= b);
            }
            if at < a.len() && at < b.len() {
                assert(field_a[at + 1] == a[at] as u32 && field_b[at + 1] == b[at] as u32);
            } else {
                assert(field_a.len() == a.len() + 1 && field_b.len() == b.len() + 1);
            }
        }
        assert(parts_at(left, right, n));
        law_keys_are_compared_by_their_first_difference(left, right, n);
    }
    assert(parts_at(base, left, n));
    law_keys_are_compared_by_their_first_difference(base, left, n);
}

/// A path from the root is never the same as one that is not, and a path of one name is the same as
/// another exactly where the names are.
pub proof fn law_root_and_names_tell_paths_apart(a: Seq<u8>, b: Seq<u8>)
    requires
        ordinary_name(a),
        ordinary_name(b),
    ensures
        path_key_of(a) == path_key_of(b) <==> a == b,
        path_key_of(seq![0x2fu8] + a) == path_key_of(seq![0x2fu8] + b) <==> a == b,
        path_key_of(seq![0x2fu8] + a) != path_key_of(b),
{
    let nothing = Seq::<u8>::empty();
    law_path_goes_from_folder_to_name(nothing, a);
    law_path_goes_from_folder_to_name(nothing, b);
    assert(nothing + seq![0x2fu8] + a =~= seq![0x2fu8] + a);
    assert(nothing + seq![0x2fu8] + b =~= seq![0x2fu8] + b);
    assert(a[0] != 0x2f && b[0] != 0x2f);
    assert(path_names(nothing).push(a) =~= seq![a]);
    assert(path_names(nothing).push(b) =~= seq![b]);
    assert(path_key_of(a) =~= seq![component(a)]);
    assert(path_key_of(b) =~= seq![component(b)]);
    assert(path_key_of(seq![0x2fu8] + a) =~= seq![seq![0u32], component(a)]);
    assert(path_key_of(seq![0x2fu8] + b) =~= seq![seq![0u32], component(b)]);
    assert(component(a) == component(b) <==> a == b) by {
        if component(a) == component(b) {
            assert(component(a).len() == a.len() + 1 && component(b).len() == b.len() + 1);
            assert forall|i: int| 0 <= i < a.len() implies a[i] == b[i] by {
                assert(component(a)[i + 1] == a[i] as u32);
                assert(component(b)[i + 1] == b[i] as u32);
            }
            assert(a =~= b);
        }
    }
    assert(seq![component(a)][0] == component(a) && seq![component(b)][0] == component(b));
    assert(seq![seq![0u32], component(a)][1] == component(a));
    assert(seq![seq![0u32], component(b)][1] == component(b));
    assert(path_key_of(seq![0x2fu8] + a).len() == 2 && path_key_of(b).len() == 1);
}

/// Two dots are a component of their own, and are not resolved; a dot is one at the start of a path
/// alone.
pub proof fn law_dots_are_kept_as_they_are(dir: Seq<u8>)
    ensures
        path_names(dir + seq![0x2fu8, 0x2e, 0x2e]) == path_names(dir).push(seq![0x2eu8, 0x2e]),
        path_names(seq![0x2eu8]) == seq![seq![0x2eu8]],
        path_names(seq![0x2eu8, 0x2e]) == seq![seq![0x2eu8, 0x2e]],
{
    let up = seq![0x2eu8, 0x2e];
    let dot = seq![0x2eu8];
    let parts = segments(dir);
    lemma_segments_of_child(dir, up);
    assert(dir + seq![0x2fu8] + up =~= dir + seq![0x2fu8, 0x2e, 0x2e]);
    lemma_components_of_prefix(parts, seq![up], parts.len());
    assert(parts.push(up) =~= parts + seq![up]);
    assert(up != dot) by {
        assert(up.len() == 2);
    }
    assert(components_of(parts.push(up), parts.len() + 1) == components_of(
        parts,
        parts.len(),
    ).push(up));
    lemma_segments_of_name(dot);
    assert(components_of(seq![dot], 0) =~= Seq::<Seq<u8>>::empty());
    assert(components_of(seq![dot], 1) =~= seq![dot]);
    lemma_segments_of_name(up);
    assert(components_of(seq![up], 0) =~= Seq::<Seq<u8>>::empty());
    assert(components_of(seq![up], 1) =~= seq![up]);
}

/// Two paths are the same exactly where their components are: a slash more, or one at the end,
/// makes no difference.
pub proof fn law_comparing_paths(a: &[u8], b: &[u8], r: bool)
    requires
        call_ensures(same_path, (a, b), r),
    ensures
        a@ == b@ ==> r,
        b@ == a@ + seq![0x2fu8] && a@.len() > 0 ==> r,
        b@ == a@ + seq![0x2fu8, 0x2e] && a@.len() > 0 ==> r,
        ordinary_name(a@) && ordinary_name(b@) ==> (r <==> a@ == b@),
{
    let name = seq![0x61u8];
    assert(ordinary_name(name)) by {
        assert(name.len() == 1 && name[0] == 0x61);
        if name == seq![0x2eu8] {
            assert(seq![0x2eu8][0] == 0x2e);
        }
        if name == seq![0x2eu8, 0x2e] {
            assert(seq![0x2eu8, 0x2e].len() == 2);
        }
    }
    assert(parts_at(name, name, 1));
    if a@.len() > 0 {
        law_paths_are_in_the_order_of_their_names(a@, name, name, 1);
    }
    if ordinary_name(a@) && ordinary_name(b@) {
        law_root_and_names_tell_paths_apart(a@, b@);
    }
}

} // verus!
