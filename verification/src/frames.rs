//! Which encoded pictures are handed to the picture decoder.
//!
//! The decoder takes JPEG, PNG and WebP files. It may panic on some JPEG and WebP data, so such
//! data is found here and never handed on.
//! - A JPEG frame header names the components of a picture, each with a sampling factor across and
//!   one down. The decoder is written for the usual layouts, where the first component is sampled
//!   most finely and no factor is above two.
//! - Of a WebP file the decoder does not check everything that it relies on: not the code tables
//!   of lossless data, of which alpha planes are made too, nor the sizes of the frames of an
//!   animation. A plain picture has none of these.
use vstd::prelude::*;

verus! {

/// The two bytes at a place, the high one first.
pub open spec fn word_at(bytes: Seq<u8>, at: int) -> int {
    bytes[at] * 256 + bytes[at + 1]
}

/// Whether a frame header that a decoder takes stands at a place: the marker of a baseline,
/// extended or progressive frame, a length that fits the number of components, samples of eight
/// bits, and all of its components.
pub open spec fn frame_at(bytes: Seq<u8>, at: int) -> bool {
    &&& 0 <= at
    &&& at + 10 <= bytes.len()
    &&& bytes[at] == 0xff
    &&& 0xc0 <= bytes[at + 1] <= 0xc2
    &&& word_at(bytes, at + 2) == 8 + 3 * bytes[at + 9]
    &&& bytes[at + 4] == 8
    &&& at + 10 + 3 * bytes[at + 9] <= bytes.len()
}

/// The sampling factor across of a component of the frame at a place.
pub open spec fn factor_across(bytes: Seq<u8>, at: int, component: int) -> int {
    bytes[at + 11 + 3 * component] as int / 16
}

/// The sampling factor down of a component of the frame at a place.
pub open spec fn factor_down(bytes: Seq<u8>, at: int, component: int) -> int {
    bytes[at + 11 + 3 * component] as int % 16
}

/// Whether an Adobe segment, which says how colours are stored, stands at a place: its marker, a
/// length, and `Adobe`.
pub open spec fn adobe_at(bytes: Seq<u8>, at: int) -> bool {
    &&& 0 <= at
    &&& at + 9 <= bytes.len()
    &&& bytes[at] == 0xff
    &&& bytes[at + 1] == 0xee
    &&& bytes[at + 4] == 0x41
    &&& bytes[at + 5] == 0x64
    &&& bytes[at + 6] == 0x6f
    &&& bytes[at + 7] == 0x62
    &&& bytes[at + 8] == 0x65
}

/// Whether a component of the frame at a place is sampled no more finely than the first one.
pub open spec fn fits_first(bytes: Seq<u8>, at: int, component: int) -> bool {
    &&& factor_across(bytes, at, component) <= factor_across(bytes, at, 0)
    &&& factor_down(bytes, at, component) <= factor_down(bytes, at, 0)
}

/// Whether the frame at a place is one of the usual layouts.
/// - It has one, three or four components.
/// - The first has the largest factors in both directions, and none is above two.
/// - With one component, the picture is at most 65528 pixels wide and high.
/// - With one or four components, no Adobe segment comes later, which would give them other
///   colours than the frame was laid out for.
pub open spec fn regular_frame(bytes: Seq<u8>, at: int) -> bool {
    let count = bytes[at + 9];
    &&& count == 1 || count == 3 || count == 4
    &&& factor_across(bytes, at, 0) <= 2
    &&& factor_down(bytes, at, 0) <= 2
    &&& forall|component: int|
        0 <= component < count ==> #[trigger] fits_first(bytes, at, component)
    &&& count == 1 ==> word_at(bytes, at + 5) <= 65528 && word_at(bytes, at + 7) <= 65528
    &&& count != 3 ==> forall|later: int| later > at ==> !#[trigger] adobe_at(bytes, later)
}

/// Whether every JPEG frame header in the bytes is one of the usual layouts, wherever it stands and
/// whatever the bytes start with.
pub open spec fn regular_jpeg(bytes: Seq<u8>) -> bool {
    forall|at: int| #[trigger] frame_at(bytes, at) ==> regular_frame(bytes, at)
}

/// Whether four given bytes stand at a place.
pub open spec fn four_at(bytes: Seq<u8>, at: int, a: u8, b: u8, c: u8, d: u8) -> bool {
    &&& 0 <= at
    &&& at + 4 <= bytes.len()
    &&& bytes[at] == a
    &&& bytes[at + 1] == b
    &&& bytes[at + 2] == c
    &&& bytes[at + 3] == d
}

/// Whether the bytes start as a WebP file does: `RIFF`, a size, and `WEBP`.
pub open spec fn webp_file(bytes: Seq<u8>) -> bool {
    four_at(bytes, 0, 0x52, 0x49, 0x46, 0x46) && four_at(bytes, 8, 0x57, 0x45, 0x42, 0x50)
}

/// Whether a chunk that a plain WebP picture has not may stand at a place: lossless data (`VP8L`),
/// an alpha plane (`ALPH`) or a frame of an animation (`ANMF`).
pub open spec fn special_chunk_at(bytes: Seq<u8>, at: int) -> bool {
    ||| four_at(bytes, at, 0x56, 0x50, 0x38, 0x4c)
    ||| four_at(bytes, at, 0x41, 0x4c, 0x50, 0x48)
    ||| four_at(bytes, at, 0x41, 0x4e, 0x4d, 0x46)
}

/// Whether a WebP file, if the bytes are one, holds a plain picture.
pub open spec fn regular_webp(bytes: Seq<u8>) -> bool {
    webp_file(bytes) ==> forall|at: int| !#[trigger] special_chunk_at(bytes, at)
}

/// Whether the bytes hold no frame that the picture decoder is not written for.
pub open spec fn regular_frames(bytes: Seq<u8>) -> bool {
    regular_jpeg(bytes) && regular_webp(bytes)
}

/// The two bytes at a place, the high one first.
fn word(bytes: &[u8], at: usize) -> (r: u32)
    requires
        at + 1 < bytes@.len(),
    ensures
        r == word_at(bytes@, at as int),
{
    bytes[at] as u32 * 256 + bytes[at + 1] as u32
}

/// Whether a frame header that a decoder takes stands at a place.
fn is_frame_at(bytes: &[u8], at: usize) -> (r: bool)
    requires
        at <= bytes@.len(),
    ensures
        r == frame_at(bytes@, at as int),
{
    let left: usize = bytes.len() - at;
    if left < 10 || bytes[at] != 0xff || bytes[at + 4] != 8 {
        return false;
    }
    let marker: u8 = bytes[at + 1];
    let count: u8 = bytes[at + 9];
    0xc0 <= marker && marker <= 0xc2 && word(bytes, at + 2) == 8 + 3 * count as u32 && 3
        * count as usize <= left - 10
}

/// Whether an Adobe segment stands at a place.
fn is_adobe_at(bytes: &[u8], at: usize) -> (r: bool)
    requires
        at <= bytes@.len(),
    ensures
        r == adobe_at(bytes@, at as int),
{
    let left: usize = bytes.len() - at;
    if left < 9 || bytes[at] != 0xff || bytes[at + 1] != 0xee {
        return false;
    }
    has_four_at(bytes, at + 4, 0x41, 0x64, 0x6f, 0x62) && bytes[at + 8] == 0x65
}

/// Whether an Adobe segment stands after a place.
fn has_adobe_after(bytes: &[u8], at: usize) -> (r: bool)
    requires
        at < bytes@.len(),
    ensures
        r == exists|later: int| later > at && #[trigger] adobe_at(bytes@, later),
{
    let n: usize = bytes.len();
    for later in at + 1..n
        invariant
            n == bytes@.len(),
            at < n,
            forall|k: int| at < k < later ==> !#[trigger] adobe_at(bytes@, k),
    {
        if is_adobe_at(bytes, later) {
            assert(adobe_at(bytes@, later as int));
            return true;
        }
    }
    false
}

/// Whether no component of the frame at a place is sampled more finely than the first one.
fn all_fit_first(bytes: &[u8], at: usize) -> (r: bool)
    requires
        frame_at(bytes@, at as int),
        bytes@[at + 9] > 0,
    ensures
        r == forall|component: int|
            0 <= component < bytes@[at + 9] ==> #[trigger] fits_first(bytes@, at as int, component),
{
    assert(bytes@.len() == bytes.len());
    let count: usize = bytes[at + 9] as usize;
    let first: u8 = bytes[at + 11];
    for component in 0..count
        invariant
            bytes@.len() == bytes.len(),
            frame_at(bytes@, at as int),
            count == bytes@[at + 9],
            count > 0,
            first == bytes@[at + 11],
            forall|k: int| 0 <= k < component ==> #[trigger] fits_first(bytes@, at as int, k),
    {
        let own: u8 = bytes[at + 11 + 3 * component];
        let fits = own / 16 <= first / 16 && own % 16 <= first % 16;
        assert(fits == fits_first(bytes@, at as int, component as int));
        if !fits {
            return false;
        }
    }
    true
}

/// Whether the frame at a place is one of the usual layouts.
fn is_regular_frame(bytes: &[u8], at: usize) -> (r: bool)
    requires
        frame_at(bytes@, at as int),
    ensures
        r == regular_frame(bytes@, at as int),
{
    assert(bytes@.len() == bytes.len());
    let count: u8 = bytes[at + 9];
    if count != 1 && count != 3 && count != 4 {
        return false;
    }
    let first: u8 = bytes[at + 11];
    if first / 16 > 2 || first % 16 > 2 {
        return false;
    }
    if !all_fit_first(bytes, at) {
        return false;
    }
    if count == 1 && (word(bytes, at + 5) > 65528 || word(bytes, at + 7) > 65528) {
        return false;
    }
    count == 3 || !has_adobe_after(bytes, at)
}

/// Whether every JPEG frame header in the bytes is one of the usual layouts.
fn is_regular_jpeg(bytes: &[u8]) -> (r: bool)
    ensures
        r == regular_jpeg(bytes@),
{
    let n: usize = bytes.len();
    for at in 0..n
        invariant
            n == bytes@.len(),
            forall|k: int|
                0 <= k < at && #[trigger] frame_at(bytes@, k) ==> regular_frame(bytes@, k),
    {
        if is_frame_at(bytes, at) && !is_regular_frame(bytes, at) {
            assert(frame_at(bytes@, at as int));
            return false;
        }
    }
    true
}

/// Whether four given bytes stand at a place.
fn has_four_at(bytes: &[u8], at: usize, a: u8, b: u8, c: u8, d: u8) -> (r: bool)
    ensures
        r == four_at(bytes@, at as int, a, b, c, d),
{
    let n: usize = bytes.len();
    n >= 4 && at <= n - 4 && bytes[at] == a && bytes[at + 1] == b && bytes[at + 2] == c && bytes[at
        + 3] == d
}

/// Whether a WebP file, if the bytes are one, holds a plain picture.
fn is_regular_webp(bytes: &[u8]) -> (r: bool)
    ensures
        r == regular_webp(bytes@),
{
    if !has_four_at(bytes, 0, 0x52, 0x49, 0x46, 0x46) || !has_four_at(
        bytes,
        8,
        0x57,
        0x45,
        0x42,
        0x50,
    ) {
        return true;
    }
    let n: usize = bytes.len();
    for at in 0..n
        invariant
            n == bytes@.len(),
            webp_file(bytes@),
            forall|k: int| 0 <= k < at ==> !#[trigger] special_chunk_at(bytes@, k),
    {
        let lossless = has_four_at(bytes, at, 0x56, 0x50, 0x38, 0x4c);
        let alpha = has_four_at(bytes, at, 0x41, 0x4c, 0x50, 0x48);
        let animated = has_four_at(bytes, at, 0x41, 0x4e, 0x4d, 0x46);
        if lossless || alpha || animated {
            assert(special_chunk_at(bytes@, at as int));
            return false;
        }
    }
    true
}

/// Whether the bytes hold no frame that the picture decoder is not written for.
pub fn has_regular_frames(bytes: &[u8]) -> (r: bool)
    ensures
        r == regular_frames(bytes@),
{
    is_regular_jpeg(bytes) && is_regular_webp(bytes)
}

/// Bytes without the mark of a frame header are regular, unless they start as a WebP file does and
/// hold one of the chunks that a plain picture has not.
pub proof fn law_bytes_without_frames_are_regular(bytes: Seq<u8>)
    requires
        forall|i: int|
            0 <= i && i + 1 < bytes.len() && #[trigger] bytes[i] == 0xff ==> !(0xc0 <= bytes[i + 1]
                <= 0xc2),
    ensures
        !webp_file(bytes) ==> regular_frames(bytes),
        (forall|at: int| !#[trigger] special_chunk_at(bytes, at)) ==> regular_frames(bytes),
        bytes.len() > 0 && bytes[0] != 0x52 ==> regular_frames(bytes),
{
    assert forall|at: int| #[trigger] frame_at(bytes, at) implies regular_frame(bytes, at) by {
        assert(bytes[at] == 0xff);
    }
}

/// A frame that the decoder is not written for makes the bytes irregular, wherever it stands: one
/// of two or of more than four components, one sampled more than twice as finely, or one with a
/// component sampled more finely than the first.
pub proof fn law_unusual_frame_is_found(bytes: Seq<u8>, at: int, component: int)
    requires
        frame_at(bytes, at),
        0 <= component < bytes[at + 9],
        bytes[at + 9] == 2 || bytes[at + 9] > 4 || bytes[at + 11] >= 0x30 || bytes[at + 11] as int
            % 16 > 2 || bytes[at + 11 + 3 * component] as int / 16 > bytes[at + 11] as int / 16
            || bytes[at + 11 + 3 * component] as int % 16 > bytes[at + 11] as int % 16,
    ensures
        !regular_frames(bytes),
{
    if regular_frame(bytes, at) {
        assert(fits_first(bytes, at, component));
    }
}

/// A WebP file with lossless data, an alpha plane or an animation is irregular, wherever that
/// stands; the same four bytes in any other file are not what makes it so.
pub proof fn law_special_webp_is_found(bytes: Seq<u8>, at: int)
    requires
        bytes.len() >= 12,
        bytes[0] == 0x52 && bytes[1] == 0x49 && bytes[2] == 0x46 && bytes[3] == 0x46,
        bytes[8] == 0x57 && bytes[9] == 0x45 && bytes[10] == 0x42 && bytes[11] == 0x50,
        0 <= at && at + 4 <= bytes.len(),
        ({
            let mark = bytes.subrange(at, at + 4);
            ||| mark == seq![0x56u8, 0x50, 0x38, 0x4c]
            ||| mark == seq![0x41u8, 0x4c, 0x50, 0x48]
            ||| mark == seq![0x41u8, 0x4e, 0x4d, 0x46]
        }),
    ensures
        !regular_frames(bytes),
{
    let mark = bytes.subrange(at, at + 4);
    assert(mark[0] == bytes[at] && mark[1] == bytes[at + 1]);
    assert(mark[2] == bytes[at + 2] && mark[3] == bytes[at + 3]);
    assert(special_chunk_at(bytes, at));
}

/// The frame of a grey picture is regular exactly where it is sampled at most twice in either
/// direction, is at most 65528 pixels wide and high, and no Adobe segment comes later.
pub proof fn law_grey_frame_is_regular(bytes: Seq<u8>, at: int)
    requires
        frame_at(bytes, at),
        bytes[at + 9] == 1,
    ensures
        regular_frame(bytes, at) <==> {
            &&& bytes[at + 11] as int / 16 <= 2
            &&& bytes[at + 11] as int % 16 <= 2
            &&& bytes[at + 5] * 256 + bytes[at + 6] <= 65528
            &&& bytes[at + 7] * 256 + bytes[at + 8] <= 65528
            &&& forall|later: int| later > at ==> !#[trigger] adobe_at(bytes, later)
        },
{
    assert forall|component: int| 0 <= component < 1 implies #[trigger] fits_first(
        bytes,
        at,
        component,
    ) by {
        assert(component == 0);
    }
}

/// The frame of a colour picture is regular exactly where its first component is sampled at most
/// twice in either direction, and no other more finely than that; with four components, no Adobe
/// segment may come later.
pub proof fn law_colour_frame_is_regular(bytes: Seq<u8>, at: int)
    requires
        frame_at(bytes, at),
        bytes[at + 9] == 3 || bytes[at + 9] == 4,
    ensures
        regular_frame(bytes, at) <==> {
            &&& bytes[at + 11] as int / 16 <= 2
            &&& bytes[at + 11] as int % 16 <= 2
            &&& bytes[at + 14] as int / 16 <= bytes[at + 11] as int / 16
            &&& bytes[at + 14] as int % 16 <= bytes[at + 11] as int % 16
            &&& bytes[at + 17] as int / 16 <= bytes[at + 11] as int / 16
            &&& bytes[at + 17] as int % 16 <= bytes[at + 11] as int % 16
            &&& bytes[at + 9] == 4 ==> {
                &&& bytes[at + 20] as int / 16 <= bytes[at + 11] as int / 16
                &&& bytes[at + 20] as int % 16 <= bytes[at + 11] as int % 16
                &&& forall|later: int| later > at ==> !#[trigger] adobe_at(bytes, later)
            }
        },
{
    let count = bytes[at + 9] as int;
    if forall|component: int| 0 <= component < count ==> #[trigger] fits_first(bytes, at, component) {
        assert(fits_first(bytes, at, 1));
        assert(fits_first(bytes, at, 2));
        if count == 4 {
            assert(fits_first(bytes, at, 3));
        }
    } else {
        let component = choose|component: int|
            0 <= component < count && !#[trigger] fits_first(bytes, at, component);
        assert(component == 0 || component == 1 || component == 2 || component == 3);
    }
}

} // verus!
