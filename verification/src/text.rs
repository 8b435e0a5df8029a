//! Text: characters, trimming, decimal numbers, searching and letter case.
use vstd::prelude::*;
use vstd::slice::slice_subrange;
use vstd::string::*;
use vstd::utf8::*;

verus! {

/// `String::push` appends one character.
pub assume_specification[ String::push ](s: &mut String, c: char)
    ensures
        final(s)@ == old(s)@.push(c),
;

/// What `str::to_lowercase` makes of a text. The Unicode case tables are not restated here.
pub uninterp spec fn lowercase_of(s: Seq<char>) -> Seq<char>;

/// One ASCII letter in lower case; any other character as it is.
pub open spec fn ascii_lower(c: char) -> char {
    if 'A' <= c && c <= 'Z' {
        ((c as u32) + 32) as char
    } else {
        c
    }
}

/// Calls `str::to_lowercase`. The result is a function of the text alone, and an ASCII text
/// is lowered letter by letter.
#[verifier::external_body]
pub(crate) fn lowercase(s: &str) -> (r: String)
    ensures
        r@ == lowercase_of(s@),
        is_ascii_chars(s@) ==> r@ == s@.map_values(|c: char| ascii_lower(c)),
{
    s.to_lowercase()
}

/// What `String::from_utf8_lossy` makes of a byte string. How it replaces malformed bytes is
/// not restated here.
pub uninterp spec fn utf8_lossy(bytes: Seq<u8>) -> Seq<char>;

/// Calls `String::from_utf8_lossy`. The result is a function of the bytes alone, and well-formed
/// UTF-8 is decoded as it stands.
#[verifier::external_body]
pub(crate) fn decode_lossy(bytes: &[u8]) -> (r: String)
    ensures
        r@ == utf8_lossy(bytes@),
        valid_utf8(bytes@) ==> r@ == decode_utf8(bytes@),
{
    String::from_utf8_lossy(bytes).into_owned()
}

/// The characters of a text.
pub fn to_chars(s: &str) -> (r: Vec<char>)
    ensures
        r@ == s@,
{
    let mut out: Vec<char> = Vec::new();
    for c in it: s.chars()
        invariant
            out@ == s@.take(it.index()),
            it.seq() == s@,
    {
        out.push(c);
        proof {
            assert(s@.take(it.index() + 1) =~= s@.take(it.index()).push(s@[it.index()]));
        }
    }
    assert(s@.take(s@.len() as int) =~= s@);
    out
}

/// The text made of the given characters.
pub fn from_chars(chars: &[char]) -> (r: String)
    ensures
        r@ == chars@,
{
    let mut out = String::new();
    let n: usize = chars.len();
    for i in 0..n
        invariant
            n == chars@.len(),
            out@ == chars@.take(i as int),
    {
        out.push(chars[i]);
        assert(chars@.take(i + 1) =~= chars@.take(i as int).push(chars@[i as int]));
    }
    assert(chars@.take(n as int) =~= chars@);
    out
}

/// Whether the two character sequences are the same.
pub fn same_chars(a: &[char], b: &[char]) -> (r: bool)
    ensures
        r == (a@ == b@),
{
    if a.len() != b.len() {
        return false;
    }
    let n: usize = a.len();
    for i in 0..n
        invariant
            n == a@.len(),
            n == b@.len(),
            forall|k: int| 0 <= k < i ==> a@[k] == b@[k],
    {
        if a[i] != b[i] {
            return false;
        }
    }
    assert(a@ =~= b@);
    true
}

/// Whether the two texts are the same.
pub fn same_text(a: &str, b: &str) -> (r: bool)
    ensures
        r == (a@ == b@),
{
    let left = to_chars(a);
    let right = to_chars(b);
    same_chars(left.as_slice(), right.as_slice())
}

/// Appends `more` to `out`.
pub fn push_text(out: &mut String, more: &str)
    ensures
        final(out)@ == old(out)@ + more@,
{
    out.append(more);
}

/// The characters with the Unicode property White_Space.
pub open spec fn white_space(c: char) -> bool {
    ||| '\u{9}' <= c <= '\u{d}'
    ||| c == ' '
    ||| c == '\u{85}'
    ||| c == '\u{a0}'
    ||| c == '\u{1680}'
    ||| '\u{2000}' <= c <= '\u{200a}'
    ||| c == '\u{2028}'
    ||| c == '\u{2029}'
    ||| c == '\u{202f}'
    ||| c == '\u{205f}'
    ||| c == '\u{3000}'
}

/// Whether `c` is white space.
pub fn is_white_space(c: char) -> (r: bool)
    ensures
        r == white_space(c),
{
    ('\u{9}' <= c && c <= '\u{d}') || c == ' ' || c == '\u{85}' || c == '\u{a0}' || c == '\u{1680}'
        || ('\u{2000}' <= c && c <= '\u{200a}') || c == '\u{2028}' || c == '\u{2029}' || c
        == '\u{202f}' || c == '\u{205f}' || c == '\u{3000}'
}

/// `s` without its leading white space.
pub open spec fn trim_start_of(s: Seq<char>) -> Seq<char>
    decreases s.len(),
{
    if s.len() > 0 && white_space(s[0]) {
        trim_start_of(s.skip(1))
    } else {
        s
    }
}

/// `s` without its trailing white space.
pub open spec fn trim_end_of(s: Seq<char>) -> Seq<char>
    decreases s.len(),
{
    if s.len() > 0 && white_space(s.last()) {
        trim_end_of(s.drop_last())
    } else {
        s
    }
}

/// `s` without white space at either end.
pub open spec fn trim_of(s: Seq<char>) -> Seq<char> {
    trim_end_of(trim_start_of(s))
}

/// The characters without white space at either end.
pub fn trim_chars(chars: &[char]) -> (r: &[char])
    ensures
        r@ == trim_of(chars@),
{
    let mut start: usize = 0;
    assert(chars@.skip(0) =~= chars@);
    while start < chars.len() && is_white_space(chars[start])
        invariant
            start <= chars@.len(),
            trim_start_of(chars@.skip(start as int)) == trim_start_of(chars@),
        decreases chars@.len() - start,
    {
        assert(chars@.skip(start as int).skip(1) =~= chars@.skip(start + 1));
        start = start + 1;
    }
    let mut end: usize = chars.len();
    assert(chars@.subrange(start as int, end as int) =~= chars@.skip(start as int));
    while start < end && is_white_space(chars[end - 1])
        invariant
            start <= end <= chars@.len(),
            trim_end_of(chars@.subrange(start as int, end as int)) == trim_of(chars@),
        decreases end,
    {
        assert(chars@.subrange(start as int, end as int).drop_last() =~= chars@.subrange(
            start as int,
            end - 1,
        ));
        end = end - 1;
    }
    slice_subrange(chars, start, end)
}

/// The text without white space at either end.
pub fn trimmed(s: &str) -> (r: String)
    ensures
        r@ == trim_of(s@),
{
    let chars = to_chars(s);
    from_chars(trim_chars(chars.as_slice()))
}

/// Whether `needle` stands in `hay` at position `at`.
pub open spec fn occurs_at(needle: Seq<char>, hay: Seq<char>, at: int) -> bool {
    0 <= at && at + needle.len() <= hay.len() && hay.subrange(at, at + needle.len()) == needle
}

/// Whether `needle` stands in `hay` at position `at`.
pub fn stands_at(needle: &[char], hay: &[char], at: usize) -> (r: bool)
    ensures
        r == occurs_at(needle@, hay@, at as int),
{
    if at > hay.len() || needle.len() > hay.len() - at {
        return false;
    }
    same_chars(slice_subrange(hay, at, at + needle.len()), needle)
}

/// Whether `c` is one of the ten ASCII digits.
pub open spec fn ascii_digit(c: char) -> bool {
    '0' <= c <= '9'
}

/// Whether every character of `s` is an ASCII digit.
pub open spec fn all_digits(s: Seq<char>) -> bool {
    forall|i: int| 0 <= i < s.len() ==> ascii_digit(#[trigger] s[i])
}

/// Whether `c` is one of the ten ASCII digits.
pub fn is_ascii_digit(c: char) -> (r: bool)
    ensures
        r == ascii_digit(c),
{
    '0' <= c && c <= '9'
}

/// Whether every character is an ASCII digit.
pub fn are_digits(chars: &[char]) -> (r: bool)
    ensures
        r == all_digits(chars@),
{
    let n: usize = chars.len();
    for i in 0..n
        invariant
            n == chars@.len(),
            forall|k: int| 0 <= k < i ==> ascii_digit(#[trigger] chars@[k]),
    {
        if !is_ascii_digit(chars[i]) {
            return false;
        }
    }
    true
}

/// The number that a row of decimal digits denotes.
pub open spec fn digits_value(s: Seq<char>) -> nat
    decreases s.len(),
{
    if s.len() == 0 {
        0
    } else {
        10 * digits_value(s.drop_last()) + (s.last() as nat - '0' as nat) as nat
    }
}

/// The digits of a number text: all of it but for one leading plus sign.
pub open spec fn unsigned_digits(s: Seq<char>) -> Seq<char> {
    if s.len() > 0 && s[0] == '+' {
        s.skip(1)
    } else {
        s
    }
}

/// The unsigned number that `s` denotes: an optional plus sign and at least one decimal digit,
/// with a value that 32 bits hold. Any other text denotes none.
pub open spec fn unsigned_of(s: Seq<char>) -> Option<u32> {
    let digits = unsigned_digits(s);
    if digits.len() > 0 && all_digits(digits) && digits_value(digits) <= u32::MAX {
        Some(digits_value(digits) as u32)
    } else {
        None
    }
}

proof fn lemma_digits_value_grows(s: Seq<char>, n: int)
    requires
        0 <= n <= s.len(),
    ensures
        digits_value(s.take(n)) <= digits_value(s),
    decreases s.len(),
{
    if n == s.len() {
        assert(s.take(n) =~= s);
    } else {
        lemma_digits_value_grows(s.drop_last(), n);
        assert(s.drop_last().take(n) =~= s.take(n));
    }
}

/// Reads an unsigned number.
pub fn parse_unsigned(chars: &[char]) -> (r: Option<u32>)
    ensures
        r == unsigned_of(chars@),
{
    let first: usize = if chars.len() > 0 && chars[0] == '+' {
        1
    } else {
        0
    };
    let digits = slice_subrange(chars, first, chars.len());
    assert(digits@ =~= unsigned_digits(chars@));
    if digits.len() == 0 || !are_digits(digits) {
        return None;
    }
    let n: usize = digits.len();
    let mut value: u64 = 0;
    for i in 0..n
        invariant
            n == digits@.len(),
            all_digits(digits@),
            value == digits_value(digits@.take(i as int)),
            value <= u32::MAX,
            digits@ == unsigned_digits(chars@),
    {
        let digit: u64 = (digits[i] as u64) - ('0' as u64);
        proof {
            assert(digits@.take(i + 1).drop_last() =~= digits@.take(i as int));
            assert(digits@.take(i + 1).last() == digits@[i as int]);
            lemma_digits_value_grows(digits@, i + 1);
        }
        value = 10 * value + digit;
        if value > 0xffff_ffff {
            return None;
        }
    }
    assert(digits@.take(n as int) =~= digits@);
    Some(value as u32)
}

/// The decimal digit for a value below ten.
pub open spec fn digit_char(d: nat) -> char {
    ('0' as nat + d) as char
}

/// `n` in decimal, without leading zeros.
pub open spec fn decimal_of(n: nat) -> Seq<char>
    decreases n,
{
    if n < 10 {
        seq![digit_char(n)]
    } else {
        decimal_of(n / 10).push(digit_char(n % 10))
    }
}

/// Appends `n` in decimal.
pub fn push_decimal(out: &mut String, n: u64)
    ensures
        final(out)@ == old(out)@ + decimal_of(n as nat),
    decreases n,
{
    if n >= 10 {
        push_decimal(out, n / 10);
    }
    let last: u8 = (n % 10) as u8;
    out.push((48 + last) as char);
    assert(out@ =~= old(out)@ + decimal_of(n as nat));
}

/// `n` in decimal.
pub fn decimal(n: u64) -> (r: String)
    ensures
        r@ == decimal_of(n as nat),
{
    let mut out = String::new();
    push_decimal(&mut out, n);
    assert(out@ =~= decimal_of(n as nat));
    out
}

/// `n` in decimal, with a leading zero where it has one digit.
pub open spec fn two_digits_of(n: nat) -> Seq<char> {
    if n < 10 {
        seq!['0'] + decimal_of(n)
    } else {
        decimal_of(n)
    }
}

/// Appends `n` in decimal, with a leading zero where it has one digit.
pub fn push_two_digits(out: &mut String, n: u64)
    ensures
        final(out)@ == old(out)@ + two_digits_of(n as nat),
{
    if n < 10 {
        out.push('0');
    }
    push_decimal(out, n);
    assert(out@ =~= old(out)@ + two_digits_of(n as nat));
}

/// `n` in decimal, with a minus sign where it is below zero.
pub open spec fn signed_decimal_of(n: int) -> Seq<char> {
    if n < 0 {
        seq!['-'] + decimal_of((-n) as nat)
    } else {
        decimal_of(n as nat)
    }
}

/// `n` in decimal, with a minus sign where it is below zero.
pub fn signed_decimal(n: i64) -> (r: String)
    ensures
        r@ == signed_decimal_of(n as int),
{
    let mut out = String::new();
    if n < 0 {
        out.push('-');
        let size: u64 = if n == i64::MIN {
            0x8000_0000_0000_0000
        } else {
            (-n) as u64
        };
        push_decimal(&mut out, size);
    } else {
        push_decimal(&mut out, n as u64);
    }
    assert(out@ =~= signed_decimal_of(n as int));
    out
}

/// A copy of the bytes.
pub fn copy_bytes(bytes: &[u8]) -> (r: Vec<u8>)
    ensures
        r@ == bytes@,
{
    let mut out: Vec<u8> = Vec::new();
    let n: usize = bytes.len();
    for i in 0..n
        invariant
            n == bytes@.len(),
            out@ == bytes@.take(i as int),
    {
        out.push(bytes[i]);
        assert(bytes@.take(i + 1) =~= bytes@.take(i as int).push(bytes@[i as int]));
    }
    assert(bytes@.take(n as int) =~= bytes@);
    out
}

proof fn lemma_trim_start(s: Seq<char>, i: int)
    requires
        0 <= i <= s.len(),
        forall|k: int| 0 <= k < i ==> white_space(#[trigger] s[k]),
        i < s.len() ==> !white_space(s[i]),
    ensures
        trim_start_of(s) == s.skip(i),
    decreases i,
{
    if i == 0 {
        assert(s.skip(0) =~= s);
    } else {
        assert(white_space(s[0]));
        let rest = s.skip(1);
        assert forall|k: int| 0 <= k < i - 1 implies white_space(#[trigger] rest[k]) by {
            assert(white_space(s[k + 1]));
        }
        lemma_trim_start(rest, i - 1);
        assert(rest.skip(i - 1) =~= s.skip(i));
    }
}

proof fn lemma_trim_end(s: Seq<char>, j: int)
    requires
        0 <= j <= s.len(),
        forall|k: int| j <= k < s.len() ==> white_space(#[trigger] s[k]),
        j > 0 ==> !white_space(s[j - 1]),
    ensures
        trim_end_of(s) == s.take(j),
    decreases s.len(),
{
    if j == s.len() {
        assert(s.take(j) =~= s);
    } else {
        assert(white_space(s[s.len() - 1]));
        let rest = s.drop_last();
        assert forall|k: int| j <= k < rest.len() implies white_space(#[trigger] rest[k]) by {
            assert(white_space(s[k]));
        }
        lemma_trim_end(rest, j);
        assert(rest.take(j) =~= s.take(j));
    }
}

/// Trimming takes white space off both ends and nothing else: what stands between the first and
/// the last character that is no white space stays as it is, and of a blank text nothing is left.
pub proof fn law_trimming_takes_white_space_off_the_ends(s: Seq<char>, i: int, j: int)
    requires
        0 <= i <= j <= s.len(),
        forall|k: int| 0 <= k < i ==> white_space(#[trigger] s[k]),
        forall|k: int| j <= k < s.len() ==> white_space(#[trigger] s[k]),
        i < j ==> !white_space(s[i]) && !white_space(s[j - 1]),
    ensures
        trim_of(s) == s.subrange(i, j),
{
    if i < j {
        lemma_trim_start(s, i);
        let rest = s.skip(i);
        assert forall|k: int| j - i <= k < rest.len() implies white_space(#[trigger] rest[k]) by {
            assert(white_space(s[k + i]));
        }
        lemma_trim_end(rest, j - i);
        assert(rest.take(j - i) =~= s.subrange(i, j));
    } else {
        assert forall|k: int| 0 <= k < s.len() implies white_space(#[trigger] s[k]) by {}
        lemma_trim_start(s, s.len() as int);
        assert(s.skip(s.len() as int) =~= Seq::<char>::empty());
        assert(s.subrange(i, j) =~= Seq::<char>::empty());
    }
}

/// Where the text between the white space at either end of `s` begins and ends.
proof fn lemma_trim_bounds(s: Seq<char>) -> (r: (int, int))
    ensures
        0 <= r.0 <= r.1 <= s.len(),
        forall|k: int| 0 <= k < r.0 ==> white_space(#[trigger] s[k]),
        forall|k: int| r.1 <= k < s.len() ==> white_space(#[trigger] s[k]),
        r.0 < r.1 ==> !white_space(s[r.0]) && !white_space(s[r.1 - 1]),
    decreases s.len(),
{
    if s.len() == 0 {
        (0, 0)
    } else if white_space(s[0]) {
        let rest = s.skip(1);
        let inner = lemma_trim_bounds(rest);
        assert forall|k: int| 0 <= k < inner.0 + 1 implies white_space(#[trigger] s[k]) by {
            if k > 0 {
                assert(white_space(rest[k - 1]));
            }
        }
        assert forall|k: int| inner.1 + 1 <= k < s.len() implies white_space(#[trigger] s[k]) by {
            assert(white_space(rest[k - 1]));
        }
        (inner.0 + 1, inner.1 + 1)
    } else if white_space(s.last()) {
        let rest = s.drop_last();
        let inner = lemma_trim_bounds(rest);
        assert forall|k: int| inner.1 <= k < s.len() implies white_space(#[trigger] s[k]) by {
            if k < rest.len() {
                assert(white_space(rest[k]));
            }
        }
        assert forall|k: int| 0 <= k < inner.0 implies white_space(#[trigger] s[k]) by {
            assert(white_space(rest[k]));
        }
        inner
    } else {
        (0, s.len() as int)
    }
}

/// White space around a text makes no difference to what is left of it.
pub proof fn law_white_space_around_makes_no_difference(
    before: Seq<char>,
    s: Seq<char>,
    after: Seq<char>,
)
    requires
        forall|k: int| 0 <= k < before.len() ==> white_space(#[trigger] before[k]),
        forall|k: int| 0 <= k < after.len() ==> white_space(#[trigger] after[k]),
    ensures
        trim_of(before + s + after) == trim_of(s),
{
    let whole = before + s + after;
    let n = before.len() as int;
    let (i, j) = lemma_trim_bounds(s);
    law_trimming_takes_white_space_off_the_ends(s, i, j);
    assert forall|k: int| 0 <= k < n + i implies white_space(#[trigger] whole[k]) by {
        if k < n {
            assert(white_space(before[k]));
        } else {
            assert(white_space(s[k - n]));
        }
    }
    assert forall|k: int| n + j <= k < whole.len() implies white_space(#[trigger] whole[k]) by {
        if k < n + s.len() {
            assert(white_space(s[k - n]));
        } else {
            assert(white_space(after[k - n - s.len()]));
        }
    }
    law_trimming_takes_white_space_off_the_ends(whole, n + i, n + j);
    assert(whole.subrange(n + i, n + j) =~= s.subrange(i, j));
}

/// No printing ASCII character is white space, and every ASCII blank, tab and line break is. Beyond
/// ASCII the white space is the next-line mark, the blanks that do not break, the blanks of a fixed
/// width, the marks that separate lines and paragraphs, and nothing else.
pub proof fn law_printing_characters_are_kept(c: char)
    ensures
        '!' <= c <= '~' ==> !white_space(c),
        c == ' ' || '\u{9}' <= c <= '\u{d}' ==> white_space(c),
        c as u32 > 0x7e ==> (white_space(c) <==> {
            ||| c as u32 == 0x85 || c as u32 == 0xa0 || c as u32 == 0x202f
            ||| c as u32 == 0x1680 || c as u32 == 0x205f || c as u32 == 0x3000
            ||| 0x2000 <= c as u32 <= 0x200a
            ||| c as u32 == 0x2028 || c as u32 == 0x2029
        }),
{
}

/// A character that is no white space parts the trimming of what stands before it from that of
/// what stands behind it.
pub proof fn lemma_trim_halves(a: Seq<char>, c: char, b: Seq<char>)
    requires
        !white_space(c),
    ensures
        trim_of(a + seq![c] + b) == trim_start_of(a) + seq![c] + trim_end_of(b),
        trim_of(trim_start_of(a)) == trim_of(a),
        trim_of(trim_end_of(b)) == trim_of(b),
        trim_start_of(a).len() <= a.len(),
        trim_start_of(a) == a.skip(a.len() - trim_start_of(a).len()),
{
    let whole = a + seq![c] + b;
    let n = a.len() as int;
    let (i, j) = lemma_trim_bounds(a);
    let start = if i < j {
        i
    } else {
        n
    };
    lemma_trim_start(a, start);
    assert forall|k: int| 0 <= k < start implies white_space(#[trigger] whole[k]) by {
        assert(white_space(a[k]));
    }
    let (p, q) = lemma_trim_bounds(b);
    let end = if p < q {
        q
    } else {
        0
    };
    lemma_trim_end(b, end);
    assert forall|k: int| n + 1 + end <= k < whole.len() implies white_space(
        #[trigger] whole[k],
    ) by {
        assert(white_space(b[k - n - 1]));
    }
    assert(whole[n] == c);
    if start < n {
        assert(whole[start] == a[start]);
    }
    if end > 0 {
        assert(whole[n + end] == b[end - 1]);
    }
    law_trimming_takes_white_space_off_the_ends(whole, start, n + 1 + end);
    assert(whole.subrange(start, n + 1 + end) =~= a.skip(start) + seq![c] + b.take(end));
    let rest = a.skip(start);
    lemma_trim_start(rest, 0);
    assert(rest.skip(0) =~= rest);
    law_trimming_takes_white_space_off_the_ends(b, p, q);
    let front = b.take(end);
    if p < q {
        law_trimming_takes_white_space_off_the_ends(front, p, q);
        assert(front.subrange(p, q) =~= b.subrange(p, q));
    } else {
        law_trimming_takes_white_space_off_the_ends(front, 0, 0);
        assert(front.subrange(0, 0) =~= b.subrange(p, q));
    }
}

/// Nothing is left of a text exactly where it is blank.
pub proof fn lemma_blank_text(s: Seq<char>)
    ensures
        trim_of(s).len() > 0 <==> exists|i: int| 0 <= i < s.len() && !white_space(#[trigger] s[i]),
{
    let (i, j) = lemma_trim_bounds(s);
    law_trimming_takes_white_space_off_the_ends(s, i, j);
    if i < j {
        assert(!white_space(s[i]));
    } else {
        assert forall|k: int| 0 <= k < s.len() implies white_space(#[trigger] s[k]) by {}
    }
}

/// A text without white space around it stays as it is.
pub proof fn lemma_trim_is_trimmed(s: Seq<char>)
    ensures
        trim_of(trim_of(s)) == trim_of(s),
{
    let (i, j) = lemma_trim_bounds(s);
    law_trimming_takes_white_space_off_the_ends(s, i, j);
    let text = trim_of(s);
    law_trimming_takes_white_space_off_the_ends(text, 0, text.len() as int);
    assert(text.subrange(0, text.len() as int) =~= text);
}

/// What is left of a text stands in the text.
pub proof fn lemma_trim_is_part(s: Seq<char>)
    ensures
        forall|i: int| 0 <= i < trim_of(s).len() ==> s.contains(#[trigger] trim_of(s)[i]),
{
    let (i, j) = lemma_trim_bounds(s);
    law_trimming_takes_white_space_off_the_ends(s, i, j);
    assert forall|k: int| 0 <= k < trim_of(s).len() implies s.contains(#[trigger] trim_of(s)[k]) by {
        assert(s[i + k] == trim_of(s)[k]);
    }
}

/// A number in decimal is of digits alone, has no leading zero but for zero itself, and reads back
/// as the number.
pub proof fn law_decimal_reads_back(n: nat)
    ensures
        decimal_of(n).len() > 0,
        all_digits(decimal_of(n)),
        n > 0 ==> decimal_of(n)[0] != '0',
        digits_value(decimal_of(n)) == n,
        unsigned_of(decimal_of(n)) == if n <= u32::MAX {
            Some(n as u32)
        } else {
            None
        },
    decreases n,
{
    let text = decimal_of(n);
    if n < 10 {
        assert(text.drop_last() =~= Seq::<char>::empty());
        assert(digits_value(text.drop_last()) == 0);
        assert(digits_value(text) == n);
    } else {
        law_decimal_reads_back(n / 10);
        assert(text.drop_last() =~= decimal_of(n / 10));
        assert(text[0] == decimal_of(n / 10)[0]);
        assert forall|i: int| 0 <= i < text.len() implies ascii_digit(#[trigger] text[i]) by {
            if i < text.len() - 1 {
                assert(ascii_digit(decimal_of(n / 10)[i]));
            }
        }
    }
    assert(ascii_digit(text[0]));
}

/// A number in decimal has no white space around it.
pub proof fn lemma_decimal_is_trimmed(n: nat)
    ensures
        trim_of(decimal_of(n)) == decimal_of(n),
{
    law_decimal_reads_back(n);
    let text = decimal_of(n);
    assert(ascii_digit(text[0]) && ascii_digit(text[text.len() - 1]));
    law_trimming_takes_white_space_off_the_ends(text, 0, text.len() as int);
    assert(text.subrange(0, text.len() as int) =~= text);
}

/// Reading a number takes its digits from left to right: one more digit multiplies by ten and adds
/// the digit, as long as 32 bits hold the value.
pub proof fn law_one_more_digit(s: Seq<char>, n: u32, d: char)
    requires
        unsigned_of(s) == Some(n),
    ensures
        '0' <= d <= '9' ==> unsigned_of(s.push(d)) == if 10 * n + (d as int - '0' as int)
            <= u32::MAX {
            Some((10 * n + (d as int - '0' as int)) as u32)
        } else {
            None
        },
        !('0' <= d <= '9') ==> unsigned_of(s.push(d)) is None,
{
    let digits = unsigned_digits(s);
    let more = unsigned_digits(s.push(d));
    assert(more =~= digits.push(d));
    assert(more.drop_last() =~= digits);
    assert(more.last() == d);
    if '0' <= d <= '9' {
        assert forall|i: int| 0 <= i < more.len() implies ascii_digit(#[trigger] more[i]) by {
            if i < digits.len() {
                assert(ascii_digit(digits[i]));
            }
        }
    } else {
        assert(!ascii_digit(more[digits.len() as int]));
    }
}

/// What is no number stays none whatever follows it, unless it is a mere plus sign or nothing.
pub proof fn law_no_number_stays_none(s: Seq<char>, d: char)
    requires
        unsigned_of(s) is None,
        s.len() > 1 || s.len() == 1 && s[0] != '+',
    ensures
        unsigned_of(s.push(d)) is None,
{
    let digits = unsigned_digits(s);
    let more = unsigned_digits(s.push(d));
    assert(more =~= digits.push(d));
    assert(more.drop_last() =~= digits);
    if all_digits(more) {
        assert forall|i: int| 0 <= i < digits.len() implies ascii_digit(#[trigger] digits[i]) by {
            assert(ascii_digit(more[i]));
        }
        assert(digits_value(digits) > u32::MAX);
    }
}

/// A single digit is its own value, one plus sign before a number changes nothing, and a text with
/// anything but digits in it after that, or without a digit, is no number.
pub proof fn law_what_a_number_is(s: Seq<char>)
    ensures
        s.len() == 1 && '0' <= s[0] <= '9' ==> unsigned_of(s) == Some(
            (s[0] as int - '0' as int) as u32,
        ),
        s.len() > 0 && s[0] != '+' ==> unsigned_of(seq!['+'] + s) == unsigned_of(s),
        s.len() == 0 ==> unsigned_of(s) is None && unsigned_of(seq!['+'] + s) is None,
        (exists|i: int| 1 <= i < s.len() && !('0' <= #[trigger] s[i] <= '9')) ==> unsigned_of(s)
            is None,
        s.len() > 0 && s[0] != '+' && !('0' <= s[0] <= '9') ==> unsigned_of(s) is None,
{
    let plus = seq!['+'] + s;
    assert(unsigned_digits(plus) =~= s);
    if s.len() == 1 && '0' <= s[0] <= '9' {
        assert(s.drop_last() =~= Seq::<char>::empty());
        assert(digits_value(s.drop_last()) == 0);
    }
    if exists|i: int| 1 <= i < s.len() && !('0' <= #[trigger] s[i] <= '9') {
        let i = choose|i: int| 1 <= i < s.len() && !('0' <= #[trigger] s[i] <= '9');
        let digits = unsigned_digits(s);
        if s[0] == '+' {
            assert(digits[i - 1] == s[i]);
        } else {
            assert(digits[i] == s[i]);
        }
        assert(!all_digits(digits));
    }
    if s.len() > 0 && s[0] != '+' && !('0' <= s[0] <= '9') {
        assert(!ascii_digit(unsigned_digits(s)[0]));
    }
}

/// A number in two digits reads back as the number, and has at least two.
pub proof fn law_two_digits_read_back(n: nat)
    ensures
        two_digits_of(n).len() >= 2,
        n < 100 ==> two_digits_of(n).len() == 2,
        all_digits(two_digits_of(n)),
        digits_value(two_digits_of(n)) == n,
        n >= 10 ==> two_digits_of(n) == decimal_of(n),
{
    law_decimal_reads_back(n);
    let text = two_digits_of(n);
    assert forall|i: int| 0 <= i < text.len() implies ascii_digit(#[trigger] text[i]) by {
        if n >= 10 {
            assert(ascii_digit(decimal_of(n)[i]));
        } else if i > 0 {
            assert(ascii_digit(decimal_of(n)[i - 1]));
        }
    }
    if n < 10 {
        assert(text.drop_last() =~= seq!['0']);
        assert(seq!['0'].drop_last() =~= Seq::<char>::empty());
        assert(digits_value(seq!['0'].drop_last()) == 0);
        assert(digits_value(seq!['0']) == 0);
        assert(text.last() == digit_char(n));
    } else {
        law_decimal_reads_back(n / 10);
        if n < 100 {
            assert(decimal_of(n / 10).len() == 1);
        }
    }
}

/// A number below zero is shown by a minus sign and its size, any other as it is.
pub proof fn law_signed_decimal_shows_the_sign(n: int)
    ensures
        n < 0 ==> signed_decimal_of(n)[0] == '-' && digits_value(signed_decimal_of(n).skip(1))
            == -n && all_digits(signed_decimal_of(n).skip(1)),
        n >= 0 ==> digits_value(signed_decimal_of(n)) == n && all_digits(signed_decimal_of(n)),
{
    if n < 0 {
        law_decimal_reads_back((-n) as nat);
        assert(signed_decimal_of(n).skip(1) =~= decimal_of((-n) as nat));
    } else {
        law_decimal_reads_back(n as nat);
    }
}

} // verus!
