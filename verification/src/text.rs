use vstd::prelude::*;
use vstd::utf8::{decode_utf8, valid_utf8};
use vstd::string::StringExecFns;
use unicode_segmentation::UnicodeSegmentation;
use unicode_width::{UnicodeWidthChar, UnicodeWidthStr};

verus! {

/// The number of columns `unicode-width` gives a character, `None` for control characters.
pub uninterp spec fn char_columns(c: char) -> Option<usize>;

/// The number of columns `unicode-width` gives a string.
pub uninterp spec fn text_columns(text: Seq<char>) -> usize;

/// The number of extended grapheme clusters `unicode-segmentation` finds in a string.
pub uninterp spec fn grapheme_count(text: Seq<char>) -> usize;

/// The characters that `char::to_lowercase` yields for a character.
pub uninterp spec fn unicode_lowercase(c: char) -> Seq<char>;

/// Calls `UnicodeWidthChar::width` of `unicode-width`: printable ASCII is one column wide,
/// the C0 and C1 controls (and DEL) have no width; other characters' widths are only named.
#[verifier::external_body]
pub(crate) fn char_width(c: char) -> (width: Option<usize>)
    ensures
        width == char_columns(c),
        0x20 <= (c as u32) < 0x7f ==> width == Some(1usize),
        ((c as u32) < 0x20 || 0x7f <= (c as u32) < 0xa0) ==> width is None,
{
    UnicodeWidthChar::width(c)
}

/// Calls `UnicodeWidthStr::width` of `unicode-width`; the contract only names its result.
#[verifier::external_body]
pub(crate) fn str_width(text: &str) -> (width: usize)
    ensures
        width == text_columns(text@),
{
    UnicodeWidthStr::width(text)
}

/// Counts `UnicodeSegmentation::graphemes(text, true)` of `unicode-segmentation`; the contract
/// only names the count.
#[verifier::external_body]
pub(crate) fn count_graphemes(text: &str) -> (count: usize)
    ensures
        count == grapheme_count(text@),
{
    UnicodeSegmentation::graphemes(text, true).count()
}

/// Collects `char::to_lowercase`. Its documentation maps an ASCII character to its ASCII
/// lowercase form; for other characters the contract only names the result.
#[verifier::external_body]
pub(crate) fn lowercase_of(c: char) -> (lower: Vec<char>)
    ensures
        lower@ == unicode_lowercase(c),
        (c as u32) < 128 ==> lower@ == seq![ascii_lower(c)],
{
    c.to_lowercase().collect()
}

/// Calls `String::from_utf8`, which its documentation says succeeds exactly on valid UTF-8
/// and then holds the decoded text.
#[verifier::external_body]
pub(crate) fn decode_utf8_string(bytes: &[u8]) -> (text: Option<String>)
    ensures
        match text {
            Some(text) => valid_utf8(bytes@) && text@ == decode_utf8(bytes@),
            None => !valid_utf8(bytes@),
        },
{
    String::from_utf8(bytes.to_vec()).ok()
}

/// Calls `String::push`.
#[verifier::external_body]
pub(crate) fn push_char(text: &mut String, c: char)
    ensures
        final(text)@ == old(text)@.push(c),
{
    text.push(c);
}

pub open spec fn ascii_lower(c: char) -> char {
    if 'A' <= c && c <= 'Z' {
        ((c as u32) + 32) as char
    } else {
        c
    }
}

pub open spec fn ascii_upper(c: char) -> char {
    if 'a' <= c && c <= 'z' {
        ((c as u32) - 32) as char
    } else {
        c
    }
}

pub open spec fn ascii_lower_seq(text: Seq<char>) -> Seq<char> {
    text.map_values(|c: char| ascii_lower(c))
}

pub open spec fn ascii_upper_seq(text: Seq<char>) -> Seq<char> {
    text.map_values(|c: char| ascii_upper(c))
}

pub fn to_ascii_lower(c: char) -> (lower: char)
    ensures
        lower == ascii_lower(c),
{
    if 'A' <= c && c <= 'Z' {
        let code: u32 = c as u32;
        let byte: u8 = (code + 32) as u8;
        proof {
            assert(byte as u32 == (c as u32) + 32);
        }
        byte as char
    } else {
        c
    }
}

pub fn to_ascii_upper(c: char) -> (upper: char)
    ensures
        upper == ascii_upper(c),
{
    if 'a' <= c && c <= 'z' {
        let code: u32 = c as u32;
        let byte: u8 = (code - 32) as u8;
        proof {
            assert(byte as u32 == (c as u32) - 32);
        }
        byte as char
    } else {
        c
    }
}

/// Unicode `White_Space`, which `char::is_whitespace` tests.
pub open spec fn is_whitespace(c: char) -> bool {
    let code = c as u32;
    (0x09 <= code && code <= 0x0d) || code == 0x20 || code == 0x85 || code == 0xa0
        || code == 0x1680 || (0x2000 <= code && code <= 0x200a) || code == 0x2028
        || code == 0x2029 || code == 0x202f || code == 0x205f || code == 0x3000
}

pub fn char_is_whitespace(c: char) -> (whitespace: bool)
    ensures
        whitespace == is_whitespace(c),
{
    let code: u32 = c as u32;
    (0x09 <= code && code <= 0x0d) || code == 0x20 || code == 0x85 || code == 0xa0
        || code == 0x1680 || (0x2000 <= code && code <= 0x200a) || code == 0x2028
        || code == 0x2029 || code == 0x202f || code == 0x205f || code == 0x3000
}

/// The characters of a string slice.
pub fn chars_of(text: &str) -> (characters: Vec<char>)
    ensures
        characters@ == text@,
{
    let mut characters: Vec<char> = Vec::new();
    for c in it: text.chars()
        invariant
            characters@ == it.seq().take(it.index() as int),
            it.seq() == text@,
    {
        characters.push(c);
    }
    proof {
        assert(characters@ =~= text@);
    }
    characters
}

/// A string holding the given characters.
pub fn string_from_chars(characters: &Vec<char>) -> (text: String)
    ensures
        text@ == characters@,
{
    let mut text = String::new();
    let mut index: usize = 0;
    while index < characters.len()
        invariant
            index <= characters@.len(),
            text@ == characters@.take(index as int),
        decreases characters@.len() - index,
    {
        push_char(&mut text, characters[index]);
        index += 1;
        proof {
            assert(text@ =~= characters@.take(index as int));
        }
    }
    proof {
        assert(characters@.take(characters@.len() as int) =~= characters@);
    }
    text
}

/// A string holding the characters of a literal or other slice.
pub fn string_of(text: &str) -> (owned: String)
    ensures
        owned@ == text@,
{
    String::from_str(text)
}

/// Appends the characters of a slice to a string.
pub fn append_str(text: &mut String, tail: &str)
    ensures
        final(text)@ == old(text)@ + tail@,
{
    text.append(tail);
}

/// Whether two character sequences are equal.
pub fn chars_equal(left: &Vec<char>, right: &Vec<char>) -> (equal: bool)
    ensures
        equal == (left@ == right@),
{
    if left.len() != right.len() {
        return false;
    }
    let mut index: usize = 0;
    while index < left.len()
        invariant
            left@.len() == right@.len(),
            index <= left@.len(),
            forall|k: int| 0 <= k < index ==> left@[k] == right@[k],
        decreases left@.len() - index,
    {
        if left[index] != right[index] {
            return false;
        }
        index += 1;
    }
    proof {
        assert(left@ =~= right@);
    }
    true
}

/// Whether a string slice equals a character sequence.
pub fn str_equals(text: &str, expected: &Vec<char>) -> (equal: bool)
    ensures
        equal == (text@ == expected@),
{
    let characters = chars_of(text);
    chars_equal(&characters, expected)
}

/// Lexicographic order on character sequences by code point (for UTF-8 text this is also the
/// order of the encoded bytes).
pub open spec fn seq_less(left: Seq<char>, right: Seq<char>) -> bool
    decreases left.len(),
{
    if left.len() == 0 {
        right.len() > 0
    } else if right.len() == 0 {
        false
    } else if left[0] != right[0] {
        left[0] < right[0]
    } else {
        seq_less(left.drop_first(), right.drop_first())
    }
}

pub proof fn lemma_seq_less_irreflexive(text: Seq<char>)
    ensures
        !seq_less(text, text),
    decreases text.len(),
{
    if text.len() > 0 {
        lemma_seq_less_irreflexive(text.drop_first());
    }
}

pub proof fn lemma_seq_less_transitive(a: Seq<char>, b: Seq<char>, c: Seq<char>)
    requires
        seq_less(a, b),
        seq_less(b, c),
    ensures
        seq_less(a, c),
    decreases a.len(),
{
    if a.len() > 0 && b.len() > 0 && c.len() > 0 && a[0] == b[0] && b[0] == c[0] {
        lemma_seq_less_transitive(a.drop_first(), b.drop_first(), c.drop_first());
    }
}

/// Any two sequences are equal or ordered one way.
pub proof fn lemma_seq_less_total(a: Seq<char>, b: Seq<char>)
    ensures
        a == b || seq_less(a, b) || seq_less(b, a),
        !(seq_less(a, b) && seq_less(b, a)),
    decreases a.len(),
{
    if a.len() > 0 && b.len() > 0 && a[0] == b[0] {
        lemma_seq_less_total(a.drop_first(), b.drop_first());
        if a.drop_first() == b.drop_first() {
            assert(a =~= seq![a[0]] + a.drop_first());
            assert(b =~= seq![b[0]] + b.drop_first());
        }
    } else if a.len() == 0 && b.len() == 0 {
        assert(a =~= b);
    }
}

/// Whether `left` comes before `right` in code-point order.
pub fn chars_less(left: &Vec<char>, right: &Vec<char>) -> (less: bool)
    ensures
        less == seq_less(left@, right@),
{
    let mut index: usize = 0;
    proof {
        assert(left@.skip(0) =~= left@);
        assert(right@.skip(0) =~= right@);
    }
    while index < left.len() && index < right.len()
        invariant
            index <= left@.len(),
            index <= right@.len(),
            seq_less(left@, right@) == seq_less(left@.skip(index as int), right@.skip(index as int)),
        decreases left@.len() - index,
    {
        proof {
            assert(left@.skip(index as int).drop_first() =~= left@.skip(index + 1));
            assert(right@.skip(index as int).drop_first() =~= right@.skip(index + 1));
        }
        if left[index] != right[index] {
            return left[index] < right[index];
        }
        index += 1;
    }
    left.len() < right.len()
}

/// Whether `part` occurs in `text` as a contiguous run.
pub open spec fn contains_run(text: Seq<char>, part: Seq<char>) -> bool {
    exists|start: int|
        0 <= start && start + part.len() <= text.len() && #[trigger] text.subrange(
            start,
            start + part.len(),
        ) == part
}

/// Whether `prefix` begins `text`.
pub open spec fn has_prefix(text: Seq<char>, prefix: Seq<char>) -> bool {
    prefix.len() <= text.len() && text.subrange(0, prefix.len() as int) == prefix
}

/// Whether `text` holds `part` at `start`.
fn run_at(text: &Vec<char>, part: &Vec<char>, start: usize) -> (found: bool)
    requires
        start + part@.len() <= text@.len(),
    ensures
        found == (text@.subrange(start as int, start + part@.len()) == part@),
{
    let mut index: usize = 0;
    while index < part.len()
        invariant
            start + part@.len() <= text@.len(),
            index <= part@.len(),
            forall|k: int| 0 <= k < index ==> text@[start + k] == part@[k],
        decreases part@.len() - index,
    {
        assert(start + index < text.len());
        if text[start + index] != part[index] {
            proof {
                assert(text@.subrange(start as int, start + part@.len())[index as int] != part@[index as int]);
            }
            return false;
        }
        index += 1;
    }
    proof {
        assert(text@.subrange(start as int, start + part@.len()) =~= part@);
    }
    true
}

/// Whether `prefix` begins `text`.
pub fn starts_with_chars(text: &Vec<char>, prefix: &Vec<char>) -> (found: bool)
    ensures
        found == has_prefix(text@, prefix@),
{
    if prefix.len() > text.len() {
        return false;
    }
    run_at(text, part_ref(prefix), 0)
}

fn part_ref(part: &Vec<char>) -> (same: &Vec<char>)
    ensures
        same@ == part@,
{
    part
}

/// Whether `part` occurs in `text`.
pub fn contains_chars(text: &Vec<char>, part: &Vec<char>) -> (found: bool)
    ensures
        found == contains_run(text@, part@),
{
    if part.len() > text.len() {
        return false;
    }
    let last = text.len() - part.len();
    let mut start: usize = 0;
    while start <= last
        invariant
            last + part@.len() == text@.len(),
            start <= last + 1,
            forall|k: int|
                0 <= k < start ==> #[trigger] text@.subrange(k, k + part@.len()) != part@,
        decreases last + 1 - start,
    {
        if run_at(text, part, start) {
            return true;
        }
        if start == last {
            return false;
        }
        start += 1;
    }
    false
}

/// `text` without leading whitespace.
pub open spec fn trim_start(text: Seq<char>) -> Seq<char>
    decreases text.len(),
{
    if text.len() > 0 && is_whitespace(text[0]) {
        trim_start(text.drop_first())
    } else {
        text
    }
}

/// `text` without trailing whitespace.
pub open spec fn trim_end(text: Seq<char>) -> Seq<char>
    decreases text.len(),
{
    if text.len() > 0 && is_whitespace(text.last()) {
        trim_end(text.drop_last())
    } else {
        text
    }
}

/// `text` without leading or trailing whitespace, as `str::trim` gives it.
pub open spec fn trim(text: Seq<char>) -> Seq<char> {
    trim_end(trim_start(text))
}

/// The characters of `text` without leading or trailing whitespace.
pub fn trim_chars(text: &Vec<char>) -> (trimmed: Vec<char>)
    ensures
        trimmed@ == trim(text@),
{
    let mut start: usize = 0;
    proof {
        assert(text@.skip(0) =~= text@);
    }
    while start < text.len() && char_is_whitespace(text[start])
        invariant
            start <= text@.len(),
            trim_start(text@) == trim_start(text@.skip(start as int)),
        decreases text@.len() - start,
    {
        proof {
            assert(text@.skip(start as int).drop_first() =~= text@.skip(start + 1));
        }
        start += 1;
    }
    proof {
        assert(trim_start(text@.skip(start as int)) == text@.skip(start as int));
    }
    let mut end: usize = text.len();
    while end > start && char_is_whitespace(text[end - 1])
        invariant
            start <= end <= text@.len(),
            trim_start(text@) == text@.skip(start as int),
            trim(text@) == trim_end(text@.subrange(start as int, end as int)),
        decreases end,
    {
        proof {
            assert(text@.subrange(start as int, end as int).drop_last() =~= text@.subrange(
                start as int,
                end - 1,
            ));
        }
        end -= 1;
    }
    proof {
        assert(text@.skip(start as int) =~= text@.subrange(start as int, text@.len() as int));
    }
    let mut trimmed: Vec<char> = Vec::new();
    let mut index: usize = start;
    while index < end
        invariant
            start <= index <= end <= text@.len(),
            trimmed@ == text@.subrange(start as int, index as int),
        decreases end - index,
    {
        trimmed.push(text[index]);
        index += 1;
        proof {
            assert(trimmed@ =~= text@.subrange(start as int, index as int));
        }
    }
    trimmed
}

/// The ASCII lowercase form of a character sequence.
pub fn ascii_lowercase_chars(text: &Vec<char>) -> (lower: Vec<char>)
    ensures
        lower@ == ascii_lower_seq(text@),
{
    let mut lower: Vec<char> = Vec::new();
    let mut index: usize = 0;
    while index < text.len()
        invariant
            index <= text@.len(),
            lower@ == ascii_lower_seq(text@.take(index as int)),
        decreases text@.len() - index,
    {
        lower.push(to_ascii_lower(text[index]));
        index += 1;
        proof {
            assert(lower@ =~= ascii_lower_seq(text@.take(index as int)));
        }
    }
    proof {
        assert(text@.take(text@.len() as int) =~= text@);
    }
    lower
}

/// The ASCII uppercase form of a character sequence.
pub fn ascii_uppercase_chars(text: &Vec<char>) -> (upper: Vec<char>)
    ensures
        upper@ == ascii_upper_seq(text@),
{
    let mut upper: Vec<char> = Vec::new();
    let mut index: usize = 0;
    while index < text.len()
        invariant
            index <= text@.len(),
            upper@ == ascii_upper_seq(text@.take(index as int)),
        decreases text@.len() - index,
    {
        upper.push(to_ascii_upper(text[index]));
        index += 1;
        proof {
            assert(upper@ =~= ascii_upper_seq(text@.take(index as int)));
        }
    }
    proof {
        assert(text@.take(text@.len() as int) =~= text@);
    }
    upper
}

} // verus!
