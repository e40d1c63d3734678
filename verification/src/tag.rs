//! Tags and the file names that stand for them.
//!
//! A tag is any string that is not empty, holds no `/`, `\` or NUL, and
//! holds no two dots in a row. Other tags are refused, so that no tag can
//! name a file outside the directory of the store.
//!
//! A tag is turned into a file name byte by byte, over its UTF-8 encoding.
//! Lower-case letters, digits, `_` and `-` stand for themselves; every other
//! byte becomes `%` and two upper-case hexadecimal digits. The mapping can
//! be undone, so no two tags share a name, and a name holds no separator, no
//! dot and no upper-case letter outside an escape.

use vstd::prelude::*;
use vstd::utf8::*;
use vstd::string::*;
use vstd::pervasive::unreached;
use crate::error::InvalidTagError;

verus! {

/// Characters that no tag may hold: `/`, `\` and NUL.
pub open spec fn is_forbidden_char(c: char) -> bool {
    c == '/' || c == '\\' || c == '\0'
}

/// Whether some character is forbidden.
pub open spec fn has_forbidden_char(tag: Seq<char>) -> bool {
    exists|i: int| 0 <= i < tag.len() && is_forbidden_char(#[trigger] tag[i])
}

/// Whether two dots stand side by side.
pub open spec fn has_double_dot(tag: Seq<char>) -> bool {
    exists|i: int| 0 <= i < tag.len() - 1 && #[trigger] tag[i] == '.' && tag[i + 1] == '.'
}

/// What is wrong with a tag, if anything: it is empty, it holds `/`, `\` or
/// NUL, or it holds two dots in a row.
pub open spec fn tag_defect(tag: Seq<char>) -> Option<InvalidTagError> {
    if tag.len() == 0 {
        Some(InvalidTagError::Empty)
    } else if has_forbidden_char(tag) {
        Some(InvalidTagError::ForbiddenCharacter)
    } else if has_double_dot(tag) {
        Some(InvalidTagError::ParentReference)
    } else {
        None
    }
}

/// Whether a tag may name a cache slot.
pub open spec fn valid_tag(tag: Seq<char>) -> bool {
    tag_defect(tag) is None
}

/// Bytes that no tag may hold: `/`, `\` and NUL.
pub open spec fn is_forbidden_byte(b: u8) -> bool {
    b == 0x2f || b == 0x5c || b == 0x00
}

/// Whether some byte is forbidden.
pub open spec fn has_forbidden_byte(bytes: Seq<u8>) -> bool {
    exists|i: int| 0 <= i < bytes.len() && is_forbidden_byte(#[trigger] bytes[i])
}

/// Whether two dots stand side by side.
pub open spec fn has_parent_reference(bytes: Seq<u8>) -> bool {
    exists|i: int| 0 <= i < bytes.len() - 1 && #[trigger] bytes[i] == 0x2e && bytes[i + 1] == 0x2e
}

/// What is wrong with a tag of the given UTF-8 bytes, if anything. UTF-8
/// writes no character but `/`, `\`, NUL and `.` with the bytes of these, so
/// this is what is wrong with the tag's characters: `lemma_bytes_defect`.
pub open spec fn bytes_defect(bytes: Seq<u8>) -> Option<InvalidTagError> {
    if bytes.len() == 0 {
        Some(InvalidTagError::Empty)
    } else if has_forbidden_byte(bytes) {
        Some(InvalidTagError::ForbiddenCharacter)
    } else if has_parent_reference(bytes) {
        Some(InvalidTagError::ParentReference)
    } else {
        None
    }
}

/// The byte `%`, which opens an escape.
pub const PERCENT: u8 = 0x25;

/// Bytes that stand for themselves in a file name.
pub open spec fn is_plain_byte(b: u8) -> bool {
    (0x61 <= b <= 0x7a) || (0x30 <= b <= 0x39) || b == 0x5f || b == 0x2d
}

/// The upper-case hexadecimal digit for a number below 16.
pub open spec fn hex_digit(n: u8) -> u8
    recommends
        n < 16,
{
    if n < 10 {
        (0x30 + n) as u8
    } else {
        (0x41 + (n - 10)) as u8
    }
}

/// The number that an upper-case hexadecimal digit stands for.
pub open spec fn hex_value(c: u8) -> Option<u8> {
    if 0x30 <= c <= 0x39 {
        Some((c - 0x30) as u8)
    } else if 0x41 <= c <= 0x46 {
        Some((c - 0x41 + 10) as u8)
    } else {
        None
    }
}

/// How one byte of a tag is written in a file name.
pub open spec fn escape_byte(b: u8) -> Seq<u8> {
    if is_plain_byte(b) {
        seq![b]
    } else {
        seq![PERCENT, hex_digit(b / 16), hex_digit(b % 16)]
    }
}

/// How the bytes of a tag are written in a file name.
pub open spec fn escape(bytes: Seq<u8>) -> Seq<u8>
    decreases bytes.len(),
{
    if bytes.len() == 0 {
        Seq::empty()
    } else {
        escape_byte(bytes[0]) + escape(bytes.skip(1))
    }
}

/// The byte that the front of `name` stands for, and how many bytes of
/// `name` spell it. An escape counts only if it is the one way to write its
/// byte: a plain byte is never escaped.
pub open spec fn first_escaped(name: Seq<u8>) -> Option<(u8, int)> {
    if name.len() == 0 {
        None
    } else if is_plain_byte(name[0]) {
        Some((name[0], 1))
    } else if name[0] == PERCENT && name.len() >= 3 {
        match (hex_value(name[1]), hex_value(name[2])) {
            (Some(hi), Some(lo)) => {
                let b = (hi * 16 + lo) as u8;
                if is_plain_byte(b) {
                    None
                } else {
                    Some((b, 3))
                }
            },
            _ => None,
        }
    } else {
        None
    }
}

/// `front` before what `rest` holds, if it holds anything.
pub open spec fn prepend(front: Seq<u8>, rest: Option<Seq<u8>>) -> Option<Seq<u8>> {
    match rest {
        Some(r) => Some(front + r),
        None => None,
    }
}

/// The bytes that `name` is the escaped form of, if it is one.
pub open spec fn unescape(name: Seq<u8>) -> Option<Seq<u8>>
    decreases name.len(),
{
    if name.len() == 0 {
        Some(Seq::empty())
    } else {
        match first_escaped(name) {
            Some((b, width)) => prepend(seq![b], unescape(name.skip(width))),
            None => None,
        }
    }
}

/// The string whose characters are the given ASCII bytes.
pub open spec fn ascii_text(bytes: Seq<u8>) -> Seq<char> {
    Seq::new(bytes.len(), |i: int| bytes[i] as char)
}

/// The file name that stands for a tag.
pub open spec fn tag_file_name(tag: Seq<char>) -> Seq<char> {
    ascii_text(escape(encode_utf8(tag)))
}

/// The tag that a file name stands for, if it stands for one.
pub open spec fn file_name_tag(name: Seq<char>) -> Option<Seq<char>> {
    match unescape(encode_utf8(name)) {
        Some(bytes) => if valid_utf8(bytes) && valid_tag(decode_utf8(bytes)) {
            Some(decode_utf8(bytes))
        } else {
            None
        },
        None => None,
    }
}

/// The characters of an optional string.
pub open spec fn text_of(s: Option<String>) -> Option<Seq<char>> {
    match s {
        Some(s) => Some(s@),
        None => None,
    }
}

/// The string that the given bytes encode, if they are UTF-8.
///
/// Calls `String::from_utf8`. Trusted: it succeeds exactly on valid UTF-8 and
/// then returns the characters that the bytes encode.
#[verifier::external_body]
pub(crate) fn string_from_utf8(bytes: Vec<u8>) -> (r: Option<String>)
    ensures
        r is Some <==> valid_utf8(bytes@),
        r matches Some(s) ==> s@ == decode_utf8(bytes@),
{
    match String::from_utf8(bytes) {
        Ok(s) => Some(s),
        Err(_) => None,
    }
}

fn is_plain(b: u8) -> (r: bool)
    ensures
        r == is_plain_byte(b),
{
    (0x61 <= b && b <= 0x7a) || (0x30 <= b && b <= 0x39) || b == 0x5f || b == 0x2d
}

fn hex_digit_of(n: u8) -> (r: u8)
    requires
        n < 16,
    ensures
        r == hex_digit(n),
{
    if n < 10 {
        0x30 + n
    } else {
        0x41 + (n - 10)
    }
}

fn hex_value_of(c: u8) -> (r: Option<u8>)
    ensures
        r == hex_value(c),
{
    if 0x30 <= c && c <= 0x39 {
        Some(c - 0x30)
    } else if 0x41 <= c && c <= 0x46 {
        Some(c - 0x41 + 10)
    } else {
        None
    }
}

/// Finds what is wrong with a tag of the given bytes.
pub fn check_tag_bytes(bytes: &[u8]) -> (r: Option<InvalidTagError>)
    ensures
        r == bytes_defect(bytes@),
{
    let n = bytes.len();
    if n == 0 {
        return Some(InvalidTagError::Empty);
    }
    let mut forbidden = false;
    let mut parent = false;
    let mut i: usize = 0;
    while i < n
        invariant
            0 <= i <= n,
            n == bytes@.len(),
            forbidden == has_forbidden_byte(bytes@.take(i as int)),
            parent == has_parent_reference(bytes@.take(i as int)),
        decreases n - i,
    {
        let b = bytes[i];
        let ghost before = bytes@.take(i as int);
        let ghost after = bytes@.take(i + 1);
        let hit = b == 0x2f || b == 0x5c || b == 0x00;
        let pair = b == 0x2e && i > 0 && bytes[i - 1] == 0x2e;
        proof {
            assert(forall|j: int| 0 <= j < i ==> before[j] == after[j]);
            assert(after[i as int] == b);
            if has_forbidden_byte(before) {
                let j = choose|j: int| 0 <= j < before.len() && is_forbidden_byte(before[j]);
                assert(is_forbidden_byte(after[j]));
            }
            if hit {
                assert(is_forbidden_byte(after[i as int]));
            }
            if has_forbidden_byte(after) && !hit {
                let j = choose|j: int| 0 <= j < after.len() && is_forbidden_byte(after[j]);
                assert(is_forbidden_byte(before[j]));
            }
            if has_parent_reference(before) {
                let j = choose|j: int|
                    0 <= j < before.len() - 1 && #[trigger] before[j] == 0x2e && before[j + 1]
                        == 0x2e;
                assert(after[j] == 0x2e && after[j + 1] == 0x2e);
            }
            if pair {
                assert(after[i - 1] == 0x2e && after[i - 1 + 1] == 0x2e);
            }
            if has_parent_reference(after) && !pair {
                let j = choose|j: int|
                    0 <= j < after.len() - 1 && #[trigger] after[j] == 0x2e && after[j + 1]
                        == 0x2e;
                assert(before[j] == 0x2e && before[j + 1] == 0x2e);
            }
        }
        forbidden = forbidden || hit;
        parent = parent || pair;
        i += 1;
    }
    assert(bytes@.take(n as int) =~= bytes@);
    if forbidden {
        Some(InvalidTagError::ForbiddenCharacter)
    } else if parent {
        Some(InvalidTagError::ParentReference)
    } else {
        None
    }
}

/// Writes the bytes of a tag as the bytes of its file name.
pub fn escape_bytes(bytes: &[u8]) -> (r: Vec<u8>)
    ensures
        r@ == escape(bytes@),
{
    let n = bytes.len();
    let mut out: Vec<u8> = Vec::new();
    let mut i: usize = 0;
    assert(bytes@.skip(0) =~= bytes@);
    while i < n
        invariant
            0 <= i <= n,
            n == bytes@.len(),
            escape(bytes@) == out@ + escape(bytes@.skip(i as int)),
        decreases n - i,
    {
        let b = bytes[i];
        let ghost rest = bytes@.skip(i as int);
        let ghost was = out@;
        assert(rest[0] == b);
        assert(rest.skip(1) =~= bytes@.skip(i + 1));
        if is_plain(b) {
            out.push(b);
        } else {
            out.push(PERCENT);
            out.push(hex_digit_of(b / 16));
            out.push(hex_digit_of(b % 16));
        }
        assert(out@ =~= was + escape_byte(b));
        assert(was + (escape_byte(b) + escape(rest.skip(1))) =~= (was + escape_byte(b)) + escape(
            rest.skip(1),
        ));
        i += 1;
    }
    assert(escape(bytes@.skip(n as int)) =~= Seq::<u8>::empty());
    assert(out@ + Seq::<u8>::empty() =~= out@);
    out
}


/// Reads the bytes of a file name back into the bytes of a tag.
pub fn unescape_bytes(name: &[u8]) -> (r: Option<Vec<u8>>)
    ensures
        match r {
            Some(bytes) => unescape(name@) == Some(bytes@),
            None => unescape(name@) is None,
        },
{
    let n = name.len();
    let mut out: Vec<u8> = Vec::new();
    let mut i: usize = 0;
    assert(name@.skip(0) =~= name@);
    assert(Seq::<u8>::empty() + unescape(name@).unwrap() =~= unescape(name@).unwrap());
    while i < n
        invariant
            0 <= i <= n,
            n == name@.len(),
            unescape(name@) == prepend(out@, unescape(name@.skip(i as int))),
        decreases n - i,
    {
        let ghost rest = name@.skip(i as int);
        let ghost was = out@;
        let b = name[i];
        assert(rest[0] == b);
        let width: usize;
        if is_plain(b) {
            out.push(b);
            width = 1;
        } else if b == PERCENT && n - i >= 3 {
            assert(rest[1] == name@[i + 1] && rest[2] == name@[i + 2]);
            let hi = hex_value_of(name[i + 1]);
            let lo = hex_value_of(name[i + 2]);
            match (hi, lo) {
                (Some(hi), Some(lo)) => {
                    let value = hi * 16 + lo;
                    if is_plain(value) {
                        return None;
                    }
                    out.push(value);
                    width = 3;
                },
                _ => {
                    return None;
                },
            }
        } else {
            return None;
        }
        proof {
            let tail = unescape(rest.skip(width as int));
            assert(rest.skip(width as int) =~= name@.skip(i + width));
            assert(first_escaped(rest) == Some((out@.last(), width as int)));
            assert(out@ =~= was + seq![out@.last()]);
            if let Some(t) = tail {
                assert(was + (seq![out@.last()] + t) =~= out@ + t);
            }
        }
        i += width;
    }
    assert(unescape(name@.skip(n as int)) == Some(Seq::<u8>::empty()));
    assert(out@ + Seq::<u8>::empty() =~= out@);
    Some(out)
}

/// A hexadecimal digit and its number determine each other.
proof fn lemma_hex_digits(n: u8)
    requires
        n < 16,
    ensures
        hex_value(hex_digit(n)) == Some(n),
        !is_plain_byte(hex_digit(n)) || hex_digit(n) < 0x3a,
        hex_digit(n) < 128,
{
}

/// The escaped form of a byte, in front of anything, is read back as that
/// byte.
proof fn lemma_first_escaped_of_escape(b: u8, rest: Seq<u8>)
    ensures
        first_escaped(escape_byte(b) + rest) == Some((b, escape_byte(b).len() as int)),
        (escape_byte(b) + rest).skip(escape_byte(b).len() as int) == rest,
{
    let name = escape_byte(b) + rest;
    assert(name.skip(escape_byte(b).len() as int) =~= rest);
    if !is_plain_byte(b) {
        lemma_hex_digits(b / 16);
        lemma_hex_digits(b % 16);
        assert(name[0] == PERCENT && name[1] == hex_digit(b / 16) && name[2] == hex_digit(b % 16));
        assert((b / 16) * 16 + b % 16 == b);
    } else {
        assert(name[0] == b);
    }
}

/// What the front of a name is read as was written as that front.
proof fn lemma_escape_of_first_escaped(name: Seq<u8>)
    requires
        first_escaped(name) is Some,
    ensures
        ({
            let (b, width) = first_escaped(name).unwrap();
            0 < width <= name.len() && name.take(width) == escape_byte(b)
        }),
{
    let (b, width) = first_escaped(name).unwrap();
    if is_plain_byte(name[0]) {
        assert(name.take(1) =~= seq![name[0]]);
    } else {
        let hi = hex_value(name[1]).unwrap();
        let lo = hex_value(name[2]).unwrap();
        assert(b == hi * 16 + lo);
        assert(b / 16 == hi && b % 16 == lo);
        assert(hex_digit(hi) == name[1] && hex_digit(lo) == name[2]);
        assert(name.take(3) =~= seq![PERCENT, name[1], name[2]]);
    }
}

/// Unescaping undoes escaping.
pub proof fn lemma_unescape_escape(bytes: Seq<u8>)
    ensures
        unescape(escape(bytes)) == Some(bytes),
    decreases bytes.len(),
{
    if bytes.len() > 0 {
        let rest = escape(bytes.skip(1));
        lemma_first_escaped_of_escape(bytes[0], rest);
        lemma_unescape_escape(bytes.skip(1));
        assert(seq![bytes[0]] + bytes.skip(1) =~= bytes);
        assert(escape(bytes).len() > 0);
    }
}

/// Only the escaped form of some bytes is unescaped to them.
pub proof fn lemma_escape_unescape(name: Seq<u8>)
    requires
        unescape(name) is Some,
    ensures
        escape(unescape(name).unwrap()) == name,
    decreases name.len(),
{
    if name.len() > 0 {
        let (b, width) = first_escaped(name).unwrap();
        lemma_escape_of_first_escaped(name);
        let tail = name.skip(width);
        lemma_escape_unescape(tail);
        let bytes = unescape(name).unwrap();
        assert(bytes == seq![b] + unescape(tail).unwrap());
        assert(bytes[0] == b);
        assert(bytes.skip(1) =~= unescape(tail).unwrap());
        assert(name.take(width) + name.skip(width) =~= name);
    }
}

/// Escaping is one-to-one.
pub proof fn lemma_escape_injective(a: Seq<u8>, b: Seq<u8>)
    requires
        escape(a) == escape(b),
    ensures
        a == b,
{
    lemma_unescape_escape(a);
    lemma_unescape_escape(b);
}

/// Bytes that may occur in the file name of a tag: the plain bytes, `%` and
/// the upper-case hexadecimal digits.
pub open spec fn is_name_byte(b: u8) -> bool {
    is_plain_byte(b) || b == PERCENT || (0x41 <= b <= 0x46)
}

/// The escaped form holds name bytes only, and at least one for each byte.
pub proof fn lemma_escape_bytes(bytes: Seq<u8>)
    ensures
        forall|i: int| 0 <= i < escape(bytes).len() ==> is_name_byte(#[trigger] escape(bytes)[i]),
        escape(bytes).len() >= bytes.len(),
    decreases bytes.len(),
{
    if bytes.len() > 0 {
        lemma_escape_bytes(bytes.skip(1));
        lemma_hex_digits(bytes[0] / 16);
        lemma_hex_digits(bytes[0] % 16);
        let front = escape_byte(bytes[0]);
        let rest = escape(bytes.skip(1));
        assert forall|i: int| 0 <= i < escape(bytes).len() implies is_name_byte(
            #[trigger] escape(bytes)[i],
        ) by {
            if i < front.len() {
                assert(escape(bytes)[i] == front[i]);
            } else {
                assert(escape(bytes)[i] == rest[i - front.len()]);
            }
        }
    }
}

/// ASCII bytes are the UTF-8 encoding of the text they spell.
pub proof fn lemma_ascii_text(bytes: Seq<u8>)
    requires
        forall|i: int| 0 <= i < bytes.len() ==> #[trigger] bytes[i] < 128,
    ensures
        encode_utf8(ascii_text(bytes)) == bytes,
        valid_utf8(bytes),
        decode_utf8(bytes) == ascii_text(bytes),
{
    let text = ascii_text(bytes);
    assert(is_ascii_chars(text)) by {
        assert forall|i: int| 0 <= i < text.len() implies '\0' <= #[trigger] text[i] <= '\u{7f}' by {
            assert(bytes[i] < 128);
        }
    }
    is_ascii_chars_encode_utf8(text);
    assert(encode_utf8(text) =~= bytes) by {
        assert forall|i: int| 0 <= i < bytes.len() implies encode_utf8(text)[i] == bytes[i] by {
            assert(text[i] as u8 == encode_utf8(text)[i]);
            assert(bytes[i] < 128);
            assert((bytes[i] as char) as u8 == bytes[i]);
        }
    }
    encode_utf8_valid_utf8(text);
    encode_utf8_decode_utf8(text);
}

/// The file name of a tag is read back as that tag.
pub proof fn lemma_file_name_round_trip(tag: Seq<char>)
    requires
        valid_tag(tag),
    ensures
        file_name_tag(tag_file_name(tag)) == Some(tag),
{
    let bytes = encode_utf8(tag);
    let name = escape(bytes);
    lemma_bytes_defect(tag);
    lemma_escape_bytes(bytes);
    lemma_ascii_text(name);
    lemma_unescape_escape(bytes);
    encode_utf8_valid_utf8(tag);
    encode_utf8_decode_utf8(tag);
}

/// A file name that is read as a tag is the file name of that tag, and the
/// tag is valid.
pub proof fn lemma_file_name_canonical(name: Seq<char>)
    requires
        file_name_tag(name) is Some,
    ensures
        valid_tag(file_name_tag(name).unwrap()),
        tag_file_name(file_name_tag(name).unwrap()) == name,
{
    let name_bytes = encode_utf8(name);
    let bytes = unescape(name_bytes).unwrap();
    let tag = decode_utf8(bytes);
    decode_utf8_encode_utf8(bytes);
    lemma_escape_unescape(name_bytes);
    lemma_escape_bytes(bytes);
    lemma_ascii_text(name_bytes);
    encode_utf8_decode_utf8(name);
}

/// No two tags have the same file name.
pub proof fn lemma_file_name_injective(a: Seq<char>, b: Seq<char>)
    requires
        tag_file_name(a) == tag_file_name(b),
    ensures
        a == b,
{
    lemma_escape_bytes(encode_utf8(a));
    lemma_escape_bytes(encode_utf8(b));
    lemma_ascii_text(escape(encode_utf8(a)));
    lemma_ascii_text(escape(encode_utf8(b)));
    lemma_escape_injective(encode_utf8(a), encode_utf8(b));
    encode_utf8_decode_utf8(a);
    encode_utf8_decode_utf8(b);
}

/// Characters that may occur in the file name of a tag.
pub open spec fn is_name_char(c: char) -> bool {
    ('a' <= c <= 'z') || ('0' <= c <= '9') || c == '_' || c == '-' || c == '%' || ('A' <= c <= 'F')
}

/// The file name of a tag is one path segment that stays in its directory:
/// it is not empty unless the tag is, and it is made of lower-case letters,
/// digits, `_`, `-`, `%` and the letters `A` to `F`, so it holds no
/// separator, no dot and no NUL.
pub proof fn lemma_file_name_safe(tag: Seq<char>)
    ensures
        tag.len() > 0 ==> tag_file_name(tag).len() > 0,
        forall|i: int|
            0 <= i < tag_file_name(tag).len() ==> is_name_char(#[trigger] tag_file_name(tag)[i]),
{
    let bytes = encode_utf8(tag);
    lemma_escape_bytes(bytes);
    if tag.len() > 0 {
        encode_utf8_decode_utf8(tag);
        assert(bytes.len() > 0) by {
            if bytes.len() == 0 {
                assert(decode_utf8(bytes) =~= Seq::<char>::empty());
            }
        }
    }
    assert forall|i: int| 0 <= i < tag_file_name(tag).len() implies is_name_char(
        #[trigger] tag_file_name(tag)[i],
    ) by {
        let b = escape(bytes)[i];
        assert(is_name_byte(b));
        assert(tag_file_name(tag)[i] == b as char);
    }
}

/// Whether `name` names something inside a directory when it is joined to
/// the path of the directory: it is not empty, holds no separator and no
/// NUL, and is neither `.` nor `..`.
pub open spec fn is_path_segment(name: Seq<char>) -> bool {
    &&& name.len() > 0
    &&& !has_forbidden_char(name)
    &&& name != seq!['.']
    &&& name != seq!['.', '.']
}

/// The file name of a tag that is not empty names a file inside the
/// directory of the store.
pub proof fn lemma_file_name_is_segment(tag: Seq<char>)
    requires
        tag.len() > 0,
    ensures
        is_path_segment(tag_file_name(tag)),
{
    let name = tag_file_name(tag);
    lemma_file_name_safe(tag);
    assert(is_name_char(name[0]));
    if has_forbidden_char(name) {
        let i = choose|i: int| 0 <= i < name.len() && is_forbidden_char(name[i]);
        assert(is_name_char(name[i]));
    }
    assert(seq!['.'][0] == '.');
    assert(seq!['.', '.'][0] == '.');
}

/// UTF-8 writes an ASCII character as the one byte of its number, and every
/// other character in bytes above the ASCII range.
proof fn lemma_scalar_bytes(c: char)
    ensures
        encode_scalar(c as u32).len() >= 1,
        (c as u32) < 0x80 ==> encode_scalar(c as u32).len() == 1 && encode_scalar(c as u32)[0] as u32
            == c as u32,
        (c as u32) >= 0x80 ==> forall|j: int|
            0 <= j < encode_scalar(c as u32).len() ==> #[trigger] encode_scalar(c as u32)[j] >= 0x80,
{
    let v = c as u32;
    char_is_scalar(c);
    if v < 0x80 {
        assert(((v & 0x7f) as u8) as u32 == v) by (bit_vector)
            requires
                v < 0x80,
        ;
    } else {
        assert(forall|x: u8|
            (0xc0u8 | x) >= 0x80 && (0xe0u8 | x) >= 0x80 && (0xf0u8 | x) >= 0x80 && (0x80u8 | x)
                >= 0x80) by (bit_vector);
    }
}

/// A character and the byte of its number are the same sign.
proof fn lemma_char_of_byte(c: char, b: u8)
    requires
        c as u32 == b as u32,
    ensures
        is_forbidden_byte(b) == is_forbidden_char(c),
        (b == 0x2e) == (c == '.'),
{
    char_u32_cast(c, c as u32);
    assert('.' as u32 == 0x2e && '/' as u32 == 0x2f && '\\' as u32 == 0x5c && '\0' as u32 == 0);
    char_u32_cast('.', 0x2e);
    char_u32_cast('/', 0x2f);
    char_u32_cast('\\', 0x5c);
    char_u32_cast('\0', 0);
}

/// The bytes of a tag hold a forbidden byte exactly where the tag holds a
/// forbidden character, and two dots in a row exactly where the tag does.
proof fn lemma_defects_of_utf8(tag: Seq<char>)
    ensures
        encode_utf8(tag).len() >= tag.len(),
        tag.len() > 0 ==> (encode_utf8(tag)[0] < 0x80 <==> (tag[0] as u32) < 0x80),
        tag.len() > 0 && (tag[0] as u32) < 0x80 ==> encode_utf8(tag)[0] as u32 == tag[0] as u32,
        has_forbidden_byte(encode_utf8(tag)) == has_forbidden_char(tag),
        has_parent_reference(encode_utf8(tag)) == has_double_dot(tag),
    decreases tag.len(),
{
    if tag.len() > 0 {
        let rest = tag.drop_first();
        let front = encode_scalar(tag[0] as u32);
        let tail = encode_utf8(rest);
        let bytes = encode_utf8(tag);
        lemma_defects_of_utf8(rest);
        lemma_scalar_bytes(tag[0]);
        assert(bytes == front + tail);
        assert(bytes[0] == front[0]);
        assert forall|p: int| 0 <= p < bytes.len() implies #[trigger] bytes[p] == (if p
            < front.len() {
            front[p]
        } else {
            tail[p - front.len()]
        }) by {}
        if (tag[0] as u32) < 0x80 {
            lemma_char_of_byte(tag[0], front[0]);
        }
        if rest.len() > 0 && (rest[0] as u32) < 0x80 {
            lemma_char_of_byte(rest[0], tail[0]);
        }
        assert(!is_forbidden_char(tag[0]) || (tag[0] as u32) < 0x80);
        assert(tag[0] != '.' || (tag[0] as u32) < 0x80);
        if rest.len() > 0 {
            assert(rest[0] != '.' || (rest[0] as u32) < 0x80);
        }
        // forbidden bytes
        if has_forbidden_char(tag) {
            let i = choose|i: int| 0 <= i < tag.len() && is_forbidden_char(tag[i]);
            if i == 0 {
                assert(is_forbidden_byte(bytes[0]));
            } else {
                assert(is_forbidden_char(rest[i - 1]));
                let p = choose|p: int| 0 <= p < tail.len() && is_forbidden_byte(tail[p]);
                assert(is_forbidden_byte(bytes[p + front.len()]));
            }
        }
        if has_forbidden_byte(bytes) {
            let p = choose|p: int| 0 <= p < bytes.len() && is_forbidden_byte(bytes[p]);
            if p < front.len() {
                assert(front[p] < 0x80);
                assert(p == 0);
                assert(is_forbidden_char(tag[0]));
            } else {
                assert(is_forbidden_byte(tail[p - front.len()]));
                let i = choose|i: int| 0 <= i < rest.len() && is_forbidden_char(rest[i]);
                assert(is_forbidden_char(tag[i + 1]));
            }
        }
        // two dots in a row
        if has_double_dot(tag) {
            let i = choose|i: int|
                0 <= i < tag.len() - 1 && #[trigger] tag[i] == '.' && tag[i + 1] == '.';
            if i == 0 {
                assert(rest[0] == '.');
                assert(bytes[0] == 0x2e && bytes[0int + 1] == tail[0]);
            } else {
                assert(rest[i - 1] == '.' && rest[i - 1 + 1] == '.');
                let p = choose|p: int|
                    0 <= p < tail.len() - 1 && #[trigger] tail[p] == 0x2e && tail[p + 1] == 0x2e;
                let q = p + front.len();
                assert(bytes[q] == 0x2e && bytes[q + 1] == 0x2e);
            }
        }
        if has_parent_reference(bytes) {
            let p = choose|p: int|
                0 <= p < bytes.len() - 1 && #[trigger] bytes[p] == 0x2e && bytes[p + 1] == 0x2e;
            if p < front.len() {
                assert(front[p] < 0x80);
                assert(p == 0 && front.len() == 1);
                assert(tag[0] == '.');
                assert(bytes[1] == tail[0]);
                assert(rest[0] == '.');
                assert(tag[0] == '.' && tag[0int + 1] == '.');
            } else {
                let q = p - front.len();
                assert(tail[q] == 0x2e && tail[q + 1] == 0x2e);
                let i = choose|i: int|
                    0 <= i < rest.len() - 1 && #[trigger] rest[i] == '.' && rest[i + 1] == '.';
                assert(tag[i + 1] == '.' && tag[i + 1 + 1] == '.');
            }
        }
    }
}

/// What is wrong with the bytes of a tag is what is wrong with its
/// characters: a tag is refused if and only if it is empty, holds `/`, `\`
/// or NUL, or holds two dots in a row.
pub proof fn lemma_bytes_defect(tag: Seq<char>)
    ensures
        bytes_defect(encode_utf8(tag)) == tag_defect(tag),
{
    lemma_defects_of_utf8(tag);
}

/// The mapping between tags and file names.
#[derive(Clone, Copy, Debug)]
pub struct TagCodec;

impl TagCodec {
    /// The file name for a tag, or why the tag is refused.
    pub fn encode(tag: &str) -> (r: Result<String, InvalidTagError>)
        ensures
            match r {
                Ok(name) => valid_tag(tag@) && name@ == tag_file_name(tag@),
                Err(e) => tag_defect(tag@) == Some(e),
            },
    {
        let bytes = tag.as_bytes();
        proof {
            lemma_bytes_defect(tag@);
        }
        match check_tag_bytes(bytes) {
            Some(e) => Err(e),
            None => {
                let name = escape_bytes(bytes);
                proof {
                    lemma_escape_bytes(bytes@);
                    lemma_ascii_text(name@);
                }
                match string_from_utf8(name) {
                    Some(s) => Ok(s),
                    None => unreached(),
                }
            },
        }
    }

    /// The tag that a file name stands for, or `None` for a name that is not
    /// the file name of any tag.
    pub fn decode(segment: &str) -> (r: Option<String>)
        ensures
            text_of(r) == file_name_tag(segment@),
    {
        match unescape_bytes(segment.as_bytes()) {
            None => None,
            Some(bytes) => {
                proof {
                    if valid_utf8(bytes@) {
                        decode_utf8_encode_utf8(bytes@);
                        lemma_bytes_defect(decode_utf8(bytes@));
                    }
                }
                if check_tag_bytes(bytes.as_slice()).is_some() {
                    None
                } else {
                    string_from_utf8(bytes)
                }
            },
        }
    }
}

} // verus!
