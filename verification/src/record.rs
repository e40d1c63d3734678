//! The layout of an entry file.
//!
//! A file begins with a four-byte mark. Fields follow, each made of one byte
//! that says which field it is, the length of its value as eight
//! little-endian bytes, and the value. A reader skips fields it does not
//! know, so later versions may add fields. Where a field occurs twice the
//! later one counts.

use vstd::prelude::*;
use vstd::utf8::*;
use vstd::bytes::*;
use vstd::slice::*;
use vstd::string::*;
use crate::entry::{CachedContent, EntryView, span_nanos};
use crate::error::EncodingError;
use crate::tag::string_from_utf8;
use crate::time::TimeSpan;

verus! {

/// The field that holds the update time: sixteen little-endian bytes of
/// nanoseconds since the epoch.
pub const FIELD_UPDATE_TIME: u8 = 1;

/// The field that holds the expiry time, as the update time is held. An
/// empty value, like an absent field, says that the entry never expires.
pub const FIELD_EXPIRES_AT: u8 = 2;

/// The field that holds the tag in UTF-8.
pub const FIELD_TAG: u8 = 3;

/// The field that holds the content.
pub const FIELD_CONTENT: u8 = 4;

/// The mark at the front of every entry file: `CCS` and the format's number.
pub open spec fn magic() -> Seq<u8> {
    seq![0x43u8, 0x43u8, 0x53u8, 0x01u8]
}

/// One field as it stands in a file.
pub open spec fn field(id: u8, value: Seq<u8>) -> Seq<u8> {
    seq![id] + (spec_u64_to_le_bytes(value.len() as u64) + value)
}

/// A time as it stands in a field.
pub open spec fn time_bytes(t: nat) -> Seq<u8> {
    spec_u128_to_le_bytes(t as u128)
}

/// What an entry file holds: a tag and the entry stored under it, its
/// content as bytes.
pub ghost struct RecordView {
    pub tag: Seq<char>,
    pub entry: EntryView<Seq<u8>>,
}

impl RecordView {
    /// Whether the record can be written: its times fit in sixteen bytes and
    /// the lengths of its tag and content in eight.
    pub open spec fn wf(self) -> bool {
        &&& self.entry.update_time <= u128::MAX
        &&& (self.entry.expires_at matches Some(at) ==> at <= u128::MAX)
        &&& encode_utf8(self.tag).len() <= u64::MAX
        &&& self.entry.content.len() <= u64::MAX
    }

    /// The expiry field of the record: none for an entry that never expires.
    pub open spec fn expiry_field(self) -> Seq<u8> {
        match self.entry.expires_at {
            Some(at) => field(FIELD_EXPIRES_AT, time_bytes(at)),
            None => Seq::empty(),
        }
    }

    /// The bytes of the file that holds the record.
    pub open spec fn to_bytes(self) -> Seq<u8> {
        magic() + (field(FIELD_UPDATE_TIME, time_bytes(self.entry.update_time)) + (
        self.expiry_field() + (field(FIELD_TAG, encode_utf8(self.tag)) + (field(
            FIELD_CONTENT,
            self.entry.content,
        ) + Seq::empty()))))
    }
}

/// The fields read so far from a file.
pub ghost struct Fields {
    pub update_time: Option<nat>,
    pub expires_at: Option<nat>,
    pub tag: Option<Seq<char>>,
    pub content: Option<Seq<u8>>,
}

impl Fields {
    /// No field read yet.
    pub open spec fn none() -> Fields {
        Fields { update_time: None, expires_at: None, tag: None, content: None }
    }

    /// The fields after one more field was read, or why its value is
    /// refused. A field of a kind not known leaves them as they are.
    pub open spec fn with(self, id: u8, value: Seq<u8>) -> Result<Fields, EncodingError> {
        if id == FIELD_UPDATE_TIME {
            if value.len() == 16 {
                Ok(Fields { update_time: Some(spec_u128_from_le_bytes(value) as nat), ..self })
            } else {
                Err(EncodingError::Malformed)
            }
        } else if id == FIELD_EXPIRES_AT {
            if value.len() == 0 {
                Ok(Fields { expires_at: None, ..self })
            } else if value.len() == 16 {
                Ok(Fields { expires_at: Some(spec_u128_from_le_bytes(value) as nat), ..self })
            } else {
                Err(EncodingError::Malformed)
            }
        } else if id == FIELD_TAG {
            if valid_utf8(value) {
                Ok(Fields { tag: Some(decode_utf8(value)), ..self })
            } else {
                Err(EncodingError::Malformed)
            }
        } else if id == FIELD_CONTENT {
            Ok(Fields { content: Some(value), ..self })
        } else {
            Ok(self)
        }
    }

    /// The record that the fields make up, if none that is needed is absent.
    pub open spec fn finish(self) -> Result<RecordView, EncodingError> {
        match (self.update_time, self.tag, self.content) {
            (Some(update_time), Some(tag), Some(content)) => Ok(
                RecordView {
                    tag,
                    entry: EntryView { update_time, expires_at: self.expires_at, content },
                },
            ),
            _ => Err(EncodingError::MissingField),
        }
    }
}

/// Reads the fields in `bytes`, one after the other, on top of `acc`.
pub open spec fn parse_fields(bytes: Seq<u8>, acc: Fields) -> Result<Fields, EncodingError>
    decreases bytes.len(),
{
    if bytes.len() == 0 {
        Ok(acc)
    } else if bytes.len() < 9 {
        Err(EncodingError::Truncated)
    } else {
        let len = spec_u64_from_le_bytes(bytes.subrange(1, 9));
        if len > bytes.len() - 9 {
            Err(EncodingError::Truncated)
        } else {
            match acc.with(bytes[0], bytes.subrange(9, 9 + len)) {
                Err(e) => Err(e),
                Ok(next) => parse_fields(bytes.skip(9 + len), next),
            }
        }
    }
}

/// The record that the bytes of a file hold, or why they hold none.
pub open spec fn parse_record(bytes: Seq<u8>) -> Result<RecordView, EncodingError> {
    if bytes.len() < 4 || bytes.take(4) != magic() {
        Err(EncodingError::BadMagic)
    } else {
        match parse_fields(bytes.skip(4), Fields::none()) {
            Err(e) => Err(e),
            Ok(fields) => fields.finish(),
        }
    }
}

/// An entry as its file holds it: content as bytes.
pub open spec fn stored_view(entry: CachedContent<Vec<u8>>) -> EntryView<Seq<u8>> {
    entry@.with_content(entry@.content@)
}

/// A record read from a file.
#[derive(Clone, Debug, PartialEq, Eq)]
pub struct StoredRecord {
    /// The tag under which the entry was stored.
    pub tag: String,
    /// The entry, its content as the bytes that were stored.
    pub entry: CachedContent<Vec<u8>>,
}

impl View for StoredRecord {
    type V = RecordView;

    open spec fn view(&self) -> RecordView {
        RecordView { tag: self.tag@, entry: stored_view(self.entry) }
    }
}

/// A field in front of other bytes is read first, and the other bytes after
/// it.
pub proof fn lemma_parse_field(id: u8, value: Seq<u8>, rest: Seq<u8>, acc: Fields)
    requires
        value.len() <= u64::MAX,
    ensures
        parse_fields(field(id, value) + rest, acc) == match acc.with(id, value) {
            Err(e) => Err(e),
            Ok(next) => parse_fields(rest, next),
        },
{
    lemma_auto_spec_u64_to_from_le_bytes();
    let len_bytes = spec_u64_to_le_bytes(value.len() as u64);
    let bytes = field(id, value) + rest;
    assert(bytes.len() == 9 + value.len() + rest.len());
    assert(bytes[0] == id);
    assert(bytes.subrange(1, 9) =~= len_bytes);
    assert(bytes.subrange(9, 9 + value.len() as int) =~= value);
    assert(bytes.skip(9 + value.len() as int) =~= rest);
}

/// A field of a kind that is not known changes nothing of what is read.
pub proof fn lemma_unknown_field_skipped(id: u8, value: Seq<u8>, rest: Seq<u8>, acc: Fields)
    requires
        value.len() <= u64::MAX,
        id != FIELD_UPDATE_TIME,
        id != FIELD_EXPIRES_AT,
        id != FIELD_TAG,
        id != FIELD_CONTENT,
    ensures
        parse_fields(field(id, value) + rest, acc) == parse_fields(rest, acc),
{
    lemma_parse_field(id, value, rest, acc);
}

/// A file reads the same with a field of an unknown kind put before its
/// fields.
pub proof fn lemma_unknown_field_ignored(id: u8, value: Seq<u8>, body: Seq<u8>)
    requires
        value.len() <= u64::MAX,
        id != FIELD_UPDATE_TIME,
        id != FIELD_EXPIRES_AT,
        id != FIELD_TAG,
        id != FIELD_CONTENT,
    ensures
        parse_record(magic() + (field(id, value) + body)) == parse_record(magic() + body),
{
    lemma_unknown_field_skipped(id, value, body, Fields::none());
    let with = magic() + (field(id, value) + body);
    let without = magic() + body;
    assert(with.take(4) =~= magic());
    assert(without.take(4) =~= magic());
    assert(with.skip(4) =~= field(id, value) + body);
    assert(without.skip(4) =~= body);
}

/// The bytes written for a record are read back as that record.
pub proof fn lemma_record_round_trip(r: RecordView)
    requires
        r.wf(),
    ensures
        parse_record(r.to_bytes()) == Ok::<RecordView, EncodingError>(r),
{
    lemma_auto_spec_u128_to_from_le_bytes();
    let f4 = field(FIELD_CONTENT, r.entry.content) + Seq::empty();
    let f3 = field(FIELD_TAG, encode_utf8(r.tag)) + f4;
    let f2 = r.expiry_field() + f3;
    let f1 = field(FIELD_UPDATE_TIME, time_bytes(r.entry.update_time)) + f2;
    let bytes = r.to_bytes();
    assert(bytes.take(4) =~= magic());
    assert(bytes.skip(4) =~= f1);
    let a0 = Fields::none();
    let a1 = Fields { update_time: Some(r.entry.update_time), ..a0 };
    let a2 = Fields { expires_at: r.entry.expires_at, ..a1 };
    let a3 = Fields { tag: Some(r.tag), ..a2 };
    let a4 = Fields { content: Some(r.entry.content), ..a3 };
    lemma_parse_field(FIELD_UPDATE_TIME, time_bytes(r.entry.update_time), f2, a0);
    assert(spec_u128_from_le_bytes(time_bytes(r.entry.update_time)) as nat == r.entry.update_time);
    assert(parse_fields(f1, a0) == parse_fields(f2, a1));
    match r.entry.expires_at {
        Some(at) => {
            lemma_parse_field(FIELD_EXPIRES_AT, time_bytes(at), f3, a1);
            assert(spec_u128_from_le_bytes(time_bytes(at)) as nat == at);
        },
        None => {
            assert(f2 =~= f3);
            assert(a2 == a1);
        },
    }
    assert(parse_fields(f2, a1) == parse_fields(f3, a2));
    encode_utf8_valid_utf8(r.tag);
    encode_utf8_decode_utf8(r.tag);
    lemma_parse_field(FIELD_TAG, encode_utf8(r.tag), f4, a2);
    assert(parse_fields(f3, a2) == parse_fields(f4, a3));
    lemma_parse_field(FIELD_CONTENT, r.entry.content, Seq::empty(), a3);
    assert(parse_fields(f4, a3) == Ok::<Fields, EncodingError>(a4));
    assert(a4.finish() == Ok::<RecordView, EncodingError>(r));
}

/// An expiry field with an empty value says the same as no expiry field:
/// the entry never expires.
pub proof fn lemma_empty_expiry_is_never(rest: Seq<u8>, acc: Fields)
    ensures
        parse_fields(field(FIELD_EXPIRES_AT, Seq::empty()) + rest, acc) == parse_fields(
            rest,
            Fields { expires_at: None, ..acc },
        ),
{
    lemma_parse_field(FIELD_EXPIRES_AT, Seq::empty(), rest, acc);
}

fn extend(out: &mut Vec<u8>, bytes: &[u8])
    ensures
        final(out)@ == old(out)@ + bytes@,
{
    let n = bytes.len();
    let mut i: usize = 0;
    assert(bytes@.take(0) =~= Seq::<u8>::empty());
    assert(out@ + Seq::<u8>::empty() =~= out@);
    while i < n
        invariant
            0 <= i <= n,
            n == bytes@.len(),
            out@ == old(out)@ + bytes@.take(i as int),
        decreases n - i,
    {
        out.push(bytes[i]);
        assert(bytes@.take(i + 1) =~= bytes@.take(i as int).push(bytes@[i as int]));
        assert(out@ =~= old(out)@ + bytes@.take(i + 1));
        i += 1;
    }
    assert(bytes@.take(n as int) =~= bytes@);
}

fn push_field(out: &mut Vec<u8>, id: u8, value: &[u8])
    ensures
        final(out)@ == old(out)@ + field(id, value@),
{
    out.push(id);
    let len = u64_to_le_bytes(value.len() as u64);
    extend(out, len.as_slice());
    extend(out, value);
    assert(out@ =~= old(out)@ + field(id, value@));
}

/// Writes the file for `entry` stored under `tag`.
pub fn serialize(tag: &str, entry: &CachedContent<Vec<u8>>) -> (r: Vec<u8>)
    ensures
        r@ == (RecordView { tag: tag@, entry: stored_view(*entry) }).to_bytes(),
        (RecordView { tag: tag@, entry: stored_view(*entry) }).wf(),
{
    let ghost view = RecordView { tag: tag@, entry: stored_view(*entry) };
    proof {
        entry.lemma_view_bounds();
    }
    let mut out: Vec<u8> = Vec::new();
    out.push(0x43);
    out.push(0x43);
    out.push(0x53);
    out.push(0x01);
    assert(out@ =~= magic());
    let update = u128_to_le_bytes(entry.update_time().as_nanos());
    push_field(&mut out, FIELD_UPDATE_TIME, update.as_slice());
    match entry.expires_at() {
        Some(at) => {
            let expiry = u128_to_le_bytes(at.as_nanos());
            push_field(&mut out, FIELD_EXPIRES_AT, expiry.as_slice());
        },
        None => {},
    }
    assert(out@ =~= magic() + (field(FIELD_UPDATE_TIME, time_bytes(view.entry.update_time))
        + view.expiry_field()));
    let tag_bytes = tag.as_bytes();
    let content = entry.content().as_slice();
    assert(tag_bytes.len() <= u64::MAX && content.len() <= u64::MAX);
    push_field(&mut out, FIELD_TAG, tag_bytes);
    push_field(&mut out, FIELD_CONTENT, content);
    assert(out@ =~= view.to_bytes());
    out
}


/// The bytes of an optional vector.
pub open spec fn bytes_of(v: Option<Vec<u8>>) -> Option<Seq<u8>> {
    match v {
        Some(v) => Some(v@),
        None => None,
    }
}

/// Reads the file of an entry.
pub fn deserialize(bytes: &[u8]) -> (r: Result<StoredRecord, EncodingError>)
    ensures
        match r {
            Ok(record) => parse_record(bytes@) == Ok::<RecordView, EncodingError>(record@),
            Err(e) => parse_record(bytes@) == Err::<RecordView, EncodingError>(e),
        },
{
    let n = bytes.len();
    if n < 4 || bytes[0] != 0x43 || bytes[1] != 0x43 || bytes[2] != 0x53 || bytes[3] != 0x01 {
        proof {
            if n >= 4 {
                let front = bytes@.take(4);
                assert(front[0] == bytes@[0] && front[1] == bytes@[1] && front[2] == bytes@[2]
                    && front[3] == bytes@[3]);
            }
        }
        return Err(EncodingError::BadMagic);
    }
    assert(bytes@.take(4) =~= magic());
    let mut update_time: Option<TimeSpan> = None;
    let mut expires_at: Option<TimeSpan> = None;
    let mut tag: Option<String> = None;
    let mut content: Option<Vec<u8>> = None;
    let mut pos: usize = 4;
    let ghost goal = parse_fields(bytes@.skip(4), Fields::none());
    while pos < n
        invariant
            4 <= pos <= n,
            n == bytes@.len(),
            parse_record(bytes@) == match goal {
                Err(e) => Err(e),
                Ok(fields) => fields.finish(),
            },
            goal == parse_fields(
                bytes@.skip(pos as int),
                Fields {
                    update_time: span_nanos(update_time),
                    expires_at: span_nanos(expires_at),
                    tag: crate::tag::text_of(tag),
                    content: bytes_of(content),
                },
            ),
        decreases n - pos,
    {
        let ghost rest = bytes@.skip(pos as int);
        if n - pos < 9 {
            return Err(EncodingError::Truncated);
        }
        let id = bytes[pos];
        let len = u64_from_le_bytes(slice_subrange(bytes, pos + 1, pos + 9));
        assert(rest.subrange(1, 9) =~= bytes@.subrange(pos + 1, pos + 9));
        assert(rest[0] == id);
        if len > (n - pos - 9) as u64 {
            return Err(EncodingError::Truncated);
        }
        let len = len as usize;
        let value = slice_subrange(bytes, pos + 9, pos + 9 + len);
        assert(rest.subrange(9, 9 + len) =~= value@);
        assert(rest.skip(9 + len) =~= bytes@.skip(pos + 9 + len));
        if id == FIELD_UPDATE_TIME {
            if len == 16 {
                update_time = Some(TimeSpan::from_nanos(u128_from_le_bytes(value)));
            } else {
                return Err(EncodingError::Malformed);
            }
        } else if id == FIELD_EXPIRES_AT {
            if len == 0 {
                expires_at = None;
            } else if len == 16 {
                expires_at = Some(TimeSpan::from_nanos(u128_from_le_bytes(value)));
            } else {
                return Err(EncodingError::Malformed);
            }
        } else if id == FIELD_TAG {
            match string_from_utf8(slice_to_vec(value)) {
                Some(s) => {
                    tag = Some(s);
                },
                None => {
                    return Err(EncodingError::Malformed);
                },
            }
        } else if id == FIELD_CONTENT {
            content = Some(slice_to_vec(value));
        }
        pos = pos + 9 + len;
    }
    assert(bytes@.skip(n as int).len() == 0);
    match (update_time, tag, content) {
        (Some(update_time), Some(tag), Some(content)) => Ok(
            StoredRecord { tag, entry: CachedContent::from_parts(update_time, expires_at, content) },
        ),
        _ => Err(EncodingError::MissingField),
    }
}

} // verus!
